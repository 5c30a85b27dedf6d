//! The slice of a build manifest the supervisor reads: the declared
//! test and benchmark targets and whether each keeps the default
//! harness.  The boundary code parses the manifest file and hands the
//! plain values over.

use vstd::prelude::*;

verus! {

/// One `[[test]]` or `[[bench]]` entry; `harness` is absent when the
/// manifest does not set it, which means the default harness is used.
pub struct Item {
    pub harness: Option<bool>,
}

/// The test and benchmark targets of a manifest.
pub struct CargoToml {
    pub test: Vec<Item>,
    pub bench: Vec<Item>,
}

/// Every entry keeps its harness: none sets `harness = false`.
pub open spec fn spec_all_have_harness(items: Seq<Item>) -> bool {
    forall|i: int| 0 <= i < items.len() ==> ((#[trigger] items[i].harness) matches Some(h) ==> h)
}

impl CargoToml {
    pub fn all_tests_have_harness(&self) -> (r: bool)
        ensures
            r == spec_all_have_harness(self.test@),
    {
        Self::all_have_harness(&self.test)
    }

    pub fn all_benchmarks_have_harness(&self) -> (r: bool)
        ensures
            r == spec_all_have_harness(self.bench@),
    {
        Self::all_have_harness(&self.bench)
    }

    pub fn all_have_harness(items: &Vec<Item>) -> (r: bool)
        ensures
            r == spec_all_have_harness(items@),
    {
        let n = items.len();
        let mut i: usize = 0;
        while i < n
            invariant
                i <= n,
                n == items@.len(),
                forall|j: int| 0 <= j < i ==> ((#[trigger] items@[j].harness) matches Some(h) ==> h),
            decreases n - i,
        {
            match items[i].harness {
                Some(h) => if !h {
                    return false;
                },
                None => (),
            }
            i += 1;
        }
        true
    }
}

} // verus!
