//! A small path model over plain strings, as the supervisor needs it:
//! paths are `/`-separated, a path is absolute exactly when it starts
//! with `/`, and a root prefix must end on a component boundary.

use vstd::prelude::*;
use crate::text::has_prefix;
use crate::text::str_starts_with;
use crate::text::str_eq;

verus! {

/// A path is relative unless it starts with the separator.
pub open spec fn spec_is_relative(p: Seq<char>) -> bool {
    p.len() == 0 || p[0] != '/'
}

/// `p` lies under `root`: equal to it, or extends it at a component
/// boundary.  An empty root contains nothing.
pub open spec fn spec_under_root(p: Seq<char>, root: Seq<char>) -> bool {
    root.len() > 0 && (p == root || (has_prefix(p, root) && p.len() > root.len() && p[root.len()
        as int] == '/'))
}

/// `root` joined with a further path: a separator is inserted unless
/// the root already ends with one.
pub open spec fn spec_join(root: Seq<char>, rel: Seq<char>) -> Seq<char> {
    if root.len() > 0 && root[root.len() - 1] == '/' {
        root + rel
    } else {
        root + seq!['/'] + rel
    }
}

pub fn is_relative_path(p: &str) -> (r: bool)
    ensures
        r == spec_is_relative(p@),
{
    if p.unicode_len() == 0 {
        true
    } else {
        p.get_char(0) != '/'
    }
}

pub fn path_under_root(p: &str, root: &str) -> (r: bool)
    ensures
        r == spec_under_root(p@, root@),
{
    let rn = root.unicode_len();
    if rn == 0 {
        return false;
    }
    if str_eq(p, root) {
        return true;
    }
    if !str_starts_with(p, root) {
        return false;
    }
    if p.unicode_len() > rn {
        p.get_char(rn) == '/'
    } else {
        proof {
            if p@.len() == root@.len() {
                assert(p@ =~= root@);
            }
        }
        false
    }
}

pub fn path_join(root: &str, rel: &str) -> (r: String)
    ensures
        r@ == spec_join(root@, rel@),
{
    let rn = root.unicode_len();
    let mut out = root.to_owned();
    if rn == 0 || root.get_char(rn - 1) != '/' {
        out.append("/");
        proof {
            reveal_strlit("/");
            assert("/"@ =~= seq!['/']);
        }
    }
    out.append(rel);
    out
}

/// Joining a relative path onto an absolute root that does not end
/// in a separator gives an absolute path under that root.
pub proof fn lemma_join_under_root(root: Seq<char>, rel: Seq<char>)
    requires
        !spec_is_relative(root),
        root[root.len() - 1] != '/',
    ensures
        !spec_is_relative(spec_join(root, rel)),
        spec_under_root(spec_join(root, rel), root),
{
    let p = spec_join(root, rel);
    assert(p == root + seq!['/'] + rel);
    assert(p[root.len() as int] == '/');
    assert(p[0] == root[0]);
}

/// A path under an absolute root is itself absolute.
pub proof fn lemma_under_root_absolute(p: Seq<char>, root: Seq<char>)
    requires
        spec_under_root(p, root),
        !spec_is_relative(root),
    ensures
        !spec_is_relative(p),
{
    if p == root {
    } else {
        assert(p[0] == root[0]);
    }
}

/// The final component of `p`: everything after the last separator.
pub open spec fn spec_file_name(p: Seq<char>) -> Seq<char> {
    match p.index_of_last('/') {
        Some(i) => p.skip(i + 1),
        None => p,
    }
}

/// The stem of the final component: the component itself, cut at its
/// last dot when that dot is not its first character.
pub open spec fn spec_file_stem(p: Seq<char>) -> Seq<char> {
    let name = spec_file_name(p);
    match name.index_of_last('.') {
        Some(i) => if i > 0 {
            name.take(i)
        } else {
            name
        },
        None => name,
    }
}

/// Index just past the last occurrence of `c`, or zero when `c` does
/// not occur.
fn index_after_last(s: &str, c: char) -> (r: usize)
    ensures
        match s@.index_of_last(c) {
            Some(i) => r == i + 1,
            None => r == 0,
        },
{
    let n = s.unicode_len();
    let mut i: usize = n;
    while i > 0
        invariant
            i <= n,
            n == s@.len(),
            forall|j: int| i <= j < n ==> s@[j] != c,
        decreases i,
    {
        if s.get_char(i - 1) == c {
            proof {
                lemma_index_of_last_from_witness(s@, c, i - 1);
            }
            return i;
        }
        i -= 1;
    }
    proof {
        s@.index_of_last_ensures(c);
        if s@.index_of_last(c) is Some {
            let w = s@.index_of_last(c).unwrap();
            assert(s@[w] == c);
        }
    }
    0
}

/// A position holding `c` with nothing but non-`c` after it is the
/// last occurrence.
proof fn lemma_index_of_last_from_witness(s: Seq<char>, c: char, w: int)
    requires
        0 <= w < s.len(),
        s[w] == c,
        forall|j: int| w < j < s.len() ==> s[j] != c,
    ensures
        s.index_of_last(c) == Some(w),
{
    s.index_of_last_ensures(c);
    if s.index_of_last(c) is Some {
        let i = s.index_of_last(c).unwrap();
        if i < w {
        } else if i > w {
            assert(s[i] == c);
        }
    } else {
        assert(!s.contains(c));
        assert(s[w] == c);
    }
}

/// The stem of the executable name in `p`, as an owned string.
pub fn file_stem(p: &str) -> (r: String)
    ensures
        r@ == spec_file_stem(p@),
{
    let n = p.unicode_len();
    let start = index_after_last(p, '/');
    proof {
        p@.index_of_last_ensures('/');
    }
    let name = p.substring_char(start, n);
    proof {
        assert(p@.subrange(start as int, n as int) =~= p@.skip(start as int));
        if p@.index_of_last('/') is None {
            assert(p@.skip(0) =~= p@);
        }
    }
    let dot = index_after_last(name, '.');
    proof {
        name@.index_of_last_ensures('.');
    }
    let stem = if dot > 1 {
        name.substring_char(0, dot - 1)
    } else {
        name
    };
    proof {
        let nm = spec_file_name(p@);
        nm.index_of_last_ensures('.');
        if nm.index_of_last('.') is Some {
            let i = nm.index_of_last('.').unwrap();
            if i > 0 {
                assert(nm.subrange(0, i) =~= nm.take(i));
            }
        }
    }
    stem.to_owned()
}

} // verus!
