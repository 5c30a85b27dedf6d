//! The classifier and the diagnostic transform.
//!
//! The classifier consumes the child's already-decoded records one by
//! one, bucketing them by severity, and tells the caller when to stop
//! reading and when to arm the kill timer.  The transform turns a
//! finished classification into the final, deduplicated, ordered and
//! truncated message list and the source locations extracted from it.

use vstd::prelude::*;
use vstd::multiset::Multiset;
use crate::diagnostic::CompilerMessage;
use crate::diagnostic::Level;
use crate::diagnostic::spec_has_key;
use crate::diagnostic::spec_min_primary_span;
use crate::diagnostic::spec_msg_key_eq;
use crate::diagnostic::spec_msg_lt;
use crate::diagnostic::spec_span_in_project;
use crate::diagnostic::has_primary_key;
use crate::diagnostic::min_primary_span;
use crate::diagnostic::msg_key_eq;
use crate::diagnostic::msg_lt;
use crate::models::Location;
use crate::models::spec_location_path;
use crate::models::spec_location_text;
use crate::options::Options;
use crate::process::State;
use crate::text::contains_seq;
use crate::text::str_contains;
use crate::text::str_eq;

verus! {

/// One decoded line of the child's output, reduced to what the
/// classifier distinguishes: a compiler message, the end-of-build
/// marker, or anything else.
pub enum ParsedMessage {
    CompilerMessage(CompilerMessage),
    BuildFinished,
    Other,
}

pub open spec fn spec_is_ice(m: CompilerMessage) -> bool {
    m.message.level == Level::Ice
}

pub open spec fn spec_is_error(m: CompilerMessage) -> bool {
    m.message.level == Level::Error
}

pub open spec fn spec_is_non_error(m: CompilerMessage) -> bool {
    !spec_is_ice(m) && !spec_is_error(m)
}

/// The records of `s` that are compiler messages satisfying `pred`,
/// in stream order.
pub open spec fn spec_bucket(
    s: Seq<ParsedMessage>,
    pred: spec_fn(CompilerMessage) -> bool,
) -> Seq<CompilerMessage>
    decreases s.len(),
{
    if s.len() == 0 {
        Seq::empty()
    } else {
        let rest = spec_bucket(s.drop_last(), pred);
        match s.last() {
            ParsedMessage::CompilerMessage(m) => if pred(m) {
                rest.push(m)
            } else {
                rest
            },
            _ => rest,
        }
    }
}

pub open spec fn spec_ices(s: Seq<ParsedMessage>) -> Seq<CompilerMessage> {
    spec_bucket(s, |m: CompilerMessage| spec_is_ice(m))
}

pub open spec fn spec_errors(s: Seq<ParsedMessage>) -> Seq<CompilerMessage> {
    spec_bucket(s, |m: CompilerMessage| spec_is_error(m))
}

pub open spec fn spec_non_errors(s: Seq<ParsedMessage>) -> Seq<CompilerMessage> {
    spec_bucket(s, |m: CompilerMessage| spec_is_non_error(m))
}

/// The prefix of the stream the classifier processes: everything up
/// to, and not including, the first end-of-build marker.
pub open spec fn spec_processed(s: Seq<ParsedMessage>) -> Seq<ParsedMessage>
    decreases s.len(),
{
    if s.len() == 0 {
        s
    } else if s.first() is BuildFinished {
        Seq::empty()
    } else {
        seq![s.first()] + spec_processed(s.drop_first())
    }
}

/// A clean prefix ended by the first marker (or by the stream's end)
/// is exactly what the classifier processes.
proof fn lemma_processed_prefix(s: Seq<ParsedMessage>, i: int)
    requires
        0 <= i <= s.len(),
        forall|j: int| 0 <= j < i ==> !(#[trigger] s[j] is BuildFinished),
        i == s.len() || s[i] is BuildFinished,
    ensures
        spec_processed(s) == s.take(i),
    decreases i,
{
    if s.len() == 0 {
        assert(s.take(i) =~= s);
    } else if i == 0 {
        if s.len() > 0 && s[0] is BuildFinished {
            assert(spec_processed(s) =~= s.take(0));
        } else {
            assert(i == s.len());
            assert(s.len() == 0);
        }
    } else {
        assert(!(s[0] is BuildFinished));
        let d = s.drop_first();
        assert(forall|j: int| 0 <= j < i - 1 ==> !(#[trigger] d[j] is BuildFinished)) by {
            assert(forall|j: int| 0 <= j < i - 1 ==> #[trigger] d[j] == s[j + 1]);
        }
        lemma_processed_prefix(d, i - 1);
        assert(spec_processed(s) == seq![s.first()] + d.take(i - 1));
        assert(seq![s.first()] + d.take(i - 1) =~= s.take(i));
    }
}

/// Appending one record extends the matching bucket and no other.
proof fn lemma_bucket_push(
    s: Seq<ParsedMessage>,
    x: ParsedMessage,
    pred: spec_fn(CompilerMessage) -> bool,
)
    ensures
        spec_bucket(s.push(x), pred) == (match x {
            ParsedMessage::CompilerMessage(m) => if pred(m) {
                spec_bucket(s, pred).push(m)
            } else {
                spec_bucket(s, pred)
            },
            _ => spec_bucket(s, pred),
        }),
{
    assert(s.push(x).drop_last() =~= s);
}

/// Accumulated classification of one pass over the stream.
pub struct Messages {
    pub internal_compiler_errors: Vec<CompilerMessage>,
    pub errors: Vec<CompilerMessage>,
    pub non_errors: Vec<CompilerMessage>,
    /// Whether this pass ended because the child was killed.
    pub child_killed: bool,
}

impl Default for Messages {
    fn default() -> (r: Self)
        ensures
            r.internal_compiler_errors@ == Seq::<CompilerMessage>::empty(),
            r.errors@ == Seq::<CompilerMessage>::empty(),
            r.non_errors@ == Seq::<CompilerMessage>::empty(),
            r.child_killed == false,
    {
        Messages {
            internal_compiler_errors: Vec::new(),
            errors: Vec::new(),
            non_errors: Vec::new(),
            child_killed: false,
        }
    }
}

impl Messages {
    /// The three buckets hold exactly the classification of `s`.
    pub open spec fn buckets_of(self, s: Seq<ParsedMessage>) -> bool {
        &&& self.internal_compiler_errors@ == spec_ices(s)
        &&& self.errors@ == spec_errors(s)
        &&& self.non_errors@ == spec_non_errors(s)
    }

    /// Classify one record: append it to the bucket matching its
    /// severity; report whether reading must stop (end-of-build).
    pub fn classify(&mut self, message: ParsedMessage) -> (stop: bool)
        ensures
            stop == (message is BuildFinished),
            final(self).child_killed == old(self).child_killed,
            final(self).internal_compiler_errors@ == (match message {
                ParsedMessage::CompilerMessage(m) => if spec_is_ice(m) {
                    old(self).internal_compiler_errors@.push(m)
                } else {
                    old(self).internal_compiler_errors@
                },
                _ => old(self).internal_compiler_errors@,
            }),
            final(self).errors@ == (match message {
                ParsedMessage::CompilerMessage(m) => if spec_is_error(m) {
                    old(self).errors@.push(m)
                } else {
                    old(self).errors@
                },
                _ => old(self).errors@,
            }),
            final(self).non_errors@ == (match message {
                ParsedMessage::CompilerMessage(m) => if spec_is_non_error(m) {
                    old(self).non_errors@.push(m)
                } else {
                    old(self).non_errors@
                },
                _ => old(self).non_errors@,
            }),
    {
        match message {
            ParsedMessage::CompilerMessage(m) => {
                match m.message.level {
                    Level::Ice => self.internal_compiler_errors.push(m),
                    Level::Error => self.errors.push(m),
                    _ => self.non_errors.push(m),
                }
                false
            },
            ParsedMessage::BuildFinished => true,
            ParsedMessage::Other => false,
        }
    }

    /// Whether any error or internal compiler error has been seen.
    pub fn has_errors(&self) -> (r: bool)
        ensures
            r == (self.errors@.len() > 0 || self.internal_compiler_errors@.len() > 0),
    {
        self.errors.len() > 0 || self.internal_compiler_errors.len() > 0
    }

    /// The classifier asks for the kill timer exactly when an error
    /// was seen and a non-zero time limit is configured.  Safe to ask
    /// on every record: arming is idempotent.
    pub fn should_arm_kill_timer(&self, time_limit_after_error: u64) -> (r: bool)
        ensures
            r == ((self.errors@.len() > 0 || self.internal_compiler_errors@.len() > 0)
                && time_limit_after_error != 0),
    {
        self.has_errors() && time_limit_after_error != 0
    }

    /// Record what the settled kill state means for this pass: the
    /// child was killed exactly when the state says it is gone.
    pub fn record_wait_outcome(&mut self, settled: State)
        requires
            settled != State::Killing,
        ensures
            *final(self) == (Messages {
                child_killed: settled == State::NotRunning,
                ..*old(self)
            }),
    {
        self.child_killed = matches!(settled, State::NotRunning);
    }

    /// Merge a second pass into this one: same-severity buckets are
    /// concatenated in pass order; the killed flags are or-ed.
    pub fn merge(&mut self, other: Self)
        ensures
            final(self).internal_compiler_errors@ == old(self).internal_compiler_errors@
                + other.internal_compiler_errors@,
            final(self).errors@ == old(self).errors@ + other.errors@,
            final(self).non_errors@ == old(self).non_errors@ + other.non_errors@,
            final(self).child_killed == (old(self).child_killed || other.child_killed),
    {
        let mut other = other;
        self.internal_compiler_errors.append(&mut other.internal_compiler_errors);
        self.errors.append(&mut other.errors);
        self.non_errors.append(&mut other.non_errors);
        self.child_killed = self.child_killed || other.child_killed;
    }

    /// Classify a whole stream of records, stopping at the first
    /// end-of-build marker.  The killed flag is left unset: it is the
    /// caller's to decide from the settled kill state.
    pub fn classify_stream(stream: Vec<ParsedMessage>) -> (r: Messages)
        ensures
            r.buckets_of(spec_processed(stream@)),
            r.child_killed == false,
    {
        let ghost all = stream@;
        let mut rest = stream;
        let mut result = Messages::default();
        let ghost k: int = 0;
        proof {
            assert(all.take(0) =~= Seq::<ParsedMessage>::empty());
        }
        while rest.len() > 0
            invariant
                all == stream@,
                0 <= k <= all.len(),
                rest@ == all.skip(k),
                forall|j: int| 0 <= j < k ==> !(#[trigger] all[j] is BuildFinished),
                result.buckets_of(all.take(k)),
                result.child_killed == false,
            decreases rest@.len(),
        {
            let message = rest.remove(0);
            proof {
                assert(message == all[k]);
                assert(all.take(k + 1).drop_last() =~= all.take(k));
                lemma_bucket_push(all.take(k), all[k], |m: CompilerMessage| spec_is_ice(m));
                lemma_bucket_push(all.take(k), all[k], |m: CompilerMessage| spec_is_error(m));
                lemma_bucket_push(all.take(k), all[k], |m: CompilerMessage| spec_is_non_error(m));
                assert(all.take(k).push(all[k]) =~= all.take(k + 1));
            }
            let stop = result.classify(message);
            if stop {
                proof {
                    lemma_processed_prefix(all, k);
                }
                return result;
            }
            proof {
                assert(rest@ =~= all.skip(k + 1));
                k = k + 1;
            }
        }
        proof {
            lemma_processed_prefix(all, all.len() as int);
            assert(all.take(all.len() as int) =~= all);
        }
        result
    }
}

/// Classification completeness: a stream of compiler records (no
/// markers, no pass-through lines) is partitioned by severity into
/// the three buckets: together they hold every record exactly once,
/// each bucket in stream order.
pub proof fn lemma_classification_completeness(stream: Seq<ParsedMessage>)
    requires
        forall|i: int| 0 <= i < stream.len() ==> #[trigger] stream[i] is CompilerMessage,
    ensures
        spec_processed(stream) == stream,
        spec_ices(stream).len() + spec_errors(stream).len() + spec_non_errors(stream).len()
            == stream.len(),
{
    lemma_processed_prefix(stream, stream.len() as int);
    assert(stream.take(stream.len() as int) =~= stream);
    lemma_bucket_sum(stream);
}

proof fn lemma_bucket_sum(stream: Seq<ParsedMessage>)
    requires
        forall|i: int| 0 <= i < stream.len() ==> #[trigger] stream[i] is CompilerMessage,
    ensures
        spec_ices(stream).len() + spec_errors(stream).len() + spec_non_errors(stream).len()
            == stream.len(),
    decreases stream.len(),
{
    if stream.len() > 0 {
        let d = stream.drop_last();
        assert(forall|i: int| 0 <= i < d.len() ==> #[trigger] d[i] is CompilerMessage) by {
            assert(forall|i: int| 0 <= i < d.len() ==> d[i] == stream[i]);
        }
        lemma_bucket_sum(d);
        assert(stream.last() is CompilerMessage);
    }
}

/// Appending one element to a filtered sequence.
proof fn lemma_filter_push<A>(s: Seq<A>, x: A, pred: spec_fn(A) -> bool)
    ensures
        s.push(x).filter(pred) == (if pred(x) {
            s.filter(pred).push(x)
        } else {
            s.filter(pred)
        }),
{
    reveal(Seq::filter);
    assert(s.push(x).drop_last() =~= s);
}

/// The non-error records kept by the warning filter: everything, or
/// only what the project itself produced.
pub open spec fn spec_project_only(s: Seq<CompilerMessage>, root: Seq<char>) -> Seq<
    CompilerMessage,
> {
    s.filter(|m: CompilerMessage| !m.spec_is_dependency(root))
}

/// Drop records whose originating target lies outside the project.
fn retain_project_messages(messages: Vec<CompilerMessage>, root: &str) -> (r: Vec<
    CompilerMessage,
>)
    ensures
        r@ == spec_project_only(messages@, root@),
{
    let ghost all = messages@;
    let mut rest = messages;
    let mut out: Vec<CompilerMessage> = Vec::new();
    let ghost k: int = 0;
    proof {
        assert(all.take(0) =~= Seq::<CompilerMessage>::empty());
        assert(all.take(0).filter(|m: CompilerMessage| !m.spec_is_dependency(root@))
            =~= Seq::<CompilerMessage>::empty()) by {
            reveal(Seq::filter);
        }
    }
    while rest.len() > 0
        invariant
            all == messages@,
            0 <= k <= all.len(),
            rest@ == all.skip(k),
            out@ == spec_project_only(all.take(k), root@),
        decreases rest@.len(),
    {
        let m = rest.remove(0);
        proof {
            assert(m == all[k]);
            lemma_filter_push(all.take(k), all[k], |m: CompilerMessage| !m.spec_is_dependency(
                root@,
            ));
            assert(all.take(k).push(all[k]) =~= all.take(k + 1));
            assert(rest@ =~= all.skip(k + 1));
        }
        if !m.is_dependency(root) {
            out.push(m);
        }
        proof {
            k = k + 1;
        }
    }
    proof {
        assert(all.take(all.len() as int) =~= all);
    }
    out
}

/// A record with no spans but a rendered text: the raw "build
/// aborted" style notes the error fallback works on.
pub open spec fn spec_is_bare_rendered(m: CompilerMessage) -> bool {
    m.message.spans@.len() == 0 && m.message.rendered is Some
}

/// The note the compiler emits after earlier errors, recognised by
/// its text.
pub open spec fn spec_is_abort_note(m: CompilerMessage) -> bool {
    contains_seq(m.message.message@, "aborting due to previous error"@)
}

/// Same rendered text (both absent counts as same).
pub open spec fn spec_rendered_eq(a: CompilerMessage, b: CompilerMessage) -> bool {
    match (a.message.rendered, b.message.rendered) {
        (Option::Some(x), Option::Some(y)) => x@ == y@,
        (Option::None, Option::None) => true,
        _ => false,
    }
}

pub open spec fn spec_has_rendered_match(s: Seq<CompilerMessage>, m: CompilerMessage) -> bool {
    exists|i: int| 0 <= i < s.len() && spec_rendered_eq(#[trigger] s[i], m)
}

/// Keep the first record of each rendered text, in order.
pub open spec fn spec_dedup_rendered(s: Seq<CompilerMessage>) -> Seq<CompilerMessage>
    decreases s.len(),
{
    if s.len() == 0 {
        s
    } else {
        let d = spec_dedup_rendered(s.drop_last());
        if spec_has_rendered_match(d, s.last()) {
            d
        } else {
            d.push(s.last())
        }
    }
}

/// The error set used when no structured error carries a span: the
/// distinct bare rendered notes, with the "aborting due to previous
/// error" notes used only when nothing else is left.
pub open spec fn spec_filter_cargo_errors(errors: Seq<CompilerMessage>) -> Seq<CompilerMessage> {
    let good = spec_dedup_rendered(
        errors.filter(|m: CompilerMessage| spec_is_bare_rendered(m) && !spec_is_abort_note(m)),
    );
    let bad = spec_dedup_rendered(
        errors.filter(|m: CompilerMessage| spec_is_bare_rendered(m) && spec_is_abort_note(m)),
    );
    if good.len() > 0 {
        good
    } else {
        bad
    }
}

fn rendered_eq(a: &CompilerMessage, b: &CompilerMessage) -> (r: bool)
    ensures
        r == spec_rendered_eq(*a, *b),
{
    match (&a.message.rendered, &b.message.rendered) {
        (Option::Some(x), Option::Some(y)) => str_eq(x.as_str(), y.as_str()),
        (Option::None, Option::None) => true,
        _ => false,
    }
}

fn has_rendered_match(s: &Vec<CompilerMessage>, m: &CompilerMessage) -> (r: bool)
    ensures
        r == spec_has_rendered_match(s@, *m),
{
    let n = s.len();
    let mut i: usize = 0;
    while i < n
        invariant
            i <= n,
            n == s@.len(),
            forall|j: int| 0 <= j < i ==> !spec_rendered_eq(#[trigger] s@[j], *m),
        decreases n - i,
    {
        if rendered_eq(&s[i], m) {
            return true;
        }
        i += 1;
    }
    false
}

fn dedup_rendered(messages: Vec<CompilerMessage>) -> (r: Vec<CompilerMessage>)
    ensures
        r@ == spec_dedup_rendered(messages@),
{
    let ghost all = messages@;
    let mut rest = messages;
    let mut out: Vec<CompilerMessage> = Vec::new();
    let ghost k: int = 0;
    proof {
        assert(all.take(0) =~= Seq::<CompilerMessage>::empty());
    }
    while rest.len() > 0
        invariant
            all == messages@,
            0 <= k <= all.len(),
            rest@ == all.skip(k),
            out@ == spec_dedup_rendered(all.take(k)),
        decreases rest@.len(),
    {
        let m = rest.remove(0);
        proof {
            assert(m == all[k]);
            assert(all.take(k + 1).drop_last() =~= all.take(k));
            assert(all.take(k + 1).last() == all[k]);
            assert(rest@ =~= all.skip(k + 1));
        }
        if !has_rendered_match(&out, &m) {
            out.push(m);
        }
        proof {
            k = k + 1;
        }
    }
    proof {
        assert(all.take(all.len() as int) =~= all);
    }
    out
}

/// Pick out the bare rendered notes when the structured errors carry
/// no spans; prefer real failures over "aborting due to previous
/// error" notes, one record per distinct rendered text.
pub fn filter_cargo_errors(errors: Vec<CompilerMessage>) -> (r: Vec<CompilerMessage>)
    ensures
        r@ == spec_filter_cargo_errors(errors@),
{
    let ghost all = errors@;
    let mut rest = errors;
    let mut good_raw: Vec<CompilerMessage> = Vec::new();
    let mut bad_raw: Vec<CompilerMessage> = Vec::new();
    let ghost k: int = 0;
    proof {
        assert(all.take(0) =~= Seq::<CompilerMessage>::empty());
        reveal(Seq::filter);
    }
    while rest.len() > 0
        invariant
            all == errors@,
            0 <= k <= all.len(),
            rest@ == all.skip(k),
            good_raw@ == all.take(k).filter(
                |m: CompilerMessage| spec_is_bare_rendered(m) && !spec_is_abort_note(m),
            ),
            bad_raw@ == all.take(k).filter(
                |m: CompilerMessage| spec_is_bare_rendered(m) && spec_is_abort_note(m),
            ),
        decreases rest@.len(),
    {
        let m = rest.remove(0);
        proof {
            assert(m == all[k]);
            lemma_filter_push(
                all.take(k),
                all[k],
                |m: CompilerMessage| spec_is_bare_rendered(m) && !spec_is_abort_note(m),
            );
            lemma_filter_push(
                all.take(k),
                all[k],
                |m: CompilerMessage| spec_is_bare_rendered(m) && spec_is_abort_note(m),
            );
            assert(all.take(k).push(all[k]) =~= all.take(k + 1));
            assert(rest@ =~= all.skip(k + 1));
        }
        let bare = m.message.spans.len() == 0 && m.message.rendered.is_some();
        if bare {
            if str_contains(m.message.message.as_str(), "aborting due to previous error") {
                bad_raw.push(m);
            } else {
                good_raw.push(m);
            }
        }
        proof {
            k = k + 1;
        }
    }
    proof {
        assert(all.take(all.len() as int) =~= all);
    }
    let good = dedup_rendered(good_raw);
    if good.len() > 0 {
        good
    } else {
        dedup_rendered(bad_raw)
    }
}

/// Some element of `s` has the same grouping key as `m`.
pub open spec fn spec_has_key_match(
    s: Seq<CompilerMessage>,
    m: CompilerMessage,
    root: Seq<char>,
) -> bool {
    exists|i: int| 0 <= i < s.len() && spec_msg_key_eq(#[trigger] s[i], m, root)
}

/// One representative per grouping key: records without a primary
/// span are dropped, and of records sharing a key the first in stream
/// order stays.
pub open spec fn spec_group_reps(s: Seq<CompilerMessage>, root: Seq<char>) -> Seq<
    CompilerMessage,
>
    decreases s.len(),
{
    if s.len() == 0 {
        s
    } else {
        let d = spec_group_reps(s.drop_last(), root);
        let m = s.last();
        if !spec_has_key(m, root) {
            d
        } else if spec_has_key_match(d, m, root) {
            d
        } else {
            d.push(m)
        }
    }
}

/// Every element of `s` has a grouping key.
pub open spec fn spec_all_keyed(s: Seq<CompilerMessage>, root: Seq<char>) -> bool {
    forall|i: int| 0 <= i < s.len() ==> spec_has_key(#[trigger] s[i], root)
}

/// No two elements of `s` share a grouping key.
pub open spec fn spec_keys_distinct(s: Seq<CompilerMessage>, root: Seq<char>) -> bool {
    forall|i: int, j: int|
        0 <= i < j < s.len() ==> !spec_msg_key_eq(#[trigger] s[i], #[trigger] s[j], root)
}

/// Some element of `s` has a grouping key.
pub open spec fn spec_any_keyed(s: Seq<CompilerMessage>, root: Seq<char>) -> bool {
    exists|i: int| 0 <= i < s.len() && spec_has_key(#[trigger] s[i], root)
}

/// What the grouped representatives satisfy: all keyed, keys
/// pairwise distinct, drawn from the input, and covering every keyed
/// input record.
pub proof fn lemma_group_reps_ensures(s: Seq<CompilerMessage>, root: Seq<char>)
    ensures
        spec_all_keyed(spec_group_reps(s, root), root),
        spec_keys_distinct(spec_group_reps(s, root), root),
        forall|i: int|
            0 <= i < spec_group_reps(s, root).len() ==> s.contains(
                #[trigger] spec_group_reps(s, root)[i],
            ),
        forall|j: int|
            0 <= j < s.len() && spec_has_key(#[trigger] s[j], root) ==> spec_has_key_match(
                spec_group_reps(s, root),
                s[j],
                root,
            ),
    decreases s.len(),
{
    if s.len() > 0 {
        let d = spec_group_reps(s.drop_last(), root);
        let out = spec_group_reps(s, root);
        lemma_group_reps_ensures(s.drop_last(), root);
        assert(forall|i: int|
            0 <= i < d.len() ==> s.drop_last().contains(#[trigger] d[i]));
        assert forall|i: int| 0 <= i < out.len() implies s.contains(#[trigger] out[i]) by {
            if i < d.len() {
                let w = choose|w: int| 0 <= w < s.drop_last().len() && s.drop_last()[w] == d[i];
                assert(s[w] == d[i]);
            } else {
                assert(out[i] == s.last());
                assert(s[s.len() - 1] == s.last());
            }
        }
        assert forall|j: int|
            0 <= j < s.len() && spec_has_key(#[trigger] s[j], root) implies spec_has_key_match(
            out,
            s[j],
            root,
        ) by {
            if j < s.len() - 1 {
                assert(s.drop_last()[j] == s[j]);
                let w = choose|w: int|
                    0 <= w < d.len() && spec_msg_key_eq(#[trigger] d[w], s.drop_last()[j], root);
                assert(out[w] == d[w]);
            } else {
                let m = s.last();
                if spec_has_key_match(d, m, root) {
                    let w = choose|w: int|
                        0 <= w < d.len() && spec_msg_key_eq(#[trigger] d[w], m, root);
                    assert(out[w] == d[w]);
                } else {
                    assert(out[out.len() - 1] == m);
                }
            }
        }
    }
}

/// Whether any record still carries a primary span, which decides
/// between the structured errors and the bare-note fallback.
pub fn any_keyed(messages: &Vec<CompilerMessage>, root: &str) -> (r: bool)
    ensures
        r == spec_any_keyed(messages@, root@),
{
    let n = messages.len();
    let mut i: usize = 0;
    while i < n
        invariant
            i <= n,
            n == messages@.len(),
            forall|j: int| 0 <= j < i ==> !spec_has_key(#[trigger] messages@[j], root@),
        decreases n - i,
    {
        if has_primary_key(&messages[i], root) {
            return true;
        }
        i += 1;
    }
    false
}

/// Keep one representative per key, in first-seen order.
fn group_reps(messages: Vec<CompilerMessage>, root: &str) -> (r: Vec<CompilerMessage>)
    ensures
        r@ == spec_group_reps(messages@, root@),
{
    let ghost all = messages@;
    let mut rest = messages;
    let mut out: Vec<CompilerMessage> = Vec::new();
    let ghost k: int = 0;
    proof {
        assert(all.take(0) =~= Seq::<CompilerMessage>::empty());
    }
    while rest.len() > 0
        invariant
            all == messages@,
            0 <= k <= all.len(),
            rest@ == all.skip(k),
            out@ == spec_group_reps(all.take(k), root@),
            spec_all_keyed(out@, root@),
        decreases rest@.len(),
    {
        let m = rest.remove(0);
        proof {
            assert(m == all[k]);
            assert(all.take(k + 1).drop_last() =~= all.take(k));
            assert(all.take(k + 1).last() == all[k]);
            assert(rest@ =~= all.skip(k + 1));
        }
        if has_primary_key(&m, root) {
            let mut seen = false;
            let n = out.len();
            let mut i: usize = 0;
            while i < n
                invariant
                    i <= n,
                    n == out@.len(),
                    spec_all_keyed(out@, root@),
                    spec_has_key(m, root@),
                    !seen ==> (forall|j: int|
                        0 <= j < i ==> !spec_msg_key_eq(#[trigger] out@[j], m, root@)),
                    seen ==> spec_has_key_match(out@, m, root@),
                decreases n - i,
            {
                if !seen {
                    if msg_key_eq(&out[i], &m, root) {
                        seen = true;
                    }
                }
                i += 1;
            }
            if !seen {
                out.push(m);
            }
        }
        proof {
            k = k + 1;
        }
    }
    proof {
        assert(all.take(all.len() as int) =~= all);
    }
    out
}

/// Strictly ordered by the presentation order.
pub open spec fn spec_sorted_strict(s: Seq<CompilerMessage>, root: Seq<char>) -> bool {
    forall|i: int, j: int|
        0 <= i < j < s.len() ==> spec_msg_lt(#[trigger] s[i], #[trigger] s[j], root)
}

/// Two positions holding the same value give that value a count of at
/// least two.
proof fn lemma_dup_gives_count2<A>(s: Seq<A>, p: int, q: int)
    requires
        0 <= p < q < s.len(),
        s[p] == s[q],
    ensures
        s.to_multiset().count(s[p]) >= 2,
{
    s.to_multiset_ensures();
    let r = s.remove(p);
    assert(r.to_multiset() =~= s.to_multiset().remove(s[p]));
    assert(r[q - 1] == s[q]);
    r.to_multiset_ensures();
    assert(r.contains(s[q]));
    assert(r.to_multiset().count(s[p]) >= 1);
    assert(s.to_multiset().count(s[p]) == r.to_multiset().count(s[p]) + 1);
}

/// Key-distinctness and keyedness carry over to any sequence whose
/// multiset is contained in the first's.
proof fn lemma_sub_multiset_keys_distinct(
    a: Seq<CompilerMessage>,
    b: Seq<CompilerMessage>,
    root: Seq<char>,
)
    requires
        forall|x: CompilerMessage| #[trigger] b.to_multiset().count(x) <= a.to_multiset().count(x),
        spec_all_keyed(a, root),
        spec_keys_distinct(a, root),
    ensures
        spec_all_keyed(b, root),
        spec_keys_distinct(b, root),
{
    a.to_multiset_ensures();
    b.to_multiset_ensures();
    assert forall|i: int| 0 <= i < b.len() implies spec_has_key(#[trigger] b[i], root) by {
        assert(b.contains(b[i]));
        assert(b.to_multiset().count(b[i]) > 0);
        assert(a.contains(b[i]));
        let w = choose|w: int| 0 <= w < a.len() && a[w] == b[i];
    }
    assert forall|i: int, j: int| 0 <= i < j < b.len() implies !spec_msg_key_eq(
        #[trigger] b[i],
        #[trigger] b[j],
        root,
    ) by {
        assert(b.contains(b[i]));
        assert(b.to_multiset().count(b[i]) > 0);
        assert(a.contains(b[i]));
        if b[i] == b[j] {
            lemma_dup_gives_count2(b, i, j);
            assert(a.to_multiset().count(b[i]) >= 2);
            let p = choose|p: int| 0 <= p < a.len() && a[p] == b[i];
            let r = a.remove(p);
            assert(r.to_multiset() =~= a.to_multiset().remove(b[i]));
            r.to_multiset_ensures();
            assert(r.to_multiset().count(b[i]) >= 1);
            assert(r.contains(b[i]));
            let q0 = choose|q: int| 0 <= q < r.len() && r[q] == b[i];
            let q = if q0 < p {
                q0
            } else {
                q0 + 1
            };
            assert(a[q] == b[i]) by {
                a.remove_ensures(p);
            }
            assert(p != q);
            if p < q {
                assert(!spec_msg_key_eq(a[p], a[q], root));
            } else {
                assert(!spec_msg_key_eq(a[q], a[p], root));
            }
            assert(false);
        } else {
            assert(b.contains(b[j]));
            assert(b.to_multiset().count(b[j]) > 0);
            assert(a.contains(b[j]));
            let p = choose|p: int| 0 <= p < a.len() && a[p] == b[i];
            let q = choose|q: int| 0 <= q < a.len() && a[q] == b[j];
            assert(p != q);
            if p < q {
                assert(!spec_msg_key_eq(a[p], a[q], root));
            } else {
                assert(!spec_msg_key_eq(a[q], a[p], root));
            }
        }
    }
}

/// Sort keyed, key-distinct records into the presentation order.
fn sort_messages(messages: Vec<CompilerMessage>, root: &str) -> (r: Vec<CompilerMessage>)
    requires
        spec_all_keyed(messages@, root@),
        spec_keys_distinct(messages@, root@),
    ensures
        r@.to_multiset() == messages@.to_multiset(),
        spec_sorted_strict(r@, root@),
{
    let ghost orig = messages@;
    let mut rest = messages;
    let mut out: Vec<CompilerMessage> = Vec::new();
    proof {
        out@.to_multiset_ensures();
        rest@.to_multiset_ensures();
        assert(out@.to_multiset().add(rest@.to_multiset()) =~= orig.to_multiset());
    }
    while rest.len() > 0
        invariant
            orig == messages@,
            spec_all_keyed(orig, root@),
            spec_keys_distinct(orig, root@),
            out@.to_multiset().add(rest@.to_multiset()) == orig.to_multiset(),
            spec_sorted_strict(out@, root@),
            forall|i: int, j: int|
                0 <= i < out@.len() && 0 <= j < rest@.len() ==> spec_msg_lt(
                    #[trigger] out@[i],
                    #[trigger] rest@[j],
                    root@,
                ),
        decreases rest@.len(),
    {
        proof {
            assert forall|x: CompilerMessage| #[trigger]
                rest@.to_multiset().count(x) <= orig.to_multiset().count(x) by {
                assert(orig.to_multiset().count(x) == out@.to_multiset().count(x)
                    + rest@.to_multiset().count(x));
            }
            lemma_sub_multiset_keys_distinct(orig, rest@, root@);
        }
        let n = rest.len();
        let mut min_idx: usize = 0;
        let mut j: usize = 1;
        while j < n
            invariant
                n == rest@.len(),
                0 < n,
                min_idx < j,
                j <= n,
                spec_all_keyed(rest@, root@),
                spec_keys_distinct(rest@, root@),
                forall|p: int|
                    0 <= p < j && p != min_idx ==> spec_msg_lt(
                        rest@[min_idx as int],
                        #[trigger] rest@[p],
                        root@,
                    ),
            decreases n - j,
        {
            if msg_lt(&rest[j], &rest[min_idx], root) {
                proof {
                    assert forall|p: int|
                        0 <= p < j && p != j as int implies spec_msg_lt(
                        rest@[j as int],
                        #[trigger] rest@[p],
                        root@,
                    ) by {
                        if p != min_idx {
                            crate::diagnostic::lemma_msg_lt_trans(
                                rest@[j as int],
                                rest@[min_idx as int],
                                rest@[p],
                                root@,
                            );
                        }
                    }
                }
                min_idx = j;
            } else {
                proof {
                    if !spec_msg_lt(rest@[min_idx as int], rest@[j as int], root@) {
                        crate::diagnostic::lemma_msg_lt_connected(
                            rest@[min_idx as int],
                            rest@[j as int],
                            root@,
                        );
                        assert(!spec_msg_key_eq(rest@[min_idx as int], rest@[j as int], root@));
                        assert(false);
                    }
                }
            }
            j += 1;
        }
        let ghost rest_before = rest@;
        let m = rest.remove(min_idx);
        proof {
            rest_before.to_multiset_ensures();
            assert(rest@.to_multiset() =~= rest_before.to_multiset().remove(m));
            out@.to_multiset_ensures();
            assert(out@.push(m).to_multiset() =~= out@.to_multiset().insert(m));
            assert(out@.push(m).to_multiset().add(rest@.to_multiset()) =~= orig.to_multiset());
            assert forall|i: int, jj: int|
                0 <= i < out@.push(m).len() && 0 <= jj < rest@.len() implies spec_msg_lt(
                #[trigger] out@.push(m)[i],
                #[trigger] rest@[jj],
                root@,
            ) by {
                let prev = if jj < min_idx {
                    jj
                } else {
                    jj + 1
                };
                assert(rest@[jj] == rest_before[prev]);
                if i < out@.len() {
                    assert(spec_msg_lt(out@[i], rest_before[prev], root@));
                } else {
                    assert(out@.push(m)[i] == m);
                    assert(spec_msg_lt(m, rest_before[prev], root@));
                }
            }
            assert forall|i: int, jj: int|
                0 <= i < jj < out@.push(m).len() implies spec_msg_lt(
                #[trigger] out@.push(m)[i],
                #[trigger] out@.push(m)[jj],
                root@,
            ) by {
                if jj < out@.len() {
                    assert(spec_msg_lt(out@[i], out@[jj], root@));
                } else {
                    assert(out@.push(m)[jj] == m);
                    assert(spec_msg_lt(out@[i], rest_before[min_idx as int], root@));
                }
            }
        }
        out.push(m);
    }
    proof {
        rest@.to_multiset_ensures();
        assert(rest@.to_multiset() =~= Multiset::<CompilerMessage>::empty());
        assert(out@.to_multiset().add(Multiset::<CompilerMessage>::empty())
            =~= out@.to_multiset());
    }
    out
}

/// What the dedup-and-order stage guarantees: the output is some
/// arrangement of the per-key representatives of the input, strictly
/// in the presentation order.
pub open spec fn spec_ordered_output(
    input: Seq<CompilerMessage>,
    root: Seq<char>,
    out: Seq<CompilerMessage>,
) -> bool {
    &&& out.to_multiset() == spec_group_reps(input, root).to_multiset()
    &&& spec_sorted_strict(out, root)
}

/// Dedup records by their resolved primary span and order them:
/// project before dependency, then path, line, column.
pub fn filter_and_order_messages(messages: Vec<CompilerMessage>, root: &str) -> (r: Vec<
    CompilerMessage,
>)
    ensures
        spec_ordered_output(messages@, root@, r@),
{
    let reps = group_reps(messages, root);
    proof {
        lemma_group_reps_ensures(messages@, root@);
    }
    sort_messages(reps, root)
}

pub struct FilteredAndOrderedMessages {
    pub errors: Vec<CompilerMessage>,
    pub warnings: Vec<CompilerMessage>,
}

/// The non-error records the warning path works on.
pub open spec fn spec_warning_input(msgs: Messages, o: Options, root: Seq<char>) -> Seq<
    CompilerMessage,
> {
    if o.show_dependencies_warnings {
        msgs.non_errors@
    } else {
        spec_project_only(msgs.non_errors@, root)
    }
}

/// The error records the error path works on: internal compiler
/// errors ahead of ordinary errors.
pub open spec fn spec_error_input(msgs: Messages) -> Seq<CompilerMessage> {
    msgs.internal_compiler_errors@ + msgs.errors@
}

impl FilteredAndOrderedMessages {
    /// What `filter` guarantees for a given classification.
    pub open spec fn spec_filtered(self, msgs: Messages, o: Options, root: Seq<char>) -> bool {
        &&& spec_ordered_output(spec_warning_input(msgs, o, root), root, self.warnings@)
        &&& (if spec_any_keyed(spec_error_input(msgs), root) {
            spec_ordered_output(spec_error_input(msgs), root, self.errors@)
        } else {
            self.errors@ == spec_filter_cargo_errors(msgs.errors@)
        })
    }

    /// Split a classification into the ordered error list and the
    /// ordered warning list.  Warnings from dependencies are dropped
    /// unless asked for; when no error record carries a span, the
    /// bare rendered notes stand in for the error list.
    pub fn filter(messages: Messages, options: &Options, root: &str) -> (r: Self)
        ensures
            r.spec_filtered(messages, *options, root@),
    {
        let keyed_ices = any_keyed(&messages.internal_compiler_errors, root);
        let keyed_errors = any_keyed(&messages.errors, root);
        proof {
            lemma_any_keyed_concat(
                messages.internal_compiler_errors@,
                messages.errors@,
                root@,
            );
        }
        let Messages {
            internal_compiler_errors: ices,
            errors: errs,
            non_errors,
            child_killed: _,
        } = messages;
        let warning_input = if options.show_dependencies_warnings {
            non_errors
        } else {
            retain_project_messages(non_errors, root)
        };
        let warnings = filter_and_order_messages(warning_input, root);
        let errors = if keyed_ices || keyed_errors {
            let mut both = ices;
            let mut tail = errs;
            both.append(&mut tail);
            filter_and_order_messages(both, root)
        } else {
            filter_cargo_errors(errs)
        };
        FilteredAndOrderedMessages { errors, warnings }
    }
}

/// A record with a key stands in a concatenation exactly when it
/// stands in one of the parts.
proof fn lemma_any_keyed_concat(a: Seq<CompilerMessage>, b: Seq<CompilerMessage>, root: Seq<char>)
    ensures
        spec_any_keyed(a + b, root) == (spec_any_keyed(a, root) || spec_any_keyed(b, root)),
{
    let c = a + b;
    if spec_any_keyed(a, root) {
        let w = choose|i: int| 0 <= i < a.len() && spec_has_key(#[trigger] a[i], root);
        assert(c[w] == a[w]);
    }
    if spec_any_keyed(b, root) {
        let w = choose|i: int| 0 <= i < b.len() && spec_has_key(#[trigger] b[i], root);
        assert(c[a.len() + w] == b[w]);
    }
    if spec_any_keyed(c, root) {
        let w = choose|i: int| 0 <= i < c.len() && spec_has_key(#[trigger] c[i], root);
        if w < a.len() {
            assert(a[w] == c[w]);
        } else {
            assert(b[w - a.len()] == c[w]);
        }
    }
}

/// A message may put a location on the external consumer's list: it
/// has the right severity, and its resolved primary span lies in the
/// project.
pub open spec fn spec_wants_location(m: CompilerMessage, o: Options, root: Seq<char>) -> bool {
    &&& (o.open_in_external_app_on_warnings || m.message.level.is_error_like())
    &&& (match spec_min_primary_span(m.message.spans@, root) {
        Option::Some(sp) => spec_span_in_project(sp, root),
        Option::None => false,
    })
}

/// The messages a location is emitted for, in list order.
pub open spec fn spec_kept_for_locations(
    s: Seq<CompilerMessage>,
    o: Options,
    root: Seq<char>,
) -> Seq<CompilerMessage> {
    s.filter(|m: CompilerMessage| spec_wants_location(m, o, root))
}

/// `l` is the location extracted from `m`: the resolved primary
/// span's place and text, with the message's text and severity.
pub open spec fn spec_location_matches(
    l: Location,
    m: CompilerMessage,
    root: Seq<char>,
) -> bool {
    match spec_min_primary_span(m.message.spans@, root) {
        Option::Some(sp) => {
            &&& l.path@ == spec_location_path(sp.file_name@, root)
            &&& l.line == sp.line_start
            &&& l.column == sp.column_start
            &&& l.text@ == spec_location_text(sp.text@)
            &&& l.message@ == m.message.message@
            &&& l.level == m.message.level
        },
        Option::None => false,
    }
}

pub struct TransformedMessages {
    pub messages: Vec<CompilerMessage>,
    pub locations_in_consistent_order: Vec<Location>,
}

impl TransformedMessages {
    /// One location per qualifying message, in the same order as the
    /// message list itself.
    pub fn extract_locations_for_external_app(
        messages: &Vec<CompilerMessage>,
        options: &Options,
        root: &str,
    ) -> (r: Vec<Location>)
        ensures
            r@.len() == spec_kept_for_locations(messages@, *options, root@).len(),
            forall|i: int|
                0 <= i < r@.len() ==> spec_location_matches(
                    #[trigger] r@[i],
                    spec_kept_for_locations(messages@, *options, root@)[i],
                    root@,
                ),
    {
        let ghost o = *options;
        let n = messages.len();
        let mut out: Vec<Location> = Vec::new();
        let mut i: usize = 0;
        proof {
            assert(messages@.take(0) =~= Seq::<CompilerMessage>::empty());
            reveal(Seq::filter);
        }
        while i < n
            invariant
                o == *options,
                i <= n,
                n == messages@.len(),
                out@.len() == spec_kept_for_locations(messages@.take(i as int), o, root@).len(),
                forall|j: int|
                    0 <= j < out@.len() ==> spec_location_matches(
                        #[trigger] out@[j],
                        spec_kept_for_locations(messages@.take(i as int), o, root@)[j],
                        root@,
                    ),
            decreases n - i,
        {
            let m = &messages[i];
            proof {
                lemma_filter_push(
                    messages@.take(i as int),
                    messages@[i as int],
                    |mm: CompilerMessage| spec_wants_location(mm, o, root@),
                );
                assert(messages@.take(i as int).push(messages@[i as int]) =~= messages@.take(
                    i as int + 1,
                ));
            }
            let wanted = options.open_in_external_app_on_warnings || matches!(
                m.message.level,
                Level::Error | Level::Ice,
            );
            if wanted {
                match min_primary_span(m, root) {
                    Option::Some(span) => {
                        let in_project = crate::paths::is_relative_path(span.file_name.as_str())
                            || crate::paths::path_under_root(span.file_name.as_str(), root);
                        if in_project {
                            let loc = Location::new(span, &m.message, root);
                            out.push(loc);
                            proof {
                                let kept = spec_kept_for_locations(
                                    messages@.take(i as int + 1),
                                    o,
                                    root@,
                                );
                                assert(kept.last() == messages@[i as int]);
                            }
                        }
                    },
                    Option::None => (),
                }
            }
            i += 1;
        }
        proof {
            assert(messages@.take(n as int) =~= messages@);
        }
        out
    }
}

/// Reverse a message list.
fn reverse_messages(messages: Vec<CompilerMessage>) -> (r: Vec<CompilerMessage>)
    ensures
        r@ == messages@.reverse(),
{
    let ghost orig = messages@;
    let mut rest = messages;
    let mut out: Vec<CompilerMessage> = Vec::new();
    proof {
        assert(rest@ =~= orig.take(rest@.len() as int));
        assert(orig.skip(orig.len() as int).reverse() =~= Seq::<CompilerMessage>::empty());
    }
    while rest.len() > 0
        invariant
            orig == messages@,
            rest@.len() <= orig.len(),
            rest@ == orig.take(rest@.len() as int),
            out@ == orig.skip(rest@.len() as int).reverse(),
        decreases rest@.len(),
    {
        let ghost pre = rest@;
        let m = rest.pop().unwrap();
        proof {
            let k = pre.len() as int;
            assert(pre == orig.take(k));
            assert(rest@ == pre.subrange(0, k - 1));
            assert(m == pre[k - 1]);
            assert(pre[k - 1] == orig[k - 1]);
            assert(rest@ =~= orig.take(k - 1));
            assert(orig.skip(k - 1).reverse() =~= orig.skip(k).reverse().push(orig[k - 1]));
        }
        out.push(m);
    }
    proof {
        assert(orig.skip(0) =~= orig);
    }
    out
}

/// The composed message list: errors then warnings when warnings are
/// forced; else only errors when any exist, only warnings otherwise.
pub open spec fn spec_compose(
    errors: Seq<CompilerMessage>,
    warnings: Seq<CompilerMessage>,
    o: Options,
) -> Seq<CompilerMessage> {
    if o.show_warnings_if_errors_exist {
        errors + warnings
    } else if errors.len() > 0 {
        errors
    } else {
        warnings
    }
}

/// At most `k` messages are kept, from the front; zero means no
/// limit.
pub open spec fn spec_limit(s: Seq<CompilerMessage>, k: usize) -> Seq<CompilerMessage> {
    if k == 0 || s.len() <= k {
        s
    } else {
        s.take(k as int)
    }
}

/// Final display order: most relevant last unless ascending order is
/// asked for.
pub open spec fn spec_display(s: Seq<CompilerMessage>, ascending: bool) -> Seq<CompilerMessage> {
    if ascending {
        s
    } else {
        s.reverse()
    }
}

/// What `transform` guarantees, with the ordered error and warning
/// lists as witnesses: the message list is the composed, truncated
/// sequence in display order, and the locations belong index-wise to
/// the truncated sequence before the display reversal.
pub open spec fn spec_transform_witness(
    msgs: Messages,
    o: Options,
    root: Seq<char>,
    errs: Seq<CompilerMessage>,
    warns: Seq<CompilerMessage>,
    out: TransformedMessages,
) -> bool {
    &&& spec_ordered_output(spec_warning_input(msgs, o, root), root, warns)
    &&& (if spec_any_keyed(spec_error_input(msgs), root) {
        spec_ordered_output(spec_error_input(msgs), root, errs)
    } else {
        errs == spec_filter_cargo_errors(msgs.errors@)
    })
    &&& out.messages@ == spec_display(
        spec_limit(spec_compose(errs, warns, o), o.limit_messages),
        o.ascending_messages_order,
    )
    &&& out.locations_in_consistent_order@.len() == spec_kept_for_locations(
        spec_limit(spec_compose(errs, warns, o), o.limit_messages),
        o,
        root,
    ).len()
    &&& (forall|i: int|
        0 <= i < out.locations_in_consistent_order@.len() ==> spec_location_matches(
            #[trigger] out.locations_in_consistent_order@[i],
            spec_kept_for_locations(
                spec_limit(spec_compose(errs, warns, o), o.limit_messages),
                o,
                root,
            )[i],
            root,
        ))
}

/// `out` is a correct transform of `msgs`: witnessed by some ordered
/// error and warning lists.
pub open spec fn spec_transform_ok(
    msgs: Messages,
    o: Options,
    root: Seq<char>,
    out: TransformedMessages,
) -> bool {
    exists|errs: Seq<CompilerMessage>, warns: Seq<CompilerMessage>|
        #[trigger] spec_transform_witness(msgs, o, root, errs, warns, out)
}

impl TransformedMessages {
    /// Turn a finished classification into the final message list and
    /// the location list: filter and order each severity class, pick
    /// errors or warnings or both, truncate, extract locations, and
    /// put the messages into display order.
    pub fn transform(messages: Messages, options: &Options, root: &str) -> (r:
        TransformedMessages)
        ensures
            spec_transform_ok(messages, *options, root@, r),
    {
        let filtered = FilteredAndOrderedMessages::filter(messages, options, root);
        let ghost errs = filtered.errors@;
        let ghost warns = filtered.warnings@;
        let FilteredAndOrderedMessages { errors, warnings } = filtered;
        let has_errors = errors.len() > 0;
        let mut composed = if options.show_warnings_if_errors_exist {
            let mut e = errors;
            let mut w = warnings;
            e.append(&mut w);
            e
        } else if has_errors {
            errors
        } else {
            warnings
        };
        if options.limit_messages != 0 && composed.len() > options.limit_messages {
            composed.truncate(options.limit_messages);
        }
        proof {
            assert(composed@ == spec_limit(spec_compose(errs, warns, *options),
                options.limit_messages));
        }
        let locations = Self::extract_locations_for_external_app(&composed, options, root);
        let out_messages = if options.ascending_messages_order {
            composed
        } else {
            reverse_messages(composed)
        };
        let r = TransformedMessages {
            messages: out_messages,
            locations_in_consistent_order: locations,
        };
        proof {
            assert(spec_transform_witness(messages, *options, root@, errs, warns, r));
        }
        r
    }
}

/// Run the transform when a workspace root is known; with no root
/// nothing can be resolved and nothing is produced.
pub fn transform_and_process_messages(
    messages: Messages,
    options: &Options,
    workspace_root: Option<&str>,
) -> (r: Option<TransformedMessages>)
    ensures
        r is Some <==> workspace_root is Some,
        workspace_root is Some ==> spec_transform_ok(
            messages,
            *options,
            workspace_root.unwrap()@,
            r.unwrap(),
        ),
{
    match workspace_root {
        Option::Some(root) => Option::Some(TransformedMessages::transform(messages, options, root)),
        Option::None => Option::None,
    }
}

/// Dedup correctness: the ordered output holds at most one record
/// per resolved primary span; every keyed input record is represented
/// by one with the same key; and every output record comes from the
/// input.  In particular, of two records resolving to the same
/// `(path, line, column)` exactly one representative appears.
pub proof fn lemma_dedup_correctness(
    input: Seq<CompilerMessage>,
    root: Seq<char>,
    out: Seq<CompilerMessage>,
)
    requires
        spec_ordered_output(input, root, out),
    ensures
        spec_keys_distinct(out, root),
        forall|k: int|
            0 <= k < input.len() && spec_has_key(#[trigger] input[k], root)
                ==> spec_has_key_match(out, input[k], root),
        forall|i: int| 0 <= i < out.len() ==> input.contains(#[trigger] out[i]),
{
    let reps = spec_group_reps(input, root);
    lemma_group_reps_ensures(input, root);
    reps.to_multiset_ensures();
    out.to_multiset_ensures();
    assert forall|x: CompilerMessage| #[trigger]
        out.to_multiset().count(x) <= reps.to_multiset().count(x) by {}
    lemma_sub_multiset_keys_distinct(reps, out, root);
    assert forall|i: int| 0 <= i < out.len() implies input.contains(#[trigger] out[i]) by {
        assert(out.contains(out[i]));
        assert(out.to_multiset().count(out[i]) > 0);
        assert(reps.contains(out[i]));
        let w = choose|w: int| 0 <= w < reps.len() && reps[w] == out[i];
    }
    assert forall|k: int|
        0 <= k < input.len() && spec_has_key(#[trigger] input[k], root) implies spec_has_key_match(
        out,
        input[k],
        root,
    ) by {
        let w = choose|w: int|
            0 <= w < reps.len() && spec_msg_key_eq(#[trigger] reps[w], input[k], root);
        assert(reps.contains(reps[w]));
        assert(reps.to_multiset().count(reps[w]) > 0);
        assert(out.contains(reps[w]));
        let v = choose|v: int| 0 <= v < out.len() && out[v] == reps[w];
    }
}

/// Ordering stability: in the transform's ordered output, no
/// dependency record ever precedes a project record.
pub proof fn lemma_ordering_stability(
    input: Seq<CompilerMessage>,
    root: Seq<char>,
    out: Seq<CompilerMessage>,
    i: int,
    j: int,
)
    requires
        spec_ordered_output(input, root, out),
        0 <= i < j < out.len(),
    ensures
        !out[j].spec_is_dependency(root) ==> !out[i].spec_is_dependency(root),
{
    assert(spec_msg_lt(out[i], out[j], root));
}

/// The limit keeps a prefix: with a positive limit `k` the kept list
/// has `min(k, available)` entries, and they are exactly the first
/// entries of the full ordered sequence.
pub proof fn lemma_limit_is_prefix(s: Seq<CompilerMessage>, k: usize)
    requires
        k > 0,
    ensures
        spec_limit(s, k).len() == (if s.len() <= k {
            s.len() as int
        } else {
            k as int
        }),
        forall|i: int| 0 <= i < spec_limit(s, k).len() ==> spec_limit(s, k)[i] == s[i],
{
}

/// Location round trip: when the workspace root is an absolute path
/// without a trailing separator, every extracted location carries an
/// absolute path lying under that root.
pub proof fn lemma_locations_in_project(
    messages: Seq<CompilerMessage>,
    o: Options,
    root: Seq<char>,
    locs: Seq<Location>,
)
    requires
        !crate::paths::spec_is_relative(root),
        root[root.len() - 1] != '/',
        locs.len() == spec_kept_for_locations(messages, o, root).len(),
        forall|i: int|
            0 <= i < locs.len() ==> spec_location_matches(
                #[trigger] locs[i],
                spec_kept_for_locations(messages, o, root)[i],
                root,
            ),
    ensures
        forall|i: int|
            0 <= i < locs.len() ==> !crate::paths::spec_is_relative(#[trigger] locs[i].path@)
                && crate::paths::spec_under_root(locs[i].path@, root),
{
    let kept = spec_kept_for_locations(messages, o, root);
    assert forall|i: int|
        0 <= i < locs.len() implies !crate::paths::spec_is_relative(#[trigger] locs[i].path@)
        && crate::paths::spec_under_root(locs[i].path@, root) by {
        messages.lemma_filter_pred(
            |m: CompilerMessage| spec_wants_location(m, o, root),
            i,
        );
        let m = kept[i];
        assert(spec_wants_location(m, o, root));
        let sp = spec_min_primary_span(m.message.spans@, root).unwrap();
        assert(spec_span_in_project(sp, root));
        assert(locs[i].path@ == spec_location_path(sp.file_name@, root));
        if crate::paths::spec_is_relative(sp.file_name@) {
            crate::paths::lemma_join_under_root(root, sp.file_name@);
        } else {
            crate::paths::lemma_under_root_absolute(sp.file_name@, root);
        }
    }
}

} // verus!
