//! The library's own form of one compiler-emitted message: severity,
//! texts, source spans with their macro-expansion chains, and the
//! originating build target.  The boundary code turns the build
//! driver's JSON records into these plain values; everything the
//! supervisor decides is decided on them.

use vstd::prelude::*;
use crate::paths::spec_is_relative;
use crate::paths::spec_under_root;
use crate::paths::is_relative_path;
use crate::paths::path_under_root;
use crate::text::lex_lt;

verus! {

/// Severity of a diagnostic record.
#[derive(Clone, Copy, Debug, PartialEq, Eq, Structural)]
pub enum Level {
    /// Internal compiler error: ordered ahead of ordinary errors.
    Ice,
    Error,
    Warning,
    Note,
    Help,
    FailureNote,
    /// Any severity the library does not distinguish further.
    Other,
}

impl Level {
    pub open spec fn is_error_like(self) -> bool {
        self == Level::Ice || self == Level::Error
    }
}

/// One source span.  `expansion` points at the span this one was
/// expanded from, for diagnostics that came out of a macro.
pub struct Span {
    pub file_name: String,
    /// 1-based line of the span's start.
    pub line_start: usize,
    /// 1-based column of the span's start.
    pub column_start: usize,
    /// Whether the compiler marked this span as the primary one.
    pub is_primary: bool,
    /// The source text of the span's lines, first line first.
    pub text: Vec<String>,
    pub expansion: Option<Box<Span>>,
}

/// The message part of a record: severity, plain text, the rendered
/// human-readable form, and the spans it points at.
pub struct Diagnostic {
    pub level: Level,
    pub message: String,
    pub rendered: Option<String>,
    pub spans: Vec<Span>,
}

/// One compiler message together with the source path of the build
/// target it came from, which decides project versus dependency.
pub struct CompilerMessage {
    pub message: Diagnostic,
    pub target_src_path: String,
}

impl CompilerMessage {
    /// A record counts as a dependency's when its target's source path
    /// lies outside the project root.
    pub open spec fn spec_is_dependency(self, root: Seq<char>) -> bool {
        !spec_under_root(self.target_src_path@, root)
    }

    pub fn is_dependency(&self, root: &str) -> (r: bool)
        ensures
            r == self.spec_is_dependency(root@),
    {
        !path_under_root(self.target_src_path.as_str(), root)
    }
}

/// A span lies in the project when its path is relative (the build
/// driver emits project files relative to the build root) or sits
/// under the project root.
pub open spec fn spec_span_in_project(s: Span, root: Seq<char>) -> bool {
    spec_is_relative(s.file_name@) || spec_under_root(s.file_name@, root)
}

/// The span a macro-expanded diagnostic is attributed to: the first
/// span along the expansion chain that lies in the project, or the
/// innermost span when none does.
pub open spec fn spec_resolve_span(s: Span, root: Seq<char>) -> Span
    decreases s,
{
    if spec_span_in_project(s, root) {
        s
    } else {
        match s.expansion {
            Option::Some(inner) => spec_resolve_span(*inner, root),
            Option::None => s,
        }
    }
}

pub fn find_leaf_project_expansion<'a>(span: &'a Span, root: &str) -> (r: &'a Span)
    ensures
        *r == spec_resolve_span(*span, root@),
    decreases *span,
{
    if is_relative_path(span.file_name.as_str()) || path_under_root(
        span.file_name.as_str(),
        root,
    ) {
        span
    } else {
        match &span.expansion {
            Option::Some(inner) => find_leaf_project_expansion(inner, root),
            Option::None => span,
        }
    }
}

/// The key a record is grouped and ordered by: the resolved primary
/// span's path, line and column.
pub struct SpanKey {
    pub file_name: Seq<char>,
    pub line: int,
    pub column: int,
}

/// The first primary span with the smallest (line, column) among a
/// record's spans, after expansion resolution.
pub open spec fn spec_min_primary_span(spans: Seq<Span>, root: Seq<char>) -> Option<Span>
    decreases spans.len(),
{
    if spans.len() == 0 {
        Option::None
    } else {
        let prev = spec_min_primary_span(spans.drop_last(), root);
        let s = spans.last();
        if !s.is_primary {
            prev
        } else {
            let rs = spec_resolve_span(s, root);
            match prev {
                Option::None => Option::Some(rs),
                Option::Some(p) => if rs.line_start < p.line_start || (rs.line_start
                    == p.line_start && rs.column_start < p.column_start) {
                    Option::Some(rs)
                } else {
                    Option::Some(p)
                },
            }
        }
    }
}

/// The grouping key of a record, when any primary span exists.
pub open spec fn spec_primary_key(m: CompilerMessage, root: Seq<char>) -> Option<SpanKey> {
    match spec_min_primary_span(m.message.spans@, root) {
        Option::Some(s) => Option::Some(
            SpanKey {
                file_name: s.file_name@,
                line: s.line_start as int,
                column: s.column_start as int,
            },
        ),
        Option::None => Option::None,
    }
}

pub open spec fn spec_has_key(m: CompilerMessage, root: Seq<char>) -> bool {
    spec_primary_key(m, root) is Some
}

pub open spec fn spec_key_eq(a: SpanKey, b: SpanKey) -> bool {
    a.file_name == b.file_name && a.line == b.line && a.column == b.column
}

/// Strict order on keys: path, then line, then column.
pub open spec fn spec_key_lt(a: SpanKey, b: SpanKey) -> bool {
    if a.file_name != b.file_name {
        lex_lt(a.file_name, b.file_name)
    } else if a.line != b.line {
        a.line < b.line
    } else {
        a.column < b.column
    }
}

/// The resolved primary span of a record, as a borrowed value.
pub fn min_primary_span<'a>(m: &'a CompilerMessage, root: &str) -> (r: Option<&'a Span>)
    ensures
        match r {
            Some(s) => spec_min_primary_span(m.message.spans@, root@) == Some(*s),
            None => spec_min_primary_span(m.message.spans@, root@) is None,
        },
{
    let spans = &m.message.spans;
    let n = spans.len();
    let mut best: Option<&Span> = None;
    let mut i: usize = 0;
    while i < n
        invariant
            i <= n,
            n == spans@.len(),
            match best {
                Some(s) => spec_min_primary_span(spans@.take(i as int), root@) == Some(*s),
                None => spec_min_primary_span(spans@.take(i as int), root@) is None,
            },
        decreases n - i,
    {
        proof {
            assert(spans@.take(i as int + 1).drop_last() =~= spans@.take(i as int));
            assert(spans@.take(i as int + 1).last() == spans@[i as int]);
        }
        let s = &spans[i];
        if s.is_primary {
            let rs = find_leaf_project_expansion(s, root);
            best = match best {
                Option::None => Some(rs),
                Option::Some(p) => {
                    if rs.line_start < p.line_start || (rs.line_start == p.line_start
                        && rs.column_start < p.column_start) {
                        Some(rs)
                    } else {
                        Some(p)
                    }
                },
            };
        }
        i += 1;
    }
    proof {
        assert(spans@.take(n as int) =~= spans@);
    }
    best
}

/// Whether any primary span exists, without materialising the key.
pub fn has_primary_key(m: &CompilerMessage, root: &str) -> (r: bool)
    ensures
        r == spec_has_key(*m, root@),
{
    match min_primary_span(m, root) {
        Some(_) => true,
        None => false,
    }
}

/// The order messages are presented in: project before dependency,
/// then absolute before relative paths, then path, line and column.
pub open spec fn spec_msg_lt(a: CompilerMessage, b: CompilerMessage, root: Seq<char>) -> bool
    recommends
        spec_has_key(a, root),
        spec_has_key(b, root),
{
    let ka = spec_primary_key(a, root).unwrap();
    let kb = spec_primary_key(b, root).unwrap();
    let da = a.spec_is_dependency(root);
    let db = b.spec_is_dependency(root);
    let ra = spec_is_relative(ka.file_name);
    let rb = spec_is_relative(kb.file_name);
    if da != db {
        !da
    } else if ra != rb {
        !ra
    } else {
        spec_key_lt(ka, kb)
    }
}

/// Both records have the same grouping key.
pub open spec fn spec_msg_key_eq(a: CompilerMessage, b: CompilerMessage, root: Seq<char>) -> bool
    recommends
        spec_has_key(a, root),
        spec_has_key(b, root),
{
    spec_key_eq(spec_primary_key(a, root).unwrap(), spec_primary_key(b, root).unwrap())
}

fn span_key_lt(a: &Span, b: &Span) -> (r: bool)
    ensures
        r == spec_key_lt(
            SpanKey {
                file_name: a.file_name@,
                line: a.line_start as int,
                column: a.column_start as int,
            },
            SpanKey {
                file_name: b.file_name@,
                line: b.line_start as int,
                column: b.column_start as int,
            },
        ),
{
    if !crate::text::str_eq(a.file_name.as_str(), b.file_name.as_str()) {
        crate::text::str_lex_lt(a.file_name.as_str(), b.file_name.as_str())
    } else if a.line_start != b.line_start {
        a.line_start < b.line_start
    } else {
        a.column_start < b.column_start
    }
}

/// Decide the presentation order between two keyed records.
pub fn msg_lt(a: &CompilerMessage, b: &CompilerMessage, root: &str) -> (r: bool)
    requires
        spec_has_key(*a, root@),
        spec_has_key(*b, root@),
    ensures
        r == spec_msg_lt(*a, *b, root@),
{
    let sa = min_primary_span(a, root).unwrap();
    let sb = min_primary_span(b, root).unwrap();
    let da = a.is_dependency(root);
    let db = b.is_dependency(root);
    let ra = is_relative_path(sa.file_name.as_str());
    let rb = is_relative_path(sb.file_name.as_str());
    if da != db {
        !da
    } else if ra != rb {
        !ra
    } else {
        span_key_lt(sa, sb)
    }
}

/// Decide whether two keyed records share their grouping key.
pub fn msg_key_eq(a: &CompilerMessage, b: &CompilerMessage, root: &str) -> (r: bool)
    requires
        spec_has_key(*a, root@),
        spec_has_key(*b, root@),
    ensures
        r == spec_msg_key_eq(*a, *b, root@),
{
    let sa = min_primary_span(a, root).unwrap();
    let sb = min_primary_span(b, root).unwrap();
    crate::text::str_eq(sa.file_name.as_str(), sb.file_name.as_str()) && sa.line_start
        == sb.line_start && sa.column_start == sb.column_start
}

/// The key order is transitive.
pub proof fn lemma_key_lt_trans(a: SpanKey, b: SpanKey, c: SpanKey)
    requires
        spec_key_lt(a, b),
        spec_key_lt(b, c),
    ensures
        spec_key_lt(a, c),
{
    if a.file_name != b.file_name && b.file_name != c.file_name {
        crate::text::lemma_lex_lt_trans(a.file_name, b.file_name, c.file_name);
        if a.file_name == c.file_name {
            crate::text::lemma_lex_lt_asym(a.file_name, b.file_name);
        }
    }
}

/// The presentation order is transitive.
pub proof fn lemma_msg_lt_trans(
    a: CompilerMessage,
    b: CompilerMessage,
    c: CompilerMessage,
    root: Seq<char>,
)
    requires
        spec_has_key(a, root),
        spec_has_key(b, root),
        spec_has_key(c, root),
        spec_msg_lt(a, b, root),
        spec_msg_lt(b, c, root),
    ensures
        spec_msg_lt(a, c, root),
{
    let ka = spec_primary_key(a, root).unwrap();
    let kb = spec_primary_key(b, root).unwrap();
    let kc = spec_primary_key(c, root).unwrap();
    if spec_key_lt(ka, kb) && spec_key_lt(kb, kc) {
        lemma_key_lt_trans(ka, kb, kc);
    }
}

/// Records with different keys are strictly ordered one way or the
/// other; records unordered both ways share their key.
pub proof fn lemma_msg_lt_connected(a: CompilerMessage, b: CompilerMessage, root: Seq<char>)
    requires
        spec_has_key(a, root),
        spec_has_key(b, root),
        !spec_msg_lt(a, b, root),
        !spec_msg_lt(b, a, root),
    ensures
        spec_msg_key_eq(a, b, root),
{
    let ka = spec_primary_key(a, root).unwrap();
    let kb = spec_primary_key(b, root).unwrap();
    if ka.file_name != kb.file_name {
        crate::text::lemma_lex_lt_connected(ka.file_name, kb.file_name);
    }
}

} // verus!
