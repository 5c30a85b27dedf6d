//! The externally visible, reduced form of a diagnostic: one source
//! location per message, and the document handed to the external
//! consumer.

use vstd::prelude::*;
use crate::diagnostic::Diagnostic;
use crate::diagnostic::Level;
use crate::diagnostic::Span;
use crate::paths::spec_is_relative;
use crate::paths::spec_join;
use crate::paths::is_relative_path;
use crate::paths::path_join;

verus! {

/// One resolved source location: an absolute path once the span was
/// relative to the workspace root, with the source line's text and
/// the diagnostic's message and severity.
pub struct Location {
    pub path: String,
    pub line: usize,
    pub column: usize,
    pub text: String,
    pub message: String,
    pub level: Level,
}

/// What the external consumer receives: the workspace root and the
/// locations in final display order.
pub struct EditorData {
    pub workspace_root: String,
    pub locations: Vec<Location>,
}

/// The path a location reports for a span: joined onto the workspace
/// root when relative, kept as it stands otherwise.
pub open spec fn spec_location_path(file_name: Seq<char>, workspace_root: Seq<char>) -> Seq<
    char,
> {
    if spec_is_relative(file_name) {
        spec_join(workspace_root, file_name)
    } else {
        file_name
    }
}

/// The location's excerpt: the first line of the span's text, or
/// nothing when the span carries no text.
pub open spec fn spec_location_text(text: Seq<String>) -> Seq<char> {
    if text.len() > 0 {
        text[0]@
    } else {
        Seq::empty()
    }
}

impl Location {
    pub fn new(span: &Span, diagnostic: &Diagnostic, workspace_root: &str) -> (r: Location)
        ensures
            r.path@ == spec_location_path(span.file_name@, workspace_root@),
            r.line == span.line_start,
            r.column == span.column_start,
            r.text@ == spec_location_text(span.text@),
            r.message@ == diagnostic.message@,
            r.level == diagnostic.level,
    {
        let path = if is_relative_path(span.file_name.as_str()) {
            path_join(workspace_root, span.file_name.as_str())
        } else {
            span.file_name.clone()
        };
        let text = if span.text.len() > 0 {
            span.text[0].clone()
        } else {
            String::new()
        };
        Location {
            path,
            line: span.line_start,
            column: span.column_start,
            text,
            message: diagnostic.message.clone(),
            level: diagnostic.level,
        }
    }
}

impl EditorData {
    pub fn new(workspace_root: &str, locations_in_consistent_order: Vec<Location>) -> (r:
        EditorData)
        ensures
            r.workspace_root@ == workspace_root@,
            r.locations == locations_in_consistent_order,
    {
        EditorData { workspace_root: workspace_root.to_owned(), locations: locations_in_consistent_order }
    }

    /// The workspace root with every separator or drive mark replaced
    /// by `%`, for use as a file name.
    pub fn escaped_workspace_root(&self) -> (r: String)
        ensures
            r@ == self.workspace_root@.map_values(|c: char| spec_escape_char(c)),
    {
        let s = self.workspace_root.as_str();
        let n = s.unicode_len();
        let mut out = String::new();
        let mut i: usize = 0;
        while i < n
            invariant
                i <= n,
                n == s@.len(),
                out@ == s@.take(i as int).map_values(|c: char| spec_escape_char(c)),
            decreases n - i,
        {
            let c = s.get_char(i);
            if c == '/' || c == '\\' || c == ':' {
                out.append("%");
                proof {
                    reveal_strlit("%");
                    assert("%"@ =~= seq!['%']);
                }
            } else {
                let piece = s.substring_char(i, i + 1);
                proof {
                    assert(piece@ =~= seq![s@[i as int]]);
                }
                out.append(piece);
            }
            proof {
                assert(s@.take(i as int + 1).map_values(|c: char| spec_escape_char(c)) =~= s@.take(
                    i as int,
                ).map_values(|c: char| spec_escape_char(c)).push(spec_escape_char(s@[i as int])));
                assert(out@ =~= s@.take(i as int + 1).map_values(
                    |c: char| spec_escape_char(c),
                ));
            }
            i += 1;
        }
        proof {
            assert(s@.take(n as int) =~= s@);
        }
        out
    }
}

/// Separators and the drive mark become `%`; everything else stays.
pub open spec fn spec_escape_char(c: char) -> char {
    if c == '/' || c == '\\' || c == ':' {
        '%'
    } else {
        c
    }
}

} // verus!
