//! The decisions of the external-consumer helper, which forwards the
//! location list to a running editor: where the editor's listen
//! socket lives, what expression to send, and how to read what came
//! back.  The process spawning and pipe I/O around these stay with
//! the boundary code.

use vstd::prelude::*;

verus! {

/// The expression evaluated in the editor: the callback applied to
/// the raw location document.
pub fn editor_command_text(command: &str, raw_editor_data: &str) -> (r: String)
    ensures
        r@ == command@ + "("@ + raw_editor_data@ + ")"@,
{
    let mut s = command.to_owned();
    s.append("(");
    s.append(raw_editor_data);
    s.append(")");
    s
}

/// The per-user, per-workspace listen address the editor is expected
/// on.
pub fn nvim_listen_address(user: &str, escaped_workspace_root: &str) -> (r: String)
    ensures
        r@ == "/tmp/nvim-cargo-limit-"@ + user@ + "/"@ + escaped_workspace_root@,
{
    let mut s = String::from_str("/tmp/nvim-cargo-limit-");
    s.append(user);
    s.append("/");
    s.append(escaped_workspace_root);
    s
}

/// The editor reports success as the single byte `0`.
pub fn is_expected_expr_result(stdout: &Vec<u8>) -> (r: bool)
    ensures
        r == (stdout@ == seq![48u8]),
{
    let result = stdout.len() == 1 && stdout[0] == 48;
    proof {
        if result {
            assert(stdout@ =~= seq![48u8]);
        }
    }
    result
}

/// How many times `b` occurs.
pub open spec fn spec_count_byte(s: Seq<u8>, b: u8) -> int
    decreases s.len(),
{
    if s.len() == 0 {
        0
    } else {
        spec_count_byte(s.drop_last(), b) + (if s.last() == b {
            1int
        } else {
            0int
        })
    }
}

/// The editor's error output starts with its "no connection" code.
pub open spec fn spec_starts_with_e247(s: Seq<u8>) -> bool {
    s.len() >= 5 && s[0] == 69 && s[1] == 50 && s[2] == 52 && s[3] == 55 && s[4] == 58
}

/// Whether failing to connect was the only complaint: the output is
/// one line, and it carries the "no connection" code `E247:`.  Such
/// output is suppressed; anything else is shown to the user.
pub fn failed_to_connect_is_the_only_error(stderr: &Vec<u8>) -> (r: bool)
    ensures
        r == (spec_starts_with_e247(stderr@) && spec_count_byte(stderr@, 10) == 1),
{
    let n = stderr.len();
    let starts = n >= 5 && stderr[0] == 69 && stderr[1] == 50 && stderr[2] == 52 && stderr[3]
        == 55 && stderr[4] == 58;
    if !starts {
        return false;
    }
    let mut newlines: usize = 0;
    let mut i: usize = 0;
    while i < n
        invariant
            i <= n,
            n == stderr@.len(),
            newlines <= i,
            newlines == spec_count_byte(stderr@.take(i as int), 10),
        decreases n - i,
    {
        proof {
            assert(stderr@.take(i as int + 1).drop_last() =~= stderr@.take(i as int));
        }
        if stderr[i] == 10 {
            newlines += 1;
        }
        i += 1;
    }
    proof {
        assert(stderr@.take(n as int) =~= stderr@);
    }
    newlines == 1
}

} // verus!
