//! The daemon's client: where its socket is, and what it says.

use crate::pane::state::last_index_is_last;
use crate::text::{chars_of, string_of};
use crate::tmux::connection::{after_last_comma, last_field, signed_decimal, signed_string};
use vstd::prelude::*;
use vstd::string::StringExecFns;

verus! {

/// Whether a character of a session's name is left out of file names.
pub open spec fn is_dropped(c: char) -> bool {
    c == '/' || c == '\\' || c == '\0' || c == ' ' || c == '$'
}

/// A session's name for use in file names.
pub open spec fn sanitized(s: Seq<char>) -> Seq<char> {
    s.filter(|c: char| !is_dropped(c))
}

/// A session's name for use in file names.
pub fn sanitize(s: &str) -> (r: String)
    ensures
        r@ == sanitized(s@),
{
    let chars = chars_of(s);
    let n: usize = chars.len();
    let mut out: Vec<char> = Vec::new();
    let mut i: usize = 0;
    proof {
        reveal(Seq::filter);
    }
    assert(out@ =~= sanitized(chars@.subrange(0, 0)));
    while i < n
        invariant
            i <= n == chars@.len(),
            out@ == sanitized(chars@.subrange(0, i as int)),
        decreases n - i,
    {
        let ghost next = chars@.subrange(0, i + 1);
        proof {
            reveal(Seq::filter);
            assert(next.drop_last() =~= chars@.subrange(0, i as int));
            assert(next.last() == chars@[i as int]);
        }
        let c: char = chars[i];
        if !(c == '/' || c == '\\' || c == '\0' || c == ' ' || c == '$') {
            out.push(c);
        }
        i = i + 1;
    }
    assert(chars@.subrange(0, n as int) =~= chars@);
    string_of(out.as_slice())
}

/// A file name holds no character that is left out, and taking a name twice
/// changes nothing.
pub proof fn sanitized_is_clean(s: Seq<char>)
    ensures
        forall|i: int| 0 <= i < sanitized(s).len() ==> !is_dropped(#[trigger] sanitized(s)[i]),
        sanitized(sanitized(s)) == sanitized(s),
    decreases s.len(),
{
    reveal(Seq::filter);
    if s.len() > 0 {
        sanitized_is_clean(s.drop_last());
        let front = sanitized(s.drop_last());
        if !is_dropped(s.last()) {
            assert(sanitized(s) == front.push(s.last()));
            assert(sanitized(s).drop_last() =~= front);
        }
    } else {
        assert(sanitized(s) =~= s);
    }
}

/// A file of the daemon for a session.
pub open spec fn daemon_file(session: Seq<char>, ending: Seq<char>) -> Seq<char> {
    "/tmp/tmux-mcp-"@ + sanitized(session) + ending
}

/// A file of the daemon for a session.
fn file_path(session: &str, ending: &str) -> (r: String)
    ensures
        r@ == daemon_file(session@, ending@),
{
    let mut out = "/tmp/tmux-mcp-".to_owned();
    let name = sanitize(session);
    out.append(name.as_str());
    out.append(ending);
    out
}

/// The socket of a session's daemon.
pub fn socket_path(session: &str) -> (r: String)
    ensures
        r@ == daemon_file(session@, ".sock"@),
{
    file_path(session, ".sock")
}

/// The lock of a session's daemon.
pub fn lock_path(session: &str) -> (r: String)
    ensures
        r@ == daemon_file(session@, ".lock"@),
{
    file_path(session, ".lock")
}

/// The log of a session's daemon.
pub fn log_path(session: &str) -> (r: String)
    ensures
        r@ == daemon_file(session@, ".log"@),
{
    file_path(session, ".log")
}

/// The text for a missing variable.
pub const NO_TMUX: &'static str =
    "TMUX environment variable not set — are you inside a tmux session?";

/// The session in the `TMUX` variable, which reads `/path/to/socket,pid,number`:
/// its number behind a dollar sign.
pub fn discover_session(tmux_env: Option<&str>) -> (r: Result<String, String>)
    ensures
        match tmux_env {
            None => r matches Err(e) && e@ == NO_TMUX@,
            Some(env) => {
                let number = after_last_comma(env@);
                if number.len() > 0 {
                    r matches Ok(s) && s@ == "$"@ + number
                } else {
                    r matches Err(e) && e@ == "Could not parse session from TMUX="@ + env@
                }
            },
        },
{
    match tmux_env {
        None => Err(NO_TMUX.to_owned()),
        Some(env) => {
            let chars = chars_of(env);
            let number = last_field(chars.as_slice());
            if !number.as_str().is_empty() {
                let mut out = "$".to_owned();
                out.append(number.as_str());
                Ok(out)
            } else {
                let mut message = "Could not parse session from TMUX=".to_owned();
                message.append(env);
                Err(message)
            }
        },
    }
}

/// An error that the daemon answered with.
#[derive(Debug, Clone, PartialEq, Eq)]
pub struct JsonRpcError {
    pub code: i64,
    pub message: String,
}

impl JsonRpcError {
    /// The text of the error.
    pub fn describe(&self) -> (r: String)
        ensures
            r@ == "RPC error "@ + signed_decimal(self.code as int) + ": "@ + self.message@,
    {
        let mut out = "RPC error ".to_owned();
        let code = signed_string(self.code);
        out.append(code.as_str());
        out.append(": ");
        out.append(self.message.as_str());
        out
    }
}

/// The session is the number behind the last comma of the variable that tmux sets.
pub proof fn session_is_behind_the_last_comma(front: Seq<char>, number: Seq<char>)
    requires
        !number.contains(','),
    ensures
        after_last_comma(front + seq![','] + number) == number,
{
    let s = front + seq![','] + number;
    let n = front.len() as int;
    assert(s[n] == ',');
    assert forall|j: int| n < j < s.len() implies s[j] != ',' by {
        assert(s[j] == number[j - n - 1]);
        assert(number.contains(number[j - n - 1]));
    }
    last_index_is_last(s, ',', n);
    assert(s.subrange(n + 1, s.len() as int) =~= number);
}

/// Sessions whose names keep different letters have different files, and the files
/// of one session differ by their ending.
pub proof fn files_are_told_apart(a: Seq<char>, b: Seq<char>, x: Seq<char>, y: Seq<char>)
    ensures
        sanitized(a) != sanitized(b) ==> daemon_file(a, x) != daemon_file(b, x),
        x != y ==> daemon_file(a, x) != daemon_file(a, y),
{
    let head = "/tmp/tmux-mcp-"@;
    let n = head.len() as int;
    let ax = daemon_file(a, x);
    let bx = daemon_file(b, x);
    let ay = daemon_file(a, y);
    assert(ax.subrange(n, ax.len() - x.len()) =~= sanitized(a));
    assert(bx.subrange(n, bx.len() - x.len()) =~= sanitized(b));
    let m = n + sanitized(a).len();
    assert(ax.subrange(m, ax.len() as int) =~= x);
    assert(ay.subrange(m, ay.len() as int) =~= y);
}

} // verus!
