//! Requests to the daemon: who may ask for what, and what is answered.

use crate::mcp::{middle_is_told, tells};
use crate::pane::registry::{PaneRegistry, TrackedPane};
use crate::text::str_eq;
use vstd::prelude::*;
use vstd::string::StringExecFns;

verus! {

/// An error with its JSON-RPC code.
#[derive(Debug, Clone, PartialEq, Eq)]
pub struct RpcError {
    pub code: i64,
    pub message: String,
}

/// The code for a method that does not exist.
pub const METHOD_NOT_FOUND: i64 = -32601;

/// The code for parameters that a method does not take.
pub const INVALID_PARAMS: i64 = -32602;

/// The code for what went wrong in the daemon.
pub const INTERNAL: i64 = -32603;

/// The code for a command that the policy does not let run.
pub const POLICY: i64 = -32001;

impl RpcError {
    /// Whether it is the error with that code and text.
    pub open spec fn is(self, code: i64, message: Seq<char>) -> bool {
        self.code == code && self.message@ == message
    }

    /// A method that does not exist.
    pub fn method_not_found(method: &str) -> (r: Self)
        ensures
            r.is(METHOD_NOT_FOUND, "Unknown method: "@ + method@),
    {
        let mut message = "Unknown method: ".to_owned();
        message.append(method);
        Self { code: METHOD_NOT_FOUND, message }
    }

    /// Parameters that a method does not take.
    pub fn invalid_params(msg: String) -> (r: Self)
        ensures
            r.is(INVALID_PARAMS, msg@),
    {
        Self { code: INVALID_PARAMS, message: msg }
    }

    /// What went wrong in the daemon.
    pub fn internal(msg: String) -> (r: Self)
        ensures
            r.is(INTERNAL, msg@),
    {
        Self { code: INTERNAL, message: msg }
    }
}

/// A method of the daemon.
#[derive(Debug, Clone, Copy, PartialEq, Eq, Structural)]
pub enum Method {
    ListPanes,
    CommandHistory,
    CommandRead,
    CommandRun,
    CapturePane,
    InjectOsc133,
    SendKeys,
    RequestApproval,
}

/// The methods by name.
pub open spec fn method_named(name: Seq<char>) -> Option<Method> {
    if name == "list_panes"@ {
        Some(Method::ListPanes)
    } else if name == "command_history"@ {
        Some(Method::CommandHistory)
    } else if name == "command_read"@ {
        Some(Method::CommandRead)
    } else if name == "command_run"@ {
        Some(Method::CommandRun)
    } else if name == "capture_pane"@ {
        Some(Method::CapturePane)
    } else if name == "inject_osc133"@ {
        Some(Method::InjectOsc133)
    } else if name == "send_keys"@ {
        Some(Method::SendKeys)
    } else if name == "request_approval"@ {
        Some(Method::RequestApproval)
    } else {
        None
    }
}

/// The method that a request names.
pub fn dispatch(method: &str) -> (r: Result<Method, RpcError>)
    ensures
        match r {
            Ok(m) => method_named(method@) == Some(m),
            Err(e) => method_named(method@) is None && e.is(
                METHOD_NOT_FOUND,
                "Unknown method: "@ + method@,
            ),
        },
{
    if str_eq(method, "list_panes") {
        Ok(Method::ListPanes)
    } else if str_eq(method, "command_history") {
        Ok(Method::CommandHistory)
    } else if str_eq(method, "command_read") {
        Ok(Method::CommandRead)
    } else if str_eq(method, "command_run") {
        Ok(Method::CommandRun)
    } else if str_eq(method, "capture_pane") {
        Ok(Method::CapturePane)
    } else if str_eq(method, "inject_osc133") {
        Ok(Method::InjectOsc133)
    } else if str_eq(method, "send_keys") {
        Ok(Method::SendKeys)
    } else if str_eq(method, "request_approval") {
        Ok(Method::RequestApproval)
    } else {
        Err(RpcError::method_not_found(method))
    }
}

/// A parameter that a request must have.
pub fn required<'a>(value: Option<&'a str>, name: &str) -> (r: Result<&'a str, RpcError>)
    ensures
        match r {
            Ok(v) => value == Some(v),
            Err(e) => value is None && e.is(INVALID_PARAMS, name@ + " is required"@),
        },
{
    match value {
        Some(v) => Ok(v),
        None => {
            let mut message = name.to_owned();
            message.append(" is required");
            Err(RpcError::invalid_params(message))
        },
    }
}

/// The window of the pane that a request comes from.
pub fn resolve_caller_window(registry: &PaneRegistry, origin_pane: Option<&str>) -> (r: Result<
    String,
    RpcError,
>)
    requires
        registry.valid(),
    ensures
        match origin_pane {
            None => r matches Err(e) && e.is(INVALID_PARAMS, "origin_pane is required"@),
            Some(origin) => match registry.at(origin@) {
                Some(t) => r matches Ok(w) && w@ == t.window_id@,
                None => r matches Err(e) && e.is(
                    INVALID_PARAMS,
                    "Origin pane "@ + origin@ + " not tracked by daemon"@,
                ),
            },
        },
{
    proof {
        reveal_strlit("origin_pane is required");
        reveal_strlit("origin_pane");
        reveal_strlit(" is required");
        assert("origin_pane"@ + " is required"@ =~= "origin_pane is required"@);
    }
    let origin = match required(origin_pane, "origin_pane") {
        Ok(v) => v,
        Err(e) => {
            return Err(e);
        },
    };
    match registry.window_for_pane(origin) {
        Some(w) => Ok(w.to_owned()),
        None => {
            let mut message = "Origin pane ".to_owned();
            message.append(origin);
            message.append(" not tracked by daemon");
            Err(RpcError::invalid_params(message))
        },
    }
}

/// The text for a pane that is not watched.
pub open spec fn unknown_pane(pane_id: Seq<char>) -> Seq<char> {
    "Unknown pane: "@ + pane_id
}

/// The text for a pane of another window.
pub open spec fn foreign_pane(pane_id: Seq<char>, window: Seq<char>, caller: Seq<char>) -> Seq<char> {
    "Pane "@ + pane_id + " is in window "@ + window + ", not your window "@ + caller
}

/// Check that a pane is in the caller's window.
pub fn validate_pane_access(registry: &PaneRegistry, pane_id: &str, caller_window: &str) -> (r: Result<
    (),
    RpcError,
>)
    requires
        registry.valid(),
    ensures
        match registry.at(pane_id@) {
            None => r matches Err(e) && e.is(INVALID_PARAMS, unknown_pane(pane_id@)),
            Some(t) => if t.window_id@ == caller_window@ {
                r is Ok
            } else {
                r matches Err(e) && e.is(
                    INVALID_PARAMS,
                    foreign_pane(pane_id@, t.window_id@, caller_window@),
                )
            },
        },
{
    match registry.window_for_pane(pane_id) {
        None => {
            let mut message = "Unknown pane: ".to_owned();
            message.append(pane_id);
            Err(RpcError::invalid_params(message))
        },
        Some(window) => if str_eq(window, caller_window) {
            Ok(())
        } else {
            let mut message = "Pane ".to_owned();
            message.append(pane_id);
            message.append(" is in window ");
            message.append(window);
            message.append(", not your window ");
            message.append(caller_window);
            Err(RpcError::invalid_params(message))
        },
    }
}

/// Whether a request from one pane may reach another: both are watched, in one
/// window.
pub open spec fn may_reach(registry: PaneRegistry, origin: Seq<char>, pane_id: Seq<char>) -> bool {
    registry.at(origin) matches Some(a) && registry.at(pane_id) matches Some(b) && a.window_id@
        == b.window_id@
}

/// Why a request from one pane may not reach another; none where it may.
pub open spec fn refusal(
    registry: PaneRegistry,
    origin: Option<Seq<char>>,
    pane_id: Seq<char>,
) -> Option<Seq<char>> {
    match origin {
        None => Some("origin_pane is required"@),
        Some(o) => match registry.at(o) {
            None => Some("Origin pane "@ + o + " not tracked by daemon"@),
            Some(a) => match registry.at(pane_id) {
                None => Some(unknown_pane(pane_id)),
                Some(b) => if a.window_id@ == b.window_id@ {
                    None
                } else {
                    Some(foreign_pane(pane_id, b.window_id@, a.window_id@))
                },
            },
        },
    }
}

/// The pane that a request is about, where the caller may reach it.
pub fn reach<'a>(registry: &'a PaneRegistry, origin_pane: Option<&str>, pane_id: &str) -> (r: Result<
    &'a TrackedPane,
    RpcError,
>)
    requires
        registry.valid(),
    ensures
        match r {
            Ok(t) => registry.at(pane_id@) == Some(*t),
            Err(e) => refusal(
                *registry,
                match origin_pane {
                    Some(o) => Some(o@),
                    None => None,
                },
                pane_id@,
            ) == Some(e.message@) && e.code == INVALID_PARAMS,
        },
        r is Ok <==> (origin_pane matches Some(origin) && may_reach(*registry, origin@, pane_id@)),
{
    let window = match resolve_caller_window(registry, origin_pane) {
        Ok(w) => w,
        Err(e) => {
            return Err(e);
        },
    };
    match validate_pane_access(registry, pane_id, window.as_str()) {
        Ok(()) => match registry.get(pane_id) {
            Some(t) => Ok(t),
            None => {
                let mut message = "Unknown pane: ".to_owned();
                message.append(pane_id);
                Err(RpcError::invalid_params(message))
            },
        },
        Err(e) => Err(e),
    }
}

/// Reaching is mutual, and a watched pane reaches itself: requests are scoped by
/// window.
pub proof fn reach_is_by_window(
    registry: PaneRegistry,
    a: Seq<char>,
    b: Seq<char>,
    c: Seq<char>,
)
    ensures
        may_reach(registry, a, b) == may_reach(registry, b, a),
        may_reach(registry, a, a) == registry.at(a) is Some,
        may_reach(registry, a, b) && may_reach(registry, b, c) ==> may_reach(registry, a, c),
{
}

/// A request is refused exactly where it does not come from a watched pane of the
/// same window as the watched pane that it is about.
pub proof fn refused_is_out_of_reach(
    registry: PaneRegistry,
    origin: Option<Seq<char>>,
    pane_id: Seq<char>,
)
    ensures
        refusal(registry, origin, pane_id) is None <==> (origin matches Some(o) && (registry.at(
            o,
        ) matches Some(a) && (registry.at(pane_id) matches Some(b) && a.window_id@ == b.window_id@))),
        origin matches Some(o) ==> (may_reach(registry, o, pane_id) <==> refusal(
            registry,
            origin,
            pane_id,
        ) is None),
{
}

/// Every method is told by its own name, and no other name is one.
pub proof fn methods_are_told_by_name(name: Seq<char>)
    ensures
        method_named(name) == Some(Method::ListPanes) <==> name == "list_panes"@,
        method_named(name) == Some(Method::CommandHistory) <==> name == "command_history"@,
        method_named(name) == Some(Method::CommandRead) <==> name == "command_read"@,
        method_named(name) == Some(Method::CommandRun) <==> name == "command_run"@,
        method_named(name) == Some(Method::CapturePane) <==> name == "capture_pane"@,
        method_named(name) == Some(Method::InjectOsc133) <==> name == "inject_osc133"@,
        method_named(name) == Some(Method::SendKeys) <==> name == "send_keys"@,
        method_named(name) == Some(Method::RequestApproval) <==> name == "request_approval"@,
{
    reveal_strlit("list_panes");
    reveal_strlit("command_history");
    reveal_strlit("command_read");
    reveal_strlit("command_run");
    reveal_strlit("capture_pane");
    reveal_strlit("inject_osc133");
    reveal_strlit("send_keys");
    reveal_strlit("request_approval");
    assert("list_panes"@.len() == 10 && "command_history"@.len() == 15 && "command_read"@.len() == 12
        && "command_run"@.len() == 11 && "capture_pane"@.len() == 12 && "inject_osc133"@.len() == 13
        && "send_keys"@.len() == 9 && "request_approval"@.len() == 16);
    assert("command_read"@[1] == 'o' && "capture_pane"@[1] == 'a');
}

/// What is said of a pane that cannot be asked for names it, and the windows that it
/// and the caller are in.
pub proof fn refusals_name_the_pane(pane_id: Seq<char>, window: Seq<char>, caller: Seq<char>)
    ensures
        tells(unknown_pane(pane_id), pane_id),
        tells(foreign_pane(pane_id, window, caller), pane_id),
        tells(foreign_pane(pane_id, window, caller), window),
        tells(foreign_pane(pane_id, window, caller), caller),
{
    let none = Seq::<char>::empty();
    let a = "Pane "@;
    let b = " is in window "@;
    let c = ", not your window "@;
    let text = foreign_pane(pane_id, window, caller);
    assert(unknown_pane(pane_id) =~= "Unknown pane: "@ + pane_id + none);
    middle_is_told("Unknown pane: "@, pane_id, none);
    assert(text =~= a + pane_id + (b + window + c + caller));
    middle_is_told(a, pane_id, b + window + c + caller);
    assert(text =~= (a + pane_id + b) + window + (c + caller));
    middle_is_told(a + pane_id + b, window, c + caller);
    assert(text =~= (a + pane_id + b + window + c) + caller + none);
    middle_is_told(a + pane_id + b + window + c, caller, none);
}

} // verus!
