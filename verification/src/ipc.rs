//! Requests of the Unix-socket protocol: which action a request asks for and
//! the error text of a refused one. Reading the socket, decoding the JSON
//! and writing the reply are done by the caller.

use vstd::prelude::*;
use crate::textutil::{push_chars, str_chars, str_eq};

verus! {

/// Page ids that `switch_mode` accepts.
pub open spec fn known_mode(m: Seq<char>) -> bool {
    m == "monitor"@ || m == "temp"@ || m == "cpu"@ || m == "mem"@ || m == "disk"@ || m == "net"@
}

/// What a request asks for.
#[derive(Debug)]
pub enum IpcRoute {
    Screenshot,
    Status,
    SwitchMode(&'static str),
    ScrollContainers,
    /// Refused, with the error message for the reply.
    Reject(String),
}

/// The page id for a `switch_mode` mode, if it names a page.
pub fn mode_id(mode: &str) -> (r: Option<&'static str>)
    ensures
        match r {
            Some(id) => known_mode(mode@) && id@ == mode@,
            None => !known_mode(mode@),
        },
{
    if str_eq(mode, "monitor") {
        Some("monitor")
    } else if str_eq(mode, "temp") {
        Some("temp")
    } else if str_eq(mode, "cpu") {
        Some("cpu")
    } else if str_eq(mode, "mem") {
        Some("mem")
    } else if str_eq(mode, "disk") {
        Some("disk")
    } else if str_eq(mode, "net") {
        Some("net")
    } else {
        None
    }
}

/// `prefix` followed by `text`, as a new string.
fn message(prefix: &str, text: &str) -> (r: String)
    ensures
        r@ == prefix@ + text@,
{
    let mut s = String::new();
    push_chars(&mut s, &str_chars(prefix));
    push_chars(&mut s, &str_chars(text));
    s
}

/// Route a request by its `action` and, for `switch_mode`, its `mode`
/// field (`"monitor"` when absent). Unknown actions and modes are refused
/// with `"unknown action: ..."` and `"unknown mode: ..."`.
pub fn route_request(action: &str, mode: Option<&str>) -> (r: IpcRoute)
    ensures
        action@ == "screenshot"@ ==> r is Screenshot,
        action@ == "status"@ ==> r is Status,
        action@ == "scroll_containers"@ ==> r is ScrollContainers,
        action@ == "switch_mode"@ ==> {
            let m = match mode {
                Some(m) => m@,
                None => "monitor"@,
            };
            if known_mode(m) {
                r matches IpcRoute::SwitchMode(id) && id@ == m
            } else {
                r matches IpcRoute::Reject(msg) && msg@ == "unknown mode: "@ + m
            }
        },
        action@ != "screenshot"@ && action@ != "status"@ && action@ != "scroll_containers"@
            && action@ != "switch_mode"@ ==> (r matches IpcRoute::Reject(msg) && msg@
            == "unknown action: "@ + action@),
{
    proof {
        reveal_strlit("screenshot");
        reveal_strlit("status");
        reveal_strlit("switch_mode");
        reveal_strlit("scroll_containers");
        assert("screenshot"@.len() == 10);
        assert("status"@.len() == 6);
        assert("switch_mode"@.len() == 11);
        assert("scroll_containers"@.len() == 17);
    }
    if str_eq(action, "screenshot") {
        IpcRoute::Screenshot
    } else if str_eq(action, "status") {
        IpcRoute::Status
    } else if str_eq(action, "switch_mode") {
        let m = match mode {
            Some(m) => m,
            None => "monitor",
        };
        match mode_id(m) {
            Some(id) => IpcRoute::SwitchMode(id),
            None => IpcRoute::Reject(message("unknown mode: ", m)),
        }
    } else if str_eq(action, "scroll_containers") {
        IpcRoute::ScrollContainers
    } else {
        IpcRoute::Reject(message("unknown action: ", action))
    }
}

} // verus!
