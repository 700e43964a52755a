//! Network page: interface labels for the listed addresses.

use vstd::prelude::*;
use crate::textutil::{starts_with, starts_with_str, str_chars};

verus! {

// ---------------------------------------------------------------------------
// Network interface labels.
// ---------------------------------------------------------------------------

/// Interface shown for an address on the network page, guessed from its
/// prefix.
pub open spec fn iface_for_spec(ip: Seq<char>) -> Seq<char> {
    if starts_with(ip, "100."@) {
        "tailscale0"@
    } else if starts_with(ip, "192.168.137."@) {
        "eth0"@
    } else if starts_with(ip, "192.168.1."@) {
        "wlan0"@
    } else {
        "interface"@
    }
}

/// Interface label for an address on the network page.
pub fn iface_for(ip: &str) -> (r: &'static str)
    ensures
        r@ == iface_for_spec(ip@),
{
    let v = str_chars(ip);
    if starts_with_str(&v, "100.") {
        "tailscale0"
    } else if starts_with_str(&v, "192.168.137.") {
        "eth0"
    } else if starts_with_str(&v, "192.168.1.") {
        "wlan0"
    } else {
        "interface"
    }
}

} // verus!
