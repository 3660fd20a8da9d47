//! The connection watchdog: whether the site answered, and when a page that
//! stopped reporting is reloaded.

use vstd::prelude::*;

verus! {

/// How long the page may stay silent, in seconds, before it is reloaded.
pub const HEARTBEAT_TIMEOUT_SECONDS: u64 = 45;

/// Whether a check of the site counts as reachable: an answer with a success
/// (2xx) or redirection (3xx) status; no answer is unreachable.
pub fn is_reachable(status: Option<u16>) -> (res: bool)
    ensures
        res == match status {
            Some(code) => 200 <= code < 400,
            None => false,
        },
{
    match status {
        Some(code) => (200 <= code && code < 300) || (300 <= code && code < 400),
        None => false,
    }
}

/// Whether the watchdog reloads the page: the site is reachable, yet the
/// page has not reported for more than [`HEARTBEAT_TIMEOUT_SECONDS`].
pub fn needs_reload(reachable: bool, now: u64, last_heartbeat: u64) -> (res: bool)
    ensures
        res == (reachable && now > last_heartbeat && now - last_heartbeat > HEARTBEAT_TIMEOUT_SECONDS),
{
    reachable && now.saturating_sub(last_heartbeat) > HEARTBEAT_TIMEOUT_SECONDS
}

} // verus!
