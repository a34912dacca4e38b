//! The log lines the service emits, built as plain strings; the caller
//! decides where they go.

use vstd::prelude::*;
use vstd::string::StringExecFns;
use crate::text::{dec_rep, u64_to_string};

verus! {

/// The line announcing startup.
pub fn bot_started() -> (r: String)
    ensures
        r@ == "telestats started. version: 0.1.1"@,
{
    String::from_str("telestats started. version: 0.1.1")
}

/// The line announcing when the next update cycle runs.
pub fn next_update(hours: u64) -> (r: String)
    ensures
        r@ == "next update in "@ + dec_rep(hours as nat) + " hours"@,
{
    let mut r = String::from_str("next update in ");
    let h = u64_to_string(hours);
    r.append(h.as_str());
    r.append(" hours");
    r
}

/// The line announcing that one service's update began.
pub fn update_started(service: &str) -> (r: String)
    ensures
        r@ == "starting "@ + service@ + " service update"@,
{
    let mut r = String::from_str("starting ");
    r.append(service);
    r.append(" service update");
    r
}

/// The line announcing that one service's update finished.
pub fn update_completed(service: &str) -> (r: String)
    ensures
        r@ == service@ + " service update completed"@,
{
    let mut r = service.to_owned();
    r.append(" service update completed");
    r
}

/// The line reporting that one service's update failed, with the error.
pub fn update_failed(service: &str, error: &str) -> (r: String)
    ensures
        r@ == service@ + " service update failed: "@ + error@,
{
    let mut r = service.to_owned();
    r.append(" service update failed: ");
    r.append(error);
    r
}

/// The line reporting a failure outside any one service.
pub fn error_with_message(message: &str) -> (r: String)
    ensures
        r@ == message@,
{
    message.to_owned()
}

} // verus!
