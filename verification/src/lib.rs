//! Control plane of a multi-process reverse proxy: a supervisory master
//! process that owns a fleet of worker processes, accepts control commands
//! over a local stream socket, and performs zero-downtime binary upgrades by
//! handing live file descriptors and configuration state to a successor.
//!
//! This library holds the verified logic: channel framing, the command
//! server's state machine, the upgrade snapshot and restore path, and the
//! logging filter. Process and socket plumbing lives outside it.

pub mod channel;
pub mod command;
pub mod logging;
pub mod state;
pub mod upgrade;

use vstd::prelude::*;

verus! {

/// Turns an `Option` into a `Result`, mapping `None` to the given error.
pub fn ok_or<T, E>(t: Option<T>, e: E) -> (r: Result<T, E>)
    ensures
        t is Some ==> r == Result::<T, E>::Ok(t->0),
        t is None ==> r == Result::<T, E>::Err(e),
{
    match t {
        Some(t) => Ok(t),
        None => Err(e),
    }
}


} // verus!
