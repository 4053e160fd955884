//! A multi-room collaborative playlist player.
//!
//! Users queue videos into named rooms; for each room with a non-empty queue a
//! background playback loop walks the queue in enqueue order, waits out each
//! item's duration, and marks it played. Clients can query the current
//! playlist position and skip the item that is playing.
//!
//! The crate holds the verified core: the duration parser, the room registry,
//! the queue store, the playback supervisor (the shared room-to-status map),
//! the per-room playback loop state machine, and the playlist view. Wall-clock
//! time and sleeping are left to the caller, who passes the current time into
//! every step and performs the waits the loop asks for.

pub mod duration;
pub mod errors;
pub mod laws;
pub mod metadata;
pub mod player;
pub mod playlist;
pub mod room;
pub mod store;
pub mod supervisor;
pub mod video;

use vstd::prelude::*;

verus! {

/// Greeting shown at the root of the HTTP interface.
pub fn api_index() -> (r: &'static str)
    ensures
        r@ == "Welcome to the YoukeBox API."@,
{
    "Welcome to the YoukeBox API."
}

} // verus!
