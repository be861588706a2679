//! How an attached terminal session ends.
//!
//! The session backend owns the long-lived terminal; Chartr attaches a local
//! client to it. When that client stops, the session may well still be alive
//! on the backend, which is why the outcome says only that it closed.

use vstd::prelude::*;

verus! {

/// The local attach client's outcome, once it stops.
#[derive(Debug, Clone, Copy, PartialEq, Eq, Structural)]
pub enum Ended {
    /// The attach client closed. The backend's session may still be alive.
    Closed,
}

} // verus!
