//! The merged input stream's event type: keyboard events and periodic
//! ticks arrive through one channel, so they are handled in arrival
//! order and never concurrently.

use vstd::prelude::*;

verus! {

/// One event from the merged input stream.
pub enum Event<I> {
    /// A key the user pressed.
    Input(I),
    /// A timer tick, driving the drain of newly discovered entries.
    Tick,
}

} // verus!
