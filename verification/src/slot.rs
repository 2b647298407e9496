//! The latest slot that the ledger stream has reported.
use vstd::prelude::*;

verus! {

/// The service that keeps a value up to date has stopped, so the value can no
/// longer be trusted.
#[derive(Debug, Clone, Copy, PartialEq, Eq, Structural)]
pub struct PoisonError;

/// Holds the last reading of the slot stream: a slot, or that the stream has
/// stopped.
#[derive(Debug, Clone, Copy)]
pub struct SlotTracker {
    latest: Result<u64, PoisonError>,
}

impl View for SlotTracker {
    type V = Result<u64, PoisonError>;

    closed spec fn view(&self) -> Result<u64, PoisonError> {
        self.latest
    }
}

impl SlotTracker {
    /// A tracker whose last reading is `reading`.
    pub fn new(reading: Result<u64, PoisonError>) -> (tracker: Self)
        ensures
            tracker@ == reading,
    {
        SlotTracker { latest: reading }
    }

    /// The last reading.
    pub fn load(&self) -> (slot: Result<u64, PoisonError>)
        ensures
            slot == self@,
    {
        self.latest
    }
}

} // verus!
