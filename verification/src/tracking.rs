//! When a thread records its allocations.
use vstd::prelude::*;

verus! {

/// State of the allocation writer
#[derive(Debug)]
pub enum TrackingState<W> {
    /// Not initialized
    Uninitialized,
    /// Ready to track allocations
    Ready(W),
    /// Tracking permanently disabled
    Disabled,
}

/// What becomes of an event.
#[derive(Debug, Clone, Copy, PartialEq, Eq, Structural)]
pub enum Admission {
    /// It is not recorded.
    Ignore,
    /// A writer is set up, which then records it.
    Initialize,
    /// The writer records it.
    Record,
}

/// Decide on an event. `state` is the state of the thread, or `None` where it cannot be had: it is
/// gone, or in use, since the event was caused by recording another one.
///
/// Events are recorded only if tracking is enabled. Reentrant events are ignored.
pub fn admission<W>(enabled: bool, state: Option<&TrackingState<W>>) -> (decision: Admission)
    ensures
        decision == match state {
            Some(TrackingState::Uninitialized) if enabled => Admission::Initialize,
            Some(TrackingState::Ready(_)) if enabled => Admission::Record,
            _ => Admission::Ignore,
        },
{
    if !enabled {
        return Admission::Ignore;
    }
    match state {
        Some(TrackingState::Uninitialized) => Admission::Initialize,
        Some(TrackingState::Ready(_)) => Admission::Record,
        Some(TrackingState::Disabled) => Admission::Ignore,
        None => Admission::Ignore,
    }
}

/// Whether a reallocation is recorded: it moved the memory, or changed its size.
pub fn realloc_is_visible(ptr: u64, new_ptr: u64, size: usize, new_size: usize) -> (visible: bool)
    ensures
        visible == !(ptr == new_ptr && size == new_size),
{
    size != new_size || ptr != new_ptr
}

} // verus!
