use vstd::prelude::*;

verus! {

/// The capability set the loop driver consumes from a windowing/context
/// collaborator: one-time context setup, a close query, a monotonic
/// clock, non-blocking input polling, and frame presentation.
///
/// Every answer is decided by the collaborator alone, so no method
/// carries a contract: the loop driver states what it does with every
/// possible answer.
pub trait WindowSystem: Sized {
    /// One external input event, handed through to the shapes untouched.
    type Event;

    /// Bind the rendering context to the current thread.
    fn make_current(&mut self);

    /// Enable capture of input events.
    fn set_key_polling(&mut self);

    /// Fix the presentation cadence to one buffer swap per vertical-sync
    /// interval.
    fn set_vsync(&mut self);

    /// Whether the external window-close condition has become true.
    fn should_close(&self) -> bool;

    /// A monotonic clock reading, in milliseconds.
    fn get_time_ms(&mut self) -> u64;

    /// Poll for newly arrived input events without blocking and return
    /// them in arrival order.
    fn poll_events(&mut self) -> Vec<Self::Event>;

    /// Present the frame, waiting at most one vertical-sync interval.
    fn swap_buffers(&mut self);
}

} // verus!
