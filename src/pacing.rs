//! Frame pacing: what to do once a frame has been drawn and presented.
use vstd::prelude::*;

verus! {

/// The outcome of pacing one frame.
#[derive(Clone, Copy, Debug, PartialEq, Eq, Structural)]
pub enum FramePace {
    /// The frame came in under budget: block for this many nanoseconds.
    Sleep(u64),
    /// The frame used its whole budget or more: report it and go on at once.
    Behind,
}

/// Decides the pause after a frame that took `elapsed` nanoseconds, given a
/// budget of `delay` nanoseconds per frame. An overrun is reported, never
/// made up for.
pub fn dynamic_delay(delay: u64, elapsed: u64) -> (p: FramePace)
    ensures
        elapsed < delay ==> p == FramePace::Sleep((delay - elapsed) as u64),
        elapsed >= delay ==> p == FramePace::Behind,
{
    if elapsed < delay {
        FramePace::Sleep(delay - elapsed)
    } else {
        FramePace::Behind
    }
}

} // verus!
