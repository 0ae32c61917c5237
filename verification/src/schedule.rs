//! Tick scheduling and frame admission for the capture session orchestrator.
//!
//! The session starts in a priming phase, waits once until just past a
//! wall-clock second boundary, and then ticks at a fixed one-second cadence.
//! Each tick either admits a full frame of exactly `frame_len` samples or is
//! skipped with a reported shortfall; no reading is ever built from a partial
//! frame.

use vstd::prelude::*;

verus! {

pub const NANOS_PER_SECOND: u64 = 1_000_000_000;

/// What the orchestrator does with one tick: process a full frame, or skip
/// the tick and report how many samples were missing.
#[derive(Clone, Copy, Debug, PartialEq, Eq, Structural)]
pub enum TickDecision {
    Process,
    Skip { shortfall: usize },
}

/// Nanoseconds to wait, from a wall-clock instant whose sub-second part is
/// `subsec_nanos`, so that the first tick lands one full second past the next
/// whole-second boundary. The extra second lets the sample queue fill with
/// one second of audio before the first pull.
pub fn delay_to_aligned_start_nanos(subsec_nanos: u32) -> (delay: u64)
    requires
        subsec_nanos < NANOS_PER_SECOND,
    ensures
        delay == 2 * NANOS_PER_SECOND - subsec_nanos,
        NANOS_PER_SECOND < delay <= 2 * NANOS_PER_SECOND,
        (subsec_nanos + delay) % (NANOS_PER_SECOND as int) == 0,
{
    proof {
        assert((subsec_nanos + (2 * NANOS_PER_SECOND - subsec_nanos)) % (NANOS_PER_SECOND as int)
            == 0) by (nonlinear_arith)
            requires subsec_nanos < NANOS_PER_SECOND;
    }
    2 * NANOS_PER_SECOND - subsec_nanos as u64
}

/// The two phases of a capture session: before the first aligned tick, and
/// steady once-per-second ticking.
#[derive(Clone, Copy, Debug, PartialEq, Eq, Structural)]
pub enum Phase {
    Priming,
    Running,
}

/// The capture session orchestrator's decision state: it fixes the frame
/// length once, waits out the priming phase, and then admits or skips each
/// one-second tick. The timer itself and the audio are outside; every
/// decision is made here.
pub struct Orchestrator {
    pub phase: Phase,
    pub frame_len: usize,
}

impl Orchestrator {
    /// A new session starts priming, with the frame length (one second of
    /// samples) fixed for its lifetime.
    pub fn new(frame_len: usize) -> (s: Orchestrator)
        ensures
            s.phase == Phase::Priming,
            s.frame_len == frame_len,
    {
        Orchestrator { phase: Phase::Priming, frame_len }
    }

    /// Leaves the priming phase: returns how long to wait so that ticking
    /// starts one full second past the next wall-clock second boundary, and
    /// enters the running phase. Waits happen once; a running session never
    /// re-aligns.
    pub fn start(&mut self, subsec_nanos: u32) -> (delay: u64)
        requires
            old(self).phase == Phase::Priming,
            subsec_nanos < NANOS_PER_SECOND,
        ensures
            final(self).phase == Phase::Running,
            final(self).frame_len == old(self).frame_len,
            delay == 2 * NANOS_PER_SECOND - subsec_nanos,
    {
        self.phase = Phase::Running;
        delay_to_aligned_start_nanos(subsec_nanos)
    }

    /// One tick of a running session: process a full frame or skip with the
    /// shortfall. A missed tick is never queued, so the decision depends on
    /// nothing but what is available now.
    pub fn on_tick(&self, available: usize) -> (d: TickDecision)
        requires
            self.phase == Phase::Running,
        ensures
            available >= self.frame_len ==> d == TickDecision::Process,
            available < self.frame_len ==> d == (TickDecision::Skip {
                shortfall: (self.frame_len - available) as usize,
            }),
    {
        tick_decision(available, self.frame_len)
    }
}

/// Frame admission: a tick is processed exactly when a full frame of
/// `frame_len` samples is available; otherwise it is skipped and the
/// shortfall is reported, once per tick.
pub fn tick_decision(available: usize, frame_len: usize) -> (d: TickDecision)
    ensures
        available >= frame_len ==> d == TickDecision::Process,
        available < frame_len ==> d == (TickDecision::Skip {
            shortfall: (frame_len - available) as usize,
        }),
{
    if available >= frame_len {
        TickDecision::Process
    } else {
        TickDecision::Skip { shortfall: frame_len - available }
    }
}

} // verus!
