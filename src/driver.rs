//! Decisions of the simulation driver: when it may start, when it stops,
//! how many steps it runs between two epochs, and how it reacts to the
//! parameters that the consumer commanded.
use vstd::prelude::*;
use crate::method::IntegrationMethod;

verus! {

/// Fewest integration steps between two epochs.
pub const MIN_STEPS_PER_EPOCH: u64 = 10;

/// Run flags shared by the consumer and the driver thread.
#[derive(Clone, Copy, PartialEq, Eq, Structural, Debug)]
pub struct RunState {
    /// No driver thread is live.
    pub thread_stopped: bool,
    /// The driver is asked to keep running.
    pub is_running: bool,
}

/// State after a start request with `body_count` bodies, and whether a
/// driver thread is launched.
pub open spec fn spec_start(st: RunState, body_count: nat) -> (RunState, bool) {
    if st.thread_stopped && body_count >= 2 {
        (RunState { thread_stopped: false, is_running: true }, true)
    } else {
        (st, false)
    }
}

/// State after a stop request.
pub open spec fn spec_stop(st: RunState) -> RunState {
    RunState { is_running: false, ..st }
}

impl RunState {
    /// No driver thread, nothing running.
    pub fn new() -> (r: RunState)
        ensures
            r == (RunState { thread_stopped: true, is_running: false }),
    {
        RunState { thread_stopped: true, is_running: false }
    }

    /// Start request: a driver thread is launched only when none is live
    /// and there are at least two bodies; otherwise nothing changes.
    pub fn request_start(&mut self, body_count: usize) -> (launched: bool)
        ensures
            (*final(self), launched) == spec_start(*old(self), body_count as nat),
    {
        if self.thread_stopped && body_count >= 2 {
            self.thread_stopped = false;
            self.is_running = true;
            true
        } else {
            false
        }
    }

    /// Stop request: the driver sees it at its next epoch.
    pub fn request_stop(&mut self)
        ensures
            *final(self) == spec_stop(*old(self)),
    {
        self.is_running = false;
    }

    /// After a merge left `body_count` bodies: with fewer than two the run
    /// is called off. Returns whether integration goes on.
    pub fn after_merge(&mut self, body_count: usize) -> (go_on: bool)
        ensures
            go_on == (body_count >= 2),
            *final(self) == if go_on {
                *old(self)
            } else {
                spec_stop(*old(self))
            },
    {
        if body_count < 2 {
            self.is_running = false;
            false
        } else {
            true
        }
    }

    /// The driver thread has joined its workers and exits.
    pub fn driver_exited(&mut self)
        ensures
            *final(self) == (RunState { thread_stopped: true, ..*old(self) }),
    {
        self.thread_stopped = true;
    }
}

/// With fewer than two bodies a start request changes nothing, and a stop
/// request repeated has the effect of one.
pub proof fn lemma_start_stop_degenerate(st: RunState, body_count: nat)
    requires
        body_count < 2,
    ensures
        spec_start(st, body_count) == (st, false),
        spec_stop(spec_stop(st)) == spec_stop(st),
{
}

/// Number of steps of the next epoch, from the rounded ratio of measured
/// step rate to frame rate (`None` when the elapsed time could not be
/// measured).
pub open spec fn spec_retune_steps(current: u64, measured: Option<u64>) -> u64 {
    let raw: int = match measured {
        Some(s) => s as int,
        None => if 2 * current <= u64::MAX {
            2 * current
        } else {
            u64::MAX as int
        },
    };
    if raw < MIN_STEPS_PER_EPOCH {
        MIN_STEPS_PER_EPOCH
    } else {
        raw as u64
    }
}

/// Retunes the epoch length: with no measurable elapsed time the count is
/// doubled (saturating), otherwise it follows the measurement; never fewer
/// than `MIN_STEPS_PER_EPOCH`.
pub fn retune_steps(current: u64, measured: Option<u64>) -> (r: u64)
    ensures
        r == spec_retune_steps(current, measured),
        r >= MIN_STEPS_PER_EPOCH,
{
    let raw = match measured {
        Some(s) => s,
        None => if current <= u64::MAX / 2 {
            2 * current
        } else {
            u64::MAX
        },
    };
    if raw < MIN_STEPS_PER_EPOCH {
        MIN_STEPS_PER_EPOCH
    } else {
        raw
    }
}

/// The configuration that decides the driver's worker set.
#[derive(Clone, Copy, PartialEq, Eq, Structural, Debug)]
pub struct Layout {
    pub method: IntegrationMethod,
    pub num_threads: usize,
}

impl Layout {
    /// Number of worker threads the driver keeps for this layout.
    pub open spec fn spec_worker_count(self) -> nat {
        if self.method.spec_is_symplectic() && self.num_threads > 1 {
            self.num_threads as nat
        } else {
            0
        }
    }

    pub fn worker_count(&self) -> (r: usize)
        ensures
            r == self.spec_worker_count(),
    {
        if self.method.uses_workers(self.num_threads) {
            self.num_threads
        } else {
            0
        }
    }
}

/// What the driver does at an epoch boundary.
#[derive(Clone, Copy, PartialEq, Eq, Structural, Debug)]
pub enum EpochAction {
    /// Keep integrating with the same workers.
    Continue,
    /// Tear the workers down and build them anew for the commanded layout.
    Rebuild,
    /// Tear the workers down and end the driver thread.
    Shutdown,
}

/// Reconciles the running layout with the commanded one.
pub fn epoch_action(running: &Layout, commanded: &Layout, is_running: bool) -> (r: EpochAction)
    ensures
        r == if !is_running {
            EpochAction::Shutdown
        } else if *running != *commanded {
            EpochAction::Rebuild
        } else {
            EpochAction::Continue
        },
{
    if !is_running {
        EpochAction::Shutdown
    } else if running.method != commanded.method || running.num_threads != commanded.num_threads {
        EpochAction::Rebuild
    } else {
        EpochAction::Continue
    }
}

} // verus!
