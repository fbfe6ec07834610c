//! State of the supervised build process and its kill timer.
use vstd::prelude::*;

verus! {

/// The supervisor's state. It only moves forward: `Running`, then
/// `KillTimerArmed` once an error is seen, then `Killed` when the timer fires
/// first or `NotRunning` when the process exits first.
#[derive(PartialEq, Eq, Structural, Clone, Copy, Debug)]
pub enum State {
    Running,
    KillTimerArmed { deadline_ms: u64 },
    Killed,
    NotRunning,
}

impl State {
    pub open spec fn spec_is_terminal(self) -> bool {
        self == State::Killed || self == State::NotRunning
    }

    /// The state after arming the timer for `duration_ms` after `now_ms`.
    pub open spec fn armed(self, now_ms: u64, duration_ms: u64) -> State {
        if self == State::Running {
            State::KillTimerArmed {
                deadline_ms: if now_ms + duration_ms > u64::MAX { u64::MAX } else { (now_ms + duration_ms) as u64 },
            }
        } else {
            self
        }
    }

    /// The state after the timer fired.
    pub open spec fn fired(self) -> State {
        if self is KillTimerArmed {
            State::Killed
        } else {
            self
        }
    }

    /// The state after the process exited on its own.
    pub open spec fn exited(self) -> State {
        if self.spec_is_terminal() {
            self
        } else {
            State::NotRunning
        }
    }

    /// Whether the state can no longer change.
    pub fn is_terminal(&self) -> (r: bool)
        ensures
            r == self.spec_is_terminal(),
    {
        match self {
            State::Killed => true,
            State::NotRunning => true,
            _ => false,
        }
    }

    /// Arms the kill timer to fire `duration_ms` after `now_ms`. Only the first
    /// call while running arms it; otherwise the state is kept.
    pub fn arm_kill_after(self, now_ms: u64, duration_ms: u64) -> (r: State)
        ensures
            r == self.armed(now_ms, duration_ms),
    {
        match self {
            State::Running => {
                let deadline_ms = if duration_ms > u64::MAX - now_ms { u64::MAX } else { now_ms + duration_ms };
                State::KillTimerArmed { deadline_ms }
            },
            _ => self,
        }
    }

    /// Whether the armed timer is due at `now_ms`.
    pub fn timer_due(&self, now_ms: u64) -> (r: bool)
        ensures
            r == match *self {
                State::KillTimerArmed { deadline_ms } => now_ms >= deadline_ms,
                _ => false,
            },
    {
        match self {
            State::KillTimerArmed { deadline_ms } => now_ms >= *deadline_ms,
            _ => false,
        }
    }

    /// The timer fired and the process group was sent the termination signal.
    pub fn on_timer_fired(self) -> (r: State)
        ensures
            r == self.fired(),
    {
        match self {
            State::KillTimerArmed { .. } => State::Killed,
            _ => self,
        }
    }

    /// The process exited on its own.
    pub fn on_process_exited(self) -> (r: State)
        ensures
            r == self.exited(),
    {
        match self {
            State::Killed => self,
            _ => State::NotRunning,
        }
    }

    /// Whether the supervisor ended the process.
    pub fn child_killed(&self) -> (r: bool)
        ensures
            r == (*self == State::Killed),
    {
        match self {
            State::Killed => true,
            _ => false,
        }
    }
}

/// Once terminal, no transition changes the state.
pub proof fn lemma_terminal_is_final(s: State, now_ms: u64, duration_ms: u64)
    requires
        s.spec_is_terminal(),
    ensures
        s.armed(now_ms, duration_ms) == s,
        s.fired() == s,
        s.exited() == s,
{
}

} // verus!
