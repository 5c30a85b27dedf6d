//! The lifecycle of the supervised child process.
//!
//! In the running system the current [`State`] sits in one atomic cell
//! shared by the main thread, the kill-timer thread and the signal
//! handler; every change is a single compare-and-swap.  This module
//! holds the transitions themselves as pure functions, together with a
//! model of an arbitrary interleaving of racing requests and proofs
//! that the interrupt can be delivered at most once and that the state
//! always settles in a terminal value.

use vstd::prelude::*;

verus! {

/// Lifecycle of the child: created at `Running`; `KillTimerStarted`
/// and `Killing` are transient; `NotRunning` and `FailedToKill` are
/// terminal.
#[derive(Clone, Copy, Debug, PartialEq, Eq, Structural)]
pub enum State {
    Running,
    KillTimerStarted,
    Killing,
    NotRunning,
    FailedToKill,
}

/// One request that can race on the shared state cell.
#[derive(Clone, Copy, Debug, PartialEq, Eq, Structural)]
pub enum StateEvent {
    /// The classifier saw an error and asks to arm the kill timer.
    ArmKillTimer,
    /// The timer expired or a cancellation signal arrived: attempt the
    /// kill; `delivered` records whether the interrupt could be sent.
    Kill { delivered: bool },
    /// The blocking wait reaped the child after it exited.
    Reap,
}

impl State {
    /// Terminal states: the child is gone, or the interrupt could not
    /// be delivered and the child is left to finish on its own.
    pub open spec fn is_terminal(self) -> bool {
        self == State::NotRunning || self == State::FailedToKill
    }

    /// States from which a kill attempt wins its compare-and-swap.
    pub open spec fn kill_can_win(self) -> bool {
        self == State::Running || self == State::KillTimerStarted
    }

    /// A single compare-and-swap: move to `new` only when the current
    /// value is `current`; report whether the swap happened.
    pub fn transit(self, current: State, new: State) -> (r: (State, bool))
        ensures
            r == (if self == current { (new, true) } else { (self, false) }),
    {
        if self == current {
            (new, true)
        } else {
            (self, false)
        }
    }

    /// `Running | KillTimerStarted -> Killing`; both the timer-expiry
    /// path and the signal path go through this, so only one of them
    /// can win.
    pub fn try_set_killing(self) -> (r: (State, bool))
        ensures
            r == (if self.kill_can_win() { (State::Killing, true) } else { (self, false) }),
    {
        let (s, moved) = self.transit(State::Running, State::Killing);
        if moved {
            (s, true)
        } else {
            s.transit(State::KillTimerStarted, State::Killing)
        }
    }

    /// `Running -> KillTimerStarted`; guarantees at most one timer
    /// thread is ever spawned for the child.
    pub fn try_set_start_kill_timer(self) -> (r: (State, bool))
        ensures
            r == (if self == State::Running {
                (State::KillTimerStarted, true)
            } else {
                (self, false)
            }),
    {
        self.transit(State::Running, State::KillTimerStarted)
    }

    /// `Killing -> NotRunning`: the interrupt was delivered.
    pub fn set_not_running(self) -> (r: State)
        ensures
            r == (if self == State::Killing { State::NotRunning } else { self }),
    {
        self.transit(State::Killing, State::NotRunning).0
    }

    /// Unconditional `-> NotRunning`: the blocking wait reaped the
    /// child, whether or not any kill path ever engaged.
    pub fn force_set_not_running(self) -> (r: State)
        ensures
            r == State::NotRunning,
    {
        State::NotRunning
    }

    /// `Killing -> FailedToKill`: the interrupt could not be sent.
    pub fn set_failed_to_kill(self) -> (r: State)
        ensures
            r == (if self == State::Killing { State::FailedToKill } else { self }),
    {
        self.transit(State::Killing, State::FailedToKill).0
    }

    /// The cooperative wait loop blocks only while the state is
    /// exactly `Killing`; everywhere else it may return.
    pub fn is_settled(self) -> (r: bool)
        ensures
            r == (self != State::Killing),
    {
        !matches!(self, State::Killing)
    }
}

/// The message reported when a program could not be started, naming
/// the executable in quotes.
pub fn failed_to_execute_error_text(app: &str) -> (r: String)
    ensures
        r@ == "failed to execute \""@ + app@ + "\""@,
{
    let mut s = String::from_str("failed to execute \"");
    s.append(app);
    s.append("\"");
    s
}

/// The state after one complete request has run against the cell.
/// A kill request that wins its compare-and-swap immediately carries
/// on to its terminal mark; one that loses is a no-op.
pub open spec fn apply_event(s: State, e: StateEvent) -> State {
    match e {
        StateEvent::ArmKillTimer => if s == State::Running {
            State::KillTimerStarted
        } else {
            s
        },
        StateEvent::Kill { delivered } => if s.kill_can_win() {
            if delivered {
                State::NotRunning
            } else {
                State::FailedToKill
            }
        } else {
            s
        },
        StateEvent::Reap => State::NotRunning,
    }
}

/// How many interrupts this one request sends: one exactly when it is
/// a kill request that wins the compare-and-swap.
pub open spec fn interrupts_sent(s: State, e: StateEvent) -> nat {
    match e {
        StateEvent::Kill { delivered } => if s.kill_can_win() {
            1nat
        } else {
            0nat
        },
        _ => 0nat,
    }
}

/// The state after a whole interleaving of requests.  Because every
/// transition is one compare-and-swap on a single cell, any concurrent
/// execution is equivalent to some sequence of complete requests.
pub open spec fn run_events(s: State, es: Seq<StateEvent>) -> State
    decreases es.len(),
{
    if es.len() == 0 {
        s
    } else {
        apply_event(run_events(s, es.drop_last()), es.last())
    }
}

/// Total number of interrupts sent over a whole interleaving.
pub open spec fn total_interrupts(s: State, es: Seq<StateEvent>) -> nat
    decreases es.len(),
{
    if es.len() == 0 {
        0nat
    } else {
        total_interrupts(s, es.drop_last()) + interrupts_sent(
            run_events(s, es.drop_last()),
            es.last(),
        )
    }
}

/// Once no kill can win any more (the kill already engaged, or the
/// child is gone), no request ever brings the state back to one a
/// kill could win from.
proof fn lemma_engaged_is_stable(s: State, es: Seq<StateEvent>)
    requires
        !s.kill_can_win(),
    ensures
        !run_events(s, es).kill_can_win(),
    decreases es.len(),
{
    if es.len() > 0 {
        lemma_engaged_is_stable(s, es.drop_last());
    }
}

/// Helper for the idempotency law: from any state, at most one
/// interrupt is sent, and once one was sent the state is terminal and
/// no later kill can win.
proof fn lemma_interrupts_bounded(s: State, es: Seq<StateEvent>)
    ensures
        total_interrupts(s, es) <= 1,
        total_interrupts(s, es) >= 1 ==> run_events(s, es).is_terminal(),
        total_interrupts(s, es) >= 1 ==> !run_events(s, es).kill_can_win(),
    decreases es.len(),
{
    if es.len() > 0 {
        lemma_interrupts_bounded(s, es.drop_last());
    }
}

/// Idempotent kill: whatever interleaving of kill requests, timer
/// requests and the final reap runs against a freshly started child,
/// the operating-system interrupt is sent at most once.
pub proof fn lemma_interrupt_sent_at_most_once(es: Seq<StateEvent>)
    ensures
        total_interrupts(State::Running, es) <= 1,
{
    lemma_interrupts_bounded(State::Running, es);
}

/// Once the interrupt was sent, the state has settled in exactly one
/// of `NotRunning`/`FailedToKill`, whatever else raced with the kill.
pub proof fn lemma_won_kill_settles(es: Seq<StateEvent>)
    ensures
        total_interrupts(State::Running, es) >= 1 ==> run_events(State::Running, es).is_terminal(),
{
    lemma_interrupts_bounded(State::Running, es);
}

/// Terminal states are stable: no later request moves the state out of
/// `NotRunning`/`FailedToKill` (a reap re-marks `NotRunning`).
pub proof fn lemma_terminal_is_stable(s: State, es: Seq<StateEvent>)
    requires
        s.is_terminal(),
    ensures
        run_events(s, es).is_terminal(),
    decreases es.len(),
{
    if es.len() > 0 {
        lemma_terminal_is_stable(s, es.drop_last());
    }
}

/// The final blocking wait always observes a consistent terminal
/// state: after the reap, whatever raced before it, the state is one
/// of `NotRunning`/`FailedToKill` (here exactly `NotRunning`).
pub proof fn lemma_wait_settles(es: Seq<StateEvent>)
    ensures
        run_events(State::Running, es.push(StateEvent::Reap)) == State::NotRunning,
{
    assert(es.push(StateEvent::Reap).drop_last() =~= es);
}

} // verus!
