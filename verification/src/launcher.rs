//! The control loop around a run: how a request to stop is passed on.

use vstd::prelude::*;

verus! {

/// What the control loop is told.
#[derive(Clone, Copy, Debug, PartialEq, Eq, Structural)]
pub enum EventMessage {
    Stop,
    Done,
}

/// The signal that is sent to the command.
#[derive(Clone, Copy, Debug, PartialEq, Eq, Structural)]
pub enum Signal {
    Interrupt,
    Terminate,
    Kill,
}

/// What the control loop does about a request to stop.
#[derive(Clone, Copy, Debug, PartialEq, Eq, Structural)]
pub enum StopStep {
    /// Answer every pending lookup as absent, and send the signal to the
    /// command.
    Interrupt(Signal),
    /// No command runs: the run is done.
    Done,
}

/// The signal for the `stop_count`-th request to stop: the first asks the
/// command to stop, the second tells it to, and from the third on it is
/// killed.
pub open spec fn signal_for(stop_count: u32) -> Signal {
    if stop_count == 2 {
        Signal::Terminate
    } else if stop_count >= 3 {
        Signal::Kill
    } else {
        Signal::Interrupt
    }
}

/// The signal for the `stop_count`-th request to stop.
pub fn stop_signal(stop_count: u32) -> (signal: Signal)
    ensures
        signal == signal_for(stop_count),
{
    if stop_count == 2 {
        Signal::Terminate
    } else if stop_count >= 3 {
        Signal::Kill
    } else {
        Signal::Interrupt
    }
}

/// What the control loop does about the `stop_count`-th request to stop,
/// given the process id of the command, which is 0 while none runs.
pub fn on_stop(stop_count: u32, raw_pid: i32) -> (step: StopStep)
    ensures
        step == if raw_pid != 0 {
            StopStep::Interrupt(signal_for(stop_count))
        } else {
            StopStep::Done
        },
{
    if raw_pid != 0 {
        StopStep::Interrupt(stop_signal(stop_count))
    } else {
        StopStep::Done
    }
}

} // verus!
