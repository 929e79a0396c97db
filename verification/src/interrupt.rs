//! Termination-signal tracking, so a cancelled run still cleans up after
//! itself: which signals are trapped, what each one means for the process's
//! exit code and wording, and the count of signals received so far.

use vstd::prelude::*;

verus! {

/// A signal trapped so a run cleans up instead of being killed outright.
#[derive(Debug, Clone, Copy, PartialEq, Eq, Structural)]
pub enum TerminationSignal {
    /// `SIGINT` — Ctrl+C in a non-raw terminal.
    Interrupt,
    /// `SIGTERM` — the polite stop an editor, init system or `kill` sends.
    Terminate,
    /// `SIGHUP` — the controlling terminal went away.
    Hangup,
}

/// POSIX's number for each trapped signal.
pub open spec fn signal_number(signal: TerminationSignal) -> int {
    match signal {
        TerminationSignal::Interrupt => 2,
        TerminationSignal::Terminate => 15,
        TerminationSignal::Hangup => 1,
    }
}

impl TerminationSignal {
    /// Every signal trapped, in the order a listener registers them.
    pub fn all() -> (signals: [TerminationSignal; 3])
        ensures
            signals@ == seq![
                TerminationSignal::Interrupt,
                TerminationSignal::Terminate,
                TerminationSignal::Hangup,
            ],
    {
        [TerminationSignal::Interrupt, TerminationSignal::Terminate, TerminationSignal::Hangup]
    }

    /// The signal's own POSIX number.
    pub fn number(self) -> (n: i32)
        ensures
            n == signal_number(self),
    {
        match self {
            TerminationSignal::Interrupt => 2,
            TerminationSignal::Terminate => 15,
            TerminationSignal::Hangup => 1,
        }
    }

    /// The process exit code for a run this signal ended: 128 + its number,
    /// the shell's convention for "killed by this signal".
    pub fn exit_code(self) -> (code: u8)
        ensures
            code == 128 + signal_number(self),
    {
        let n = self.number();
        128u8 + (n as u8)
    }

    /// The signal's name, for a message that has to say which one arrived.
    pub fn name(self) -> (name: &'static str)
        ensures
            name@ == match self {
                TerminationSignal::Interrupt => "SIGINT"@,
                TerminationSignal::Terminate => "SIGTERM"@,
                TerminationSignal::Hangup => "SIGHUP"@,
            },
    {
        match self {
            TerminationSignal::Interrupt => "SIGINT",
            TerminationSignal::Terminate => "SIGTERM",
            TerminationSignal::Hangup => "SIGHUP",
        }
    }

    /// How a run ended by this signal describes itself.
    pub fn ended_run(self) -> (text: &'static str)
        ensures
            text@ == match self {
                TerminationSignal::Interrupt => "Interrupted"@,
                TerminationSignal::Terminate => "Terminated by SIGTERM"@,
                TerminationSignal::Hangup => "Terminated by SIGHUP"@,
            },
    {
        match self {
            TerminationSignal::Interrupt => "Interrupted",
            TerminationSignal::Terminate => "Terminated by SIGTERM",
            TerminationSignal::Hangup => "Terminated by SIGHUP",
        }
    }

    /// How to ask a second time — the press or signal that abandons the
    /// cleanup as well as the run.
    pub fn send_again(self) -> (text: &'static str)
        ensures
            text@ == match self {
                TerminationSignal::Interrupt => "Press Ctrl+C again"@,
                TerminationSignal::Terminate => "Send SIGTERM again"@,
                TerminationSignal::Hangup => "Send SIGHUP again"@,
            },
    {
        match self {
            TerminationSignal::Interrupt => "Press Ctrl+C again",
            TerminationSignal::Terminate => "Send SIGTERM again",
            TerminationSignal::Hangup => "Send SIGHUP again",
        }
    }

    /// The signal whose number is `number`, or `Interrupt` for anything
    /// else — zero, what a tracker holds before any signal arrives, included.
    pub fn from_number(number: usize) -> (signal: TerminationSignal)
        ensures
            signal == signal_of(number),
    {
        if number == 15 {
            TerminationSignal::Terminate
        } else if number == 1 {
            TerminationSignal::Hangup
        } else {
            TerminationSignal::Interrupt
        }
    }
}

/// The signal whose number is `number`, or `Interrupt` for anything else.
pub open spec fn signal_of(number: usize) -> TerminationSignal {
    if number == 15 {
        TerminationSignal::Terminate
    } else if number == 1 {
        TerminationSignal::Hangup
    } else {
        TerminationSignal::Interrupt
    }
}

/// The failure a task ends with when a termination signal ends it. It
/// carries the signal because the process's exit code is 128 + that
/// signal's number, which nothing else records.
#[derive(Debug, Clone, Copy, PartialEq, Eq, Structural)]
pub struct TaskInterrupted {
    /// The signal that ended the run.
    pub signal: TerminationSignal,
}

impl TaskInterrupted {
    /// The failure for a run ended by `signal`.
    pub fn new(signal: TerminationSignal) -> (failure: Self)
        ensures
            failure.signal == signal,
    {
        TaskInterrupted { signal }
    }

    /// How this failure reads: what the signal says of the run it ended.
    pub fn message(&self) -> (text: String)
        ensures
            text@ == match self.signal {
                TerminationSignal::Interrupt => "Interrupted"@,
                TerminationSignal::Terminate => "Terminated by SIGTERM"@,
                TerminationSignal::Hangup => "Terminated by SIGHUP"@,
            },
    {
        self.signal.ended_run().to_owned()
    }
}

/// The number after one more signal: counted like an atomic counter, which
/// wraps rather than stops at the top of its range.
pub open spec fn next_count(count: usize) -> usize {
    if count == usize::MAX {
        0
    } else {
        (count + 1) as usize
    }
}

/// The termination signals one invocation has received: how many, and which
/// arrived last.
#[derive(Debug)]
pub struct Interrupt {
    count: usize,
    last_signal: usize,
}

impl Interrupt {
    /// How many signals have been recorded.
    pub closed spec fn recorded(&self) -> usize {
        self.count
    }

    /// The number of the last signal recorded, zero before any.
    pub closed spec fn last_number(&self) -> usize {
        self.last_signal
    }

    /// A tracker with nothing recorded.
    pub fn new() -> (interrupt: Self)
        ensures
            interrupt.recorded() == 0,
            interrupt.last_number() == 0,
    {
        Interrupt { count: 0, last_signal: 0 }
    }

    /// Records an interrupt (`SIGINT`).
    pub fn record(&mut self)
        ensures
            final(self).recorded() == next_count(old(self).recorded()),
            final(self).last_number() == 2,
    {
        self.record_signal(TerminationSignal::Interrupt);
    }

    /// Records `signal`. The signal is stored before the count is raised,
    /// so anything that sees the new count also sees what caused it.
    pub fn record_signal(&mut self, signal: TerminationSignal)
        ensures
            final(self).recorded() == next_count(old(self).recorded()),
            final(self).last_number() == signal_number(signal),
    {
        self.last_signal = signal.number() as usize;
        self.count = if self.count == usize::MAX {
            0
        } else {
            self.count + 1
        };
    }

    /// The most recent signal recorded — `Interrupt` when none has been.
    pub fn last_signal(&self) -> (signal: TerminationSignal)
        ensures
            signal == signal_of(self.last_number()),
    {
        TerminationSignal::from_number(self.last_signal)
    }

    /// How many signals have been recorded so far.
    pub fn count(&self) -> (n: usize)
        ensures
            n == self.recorded(),
    {
        self.count
    }

    /// Whether at least one signal has been recorded.
    pub fn is_interrupted(&self) -> (interrupted: bool)
        ensures
            interrupted == (self.recorded() > 0),
    {
        self.count > 0
    }

    /// Whether a wait for `count` signals is over: at least that many have
    /// been recorded.
    pub fn has_reached(&self, count: usize) -> (reached: bool)
        ensures
            reached == (self.recorded() >= count),
    {
        self.count >= count
    }
}

/// The signal recorded last is the one reported: every signal survives
/// the round trip through its own number, which is how a tracker stores
/// it, and a tracker that has recorded nothing reports `Interrupt`.
pub proof fn lemma_last_recorded_signal_is_reported(signal: TerminationSignal)
    ensures
        signal_of(signal_number(signal) as usize) == signal,
        signal_of(0) == TerminationSignal::Interrupt,
        0 < signal_number(signal) < 128,
{
}


/// Recording a signal counts it and keeps it as the latest: from a count
/// below the top of its range, the count goes up by exactly one (counts
/// never latch), the signal reported is the one just recorded, and every
/// wait for no more signals than are now recorded is over. A fresh tracker
/// has recorded none and reports `Interrupt`.
pub proof fn lemma_recording_releases_waiters(before: Interrupt, after: Interrupt, signal: TerminationSignal, n: usize)
    requires
        before.recorded() < usize::MAX,
        after.recorded() == next_count(before.recorded()),
        after.last_number() == signal_number(signal),
        n <= before.recorded() + 1,
    ensures
        after.recorded() == before.recorded() + 1,
        signal_of(after.last_number()) == signal,
        after.recorded() >= n,
{
    lemma_last_recorded_signal_is_reported(signal);
}

} // verus!
