use ratect_core::interrupt::{Interrupt, TaskInterrupted, TerminationSignal};

#[test]
fn starts_with_no_interrupts_recorded() {
    let interrupt = Interrupt::new();

    assert_eq!(interrupt.count(), 0);
    assert!(!interrupt.is_interrupted());
}

#[test]
fn counts_every_interrupt_rather_than_latching() {
    let mut interrupt = Interrupt::new();

    interrupt.record();
    assert_eq!(interrupt.count(), 1);
    assert!(interrupt.is_interrupted());

    interrupt.record();
    assert_eq!(interrupt.count(), 2);
}

/// Which signal ended the run decides the process's exit code, so the
/// tracker has to say which one arrived, not only that one did.
#[test]
fn records_which_signal_arrived() {
    let mut interrupt = Interrupt::new();

    interrupt.record_signal(TerminationSignal::Terminate);

    assert_eq!(interrupt.count(), 1);
    assert_eq!(interrupt.last_signal(), TerminationSignal::Terminate);
}

/// A run interrupted and then hung up on is reported as hung up on.
#[test]
fn the_most_recent_signal_wins() {
    let mut interrupt = Interrupt::new();

    interrupt.record_signal(TerminationSignal::Interrupt);
    interrupt.record_signal(TerminationSignal::Hangup);

    assert_eq!(interrupt.count(), 2);
    assert_eq!(interrupt.last_signal(), TerminationSignal::Hangup);
}

/// `record` means `SIGINT` specifically, including before anything has been
/// recorded at all.
#[test]
fn recording_without_a_signal_means_an_interrupt() {
    let mut interrupt = Interrupt::new();
    assert_eq!(interrupt.last_signal(), TerminationSignal::Interrupt);

    interrupt.record();
    assert_eq!(interrupt.last_signal(), TerminationSignal::Interrupt);
}

/// POSIX's own numbers, which the exit code is built from.
#[test]
fn signal_numbers_are_the_posix_ones() {
    assert_eq!(TerminationSignal::Interrupt.number(), 2);
    assert_eq!(TerminationSignal::Terminate.number(), 15);
    assert_eq!(TerminationSignal::Hangup.number(), 1);
}

/// 128 + the number, the shell's convention for "killed by this signal".
#[test]
fn the_exit_code_is_128_plus_the_signal() {
    assert_eq!(TerminationSignal::Interrupt.exit_code(), 130);
    assert_eq!(TerminationSignal::Terminate.exit_code(), 143);
    assert_eq!(TerminationSignal::Hangup.exit_code(), 129);
}

/// The round trip through a signal's number is exact for every signal, and
/// a value that is no signal's number reads as an interrupt.
#[test]
fn a_signal_survives_the_round_trip_through_its_number() {
    for signal in TerminationSignal::all() {
        assert_eq!(TerminationSignal::from_number(signal.number() as usize), signal);
    }

    assert_eq!(TerminationSignal::from_number(0), TerminationSignal::Interrupt);
}

/// The failure a run ends with names what actually happened.
#[test]
fn the_failure_names_the_signal_that_ended_the_run() {
    let message = |signal| TaskInterrupted::new(signal).message();

    assert_eq!(message(TerminationSignal::Interrupt), "Interrupted");
    assert_eq!(message(TerminationSignal::Terminate), "Terminated by SIGTERM");
    assert_eq!(message(TerminationSignal::Hangup), "Terminated by SIGHUP");
}

#[test]
fn each_signal_names_itself_and_how_to_send_it_again() {
    assert_eq!(TerminationSignal::Interrupt.name(), "SIGINT");
    assert_eq!(TerminationSignal::Terminate.name(), "SIGTERM");
    assert_eq!(TerminationSignal::Hangup.name(), "SIGHUP");
    assert_eq!(TerminationSignal::Interrupt.send_again(), "Press Ctrl+C again");
    assert_eq!(TerminationSignal::Hangup.send_again(), "Send SIGHUP again");
}

#[test]
fn a_wait_is_over_once_enough_signals_arrived() {
    let mut interrupt = Interrupt::new();
    assert!(interrupt.has_reached(0));
    assert!(!interrupt.has_reached(1));
    interrupt.record();
    assert!(interrupt.has_reached(1));
    assert!(!interrupt.has_reached(2));
}

#[test]
fn a_recorded_signal_ends_every_wait_it_satisfies() {
    let mut interrupt = ratect_core::interrupt::Interrupt::new();
    assert!(interrupt.has_reached(0));
    assert!(!interrupt.has_reached(1));
    interrupt.record_signal(ratect_core::interrupt::TerminationSignal::Terminate);
    assert_eq!(interrupt.count(), 1);
    assert_eq!(interrupt.last_signal(), ratect_core::interrupt::TerminationSignal::Terminate);
    assert!(interrupt.has_reached(1));
    assert!(!interrupt.has_reached(2));
    interrupt.record();
    assert_eq!(interrupt.count(), 2);
    assert_eq!(interrupt.last_signal(), ratect_core::interrupt::TerminationSignal::Interrupt);
    assert!(interrupt.has_reached(2));
}
