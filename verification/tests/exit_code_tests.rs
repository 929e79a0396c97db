use ratect_core::exit_code::{for_error, ContainerExitedNonZero, Failure, RunError};
use ratect_core::interrupt::{TaskInterrupted, TerminationSignal};

fn exited(code: i64) -> Failure {
    Failure::ContainerExitedNonZero(ContainerExitedNonZero { exit_code: code })
}

fn signalled(signal: TerminationSignal) -> Failure {
    Failure::Interrupted(TaskInterrupted::new(signal))
}

fn message(text: &str) -> Failure {
    Failure::Other(text.to_string())
}

/// The task's own command wins over everything: its code is what a script
/// wants.
#[test]
fn a_task_command_that_failed_keeps_its_own_code() {
    let error = RunError { chain: vec![exited(42)] };

    assert_eq!(for_error(&error), 42);
}

/// A run ended by a signal exits 128 + that signal's own number.
#[test]
fn a_signalled_run_exits_with_that_signals_code() {
    let code = |signal| for_error(&RunError { chain: vec![signalled(signal)] });

    assert_eq!(code(TerminationSignal::Interrupt), 130);
    assert_eq!(code(TerminationSignal::Terminate), 143);
    assert_eq!(code(TerminationSignal::Hangup), 129);
}

/// Everything else is one code.
#[test]
fn any_other_failure_exits_1() {
    assert_eq!(for_error(&RunError { chain: vec![message("the config file is empty")] }), 1);
}

/// The context an error accumulates on its way up must not hide the cause
/// underneath.
#[test]
fn context_added_on_the_way_up_does_not_hide_the_cause() {
    let error = RunError { chain: vec![message("task 'build' failed"), exited(3)] };

    assert_eq!(for_error(&error), 3);
}

#[test]
fn context_over_a_signal_still_exits_with_the_signals_code() {
    let error = RunError { chain: vec![message("outer"), message("inner"), signalled(TerminationSignal::Terminate)] };

    assert_eq!(for_error(&error), 143);
}

#[test]
fn a_command_exit_outranks_a_signal_wherever_each_stands() {
    let error = RunError { chain: vec![signalled(TerminationSignal::Interrupt), message("while running"), exited(7)] };
    assert_eq!(for_error(&error), 7);
    let error = RunError { chain: vec![exited(9), signalled(TerminationSignal::Hangup)] };
    assert_eq!(for_error(&error), 9);
}

#[test]
fn a_command_exit_code_is_kept_modulo_256() {
    let error = RunError { chain: vec![exited(257)] };

    assert_eq!(for_error(&error), 1);
}

#[test]
fn an_empty_chain_exits_1() {
    assert_eq!(for_error(&RunError { chain: Vec::new() }), 1);
}
