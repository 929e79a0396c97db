//! What a failed run exits with — the one mapping every binary honours.
//!
//! The task's own command exiting non-zero keeps that code; a termination
//! signal gives 128 + its number; anything else is 1. The context a failure
//! gathers on its way up never hides the cause underneath.

use vstd::prelude::*;

use crate::interrupt::{signal_number, TaskInterrupted};

verus! {

/// The task's own command exited with a non-zero code.
#[derive(Debug, Clone, Copy, PartialEq, Eq, Structural)]
pub struct ContainerExitedNonZero {
    pub exit_code: i64,
}

/// One error in the chain a failure carries.
#[derive(Debug)]
pub enum Failure {
    /// The task's own command exited non-zero.
    ContainerExitedNonZero(ContainerExitedNonZero),
    /// A termination signal ended the run.
    Interrupted(TaskInterrupted),
    /// Any other error, or context added on the way up.
    Other(String),
}

/// Why a run failed: its chain of errors, from the context added last down
/// to the cause underneath.
#[derive(Debug)]
pub struct RunError {
    pub chain: Vec<Failure>,
}

/// The code of the first command exit in `chain`, if any.
pub open spec fn first_exit(chain: Seq<Failure>) -> Option<i64>
    decreases chain.len(),
{
    if chain.len() == 0 {
        None
    } else {
        match chain[0] {
            Failure::ContainerExitedNonZero(failure) => Some(failure.exit_code),
            _ => first_exit(chain.drop_first()),
        }
    }
}

/// The first termination signal in `chain`, if any.
pub open spec fn first_signal(chain: Seq<Failure>) -> Option<TaskInterrupted>
    decreases chain.len(),
{
    if chain.len() == 0 {
        None
    } else {
        match chain[0] {
            Failure::Interrupted(interrupted) => Some(interrupted),
            _ => first_signal(chain.drop_first()),
        }
    }
}

/// The exit code a failure's chain maps to: a command exit anywhere in it
/// first, then a termination signal anywhere in it, then 1.
pub open spec fn exit_code_of(chain: Seq<Failure>) -> u8 {
    match first_exit(chain) {
        Some(code) => code as u8,
        None => match first_signal(chain) {
            Some(interrupted) => (128 + signal_number(interrupted.signal)) as u8,
            None => 1,
        },
    }
}

/// The first command exit in `chain[from..]`.
fn find_exit(chain: &Vec<Failure>, from: usize) -> (found: Option<i64>)
    requires
        from <= chain.len(),
    ensures
        found == first_exit(chain@.skip(from as int)),
    decreases chain.len() - from,
{
    if from == chain.len() {
        return None;
    }
    assert(chain@.skip(from as int)[0] == chain@[from as int]);
    assert(chain@.skip(from as int).drop_first() =~= chain@.skip(from + 1));
    match &chain[from] {
        Failure::ContainerExitedNonZero(failure) => Some(failure.exit_code),
        _ => find_exit(chain, from + 1),
    }
}

/// The first termination signal in `chain[from..]`.
fn find_signal(chain: &Vec<Failure>, from: usize) -> (found: Option<TaskInterrupted>)
    requires
        from <= chain.len(),
    ensures
        found == first_signal(chain@.skip(from as int)),
    decreases chain.len() - from,
{
    if from == chain.len() {
        return None;
    }
    assert(chain@.skip(from as int)[0] == chain@[from as int]);
    assert(chain@.skip(from as int).drop_first() =~= chain@.skip(from + 1));
    match &chain[from] {
        Failure::Interrupted(interrupted) => Some(*interrupted),
        _ => find_signal(chain, from + 1),
    }
}

/// The process exit code for a failed run: the task command's own code when
/// it exited non-zero (kept modulo 256), 128 + the signal's number when a
/// termination signal ended the run, and 1 for anything else; each looked
/// for through the whole chain, a command exit before a signal.
pub fn for_error(error: &RunError) -> (code: u8)
    ensures
        code == exit_code_of(error.chain@),
{
    assert(error.chain@.skip(0) =~= error.chain@);
    match find_exit(&error.chain, 0) {
        Some(code) => code as u8,
        None => match find_signal(&error.chain, 0) {
            Some(interrupted) => interrupted.signal.exit_code(),
            None => 1,
        },
    }
}

/// Context added on the way up never changes the exit code: a failure
/// wrapped in a message exits exactly as the failure it wraps would.
pub proof fn lemma_context_does_not_hide_the_cause(message: String, chain: Seq<Failure>)
    ensures
        exit_code_of(seq![Failure::Other(message)] + chain) == exit_code_of(chain),
{
    let wrapped = seq![Failure::Other(message)] + chain;
    assert(wrapped.drop_first() =~= chain);
}

/// A command exit outranks a signal wherever each stands in the chain.
pub proof fn lemma_command_exit_outranks_a_signal(chain: Seq<Failure>, code: i64)
    requires
        first_exit(chain) == Some(code),
    ensures
        exit_code_of(chain) == code as u8,
{
}

} // verus!
