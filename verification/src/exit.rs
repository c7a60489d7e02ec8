//! How a run ends, from the failures it collected.

use crate::types::Fail;
use vstd::prelude::*;

verus! {

/// The three ways a run can end.
#[derive(Clone, Copy, Debug, PartialEq, Eq)]
pub enum Exit {
    /// No failure was collected.
    Success,
    /// The one failure collected is an interrupt.
    Interrupted,
    /// Anything else.
    Failure,
}

/// The exit status of a run that succeeded.
pub const EXIT_SUCCESS: u8 = 0;

/// The exit status of a run that failed.
pub const EXIT_FAILURE: u8 = 1;

/// The exit status reserved for a run that was interrupted.
pub const EXIT_INTERRUPT: u8 = 130;

/// How a run with these failures ends.
pub open spec fn exit_of(failures: Seq<Fail>) -> Exit {
    if failures.len() == 0 {
        Exit::Success
    } else if failures.len() == 1 && failures[0] is Interrupt {
        Exit::Interrupted
    } else {
        Exit::Failure
    }
}

impl Exit {
    /// The exit status of the process.
    pub open spec fn status(self) -> u8 {
        match self {
            Exit::Success => EXIT_SUCCESS,
            Exit::Interrupted => EXIT_INTERRUPT,
            Exit::Failure => EXIT_FAILURE,
        }
    }

    /// Decides how a run ends from the failures it collected.
    pub fn of(failures: &Vec<Fail>) -> (exit: Exit)
        ensures
            exit == exit_of(failures@),
    {
        if failures.len() == 0 {
            Exit::Success
        } else if failures.len() == 1 {
            match &failures[0] {
                Fail::Interrupt => Exit::Interrupted,
                _ => Exit::Failure,
            }
        } else {
            Exit::Failure
        }
    }

    /// The exit status of the process.
    pub fn code(&self) -> (status: u8)
        ensures
            status == self.status(),
    {
        match self {
            Exit::Success => EXIT_SUCCESS,
            Exit::Interrupted => EXIT_INTERRUPT,
            Exit::Failure => EXIT_FAILURE,
        }
    }
}

/// The failures of a run: those that the broadcaster held, and after them
/// the failure that the run itself ended with, if it did.
pub fn collect(outcome: Result<(), Fail>, drained: Vec<Fail>) -> (failures: Vec<Fail>)
    ensures
        failures@ == match outcome {
            Ok(_) => drained@,
            Err(fail) => drained@.push(fail),
        },
{
    let mut failures = drained;
    match outcome {
        Ok(_) => {},
        Err(fail) => {
            failures.push(fail);
        },
    }
    failures
}

} // verus!
