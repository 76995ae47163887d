//! Reading the exit status of a finished child process.
use vstd::prelude::*;

verus! {

/// A child process that did not succeed: its exit code, or -1 when a signal ended it.
#[derive(Clone, Copy, Debug, PartialEq, Eq, Structural)]
pub struct ExitError {
    pub code: i32,
}

/// The code reported for a process that a signal ended.
pub const NO_EXIT_CODE: i32 = -1;

/// Success, or the failure with its exit code.
pub fn exit_status_to_error(success: bool, code: Option<i32>) -> (r: Result<(), ExitError>)
    ensures
        success ==> r is Ok,
        !success ==> r == Err::<(), ExitError>(ExitError {
            code: match code {
                Some(c) => c,
                None => NO_EXIT_CODE,
            },
        }),
{
    if success {
        Ok(())
    } else {
        Err(ExitError {
            code: match code {
                Some(c) => c,
                None => NO_EXIT_CODE,
            },
        })
    }
}

} // verus!
