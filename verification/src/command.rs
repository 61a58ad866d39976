//! Commands: what a run of a command means for the step that runs it.

use crate::config::CommandConfig;
use vstd::prelude::*;

verus! {

/// How one run of a command ended.
#[derive(Debug, Clone, Copy, PartialEq, Eq, Structural)]
pub enum Exit {
    /// The command ran and ended with this exit code.
    Code(i32),
    /// The command ran longer than its timeout and was stopped.
    TimedOut,
    /// The command could not be started.
    NotStarted,
}

/// What follows from one run of a command.
#[derive(Debug, Clone, Copy, PartialEq, Eq, Structural)]
pub enum Verdict {
    /// The command has succeeded.
    Succeeded,
    /// The command has failed and its failure is passed over.
    Ignored,
    /// The command is run again, after `delay` seconds.
    Retry { delay: u32 },
    /// The command has failed for good.
    Failed,
}

/// The shell that runs a command line, and the switch before the command
/// line.
pub fn shell_invocation(windows: bool) -> (r: (&'static str, &'static str))
    ensures
        windows ==> r.0@ == "cmd.exe"@ && r.1@ == "/C"@,
        !windows ==> r.0@ == "sh"@ && r.1@ == "-c"@,
{
    if windows {
        ("cmd.exe", "/C")
    } else {
        ("sh", "-c")
    }
}

/// Whether `code` counts as success for the command: it is one of the
/// command's success codes, or `0` when the command names none.
pub open spec fn is_success_code(command: &CommandConfig, code: i32) -> bool {
    match command.success_codes {
        Some(codes) => codes@.contains(code),
        None => code == 0,
    }
}

/// The verdict on the run number `attempt` of a command, counted from 1.
/// A run succeeds with a success code. Any other exit code is passed over
/// when the command ignores errors. Every other run has failed, and the
/// command is run again as long as fewer runs have failed than the command
/// has retries.
pub open spec fn spec_judge(command: &CommandConfig, exit: Exit, attempt: u32) -> Verdict {
    let retries: u32 = match command.retries {
        Some(n) => n,
        None => 0u32,
    };
    let delay: u32 = match command.retry_delay {
        Some(n) => n,
        None => 0u32,
    };
    if exit matches Exit::Code(code) && is_success_code(command, code) {
        Verdict::Succeeded
    } else if exit is Code && command.ignore_errors {
        Verdict::Ignored
    } else if attempt <= retries {
        Verdict::Retry { delay }
    } else {
        Verdict::Failed
    }
}

/// Whether `code` counts as success for the command.
pub fn success_code(command: &CommandConfig, code: i32) -> (r: bool)
    ensures
        r == is_success_code(command, code),
{
    match &command.success_codes {
        None => code == 0,
        Some(codes) => {
            let mut i: usize = 0;
            while i < codes.len()
                invariant
                    i <= codes.len(),
                    command.success_codes == Some(*codes),
                    forall|j: int| 0 <= j < i ==> codes@[j] != code,
                decreases codes.len() - i,
            {
                if codes[i] == code {
                    assert(codes@[i as int] == code);
                    return true;
                }
                i += 1;
            }
            false
        },
    }
}

/// Judges the run number `attempt` of a command, counted from 1.
pub fn judge(command: &CommandConfig, exit: Exit, attempt: u32) -> (r: Verdict)
    ensures
        r == spec_judge(command, exit, attempt),
{
    let retries: u32 = match command.retries {
        Some(n) => n,
        None => 0,
    };
    let delay: u32 = match command.retry_delay {
        Some(n) => n,
        None => 0,
    };
    match exit {
        Exit::Code(code) => {
            if success_code(command, code) {
                return Verdict::Succeeded;
            }
            if command.ignore_errors {
                return Verdict::Ignored;
            }
        },
        _ => {},
    }
    if attempt <= retries {
        Verdict::Retry { delay }
    } else {
        Verdict::Failed
    }
}

/// A command is run at most once more than it has retries: on the run
/// after the last retry the verdict is final.
pub proof fn lemma_retries_end(command: &CommandConfig, exit: Exit, attempt: u32)
    requires
        match command.retries {
            Some(n) => attempt > n,
            None => attempt > 0,
        },
    ensures
        !(spec_judge(command, exit, attempt) is Retry),
{
}

} // verus!
