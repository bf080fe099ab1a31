//! Exit codes.

use vstd::prelude::*;

use crate::action::SpawnFault;

verus! {

/// Exit code where the program itself fails.
pub const EXIT_INTERNAL_ERROR: i32 = 125;

/// Exit code where the command is there but cannot be executed.
pub const EXIT_CANNOT_EXECUTE: i32 = 126;

/// Exit code where the command cannot be found.
pub const EXIT_COMMAND_NOT_FOUND: i32 = 127;

/// The exit code that passes on how a command ended: its own code, or 128 plus
/// the number of the signal that ended it.
pub open spec fn ended_code(code: Option<i32>, signal: Option<i32>) -> int {
    match (code, signal) {
        (Some(own), _) => own as int,
        (None, Some(number)) => 128 + number,
        (None, None) => EXIT_CANNOT_EXECUTE as int,
    }
}

/// How a command can end. The numbers of signals begin at 1, and leave room for
/// the 128 that is added to them.
pub open spec fn is_end(code: Option<i32>, signal: Option<i32>) -> bool {
    code is None && signal is Some ==> 1 <= signal->0 <= i32::MAX - 128
}

/// How a command can end on Unix, where a code is one byte and a signal's number
/// has seven bits.
pub open spec fn is_unix_end(code: Option<i32>, signal: Option<i32>) -> bool {
    &&& code matches Some(own) ==> 0 <= own <= 255
    &&& signal matches Some(number) ==> 1 <= number <= 127
}

/// Maps how a command ended to the code to exit with, which is 0 just for a
/// command that succeeded.
pub fn exit_code_of(code: Option<i32>, signal: Option<i32>) -> (exit: i32)
    requires
        is_end(code, signal),
    ensures
        exit == ended_code(code, signal),
        code matches Some(own) ==> exit == own,
        code is None ==> (signal matches Some(number) ==> exit - 128 == number),
        code is None && signal is None ==> exit == 126,
        exit == 0 <==> code == Some(0i32),
        is_unix_end(code, signal) ==> 0 <= exit <= 255,
{
    if let Some(own) = code {
        return own;
    }
    if let Some(number) = signal {
        return 128 + number;
    }
    EXIT_CANNOT_EXECUTE
}

/// The exit code for a command that could not be started.
pub open spec fn fault_code(fault: SpawnFault) -> i32 {
    match fault {
        SpawnFault::NotFound => EXIT_COMMAND_NOT_FOUND,
        SpawnFault::PermissionDenied | SpawnFault::Other => EXIT_CANNOT_EXECUTE,
    }
}

/// Maps why a command could not be started to the code to exit with.
pub fn exit_code_of_fault(fault: SpawnFault) -> (exit: i32)
    ensures
        exit == fault_code(fault),
        exit == 127 <==> fault is NotFound,
        exit == 126 <==> !(fault is NotFound),
{
    match fault {
        SpawnFault::NotFound => EXIT_COMMAND_NOT_FOUND,
        SpawnFault::PermissionDenied => EXIT_CANNOT_EXECUTE,
        SpawnFault::Other => EXIT_CANNOT_EXECUTE,
    }
}

/// How a command ended can be told from the exit code: its own code is passed on
/// as it is, and a signal lies 128 above its number, whichever signal it is. A
/// command that could not be found gives 127, and one that did not run or end in
/// any other way 126.
pub proof fn exit_code_tells_the_end(code: Option<i32>, signal: Option<i32>, fault: SpawnFault)
    requires
        is_end(code, signal),
    ensures
        code matches Some(own) ==> ended_code(code, signal) == own,
        code is None ==> (signal matches Some(number) ==> ended_code(code, signal) - 128 == number),
        code is None && signal is None ==> ended_code(code, signal) == 126,
        fault_code(fault) == if fault is NotFound {
            127i32
        } else {
            126i32
        },
{
}

/// Every code and every signal that there can be counts as an end: any code at
/// all, and any signal from 1 to the last number that leaves room for the 128.
pub proof fn every_end_is_one(code: Option<i32>, signal: Option<i32>)
    ensures
        code is Some ==> is_end(code, signal),
        signal is None ==> is_end(code, signal),
        code is None ==> (signal matches Some(number) ==> (is_end(code, signal) <==> 1 <= number
            && number + 128 <= i32::MAX)),
{
}

} // verus!
