//! The `control` package: the flow of the game.

use vstd::prelude::*;
use crate::MainCommand;
use crate::strutil::str_equal;
use super::{ScriptVal, CallError, int_of, int_arg};

verus! {

/// What a call of function `name` of the package with `args` asks of the
/// main loop: to run the end script, to close the engine, or to wait a
/// number of milliseconds (an integer read as a `u64`).
pub open spec fn control_result(name: Seq<char>, args: Seq<ScriptVal>) -> Result<MainCommand, CallError> {
    if name == "end_game"@ {
        if args.len() != 0 {
            Err(CallError::WrongNumberOfArguments)
        } else {
            Ok(MainCommand::EndGame)
        }
    } else if name == "terminate_game"@ {
        if args.len() != 0 {
            Err(CallError::WrongNumberOfArguments)
        } else {
            Ok(MainCommand::Terminate)
        }
    } else if name == "wait"@ {
        if args.len() != 1 {
            Err(CallError::WrongNumberOfArguments)
        } else {
            match int_of(args[0]) {
                Some(i) => Ok(MainCommand::Wait(i as u64)),
                None => Err(CallError::TypeError),
            }
        }
    } else {
        Err(CallError::FunctionNotFound)
    }
}

/// Calls function `name` of the package with `args`.
pub fn control_call(name: &str, args: &[ScriptVal]) -> (r: Result<MainCommand, CallError>)
    ensures
        r == control_result(name@, args@),
{
    if str_equal(name, "end_game") {
        if args.len() != 0 {
            return Err(CallError::WrongNumberOfArguments);
        }
        Ok(MainCommand::EndGame)
    } else if str_equal(name, "terminate_game") {
        if args.len() != 0 {
            return Err(CallError::WrongNumberOfArguments);
        }
        Ok(MainCommand::Terminate)
    } else if str_equal(name, "wait") {
        if args.len() != 1 {
            return Err(CallError::WrongNumberOfArguments);
        }
        let wait_time = int_arg(&args[0])?;
        Ok(MainCommand::Wait(wait_time as u64))
    } else {
        Err(CallError::FunctionNotFound)
    }
}

} // verus!
