//! The `entity` package: entity instances.

use vstd::prelude::*;
use crate::strutil::str_equal;
use super::{ScriptVal, CallError};
use super::level::{one_int, one_int_arg, one_str, one_str_arg};

verus! {

/// A call of the package, as read from its arguments.
#[derive(Debug)]
pub enum EntityCall {
    /// Creates a global instance of the named entity kind.
    CreateGlobal(String),
    /// Creates an instance of the named entity kind on the active level.
    Create(String),
    /// Deletes an entity.
    Delete(i64),
    /// Gives an entity's data.
    Data(i64),
    /// Gives the data of the entity whose script runs.
    This,
    /// Runs the entities' actions.
    RunActions,
}

/// What a call of function `name` of the package with `args` asks for.
pub open spec fn entity_result(name: Seq<char>, args: Seq<ScriptVal>) -> Result<EntityCall, CallError> {
    if name == "create_global"@ {
        match one_str(args) {
            Ok(s) => Ok(EntityCall::CreateGlobal(s)),
            Err(e) => Err(e),
        }
    } else if name == "create"@ {
        match one_str(args) {
            Ok(s) => Ok(EntityCall::Create(s)),
            Err(e) => Err(e),
        }
    } else if name == "delete"@ {
        match one_int(args) {
            Ok(i) => Ok(EntityCall::Delete(i)),
            Err(e) => Err(e),
        }
    } else if name == "data"@ {
        match one_int(args) {
            Ok(i) => Ok(EntityCall::Data(i)),
            Err(e) => Err(e),
        }
    } else if name == "this"@ {
        if args.len() != 0 {
            Err(CallError::WrongNumberOfArguments)
        } else {
            Ok(EntityCall::This)
        }
    } else if name == "run_actions"@ {
        if args.len() != 0 {
            Err(CallError::WrongNumberOfArguments)
        } else {
            Ok(EntityCall::RunActions)
        }
    } else {
        Err(CallError::FunctionNotFound)
    }
}

/// Reads a call of function `name` of the package with `args`.
pub fn entity_call(name: &str, args: &[ScriptVal]) -> (r: Result<EntityCall, CallError>)
    ensures
        r == entity_result(name@, args@),
{
    if str_equal(name, "create_global") {
        Ok(EntityCall::CreateGlobal(one_str_arg(args)?))
    } else if str_equal(name, "create") {
        Ok(EntityCall::Create(one_str_arg(args)?))
    } else if str_equal(name, "delete") {
        Ok(EntityCall::Delete(one_int_arg(args)?))
    } else if str_equal(name, "data") {
        Ok(EntityCall::Data(one_int_arg(args)?))
    } else if str_equal(name, "this") {
        if args.len() != 0 {
            return Err(CallError::WrongNumberOfArguments);
        }
        Ok(EntityCall::This)
    } else if str_equal(name, "run_actions") {
        if args.len() != 0 {
            return Err(CallError::WrongNumberOfArguments);
        }
        Ok(EntityCall::RunActions)
    } else {
        Err(CallError::FunctionNotFound)
    }
}

} // verus!
