//! The `level` package: level instances.

use vstd::prelude::*;
use crate::Coord;
use crate::strutil::str_equal;
use super::{ScriptVal, CallError, to_coord, coord_of, int_of, int_arg, str_arg};

verus! {

/// A call of the package, as read from its arguments.
#[derive(Debug)]
pub enum LevelCall {
    /// Creates an instance of the named level kind.
    Create(String),
    /// Deletes a level instance.
    Delete(i64),
    /// Makes a level instance the active one.
    Load(i64),
    /// Copies a level instance.
    Clone(i64),
    /// Gives the active level's data.
    Data,
    /// Gives the entity at a coordinate of the active level.
    InstanceAt(Coord),
    /// Gives the coordinate of an entity on the active level.
    LocationOf(i64),
}

/// The argument of a call with exactly one integer argument.
pub open spec fn one_int(args: Seq<ScriptVal>) -> Result<i64, CallError> {
    if args.len() != 1 {
        Err(CallError::WrongNumberOfArguments)
    } else {
        match int_of(args[0]) {
            Some(i) => Ok(i),
            None => Err(CallError::TypeError),
        }
    }
}

/// Reads the one integer argument of a call.
pub fn one_int_arg(args: &[ScriptVal]) -> (r: Result<i64, CallError>)
    ensures
        r == one_int(args@),
{
    if args.len() != 1 {
        return Err(CallError::WrongNumberOfArguments);
    }
    int_arg(&args[0])
}

/// The argument of a call with exactly one string argument.
pub open spec fn one_str(args: Seq<ScriptVal>) -> Result<String, CallError> {
    if args.len() != 1 {
        Err(CallError::WrongNumberOfArguments)
    } else {
        match args[0] {
            ScriptVal::Str(s) => Ok(s),
            _ => Err(CallError::TypeError),
        }
    }
}

/// Reads the one string argument of a call.
pub fn one_str_arg(args: &[ScriptVal]) -> (r: Result<String, CallError>)
    ensures
        r == one_str(args@),
{
    if args.len() != 1 {
        return Err(CallError::WrongNumberOfArguments);
    }
    let s = str_arg(&args[0])?;
    Ok(s.clone())
}

/// What a call of function `name` of the package with `args` asks for.
pub open spec fn level_result(name: Seq<char>, args: Seq<ScriptVal>) -> Result<LevelCall, CallError> {
    if name == "create"@ {
        match one_str(args) {
            Ok(s) => Ok(LevelCall::Create(s)),
            Err(e) => Err(e),
        }
    } else if name == "delete"@ {
        match one_int(args) {
            Ok(i) => Ok(LevelCall::Delete(i)),
            Err(e) => Err(e),
        }
    } else if name == "load"@ {
        match one_int(args) {
            Ok(i) => Ok(LevelCall::Load(i)),
            Err(e) => Err(e),
        }
    } else if name == "clone"@ {
        match one_int(args) {
            Ok(i) => Ok(LevelCall::Clone(i)),
            Err(e) => Err(e),
        }
    } else if name == "data"@ {
        if args.len() != 0 {
            Err(CallError::WrongNumberOfArguments)
        } else {
            Ok(LevelCall::Data)
        }
    } else if name == "instance_at"@ {
        if args.len() != 1 {
            Err(CallError::WrongNumberOfArguments)
        } else {
            match coord_of(args[0]) {
                Some(c) => Ok(LevelCall::InstanceAt(c)),
                None => Err(CallError::TypeError),
            }
        }
    } else if name == "location_of"@ {
        match one_int(args) {
            Ok(i) => Ok(LevelCall::LocationOf(i)),
            Err(e) => Err(e),
        }
    } else {
        Err(CallError::FunctionNotFound)
    }
}

/// Reads a call of function `name` of the package with `args`.
pub fn level_call(name: &str, args: &[ScriptVal]) -> (r: Result<LevelCall, CallError>)
    ensures
        r == level_result(name@, args@),
{
    if str_equal(name, "create") {
        Ok(LevelCall::Create(one_str_arg(args)?))
    } else if str_equal(name, "delete") {
        Ok(LevelCall::Delete(one_int_arg(args)?))
    } else if str_equal(name, "load") {
        Ok(LevelCall::Load(one_int_arg(args)?))
    } else if str_equal(name, "clone") {
        Ok(LevelCall::Clone(one_int_arg(args)?))
    } else if str_equal(name, "data") {
        if args.len() != 0 {
            return Err(CallError::WrongNumberOfArguments);
        }
        Ok(LevelCall::Data)
    } else if str_equal(name, "instance_at") {
        if args.len() != 1 {
            return Err(CallError::WrongNumberOfArguments);
        }
        Ok(LevelCall::InstanceAt(to_coord(&args[0])?))
    } else if str_equal(name, "location_of") {
        Ok(LevelCall::LocationOf(one_int_arg(args)?))
    } else {
        Err(CallError::FunctionNotFound)
    }
}

} // verus!
