//! The `glob` package: the global object, the layout and the last key.

use vstd::prelude::*;
use crate::strutil::str_equal;
use super::{ScriptVal, CallError, str_arg};

verus! {

/// A call of the package, as read from its arguments.
#[derive(Debug)]
pub enum GlobCall {
    /// Gives the global object.
    Obj,
    /// Makes the named layout the active one.
    SetLayout(String),
    /// Gives the last key pressed, as text.
    LastKey,
}

/// What a call of function `name` of the package with `args` asks for.
pub open spec fn glob_result(name: Seq<char>, args: Seq<ScriptVal>) -> Result<GlobCall, CallError> {
    if name == "obj"@ {
        if args.len() != 0 {
            Err(CallError::WrongNumberOfArguments)
        } else {
            Ok(GlobCall::Obj)
        }
    } else if name == "set_layout"@ {
        if args.len() != 1 {
            Err(CallError::WrongNumberOfArguments)
        } else {
            match args[0] {
                ScriptVal::Str(s) => Ok(GlobCall::SetLayout(s)),
                _ => Err(CallError::TypeError),
            }
        }
    } else if name == "last_key"@ {
        if args.len() != 0 {
            Err(CallError::WrongNumberOfArguments)
        } else {
            Ok(GlobCall::LastKey)
        }
    } else {
        Err(CallError::FunctionNotFound)
    }
}

/// Reads a call of function `name` of the package with `args`.
pub fn glob_call(name: &str, args: &[ScriptVal]) -> (r: Result<GlobCall, CallError>)
    ensures
        r == glob_result(name@, args@),
{
    if str_equal(name, "obj") {
        if args.len() != 0 {
            return Err(CallError::WrongNumberOfArguments);
        }
        Ok(GlobCall::Obj)
    } else if str_equal(name, "set_layout") {
        if args.len() != 1 {
            return Err(CallError::WrongNumberOfArguments);
        }
        let s = str_arg(&args[0])?;
        Ok(GlobCall::SetLayout(s.clone()))
    } else if str_equal(name, "last_key") {
        if args.len() != 0 {
            return Err(CallError::WrongNumberOfArguments);
        }
        Ok(GlobCall::LastKey)
    } else {
        Err(CallError::FunctionNotFound)
    }
}

} // verus!
