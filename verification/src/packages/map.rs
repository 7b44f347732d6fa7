//! The `map` package: what part of the level map is shown.

use vstd::prelude::*;
use crate::strutil::str_equal;
use crate::textrender::map::MapCommand;
use super::{ScriptVal, CallError, to_coord, coord_of};

verus! {

/// What a call of function `name` of the package with `args` asks of the
/// map: `display` shows the map from the given coordinate at the top left.
pub open spec fn map_result(name: Seq<char>, args: Seq<ScriptVal>) -> Result<MapCommand, CallError> {
    if name == "display"@ {
        if args.len() != 1 {
            Err(CallError::WrongNumberOfArguments)
        } else {
            match coord_of(args[0]) {
                Some(tl) => Ok(MapCommand::Display(tl)),
                None => Err(CallError::TypeError),
            }
        }
    } else {
        Err(CallError::FunctionNotFound)
    }
}

/// Calls function `name` of the package with `args`.
pub fn map_call(name: &str, args: &[ScriptVal]) -> (r: Result<MapCommand, CallError>)
    ensures
        r == map_result(name@, args@),
{
    if str_equal(name, "display") {
        if args.len() != 1 {
            return Err(CallError::WrongNumberOfArguments);
        }
        let tl = to_coord(&args[0])?;
        Ok(MapCommand::Display(tl))
    } else {
        Err(CallError::FunctionNotFound)
    }
}

} // verus!
