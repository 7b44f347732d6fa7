//! The `makemap` package: drawing the active level's map and placing
//! entities on it.

use vstd::prelude::*;
use crate::Coord;
use crate::strutil::str_equal;
use super::{ScriptVal, CallError, to_coord, coord_of, int_of, int_arg, str_arg};

verus! {

/// A call of the package, as read from its arguments.
#[derive(Debug)]
pub enum MakemapCall {
    /// Fills the tiles named by the string from the first coordinate up to,
    /// not including, the second.
    FillTile(String, Coord, Coord),
    /// Draws a line of the tiles named by the string between two
    /// coordinates.
    DrawLine(String, Coord, Coord),
    /// Places an entity at a coordinate.
    Spawn(i64, Coord),
    /// Takes an entity off the map.
    Despawn(i64),
}

/// The end of the area that `fill_tile` fills when given one coordinate:
/// one past it in each direction, so that the tile at it is filled.
pub open spec fn one_past(c: Coord) -> Coord {
    (c.0.saturating_add(1), c.1.saturating_add(1))
}

/// What a call of function `name` of the package with `args` asks for.
/// `fill_tile` with a single coordinate fills the tile at it.
pub open spec fn makemap_result(name: Seq<char>, args: Seq<ScriptVal>) -> Result<MakemapCall, CallError> {
    if name == "fill_tile"@ {
        if args.len() != 2 && args.len() != 3 {
            Err(CallError::WrongNumberOfArguments)
        } else {
            match (args[0], coord_of(args[1])) {
                (ScriptVal::Str(s), Some(tl)) => if args.len() == 3 {
                    match coord_of(args[2]) {
                        Some(br) => Ok(MakemapCall::FillTile(s, tl, br)),
                        None => Err(CallError::TypeError),
                    }
                } else {
                    Ok(MakemapCall::FillTile(s, tl, one_past(tl)))
                },
                _ => Err(CallError::TypeError),
            }
        }
    } else if name == "draw_line"@ {
        if args.len() != 3 {
            Err(CallError::WrongNumberOfArguments)
        } else {
            match (args[0], coord_of(args[1]), coord_of(args[2])) {
                (ScriptVal::Str(s), Some(a), Some(b)) => Ok(MakemapCall::DrawLine(s, a, b)),
                _ => Err(CallError::TypeError),
            }
        }
    } else if name == "spawn"@ {
        if args.len() != 2 {
            Err(CallError::WrongNumberOfArguments)
        } else {
            match (int_of(args[0]), coord_of(args[1])) {
                (Some(id), Some(loc)) => Ok(MakemapCall::Spawn(id, loc)),
                _ => Err(CallError::TypeError),
            }
        }
    } else if name == "despawn"@ {
        if args.len() != 1 {
            Err(CallError::WrongNumberOfArguments)
        } else {
            match int_of(args[0]) {
                Some(id) => Ok(MakemapCall::Despawn(id)),
                None => Err(CallError::TypeError),
            }
        }
    } else {
        Err(CallError::FunctionNotFound)
    }
}

/// Reads a call of function `name` of the package with `args`.
pub fn makemap_call(name: &str, args: &[ScriptVal]) -> (r: Result<MakemapCall, CallError>)
    ensures
        r == makemap_result(name@, args@),
{
    if str_equal(name, "fill_tile") {
        if args.len() != 2 && args.len() != 3 {
            return Err(CallError::WrongNumberOfArguments);
        }
        let tile_name = str_arg(&args[0])?;
        let tl = to_coord(&args[1])?;
        let br = if args.len() == 3 {
            to_coord(&args[2])?
        } else {
            (tl.0.saturating_add(1), tl.1.saturating_add(1))
        };
        Ok(MakemapCall::FillTile(tile_name.clone(), tl, br))
    } else if str_equal(name, "draw_line") {
        if args.len() != 3 {
            return Err(CallError::WrongNumberOfArguments);
        }
        let tile_name = str_arg(&args[0])?;
        let s = to_coord(&args[1])?;
        let e = to_coord(&args[2])?;
        Ok(MakemapCall::DrawLine(tile_name.clone(), s, e))
    } else if str_equal(name, "spawn") {
        if args.len() != 2 {
            return Err(CallError::WrongNumberOfArguments);
        }
        let id = int_arg(&args[0])?;
        let loc = to_coord(&args[1])?;
        Ok(MakemapCall::Spawn(id, loc))
    } else if str_equal(name, "despawn") {
        if args.len() != 1 {
            return Err(CallError::WrongNumberOfArguments);
        }
        let id = int_arg(&args[0])?;
        Ok(MakemapCall::Despawn(id))
    } else {
        Err(CallError::FunctionNotFound)
    }
}

} // verus!
