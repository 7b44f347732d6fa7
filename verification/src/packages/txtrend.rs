//! The `txtrend` package: what a layout's render script places on the
//! screen.

use vstd::prelude::*;
use crate::Coord;
use crate::strutil::str_equal;
use crate::textrender::RenderCommand;
use crate::textrender::textbox::TextBox;
use super::{
    ScriptVal, CallError, to_coord, coord_of, to_text_item, text_item_safe, text_item_decodes,
    item_text_ok,
};

verus! {

/// The two screen coordinates of a call with exactly two arguments.
pub open spec fn coord_args(args: Seq<ScriptVal>) -> Result<(Coord, Coord), CallError> {
    if args.len() != 2 {
        Err(CallError::WrongNumberOfArguments)
    } else {
        match (coord_of(args[0]), coord_of(args[1])) {
            (Some(tl), Some(br)) => Ok((tl, br)),
            _ => Err(CallError::TypeError),
        }
    }
}

/// Reads two coordinate arguments.
fn two_coords(args: &[ScriptVal]) -> (r: Result<(Coord, Coord), CallError>)
    ensures
        r == coord_args(args@),
{
    if args.len() != 2 {
        return Err(CallError::WrongNumberOfArguments);
    }
    let tl = to_coord(&args[0])?;
    let br = to_coord(&args[1])?;
    Ok((tl, br))
}

/// Calls function `name` of the package with `args`: `place_print` and
/// `place_map` place the print box and the level map between two screen
/// coordinates, `place_text` places a text between two.
pub fn txtrend_call(name: &str, args: &[ScriptVal]) -> (r: Result<RenderCommand, CallError>)
    requires
        name@ == "place_text"@ && args@.len() == 3 ==> text_item_safe(args@[0]),
    ensures
        name@ == "place_print"@ ==> r == match coord_args(args@) {
            Ok((tl, br)) => Ok(RenderCommand::PrintBox(tl, br)),
            Err(e) => Err(e),
        },
        name@ == "place_map"@ ==> r == match coord_args(args@) {
            Ok((tl, br)) => Ok(RenderCommand::TextMap(tl, br)),
            Err(e) => Err(e),
        },
        name@ == "place_text"@ ==> {
            &&& args@.len() != 3 ==> r == Err::<RenderCommand, CallError>(
                CallError::WrongNumberOfArguments,
            )
            &&& args@.len() == 3 ==> {
                &&& r is Ok <==> (text_item_decodes(args@[0]) && coord_of(args@[1]) is Some
                    && coord_of(args@[2]) is Some)
                &&& r matches Ok(c) ==> c matches RenderCommand::Renderable(b, tl, br)
                    && item_text_ok(b.text(), args@[0]) && Some(tl) == coord_of(args@[1])
                    && Some(br) == coord_of(args@[2])
                &&& r matches Err(e) ==> e == CallError::TypeError
            }
        },
        name@ != "place_print"@ && name@ != "place_map"@ && name@ != "place_text"@ ==> r == Err::<
            RenderCommand,
            CallError,
        >(CallError::FunctionNotFound),
{
    proof {
        reveal_strlit("place_print");
        reveal_strlit("place_map");
        reveal_strlit("place_text");
        assert("place_print"@[6] != "place_map"@[6]);
        assert("place_print"@[6] != "place_text"@[6]);
        assert("place_map"@[6] != "place_text"@[6]);
    }
    if str_equal(name, "place_print") {
        let (tl, br) = two_coords(args)?;
        Ok(RenderCommand::PrintBox(tl, br))
    } else if str_equal(name, "place_map") {
        let (tl, br) = two_coords(args)?;
        Ok(RenderCommand::TextMap(tl, br))
    } else if str_equal(name, "place_text") {
        if args.len() != 3 {
            return Err(CallError::WrongNumberOfArguments);
        }
        let text = to_text_item(&args[0])?;
        let tl = to_coord(&args[1])?;
        let br = to_coord(&args[2])?;
        Ok(RenderCommand::Renderable(TextBox::new(text.text), tl, br))
    } else {
        Err(CallError::FunctionNotFound)
    }
}

} // verus!
