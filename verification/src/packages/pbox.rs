//! The `pbox` package: the print box.

use vstd::prelude::*;
use crate::strutil::str_equal;
use crate::textrender::printbox::PrintCommand;
use super::{ScriptVal, CallError, to_text_item, text_item_safe, text_item_decodes, text_item_of};

verus! {

/// Calls function `name` of the package with `args`: `print` adds a text
/// item to the print box, `next` shows the next entry, `clear` empties it.
pub fn pbox_call(name: &str, args: &[ScriptVal]) -> (r: Result<PrintCommand, CallError>)
    requires
        name@ == "print"@ && args@.len() == 1 ==> text_item_safe(args@[0]),
    ensures
        name@ == "print"@ ==> {
            &&& args@.len() != 1 ==> r == Err::<PrintCommand, CallError>(
                CallError::WrongNumberOfArguments,
            )
            &&& args@.len() == 1 ==> {
                &&& r is Ok <==> text_item_decodes(args@[0])
                &&& r matches Ok(c) ==> c matches PrintCommand::NewText(t) && text_item_of(t, args@[0])
                &&& r matches Err(e) ==> e == CallError::TypeError
            }
        },
        name@ == "next"@ ==> r == if args@.len() != 0 {
            Err::<PrintCommand, CallError>(CallError::WrongNumberOfArguments)
        } else {
            Ok(PrintCommand::Next)
        },
        name@ == "clear"@ ==> r == if args@.len() != 0 {
            Err::<PrintCommand, CallError>(CallError::WrongNumberOfArguments)
        } else {
            Ok(PrintCommand::Clear)
        },
        name@ != "print"@ && name@ != "next"@ && name@ != "clear"@ ==> r == Err::<
            PrintCommand,
            CallError,
        >(CallError::FunctionNotFound),
{
    proof {
        reveal_strlit("print");
        reveal_strlit("next");
        reveal_strlit("clear");
        assert("print"@.len() != "next"@.len());
        assert("print"@[0] != "clear"@[0]);
        assert("next"@.len() != "clear"@.len());
    }
    if str_equal(name, "print") {
        if args.len() != 1 {
            return Err(CallError::WrongNumberOfArguments);
        }
        let text = to_text_item(&args[0])?;
        Ok(PrintCommand::NewText(text))
    } else if str_equal(name, "next") {
        if args.len() != 0 {
            return Err(CallError::WrongNumberOfArguments);
        }
        Ok(PrintCommand::Next)
    } else if str_equal(name, "clear") {
        if args.len() != 0 {
            return Err(CallError::WrongNumberOfArguments);
        }
        Ok(PrintCommand::Clear)
    } else {
        Err(CallError::FunctionNotFound)
    }
}

} // verus!
