//! The engine's own errors.

use vstd::prelude::*;
use vstd::string::*;

verus! {

/// What went wrong inside the engine while it ran a script's request.
#[derive(Debug, Clone, Copy, PartialEq, Eq, Structural)]
pub enum RunCode {
    EntityClassNotFound,
    LevelClassNotFound,
}

/// An engine error.
#[derive(Debug, Clone, Copy, PartialEq, Eq, Structural)]
pub enum EngErr {
    RunTime(RunCode),
}

impl EngErr {
    /// How the error reads to a player: the kind of error and its code.
    pub fn message(&self) -> (r: String)
        ensures
            r@ == "Internal runtime error: "@ + match *self {
                EngErr::RunTime(RunCode::EntityClassNotFound) => "EntityClassNotFound"@,
                EngErr::RunTime(RunCode::LevelClassNotFound) => "LevelClassNotFound"@,
            },
    {
        let head = String::from_str("Internal runtime error: ");
        match self {
            EngErr::RunTime(RunCode::EntityClassNotFound) => head.concat("EntityClassNotFound"),
            EngErr::RunTime(RunCode::LevelClassNotFound) => head.concat("LevelClassNotFound"),
        }
    }
}

} // verus!
