//! Rogue Creator: a roguelike engine whose games are described by JSON files
//! and script snippets.  This crate holds the engine's logic: tiles, levels and
//! their instances, the runtime state, the text rendering model, the decoding of
//! script arguments for the engine packages and the reading of the game's JSON
//! configuration.  Terminal drawing, file access and the running of scripts are
//! done around it.

pub mod strutil;
pub mod strmap;
pub mod textitem;
pub mod tile;
pub mod textrender;
pub mod snippet;
pub mod json;
pub mod entity;
pub mod level;
pub mod error;
pub mod layout;
pub mod global;
pub mod state;
pub mod packages;
pub mod script;

use vstd::prelude::*;

verus! {

/// A position on the screen or on a level map: `(x, y)`, with `(0, 0)` at the
/// top left.
pub type Coord = (usize, usize);

/// Commands that scripts send to the main loop.
#[derive(Debug, Clone, Copy, PartialEq, Eq, Structural)]
pub enum MainCommand {
    EndGame,
    Terminate,
    Wait(u64),
}

} // verus!
