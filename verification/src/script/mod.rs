//! The pieces of the game's scripting language that stand apart from its
//! grammar: how package references are resolved, the scopes of variables, and
//! the reading of identifiers and integer literals.

pub mod resolver;
pub mod scope;
pub mod ident;

use vstd::prelude::*;

verus! {

/// A node of a script's syntax tree, which can describe itself.
pub trait AstNode {
    /// A description of the node.
    fn print(&self) -> String;
}

} // verus!
