//! Plain types shared across the library.

use vstd::prelude::*;

verus! {

/// Options accepted when a structure file is read.
pub struct ParserOptions {}

/// The secondary-structure label of one residue.
#[derive(Debug, Clone, Copy, PartialEq, Eq, Structural)]
pub enum SecondaryStructure {
    Helix,
    Sheet,
    Coil,
    Turn,
    Unknown,
}

/// How a shape responds to the pointer.
#[derive(Debug, Clone, Copy, Default, PartialEq, Eq, Structural)]
pub struct Interaction {
    pub clickable: bool,
    pub hoverable: bool,
    pub context_menu_enabled: bool,
}

/// The kinds of shape drawn as instances.
#[derive(Debug, Clone, Copy, Hash, PartialEq, Eq, Structural)]
pub enum ShapeKind {
    Sphere,
    Stick,
}

} // verus!
