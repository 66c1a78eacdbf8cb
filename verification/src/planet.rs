//! The kinds of surface that a planet of the scene can have.

use vstd::prelude::*;

verus! {

/// How the surface of a planet is shaded.
#[derive(Debug, Clone, Copy, PartialEq, Eq, Structural)]
pub enum PlanetShader {
    Rocky,
    Gaseous,
    Frozen,
    Earth,
    Oceanic,
    Ufo,
    Gargantua,
    Wormhole,
}

} // verus!
