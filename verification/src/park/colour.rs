//! A flat colour, as the placeholder art draws it.

use vstd::prelude::*;

verus! {

/// A colour, one byte per channel.
#[derive(Debug, Clone, Copy, PartialEq, Eq, Hash, Structural)]
pub struct Colour {
    /// Red.
    pub r: u8,
    /// Green.
    pub g: u8,
    /// Blue.
    pub b: u8,
}

impl Colour {
    /// A colour from its three channels.
    pub fn rgb(r: u8, g: u8, b: u8) -> (c: Self)
        ensures
            c.r == r,
            c.g == g,
            c.b == b,
    {
        Colour { r, g, b }
    }
}

} // verus!
