use vstd::prelude::*;

verus! {

/// One colour of the screen, as 8-bit red, green and blue channels.
#[derive(Debug, Clone, Copy, PartialEq, Eq, Structural)]
pub struct Pixel {
    pub r: u8,
    pub g: u8,
    pub b: u8,
}

impl Pixel {
    /// The colour with the given channels.
    pub fn new(r: u8, g: u8, b: u8) -> (p: Self)
        ensures
            p == (Pixel { r, g, b }),
    {
        Pixel { r, g, b }
    }

    /// The colour that a blank screen shows.
    pub open spec fn spec_black() -> Pixel {
        Pixel { r: 1, g: 1, b: 1 }
    }

    /// Near-black: every channel is 1, so that terminals that draw pure black
    /// as transparent still paint the cell.
    pub fn black() -> (p: Self)
        ensures
            p == Self::spec_black(),
    {
        Pixel { r: 1, g: 1, b: 1 }
    }

    /// Full white.
    pub fn white() -> (p: Self)
        ensures
            p == (Pixel { r: 255, g: 255, b: 255 }),
    {
        Pixel { r: 255, g: 255, b: 255 }
    }
}

} // verus!
