//! Texture factory model: the two logical indicator colors, their fixed
//! RGB mapping, and a solid square texture held as plain pixels, so that
//! what a backend texture must contain is stated and checked here.

use vstd::prelude::*;

verus! {

/// The only two logical colors the system ever renders as a solid square.
#[derive(Clone, Copy, PartialEq, Eq, Structural, Debug)]
pub enum TextureColor {
    Green,
    Blue,
}

/// An RGB color value.
#[derive(Clone, Copy, PartialEq, Eq, Structural, Debug)]
pub struct Rgb {
    pub r: u8,
    pub g: u8,
    pub b: u8,
}

/// The RGB value a logical color maps to: pure green or pure blue.
pub open spec fn rgb_of(color: TextureColor) -> Rgb {
    match color {
        TextureColor::Green => Rgb { r: 0, g: 255, b: 0 },
        TextureColor::Blue => Rgb { r: 0, g: 0, b: 255 },
    }
}

/// Maps a logical color to its RGB value through an exhaustive match.
pub fn texture_color_rgb(color: TextureColor) -> (c: Rgb)
    ensures
        c == rgb_of(color),
{
    match color {
        TextureColor::Green => Rgb { r: 0, g: 255, b: 0 },
        TextureColor::Blue => Rgb { r: 0, g: 0, b: 255 },
    }
}

/// A solid square texture: a side length and one pixel per cell, row-major.
pub struct SolidTexture {
    side: u32,
    pixels: Vec<Rgb>,
}

impl SolidTexture {
    /// The texture's side length in pixels.
    pub closed spec fn spec_side(&self) -> u32 {
        self.side
    }

    /// The pixels, row-major.
    pub closed spec fn spec_pixels(&self) -> Seq<Rgb> {
        self.pixels@
    }

    /// Well-formed: square, exactly side * side pixels.
    pub open spec fn wf(&self) -> bool {
        self.spec_pixels().len() == self.spec_side() * self.spec_side()
    }

    /// The side length.
    pub fn side(&self) -> (s: u32)
        ensures
            s == self.spec_side(),
    {
        self.side
    }

    /// The pixel at column `x`, row `y`: a readback for checking what the
    /// texture holds.
    pub fn pixel(&self, x: u32, y: u32) -> (p: Rgb)
        requires
            self.wf(),
            x < self.spec_side(),
            y < self.spec_side(),
        ensures
            p == self.spec_pixels()[y * self.spec_side() + x],
    {
        let n = self.pixels.len();
        proof {
            assert((y as int) * (self.side as int) + (x as int) < (self.side as int) * (
            self.side as int)) by (nonlinear_arith)
                requires
                    (x as int) < (self.side as int),
                    (y as int) < (self.side as int),
            ;
        }
        let idx = (y as usize) * (self.side as usize) + (x as usize);
        self.pixels[idx]
    }
}

/// Produces the solid square texture for the requested color: size × size
/// pixels, every one the color's mapped RGB value. The in-memory model
/// always succeeds; a rendering backend that cannot allocate a target of
/// this size fails on its own side, before any pixel is filled.
pub fn create_solid_texture(color: TextureColor, size: u32) -> (t: SolidTexture)
    requires
        1 <= size,
        size * size <= usize::MAX,
    ensures
        t.wf(),
        t.spec_side() == size,
        forall|k: int|
            0 <= k < t.spec_pixels().len() ==> t.spec_pixels()[k] == rgb_of(color),
{
    let rgb = texture_color_rgb(color);
    let total = (size as usize) * (size as usize);
    let mut pixels: Vec<Rgb> = Vec::new();
    let mut k: usize = 0;
    while k < total
        invariant
            k <= total,
            pixels@.len() == k,
            total == size * size,
            rgb == rgb_of(color),
            forall|m: int| 0 <= m < pixels@.len() ==> pixels@[m] == rgb_of(color),
        decreases total - k,
    {
        pixels.push(rgb);
        k = k + 1;
    }
    SolidTexture { side: size, pixels }
}

} // verus!
