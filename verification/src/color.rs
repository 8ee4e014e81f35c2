//! Colour samples and the two pixel models a bitmap can have.

use vstd::prelude::*;

verus! {

/// A colour by its red, green and blue channels.
#[derive(Clone, Copy, Debug, PartialEq, Eq, Structural, Hash)]
pub struct Rgb {
    pub r: u8,
    pub g: u8,
    pub b: u8,
}

/// A colour with an alpha channel.
#[derive(Clone, Copy, Debug, PartialEq, Eq, Structural, Hash)]
pub struct Rgba {
    pub r: u8,
    pub g: u8,
    pub b: u8,
    pub a: u8,
}

/// What a pixel stands for once its alpha, if it has one, is taken into account.
#[derive(Clone, Copy, Debug, PartialEq, Eq, Structural)]
pub enum Sample {
    /// Nothing is drawn: alpha is zero. The colour channels do not matter.
    Transparent,
    /// A solid colour.
    Opaque(Rgb),
    /// An alpha strictly between zero and full, which no palette can hold.
    Translucent(u8),
}

/// A pixel model: how a pixel of a bitmap is read, and where the palette of
/// such bitmaps starts handing out indices.
pub trait Pixel: Copy {
    /// What this pixel stands for.
    spec fn sample_spec(self) -> Sample;

    /// The first index that a palette of this model gives to a colour.
    spec fn first_index_spec() -> u8;

    fn sample(self) -> (s: Sample)
        ensures
            s == self.sample_spec(),
    ;

    fn first_index() -> (first: u8)
        ensures
            first == Self::first_index_spec(),
    ;

    /// Index zero is only ever given to a colour by a model that has no
    /// transparent pixels.
    proof fn transparent_keeps_index_zero(self)
        ensures
            Self::first_index_spec() <= 1,
            self.sample_spec() is Transparent ==> Self::first_index_spec() == 1,
    ;
}

impl Rgb {
    /// The default colour, black.
    pub open spec fn black() -> Rgb {
        Rgb { r: 0, g: 0, b: 0 }
    }
}

impl Rgba {
    /// The colour channels without the alpha.
    pub open spec fn rgb_spec(self) -> Rgb {
        Rgb { r: self.r, g: self.g, b: self.b }
    }

    /// The colour channels without the alpha.
    pub fn rgb(self) -> (c: Rgb)
        ensures
            c == self.rgb_spec(),
    {
        Rgb { r: self.r, g: self.g, b: self.b }
    }
}

impl Pixel for Rgb {
    open spec fn sample_spec(self) -> Sample {
        Sample::Opaque(self)
    }

    open spec fn first_index_spec() -> u8 {
        0
    }

    fn sample(self) -> (s: Sample) {
        Sample::Opaque(self)
    }

    fn first_index() -> (first: u8) {
        0
    }

    proof fn transparent_keeps_index_zero(self) {
    }
}

impl Pixel for Rgba {
    open spec fn sample_spec(self) -> Sample {
        if self.a == 0 {
            Sample::Transparent
        } else if self.a == 255 {
            Sample::Opaque(self.rgb_spec())
        } else {
            Sample::Translucent(self.a)
        }
    }

    open spec fn first_index_spec() -> u8 {
        1
    }

    fn sample(self) -> (s: Sample) {
        if self.a == 0 {
            Sample::Transparent
        } else if self.a == 255 {
            Sample::Opaque(self.rgb())
        } else {
            Sample::Translucent(self.a)
        }
    }

    fn first_index() -> (first: u8) {
        1
    }

    proof fn transparent_keeps_index_zero(self) {
    }
}

} // verus!
