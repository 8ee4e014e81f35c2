//! The palette: each distinct colour gets the next free index when it is
//! first seen.

use crate::color::{Pixel, Rgb, Sample};
use crate::error::CompileError;
use std::collections::HashMap;
use std::marker::PhantomData;
use vstd::prelude::*;
use vstd::std_specs::hash::group_hash_axioms;

verus! {

broadcast use group_hash_axioms;

/// How many colours a palette for pixels of model `P` can hold: indices run
/// from the model's first index up to 255.
pub open spec fn capacity<P: Pixel>() -> nat {
    (256 - P::first_index_spec()) as nat
}

/// What has to hold of the colours of a palette, listed in the order of
/// their indices: no colour is there twice, and every index fits in a byte.
pub open spec fn valid_colors<P: Pixel>(colors: Seq<Rgb>) -> bool {
    colors.no_duplicates() && colors.len() <= capacity::<P>()
}

/// The index of the colour at position `at` of a palette.
pub open spec fn index_at<P: Pixel>(at: int) -> u8 {
    (P::first_index_spec() + at) as u8
}

/// Looks up `color` in a palette and, if it is new, gives it the next free
/// index. The result is the palette afterwards and the index, or the
/// overflow when the colour is new and no index is left.
pub open spec fn resolve_color<P: Pixel>(colors: Seq<Rgb>, color: Rgb) -> (
    Seq<Rgb>,
    Result<u8, CompileError>,
) {
    if colors.contains(color) {
        (colors, Ok(index_at::<P>(colors.index_of(color))))
    } else if colors.len() < capacity::<P>() {
        (colors.push(color), Ok(index_at::<P>(colors.len() as int)))
    } else {
        (colors, Err(CompileError::PaletteOverflow { capacity: capacity::<P>() as usize }))
    }
}

/// Resolves one pixel against a palette: a transparent pixel is index zero
/// and leaves the palette alone, a translucent one is refused, and an
/// opaque one is looked up by its colour.
pub open spec fn resolve<P: Pixel>(colors: Seq<Rgb>, pixel: P) -> (
    Seq<Rgb>,
    Result<u8, CompileError>,
) {
    match pixel.sample_spec() {
        Sample::Transparent => (colors, Ok(0u8)),
        Sample::Translucent(alpha) => (colors, Err(CompileError::InvalidTransparency { alpha })),
        Sample::Opaque(color) => resolve_color::<P>(colors, color),
    }
}

/// Resolves pixels one after another against a palette that starts as
/// `colors`. The result is the palette afterwards and the index of every
/// pixel, or the first refusal; pixels after a refused one are not looked
/// at.
pub open spec fn resolve_all<P: Pixel>(colors: Seq<Rgb>, pixels: Seq<P>) -> (
    Seq<Rgb>,
    Result<Seq<u8>, CompileError>,
)
    decreases pixels.len(),
{
    if pixels.len() == 0 {
        (colors, Ok(Seq::<u8>::empty()))
    } else {
        let (before, indices) = resolve_all(colors, pixels.drop_last());
        match indices {
            Err(e) => (before, Err(e)),
            Ok(indices) => {
                let (after, index) = resolve(before, pixels.last());
                match index {
                    Ok(i) => (after, Ok(indices.push(i))),
                    Err(e) => (after, Err(e)),
                }
            },
        }
    }
}

/// Whether `index` is the index that `pixel` has in a palette of the given
/// colours.
pub open spec fn has_index<P: Pixel>(colors: Seq<Rgb>, pixel: P, index: u8) -> bool {
    match pixel.sample_spec() {
        Sample::Transparent => index == 0,
        Sample::Translucent(_) => false,
        Sample::Opaque(color) => colors.contains(color) && index == index_at::<P>(
            colors.index_of(color),
        ),
    }
}

/// Resolving a pixel keeps a palette valid and only ever adds to its end;
/// the pixel then has the index that was returned, and a refused pixel
/// changes nothing.
pub proof fn lemma_resolve<P: Pixel>(colors: Seq<Rgb>, pixel: P)
    requires
        valid_colors::<P>(colors),
    ensures
        valid_colors::<P>(resolve(colors, pixel).0),
        colors.is_prefix_of(resolve(colors, pixel).0),
        resolve(colors, pixel).1 matches Ok(index) ==> has_index(
            resolve(colors, pixel).0,
            pixel,
            index,
        ),
        resolve(colors, pixel).1 is Err ==> resolve(colors, pixel).0 == colors,
{
    if let Sample::Opaque(color) = pixel.sample_spec() {
        if !colors.contains(color) && colors.len() < capacity::<P>() {
            assert(colors.push(color)[colors.len() as int] == color);
        }
    }
}

/// A pixel keeps its index when the palette grows.
pub proof fn lemma_has_index_stays<P: Pixel>(
    colors: Seq<Rgb>,
    grown: Seq<Rgb>,
    pixel: P,
    index: u8,
)
    requires
        valid_colors::<P>(grown),
        colors.is_prefix_of(grown),
        has_index(colors, pixel, index),
    ensures
        has_index(grown, pixel, index),
{
}

/// In one palette two pixels have the same index exactly when they stand
/// for the same thing: both are transparent, or both have the same colour.
pub proof fn lemma_has_index_injective<P: Pixel>(
    colors: Seq<Rgb>,
    first: P,
    second: P,
    first_index: u8,
    second_index: u8,
)
    requires
        valid_colors::<P>(colors),
        has_index(colors, first, first_index),
        has_index(colors, second, second_index),
    ensures
        first_index == second_index <==> first.sample_spec() == second.sample_spec(),
{
    first.transparent_keeps_index_zero();
    second.transparent_keeps_index_zero();
}

/// Two pixels that stand for different things never get the same index
/// from one palette.
pub proof fn lemma_resolve_injective<P: Pixel>(colors: Seq<Rgb>, first: P, second: P)
    requires
        valid_colors::<P>(colors),
        first.sample_spec() != second.sample_spec(),
        resolve(colors, first).1 is Ok,
        resolve(resolve(colors, first).0, second).1 is Ok,
    ensures
        resolve(colors, first).1 != resolve(resolve(colors, first).0, second).1,
{
    let (mid, first_index) = resolve(colors, first);
    let (end, second_index) = resolve(mid, second);
    lemma_resolve(colors, first);
    lemma_resolve(mid, second);
    lemma_has_index_stays(mid, end, first, first_index->Ok_0);
    lemma_has_index_injective(end, first, second, first_index->Ok_0, second_index->Ok_0);
}

/// Resolving a pixel a second time gives the same index and changes
/// nothing, whatever was resolved in between without a refusal.
pub proof fn lemma_resolve_stable<P: Pixel>(colors: Seq<Rgb>, pixel: P, between: Seq<P>)
    requires
        valid_colors::<P>(colors),
        resolve(colors, pixel).1 is Ok,
        resolve_all(resolve(colors, pixel).0, between).1 is Ok,
    ensures
        ({
            let (mid, index) = resolve(colors, pixel);
            let end = resolve_all(mid, between).0;
            resolve(end, pixel) == (end, index)
        }),
{
    let (mid, index) = resolve(colors, pixel);
    let end = resolve_all(mid, between).0;
    lemma_resolve(colors, pixel);
    lemma_resolve_all(mid, between);
    lemma_has_index_stays(mid, end, pixel, index->Ok_0);
}

/// Resolving a run of pixels keeps a palette valid and only ever adds to
/// its end. Where no pixel is refused, there is one index for each pixel,
/// and it is the index that the pixel has in the palette at the end.
pub proof fn lemma_resolve_all<P: Pixel>(colors: Seq<Rgb>, pixels: Seq<P>)
    requires
        valid_colors::<P>(colors),
    ensures
        valid_colors::<P>(resolve_all(colors, pixels).0),
        colors.is_prefix_of(resolve_all(colors, pixels).0),
        resolve_all(colors, pixels).1 matches Ok(indices) ==> {
            &&& indices.len() == pixels.len()
            &&& forall|k: int|
                0 <= k < pixels.len() ==> has_index(
                    resolve_all(colors, pixels).0,
                    #[trigger] pixels[k],
                    indices[k],
                )
        },
    decreases pixels.len(),
{
    if pixels.len() > 0 {
        let (before, indices) = resolve_all(colors, pixels.drop_last());
        lemma_resolve_all(colors, pixels.drop_last());
        if let Ok(indices) = indices {
            let (after, index) = resolve(before, pixels.last());
            lemma_resolve(before, pixels.last());
            if let Ok(i) = index {
                assert forall|k: int| 0 <= k < pixels.len() implies has_index(
                    after,
                    #[trigger] pixels[k],
                    indices.push(i)[k],
                ) by {
                    if k < pixels.len() - 1 {
                        assert(pixels.drop_last()[k] == pixels[k]);
                        lemma_has_index_stays(before, after, pixels[k], indices[k]);
                    }
                }
            }
        }
    }
}

/// Among the indices that one palette gives to a run of pixels, two are
/// equal exactly when their pixels stand for the same thing.
pub proof fn lemma_indices_tell_apart<P: Pixel>(
    colors: Seq<Rgb>,
    pixels: Seq<P>,
    a: int,
    b: int,
)
    requires
        valid_colors::<P>(colors),
        resolve_all(colors, pixels).1 is Ok,
        0 <= a < pixels.len(),
        0 <= b < pixels.len(),
    ensures
        ({
            let indices = resolve_all(colors, pixels).1->Ok_0;
            indices[a] == indices[b] <==> pixels[a].sample_spec() == pixels[b].sample_spec()
        }),
{
    let (end, indices) = resolve_all(colors, pixels);
    lemma_resolve_all(colors, pixels);
    lemma_has_index_injective(end, pixels[a], pixels[b], indices->Ok_0[a], indices->Ok_0[b]);
}

/// A transparent pixel is index zero in every palette and takes no room
/// in it.
pub proof fn lemma_transparent_is_zero<P: Pixel>(colors: Seq<Rgb>, pixel: P)
    requires
        pixel.sample_spec() is Transparent,
    ensures
        resolve(colors, pixel) == (colors, Ok::<u8, CompileError>(0u8)),
{
}

/// Whether every pixel is opaque and no two of them have the same colour.
pub open spec fn distinct_opaque<P: Pixel>(pixels: Seq<P>) -> bool {
    &&& forall|k: int| 0 <= k < pixels.len() ==> (#[trigger] pixels[k]).sample_spec() is Opaque
    &&& forall|a: int, b: int|
        0 <= a < b < pixels.len() ==> (#[trigger] pixels[a]).sample_spec() != (
        #[trigger] pixels[b]).sample_spec()
}

/// The colours of a run of opaque pixels.
pub open spec fn colors_of<P: Pixel>(pixels: Seq<P>) -> Seq<Rgb> {
    Seq::new(pixels.len(), |k: int| pixels[k].sample_spec()->Opaque_0)
}

/// An empty palette takes distinct colours up to its capacity, giving them
/// the indices from the model's first index on in the order in which they
/// come. One colour more is refused as an overflow.
pub proof fn lemma_capacity_boundary<P: Pixel>(pixels: Seq<P>)
    requires
        distinct_opaque(pixels),
    ensures
        pixels.len() <= capacity::<P>() ==> resolve_all(Seq::<Rgb>::empty(), pixels) == (
            colors_of(pixels),
            Ok::<Seq<u8>, CompileError>(Seq::new(pixels.len(), |k: int| index_at::<P>(k))),
        ),
        pixels.len() > capacity::<P>() ==> resolve_all(Seq::<Rgb>::empty(), pixels).1 == Err::<
            Seq<u8>,
            CompileError,
        >(CompileError::PaletteOverflow { capacity: capacity::<P>() as usize }),
    decreases pixels.len(),
{
    if pixels.len() == 0 {
        assert(Seq::new(pixels.len(), |k: int| index_at::<P>(k)) =~= Seq::<u8>::empty());
    } else {
        let front = pixels.drop_last();
        lemma_capacity_boundary(front);
        if pixels.len() <= capacity::<P>() {
            assert(Seq::new(pixels.len(), |k: int| index_at::<P>(k)) =~= Seq::new(
                front.len(),
                |k: int| index_at::<P>(k),
            ).push(index_at::<P>(front.len() as int)));
        }
    }
}

/// A colour as one number, by which the palette finds it again.
pub open spec fn pack_spec(color: Rgb) -> u32 {
    (color.r * 65536 + color.g * 256 + color.b) as u32
}

fn pack(color: Rgb) -> (key: u32)
    ensures
        key == pack_spec(color),
{
    (color.r as u32) * 65536 + (color.g as u32) * 256 + (color.b as u32)
}

/// A palette for bitmaps whose pixels are of model `P`.
pub struct Palette<P: Pixel> {
    /// The colours, in the order of their indices.
    colors: Vec<Rgb>,
    /// The index of each colour, found by the colour's packed form.
    lookup: HashMap<u32, u8>,
    /// The index that the next new colour gets, if one is left.
    next_palette_index: Option<u8>,
    model: PhantomData<P>,
}

impl<P: Pixel> View for Palette<P> {
    type V = Seq<Rgb>;

    /// The colours, in the order of their indices.
    closed spec fn view(&self) -> Seq<Rgb> {
        self.colors@
    }
}

impl<P: Pixel> Palette<P> {
    /// The invariant of a palette.
    pub closed spec fn wf(&self) -> bool {
        let first = P::first_index_spec() as int;
        let colors = self.colors@;
        &&& valid_colors::<P>(colors)
        &&& forall|i: int|
            0 <= i < colors.len() ==> {
                &&& #[trigger] self.lookup@.contains_key(pack_spec(colors[i]))
                &&& self.lookup@[pack_spec(colors[i])] == first + i
            }
        &&& forall|key: u32| #[trigger]
            self.lookup@.contains_key(key) ==> {
                &&& 0 <= self.lookup@[key] - first < colors.len()
                &&& pack_spec(colors[self.lookup@[key] - first]) == key
            }
        &&& self.next_palette_index == if colors.len() < capacity::<P>() {
            Some((first + colors.len()) as u8)
        } else {
            None::<u8>
        }
    }

    /// A palette's colours are always valid.
    pub proof fn lemma_wf_valid(&self)
        requires
            self.wf(),
        ensures
            valid_colors::<P>(self@),
    {
    }

    /// A palette without colours.
    pub fn new() -> (palette: Palette<P>)
        ensures
            palette.wf(),
            palette@ == Seq::<Rgb>::empty(),
    {
        let first: u8 = P::first_index();
        Palette {
            colors: Vec::new(),
            lookup: HashMap::new(),
            next_palette_index: Some(first),
            model: PhantomData,
        }
    }

    /// The colours, in the order of their indices: the first of them has
    /// the model's first index.
    pub fn colors(&self) -> (colors: &Vec<Rgb>)
        ensures
            colors@ == self@,
    {
        &self.colors
    }

    /// The index of `color`, a new one if the palette has not seen the
    /// colour before.
    ///
    /// A fully transparent pixel is index zero whatever its colour
    /// channels, and takes no room in the palette. A pixel that is partly
    /// transparent is refused. A new colour is refused when every index is
    /// taken. A refused pixel leaves the palette as it was.
    pub fn palette_index(&mut self, color: P) -> (index: Result<u8, CompileError>)
        requires
            old(self).wf(),
        ensures
            final(self).wf(),
            (final(self)@, index) == resolve::<P>(old(self)@, color),
    {
        match color.sample() {
            Sample::Transparent => Ok(0),
            Sample::Translucent(alpha) => Err(CompileError::InvalidTransparency { alpha }),
            Sample::Opaque(rgb) => {
                let key: u32 = pack(rgb);
                let first: u8 = P::first_index();
                match self.lookup.get(&key) {
                    Some(found) => {
                        Ok(*found)
                    },
                    None => {
                        match self.next_palette_index {
                            Some(index) => {
                                self.next_palette_index = index.checked_add(1);
                                self.lookup.insert(key, index);
                                self.colors.push(rgb);
                                Ok(index)
                            },
                            None => Err(
                                CompileError::PaletteOverflow { capacity: 256 - first as usize },
                            ),
                        }
                    },
                }
            },
        }
    }
}

} // verus!
