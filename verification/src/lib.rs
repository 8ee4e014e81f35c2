//! Compiles sprite sheets into indexed-colour tile data.
//!
//! A sprite is a named rectangle of a source bitmap. Every sprite of a run
//! shares one palette: each distinct colour gets the next free index the
//! first time it is seen. A sprite is cut into 8×8 tiles of palette
//! indices, and the palette and tiles are written out as constant data.

pub mod bitmap;
pub mod color;
pub mod compiled;
pub mod error;
pub mod names;
pub mod palette;
pub mod sprites;
pub mod text;
pub mod tiles;

use crate::bitmap::{Bitmap, BitmapView, Rect};
use crate::color::{Pixel, Rgb};
use crate::error::CompileError;
use crate::names::unique_names;
use crate::palette::valid_colors;
use crate::sprites::{
    add_sheet, compile_sprites, lemma_add_all_unique, lemma_compile_sprites_match, sprites_match,
    SpritesBuilder, SpritesDesc,
};
use crate::text::compiled_text;
use vstd::prelude::*;

verus! {

/// One input of a run: a sheet's bitmap and the sprites that lie in it.
pub struct SpriteSheet<P> {
    pub desc: SpritesDesc,
    pub bmp: Bitmap<P>,
}

impl<P> View for SpriteSheet<P> {
    type V = (Seq<(Seq<char>, Rect)>, BitmapView<P>);

    open spec fn view(&self) -> (Seq<(Seq<char>, Rect)>, BitmapView<P>) {
        (self.desc@, self.bmp@)
    }
}

/// The sheets as their descriptors and bitmaps.
pub open spec fn sheets_view<P>(sheets: Seq<SpriteSheet<P>>) -> Seq<
    (Seq<(Seq<char>, Rect)>, BitmapView<P>),
> {
    Seq::new(sheets.len(), |i: int| sheets[i]@)
}

/// The sprites of all the sheets, gathered sheet after sheet, or the first
/// sprite that reaches outside its sheet.
pub open spec fn gather<P>(sheets: Seq<(Seq<(Seq<char>, Rect)>, BitmapView<P>)>) -> Result<
    Seq<(Seq<char>, BitmapView<P>)>,
    CompileError,
>
    decreases sheets.len(),
{
    if sheets.len() == 0 {
        Ok(Seq::<(Seq<char>, BitmapView<P>)>::empty())
    } else {
        match gather(sheets.drop_last()) {
            Err(e) => Err(e),
            Ok(sprites) => add_sheet(sprites, sheets.last().0, sheets.last().1),
        }
    }
}

/// What a run gives: the text of the compiled sprites, or why there is
/// none.
pub open spec fn compile_spec<P: Pixel>(
    sheets: Seq<(Seq<(Seq<char>, Rect)>, BitmapView<P>)>,
) -> Result<Seq<char>, CompileError> {
    match gather(sheets) {
        Err(e) => Err(e),
        Ok(sprites) => match compile_sprites::<P>(Seq::<Rgb>::empty(), sprites) {
            (_, Err(e)) => Err(e),
            (colors, Ok(compiled)) => Ok(compiled_text::<P>(colors, compiled)),
        },
    }
}

/// No two of the sprites gathered from the sheets have the same name.
pub proof fn lemma_gather_unique<P>(sheets: Seq<(Seq<(Seq<char>, Rect)>, BitmapView<P>)>)
    ensures
        gather(sheets) matches Ok(sprites) ==> unique_names(sprites),
    decreases sheets.len(),
{
    if sheets.len() > 0 {
        lemma_gather_unique(sheets.drop_last());
        if let Ok(sprites) = gather(sheets.drop_last()) {
            lemma_add_all_unique(sprites, sheets.last().0, sheets.last().1);
        }
    }
}

/// What the text of a run holds. Its palette is sound. Every sprite that
/// was gathered is there once, in its place and under its name, cut into
/// `(W / 8) * (H / 8)` tiles of 64 indices, and the index of each pixel is
/// the one that the pixel has in the palette of the whole run.
pub proof fn lemma_compile_spec<P: Pixel>(sheets: Seq<(Seq<(Seq<char>, Rect)>, BitmapView<P>)>)
    ensures
        compile_spec::<P>(sheets) matches Ok(text) ==> {
            let sprites = gather(sheets)->Ok_0;
            let (colors, compiled) = compile_sprites::<P>(Seq::<Rgb>::empty(), sprites);
            &&& gather(sheets) is Ok
            &&& compiled is Ok
            &&& unique_names(sprites)
            &&& valid_colors::<P>(colors)
            &&& sprites_match(colors, sprites, compiled->Ok_0)
            &&& text == compiled_text::<P>(colors, compiled->Ok_0)
        },
{
    lemma_gather_unique(sheets);
    if let Ok(sprites) = gather(sheets) {
        lemma_compile_sprites_match::<P>(Seq::<Rgb>::empty(), sprites);
    }
}

/// Once a sheet was refused, the sheets after it change nothing.
pub proof fn lemma_gather_refused<P>(
    sheets: Seq<(Seq<(Seq<char>, Rect)>, BitmapView<P>)>,
    upto: int,
)
    requires
        0 <= upto <= sheets.len(),
        gather(sheets.take(upto)) is Err,
    ensures
        gather(sheets) == gather(sheets.take(upto)),
    decreases sheets.len(),
{
    if upto < sheets.len() {
        assert(sheets.drop_last().take(upto) =~= sheets.take(upto));
        lemma_gather_refused(sheets.drop_last(), upto);
    } else {
        assert(sheets.take(upto) =~= sheets);
    }
}

/// Compiles the sprites of the sheets into text: one palette for all of
/// them and the tiles of each sprite. The sprites are taken sheet after
/// sheet, each sheet's in the order of its descriptor, so the text depends
/// on nothing but the sheets and their order. Any failure ends the run
/// without text.
pub fn compile<P: Pixel>(sheets: &Vec<SpriteSheet<P>>) -> (text: Result<String, CompileError>)
    requires
        forall|i: int| 0 <= i < sheets@.len() ==> (#[trigger] sheets@[i]).bmp.wf(),
    ensures
        match text {
            Ok(text) => compile_spec::<P>(sheets_view(sheets@)) == Ok::<Seq<char>, CompileError>(
                text@,
            ),
            Err(e) => compile_spec::<P>(sheets_view(sheets@)) == Err::<Seq<char>, CompileError>(e),
        },
{
    let ghost all = sheets_view(sheets@);
    let mut builder: SpritesBuilder<P> = SpritesBuilder::new();
    let mut i: usize = 0;
    while i < sheets.len()
        invariant
            i <= sheets@.len(),
            all == sheets_view(sheets@),
            forall|i: int| 0 <= i < sheets@.len() ==> (#[trigger] sheets@[i]).bmp.wf(),
            builder.wf(),
            gather(all.take(i as int)) == Ok::<Seq<(Seq<char>, BitmapView<P>)>, CompileError>(
                builder@,
            ),
        decreases sheets@.len() - i,
    {
        proof {
            let next = all.take(i + 1);
            assert(next.drop_last() =~= all.take(i as int));
        }
        match builder.add(&sheets[i].desc, &sheets[i].bmp) {
            Ok(_) => {},
            Err(e) => {
                proof {
                    lemma_gather_refused(all, i + 1);
                }
                return Err(e);
            },
        }
        i += 1;
    }
    assert(all.take(i as int) =~= all);
    match builder.compile() {
        Ok(compiled) => {
            let mut out = String::new();
            compiled.write_to(&mut out);
            Ok(out)
        },
        Err(e) => Err(e),
    }
}

} // verus!
