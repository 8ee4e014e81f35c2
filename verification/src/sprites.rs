//! Collecting the sprites of a run and compiling them.

use crate::bitmap::{extract_rect, Bitmap, BitmapView, Rect};
use crate::color::{Pixel, Rgb};
use crate::compiled::{whole_tiles, CompiledSprites};
use crate::error::CompileError;
use crate::names::{
    entries_view, entry_view, lemma_upsert, names_of, unique_names, upsert, upsert_entry,
};
use crate::palette::valid_colors;
use crate::tiles::{
    compile_sprite, lemma_compile_sprite_shape, lemma_compile_tiles_match,
    lemma_tiles_match_stays, tile_count, tiles_match,
};
use vstd::prelude::*;

verus! {

/// Where a sprite lies in its sheet.
#[derive(Clone, Copy, Debug, PartialEq, Eq, Structural)]
pub struct Sprite {
    pub rect: Rect,
}

/// The sprites of one sheet: each sprite's name and where it lies.
#[derive(Debug)]
pub struct SpritesDesc {
    pub sprites: Vec<(String, Sprite)>,
}

impl View for SpritesDesc {
    type V = Seq<(Seq<char>, Rect)>;

    open spec fn view(&self) -> Seq<(Seq<char>, Rect)> {
        Seq::new(self.sprites@.len(), |i: int| (self.sprites@[i].0@, self.sprites@[i].1.rect))
    }
}

/// Whether every sprite of a sheet lies inside the sheet's bitmap.
pub open spec fn all_inside<P>(desc: Seq<(Seq<char>, Rect)>, bmp: BitmapView<P>) -> bool {
    forall|k: int| 0 <= k < desc.len() ==> bmp.contains_rect(#[trigger] desc[k].1)
}

/// Whether entry `k` is the first sprite of a sheet that reaches outside
/// the sheet's bitmap.
pub open spec fn first_outside<P>(desc: Seq<(Seq<char>, Rect)>, bmp: BitmapView<P>, k: int) -> bool {
    &&& 0 <= k < desc.len()
    &&& !bmp.contains_rect(desc[k].1)
    &&& forall|j: int| 0 <= j < k ==> bmp.contains_rect(#[trigger] desc[j].1)
}

/// The sprites after those of one sheet were added, one after another in
/// the order of the sheet: each is cut out of the sheet's bitmap and put
/// under its name.
pub open spec fn add_all<P>(
    sprites: Seq<(Seq<char>, BitmapView<P>)>,
    desc: Seq<(Seq<char>, Rect)>,
    bmp: BitmapView<P>,
) -> Seq<(Seq<char>, BitmapView<P>)>
    decreases desc.len(),
{
    if desc.len() == 0 {
        sprites
    } else {
        upsert(add_all(sprites, desc.drop_last(), bmp), desc.last().0, bmp.extract(desc.last().1))
    }
}

/// Adding the sprites of a sheet keeps the names unique.
pub proof fn lemma_add_all_unique<P>(
    sprites: Seq<(Seq<char>, BitmapView<P>)>,
    desc: Seq<(Seq<char>, Rect)>,
    bmp: BitmapView<P>,
)
    requires
        unique_names(sprites),
    ensures
        unique_names(add_all(sprites, desc, bmp)),
    decreases desc.len(),
{
    if desc.len() > 0 {
        lemma_add_all_unique(sprites, desc.drop_last(), bmp);
        lemma_upsert(
            add_all(sprites, desc.drop_last(), bmp),
            desc.last().0,
            bmp.extract(desc.last().1),
        );
    }
}

/// What adding the sprites of one sheet gives: the sprites afterwards, or
/// the first sprite of the sheet that reaches outside the sheet's bitmap.
pub open spec fn add_sheet<P>(
    sprites: Seq<(Seq<char>, BitmapView<P>)>,
    desc: Seq<(Seq<char>, Rect)>,
    bmp: BitmapView<P>,
) -> Result<Seq<(Seq<char>, BitmapView<P>)>, CompileError> {
    if all_inside(desc, bmp) {
        Ok(add_all(sprites, desc, bmp))
    } else {
        Err(
            CompileError::RectOutOfBounds {
                entry: (choose|k: int| first_outside(desc, bmp, k)) as usize,
            },
        )
    }
}

/// A sheet has at most one first sprite that reaches outside.
pub proof fn lemma_first_outside<P>(desc: Seq<(Seq<char>, Rect)>, bmp: BitmapView<P>, k: int)
    requires
        first_outside(desc, bmp, k),
    ensures
        !all_inside(desc, bmp),
        (choose|k: int| first_outside(desc, bmp, k)) == k,
{
    assert(first_outside(desc, bmp, choose|k: int| first_outside(desc, bmp, k)));
}

/// Compiles the sprites one after another against a palette that starts
/// as `colors`. The result is the palette afterwards and the tiles of
/// every sprite under its name, or the first refusal.
pub open spec fn compile_sprites<P: Pixel>(
    colors: Seq<Rgb>,
    sprites: Seq<(Seq<char>, BitmapView<P>)>,
) -> (Seq<Rgb>, Result<Seq<(Seq<char>, Seq<Seq<u8>>)>, CompileError>)
    decreases sprites.len(),
{
    if sprites.len() == 0 {
        (colors, Ok(Seq::<(Seq<char>, Seq<Seq<u8>>)>::empty()))
    } else {
        let (before, done) = compile_sprites(colors, sprites.drop_last());
        match done {
            Err(e) => (before, Err(e)),
            Ok(done) => {
                let (after, tiles) = compile_sprite(before, sprites.last().1);
                match tiles {
                    Ok(tiles) => (after, Ok(upsert(done, sprites.last().0, tiles))),
                    Err(e) => (after, Err(e)),
                }
            },
        }
    }
}

/// Once a sprite was refused, the sprites after it change nothing.
pub proof fn lemma_compile_sprites_refused<P: Pixel>(
    colors: Seq<Rgb>,
    sprites: Seq<(Seq<char>, BitmapView<P>)>,
    upto: int,
)
    requires
        0 <= upto <= sprites.len(),
        compile_sprites(colors, sprites.take(upto)).1 is Err,
    ensures
        compile_sprites(colors, sprites) == compile_sprites(colors, sprites.take(upto)),
    decreases sprites.len(),
{
    if upto < sprites.len() {
        assert(sprites.drop_last().take(upto) =~= sprites.take(upto));
        lemma_compile_sprites_refused(colors, sprites.drop_last(), upto);
    } else {
        assert(sprites.take(upto) =~= sprites);
    }
}

/// Whether `compiled` holds the sprites in their order, each under its
/// name with as many tiles as its bitmap has, and every index of every
/// tile is the index that its pixel has in a palette of the given colours.
pub open spec fn sprites_match<P: Pixel>(
    colors: Seq<Rgb>,
    sprites: Seq<(Seq<char>, BitmapView<P>)>,
    compiled: Seq<(Seq<char>, Seq<Seq<u8>>)>,
) -> bool {
    &&& compiled.len() == sprites.len()
    &&& forall|i: int|
        0 <= i < sprites.len() ==> {
            &&& (#[trigger] compiled[i]).0 == sprites[i].0
            &&& compiled[i].1.len() == tile_count(sprites[i].1)
            &&& whole_tiles(compiled[i].1)
            &&& tiles_match(colors, sprites[i].1, compiled[i].1)
        }
}

/// What a compiled run holds. Every sprite is there once, in its place
/// and under its name, with `(W / 8) * (H / 8)` tiles of 64 indices for a
/// bitmap `W` wide and `H` high. The index of each pixel of each tile is
/// the one that the pixel has in the palette of the whole run: pixels get
/// the same index exactly where they stand for the same thing.
pub proof fn lemma_compile_sprites_match<P: Pixel>(
    colors: Seq<Rgb>,
    sprites: Seq<(Seq<char>, BitmapView<P>)>,
)
    requires
        valid_colors::<P>(colors),
        unique_names(sprites),
    ensures
        valid_colors::<P>(compile_sprites(colors, sprites).0),
        colors.is_prefix_of(compile_sprites(colors, sprites).0),
        compile_sprites(colors, sprites).1 matches Ok(compiled) ==> sprites_match(
            compile_sprites(colors, sprites).0,
            sprites,
            compiled,
        ),
    decreases sprites.len(),
{
    if sprites.len() > 0 {
        let front = sprites.drop_last();
        let last = sprites.last();
        let n = front.len() as int;
        assert(unique_names(front)) by {
            assert forall|i: int, j: int|
                0 <= i < front.len() && 0 <= j < front.len() && i != j implies names_of(
                front,
            )[i] != names_of(front)[j] by {
                assert(names_of(sprites)[i] != names_of(sprites)[j]);
            }
        }
        lemma_compile_sprites_match(colors, front);
        let (before, done) = compile_sprites(colors, front);
        if let Ok(done) = done {
            let (after, tiles) = compile_sprite(before, last.1);
            lemma_compile_tiles_match(before, last.1, tile_count(last.1));
            lemma_compile_sprite_shape(before, last.1);
            if let Ok(tiles) = tiles {
                assert(!names_of(done).contains(last.0)) by {
                    if names_of(done).contains(last.0) {
                        let at = names_of(done).index_of(last.0);
                        assert(names_of(sprites)[at] == names_of(sprites)[n]);
                    }
                }
                let compiled = upsert(done, last.0, tiles);
                assert forall|i: int| 0 <= i < sprites.len() implies {
                    &&& (#[trigger] compiled[i]).0 == sprites[i].0
                    &&& compiled[i].1.len() == tile_count(sprites[i].1)
                    &&& whole_tiles(compiled[i].1)
                    &&& tiles_match(after, sprites[i].1, compiled[i].1)
                } by {
                    if i < n {
                        lemma_tiles_match_stays(before, after, sprites[i].1, done[i].1);
                    }
                }
            }
        }
    }
}

/// The sprites of a run, each cut out of its sheet, in the order in which
/// their names first came. A name that comes again replaces the sprite
/// that had it.
pub struct SpritesBuilder<P: Pixel> {
    sprites: Vec<(String, Bitmap<P>)>,
}

impl<P: Pixel> View for SpritesBuilder<P> {
    type V = Seq<(Seq<char>, BitmapView<P>)>;

    closed spec fn view(&self) -> Seq<(Seq<char>, BitmapView<P>)> {
        Seq::new(self.sprites@.len(), |i: int| (self.sprites@[i].0@, self.sprites@[i].1@))
    }
}

impl<P: Pixel> SpritesBuilder<P> {
    /// The invariant: no two sprites have the same name, and every
    /// sprite's bitmap is sound.
    pub closed spec fn wf(&self) -> bool {
        &&& unique_names(self@)
        &&& forall|i: int| 0 <= i < self.sprites@.len() ==> (#[trigger] self.sprites@[i]).1.wf()
    }

    /// No two sprites of a builder have the same name.
    pub proof fn lemma_wf(&self)
        requires
            self.wf(),
        ensures
            unique_names(self@),
            forall|i: int| 0 <= i < self@.len() ==> (#[trigger] self@[i]).1.wf(),
    {
    }

    /// A builder without sprites.
    pub fn new() -> (builder: SpritesBuilder<P>)
        ensures
            builder.wf(),
            builder@ == Seq::<(Seq<char>, BitmapView<P>)>::empty(),
    {
        SpritesBuilder { sprites: Vec::new() }
    }

    /// Puts one sprite under its name.
    fn put(&mut self, name: String, sprite: Bitmap<P>)
        requires
            old(self).wf(),
            sprite.wf(),
        ensures
            final(self).wf(),
            final(self)@ == upsert(old(self)@, name@, sprite@),
    {
        let ghost before = self@;
        let ghost raw = entries_view(self.sprites@);
        proof {
            assert(names_of(raw) =~= names_of(before));
            lemma_upsert(before, name@, sprite@);
        }
        upsert_entry(&mut self.sprites, name, sprite);
        proof {
            let after = upsert(before, name@, sprite@);
            let raw_after = entries_view(self.sprites@);
            assert forall|i: int| 0 <= i < after.len() implies self@[i] == after[i] && (
            #[trigger] self.sprites@[i]).1.wf() by {
                assert(raw_after[i] == entry_view(self.sprites@[i]));
            }
            assert(self@ =~= after);
        }
    }

    /// Adds the sprites of one sheet, each cut out of the sheet's bitmap,
    /// in the order of the descriptor. Where a sprite reaches outside the
    /// bitmap nothing is added, and the first such sprite is reported.
    pub fn add(&mut self, sprites: &SpritesDesc, bmp: &Bitmap<P>) -> (added: Result<
        (),
        CompileError,
    >)
        requires
            old(self).wf(),
            bmp.wf(),
        ensures
            final(self).wf(),
            match added {
                Ok(_) => add_sheet(old(self)@, sprites@, bmp@) == Ok::<
                    Seq<(Seq<char>, BitmapView<P>)>,
                    CompileError,
                >(final(self)@),
                Err(e) => add_sheet(old(self)@, sprites@, bmp@) == Err::<
                    Seq<(Seq<char>, BitmapView<P>)>,
                    CompileError,
                >(e) && final(self)@ == old(self)@,
            },
    {
        let ghost desc = sprites@;
        let width: usize = bmp.width();
        let height: usize = bmp.height();
        let mut k: usize = 0;
        while k < sprites.sprites.len()
            invariant
                k <= sprites.sprites@.len(),
                desc == sprites@,
                width == bmp@.width,
                height == bmp@.height,
                self.wf(),
                self@ == old(self)@,
                forall|j: int| 0 <= j < k ==> bmp@.contains_rect(#[trigger] desc[j].1),
            decreases sprites.sprites@.len() - k,
        {
            let rect: Rect = sprites.sprites[k].1.rect;
            let inside: bool = rect.x <= width && rect.w <= width - rect.x && rect.y <= height
                && rect.h <= height - rect.y;
            if !inside {
                proof {
                    lemma_first_outside(desc, bmp@, k as int);
                }
                return Err(CompileError::RectOutOfBounds { entry: k });
            }
            k += 1;
        }
        let mut k: usize = 0;
        while k < sprites.sprites.len()
            invariant
                k <= sprites.sprites@.len(),
                desc == sprites@,
                all_inside(desc, bmp@),
                bmp.wf(),
                self.wf(),
                self@ == add_all(old(self)@, desc.take(k as int), bmp@),
            decreases sprites.sprites@.len() - k,
        {
            proof {
                let next = desc.take(k + 1);
                assert(next.drop_last() =~= desc.take(k as int));
                assert(bmp@.contains_rect(desc[k as int].1));
            }
            let name: String = sprites.sprites[k].0.clone();
            let sprite: Bitmap<P> = extract_rect(bmp, sprites.sprites[k].1.rect);
            self.put(name, sprite);
            k += 1;
        }
        assert(desc.take(k as int) =~= desc);
        Ok(())
    }

    /// Compiles the sprites in their order into one palette and the tiles
    /// of each sprite. The first pixel that the palette refuses ends the
    /// run, and nothing is compiled.
    pub fn compile(self) -> (compiled: Result<CompiledSprites<P>, CompileError>)
        requires
            self.wf(),
        ensures
            match compiled {
                Ok(compiled) => compiled.wf() && compile_sprites(Seq::<Rgb>::empty(), self@) == (
                    compiled.colors(),
                    Ok::<Seq<(Seq<char>, Seq<Seq<u8>>)>, CompileError>(compiled.sprites()),
                ),
                Err(e) => compile_sprites(Seq::<Rgb>::empty(), self@).1 == Err::<
                    Seq<(Seq<char>, Seq<Seq<u8>>)>,
                    CompileError,
                >(e),
            },
    {
        let ghost empty = Seq::<Rgb>::empty();
        let ghost all = self@;
        let mut compiled: CompiledSprites<P> = CompiledSprites::new();
        let mut i: usize = 0;
        while i < self.sprites.len()
            invariant
                i <= self.sprites@.len(),
                self.wf(),
                all == self@,
                empty == Seq::<Rgb>::empty(),
                compiled.wf(),
                compile_sprites(empty, all.take(i as int)) == (
                    compiled.colors(),
                    Ok::<Seq<(Seq<char>, Seq<Seq<u8>>)>, CompileError>(compiled.sprites()),
                ),
            decreases self.sprites@.len() - i,
        {
            proof {
                let next = all.take(i + 1);
                assert(next.drop_last() =~= all.take(i as int));
                lemma_compile_sprite_shape(compiled.colors(), all[i as int].1);
            }
            match compiled.compile_tiles_of(&self.sprites[i].1) {
                Ok(tiles) => {
                    compiled.add_sprite(self.sprites[i].0.clone(), tiles);
                },
                Err(e) => {
                    proof {
                        lemma_compile_sprites_refused(empty, all, i + 1);
                    }
                    return Err(e);
                },
            }
            i += 1;
        }
        assert(all.take(i as int) =~= all);
        Ok(compiled)
    }
}

} // verus!
