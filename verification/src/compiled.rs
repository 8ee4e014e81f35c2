//! What a run compiles to: the palette and the tiles of every sprite.

use crate::bitmap::Bitmap;
use crate::color::{Pixel, Rgb};
use crate::error::CompileError;
use crate::names::{
    entries_view, entry_view, lemma_upsert, names_of, unique_names, upsert, upsert_entry,
};
use crate::palette::{resolve, valid_colors, Palette};
use crate::text::{compiled_text, sprites_text, to_uppercase, write_palette, write_sprite};
use crate::tiles::{compile_sprite, compile_sprite_tiles, tiles_view};
use vstd::prelude::*;
use vstd::string::StringExecFns;

verus! {

/// Whether every tile has its 64 indices.
pub open spec fn whole_tiles(tiles: Seq<Seq<u8>>) -> bool {
    forall|t: int| 0 <= t < tiles.len() ==> (#[trigger] tiles[t]).len() == 64
}

/// The palette of a run and the tiles of its sprites. The sprites stay in
/// the order in which their names first came.
pub struct CompiledSprites<P: Pixel> {
    palette: Palette<P>,
    sprites: Vec<(String, Vec<Vec<u8>>)>,
}

impl<P: Pixel> CompiledSprites<P> {
    /// The colours of the palette, in the order of their indices.
    pub closed spec fn colors(&self) -> Seq<Rgb> {
        self.palette@
    }

    /// The sprites in order, each with its name and its tiles.
    pub closed spec fn sprites(&self) -> Seq<(Seq<char>, Seq<Seq<u8>>)> {
        Seq::new(
            self.sprites@.len(),
            |i: int| (self.sprites@[i].0@, tiles_view(self.sprites@[i].1@)),
        )
    }

    /// The invariant: the palette is sound, no two sprites have the same
    /// name, and every tile has its 64 indices.
    pub closed spec fn wf(&self) -> bool {
        &&& self.palette.wf()
        &&& unique_names(self.sprites())
        &&& forall|i: int| 0 <= i < self.sprites().len() ==> whole_tiles(#[trigger] self.sprites()[i].1)
    }

    /// What holds of every compiled set.
    pub proof fn lemma_wf(&self)
        requires
            self.wf(),
        ensures
            valid_colors::<P>(self.colors()),
            unique_names(self.sprites()),
            forall|i: int|
                0 <= i < self.sprites().len() ==> whole_tiles(#[trigger] self.sprites()[i].1),
    {
        self.palette.lemma_wf_valid();
    }

    /// A set without colours and without sprites.
    pub fn new() -> (compiled: CompiledSprites<P>)
        ensures
            compiled.wf(),
            compiled.colors() == Seq::<Rgb>::empty(),
            compiled.sprites() == Seq::<(Seq<char>, Seq<Seq<u8>>)>::empty(),
    {
        CompiledSprites { palette: Palette::new(), sprites: Vec::new() }
    }

    /// The palette.
    pub fn palette(&self) -> (palette: &Palette<P>)
        ensures
            palette@ == self.colors(),
            self.wf() ==> palette.wf(),
    {
        &self.palette
    }

    /// How many sprites there are.
    pub fn sprite_count(&self) -> (count: usize)
        ensures
            count == self.sprites().len(),
    {
        self.sprites.len()
    }

    /// The name of the sprite at `at`.
    pub fn sprite_name(&self, at: usize) -> (name: &String)
        requires
            at < self.sprites().len(),
        ensures
            name@ == self.sprites()[at as int].0,
    {
        &self.sprites[at].0
    }

    /// The tiles of the sprite at `at`.
    pub fn sprite_tiles(&self, at: usize) -> (tiles: &Vec<Vec<u8>>)
        requires
            at < self.sprites().len(),
        ensures
            tiles_view(tiles@) == self.sprites()[at as int].1,
    {
        &self.sprites[at].1
    }

    /// The index of `color` in the palette of this set, a new one if the
    /// palette has not seen the colour before.
    pub fn palette_index(&mut self, color: P) -> (index: Result<u8, CompileError>)
        requires
            old(self).wf(),
        ensures
            final(self).wf(),
            final(self).sprites() == old(self).sprites(),
            (final(self).colors(), index) == resolve::<P>(old(self).colors(), color),
    {
        self.palette.palette_index(color)
    }

    /// Cuts a bitmap into tiles against the palette of this set. The tiles
    /// are handed back, not kept.
    pub fn compile_tiles_of(&mut self, bmp: &Bitmap<P>) -> (tiles: Result<
        Vec<Vec<u8>>,
        CompileError,
    >)
        requires
            old(self).wf(),
            bmp.wf(),
        ensures
            final(self).wf(),
            final(self).sprites() == old(self).sprites(),
            match tiles {
                Ok(tiles) => compile_sprite(old(self).colors(), bmp@) == (
                    final(self).colors(),
                    Ok::<Seq<Seq<u8>>, CompileError>(tiles_view(tiles@)),
                ),
                Err(e) => compile_sprite(old(self).colors(), bmp@) == (
                    final(self).colors(),
                    Err::<Seq<Seq<u8>>, CompileError>(e),
                ),
            },
    {
        compile_sprite_tiles(&mut self.palette, bmp)
    }

    /// Puts the tiles of a sprite under its name: in the place of the
    /// sprite of that name if there is one, after all the others if not.
    pub fn add_sprite(&mut self, name: String, tiles: Vec<Vec<u8>>)
        requires
            old(self).wf(),
            whole_tiles(tiles_view(tiles@)),
        ensures
            final(self).wf(),
            final(self).colors() == old(self).colors(),
            final(self).sprites() == upsert(old(self).sprites(), name@, tiles_view(tiles@)),
    {
        let ghost before = self.sprites();
        let ghost raw = entries_view(self.sprites@);
        proof {
            assert(names_of(raw) =~= names_of(before));
            lemma_upsert(before, name@, tiles_view(tiles@));
        }
        upsert_entry(&mut self.sprites, name, tiles);
        proof {
            let after = upsert(before, name@, tiles_view(tiles@));
            let raw_after = entries_view(self.sprites@);
            assert forall|i: int| 0 <= i < after.len() implies self.sprites()[i] == after[i] by {
                assert(raw_after[i] == entry_view(self.sprites@[i]));
            }
            assert(self.sprites() =~= after);
        }
    }

    /// Appends the text of this set to `out`: the palette, then the
    /// sprites in their order.
    pub fn write_to(&self, out: &mut String)
        ensures
            final(out)@ == old(out)@ + compiled_text::<P>(self.colors(), self.sprites()),
    {
        out.append("use ::gba::mmio_types::Color;\n\n");
        write_palette(out, &self.palette);
        let ghost start = out@;
        let ghost all = self.sprites();
        let mut i: usize = 0;
        while i < self.sprites.len()
            invariant
                i <= self.sprites@.len(),
                all == self.sprites(),
                out@ == start + sprites_text(all.take(i as int)),
            decreases self.sprites@.len() - i,
        {
            proof {
                let next = all.take(i + 1);
                assert(next.drop_last() =~= all.take(i as int));
            }
            let ident: String = to_uppercase(self.sprites[i].0.as_str());
            write_sprite(out, ident.as_str(), &self.sprites[i].1);
            i += 1;
        }
        assert(all.take(i as int) =~= all);
    }
}

} // verus!
