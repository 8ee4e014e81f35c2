//! Cutting a bitmap into 8×8 tiles of palette indices.

use crate::bitmap::{extract_rect, Bitmap, BitmapView, Rect};
use crate::color::{Pixel, Rgb};
use crate::error::CompileError;
use crate::palette::{has_index, lemma_resolve_all, resolve_all, valid_colors, Palette};
use vstd::arithmetic::div_mod::lemma_fundamental_div_mod_converse;
use vstd::prelude::*;

verus! {

/// The rectangle of the tile in column `tx` and row `ty` of the grid of
/// tiles.
pub open spec fn tile_rect(tx: int, ty: int) -> Rect {
    Rect { x: (tx * 8) as usize, y: (ty * 8) as usize, w: 8, h: 8 }
}

/// How many whole tiles fit side by side. What is left of the width is
/// dropped.
pub open spec fn tiles_across<P>(bmp: BitmapView<P>) -> nat {
    bmp.width / 8
}

/// How many whole tiles fit one above the other. What is left of the
/// height is dropped.
pub open spec fn tiles_down<P>(bmp: BitmapView<P>) -> nat {
    bmp.height / 8
}

/// How many tiles a bitmap is cut into.
pub open spec fn tile_count<P>(bmp: BitmapView<P>) -> nat {
    tiles_across(bmp) * tiles_down(bmp)
}

/// The 64 pixels of a tile, row after row. Tiles are numbered row after
/// row too, from the top-left one.
pub open spec fn tile_pixels<P>(bmp: BitmapView<P>, tile: int) -> Seq<P> {
    let across = tiles_across(bmp) as int;
    bmp.extract(tile_rect(tile % across, tile / across)).pixels
}

/// Compiles the first `count` tiles of a bitmap against a palette that
/// starts as `colors`: every pixel is resolved in turn. The result is the
/// palette afterwards and the tiles, or the first refusal.
pub open spec fn compile_tiles<P: Pixel>(colors: Seq<Rgb>, bmp: BitmapView<P>, count: nat) -> (
    Seq<Rgb>,
    Result<Seq<Seq<u8>>, CompileError>,
)
    decreases count,
{
    if count == 0 {
        (colors, Ok(Seq::<Seq<u8>>::empty()))
    } else {
        let (before, tiles) = compile_tiles(colors, bmp, (count - 1) as nat);
        match tiles {
            Err(e) => (before, Err(e)),
            Ok(tiles) => {
                let (after, tile) = resolve_all(before, tile_pixels(bmp, count - 1));
                match tile {
                    Ok(tile) => (after, Ok(tiles.push(tile))),
                    Err(e) => (after, Err(e)),
                }
            },
        }
    }
}

/// Compiles a sprite's bitmap into its tiles.
pub open spec fn compile_sprite<P: Pixel>(colors: Seq<Rgb>, bmp: BitmapView<P>) -> (
    Seq<Rgb>,
    Result<Seq<Seq<u8>>, CompileError>,
) {
    compile_tiles(colors, bmp, tile_count(bmp))
}

/// Once a pixel was refused, the pixels after it change nothing.
pub proof fn lemma_resolve_all_refused<P: Pixel>(colors: Seq<Rgb>, pixels: Seq<P>, upto: int)
    requires
        0 <= upto <= pixels.len(),
        resolve_all(colors, pixels.take(upto)).1 is Err,
    ensures
        resolve_all(colors, pixels) == resolve_all(colors, pixels.take(upto)),
    decreases pixels.len(),
{
    if upto < pixels.len() {
        assert(pixels.drop_last().take(upto) =~= pixels.take(upto));
        lemma_resolve_all_refused(colors, pixels.drop_last(), upto);
    } else {
        assert(pixels.take(upto) =~= pixels);
    }
}

/// Once a tile was refused, the tiles after it change nothing.
pub proof fn lemma_compile_tiles_refused<P: Pixel>(
    colors: Seq<Rgb>,
    bmp: BitmapView<P>,
    upto: nat,
    count: nat,
)
    requires
        upto <= count,
        compile_tiles(colors, bmp, upto).1 is Err,
    ensures
        compile_tiles(colors, bmp, count) == compile_tiles(colors, bmp, upto),
    decreases count,
{
    if upto < count {
        lemma_compile_tiles_refused(colors, bmp, upto, (count - 1) as nat);
    }
}

/// There is one index for each pixel that was resolved.
pub proof fn lemma_resolve_all_len<P: Pixel>(colors: Seq<Rgb>, pixels: Seq<P>)
    ensures
        resolve_all(colors, pixels).1 matches Ok(indices) ==> indices.len() == pixels.len(),
    decreases pixels.len(),
{
    if pixels.len() > 0 {
        lemma_resolve_all_len(colors, pixels.drop_last());
    }
}

/// There is one tile for each tile asked for, and each has 64 indices.
pub proof fn lemma_compile_tiles_shape<P: Pixel>(
    colors: Seq<Rgb>,
    bmp: BitmapView<P>,
    count: nat,
)
    ensures
        compile_tiles(colors, bmp, count).1 matches Ok(tiles) ==> {
            &&& tiles.len() == count
            &&& forall|t: int| 0 <= t < count ==> (#[trigger] tiles[t]).len() == 64
        },
    decreases count,
{
    if count > 0 {
        let (before, tiles) = compile_tiles(colors, bmp, (count - 1) as nat);
        lemma_compile_tiles_shape(colors, bmp, (count - 1) as nat);
        if tiles is Ok {
            lemma_resolve_all_len(before, tile_pixels(bmp, count - 1));
        }
    }
}

/// A sprite that is `W` wide and `H` high compiles into `(W / 8) * (H / 8)`
/// tiles of 64 indices each.
pub proof fn lemma_compile_sprite_shape<P: Pixel>(colors: Seq<Rgb>, bmp: BitmapView<P>)
    ensures
        compile_sprite(colors, bmp).1 matches Ok(tiles) ==> {
            &&& tiles.len() == (bmp.width / 8) * (bmp.height / 8)
            &&& forall|t: int| 0 <= t < tiles.len() ==> (#[trigger] tiles[t]).len() == 64
        },
{
    lemma_compile_tiles_shape(colors, bmp, tile_count(bmp));
}

/// Whether every index of the tiles is the index that its pixel has in a
/// palette of the given colours.
pub open spec fn tiles_match<P: Pixel>(
    colors: Seq<Rgb>,
    bmp: BitmapView<P>,
    tiles: Seq<Seq<u8>>,
) -> bool {
    forall|t: int, k: int|
        0 <= t < tiles.len() && 0 <= k < 64 ==> has_index(
            colors,
            #[trigger] tile_pixels(bmp, t)[k],
            #[trigger] tiles[t][k],
        )
}

/// Tiles that match a palette still match it when the palette has grown.
pub proof fn lemma_tiles_match_stays<P: Pixel>(
    colors: Seq<Rgb>,
    grown: Seq<Rgb>,
    bmp: BitmapView<P>,
    tiles: Seq<Seq<u8>>,
)
    requires
        valid_colors::<P>(grown),
        colors.is_prefix_of(grown),
        tiles_match(colors, bmp, tiles),
    ensures
        tiles_match(grown, bmp, tiles),
{
}

/// What compiled tiles hold: the palette only ever grows at its end, and
/// every index of every tile is the index that its pixel has in the
/// palette as it is afterwards.
pub proof fn lemma_compile_tiles_match<P: Pixel>(
    colors: Seq<Rgb>,
    bmp: BitmapView<P>,
    count: nat,
)
    requires
        valid_colors::<P>(colors),
    ensures
        valid_colors::<P>(compile_tiles(colors, bmp, count).0),
        colors.is_prefix_of(compile_tiles(colors, bmp, count).0),
        compile_tiles(colors, bmp, count).1 matches Ok(tiles) ==> tiles.len() == count
            && tiles_match(compile_tiles(colors, bmp, count).0, bmp, tiles),
    decreases count,
{
    if count > 0 {
        let (before, tiles) = compile_tiles(colors, bmp, (count - 1) as nat);
        lemma_compile_tiles_match(colors, bmp, (count - 1) as nat);
        if let Ok(tiles) = tiles {
            let pixels = tile_pixels(bmp, count - 1);
            let (after, tile) = resolve_all(before, pixels);
            lemma_resolve_all(before, pixels);
            if let Ok(tile) = tile {
                lemma_tiles_match_stays(before, after, bmp, tiles);
            }
        }
    }
}

/// The tiles as sequences of indices.
pub open spec fn tiles_view(tiles: Seq<Vec<u8>>) -> Seq<Seq<u8>> {
    Seq::new(tiles.len(), |t: int| tiles[t]@)
}

/// Resolves the pixels one after another. Stops at the first pixel that
/// the palette refuses.
pub fn resolve_pixels<P: Pixel>(palette: &mut Palette<P>, pixels: &Vec<P>) -> (indices: Result<
    Vec<u8>,
    CompileError,
>)
    requires
        old(palette).wf(),
    ensures
        final(palette).wf(),
        match indices {
            Ok(indices) => resolve_all(old(palette)@, pixels@) == (
                final(palette)@,
                Ok::<Seq<u8>, CompileError>(indices@),
            ),
            Err(e) => resolve_all(old(palette)@, pixels@) == (
                final(palette)@,
                Err::<Seq<u8>, CompileError>(e),
            ),
        },
{
    let ghost start = palette@;
    let mut indices: Vec<u8> = Vec::new();
    let mut k: usize = 0;
    while k < pixels.len()
        invariant
            palette.wf(),
            start == old(palette)@,
            k <= pixels@.len(),
            resolve_all(start, pixels@.take(k as int)) == (
                palette@,
                Ok::<Seq<u8>, CompileError>(indices@),
            ),
        decreases pixels@.len() - k,
    {
        proof {
            let next = pixels@.take(k + 1);
            assert(next.drop_last() =~= pixels@.take(k as int));
        }
        match palette.palette_index(pixels[k]) {
            Ok(index) => {
                indices.push(index);
            },
            Err(e) => {
                proof {
                    lemma_resolve_all_refused(start, pixels@, k + 1);
                }
                return Err(e);
            },
        }
        k += 1;
    }
    assert(pixels@.take(k as int) =~= pixels@);
    Ok(indices)
}

/// Cuts a sprite's bitmap into tiles, row after row of tiles, and resolves
/// the pixels of each tile, row after row of pixels. Stops at the first
/// pixel that the palette refuses.
pub fn compile_sprite_tiles<P: Pixel>(palette: &mut Palette<P>, bmp: &Bitmap<P>) -> (tiles: Result<
    Vec<Vec<u8>>,
    CompileError,
>)
    requires
        old(palette).wf(),
        bmp.wf(),
    ensures
        final(palette).wf(),
        match tiles {
            Ok(tiles) => compile_sprite(old(palette)@, bmp@) == (
                final(palette)@,
                Ok::<Seq<Seq<u8>>, CompileError>(tiles_view(tiles@)),
            ),
            Err(e) => compile_sprite(old(palette)@, bmp@) == (
                final(palette)@,
                Err::<Seq<Seq<u8>>, CompileError>(e),
            ),
        },
{
    let ghost start = palette@;
    let x_tiles: usize = bmp.width() / 8;
    let y_tiles: usize = bmp.height() / 8;
    let mut tiles: Vec<Vec<u8>> = Vec::new();
    assert(tiles_view(tiles@) =~= Seq::<Seq<u8>>::empty());
    let mut y_tile: usize = 0;
    while y_tile < y_tiles
        invariant
            palette.wf(),
            bmp.wf(),
            start == old(palette)@,
            x_tiles == tiles_across(bmp@),
            y_tiles == tiles_down(bmp@),
            y_tile <= y_tiles,
            tiles@.len() == y_tile * x_tiles,
            compile_tiles(start, bmp@, tiles@.len() as nat) == (
                palette@,
                Ok::<Seq<Seq<u8>>, CompileError>(tiles_view(tiles@)),
            ),
        decreases y_tiles - y_tile,
    {
        let mut x_tile: usize = 0;
        while x_tile < x_tiles
            invariant
                palette.wf(),
                bmp.wf(),
                start == old(palette)@,
                x_tiles == tiles_across(bmp@),
                y_tiles == tiles_down(bmp@),
                y_tile < y_tiles,
                x_tile <= x_tiles,
                tiles@.len() == y_tile * x_tiles + x_tile,
                compile_tiles(start, bmp@, tiles@.len() as nat) == (
                    palette@,
                    Ok::<Seq<Seq<u8>>, CompileError>(tiles_view(tiles@)),
                ),
            decreases x_tiles - x_tile,
        {
            let ghost number = tiles@.len() as int;
            let ghost done = tiles@;
            proof {
                lemma_fundamental_div_mod_converse(
                    number,
                    x_tiles as int,
                    y_tile as int,
                    x_tile as int,
                );
                assert(y_tile * x_tiles + x_tile < y_tiles * x_tiles) by (nonlinear_arith)
                    requires
                        0 <= x_tile < x_tiles,
                        0 <= y_tile < y_tiles,
                ;
            }
            let rect = Rect { x: x_tile * 8, y: y_tile * 8, w: 8, h: 8 };
            let tile_bmp: Bitmap<P> = extract_rect(bmp, rect);
            match resolve_pixels(palette, tile_bmp.buffer()) {
                Ok(tile) => {
                    tiles.push(tile);
                    assert(tiles_view(tiles@) =~= tiles_view(done).push(tile@));
                },
                Err(e) => {
                    proof {
                        lemma_compile_tiles_refused(
                            start,
                            bmp@,
                            (number + 1) as nat,
                            tile_count(bmp@),
                        );
                    }
                    return Err(e);
                },
            }
            x_tile += 1;
        }
        proof {
            assert(y_tile * x_tiles + x_tiles == (y_tile + 1) * x_tiles) by (nonlinear_arith);
        }
        y_tile += 1;
    }
    proof {
        assert(x_tiles * y_tiles == y_tiles * x_tiles) by (nonlinear_arith);
    }
    Ok(tiles)
}

} // verus!
