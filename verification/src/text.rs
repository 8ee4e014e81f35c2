//! The text that a compiled set of sprites is written out as: constant
//! data for the renderer, one array for the palette and one for each
//! sprite.

use crate::color::{Pixel, Rgb};
use crate::palette::{has_index, valid_colors, Palette};
use crate::tiles::tiles_view;
use vstd::prelude::*;
use vstd::string::StringExecFns;

verus! {

/// The character of a decimal digit.
pub open spec fn digit_char(digit: nat) -> char {
    if digit == 0 {
        '0'
    } else if digit == 1 {
        '1'
    } else if digit == 2 {
        '2'
    } else if digit == 3 {
        '3'
    } else if digit == 4 {
        '4'
    } else if digit == 5 {
        '5'
    } else if digit == 6 {
        '6'
    } else if digit == 7 {
        '7'
    } else if digit == 8 {
        '8'
    } else {
        '9'
    }
}

/// A number in decimal, without leading zeros.
pub open spec fn decimal(n: nat) -> Seq<char>
    decreases n,
{
    if n < 10 {
        seq![digit_char(n)]
    } else {
        decimal(n / 10).push(digit_char(n % 10))
    }
}

/// The numbers in decimal with a comma and a space between them.
pub open spec fn list_text(values: Seq<u8>) -> Seq<char>
    decreases values.len(),
{
    if values.len() == 0 {
        Seq::<char>::empty()
    } else if values.len() == 1 {
        decimal(values[0] as nat)
    } else {
        list_text(values.drop_last()) + ", "@ + decimal(values.last() as nat)
    }
}

/// A tile as an array of its indices.
pub open spec fn tile_text(tile: Seq<u8>) -> Seq<char> {
    "["@ + list_text(tile) + "]"@
}

/// One line for each tile.
pub open spec fn tiles_text(tiles: Seq<Seq<u8>>) -> Seq<char>
    decreases tiles.len(),
{
    if tiles.len() == 0 {
        Seq::<char>::empty()
    } else {
        tiles_text(tiles.drop_last()) + "    "@ + tile_text(tiles.last()) + ",\n"@
    }
}

/// The array of a sprite's tiles, under the identifier `ident`.
pub open spec fn sprite_text(ident: Seq<char>, tiles: Seq<Seq<u8>>) -> Seq<char> {
    "pub const "@ + ident + ": &'static [[u8; 64]] = &[\n"@ + tiles_text(tiles) + "];\n"@
}

/// A colour of the palette: each channel is cut down from eight bits to
/// its five highest.
pub open spec fn color_text(color: Rgb) -> Seq<char> {
    "    Color::from_rgb("@ + decimal((color.r >> 3) as nat) + ", "@ + decimal(
        (color.g >> 3) as nat,
    ) + ", "@ + decimal((color.b >> 3) as nat) + "),\n"@
}

/// One line for each colour.
pub open spec fn colors_text(colors: Seq<Rgb>) -> Seq<char>
    decreases colors.len(),
{
    if colors.len() == 0 {
        Seq::<char>::empty()
    } else {
        colors_text(colors.drop_last()) + color_text(colors.last())
    }
}

/// The entries of the palette's array. The entry at position `i` is the
/// colour of index `i`: black below the model's first index, where no
/// colour ever is. A palette without colours has no entries.
pub open spec fn palette_entries<P: Pixel>(colors: Seq<Rgb>) -> Seq<Rgb> {
    if colors.len() == 0 {
        Seq::<Rgb>::empty()
    } else {
        Seq::new(P::first_index_spec() as nat, |i: int| Rgb::black()) + colors
    }
}

/// In the palette's array a colour stands at the position of its index:
/// the array is read by position, and the indices of the tiles point into
/// it.
pub proof fn lemma_entry_at_index<P: Pixel>(colors: Seq<Rgb>, pixel: P, index: u8)
    requires
        valid_colors::<P>(colors),
        has_index(colors, pixel, index),
        pixel.sample_spec() is Opaque,
    ensures
        palette_entries::<P>(colors).len() == P::first_index_spec() + colors.len(),
        palette_entries::<P>(colors).len() <= 256,
        index < palette_entries::<P>(colors).len(),
        palette_entries::<P>(colors)[index as int] == pixel.sample_spec()->Opaque_0,
        forall|i: int|
            0 <= i < P::first_index_spec() ==> palette_entries::<P>(colors)[i] == Rgb::black(),
{
}

/// The array of the palette.
pub open spec fn palette_text<P: Pixel>(colors: Seq<Rgb>) -> Seq<char> {
    "pub const PALETTE: &'static [Color] = &[\n"@ + colors_text(palette_entries::<P>(colors))
        + "];\n\n"@
}

/// What `str::to_uppercase` gives for a name: the name with every
/// character replaced by its upper-case form as Unicode defines it.
pub uninterp spec fn uppercase(name: Seq<char>) -> Seq<char>;

/// One array for each sprite, in the order of the sprites, each under the
/// sprite's name in upper case.
pub open spec fn sprites_text(sprites: Seq<(Seq<char>, Seq<Seq<u8>>)>) -> Seq<char>
    decreases sprites.len(),
{
    if sprites.len() == 0 {
        Seq::<char>::empty()
    } else {
        sprites_text(sprites.drop_last()) + sprite_text(
            uppercase(sprites.last().0),
            sprites.last().1,
        )
    }
}

/// The whole text: the import of the colour type, the palette, the
/// sprites.
pub open spec fn compiled_text<P: Pixel>(
    colors: Seq<Rgb>,
    sprites: Seq<(Seq<char>, Seq<Seq<u8>>)>,
) -> Seq<char> {
    "use ::gba::mmio_types::Color;\n\n"@ + palette_text::<P>(colors) + sprites_text(sprites)
}

/// Calls `str::to_uppercase` of the standard library. Its result depends
/// on the characters of `name` alone; nothing is claimed of it but that it
/// is that result.
#[verifier::external_body]
pub(crate) fn to_uppercase(name: &str) -> (upper: String)
    ensures
        upper@ == uppercase(name@),
{
    name.to_uppercase()
}

/// A decimal digit as text.
fn digit_str(digit: u8) -> (text: &'static str)
    requires
        digit < 10,
    ensures
        text@ == seq![digit_char(digit as nat)],
{
    proof {
        reveal_strlit("0");
        reveal_strlit("1");
        reveal_strlit("2");
        reveal_strlit("3");
        reveal_strlit("4");
        reveal_strlit("5");
        reveal_strlit("6");
        reveal_strlit("7");
        reveal_strlit("8");
        reveal_strlit("9");
    }
    let text: &'static str = match digit {
        0 => "0",
        1 => "1",
        2 => "2",
        3 => "3",
        4 => "4",
        5 => "5",
        6 => "6",
        7 => "7",
        8 => "8",
        _ => "9",
    };
    text
}

/// Appends `n` in decimal.
pub fn write_decimal(out: &mut String, n: u8)
    ensures
        final(out)@ == old(out)@ + decimal(n as nat),
{
    reveal_with_fuel(decimal, 3);
    if n >= 100 {
        out.append(digit_str(n / 100));
        out.append(digit_str((n / 10) % 10));
        out.append(digit_str(n % 10));
    } else if n >= 10 {
        out.append(digit_str(n / 10));
        out.append(digit_str(n % 10));
    } else {
        out.append(digit_str(n));
    }
}

/// Appends the line of one colour of the palette.
pub fn write_color(out: &mut String, color: Rgb)
    ensures
        final(out)@ == old(out)@ + color_text(color),
{
    out.append("    Color::from_rgb(");
    write_decimal(out, color.r >> 3);
    out.append(", ");
    write_decimal(out, color.g >> 3);
    out.append(", ");
    write_decimal(out, color.b >> 3);
    out.append("),\n");
}

/// Appends the array of the palette.
pub fn write_palette<P: Pixel>(out: &mut String, palette: &Palette<P>)
    ensures
        final(out)@ == old(out)@ + palette_text::<P>(palette@),
{
    out.append("pub const PALETTE: &'static [Color] = &[\n");
    let colors = palette.colors();
    let ghost entries = palette_entries::<P>(palette@);
    let ghost start = out@;
    if colors.len() > 0 {
        let first: u8 = P::first_index();
        let mut slot: u8 = 0;
        while slot < first
            invariant
                slot <= first,
                out@ == start + colors_text(entries.take(slot as int)),
                entries == Seq::new(first as nat, |i: int| Rgb::black()) + colors@,
            decreases first - slot,
        {
            proof {
                let next = entries.take(slot + 1);
                assert(next.drop_last() =~= entries.take(slot as int));
            }
            write_color(out, Rgb { r: 0, g: 0, b: 0 });
            slot += 1;
        }
        let mut i: usize = 0;
        while i < colors.len()
            invariant
                i <= colors@.len(),
                out@ == start + colors_text(entries.take(first + i)),
                entries == Seq::new(first as nat, |i: int| Rgb::black()) + colors@,
            decreases colors@.len() - i,
        {
            proof {
                let next = entries.take(first + i + 1);
                assert(next.drop_last() =~= entries.take(first + i));
            }
            write_color(out, colors[i]);
            i += 1;
        }
        assert(entries.take(first + i) =~= entries);
    }
    out.append("];\n\n");
}

/// Appends a tile as an array of its indices.
pub fn write_tile(out: &mut String, tile: &Vec<u8>)
    ensures
        final(out)@ == old(out)@ + tile_text(tile@),
{
    out.append("[");
    let ghost start = out@;
    let mut i: usize = 0;
    while i < tile.len()
        invariant
            i <= tile@.len(),
            out@ == start + list_text(tile@.take(i as int)),
        decreases tile@.len() - i,
    {
        proof {
            let next = tile@.take(i + 1);
            assert(next.drop_last() =~= tile@.take(i as int));
        }
        if i > 0 {
            out.append(", ");
        }
        write_decimal(out, tile[i]);
        i += 1;
    }
    assert(tile@.take(i as int) =~= tile@);
    out.append("]");
}

/// Appends the array of a sprite's tiles under the identifier `ident`.
pub fn write_sprite(out: &mut String, ident: &str, tiles: &Vec<Vec<u8>>)
    ensures
        final(out)@ == old(out)@ + sprite_text(ident@, tiles_view(tiles@)),
{
    out.append("pub const ");
    out.append(ident);
    out.append(": &'static [[u8; 64]] = &[\n");
    let ghost start = out@;
    let ghost all = tiles_view(tiles@);
    let mut t: usize = 0;
    while t < tiles.len()
        invariant
            t <= tiles@.len(),
            all == tiles_view(tiles@),
            out@ == start + tiles_text(all.take(t as int)),
        decreases tiles@.len() - t,
    {
        proof {
            let next = all.take(t + 1);
            assert(next.drop_last() =~= all.take(t as int));
        }
        out.append("    ");
        write_tile(out, &tiles[t]);
        out.append(",\n");
        t += 1;
    }
    assert(all.take(t as int) =~= all);
    out.append("];\n");
}

} // verus!
