use sprite_compiler::color::{Rgb, Rgba};
use sprite_compiler::compiled::CompiledSprites;
use sprite_compiler::palette::Palette;
use sprite_compiler::text::{write_color, write_decimal, write_palette, write_sprite, write_tile};

fn decimal_of(n: u8) -> String {
    let mut out = String::new();
    write_decimal(&mut out, n);
    out
}

#[test]
fn numbers_are_written_in_decimal() {
    assert_eq!(decimal_of(0), "0");
    assert_eq!(decimal_of(7), "7");
    assert_eq!(decimal_of(9), "9");
    assert_eq!(decimal_of(10), "10");
    assert_eq!(decimal_of(42), "42");
    assert_eq!(decimal_of(99), "99");
    assert_eq!(decimal_of(100), "100");
    assert_eq!(decimal_of(101), "101");
    assert_eq!(decimal_of(110), "110");
    assert_eq!(decimal_of(209), "209");
    assert_eq!(decimal_of(255), "255");
}

#[test]
fn every_number_is_written_as_the_standard_library_writes_it() {
    for n in 0..=255u8 {
        assert_eq!(decimal_of(n), format!("{}", n));
    }
}

#[test]
fn writing_appends() {
    let mut out = String::from("x = ");
    write_decimal(&mut out, 31);
    assert_eq!(out, "x = 31");
}

#[test]
fn color_channels_are_cut_down_to_five_bits() {
    let mut out = String::new();
    write_color(&mut out, Rgb { r: 255, g: 8, b: 7 });
    assert_eq!(out, "    Color::from_rgb(31, 1, 0),\n");
    let mut out = String::new();
    write_color(&mut out, Rgb { r: 128, g: 64, b: 200 });
    assert_eq!(out, "    Color::from_rgb(16, 8, 25),\n");
    let mut out = String::new();
    write_color(&mut out, Rgb { r: 0, g: 0, b: 0 });
    assert_eq!(out, "    Color::from_rgb(0, 0, 0),\n");
}

#[test]
fn tiles_are_written_as_arrays() {
    let mut out = String::new();
    write_tile(&mut out, &vec![0, 1, 20, 255]);
    assert_eq!(out, "[0, 1, 20, 255]");
    let mut out = String::new();
    write_tile(&mut out, &vec![3]);
    assert_eq!(out, "[3]");
    let mut out = String::new();
    write_tile(&mut out, &Vec::new());
    assert_eq!(out, "[]");
    let tile: Vec<u8> = (0..64).collect();
    let mut out = String::new();
    write_tile(&mut out, &tile);
    assert_eq!(out, format!("{:?}", tile));
}

#[test]
fn sprite_is_written_under_its_identifier() {
    let mut out = String::new();
    write_sprite(&mut out, "HERO", &vec![vec![1, 2], vec![3]]);
    assert_eq!(out, "pub const HERO: &'static [[u8; 64]] = &[\n    [1, 2],\n    [3],\n];\n");
    let mut out = String::new();
    write_sprite(&mut out, "NONE", &Vec::new());
    assert_eq!(out, "pub const NONE: &'static [[u8; 64]] = &[\n];\n");
}

#[test]
fn empty_palette_has_no_entries() {
    let palette: Palette<Rgba> = Palette::new();
    let mut out = String::new();
    write_palette(&mut out, &palette);
    assert_eq!(out, "pub const PALETTE: &'static [Color] = &[\n];\n\n");
    let palette: Palette<Rgb> = Palette::new();
    let mut out = String::new();
    write_palette(&mut out, &palette);
    assert_eq!(out, "pub const PALETTE: &'static [Color] = &[\n];\n\n");
}

#[test]
fn alpha_agnostic_palette_is_written_from_index_zero() {
    let mut palette: Palette<Rgb> = Palette::new();
    palette.palette_index(Rgb { r: 8, g: 16, b: 24 }).unwrap();
    palette.palette_index(Rgb { r: 255, g: 255, b: 255 }).unwrap();
    let mut out = String::new();
    write_palette(&mut out, &palette);
    assert_eq!(
        out,
        "pub const PALETTE: &'static [Color] = &[\n    Color::from_rgb(1, 2, 3),\n    Color::from_rgb(31, 31, 31),\n];\n\n"
    );
}

#[test]
fn alpha_aware_palette_is_written_with_a_black_entry_zero() {
    let mut palette: Palette<Rgba> = Palette::new();
    palette.palette_index(Rgba { r: 8, g: 16, b: 24, a: 255 }).unwrap();
    let mut out = String::new();
    write_palette(&mut out, &palette);
    assert_eq!(
        out,
        "pub const PALETTE: &'static [Color] = &[\n    Color::from_rgb(0, 0, 0),\n    Color::from_rgb(1, 2, 3),\n];\n\n"
    );
}

#[test]
fn full_palettes_are_written_with_256_entries() {
    let mut palette: Palette<Rgb> = Palette::new();
    for n in 0..256u32 {
        palette.palette_index(Rgb { r: n as u8, g: 0, b: 0 }).unwrap();
    }
    let mut out = String::new();
    write_palette(&mut out, &palette);
    assert_eq!(out.matches("Color::from_rgb(").count(), 256);
    let mut palette: Palette<Rgba> = Palette::new();
    for n in 0..255u32 {
        palette.palette_index(Rgba { r: n as u8, g: 0, b: 0, a: 255 }).unwrap();
    }
    let mut out = String::new();
    write_palette(&mut out, &palette);
    assert_eq!(out.matches("Color::from_rgb(").count(), 256);
}

#[test]
fn sprite_names_are_written_in_upper_case() {
    let mut compiled: CompiledSprites<Rgb> = CompiledSprites::new();
    compiled.add_sprite("hero_walk1".to_string(), Vec::new());
    compiled.add_sprite("Straße".to_string(), Vec::new());
    let mut out = String::new();
    compiled.write_to(&mut out);
    assert_eq!(
        out,
        "use ::gba::mmio_types::Color;\n\npub const PALETTE: &'static [Color] = &[\n];\n\npub const HERO_WALK1: &'static [[u8; 64]] = &[\n];\npub const STRASSE: &'static [[u8; 64]] = &[\n];\n"
    );
}

#[test]
fn compiled_set_is_written_after_what_is_there() {
    let mut compiled: CompiledSprites<Rgba> = CompiledSprites::new();
    compiled.palette_index(Rgba { r: 80, g: 160, b: 240, a: 255 }).unwrap();
    compiled.add_sprite("dot".to_string(), vec![vec![1u8; 64]]);
    let mut out = String::from("// data\n");
    compiled.write_to(&mut out);
    let ones = vec!["1"; 64].join(", ");
    assert_eq!(
        out,
        format!(
            "// data\nuse ::gba::mmio_types::Color;\n\npub const PALETTE: &'static [Color] = &[\n    Color::from_rgb(0, 0, 0),\n    Color::from_rgb(10, 20, 30),\n];\n\npub const DOT: &'static [[u8; 64]] = &[\n    [{}],\n];\n",
            ones
        )
    );
}
