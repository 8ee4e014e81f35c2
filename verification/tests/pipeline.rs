use sprite_compiler::bitmap::{Bitmap, Rect};
use sprite_compiler::color::{Rgb, Rgba};
use sprite_compiler::error::CompileError;
use sprite_compiler::sprites::{Sprite, SpritesBuilder, SpritesDesc};
use sprite_compiler::{compile, SpriteSheet};

fn whole(name: &str, w: usize, h: usize) -> SpritesDesc {
    SpritesDesc { sprites: vec![(name.to_string(), Sprite { rect: Rect { x: 0, y: 0, w, h } })] }
}

fn tint(n: u32) -> Rgb {
    Rgb { r: (n % 256) as u8, g: (n / 256) as u8, b: 99 }
}

/// A bitmap whose pixels are the colours `from`, `from + 1`, ... row after row.
fn rainbow(width: usize, height: usize, from: u32) -> Bitmap<Rgb> {
    let buffer: Vec<Rgb> = (0..(width * height) as u32).map(|n| tint(from + n)).collect();
    Bitmap::new(width, height, buffer).unwrap()
}

fn array(values: &[u8]) -> String {
    format!("{:?}", values)
}

#[test]
fn three_opaque_colors_compile_to_two_tiles() {
    let red = Rgb { r: 255, g: 0, b: 0 };
    let green = Rgb { r: 0, g: 255, b: 0 };
    let blue = Rgb { r: 0, g: 0, b: 255 };
    // Left tile: red with one green pixel. Right tile: blue.
    let mut buffer = Vec::new();
    for y in 0..8usize {
        for x in 0..16usize {
            buffer.push(if x >= 8 {
                blue
            } else if x == 3 && y == 2 {
                green
            } else {
                red
            });
        }
    }
    let mut builder: SpritesBuilder<Rgb> = SpritesBuilder::new();
    builder.add(&whole("flag", 16, 8), &Bitmap::new(16, 8, buffer.clone()).unwrap()).unwrap();
    let compiled = builder.compile().unwrap();

    assert_eq!(compiled.palette().colors(), &vec![red, green, blue]);
    assert_eq!(compiled.sprite_count(), 1);
    let tiles = compiled.sprite_tiles(0);
    assert_eq!(tiles.len(), 2);
    let mut left = vec![0u8; 64];
    left[2 * 8 + 3] = 1;
    assert_eq!(tiles[0], left);
    assert_eq!(tiles[1], vec![2u8; 64]);
    for tile in tiles {
        assert_eq!(tile.len(), 64);
        for index in tile {
            assert!(*index <= 2);
        }
    }

    let sheets = vec![SpriteSheet {
        desc: whole("flag", 16, 8),
        bmp: Bitmap::new(16, 8, buffer).unwrap(),
    }];
    let text = compile(&sheets).unwrap();
    assert_eq!(
        text,
        format!(
            "use ::gba::mmio_types::Color;\n\npub const PALETTE: &'static [Color] = &[\n    Color::from_rgb(31, 0, 0),\n    Color::from_rgb(0, 31, 0),\n    Color::from_rgb(0, 0, 31),\n];\n\npub const FLAG: &'static [[u8; 64]] = &[\n    {},\n    {},\n];\n",
            array(&left),
            array(&[2u8; 64])
        )
    );
}

#[test]
fn one_transparent_pixel_among_one_opaque_color() {
    let clear = Rgba { r: 12, g: 34, b: 56, a: 0 };
    let ink = Rgba { r: 200, g: 100, b: 50, a: 255 };
    let mut buffer = vec![ink; 64];
    buffer[5 * 8 + 6] = clear;
    let mut builder: SpritesBuilder<Rgba> = SpritesBuilder::new();
    builder.add(&whole("blot", 8, 8), &Bitmap::new(8, 8, buffer.clone()).unwrap()).unwrap();
    let compiled = builder.compile().unwrap();

    assert_eq!(compiled.palette().colors(), &vec![Rgb { r: 200, g: 100, b: 50 }]);
    let tiles = compiled.sprite_tiles(0);
    assert_eq!(tiles.len(), 1);
    assert_eq!(tiles[0].len(), 64);
    assert_eq!(tiles[0].iter().filter(|i| **i == 0).count(), 1);
    assert_eq!(tiles[0].iter().filter(|i| **i == 1).count(), 63);
    assert_eq!(tiles[0][5 * 8 + 6], 0);

    let mut expected = vec![1u8; 64];
    expected[5 * 8 + 6] = 0;
    let sheets = vec![SpriteSheet {
        desc: whole("blot", 8, 8),
        bmp: Bitmap::new(8, 8, buffer).unwrap(),
    }];
    assert_eq!(
        compile(&sheets).unwrap(),
        format!(
            "use ::gba::mmio_types::Color;\n\npub const PALETTE: &'static [Color] = &[\n    Color::from_rgb(0, 0, 0),\n    Color::from_rgb(25, 12, 6),\n];\n\npub const BLOT: &'static [[u8; 64]] = &[\n    {},\n];\n",
            array(&expected)
        )
    );
}

#[test]
fn overflow_in_one_sprite() {
    // 24 × 16 pixels: 384 distinct colours in one sprite.
    let mut builder: SpritesBuilder<Rgb> = SpritesBuilder::new();
    builder.add(&whole("big", 24, 16), &rainbow(24, 16, 0)).unwrap();
    assert_eq!(builder.compile().err(), Some(CompileError::PaletteOverflow { capacity: 256 }));
}

#[test]
fn overflow_by_the_257th_color_across_sprites() {
    // Four sprites of 64 colours each fill the palette exactly.
    let mut sheets = Vec::new();
    for n in 0..4u32 {
        sheets.push(SpriteSheet {
            desc: whole(&format!("part{}", n), 8, 8),
            bmp: rainbow(8, 8, n * 64),
        });
    }
    assert!(compile(&sheets).is_ok());
    // A fifth sprite repeats 63 known colours and brings one new colour.
    let mut buffer: Vec<Rgb> = (0..63u32).map(tint).collect();
    buffer.push(tint(256));
    sheets.push(SpriteSheet { desc: whole("last", 8, 8), bmp: Bitmap::new(8, 8, buffer).unwrap() });
    assert_eq!(compile(&sheets), Err(CompileError::PaletteOverflow { capacity: 256 }));
}

#[test]
fn known_colors_never_overflow() {
    let mut sheets = Vec::new();
    for n in 0..4u32 {
        sheets.push(SpriteSheet {
            desc: whole(&format!("part{}", n), 8, 8),
            bmp: rainbow(8, 8, n * 64),
        });
    }
    sheets.push(SpriteSheet { desc: whole("again", 16, 16), bmp: rainbow(16, 16, 0) });
    assert!(compile(&sheets).is_ok());
}

#[test]
fn alpha_aware_run_overflows_at_the_256th_color() {
    let solid = |n: u32| Rgba { r: (n % 256) as u8, g: (n / 256) as u8, b: 1, a: 255 };
    let mut buffer: Vec<Rgba> = (0..255u32).map(solid).collect();
    buffer.push(Rgba { r: 0, g: 0, b: 0, a: 0 });
    let sheets =
        vec![SpriteSheet { desc: whole("full", 16, 16), bmp: Bitmap::new(16, 16, buffer).unwrap() }];
    assert!(compile(&sheets).is_ok());
    let buffer: Vec<Rgba> = (0..256u32).map(solid).collect();
    let sheets =
        vec![SpriteSheet { desc: whole("full", 16, 16), bmp: Bitmap::new(16, 16, buffer).unwrap() }];
    assert_eq!(compile(&sheets), Err(CompileError::PaletteOverflow { capacity: 255 }));
}

#[test]
fn partial_transparency_ends_the_run() {
    let mut buffer = vec![Rgba { r: 1, g: 2, b: 3, a: 255 }; 64];
    buffer[63] = Rgba { r: 1, g: 2, b: 3, a: 77 };
    let sheets = vec![
        SpriteSheet {
            desc: whole("fine", 8, 8),
            bmp: Bitmap::new(8, 8, vec![Rgba { r: 9, g: 9, b: 9, a: 255 }; 64]).unwrap(),
        },
        SpriteSheet { desc: whole("hazy", 8, 8), bmp: Bitmap::new(8, 8, buffer).unwrap() },
    ];
    assert_eq!(compile(&sheets), Err(CompileError::InvalidTransparency { alpha: 77 }));
}

#[test]
fn partial_transparency_outside_every_tile_is_never_seen() {
    let mut buffer = vec![Rgba { r: 1, g: 2, b: 3, a: 255 }; 9 * 8];
    buffer[8] = Rgba { r: 1, g: 2, b: 3, a: 77 };
    let sheets =
        vec![SpriteSheet { desc: whole("edge", 9, 8), bmp: Bitmap::new(9, 8, buffer).unwrap() }];
    assert!(compile(&sheets).is_ok());
}

#[test]
fn rect_outside_the_sheet_ends_the_run() {
    let sheets = vec![
        SpriteSheet { desc: whole("fits", 8, 8), bmp: rainbow(8, 8, 0) },
        SpriteSheet {
            desc: SpritesDesc {
                sprites: vec![
                    ("ok".to_string(), Sprite { rect: Rect { x: 0, y: 0, w: 8, h: 8 } }),
                    ("also".to_string(), Sprite { rect: Rect { x: 8, y: 8, w: 8, h: 8 } }),
                    ("off".to_string(), Sprite { rect: Rect { x: 9, y: 8, w: 8, h: 8 } }),
                ],
            },
            bmp: rainbow(16, 16, 0),
        },
    ];
    assert_eq!(compile(&sheets), Err(CompileError::RectOutOfBounds { entry: 2 }));
}

#[test]
fn run_without_sheets_gives_an_empty_palette() {
    let sheets: Vec<SpriteSheet<Rgb>> = Vec::new();
    assert_eq!(
        compile(&sheets).unwrap(),
        "use ::gba::mmio_types::Color;\n\npub const PALETTE: &'static [Color] = &[\n];\n\n"
    );
}

#[test]
fn same_sheets_give_the_same_text() {
    let make = || {
        vec![
            SpriteSheet { desc: whole("b", 8, 8), bmp: rainbow(8, 8, 10) },
            SpriteSheet { desc: whole("a", 16, 8), bmp: rainbow(16, 8, 40) },
            SpriteSheet { desc: whole("c", 8, 16), bmp: rainbow(8, 16, 0) },
        ]
    };
    let first = compile(&make()).unwrap();
    for _ in 0..5 {
        assert_eq!(compile(&make()).unwrap(), first);
    }
    // The sprites stand in the order of the sheets.
    let b = first.find("pub const B:").unwrap();
    let a = first.find("pub const A:").unwrap();
    let c = first.find("pub const C:").unwrap();
    assert!(b < a && a < c);
}

#[test]
fn two_sheets_share_one_palette() {
    let white = Rgb { r: 255, g: 255, b: 255 };
    let black = Rgb { r: 0, g: 0, b: 0 };
    let sheets = vec![
        SpriteSheet {
            desc: whole("day", 8, 8),
            bmp: Bitmap::new(8, 8, vec![white; 64]).unwrap(),
        },
        SpriteSheet {
            desc: whole("night", 8, 8),
            bmp: Bitmap::new(8, 8, vec![black; 64]).unwrap(),
        },
        SpriteSheet {
            desc: whole("noon", 8, 8),
            bmp: Bitmap::new(8, 8, vec![white; 64]).unwrap(),
        },
    ];
    assert_eq!(
        compile(&sheets).unwrap(),
        format!(
            "use ::gba::mmio_types::Color;\n\npub const PALETTE: &'static [Color] = &[\n    Color::from_rgb(31, 31, 31),\n    Color::from_rgb(0, 0, 0),\n];\n\npub const DAY: &'static [[u8; 64]] = &[\n    {z},\n];\npub const NIGHT: &'static [[u8; 64]] = &[\n    {o},\n];\npub const NOON: &'static [[u8; 64]] = &[\n    {z},\n];\n",
            z = array(&[0u8; 64]),
            o = array(&[1u8; 64])
        )
    );
}
