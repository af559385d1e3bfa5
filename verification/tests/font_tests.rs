use vulkan_todo::atlas::{build_atlas, ATLAS_H, ATLAS_W};
use vulkan_todo::font::{cell_index, FONT_8X8};

#[test]
fn font_covers_printable_ascii() {
    assert_eq!(cell_index(b' '), Some(1));
    assert_eq!(cell_index(b'~'), Some(95));
    assert_eq!(cell_index(b'\n'), None);
    assert!(FONT_8X8[b'!' as usize - 32].iter().any(|b| *b != 0));
}

#[test]
fn cell_index_bounds() {
    assert_eq!(cell_index(31), None);
    assert_eq!(cell_index(32), Some(1));
    assert_eq!(cell_index(b'A'), Some(34));
    assert_eq!(cell_index(126), Some(95));
    assert_eq!(cell_index(127), None);
    assert_eq!(cell_index(255), None);
}

fn pixel(px: &[u8], cell: u32, gx: u32, gy: u32) -> u8 {
    let x = (cell % 16) * 8 + gx;
    let y = (cell / 16) * 8 + gy;
    px[(y * ATLAS_W + x) as usize]
}

#[test]
fn atlas_size_and_white_cell() {
    let px = build_atlas();
    assert_eq!(ATLAS_W, 128);
    assert_eq!(ATLAS_H, 48);
    assert_eq!(px.len(), 128 * 48);
    for gy in 0..8 {
        for gx in 0..8 {
            assert_eq!(pixel(&px, 0, gx, gy), 255);
        }
    }
    assert_eq!(px[0], 255);
    assert_eq!(px[7], 255);
    assert_eq!(px[8 * 128 + 7], 0);
}

#[test]
fn atlas_holds_each_glyph_in_its_cell() {
    let px = build_atlas();
    for byte in 32u8..=126 {
        let cell = cell_index(byte).unwrap();
        let glyph = FONT_8X8[(byte - 32) as usize];
        for gy in 0..8u32 {
            for gx in 0..8u32 {
                let want = if glyph[gy as usize] & (1 << gx) != 0 { 255 } else { 0 };
                assert_eq!(pixel(&px, cell, gx, gy), want);
            }
        }
    }
    // the space is blank, '!' has its stem in columns 3 and 4 of the top row
    let space = cell_index(b' ').unwrap();
    assert!((0..8).all(|gy| (0..8).all(|gx| pixel(&px, space, gx, gy) == 0)));
    let bang = cell_index(b'!').unwrap();
    assert_eq!(bang, 2);
    assert_eq!(pixel(&px, bang, 3, 0), 255);
    assert_eq!(pixel(&px, bang, 4, 0), 255);
    assert_eq!(pixel(&px, bang, 0, 0), 0);
}
