//! Glyph atlas: packs the 8x8 font into a single one-byte-per-pixel texture.
//!
//! Layout: cell 0 is a solid white square used for filled rectangles, cells 1.. hold the
//! glyphs for ASCII 32..=126. Cells are laid out row by row, `ATLAS_COLS` to a row.

use vstd::prelude::*;

use crate::font::{spec_cell_index, FONT_8X8};

verus! {

pub const ATLAS_COLS: u32 = 16;
pub const CELL_PX: u32 = 8;
pub const ATLAS_CELLS: u32 = 96;
pub const ATLAS_ROWS: u32 = (ATLAS_CELLS + ATLAS_COLS - 1) / ATLAS_COLS;
pub const ATLAS_W: u32 = ATLAS_COLS * CELL_PX;
pub const ATLAS_H: u32 = ATLAS_ROWS * CELL_PX;

/// Whether column `gx` of a glyph row is set.
pub open spec fn glyph_bit(bits: u8, gx: u32) -> bool {
    bits & (1u8 << gx) != 0
}

/// The value of pixel (`gx`, `gy`) of atlas cell `cell`: cell 0 is white throughout; cell
/// `c` from 1 on shows glyph `c - 1` of `font`, white where its bit is set, black elsewhere.
pub open spec fn cell_pixel(font: Seq<[u8; 8]>, cell: int, gx: u32, gy: int) -> u8 {
    if cell == 0 {
        255
    } else if 1 <= cell <= font.len() && glyph_bit(font[cell - 1]@[gy], gx) {
        255
    } else {
        0
    }
}

/// The position in the atlas, row-major, of pixel (`gx`, `gy`) of cell `cell`.
pub open spec fn pixel_index(cell: int, gx: int, gy: int) -> int {
    ((cell / 16) * 8 + gy) * 128 + (cell % 16) * 8 + gx
}

/// The value of the atlas at row-major position `p`.
pub open spec fn atlas_pixel(font: Seq<[u8; 8]>, p: int) -> u8 {
    let x = p % 128;
    let y = p / 128;
    cell_pixel(font, (y / 8) * 16 + x / 8, (x % 8) as u32, y % 8)
}

/// Pixel (`gx`, `gy`) of a cell lies inside the atlas, at the position that `atlas_pixel`
/// reads it from.
pub proof fn lemma_cell_layout(cell: int, gx: int, gy: int)
    requires
        0 <= cell < 96,
        0 <= gx < 8,
        0 <= gy < 8,
    ensures
        0 <= pixel_index(cell, gx, gy) < 128 * 48,
        pixel_index(cell, gx, gy) % 128 == (cell % 16) * 8 + gx,
        pixel_index(cell, gx, gy) / 128 == (cell / 16) * 8 + gy,
        ((pixel_index(cell, gx, gy) / 128) / 8) * 16 + (pixel_index(cell, gx, gy) % 128) / 8
            == cell,
        (pixel_index(cell, gx, gy) % 128) % 8 == gx,
        (pixel_index(cell, gx, gy) / 128) % 8 == gy,
{
    let row = cell / 16;
    let col = cell % 16;
    assert(0 <= row < 6 && 0 <= col < 16 && cell == row * 16 + col);
    let x = col * 8 + gx;
    let y = row * 8 + gy;
    assert(0 <= x < 128 && 0 <= y < 48);
    let p = y * 128 + x;
    assert(p == pixel_index(cell, gx, gy));
    assert(p % 128 == x && p / 128 == y) by (nonlinear_arith)
        requires
            p == y * 128 + x,
            0 <= x < 128,
            0 <= y,
    ;
    assert(x / 8 == col && x % 8 == gx) by (nonlinear_arith)
        requires
            x == col * 8 + gx,
            0 <= gx < 8,
            0 <= col,
    ;
    assert(y / 8 == row && y % 8 == gy) by (nonlinear_arith)
        requires
            y == row * 8 + gy,
            0 <= gy < 8,
            0 <= row,
    ;
}

/// The atlas texture: `ATLAS_W` by `ATLAS_H` bytes, row-major. Cell 0 is solid white, and
/// cell `c` from 1 to 95 shows the glyph of the character `c + 31`.
pub fn build_atlas() -> (px: Vec<u8>)
    ensures
        px@.len() == ATLAS_W * ATLAS_H,
        forall|p: int| 0 <= p < px@.len() ==> px@[p] == atlas_pixel(FONT_8X8@, p),
        forall|cell: int, gx: int, gy: int|
            0 <= cell < 96 && 0 <= gx < 8 && 0 <= gy < 8 ==> #[trigger] px@[pixel_index(cell, gx, gy)]
                == cell_pixel(FONT_8X8@, cell, gx as u32, gy),
{
    let n: u32 = ATLAS_W * ATLAS_H;
    let mut px: Vec<u8> = Vec::new();
    let mut p: u32 = 0;
    while p < n
        invariant
            n == 128 * 48,
            p <= n,
            px@.len() == p,
            forall|q: int| 0 <= q < p ==> px@[q] == atlas_pixel(FONT_8X8@, q),
        decreases n - p,
    {
        let x = p % ATLAS_W;
        let y = p / ATLAS_W;
        let cell = (y / CELL_PX) * ATLAS_COLS + x / CELL_PX;
        let gx = x % CELL_PX;
        let gy = y % CELL_PX;
        let v: u8 = if cell == 0 {
            255
        } else if cell <= 95 && FONT_8X8[(cell - 1) as usize][gy as usize] & (1u8 << gx) != 0 {
            255
        } else {
            0
        };
        px.push(v);
        p = p + 1;
    }
    assert forall|cell: int, gx: int, gy: int|
        0 <= cell < 96 && 0 <= gx < 8 && 0 <= gy < 8 implies #[trigger] px@[pixel_index(cell, gx, gy)]
            == cell_pixel(FONT_8X8@, cell, gx as u32, gy) by {
        lemma_cell_layout(cell, gx, gy);
    }
    px
}

/// The glyph of every printable ASCII byte sits in the atlas cell that `cell_index` gives
/// it: pixel (`gx`, `gy`) of that cell is white exactly where the byte's glyph has its bit.
pub proof fn lemma_glyph_cell(byte: u8, gx: u32, gy: int)
    requires
        32 <= byte <= 126,
        gx < 8,
        0 <= gy < 8,
    ensures
        spec_cell_index(byte) matches Some(cell) && 1 <= cell <= 95 && cell_pixel(
            FONT_8X8@,
            cell as int,
            gx,
            gy,
        ) == if glyph_bit(FONT_8X8@[byte - 32]@[gy], gx) {
            255u8
        } else {
            0u8
        },
{
}

/// The atlas layout in plain terms: pixel (`gx`, `gy`) of cell `c` sits at row
/// `(c / 16) * 8 + gy` and column `(c % 16) * 8 + gx` of a 128-pixel-wide image; cell 0 is
/// white throughout, and cell `c` from 1 to 95 is white exactly where bit `gx` of row `gy` of
/// glyph `c - 1` is set.
pub proof fn lemma_atlas_layout_plain(cell: int, gx: u32, gy: int)
    requires
        0 <= cell < 96,
        gx < 8,
        0 <= gy < 8,
    ensures
        pixel_index(cell, gx as int, gy) == ((cell / 16) * 8 + gy) * 128 + (cell % 16) * 8 + gx,
        cell == 0 ==> cell_pixel(FONT_8X8@, cell, gx, gy) == 255,
        cell > 0 ==> cell_pixel(FONT_8X8@, cell, gx, gy) == if FONT_8X8@[cell - 1]@[gy] & (1u8
            << gx) != 0 {
            255u8
        } else {
            0u8
        },
{
}

} // verus!
