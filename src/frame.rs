//! The framebuffer: its dimensions, the grid laid over it, and how one
//! pixel's three colour bytes become one packed framebuffer entry.

use vstd::arithmetic::div_mod::{lemma_fundamental_div_mod, lemma_fundamental_div_mod_converse, lemma_mod_pos_bound};
use vstd::prelude::*;

verus! {

/// Width of the framebuffer, in pixels.
pub const WIDTH: u32 = 640;

/// Height of the framebuffer, in pixels.
pub const HEIGHT: u32 = 640;

/// Number of tile columns in the grid.
pub const COLS: u32 = 8;

/// Number of tile rows in the grid.
pub const ROWS: u32 = 8;

/// Width of one grid cell, in pixels.
pub const CELL_WIDTH: u32 = WIDTH / COLS;

/// Height of one grid cell, in pixels.
pub const CELL_HEIGHT: u32 = HEIGHT / ROWS;

/// The packed value of a pixel: red in bits 16..24, green in bits 8..16,
/// blue in bits 0..8.
pub open spec fn packed(r: u8, g: u8, b: u8) -> u32 {
    (r as int * 0x10000 + g as int * 0x100 + b as int) as u32
}

/// Packs the three colour bytes of a pixel into one framebuffer entry,
/// `r << 16 | g << 8 | b`.
pub fn pack_rgb(r: u8, g: u8, b: u8) -> (p: u32)
    ensures
        p == packed(r, g, b),
        p as int == r as int * 0x10000 + g as int * 0x100 + b as int,
{
    let (r32, g32, b32) = (r as u32, g as u32, b as u32);
    assert((r32 << 16u32) | (g32 << 8u32) | b32 == r32 * 0x10000 + g32 * 0x100 + b32) by (bit_vector)
        requires
            r32 < 256,
            g32 < 256,
            b32 < 256,
    ;
    (r32 << 16u32) | (g32 << 8u32) | b32
}

/// Whether framebuffer entry `p` lies on a grid line: its index is a
/// multiple of the cell width, or its row is a multiple of the cell height.
pub open spec fn on_grid_line(p: int) -> bool {
    p % (CELL_WIDTH as int) == 0 || (p / (WIDTH as int)) % (CELL_HEIGHT as int) == 0
}

/// Paints the grid lines black over the framebuffer and leaves every other
/// entry as it is.
pub fn draw_grid_lines(buffer: &mut Vec<u32>)
    requires
        old(buffer)@.len() == WIDTH * HEIGHT,
    ensures
        final(buffer)@.len() == old(buffer)@.len(),
        forall|p: int|
            0 <= p < old(buffer)@.len() ==> #[trigger] final(buffer)@[p] == if on_grid_line(p) {
                0
            } else {
                old(buffer)@[p]
            },
{
    let ghost old_buf = buffer@;
    let mut i: u32 = 0;
    while i < HEIGHT
        invariant
            buffer@.len() == old_buf.len(),
            old_buf.len() == WIDTH * HEIGHT,
            i <= HEIGHT,
            forall|p: int|
                0 <= p < old_buf.len() ==> #[trigger] buffer@[p] == if p < i * WIDTH && on_grid_line(
                    p,
                ) {
                    0
                } else {
                    old_buf[p]
                },
        decreases HEIGHT - i,
    {
        let mut j: u32 = 0;
        while j < WIDTH
            invariant
                buffer@.len() == old_buf.len(),
                old_buf.len() == WIDTH * HEIGHT,
                i < HEIGHT,
                j <= WIDTH,
                forall|p: int|
                    0 <= p < old_buf.len() ==> #[trigger] buffer@[p] == if p < i * WIDTH + j
                        && on_grid_line(p) {
                        0
                    } else {
                        old_buf[p]
                    },
            decreases WIDTH - j,
        {
            let index = i * WIDTH + j;
            proof {
                lemma_fundamental_div_mod_converse(index as int, WIDTH as int, i as int, j as int);
            }
            if index % CELL_WIDTH == 0 || i % CELL_HEIGHT == 0 {
                buffer[index as usize] = 0;
            }
            j = j + 1;
        }
        i = i + 1;
    }
}

/// Packed colours of the pixels of a raw RGB image, in pixel order.
pub open spec fn colors(raw: Seq<u8>) -> Seq<u32> {
    Seq::new(raw.len() / 3, |k: int| packed(raw[3 * k], raw[3 * k + 1], raw[3 * k + 2]))
}

/// Index of the framebuffer entry for column `c` of row `r` of a tile whose
/// origin is at column `x` of row `y`.
pub open spec fn tile_index(x: int, y: int, r: int, c: int) -> int {
    (y + r) * WIDTH + x + c
}

/// Whether framebuffer entry `p` lies in the `w × h` rectangle of a tile
/// whose origin is at column `x` of row `y`.
pub open spec fn covers(x: int, y: int, w: int, h: int, p: int) -> bool {
    let d = p - (y * WIDTH + x);
    0 <= d && d / (WIDTH as int) < h && d % (WIDTH as int) < w
}

/// The pixel of a tile of width `w` with origin `(x, y)` that framebuffer
/// entry `p` of its rectangle shows.
pub open spec fn pixel_at(x: int, y: int, w: int, p: int) -> int {
    let d = p - (y * WIDTH + x);
    (d / (WIDTH as int)) * w + d % (WIDTH as int)
}

/// The framebuffer `buf` after a `w × h` tile with packed colours `cs` is
/// copied in at origin `(x, y)`: each entry of the tile's rectangle holds
/// the colour of its pixel, every other entry keeps its value, and pixels
/// whose entries would lie past the end are dropped.
pub open spec fn blitted(buf: Seq<u32>, x: int, y: int, w: int, h: int, cs: Seq<u32>) -> Seq<u32> {
    Seq::new(
        buf.len(),
        |p: int|
            if covers(x, y, w, h, p) {
                cs[pixel_at(x, y, w, p)]
            } else {
                buf[p]
            },
    )
}

/// Entry `tile_index(x, y, r, c)` lies in the tile's rectangle and shows
/// pixel `r * w + c`.
pub proof fn lemma_tile_index(x: int, y: int, w: int, h: int, r: int, c: int)
    requires
        0 <= r < h,
        0 <= c < w,
        w <= WIDTH,
    ensures
        covers(x, y, w, h, tile_index(x, y, r, c)),
        pixel_at(x, y, w, tile_index(x, y, r, c)) == r * w + c,
{
    let d = tile_index(x, y, r, c) - (y * WIDTH + x);
    assert(d == r * WIDTH + c) by (nonlinear_arith)
        requires
            d == tile_index(x, y, r, c) - (y * WIDTH + x),
    ;
    lemma_fundamental_div_mod_converse(d, WIDTH as int, r, c);
}

/// An entry of a tile's rectangle is `tile_index` of one row and column of
/// the tile, and its pixel lies below `w * h`.
pub proof fn lemma_covered_entry(x: int, y: int, w: int, h: int, p: int)
    requires
        covers(x, y, w, h, p),
    ensures
        0 <= (p - (y * WIDTH + x)) / (WIDTH as int) < h,
        0 <= (p - (y * WIDTH + x)) % (WIDTH as int) < w,
        p == tile_index(
            x,
            y,
            (p - (y * WIDTH + x)) / (WIDTH as int),
            (p - (y * WIDTH + x)) % (WIDTH as int),
        ),
        0 <= pixel_at(x, y, w, p) < w * h,
{
    let d = p - (y * WIDTH + x);
    let r = d / (WIDTH as int);
    let c = d % (WIDTH as int);
    lemma_fundamental_div_mod(d, WIDTH as int);
    lemma_mod_pos_bound(d, WIDTH as int);
    assert(r >= 0) by (nonlinear_arith)
        requires
            d >= 0,
            d == WIDTH * r + c,
            0 <= c < WIDTH,
    ;
    assert(p == tile_index(x, y, r, c)) by (nonlinear_arith)
        requires
            d == p - (y * WIDTH + x),
            d == WIDTH * r + c,
    ;
    assert(0 <= r * w + c < w * h) by (nonlinear_arith)
        requires
            0 <= r < h,
            0 <= c < w,
    ;
}

/// Two entries of a tile's rectangle that show the same pixel are one entry.
pub proof fn lemma_pixel_at_injective(x: int, y: int, w: int, h: int, p: int, q: int)
    requires
        covers(x, y, w, h, p),
        covers(x, y, w, h, q),
        pixel_at(x, y, w, p) == pixel_at(x, y, w, q),
    ensures
        p == q,
{
    lemma_covered_entry(x, y, w, h, p);
    lemma_covered_entry(x, y, w, h, q);
    let dp = p - (y * WIDTH + x);
    let dq = q - (y * WIDTH + x);
    let k = pixel_at(x, y, w, p);
    lemma_fundamental_div_mod_converse(k, w, dp / (WIDTH as int), dp % (WIDTH as int));
    lemma_fundamental_div_mod_converse(k, w, dq / (WIDTH as int), dq % (WIDTH as int));
}

/// Copying a `w × h` tile in at origin `(x, y)` writes, for every row `r`
/// and column `c` of the tile whose entry lies inside the framebuffer, the
/// colour of pixel `r * w + c` there; an entry past the end is dropped, and
/// every entry outside the tile's rectangle keeps its value.
pub proof fn lemma_blit_rect(buf: Seq<u32>, x: int, y: int, w: int, h: int, cs: Seq<u32>)
    requires
        w <= WIDTH,
    ensures
        blitted(buf, x, y, w, h, cs).len() == buf.len(),
        forall|r: int, c: int|
            0 <= r < h && 0 <= c < w && 0 <= #[trigger] tile_index(x, y, r, c) < buf.len()
                ==> blitted(buf, x, y, w, h, cs)[tile_index(x, y, r, c)] == cs[r * w + c],
        forall|p: int|
            0 <= p < buf.len() && (forall|r: int, c: int|
                0 <= r < h && 0 <= c < w ==> #[trigger] tile_index(x, y, r, c) != p) ==> #[trigger] blitted(
                buf,
                x,
                y,
                w,
                h,
                cs,
            )[p] == buf[p],
{
    assert forall|r: int, c: int|
        0 <= r < h && 0 <= c < w && 0 <= #[trigger] tile_index(x, y, r, c) < buf.len() implies blitted(
        buf,
        x,
        y,
        w,
        h,
        cs,
    )[tile_index(x, y, r, c)] == cs[r * w + c] by {
        lemma_tile_index(x, y, w, h, r, c);
    }
    assert forall|p: int|
        0 <= p < buf.len() && (forall|r: int, c: int|
            0 <= r < h && 0 <= c < w ==> #[trigger] tile_index(x, y, r, c) != p) implies #[trigger] blitted(
        buf,
        x,
        y,
        w,
        h,
        cs,
    )[p] == buf[p] by {
        if covers(x, y, w, h, p) {
            lemma_covered_entry(x, y, w, h, p);
            let d = p - (y * WIDTH + x);
            assert(tile_index(x, y, d / (WIDTH as int), d % (WIDTH as int)) == p);
        }
    }
}

} // verus!
