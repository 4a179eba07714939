//! Rotation of a raw RGB image, three bytes per pixel in row-major order,
//! by a multiple of 90 degrees, and the laws that quarter turns of a square
//! image obey.

use vstd::arithmetic::div_mod::{lemma_fundamental_div_mod, lemma_fundamental_div_mod_converse, lemma_mod_pos_bound};
use vstd::prelude::*;

verus! {

/// Whether `rotation` is one of the turns that remap pixels; every other
/// value leaves an image as it is.
pub open spec fn is_quarter_turn(rotation: u16) -> bool {
    rotation == 90 || rotation == 180 || rotation == 270
}

/// The pixel of a `w × h` source image that pixel `p` of the rotated image
/// takes its colour from, where pixel `p` of the result stands at grid
/// position `(i, j) = (p / h, p % h)`.
pub open spec fn source_pixel(w: int, h: int, rotation: u16, p: int) -> int {
    let i = p / h;
    let j = p % h;
    if rotation == 90 {
        j * w + (w - i - 1)
    } else if rotation == 180 {
        (w - i - 1) * w + (h - j - 1)
    } else if rotation == 270 {
        (h - j - 1) * w + i
    } else {
        p
    }
}

/// The raw image `raw` of `w × h` pixels after a turn by `rotation` degrees.
/// Byte `c` of pixel `p` of the result is byte `c` of its source pixel.
pub open spec fn rotated(raw: Seq<u8>, w: int, h: int, rotation: u16) -> Seq<u8> {
    if is_quarter_turn(rotation) {
        Seq::new(raw.len(), |b: int| raw[3 * source_pixel(w, h, rotation, b / 3) + b % 3])
    } else {
        raw
    }
}

/// Whether every source pixel that a turn reads lies inside a `w × h`
/// image: a half turn of a non-empty image that is wider than tall reads
/// past its end.
pub open spec fn rotation_in_bounds(w: int, h: int, rotation: u16) -> bool {
    rotation == 180 && h > 0 ==> w <= h
}

/// The turn made of a turn by `a` followed by a turn by `b`.
pub open spec fn turned(a: u16, b: u16) -> u16 {
    ((a + b) % 360) as u16
}

/// Whether `rotation` is one of the four multiples of 90 degrees below 360.
pub open spec fn is_right_angle(rotation: u16) -> bool {
    rotation == 0 || is_quarter_turn(rotation)
}

/// Row of the source pixel for grid position `(i, j)` of an `n × n` image.
pub open spec fn source_row(n: int, rotation: u16, i: int, j: int) -> int {
    if rotation == 90 {
        j
    } else if rotation == 180 {
        n - 1 - i
    } else if rotation == 270 {
        n - 1 - j
    } else {
        i
    }
}

/// Column of the source pixel for grid position `(i, j)` of an `n × n` image.
pub open spec fn source_col(n: int, rotation: u16, i: int, j: int) -> int {
    if rotation == 90 {
        n - 1 - i
    } else if rotation == 180 {
        n - 1 - j
    } else if rotation == 270 {
        i
    } else {
        j
    }
}

/// Byte `c` of pixel `i * h + j` sits at `3 * (i * h + j) + c`, and that
/// offset splits back into `i`, `j` and `c`.
pub proof fn lemma_pixel_offset(i: int, j: int, h: int, c: int)
    requires
        0 <= i,
        0 <= j < h,
        0 <= c < 3,
    ensures
        (3 * (i * h + j) + c) / 3 == i * h + j,
        (3 * (i * h + j) + c) % 3 == c,
        (i * h + j) / h == i,
        (i * h + j) % h == j,
{
    lemma_fundamental_div_mod_converse(3 * (i * h + j) + c, 3, i * h + j, c);
    lemma_fundamental_div_mod_converse(i * h + j, h, i, j);
}

/// Every byte offset below `3 * n * n` is `3 * (i * n + j) + c` for a grid
/// position `(i, j)` of an `n × n` image and a channel `c`.
proof fn lemma_split_offset(b: int, n: int)
    requires
        0 <= n,
        0 <= b < 3 * n * n,
    ensures
        0 <= (b / 3) / n < n,
        0 <= (b / 3) % n < n,
        0 <= b % 3 < 3,
        b == 3 * (((b / 3) / n) * n + (b / 3) % n) + b % 3,
{
    let p = b / 3;
    lemma_fundamental_div_mod(b, 3);
    lemma_mod_pos_bound(b, 3);
    assert(n > 0) by (nonlinear_arith)
        requires
            0 <= n,
            0 <= b < 3 * n * n,
    ;
    lemma_fundamental_div_mod(p, n);
    lemma_mod_pos_bound(p, n);
    let i = p / n;
    let j = p % n;
    assert(0 <= p < n * n) by (nonlinear_arith)
        requires
            b == 3 * p + b % 3,
            0 <= b % 3,
            0 <= b < 3 * n * n,
    ;
    assert(0 <= i < n) by (nonlinear_arith)
        requires
            p == n * i + j,
            0 <= j < n,
            0 <= p < n * n,
    ;
    assert(b == 3 * (i * n + j) + b % 3) by (nonlinear_arith)
        requires
            b == 3 * p + b % 3,
            p == n * i + j,
    ;
}

/// On an `n × n` image, a turn takes the pixel at grid position `(i, j)`
/// from row `source_row` and column `source_col` of the source.
proof fn lemma_square_pixel(raw: Seq<u8>, n: int, rotation: u16, i: int, j: int, c: int)
    requires
        raw.len() == 3 * n * n,
        0 <= i < n,
        0 <= j < n,
        0 <= c < 3,
    ensures
        0 <= 3 * (i * n + j) + c < raw.len(),
        0 <= 3 * (source_row(n, rotation, i, j) * n + source_col(n, rotation, i, j)) + c
            < raw.len(),
        rotated(raw, n, n, rotation)[3 * (i * n + j) + c] == raw[3 * (source_row(
            n,
            rotation,
            i,
            j,
        ) * n + source_col(n, rotation, i, j)) + c],
{
    lemma_pixel_offset(i, j, n, c);
    let r = source_row(n, rotation, i, j);
    let k = source_col(n, rotation, i, j);
    assert(0 <= r < n && 0 <= k < n);
    assert(0 <= 3 * (i * n + j) + c < 3 * n * n) by (nonlinear_arith)
        requires
            0 <= i < n,
            0 <= j < n,
            0 <= c < 3,
    ;
    assert(0 <= 3 * (r * n + k) + c < 3 * n * n) by (nonlinear_arith)
        requires
            0 <= r < n,
            0 <= k < n,
            0 <= c < 3,
    ;
    assert(source_pixel(n, n, rotation, i * n + j) == r * n + k) by (nonlinear_arith)
        requires
            (i * n + j) / n == i,
            (i * n + j) % n == j,
            r == source_row(n, rotation, i, j),
            k == source_col(n, rotation, i, j),
    ;
}

/// On a square image, a turn by `a` followed by a turn by `b` is the single
/// turn by `a + b` degrees, taken modulo a full turn.
pub proof fn lemma_rotation_compose(raw: Seq<u8>, n: nat, a: u16, b: u16)
    requires
        raw.len() == 3 * n * n,
        is_right_angle(a),
        is_right_angle(b),
    ensures
        rotated(rotated(raw, n as int, n as int, a), n as int, n as int, b) == rotated(
            raw,
            n as int,
            n as int,
            turned(a, b),
        ),
{
    let n = n as int;
    let mid = rotated(raw, n, n, a);
    let lhs = rotated(mid, n, n, b);
    let rhs = rotated(raw, n, n, turned(a, b));
    assert forall|o: int| 0 <= o < raw.len() implies lhs[o] == rhs[o] by {
        lemma_split_offset(o, n);
        let i = (o / 3) / n;
        let j = (o / 3) % n;
        let c = o % 3;
        lemma_square_pixel(mid, n, b, i, j, c);
        let r = source_row(n, b, i, j);
        let k = source_col(n, b, i, j);
        lemma_square_pixel(raw, n, a, r, k, c);
        lemma_square_pixel(raw, n, turned(a, b), i, j, c);
    }
    assert(lhs =~= rhs);
}

/// A turn by 0 degrees leaves any image as it is.
pub proof fn lemma_zero_turn_is_identity(raw: Seq<u8>, w: int, h: int)
    ensures
        rotated(raw, w, h, 0) == raw,
{
}

/// On a square image, two turns by 90 degrees are one turn by 180 degrees.
pub proof fn lemma_two_quarter_turns(raw: Seq<u8>, n: nat)
    requires
        raw.len() == 3 * n * n,
    ensures
        rotated(rotated(raw, n as int, n as int, 90), n as int, n as int, 90) == rotated(
            raw,
            n as int,
            n as int,
            180,
        ),
{
    lemma_rotation_compose(raw, n, 90, 90);
}

/// On a square image, four turns by 90 degrees give back the image.
pub proof fn lemma_four_quarter_turns(raw: Seq<u8>, n: nat)
    requires
        raw.len() == 3 * n * n,
    ensures
        rotated(
            rotated(
                rotated(rotated(raw, n as int, n as int, 90), n as int, n as int, 90),
                n as int,
                n as int,
                90,
            ),
            n as int,
            n as int,
            90,
        ) == raw,
{
    let n_ = n as int;
    let r1 = rotated(raw, n_, n_, 90);
    let r2 = rotated(r1, n_, n_, 90);
    let r3 = rotated(r2, n_, n_, 90);
    lemma_rotation_compose(raw, n, 90, 90);
    lemma_rotation_compose(raw, n, 180, 90);
    lemma_rotation_compose(raw, n, 270, 90);
}

} // verus!
