//! A tile: a rectangle of the framebuffer together with the raw RGB image
//! last drawn into it.

use crate::decoding::{decodes, load_rgb, scaled_rgb, ImageLoadError};
use crate::frame::{
    blitted, colors, covers, lemma_covered_entry, lemma_pixel_at_injective, lemma_tile_index, pack_rgb,
    pixel_at, tile_index, HEIGHT, WIDTH,
};
use crate::rotation::{is_quarter_turn, lemma_pixel_offset, rotated, rotation_in_bounds, source_pixel};
use vstd::prelude::*;

verus! {

/// What a tile holds: its origin in the framebuffer, its size, and its
/// image as `width * height` pixels of three bytes (red, green, blue) each.
pub struct TileView {
    pub x: u32,
    pub y: u32,
    pub width: u32,
    pub height: u32,
    pub image: Seq<u8>,
}

/// A rectangle of the framebuffer and the image drawn into it.
pub struct Tile {
    x: u32,
    y: u32,
    width: u32,
    height: u32,
    image: Vec<u8>,
}

/// Whether `image` is a raw RGB image of `width × height` pixels, of a size
/// for which every buffer the decoder builds for it fits in memory.
pub open spec fn image_fits(width: u32, height: u32, image: Seq<u8>) -> bool {
    &&& image.len() == width * height * 3
    &&& width * height * 4 <= usize::MAX
}

impl View for Tile {
    type V = TileView;

    closed spec fn view(&self) -> TileView {
        TileView {
            x: self.x,
            y: self.y,
            width: self.width,
            height: self.height,
            image: self.image@,
        }
    }
}

impl Tile {
    #[verifier::type_invariant]
    spec fn inv(&self) -> bool {
        image_fits(self.width, self.height, self.image@)
    }

    /// A tile at `(x, y)` of `width × height` pixels showing `image`.
    pub fn new(x: u32, y: u32, width: u32, height: u32, image: Vec<u8>) -> (t: Tile)
        requires
            image_fits(width, height, image@),
        ensures
            t@ == (TileView { x, y, width, height, image: image@ }),
    {
        Tile { x, y, width, height, image }
    }

    /// Replaces this tile's image by `pixels`, a raw RGB image of the tile's
    /// size, and copies it, turned by `rotation` degrees, into `buffer` at the
    /// tile's origin.
    pub fn draw_pixels(&mut self, buffer: &mut Vec<u32>, rotation: u16, pixels: Vec<u8>)
        requires
            old(buffer)@.len() == WIDTH * HEIGHT,
            pixels@.len() == old(self)@.width * old(self)@.height * 3,
            old(self)@.width <= WIDTH,
            rotation_in_bounds(old(self)@.width as int, old(self)@.height as int, rotation),
        ensures
            final(self)@ == (TileView { image: pixels@, ..old(self)@ }),
            final(buffer)@ == blitted(
                old(buffer)@,
                old(self)@.x as int,
                old(self)@.y as int,
                old(self)@.width as int,
                old(self)@.height as int,
                colors(rotated(pixels@, old(self)@.width as int, old(self)@.height as int, rotation)),
            ),
    {
        proof {
            use_type_invariant(&*self);
        }
        let mut raw_image = pixels.clone();
        assert(raw_image@ =~= pixels@);
        self.rotate(&mut raw_image, rotation);
        self.blit(buffer, &raw_image);
        self.image = pixels;
    }

    /// Decodes the image file held in `image`, scales it to the tile's size,
    /// keeps it as the tile's image and copies it, turned by `rotation`
    /// degrees, into `buffer` at the tile's origin. Where the file cannot be
    /// decoded, the tile and the buffer are left as they were.
    pub fn draw(&mut self, buffer: &mut Vec<u32>, rotation: u16, image: &[u8]) -> (r: Result<
        (),
        ImageLoadError,
    >)
        requires
            old(buffer)@.len() == WIDTH * HEIGHT,
            old(self)@.width <= WIDTH,
            rotation_in_bounds(old(self)@.width as int, old(self)@.height as int, rotation),
        ensures
            r.is_ok() == decodes(image@),
            r.is_err() ==> final(self)@ == old(self)@ && final(buffer)@ == old(buffer)@,
            r.is_ok() ==> {
                &&& final(self)@ == (TileView {
                    image: scaled_rgb(image@, old(self)@.width, old(self)@.height),
                    ..old(self)@
                })
                &&& final(self)@.image.len() == old(self)@.width * old(self)@.height * 3
                &&& final(buffer)@ == blitted(
                    old(buffer)@,
                    old(self)@.x as int,
                    old(self)@.y as int,
                    old(self)@.width as int,
                    old(self)@.height as int,
                    colors(
                        rotated(
                            final(self)@.image,
                            old(self)@.width as int,
                            old(self)@.height as int,
                            rotation,
                        ),
                    ),
                )
            },
    {
        proof {
            use_type_invariant(&*self);
        }
        match load_rgb(image, self.width, self.height) {
            Ok(pixels) => {
                self.draw_pixels(buffer, rotation, pixels);
                Ok(())
            },
            Err(e) => Err(e),
        }
    }

    /// Turns `raw_image` by `rotation` degrees: 90, 180 and 270 remap the
    /// pixels of a raw RGB image of this tile's size, any other value leaves
    /// the buffer as it is, whatever it holds.
    pub fn rotate(&self, raw_image: &mut Vec<u8>, rotation: u16)
        requires
            is_quarter_turn(rotation) ==> old(raw_image)@.len() == self@.width * self@.height * 3,
            rotation_in_bounds(self@.width as int, self@.height as int, rotation),
        ensures
            final(raw_image)@ == rotated(
                old(raw_image)@,
                self@.width as int,
                self@.height as int,
                rotation,
            ),
            rotation == 0 ==> final(raw_image)@ == old(raw_image)@,
    {
        if rotation != 90 && rotation != 180 && rotation != 270 {
            return ;
        }
        let w = self.width as usize;
        let h = self.height as usize;
        let ghost target = rotated(raw_image@, w as int, h as int, rotation);
        let len: usize = raw_image.len();
        let mut out: Vec<u8> = vec![0u8; len];
        let mut i: usize = 0;
        while i < w
            invariant
                w == self@.width,
                h == self@.height,
                raw_image@.len() == w * h * 3,
                w * h * 3 <= usize::MAX,
                out@.len() == raw_image@.len(),
                i <= w,
                rotation == 90 || rotation == 180 || rotation == 270,
                rotation_in_bounds(w as int, h as int, rotation),
                target == rotated(raw_image@, w as int, h as int, rotation),
                forall|b: int| 0 <= b < 3 * (i * h) ==> #[trigger] out@[b] == target[b],
            decreases w - i,
        {
            let mut j: usize = 0;
            while j < h
                invariant
                    w == self@.width,
                    h == self@.height,
                    raw_image@.len() == w * h * 3,
                    w * h * 3 <= usize::MAX,
                    out@.len() == raw_image@.len(),
                    i < w,
                    j <= h,
                    rotation == 90 || rotation == 180 || rotation == 270,
                    rotation_in_bounds(w as int, h as int, rotation),
                    target == rotated(raw_image@, w as int, h as int, rotation),
                    forall|b: int| 0 <= b < 3 * (i * h + j) ==> #[trigger] out@[b] == target[b],
                decreases h - j,
            {
                assert(i * h + j < w * h && 3 * (i * h + j) + 2 < 3 * (w * h)) by (nonlinear_arith)
                    requires
                        i < w,
                        j < h,
                ;
                let src: usize = if rotation == 90 {
                    assert(j * w + (w - i - 1) < w * h) by (nonlinear_arith)
                        requires
                            i < w,
                            j < h,
                    ;
                    j * w + (w - i - 1)
                } else if rotation == 180 {
                    assert((w - i - 1) * w + (h - j - 1) < w * h) by (nonlinear_arith)
                        requires
                            i < w,
                            j < h,
                            w <= h,
                    ;
                    (w - i - 1) * w + (h - j - 1)
                } else {
                    assert((h - j - 1) * w + i < w * h) by (nonlinear_arith)
                        requires
                            i < w,
                            j < h,
                    ;
                    (h - j - 1) * w + i
                };
                let n = i * h + j;
                proof {
                    lemma_pixel_offset(i as int, j as int, h as int, 0);
                    lemma_pixel_offset(i as int, j as int, h as int, 1);
                    lemma_pixel_offset(i as int, j as int, h as int, 2);
                    assert(source_pixel(w as int, h as int, rotation, n as int) == src);
                }
                out[3 * n] = raw_image[3 * src];
                out[3 * n + 1] = raw_image[3 * src + 1];
                out[3 * n + 2] = raw_image[3 * src + 2];
                assert(3 * (i * h + (j + 1)) == 3 * n + 3);
                j = j + 1;
            }
            assert(3 * ((i + 1) * h) == 3 * (i * h + h)) by (nonlinear_arith);
            i = i + 1;
        }
        assert(3 * (w * h) == raw_image@.len());
        assert(out@ =~= target);
        *raw_image = out;
    }

    /// Copies `raw_image`, a raw RGB image of this tile's size, into the
    /// tile's rectangle of `buffer`: row `r`, column `c` of the tile goes to
    /// entry `(y + r) * WIDTH + x + c`, and a pixel whose entry lies past the
    /// end of the framebuffer is dropped.
    pub fn blit(&self, buffer: &mut Vec<u32>, raw_image: &Vec<u8>)
        requires
            old(buffer)@.len() == WIDTH * HEIGHT,
            raw_image@.len() == self@.width * self@.height * 3,
            self@.width <= WIDTH,
        ensures
            final(buffer)@ == blitted(
                old(buffer)@,
                self@.x as int,
                self@.y as int,
                self@.width as int,
                self@.height as int,
                colors(raw_image@),
            ),
    {
        let ghost old_buf = buffer@;
        let ghost cs = colors(raw_image@);
        let ghost (x, y) = (self.x as int, self.y as int);
        let w = self.width as usize;
        let h = self.height as usize;
        let bytes: usize = raw_image.len();
        let total: u64 = WIDTH as u64 * HEIGHT as u64;
        let mut r: usize = 0;
        while r < h
            invariant
                w == self@.width,
                h == self@.height,
                w <= WIDTH,
                x == self.x,
                y == self.y,
                raw_image@.len() == w * h * 3,
                bytes == raw_image@.len(),
                total == WIDTH * HEIGHT,
                cs == colors(raw_image@),
                buffer@.len() == old_buf.len(),
                old_buf.len() == WIDTH * HEIGHT,
                r <= h,
                forall|p: int|
                    0 <= p < old_buf.len() ==> #[trigger] buffer@[p] == if covers(x, y, w as int, h as int, p)
                        && pixel_at(x, y, w as int, p) < r * w {
                        cs[pixel_at(x, y, w as int, p)]
                    } else {
                        old_buf[p]
                    },
            decreases h - r,
        {
            let mut c: usize = 0;
            while c < w
                invariant
                    w == self@.width,
                    h == self@.height,
                    w <= WIDTH,
                    x == self.x,
                    y == self.y,
                    raw_image@.len() == w * h * 3,
                    bytes == raw_image@.len(),
                    total == WIDTH * HEIGHT,
                    cs == colors(raw_image@),
                    buffer@.len() == old_buf.len(),
                    old_buf.len() == WIDTH * HEIGHT,
                    r < h,
                    c <= w,
                    forall|p: int|
                        0 <= p < old_buf.len() ==> #[trigger] buffer@[p] == if covers(
                            x,
                            y,
                            w as int,
                            h as int,
                            p,
                        ) && pixel_at(x, y, w as int, p) < r * w + c {
                            cs[pixel_at(x, y, w as int, p)]
                        } else {
                            old_buf[p]
                        },
                decreases w - c,
            {
                assert(r * w + c < w * h && 3 * (r * w + c) + 2 < 3 * (w * h)) by (nonlinear_arith)
                    requires
                        r < h,
                        c < w,
                ;
                let k = r * w + c;
                let color = pack_rgb(raw_image[3 * k], raw_image[3 * k + 1], raw_image[3 * k + 2]);
                assert(color == cs[k as int]);
                assert((self.y as u64 + r as u64) * WIDTH as u64 <= 2 * u32::MAX * WIDTH) by (nonlinear_arith)
                    requires
                        self.y <= u32::MAX,
                        r < h,
                        h <= u32::MAX,
                ;
                let q: u64 = (self.y as u64 + r as u64) * WIDTH as u64 + self.x as u64 + c as u64;
                proof {
                    lemma_tile_index(x, y, w as int, h as int, r as int, c as int);
                    assert(q == tile_index(x, y, r as int, c as int));
                }
                let ghost before = buffer@;
                if q < total {
                    buffer[q as usize] = color;
                }
                assert forall|p: int| 0 <= p < old_buf.len() implies #[trigger] buffer@[p] == if covers(
                    x,
                    y,
                    w as int,
                    h as int,
                    p,
                ) && pixel_at(x, y, w as int, p) < r * w + c + 1 {
                    cs[pixel_at(x, y, w as int, p)]
                } else {
                    old_buf[p]
                } by {
                    assert(before[p] == if covers(x, y, w as int, h as int, p) && pixel_at(
                        x,
                        y,
                        w as int,
                        p,
                    ) < r * w + c {
                        cs[pixel_at(x, y, w as int, p)]
                    } else {
                        old_buf[p]
                    });
                    if p != q && covers(x, y, w as int, h as int, p) && pixel_at(x, y, w as int, p)
                        == k {
                        lemma_pixel_at_injective(x, y, w as int, h as int, p, q as int);
                    }
                }
                c = c + 1;
            }
            assert(r * w + w == (r + 1) * w) by (nonlinear_arith);
            r = r + 1;
        }
        assert forall|p: int| 0 <= p < old_buf.len() implies #[trigger] buffer@[p] == blitted(
            old_buf,
            x,
            y,
            w as int,
            h as int,
            cs,
        )[p] by {
            if covers(x, y, w as int, h as int, p) {
                lemma_covered_entry(x, y, w as int, h as int, p);
                assert(h * w == w * h) by (nonlinear_arith);
            }
        }
        assert(buffer@ =~= blitted(old_buf, x, y, w as int, h as int, cs));
    }

    /// Column of the tile's origin in the framebuffer.
    pub fn x(&self) -> (r: u32)
        ensures
            r == self@.x,
    {
        self.x
    }

    /// Row of the tile's origin in the framebuffer.
    pub fn y(&self) -> (r: u32)
        ensures
            r == self@.y,
    {
        self.y
    }

    /// Width of the tile, in pixels.
    pub fn width(&self) -> (r: u32)
        ensures
            r == self@.width,
    {
        self.width
    }

    /// Height of the tile, in pixels.
    pub fn height(&self) -> (r: u32)
        ensures
            r == self@.height,
    {
        self.height
    }

    /// The tile's image, unturned, three bytes per pixel in row-major order.
    pub fn image(&self) -> (r: &Vec<u8>)
        ensures
            r@ == self@.image,
            r@.len() == self@.width * self@.height * 3,
    {
        proof {
            use_type_invariant(self);
        }
        &self.image
    }
}

} // verus!
