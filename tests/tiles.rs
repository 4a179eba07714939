use std::collections::HashSet;
use std::io::Cursor;

use tileboard::{load_rgb, pack_rgb, Board, ImageLoadError, Tile, CELL_HEIGHT, CELL_WIDTH, COLS, HEIGHT, ROWS, WIDTH};

fn framebuffer() -> Vec<u32> {
    vec![0; (WIDTH * HEIGHT) as usize]
}

/// A raw image of `w × h` pixels whose bytes are all distinct modulo 256.
fn numbered_image(w: u32, h: u32) -> Vec<u8> {
    (0..w * h * 3).map(|b| (b % 251) as u8).collect()
}

fn solid_image(w: u32, h: u32, rgb: [u8; 3]) -> Vec<u8> {
    let mut v = Vec::new();
    for _ in 0..w * h {
        v.extend_from_slice(&rgb);
    }
    v
}

fn png_bytes(w: u32, h: u32, rgb: [u8; 3]) -> Vec<u8> {
    let img = image::DynamicImage::ImageRgb8(image::RgbImage::from_pixel(w, h, image::Rgb(rgb)));
    let mut out = Cursor::new(Vec::new());
    img.write_to(&mut out, image::ImageOutputFormat::Png).unwrap();
    out.into_inner()
}

fn rotate(tile: &Tile, raw: &[u8], rotation: u16) -> Vec<u8> {
    let mut v = raw.to_vec();
    tile.rotate(&mut v, rotation);
    v
}

#[test]
fn zero_rotation_is_identity() {
    let tile0 = Tile::new(0, 0, 4, 4, numbered_image(4, 4));
    assert_eq!(rotate(&tile0, &[1, 2, 3, 4, 5], 0), vec![1, 2, 3, 4, 5]);
    let raw = numbered_image(2, 3);
    let tile = Tile::new(0, 0, 2, 3, raw.clone());
    assert_eq!(rotate(&tile, &raw, 0), raw);
    let square = numbered_image(80, 80);
    let cell = Tile::new(0, 0, 80, 80, square.clone());
    assert_eq!(rotate(&cell, &square, 0), square);
}

#[test]
fn other_rotation_values_are_ignored() {
    let raw = numbered_image(3, 3);
    let tile = Tile::new(0, 0, 3, 3, raw.clone());
    assert_eq!(rotate(&tile, &raw, 45), raw);
    assert_eq!(rotate(&tile, &raw, 360), raw);
}

#[test]
fn quarter_turn_exact_pixels() {
    // pixels p0 p1 / p2 p3 turned clockwise become p2 p0 / p3 p1, stored in
    // the order p1 p3 p0 p2 by the index formula of the turn.
    let raw: Vec<u8> = vec![0, 0, 0, 1, 1, 1, 2, 2, 2, 3, 3, 3];
    let tile = Tile::new(0, 0, 2, 2, raw.clone());
    assert_eq!(rotate(&tile, &raw, 90), vec![1, 1, 1, 3, 3, 3, 0, 0, 0, 2, 2, 2]);
    assert_eq!(rotate(&tile, &raw, 180), vec![3, 3, 3, 2, 2, 2, 1, 1, 1, 0, 0, 0]);
    assert_eq!(rotate(&tile, &raw, 270), vec![2, 2, 2, 0, 0, 0, 3, 3, 3, 1, 1, 1]);
}

#[test]
fn two_quarter_turns_equal_half_turn() {
    for n in [1u32, 2, 3, 5, 80] {
        let raw = numbered_image(n, n);
        let tile = Tile::new(0, 0, n, n, raw.clone());
        let twice = rotate(&tile, &rotate(&tile, &raw, 90), 90);
        assert_eq!(twice, rotate(&tile, &raw, 180));
    }
}

#[test]
fn four_quarter_turns_restore_image() {
    for n in [1u32, 2, 4, 7, 80] {
        let raw = numbered_image(n, n);
        let tile = Tile::new(0, 0, n, n, raw.clone());
        let mut v = raw.clone();
        for _ in 0..4 {
            v = rotate(&tile, &v, 90);
        }
        assert_eq!(v, raw);
        assert_eq!(rotate(&tile, &rotate(&tile, &raw, 90), 270), raw);
        assert_eq!(rotate(&tile, &rotate(&tile, &raw, 180), 180), raw);
    }
}

#[test]
fn packs_rgb_bytes() {
    assert_eq!(pack_rgb(0x12, 0x34, 0x56), 0x123456);
    assert_eq!(pack_rgb(0xff, 0xff, 0xff), 0xffffff);
    assert_eq!(pack_rgb(0, 0, 0), 0);
    assert_eq!(pack_rgb(0x01, 0, 0), 0x010000);
}

#[test]
fn blit_exact_positions() {
    // a 2 × 2 tile at the origin fills entries 0, 1 of row 0 and 640, 641 of row 1
    let raw: Vec<u8> = vec![1, 0, 0, 2, 0, 0, 3, 0, 0, 4, 0, 0];
    let tile = Tile::new(0, 0, 2, 2, raw.clone());
    let mut buf = framebuffer();
    tile.blit(&mut buf, &raw);
    let written: Vec<(usize, u32)> = buf.iter().copied().enumerate().filter(|&(_, v)| v != 0).collect();
    assert_eq!(written, vec![(0, 0x010000), (1, 0x020000), (640, 0x030000), (641, 0x040000)]);
}

#[test]
fn solid_tile_writes_exactly_cell_area() {
    let color = [0x12, 0x34, 0x56];
    for rotation in [0u16, 90, 180, 270] {
        let mut tile = Tile::new(64, 64, 80, 80, solid_image(80, 80, [0, 0, 0]));
        let mut buf = framebuffer();
        tile.draw_pixels(&mut buf, rotation, solid_image(80, 80, color));
        let mut count = 0;
        for p in 0..buf.len() {
            let (row, col) = (p / 640, p % 640);
            if (64..144).contains(&row) && (64..144).contains(&col) {
                assert_eq!(buf[p], 0x123456);
                count += 1;
            } else {
                assert_eq!(buf[p], 0);
            }
        }
        assert_eq!(count, 80 * 80);
        assert_eq!(tile.image(), &solid_image(80, 80, color));
    }
}

#[test]
fn aligned_tile_fills_its_rectangle() {
    let raw = numbered_image(80, 80);
    let tile = Tile::new(160, 80, 80, 80, raw.clone());
    let turned = rotate(&tile, &raw, 90);
    let mut buf: Vec<u32> = vec![7; (WIDTH * HEIGHT) as usize];
    tile.blit(&mut buf, &turned);
    for p in 0..buf.len() {
        let (row, col) = (p / 640, p % 640);
        if (80..160).contains(&row) && (160..240).contains(&col) {
            let k = 3 * ((row - 80) * 80 + (col - 160));
            assert_eq!(buf[p], pack_rgb(turned[k], turned[k + 1], turned[k + 2]));
        } else {
            assert_eq!(buf[p], 7);
        }
    }
}

#[test]
fn blit_keeps_prior_values_elsewhere() {
    let mut buf: Vec<u32> = (0..WIDTH * HEIGHT).map(|p| p ^ 0xabcdef).collect();
    let before = buf.clone();
    let tile = Tile::new(160, 240, 80, 80, solid_image(80, 80, [1, 2, 3]));
    let raw = solid_image(80, 80, [1, 2, 3]);
    tile.blit(&mut buf, &raw);
    let changed = (0..buf.len()).filter(|&p| buf[p] != before[p]).count();
    assert_eq!(changed, 80 * 80);
    assert_eq!(buf.len(), before.len());
}

#[test]
fn index_past_end_is_dropped() {
    // rows 600..680 of a tile at (0, 600): the last 40 rows lie past the end
    let raw = solid_image(80, 80, [9, 9, 9]);
    let tile = Tile::new(0, 600, 80, 80, raw.clone());
    let mut buf = framebuffer();
    tile.blit(&mut buf, &raw);
    assert_eq!(buf.len(), (WIDTH * HEIGHT) as usize);
    let written = buf.iter().filter(|&&v| v == 0x090909).count();
    assert_eq!(written, 80 * 40);
    assert_eq!(buf[(639 * 640 + 79) as usize], 0x090909);
    assert_eq!(buf[(639 * 640 + 80) as usize], 0);
}

#[test]
fn board_origins_cover_grid_once() {
    let mut board = Board::new();
    board.init_tiles_with(&solid_image(CELL_WIDTH, CELL_HEIGHT, [5, 6, 7]));
    assert_eq!((board.cols(), board.rows()), (8, 8));
    let mut seen = HashSet::new();
    for i in 0..COLS as usize {
        for j in 0..ROWS as usize {
            let t = board.tile(i, j);
            assert_eq!((t.x(), t.y()), (j as u32 * 80, i as u32 * 80));
            assert_eq!((t.width(), t.height()), (80, 80));
            assert!(seen.insert((t.x(), t.y())));
        }
    }
    let expected: HashSet<(u32, u32)> =
        (0..8).flat_map(|a| (0..8).map(move |b| (a * 80, b * 80))).collect();
    assert_eq!(seen, expected);
}

#[test]
fn undecodable_image_is_an_error() {
    let mut tile = Tile::new(0, 0, 80, 80, solid_image(80, 80, [1, 1, 1]));
    let mut buf = framebuffer();
    assert_eq!(tile.draw(&mut buf, 90, b"not an image"), Err(ImageLoadError));
    assert!(buf.iter().all(|&v| v == 0));
    assert_eq!(tile.image(), &solid_image(80, 80, [1, 1, 1]));
    let mut board = Board::new();
    assert_eq!(board.init_tiles(&[]), Err(ImageLoadError));
    assert_eq!(load_rgb(&[0x89, b'P', b'N', b'G'], 4, 4), Err(ImageLoadError));
}

#[test]
fn decoded_image_is_scaled_to_tile() {
    let png = png_bytes(4, 6, [200, 100, 50]);
    let raw = load_rgb(&png, 8, 8).unwrap();
    assert_eq!(raw.len(), 8 * 8 * 3);
    assert_eq!(&raw[0..3], &[200, 100, 50]);
    let mut tile = Tile::new(80, 0, 80, 80, solid_image(80, 80, [0, 0, 0]));
    let mut buf = framebuffer();
    assert_eq!(tile.draw(&mut buf, 270, &png), Ok(()));
    assert_eq!(tile.image(), &solid_image(80, 80, [200, 100, 50]));
    assert_eq!(buf.iter().filter(|&&v| v == 0xc86432).count(), 80 * 80);
}

#[test]
fn board_draws_one_tile() {
    let placeholder = png_bytes(3, 3, [10, 20, 30]);
    let mut board = Board::new();
    assert_eq!(board.init_tiles(&placeholder), Ok(()));
    assert_eq!(board.tile(7, 7).image(), &solid_image(80, 80, [10, 20, 30]));
    let mut buf = framebuffer();
    let image = png_bytes(5, 5, [1, 2, 3]);
    assert_eq!(board.draw_tile(4, 4, &mut buf, 180, &image), Ok(()));
    assert_eq!(board.tile(4, 4).image(), &solid_image(80, 80, [1, 2, 3]));
    assert_eq!(board.tile(4, 3).image(), &solid_image(80, 80, [10, 20, 30]));
    assert_eq!(buf.iter().filter(|&&v| v == 0x010203).count(), 80 * 80);
    assert_eq!(buf[320 * 640 + 320], 0x010203);
    assert_eq!(buf[320 * 640 + 400], 0);
}
