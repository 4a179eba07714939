//! A fixed grid of image tiles drawn into a flat framebuffer of packed RGB
//! pixels, with each tile turned by a multiple of 90 degrees before it is
//! copied in.

mod board;
mod decoding;
mod frame;
mod rotation;
mod tile;

pub use board::{grid_points, initial_layout, lemma_initial_origins, origins, Board};
pub use decoding::{decodes, load_rgb, scaled_rgb, ImageLoadError};
pub use frame::{
    blitted, colors, covers, draw_grid_lines, lemma_blit_rect, lemma_covered_entry,
    lemma_pixel_at_injective, lemma_tile_index, on_grid_line, pack_rgb, packed, pixel_at, tile_index,
    CELL_HEIGHT, CELL_WIDTH, COLS, HEIGHT, ROWS, WIDTH,
};
pub use rotation::{
    is_quarter_turn, is_right_angle, lemma_four_quarter_turns, lemma_rotation_compose,
    lemma_two_quarter_turns, lemma_zero_turn_is_identity, rotated, rotation_in_bounds,
    source_pixel, turned,
};
pub use tile::{image_fits, Tile, TileView};
