//! The board: a `COLS × ROWS` grid of tiles that partitions the framebuffer.

use crate::decoding::{decodes, load_rgb, scaled_rgb, ImageLoadError};
use crate::frame::{blitted, colors, CELL_HEIGHT, CELL_WIDTH, COLS, HEIGHT, ROWS, WIDTH};
use crate::rotation::{rotated, rotation_in_bounds};
use crate::tile::{Tile, TileView};
use vstd::prelude::*;

verus! {

/// The grid of tiles, indexed `[i][j]`.
pub struct Board {
    cols: u32,
    rows: u32,
    tiles: Vec<Vec<Tile>>,
}

/// Whether `tiles` is the initial layout of the board: `COLS` sequences of
/// `ROWS` cells each, where cell `[i][j]` has its origin at column
/// `j * CELL_WIDTH` and row `i * CELL_HEIGHT`, the size of a cell, and
/// `image` as its image.
pub open spec fn initial_layout(tiles: Seq<Seq<TileView>>, image: Seq<u8>) -> bool {
    &&& tiles.len() == COLS
    &&& forall|i: int| 0 <= i < COLS ==> #[trigger] tiles[i].len() == ROWS
    &&& forall|i: int, j: int|
        0 <= i < COLS && 0 <= j < ROWS ==> #[trigger] tiles[i][j] == (TileView {
            x: (j * CELL_WIDTH) as u32,
            y: (i * CELL_HEIGHT) as u32,
            width: CELL_WIDTH,
            height: CELL_HEIGHT,
            image,
        })
}

/// Whether every tile of `tiles` has the size of a grid cell.
pub open spec fn cells_sized(tiles: Seq<Seq<TileView>>) -> bool {
    forall|i: int, j: int|
        0 <= i < tiles.len() && 0 <= j < tiles[i].len() ==> #[trigger] tiles[i][j].width
            == CELL_WIDTH && tiles[i][j].height == CELL_HEIGHT
}

impl View for Board {
    type V = Seq<Seq<TileView>>;

    closed spec fn view(&self) -> Seq<Seq<TileView>> {
        Seq::new(self.tiles@.len(), |i: int| Seq::new(self.tiles@[i]@.len(), |j: int| self.tiles@[i]@[j]@))
    }
}

impl Board {
    #[verifier::type_invariant]
    spec fn inv(&self) -> bool {
        &&& self.cols == COLS
        &&& self.rows == ROWS
        &&& cells_sized(self@)
    }

    /// A board of `COLS × ROWS` cells that holds no tiles yet.
    pub fn new() -> (b: Board)
        ensures
            b@ == Seq::<Seq<TileView>>::empty(),
    {
        let b = Board { cols: COLS, rows: ROWS, tiles: Vec::new() };
        assert(b@ =~= Seq::<Seq<TileView>>::empty());
        b
    }

    /// Fills the board with its tiles, each showing `placeholder`, a raw RGB
    /// image of the size of a cell.
    pub fn init_tiles_with(&mut self, placeholder: &Vec<u8>)
        requires
            placeholder@.len() == CELL_WIDTH * CELL_HEIGHT * 3,
        ensures
            initial_layout(final(self)@, placeholder@),
    {
        proof {
            use_type_invariant(&*self);
        }
        let mut tiles: Vec<Vec<Tile>> = Vec::new();
        let mut i: u32 = 0;
        while i < self.cols
            invariant
                self.cols == COLS,
                self.rows == ROWS,
                placeholder@.len() == CELL_WIDTH * CELL_HEIGHT * 3,
                i <= COLS,
                tiles@.len() == i,
                forall|a: int| 0 <= a < i ==> #[trigger] tiles@[a]@.len() == ROWS,
                forall|a: int, b: int|
                    0 <= a < i && 0 <= b < ROWS ==> #[trigger] tiles@[a]@[b]@ == (TileView {
                        x: (b * CELL_WIDTH) as u32,
                        y: (a * CELL_HEIGHT) as u32,
                        width: CELL_WIDTH,
                        height: CELL_HEIGHT,
                        image: placeholder@,
                    }),
            decreases COLS - i,
        {
            let mut row: Vec<Tile> = Vec::new();
            let mut j: u32 = 0;
            while j < self.rows
                invariant
                    self.rows == ROWS,
                    placeholder@.len() == CELL_WIDTH * CELL_HEIGHT * 3,
                    i < COLS,
                    j <= ROWS,
                    row@.len() == j,
                    forall|b: int| 0 <= b < j ==> #[trigger] row@[b]@ == (TileView {
                        x: (b * CELL_WIDTH) as u32,
                        y: (i * CELL_HEIGHT) as u32,
                        width: CELL_WIDTH,
                        height: CELL_HEIGHT,
                        image: placeholder@,
                    }),
                decreases ROWS - j,
            {
                assert(CELL_WIDTH == 80 && CELL_HEIGHT == 80);
                let image = placeholder.clone();
                assert(image@ =~= placeholder@);
                row.push(Tile::new(j * CELL_WIDTH, i * CELL_HEIGHT, CELL_WIDTH, CELL_HEIGHT, image));
                j = j + 1;
            }
            tiles.push(row);
            i = i + 1;
        }
        self.tiles = tiles;
        assert forall|a: int| 0 <= a < COLS implies #[trigger] self@[a].len() == ROWS by {}
        assert forall|a: int, b: int| 0 <= a < COLS && 0 <= b < ROWS implies #[trigger] self@[a][b]
            == (TileView {
            x: (b * CELL_WIDTH) as u32,
            y: (a * CELL_HEIGHT) as u32,
            width: CELL_WIDTH,
            height: CELL_HEIGHT,
            image: placeholder@,
        }) by {}
    }

    /// Number of grid columns.
    pub fn cols(&self) -> (r: u32)
        ensures
            r == COLS,
    {
        proof {
            use_type_invariant(self);
        }
        self.cols
    }

    /// Number of grid rows.
    pub fn rows(&self) -> (r: u32)
        ensures
            r == ROWS,
    {
        proof {
            use_type_invariant(self);
        }
        self.rows
    }

    /// The tile in cell `[i][j]`.
    pub fn tile(&self, i: usize, j: usize) -> (t: &Tile)
        requires
            i < self@.len(),
            j < self@[i as int].len(),
        ensures
            t@ == self@[i as int][j as int],
    {
        &self.tiles[i][j]
    }

    /// Decodes the placeholder image file held in `asset`, scales it to the
    /// size of a cell and fills the board with tiles that show it. Where the
    /// file cannot be decoded, the board is left as it was.
    pub fn init_tiles(&mut self, asset: &[u8]) -> (r: Result<(), ImageLoadError>)
        ensures
            r.is_ok() == decodes(asset@),
            r.is_err() ==> final(self)@ == old(self)@,
            r.is_ok() ==> initial_layout(final(self)@, scaled_rgb(asset@, CELL_WIDTH, CELL_HEIGHT)),
            r.is_ok() ==> scaled_rgb(asset@, CELL_WIDTH, CELL_HEIGHT).len() == CELL_WIDTH
                * CELL_HEIGHT * 3,
    {
        assert(CELL_WIDTH == 80 && CELL_HEIGHT == 80);
        match load_rgb(asset, CELL_WIDTH, CELL_HEIGHT) {
            Ok(placeholder) => {
                self.init_tiles_with(&placeholder);
                Ok(())
            },
            Err(e) => Err(e),
        }
    }

    /// Draws the tile in cell `[i][j]` as `Tile::draw` does: decodes the
    /// image file held in `image` and copies it, turned by `rotation`
    /// degrees, into `buffer`. The other tiles keep their state.
    pub fn draw_tile(
        &mut self,
        i: usize,
        j: usize,
        buffer: &mut Vec<u32>,
        rotation: u16,
        image: &[u8],
    ) -> (r: Result<(), ImageLoadError>)
        requires
            i < old(self)@.len(),
            j < old(self)@[i as int].len(),
            old(buffer)@.len() == WIDTH * HEIGHT,
        ensures
            final(self)@ == old(self)@.update(
                i as int,
                old(self)@[i as int].update(j as int, final(self)@[i as int][j as int]),
            ),
            r.is_ok() == decodes(image@),
            r.is_err() ==> final(self)@ == old(self)@ && final(buffer)@ == old(buffer)@,
            r.is_ok() ==> {
                let before = old(self)@[i as int][j as int];
                let after = final(self)@[i as int][j as int];
                &&& after == (TileView {
                    image: scaled_rgb(image@, CELL_WIDTH, CELL_HEIGHT),
                    ..before
                })
                &&& after.image.len() == CELL_WIDTH * CELL_HEIGHT * 3
                &&& final(buffer)@ == blitted(
                    old(buffer)@,
                    before.x as int,
                    before.y as int,
                    CELL_WIDTH as int,
                    CELL_HEIGHT as int,
                    colors(rotated(after.image, CELL_WIDTH as int, CELL_HEIGHT as int, rotation)),
                )
            },
    {
        proof {
            use_type_invariant(&*self);
        }
        assert(CELL_WIDTH == 80 && CELL_HEIGHT == 80);
        let ghost old_view = self@;
        let mut tiles: Vec<Vec<Tile>> = Vec::new();
        core::mem::swap(&mut self.tiles, &mut tiles);
        assert(tiles@[i as int]@[j as int]@ == old_view[i as int][j as int]);
        let ghost old_tiles = tiles@;
        let mut row: Vec<Tile> = Vec::new();
        core::mem::swap(&mut tiles[i], &mut row);
        let ghost old_row = row@;
        let r = row[j].draw(buffer, rotation, image);
        assert(row@ == old_row.update(j as int, row@[j as int]));
        core::mem::swap(&mut tiles[i], &mut row);
        assert(tiles@ == old_tiles.update(i as int, tiles@[i as int]));
        proof {
            let new_view = Seq::new(
                tiles@.len(),
                |a: int| Seq::new(tiles@[a]@.len(), |b: int| tiles@[a]@[b]@),
            );
            let expected = old_view.update(
                i as int,
                old_view[i as int].update(j as int, tiles@[i as int]@[j as int]@),
            );
            assert forall|a: int| 0 <= a < new_view.len() implies new_view[a] =~= expected[a] by {}
            assert(new_view =~= expected);
            assert(cells_sized(new_view));
            if r.is_err() {
                assert(old_view[i as int].update(j as int, old_view[i as int][j as int])
                    =~= old_view[i as int]);
                assert(expected =~= old_view);
            }
        }
        self.tiles = tiles;
        r
    }
}

/// The origins of the tiles of `tiles`, as (column, row) pairs.
pub open spec fn origins(tiles: Seq<Seq<TileView>>) -> Set<(int, int)> {
    Set::new(
        |o: (int, int)|
            exists|i: int, j: int|
                0 <= i < tiles.len() && 0 <= j < tiles[i].len() && o == (
                    #[trigger] tiles[i][j].x as int,
                    tiles[i][j].y as int,
                ),
    )
}

/// The points of the framebuffer whose column is a multiple of the cell
/// width and whose row is a multiple of the cell height.
pub open spec fn grid_points() -> Set<(int, int)> {
    Set::new(
        |o: (int, int)|
            0 <= o.0 < WIDTH && 0 <= o.1 < HEIGHT && o.0 % (CELL_WIDTH as int) == 0 && o.1 % (
            CELL_HEIGHT as int) == 0,
    )
}

/// The origins of the tiles of an initial layout: every tile's origin lies
/// on a multiple of the cell size inside the framebuffer, every such point
/// is the origin of a tile, and no two tiles share an origin; so the set of
/// origins is exactly the set of grid points.
pub proof fn lemma_initial_origins(tiles: Seq<Seq<TileView>>, image: Seq<u8>)
    requires
        initial_layout(tiles, image),
    ensures
        forall|i: int, j: int|
            0 <= i < COLS && 0 <= j < ROWS ==> {
                &&& #[trigger] tiles[i][j].x % CELL_WIDTH == 0
                &&& tiles[i][j].x < WIDTH
                &&& tiles[i][j].y % CELL_HEIGHT == 0
                &&& tiles[i][j].y < HEIGHT
            },
        forall|a: int, b: int|
            0 <= a < WIDTH / CELL_WIDTH && 0 <= b < HEIGHT / CELL_HEIGHT ==> #[trigger] tiles[b][a].x
                == a * CELL_WIDTH && tiles[b][a].y == b * CELL_HEIGHT,
        forall|i1: int, j1: int, i2: int, j2: int|
            0 <= i1 < COLS && 0 <= j1 < ROWS && 0 <= i2 < COLS && 0 <= j2 < ROWS && (i1 != i2 || j1
                != j2) ==> #[trigger] tiles[i1][j1].x != #[trigger] tiles[i2][j2].x || tiles[i1][j1].y
                != tiles[i2][j2].y,
        origins(tiles) == grid_points(),
{
    assert(CELL_WIDTH == 80 && CELL_HEIGHT == 80);
    assert(WIDTH == 640 && HEIGHT == 640 && COLS == 8 && ROWS == 8);
    assert(640int / 80int == 8int);
    assert forall|a: int, b: int|
        0 <= a < WIDTH / CELL_WIDTH && 0 <= b < HEIGHT / CELL_HEIGHT implies #[trigger] tiles[b][a].x
            == a * CELL_WIDTH && tiles[b][a].y == b * CELL_HEIGHT by {
        assert(tiles[b][a].x == (a * CELL_WIDTH) as u32);
    }
    assert forall|o: (int, int)| origins(tiles).contains(o) implies grid_points().contains(o) by {
        let (i, j) = choose|i: int, j: int|
            0 <= i < tiles.len() && 0 <= j < tiles[i].len() && o == (
                #[trigger] tiles[i][j].x as int,
                tiles[i][j].y as int,
            );
        assert(tiles[i][j].x == (j * CELL_WIDTH) as u32);
    }
    assert forall|o: (int, int)| grid_points().contains(o) implies origins(tiles).contains(o) by {
        let a = o.0 / 80;
        let b = o.1 / 80;
        assert(tiles[b][a].x == a * CELL_WIDTH && tiles[b][a].y == b * CELL_HEIGHT);
        assert(o == (tiles[b][a].x as int, tiles[b][a].y as int));
    }
    assert(origins(tiles) =~= grid_points());
}

} // verus!
