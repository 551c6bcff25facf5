//! Board generation: an empty grid, the mines, then the counts.

use vstd::prelude::*;
use crate::minesweeper::grid::{
    lemma_coords, lemma_index, lemma_neighbor_mines_same, lemma_tally_none, lemma_tally_rest,
    lemma_tally_take, lemma_tally_update, mine_flags, mines_in, same_mines, tally, BoardView,
};
use crate::random::RandomSource;
use crate::minesweeper::tile::{Content, Tile};

verus! {

/// Why a board cannot be generated.
#[derive(Clone, Copy, Debug, PartialEq, Eq, Structural)]
pub enum ConfigError {
    /// The width or the height is not positive.
    EmptyBoard,
    /// The board has more tiles than a vector can hold.
    TooLarge,
    /// No mine is asked for.
    NoMines,
    /// The mines would leave no tile free.
    TooManyMines,
    /// A mine is asked for at a coordinate off the board.
    OutOfBounds,
}

/// How many draws in a row may land on a mine before the next mine is laid
/// by one draw among the free tiles.
pub const MAX_REJECTIONS: usize = 64;

/// What is wrong with a board of `width` by `height` tiles and `mine_count`
/// mines, if anything.
pub open spec fn config_error(width: int, height: int, mine_count: int) -> Option<ConfigError> {
    if width <= 0 || height <= 0 {
        Some(ConfigError::EmptyBoard)
    } else if width * height > usize::MAX {
        Some(ConfigError::TooLarge)
    } else if mine_count <= 0 {
        Some(ConfigError::NoMines)
    } else if mine_count >= width * height {
        Some(ConfigError::TooManyMines)
    } else {
        None
    }
}

/// The model of a grid under generation.
pub open spec fn grid(cells: Seq<Tile>, width: int, height: int, mine_count: int) -> BoardView {
    BoardView { width, height, mine_count, cells }
}

/// The tile as generation leaves it before the counts: hidden, and a mine or
/// an empty tile with count 0.
pub open spec fn laid(tile: Tile) -> bool {
    tile is Invisible && (tile.content() is Mine || tile.content() == Content::Empty(0))
}

/// The tile with the same visibility, holding a mine.
pub open spec fn mined(tile: Tile) -> Tile {
    tile.replaced(Content::Mine)
}

/// Changing one tile changes the number of mines by that tile alone.
pub proof fn lemma_mines_update(cells: Seq<Tile>, i: int, tile: Tile)
    requires
        0 <= i < cells.len(),
    ensures
        mines_in(cells.update(i, tile)) == mines_in(cells) - (if cells[i].content() is Mine {
            1int
        } else {
            0int
        }) + (if tile.content() is Mine {
            1int
        } else {
            0int
        }),
{
    lemma_tally_update(mine_flags(cells), i, tile.content() is Mine);
    assert(mine_flags(cells.update(i, tile)) =~= mine_flags(cells).update(
        i,
        tile.content() is Mine,
    ));
}

/// Whether `(x, y)` is on the board and holds a mine.
pub fn mine_at(cells: &Vec<Tile>, width: usize, height: usize, x: i64, y: i64) -> (mine: bool)
    requires
        grid(cells@, width as int, height as int, 0).shaped(),
    ensures
        mine == grid(cells@, width as int, height as int, 0).mine(x as int, y as int),
{
    if x < 0 || y < 0 || x >= width as i64 || y >= height as i64 {
        false
    } else {
        let total: usize = cells.len();
        let col: usize = x as usize;
        let row: usize = y as usize;
        proof {
            lemma_index(width as int, height as int, col as int, row as int);
            assert(row * width + col < total);
        }
        cells[row * width + col].is_mine()
    }
}

/// The number of mines on the neighbours of `(x, y)`.
pub fn get_surrounding(cells: &Vec<Tile>, width: usize, height: usize, x: usize, y: usize) -> (count:
    i32)
    requires
        grid(cells@, width as int, height as int, 0).shaped(),
        x < width,
        y < height,
    ensures
        count == grid(cells@, width as int, height as int, 0).neighbor_mines(x as int, y as int),
        0 <= count <= 8,
{
    let xi: i64 = x as i64;
    let yi: i64 = y as i64;
    let mut count: i32 = 0;
    if mine_at(cells, width, height, xi - 1, yi - 1) {
        count += 1;
    }
    if mine_at(cells, width, height, xi, yi - 1) {
        count += 1;
    }
    if mine_at(cells, width, height, xi + 1, yi - 1) {
        count += 1;
    }
    if mine_at(cells, width, height, xi - 1, yi) {
        count += 1;
    }
    if mine_at(cells, width, height, xi + 1, yi) {
        count += 1;
    }
    if mine_at(cells, width, height, xi - 1, yi + 1) {
        count += 1;
    }
    if mine_at(cells, width, height, xi, yi + 1) {
        count += 1;
    }
    if mine_at(cells, width, height, xi + 1, yi + 1) {
        count += 1;
    }
    count
}

/// A grid of `width` by `height` starter tiles.
pub fn blank_grid(width: usize, height: usize) -> (cells: Vec<Tile>)
    requires
        width * height <= usize::MAX,
    ensures
        cells@.len() == width * height,
        forall|i: int| 0 <= i < cells@.len() ==> cells@[i] == Tile::starter_tile_spec(),
{
    let total: usize = width * height;
    let mut cells: Vec<Tile> = Vec::new();
    let mut i: usize = 0;
    while i < total
        invariant
            i <= total,
            cells@.len() == i,
            forall|j: int| 0 <= j < cells@.len() ==> cells@[j] == Tile::starter_tile_spec(),
        decreases total - i,
    {
        cells.push(Tile::starter_tile());
        i += 1;
    }
    cells
}

/// Lays a mine at `(x, y)` unless one lies there already, and says whether
/// it laid one.
pub fn place_mine(cells: &mut Vec<Tile>, width: usize, height: usize, x: usize, y: usize) -> (placed:
    bool)
    requires
        grid(old(cells)@, width as int, height as int, 0).shaped(),
        x < width,
        y < height,
    ensures
        placed == !grid(old(cells)@, width as int, height as int, 0).mine(x as int, y as int),
        final(cells)@ == old(cells)@.update(
            y * width + x,
            mined(old(cells)@[y * width + x]),
        ),
        mines_in(final(cells)@) == mines_in(old(cells)@) + if placed { 1int } else { 0int },
{
    let total: usize = cells.len();
    proof {
        lemma_index(width as int, height as int, x as int, y as int);
        assert(y * width + x < total);
    }
    let i: usize = y * width + x;
    let tile = cells[i];
    let placed = !tile.is_mine();
    proof {
        lemma_mines_update(cells@, i as int, mined(tile));
    }
    cells.set(i, tile.with_content(Content::Mine));
    placed
}

/// The place of the free tile that has `k` free tiles before it.
pub fn nth_free(cells: &Vec<Tile>, k: usize) -> (i: usize)
    requires
        k < cells@.len() - mines_in(cells@),
    ensures
        i < cells@.len(),
        !(cells@[i as int].content() is Mine),
        i - tally(mine_flags(cells@).take(i as int)) == k,
{
    let total: usize = cells.len();
    let mut i: usize = 0;
    let mut free_before: usize = 0;
    proof {
        lemma_tally_rest(mine_flags(cells@), 0);
    }
    loop
        invariant
            total == cells@.len(),
            i < cells@.len(),
            free_before <= k,
            free_before == i - tally(mine_flags(cells@).take(i as int)),
            k < cells@.len() - mines_in(cells@),
        decreases cells@.len() - i,
    {
        let free = !cells[i].is_mine();
        if free && free_before == k {
            return i;
        }
        proof {
            lemma_tally_take(mine_flags(cells@), i as int);
            lemma_tally_rest(mine_flags(cells@), i + 1);
        }
        if free {
            free_before += 1;
        }
        i += 1;
    }
}

/// Lays `mine_count` mines on a grid of starter tiles.
///
/// Each mine goes where a pair of draws points; a draw that lands on a mine
/// is rejected and drawn again. After `MAX_REJECTIONS` rejected draws in a
/// row, one more draw picks among the free tiles, each as likely as under
/// rejection, so that laying always comes to an end.
pub fn assign_mines(
    cells: &mut Vec<Tile>,
    mine_count: usize,
    width: usize,
    height: usize,
    rng: &mut RandomSource,
)
    requires
        grid(old(cells)@, width as int, height as int, 0).shaped(),
        0 < mine_count < width * height,
        forall|i: int| 0 <= i < old(cells)@.len() ==> old(cells)@[i] == Tile::starter_tile_spec(),
    ensures
        final(cells)@.len() == old(cells)@.len(),
        mines_in(final(cells)@) == mine_count,
        forall|i: int| 0 <= i < final(cells)@.len() ==> laid(#[trigger] final(cells)@[i]),
{
    let mut assigned: usize = 0;
    proof {
        lemma_tally_none(mine_flags(cells@));
    }
    while assigned < mine_count
        invariant
            grid(cells@, width as int, height as int, 0).shaped(),
            cells@.len() == old(cells)@.len(),
            assigned <= mine_count < width * height,
            mines_in(cells@) == assigned,
            forall|i: int| 0 <= i < cells@.len() ==> laid(#[trigger] cells@[i]),
        decreases mine_count - assigned,
    {
        let mut rejected: usize = 0;
        let mut placed = false;
        while !placed && rejected < MAX_REJECTIONS
            invariant
                grid(cells@, width as int, height as int, 0).shaped(),
                cells@.len() == old(cells)@.len(),
                rejected <= MAX_REJECTIONS,
                mines_in(cells@) == assigned + if placed { 1int } else { 0int },
                forall|i: int| 0 <= i < cells@.len() ==> laid(#[trigger] cells@[i]),
            decreases
                    if placed {
                        0int
                    } else {
                        1 + MAX_REJECTIONS - rejected
                    },
        {
            let x = rng.below(width);
            let y = rng.below(height);
            proof {
                lemma_index(width as int, height as int, x as int, y as int);
            }
            placed = place_mine(cells, width, height, x, y);
            if !placed {
                rejected += 1;
            }
        }
        if !placed {
            let free: usize = cells.len() - assigned;
            let k = rng.below(free);
            let i = nth_free(cells, k);
            let tile = cells[i];
            proof {
                lemma_mines_update(cells@, i as int, mined(tile));
            }
            cells.set(i, tile.with_content(Content::Mine));
        }
        assigned += 1;
    }
}

/// Stores on every tile without a mine the number of its mined neighbours.
pub fn assign_surrounding(cells: &mut Vec<Tile>, width: usize, height: usize)
    requires
        grid(old(cells)@, width as int, height as int, 0).shaped(),
    ensures
        same_mines(
            grid(final(cells)@, width as int, height as int, 0),
            grid(old(cells)@, width as int, height as int, 0),
        ),
        forall|i: int|
            0 <= i < final(cells)@.len() ==> ((#[trigger] final(cells)@[i]) is Visible) == (old(
                cells,
            )@[i] is Visible),
        grid(final(cells)@, width as int, height as int, 0).counted(),
{
    let total: usize = cells.len();
    let ghost before = grid(cells@, width as int, height as int, 0);
    let mut i: usize = 0;
    while i < total
        invariant
            i <= total,
            total == cells@.len(),
            before == grid(old(cells)@, width as int, height as int, 0),
            before.shaped(),
            same_mines(grid(cells@, width as int, height as int, 0), before),
            forall|j: int|
                0 <= j < cells@.len() ==> ((#[trigger] cells@[j]) is Visible) == (
                before.cells[j] is Visible),
            forall|j: int|
                0 <= j < i && !((#[trigger] cells@[j]).content() is Mine) ==> cells@[j].content()
                    == Content::Empty(
                    before.neighbor_mines(j % (width as int), j / (width as int)) as i32,
                ),
        decreases total - i,
    {
        let tile = cells[i];
        if tile.is_empty() {
            let x: usize = i % width;
            let y: usize = i / width;
            proof {
                lemma_coords(width as int, height as int, i as int);
                lemma_neighbor_mines_same(
                    grid(cells@, width as int, height as int, 0),
                    before,
                    x as int,
                    y as int,
                );
            }
            let count = get_surrounding(cells, width, height, x, y);
            cells.set(i, tile.with_content(Content::Empty(count)));
        }
        i += 1;
    }
    proof {
        let after = grid(cells@, width as int, height as int, 0);
        assert forall|x: int, y: int| #[trigger] after.count_ok(x, y) by {
            if after.in_bounds(x, y) {
                lemma_index(width as int, height as int, x, y);
                lemma_neighbor_mines_same(after, before, x, y);
            }
        }
    }
}

} // verus!
