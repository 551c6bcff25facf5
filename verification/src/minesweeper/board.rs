//! The board: its generation from a difficulty or from chosen mines, and
//! the queries on it.

use vstd::prelude::*;
use crate::difficulty::Difficulty;
use crate::minesweeper::generate::{
    assign_mines, assign_surrounding, blank_grid, config_error, grid, laid, place_mine,
    ConfigError,
};
use crate::minesweeper::cascade::open_region;
use crate::minesweeper::grid::{
    lemma_coords, lemma_index, lemma_index_injective, lemma_mine_same, lemma_mines_in_same,
    lemma_tally_all, lemma_tally_bound, lemma_tally_full, lemma_tally_none, mine_flags, mines_in,
    BoardView, RevealOutcome,
};
use crate::random::RandomSource;
use crate::minesweeper::tile::Tile;

verus! {

/// Width, height and number of mines of an easy board.
pub const DEFAULT_PARAMS_EASY: (i32, i32, i32) = (9, 9, 10);

/// Width, height and number of mines of a medium board.
pub const DEFAULT_PARAMS_MEDIUM: (i32, i32, i32) = (16, 16, 40);

/// Width, height and number of mines of a hard board.
pub const DEFAULT_PARAMS_HARD: (i32, i32, i32) = (16, 30, 99);

/// A minesweeper board: `width` columns by `height` rows of tiles, row
/// after row.
#[derive(Clone, Debug, PartialEq, Eq)]
pub struct Board {
    pub(crate) cells: Vec<Tile>,
    pub(crate) width: usize,
    pub(crate) height: usize,
    pub(crate) mine_count: usize,
}

impl View for Board {
    type V = BoardView;

    closed spec fn view(&self) -> BoardView {
        BoardView {
            width: self.width as int,
            height: self.height as int,
            mine_count: self.mine_count as int,
            cells: self.cells@,
        }
    }
}

/// A board as generation hands it over: in order, with every tile hidden.
pub open spec fn generated(board: BoardView) -> bool {
    board.wf() && board.all_hidden()
}

/// The preset of a difficulty: width, height and number of mines.
pub open spec fn preset(diff: Difficulty) -> (int, int, int) {
    match diff {
        Difficulty::Easy => (9, 9, 10),
        Difficulty::Medium => (16, 16, 40),
        Difficulty::Hard => (16, 30, 99),
    }
}

/// Whether one of the first `upto` coordinates of `mines` is `(x, y)`.
pub open spec fn listed(mines: Seq<(usize, usize)>, upto: int, x: int, y: int) -> bool {
    exists|k: int| 0 <= k < upto && (#[trigger] mines[k]).0 == x && mines[k].1 == y
}

/// What is wrong with a board of `width` by `height` tiles with a mine on
/// each coordinate of `mines`, if anything.
pub open spec fn layout_error(width: int, height: int, mines: Seq<(usize, usize)>) -> Option<
    ConfigError,
> {
    if width <= 0 || height <= 0 {
        Some(ConfigError::EmptyBoard)
    } else if width * height > usize::MAX {
        Some(ConfigError::TooLarge)
    } else if exists|k: int|
        0 <= k < mines.len() && !((#[trigger] mines[k]).0 < width && mines[k].1 < height) {
        Some(ConfigError::OutOfBounds)
    } else if mines.len() == 0 {
        Some(ConfigError::NoMines)
    } else if forall|x: int, y: int|
        0 <= x < width && 0 <= y < height ==> #[trigger] listed(mines, mines.len() as int, x, y) {
        Some(ConfigError::TooManyMines)
    } else {
        None
    }
}

/// A grid whose tiles are all hidden, whose counts are right and which
/// holds `mine_count` mines is a generated board.
pub proof fn lemma_generated(board: BoardView)
    requires
        board.shaped(),
        board.counted(),
        0 < board.mine_count < board.width * board.height,
        mines_in(board.cells) == board.mine_count,
        forall|i: int| 0 <= i < board.cells.len() ==> (#[trigger] board.cells[i]) is Invisible,
    ensures
        generated(board),
{
    assert forall|x: int, y: int| board.in_bounds(x, y) implies !#[trigger] board.revealed(
        x,
        y,
    ) by {
        lemma_index(board.width, board.height, x, y);
    }
}

impl Board {
    /// Generates the tiles of a board of `width` by `height` tiles with
    /// `mine_count` mines, laid where `rng` says.
    ///
    /// The configuration is rejected unless `width` and `height` are positive
    /// and `0 < mine_count < width * height`.
    pub fn init_board(width: i32, height: i32, mine_count: i32, rng: &mut RandomSource) -> (result:
        Result<Vec<Tile>, ConfigError>)
        ensures
            match result {
                Ok(cells) => config_error(width as int, height as int, mine_count as int) is None
                    && generated(grid(cells@, width as int, height as int, mine_count as int)),
                Err(error) => config_error(width as int, height as int, mine_count as int) == Some(
                    error,
                ),
            },
    {
        if width <= 0 || height <= 0 {
            return Err(ConfigError::EmptyBoard);
        }
        let columns: usize = width as usize;
        let rows: usize = height as usize;
        let total: usize = match columns.checked_mul(rows) {
            Some(total) => total,
            None => {
                return Err(ConfigError::TooLarge);
            },
        };
        if mine_count <= 0 {
            return Err(ConfigError::NoMines);
        }
        let mines: usize = mine_count as usize;
        if mines >= total {
            return Err(ConfigError::TooManyMines);
        }
        let mut cells = blank_grid(columns, rows);
        assign_mines(&mut cells, mines, columns, rows, rng);
        let ghost laid_out = grid(cells@, width as int, height as int, 0);
        assign_surrounding(&mut cells, columns, rows);
        proof {
            let board = grid(cells@, width as int, height as int, mine_count as int);
            lemma_mines_in_same(grid(cells@, width as int, height as int, 0), laid_out);
            assert forall|x: int, y: int| #[trigger] board.count_ok(x, y) by {
                let plain = grid(cells@, width as int, height as int, 0);
                assert(plain.count_ok(x, y));
                assert(plain.tile(x, y) == board.tile(x, y));
                assert(plain.neighbor_mines(x, y) == board.neighbor_mines(x, y));
            }
            assert forall|i: int| 0 <= i < board.cells.len() implies (
            #[trigger] board.cells[i]) is Invisible by {
                assert(laid(laid_out.cells[i]));
            }
            lemma_generated(board);
        }
        Ok(cells)
    }

    /// Generates a board of `width` by `height` tiles with `mine_count`
    /// mines, laid where `rng` says, or rejects the configuration.
    pub fn generate(width: i32, height: i32, mine_count: i32, rng: &mut RandomSource) -> (result:
        Result<Board, ConfigError>)
        ensures
            match result {
                Ok(board) => {
                    &&& config_error(width as int, height as int, mine_count as int) is None
                    &&& generated(board@)
                    &&& board@.width == width
                    &&& board@.height == height
                    &&& board@.mine_count == mine_count
                },
                Err(error) => config_error(width as int, height as int, mine_count as int) == Some(
                    error,
                ),
            },
    {
        match Board::init_board(width, height, mine_count, rng) {
            Ok(cells) => Ok(
                Board {
                    cells,
                    width: width as usize,
                    height: height as usize,
                    mine_count: mine_count as usize,
                },
            ),
            Err(error) => Err(error),
        }
    }

    /// Generates a board of `width` by `height` tiles with a mine on each
    /// coordinate of `mines`, and no other. A coordinate that is listed twice
    /// counts once.
    ///
    /// The layout is rejected unless `width` and `height` are positive, every
    /// listed coordinate is on the board, and the mines are at least one and
    /// leave at least one tile free.
    pub fn with_mines(width: i32, height: i32, mines: &Vec<(usize, usize)>) -> (result: Result<
        Board,
        ConfigError,
    >)
        ensures
            match result {
                Ok(board) => {
                    &&& layout_error(width as int, height as int, mines@) is None
                    &&& generated(board@)
                    &&& board@.width == width
                    &&& board@.height == height
                    &&& forall|x: int, y: int|
                        board@.in_bounds(x, y) ==> (#[trigger] board@.mine(x, y) <==> listed(
                            mines@,
                            mines@.len() as int,
                            x,
                            y,
                        ))
                },
                Err(error) => layout_error(width as int, height as int, mines@) == Some(error),
            },
    {
        if width <= 0 || height <= 0 {
            return Err(ConfigError::EmptyBoard);
        }
        let columns: usize = width as usize;
        let rows: usize = height as usize;
        let total: usize = match columns.checked_mul(rows) {
            Some(total) => total,
            None => {
                return Err(ConfigError::TooLarge);
            },
        };
        let mut cells = blank_grid(columns, rows);
        let mut count: usize = 0;
        let mut k: usize = 0;
        proof {
            lemma_tally_none(mine_flags(cells@));
            assert forall|x: int, y: int|
                grid(cells@, width as int, height as int, 0).in_bounds(x, y) implies !grid(
                cells@,
                width as int,
                height as int,
                0,
            ).mine(x, y) by {
                lemma_index(width as int, height as int, x, y);
            }
        }
        while k < mines.len()
            invariant
                k <= mines@.len(),
                columns == width,
                rows == height,
                total == columns * rows,
                grid(cells@, width as int, height as int, 0).shaped(),
                mines_in(cells@) == count,
                count <= k,
                k > 0 ==> count > 0,
                forall|i: int| 0 <= i < cells@.len() ==> laid(#[trigger] cells@[i]),
                forall|j: int|
                    0 <= j < k ==> (#[trigger] mines@[j]).0 < width && mines@[j].1 < height,
                forall|x: int, y: int|
                    grid(cells@, width as int, height as int, 0).in_bounds(x, y) ==> (
                    #[trigger] grid(cells@, width as int, height as int, 0).mine(x, y) <==> listed(
                        mines@,
                        k as int,
                        x,
                        y,
                    )),
            decreases mines@.len() - k,
        {
            let (x, y) = mines[k];
            if x >= columns || y >= rows {
                return Err(ConfigError::OutOfBounds);
            }
            let ghost before = grid(cells@, width as int, height as int, 0);
            let placed = place_mine(&mut cells, columns, rows, x, y);
            if placed {
                count += 1;
            }
            proof {
                let after = grid(cells@, width as int, height as int, 0);
                lemma_index(width as int, height as int, x as int, y as int);
                assert forall|a: int, b: int| after.in_bounds(a, b) implies (#[trigger] after.mine(
                    a,
                    b,
                ) <==> listed(mines@, k + 1, a, b)) by {
                    lemma_index(width as int, height as int, a, b);
                    if a == x && b == y {
                        assert(mines@[k as int].0 == a && mines@[k as int].1 == b);
                    } else {
                        if after.index(a, b) == after.index(x as int, y as int) {
                            lemma_index_injective(width as int, a, b, x as int, y as int);
                        }
                        assert(after.mine(a, b) == before.mine(a, b));
                        if listed(mines@, k as int, a, b) {
                            let j = choose|j: int|
                                0 <= j < k && (#[trigger] mines@[j]).0 == a && mines@[j].1 == b;
                            assert(0 <= j < k + 1 && mines@[j].0 == a && mines@[j].1 == b);
                        }
                        if listed(mines@, k + 1, a, b) {
                            let j = choose|j: int|
                                0 <= j < k + 1 && (#[trigger] mines@[j]).0 == a && mines@[j].1
                                    == b;
                            assert(0 <= j < k && mines@[j].0 == a && mines@[j].1 == b);
                        }
                    }
                }
            }
            k += 1;
        }
        if count == 0 {
            return Err(ConfigError::NoMines);
        }
        proof {
            let laid_out = grid(cells@, width as int, height as int, 0);
            lemma_tally_bound(mine_flags(cells@));
            if count >= total {
                lemma_tally_full(mine_flags(cells@));
                assert forall|x: int, y: int|
                    0 <= x < width && 0 <= y < height implies #[trigger] listed(
                    mines@,
                    mines@.len() as int,
                    x,
                    y,
                ) by {
                    lemma_index(width as int, height as int, x, y);
                    assert(mine_flags(cells@)[laid_out.index(x, y)]);
                    assert(laid_out.mine(x, y));
                }
            } else {
                if forall|x: int, y: int|
                    0 <= x < width && 0 <= y < height ==> #[trigger] listed(
                        mines@,
                        mines@.len() as int,
                        x,
                        y,
                    ) {
                    assert forall|i: int| 0 <= i < mine_flags(cells@).len() implies mine_flags(
                        cells@,
                    )[i] by {
                        lemma_coords(width as int, height as int, i);
                        let x = i % (width as int);
                        let y = i / (width as int);
                        assert(listed(mines@, mines@.len() as int, x, y));
                        assert(laid_out.mine(x, y));
                        assert(laid_out.index(x, y) == i);
                    }
                    lemma_tally_all(mine_flags(cells@));
                }
            }
        }
        if count >= total {
            return Err(ConfigError::TooManyMines);
        }
        let ghost laid_out = grid(cells@, width as int, height as int, 0);
        assign_surrounding(&mut cells, columns, rows);
        proof {
            let plain = grid(cells@, width as int, height as int, 0);
            let board = grid(cells@, width as int, height as int, count as int);
            lemma_mines_in_same(plain, laid_out);
            assert forall|x: int, y: int| #[trigger] board.count_ok(x, y) by {
                assert(plain.count_ok(x, y));
                assert(plain.tile(x, y) == board.tile(x, y));
                assert(plain.neighbor_mines(x, y) == board.neighbor_mines(x, y));
            }
            assert forall|i: int| 0 <= i < board.cells.len() implies (
            #[trigger] board.cells[i]) is Invisible by {
                assert(laid(laid_out.cells[i]));
            }
            lemma_generated(board);
            assert forall|x: int, y: int| board.in_bounds(x, y) implies (#[trigger] board.mine(
                x,
                y,
            ) <==> listed(mines@, mines@.len() as int, x, y)) by {
                lemma_mine_same(plain, laid_out, x, y);
                assert(board.mine(x, y) == plain.mine(x, y));
                assert(laid_out.mine(x, y) <==> listed(mines@, mines@.len() as int, x, y));
            }
        }
        Ok(Board { cells, width: columns, height: rows, mine_count: count })
    }

    /// Generates the board of a difficulty.
    pub fn new(diff: &Difficulty, rng: &mut RandomSource) -> (board: Board)
        ensures
            generated(board@),
            (board@.width, board@.height, board@.mine_count) == preset(*diff),
    {
        let (width, height, mine_count) = match diff {
            Difficulty::Easy => DEFAULT_PARAMS_EASY,
            Difficulty::Medium => DEFAULT_PARAMS_MEDIUM,
            Difficulty::Hard => DEFAULT_PARAMS_HARD,
        };
        assert(width * height <= 480) by (nonlinear_arith)
            requires
                0 < width <= 16,
                0 < height <= 30,
        ;
        match Board::init_board(width, height, mine_count, rng) {
            Ok(cells) => Board {
                cells,
                width: width as usize,
                height: height as usize,
                mine_count: mine_count as usize,
            },
            Err(_) => {
                proof {
                    assert(false);
                }
                Board { cells: Vec::new(), width: 0, height: 0, mine_count: 0 }
            },
        }
    }

    /// The number of columns.
    pub fn width(&self) -> (width: usize)
        ensures
            width == self@.width,
    {
        self.width
    }

    /// The number of rows.
    pub fn height(&self) -> (height: usize)
        ensures
            height == self@.height,
    {
        self.height
    }

    /// The number of mines that the board was generated with.
    pub fn mine_count(&self) -> (mine_count: usize)
        ensures
            mine_count == self@.mine_count,
    {
        self.mine_count
    }

    /// The tile at `(x, y)`, or `None` off the board.
    pub fn tile(&self, x: usize, y: usize) -> (tile: Option<Tile>)
        requires
            self@.wf(),
        ensures
            tile == (if self@.in_bounds(x as int, y as int) {
                Some(self@.tile(x as int, y as int))
            } else {
                None::<Tile>
            }),
    {
        if x >= self.width || y >= self.height {
            return None;
        }
        let total: usize = self.cells.len();
        proof {
            lemma_index(self.width as int, self.height as int, x as int, y as int);
            assert(y * self.width + x < total);
        }
        Some(self.cells[y * self.width + x])
    }

    /// Whether `(x, y)` is on the board and holds a mine.
    pub fn check_mine(&self, x: usize, y: usize) -> (mine: bool)
        requires
            self@.wf(),
        ensures
            mine == self@.mine(x as int, y as int),
    {
        match self.tile(x, y) {
            Some(tile) => tile.is_mine(),
            None => false,
        }
    }

    /// Reveals the tile at `(x, y)` if it is hidden and holds no mine, and
    /// with it what the cascade from it opens. Off the board, on a revealed
    /// tile and on a mine nothing happens.
    pub fn reveal_adjacent(&mut self, x: usize, y: usize)
        requires
            old(self)@.wf(),
        ensures
            final(self)@ == old(self)@.after_reveal(x as int, y as int),
            final(self)@.wf(),
    {
        match self.tile(x, y) {
            Some(tile) => {
                if !tile.is_visible() && !tile.is_mine() {
                    open_region(
                        &mut self.cells,
                        self.width,
                        self.height,
                        self.mine_count,
                        x,
                        y,
                    );
                }
            },
            None => {},
        }
    }

    /// Reveals the tile at `(x, y)` and reports what it found.
    ///
    /// A mine is reported and stays hidden. A hidden tile without a mine is
    /// revealed, together with what the cascade from it opens. Off the board
    /// and on a revealed tile nothing happens.
    pub fn reveal_at(&mut self, x: usize, y: usize) -> (outcome: RevealOutcome)
        requires
            old(self)@.wf(),
        ensures
            outcome == old(self)@.outcome(x as int, y as int),
            final(self)@ == old(self)@.after_reveal(x as int, y as int),
            final(self)@.wf(),
    {
        match self.tile(x, y) {
            Some(tile) => {
                if tile.is_mine() {
                    RevealOutcome::Mine
                } else if tile.is_visible() {
                    RevealOutcome::NoOp
                } else {
                    self.reveal_adjacent(x, y);
                    RevealOutcome::Opened
                }
            },
            None => RevealOutcome::NoOp,
        }
    }

    /// Whether the round is won: every tile without a mine is revealed.
    pub fn is_won(&self) -> (won: bool)
        requires
            self@.wf(),
        ensures
            won == self@.won(),
    {
        let total: usize = self.cells.len();
        let mut i: usize = 0;
        while i < total
            invariant
                i <= total,
                total == self.cells@.len(),
                self@.wf(),
                forall|j: int|
                    0 <= j < i ==> (#[trigger] self.cells@[j]).content() is Mine
                        || self.cells@[j] is Visible,
            decreases total - i,
        {
            let tile = self.cells[i];
            if !tile.is_mine() && !tile.is_visible() {
                proof {
                    lemma_coords(self.width as int, self.height as int, i as int);
                    let x = i as int % self.width as int;
                    let y = i as int / self.width as int;
                    assert(self@.index(x, y) == i);
                    assert(self@.in_bounds(x, y) && !self@.mine(x, y) && !self@.revealed(x, y));
                }
                return false;
            }
            i += 1;
        }
        proof {
            assert forall|x: int, y: int|
                self@.in_bounds(x, y) && !self@.mine(x, y) implies #[trigger] self@.revealed(
                x,
                y,
            ) by {
                lemma_index(self.width as int, self.height as int, x, y);
            }
        }
        true
    }
}

} // verus!
