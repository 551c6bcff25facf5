//! The mathematical model of a board.
//!
//! A board is a sequence of tiles, row after row, together with its width
//! and height. Everything that the contracts of the engine say is said over
//! this model: where the mines are, what a tile's count has to be, which
//! tiles a reveal opens.

use vstd::prelude::*;
use vstd::arithmetic::div_mod::lemma_fundamental_div_mod_converse;
use crate::minesweeper::tile::{Content, Tile};

verus! {

/// How many entries of `flags` are set.
pub open spec fn tally(flags: Seq<bool>) -> nat
    decreases flags.len(),
{
    if flags.len() == 0 {
        0
    } else {
        tally(flags.drop_last()) + if flags.last() { 1nat } else { 0nat }
    }
}

/// For each tile, whether it holds a mine.
pub open spec fn mine_flags(cells: Seq<Tile>) -> Seq<bool> {
    Seq::new(cells.len(), |i: int| cells[i].content() is Mine)
}

/// For each tile, whether it is still hidden.
pub open spec fn hidden_flags(cells: Seq<Tile>) -> Seq<bool> {
    Seq::new(cells.len(), |i: int| cells[i] is Invisible)
}

/// The number of mines among `cells`.
pub open spec fn mines_in(cells: Seq<Tile>) -> nat {
    tally(mine_flags(cells))
}

/// The number of hidden tiles among `cells`.
pub open spec fn hidden_in(cells: Seq<Tile>) -> nat {
    tally(hidden_flags(cells))
}

/// 1 for `true`, 0 for `false`.
pub open spec fn one_if(flag: bool) -> int {
    if flag { 1 } else { 0 }
}

/// Whether `(nx, ny)` is one of the eight neighbours of `(x, y)`.
pub open spec fn adjacent(x: int, y: int, nx: int, ny: int) -> bool {
    &&& x - 1 <= nx <= x + 1
    &&& y - 1 <= ny <= y + 1
    &&& !(nx == x && ny == y)
}

/// What a reveal reports.
#[derive(Clone, Copy, Debug, PartialEq, Eq, Structural)]
pub enum RevealOutcome {
    /// The tile holds a mine; nothing was revealed.
    Mine,
    /// The tile was hidden and holds no mine; it is revealed now.
    Opened,
    /// The coordinate is off the board or the tile was revealed already;
    /// nothing changed.
    NoOp,
}

/// A board as the contracts see it.
pub struct BoardView {
    pub width: int,
    pub height: int,
    pub mine_count: int,
    pub cells: Seq<Tile>,
}

impl BoardView {
    /// Whether `(x, y)` is a coordinate of the board.
    pub open spec fn in_bounds(self, x: int, y: int) -> bool {
        0 <= x < self.width && 0 <= y < self.height
    }

    /// Where the tile at `(x, y)` stands in `cells`.
    pub open spec fn index(self, x: int, y: int) -> int {
        y * self.width + x
    }

    /// The tile at `(x, y)`.
    pub open spec fn tile(self, x: int, y: int) -> Tile {
        self.cells[self.index(x, y)]
    }

    /// Whether `(x, y)` is on the board and holds a mine.
    pub open spec fn mine(self, x: int, y: int) -> bool {
        self.in_bounds(x, y) && self.tile(x, y).content() is Mine
    }

    /// Whether `(x, y)` is on the board and revealed.
    pub open spec fn revealed(self, x: int, y: int) -> bool {
        self.in_bounds(x, y) && self.tile(x, y) is Visible
    }

    /// Whether `(x, y)` is on the board and stores the count 0.
    pub open spec fn blank(self, x: int, y: int) -> bool {
        self.in_bounds(x, y) && self.tile(x, y).content() == Content::Empty(0)
    }

    /// The number of mines on the up to eight neighbours of `(x, y)`;
    /// a neighbour off the board counts as no mine.
    pub open spec fn neighbor_mines(self, x: int, y: int) -> int {
        one_if(self.mine(x - 1, y - 1)) + one_if(self.mine(x, y - 1)) + one_if(
            self.mine(x + 1, y - 1),
        ) + one_if(self.mine(x - 1, y)) + one_if(self.mine(x + 1, y)) + one_if(
            self.mine(x - 1, y + 1),
        ) + one_if(self.mine(x, y + 1)) + one_if(self.mine(x + 1, y + 1))
    }

    /// The board has a positive width and height, both within `i32`, and one
    /// tile for each coordinate.
    pub open spec fn shaped(self) -> bool {
        &&& 0 < self.width <= i32::MAX
        &&& 0 < self.height <= i32::MAX
        &&& self.cells.len() == self.width * self.height
    }

    /// Whether `(x, y)`, if it is on the board and holds no mine, stores the
    /// number of its mined neighbours.
    pub open spec fn count_ok(self, x: int, y: int) -> bool {
        self.in_bounds(x, y) && !self.mine(x, y) ==> self.tile(x, y).content() == Content::Empty(
            self.neighbor_mines(x, y) as i32,
        )
    }

    /// Every tile without a mine stores the number of its mined neighbours.
    pub open spec fn counted(self) -> bool {
        forall|x: int, y: int| #[trigger] self.count_ok(x, y)
    }

    /// Every tile is hidden.
    pub open spec fn all_hidden(self) -> bool {
        forall|x: int, y: int| self.in_bounds(x, y) ==> !#[trigger] self.revealed(x, y)
    }

    /// No mine is revealed.
    pub open spec fn no_mine_shown(self) -> bool {
        forall|x: int, y: int| #[trigger] self.mine(x, y) ==> !self.revealed(x, y)
    }

    /// Around every revealed tile with count 0 that is not in `pending`, all
    /// neighbours are revealed.
    pub open spec fn settled_except(self, pending: Set<(int, int)>) -> bool {
        forall|x: int, y: int, nx: int, ny: int|
            #[trigger] adjacent(x, y, nx, ny) && self.revealed(x, y) && self.blank(x, y)
                && !pending.contains((x, y)) && self.in_bounds(nx, ny) ==> self.revealed(nx, ny)
    }

    /// Around every revealed tile with count 0, all neighbours are revealed:
    /// where the revealed region ends, the counts are positive.
    pub open spec fn settled(self) -> bool {
        self.settled_except(Set::empty())
    }

    /// The state of a board in play: generated as the rules ask, and revealed
    /// only by reveals.
    pub open spec fn wf(self) -> bool {
        &&& self.shaped()
        &&& self.counted()
        &&& 0 < self.mine_count < self.width * self.height
        &&& mines_in(self.cells) == self.mine_count
        &&& self.no_mine_shown()
        &&& self.settled()
    }

    /// Whether `a` and `b` are boards of the same size with the same content
    /// on every tile; they may differ in what is revealed.
    pub open spec fn same_contents(self, other: BoardView) -> bool {
        &&& self.width == other.width
        &&& self.height == other.height
        &&& self.mine_count == other.mine_count
        &&& self.cells.len() == other.cells.len()
        &&& forall|i: int|
            0 <= i < self.cells.len() ==> (#[trigger] self.cells[i]).content()
                == other.cells[i].content()
    }

    /// Whether a cascade that starts at `(x, y)` comes to `(cx, cy)` in
    /// `steps` steps: each step goes from a tile with count 0 to one of its
    /// eight neighbours, as far as that one is on the board.
    pub open spec fn chain(self, steps: nat, x: int, y: int, cx: int, cy: int) -> bool
        decreases steps,
    {
        if steps == 0 {
            x == cx && y == cy
        } else {
            let rest = (steps - 1) as nat;
            self.blank(x, y) && {
                ||| self.in_bounds(x - 1, y - 1) && self.chain(rest, x - 1, y - 1, cx, cy)
                ||| self.in_bounds(x, y - 1) && self.chain(rest, x, y - 1, cx, cy)
                ||| self.in_bounds(x + 1, y - 1) && self.chain(rest, x + 1, y - 1, cx, cy)
                ||| self.in_bounds(x - 1, y) && self.chain(rest, x - 1, y, cx, cy)
                ||| self.in_bounds(x + 1, y) && self.chain(rest, x + 1, y, cx, cy)
                ||| self.in_bounds(x - 1, y + 1) && self.chain(rest, x - 1, y + 1, cx, cy)
                ||| self.in_bounds(x, y + 1) && self.chain(rest, x, y + 1, cx, cy)
                ||| self.in_bounds(x + 1, y + 1) && self.chain(rest, x + 1, y + 1, cx, cy)
            }
        }
    }

    /// Whether a cascade that starts at `(x, y)` opens `(cx, cy)`.
    pub open spec fn opens(self, x: int, y: int, cx: int, cy: int) -> bool {
        exists|steps: nat| #[trigger] self.chain(steps, x, y, cx, cy)
    }

    /// Whether a reveal at `(x, y)` opens anything: the coordinate is on the
    /// board, and the tile there is hidden and holds no mine.
    pub open spec fn can_open(self, x: int, y: int) -> bool {
        self.in_bounds(x, y) && !self.revealed(x, y) && !self.mine(x, y)
    }

    /// The board after a reveal at `(x, y)`. Where the reveal opens anything,
    /// the tiles that its cascade comes to are revealed and nothing else
    /// changes; elsewhere the board stays as it is.
    pub open spec fn after_reveal(self, x: int, y: int) -> BoardView {
        if self.can_open(x, y) {
            BoardView {
                cells: Seq::new(
                    self.cells.len(),
                    |i: int|
                        if self.opens(x, y, i % self.width, i / self.width) {
                            self.cells[i].shown()
                        } else {
                            self.cells[i]
                        },
                ),
                ..self
            }
        } else {
            self
        }
    }

    /// What a reveal at `(x, y)` reports.
    pub open spec fn outcome(self, x: int, y: int) -> RevealOutcome {
        if self.mine(x, y) {
            RevealOutcome::Mine
        } else if self.can_open(x, y) {
            RevealOutcome::Opened
        } else {
            RevealOutcome::NoOp
        }
    }

    /// Whether the round is won: every tile without a mine is revealed.
    pub open spec fn won(self) -> bool {
        forall|x: int, y: int|
            self.in_bounds(x, y) && !self.mine(x, y) ==> #[trigger] self.revealed(x, y)
    }
}

/// A coordinate on the board has its place in the sequence of tiles, and the
/// place gives the coordinate back.
pub proof fn lemma_index(width: int, height: int, x: int, y: int)
    requires
        0 <= x < width,
        0 <= y < height,
    ensures
        0 <= y * width + x < width * height,
        (y * width + x) % width == x,
        (y * width + x) / width == y,
{
    assert(y * width + x < width * height) by (nonlinear_arith)
        requires
            0 <= x < width,
            0 <= y < height,
    ;
    assert(0 <= y * width) by (nonlinear_arith)
        requires
            0 <= y,
            0 < width,
    ;
    lemma_fundamental_div_mod_converse(y * width + x, width, y, x);
}

/// Every place in the sequence of tiles belongs to one coordinate on the board.
pub proof fn lemma_coords(width: int, height: int, i: int)
    requires
        0 < width,
        0 <= i < width * height,
    ensures
        0 <= i % width < width,
        0 <= i / width < height,
        (i / width) * width + i % width == i,
{
    vstd::arithmetic::div_mod::lemma_fundamental_div_mod(i, width);
    vstd::arithmetic::div_mod::lemma_mod_bound(i, width);
    let q = i / width;
    let r = i % width;
    assert(q * width == width * q) by (nonlinear_arith);
    assert(0 <= q < height) by (nonlinear_arith)
        requires
            0 < width,
            0 <= r < width,
            0 <= i < width * height,
            i == q * width + r,
    ;
}

/// Two coordinates on the board that share a place are the same coordinate.
pub proof fn lemma_index_injective(width: int, x: int, y: int, x2: int, y2: int)
    requires
        0 <= x < width,
        0 <= x2 < width,
        0 <= y,
        0 <= y2,
        y * width + x == y2 * width + x2,
    ensures
        x == x2,
        y == y2,
{
    lemma_fundamental_div_mod_converse(y * width + x, width, y, x);
    lemma_fundamental_div_mod_converse(y2 * width + x2, width, y2, x2);
}

/// No more entries are set than there are entries.
pub proof fn lemma_tally_bound(flags: Seq<bool>)
    ensures
        tally(flags) <= flags.len(),
    decreases flags.len(),
{
    if flags.len() > 0 {
        lemma_tally_bound(flags.drop_last());
    }
}

/// Changing one entry changes the tally by that entry alone.
pub proof fn lemma_tally_update(flags: Seq<bool>, i: int, flag: bool)
    requires
        0 <= i < flags.len(),
    ensures
        tally(flags.update(i, flag)) == tally(flags) - one_if(flags[i]) + one_if(flag),
    decreases flags.len(),
{
    let changed = flags.update(i, flag);
    if i == flags.len() - 1 {
        assert(changed.drop_last() =~= flags.drop_last());
    } else {
        lemma_tally_update(flags.drop_last(), i, flag);
        assert(changed.drop_last() =~= flags.drop_last().update(i, flag));
    }
}

/// The tally of the first `i + 1` entries is that of the first `i` and entry `i`.
pub proof fn lemma_tally_take(flags: Seq<bool>, i: int)
    requires
        0 <= i < flags.len(),
    ensures
        tally(flags.take(i + 1)) == tally(flags.take(i)) + one_if(flags[i]),
{
    assert(flags.take(i + 1).drop_last() =~= flags.take(i));
}

/// The entries from `i` on hold what the first `i` leave of the tally, and
/// no more than one each.
pub proof fn lemma_tally_rest(flags: Seq<bool>, i: int)
    requires
        0 <= i <= flags.len(),
    ensures
        tally(flags.take(i)) <= tally(flags),
        tally(flags) - tally(flags.take(i)) <= flags.len() - i,
    decreases flags.len() - i,
{
    if i == flags.len() {
        assert(flags.take(i) =~= flags);
    } else {
        lemma_tally_take(flags, i);
        lemma_tally_rest(flags, i + 1);
    }
}

/// Where no entry is set the tally is 0.
pub proof fn lemma_tally_none(flags: Seq<bool>)
    requires
        forall|i: int| 0 <= i < flags.len() ==> !flags[i],
    ensures
        tally(flags) == 0,
    decreases flags.len(),
{
    if flags.len() > 0 {
        lemma_tally_none(flags.drop_last());
    }
}

/// Where the tally equals the length every entry is set.
pub proof fn lemma_tally_full(flags: Seq<bool>)
    requires
        tally(flags) == flags.len(),
    ensures
        forall|i: int| 0 <= i < flags.len() ==> flags[i],
    decreases flags.len(),
{
    if flags.len() > 0 {
        lemma_tally_bound(flags.drop_last());
        lemma_tally_full(flags.drop_last());
        assert forall|i: int| 0 <= i < flags.len() implies flags[i] by {
            if i < flags.len() - 1 {
                assert(flags.drop_last()[i] == flags[i]);
            }
        }
    }
}

/// Where every entry is set the tally equals the length.
pub proof fn lemma_tally_all(flags: Seq<bool>)
    requires
        forall|i: int| 0 <= i < flags.len() ==> flags[i],
    ensures
        tally(flags) == flags.len(),
    decreases flags.len(),
{
    if flags.len() > 0 {
        lemma_tally_all(flags.drop_last());
    }
}

/// Whether two boards of the same size have their mines on the same tiles.
pub open spec fn same_mines(a: BoardView, b: BoardView) -> bool {
    &&& a.width == b.width
    &&& a.height == b.height
    &&& a.cells.len() == b.cells.len()
    &&& forall|i: int|
        0 <= i < a.cells.len() ==> ((#[trigger] a.cells[i]).content() is Mine) == (
        b.cells[i].content() is Mine)
}

/// Boards with their mines on the same tiles agree on whether a coordinate
/// holds a mine.
pub proof fn lemma_mine_same(a: BoardView, b: BoardView, x: int, y: int)
    requires
        a.shaped(),
        same_mines(a, b),
    ensures
        a.mine(x, y) == b.mine(x, y),
{
    if a.in_bounds(x, y) {
        lemma_index(a.width, a.height, x, y);
        assert(a.cells[a.index(x, y)].content() is Mine == b.cells[a.index(x, y)].content() is Mine);
    }
}

/// Boards with their mines on the same tiles agree on the number of mined
/// neighbours of every coordinate.
pub proof fn lemma_neighbor_mines_same(a: BoardView, b: BoardView, x: int, y: int)
    requires
        a.shaped(),
        same_mines(a, b),
    ensures
        a.neighbor_mines(x, y) == b.neighbor_mines(x, y),
        0 <= a.neighbor_mines(x, y) <= 8,
{
    lemma_mine_same(a, b, x - 1, y - 1);
    lemma_mine_same(a, b, x, y - 1);
    lemma_mine_same(a, b, x + 1, y - 1);
    lemma_mine_same(a, b, x - 1, y);
    lemma_mine_same(a, b, x + 1, y);
    lemma_mine_same(a, b, x - 1, y + 1);
    lemma_mine_same(a, b, x, y + 1);
    lemma_mine_same(a, b, x + 1, y + 1);
}

/// Boards with their mines on the same tiles hold the same number of mines.
pub proof fn lemma_mines_in_same(a: BoardView, b: BoardView)
    requires
        same_mines(a, b),
    ensures
        mines_in(a.cells) == mines_in(b.cells),
{
    assert(mine_flags(a.cells) =~= mine_flags(b.cells));
}

} // verus!
