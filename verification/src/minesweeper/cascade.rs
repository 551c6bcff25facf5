//! The reveal cascade.
//!
//! Revealing a hidden tile without a mine shows it. Where its count is 0
//! the reveal goes on to its eight neighbours, and so on, until the revealed
//! region ends in tiles with a positive count.

use vstd::prelude::*;
use crate::minesweeper::generate::grid;
use crate::minesweeper::grid::{
    adjacent, hidden_flags, hidden_in, lemma_coords, lemma_index, lemma_index_injective,
    lemma_mines_in_same, lemma_neighbor_mines_same, lemma_tally_update, same_mines, BoardView,
};
use crate::minesweeper::tile::Tile;

verus! {

/// Whether every tile revealed in `before` is revealed in `after`.
pub open spec fn grows(before: Seq<Tile>, after: Seq<Tile>) -> bool {
    &&& before.len() == after.len()
    &&& forall|i: int|
        #![trigger before[i]]
        #![trigger after[i]]
        0 <= i < before.len() && before[i] is Visible
            ==> after[i] is Visible
}

/// Whether every tile that is revealed in `after` and was not in `before`
/// is one that a cascade from `(x, y)` on `origin` opens.
pub open spec fn opened_from(
    origin: BoardView,
    before: BoardView,
    after: BoardView,
    x: int,
    y: int,
) -> bool {
    forall|cx: int, cy: int|
        #[trigger] after.revealed(cx, cy) && !before.revealed(cx, cy) ==> origin.opens(
            x,
            y,
            cx,
            cy,
        )
}

/// A cascade that comes from a tile with count 0 to a neighbour opens what
/// a cascade from that neighbour opens.
pub proof fn lemma_opens_step(board: BoardView, x: int, y: int, nx: int, ny: int, cx: int, cy: int)
    requires
        board.blank(x, y),
        adjacent(x, y, nx, ny),
        board.in_bounds(nx, ny),
        board.opens(nx, ny, cx, cy),
    ensures
        board.opens(x, y, cx, cy),
{
    let steps = choose|steps: nat| #[trigger] board.chain(steps, nx, ny, cx, cy);
    let longer: nat = steps + 1;
    assert(board.chain((longer - 1) as nat, nx, ny, cx, cy));
    assert(board.chain(longer, x, y, cx, cy));
}

/// A cascade opens the tile that it starts at.
pub proof fn lemma_opens_start(board: BoardView, x: int, y: int)
    ensures
        board.opens(x, y, x, y),
{
    assert(board.chain(0, x, y, x, y));
}

/// No neighbour of a tile with count 0 holds a mine.
pub proof fn lemma_blank_neighbors(board: BoardView, x: int, y: int, nx: int, ny: int)
    requires
        board.counted(),
        board.blank(x, y),
        adjacent(x, y, nx, ny),
    ensures
        !board.mine(nx, ny),
{
    assert(board.count_ok(x, y));
}

/// Revealing one hidden tile leaves one hidden tile less.
pub proof fn lemma_hidden_update(cells: Seq<Tile>, i: int)
    requires
        0 <= i < cells.len(),
        cells[i] is Invisible,
    ensures
        hidden_in(cells.update(i, cells[i].shown())) == hidden_in(cells) - 1,
{
    lemma_tally_update(hidden_flags(cells), i, false);
    assert(hidden_flags(cells.update(i, cells[i].shown())) =~= hidden_flags(cells).update(
        i,
        false,
    ));
}

/// Reveals `(x, y)` if it is a hidden tile without a mine, and cascades
/// from it if its count is 0.
///
/// `origin` is the board that the outermost reveal started on, and
/// `pending` the tiles with count 0 whose neighbours a caller is still
/// going through.
fn spread(
    cells: &mut Vec<Tile>,
    width: usize,
    height: usize,
    x: i64,
    y: i64,
    Ghost(origin): Ghost<BoardView>,
    Ghost(pending): Ghost<Set<(int, int)>>,
)
    requires
        origin.shaped(),
        origin.counted(),
        origin.width == width,
        origin.height == height,
        grid(old(cells)@, width as int, height as int, origin.mine_count).same_contents(origin),
        grid(old(cells)@, width as int, height as int, origin.mine_count).no_mine_shown(),
        grid(old(cells)@, width as int, height as int, origin.mine_count).settled_except(pending),
    ensures
        grid(final(cells)@, width as int, height as int, origin.mine_count).same_contents(origin),
        grid(final(cells)@, width as int, height as int, origin.mine_count).no_mine_shown(),
        grid(final(cells)@, width as int, height as int, origin.mine_count).settled_except(
            pending,
        ),
        grows(old(cells)@, final(cells)@),
        origin.in_bounds(x as int, y as int) && !origin.mine(x as int, y as int) ==> grid(
            final(cells)@,
            width as int,
            height as int,
            origin.mine_count,
        ).revealed(x as int, y as int),
        opened_from(
            origin,
            grid(old(cells)@, width as int, height as int, origin.mine_count),
            grid(final(cells)@, width as int, height as int, origin.mine_count),
            x as int,
            y as int,
        ),
        hidden_in(final(cells)@) <= hidden_in(old(cells)@),
    decreases hidden_in(old(cells)@),
{
    if x < 0 || y < 0 || x >= width as i64 || y >= height as i64 {
        return ;
    }
    let total: usize = cells.len();
    let column: usize = x as usize;
    let row: usize = y as usize;
    proof {
        lemma_index(width as int, height as int, x as int, y as int);
        assert(row * width + column < total);
    }
    let i: usize = row * width + column;
    let tile = cells[i];
    if tile.is_visible() || tile.is_mine() {
        return ;
    }
    let ghost before = grid(cells@, width as int, height as int, origin.mine_count);
    proof {
        lemma_hidden_update(cells@, i as int);
    }
    cells.set(i, tile.revealed());
    let ghost shown = grid(cells@, width as int, height as int, origin.mine_count);
    let ghost waiting = if origin.blank(x as int, y as int) {
        pending.insert((x as int, y as int))
    } else {
        pending
    };
    proof {
        assert(shown.cells[i as int].content() == origin.cells[i as int].content());
        assert(shown.revealed(x as int, y as int));
        assert forall|ax: int, ay: int, nx: int, ny: int|
            #[trigger] adjacent(ax, ay, nx, ny) && shown.revealed(ax, ay) && shown.blank(ax, ay)
                && !waiting.contains((ax, ay)) && shown.in_bounds(nx, ny) implies shown.revealed(
            nx,
            ny,
        ) by {
            lemma_index(width as int, height as int, ax, ay);
            lemma_index(width as int, height as int, nx, ny);
            if shown.index(ax, ay) == i {
                lemma_index_injective(width as int, ax, ay, x as int, y as int);
                assert(origin.blank(x as int, y as int));
            } else {
                assert(before.revealed(ax, ay) && before.blank(ax, ay));
                assert(before.revealed(nx, ny));
            }
        }
        assert forall|mx: int, my: int| #[trigger] shown.mine(mx, my) implies !shown.revealed(
            mx,
            my,
        ) by {
            lemma_index(width as int, height as int, mx, my);
            if shown.index(mx, my) != i {
                assert(before.mine(mx, my));
            }
        }
        lemma_opens_start(origin, x as int, y as int);
        assert(opened_from(origin, before, shown, x as int, y as int)) by {
            assert forall|cx: int, cy: int|
                #[trigger] shown.revealed(cx, cy) && !before.revealed(cx, cy) implies origin.opens(
                x as int,
                y as int,
                cx,
                cy,
            ) by {
                lemma_index(width as int, height as int, cx, cy);
                lemma_index_injective(width as int, cx, cy, x as int, y as int);
            }
        }
    }
    if let Some(surrounding) = tile.get_empty() {
        if surrounding == 0 {
            let mut k: i64 = 0;
            while k < 9
                invariant
                    0 <= k <= 9,
                    0 <= x < width,
                    0 <= y < height,
                    origin.shaped(),
                    origin.counted(),
                    origin.width == width,
                    origin.height == height,
                    origin.blank(x as int, y as int),
                    waiting == pending.insert((x as int, y as int)),
                    before == grid(old(cells)@, width as int, height as int, origin.mine_count),
                    grid(cells@, width as int, height as int, origin.mine_count).same_contents(
                        origin,
                    ),
                    grid(cells@, width as int, height as int, origin.mine_count).no_mine_shown(),
                    grid(cells@, width as int, height as int, origin.mine_count).settled_except(
                        waiting,
                    ),
                    grows(old(cells)@, cells@),
                    grid(cells@, width as int, height as int, origin.mine_count).revealed(
                        x as int,
                        y as int,
                    ),
                    opened_from(
                        origin,
                        before,
                        grid(cells@, width as int, height as int, origin.mine_count),
                        x as int,
                        y as int,
                    ),
                    hidden_in(cells@) < hidden_in(old(cells)@),
                    forall|j: int|
                        0 <= j < k && j != 4 && origin.in_bounds(x + j % 3 - 1, y + j / 3 - 1)
                            ==> #[trigger] grid(
                            cells@,
                            width as int,
                            height as int,
                            origin.mine_count,
                        ).revealed(x + j % 3 - 1, y + j / 3 - 1),
                decreases 9 - k,
            {
                if k != 4 {
                    let nx: i64 = x + k % 3 - 1;
                    let ny: i64 = y + k / 3 - 1;
                    let ghost earlier = grid(
                        cells@,
                        width as int,
                        height as int,
                        origin.mine_count,
                    );
                    proof {
                        assert(adjacent(x as int, y as int, nx as int, ny as int));
                        lemma_blank_neighbors(origin, x as int, y as int, nx as int, ny as int);
                        lemma_index(width as int, height as int, x as int, y as int);
                    }
                    spread(cells, width, height, nx, ny, Ghost(origin), Ghost(waiting));
                    proof {
                        let later = grid(cells@, width as int, height as int, origin.mine_count);
                        assert(grows(old(cells)@, cells@));
                        assert forall|cx: int, cy: int|
                            #[trigger] later.revealed(cx, cy) && !before.revealed(
                                cx,
                                cy,
                            ) implies origin.opens(x as int, y as int, cx, cy) by {
                            if !earlier.revealed(cx, cy) {
                                lemma_opens_step(
                                    origin,
                                    x as int,
                                    y as int,
                                    nx as int,
                                    ny as int,
                                    cx,
                                    cy,
                                );
                            }
                        }
                        assert forall|j: int|
                            0 <= j < k + 1 && j != 4 && origin.in_bounds(
                                x + j % 3 - 1,
                                y + j / 3 - 1,
                            ) implies #[trigger] later.revealed(x + j % 3 - 1, y + j / 3 - 1) by {
                            lemma_index(width as int, height as int, x + j % 3 - 1, y + j / 3 - 1);
                            if j < k {
                                assert(earlier.revealed(x + j % 3 - 1, y + j / 3 - 1));
                            }
                        }
                    }
                }
                k += 1;
            }
            proof {
                let after = grid(cells@, width as int, height as int, origin.mine_count);
                assert forall|ax: int, ay: int, nx: int, ny: int|
                    #[trigger] adjacent(ax, ay, nx, ny) && after.revealed(ax, ay) && after.blank(
                        ax,
                        ay,
                    ) && !pending.contains((ax, ay)) && after.in_bounds(nx, ny) implies after.revealed(
                    nx,
                    ny,
                ) by {
                    if ax == x && ay == y {
                        let j = (ny - y + 1) * 3 + (nx - x + 1);
                        assert(0 <= j < 9 && j != 4);
                        assert(nx == x + j % 3 - 1 && ny == y + j / 3 - 1);
                        assert(after.revealed(x + j % 3 - 1, y + j / 3 - 1));
                    } else {
                        assert(!waiting.contains((ax, ay)));
                    }
                }
            }
        }
    }
}

/// On a board around whose revealed tiles with count 0 everything is
/// revealed, a cascade from a revealed tile comes to revealed tiles only.
pub proof fn lemma_settled_reaches(
    after: BoardView,
    origin: BoardView,
    steps: nat,
    x: int,
    y: int,
    cx: int,
    cy: int,
)
    requires
        after.shaped(),
        after.same_contents(origin),
        after.settled(),
        after.revealed(x, y),
        origin.chain(steps, x, y, cx, cy),
    ensures
        after.revealed(cx, cy),
    decreases steps, 0int,
{
    if steps > 0 {
        let rest = (steps - 1) as nat;
        lemma_settled_hop(after, origin, rest, x, y, x - 1, y - 1, cx, cy);
        lemma_settled_hop(after, origin, rest, x, y, x, y - 1, cx, cy);
        lemma_settled_hop(after, origin, rest, x, y, x + 1, y - 1, cx, cy);
        lemma_settled_hop(after, origin, rest, x, y, x - 1, y, cx, cy);
        lemma_settled_hop(after, origin, rest, x, y, x + 1, y, cx, cy);
        lemma_settled_hop(after, origin, rest, x, y, x - 1, y + 1, cx, cy);
        lemma_settled_hop(after, origin, rest, x, y, x, y + 1, cx, cy);
        lemma_settled_hop(after, origin, rest, x, y, x + 1, y + 1, cx, cy);
    }
}

/// One step of `lemma_settled_reaches`: from the revealed tile `(x, y)`
/// with count 0 to its neighbour `(nx, ny)`, and on from there.
pub proof fn lemma_settled_hop(
    after: BoardView,
    origin: BoardView,
    rest: nat,
    x: int,
    y: int,
    nx: int,
    ny: int,
    cx: int,
    cy: int,
)
    requires
        after.shaped(),
        after.same_contents(origin),
        after.settled(),
        after.revealed(x, y),
        origin.blank(x, y),
        adjacent(x, y, nx, ny),
    ensures
        origin.in_bounds(nx, ny) && origin.chain(rest, nx, ny, cx, cy) ==> after.revealed(cx, cy),
    decreases rest, 1int,
{
    if origin.in_bounds(nx, ny) && origin.chain(rest, nx, ny, cx, cy) {
        lemma_index(after.width, after.height, x, y);
        assert(after.blank(x, y));
        assert(after.revealed(nx, ny));
        lemma_settled_reaches(after, origin, rest, nx, ny, cx, cy);
    }
}

/// Boards with the same contents have their mines on the same tiles.
pub proof fn lemma_same_contents_mines(a: BoardView, b: BoardView)
    requires
        a.same_contents(b),
    ensures
        same_mines(a, b),
{
}

/// A board with the contents of a board in order, on which no mine is
/// revealed and the revealed region ends in positive counts, is in order.
pub proof fn lemma_contents_keep_wf(before: BoardView, after: BoardView)
    requires
        before.wf(),
        after.same_contents(before),
        after.no_mine_shown(),
        after.settled(),
    ensures
        after.wf(),
{
    lemma_same_contents_mines(after, before);
    lemma_mines_in_same(after, before);
    assert forall|x: int, y: int| #[trigger] after.count_ok(x, y) by {
        assert(before.count_ok(x, y));
        if after.in_bounds(x, y) {
            lemma_index(after.width, after.height, x, y);
            lemma_neighbor_mines_same(after, before, x, y);
        }
    }
}

/// What the cascade leaves is the board after the reveal, neither more nor
/// less.
pub proof fn lemma_reveal_exact(before: BoardView, after: BoardView, x: int, y: int)
    requires
        before.wf(),
        before.can_open(x, y),
        after.same_contents(before),
        grows(before.cells, after.cells),
        after.no_mine_shown(),
        after.settled(),
        after.revealed(x, y),
        opened_from(before, before, after, x, y),
    ensures
        after == before.after_reveal(x, y),
        after.wf(),
{
    lemma_contents_keep_wf(before, after);
    let expected = before.after_reveal(x, y);
    assert forall|i: int| 0 <= i < after.cells.len() implies after.cells[i] == expected.cells[i] by {
        lemma_coords(before.width, before.height, i);
        let cx = i % before.width;
        let cy = i / before.width;
        assert(after.index(cx, cy) == i);
        assert(after.cells[i].content() == before.cells[i].content());
        if before.opens(x, y, cx, cy) {
            let steps = choose|steps: nat| #[trigger] before.chain(steps, x, y, cx, cy);
            lemma_settled_reaches(after, before, steps, x, y, cx, cy);
            assert(after.revealed(cx, cy));
        } else {
            if after.cells[i] is Visible {
                assert(after.revealed(cx, cy));
                assert(before.revealed(cx, cy));
            }
        }
    }
    assert(after.cells =~= expected.cells);
}

/// Reveals the hidden tile without a mine at `(x, y)` and what its cascade
/// opens.
pub fn open_region(
    cells: &mut Vec<Tile>,
    width: usize,
    height: usize,
    mine_count: usize,
    x: usize,
    y: usize,
)
    requires
        grid(old(cells)@, width as int, height as int, mine_count as int).wf(),
        grid(old(cells)@, width as int, height as int, mine_count as int).can_open(
            x as int,
            y as int,
        ),
    ensures
        grid(final(cells)@, width as int, height as int, mine_count as int) == grid(
            old(cells)@,
            width as int,
            height as int,
            mine_count as int,
        ).after_reveal(x as int, y as int),
        grid(final(cells)@, width as int, height as int, mine_count as int).wf(),
{
    let ghost before = grid(cells@, width as int, height as int, mine_count as int);
    spread(cells, width, height, x as i64, y as i64, Ghost(before), Ghost(Set::empty()));
    proof {
        let after = grid(cells@, width as int, height as int, mine_count as int);
        lemma_reveal_exact(before, after, x as int, y as int);
    }
}

} // verus!
