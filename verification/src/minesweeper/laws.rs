//! What holds of every board in play, whatever was revealed on it.

use vstd::prelude::*;
use crate::minesweeper::cascade::{lemma_blank_neighbors, lemma_contents_keep_wf, lemma_opens_start};
use crate::minesweeper::grid::{adjacent, lemma_index, BoardView, RevealOutcome};

verus! {

/// After a reveal that opens something, a tile is revealed if the cascade
/// opens it, and is as it was otherwise.
pub proof fn lemma_after_reveal_tile(board: BoardView, x: int, y: int, cx: int, cy: int)
    requires
        board.shaped(),
        board.can_open(x, y),
        board.in_bounds(cx, cy),
    ensures
        board.after_reveal(x, y).tile(cx, cy) == (if board.opens(x, y, cx, cy) {
            board.tile(cx, cy).shown()
        } else {
            board.tile(cx, cy)
        }),
        board.after_reveal(x, y).in_bounds(cx, cy),
{
    lemma_index(board.width, board.height, cx, cy);
}

/// A cascade that comes to a tile with count 0 comes to its neighbours too.
pub proof fn lemma_chain_extend(
    board: BoardView,
    steps: nat,
    x: int,
    y: int,
    ax: int,
    ay: int,
    nx: int,
    ny: int,
)
    requires
        board.chain(steps, x, y, ax, ay),
        board.blank(ax, ay),
        adjacent(ax, ay, nx, ny),
        board.in_bounds(nx, ny),
    ensures
        board.chain(steps + 1, x, y, nx, ny),
    decreases steps,
{
    let longer: nat = steps + 1;
    if steps == 0 {
        assert(board.chain(0, nx, ny, nx, ny));
        assert(board.chain((longer - 1) as nat, nx, ny, nx, ny));
    } else {
        let rest = (steps - 1) as nat;
        if board.in_bounds(x - 1, y - 1) && board.chain(rest, x - 1, y - 1, ax, ay) {
            lemma_chain_extend(board, rest, x - 1, y - 1, ax, ay, nx, ny);
        } else if board.in_bounds(x, y - 1) && board.chain(rest, x, y - 1, ax, ay) {
            lemma_chain_extend(board, rest, x, y - 1, ax, ay, nx, ny);
        } else if board.in_bounds(x + 1, y - 1) && board.chain(rest, x + 1, y - 1, ax, ay) {
            lemma_chain_extend(board, rest, x + 1, y - 1, ax, ay, nx, ny);
        } else if board.in_bounds(x - 1, y) && board.chain(rest, x - 1, y, ax, ay) {
            lemma_chain_extend(board, rest, x - 1, y, ax, ay, nx, ny);
        } else if board.in_bounds(x + 1, y) && board.chain(rest, x + 1, y, ax, ay) {
            lemma_chain_extend(board, rest, x + 1, y, ax, ay, nx, ny);
        } else if board.in_bounds(x - 1, y + 1) && board.chain(rest, x - 1, y + 1, ax, ay) {
            lemma_chain_extend(board, rest, x - 1, y + 1, ax, ay, nx, ny);
        } else if board.in_bounds(x, y + 1) && board.chain(rest, x, y + 1, ax, ay) {
            lemma_chain_extend(board, rest, x, y + 1, ax, ay, nx, ny);
        } else {
            lemma_chain_extend(board, rest, x + 1, y + 1, ax, ay, nx, ny);
        }
        assert(board.chain((longer - 1) as nat, x - 1, y - 1, nx, ny) || board.chain(
            (longer - 1) as nat,
            x,
            y - 1,
            nx,
            ny,
        ) || board.chain((longer - 1) as nat, x + 1, y - 1, nx, ny) || board.chain(
            (longer - 1) as nat,
            x - 1,
            y,
            nx,
            ny,
        ) || board.chain((longer - 1) as nat, x + 1, y, nx, ny) || board.chain(
            (longer - 1) as nat,
            x - 1,
            y + 1,
            nx,
            ny,
        ) || board.chain((longer - 1) as nat, x, y + 1, nx, ny) || board.chain(
            (longer - 1) as nat,
            x + 1,
            y + 1,
            nx,
            ny,
        ));
    }
}

/// A cascade that starts on the board at a tile without a mine comes only
/// to tiles on the board without a mine.
pub proof fn lemma_chain_safe(board: BoardView, steps: nat, x: int, y: int, cx: int, cy: int)
    requires
        board.counted(),
        board.in_bounds(x, y),
        !board.mine(x, y),
        board.chain(steps, x, y, cx, cy),
    ensures
        board.in_bounds(cx, cy),
        !board.mine(cx, cy),
    decreases steps,
{
    if steps > 0 {
        let rest = (steps - 1) as nat;
        if board.in_bounds(x - 1, y - 1) && board.chain(rest, x - 1, y - 1, cx, cy) {
            lemma_blank_neighbors(board, x, y, x - 1, y - 1);
            lemma_chain_safe(board, rest, x - 1, y - 1, cx, cy);
        } else if board.in_bounds(x, y - 1) && board.chain(rest, x, y - 1, cx, cy) {
            lemma_blank_neighbors(board, x, y, x, y - 1);
            lemma_chain_safe(board, rest, x, y - 1, cx, cy);
        } else if board.in_bounds(x + 1, y - 1) && board.chain(rest, x + 1, y - 1, cx, cy) {
            lemma_blank_neighbors(board, x, y, x + 1, y - 1);
            lemma_chain_safe(board, rest, x + 1, y - 1, cx, cy);
        } else if board.in_bounds(x - 1, y) && board.chain(rest, x - 1, y, cx, cy) {
            lemma_blank_neighbors(board, x, y, x - 1, y);
            lemma_chain_safe(board, rest, x - 1, y, cx, cy);
        } else if board.in_bounds(x + 1, y) && board.chain(rest, x + 1, y, cx, cy) {
            lemma_blank_neighbors(board, x, y, x + 1, y);
            lemma_chain_safe(board, rest, x + 1, y, cx, cy);
        } else if board.in_bounds(x - 1, y + 1) && board.chain(rest, x - 1, y + 1, cx, cy) {
            lemma_blank_neighbors(board, x, y, x - 1, y + 1);
            lemma_chain_safe(board, rest, x - 1, y + 1, cx, cy);
        } else if board.in_bounds(x, y + 1) && board.chain(rest, x, y + 1, cx, cy) {
            lemma_blank_neighbors(board, x, y, x, y + 1);
            lemma_chain_safe(board, rest, x, y + 1, cx, cy);
        } else {
            lemma_blank_neighbors(board, x, y, x + 1, y + 1);
            lemma_chain_safe(board, rest, x + 1, y + 1, cx, cy);
        }
    }
}

/// A reveal changes no tile's content and hides no tile: what was revealed
/// stays revealed, and a tile that is revealed afterwards and was not
/// before is one that the cascade from `(x, y)` opens.
pub proof fn law_reveal_one_way(board: BoardView, x: int, y: int)
    requires
        board.wf(),
    ensures
        board.after_reveal(x, y).same_contents(board),
        forall|cx: int, cy: int| #[trigger]
            board.revealed(cx, cy) ==> board.after_reveal(x, y).revealed(cx, cy),
        forall|cx: int, cy: int|
            #[trigger] board.after_reveal(x, y).revealed(cx, cy) && !board.revealed(cx, cy)
                ==> board.can_open(x, y) && board.opens(x, y, cx, cy),
{
    if board.can_open(x, y) {
        let after = board.after_reveal(x, y);
        assert forall|cx: int, cy: int| #[trigger]
            board.revealed(cx, cy) implies after.revealed(cx, cy) by {
            lemma_after_reveal_tile(board, x, y, cx, cy);
        }
        assert forall|cx: int, cy: int|
            #[trigger] after.revealed(cx, cy) && !board.revealed(cx, cy) implies board.opens(
            x,
            y,
            cx,
            cy,
        ) by {
            lemma_after_reveal_tile(board, x, y, cx, cy);
        }
    }
}

/// A reveal keeps the board in order. In particular no mine is ever
/// revealed, and around every revealed tile with count 0 all neighbours are
/// revealed: a revealed tile that has a hidden neighbour has a positive
/// count.
pub proof fn law_reveal_keeps_order(board: BoardView, x: int, y: int)
    requires
        board.wf(),
    ensures
        board.after_reveal(x, y).wf(),
        forall|mx: int, my: int| #[trigger]
            board.after_reveal(x, y).mine(mx, my) ==> !board.after_reveal(x, y).revealed(mx, my),
        forall|ax: int, ay: int, nx: int, ny: int|
            #[trigger] adjacent(ax, ay, nx, ny) && board.after_reveal(x, y).revealed(ax, ay)
                && board.after_reveal(x, y).in_bounds(nx, ny) && !board.after_reveal(
                x,
                y,
            ).revealed(nx, ny) ==> !board.after_reveal(x, y).blank(ax, ay),
{
    if board.can_open(x, y) {
        let after = board.after_reveal(x, y);
        law_reveal_one_way(board, x, y);
        assert forall|mx: int, my: int| #[trigger] after.mine(mx, my) implies !after.revealed(
            mx,
            my,
        ) by {
            lemma_after_reveal_tile(board, x, y, mx, my);
            assert(board.mine(mx, my));
            if board.opens(x, y, mx, my) {
                let steps = choose|steps: nat| #[trigger] board.chain(steps, x, y, mx, my);
                lemma_chain_safe(board, steps, x, y, mx, my);
            }
        }
        assert forall|ax: int, ay: int, nx: int, ny: int|
            #[trigger] adjacent(ax, ay, nx, ny) && after.revealed(ax, ay) && after.blank(ax, ay)
                && !Set::<(int, int)>::empty().contains((ax, ay)) && after.in_bounds(
                nx,
                ny,
            ) implies after.revealed(nx, ny) by {
            lemma_after_reveal_tile(board, x, y, ax, ay);
            lemma_after_reveal_tile(board, x, y, nx, ny);
            if board.revealed(ax, ay) {
                assert(board.blank(ax, ay));
                assert(board.revealed(nx, ny));
            } else {
                let steps = choose|steps: nat| #[trigger] board.chain(steps, x, y, ax, ay);
                lemma_chain_extend(board, steps, x, y, ax, ay, nx, ny);
                assert(board.chain(steps + 1, x, y, nx, ny));
            }
        }
        lemma_contents_keep_wf(board, after);
    }
}

/// A second reveal at the same coordinate changes nothing.
pub proof fn law_reveal_idempotent(board: BoardView, x: int, y: int)
    requires
        board.wf(),
    ensures
        board.after_reveal(x, y).after_reveal(x, y) == board.after_reveal(x, y),
{
    if board.can_open(x, y) {
        lemma_after_reveal_tile(board, x, y, x, y);
        lemma_opens_start(board, x, y);
        assert(board.after_reveal(x, y).revealed(x, y));
    }
}

/// A reveal on a mine reports the mine and changes nothing; a reveal off
/// the board or on a revealed tile reports nothing and changes nothing.
pub proof fn law_reveal_elsewhere(board: BoardView, x: int, y: int)
    requires
        board.wf(),
    ensures
        board.mine(x, y) ==> board.outcome(x, y) == RevealOutcome::Mine && board.after_reveal(x, y)
            == board,
        !board.in_bounds(x, y) || board.revealed(x, y) ==> board.outcome(x, y)
            == RevealOutcome::NoOp && board.after_reveal(x, y) == board,
{
}

/// The round is won exactly when a reveal shows the last hidden tile
/// without a mine: before that reveal it is not won, after it it is.
pub proof fn law_last_reveal_wins(board: BoardView, x: int, y: int)
    requires
        board.wf(),
        board.can_open(x, y),
        forall|cx: int, cy: int|
            board.in_bounds(cx, cy) && !board.mine(cx, cy) && !(cx == x && cy == y)
                ==> #[trigger] board.revealed(cx, cy),
    ensures
        !board.won(),
        board.after_reveal(x, y).won(),
{
    let after = board.after_reveal(x, y);
    assert(!board.revealed(x, y));
    lemma_opens_start(board, x, y);
    assert forall|cx: int, cy: int|
        after.in_bounds(cx, cy) && !after.mine(cx, cy) implies #[trigger] after.revealed(
        cx,
        cy,
    ) by {
        lemma_after_reveal_tile(board, x, y, cx, cy);
        if !(cx == x && cy == y) {
            assert(board.revealed(cx, cy));
        }
    }
}

} // verus!
