//! A round of minesweeper.

use vstd::prelude::*;
use crate::difficulty::Difficulty;
use crate::command::{asks_hint, asks_quit, asks_restart};
use crate::game::{difficulty_or_easy, Args, GAME_ONGOING, GAME_OVER, GAME_RESTART};
use crate::text::{
    is_word, lower_word, lowered, number_of, parse_number, split_words, texts, to_chars,
    words_of, Spaces,
};
use crate::minesweeper::board::{generated, preset, Board};
use crate::random::RandomSource;

verus! {

/// A round of minesweeper: the board, the number of turns played and the
/// difficulty that the board was generated for.
pub struct Minesweeper {
    pub board: Board,
    pub turn: i32,
    pub difficulty: Difficulty,
}

/// What a line of input asks a round of minesweeper to do.
#[derive(Clone, Copy, Debug, PartialEq, Eq, Structural)]
pub enum Order {
    /// `!check` or `!c` with two numbers: play the tile in that column and
    /// row, both counted from 1.
    Check(usize, usize),
    /// `!check` or `!c` with fewer than two words after it.
    CheckIncomplete,
    /// `!check` or `!c` with two words after it that are not both numbers.
    CheckMalformed,
    /// `!flag` or `!f`.
    Flag,
    /// `!unflag` or `!u`.
    Unflag,
    /// `!cheat`.
    Cheat,
    /// `!hint` or `!h`.
    Hint,
    /// `!restart`, `!next`, `!reset` or `!r`.
    Restart,
    /// `!quit`, `!leave`, `!exit` or `!q`.
    Quit,
    /// Anything else.
    Unknown,
}

/// The coordinate that the number `shown` stands for: the board shows its
/// columns and rows counted from 1, the engine counts them from 0. The
/// number 0 stands for no column or row, and gives a coordinate off every
/// board.
pub open spec fn coordinate_of(shown: usize) -> usize {
    if shown == 0 {
        usize::MAX
    } else {
        (shown - 1) as usize
    }
}

/// What `!check` with the words `words` after it asks for.
pub open spec fn check_order(words: Seq<Seq<char>>) -> Order {
    if words.len() < 3 {
        Order::CheckIncomplete
    } else {
        match (number_of(words[1]), number_of(words[2])) {
            (Some(x), Some(y)) => Order::Check(coordinate_of(x), coordinate_of(y)),
            _ => Order::CheckMalformed,
        }
    }
}

/// What the words `words` of a line ask for: the first word, whatever its
/// case, names the command.
pub open spec fn order_of_words(words: Seq<Seq<char>>) -> Order {
    let name = lower_word(words[0]);
    if name == "!check"@ || name == "!c"@ {
        check_order(words)
    } else if name == "!flag"@ || name == "!f"@ {
        Order::Flag
    } else if name == "!unflag"@ || name == "!u"@ {
        Order::Unflag
    } else if name == "!cheat"@ {
        Order::Cheat
    } else if asks_hint(name) {
        Order::Hint
    } else if asks_restart(name) {
        Order::Restart
    } else if asks_quit(name) {
        Order::Quit
    } else {
        Order::Unknown
    }
}

/// What the line `line` asks for.
pub open spec fn order_of(line: Seq<char>) -> Order {
    order_of_words(words_of(line, Spaces::Ascii))
}

/// The coordinate that the number `shown` stands for.
pub fn to_coordinate(shown: usize) -> (coordinate: usize)
    ensures
        coordinate == coordinate_of(shown),
{
    if shown == 0 {
        usize::MAX
    } else {
        shown - 1
    }
}

/// What the line `line` asks for. The line holds a word at least.
pub fn read_order(line: &str) -> (order: Order)
    requires
        words_of(line@, Spaces::Ascii).len() > 0,
    ensures
        order == order_of(line@),
{
    let chars = to_chars(line);
    let words = split_words(&chars, Spaces::Ascii);
    assert(texts(words@)[0] == words@[0]@);
    let name = lowered(&words[0]);
    if is_word(&name, "!check") || is_word(&name, "!c") {
        if words.len() < 3 {
            return Order::CheckIncomplete;
        }
        assert(texts(words@)[1] == words@[1]@);
        assert(texts(words@)[2] == words@[2]@);
        match (parse_number(&words[1]), parse_number(&words[2])) {
            (Some(x), Some(y)) => Order::Check(to_coordinate(x), to_coordinate(y)),
            _ => Order::CheckMalformed,
        }
    } else if is_word(&name, "!flag") || is_word(&name, "!f") {
        Order::Flag
    } else if is_word(&name, "!unflag") || is_word(&name, "!u") {
        Order::Unflag
    } else if is_word(&name, "!cheat") {
        Order::Cheat
    } else if is_word(&name, "!hint") || is_word(&name, "!h") {
        Order::Hint
    } else if is_word(&name, "!restart") || is_word(&name, "!next") || is_word(&name, "!reset")
        || is_word(&name, "!r") {
        Order::Restart
    } else if is_word(&name, "!quit") || is_word(&name, "!leave") || is_word(&name, "!exit")
        || is_word(&name, "!q") {
        Order::Quit
    } else {
        Order::Unknown
    }
}

impl Minesweeper {
    /// The code that carrying out `order` on this round hands back.
    pub open spec fn code_of(&self, order: Order) -> i32 {
        match order {
            Order::Check(x, y) => if self.board@.mine(x as int, y as int) {
                GAME_OVER
            } else {
                GAME_ONGOING
            },
            Order::Restart => GAME_RESTART,
            Order::Quit => GAME_OVER,
            _ => GAME_ONGOING,
        }
    }

    /// The board after `order` was carried out on this round.
    pub open spec fn board_after(&self, order: Order) -> crate::minesweeper::grid::BoardView {
        match order {
            Order::Check(x, y) => self.board@.after_reveal(x as int, y as int),
            _ => self.board@,
        }
    }

    /// Reads the line `cmd`, which holds a word at least, and carries out
    /// what it asks of the board: `!check` plays a tile, every other
    /// command leaves the board as it is. Hands back what the line asked for
    /// and the code for the loop that runs the round.
    pub fn handle_commands(&mut self, cmd: &str) -> (handled: (Order, i32))
        requires
            old(self).board@.wf(),
            words_of(cmd@, Spaces::Ascii).len() > 0,
        ensures
            handled.0 == order_of(cmd@),
            handled.1 == old(self).code_of(handled.0),
            final(self).board@ == old(self).board_after(handled.0),
            final(self).board@.wf(),
            final(self).turn == old(self).turn,
            final(self).difficulty == old(self).difficulty,
    {
        let order = read_order(cmd);
        let code = match order {
            Order::Check(x, y) => self.check(x, y),
            Order::Restart => GAME_RESTART,
            Order::Quit => GAME_OVER,
            _ => GAME_ONGOING,
        };
        (order, code)
    }

    /// Starts a round: a freshly generated board of the difficulty that
    /// `args` ask for, `Easy` where they ask for none.
    pub fn new(args: Args, rng: &mut RandomSource) -> (game: Minesweeper)
        ensures
            generated(game.board@),
            (game.board@.width, game.board@.height, game.board@.mine_count) == preset(
                difficulty_or_easy(args),
            ),
            game.turn == 0,
            game.difficulty == difficulty_or_easy(args),
    {
        let mut args = args;
        Minesweeper::parse_args(&mut args);
        let difficulty = match args.difficulty {
            Some(difficulty) => difficulty,
            None => Difficulty::Easy,
        };
        Minesweeper { board: Board::new(&difficulty, rng), turn: 0, difficulty }
    }

    /// Fills in the difficulty where none was asked for.
    pub fn parse_args(args: &mut Args)
        ensures
            *final(args) == (Args { difficulty: Some(difficulty_or_easy(*old(args))), ..*old(args) }),
    {
        if args.difficulty.is_none() {
            args.difficulty = Some(Difficulty::Easy);
        }
    }

    /// Plays `(x, y)`: the round is over if a mine lies there; else the
    /// tile is revealed with what its cascade opens, and the round goes on.
    pub fn check(&mut self, x: usize, y: usize) -> (code: i32)
        requires
            old(self).board@.wf(),
        ensures
            code == if old(self).board@.mine(x as int, y as int) {
                GAME_OVER
            } else {
                GAME_ONGOING
            },
            final(self).board@ == old(self).board@.after_reveal(x as int, y as int),
            final(self).board@.wf(),
            final(self).turn == old(self).turn,
            final(self).difficulty == old(self).difficulty,
    {
        if self.board.check_mine(x, y) {
            GAME_OVER
        } else {
            self.board.reveal_adjacent(x, y);
            GAME_ONGOING
        }
    }

    /// Whether the round is won: every tile without a mine is revealed.
    pub fn check_win(&self) -> (won: bool)
        requires
            self.board@.wf(),
        ensures
            won == self.board@.won(),
    {
        self.board.is_won()
    }
}

} // verus!
