use mints::difficulty::Difficulty;
use mints::minesweeper::board::Board;
use mints::minesweeper::generate::ConfigError;
use mints::minesweeper::grid::RevealOutcome;
use mints::random::RandomSource;
use mints::minesweeper::tile::{Content, Tile};

fn mines_on(board: &Board) -> usize {
    let mut mines = 0;
    for y in 0..board.height() {
        for x in 0..board.width() {
            if board.check_mine(x, y) {
                mines += 1;
            }
        }
    }
    mines
}

fn mined_neighbours(board: &Board, x: usize, y: usize) -> i32 {
    let mut mines = 0;
    for dy in -1i64..=1 {
        for dx in -1i64..=1 {
            if dx == 0 && dy == 0 {
                continue;
            }
            let nx = x as i64 + dx;
            let ny = y as i64 + dy;
            if nx < 0 || ny < 0 {
                continue;
            }
            if board.check_mine(nx as usize, ny as usize) {
                mines += 1;
            }
        }
    }
    mines
}

fn assert_counts_right(board: &Board) {
    for y in 0..board.height() {
        for x in 0..board.width() {
            let tile = board.tile(x, y).unwrap();
            match tile.get_inner() {
                Content::Mine => assert!(board.check_mine(x, y)),
                Content::Empty(count) => {
                    assert!(!board.check_mine(x, y));
                    assert_eq!(count, mined_neighbours(board, x, y), "count at ({x}, {y})");
                }
            }
        }
    }
}

fn assert_all_hidden(board: &Board) {
    for y in 0..board.height() {
        for x in 0..board.width() {
            assert!(!board.tile(x, y).unwrap().is_visible());
        }
    }
}

fn revealed(board: &Board, x: usize, y: usize) -> bool {
    board.tile(x, y).unwrap().is_visible()
}

fn assert_region_closed(board: &Board) {
    for y in 0..board.height() {
        for x in 0..board.width() {
            let tile = board.tile(x, y).unwrap();
            if tile.is_mine() {
                assert!(!tile.is_visible(), "mine revealed at ({x}, {y})");
            }
            if tile.is_visible() && tile.get_empty() == Some(0) {
                for dy in -1i64..=1 {
                    for dx in -1i64..=1 {
                        let nx = x as i64 + dx;
                        let ny = y as i64 + dy;
                        if nx < 0 || ny < 0 {
                            continue;
                        }
                        if let Some(neighbour) = board.tile(nx as usize, ny as usize) {
                            assert!(neighbour.is_visible(), "({nx}, {ny}) next to ({x}, {y})");
                        }
                    }
                }
            }
        }
    }
}

#[test]
fn starter_tile_is_hidden_and_blank() {
    let tile = Tile::starter_tile();
    assert_eq!(tile, Tile::Invisible(Content::Empty(0)));
    assert!(!tile.is_mine());
    assert!(!tile.is_visible());
    assert!(tile.is_empty());
    assert_eq!(tile.get_empty(), Some(0));
    assert_eq!(tile.get_inner(), Content::Empty(0));
}

#[test]
fn tile_queries_follow_the_fields() {
    let mine = Tile::Invisible(Content::Mine);
    assert!(mine.is_mine());
    assert!(!mine.is_empty());
    assert_eq!(mine.get_empty(), None);
    assert_eq!(mine.get_inner(), Content::Mine);
    let three = Tile::Visible(Content::Empty(3));
    assert!(three.is_visible());
    assert!(!three.is_mine());
    assert_eq!(three.get_empty(), Some(3));
    assert_eq!(three.get_inner(), Content::Empty(3));
}

#[test]
fn revealed_keeps_the_content() {
    let tile = Tile::Invisible(Content::Empty(5));
    assert_eq!(tile.revealed(), Tile::Visible(Content::Empty(5)));
    assert_eq!(tile.revealed().revealed(), tile.revealed());
}

#[test]
fn generated_boards_hold_the_mines_asked_for() {
    for seed in 0..40u64 {
        let mut rng = RandomSource::from_seed(seed);
        let board = Board::generate(9, 7, 12, &mut rng).unwrap();
        assert_eq!(board.width(), 9);
        assert_eq!(board.height(), 7);
        assert_eq!(board.mine_count(), 12);
        assert_eq!(mines_on(&board), 12);
        assert_counts_right(&board);
        assert_all_hidden(&board);
    }
}

#[test]
fn init_board_hands_out_one_tile_for_each_coordinate() {
    let mut rng = RandomSource::from_seed(7);
    let cells = Board::init_board(5, 4, 6, &mut rng).unwrap();
    assert_eq!(cells.len(), 20);
    assert_eq!(cells.iter().filter(|tile| tile.is_mine()).count(), 6);
    assert!(cells.iter().all(|tile| !tile.is_visible()));
}

#[test]
fn presets_are_generated_for_each_difficulty() {
    let mut rng = RandomSource::from_seed(2024);
    let easy = Board::new(&Difficulty::Easy, &mut rng);
    assert_eq!((easy.width(), easy.height(), easy.mine_count()), (9, 9, 10));
    assert_eq!(mines_on(&easy), 10);
    assert_counts_right(&easy);
    let medium = Board::new(&Difficulty::Medium, &mut rng);
    assert_eq!((medium.width(), medium.height(), medium.mine_count()), (16, 16, 40));
    assert_eq!(mines_on(&medium), 40);
    assert_counts_right(&medium);
    let hard = Board::new(&Difficulty::Hard, &mut rng);
    assert_eq!((hard.width(), hard.height(), hard.mine_count()), (16, 30, 99));
    assert_eq!(mines_on(&hard), 99);
    assert_counts_right(&hard);
}

#[test]
fn thread_seeded_source_generates_too() {
    let mut rng = RandomSource::from_thread();
    let board = Board::new(&Difficulty::Easy, &mut rng);
    assert_eq!(mines_on(&board), 10);
    assert_counts_right(&board);
}

#[test]
fn draws_stay_below_the_bound() {
    let mut rng = RandomSource::from_seed(99);
    for bound in 1..50usize {
        for _ in 0..20 {
            assert!(rng.below(bound) < bound);
        }
    }
}

#[test]
fn same_seed_lays_the_same_board() {
    let first = Board::generate(12, 12, 30, &mut RandomSource::from_seed(5)).unwrap();
    let second = Board::generate(12, 12, 30, &mut RandomSource::from_seed(5)).unwrap();
    assert_eq!(first, second);
}

#[test]
fn dense_boards_are_still_filled() {
    for seed in 0..10u64 {
        let mut rng = RandomSource::from_seed(seed);
        let board = Board::generate(10, 10, 99, &mut rng).unwrap();
        assert_eq!(mines_on(&board), 99);
        assert_counts_right(&board);
    }
    let mut rng = RandomSource::from_seed(1);
    let tiny = Board::generate(2, 1, 1, &mut rng).unwrap();
    assert_eq!(mines_on(&tiny), 1);
}

#[test]
fn one_by_one_board_with_one_mine_is_rejected() {
    let mut rng = RandomSource::from_seed(0);
    assert_eq!(Board::generate(1, 1, 1, &mut rng), Err(ConfigError::TooManyMines));
    assert_eq!(Board::init_board(1, 1, 1, &mut rng), Err(ConfigError::TooManyMines));
}

#[test]
fn invalid_configurations_are_rejected() {
    let mut rng = RandomSource::from_seed(0);
    assert_eq!(Board::generate(0, 5, 1, &mut rng), Err(ConfigError::EmptyBoard));
    assert_eq!(Board::generate(5, 0, 1, &mut rng), Err(ConfigError::EmptyBoard));
    assert_eq!(Board::generate(-3, 5, 1, &mut rng), Err(ConfigError::EmptyBoard));
    assert_eq!(Board::generate(5, 5, 0, &mut rng), Err(ConfigError::NoMines));
    assert_eq!(Board::generate(5, 5, -1, &mut rng), Err(ConfigError::NoMines));
    assert_eq!(Board::generate(5, 5, 25, &mut rng), Err(ConfigError::TooManyMines));
    assert_eq!(Board::generate(5, 5, 26, &mut rng), Err(ConfigError::TooManyMines));
    assert!(Board::generate(5, 5, 24, &mut rng).is_ok());
    assert!(Board::generate(5, 5, 1, &mut rng).is_ok());
}

#[test]
fn chosen_mines_lie_where_they_were_put() {
    let board = Board::with_mines(4, 3, &vec![(1, 0), (3, 2), (1, 0)]).unwrap();
    assert_eq!(board.mine_count(), 2);
    assert_eq!(mines_on(&board), 2);
    assert!(board.check_mine(1, 0));
    assert!(board.check_mine(3, 2));
    assert!(!board.check_mine(0, 0));
    assert_counts_right(&board);
    assert_all_hidden(&board);
    assert_eq!(board.tile(0, 0).unwrap().get_inner(), Content::Empty(1));
    assert_eq!(board.tile(2, 1).unwrap().get_inner(), Content::Empty(2));
    assert_eq!(board.tile(0, 2).unwrap().get_inner(), Content::Empty(0));
    assert_eq!(board.tile(4, 0), None);
    assert_eq!(board.tile(0, 3), None);
}

#[test]
fn chosen_mines_are_checked() {
    assert_eq!(Board::with_mines(0, 3, &vec![(0, 0)]), Err(ConfigError::EmptyBoard));
    assert_eq!(Board::with_mines(3, -1, &vec![(0, 0)]), Err(ConfigError::EmptyBoard));
    assert_eq!(Board::with_mines(3, 3, &vec![(0, 0), (3, 0)]), Err(ConfigError::OutOfBounds));
    assert_eq!(Board::with_mines(3, 3, &vec![(0, 3)]), Err(ConfigError::OutOfBounds));
    assert_eq!(Board::with_mines(3, 3, &vec![]), Err(ConfigError::NoMines));
    assert_eq!(
        Board::with_mines(2, 1, &vec![(0, 0), (1, 0), (0, 0)]),
        Err(ConfigError::TooManyMines)
    );
    assert_eq!(Board::with_mines(1, 1, &vec![(0, 0)]), Err(ConfigError::TooManyMines));
}

#[test]
fn a_corner_counts_three_neighbours_at_most() {
    let board = Board::with_mines(3, 3, &vec![(1, 0), (0, 1), (1, 1)]).unwrap();
    assert_eq!(board.tile(0, 0).unwrap().get_inner(), Content::Empty(3));
    assert_eq!(board.tile(2, 2).unwrap().get_inner(), Content::Empty(1));
    assert_eq!(board.tile(2, 0).unwrap().get_inner(), Content::Empty(2));
}

#[test]
fn a_tile_counts_up_to_eight_neighbours() {
    let ring = vec![(0, 0), (1, 0), (2, 0), (0, 1), (2, 1), (0, 2), (1, 2), (2, 2)];
    let board = Board::with_mines(3, 3, &ring).unwrap();
    assert_eq!(board.tile(1, 1).unwrap().get_inner(), Content::Empty(8));
}

#[test]
fn corner_mine_cascade_reveals_the_rest_and_wins() {
    let mut board = Board::with_mines(3, 3, &vec![(0, 0)]).unwrap();
    assert!(!board.is_won());
    assert_eq!(board.reveal_at(2, 2), RevealOutcome::Opened);
    for y in 0..3 {
        for x in 0..3 {
            assert_eq!(revealed(&board, x, y), !(x == 0 && y == 0), "({x}, {y})");
        }
    }
    assert!(board.is_won());
    assert_region_closed(&board);
}

#[test]
fn out_of_bounds_reveal_changes_nothing() {
    let mut board = Board::with_mines(3, 3, &vec![(0, 0)]).unwrap();
    let before = board.clone();
    assert_eq!(board.reveal_at(3, 0), RevealOutcome::NoOp);
    assert_eq!(board.reveal_at(0, 3), RevealOutcome::NoOp);
    assert_eq!(board.reveal_at(usize::MAX, usize::MAX), RevealOutcome::NoOp);
    board.reveal_adjacent(3, 1);
    assert_eq!(board, before);
    assert!(!board.check_mine(3, 0));
    assert!(!board.check_mine(0, 3));
}

#[test]
fn revealing_twice_is_revealing_once() {
    let mut once = Board::generate(9, 9, 10, &mut RandomSource::from_seed(11)).unwrap();
    let mut twice = once.clone();
    for y in 0..9 {
        for x in 0..9 {
            let first = once.reveal_at(x, y);
            twice.reveal_at(x, y);
            let again = twice.reveal_at(x, y);
            assert_eq!(once, twice);
            match first {
                RevealOutcome::Mine => assert_eq!(again, RevealOutcome::Mine),
                _ => assert_eq!(again, RevealOutcome::NoOp),
            }
        }
    }
}

#[test]
fn revealing_a_mine_reports_it_and_reveals_nothing() {
    let mut board = Board::with_mines(4, 4, &vec![(1, 1), (3, 3)]).unwrap();
    let before = board.clone();
    assert_eq!(board.reveal_at(1, 1), RevealOutcome::Mine);
    assert_eq!(board, before);
    board.reveal_adjacent(3, 3);
    assert_eq!(board, before);
    assert!(!revealed(&board, 1, 1));
}

#[test]
fn a_positive_count_stops_the_cascade() {
    let mut board = Board::with_mines(5, 1, &vec![(2, 0)]).unwrap();
    assert_eq!(board.reveal_at(0, 0), RevealOutcome::Opened);
    assert!(revealed(&board, 0, 0));
    assert!(revealed(&board, 1, 0));
    assert!(!revealed(&board, 2, 0));
    assert!(!revealed(&board, 3, 0));
    assert!(!revealed(&board, 4, 0));
    assert!(!board.is_won());
    assert_eq!(board.reveal_at(3, 0), RevealOutcome::Opened);
    assert!(!revealed(&board, 4, 0));
    assert!(!board.is_won());
    assert_eq!(board.reveal_at(4, 0), RevealOutcome::Opened);
    assert!(board.is_won());
}

#[test]
fn the_cascade_goes_through_diagonals() {
    // The free corner at (0, 0) touches the free region only over the
    // diagonal to (1, 1).
    let mut board = Board::with_mines(4, 4, &vec![(3, 0), (0, 3)]).unwrap();
    assert_eq!(board.tile(0, 0).unwrap().get_inner(), Content::Empty(0));
    assert_eq!(board.tile(1, 1).unwrap().get_inner(), Content::Empty(0));
    assert_eq!(board.reveal_at(0, 0), RevealOutcome::Opened);
    assert!(revealed(&board, 3, 3));
    assert!(revealed(&board, 2, 2));
    assert!(!revealed(&board, 3, 0));
    assert!(!revealed(&board, 0, 3));
    assert!(board.is_won());
}

#[test]
fn a_tile_with_a_count_opens_alone() {
    let mut board = Board::with_mines(3, 3, &vec![(0, 0)]).unwrap();
    assert_eq!(board.reveal_at(1, 1), RevealOutcome::Opened);
    for y in 0..3 {
        for x in 0..3 {
            assert_eq!(revealed(&board, x, y), x == 1 && y == 1);
        }
    }
    assert!(!board.is_won());
}

#[test]
fn cascades_end_in_positive_counts_and_reveal_no_mine() {
    for seed in 0..25u64 {
        let mut board = Board::generate(16, 16, 40, &mut RandomSource::from_seed(seed)).unwrap();
        for y in 0..16 {
            for x in 0..16 {
                if (x * 7 + y * 3 + seed as usize) % 5 == 0 {
                    board.reveal_at(x, y);
                    assert_region_closed(&board);
                    assert_counts_right(&board);
                }
            }
        }
        assert_eq!(mines_on(&board), 40);
    }
}

#[test]
fn last_free_tile_flips_is_won() {
    let mut board = Board::generate(6, 5, 7, &mut RandomSource::from_seed(3)).unwrap();
    let mut free: Vec<(usize, usize)> = Vec::new();
    for y in 0..5 {
        for x in 0..6 {
            if !board.check_mine(x, y) {
                free.push((x, y));
            }
        }
    }
    for (x, y) in free {
        let was_hidden = !revealed(&board, x, y);
        if was_hidden {
            assert!(!board.is_won());
        }
        board.reveal_at(x, y);
    }
    assert!(board.is_won());
    let won = board.clone();
    board.reveal_at(0, 0);
    assert_eq!(board, won);
}

use mints::game::{Args, Mints, GAME_ONGOING, GAME_OVER, GAME_RESTART};
use mints::minesweeper::game::{read_order, to_coordinate, Minesweeper, Order};

fn args(difficulty: Option<Difficulty>) -> Args {
    Args { game: Mints::Minesweeper, guesses: None, letters: None, timer: None, difficulty }
}

fn round(width: i32, height: i32, mines: &[(usize, usize)]) -> Minesweeper {
    Minesweeper {
        board: Board::with_mines(width, height, &mines.to_vec()).unwrap(),
        turn: 0,
        difficulty: Difficulty::Easy,
    }
}

#[test]
fn parse_args_defaults_to_easy() {
    let mut open = args(None);
    Minesweeper::parse_args(&mut open);
    assert_eq!(open, args(Some(Difficulty::Easy)));
    let mut hard = args(Some(Difficulty::Hard));
    Minesweeper::parse_args(&mut hard);
    assert_eq!(hard, args(Some(Difficulty::Hard)));
}

#[test]
fn a_new_round_has_the_board_of_its_difficulty() {
    let mut rng = RandomSource::from_seed(8);
    let game = Minesweeper::new(args(None), &mut rng);
    assert_eq!(game.turn, 0);
    assert_eq!(game.difficulty, Difficulty::Easy);
    assert_eq!((game.board.width(), game.board.height(), game.board.mine_count()), (9, 9, 10));
    let game = Minesweeper::new(args(Some(Difficulty::Hard)), &mut rng);
    assert_eq!(game.difficulty, Difficulty::Hard);
    assert_eq!((game.board.width(), game.board.height(), game.board.mine_count()), (16, 30, 99));
    assert_eq!(mines_on(&game.board), 99);
    assert!(!game.check_win());
}

#[test]
fn check_ends_the_round_on_a_mine() {
    let mut game = round(3, 3, &[(0, 0)]);
    let before = game.board.clone();
    assert_eq!(game.check(0, 0), GAME_OVER);
    assert_eq!(game.board, before);
    assert_eq!(game.check(1, 1), GAME_ONGOING);
    assert!(revealed(&game.board, 1, 1));
    assert!(!game.check_win());
    assert_eq!(game.check(2, 2), GAME_ONGOING);
    assert!(game.check_win());
    assert_eq!(game.check(7, 7), GAME_ONGOING);
    assert_eq!(game.turn, 0);
}

#[test]
fn orders_are_read_from_the_words_of_a_line() {
    assert_eq!(read_order("!check 3 4"), Order::Check(2, 3));
    assert_eq!(read_order("  !C\t1   +2  more"), Order::Check(0, 1));
    assert_eq!(read_order("!c 0 5"), Order::Check(usize::MAX, 4));
    assert_eq!(read_order("!check"), Order::CheckIncomplete);
    assert_eq!(read_order("!check 3"), Order::CheckIncomplete);
    assert_eq!(read_order("!check three 4"), Order::CheckMalformed);
    assert_eq!(read_order("!check 3 -4"), Order::CheckMalformed);
    assert_eq!(read_order("!check 3 99999999999999999999999"), Order::CheckMalformed);
    assert_eq!(read_order("!flag 1 1"), Order::Flag);
    assert_eq!(read_order("!F"), Order::Flag);
    assert_eq!(read_order("!unflag"), Order::Unflag);
    assert_eq!(read_order("!u"), Order::Unflag);
    assert_eq!(read_order("!cheat"), Order::Cheat);
    assert_eq!(read_order("!hint"), Order::Hint);
    assert_eq!(read_order("!h"), Order::Hint);
    for line in ["!restart", "!NEXT", "!reset", "!r"] {
        assert_eq!(read_order(line), Order::Restart);
    }
    for line in ["!quit", "!leave", "!Exit", "!q now"] {
        assert_eq!(read_order(line), Order::Quit);
    }
    for line in ["check 3 4", "!checks 3 4", "3 4", "!"] {
        assert_eq!(read_order(line), Order::Unknown);
    }
}

#[test]
fn shown_numbers_count_from_one() {
    assert_eq!(to_coordinate(1), 0);
    assert_eq!(to_coordinate(9), 8);
    assert_eq!(to_coordinate(usize::MAX), usize::MAX - 1);
    assert_eq!(to_coordinate(0), usize::MAX);
}

#[test]
fn handle_commands_plays_checks_and_leaves_the_board_otherwise() {
    let mut game = round(3, 3, &[(0, 0)]);
    let before = game.board.clone();
    assert_eq!(game.handle_commands("!check 1 1"), (Order::Check(0, 0), GAME_OVER));
    assert_eq!(game.handle_commands("!check 0 1"), (Order::Check(usize::MAX, 0), GAME_ONGOING));
    assert_eq!(game.handle_commands("!check 4 1"), (Order::Check(3, 0), GAME_ONGOING));
    assert_eq!(game.handle_commands("!check 1"), (Order::CheckIncomplete, GAME_ONGOING));
    assert_eq!(game.handle_commands("!check a b"), (Order::CheckMalformed, GAME_ONGOING));
    assert_eq!(game.handle_commands("!cheat"), (Order::Cheat, GAME_ONGOING));
    assert_eq!(game.handle_commands("!hint"), (Order::Hint, GAME_ONGOING));
    assert_eq!(game.handle_commands("!flag"), (Order::Flag, GAME_ONGOING));
    assert_eq!(game.handle_commands("what"), (Order::Unknown, GAME_ONGOING));
    assert_eq!(game.handle_commands("!r"), (Order::Restart, GAME_RESTART));
    assert_eq!(game.handle_commands("!q"), (Order::Quit, GAME_OVER));
    assert_eq!(game.board, before);
    assert_eq!(game.handle_commands("!check 2 2"), (Order::Check(1, 1), GAME_ONGOING));
    assert!(revealed(&game.board, 1, 1));
    assert!(!game.check_win());
    assert_eq!(game.handle_commands("!c 3 3"), (Order::Check(2, 2), GAME_ONGOING));
    assert!(game.check_win());
}

use mints::minesweeper::tile::{Face, Ink};

#[test]
fn faces_show_what_the_player_may_see() {
    let hidden = Face { glyph: '#', ink: Ink::White, bold: true };
    let mine = Face { glyph: '*', ink: Ink::BrightRed, bold: true };
    assert_eq!(Tile::Invisible(Content::Mine).face(false), hidden);
    assert_eq!(Tile::Invisible(Content::Empty(3)).face(false), hidden);
    assert_eq!(Tile::Invisible(Content::Mine).face(true), mine);
    assert_eq!(Tile::Visible(Content::Mine).face(false), mine);
    let counts = [
        (0, ' ', Ink::White),
        (1, '1', Ink::Blue),
        (2, '2', Ink::Green),
        (3, '3', Ink::Red),
        (4, '4', Ink::Cyan),
        (5, '5', Ink::Magenta),
        (6, '6', Ink::Purple),
        (7, '7', Ink::Yellow),
        (8, '8', Ink::White),
    ];
    for (count, glyph, ink) in counts {
        let face = Face { glyph, ink, bold: false };
        assert_eq!(Tile::Visible(Content::Empty(count)).face(false), face);
        assert_eq!(Tile::Visible(Content::Empty(count)).face(true), face);
        assert_eq!(Tile::Invisible(Content::Empty(count)).face(true), face);
    }
}
