use gomoku::board::{Board, Tile};
use gomoku::color::Color;
use gomoku::error::PlacementError;
use gomoku::players::{Algorithm, Player, PlayerType, Players};

fn standard_board() -> Board {
    Board::new(19, 5, 2)
}

fn standard_players() -> Players {
    let p1 = Player::new(Color::Black, PlayerType::Bot(Algorithm::Minimax));
    let p2 = Player::new(Color::White, PlayerType::Human);
    Players::new(p1, p2, 10, 2)
}

#[test]
fn coordinate_round_trip() {
    let board = standard_board();
    for i in [0usize, 1, 18, 19, 20, 180, 360] {
        let input = board.get_input(i);
        assert_eq!(board.from_input(input), i);
    }
    assert_eq!(board.get_input(0), (0, 0));
    assert_eq!(board.get_input(19), (0, 1));
    assert_eq!(board.from_input((9, 9)), 9 + 9 * 19);
}

#[test]
fn new_board_is_empty() {
    let board = standard_board();
    assert_eq!(board.get_total_tiles(), 361);
    assert_eq!(board.get_size(), 19);
    assert_eq!(board.get_alignement_nb(), 5);
    assert_eq!(board.get_capture_range(), 2);
    for i in 0..361 {
        assert_eq!(board.get_index(i), Tile::Empty);
    }
}

#[test]
fn get_protected_bounds() {
    let board = standard_board();
    assert_eq!(board.get_protected((0, 0)), Some(&Tile::Empty));
    assert_eq!(board.get_protected((18, 18)), Some(&Tile::Empty));
    assert_eq!(board.get_protected((19, 0)), None);
    assert_eq!(board.get_protected((0, 19)), None);
    assert_eq!(*board.get_ref((3, 4)), Tile::Empty);
}

#[test]
fn check_add_value_out_of_bounds() {
    let board = standard_board();
    let players = standard_players();
    assert_eq!(
        board.check_add_value((19, 0), &players),
        Err(PlacementError::OutOfBounds)
    );
    assert_eq!(
        board.check_add_value((0, 40), &players),
        Err(PlacementError::OutOfBounds)
    );
}

#[test]
fn check_add_value_not_empty() {
    let mut board = standard_board();
    let mut players = standard_players();
    assert_eq!(board.add_value((9, 9), &mut players), Ok(()));
    assert_eq!(
        board.check_add_value((9, 9), &players),
        Err(PlacementError::NotEmpty)
    );
}

#[test]
fn check_add_value_idempotent() {
    let mut board = standard_board();
    let mut players = standard_players();
    board.add_value_checked((9, 9), &mut players);
    let first = board.check_add_value((9, 9), &players);
    let second = board.check_add_value((9, 9), &players);
    assert_eq!(first, second);
    let ok_first = board.check_add_value((4, 4), &players);
    let ok_second = board.check_add_value((4, 4), &players);
    assert_eq!(ok_first, Ok(()));
    assert_eq!(ok_first, ok_second);
}

#[test]
fn capture_removes_pair_and_counts() {
    let mut board = standard_board();
    let mut players = standard_players();
    // Black 0,0 - White 1,0 - Black far - White 2,0 - Black 3,0 flanks.
    assert_eq!(board.add_value((0, 0), &mut players), Ok(()));
    players.next_player();
    assert_eq!(board.add_value((1, 0), &mut players), Ok(()));
    players.next_player();
    assert_eq!(board.add_value((15, 15), &mut players), Ok(()));
    players.next_player();
    assert_eq!(board.add_value((2, 0), &mut players), Ok(()));
    players.next_player();
    let whites_before = count_stones(&board, Color::White);
    assert_eq!(whites_before, 2);
    assert_eq!(board.add_value((3, 0), &mut players), Ok(()));
    assert_eq!(board.get((1, 0)), Tile::Empty);
    assert_eq!(board.get((2, 0)), Tile::Empty);
    assert_eq!(board.get((0, 0)), Tile::Color(Color::Black));
    assert_eq!(board.get((3, 0)), Tile::Color(Color::Black));
    assert_eq!(players.get_player(Color::Black).get_player_captured(), 2);
    assert_eq!(players.get_player(Color::White).get_player_captured(), 0);
    assert_eq!(count_stones(&board, Color::White), whites_before - 2);
}

fn count_stones(board: &Board, color: Color) -> usize {
    let mut n = 0;
    for i in 0..board.get_total_tiles() {
        if board.get_index(i) == Tile::Color(color) {
            n += 1;
        }
    }
    n
}

#[test]
fn no_capture_without_own_flank() {
    let mut board = standard_board();
    let mut players = standard_players();
    // White pair with no black stone behind it stays on the grid.
    players.next_player();
    board.add_value_checked((1, 0), &mut players);
    board.add_value_checked((2, 0), &mut players);
    players.next_player();
    board.add_value_checked((3, 0), &mut players);
    assert_eq!(board.get((1, 0)), Tile::Color(Color::White));
    assert_eq!(board.get((2, 0)), Tile::Color(Color::White));
    assert_eq!(players.get_player(Color::Black).get_player_captured(), 0);
}

#[test]
fn five_in_a_row_wins_without_captures() {
    let mut board = Board::new(19, 5, 0);
    let mut players = standard_players();
    for x in 4..9 {
        board.add_value_checked((x, 4), &mut players);
    }
    let verdict = board.is_finished(players.get_player(Color::Black));
    assert_eq!(verdict, (true, Some(Color::Black)));
    let verdict_white = board.is_finished(players.get_player(Color::White));
    assert_eq!(verdict_white, (true, Some(Color::Black)));
}

#[test]
fn capturable_alignment_does_not_win() {
    let mut board = standard_board();
    let mut players = standard_players();
    // White stone first so later black placements never flank it.
    players.next_player();
    board.add_value_checked((4, 3), &mut players);
    players.next_player();
    for x in 4..9 {
        board.add_value_checked((x, 4), &mut players);
    }
    // The pair (4,4)-(4,5) is flanked by white above and empty below.
    board.add_value_checked((4, 5), &mut players);
    let white = players.get_player(Color::White);
    assert_eq!(board.is_finished(white), (false, None));
    // The run's own side still sees its alignment as a win.
    let black = players.get_player(Color::Black);
    assert_eq!(board.is_finished(black), (true, Some(Color::Black)));
    // Occupying the capturing cell makes the run safe: now it wins.
    board.add_value_checked((4, 6), &mut players);
    assert_eq!(board.is_finished(white), (true, Some(Color::Black)));
}

#[test]
fn double_free_three_rejected() {
    let mut board = standard_board();
    let mut players = standard_players();
    // Two open threes would appear at once when black plays 9,9.
    board.add_value_checked((10, 9), &mut players);
    board.add_value_checked((11, 9), &mut players);
    board.add_value_checked((9, 10), &mut players);
    board.add_value_checked((9, 11), &mut players);
    assert_eq!(
        board.check_add_value((9, 9), &players),
        Err(PlacementError::DoubleFreeThree)
    );
    assert_eq!(
        board.check_add_value_algo((9, 9), &players),
        Err(PlacementError::DoubleFreeThree)
    );
}

#[test]
fn single_free_three_allowed() {
    let mut board = standard_board();
    let mut players = standard_players();
    board.add_value_checked((10, 9), &mut players);
    board.add_value_checked((11, 9), &mut players);
    assert_eq!(board.check_add_value((9, 9), &players), Ok(()));
    assert_eq!(board.check_add_value_algo((9, 9), &players), Ok(()));
}

#[test]
fn full_board_draw_on_tiny_grid() {
    let mut board = Board::new(3, 3, 0);
    let mut players = standard_players();
    // Fill the nine cells alternating so that no three align.
    // Pattern:  B W B / W W B / B B W  has no three-in-a-row.
    let blacks = [(0usize, 0usize), (2, 0), (2, 1), (0, 2), (1, 2)];
    let whites = [(1usize, 0usize), (0, 1), (1, 1), (2, 2)];
    for input in blacks {
        board.add_value_checked(input, &mut players);
    }
    players.next_player();
    for input in whites {
        board.add_value_checked(input, &mut players);
    }
    let verdict = board.is_finished(players.get_player(Color::Black));
    assert_eq!(verdict, (true, None));
}

#[test]
fn reset_clears_board() {
    let mut board = standard_board();
    let mut players = standard_players();
    board.add_value_checked((5, 5), &mut players);
    board.reset();
    for i in 0..board.get_total_tiles() {
        assert_eq!(board.get_index(i), Tile::Empty);
    }
    assert_eq!(board.get_size(), 19);
}

#[test]
fn placement_error_descriptions() {
    assert_eq!(PlacementError::OutOfBounds.describe(), "Out Of Bounds");
    assert_eq!(PlacementError::NotEmpty.describe(), "Not Empty");
    assert_eq!(
        PlacementError::IncorrectPlacement.describe(),
        "Incorrect placement"
    );
    assert_eq!(
        PlacementError::DoubleFreeThree.describe(),
        "Double Free Three"
    );
}

#[test]
fn rejected_moves_change_nothing() {
    let mut board = standard_board();
    let mut players = standard_players();
    board.add_value_checked((10, 9), &mut players);
    board.add_value_checked((11, 9), &mut players);
    board.add_value_checked((9, 10), &mut players);
    board.add_value_checked((9, 11), &mut players);
    let stones_before = count_stones(&board, Color::Black);
    assert_eq!(
        board.add_value((9, 9), &mut players),
        Err(PlacementError::DoubleFreeThree)
    );
    assert_eq!(board.get((9, 9)), Tile::Empty);
    assert_eq!(count_stones(&board, Color::Black), stones_before);
    assert_eq!(
        board.add_value((25, 25), &mut players),
        Err(PlacementError::OutOfBounds)
    );
    assert_eq!(count_stones(&board, Color::Black), stones_before);
    assert_eq!(players.get_player(Color::Black).get_player_captured(), 0);
}

#[test]
fn capture_fires_in_every_direction() {
    // A diagonal capture: black flanks a white pair on the rising
    // diagonal.
    let mut board = standard_board();
    let mut players = standard_players();
    board.add_value_checked((5, 5), &mut players);
    players.next_player();
    board.add_value_checked((6, 6), &mut players);
    board.add_value_checked((7, 7), &mut players);
    players.next_player();
    board.add_value_checked((8, 8), &mut players);
    assert_eq!(board.get((6, 6)), Tile::Empty);
    assert_eq!(board.get((7, 7)), Tile::Empty);
    assert_eq!(players.get_player(Color::Black).get_player_captured(), 2);
}
