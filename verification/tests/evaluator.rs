use gomoku::board::{Board, Tile};
use gomoku::color::Color;
use gomoku::heuristic::{heuristic, iter_on_board, pruning_heuristic, Mode};
use gomoku::matching_cases::{
    check_5_and_more, get_cases_size_2, get_cases_size_3, get_cases_size_4, BBBBB_SCORE,
    EBBBBE_SCORE, EBBBE_SCORE, EBBE_SCORE,
};
use gomoku::players::{Algorithm, Player, PlayerType, Players};

fn fresh_board() -> Board {
    Board::new(19, 5, 2)
}

fn fresh_players() -> Players {
    let p1 = Player::new(Color::Black, PlayerType::Bot(Algorithm::Minimax));
    let p2 = Player::new(Color::White, PlayerType::Human);
    Players::new(p1, p2, 10, 2)
}

fn place_blacks(board: &mut Board, players: &mut Players, cells: &[(usize, usize)]) {
    for c in cells {
        board.add_value_checked(*c, players);
    }
}

#[test]
fn color_inverse_is_involutive() {
    assert_eq!(Color::Black.get_inverse_color(), Color::White);
    assert_eq!(Color::White.get_inverse_color(), Color::Black);
    assert_eq!(
        Color::Black.get_inverse_color().get_inverse_color(),
        Color::Black
    );
}

#[test]
fn open_four_scores_higher_than_three() {
    let mut four = fresh_board();
    let mut p4 = fresh_players();
    place_blacks(
        &mut four,
        &mut p4,
        &[(9, 9), (9, 10), (9, 11), (9, 12)],
    );
    assert_eq!(four.get((9, 8)), Tile::Empty);
    assert_eq!(four.get((9, 13)), Tile::Empty);
    let mut three = fresh_board();
    let mut p3 = fresh_players();
    place_blacks(&mut three, &mut p3, &[(9, 9), (9, 10), (9, 11)]);
    let score_four = heuristic(&four, &p4, Color::Black);
    let score_three = heuristic(&three, &p3, Color::Black);
    assert_eq!(score_four, EBBBBE_SCORE);
    assert_eq!(score_three, EBBBE_SCORE);
    assert!(score_four.abs() > score_three.abs());
    // Seen from the opponent, the same positions score negatively.
    assert_eq!(heuristic(&four, &p4, Color::White), -EBBBBE_SCORE);
}

#[test]
fn open_two_exact_scan_score() {
    let mut board = fresh_board();
    let mut players = fresh_players();
    place_blacks(&mut board, &mut players, &[(9, 9), (10, 9)]);
    assert_eq!(
        iter_on_board(&board, Mode::Horizontaly, Color::Black),
        EBBE_SCORE as i64
    );
    assert_eq!(
        iter_on_board(&board, Mode::Horizontaly, Color::White),
        -(EBBE_SCORE as i64)
    );
    // Vertically the two stones sit in different columns: two separate
    // single stones match nothing.
    assert_eq!(iter_on_board(&board, Mode::Vertically, Color::Black), 0);
}

#[test]
fn motif_tables_match_directly() {
    let mut board = fresh_board();
    let mut players = fresh_players();
    place_blacks(
        &mut board,
        &mut players,
        &[(9, 9), (10, 9), (11, 9), (12, 9), (13, 9)],
    );
    // Five in a row, seen from its first stone.
    let five = check_5_and_more(&board, (9, 9), 1, 0, Color::Black);
    assert_eq!(five, Some((BBBBB_SCORE, 5)));
    let mut board4 = fresh_board();
    let mut players4 = fresh_players();
    place_blacks(&mut board4, &mut players4, &[(9, 9), (10, 9), (11, 9), (12, 9)]);
    assert_eq!(check_5_and_more(&board4, (9, 9), 1, 0, Color::Black), None);
    assert_eq!(
        get_cases_size_4(&board4, (9, 9), 1, 0, Color::Black),
        Some(EBBBBE_SCORE)
    );
    let mut board3 = fresh_board();
    let mut players3 = fresh_players();
    place_blacks(&mut board3, &mut players3, &[(9, 9), (10, 9), (11, 9)]);
    assert_eq!(get_cases_size_4(&board3, (9, 9), 1, 0, Color::Black), None);
    assert_eq!(
        get_cases_size_3(&board3, (9, 9), 1, 0, Color::Black),
        Some(EBBBE_SCORE)
    );
    let mut board2 = fresh_board();
    let mut players2 = fresh_players();
    place_blacks(&mut board2, &mut players2, &[(9, 9), (10, 9)]);
    assert_eq!(get_cases_size_3(&board2, (9, 9), 1, 0, Color::Black), None);
    assert_eq!(
        get_cases_size_2(&board2, (9, 9), 1, 0, Color::Black),
        Some(EBBE_SCORE)
    );
}

#[test]
fn closed_two_against_the_edge() {
    let mut board = fresh_board();
    let mut players = fresh_players();
    // Two stones flush against the left edge: the edge blocks them.
    place_blacks(&mut board, &mut players, &[(0, 9), (1, 9)]);
    let r = get_cases_size_2(&board, (0, 9), 1, 0, Color::Black);
    assert_eq!(r, Some(3227677));
}

#[test]
fn terminal_positions_dominate() {
    // A game already won by capture scores the extremes.
    let mut board = fresh_board();
    let mut players = fresh_players();
    place_blacks(&mut board, &mut players, &[(9, 9)]);
    for _ in 0..5 {
        players.add_capture(Color::Black);
    }
    assert_eq!(players.get_player(Color::Black).get_player_captured(), 10);
    assert_eq!(players.is_finished(), (true, Some(Color::Black)));
    assert_eq!(heuristic(&board, &players, Color::Black), i32::MAX);
    assert_eq!(heuristic(&board, &players, Color::White), i32::MIN);
}

#[test]
fn capture_advantage_raises_score() {
    let mut board = fresh_board();
    let mut players = fresh_players();
    place_blacks(&mut board, &mut players, &[(9, 9)]);
    let neutral = heuristic(&board, &players, Color::Black);
    players.add_capture(Color::Black);
    let ahead = heuristic(&board, &players, Color::Black);
    assert!(ahead > neutral);
}

#[test]
fn pruning_wants_a_neighbour() {
    let mut board = fresh_board();
    let mut players = fresh_players();
    place_blacks(&mut board, &mut players, &[(9, 9)]);
    assert!(pruning_heuristic((8, 8), &board));
    assert!(pruning_heuristic((10, 9), &board));
    assert!(!pruning_heuristic((12, 12), &board));
    assert!(!pruning_heuristic((0, 0), &board));
}

#[test]
fn players_bookkeeping() {
    let mut players = fresh_players();
    assert_eq!(players.get_current_player().get_player_color(), Color::Black);
    players.next_player();
    assert_eq!(players.get_current_player().get_player_color(), Color::White);
    players.next_player();
    assert_eq!(players.get_current_player().get_player_color(), Color::Black);
    assert_eq!(players.get_captured_nb(), 10);
    assert_eq!(players.get_capture_range(), 2);
    players.add_capture(Color::White);
    assert_eq!(players.get_player(Color::White).get_player_captured(), 2);
    assert_eq!(players.is_finished(), (false, None));
    players.reset();
    assert_eq!(players.get_player(Color::White).get_player_captured(), 0);
    assert_eq!(players.get_current_player().get_player_color(), Color::Black);
}

#[test]
fn algorithm_decoding() {
    assert_eq!(Algorithm::usize_to_algorithm(0), Algorithm::Pvs);
    assert_eq!(Algorithm::usize_to_algorithm(1), Algorithm::Minimax);
    assert_eq!(Algorithm::usize_to_algorithm(7), Algorithm::Minimax);
    assert_eq!(Algorithm::basic_algorithm(), Algorithm::Pvs);
}

#[test]
fn player_type_toggle() {
    let mut players = fresh_players();
    players.change_player_type(Color::White);
    assert_eq!(
        players.get_player(Color::White).get_player_type(),
        PlayerType::Bot(Algorithm::Pvs)
    );
    players.change_player_type(Color::White);
    assert_eq!(
        players.get_player(Color::White).get_player_type(),
        PlayerType::Human
    );
}

#[test]
fn scan_cursor_indexing() {
    let c = gomoku::heuristic::Coordinates::new(19, (3, 4), Mode::Horizontaly);
    assert_eq!(c.to_index(), 3 + 4 * 19);
    assert_eq!(c.x, 3);
    assert_eq!(c.y, 4);
}

#[test]
fn config_bundles_validated_values() {
    let config = gomoku::config::Config::new(19, 5, 2, 10, false);
    assert_eq!(config.board_length, 19);
    assert_eq!(config.alignement_nb, 5);
    assert_eq!(config.capture_range, 2);
    assert_eq!(config.capture_nb, 10);
    assert_eq!(config.total_tiles, 361);
    assert!(!config.visual);
}
