use gomoku::algo::{get_bot_input, minimax, play_everything, pvs, Tree};
use gomoku::board::{Board, Tile};
use gomoku::color::Color;
use gomoku::opening_move::opening_move;
use gomoku::players::{Algorithm, Player, PlayerType, Players};

fn board19() -> Board {
    Board::new(19, 5, 2)
}

fn bot_players(algorithm: Algorithm) -> Players {
    let p1 = Player::new(Color::Black, PlayerType::Bot(algorithm));
    let p2 = Player::new(Color::White, PlayerType::Bot(algorithm));
    Players::new(p1, p2, 10, 2)
}

#[test]
fn first_bot_move_is_centre() {
    let board = board19();
    let players = bot_players(Algorithm::Minimax);
    let (input, tree) = get_bot_input(players, &board, None, 5);
    assert_eq!(input, (9, 9));
    assert!(tree.is_none());
}

#[test]
fn bot_answers_with_legal_nearby_move() {
    let mut board = board19();
    let mut players = bot_players(Algorithm::Minimax);
    board.add_value_checked((9, 9), &mut players);
    players.next_player();
    let (input, tree) = get_bot_input(players, &board, None, 1);
    assert!(input.0 < 19 && input.1 < 19);
    assert_eq!(board.get(input), Tile::Empty);
    let dx = input.0 as i64 - 9;
    let dy = input.1 as i64 - 9;
    assert!(dx.abs() <= 1 && dy.abs() <= 1);
    let t = tree.expect("a searched move returns its subtree");
    assert_eq!(board.from_input(input), t.input);
}

#[test]
fn search_is_deterministic() {
    let mut board = board19();
    let mut players = bot_players(Algorithm::Minimax);
    board.add_value_checked((9, 9), &mut players);
    players.next_player();
    let (first, _) = get_bot_input(players, &board, None, 2);
    let (second, _) = get_bot_input(players, &board, None, 2);
    assert_eq!(first, second);
    let mut players_pvs = bot_players(Algorithm::Pvs);
    board.add_value_checked((12, 12), &mut players_pvs);
    players_pvs.next_player();
    let (p1, _) = get_bot_input(players_pvs, &board, None, 2);
    let (p2, _) = get_bot_input(players_pvs, &board, None, 2);
    assert_eq!(p1, p2);
}

#[test]
fn tree_reuse_keeps_the_game_going() {
    let mut board = board19();
    let mut players = bot_players(Algorithm::Minimax);
    board.add_value_checked((9, 9), &mut players);
    players.next_player();
    let (input, tree) = get_bot_input(players, &board, None, 2);
    // Play the chosen move for real, then ask again with the subtree.
    board.add_value_checked(input, &mut players);
    players.next_player();
    let (next_input, _) = get_bot_input(players, &board, tree, 2);
    assert!(next_input.0 < 19 && next_input.1 < 19);
    assert_eq!(board.get(next_input), Tile::Empty);
}

#[test]
fn tree_snapshot_accessors() {
    let board = board19();
    let players = bot_players(Algorithm::Minimax);
    let mut tree = Tree::new(board, players, 0, Color::Black);
    assert_eq!(tree.input, 0);
    assert_eq!(tree.children.len(), 0);
    assert_eq!(tree.board().get_size(), 19);
    assert_eq!(
        tree.players().get_current_player().get_player_color(),
        Color::Black
    );
    let child_board = board19();
    let child = Tree::new(child_board, players, 7, Color::Black);
    tree.push(child);
    assert_eq!(tree.children.len(), 1);
    let probe_board = board19();
    let found = tree.find(&probe_board, &players);
    assert!(found.is_some());
    assert_eq!(found.unwrap().input, 7);
}

#[test]
fn expansion_orders_children_by_score() {
    let mut board = board19();
    let mut players = bot_players(Algorithm::Minimax);
    board.add_value_checked((9, 9), &mut players);
    players.next_player();
    let tree = Tree::new(board, players, 0, Color::Black);
    let expanded = play_everything(tree, Color::Black, true);
    assert!(expanded.children.len() > 0);
    // White to move and minimax: replies sorted worst-first for black.
    for w in expanded.children.windows(2) {
        assert!(w[0].score <= w[1].score);
    }
}

#[test]
fn minimax_returns_memoized_score_at_depth_zero() {
    let mut board = board19();
    let mut players = bot_players(Algorithm::Minimax);
    board.add_value_checked((9, 9), &mut players);
    let tree = Tree::new(board, players, 0, Color::Black);
    let memo = tree.score;
    let (score, out) = minimax((0, 5), true, i32::MIN, i32::MAX, Color::Black, tree, false);
    assert_eq!(score, memo);
    assert_eq!(out.children.len(), 0);
}

#[test]
fn pvs_flips_sign_for_the_other_side() {
    let mut board = board19();
    let mut players = bot_players(Algorithm::Pvs);
    board.add_value_checked((9, 9), &mut players);
    board.add_value_checked((10, 9), &mut players);
    // Current player is black, so asking for white flips the score.
    let tree = Tree::new(board, players, 0, Color::Black);
    let memo = tree.score;
    let (for_black, tree) = pvs(tree, 0, i32::MIN + 1, i32::MAX, Color::Black);
    assert_eq!(for_black, memo);
    let (for_white, _) = pvs(tree, 0, i32::MIN + 1, i32::MAX, Color::White);
    assert_eq!(for_white, -memo);
}

#[test]
fn opening_book_first_three_turns() {
    let mut board = board19();
    let mut players = bot_players(Algorithm::Minimax);
    assert_eq!(opening_move(&board, &players, 1), Some((9, 9)));
    assert_eq!(opening_move(&board, &players, 4), None);
    // Second turn: black holds the centre.
    board.add_value_checked((9, 9), &mut players);
    assert_eq!(opening_move(&board, &players, 2), Some((9, 10)));
    // Third turn: a white stone below the centre triggers the first
    // patterned reply.
    players.next_player();
    board.add_value_checked((9, 10), &mut players);
    players.next_player();
    assert_eq!(opening_move(&board, &players, 3), Some((8, 10)));
}

#[test]
fn opening_book_needs_black_centre() {
    let board = board19();
    let players = bot_players(Algorithm::Minimax);
    assert_eq!(opening_move(&board, &players, 2), None);
}
