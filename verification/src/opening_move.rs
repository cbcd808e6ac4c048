//! The opening book: fixed replies for the first three turns of the
//! standard game, built around the centre cell.

use vstd::prelude::*;
use crate::board::{Board, Input, Tile, spec_tile_at};
use crate::color::{Color, spec_inverse};
use crate::players::Players;

verus! {

/// The cell `(ox, oy)` away from `mid` holds a stone of the side
/// opposing `c`.
pub open spec fn spec_verify_input(b: Board, mid: Input, ox: int, oy: int, c: Color) -> bool {
    spec_tile_at(b, mid.0 + ox, mid.1 + oy) == Tile::Color(spec_inverse(c))
}

/// The centre cell may step one cell in any direction without leaving
/// the grid.
pub open spec fn spec_mid_ok(b: Board, mid: Input) -> bool {
    &&& 1 <= mid.0
    &&& mid.0 + 1 < b.size
    &&& 1 <= mid.1
    &&& mid.1 + 1 < b.size
}

/// The first fixed reply pattern of the third turn: answer an
/// opposing stone adjacent on an axis with the diagonal cell turning
/// away from it.
pub open spec fn spec_third_move_rep_1(b: Board, mid: Input, c: Color) -> (bool, Option<Input>) {
    if spec_verify_input(b, mid, 0, 1, c) {
        (true, Some((((mid.0 - 1) as usize), ((mid.1 + 1) as usize))))
    } else if spec_verify_input(b, mid, -1, 0, c) {
        (true, Some((((mid.0 - 1) as usize), ((mid.1 - 1) as usize))))
    } else if spec_verify_input(b, mid, 0, -1, c) {
        (true, Some((((mid.0 + 1) as usize), ((mid.1 - 1) as usize))))
    } else if spec_verify_input(b, mid, 1, 0, c) {
        (true, Some((((mid.0 + 1) as usize), ((mid.1 + 1) as usize))))
    } else {
        (false, None)
    }
}

/// The second fixed reply pattern of the third turn: answer an
/// opposing stone on a diagonal with an adjacent axis cell.
pub open spec fn spec_third_move_rep_2(b: Board, mid: Input, c: Color) -> (bool, Option<Input>) {
    if spec_verify_input(b, mid, -1, 1, c) {
        (true, Some((((mid.0 + 1) as usize), mid.1)))
    } else if spec_verify_input(b, mid, 1, -1, c) {
        (true, Some((((mid.0 - 1) as usize), mid.1)))
    } else if spec_verify_input(b, mid, 1, 1, c) {
        (true, Some((mid.0, ((mid.1 - 1) as usize))))
    } else {
        (false, None)
    }
}

/// The third fixed reply pattern of the third turn: answer an
/// opposing stone two cells away on an axis with the opposite
/// diagonal cell.
pub open spec fn spec_third_move_rep_3(b: Board, mid: Input, c: Color) -> (bool, Option<Input>) {
    if spec_verify_input(b, mid, 0, 2, c) {
        (true, Some((((mid.0 - 1) as usize), ((mid.1 - 1) as usize))))
    } else if spec_verify_input(b, mid, -2, 0, c) {
        (true, Some((((mid.0 + 1) as usize), ((mid.1 - 1) as usize))))
    } else if spec_verify_input(b, mid, 0, -2, c) {
        (true, Some((((mid.0 + 1) as usize), ((mid.1 + 1) as usize))))
    } else if spec_verify_input(b, mid, 2, 0, c) {
        (true, Some((((mid.0 - 1) as usize), ((mid.1 + 1) as usize))))
    } else {
        (false, None)
    }
}

/// The fourth fixed reply pattern of the third turn: answer an
/// opposing stone a knight's step away with the diagonal cell turning
/// towards it.
pub open spec fn spec_third_move_rep_4(b: Board, mid: Input, c: Color) -> (bool, Option<Input>) {
    if spec_verify_input(b, mid, -1, 2, c) {
        (true, Some((((mid.0 + 1) as usize), ((mid.1 + 1) as usize))))
    } else if spec_verify_input(b, mid, -1, -2, c) {
        (true, Some((((mid.0 + 1) as usize), ((mid.1 - 1) as usize))))
    } else if spec_verify_input(b, mid, 1, -2, c) {
        (true, Some((((mid.0 - 1) as usize), ((mid.1 - 1) as usize))))
    } else if spec_verify_input(b, mid, 1, 2, c) {
        (true, Some((((mid.0 - 1) as usize), ((mid.1 + 1) as usize))))
    } else {
        (false, None)
    }
}

/// The coordinate of the first white stone in cell order, or the
/// origin when none stands on the grid.
pub open spec fn spec_first_white_from(b: Board, j: int) -> (int, int)
    decreases b.board@.len() - j,
{
    if j < 0 || j >= b.board@.len() {
        (0, 0)
    } else if b.board@[j] == Tile::Color(Color::White) {
        (j % (b.size as int), j / (b.size as int))
    } else {
        spec_first_white_from(b, j + 1)
    }
}

/// The diagonal retreat of the third turn's fallback: step away from
/// the first opposing stone found on the grid.
pub open spec fn spec_third_move_fallback(b: Board, mid: Input) -> Option<Input> {
    let adv = spec_first_white_from(b, 0);
    let rx: int = if mid.0 < adv.0 {
        -1
    } else {
        1
    };
    let ry: int = if mid.1 < adv.1 {
        1
    } else {
        -1
    };
    Some((((mid.0 + rx) as usize), ((mid.1 + ry) as usize)))
}

/// The reply of the third turn: one of the four fixed patterns around
/// an own centre stone, or the diagonal retreat fallback.
pub open spec fn spec_opening_third_move(b: Board, mid: Input) -> Option<Input> {
    if spec_tile_at(b, mid.0 as int, mid.1 as int) == Tile::Color(Color::Black)
        && spec_third_move_rep_1(b, mid, Color::Black).0 {
        spec_third_move_rep_1(b, mid, Color::Black).1
    } else if spec_tile_at(b, mid.0 as int, mid.1 as int) == Tile::Color(Color::Black)
        && spec_third_move_rep_2(b, mid, Color::Black).0 {
        spec_third_move_rep_2(b, mid, Color::Black).1
    } else if spec_tile_at(b, mid.0 as int, mid.1 as int) == Tile::Color(Color::Black)
        && spec_third_move_rep_3(b, mid, Color::Black).0 {
        spec_third_move_rep_3(b, mid, Color::Black).1
    } else if spec_tile_at(b, mid.0 as int, mid.1 as int) == Tile::Color(Color::Black)
        && spec_third_move_rep_4(b, mid, Color::Black).0 {
        spec_third_move_rep_4(b, mid, Color::Black).1
    } else {
        spec_third_move_fallback(b, mid)
    }
}

/// The reply of the second turn: one cell below an own centre stone.
pub open spec fn spec_opening_second_move(b: Board, mid: Input) -> Option<Input> {
    if spec_tile_at(b, mid.0 as int, mid.1 as int) == Tile::Color(Color::Black) {
        Some((mid.0, ((mid.1 + 1) as usize)))
    } else {
        None
    }
}

/// The book reply for the given turn, if the book has one.
pub open spec fn spec_opening_move(b: Board, turn_count: int) -> Option<Input> {
    let mid = ((b.size / 2) as usize, (b.size / 2) as usize);
    if turn_count == 1 {
        Some(mid)
    } else if turn_count == 2 {
        spec_opening_second_move(b, mid)
    } else if turn_count == 3 {
        spec_opening_third_move(b, mid)
    } else {
        None
    }
}

/// Whether the cell `(x, y)` away from `mid` holds a stone of the
/// side opposing `color`.
fn verify_input(board: &Board, mid: Input, x: i32, y: i32, color: Color) -> (r: bool)
    requires
        board.wf(),
        mid.0 < board.size,
        mid.1 < board.size,
        -2 <= x <= 2,
        -2 <= y <= 2,
    ensures
        r == spec_verify_input(*board, mid, x as int, y as int, color),
{
    let t = board.probe(mid.0, mid.1, x, y, 1);
    t == Tile::Color(color.get_inverse_color())
}

/// The cell `(x, y)` away from `mid`.
fn add_input(mid: Input, x: i32, y: i32) -> (r: Option<Input>)
    requires
        1 <= mid.0 <= 100,
        1 <= mid.1 <= 100,
        -1 <= x <= 1,
        -1 <= y <= 1,
    ensures
        r == Some((((mid.0 + x) as usize), ((mid.1 + y) as usize))),
{
    let nx: i64 = mid.0 as i64 + x as i64;
    let ny: i64 = mid.1 as i64 + y as i64;
    Some((nx as usize, ny as usize))
}

/// The first fixed reply pattern of the third turn.
fn third_move_rep_1(board: &Board, mid: Input, color: Color) -> (r: (bool, Option<Input>))
    requires
        board.wf(),
        spec_mid_ok(*board, mid),
    ensures
        r == spec_third_move_rep_1(*board, mid, color),
{
    let negone: i32 = -1;
    if verify_input(board, mid, 0, 1, color) {
        return (true, add_input(mid, negone, 1));
    }
    if verify_input(board, mid, negone, 0, color) {
        return (true, add_input(mid, negone, negone));
    }
    if verify_input(board, mid, 0, negone, color) {
        return (true, add_input(mid, 1, negone));
    }
    if verify_input(board, mid, 1, 0, color) {
        return (true, add_input(mid, 1, 1));
    }
    (false, None)
}

/// The second fixed reply pattern of the third turn.  The same
/// diagonal probe answers two book lines, so only three cells are
/// examined.
fn third_move_rep_2(board: &Board, mid: Input, color: Color) -> (r: (bool, Option<Input>))
    requires
        board.wf(),
        spec_mid_ok(*board, mid),
    ensures
        r == spec_third_move_rep_2(*board, mid, color),
{
    let negone: i32 = -1;
    if verify_input(board, mid, negone, 1, color) {
        return (true, add_input(mid, 1, 0));
    }
    if verify_input(board, mid, negone, 1, color) {
        return (true, add_input(mid, 0, 1));
    }
    if verify_input(board, mid, 1, negone, color) {
        return (true, add_input(mid, negone, 0));
    }
    if verify_input(board, mid, 1, 1, color) {
        return (true, add_input(mid, 0, negone));
    }
    (false, None)
}

/// The third fixed reply pattern of the third turn.
fn third_move_rep_3(board: &Board, mid: Input, color: Color) -> (r: (bool, Option<Input>))
    requires
        board.wf(),
        spec_mid_ok(*board, mid),
    ensures
        r == spec_third_move_rep_3(*board, mid, color),
{
    let negone: i32 = -1;
    let negtwo: i32 = -2;
    if verify_input(board, mid, 0, 2, color) {
        return (true, add_input(mid, negone, negone));
    }
    if verify_input(board, mid, negtwo, 0, color) {
        return (true, add_input(mid, 1, negone));
    }
    if verify_input(board, mid, 0, negtwo, color) {
        return (true, add_input(mid, 1, 1));
    }
    if verify_input(board, mid, 2, 0, color) {
        return (true, add_input(mid, negone, 1));
    }
    (false, None)
}

/// The fourth fixed reply pattern of the third turn.
fn third_move_rep_4(board: &Board, mid: Input, color: Color) -> (r: (bool, Option<Input>))
    requires
        board.wf(),
        spec_mid_ok(*board, mid),
    ensures
        r == spec_third_move_rep_4(*board, mid, color),
{
    let negone: i32 = -1;
    let negtwo: i32 = -2;
    if verify_input(board, mid, negone, 2, color) {
        return (true, add_input(mid, 1, 1));
    }
    if verify_input(board, mid, negone, negtwo, color) {
        return (true, add_input(mid, 1, negone));
    }
    if verify_input(board, mid, 1, negtwo, color) {
        return (true, add_input(mid, negone, negone));
    }
    if verify_input(board, mid, 1, 2, color) {
        return (true, add_input(mid, negone, 1));
    }
    (false, None)
}

/// The reply of the second turn.
fn opening_second_move(board: &Board, mid: Input) -> (r: Option<Input>)
    requires
        board.wf(),
        spec_mid_ok(*board, mid),
    ensures
        r == spec_opening_second_move(*board, mid),
{
    if board.get(mid) == Tile::Color(Color::Black) {
        return add_input(mid, 0, 1);
    }
    None
}

/// The reply of the third turn.
fn opening_third_move(board: &Board, mid: Input) -> (r: Option<Input>)
    requires
        board.wf(),
        spec_mid_ok(*board, mid),
    ensures
        r == spec_opening_third_move(*board, mid),
{
    if board.get(mid) == Tile::Color(Color::Black) {
        match third_move_rep_1(board, mid, Color::Black) {
            (true, Some(input)) => {
                return Some(input);
            },
            _ => {},
        }
        match third_move_rep_2(board, mid, Color::Black) {
            (true, Some(input)) => {
                return Some(input);
            },
            _ => {},
        }
        match third_move_rep_3(board, mid, Color::Black) {
            (true, Some(input)) => {
                return Some(input);
            },
            _ => {},
        }
        match third_move_rep_4(board, mid, Color::Black) {
            (true, Some(input)) => {
                return Some(input);
            },
            _ => {},
        }
    }
    let total = board.get_total_tiles();
    let mut adv_move: Input = (0, 0);
    let mut i: usize = 0;
    let mut found = false;
    while i < total && !found
        invariant
            0 <= i <= total,
            total == board.board@.len(),
            board.wf(),
            !found ==> adv_move == ((0usize, 0usize)) && spec_first_white_from(*board, 0)
                == spec_first_white_from(*board, i as int),
            found ==> ((adv_move.0 as int, adv_move.1 as int)) == spec_first_white_from(*board, 0),
        decreases total - i + (if found { 0int } else { 1int }),
    {
        if board.get_index(i) == Tile::Color(Color::White) {
            adv_move = board.get_input(i);
            found = true;
        } else {
            i = i + 1;
        }
    }
    proof {
        if !found {
            assert(((adv_move.0 as int, adv_move.1 as int)) == spec_first_white_from(*board, 0));
        }
    }
    let negone: i32 = -1;
    let rx: i32 = if mid.0 < adv_move.0 {
        negone
    } else {
        1
    };
    let ry: i32 = if mid.1 < adv_move.1 {
        1
    } else {
        negone
    };
    add_input(mid, rx, ry)
}

/// The book reply for the given turn of the standard game, if the
/// book has one: the centre for the first move, a fixed shoulder cell
/// for the second, and one of the patterned replies for the third.
pub fn opening_move(board: &Board, _players: &Players, turn_count: usize) -> (r: Option<Input>)
    requires
        board.wf(),
    ensures
        r == spec_opening_move(*board, turn_count as int),
{
    let middle_input: Input = (board.get_size() / 2, board.get_size() / 2);
    match turn_count {
        1 => Some(middle_input),
        2 => opening_second_move(board, middle_input),
        3 => opening_third_move(board, middle_input),
        _ => None,
    }
}

} // verus!
