//! The motif catalogue of the positional evaluator: fixed windows of
//! own stones, empty cells and blocked cells along a scan direction,
//! each mapped to a signed score magnitude.  Larger, more dangerous
//! motifs are tried first; the first match also tells the scan how
//! many cells it consumed.

use vstd::prelude::*;
use crate::board::{Board, Input, Tile, spec_tile_at, tile_at_s};
use crate::color::{Color, spec_inverse};

verus! {

/// Five in a row: an immediate win.
pub const BBBBB_SCORE: i32 = 1073741823;

/// Open four.
pub const EBBBBE_SCORE: i32 = 161222495;

/// Broken open four `.X.XXX.` / `.XXX.X.`.
pub const EBEBBBE_SCORE: i32 = 161222495;

/// Gapped open four `.XX.XX.`.
pub const EBBEBBE_SCORE: i32 = 161222495;

/// Closed four `.XXXX(edge)`.
pub const EBBBBW_SCORE: i32 = 107481663;

/// Open three `.XXX.`.
pub const EBBBE_SCORE: i32 = 107481663;

/// Spread three `.X.X.X.`.
pub const EBEBEBE_SCORE: i32 = 107481663;

/// Broken open three `.X.XX.` / `.XX.X.`.
pub const EBEBBE_SCORE: i32 = 107481663;

/// Wide broken three `.X..XX.` / `.XX..X.`.
pub const EBEEBBE_SCORE: i32 = 107481663;

/// Closed three `.XXX(edge)`.
pub const EBBBW_SCORE: i32 = 53740831;

/// Enclosed open three `(edge).XXX.(edge)`.
pub const WEBBBEW_SCORE: i32 = 53740831;

/// Closed broken three `.XX.X(edge)` / `(edge)X.XX.`.
pub const EBBEBW_SCORE: i32 = 53740831;

/// Closed broken three `(edge)XX.X.` / `.X.XX(edge)`.
pub const WBBEBE_SCORE: i32 = 53740831;

/// Open split two `.X.X.`.
pub const EBEBE_SCORE: i32 = 10748166;

/// Open two `.XX.`.
pub const EBBE_SCORE: i32 = 10748166;

/// Wide open two `.X..X.`.
pub const EBEEBE_SCORE: i32 = 10748166;

/// Widest open two `.X...X.`.
pub const EBEEEBE_SCORE: i32 = 10748166;

/// Closed wide two `.X..X(edge)` / `(edge)X..X.`.
pub const EBEEBW_SCORE: i32 = 3227677;

/// Closed split two `.X.X(edge)` / `(edge)X.X.`.
pub const EBEBW_SCORE: i32 = 3227677;

/// Closed two `.XX(edge)` / `(edge)XX.`.
pub const EBBW_SCORE: i32 = 3227677;


/// The five-or-more motif table of a whole board.
pub open spec fn spec_check_5_and_more(b: Board, x: int, y: int, dx: int, dy: int, persp: Color) -> Option<(int, int)> {
    spec_check_5_and_more_s(b.board@, b.size as int, x, y, dx, dy, persp)
}

/// The four-cell motif table of a whole board.
pub open spec fn spec_cases_size_4(b: Board, x: int, y: int, dx: int, dy: int, persp: Color) -> Option<int> {
    spec_cases_size_4_s(b.board@, b.size as int, x, y, dx, dy, persp)
}

/// The three-cell motif table of a whole board.
pub open spec fn spec_cases_size_3(b: Board, x: int, y: int, dx: int, dy: int, persp: Color) -> Option<int> {
    spec_cases_size_3_s(b.board@, b.size as int, x, y, dx, dy, persp)
}

/// The two-cell motif table of a whole board.
pub open spec fn spec_cases_size_2(b: Board, x: int, y: int, dx: int, dy: int, persp: Color) -> Option<int> {
    spec_cases_size_2_s(b.board@, b.size as int, x, y, dx, dy, persp)
}

/// A cell that blocks a run of colour `m`: an opposing stone or the
/// board edge.
pub open spec fn spec_blocked(t: Tile, m: Color) -> bool {
    t == Tile::Color(spec_inverse(m)) || t == Tile::OutOfBounds
}

/// `sc` counted for the perspective side: positive when the matched
/// stones are its own, negative when they are the opponent's.
pub open spec fn spec_signed(sc: int, m: Color, persp: Color) -> int {
    if m == persp {
        sc
    } else {
        -sc
    }
}

/// The five-or-more motif table at `(x, y)` along `(dx, dy)`, with the
/// number of cells a match consumes.
pub open spec fn spec_check_5_and_more_s(
    s: Seq<Tile>,
    size: int,
    x: int,
    y: int,
    dx: int,
    dy: int,
    persp: Color,
) -> Option<(int, int)> {
    let tm2 = tile_at_s(s, size, x - 2 * dx, y - 2 * dy);
    let tm1 = tile_at_s(s, size, x - dx, y - dy);
    let t0 = tile_at_s(s, size, x, y);
    let t1 = tile_at_s(s, size, x + dx, y + dy);
    let t2 = tile_at_s(s, size, x + 2 * dx, y + 2 * dy);
    let t3 = tile_at_s(s, size, x + 3 * dx, y + 3 * dy);
    let t4 = tile_at_s(s, size, x + 4 * dx, y + 4 * dy);
    let t5 = tile_at_s(s, size, x + 5 * dx, y + 5 * dy);
    match t0 {
        Tile::Color(m) => {
            let own = Tile::Color(m);
            let enemy = Tile::Color(spec_inverse(m));
            if tm2 == enemy && tm1 == Tile::Empty && t1 == own && t2 == own && t3 == Tile::Empty
                && t4 == enemy {
                Some((spec_signed(WEBBBEW_SCORE as int, m, persp), 4))
            } else if t1 == own && t2 == own && t3 == own && t4 == own {
                Some((spec_signed(BBBBB_SCORE as int, m, persp), 5))
            } else if tm1 == Tile::Empty && t1 == Tile::Empty && t2 == own && t3 == own && t4 == own
                && t5 == Tile::Empty {
                Some((spec_signed(EBEBBBE_SCORE as int, m, persp), 5))
            } else if tm1 == Tile::Empty && t1 == own && t2 == own && t3 == Tile::Empty && t4 == own
                && t5 == Tile::Empty {
                Some((spec_signed(EBEBBBE_SCORE as int, m, persp), 5))
            } else if tm1 == Tile::Empty && t1 == own && t2 == Tile::Empty && t3 == own && t4 == own
                && t5 == Tile::Empty {
                Some((spec_signed(EBBEBBE_SCORE as int, m, persp), 5))
            } else if tm1 == Tile::Empty && t1 == Tile::Empty && t2 == Tile::Empty && t3 == own
                && t4 == own && t5 == Tile::Empty {
                Some((spec_signed(EBEEBBE_SCORE as int, m, persp), 5))
            } else if tm1 == Tile::Empty && t1 == own && t2 == Tile::Empty && t3 == Tile::Empty
                && t4 == own && t5 == Tile::Empty {
                Some((spec_signed(EBEEBBE_SCORE as int, m, persp), 5))
            } else if tm1 == Tile::Empty && t1 == Tile::Empty && t2 == own && t3 == Tile::Empty
                && t4 == own && t5 == Tile::Empty {
                Some((spec_signed(EBEBEBE_SCORE as int, m, persp), 5))
            } else if tm1 == Tile::Empty && t1 == Tile::Empty && t2 == Tile::Empty && t3
                == Tile::Empty && t4 == own && t5 == Tile::Empty {
                Some((spec_signed(EBEEEBE_SCORE as int, m, persp), 5))
            } else {
                None
            }
        },
        _ => None,
    }
}

/// The four-cell motif table at `(x, y)` along `(dx, dy)`.
pub open spec fn spec_cases_size_4_s(
    s: Seq<Tile>,
    size: int,
    x: int,
    y: int,
    dx: int,
    dy: int,
    persp: Color,
) -> Option<int> {
    let tm1 = tile_at_s(s, size, x - dx, y - dy);
    let t0 = tile_at_s(s, size, x, y);
    let t1 = tile_at_s(s, size, x + dx, y + dy);
    let t2 = tile_at_s(s, size, x + 2 * dx, y + 2 * dy);
    let t3 = tile_at_s(s, size, x + 3 * dx, y + 3 * dy);
    let t4 = tile_at_s(s, size, x + 4 * dx, y + 4 * dy);
    match t0 {
        Tile::Color(m) => {
            let own = Tile::Color(m);
            if tm1 == Tile::Empty && t1 == own && t2 == own && t3 == own && t4 == Tile::Empty {
                Some(spec_signed(EBBBBE_SCORE as int, m, persp))
            } else if tm1 == Tile::Empty && t1 == own && t2 == own && t3 == own && spec_blocked(
                t4,
                m,
            ) {
                Some(spec_signed(EBBBBW_SCORE as int, m, persp))
            } else if spec_blocked(tm1, m) && t1 == own && t2 == own && t3 == own && t4
                == Tile::Empty {
                Some(spec_signed(EBBBBW_SCORE as int, m, persp))
            } else if tm1 == Tile::Empty && t1 == Tile::Empty && t2 == own && t3 == own && t4
                == Tile::Empty {
                Some(spec_signed(EBEBBE_SCORE as int, m, persp))
            } else if tm1 == Tile::Empty && t1 == own && t2 == Tile::Empty && t3 == own && t4
                == Tile::Empty {
                Some(spec_signed(EBEBBE_SCORE as int, m, persp))
            } else if spec_blocked(tm1, m) && t1 == own && t2 == Tile::Empty && t3 == own && t4
                == Tile::Empty {
                Some(spec_signed(WBBEBE_SCORE as int, m, persp))
            } else if tm1 == Tile::Empty && t1 == Tile::Empty && t2 == own && t3 == own
                && spec_blocked(t4, m) {
                Some(spec_signed(WBBEBE_SCORE as int, m, persp))
            } else if tm1 == Tile::Empty && t1 == own && t2 == Tile::Empty && t3 == own
                && spec_blocked(t4, m) {
                Some(spec_signed(EBBEBW_SCORE as int, m, persp))
            } else if spec_blocked(tm1, m) && t1 == Tile::Empty && t2 == own && t3 == own && t4
                == Tile::Empty {
                Some(spec_signed(EBBEBW_SCORE as int, m, persp))
            } else if tm1 == Tile::Empty && t1 == Tile::Empty && t2 == Tile::Empty && t3 == own
                && t4 == Tile::Empty {
                Some(spec_signed(EBEEBE_SCORE as int, m, persp))
            } else if tm1 == Tile::Empty && t1 == Tile::Empty && t2 == Tile::Empty && t3 == own
                && spec_blocked(t4, m) {
                Some(spec_signed(EBEEBW_SCORE as int, m, persp))
            } else if spec_blocked(tm1, m) && t1 == Tile::Empty && t2 == Tile::Empty && t3 == own
                && t4 == Tile::Empty {
                Some(spec_signed(EBEEBW_SCORE as int, m, persp))
            } else {
                None
            }
        },
        _ => None,
    }
}

/// The three-cell motif table at `(x, y)` along `(dx, dy)`.
pub open spec fn spec_cases_size_3_s(
    s: Seq<Tile>,
    size: int,
    x: int,
    y: int,
    dx: int,
    dy: int,
    persp: Color,
) -> Option<int> {
    let tm1 = tile_at_s(s, size, x - dx, y - dy);
    let t0 = tile_at_s(s, size, x, y);
    let t1 = tile_at_s(s, size, x + dx, y + dy);
    let t2 = tile_at_s(s, size, x + 2 * dx, y + 2 * dy);
    let t3 = tile_at_s(s, size, x + 3 * dx, y + 3 * dy);
    match t0 {
        Tile::Color(m) => {
            let own = Tile::Color(m);
            if tm1 == Tile::Empty && t1 == Tile::Empty && t2 == own && spec_blocked(t3, m) {
                Some(spec_signed(EBEBW_SCORE as int, m, persp))
            } else if spec_blocked(tm1, m) && t1 == Tile::Empty && t2 == own && t3 == Tile::Empty {
                Some(spec_signed(EBEBW_SCORE as int, m, persp))
            } else if tm1 == Tile::Empty && t1 == Tile::Empty && t2 == own && t3 == Tile::Empty {
                Some(spec_signed(EBEBE_SCORE as int, m, persp))
            } else if spec_blocked(tm1, m) && t1 == own && t2 == own && t3 == Tile::Empty {
                Some(spec_signed(EBBBW_SCORE as int, m, persp))
            } else if tm1 == Tile::Empty && t1 == own && t2 == own && spec_blocked(t3, m) {
                Some(spec_signed(EBBBW_SCORE as int, m, persp))
            } else if tm1 == Tile::Empty && t1 == own && t2 == own && t3 == Tile::Empty {
                Some(spec_signed(EBBBE_SCORE as int, m, persp))
            } else {
                None
            }
        },
        _ => None,
    }
}

/// The two-cell motif table at `(x, y)` along `(dx, dy)`.
pub open spec fn spec_cases_size_2_s(
    s: Seq<Tile>,
    size: int,
    x: int,
    y: int,
    dx: int,
    dy: int,
    persp: Color,
) -> Option<int> {
    let tm1 = tile_at_s(s, size, x - dx, y - dy);
    let t0 = tile_at_s(s, size, x, y);
    let t1 = tile_at_s(s, size, x + dx, y + dy);
    let t2 = tile_at_s(s, size, x + 2 * dx, y + 2 * dy);
    match t0 {
        Tile::Color(m) => {
            let own = Tile::Color(m);
            if tm1 == Tile::Empty && t1 == own && t2 == Tile::Empty {
                Some(spec_signed(EBBE_SCORE as int, m, persp))
            } else if tm1 == Tile::Empty && t1 == own && spec_blocked(t2, m) {
                Some(spec_signed(EBBW_SCORE as int, m, persp))
            } else if spec_blocked(tm1, m) && t1 == own && t2 == Tile::Empty {
                Some(spec_signed(EBBW_SCORE as int, m, persp))
            } else {
                None
            }
        },
        _ => None,
    }
}

/// Whether `t` blocks a run of colour `m`.
fn is_blocked(t: Tile, m: Color) -> (r: bool)
    ensures
        r == spec_blocked(t, m),
{
    t == Tile::Color(m.get_inverse_color()) || t == Tile::OutOfBounds
}

/// `sc` counted for the perspective side.
fn signed(sc: i32, m: Color, persp: Color) -> (r: i32)
    requires
        sc > i32::MIN,
    ensures
        r as int == spec_signed(sc as int, m, persp),
{
    if m == persp {
        sc
    } else {
        -sc
    }
}

/// Matches the five-or-more motif tiers at `pos` along `(dx, dy)` for
/// the perspective side, returning the signed score and the number of
/// cells the match consumes.
pub fn check_5_and_more(board: &Board, pos: Input, dx: i32, dy: i32, color: Color) -> (r: Option<
    (i32, usize),
>)
    requires
        board.wf(),
        pos.0 < board.size,
        pos.1 < board.size,
        -1 <= dx <= 1,
        -1 <= dy <= 1,
    ensures
        (match r {
            Some((sc, sk)) => spec_check_5_and_more(
                *board,
                pos.0 as int,
                pos.1 as int,
                dx as int,
                dy as int,
                color,
            ) == Some((sc as int, sk as int)),
            None => spec_check_5_and_more(
                *board,
                pos.0 as int,
                pos.1 as int,
                dx as int,
                dy as int,
                color,
            ) is None,
        }),
    {
        let tm2 = board.probe(pos.0, pos.1, dx, dy, -2);
        let tm1 = board.probe(pos.0, pos.1, dx, dy, -1);
        let t0 = board.probe(pos.0, pos.1, dx, dy, 0);
        let t1 = board.probe(pos.0, pos.1, dx, dy, 1);
        let t2 = board.probe(pos.0, pos.1, dx, dy, 2);
        let t3 = board.probe(pos.0, pos.1, dx, dy, 3);
        let t4 = board.probe(pos.0, pos.1, dx, dy, 4);
        let t5 = board.probe(pos.0, pos.1, dx, dy, 5);
        proof {
            let x = pos.0 as int;
            let y = pos.1 as int;
            let dxi = dx as int;
            let dyi = dy as int;
            assert(tm2 == spec_tile_at(*board, x - 2 * dxi, y - 2 * dyi));
            assert(tm1 == spec_tile_at(*board, x - dxi, y - dyi));
            assert(t0 == spec_tile_at(*board, x, y));
            assert(t1 == spec_tile_at(*board, x + dxi, y + dyi));
            assert(t2 == spec_tile_at(*board, x + 2 * dxi, y + 2 * dyi));
            assert(t3 == spec_tile_at(*board, x + 3 * dxi, y + 3 * dyi));
            assert(t4 == spec_tile_at(*board, x + 4 * dxi, y + 4 * dyi));
            assert(t5 == spec_tile_at(*board, x + 5 * dxi, y + 5 * dyi));
        }
        let m = match t0 {
            Tile::Color(m) => m,
            _ => {
                return None;
            },
        };
        let own = Tile::Color(m);
        let enemy = Tile::Color(m.get_inverse_color());
        if tm2 == enemy && tm1 == Tile::Empty && t1 == own && t2 == own && t3 == Tile::Empty && t4
            == enemy {
            Some((signed(WEBBBEW_SCORE, m, color), 4))
        } else if t1 == own && t2 == own && t3 == own && t4 == own {
            Some((signed(BBBBB_SCORE, m, color), 5))
        } else if tm1 == Tile::Empty && t1 == Tile::Empty && t2 == own && t3 == own && t4 == own
            && t5 == Tile::Empty {
            Some((signed(EBEBBBE_SCORE, m, color), 5))
        } else if tm1 == Tile::Empty && t1 == own && t2 == own && t3 == Tile::Empty && t4 == own
            && t5 == Tile::Empty {
            Some((signed(EBEBBBE_SCORE, m, color), 5))
        } else if tm1 == Tile::Empty && t1 == own && t2 == Tile::Empty && t3 == own && t4 == own
            && t5 == Tile::Empty {
            Some((signed(EBBEBBE_SCORE, m, color), 5))
        } else if tm1 == Tile::Empty && t1 == Tile::Empty && t2 == Tile::Empty && t3 == own && t4
            == own && t5 == Tile::Empty {
            Some((signed(EBEEBBE_SCORE, m, color), 5))
        } else if tm1 == Tile::Empty && t1 == own && t2 == Tile::Empty && t3 == Tile::Empty && t4
            == own && t5 == Tile::Empty {
            Some((signed(EBEEBBE_SCORE, m, color), 5))
        } else if tm1 == Tile::Empty && t1 == Tile::Empty && t2 == own && t3 == Tile::Empty && t4
            == own && t5 == Tile::Empty {
            Some((signed(EBEBEBE_SCORE, m, color), 5))
        } else if tm1 == Tile::Empty && t1 == Tile::Empty && t2 == Tile::Empty && t3 == Tile::Empty
            && t4 == own && t5 == Tile::Empty {
            Some((signed(EBEEEBE_SCORE, m, color), 5))
        } else {
            None
        }
    }

/// Matches the four-cell motif tiers at `pos` along `(dx, dy)` for the
/// perspective side.
pub fn get_cases_size_4(board: &Board, pos: Input, dx: i32, dy: i32, color: Color) -> (r: Option<
    i32,
>)
    requires
        board.wf(),
        pos.0 < board.size,
        pos.1 < board.size,
        -1 <= dx <= 1,
        -1 <= dy <= 1,
    ensures
        (match r {
            Some(sc) => spec_cases_size_4(
                *board,
                pos.0 as int,
                pos.1 as int,
                dx as int,
                dy as int,
                color,
            ) == Some(sc as int),
            None => spec_cases_size_4(
                *board,
                pos.0 as int,
                pos.1 as int,
                dx as int,
                dy as int,
                color,
            ) is None,
        }),
    {
        let tm1 = board.probe(pos.0, pos.1, dx, dy, -1);
        let t0 = board.probe(pos.0, pos.1, dx, dy, 0);
        let t1 = board.probe(pos.0, pos.1, dx, dy, 1);
        let t2 = board.probe(pos.0, pos.1, dx, dy, 2);
        let t3 = board.probe(pos.0, pos.1, dx, dy, 3);
        let t4 = board.probe(pos.0, pos.1, dx, dy, 4);
        proof {
            let x = pos.0 as int;
            let y = pos.1 as int;
            let dxi = dx as int;
            let dyi = dy as int;
            assert(tm1 == spec_tile_at(*board, x - dxi, y - dyi));
            assert(t0 == spec_tile_at(*board, x, y));
            assert(t1 == spec_tile_at(*board, x + dxi, y + dyi));
            assert(t2 == spec_tile_at(*board, x + 2 * dxi, y + 2 * dyi));
            assert(t3 == spec_tile_at(*board, x + 3 * dxi, y + 3 * dyi));
            assert(t4 == spec_tile_at(*board, x + 4 * dxi, y + 4 * dyi));
        }
        let m = match t0 {
            Tile::Color(m) => m,
            _ => {
                return None;
            },
        };
        let own = Tile::Color(m);
        if tm1 == Tile::Empty && t1 == own && t2 == own && t3 == own && t4 == Tile::Empty {
            Some(signed(EBBBBE_SCORE, m, color))
        } else if tm1 == Tile::Empty && t1 == own && t2 == own && t3 == own && is_blocked(t4, m) {
            Some(signed(EBBBBW_SCORE, m, color))
        } else if is_blocked(tm1, m) && t1 == own && t2 == own && t3 == own && t4 == Tile::Empty {
            Some(signed(EBBBBW_SCORE, m, color))
        } else if tm1 == Tile::Empty && t1 == Tile::Empty && t2 == own && t3 == own && t4
            == Tile::Empty {
            Some(signed(EBEBBE_SCORE, m, color))
        } else if tm1 == Tile::Empty && t1 == own && t2 == Tile::Empty && t3 == own && t4
            == Tile::Empty {
            Some(signed(EBEBBE_SCORE, m, color))
        } else if is_blocked(tm1, m) && t1 == own && t2 == Tile::Empty && t3 == own && t4
            == Tile::Empty {
            Some(signed(WBBEBE_SCORE, m, color))
        } else if tm1 == Tile::Empty && t1 == Tile::Empty && t2 == own && t3 == own && is_blocked(
            t4,
            m,
        ) {
            Some(signed(WBBEBE_SCORE, m, color))
        } else if tm1 == Tile::Empty && t1 == own && t2 == Tile::Empty && t3 == own && is_blocked(
            t4,
            m,
        ) {
            Some(signed(EBBEBW_SCORE, m, color))
        } else if is_blocked(tm1, m) && t1 == Tile::Empty && t2 == own && t3 == own && t4
            == Tile::Empty {
            Some(signed(EBBEBW_SCORE, m, color))
        } else if tm1 == Tile::Empty && t1 == Tile::Empty && t2 == Tile::Empty && t3 == own && t4
            == Tile::Empty {
            Some(signed(EBEEBE_SCORE, m, color))
        } else if tm1 == Tile::Empty && t1 == Tile::Empty && t2 == Tile::Empty && t3 == own
            && is_blocked(t4, m) {
            Some(signed(EBEEBW_SCORE, m, color))
        } else if is_blocked(tm1, m) && t1 == Tile::Empty && t2 == Tile::Empty && t3 == own && t4
            == Tile::Empty {
            Some(signed(EBEEBW_SCORE, m, color))
        } else {
            None
        }
    }

/// Matches the three-cell motif tiers at `pos` along `(dx, dy)` for
/// the perspective side.
pub fn get_cases_size_3(board: &Board, pos: Input, dx: i32, dy: i32, color: Color) -> (r: Option<
    i32,
>)
    requires
        board.wf(),
        pos.0 < board.size,
        pos.1 < board.size,
        -1 <= dx <= 1,
        -1 <= dy <= 1,
    ensures
        (match r {
            Some(sc) => spec_cases_size_3(
                *board,
                pos.0 as int,
                pos.1 as int,
                dx as int,
                dy as int,
                color,
            ) == Some(sc as int),
            None => spec_cases_size_3(
                *board,
                pos.0 as int,
                pos.1 as int,
                dx as int,
                dy as int,
                color,
            ) is None,
        }),
    {
        let tm1 = board.probe(pos.0, pos.1, dx, dy, -1);
        let t0 = board.probe(pos.0, pos.1, dx, dy, 0);
        let t1 = board.probe(pos.0, pos.1, dx, dy, 1);
        let t2 = board.probe(pos.0, pos.1, dx, dy, 2);
        let t3 = board.probe(pos.0, pos.1, dx, dy, 3);
        proof {
            let x = pos.0 as int;
            let y = pos.1 as int;
            let dxi = dx as int;
            let dyi = dy as int;
            assert(tm1 == spec_tile_at(*board, x - dxi, y - dyi));
            assert(t0 == spec_tile_at(*board, x, y));
            assert(t1 == spec_tile_at(*board, x + dxi, y + dyi));
            assert(t2 == spec_tile_at(*board, x + 2 * dxi, y + 2 * dyi));
            assert(t3 == spec_tile_at(*board, x + 3 * dxi, y + 3 * dyi));
        }
        let m = match t0 {
            Tile::Color(m) => m,
            _ => {
                return None;
            },
        };
        let own = Tile::Color(m);
        if tm1 == Tile::Empty && t1 == Tile::Empty && t2 == own && is_blocked(t3, m) {
            Some(signed(EBEBW_SCORE, m, color))
        } else if is_blocked(tm1, m) && t1 == Tile::Empty && t2 == own && t3 == Tile::Empty {
            Some(signed(EBEBW_SCORE, m, color))
        } else if tm1 == Tile::Empty && t1 == Tile::Empty && t2 == own && t3 == Tile::Empty {
            Some(signed(EBEBE_SCORE, m, color))
        } else if is_blocked(tm1, m) && t1 == own && t2 == own && t3 == Tile::Empty {
            Some(signed(EBBBW_SCORE, m, color))
        } else if tm1 == Tile::Empty && t1 == own && t2 == own && is_blocked(t3, m) {
            Some(signed(EBBBW_SCORE, m, color))
        } else if tm1 == Tile::Empty && t1 == own && t2 == own && t3 == Tile::Empty {
            Some(signed(EBBBE_SCORE, m, color))
        } else {
            None
        }
    }

/// Matches the two-cell motif tiers at `pos` along `(dx, dy)` for the
/// perspective side.
pub fn get_cases_size_2(board: &Board, pos: Input, dx: i32, dy: i32, color: Color) -> (r: Option<
    i32,
>)
    requires
        board.wf(),
        pos.0 < board.size,
        pos.1 < board.size,
        -1 <= dx <= 1,
        -1 <= dy <= 1,
    ensures
        (match r {
            Some(sc) => spec_cases_size_2(
                *board,
                pos.0 as int,
                pos.1 as int,
                dx as int,
                dy as int,
                color,
            ) == Some(sc as int),
            None => spec_cases_size_2(
                *board,
                pos.0 as int,
                pos.1 as int,
                dx as int,
                dy as int,
                color,
            ) is None,
        }),
    {
        let tm1 = board.probe(pos.0, pos.1, dx, dy, -1);
        let t0 = board.probe(pos.0, pos.1, dx, dy, 0);
        let t1 = board.probe(pos.0, pos.1, dx, dy, 1);
        let t2 = board.probe(pos.0, pos.1, dx, dy, 2);
        proof {
            let x = pos.0 as int;
            let y = pos.1 as int;
            let dxi = dx as int;
            let dyi = dy as int;
            assert(tm1 == spec_tile_at(*board, x - dxi, y - dyi));
            assert(t0 == spec_tile_at(*board, x, y));
            assert(t1 == spec_tile_at(*board, x + dxi, y + dyi));
            assert(t2 == spec_tile_at(*board, x + 2 * dxi, y + 2 * dyi));
        }
        let m = match t0 {
            Tile::Color(m) => m,
            _ => {
                return None;
            },
        };
        let own = Tile::Color(m);
        if tm1 == Tile::Empty && t1 == own && t2 == Tile::Empty {
            Some(signed(EBBE_SCORE, m, color))
        } else if tm1 == Tile::Empty && t1 == own && is_blocked(t2, m) {
            Some(signed(EBBW_SCORE, m, color))
        } else if is_blocked(tm1, m) && t1 == own && t2 == Tile::Empty {
            Some(signed(EBBW_SCORE, m, color))
        } else {
            None
        }
    }

} // verus!
