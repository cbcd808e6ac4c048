//! The positional evaluator: walks every line of the grid in four
//! directions, matches the motif catalogue at each stone, and combines
//! the pattern scores with the capture-count advantage into one signed
//! score for a board-and-players snapshot.

use vstd::prelude::*;
use crate::board::{Board, Input, Tile, spec_tile_at, tile_at_s, idx, lemma_idx_bound};
use crate::color::{Color, spec_inverse};
use crate::players::{Players, spec_get_player, spec_players_finished};
use crate::matching_cases::{
    check_5_and_more, get_cases_size_2, get_cases_size_3, get_cases_size_4, spec_cases_size_2_s,
    spec_cases_size_3_s, spec_cases_size_4_s, spec_check_5_and_more_s,
};

verus! {

/// One of the four scan orientations of the evaluator.
#[derive(PartialEq, Eq, Structural, Clone, Copy, Debug)]
pub enum Mode {
    Vertically,
    Horizontaly,
    Diagoneso,
    Diagonose,
}

/// The cursor of one directional board scan: the current cell, the
/// start of the current line, and how the start advances when the scan
/// runs off the line (`mode`: for each of the two wrap rules, which
/// start coordinate moves and by how much).
#[derive(Clone, Copy, Debug)]
pub struct Coordinates {
    /// Current column.
    pub x: usize,
    /// Current row.
    pub y: usize,
    /// Edge length of the grid being walked.
    pub size: usize,
    /// Start cell of the line currently walked.
    pub start: (usize, usize),
    /// The two wrap rules: `(which coordinate of `start` moves, step)`.
    pub mode: ((usize, i32), (usize, i32)),
}

/// `v + d` held inside `[0, size]`.
pub open spec fn spec_bump_clamp(v: int, d: int, size: int) -> int {
    if v + d < 0 {
        0
    } else if v + d > size {
        size
    } else {
        v + d
    }
}

/// `v + d` when that still lies below `size`, otherwise `v` unchanged.
pub open spec fn spec_bump_keep(v: int, d: int, size: int) -> int {
    if v + d < size {
        v + d
    } else {
        v
    }
}

/// The cursor after moving `nb` steps along `(dx, dy)`: inside the
/// line it just steps; off the line it advances the line start by the
/// wrap rules and restarts there.
pub open spec fn spec_drift(c: Coordinates, dx: int, dy: int, nb: int) -> Coordinates {
    let size = c.size as int;
    let vx = c.x + dx * nb;
    let vy = c.y + dy * nb;
    let outx = !(0 <= vx < size);
    let outy = !(0 <= vy < size);
    if outx && outy {
        let s0 = if c.mode.0.0 == 0 {
            spec_bump_keep(c.start.0 as int, c.mode.0.1 as int, size)
        } else {
            c.start.0 as int
        };
        let s1 = if c.mode.0.0 == 0 {
            c.start.1 as int
        } else {
            spec_bump_keep(c.start.1 as int, c.mode.0.1 as int, size)
        };
        let t0 = if c.mode.1.0 == 0 {
            spec_bump_clamp(s0, c.mode.1.1 as int, size)
        } else {
            s0
        };
        let t1 = if c.mode.1.0 == 0 {
            s1
        } else {
            spec_bump_clamp(s1, c.mode.1.1 as int, size)
        };
        Coordinates {
            x: t0 as usize,
            y: t1 as usize,
            start: (t0 as usize, t1 as usize),
            ..c
        }
    } else if outx {
        let s0 = if c.mode.0.0 == 0 {
            spec_bump_clamp(c.start.0 as int, c.mode.0.1 as int, size)
        } else {
            c.start.0 as int
        };
        let s1 = if c.mode.0.0 == 0 {
            c.start.1 as int
        } else {
            spec_bump_clamp(c.start.1 as int, c.mode.0.1 as int, size)
        };
        Coordinates {
            x: s0 as usize,
            y: s1 as usize,
            start: (s0 as usize, s1 as usize),
            ..c
        }
    } else if outy {
        let s0 = if c.mode.1.0 == 0 {
            spec_bump_clamp(c.start.0 as int, c.mode.1.1 as int, size)
        } else {
            c.start.0 as int
        };
        let s1 = if c.mode.1.0 == 0 {
            c.start.1 as int
        } else {
            spec_bump_clamp(c.start.1 as int, c.mode.1.1 as int, size)
        };
        Coordinates {
            x: s0 as usize,
            y: s1 as usize,
            start: (s0 as usize, s1 as usize),
            ..c
        }
    } else {
        Coordinates { x: vx as usize, y: vy as usize, ..c }
    }
}

impl Coordinates {
    /// Every coordinate stays within the grid (the value `size` itself
    /// marks a finished scan), and the wrap rules carry the steps the
    /// four orientations use.
    pub open spec fn wf(self) -> bool {
        &&& 3 <= self.size <= 99
        &&& self.x <= self.size
        &&& self.y <= self.size
        &&& self.start.0 <= self.size
        &&& self.start.1 <= self.size
        &&& self.mode.0.0 <= 1
        &&& self.mode.1.0 <= 1
        &&& self.mode.0.1 == 1
        &&& (self.mode.1.1 == 1 || self.mode.1.1 == -1)
    }

    /// A scan cursor for one orientation, standing on `start`.
    pub fn new(size: usize, start: Input, mode: Mode) -> (r: Coordinates)
        requires
            3 <= size <= 99,
            start.0 < size,
            start.1 < size,
        ensures
            r.wf(),
            r.x == start.0,
            r.y == start.1,
            r.size == size,
            r.start == start,
            r.mode == spec_mode_rules(mode),
    {
        match mode {
            Mode::Horizontaly | Mode::Vertically => Coordinates {
                x: start.0,
                y: start.1,
                size,
                start,
                mode: ((1, 1), (0, 1)),
            },
            Mode::Diagoneso => Coordinates {
                x: start.0,
                y: start.1,
                size,
                start,
                mode: ((0, 1), (1, 1)),
            },
            _ => Coordinates { x: start.0, y: start.1, size, start, mode: ((0, 1), (1, -1)) },
        }
    }

    /// The flat index of the current cell.
    pub fn to_index(&self) -> (r: usize)
        requires
            self.wf(),
            self.x < self.size,
            self.y < self.size,
        ensures
            r == idx(self.x as int, self.y as int, self.size as int),
    {
        proof {
            lemma_idx_bound(self.x as int, self.y as int, self.size as int);
        }
        self.x + self.y * self.size
    }

    /// Moves `nb` steps along `(dx, dy)`, wrapping to the next line of
    /// the scan when the step leaves the grid.
    pub fn drift(&mut self, dx: i32, dy: i32, nb: i32)
        requires
            old(self).wf(),
            -1 <= dx <= 1,
            -1 <= dy <= 1,
            1 <= nb <= 5,
        ensures
            *final(self) == spec_drift(*old(self), dx as int, dy as int, nb as int),
            final(self).wf(),
    {
        proof {
            assert(-5 <= (dx as int) * (nb as int) <= 5 && -5 <= (dy as int) * (nb as int) <= 5)
                by (nonlinear_arith)
                requires
                    -1 <= dx <= 1,
                    -1 <= dy <= 1,
                    1 <= nb <= 5,
            ;
        }
        let size = self.size;
        let vx: i64 = self.x as i64 + (dx as i64) * (nb as i64);
        let vy: i64 = self.y as i64 + (dy as i64) * (nb as i64);
        let outx = !(0 <= vx && vx < size as i64);
        let outy = !(0 <= vy && vy < size as i64);
        if outx && outy {
            if self.mode.0.0 == 0 {
                if self.start.0 + 1 < size {
                    self.start.0 = self.start.0 + 1;
                }
            } else {
                if self.start.1 + 1 < size {
                    self.start.1 = self.start.1 + 1;
                }
            }
            if self.mode.1.0 == 0 {
                self.start.0 = bump_clamp(self.start.0, self.mode.1.1, size);
            } else {
                self.start.1 = bump_clamp(self.start.1, self.mode.1.1, size);
            }
            self.x = self.start.0;
            self.y = self.start.1;
        } else if outx {
            if self.mode.0.0 == 0 {
                self.start.0 = bump_clamp(self.start.0, 1, size);
            } else {
                self.start.1 = bump_clamp(self.start.1, 1, size);
            }
            self.x = self.start.0;
            self.y = self.start.1;
        } else if outy {
            if self.mode.1.0 == 0 {
                self.start.0 = bump_clamp(self.start.0, self.mode.1.1, size);
            } else {
                self.start.1 = bump_clamp(self.start.1, self.mode.1.1, size);
            }
            self.x = self.start.0;
            self.y = self.start.1;
        } else {
            self.x = vx as usize;
            self.y = vy as usize;
        }
    }
}

/// `v + d` held inside `[0, size]`.
fn bump_clamp(v: usize, d: i32, size: usize) -> (r: usize)
    requires
        v <= size,
        size <= 99,
        -1 <= d <= 1,
    ensures
        r as int == spec_bump_clamp(v as int, d as int, size as int),
        r <= size,
{
    let w: i64 = v as i64 + d as i64;
    if w < 0 {
        0
    } else if w > size as i64 {
        size
    } else {
        w as usize
    }
}

/// The wrap rules each orientation scans with.
pub open spec fn spec_mode_rules(mode: Mode) -> ((usize, i32), (usize, i32)) {
    match mode {
        Mode::Horizontaly | Mode::Vertically => ((1usize, 1i32), (0usize, 1i32)),
        Mode::Diagoneso => ((0usize, 1i32), (1usize, 1i32)),
        Mode::Diagonose => ((0usize, 1i32), (1usize, -1i32)),
    }
}

/// The step of each orientation.
pub open spec fn spec_mode_step(mode: Mode) -> (int, int) {
    match mode {
        Mode::Vertically => (0, 1),
        Mode::Horizontaly => (1, 0),
        Mode::Diagoneso => (-1, 1),
        Mode::Diagonose => (1, 1),
    }
}

/// The start cell of each orientation on a grid of edge `size`.
pub open spec fn spec_mode_start(mode: Mode, size: int) -> (int, int) {
    match mode {
        Mode::Diagonose => (0, size - 1),
        _ => (0, 0),
    }
}

/// The cells a scan may still consume, never negative.
pub open spec fn spec_budget(total: int, i: int) -> int {
    if total - i > 0 {
        total - i
    } else {
        0
    }
}

/// The motif score and consumed width at one stone: the largest tier
/// that matches wins, and an unmatched stone scores nothing and
/// consumes one cell.
pub open spec fn spec_get_cases_s(
    s: Seq<Tile>,
    size: int,
    x: int,
    y: int,
    dx: int,
    dy: int,
    persp: Color,
) -> (int, int) {
    match spec_check_5_and_more_s(s, size, x, y, dx, dy, persp) {
        Some(r) => r,
        None => match spec_cases_size_4_s(s, size, x, y, dx, dy, persp) {
            Some(sc) => (sc, 4),
            None => match spec_cases_size_3_s(s, size, x, y, dx, dy, persp) {
                Some(sc) => (sc, 3),
                None => match spec_cases_size_2_s(s, size, x, y, dx, dy, persp) {
                    Some(sc) => (sc, 2),
                    None => (0, 1),
                },
            },
        },
    }
}

/// The motif score and consumed width at one stone of a whole board.
pub open spec fn spec_get_cases(b: Board, x: int, y: int, dx: int, dy: int, persp: Color) -> (
    int,
    int,
) {
    spec_get_cases_s(b.board@, b.size as int, x, y, dx, dy, persp)
}

/// The consumed width, never below one so every scan step advances.
pub open spec fn spec_get_cases_skip_s(
    s: Seq<Tile>,
    size: int,
    x: int,
    y: int,
    dx: int,
    dy: int,
    persp: Color,
) -> int {
    let sk = spec_get_cases_s(s, size, x, y, dx, dy, persp).1;
    if sk < 1 {
        1
    } else {
        sk
    }
}

/// The consumed width at one stone of a whole board, never below one.
pub open spec fn spec_get_cases_skip(b: Board, x: int, y: int, dx: int, dy: int, persp: Color) -> int {
    spec_get_cases_skip_s(b.board@, b.size as int, x, y, dx, dy, persp)
}

/// The summed motif score of the rest of one directional scan, with
/// `i` cells of the budget already consumed: empty cells advance by
/// one, matched stones add their score and advance by the match
/// width, and the scan ends when the budget is used up or the cursor
/// has left the grid.
pub open spec fn spec_scan_s(
    s: Seq<Tile>,
    size: int,
    c: Coordinates,
    i: int,
    dx: int,
    dy: int,
    persp: Color,
) -> int
    decreases spec_budget(size * size, i),
{
    let total = size * size;
    if i >= total {
        0
    } else if !(c.x < size && c.y < size) {
        0
    } else if tile_at_s(s, size, c.x as int, c.y as int) == Tile::Empty {
        spec_scan_s(s, size, spec_drift(c, dx, dy, 1), i + 1, dx, dy, persp)
    } else {
        let sc = spec_get_cases_s(s, size, c.x as int, c.y as int, dx, dy, persp).0;
        let sk = spec_get_cases_skip_s(s, size, c.x as int, c.y as int, dx, dy, persp);
        sc + spec_scan_s(s, size, spec_drift(c, dx, dy, sk), i + sk, dx, dy, persp)
    }
}

/// The summed motif score of the rest of one directional scan over a
/// whole board.
pub open spec fn spec_scan(b: Board, c: Coordinates, i: int, dx: int, dy: int, persp: Color) -> int {
    spec_scan_s(b.board@, b.size as int, c, i, dx, dy, persp)
}

/// The whole directional scan of one orientation over `b`.
pub open spec fn spec_iter_on_board_s(s: Seq<Tile>, size: int, mode: Mode, persp: Color) -> int {
    let start = spec_mode_start(mode, size);
    let c = Coordinates {
        x: start.0 as usize,
        y: start.1 as usize,
        size: size as usize,
        start: (start.0 as usize, start.1 as usize),
        mode: spec_mode_rules(mode),
    };
    let step = spec_mode_step(mode);
    spec_scan_s(s, size, c, 0, step.0, step.1, persp)
}

/// The whole directional scan of one orientation over a whole board.
pub open spec fn spec_iter_on_board(b: Board, mode: Mode, persp: Color) -> int {
    spec_iter_on_board_s(b.board@, b.size as int, mode, persp)
}

/// Every motif score fits far inside the terminal sentinels.
#[verifier::rlimit(100)]
pub proof fn lemma_get_cases_bounds(s: Seq<Tile>, size: int, x: int, y: int, dx: int, dy: int, persp: Color)
    ensures
        -1073741823 <= spec_get_cases_s(s, size, x, y, dx, dy, persp).0 <= 1073741823,
        1 <= spec_get_cases_skip_s(s, size, x, y, dx, dy, persp) <= 5,
{
    match spec_check_5_and_more_s(s, size, x, y, dx, dy, persp) {
        Some(p) => {
            assert(-1073741823 <= p.0 <= 1073741823 && 4 <= p.1 <= 5);
        },
        None => {
            match spec_cases_size_4_s(s, size, x, y, dx, dy, persp) {
                Some(sc) => {
                    assert(-1073741823 <= sc <= 1073741823);
                },
                None => {
                    match spec_cases_size_3_s(s, size, x, y, dx, dy, persp) {
                        Some(sc) => {
                            assert(-1073741823 <= sc <= 1073741823);
                        },
                        None => {
                            match spec_cases_size_2_s(s, size, x, y, dx, dy, persp) {
                                Some(sc) => {
                                    assert(-1073741823 <= sc <= 1073741823);
                                },
                                None => {},
                            }
                        },
                    }
                },
            }
        },
    }
}

/// The motif score and consumed width at the stone under `pos`.
fn get_cases(board: &Board, pos: Input, dx: i32, dy: i32, color: Color) -> (r: (i32, usize))
    requires
        board.wf(),
        pos.0 < board.size,
        pos.1 < board.size,
        -1 <= dx <= 1,
        -1 <= dy <= 1,
    ensures
        r.0 as int == spec_get_cases(*board, pos.0 as int, pos.1 as int, dx as int, dy as int, color).0,
        r.1 as int == spec_get_cases_skip(*board, pos.0 as int, pos.1 as int, dx as int, dy as int, color),
        1 <= r.1 <= 5,
        -1073741823 <= r.0 <= 1073741823,
{
    proof {
        lemma_get_cases_bounds(
            board.board@,
            board.size as int,
            pos.0 as int,
            pos.1 as int,
            dx as int,
            dy as int,
            color,
        );
    }
    match check_5_and_more(board, pos, dx, dy, color) {
        Some(ret) => {
            return ret;
        },
        None => {},
    }
    match get_cases_size_4(board, pos, dx, dy, color) {
        Some(score) => {
            return (score, 4);
        },
        None => {},
    }
    match get_cases_size_3(board, pos, dx, dy, color) {
        Some(score) => {
            return (score, 3);
        },
        None => {},
    }
    match get_cases_size_2(board, pos, dx, dy, color) {
        Some(score) => {
            return (score, 2);
        },
        None => {},
    }
    (0, 1)
}

/// Walks the whole grid in the given orientation and sums the motif
/// scores of every stone it passes, advancing past each match so no
/// overlapping pattern is counted twice.
pub fn iter_on_board(raw_board: &Board, mode: Mode, color: Color) -> (r: i64)
    requires
        raw_board.wf(),
    ensures
        r == spec_iter_on_board(*raw_board, mode, color),
        -9806 * 1073741823 <= r <= 9806 * 1073741823,
{
    let size = raw_board.get_size();
    let (dx, dy, start): (i32, i32, Input) = match mode {
        Mode::Vertically => (0, 1, (0, 0)),
        Mode::Horizontaly => (1, 0, (0, 0)),
        Mode::Diagoneso => (-1, 1, (0, 0)),
        Mode::Diagonose => (1, 1, (0, size - 1)),
    };
    let mut coordinates = Coordinates::new(size, start, mode);
    let ghost c0 = coordinates;
    let ghost goal = spec_scan(*raw_board, c0, 0, dx as int, dy as int, color);
    let total = raw_board.get_total_tiles();
    let mut note: i64 = 0;
    let mut i: usize = 0;
    let mut stopped = false;
    proof {
        assert(spec_iter_on_board(*raw_board, mode, color) == goal);
        assert(total <= 9801) by (nonlinear_arith)
            requires
                total == raw_board.size * raw_board.size,
                raw_board.size <= 99,
        ;
    }
    while i < total && !stopped
        invariant
            raw_board.wf(),
            size == raw_board.size,
            total == raw_board.size * raw_board.size,
            total <= 9801,
            -1 <= dx <= 1,
            -1 <= dy <= 1,
            coordinates.wf(),
            coordinates.size == size,
            i <= total + 4,
            goal == spec_scan(*raw_board, c0, 0, dx as int, dy as int, color),
            note + spec_scan(*raw_board, coordinates, i as int, dx as int, dy as int, color)
                == goal,
            stopped ==> !(coordinates.x < size && coordinates.y < size),
            -(i as int) * 1073741823 <= note <= (i as int) * 1073741823,
        decreases total + 5 - i + (if stopped { 0int } else { 1int }),
    {
        if coordinates.x >= size || coordinates.y >= size {
            stopped = true;
        } else {
            let ghost c_before = coordinates;
            let ghost i_before = i as int;
            let t = raw_board.get((coordinates.x, coordinates.y));
            if t == Tile::Empty {
                coordinates.drift(dx, dy, 1);
                i = i + 1;
                proof {
                    assert(spec_scan(*raw_board, c_before, i_before, dx as int, dy as int, color)
                        == spec_scan(*raw_board, coordinates, i_before + 1, dx as int, dy as int, color));
                }
            } else {
                let (curr_note, skip) = get_cases(
                    raw_board,
                    (coordinates.x, coordinates.y),
                    dx,
                    dy,
                    color,
                );
                note = note + curr_note as i64;
                coordinates.drift(dx, dy, skip as i32);
                i = i + skip;
                proof {
                    assert(spec_scan(*raw_board, c_before, i_before, dx as int, dy as int, color)
                        == curr_note + spec_scan(
                        *raw_board,
                        coordinates,
                        i_before + skip,
                        dx as int,
                        dy as int,
                        color,
                    ));
                }
            }
        }
    }
    proof {
        assert(spec_scan(*raw_board, coordinates, i as int, dx as int, dy as int, color) == 0);
    }
    note
}

/// Whether one of the eight neighbouring cells of `(x, y)`, at
/// Chebyshev distance exactly `d`, holds a stone of either colour.
pub open spec fn spec_near_stone(b: Board, x: int, y: int, d: int) -> bool {
    exists|ox: int, oy: int|
        -d <= ox <= d && -d <= oy <= d && (ox == -d || ox == d || oy == -d || oy == d) && (
        #[trigger] spec_tile_at(b, x + ox, y + oy)) matches Tile::Color(_)
}

/// The proximity pruning of the search: a cell is worth exploring
/// only when a stone already stands next to it.
pub fn pruning_heuristic(input: Input, board: &Board) -> (r: bool)
    requires
        board.wf(),
        input.0 < board.size,
        input.1 < board.size,
    ensures
        r == spec_near_stone(*board, input.0 as int, input.1 as int, 1),
{
    let ghost x = input.0 as int;
    let ghost y = input.1 as int;
    let negx: i32 = -1;
    let t1 = board.probe(input.0, input.1, negx, negx, 1);
    let t2 = board.probe(input.0, input.1, 0, negx, 1);
    let t3 = board.probe(input.0, input.1, 1, negx, 1);
    let t4 = board.probe(input.0, input.1, negx, 0, 1);
    let t5 = board.probe(input.0, input.1, 1, 0, 1);
    let t6 = board.probe(input.0, input.1, negx, 1, 1);
    let t7 = board.probe(input.0, input.1, 0, 1, 1);
    let t8 = board.probe(input.0, input.1, 1, 1, 1);
    proof {
        assert(t1 == spec_tile_at(*board, x + (-1), y + (-1)));
        assert(t2 == spec_tile_at(*board, x + 0, y + (-1)));
        assert(t3 == spec_tile_at(*board, x + 1, y + (-1)));
        assert(t4 == spec_tile_at(*board, x + (-1), y + 0));
        assert(t5 == spec_tile_at(*board, x + 1, y + 0));
        assert(t6 == spec_tile_at(*board, x + (-1), y + 1));
        assert(t7 == spec_tile_at(*board, x + 0, y + 1));
        assert(t8 == spec_tile_at(*board, x + 1, y + 1));
    }
    let r = is_stone(t1) || is_stone(t2) || is_stone(t3) || is_stone(t4) || is_stone(t5)
        || is_stone(t6) || is_stone(t7) || is_stone(t8);
    proof {
        if !r {
            assert forall|ox: int, oy: int|
                !(-1 <= ox <= 1 && -1 <= oy <= 1 && (ox == -1 || ox == 1 || oy == -1 || oy == 1)
                    && (#[trigger] spec_tile_at(*board, x + ox, y + oy)) matches Tile::Color(_)) by {
                if -1 <= ox <= 1 && -1 <= oy <= 1 && (ox == -1 || ox == 1 || oy == -1 || oy == 1) {
                    assert(ox == -1 || ox == 0 || ox == 1);
                    assert(oy == -1 || oy == 0 || oy == 1);
                }
            }
        }
    }
    r
}

/// Whether a cell holds a stone of either colour.
fn is_stone(t: Tile) -> (r: bool)
    ensures
        r == (t matches Tile::Color(_)),
{
    match t {
        Tile::Color(_) => true,
        _ => false,
    }
}

/// The capture-count weighting: the square of the captured count,
/// scaled into half the representable range and normalised by the
/// square of the capture goal, so captures close to the goal dominate
/// superlinearly.
pub open spec fn spec_capture_weight(capt: int, goal: int) -> int {
    (capt * capt * 2147483647) / (2 * goal * goal)
}

/// The capture-count weighting of one player.
fn capture_weight(capt: usize, goal: usize) -> (r: u64)
    requires
        capt < goal,
        goal <= 999,
    ensures
        r as int == spec_capture_weight(capt as int, goal as int),
        r <= 1073741823,
{
    proof {
        assert((capt as int) * (capt as int) < 998001 && 1 <= (goal as int) * (goal as int)
            <= 998001) by (nonlinear_arith)
            requires
                capt < goal,
                goal <= 999,
        ;
    }
    let c2: u64 = (capt as u64) * (capt as u64);
    let g2: u64 = (goal as u64) * (goal as u64);
    proof {
        assert(c2 * 2147483647 <= 998001 * 2147483647) by (nonlinear_arith)
            requires
                c2 <= 998001,
        ;
        assert(2 * (g2 as int) == 2 * (goal as int) * (goal as int)) by (nonlinear_arith)
            requires
                g2 == goal * goal,
        ;
        assert(c2 < g2 && c2 * 2147483647 / (2 * g2) <= 1073741823) by (nonlinear_arith)
            requires
                c2 == capt * capt,
                g2 == goal * goal,
                capt < goal,
                goal <= 999,
        ;
    }
    (c2 * 2147483647) / (2 * g2)
}

/// The largest representable score: the verdict for a won position.
pub const SCORE_WIN: i32 = i32::MAX;

/// The smallest representable score: the verdict for a lost position.
pub const SCORE_LOSS: i32 = i32::MIN;

/// The evaluator's verdict on a snapshot, seen from `persp`: a won
/// game scores the maximum, a lost one the minimum, a draw zero, and
/// an open position combines the capture-count advantage with the
/// four directional motif scans, clamped strictly inside the terminal
/// sentinels so that a terminal verdict always dominates.
pub open spec fn spec_heuristic_s(
    s: Seq<Tile>,
    size: int,
    align: int,
    range: int,
    p: Players,
    persp: Color,
) -> int {
    let pf = spec_players_finished(p);
    if pf.0 {
        if pf.1 == Some(persp) {
            SCORE_WIN as int
        } else {
            SCORE_LOSS as int
        }
    } else {
        let bf = crate::board::spec_is_finished_s(s, size, align, range, p.current_player.color);
        if bf.0 && bf.1 is Some {
            if bf.1 == Some(persp) {
                SCORE_WIN as int
            } else {
                SCORE_LOSS as int
            }
        } else if bf.0 {
            0
        } else {
            let w1 = spec_capture_weight(
                spec_get_player(p, persp).captured as int,
                p.captured_nb as int,
            );
            let w2 = spec_capture_weight(
                spec_get_player(p, spec_inverse(persp)).captured as int,
                p.captured_nb as int,
            );
            let sum = w1 - w2 + spec_iter_on_board_s(s, size, Mode::Horizontaly, persp)
                + spec_iter_on_board_s(s, size, Mode::Vertically, persp) + spec_iter_on_board_s(
                s,
                size,
                Mode::Diagoneso,
                persp,
            ) + spec_iter_on_board_s(s, size, Mode::Diagonose, persp);
            if sum > (SCORE_WIN - 1) as int {
                (SCORE_WIN - 1) as int
            } else if sum < (SCORE_LOSS + 1) as int {
                (SCORE_LOSS + 1) as int
            } else {
                sum
            }
        }
    }
}

/// The evaluator's verdict on a whole board-and-players snapshot.
#[verifier::opaque]
pub open spec fn spec_heuristic(b: Board, p: Players, persp: Color) -> int {
    spec_heuristic_s(
        b.board@,
        b.size as int,
        b.alignement_nb as int,
        b.capture_range as int,
        p,
        persp,
    )
}

/// Scores a snapshot for the side `default_color`.
pub fn heuristic(board: &Board, players: &Players, default_color: Color) -> (r: i32)
    requires
        board.wf(),
        players.wf(),
    ensures
        r as int == spec_heuristic(*board, *players, default_color),
{
    proof {
        reveal(spec_heuristic);
        reveal(crate::board::spec_is_finished);
    }
    match players.is_finished() {
        (true, Some(color)) => {
            if color == default_color {
                return SCORE_WIN;
            }
            return SCORE_LOSS;
        },
        _ => {},
    }
    match board.is_finished(players.get_current_player()) {
        (true, Some(color)) => {
            if color == default_color {
                return SCORE_WIN;
            }
            return SCORE_LOSS;
        },
        (true, None) => {
            return 0;
        },
        _ => {},
    }
    let goal = players.get_captured_nb();
    let own = players.get_player(default_color).get_player_captured();
    let other = players.get_player(default_color.get_inverse_color()).get_player_captured();
    let w1 = capture_weight(own, goal);
    let w2 = capture_weight(other, goal);
    let s1 = iter_on_board(board, Mode::Horizontaly, default_color);
    let s2 = iter_on_board(board, Mode::Vertically, default_color);
    let s3 = iter_on_board(board, Mode::Diagoneso, default_color);
    let s4 = iter_on_board(board, Mode::Diagonose, default_color);
    let sum: i64 = w1 as i64 - w2 as i64 + s1 + s2 + s3 + s4;
    if sum > (SCORE_WIN - 1) as i64 {
        SCORE_WIN - 1
    } else if sum < (SCORE_LOSS + 1) as i64 {
        SCORE_LOSS + 1
    } else {
        sum as i32
    }
}

} // verus!
