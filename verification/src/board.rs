//! The grid of cells: placement legality, capture execution and win
//! detection with capture-based invalidation of alignments.

use vstd::prelude::*;
use crate::color::{Color, spec_inverse};
use crate::config::valid_game_params;
use crate::error::PlacementError;
use crate::players::{Player, Players, spec_get_player};

verus! {

/// A grid coordinate: column first, then row.
pub type Input = (usize, usize);

/// Content of one cell.  `OutOfBounds` never sits in the grid itself:
/// it is the sentinel a directional probe yields beyond the edge.
#[derive(PartialEq, Eq, Structural, Clone, Copy, Debug, Hash)]
pub enum Tile {
    Color(Color),
    Empty,
    OutOfBounds,
}

/// The square grid and the rule parameters its checks depend on.
pub struct Board {
    /// The cells in row-major order, `size * size` of them.
    pub board: Vec<Tile>,
    /// Edge length of the grid.
    pub size: usize,
    /// Number of aligned stones needed to win.
    pub alignement_nb: usize,
    /// Number of flanked stones removed by one capture; zero disables
    /// captures.
    pub capture_range: usize,
}

/// The flat index of column `x`, row `y` on a grid of edge `size`.
pub open spec fn idx(x: int, y: int, size: int) -> int {
    x + y * size
}

/// The flat index lies inside the grid whenever the coordinates do,
/// and on an accepted grid everything stays comfortably small.
pub proof fn lemma_idx_bound(x: int, y: int, size: int)
    requires
        0 <= x < size,
        0 <= y < size,
    ensures
        0 <= y * size <= idx(x, y, size) < size * size,
        size <= 99 ==> size * size <= 9801,
{
    assert(0 <= y * size && x + y * size < size * size && (size <= 99 ==> size * size <= 9801))
        by (nonlinear_arith)
        requires
            0 <= x < size,
            0 <= y < size,
    ;
}

/// Distinct in-bounds coordinates have distinct flat indices.
pub proof fn lemma_idx_injective(x1: int, y1: int, x2: int, y2: int, size: int)
    requires
        0 <= x1 < size,
        0 <= y1 < size,
        0 <= x2 < size,
        0 <= y2 < size,
        idx(x1, y1, size) == idx(x2, y2, size),
    ensures
        x1 == x2 && y1 == y2,
{
    assert(x1 == x2 && y1 == y2) by (nonlinear_arith)
        requires
            0 <= x1 < size,
            0 <= y1 < size,
            0 <= x2 < size,
            0 <= y2 < size,
            x1 + y1 * size == x2 + y2 * size,
    ;
}

/// The cell of `s` at column `x`, row `y` on a grid of edge `size`,
/// or the `OutOfBounds` sentinel when either coordinate leaves
/// `[0, size)`.  Every directional scan of the engine reads cells
/// through this function, so no scan ever wraps around an edge.
pub open spec fn tile_at_s(s: Seq<Tile>, size: int, x: int, y: int) -> Tile {
    if 0 <= x < size && 0 <= y < size {
        s[idx(x, y, size)]
    } else {
        Tile::OutOfBounds
    }
}

/// The cell of `b` at column `x`, row `y`, or `OutOfBounds` beyond the
/// edge.
pub open spec fn spec_tile_at(b: Board, x: int, y: int) -> Tile {
    tile_at_s(b.board@, b.size as int, x, y)
}

impl Board {
    /// The cell sequence has exactly `size * size` cells, none of them
    /// the sentinel, and the rule parameters are a validated set.
    pub open spec fn wf(self) -> bool {
        &&& self.board@.len() == self.size * self.size
        &&& valid_game_params(
            self.size as int,
            self.alignement_nb as int,
            self.capture_range as int,
        )
        &&& forall|i: int|
            0 <= i < self.board@.len() ==> #[trigger] self.board@[i] != Tile::OutOfBounds
    }

    /// A fresh board of empty cells with the given validated rule
    /// parameters.
    pub fn new(size: usize, alignement_nb: usize, capture_range: usize) -> (r: Board)
        requires
            valid_game_params(size as int, alignement_nb as int, capture_range as int),
        ensures
            r.wf(),
            r.size == size,
            r.alignement_nb == alignement_nb,
            r.capture_range == capture_range,
            r.board@.len() == size * size,
            forall|i: int| 0 <= i < r.board@.len() ==> #[trigger] r.board@[i] == Tile::Empty,
    {
        proof {
            assert(size * size <= 99 * 99) by (nonlinear_arith)
                requires
                    size <= 99,
            ;
        }
        let total: usize = size * size;
        let mut cells: Vec<Tile> = Vec::new();
        let mut i: usize = 0;
        while i < total
            invariant
                i <= total,
                cells@.len() == i,
                forall|j: int| 0 <= j < i ==> #[trigger] cells@[j] == Tile::Empty,
            decreases total - i,
        {
            cells.push(Tile::Empty);
            i = i + 1;
        }
        Board { board: cells, size, alignement_nb, capture_range }
    }

    /// Replaces every cell with an empty one, keeping the parameters.
    pub fn reset(&mut self)
        requires
            old(self).wf(),
        ensures
            final(self).wf(),
            final(self).size == old(self).size,
            final(self).alignement_nb == old(self).alignement_nb,
            final(self).capture_range == old(self).capture_range,
            final(self).board@.len() == old(self).board@.len(),
            forall|i: int|
                0 <= i < final(self).board@.len() ==> #[trigger] final(self).board@[i]
                    == Tile::Empty,
    {
        let fresh = Board::new(self.size, self.alignement_nb, self.capture_range);
        self.board = fresh.board;
    }

    /// The cells in row-major order.
    pub fn get_board(&self) -> (r: &Vec<Tile>)
        ensures
            r == &self.board,
    {
        &self.board
    }

    /// Edge length of the grid.
    pub fn get_size(&self) -> (r: usize)
        ensures
            r == self.size,
    {
        self.size
    }

    /// Number of cells of the grid.
    pub fn get_total_tiles(&self) -> (r: usize)
        requires
            self.wf(),
        ensures
            r == self.size * self.size,
            r == self.board@.len(),
    {
        self.board.len()
    }

    /// Number of aligned stones needed to win.
    pub fn get_alignement_nb(&self) -> (r: usize)
        ensures
            r == self.alignement_nb,
    {
        self.alignement_nb
    }

    /// Number of flanked stones removed by one capture.
    pub fn get_capture_range(&self) -> (r: usize)
        ensures
            r == self.capture_range,
    {
        self.capture_range
    }

    /// The flat index of an in-bounds coordinate.
    pub fn from_input(&self, input: Input) -> (r: usize)
        requires
            self.wf(),
            input.0 < self.size,
            input.1 < self.size,
        ensures
            r == idx(input.0 as int, input.1 as int, self.size as int),
            r < self.board@.len(),
    {
        proof {
            lemma_idx_bound(input.0 as int, input.1 as int, self.size as int);
        }
        input.0 + input.1 * self.size
    }

    /// The coordinate of an in-bounds flat index.
    pub fn get_input(&self, i: usize) -> (r: Input)
        requires
            self.wf(),
            i < self.board@.len(),
        ensures
            r.0 == i as int % self.size as int,
            r.1 == i as int / self.size as int,
            r.0 < self.size,
            r.1 < self.size,
            idx(r.0 as int, r.1 as int, self.size as int) == i,
    {
        proof {
            vstd::arithmetic::div_mod::lemma_fundamental_div_mod(i as int, self.size as int);
            let s = self.size as int;
            let ii = i as int;
            assert(s * (ii / s) == (ii / s) * s) by (nonlinear_arith);
            assert((ii / s) < s) by (nonlinear_arith)
                requires
                    s >= 1,
                    ii < s * s,
                    ii == s * (ii / s) + ii % s,
                    0 <= ii % s < s,
            ;
        }
        (i % self.size, i / self.size)
    }

    /// The cell at an in-bounds coordinate.
    pub fn get(&self, input: Input) -> (r: Tile)
        requires
            self.wf(),
            input.0 < self.size,
            input.1 < self.size,
        ensures
            r == spec_tile_at(*self, input.0 as int, input.1 as int),
    {
        let i = self.from_input(input);
        self.board[i]
    }

    /// The cell at a coordinate, or `None` when the coordinate leaves
    /// the grid on either axis.
    pub fn get_protected(&self, input: Input) -> (r: Option<&Tile>)
        requires
            self.wf(),
        ensures
            input.0 < self.size && input.1 < self.size ==> r == Some(
                &self.board@[idx(input.0 as int, input.1 as int, self.size as int)],
            ),
            !(input.0 < self.size && input.1 < self.size) ==> r is None,
    {
        if input.0 < self.size && input.1 < self.size {
            let i = self.from_input(input);
            Some(&self.board[i])
        } else {
            None
        }
    }

    /// A reference to the cell at an in-bounds coordinate.
    pub fn get_ref(&self, input: Input) -> (r: &Tile)
        requires
            self.wf(),
            input.0 < self.size,
            input.1 < self.size,
        ensures
            *r == spec_tile_at(*self, input.0 as int, input.1 as int),
    {
        let i = self.from_input(input);
        &self.board[i]
    }

    /// The cell at an in-bounds flat index.
    pub fn get_index(&self, i: usize) -> (r: Tile)
        requires
            self.wf(),
            i < self.board@.len(),
        ensures
            r == self.board@[i as int],
    {
        self.board[i]
    }

    /// Writes `tile` at an in-bounds coordinate, leaving every other
    /// cell unchanged.
    fn replace(&mut self, input: Input, tile: Tile)
        requires
            old(self).wf(),
            input.0 < old(self).size,
            input.1 < old(self).size,
            tile != Tile::OutOfBounds,
        ensures
            final(self).board@ == old(self).board@.update(
                idx(input.0 as int, input.1 as int, old(self).size as int),
                tile,
            ),
            final(self).size == old(self).size,
            final(self).alignement_nb == old(self).alignement_nb,
            final(self).capture_range == old(self).capture_range,
            final(self).wf(),
    {
        let i = self.from_input(input);
        self.board.set(i, tile);
    }

    /// The cell `k` steps from `(x, y)` along direction `(dx, dy)`,
    /// or the `OutOfBounds` sentinel the instant the stepped coordinate
    /// leaves the grid.
    pub fn probe(&self, x: usize, y: usize, dx: i32, dy: i32, k: i32) -> (t: Tile)
        requires
            self.wf(),
            x < self.size,
            y < self.size,
            -2 <= dx <= 2,
            -2 <= dy <= 2,
            -120 <= k <= 120,
        ensures
            t == spec_tile_at(*self, x + dx * k, y + dy * k),
    {
        proof {
            assert(-240 <= (dx as int) * (k as int) <= 240 && -240 <= (dy as int) * (k as int)
                <= 240) by (nonlinear_arith)
                requires
                    -2 <= dx <= 2,
                    -2 <= dy <= 2,
                    -120 <= k <= 120,
            ;
        }
        let nx: i64 = x as i64 + (dx as i64) * (k as i64);
        let ny: i64 = y as i64 + (dy as i64) * (k as i64);
        if 0 <= nx && nx < self.size as i64 && 0 <= ny && ny < self.size as i64 {
            proof {
                lemma_idx_bound(nx as int, ny as int, self.size as int);
            }
            let i: usize = (nx as usize) + (ny as usize) * self.size;
            self.board[i]
        } else {
            Tile::OutOfBounds
        }
    }
}

/// Any in-bounds flat index round-trips through coordinates: splitting
/// `i` into `(i % size, i / size)` and recombining yields `i` again.
pub proof fn lemma_coordinate_bijection(i: int, size: int)
    requires
        size >= 1,
        0 <= i < size * size,
    ensures
        idx(i % size, i / size, size) == i,
        0 <= i % size < size,
        0 <= i / size < size,
{
    vstd::arithmetic::div_mod::lemma_fundamental_div_mod(i, size);
    assert(size * (i / size) == (i / size) * size) by (nonlinear_arith);
    assert(i / size < size) by (nonlinear_arith)
        requires
            size >= 1,
            i < size * size,
            i == size * (i / size) + i % size,
            0 <= i % size < size,
    ;
}


/// A placement at `(x, y)` of colour `c` completes the open three
/// `. [x] C C .` along `(dx, dy)`: own stones one and two steps ahead,
/// an empty cell three steps ahead and one step behind.
pub open spec fn spec_case1(s: Seq<Tile>, size: int, x: int, y: int, c: Color, dx: int, dy: int) -> bool {
    &&& tile_at_s(s, size, x + dx, y + dy) == Tile::Color(c)
    &&& tile_at_s(s, size, x + 2 * dx, y + 2 * dy) == Tile::Color(c)
    &&& tile_at_s(s, size, x + 3 * dx, y + 3 * dy) == Tile::Empty
    &&& tile_at_s(s, size, x - dx, y - dy) == Tile::Empty
}

/// A placement at `(x, y)` of colour `c` completes the open three
/// `. C [x] C .` along `(dx, dy)`: own stones one step each way,
/// empty cells two steps each way.
pub open spec fn spec_case2(s: Seq<Tile>, size: int, x: int, y: int, c: Color, dx: int, dy: int) -> bool {
    &&& tile_at_s(s, size, x + dx, y + dy) == Tile::Color(c)
    &&& tile_at_s(s, size, x + 2 * dx, y + 2 * dy) == Tile::Empty
    &&& tile_at_s(s, size, x - dx, y - dy) == Tile::Color(c)
    &&& tile_at_s(s, size, x - 2 * dx, y - 2 * dy) == Tile::Empty
}

/// A placement at `(x, y)` of colour `c` builds the split free three
/// `. C [x] . C .` along `(dx, dy)`.
pub open spec fn spec_case4(s: Seq<Tile>, size: int, x: int, y: int, c: Color, dx: int, dy: int) -> bool {
    &&& tile_at_s(s, size, x + dx, y + dy) == Tile::Empty
    &&& tile_at_s(s, size, x + 2 * dx, y + 2 * dy) == Tile::Color(c)
    &&& tile_at_s(s, size, x + 3 * dx, y + 3 * dy) == Tile::Empty
    &&& tile_at_s(s, size, x - dx, y - dy) == Tile::Color(c)
    &&& tile_at_s(s, size, x - 2 * dx, y - 2 * dy) == Tile::Empty
}

/// A placement at `(x, y)` of colour `c` builds one of the five-cell
/// split free threes `. [x] . C C .` or `. [x] C . C .` along
/// `(dx, dy)`.
pub open spec fn spec_case_size_5(s: Seq<Tile>, size: int, x: int, y: int, c: Color, dx: int, dy: int) -> bool {
    &&& tile_at_s(s, size, x - dx, y - dy) == Tile::Empty
    &&& tile_at_s(s, size, x + 3 * dx, y + 3 * dy) == Tile::Color(c)
    &&& tile_at_s(s, size, x + 4 * dx, y + 4 * dy) == Tile::Empty
    &&& {
        ||| (tile_at_s(s, size, x + dx, y + dy) == Tile::Empty && tile_at_s(
            s,
            size,
            x + 2 * dx,
            y + 2 * dy,
        ) == Tile::Color(c))
        ||| (tile_at_s(s, size, x + dx, y + dy) == Tile::Color(c) && tile_at_s(
            s,
            size,
            x + 2 * dx,
            y + 2 * dy,
        ) == Tile::Empty)
    }
}

/// One when the motif holds, zero otherwise.
pub open spec fn n_case1(s: Seq<Tile>, size: int, x: int, y: int, c: Color, dx: int, dy: int) -> int {
    if spec_case1(s, size, x, y, c, dx, dy) {
        1
    } else {
        0
    }
}

/// One when the motif holds, zero otherwise.
pub open spec fn n_case2(s: Seq<Tile>, size: int, x: int, y: int, c: Color, dx: int, dy: int) -> int {
    if spec_case2(s, size, x, y, c, dx, dy) {
        1
    } else {
        0
    }
}

/// One when the motif holds, zero otherwise.
pub open spec fn n_case4(s: Seq<Tile>, size: int, x: int, y: int, c: Color, dx: int, dy: int) -> int {
    if spec_case4(s, size, x, y, c, dx, dy) {
        1
    } else {
        0
    }
}

/// One when the motif holds, zero otherwise.
pub open spec fn n_case_size_5(s: Seq<Tile>, size: int, x: int, y: int, c: Color, dx: int, dy: int) -> int {
    if spec_case_size_5(s, size, x, y, c, dx, dy) {
        1
    } else {
        0
    }
}

/// How many free threes a stone of colour `c` placed at `(x, y)` would
/// complete, counted over the whole motif catalogue: the anchored open
/// three over all eight directions, the centred open three over four
/// (it reads symmetrically), and the two split-three shapes over all
/// eight.
pub open spec fn spec_free_three_count(s: Seq<Tile>, size: int, x: int, y: int, c: Color) -> int {
    n_case1(
        s,
        size, x, y, c, -1, 0) + n_case1(
        s,
        size, x, y, c, 1, 0) + n_case1(
        s,
        size, x, y, c, -1, -1) + n_case1(
        s,
        size,
        x,
        y,
        c,
        -1,
        1,
    ) + n_case1(
        s,
        size, x, y, c, 1, -1) + n_case1(
        s,
        size, x, y, c, 1, 1) + n_case1(
        s,
        size, x, y, c, 0, -1)
        + n_case1(
        s,
        size, x, y, c, 0, 1) + n_case2(
        s,
        size, x, y, c, 1, 0) + n_case2(
        s,
        size, x, y, c, 1, -1)
        + n_case2(
        s,
        size, x, y, c, 1, 1) + n_case2(
        s,
        size, x, y, c, 0, 1) + n_case_size_5(
        s,
        size, x, y, c, -1, 0)
        + n_case_size_5(
        s,
        size, x, y, c, 1, 0) + n_case_size_5(
        s,
        size, x, y, c, -1, -1) + n_case_size_5(
        s,
        size,
        x,
        y,
        c,
        -1,
        1,
    ) + n_case_size_5(
        s,
        size, x, y, c, 1, -1) + n_case_size_5(
        s,
        size, x, y, c, 1, 1) + n_case_size_5(
        s,
        size,
        x,
        y,
        c,
        0,
        -1,
    ) + n_case_size_5(
        s,
        size, x, y, c, 0, 1) + n_case4(
        s,
        size, x, y, c, -1, 0) + n_case4(
        s,
        size, x, y, c, 1, 0)
        + n_case4(
        s,
        size, x, y, c, -1, -1) + n_case4(
        s,
        size, x, y, c, -1, 1) + n_case4(
        s,
        size, x, y, c, 1, -1)
        + n_case4(
        s,
        size, x, y, c, 1, 1) + n_case4(
        s,
        size, x, y, c, 0, -1) + n_case4(
        s,
        size, x, y, c, 0, 1)
}

/// Whether placing a stone of colour `c` at `(x, y)` would complete two
/// or more free threes at once, which the rules forbid.
#[verifier::opaque]
pub open spec fn spec_double_free_three(b: Board, x: int, y: int, c: Color) -> bool {
    spec_free_three_count(b.board@, b.size as int, x, y, c) >= 2
}

/// Whether a placement at `(x, y)` by the side to move in `p` is legal
/// on `b`, and the error refusing it when it is not: out of bounds
/// first, then occupancy, then the double-free-three restriction.
pub open spec fn spec_check_add_value(b: Board, x: int, y: int, p: Players) -> Result<
    (),
    PlacementError,
> {
    if !(0 <= x < b.size && 0 <= y < b.size) {
        Err(PlacementError::OutOfBounds)
    } else if spec_tile_at(b, x, y) != Tile::Empty {
        Err(PlacementError::NotEmpty)
    } else if spec_double_free_three(b, x, y, p.current_player.color) {
        Err(PlacementError::DoubleFreeThree)
    } else {
        Ok(())
    }
}

impl Board {
    #[verifier::rlimit(40)]
    /// Counts the anchored open three `. [x] C C .` along one
    /// direction.
    fn case1(&self, input: Input, color: Color, dx: i32, dy: i32) -> (r: u8)
        requires
            self.wf(),
            input.0 < self.size,
            input.1 < self.size,
            -1 <= dx <= 1,
            -1 <= dy <= 1,
        ensures
            r == n_case1(self.board@, self.size as int, input.0 as int, input.1 as int, color, dx as int, dy as int),
    {
        let t1 = self.probe(input.0, input.1, dx, dy, 1);
        let t2 = self.probe(input.0, input.1, dx, dy, 2);
        let t3 = self.probe(input.0, input.1, dx, dy, 3);
        let tm1 = self.probe(input.0, input.1, dx, dy, -1);
        if t1 == Tile::Color(color) && t2 == Tile::Color(color) && t3 == Tile::Empty && tm1
            == Tile::Empty {
            1
        } else {
            0
        }
    }

    #[verifier::rlimit(40)]
    /// Counts the centred open three `. C [x] C .` along one direction.
    fn case2(&self, input: Input, color: Color, dx: i32, dy: i32) -> (r: u8)
        requires
            self.wf(),
            input.0 < self.size,
            input.1 < self.size,
            -1 <= dx <= 1,
            -1 <= dy <= 1,
        ensures
            r == n_case2(self.board@, self.size as int, input.0 as int, input.1 as int, color, dx as int, dy as int),
    {
        let t1 = self.probe(input.0, input.1, dx, dy, 1);
        let t2 = self.probe(input.0, input.1, dx, dy, 2);
        let tm1 = self.probe(input.0, input.1, dx, dy, -1);
        let tm2 = self.probe(input.0, input.1, dx, dy, -2);
        proof {
            let x = input.0 as int;
            let y = input.1 as int;
            let dxi = dx as int;
            let dyi = dy as int;
            assert(t1 == spec_tile_at(*self, x + dxi, y + dyi));
            assert(t2 == spec_tile_at(*self, x + 2 * dxi, y + 2 * dyi));
            assert(tm1 == spec_tile_at(*self, x - dxi, y - dyi));
            assert(tm2 == spec_tile_at(*self, x - 2 * dxi, y - 2 * dyi));
        }
        if t1 == Tile::Color(color) && t2 == Tile::Empty && tm1 == Tile::Color(color) && tm2
            == Tile::Empty {
            1
        } else {
            0
        }
    }

    #[verifier::rlimit(40)]
    /// Counts the split free three `. C [x] . C .` along one direction.
    fn case4(&self, input: Input, color: Color, dx: i32, dy: i32) -> (r: u8)
        requires
            self.wf(),
            input.0 < self.size,
            input.1 < self.size,
            -1 <= dx <= 1,
            -1 <= dy <= 1,
        ensures
            r == n_case4(self.board@, self.size as int, input.0 as int, input.1 as int, color, dx as int, dy as int),
    {
        let t1 = self.probe(input.0, input.1, dx, dy, 1);
        let t2 = self.probe(input.0, input.1, dx, dy, 2);
        let t3 = self.probe(input.0, input.1, dx, dy, 3);
        let tm1 = self.probe(input.0, input.1, dx, dy, -1);
        let tm2 = self.probe(input.0, input.1, dx, dy, -2);
        if t1 == Tile::Empty && t2 == Tile::Color(color) && t3 == Tile::Empty && tm1 == Tile::Color(
            color,
        ) && tm2 == Tile::Empty {
            1
        } else {
            0
        }
    }

    #[verifier::rlimit(40)]
    /// Counts the five-cell split free threes `. [x] . C C .` and
    /// `. [x] C . C .` along one direction.
    fn case_size_5(&self, input: Input, color: Color, dx: i32, dy: i32) -> (r: u8)
        requires
            self.wf(),
            input.0 < self.size,
            input.1 < self.size,
            -1 <= dx <= 1,
            -1 <= dy <= 1,
        ensures
            r == n_case_size_5(self.board@, self.size as int, input.0 as int, input.1 as int, color, dx as int, dy as int),
    {
        let t1 = self.probe(input.0, input.1, dx, dy, 1);
        let t2 = self.probe(input.0, input.1, dx, dy, 2);
        let t3 = self.probe(input.0, input.1, dx, dy, 3);
        let t4 = self.probe(input.0, input.1, dx, dy, 4);
        let tm1 = self.probe(input.0, input.1, dx, dy, -1);
        if tm1 == Tile::Empty && t3 == Tile::Color(color) && t4 == Tile::Empty && ((t1
            == Tile::Empty && t2 == Tile::Color(color)) || (t1 == Tile::Color(color) && t2
            == Tile::Empty)) {
            1
        } else {
            0
        }
    }

    /// Whether placing a stone of colour `color` at `input` would
    /// complete two or more free threes at once.
    pub fn check_double_free_three(&self, input: Input, color: Color) -> (r: bool)
        requires
            self.wf(),
            input.0 < self.size,
            input.1 < self.size,
        ensures
            r == spec_double_free_three(*self, input.0 as int, input.1 as int, color),
    {
        proof {
            reveal(spec_double_free_three);
        }
        let mut count: u8 = 0;
        count = count + self.case1(input, color, -1, 0);
        count = count + self.case1(input, color, 1, 0);
        count = count + self.case1(input, color, -1, -1);
        count = count + self.case1(input, color, -1, 1);
        count = count + self.case1(input, color, 1, -1);
        count = count + self.case1(input, color, 1, 1);
        count = count + self.case1(input, color, 0, -1);
        count = count + self.case1(input, color, 0, 1);
        count = count + self.case2(input, color, 1, 0);
        count = count + self.case2(input, color, 1, -1);
        count = count + self.case2(input, color, 1, 1);
        count = count + self.case2(input, color, 0, 1);
        count = count + self.case_size_5(input, color, -1, 0);
        count = count + self.case_size_5(input, color, 1, 0);
        count = count + self.case_size_5(input, color, -1, -1);
        count = count + self.case_size_5(input, color, -1, 1);
        count = count + self.case_size_5(input, color, 1, -1);
        count = count + self.case_size_5(input, color, 1, 1);
        count = count + self.case_size_5(input, color, 0, -1);
        count = count + self.case_size_5(input, color, 0, 1);
        count = count + self.case4(input, color, -1, 0);
        count = count + self.case4(input, color, 1, 0);
        count = count + self.case4(input, color, -1, -1);
        count = count + self.case4(input, color, -1, 1);
        count = count + self.case4(input, color, 1, -1);
        count = count + self.case4(input, color, 1, 1);
        count = count + self.case4(input, color, 0, -1);
        count = count + self.case4(input, color, 0, 1);
        count >= 2
    }

    /// Whether a placement at `input` by the side to move is legal:
    /// refuses coordinates beyond the grid, occupied cells, and stones
    /// that would complete two free threes at once.  Reads only; the
    /// same call on the same state always returns the same answer.
    pub fn check_add_value(&self, input: Input, players: &Players) -> (r: Result<
        (),
        PlacementError,
    >)
        requires
            self.wf(),
        ensures
            r == spec_check_add_value(*self, input.0 as int, input.1 as int, *players),
    {
        if input.0 > self.size - 1 || input.1 > self.size - 1 {
            return Err(PlacementError::OutOfBounds);
        }
        if self.get(input) != Tile::Empty {
            return Err(PlacementError::NotEmpty);
        }
        if self.check_double_free_three(input, players.get_current_player().get_player_color()) {
            return Err(PlacementError::DoubleFreeThree);
        }
        Ok(())
    }

    /// The legality check the search uses on cells it already knows to
    /// be empty and in bounds: only the double-free-three restriction
    /// remains to be tested.
    pub fn check_add_value_algo(&self, input: Input, players: &Players) -> (r: Result<
        (),
        PlacementError,
    >)
        requires
            self.wf(),
            input.0 < self.size,
            input.1 < self.size,
        ensures
            r == (if spec_double_free_three(
                *self,
                input.0 as int,
                input.1 as int,
                players.current_player.color,
            ) {
                Err::<(), PlacementError>(PlacementError::DoubleFreeThree)
            } else {
                Ok::<(), PlacementError>(())
            }),
    {
        if self.check_double_free_three(input, players.get_current_player().get_player_color()) {
            return Err(PlacementError::DoubleFreeThree);
        }
        Ok(())
    }
}



/// `s` with the `n` cells stepped `1..=n` from `(x, y)` along
/// `(dx, dy)` cleared to empty; steps that would leave the grid clear
/// nothing.
pub open spec fn spec_clear_ray(
    s: Seq<Tile>,
    size: int,
    x: int,
    y: int,
    dx: int,
    dy: int,
    n: int,
) -> Seq<Tile>
    decreases n,
{
    if n <= 0 {
        s
    } else {
        let prev = spec_clear_ray(s, size, x, y, dx, dy, n - 1);
        if 0 <= x + dx * n < size && 0 <= y + dy * n < size {
            prev.update(idx(x + dx * n, y + dy * n, size), Tile::Empty)
        } else {
            prev
        }
    }
}

/// Clearing a ray keeps the number of cells and only ever writes empty
/// cells.
pub proof fn lemma_clear_ray_shape(
    s: Seq<Tile>,
    size: int,
    x: int,
    y: int,
    dx: int,
    dy: int,
    n: int,
)
    requires
        s.len() == size * size,
    ensures
        spec_clear_ray(s, size, x, y, dx, dy, n).len() == s.len(),
        forall|k: int|
            0 <= k < s.len() ==> #[trigger] spec_clear_ray(s, size, x, y, dx, dy, n)[k]
                == Tile::Empty || spec_clear_ray(s, size, x, y, dx, dy, n)[k] == s[k],
    decreases n,
{
    if n > 0 {
        lemma_clear_ray_shape(s, size, x, y, dx, dy, n - 1);
        if 0 <= x + dx * n < size && 0 <= y + dy * n < size {
            lemma_idx_bound(x + dx * n, y + dy * n, size);
        }
    }
}

/// A capture fires from a fresh stone of colour `c` at `(x, y)` along
/// `(dx, dy)` exactly when the `capture_range` cells stepped outward
/// all hold the opponent and the cell one step further holds `c`
/// again, every one of them inside the grid.
pub open spec fn spec_capture_dir(
    s: Seq<Tile>,
    size: int,
    range: int,
    x: int,
    y: int,
    c: Color,
    dx: int,
    dy: int,
) -> bool {
    &&& forall|j: int|
        1 <= j <= range ==> #[trigger] tile_at_s(s, size, x + dx * j, y + dy * j) == Tile::Color(
            spec_inverse(c),
        )
    &&& tile_at_s(s, size, x + dx * (range + 1), y + dy * (range + 1)) == Tile::Color(c)
}

/// `p` with one capture worth `p.capture_range` stones credited to the
/// player of side `c`.
pub open spec fn spec_add_capture(p: Players, c: Color) -> Players {
    match c {
        Color::Black => Players {
            player1: Player {
                captured: (p.player1.captured + p.capture_range) as usize,
                ..p.player1
            },
            ..p
        },
        Color::White => Players {
            player2: Player {
                captured: (p.player2.captured + p.capture_range) as usize,
                ..p.player2
            },
            ..p
        },
    }
}

/// The grid and the players after resolving one capture direction:
/// when the capture fires, the flanked run empties and the mover is
/// credited; otherwise nothing changes.
pub open spec fn spec_capture_step(
    s: Seq<Tile>,
    p: Players,
    size: int,
    range: int,
    x: int,
    y: int,
    c: Color,
    dx: int,
    dy: int,
) -> (Seq<Tile>, Players) {
    if spec_capture_dir(s, size, range, x, y, c, dx, dy) {
        (spec_clear_ray(s, size, x, y, dx, dy, range), spec_add_capture(p, c))
    } else {
        (s, p)
    }
}

/// The grid and the players after resolving all eight capture
/// directions of a stone of colour `c` placed at `(x, y)`, each
/// direction checked once against the state the previous directions
/// left behind.
pub open spec fn spec_do_captures(
    s: Seq<Tile>,
    p: Players,
    size: int,
    range: int,
    x: int,
    y: int,
    c: Color,
) -> (Seq<Tile>, Players) {
    let r1 = spec_capture_step(s, p, size, range, x, y, c, -1, 0);
    let r2 = spec_capture_step(r1.0, r1.1, size, range, x, y, c, 1, 0);
    let r3 = spec_capture_step(r2.0, r2.1, size, range, x, y, c, -1, -1);
    let r4 = spec_capture_step(r3.0, r3.1, size, range, x, y, c, -1, 1);
    let r5 = spec_capture_step(r4.0, r4.1, size, range, x, y, c, 1, -1);
    let r6 = spec_capture_step(r5.0, r5.1, size, range, x, y, c, 1, 1);
    let r7 = spec_capture_step(r6.0, r6.1, size, range, x, y, c, 0, -1);
    spec_capture_step(r7.0, r7.1, size, range, x, y, c, 0, 1)
}

/// The grid and the players after the side to move in `p` places a
/// stone at `(x, y)`: captures resolve first in all eight directions
/// (unless the capture span is zero), then the stone itself is
/// written.
#[verifier::opaque]
pub open spec fn spec_add_value_checked(b: Board, p: Players, x: int, y: int) -> (Seq<Tile>, Players) {
    let c = p.current_player.color;
    let after = if b.capture_range != 0 {
        spec_do_captures(b.board@, p, b.size as int, b.capture_range as int, x, y, c)
    } else {
        (b.board@, p)
    };
    (after.0.update(idx(x, y, b.size as int), Tile::Color(c)), after.1)
}

impl Board {
    /// Resolves one capture direction for a stone of the side to move
    /// placed at `input`: empties the flanked run and credits the
    /// mover when the capture fires.
    fn execute_capture(&mut self, input: Input, players: &mut Players, dx: i32, dy: i32)
        requires
            old(self).wf(),
            input.0 < old(self).size,
            input.1 < old(self).size,
            -1 <= dx <= 1,
            -1 <= dy <= 1,
            old(self).capture_range == old(players).capture_range,
            spec_get_player(*old(players), old(players).current_player.color).captured + old(
                players,
            ).capture_range <= usize::MAX,
        ensures
            final(self).wf(),
            final(self).size == old(self).size,
            final(self).alignement_nb == old(self).alignement_nb,
            final(self).capture_range == old(self).capture_range,
            (final(self).board@, *final(players)) == spec_capture_step(
                old(self).board@,
                *old(players),
                old(self).size as int,
                old(self).capture_range as int,
                input.0 as int,
                input.1 as int,
                old(players).current_player.color,
                dx as int,
                dy as int,
            ),
            final(players).current_player == old(players).current_player,
            final(players).captured_nb == old(players).captured_nb,
            final(players).capture_range == old(players).capture_range,
            old(players).wf() ==> final(players).wf(),
    {
        let ghost old_s = self.board@;
        let color = players.get_current_player().get_player_color();
        let ghost c = color;
        let range = self.capture_range;
        let mut all_enemy = true;
        let inv_color = color.get_inverse_color();
        let mut j: usize = 1;
        while j <= range
            invariant
                1 <= j <= range + 1,
                range == self.capture_range,
                range <= 99,
                self.wf(),
                input.0 < self.size,
                input.1 < self.size,
                -1 <= dx <= 1,
                -1 <= dy <= 1,
                inv_color == spec_inverse(c),
                all_enemy == forall|t: int|
                    1 <= t < j ==> #[trigger] tile_at_s(
                        self.board@,
                        self.size as int,
                        input.0 + dx * t,
                        input.1 + dy * t,
                    ) == Tile::Color(spec_inverse(c)),
            decreases range + 1 - j,
        {
            if self.probe(input.0, input.1, dx, dy, j as i32) != Tile::Color(inv_color) {
                all_enemy = false;
            }
            j = j + 1;
        }
        let end_tile = self.probe(input.0, input.1, dx, dy, (range + 1) as i32);
        if all_enemy && end_tile == Tile::Color(color) {
            assert(spec_capture_dir(
                self.board@,
                self.size as int,
                range as int,
                input.0 as int,
                input.1 as int,
                c,
                dx as int,
                dy as int,
            ));
            let mut z: usize = 1;
            while z <= range
                invariant
                    1 <= z <= range + 1,
                    range <= 99,
                    self.wf(),
                    self.size == old(self).size,
                    self.alignement_nb == old(self).alignement_nb,
                    self.capture_range == old(self).capture_range,
                    range == self.capture_range,
                    input.0 < self.size,
                    input.1 < self.size,
                    -1 <= dx <= 1,
                    -1 <= dy <= 1,
                    spec_capture_dir(
                        old_s,
                        self.size as int,
                        range as int,
                        input.0 as int,
                        input.1 as int,
                        c,
                        dx as int,
                        dy as int,
                    ),
                    self.board@ == spec_clear_ray(
                        old_s,
                        self.size as int,
                        input.0 as int,
                        input.1 as int,
                        dx as int,
                        dy as int,
                        z - 1,
                    ),
                decreases range + 1 - z,
            {
                proof {
                    assert(tile_at_s(
                        old_s,
                        self.size as int,
                        input.0 + dx * (z as int),
                        input.1 + dy * (z as int),
                    ) == Tile::Color(spec_inverse(c)));
                    assert(-120 <= (dx as int) * (z as int) <= 120 && -120 <= (dy as int) * (
                    z as int) <= 120) by (nonlinear_arith)
                        requires
                            -1 <= dx <= 1,
                            -1 <= dy <= 1,
                            0 <= z <= 100,
                    ;
                }
                let cx: i64 = input.0 as i64 + (dx as i64) * (z as i64);
                let cy: i64 = input.1 as i64 + (dy as i64) * (z as i64);
                self.replace((cx as usize, cy as usize), Tile::Empty);
                z = z + 1;
            }
            players.add_capture(color);
        }
    }

    /// Resolves captures in all eight directions around a fresh stone
    /// of the side to move at `input`.
    #[verifier::rlimit(100)]
    fn capture(&mut self, input: Input, players: &mut Players)
        requires
            old(self).wf(),
            input.0 < old(self).size,
            input.1 < old(self).size,
            old(self).capture_range == old(players).capture_range,
            spec_get_player(*old(players), old(players).current_player.color).captured + 8 * old(
                players,
            ).capture_range <= usize::MAX,
        ensures
            final(self).wf(),
            final(self).size == old(self).size,
            final(self).alignement_nb == old(self).alignement_nb,
            final(self).capture_range == old(self).capture_range,
            (final(self).board@, *final(players)) == spec_do_captures(
                old(self).board@,
                *old(players),
                old(self).size as int,
                old(self).capture_range as int,
                input.0 as int,
                input.1 as int,
                old(players).current_player.color,
            ),
            final(players).current_player == old(players).current_player,
            final(players).captured_nb == old(players).captured_nb,
            final(players).capture_range == old(players).capture_range,
            old(players).wf() ==> final(players).wf(),
    {
        self.execute_capture(input, players, -1, 0);
        self.execute_capture(input, players, 1, 0);
        self.execute_capture(input, players, -1, -1);
        self.execute_capture(input, players, -1, 1);
        self.execute_capture(input, players, 1, -1);
        self.execute_capture(input, players, 1, 1);
        self.execute_capture(input, players, 0, -1);
        self.execute_capture(input, players, 0, 1);
    }

    /// Places the side to move's stone at `input` without any legality
    /// check, resolving captures first.  Callers must have validated
    /// the placement through `check_add_value`, or be exploring a
    /// position the search has already screened.
    pub fn add_value_checked(&mut self, input: Input, players: &mut Players)
        requires
            old(self).wf(),
            input.0 < old(self).size,
            input.1 < old(self).size,
            old(self).capture_range == old(players).capture_range,
            spec_get_player(*old(players), old(players).current_player.color).captured + 8 * old(
                players,
            ).capture_range <= usize::MAX,
        ensures
            final(self).wf(),
            final(self).size == old(self).size,
            final(self).alignement_nb == old(self).alignement_nb,
            final(self).capture_range == old(self).capture_range,
            (final(self).board@, *final(players)) == spec_add_value_checked(
                *old(self),
                *old(players),
                input.0 as int,
                input.1 as int,
            ),
            final(players).current_player == old(players).current_player,
            final(players).captured_nb == old(players).captured_nb,
            final(players).capture_range == old(players).capture_range,
            old(players).wf() ==> final(players).wf(),
    {
        proof {
            reveal(spec_add_value_checked);
        }
        let color = players.get_current_player().get_player_color();
        if self.capture_range != 0 {
            self.capture(input, players);
        }
        self.replace(input, Tile::Color(color));
    }

    /// Checks the placement and performs it when legal: the
    /// convenience path for interactively driven moves.  Returns the
    /// refusing error and leaves everything unchanged otherwise.
    pub fn add_value(&mut self, input: Input, players: &mut Players) -> (r: Result<
        (),
        PlacementError,
    >)
        requires
            old(self).wf(),
            old(self).capture_range == old(players).capture_range,
            spec_get_player(*old(players), old(players).current_player.color).captured + 8 * old(
                players,
            ).capture_range <= usize::MAX,
        ensures
            r == spec_check_add_value(*old(self), input.0 as int, input.1 as int, *old(players)),
            r is Ok ==> (final(self).board@, *final(players)) == spec_add_value_checked(
                *old(self),
                *old(players),
                input.0 as int,
                input.1 as int,
            ),
            r is Err ==> *final(self) == *old(self) && *final(players) == *old(players),
            final(self).wf(),
            final(self).size == old(self).size,
            final(self).alignement_nb == old(self).alignement_nb,
            final(self).capture_range == old(self).capture_range,
            final(players).current_player == old(players).current_player,
            final(players).captured_nb == old(players).captured_nb,
            final(players).capture_range == old(players).capture_range,
            old(players).wf() ==> final(players).wf(),
    {
        match self.check_add_value(input, players) {
            Ok(()) => {
                self.add_value_checked(input, players);
                Ok(())
            },
            Err(e) => Err(e),
        }
    }
}



/// `align` stones of colour `c` stand in a row from `(x, y)` along
/// `(dx, dy)`, all inside the grid.
pub open spec fn spec_aligned(
    s: Seq<Tile>,
    size: int,
    align: int,
    x: int,
    y: int,
    c: Color,
    dx: int,
    dy: int,
) -> bool {
    forall|k: int|
        0 <= k < align ==> #[trigger] tile_at_s(s, size, x + dx * k, y + dy * k) == Tile::Color(c)
}

/// The witness shape behind `spec_capturable`: `a` own stones ahead of
/// `(x, y)` and `b` behind it along `(dx, dy)`, the two cells closing
/// that run holding one opponent stone and one empty cell in either
/// order.
pub open spec fn spec_capturable_pair(
    s: Seq<Tile>,
    size: int,
    x: int,
    y: int,
    c: Color,
    dx: int,
    dy: int,
    a: int,
    b: int,
) -> bool {
    &&& 0 <= a
    &&& 0 <= b
    &&& forall|j: int|
        1 <= j <= a ==> #[trigger] tile_at_s(s, size, x + dx * j, y + dy * j) == Tile::Color(c)
    &&& forall|j: int|
        1 <= j <= b ==> #[trigger] tile_at_s(s, size, x - dx * j, y - dy * j) == Tile::Color(c)
    &&& {
        let e1 = tile_at_s(s, size, x + dx * (a + 1), y + dy * (a + 1));
        let e2 = tile_at_s(s, size, x - dx * (b + 1), y - dy * (b + 1));
        (e1 == Tile::Color(spec_inverse(c)) && e2 == Tile::Empty) || (e1 == Tile::Empty && e2
            == Tile::Color(spec_inverse(c)))
    }
}

/// The opponent could capture the run of colour `c` through `(x, y)`
/// along the axis `(dx, dy)` with one move: the maximal own run
/// containing `(x, y)` spans exactly `range` cells and its two closing
/// cells hold one opponent stone and one empty cell.
pub open spec fn spec_capturable(
    s: Seq<Tile>,
    size: int,
    range: int,
    x: int,
    y: int,
    c: Color,
    dx: int,
    dy: int,
) -> bool {
    exists|a: int, b: int|
        a + b + 1 == range && #[trigger] spec_capturable_pair(s, size, x, y, c, dx, dy, a, b)
}

/// If the stones ahead of `(x, y)` up to `a` are own-coloured, the run
/// ends there (or `a` fills the whole span), and the one candidate
/// witness pair `(a, range - 1 - a)` fails, then no capture threatens
/// the run at `(x, y)` along `(dx, dy)`.
pub proof fn lemma_run_not_capturable(
    s: Seq<Tile>,
    size: int,
    range: int,
    x: int,
    y: int,
    c: Color,
    dx: int,
    dy: int,
    a: int,
)
    requires
        0 <= a <= range,
        forall|j: int|
            1 <= j <= a ==> #[trigger] tile_at_s(s, size, x + dx * j, y + dy * j) == Tile::Color(c),
        a < range ==> tile_at_s(s, size, x + dx * (a + 1), y + dy * (a + 1)) != Tile::Color(c),
        a < range ==> !spec_capturable_pair(s, size, x, y, c, dx, dy, a, range - 1 - a),
    ensures
        !spec_capturable(s, size, range, x, y, c, dx, dy),
{
    assert(spec_inverse(c) != c);
    assert forall|a0: int, b0: int|
        !(a0 + b0 + 1 == range && spec_capturable_pair(s, size, x, y, c, dx, dy, a0, b0)) by {
        if a0 + b0 + 1 == range && spec_capturable_pair(s, size, x, y, c, dx, dy, a0, b0) {
            if a0 < a {
                assert(tile_at_s(s, size, x + dx * (a0 + 1), y + dy * (a0 + 1)) == Tile::Color(c));
            } else if a0 > a {
                assert(a < range);
                assert(1 <= a + 1 <= a0);
                assert(tile_at_s(s, size, x + dx * (a + 1), y + dy * (a + 1)) == Tile::Color(c));
            } else {
                assert(b0 == range - 1 - a);
            }
        }
    }
}

/// No stone of colour `c` is capturable along any of the four axes.
pub open spec fn spec_stone_safe(
    s: Seq<Tile>,
    size: int,
    range: int,
    x: int,
    y: int,
    c: Color,
) -> bool {
    &&& !spec_capturable(s, size, range, x, y, c, 1, 0)
    &&& !spec_capturable(s, size, range, x, y, c, 1, 1)
    &&& !spec_capturable(s, size, range, x, y, c, 0, 1)
    &&& !spec_capturable(s, size, range, x, y, c, -1, 1)
}

/// Starting from stone `i` of a run, every remaining in-bounds stone
/// of the run from `(x, y)` along `(dx, dy)` is safe from immediate
/// capture on every axis.
pub open spec fn spec_run_safe_from(
    s: Seq<Tile>,
    size: int,
    range: int,
    align: int,
    x: int,
    y: int,
    c: Color,
    dx: int,
    dy: int,
    i: int,
) -> bool
    decreases align - i,
{
    if i >= align {
        true
    } else {
        (0 <= x + dx * i < size && 0 <= y + dy * i < size ==> spec_stone_safe(
            s,
            size,
            range,
            x + dx * i,
            y + dy * i,
            c,
        )) && spec_run_safe_from(s, size, range, align, x, y, c, dx, dy, i + 1)
    }
}

/// Every in-bounds stone of the run from `(x, y)` along `(dx, dy)` is
/// safe from immediate capture: the run cannot be broken by a capture
/// before it wins.
pub open spec fn spec_cannot_be_captured(
    s: Seq<Tile>,
    size: int,
    range: int,
    align: int,
    x: int,
    y: int,
    c: Color,
    dx: int,
    dy: int,
) -> bool {
    spec_run_safe_from(s, size, range, align, x, y, c, dx, dy, 0)
}

/// A winning run of colour `c` starts at `(x, y)` along `(dx, dy)`:
/// the stones are aligned, and — unless captures are disabled or the
/// run belongs to the player the check is made for — no stone of the
/// run can be captured away.
pub open spec fn spec_victory_dir(
    s: Seq<Tile>,
    size: int,
    align: int,
    range: int,
    x: int,
    y: int,
    c: Color,
    captured: bool,
    dx: int,
    dy: int,
) -> bool {
    spec_aligned(s, size, align, x, y, c, dx, dy) && (range == 0 || captured
        || spec_cannot_be_captured(s, size, range, align, x, y, c, dx, dy))
}

/// A winning run of colour `c` starts at `(x, y)` along one of the
/// four scan axes.
pub open spec fn spec_victory_dirs(
    s: Seq<Tile>,
    size: int,
    align: int,
    range: int,
    x: int,
    y: int,
    c: Color,
    captured: bool,
) -> bool {
    ||| spec_victory_dir(s, size, align, range, x, y, c, captured, 1, 0)
    ||| spec_victory_dir(s, size, align, range, x, y, c, captured, 0, 1)
    ||| spec_victory_dir(s, size, align, range, x, y, c, captured, 1, 1)
    ||| spec_victory_dir(s, size, align, range, x, y, c, captured, -1, 1)
}

/// A winning run starts at flat index `i`, evaluated for the player of
/// side `pcolor`: a run of that player's own colour wins outright,
/// while an opposing run must also be safe from immediate capture.
pub open spec fn spec_victory_at_s(
    s: Seq<Tile>,
    size: int,
    align: int,
    range: int,
    i: int,
    pcolor: Color,
) -> bool {
    match s[i] {
        Tile::Color(c) => spec_victory_dirs(s, size, align, range, i % size, i / size, c, c
            == pcolor),
        _ => false,
    }
}

/// A winning run starts at flat index `i` of a whole board.
pub open spec fn spec_victory_at(b: Board, i: int, pcolor: Color) -> bool {
    spec_victory_at_s(
        b.board@,
        b.size as int,
        b.alignement_nb as int,
        b.capture_range as int,
        i,
        pcolor,
    )
}

/// The colour of the winning run at the highest flat index below `n`,
/// if any.
pub open spec fn spec_last_winner_s(
    s: Seq<Tile>,
    size: int,
    align: int,
    range: int,
    pcolor: Color,
    n: int,
) -> Option<Color>
    decreases n,
{
    if n <= 0 {
        None
    } else if spec_victory_at_s(s, size, align, range, n - 1, pcolor) {
        match s[n - 1] {
            Tile::Color(c) => Some(c),
            _ => None,
        }
    } else {
        spec_last_winner_s(s, size, align, range, pcolor, n - 1)
    }
}

/// The colour of the winning run at the highest index of a whole
/// board below `n`, if any.
pub open spec fn spec_last_winner(b: Board, pcolor: Color, n: int) -> Option<Color> {
    spec_last_winner_s(
        b.board@,
        b.size as int,
        b.alignement_nb as int,
        b.capture_range as int,
        pcolor,
        n,
    )
}

/// No cell of `s` is empty.
pub open spec fn spec_board_full(s: Seq<Tile>) -> bool {
    forall|j: int| 0 <= j < s.len() ==> #[trigger] s[j] != Tile::Empty
}

/// Some winning run of side `pcolor` itself exists on the grid.
pub open spec fn spec_player_win_s(
    s: Seq<Tile>,
    size: int,
    align: int,
    range: int,
    pcolor: Color,
) -> bool {
    exists|i: int|
        0 <= i < s.len() && #[trigger] spec_victory_at_s(s, size, align, range, i, pcolor) && s[i]
            == Tile::Color(pcolor)
}

/// Some winning run of side `pcolor` itself exists on a whole board.
pub open spec fn spec_player_win(b: Board, pcolor: Color) -> bool {
    spec_player_win_s(
        b.board@,
        b.size as int,
        b.alignement_nb as int,
        b.capture_range as int,
        pcolor,
    )
}

/// The game-over verdict of a grid, evaluated for the player of side
/// `pcolor`: that player's own winning run reports them the winner;
/// otherwise the winning run at the highest index names the winner;
/// otherwise a full grid is a draw and anything else is still open.
pub open spec fn spec_is_finished_s(
    s: Seq<Tile>,
    size: int,
    align: int,
    range: int,
    pcolor: Color,
) -> (bool, Option<Color>) {
    if spec_player_win_s(s, size, align, range, pcolor) {
        (true, Some(pcolor))
    } else {
        match spec_last_winner_s(s, size, align, range, pcolor, s.len() as int) {
            Some(c) => (true, Some(c)),
            None => (spec_board_full(s), None),
        }
    }
}

/// The game-over verdict of a whole board.
#[verifier::opaque]
pub open spec fn spec_is_finished(b: Board, pcolor: Color) -> (bool, Option<Color>) {
    spec_is_finished_s(
        b.board@,
        b.size as int,
        b.alignement_nb as int,
        b.capture_range as int,
        pcolor,
    )
}

impl Board {
    /// Whether `align` stones of colour `color` run from `(x, y)`
    /// along `(dx, dy)`.
    fn check_aligned(&self, x: usize, y: usize, dx: i32, dy: i32, color: Color) -> (r: bool)
        requires
            self.wf(),
            x < self.size,
            y < self.size,
            -1 <= dx <= 1,
            -1 <= dy <= 1,
        ensures
            r == spec_aligned(
                self.board@,
                self.size as int,
                self.alignement_nb as int,
                x as int,
                y as int,
                color,
                dx as int,
                dy as int,
            ),
    {
        let align = self.alignement_nb;
        let mut k: usize = 0;
        while k < align
            invariant
                0 <= k <= align,
                align <= 99,
                self.wf(),
                align == self.alignement_nb,
                x < self.size,
                y < self.size,
                -1 <= dx <= 1,
                -1 <= dy <= 1,
                forall|t: int|
                    0 <= t < k ==> #[trigger] tile_at_s(
                        self.board@,
                        self.size as int,
                        x + dx * t,
                        y + dy * t,
                    ) == Tile::Color(color),
            decreases align - k,
        {
            if self.probe(x, y, dx, dy, k as i32) != Tile::Color(color) {
                return false;
            }
            k = k + 1;
        }
        true
    }

    /// Whether the run of colour `color` through the in-bounds cell
    /// `input` cannot be captured by one opposing move along the axis
    /// `(dx, dy)`.
    fn cannot_be_captured_prime(&self, input: Input, color: Color, dx: i32, dy: i32) -> (r: bool)
        requires
            self.wf(),
            input.0 < self.size,
            input.1 < self.size,
            -1 <= dx <= 1,
            -1 <= dy <= 1,
        ensures
            r == !spec_capturable(
                self.board@,
                self.size as int,
                self.capture_range as int,
                input.0 as int,
                input.1 as int,
                color,
                dx as int,
                dy as int,
            ),
    {
        let ghost s = self.board@;
        let ghost size = self.size as int;
        let ghost xg = input.0 as int;
        let ghost yg = input.1 as int;
        let ghost dxg = dx as int;
        let ghost dyg = dy as int;
        let range = self.capture_range;
        let mut a: usize = 0;
        let mut hit_end = false;
        while a < range && !hit_end
            invariant
                0 <= a <= range,
                range <= 99,
                range == self.capture_range,
                self.wf(),
                s == self.board@,
                size == self.size as int,
                xg == input.0 as int,
                yg == input.1 as int,
                dxg == dx as int,
                dyg == dy as int,
                input.0 < self.size,
                input.1 < self.size,
                -1 <= dx <= 1,
                -1 <= dy <= 1,
                forall|j: int|
                    1 <= j <= a ==> #[trigger] tile_at_s(s, size, xg + dxg * j, yg + dyg * j)
                        == Tile::Color(color),
                hit_end ==> tile_at_s(s, size, xg + dxg * (a + 1), yg + dyg * (a + 1))
                    != Tile::Color(color),
            decreases range - a + (if hit_end { 0int } else { 1int }),
        {
            if self.probe(input.0, input.1, dx, dy, (a + 1) as i32) == Tile::Color(color) {
                a = a + 1;
            } else {
                hit_end = true;
            }
        }
        if a == range {
            proof {
                lemma_run_not_capturable(s, size, range as int, xg, yg, color, dxg, dyg, a as int);
            }
            return true;
        }
        let end_f = self.probe(input.0, input.1, dx, dy, (a + 1) as i32);
        let inv_color = color.get_inverse_color();
        let b = range - 1 - a;
        let ghost bb = b as int;
        proof {
            assert(end_f == tile_at_s(s, size, xg + dxg * (a + 1), yg + dyg * (a + 1)));
            assert(end_f != Tile::Color(color));
        }
        if !(end_f == Tile::Color(inv_color) || end_f == Tile::Empty) {
            proof {
                assert(!spec_capturable_pair(s, size, xg, yg, color, dxg, dyg, a as int, bb));
                lemma_run_not_capturable(s, size, range as int, xg, yg, color, dxg, dyg, a as int);
            }
            return true;
        }
        let mut j: usize = 1;
        while j <= b
            invariant
                1 <= j <= b + 1,
                bb == b as int,
                b == range - 1 - a,
                0 <= a < range,
                range <= 99,
                range == self.capture_range,
                self.wf(),
                s == self.board@,
                size == self.size as int,
                xg == input.0 as int,
                yg == input.1 as int,
                dxg == dx as int,
                dyg == dy as int,
                input.0 < self.size,
                input.1 < self.size,
                -1 <= dx <= 1,
                -1 <= dy <= 1,
                end_f == tile_at_s(s, size, xg + dxg * (a + 1), yg + dyg * (a + 1)),
                end_f != Tile::Color(color),
                forall|t: int|
                    1 <= t <= a ==> #[trigger] tile_at_s(s, size, xg + dxg * t, yg + dyg * t)
                        == Tile::Color(color),
                forall|t: int|
                    1 <= t < j ==> #[trigger] tile_at_s(s, size, xg - dxg * t, yg - dyg * t)
                        == Tile::Color(color),
            decreases b + 1 - j,
        {
            let neg: i32 = 0 - (j as i32);
            let t = self.probe(input.0, input.1, dx, dy, neg);
            proof {
                let jj = j as int;
                let kneg = neg as int;
                assert(kneg == -jj);
                assert(xg + dxg * kneg == xg - dxg * jj && yg + dyg * kneg == yg - dyg * jj)
                    by (nonlinear_arith)
                    requires
                        kneg == -jj,
                ;
                assert(t == tile_at_s(s, size, xg - dxg * jj, yg - dyg * jj));
            }
            if t != Tile::Color(color) {
                proof {
                    assert(!spec_capturable_pair(s, size, xg, yg, color, dxg, dyg, a as int, bb));
                    lemma_run_not_capturable(
                        s,
                        size,
                        range as int,
                        xg,
                        yg,
                        color,
                        dxg,
                        dyg,
                        a as int,
                    );
                }
                return true;
            }
            j = j + 1;
        }
        let negb: i32 = 0 - ((b + 1) as i32);
        let end_b = self.probe(input.0, input.1, dx, dy, negb);
        proof {
            let knegb = negb as int;
            assert(knegb == -(bb + 1));
            assert(xg + dxg * knegb == xg - dxg * (bb + 1) && yg + dyg * knegb == yg - dyg * (bb
                + 1)) by (nonlinear_arith)
                requires
                    knegb == -(bb + 1),
            ;
            assert(end_b == tile_at_s(s, size, xg - dxg * (bb + 1), yg - dyg * (bb + 1)));
        }
        if (end_f == Tile::Color(inv_color) && end_b == Tile::Empty) || (end_f == Tile::Empty
            && end_b == Tile::Color(inv_color)) {
            proof {
                assert(spec_capturable_pair(s, size, xg, yg, color, dxg, dyg, a as int, bb));
            }
            return false;
        }
        proof {
            assert(!spec_capturable_pair(s, size, xg, yg, color, dxg, dyg, a as int, bb));
            lemma_run_not_capturable(s, size, range as int, xg, yg, color, dxg, dyg, a as int);
        }
        true
    }

    /// Whether every in-bounds stone of the run of colour `color`
    /// from `input` along `(dx, dy)` is safe from immediate capture
    /// on all four axes.
    fn cannot_be_captured(&self, input: Input, color: Color, dx: i32, dy: i32) -> (r: bool)
        requires
            self.wf(),
            input.0 < self.size,
            input.1 < self.size,
            -1 <= dx <= 1,
            -1 <= dy <= 1,
        ensures
            r == spec_cannot_be_captured(
                self.board@,
                self.size as int,
                self.capture_range as int,
                self.alignement_nb as int,
                input.0 as int,
                input.1 as int,
                color,
                dx as int,
                dy as int,
            ),
    {
        let ghost s = self.board@;
        let ghost size = self.size as int;
        let ghost range = self.capture_range as int;
        let ghost aligng = self.alignement_nb as int;
        let ghost xg = input.0 as int;
        let ghost yg = input.1 as int;
        let ghost dxg = dx as int;
        let ghost dyg = dy as int;
        let align = self.alignement_nb;
        let mut i: usize = 0;
        while i < align
            invariant
                0 <= i <= align,
                align <= 99,
                align == self.alignement_nb,
                self.wf(),
                s == self.board@,
                size == self.size as int,
                range == self.capture_range as int,
                aligng == align as int,
                xg == input.0 as int,
                yg == input.1 as int,
                dxg == dx as int,
                dyg == dy as int,
                input.0 < self.size,
                input.1 < self.size,
                -1 <= dx <= 1,
                -1 <= dy <= 1,
                spec_run_safe_from(s, size, range, aligng, xg, yg, color, dxg, dyg, 0)
                    == spec_run_safe_from(s, size, range, aligng, xg, yg, color, dxg, dyg, i as int),
            decreases align - i,
        {
            proof {
                assert(-120 <= dxg * (i as int) <= 120 && -120 <= dyg * (i as int) <= 120)
                    by (nonlinear_arith)
                    requires
                        -1 <= dxg <= 1,
                        -1 <= dyg <= 1,
                        0 <= i <= 100,
                ;
            }
            let cx: i64 = input.0 as i64 + (dx as i64) * (i as i64);
            let cy: i64 = input.1 as i64 + (dy as i64) * (i as i64);
            if 0 <= cx && cx < self.size as i64 && 0 <= cy && cy < self.size as i64 {
                let px = cx as usize;
                let py = cy as usize;
                if !self.cannot_be_captured_prime((px, py), color, 1, 0) {
                    return false;
                }
                if !self.cannot_be_captured_prime((px, py), color, 1, 1) {
                    return false;
                }
                if !self.cannot_be_captured_prime((px, py), color, 0, 1) {
                    return false;
                }
                let negx: i32 = -1;
                if !self.cannot_be_captured_prime((px, py), color, negx, 1) {
                    return false;
                }
            }
            i = i + 1;
        }
        true
    }

    /// Whether a winning run for `color` starts at flat index `i`,
    /// with `captured` telling the check that the run belongs to the
    /// player it is made for, in which case capture safety is not
    /// demanded of it.
    fn check_victory(&self, i: usize, color: Color, captured: bool) -> (r: (bool, Option<Color>))
        requires
            self.wf(),
            i < self.board@.len(),
        ensures
            r == (if spec_victory_dirs(
                self.board@,
                self.size as int,
                self.alignement_nb as int,
                self.capture_range as int,
                i as int % (self.size as int),
                i as int / (self.size as int),
                color,
                captured,
            ) {
                (true, Some(color))
            } else {
                (false, None::<Color>)
            }),
    {
        let (x, y) = self.get_input(i);
        let is_capture_disabled = self.capture_range == 0;
        let negx: i32 = -1;
        if self.check_aligned(x, y, 1, 0, color) && (is_capture_disabled || captured
            || self.cannot_be_captured((x, y), color, 1, 0)) {
            return (true, Some(color));
        }
        if self.check_aligned(x, y, 0, 1, color) && (is_capture_disabled || captured
            || self.cannot_be_captured((x, y), color, 0, 1)) {
            return (true, Some(color));
        }
        if self.check_aligned(x, y, 1, 1, color) && (is_capture_disabled || captured
            || self.cannot_be_captured((x, y), color, 1, 1)) {
            return (true, Some(color));
        }
        if self.check_aligned(x, y, negx, 1, color) && (is_capture_disabled || captured
            || self.cannot_be_captured((x, y), color, negx, 1)) {
            return (true, Some(color));
        }
        (false, None)
    }

    /// The game-over verdict of this grid, evaluated for `player`:
    /// whether the game is over, and the winning side if there is one.
    /// A winning run of `player`'s own colour is reported immediately;
    /// an opposing run must additionally be safe from immediate
    /// capture; a full grid with no winner is a draw.
    pub fn is_finished(&self, player: Player) -> (r: (bool, Option<Color>))
        requires
            self.wf(),
        ensures
            r == spec_is_finished(*self, player.color),
    {
        proof {
            reveal(spec_is_finished);
        }
        let ghost pcolor = player.color;
        let len = self.board.len();
        let mut has_empty = false;
        let mut j: usize = 0;
        while j < len
            invariant
                0 <= j <= len,
                len == self.board@.len(),
                self.wf(),
                has_empty == !(forall|t: int|
                    0 <= t < j ==> #[trigger] self.board@[t] != Tile::Empty),
            decreases len - j,
        {
            if self.get_index(j) == Tile::Empty {
                has_empty = true;
            }
            j = j + 1;
        }
        let mut winner: (bool, Option<Color>) = if has_empty {
            (false, None)
        } else {
            (true, None)
        };
        let pc = player.get_player_color();
        let mut i: usize = 0;
        while i < len
            invariant
                0 <= i <= len,
                len == self.board@.len(),
                self.wf(),
                pcolor == player.color,
                pc == pcolor,
                has_empty == !spec_board_full(self.board@),
                forall|t: int|
                    0 <= t < i ==> !(#[trigger] spec_victory_at(*self, t, pcolor) && self.board@[t]
                        == Tile::Color(pcolor)),
                winner == (match spec_last_winner(*self, pcolor, i as int) {
                    Some(c) => (true, Some(c)),
                    None => (spec_board_full(self.board@), None::<Color>),
                }),
            decreases len - i,
        {
            match self.get_index(i) {
                Tile::Color(c) => {
                    let v = self.check_victory(i, c, c == pc);
                    if v.0 {
                        winner = (true, Some(c));
                        if c == pc {
                            proof {
                                reveal(spec_is_finished);
                                assert(spec_victory_at(*self, i as int, pcolor));
                                assert(spec_player_win(*self, pcolor));
                            }
                            return winner;
                        }
                    }
                },
                _ => {},
            }
            i = i + 1;
        }
        proof {
            reveal(spec_is_finished);
            let sq = self.board@;
            let size = self.size as int;
            let align = self.alignement_nb as int;
            let range = self.capture_range as int;
            if spec_player_win(*self, pcolor) {
                let w = choose|t: int|
                    0 <= t < sq.len() && #[trigger] spec_victory_at_s(
                        sq,
                        size,
                        align,
                        range,
                        t,
                        pcolor,
                    ) && sq[t] == Tile::Color(pcolor);
                assert(spec_victory_at(*self, w, pcolor));
                assert(!(spec_victory_at(*self, w, pcolor) && self.board@[w] == Tile::Color(
                    pcolor,
                )));
            }
        }
        winner
    }
}



/// Placing the same move on two boards that agree on cells and rule
/// parameters produces the same grid and the same players, whatever
/// other representation details differ.
pub proof fn lemma_add_value_checked_same(b1: Board, b2: Board, p: Players, x: int, y: int)
    requires
        b1.board@ == b2.board@,
        b1.size == b2.size,
        b1.capture_range == b2.capture_range,
    ensures
        spec_add_value_checked(b1, p, x, y) == spec_add_value_checked(b2, p, x, y),
{
    reveal(spec_add_value_checked);
}

impl Clone for Board {
    /// A deep copy: the same cells and the same rule parameters.
    fn clone(&self) -> (r: Board)
        ensures
            r.board@ == self.board@,
            r.size == self.size,
            r.alignement_nb == self.alignement_nb,
            r.capture_range == self.capture_range,
    {
        let cells = self.board.clone();
        proof {
            assert forall|i: int| 0 <= i < self.board@.len() implies cells@[i]
                == self.board@[i] by {
            }
            assert(cells@ =~= self.board@);
        }
        Board {
            board: cells,
            size: self.size,
            alignement_nb: self.alignement_nb,
            capture_range: self.capture_range,
        }
    }
}

impl PartialEq for Board {
    /// Two boards are equal when they hold the same cells under the
    /// same rule parameters.
    fn eq(&self, other: &Board) -> (r: bool) {
        if self.size != other.size || self.alignement_nb != other.alignement_nb
            || self.capture_range != other.capture_range || self.board.len() != other.board.len() {
            return false;
        }
        let len = self.board.len();
        let mut i: usize = 0;
        while i < len
            invariant
                0 <= i <= len,
                len == self.board@.len(),
                len == other.board@.len(),
                forall|j: int| 0 <= j < i ==> self.board@[j] == other.board@[j],
            decreases len - i,
        {
            if self.board[i] != other.board[i] {
                return false;
            }
            i = i + 1;
        }
        proof {
            assert(self.board@ =~= other.board@);
        }
        true
    }
}

impl vstd::std_specs::cmp::PartialEqSpecImpl for Board {
    open spec fn obeys_eq_spec() -> bool {
        true
    }

    open spec fn eq_spec(&self, other: &Board) -> bool {
        &&& self.board@ == other.board@
        &&& self.size == other.size
        &&& self.alignement_nb == other.alignement_nb
        &&& self.capture_range == other.capture_range
    }
}



/// The number of cells of `s` holding a stone of colour `c`.
pub open spec fn count_color(s: Seq<Tile>, c: Color) -> int
    decreases s.len(),
{
    if s.len() == 0 {
        0
    } else {
        count_color(s.drop_last(), c) + (if s.last() == Tile::Color(c) {
            1int
        } else {
            0int
        })
    }
}

/// Overwriting one cell changes the colour count by exactly the
/// difference the two cell values make.
pub proof fn lemma_count_color_update(s: Seq<Tile>, i: int, v: Tile, c: Color)
    requires
        0 <= i < s.len(),
    ensures
        count_color(s.update(i, v), c) == count_color(s, c) + (if v == Tile::Color(c) {
            1int
        } else {
            0int
        }) - (if s[i] == Tile::Color(c) {
            1int
        } else {
            0int
        }),
    decreases s.len(),
{
    let t = s.update(i, v);
    if i == s.len() - 1 {
        assert(t.drop_last() =~= s.drop_last());
    } else {
        assert(t.drop_last() =~= s.drop_last().update(i, v));
        lemma_count_color_update(s.drop_last(), i, v, c);
    }
}

/// Cells that no cleared step reaches keep their content, and the
/// cleared cells of a capture run empty out.
pub proof fn lemma_clear_ray_cells(
    s: Seq<Tile>,
    size: int,
    x: int,
    y: int,
    dx: int,
    dy: int,
    n: int,
    k: int,
)
    requires
        s.len() == size * size,
        0 <= k < s.len(),
        forall|j: int| 1 <= j <= n ==> k != #[trigger] idx(x + dx * j, y + dy * j, size),
    ensures
        spec_clear_ray(s, size, x, y, dx, dy, n)[k] == s[k],
    decreases n,
{
    lemma_clear_ray_shape(s, size, x, y, dx, dy, n);
    if n > 0 {
        lemma_clear_ray_shape(s, size, x, y, dx, dy, n - 1);
        lemma_clear_ray_cells(s, size, x, y, dx, dy, n - 1, k);
        if 0 <= x + dx * n < size && 0 <= y + dy * n < size {
            lemma_idx_bound(x + dx * n, y + dy * n, size);
        }
    }
}

/// Clearing a run of opposing stones removes exactly its stones from
/// the opponent's count: the cleared cells become empty and every
/// other cell is untouched.
pub proof fn lemma_clear_ray_count(
    s: Seq<Tile>,
    size: int,
    x: int,
    y: int,
    dx: int,
    dy: int,
    n: int,
    c: Color,
)
    requires
        s.len() == size * size,
        size >= 1,
        0 <= x < size,
        0 <= y < size,
        !(dx == 0 && dy == 0),
        -1 <= dx <= 1,
        -1 <= dy <= 1,
        n >= 0,
        forall|j: int|
            1 <= j <= n ==> #[trigger] tile_at_s(s, size, x + dx * j, y + dy * j) == Tile::Color(
                spec_inverse(c),
            ),
    ensures
        count_color(spec_clear_ray(s, size, x, y, dx, dy, n), spec_inverse(c)) == count_color(
            s,
            spec_inverse(c),
        ) - n,
        count_color(spec_clear_ray(s, size, x, y, dx, dy, n), c) == count_color(s, c),
    decreases n,
{
    if n > 0 {
        lemma_clear_ray_count(s, size, x, y, dx, dy, n - 1, c);
        lemma_clear_ray_shape(s, size, x, y, dx, dy, n - 1);
        let prev = spec_clear_ray(s, size, x, y, dx, dy, n - 1);
        let cx = x + dx * n;
        let cy = y + dy * n;
        assert(tile_at_s(s, size, cx, cy) == Tile::Color(spec_inverse(c)));
        assert(0 <= cx < size && 0 <= cy < size);
        lemma_idx_bound(cx, cy, size);
        let ci = idx(cx, cy, size);
        assert forall|j: int| 1 <= j <= n - 1 implies ci != #[trigger] idx(
            x + dx * j,
            y + dy * j,
            size,
        ) by {
            if 0 <= x + dx * j < size && 0 <= y + dy * j < size {
                if ci == idx(x + dx * j, y + dy * j, size) {
                    lemma_idx_injective(cx, cy, x + dx * j, y + dy * j, size);
                    assert(dx * n == dx * j && dy * n == dy * j);
                    assert(false) by (nonlinear_arith)
                        requires
                            dx * n == dx * j,
                            dy * n == dy * j,
                            !(dx == 0 && dy == 0),
                            j != n,
                    ;
                }
            } else {
                assert(tile_at_s(s, size, x + dx * j, y + dy * j) == Tile::OutOfBounds);
            }
        }
        lemma_clear_ray_cells(s, size, x, y, dx, dy, n - 1, ci);
        assert(prev[ci] == s[ci]);
        assert(s[ci] == Tile::Color(spec_inverse(c)));
        lemma_count_color_update(prev, ci, Tile::Empty, spec_inverse(c));
        lemma_count_color_update(prev, ci, Tile::Empty, c);
        assert(spec_inverse(c) != c);
    }
}

/// Capture symmetry: when a flanking capture fires along a direction,
/// the flanked cells become empty, the mover's capture count rises by
/// exactly the capture span, and the opponent loses exactly that many
/// stones from the grid, every other cell staying as it was.
pub proof fn lemma_capture_symmetry(
    s: Seq<Tile>,
    p: Players,
    size: int,
    range: int,
    x: int,
    y: int,
    c: Color,
    dx: int,
    dy: int,
)
    requires
        s.len() == size * size,
        size >= 1,
        0 <= x < size,
        0 <= y < size,
        !(dx == 0 && dy == 0),
        -1 <= dx <= 1,
        -1 <= dy <= 1,
        range >= 0,
        range == p.capture_range,
        spec_capture_dir(s, size, range, x, y, c, dx, dy),
        spec_get_player(p, c).captured + range <= usize::MAX,
    ensures
        forall|j: int|
            1 <= j <= range ==> #[trigger] tile_at_s(
                spec_capture_step(s, p, size, range, x, y, c, dx, dy).0,
                size,
                x + dx * j,
                y + dy * j,
            ) == Tile::Empty,
        spec_get_player(spec_capture_step(s, p, size, range, x, y, c, dx, dy).1, c).captured
            == spec_get_player(p, c).captured + range,
        spec_get_player(
            spec_capture_step(s, p, size, range, x, y, c, dx, dy).1,
            spec_inverse(c),
        ) == spec_get_player(p, spec_inverse(c)),
        count_color(spec_capture_step(s, p, size, range, x, y, c, dx, dy).0, spec_inverse(c))
            == count_color(s, spec_inverse(c)) - range,
        count_color(spec_capture_step(s, p, size, range, x, y, c, dx, dy).0, c) == count_color(
            s,
            c,
        ),
        forall|k: int|
            0 <= k < s.len() && (forall|j: int|
                1 <= j <= range ==> k != #[trigger] idx(x + dx * j, y + dy * j, size))
                ==> #[trigger] spec_capture_step(s, p, size, range, x, y, c, dx, dy).0[k] == s[k],
{
    let cleared = spec_clear_ray(s, size, x, y, dx, dy, range);
    lemma_clear_ray_count(s, size, x, y, dx, dy, range, c);
    lemma_clear_ray_shape(s, size, x, y, dx, dy, range);
    assert forall|j: int| 1 <= j <= range implies #[trigger] tile_at_s(
        cleared,
        size,
        x + dx * j,
        y + dy * j,
    ) == Tile::Empty by {
        assert(tile_at_s(s, size, x + dx * j, y + dy * j) == Tile::Color(spec_inverse(c)));
        let cx = x + dx * j;
        let cy = y + dy * j;
        lemma_idx_bound(cx, cy, size);
        assert forall|t: int|
            1 <= t <= range && t != j implies idx(cx, cy, size) != #[trigger] idx(
            x + dx * t,
            y + dy * t,
            size,
        ) by {
            assert(tile_at_s(s, size, x + dx * t, y + dy * t) == Tile::Color(spec_inverse(c)));
            if idx(cx, cy, size) == idx(x + dx * t, y + dy * t, size) {
                lemma_idx_injective(cx, cy, x + dx * t, y + dy * t, size);
                assert(dx * j == dx * t && dy * j == dy * t);
                assert(false) by (nonlinear_arith)
                    requires
                        dx * j == dx * t,
                        dy * j == dy * t,
                        !(dx == 0 && dy == 0),
                        j != t,
                ;
            }
        }
        lemma_clear_ray_at(s, size, x, y, dx, dy, range, j);
    }
    assert forall|k: int|
        0 <= k < s.len() && (forall|j: int|
            1 <= j <= range ==> k != #[trigger] idx(x + dx * j, y + dy * j, size)) implies #[trigger] spec_capture_step(
        s,
        p,
        size,
        range,
        x,
        y,
        c,
        dx,
        dy,
    ).0[k] == s[k] by {
        lemma_clear_ray_cells(s, size, x, y, dx, dy, range, k);
    }
}

/// Each cleared step of a capture run is empty after the clearing.
pub proof fn lemma_clear_ray_at(
    s: Seq<Tile>,
    size: int,
    x: int,
    y: int,
    dx: int,
    dy: int,
    n: int,
    j: int,
)
    requires
        s.len() == size * size,
        1 <= j <= n,
        0 <= x + dx * j < size,
        0 <= y + dy * j < size,
        forall|t: int|
            1 <= t <= n && t != j ==> idx(x + dx * j, y + dy * j, size) != #[trigger] idx(
                x + dx * t,
                y + dy * t,
                size,
            ),
    ensures
        spec_clear_ray(s, size, x, y, dx, dy, n)[idx(x + dx * j, y + dy * j, size)] == Tile::Empty,
    decreases n,
{
    let ci = idx(x + dx * j, y + dy * j, size);
    lemma_idx_bound(x + dx * j, y + dy * j, size);
    lemma_clear_ray_shape(s, size, x, y, dx, dy, n);
    lemma_clear_ray_shape(s, size, x, y, dx, dy, n - 1);
    let prev = spec_clear_ray(s, size, x, y, dx, dy, n - 1);
    if n == j {
        assert(0 <= ci < prev.len());
        assert(spec_clear_ray(s, size, x, y, dx, dy, n) == prev.update(ci, Tile::Empty));
        assert(prev.update(ci, Tile::Empty)[ci] == Tile::Empty);
    } else {
        lemma_clear_ray_at(s, size, x, y, dx, dy, n - 1, j);
        assert(prev[ci] == Tile::Empty);
        if 0 <= x + dx * n < size && 0 <= y + dy * n < size {
            let cn = idx(x + dx * n, y + dy * n, size);
            assert(ci != cn);
            lemma_idx_bound(x + dx * n, y + dy * n, size);
            assert(spec_clear_ray(s, size, x, y, dx, dy, n) == prev.update(cn, Tile::Empty));
            assert(prev.update(cn, Tile::Empty)[ci] == prev[ci]);
        } else {
            assert(spec_clear_ray(s, size, x, y, dx, dy, n) == prev);
        }
    }
}

/// The placement check is idempotent: two verdicts for the same
/// placement on the same unchanged board and players are the same
/// verdict, because the check reads only its inputs and changes
/// nothing.
pub proof fn lemma_check_add_value_idempotent(
    b: Board,
    x: int,
    y: int,
    p: Players,
    r1: Result<(), PlacementError>,
    r2: Result<(), PlacementError>,
)
    requires
        r1 == spec_check_add_value(b, x, y, p),
        r2 == spec_check_add_value(b, x, y, p),
    ensures
        r1 == r2,
{
}

/// A winning alignment of the side the check is not made for stands
/// only when no stone of it can be captured away: with captures
/// enabled, an opposing run reported as a win is safe from immediate
/// capture along every axis around each of its stones.
pub proof fn lemma_win_non_capturable(b: Board, i: int, pcolor: Color, c: Color)
    requires
        0 <= i < b.board@.len(),
        b.board@[i] == Tile::Color(c),
        c != pcolor,
        b.capture_range > 0,
        spec_victory_at(b, i, pcolor),
    ensures
        exists|dx: int, dy: int|
            ((dx == 1 && dy == 0) || (dx == 0 && dy == 1) || (dx == 1 && dy == 1) || (dx == -1
                && dy == 1)) && #[trigger] spec_aligned(
                b.board@,
                b.size as int,
                b.alignement_nb as int,
                i % (b.size as int),
                i / (b.size as int),
                c,
                dx,
                dy,
            ) && spec_cannot_be_captured(
                b.board@,
                b.size as int,
                b.capture_range as int,
                b.alignement_nb as int,
                i % (b.size as int),
                i / (b.size as int),
                c,
                dx,
                dy,
            ),
{
    let s = b.board@;
    let size = b.size as int;
    let align = b.alignement_nb as int;
    let range = b.capture_range as int;
    let x = i % size;
    let y = i / size;
    if spec_victory_dir(s, size, align, range, x, y, c, false, 1, 0) {
        assert(spec_aligned(s, size, align, x, y, c, 1, 0) && spec_cannot_be_captured(
            s,
            size,
            range,
            align,
            x,
            y,
            c,
            1,
            0,
        ));
    } else if spec_victory_dir(s, size, align, range, x, y, c, false, 0, 1) {
        assert(spec_aligned(s, size, align, x, y, c, 0, 1) && spec_cannot_be_captured(
            s,
            size,
            range,
            align,
            x,
            y,
            c,
            0,
            1,
        ));
    } else if spec_victory_dir(s, size, align, range, x, y, c, false, 1, 1) {
        assert(spec_aligned(s, size, align, x, y, c, 1, 1) && spec_cannot_be_captured(
            s,
            size,
            range,
            align,
            x,
            y,
            c,
            1,
            1,
        ));
    } else {
        assert(spec_victory_dir(s, size, align, range, x, y, c, false, -1, 1));
        assert(spec_aligned(s, size, align, x, y, c, -1, 1) && spec_cannot_be_captured(
            s,
            size,
            range,
            align,
            x,
            y,
            c,
            -1,
            1,
        ));
    }
}

/// The full verdict table of the placement check: success exactly on
/// an empty in-bounds cell that completes at most one free three, and
/// each error exactly on its own failure case, tested in the order
/// bounds, occupancy, double free three.
pub proof fn lemma_check_add_value_cases(b: Board, x: int, y: int, p: Players)
    ensures
        (spec_check_add_value(b, x, y, p) == Ok::<(), PlacementError>(())) <==> (0 <= x < b.size
            && 0 <= y < b.size && spec_tile_at(b, x, y) == Tile::Empty && !spec_double_free_three(
            b,
            x,
            y,
            p.current_player.color,
        )),
        (spec_check_add_value(b, x, y, p) == Err::<(), PlacementError>(
            PlacementError::OutOfBounds,
        )) <==> !(0 <= x < b.size && 0 <= y < b.size),
        (spec_check_add_value(b, x, y, p) == Err::<(), PlacementError>(PlacementError::NotEmpty))
            <==> (0 <= x < b.size && 0 <= y < b.size && spec_tile_at(b, x, y) != Tile::Empty),
        (spec_check_add_value(b, x, y, p) == Err::<(), PlacementError>(
            PlacementError::DoubleFreeThree,
        )) <==> (0 <= x < b.size && 0 <= y < b.size && spec_tile_at(b, x, y) == Tile::Empty
            && spec_double_free_three(b, x, y, p.current_player.color)),
{
}

/// A placement on an empty in-bounds cell is refused as a double free
/// three exactly when it would complete two or more free threes at
/// once; a placement completing at most one is not refused for this
/// reason.
pub proof fn lemma_double_free_three_rejected(b: Board, x: int, y: int, p: Players)
    requires
        0 <= x < b.size,
        0 <= y < b.size,
        spec_tile_at(b, x, y) == Tile::Empty,
    ensures
        (spec_check_add_value(b, x, y, p) == Err::<(), PlacementError>(
            PlacementError::DoubleFreeThree,
        )) <==> spec_double_free_three(b, x, y, p.current_player.color),
{
}


} // verus!
