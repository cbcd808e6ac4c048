//! Game configuration: the validated parameters every board and player
//! set is built from.  The surrounding program parses and validates them;
//! the engine only consumes plain integers satisfying `valid_game_params`.

use vstd::prelude::*;

verus! {

/// Largest accepted grid edge length.
pub const BOARD_LENGTH_LIMIT: usize = 99;
/// Largest accepted capture goal.
pub const CAPTURED_NB_LIMIT: usize = 999;
/// Largest accepted capture span.
pub const CAPTURE_RANGE_LIMIT: usize = 99;
/// Largest accepted alignment length.
pub const ALIGNEMENT_NB_LIMIT: usize = 99;
/// Largest accepted search depth.
pub const MINMAX_DEPTH_LIMIT: usize = 10;

/// The combinations of grid edge `size`, winning alignment length
/// `alignement_nb` and capture span `capture_range` that the engine
/// accepts.  A span of zero disables captures entirely.
pub open spec fn valid_game_params(size: int, alignement_nb: int, capture_range: int) -> bool {
    &&& 3 <= size <= BOARD_LENGTH_LIMIT
    &&& 2 <= alignement_nb <= size
    &&& alignement_nb <= ALIGNEMENT_NB_LIMIT
    &&& capture_range < alignement_nb
    &&& capture_range + 2 <= size
}

/// One game's full parameter set, already validated.
#[derive(PartialEq, Eq, Structural, Clone, Copy, Debug)]
pub struct Config {
    /// Edge length of the square grid.
    pub board_length: usize,
    /// Number of aligned stones needed to win.
    pub alignement_nb: usize,
    /// Number of flanked stones removed by one capture.
    pub capture_range: usize,
    /// Number of captured stones needed to win by capture.
    pub capture_nb: usize,
    /// Whether the surrounding program renders graphically.
    pub visual: bool,
    /// Number of cells of the grid, `board_length` squared.
    pub total_tiles: usize,
}

impl Config {
    /// Whether the parameter set is one the engine accepts.
    pub open spec fn wf(self) -> bool {
        &&& valid_game_params(
            self.board_length as int,
            self.alignement_nb as int,
            self.capture_range as int,
        )
        &&& self.capture_nb <= CAPTURED_NB_LIMIT
        &&& self.total_tiles == self.board_length * self.board_length
    }

    /// Bundles already validated parameters into one configuration.
    pub fn new(
        board_length: usize,
        alignement_nb: usize,
        capture_range: usize,
        capture_nb: usize,
        visual: bool,
    ) -> (r: Config)
        requires
            valid_game_params(board_length as int, alignement_nb as int, capture_range as int),
            capture_nb <= CAPTURED_NB_LIMIT,
        ensures
            r.wf(),
            r.board_length == board_length,
            r.alignement_nb == alignement_nb,
            r.capture_range == capture_range,
            r.capture_nb == capture_nb,
            r.visual == visual,
    {
        proof {
            assert(board_length * board_length <= 99 * 99) by (nonlinear_arith)
                requires
                    board_length <= 99,
            ;
        }
        Config {
            board_length,
            alignement_nb,
            capture_range,
            capture_nb,
            visual,
            total_tiles: board_length * board_length,
        }
    }
}

} // verus!
