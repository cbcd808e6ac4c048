//! Player identity, capture bookkeeping and turn order for the two sides.

use vstd::prelude::*;
use crate::color::{Color, spec_inverse};
use crate::config::{CAPTURED_NB_LIMIT, CAPTURE_RANGE_LIMIT};

verus! {

/// Which search algorithm a bot player runs.
#[derive(PartialEq, Eq, Structural, Clone, Copy, Debug, Hash)]
pub enum Algorithm {
    Pvs,
    Minimax,
}

impl Algorithm {
    /// Decodes an algorithm choice from a configuration integer:
    /// zero selects principal-variation search, anything else minimax.
    pub fn usize_to_algorithm(i: usize) -> (r: Algorithm)
        ensures
            r == (if i == 0 { Algorithm::Pvs } else { Algorithm::Minimax }),
    {
        match i {
            0 => Algorithm::Pvs,
            _ => Algorithm::Minimax,
        }
    }

    /// The default algorithm choice.
    pub fn basic_algorithm() -> (r: Algorithm)
        ensures
            r == Algorithm::Pvs,
    {
        Algorithm::usize_to_algorithm(0)
    }
}

/// Whether a side is driven by a human or by a bot, and in the latter
/// case by which algorithm.
#[derive(PartialEq, Eq, Structural, Clone, Copy, Debug, Hash)]
pub enum PlayerType {
    Bot(Algorithm),
    Human,
}

/// One side's identity and capture count.
#[derive(PartialEq, Eq, Structural, Clone, Copy, Debug, Hash)]
pub struct Player {
    /// The side this player plays.
    pub color: Color,
    /// Human or bot.
    pub player_type: PlayerType,
    /// Stones this player has captured from the opponent so far.
    pub captured: usize,
}

impl Player {
    /// A fresh player of the given side with no captures yet.
    pub fn new(color: Color, player_type: PlayerType) -> (r: Player)
        ensures
            r == (Player { color, player_type, captured: 0 }),
    {
        Player { color, player_type, captured: 0 }
    }

    /// Clears the capture count for a new game.
    pub fn reset(&mut self)
        ensures
            *final(self) == (Player { captured: 0, ..*old(self) }),
    {
        self.captured = 0;
    }

    /// Toggles between human and the default bot.
    pub fn change_player_type(&mut self)
        ensures
            final(self).color == old(self).color,
            final(self).captured == old(self).captured,
            final(self).player_type == (match old(self).player_type {
                PlayerType::Bot(_) => PlayerType::Human,
                PlayerType::Human => PlayerType::Bot(Algorithm::Pvs),
            }),
    {
        match self.player_type {
            PlayerType::Bot(_) => self.player_type = PlayerType::Human,
            _ => self.player_type = PlayerType::Bot(Algorithm::basic_algorithm()),
        }
    }

    /// Human or bot.
    pub fn get_player_type(&self) -> (r: PlayerType)
        ensures
            r == self.player_type,
    {
        self.player_type
    }

    /// The side this player plays.
    pub fn get_player_color(&self) -> (r: Color)
        ensures
            r == self.color,
    {
        self.color
    }

    /// Stones captured so far.
    pub fn get_player_captured(&self) -> (r: usize)
        ensures
            r == self.captured,
    {
        self.captured
    }

    /// Records one capture worth `capture_range` stones.
    pub fn add_capture(&mut self, capture_range: usize)
        requires
            old(self).captured + capture_range <= usize::MAX,
        ensures
            *final(self) == (Player {
                captured: (old(self).captured + capture_range) as usize,
                ..*old(self)
            }),
    {
        self.captured = self.captured + capture_range;
    }
}

/// Both sides of one game, the side to move, and the game's capture
/// parameters.
#[derive(PartialEq, Eq, Structural, Clone, Copy, Debug, Hash)]
pub struct Players {
    /// The black player.
    pub player1: Player,
    /// The white player.
    pub player2: Player,
    /// A copy of whichever player is to move.
    pub current_player: Player,
    /// Captured stones needed to win by capture.
    pub captured_nb: usize,
    /// Stones removed by one capture.
    pub capture_range: usize,
}

/// The player record of the given side: black is `player1`, white
/// `player2`.
pub open spec fn spec_get_player(p: Players, color: Color) -> Player {
    match color {
        Color::Black => p.player1,
        Color::White => p.player2,
    }
}

/// `p` with the move handed to the other side: the current-player
/// copy becomes the other stored player record.
pub open spec fn spec_next_player(p: Players) -> Players {
    if p.current_player.color == p.player1.color {
        Players { current_player: p.player2, ..p }
    } else {
        Players { current_player: p.player1, ..p }
    }
}

/// Whether the game is already won by capture, and by whom: the first
/// player whose capture count has reached the goal.
pub open spec fn spec_players_finished(p: Players) -> (bool, Option<Color>) {
    if p.player1.captured >= p.captured_nb {
        (true, Some(p.player1.color))
    } else if p.player2.captured >= p.captured_nb {
        (true, Some(p.player2.color))
    } else {
        (false, None)
    }
}

impl Players {
    /// `player1` plays black, `player2` white, and the capture
    /// parameters lie inside the accepted limits.
    pub open spec fn wf(self) -> bool {
        &&& self.player1.color == Color::Black
        &&& self.player2.color == Color::White
        &&& self.captured_nb <= CAPTURED_NB_LIMIT
        &&& self.capture_range <= CAPTURE_RANGE_LIMIT
    }

    /// Pairs the two sides; the black player moves first.
    pub fn new(player1: Player, player2: Player, captured_nb: usize, capture_range: usize) -> (r:
        Players)
        requires
            player1.color == Color::Black,
            player2.color == Color::White,
            captured_nb <= CAPTURED_NB_LIMIT,
            capture_range <= CAPTURE_RANGE_LIMIT,
        ensures
            r == (Players { player1, player2, current_player: player1, captured_nb, capture_range }),
            r.wf(),
    {
        Players { player1, player2, current_player: player1, captured_nb, capture_range }
    }

    /// Clears both capture counts and gives black the move again.
    pub fn reset(&mut self)
        ensures
            final(self).player1 == (Player { captured: 0, ..old(self).player1 }),
            final(self).player2 == (Player { captured: 0, ..old(self).player2 }),
            final(self).current_player == final(self).player1,
            final(self).captured_nb == old(self).captured_nb,
            final(self).capture_range == old(self).capture_range,
            old(self).wf() ==> final(self).wf(),
    {
        self.player1.reset();
        self.player2.reset();
        self.current_player = self.player1;
    }

    /// Hands the move to the other side.
    pub fn next_player(&mut self)
        ensures
            *final(self) == spec_next_player(*old(self)),
            final(self).current_player == (if old(self).current_player.color
                == old(self).player1.color {
                old(self).player2
            } else {
                old(self).player1
            }),
            final(self).player1 == old(self).player1,
            final(self).player2 == old(self).player2,
            final(self).captured_nb == old(self).captured_nb,
            final(self).capture_range == old(self).capture_range,
            old(self).wf() ==> final(self).wf(),
    {
        match self.current_player.get_player_color() == self.player1.get_player_color() {
            true => self.current_player = self.player2,
            _ => self.current_player = self.player1,
        }
    }

    /// Whether either side has reached the capture goal, and which.
    pub fn is_finished(&self) -> (r: (bool, Option<Color>))
        ensures
            r == spec_players_finished(*self),
    {
        if self.player1.get_player_captured() >= self.get_captured_nb() {
            (true, Some(self.player1.color))
        } else if self.player2.get_player_captured() >= self.get_captured_nb() {
            (true, Some(self.player2.color))
        } else {
            (false, None)
        }
    }

    /// The player record of the given side.
    pub fn get_player(&self, color: Color) -> (r: Player)
        ensures
            r == spec_get_player(*self, color),
    {
        match color {
            Color::Black => self.player1,
            _ => self.player2,
        }
    }

    /// The side to move.
    pub fn get_current_player(&self) -> (r: Player)
        ensures
            r == self.current_player,
    {
        self.current_player
    }

    /// Toggles the type of the given side, keeping the current-player
    /// copy in step when it is that side's.
    pub fn change_player_type(&mut self, color: Color)
        ensures
            final(self).captured_nb == old(self).captured_nb,
            final(self).capture_range == old(self).capture_range,
            color == Color::Black ==> final(self).player1.color == old(self).player1.color
                && final(self).player1.captured == old(self).player1.captured
                && final(self).player2 == old(self).player2,
            color == Color::White ==> final(self).player2.color == old(self).player2.color
                && final(self).player2.captured == old(self).player2.captured
                && final(self).player1 == old(self).player1,
            old(self).current_player.color != color
                ==> final(self).current_player == old(self).current_player,
            old(self).wf() ==> final(self).wf(),
    {
        match color {
            Color::Black => self.player1.change_player_type(),
            _ => self.player2.change_player_type(),
        }
        if self.current_player.get_player_color() == color {
            self.current_player.change_player_type();
        }
    }

    /// The capture goal of this game.
    pub fn get_captured_nb(&self) -> (r: usize)
        ensures
            r == self.captured_nb,
    {
        self.captured_nb
    }

    /// The capture span of this game.
    pub fn get_capture_range(&self) -> (r: usize)
        ensures
            r == self.capture_range,
    {
        self.capture_range
    }

    /// Credits one capture to the player of the given side.
    pub fn add_capture(&mut self, color: Color)
        requires
            spec_get_player(*old(self), color).captured + old(self).capture_range <= usize::MAX,
        ensures
            final(self).captured_nb == old(self).captured_nb,
            final(self).capture_range == old(self).capture_range,
            final(self).current_player == old(self).current_player,
            spec_get_player(*final(self), color) == (Player {
                captured: (spec_get_player(*old(self), color).captured
                    + old(self).capture_range) as usize,
                ..spec_get_player(*old(self), color)
            }),
            spec_get_player(*final(self), spec_inverse(color)) == spec_get_player(
                *old(self),
                spec_inverse(color),
            ),
            old(self).wf() ==> final(self).wf(),
    {
        let range = self.get_capture_range();
        match color {
            Color::Black => self.player1.add_capture(range),
            _ => self.player2.add_capture(range),
        }
    }
}

} // verus!
