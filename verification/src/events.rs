//! What a front end has to offer to a match.

use vstd::prelude::*;
use crate::chip::ChipType;
use crate::dummy_grid::DummyGrid;

verus! {

/// The calls that a match makes on its front end: a console, a scripted player, a remote
/// session.
pub trait GameEvents {
    fn introduction(&self);

    fn show_grid(&self, grid: &DummyGrid);

    fn player_turn_message(&self, p1_turn: bool);

    fn player_turn(&self, col_size: usize) -> Result<(ChipType, usize), ()>;

    fn selected_column(&self, player: String, chip_type: ChipType, col: usize);

    fn animate_chip(&self);

    fn invalid_move(&self);

    fn game_over(&self, winner: String);
}

} // verus!
