//! The strategy family: interchangeable decision policies that pick a move
//! for the side to move by searching the game tree.

use vstd::prelude::*;

use crate::board::Board;
use crate::board::Move;

pub mod minimax;
pub mod user;

verus! {

/// A decision policy with one operation: choose a move for the side to move.
pub trait Strategy {
    /// Asking for a move when some explored decision point has no
    /// pseudo-legal moves at all is a caller error under this engine's error
    /// model, which makes such a selection fatal. Rather than fail, the
    /// strategies here report that outcome as `None`, and each
    /// implementation's contract pins exactly the boards on which that
    /// happens. Callers that must not see `None` keep the obligation of
    /// having already observed a non-Playing win state.
    fn choose_move(&mut self, board: &Board) -> (mv: Option<Move>)
        requires
            board@.wf(),
            board@.moves_since_progress + 256 < usize::MAX,
    ;
}

} // verus!
