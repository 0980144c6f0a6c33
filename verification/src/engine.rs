//! The session controller.
//!
//! Holds the movement-timing configuration and the continuation state: the
//! queued action list, a read cursor, and the board expected while the plan
//! plays back. One decision per call; a queued plan is replayed action by
//! action as long as the incoming board's fingerprint still matches the one
//! recorded when the plan was generated.

use vstd::prelude::*;

use crate::board::{from_flat_spec, spec_hash, Board};
use crate::evaluation::{spec_weights, EvaluationWeights, Strategy};
use crate::pieces::{spec_from_i32, PieceType};
use crate::search::{
    action_name, action_string, joined_actions, plan_ok_for_weights, search_plan_ok, Action,
    SearchEngine,
};

verus! {

/// The shape a piece id decodes to: ids 0 through 6 name the seven shapes;
/// anything else silently falls back to the first shape.
pub open spec fn decoded_piece(value: i32) -> PieceType {
    if spec_from_i32(value) is Some {
        spec_from_i32(value)->0
    } else {
        PieceType::I
    }
}

/// Per-session decision engine: the movement-timing configuration plus the
/// continuation state that lets repeated polling during one placement replay
/// the queued plan instead of re-planning.
pub struct TetrisEngine {
    pub search_engine: SearchEngine,
    pub current_move_sequence: Vec<Action>,
    pub sequence_index: usize,
    pub expected_board: Option<Board>,
    pub arr: u32,
    pub das: u32,
    pub sdf: u32,
    pub dcd: u32,
    pub debug: bool,
}

/// A queued plan is still being replayed: the queue is nonempty, the cursor
/// has not exhausted it, and the incoming board's fingerprint equals the one
/// recorded when the plan was generated.
pub open spec fn continuation_active(e: TetrisEngine, b: Seq<u32>) -> bool {
    &&& e.current_move_sequence@.len() > 0
    &&& e.sequence_index < e.current_move_sequence@.len()
    &&& e.expected_board is Some
    &&& spec_hash(e.expected_board->0.rows@) == spec_hash(b)
}

impl TetrisEngine {
    /// A fresh controller: no queued plan, default timing configuration.
    pub fn new() -> (e: Self)
        ensures
            e.current_move_sequence@.len() == 0,
            e.sequence_index == 0,
            e.expected_board is None,
            e.arr == 16,
            e.das == 133,
            e.sdf == u32::MAX,
            e.dcd == 0,
            e.debug == false,
    {
        Self {
            search_engine: SearchEngine::new(),
            current_move_sequence: Vec::new(),
            sequence_index: 0,
            expected_board: None,
            arr: 16,
            das: 133,
            sdf: u32::MAX,
            dcd: 0,
            debug: false,
        }
    }

    /// Sets auto-repeat rate, delayed-auto-shift, soft-drop factor and lock
    /// delay; takes effect on the next planning call. The soft-drop factor
    /// and lock delay are accepted for forward compatibility but not
    /// consumed by planning.
    pub fn configure_movement(&mut self, arr: u32, das: u32, sdf: u32, dcd: u32)
        ensures
            final(self).arr == arr,
            final(self).das == das,
            final(self).sdf == sdf,
            final(self).dcd == dcd,
            final(self).current_move_sequence@ == old(self).current_move_sequence@,
            final(self).sequence_index == old(self).sequence_index,
            final(self).expected_board == old(self).expected_board,
            final(self).debug == old(self).debug,
    {
        self.arr = arr;
        self.das = das;
        self.sdf = sdf;
        self.dcd = dcd;
    }

    /// Toggles verbose diagnostics; no effect on decision outputs.
    pub fn configure_logging(&mut self, debug: bool)
        ensures
            final(self).debug == debug,
            final(self).arr == old(self).arr,
            final(self).das == old(self).das,
            final(self).sdf == old(self).sdf,
            final(self).dcd == old(self).dcd,
            final(self).current_move_sequence@ == old(self).current_move_sequence@,
            final(self).sequence_index == old(self).sequence_index,
            final(self).expected_board == old(self).expected_board,
    {
        self.debug = debug;
    }

    /// One decision tick. While a queued plan is active and the board's
    /// fingerprint is unchanged, returns the next queued action and advances
    /// the cursor; otherwise enumerates, selects, plans, caches the new plan
    /// together with the board it was planned against, and returns the
    /// plan's first action.
    pub fn get_best_move(
        &mut self,
        board: &[i32],
        current_piece: i32,
        next_piece: i32,
        strategy: Strategy,
    ) -> (action: String)
        ensures
            final(self).arr == old(self).arr,
            final(self).das == old(self).das,
            final(self).sdf == old(self).sdf,
            final(self).dcd == old(self).dcd,
            final(self).debug == old(self).debug,
            ({
                let b = from_flat_spec(board@);
                if continuation_active(*old(self), b) {
                    &&& action@ == action_name(
                        old(self).current_move_sequence@[old(self).sequence_index as int],
                    )
                    &&& final(self).current_move_sequence@ == old(self).current_move_sequence@
                    &&& final(self).sequence_index == old(self).sequence_index + 1
                    &&& final(self).expected_board == old(self).expected_board
                } else {
                    &&& plan_ok_for_weights(
                        b,
                        decoded_piece(current_piece),
                        spec_weights(strategy),
                        old(self).arr,
                        final(self).current_move_sequence@,
                    )
                    &&& final(self).current_move_sequence@.len() >= 1
                    &&& action@ == action_name(final(self).current_move_sequence@[0])
                    &&& final(self).sequence_index == 1
                    &&& final(self).expected_board is Some
                    &&& final(self).expected_board->0.rows@ == b
                }
            }),
    {
        let board_obj = Board::from_flat_array(board);
        if self.current_move_sequence.len() > 0 && self.sequence_index
            < self.current_move_sequence.len() {
            let matches_expected = match &self.expected_board {
                Some(expected) => expected.hash() == board_obj.hash(),
                None => false,
            };
            if matches_expected {
                let next_move = self.current_move_sequence[self.sequence_index];
                self.sequence_index += 1;
                return action_string(next_move);
            }
        }
        let piece_type = match PieceType::from_i32(current_piece) {
            Some(t) => t,
            None => PieceType::I,
        };
        let _next_piece_type = PieceType::from_i32(next_piece);
        let weights = EvaluationWeights::new(strategy);
        let plan = self.search_engine.find_best_move_for_strategy(
            &board_obj,
            piece_type,
            &weights,
            self.arr,
            self.das,
        );
        self.current_move_sequence = plan;
        self.sequence_index = 0;
        let final_board = self.calculate_final_board(
            &board_obj,
            piece_type,
            &self.current_move_sequence,
        );
        self.expected_board = Some(final_board);
        if self.current_move_sequence.len() > 0 {
            let next_move = self.current_move_sequence[self.sequence_index];
            self.sequence_index += 1;
            action_string(next_move)
        } else {
            action_string(Action::HardDrop)
        }
    }

    /// A whole fresh plan as a comma-joined action list. Always regenerates:
    /// the continuation state is neither consulted nor touched.
    pub fn get_full_move_sequence(
        &mut self,
        board: &[i32],
        current_piece_idx: i32,
        next_piece_idx: i32,
        strategy: Strategy,
    ) -> (s: String)
        ensures
            *final(self) == *old(self),
            exists|plan: Seq<Action>|
                search_plan_ok(
                    from_flat_spec(board@),
                    decoded_piece(current_piece_idx),
                    strategy,
                    old(self).arr,
                    plan,
                ) && s@ == #[trigger] joined_actions(plan),
    {
        let board_obj = Board::from_flat_array(board);
        let piece_type = match PieceType::from_i32(current_piece_idx) {
            Some(t) => t,
            None => PieceType::I,
        };
        let next_piece_type = PieceType::from_i32(next_piece_idx);
        let search_result = self.search_engine.search(
            &board_obj,
            piece_type,
            next_piece_type,
            strategy,
            self.arr,
            self.das,
            true,
        );
        search_result.best_move
    }

    /// The board expected to persist while the plan plays back. Continuation
    /// compares against the board as it stood when planning started, so this
    /// is the pre-move board unchanged: the host's board argument holds
    /// settled blocks only, never the live piece.
    fn calculate_final_board(
        &self,
        board: &Board,
        _piece_type: PieceType,
        _sequence: &Vec<Action>,
    ) -> (b: Board)
        ensures
            b == *board,
    {
        board.clone()
    }
}

} // verus!
