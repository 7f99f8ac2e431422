//! The `Score` card: one of the two fixed, unowned anchors whose
//! neighbours are scored. It chains like a normal card when pushed, and is
//! only ever put on the board by the board constructor, never by a player
//! move.
use vstd::prelude::*;

use crate::board::Board;
use crate::board::Index;
use crate::board::spec_count;
use crate::board::spec_valid_index;
use crate::card::Normal;
use crate::card::PushStatus;
use crate::card::spec_can_push_normal;
use crate::card::spec_push_fuel;
use crate::card::spec_push_normal;
use crate::card::spec_same_cards;
use crate::moved::MovedSet;
use crate::types::Direction;

verus! {

#[derive(Debug, Clone, Copy, PartialEq, Eq, Structural, Default)]
pub struct Score {}

impl Score {
    /// An anchor chains exactly like a normal card.
    pub fn push(board: &mut Board, self_index: Index, direction: Direction, depth: usize) -> (r:
        MovedSet)
        requires
            old(board).wf(),
            spec_valid_index(old(board)@, self_index),
            depth <= spec_count(old(board)@) + 2,
        ensures
            final(board).wf(),
            spec_same_cards(old(board)@, final(board)@),
            (final(board)@, r@) == spec_push_normal(
                old(board)@,
                self_index,
                direction,
                depth as nat,
                spec_count(old(board)@),
            ),
        decreases spec_push_fuel(spec_count(old(board)@), depth as nat), 2int,
    {
        Normal::push(board, self_index, direction, depth)
    }

    pub fn can_push(board: &Board, self_index: Index, direction: Direction, depth: usize) -> (r:
        PushStatus)
        requires
            board.wf(),
            spec_valid_index(board@, self_index),
            depth <= spec_count(board@) + 2,
        ensures
            r is Fail <==> spec_can_push_normal(
                board@,
                self_index,
                direction,
                depth as nat,
                spec_count(board@),
            ) is None,
            r matches PushStatus::Success(n) ==> Some(n as nat) == spec_can_push_normal(
                board@,
                self_index,
                direction,
                depth as nat,
                spec_count(board@),
            ),
        decreases spec_push_fuel(spec_count(board@), depth as nat), 2int,
    {
        Normal::can_push(board, self_index, direction, depth)
    }
}

} // verus!
