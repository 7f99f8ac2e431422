//! The `Reverse` card: chains like a normal card, but in the opposite
//! direction — pushing it east actually pushes it west.
use vstd::prelude::*;

use crate::board::Board;
use crate::board::Index;
use crate::board::spec_count;
use crate::board::spec_valid_index;
use crate::card::Normal;
use crate::card::PushStatus;
use crate::card::spec_can_push_normal;
use crate::card::spec_push_fuel;
use crate::card::spec_push_normal;
use crate::card::spec_same_cards;
use crate::moved::MovedSet;
use crate::types::Direction;
use crate::types::spec_opposite;

verus! {

#[derive(Debug, Clone, Copy, PartialEq, Eq, Structural, Default)]
pub struct Reverse {}

impl Reverse {
    /// Chain like a normal card, with the direction negated.
    pub fn push(board: &mut Board, self_index: Index, direction: Direction, depth: usize) -> (r:
        MovedSet)
        requires
            old(board).wf(),
            spec_valid_index(old(board)@, self_index),
            depth <= spec_count(old(board)@) + 2,
        ensures
            final(board).wf(),
            spec_same_cards(old(board)@, final(board)@),
            (final(board)@, r@) == spec_push_normal(
                old(board)@,
                self_index,
                spec_opposite(direction),
                depth as nat,
                spec_count(old(board)@),
            ),
        decreases spec_push_fuel(spec_count(old(board)@), depth as nat), 2int,
    {
        Normal::push(board, self_index, direction.opposite(), depth)
    }

    pub fn can_push(board: &Board, self_index: Index, direction: Direction, depth: usize) -> (r:
        PushStatus)
        requires
            board.wf(),
            spec_valid_index(board@, self_index),
            depth <= spec_count(board@) + 2,
        ensures
            r is Fail <==> spec_can_push_normal(
                board@,
                self_index,
                spec_opposite(direction),
                depth as nat,
                spec_count(board@),
            ) is None,
            r matches PushStatus::Success(n) ==> Some(n as nat) == spec_can_push_normal(
                board@,
                self_index,
                spec_opposite(direction),
                depth as nat,
                spec_count(board@),
            ),
        decreases spec_push_fuel(spec_count(board@), depth as nat), 2int,
    {
        Normal::can_push(board, self_index, direction.opposite(), depth)
    }
}

} // verus!
