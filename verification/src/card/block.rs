//! The `Block` card: a dead stop. It never pushes and can never be pushed.
use vstd::prelude::*;

use crate::board::Board;
use crate::board::Index;
use crate::board::spec_count;
use crate::board::spec_valid_index;
use crate::card::PushStatus;
use crate::card::spec_can_push;
use crate::card::spec_push;
use crate::card::spec_same_cards;
use crate::moved::MovedSet;
use crate::types::Direction;

verus! {

#[derive(Debug, Clone, Copy, PartialEq, Eq, Structural, Default)]
pub struct Block {}

impl Block {
    /// Pushing a block moves nothing and leaves the board untouched.
    pub fn push(board: &mut Board, _self_index: Index, _direction: Direction, _depth: usize) -> (r:
        MovedSet)
        requires
            old(board).wf(),
        ensures
            final(board).wf(),
            *final(board) == *old(board),
            spec_same_cards(old(board)@, final(board)@),
            r@ == Seq::<Index>::empty(),
    {
        MovedSet::new()
    }

    /// A block can never be pushed.
    pub fn can_push(_board: &Board, _self_index: Index, _direction: Direction, _depth: usize) -> (r:
        PushStatus)
        ensures
            r is Fail,
    {
        PushStatus::Fail
    }
}

} // verus!
