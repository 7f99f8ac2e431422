//! The ghost card: ignores occupancy entirely and teleports to the first
//! empty cell in the push direction.
use vstd::prelude::*;

use crate::board::Board;
use crate::board::Index;
use crate::board::spec_count;
use crate::board::spec_has_card_at;
use crate::board::spec_valid_index;
use crate::card::PushStatus;
use crate::card::spec_can_push_ghost;
use crate::card::spec_ghost_dest;
use crate::card::spec_push_ghost;
use crate::card::spec_same_cards;
use crate::moved::MovedSet;
use crate::types::Direction;
use crate::types::Position;

verus! {

#[derive(Debug, Clone, Copy, PartialEq, Eq, Structural, Default)]
pub struct GhostCard {}

impl GhostCard {
    /// Walk cell by cell in `direction` until an empty cell is found, and
    /// teleport there in one step. The walk is bounded by one more than
    /// the card count; past that bound, or at the grid edge, nothing moves.
    pub fn push(board: &mut Board, self_index: Index, direction: Direction, _depth: usize) -> (r:
        MovedSet)
        requires
            old(board).wf(),
            spec_valid_index(old(board)@, self_index),
        ensures
            final(board).wf(),
            spec_same_cards(old(board)@, final(board)@),
            (final(board)@, r@) == spec_push_ghost(
                old(board)@,
                self_index,
                direction,
                spec_count(old(board)@),
            ),
    {
        let ghost s = board@;
        let ghost cap = spec_count(s);
        let my_position = board.get_card(self_index).unwrap().position;
        let cap0 = board.number_of_cards();
        proof {
            crate::board::lemma_wf_bounds(*board);
        }
        let bound = cap0 + 1;
        let mut k: usize = 0;
        let mut p = my_position;
        let mut dest: Option<Position> = None;
        let mut stop = false;
        while !stop && k < bound
            invariant
                board@ == s,
                board.wf(),
                cap == spec_count(s),
                bound == cap + 1,
                0 <= k <= bound,
                dest is None && !stop ==> spec_ghost_dest(s, my_position, direction, cap + 1)
                    == spec_ghost_dest(s, p, direction, (cap + 1 - k) as nat),
                dest matches Some(q) ==> stop && spec_ghost_dest(s, my_position, direction, cap + 1)
                    == Some(q) && !spec_has_card_at(s, q),
                stop && dest is None ==> spec_ghost_dest(s, my_position, direction, cap + 1)
                    is None,
            decreases bound - k, (if stop { 0int } else { 1int }),
        {
            match p.step(direction) {
                None => {
                    stop = true;
                },
                Some(q) => {
                    if board.get_card_position(q).is_some() {
                        p = q;
                        k = k + 1;
                    } else {
                        dest = Some(q);
                        stop = true;
                    }
                },
            }
        }
        proof {
            if !stop && k == bound {
                assert(spec_ghost_dest(s, p, direction, 0) is None);
            }
        }
        match dest {
            Some(q) => {
                board.move_card(self_index, q);
                let mut moved = MovedSet::new();
                moved.insert(self_index);
                proof {
                    assert(moved@ =~= seq![self_index]);
                }
                moved
            },
            None => MovedSet::new(),
        }
    }

    /// A ghost is never blocked: the check succeeds with a chain of one
    /// exactly when the cell directly ahead is occupied — whatever that
    /// card is, since a ghost's push ignores occupancy and teleports past
    /// any run of cards — and with a chain of zero when it is empty.
    pub fn can_push(board: &Board, self_index: Index, direction: Direction, _depth: usize) -> (r:
        PushStatus)
        requires
            board.wf(),
            spec_valid_index(board@, self_index),
        ensures
            r is Fail <==> spec_can_push_ghost(board@, self_index, direction) is None,
            r matches PushStatus::Success(n) ==> Some(n as nat) == spec_can_push_ghost(
                board@,
                self_index,
                direction,
            ),
    {
        let my_position = board.get_card(self_index).unwrap().position;
        match my_position.step(direction) {
            None => PushStatus::Success(0),
            Some(next_position) => {
                if board.get_card_position(next_position).is_some() {
                    PushStatus::Success(1)
                } else {
                    PushStatus::Success(0)
                }
            },
        }
    }
}

} // verus!
