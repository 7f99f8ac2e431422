//! The `Double` card: a distance-2 pusher. Its push is the base chain push
//! issued twice in sequence; its check falls back to a genuine two-step
//! lookahead when the cell directly ahead cannot be pushed. (The lookahead
//! semantics is the chosen reading of this variant: a blocked or empty
//! adjacent cell defers to whatever stands two cells away.)
use vstd::prelude::*;

use crate::board::Board;
use crate::board::Index;
use crate::board::spec_count;
use crate::board::spec_valid_index;
use crate::card::CardData;
use crate::card::Normal;
use crate::card::PushStatus;
use crate::card::lemma_can_push_bound;
use crate::card::lemma_same_cards_count;
use crate::card::spec_can_push_double;
use crate::card::spec_can_push_double_far;
use crate::card::spec_can_push_normal;
use crate::card::spec_push_double;
use crate::card::spec_push_fuel;
use crate::card::spec_same_cards;
use crate::moved::MovedSet;
use crate::types::Direction;

verus! {

#[derive(Debug, Clone, Copy, PartialEq, Eq, Structural, Default)]
pub struct Double {}

impl Double {
    /// Issue the base chain push twice; the second push happens only if
    /// the first moved something.
    pub fn push(board: &mut Board, self_index: Index, direction: Direction, depth: usize) -> (r:
        MovedSet)
        requires
            old(board).wf(),
            spec_valid_index(old(board)@, self_index),
            depth <= spec_count(old(board)@) + 2,
        ensures
            final(board).wf(),
            spec_same_cards(old(board)@, final(board)@),
            (final(board)@, r@) == spec_push_double(
                old(board)@,
                self_index,
                direction,
                depth as nat,
                spec_count(old(board)@),
            ),
        decreases spec_push_fuel(spec_count(old(board)@), depth as nat), 2int,
    {
        let ghost s = board@;
        let pushed = Normal::push(board, self_index, direction, depth);
        if pushed.is_empty() {
            return pushed;
        }
        proof {
            lemma_same_cards_count(s, board@);
            assert(spec_valid_index(board@, self_index));
        }
        let mut second = Normal::push(board, self_index, direction, depth);
        proof {
            lemma_same_cards_count(s, board@);
        }
        second.union_with(&pushed);
        second
    }

    /// The base check; where it reports nothing to push or a failure, a
    /// two-step lookahead decides instead.
    pub fn can_push(board: &Board, self_index: Index, direction: Direction, depth: usize) -> (r:
        PushStatus)
        requires
            board.wf(),
            spec_valid_index(board@, self_index),
            depth <= spec_count(board@) + 2,
        ensures
            r is Fail <==> spec_can_push_double(
                board@,
                self_index,
                direction,
                depth as nat,
                spec_count(board@),
            ) is None,
            r matches PushStatus::Success(n) ==> Some(n as nat) == spec_can_push_double(
                board@,
                self_index,
                direction,
                depth as nat,
                spec_count(board@),
            ),
        decreases spec_push_fuel(spec_count(board@), depth as nat), 2int,
    {
        let my_position = board.get_card(self_index).unwrap().position;
        let cap0 = board.number_of_cards();
        if depth > cap0 {
            return PushStatus::Fail;
        }
        let near = Normal::can_push(board, self_index, direction, depth);
        match near {
            PushStatus::Success(n) => {
                if n >= 1 {
                    return PushStatus::Success(n);
                }
            },
            PushStatus::Fail => {},
        }
        // the two-step lookahead
        let two = match my_position.step(direction) {
            None => None,
            Some(mid) => mid.step(direction),
        };
        match two {
            None => PushStatus::Success(0),
            Some(two_pos) => {
                match board.get_card_position(two_pos) {
                    None => PushStatus::Success(0),
                    Some(next_index) => {
                        proof {
                            crate::board::lemma_wf_bounds(*board);
                            let w = crate::board::spec_slot_with(board@, two_pos);
                            assert(crate::board::spec_occupied_at(board@, w, two_pos));
                            lemma_can_push_bound(
                                board@,
                                next_index,
                                direction,
                                depth as nat + 1,
                                spec_count(board@),
                            );
                        }
                        match CardData::can_push(board, next_index, direction, depth) {
                            PushStatus::Success(n) => PushStatus::Success(n + 1),
                            PushStatus::Fail => PushStatus::Success(0),
                        }
                    },
                }
            },
        }
    }
}

} // verus!
