//! The `Redirect` card: on push it fans the push out into the push
//! direction and its two perpendiculars, then steps one cell forward if
//! its own cell was left undisturbed.
use vstd::prelude::*;

use crate::board::Board;
use crate::board::Index;
use crate::board::spec_count;
use crate::board::spec_valid_index;
use crate::card::CardData;
use crate::card::Normal;
use crate::card::PushStatus;
use crate::card::lemma_same_cards_count;
use crate::card::lemma_same_cards_trans;
use crate::card::spec_can_push_normal;
use crate::card::spec_push_fuel;
use crate::card::spec_push_redirect;
use crate::card::spec_redirect_arm;
use crate::card::spec_same_cards;
use crate::moved::MovedSet;
use crate::types::Direction;
use crate::types::Position;

verus! {

#[derive(Debug, Clone, Copy, PartialEq, Eq, Structural, Default)]
pub struct Redirect {}

impl Redirect {
    /// Fan the push into `direction` and its two perpendiculars (in that
    /// order), then step one cell in `direction` if this card still stands
    /// where it started and the cell ahead is free. A fan whose forward
    /// arm had a neighbour that refused to move is an empty move.
    #[verifier::rlimit(80)]
    pub fn push(board: &mut Board, self_index: Index, direction: Direction, depth: usize) -> (r:
        MovedSet)
        requires
            old(board).wf(),
            spec_valid_index(old(board)@, self_index),
            depth <= spec_count(old(board)@) + 2,
        ensures
            final(board).wf(),
            spec_same_cards(old(board)@, final(board)@),
            (final(board)@, r@) == spec_push_redirect(
                old(board)@,
                self_index,
                direction,
                depth as nat,
                spec_count(old(board)@),
            ),
        decreases spec_push_fuel(spec_count(old(board)@), depth as nat), 2int,
    {
        let ghost s = board@;
        let ghost cap = spec_count(s);
        let my_position = board.get_card(self_index).unwrap().position;
        let cap0 = board.number_of_cards();
        if depth > cap0 {
            return MovedSet::new();
        }
        let ghost a1 = spec_redirect_arm(s, my_position, direction, depth as nat, cap);
        let mut moved_cards = MovedSet::new();

        let (m1, had1) = Self::arm(board, my_position, direction, depth);
        if had1 && m1.is_empty() {
            return m1;
        }
        moved_cards.union_with(&m1);
        proof {
            assert(board@ == a1.0);
            lemma_same_cards_count(s, board@);
        }
        let ghost a2 = spec_redirect_arm(
            a1.0,
            my_position,
            crate::types::spec_anticlockwise(direction),
            depth as nat,
            cap,
        );

        let (m2, _had2) = Self::arm(board, my_position, direction.anticlockwise(), depth);
        moved_cards.union_with(&m2);
        proof {
            assert(board@ == a2.0);
            lemma_same_cards_trans(s, a1.0, board@);
            lemma_same_cards_count(s, board@);
        }
        let ghost a3 = spec_redirect_arm(
            a2.0,
            my_position,
            crate::types::spec_clockwise(direction),
            depth as nat,
            cap,
        );

        let (m3, _had3) = Self::arm(board, my_position, direction.clockwise(), depth);
        moved_cards.union_with(&m3);
        proof {
            assert(board@ == a3.0);
            lemma_same_cards_trans(s, a2.0, board@);
            lemma_same_cards_count(s, board@);
            assert(spec_valid_index(board@, self_index));
        }

        // step forward if this card's own cell was not disturbed
        let cur_position = board.get_card(self_index).unwrap().position;
        if cur_position == my_position {
            match my_position.step(direction) {
                Some(target) => {
                    match board.get_card_position(target) {
                        None => {
                            board.move_card(self_index, target);
                            moved_cards.insert(self_index);
                        },
                        Some(_) => {},
                    }
                },
                None => {},
            }
        }
        moved_cards
    }

    /// One arm of the fan: push the neighbour of `my_position` in `pdir`,
    /// if there is one; reports whether a neighbour was there.
    fn arm(board: &mut Board, my_position: Position, pdir: Direction, depth: usize) -> (r: (
        MovedSet,
        bool,
    ))
        requires
            old(board).wf(),
            depth <= spec_count(old(board)@),
        ensures
            final(board).wf(),
            spec_same_cards(old(board)@, final(board)@),
            ({
                let a = spec_redirect_arm(
                    old(board)@,
                    my_position,
                    pdir,
                    depth as nat,
                    spec_count(old(board)@),
                );
                (final(board)@, r.0@, r.1) == a
            }),
        decreases spec_push_fuel(spec_count(old(board)@), depth as nat), 1int,
    {
        match my_position.step(pdir) {
            Some(push_position) => {
                match board.get_card_position(push_position) {
                    Some(next_index) => {
                        proof {
                            crate::board::lemma_wf_bounds(*board);
                            let w = crate::board::spec_slot_with(board@, push_position);
                            assert(crate::board::spec_occupied_at(board@, w, push_position));
                        }
                        let m = CardData::push(board, next_index, pdir, depth);
                        (m, true)
                    },
                    None => (MovedSet::new(), false),
                }
            },
            None => (MovedSet::new(), false),
        }
    }

    /// A redirect is pushed like a normal card.
    pub fn can_push(board: &Board, self_index: Index, direction: Direction, depth: usize) -> (r:
        PushStatus)
        requires
            board.wf(),
            spec_valid_index(board@, self_index),
            depth <= spec_count(board@) + 2,
        ensures
            r is Fail <==> spec_can_push_normal(
                board@,
                self_index,
                direction,
                depth as nat,
                spec_count(board@),
            ) is None,
            r matches PushStatus::Success(n) ==> Some(n as nat) == spec_can_push_normal(
                board@,
                self_index,
                direction,
                depth as nat,
                spec_count(board@),
            ),
        decreases spec_push_fuel(spec_count(board@), depth as nat), 2int,
    {
        Normal::can_push(board, self_index, direction, depth)
    }
}

} // verus!
