//! The `Normal` card: the base recursive chain push, and the placement
//! rule that every placeable variant shares.
use vstd::prelude::*;

use crate::board::Board;
use crate::board::Index;
use crate::board::spec_card_index_at;
use crate::board::spec_count;
use crate::board::spec_has_card_at;
use crate::board::spec_valid_index;
use crate::card::CardData;
use crate::card::PlaceStatus;
use crate::card::PushStatus;
use crate::card::lemma_can_push_bound;
use crate::card::lemma_same_cards_count;
use crate::card::spec_can_push;
use crate::card::spec_can_push_normal;
use crate::card::spec_chain_bound;
use crate::card::spec_placement_rule;
use crate::card::spec_pos_at;
use crate::card::spec_push;
use crate::card::spec_push_fuel;
use crate::card::spec_push_normal;
use crate::card::spec_same_cards;
use crate::moved::MovedSet;
use crate::types::Direction;
use crate::types::Position;

verus! {

#[derive(Debug, Clone, Copy, PartialEq, Eq, Structural, Default)]
pub struct Normal {}

impl Normal {
    /// Push the card at `self_index` one cell in `direction`: push the
    /// chain ahead first, then step into the vacated cell.
    pub fn push(board: &mut Board, self_index: Index, direction: Direction, depth: usize) -> (r:
        MovedSet)
        requires
            old(board).wf(),
            spec_valid_index(old(board)@, self_index),
            depth <= spec_count(old(board)@) + 2,
        ensures
            final(board).wf(),
            spec_same_cards(old(board)@, final(board)@),
            (final(board)@, r@) == spec_push_normal(
                old(board)@,
                self_index,
                direction,
                depth as nat,
                spec_count(old(board)@),
            ),
        decreases spec_push_fuel(spec_count(old(board)@), depth as nat), 1int,
    {
        let ghost s = board@;
        let ghost cap = spec_count(s);
        let my_position = board.get_card(self_index).unwrap().position;
        let cap0 = board.number_of_cards();
        if depth > cap0 {
            return MovedSet::new();
        }
        match my_position.step(direction) {
            None => MovedSet::new(),
            Some(next_position) => {
                match board.get_card_position(next_position) {
                    Some(next_index) => {
                        proof {
                            crate::board::lemma_wf_bounds(*board);
                            let w = crate::board::spec_slot_with(board@, next_position);
                            assert(crate::board::spec_occupied_at(board@, w, next_position));
                        }
                        let mut moved = CardData::push(board, next_index, direction, depth + 1);
                        if moved.is_empty() {
                            return moved;
                        }
                        proof {
                            lemma_same_cards_count(s, board@);
                            assert(spec_valid_index(board@, self_index));
                        }
                        let cur_position = board.get_card(self_index).unwrap().position;
                        if cur_position == my_position {
                            match board.get_card_position(next_position) {
                                None => {
                                    board.move_card(self_index, next_position);
                                    moved.insert(self_index);
                                },
                                Some(_) => {},
                            }
                        }
                        moved
                    },
                    None => {
                        let mut moved = MovedSet::new();
                        board.move_card(self_index, next_position);
                        moved.insert(self_index);
                        proof {
                            assert(moved@ =~= seq![self_index]);
                        }
                        moved
                    },
                }
            },
        }
    }

    /// Whether the card at `self_index` can be pushed in `direction`, and
    /// the length of the chain it would move.
    pub fn can_push(board: &Board, self_index: Index, direction: Direction, depth: usize) -> (r:
        PushStatus)
        requires
            board.wf(),
            spec_valid_index(board@, self_index),
            depth <= spec_count(board@) + 2,
        ensures
            r is Fail <==> spec_can_push_normal(
                board@,
                self_index,
                direction,
                depth as nat,
                spec_count(board@),
            ) is None,
            r matches PushStatus::Success(n) ==> Some(n as nat) == spec_can_push_normal(
                board@,
                self_index,
                direction,
                depth as nat,
                spec_count(board@),
            ),
        decreases spec_push_fuel(spec_count(board@), depth as nat), 1int,
    {
        let my_position = board.get_card(self_index).unwrap().position;
        let cap0 = board.number_of_cards();
        if depth > cap0 {
            return PushStatus::Fail;
        }
        match my_position.step(direction) {
            None => PushStatus::Fail,
            Some(next_position) => {
                match board.get_card_position(next_position) {
                    Some(next_index) => {
                        proof {
                            crate::board::lemma_wf_bounds(*board);
                            let w = crate::board::spec_slot_with(board@, next_position);
                            assert(crate::board::spec_occupied_at(board@, w, next_position));
                            lemma_can_push_bound(
                                board@,
                                next_index,
                                direction,
                                depth as nat + 1,
                                spec_count(board@),
                            );
                        }
                        match CardData::can_push(board, next_index, direction, depth) {
                            PushStatus::Success(n) => PushStatus::Success(n + 1),
                            PushStatus::Fail => PushStatus::Fail,
                        }
                    },
                    None => PushStatus::Success(0),
                }
            },
        }
    }
}

/// The shared placement step: add the card, then push it once into the
/// target lane.
pub(crate) fn normal_placement(
    board: &mut Board,
    player: crate::types::Player,
    position: Position,
    direction: Direction,
    card_data: CardData,
) -> (r: (Index, MovedSet))
    requires
        old(board).wf(),
        !spec_has_card_at(old(board)@, position),
        spec_count(old(board)@) < crate::board::CARD_LIMIT,
    ensures
        final(board).wf(),
        ({
            let added = crate::board::spec_add(old(board)@, player, position, card_data);
            &&& r.0 == added.1
            &&& (final(board)@, r.1@) == spec_push(
                added.0,
                added.1,
                direction,
                1,
                spec_count(added.0),
            )
        }),
{
    let idx = board.add_card(player, position, card_data);
    let moved = CardData::push(board, idx, direction, 0);
    (idx, moved)
}

/// The shared placement-legality rule: there must be an occupied cell
/// directly ahead in the push direction.
pub(crate) fn normal_placement_rule(board: &Board, position: Position, direction: Direction) -> (r:
    PlaceStatus)
    requires
        board.wf(),
    ensures
        r is Success <==> spec_placement_rule(board@, position, direction),
{
    match position.step(direction) {
        None => PlaceStatus::Fail,
        Some(q) => {
            if board.get_card_position(q).is_some() {
                PlaceStatus::Success
            } else {
                PlaceStatus::Fail
            }
        },
    }
}

} // verus!
