//! The game state: whose turn it is, the board, and the two hands; move
//! legality, move execution, and move enumeration.
use vstd::prelude::*;

use crate::board::Board;
use crate::board::CARD_LIMIT;
use crate::board::Index;
use crate::board::PlacedCard;
use crate::board::Slot;
use crate::board::spec_captured_list;
use crate::board::spec_card_index_at;
use crate::board::spec_count;
use crate::board::spec_get;
use crate::board::spec_has_card_at;
use crate::board::spec_no_cards_in_direction;
use crate::board::spec_occupied_at;
use crate::board::spec_remove;
use crate::board::spec_remove_list;
use crate::board::spec_removed_pairs;
use crate::board::spec_score;
use crate::board::spec_valid_index;
use crate::card::CardType;
use crate::card::PlaceStatus;
use crate::card::PushStatus;
use crate::card::spec_can_place;
use crate::card::spec_can_push;
use crate::card::spec_place;
use crate::card::spec_push;
use crate::card::spec_to_data;
use crate::card::spec_to_type;
use crate::moved::MovedSet;
use crate::types::Direction;
use crate::types::Player;
use crate::types::Position;
use crate::types::spec_opposite;
use crate::types::spec_step;
use crate::types::spec_other_player;

verus! {

/// A card in a player's hand: ready to play, or cooling down after it was
/// captured or picked back up.
#[derive(Debug, Clone, Copy, PartialEq, Eq, Structural)]
pub enum HeldCard {
    Available(CardType),
    Waiting { card: CardType, turns_until_usable: usize },
}

/// A position in a hand.
#[derive(Debug, Clone, Copy, PartialEq, Eq, Structural)]
pub struct HeldCardIndex(pub usize);

/// Play a hand card onto an empty cell, pushing in `direction`.
#[derive(Debug, Clone, Copy, PartialEq, Eq, Structural)]
pub struct PlaceCardMove {
    pub direction: Direction,
    pub coordinate: Position,
    pub card: HeldCardIndex,
}

/// Push one of the current player's board cards.
#[derive(Debug, Clone, Copy, PartialEq, Eq, Structural)]
pub struct PushCardMove {
    pub place: Index,
    pub direction: Direction,
}

/// Take one of the current player's board cards back into hand.
#[derive(Debug, Clone, Copy, PartialEq, Eq, Structural)]
pub struct PickCardMove {
    pub card: Index,
}

/// One move of the game.
#[derive(Debug, Clone, Copy, PartialEq, Eq, Structural)]
pub enum Move {
    PlaceCard(PlaceCardMove),
    PushCard(PushCardMove),
    PickCard(PickCardMove),
}

/// Both players' scores after a move.
#[derive(Debug, Clone, Copy, PartialEq, Eq, Structural)]
pub struct Score {
    score_a: usize,
    score_b: usize,
}

impl Score {
    /// The given player's score.
    pub fn player(&self, player: Player) -> (r: usize)
        ensures
            r == self.spec_player(player),
    {
        match player {
            Player::A => self.score_a,
            Player::B => self.score_b,
        }
    }

    pub closed spec fn spec_player(self, player: Player) -> usize {
        match player {
            Player::A => self.score_a,
            Player::B => self.score_b,
        }
    }
}

/// The diff of one executed move: what entered the board (with its entry
/// direction), what moved, what left the board, and the resulting score
/// and winner, if any.
#[derive(Debug)]
pub struct MoveResult {
    pub placed: Vec<(Index, Direction, PlacedCard)>,
    pub moved: Vec<(Index, PlacedCard)>,
    pub removed: Vec<(Index, PlacedCard)>,
    pub winner: Option<Player>,
    pub score: Score,
}

/// The mathematical shadow of a [`MoveResult`].
pub ghost struct MoveOutcome {
    pub placed: Seq<(Index, Direction, PlacedCard)>,
    pub moved: Seq<(Index, PlacedCard)>,
    pub removed: Seq<(Index, PlacedCard)>,
    pub winner: Option<Player>,
    pub score_a: nat,
    pub score_b: nat,
}

impl View for MoveResult {
    type V = MoveOutcome;

    open spec fn view(&self) -> MoveOutcome {
        MoveOutcome {
            placed: self.placed@,
            moved: self.moved@,
            removed: self.removed@,
            winner: self.winner,
            score_a: self.score.spec_player(Player::A) as nat,
            score_b: self.score.spec_player(Player::B) as nat,
        }
    }
}

/// One player's hand.
#[derive(Debug)]
pub(crate) struct Hand {
    pub(crate) cards: Vec<HeldCard>,
}

impl Hand {
    pub(crate) fn new(cards: Vec<HeldCard>) -> (r: Hand)
        ensures
            r.cards@ == cards@,
    {
        Hand { cards }
    }
}

/// The game state: whose turn it is, the board, and the two hands.
#[derive(Debug)]
pub struct State {
    turn: Player,
    board: Board,
    hand_a: Hand,
    hand_b: Hand,
}

/// The mathematical shadow of a [`State`].
pub ghost struct StateModel {
    pub turn: Player,
    pub slots: Seq<Slot>,
    pub hand_a: Seq<HeldCard>,
    pub hand_b: Seq<HeldCard>,
}

impl View for State {
    type V = StateModel;

    closed spec fn view(&self) -> StateModel {
        StateModel {
            turn: self.turn,
            slots: self.board@,
            hand_a: self.hand_a.cards@,
            hand_b: self.hand_b.cards@,
        }
    }
}

/// The hand of `p` in the model.
pub open spec fn spec_hand(m: StateModel, p: Player) -> Seq<HeldCard> {
    match p {
        Player::A => m.hand_a,
        Player::B => m.hand_b,
    }
}

/// A hand is well formed: it never holds a score anchor, and a waiting
/// card always has at least one turn left to wait.
pub open spec fn spec_hand_wf(h: Seq<HeldCard>) -> bool {
    forall|i: int|
        0 <= i < h.len() ==> match #[trigger] h[i] {
            HeldCard::Available(t) => t != CardType::Score,
            HeldCard::Waiting { card, turns_until_usable } => card != CardType::Score
                && turns_until_usable >= 1,
        }
}

/// On the board, the unowned cards are exactly the score anchors.
pub open spec fn spec_anchors_wf(s: Seq<Slot>) -> bool {
    forall|i: int|
        0 <= i < s.len() && (#[trigger] s[i]).card is Some ==> (s[i].card->Some_0.belonging_player
            is None <==> spec_to_type(s[i].card->Some_0.card) == CardType::Score)
}

/// The state invariant over the model: both hands are well formed and the
/// anchors are exactly the unowned cards.
pub open spec fn spec_state_inv(m: StateModel) -> bool {
    &&& spec_hand_wf(m.hand_a)
    &&& spec_hand_wf(m.hand_b)
    &&& spec_anchors_wf(m.slots)
}

/// Whether `mv` is legal in `m`: the played hand slot holds an available
/// card, the destination cell is empty and within the board's capacity,
/// the lane behind the push direction is clear and the placement rule
/// holds; a push must be of one's own card with a nonzero chain; a pick
/// must be of one's own card.
pub open spec fn spec_can_execute(m: StateModel, mv: Move) -> bool {
    match mv {
        Move::PlaceCard(place) => {
            &&& place.card.0 < spec_hand(m, m.turn).len()
            &&& match spec_hand(m, m.turn)[place.card.0 as int] {
                HeldCard::Available(card) => {
                    &&& spec_no_cards_in_direction(
                        m.slots,
                        place.coordinate,
                        spec_opposite(place.direction),
                    )
                    &&& !spec_has_card_at(m.slots, place.coordinate)
                    &&& spec_can_place(m.slots, card, place.coordinate, place.direction)
                    &&& spec_count(m.slots) < CARD_LIMIT
                },
                HeldCard::Waiting { .. } => false,
            }
        },
        Move::PushCard(push) => {
            &&& spec_get(m.slots, push.place) matches Some(c) && c.belonging_player == Some(m.turn)
            &&& (spec_can_push(m.slots, push.place, push.direction, 1, spec_count(m.slots))
                matches Some(n) && n >= 1)
        },
        Move::PickCard(pick) => spec_get(m.slots, pick.card) matches Some(c)
            && c.belonging_player == Some(m.turn),
    }
}

impl State {
    /// The state is well formed: the board's index cache mirrors its
    /// slots, and the model invariant holds.
    pub closed spec fn wf(self) -> bool {
        &&& self.board.wf()
        &&& spec_state_inv(self@)
    }

    /// A fresh match: the two starting hands, a board holding only the two
    /// anchors at `(0, 0)` and `(1, 0)`, and `starting_player` to move.
    pub fn new(player_a: Vec<HeldCard>, player_b: Vec<HeldCard>, starting_player: Player) -> (r:
        State)
        requires
            spec_hand_wf(player_a@),
            spec_hand_wf(player_b@),
        ensures
            r.wf(),
            r@.turn == starting_player,
            r@.hand_a == player_a@,
            r@.hand_b == player_b@,
            r@.slots == crate::board::spec_initial_slots(
                Position { x: 0, y: 0 },
                Position { x: 1, y: 0 },
            ),
    {
        let r = State {
            turn: starting_player,
            board: Board::new(),
            hand_a: Hand::new(player_a),
            hand_b: Hand::new(player_b),
        };
        r
    }

    /// Whose turn it is.
    pub fn turn(&self) -> (r: Player)
        ensures
            r == self@.turn,
    {
        self.turn
    }

    /// The given player's hand.
    pub fn player_hand(&self, player: Player) -> (r: &Vec<HeldCard>)
        ensures
            r@ == spec_hand(self@, player),
    {
        match player {
            Player::A => &self.hand_a.cards,
            Player::B => &self.hand_b.cards,
        }
    }

    /// The current player's hand.
    pub fn turn_hand(&self) -> (r: &Vec<HeldCard>)
        ensures
            r@ == spec_hand(self@, self@.turn),
    {
        self.player_hand(self.turn)
    }

    /// The card a handle points at, if it is still live.
    pub fn card(&self, idx: Index) -> (r: Option<&PlacedCard>)
        ensures
            r is Some <==> spec_valid_index(self@.slots, idx),
            r matches Some(c) ==> Some(*c) == spec_get(self@.slots, idx),
    {
        self.board.get_card(idx)
    }

    /// The card standing at `pos`, with its handle, if any.
    pub fn card_at_position(&self, pos: Position) -> (r: Option<(Index, PlacedCard)>)
        requires
            self.wf(),
        ensures
            r is Some <==> spec_has_card_at(self@.slots, pos),
            r matches Some(p) ==> Some(p.0) == spec_card_index_at(self@.slots, pos) && Some(p.1)
                == spec_get(self@.slots, p.0),
    {
        match self.board.get_card_position(pos) {
            Some(idx) => {
                proof {
                    crate::board::lemma_wf_bounds(self.board);
                    let w = crate::board::spec_slot_with(self@.slots, pos);
                    assert(crate::board::spec_occupied_at(self@.slots, w, pos));
                    assert(spec_valid_index(self@.slots, idx));
                }
                let c = *self.board.get_card(idx).unwrap();
                Some((idx, c))
            },
            None => None,
        }
    }

    /// How many slots the board's arena holds.
    pub(crate) fn board_slot_count(&self) -> (r: usize)
        ensures
            r == self@.slots.len(),
    {
        self.board.slot_count()
    }

    /// The board slot at position `i`.
    pub(crate) fn board_slot_at(&self, i: usize) -> (r: Slot)
        requires
            i < self@.slots.len(),
        ensures
            r == self@.slots[i as int],
    {
        self.board.slot_at(i)
    }

    /// How many cards stand on the board.
    pub(crate) fn board_card_count(&self) -> (r: usize)
        requires
            self.wf(),
        ensures
            r == spec_count(self@.slots),
    {
        self.board.number_of_cards()
    }

    /// Every card on the board, with its handle, in slot order.
    pub fn board_state(&self) -> (r: Vec<(Index, PlacedCard)>)
        ensures
            r@ == spec_board_entries(self@.slots, 0),
    {
        let mut r: Vec<(Index, PlacedCard)> = Vec::new();
        let n = self.board.slot_count();
        let mut i: usize = 0;
        while i < n
            invariant
                0 <= i <= n,
                n == self@.slots.len(),
                spec_board_entries(self@.slots, 0) == r@ + spec_board_entries(
                    self@.slots,
                    i as int,
                ),
            decreases n - i,
        {
            let slot = self.board.slot_at(i);
            match slot.card {
                Some(c) => {
                    r.push((Index { slot: i, gen: slot.gen }, c));
                },
                None => {},
            }
            proof {
                assert(spec_board_entries(self@.slots, 0) =~= r@ + spec_board_entries(
                    self@.slots,
                    i + 1,
                ));
            }
            i = i + 1;
        }
        r
    }

    /// Both players' scores.
    pub fn scores(&self) -> (r: Score)
        requires
            self.wf(),
        ensures
            r.spec_player(Player::A) == spec_score(self@.slots, Player::A),
            r.spec_player(Player::B) == spec_score(self@.slots, Player::B),
    {
        let (a, b) = self.board.score();
        Score { score_a: a, score_b: b }
    }

    /// Whether `m` is a legal move in this state.
    pub fn can_execute_move(&self, m: &Move) -> (r: bool)
        requires
            self.wf(),
        ensures
            r == spec_can_execute(self@, *m),
    {
        match m {
            Move::PlaceCard(place) => {
                let hand = self.turn_hand();
                if place.card.0 >= hand.len() {
                    return false;
                }
                match hand[place.card.0] {
                    HeldCard::Available(card) => {
                        self.board.no_cards_in_direction(
                            place.coordinate,
                            place.direction.opposite(),
                        ) && self.board.get_card_position(place.coordinate).is_none() && matches!(
                        self.board.can_place(card, self.turn, place.coordinate, place.direction), PlaceStatus::Success)
                            && self.board.number_of_cards() < CARD_LIMIT
                    },
                    HeldCard::Waiting { .. } => false,
                }
            },
            Move::PushCard(push) => {
                match self.board.get_card(push.place) {
                    Some(c) => {
                        let owned = match c.belonging_player {
                            Some(p) => p == self.turn,
                            None => false,
                        };
                        if !owned {
                            return false;
                        }
                        match self.board.can_push(push.place, push.direction) {
                            PushStatus::Success(n) => n >= 1,
                            PushStatus::Fail => false,
                        }
                    },
                    None => false,
                }
            },
            Move::PickCard(pick) => {
                match self.board.get_card(pick.card) {
                    Some(c) => match c.belonging_player {
                        Some(p) => p == self.turn,
                        None => false,
                    },
                    None => false,
                }
            },
        }
    }
}

/// A hand after the per-move cooldown tick: every waiting card waits one
/// turn less, and a card whose wait ran out becomes available.
pub open spec fn spec_tick_hand(h: Seq<HeldCard>) -> Seq<HeldCard> {
    Seq::new(
        h.len(),
        |i: int|
            match h[i] {
                HeldCard::Available(t) => HeldCard::Available(t),
                HeldCard::Waiting { card, turns_until_usable } => if turns_until_usable == 1 {
                    HeldCard::Available(card)
                } else {
                    HeldCard::Waiting {
                        card,
                        turns_until_usable: (turns_until_usable - 1) as usize,
                    }
                },
            },
    )
}

/// Each handle of `idxs` paired with the card it points at in `s` (a
/// handle gone stale is skipped; a push never produces one).
pub open spec fn spec_moved_pairs(s: Seq<Slot>, idxs: Seq<Index>) -> Seq<(Index, PlacedCard)>
    decreases idxs.len(),
{
    if idxs.len() == 0 {
        Seq::empty()
    } else {
        (match spec_get(s, idxs[0]) {
            Some(c) => seq![(idxs[0], c)],
            None => Seq::empty(),
        }) + spec_moved_pairs(s, idxs.drop_first())
    }
}

/// The hands after every removed card returns to its owner's hand as a
/// waiting card with a one-turn cooldown, in removal order.
pub open spec fn spec_return_removed(
    ha: Seq<HeldCard>,
    hb: Seq<HeldCard>,
    removed: Seq<(Index, PlacedCard)>,
) -> (Seq<HeldCard>, Seq<HeldCard>)
    decreases removed.len(),
{
    if removed.len() == 0 {
        (ha, hb)
    } else {
        let c = removed[0].1;
        let w = HeldCard::Waiting { card: spec_to_type(c.card), turns_until_usable: 1 };
        match c.belonging_player {
            Some(Player::A) => spec_return_removed(ha.push(w), hb, removed.drop_first()),
            Some(Player::B) => spec_return_removed(ha, hb.push(w), removed.drop_first()),
            None => spec_return_removed(ha, hb, removed.drop_first()),
        }
    }
}

/// The winner, if any: the player who alone reached four points.
pub open spec fn spec_winner(a: nat, b: nat) -> Option<Player> {
    if a >= 4 && !(b >= 4) {
        Some(Player::A)
    } else if b >= 4 && !(a >= 4) {
        Some(Player::B)
    } else {
        None
    }
}

/// The board and hands right after the move's own mutation, before the
/// cooldown tick and capture resolution.
pub ghost struct Applied {
    pub slots: Seq<Slot>,
    pub placed: Seq<(Index, Direction, PlacedCard)>,
    pub moved_idxs: Seq<Index>,
    pub picked: Seq<(Index, PlacedCard)>,
    pub hand_a: Seq<HeldCard>,
    pub hand_b: Seq<HeldCard>,
}

/// The move's own mutation: place (remove from hand, add, entry push),
/// push (chain push), or pick (remove from the board).
pub open spec fn spec_apply_move(m: StateModel, mv: Move) -> Applied {
    match mv {
        Move::PlaceCard(place) => {
            let card = spec_hand(m, m.turn)[place.card.0 as int]->Available_0;
            let p = spec_place(m.slots, card, m.turn, place.coordinate, place.direction);
            let ha = if m.turn is A {
                m.hand_a.remove(place.card.0 as int)
            } else {
                m.hand_a
            };
            let hb = if m.turn is B {
                m.hand_b.remove(place.card.0 as int)
            } else {
                m.hand_b
            };
            Applied {
                slots: p.0,
                placed: seq![
                    (
                        p.1,
                        place.direction,
                        PlacedCard {
                            belonging_player: Some(m.turn),
                            position: place.coordinate,
                            card: spec_to_data(card),
                        },
                    ),
                ],
                moved_idxs: p.2,
                picked: Seq::empty(),
                hand_a: ha,
                hand_b: hb,
            }
        },
        Move::PushCard(push) => {
            let p = spec_push(m.slots, push.place, push.direction, 1, spec_count(m.slots));
            Applied {
                slots: p.0,
                placed: Seq::empty(),
                moved_idxs: p.1,
                picked: Seq::empty(),
                hand_a: m.hand_a,
                hand_b: m.hand_b,
            }
        },
        Move::PickCard(pick) => {
            Applied {
                slots: spec_remove(m.slots, pick.card),
                placed: Seq::empty(),
                moved_idxs: Seq::empty(),
                picked: seq![(pick.card, spec_get(m.slots, pick.card)->Some_0)],
                hand_a: m.hand_a,
                hand_b: m.hand_b,
            }
        },
    }
}

/// The full effect of one move: the move's own mutation, the cooldown
/// tick, capture resolution, captured and picked cards returning to their
/// owners' hands, the new scores and winner, and the turn passing to the
/// other player.
pub open spec fn spec_execute(m: StateModel, mv: Move) -> (StateModel, MoveOutcome) {
    let ap = spec_apply_move(m, mv);
    let ha = spec_tick_hand(ap.hand_a);
    let hb = spec_tick_hand(ap.hand_b);
    let moved = spec_moved_pairs(ap.slots, ap.moved_idxs);
    let cl = spec_captured_list(ap.slots);
    let slots2 = spec_remove_list(ap.slots, cl);
    let removed = spec_removed_pairs(ap.slots, cl) + ap.picked;
    let hands = spec_return_removed(ha, hb, removed);
    let sa = spec_score(slots2, Player::A);
    let sb = spec_score(slots2, Player::B);
    (
        StateModel {
            turn: spec_other_player(m.turn),
            slots: slots2,
            hand_a: hands.0,
            hand_b: hands.1,
        },
        MoveOutcome {
            placed: ap.placed,
            moved,
            removed,
            winner: spec_winner(sa, sb),
            score_a: sa,
            score_b: sb,
        },
    )
}

/// Every occupied slot of `s` from `i` on, paired with its handle, in slot
/// order.
pub open spec fn spec_board_entries(s: Seq<Slot>, i: int) -> Seq<(Index, PlacedCard)>
    decreases s.len() - i,
{
    if i < 0 || i >= s.len() {
        Seq::empty()
    } else {
        (match s[i].card {
            Some(c) => seq![(Index { slot: i as usize, gen: s[i].gen }, c)],
            None => Seq::empty(),
        }) + spec_board_entries(s, i + 1)
    }
}

/// The cooldown tick keeps a hand well formed.
proof fn lemma_tick_hand_wf(h: Seq<HeldCard>)
    requires
        spec_hand_wf(h),
    ensures
        spec_hand_wf(spec_tick_hand(h)),
{
    assert forall|i: int| 0 <= i < spec_tick_hand(h).len() implies match #[trigger] spec_tick_hand(
        h,
    )[i] {
        HeldCard::Available(t) => t != CardType::Score,
        HeldCard::Waiting { card, turns_until_usable } => card != CardType::Score
            && turns_until_usable >= 1,
    } by {
        assert(match h[i] {
            HeldCard::Available(t) => t != CardType::Score,
            HeldCard::Waiting { card, turns_until_usable } => card != CardType::Score
                && turns_until_usable >= 1,
        });
    }
}

/// Boards holding the same cards agree on which cards are anchors.
proof fn lemma_same_cards_anchors(s: Seq<Slot>, t: Seq<Slot>)
    requires
        crate::card::spec_same_cards(s, t),
        spec_anchors_wf(s),
    ensures
        spec_anchors_wf(t),
{
}

/// Removing cards cannot disturb the anchors invariant.
proof fn lemma_remove_list_anchors(s: Seq<Slot>, lst: Seq<Index>)
    requires
        spec_anchors_wf(s),
        forall|j: int| 0 <= j < lst.len() ==> (#[trigger] lst[j]).slot < s.len(),
    ensures
        spec_anchors_wf(spec_remove_list(s, lst)),
    decreases lst.len(),
{
    if lst.len() > 0 {
        let t = spec_remove(s, lst[0]);
        assert(t.len() == s.len());
        assert(spec_anchors_wf(t));
        assert forall|j: int|
            0 <= j < lst.drop_first().len() implies (#[trigger] (lst.drop_first()[j])).slot
            < t.len() by {
            assert(lst.drop_first()[j] == lst[j + 1]);
        }
        lemma_remove_list_anchors(t, lst.drop_first());
    }
}

impl State {
    /// Tick one hand's cooldowns down by one turn.
    fn tick_hand(h: &mut Hand)
        requires
            spec_hand_wf(old(h).cards@),
        ensures
            final(h).cards@ == spec_tick_hand(old(h).cards@),
    {
        let n = h.cards.len();
        let mut out: Vec<HeldCard> = Vec::new();
        let mut i: usize = 0;
        while i < n
            invariant
                0 <= i <= n,
                n == old(h).cards@.len(),
                h.cards@ == old(h).cards@,
                spec_hand_wf(old(h).cards@),
                out@ == spec_tick_hand(old(h).cards@).take(i as int),
            decreases n - i,
        {
            let c = h.cards[i];
            proof {
                assert(c == old(h).cards@[i as int]);
                assert(match old(h).cards@[i as int] {
                    HeldCard::Available(t) => t != CardType::Score,
                    HeldCard::Waiting { card, turns_until_usable } => card != CardType::Score
                        && turns_until_usable >= 1,
                });
            }
            let nc = match c {
                HeldCard::Available(t) => HeldCard::Available(t),
                HeldCard::Waiting { card, turns_until_usable } => {
                    let t = turns_until_usable - 1;
                    if t == 0 {
                        HeldCard::Available(card)
                    } else {
                        HeldCard::Waiting { card, turns_until_usable: t }
                    }
                },
            };
            out.push(nc);
            proof {
                assert(out@ =~= spec_tick_hand(old(h).cards@).take(i + 1));
            }
            i = i + 1;
        }
        h.cards = out;
        proof {
            assert(spec_tick_hand(old(h).cards@).take(n as int) =~= spec_tick_hand(
                old(h).cards@,
            ));
        }
    }

    /// Execute a legal move and return the diff of what it did: what was
    /// placed, what moved, what was captured or picked, and the new score
    /// and winner, if any. The caller must have checked
    /// [`State::can_execute_move`] first.
    pub fn execute_move(&mut self, m: &Move) -> (r: MoveResult)
        requires
            old(self).wf(),
            spec_can_execute(old(self)@, *m),
        ensures
            final(self).wf(),
            (final(self)@, r@) == spec_execute(old(self)@, *m),
            r@.score_a <= 4 * CARD_LIMIT,
            r@.score_b <= 4 * CARD_LIMIT,
            final(self)@.slots.len() <= CARD_LIMIT,
    {
        let ghost m0 = self@;
        let ghost ap = spec_apply_move(m0, *m);

        // the move's own mutation
        let mut placed: Vec<(Index, Direction, PlacedCard)> = Vec::new();
        let mut picked: Vec<(Index, PlacedCard)> = Vec::new();
        let moved_idxs: MovedSet;
        match m {
            Move::PlaceCard(place) => {
                let card_ty = match self.turn_hand()[place.card.0] {
                    HeldCard::Available(c) => c,
                    HeldCard::Waiting { .. } => vstd::pervasive::unreached(),
                };
                match self.turn {
                    Player::A => {
                        self.hand_a.cards.remove(place.card.0);
                    },
                    Player::B => {
                        self.hand_b.cards.remove(place.card.0);
                    },
                }
                let (new_card, moved_cards) = self.board.start_place(
                    card_ty,
                    self.turn,
                    place.coordinate,
                    place.direction,
                );
                placed.push(
                    (
                        new_card,
                        place.direction,
                        PlacedCard {
                            belonging_player: Some(self.turn),
                            position: place.coordinate,
                            card: card_ty.to_data(),
                        },
                    ),
                );
                moved_idxs = moved_cards;
            },
            Move::PushCard(push) => {
                moved_idxs = self.board.start_push(push.place, push.direction);
            },
            Move::PickCard(pick) => {
                let card = self.board.remove_card(pick.card);
                picked.push((pick.card, card));
                moved_idxs = MovedSet::new();
            },
        }
        proof {
            assert(self.board@ == ap.slots);
            assert(placed@ =~= ap.placed);
            assert(picked@ =~= ap.picked);
            assert(moved_idxs@ == ap.moved_idxs);
            assert(self.hand_a.cards@ == ap.hand_a);
            assert(self.hand_b.cards@ == ap.hand_b);
            // the invariant survives the mutation
            crate::board::lemma_wf_bounds(old(self).board);
            match *m {
                Move::PlaceCard(place) => {
                    let card = spec_hand(m0, m0.turn)[place.card.0 as int]->Available_0;
                    assert(card != CardType::Score);
                    let added = crate::board::spec_add(
                        m0.slots,
                        m0.turn,
                        place.coordinate,
                        spec_to_data(card),
                    );
                    crate::board::lemma_first_free_range(m0.slots, 0);
                    assert(spec_anchors_wf(added.0));
                    assert(spec_valid_index(added.0, added.1));
                    crate::card::lemma_push_preserves(
                        added.0,
                        added.1,
                        place.direction,
                        1,
                        spec_count(added.0),
                    );
                    lemma_same_cards_anchors(added.0, ap.slots);
                },
                Move::PushCard(push) => {
                    crate::card::lemma_push_preserves(
                        m0.slots,
                        push.place,
                        push.direction,
                        1,
                        spec_count(m0.slots),
                    );
                    lemma_same_cards_anchors(m0.slots, ap.slots);
                },
                Move::PickCard(_) => {},
            }
            assert(spec_anchors_wf(ap.slots));
            crate::board::lemma_wf_bounds(self.board);
            assert(ap.slots.len() <= usize::MAX);
        }

        // the cooldown tick
        Self::tick_hand(&mut self.hand_a);
        Self::tick_hand(&mut self.hand_b);

        // the cards the push moved, with where they now stand
        let mut moved: Vec<(Index, PlacedCard)> = Vec::new();
        proof {
            assert(ap.moved_idxs.skip(0) =~= ap.moved_idxs);
        }
        let nm = moved_idxs.len();
        let mut i: usize = 0;
        while i < nm
            invariant
                0 <= i <= nm,
                nm == moved_idxs@.len(),
                self.board@ == ap.slots,
                spec_moved_pairs(ap.slots, ap.moved_idxs) == moved@ + spec_moved_pairs(
                    ap.slots,
                    ap.moved_idxs.skip(i as int),
                ),
                moved_idxs@ == ap.moved_idxs,
            decreases nm - i,
        {
            let idx = moved_idxs.get(i);
            match self.board.get_card(idx) {
                Some(c) => {
                    moved.push((idx, *c));
                },
                None => {},
            }
            proof {
                assert(ap.moved_idxs.skip(i as int).drop_first() =~= ap.moved_idxs.skip(i + 1));
                assert(ap.moved_idxs.skip(i as int)[0] == ap.moved_idxs[i as int]);
            }
            i = i + 1;
        }
        proof {
            assert(ap.moved_idxs.skip(nm as int) =~= Seq::<Index>::empty());
            assert(moved@ == spec_moved_pairs(ap.slots, ap.moved_idxs));
        }

        // capture resolution
        let mut removed = self.board.remove_cards();
        let np = picked.len();
        let mut k: usize = 0;
        while k < np
            invariant
                0 <= k <= np,
                np == picked@.len(),
                removed@ == spec_removed_pairs(ap.slots, spec_captured_list(ap.slots))
                    + picked@.take(k as int),
            decreases np - k,
        {
            let entry = picked[k];
            removed.push(entry);
            proof {
                assert(removed@ =~= spec_removed_pairs(ap.slots, spec_captured_list(ap.slots))
                    + picked@.take(k + 1));
            }
            k = k + 1;
        }
        proof {
            assert(picked@.take(np as int) =~= picked@);
        }

        // captured and picked cards return to their owners' hands
        proof {
            lemma_tick_hand_wf(ap.hand_a);
            lemma_tick_hand_wf(ap.hand_b);
            // every removed card is owned, so it is no anchor
            crate::board::lemma_captured_from_props(ap.slots, 0);
            assert forall|x: int| 0 <= x < removed@.len() implies spec_to_type(
                (#[trigger] removed@[x]).1.card,
            ) != CardType::Score by {
                let cl = spec_captured_list(ap.slots);
                if x < cl.len() {
                    assert(removed@[x] == spec_removed_pairs(ap.slots, cl)[x]);
                    assert(crate::board::spec_captured(ap.slots, cl[x].slot as int));
                } else {
                    assert(removed@[x] == ap.picked[x - cl.len()]);
                }
            }
        }
        let ghost ha0 = self.hand_a.cards@;
        let ghost hb0 = self.hand_b.cards@;
        proof {
            assert(removed@.skip(0) =~= removed@);
        }
        let nr = removed.len();
        let mut j: usize = 0;
        while j < nr
            invariant
                0 <= j <= nr,
                nr == removed@.len(),
                self.board@ == spec_remove_list(ap.slots, spec_captured_list(ap.slots)),
                self.board.wf(),
                self.turn == m0.turn,
                spec_return_removed(ha0, hb0, removed@) == spec_return_removed(
                    self.hand_a.cards@,
                    self.hand_b.cards@,
                    removed@.skip(j as int),
                ),
                forall|x: int|
                    0 <= x < removed@.len() ==> spec_to_type((#[trigger] removed@[x]).1.card)
                        != CardType::Score,
                spec_hand_wf(self.hand_a.cards@),
                spec_hand_wf(self.hand_b.cards@),
            decreases nr - j,
        {
            let entry = removed[j];
            let w = HeldCard::Waiting { card: entry.1.card.to_type(), turns_until_usable: 1 };
            match entry.1.belonging_player {
                Some(Player::A) => {
                    self.hand_a.cards.push(w);
                },
                Some(Player::B) => {
                    self.hand_b.cards.push(w);
                },
                None => {},
            }
            proof {
                assert(removed@.skip(j as int).drop_first() =~= removed@.skip(j + 1));
                assert(removed@.skip(j as int)[0] == removed@[j as int]);
            }
            j = j + 1;
        }
        proof {
            assert(removed@.skip(nr as int) =~= Seq::<(Index, PlacedCard)>::empty());
        }

        // score, winner, and the turn passing
        let (a, b) = self.board.score();
        let score = Score { score_a: a, score_b: b };
        let winner = if a >= 4 && !(b >= 4) {
            Some(Player::A)
        } else if b >= 4 && !(a >= 4) {
            Some(Player::B)
        } else {
            None
        };
        self.turn = self.turn.other();

        proof {
            lemma_remove_list_anchors(ap.slots, spec_captured_list(ap.slots));
            crate::board::lemma_wf_bounds(self.board);
            crate::board::lemma_score_le_len(self.board@, Player::A, self.board@.len() as int);
            crate::board::lemma_score_le_len(self.board@, Player::B, self.board@.len() as int);
        }

        MoveResult { placed, moved, removed, winner, score }
    }

    /// A deep copy of the whole state; the search engine simulates moves on
    /// copies and never touches the live state.
    pub fn duplicate(&self) -> (r: State)
        requires
            self.wf(),
        ensures
            r.wf(),
            r@ == self@,
    {
        State {
            turn: self.turn,
            board: self.board.duplicate(),
            hand_a: Hand::new(copy_cards(&self.hand_a.cards)),
            hand_b: Hand::new(copy_cards(&self.hand_b.cards)),
        }
    }
}

fn copy_cards(v: &Vec<HeldCard>) -> (r: Vec<HeldCard>)
    ensures
        r@ == v@,
{
    let n = v.len();
    let mut r: Vec<HeldCard> = Vec::new();
    let mut i: usize = 0;
    while i < n
        invariant
            0 <= i <= n,
            n == v@.len(),
            r@ == v@.take(i as int),
        decreases n - i,
    {
        r.push(v[i]);
        proof {
            assert(r@ =~= v@.take(i + 1));
        }
        i = i + 1;
    }
    proof {
        assert(v@.take(n as int) =~= v@);
    }
    r
}

/// The placement spot a card at `p` offers in direction `d`: the cell one
/// step away, to be entered pushing back towards the card, offered only
/// when the whole ray from `p` in `d` is clear.
pub open spec fn spec_spot_dir(s: Seq<Slot>, p: Position, d: Direction) -> Seq<
    (Position, Direction),
> {
    if spec_no_cards_in_direction(s, p, d) && spec_step(p, d) is Some {
        seq![(spec_step(p, d)->Some_0, spec_opposite(d))]
    } else {
        Seq::empty()
    }
}

/// The placement spots a card at `p` offers, over the four directions.
pub open spec fn spec_spot_entries(s: Seq<Slot>, p: Position) -> Seq<(Position, Direction)> {
    spec_spot_dir(s, p, Direction::North) + spec_spot_dir(s, p, Direction::East) + spec_spot_dir(
        s,
        p,
        Direction::South,
    ) + spec_spot_dir(s, p, Direction::West)
}

/// Every placement spot the board offers, in slot order.
pub open spec fn spec_possible_spots(s: Seq<Slot>, i: int) -> Seq<(Position, Direction)>
    decreases s.len() - i,
{
    if i < 0 || i >= s.len() {
        Seq::empty()
    } else {
        (match s[i].card {
            Some(c) => spec_spot_entries(s, c.position),
            None => Seq::empty(),
        }) + spec_possible_spots(s, i + 1)
    }
}

/// The placement moves of hand slot `idx` over the given spots.
pub open spec fn spec_place_moves_for(spots: Seq<(Position, Direction)>, idx: int) -> Seq<Move> {
    Seq::new(
        spots.len(),
        |j: int|
            Move::PlaceCard(
                PlaceCardMove {
                    direction: spots[j].1,
                    coordinate: spots[j].0,
                    card: HeldCardIndex(idx as usize),
                },
            ),
    )
}

/// The placement moves of every available hand card over the given spots.
pub open spec fn spec_place_moves(
    hand: Seq<HeldCard>,
    spots: Seq<(Position, Direction)>,
    i: int,
) -> Seq<Move>
    decreases hand.len() - i,
{
    if i < 0 || i >= hand.len() {
        Seq::empty()
    } else {
        (match hand[i] {
            HeldCard::Available(_) => spec_place_moves_for(spots, i),
            HeldCard::Waiting { .. } => Seq::empty(),
        }) + spec_place_moves(hand, spots, i + 1)
    }
}

/// The push move of the card `idx` in direction `d`, if it is legal.
pub open spec fn spec_push_move_dir(m: StateModel, idx: Index, d: Direction) -> Seq<Move> {
    let mv = Move::PushCard(PushCardMove { place: idx, direction: d });
    if spec_can_execute(m, mv) {
        seq![mv]
    } else {
        Seq::empty()
    }
}

/// The pick move and legal push moves of every card of the current player,
/// in slot order.
pub open spec fn spec_pick_push_moves(m: StateModel, i: int) -> Seq<Move>
    decreases m.slots.len() - i,
{
    if i < 0 || i >= m.slots.len() {
        Seq::empty()
    } else {
        (match m.slots[i].card {
            Some(c) => if c.belonging_player == Some(m.turn) {
                let idx = Index { slot: i as usize, gen: m.slots[i].gen };
                seq![Move::PickCard(PickCardMove { card: idx })] + spec_push_move_dir(
                    m,
                    idx,
                    Direction::North,
                ) + spec_push_move_dir(m, idx, Direction::East) + spec_push_move_dir(
                    m,
                    idx,
                    Direction::South,
                ) + spec_push_move_dir(m, idx, Direction::West)
            } else {
                Seq::empty()
            },
            None => Seq::empty(),
        }) + spec_pick_push_moves(m, i + 1)
    }
}

/// Every legal move of `m`, in a fixed deterministic order: placements of
/// each available hand card onto each offered spot (when the board is not
/// at its capacity bound), then the current player's picks and pushes.
pub open spec fn spec_enumerate(m: StateModel) -> Seq<Move> {
    (if spec_count(m.slots) < CARD_LIMIT {
        spec_place_moves(spec_hand(m, m.turn), spec_possible_spots(m.slots, 0), 0)
    } else {
        Seq::empty()
    }) + spec_pick_push_moves(m, 0)
}

impl State {
    /// Enumerate every legal move: each available hand card on each
    /// board-adjacent empty cell with a clear lane behind it (pushing back
    /// towards the board), every legal push of an own card, and a pick of
    /// each own card.
    #[verifier::rlimit(60)]
    pub fn enumerate_possible_moves(&self) -> (r: Vec<Move>)
        requires
            self.wf(),
        ensures
            r@ == spec_enumerate(self@),
    {
        let ghost m = self@;
        let mut moves: Vec<Move> = Vec::new();

        // the cells a card may be placed on
        let mut possible: Vec<(Position, Direction)> = Vec::new();
        let n = self.board.slot_count();
        let mut i: usize = 0;
        while i < n
            invariant
                0 <= i <= n,
                n == m.slots.len(),
                self@ == m,
                self.wf(),
                spec_possible_spots(m.slots, 0) == possible@ + spec_possible_spots(
                    m.slots,
                    i as int,
                ),
            decreases n - i,
        {
            let slot = self.board.slot_at(i);
            match slot.card {
                Some(c) => {
                    self.collect_spot(c.position, Direction::North, &mut possible);
                    self.collect_spot(c.position, Direction::East, &mut possible);
                    self.collect_spot(c.position, Direction::South, &mut possible);
                    self.collect_spot(c.position, Direction::West, &mut possible);
                },
                None => {},
            }
            proof {
                assert(spec_possible_spots(m.slots, 0) =~= possible@ + spec_possible_spots(
                    m.slots,
                    i + 1,
                ));
            }
            i = i + 1;
        }
        let ghost spots = spec_possible_spots(m.slots, 0);
        proof {
            assert(possible@ =~= spots);
        }

        // placements of every available hand card onto every spot
        if self.board.number_of_cards() < CARD_LIMIT {
            let nh = self.turn_hand().len();
            let mut hi: usize = 0;
            while hi < nh
                invariant
                    0 <= hi <= nh,
                    nh == spec_hand(m, m.turn).len(),
                    self@ == m,
                    self.wf(),
                    possible@ == spots,
                    spec_place_moves(spec_hand(m, m.turn), spots, 0) == moves@ + spec_place_moves(
                        spec_hand(m, m.turn),
                        spots,
                        hi as int,
                    ),
                decreases nh - hi,
            {
                let held = self.turn_hand()[hi];
                match held {
                    HeldCard::Available(_) => {
                        let ghost moves0 = moves@;
                        let ns = possible.len();
                        let mut si: usize = 0;
                        while si < ns
                            invariant
                                0 <= si <= ns,
                                ns == spots.len(),
                                possible@ == spots,
                                hi < nh,
                                moves@ == moves0 + spec_place_moves_for(spots, hi as int).take(
                                    si as int,
                                ),
                            decreases ns - si,
                        {
                            let (coordinate, direction) = possible[si];
                            moves.push(
                                Move::PlaceCard(
                                    PlaceCardMove {
                                        direction,
                                        coordinate,
                                        card: HeldCardIndex(hi),
                                    },
                                ),
                            );
                            proof {
                                assert(moves@ =~= moves0 + spec_place_moves_for(
                                    spots,
                                    hi as int,
                                ).take(si + 1));
                            }
                            si = si + 1;
                        }
                        proof {
                            assert(spec_place_moves_for(spots, hi as int).take(ns as int)
                                =~= spec_place_moves_for(spots, hi as int));
                        }
                    },
                    HeldCard::Waiting { .. } => {},
                }
                proof {
                    assert(spec_place_moves(spec_hand(m, m.turn), spots, 0) =~= moves@
                        + spec_place_moves(spec_hand(m, m.turn), spots, hi + 1));
                }
                hi = hi + 1;
            }
        }
        let ghost place_part = if spec_count(m.slots) < CARD_LIMIT {
            spec_place_moves(spec_hand(m, m.turn), spots, 0)
        } else {
            Seq::<Move>::empty()
        };
        proof {
            assert(moves@ =~= place_part);
        }

        // picks and pushes of the current player's cards
        let mut i: usize = 0;
        while i < n
            invariant
                0 <= i <= n,
                n == m.slots.len(),
                self@ == m,
                self.wf(),
                spec_enumerate(m) == moves@ + spec_pick_push_moves(m, i as int),
            decreases n - i,
        {
            let slot = self.board.slot_at(i);
            match slot.card {
                Some(c) => {
                    let owned = match c.belonging_player {
                        Some(p) => p == self.turn(),
                        None => false,
                    };
                    if owned {
                        let idx = Index { slot: i, gen: slot.gen };
                        moves.push(Move::PickCard(PickCardMove { card: idx }));
                        self.collect_push(idx, Direction::North, &mut moves);
                        self.collect_push(idx, Direction::East, &mut moves);
                        self.collect_push(idx, Direction::South, &mut moves);
                        self.collect_push(idx, Direction::West, &mut moves);
                    }
                },
                None => {},
            }
            proof {
                assert(spec_enumerate(m) =~= moves@ + spec_pick_push_moves(m, i + 1));
            }
            i = i + 1;
        }
        proof {
            assert(moves@ =~= spec_enumerate(m));
        }
        moves
    }

    /// Record the placement spot the card at `p` offers in direction `d`,
    /// if the lane is clear.
    pub(crate) fn collect_spot(&self, p: Position, d: Direction, possible: &mut Vec<(Position, Direction)>)
        requires
            self.wf(),
        ensures
            final(possible)@ == old(possible)@ + spec_spot_dir(self@.slots, p, d),
    {
        match p.step(d) {
            Some(q) => {
                if self.board.no_cards_in_direction(p, d) {
                    possible.push((q, d.opposite()));
                    proof {
                        assert(possible@ =~= old(possible)@ + spec_spot_dir(self@.slots, p, d));
                    }
                } else {
                    proof {
                        assert(possible@ =~= old(possible)@ + spec_spot_dir(self@.slots, p, d));
                    }
                }
            },
            None => {
                proof {
                    assert(possible@ =~= old(possible)@ + spec_spot_dir(self@.slots, p, d));
                }
            },
        }
    }

    /// Record the push move of the card `idx` in direction `d`, if legal.
    pub(crate) fn collect_push(&self, idx: Index, d: Direction, moves: &mut Vec<Move>)
        requires
            self.wf(),
        ensures
            final(moves)@ == old(moves)@ + spec_push_move_dir(self@, idx, d),
    {
        let mv = Move::PushCard(PushCardMove { place: idx, direction: d });
        if self.can_execute_move(&mv) {
            moves.push(mv);
            proof {
                assert(moves@ =~= old(moves)@ + spec_push_move_dir(self@, idx, d));
            }
        } else {
            proof {
                assert(moves@ =~= old(moves)@ + spec_push_move_dir(self@, idx, d));
            }
        }
    }
}

/// What a well-formed state guarantees about its model: the invariant
/// holds and the sizes fit the machine.
pub proof fn lemma_wf_model(s: &State)
    requires
        s.wf(),
    ensures
        spec_state_inv(s@),
        crate::board::spec_positions_distinct(s@.slots),
        s@.slots.len() <= CARD_LIMIT,
        spec_count(s@.slots) <= CARD_LIMIT,
        s@.hand_a.len() <= usize::MAX,
        s@.hand_b.len() <= usize::MAX,
{
    crate::board::lemma_wf_bounds(s.board);
    crate::board::lemma_wf_positions_distinct(s.board);
    vstd::std_specs::vec::axiom_spec_len(&s.hand_a.cards);
    vstd::std_specs::vec::axiom_spec_len(&s.hand_b.cards);
}

/// The slots after laying out the given cards, in order, on a board that
/// already holds `s`; `None` when a card is an anchor, lands on an
/// occupied cell, or overflows the capacity bound.
pub open spec fn spec_setup_from(s: Seq<Slot>, cards: Seq<(Player, CardType, Position)>, i: int) -> Option<
    Seq<Slot>,
>
    decreases cards.len() - i,
{
    if i < 0 || i >= cards.len() {
        Some(s)
    } else {
        let c = cards[i];
        if c.1 == CardType::Score || spec_has_card_at(s, c.2) || spec_count(s) >= CARD_LIMIT {
            None
        } else {
            spec_setup_from(crate::board::spec_add(s, c.0, c.2, spec_to_data(c.1)).0, cards, i + 1)
        }
    }
}

fn hand_ok(v: &Vec<HeldCard>) -> (r: bool)
    ensures
        r == spec_hand_wf(v@),
{
    let n = v.len();
    let mut i: usize = 0;
    while i < n
        invariant
            0 <= i <= n,
            n == v@.len(),
            forall|j: int|
                0 <= j < i ==> match #[trigger] v@[j] {
                    HeldCard::Available(t) => t != CardType::Score,
                    HeldCard::Waiting { card, turns_until_usable } => card != CardType::Score
                        && turns_until_usable >= 1,
                },
        decreases n - i,
    {
        let ok = match v[i] {
            HeldCard::Available(t) => t != CardType::Score,
            HeldCard::Waiting { card, turns_until_usable } => card != CardType::Score
                && turns_until_usable >= 1,
        };
        if !ok {
            return false;
        }
        i = i + 1;
    }
    true
}

impl State {
    /// Load a position: the two anchors at the given (distinct) cells, the
    /// given owned cards, and the two hands. Returns `None` when the
    /// layout is invalid: coinciding anchors, an anchor among the cards, a
    /// doubly-used cell, a board over its capacity bound, or an ill-formed
    /// hand.
    pub fn from_setup(
        starting_player: Player,
        anchor_a: Position,
        anchor_b: Position,
        cards: &Vec<(Player, CardType, Position)>,
        hand_a: Vec<HeldCard>,
        hand_b: Vec<HeldCard>,
    ) -> (r: Option<State>)
        ensures
            r is Some <==> {
                &&& anchor_a != anchor_b
                &&& spec_setup_from(
                    crate::board::spec_initial_slots(anchor_a, anchor_b),
                    cards@,
                    0,
                ) is Some
                &&& spec_hand_wf(hand_a@)
                &&& spec_hand_wf(hand_b@)
            },
            r matches Some(st) ==> st.wf() && st@ == (StateModel {
                turn: starting_player,
                slots: spec_setup_from(
                    crate::board::spec_initial_slots(anchor_a, anchor_b),
                    cards@,
                    0,
                )->Some_0,
                hand_a: hand_a@,
                hand_b: hand_b@,
            }),
    {
        if anchor_a == anchor_b {
            return None;
        }
        if !hand_ok(&hand_a) || !hand_ok(&hand_b) {
            return None;
        }
        let ghost s0 = crate::board::spec_initial_slots(anchor_a, anchor_b);
        let mut board = Board::with_anchors(anchor_a, anchor_b);
        let n = cards.len();
        let mut i: usize = 0;
        while i < n
            invariant
                0 <= i <= n,
                n == cards@.len(),
                s0 == crate::board::spec_initial_slots(anchor_a, anchor_b),
                board.wf(),
                spec_anchors_wf(board@),
                spec_setup_from(s0, cards@, 0) == spec_setup_from(board@, cards@, i as int),
            decreases n - i,
        {
            let (pl, ty, pos) = cards[i];
            proof {
                assert(cards@[i as int] == (pl, ty, pos));
            }
            if ty == CardType::Score {
                proof {
                    assert(spec_setup_from(board@, cards@, i as int) is None);
                }
                return None;
            }
            if board.get_card_position(pos).is_some() {
                proof {
                    assert(spec_has_card_at(board@, pos));
                    assert(spec_setup_from(board@, cards@, i as int) is None);
                }
                return None;
            }
            if board.number_of_cards() >= CARD_LIMIT {
                proof {
                    assert(spec_setup_from(board@, cards@, i as int) is None);
                }
                return None;
            }
            let ghost b_pre = board@;
            board.add_card(pl, pos, ty.to_data());
            proof {
                crate::card::lemma_type_data_round_trip(ty);
                crate::board::lemma_first_free_range(b_pre, 0);
                assert(spec_setup_from(b_pre, cards@, i as int) == spec_setup_from(
                    board@,
                    cards@,
                    i as int + 1,
                ));
                assert(spec_anchors_wf(board@));
            }
            i = i + 1;
        }
        proof {
            assert(spec_setup_from(board@, cards@, n as int) == Some(board@));
        }
        let st = State {
            turn: starting_player,
            board,
            hand_a: Hand::new(hand_a),
            hand_b: Hand::new(hand_b),
        };
        Some(st)
    }
}

/// A step lands strictly inside the ray it follows: the cell reached is
/// beyond the start, and whatever is beyond the reached cell was already
/// beyond the start.
proof fn lemma_beyond_step(p: Position, d: Direction, q: Position)
    requires
        spec_step(p, d) == Some(q),
    ensures
        crate::board::spec_beyond(p, d, q),
        forall|r: Position|
            crate::board::spec_beyond(q, d, r) ==> crate::board::spec_beyond(p, d, r),
{
}

/// Every offered placement spot is an empty cell with a clear lane behind
/// the push direction and an occupied cell directly ahead.
pub open spec fn spec_spot_good(s: Seq<Slot>, e: (Position, Direction)) -> bool {
    &&& !spec_has_card_at(s, e.0)
    &&& spec_no_cards_in_direction(s, e.0, spec_opposite(e.1))
    &&& crate::card::spec_placement_rule(s, e.0, e.1)
}

proof fn lemma_spot_dir_good(s: Seq<Slot>, p: Position, d: Direction)
    requires
        spec_has_card_at(s, p),
    ensures
        forall|j: int|
            0 <= j < spec_spot_dir(s, p, d).len() ==> spec_spot_good(
                s,
                #[trigger] spec_spot_dir(s, p, d)[j],
            ),
{
    if spec_no_cards_in_direction(s, p, d) && spec_step(p, d) is Some {
        let q = spec_step(p, d)->Some_0;
        lemma_beyond_step(p, d, q);
        crate::types::lemma_step_symmetric(p, d);
        let e = (q, spec_opposite(d));
        assert(spec_spot_dir(s, p, d) == seq![e]);
        assert(!spec_has_card_at(s, q)) by {
            if spec_has_card_at(s, q) {
                let i = choose|i: int| spec_occupied_at(s, i, q);
                assert(crate::board::spec_beyond(p, d, s[i].card->Some_0.position));
            }
        }
        assert(spec_opposite(e.1) == d);
        assert(spec_no_cards_in_direction(s, q, d)) by {
            assert forall|i: int|
                0 <= i < s.len() && (#[trigger] s[i]).card is Some implies !crate::board::spec_beyond(
                q,
                d,
                s[i].card->Some_0.position,
            ) by {
                assert(!crate::board::spec_beyond(p, d, s[i].card->Some_0.position));
            }
        }
        assert(spec_step(q, spec_opposite(d)) == Some(p));
        assert(crate::card::spec_placement_rule(s, q, spec_opposite(d)));
        assert(spec_spot_good(s, e));
        assert forall|j: int| 0 <= j < spec_spot_dir(s, p, d).len() implies spec_spot_good(
            s,
            #[trigger] spec_spot_dir(s, p, d)[j],
        ) by {
            assert(spec_spot_dir(s, p, d)[j] == e);
        }
    }
}

proof fn lemma_spots_good(s: Seq<Slot>, i: int)
    ensures
        forall|j: int|
            0 <= j < spec_possible_spots(s, i).len() ==> spec_spot_good(
                s,
                #[trigger] spec_possible_spots(s, i)[j],
            ),
    decreases s.len() - i,
{
    if i < 0 || i >= s.len() {
    } else {
        lemma_spots_good(s, i + 1);
        match s[i].card {
            Some(c) => {
                assert(spec_occupied_at(s, i, c.position));
                lemma_spot_dir_good(s, c.position, Direction::North);
                lemma_spot_dir_good(s, c.position, Direction::East);
                lemma_spot_dir_good(s, c.position, Direction::South);
                lemma_spot_dir_good(s, c.position, Direction::West);
                let entries = spec_spot_entries(s, c.position);
                assert forall|j: int| 0 <= j < entries.len() implies spec_spot_good(
                    s,
                    #[trigger] entries[j],
                ) by {
                    let a = spec_spot_dir(s, c.position, Direction::North);
                    let b = spec_spot_dir(s, c.position, Direction::East);
                    let cc = spec_spot_dir(s, c.position, Direction::South);
                    let dd = spec_spot_dir(s, c.position, Direction::West);
                    if j < a.len() {
                    } else if j < a.len() + b.len() {
                        assert(entries[j] == b[j - a.len()]);
                    } else if j < a.len() + b.len() + cc.len() {
                        assert(entries[j] == cc[j - a.len() - b.len()]);
                    } else {
                        assert(entries[j] == dd[j - a.len() - b.len() - cc.len()]);
                    }
                }
                assert forall|j: int|
                    0 <= j < spec_possible_spots(s, i).len() implies spec_spot_good(
                    s,
                    #[trigger] spec_possible_spots(s, i)[j],
                ) by {
                    if j < entries.len() {
                        assert(spec_possible_spots(s, i)[j] == entries[j]);
                    } else {
                        assert(spec_possible_spots(s, i)[j] == spec_possible_spots(s, i + 1)[j
                            - entries.len()]);
                    }
                }
            },
            None => {
                assert forall|j: int|
                    0 <= j < spec_possible_spots(s, i).len() implies spec_spot_good(
                    s,
                    #[trigger] spec_possible_spots(s, i)[j],
                ) by {
                    assert(spec_possible_spots(s, i)[j] == spec_possible_spots(s, i + 1)[j]);
                }
            },
        }
    }
}

proof fn lemma_place_moves_sound(m: StateModel, spots: Seq<(Position, Direction)>, i: int)
    requires
        spec_state_inv(m),
        spec_hand(m, m.turn).len() <= usize::MAX,
        spec_count(m.slots) < CARD_LIMIT,
        forall|j: int| 0 <= j < spots.len() ==> spec_spot_good(m.slots, #[trigger] spots[j]),
    ensures
        forall|j: int|
            0 <= j < spec_place_moves(spec_hand(m, m.turn), spots, i).len() ==> spec_can_execute(
                m,
                #[trigger] spec_place_moves(spec_hand(m, m.turn), spots, i)[j],
            ),
    decreases spec_hand(m, m.turn).len() - i,
{
    let hand = spec_hand(m, m.turn);
    if i < 0 || i >= hand.len() {
    } else {
        lemma_place_moves_sound(m, spots, i + 1);
        let l = spec_place_moves(hand, spots, i);
        assert forall|j: int| 0 <= j < l.len() implies spec_can_execute(m, #[trigger] l[j]) by {
            match hand[i] {
                HeldCard::Available(card) => {
                    let head = spec_place_moves_for(spots, i);
                    assert(head.len() == spots.len());
                    if j < head.len() {
                        assert(l[j] == head[j]);
                        assert(head[j] == Move::PlaceCard(
                            PlaceCardMove {
                                direction: spots[j].1,
                                coordinate: spots[j].0,
                                card: HeldCardIndex(i as usize),
                            },
                        ));
                        assert(spec_spot_good(m.slots, spots[j]));
                        assert(card != CardType::Score);
                        assert((i as usize) as int == i);
                    } else {
                        assert(l[j] == spec_place_moves(hand, spots, i + 1)[j - head.len()]);
                    }
                },
                HeldCard::Waiting { .. } => {
                    assert(l[j] == spec_place_moves(hand, spots, i + 1)[j]);
                },
            }
        }
    }
}

proof fn lemma_pick_push_sound(m: StateModel, i: int)
    requires
        m.slots.len() <= usize::MAX,
    ensures
        forall|j: int|
            0 <= j < spec_pick_push_moves(m, i).len() ==> spec_can_execute(
                m,
                #[trigger] spec_pick_push_moves(m, i)[j],
            ),
    decreases m.slots.len() - i,
{
    if i < 0 || i >= m.slots.len() {
    } else {
        lemma_pick_push_sound(m, i + 1);
        let l = spec_pick_push_moves(m, i);
        assert forall|j: int| 0 <= j < l.len() implies spec_can_execute(m, #[trigger] l[j]) by {
            match m.slots[i].card {
                Some(c) => {
                    if c.belonging_player == Some(m.turn) {
                        let idx = Index { slot: i as usize, gen: m.slots[i].gen };
                        let head = seq![Move::PickCard(PickCardMove { card: idx })]
                            + spec_push_move_dir(m, idx, Direction::North) + spec_push_move_dir(
                            m,
                            idx,
                            Direction::East,
                        ) + spec_push_move_dir(m, idx, Direction::South) + spec_push_move_dir(
                            m,
                            idx,
                            Direction::West,
                        );
                        if j < head.len() {
                            assert(spec_valid_index(m.slots, idx));
                            let a = seq![Move::PickCard(PickCardMove { card: idx })];
                            let bn = spec_push_move_dir(m, idx, Direction::North);
                            let be = spec_push_move_dir(m, idx, Direction::East);
                            let bs = spec_push_move_dir(m, idx, Direction::South);
                            let bw = spec_push_move_dir(m, idx, Direction::West);
                            if j < 1 {
                                assert(head[j] == a[0]);
                            } else if j < 1 + bn.len() {
                                assert(head[j] == bn[j - 1]);
                            } else if j < 1 + bn.len() + be.len() {
                                assert(head[j] == be[j - 1 - bn.len()]);
                            } else if j < 1 + bn.len() + be.len() + bs.len() {
                                assert(head[j] == bs[j - 1 - bn.len() - be.len()]);
                            } else {
                                assert(head[j] == bw[j - 1 - bn.len() - be.len() - bs.len()]);
                            }
                        } else {
                            assert(l[j] == spec_pick_push_moves(m, i + 1)[j - head.len()]);
                        }
                    } else {
                        assert(l[j] == spec_pick_push_moves(m, i + 1)[j]);
                    }
                },
                None => {
                    assert(l[j] == spec_pick_push_moves(m, i + 1)[j]);
                },
            }
        }
    }
}

/// Enumeration and legality agree: every move the enumerator returns
/// passes the legality check, so executing an enumerated move never fails.
pub proof fn lemma_enumerate_sound(m: StateModel)
    requires
        spec_state_inv(m),
        m.slots.len() <= usize::MAX,
        spec_hand(m, m.turn).len() <= usize::MAX,
    ensures
        forall|j: int|
            0 <= j < spec_enumerate(m).len() ==> spec_can_execute(
                m,
                #[trigger] spec_enumerate(m)[j],
            ),
{
    lemma_spots_good(m.slots, 0);
    lemma_pick_push_sound(m, 0);
    let place = if spec_count(m.slots) < CARD_LIMIT {
        spec_place_moves(spec_hand(m, m.turn), spec_possible_spots(m.slots, 0), 0)
    } else {
        Seq::<Move>::empty()
    };
    if spec_count(m.slots) < CARD_LIMIT {
        lemma_place_moves_sound(m, spec_possible_spots(m.slots, 0), 0);
    }
    assert forall|j: int| 0 <= j < spec_enumerate(m).len() implies spec_can_execute(
        m,
        #[trigger] spec_enumerate(m)[j],
    ) by {
        if j < place.len() {
            assert(spec_enumerate(m)[j] == place[j]);
        } else {
            assert(spec_enumerate(m)[j] == spec_pick_push_moves(m, 0)[j - place.len()]);
        }
    }
}

} // verus!
