//! The card behaviour table: the closed set of card variants and the
//! per-variant push, placement-legality and placement operations, dispatched
//! by variant tag.
use vstd::prelude::*;

use crate::board::Board;
use crate::board::Index;
use crate::board::Slot;
use crate::board::spec_add;
use crate::board::spec_card_index_at;
use crate::board::spec_count;
use crate::board::spec_has_card_at;
use crate::board::spec_move;
use crate::board::spec_occupied_at;
use crate::board::spec_slot_with;
use crate::board::spec_valid_index;
use crate::moved::MovedSet;
use crate::moved::spec_insert_unique;
use crate::moved::spec_union_seq;
use crate::types::Direction;
use crate::types::Player;
use crate::types::Position;
use crate::types::spec_anticlockwise;
use crate::types::spec_clockwise;
use crate::types::spec_opposite;
use crate::types::spec_step;

pub mod block;
pub mod double;
pub mod ghost;
pub mod normal;
pub mod redirect;
pub mod reverse;
pub mod score;

pub use block::Block;
pub use double::Double;
pub use ghost::GhostCard;
pub use normal::Normal;
pub use redirect::Redirect;
pub use reverse::Reverse;
pub use score::Score;

verus! {

/// The tag of a card variant.
#[derive(Debug, Clone, Copy, PartialEq, Eq, Structural)]
pub enum CardType {
    Block,
    Normal,
    Double,
    GhostCard,
    Score,
    Redirect,
    Reverse,
}

/// A card instance. A card carries no state beyond its variant; behaviour is
/// determined entirely by the variant tag.
#[derive(Debug, Clone, Copy, PartialEq, Eq, Structural)]
pub enum CardData {
    Block(Block),
    Normal(Normal),
    Double(Double),
    GhostCard(GhostCard),
    Score(Score),
    Redirect(Redirect),
    Reverse(Reverse),
}

pub open spec fn spec_to_data(t: CardType) -> CardData {
    match t {
        CardType::Block => CardData::Block(Block {}),
        CardType::Normal => CardData::Normal(Normal {}),
        CardType::Double => CardData::Double(Double {}),
        CardType::GhostCard => CardData::GhostCard(GhostCard {}),
        CardType::Score => CardData::Score(Score {}),
        CardType::Redirect => CardData::Redirect(Redirect {}),
        CardType::Reverse => CardData::Reverse(Reverse {}),
    }
}

pub open spec fn spec_to_type(c: CardData) -> CardType {
    match c {
        CardData::Block(_) => CardType::Block,
        CardData::Normal(_) => CardType::Normal,
        CardData::Double(_) => CardType::Double,
        CardData::GhostCard(_) => CardType::GhostCard,
        CardData::Score(_) => CardType::Score,
        CardData::Redirect(_) => CardType::Redirect,
        CardData::Reverse(_) => CardType::Reverse,
    }
}

impl CardType {
    /// The card instance of this variant.
    pub fn to_data(self) -> (r: CardData)
        ensures
            r == spec_to_data(self),
    {
        match self {
            CardType::Block => CardData::Block(Block {}),
            CardType::Normal => CardData::Normal(Normal {}),
            CardType::Double => CardData::Double(Double {}),
            CardType::GhostCard => CardData::GhostCard(GhostCard {}),
            CardType::Score => CardData::Score(Score {}),
            CardType::Redirect => CardData::Redirect(Redirect {}),
            CardType::Reverse => CardData::Reverse(Reverse {}),
        }
    }
}

impl CardData {
    /// The variant tag of this card.
    pub fn to_type(&self) -> (r: CardType)
        ensures
            r == spec_to_type(*self),
    {
        match self {
            CardData::Block(_) => CardType::Block,
            CardData::Normal(_) => CardType::Normal,
            CardData::Double(_) => CardType::Double,
            CardData::GhostCard(_) => CardType::GhostCard,
            CardData::Score(_) => CardType::Score,
            CardData::Redirect(_) => CardType::Redirect,
            CardData::Reverse(_) => CardType::Reverse,
        }
    }
}

/// Turning a tag into a card and back yields the tag again.
pub proof fn lemma_type_data_round_trip(t: CardType)
    ensures
        spec_to_type(spec_to_data(t)) == t,
{
}

/// Whether a push is legal and how many cards it would move.
#[derive(Debug, Clone, Copy, PartialEq, Eq, Structural)]
pub enum PushStatus {
    Success(u32),
    Fail,
}

/// Whether a placement is legal.
#[derive(Debug, Clone, Copy, PartialEq, Eq, Structural)]
pub enum PlaceStatus {
    Success,
    Fail,
}

/// Termination fuel for a push chain: how many recursion levels remain
/// before `depth` exceeds the chain cap.
pub open spec fn spec_push_fuel(cap: nat, depth: nat) -> nat {
    if depth > cap + 1 {
        0
    } else {
        (cap + 2 - depth) as nat
    }
}

/// The variant tag of the card behind a (valid) handle.
pub open spec fn spec_type_at(s: Seq<Slot>, idx: Index) -> CardType {
    spec_to_type(s[idx.slot as int].card->Some_0.card)
}

/// The position of the card behind a (valid) handle.
pub open spec fn spec_pos_at(s: Seq<Slot>, idx: Index) -> Position {
    s[idx.slot as int].card->Some_0.position
}

/// The effect of pushing the card at `idx` in `dir`, dispatched on its
/// variant: the new slots and the handles of the cards reported moved.
/// `depth` is the recursion level, `cap` the card count when the chain
/// started; a level beyond the cap makes the chain an empty move.
pub open spec fn spec_push(s: Seq<Slot>, idx: Index, dir: Direction, depth: nat, cap: nat) -> (
    Seq<Slot>,
    Seq<Index>,
)
    decreases spec_push_fuel(cap, depth), 3int,
{
    match spec_type_at(s, idx) {
        CardType::Block => (s, Seq::empty()),
        CardType::Normal => spec_push_normal(s, idx, dir, depth, cap),
        CardType::Double => spec_push_double(s, idx, dir, depth, cap),
        CardType::GhostCard => spec_push_ghost(s, idx, dir, cap),
        CardType::Score => spec_push_normal(s, idx, dir, depth, cap),
        CardType::Redirect => spec_push_redirect(s, idx, dir, depth, cap),
        CardType::Reverse => spec_push_normal(s, idx, spec_opposite(dir), depth, cap),
    }
}

/// The base chain push: push whatever stands one cell ahead, then step into
/// the vacated cell. The chain fails (empty move) past the cap, at the grid
/// edge, or when the sub-push moved nothing; the pusher steps forward only
/// if it still stands where it started and the cell ahead is now free.
pub open spec fn spec_push_normal(
    s: Seq<Slot>,
    idx: Index,
    dir: Direction,
    depth: nat,
    cap: nat,
) -> (Seq<Slot>, Seq<Index>)
    decreases spec_push_fuel(cap, depth), 1int,
{
    let my_pos = spec_pos_at(s, idx);
    if depth > cap {
        (s, Seq::empty())
    } else {
        match spec_step(my_pos, dir) {
            None => (s, Seq::empty()),
            Some(next) => {
                if spec_has_card_at(s, next) {
                    let nidx = spec_card_index_at(s, next)->Some_0;
                    let sub = spec_push(s, nidx, dir, depth + 2, cap);
                    let s2 = sub.0;
                    let m2 = sub.1;
                    if m2.len() == 0 {
                        (s2, m2)
                    } else {
                        if spec_valid_index(s2, idx) && spec_pos_at(s2, idx) == my_pos
                            && !spec_has_card_at(s2, next) {
                            (spec_move(s2, idx, next), spec_insert_unique(m2, idx))
                        } else {
                            (s2, m2)
                        }
                    }
                } else {
                    (spec_move(s, idx, next), seq![idx])
                }
            },
        }
    }
}

/// A double push: the base chain push issued twice in sequence. The second
/// push happens only if the first moved something.
pub open spec fn spec_push_double(
    s: Seq<Slot>,
    idx: Index,
    dir: Direction,
    depth: nat,
    cap: nat,
) -> (Seq<Slot>, Seq<Index>)
    decreases spec_push_fuel(cap, depth), 2int,
{
    let first = spec_push_normal(s, idx, dir, depth, cap);
    if first.1.len() == 0 {
        first
    } else {
        let second = spec_push_normal(first.0, idx, dir, depth, cap);
        (second.0, spec_union_seq(second.1, first.1))
    }
}

/// The cell a ghost walk ends on: starting one step from `p` in `dir`, the
/// first unoccupied cell, looked for over at most `k` steps.
pub open spec fn spec_ghost_dest(s: Seq<Slot>, p: Position, dir: Direction, k: nat) -> Option<
    Position,
>
    decreases k,
{
    if k == 0 {
        None
    } else {
        match spec_step(p, dir) {
            None => None,
            Some(q) => if spec_has_card_at(s, q) {
                spec_ghost_dest(s, q, dir, (k - 1) as nat)
            } else {
                Some(q)
            },
        }
    }
}

/// A ghost push: ignore occupancy and teleport to the first empty cell in
/// `dir`. The walk is bounded by one more than the card count, which the
/// pigeonhole argument shows is enough whenever the ray stays on the grid.
pub open spec fn spec_push_ghost(s: Seq<Slot>, idx: Index, dir: Direction, cap: nat) -> (
    Seq<Slot>,
    Seq<Index>,
) {
    let my_pos = spec_pos_at(s, idx);
    match spec_ghost_dest(s, my_pos, dir, cap + 1) {
        Some(q) => (spec_move(s, idx, q), seq![idx]),
        None => (s, Seq::empty()),
    }
}

/// One arm of a redirect fan: push the neighbour in `pdir`, if there is
/// one. Reports the slots after, the moved handles, and whether a
/// neighbour was there at all.
pub open spec fn spec_redirect_arm(
    s: Seq<Slot>,
    my_pos: Position,
    pdir: Direction,
    depth: nat,
    cap: nat,
) -> (Seq<Slot>, Seq<Index>, bool)
    decreases spec_push_fuel(cap, depth), 1int,
{
    if depth > cap {
        (s, Seq::empty(), false)
    } else {
        match spec_step(my_pos, pdir) {
            None => (s, Seq::empty(), false),
            Some(q) => {
                if spec_has_card_at(s, q) {
                    let nidx = spec_card_index_at(s, q)->Some_0;
                    let sub = spec_push(s, nidx, pdir, depth + 1, cap);
                    (sub.0, sub.1, true)
                } else {
                    (s, Seq::empty(), false)
                }
            },
        }
    }
}

/// A redirect push: fan the push out into `dir` and its two perpendiculars
/// (in that order), then step one cell in `dir` if this card's own cell was
/// not disturbed and the cell ahead is free. If the `dir` arm had a
/// neighbour and moved nothing, the whole push is an empty move.
pub open spec fn spec_push_redirect(
    s: Seq<Slot>,
    idx: Index,
    dir: Direction,
    depth: nat,
    cap: nat,
) -> (Seq<Slot>, Seq<Index>)
    decreases spec_push_fuel(cap, depth), 2int,
{
    let my_pos = spec_pos_at(s, idx);
    if depth > cap {
        (s, Seq::empty())
    } else {
        let a1 = spec_redirect_arm(s, my_pos, dir, depth, cap);
        if a1.2 && a1.1.len() == 0 {
            (a1.0, Seq::empty())
        } else {
            let u1 = spec_union_seq(Seq::empty(), a1.1);
            let a2 = spec_redirect_arm(a1.0, my_pos, spec_anticlockwise(dir), depth, cap);
            let u2 = spec_union_seq(u1, a2.1);
            let a3 = spec_redirect_arm(a2.0, my_pos, spec_clockwise(dir), depth, cap);
            let u3 = spec_union_seq(u2, a3.1);
            let s3 = a3.0;
            if spec_valid_index(s3, idx) && spec_pos_at(s3, idx) == my_pos && (spec_step(
                my_pos,
                dir,
            ) matches Some(t) && !spec_has_card_at(s3, t)) {
                (
                    spec_move(s3, idx, spec_step(my_pos, dir)->Some_0),
                    spec_insert_unique(u3, idx),
                )
            } else {
                (s3, u3)
            }
        }
    }
}

/// Whether the card at `idx` can be pushed in `dir` and how long the chain
/// would be, dispatched on its variant. `None` is a failed push.
pub open spec fn spec_can_push(s: Seq<Slot>, idx: Index, dir: Direction, depth: nat, cap: nat) -> Option<
    nat,
>
    decreases spec_push_fuel(cap, depth), 3int,
{
    match spec_type_at(s, idx) {
        CardType::Block => None,
        CardType::Normal => spec_can_push_normal(s, idx, dir, depth, cap),
        CardType::Double => spec_can_push_double(s, idx, dir, depth, cap),
        CardType::GhostCard => spec_can_push_ghost(s, idx, dir),
        CardType::Score => spec_can_push_normal(s, idx, dir, depth, cap),
        CardType::Redirect => spec_can_push_normal(s, idx, dir, depth, cap),
        CardType::Reverse => spec_can_push_normal(s, idx, spec_opposite(dir), depth, cap),
    }
}

/// The base chain-length check: fail past the cap or at the grid edge;
/// an empty cell ahead is a chain of length zero; otherwise one more than
/// the chain ahead.
pub open spec fn spec_can_push_normal(
    s: Seq<Slot>,
    idx: Index,
    dir: Direction,
    depth: nat,
    cap: nat,
) -> Option<nat>
    decreases spec_push_fuel(cap, depth), 1int,
{
    let my_pos = spec_pos_at(s, idx);
    if depth > cap {
        None
    } else {
        match spec_step(my_pos, dir) {
            None => None,
            Some(next) => {
                if spec_has_card_at(s, next) {
                    let nidx = spec_card_index_at(s, next)->Some_0;
                    match spec_can_push(s, nidx, dir, depth + 1, cap) {
                        Some(n) => Some(n + 1),
                        None => None,
                    }
                } else {
                    Some(0)
                }
            },
        }
    }
}

/// The double check: the base check, and where that reports nothing to
/// push (or a failure), a look two cells ahead instead.
pub open spec fn spec_can_push_double(
    s: Seq<Slot>,
    idx: Index,
    dir: Direction,
    depth: nat,
    cap: nat,
) -> Option<nat>
    decreases spec_push_fuel(cap, depth), 2int,
{
    let my_pos = spec_pos_at(s, idx);
    if depth > cap {
        None
    } else {
        match spec_can_push_normal(s, idx, dir, depth, cap) {
            Some(n) => if n >= 1 {
                Some(n)
            } else {
                spec_can_push_double_far(s, my_pos, dir, depth, cap)
            },
            None => spec_can_push_double_far(s, my_pos, dir, depth, cap),
        }
    }
}

/// The two-cells-ahead half of the double check.
pub open spec fn spec_can_push_double_far(
    s: Seq<Slot>,
    my_pos: Position,
    dir: Direction,
    depth: nat,
    cap: nat,
) -> Option<nat>
    decreases spec_push_fuel(cap, depth), 1int,
{
    if depth > cap {
        Some(0)
    } else {
        match spec_step(my_pos, dir) {
            None => Some(0),
            Some(mid) => match spec_step(mid, dir) {
                None => Some(0),
                Some(two) => {
                    if spec_has_card_at(s, two) {
                        let nidx = spec_card_index_at(s, two)->Some_0;
                        match spec_can_push(s, nidx, dir, depth + 1, cap) {
                            Some(n) => Some(n + 1),
                            None => Some(0),
                        }
                    } else {
                        Some(0)
                    }
                },
            },
        }
    }
}

/// The ghost check: a ghost is never blocked. The chain counts one
/// exactly when the cell directly ahead is occupied — whether or not the
/// card there could itself be pushed, since a ghost's push ignores
/// occupancy and teleports past any run of cards — and zero when the
/// cell ahead is empty or off the grid. (Of the readings of "an occupied
/// cell lies ahead", the cell directly ahead is the one chosen here.)
pub open spec fn spec_can_push_ghost(s: Seq<Slot>, idx: Index, dir: Direction) -> Option<nat> {
    match spec_step(spec_pos_at(s, idx), dir) {
        Some(next) => if spec_has_card_at(s, next) {
            Some(1)
        } else {
            Some(0)
        },
        None => Some(0),
    }
}

/// `t` holds the same cards as `s`, in the same slots with the same
/// generations, owners and variants; only positions may differ.
pub open spec fn spec_same_cards(s: Seq<Slot>, t: Seq<Slot>) -> bool {
    &&& t.len() == s.len()
    &&& forall|i: int| 0 <= i < s.len() ==> (#[trigger] t[i]).gen == s[i].gen
    &&& forall|i: int|
        0 <= i < s.len() ==> ((#[trigger] t[i]).card is Some <==> s[i].card is Some)
    &&& forall|i: int|
        0 <= i < s.len() && (#[trigger] s[i]).card is Some ==> {
            &&& t[i].card->Some_0.belonging_player == s[i].card->Some_0.belonging_player
            &&& t[i].card->Some_0.card == s[i].card->Some_0.card
        }
}

pub proof fn lemma_same_cards_trans(s: Seq<Slot>, t: Seq<Slot>, u: Seq<Slot>)
    requires
        spec_same_cards(s, t),
        spec_same_cards(t, u),
    ensures
        spec_same_cards(s, u),
{
}

/// Boards holding the same cards have the same occupied count.
pub proof fn lemma_same_cards_count(s: Seq<Slot>, t: Seq<Slot>)
    requires
        spec_same_cards(s, t),
    ensures
        spec_count(t) == spec_count(s),
    decreases s.len(),
{
    if s.len() > 0 {
        assert(spec_same_cards(s.drop_last(), t.drop_last()));
        lemma_same_cards_count(s.drop_last(), t.drop_last());
    }
}

proof fn lemma_move_same_cards(s: Seq<Slot>, idx: Index, p: Position)
    requires
        spec_valid_index(s, idx),
    ensures
        spec_same_cards(s, spec_move(s, idx, p)),
{
}

pub proof fn lemma_push_preserves(s: Seq<Slot>, idx: Index, dir: Direction, depth: nat, cap: nat)
    requires
        s.len() <= usize::MAX,
        spec_valid_index(s, idx),
    ensures
        spec_same_cards(s, spec_push(s, idx, dir, depth, cap).0),
    decreases spec_push_fuel(cap, depth), 3int,
{
    match spec_type_at(s, idx) {
        CardType::Block => {},
        CardType::Normal => lemma_push_normal_preserves(s, idx, dir, depth, cap),
        CardType::Double => lemma_push_double_preserves(s, idx, dir, depth, cap),
        CardType::GhostCard => {
            match spec_ghost_dest(s, spec_pos_at(s, idx), dir, cap + 1) {
                Some(q) => lemma_move_same_cards(s, idx, q),
                None => {},
            }
        },
        CardType::Score => lemma_push_normal_preserves(s, idx, dir, depth, cap),
        CardType::Redirect => lemma_push_redirect_preserves(s, idx, dir, depth, cap),
        CardType::Reverse => lemma_push_normal_preserves(s, idx, spec_opposite(dir), depth, cap),
    }
}

proof fn lemma_push_normal_preserves(
    s: Seq<Slot>,
    idx: Index,
    dir: Direction,
    depth: nat,
    cap: nat,
)
    requires
        s.len() <= usize::MAX,
        spec_valid_index(s, idx),
    ensures
        spec_same_cards(s, spec_push_normal(s, idx, dir, depth, cap).0),
    decreases spec_push_fuel(cap, depth), 1int,
{
    let my_pos = spec_pos_at(s, idx);
    if depth > cap {
    } else {
        match spec_step(my_pos, dir) {
            None => {},
            Some(next) => {
                if spec_has_card_at(s, next) {
                    let nidx = spec_card_index_at(s, next)->Some_0;
                    let w = spec_slot_with(s, next);
                    assert(spec_occupied_at(s, w, next));
                    lemma_push_preserves(s, nidx, dir, depth + 2, cap);
                    let s2 = spec_push(s, nidx, dir, depth + 2, cap).0;
                    if spec_push(s, nidx, dir, depth + 2, cap).1.len() != 0 {
                        if spec_valid_index(s2, idx) && spec_pos_at(s2, idx) == my_pos
                            && !spec_has_card_at(s2, next) {
                            lemma_move_same_cards(s2, idx, next);
                            lemma_same_cards_trans(s, s2, spec_move(s2, idx, next));
                        }
                    }
                } else {
                    lemma_move_same_cards(s, idx, next);
                }
            },
        }
    }
}

proof fn lemma_push_double_preserves(
    s: Seq<Slot>,
    idx: Index,
    dir: Direction,
    depth: nat,
    cap: nat,
)
    requires
        s.len() <= usize::MAX,
        spec_valid_index(s, idx),
    ensures
        spec_same_cards(s, spec_push_double(s, idx, dir, depth, cap).0),
    decreases spec_push_fuel(cap, depth), 2int,
{
    lemma_push_normal_preserves(s, idx, dir, depth, cap);
    let first = spec_push_normal(s, idx, dir, depth, cap);
    if first.1.len() != 0 {
        assert(spec_valid_index(first.0, idx));
        lemma_push_normal_preserves(first.0, idx, dir, depth, cap);
        lemma_same_cards_trans(s, first.0, spec_push_normal(first.0, idx, dir, depth, cap).0);
    }
}

proof fn lemma_redirect_arm_preserves(
    s: Seq<Slot>,
    my_pos: Position,
    pdir: Direction,
    depth: nat,
    cap: nat,
)
    requires
        s.len() <= usize::MAX,
    ensures
        spec_same_cards(s, spec_redirect_arm(s, my_pos, pdir, depth, cap).0),
    decreases spec_push_fuel(cap, depth), 1int,
{
    if depth > cap {
    } else {
        match spec_step(my_pos, pdir) {
            None => {},
            Some(q) => {
                if spec_has_card_at(s, q) {
                    let w = spec_slot_with(s, q);
                    assert(spec_occupied_at(s, w, q));
                    let nidx = spec_card_index_at(s, q)->Some_0;
                    lemma_push_preserves(s, nidx, pdir, depth + 1, cap);
                }
            },
        }
    }
}

proof fn lemma_push_redirect_preserves(
    s: Seq<Slot>,
    idx: Index,
    dir: Direction,
    depth: nat,
    cap: nat,
)
    requires
        s.len() <= usize::MAX,
        spec_valid_index(s, idx),
    ensures
        spec_same_cards(s, spec_push_redirect(s, idx, dir, depth, cap).0),
    decreases spec_push_fuel(cap, depth), 2int,
{
    let my_pos = spec_pos_at(s, idx);
    if depth > cap {
    } else {
        lemma_redirect_arm_preserves(s, my_pos, dir, depth, cap);
        let a1 = spec_redirect_arm(s, my_pos, dir, depth, cap);
        if a1.2 && a1.1.len() == 0 {
        } else {
            lemma_redirect_arm_preserves(a1.0, my_pos, spec_anticlockwise(dir), depth, cap);
            let a2 = spec_redirect_arm(a1.0, my_pos, spec_anticlockwise(dir), depth, cap);
            lemma_redirect_arm_preserves(a2.0, my_pos, spec_clockwise(dir), depth, cap);
            let a3 = spec_redirect_arm(a2.0, my_pos, spec_clockwise(dir), depth, cap);
            lemma_same_cards_trans(s, a1.0, a2.0);
            lemma_same_cards_trans(s, a2.0, a3.0);
            let s3 = a3.0;
            if spec_valid_index(s3, idx) && spec_pos_at(s3, idx) == my_pos && (spec_step(
                my_pos,
                dir,
            ) matches Some(t) && !spec_has_card_at(s3, t)) {
                lemma_move_same_cards(s3, idx, spec_step(my_pos, dir)->Some_0);
                lemma_same_cards_trans(s, s3, spec_move(s3, idx, spec_step(my_pos, dir)->Some_0));
            }
        }
    }
}

/// The largest chain length a push check can report at this level.
pub open spec fn spec_chain_bound(cap: nat, depth: nat) -> nat {
    1 + if depth > cap {
        0nat
    } else {
        (cap + 1 - depth) as nat
    }
}

pub proof fn lemma_can_push_bound(s: Seq<Slot>, idx: Index, dir: Direction, depth: nat, cap: nat)
    ensures
        spec_can_push(s, idx, dir, depth, cap) matches Some(n) ==> n <= spec_chain_bound(
            cap,
            depth,
        ),
    decreases spec_push_fuel(cap, depth), 3int,
{
    match spec_type_at(s, idx) {
        CardType::Block => {},
        CardType::Normal => lemma_can_push_normal_bound(s, idx, dir, depth, cap),
        CardType::Double => lemma_can_push_double_bound(s, idx, dir, depth, cap),
        CardType::GhostCard => {},
        CardType::Score => lemma_can_push_normal_bound(s, idx, dir, depth, cap),
        CardType::Redirect => lemma_can_push_normal_bound(s, idx, dir, depth, cap),
        CardType::Reverse => lemma_can_push_normal_bound(s, idx, spec_opposite(dir), depth, cap),
    }
}

proof fn lemma_can_push_normal_bound(
    s: Seq<Slot>,
    idx: Index,
    dir: Direction,
    depth: nat,
    cap: nat,
)
    ensures
        spec_can_push_normal(s, idx, dir, depth, cap) matches Some(n) ==> n <= spec_chain_bound(
            cap,
            depth,
        ),
    decreases spec_push_fuel(cap, depth), 1int,
{
    let my_pos = spec_pos_at(s, idx);
    if depth > cap {
    } else {
        match spec_step(my_pos, dir) {
            None => {},
            Some(next) => {
                if spec_has_card_at(s, next) {
                    let nidx = spec_card_index_at(s, next)->Some_0;
                    lemma_can_push_bound(s, nidx, dir, depth + 1, cap);
                }
            },
        }
    }
}

proof fn lemma_can_push_double_bound(
    s: Seq<Slot>,
    idx: Index,
    dir: Direction,
    depth: nat,
    cap: nat,
)
    ensures
        spec_can_push_double(s, idx, dir, depth, cap) matches Some(n) ==> n <= spec_chain_bound(
            cap,
            depth,
        ),
    decreases spec_push_fuel(cap, depth), 2int,
{
    let my_pos = spec_pos_at(s, idx);
    if depth > cap {
    } else {
        lemma_can_push_normal_bound(s, idx, dir, depth, cap);
        lemma_can_push_double_far_bound(s, my_pos, dir, depth, cap);
    }
}

proof fn lemma_can_push_double_far_bound(
    s: Seq<Slot>,
    my_pos: Position,
    dir: Direction,
    depth: nat,
    cap: nat,
)
    ensures
        spec_can_push_double_far(s, my_pos, dir, depth, cap) matches Some(n) ==> n
            <= spec_chain_bound(cap, depth),
    decreases spec_push_fuel(cap, depth), 1int,
{
    if depth > cap {
    } else {
        match spec_step(my_pos, dir) {
            None => {},
            Some(mid) => match spec_step(mid, dir) {
                None => {},
                Some(two) => {
                    if spec_has_card_at(s, two) {
                        let nidx = spec_card_index_at(s, two)->Some_0;
                        lemma_can_push_bound(s, nidx, dir, depth + 1, cap);
                    }
                },
            },
        }
    }
}

impl CardData {
    /// Push the card at `index` in `direction`, dispatched on its variant.
    pub fn push(board: &mut Board, index: Index, direction: Direction, depth: usize) -> (r:
        MovedSet)
        requires
            old(board).wf(),
            spec_valid_index(old(board)@, index),
            depth <= spec_count(old(board)@) + 1,
        ensures
            final(board).wf(),
            spec_same_cards(old(board)@, final(board)@),
            (final(board)@, r@) == spec_push(
                old(board)@,
                index,
                direction,
                depth as nat + 1,
                spec_count(old(board)@),
            ),
        decreases spec_push_fuel(spec_count(old(board)@), depth as nat + 1), 3int,
    {
        proof {
            crate::board::lemma_wf_bounds(*board);
        }
        let ty = board.get_card(index).unwrap().card.to_type();
        match ty {
            CardType::Block => Block::push(board, index, direction, depth + 1),
            CardType::Normal => Normal::push(board, index, direction, depth + 1),
            CardType::Double => Double::push(board, index, direction, depth + 1),
            CardType::GhostCard => GhostCard::push(board, index, direction, depth + 1),
            CardType::Score => Score::push(board, index, direction, depth + 1),
            CardType::Redirect => Redirect::push(board, index, direction, depth + 1),
            CardType::Reverse => Reverse::push(board, index, direction, depth + 1),
        }
    }

    /// Whether the card at `index` can be pushed in `direction`, dispatched
    /// on its variant.
    pub fn can_push(board: &Board, index: Index, direction: Direction, depth: usize) -> (r:
        PushStatus)
        requires
            board.wf(),
            spec_valid_index(board@, index),
            depth <= spec_count(board@) + 1,
        ensures
            r is Fail <==> spec_can_push(
                board@,
                index,
                direction,
                depth as nat + 1,
                spec_count(board@),
            ) is None,
            r matches PushStatus::Success(n) ==> Some(n as nat) == spec_can_push(
                board@,
                index,
                direction,
                depth as nat + 1,
                spec_count(board@),
            ),
        decreases spec_push_fuel(spec_count(board@), depth as nat + 1), 3int,
    {
        proof {
            crate::board::lemma_wf_bounds(*board);
        }
        let ty = board.get_card(index).unwrap().card.to_type();
        match ty {
            CardType::Block => Block::can_push(board, index, direction, depth + 1),
            CardType::Normal => Normal::can_push(board, index, direction, depth + 1),
            CardType::Double => Double::can_push(board, index, direction, depth + 1),
            CardType::GhostCard => GhostCard::can_push(board, index, direction, depth + 1),
            CardType::Score => Score::can_push(board, index, direction, depth + 1),
            CardType::Redirect => Redirect::can_push(board, index, direction, depth + 1),
            CardType::Reverse => Reverse::can_push(board, index, direction, depth + 1),
        }
    }

    /// Place a card of type `card` for `player` at `position`, then resolve
    /// the entry push in `direction`. Score anchors cannot be placed.
    pub fn place(
        board: &mut Board,
        card: CardType,
        player: Player,
        position: Position,
        direction: Direction,
    ) -> (r: (Index, MovedSet))
        requires
            old(board).wf(),
            card != CardType::Score,
            !spec_has_card_at(old(board)@, position),
            spec_count(old(board)@) < crate::board::CARD_LIMIT,
        ensures
            final(board).wf(),
            ({
                let placed = spec_place(old(board)@, card, player, position, direction);
                (final(board)@, r.0, r.1@) == placed
            }),
    {
        crate::card::normal::normal_placement(board, player, position, direction, card.to_data())
    }

    /// Whether a card of type `card` may be placed at `position` pushing in
    /// `direction`. Score anchors are placed by the board at game start,
    /// never by a player.
    pub fn can_place(
        board: &Board,
        card: CardType,
        _player: Player,
        position: Position,
        direction: Direction,
    ) -> (r: PlaceStatus)
        requires
            board.wf(),
            card != CardType::Score,
        ensures
            r is Success <==> spec_can_place(board@, card, position, direction),
    {
        crate::card::normal::normal_placement_rule(board, position, direction)
    }
}

/// The placement-legality rule shared by every placeable variant: the cell
/// one step ahead in the push direction must be occupied, so the placement
/// has something to push.
pub open spec fn spec_placement_rule(s: Seq<Slot>, pos: Position, dir: Direction) -> bool {
    match spec_step(pos, dir) {
        Some(q) => spec_has_card_at(s, q),
        None => false,
    }
}

/// Whether a card of type `ty` may be placed at `pos` pushing in `dir`.
/// Score anchors are placed by the board at game start, never by a player.
pub open spec fn spec_can_place(s: Seq<Slot>, ty: CardType, pos: Position, dir: Direction) -> bool {
    match ty {
        CardType::Score => false,
        _ => spec_placement_rule(s, pos, dir),
    }
}

/// The effect of placing a card of type `ty` for `pl` at `pos`: the card is
/// added, then pushed once in `dir`. Reports the slots after, the new
/// card's handle, and the handles moved by the entry push.
pub open spec fn spec_place(
    s: Seq<Slot>,
    ty: CardType,
    pl: Player,
    pos: Position,
    dir: Direction,
) -> (Seq<Slot>, Index, Seq<Index>) {
    let added = spec_add(s, pl, pos, spec_to_data(ty));
    let s1 = added.0;
    let idx = added.1;
    let pushed = spec_push(s1, idx, dir, 1, spec_count(s1));
    (pushed.0, idx, pushed.1)
}

} // verus!
