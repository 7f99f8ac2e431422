//! The board: a positional store of placed cards.
//!
//! Cards live in an arena of slots with stable handles (slot number plus a
//! generation tag, so a handle to a removed card goes stale), together with a
//! coordinate-to-slot index that gives O(1) occupancy lookup. The index is an
//! invariant-bearing cache: [`Board::wf`] states that it mirrors the slots
//! exactly, and every mutating operation proves that it stays that way.
use vstd::prelude::*;

use crate::card::CardData;
use crate::card::CardType;
use crate::card::spec_to_type;
use crate::types::Direction;
use crate::types::Player;
use crate::types::Position;
use crate::types::spec_step;
use crate::card::PlaceStatus;
use crate::card::PushStatus;
use crate::moved::MovedSet;
use std::collections::HashMap;

verus! {

broadcast use vstd::std_specs::hash::group_hash_axioms;

/// The most cards a board will hold. Placement on a board already holding
/// this many cards is rejected as illegal; the bound exists only so that
/// slot numbers, chain lengths and scores (up to four points per card,
/// cubed by the leaf heuristic) provably fit their integer types.
pub const CARD_LIMIT: usize = 0x4_0000;

/// A card that stands on the board. `belonging_player` is `None` exactly for
/// the two fixed score anchors created when the board is built.
#[derive(Debug, Clone, Copy)]
pub struct PlacedCard {
    pub belonging_player: Option<Player>,
    pub position: Position,
    pub card: CardData,
}

/// One slot of the arena: a generation tag and the card held, if any.
#[derive(Debug, Clone, Copy)]
pub struct Slot {
    pub gen: u64,
    pub card: Option<PlacedCard>,
}

/// A stable handle to a board slot. The generation tag detects handles that
/// outlived the card they pointed at.
#[derive(Debug, Clone, Copy, PartialEq, Eq, Structural)]
pub struct Index {
    pub slot: usize,
    pub gen: u64,
}

/// The board: the slot arena plus the coordinate index cache.
#[derive(Debug)]
pub struct Board {
    slots: Vec<Slot>,
    index: HashMap<u64, usize>,
    count: usize,
}

impl View for Board {
    type V = Seq<Slot>;

    closed spec fn view(&self) -> Seq<Slot> {
        self.slots@
    }
}

/// Slot `i` of `s` holds a card standing at `p`.
pub open spec fn spec_occupied_at(s: Seq<Slot>, i: int, p: Position) -> bool {
    &&& 0 <= i < s.len()
    &&& s[i].card is Some
    &&& s[i].card->Some_0.position == p
}

/// Some card stands at `p`.
pub open spec fn spec_has_card_at(s: Seq<Slot>, p: Position) -> bool {
    exists|i: int| spec_occupied_at(s, i, p)
}

/// The slot of the card standing at `p` (meaningful when one exists; unique
/// on boards whose occupied positions are distinct).
pub open spec fn spec_slot_with(s: Seq<Slot>, p: Position) -> int {
    choose|i: int| spec_occupied_at(s, i, p)
}

/// The handle of the card standing at `p`, if any.
pub open spec fn spec_card_index_at(s: Seq<Slot>, p: Position) -> Option<Index> {
    if spec_has_card_at(s, p) {
        let i = spec_slot_with(s, p);
        Some(Index { slot: i as usize, gen: s[i].gen })
    } else {
        None
    }
}

/// `idx` is a live handle into `s`.
pub open spec fn spec_valid_index(s: Seq<Slot>, idx: Index) -> bool {
    idx.slot < s.len() && s[idx.slot as int].gen == idx.gen && s[idx.slot as int].card is Some
}

/// The card a handle points at, or `None` for a stale or unused handle.
pub open spec fn spec_get(s: Seq<Slot>, idx: Index) -> Option<PlacedCard> {
    if spec_valid_index(s, idx) {
        Some(s[idx.slot as int].card->Some_0)
    } else {
        None
    }
}

/// No two occupied slots of `s` share a position.
pub open spec fn spec_positions_distinct(s: Seq<Slot>) -> bool {
    forall|i: int, j: int|
        0 <= i < s.len() && 0 <= j < s.len() && i != j && s[i].card is Some && s[j].card is Some
            ==> (#[trigger] s[i].card)->Some_0.position != (#[trigger] s[j].card)->Some_0.position
}

/// A score never exceeds four points per slot.
pub proof fn lemma_score_le_len(s: Seq<Slot>, pl: Player, i: int)
    ensures
        spec_score_upto(s, pl, i) <= 4 * (if i < 0 {
            0int
        } else {
            i
        }),
    decreases i,
{
    if i > 0 {
        lemma_score_le_len(s, pl, i - 1);
    }
}

/// The slot a fresh anchor occupies.
pub open spec fn spec_anchor_slot(p: Position) -> Slot {
    Slot {
        gen: 0,
        card: Some(
            PlacedCard {
                belonging_player: None,
                position: p,
                card: crate::card::spec_to_data(CardType::Score),
            },
        ),
    }
}

/// The slots of a board fresh from [`Board::with_anchors`].
pub open spec fn spec_initial_slots(p0: Position, p1: Position) -> Seq<Slot> {
    seq![spec_anchor_slot(p0), spec_anchor_slot(p1)]
}

/// The number of occupied slots of `s`.
pub open spec fn spec_count(s: Seq<Slot>) -> nat
    decreases s.len(),
{
    if s.len() == 0 {
        0
    } else {
        spec_count(s.drop_last()) + if s.last().card is Some {
            1nat
        } else {
            0nat
        }
    }
}

/// The cache key of a coordinate: the two 32-bit halves packed into a `u64`.
pub closed spec fn spec_pos_key(p: Position) -> u64 {
    ((p.x as u32 as u64) << 32u64) | (p.y as u32 as u64)
}

/// Distinct coordinates have distinct cache keys.
pub proof fn lemma_pos_key_injective(p: Position, q: Position)
    ensures
        spec_pos_key(p) == spec_pos_key(q) ==> p == q,
{
    let px = p.x;
    let py = p.y;
    let qx = q.x;
    let qy = q.y;
    let a = px as u32;
    let b = py as u32;
    let c = qx as u32;
    let d = qy as u32;
    assert((((a as u64) << 32u64) | (b as u64)) == (((c as u64) << 32u64) | (d as u64)) ==> a == c
        && b == d) by (bit_vector);
    assert(px as u32 as i32 == px) by (bit_vector);
    assert(py as u32 as i32 == py) by (bit_vector);
    assert(qx as u32 as i32 == qx) by (bit_vector);
    assert(qy as u32 as i32 == qy) by (bit_vector);
}

fn pos_key(p: Position) -> (r: u64)
    ensures
        r == spec_pos_key(p),
{
    ((p.x as u32 as u64) << 32u64) | (p.y as u32 as u64)
}

impl Board {
    /// The board is well formed: the occupied-slot count is cached correctly,
    /// the arena is within its size bound, and the coordinate index mirrors
    /// the slots exactly — every occupied slot is indexed under its
    /// position's key, and every index entry points back at an occupied slot
    /// with that key. This is the invariant every operation preserves.
    pub closed spec fn wf(self) -> bool {
        &&& self.slots@.len() <= CARD_LIMIT
        &&& self.count == spec_count(self.slots@)
        &&& forall|i: int|
            0 <= i < self.slots@.len() && (#[trigger] self.slots@[i]).card is Some ==> {
                let k = spec_pos_key(self.slots@[i].card->Some_0.position);
                self.index@.contains_key(k) && self.index@[k] == i
            }
        &&& forall|k: u64|
            #[trigger] self.index@.contains_key(k) ==> {
                let i = self.index@[k] as int;
                &&& 0 <= i < self.slots@.len()
                &&& self.slots@[i].card is Some
                &&& spec_pos_key(self.slots@[i].card->Some_0.position) == k
            }
    }

    /// What the private cache holds for position `p`: the slot it maps the
    /// position's key to, if any.
    pub closed spec fn spec_cache_entry(self, p: Position) -> Option<int> {
        if self.index@.contains_key(spec_pos_key(p)) {
            Some(self.index@[spec_pos_key(p)] as int)
        } else {
            None
        }
    }
}

/// On a well-formed board the position cache exactly mirrors occupancy:
/// the cache holds an entry for a position exactly when a card stands there,
/// and that entry is the card's slot.
pub proof fn lemma_cache_mirrors_occupancy(b: Board, p: Position)
    requires
        b.wf(),
    ensures
        b.spec_cache_entry(p) matches Some(i) ==> spec_occupied_at(b@, i, p),
        b.spec_cache_entry(p) is None ==> !spec_has_card_at(b@, p),
{
    if b.spec_cache_entry(p) is Some {
        let i = b.spec_cache_entry(p)->Some_0;
        let q = b@[i].card->Some_0.position;
        lemma_pos_key_injective(p, q);
    }
    if b.spec_cache_entry(p) is None {
        if spec_has_card_at(b@, p) {
            let i = choose|i: int| spec_occupied_at(b@, i, p);
            assert(b.index@.contains_key(spec_pos_key(p)));
        }
    }
}

/// A well-formed board is within its size bound.
pub proof fn lemma_wf_bounds(b: Board)
    requires
        b.wf(),
    ensures
        b@.len() <= CARD_LIMIT,
        spec_count(b@) <= CARD_LIMIT,
{
    lemma_count_le_len(b@);
}

/// A well-formed board has distinct occupied positions.
pub proof fn lemma_wf_positions_distinct(b: Board)
    requires
        b.wf(),
    ensures
        spec_positions_distinct(b@),
{
    assert forall|i: int, j: int|
        0 <= i < b@.len() && 0 <= j < b@.len() && i != j && b@[i].card is Some
            && b@[j].card is Some implies (#[trigger] b@[i].card)->Some_0.position != (
    #[trigger] b@[j].card)->Some_0.position by {
        let pi = b@[i].card->Some_0.position;
        let pj = b@[j].card->Some_0.position;
        if pi == pj {
            assert(b.index@[spec_pos_key(pi)] == i);
            assert(b.index@[spec_pos_key(pj)] == j);
        }
    }
}

pub proof fn lemma_count_le_len(s: Seq<Slot>)
    ensures
        spec_count(s) <= s.len(),
    decreases s.len(),
{
    if s.len() > 0 {
        lemma_count_le_len(s.drop_last());
    }
}

proof fn lemma_count_update(s: Seq<Slot>, i: int, v: Slot)
    requires
        0 <= i < s.len(),
    ensures
        spec_count(s.update(i, v)) + (if s[i].card is Some {
            1nat
        } else {
            0nat
        }) == spec_count(s) + (if v.card is Some {
            1nat
        } else {
            0nat
        }),
    decreases s.len(),
{
    let t = s.update(i, v);
    if i == s.len() - 1 {
        assert(t.drop_last() =~= s.drop_last());
    } else {
        assert(t.drop_last() =~= s.drop_last().update(i, v));
        lemma_count_update(s.drop_last(), i, v);
    }
}

proof fn lemma_count_push(s: Seq<Slot>, v: Slot)
    ensures
        spec_count(s.push(v)) == spec_count(s) + (if v.card is Some {
            1nat
        } else {
            0nat
        }),
{
    assert(s.push(v).drop_last() =~= s);
}

/// On a fully occupied prefix, the count reaches the length.
proof fn lemma_count_full(s: Seq<Slot>)
    requires
        forall|i: int| 0 <= i < s.len() ==> (#[trigger] s[i]).card is Some,
    ensures
        spec_count(s) == s.len(),
    decreases s.len(),
{
    if s.len() > 0 {
        lemma_count_full(s.drop_last());
    }
}

impl Board {
    /// A fresh board holding only the two unowned score anchors, at `(0, 0)`
    /// and `(1, 0)`.
    pub fn new() -> (r: Board)
        ensures
            r.wf(),
            r@ == spec_initial_slots(Position { x: 0, y: 0 }, Position { x: 1, y: 0 }),
    {
        Board::with_anchors(Position { x: 0, y: 0 }, Position { x: 1, y: 0 })
    }

    /// How many cards stand on the board.
    pub fn number_of_cards(&self) -> (r: usize)
        requires
            self.wf(),
        ensures
            r == spec_count(self@),
    {
        self.count
    }

    /// How many slots the arena holds (occupied or not).
    pub(crate) fn slot_count(&self) -> (r: usize)
        ensures
            r == self@.len(),
    {
        self.slots.len()
    }

    /// The slot at position `i` of the arena.
    pub(crate) fn slot_at(&self, i: usize) -> (r: Slot)
        requires
            i < self@.len(),
        ensures
            r == self@[i as int],
    {
        self.slots[i]
    }

    /// The card a handle points at, or `None` for a stale handle.
    pub fn get_card(&self, idx: Index) -> (r: Option<&PlacedCard>)
        ensures
            r is Some <==> spec_valid_index(self@, idx),
            r matches Some(c) ==> Some(*c) == spec_get(self@, idx),
    {
        if idx.slot < self.slots.len() {
            let slot = &self.slots[idx.slot];
            if slot.gen == idx.gen {
                match &slot.card {
                    Some(c) => Some(c),
                    None => None,
                }
            } else {
                None
            }
        } else {
            None
        }
    }

    /// The handle of the card standing at `position`, if any — an O(1)
    /// lookup through the coordinate index, proved to agree with the slots.
    pub fn get_card_position(&self, position: Position) -> (r: Option<Index>)
        requires
            self.wf(),
        ensures
            r == spec_card_index_at(self@, position),
    {
        let k = pos_key(position);
        let r = match self.index.get(&k) {
            Some(i) => Some(Index { slot: *i, gen: self.slots[*i].gen }),
            None => None,
        };
        proof {
            lemma_cache_mirrors_occupancy(*self, position);
            if self.spec_cache_entry(position) is Some {
                let i = self.spec_cache_entry(position)->Some_0;
                assert(spec_occupied_at(self@, i, position));
                assert(spec_has_card_at(self@, position));
                let j = spec_slot_with(self@, position);
                assert(spec_occupied_at(self@, j, position));
                assert(self.index@[spec_pos_key(position)] == j);
            }
        }
        r
    }
}

/// The generation tag a slot gets after its card is removed.
pub open spec fn spec_next_gen(g: u64) -> u64 {
    if g == u64::MAX {
        0
    } else {
        (g + 1) as u64
    }
}

/// The slots after the card at `idx` moves to `next` (its slot and
/// generation stay, only the recorded position changes).
pub open spec fn spec_move(s: Seq<Slot>, idx: Index, next: Position) -> Seq<Slot> {
    let pc = s[idx.slot as int].card->Some_0;
    s.update(
        idx.slot as int,
        Slot {
            gen: idx.gen,
            card: Some(
                PlacedCard {
                    belonging_player: pc.belonging_player,
                    position: next,
                    card: pc.card,
                },
            ),
        },
    )
}

/// The slots after the card at `idx` is removed: the slot empties and its
/// generation advances, so the handle goes stale.
pub open spec fn spec_remove(s: Seq<Slot>, idx: Index) -> Seq<Slot> {
    s.update(idx.slot as int, Slot { gen: spec_next_gen(idx.gen), card: None })
}

/// The first free slot at or after `i`, or the length when none is free.
pub open spec fn spec_first_free_from(s: Seq<Slot>, i: int) -> int
    decreases s.len() - i,
{
    if i < 0 || i >= s.len() {
        s.len() as int
    } else if s[i].card is None {
        i
    } else {
        spec_first_free_from(s, i + 1)
    }
}

/// The slots and the new handle after a card for `pl` is added at `pos`:
/// the first free slot is reused (keeping its generation), or the arena
/// grows by one slot.
pub open spec fn spec_add(s: Seq<Slot>, pl: Player, pos: Position, card: CardData) -> (
    Seq<Slot>,
    Index,
) {
    let i = spec_first_free_from(s, 0);
    let pc = PlacedCard { belonging_player: Some(pl), position: pos, card };
    if i < s.len() {
        (
            s.update(i, Slot { gen: s[i].gen, card: Some(pc) }),
            Index { slot: i as usize, gen: s[i].gen },
        )
    } else {
        (s.push(Slot { gen: 0, card: Some(pc) }), Index { slot: s.len() as usize, gen: 0 })
    }
}

proof fn lemma_count_ge_one(s: Seq<Slot>, i: int)
    requires
        0 <= i < s.len(),
        s[i].card is Some,
    ensures
        spec_count(s) >= 1,
    decreases s.len(),
{
    if i == s.len() - 1 {
    } else {
        lemma_count_ge_one(s.drop_last(), i);
    }
}

proof fn lemma_first_free_char(s: Seq<Slot>, i: int, k: int)
    requires
        0 <= k <= i <= s.len(),
        forall|j: int| 0 <= j < i ==> (#[trigger] s[j]).card is Some,
        i == s.len() || s[i].card is None,
    ensures
        spec_first_free_from(s, k) == i,
    decreases i - k,
{
    if k < i {
        lemma_first_free_char(s, i, k + 1);
    }
}

impl Board {
    /// Record that the card at `card` now stands at `next_position`. The
    /// destination cell must be empty.
    pub fn move_card(&mut self, card: Index, next_position: Position)
        requires
            old(self).wf(),
            spec_valid_index(old(self)@, card),
            !spec_has_card_at(old(self)@, next_position),
        ensures
            final(self).wf(),
            final(self)@ == spec_move(old(self)@, card, next_position),
    {
        proof {
            lemma_wf_positions_distinct(*self);
        }
        let slot = self.slots[card.slot];
        let pc = slot.card.unwrap();
        let k_old = pos_key(pc.position);
        let k_new = pos_key(next_position);
        self.slots[card.slot] = Slot {
            gen: slot.gen,
            card: Some(
                PlacedCard {
                    belonging_player: pc.belonging_player,
                    position: next_position,
                    card: pc.card,
                },
            ),
        };
        self.index.remove(&k_old);
        self.index.insert(k_new, card.slot);
        proof {
            let s0 = old(self)@;
            let s1 = self@;
            let c = card.slot as int;
            lemma_count_update(
                s0,
                c,
                Slot {
                    gen: card.gen,
                    card: Some(
                        PlacedCard {
                            belonging_player: pc.belonging_player,
                            position: next_position,
                            card: pc.card,
                        },
                    ),
                },
            );
            assert(spec_pos_key(next_position) != spec_pos_key(pc.position)) by {
                lemma_pos_key_injective(next_position, pc.position);
                assert(spec_occupied_at(s0, c, pc.position));
            }
            assert forall|i: int|
                0 <= i < s1.len() && (#[trigger] s1[i]).card is Some implies {
                let k = spec_pos_key(s1[i].card->Some_0.position);
                self.index@.contains_key(k) && self.index@[k] == i
            } by {
                let k = spec_pos_key(s1[i].card->Some_0.position);
                if i != c {
                    lemma_pos_key_injective(s1[i].card->Some_0.position, pc.position);
                    lemma_pos_key_injective(s1[i].card->Some_0.position, next_position);
                    assert(s0[i].card->Some_0.position != pc.position);
                    if s0[i].card->Some_0.position == next_position {
                        assert(spec_occupied_at(s0, i, next_position));
                    }
                }
            }
            assert forall|k: u64| #[trigger] self.index@.contains_key(k) implies {
                let i = self.index@[k] as int;
                &&& 0 <= i < s1.len()
                &&& s1[i].card is Some
                &&& spec_pos_key(s1[i].card->Some_0.position) == k
            } by {
                if k != k_new {
                    let i = self.index@[k] as int;
                    if i == c {
                        assert(old(self).index@[spec_pos_key(pc.position)] == c);
                    }
                }
            }
        }
    }

    /// Take the card at `idx` off the board; its handle goes stale.
    pub fn remove_card(&mut self, idx: Index) -> (r: PlacedCard)
        requires
            old(self).wf(),
            spec_valid_index(old(self)@, idx),
        ensures
            final(self).wf(),
            final(self)@ == spec_remove(old(self)@, idx),
            Some(r) == spec_get(old(self)@, idx),
    {
        proof {
            lemma_wf_positions_distinct(*self);
            lemma_count_ge_one(old(self)@, idx.slot as int);
        }
        let slot = self.slots[idx.slot];
        let pc = slot.card.unwrap();
        let new_gen = if slot.gen == u64::MAX {
            0
        } else {
            slot.gen + 1
        };
        self.slots[idx.slot] = Slot { gen: new_gen, card: None };
        self.index.remove(&pos_key(pc.position));
        self.count = self.count - 1;
        proof {
            let s0 = old(self)@;
            let s1 = self@;
            let c = idx.slot as int;
            lemma_count_update(s0, c, Slot { gen: spec_next_gen(idx.gen), card: None });
            assert forall|i: int|
                0 <= i < s1.len() && (#[trigger] s1[i]).card is Some implies {
                let k = spec_pos_key(s1[i].card->Some_0.position);
                self.index@.contains_key(k) && self.index@[k] == i
            } by {
                lemma_pos_key_injective(s1[i].card->Some_0.position, pc.position);
                assert(s0[i].card->Some_0.position != pc.position);
            }
            assert forall|k: u64| #[trigger] self.index@.contains_key(k) implies {
                let i = self.index@[k] as int;
                &&& 0 <= i < s1.len()
                &&& s1[i].card is Some
                &&& spec_pos_key(s1[i].card->Some_0.position) == k
            } by {
                let i = self.index@[k] as int;
                if i == c {
                    assert(old(self).index@[spec_pos_key(pc.position)] == c);
                }
            }
        }
        pc
    }

    /// Put a new card owned by `owner` onto the empty cell `position`,
    /// returning its fresh handle.
    pub fn add_card(&mut self, owner: Player, position: Position, card: CardData) -> (r: Index)
        requires
            old(self).wf(),
            !spec_has_card_at(old(self)@, position),
            spec_count(old(self)@) < CARD_LIMIT,
        ensures
            final(self).wf(),
            (final(self)@, r) == spec_add(old(self)@, owner, position, card),
            spec_valid_index(final(self)@, r),
            spec_get(final(self)@, r) == Some(
                PlacedCard { belonging_player: Some(owner), position, card },
            ),
            spec_count(final(self)@) == spec_count(old(self)@) + 1,
    {
        let n = self.slots.len();
        let mut i: usize = 0;
        while i < n && self.slots[i].card.is_some()
            invariant
                0 <= i <= n,
                n == self@.len(),
                forall|j: int| 0 <= j < i ==> (#[trigger] self@[j]).card is Some,
            decreases n - i,
        {
            i = i + 1;
        }
        proof {
            lemma_first_free_char(self@, i as int, 0);
            if i == n {
                lemma_count_full(self@);
            }
        }
        let pc = PlacedCard { belonging_player: Some(owner), position, card };
        let g: u64;
        if i < n {
            g = self.slots[i].gen;
            self.slots[i] = Slot { gen: g, card: Some(pc) };
        } else {
            g = 0;
            self.slots.push(Slot { gen: 0, card: Some(pc) });
        }
        self.index.insert(pos_key(position), i);
        self.count = self.count + 1;
        proof {
            let s0 = old(self)@;
            let s1 = self@;
            let c = i as int;
            if c < s0.len() {
                lemma_count_update(s0, c, Slot { gen: g, card: Some(pc) });
            } else {
                lemma_count_push(s0, Slot { gen: 0, card: Some(pc) });
            }
            assert(!old(self).index@.contains_key(spec_pos_key(position))) by {
                if old(self).index@.contains_key(spec_pos_key(position)) {
                    let j = old(self).index@[spec_pos_key(position)] as int;
                    lemma_pos_key_injective(s0[j].card->Some_0.position, position);
                    assert(spec_occupied_at(s0, j, position));
                }
            }
            assert forall|ii: int|
                0 <= ii < s1.len() && (#[trigger] s1[ii]).card is Some implies {
                let k = spec_pos_key(s1[ii].card->Some_0.position);
                self.index@.contains_key(k) && self.index@[k] == ii
            } by {
                if ii != c {
                    lemma_pos_key_injective(s1[ii].card->Some_0.position, position);
                    if s0[ii].card->Some_0.position == position {
                        assert(spec_occupied_at(s0, ii, position));
                    }
                }
            }
            assert forall|k: u64| #[trigger] self.index@.contains_key(k) implies {
                let ii = self.index@[k] as int;
                &&& 0 <= ii < s1.len()
                &&& s1[ii].card is Some
                &&& spec_pos_key(s1[ii].card->Some_0.position) == k
            } by {
                if k != spec_pos_key(position) {
                    let ii = self.index@[k] as int;
                    assert(ii != c);
                }
            }
        }
        Index { slot: i, gen: g }
    }
}

/// `q` lies strictly beyond `pos` on the ray that leaves `pos` in
/// direction `d`.
pub open spec fn spec_beyond(pos: Position, d: Direction, q: Position) -> bool {
    match d {
        Direction::North => q.x == pos.x && q.y < pos.y,
        Direction::East => q.y == pos.y && q.x > pos.x,
        Direction::South => q.x == pos.x && q.y > pos.y,
        Direction::West => q.y == pos.y && q.x < pos.x,
    }
}

/// No card stands anywhere on the open ray from `pos` in direction `d`.
pub open spec fn spec_no_cards_in_direction(s: Seq<Slot>, pos: Position, d: Direction) -> bool {
    forall|i: int|
        0 <= i < s.len() && (#[trigger] s[i]).card is Some ==> !spec_beyond(
            pos,
            d,
            s[i].card->Some_0.position,
        )
}

/// The neighbour of `p` in direction `d` holds a card of the player other
/// than `me`.
pub open spec fn spec_enemy_at(s: Seq<Slot>, me: Player, p: Position, d: Direction) -> bool {
    match spec_step(p, d) {
        Some(q) => spec_has_card_at(s, q) && {
            let c = s[spec_slot_with(s, q)].card->Some_0;
            c.belonging_player is Some && c.belonging_player->Some_0 != me
        },
        None => false,
    }
}

/// The card in slot `i` is captured: it is owned, and flanked on both sides
/// of one axis (north and south, or east and west) by cards of the other
/// player. Unowned anchors are never captured.
pub open spec fn spec_captured(s: Seq<Slot>, i: int) -> bool {
    &&& 0 <= i < s.len()
    &&& s[i].card is Some
    &&& s[i].card->Some_0.belonging_player is Some
    &&& {
        let me = s[i].card->Some_0.belonging_player->Some_0;
        let p = s[i].card->Some_0.position;
        ||| (spec_enemy_at(s, me, p, Direction::North) && spec_enemy_at(
            s,
            me,
            p,
            Direction::South,
        ))
        ||| (spec_enemy_at(s, me, p, Direction::East) && spec_enemy_at(s, me, p, Direction::West))
    }
}

/// The handles of all captured cards in slots at or after `i`, in slot
/// order, judged against the board `s` as it stands.
pub open spec fn spec_captured_from(s: Seq<Slot>, i: int) -> Seq<Index>
    decreases s.len() - i,
{
    if i < 0 || i >= s.len() {
        Seq::empty()
    } else if spec_captured(s, i) {
        seq![Index { slot: i as usize, gen: s[i].gen }] + spec_captured_from(s, i + 1)
    } else {
        spec_captured_from(s, i + 1)
    }
}

/// The handles of all captured cards, in slot order.
pub open spec fn spec_captured_list(s: Seq<Slot>) -> Seq<Index> {
    spec_captured_from(s, 0)
}

/// The slots after the cards behind all handles in `lst` are removed in
/// order.
pub open spec fn spec_remove_list(s: Seq<Slot>, lst: Seq<Index>) -> Seq<Slot>
    decreases lst.len(),
{
    if lst.len() == 0 {
        s
    } else {
        spec_remove_list(spec_remove(s, lst[0]), lst.drop_first())
    }
}

/// The removed handles of `lst` paired with the cards they pointed at in
/// `s`.
pub open spec fn spec_removed_pairs(s: Seq<Slot>, lst: Seq<Index>) -> Seq<(Index, PlacedCard)> {
    Seq::new(lst.len(), |j: int| (lst[j], s[lst[j].slot as int].card->Some_0))
}

/// The neighbour of `p` in direction `d` holds a score anchor.
pub open spec fn spec_anchor_in_direction(s: Seq<Slot>, p: Position, d: Direction) -> bool {
    match spec_step(p, d) {
        Some(q) => spec_has_card_at(s, q) && spec_to_type(
            s[spec_slot_with(s, q)].card->Some_0.card,
        ) == CardType::Score,
        None => false,
    }
}

/// How many orthogonal neighbours of `p` hold a score anchor (zero to
/// four): each anchor's neighbourhood counts separately, so a card that
/// stands beside two anchors is worth two points.
pub open spec fn spec_anchor_weight(s: Seq<Slot>, p: Position) -> nat {
    (if spec_anchor_in_direction(s, p, Direction::North) {
        1nat
    } else {
        0nat
    }) + (if spec_anchor_in_direction(s, p, Direction::East) {
        1nat
    } else {
        0nat
    }) + (if spec_anchor_in_direction(s, p, Direction::South) {
        1nat
    } else {
        0nat
    }) + (if spec_anchor_in_direction(s, p, Direction::West) {
        1nat
    } else {
        0nat
    })
}

/// The points the card in slot `i` earns for `pl`: one per anchor it
/// stands beside, when it is a card owned by `pl`.
pub open spec fn spec_slot_points(s: Seq<Slot>, i: int, pl: Player) -> nat {
    if 0 <= i < s.len() && s[i].card is Some && s[i].card->Some_0.belonging_player == Some(pl) {
        spec_anchor_weight(s, s[i].card->Some_0.position)
    } else {
        0
    }
}

/// The points the first `i` slots earn for `pl`.
pub open spec fn spec_score_upto(s: Seq<Slot>, pl: Player, i: int) -> nat
    decreases i,
{
    if i <= 0 {
        0
    } else {
        spec_score_upto(s, pl, i - 1) + spec_slot_points(s, i - 1, pl)
    }
}

/// The score of `pl`: over each score anchor, one point per orthogonal
/// neighbour cell occupied by a card of `pl` (counted here card by card,
/// weighting each card by the number of anchors beside it — the same sum
/// by symmetry of adjacency).
pub open spec fn spec_score(s: Seq<Slot>, pl: Player) -> nat {
    spec_score_upto(s, pl, s.len() as int)
}

fn beyond(pos: Position, d: Direction, q: Position) -> (r: bool)
    ensures
        r == spec_beyond(pos, d, q),
{
    match d {
        Direction::North => q.x == pos.x && q.y < pos.y,
        Direction::East => q.y == pos.y && q.x > pos.x,
        Direction::South => q.x == pos.x && q.y > pos.y,
        Direction::West => q.y == pos.y && q.x < pos.x,
    }
}

/// Every handle in `spec_captured_from(s, i)` is live, captured, and the
/// slot numbers are at or after `i` and strictly increasing.
pub proof fn lemma_captured_from_props(s: Seq<Slot>, i: int)
    requires
        s.len() <= usize::MAX,
    ensures
        forall|j: int|
            0 <= j < spec_captured_from(s, i).len() ==> {
                let x = #[trigger] spec_captured_from(s, i)[j];
                &&& spec_valid_index(s, x)
                &&& spec_captured(s, x.slot as int)
                &&& x.slot >= i
            },
        forall|j1: int, j2: int|
            0 <= j1 < j2 < spec_captured_from(s, i).len() ==> (#[trigger] spec_captured_from(
                s,
                i,
            )[j1]).slot < (#[trigger] spec_captured_from(s, i)[j2]).slot,
    decreases s.len() - i,
{
    if i < 0 || i >= s.len() {
    } else {
        lemma_captured_from_props(s, i + 1);
        let rest = spec_captured_from(s, i + 1);
        if spec_captured(s, i) {
            let l = spec_captured_from(s, i);
            assert forall|j1: int, j2: int| 0 <= j1 < j2 < l.len() implies (#[trigger] l[j1]).slot
                < (#[trigger] l[j2]).slot by {
                assert(l[j2] == rest[j2 - 1]);
                if j1 == 0 {
                    assert(l[0].slot == i);
                } else {
                    assert(l[j1] == rest[j1 - 1]);
                }
            }
        }
    }
}

impl Board {
    /// Whether no card stands anywhere on the open ray from `position` in
    /// direction `direction` (the ray is unbounded; the whole board is
    /// scanned).
    pub fn no_cards_in_direction(&self, position: Position, direction: Direction) -> (r: bool)
        ensures
            r == spec_no_cards_in_direction(self@, position, direction),
    {
        let n = self.slots.len();
        let mut i: usize = 0;
        while i < n
            invariant
                0 <= i <= n,
                n == self@.len(),
                forall|j: int|
                    0 <= j < i && (#[trigger] self@[j]).card is Some ==> !spec_beyond(
                        position,
                        direction,
                        self@[j].card->Some_0.position,
                    ),
            decreases n - i,
        {
            match &self.slots[i].card {
                Some(c) => {
                    if beyond(position, direction, c.position) {
                        return false;
                    }
                },
                None => {},
            }
            i = i + 1;
        }
        true
    }

    /// Whether the neighbour of `p` in direction `d` holds a card of the
    /// player other than `me`.
    fn enemy_at(&self, me: Player, p: Position, d: Direction) -> (r: bool)
        requires
            self.wf(),
        ensures
            r == spec_enemy_at(self@, me, p, d),
    {
        match p.step(d) {
            None => false,
            Some(q) => {
                match self.get_card_position(q) {
                    None => false,
                    Some(idx) => {
                        proof {
                            lemma_wf_positions_distinct(*self);
                            let w = spec_slot_with(self@, q);
                            assert(spec_occupied_at(self@, w, q));
                            assert(w == idx.slot as int);
                        }
                        let c = self.get_card(idx).unwrap();
                        match c.belonging_player {
                            Some(o) => o != me,
                            None => false,
                        }
                    },
                }
            },
        }
    }

    /// Whether the card at `card_idx` is captured where it stands: flanked
    /// on both sides of one axis by cards of the other player. Anchors are
    /// never captured.
    pub fn should_card_be_removed(&self, card_idx: Index) -> (r: bool)
        requires
            self.wf(),
            spec_valid_index(self@, card_idx),
        ensures
            r == spec_captured(self@, card_idx.slot as int),
    {
        let c = *self.get_card(card_idx).unwrap();
        let me = match c.belonging_player {
            Some(p) => p,
            None => {
                return false;
            },
        };
        let p = c.position;
        (self.enemy_at(me, p, Direction::North) && self.enemy_at(me, p, Direction::South)) || (
        self.enemy_at(me, p, Direction::East) && self.enemy_at(me, p, Direction::West))
    }

    /// Remove every captured card, in slot order, and return the removed
    /// handles with the cards they held. Capture is judged against the
    /// board as it stood before any of the removals.
    pub fn remove_cards(&mut self) -> (r: Vec<(Index, PlacedCard)>)
        requires
            old(self).wf(),
        ensures
            final(self).wf(),
            final(self)@ == spec_remove_list(old(self)@, spec_captured_list(old(self)@)),
            r@ == spec_removed_pairs(old(self)@, spec_captured_list(old(self)@)),
    {
        let ghost s0 = self@;
        let ghost lst = spec_captured_list(s0);
        proof {
            lemma_captured_from_props(s0, 0);
        }
        let n = self.slots.len();
        let mut captured: Vec<Index> = Vec::new();
        let mut i: usize = 0;
        while i < n
            invariant
                0 <= i <= n,
                n == self@.len(),
                self@ == s0,
                self.wf(),
                lst == captured@ + spec_captured_from(s0, i as int),
            decreases n - i,
        {
            let g = self.slots[i].gen;
            let occupied = self.slots[i].card.is_some();
            if occupied {
                let idx = Index { slot: i, gen: g };
                if self.should_card_be_removed(idx) {
                    captured.push(idx);
                }
            }
            proof {
                assert(lst =~= captured@ + spec_captured_from(s0, i + 1));
            }
            i = i + 1;
        }
        assert(captured@ == lst);
        let mut r: Vec<(Index, PlacedCard)> = Vec::new();
        let mut k: usize = 0;
        let m = captured.len();
        while k < m
            invariant
                0 <= k <= m,
                m == lst.len(),
                captured@ == lst,
                self.wf(),
                self@ == spec_remove_list(s0, lst.take(k as int)),
                r@ == spec_removed_pairs(s0, lst).take(k as int),
                self@.len() == s0.len(),
                forall|j: int| k <= j < m ==> self@[(#[trigger] lst[j]).slot as int] == s0[lst[j].slot as int],
                forall|j1: int, j2: int|
                    0 <= j1 < j2 < m ==> (#[trigger] lst[j1]).slot < (#[trigger] lst[j2]).slot,
                forall|j: int|
                    0 <= j < m ==> spec_valid_index(s0, #[trigger] lst[j]),
            decreases m - k,
        {
            let idx = captured[k];
            let pc = self.remove_card(idx);
            r.push((idx, pc));
            proof {
                lemma_remove_list_step(s0, lst, k as int);
                assert(r@ =~= spec_removed_pairs(s0, lst).take(k + 1));
            }
            k = k + 1;
        }
        proof {
            assert(lst.take(m as int) =~= lst);
            assert(spec_removed_pairs(s0, lst).take(m as int) =~= spec_removed_pairs(s0, lst));
        }
        r
    }

    /// Whether some orthogonal neighbour of `p` holds a score anchor.
    fn anchor_in_direction(&self, p: Position, d: Direction) -> (r: bool)
        requires
            self.wf(),
        ensures
            r == spec_anchor_in_direction(self@, p, d),
    {
        match p.step(d) {
            None => false,
            Some(q) => {
                match self.get_card_position(q) {
                    None => false,
                    Some(idx) => {
                        proof {
                            lemma_wf_positions_distinct(*self);
                            let w = spec_slot_with(self@, q);
                            assert(spec_occupied_at(self@, w, q));
                            assert(w == idx.slot as int);
                        }
                        let c = self.get_card(idx).unwrap();
                        c.card.to_type() == CardType::Score
                    },
                }
            },
        }
    }

    fn anchor_weight(&self, p: Position) -> (r: usize)
        requires
            self.wf(),
        ensures
            r == spec_anchor_weight(self@, p),
            r <= 4,
    {
        let mut w: usize = 0;
        if self.anchor_in_direction(p, Direction::North) {
            w = w + 1;
        }
        if self.anchor_in_direction(p, Direction::East) {
            w = w + 1;
        }
        if self.anchor_in_direction(p, Direction::South) {
            w = w + 1;
        }
        if self.anchor_in_direction(p, Direction::West) {
            w = w + 1;
        }
        w
    }

    /// Each player's score: over each anchor, one point per orthogonal
    /// neighbour occupied by that player — so a card beside two anchors
    /// is worth two points.
    pub fn score(&self) -> (r: (usize, usize))
        requires
            self.wf(),
        ensures
            r.0 == spec_score(self@, Player::A),
            r.1 == spec_score(self@, Player::B),
    {
        let n = self.slots.len();
        let mut a: usize = 0;
        let mut b: usize = 0;
        let mut i: usize = 0;
        while i < n
            invariant
                0 <= i <= n,
                n == self@.len(),
                self.wf(),
                a == spec_score_upto(self@, Player::A, i as int),
                b == spec_score_upto(self@, Player::B, i as int),
                a <= 4 * i,
                b <= 4 * i,
            decreases n - i,
        {
            let slot = self.slots[i];
            match slot.card {
                Some(c) => {
                    match c.belonging_player {
                        Some(pl) => {
                            let w = self.anchor_weight(c.position);
                            match pl {
                                Player::A => {
                                    a = a + w;
                                },
                                Player::B => {
                                    b = b + w;
                                },
                            }
                        },
                        None => {},
                    }
                },
                None => {},
            }
            i = i + 1;
        }
        (a, b)
    }
}

/// The first free slot lies between `i` and the length; when it is a real
/// slot, that slot is free.
pub proof fn lemma_first_free_range(s: Seq<Slot>, i: int)
    requires
        0 <= i <= s.len(),
    ensures
        i <= spec_first_free_from(s, i) <= s.len(),
        spec_first_free_from(s, i) < s.len() ==> s[spec_first_free_from(s, i)].card is None,
    decreases s.len() - i,
{
    if i < s.len() && s[i].card is Some {
        lemma_first_free_range(s, i + 1);
    }
}

impl Board {
    /// Build a board holding only the two unowned score anchors, at the
    /// two given (distinct) cells.
    pub fn with_anchors(p0: Position, p1: Position) -> (r: Board)
        requires
            p0 != p1,
        ensures
            r.wf(),
            r@ == spec_initial_slots(p0, p1),
    {
        let mut slots: Vec<Slot> = Vec::new();
        slots.push(
            Slot {
                gen: 0,
                card: Some(
                    PlacedCard {
                        belonging_player: None,
                        position: p0,
                        card: CardType::Score.to_data(),
                    },
                ),
            },
        );
        slots.push(
            Slot {
                gen: 0,
                card: Some(
                    PlacedCard {
                        belonging_player: None,
                        position: p1,
                        card: CardType::Score.to_data(),
                    },
                ),
            },
        );
        let mut index: HashMap<u64, usize> = HashMap::new();
        index.insert(pos_key(p0), 0);
        index.insert(pos_key(p1), 1);
        let r = Board { slots, index, count: 2 };
        proof {
            lemma_pos_key_injective(p0, p1);
            assert(r@.drop_last().drop_last() =~= Seq::<Slot>::empty());
            reveal_with_fuel(spec_count, 3);
            assert(spec_count(r@) == 2);
            assert(r@ =~= spec_initial_slots(p0, p1));
        }
        r
    }

    /// Start a push chain at the card `idx`, in `direction`.
    pub(crate) fn start_push(&mut self, idx: Index, direction: Direction) -> (r: MovedSet)
        requires
            old(self).wf(),
            spec_valid_index(old(self)@, idx),
        ensures
            final(self).wf(),
            (final(self)@, r@) == crate::card::spec_push(
                old(self)@,
                idx,
                direction,
                1,
                spec_count(old(self)@),
            ),
    {
        crate::card::CardData::push(self, idx, direction, 0)
    }

    /// Whether the card `idx` can be pushed in `direction`, and the chain
    /// length.
    pub(crate) fn can_push(&self, idx: Index, direction: Direction) -> (r: PushStatus)
        requires
            self.wf(),
            spec_valid_index(self@, idx),
        ensures
            r is Fail <==> crate::card::spec_can_push(self@, idx, direction, 1, spec_count(self@))
                is None,
            r matches PushStatus::Success(n) ==> Some(n as nat) == crate::card::spec_can_push(
                self@,
                idx,
                direction,
                1,
                spec_count(self@),
            ),
    {
        crate::card::CardData::can_push(self, idx, direction, 0)
    }

    /// Place a card of type `card` for `player` at the empty cell
    /// `position`, then resolve the entry push in `direction`.
    pub(crate) fn start_place(
        &mut self,
        card: CardType,
        player: Player,
        position: Position,
        direction: Direction,
    ) -> (r: (Index, MovedSet))
        requires
            old(self).wf(),
            card != CardType::Score,
            !spec_has_card_at(old(self)@, position),
            spec_count(old(self)@) < CARD_LIMIT,
        ensures
            final(self).wf(),
            (final(self)@, r.0, r.1@) == crate::card::spec_place(
                old(self)@,
                card,
                player,
                position,
                direction,
            ),
    {
        crate::card::CardData::place(self, card, player, position, direction)
    }

    /// Whether a card of type `card` may be placed at `position` pushing
    /// in `direction`.
    pub(crate) fn can_place(
        &self,
        card: CardType,
        player: Player,
        position: Position,
        direction: Direction,
    ) -> (r: PlaceStatus)
        requires
            self.wf(),
            card != CardType::Score,
        ensures
            r is Success <==> crate::card::spec_can_place(self@, card, position, direction),
    {
        crate::card::CardData::can_place(self, card, player, position, direction)
    }
}

impl Board {
    /// A deep copy with the same slots, index and count.
    pub(crate) fn duplicate(&self) -> (r: Board)
        requires
            self.wf(),
        ensures
            r.wf(),
            r@ == self@,
    {
        let n = self.slots.len();
        let mut slots: Vec<Slot> = Vec::new();
        let mut i: usize = 0;
        while i < n
            invariant
                0 <= i <= n,
                n == self.slots@.len(),
                slots@ == self.slots@.take(i as int),
            decreases n - i,
        {
            slots.push(self.slots[i]);
            proof {
                assert(slots@ =~= self.slots@.take(i + 1));
            }
            i = i + 1;
        }
        proof {
            assert(self.slots@.take(n as int) =~= self.slots@);
        }
        Board { slots, index: self.index.clone(), count: self.count }
    }
}

/// One step of removing a list of handles: removing through `k + 1` handles
/// is removing through `k` and then removing the `k`-th.
proof fn lemma_remove_list_step(s: Seq<Slot>, lst: Seq<Index>, k: int)
    requires
        0 <= k < lst.len(),
    ensures
        spec_remove_list(s, lst.take(k + 1)) == spec_remove(
            spec_remove_list(s, lst.take(k)),
            lst[k],
        ),
    decreases k,
{
    reveal_with_fuel(spec_remove_list, 3);
    if k == 0 {
        assert(lst.take(1) =~= seq![lst[0]]);
        assert(lst.take(1).drop_first() =~= Seq::<Index>::empty());
        assert(lst.take(0) =~= Seq::<Index>::empty());
    } else {
        let s1 = spec_remove(s, lst[0]);
        let l1 = lst.drop_first();
        lemma_remove_list_step(s1, l1, k - 1);
        assert(lst.take(k + 1).drop_first() =~= l1.take(k));
        assert(lst.take(k).drop_first() =~= l1.take(k - 1));
        assert(lst.take(k + 1)[0] == lst[0]);
        assert(lst.take(k)[0] == lst[0]);
        assert(l1[k - 1] == lst[k]);
        assert(spec_remove_list(s, lst.take(k + 1)) == spec_remove_list(s1, l1.take(k)));
        assert(spec_remove_list(s, lst.take(k)) == spec_remove_list(s1, l1.take(k - 1)));
    }
}

} // verus!
