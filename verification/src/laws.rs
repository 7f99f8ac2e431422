//! The laws of the rule engine that relate several operations, stated and
//! proved over the same spec functions the operations' own contracts use.
//!
//! The other laws of the crate live beside what they speak about: that the
//! position-index cache exactly mirrors occupancy is
//! [`crate::board::lemma_cache_mirrors_occupancy`] together with the
//! well-formedness clause every board operation's contract carries; that
//! every enumerated move is legal is
//! [`crate::state::lemma_enumerate_sound`]; that the pruned search selects
//! a move of exactly the unpruned minimax value is part of the contract of
//! [`crate::search::find_best_move`]; and that the step scheduler returns
//! the same move as the one-shot search is the pair of contracts of
//! [`crate::evaluator::Evaluator`] and [`crate::search::find_best_move`],
//! both pinned to `spec_find_best` of the same state and seed.
use vstd::prelude::*;

use crate::board::Index;
use crate::board::Slot;
use crate::board::spec_captured;
use crate::board::spec_captured_from;
use crate::board::spec_captured_list;
use crate::board::spec_count;
use crate::board::spec_valid_index;
use crate::card::CardType;
use crate::card::spec_can_push;
use crate::card::spec_ghost_dest;
use crate::card::spec_pos_at;
use crate::card::spec_push;
use crate::card::spec_push_ghost;
use crate::card::spec_type_at;
use crate::types::Direction;
use crate::types::Player;
use crate::types::Position;
use crate::types::spec_step;

verus! {

/// Pushing a block card in any direction always fails, and the push moves
/// nothing and leaves the board exactly as it was.
pub proof fn lemma_block_push_inert(
    s: Seq<Slot>,
    idx: Index,
    dir: Direction,
    depth: nat,
    cap: nat,
)
    requires
        spec_valid_index(s, idx),
        spec_type_at(s, idx) == CardType::Block,
    ensures
        spec_push(s, idx, dir, depth, cap) == (s, Seq::<Index>::empty()),
        spec_can_push(s, idx, dir, depth, cap) is None,
{
}

/// A ghost destination lies strictly beyond the start of the walk, in the
/// walk's direction.
proof fn lemma_ghost_dest_beyond(s: Seq<Slot>, p: Position, dir: Direction, k: nat)
    ensures
        spec_ghost_dest(s, p, dir, k) matches Some(q) ==> crate::board::spec_beyond(p, dir, q),
    decreases k,
{
    if k > 0 {
        match spec_step(p, dir) {
            None => {},
            Some(q) => {
                if crate::board::spec_has_card_at(s, q) {
                    lemma_ghost_dest_beyond(s, q, dir, (k - 1) as nat);
                }
            },
        }
    }
}

/// A ghost card pushed toward an empty cell (one its bounded walk finds)
/// ends adjacent or further in that direction, with exactly one card —
/// itself — reported moved, regardless of how many occupied cells it
/// skipped; nothing else on the board changes.
pub proof fn lemma_ghost_push_one_mover(
    s: Seq<Slot>,
    idx: Index,
    dir: Direction,
    depth: nat,
    cap: nat,
)
    requires
        spec_valid_index(s, idx),
        spec_type_at(s, idx) == CardType::GhostCard,
        cap == spec_count(s),
        spec_ghost_dest(s, spec_pos_at(s, idx), dir, cap + 1) is Some,
    ensures
        ({
            let r = spec_push(s, idx, dir, depth, cap);
            let q = spec_ghost_dest(s, spec_pos_at(s, idx), dir, cap + 1)->Some_0;
            &&& r.1 == seq![idx]
            &&& r.0 == crate::board::spec_move(s, idx, q)
            &&& crate::board::spec_beyond(spec_pos_at(s, idx), dir, q)
            &&& forall|i: int|
                0 <= i < s.len() && i != idx.slot ==> r.0[i] == (#[trigger] s[i])
        }),
{
    lemma_ghost_dest_beyond(s, spec_pos_at(s, idx), dir, cap + 1);
    let q = spec_ghost_dest(s, spec_pos_at(s, idx), dir, cap + 1)->Some_0;
    assert(spec_push(s, idx, dir, depth, cap) == spec_push_ghost(s, idx, dir, cap));
    assert(crate::board::spec_move(s, idx, q).len() == s.len());
}

/// The cell `k` steps from `p` along `dir`, or `None` where the ray has
/// left the grid by then.
pub open spec fn spec_ray(p: Position, dir: Direction, k: nat) -> Option<Position>
    decreases k,
{
    if k == 0 {
        Some(p)
    } else {
        match spec_ray(p, dir, (k - 1) as nat) {
            Some(q) => spec_step(q, dir),
            None => None,
        }
    }
}

/// Each ray cell's coordinates in terms of the start and the step count.
proof fn lemma_ray_coords(p: Position, dir: Direction, k: nat)
    ensures
        spec_ray(p, dir, k) matches Some(q) ==> match dir {
            Direction::North => q.x == p.x && q.y == p.y - k,
            Direction::East => q.x == p.x + k && q.y == p.y,
            Direction::South => q.x == p.x && q.y == p.y + k,
            Direction::West => q.x == p.x - k && q.y == p.y,
        },
    decreases k,
{
    if k > 0 {
        lemma_ray_coords(p, dir, (k - 1) as nat);
    }
}

/// Walking the ray one step in is walking the shifted ray.
proof fn lemma_ray_shift(p: Position, q: Position, dir: Direction, k: nat)
    requires
        spec_step(p, dir) == Some(q),
    ensures
        spec_ray(p, dir, k + 1) == spec_ray(q, dir, k),
    decreases k,
{
    reveal_with_fuel(spec_ray, 3);
    if k > 0 {
        lemma_ray_shift(p, q, dir, (k - 1) as nat);
        assert(spec_ray(p, dir, k + 1) == (match spec_ray(p, dir, k) {
            Some(c) => spec_step(c, dir),
            None => None,
        }));
        assert(spec_ray(q, dir, k) == (match spec_ray(q, dir, (k - 1) as nat) {
            Some(c) => spec_step(c, dir),
            None => None,
        }));
    }
}

/// A failed bounded walk over an in-grid ray saw only occupied cells.
proof fn lemma_dest_none_all_occupied(s: Seq<Slot>, p: Position, dir: Direction, n: nat)
    requires
        spec_ghost_dest(s, p, dir, n) is None,
        forall|k: nat| 1 <= k <= n ==> (#[trigger] spec_ray(p, dir, k)) is Some,
    ensures
        forall|k: nat|
            1 <= k <= n ==> crate::board::spec_has_card_at(
                s,
                (#[trigger] spec_ray(p, dir, k))->Some_0,
            ),
    decreases n,
{
    if n > 0 {
        reveal_with_fuel(spec_ray, 3);
        assert(spec_ray(p, dir, 1nat) is Some);
        assert(spec_ray(p, dir, 1nat) == spec_step(p, dir));
        let q = spec_step(p, dir)->Some_0;
        assert(spec_ghost_dest(s, p, dir, n) == (if crate::board::spec_has_card_at(s, q) {
            spec_ghost_dest(s, q, dir, (n - 1) as nat)
        } else {
            Some(q)
        }));
        assert(crate::board::spec_has_card_at(s, q));
        assert forall|k: nat| 1 <= k <= n - 1 implies (#[trigger] spec_ray(q, dir, k)) is Some by {
            lemma_ray_shift(p, q, dir, k);
            assert(spec_ray(p, dir, (k + 1) as nat) is Some);
        }
        lemma_dest_none_all_occupied(s, q, dir, (n - 1) as nat);
        assert forall|k: nat|
            1 <= k <= n implies crate::board::spec_has_card_at(
            s,
            (#[trigger] spec_ray(p, dir, k))->Some_0,
        ) by {
            if k == 1 {
            } else {
                lemma_ray_shift(p, q, dir, (k - 1) as nat);
                assert(spec_ray(q, dir, (k - 1) as nat) == spec_ray(p, dir, k));
            }
        }
    }
}

/// The set of slots holding cards.
spec fn spec_occ_set(s: Seq<Slot>) -> Set<int> {
    Set::new(|i: int| 0 <= i < s.len() && s[i].card is Some)
}

/// The occupied-slot count is the cardinality of the occupied-slot set.
proof fn lemma_count_is_cardinality(s: Seq<Slot>)
    ensures
        spec_occ_set(s).finite(),
        spec_occ_set(s).len() == spec_count(s),
    decreases s.len(),
{
    if s.len() == 0 {
        assert(spec_occ_set(s) =~= Set::<int>::empty());
    } else {
        lemma_count_is_cardinality(s.drop_last());
        if s.last().card is Some {
            assert(spec_occ_set(s) =~= spec_occ_set(s.drop_last()).insert(s.len() - 1));
        } else {
            assert(spec_occ_set(s) =~= spec_occ_set(s.drop_last()));
        }
    }
}

/// The pigeonhole behind the ghost walk: a board with `n` cards cannot
/// occupy `n + 1` distinct ray cells, so whenever every probed cell of
/// the bounded walk is on the grid, the walk finds an empty cell.
pub proof fn lemma_ghost_walk_finds_room(s: Seq<Slot>, p: Position, dir: Direction)
    requires
        crate::board::spec_positions_distinct(s),
        forall|k: nat|
            1 <= k <= spec_count(s) + 1 ==> (#[trigger] spec_ray(p, dir, k)) is Some,
    ensures
        spec_ghost_dest(s, p, dir, spec_count(s) + 1) is Some,
{
    let n = spec_count(s) + 1;
    if spec_ghost_dest(s, p, dir, n) is None {
        lemma_dest_none_all_occupied(s, p, dir, n);
        // one occupied slot for each probed cell
        let slots_hit = Seq::<int>::new(n, |k: int| crate::board::spec_slot_with(
            s,
            spec_ray(p, dir, (k + 1) as nat)->Some_0,
        ));
        assert forall|k: int| 0 <= k < n implies crate::board::spec_occupied_at(
            s,
            slots_hit[k],
            spec_ray(p, dir, (k + 1) as nat)->Some_0,
        ) by {
            assert(1 <= (k + 1) as nat <= n);
            assert(crate::board::spec_has_card_at(s, spec_ray(p, dir, (k + 1) as nat)->Some_0));
        }
        // distinct cells give distinct slots
        assert forall|k1: int, k2: int|
            0 <= k1 < n && 0 <= k2 < n && k1 != k2 implies slots_hit[k1] != slots_hit[k2] by {
            assert(1 <= (k1 + 1) as nat <= n && 1 <= (k2 + 1) as nat <= n);
            assert(spec_ray(p, dir, (k1 + 1) as nat) is Some);
            assert(spec_ray(p, dir, (k2 + 1) as nat) is Some);
            lemma_ray_coords(p, dir, (k1 + 1) as nat);
            lemma_ray_coords(p, dir, (k2 + 1) as nat);
            let c1 = spec_ray(p, dir, (k1 + 1) as nat)->Some_0;
            let c2 = spec_ray(p, dir, (k2 + 1) as nat)->Some_0;
            assert(c1 != c2);
            assert(crate::board::spec_occupied_at(s, slots_hit[k1], c1));
            assert(crate::board::spec_occupied_at(s, slots_hit[k2], c2));
        }
        assert(slots_hit.no_duplicates());
        slots_hit.unique_seq_to_set();
        vstd::seq_lib::seq_to_set_is_finite(slots_hit);
        assert(slots_hit.to_set().len() == n);
        lemma_count_is_cardinality(s);
        assert forall|i: int| slots_hit.to_set().contains(i) implies spec_occ_set(s).contains(
            i,
        ) by {
            let k = choose|k: int| 0 <= k < slots_hit.len() && slots_hit[k] == i;
            assert(crate::board::spec_occupied_at(
                s,
                slots_hit[k],
                spec_ray(p, dir, (k + 1) as nat)->Some_0,
            ));
        }
        assert(slots_hit.to_set() <= spec_occ_set(s));
        vstd::set_lib::lemma_len_subset(slots_hit.to_set(), spec_occ_set(s));
        assert(false);
    }
}

/// A ghost card whose probing ray stays on the grid always teleports:
/// the walk finds an empty cell within one more step than there are
/// cards, and the push moves exactly the ghost, adjacent or further in
/// its direction.
pub proof fn lemma_ghost_push_in_grid(
    s: Seq<Slot>,
    idx: Index,
    dir: Direction,
    depth: nat,
    cap: nat,
)
    requires
        spec_valid_index(s, idx),
        spec_type_at(s, idx) == CardType::GhostCard,
        cap == spec_count(s),
        crate::board::spec_positions_distinct(s),
        forall|k: nat|
            1 <= k <= cap + 1 ==> (#[trigger] spec_ray(spec_pos_at(s, idx), dir, k)) is Some,
    ensures
        ({
            let r = spec_push(s, idx, dir, depth, cap);
            &&& r.1 == seq![idx]
            &&& crate::board::spec_beyond(spec_pos_at(s, idx), dir, spec_pos_at(r.0, idx))
            &&& forall|i: int|
                0 <= i < s.len() && i != idx.slot ==> r.0[i] == (#[trigger] s[i])
        }),
{
    lemma_ghost_walk_finds_room(s, spec_pos_at(s, idx), dir);
    lemma_ghost_push_one_mover(s, idx, dir, depth, cap);
}

/// Capture is symmetric: a card flanked north and south by the other
/// player is captured whatever stands to its east or west, and a card
/// flanked east and west whatever stands to its north or south; a card
/// flanked on only one side of each axis is never captured, and an
/// unowned anchor is never captured.
pub proof fn lemma_capture_symmetric(s: Seq<Slot>, i: int, me: Player)
    requires
        0 <= i < s.len(),
        s[i].card is Some,
        s[i].card->Some_0.belonging_player == Some(me),
    ensures
        ({
            let p = s[i].card->Some_0.position;
            &&& (crate::board::spec_enemy_at(s, me, p, Direction::North)
                && crate::board::spec_enemy_at(s, me, p, Direction::South)) ==> spec_captured(
                s,
                i,
            )
            &&& (crate::board::spec_enemy_at(s, me, p, Direction::East)
                && crate::board::spec_enemy_at(s, me, p, Direction::West)) ==> spec_captured(s, i)
            &&& spec_captured(s, i) ==> ((crate::board::spec_enemy_at(s, me, p, Direction::North)
                && crate::board::spec_enemy_at(s, me, p, Direction::South)) || (
            crate::board::spec_enemy_at(s, me, p, Direction::East) && crate::board::spec_enemy_at(
                s,
                me,
                p,
                Direction::West,
            )))
        }),
{
}

/// An unowned card is never captured.
pub proof fn lemma_anchor_never_captured(s: Seq<Slot>, i: int)
    requires
        0 <= i < s.len(),
        s[i].card is Some,
        s[i].card->Some_0.belonging_player is None,
    ensures
        !spec_captured(s, i),
{
}

/// The capture pass removes exactly the captured cards: a live card's
/// handle is in the removal list exactly when the card is captured where
/// it stands.
pub proof fn lemma_captured_list_complete(s: Seq<Slot>, i: int)
    requires
        s.len() <= usize::MAX,
        0 <= i < s.len(),
    ensures
        spec_captured(s, i) <==> spec_captured_list(s).contains(
            Index { slot: i as usize, gen: s[i].gen },
        ),
{
    lemma_captured_from_membership(s, i, 0);
}

proof fn lemma_captured_from_membership(s: Seq<Slot>, i: int, k: int)
    requires
        s.len() <= usize::MAX,
        0 <= i < s.len(),
        0 <= k,
    ensures
        (spec_captured(s, i) && i >= k) <==> spec_captured_from(s, k).contains(
            Index { slot: i as usize, gen: s[i].gen },
        ),
    decreases s.len() - k,
{
    crate::board::lemma_captured_from_props(s, k);
    if k >= s.len() {
    } else {
        lemma_captured_from_membership(s, i, k + 1);
        let l = spec_captured_from(s, k);
        let rest = spec_captured_from(s, k + 1);
        let x = Index { slot: i as usize, gen: s[i].gen };
        if spec_captured(s, k) {
            let head = Index { slot: k as usize, gen: s[k].gen };
            assert(l == seq![head] + rest);
            if spec_captured(s, i) && i >= k {
                if i == k {
                    assert(l[0] == x);
                    assert(l.contains(x));
                } else {
                    let j = choose|j: int| 0 <= j < rest.len() && rest[j] == x;
                    assert(l[j + 1] == x);
                    assert(l.contains(x));
                }
            }
            if l.contains(x) {
                let j = choose|j: int| 0 <= j < l.len() && l[j] == x;
                if j == 0 {
                    assert(x.slot == k);
                    assert(i == k);
                } else {
                    assert(rest[j - 1] == x);
                    assert(rest.contains(x));
                }
            }
        } else {
            assert(l == rest);
            if spec_captured(s, i) && i >= k {
                assert(i != k);
            }
        }
    }
}

} // verus!
