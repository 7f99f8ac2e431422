//! The search engine: a seeded pseudo-random source for tie-breaking,
//! random move ordering, the leaf heuristics, and depth-limited alpha-beta
//! minimax over cloned game states.
//!
//! Two mathematical descriptions of the search live here. `spec_search`
//! mirrors exactly what the executable search computes, pseudo-random draws
//! and pruning included, so the sliced and the one-shot drivers can be shown
//! to agree. `spec_minimax_value` is plain unpruned minimax; the alpha-beta
//! implementation is proved to select a move of exactly that value for the
//! deterministic heuristics.
use vstd::prelude::*;

use crate::board::CARD_LIMIT;
use crate::state::Move;
use crate::state::MoveOutcome;
use crate::state::MoveResult;
use crate::state::State;
use crate::state::StateModel;
use crate::state::spec_can_execute;
use crate::state::spec_enumerate;
use crate::state::spec_execute;
use crate::types::Player;
use crate::types::spec_other_player;

verus! {

/// The next state of the pseudo-random generator (a 64-bit xorshift).
pub open spec fn spec_rng_next(s: u64) -> u64 {
    let a = s ^ (s << 13u64);
    let b = a ^ (a >> 7u64);
    b ^ (b << 17u64)
}

/// A small explicit seeded pseudo-random generator, passed by handle so
/// that searches are reproducible given a seed.
#[derive(Debug)]
pub struct Rng {
    state: u64,
}

impl View for Rng {
    type V = u64;

    closed spec fn view(&self) -> u64 {
        self.state
    }
}

/// The seed actually used: a zero seed is replaced by a fixed odd
/// constant, since the all-zero state is a fixed point of the generator.
pub open spec fn spec_rng_seed(seed: u64) -> u64 {
    if seed == 0 {
        0x9E3779B97F4A7C15u64
    } else {
        seed
    }
}

impl Rng {
    pub fn new(seed: u64) -> (r: Rng)
        ensures
            r@ == spec_rng_seed(seed),
    {
        Rng { state: if seed == 0 {
            0x9E3779B97F4A7C15u64
        } else {
            seed
        } }
    }

    /// Draw the next value.
    fn next(&mut self) -> (r: u64)
        ensures
            final(self)@ == spec_rng_next(old(self)@),
            r == spec_rng_next(old(self)@),
    {
        let s = self.state;
        let a = s ^ (s << 13u64);
        let b = a ^ (a >> 7u64);
        let c = b ^ (b << 17u64);
        self.state = c;
        c
    }

    /// Draw a value below `n`.
    fn below(&mut self, n: usize) -> (r: usize)
        requires
            n > 0,
        ensures
            final(self)@ == spec_rng_next(old(self)@),
            r == spec_rng_next(old(self)@) as nat % n as nat,
            r < n,
    {
        let x = self.next();
        (x % (n as u64)) as usize
    }
}

/// The list shuffled by repeated draw-and-remove: position `k` of the
/// result is drawn uniformly from what is left, so every order is
/// reachable and the result is a permutation.
pub open spec fn spec_shuffle(items: Seq<Move>, rng: u64) -> (Seq<Move>, u64)
    decreases items.len(),
{
    if items.len() == 0 {
        (items, rng)
    } else {
        let r2 = spec_rng_next(rng);
        let j = r2 as nat % items.len();
        let rest = spec_shuffle(items.remove(j as int), r2);
        (seq![items[j as int]] + rest.0, rest.1)
    }
}

/// Shuffle the move list in place, drawing from `rng`.
pub fn randomise_list(items: &mut Vec<Move>, rng: &mut Rng)
    ensures
        final(items)@ == spec_shuffle(old(items)@, old(rng)@).0,
        final(rng)@ == spec_shuffle(old(items)@, old(rng)@).1,
{
    let mut out: Vec<Move> = Vec::new();
    while items.len() > 0
        invariant
            spec_shuffle(old(items)@, old(rng)@).0 == out@ + spec_shuffle(items@, rng@).0,
            spec_shuffle(old(items)@, old(rng)@).1 == spec_shuffle(items@, rng@).1,
        decreases items.len(),
    {
        let j = rng.below(items.len());
        let x = items.remove(j);
        out.push(x);
    }
    *items = out;
}

/// A shuffle keeps exactly the same moves, as a multiset.
pub proof fn lemma_shuffle_multiset(items: Seq<Move>, rng: u64)
    ensures
        spec_shuffle(items, rng).0.to_multiset() == items.to_multiset(),
        spec_shuffle(items, rng).0.len() == items.len(),
    decreases items.len(),
{
    broadcast use vstd::seq_lib::group_to_multiset_ensures;

    if items.len() > 0 {
        let r2 = spec_rng_next(rng);
        let j = (r2 as nat % items.len()) as int;
        let removed = items.remove(j);
        lemma_shuffle_multiset(removed, r2);
        let rest = spec_shuffle(removed, r2).0;
        let whole = seq![items[j]] + rest;
        vstd::seq_lib::lemma_seq_union_to_multiset_commutative(seq![items[j]], rest);
        assert(rest + seq![items[j]] =~= rest.push(items[j]));
        assert(whole.to_multiset() =~= rest.to_multiset().insert(items[j]));
        assert(removed.to_multiset() == items.to_multiset().remove(items[j]));
        assert(items.to_multiset().contains(items[j]));
        assert(items.to_multiset().remove(items[j]).insert(items[j]) =~= items.to_multiset());
    }
}

/// The raw leaf heuristic: a decisive win or loss dominates; otherwise
/// one's own score squared minus the opponent's score cubed.
pub open spec fn spec_leaf_raw(res: MoveOutcome, me: Player) -> int {
    let other = spec_other_player(me);
    let win: int = if res.winner == Some(me) {
        100000000
    } else {
        0
    };
    let loss: int = if res.winner == Some(other) {
        100000000
    } else {
        0
    };
    let my: int = spec_outcome_score(res, me);
    let opp: int = spec_outcome_score(res, other);
    win - loss + my * my - opp * opp * opp
}

/// The given player's score in an outcome.
pub open spec fn spec_outcome_score(res: MoveOutcome, p: Player) -> int {
    match p {
        Player::A => res.score_a as int,
        Player::B => res.score_b as int,
    }
}

/// The three built-in leaf heuristics: best play, best play with random
/// perturbation (an easy way to vary play), and deliberately inverted play
/// for the easiest tier.
#[derive(Debug, Clone, Copy, PartialEq, Eq, Structural)]
pub enum AiControlType {
    Best,
    WithRandom(i32),
    Negative,
}

/// A usable heuristic: a random perturbation must be positive.
pub open spec fn spec_strategy_wf(t: AiControlType) -> bool {
    match t {
        AiControlType::WithRandom(p) => p >= 1,
        _ => true,
    }
}

/// Whether the heuristic draws no randomness, so its value is a function
/// of the outcome alone.
pub open spec fn spec_strategy_deterministic(t: AiControlType) -> bool {
    match t {
        AiControlType::WithRandom(_) => false,
        _ => true,
    }
}

/// What the heuristic computes, and the generator state after it (only a
/// random perturbation draws).
pub open spec fn spec_strategy_score(t: AiControlType, res: MoveOutcome, me: Player, rng: u64) -> (
    int,
    u64,
) {
    match t {
        AiControlType::Best => (spec_leaf_raw(res, me), rng),
        AiControlType::WithRandom(p) => {
            let r2 = spec_rng_next(rng);
            (spec_leaf_raw(res, me) + (r2 as int % p as int), r2)
        },
        AiControlType::Negative => (0 - spec_leaf_raw(res, me), rng),
    }
}

/// An outcome whose scores respect the board's capacity bound (at most
/// four points per card); every outcome of a real move does.
pub open spec fn spec_outcome_bounded(res: MoveOutcome) -> bool {
    res.score_a <= 4 * CARD_LIMIT && res.score_b <= 4 * CARD_LIMIT
}

/// The raw leaf value of a bounded outcome fits comfortably in an `i64`.
pub proof fn lemma_leaf_raw_range(res: MoveOutcome, me: Player)
    requires
        spec_outcome_bounded(res),
    ensures
        -0x4000_0000_0000_0000 < spec_leaf_raw(res, me) < 0x4000_0000_0000_0000,
{
    let other = spec_other_player(me);
    let my: int = spec_outcome_score(res, me);
    let opp: int = spec_outcome_score(res, other);
    assert(0 <= my <= 4 * CARD_LIMIT && 0 <= opp <= 4 * CARD_LIMIT);
    assert(my * my <= 0x10_0000 * 0x10_0000) by (nonlinear_arith)
        requires
            0 <= my <= 0x10_0000,
    ;
    assert(opp * opp * opp <= 0x10_0000 * 0x10_0000 * 0x10_0000) by (nonlinear_arith)
        requires
            0 <= opp <= 0x10_0000,
    ;
    assert(my * my >= 0) by (nonlinear_arith);
    assert(opp * opp * opp >= 0) by (nonlinear_arith)
        requires
            opp >= 0,
    ;
}

/// The raw leaf heuristic of a move's outcome. (The state reached is
/// passed for symmetry with the heuristic's interface but the score is a
/// function of the outcome alone.)
pub fn calculate_state_score(result: &MoveResult, _node: &State, current_turn: Player) -> (r: i64)
    requires
        spec_outcome_bounded(result@),
    ensures
        r == spec_leaf_raw(result@, current_turn),
{
    proof {
        lemma_leaf_raw_range(result@, current_turn);
    }
    let mut score: i64 = 0;
    let alternate_turn = current_turn.other();
    let win = match result.winner {
        Some(w) => w == current_turn,
        None => false,
    };
    let loss = match result.winner {
        Some(w) => w == alternate_turn,
        None => false,
    };
    if win {
        score = score + 100000000;
    }
    if loss {
        score = score - 100000000;
    }
    let my_score = result.score.player(current_turn) as i64;
    let opponent_score = result.score.player(alternate_turn) as i64;
    proof {
        let my: int = spec_outcome_score(result@, current_turn);
        let opp: int = spec_outcome_score(result@, alternate_turn);
        assert(my * my <= 0x10_0000 * 0x10_0000) by (nonlinear_arith)
            requires
                0 <= my <= 0x10_0000,
        ;
        assert(opp * opp <= 0x10_0000 * 0x10_0000) by (nonlinear_arith)
            requires
                0 <= opp <= 0x10_0000,
        ;
        assert(opp * opp * opp <= 0x10_0000 * 0x10_0000 * 0x10_0000) by (nonlinear_arith)
            requires
                0 <= opp <= 0x10_0000,
        ;
        assert(my * my >= 0) by (nonlinear_arith);
        assert(opp * opp >= 0) by (nonlinear_arith);
        assert(opp * opp * opp >= 0) by (nonlinear_arith)
            requires
                opp >= 0,
        ;
    }
    score = score + my_score * my_score;
    score = score - opponent_score * opponent_score * opponent_score;
    score
}

/// The deterministic heuristic value, clamped into the machine range the
/// search works in. On every outcome a real move produces, the raw value
/// is far inside the range and the clamp changes nothing.
pub open spec fn spec_pure_score(t: AiControlType, res: MoveOutcome, me: Player) -> int {
    let raw = match t {
        AiControlType::Best => spec_leaf_raw(res, me),
        AiControlType::WithRandom(_) => spec_leaf_raw(res, me),
        AiControlType::Negative => 0 - spec_leaf_raw(res, me),
    };
    if raw < i64::MIN as int {
        i64::MIN as int
    } else if raw > i64::MAX as int {
        i64::MAX as int
    } else {
        raw
    }
}

/// The unpruned minimax value of the child reached by `mv`, to `cd` more
/// plies.
pub open spec fn spec_child_value(
    m: StateModel,
    mv: Move,
    cd: nat,
    me: Player,
    t: AiControlType,
) -> int
    decreases cd, 0int, 2int,
{
    let ex = spec_execute(m, mv);
    spec_minimax_value(ex.0, ex.1, cd, me, t)
}

/// Plain unpruned minimax: the heuristic at the depth limit or on a
/// decisive outcome; otherwise the maximum (for the searching player) or
/// minimum (for the opponent) of the children's values over every legal
/// move.
pub open spec fn spec_minimax_value(
    m: StateModel,
    res: MoveOutcome,
    depth: nat,
    me: Player,
    t: AiControlType,
) -> int
    decreases depth, 0int, 1int,
{
    if depth == 0 || res.winner is Some {
        spec_pure_score(t, res, me)
    } else {
        let moves = spec_enumerate(m);
        if m.turn == me {
            spec_vmax(m, moves, (depth - 1) as nat, me, t, 0)
        } else {
            spec_vmin(m, moves, (depth - 1) as nat, me, t, 0)
        }
    }
}

/// The maximum child value over `moves[k..]`, or the worst value when
/// nothing is left.
pub open spec fn spec_vmax(
    m: StateModel,
    moves: Seq<Move>,
    cd: nat,
    me: Player,
    t: AiControlType,
    k: int,
) -> int
    decreases cd, 1int, moves.len() - k,
{
    if k < 0 || k >= moves.len() {
        i64::MIN as int
    } else {
        let v = spec_child_value(m, moves[k], cd, me, t);
        let rest = spec_vmax(m, moves, cd, me, t, k + 1);
        if v > rest {
            v
        } else {
            rest
        }
    }
}

/// The minimum child value over `moves[k..]`, or the best value when
/// nothing is left.
pub open spec fn spec_vmin(
    m: StateModel,
    moves: Seq<Move>,
    cd: nat,
    me: Player,
    t: AiControlType,
    k: int,
) -> int
    decreases cd, 1int, moves.len() - k,
{
    if k < 0 || k >= moves.len() {
        i64::MAX as int
    } else {
        let v = spec_child_value(m, moves[k], cd, me, t);
        let rest = spec_vmin(m, moves, cd, me, t, k + 1);
        if v < rest {
            v
        } else {
            rest
        }
    }
}

/// Minimax values stay inside the machine range.
pub proof fn lemma_value_range(
    m: StateModel,
    res: MoveOutcome,
    depth: nat,
    me: Player,
    t: AiControlType,
)
    ensures
        i64::MIN as int <= spec_minimax_value(m, res, depth, me, t) <= i64::MAX as int,
    decreases depth, 0int, 1int,
{
    if depth == 0 || res.winner is Some {
    } else {
        let moves = spec_enumerate(m);
        if m.turn == me {
            lemma_vmax_range(m, moves, (depth - 1) as nat, me, t, 0);
        } else {
            lemma_vmin_range(m, moves, (depth - 1) as nat, me, t, 0);
        }
    }
}

proof fn lemma_vmax_range(
    m: StateModel,
    moves: Seq<Move>,
    cd: nat,
    me: Player,
    t: AiControlType,
    k: int,
)
    ensures
        i64::MIN as int <= spec_vmax(m, moves, cd, me, t, k) <= i64::MAX as int,
    decreases cd, 1int, moves.len() - k,
{
    if k < 0 || k >= moves.len() {
    } else {
        let ex = spec_execute(m, moves[k]);
        lemma_value_range(ex.0, ex.1, cd, me, t);
        assert(spec_child_value(m, moves[k], cd, me, t) == spec_minimax_value(
            ex.0,
            ex.1,
            cd,
            me,
            t,
        ));
        lemma_vmax_range(m, moves, cd, me, t, k + 1);
    }
}

proof fn lemma_vmin_range(
    m: StateModel,
    moves: Seq<Move>,
    cd: nat,
    me: Player,
    t: AiControlType,
    k: int,
)
    ensures
        i64::MIN as int <= spec_vmin(m, moves, cd, me, t, k) <= i64::MAX as int,
    decreases cd, 1int, moves.len() - k,
{
    if k < 0 || k >= moves.len() {
    } else {
        let ex = spec_execute(m, moves[k]);
        lemma_value_range(ex.0, ex.1, cd, me, t);
        assert(spec_child_value(m, moves[k], cd, me, t) == spec_minimax_value(
            ex.0,
            ex.1,
            cd,
            me,
            t,
        ));
        lemma_vmin_range(m, moves, cd, me, t, k + 1);
    }
}

/// The maximum over a move list bounds every member, and is attained by a
/// member unless the list is empty.
pub proof fn lemma_vmax_members(
    m: StateModel,
    moves: Seq<Move>,
    cd: nat,
    me: Player,
    t: AiControlType,
    k: int,
)
    requires
        0 <= k,
    ensures
        forall|j: int|
            k <= j < moves.len() ==> spec_child_value(m, #[trigger] moves[j], cd, me, t)
                <= spec_vmax(m, moves, cd, me, t, k),
        spec_vmax(m, moves, cd, me, t, k) == i64::MIN as int || exists|j: int|
            k <= j < moves.len() && spec_child_value(m, #[trigger] moves[j], cd, me, t)
                == spec_vmax(m, moves, cd, me, t, k),
    decreases moves.len() - k,
{
    if k < 0 || k >= moves.len() {
    } else {
        lemma_vmax_members(m, moves, cd, me, t, k + 1);
        let v = spec_child_value(m, moves[k], cd, me, t);
        let rest = spec_vmax(m, moves, cd, me, t, k + 1);
        let cur = spec_vmax(m, moves, cd, me, t, k);
        if cur == v {
            assert(k <= k < moves.len() && spec_child_value(m, moves[k], cd, me, t) == cur);
        } else {
            assert(cur == rest);
            if rest != i64::MIN as int {
                let j = choose|j: int|
                    k + 1 <= j < moves.len() && spec_child_value(m, #[trigger] moves[j], cd, me, t)
                        == rest;
                assert(k <= j < moves.len() && spec_child_value(m, moves[j], cd, me, t) == cur);
            }
        }
    }
}

/// The minimum over a move list bounds every member, and is attained by a
/// member unless the list is empty.
pub proof fn lemma_vmin_members(
    m: StateModel,
    moves: Seq<Move>,
    cd: nat,
    me: Player,
    t: AiControlType,
    k: int,
)
    requires
        0 <= k,
    ensures
        forall|j: int|
            k <= j < moves.len() ==> spec_child_value(m, #[trigger] moves[j], cd, me, t)
                >= spec_vmin(m, moves, cd, me, t, k),
        spec_vmin(m, moves, cd, me, t, k) == i64::MAX as int || exists|j: int|
            k <= j < moves.len() && spec_child_value(m, #[trigger] moves[j], cd, me, t)
                == spec_vmin(m, moves, cd, me, t, k),
    decreases moves.len() - k,
{
    if k < 0 || k >= moves.len() {
    } else {
        lemma_vmin_members(m, moves, cd, me, t, k + 1);
        let v = spec_child_value(m, moves[k], cd, me, t);
        let rest = spec_vmin(m, moves, cd, me, t, k + 1);
        let cur = spec_vmin(m, moves, cd, me, t, k);
        if cur == v {
            assert(k <= k < moves.len() && spec_child_value(m, moves[k], cd, me, t) == cur);
        } else {
            assert(cur == rest);
            if rest != i64::MAX as int {
                let j = choose|j: int|
                    k + 1 <= j < moves.len() && spec_child_value(m, #[trigger] moves[j], cd, me, t)
                        == rest;
                assert(k <= j < moves.len() && spec_child_value(m, moves[j], cd, me, t) == cur);
            }
        }
    }
}

/// Move lists holding the same moves have the same maximum child value:
/// pruning-friendly move ordering never changes the value of a node.
pub proof fn lemma_vmax_multiset(
    m: StateModel,
    s1: Seq<Move>,
    s2: Seq<Move>,
    cd: nat,
    me: Player,
    t: AiControlType,
)
    requires
        s1.to_multiset() == s2.to_multiset(),
    ensures
        spec_vmax(m, s1, cd, me, t, 0) == spec_vmax(m, s2, cd, me, t, 0),
{
    broadcast use vstd::seq_lib::group_to_multiset_ensures;

    lemma_vmax_members(m, s1, cd, me, t, 0);
    lemma_vmax_members(m, s2, cd, me, t, 0);
    let v1 = spec_vmax(m, s1, cd, me, t, 0);
    let v2 = spec_vmax(m, s2, cd, me, t, 0);
    assert(v1 <= v2) by {
        if v1 != i64::MIN as int {
            let j = choose|j: int|
                0 <= j < s1.len() && spec_child_value(m, #[trigger] s1[j], cd, me, t) == v1;
            assert(s1.contains(s1[j]));
            assert(s1.to_multiset().count(s1[j]) > 0);
            assert(s2.to_multiset().count(s1[j]) > 0);
            assert(s2.contains(s1[j]));
            let j2 = choose|j2: int| 0 <= j2 < s2.len() && s2[j2] == s1[j];
            assert(spec_child_value(m, s2[j2], cd, me, t) == v1);
        } else {
            lemma_vmax_range_any(m, s2, cd, me, t);
        }
    }
    assert(v2 <= v1) by {
        if v2 != i64::MIN as int {
            let j = choose|j: int|
                0 <= j < s2.len() && spec_child_value(m, #[trigger] s2[j], cd, me, t) == v2;
            assert(s2.contains(s2[j]));
            assert(s2.to_multiset().count(s2[j]) > 0);
            assert(s1.to_multiset().count(s2[j]) > 0);
            assert(s1.contains(s2[j]));
            let j2 = choose|j2: int| 0 <= j2 < s1.len() && s1[j2] == s2[j];
            assert(spec_child_value(m, s1[j2], cd, me, t) == v2);
        } else {
            lemma_vmax_range_any(m, s1, cd, me, t);
        }
    }
}

proof fn lemma_vmax_range_any(
    m: StateModel,
    moves: Seq<Move>,
    cd: nat,
    me: Player,
    t: AiControlType,
)
    ensures
        spec_vmax(m, moves, cd, me, t, 0) >= i64::MIN as int,
{
    lemma_vmax_range(m, moves, cd, me, t, 0);
}

/// Move lists holding the same moves have the same minimum child value.
pub proof fn lemma_vmin_multiset(
    m: StateModel,
    s1: Seq<Move>,
    s2: Seq<Move>,
    cd: nat,
    me: Player,
    t: AiControlType,
)
    requires
        s1.to_multiset() == s2.to_multiset(),
    ensures
        spec_vmin(m, s1, cd, me, t, 0) == spec_vmin(m, s2, cd, me, t, 0),
{
    broadcast use vstd::seq_lib::group_to_multiset_ensures;

    lemma_vmin_members(m, s1, cd, me, t, 0);
    lemma_vmin_members(m, s2, cd, me, t, 0);
    let v1 = spec_vmin(m, s1, cd, me, t, 0);
    let v2 = spec_vmin(m, s2, cd, me, t, 0);
    assert(v1 >= v2) by {
        if v1 != i64::MAX as int {
            let j = choose|j: int|
                0 <= j < s1.len() && spec_child_value(m, #[trigger] s1[j], cd, me, t) == v1;
            assert(s1.contains(s1[j]));
            assert(s1.to_multiset().count(s1[j]) > 0);
            assert(s2.to_multiset().count(s1[j]) > 0);
            assert(s2.contains(s1[j]));
            let j2 = choose|j2: int| 0 <= j2 < s2.len() && s2[j2] == s1[j];
            assert(spec_child_value(m, s2[j2], cd, me, t) == v1);
        } else {
            lemma_vmin_range(m, s2, cd, me, t, 0);
        }
    }
    assert(v2 >= v1) by {
        if v2 != i64::MAX as int {
            let j = choose|j: int|
                0 <= j < s2.len() && spec_child_value(m, #[trigger] s2[j], cd, me, t) == v2;
            assert(s2.contains(s2[j]));
            assert(s2.to_multiset().count(s2[j]) > 0);
            assert(s1.to_multiset().count(s2[j]) > 0);
            assert(s1.contains(s2[j]));
            let j2 = choose|j2: int| 0 <= j2 < s1.len() && s1[j2] == s2[j];
            assert(spec_child_value(m, s1[j2], cd, me, t) == v2);
        } else {
            lemma_vmin_range(m, s1, cd, me, t, 0);
        }
    }
}

/// The exact mirror of the executable pruned search: shuffle, then walk
/// the children keeping the running bound, cutting off when the window
/// closes, threading every pseudo-random draw.
pub open spec fn spec_ab(
    m: StateModel,
    res: MoveOutcome,
    depth: nat,
    me: Player,
    alpha: int,
    beta: int,
    t: AiControlType,
    rng: u64,
) -> (int, u64)
    decreases depth, 0int, 0int,
{
    if depth == 0 || res.winner is Some {
        spec_strategy_score(t, res, me, rng)
    } else {
        let sh = spec_shuffle(spec_enumerate(m), rng);
        if m.turn == me {
            spec_ab_max(m, sh.0, (depth - 1) as nat, me, alpha, beta, i64::MIN as int, t, sh.1, 0)
        } else {
            spec_ab_min(m, sh.0, (depth - 1) as nat, me, alpha, beta, i64::MAX as int, t, sh.1, 0)
        }
    }
}

/// The maximizing walk of the pruned search.
pub open spec fn spec_ab_max(
    m: StateModel,
    moves: Seq<Move>,
    cd: nat,
    me: Player,
    alpha: int,
    beta: int,
    best: int,
    t: AiControlType,
    rng: u64,
    k: int,
) -> (int, u64)
    decreases cd, 1int, moves.len() - k,
{
    if k < 0 || k >= moves.len() {
        (best, rng)
    } else {
        let ex = spec_execute(m, moves[k]);
        let cv = spec_ab(ex.0, ex.1, cd, me, alpha, beta, t, rng);
        let best2 = if cv.0 > best {
            cv.0
        } else {
            best
        };
        let alpha2 = if best2 > alpha {
            best2
        } else {
            alpha
        };
        if beta <= best2 {
            (best2, cv.1)
        } else {
            spec_ab_max(m, moves, cd, me, alpha2, beta, best2, t, cv.1, k + 1)
        }
    }
}

/// The minimizing walk of the pruned search.
pub open spec fn spec_ab_min(
    m: StateModel,
    moves: Seq<Move>,
    cd: nat,
    me: Player,
    alpha: int,
    beta: int,
    worst: int,
    t: AiControlType,
    rng: u64,
    k: int,
) -> (int, u64)
    decreases cd, 1int, moves.len() - k,
{
    if k < 0 || k >= moves.len() {
        (worst, rng)
    } else {
        let ex = spec_execute(m, moves[k]);
        let cv = spec_ab(ex.0, ex.1, cd, me, alpha, beta, t, rng);
        let worst2 = if cv.0 < worst {
            cv.0
        } else {
            worst
        };
        let beta2 = if worst2 < beta {
            worst2
        } else {
            beta
        };
        if worst2 <= alpha {
            (worst2, cv.1)
        } else {
            spec_ab_min(m, moves, cd, me, alpha, beta2, worst2, t, cv.1, k + 1)
        }
    }
}

/// The exact mirror of the executable root search: shuffle the legal
/// moves, score each by the pruned search, and keep the first strict
/// improvement, seeded with the first candidate; the shuffle is the
/// uniform tie-break among equally good moves, and a nonempty move list
/// always yields a choice.
pub open spec fn spec_find_best(m: StateModel, t: AiControlType, max_depth: nat, rng: u64) -> (
    Option<Move>,
    u64,
) {
    let sh = spec_shuffle(spec_enumerate(m), rng);
    spec_root_loop(
        m,
        sh.0,
        t,
        (max_depth - 1) as nat,
        i64::MIN as int,
        i64::MIN as int,
        None,
        sh.1,
        0,
    )
}

/// The root walk: evaluate each shuffled move by the heuristic (consuming
/// a draw for the perturbed tier) and the pruned search, keeping the best.
/// The first candidate seeds the selection, so whenever there is a legal
/// move at all, one is chosen.
pub open spec fn spec_root_loop(
    m: StateModel,
    moves: Seq<Move>,
    t: AiControlType,
    cd: nat,
    alpha: int,
    best_score: int,
    best_move: Option<Move>,
    rng: u64,
    k: int,
) -> (Option<Move>, u64)
    decreases moves.len() - k,
{
    if k < 0 || k >= moves.len() {
        (best_move, rng)
    } else {
        let ex = spec_execute(m, moves[k]);
        let rs = spec_strategy_score(t, ex.1, m.turn, rng);
        let v = spec_ab(ex.0, ex.1, cd, m.turn, alpha, i64::MAX as int, t, rs.1);
        let bm2 = if v.0 > best_score || best_move is None {
            Some(moves[k])
        } else {
            best_move
        };
        let bs2 = if v.0 > best_score {
            v.0
        } else {
            best_score
        };
        let a2 = if bs2 > alpha {
            bs2
        } else {
            alpha
        };
        spec_root_loop(m, moves, t, cd, a2, bs2, bm2, v.1, k + 1)
    }
}

impl AiControlType {
    /// Evaluate the heuristic on a move's outcome, drawing from `rng` for
    /// the perturbed tier.
    pub fn score(&self, result: &MoveResult, node: &State, player: Player, rng: &mut Rng) -> (r:
        i64)
        requires
            spec_strategy_wf(*self),
            spec_outcome_bounded(result@),
        ensures
            (r as int, final(rng)@) == spec_strategy_score(*self, result@, player, old(rng)@),
    {
        proof {
            lemma_leaf_raw_range(result@, player);
        }
        match self {
            AiControlType::Best => calculate_state_score(result, node, player),
            AiControlType::WithRandom(random_parameter) => {
                let base = calculate_state_score(result, node, player);
                let draw = rng.next();
                let noise = (draw % (*random_parameter as u64)) as i64;
                proof {
                    assert(draw % (*random_parameter as u64) < (*random_parameter as u64));
                }
                base + noise
            },
            AiControlType::Negative => {
                let base = calculate_state_score(result, node, player);
                0 - base
            },
        }
    }
}

/// Moves that are the same multiset as the legal-move list are all legal.
pub proof fn lemma_shuffled_legal_pub(m: StateModel, sh: Seq<Move>)
    requires
        crate::state::spec_state_inv(m),
        m.slots.len() <= usize::MAX,
        crate::state::spec_hand(m, m.turn).len() <= usize::MAX,
        sh.to_multiset() == spec_enumerate(m).to_multiset(),
    ensures
        forall|j: int| 0 <= j < sh.len() ==> spec_can_execute(m, #[trigger] sh[j]),
{
    broadcast use vstd::seq_lib::group_to_multiset_ensures;

    crate::state::lemma_enumerate_sound(m);
    assert forall|j: int| 0 <= j < sh.len() implies spec_can_execute(m, #[trigger] sh[j]) by {
        assert(sh.contains(sh[j]));
        assert(sh.to_multiset().count(sh[j]) > 0);
        assert(spec_enumerate(m).to_multiset().count(sh[j]) > 0);
        assert(spec_enumerate(m).contains(sh[j]));
        let i = choose|i: int| 0 <= i < spec_enumerate(m).len() && spec_enumerate(m)[i] == sh[j];
        assert(spec_can_execute(m, spec_enumerate(m)[i]));
    }
}

/// Depth-limited alpha-beta minimax from the state `node`, reached by the
/// move whose diff is `move_result_to_get_here`, maximizing for `me`.
/// The result is exactly the mirrored pruned search; for the
/// deterministic heuristics it relates to plain unpruned minimax in the
/// classic way: exact inside the `(alpha, beta)` window, and a sound
/// bound on the respective side outside it.
pub fn minimax(
    score_function: &AiControlType,
    node: State,
    move_result_to_get_here: &MoveResult,
    depth: u32,
    me: Player,
    alpha: i64,
    beta: i64,
    rng: &mut Rng,
) -> (r: i64)
    requires
        node.wf(),
        spec_strategy_wf(*score_function),
        spec_outcome_bounded(move_result_to_get_here@),
        alpha <= beta,
    ensures
        (r as int, final(rng)@) == spec_ab(
            node@,
            move_result_to_get_here@,
            depth as nat,
            me,
            alpha as int,
            beta as int,
            *score_function,
            old(rng)@,
        ),
        spec_strategy_deterministic(*score_function) && alpha < beta ==> {
            let v = spec_minimax_value(
                node@,
                move_result_to_get_here@,
                depth as nat,
                me,
                *score_function,
            );
            &&& (r <= alpha ==> v <= r)
            &&& (r >= beta ==> v >= r)
            &&& (alpha < r && r < beta ==> r as int == v)
        },
    decreases depth, 0int,
{
    let winner_decided = move_result_to_get_here.winner.is_some();
    if depth == 0 || winner_decided {
        let r = score_function.score(move_result_to_get_here, &node, me, rng);
        proof {
            lemma_leaf_raw_range(move_result_to_get_here@, me);
        }
        return r;
    }
    let ghost m = node@;
    proof {
        crate::state::lemma_wf_model(&node);
        lemma_shuffle_multiset(spec_enumerate(m), rng@);
    }
    let mut possible_moves = node.enumerate_possible_moves();
    randomise_list(&mut possible_moves, rng);
    let ghost sh = possible_moves@;
    proof {
        lemma_shuffled_legal_pub(m, sh);
    }
    let cd = depth - 1;
    let r;
    if node.turn() == me {
        r = ab_max(score_function, &node, &possible_moves, cd, me, alpha, beta, rng);
        proof {
            if spec_strategy_deterministic(*score_function) {
                lemma_vmax_multiset(m, sh, spec_enumerate(m), cd as nat, me, *score_function);
            }
        }
    } else {
        r = ab_min(score_function, &node, &possible_moves, cd, me, alpha, beta, rng);
        proof {
            if spec_strategy_deterministic(*score_function) {
                lemma_vmin_multiset(m, sh, spec_enumerate(m), cd as nat, me, *score_function);
            }
        }
    }
    r
}

/// The maximizing walk over a list of legal moves.
fn ab_max(
    score_function: &AiControlType,
    node: &State,
    moves: &Vec<Move>,
    cd: u32,
    me: Player,
    alpha: i64,
    beta: i64,
    rng: &mut Rng,
) -> (r: i64)
    requires
        node.wf(),
        spec_strategy_wf(*score_function),
        alpha <= beta,
        forall|j: int| 0 <= j < moves@.len() ==> spec_can_execute(node@, #[trigger] moves@[j]),
    ensures
        (r as int, final(rng)@) == spec_ab_max(
            node@,
            moves@,
            cd as nat,
            me,
            alpha as int,
            beta as int,
            i64::MIN as int,
            *score_function,
            old(rng)@,
            0,
        ),
        spec_strategy_deterministic(*score_function) && alpha < beta ==> {
            let vm = spec_vmax(node@, moves@, cd as nat, me, *score_function, 0);
            &&& (r < beta ==> vm <= r)
            &&& (alpha < r && r < beta ==> vm == r)
            &&& (r >= beta ==> vm >= r)
        },
    decreases cd, 1int,
{
    let ghost m = node@;
    let ghost t = *score_function;
    let ghost full = spec_ab_max(
        m,
        moves@,
        cd as nat,
        me,
        alpha as int,
        beta as int,
        i64::MIN as int,
        t,
        old(rng)@,
        0,
    );
    let mut best: i64 = i64::MIN;
    let mut a = alpha;
    let n = moves.len();
    let mut k: usize = 0;
    let mut done = false;
    while k < n && !done
        invariant
            0 <= k <= n,
            n == moves@.len(),
            node.wf(),
            m == node@,
            t == *score_function,
            spec_strategy_wf(t),
            forall|j: int| 0 <= j < moves@.len() ==> spec_can_execute(m, #[trigger] moves@[j]),
            alpha <= a,
            !done ==> a <= beta,
            !done ==> (best == i64::MIN || best < beta),
            !done ==> a as int == (if best as int > alpha as int {
                best as int
            } else {
                alpha as int
            }),
            !done ==> full == spec_ab_max(
                m,
                moves@,
                cd as nat,
                me,
                a as int,
                beta as int,
                best as int,
                t,
                rng@,
                k as int,
            ),
            alpha < beta && !done ==> a < beta,
            done ==> full == (best as int, rng@),
            done && spec_strategy_deterministic(t) && alpha < beta ==> beta <= best && (exists|
                j: int,
            |
                0 <= j < moves@.len() && spec_child_value(m, #[trigger] moves@[j], cd as nat, me, t)
                    >= best as int),
            spec_strategy_deterministic(t) && alpha < beta && !done ==> {
                &&& forall|j: int|
                    0 <= j < k ==> spec_child_value(m, #[trigger] moves@[j], cd as nat, me, t)
                        <= best as int
                &&& (best == i64::MIN || best <= alpha || exists|j: int|
                    0 <= j < k && spec_child_value(m, #[trigger] moves@[j], cd as nat, me, t)
                        == best as int)
            },
        decreases n - k, (if done { 0int } else { 1int }),
    {
        let ghost a_head = a as int;
        let ghost best_head = best as int;
        let ghost rng_head = rng@;
        let move_to_check = moves[k];
        let mut next_node = node.duplicate();
        let next_move_result = next_node.execute_move(&move_to_check);
        let ghost ex = spec_execute(m, move_to_check);
        let value = minimax(
            score_function,
            next_node,
            &next_move_result,
            cd,
            me,
            a,
            beta,
            rng,
        );
        proof {
            if spec_strategy_deterministic(t) {
                lemma_value_range(ex.0, ex.1, cd as nat, me, t);
            }
        }
        if value > best {
            best = value;
        }
        if best > a {
            a = best;
        }
        proof {
            assert(spec_ab_max(m, moves@, cd as nat, me, a_head, beta as int, best_head, t, rng_head, k as int)
                == (if beta as int <= best as int {
                    (best as int, rng@)
                } else {
                    spec_ab_max(m, moves@, cd as nat, me, a as int, beta as int, best as int, t, rng@, k + 1)
                }));
        }
        if beta <= best {
            proof {
                if spec_strategy_deterministic(t) && alpha < beta {
                    assert(spec_child_value(m, moves@[k as int], cd as nat, me, t)
                        >= best as int);
                }
            }
            done = true;
        } else {
            k = k + 1;
        }
    }
    proof {
        if spec_strategy_deterministic(t) && alpha < beta {
            lemma_vmax_members(m, moves@, cd as nat, me, t, 0);
            lemma_vmax_range(m, moves@, cd as nat, me, t, 0);
        }
    }
    best
}

/// The minimizing walk over a list of legal moves.
fn ab_min(
    score_function: &AiControlType,
    node: &State,
    moves: &Vec<Move>,
    cd: u32,
    me: Player,
    alpha: i64,
    beta: i64,
    rng: &mut Rng,
) -> (r: i64)
    requires
        node.wf(),
        spec_strategy_wf(*score_function),
        alpha <= beta,
        forall|j: int| 0 <= j < moves@.len() ==> spec_can_execute(node@, #[trigger] moves@[j]),
    ensures
        (r as int, final(rng)@) == spec_ab_min(
            node@,
            moves@,
            cd as nat,
            me,
            alpha as int,
            beta as int,
            i64::MAX as int,
            *score_function,
            old(rng)@,
            0,
        ),
        spec_strategy_deterministic(*score_function) && alpha < beta ==> {
            let vm = spec_vmin(node@, moves@, cd as nat, me, *score_function, 0);
            &&& (r > alpha ==> vm >= r)
            &&& (alpha < r && r < beta ==> vm == r)
            &&& (r <= alpha ==> vm <= r)
        },
    decreases cd, 1int,
{
    let ghost m = node@;
    let ghost t = *score_function;
    let ghost full = spec_ab_min(
        m,
        moves@,
        cd as nat,
        me,
        alpha as int,
        beta as int,
        i64::MAX as int,
        t,
        old(rng)@,
        0,
    );
    let mut worst: i64 = i64::MAX;
    let mut b = beta;
    let n = moves.len();
    let mut k: usize = 0;
    let mut done = false;
    while k < n && !done
        invariant
            0 <= k <= n,
            n == moves@.len(),
            node.wf(),
            m == node@,
            t == *score_function,
            spec_strategy_wf(t),
            forall|j: int| 0 <= j < moves@.len() ==> spec_can_execute(m, #[trigger] moves@[j]),
            b <= beta,
            !done ==> alpha <= b,
            !done ==> (worst == i64::MAX || worst > alpha),
            !done ==> b as int == (if (worst as int) < beta as int {
                worst as int
            } else {
                beta as int
            }),
            !done ==> full == spec_ab_min(
                m,
                moves@,
                cd as nat,
                me,
                alpha as int,
                b as int,
                worst as int,
                t,
                rng@,
                k as int,
            ),
            alpha < beta && !done ==> b > alpha,
            done ==> full == (worst as int, rng@),
            done && spec_strategy_deterministic(t) && alpha < beta ==> worst <= alpha && (exists|
                j: int,
            |
                0 <= j < moves@.len() && spec_child_value(m, #[trigger] moves@[j], cd as nat, me, t)
                    <= worst as int),
            spec_strategy_deterministic(t) && alpha < beta && !done ==> {
                &&& forall|j: int|
                    0 <= j < k ==> spec_child_value(m, #[trigger] moves@[j], cd as nat, me, t)
                        >= worst as int
                &&& (worst == i64::MAX || worst >= beta || exists|j: int|
                    0 <= j < k && spec_child_value(m, #[trigger] moves@[j], cd as nat, me, t)
                        == worst as int)
            },
        decreases n - k, (if done { 0int } else { 1int }),
    {
        let ghost b_head = b as int;
        let ghost worst_head = worst as int;
        let ghost rng_head = rng@;
        let move_to_check = moves[k];
        let mut next_node = node.duplicate();
        let next_move_result = next_node.execute_move(&move_to_check);
        let ghost ex = spec_execute(m, move_to_check);
        let value = minimax(
            score_function,
            next_node,
            &next_move_result,
            cd,
            me,
            alpha,
            b,
            rng,
        );
        proof {
            if spec_strategy_deterministic(t) {
                lemma_value_range(ex.0, ex.1, cd as nat, me, t);
            }
        }
        if value < worst {
            worst = value;
        }
        if worst < b {
            b = worst;
        }
        proof {
            assert(spec_ab_min(m, moves@, cd as nat, me, alpha as int, b_head, worst_head, t, rng_head, k as int)
                == (if worst as int <= alpha as int {
                    (worst as int, rng@)
                } else {
                    spec_ab_min(m, moves@, cd as nat, me, alpha as int, b as int, worst as int, t, rng@, k + 1)
                }));
        }
        if worst <= alpha {
            proof {
                if spec_strategy_deterministic(t) && alpha < beta {
                    assert(spec_child_value(m, moves@[k as int], cd as nat, me, t)
                        <= worst as int);
                }
            }
            done = true;
        } else {
            k = k + 1;
        }
    }
    proof {
        if spec_strategy_deterministic(t) && alpha < beta {
            lemma_vmin_members(m, moves@, cd as nat, me, t, 0);
            lemma_vmin_range(m, moves@, cd as nat, me, t, 0);
        }
    }
    worst
}

/// The parameters of an opponent: its search depth and its heuristic.
#[derive(Debug, Clone, Copy, PartialEq, Eq, Structural)]
pub struct AIControl {
    pub depth: u32,
    pub ai_type: AiControlType,
}

/// Who controls each seat of a match.
#[derive(Debug, Clone, Copy, PartialEq, Eq, Structural)]
pub enum ControlMode {
    TwoHuman,
    AI(AIControl, Player),
    TwoAI(AIControl, AIControl),
}

/// Pick the move to play: shuffle the legal moves for unbiased
/// tie-breaking, score each by the pruned search, and keep the first
/// strict improvement, seeded with the first candidate so that a move is
/// chosen whenever one exists; `None` means there is no legal move at
/// all. For the deterministic heuristics the chosen move provably attains
/// the unpruned minimax optimum over all legal moves.
pub fn find_best_move(
    game_state: &State,
    score_function: AiControlType,
    max_depth: u32,
    rng: &mut Rng,
) -> (r: Option<Move>)
    requires
        game_state.wf(),
        spec_strategy_wf(score_function),
        max_depth >= 1,
    ensures
        (r, final(rng)@) == spec_find_best(
            game_state@,
            score_function,
            max_depth as nat,
            old(rng)@,
        ),
        r is None <==> spec_enumerate(game_state@).len() == 0,
        r matches Some(mv) ==> spec_enumerate(game_state@).contains(mv) && spec_can_execute(
            game_state@,
            mv,
        ),
        spec_strategy_deterministic(score_function) ==> {
            let vm = spec_vmax(
                game_state@,
                spec_enumerate(game_state@),
                (max_depth - 1) as nat,
                game_state@.turn,
                score_function,
                0,
            );
            r matches Some(mv) ==> spec_child_value(
                game_state@,
                mv,
                (max_depth - 1) as nat,
                game_state@.turn,
                score_function,
            ) == vm
        },
{
    broadcast use vstd::seq_lib::group_to_multiset_ensures;

    let ghost m = game_state@;
    let ghost t = score_function;
    proof {
        crate::state::lemma_wf_model(game_state);
        lemma_shuffle_multiset(spec_enumerate(m), rng@);
    }
    let mut possible_moves = game_state.enumerate_possible_moves();
    randomise_list(&mut possible_moves, rng);
    let ghost sh = possible_moves@;
    proof {
        lemma_shuffled_legal_pub(m, sh);
    }
    let player = game_state.turn();
    let cd = max_depth - 1;
    let ghost cdn = cd as nat;
    let mut alpha: i64 = i64::MIN;
    let mut best_score: i64 = i64::MIN;
    let mut best_move: Option<Move> = None;
    let ghost full = spec_root_loop(
        m,
        sh,
        t,
        cdn,
        i64::MIN as int,
        i64::MIN as int,
        None,
        rng@,
        0,
    );
    let n = possible_moves.len();
    let mut k: usize = 0;
    while k < n
        invariant
            0 <= k <= n,
            n == sh.len(),
            possible_moves@ == sh,
            game_state.wf(),
            m == game_state@,
            t == score_function,
            player == m.turn,
            cdn == cd as nat,
            spec_strategy_wf(t),
            forall|j: int| 0 <= j < sh.len() ==> spec_can_execute(m, #[trigger] sh[j]),
            alpha == best_score,
            best_move is None ==> best_score == i64::MIN,
            k > 0 ==> best_move is Some,
            best_move matches Some(mv) ==> sh.contains(mv),
            full == spec_root_loop(
                m,
                sh,
                t,
                cdn,
                alpha as int,
                best_score as int,
                best_move,
                rng@,
                k as int,
            ),
            spec_strategy_deterministic(t) ==> {
                &&& forall|j: int|
                    0 <= j < k ==> spec_child_value(m, #[trigger] sh[j], cdn, m.turn, t)
                        <= best_score as int
                &&& (best_move matches Some(mv) ==> spec_child_value(m, mv, cdn, m.turn, t)
                    == best_score as int)
            },
        decreases n - k,
    {
        let ghost alpha_head = alpha as int;
        let ghost bs_head = best_score as int;
        let ghost bm_head = best_move;
        let ghost rng_head = rng@;
        let move_to_check = possible_moves[k];
        let mut next_state = game_state.duplicate();
        let result = next_state.execute_move(&move_to_check);
        let ghost ex = spec_execute(m, move_to_check);
        let ghost rs = spec_strategy_score(t, ex.1, m.turn, rng_head);
        // scoring the immediate outcome draws from the generator for the
        // perturbed tier; the draw is part of the reproducible stream
        let _resultant_score = score_function.score(&result, &next_state, player, rng);
        proof {
            assert(rng@ == rs.1);
        }
        let ghost v = spec_ab(ex.0, ex.1, cdn, m.turn, alpha_head, i64::MAX as int, t, rs.1);
        let score = minimax(
            &score_function,
            next_state,
            &result,
            cd,
            player,
            alpha,
            i64::MAX,
            rng,
        );
        proof {
            assert(score as int == v.0 && rng@ == v.1);
            if spec_strategy_deterministic(t) {
                lemma_value_range(ex.0, ex.1, cdn, player, t);
            }
        }
        let improved = score > best_score;
        if improved || best_move.is_none() {
            best_move = Some(move_to_check);
        }
        if improved {
            best_score = score;
        }
        if best_score > alpha {
            alpha = best_score;
        }
        proof {
            assert(spec_root_loop(m, sh, t, cdn, alpha_head, bs_head, bm_head, rng_head, k as int)
                == spec_root_loop(
                m,
                sh,
                t,
                cdn,
                alpha as int,
                best_score as int,
                best_move,
                rng@,
                k + 1,
            ));
            if best_move is Some && bm_head != best_move {
                assert(sh.contains(sh[k as int]));
            }
            if spec_strategy_deterministic(t) {
                let cv = spec_child_value(m, sh[k as int], cdn, player, t);
                assert(cv == spec_minimax_value(ex.0, ex.1, cdn, player, t));
                if alpha_head < i64::MAX as int {
                    if score as int > bs_head {
                        if (score as int) < i64::MAX as int {
                            assert(cv == score as int);
                        } else {
                            assert(cv >= score as int);
                            assert(cv <= i64::MAX as int);
                        }
                    } else {
                        assert(cv <= score as int);
                        if bm_head is None {
                            // the seeded first candidate: its value is the
                            // floor the running best already sits on
                            assert(bs_head == i64::MIN as int);
                            assert(cv == i64::MIN as int);
                        }
                    }
                } else {
                    assert(bs_head == i64::MAX as int);
                    assert(cv <= i64::MAX as int);
                }
            }
        }
        k = k + 1;
    }
    proof {
        if spec_strategy_deterministic(t) {
            lemma_vmax_members(m, sh, cdn, m.turn, t, 0);
            lemma_vmax_range(m, sh, cdn, m.turn, t, 0);
            lemma_vmax_multiset(m, sh, spec_enumerate(m), cdn, m.turn, t);
        }
        if best_move is Some {
            let mv = best_move->Some_0;
            assert(sh.to_multiset().count(mv) > 0);
            assert(spec_enumerate(m).contains(mv));
        }
    }
    best_move
}

} // verus!
