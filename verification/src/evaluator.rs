//! The cooperative step scheduler: the root search written as an explicit
//! state machine that the host's frame loop advances one small slice at a
//! time with [`Evaluator::do_work`], so the search never blocks a frame.
//!
//! Each step does a bounded piece of work: one board slot of the move
//! enumeration, one hand card's placements, one slot's picks and pushes, or
//! one root candidate scored by the pruned search. Partial progress lives in
//! the machine itself, so work resumes exactly where it stopped. The answer
//! is pinned to the same mathematical function of the state, heuristic,
//! depth and seed as [`crate::search::find_best_move`]: however the host
//! slices the stepping, the chosen move is identical to running the search
//! to completion in one call. A finished task caches its answer and returns
//! it on every later poll without recomputation.
use vstd::prelude::*;

use crate::board::CARD_LIMIT;
use crate::search::AIControl;
use crate::search::AiControlType;
use crate::search::Rng;
use crate::search::lemma_shuffle_multiset;
use crate::search::lemma_value_range;
use crate::search::minimax;
use crate::search::randomise_list;
use crate::search::spec_ab;
use crate::search::spec_find_best;
use crate::search::spec_rng_seed;
use crate::search::spec_root_loop;
use crate::search::spec_shuffle;
use crate::search::spec_strategy_score;
use crate::search::spec_strategy_wf;
use crate::state::Move;
use crate::state::State;
use crate::state::spec_can_execute;
use crate::board::spec_count;
use crate::state::spec_enumerate;
use crate::state::spec_execute;
use crate::state::spec_hand;
use crate::state::spec_pick_push_moves;
use crate::state::spec_place_moves;
use crate::state::spec_possible_spots;
use crate::types::Direction;
use crate::types::Position;

verus! {

/// Where the suspended search stands.
#[derive(Debug, Clone, Copy, PartialEq, Eq, Structural)]
enum Stage {
    Spots,
    HandMoves,
    PickPush,
    Scoring,
    Finished,
}

/// A suspended root search, advanced step by step by the host loop.
pub struct Evaluator {
    state: State,
    strategy: AiControlType,
    depth: u32,
    rng: Rng,
    rng0: Ghost<u64>,
    stage: Stage,
    cursor: usize,
    possible: Vec<(Position, Direction)>,
    moves: Vec<Move>,
    alpha: i64,
    best_score: i64,
    best_move: Option<Move>,
    answer: Option<Move>,
}

impl Evaluator {
    /// The machine is in a consistent mid-computation state: whatever has
    /// been computed so far, finishing the remaining steps yields the
    /// pinned answer.
    pub closed spec fn wf(self) -> bool {
        let m = self.state@;
        let spots = spec_possible_spots(m.slots, 0);
        &&& self.state.wf()
        &&& spec_strategy_wf(self.strategy)
        &&& self.depth >= 1
        &&& match self.stage {
            Stage::Spots => {
                &&& self.rng@ == self.rng0@
                &&& self.cursor <= m.slots.len()
                &&& spots == self.possible@ + spec_possible_spots(m.slots, self.cursor as int)
                &&& self.moves@ == Seq::<Move>::empty()
            },
            Stage::HandMoves => {
                &&& self.rng@ == self.rng0@
                &&& spec_count(m.slots) < CARD_LIMIT
                &&& self.possible@ == spots
                &&& self.cursor <= spec_hand(m, m.turn).len()
                &&& spec_place_moves(spec_hand(m, m.turn), spots, 0) == self.moves@
                    + spec_place_moves(spec_hand(m, m.turn), spots, self.cursor as int)
            },
            Stage::PickPush => {
                &&& self.rng@ == self.rng0@
                &&& self.cursor <= m.slots.len()
                &&& spec_enumerate(m) == self.moves@ + spec_pick_push_moves(
                    m,
                    self.cursor as int,
                )
            },
            Stage::Scoring => {
                &&& self.cursor <= self.moves@.len()
                &&& self.alpha == self.best_score
                &&& (self.best_move is None ==> self.best_score == i64::MIN)
                &&& forall|j: int|
                    0 <= j < self.moves@.len() ==> spec_can_execute(m, #[trigger] self.moves@[j])
                &&& spec_find_best(m, self.strategy, self.depth as nat, self.rng0@)
                    == spec_root_loop(
                    m,
                    self.moves@,
                    self.strategy,
                    (self.depth - 1) as nat,
                    self.alpha as int,
                    self.best_score as int,
                    self.best_move,
                    self.rng@,
                    self.cursor as int,
                )
            },
            Stage::Finished => self.answer == spec_find_best(
                m,
                self.strategy,
                self.depth as nat,
                self.rng0@,
            ).0,
        }
    }

    /// The move this search will choose: a function of the state, the
    /// heuristic, the depth and the seed alone — never of how the work is
    /// sliced across frames.
    pub closed spec fn spec_target(self) -> Option<Move> {
        spec_find_best(self.state@, self.strategy, self.depth as nat, self.rng0@).0
    }

    /// Whether the search has completed.
    pub closed spec fn spec_done(self) -> bool {
        self.stage is Finished
    }

    /// Suspend a fresh root search over `state` with the given heuristic,
    /// depth and pseudo-random seed.
    pub fn new(state: State, ai_type: AiControlType, depth: u32, seed: u64) -> (r: Evaluator)
        requires
            state.wf(),
            spec_strategy_wf(ai_type),
            depth >= 1,
        ensures
            r.wf(),
            !r.spec_done(),
            r.spec_target() == spec_find_best(
                state@,
                ai_type,
                depth as nat,
                spec_rng_seed(seed),
            ).0,
    {
        let r = Evaluator {
            state,
            strategy: ai_type,
            depth,
            rng: Rng::new(seed),
            rng0: Ghost(spec_rng_seed(seed)),
            stage: Stage::Spots,
            cursor: 0,
            possible: Vec::new(),
            moves: Vec::new(),
            alpha: i64::MIN,
            best_score: i64::MIN,
            best_move: None,
            answer: None,
        };
        proof {
            assert(spec_possible_spots(r.state@.slots, 0) =~= r.possible@ + spec_possible_spots(
                r.state@.slots,
                0,
            ));
        }
        r
    }

    /// How many more polls the search can need before it completes: the
    /// slots still to scan, the hand cards and slots still to enumerate,
    /// the candidates still to score, and one poll per stage hand-over.
    /// Every call of [`Evaluator::do_work`] on an unfinished task strictly
    /// decreases it, so polling always reaches the answer.
    pub closed spec fn steps_left(self) -> nat {
        let m = self.state@;
        let hand_stage = spec_hand(m, m.turn).len() + 1;
        let pick_stage = m.slots.len() + 1;
        let score_stage = spec_enumerate(m).len() + 1;
        match self.stage {
            Stage::Spots => ((m.slots.len() - self.cursor) as nat + 1 + hand_stage + pick_stage
                + score_stage) as nat,
            Stage::HandMoves => ((spec_hand(m, m.turn).len() - self.cursor) as nat + pick_stage
                + score_stage + 1) as nat,
            Stage::PickPush => ((m.slots.len() - self.cursor) as nat + score_stage + 1) as nat,
            Stage::Scoring => ((self.moves@.len() - self.cursor) as nat + 1) as nat,
            Stage::Finished => 0,
        }
    }

    /// Advance the suspended search by one bounded slice of work. Returns
    /// the chosen move once the search has completed (and on every poll
    /// after that), or `None` while it is still working. Each call on an
    /// unfinished task makes strict progress (`steps_left` decreases), so
    /// a started search always runs to completion across as many polls as
    /// needed.
    pub fn do_work(&mut self) -> (r: Option<Option<Move>>)
        requires
            old(self).wf(),
        ensures
            final(self).wf(),
            final(self).spec_target() == old(self).spec_target(),
            r matches Some(ans) ==> final(self).spec_done() && ans == old(self).spec_target(),
            r is None ==> !final(self).spec_done(),
            old(self).spec_done() ==> r is Some,
            !old(self).spec_done() ==> final(self).steps_left() < old(self).steps_left(),
    {
        match self.stage {
            Stage::Spots => {
                self.step_spots();
                None
            },
            Stage::HandMoves => {
                self.step_hand();
                None
            },
            Stage::PickPush => {
                self.step_pick_push();
                None
            },
            Stage::Scoring => self.step_scoring(),
            Stage::Finished => Some(self.answer),
        }
    }

    /// One slice of spot collection: one board slot's four directions.
    #[verifier::rlimit(60)]
    fn step_spots(&mut self)
        requires
            old(self).wf(),
            old(self).stage is Spots,
        ensures
            final(self).wf(),
            final(self).spec_target() == old(self).spec_target(),
            !final(self).spec_done(),
            final(self).steps_left() < old(self).steps_left(),
    {
        let ghost m = self.state@;
        {
        let n = self.state.board_slot_count();
        if self.cursor < n {
            let slot = self.state.board_slot_at(self.cursor);
            match slot.card {
                Some(c) => {
                    self.state.collect_spot(
                        c.position,
                        Direction::North,
                        &mut self.possible,
                    );
                    self.state.collect_spot(
                        c.position,
                        Direction::East,
                        &mut self.possible,
                    );
                    self.state.collect_spot(
                        c.position,
                        Direction::South,
                        &mut self.possible,
                    );
                    self.state.collect_spot(
                        c.position,
                        Direction::West,
                        &mut self.possible,
                    );
                },
                None => {},
            }
            proof {
                assert(spec_possible_spots(m.slots, 0) =~= self.possible@
                    + spec_possible_spots(m.slots, self.cursor + 1));
            }
            self.cursor = self.cursor + 1;
        } else {
            if self.state.board_card_count() < CARD_LIMIT {
                self.stage = Stage::HandMoves;
                self.cursor = 0;
                proof {
                    assert(spec_place_moves(
                        spec_hand(m, m.turn),
                        spec_possible_spots(m.slots, 0),
                        0,
                    ) =~= self.moves@ + spec_place_moves(
                        spec_hand(m, m.turn),
                        spec_possible_spots(m.slots, 0),
                        0,
                    ));
                    assert(self.possible@ =~= spec_possible_spots(m.slots, 0));
                }
            } else {
                self.stage = Stage::PickPush;
                self.cursor = 0;
                proof {
                    assert(spec_enumerate(m) =~= self.moves@ + spec_pick_push_moves(
                        m,
                        0,
                    ));
                }
            }
        }
        }
    }

    /// One slice of placement enumeration: one hand card over every spot.
    #[verifier::rlimit(60)]
    fn step_hand(&mut self)
        requires
            old(self).wf(),
            old(self).stage is HandMoves,
        ensures
            final(self).wf(),
            final(self).spec_target() == old(self).spec_target(),
            !final(self).spec_done(),
            final(self).steps_left() < old(self).steps_left(),
    {
        let ghost m = self.state@;
        {
        let hand_len = self.state.turn_hand().len();
        if self.cursor < hand_len {
            let held = self.state.turn_hand()[self.cursor];
            let ghost spots = spec_possible_spots(m.slots, 0);
            match held {
                crate::state::HeldCard::Available(_) => {
                    let ghost moves0 = self.moves@;
                    let ns = self.possible.len();
                    let mut si: usize = 0;
                    while si < ns
                        invariant
                            0 <= si <= ns,
                            ns == spots.len(),
                            self.state == old(self).state,
                            self.stage == old(self).stage,
                            self.cursor == old(self).cursor,
                            self.depth == old(self).depth,
                            self.strategy == old(self).strategy,
                            self.rng == old(self).rng,
                            self.rng0 == old(self).rng0,
                            self.alpha == old(self).alpha,
                            self.best_score == old(self).best_score,
                            self.best_move == old(self).best_move,
                            self.answer == old(self).answer,
                            self.possible@ == spots,
                            self.cursor < hand_len,
                            self.moves@ == moves0 + crate::state::spec_place_moves_for(
                                spots,
                                self.cursor as int,
                            ).take(si as int),
                        decreases ns - si,
                    {
                        let (coordinate, direction) = self.possible[si];
                        self.moves.push(
                            Move::PlaceCard(
                                crate::state::PlaceCardMove {
                                    direction,
                                    coordinate,
                                    card: crate::state::HeldCardIndex(self.cursor),
                                },
                            ),
                        );
                        proof {
                            assert(self.moves@ =~= moves0
                                + crate::state::spec_place_moves_for(
                                spots,
                                self.cursor as int,
                            ).take(si + 1));
                        }
                        si = si + 1;
                    }
                    proof {
                        assert(crate::state::spec_place_moves_for(
                            spots,
                            self.cursor as int,
                        ).take(ns as int) =~= crate::state::spec_place_moves_for(
                            spots,
                            self.cursor as int,
                        ));
                    }
                },
                crate::state::HeldCard::Waiting { .. } => {},
            }
            proof {
                let hand = spec_hand(m, m.turn);
                assert(held == hand[self.cursor as int]);
                let ci = self.cursor as int;
                assert(spec_place_moves(hand, spots, ci) == (match hand[ci] {
                    crate::state::HeldCard::Available(_) => crate::state::spec_place_moves_for(
                        spots,
                        ci,
                    ),
                    crate::state::HeldCard::Waiting { .. } => Seq::<Move>::empty(),
                }) + spec_place_moves(hand, spots, ci + 1));
                assert(spec_place_moves(hand, spots, 0) =~= self.moves@
                    + spec_place_moves(hand, spots, self.cursor + 1));
            }
            self.cursor = self.cursor + 1;
        } else {
            self.stage = Stage::PickPush;
            self.cursor = 0;
            proof {
                assert(spec_enumerate(m) =~= self.moves@ + spec_pick_push_moves(m, 0));
            }
        }
        }
    }

    /// One slice of pick-and-push enumeration: one board slot; the last
    /// slice shuffles the finished move list.
    #[verifier::rlimit(60)]
    fn step_pick_push(&mut self)
        requires
            old(self).wf(),
            old(self).stage is PickPush,
        ensures
            final(self).wf(),
            final(self).spec_target() == old(self).spec_target(),
            final(self).spec_done() == false,
            final(self).steps_left() < old(self).steps_left(),
    {
        let ghost m = self.state@;
        {
        let n = self.state.board_slot_count();
        if self.cursor < n {
            let slot = self.state.board_slot_at(self.cursor);
            match slot.card {
                Some(c) => {
                    let owned = match c.belonging_player {
                        Some(p) => p == self.state.turn(),
                        None => false,
                    };
                    if owned {
                        let idx = crate::board::Index {
                            slot: self.cursor,
                            gen: slot.gen,
                        };
                        self.moves.push(
                            Move::PickCard(crate::state::PickCardMove { card: idx }),
                        );
                        self.state.collect_push(idx, Direction::North, &mut self.moves);
                        self.state.collect_push(idx, Direction::East, &mut self.moves);
                        self.state.collect_push(idx, Direction::South, &mut self.moves);
                        self.state.collect_push(idx, Direction::West, &mut self.moves);
                    }
                },
                None => {},
            }
            proof {
                assert(spec_enumerate(m) =~= self.moves@ + spec_pick_push_moves(
                    m,
                    self.cursor + 1,
                ));
            }
            self.cursor = self.cursor + 1;
        } else {
            proof {
                assert(self.moves@ =~= spec_enumerate(m));
                crate::state::lemma_wf_model(&self.state);
                lemma_shuffle_multiset(spec_enumerate(m), self.rng@);
            }
            randomise_list(&mut self.moves, &mut self.rng);
            proof {
                crate::search::lemma_shuffled_legal_pub(m, self.moves@);
            }
            self.stage = Stage::Scoring;
            self.cursor = 0;
            self.alpha = i64::MIN;
            self.best_score = i64::MIN;
            self.best_move = None;
        }
        }
    }

    /// One slice of root scoring: one candidate move evaluated by the
    /// pruned search; the last slice records the answer.
    #[verifier::rlimit(60)]
    fn step_scoring(&mut self) -> (r: Option<Option<Move>>)
        requires
            old(self).wf(),
            old(self).stage is Scoring,
        ensures
            final(self).wf(),
            final(self).spec_target() == old(self).spec_target(),
            r matches Some(ans) ==> final(self).spec_done() && ans == old(self).spec_target(),
            r is None ==> !final(self).spec_done(),
            final(self).steps_left() < old(self).steps_left(),
    {
        let ghost m = self.state@;
        let n = self.moves.len();
        if self.cursor < n {
            let ghost alpha_head = self.alpha as int;
            let ghost bs_head = self.best_score as int;
            let ghost bm_head = self.best_move;
            let ghost rng_head = self.rng@;
            let ghost sh = self.moves@;
            let ghost t = self.strategy;
            let ghost cdn = (self.depth - 1) as nat;
            let player = self.state.turn();
            let move_to_check = self.moves[self.cursor];
            let mut next_state = self.state.duplicate();
            let result = next_state.execute_move(&move_to_check);
            let ghost ex = spec_execute(m, move_to_check);
            let ghost rs = spec_strategy_score(t, ex.1, m.turn, rng_head);
            let strat = self.strategy;
            // the immediate-outcome score draws from the generator for the
            // perturbed tier; the draw is part of the reproducible stream
            let _resultant_score = strat.score(&result, &next_state, player, &mut self.rng);
            proof {
                assert(self.rng@ == rs.1);
            }
            let score = minimax(
                &strat,
                next_state,
                &result,
                self.depth - 1,
                player,
                self.alpha,
                i64::MAX,
                &mut self.rng,
            );
            proof {
                assert((score as int, self.rng@) == spec_ab(
                    ex.0,
                    ex.1,
                    (self.depth - 1) as nat,
                    player,
                    alpha_head,
                    i64::MAX as int,
                    t,
                    rs.1,
                ));
            }
            let improved = score > self.best_score;
            if improved || self.best_move.is_none() {
                self.best_move = Some(move_to_check);
            }
            if improved {
                self.best_score = score;
            }
            if self.best_score > self.alpha {
                self.alpha = self.best_score;
            }
            proof {
                assert(spec_root_loop(
                    m,
                    sh,
                    t,
                    cdn,
                    alpha_head,
                    bs_head,
                    bm_head,
                    rng_head,
                    self.cursor as int,
                ) == spec_root_loop(
                    m,
                    sh,
                    t,
                    cdn,
                    self.alpha as int,
                    self.best_score as int,
                    self.best_move,
                    self.rng@,
                    self.cursor + 1,
                ));
            }
            self.cursor = self.cursor + 1;
            None
        } else {
            self.answer = self.best_move;
            self.stage = Stage::Finished;
            Some(self.answer)
        }
    }

    /// The cached answer of a finished search, or `None` while the search
    /// is still working.
    pub fn result(&self) -> (r: Option<Option<Move>>)
        requires
            self.wf(),
        ensures
            r is Some <==> self.spec_done(),
            r matches Some(ans) ==> ans == self.spec_target(),
    {
        match self.stage {
            Stage::Finished => Some(self.answer),
            _ => None,
        }
    }
}

impl AIControl {
    /// Suspend a search for the best move in `state` under this opponent's
    /// heuristic and depth, to be advanced frame by frame; `seed` makes
    /// the tie-breaking reproducible.
    pub fn move_finder(&self, state: State, seed: u64) -> (r: Evaluator)
        requires
            state.wf(),
            spec_strategy_wf(self.ai_type),
            self.depth >= 1,
        ensures
            r.wf(),
            !r.spec_done(),
            r.spec_target() == spec_find_best(
                state@,
                self.ai_type,
                self.depth as nat,
                spec_rng_seed(seed),
            ).0,
    {
        Evaluator::new(state, self.ai_type, self.depth, seed)
    }
}

} // verus!
