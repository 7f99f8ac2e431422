//! Tests of the search engine and the cooperative step scheduler.
use lane_logic::AIControl;
use lane_logic::AiControlType;
use lane_logic::CardType;
use lane_logic::HeldCard;
use lane_logic::Player;
use lane_logic::Position;
use lane_logic::Rng;
use lane_logic::State;
use lane_logic::search::calculate_state_score;
use lane_logic::search::find_best_move;
use lane_logic::search::randomise_list;

fn pos(x: i32, y: i32) -> Position {
    Position { x, y }
}

fn winning_position() -> State {
    State::from_setup(
        Player::A,
        pos(0, 0),
        pos(1, 0),
        &vec![
            (Player::A, CardType::Normal, pos(0, -1)),
            (Player::A, CardType::Normal, pos(0, 1)),
            (Player::A, CardType::Normal, pos(1, 1)),
            (Player::B, CardType::Normal, pos(9, 9)),
        ],
        vec![HeldCard::Available(CardType::Normal)],
        vec![],
    )
    .expect("valid setup")
}

#[test]
fn leaf_heuristic_has_the_documented_value() {
    let mut state = State::new(vec![HeldCard::Available(CardType::Normal)], vec![], Player::A);
    let m = lane_logic::Move::PlaceCard(lane_logic::PlaceCardMove {
        direction: lane_logic::Direction::East,
        coordinate: pos(-1, 0),
        card: lane_logic::HeldCardIndex(0),
    });
    let result = state.execute_move(&m);
    // one point for the placer, none for the opponent, no winner:
    // 1 squared minus 0 cubed
    assert_eq!(result.score.player(Player::A), 1);
    assert_eq!(calculate_state_score(&result, &state, Player::A), 1);
    assert_eq!(calculate_state_score(&result, &state, Player::B), -1);
}

#[test]
fn best_play_finds_the_winning_move() {
    let state = winning_position();
    let mut rng = Rng::new(7);
    let chosen = find_best_move(&state, AiControlType::Best, 1, &mut rng).expect("a move exists");
    let mut replay = state.duplicate();
    assert!(replay.can_execute_move(&chosen));
    let result = replay.execute_move(&chosen);
    assert_eq!(result.winner, Some(Player::A));
}

#[test]
fn search_is_reproducible_for_a_seed() {
    let state = winning_position();
    let mut rng1 = Rng::new(12345);
    let mut rng2 = Rng::new(12345);
    let m1 = find_best_move(&state, AiControlType::WithRandom(50), 2, &mut rng1);
    let m2 = find_best_move(&state, AiControlType::WithRandom(50), 2, &mut rng2);
    assert_eq!(m1, m2);
}

#[test]
fn scheduler_in_small_steps_matches_the_one_shot_search() {
    let state = winning_position();
    let control = AIControl { depth: 2, ai_type: AiControlType::WithRandom(4) };
    let mut finder = control.move_finder(state.duplicate(), 99);
    assert!(finder.result().is_none());
    let mut steps = 0usize;
    let stepped = loop {
        match finder.do_work() {
            Some(answer) => break answer,
            None => {
                steps += 1;
                assert!(steps < 1_000_000, "the search must terminate");
            }
        }
    };
    // a finished task keeps returning the cached answer
    assert_eq!(finder.result(), Some(stepped));
    assert_eq!(finder.do_work(), Some(stepped));
    let mut rng = Rng::new(99);
    let one_shot = find_best_move(&state, AiControlType::WithRandom(4), 2, &mut rng);
    assert_eq!(stepped, one_shot);
}

#[test]
fn search_on_a_finished_hand_reports_no_move() {
    // the mover has nothing on the board and nothing available to play
    let state = State::from_setup(
        Player::B,
        pos(0, 0),
        pos(1, 0),
        &vec![(Player::A, CardType::Normal, pos(0, 1))],
        vec![],
        vec![HeldCard::Waiting { card: CardType::Normal, turns_until_usable: 3 }],
    )
    .expect("valid setup");
    assert!(state.enumerate_possible_moves().is_empty());
    let mut rng = Rng::new(1);
    assert_eq!(find_best_move(&state, AiControlType::Best, 2, &mut rng), None);
}

#[test]
fn shuffling_keeps_exactly_the_same_moves() {
    let state = winning_position();
    let moves = state.enumerate_possible_moves();
    let mut shuffled = moves.clone();
    let mut rng = Rng::new(4242);
    randomise_list(&mut shuffled, &mut rng);
    assert_eq!(shuffled.len(), moves.len());
    for m in &moves {
        assert!(shuffled.contains(m));
    }
}

#[test]
fn the_inverted_heuristic_still_moves_legally() {
    let state = winning_position();
    let mut rng = Rng::new(3);
    let chosen =
        find_best_move(&state, AiControlType::Negative, 2, &mut rng).expect("a move exists");
    assert!(state.can_execute_move(&chosen));
}

#[test]
fn a_move_is_chosen_whenever_one_exists() {
    // the only legal move is picking the lone card back up; the search
    // must choose it rather than report no move
    let state = State::from_setup(
        Player::B,
        pos(20, 20),
        pos(21, 20),
        &vec![(Player::B, CardType::Normal, pos(5, 5))],
        vec![],
        vec![],
    )
    .expect("valid setup");
    let moves = state.enumerate_possible_moves();
    assert_eq!(moves.len(), 1);
    let mut rng = Rng::new(8);
    let chosen = find_best_move(&state, AiControlType::Best, 3, &mut rng);
    assert_eq!(chosen, Some(moves[0]));
}
