//! Tests of the rule engine: placement, chained pushing, capture,
//! scoring, cooldowns and the legality checks.
use lane_logic::CardType;
use lane_logic::Direction;
use lane_logic::HeldCard;
use lane_logic::HeldCardIndex;
use lane_logic::Move;
use lane_logic::PickCardMove;
use lane_logic::PlaceCardMove;
use lane_logic::Player;
use lane_logic::Position;
use lane_logic::PushCardMove;
use lane_logic::State;

fn pos(x: i32, y: i32) -> Position {
    Position { x, y }
}

fn place(x: i32, y: i32, direction: Direction, idx: usize) -> Move {
    Move::PlaceCard(PlaceCardMove {
        direction,
        coordinate: pos(x, y),
        card: HeldCardIndex(idx),
    })
}

fn setup(
    turn: Player,
    anchors: ((i32, i32), (i32, i32)),
    cards: Vec<(Player, CardType, (i32, i32))>,
    hand_a: Vec<HeldCard>,
    hand_b: Vec<HeldCard>,
) -> State {
    let cards: Vec<(Player, CardType, Position)> =
        cards.into_iter().map(|(p, t, (x, y))| (p, t, pos(x, y))).collect();
    State::from_setup(
        turn,
        pos(anchors.0 .0, anchors.0 .1),
        pos(anchors.1 .0, anchors.1 .1),
        &cards,
        hand_a,
        hand_b,
    )
    .expect("setup must be valid")
}

#[test]
fn fresh_board_holds_the_two_anchors() {
    let state = State::new(vec![], vec![], Player::A);
    let board = state.board_state();
    assert_eq!(board.len(), 2);
    let a0 = state.card_at_position(pos(0, 0)).expect("anchor at origin");
    let a1 = state.card_at_position(pos(1, 0)).expect("anchor beside it");
    assert_eq!(a0.1.belonging_player, None);
    assert_eq!(a1.1.belonging_player, None);
    assert_eq!(a0.1.card.to_type(), CardType::Score);
    assert_eq!(a1.1.card.to_type(), CardType::Score);
    assert!(state.card_at_position(pos(2, 0)).is_none());
}

#[test]
fn placement_on_an_occupied_cell_is_rejected() {
    // The cell east of (-1, 0) is (0, 0), which an anchor obstructs:
    // legality must reject this exact placement.
    let state = State::new(vec![HeldCard::Available(CardType::Normal)], vec![], Player::A);
    let m = place(0, 0, Direction::East, 0);
    assert!(!state.can_execute_move(&m));
}

#[test]
fn placement_beside_the_anchors_stays_put() {
    // Placing at (-1, 0) pushing east would have to chain through both
    // anchors; on a three-card board the push depth cap declares that
    // chain an empty move, so the new card is placed with no chain
    // movement and everything stays where it was.
    let mut state = State::new(vec![HeldCard::Available(CardType::Normal)], vec![], Player::A);
    let m = place(-1, 0, Direction::East, 0);
    assert!(state.can_execute_move(&m));
    let result = state.execute_move(&m);
    assert_eq!(result.placed.len(), 1);
    assert_eq!(result.moved.len(), 0);
    let placed = state.card_at_position(pos(-1, 0)).expect("placed card");
    assert_eq!(placed.1.belonging_player, Some(Player::A));
    assert_eq!(placed.1.card.to_type(), CardType::Normal);
    assert!(state.card_at_position(pos(0, 0)).is_some());
    assert!(state.card_at_position(pos(1, 0)).is_some());
    // the new card touches one anchor: one point for the placer
    assert_eq!(result.score.player(Player::A), 1);
    assert_eq!(result.score.player(Player::B), 0);
    assert_eq!(result.winner, None);
    assert_eq!(state.turn(), Player::B);
    // the hand card was consumed
    assert!(state.player_hand(Player::A).is_empty());
}

#[test]
fn placement_pushes_a_short_lane() {
    // With a single card ahead and room beyond, the entry push resolves:
    // the pushed card steps on and the new card steps into its cell.
    let mut state = setup(
        Player::A,
        ((0, 10), (1, 10)),
        vec![(Player::B, CardType::Normal, (3, 0))],
        vec![HeldCard::Available(CardType::Normal)],
        vec![],
    );
    let m = place(2, 0, Direction::East, 0);
    assert!(state.can_execute_move(&m));
    let result = state.execute_move(&m);
    assert_eq!(result.placed.len(), 1);
    assert_eq!(result.moved.len(), 2);
    let a = state.card_at_position(pos(3, 0)).expect("new card stepped in");
    assert_eq!(a.1.belonging_player, Some(Player::A));
    let b = state.card_at_position(pos(4, 0)).expect("pushed card");
    assert_eq!(b.1.belonging_player, Some(Player::B));
    assert!(state.card_at_position(pos(2, 0)).is_none());
}

#[test]
fn placement_needs_a_clear_lane_behind() {
    // A card behind the destination, against the push direction, blocks it.
    let state = setup(
        Player::A,
        ((0, 10), (1, 10)),
        vec![(Player::B, CardType::Normal, (3, 0)), (Player::A, CardType::Normal, (5, 0))],
        vec![HeldCard::Available(CardType::Normal)],
        vec![],
    );
    // placing at (4, 0) pushing west: (5, 0) lies behind and blocks
    assert!(!state.can_execute_move(&place(4, 0, Direction::West, 0)));
    // pushing east instead: behind is west of (4, 0), where (3, 0) blocks
    assert!(!state.can_execute_move(&place(4, 0, Direction::East, 0)));
}

#[test]
fn placement_must_have_something_to_push() {
    let state = setup(
        Player::A,
        ((0, 10), (1, 10)),
        vec![(Player::B, CardType::Normal, (3, 0))],
        vec![HeldCard::Available(CardType::Normal)],
        vec![],
    );
    // nothing ahead of (5, 0) toward the east
    assert!(!state.can_execute_move(&place(5, 0, Direction::East, 0)));
    // but west of (4, 0) there is a card to push
    assert!(state.can_execute_move(&place(4, 0, Direction::West, 0)));
}

#[test]
fn a_waiting_card_cannot_be_played() {
    let state = State::new(
        vec![HeldCard::Waiting { card: CardType::Normal, turns_until_usable: 2 }],
        vec![],
        Player::A,
    );
    assert!(!state.can_execute_move(&place(-1, 0, Direction::East, 0)));
}

#[test]
fn an_out_of_range_hand_slot_is_rejected() {
    let state = State::new(vec![HeldCard::Available(CardType::Normal)], vec![], Player::A);
    assert!(!state.can_execute_move(&place(-1, 0, Direction::East, 5)));
}

#[test]
fn push_moves_both_cards_one_cell() {
    // A lone own card with an opponent ahead and an empty cell beyond:
    // pushing moves both, one cell each.
    let mut state = setup(
        Player::A,
        ((0, 10), (1, 10)),
        vec![(Player::A, CardType::Normal, (2, 0)), (Player::B, CardType::Normal, (3, 0))],
        vec![],
        vec![],
    );
    let (idx, _) = state.card_at_position(pos(2, 0)).expect("own card");
    let m = Move::PushCard(PushCardMove { place: idx, direction: Direction::East });
    assert!(state.can_execute_move(&m));
    let result = state.execute_move(&m);
    assert_eq!(result.moved.len(), 2);
    let a = state.card_at_position(pos(3, 0)).expect("pusher stepped in");
    assert_eq!(a.1.belonging_player, Some(Player::A));
    let b = state.card_at_position(pos(4, 0)).expect("pushed card moved on");
    assert_eq!(b.1.belonging_player, Some(Player::B));
    assert!(state.card_at_position(pos(2, 0)).is_none());
}

#[test]
fn pushing_an_opponent_card_is_rejected() {
    let state = setup(
        Player::A,
        ((0, 10), (1, 10)),
        vec![(Player::B, CardType::Normal, (3, 0))],
        vec![],
        vec![],
    );
    let (idx, _) = state.card_at_position(pos(3, 0)).expect("their card");
    let m = Move::PushCard(PushCardMove { place: idx, direction: Direction::East });
    assert!(!state.can_execute_move(&m));
}

#[test]
fn a_block_card_never_budges() {
    let mut state = setup(
        Player::A,
        ((0, 10), (1, 10)),
        vec![(Player::A, CardType::Block, (2, 0)), (Player::A, CardType::Normal, (4, 4))],
        vec![],
        vec![],
    );
    let (idx, _) = state.card_at_position(pos(2, 0)).expect("block");
    for d in [Direction::North, Direction::East, Direction::South, Direction::West] {
        let m = Move::PushCard(PushCardMove { place: idx, direction: d });
        assert!(!state.can_execute_move(&m));
    }
    // an unrelated move leaves the block exactly where it was
    let (other, _) = state.card_at_position(pos(4, 4)).expect("other card");
    let result =
        state.execute_move(&Move::PushCard(PushCardMove { place: other, direction: Direction::North }));
    assert_eq!(result.moved.len(), 1);
    assert!(state.card_at_position(pos(2, 0)).is_some());
}

#[test]
fn a_chain_into_a_block_moves_nothing() {
    let state = setup(
        Player::A,
        ((0, 10), (1, 10)),
        vec![(Player::A, CardType::Normal, (2, 0)), (Player::B, CardType::Block, (3, 0))],
        vec![],
        vec![],
    );
    let (idx, _) = state.card_at_position(pos(2, 0)).expect("own card");
    let m = Move::PushCard(PushCardMove { place: idx, direction: Direction::East });
    assert!(!state.can_execute_move(&m));
}

#[test]
fn ghost_skips_the_occupied_run_and_moves_alone() {
    let mut state = setup(
        Player::A,
        ((0, 10), (1, 10)),
        vec![
            (Player::A, CardType::GhostCard, (2, 0)),
            (Player::B, CardType::Normal, (3, 0)),
            (Player::B, CardType::Normal, (4, 0)),
        ],
        vec![],
        vec![],
    );
    let (idx, _) = state.card_at_position(pos(2, 0)).expect("ghost");
    let m = Move::PushCard(PushCardMove { place: idx, direction: Direction::East });
    assert!(state.can_execute_move(&m));
    let result = state.execute_move(&m);
    // exactly one card reported moved, however long the skipped run
    assert_eq!(result.moved.len(), 1);
    assert_eq!(result.moved[0].0, idx);
    let ghost = state.card_at_position(pos(5, 0)).expect("first empty cell");
    assert_eq!(ghost.1.card.to_type(), CardType::GhostCard);
    // the skipped cards did not move
    assert!(state.card_at_position(pos(3, 0)).is_some());
    assert!(state.card_at_position(pos(4, 0)).is_some());
}

#[test]
fn reverse_card_pushes_the_other_way() {
    let mut state = setup(
        Player::A,
        ((0, 10), (1, 10)),
        vec![(Player::A, CardType::Reverse, (2, 0)), (Player::B, CardType::Normal, (1, 0))],
        vec![],
        vec![],
    );
    let (idx, _) = state.card_at_position(pos(2, 0)).expect("reverse");
    let m = Move::PushCard(PushCardMove { place: idx, direction: Direction::East });
    assert!(state.can_execute_move(&m));
    state.execute_move(&m);
    // pushed east, it actually chained west
    assert!(state.card_at_position(pos(0, 0)).is_some());
    let r = state.card_at_position(pos(1, 0)).expect("reverse stepped west");
    assert_eq!(r.1.card.to_type(), CardType::Reverse);
    assert!(state.card_at_position(pos(2, 0)).is_none());
}

#[test]
fn double_card_steps_twice() {
    let mut state = setup(
        Player::A,
        ((0, 10), (1, 10)),
        vec![(Player::A, CardType::Double, (2, 0)), (Player::B, CardType::Normal, (3, 0))],
        vec![],
        vec![],
    );
    let (idx, _) = state.card_at_position(pos(2, 0)).expect("double");
    let m = Move::PushCard(PushCardMove { place: idx, direction: Direction::East });
    assert!(state.can_execute_move(&m));
    state.execute_move(&m);
    // the double issued the chain push twice: two cells for each card
    let d = state.card_at_position(pos(4, 0)).expect("double two cells on");
    assert_eq!(d.1.card.to_type(), CardType::Double);
    let b = state.card_at_position(pos(5, 0)).expect("pushed card two cells on");
    assert_eq!(b.1.belonging_player, Some(Player::B));
    assert!(state.card_at_position(pos(2, 0)).is_none());
}

#[test]
fn capture_needs_both_sides_of_one_axis() {
    // flanked north and south: captured, whatever stands east or west
    let mut state = setup(
        Player::B,
        ((20, 20), (21, 20)),
        vec![
            (Player::A, CardType::Normal, (0, -1)),
            (Player::A, CardType::Normal, (0, 1)),
            (Player::A, CardType::Normal, (1, 0)),
            (Player::B, CardType::Normal, (0, 0)),
            (Player::B, CardType::Normal, (9, 9)),
        ],
        vec![],
        vec![],
    );
    let (far, _) = state.card_at_position(pos(9, 9)).expect("far card");
    let result = state.execute_move(&Move::PickCard(PickCardMove { card: far }));
    // the removal list holds the captured card and the picked card
    assert_eq!(result.removed.len(), 2);
    assert!(state.card_at_position(pos(0, 0)).is_none());
    assert!(state.card_at_position(pos(0, -1)).is_some());
    assert!(state.card_at_position(pos(0, 1)).is_some());
}

#[test]
fn one_flank_per_axis_never_captures() {
    let mut state = setup(
        Player::B,
        ((20, 20), (21, 20)),
        vec![
            (Player::A, CardType::Normal, (0, -1)),
            (Player::A, CardType::Normal, (1, 0)),
            (Player::B, CardType::Normal, (0, 0)),
            (Player::B, CardType::Normal, (9, 9)),
        ],
        vec![],
        vec![],
    );
    let (far, _) = state.card_at_position(pos(9, 9)).expect("far card");
    let result = state.execute_move(&Move::PickCard(PickCardMove { card: far }));
    assert_eq!(result.removed.len(), 1);
    assert!(state.card_at_position(pos(0, 0)).is_some());
}

#[test]
fn captured_card_waits_one_turn_then_returns() {
    // B places between two enemy cards; a block ahead keeps the placed
    // card on its cell, and it is captured at once.
    let mut state = setup(
        Player::B,
        ((20, 20), (21, 20)),
        vec![
            (Player::A, CardType::Normal, (0, -1)),
            (Player::A, CardType::Normal, (0, 1)),
            (Player::A, CardType::Block, (1, 0)),
        ],
        vec![],
        vec![HeldCard::Available(CardType::Normal)],
    );
    let m = place(0, 0, Direction::East, 0);
    assert!(state.can_execute_move(&m));
    let result = state.execute_move(&m);
    assert_eq!(result.removed.len(), 1);
    assert!(state.card_at_position(pos(0, 0)).is_none());
    assert_eq!(
        state.player_hand(Player::B).as_slice(),
        &[HeldCard::Waiting { card: CardType::Normal, turns_until_usable: 1 }],
    );
    // after the other player's next move the card is available again
    let (blk, _) = state.card_at_position(pos(1, 0)).expect("block");
    state.execute_move(&Move::PickCard(PickCardMove { card: blk }));
    assert_eq!(
        state.player_hand(Player::B).as_slice(),
        &[HeldCard::Available(CardType::Normal)],
    );
}

#[test]
fn picking_returns_the_card_with_a_cooldown() {
    let mut state = setup(
        Player::A,
        ((0, 10), (1, 10)),
        vec![(Player::A, CardType::GhostCard, (2, 0))],
        vec![],
        vec![],
    );
    let (idx, _) = state.card_at_position(pos(2, 0)).expect("own card");
    let m = Move::PickCard(PickCardMove { card: idx });
    assert!(state.can_execute_move(&m));
    let result = state.execute_move(&m);
    assert_eq!(result.removed.len(), 1);
    assert!(state.card_at_position(pos(2, 0)).is_none());
    assert_eq!(
        state.player_hand(Player::A).as_slice(),
        &[HeldCard::Waiting { card: CardType::GhostCard, turns_until_usable: 1 }],
    );
    // the handle went stale with the removal
    assert!(!state.can_execute_move(&Move::PickCard(PickCardMove { card: idx })));
    assert!(state.card(idx).is_none());
}

#[test]
fn anchors_cannot_be_picked_or_captured() {
    let state = State::new(vec![], vec![], Player::A);
    let (anchor, _) = state.card_at_position(pos(0, 0)).expect("anchor");
    assert!(!state.can_execute_move(&Move::PickCard(PickCardMove { card: anchor })));
}

#[test]
fn every_enumerated_move_is_legal() {
    let state = setup(
        Player::A,
        ((0, 0), (1, 0)),
        vec![
            (Player::A, CardType::Normal, (0, 1)),
            (Player::A, CardType::Redirect, (2, 0)),
            (Player::B, CardType::Normal, (0, -1)),
        ],
        vec![HeldCard::Available(CardType::Double), HeldCard::Available(CardType::GhostCard)],
        vec![HeldCard::Available(CardType::Normal)],
    );
    let moves = state.enumerate_possible_moves();
    assert!(!moves.is_empty());
    for m in &moves {
        assert!(state.can_execute_move(m));
    }
}

#[test]
fn scoring_counts_each_anchor_neighbour_separately() {
    let state = setup(
        Player::A,
        ((0, 0), (2, 0)),
        vec![
            // between the two anchors: one point per anchor, so two
            (Player::A, CardType::Normal, (1, 0)),
            (Player::B, CardType::Normal, (0, 1)),
            (Player::B, CardType::Normal, (9, 9)),
        ],
        vec![],
        vec![],
    );
    let score = state.scores();
    assert_eq!(score.player(Player::A), 2);
    assert_eq!(score.player(Player::B), 1);
}

#[test]
fn reaching_four_points_wins() {
    let mut state = setup(
        Player::A,
        ((0, 0), (1, 0)),
        vec![
            (Player::A, CardType::Normal, (0, -1)),
            (Player::A, CardType::Normal, (0, 1)),
            (Player::A, CardType::Normal, (1, 1)),
            (Player::B, CardType::Normal, (9, 9)),
        ],
        vec![HeldCard::Available(CardType::Normal)],
        vec![],
    );
    assert_eq!(state.scores().player(Player::A), 3);
    // placing at (1, -1) pushing south lands the new card on (1, 0),
    // beside both anchors, and lifts the score past four
    let m = place(1, -1, Direction::South, 0);
    assert!(state.can_execute_move(&m));
    let result = state.execute_move(&m);
    assert_eq!(result.winner, Some(Player::A));
    assert!(result.score.player(Player::A) >= 4);
}

#[test]
fn from_setup_rejects_bad_layouts() {
    // coinciding anchors
    assert!(State::from_setup(Player::A, pos(0, 0), pos(0, 0), &vec![], vec![], vec![]).is_none());
    // an anchor among the cards
    assert!(State::from_setup(
        Player::A,
        pos(0, 0),
        pos(1, 0),
        &vec![(Player::A, CardType::Score, pos(5, 5))],
        vec![],
        vec![],
    )
    .is_none());
    // a doubly-used cell
    assert!(State::from_setup(
        Player::A,
        pos(0, 0),
        pos(1, 0),
        &vec![(Player::A, CardType::Normal, pos(0, 0))],
        vec![],
        vec![],
    )
    .is_none());
    // a hand with an exhausted cooldown
    assert!(State::from_setup(
        Player::A,
        pos(0, 0),
        pos(1, 0),
        &vec![],
        vec![HeldCard::Waiting { card: CardType::Normal, turns_until_usable: 0 }],
        vec![],
    )
    .is_none());
}

#[test]
fn directions_turn_and_invert() {
    assert_eq!(Direction::North.clockwise(), Direction::East);
    assert_eq!(Direction::East.clockwise(), Direction::South);
    assert_eq!(Direction::South.clockwise(), Direction::West);
    assert_eq!(Direction::West.clockwise(), Direction::North);
    assert_eq!(Direction::North.anticlockwise(), Direction::West);
    assert_eq!(Direction::East.anticlockwise(), Direction::North);
    assert_eq!(Direction::North.opposite(), Direction::South);
    assert_eq!(Direction::East.opposite(), Direction::West);
    assert_eq!(Direction::North.to_unit_vector(), (0, -1));
    assert_eq!(Direction::from_vector((1, 0)), Some(Direction::East));
    assert_eq!(Direction::from_vector((1, 1)), None);
    let p = pos(3, 4);
    assert_eq!(p.step(Direction::South), Some(pos(3, 5)));
    assert_eq!(pos(i32::MAX, 0).step(Direction::East), None);
}

#[test]
fn redirect_fans_the_push_three_ways() {
    let mut state = setup(
        Player::A,
        ((0, 10), (1, 10)),
        vec![
            (Player::A, CardType::Redirect, (2, 0)),
            (Player::B, CardType::Normal, (3, 0)),
            (Player::B, CardType::Normal, (2, -1)),
        ],
        vec![],
        vec![],
    );
    let (idx, _) = state.card_at_position(pos(2, 0)).expect("redirect");
    let m = Move::PushCard(PushCardMove { place: idx, direction: Direction::East });
    assert!(state.can_execute_move(&m));
    let result = state.execute_move(&m);
    // the forward arm, the perpendicular arm, and the redirect itself
    assert_eq!(result.moved.len(), 3);
    assert!(state.card_at_position(pos(4, 0)).is_some());
    assert!(state.card_at_position(pos(2, -2)).is_some());
    let r = state.card_at_position(pos(3, 0)).expect("redirect stepped forward");
    assert_eq!(r.1.card.to_type(), CardType::Redirect);
}

#[test]
fn lookups_mirror_the_board_through_a_whole_sequence() {
    // a mixed sequence of placements, pushes, captures and picks; after
    // every move, position lookups and the board listing agree exactly
    let mut state = setup(
        Player::A,
        ((0, 0), (1, 0)),
        vec![
            (Player::A, CardType::Normal, (0, 1)),
            (Player::B, CardType::Normal, (0, -1)),
        ],
        vec![HeldCard::Available(CardType::Normal), HeldCard::Available(CardType::GhostCard)],
        vec![HeldCard::Available(CardType::Block)],
    );
    for _ in 0..8 {
        let moves = state.enumerate_possible_moves();
        let Some(m) = moves.first() else { break };
        assert!(state.can_execute_move(m));
        state.execute_move(m);
        let listing = state.board_state();
        for (idx, card) in &listing {
            let (found_idx, found) =
                state.card_at_position(card.position).expect("every listed card is found");
            assert_eq!(found_idx, *idx);
            assert_eq!(found.position, card.position);
            assert_eq!(found.belonging_player, card.belonging_player);
        }
        // and no two listed cards share a cell
        for (i, (_, a)) in listing.iter().enumerate() {
            for (_, b) in listing.iter().skip(i + 1) {
                assert!(a.position != b.position);
            }
        }
    }
}

#[test]
fn a_ghost_is_never_blocked_even_by_a_block() {
    // the cell ahead holds a block whose own chain cannot move; the ghost
    // is still pushable and teleports past it
    let mut state = setup(
        Player::A,
        ((0, 10), (1, 10)),
        vec![(Player::A, CardType::GhostCard, (2, 0)), (Player::B, CardType::Block, (3, 0))],
        vec![],
        vec![],
    );
    let (idx, _) = state.card_at_position(pos(2, 0)).expect("ghost");
    let m = Move::PushCard(PushCardMove { place: idx, direction: Direction::East });
    assert!(state.can_execute_move(&m));
    let result = state.execute_move(&m);
    assert_eq!(result.moved.len(), 1);
    let ghost = state.card_at_position(pos(4, 0)).expect("past the block");
    assert_eq!(ghost.1.card.to_type(), CardType::GhostCard);
    assert!(state.card_at_position(pos(3, 0)).is_some());
}
