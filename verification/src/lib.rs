//! A two-player abstract card game on an unbounded integer grid, together
//! with an opponent that picks moves by depth-limited alpha-beta search.
//!
//! The crate has two halves:
//! - the rule engine: card placement, chained pushing, capture resolution and
//!   scoring on the grid (`board`, `card`, `state`);
//! - the search engine: legal-move enumeration and alpha-beta minimax, plus a
//!   cooperative step scheduler that advances the search a small slice at a
//!   time so a host frame loop is never blocked (`search`, `evaluator`).
//!
//! Every executable function carries a contract; the board's position index,
//! the push mechanics, the legality of enumerated moves and the equivalence of
//! the pruned search with plain minimax are proved, not tested.
use vstd::prelude::*;

pub mod board;
pub mod card;
pub mod evaluator;
pub mod laws;
pub mod moved;
pub mod search;
pub mod state;
pub mod types;

pub use board::Board;
pub use board::Index;
pub use board::PlacedCard;
pub use board::Slot;
pub use card::CardData;
pub use card::CardType;
pub use card::Block;
pub use card::Double;
pub use card::GhostCard;
pub use card::Normal;
pub use card::Redirect;
pub use card::Reverse;
pub use moved::MovedSet;
pub use evaluator::Evaluator;
pub use search::AIControl;
pub use search::AiControlType;
pub use search::ControlMode;
pub use search::Rng;
pub use state::HeldCard;
pub use state::HeldCardIndex;
pub use state::Move;
pub use state::MoveResult;
pub use state::PickCardMove;
pub use state::PlaceCardMove;
pub use state::PushCardMove;
pub use state::Score;
pub use state::State;
pub use types::Direction;
pub use types::Player;
pub use types::Position;

verus! {

} // verus!
