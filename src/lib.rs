//! Rules engine for a hex-grid settlement and trading board game: coordinates, the
//! board, the players' ledgers and the turn and phase state machine.
use vstd::prelude::*;

pub mod actions;
pub mod board;
pub mod game;
pub mod hex;
pub mod player;
pub mod random;

pub use actions::{GameAction, GameEvent, TradeOffer};
pub use board::{Board, EdgeBuilding, Harbor, PlayerId, Resource, Tile, TileType, VertexBuilding};
pub use game::{GameError, GamePhase, GameState, SetupPlacing};
pub use hex::{EdgeCoord, EdgeDirection, HexCoord, VertexCoord, VertexDirection};
pub use player::{DevelopmentCard, Player, PlayerColor, ResourceHand};

verus! {

} // verus!
