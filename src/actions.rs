//! The closed vocabulary of player actions and of the events they produce.
use crate::board::{PlayerId, Resource};
use crate::hex::{EdgeCoord, HexCoord, VertexCoord};
use crate::player::ResourceHand;
use vstd::prelude::*;

verus! {

/// Everything a player can ask the engine to do.
#[derive(Debug, Clone, Copy, PartialEq, Eq, Structural)]
pub enum GameAction {
    PlaceInitialSettlement(VertexCoord),
    PlaceInitialRoad(EdgeCoord),
    RollDice,
    MoveRobber(HexCoord),
    StealFrom(PlayerId),
    DiscardCards(ResourceHand),
    BuildRoad(EdgeCoord),
    BuildSettlement(VertexCoord),
    BuildCity(VertexCoord),
    BuyDevelopmentCard,
    PlayKnight,
    PlayRoadBuilding(EdgeCoord, EdgeCoord),
    PlayYearOfPlenty(Resource, Resource),
    PlayMonopoly(Resource),
    ProposeTrade(TradeOffer),
    AcceptTrade,
    RejectTrade,
    CounterTrade(TradeOffer),
    CancelTrade,
    MaritimeTrade { give: Resource, give_count: u32, receive: Resource },
    EndTurn,
}

/// An offer between players: `from` gives `offering` for `requesting`, to one player
/// or, with `to` empty, to anyone.
#[derive(Debug, Clone, Copy, PartialEq, Eq, Structural)]
pub struct TradeOffer {
    pub from: PlayerId,
    pub to: Option<PlayerId>,
    pub offering: ResourceHand,
    pub requesting: ResourceHand,
}

impl TradeOffer {
    pub fn new(
        from: PlayerId,
        to: Option<PlayerId>,
        offering: ResourceHand,
        requesting: ResourceHand,
    ) -> (t: TradeOffer)
        ensures
            t == (TradeOffer { from, to, offering, requesting }),
    {
        TradeOffer { from, to, offering, requesting }
    }

    /// Both sides of the offer hold something.
    pub open spec fn valid_spec(self) -> bool {
        self.offering.total_spec() != 0 && self.requesting.total_spec() != 0
    }

    pub fn is_valid(&self) -> (b: bool)
        ensures
            b == self.valid_spec(),
    {
        !hand_is_empty(&self.offering) && !hand_is_empty(&self.requesting)
    }
}

/// The hand holds no card (without adding the counts up).
pub fn hand_is_empty(h: &ResourceHand) -> (b: bool)
    ensures
        b == (h.total_spec() == 0),
{
    h.brick == 0 && h.lumber == 0 && h.ore == 0 && h.grain == 0 && h.wool == 0
}

/// What happened as the result of an action.
#[derive(Debug, PartialEq, Eq)]
#[allow(inconsistent_fields)]
pub enum GameEvent {
    DiceRolled { player: PlayerId, roll: (u8, u8), total: u8 },
    ResourcesDistributed { distributions: Vec<(PlayerId, Resource, u32)> },
    SettlementBuilt { player: PlayerId, location: VertexCoord },
    CityBuilt { player: PlayerId, location: VertexCoord },
    RoadBuilt { player: PlayerId, location: EdgeCoord },
    DevelopmentCardPurchased { player: PlayerId },
    KnightPlayed { player: PlayerId },
    RoadBuildingPlayed { player: PlayerId },
    YearOfPlentyPlayed { player: PlayerId, resources: (Resource, Resource) },
    MonopolyPlayed { player: PlayerId, resource: Resource, total_stolen: u32 },
    RobberMoved { player: PlayerId, from: HexCoord, to: HexCoord },
    ResourceStolen { thief: PlayerId, victim: PlayerId, resource: Option<Resource> },
    CardsDiscarded { player: PlayerId, count: u32 },
    TradeProposed { offer: TradeOffer },
    TradeCompleted { player1: PlayerId, player2: PlayerId },
    TradeCancelled,
    MaritimeTradeCompleted { player: PlayerId, gave: Resource, gave_count: u32, received: Resource },
    LongestRoadChanged { previous: Option<PlayerId>, current: Option<PlayerId>, length: u32 },
    LargestArmyChanged { previous: Option<PlayerId>, current: Option<PlayerId>, knights: u32 },
    TurnEnded { player: PlayerId, next_player: PlayerId },
    GameWon { player: PlayerId, victory_points: u32 },
}

} // verus!
