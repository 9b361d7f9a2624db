//! The game state machine: phases, validation of actions, and their effects.
use crate::actions::{GameAction, GameEvent, TradeOffer};
use crate::board::{
    building_points, contains_player, Board, EdgeBuilding, Harbor, PlayerId, Resource, TileType,
    VertexBuilding,
};
use crate::hex::{lemma_canonical_edge_idempotent, vertex_edges_spec, EdgeCoord, VertexCoord};
use crate::player::{
    city_cost, dev_card_cost, road_cost, settlement_cost, DevelopmentCard, Player, ResourceHand,
};
use crate::random::random_below;
use vstd::prelude::*;

verus! {

/// Roads needed before the Longest Road award is given.
pub const MIN_LONGEST_ROAD: u32 = 5;

/// Knights needed before the Largest Army award is given.
pub const MIN_LARGEST_ARMY: u32 = 3;

/// Points that end the game.
pub const VICTORY_POINTS_TO_WIN: u32 = 10;

/// What is placed next during setup.
#[derive(Debug, Clone, Copy, PartialEq, Eq, Structural)]
pub enum SetupPlacing {
    Settlement,
    Road,
}

/// The phase of the game, with what the phase needs to remember.
#[derive(Debug, Clone, PartialEq, Eq)]
pub enum GamePhase {
    Setup { round: u8, placing: SetupPlacing },
    PreRoll,
    RobberMoveRequired,
    RobberSteal { target_hex: crate::hex::HexCoord, victims: Vec<PlayerId> },
    DiscardRequired { players_remaining: Vec<PlayerId> },
    MainPhase,
    RoadBuildingInProgress { roads_remaining: u8 },
    Finished { winner: PlayerId },
}

/// Why an action was rejected.
#[derive(Debug, Clone, Copy, PartialEq, Eq, Structural)]
pub enum GameError {
    NotYourTurn,
    InvalidPhase,
    InvalidLocation,
    CannotAfford,
    NoPiecesRemaining,
    EmptyDeck,
    NoSuchCard,
    InvalidTrade,
    NoActiveTrade,
    InvalidDiscard,
    GameOver,
}

impl GameError {
    /// A short description for players.
    pub fn message(&self) -> (s: &'static str)
        ensures
            *self == GameError::NotYourTurn ==> s@ == "Not your turn"@,
            *self == GameError::InvalidPhase ==> s@ == "Invalid action for current phase"@,
            *self == GameError::InvalidLocation ==> s@ == "Invalid placement location"@,
            *self == GameError::CannotAfford ==> s@ == "Cannot afford this"@,
            *self == GameError::NoPiecesRemaining ==> s@ == "No pieces remaining"@,
            *self == GameError::EmptyDeck ==> s@ == "No development cards left in deck"@,
            *self == GameError::NoSuchCard ==> s@ == "Don't have that card"@,
            *self == GameError::InvalidTrade ==> s@ == "Invalid trade"@,
            *self == GameError::NoActiveTrade ==> s@ == "No active trade"@,
            *self == GameError::InvalidDiscard ==> s@ == "Invalid discard"@,
            *self == GameError::GameOver ==> s@ == "Game is over"@,
    {
        match self {
            GameError::NotYourTurn => "Not your turn",
            GameError::InvalidPhase => "Invalid action for current phase",
            GameError::InvalidLocation => "Invalid placement location",
            GameError::CannotAfford => "Cannot afford this",
            GameError::NoPiecesRemaining => "No pieces remaining",
            GameError::EmptyDeck => "No development cards left in deck",
            GameError::NoSuchCard => "Don't have that card",
            GameError::InvalidTrade => "Invalid trade",
            GameError::NoActiveTrade => "No active trade",
            GameError::InvalidDiscard => "Invalid discard",
            GameError::GameOver => "Game is over",
        }
    }
}

/// A player's answer to the pending offer.
#[derive(Debug, Clone, Copy, PartialEq, Eq, Structural)]
pub enum TradeResponse {
    Pending,
    Accepted,
    Rejected,
}

/// The one outstanding offer, with the answers given so far.
#[derive(Debug, Clone)]
pub struct TradeState {
    pub offer: TradeOffer,
    pub responses: Vec<(PlayerId, TradeResponse)>,
}

/// A whole match.
#[derive(Debug, Clone)]
pub struct GameState {
    pub board: Board,
    pub players: Vec<Player>,
    pub current_player: PlayerId,
    pub phase: GamePhase,
    pub turn_number: u32,
    pub dice_roll: Option<(u8, u8)>,
    pub dev_card_deck: Vec<DevelopmentCard>,
    pub pending_trade: Option<TradeState>,
    pub dev_card_played_this_turn: bool,
    /// The settlement placed in setup that still awaits its road.
    pub setup_settlement: Option<VertexCoord>,
}

/// Number of cards in a hand, without overflow.
pub fn cards_in(h: &ResourceHand) -> (n: u64)
    ensures
        n == h.total_spec(),
{
    h.brick as u64 + h.lumber as u64 + h.ore as u64 + h.grain as u64 + h.wool as u64
}

/// `h` with `n` more of `r`, the count stopping at `u32::MAX`.
pub open spec fn credited(h: ResourceHand, r: Resource, n: int) -> ResourceHand {
    h.with_count(r, vstd::math::min(h.count(r) + n, u32::MAX as int) as u32)
}

/// Adds `n` of `r` to `h`; the count stops at `u32::MAX`.
pub fn credit(h: &mut ResourceHand, r: Resource, n: u32)
    ensures
        *final(h) == credited(*old(h), r, n as int),
{
    let c = h.get(r);
    if c > u32::MAX - n {
        h.set(r, u32::MAX);
    } else {
        h.set(r, c + n);
    }
}

/// `h` plus `o`, each count stopping at `u32::MAX`.
pub open spec fn credited_hand(h: ResourceHand, o: ResourceHand) -> ResourceHand {
    credited(
        credited(
            credited(
                credited(credited(h, Resource::Brick, o.brick as int), Resource::Lumber, o.lumber as int),
                Resource::Ore,
                o.ore as int,
            ),
            Resource::Grain,
            o.grain as int,
        ),
        Resource::Wool,
        o.wool as int,
    )
}

pub fn credit_hand(h: &mut ResourceHand, o: &ResourceHand)
    ensures
        *final(h) == credited_hand(*old(h), *o),
{
    credit(h, Resource::Brick, o.brick);
    credit(h, Resource::Lumber, o.lumber);
    credit(h, Resource::Ore, o.ore);
    credit(h, Resource::Grain, o.grain);
    credit(h, Resource::Wool, o.wool);
}

/// The rate for trading `r` with the bank: 2 with a 2:1 harbour for `r`, else 3 with a
/// generic harbour, else 4.
pub open spec fn maritime_rate_spec(r: Resource, harbors: Seq<Harbor>) -> u32 {
    if harbors.contains(Harbor::Specific(r)) {
        2
    } else if harbors.contains(Harbor::Generic) {
        3
    } else {
        4
    }
}

fn contains_harbor(hs: &[Harbor], h: Harbor) -> (b: bool)
    ensures
        b == hs@.contains(h),
{
    let mut i: usize = 0;
    while i < hs.len()
        invariant
            0 <= i <= hs@.len(),
            forall|j: int| 0 <= j < i ==> hs@[j] != h,
        decreases hs@.len() - i,
    {
        if hs[i] == h {
            return true;
        }
        i = i + 1;
    }
    false
}

/// The player seated at `i` is consistent: pieces within their counts, and the cards
/// held, bought and played with those left in the deck never exceed the deck's size.
pub open spec fn player_ok(p: Player, deck_len: nat) -> bool {
    &&& p.cities_remaining <= 4
    &&& p.settlements_remaining + p.cities_remaining <= 9
    &&& p.played_knights + p.dev_cards@.len() + p.dev_cards_bought_this_turn@.len() + deck_len <= 25
}

impl GameState {
    /// The state's invariant.
    pub open spec fn wf(self) -> bool {
        &&& self.board.wf()
        &&& 2 <= self.players@.len() <= 4
        &&& forall|i: int| 0 <= i < self.players@.len() ==> (#[trigger] self.players@[i]).id == i
        &&& forall|i: int|
            0 <= i < self.players@.len() ==> player_ok(
                #[trigger] self.players@[i],
                self.dev_card_deck@.len(),
            )
        &&& self.current_player < self.players@.len()
        &&& (self.phase matches GamePhase::Setup { round, .. } ==> round == 1 || round == 2)
        &&& (self.phase matches GamePhase::RoadBuildingInProgress { roads_remaining } ==> 1
            <= roads_remaining <= 2)
        &&& (self.phase matches GamePhase::DiscardRequired { players_remaining } ==> forall|
            i: int,
        | 0 <= i < players_remaining@.len() ==> players_remaining@[i] < self.players@.len())
        &&& (self.phase matches GamePhase::RobberSteal { victims, .. } ==> forall|i: int|
            0 <= i < victims@.len() ==> victims@[i] < self.players@.len())
        &&& (self.pending_trade matches Some(t) ==> t.offer.from < self.players@.len())
        &&& (self.setup_settlement matches Some(v) ==> v.hex.within(crate::board::BOARD_LIMIT + 1))
    }

    pub open spec fn finished(self) -> bool {
        self.phase is Finished
    }

    pub open spec fn player(self, id: PlayerId) -> Player {
        self.players@[id as int]
    }

    /// Total points of a player: buildings on the board, the two awards, and Victory
    /// Point cards.
    pub open spec fn points(self, id: PlayerId) -> int {
        if id < self.players@.len() {
            building_points(self.board.vertices_view(), id) + self.player(id).award_points()
        } else {
            0
        }
    }

    pub fn player_count(&self) -> (n: usize)
        ensures
            n == self.players@.len(),
    {
        self.players.len()
    }

    /// The player seated at `id`, if any.
    pub fn get_player(&self, id: PlayerId) -> (p: Option<&Player>)
        ensures
            p.is_some() == (id < self.players@.len()),
            p matches Some(x) ==> *x == self.players@[id as int],
    {
        if (id as usize) < self.players.len() {
            Some(&self.players[id as usize])
        } else {
            None
        }
    }

    /// Total victory points of `player_id` (0 for an unknown seat), counted from the
    /// buildings on the board; capped at `u32::MAX`.
    pub fn total_victory_points(&self, player_id: PlayerId) -> (vp: u32)
        requires
            self.wf(),
        ensures
            vp == vstd::math::min(self.points(player_id), u32::MAX as int),
    {
        if (player_id as usize) >= self.players.len() {
            return 0;
        }
        let player = &self.players[player_id as usize];
        proof {
            assert(player_ok(self.players@[player_id as int], self.dev_card_deck@.len()));
        }
        let awards = player.victory_points();
        let buildings = self.board.building_points(player_id);
        if buildings as u64 + awards as u64 > u32::MAX as u64 {
            u32::MAX
        } else {
            buildings + awards
        }
    }

    pub fn is_finished(&self) -> (b: bool)
        ensures
            b == self.finished(),
    {
        matches!(self.phase, GamePhase::Finished { .. })
    }

    pub fn get_winner(&self) -> (w: Option<PlayerId>)
        ensures
            w == (match self.phase {
                GamePhase::Finished { winner } => Some(winner),
                _ => None,
            }),
    {
        if let GamePhase::Finished { winner } = self.phase {
            Some(winner)
        } else {
            None
        }
    }

    /// The rate at which `resource` trades with the bank given the reachable harbours.
    pub fn get_maritime_rate(&self, _player: PlayerId, resource: Resource, harbors: &[Harbor]) -> (n: u32)
        ensures
            n == maritime_rate_spec(resource, harbors@),
    {
        if contains_harbor(harbors, Harbor::Specific(resource)) {
            return 2;
        }
        if contains_harbor(harbors, Harbor::Generic) {
            return 3;
        }
        4
    }
}

/// Removing the item at `i` and inserting `x` there replaces it.
pub proof fn lemma_remove_insert<T>(s: Seq<T>, i: int, x: T)
    requires
        0 <= i < s.len(),
    ensures
        s.remove(i).insert(i, x) == s.update(i, x),
{
    assert(s.remove(i).insert(i, x) =~= s.update(i, x));
}

/// The first seat, among the first `n`, whose player holds the Longest Road award.
pub open spec fn road_holder(ps: Seq<Player>, n: int) -> Option<PlayerId>
    decreases n,
{
    if n <= 0 {
        None
    } else {
        match road_holder(ps, n - 1) {
            Some(h) => Some(h),
            None => if ps[n - 1].has_longest_road {
                Some((n - 1) as PlayerId)
            } else {
                None
            },
        }
    }
}

proof fn lemma_road_holder_stable(ps: Seq<Player>, k: int, n: int)
    requires
        0 <= k <= n,
        road_holder(ps, k).is_some(),
    ensures
        road_holder(ps, n) == road_holder(ps, k),
    decreases n - k,
{
    if n > k {
        lemma_road_holder_stable(ps, k, n - 1);
    }
}

proof fn lemma_army_holder_stable(ps: Seq<Player>, k: int, n: int)
    requires
        0 <= k <= n,
        army_holder(ps, k).is_some(),
    ensures
        army_holder(ps, n) == army_holder(ps, k),
    decreases n - k,
{
    if n > k {
        lemma_army_holder_stable(ps, k, n - 1);
    }
}

/// The first seat, among the first `n`, whose player holds the Largest Army award.
pub open spec fn army_holder(ps: Seq<Player>, n: int) -> Option<PlayerId>
    decreases n,
{
    if n <= 0 {
        None
    } else {
        match army_holder(ps, n - 1) {
            Some(h) => Some(h),
            None => if ps[n - 1].has_largest_army {
                Some((n - 1) as PlayerId)
            } else {
                None
            },
        }
    }
}

/// The largest of the first `n` values of `ls` that reach `floor`, or 0.
pub open spec fn best_at_least(ls: Seq<u32>, floor: int, n: int) -> int
    decreases n,
{
    if n <= 0 {
        0
    } else {
        let rest = best_at_least(ls, floor, n - 1);
        if ls[n - 1] >= floor && ls[n - 1] > rest {
            ls[n - 1] as int
        } else {
            rest
        }
    }
}

/// The seats among the first `n` whose value reaches `floor` and equals `best`.
pub open spec fn seats_at(ls: Seq<u32>, floor: int, best: int, n: int) -> Seq<PlayerId>
    decreases n,
{
    if n <= 0 {
        Seq::empty()
    } else {
        let rest = seats_at(ls, floor, best, n - 1);
        if ls[n - 1] >= floor && ls[n - 1] == best {
            rest.push((n - 1) as PlayerId)
        } else {
            rest
        }
    }
}

/// Who holds Longest Road given everyone's road length `ls` and the current holder:
/// the sole longest road of at least 5; among several equal longest, the holder if
/// among them, else nobody.
pub open spec fn road_award(ls: Seq<u32>, current: Option<PlayerId>) -> Option<PlayerId> {
    let best = best_at_least(ls, MIN_LONGEST_ROAD as int, ls.len() as int);
    let tied = seats_at(ls, MIN_LONGEST_ROAD as int, best, ls.len() as int);
    if tied.len() == 1 {
        Some(tied[0])
    } else if current matches Some(c) && tied.contains(c) {
        current
    } else {
        None
    }
}

/// The sole player with the most knights, at least 3; `None` when nobody qualifies or
/// several share the most.
pub open spec fn army_leader(ks: Seq<u32>) -> Option<PlayerId> {
    let best = best_at_least(ks, MIN_LARGEST_ARMY as int, ks.len() as int);
    let tied = seats_at(ks, MIN_LARGEST_ARMY as int, best, ks.len() as int);
    if tied.len() == 1 {
        Some(tied[0])
    } else {
        None
    }
}

/// The players' knight counts.
pub open spec fn knights_of(ps: Seq<Player>) -> Seq<u32> {
    Seq::new(ps.len(), |i: int| ps[i].played_knights)
}

/// `ps` with each award flag set to whether the seat is `holder`.
pub open spec fn with_road_holder(ps: Seq<Player>, holder: Option<PlayerId>) -> Seq<Player> {
    Seq::new(ps.len(), |i: int| Player { has_longest_road: holder == Some(i as PlayerId), ..ps[i] })
}

pub open spec fn with_army_holder(ps: Seq<Player>, holder: Option<PlayerId>) -> Seq<Player> {
    Seq::new(ps.len(), |i: int| Player { has_largest_army: holder == Some(i as PlayerId), ..ps[i] })
}

/// One card of each resource among `ts`, added to `h`.
pub open spec fn granted(h: ResourceHand, ts: Seq<crate::board::Tile>) -> ResourceHand
    decreases ts.len(),
{
    if ts.len() == 0 {
        h
    } else {
        let g = granted(h, ts.drop_last());
        match crate::board::resource_of(ts.last().tile_type) {
            Some(r) => credited(g, r, 1),
            None => g,
        }
    }
}

/// `s` without the occurrences of `x`.
pub open spec fn without(s: Seq<PlayerId>, x: PlayerId) -> Seq<PlayerId> {
    s.filter(other_than(x))
}

pub open spec fn other_than(x: PlayerId) -> spec_fn(PlayerId) -> bool {
    |y: PlayerId| y != x
}

/// Players holding more than 7 cards, among the first `n`, in seat order.
pub open spec fn over_seven(ps: Seq<Player>, n: int) -> Seq<PlayerId>
    decreases n,
{
    if n <= 0 {
        Seq::empty()
    } else {
        let rest = over_seven(ps, n - 1);
        if ps[n - 1].resources.total_spec() > 7 {
            rest.push((n - 1) as PlayerId)
        } else {
            rest
        }
    }
}

/// Settlements placed so far, counted from the pieces left (one per player and setup
/// round).
pub open spec fn placements(ps: Seq<Player>, n: int) -> int
    decreases n,
{
    if n <= 0 {
        0
    } else {
        placements(ps, n - 1) + if ps[n - 1].settlements_remaining <= 5 {
            5 - ps[n - 1].settlements_remaining
        } else {
            0
        }
    }
}

/// One card moved from `victim`'s hand to `thief`'s, or none when the victim has none.
pub open spec fn stolen(before: Seq<Player>, after: Seq<Player>, thief: PlayerId, victim: PlayerId) -> bool {
    let v = before[victim as int];
    let t = before[thief as int];
    if v.resources.total_spec() == 0 {
        after == before
    } else {
        exists|r: Resource|
            v.resources.count(r) > 0 && after == before.update(
                victim as int,
                Player { resources: v.resources.with_count(r, (v.resources.count(r) - 1) as u32), ..v },
            ).update(thief as int, Player { resources: credited(t.resources, r, 1), ..t })
    }
}

impl GameState {
    /// A maritime trade: `give_count` of `give` leave the hand, one `receive` joins it.
    pub open spec fn maritime_effect(self, after: GameState, player: PlayerId, give: Resource, give_count: u32, receive: Resource) -> bool {
        (self.only_player(
                after,
                player,
                Player {
                    resources: credited(
                        self.player(player).resources.with_count(
                            give,
                            (self.player(player).resources.count(give) - give_count) as u32,
                        ),
                        receive,
                        1,
                    ),
                    ..self.player(player)
                }
            ))
    }

    /// The turn passed to the next seat, in PreRoll, with the offer gone and bought cards playable.
    pub open spec fn end_turn_effect(self, after: GameState, player: PlayerId) -> bool {
        (after.pending_trade.is_none() && after.current_player
                == (player + 1) % (self.players@.len() as int) && after.turn_number == vstd::math::min(
                self.turn_number + 1,
                u32::MAX as int
            ) && after.dice_roll.is_none() && !after.dev_card_played_this_turn
                && after.phase is PreRoll && after.board == self.board
                && after.dev_card_deck == self.dev_card_deck && after.players@.len()
                == self.players@.len() && (forall|i: int|
                0 <= i < self.players@.len() && i != player ==> after.players@[i]
                    == self.players@[i]) && after.player(player).dev_cards@
                == self.player(player).dev_cards@ + self.player(
                player,
            ).dev_cards_bought_this_turn@ && after.player(player).dev_cards_bought_this_turn@.len()
                == 0)
    }

    /// The pending offer withdrawn by one of its sides, nothing else changed.
    pub open spec fn cancel_effect(self, after: GameState, player: PlayerId) -> bool {
        (after == (GameState { pending_trade: None, ..self }))
    }

    /// `offer` is now the one pending offer (after a proposal or a counter-offer), with
    /// no answers yet.
    pub open spec fn proposal_effect(self, after: GameState, player: PlayerId, offer: TradeOffer) -> bool {
        (after == (GameState {
                pending_trade: after.pending_trade,
                ..self
            }) && (after.pending_trade matches Some(t) && t.offer == offer && t.responses@.len() == 0))
    }

    /// Both sides of the pending offer exchanged at once, and the offer closed.
    pub open spec fn accept_effect(self, after: GameState, player: PlayerId) -> bool {
        ((self.pending_trade matches Some(t) && ({
                let a = t.offer.from;
                let pa = self.player(a);
                let pb = self.player(player);
                &&& after.pending_trade.is_none()
                &&& after == (GameState { players: after.players, pending_trade: None, ..self })
                &&& after.players@ == self.players@.update(
                    a as int,
                    Player { resources: credited_hand(pa.resources.minus(t.offer.offering), t.offer.requesting), ..pa },
                ).update(
                    player as int,
                    Player { resources: credited_hand(pb.resources.minus(t.offer.requesting), t.offer.offering), ..pb },
                )
            })))
    }

    /// The answer recorded; an offer addressed to this player alone closes.
    pub open spec fn reject_effect(self, after: GameState, player: PlayerId) -> bool {
        (after == (GameState {
                pending_trade: after.pending_trade,
                ..self
            }) && (self.pending_trade matches Some(t) && (if t.offer.to == Some(player) {
                after.pending_trade.is_none()
            } else {
                (after.pending_trade matches Some(u) && u.offer == t.offer && u.responses@ == t.responses@.push(
                    (player, TradeResponse::Rejected),
                ))
            })))
    }

    /// `cards` left the hand and the player no longer owes a discard.
    pub open spec fn discard_effect(self, after: GameState, player: PlayerId, cards: ResourceHand) -> bool {
        ((self.phase matches GamePhase::DiscardRequired { players_remaining } && ({
                let left = without(players_remaining@, player);
                &&& after == (GameState { players: after.players, phase: after.phase, ..self })
                &&& after.players@ == self.players@.update(
                    player as int,
                    Player { resources: self.player(player).resources.minus(cards), ..self.player(player) },
                )
                &&& if left.len() == 0 {
                    after.phase is RobberMoveRequired
                } else {
                    (after.phase matches GamePhase::DiscardRequired { players_remaining: rest } && rest@ == left)
                }
            })))
    }

    /// The state after a roll of `die1` and `die2` by the player to move.
    pub open spec fn dice_effect(self, after: GameState, die1: u8, die2: u8) -> bool {
        &&& (after == (GameState {
                players: after.players,
                phase: after.phase,
                dice_roll: Some((die1, die2)),
                ..self
            }))
        &&& (die1 + die2 == 7 ==> {
                let must = over_seven(self.players@, self.players@.len() as int);
                &&& after.players == self.players
                &&& if must.len() == 0 {
                    after.phase is RobberMoveRequired
                } else {
                    (after.phase matches GamePhase::DiscardRequired { players_remaining } && players_remaining@ == must)
                }
            })
        &&& (die1 + die2 != 7 ==> after.phase is MainPhase && after.players@ == after_production(
                self.players@,
                self.board,
                (die1 + die2) as u8,
            ))
    }

    /// Two dice were rolled and carried out (see `dice_effect`).
    pub open spec fn roll_effect(self, after: GameState, player: PlayerId) -> bool {
        exists|d1: u8, d2: u8| 1 <= d1 <= 6 && 1 <= d2 <= 6 && #[trigger] self.dice_effect(after, d1, d2)
    }

    /// The robber moved to `hex`, then a card was stolen from the only victim, or the victims were offered, or play went on.
    pub open spec fn robber_effect(self, after: GameState, player: PlayerId, hex: crate::hex::HexCoord) -> bool {
        (after.board.robber_moved(self.board, hex)
                && after == (GameState {
                board: after.board,
                players: after.players,
                phase: after.phase,
                ..self
            }) && (after.phase is MainPhase || after.phase is RobberSteal)) && ((after.phase matches GamePhase::RobberSteal { target_hex, victims } ==> target_hex == hex
                && victims@.len() >= 2 && victims@.no_duplicates() && after.players == self.players
                && forall|q: PlayerId| victims@.contains(q) <==> self.robber_victim(player, hex, q))) && ((after.phase is MainPhase ==> ((forall|q: PlayerId| !self.robber_victim(player, hex, q))
                && after.players == self.players) || (exists|q: PlayerId|
                self.robber_victim(player, hex, q) && (forall|o: PlayerId|
                    self.robber_victim(player, hex, o) ==> o == q) && stolen(
                    self.players@,
                    after.players@,
                    player,
                    q,
                ))))
    }

    /// One card taken from the victim, and play goes on.
    pub open spec fn steal_effect(self, after: GameState, player: PlayerId, victim: PlayerId) -> bool {
        (after.phase is MainPhase && after == (GameState {
                players: after.players,
                phase: after.phase,
                ..self
            }) && (victim == player ==> after.players == self.players) && (victim != player
                ==> stolen(self.players@, after.players@, player, victim)))
    }

    /// A setup settlement placed (paying one card per adjacent resource tile in round 2); a road comes next.
    pub open spec fn setup_settlement_effect(self, after: GameState, player: PlayerId, vertex: VertexCoord) -> bool {
        (({
                let round = setup_round(self.phase);
                let p = self.player(player);
                &&& after == (GameState {
                    board: after.board,
                    players: after.players,
                    phase: GamePhase::Setup { round, placing: SetupPlacing::Road },
                    setup_settlement: Some(vertex),
                    ..self
                })
                &&& after.board.same_but_vertices(self.board)
                &&& forall|x: VertexCoord| #[trigger] after.board.vertex_at(x) == if x == vertex {
                    VertexBuilding::Settlement(player)
                } else {
                    self.board.vertex_at(x)
                }
                &&& after.players@ == self.players@.update(
                    player as int,
                    Player {
                        settlements_remaining: (p.settlements_remaining - 1) as u32,
                        resources: if round == 2 {
                            granted(p.resources, self.board.land_tiles_around(vertex))
                        } else {
                            p.resources
                        },
                        ..p
                    },
                )
            }))
    }

    /// A setup road placed, and setup moved on in snake order.
    pub open spec fn setup_road_effect(self, after: GameState, player: PlayerId, edge: EdgeCoord) -> bool {
        (({
                let p = self.player(player);
                let ps = self.players@.update(
                    player as int,
                    Player { roads_remaining: (p.roads_remaining - 1) as u32, ..p },
                );
                let next = setup_next(ps, self.current_player, setup_round(self.phase), self.turn_number);
                &&& after == (GameState {
                    board: after.board,
                    players: after.players,
                    current_player: next.0,
                    phase: next.1,
                    turn_number: next.2,
                    setup_settlement: None,
                    ..self
                })
                &&& after.players@ == ps
                &&& after.board.same_but_edges(self.board)
                &&& forall|x: EdgeCoord| #[trigger] after.board.edge_at(x) == if x == edge {
                    EdgeBuilding::Road(player)
                } else {
                    self.board.edge_at(x)
                }
            }))
    }

    /// A road built (paid, or free under Road Building), with Longest Road re-evaluated.
    pub open spec fn road_effect(self, after: GameState, player: PlayerId, edge: EdgeCoord) -> bool {
        (({
                let p = self.player(player);
                let free = self.phase is RoadBuildingInProgress;
                let mid = self.players@.update(
                    player as int,
                    Player {
                        roads_remaining: (p.roads_remaining - 1) as u32,
                        resources: if free {
                            p.resources
                        } else {
                            p.resources.minus(road_cost())
                        },
                        ..p
                    },
                );
                &&& after == (GameState {
                    board: after.board,
                    players: after.players,
                    phase: after.phase,
                    ..self
                })
                &&& after.board.same_but_edges(self.board)
                &&& forall|x: EdgeCoord| #[trigger] after.board.edge_at(x) == if x == edge {
                    EdgeBuilding::Road(player)
                } else {
                    self.board.edge_at(x)
                }
                &&& after.players@ == road_flags_after(mid, after.road_lengths())
                &&& after.phase == match self.phase {
                    GamePhase::RoadBuildingInProgress { roads_remaining } => if roads_remaining == 1 {
                        GamePhase::MainPhase
                    } else {
                        GamePhase::RoadBuildingInProgress { roads_remaining: (roads_remaining - 1) as u8 }
                    },
                    _ => self.phase,
                }
            }))
    }

    /// A settlement built and paid, Longest Road re-evaluated, and the game won if someone has 10 points.
    pub open spec fn settlement_effect(self, after: GameState, player: PlayerId, vertex: VertexCoord) -> bool {
        (({
                let p = self.player(player);
                let mid = self.players@.update(
                    player as int,
                    Player {
                        resources: p.resources.minus(settlement_cost()),
                        settlements_remaining: (p.settlements_remaining - 1) as u32,
                        ..p
                    },
                );
                &&& after == (GameState {
                    board: after.board,
                    players: after.players,
                    phase: after.phase,
                    ..self
                })
                &&& after.board.same_but_vertices(self.board)
                &&& forall|x: VertexCoord| #[trigger] after.board.vertex_at(x) == if x == vertex {
                    VertexBuilding::Settlement(player)
                } else {
                    self.board.vertex_at(x)
                }
                &&& after.players@ == road_flags_after(mid, after.road_lengths())
                &&& after.phase == after.won_or(GamePhase::MainPhase)
            }))
    }

    /// A settlement upgraded to a city and paid, and the game won if someone has 10 points.
    pub open spec fn city_effect(self, after: GameState, player: PlayerId, vertex: VertexCoord) -> bool {
        (({
                let p = self.player(player);
                &&& after == (GameState {
                    board: after.board,
                    players: after.players,
                    phase: after.phase,
                    ..self
                })
                &&& after.board.same_but_vertices(self.board)
                &&& forall|x: VertexCoord| #[trigger] after.board.vertex_at(x) == if x == vertex {
                    VertexBuilding::City(player)
                } else {
                    self.board.vertex_at(x)
                }
                &&& after.players@ == self.players@.update(
                    player as int,
                    Player {
                        resources: p.resources.minus(city_cost()),
                        cities_remaining: (p.cities_remaining - 1) as u32,
                        settlements_remaining: (p.settlements_remaining + 1) as u32,
                        ..p
                    },
                )
                &&& after.phase == after.won_or(GamePhase::MainPhase)
            }))
    }

    /// The top card bought into the cards bought this turn, and the game won if someone has 10 points.
    pub open spec fn buy_card_effect(self, after: GameState, player: PlayerId) -> bool {
        (({
                let p = self.player(player);
                let card = self.dev_card_deck@.last();
                &&& after == (GameState {
                    players: after.players,
                    dev_card_deck: after.dev_card_deck,
                    phase: after.phase,
                    ..self
                })
                &&& after.dev_card_deck@ == self.dev_card_deck@.drop_last()
                &&& after.players@.len() == self.players@.len()
                &&& forall|j: int| 0 <= j < self.players@.len() && j != player ==> after.players@[j] == self.players@[j]
                &&& after.player(player) == (Player {
                    resources: p.resources.minus(dev_card_cost()),
                    dev_cards_bought_this_turn: after.player(player).dev_cards_bought_this_turn,
                    ..p
                })
                &&& after.player(player).dev_cards_bought_this_turn@ == p.dev_cards_bought_this_turn@.push(card)
                &&& after.phase == after.won_or(GamePhase::MainPhase)
            }))
    }

    /// A Knight played: Largest Army re-evaluated, and the robber must move.
    pub open spec fn knight_effect(self, after: GameState, player: PlayerId) -> bool {
        (after.phase is RobberMoveRequired && after == (GameState {
                players: after.players,
                phase: after.phase,
                dev_card_played_this_turn: true,
                ..self
            }) && exists|mid: Player|
                card_played(self.player(player), mid, DevelopmentCard::Knight) && after.players@
                    == army_flags_after(self.players@.update(player as int, mid)))
    }

    /// Road Building played: two free roads follow.
    pub open spec fn road_building_effect(self, after: GameState, player: PlayerId) -> bool {
        (after.phase == (GamePhase::RoadBuildingInProgress { roads_remaining: 2 })
                && after == (GameState {
                players: after.players,
                phase: after.phase,
                dev_card_played_this_turn: true,
                ..self
            }) && exists|mid: Player|
                card_played(self.player(player), mid, DevelopmentCard::RoadBuilding) && after.players@
                    == self.players@.update(player as int, mid))
    }

    /// Year of Plenty played: one card of each chosen resource from the bank.
    pub open spec fn plenty_effect(self, after: GameState, player: PlayerId, r1: Resource, r2: Resource) -> bool {
        (after == (GameState {
                players: after.players,
                dev_card_played_this_turn: true,
                ..self
            }) && exists|mid: Player|
                card_played(self.player(player), mid, DevelopmentCard::YearOfPlenty) && after.players@
                    == self.players@.update(
                    player as int,
                    Player { resources: credited(credited(mid.resources, r1, 1), r2, 1), ..mid },
                ))
    }

    /// Monopoly played: every other player's cards of the resource move to the player.
    pub open spec fn monopoly_effect(self, after: GameState, player: PlayerId, resource: Resource) -> bool {
        (after == (GameState {
                players: after.players,
                dev_card_played_this_turn: true,
                ..self
            }) && after.players@.len() == self.players@.len() && (forall|j: int|
                0 <= j < self.players@.len() && j != player ==> after.players@[j] == (Player {
                    resources: self.players@[j].resources.with_count(resource, 0),
                    ..self.players@[j]
                })) && exists|mid: Player|
                card_played(self.player(player), mid, DevelopmentCard::Monopoly) && after.player(player)
                    == (Player {
                    resources: credited(
                        mid.resources,
                        resource,
                        vstd::math::min(
                            others_holding(self.players@, player, resource, self.players@.len() as int),
                            u32::MAX as int,
                        ),
                    ),
                    ..mid
                }))
    }
}

impl GameState {
    fn take_player(&mut self, i: usize) -> (p: Player)
        requires
            i < old(self).players@.len(),
        ensures
            p == old(self).players@[i as int],
            final(self).players@ == old(self).players@.remove(i as int),
            *final(self) == (GameState { players: final(self).players, ..*old(self) }),
    {
        self.players.remove(i)
    }

    fn put_player(&mut self, i: usize, p: Player)
        requires
            i <= old(self).players@.len(),
        ensures
            final(self).players@ == old(self).players@.insert(i as int, p),
            *final(self) == (GameState { players: final(self).players, ..*old(self) }),
    {
        self.players.insert(i, p);
    }

    /// The players' current road lengths.
    pub open spec fn road_lengths(self) -> Seq<u32> {
        Seq::new(
            self.players@.len(),
            |i: int| vstd::math::min(self.board.longest_road_spec(i as PlayerId), u32::MAX as int) as u32,
        )
    }

    /// Re-evaluates Longest Road after a placement: the flags follow `road_award`.
    fn check_longest_road(&mut self) -> (events: Vec<GameEvent>)
        requires
            old(self).wf(),
        ensures
            final(self).wf(),
            *final(self) == (GameState { players: final(self).players, ..*old(self) }),
            ({
                let cur = road_holder(old(self).players@, old(self).players@.len() as int);
                let new = road_award(old(self).road_lengths(), cur);
                final(self).players@ == if new == cur {
                    old(self).players@
                } else {
                    with_road_holder(old(self).players@, new)
                }
            }),
    {
        let n = self.players.len();
        let mut lens: Vec<u32> = Vec::new();
        let mut i: usize = 0;
        while i < n
            invariant
                self.wf(),
                n == self.players@.len(),
                0 <= i <= n,
                lens@ == self.road_lengths().subrange(0, i as int),
            decreases n - i,
        {
            lens.push(self.board.longest_road(i as PlayerId));
            proof {
                assert(lens@ =~= self.road_lengths().subrange(0, i + 1));
            }
            i = i + 1;
        }
        proof {
            assert(lens@ =~= self.road_lengths());
        }
        let best = best_at_least_exec(&lens, MIN_LONGEST_ROAD);
        let tied = seats_at_exec(&lens, MIN_LONGEST_ROAD, best);
        let current = self.find_road_holder();
        let new_holder = if tied.len() == 1 {
            Some(tied[0])
        } else if current.is_some() && contains_player(&tied, current.unwrap()) {
            current
        } else {
            None
        };
        let mut events: Vec<GameEvent> = Vec::new();
        if new_holder != current {
            self.set_road_flags(new_holder);
            events.push(GameEvent::LongestRoadChanged {
                previous: current,
                current: new_holder,
                length: best,
            });
        }
        events
    }

    fn find_road_holder(&self) -> (h: Option<PlayerId>)
        requires
            self.players@.len() <= 4,
        ensures
            h == road_holder(self.players@, self.players@.len() as int),
    {
        let mut i: usize = 0;
        while i < self.players.len()
            invariant
                0 <= i <= self.players@.len() <= 4,
                road_holder(self.players@, i as int).is_none(),
            decreases self.players@.len() - i,
        {
            if self.players[i].has_longest_road {
                proof {
                    lemma_road_holder_stable(self.players@, i + 1, self.players@.len() as int);
                }
                return Some(i as PlayerId);
            }
            i = i + 1;
        }
        None
    }

    fn find_army_holder(&self) -> (h: Option<PlayerId>)
        requires
            self.players@.len() <= 4,
        ensures
            h == army_holder(self.players@, self.players@.len() as int),
    {
        let mut i: usize = 0;
        while i < self.players.len()
            invariant
                0 <= i <= self.players@.len() <= 4,
                army_holder(self.players@, i as int).is_none(),
            decreases self.players@.len() - i,
        {
            if self.players[i].has_largest_army {
                proof {
                    lemma_army_holder_stable(self.players@, i + 1, self.players@.len() as int);
                }
                return Some(i as PlayerId);
            }
            i = i + 1;
        }
        None
    }

    fn set_road_flags(&mut self, holder: Option<PlayerId>)
        requires
            old(self).wf(),
        ensures
            final(self).wf(),
            *final(self) == (GameState { players: final(self).players, ..*old(self) }),
            final(self).players@ == with_road_holder(old(self).players@, holder),
    {
        let n = self.players.len();
        let mut i: usize = 0;
        while i < n
            invariant
                n == self.players@.len() == old(self).players@.len(),
                0 <= i <= n,
                *self == (GameState { players: self.players, ..*old(self) }),
                forall|j: int| 0 <= j < i ==> self.players@[j] == with_road_holder(old(self).players@, holder)[j],
                forall|j: int| i <= j < n ==> self.players@[j] == old(self).players@[j],
            decreases n - i,
        {
            let ghost prev = self.players@;
            let mut p = self.take_player(i);
            p.has_longest_road = holder == Some(i as PlayerId);
            self.put_player(i, p);
            proof {
                lemma_remove_insert(prev, i as int, p);
            }
            i = i + 1;
        }
        proof {
            assert(self.players@ =~= with_road_holder(old(self).players@, holder));
        }
    }
}

fn best_at_least_exec(ls: &Vec<u32>, floor: u32) -> (b: u32)
    ensures
        b == best_at_least(ls@, floor as int, ls@.len() as int),
{
    let mut best: u32 = 0;
    let mut i: usize = 0;
    while i < ls.len()
        invariant
            0 <= i <= ls@.len(),
            best == best_at_least(ls@, floor as int, i as int),
        decreases ls@.len() - i,
    {
        if ls[i] >= floor && ls[i] > best {
            best = ls[i];
        }
        i = i + 1;
    }
    best
}

fn seats_at_exec(ls: &Vec<u32>, floor: u32, best: u32) -> (t: Vec<PlayerId>)
    requires
        ls@.len() <= 256,
    ensures
        t@ == seats_at(ls@, floor as int, best as int, ls@.len() as int),
{
    let mut t: Vec<PlayerId> = Vec::new();
    let mut i: usize = 0;
    while i < ls.len()
        invariant
            0 <= i <= ls@.len() <= 256,
            t@ == seats_at(ls@, floor as int, best as int, i as int),
        decreases ls@.len() - i,
    {
        if ls[i] >= floor && ls[i] == best {
            t.push(i as PlayerId);
        }
        i = i + 1;
    }
    t
}

impl GameState {
    fn set_army_flags(&mut self, holder: Option<PlayerId>)
        requires
            old(self).wf(),
        ensures
            final(self).wf(),
            *final(self) == (GameState { players: final(self).players, ..*old(self) }),
            final(self).players@ == with_army_holder(old(self).players@, holder),
    {
        let n = self.players.len();
        let mut i: usize = 0;
        while i < n
            invariant
                n == self.players@.len() == old(self).players@.len(),
                0 <= i <= n,
                *self == (GameState { players: self.players, ..*old(self) }),
                forall|j: int| 0 <= j < i ==> self.players@[j] == with_army_holder(old(self).players@, holder)[j],
                forall|j: int| i <= j < n ==> self.players@[j] == old(self).players@[j],
            decreases n - i,
        {
            let ghost prev = self.players@;
            let mut p = self.take_player(i);
            p.has_largest_army = holder == Some(i as PlayerId);
            self.put_player(i, p);
            proof {
                lemma_remove_insert(prev, i as int, p);
            }
            i = i + 1;
        }
        proof {
            assert(self.players@ =~= with_army_holder(old(self).players@, holder));
        }
    }

    /// Re-evaluates Largest Army after a knight: the sole player with the most knights,
    /// at least 3, takes the award; under a tie the holder keeps it.
    fn check_largest_army(&mut self) -> (events: Vec<GameEvent>)
        requires
            old(self).wf(),
        ensures
            final(self).wf(),
            *final(self) == (GameState { players: final(self).players, ..*old(self) }),
            ({
                let cur = army_holder(old(self).players@, old(self).players@.len() as int);
                let leader = army_leader(knights_of(old(self).players@));
                final(self).players@ == if leader.is_some() && leader != cur {
                    with_army_holder(old(self).players@, leader)
                } else {
                    old(self).players@
                }
            }),
    {
        let n = self.players.len();
        let mut ks: Vec<u32> = Vec::new();
        let mut i: usize = 0;
        while i < n
            invariant
                n == self.players@.len() <= 4,
                0 <= i <= n,
                ks@ == knights_of(self.players@).subrange(0, i as int),
            decreases n - i,
        {
            ks.push(self.players[i].played_knights);
            proof {
                assert(ks@ =~= knights_of(self.players@).subrange(0, i + 1));
            }
            i = i + 1;
        }
        proof {
            assert(ks@ =~= knights_of(self.players@));
        }
        let best = best_at_least_exec(&ks, MIN_LARGEST_ARMY);
        let tied = seats_at_exec(&ks, MIN_LARGEST_ARMY, best);
        let leader = if tied.len() == 1 {
            Some(tied[0])
        } else {
            None
        };
        let current = self.find_army_holder();
        let mut events: Vec<GameEvent> = Vec::new();
        if leader.is_some() && leader != current {
            self.set_army_flags(leader);
            events.push(GameEvent::LargestArmyChanged { previous: current, current: leader, knights: best });
        }
        events
    }

    /// The first seat whose player has at least 10 points, if any.
    pub open spec fn winner_among(self, n: int) -> Option<PlayerId>
        decreases n,
    {
        if n <= 0 {
            None
        } else {
            match self.winner_among(n - 1) {
                Some(w) => Some(w),
                None => if self.points((n - 1) as PlayerId) >= VICTORY_POINTS_TO_WIN {
                    Some((n - 1) as PlayerId)
                } else {
                    None
                },
            }
        }
    }

    proof fn lemma_winner_stable(self, k: int, n: int)
        requires
            0 <= k <= n,
            self.winner_among(k).is_some(),
        ensures
            self.winner_among(n) == self.winner_among(k),
        decreases n - k,
    {
        if n > k {
            self.lemma_winner_stable(k, n - 1);
        }
    }

    /// Who has won depends on the board and the players alone.
    proof fn lemma_winner_same(self, other: GameState, n: int)
        requires
            self.board == other.board,
            self.players == other.players,
        ensures
            self.winner_among(n) == other.winner_among(n),
        decreases n,
    {
        if n > 0 {
            self.lemma_winner_same(other, n - 1);
        }
    }

    fn check_winner(&self) -> (w: Option<PlayerId>)
        requires
            self.wf(),
        ensures
            w == self.winner_among(self.players@.len() as int),
    {
        let mut i: usize = 0;
        while i < self.players.len()
            invariant
                self.wf(),
                0 <= i <= self.players@.len(),
                self.winner_among(i as int).is_none(),
            decreases self.players@.len() - i,
        {
            if self.total_victory_points(i as PlayerId) >= VICTORY_POINTS_TO_WIN {
                proof {
                    self.lemma_winner_stable(i + 1, self.players@.len() as int);
                }
                return Some(i as PlayerId);
            }
            i = i + 1;
        }
        None
    }

    /// Ends the game when some player has reached 10 points; the first such seat wins.
    fn check_win_condition(&mut self) -> (events: Vec<GameEvent>)
        requires
            old(self).wf(),
        ensures
            final(self).wf(),
            *final(self) == (GameState { phase: final(self).phase, ..*old(self) }),
            final(self).phase == match old(self).winner_among(old(self).players@.len() as int) {
                Some(w) => GamePhase::Finished { winner: w },
                None => old(self).phase,
            },
            old(self).winner_among(old(self).players@.len() as int) matches Some(w) ==> events@.len() == 1
                && (events@[0] matches GameEvent::GameWon { player, .. } && player == w),
    {
        let mut events: Vec<GameEvent> = Vec::new();
        match self.check_winner() {
            Some(winner) => {
                let vp = self.total_victory_points(winner);
                self.phase = GamePhase::Finished { winner };
                events.push(GameEvent::GameWon { player: winner, victory_points: vp });
            },
            None => {},
        }
        events
    }
}

/// `player` is one side of `offer`: its proposer or its named target.
pub open spec fn side_of(offer: TradeOffer, player: PlayerId) -> bool {
    player == offer.from || offer.to == Some(player)
}

/// The event an action opens its report with.
pub open spec fn opening_event(before: GameState, after: GameState, player: PlayerId, action: GameAction, ev: GameEvent) -> bool {
    match action {
        GameAction::PlaceInitialSettlement(v) => ev == (GameEvent::SettlementBuilt { player, location: v }),
        GameAction::BuildSettlement(v) => ev == (GameEvent::SettlementBuilt { player, location: v }),
        GameAction::PlaceInitialRoad(e) => ev == (GameEvent::RoadBuilt { player, location: e }),
        GameAction::BuildRoad(e) => ev == (GameEvent::RoadBuilt { player, location: e }),
        GameAction::BuildCity(v) => ev == (GameEvent::CityBuilt { player, location: v }),
        GameAction::RollDice => after.dice_roll matches Some((a, b)) && ev == (GameEvent::DiceRolled {
            player,
            roll: (a, b),
            total: (a + b) as u8,
        }),
        GameAction::MoveRobber(h) => ev == (GameEvent::RobberMoved { player, from: before.board.robber_spec(), to: h }),
        GameAction::StealFrom(victim) => ev matches GameEvent::ResourceStolen { thief, victim: v, .. } && thief
            == player && v == victim,
        GameAction::DiscardCards(_) => ev == (GameEvent::CardsDiscarded {
            player,
            count: (before.player(player).resources.total_spec() / 2) as u32,
        }),
        GameAction::BuyDevelopmentCard => ev == (GameEvent::DevelopmentCardPurchased { player }),
        GameAction::PlayKnight => ev == (GameEvent::KnightPlayed { player }),
        GameAction::PlayRoadBuilding(_, _) => ev == (GameEvent::RoadBuildingPlayed { player }),
        GameAction::PlayYearOfPlenty(r1, r2) => ev == (GameEvent::YearOfPlentyPlayed { player, resources: (r1, r2) }),
        GameAction::PlayMonopoly(r) => ev matches GameEvent::MonopolyPlayed { player: p, resource, .. } && p == player
            && resource == r,
        GameAction::ProposeTrade(offer) => ev == (GameEvent::TradeProposed { offer }),
        GameAction::CounterTrade(offer) => ev == (GameEvent::TradeProposed { offer }),
        GameAction::AcceptTrade => before.pending_trade matches Some(t) && ev == (GameEvent::TradeCompleted {
            player1: t.offer.from,
            player2: player,
        }),
        GameAction::RejectTrade => ev == GameEvent::TradeCancelled,
        GameAction::CancelTrade => ev == GameEvent::TradeCancelled,
        GameAction::MaritimeTrade { give, give_count, receive } => ev == (GameEvent::MaritimeTradeCompleted {
            player,
            gave: give,
            gave_count: give_count,
            received: receive,
        }),
        GameAction::EndTurn => ev == (GameEvent::TurnEnded { player, next_player: after.current_player }),
    }
}

/// The report of a carried-out action: it opens with the action's event (a declined
/// offer reports only when it closes the offer), and when the action ends the game it
/// closes with `GameWon` for the winner.
pub open spec fn report_fits(before: GameState, after: GameState, player: PlayerId, action: GameAction, evs: Seq<GameEvent>) -> bool {
    &&& (if action is RejectTrade {
        after.pending_trade.is_none() <==> evs.len() > 0
    } else {
        evs.len() > 0
    })
    &&& (evs.len() > 0 ==> opening_event(before, after, player, action, evs[0]))
    &&& (after.phase matches GamePhase::Finished { winner } ==> evs.len() > 0 && (evs.last() matches GameEvent::GameWon {
        player: w,
        ..
    } && w == winner))
}

/// The setup round recorded in a phase (1 outside setup).
pub open spec fn setup_round(ph: GamePhase) -> u8 {
    match ph {
        GamePhase::Setup { round, .. } => round,
        _ => 1,
    }
}

/// Seat, phase and turn number after a setup road, by the snake order: forward in round
/// 1, backward in round 2, the last player of round 1 placing twice in a row, and play
/// starting once every player has placed twice.
pub open spec fn setup_next(ps: Seq<Player>, cur: PlayerId, round: u8, turn: u32) -> (
    PlayerId,
    GamePhase,
    u32,
) {
    let n = ps.len() as int;
    let done = placements(ps, n);
    if done >= 2 * n {
        (cur, GamePhase::PreRoll, 1)
    } else if round == 1 && done >= n {
        (cur, GamePhase::Setup { round: 2, placing: SetupPlacing::Settlement }, turn)
    } else if round == 1 {
        (((cur + 1) % n) as PlayerId, GamePhase::Setup { round: 1, placing: SetupPlacing::Settlement }, turn)
    } else {
        (
            if cur == 0 {
                (n - 1) as PlayerId
            } else {
                (cur - 1) as PlayerId
            },
            GamePhase::Setup { round: 2, placing: SetupPlacing::Settlement },
            turn,
        )
    }
}

impl GameState {
    /// Why `player`'s `action` is rejected in this state, or `None` when it is carried
    /// out. Checks come in this order, the first failing one deciding.
    pub open spec fn rejection(self, player: PlayerId, action: GameAction) -> Option<GameError> {
        let turn = player == self.current_player;
        let main = self.phase is MainPhase;
        if self.phase is Finished {
            Some(GameError::GameOver)
        } else {
            match action {
                GameAction::PlaceInitialSettlement(v) => if !turn {
                    Some(GameError::NotYourTurn)
                } else if !(self.phase matches GamePhase::Setup {
                    placing: SetupPlacing::Settlement,
                    ..
                }) {
                    Some(GameError::InvalidPhase)
                } else if !self.board.settlement_ok(v, player, true) {
                    Some(GameError::InvalidLocation)
                } else if self.player(player).settlements_remaining == 0 {
                    Some(GameError::NoPiecesRemaining)
                } else {
                    None
                },
                GameAction::PlaceInitialRoad(e) => if !turn {
                    Some(GameError::NotYourTurn)
                } else if !(self.phase matches GamePhase::Setup { placing: SetupPlacing::Road, .. }) {
                    Some(GameError::InvalidPhase)
                } else if self.setup_settlement.is_none() {
                    Some(GameError::InvalidPhase)
                } else if !vertex_edges_spec(self.setup_settlement.unwrap()).contains(e) {
                    Some(GameError::InvalidLocation)
                } else if !self.board.edge_touches_land(e) {
                    Some(GameError::InvalidLocation)
                } else if self.player(player).roads_remaining == 0 {
                    Some(GameError::NoPiecesRemaining)
                } else {
                    None
                },
                GameAction::RollDice => if !turn {
                    Some(GameError::NotYourTurn)
                } else if !(self.phase is PreRoll) {
                    Some(GameError::InvalidPhase)
                } else {
                    None
                },
                GameAction::DiscardCards(cards) => match self.phase {
                    GamePhase::DiscardRequired { players_remaining } => if !players_remaining@.contains(
                        player,
                    ) {
                        Some(GameError::NotYourTurn)
                    } else if cards.total_spec() != self.player(player).resources.total_spec() / 2 {
                        Some(GameError::InvalidDiscard)
                    } else if !self.player(player).resources.covers(cards) {
                        Some(GameError::InvalidDiscard)
                    } else {
                        None
                    },
                    _ => Some(GameError::InvalidPhase),
                },
                GameAction::MoveRobber(h) => if !turn {
                    Some(GameError::NotYourTurn)
                } else if !(self.phase is RobberMoveRequired) {
                    Some(GameError::InvalidPhase)
                } else if !self.board.is_land_hex(h) || h == self.board.robber_spec() {
                    Some(GameError::InvalidLocation)
                } else {
                    None
                },
                GameAction::StealFrom(victim) => if !turn {
                    Some(GameError::NotYourTurn)
                } else {
                    match self.phase {
                        GamePhase::RobberSteal { victims, .. } => if !victims@.contains(victim) {
                            Some(GameError::InvalidLocation)
                        } else {
                            None
                        },
                        _ => Some(GameError::InvalidPhase),
                    }
                },
                GameAction::BuildRoad(e) => if !turn {
                    Some(GameError::NotYourTurn)
                } else if !main && !(self.phase is RoadBuildingInProgress) {
                    Some(GameError::InvalidPhase)
                } else if !self.board.road_ok(e, player) {
                    Some(GameError::InvalidLocation)
                } else if self.player(player).roads_remaining == 0 {
                    Some(GameError::NoPiecesRemaining)
                } else if main && !self.player(player).resources.covers(road_cost()) {
                    Some(GameError::CannotAfford)
                } else {
                    None
                },
                GameAction::BuildSettlement(v) => if !turn {
                    Some(GameError::NotYourTurn)
                } else if !main {
                    Some(GameError::InvalidPhase)
                } else if !self.board.settlement_ok(v, player, false) {
                    Some(GameError::InvalidLocation)
                } else if !(self.player(player).resources.covers(settlement_cost())
                    && self.player(player).settlements_remaining > 0) {
                    Some(GameError::CannotAfford)
                } else {
                    None
                },
                GameAction::BuildCity(v) => if !turn {
                    Some(GameError::NotYourTurn)
                } else if !main {
                    Some(GameError::InvalidPhase)
                } else if self.board.vertex_at(v) != VertexBuilding::Settlement(player) {
                    Some(GameError::InvalidLocation)
                } else if !(self.player(player).resources.covers(city_cost())
                    && self.player(player).cities_remaining > 0) {
                    Some(GameError::CannotAfford)
                } else {
                    None
                },
                GameAction::BuyDevelopmentCard => if !turn {
                    Some(GameError::NotYourTurn)
                } else if !main {
                    Some(GameError::InvalidPhase)
                } else if self.dev_card_deck@.len() == 0 {
                    Some(GameError::EmptyDeck)
                } else if !self.player(player).resources.covers(dev_card_cost()) {
                    Some(GameError::CannotAfford)
                } else {
                    None
                },
                GameAction::PlayKnight => if !turn {
                    Some(GameError::NotYourTurn)
                } else if self.dev_card_played_this_turn {
                    Some(GameError::InvalidPhase)
                } else if !main && !(self.phase is PreRoll) {
                    Some(GameError::InvalidPhase)
                } else if !self.player(player).dev_cards@.contains(DevelopmentCard::Knight) {
                    Some(GameError::NoSuchCard)
                } else {
                    None
                },
                GameAction::PlayRoadBuilding(_, _) => self.card_rejection(player, DevelopmentCard::RoadBuilding),
                GameAction::PlayYearOfPlenty(_, _) => self.card_rejection(player, DevelopmentCard::YearOfPlenty),
                GameAction::PlayMonopoly(_) => self.card_rejection(player, DevelopmentCard::Monopoly),
                GameAction::ProposeTrade(offer) => self.proposal_rejection(player, offer),
                GameAction::CounterTrade(offer) => self.counter_rejection(player, offer),
                GameAction::AcceptTrade => match self.pending_trade {
                    None => Some(GameError::NoActiveTrade),
                    Some(t) => if t.offer.to.is_some() && t.offer.to != Some(player) {
                        Some(GameError::NotYourTurn)
                    } else if player == t.offer.from {
                        Some(GameError::InvalidTrade)
                    } else if player >= self.players@.len() {
                        Some(GameError::NotYourTurn)
                    } else if !self.player(player).resources.covers(t.offer.requesting) {
                        Some(GameError::CannotAfford)
                    } else if !self.player(t.offer.from).resources.covers(t.offer.offering) {
                        Some(GameError::CannotAfford)
                    } else {
                        None
                    },
                },
                GameAction::RejectTrade => match self.pending_trade {
                    None => Some(GameError::NoActiveTrade),
                    Some(t) => if t.offer.to.is_some() && t.offer.to != Some(player) {
                        Some(GameError::NotYourTurn)
                    } else {
                        None
                    },
                },
                GameAction::CancelTrade => match self.pending_trade {
                    None => Some(GameError::NoActiveTrade),
                    Some(t) => if !side_of(t.offer, player) {
                        Some(GameError::NotYourTurn)
                    } else {
                        None
                    },
                },
                GameAction::MaritimeTrade { give, give_count, receive } => if !turn {
                    Some(GameError::NotYourTurn)
                } else if !main {
                    Some(GameError::InvalidPhase)
                } else if give_count != maritime_rate_spec(
                    give,
                    self.board.harbors_of(self.board.harbors_view(), player),
                ) {
                    Some(GameError::InvalidTrade)
                } else if self.player(player).resources.count(give) < give_count {
                    Some(GameError::CannotAfford)
                } else {
                    None
                },
                GameAction::EndTurn => if !turn {
                    Some(GameError::NotYourTurn)
                } else if !main {
                    Some(GameError::InvalidPhase)
                } else {
                    None
                },
            }
        }
    }

    /// Rejection of playing a Road Building, Year of Plenty or Monopoly card.
    pub open spec fn card_rejection(self, player: PlayerId, card: DevelopmentCard) -> Option<GameError> {
        if player != self.current_player {
            Some(GameError::NotYourTurn)
        } else if !(self.phase is MainPhase) {
            Some(GameError::InvalidPhase)
        } else if self.dev_card_played_this_turn {
            Some(GameError::InvalidPhase)
        } else if !self.player(player).dev_cards@.contains(card) {
            Some(GameError::NoSuchCard)
        } else {
            None
        }
    }

    /// Rejection of a counter-offer: it must be a valid offer from the counter-proposer,
    /// made in the main phase against a pending offer they may answer (or made), and one
    /// they can pay.
    pub open spec fn counter_rejection(self, player: PlayerId, offer: TradeOffer) -> Option<GameError> {
        if !offer.valid_spec() {
            Some(GameError::InvalidTrade)
        } else if !(self.phase is MainPhase) {
            Some(GameError::InvalidPhase)
        } else {
            match self.pending_trade {
                None => Some(GameError::NoActiveTrade),
                Some(t) => if !(player == t.offer.from || t.offer.to.is_none() || t.offer.to == Some(player)) {
                    Some(GameError::NotYourTurn)
                } else if player >= self.players@.len() {
                    Some(GameError::NotYourTurn)
                } else if offer.from != player {
                    Some(GameError::InvalidTrade)
                } else if !self.player(player).resources.covers(offer.offering) {
                    Some(GameError::CannotAfford)
                } else {
                    None
                },
            }
        }
    }

    /// Rejection of a trade proposal.
    pub open spec fn proposal_rejection(self, player: PlayerId, offer: TradeOffer) -> Option<GameError> {
        if player != self.current_player {
            Some(GameError::NotYourTurn)
        } else if !(self.phase is MainPhase) {
            Some(GameError::InvalidPhase)
        } else if !offer.valid_spec() || offer.from != player {
            Some(GameError::InvalidTrade)
        } else if !self.player(player).resources.covers(offer.offering) {
            Some(GameError::CannotAfford)
        } else {
            None
        }
    }

    /// `after` is this state with player `i` replaced by `p`, and nothing else changed.
    pub open spec fn only_player(self, after: GameState, i: PlayerId, p: Player) -> bool {
        after == (GameState { players: after.players, ..self }) && after.players@ == self.players@.update(i as int, p)
    }

    fn set_resources(&mut self, i: usize, h: ResourceHand)
        requires
            old(self).wf(),
            i < old(self).players@.len(),
        ensures
            final(self).wf(),
            old(self).only_player(*final(self), i as PlayerId, Player { resources: h, ..old(self).players@[i as int] }),
    {
        let ghost prev = self.players@;
        let mut p = self.take_player(i);
        p.resources = h;
        self.put_player(i, p);
        proof {
            lemma_remove_insert(prev, i as int, p);
            assert forall|j: int| 0 <= j < self.players@.len() implies player_ok(
                #[trigger] self.players@[j],
                self.dev_card_deck@.len(),
            ) && self.players@[j].id == j by {
                assert(player_ok(old(self).players@[j], old(self).dev_card_deck@.len()));
                assert(old(self).players@[j].id == j);
            }
        }
    }

    /// Maritime trade: `give_count` of `give` to the bank for one `receive`.
    fn do_maritime_trade(&mut self, player: PlayerId, give: Resource, give_count: u32, receive: Resource)
        -> (r: Result<Vec<GameEvent>, GameError>)
        requires
            old(self).wf(),
            !old(self).finished(),
        ensures
            r is Err <==> old(self).rejection(player, GameAction::MaritimeTrade { give, give_count, receive }).is_some(),
            r matches Err(e) ==> Some(e) == old(self).rejection(player, GameAction::MaritimeTrade { give, give_count, receive }) && *final(self) == *old(self),
            r is Ok ==> final(self).wf() && old(self).maritime_effect(*final(self), player, give, give_count, receive),
            r matches Ok(evs) ==> report_fits(*old(self), *final(self), player, GameAction::MaritimeTrade { give, give_count, receive }, evs@),
    {
        if player != self.current_player {
            return Err(GameError::NotYourTurn);
        }
        if !matches!(self.phase, GamePhase::MainPhase) {
            return Err(GameError::InvalidPhase);
        }
        let harbors = self.board.player_harbors(player);
        let required = self.get_maritime_rate(player, give, harbors.as_slice());
        if give_count != required {
            return Err(GameError::InvalidTrade);
        }
        let i = player as usize;
        let mut h = self.players[i].resources;
        if h.get(give) < give_count {
            return Err(GameError::CannotAfford);
        }
        let left = h.get(give) - give_count;
        h.set(give, left);
        credit(&mut h, receive, 1);
        self.set_resources(i, h);
        let mut events: Vec<GameEvent> = Vec::new();
        events.push(GameEvent::MaritimeTradeCompleted { player, gave: give, gave_count: give_count, received: receive });
        Ok(events)
    }
}

impl GameState {
    /// Ends the turn: the offer lapses, bought cards become playable, and the next seat
    /// starts in PreRoll.
    fn do_end_turn(&mut self, player: PlayerId) -> (r: Result<Vec<GameEvent>, GameError>)
        requires
            old(self).wf(),
            !old(self).finished(),
        ensures
            r is Err <==> old(self).rejection(player, GameAction::EndTurn).is_some(),
            r matches Err(e) ==> Some(e) == old(self).rejection(player, GameAction::EndTurn) && *final(self) == *old(self),
            r is Ok ==> final(self).wf() && old(self).end_turn_effect(*final(self), player),
            r matches Ok(evs) ==> report_fits(*old(self), *final(self), player, GameAction::EndTurn, evs@),
    {
        if player != self.current_player {
            return Err(GameError::NotYourTurn);
        }
        if !matches!(self.phase, GamePhase::MainPhase) {
            return Err(GameError::InvalidPhase);
        }
        self.pending_trade = None;
        let i = player as usize;
        let ghost prev = self.players@;
        let mut p = self.take_player(i);
        p.end_turn();
        self.put_player(i, p);
        proof {
            lemma_remove_insert(prev, i as int, p);
        }
        let n = self.players.len() as u8;
        let next_player = (self.current_player + 1) % n;
        self.current_player = next_player;
        if self.turn_number < u32::MAX {
            self.turn_number = self.turn_number + 1;
        }
        self.dice_roll = None;
        self.dev_card_played_this_turn = false;
        self.phase = GamePhase::PreRoll;
        proof {
            assert forall|j: int| 0 <= j < self.players@.len() implies player_ok(
                #[trigger] self.players@[j],
                self.dev_card_deck@.len(),
            ) && self.players@[j].id == j by {
                assert(player_ok(old(self).players@[j], old(self).dev_card_deck@.len()));
                assert(old(self).players@[j].id == j);
            }
        }
        let mut events: Vec<GameEvent> = Vec::new();
        events.push(GameEvent::TurnEnded { player, next_player });
        Ok(events)
    }

    /// Withdraws the pending offer.
    fn do_cancel_trade(&mut self, player: PlayerId) -> (r: Result<Vec<GameEvent>, GameError>)
        requires
            old(self).wf(),
            !old(self).finished(),
        ensures
            r is Err <==> old(self).rejection(player, GameAction::CancelTrade).is_some(),
            r matches Err(e) ==> Some(e) == old(self).rejection(player, GameAction::CancelTrade) && *final(self) == *old(self),
            r is Ok ==> final(self).wf() && old(self).cancel_effect(*final(self), player),
            r matches Ok(evs) ==> report_fits(*old(self), *final(self), player, GameAction::CancelTrade, evs@),
    {
        match &self.pending_trade {
            None => {
                return Err(GameError::NoActiveTrade);
            },
            Some(t) => {
                if !(player == t.offer.from || t.offer.to == Some(player)) {
                    return Err(GameError::NotYourTurn);
                }
            },
        }
        self.pending_trade = None;
        let mut events: Vec<GameEvent> = Vec::new();
        events.push(GameEvent::TradeCancelled);
        Ok(events)
    }

    /// Replaces the pending offer with the counter-proposer's `offer`.
    fn do_counter_trade(&mut self, player: PlayerId, offer: TradeOffer) -> (r: Result<Vec<GameEvent>, GameError>)
        requires
            old(self).wf(),
            !old(self).finished(),
        ensures
            r is Err <==> old(self).counter_rejection(player, offer).is_some(),
            r matches Err(e) ==> Some(e) == old(self).counter_rejection(player, offer) && *final(self) == *old(self),
            r is Ok ==> final(self).wf() && old(self).proposal_effect(*final(self), player, offer),
            r matches Ok(evs) ==> report_fits(*old(self), *final(self), player, GameAction::CounterTrade(offer), evs@),
    {
        if !offer.is_valid() {
            return Err(GameError::InvalidTrade);
        }
        if !matches!(self.phase, GamePhase::MainPhase) {
            return Err(GameError::InvalidPhase);
        }
        match &self.pending_trade {
            None => {
                return Err(GameError::NoActiveTrade);
            },
            Some(t) => {
                if !(player == t.offer.from || t.offer.to.is_none() || t.offer.to == Some(player)) {
                    return Err(GameError::NotYourTurn);
                }
            },
        }
        if (player as usize) >= self.players.len() {
            return Err(GameError::NotYourTurn);
        }
        if offer.from != player {
            return Err(GameError::InvalidTrade);
        }
        if !self.players[player as usize].resources.can_afford(&offer.offering) {
            return Err(GameError::CannotAfford);
        }
        self.pending_trade = Some(TradeState { offer, responses: Vec::new() });
        let mut events: Vec<GameEvent> = Vec::new();
        events.push(GameEvent::TradeProposed { offer });
        Ok(events)
    }

    /// Opens `offer` as the one pending offer, replacing any other.
    fn do_propose_trade(&mut self, player: PlayerId, offer: TradeOffer) -> (r: Result<Vec<GameEvent>, GameError>)
        requires
            old(self).wf(),
            !old(self).finished(),
        ensures
            r is Err <==> old(self).proposal_rejection(player, offer).is_some(),
            r matches Err(e) ==> Some(e) == old(self).proposal_rejection(player, offer) && *final(self) == *old(self),
            r is Ok ==> final(self).wf() && old(self).proposal_effect(*final(self), player, offer),
            r matches Ok(evs) ==> report_fits(*old(self), *final(self), player, GameAction::ProposeTrade(offer), evs@),
    {
        if player != self.current_player {
            return Err(GameError::NotYourTurn);
        }
        if !matches!(self.phase, GamePhase::MainPhase) {
            return Err(GameError::InvalidPhase);
        }
        if !offer.is_valid() || offer.from != player {
            return Err(GameError::InvalidTrade);
        }
        if !self.players[player as usize].resources.can_afford(&offer.offering) {
            return Err(GameError::CannotAfford);
        }
        self.pending_trade = Some(TradeState { offer, responses: Vec::new() });
        let mut events: Vec<GameEvent> = Vec::new();
        events.push(GameEvent::TradeProposed { offer });
        Ok(events)
    }

    /// Accepts the pending offer: both sides' cards change hands at once, and the offer
    /// closes.
    fn do_accept_trade(&mut self, player: PlayerId) -> (r: Result<Vec<GameEvent>, GameError>)
        requires
            old(self).wf(),
            !old(self).finished(),
        ensures
            r is Err <==> old(self).rejection(player, GameAction::AcceptTrade).is_some(),
            r matches Err(e) ==> Some(e) == old(self).rejection(player, GameAction::AcceptTrade) && *final(self) == *old(self),
            r is Ok ==> final(self).wf() && old(self).accept_effect(*final(self), player),
            r matches Ok(evs) ==> report_fits(*old(self), *final(self), player, GameAction::AcceptTrade, evs@),
    {
        let offer = match &self.pending_trade {
            None => {
                return Err(GameError::NoActiveTrade);
            },
            Some(t) => t.offer,
        };
        if offer.to.is_some() && offer.to != Some(player) {
            return Err(GameError::NotYourTurn);
        }
        if player == offer.from {
            return Err(GameError::InvalidTrade);
        }
        if (player as usize) >= self.players.len() {
            return Err(GameError::NotYourTurn);
        }
        let b = player as usize;
        let a = offer.from as usize;
        let mut hb = self.players[b].resources;
        let mut ha = self.players[a].resources;
        if !hb.can_afford(&offer.requesting) {
            return Err(GameError::CannotAfford);
        }
        if !ha.can_afford(&offer.offering) {
            return Err(GameError::CannotAfford);
        }
        ha.subtract(&offer.offering);
        credit_hand(&mut ha, &offer.requesting);
        hb.subtract(&offer.requesting);
        credit_hand(&mut hb, &offer.offering);
        self.set_resources(a, ha);
        self.set_resources(b, hb);
        self.pending_trade = None;
        let mut events: Vec<GameEvent> = Vec::new();
        events.push(GameEvent::TradeCompleted { player1: offer.from, player2: player });
        Ok(events)
    }

    /// Declines the pending offer; when it was addressed to `player` alone it closes.
    fn do_reject_trade(&mut self, player: PlayerId) -> (r: Result<Vec<GameEvent>, GameError>)
        requires
            old(self).wf(),
            !old(self).finished(),
        ensures
            r is Err <==> old(self).rejection(player, GameAction::RejectTrade).is_some(),
            r matches Err(e) ==> Some(e) == old(self).rejection(player, GameAction::RejectTrade) && *final(self) == *old(self),
            r is Ok ==> final(self).wf() && old(self).reject_effect(*final(self), player),
            r matches Ok(evs) ==> report_fits(*old(self), *final(self), player, GameAction::RejectTrade, evs@),
    {
        let addressed = match &self.pending_trade {
            None => {
                return Err(GameError::NoActiveTrade);
            },
            Some(t) => {
                if t.offer.to.is_some() && t.offer.to != Some(player) {
                    return Err(GameError::NotYourTurn);
                }
                t.offer.to == Some(player)
            },
        };
        let mut events: Vec<GameEvent> = Vec::new();
        if addressed {
            self.pending_trade = None;
            events.push(GameEvent::TradeCancelled);
        } else {
            let t = self.pending_trade.take();
            match t {
                Some(mut t) => {
                    t.responses.push((player, TradeResponse::Rejected));
                    self.pending_trade = Some(t);
                },
                None => {},
            }
        }
        Ok(events)
    }
}

/// `ps` with each player credited with what `b` produces for them on a roll of `total`.
pub open spec fn after_production(ps: Seq<Player>, b: Board, total: u8) -> Seq<Player> {
    Seq::new(
        ps.len(),
        |i: int| Player { resources: credited_hand(ps[i].resources, b.production(total, i as PlayerId)), ..ps[i] },
    )
}

/// `v` without the occurrences of `x`.
fn without_player(v: &Vec<PlayerId>, x: PlayerId) -> (out: Vec<PlayerId>)
    ensures
        out@ == without(v@, x),
{
    let mut out: Vec<PlayerId> = Vec::new();
    let mut i: usize = 0;
    while i < v.len()
        invariant
            0 <= i <= v@.len(),
            out@ == without(v@.subrange(0, i as int), x),
        decreases v@.len() - i,
    {
        proof {
            let sub = v@.subrange(0, i + 1);
            assert(sub.drop_last() =~= v@.subrange(0, i as int));
            assert(sub.last() == v@[i as int]);
            reveal(Seq::filter);
        }
        if v[i] != x {
            out.push(v[i]);
        }
        i = i + 1;
    }
    assert(v@.subrange(0, v@.len() as int) =~= v@);
    out
}

impl GameState {
    /// Discards `cards` during the discard interlude: exactly half the hand, rounded
    /// down, taken from what the player holds. Once nobody is left to discard, the
    /// robber must move.
    fn do_discard(&mut self, player: PlayerId, cards: ResourceHand) -> (r: Result<Vec<GameEvent>, GameError>)
        requires
            old(self).wf(),
            !old(self).finished(),
        ensures
            r is Err <==> old(self).rejection(player, GameAction::DiscardCards(cards)).is_some(),
            r matches Err(e) ==> Some(e) == old(self).rejection(player, GameAction::DiscardCards(cards)) && *final(self) == *old(self),
            r is Ok ==> final(self).wf() && old(self).discard_effect(*final(self), player, cards),
            r matches Ok(evs) ==> report_fits(*old(self), *final(self), player, GameAction::DiscardCards(cards), evs@),
    {
        let required = match &self.phase {
            GamePhase::DiscardRequired { players_remaining } => {
                if !contains_player(players_remaining, player) {
                    return Err(GameError::NotYourTurn);
                }
                proof {
                    let j = choose|j: int| 0 <= j < players_remaining@.len() && players_remaining@[j] == player;
                }
                let held = cards_in(&self.players[player as usize].resources);
                let required = held / 2;
                if cards_in(&cards) != required {
                    return Err(GameError::InvalidDiscard);
                }
                if !self.players[player as usize].resources.can_afford(&cards) {
                    return Err(GameError::InvalidDiscard);
                }
                required
            },
            _ => {
                return Err(GameError::InvalidPhase);
            },
        };
        let i = player as usize;
        let mut h = self.players[i].resources;
        h.subtract(&cards);
        self.set_resources(i, h);
        let mut events: Vec<GameEvent> = Vec::new();
        events.push(GameEvent::CardsDiscarded { player, count: required as u32 });
        let rest = match &self.phase {
            GamePhase::DiscardRequired { players_remaining } => without_player(players_remaining, player),
            _ => Vec::new(),
        };
        self.phase = GamePhase::RobberMoveRequired;
        if rest.len() > 0 {
            proof {
                if let GamePhase::DiscardRequired { players_remaining } = old(self).phase {
                    assert forall|k: int| 0 <= k < rest@.len() implies rest@[k] < self.players@.len() by {
                        assert(without(players_remaining@, player).contains(rest@[k]));
                        players_remaining@.lemma_filter_contains_rev(other_than(player), rest@[k]);
                    }
                }
            }
            self.phase = GamePhase::DiscardRequired { players_remaining: rest };
        }
        Ok(events)
    }

    /// Carries out a roll of `die1` and `die2` by the current player in PreRoll. A 7
    /// sends everyone with more than 7 cards to discard (in seat order), or, if nobody
    /// has, straight to moving the robber. Any other total pays every player what the
    /// board produces for them, and play moves to the main phase.
    pub fn apply_dice_roll(&mut self, player: PlayerId, die1: u8, die2: u8) -> (events: Vec<GameEvent>)
        requires
            old(self).wf(),
            old(self).phase is PreRoll,
            player == old(self).current_player,
            1 <= die1 <= 6,
            1 <= die2 <= 6,
        ensures
            final(self).wf(),
            old(self).dice_effect(*final(self), die1, die2),
            events@.len() > 0,
            events@[0] == (GameEvent::DiceRolled { player, roll: (die1, die2), total: (die1 + die2) as u8 }),
    {
        let total = die1 + die2;
        self.dice_roll = Some((die1, die2));
        let mut events: Vec<GameEvent> = Vec::new();
        events.push(GameEvent::DiceRolled { player, roll: (die1, die2), total });
        if total == 7 {
            let mut must: Vec<PlayerId> = Vec::new();
            let mut i: usize = 0;
            while i < self.players.len()
                invariant
                    0 <= i <= self.players@.len() <= 4,
                    must@ == over_seven(self.players@, i as int),
                    forall|k: int| 0 <= k < must@.len() ==> must@[k] < i,
                decreases self.players@.len() - i,
            {
                if cards_in(&self.players[i].resources) > 7 {
                    must.push(i as PlayerId);
                }
                i = i + 1;
            }
            if must.len() > 0 {
                self.phase = GamePhase::DiscardRequired { players_remaining: must };
            } else {
                self.phase = GamePhase::RobberMoveRequired;
            }
        } else {
            let n = self.players.len();
            let mut dist: Vec<(PlayerId, Resource, u32)> = Vec::new();
            let mut i: usize = 0;
            while i < n
                invariant
                    n == self.players@.len() == old(self).players@.len(),
                    0 <= i <= n,
                    self.wf(),
                    self.board == old(self).board,
                    *self == (GameState { players: self.players, dice_roll: Some((die1, die2)), ..*old(self) }),
                    forall|j: int| 0 <= j < i ==> self.players@[j] == after_production(old(self).players@, old(self).board, total)[j],
                    forall|j: int| i <= j < n ==> self.players@[j] == old(self).players@[j],
                decreases n - i,
            {
                let got = self.board.production_for(total, i as PlayerId);
                let mut h = self.players[i].resources;
                credit_hand(&mut h, &got);
                self.set_resources(i, h);
                let pairs = got.to_map();
                let mut k: usize = 0;
                while k < pairs.len()
                    invariant
                        0 <= k <= pairs@.len(),
                    decreases pairs@.len() - k,
                {
                    dist.push((i as PlayerId, pairs[k].0, pairs[k].1));
                    k = k + 1;
                }
                i = i + 1;
            }
            proof {
                assert(self.players@ =~= after_production(old(self).players@, old(self).board, total));
            }
            if dist.len() > 0 {
                events.push(GameEvent::ResourcesDistributed { distributions: dist });
            }
            self.phase = GamePhase::MainPhase;
        }
        events
    }

    /// Rolls two dice for the current player in PreRoll and carries out the roll.
    fn do_roll_dice(&mut self, player: PlayerId) -> (r: Result<Vec<GameEvent>, GameError>)
        requires
            old(self).wf(),
            !old(self).finished(),
        ensures
            r is Err <==> old(self).rejection(player, GameAction::RollDice).is_some(),
            r matches Err(e) ==> Some(e) == old(self).rejection(player, GameAction::RollDice) && *final(self) == *old(self),
            r is Ok ==> final(self).wf() && old(self).roll_effect(*final(self), player),
            r matches Ok(evs) ==> report_fits(*old(self), *final(self), player, GameAction::RollDice, evs@),
    {
        if player != self.current_player {
            return Err(GameError::NotYourTurn);
        }
        if !matches!(self.phase, GamePhase::PreRoll) {
            return Err(GameError::InvalidPhase);
        }
        let die1 = (random_below(6) + 1) as u8;
        let die2 = (random_below(6) + 1) as u8;
        Ok(self.apply_dice_roll(player, die1, die2))
    }
}

impl GameState {
    /// The victims the robber on `hex` offers to `player`: other seated players who
    /// build on a corner of that tile and hold at least one card.
    pub open spec fn robber_victim(self, player: PlayerId, hex: crate::hex::HexCoord, q: PlayerId) -> bool {
        q < self.players@.len() && q != player && self.board.owns_corner_of(hex, q)
            && self.player(q).resources.total_spec() > 0
    }

    /// Moves one card, chosen at random among the victim's cards, to the thief.
    fn steal_from_player(&mut self, thief: PlayerId, victim: PlayerId) -> (events: Vec<GameEvent>)
        requires
            old(self).wf(),
            thief < old(self).players@.len(),
            victim < old(self).players@.len(),
            thief != victim,
        ensures
            final(self).wf(),
            *final(self) == (GameState { players: final(self).players, ..*old(self) }),
            stolen(old(self).players@, final(self).players@, thief, victim),
            events@.len() == 1,
            events@[0] matches GameEvent::ResourceStolen { thief: t, victim: v, .. } && t == thief && v == victim,
    {
        let mut hv = self.players[victim as usize].resources;
        let got = hv.steal_random();
        match got {
            Some(r) => {
                let mut ht = self.players[thief as usize].resources;
                credit(&mut ht, r, 1);
                self.set_resources(victim as usize, hv);
                self.set_resources(thief as usize, ht);
            },
            None => {},
        }
        let mut events: Vec<GameEvent> = Vec::new();
        events.push(GameEvent::ResourceStolen { thief, victim, resource: got });
        events
    }

    /// Moves the robber to `hex`. With no victim play goes on; with one, a card is
    /// stolen from them at once; with several, the player picks one next.
    fn do_move_robber(&mut self, player: PlayerId, hex: crate::hex::HexCoord) -> (r: Result<Vec<GameEvent>, GameError>)
        requires
            old(self).wf(),
            !old(self).finished(),
        ensures
            r is Err <==> old(self).rejection(player, GameAction::MoveRobber(hex)).is_some(),
            r matches Err(e) ==> Some(e) == old(self).rejection(player, GameAction::MoveRobber(hex)) && *final(self) == *old(self),
            r is Ok ==> final(self).wf() && old(self).robber_effect(*final(self), player, hex),
            r matches Ok(evs) ==> report_fits(*old(self), *final(self), player, GameAction::MoveRobber(hex), evs@),
    {
        if player != self.current_player {
            return Err(GameError::NotYourTurn);
        }
        if !matches!(self.phase, GamePhase::RobberMoveRequired) {
            return Err(GameError::InvalidPhase);
        }
        let on_land = match self.board.get_tile(&hex) {
            Some(t) => t.tile_type != TileType::Ocean,
            None => false,
        };
        if !on_land || hex == self.board.robber_location() {
            return Err(GameError::InvalidLocation);
        }
        proof {
            self.board.lemma_tile_in_range(hex);
        }
        let old_location = self.board.robber_location();
        self.board.move_robber(hex);
        let mut events: Vec<GameEvent> = Vec::new();
        events.push(GameEvent::RobberMoved { player, from: old_location, to: hex });
        proof {
            self.board.lemma_moved_keeps_tiles(old(self).board, hex);
        }
        let adj = self.board.players_adjacent_to_hex(&hex);
        let mut victims: Vec<PlayerId> = Vec::new();
        let mut k: usize = 0;
        while k < adj.len()
            invariant
                self.wf(),
                0 <= k <= adj@.len(),
                adj@.no_duplicates(),
                self.players == old(self).players,
                self.board.vertices_view() == old(self).board.vertices_view(),
                forall|q: PlayerId| adj@.contains(q) <==> (self.board.has_tile(hex) && self.board.owns_corner_of(hex, q)),
                self.board.has_tile(hex),
                victims@.no_duplicates(),
                forall|q: PlayerId| victims@.contains(q) <==> (adj@.subrange(0, k as int).contains(q) && old(self).robber_victim(player, hex, q)),
            decreases adj@.len() - k,
        {
            let q = adj[k];
            let ghost prev = victims@;
            if q != player && (q as usize) < self.players.len() && cards_in(&self.players[q as usize].resources) > 0 {
                victims.push(q);
            }
            proof {
                let pre = adj@.subrange(0, k as int);
                assert(adj@.subrange(0, k + 1) =~= pre.push(q));
                assert(!pre.contains(q)) by {
                    if pre.contains(q) {
                        let j = choose|j: int| 0 <= j < pre.len() && pre[j] == q;
                        assert(adj@[j] == adj@[k as int]);
                    }
                }
                assert(adj@.contains(q));
                assert(self.board.owns_corner_of(hex, q) == old(self).board.owns_corner_of(hex, q));
                assert(!prev.contains(q));
                assert forall|x: PlayerId| victims@.contains(x) <==> (adj@.subrange(0, k + 1).contains(x) && old(self).robber_victim(player, hex, x)) by {
                    crate::hex::lemma_push_contains(pre, q, x);
                    crate::hex::lemma_push_contains(prev, q, x);
                }
            }
            k = k + 1;
        }
        proof {
            assert(adj@.subrange(0, adj@.len() as int) =~= adj@);
        }
        proof {
            assert forall|q: PlayerId| adj@.contains(q) <==> (old(self).board.has_tile(hex) && old(self).board.owns_corner_of(hex, q)) by {
            }
        }
        if victims.len() == 0 {
            proof {
                assert forall|q: PlayerId| !old(self).robber_victim(player, hex, q) by {
                    if old(self).robber_victim(player, hex, q) {
                        assert(adj@.contains(q));
                        assert(victims@.contains(q));
                    }
                }
            }
            self.phase = GamePhase::MainPhase;
        } else if victims.len() == 1 {
            let victim = victims[0];
            proof {
                assert(victims@.contains(victim));
                assert forall|o: PlayerId| old(self).robber_victim(player, hex, o) implies o == victim by {
                    assert(victims@.contains(o));
                    let j = choose|j: int| 0 <= j < victims@.len() && victims@[j] == o;
                }
            }
            let mut more = self.steal_from_player(player, victim);
            self.phase = GamePhase::MainPhase;
            proof {
                assert(old(self).robber_victim(player, hex, victim));
            }
            events.append(&mut more);
        } else {
            proof {
                assert forall|i: int| 0 <= i < victims@.len() implies victims@[i] < self.players@.len() by {
                    assert(victims@.contains(victims@[i]));
                }
            }
            self.phase = GamePhase::RobberSteal { target_hex: hex, victims };
        }
        Ok(events)
    }

    /// Steals from the chosen victim, then play goes on.
    fn do_steal(&mut self, player: PlayerId, victim: PlayerId) -> (r: Result<Vec<GameEvent>, GameError>)
        requires
            old(self).wf(),
            !old(self).finished(),
        ensures
            r is Err <==> old(self).rejection(player, GameAction::StealFrom(victim)).is_some(),
            r matches Err(e) ==> Some(e) == old(self).rejection(player, GameAction::StealFrom(victim)) && *final(self) == *old(self),
            r is Ok ==> final(self).wf() && old(self).steal_effect(*final(self), player, victim),
            r matches Ok(evs) ==> report_fits(*old(self), *final(self), player, GameAction::StealFrom(victim), evs@),
    {
        if player != self.current_player {
            return Err(GameError::NotYourTurn);
        }
        match &self.phase {
            GamePhase::RobberSteal { victims, .. } => {
                if !contains_player(victims, victim) {
                    return Err(GameError::InvalidLocation);
                }
                proof {
                    let j = choose|j: int| 0 <= j < victims@.len() && victims@[j] == victim;
                }
            },
            _ => {
                return Err(GameError::InvalidPhase);
            },
        }
        let events = if victim != player {
            self.steal_from_player(player, victim)
        } else {
            let mut none: Vec<GameEvent> = Vec::new();
            none.push(GameEvent::ResourceStolen { thief: player, victim, resource: None });
            none
        };
        self.phase = GamePhase::MainPhase;
        Ok(events)
    }
}

/// Settlements placed by the first `n` players, counted from their pieces.
fn count_placements(ps: &Vec<Player>) -> (n: u8)
    requires
        ps@.len() <= 4,
    ensures
        n == placements(ps@, ps@.len() as int),
{
    let mut total: u8 = 0;
    let mut i: usize = 0;
    while i < ps.len()
        invariant
            0 <= i <= ps@.len() <= 4,
            total == placements(ps@, i as int),
            0 <= placements(ps@, i as int) <= 5 * i,
        decreases ps@.len() - i,
    {
        let left = ps[i].settlements_remaining;
        if left <= 5 {
            total = total + (5 - left) as u8;
        }
        i = i + 1;
    }
    total
}

/// The players after `p` is credited one card per resource tile in `ts`.
fn grant_tiles(h: &mut ResourceHand, ts: &Vec<crate::board::Tile>)
    ensures
        *final(h) == granted(*old(h), ts@),
{
    let mut k: usize = 0;
    while k < ts.len()
        invariant
            0 <= k <= ts@.len(),
            *h == granted(*old(h), ts@.subrange(0, k as int)),
        decreases ts@.len() - k,
    {
        proof {
            let sub = ts@.subrange(0, k + 1);
            assert(sub.drop_last() =~= ts@.subrange(0, k as int));
            assert(sub.last() == ts@[k as int]);
        }
        match ts[k].resource() {
            Some(r) => credit(h, r, 1),
            None => {},
        }
        k = k + 1;
    }
    assert(ts@.subrange(0, ts@.len() as int) =~= ts@);
}

impl GameState {
    /// Places a setup settlement; in the second round it also pays one card per
    /// adjacent resource tile. The same player then places a road.
    fn do_place_initial_settlement(&mut self, player: PlayerId, vertex: VertexCoord) -> (r: Result<Vec<GameEvent>, GameError>)
        requires
            old(self).wf(),
            !old(self).finished(),
        ensures
            r is Err <==> old(self).rejection(player, GameAction::PlaceInitialSettlement(vertex)).is_some(),
            r matches Err(e) ==> Some(e) == old(self).rejection(player, GameAction::PlaceInitialSettlement(vertex)) && *final(self) == *old(self),
            r is Ok ==> final(self).wf() && old(self).setup_settlement_effect(*final(self), player, vertex),
            r matches Ok(evs) ==> report_fits(*old(self), *final(self), player, GameAction::PlaceInitialSettlement(vertex), evs@),
    {
        if player != self.current_player {
            return Err(GameError::NotYourTurn);
        }
        let round = match &self.phase {
            GamePhase::Setup { round, placing: SetupPlacing::Settlement } => *round,
            _ => {
                return Err(GameError::InvalidPhase);
            },
        };
        let spots = self.board.valid_settlement_spots(player, true);
        if !crate::hex::contains_vertex(&spots, vertex) {
            return Err(GameError::InvalidLocation);
        }
        let i = player as usize;
        if self.players[i].settlements_remaining == 0 {
            return Err(GameError::NoPiecesRemaining);
        }
        proof {
            let j = choose|j: int|
                0 <= j < self.board.tiles_view().len() && self.board.tiles_view()[j].tile_type != TileType::Ocean
                    && crate::board::among6(crate::hex::hex_vertices_spec(self.board.tiles_view()[j].coord), vertex);
            assert(self.board.tiles_view()[j].coord.on_board_scale());
        }
        let around = self.board.tiles_at_vertex(&vertex);
        self.board.place_settlement(vertex, player);
        let ghost prev = self.players@;
        let mut p = self.take_player(i);
        p.settlements_remaining = p.settlements_remaining - 1;
        if round == 2 {
            grant_tiles(&mut p.resources, &around);
        }
        self.put_player(i, p);
        proof {
            lemma_remove_insert(prev, i as int, p);
        }
        self.setup_settlement = Some(vertex);
        self.phase = GamePhase::Setup { round, placing: SetupPlacing::Road };
        proof {
            assert forall|j: int| 0 <= j < self.players@.len() implies player_ok(
                #[trigger] self.players@[j],
                self.dev_card_deck@.len(),
            ) && self.players@[j].id == j by {
                assert(player_ok(old(self).players@[j], old(self).dev_card_deck@.len()));
                assert(old(self).players@[j].id == j);
            }
        }
        let mut events: Vec<GameEvent> = Vec::new();
        events.push(GameEvent::SettlementBuilt { player, location: vertex });
        Ok(events)
    }

    /// Places the road next to the settlement just placed, then moves setup on in snake
    /// order (see `setup_next`).
    fn do_place_initial_road(&mut self, player: PlayerId, edge: EdgeCoord) -> (r: Result<Vec<GameEvent>, GameError>)
        requires
            old(self).wf(),
            !old(self).finished(),
        ensures
            r is Err <==> old(self).rejection(player, GameAction::PlaceInitialRoad(edge)).is_some(),
            r matches Err(e) ==> Some(e) == old(self).rejection(player, GameAction::PlaceInitialRoad(edge)) && *final(self) == *old(self),
            r is Ok ==> final(self).wf() && old(self).setup_road_effect(*final(self), player, edge),
            r matches Ok(evs) ==> report_fits(*old(self), *final(self), player, GameAction::PlaceInitialRoad(edge), evs@),
    {
        if player != self.current_player {
            return Err(GameError::NotYourTurn);
        }
        let round = match &self.phase {
            GamePhase::Setup { round, placing: SetupPlacing::Road } => *round,
            _ => {
                return Err(GameError::InvalidPhase);
            },
        };
        let settlement = match self.setup_settlement {
            Some(v) => v,
            None => {
                return Err(GameError::InvalidPhase);
            },
        };
        let around = settlement.touching_edges();
        if !(around[0] == edge || around[1] == edge || around[2] == edge) {
            proof {
                assert(!vertex_edges_spec(settlement).contains(edge)) by {
                    if vertex_edges_spec(settlement).contains(edge) {
                        let j = choose|j: int| 0 <= j < 3 && vertex_edges_spec(settlement)[j] == edge;
                    }
                }
            }
            return Err(GameError::InvalidLocation);
        }
        proof {
            assert(vertex_edges_spec(settlement).contains(edge)) by {
                if around[0] == edge {
                    assert(around@[0] == edge);
                } else if around[1] == edge {
                    assert(around@[1] == edge);
                } else {
                    assert(around@[2] == edge);
                }
            }
            lemma_canonical_edge_idempotent(edge);
            if settlement.direction == crate::hex::VertexDirection::North {
                lemma_canonical_edge_idempotent(crate::hex::edg(settlement.hex, crate::hex::EdgeDirection::NorthWest));
                lemma_canonical_edge_idempotent(crate::hex::edg(settlement.hex, crate::hex::EdgeDirection::NorthEast));
                lemma_canonical_edge_idempotent(crate::hex::edg(crate::hex::offset(settlement.hex, 0, -1), crate::hex::EdgeDirection::East));
            } else {
                lemma_canonical_edge_idempotent(crate::hex::edg(settlement.hex, crate::hex::EdgeDirection::SouthWest));
                lemma_canonical_edge_idempotent(crate::hex::edg(settlement.hex, crate::hex::EdgeDirection::SouthEast));
                lemma_canonical_edge_idempotent(crate::hex::edg(crate::hex::offset(settlement.hex, -1, 1), crate::hex::EdgeDirection::East));
            }
        }
        if !self.board.is_land_edge(&edge) {
            return Err(GameError::InvalidLocation);
        }
        let i = player as usize;
        if self.players[i].roads_remaining == 0 {
            return Err(GameError::NoPiecesRemaining);
        }
        self.board.place_road(edge, player);
        let ghost prev = self.players@;
        let mut p = self.take_player(i);
        p.roads_remaining = p.roads_remaining - 1;
        self.put_player(i, p);
        proof {
            lemma_remove_insert(prev, i as int, p);
            assert forall|j: int| 0 <= j < self.players@.len() implies player_ok(
                #[trigger] self.players@[j],
                self.dev_card_deck@.len(),
            ) && self.players@[j].id == j by {
                assert(player_ok(old(self).players@[j], old(self).dev_card_deck@.len()));
                assert(old(self).players@[j].id == j);
            }
        }
        self.setup_settlement = None;
        let mut events: Vec<GameEvent> = Vec::new();
        events.push(GameEvent::RoadBuilt { player, location: edge });
        self.advance_setup_phase(round);
        Ok(events)
    }

    /// Moves setup on after a road (see `setup_next`).
    fn advance_setup_phase(&mut self, round: u8)
        requires
            old(self).wf(),
            round == 1 || round == 2,
        ensures
            final(self).wf(),
            ({
                let next = setup_next(old(self).players@, old(self).current_player, round, old(self).turn_number);
                *final(self) == (GameState {
                    current_player: next.0,
                    phase: next.1,
                    turn_number: next.2,
                    ..*old(self)
                })
            }),
    {
        let n = self.players.len() as u8;
        let done = count_placements(&self.players);
        if done >= n * 2 {
            self.phase = GamePhase::PreRoll;
            self.turn_number = 1;
        } else if round == 1 && done >= n {
            self.phase = GamePhase::Setup { round: 2, placing: SetupPlacing::Settlement };
        } else if round == 1 {
            self.current_player = (self.current_player + 1) % n;
            self.phase = GamePhase::Setup { round: 1, placing: SetupPlacing::Settlement };
        } else {
            self.current_player = if self.current_player == 0 {
                n - 1
            } else {
                self.current_player - 1
            };
            self.phase = GamePhase::Setup { round: 2, placing: SetupPlacing::Settlement };
        }
    }
}

/// Longest Road flags after re-evaluation with road lengths `ls`.
pub open spec fn road_flags_after(ps: Seq<Player>, ls: Seq<u32>) -> Seq<Player> {
    let cur = road_holder(ps, ps.len() as int);
    let new = road_award(ls, cur);
    if new == cur {
        ps
    } else {
        with_road_holder(ps, new)
    }
}

/// Largest Army flags after re-evaluation.
pub open spec fn army_flags_after(ps: Seq<Player>) -> Seq<Player> {
    let cur = army_holder(ps, ps.len() as int);
    let leader = army_leader(knights_of(ps));
    if leader.is_some() && leader != cur {
        with_army_holder(ps, leader)
    } else {
        ps
    }
}

/// `after` is `before` having played its first card of kind `card` (a Knight also
/// counts towards the army).
pub open spec fn card_played(before: Player, after: Player, card: DevelopmentCard) -> bool {
    &&& exists|k: int|
        0 <= k < before.dev_cards@.len() && before.dev_cards@[k] == card && (forall|j: int|
            0 <= j < k ==> before.dev_cards@[j] != card) && after.dev_cards@ == before.dev_cards@.remove(k)
    &&& after == (Player {
        dev_cards: after.dev_cards,
        played_knights: if card == DevelopmentCard::Knight {
            (before.played_knights + 1) as u32
        } else {
            before.played_knights
        },
        ..before
    })
}

/// Cards of `r` held by the first `n` players other than `p`.
pub open spec fn others_holding(ps: Seq<Player>, p: PlayerId, r: Resource, n: int) -> int
    decreases n,
{
    if n <= 0 {
        0
    } else {
        others_holding(ps, p, r, n - 1) + if n - 1 == p {
            0
        } else {
            ps[n - 1].resources.count(r) as int
        }
    }
}

impl GameState {
    /// The phase after checking for a winner, from `otherwise`.
    pub open spec fn won_or(self, otherwise: GamePhase) -> GamePhase {
        match self.winner_among(self.players@.len() as int) {
            Some(w) => GamePhase::Finished { winner: w },
            None => otherwise,
        }
    }

    /// Builds a road: paid for in the main phase, free while a Road Building card is
    /// active (which then counts down). Longest Road is re-evaluated.
    #[verifier::rlimit(80)]
    fn do_build_road(&mut self, player: PlayerId, edge: EdgeCoord) -> (r: Result<Vec<GameEvent>, GameError>)
        requires
            old(self).wf(),
            !old(self).finished(),
        ensures
            r is Err <==> old(self).rejection(player, GameAction::BuildRoad(edge)).is_some(),
            r matches Err(e) ==> Some(e) == old(self).rejection(player, GameAction::BuildRoad(edge)) && *final(self) == *old(self),
            r is Ok ==> final(self).wf() && old(self).road_effect(*final(self), player, edge),
            r matches Ok(evs) ==> report_fits(*old(self), *final(self), player, GameAction::BuildRoad(edge), evs@),
    {
        if player != self.current_player {
            return Err(GameError::NotYourTurn);
        }
        let is_road_building = matches!(self.phase, GamePhase::RoadBuildingInProgress { .. });
        if !is_road_building && !matches!(self.phase, GamePhase::MainPhase) {
            return Err(GameError::InvalidPhase);
        }
        let spots = self.board.valid_road_spots(player);
        if !crate::hex::contains_edge(&spots, edge) {
            return Err(GameError::InvalidLocation);
        }
        let i = player as usize;
        if self.players[i].roads_remaining == 0 {
            return Err(GameError::NoPiecesRemaining);
        }
        if !is_road_building && !self.players[i].can_afford_road() {
            return Err(GameError::CannotAfford);
        }
        proof {
            let j = choose|j: int|
                0 <= j < self.board.tiles_view().len() && self.board.tiles_view()[j].tile_type != TileType::Ocean
                    && crate::board::among6(crate::hex::hex_edges_spec(self.board.tiles_view()[j].coord), edge);
            assert(self.board.tiles_view()[j].coord.on_board_scale());
            let c = self.board.tiles_view()[j].coord;
            lemma_canonical_edge_idempotent(crate::hex::edg(c, crate::hex::EdgeDirection::NorthEast));
            lemma_canonical_edge_idempotent(crate::hex::edg(c, crate::hex::EdgeDirection::East));
            lemma_canonical_edge_idempotent(crate::hex::edg(c, crate::hex::EdgeDirection::SouthEast));
            lemma_canonical_edge_idempotent(crate::hex::edg(c, crate::hex::EdgeDirection::SouthWest));
            lemma_canonical_edge_idempotent(crate::hex::edg(c, crate::hex::EdgeDirection::West));
            lemma_canonical_edge_idempotent(crate::hex::edg(c, crate::hex::EdgeDirection::NorthWest));
        }
        let ghost prev = self.players@;
        let mut p = self.take_player(i);
        if !is_road_building {
            p.buy_road();
        } else {
            p.roads_remaining = p.roads_remaining - 1;
        }
        self.put_player(i, p);
        proof {
            lemma_remove_insert(prev, i as int, p);
            assert forall|j: int| 0 <= j < self.players@.len() implies player_ok(
                #[trigger] self.players@[j],
                self.dev_card_deck@.len(),
            ) && self.players@[j].id == j by {
                assert(player_ok(old(self).players@[j], old(self).dev_card_deck@.len()));
                assert(old(self).players@[j].id == j);
            }
        }
        self.board.place_road(edge, player);
        let mut events: Vec<GameEvent> = Vec::new();
        events.push(GameEvent::RoadBuilt { player, location: edge });
        let mut more = self.check_longest_road();
        events.append(&mut more);
        let next = match &self.phase {
            GamePhase::RoadBuildingInProgress { roads_remaining } => {
                if *roads_remaining == 1 {
                    GamePhase::MainPhase
                } else {
                    GamePhase::RoadBuildingInProgress { roads_remaining: *roads_remaining - 1 }
                }
            },
            _ => GamePhase::MainPhase,
        };
        self.phase = next;
        Ok(events)
    }

    /// Builds a settlement in the main phase, then re-evaluates Longest Road (the new
    /// building may cut an opponent's road) and checks for a winner.
    #[verifier::rlimit(60)]
    fn do_build_settlement(&mut self, player: PlayerId, vertex: VertexCoord) -> (r: Result<Vec<GameEvent>, GameError>)
        requires
            old(self).wf(),
            !old(self).finished(),
        ensures
            r is Err <==> old(self).rejection(player, GameAction::BuildSettlement(vertex)).is_some(),
            r matches Err(e) ==> Some(e) == old(self).rejection(player, GameAction::BuildSettlement(vertex)) && *final(self) == *old(self),
            r is Ok ==> final(self).wf() && old(self).settlement_effect(*final(self), player, vertex),
            r matches Ok(evs) ==> report_fits(*old(self), *final(self), player, GameAction::BuildSettlement(vertex), evs@),
    {
        if player != self.current_player {
            return Err(GameError::NotYourTurn);
        }
        if !matches!(self.phase, GamePhase::MainPhase) {
            return Err(GameError::InvalidPhase);
        }
        let spots = self.board.valid_settlement_spots(player, false);
        if !crate::hex::contains_vertex(&spots, vertex) {
            return Err(GameError::InvalidLocation);
        }
        let i = player as usize;
        if !self.players[i].can_afford_settlement() {
            return Err(GameError::CannotAfford);
        }
        proof {
            let j = choose|j: int|
                0 <= j < self.board.tiles_view().len() && self.board.tiles_view()[j].tile_type != TileType::Ocean
                    && crate::board::among6(crate::hex::hex_vertices_spec(self.board.tiles_view()[j].coord), vertex);
            assert(self.board.tiles_view()[j].coord.on_board_scale());
        }
        let ghost prev = self.players@;
        let mut p = self.take_player(i);
        p.buy_settlement();
        self.put_player(i, p);
        proof {
            lemma_remove_insert(prev, i as int, p);
            assert forall|j: int| 0 <= j < self.players@.len() implies player_ok(
                #[trigger] self.players@[j],
                self.dev_card_deck@.len(),
            ) && self.players@[j].id == j by {
                assert(player_ok(old(self).players@[j], old(self).dev_card_deck@.len()));
                assert(old(self).players@[j].id == j);
            }
        }
        self.board.place_settlement(vertex, player);
        let mut events: Vec<GameEvent> = Vec::new();
        events.push(GameEvent::SettlementBuilt { player, location: vertex });
        let mut more = self.check_longest_road();
        events.append(&mut more);
        let ghost pre = *self;
        let mut won = self.check_win_condition();
        proof {
            pre.lemma_winner_same(*self, self.players@.len() as int);
        }
        events.append(&mut won);
        Ok(events)
    }

    /// Upgrades one of the player's settlements to a city, then checks for a winner.
    fn do_build_city(&mut self, player: PlayerId, vertex: VertexCoord) -> (r: Result<Vec<GameEvent>, GameError>)
        requires
            old(self).wf(),
            !old(self).finished(),
        ensures
            r is Err <==> old(self).rejection(player, GameAction::BuildCity(vertex)).is_some(),
            r matches Err(e) ==> Some(e) == old(self).rejection(player, GameAction::BuildCity(vertex)) && *final(self) == *old(self),
            r is Ok ==> final(self).wf() && old(self).city_effect(*final(self), player, vertex),
            r matches Ok(evs) ==> report_fits(*old(self), *final(self), player, GameAction::BuildCity(vertex), evs@),
    {
        if player != self.current_player {
            return Err(GameError::NotYourTurn);
        }
        if !matches!(self.phase, GamePhase::MainPhase) {
            return Err(GameError::InvalidPhase);
        }
        if self.board.get_vertex(&vertex) != VertexBuilding::Settlement(player) {
            return Err(GameError::InvalidLocation);
        }
        let i = player as usize;
        if !self.players[i].can_afford_city() {
            return Err(GameError::CannotAfford);
        }
        proof {
            self.board.lemma_built_in_range(vertex);
        }
        let ghost prev = self.players@;
        let mut p = self.take_player(i);
        p.buy_city();
        self.put_player(i, p);
        proof {
            lemma_remove_insert(prev, i as int, p);
            assert forall|j: int| 0 <= j < self.players@.len() implies player_ok(
                #[trigger] self.players@[j],
                self.dev_card_deck@.len(),
            ) && self.players@[j].id == j by {
                assert(player_ok(old(self).players@[j], old(self).dev_card_deck@.len()));
                assert(old(self).players@[j].id == j);
            }
        }
        self.board.upgrade_to_city(vertex, player);
        let mut events: Vec<GameEvent> = Vec::new();
        events.push(GameEvent::CityBuilt { player, location: vertex });
        let ghost pre = *self;
        let mut won = self.check_win_condition();
        proof {
            pre.lemma_winner_same(*self, self.players@.len() as int);
        }
        events.append(&mut won);
        Ok(events)
    }

    /// Buys the top card of the deck; it is playable from the next turn. Then checks
    /// for a winner (a Victory Point card counts at once).
    fn do_buy_dev_card(&mut self, player: PlayerId) -> (r: Result<Vec<GameEvent>, GameError>)
        requires
            old(self).wf(),
            !old(self).finished(),
        ensures
            r is Err <==> old(self).rejection(player, GameAction::BuyDevelopmentCard).is_some(),
            r matches Err(e) ==> Some(e) == old(self).rejection(player, GameAction::BuyDevelopmentCard) && *final(self) == *old(self),
            r is Ok ==> final(self).wf() && old(self).buy_card_effect(*final(self), player),
            r matches Ok(evs) ==> report_fits(*old(self), *final(self), player, GameAction::BuyDevelopmentCard, evs@),
    {
        if player != self.current_player {
            return Err(GameError::NotYourTurn);
        }
        if !matches!(self.phase, GamePhase::MainPhase) {
            return Err(GameError::InvalidPhase);
        }
        if self.dev_card_deck.len() == 0 {
            return Err(GameError::EmptyDeck);
        }
        let i = player as usize;
        if !self.players[i].can_afford_dev_card() {
            return Err(GameError::CannotAfford);
        }
        let top = self.dev_card_deck.len() - 1;
        let card = self.dev_card_deck.remove(top);
        proof {
            assert(self.dev_card_deck@ =~= old(self).dev_card_deck@.drop_last());
        }
        let ghost prev = self.players@;
        let mut p = self.take_player(i);
        p.buy_dev_card(card);
        self.put_player(i, p);
        proof {
            lemma_remove_insert(prev, i as int, p);
            assert forall|j: int| 0 <= j < self.players@.len() implies player_ok(
                #[trigger] self.players@[j],
                self.dev_card_deck@.len(),
            ) && self.players@[j].id == j by {
                assert(player_ok(old(self).players@[j], old(self).dev_card_deck@.len()));
                assert(old(self).players@[j].id == j);
            }
        }
        let mut events: Vec<GameEvent> = Vec::new();
        events.push(GameEvent::DevelopmentCardPurchased { player });
        let ghost pre = *self;
        let mut won = self.check_win_condition();
        proof {
            pre.lemma_winner_same(*self, self.players@.len() as int);
        }
        events.append(&mut won);
        Ok(events)
    }
}

impl GameState {
    /// Plays the first held card of kind `card` for `i` and marks a card as played this
    /// turn.
    fn play_card(&mut self, i: usize, card: DevelopmentCard)
        requires
            old(self).wf(),
            i < old(self).players@.len(),
            old(self).players@[i as int].dev_cards@.contains(card),
        ensures
            final(self).wf(),
            *final(self) == (GameState { players: final(self).players, dev_card_played_this_turn: true, ..*old(self) }),
            final(self).players@.len() == old(self).players@.len(),
            forall|j: int| 0 <= j < old(self).players@.len() && j != i ==> final(self).players@[j] == old(self).players@[j],
            card_played(old(self).players@[i as int], final(self).players@[i as int], card),
    {
        proof {
            assert(player_ok(self.players@[i as int], self.dev_card_deck@.len()));
        }
        let ghost prev = self.players@;
        let mut p = self.take_player(i);
        let _ = p.play_dev_card(card);
        self.put_player(i, p);
        self.dev_card_played_this_turn = true;
        proof {
            lemma_remove_insert(prev, i as int, p);
            assert forall|j: int| 0 <= j < self.players@.len() implies player_ok(
                #[trigger] self.players@[j],
                self.dev_card_deck@.len(),
            ) && self.players@[j].id == j by {
                assert(player_ok(old(self).players@[j], old(self).dev_card_deck@.len()));
                assert(old(self).players@[j].id == j);
                if j == i {
                    let k = choose|k: int|
                        0 <= k < prev[j].dev_cards@.len() && prev[j].dev_cards@[k] == card && (forall|m: int|
                            0 <= m < k ==> prev[j].dev_cards@[m] != card) && p.dev_cards@ == prev[j].dev_cards@.remove(k);
                }
            }
        }
    }

    /// Plays a Knight (before or after rolling): the robber must then move, and
    /// Largest Army is re-evaluated.
    fn do_play_knight(&mut self, player: PlayerId) -> (r: Result<Vec<GameEvent>, GameError>)
        requires
            old(self).wf(),
            !old(self).finished(),
        ensures
            r is Err <==> old(self).rejection(player, GameAction::PlayKnight).is_some(),
            r matches Err(e) ==> Some(e) == old(self).rejection(player, GameAction::PlayKnight) && *final(self) == *old(self),
            r is Ok ==> final(self).wf() && old(self).knight_effect(*final(self), player),
            r matches Ok(evs) ==> report_fits(*old(self), *final(self), player, GameAction::PlayKnight, evs@),
    {
        if player != self.current_player {
            return Err(GameError::NotYourTurn);
        }
        if self.dev_card_played_this_turn {
            return Err(GameError::InvalidPhase);
        }
        if !matches!(self.phase, GamePhase::PreRoll | GamePhase::MainPhase) {
            return Err(GameError::InvalidPhase);
        }
        let i = player as usize;
        if !self.players[i].has_playable_dev_card(DevelopmentCard::Knight) {
            return Err(GameError::NoSuchCard);
        }
        self.play_card(i, DevelopmentCard::Knight);
        proof {
            assert(self.players@ =~= old(self).players@.update(player as int, self.players@[i as int]));
        }
        let ghost mid = self.players@[i as int];
        let mut events: Vec<GameEvent> = Vec::new();
        events.push(GameEvent::KnightPlayed { player });
        let mut more = self.check_largest_army();
        events.append(&mut more);
        self.phase = GamePhase::RobberMoveRequired;
        Ok(events)
    }

    /// Plays Road Building: the next two roads are free.
    fn do_play_road_building(&mut self, player: PlayerId, e1: EdgeCoord, e2: EdgeCoord) -> (r: Result<Vec<GameEvent>, GameError>)
        requires
            old(self).wf(),
            !old(self).finished(),
        ensures
            r is Err <==> old(self).card_rejection(player, DevelopmentCard::RoadBuilding).is_some(),
            r matches Err(e) ==> Some(e) == old(self).card_rejection(player, DevelopmentCard::RoadBuilding) && *final(self) == *old(self),
            r is Ok ==> final(self).wf() && old(self).road_building_effect(*final(self), player),
            r matches Ok(evs) ==> report_fits(*old(self), *final(self), player, GameAction::PlayRoadBuilding(e1, e2), evs@),
    {
        if player != self.current_player {
            return Err(GameError::NotYourTurn);
        }
        if !matches!(self.phase, GamePhase::MainPhase) {
            return Err(GameError::InvalidPhase);
        }
        if self.dev_card_played_this_turn {
            return Err(GameError::InvalidPhase);
        }
        let i = player as usize;
        if !self.players[i].has_playable_dev_card(DevelopmentCard::RoadBuilding) {
            return Err(GameError::NoSuchCard);
        }
        self.play_card(i, DevelopmentCard::RoadBuilding);
        proof {
            assert(self.players@ =~= old(self).players@.update(player as int, self.players@[i as int]));
        }
        self.phase = GamePhase::RoadBuildingInProgress { roads_remaining: 2 };
        let mut events: Vec<GameEvent> = Vec::new();
        events.push(GameEvent::RoadBuildingPlayed { player });
        Ok(events)
    }

    /// Plays Year of Plenty: one card of each chosen resource from the bank (two of it
    /// when both choices agree).
    fn do_play_year_of_plenty(&mut self, player: PlayerId, r1: Resource, r2: Resource) -> (r: Result<Vec<GameEvent>, GameError>)
        requires
            old(self).wf(),
            !old(self).finished(),
        ensures
            r is Err <==> old(self).card_rejection(player, DevelopmentCard::YearOfPlenty).is_some(),
            r matches Err(e) ==> Some(e) == old(self).card_rejection(player, DevelopmentCard::YearOfPlenty) && *final(self) == *old(self),
            r is Ok ==> final(self).wf() && old(self).plenty_effect(*final(self), player, r1, r2),
            r matches Ok(evs) ==> report_fits(*old(self), *final(self), player, GameAction::PlayYearOfPlenty(r1, r2), evs@),
    {
        if player != self.current_player {
            return Err(GameError::NotYourTurn);
        }
        if !matches!(self.phase, GamePhase::MainPhase) {
            return Err(GameError::InvalidPhase);
        }
        if self.dev_card_played_this_turn {
            return Err(GameError::InvalidPhase);
        }
        let i = player as usize;
        if !self.players[i].has_playable_dev_card(DevelopmentCard::YearOfPlenty) {
            return Err(GameError::NoSuchCard);
        }
        self.play_card(i, DevelopmentCard::YearOfPlenty);
        let ghost mid = self.players@[i as int];
        let mut h = self.players[i].resources;
        credit(&mut h, r1, 1);
        credit(&mut h, r2, 1);
        self.set_resources(i, h);
        proof {
            assert(self.players@ =~= old(self).players@.update(
                player as int,
                Player { resources: credited(credited(mid.resources, r1, 1), r2, 1), ..mid },
            ));
        }
        let mut events: Vec<GameEvent> = Vec::new();
        events.push(GameEvent::YearOfPlentyPlayed { player, resources: (r1, r2) });
        Ok(events)
    }

    /// Plays Monopoly: every other player's cards of `resource` go to the player.
    fn do_play_monopoly(&mut self, player: PlayerId, resource: Resource) -> (r: Result<Vec<GameEvent>, GameError>)
        requires
            old(self).wf(),
            !old(self).finished(),
        ensures
            r is Err <==> old(self).card_rejection(player, DevelopmentCard::Monopoly).is_some(),
            r matches Err(e) ==> Some(e) == old(self).card_rejection(player, DevelopmentCard::Monopoly) && *final(self) == *old(self),
            r is Ok ==> final(self).wf() && old(self).monopoly_effect(*final(self), player, resource),
            r matches Ok(evs) ==> report_fits(*old(self), *final(self), player, GameAction::PlayMonopoly(resource), evs@),
    {
        if player != self.current_player {
            return Err(GameError::NotYourTurn);
        }
        if !matches!(self.phase, GamePhase::MainPhase) {
            return Err(GameError::InvalidPhase);
        }
        if self.dev_card_played_this_turn {
            return Err(GameError::InvalidPhase);
        }
        let i = player as usize;
        if !self.players[i].has_playable_dev_card(DevelopmentCard::Monopoly) {
            return Err(GameError::NoSuchCard);
        }
        self.play_card(i, DevelopmentCard::Monopoly);
        let ghost mid_state = *self;
        let ghost mid = self.players@[i as int];
        let n = self.players.len();
        let mut total: u64 = 0;
        let mut j: usize = 0;
        while j < n
            invariant
                self.wf(),
                n == self.players@.len() == old(self).players@.len(),
                0 <= j <= n,
                i == player,
                i < n,
                *self == (GameState { players: self.players, ..mid_state }),
                total == others_holding(old(self).players@, player, resource, j as int),
                total <= j * (u32::MAX as int),
                self.players@[i as int] == mid,
                forall|k: int| 0 <= k < j && k != i ==> self.players@[k] == (Player {
                    resources: old(self).players@[k].resources.with_count(resource, 0),
                    ..old(self).players@[k]
                }),
                forall|k: int| j <= k < n && k != i ==> self.players@[k] == old(self).players@[k],
            decreases n - j,
        {
            if j != i {
                let amount = self.players[j].resources.get(resource);
                let mut h = self.players[j].resources;
                h.set(resource, 0);
                self.set_resources(j, h);
                total = total + amount as u64;
            }
            j = j + 1;
        }
        let capped: u32 = if total > u32::MAX as u64 {
            u32::MAX
        } else {
            total as u32
        };
        let mut h = self.players[i].resources;
        credit(&mut h, resource, capped);
        self.set_resources(i, h);
        let mut events: Vec<GameEvent> = Vec::new();
        events.push(GameEvent::MonopolyPlayed { player, resource, total_stolen: capped });
        Ok(events)
    }
}

impl GameState {
    /// What carrying out `action` for `player` did, going from `self` to `after`.
    pub open spec fn applied(self, after: GameState, player: PlayerId, action: GameAction) -> bool {
        match action {
            GameAction::PlaceInitialSettlement(v) => self.setup_settlement_effect(after, player, v),
            GameAction::PlaceInitialRoad(e) => self.setup_road_effect(after, player, e),
            GameAction::RollDice => self.roll_effect(after, player),
            GameAction::MoveRobber(h) => self.robber_effect(after, player, h),
            GameAction::StealFrom(victim) => self.steal_effect(after, player, victim),
            GameAction::DiscardCards(cards) => self.discard_effect(after, player, cards),
            GameAction::BuildRoad(e) => self.road_effect(after, player, e),
            GameAction::BuildSettlement(v) => self.settlement_effect(after, player, v),
            GameAction::BuildCity(v) => self.city_effect(after, player, v),
            GameAction::BuyDevelopmentCard => self.buy_card_effect(after, player),
            GameAction::PlayKnight => self.knight_effect(after, player),
            GameAction::PlayRoadBuilding(_, _) => self.road_building_effect(after, player),
            GameAction::PlayYearOfPlenty(r1, r2) => self.plenty_effect(after, player, r1, r2),
            GameAction::PlayMonopoly(r) => self.monopoly_effect(after, player, r),
            GameAction::ProposeTrade(offer) => self.proposal_effect(after, player, offer),
            GameAction::CounterTrade(offer) => self.proposal_effect(after, player, offer),
            GameAction::AcceptTrade => self.accept_effect(after, player),
            GameAction::RejectTrade => self.reject_effect(after, player),
            GameAction::CancelTrade => self.cancel_effect(after, player),
            GameAction::MaritimeTrade { give, give_count, receive } => self.maritime_effect(
                after,
                player,
                give,
                give_count,
                receive,
            ),
            GameAction::EndTurn => self.end_turn_effect(after, player),
        }
    }

    /// The one entry point that changes a game. An action is either carried out in
    /// full or rejected with the error `rejection` names, leaving the state as it was.
    pub fn apply_action(&mut self, player: PlayerId, action: GameAction) -> (r: Result<Vec<GameEvent>, GameError>)
        requires
            old(self).wf(),
        ensures
            r is Err <==> old(self).rejection(player, action).is_some(),
            r matches Err(e) ==> Some(e) == old(self).rejection(player, action) && *final(self) == *old(self),
            r is Ok ==> final(self).wf() && old(self).applied(*final(self), player, action),
            r matches Ok(evs) ==> report_fits(*old(self), *final(self), player, action, evs@),
    {
        if matches!(self.phase, GamePhase::Finished { .. }) {
            return Err(GameError::GameOver);
        }
        match action {
            GameAction::PlaceInitialSettlement(v) => self.do_place_initial_settlement(player, v),
            GameAction::PlaceInitialRoad(e) => self.do_place_initial_road(player, e),
            GameAction::RollDice => self.do_roll_dice(player),
            GameAction::MoveRobber(h) => self.do_move_robber(player, h),
            GameAction::StealFrom(victim) => self.do_steal(player, victim),
            GameAction::DiscardCards(cards) => self.do_discard(player, cards),
            GameAction::BuildRoad(e) => self.do_build_road(player, e),
            GameAction::BuildSettlement(v) => self.do_build_settlement(player, v),
            GameAction::BuildCity(v) => self.do_build_city(player, v),
            GameAction::BuyDevelopmentCard => self.do_buy_dev_card(player),
            GameAction::PlayKnight => self.do_play_knight(player),
            GameAction::PlayRoadBuilding(e1, e2) => self.do_play_road_building(player, e1, e2),
            GameAction::PlayYearOfPlenty(r1, r2) => self.do_play_year_of_plenty(player, r1, r2),
            GameAction::PlayMonopoly(r) => self.do_play_monopoly(player, r),
            GameAction::ProposeTrade(offer) => self.do_propose_trade(player, offer),
            GameAction::CounterTrade(offer) => self.do_counter_trade(player, offer),
            GameAction::AcceptTrade => self.do_accept_trade(player),
            GameAction::RejectTrade => self.do_reject_trade(player),
            GameAction::CancelTrade => self.do_cancel_trade(player),
            GameAction::MaritimeTrade { give, give_count, receive } => self.do_maritime_trade(
                player,
                give,
                give_count,
                receive,
            ),
            GameAction::EndTurn => self.do_end_turn(player),
        }
    }
}

impl GameState {
    /// A new match for 2 to 4 players named in seat order: a standard board, a
    /// shuffled standard deck, and a randomly chosen first player placing a settlement
    /// in setup round 1.
    pub fn new(player_count: u8, player_names: Vec<String>) -> (g: GameState)
        requires
            2 <= player_count <= 4,
            player_names@.len() == player_count,
        ensures
            g.wf(),
            g.players@.len() == player_count,
            forall|i: int| 0 <= i < player_count ==> (#[trigger] g.players@[i]).is_fresh(i as PlayerId, player_names@[i]),
            g.phase == (GamePhase::Setup { round: 1, placing: SetupPlacing::Settlement }),
            g.current_player < player_count,
            g.turn_number == 0,
            g.dice_roll.is_none(),
            g.pending_trade.is_none(),
            !g.dev_card_played_this_turn,
            g.setup_settlement.is_none(),
            g.dev_card_deck@.len() == 25,
            g.dev_card_deck@.to_multiset() == crate::player::standard_deck_spec().to_multiset(),
            g.board.vertices_view().len() == 0,
            g.board.edges_view().len() == 0,
            forall|h: crate::hex::HexCoord| g.board.is_land_hex(h) <==> crate::board::standard_land(h),
            g.board.is_land_hex(g.board.robber_spec()),
            g.board.tile_of(g.board.robber_spec()).tile_type == TileType::Desert,
            crate::board::land_resources(g.board.tiles_view(), 19).to_multiset()
                == crate::board::standard_resources_spec().to_multiset(),
            crate::board::land_numbers(g.board.tiles_view(), 19).to_multiset()
                == crate::board::standard_numbers_spec().to_multiset(),
    {
        let mut names = player_names;
        let mut players: Vec<Player> = Vec::new();
        let mut i: u8 = 0;
        while i < player_count
            invariant
                0 <= i <= player_count <= 4,
                player_names@.len() == player_count,
                names@ == player_names@.subrange(i as int, player_count as int),
                players@.len() == i,
                forall|j: int| 0 <= j < i ==> (#[trigger] players@[j]).is_fresh(j as PlayerId, player_names@[j]),
            decreases player_count - i,
        {
            let name = names.remove(0);
            players.push(Player::new(i, name));
            proof {
                assert(names@ =~= player_names@.subrange(i + 1, player_count as int));
            }
            i = i + 1;
        }
        let mut deck = DevelopmentCard::standard_deck();
        DevelopmentCard::shuffle_deck(&mut deck);
        let current_player = random_below(player_count as u64) as u8;
        GameState {
            board: Board::standard(),
            players,
            current_player,
            phase: GamePhase::Setup { round: 1, placing: SetupPlacing::Settlement },
            turn_number: 0,
            dice_roll: None,
            dev_card_deck: deck,
            pending_trade: None,
            dev_card_played_this_turn: false,
            setup_settlement: None,
        }
    }

    /// A new match for four players named "Player 1" to "Player 4".
    pub fn new_standard_4player() -> (g: GameState)
        ensures
            g.wf(),
            g.players@.len() == 4,
            g.phase == (GamePhase::Setup { round: 1, placing: SetupPlacing::Settlement }),
            g.players@[0].name@ == "Player 1"@,
            g.players@[1].name@ == "Player 2"@,
            g.players@[2].name@ == "Player 3"@,
            g.players@[3].name@ == "Player 4"@,
    {
        let mut names: Vec<String> = Vec::new();
        names.push("Player 1".to_owned());
        names.push("Player 2".to_owned());
        names.push("Player 3".to_owned());
        names.push("Player 4".to_owned());
        GameState::new(4, names)
    }
}

impl GameState {
    /// `acts` offers every build and purchase of the first `stage` kinds (roads,
    /// settlements, cities, a development card) that `player` may make and pay for.
    pub open spec fn offers_builds(self, player: PlayerId, acts: Seq<GameAction>, stage: int) -> bool {
        let p = self.player(player);
        &&& (stage >= 1 && p.resources.covers(road_cost()) && p.roads_remaining > 0 ==> forall|e: EdgeCoord|
            self.board.road_ok(e, player) ==> acts.contains(GameAction::BuildRoad(e)))
        &&& (stage >= 2 && p.resources.covers(settlement_cost()) && p.settlements_remaining > 0 ==> forall|v: VertexCoord|
            self.board.settlement_ok(v, player, false) ==> acts.contains(GameAction::BuildSettlement(v)))
        &&& (stage >= 3 && p.resources.covers(city_cost()) && p.cities_remaining > 0 ==> forall|v: VertexCoord|
            self.board.vertex_at(v) == VertexBuilding::Settlement(player) ==> acts.contains(GameAction::BuildCity(v)))
        &&& (stage >= 4 && p.resources.covers(dev_card_cost()) && self.dev_card_deck@.len() > 0 ==> acts.contains(
            GameAction::BuyDevelopmentCard,
        ))
    }

    proof fn lemma_offers_grow(self, player: PlayerId, a: Seq<GameAction>, b: Seq<GameAction>, stage: int)
        requires
            self.offers_builds(player, a, stage),
            forall|x: GameAction| a.contains(x) ==> b.contains(x),
        ensures
            self.offers_builds(player, b, stage),
    {
    }

    /// Every listed action, except the discard marker, is one `apply_action` carries out;
    /// the marker appears only while `player` owes a discard.
    pub open spec fn all_accepted(self, player: PlayerId, acts: Seq<GameAction>) -> bool {
        forall|k: int|
            0 <= k < acts.len() ==> if #[trigger] acts[k] is DiscardCards {
                self.phase matches GamePhase::DiscardRequired { players_remaining }
                    && players_remaining@.contains(player)
            } else {
                self.rejection(player, acts[k]).is_none()
            }
    }

    /// Pushes `a`, which `apply_action` would carry out.
    fn push_accepted(&self, player: PlayerId, acts: &mut Vec<GameAction>, a: GameAction)
        requires
            self.all_accepted(player, old(acts)@),
            self.rejection(player, a).is_none(),
            !(a is DiscardCards),
        ensures
            final(acts)@ == old(acts)@.push(a),
            self.all_accepted(player, final(acts)@),
            forall|x: GameAction| final(acts)@.contains(x) <==> (old(acts)@.contains(x) || x == a),
    {
        acts.push(a);
        proof {
            assert forall|x: GameAction| acts@.contains(x) <==> (old(acts)@.contains(x) || x == a) by {
                crate::hex::lemma_push_contains(old(acts)@, a, x);
            }
            assert forall|k: int| 0 <= k < acts@.len() implies if #[trigger] acts@[k] is DiscardCards {
                self.phase matches GamePhase::DiscardRequired { players_remaining }
                    && players_remaining@.contains(player)
            } else {
                self.rejection(player, acts@[k]).is_none()
            } by {
                if k < old(acts)@.len() {
                    assert(acts@[k] == old(acts)@[k]);
                }
            }
        }
    }

    /// The actions `player` may take now, for a bot or a user interface. Every action
    /// listed is carried out by `apply_action`, except `DiscardCards`, which only marks
    /// that this player owes a discard and carries an empty hand.
    pub fn valid_actions(&self, player: PlayerId) -> (acts: Vec<GameAction>)
        requires
            self.wf(),
        ensures
            self.all_accepted(player, acts@),
            forall|k: int|
                0 <= k < acts@.len() && #[trigger] acts@[k] is DiscardCards ==> (self.phase matches GamePhase::DiscardRequired { players_remaining }
                    && players_remaining@.contains(player)),
            self.finished() ==> acts@.len() == 0,
            player != self.current_player && !(self.phase is MainPhase) && !(self.phase is DiscardRequired)
                ==> acts@.len() == 0,
            self.phase is PreRoll && player == self.current_player ==> acts@.contains(GameAction::RollDice),
            (self.phase matches GamePhase::Setup { placing: SetupPlacing::Road, .. }) && player == self.current_player
                && self.player(player).roads_remaining > 0 && self.setup_settlement.is_some() ==> forall|e: EdgeCoord|
                vertex_edges_spec(self.setup_settlement.unwrap()).contains(e) && self.board.edge_at(e) == EdgeBuilding::Empty
                    && self.board.edge_touches_land(e) ==> acts@.contains(GameAction::PlaceInitialRoad(e)),
            self.phase is RobberMoveRequired && player == self.current_player ==> forall|h: crate::hex::HexCoord|
                self.board.is_land_hex(h) && h != self.board.robber_spec() ==> acts@.contains(GameAction::MoveRobber(h)),
            (self.phase matches GamePhase::RobberSteal { victims, .. }) && player == self.current_player ==> forall|v: PlayerId|
                (self.phase matches GamePhase::RobberSteal { victims, .. } && victims@.contains(v)) ==> acts@.contains(GameAction::StealFrom(v)),
            (self.phase matches GamePhase::DiscardRequired { players_remaining }) ==> (acts@.len() > 0 <==> (
                self.phase matches GamePhase::DiscardRequired { players_remaining } && players_remaining@.contains(player)
                    && self.player(player).resources.total_spec() > 7)),
            self.phase is MainPhase && player == self.current_player ==> acts@.contains(GameAction::EndTurn),
            self.phase is MainPhase && player == self.current_player ==> self.offers_builds(player, acts@, 4),
            self.phase is RoadBuildingInProgress && player == self.current_player && self.player(player).roads_remaining > 0
                ==> forall|e: EdgeCoord| self.board.road_ok(e, player) ==> acts@.contains(GameAction::BuildRoad(e)),
            self.phase == (GamePhase::Setup { round: setup_round(self.phase), placing: SetupPlacing::Settlement })
                && player == self.current_player && self.player(player).settlements_remaining > 0 ==> forall|v: VertexCoord|
                self.board.settlement_ok(v, player, true) ==> acts@.contains(GameAction::PlaceInitialSettlement(v)),
    {
        let mut acts: Vec<GameAction> = Vec::new();
        let turn = player == self.current_player;
        match &self.phase {
            GamePhase::Finished { .. } => {},
            GamePhase::Setup { placing, .. } => {
                if turn {
                    let p = &self.players[player as usize];
                    match placing {
                        SetupPlacing::Settlement => {
                            if p.settlements_remaining > 0 {
                                let spots = self.board.valid_settlement_spots(player, true);
                                let mut i: usize = 0;
                                while i < spots.len()
                                    invariant
                                        self.wf(),
                                        turn,
                                        player == self.current_player,
                                        self.phase matches GamePhase::Setup { placing: SetupPlacing::Settlement, .. },
                                        self.player(player).settlements_remaining > 0,
                                        0 <= i <= spots@.len(),
                                        acts@.len() == i,
                                        forall|x: VertexCoord| spots@.contains(x) <==> self.board.settlement_ok(x, player, true),
                                        forall|j: int| 0 <= j < i ==> acts@[j] == GameAction::PlaceInitialSettlement(spots@[j]),
                                        self.all_accepted(player, acts@),
                                    decreases spots@.len() - i,
                                {
                                    assert(spots@.contains(spots@[i as int]));
                                    self.push_accepted(player, &mut acts, GameAction::PlaceInitialSettlement(spots[i]));
                                    i = i + 1;
                                }
                                proof {
                                    assert forall|v: VertexCoord| self.board.settlement_ok(v, player, true) implies acts@.contains(GameAction::PlaceInitialSettlement(v)) by {
                                        assert(spots@.contains(v));
                                        let j = choose|j: int| 0 <= j < spots@.len() && spots@[j] == v;
                                        assert(acts@[j] == GameAction::PlaceInitialSettlement(v));
                                    }
                                }
                            }
                        },
                        SetupPlacing::Road => {
                            match self.setup_settlement {
                                Some(v) => {
                                    if p.roads_remaining > 0 {
                                        let t = v.touching_edges();
                                        let mut k: usize = 0;
                                        while k < 3
                                            invariant
                                                self.wf(),
                                                player == self.current_player,
                                                self.phase matches GamePhase::Setup { placing: SetupPlacing::Road, .. },
                                                self.setup_settlement == Some(v),
                                                self.player(player).roads_remaining > 0,
                                                t@ == vertex_edges_spec(v),
                                                0 <= k <= 3,
                                                acts@.len() <= k,
                                                self.all_accepted(player, acts@),
                                                forall|j: int|
                                                    0 <= j < k && self.board.edge_at(t@[j]) == EdgeBuilding::Empty
                                                        && self.board.edge_touches_land(t@[j]) ==> acts@.contains(
                                                        GameAction::PlaceInitialRoad(t@[j]),
                                                    ),
                                            decreases 3 - k,
                                        {
                                            let e = t[k];
                                            proof {
                                                assert(vertex_edges_spec(v).contains(e)) by {
                                                    assert(t@[k as int] == e);
                                                }
                                            }
                                            if self.board.get_edge(&e) == EdgeBuilding::Empty && self.board.is_land_edge(&e) {
                                                self.push_accepted(player, &mut acts, GameAction::PlaceInitialRoad(e));
                                            }
                                            k = k + 1;
                                        }
                                        proof {
                                            assert forall|e: EdgeCoord|
                                                vertex_edges_spec(v).contains(e) && self.board.edge_at(e) == EdgeBuilding::Empty
                                                    && self.board.edge_touches_land(e) implies acts@.contains(GameAction::PlaceInitialRoad(e)) by {
                                                let j = choose|j: int| 0 <= j < 3 && vertex_edges_spec(v)[j] == e;
                                                assert(t@[j] == e);
                                            }
                                        }
                                    }
                                },
                                None => {},
                            }
                        },
                    }
                }
            },
            GamePhase::PreRoll => {
                if turn {
                    self.push_accepted(player, &mut acts, GameAction::RollDice);
                    proof {
                        assert(acts@[0] == GameAction::RollDice);
                    }
                    if !self.dev_card_played_this_turn
                        && self.players[player as usize].has_playable_dev_card(DevelopmentCard::Knight) {
                        self.push_accepted(player, &mut acts, GameAction::PlayKnight);
                        proof {
                            assert(acts@[0] == GameAction::RollDice);
                        }
                    }
                }
            },
            GamePhase::DiscardRequired { players_remaining } => {
                if contains_player(players_remaining, player) {
                    proof {
                        let j = choose|j: int| 0 <= j < players_remaining@.len() && players_remaining@[j] == player;
                    }
                    if cards_in(&self.players[player as usize].resources) > 7 {
                        acts.push(GameAction::DiscardCards(ResourceHand::new()));
                        proof {
                            assert(acts@[0] is DiscardCards);
                        }
                    }
                }
            },
            GamePhase::RobberMoveRequired => {
                if turn {
                    let tiles = self.board.land_tiles();
                    let robber = self.board.robber_location();
                    let mut i: usize = 0;
                    while i < tiles.len()
                        invariant
                            self.wf(),
                            player == self.current_player,
                            self.phase is RobberMoveRequired,
                            robber == self.board.robber_spec(),
                            forall|x: crate::board::Tile| tiles@.contains(x) <==> (self.board.tiles_view().contains(x) && x.tile_type != TileType::Ocean),
                            0 <= i <= tiles@.len(),
                            acts@.len() <= i,
                            self.all_accepted(player, acts@),
                            forall|j: int| 0 <= j < i && tiles@[j].coord != robber ==> acts@.contains(
                                GameAction::MoveRobber(tiles@[j].coord),
                            ),
                        decreases tiles@.len() - i,
                    {
                        let t = tiles[i];
                        if t.coord != robber && t.tile_type != TileType::Ocean {
                            proof {
                                assert(tiles@.contains(t));
                                self.board.lemma_listed_tile(t);
                            }
                            self.push_accepted(player, &mut acts, GameAction::MoveRobber(t.coord));
                        }
                        proof {
                            assert(tiles@.contains(t));
                        }
                        i = i + 1;
                    }
                    proof {
                        assert forall|h: crate::hex::HexCoord|
                            self.board.is_land_hex(h) && h != robber implies acts@.contains(GameAction::MoveRobber(h)) by {
                            let ti = choose|ti: int| 0 <= ti < self.board.tiles_view().len() && self.board.tiles_view()[ti].coord == h;
                            let t = self.board.tile_of(h);
                            assert(t.coord == h);
                            assert(self.board.tiles_view().contains(t));
                            assert(tiles@.contains(t));
                            let j = choose|j: int| 0 <= j < tiles@.len() && tiles@[j] == t;
                        }
                    }
                }
            },
            GamePhase::RobberSteal { victims, .. } => {
                if turn {
                    let mut i: usize = 0;
                    while i < victims.len()
                        invariant
                            self.wf(),
                            player == self.current_player,
                            self.phase matches GamePhase::RobberSteal { victims: vs, .. } && vs == victims,
                            0 <= i <= victims@.len(),
                            acts@.len() <= i,
                            self.all_accepted(player, acts@),
                            forall|j: int| 0 <= j < i ==> acts@.contains(GameAction::StealFrom(victims@[j])),
                        decreases victims@.len() - i,
                    {
                        proof {
                            assert(victims@.contains(victims@[i as int]));
                        }
                        self.push_accepted(player, &mut acts, GameAction::StealFrom(victims[i]));
                        i = i + 1;
                    }
                }
            },
            GamePhase::MainPhase => {
                if !turn {
                    self.trade_answers(player, &mut acts);
                } else {
                    self.main_phase_actions(player, &mut acts);
                }
            },
            GamePhase::RoadBuildingInProgress { .. } => {
                if turn && self.players[player as usize].roads_remaining > 0 {
                    self.road_actions(player, &mut acts);
                }
            },
        }
        acts
    }

    /// Accepting or declining the pending offer, for a player it is open to.
    fn trade_answers(&self, player: PlayerId, acts: &mut Vec<GameAction>)
        requires
            self.wf(),
            self.phase is MainPhase,
            old(acts)@.len() == 0,
        ensures
            self.all_accepted(player, final(acts)@),
    {
        match &self.pending_trade {
            Some(t) => {
                if t.offer.to.is_none() || t.offer.to == Some(player) {
                    let o = t.offer;
                    if player != o.from && (player as usize) < self.players.len()
                        && self.players[player as usize].resources.can_afford(&o.requesting)
                        && self.players[o.from as usize].resources.can_afford(&o.offering) {
                        self.push_accepted(player, acts, GameAction::AcceptTrade);
                    }
                    self.push_accepted(player, acts, GameAction::RejectTrade);
                }
            },
            None => {},
        }
    }

    /// Roads `player` may build (their cost checked by the caller).
    fn road_actions(&self, player: PlayerId, acts: &mut Vec<GameAction>)
        requires
            self.wf(),
            player == self.current_player,
            self.phase is MainPhase || self.phase is RoadBuildingInProgress,
            self.player(player).roads_remaining > 0,
            self.phase is MainPhase ==> self.player(player).resources.covers(road_cost()),
            self.all_accepted(player, old(acts)@),
        ensures
            self.all_accepted(player, final(acts)@),
            final(acts)@.len() >= old(acts)@.len(),
            forall|k: int| 0 <= k < old(acts)@.len() ==> final(acts)@[k] == old(acts)@[k],
            forall|x: GameAction| old(acts)@.contains(x) ==> final(acts)@.contains(x),
            forall|e: EdgeCoord| self.board.road_ok(e, player) ==> final(acts)@.contains(GameAction::BuildRoad(e)),
    {
        let spots = self.board.valid_road_spots(player);
        let mut i: usize = 0;
        let ghost start = acts@;
        while i < spots.len()
            invariant
                self.wf(),
                player == self.current_player,
                self.phase is MainPhase || self.phase is RoadBuildingInProgress,
                self.player(player).roads_remaining > 0,
                self.phase is MainPhase ==> self.player(player).resources.covers(road_cost()),
                forall|x: EdgeCoord| spots@.contains(x) <==> self.board.road_ok(x, player),
                0 <= i <= spots@.len(),
                acts@.len() == start.len() + i,
                forall|k: int| 0 <= k < start.len() ==> acts@[k] == start[k],
                forall|x: GameAction| start.contains(x) ==> acts@.contains(x),
                forall|j: int| 0 <= j < i ==> acts@.contains(GameAction::BuildRoad(spots@[j])),
                self.all_accepted(player, acts@),
            decreases spots@.len() - i,
        {
            assert(spots@.contains(spots@[i as int]));
            self.push_accepted(player, acts, GameAction::BuildRoad(spots[i]));
            i = i + 1;
        }
        proof {
            assert forall|e: EdgeCoord| self.board.road_ok(e, player) implies acts@.contains(GameAction::BuildRoad(e)) by {
                assert(spots@.contains(e));
                let j = choose|j: int| 0 <= j < spots@.len() && spots@[j] == e;
            }
        }
    }
}

impl GameState {
    /// The current player's options in the main phase.
    fn main_phase_actions(&self, player: PlayerId, acts: &mut Vec<GameAction>)
        requires
            self.wf(),
            player == self.current_player,
            self.phase is MainPhase,
            old(acts)@.len() == 0,
        ensures
            self.all_accepted(player, final(acts)@),
            final(acts)@.len() > 0 && final(acts)@[0] == GameAction::EndTurn,
            self.offers_builds(player, final(acts)@, 4),
    {
        let i = player as usize;
        self.push_accepted(player, acts, GameAction::EndTurn);
        let ghost first = acts@;
        let p = &self.players[i];
        if p.can_afford_road() {
            self.road_actions(player, acts);
        }
        assert(self.offers_builds(player, acts@, 1));
        if p.can_afford_settlement() {
            let spots = self.board.valid_settlement_spots(player, false);
            let mut k: usize = 0;
            while k < spots.len()
                invariant
                    self.wf(),
                    player == self.current_player,
                    self.phase is MainPhase,
                    self.player(player).resources.covers(settlement_cost()),
                    self.player(player).settlements_remaining > 0,
                    forall|x: VertexCoord| spots@.contains(x) <==> self.board.settlement_ok(x, player, false),
                    0 <= k <= spots@.len(),
                    acts@.len() > 0 && acts@[0] == GameAction::EndTurn,
                    self.all_accepted(player, acts@),
                    self.offers_builds(player, acts@, 1),
                    forall|j: int| 0 <= j < k ==> acts@.contains(GameAction::BuildSettlement(spots@[j])),
                decreases spots@.len() - k,
            {
                assert(spots@.contains(spots@[k as int]));
                let ghost before = acts@;
                self.push_accepted(player, acts, GameAction::BuildSettlement(spots[k]));
                proof {
                    self.lemma_offers_grow(player, before, acts@, 1);
                }
                k = k + 1;
            }
            proof {
                assert forall|v: VertexCoord| self.board.settlement_ok(v, player, false) implies acts@.contains(
                    GameAction::BuildSettlement(v),
                ) by {
                    assert(spots@.contains(v));
                    let j = choose|j: int| 0 <= j < spots@.len() && spots@[j] == v;
                }
            }
        }
        assert(self.offers_builds(player, acts@, 2));
        if p.can_afford_city() {
            let spots = self.board.valid_city_spots(player);
            let mut k: usize = 0;
            while k < spots.len()
                invariant
                    self.wf(),
                    player == self.current_player,
                    self.phase is MainPhase,
                    self.player(player).resources.covers(city_cost()),
                    self.player(player).cities_remaining > 0,
                    forall|x: VertexCoord| spots@.contains(x) <==> self.board.vertex_at(x) == VertexBuilding::Settlement(player),
                    0 <= k <= spots@.len(),
                    acts@.len() > 0 && acts@[0] == GameAction::EndTurn,
                    self.all_accepted(player, acts@),
                    self.offers_builds(player, acts@, 2),
                    forall|j: int| 0 <= j < k ==> acts@.contains(GameAction::BuildCity(spots@[j])),
                decreases spots@.len() - k,
            {
                assert(spots@.contains(spots@[k as int]));
                let ghost before = acts@;
                self.push_accepted(player, acts, GameAction::BuildCity(spots[k]));
                proof {
                    self.lemma_offers_grow(player, before, acts@, 2);
                }
                k = k + 1;
            }
            proof {
                assert forall|v: VertexCoord| self.board.vertex_at(v) == VertexBuilding::Settlement(player) implies acts@.contains(
                    GameAction::BuildCity(v),
                ) by {
                    assert(spots@.contains(v));
                    let j = choose|j: int| 0 <= j < spots@.len() && spots@[j] == v;
                }
            }
        }
        assert(self.offers_builds(player, acts@, 3));
        if p.can_afford_dev_card() && self.dev_card_deck.len() > 0 {
            let ghost before = acts@;
            self.push_accepted(player, acts, GameAction::BuyDevelopmentCard);
            proof {
                self.lemma_offers_grow(player, before, acts@, 3);
            }
        }
        assert(self.offers_builds(player, acts@, 4));
        let ghost done = acts@;
        if !self.dev_card_played_this_turn {
            if p.has_playable_dev_card(DevelopmentCard::Knight) {
                self.push_accepted(player, acts, GameAction::PlayKnight);
            }
            if p.has_playable_dev_card(DevelopmentCard::YearOfPlenty) {
                let rs = Resource::all();
                let mut a: usize = 0;
                while a < 5
                    invariant
                        self.wf(),
                        player == self.current_player,
                        self.phase is MainPhase,
                        !self.dev_card_played_this_turn,
                        self.player(player).dev_cards@.contains(DevelopmentCard::YearOfPlenty),
                        0 <= a <= 5,
                        acts@.len() > 0 && acts@[0] == GameAction::EndTurn,
                        forall|x: GameAction| done.contains(x) ==> acts@.contains(x),
                        self.all_accepted(player, acts@),
                    decreases 5 - a,
                {
                    let mut c: usize = 0;
                    while c < 5
                        invariant
                            self.wf(),
                            player == self.current_player,
                            self.phase is MainPhase,
                            !self.dev_card_played_this_turn,
                            self.player(player).dev_cards@.contains(DevelopmentCard::YearOfPlenty),
                            0 <= a < 5,
                            0 <= c <= 5,
                            acts@.len() > 0 && acts@[0] == GameAction::EndTurn,
                        forall|x: GameAction| done.contains(x) ==> acts@.contains(x),
                            self.all_accepted(player, acts@),
                        decreases 5 - c,
                    {
                        self.push_accepted(player, acts, GameAction::PlayYearOfPlenty(rs[a], rs[c]));
                        c = c + 1;
                    }
                    a = a + 1;
                }
            }
            if p.has_playable_dev_card(DevelopmentCard::Monopoly) {
                let rs = Resource::all();
                let mut a: usize = 0;
                while a < 5
                    invariant
                        self.wf(),
                        player == self.current_player,
                        self.phase is MainPhase,
                        !self.dev_card_played_this_turn,
                        self.player(player).dev_cards@.contains(DevelopmentCard::Monopoly),
                        0 <= a <= 5,
                        acts@.len() > 0 && acts@[0] == GameAction::EndTurn,
                        forall|x: GameAction| done.contains(x) ==> acts@.contains(x),
                        self.all_accepted(player, acts@),
                    decreases 5 - a,
                {
                    self.push_accepted(player, acts, GameAction::PlayMonopoly(rs[a]));
                    a = a + 1;
                }
            }
        }
        let harbors = self.board.player_harbors(player);
        let rs = Resource::all();
        let mut g: usize = 0;
        while g < 5
            invariant
                self.wf(),
                player == self.current_player,
                self.phase is MainPhase,
                harbors@ == self.board.harbors_of(self.board.harbors_view(), player),
                i == player as usize,
                i < self.players@.len(),
                0 <= g <= 5,
                acts@.len() > 0 && acts@[0] == GameAction::EndTurn,
                        forall|x: GameAction| done.contains(x) ==> acts@.contains(x),
                self.all_accepted(player, acts@),
            decreases 5 - g,
        {
            let give = rs[g];
            let count = self.get_maritime_rate(player, give, harbors.as_slice());
            if self.players[i].resources.get(give) >= count {
                let mut c: usize = 0;
                while c < 5
                    invariant
                        self.wf(),
                        player == self.current_player,
                        self.phase is MainPhase,
                        count == maritime_rate_spec(give, self.board.harbors_of(self.board.harbors_view(), player)),
                        self.player(player).resources.count(give) >= count,
                        0 <= c <= 5,
                        acts@.len() > 0 && acts@[0] == GameAction::EndTurn,
                        forall|x: GameAction| done.contains(x) ==> acts@.contains(x),
                        self.all_accepted(player, acts@),
                    decreases 5 - c,
                {
                    if rs[c] != give {
                        self.push_accepted(
                            player,
                            acts,
                            GameAction::MaritimeTrade { give, give_count: count, receive: rs[c] },
                        );
                    }
                    c = c + 1;
                }
            }
            g = g + 1;
        }
        match &self.pending_trade {
            Some(t) => {
                if player == t.offer.from || t.offer.to == Some(player) {
                    self.push_accepted(player, acts, GameAction::CancelTrade);
                }
            },
            None => {},
        }
        proof {
            self.lemma_offers_grow(player, done, acts@, 4);
        }
    }
}

proof fn lemma_seats_none(ls: Seq<u32>, floor: int, best: int, n: int)
    requires
        0 <= n <= ls.len(),
        forall|i: int| 0 <= i < ls.len() ==> ls[i] < floor,
    ensures
        seats_at(ls, floor, best, n).len() == 0,
    decreases n,
{
    if n > 0 {
        lemma_seats_none(ls, floor, best, n - 1);
    }
}

/// Longest Road needs 5 roads: when every road length is below 5, nobody holds the
/// award after re-evaluation.
pub proof fn lemma_short_roads_no_award(ls: Seq<u32>, current: Option<PlayerId>)
    requires
        forall|i: int| 0 <= i < ls.len() ==> ls[i] < MIN_LONGEST_ROAD,
    ensures
        road_award(ls, current).is_none(),
{
    let best = best_at_least(ls, MIN_LONGEST_ROAD as int, ls.len() as int);
    lemma_seats_none(ls, MIN_LONGEST_ROAD as int, best, ls.len() as int);
}

/// With every road shorter than 5, re-evaluation leaves no player flagged.
pub proof fn lemma_short_roads_no_flag(ps: Seq<Player>, ls: Seq<u32>)
    requires
        forall|i: int| 0 <= i < ls.len() ==> ls[i] < MIN_LONGEST_ROAD,
        forall|i: int| 0 <= i < ps.len() ==> !ps[i].has_longest_road,
    ensures
        forall|i: int| 0 <= i < ps.len() ==> !(#[trigger] road_flags_after(ps, ls)[i]).has_longest_road,
{
    lemma_short_roads_no_award(ls, road_holder(ps, ps.len() as int));
    assert(road_holder(ps, ps.len() as int).is_none()) by {
        lemma_no_road_holder(ps, ps.len() as int);
    }
}

proof fn lemma_no_road_holder(ps: Seq<Player>, n: int)
    requires
        0 <= n <= ps.len(),
        forall|i: int| 0 <= i < ps.len() ==> !ps[i].has_longest_road,
    ensures
        road_holder(ps, n).is_none(),
    decreases n,
{
    if n > 0 {
        lemma_no_road_holder(ps, n - 1);
    }
}

/// A maritime trade of `n`:1 takes exactly `n` of the given resource and adds exactly
/// one of the received one.
pub proof fn lemma_maritime_conserves(
    s: GameState,
    t: GameState,
    player: PlayerId,
    give: Resource,
    n: u32,
    receive: Resource,
)
    requires
        s.wf(),
        s.rejection(player, GameAction::MaritimeTrade { give, give_count: n, receive }).is_none(),
        s.applied(t, player, GameAction::MaritimeTrade { give, give_count: n, receive }),
        give != receive,
        s.player(player).resources.count(receive) < u32::MAX,
    ensures
        t.player(player).resources.count(give) == s.player(player).resources.count(give) - n,
        t.player(player).resources.count(receive) == s.player(player).resources.count(receive) + 1,
{
}

/// Accepting a trade moves cards between the two traders only: for each resource,
/// their combined count is unchanged (when no count reaches `u32::MAX`).
pub proof fn lemma_trade_conserves(s: GameState, t: GameState, player: PlayerId, r: Resource)
    requires
        s.wf(),
        s.rejection(player, GameAction::AcceptTrade).is_none(),
        s.applied(t, player, GameAction::AcceptTrade),
        s.pending_trade matches Some(o) && s.player(o.offer.from).resources.count(r) + o.offer.requesting.count(r)
            < u32::MAX && s.player(player).resources.count(r) + o.offer.offering.count(r) < u32::MAX,
    ensures
        s.pending_trade matches Some(o) && t.player(o.offer.from).resources.count(r) + t.player(player).resources.count(r)
            == s.player(o.offer.from).resources.count(r) + s.player(player).resources.count(r),
{
}

proof fn lemma_no_holder_no_flag(ps: Seq<Player>, n: int)
    requires
        0 <= n <= ps.len(),
        road_holder(ps, n).is_none(),
    ensures
        forall|i: int| 0 <= i < n ==> !ps[i].has_longest_road,
    decreases n,
{
    if n > 0 {
        lemma_no_holder_no_flag(ps, n - 1);
    }
}

/// With every road length below 5, re-evaluating Longest Road leaves nobody with the
/// award, whoever held it before.
pub proof fn lemma_short_roads_clear_award(ps: Seq<Player>, ls: Seq<u32>)
    requires
        forall|i: int| 0 <= i < ls.len() ==> ls[i] < MIN_LONGEST_ROAD,
    ensures
        forall|i: int| 0 <= i < ps.len() ==> !(#[trigger] road_flags_after(ps, ls)[i]).has_longest_road,
{
    let cur = road_holder(ps, ps.len() as int);
    lemma_short_roads_no_award(ls, cur);
    if cur.is_none() {
        lemma_no_holder_no_flag(ps, ps.len() as int);
    }
}

/// Longest Road needs 5 connected roads: after a road or a settlement is built, if no
/// player's longest road reaches 5, no player holds the award.
pub proof fn lemma_build_without_long_road(s: GameState, t: GameState, player: PlayerId, action: GameAction)
    requires
        s.wf(),
        action is BuildRoad || action is BuildSettlement,
        s.rejection(player, action).is_none(),
        s.applied(t, player, action),
        forall|p: PlayerId| p < t.players@.len() ==> #[trigger] t.board.longest_road_spec(p) < MIN_LONGEST_ROAD,
    ensures
        forall|i: int| 0 <= i < t.players@.len() ==> !(#[trigger] t.players@[i]).has_longest_road,
{
    let ls = t.road_lengths();
    assert forall|i: int| 0 <= i < ls.len() implies ls[i] < MIN_LONGEST_ROAD by {
        assert(t.board.longest_road_spec(i as PlayerId) < MIN_LONGEST_ROAD);
    }
    match action {
        GameAction::BuildRoad(e) => {
            let p = s.player(player);
            let free = s.phase is RoadBuildingInProgress;
            let mid = s.players@.update(
                player as int,
                Player {
                    roads_remaining: (p.roads_remaining - 1) as u32,
                    resources: if free {
                        p.resources
                    } else {
                        p.resources.minus(road_cost())
                    },
                    ..p
                },
            );
            assert(t.players@ == road_flags_after(mid, ls));
            lemma_short_roads_clear_award(mid, ls);
        },
        GameAction::BuildSettlement(v) => {
            let p = s.player(player);
            let mid = s.players@.update(
                player as int,
                Player {
                    resources: p.resources.minus(settlement_cost()),
                    settlements_remaining: (p.settlements_remaining - 1) as u32,
                    ..p
                },
            );
            assert(t.players@ == road_flags_after(mid, ls));
            lemma_short_roads_clear_award(mid, ls);
        },
        _ => {},
    }
}

/// A purchase that brings a player to 10 points ends the game at once: after a
/// settlement, a city or a development card, if some seat has 10 points the game is
/// finished with the first such seat as winner, and the report closes with `GameWon`.
pub proof fn lemma_win_ends_the_game(
    s: GameState,
    t: GameState,
    player: PlayerId,
    action: GameAction,
    evs: Seq<GameEvent>,
)
    requires
        s.wf(),
        action is BuildSettlement || action is BuildCity || action is BuyDevelopmentCard,
        s.rejection(player, action).is_none(),
        s.applied(t, player, action),
        report_fits(s, t, player, action, evs),
        t.winner_among(t.players@.len() as int) is Some,
    ensures
        t.phase == (GamePhase::Finished { winner: t.winner_among(t.players@.len() as int).unwrap() }),
        evs.last() matches GameEvent::GameWon { player: w, .. } && w == t.winner_among(t.players@.len() as int).unwrap(),
{
}

/// A roll of 7 pays nobody: every player holding more than 7 cards, in seat order, owes
/// a discard, or when there is none the robber must move.
pub proof fn lemma_seven_roll(s: GameState, t: GameState, player: PlayerId)
    requires
        s.wf(),
        s.rejection(player, GameAction::RollDice).is_none(),
        s.applied(t, player, GameAction::RollDice),
        t.dice_roll matches Some((a, b)) && a + b == 7,
    ensures
        t.players == s.players,
        over_seven(s.players@, s.players@.len() as int).len() == 0 ==> t.phase is RobberMoveRequired,
        over_seven(s.players@, s.players@.len() as int).len() > 0 ==> (t.phase matches GamePhase::DiscardRequired {
            players_remaining,
        } && players_remaining@ == over_seven(s.players@, s.players@.len() as int)),
{
    let (d1, d2) = choose|d1: u8, d2: u8| 1 <= d1 <= 6 && 1 <= d2 <= 6 && #[trigger] s.dice_effect(t, d1, d2);
}

} // verus!
