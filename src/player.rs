//! Players: resource hands, build costs, development cards and piece inventories.
use crate::board::{PlayerId, Resource};
use crate::random::{random_below, shuffle_vec};

pub mod costs;

pub use costs::{city, development_card, road, settlement};
use vstd::prelude::*;

verus! {

/// Colour shown for a player.
#[derive(Debug, Clone, Copy, PartialEq, Eq, Structural)]
pub enum PlayerColor {
    Red,
    Blue,
    Orange,
    White,
}

/// Colours are handed out in seat order, wrapping after four.
pub open spec fn color_of(id: PlayerId) -> PlayerColor {
    if id % 4 == 0 {
        PlayerColor::Red
    } else if id % 4 == 1 {
        PlayerColor::Blue
    } else if id % 4 == 2 {
        PlayerColor::Orange
    } else {
        PlayerColor::White
    }
}

impl PlayerColor {
    pub fn for_player(id: PlayerId) -> (c: PlayerColor)
        ensures
            c == color_of(id),
    {
        match id % 4 {
            0 => PlayerColor::Red,
            1 => PlayerColor::Blue,
            2 => PlayerColor::Orange,
            _ => PlayerColor::White,
        }
    }

    /// The colour as a 24-bit RGB value.
    pub fn hex_code(&self) -> (c: u32)
        ensures
            *self == PlayerColor::Red ==> c == 0xE74C3C,
            *self == PlayerColor::Blue ==> c == 0x3498DB,
            *self == PlayerColor::Orange ==> c == 0xE67E22,
            *self == PlayerColor::White ==> c == 0xECF0F1,
    {
        match self {
            PlayerColor::Red => 0xE74C3C,
            PlayerColor::Blue => 0x3498DB,
            PlayerColor::Orange => 0xE67E22,
            PlayerColor::White => 0xECF0F1,
        }
    }
}

/// Development cards.
#[derive(Debug, Clone, Copy, PartialEq, Eq, Structural)]
pub enum DevelopmentCard {
    Knight,
    VictoryPoint,
    RoadBuilding,
    YearOfPlenty,
    Monopoly,
}

/// `n` copies of `c`.
pub open spec fn copies(c: DevelopmentCard, n: nat) -> Seq<DevelopmentCard> {
    Seq::new(n, |_i: int| c)
}

/// The standard deck, in its unshuffled order.
pub open spec fn standard_deck_spec() -> Seq<DevelopmentCard> {
    copies(DevelopmentCard::Knight, 14) + copies(DevelopmentCard::VictoryPoint, 5) + copies(
        DevelopmentCard::RoadBuilding,
        2,
    ) + copies(DevelopmentCard::YearOfPlenty, 2) + copies(DevelopmentCard::Monopoly, 2)
}

/// Number of occurrences of `c` in `s`.
pub open spec fn count_card(s: Seq<DevelopmentCard>, c: DevelopmentCard) -> nat
    decreases s.len(),
{
    if s.len() == 0 {
        0
    } else {
        count_card(s.drop_last(), c) + if s.last() == c {
            1nat
        } else {
            0nat
        }
    }
}

fn push_copies(deck: &mut Vec<DevelopmentCard>, c: DevelopmentCard, n: usize)
    requires
        old(deck)@.len() + n <= usize::MAX,
    ensures
        final(deck)@ == old(deck)@ + copies(c, n as nat),
{
    let mut i: usize = 0;
    while i < n
        invariant
            0 <= i <= n,
            deck@.len() + (n - i) <= usize::MAX,
            deck@ == old(deck)@ + copies(c, i as nat),
        decreases n - i,
    {
        deck.push(c);
        i = i + 1;
        assert(deck@ =~= old(deck)@ + copies(c, i as nat));
    }
}

impl DevelopmentCard {
    /// The 25-card deck: 14 Knights, 5 Victory Points, 2 each of Road Building, Year of
    /// Plenty and Monopoly, unshuffled.
    pub fn standard_deck() -> (deck: Vec<DevelopmentCard>)
        ensures
            deck@ == standard_deck_spec(),
            deck@.len() == 25,
    {
        let mut deck: Vec<DevelopmentCard> = Vec::with_capacity(25);
        push_copies(&mut deck, DevelopmentCard::Knight, 14);
        push_copies(&mut deck, DevelopmentCard::VictoryPoint, 5);
        push_copies(&mut deck, DevelopmentCard::RoadBuilding, 2);
        push_copies(&mut deck, DevelopmentCard::YearOfPlenty, 2);
        push_copies(&mut deck, DevelopmentCard::Monopoly, 2);
        deck
    }

    /// Shuffles a deck in place; the same cards remain.
    pub fn shuffle_deck(deck: &mut Vec<DevelopmentCard>)
        ensures
            final(deck)@.len() == old(deck)@.len(),
            final(deck)@.to_multiset() == old(deck)@.to_multiset(),
    {
        shuffle_vec(deck);
    }

    /// Every card but a Victory Point can be played.
    pub fn is_playable(&self) -> (b: bool)
        ensures
            b == (*self != DevelopmentCard::VictoryPoint),
    {
        !matches!(self, DevelopmentCard::VictoryPoint)
    }
}

/// Counts of the five resources.
#[derive(Debug, Clone, Copy, PartialEq, Eq, Structural, Default)]
pub struct ResourceHand {
    pub brick: u32,
    pub lumber: u32,
    pub ore: u32,
    pub grain: u32,
    pub wool: u32,
}

/// A hand with `amount` of `r` and nothing else.
pub open spec fn single_spec(r: Resource, amount: u32) -> ResourceHand {
    ResourceHand {
        brick: if r == Resource::Brick {
            amount
        } else {
            0
        },
        lumber: if r == Resource::Lumber {
            amount
        } else {
            0
        },
        ore: if r == Resource::Ore {
            amount
        } else {
            0
        },
        grain: if r == Resource::Grain {
            amount
        } else {
            0
        },
        wool: if r == Resource::Wool {
            amount
        } else {
            0
        },
    }
}

pub open spec fn road_cost() -> ResourceHand {
    ResourceHand { brick: 1, lumber: 1, ore: 0, grain: 0, wool: 0 }
}

pub open spec fn settlement_cost() -> ResourceHand {
    ResourceHand { brick: 1, lumber: 1, ore: 0, grain: 1, wool: 1 }
}

pub open spec fn city_cost() -> ResourceHand {
    ResourceHand { brick: 0, lumber: 0, ore: 3, grain: 2, wool: 0 }
}

pub open spec fn dev_card_cost() -> ResourceHand {
    ResourceHand { brick: 0, lumber: 0, ore: 1, grain: 1, wool: 1 }
}

impl ResourceHand {
    /// Count of resource `r`.
    pub open spec fn count(self, r: Resource) -> u32 {
        match r {
            Resource::Brick => self.brick,
            Resource::Lumber => self.lumber,
            Resource::Ore => self.ore,
            Resource::Grain => self.grain,
            Resource::Wool => self.wool,
        }
    }

    /// Number of cards in the hand.
    pub open spec fn total_spec(self) -> int {
        self.brick + self.lumber + self.ore + self.grain + self.wool
    }

    /// The card total fits in a `u32`.
    pub open spec fn bounded(self) -> bool {
        self.total_spec() <= u32::MAX
    }

    pub open spec fn covers(self, cost: ResourceHand) -> bool {
        self.brick >= cost.brick && self.lumber >= cost.lumber && self.ore >= cost.ore
            && self.grain >= cost.grain && self.wool >= cost.wool
    }

    /// This hand with `r` set to `n`.
    pub open spec fn with_count(self, r: Resource, n: u32) -> ResourceHand {
        ResourceHand {
            brick: if r == Resource::Brick {
                n
            } else {
                self.brick
            },
            lumber: if r == Resource::Lumber {
                n
            } else {
                self.lumber
            },
            ore: if r == Resource::Ore {
                n
            } else {
                self.ore
            },
            grain: if r == Resource::Grain {
                n
            } else {
                self.grain
            },
            wool: if r == Resource::Wool {
                n
            } else {
                self.wool
            },
        }
    }

    /// Resource-wise sum; every count must fit.
    pub open spec fn plus(self, o: ResourceHand) -> ResourceHand {
        ResourceHand {
            brick: (self.brick + o.brick) as u32,
            lumber: (self.lumber + o.lumber) as u32,
            ore: (self.ore + o.ore) as u32,
            grain: (self.grain + o.grain) as u32,
            wool: (self.wool + o.wool) as u32,
        }
    }

    /// Resource-wise difference; `self` must cover `o`.
    pub open spec fn minus(self, o: ResourceHand) -> ResourceHand {
        ResourceHand {
            brick: (self.brick - o.brick) as u32,
            lumber: (self.lumber - o.lumber) as u32,
            ore: (self.ore - o.ore) as u32,
            grain: (self.grain - o.grain) as u32,
            wool: (self.wool - o.wool) as u32,
        }
    }

    /// Every resource-wise sum with `o` fits in a `u32`.
    pub open spec fn can_add(self, o: ResourceHand) -> bool {
        self.brick + o.brick <= u32::MAX && self.lumber + o.lumber <= u32::MAX && self.ore
            + o.ore <= u32::MAX && self.grain + o.grain <= u32::MAX && self.wool + o.wool
            <= u32::MAX
    }

    /// An empty hand.
    pub fn new() -> (h: ResourceHand)
        ensures
            h == (ResourceHand { brick: 0, lumber: 0, ore: 0, grain: 0, wool: 0 }),
    {
        ResourceHand { brick: 0, lumber: 0, ore: 0, grain: 0, wool: 0 }
    }

    pub fn with_amounts(brick: u32, lumber: u32, ore: u32, grain: u32, wool: u32) -> (h:
        ResourceHand)
        ensures
            h == (ResourceHand { brick, lumber, ore, grain, wool }),
    {
        ResourceHand { brick, lumber, ore, grain, wool }
    }

    /// Number of cards in the hand.
    pub fn total(&self) -> (t: u32)
        requires
            self.bounded(),
        ensures
            t == self.total_spec(),
    {
        self.brick + self.lumber + self.ore + self.grain + self.wool
    }

    pub fn is_empty(&self) -> (b: bool)
        requires
            self.bounded(),
        ensures
            b == (self.total_spec() == 0),
    {
        self.total() == 0
    }

    pub fn get(&self, resource: Resource) -> (n: u32)
        ensures
            n == self.count(resource),
    {
        match resource {
            Resource::Brick => self.brick,
            Resource::Lumber => self.lumber,
            Resource::Ore => self.ore,
            Resource::Grain => self.grain,
            Resource::Wool => self.wool,
        }
    }

    pub fn set(&mut self, resource: Resource, count: u32)
        ensures
            *final(self) == old(self).with_count(resource, count),
    {
        match resource {
            Resource::Brick => self.brick = count,
            Resource::Lumber => self.lumber = count,
            Resource::Ore => self.ore = count,
            Resource::Grain => self.grain = count,
            Resource::Wool => self.wool = count,
        }
    }

    pub fn add(&mut self, resource: Resource, amount: u32)
        requires
            old(self).count(resource) + amount <= u32::MAX,
        ensures
            *final(self) == old(self).with_count(
                resource,
                (old(self).count(resource) + amount) as u32,
            ),
            final(self).total_spec() == old(self).total_spec() + amount,
    {
        match resource {
            Resource::Brick => self.brick = self.brick + amount,
            Resource::Lumber => self.lumber = self.lumber + amount,
            Resource::Ore => self.ore = self.ore + amount,
            Resource::Grain => self.grain = self.grain + amount,
            Resource::Wool => self.wool = self.wool + amount,
        }
    }

    pub fn add_hand(&mut self, other: &ResourceHand)
        requires
            old(self).can_add(*other),
        ensures
            *final(self) == old(self).plus(*other),
    {
        self.brick = self.brick + other.brick;
        self.lumber = self.lumber + other.lumber;
        self.ore = self.ore + other.ore;
        self.grain = self.grain + other.grain;
        self.wool = self.wool + other.wool;
    }

    pub fn can_afford(&self, cost: &ResourceHand) -> (b: bool)
        ensures
            b == self.covers(*cost),
    {
        self.brick >= cost.brick && self.lumber >= cost.lumber && self.ore >= cost.ore
            && self.grain >= cost.grain && self.wool >= cost.wool
    }

    /// Pays `cost` out of the hand, which must cover it.
    pub fn subtract(&mut self, cost: &ResourceHand)
        requires
            old(self).covers(*cost),
        ensures
            *final(self) == old(self).minus(*cost),
            final(self).total_spec() == old(self).total_spec() - cost.total_spec(),
    {
        self.brick = self.brick - cost.brick;
        self.lumber = self.lumber - cost.lumber;
        self.ore = self.ore - cost.ore;
        self.grain = self.grain - cost.grain;
        self.wool = self.wool - cost.wool;
    }

    /// Pays `cost` if the hand covers it; otherwise leaves the hand as it is.
    pub fn try_subtract(&mut self, cost: &ResourceHand) -> (ok: bool)
        ensures
            ok == old(self).covers(*cost),
            ok ==> *final(self) == old(self).minus(*cost),
            !ok ==> *final(self) == *old(self),
    {
        if !self.can_afford(cost) {
            return false;
        }
        self.subtract(cost);
        true
    }

    /// The resource of card number `k` when the hand is laid out as its bricks, then
    /// lumber, ore, grain and wool.
    pub open spec fn card_at(self, k: int) -> Resource {
        if k < self.brick {
            Resource::Brick
        } else if k < self.brick + self.lumber {
            Resource::Lumber
        } else if k < self.brick + self.lumber + self.ore {
            Resource::Ore
        } else if k < self.brick + self.lumber + self.ore + self.grain {
            Resource::Grain
        } else {
            Resource::Wool
        }
    }

    /// Removes card number `k` (see `card_at`) and returns its resource.
    pub fn take_card(&mut self, k: u64) -> (r: Resource)
        requires
            k < old(self).total_spec(),
        ensures
            r == old(self).card_at(k as int),
            old(self).count(r) > 0,
            *final(self) == old(self).with_count(r, (old(self).count(r) - 1) as u32),
            final(self).total_spec() == old(self).total_spec() - 1,
    {
        let b = self.brick as u64;
        let l = b + self.lumber as u64;
        let o = l + self.ore as u64;
        let g = o + self.grain as u64;
        let r = if k < b {
            Resource::Brick
        } else if k < l {
            Resource::Lumber
        } else if k < o {
            Resource::Ore
        } else if k < g {
            Resource::Grain
        } else {
            Resource::Wool
        };
        let n = self.get(r);
        self.set(r, n - 1);
        r
    }

    /// Removes one card chosen uniformly among the hand's cards (not among resource
    /// kinds) and returns its resource; an empty hand gives `None` and stays empty.
    pub fn steal_random(&mut self) -> (r: Option<Resource>)
        ensures
            old(self).total_spec() == 0 <==> r.is_none(),
            r.is_none() ==> *final(self) == *old(self),
            r matches Some(res) ==> old(self).count(res) > 0 && *final(self) == old(
                self,
            ).with_count(res, (old(self).count(res) - 1) as u32),
    {
        let total = self.brick as u64 + self.lumber as u64 + self.ore as u64 + self.grain as u64
            + self.wool as u64;
        if total == 0 {
            return None;
        }
        let k = random_below(total);
        Some(self.take_card(k))
    }

    /// A hand with `amount` of `resource` and nothing else.
    pub fn single(resource: Resource, amount: u32) -> (h: ResourceHand)
        ensures
            h == single_spec(resource, amount),
    {
        let mut hand = ResourceHand::new();
        hand.add(resource, amount);
        hand
    }

    /// The non-zero counts, as (resource, count) pairs in the order brick, lumber, ore,
    /// grain, wool.
    pub fn to_map(&self) -> (m: Vec<(Resource, u32)>)
        ensures
            forall|i: int| 0 <= i < m@.len() ==> m@[i].1 > 0 && m@[i].1 == self.count(m@[i].0),
            forall|r: Resource| self.count(r) > 0 ==> exists|i: int| 0 <= i < m@.len() && m@[i].0 == r,
            forall|i: int, j: int| 0 <= i < j < m@.len() ==> m@[i].0 != m@[j].0,
    {
        let mut m: Vec<(Resource, u32)> = Vec::new();
        if self.brick > 0 {
            m.push((Resource::Brick, self.brick));
        }
        let ghost m1 = m@;
        if self.lumber > 0 {
            m.push((Resource::Lumber, self.lumber));
        }
        let ghost m2 = m@;
        if self.ore > 0 {
            m.push((Resource::Ore, self.ore));
        }
        let ghost m3 = m@;
        if self.grain > 0 {
            m.push((Resource::Grain, self.grain));
        }
        let ghost m4 = m@;
        if self.wool > 0 {
            m.push((Resource::Wool, self.wool));
        }
        proof {
            assert forall|r: Resource| self.count(r) > 0 implies exists|i: int|
                0 <= i < m@.len() && m@[i].0 == r by {
                match r {
                    Resource::Brick => assert(m@[0].0 == r),
                    Resource::Lumber => assert(m@[m1.len() as int].0 == r),
                    Resource::Ore => assert(m@[m2.len() as int].0 == r),
                    Resource::Grain => assert(m@[m3.len() as int].0 == r),
                    Resource::Wool => assert(m@[m4.len() as int].0 == r),
                }
            }
        }
        m
    }
}

/// A player's ledger: resources, cards, awards and pieces left.
#[derive(Debug, Clone)]
pub struct Player {
    pub id: PlayerId,
    pub name: String,
    pub color: PlayerColor,
    pub resources: ResourceHand,
    pub dev_cards: Vec<DevelopmentCard>,
    pub dev_cards_bought_this_turn: Vec<DevelopmentCard>,
    pub played_knights: u32,
    pub has_longest_road: bool,
    pub has_largest_army: bool,
    pub settlements_remaining: u32,
    pub cities_remaining: u32,
    pub roads_remaining: u32,
}

/// Counts a Victory Point card in `s` while walking it: the count over the first `i + 1`
/// cards is the count over the first `i` and the next.
pub proof fn lemma_count_card_step(s: Seq<DevelopmentCard>, c: DevelopmentCard, i: int)
    requires
        0 <= i < s.len(),
    ensures
        count_card(s.subrange(0, i + 1), c) == count_card(s.subrange(0, i), c) + if s[i]
            == c {
            1nat
        } else {
            0nat
        },
{
    assert(s.subrange(0, i + 1).drop_last() =~= s.subrange(0, i));
}

pub proof fn lemma_count_card_le(s: Seq<DevelopmentCard>, c: DevelopmentCard)
    ensures
        count_card(s, c) <= s.len(),
    decreases s.len(),
{
    if s.len() > 0 {
        lemma_count_card_le(s.drop_last(), c);
    }
}

/// Number of `c` cards in `v`.
fn count_in(v: &Vec<DevelopmentCard>, c: DevelopmentCard) -> (n: u32)
    requires
        v@.len() <= u32::MAX,
    ensures
        n == count_card(v@, c),
{
    let mut n: u32 = 0;
    let mut i: usize = 0;
    while i < v.len()
        invariant
            0 <= i <= v@.len() <= u32::MAX,
            n == count_card(v@.subrange(0, i as int), c),
        decreases v@.len() - i,
    {
        proof {
            lemma_count_card_step(v@, c, i as int);
            lemma_count_card_le(v@.subrange(0, i as int), c);
        }
        if v[i] == c {
            n = n + 1;
        }
        i = i + 1;
    }
    assert(v@.subrange(0, v@.len() as int) =~= v@);
    n
}

impl Player {
    /// Points from awards and Victory Point cards (buildings are counted on the board).
    pub open spec fn award_points(self) -> int {
        (if self.has_longest_road {
            2int
        } else {
            0
        }) + (if self.has_largest_army {
            2int
        } else {
            0
        }) + count_card(self.dev_cards@, DevelopmentCard::VictoryPoint)
    }

    /// The card lists are small enough to count.
    pub open spec fn card_lists_bounded(self) -> bool {
        self.dev_cards@.len() <= 1000 && self.dev_cards_bought_this_turn@.len() <= 1000
    }

    /// The player as they join: empty hand, no cards, no awards, and the full set of
    /// pieces (5 settlements, 4 cities, 15 roads).
    pub open spec fn is_fresh(self, id: PlayerId, name: String) -> bool {
        &&& self.id == id
        &&& self.name == name
        &&& self.color == color_of(id)
        &&& self.resources == (ResourceHand { brick: 0, lumber: 0, ore: 0, grain: 0, wool: 0 })
        &&& self.dev_cards@.len() == 0
        &&& self.dev_cards_bought_this_turn@.len() == 0
        &&& self.played_knights == 0
        &&& !self.has_longest_road
        &&& !self.has_largest_army
        &&& self.settlements_remaining == 5
        &&& self.cities_remaining == 4
        &&& self.roads_remaining == 15
    }

    /// A new player with an empty hand and the full set of pieces: 5 settlements, 4
    /// cities and 15 roads.
    pub fn new(id: PlayerId, name: String) -> (p: Player)
        ensures
            p.id == id,
            p.name == name,
            p.color == color_of(id),
            p.resources == (ResourceHand { brick: 0, lumber: 0, ore: 0, grain: 0, wool: 0 }),
            p.dev_cards@.len() == 0,
            p.dev_cards_bought_this_turn@.len() == 0,
            p.played_knights == 0,
            !p.has_longest_road,
            !p.has_largest_army,
            p.settlements_remaining == 5,
            p.cities_remaining == 4,
            p.roads_remaining == 15,
    {
        Player {
            id,
            name,
            color: PlayerColor::for_player(id),
            resources: ResourceHand::new(),
            dev_cards: Vec::new(),
            dev_cards_bought_this_turn: Vec::new(),
            played_knights: 0,
            has_longest_road: false,
            has_largest_army: false,
            settlements_remaining: 5,
            cities_remaining: 4,
            roads_remaining: 15,
        }
    }

    /// Points from the two awards and from held Victory Point cards.
    pub fn victory_points(&self) -> (vp: u32)
        requires
            self.card_lists_bounded(),
        ensures
            vp == self.award_points(),
    {
        let mut vp: u32 = 0;
        if self.has_longest_road {
            vp = vp + 2;
        }
        if self.has_largest_army {
            vp = vp + 2;
        }
        proof {
            lemma_count_card_le(self.dev_cards@, DevelopmentCard::VictoryPoint);
        }
        vp + count_in(&self.dev_cards, DevelopmentCard::VictoryPoint)
    }

    /// Victory Point cards held (not revealed to other players).
    pub fn hidden_vp(&self) -> (n: u32)
        requires
            self.card_lists_bounded(),
        ensures
            n == count_card(self.dev_cards@, DevelopmentCard::VictoryPoint),
    {
        count_in(&self.dev_cards, DevelopmentCard::VictoryPoint)
    }

    pub fn can_afford_road(&self) -> (b: bool)
        ensures
            b == (self.resources.covers(road_cost()) && self.roads_remaining > 0),
    {
        self.resources.can_afford(&road()) && self.roads_remaining > 0
    }

    pub fn can_afford_settlement(&self) -> (b: bool)
        ensures
            b == (self.resources.covers(settlement_cost()) && self.settlements_remaining > 0),
    {
        self.resources.can_afford(&settlement()) && self.settlements_remaining > 0
    }

    pub fn can_afford_city(&self) -> (b: bool)
        ensures
            b == (self.resources.covers(city_cost()) && self.cities_remaining > 0),
    {
        self.resources.can_afford(&city()) && self.cities_remaining > 0
    }

    pub fn can_afford_dev_card(&self) -> (b: bool)
        ensures
            b == self.resources.covers(dev_card_cost()),
    {
        self.resources.can_afford(&development_card())
    }

    /// Pays for a road and takes a road piece.
    pub fn buy_road(&mut self)
        requires
            old(self).resources.covers(road_cost()),
            old(self).roads_remaining > 0,
        ensures
            *final(self) == (Player {
                resources: old(self).resources.minus(road_cost()),
                roads_remaining: (old(self).roads_remaining - 1) as u32,
                ..*old(self)
            }),
    {
        self.resources.subtract(&road());
        self.roads_remaining = self.roads_remaining - 1;
    }

    /// Pays for a settlement and takes a settlement piece.
    pub fn buy_settlement(&mut self)
        requires
            old(self).resources.covers(settlement_cost()),
            old(self).settlements_remaining > 0,
        ensures
            *final(self) == (Player {
                resources: old(self).resources.minus(settlement_cost()),
                settlements_remaining: (old(self).settlements_remaining - 1) as u32,
                ..*old(self)
            }),
    {
        self.resources.subtract(&settlement());
        self.settlements_remaining = self.settlements_remaining - 1;
    }

    /// Pays for a city, takes a city piece and gets the replaced settlement piece back.
    pub fn buy_city(&mut self)
        requires
            old(self).resources.covers(city_cost()),
            old(self).cities_remaining > 0,
            old(self).settlements_remaining < u32::MAX,
        ensures
            *final(self) == (Player {
                resources: old(self).resources.minus(city_cost()),
                cities_remaining: (old(self).cities_remaining - 1) as u32,
                settlements_remaining: (old(self).settlements_remaining + 1) as u32,
                ..*old(self)
            }),
    {
        self.resources.subtract(&city());
        self.cities_remaining = self.cities_remaining - 1;
        self.settlements_remaining = self.settlements_remaining + 1;
    }

    /// Pays for a development card; it can be played from the next turn on.
    pub fn buy_dev_card(&mut self, card: DevelopmentCard)
        requires
            old(self).resources.covers(dev_card_cost()),
        ensures
            *final(self) == (Player {
                resources: old(self).resources.minus(dev_card_cost()),
                dev_cards_bought_this_turn: final(self).dev_cards_bought_this_turn,
                ..*old(self)
            }),
            final(self).dev_cards_bought_this_turn@ == old(self).dev_cards_bought_this_turn@.push(
                card,
            ),
    {
        self.resources.subtract(&development_card());
        self.dev_cards_bought_this_turn.push(card);
    }

    /// Cards bought this turn become playable.
    pub fn end_turn(&mut self)
        ensures
            *final(self) == (Player {
                dev_cards: final(self).dev_cards,
                dev_cards_bought_this_turn: final(self).dev_cards_bought_this_turn,
                ..*old(self)
            }),
            final(self).dev_cards@ == old(self).dev_cards@ + old(self).dev_cards_bought_this_turn@,
            final(self).dev_cards_bought_this_turn@.len() == 0,
    {
        self.dev_cards.append(&mut self.dev_cards_bought_this_turn);
    }

    /// Holds a playable card of this kind (cards bought this turn do not count).
    pub fn has_playable_dev_card(&self, card_type: DevelopmentCard) -> (b: bool)
        ensures
            b == self.dev_cards@.contains(card_type),
    {
        let mut i: usize = 0;
        while i < self.dev_cards.len()
            invariant
                0 <= i <= self.dev_cards@.len(),
                forall|j: int| 0 <= j < i ==> self.dev_cards@[j] != card_type,
            decreases self.dev_cards@.len() - i,
        {
            if self.dev_cards[i] == card_type {
                return true;
            }
            i = i + 1;
        }
        false
    }

    /// Plays the first held card of this kind; a Knight also counts towards the army.
    /// Without such a card nothing changes and the result is false.
    pub fn play_dev_card(&mut self, card_type: DevelopmentCard) -> (ok: bool)
        requires
            old(self).played_knights < u32::MAX,
        ensures
            ok == old(self).dev_cards@.contains(card_type),
            !ok ==> *final(self) == *old(self),
            ok ==> exists|k: int|
                0 <= k < old(self).dev_cards@.len() && old(self).dev_cards@[k] == card_type
                    && (forall|j: int| 0 <= j < k ==> old(self).dev_cards@[j] != card_type)
                    && final(self).dev_cards@ == old(self).dev_cards@.remove(k),
            ok ==> *final(self) == (Player {
                dev_cards: final(self).dev_cards,
                played_knights: if card_type == DevelopmentCard::Knight {
                    (old(self).played_knights + 1) as u32
                } else {
                    old(self).played_knights
                },
                ..*old(self)
            }),
    {
        let mut i: usize = 0;
        while i < self.dev_cards.len()
            invariant
                0 <= i <= self.dev_cards@.len(),
                *self == *old(self),
                old(self).played_knights < u32::MAX,
                forall|j: int| 0 <= j < i ==> self.dev_cards@[j] != card_type,
            decreases self.dev_cards@.len() - i,
        {
            if self.dev_cards[i] == card_type {
                let knights = self.played_knights;
                self.dev_cards.remove(i);
                if card_type == DevelopmentCard::Knight {
                    self.played_knights = knights + 1;
                }
                return true;
            }
            i = i + 1;
        }
        false
    }
}

} // verus!
