//! The board: tiles, buildings, harbours and the robber, with the placement rules,
//! production and the longest-road search.
use crate::hex::{
    EdgeDirection, VertexDirection, adjacent_vertices_spec, canonical_edge, endpoints_spec, hex_edges_spec, hex_vertices_spec,
    vertex_edges_spec, vertex_hexes, EdgeCoord, HexCoord, VertexCoord,
};
use crate::player::ResourceHand;
use crate::random::{random_below, shuffle_vec};
use vstd::prelude::*;

verus! {

/// Seat number of a player.
pub type PlayerId = u8;

/// The five resources.
#[derive(Debug, Clone, Copy, PartialEq, Eq, Structural, Hash)]
pub enum Resource {
    Brick,
    Lumber,
    Ore,
    Grain,
    Wool,
}

impl Resource {
    /// All five, in the order brick, lumber, ore, grain, wool.
    pub fn all() -> (rs: [Resource; 5])
        ensures
            rs@ == seq![Resource::Brick, Resource::Lumber, Resource::Ore, Resource::Grain, Resource::Wool],
    {
        let rs = [Resource::Brick, Resource::Lumber, Resource::Ore, Resource::Grain, Resource::Wool];
        assert(rs@ =~= seq![Resource::Brick, Resource::Lumber, Resource::Ore, Resource::Grain, Resource::Wool]);
        rs
    }

    /// The themed name shown for the resource.
    pub fn singapore_name(&self) -> (s: &'static str)
        ensures
            *self == Resource::Brick ==> s@ == "HDB Estate"@,
            *self == Resource::Lumber ==> s@ == "Botanic Gardens"@,
            *self == Resource::Ore ==> s@ == "Jurong Industrial"@,
            *self == Resource::Grain ==> s@ == "Hawker Center"@,
            *self == Resource::Wool ==> s@ == "Sentosa Resort"@,
    {
        match self {
            Resource::Brick => "HDB Estate",
            Resource::Lumber => "Botanic Gardens",
            Resource::Ore => "Jurong Industrial",
            Resource::Grain => "Hawker Center",
            Resource::Wool => "Sentosa Resort",
        }
    }
}

/// Largest magnitude of a coordinate stored on a board.
pub const BOARD_LIMIT: i32 = 0x1_0000;

/// Largest number of tiles a board holds.
pub const MAX_TILES: usize = 1000;

/// What a tile is.
#[derive(Debug, Clone, Copy, PartialEq, Eq, Structural)]
pub enum TileType {
    Resource(Resource),
    Desert,
    Ocean,
}

/// A harbour's trade: 3:1 for any resource, or 2:1 for one resource.
#[derive(Debug, Clone, Copy, PartialEq, Eq, Structural)]
pub enum Harbor {
    Generic,
    Specific(Resource),
}

impl Harbor {
    /// Cards given for one card received.
    pub fn rate(&self) -> (n: u32)
        ensures
            n == (if *self == Harbor::Generic {
                3u32
            } else {
                2u32
            }),
    {
        match self {
            Harbor::Generic => 3,
            Harbor::Specific(_) => 2,
        }
    }
}

/// One hex of the board.
#[derive(Debug, Clone, Copy)]
pub struct Tile {
    pub coord: HexCoord,
    pub tile_type: TileType,
    pub dice_number: Option<u8>,
    pub has_robber: bool,
    pub label: Option<&'static str>,
}

impl Tile {
    pub fn new_resource(coord: HexCoord, resource: Resource, dice_number: u8) -> (t: Tile)
        ensures
            t.coord == coord,
            t.tile_type == TileType::Resource(resource),
            t.dice_number == Some(dice_number),
            !t.has_robber,
            t.label.is_none(),
    {
        Tile {
            coord,
            tile_type: TileType::Resource(resource),
            dice_number: Some(dice_number),
            has_robber: false,
            label: None,
        }
    }

    /// A desert tile; the robber starts there.
    pub fn desert(coord: HexCoord) -> (t: Tile)
        ensures
            t.coord == coord,
            t.tile_type == TileType::Desert,
            t.dice_number.is_none(),
            t.has_robber,
            t.label.is_some(),
    {
        Tile {
            coord,
            tile_type: TileType::Desert,
            dice_number: None,
            has_robber: true,
            label: Some("Bukit Timah"),
        }
    }

    pub fn ocean(coord: HexCoord) -> (t: Tile)
        ensures
            t.coord == coord,
            t.tile_type == TileType::Ocean,
            t.dice_number.is_none(),
            !t.has_robber,
            t.label.is_none(),
    {
        Tile { coord, tile_type: TileType::Ocean, dice_number: None, has_robber: false, label: None }
    }

    /// A resource tile without the robber.
    pub fn is_productive(&self) -> (b: bool)
        ensures
            b == (self.tile_type is Resource && !self.has_robber),
    {
        matches!(self.tile_type, TileType::Resource(_)) && !self.has_robber
    }

    pub fn resource(&self) -> (r: Option<Resource>)
        ensures
            r == resource_of(self.tile_type),
    {
        match self.tile_type {
            TileType::Resource(r) => Some(r),
            _ => None,
        }
    }
}

pub open spec fn resource_of(t: TileType) -> Option<Resource> {
    match t {
        TileType::Resource(r) => Some(r),
        _ => None,
    }
}

/// What stands on a vertex.
#[derive(Debug, Clone, Copy, PartialEq, Eq, Structural, Default)]
pub enum VertexBuilding {
    #[default]
    Empty,
    Settlement(PlayerId),
    City(PlayerId),
}

pub open spec fn owner_of(b: VertexBuilding) -> Option<PlayerId> {
    match b {
        VertexBuilding::Empty => None,
        VertexBuilding::Settlement(p) => Some(p),
        VertexBuilding::City(p) => Some(p),
    }
}

/// Cards a building earns per producing tile: 1 for a settlement, 2 for a city.
pub open spec fn multiplier_of(b: VertexBuilding) -> int {
    match b {
        VertexBuilding::Empty => 0,
        VertexBuilding::Settlement(_) => 1,
        VertexBuilding::City(_) => 2,
    }
}

impl VertexBuilding {
    pub fn owner(&self) -> (o: Option<PlayerId>)
        ensures
            o == owner_of(*self),
    {
        match self {
            VertexBuilding::Empty => None,
            VertexBuilding::Settlement(p) => Some(*p),
            VertexBuilding::City(p) => Some(*p),
        }
    }

    pub fn victory_points(&self) -> (n: u32)
        ensures
            n == multiplier_of(*self),
    {
        match self {
            VertexBuilding::Empty => 0,
            VertexBuilding::Settlement(_) => 1,
            VertexBuilding::City(_) => 2,
        }
    }

    pub fn resource_multiplier(&self) -> (n: u32)
        ensures
            n == multiplier_of(*self),
    {
        match self {
            VertexBuilding::Empty => 0,
            VertexBuilding::Settlement(_) => 1,
            VertexBuilding::City(_) => 2,
        }
    }
}

/// What lies on an edge.
#[derive(Debug, Clone, Copy, PartialEq, Eq, Structural, Default)]
pub enum EdgeBuilding {
    #[default]
    Empty,
    Road(PlayerId),
}

impl EdgeBuilding {
    pub fn owner(&self) -> (o: Option<PlayerId>)
        ensures
            o == (match *self {
                EdgeBuilding::Empty => None,
                EdgeBuilding::Road(p) => Some(p),
            }),
    {
        match self {
            EdgeBuilding::Empty => None,
            EdgeBuilding::Road(p) => Some(*p),
        }
    }
}

/// A harbour on a coastal edge.
#[derive(Debug, Clone, Copy, PartialEq, Eq, Structural)]
pub struct HarborPlacement {
    pub edge: EdgeCoord,
    pub harbor_type: Harbor,
}

/// The value stored under `k` in an association list, or `default`.
pub open spec fn lookup<K, V>(s: Seq<(K, V)>, k: K, default: V) -> V {
    if exists|i: int| 0 <= i < s.len() && s[i].0 == k {
        s[choose|i: int| 0 <= i < s.len() && s[i].0 == k].1
    } else {
        default
    }
}

/// No key occurs twice.
pub open spec fn keys_unique<K, V>(s: Seq<(K, V)>) -> bool {
    forall|i: int, j: int| 0 <= i < s.len() && 0 <= j < s.len() && i != j ==> s[i].0 != s[j].0
}

pub proof fn lemma_lookup_at<K, V>(s: Seq<(K, V)>, i: int, default: V)
    requires
        keys_unique(s),
        0 <= i < s.len(),
    ensures
        lookup(s, s[i].0, default) == s[i].1,
{
    let k = s[i].0;
    assert(s[i].0 == k);
    let j = choose|j: int| 0 <= j < s.len() && s[j].0 == k;
    assert(j == i);
}

/// Writing `(k, v)` over the entry at `i`, whose key is `k`, changes the lookup of `k`
/// alone.
pub proof fn lemma_lookup_update<K, V>(s: Seq<(K, V)>, i: int, k: K, v: V, x: K, default: V)
    requires
        keys_unique(s),
        0 <= i < s.len(),
        s[i].0 == k,
    ensures
        keys_unique(s.update(i, (k, v))),
        lookup(s.update(i, (k, v)), x, default) == if x == k {
            v
        } else {
            lookup(s, x, default)
        },
{
    let t = s.update(i, (k, v));
    assert(t[i].0 == k);
    if x == k {
        lemma_lookup_at(t, i, default);
    } else {
        if exists|j: int| 0 <= j < s.len() && s[j].0 == x {
            let j = choose|j: int| 0 <= j < s.len() && s[j].0 == x;
            assert(t[j].0 == x);
            lemma_lookup_at(s, j, default);
            lemma_lookup_at(t, j, default);
        } else {
            assert forall|j: int| 0 <= j < t.len() implies t[j].0 != x by {
                if j != i {
                    assert(t[j] == s[j]);
                }
            }
        }
    }
}

/// Appending `(k, v)`, with `k` new, changes the lookup of `k` alone.
pub proof fn lemma_lookup_push<K, V>(s: Seq<(K, V)>, k: K, v: V, x: K, default: V)
    requires
        keys_unique(s),
        forall|j: int| 0 <= j < s.len() ==> s[j].0 != k,
    ensures
        keys_unique(s.push((k, v))),
        lookup(s.push((k, v)), x, default) == if x == k {
            v
        } else {
            lookup(s, x, default)
        },
{
    let t = s.push((k, v));
    let n = s.len() as int;
    assert(t[n].0 == k);
    if x == k {
        lemma_lookup_at(t, n, default);
    } else {
        if exists|j: int| 0 <= j < s.len() && s[j].0 == x {
            let j = choose|j: int| 0 <= j < s.len() && s[j].0 == x;
            assert(t[j].0 == x);
            lemma_lookup_at(s, j, default);
            lemma_lookup_at(t, j, default);
        } else {
            assert forall|j: int| 0 <= j < t.len() implies t[j].0 != x by {
                if j < n {
                    assert(t[j] == s[j]);
                }
            }
        }
    }
}

/// `x` is one of the first six items of `s`.
pub open spec fn among6<T>(s: Seq<T>, x: T) -> bool {
    x == s[0] || x == s[1] || x == s[2] || x == s[3] || x == s[4] || x == s[5]
}

/// The board. Buildings and roads are kept sparsely: a coordinate without an entry is
/// empty.
#[derive(Debug, Clone)]
pub struct Board {
    tiles: Vec<Tile>,
    vertices: Vec<(VertexCoord, VertexBuilding)>,
    edges: Vec<(EdgeCoord, EdgeBuilding)>,
    harbors: Vec<HarborPlacement>,
    robber_location: HexCoord,
}

impl HexCoord {
    /// Small enough to stand on a board.
    pub open spec fn on_board_scale(self) -> bool {
        self.within(BOARD_LIMIT as int)
    }
}

impl Board {
    pub closed spec fn tiles_view(self) -> Seq<Tile> {
        self.tiles@
    }

    pub closed spec fn vertices_view(self) -> Seq<(VertexCoord, VertexBuilding)> {
        self.vertices@
    }

    pub closed spec fn edges_view(self) -> Seq<(EdgeCoord, EdgeBuilding)> {
        self.edges@
    }

    pub closed spec fn harbors_view(self) -> Seq<HarborPlacement> {
        self.harbors@
    }

    pub closed spec fn robber_spec(self) -> HexCoord {
        self.robber_location
    }

    /// Keys are unique, coordinates are small, stored edges are canonical, and the
    /// robber flag is set on exactly the tile at the robber's location.
    pub open spec fn wf(self) -> bool {
        let ts = self.tiles_view();
        let vs = self.vertices_view();
        let es = self.edges_view();
        &&& ts.len() <= MAX_TILES
        &&& forall|i: int, j: int|
            0 <= i < ts.len() && 0 <= j < ts.len() && i != j ==> ts[i].coord != ts[j].coord
        &&& keys_unique(vs)
        &&& keys_unique(es)
        &&& forall|i: int| 0 <= i < ts.len() ==> (#[trigger] ts[i]).coord.on_board_scale()
        &&& forall|i: int| 0 <= i < vs.len() ==> (#[trigger] vs[i]).0.near_board()
        &&& forall|i: int|
            0 <= i < es.len() ==> (#[trigger] es[i]).0.near_board() && canonical_edge(es[i].0)
                == es[i].0
        &&& forall|i: int|
            0 <= i < self.harbors_view().len() ==> (
            #[trigger] self.harbors_view()[i]).edge.near_board()
        &&& self.robber_spec().on_board_scale()
        &&& forall|i: int|
            0 <= i < ts.len() ==> ((#[trigger] ts[i]).has_robber <==> ts[i].coord
                == self.robber_spec())
    }

    pub open spec fn has_tile(self, h: HexCoord) -> bool {
        exists|i: int| 0 <= i < self.tiles_view().len() && self.tiles_view()[i].coord == h
    }

    pub open spec fn tile_of(self, h: HexCoord) -> Tile {
        let i = choose|i: int| 0 <= i < self.tiles_view().len() && self.tiles_view()[i].coord == h;
        self.tiles_view()[i]
    }

    /// A tile that is not ocean stands at `h`.
    pub open spec fn is_land_hex(self, h: HexCoord) -> bool {
        self.has_tile(h) && self.tile_of(h).tile_type != TileType::Ocean
    }

    /// What stands on `v` (empty where nothing is recorded).
    pub open spec fn vertex_at(self, v: VertexCoord) -> VertexBuilding {
        lookup(self.vertices_view(), v, VertexBuilding::Empty)
    }

    /// What lies on `e` (empty where nothing is recorded).
    pub open spec fn edge_at(self, e: EdgeCoord) -> EdgeBuilding {
        lookup(self.edges_view(), e, EdgeBuilding::Empty)
    }

    /// `v` is a corner of some land tile.
    pub open spec fn land_vertex(self, v: VertexCoord) -> bool {
        exists|i: int|
            0 <= i < self.tiles_view().len() && self.tiles_view()[i].tile_type != TileType::Ocean
                && among6(hex_vertices_spec(self.tiles_view()[i].coord), v)
    }

    /// `e` is a side of some land tile.
    pub open spec fn land_edge(self, e: EdgeCoord) -> bool {
        exists|i: int|
            0 <= i < self.tiles_view().len() && self.tiles_view()[i].tile_type != TileType::Ocean
                && among6(hex_edges_spec(self.tiles_view()[i].coord), e)
    }

    /// None of the three neighbouring corners holds a building.
    pub open spec fn distance_ok(self, v: VertexCoord) -> bool {
        let a = adjacent_vertices_spec(v);
        self.vertex_at(a[0]) == VertexBuilding::Empty && self.vertex_at(a[1])
            == VertexBuilding::Empty && self.vertex_at(a[2]) == VertexBuilding::Empty
    }

    /// One of the sides meeting at `v` carries a road of `p`.
    pub open spec fn road_touches(self, v: VertexCoord, p: PlayerId) -> bool {
        let t = vertex_edges_spec(v);
        self.edge_at(t[0]) == EdgeBuilding::Road(p) || self.edge_at(t[1]) == EdgeBuilding::Road(p)
            || self.edge_at(t[2]) == EdgeBuilding::Road(p)
    }

    /// A settlement of `p` may go on `v`: on land, empty, by the distance rule, and
    /// outside setup next to one of `p`'s roads.
    pub open spec fn settlement_ok(self, v: VertexCoord, p: PlayerId, is_setup: bool) -> bool {
        &&& self.land_vertex(v)
        &&& self.vertex_at(v) == VertexBuilding::Empty
        &&& self.distance_ok(v)
        &&& (is_setup || self.road_touches(v, p))
    }

    /// Seen from endpoint `end` of `e`, `e` joins `p`'s network: `p` builds at `end`, or
    /// no opponent builds there and another side at `end` carries `p`'s road.
    pub open spec fn joins_at(self, e: EdgeCoord, end: VertexCoord, p: PlayerId) -> bool {
        let o = owner_of(self.vertex_at(end));
        let t = vertex_edges_spec(end);
        o == Some(p) || ((o.is_none() || o == Some(p)) && ((t[0] != e && self.edge_at(t[0])
            == EdgeBuilding::Road(p)) || (t[1] != e && self.edge_at(t[1]) == EdgeBuilding::Road(p))
            || (t[2] != e && self.edge_at(t[2]) == EdgeBuilding::Road(p))))
    }

    pub open spec fn connected_spec(self, e: EdgeCoord, p: PlayerId) -> bool {
        let ends = endpoints_spec(e);
        self.joins_at(e, ends[0], p) || self.joins_at(e, ends[1], p)
    }

    /// A road of `p` may go on `e`: a land side, empty, joining `p`'s network.
    pub open spec fn road_ok(self, e: EdgeCoord, p: PlayerId) -> bool {
        self.land_edge(e) && self.edge_at(e) == EdgeBuilding::Empty && self.connected_spec(e, p)
    }

    /// A harbour that `p` reaches: `p` builds at one of its edge's endpoints.
    pub open spec fn reaches(self, h: HarborPlacement, p: PlayerId) -> bool {
        let ends = endpoints_spec(h.edge);
        owner_of(self.vertex_at(ends[0])) == Some(p) || owner_of(self.vertex_at(ends[1])) == Some(p)
    }

    /// The harbour kinds `p` reaches, in the order the harbours are listed.
    pub open spec fn harbors_of(self, hs: Seq<HarborPlacement>, p: PlayerId) -> Seq<Harbor>
        decreases hs.len(),
    {
        if hs.len() == 0 {
            Seq::empty()
        } else {
            let rest = self.harbors_of(hs.drop_last(), p);
            if self.reaches(hs.last(), p) {
                rest.push(hs.last().harbor_type)
            } else {
                rest
            }
        }
    }

    /// The board's tiles, buildings and robber are those of `other`, with the vertex
    /// map of `self`.
    pub open spec fn same_but_vertices(self, other: Board) -> bool {
        self.tiles_view() == other.tiles_view() && self.edges_view() == other.edges_view()
            && self.harbors_view() == other.harbors_view() && self.robber_spec()
            == other.robber_spec()
    }

    pub open spec fn same_but_edges(self, other: Board) -> bool {
        self.tiles_view() == other.tiles_view() && self.vertices_view() == other.vertices_view()
            && self.harbors_view() == other.harbors_view() && self.robber_spec()
            == other.robber_spec()
    }

    /// `self` is `before` with the robber moved to `h`: the flag is set on exactly the
    /// tile at `h`, and nothing else changed.
    pub open spec fn robber_moved(self, before: Board, h: HexCoord) -> bool {
        &&& self.robber_spec() == h
        &&& self.vertices_view() == before.vertices_view()
        &&& self.edges_view() == before.edges_view()
        &&& self.harbors_view() == before.harbors_view()
        &&& self.tiles_view().len() == before.tiles_view().len()
        &&& forall|i: int|
            0 <= i < before.tiles_view().len() ==> #[trigger] self.tiles_view()[i] == (Tile {
                has_robber: before.tiles_view()[i].coord == h,
                ..before.tiles_view()[i]
            })
    }

    /// An empty board with the robber at the origin.
    pub fn new() -> (b: Board)
        ensures
            b.wf(),
            b.tiles_view().len() == 0,
            b.vertices_view().len() == 0,
            b.edges_view().len() == 0,
            b.harbors_view().len() == 0,
            b.robber_spec() == (HexCoord { q: 0, r: 0 }),
    {
        Board {
            tiles: Vec::new(),
            vertices: Vec::new(),
            edges: Vec::new(),
            harbors: Vec::new(),
            robber_location: HexCoord::new(0, 0),
        }
    }

    fn find_tile(&self, coord: &HexCoord) -> (r: Option<usize>)
        requires
            self.wf(),
        ensures
            r.is_some() == self.has_tile(*coord),
            r matches Some(i) ==> i < self.tiles_view().len() && self.tiles_view()[i as int].coord
                == *coord && self.tile_of(*coord) == self.tiles_view()[i as int],
    {
        let mut i: usize = 0;
        while i < self.tiles.len()
            invariant
                self.wf(),
                0 <= i <= self.tiles@.len(),
                forall|j: int| 0 <= j < i ==> self.tiles@[j].coord != *coord,
            decreases self.tiles@.len() - i,
        {
            if self.tiles[i].coord == *coord {
                proof {
                    let ts = self.tiles@;
                    assert(ts[i as int].coord == *coord);
                    let j = choose|j: int| 0 <= j < ts.len() && ts[j].coord == *coord;
                    assert(j == i);
                }
                return Some(i);
            }
            i = i + 1;
        }
        None
    }

    /// The tile at `coord`, if the board has one.
    pub fn get_tile(&self, coord: &HexCoord) -> (t: Option<&Tile>)
        requires
            self.wf(),
        ensures
            t.is_some() == self.has_tile(*coord),
            t matches Some(x) ==> *x == self.tile_of(*coord),
    {
        match self.find_tile(coord) {
            Some(i) => Some(&self.tiles[i]),
            None => None,
        }
    }

    fn is_land_at(&self, coord: &HexCoord) -> (b: bool)
        requires
            self.wf(),
        ensures
            b == self.is_land_hex(*coord),
    {
        match self.find_tile(coord) {
            Some(i) => self.tiles[i].tile_type != TileType::Ocean,
            None => false,
        }
    }

    /// The tiles that are not ocean, in the board's order.
    pub fn land_tiles(&self) -> (ts: Vec<Tile>)
        ensures
            forall|x: Tile| ts@.contains(x) <==> (self.tiles_view().contains(x) && x.tile_type
                != TileType::Ocean),
    {
        let mut out: Vec<Tile> = Vec::new();
        let mut i: usize = 0;
        while i < self.tiles.len()
            invariant
                0 <= i <= self.tiles@.len(),
                forall|x: Tile| out@.contains(x) <==> (self.tiles@.subrange(0, i as int).contains(x)
                    && x.tile_type != TileType::Ocean),
            decreases self.tiles@.len() - i,
        {
            let t = self.tiles[i];
            let ghost prev = out@;
            if t.tile_type != TileType::Ocean {
                out.push(t);
            }
            proof {
                let pre = self.tiles@.subrange(0, i as int);
                assert(self.tiles@.subrange(0, i + 1) =~= pre.push(t));
                assert forall|x: Tile| out@.contains(x) <==> (self.tiles@.subrange(
                    0,
                    i + 1,
                ).contains(x) && x.tile_type != TileType::Ocean) by {
                    crate::hex::lemma_push_contains(pre, t, x);
                    crate::hex::lemma_push_contains(prev, t, x);
                }
            }
            i = i + 1;
        }
        assert(self.tiles@.subrange(0, self.tiles@.len() as int) =~= self.tiles@);
        out
    }

    fn find_vertex(&self, v: &VertexCoord) -> (r: Option<usize>)
        requires
            self.wf(),
        ensures
            r.is_none() ==> self.vertex_at(*v) == VertexBuilding::Empty && forall|j: int|
                0 <= j < self.vertices_view().len() ==> self.vertices_view()[j].0 != *v,
            r matches Some(i) ==> i < self.vertices_view().len() && self.vertices_view()[i as int].0
                == *v && self.vertex_at(*v) == self.vertices_view()[i as int].1,
    {
        let mut i: usize = 0;
        while i < self.vertices.len()
            invariant
                self.wf(),
                0 <= i <= self.vertices@.len(),
                forall|j: int| 0 <= j < i ==> self.vertices@[j].0 != *v,
            decreases self.vertices@.len() - i,
        {
            if self.vertices[i].0 == *v {
                proof {
                    let vs = self.vertices@;
                    assert(vs[i as int].0 == *v);
                    let j = choose|j: int| 0 <= j < vs.len() && vs[j].0 == *v;
                    assert(j == i);
                }
                return Some(i);
            }
            i = i + 1;
        }
        None
    }

    fn find_edge(&self, e: &EdgeCoord) -> (r: Option<usize>)
        requires
            self.wf(),
        ensures
            r.is_none() ==> self.edge_at(*e) == EdgeBuilding::Empty && forall|j: int|
                0 <= j < self.edges_view().len() ==> self.edges_view()[j].0 != *e,
            r matches Some(i) ==> i < self.edges_view().len() && self.edges_view()[i as int].0
                == *e && self.edge_at(*e) == self.edges_view()[i as int].1,
    {
        let mut i: usize = 0;
        while i < self.edges.len()
            invariant
                self.wf(),
                0 <= i <= self.edges@.len(),
                forall|j: int| 0 <= j < i ==> self.edges@[j].0 != *e,
            decreases self.edges@.len() - i,
        {
            if self.edges[i].0 == *e {
                proof {
                    let es = self.edges@;
                    assert(es[i as int].0 == *e);
                    let j = choose|j: int| 0 <= j < es.len() && es[j].0 == *e;
                    assert(j == i);
                }
                return Some(i);
            }
            i = i + 1;
        }
        None
    }

    /// What stands on `coord`; empty where nothing was built.
    pub fn get_vertex(&self, coord: &VertexCoord) -> (b: VertexBuilding)
        requires
            self.wf(),
        ensures
            b == self.vertex_at(*coord),
    {
        match self.find_vertex(coord) {
            Some(i) => self.vertices[i].1,
            None => VertexBuilding::Empty,
        }
    }

    /// What lies on `coord`; empty where nothing was built.
    pub fn get_edge(&self, coord: &EdgeCoord) -> (b: EdgeBuilding)
        requires
            self.wf(),
        ensures
            b == self.edge_at(*coord),
    {
        match self.find_edge(coord) {
            Some(i) => self.edges[i].1,
            None => EdgeBuilding::Empty,
        }
    }

    /// The harbours, in the order they were placed.
    pub fn harbors(&self) -> (hs: &Vec<HarborPlacement>)
        ensures
            hs@ == self.harbors_view(),
    {
        &self.harbors
    }

    pub fn robber_location(&self) -> (h: HexCoord)
        ensures
            h == self.robber_spec(),
    {
        self.robber_location
    }
}

/// Adds `x` to `out` unless it is already there.
fn push_unique_vertex(out: &mut Vec<VertexCoord>, x: VertexCoord)
    requires
        old(out)@.no_duplicates(),
    ensures
        final(out)@.no_duplicates(),
        forall|y: VertexCoord| final(out)@.contains(y) <==> (old(out)@.contains(y) || y == x),
{
    if !crate::hex::contains_vertex(out, x) {
        out.push(x);
    }
    proof {
        assert forall|y: VertexCoord| out@.contains(y) <==> (old(out)@.contains(y) || y == x) by {
            crate::hex::lemma_push_contains(old(out)@, x, y);
        }
    }
}

/// Adds `x` to `out` unless it is already there.
fn push_unique_edge(out: &mut Vec<EdgeCoord>, x: EdgeCoord)
    requires
        old(out)@.no_duplicates(),
    ensures
        final(out)@.no_duplicates(),
        forall|y: EdgeCoord| final(out)@.contains(y) <==> (old(out)@.contains(y) || y == x),
{
    if !crate::hex::contains_edge(out, x) {
        out.push(x);
    }
    proof {
        assert forall|y: EdgeCoord| out@.contains(y) <==> (old(out)@.contains(y) || y == x) by {
            crate::hex::lemma_push_contains(old(out)@, x, y);
        }
    }
}

impl VertexCoord {
    /// Close enough to a board for the rules' geometry.
    pub open spec fn near_board(self) -> bool {
        self.hex.within(BOARD_LIMIT + 2)
    }
}

impl EdgeCoord {
    /// Close enough to a board for the rules' geometry.
    pub open spec fn near_board(self) -> bool {
        self.hex.within(BOARD_LIMIT + 2)
    }
}

/// What a building of its owner earns from one producing tile, for player `p`.
pub open spec fn share(b: VertexBuilding, p: PlayerId) -> int {
    if owner_of(b) == Some(p) {
        multiplier_of(b)
    } else {
        0
    }
}

impl Board {
    /// The land tiles among the hexes meeting at `v`, in the order of `vertex_hexes`.
    pub open spec fn land_tiles_around(self, v: VertexCoord) -> Seq<Tile> {
        self.land_tiles_around_prefix(v, 3)
    }

    /// One of the hexes meeting at `v` is land.
    pub open spec fn touches_land(self, v: VertexCoord) -> bool {
        let hs = vertex_hexes(v);
        self.is_land_hex(hs[0]) || self.is_land_hex(hs[1]) || self.is_land_hex(hs[2])
    }

    /// One of the two hexes along `e` is land.
    pub open spec fn edge_touches_land(self, e: EdgeCoord) -> bool {
        self.is_land_hex(e.hex) || self.is_land_hex(crate::hex::neighbor_spec(e.hex, e.direction))
    }

    /// Cards of resource `r` that tile `t` gives player `p` on a roll of `roll`.
    pub open spec fn tile_yield(self, t: Tile, roll: u8, p: PlayerId, r: Resource) -> int {
        if t.dice_number == Some(roll) && !t.has_robber && t.tile_type == TileType::Resource(r) {
            let vs = hex_vertices_spec(t.coord);
            share(self.vertex_at(vs[0]), p) + share(self.vertex_at(vs[1]), p) + share(
                self.vertex_at(vs[2]),
                p,
            ) + share(self.vertex_at(vs[3]), p) + share(self.vertex_at(vs[4]), p) + share(
                self.vertex_at(vs[5]),
                p,
            )
        } else {
            0
        }
    }

    /// Cards of `r` that the first `n` tiles give `p` on a roll of `roll`.
    pub open spec fn produced(self, roll: u8, p: PlayerId, r: Resource, n: int) -> int
        decreases n,
    {
        if n <= 0 {
            0
        } else {
            self.produced(roll, p, r, n - 1) + self.tile_yield(self.tiles_view()[n - 1], roll, p, r)
        }
    }

    /// What `p` receives on a roll of `roll`.
    pub open spec fn production(self, roll: u8, p: PlayerId) -> ResourceHand {
        let n = self.tiles_view().len() as int;
        ResourceHand {
            brick: self.produced(roll, p, Resource::Brick, n) as u32,
            lumber: self.produced(roll, p, Resource::Lumber, n) as u32,
            ore: self.produced(roll, p, Resource::Ore, n) as u32,
            grain: self.produced(roll, p, Resource::Grain, n) as u32,
            wool: self.produced(roll, p, Resource::Wool, n) as u32,
        }
    }

    /// `p` builds on a corner of the tile at `h`.
    pub open spec fn owns_corner_of(self, h: HexCoord, p: PlayerId) -> bool {
        let vs = hex_vertices_spec(h);
        owner_of(self.vertex_at(vs[0])) == Some(p) || owner_of(self.vertex_at(vs[1])) == Some(p)
            || owner_of(self.vertex_at(vs[2])) == Some(p) || owner_of(self.vertex_at(vs[3]))
            == Some(p) || owner_of(self.vertex_at(vs[4])) == Some(p) || owner_of(
            self.vertex_at(vs[5]),
        ) == Some(p)
    }

    /// Every corner of every land tile, each once.
    pub fn land_vertices(&self) -> (out: Vec<VertexCoord>)
        requires
            self.wf(),
        ensures
            out@.no_duplicates(),
            forall|x: VertexCoord| out@.contains(x) <==> self.land_vertex(x),
            forall|x: VertexCoord| out@.contains(x) ==> x.near_board(),
    {
        let mut out: Vec<VertexCoord> = Vec::new();
        let mut i: usize = 0;
        while i < self.tiles.len()
            invariant
                self.wf(),
                0 <= i <= self.tiles@.len(),
                out@.no_duplicates(),
                forall|x: VertexCoord| out@.contains(x) ==> x.near_board(),
                forall|x: VertexCoord|
                    out@.contains(x) <==> exists|j: int|
                        0 <= j < i && self.tiles@[j].tile_type != TileType::Ocean && among6(
                            hex_vertices_spec(self.tiles@[j].coord),
                            x,
                        ),
            decreases self.tiles@.len() - i,
        {
            let t = self.tiles[i];
            let ghost prev = out@;
            assert(self.tiles@[i as int].coord.on_board_scale());
            if t.tile_type != TileType::Ocean {
                let vs = t.coord.vertices();
                push_unique_vertex(&mut out, vs[0]);
                push_unique_vertex(&mut out, vs[1]);
                push_unique_vertex(&mut out, vs[2]);
                push_unique_vertex(&mut out, vs[3]);
                push_unique_vertex(&mut out, vs[4]);
                push_unique_vertex(&mut out, vs[5]);
            }
            proof {
                assert forall|x: VertexCoord|
                    out@.contains(x) <==> exists|j: int|
                        0 <= j < i + 1 && self.tiles@[j].tile_type != TileType::Ocean && among6(
                            hex_vertices_spec(self.tiles@[j].coord),
                            x,
                        ) by {
                    if out@.contains(x) && !prev.contains(x) {
                        assert(self.tiles@[i as int].tile_type != TileType::Ocean && among6(
                            hex_vertices_spec(self.tiles@[i as int].coord),
                            x,
                        ));
                    }
                    if exists|j: int|
                        0 <= j < i + 1 && self.tiles@[j].tile_type != TileType::Ocean && among6(
                            hex_vertices_spec(self.tiles@[j].coord),
                            x,
                        ) {
                        let j = choose|j: int|
                            0 <= j < i + 1 && self.tiles@[j].tile_type != TileType::Ocean
                                && among6(hex_vertices_spec(self.tiles@[j].coord), x);
                        if j < i {
                            assert(prev.contains(x));
                        }
                    }
                }
            }
            i = i + 1;
        }
        out
    }

    /// Every side of every land tile, each once.
    pub fn land_edges(&self) -> (out: Vec<EdgeCoord>)
        requires
            self.wf(),
        ensures
            out@.no_duplicates(),
            forall|x: EdgeCoord| out@.contains(x) <==> self.land_edge(x),
            forall|x: EdgeCoord| out@.contains(x) ==> x.near_board(),
    {
        let mut out: Vec<EdgeCoord> = Vec::new();
        let mut i: usize = 0;
        while i < self.tiles.len()
            invariant
                self.wf(),
                0 <= i <= self.tiles@.len(),
                out@.no_duplicates(),
                forall|x: EdgeCoord| out@.contains(x) ==> x.near_board(),
                forall|x: EdgeCoord|
                    out@.contains(x) <==> exists|j: int|
                        0 <= j < i && self.tiles@[j].tile_type != TileType::Ocean && among6(
                            hex_edges_spec(self.tiles@[j].coord),
                            x,
                        ),
            decreases self.tiles@.len() - i,
        {
            let t = self.tiles[i];
            let ghost prev = out@;
            assert(self.tiles@[i as int].coord.on_board_scale());
            if t.tile_type != TileType::Ocean {
                let es = t.coord.edges();
                push_unique_edge(&mut out, es[0]);
                push_unique_edge(&mut out, es[1]);
                push_unique_edge(&mut out, es[2]);
                push_unique_edge(&mut out, es[3]);
                push_unique_edge(&mut out, es[4]);
                push_unique_edge(&mut out, es[5]);
            }
            proof {
                assert forall|x: EdgeCoord|
                    out@.contains(x) <==> exists|j: int|
                        0 <= j < i + 1 && self.tiles@[j].tile_type != TileType::Ocean && among6(
                            hex_edges_spec(self.tiles@[j].coord),
                            x,
                        ) by {
                    if out@.contains(x) && !prev.contains(x) {
                        assert(self.tiles@[i as int].tile_type != TileType::Ocean && among6(
                            hex_edges_spec(self.tiles@[i as int].coord),
                            x,
                        ));
                    }
                    if exists|j: int|
                        0 <= j < i + 1 && self.tiles@[j].tile_type != TileType::Ocean && among6(
                            hex_edges_spec(self.tiles@[j].coord),
                            x,
                        ) {
                        let j = choose|j: int|
                            0 <= j < i + 1 && self.tiles@[j].tile_type != TileType::Ocean
                                && among6(hex_edges_spec(self.tiles@[j].coord), x);
                        if j < i {
                            assert(prev.contains(x));
                        }
                    }
                }
            }
            i = i + 1;
        }
        out
    }

    /// The land tiles among the three hexes meeting at `vertex`.
    pub fn tiles_at_vertex(&self, vertex: &VertexCoord) -> (ts: Vec<Tile>)
        requires
            self.wf(),
            vertex.near_board(),
        ensures
            ts@ == self.land_tiles_around(*vertex),
    {
        let hs = vertex.touching_hexes();
        let mut out: Vec<Tile> = Vec::new();
        let mut k: usize = 0;
        while k < 3
            invariant
                self.wf(),
                0 <= k <= 3,
                hs@ == vertex_hexes(*vertex),
                out@ == self.land_tiles_around_prefix(*vertex, k as int),
            decreases 3 - k,
        {
            match self.find_tile(&hs[k]) {
                Some(i) => {
                    if self.tiles[i].tile_type != TileType::Ocean {
                        out.push(self.tiles[i]);
                    }
                },
                None => {},
            }
            k = k + 1;
        }
        out
    }

    pub open spec fn land_tiles_around_prefix(self, v: VertexCoord, k: int) -> Seq<Tile>
        decreases k,
    {
        if k <= 0 {
            Seq::empty()
        } else {
            let h = vertex_hexes(v)[k - 1];
            let rest = self.land_tiles_around_prefix(v, k - 1);
            if self.is_land_hex(h) {
                rest.push(self.tile_of(h))
            } else {
                rest
            }
        }
    }

    fn owner_is(&self, v: &VertexCoord, p: PlayerId) -> (b: bool)
        requires
            self.wf(),
        ensures
            b == (owner_of(self.vertex_at(*v)) == Some(p)),
    {
        self.get_vertex(v).owner() == Some(p)
    }

    /// The kinds of the harbours that `player` reaches, in the order the harbours are
    /// listed.
    pub fn player_harbors(&self, player: PlayerId) -> (hs: Vec<Harbor>)
        requires
            self.wf(),
        ensures
            hs@ == self.harbors_of(self.harbors_view(), player),
    {
        let mut out: Vec<Harbor> = Vec::new();
        let mut i: usize = 0;
        while i < self.harbors.len()
            invariant
                self.wf(),
                0 <= i <= self.harbors@.len(),
                out@ == self.harbors_of(self.harbors@.subrange(0, i as int), player),
            decreases self.harbors@.len() - i,
        {
            let h = self.harbors[i];
            assert(self.harbors@[i as int].edge.near_board());
            let ends = h.edge.endpoints();
            if self.owner_is(&ends[0], player) || self.owner_is(&ends[1], player) {
                out.push(h.harbor_type);
            }
            proof {
                let sub = self.harbors@.subrange(0, i + 1);
                assert(sub.drop_last() =~= self.harbors@.subrange(0, i as int));
                assert(sub.last() == h);
            }
            i = i + 1;
        }
        assert(self.harbors@.subrange(0, self.harbors@.len() as int) =~= self.harbors@);
        out
    }

    /// The distance rule: none of the three neighbouring corners holds a building.
    pub fn satisfies_distance_rule(&self, vertex: &VertexCoord) -> (b: bool)
        requires
            self.wf(),
            vertex.near_board(),
        ensures
            b == self.distance_ok(*vertex),
    {
        let adj = vertex.adjacent_vertices();
        self.get_vertex(&adj[0]) == VertexBuilding::Empty && self.get_vertex(&adj[1])
            == VertexBuilding::Empty && self.get_vertex(&adj[2]) == VertexBuilding::Empty
    }

    /// One of the hexes meeting at `vertex` is land.
    pub fn is_land_vertex(&self, vertex: &VertexCoord) -> (b: bool)
        requires
            self.wf(),
            vertex.near_board(),
        ensures
            b == self.touches_land(*vertex),
    {
        let hs = vertex.touching_hexes();
        self.is_land_at(&hs[0]) || self.is_land_at(&hs[1]) || self.is_land_at(&hs[2])
    }

    /// One of the two hexes along `edge` is land.
    pub fn is_land_edge(&self, edge: &EdgeCoord) -> (b: bool)
        requires
            self.wf(),
            edge.near_board(),
        ensures
            b == self.edge_touches_land(*edge),
    {
        let hs = edge.touching_hexes();
        self.is_land_at(&hs[0]) || self.is_land_at(&hs[1])
    }

    fn settlement_allowed(&self, v: &VertexCoord, player: PlayerId, is_setup: bool) -> (b: bool)
        requires
            self.wf(),
            v.near_board(),
        ensures
            b == (self.vertex_at(*v) == VertexBuilding::Empty && self.distance_ok(*v) && (is_setup
                || self.road_touches(*v, player))),
    {
        self.get_vertex(v) == VertexBuilding::Empty && self.satisfies_distance_rule(v) && (is_setup
            || self.is_connected_to_road(v, player))
    }

    /// The corners where `player` may put a settlement (in setup, without the road
    /// condition).
    pub fn valid_settlement_spots(&self, player: PlayerId, is_setup: bool) -> (out: Vec<VertexCoord>)
        requires
            self.wf(),
        ensures
            out@.no_duplicates(),
            forall|x: VertexCoord| out@.contains(x) <==> self.settlement_ok(x, player, is_setup),
    {
        let land = self.land_vertices();
        let mut out: Vec<VertexCoord> = Vec::new();
        let mut i: usize = 0;
        while i < land.len()
            invariant
                self.wf(),
                0 <= i <= land@.len(),
                forall|x: VertexCoord| land@.contains(x) <==> self.land_vertex(x),
                forall|x: VertexCoord| land@.contains(x) ==> x.near_board(),
                out@.no_duplicates(),
                forall|x: VertexCoord|
                    out@.contains(x) <==> (land@.subrange(0, i as int).contains(x)
                        && self.settlement_ok(x, player, is_setup)),
            decreases land@.len() - i,
        {
            let v = land[i];
            assert(land@.contains(v));
            let ghost prev = out@;
            if self.settlement_allowed(&v, player, is_setup) {
                push_unique_vertex(&mut out, v);
            }
            proof {
                let pre = land@.subrange(0, i as int);
                assert(land@.subrange(0, i + 1) =~= pre.push(v));
                assert forall|x: VertexCoord|
                    out@.contains(x) <==> (land@.subrange(0, i + 1).contains(x)
                        && self.settlement_ok(x, player, is_setup)) by {
                    crate::hex::lemma_push_contains(pre, v, x);
                }
            }
            i = i + 1;
        }
        assert(land@.subrange(0, land@.len() as int) =~= land@);
        out
    }

    /// One of the sides meeting at `vertex` carries a road of `player`.
    fn is_connected_to_road(&self, vertex: &VertexCoord, player: PlayerId) -> (b: bool)
        requires
            self.wf(),
            vertex.near_board(),
        ensures
            b == self.road_touches(*vertex, player),
    {
        let t = vertex.touching_edges();
        self.get_edge(&t[0]) == EdgeBuilding::Road(player) || self.get_edge(&t[1])
            == EdgeBuilding::Road(player) || self.get_edge(&t[2]) == EdgeBuilding::Road(player)
    }

    /// The sides where `player` may put a road.
    pub fn valid_road_spots(&self, player: PlayerId) -> (out: Vec<EdgeCoord>)
        requires
            self.wf(),
        ensures
            out@.no_duplicates(),
            forall|x: EdgeCoord| out@.contains(x) <==> self.road_ok(x, player),
    {
        let land = self.land_edges();
        let mut out: Vec<EdgeCoord> = Vec::new();
        let mut i: usize = 0;
        while i < land.len()
            invariant
                self.wf(),
                0 <= i <= land@.len(),
                forall|x: EdgeCoord| land@.contains(x) <==> self.land_edge(x),
                forall|x: EdgeCoord| land@.contains(x) ==> x.near_board(),
                out@.no_duplicates(),
                forall|x: EdgeCoord|
                    out@.contains(x) <==> (land@.subrange(0, i as int).contains(x) && self.road_ok(
                        x,
                        player,
                    )),
            decreases land@.len() - i,
        {
            let e = land[i];
            assert(land@.contains(e));
            let ghost prev = out@;
            if self.get_edge(&e) == EdgeBuilding::Empty && self.is_connected_to_network(&e, player) {
                push_unique_edge(&mut out, e);
            }
            proof {
                let pre = land@.subrange(0, i as int);
                assert(land@.subrange(0, i + 1) =~= pre.push(e));
                assert forall|x: EdgeCoord|
                    out@.contains(x) <==> (land@.subrange(0, i + 1).contains(x) && self.road_ok(
                        x,
                        player,
                    )) by {
                    crate::hex::lemma_push_contains(pre, e, x);
                }
            }
            i = i + 1;
        }
        assert(land@.subrange(0, land@.len() as int) =~= land@);
        out
    }

    fn joins_at_exec(&self, edge: &EdgeCoord, end: &VertexCoord, player: PlayerId) -> (b: bool)
        requires
            self.wf(),
            end.hex.within(BOARD_LIMIT + 4),
        ensures
            b == self.joins_at(*edge, *end, player),
    {
        let o = self.get_vertex(end).owner();
        if o == Some(player) {
            return true;
        }
        if o.is_none() || o == Some(player) {
            let t = end.touching_edges();
            let mut k: usize = 0;
            while k < 3
                invariant
                    self.wf(),
                    0 <= k <= 3,
                    t@ == vertex_edges_spec(*end),
                    o == owner_of(self.vertex_at(*end)),
                    o.is_none() || o == Some(player),
                    forall|j: int|
                        0 <= j < k ==> !(t@[j] != *edge && self.edge_at(t@[j]) == EdgeBuilding::Road(
                            player,
                        )),
                decreases 3 - k,
            {
                if t[k] != *edge && self.get_edge(&t[k]) == EdgeBuilding::Road(player) {
                    return true;
                }
                k = k + 1;
            }
        }
        false
    }

    /// `edge` joins `player`'s network at one of its endpoints: `player` builds there, or
    /// no opponent builds there and another side there carries `player`'s road.
    fn is_connected_to_network(&self, edge: &EdgeCoord, player: PlayerId) -> (b: bool)
        requires
            self.wf(),
            edge.near_board(),
        ensures
            b == self.connected_spec(*edge, player),
    {
        let ends = edge.endpoints();
        self.joins_at_exec(edge, &ends[0], player) || self.joins_at_exec(edge, &ends[1], player)
    }

    /// The corners holding a settlement of `player`.
    pub fn valid_city_spots(&self, player: PlayerId) -> (out: Vec<VertexCoord>)
        requires
            self.wf(),
        ensures
            out@.no_duplicates(),
            forall|x: VertexCoord| out@.contains(x) <==> self.vertex_at(x) == VertexBuilding::Settlement(player),
    {
        let mut out: Vec<VertexCoord> = Vec::new();
        let mut i: usize = 0;
        while i < self.vertices.len()
            invariant
                self.wf(),
                0 <= i <= self.vertices@.len(),
                out@.no_duplicates(),
                forall|x: VertexCoord|
                    out@.contains(x) <==> exists|j: int|
                        0 <= j < i && self.vertices@[j].0 == x && self.vertices@[j].1
                            == VertexBuilding::Settlement(player),
            decreases self.vertices@.len() - i,
        {
            let entry = self.vertices[i];
            let ghost prev = out@;
            if entry.1 == VertexBuilding::Settlement(player) {
                push_unique_vertex(&mut out, entry.0);
            }
            proof {
                assert forall|x: VertexCoord|
                    out@.contains(x) <==> exists|j: int|
                        0 <= j < i + 1 && self.vertices@[j].0 == x && self.vertices@[j].1
                            == VertexBuilding::Settlement(player) by {
                    if exists|j: int|
                        0 <= j < i + 1 && self.vertices@[j].0 == x && self.vertices@[j].1
                            == VertexBuilding::Settlement(player) {
                        let j = choose|j: int|
                            0 <= j < i + 1 && self.vertices@[j].0 == x && self.vertices@[j].1
                                == VertexBuilding::Settlement(player);
                        if j < i {
                            assert(prev.contains(x));
                        }
                    }
                    if out@.contains(x) && !prev.contains(x) {
                        assert(self.vertices@[i as int].0 == x);
                    }
                }
            }
            i = i + 1;
        }
        proof {
            assert forall|x: VertexCoord|
                out@.contains(x) <==> self.vertex_at(x) == VertexBuilding::Settlement(player) by {
                if out@.contains(x) {
                    let j = choose|j: int|
                        0 <= j < self.vertices@.len() && self.vertices@[j].0 == x
                            && self.vertices@[j].1 == VertexBuilding::Settlement(player);
                    lemma_lookup_at(self.vertices@, j, VertexBuilding::Empty);
                }
                if self.vertex_at(x) == VertexBuilding::Settlement(player) {
                    let vs = self.vertices@;
                    let j = choose|j: int| 0 <= j < vs.len() && vs[j].0 == x;
                    lemma_lookup_at(vs, j, VertexBuilding::Empty);
                }
            }
        }
        out
    }

    fn set_vertex(&mut self, v: VertexCoord, b: VertexBuilding)
        requires
            old(self).wf(),
            v.near_board(),
        ensures
            final(self).wf(),
            final(self).same_but_vertices(*old(self)),
            forall|x: VertexCoord| #[trigger]
                final(self).vertex_at(x) == if x == v {
                    b
                } else {
                    old(self).vertex_at(x)
                },
    {
        match self.find_vertex(&v) {
            Some(i) => {
                self.vertices.set(i, (v, b));
                proof {
                    assert forall|x: VertexCoord| #[trigger]
                        self.vertex_at(x) == if x == v {
                            b
                        } else {
                            old(self).vertex_at(x)
                        } by {
                        lemma_lookup_update(old(self).vertices@, i as int, v, b, x, VertexBuilding::Empty);
                    }
                    lemma_lookup_update(old(self).vertices@, i as int, v, b, v, VertexBuilding::Empty);
                }
            },
            None => {
                self.vertices.push((v, b));
                proof {
                    assert forall|x: VertexCoord| #[trigger]
                        self.vertex_at(x) == if x == v {
                            b
                        } else {
                            old(self).vertex_at(x)
                        } by {
                        lemma_lookup_push(old(self).vertices@, v, b, x, VertexBuilding::Empty);
                    }
                    lemma_lookup_push(old(self).vertices@, v, b, v, VertexBuilding::Empty);
                }
            },
        }
    }

    /// Puts a settlement of `player` on `vertex`.
    pub fn place_settlement(&mut self, vertex: VertexCoord, player: PlayerId)
        requires
            old(self).wf(),
            vertex.near_board(),
        ensures
            final(self).wf(),
            final(self).same_but_vertices(*old(self)),
            forall|x: VertexCoord| #[trigger]
                final(self).vertex_at(x) == if x == vertex {
                    VertexBuilding::Settlement(player)
                } else {
                    old(self).vertex_at(x)
                },
    {
        self.set_vertex(vertex, VertexBuilding::Settlement(player));
    }

    /// Replaces what stands on `vertex` with a city of `player`.
    pub fn upgrade_to_city(&mut self, vertex: VertexCoord, player: PlayerId)
        requires
            old(self).wf(),
            vertex.near_board(),
        ensures
            final(self).wf(),
            final(self).same_but_vertices(*old(self)),
            forall|x: VertexCoord| #[trigger]
                final(self).vertex_at(x) == if x == vertex {
                    VertexBuilding::City(player)
                } else {
                    old(self).vertex_at(x)
                },
    {
        self.set_vertex(vertex, VertexBuilding::City(player));
    }

    /// Puts a road of `player` on `edge`, which must be in canonical form.
    pub fn place_road(&mut self, edge: EdgeCoord, player: PlayerId)
        requires
            old(self).wf(),
            edge.near_board(),
            canonical_edge(edge) == edge,
        ensures
            final(self).wf(),
            final(self).same_but_edges(*old(self)),
            forall|x: EdgeCoord| #[trigger]
                final(self).edge_at(x) == if x == edge {
                    EdgeBuilding::Road(player)
                } else {
                    old(self).edge_at(x)
                },
    {
        let b = EdgeBuilding::Road(player);
        match self.find_edge(&edge) {
            Some(i) => {
                self.edges.set(i, (edge, b));
                proof {
                    assert forall|x: EdgeCoord| #[trigger]
                        self.edge_at(x) == if x == edge {
                            b
                        } else {
                            old(self).edge_at(x)
                        } by {
                        lemma_lookup_update(old(self).edges@, i as int, edge, b, x, EdgeBuilding::Empty);
                    }
                    lemma_lookup_update(old(self).edges@, i as int, edge, b, edge, EdgeBuilding::Empty);
                }
            },
            None => {
                self.edges.push((edge, b));
                proof {
                    assert forall|x: EdgeCoord| #[trigger]
                        self.edge_at(x) == if x == edge {
                            b
                        } else {
                            old(self).edge_at(x)
                        } by {
                        lemma_lookup_push(old(self).edges@, edge, b, x, EdgeBuilding::Empty);
                    }
                    lemma_lookup_push(old(self).edges@, edge, b, edge, EdgeBuilding::Empty);
                }
            },
        }
    }

    /// Moves the robber to `new_location`: the old tile loses the robber flag, the new
    /// tile (if any) gets it, and the stored location changes, all in one call.
    pub fn move_robber(&mut self, new_location: HexCoord)
        requires
            old(self).wf(),
            new_location.on_board_scale(),
        ensures
            final(self).wf(),
            final(self).robber_moved(*old(self), new_location),
    {
        self.robber_location = new_location;
        let mut i: usize = 0;
        while i < self.tiles.len()
            invariant
                0 <= i <= self.tiles@.len(),
                self.tiles@.len() == old(self).tiles@.len(),
                self.robber_location == new_location,
                self.vertices == old(self).vertices,
                self.edges == old(self).edges,
                self.harbors == old(self).harbors,
                forall|j: int|
                    0 <= j < i ==> #[trigger] self.tiles@[j] == (Tile {
                        has_robber: old(self).tiles@[j].coord == new_location,
                        ..old(self).tiles@[j]
                    }),
                forall|j: int| i <= j < self.tiles@.len() ==> #[trigger] self.tiles@[j] == old(self).tiles@[j],
            decreases self.tiles@.len() - i,
        {
            let mut t = self.tiles[i];
            t.has_robber = t.coord == new_location;
            self.tiles.set(i, t);
            i = i + 1;
        }
    }
}

fn share_exec(b: VertexBuilding, p: PlayerId) -> (n: u32)
    ensures
        n == share(b, p),
        n <= 2,
{
    if b.owner() == Some(p) {
        b.resource_multiplier()
    } else {
        0
    }
}

/// A tile that yields something to someone yields it to a player who builds on one of
/// its corners.
proof fn lemma_yield_needs_corner(b: Board, t: Tile, roll: u8, p: PlayerId, r: Resource)
    requires
        b.tile_yield(t, roll, p, r) != 0,
    ensures
        b.owns_corner_of(t.coord, p),
{
}

/// What the first `n` tiles give is a sum of at most 12 per tile.
proof fn lemma_produced_bounds(b: Board, roll: u8, p: PlayerId, r: Resource, n: int)
    requires
        0 <= n <= b.tiles_view().len(),
    ensures
        0 <= b.produced(roll, p, r, n) <= 12 * n,
    decreases n,
{
    if n > 0 {
        lemma_produced_bounds(b, roll, p, r, n - 1);
    }
}

/// Something produced for `p` comes from a producing tile with a corner of `p`'s.
proof fn lemma_produced_source(b: Board, roll: u8, p: PlayerId, r: Resource, n: int)
    requires
        0 <= n <= b.tiles_view().len(),
        b.produced(roll, p, r, n) != 0,
    ensures
        exists|j: int|
            0 <= j < n && b.tile_yield(b.tiles_view()[j], roll, p, r) != 0,
    decreases n,
{
    if b.tile_yield(b.tiles_view()[n - 1], roll, p, r) == 0 {
        lemma_produced_source(b, roll, p, r, n - 1);
    }
}

impl Board {
    /// A tile that produces on `roll`: its number is `roll`, it holds no robber, and it
    /// is a resource tile.
    pub open spec fn produces_on(self, t: Tile, roll: u8) -> bool {
        t.dice_number == Some(roll) && !t.has_robber && t.tile_type is Resource
    }

    /// What `player` receives on a roll of `roll`: for every resource tile with that
    /// number and without the robber, 1 card per settlement and 2 per city of the
    /// player's on its corners.
    pub fn production_for(&self, roll: u8, player: PlayerId) -> (h: ResourceHand)
        requires
            self.wf(),
        ensures
            h == self.production(roll, player),
            forall|r: Resource| h.count(r) == self.produced(roll, player, r, self.tiles_view().len() as int),
    {
        let mut hand = ResourceHand::new();
        let mut i: usize = 0;
        while i < self.tiles.len()
            invariant
                self.wf(),
                0 <= i <= self.tiles@.len() <= MAX_TILES,
                forall|r: Resource| #[trigger]
                    hand.count(r) == self.produced(roll, player, r, i as int),
            decreases self.tiles@.len() - i,
        {
            let t = self.tiles[i];
            proof {
                assert(self.tiles@[i as int].coord.on_board_scale());
                lemma_produced_bounds(*self, roll, player, Resource::Brick, i as int);
                lemma_produced_bounds(*self, roll, player, Resource::Lumber, i as int);
                lemma_produced_bounds(*self, roll, player, Resource::Ore, i as int);
                lemma_produced_bounds(*self, roll, player, Resource::Grain, i as int);
                lemma_produced_bounds(*self, roll, player, Resource::Wool, i as int);
            }
            let ghost before = hand;
            if t.dice_number == Some(roll) && !t.has_robber {
                match t.tile_type {
                    TileType::Resource(res) => {
                        let vs = t.coord.vertices();
                        let amount = share_exec(self.get_vertex(&vs[0]), player) + share_exec(
                            self.get_vertex(&vs[1]),
                            player,
                        ) + share_exec(self.get_vertex(&vs[2]), player) + share_exec(
                            self.get_vertex(&vs[3]),
                            player,
                        ) + share_exec(self.get_vertex(&vs[4]), player) + share_exec(
                            self.get_vertex(&vs[5]),
                            player,
                        );
                        assert(hand.count(res) <= 12 * i);
                        hand.add(res, amount);
                    },
                    _ => {},
                }
            }
            proof {
                assert forall|r: Resource| #[trigger]
                    hand.count(r) == self.produced(roll, player, r, i + 1) by {
                    assert(before.count(r) == self.produced(roll, player, r, i as int));
                }
            }
            i = i + 1;
        }
        proof {
            let n = self.tiles@.len() as int;
            lemma_produced_bounds(*self, roll, player, Resource::Brick, n);
            lemma_produced_bounds(*self, roll, player, Resource::Lumber, n);
            lemma_produced_bounds(*self, roll, player, Resource::Ore, n);
            lemma_produced_bounds(*self, roll, player, Resource::Grain, n);
            lemma_produced_bounds(*self, roll, player, Resource::Wool, n);
            assert(hand.count(Resource::Brick) == self.production(roll, player).brick);
            assert(hand.count(Resource::Lumber) == self.production(roll, player).lumber);
            assert(hand.count(Resource::Ore) == self.production(roll, player).ore);
            assert(hand.count(Resource::Grain) == self.production(roll, player).grain);
            assert(hand.count(Resource::Wool) == self.production(roll, player).wool);
        }
        hand
    }

    /// The players building on a corner of the tile at `hex` (none if there is no tile
    /// there), each once.
    pub fn players_adjacent_to_hex(&self, hex: &HexCoord) -> (ps: Vec<PlayerId>)
        requires
            self.wf(),
        ensures
            ps@.no_duplicates(),
            forall|p: PlayerId| ps@.contains(p) <==> (self.has_tile(*hex) && self.owns_corner_of(*hex, p)),
    {
        let mut out: Vec<PlayerId> = Vec::new();
        match self.find_tile(hex) {
            Some(i) => {
                assert(self.tiles@[i as int].coord.on_board_scale());
                let vs = hex.vertices();
                let mut k: usize = 0;
                while k < 6
                    invariant
                        self.wf(),
                        0 <= k <= 6,
                        vs@ == hex_vertices_spec(*hex),
                        out@.no_duplicates(),
                        forall|p: PlayerId|
                            out@.contains(p) <==> exists|j: int|
                                0 <= j < k && owner_of(self.vertex_at(vs@[j])) == Some(p),
                    decreases 6 - k,
                {
                    let ghost prev = out@;
                    match self.get_vertex(&vs[k]).owner() {
                        Some(o) => {
                            if !contains_player(&out, o) {
                                out.push(o);
                            }
                        },
                        None => {},
                    }
                    proof {
                        assert forall|p: PlayerId|
                            out@.contains(p) <==> exists|j: int|
                                0 <= j < k + 1 && owner_of(self.vertex_at(vs@[j])) == Some(p) by {
                            crate::hex::lemma_push_contains(prev, p, p);
                            if out@.contains(p) && !prev.contains(p) {
                                assert(out@ == prev.push(owner_of(self.vertex_at(vs@[k as int])).unwrap()));
                                crate::hex::lemma_push_contains(prev, owner_of(self.vertex_at(vs@[k as int])).unwrap(), p);
                                assert(owner_of(self.vertex_at(vs@[k as int])) == Some(p));
                            }
                            if exists|j: int| 0 <= j < k + 1 && owner_of(self.vertex_at(vs@[j])) == Some(p) {
                                let j = choose|j: int| 0 <= j < k + 1 && owner_of(self.vertex_at(vs@[j])) == Some(p);
                                if j < k {
                                    assert(prev.contains(p));
                                    if out@ != prev {
                                        crate::hex::lemma_push_contains(prev, owner_of(self.vertex_at(vs@[k as int])).unwrap(), p);
                                    }
                                } else if !prev.contains(p) {
                                    crate::hex::lemma_push_contains(prev, p, p);
                                }
                            }
                        }
                    }
                    k = k + 1;
                }
                proof {
                    assert forall|p: PlayerId|
                        out@.contains(p) <==> (self.has_tile(*hex) && self.owns_corner_of(*hex, p)) by {
                        if self.owns_corner_of(*hex, p) {
                            if owner_of(self.vertex_at(vs@[0])) == Some(p) { assert(0 < 6int); }
                            else if owner_of(self.vertex_at(vs@[1])) == Some(p) { assert(1 < 6int); }
                            else if owner_of(self.vertex_at(vs@[2])) == Some(p) { assert(2 < 6int); }
                            else if owner_of(self.vertex_at(vs@[3])) == Some(p) { assert(3 < 6int); }
                            else if owner_of(self.vertex_at(vs@[4])) == Some(p) { assert(4 < 6int); }
                            else { assert(owner_of(self.vertex_at(vs@[5])) == Some(p)); }
                        }
                    }
                }
            },
            None => {},
        }
        out
    }
}

/// Whether `p` occurs in `v`.
pub fn contains_player(v: &Vec<PlayerId>, p: PlayerId) -> (r: bool)
    ensures
        r == v@.contains(p),
{
    let mut i: usize = 0;
    while i < v.len()
        invariant
            0 <= i <= v@.len(),
            forall|j: int| 0 <= j < i ==> v@[j] != p,
        decreases v@.len() - i,
    {
        if v[i] == p {
            return true;
        }
        i = i + 1;
    }
    false
}

/// Adds `x` to `out` unless it is already there.
fn push_unique_player(out: &mut Vec<PlayerId>, x: PlayerId)
    requires
        old(out)@.no_duplicates(),
    ensures
        final(out)@.no_duplicates(),
        forall|y: PlayerId| final(out)@.contains(y) <==> (old(out)@.contains(y) || y == x),
{
    if !contains_player(out, x) {
        out.push(x);
    }
    proof {
        assert forall|y: PlayerId| out@.contains(y) <==> (old(out)@.contains(y) || y == x) by {
            crate::hex::lemma_push_contains(old(out)@, x, y);
        }
    }
}

impl Board {
    /// Every player who builds on a corner of a tile that produces on `roll`, each once.
    fn producing_players(&self, roll: u8) -> (ids: Vec<PlayerId>)
        requires
            self.wf(),
        ensures
            ids@.no_duplicates(),
            forall|p: PlayerId|
                (exists|j: int|
                    0 <= j < self.tiles_view().len() && self.produces_on(self.tiles_view()[j], roll)
                        && self.owns_corner_of(self.tiles_view()[j].coord, p)) ==> ids@.contains(p),
    {
        let mut ids: Vec<PlayerId> = Vec::new();
        let mut i: usize = 0;
        while i < self.tiles.len()
            invariant
                self.wf(),
                0 <= i <= self.tiles@.len(),
                ids@.no_duplicates(),
                forall|p: PlayerId|
                    (exists|j: int|
                        0 <= j < i && self.produces_on(self.tiles@[j], roll) && self.owns_corner_of(
                            self.tiles@[j].coord,
                            p,
                        )) ==> ids@.contains(p),
            decreases self.tiles@.len() - i,
        {
            let t = self.tiles[i];
            let ghost before = ids@;
            if t.dice_number == Some(roll) && !t.has_robber && t.resource().is_some() {
                let adj = self.players_adjacent_to_hex(&t.coord);
                proof {
                    assert(self.tiles@[i as int].coord == t.coord);
                    assert(self.has_tile(t.coord));
                }
                let mut k: usize = 0;
                while k < adj.len()
                    invariant
                        self.wf(),
                        0 <= k <= adj@.len(),
                        ids@.no_duplicates(),
                        forall|p: PlayerId| before.contains(p) ==> ids@.contains(p),
                        forall|m: int| 0 <= m < k ==> ids@.contains(adj@[m]),
                    decreases adj@.len() - k,
                {
                    push_unique_player(&mut ids, adj[k]);
                    k = k + 1;
                }
                proof {
                    assert forall|p: PlayerId| self.owns_corner_of(t.coord, p) implies ids@.contains(p) by {
                        assert(adj@.contains(p));
                        let m = choose|m: int| 0 <= m < adj@.len() && adj@[m] == p;
                    }
                }
            }
            proof {
                assert forall|p: PlayerId|
                    (exists|j: int|
                        0 <= j < i + 1 && self.produces_on(self.tiles@[j], roll) && self.owns_corner_of(
                            self.tiles@[j].coord,
                            p,
                        )) implies ids@.contains(p) by {
                    let j = choose|j: int|
                        0 <= j < i + 1 && self.produces_on(self.tiles@[j], roll) && self.owns_corner_of(
                            self.tiles@[j].coord,
                            p,
                        );
                    if j < i {
                        assert(before.contains(p));
                    }
                }
            }
            i = i + 1;
        }
        ids
    }

    /// What each player receives on a roll of `roll`: one entry per player with a
    /// building on a producing tile, with that player's exact production. A player
    /// without an entry receives nothing.
    pub fn resources_for_roll(&self, roll: u8) -> (d: Vec<(PlayerId, ResourceHand)>)
        requires
            self.wf(),
        ensures
            forall|i: int, j: int| 0 <= i < j < d@.len() ==> d@[i].0 != d@[j].0,
            forall|k: int| 0 <= k < d@.len() ==> d@[k].1 == self.production(roll, d@[k].0),
            forall|p: PlayerId, r: Resource|
                self.produced(roll, p, r, self.tiles_view().len() as int) != 0 ==> exists|k: int|
                    0 <= k < d@.len() && d@[k].0 == p,
    {
        let ids = self.producing_players(roll);
        let mut d: Vec<(PlayerId, ResourceHand)> = Vec::new();
        let mut k: usize = 0;
        while k < ids.len()
            invariant
                self.wf(),
                0 <= k <= ids@.len(),
                ids@.no_duplicates(),
                d@.len() == k,
                forall|m: int| 0 <= m < k ==> d@[m].0 == ids@[m] && d@[m].1 == self.production(roll, ids@[m]),
            decreases ids@.len() - k,
        {
            let p = ids[k];
            let h = self.production_for(roll, p);
            d.push((p, h));
            k = k + 1;
        }
        proof {
            assert forall|i: int, j: int| 0 <= i < j < d@.len() implies d@[i].0 != d@[j].0 by {
                assert(d@[i].0 == ids@[i]);
                assert(d@[j].0 == ids@[j]);
            }
            assert forall|k: int| 0 <= k < d@.len() implies d@[k].1 == self.production(roll, d@[k].0) by {
                assert(d@[k].0 == ids@[k]);
            }
            assert forall|p: PlayerId, r: Resource|
                self.produced(roll, p, r, self.tiles_view().len() as int) != 0 implies exists|k: int|
                    0 <= k < d@.len() && d@[k].0 == p by {
                lemma_produced_source(*self, roll, p, r, self.tiles_view().len() as int);
                let j = choose|j: int|
                    0 <= j < self.tiles_view().len() && self.tile_yield(self.tiles_view()[j], roll, p, r) != 0;
                lemma_yield_needs_corner(*self, self.tiles_view()[j], roll, p, r);
                assert(self.produces_on(self.tiles_view()[j], roll));
                assert(ids@.contains(p));
                let m = choose|m: int| 0 <= m < ids@.len() && ids@[m] == p;
                assert(d@[m].0 == p);
            }
        }
        d
    }
}

/// Roads of `p` in `es` whose edge is not in `visited`.
pub open spec fn count_roads(es: Seq<(EdgeCoord, EdgeBuilding)>, p: PlayerId, visited: Seq<EdgeCoord>) -> nat
    decreases es.len(),
{
    if es.len() == 0 {
        0
    } else {
        count_roads(es.drop_last(), p, visited) + if es.last().1 == EdgeBuilding::Road(p)
            && !visited.contains(es.last().0) {
            1nat
        } else {
            0nat
        }
    }
}

proof fn lemma_count_roads_le(es: Seq<(EdgeCoord, EdgeBuilding)>, p: PlayerId, visited: Seq<EdgeCoord>)
    ensures
        count_roads(es, p, visited) <= es.len(),
    decreases es.len(),
{
    if es.len() > 0 {
        lemma_count_roads_le(es.drop_last(), p, visited);
    }
}

/// `es` records a road of `p` on `c`.
pub open spec fn has_road_entry(es: Seq<(EdgeCoord, EdgeBuilding)>, p: PlayerId, c: EdgeCoord) -> bool {
    exists|i: int| 0 <= i < es.len() && es[i].0 == c && es[i].1 == EdgeBuilding::Road(p)
}

proof fn lemma_count_roads_push(
    es: Seq<(EdgeCoord, EdgeBuilding)>,
    p: PlayerId,
    visited: Seq<EdgeCoord>,
    c: EdgeCoord,
)
    requires
        keys_unique(es),
        !visited.contains(c),
    ensures
        count_roads(es, p, visited.push(c)) + (if has_road_entry(es, p, c) {
            1int
        } else {
            0int
        }) == count_roads(es, p, visited),
    decreases es.len(),
{
    if es.len() > 0 {
        let d = es.drop_last();
        assert forall|i: int, j: int| 0 <= i < d.len() && 0 <= j < d.len() && i != j implies d[i].0 != d[j].0 by {
            assert(d[i] == es[i] && d[j] == es[j]);
        }
        lemma_count_roads_push(d, p, visited, c);
        crate::hex::lemma_push_contains(visited, c, es.last().0);
        let last = es.len() - 1;
        if has_road_entry(es, p, c) {
            let i = choose|i: int| 0 <= i < es.len() && es[i].0 == c && es[i].1 == EdgeBuilding::Road(p);
            if i < last {
                assert(d[i] == es[i]);
                assert(has_road_entry(d, p, c));
                assert(es.last().0 != c);
            } else {
                assert(!has_road_entry(d, p, c)) by {
                    if has_road_entry(d, p, c) {
                        let j = choose|j: int| 0 <= j < d.len() && d[j].0 == c && d[j].1 == EdgeBuilding::Road(p);
                        assert(es[j].0 == c);
                    }
                }
            }
        } else {
            if has_road_entry(d, p, c) {
                let j = choose|j: int| 0 <= j < d.len() && d[j].0 == c && d[j].1 == EdgeBuilding::Road(p);
                assert(es[j] == d[j]);
            }
        }
    }
}

/// The endpoint of `e` a road leaves by when it came in at `entry`.
pub open spec fn exit_of(e: EdgeCoord, entry: VertexCoord) -> VertexCoord {
    let ends = endpoints_spec(e);
    if ends[0] == entry {
        ends[1]
    } else {
        ends[0]
    }
}

/// The `k`-th side (`k < 3`) at the corner where a road along `cur` entered at `entry`
/// comes out.
pub open spec fn step_edge(cur: EdgeCoord, entry: VertexCoord, k: int) -> EdgeCoord {
    vertex_edges_spec(exit_of(cur, entry))[k]
}

impl Board {
    pub open spec fn roads_left(self, p: PlayerId, visited: Seq<EdgeCoord>) -> nat {
        count_roads(self.edges_view(), p, visited)
    }

    /// A road of `p` entering `cur` at `entry` may go on along `step_edge(cur, entry, k)`:
    /// no opponent builds at the corner it comes out at, and that side is another road
    /// of `p`.
    pub open spec fn step_open(self, p: PlayerId, cur: EdgeCoord, entry: VertexCoord, k: int) -> bool {
        let o = owner_of(self.vertex_at(exit_of(cur, entry)));
        (o.is_none() || o == Some(p)) && step_edge(cur, entry, k) != cur && self.edge_at(
            step_edge(cur, entry, k),
        ) == EdgeBuilding::Road(p)
    }

    /// Length of the longest trail of `p`'s roads that starts on `cur`, entered at its
    /// corner `entry`, and from each road goes on only at the corner it comes out at: a
    /// trail uses no edge of `visited` nor any edge twice, and passes no corner where
    /// an opponent builds. Zero if `cur` is not an unused road of `p`.
    pub open spec fn road_from(self, p: PlayerId, cur: EdgeCoord, entry: VertexCoord, visited: Seq<EdgeCoord>) -> nat
        decreases self.roads_left(p, visited) via Self::road_from_decreases
    {
        if visited.contains(cur) || self.edge_at(cur) != EdgeBuilding::Road(p) || !keys_unique(self.edges_view()) {
            0
        } else {
            let v2 = visited.push(cur);
            let x = exit_of(cur, entry);
            let c0 = if self.step_open(p, cur, entry, 0) { self.road_from(p, step_edge(cur, entry, 0), x, v2) } else { 0 };
            let c1 = if self.step_open(p, cur, entry, 1) { self.road_from(p, step_edge(cur, entry, 1), x, v2) } else { 0 };
            let c2 = if self.step_open(p, cur, entry, 2) { self.road_from(p, step_edge(cur, entry, 2), x, v2) } else { 0 };
            1 + vstd::math::max(vstd::math::max(c0 as int, c1 as int), c2 as int) as nat
        }
    }

    #[via_fn]
    proof fn road_from_decreases(self, p: PlayerId, cur: EdgeCoord, entry: VertexCoord, visited: Seq<EdgeCoord>) {
        if !visited.contains(cur) && self.edge_at(cur) == EdgeBuilding::Road(p) && keys_unique(self.edges_view()) {
            self.lemma_road_entry(p, cur);
            lemma_count_roads_push(self.edges_view(), p, visited, cur);
        }
    }

    proof fn lemma_road_entry(self, p: PlayerId, e: EdgeCoord)
        requires
            self.edge_at(e) == EdgeBuilding::Road(p),
            keys_unique(self.edges_view()),
        ensures
            has_road_entry(self.edges_view(), p, e),
            exists|i: int| 0 <= i < self.edges_view().len() && self.edges_view()[i].0 == e,
    {
        let es = self.edges_view();
        let i = choose|i: int| 0 <= i < es.len() && es[i].0 == e;
        lemma_lookup_at(es, i, EdgeBuilding::Empty);
    }

    /// The value of going on along `step_edge(cur, entry, k)`, with `v2` used.
    pub open spec fn branch(self, p: PlayerId, cur: EdgeCoord, entry: VertexCoord, v2: Seq<EdgeCoord>, k: int) -> int {
        if self.step_open(p, cur, entry, k) {
            self.road_from(p, step_edge(cur, entry, k), exit_of(cur, entry), v2) as int
        } else {
            0
        }
    }

    pub open spec fn best_branch(self, p: PlayerId, cur: EdgeCoord, entry: VertexCoord, v2: Seq<EdgeCoord>, k: int) -> int
        decreases k,
    {
        if k <= 0 {
            0
        } else {
            vstd::math::max(self.best_branch(p, cur, entry, v2, k - 1), self.branch(p, cur, entry, v2, k - 1))
        }
    }

    /// The longest trail of `p` that starts on one of the first `n` recorded edges, in
    /// either direction.
    pub open spec fn longest_prefix(self, p: PlayerId, n: int) -> int
        decreases n,
    {
        if n <= 0 {
            0
        } else {
            let e = self.edges_view()[n - 1];
            let ends = endpoints_spec(e.0);
            vstd::math::max(
                self.longest_prefix(p, n - 1),
                if e.1 == EdgeBuilding::Road(p) {
                    vstd::math::max(
                        self.road_from(p, e.0, ends[0], Seq::empty()) as int,
                        self.road_from(p, e.0, ends[1], Seq::empty()) as int,
                    )
                } else {
                    0
                },
            )
        }
    }

    /// Length of `p`'s longest road: the most edges in one trail of `p`'s roads, each
    /// road joining the next at a corner where no opponent builds, with no edge used
    /// twice.
    pub open spec fn longest_road_spec(self, p: PlayerId) -> int {
        self.longest_prefix(p, self.edges_view().len() as int)
    }

    proof fn lemma_road_from_unfold(self, p: PlayerId, cur: EdgeCoord, entry: VertexCoord, visited: Seq<EdgeCoord>)
        requires
            !visited.contains(cur),
            self.edge_at(cur) == EdgeBuilding::Road(p),
            keys_unique(self.edges_view()),
        ensures
            self.road_from(p, cur, entry, visited) == 1 + self.best_branch(p, cur, entry, visited.push(cur), 3),
    {
        reveal_with_fuel(Board::best_branch, 4);
    }

    proof fn lemma_road_from_bound(self, p: PlayerId, cur: EdgeCoord, entry: VertexCoord, visited: Seq<EdgeCoord>)
        ensures
            self.road_from(p, cur, entry, visited) <= self.roads_left(p, visited),
        decreases self.roads_left(p, visited),
    {
        if !visited.contains(cur) && self.edge_at(cur) == EdgeBuilding::Road(p) && keys_unique(self.edges_view()) {
            let v2 = visited.push(cur);
            let x = exit_of(cur, entry);
            self.lemma_road_entry(p, cur);
            lemma_count_roads_push(self.edges_view(), p, visited, cur);
            self.lemma_road_from_bound(p, step_edge(cur, entry, 0), x, v2);
            self.lemma_road_from_bound(p, step_edge(cur, entry, 1), x, v2);
            self.lemma_road_from_bound(p, step_edge(cur, entry, 2), x, v2);
        }
    }

    /// The longest trail of `player`'s roads that starts on `current`, entered at
    /// `entry`, not reusing an edge of `visited`, which is the same on return.
    #[verifier::rlimit(50)]
    fn dfs_road_length(
        &self,
        player: PlayerId,
        current: EdgeCoord,
        entry: VertexCoord,
        visited: &mut Vec<EdgeCoord>,
    ) -> (n: usize)
        requires
            self.wf(),
            self.edge_at(current) == EdgeBuilding::Road(player),
        ensures
            n == self.road_from(player, current, entry, old(visited)@),
            final(visited)@ == old(visited)@,
        decreases self.roads_left(player, old(visited)@),
    {
        if crate::hex::contains_edge(visited, current) {
            return 0;
        }
        proof {
            self.lemma_road_entry(player, current);
            let i = choose|i: int| 0 <= i < self.edges@.len() && self.edges@[i].0 == current;
            assert(self.edges@[i].0.near_board());
            lemma_count_roads_push(self.edges@, player, old(visited)@, current);
            lemma_count_roads_le(self.edges@, player, old(visited)@);
        }
        let ghost v0 = visited@;
        visited.push(current);
        let ends = current.endpoints();
        let exit = if ends[0] == entry {
            ends[1]
        } else {
            ends[0]
        };
        let cands = exit.touching_edges();
        let owner = self.get_vertex(&exit).owner();
        let open = owner.is_none() || owner == Some(player);
        let mut best: usize = 0;
        let mut k: usize = 0;
        while k < 3
            invariant
                self.wf(),
                0 <= k <= 3,
                visited@ == v0.push(current),
                exit == exit_of(current, entry),
                cands@ == vertex_edges_spec(exit),
                open == (owner_of(self.vertex_at(exit)).is_none() || owner_of(self.vertex_at(exit)) == Some(player)),
                self.roads_left(player, v0.push(current)) < self.roads_left(player, v0),
                best == self.best_branch(player, current, entry, v0.push(current), k as int),
                best <= self.roads_left(player, v0.push(current)),
                v0 == old(visited)@,
                self.roads_left(player, v0) <= self.edges@.len(),
                !v0.contains(current),
                self.edge_at(current) == EdgeBuilding::Road(player),
            decreases 3 - k,
        {
            let c = cands[k];
            if open && c != current && self.get_edge(&c) == EdgeBuilding::Road(player) {
                let n = self.dfs_road_length(player, c, exit, visited);
                proof {
                    self.lemma_road_from_bound(player, c, exit, v0.push(current));
                }
                if n > best {
                    best = n;
                }
            }
            k = k + 1;
        }
        visited.pop();
        proof {
            assert(visited@ =~= v0);
            self.lemma_road_from_unfold(player, current, entry, v0);
            assert(best < self.edges@.len());
        }
        assert(self.edges@.len() == self.edges.len());
        1 + best
    }

    /// Length of `player`'s longest road (see `longest_road_spec`), or 0 without roads;
    /// capped at `u32::MAX`.
    pub fn longest_road(&self, player: PlayerId) -> (n: u32)
        requires
            self.wf(),
        ensures
            n == vstd::math::min(self.longest_road_spec(player), u32::MAX as int),
    {
        let mut best: usize = 0;
        let mut i: usize = 0;
        while i < self.edges.len()
            invariant
                self.wf(),
                0 <= i <= self.edges@.len(),
                best == self.longest_prefix(player, i as int),
            decreases self.edges@.len() - i,
        {
            let e = self.edges[i];
            if e.1 == EdgeBuilding::Road(player) {
                proof {
                    lemma_lookup_at(self.edges@, i as int, EdgeBuilding::Empty);
                    assert(self.edges@[i as int].0.near_board());
                }
                let ends = e.0.endpoints();
                let mut visited: Vec<EdgeCoord> = Vec::new();
                let n1 = self.dfs_road_length(player, e.0, ends[0], &mut visited);
                let n2 = self.dfs_road_length(player, e.0, ends[1], &mut visited);
                proof {
                    assert(visited@ =~= Seq::<EdgeCoord>::empty());
                }
                if n1 > best {
                    best = n1;
                }
                if n2 > best {
                    best = n2;
                }
            }
            i = i + 1;
        }
        if best > u32::MAX as usize {
            u32::MAX
        } else {
            best as u32
        }
    }
}

/// Points a player's buildings are worth on `b`: 1 per settlement, 2 per city.
pub open spec fn building_points(es: Seq<(VertexCoord, VertexBuilding)>, p: PlayerId) -> int
    decreases es.len(),
{
    if es.len() == 0 {
        0
    } else {
        building_points(es.drop_last(), p) + crate::board::share(es.last().1, p)
    }
}

impl Board {
    /// Points of `player`'s buildings: 1 per settlement, 2 per city; capped at `u32::MAX`.
    pub fn building_points(&self, player: PlayerId) -> (n: u32)
        requires
            self.wf(),
        ensures
            n == vstd::math::min(building_points(self.vertices_view(), player), u32::MAX as int),
    {
        let entries = &self.vertices;
        let mut n: u64 = 0;
        let mut i: usize = 0;
        while i < entries.len()
            invariant
                0 <= i <= entries@.len(),
                n == vstd::math::min(building_points(entries@.subrange(0, i as int), player), u32::MAX as int),
            decreases entries@.len() - i,
        {
            proof {
                assert(entries@.subrange(0, i + 1).drop_last() =~= entries@.subrange(0, i as int));
                lemma_building_points_nonneg(entries@.subrange(0, i as int), player);
            }
            let b = entries[i].1;
            let add: u64 = if b.owner() == Some(player) {
                b.resource_multiplier() as u64
            } else {
                0
            };
            n = if n + add > u32::MAX as u64 {
                u32::MAX as u64
            } else {
                n + add
            };
            i = i + 1;
        }
        proof {
            assert(entries@.subrange(0, entries@.len() as int) =~= entries@);
        }
        n as u32
    }
}

proof fn lemma_building_points_nonneg(es: Seq<(VertexCoord, VertexBuilding)>, p: PlayerId)
    ensures
        building_points(es, p) >= 0,
    decreases es.len(),
{
    if es.len() > 0 {
        lemma_building_points_nonneg(es.drop_last(), p);
    }
}

impl Board {
    /// A hex with a tile stands on the board's scale.
    pub proof fn lemma_tile_in_range(self, h: HexCoord)
        requires
            self.wf(),
            self.has_tile(h),
        ensures
            h.on_board_scale(),
    {
        let i = choose|i: int| 0 <= i < self.tiles_view().len() && self.tiles_view()[i].coord == h;
        assert(self.tiles_view()[i].coord.on_board_scale());
    }

    /// Moving the robber keeps which hexes have tiles, and what stands on the corners.
    pub proof fn lemma_moved_keeps_tiles(self, before: Board, h: HexCoord)
        requires
            self.robber_moved(before, h),
            before.wf(),
        ensures
            forall|x: HexCoord| self.has_tile(x) == before.has_tile(x),
            forall|x: HexCoord| before.has_tile(x) ==> self.tile_of(x).tile_type == before.tile_of(x).tile_type,
            forall|v: VertexCoord| self.vertex_at(v) == before.vertex_at(v),
    {
        assert forall|x: HexCoord| self.has_tile(x) == before.has_tile(x) by {
            if before.has_tile(x) {
                let i = choose|i: int| 0 <= i < before.tiles_view().len() && before.tiles_view()[i].coord == x;
                assert(self.tiles_view()[i].coord == x);
            }
            if self.has_tile(x) {
                let i = choose|i: int| 0 <= i < self.tiles_view().len() && self.tiles_view()[i].coord == x;
                assert(self.tiles_view()[i] == (Tile { has_robber: before.tiles_view()[i].coord == h, ..before.tiles_view()[i] }));
            }
        }
        assert forall|x: HexCoord| before.has_tile(x) implies self.tile_of(x).tile_type == before.tile_of(x).tile_type by {
            let i = choose|i: int| 0 <= i < self.tiles_view().len() && self.tiles_view()[i].coord == x;
            let j = choose|j: int| 0 <= j < before.tiles_view().len() && before.tiles_view()[j].coord == x;
            assert(self.tiles_view()[i] == (Tile { has_robber: before.tiles_view()[i].coord == h, ..before.tiles_view()[i] }));
            assert(before.tiles_view()[i].coord == x);
            assert(i == j);
        }
    }
}

impl Board {
    /// A corner where something stands lies near the board.
    pub proof fn lemma_built_in_range(self, v: VertexCoord)
        requires
            self.wf(),
            self.vertex_at(v) != VertexBuilding::Empty,
        ensures
            v.near_board(),
    {
        let vs = self.vertices_view();
        let i = choose|i: int| 0 <= i < vs.len() && vs[i].0 == v;
        assert(vs[i].0.near_board());
    }
}

/// The 19 land hexes of the standard layout: the hexes within two steps of the centre.
pub open spec fn standard_land(h: HexCoord) -> bool {
    crate::hex::distance_spec(h, HexCoord { q: 0, r: 0 }) <= 2
}

fn is_standard_land(h: &HexCoord) -> (b: bool)
    requires
        h.on_board_scale(),
    ensures
        b == standard_land(*h),
{
    h.distance_to(&HexCoord::new(0, 0)) <= 2
}

/// The standard layout: the centre, the ring of 6, then the ring of 12.
pub open spec fn layout_spec() -> Seq<HexCoord> {
    seq![
        HexCoord { q: 0i32, r: 0i32 },
        HexCoord { q: 1i32, r: 0i32 },
        HexCoord { q: 1i32, r: -1i32 },
        HexCoord { q: 0i32, r: -1i32 },
        HexCoord { q: -1i32, r: 0i32 },
        HexCoord { q: -1i32, r: 1i32 },
        HexCoord { q: 0i32, r: 1i32 },
        HexCoord { q: 2i32, r: 0i32 },
        HexCoord { q: 2i32, r: -1i32 },
        HexCoord { q: 2i32, r: -2i32 },
        HexCoord { q: 1i32, r: -2i32 },
        HexCoord { q: 0i32, r: -2i32 },
        HexCoord { q: -1i32, r: -1i32 },
        HexCoord { q: -2i32, r: 0i32 },
        HexCoord { q: -2i32, r: 1i32 },
        HexCoord { q: -2i32, r: 2i32 },
        HexCoord { q: -1i32, r: 2i32 },
        HexCoord { q: 0i32, r: 2i32 },
        HexCoord { q: 1i32, r: 1i32 },
    ]
}

/// `h` is neighbour `y` of layout hex `x` for some `(x, y)` before `(a, m)`.
pub open spec fn beside_layout(h: HexCoord, a: int, m: int) -> bool {
    exists|x: int, y: int|
        0 <= x < 19 && 0 <= y < 6 && (x < a || (x == a && y < m)) && #[trigger] crate::hex::neighbors_spec(
            layout_spec()[x],
        )[y] == h
}

/// The ocean ring: the hexes off the layout next to a layout hex.
pub open spec fn ring_hex(h: HexCoord) -> bool {
    !standard_land(h) && beside_layout(h, 19, 0)
}

/// The layout holds every hex within two steps of the centre.
pub proof fn lemma_layout_covers(h: HexCoord)
    requires
        standard_land(h),
    ensures
        layout_spec().contains(h),
{
    let l = layout_spec();
    if h == l[0] {
        assert(l[0] == h);
    } else if h == l[1] {
        assert(l[1] == h);
    } else if h == l[2] {
        assert(l[2] == h);
    } else if h == l[3] {
        assert(l[3] == h);
    } else if h == l[4] {
        assert(l[4] == h);
    } else if h == l[5] {
        assert(l[5] == h);
    } else if h == l[6] {
        assert(l[6] == h);
    } else if h == l[7] {
        assert(l[7] == h);
    } else if h == l[8] {
        assert(l[8] == h);
    } else if h == l[9] {
        assert(l[9] == h);
    } else if h == l[10] {
        assert(l[10] == h);
    } else if h == l[11] {
        assert(l[11] == h);
    } else if h == l[12] {
        assert(l[12] == h);
    } else if h == l[13] {
        assert(l[13] == h);
    } else if h == l[14] {
        assert(l[14] == h);
    } else if h == l[15] {
        assert(l[15] == h);
    } else if h == l[16] {
        assert(l[16] == h);
    } else if h == l[17] {
        assert(l[17] == h);
    } else if h == l[18] {
        assert(l[18] == h);
    } else {
        assert(false);
    }
}

fn land_layout() -> (v: Vec<HexCoord>)
    ensures
        v@ == layout_spec(),
        v@.len() == 19,
        forall|i: int| 0 <= i < 19 ==> standard_land(#[trigger] v@[i]) && v@[i].within(2),
        forall|i: int, j: int| 0 <= i < 19 && 0 <= j < 19 && i != j ==> v@[i] != v@[j],
{
    let v = vec![
        HexCoord::new(0, 0),
        HexCoord::new(1, 0),
        HexCoord::new(1, -1),
        HexCoord::new(0, -1),
        HexCoord::new(-1, 0),
        HexCoord::new(-1, 1),
        HexCoord::new(0, 1),
        HexCoord::new(2, 0),
        HexCoord::new(2, -1),
        HexCoord::new(2, -2),
        HexCoord::new(1, -2),
        HexCoord::new(0, -2),
        HexCoord::new(-1, -1),
        HexCoord::new(-2, 0),
        HexCoord::new(-2, 1),
        HexCoord::new(-2, 2),
        HexCoord::new(-1, 2),
        HexCoord::new(0, 2),
        HexCoord::new(1, 1),
    ];
    assert(v@ =~= layout_spec());
    v
}

/// The 18 resource tiles: 4 lumber, 4 grain, 4 wool, 3 ore, 3 brick.
pub open spec fn standard_resources_spec() -> Seq<Resource> {
    seq![
        Resource::Lumber,
        Resource::Lumber,
        Resource::Lumber,
        Resource::Lumber,
        Resource::Grain,
        Resource::Grain,
        Resource::Grain,
        Resource::Grain,
        Resource::Wool,
        Resource::Wool,
        Resource::Wool,
        Resource::Wool,
        Resource::Ore,
        Resource::Ore,
        Resource::Ore,
        Resource::Brick,
        Resource::Brick,
        Resource::Brick,
    ]
}

/// The nine harbour kinds: four generic, and one specific for each resource.
pub open spec fn standard_harbor_kinds() -> Seq<Harbor> {
    seq![
        Harbor::Generic,
        Harbor::Generic,
        Harbor::Generic,
        Harbor::Generic,
        Harbor::Specific(Resource::Brick),
        Harbor::Specific(Resource::Lumber),
        Harbor::Specific(Resource::Ore),
        Harbor::Specific(Resource::Grain),
        Harbor::Specific(Resource::Wool),
    ]
}

/// The 18 dice numbers: one 2 and one 12, two each of 3 to 11 but 7.
pub open spec fn standard_numbers_spec() -> Seq<u8> {
    seq![2u8, 3u8, 3u8, 4u8, 4u8, 5u8, 5u8, 6u8, 6u8, 8u8, 8u8, 9u8, 9u8, 10u8, 10u8, 11u8, 11u8, 12u8]
}

/// The resources of the resource tiles among the first `n` tiles, in order.
pub open spec fn land_resources(ts: Seq<Tile>, n: int) -> Seq<Resource>
    decreases n,
{
    if n <= 0 {
        Seq::empty()
    } else {
        let rest = land_resources(ts, n - 1);
        match resource_of(ts[n - 1].tile_type) {
            Some(r) => rest.push(r),
            None => rest,
        }
    }
}

/// The dice numbers among the first `n` tiles, in order.
pub open spec fn land_numbers(ts: Seq<Tile>, n: int) -> Seq<u8>
    decreases n,
{
    if n <= 0 {
        Seq::empty()
    } else {
        let rest = land_numbers(ts, n - 1);
        match ts[n - 1].dice_number {
            Some(d) => rest.push(d),
            None => rest,
        }
    }
}

fn standard_resources() -> (v: Vec<Resource>)
    ensures
        v@ == standard_resources_spec(),
        v@.len() == 18,
{
    let v = vec![
        Resource::Lumber,
        Resource::Lumber,
        Resource::Lumber,
        Resource::Lumber,
        Resource::Grain,
        Resource::Grain,
        Resource::Grain,
        Resource::Grain,
        Resource::Wool,
        Resource::Wool,
        Resource::Wool,
        Resource::Wool,
        Resource::Ore,
        Resource::Ore,
        Resource::Ore,
        Resource::Brick,
        Resource::Brick,
        Resource::Brick,
    ];
    assert(v@ =~= standard_resources_spec());
    v
}

fn standard_numbers() -> (v: Vec<u8>)
    ensures
        v@ == standard_numbers_spec(),
        v@.len() == 18,
{
    let v = vec![2, 3, 3, 4, 4, 5, 5, 6, 6, 8, 8, 9, 9, 10, 10, 11, 11, 12];
    assert(v@ =~= standard_numbers_spec());
    v
}

/// No two neighbouring hexes both carry a 6 or an 8.
pub open spec fn numbers_spread(coords: Seq<HexCoord>, numbers: Seq<u8>) -> bool {
    forall|i: int, j: int|
        0 <= i < coords.len() && 0 <= j < coords.len() && i < numbers.len() && j < numbers.len()
            && crate::hex::neighbors_spec(coords[i]).contains(coords[j]) ==> !((numbers[i] == 6
            || numbers[i] == 8) && (numbers[j] == 6 || numbers[j] == 8))
}

fn is_hot(n: u8) -> (b: bool)
    ensures
        b == (n == 6 || n == 8),
{
    n == 6 || n == 8
}

/// Whether giving `numbers[k]` to `coords[k]` keeps 6s and 8s apart.
fn is_valid_number_placement(coords: &Vec<HexCoord>, numbers: &Vec<u8>) -> (b: bool)
    requires
        forall|i: int| 0 <= i < coords@.len() ==> (#[trigger] coords@[i]).on_board_scale(),
    ensures
        b == numbers_spread(coords@, numbers@),
{
    let n = if coords.len() < numbers.len() {
        coords.len()
    } else {
        numbers.len()
    };
    let mut i: usize = 0;
    while i < n
        invariant
            n <= coords@.len(),
            n <= numbers@.len(),
            n == coords@.len() || n == numbers@.len(),
            0 <= i <= n,
            forall|i: int| 0 <= i < coords@.len() ==> (#[trigger] coords@[i]).on_board_scale(),
            forall|a: int, c: int|
                0 <= a < i && 0 <= c < n && crate::hex::neighbors_spec(coords@[a]).contains(coords@[c])
                    ==> !((numbers@[a] == 6 || numbers@[a] == 8) && (numbers@[c] == 6 || numbers@[c] == 8)),
        decreases n - i,
    {
        if is_hot(numbers[i]) {
            let ns = coords[i].neighbors();
            let mut j: usize = 0;
            while j < n
                invariant
                    n <= coords@.len(),
                    n <= numbers@.len(),
                    0 <= i < n,
                    0 <= j <= n,
                    ns@ == crate::hex::neighbors_spec(coords@[i as int]),
                    numbers@[i as int] == 6 || numbers@[i as int] == 8,
                    forall|c: int|
                        0 <= c < j && crate::hex::neighbors_spec(coords@[i as int]).contains(coords@[c])
                            ==> !(numbers@[c] == 6 || numbers@[c] == 8),
                decreases n - j,
            {
                if is_hot(numbers[j]) {
                    let c = coords[j];
                    if ns[0] == c || ns[1] == c || ns[2] == c || ns[3] == c || ns[4] == c || ns[5] == c {
                        proof {
                            assert(crate::hex::neighbors_spec(coords@[i as int]).contains(coords@[j as int])) by {
                                if ns[0] == c { assert(ns@[0] == c); }
                                else if ns[1] == c { assert(ns@[1] == c); }
                                else if ns[2] == c { assert(ns@[2] == c); }
                                else if ns[3] == c { assert(ns@[3] == c); }
                                else if ns[4] == c { assert(ns@[4] == c); }
                                else { assert(ns@[5] == c); }
                            }
                        }
                        return false;
                    }
                    proof {
                        assert(!crate::hex::neighbors_spec(coords@[i as int]).contains(coords@[j as int])) by {
                            if crate::hex::neighbors_spec(coords@[i as int]).contains(coords@[j as int]) {
                                let m = choose|m: int| 0 <= m < 6 && ns@[m] == c;
                            }
                        }
                    }
                }
                j = j + 1;
            }
        }
        i = i + 1;
    }
    true
}

impl Board {
    /// Shuffles `numbers` until no two neighbouring resource hexes both carry a 6 or an
    /// 8, for at most 100 attempts; after that the last shuffle stands.
    fn assign_numbers_avoiding_adjacent_68(coords: &Vec<HexCoord>, numbers: &Vec<u8>) -> (v: Vec<u8>)
        requires
            forall|i: int| 0 <= i < coords@.len() ==> (#[trigger] coords@[i]).on_board_scale(),
        ensures
            v@.len() == numbers@.len(),
            v@.to_multiset() == numbers@.to_multiset(),
    {
        let mut attempt: usize = 0;
        let mut shuffled = numbers.clone();
        proof {
            assert(shuffled@ =~= numbers@);
        }
        while attempt < 100
            invariant
                shuffled@.len() == numbers@.len(),
                shuffled@.to_multiset() == numbers@.to_multiset(),
                forall|i: int| 0 <= i < coords@.len() ==> (#[trigger] coords@[i]).on_board_scale(),
            decreases 100 - attempt,
        {
            shuffle_vec(&mut shuffled);
            if is_valid_number_placement(coords, &shuffled) {
                return shuffled;
            }
            attempt = attempt + 1;
        }
        shuffle_vec(&mut shuffled);
        shuffled
    }
}

/// Twice the midpoint of an edge, in the exact pole units.
pub open spec fn mid2(e: EdgeCoord) -> (int, int) {
    let ends = endpoints_spec(e);
    (crate::hex::pole_x(ends[0]) + crate::hex::pole_x(ends[1]), crate::hex::pole_y(ends[0])
        + crate::hex::pole_y(ends[1]))
}

/// The squared distance between two edge midpoints, up to a constant factor: x counts
/// halves of `sqrt(3)` and y halves of the unit, so it is `3 dx^2 + dy^2`.
pub open spec fn edge_gap(e1: EdgeCoord, e2: EdgeCoord) -> int {
    let dx = mid2(e1).0 - mid2(e2).0;
    let dy = mid2(e1).1 - mid2(e2).1;
    3 * (dx * dx) + dy * dy
}

/// Compares midpoints exactly, in place of a floating-point distance.
fn edge_distance(e1: &EdgeCoord, e2: &EdgeCoord) -> (d: u64)
    requires
        e1.near_board(),
        e2.near_board(),
    ensures
        d == edge_gap(*e1, *e2),
{
    let a = e1.endpoints();
    let b = e2.endpoints();
    let x1 = pole_x_exec(&a[0]) + pole_x_exec(&a[1]);
    let y1 = pole_y_exec(&a[0]) + pole_y_exec(&a[1]);
    let x2 = pole_x_exec(&b[0]) + pole_x_exec(&b[1]);
    let y2 = pole_y_exec(&b[0]) + pole_y_exec(&b[1]);
    let dx = if x1 > x2 { x1 - x2 } else { x2 - x1 };
    let dy = if y1 > y2 { y1 - y2 } else { y2 - y1 };
    assert(0 <= dx <= 0x10_0000 && 0 <= dy <= 0x10_0000);
    assert(dx * dx <= 0x10_0000 * 0x10_0000) by (nonlinear_arith)
        requires
            0 <= dx <= 0x10_0000,
    ;
    assert(dy * dy <= 0x10_0000 * 0x10_0000) by (nonlinear_arith)
        requires
            0 <= dy <= 0x10_0000,
    ;
    assert(dx * dx == (x1 - x2) * (x1 - x2)) by (nonlinear_arith)
        requires
            dx == x1 - x2 || dx == x2 - x1,
    ;
    assert(dy * dy == (y1 - y2) * (y1 - y2)) by (nonlinear_arith)
        requires
            dy == y1 - y2 || dy == y2 - y1,
    ;
    (3 * (dx * dx) + dy * dy) as u64
}

fn pole_x_exec(v: &VertexCoord) -> (x: i64)
    requires
        v.hex.within(BOARD_LIMIT + 4),
    ensures
        x == crate::hex::pole_x(*v),
        -4 * BOARD_LIMIT <= x <= 4 * BOARD_LIMIT,
{
    2 * (v.hex.q as i64) + v.hex.r as i64
}

fn pole_y_exec(v: &VertexCoord) -> (y: i64)
    requires
        v.hex.within(BOARD_LIMIT + 4),
    ensures
        y == crate::hex::pole_y(*v),
        -4 * BOARD_LIMIT <= y <= 4 * BOARD_LIMIT,
{
    match v.direction {
        crate::hex::VertexDirection::North => 3 * (v.hex.r as i64) - 2,
        crate::hex::VertexDirection::South => 3 * (v.hex.r as i64) + 2,
    }
}

impl Board {
    /// The sides of land tiles that border a hex without a land tile, each once.
    pub fn get_coastal_edges(&self) -> (out: Vec<EdgeCoord>)
        requires
            self.wf(),
        ensures
            out@.no_duplicates(),
            forall|x: EdgeCoord| out@.contains(x) ==> x.near_board(),
            forall|x: EdgeCoord| out@.contains(x) <==> self.coastal_edge(x),
    {
        let mut out: Vec<EdgeCoord> = Vec::new();
        let mut i: usize = 0;
        while i < self.tiles.len()
            invariant
                self.wf(),
                0 <= i <= self.tiles@.len(),
                out@.no_duplicates(),
                forall|x: EdgeCoord| out@.contains(x) ==> x.near_board(),
                forall|x: EdgeCoord| out@.contains(x) <==> self.coastal_among(x, i as int, 0),
            decreases self.tiles@.len() - i,
        {
            let t = self.tiles[i];
            assert(self.tiles@[i as int].coord.on_board_scale());
            let es = t.coord.edges();
            let mut k: usize = 0;
            while k < 6
                invariant
                    self.wf(),
                    0 <= k <= 6,
                    i < self.tiles@.len(),
                    t == self.tiles@[i as int],
                    t.coord.on_board_scale(),
                    es@ == hex_edges_spec(t.coord),
                    out@.no_duplicates(),
                    forall|x: EdgeCoord| out@.contains(x) ==> x.near_board(),
                    forall|x: EdgeCoord| out@.contains(x) <==> self.coastal_among(x, i as int, k as int),
                decreases 6 - k,
            {
                let e = es[k];
                let hs = e.touching_hexes();
                let ghost prev = out@;
                if t.tile_type != TileType::Ocean && (!self.is_land_at(&hs[0]) || !self.is_land_at(&hs[1])) {
                    push_unique_edge(&mut out, e);
                }
                proof {
                    assert(es@[k as int] == e);
                    assert forall|x: EdgeCoord| out@.contains(x) <==> self.coastal_among(x, i as int, k + 1) by {
                        if self.coastal_among(x, i as int, k + 1) && !self.coastal_among(x, i as int, k as int) {
                            assert(x == e);
                        }
                    }
                }
                k = k + 1;
            }
            proof {
                assert forall|x: EdgeCoord| self.coastal_among(x, i as int, 6) <==> self.coastal_among(x, i + 1, 0) by {
                }
            }
            i = i + 1;
        }
        proof {
            assert forall|x: EdgeCoord| self.coastal_among(x, self.tiles@.len() as int, 0) <==> self.coastal_edge(x) by {
            }
        }
        out
    }

    /// `e` borders the coast: it is a side of a land tile, and one of its two hexes has
    /// no land tile.
    pub open spec fn coastal_edge(self, e: EdgeCoord) -> bool {
        exists|j: int|
            0 <= j < self.tiles_view().len() && self.tiles_view()[j].tile_type != TileType::Ocean
                && among6(hex_edges_spec(self.tiles_view()[j].coord), e) && self.sea_beside(e)
    }

    /// One of the two hexes along `e` has no land tile.
    pub open spec fn sea_beside(self, e: EdgeCoord) -> bool {
        !self.is_land_hex(e.hex) || !self.is_land_hex(crate::hex::neighbor_spec(e.hex, e.direction))
    }

    /// `e` is found coastal among the first `i` tiles, or among the first `k` sides of
    /// tile `i`.
    pub open spec fn coastal_among(self, e: EdgeCoord, i: int, k: int) -> bool {
        (exists|j: int|
            0 <= j < i && self.tiles_view()[j].tile_type != TileType::Ocean && among6(
                hex_edges_spec(self.tiles_view()[j].coord),
                e,
            )) && self.sea_beside(e) || (0 <= i < self.tiles_view().len() && self.tiles_view()[i].tile_type
            != TileType::Ocean && self.sea_beside(e) && exists|m: int|
            0 <= m < k && hex_edges_spec(self.tiles_view()[i].coord)[m] == e)
    }

    /// Picks `count` coastal edges spread around the coast: after a shuffle, each pick
    /// is the edge farthest from those picked so far (see `spread_picks`).
    pub fn select_distributed_coastal_edges(coastal: &Vec<EdgeCoord>, count: usize) -> (out: Vec<EdgeCoord>)
        requires
            coastal@.no_duplicates(),
            forall|x: EdgeCoord| coastal@.contains(x) ==> x.near_board(),
        ensures
            out@.len() == vstd::math::min(count as int, coastal@.len() as int),
            out@.no_duplicates(),
            forall|x: EdgeCoord| out@.contains(x) ==> coastal@.contains(x),
    {
        let mut available = coastal.clone();
        proof {
            assert(available@ =~= coastal@);
        }
        if available.len() <= count {
            return available;
        }
        let ghost before = available@;
        shuffle_vec(&mut available);
        proof {
            assert(before == coastal@);
            assert(available@.to_multiset() == coastal@.to_multiset());
            coastal@.lemma_multiset_has_no_duplicates();
            available@.lemma_multiset_has_no_duplicates_conv();
            assert forall|x: EdgeCoord| available@.contains(x) <==> coastal@.contains(x) by {
                available@.to_multiset_ensures();
                coastal@.to_multiset_ensures();
                assert(available@.to_multiset().count(x) == coastal@.to_multiset().count(x));
            }
        }
        spread_picks(&available, count)
    }
}

/// The smallest gap from `e` to an edge of `picked`; `u64::MAX` when nothing is picked.
pub open spec fn min_gap(e: EdgeCoord, picked: Seq<EdgeCoord>) -> int
    decreases picked.len(),
{
    if picked.len() == 0 {
        u64::MAX as int
    } else {
        vstd::math::min(min_gap(e, picked.drop_last()), edge_gap(e, picked.last()))
    }
}

/// `out` is a farthest-point selection from `order`: the first pick is the first edge
/// of `order`, and each later pick has, among the edges of `order` not picked before
/// it, the largest smallest gap to the earlier picks.
pub open spec fn greedy_spread(order: Seq<EdgeCoord>, out: Seq<EdgeCoord>) -> bool {
    &&& (out.len() > 0 ==> out[0] == order[0])
    &&& forall|k: int, e: EdgeCoord|
        1 <= k < out.len() && order.contains(e) && !out.subrange(0, k).contains(e) ==> #[trigger] min_gap(
            e,
            out.subrange(0, k),
        ) <= min_gap(out[k], out.subrange(0, k))
}

/// Removing item `i` of a list without duplicates removes exactly that item.
proof fn lemma_remove_no_dup(s: Seq<EdgeCoord>, i: int)
    requires
        s.no_duplicates(),
        0 <= i < s.len(),
    ensures
        s.remove(i).no_duplicates(),
        forall|e: EdgeCoord| s.remove(i).contains(e) <==> (s.contains(e) && e != s[i]),
{
    let t = s.remove(i);
    assert forall|a: int, b: int| 0 <= a < t.len() && 0 <= b < t.len() && a != b implies t[a] != t[b] by {
        let a2 = if a < i { a } else { a + 1 };
        let b2 = if b < i { b } else { b + 1 };
        assert(t[a] == s[a2] && t[b] == s[b2]);
    }
    assert forall|e: EdgeCoord| t.contains(e) <==> (s.contains(e) && e != s[i]) by {
        if t.contains(e) {
            let a = choose|a: int| 0 <= a < t.len() && t[a] == e;
            let a2 = if a < i { a } else { a + 1 };
            assert(s[a2] == e);
        }
        if s.contains(e) && e != s[i] {
            let a = choose|a: int| 0 <= a < s.len() && s[a] == e;
            if a < i {
                assert(t[a] == e);
            } else {
                assert(t[a - 1] == e);
            }
        }
    }
}

/// The farthest-point selection of up to `count` edges from `order`, which holds the
/// candidates in a random order: first `order[0]`, then repeatedly the remaining edge
/// whose smallest gap to the edges picked so far is largest (the first such on ties).
pub fn spread_picks(order: &Vec<EdgeCoord>, count: usize) -> (out: Vec<EdgeCoord>)
    requires
        order@.no_duplicates(),
        forall|x: EdgeCoord| order@.contains(x) ==> x.near_board(),
    ensures
        out@.len() == vstd::math::min(count as int, order@.len() as int),
        out@.no_duplicates(),
        forall|x: EdgeCoord| out@.contains(x) ==> order@.contains(x),
        greedy_spread(order@, out@),
{
    let mut available = order.clone();
    proof {
        assert(available@ =~= order@);
    }
    let mut selected: Vec<EdgeCoord> = Vec::new();
    while selected.len() < count && available.len() > 0
        invariant
            forall|e: EdgeCoord| available@.contains(e) <==> (order@.contains(e) && !selected@.contains(e)),
            available@.no_duplicates(),
            selected@.no_duplicates(),
            selected@.len() + available@.len() == order@.len(),
            forall|x: EdgeCoord| order@.contains(x) ==> x.near_board(),
            forall|x: EdgeCoord| selected@.contains(x) ==> order@.contains(x),
            selected@.len() <= count,
            selected@.len() == 0 ==> available@ == order@,
            greedy_spread(order@, selected@),
        decreases available@.len(),
    {
        let mut best: usize = 0;
        let mut best_gap: u64 = 0;
        if selected.len() > 0 {
            let mut idx: usize = 0;
            while idx < available.len()
                invariant
                    0 <= idx <= available@.len(),
                    available@.len() > 0,
                    best < available@.len(),
                    idx > 0 ==> best_gap == min_gap(available@[best as int], selected@),
                    forall|j: int| 0 <= j < idx ==> min_gap(available@[j], selected@) <= best_gap,
                    forall|x: EdgeCoord| order@.contains(x) ==> x.near_board(),
                    forall|x: EdgeCoord| selected@.contains(x) ==> order@.contains(x),
                    forall|e: EdgeCoord| available@.contains(e) ==> order@.contains(e),
                decreases available@.len() - idx,
            {
                let cand = available[idx];
                assert(available@.contains(cand));
                let mut min_dist: u64 = u64::MAX;
                let mut m: usize = 0;
                while m < selected.len()
                    invariant
                        0 <= m <= selected@.len(),
                        cand.near_board(),
                        min_dist == min_gap(cand, selected@.subrange(0, m as int)),
                        forall|x: EdgeCoord| order@.contains(x) ==> x.near_board(),
                        forall|x: EdgeCoord| selected@.contains(x) ==> order@.contains(x),
                    decreases selected@.len() - m,
                {
                    assert(selected@.contains(selected@[m as int]));
                    let d = edge_distance(&cand, &selected[m]);
                    proof {
                        let sub = selected@.subrange(0, m + 1);
                        assert(sub.drop_last() =~= selected@.subrange(0, m as int));
                        assert(sub.last() == selected@[m as int]);
                    }
                    if d < min_dist {
                        min_dist = d;
                    }
                    m = m + 1;
                }
                proof {
                    assert(selected@.subrange(0, selected@.len() as int) =~= selected@);
                }
                if idx == 0 || min_dist > best_gap {
                    best = idx;
                    best_gap = min_dist;
                }
                idx = idx + 1;
            }
        }
        let ghost avail = available@;
        let ghost sel = selected@;
        let chosen = available.remove(best);
        proof {
            lemma_remove_no_dup(avail, best as int);
            assert(avail[best as int] == chosen);
            assert(avail.contains(chosen));
        }
        selected.push(chosen);
        proof {
            assert(selected@.subrange(0, sel.len() as int) =~= sel);
            assert forall|e: EdgeCoord| available@.contains(e) <==> (order@.contains(e) && !selected@.contains(e)) by {
                crate::hex::lemma_push_contains(sel, chosen, e);
            }
            assert forall|x: EdgeCoord| selected@.contains(x) implies order@.contains(x) by {
                crate::hex::lemma_push_contains(sel, chosen, x);
            }
            assert forall|k: int, e: EdgeCoord|
                1 <= k < selected@.len() && order@.contains(e) && !selected@.subrange(0, k).contains(e) implies #[trigger] min_gap(
                    e,
                    selected@.subrange(0, k),
                ) <= min_gap(selected@[k], selected@.subrange(0, k)) by {
                if k < sel.len() {
                    assert(selected@.subrange(0, k) =~= sel.subrange(0, k));
                    assert(selected@[k] == sel[k]);
                } else {
                    assert(avail.contains(e));
                    let j = choose|j: int| 0 <= j < avail.len() && avail[j] == e;
                }
            }
            if sel.len() == 0 {
                assert(selected@[0] == order@[0]);
            } else {
                assert(selected@[0] == sel[0]);
            }
        }
    }
    selected
}


fn contains_coord(ts: &Vec<Tile>, h: HexCoord) -> (b: bool)
    ensures
        b == exists|j: int| 0 <= j < ts@.len() && ts@[j].coord == h,
{
    let mut i: usize = 0;
    while i < ts.len()
        invariant
            0 <= i <= ts@.len(),
            forall|j: int| 0 <= j < i ==> ts@[j].coord != h,
        decreases ts@.len() - i,
    {
        if ts[i].coord == h {
            return true;
        }
        i = i + 1;
    }
    false
}

/// Appending a tile keeps the land rows of the tiles before it.
proof fn lemma_land_rows_prefix(before: Seq<Tile>, after: Seq<Tile>, n: int)
    requires
        0 <= n,
        before.len() == n,
        after.len() == n + 1,
        after.subrange(0, n) == before,
    ensures
        land_resources(after, n) == land_resources(before, n),
        land_numbers(after, n) == land_numbers(before, n),
{
    lemma_land_rows_prefix_same(before, after, n);
}

/// The land rows of the first `n` tiles depend on those tiles alone.
proof fn lemma_land_rows_prefix_same(a: Seq<Tile>, b: Seq<Tile>, n: int)
    requires
        0 <= n <= a.len(),
        n <= b.len(),
        forall|j: int| 0 <= j < n ==> a[j] == b[j],
    ensures
        land_resources(a, n) == land_resources(b, n),
        land_numbers(a, n) == land_numbers(b, n),
    decreases n,
{
    if n > 0 {
        lemma_land_rows_prefix_same(a, b, n - 1);
    }
}

impl Board {
    /// The standard board: the 18 resource tiles shuffled onto the 19 land hexes
    /// around a desert at a random place, numbers shuffled until 6s and 8s are apart
    /// (for at most 100 attempts), the robber on the desert, a ring of ocean around the
    /// land, and 9 harbours spread along the coast.
    pub fn standard() -> (b: Board)
        ensures
            b.wf(),
            b.tiles_view().len() >= 19,
            forall|i: int| 0 <= i < 19 ==> (#[trigger] b.tiles_view()[i]).tile_type != TileType::Ocean
                && standard_land(b.tiles_view()[i].coord),
            forall|i: int| 19 <= i < b.tiles_view().len() ==> (#[trigger] b.tiles_view()[i]).tile_type
                == TileType::Ocean && !standard_land(b.tiles_view()[i].coord),
            forall|h: HexCoord| b.is_land_hex(h) <==> standard_land(h),
            land_resources(b.tiles_view(), 19).to_multiset() == standard_resources_spec().to_multiset(),
            land_numbers(b.tiles_view(), 19).to_multiset() == standard_numbers_spec().to_multiset(),
            b.is_land_hex(b.robber_spec()),
            b.tile_of(b.robber_spec()).tile_type == TileType::Desert,
            forall|i: int, j: int|
                0 <= i < 19 && 0 <= j < 19 && b.tiles_view()[i].tile_type == TileType::Desert
                    && b.tiles_view()[j].tile_type == TileType::Desert ==> i == j,
            b.vertices_view().len() == 0,
            b.edges_view().len() == 0,
            b.harbors_view().len() == 9,
            forall|h: HexCoord| (b.has_tile(h) && !standard_land(h)) <==> ring_hex(h),
            b.harbors_view().map_values(|h: HarborPlacement| h.edge).no_duplicates(),
            forall|i: int| 0 <= i < 9 ==> b.coastal_edge(#[trigger] b.harbors_view()[i].edge),
            exists|kinds: Seq<Harbor>|
                #[trigger] kinds.to_multiset() == standard_harbor_kinds().to_multiset() && forall|i: int|
                    0 <= i < b.harbors_view().len() ==> #[trigger] b.harbors_view()[i].harbor_type == kinds[i],
    {
        let land = land_layout();
        let mut resources = standard_resources();
        shuffle_vec(&mut resources);
        let desert = random_below(19) as usize;
        let mut res_coords: Vec<HexCoord> = Vec::new();
        let mut i: usize = 0;
        while i < 19
            invariant
                0 <= i <= 19,
                desert < 19,
                land@.len() == 19,
                forall|j: int| 0 <= j < 19 ==> (#[trigger] land@[j]).within(2),
                res_coords@.len() == if i > desert { i - 1 } else { i as int },
                forall|j: int| 0 <= j < res_coords@.len() ==> (#[trigger] res_coords@[j]).within(2),
            decreases 19 - i,
        {
            if i != desert {
                res_coords.push(land[i]);
            }
            i = i + 1;
        }
        let numbers = Board::assign_numbers_avoiding_adjacent_68(&res_coords, &standard_numbers());
        let mut board = Board::from_draws(&resources, desert, &numbers);
        board.add_standard_harbors();
        board
    }

    /// The board that the draws give: `resources` in order on the resource hexes of the
    /// layout, the desert at layout position `desert` with the robber, `numbers` in
    /// order on the resource tiles, and a ring of ocean around the land; no harbours yet.
    /// With the draws taken from a seeded source, a board can be rebuilt exactly.
    pub fn from_draws(resources: &Vec<Resource>, desert: usize, numbers: &Vec<u8>) -> (b: Board)
        requires
            resources@.len() == 18,
            numbers@.len() == 18,
            desert < 19,
        ensures
            b.wf(),
            b.tiles_view().len() >= 19,
            forall|i: int| 0 <= i < 19 ==> (#[trigger] b.tiles_view()[i]).coord == layout_spec()[i]
                && b.tiles_view()[i].tile_type != TileType::Ocean,
            forall|i: int| 0 <= i < 19 ==> (b.tiles_view()[i].tile_type == TileType::Desert <==> i == desert),
            forall|i: int| 19 <= i < b.tiles_view().len() ==> (#[trigger] b.tiles_view()[i]).tile_type
                == TileType::Ocean && !standard_land(b.tiles_view()[i].coord),
            forall|h: HexCoord| b.is_land_hex(h) <==> standard_land(h),
            land_resources(b.tiles_view(), 19) == resources@,
            land_numbers(b.tiles_view(), 19) == numbers@,
            b.robber_spec() == layout_spec()[desert as int],
            b.is_land_hex(b.robber_spec()),
            b.tile_of(b.robber_spec()).tile_type == TileType::Desert,
            b.vertices_view().len() == 0,
            b.edges_view().len() == 0,
            b.harbors_view().len() == 0,
            forall|h: HexCoord| (b.has_tile(h) && !standard_land(h)) <==> ring_hex(h),
    {
        let land = land_layout();
        let mut tiles: Vec<Tile> = Vec::new();
        let mut k: usize = 0;
        let mut i: usize = 0;
        while i < 19
            invariant
                0 <= i <= 19,
                desert < 19,
                land@.len() == 19,
                resources@.len() == 18,
                numbers@.len() == 18,
                forall|j: int| 0 <= j < 19 ==> standard_land(#[trigger] land@[j]) && land@[j].within(2),
                forall|a: int, c: int| 0 <= a < 19 && 0 <= c < 19 && a != c ==> land@[a] != land@[c],
                k == if i > desert { i - 1 } else { i as int },
                tiles@.len() == i,
                land_resources(tiles@, i as int) == resources@.subrange(0, k as int),
                land_numbers(tiles@, i as int) == numbers@.subrange(0, k as int),
                forall|j: int| 0 <= j < i ==> (#[trigger] tiles@[j]).coord == land@[j] && tiles@[j].tile_type != TileType::Ocean
                    && (tiles@[j].has_robber <==> j == desert) && (j == desert <==> tiles@[j].tile_type == TileType::Desert),
            decreases 19 - i,
        {
            let ghost before = tiles@;
            if i == desert {
                tiles.push(Tile::desert(land[i]));
            } else {
                tiles.push(Tile::new_resource(land[i], resources[k], numbers[k]));
                k = k + 1;
            }
            proof {
                assert(tiles@.subrange(0, i as int) =~= before);
                lemma_land_rows_prefix(before, tiles@, i as int);
                assert(resources@.subrange(0, k as int) =~= if i == desert { resources@.subrange(0, k as int) } else { resources@.subrange(0, k - 1).push(resources@[k - 1]) });
                assert(numbers@.subrange(0, k as int) =~= if i == desert { numbers@.subrange(0, k as int) } else { numbers@.subrange(0, k - 1).push(numbers@[k - 1]) });
            }
            i = i + 1;
        }
        let ghost first = tiles@;
        proof {
            assert(resources@.subrange(0, 18) =~= resources@);
            assert(numbers@.subrange(0, 18) =~= numbers@);
        }
        i = 0;
        while i < 19
            invariant
                0 <= i <= 19,
                desert < 19,
                land@.len() == 19,
                first.len() == 19,
                tiles@.subrange(0, 19) == first,
                forall|j: int| 0 <= j < 19 ==> standard_land(#[trigger] land@[j]) && land@[j].within(2),
                forall|a: int, c: int| 0 <= a < 19 && 0 <= c < 19 && a != c ==> land@[a] != land@[c],
                tiles@.len() >= 19,
                tiles@.len() <= 19 + 6 * i,
                forall|j: int| 0 <= j < 19 ==> (#[trigger] tiles@[j]).coord == land@[j] && tiles@[j].tile_type != TileType::Ocean
                    && (tiles@[j].has_robber <==> j == desert) && (j == desert <==> tiles@[j].tile_type == TileType::Desert),
                forall|j: int| 19 <= j < tiles@.len() ==> (#[trigger] tiles@[j]).tile_type == TileType::Ocean
                    && !standard_land(tiles@[j].coord) && !tiles@[j].has_robber && tiles@[j].coord.within(3),
                forall|a: int, c: int| 0 <= a < tiles@.len() && 0 <= c < tiles@.len() && a != c ==> tiles@[a].coord != tiles@[c].coord,
                land@ == layout_spec(),
                forall|j: int| 19 <= j < tiles@.len() ==> beside_layout(#[trigger] tiles@[j].coord, i as int, 0),
                forall|x: int, y: int|
                    0 <= x < i && 0 <= y < 6 && !standard_land(#[trigger] crate::hex::neighbors_spec(layout_spec()[x])[y])
                        ==> exists|j: int| 0 <= j < tiles@.len() && tiles@[j].coord == crate::hex::neighbors_spec(layout_spec()[x])[y],
            decreases 19 - i,
        {
            let ns = land[i].neighbors();
            let mut m: usize = 0;
            while m < 6
                invariant
                    0 <= m <= 6,
                    0 <= i < 19,
                    desert < 19,
                    land@.len() == 19,
                    first.len() == 19,
                    tiles@.subrange(0, 19) == first,
                    ns@ == crate::hex::neighbors_spec(land@[i as int]),
                    land@[i as int].within(2),
                    forall|j: int| 0 <= j < 19 ==> standard_land(#[trigger] land@[j]) && land@[j].within(2),
                    forall|a: int, c: int| 0 <= a < 19 && 0 <= c < 19 && a != c ==> land@[a] != land@[c],
                    tiles@.len() >= 19,
                    tiles@.len() <= 19 + 6 * i + m,
                    forall|j: int| 0 <= j < 19 ==> (#[trigger] tiles@[j]).coord == land@[j] && tiles@[j].tile_type != TileType::Ocean
                        && (tiles@[j].has_robber <==> j == desert) && (j == desert <==> tiles@[j].tile_type == TileType::Desert),
                    forall|j: int| 19 <= j < tiles@.len() ==> (#[trigger] tiles@[j]).tile_type == TileType::Ocean
                        && !standard_land(tiles@[j].coord) && !tiles@[j].has_robber && tiles@[j].coord.within(3),
                    forall|a: int, c: int| 0 <= a < tiles@.len() && 0 <= c < tiles@.len() && a != c ==> tiles@[a].coord != tiles@[c].coord,
                    land@ == layout_spec(),
                    forall|j: int| 19 <= j < tiles@.len() ==> beside_layout(#[trigger] tiles@[j].coord, i as int, m as int),
                    forall|x: int, y: int|
                        0 <= x < 19 && 0 <= y < 6 && (x < i || (x == i && y < m)) && !standard_land(
                            #[trigger] crate::hex::neighbors_spec(layout_spec()[x])[y],
                        ) ==> exists|j: int| 0 <= j < tiles@.len() && tiles@[j].coord == crate::hex::neighbors_spec(layout_spec()[x])[y],
                decreases 6 - m,
            {
                let n = ns[m];
                let ghost prev = tiles@;
                assert(n == crate::hex::neighbors_spec(layout_spec()[i as int])[m as int]);
                if !is_standard_land(&n) && !contains_coord(&tiles, n) {
                    tiles.push(Tile::ocean(n));
                    assert(tiles@.subrange(0, 19) =~= first);
                    assert(tiles@[prev.len() as int].coord == n);
                }
                proof {
                    assert forall|j: int| 19 <= j < tiles@.len() implies beside_layout(#[trigger] tiles@[j].coord, i as int, m + 1) by {
                        if j < prev.len() {
                            assert(tiles@[j] == prev[j]);
                            assert(beside_layout(prev[j].coord, i as int, m as int));
                            let (x, y) = choose|x: int, y: int|
                                0 <= x < 19 && 0 <= y < 6 && (x < i || (x == i && y < m)) && #[trigger] crate::hex::neighbors_spec(
                                    layout_spec()[x],
                                )[y] == prev[j].coord;
                        } else {
                            assert(crate::hex::neighbors_spec(layout_spec()[i as int])[m as int] == tiles@[j].coord);
                        }
                    }
                    assert forall|x: int, y: int|
                        0 <= x < 19 && 0 <= y < 6 && (x < i || (x == i && y < m + 1)) && !standard_land(
                            #[trigger] crate::hex::neighbors_spec(layout_spec()[x])[y],
                        ) implies exists|j: int| 0 <= j < tiles@.len() && tiles@[j].coord == crate::hex::neighbors_spec(layout_spec()[x])[y] by {
                        if x < i || (x == i && y < m) {
                            let j = choose|j: int| 0 <= j < prev.len() && prev[j].coord == crate::hex::neighbors_spec(layout_spec()[x])[y];
                            assert(tiles@[j] == prev[j]);
                        } else {
                            if tiles@.len() > prev.len() {
                                assert(tiles@[prev.len() as int].coord == n);
                            }
                        }
                    }
                }
                m = m + 1;
            }
            proof {
                assert forall|j: int| 19 <= j < tiles@.len() implies beside_layout(#[trigger] tiles@[j].coord, i + 1, 0) by {
                    assert(beside_layout(tiles@[j].coord, i as int, 6));
                    let (x, y) = choose|x: int, y: int|
                        0 <= x < 19 && 0 <= y < 6 && (x < i || (x == i && y < 6)) && #[trigger] crate::hex::neighbors_spec(
                            layout_spec()[x],
                        )[y] == tiles@[j].coord;
                }
            }
            i = i + 1;
        }
        let mut board = Board {
            tiles,
            vertices: Vec::new(),
            edges: Vec::new(),
            harbors: Vec::new(),
            robber_location: land[desert],
        };
        proof {
            assert(board.tiles@[desert as int].coord == land@[desert as int]);
            assert(board.has_tile(land@[desert as int]));
            let j = choose|j: int| 0 <= j < board.tiles@.len() && board.tiles@[j].coord == land@[desert as int];
            assert(j == desert);
        }
        proof {
            lemma_land_rows_prefix_same(first, board.tiles@, 19);
            assert forall|h: HexCoord| board.is_land_hex(h) <==> standard_land(h) by {
                if standard_land(h) {
                    lemma_layout_covers(h);
                    let i = choose|i: int| 0 <= i < 19 && land@[i] == h;
                    assert(board.tiles@[i].coord == h);
                    let j = choose|j: int| 0 <= j < board.tiles@.len() && board.tiles@[j].coord == h;
                    assert(i == j);
                }
                if board.is_land_hex(h) {
                    let j = choose|j: int| 0 <= j < board.tiles@.len() && board.tiles@[j].coord == h;
                    assert(board.tiles@[j].tile_type != TileType::Ocean);
                }
            }
        }
        proof {
            assert forall|h: HexCoord| (board.has_tile(h) && !standard_land(h)) <==> ring_hex(h) by {
                if board.has_tile(h) && !standard_land(h) {
                    let j = choose|j: int| 0 <= j < board.tiles@.len() && board.tiles@[j].coord == h;
                    assert(beside_layout(board.tiles@[j].coord, 19, 0));
                }
                if ring_hex(h) {
                    let (x, y) = choose|x: int, y: int|
                        0 <= x < 19 && 0 <= y < 6 && (x < 19 || (x == 19 && y < 0)) && #[trigger] crate::hex::neighbors_spec(
                            layout_spec()[x],
                        )[y] == h;
                    let j = choose|j: int| 0 <= j < board.tiles@.len() && board.tiles@[j].coord == crate::hex::neighbors_spec(layout_spec()[x])[y];
                }
            }
        }
        board
    }

    /// Puts 4 generic and 5 specific harbours, in shuffled order, on coastal edges
    /// spread around the board.
    fn add_standard_harbors(&mut self)
        requires
            old(self).wf(),
            old(self).harbors_view().len() == 0,
            forall|h: HexCoord| old(self).is_land_hex(h) <==> standard_land(h),
        ensures
            final(self).harbors_view().len() == 9,
            final(self).wf(),
            final(self).tiles_view() == old(self).tiles_view(),
            final(self).vertices_view() == old(self).vertices_view(),
            final(self).edges_view() == old(self).edges_view(),
            final(self).robber_spec() == old(self).robber_spec(),
            final(self).harbors_view().map_values(|h: HarborPlacement| h.edge).no_duplicates(),
            forall|i: int| 0 <= i < 9 ==> final(self).coastal_edge(#[trigger] final(self).harbors_view()[i].edge),
            exists|kinds: Seq<Harbor>|
                #[trigger] kinds.to_multiset() == standard_harbor_kinds().to_multiset() && forall|i: int|
                    0 <= i < final(self).harbors_view().len() ==> #[trigger] final(self).harbors_view()[i].harbor_type
                        == kinds[i],
    {
        let coastal = self.get_coastal_edges();
        proof {
            self.lemma_nine_coastal(coastal@);
        }
        let mut kinds = vec![
            Harbor::Generic,
            Harbor::Generic,
            Harbor::Generic,
            Harbor::Generic,
            Harbor::Specific(Resource::Brick),
            Harbor::Specific(Resource::Lumber),
            Harbor::Specific(Resource::Ore),
            Harbor::Specific(Resource::Grain),
            Harbor::Specific(Resource::Wool),
        ];
        proof {
            assert(kinds@ =~= standard_harbor_kinds());
        }
        shuffle_vec(&mut kinds);
        let selected = Board::select_distributed_coastal_edges(&coastal, 9);
        let ghost before = *self;
        self.place_harbors(&kinds, &selected);
        proof {
            assert forall|i: int| 0 <= i < 9 implies self.coastal_edge(#[trigger] self.harbors_view()[i].edge) by {
                let x = selected@[i];
                assert(self.harbors_view()[i].edge == x);
                assert(selected@.contains(x));
                assert(before.coastal_edge(x));
                let j = choose|j: int|
                    0 <= j < before.tiles_view().len() && before.tiles_view()[j].tile_type != TileType::Ocean
                        && among6(hex_edges_spec(before.tiles_view()[j].coord), x) && before.sea_beside(x);
                assert(self.tiles_view()[j] == before.tiles_view()[j]);
                assert(self.sea_beside(x) == before.sea_beside(x));
            }
        }
    }

    /// Puts harbour `kinds[i]` on `edges[i]`, for as many as both lists hold.
    pub fn place_harbors(&mut self, kinds: &Vec<Harbor>, edges: &Vec<EdgeCoord>)
        requires
            old(self).wf(),
            old(self).harbors_view().len() == 0,
            forall|x: EdgeCoord| edges@.contains(x) ==> x.near_board(),
        ensures
            final(self).wf(),
            final(self).tiles_view() == old(self).tiles_view(),
            final(self).vertices_view() == old(self).vertices_view(),
            final(self).edges_view() == old(self).edges_view(),
            final(self).robber_spec() == old(self).robber_spec(),
            final(self).harbors_view().len() == vstd::math::min(kinds@.len() as int, edges@.len() as int),
            forall|i: int|
                0 <= i < final(self).harbors_view().len() ==> #[trigger] final(self).harbors_view()[i] == (HarborPlacement {
                    edge: edges@[i],
                    harbor_type: kinds@[i],
                }),
    {
        let mut i: usize = 0;
        while i < edges.len() && i < kinds.len()
            invariant
                0 <= i <= edges@.len(),
                i <= kinds@.len(),
                self.harbors@.len() == i,
                self.tiles@ == old(self).tiles@,
                self.vertices@ == old(self).vertices@,
                self.edges@ == old(self).edges@,
                self.robber_location == old(self).robber_location,
                old(self).wf(),
                forall|x: EdgeCoord| edges@.contains(x) ==> x.near_board(),
                forall|j: int| 0 <= j < i ==> #[trigger] self.harbors@[j] == (HarborPlacement {
                    edge: edges@[j],
                    harbor_type: kinds@[j],
                }),
            decreases edges@.len() - i,
        {
            assert(edges@.contains(edges@[i as int]));
            self.harbors.push(HarborPlacement { edge: edges[i], harbor_type: kinds[i] });
            i = i + 1;
        }
    }
}

impl Board {
    /// A tile listed on the board is the tile at its own hex.
    pub proof fn lemma_listed_tile(self, t: Tile)
        requires
            self.wf(),
            self.tiles_view().contains(t),
        ensures
            self.has_tile(t.coord),
            self.tile_of(t.coord) == t,
    {
        let i = choose|i: int| 0 <= i < self.tiles_view().len() && self.tiles_view()[i] == t;
        assert(self.tiles_view()[i].coord == t.coord);
        let j = choose|j: int| 0 <= j < self.tiles_view().len() && self.tiles_view()[j].coord == t.coord;
        assert(i == j);
    }
}

/// Adjacency of corners is symmetric.
#[verifier::spinoff_prover]
#[verifier::rlimit(80)]
pub proof fn lemma_adjacency_symmetric(v: VertexCoord, k: int)
    requires
        v.hex.within(BOARD_LIMIT + 2),
        0 <= k < 3,
    ensures
        adjacent_vertices_spec(adjacent_vertices_spec(v)[k]).contains(v),
{
    let w = adjacent_vertices_spec(v)[k];
    let a = adjacent_vertices_spec(w);
    if a[0] == v {
        assert(a[0] == v);
    } else if a[1] == v {
        assert(a[1] == v);
    } else {
        assert(a[2] == v);
    }
}

/// The distance rule after a settlement: once `v` holds a building, none of its three
/// neighbouring corners passes the rule; a corner that is neither `v` nor next to it
/// passes exactly as before.
#[verifier::spinoff_prover]
#[verifier::rlimit(80)]
pub proof fn lemma_distance_rule_after_settlement(before: Board, after: Board, v: VertexCoord, p: PlayerId)
    requires
        v.near_board(),
        forall|x: VertexCoord| #[trigger]
            after.vertex_at(x) == if x == v {
                VertexBuilding::Settlement(p)
            } else {
                before.vertex_at(x)
            },
    ensures
        forall|k: int| 0 <= k < 3 ==> !after.distance_ok(#[trigger] adjacent_vertices_spec(v)[k]),
        forall|w: VertexCoord|
            w != v && !adjacent_vertices_spec(w).contains(v) ==> after.distance_ok(w) == before.distance_ok(w),
{
    assert forall|k: int| 0 <= k < 3 implies !after.distance_ok(#[trigger] adjacent_vertices_spec(v)[k]) by {
        lemma_adjacency_symmetric(v, k);
        let w = adjacent_vertices_spec(v)[k];
        let a = adjacent_vertices_spec(w);
        assert(a[0] == v || a[1] == v || a[2] == v) by {
            let m = choose|m: int| 0 <= m < a.len() && a[m] == v;
        }
    }
    assert forall|w: VertexCoord|
        w != v && !adjacent_vertices_spec(w).contains(v) implies after.distance_ok(w) == before.distance_ok(w) by {
        let a = adjacent_vertices_spec(w);
        assert(a[0] != v) by {
            if a[0] == v {
                assert(a.contains(v));
            }
        }
        assert(a[1] != v) by {
            if a[1] == v {
                assert(a.contains(v));
            }
        }
        assert(a[2] != v) by {
            if a[2] == v {
                assert(a.contains(v));
            }
        }
    }
}

/// Production from one tile: if on `t`'s corners player `p` has exactly one building,
/// at corner `k`, then a roll of `t`'s number yields 1 card of its resource for a
/// settlement and 2 for a city, and nothing while the robber is on `t`.
pub proof fn lemma_tile_production(b: Board, t: Tile, roll: u8, r: Resource, p: PlayerId, k: int)
    requires
        0 <= k < 6,
        t.dice_number == Some(roll),
        t.tile_type == TileType::Resource(r),
        owner_of(b.vertex_at(hex_vertices_spec(t.coord)[k])) == Some(p),
        forall|j: int|
            0 <= j < 6 && j != k ==> owner_of(b.vertex_at(hex_vertices_spec(t.coord)[j])) != Some(p),
    ensures
        !t.has_robber && b.vertex_at(hex_vertices_spec(t.coord)[k]) == VertexBuilding::Settlement(p)
            ==> b.tile_yield(t, roll, p, r) == 1,
        !t.has_robber && b.vertex_at(hex_vertices_spec(t.coord)[k]) == VertexBuilding::City(p)
            ==> b.tile_yield(t, roll, p, r) == 2,
        t.has_robber ==> b.tile_yield(t, roll, p, r) == 0,
{
    let vs = hex_vertices_spec(t.coord);
    assert(owner_of(b.vertex_at(vs[0])) == Some(p) <==> k == 0);
    assert(owner_of(b.vertex_at(vs[1])) == Some(p) <==> k == 1);
    assert(owner_of(b.vertex_at(vs[2])) == Some(p) <==> k == 2);
    assert(owner_of(b.vertex_at(vs[3])) == Some(p) <==> k == 3);
    assert(owner_of(b.vertex_at(vs[4])) == Some(p) <==> k == 4);
    assert(owner_of(b.vertex_at(vs[5])) == Some(p) <==> k == 5);
}

/// A tile as plain values, for snapshots.
#[derive(Debug, Clone, Copy, PartialEq, Eq)]
pub struct TileJson {
    pub q: i32,
    pub r: i32,
    pub tile_type: TileType,
    pub dice_number: Option<u8>,
    pub has_robber: bool,
}

/// A built corner as plain values, for snapshots.
#[derive(Debug, Clone, Copy, PartialEq, Eq)]
pub struct VertexJson {
    pub hex_q: i32,
    pub hex_r: i32,
    pub direction: VertexDirection,
    pub building: VertexBuilding,
}

/// A built side as plain values, for snapshots.
#[derive(Debug, Clone, Copy, PartialEq, Eq)]
pub struct EdgeJson {
    pub hex_q: i32,
    pub hex_r: i32,
    pub direction: EdgeDirection,
    pub building: EdgeBuilding,
}

/// The board as plain values, with no pointers, for snapshots and transport.
#[derive(Debug, Clone)]
pub struct BoardJson {
    pub tiles: Vec<TileJson>,
    pub vertices: Vec<VertexJson>,
    pub edges: Vec<EdgeJson>,
    pub harbors: Vec<HarborPlacement>,
    pub robber_q: i32,
    pub robber_r: i32,
}

pub open spec fn tile_row(t: Tile) -> TileJson {
    TileJson { q: t.coord.q, r: t.coord.r, tile_type: t.tile_type, dice_number: t.dice_number, has_robber: t.has_robber }
}

/// The built corners of `s`, in order.
pub open spec fn vertex_rows(s: Seq<(VertexCoord, VertexBuilding)>) -> Seq<VertexJson>
    decreases s.len(),
{
    if s.len() == 0 {
        Seq::empty()
    } else {
        let rest = vertex_rows(s.drop_last());
        let (v, b) = s.last();
        if b == VertexBuilding::Empty {
            rest
        } else {
            rest.push(VertexJson { hex_q: v.hex.q, hex_r: v.hex.r, direction: v.direction, building: b })
        }
    }
}

/// The built sides of `s`, in order.
pub open spec fn edge_rows(s: Seq<(EdgeCoord, EdgeBuilding)>) -> Seq<EdgeJson>
    decreases s.len(),
{
    if s.len() == 0 {
        Seq::empty()
    } else {
        let rest = edge_rows(s.drop_last());
        let (e, b) = s.last();
        if b == EdgeBuilding::Empty {
            rest
        } else {
            rest.push(EdgeJson { hex_q: e.hex.q, hex_r: e.hex.r, direction: e.direction, building: b })
        }
    }
}

impl Board {
    /// A snapshot of the board as plain values: every tile, the built corners and
    /// sides, the harbours and the robber's hex.
    pub fn to_json_friendly(&self) -> (j: BoardJson)
        ensures
            j.tiles@ == self.tiles_view().map_values(|t: Tile| tile_row(t)),
            j.vertices@ == vertex_rows(self.vertices_view()),
            j.edges@ == edge_rows(self.edges_view()),
            j.harbors@ == self.harbors_view(),
            j.robber_q == self.robber_spec().q,
            j.robber_r == self.robber_spec().r,
    {
        let mut tiles: Vec<TileJson> = Vec::new();
        let mut i: usize = 0;
        while i < self.tiles.len()
            invariant
                0 <= i <= self.tiles@.len(),
                tiles@ == self.tiles@.subrange(0, i as int).map_values(|t: Tile| tile_row(t)),
            decreases self.tiles@.len() - i,
        {
            let t = self.tiles[i];
            tiles.push(TileJson { q: t.coord.q, r: t.coord.r, tile_type: t.tile_type, dice_number: t.dice_number, has_robber: t.has_robber });
            proof {
                assert(tiles@ =~= self.tiles@.subrange(0, i + 1).map_values(|t: Tile| tile_row(t)));
            }
            i = i + 1;
        }
        proof {
            assert(self.tiles@.subrange(0, self.tiles@.len() as int) =~= self.tiles@);
        }
        let mut vertices: Vec<VertexJson> = Vec::new();
        i = 0;
        while i < self.vertices.len()
            invariant
                0 <= i <= self.vertices@.len(),
                vertices@ == vertex_rows(self.vertices@.subrange(0, i as int)),
            decreases self.vertices@.len() - i,
        {
            let (v, b) = self.vertices[i];
            proof {
                assert(self.vertices@.subrange(0, i + 1).drop_last() =~= self.vertices@.subrange(0, i as int));
            }
            if b != VertexBuilding::Empty {
                vertices.push(VertexJson { hex_q: v.hex.q, hex_r: v.hex.r, direction: v.direction, building: b });
            }
            i = i + 1;
        }
        proof {
            assert(self.vertices@.subrange(0, self.vertices@.len() as int) =~= self.vertices@);
        }
        let mut edges: Vec<EdgeJson> = Vec::new();
        i = 0;
        while i < self.edges.len()
            invariant
                0 <= i <= self.edges@.len(),
                edges@ == edge_rows(self.edges@.subrange(0, i as int)),
            decreases self.edges@.len() - i,
        {
            let (e, b) = self.edges[i];
            proof {
                assert(self.edges@.subrange(0, i + 1).drop_last() =~= self.edges@.subrange(0, i as int));
            }
            if b != EdgeBuilding::Empty {
                edges.push(EdgeJson { hex_q: e.hex.q, hex_r: e.hex.r, direction: e.direction, building: b });
            }
            i = i + 1;
        }
        proof {
            assert(self.edges@.subrange(0, self.edges@.len() as int) =~= self.edges@);
        }
        let mut harbors: Vec<HarborPlacement> = Vec::new();
        i = 0;
        while i < self.harbors.len()
            invariant
                0 <= i <= self.harbors@.len(),
                harbors@ == self.harbors@.subrange(0, i as int),
            decreases self.harbors@.len() - i,
        {
            harbors.push(self.harbors[i]);
            proof {
                assert(harbors@ =~= self.harbors@.subrange(0, i + 1));
            }
            i = i + 1;
        }
        proof {
            assert(self.harbors@.subrange(0, self.harbors@.len() as int) =~= self.harbors@);
        }
        BoardJson {
            tiles,
            vertices,
            edges,
            harbors,
            robber_q: self.robber_location.q,
            robber_r: self.robber_location.r,
        }
    }
}

/// On a board whose land is the standard layout and where nothing is built yet, the
/// top corner of the centre hex is a legal setup spot for anyone.
pub proof fn lemma_empty_standard_board_has_spot(b: Board, p: PlayerId)
    requires
        b.wf(),
        forall|h: HexCoord| b.is_land_hex(h) <==> standard_land(h),
        b.vertices_view().len() == 0,
    ensures
        b.settlement_ok(VertexCoord { hex: HexCoord { q: 0, r: 0 }, direction: VertexDirection::North }, p, true),
{
    let c = HexCoord { q: 0, r: 0 };
    let v = VertexCoord { hex: c, direction: VertexDirection::North };
    assert(standard_land(c));
    assert(b.is_land_hex(c));
    let i = choose|i: int| 0 <= i < b.tiles_view().len() && b.tiles_view()[i].coord == c;
    assert(b.tile_of(c) == b.tiles_view()[i]) by {
        let j = choose|j: int| 0 <= j < b.tiles_view().len() && b.tiles_view()[j].coord == c;
        assert(i == j);
    }
    assert(hex_vertices_spec(c)[0] == v);
    assert(among6(hex_vertices_spec(b.tiles_view()[i].coord), v));
}

/// A list without duplicates that holds every item of another such list is at least
/// as long.
proof fn lemma_holds_distinct(s: Seq<EdgeCoord>, xs: Seq<EdgeCoord>)
    requires
        s.no_duplicates(),
        xs.no_duplicates(),
        forall|i: int| 0 <= i < xs.len() ==> s.contains(#[trigger] xs[i]),
    ensures
        s.len() >= xs.len(),
{
    s.unique_seq_to_set();
    xs.unique_seq_to_set();
    assert forall|x: EdgeCoord| xs.to_set().contains(x) implies s.to_set().contains(x) by {
        let i = choose|i: int| 0 <= i < xs.len() && xs[i] == x;
    }
    vstd::seq_lib::seq_to_set_is_finite(s);
    vstd::set_lib::lemma_len_subset(xs.to_set(), s.to_set());
}

impl Board {
    /// On a board whose land is the standard layout, the side of a land hex `h` toward a
    /// hex off the layout is coastal.
    proof fn lemma_coastal_at(self, h: HexCoord, d: crate::hex::EdgeDirection, k: int)
        requires
            self.wf(),
            forall|x: HexCoord| self.is_land_hex(x) <==> standard_land(x),
            standard_land(h),
            !standard_land(crate::hex::neighbor_spec(h, d)),
            0 <= k < 6,
            hex_edges_spec(h)[k] == crate::hex::edg(h, d),
        ensures
            self.coastal_edge(crate::hex::edg(h, d)),
    {
        assert(self.is_land_hex(h));
        let j = choose|j: int| 0 <= j < self.tiles_view().len() && self.tiles_view()[j].coord == h;
        assert(self.tile_of(h) == self.tiles_view()[j]) by {
            let j2 = choose|j2: int| 0 <= j2 < self.tiles_view().len() && self.tiles_view()[j2].coord == h;
            assert(j == j2);
        }
        assert(among6(hex_edges_spec(self.tiles_view()[j].coord), crate::hex::edg(h, d)));
        assert(!self.is_land_hex(crate::hex::neighbor_spec(h, d)));
    }

    /// The standard layout has at least nine coastal sides.
    proof fn lemma_nine_coastal(self, coastal: Seq<EdgeCoord>)
        requires
            self.wf(),
            forall|x: HexCoord| self.is_land_hex(x) <==> standard_land(x),
            coastal.no_duplicates(),
            forall|x: EdgeCoord| coastal.contains(x) <==> self.coastal_edge(x),
        ensures
            coastal.len() >= 9,
    {
        let e = crate::hex::EdgeDirection::East;
        let ne = crate::hex::EdgeDirection::NorthEast;
        let se = crate::hex::EdgeDirection::SouthEast;
        let xs = seq![
            crate::hex::edg(HexCoord { q: 2i32, r: 0i32 }, e),
            crate::hex::edg(HexCoord { q: 2i32, r: -1i32 }, e),
            crate::hex::edg(HexCoord { q: 2i32, r: -2i32 }, e),
            crate::hex::edg(HexCoord { q: 2i32, r: -2i32 }, ne),
            crate::hex::edg(HexCoord { q: 1i32, r: -2i32 }, ne),
            crate::hex::edg(HexCoord { q: 0i32, r: -2i32 }, ne),
            crate::hex::edg(HexCoord { q: 2i32, r: 0i32 }, se),
            crate::hex::edg(HexCoord { q: 1i32, r: 1i32 }, se),
            crate::hex::edg(HexCoord { q: 0i32, r: 2i32 }, se),
        ];
        self.lemma_coastal_at(HexCoord { q: 2i32, r: 0i32 }, e, 1);
        self.lemma_coastal_at(HexCoord { q: 2i32, r: -1i32 }, e, 1);
        self.lemma_coastal_at(HexCoord { q: 2i32, r: -2i32 }, e, 1);
        self.lemma_coastal_at(HexCoord { q: 2i32, r: -2i32 }, ne, 0);
        self.lemma_coastal_at(HexCoord { q: 1i32, r: -2i32 }, ne, 0);
        self.lemma_coastal_at(HexCoord { q: 0i32, r: -2i32 }, ne, 0);
        self.lemma_coastal_at(HexCoord { q: 2i32, r: 0i32 }, se, 2);
        self.lemma_coastal_at(HexCoord { q: 1i32, r: 1i32 }, se, 2);
        self.lemma_coastal_at(HexCoord { q: 0i32, r: 2i32 }, se, 2);
        assert forall|i: int| 0 <= i < xs.len() implies coastal.contains(#[trigger] xs[i]) by {
        }
        lemma_holds_distinct(coastal, xs);
    }
}

} // verus!
