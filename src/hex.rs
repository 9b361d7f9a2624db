//! Axial hex coordinates, and the vertex and edge coordinates derived from them.
//!
//! A vertex is named by a hex and one of its two poles (North or South); an edge by a
//! hex and one of its six sides. Geometry is done on exact integer positions: with a
//! pointy-top layout of unit size, a hex centre sits at `(2q + r, 3r)` when x is
//! counted in halves of `sqrt(3)` and y in halves of the unit.
use vstd::prelude::*;

verus! {

/// Largest magnitude of a coordinate that the geometric operations accept, so that a
/// few neighbour steps still fit in an `i32`.
pub const COORD_LIMIT: i32 = 0x2000_0000;

/// Direction of a vertex relative to a hex: its top or its bottom corner.
#[derive(Debug, Clone, Copy, PartialEq, Eq, Structural, Hash)]
pub enum VertexDirection {
    North,
    South,
}

/// Direction of an edge relative to a hex.
#[derive(Debug, Clone, Copy, PartialEq, Eq, Structural, Hash)]
pub enum EdgeDirection {
    NorthEast,
    East,
    SouthEast,
    SouthWest,
    West,
    NorthWest,
}

/// Axial coordinate of a hex tile; the implicit third coordinate is `s = -q - r`.
#[derive(Debug, Clone, Copy, PartialEq, Eq, Structural, Hash, Default)]
pub struct HexCoord {
    pub q: i32,
    pub r: i32,
}

/// A corner of a hex, named by the hex and its pole.
#[derive(Debug, Clone, Copy, PartialEq, Eq, Structural, Hash)]
pub struct VertexCoord {
    pub hex: HexCoord,
    pub direction: VertexDirection,
}

/// A side of a hex, named by the hex and the side's direction.
#[derive(Debug, Clone, Copy, PartialEq, Eq, Structural, Hash)]
pub struct EdgeCoord {
    pub hex: HexCoord,
    pub direction: EdgeDirection,
}

// ==================== Mathematical model ====================

pub open spec fn vdir_ord(d: VertexDirection) -> int {
    match d {
        VertexDirection::North => 0,
        VertexDirection::South => 1,
    }
}

/// The side on the other hex that names the same edge.
pub open spec fn opposite_spec(d: EdgeDirection) -> EdgeDirection {
    match d {
        EdgeDirection::NorthEast => EdgeDirection::SouthWest,
        EdgeDirection::East => EdgeDirection::West,
        EdgeDirection::SouthEast => EdgeDirection::NorthWest,
        EdgeDirection::SouthWest => EdgeDirection::NorthEast,
        EdgeDirection::West => EdgeDirection::East,
        EdgeDirection::NorthWest => EdgeDirection::SouthEast,
    }
}

pub open spec fn dq(d: EdgeDirection) -> int {
    match d {
        EdgeDirection::NorthEast => 1,
        EdgeDirection::East => 1,
        EdgeDirection::SouthEast => 0,
        EdgeDirection::SouthWest => -1,
        EdgeDirection::West => -1,
        EdgeDirection::NorthWest => 0,
    }
}

pub open spec fn dr(d: EdgeDirection) -> int {
    match d {
        EdgeDirection::NorthEast => -1,
        EdgeDirection::East => 0,
        EdgeDirection::SouthEast => 1,
        EdgeDirection::SouthWest => 1,
        EdgeDirection::West => 0,
        EdgeDirection::NorthWest => -1,
    }
}

/// The hex at offset `(a, b)` from `h`.
pub open spec fn offset(h: HexCoord, a: int, b: int) -> HexCoord {
    HexCoord { q: (h.q + a) as i32, r: (h.r + b) as i32 }
}

pub open spec fn neighbor_spec(h: HexCoord, d: EdgeDirection) -> HexCoord {
    offset(h, dq(d), dr(d))
}

pub open spec fn vtx(h: HexCoord, d: VertexDirection) -> VertexCoord {
    VertexCoord { hex: h, direction: d }
}

pub open spec fn edg(h: HexCoord, d: EdgeDirection) -> EdgeCoord {
    EdgeCoord { hex: h, direction: d }
}

/// `(q, r)` of `a` sorts lexicographically at or before that of `b`.
pub open spec fn hex_le(a: HexCoord, b: HexCoord) -> bool {
    a.q < b.q || (a.q == b.q && a.r <= b.r)
}

/// The pixel position of a pole, in exact integer units.
pub open spec fn pole_x(v: VertexCoord) -> int {
    2 * v.hex.q + v.hex.r
}

pub open spec fn pole_y(v: VertexCoord) -> int {
    match v.direction {
        VertexDirection::North => 3 * v.hex.r - 2,
        VertexDirection::South => 3 * v.hex.r + 2,
    }
}

/// Two vertex descriptions name the same physical corner.
pub open spec fn same_corner(a: VertexCoord, b: VertexCoord) -> bool {
    pole_x(a) == pole_x(b) && pole_y(a) == pole_y(b)
}

/// `a` sorts strictly before `b` by `(q, r, polarity)`.
pub open spec fn vertex_lt(a: VertexCoord, b: VertexCoord) -> bool {
    a.hex.q < b.hex.q || (a.hex.q == b.hex.q && (a.hex.r < b.hex.r || (a.hex.r == b.hex.r
        && vdir_ord(a.direction) < vdir_ord(b.direction))))
}

/// One step of the canonical choice: keep `best` unless `cand` names the same corner as
/// `v` and sorts before it.
pub open spec fn consider(v: VertexCoord, best: VertexCoord, cand: VertexCoord) -> VertexCoord {
    if same_corner(cand, v) && vertex_lt(cand, best) {
        cand
    } else {
        best
    }
}

/// The hexes that meet at a vertex.
pub open spec fn vertex_hexes(v: VertexCoord) -> Seq<HexCoord> {
    match v.direction {
        VertexDirection::North => seq![
            v.hex,
            neighbor_spec(v.hex, EdgeDirection::NorthWest),
            neighbor_spec(v.hex, EdgeDirection::NorthEast),
        ],
        VertexDirection::South => seq![
            v.hex,
            neighbor_spec(v.hex, EdgeDirection::SouthWest),
            neighbor_spec(v.hex, EdgeDirection::SouthEast),
        ],
    }
}

/// The canonical vertex: the description that sorts first by `(q, r, polarity)` among
/// the poles of the hexes meeting at `v` that lie at `v`'s position.
pub open spec fn canonical_vertex(v: VertexCoord) -> VertexCoord {
    let hs = vertex_hexes(v);
    let b0 = consider(v, v, vtx(hs[0], VertexDirection::North));
    let b1 = consider(v, b0, vtx(hs[0], VertexDirection::South));
    let b2 = consider(v, b1, vtx(hs[1], VertexDirection::North));
    let b3 = consider(v, b2, vtx(hs[1], VertexDirection::South));
    let b4 = consider(v, b3, vtx(hs[2], VertexDirection::North));
    consider(v, b4, vtx(hs[2], VertexDirection::South))
}

/// The canonical edge: of the two descriptions of a side, the one on the hex whose
/// `(q, r)` sorts first.
pub open spec fn canonical_edge(e: EdgeCoord) -> EdgeCoord {
    let other = neighbor_spec(e.hex, e.direction);
    if hex_le(e.hex, other) {
        e
    } else {
        edg(other, opposite_spec(e.direction))
    }
}

pub open spec fn abs_int(x: int) -> int {
    if x < 0 {
        -x
    } else {
        x
    }
}

pub open spec fn distance_spec(a: HexCoord, b: HexCoord) -> int {
    (abs_int(a.q - b.q) + abs_int(a.r - b.r) + abs_int((-a.q - a.r) - (-b.q - b.r))) / 2
}

pub open spec fn neighbors_spec(h: HexCoord) -> Seq<HexCoord> {
    seq![
        offset(h, 1, 0),
        offset(h, 1, -1),
        offset(h, 0, -1),
        offset(h, -1, 0),
        offset(h, -1, 1),
        offset(h, 0, 1),
    ]
}

/// The six corners of a hex, clockwise from the top.
pub open spec fn hex_vertices_spec(h: HexCoord) -> Seq<VertexCoord> {
    seq![
        vtx(h, VertexDirection::North),
        vtx(offset(h, 1, -1), VertexDirection::South),
        vtx(offset(h, 0, 1), VertexDirection::North),
        vtx(h, VertexDirection::South),
        vtx(offset(h, -1, 1), VertexDirection::North),
        vtx(offset(h, 0, -1), VertexDirection::South),
    ]
}

/// The six sides of a hex, clockwise from NorthEast, each canonical.
pub open spec fn hex_edges_spec(h: HexCoord) -> Seq<EdgeCoord> {
    seq![
        canonical_edge(edg(h, EdgeDirection::NorthEast)),
        canonical_edge(edg(h, EdgeDirection::East)),
        canonical_edge(edg(h, EdgeDirection::SouthEast)),
        canonical_edge(edg(h, EdgeDirection::SouthWest)),
        canonical_edge(edg(h, EdgeDirection::West)),
        canonical_edge(edg(h, EdgeDirection::NorthWest)),
    ]
}

/// The three sides that meet at a vertex, each canonical.
pub open spec fn vertex_edges_spec(v: VertexCoord) -> Seq<EdgeCoord> {
    match v.direction {
        VertexDirection::North => seq![
            canonical_edge(edg(v.hex, EdgeDirection::NorthWest)),
            canonical_edge(edg(v.hex, EdgeDirection::NorthEast)),
            canonical_edge(edg(offset(v.hex, 0, -1), EdgeDirection::East)),
        ],
        VertexDirection::South => seq![
            canonical_edge(edg(v.hex, EdgeDirection::SouthWest)),
            canonical_edge(edg(v.hex, EdgeDirection::SouthEast)),
            canonical_edge(edg(offset(v.hex, -1, 1), EdgeDirection::East)),
        ],
    }
}

/// The two corners at the ends of a side.
pub open spec fn endpoints_spec(e: EdgeCoord) -> Seq<VertexCoord> {
    let h = e.hex;
    match e.direction {
        EdgeDirection::NorthEast => seq![
            vtx(h, VertexDirection::North),
            vtx(offset(h, 1, -1), VertexDirection::South),
        ],
        EdgeDirection::East => seq![
            vtx(offset(h, 1, -1), VertexDirection::South),
            vtx(offset(h, 0, 1), VertexDirection::North),
        ],
        EdgeDirection::SouthEast => seq![
            vtx(offset(h, 0, 1), VertexDirection::North),
            vtx(h, VertexDirection::South),
        ],
        EdgeDirection::SouthWest => seq![
            vtx(h, VertexDirection::South),
            vtx(offset(h, -1, 1), VertexDirection::North),
        ],
        EdgeDirection::West => seq![
            vtx(offset(h, -1, 1), VertexDirection::North),
            vtx(offset(h, 0, -1), VertexDirection::South),
        ],
        EdgeDirection::NorthWest => seq![
            vtx(offset(h, 0, -1), VertexDirection::South),
            vtx(h, VertexDirection::North),
        ],
    }
}

/// The other endpoint of `e`, seen from `v`.
pub open spec fn far_end(e: EdgeCoord, v: VertexCoord) -> VertexCoord {
    let ends = endpoints_spec(e);
    if ends[0] == v {
        ends[1]
    } else {
        ends[0]
    }
}

/// The three corners one side away from a vertex.
pub open spec fn adjacent_vertices_spec(v: VertexCoord) -> Seq<VertexCoord> {
    let es = vertex_edges_spec(v);
    seq![far_end(es[0], v), far_end(es[1], v), far_end(es[2], v)]
}

impl HexCoord {
    /// Both coordinates have magnitude at most `m`.
    pub open spec fn within(self, m: int) -> bool {
        -m <= self.q <= m && -m <= self.r <= m
    }

    /// Small enough for the operations on a hex and its neighbours.
    pub open spec fn fits(self) -> bool {
        self.within(COORD_LIMIT + 16)
    }

    pub fn new(q: i32, r: i32) -> (h: HexCoord)
        ensures
            h.q == q,
            h.r == r,
    {
        HexCoord { q, r }
    }

    /// The implicit third cube coordinate.
    pub fn s(&self) -> (s: i32)
        requires
            self.fits(),
        ensures
            s == -self.q - self.r,
    {
        -self.q - self.r
    }

    /// The six neighbouring hexes, clockwise from East.
    pub fn neighbors(&self) -> (ns: [HexCoord; 6])
        requires
            self.fits(),
        ensures
            ns@ == neighbors_spec(*self),
    {
        let ns = [
            HexCoord::new(self.q + 1, self.r),
            HexCoord::new(self.q + 1, self.r - 1),
            HexCoord::new(self.q, self.r - 1),
            HexCoord::new(self.q - 1, self.r),
            HexCoord::new(self.q - 1, self.r + 1),
            HexCoord::new(self.q, self.r + 1),
        ];
        assert(ns@ =~= neighbors_spec(*self));
        ns
    }

    /// The neighbour across the side in `direction`.
    pub fn neighbor(&self, direction: EdgeDirection) -> (n: HexCoord)
        requires
            self.fits(),
        ensures
            n == neighbor_spec(*self, direction),
    {
        match direction {
            EdgeDirection::East => HexCoord::new(self.q + 1, self.r),
            EdgeDirection::NorthEast => HexCoord::new(self.q + 1, self.r - 1),
            EdgeDirection::NorthWest => HexCoord::new(self.q, self.r - 1),
            EdgeDirection::West => HexCoord::new(self.q - 1, self.r),
            EdgeDirection::SouthWest => HexCoord::new(self.q - 1, self.r + 1),
            EdgeDirection::SouthEast => HexCoord::new(self.q, self.r + 1),
        }
    }

    /// Number of hex steps to `other`, by the cube-coordinate norm.
    pub fn distance_to(&self, other: &HexCoord) -> (d: u32)
        requires
            self.fits(),
            other.fits(),
        ensures
            d == distance_spec(*self, *other),
    {
        let dq = abs_i64(self.q as i64 - other.q as i64);
        let dr = abs_i64(self.r as i64 - other.r as i64);
        let ds = abs_i64((-(self.q as i64) - self.r as i64) - (-(other.q as i64) - other.r as i64));
        assert(0 <= (dq + dr + ds) / 2 <= u32::MAX);
        ((dq + dr + ds) / 2) as u32
    }

    /// The six corners, clockwise from the top.
    pub fn vertices(&self) -> (vs: [VertexCoord; 6])
        requires
            self.within(COORD_LIMIT + 4),
        ensures
            vs@ == hex_vertices_spec(*self),
    {
        let vs = [
            VertexCoord::new(*self, VertexDirection::North),
            VertexCoord::new(self.neighbor(EdgeDirection::NorthEast), VertexDirection::South),
            VertexCoord::new(self.neighbor(EdgeDirection::SouthEast), VertexDirection::North),
            VertexCoord::new(*self, VertexDirection::South),
            VertexCoord::new(self.neighbor(EdgeDirection::SouthWest), VertexDirection::North),
            VertexCoord::new(self.neighbor(EdgeDirection::NorthWest), VertexDirection::South),
        ];
        assert(vs@ =~= hex_vertices_spec(*self));
        vs
    }

    /// The six sides, clockwise from NorthEast, each canonical.
    pub fn edges(&self) -> (es: [EdgeCoord; 6])
        requires
            self.within(COORD_LIMIT + 4),
        ensures
            es@ == hex_edges_spec(*self),
    {
        let es = [
            EdgeCoord::new(*self, EdgeDirection::NorthEast),
            EdgeCoord::new(*self, EdgeDirection::East),
            EdgeCoord::new(*self, EdgeDirection::SouthEast),
            EdgeCoord::new(*self, EdgeDirection::SouthWest),
            EdgeCoord::new(*self, EdgeDirection::West),
            EdgeCoord::new(*self, EdgeDirection::NorthWest),
        ];
        assert(es@ =~= hex_edges_spec(*self));
        es
    }
}

fn abs_i64(x: i64) -> (r: i64)
    requires
        x > i64::MIN,
    ensures
        r == abs_int(x as int),
{
    if x < 0 {
        -x
    } else {
        x
    }
}

impl EdgeDirection {
    /// All six directions, clockwise from NorthEast.
    pub fn all() -> (ds: [EdgeDirection; 6])
        ensures
            ds@ == seq![
                EdgeDirection::NorthEast,
                EdgeDirection::East,
                EdgeDirection::SouthEast,
                EdgeDirection::SouthWest,
                EdgeDirection::West,
                EdgeDirection::NorthWest,
            ],
    {
        let ds = [
            EdgeDirection::NorthEast,
            EdgeDirection::East,
            EdgeDirection::SouthEast,
            EdgeDirection::SouthWest,
            EdgeDirection::West,
            EdgeDirection::NorthWest,
        ];
        assert(ds@ =~= seq![
            EdgeDirection::NorthEast,
            EdgeDirection::East,
            EdgeDirection::SouthEast,
            EdgeDirection::SouthWest,
            EdgeDirection::West,
            EdgeDirection::NorthWest,
        ]);
        ds
    }

    /// The direction of the same side seen from the neighbouring hex.
    pub fn opposite(self) -> (o: EdgeDirection)
        ensures
            o == opposite_spec(self),
    {
        match self {
            EdgeDirection::NorthEast => EdgeDirection::SouthWest,
            EdgeDirection::East => EdgeDirection::West,
            EdgeDirection::SouthEast => EdgeDirection::NorthWest,
            EdgeDirection::SouthWest => EdgeDirection::NorthEast,
            EdgeDirection::West => EdgeDirection::East,
            EdgeDirection::NorthWest => EdgeDirection::SouthEast,
        }
    }
}

/// Every physical corner has exactly one name: two descriptions that lie at the same
/// position are the same description.
pub proof fn lemma_corner_has_one_name(a: VertexCoord, b: VertexCoord)
    requires
        same_corner(a, b),
    ensures
        a == b,
{
}

/// Canonicalising a vertex keeps it as it is, since its own pole is the only candidate
/// at its position.
pub proof fn lemma_canonical_vertex_identity(v: VertexCoord)
    requires
        v.fits(),
    ensures
        canonical_vertex(v) == v,
{
}

/// Canonicalising a vertex twice gives what canonicalising it once gives.
pub proof fn lemma_canonical_vertex_idempotent(h: HexCoord, d: VertexDirection)
    requires
        h.within(COORD_LIMIT + 8),
    ensures
        canonical_vertex(canonical_vertex(vtx(h, d))) == canonical_vertex(vtx(h, d)),
{
    lemma_canonical_vertex_identity(vtx(h, d));
}

/// A side described from either of its two hexes canonicalises to one value.
pub proof fn lemma_edge_identity_symmetric(h: HexCoord, d: EdgeDirection)
    requires
        h.fits(),
    ensures
        canonical_edge(edg(h, d)) == canonical_edge(
            edg(neighbor_spec(h, d), opposite_spec(d)),
        ),
{
}

/// Canonicalising an edge twice gives what canonicalising it once gives.
pub proof fn lemma_canonical_edge_idempotent(e: EdgeCoord)
    requires
        e.fits(),
    ensures
        canonical_edge(canonical_edge(e)) == canonical_edge(e),
{
}

/// The candidate edges around `e`: the sides meeting at either of its endpoints.
pub open spec fn edges_at_ends(e: EdgeCoord) -> Seq<EdgeCoord> {
    let ends = endpoints_spec(e);
    vertex_edges_spec(ends[0]) + vertex_edges_spec(ends[1])
}

/// Pole position of `v`, computed exactly.
fn pole(v: VertexCoord) -> (p: (i64, i64))
    ensures
        p.0 == pole_x(v),
        p.1 == pole_y(v),
{
    let x = 2 * (v.hex.q as i64) + v.hex.r as i64;
    let y = match v.direction {
        VertexDirection::North => 3 * (v.hex.r as i64) - 2,
        VertexDirection::South => 3 * (v.hex.r as i64) + 2,
    };
    (x, y)
}

fn vertex_before(a: VertexCoord, b: VertexCoord) -> (r: bool)
    ensures
        r == vertex_lt(a, b),
{
    let oa: u8 = match a.direction {
        VertexDirection::North => 0,
        VertexDirection::South => 1,
    };
    let ob: u8 = match b.direction {
        VertexDirection::North => 0,
        VertexDirection::South => 1,
    };
    a.hex.q < b.hex.q || (a.hex.q == b.hex.q && (a.hex.r < b.hex.r || (a.hex.r == b.hex.r
        && oa < ob)))
}

fn consider_exec(v: VertexCoord, best: VertexCoord, cand: VertexCoord) -> (r: VertexCoord)
    ensures
        r == consider(v, best, cand),
{
    let pc = pole(cand);
    let pv = pole(v);
    if pc.0 == pv.0 && pc.1 == pv.1 && vertex_before(cand, best) {
        cand
    } else {
        best
    }
}

impl VertexCoord {
    /// Small enough for the operations on a vertex and its hexes.
    pub open spec fn fits(self) -> bool {
        self.hex.within(COORD_LIMIT + 8)
    }

    /// A vertex of `hex`, in canonical form.
    pub fn new(hex: HexCoord, direction: VertexDirection) -> (v: VertexCoord)
        requires
            hex.within(COORD_LIMIT + 8),
        ensures
            v == canonical_vertex(vtx(hex, direction)),
            v == vtx(hex, direction),
    {
        VertexCoord { hex, direction }.canonical()
    }

    /// The canonical description of this corner: among the poles of the three hexes
    /// meeting here that lie at this corner's position, the one that sorts first by
    /// `(q, r, polarity)`.
    pub fn canonical(self) -> (c: VertexCoord)
        requires
            self.fits(),
        ensures
            c == canonical_vertex(self),
            c == self,
    {
        let hs = self.touching_hexes();
        let mut best = self;
        best = consider_exec(self, best, VertexCoord { hex: hs[0], direction: VertexDirection::North });
        best = consider_exec(self, best, VertexCoord { hex: hs[0], direction: VertexDirection::South });
        best = consider_exec(self, best, VertexCoord { hex: hs[1], direction: VertexDirection::North });
        best = consider_exec(self, best, VertexCoord { hex: hs[1], direction: VertexDirection::South });
        best = consider_exec(self, best, VertexCoord { hex: hs[2], direction: VertexDirection::North });
        best = consider_exec(self, best, VertexCoord { hex: hs[2], direction: VertexDirection::South });
        proof {
            lemma_canonical_vertex_identity(self);
        }
        best
    }

    /// The three hexes that meet at this corner.
    pub fn touching_hexes(&self) -> (hs: [HexCoord; 3])
        requires
            self.fits(),
        ensures
            hs@ == vertex_hexes(*self),
    {
        let hs = match self.direction {
            VertexDirection::North => [
                self.hex,
                self.hex.neighbor(EdgeDirection::NorthWest),
                self.hex.neighbor(EdgeDirection::NorthEast),
            ],
            VertexDirection::South => [
                self.hex,
                self.hex.neighbor(EdgeDirection::SouthWest),
                self.hex.neighbor(EdgeDirection::SouthEast),
            ],
        };
        assert(hs@ =~= vertex_hexes(*self));
        hs
    }

    /// The three sides that meet at this corner, each canonical.
    pub fn touching_edges(&self) -> (es: [EdgeCoord; 3])
        requires
            self.hex.within(COORD_LIMIT + 4),
        ensures
            es@ == vertex_edges_spec(*self),
    {
        let es = match self.direction {
            VertexDirection::North => [
                EdgeCoord::new(self.hex, EdgeDirection::NorthWest),
                EdgeCoord::new(self.hex, EdgeDirection::NorthEast),
                EdgeCoord::new(self.hex.neighbor(EdgeDirection::NorthWest), EdgeDirection::East),
            ],
            VertexDirection::South => [
                EdgeCoord::new(self.hex, EdgeDirection::SouthWest),
                EdgeCoord::new(self.hex, EdgeDirection::SouthEast),
                EdgeCoord::new(self.hex.neighbor(EdgeDirection::SouthWest), EdgeDirection::East),
            ],
        };
        assert(es@ =~= vertex_edges_spec(*self));
        es
    }

    /// The three corners one side away (used by the distance rule).
    pub fn adjacent_vertices(&self) -> (vs: [VertexCoord; 3])
        requires
            self.hex.within(COORD_LIMIT as int),
        ensures
            vs@ == adjacent_vertices_spec(*self),
    {
        let es = self.touching_edges();
        let e0 = es[0].endpoints();
        let e1 = es[1].endpoints();
        let e2 = es[2].endpoints();
        let a0 = if e0[0] == *self { e0[1] } else { e0[0] };
        let a1 = if e1[0] == *self { e1[1] } else { e1[0] };
        let a2 = if e2[0] == *self { e2[1] } else { e2[0] };
        let vs = [a0, a1, a2];
        assert(vs@ =~= adjacent_vertices_spec(*self));
        vs
    }
}

impl EdgeCoord {
    /// Small enough for the operations on an edge and its hexes.
    pub open spec fn fits(self) -> bool {
        self.hex.within(COORD_LIMIT + 8)
    }

    /// A side of `hex`, in canonical form.
    pub fn new(hex: HexCoord, direction: EdgeDirection) -> (e: EdgeCoord)
        requires
            hex.within(COORD_LIMIT + 8),
        ensures
            e == canonical_edge(edg(hex, direction)),
    {
        EdgeCoord { hex, direction }.canonical()
    }

    /// The canonical description of this side: the one anchored on the hex whose
    /// `(q, r)` sorts first.
    pub fn canonical(self) -> (c: EdgeCoord)
        requires
            self.fits(),
        ensures
            c == canonical_edge(self),
    {
        let other = self.hex.neighbor(self.direction);
        if self.hex.q < other.q || (self.hex.q == other.q && self.hex.r <= other.r) {
            self
        } else {
            EdgeCoord { hex: other, direction: self.direction.opposite() }
        }
    }

    /// The two hexes that share this side.
    pub fn touching_hexes(&self) -> (hs: [HexCoord; 2])
        requires
            self.fits(),
        ensures
            hs@ == seq![self.hex, neighbor_spec(self.hex, self.direction)],
    {
        let hs = [self.hex, self.hex.neighbor(self.direction)];
        assert(hs@ =~= seq![self.hex, neighbor_spec(self.hex, self.direction)]);
        hs
    }

    /// The two corners at the ends of this side.
    pub fn endpoints(&self) -> (vs: [VertexCoord; 2])
        requires
            self.hex.within(COORD_LIMIT + 4),
        ensures
            vs@ == endpoints_spec(*self),
    {
        let h = self.hex;
        let vs = match self.direction {
            EdgeDirection::NorthEast => [
                VertexCoord::new(h, VertexDirection::North),
                VertexCoord::new(h.neighbor(EdgeDirection::NorthEast), VertexDirection::South),
            ],
            EdgeDirection::East => [
                VertexCoord::new(h.neighbor(EdgeDirection::NorthEast), VertexDirection::South),
                VertexCoord::new(h.neighbor(EdgeDirection::SouthEast), VertexDirection::North),
            ],
            EdgeDirection::SouthEast => [
                VertexCoord::new(h.neighbor(EdgeDirection::SouthEast), VertexDirection::North),
                VertexCoord::new(h, VertexDirection::South),
            ],
            EdgeDirection::SouthWest => [
                VertexCoord::new(h, VertexDirection::South),
                VertexCoord::new(h.neighbor(EdgeDirection::SouthWest), VertexDirection::North),
            ],
            EdgeDirection::West => [
                VertexCoord::new(h.neighbor(EdgeDirection::SouthWest), VertexDirection::North),
                VertexCoord::new(h.neighbor(EdgeDirection::NorthWest), VertexDirection::South),
            ],
            EdgeDirection::NorthWest => [
                VertexCoord::new(h.neighbor(EdgeDirection::NorthWest), VertexDirection::South),
                VertexCoord::new(h, VertexDirection::North),
            ],
        };
        assert(vs@ =~= endpoints_spec(*self));
        vs
    }

    /// The sides that share an endpoint with this one, each listed once.
    pub fn adjacent_edges(&self) -> (es: Vec<EdgeCoord>)
        requires
            self.hex.within(COORD_LIMIT as int),
        ensures
            es@.no_duplicates(),
            forall|x: EdgeCoord|
                es@.contains(x) <==> (x != *self && edges_at_ends(*self).contains(x)),
    {
        let ends = self.endpoints();
        let t0 = ends[0].touching_edges();
        let t1 = ends[1].touching_edges();
        let cands = [t0[0], t0[1], t0[2], t1[0], t1[1], t1[2]];
        assert(cands@ =~= edges_at_ends(*self));
        let mut out: Vec<EdgeCoord> = Vec::new();
        let mut i: usize = 0;
        while i < 6
            invariant
                0 <= i <= 6,
                cands@ == edges_at_ends(*self),
                out@.no_duplicates(),
                forall|x: EdgeCoord|
                    out@.contains(x) <==> (x != *self && cands@.subrange(0, i as int).contains(x)),
            decreases 6 - i,
        {
            let c = cands[i];
            let ghost prev = out@;
            if c != *self && !contains_edge(&out, c) {
                out.push(c);
            }
            proof {
                let pre = cands@.subrange(0, i as int);
                assert(cands@.subrange(0, i + 1) =~= pre.push(c));
                assert forall|x: EdgeCoord|
                    out@.contains(x) <==> (x != *self && cands@.subrange(0, i + 1).contains(x)) by {
                    lemma_push_contains(pre, c, x);
                    lemma_push_contains(prev, c, x);
                }
            }
            i = i + 1;
        }
        assert(cands@.subrange(0, 6) =~= cands@);
        out
    }
}

/// `s.push(c)` holds exactly what `s` holds, and `c`.
pub proof fn lemma_push_contains<T>(s: Seq<T>, c: T, x: T)
    ensures
        s.push(c).contains(x) <==> (s.contains(x) || x == c),
{
    if s.contains(x) {
        let j = choose|j: int| 0 <= j < s.len() && s[j] == x;
        assert(s.push(c)[j] == x);
    }
    if x == c {
        assert(s.push(c)[s.len() as int] == c);
    }
    if s.push(c).contains(x) {
        let j = choose|j: int| 0 <= j < s.len() + 1 && s.push(c)[j] == x;
        if j < s.len() {
            assert(s[j] == x);
        }
    }
}

/// Whether `e` occurs in `v`.
pub fn contains_edge(v: &Vec<EdgeCoord>, e: EdgeCoord) -> (r: bool)
    ensures
        r == v@.contains(e),
{
    let mut i: usize = 0;
    while i < v.len()
        invariant
            0 <= i <= v@.len(),
            forall|j: int| 0 <= j < i ==> v@[j] != e,
        decreases v@.len() - i,
    {
        if v[i] == e {
            return true;
        }
        i = i + 1;
    }
    false
}

/// Whether `x` occurs in `v`.
pub fn contains_vertex(v: &Vec<VertexCoord>, x: VertexCoord) -> (r: bool)
    ensures
        r == v@.contains(x),
{
    let mut i: usize = 0;
    while i < v.len()
        invariant
            0 <= i <= v@.len(),
            forall|j: int| 0 <= j < i ==> v@[j] != x,
        decreases v@.len() - i,
    {
        if v[i] == x {
            return true;
        }
        i = i + 1;
    }
    false
}

} // verus!
