use catan_core::{EdgeCoord, EdgeDirection, HexCoord, VertexCoord, VertexDirection};
use std::collections::HashSet;

#[test]
fn test_hex_neighbors() {
    let center = HexCoord::new(0, 0);
    let neighbors = center.neighbors();

    let unique: HashSet<_> = neighbors.iter().collect();
    assert_eq!(unique.len(), 6);

    for neighbor in &neighbors {
        assert_eq!(center.distance_to(neighbor), 1);
    }
}

#[test]
fn test_hex_distance() {
    let a = HexCoord::new(0, 0);
    let b = HexCoord::new(2, -1);
    assert_eq!(a.distance_to(&b), 2);

    let c = HexCoord::new(-3, 3);
    assert_eq!(a.distance_to(&c), 3);
}

#[test]
fn test_vertex_canonical_equality() {
    let v1 = VertexCoord::new(HexCoord::new(0, 0), VertexDirection::North);
    let _v2 = VertexCoord::new(HexCoord::new(0, -1), VertexDirection::South);

    let v1_canon = v1.canonical();
    let v1_canon2 = v1_canon.canonical();
    assert_eq!(v1_canon, v1_canon2, "Canonicalization should be idempotent");
}

#[test]
fn test_vertex_touching_hexes() {
    let v = VertexCoord::new(HexCoord::new(0, 0), VertexDirection::North);
    let hexes = v.touching_hexes();

    let unique: HashSet<_> = hexes.iter().collect();
    assert_eq!(unique.len(), 3);
}

#[test]
fn test_vertex_adjacent_vertices() {
    let v = VertexCoord::new(HexCoord::new(0, 0), VertexDirection::North);
    let adjacent = v.adjacent_vertices();

    assert_eq!(adjacent.len(), 3);

    for adj in &adjacent {
        assert_ne!(*adj, v);
    }
}

#[test]
fn test_edge_canonical_equality() {
    let e1 = EdgeCoord::new(HexCoord::new(0, 0), EdgeDirection::East);
    let e2 = EdgeCoord::new(HexCoord::new(1, 0), EdgeDirection::West);

    assert_eq!(e1, e2, "Same edge from different hexes should be equal");
}

#[test]
fn test_edge_endpoints() {
    let e = EdgeCoord::new(HexCoord::new(0, 0), EdgeDirection::NorthEast);
    let endpoints = e.endpoints();

    assert_ne!(endpoints[0], endpoints[1]);
}

#[test]
fn test_edge_adjacent_edges() {
    let e = EdgeCoord::new(HexCoord::new(0, 0), EdgeDirection::East);
    let adjacent = e.adjacent_edges();

    assert_eq!(adjacent.len(), 4);

    for adj in &adjacent {
        assert_ne!(*adj, e);
    }
}

#[test]
fn test_hex_vertices_count() {
    let hex = HexCoord::new(0, 0);
    let vertices = hex.vertices();

    assert_eq!(vertices.len(), 6);
}

#[test]
fn test_hex_edges_count() {
    let hex = HexCoord::new(0, 0);
    let edges = hex.edges();

    assert_eq!(edges.len(), 6);

    let unique: HashSet<_> = edges.iter().collect();
    assert_eq!(unique.len(), 6);
}

#[test]
fn test_vertex_edges_connection() {
    let v = VertexCoord::new(HexCoord::new(0, 0), VertexDirection::North);
    for edge in v.touching_edges() {
        let endpoints = edge.endpoints();
        assert!(
            endpoints.contains(&v),
            "Edge should have vertex as endpoint"
        );
    }
}

#[test]
fn canonicalising_a_vertex_twice_changes_nothing() {
    for q in -3..=3 {
        for r in -3..=3 {
            for d in [VertexDirection::North, VertexDirection::South] {
                let raw = VertexCoord { hex: HexCoord::new(q, r), direction: d };
                let once = raw.canonical();
                assert_eq!(once.canonical(), once);
                assert_eq!(once, raw);
            }
        }
    }
}

#[test]
fn an_edge_named_from_either_side_is_one_edge() {
    for q in -3..=3 {
        for r in -3..=3 {
            let h = HexCoord::new(q, r);
            for d in EdgeDirection::all() {
                let here = EdgeCoord::new(h, d);
                let there = EdgeCoord::new(h.neighbor(d), d.opposite());
                assert_eq!(here, there);
            }
        }
    }
}

#[test]
fn west_edge_is_stored_on_the_western_hex() {
    let e = EdgeCoord::new(HexCoord::new(1, 0), EdgeDirection::West);
    assert_eq!(e.hex, HexCoord::new(0, 0));
    assert_eq!(e.direction, EdgeDirection::East);
    let raw = EdgeCoord { hex: HexCoord::new(2, 2), direction: EdgeDirection::NorthWest };
    assert_eq!(raw.canonical(), EdgeCoord { hex: HexCoord::new(2, 1), direction: EdgeDirection::SouthEast });
}

#[test]
fn north_corner_neighbours() {
    let v = VertexCoord::new(HexCoord::new(0, 0), VertexDirection::North);
    let adj: HashSet<_> = v.adjacent_vertices().into_iter().collect();
    let expected: HashSet<_> = [
        VertexCoord::new(HexCoord::new(0, -1), VertexDirection::South),
        VertexCoord::new(HexCoord::new(1, -1), VertexDirection::South),
        VertexCoord::new(HexCoord::new(1, -2), VertexDirection::South),
    ]
    .into_iter()
    .collect();
    assert_eq!(adj, expected);
}

#[test]
fn distance_and_third_coordinate() {
    let h = HexCoord::new(2, -5);
    assert_eq!(h.s(), 3);
    assert_eq!(HexCoord::new(-2, 1).distance_to(&HexCoord::new(3, -1)), 5);
    assert_eq!(h.neighbor(EdgeDirection::SouthWest), HexCoord::new(1, -4));
}
