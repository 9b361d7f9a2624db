use catan_core::{
    Board, EdgeBuilding, Harbor, HexCoord, Resource, Tile, TileType, VertexBuilding, VertexCoord,
    VertexDirection,
};
use std::collections::HashMap;

fn production_of(board: &Board, roll: u8, player: u8) -> Option<catan_core::ResourceHand> {
    board
        .resources_for_roll(roll)
        .into_iter()
        .find(|(p, _)| *p == player)
        .map(|(_, h)| h)
}

/// A producing tile whose top corner touches no other tile with the same number, so
/// that a building there is paid by this tile alone.
fn producing_tile(board: &Board) -> Tile {
    *board
        .land_tiles()
        .iter()
        .find(|t| {
            t.dice_number.is_some()
                && t.resource().is_some()
                && !t.has_robber
                && board
                    .tiles_at_vertex(&t.coord.vertices()[0])
                    .iter()
                    .filter(|o| o.dice_number == t.dice_number)
                    .count()
                    == 1
        })
        .unwrap()
}

#[test]
fn test_standard_board_has_19_land_tiles() {
    let board = Board::standard();
    let land_count = board.land_tiles().len();
    assert_eq!(land_count, 19);
}

#[test]
fn test_standard_board_has_desert() {
    let board = Board::standard();
    let desert_count = board
        .land_tiles()
        .iter()
        .filter(|t| matches!(t.tile_type, TileType::Desert))
        .count();
    assert_eq!(desert_count, 1);
}

#[test]
fn test_robber_starts_on_desert() {
    let board = Board::standard();
    let robber_tile = board.get_tile(&board.robber_location()).unwrap();
    assert!(matches!(robber_tile.tile_type, TileType::Desert));
    assert!(robber_tile.has_robber);
}

#[test]
fn test_distance_rule() {
    let mut board = Board::standard();
    let vertex = VertexCoord::new(HexCoord::new(0, 0), VertexDirection::North);

    assert!(board.satisfies_distance_rule(&vertex));

    board.place_settlement(vertex, 0);

    for adj in vertex.adjacent_vertices() {
        assert!(
            !board.satisfies_distance_rule(&adj),
            "Adjacent vertex should fail distance rule"
        );
    }
}

#[test]
fn test_road_connectivity() {
    let mut board = Board::standard();
    let vertex = VertexCoord::new(HexCoord::new(0, 0), VertexDirection::North);
    let edges = vertex.touching_edges();

    board.place_settlement(vertex, 0);

    let valid_roads = board.valid_road_spots(0);
    for edge in &edges {
        assert!(
            valid_roads.contains(edge),
            "Should be able to build road adjacent to settlement"
        );
    }

    board.place_road(edges[0], 0);

    let new_valid = board.valid_road_spots(0);
    assert!(
        new_valid.len() > valid_roads.len() - 1,
        "Should have new road spots from extended road"
    );
}

#[test]
fn test_resource_distribution() {
    let mut board = Board::standard();
    let tile = producing_tile(&board);

    let vertex = tile.coord.vertices()[0];
    board.place_settlement(vertex, 0);

    let hand = production_of(&board, tile.dice_number.unwrap(), 0).unwrap();
    assert_eq!(hand.get(tile.resource().unwrap()), 1);
}

#[test]
fn test_city_gives_double_resources() {
    let mut board = Board::standard();
    let tile = producing_tile(&board);

    let vertex = tile.coord.vertices()[0];
    board.place_settlement(vertex, 0);
    board.upgrade_to_city(vertex, 0);

    let hand = production_of(&board, tile.dice_number.unwrap(), 0).unwrap();
    assert_eq!(hand.get(tile.resource().unwrap()), 2);
}

#[test]
fn test_robber_blocks_production() {
    let mut board = Board::standard();
    let tile = producing_tile(&board);

    let vertex = tile.coord.vertices()[0];
    board.place_settlement(vertex, 0);

    assert!(production_of(&board, tile.dice_number.unwrap(), 0).is_some());

    board.move_robber(tile.coord);

    let after = production_of(&board, tile.dice_number.unwrap(), 0);
    assert!(
        after.is_none() || after.unwrap().get(tile.resource().unwrap()) == 0,
        "Robber should block production"
    );
}

#[test]
fn test_longest_road_single_road() {
    let mut board = Board::standard();
    let vertex = VertexCoord::new(HexCoord::new(0, 0), VertexDirection::North);

    board.place_settlement(vertex, 0);
    let edge = vertex.touching_edges()[0];
    board.place_road(edge, 0);

    assert_eq!(board.longest_road(0), 1);
}

#[test]
fn test_longest_road_chain() {
    let mut board = Board::standard();
    let vertex = VertexCoord::new(HexCoord::new(0, 0), VertexDirection::North);

    board.place_settlement(vertex, 0);

    let edges = vertex.touching_edges();
    board.place_road(edges[0], 0);

    let next_vertex = edges[0]
        .endpoints()
        .into_iter()
        .find(|v| *v != vertex)
        .unwrap();
    let next_edges = next_vertex.touching_edges();
    let second_road = next_edges.iter().find(|e| **e != edges[0]).unwrap();
    board.place_road(*second_road, 0);

    assert!(board.longest_road(0) >= 2);
}

#[test]
fn test_harbor_access() {
    let mut board = Board::standard();

    let harbor = *board.harbors().first().unwrap();
    let endpoints = harbor.edge.endpoints();

    board.place_settlement(endpoints[0], 0);

    let player_harbors = board.player_harbors(0);
    assert!(!player_harbors.is_empty());
}

#[test]
fn test_standard_board_has_correct_resource_counts() {
    let board = Board::standard();

    let mut lumber_count = 0;
    let mut grain_count = 0;
    let mut wool_count = 0;
    let mut ore_count = 0;
    let mut brick_count = 0;
    let mut desert_count = 0;

    for tile in board.land_tiles() {
        match tile.tile_type {
            TileType::Resource(Resource::Lumber) => lumber_count += 1,
            TileType::Resource(Resource::Grain) => grain_count += 1,
            TileType::Resource(Resource::Wool) => wool_count += 1,
            TileType::Resource(Resource::Ore) => ore_count += 1,
            TileType::Resource(Resource::Brick) => brick_count += 1,
            TileType::Desert => desert_count += 1,
            TileType::Ocean => {}
        }
    }

    assert_eq!(lumber_count, 4, "Should have 4 Lumber tiles");
    assert_eq!(grain_count, 4, "Should have 4 Grain tiles");
    assert_eq!(wool_count, 4, "Should have 4 Wool tiles");
    assert_eq!(ore_count, 3, "Should have 3 Ore tiles");
    assert_eq!(brick_count, 3, "Should have 3 Brick tiles");
    assert_eq!(desert_count, 1, "Should have 1 Desert tile");
}

#[test]
fn test_standard_board_has_correct_number_distribution() {
    let board = Board::standard();

    let mut number_counts: HashMap<u8, u32> = HashMap::new();

    for tile in board.land_tiles() {
        if let Some(num) = tile.dice_number {
            *number_counts.entry(num).or_insert(0) += 1;
        }
    }

    assert_eq!(number_counts.get(&2), Some(&1), "Should have one 2");
    assert_eq!(number_counts.get(&3), Some(&2), "Should have two 3s");
    assert_eq!(number_counts.get(&4), Some(&2), "Should have two 4s");
    assert_eq!(number_counts.get(&5), Some(&2), "Should have two 5s");
    assert_eq!(number_counts.get(&6), Some(&2), "Should have two 6s");
    assert_eq!(number_counts.get(&7), None, "Should have no 7s");
    assert_eq!(number_counts.get(&8), Some(&2), "Should have two 8s");
    assert_eq!(number_counts.get(&9), Some(&2), "Should have two 9s");
    assert_eq!(number_counts.get(&10), Some(&2), "Should have two 10s");
    assert_eq!(number_counts.get(&11), Some(&2), "Should have two 11s");
    assert_eq!(number_counts.get(&12), Some(&1), "Should have one 12");
}

#[test]
fn test_no_adjacent_6_and_8() {
    for _ in 0..10 {
        let board = Board::standard();

        let coord_to_number: HashMap<HexCoord, u8> = board
            .land_tiles()
            .iter()
            .filter_map(|tile| tile.dice_number.map(|num| (tile.coord, num)))
            .collect();

        for (coord, &number) in &coord_to_number {
            if number == 6 || number == 8 {
                for neighbor in coord.neighbors() {
                    if let Some(&neighbor_number) = coord_to_number.get(&neighbor) {
                        assert!(
                            !(number == 6 && neighbor_number == 8)
                                && !(number == 8 && neighbor_number == 6),
                            "Found adjacent 6 and 8 at {:?} and {:?}",
                            coord,
                            neighbor
                        );
                    }
                }
            }
        }
    }
}

#[test]
fn test_board_randomization_produces_different_boards() {
    let key = |b: &Board| -> Vec<(HexCoord, TileType, Option<u8>)> {
        b.land_tiles().iter().map(|t| (t.coord, t.tile_type, t.dice_number)).collect()
    };
    let tiles1 = key(&Board::standard());
    let tiles2 = key(&Board::standard());

    let mut found_different = tiles1 != tiles2;

    if !found_different {
        for _ in 0..10 {
            let tiles3 = key(&Board::standard());
            if tiles3 != tiles1 {
                found_different = true;
                break;
            }
        }
    }

    assert!(
        found_different,
        "Board generation should produce different boards"
    );
}

#[test]
fn test_desert_has_no_number() {
    let board = Board::standard();

    for tile in board.land_tiles() {
        if matches!(tile.tile_type, TileType::Desert) {
            assert!(
                tile.dice_number.is_none(),
                "Desert tile should not have a dice number"
            );
        }
    }
}

#[test]
fn test_standard_board_has_9_harbors() {
    let board = Board::standard();
    assert_eq!(board.harbors().len(), 9, "Should have 9 harbors");
}

#[test]
fn test_harbors_have_correct_distribution() {
    let board = Board::standard();

    let generic_count = board
        .harbors()
        .iter()
        .filter(|h| matches!(h.harbor_type, Harbor::Generic))
        .count();
    let specific_count = board
        .harbors()
        .iter()
        .filter(|h| matches!(h.harbor_type, Harbor::Specific(_)))
        .count();

    assert_eq!(generic_count, 4, "Should have 4 generic (3:1) harbors");
    assert_eq!(specific_count, 5, "Should have 5 specific (2:1) harbors");

    for resource in Resource::all() {
        let has_resource_harbor = board
            .harbors()
            .iter()
            .any(|h| h.harbor_type == Harbor::Specific(resource));
        assert!(has_resource_harbor, "Should have a 2:1 harbor for {:?}", resource);
    }
}

#[test]
fn test_harbors_are_on_coastal_edges() {
    let board = Board::standard();

    for harbor in board.harbors() {
        let touching = harbor.edge.touching_hexes();

        let has_land = touching.iter().any(|h| {
            board.get_tile(h).is_some_and(|t| !matches!(t.tile_type, TileType::Ocean))
        });

        let has_ocean = touching.iter().any(|h| {
            board.get_tile(h).is_some_and(|t| matches!(t.tile_type, TileType::Ocean))
                || board.get_tile(h).is_none()
        });

        assert!(has_land && has_ocean, "Harbor edge should be on coast (between land and ocean)");
    }
}

#[test]
fn test_harbors_are_randomized() {
    let key = |b: &Board| -> Vec<(catan_core::EdgeCoord, Harbor)> {
        b.harbors().iter().map(|h| (h.edge, h.harbor_type)).collect()
    };
    let first = key(&Board::standard());
    let mut found_different = key(&Board::standard()) != first;

    if !found_different {
        for _ in 0..10 {
            if key(&Board::standard()) != first {
                found_different = true;
                break;
            }
        }
    }

    assert!(found_different, "Harbor positions/types should be randomized");
}

#[test]
fn empty_board_has_nothing() {
    let board = Board::new();
    assert!(board.land_tiles().is_empty());
    assert_eq!(board.robber_location(), HexCoord::new(0, 0));
    let v = VertexCoord::new(HexCoord::new(0, 0), VertexDirection::North);
    assert_eq!(board.get_vertex(&v), VertexBuilding::Empty);
    assert!(board.valid_settlement_spots(0, true).is_empty());
    assert_eq!(board.longest_road(0), 0);
}

#[test]
fn standard_board_has_54_corners_and_72_sides() {
    let board = Board::standard();
    assert_eq!(board.land_vertices().len(), 54);
    assert_eq!(board.land_edges().len(), 72);
    assert_eq!(board.valid_settlement_spots(0, true).len(), 54);
    assert!(board.valid_settlement_spots(0, false).is_empty());
}

#[test]
fn city_spots_and_adjacent_players() {
    let mut board = Board::standard();
    let v = VertexCoord::new(HexCoord::new(0, 0), VertexDirection::South);
    board.place_settlement(v, 1);
    assert_eq!(board.valid_city_spots(1), vec![v]);
    assert!(board.valid_city_spots(0).is_empty());
    assert_eq!(board.players_adjacent_to_hex(&HexCoord::new(0, 0)), vec![1]);
    assert_eq!(board.tiles_at_vertex(&v).len(), 3);
    assert!(board.is_land_vertex(&v));
    board.upgrade_to_city(v, 1);
    assert_eq!(board.get_vertex(&v), VertexBuilding::City(1));
    assert!(board.valid_city_spots(1).is_empty());
}

#[test]
fn an_enemy_settlement_cuts_a_road() {
    let mut board = Board::standard();
    let start = VertexCoord::new(HexCoord::new(0, 0), VertexDirection::North);
    let mut at = start;
    let mut previous: Option<catan_core::EdgeCoord> = None;
    let mut middle = start;
    for step in 0..4 {
        let next = at
            .touching_edges()
            .into_iter()
            .find(|e| Some(*e) != previous && board.get_edge(e) == EdgeBuilding::Empty && board.is_land_edge(e))
            .unwrap();
        board.place_road(next, 0);
        previous = Some(next);
        at = next.endpoints().into_iter().find(|v| *v != at).unwrap();
        if step == 1 {
            middle = at;
        }
    }
    assert_eq!(board.longest_road(0), 4);
    board.place_settlement(middle, 1);
    assert_eq!(board.longest_road(0), 2);
}

#[test]
fn a_fork_counts_its_longest_branch() {
    let mut board = Board::standard();
    let v = VertexCoord::new(HexCoord::new(0, 0), VertexDirection::North);
    let t = v.touching_edges();
    board.place_road(t[0], 0);
    board.place_road(t[1], 0);
    board.place_road(t[2], 0);
    // A road goes on only at the corner it comes out at, so a fork counts one branch.
    assert_eq!(board.longest_road(0), 2);
    assert_eq!(board.longest_road(1), 0);
}

#[test]
fn harbor_rates() {
    assert_eq!(Harbor::Generic.rate(), 3);
    assert_eq!(Harbor::Specific(Resource::Ore).rate(), 2);
    assert_eq!(Resource::Brick.singapore_name(), "HDB Estate");
    assert!(Tile::desert(HexCoord::new(0, 0)).has_robber);
    assert!(!Tile::ocean(HexCoord::new(0, 0)).is_productive());
    assert!(Tile::new_resource(HexCoord::new(0, 0), Resource::Ore, 5).is_productive());
    assert_eq!(VertexBuilding::City(2).owner(), Some(2));
    assert_eq!(VertexBuilding::City(2).victory_points(), 2);
    assert_eq!(VertexBuilding::Settlement(2).resource_multiplier(), 1);
    assert_eq!(EdgeBuilding::Road(3).owner(), Some(3));
}

#[test]
fn snapshot_lists_what_was_built() {
    let mut board = Board::standard();
    let v = VertexCoord::new(HexCoord::new(0, 0), VertexDirection::North);
    board.place_settlement(v, 2);
    board.place_road(v.touching_edges()[1], 2);
    let snap = board.to_json_friendly();
    assert_eq!(snap.tiles.len(), board.land_tiles().len() + 18);
    assert_eq!(snap.vertices.len(), 1);
    assert_eq!(snap.vertices[0].building, VertexBuilding::Settlement(2));
    assert_eq!((snap.vertices[0].hex_q, snap.vertices[0].hex_r), (0, 0));
    assert_eq!(snap.edges.len(), 1);
    assert_eq!(snap.edges[0].building, EdgeBuilding::Road(2));
    assert_eq!(snap.harbors.len(), 9);
    let robber = board.robber_location();
    assert_eq!((snap.robber_q, snap.robber_r), (robber.q, robber.r));
}

#[test]
fn the_same_draws_give_the_same_board() {
    let resources = vec![
        Resource::Ore, Resource::Ore, Resource::Ore, Resource::Brick, Resource::Brick, Resource::Brick,
        Resource::Lumber, Resource::Lumber, Resource::Lumber, Resource::Lumber, Resource::Grain, Resource::Grain,
        Resource::Grain, Resource::Grain, Resource::Wool, Resource::Wool, Resource::Wool, Resource::Wool,
    ];
    let numbers: Vec<u8> = vec![5, 2, 6, 3, 8, 10, 9, 12, 11, 4, 8, 10, 9, 4, 5, 6, 3, 11];
    let a = Board::from_draws(&resources, 4, &numbers);
    let b = Board::from_draws(&resources, 4, &numbers);
    assert_eq!(a.to_json_friendly().tiles, b.to_json_friendly().tiles);
    assert_eq!(a.land_tiles().len(), 19);
    assert_eq!(a.robber_location(), HexCoord::new(-1, 0));
    assert_eq!(a.get_tile(&HexCoord::new(-1, 0)).unwrap().tile_type, TileType::Desert);
    let centre = a.get_tile(&HexCoord::new(0, 0)).unwrap();
    assert_eq!((centre.tile_type, centre.dice_number), (TileType::Resource(Resource::Ore), Some(5)));
    assert_eq!(a.to_json_friendly().tiles.len(), 37);
}

#[test]
fn harbours_go_on_the_picked_edges() {
    let resources = vec![Resource::Ore; 18];
    let numbers: Vec<u8> = vec![5; 18];
    let mut board = Board::from_draws(&resources, 0, &numbers);
    let coastal = board.get_coastal_edges();
    assert_eq!(coastal.len(), 30);
    let picks = catan_core::board::spread_picks(&coastal, 9);
    assert_eq!(picks.len(), 9);
    assert_eq!(picks[0], coastal[0]);
    let kinds = vec![Harbor::Generic; 9];
    board.place_harbors(&kinds, &picks);
    assert_eq!(board.harbors().len(), 9);
    assert_eq!(board.harbors()[3].edge, picks[3]);
}
