use catan_core::{
    DevelopmentCard, GameAction, GameError, GamePhase, GameState, Harbor, HexCoord, Resource,
    ResourceHand, SetupPlacing, TradeOffer, VertexCoord, VertexDirection,
};

fn two_players() -> GameState {
    GameState::new(2, vec!["A".into(), "B".into()])
}

/// A game in the main phase with player 0 to act.
fn main_phase_game() -> GameState {
    let mut game = two_players();
    game.current_player = 0;
    game.phase = GamePhase::MainPhase;
    game
}

#[test]
fn test_new_game_starts_in_setup() {
    let game = GameState::new(4, vec!["A".into(), "B".into(), "C".into(), "D".into()]);
    assert!(matches!(
        game.phase,
        GamePhase::Setup {
            round: 1,
            placing: SetupPlacing::Settlement
        }
    ));
}

#[test]
fn test_setup_valid_actions() {
    let game = GameState::new(4, vec!["A".into(), "B".into(), "C".into(), "D".into()]);
    let actions = game.valid_actions(game.current_player);

    assert!(actions
        .iter()
        .all(|a| matches!(a, GameAction::PlaceInitialSettlement(_))));
    assert!(!actions.is_empty());
}

#[test]
fn game_test_dev_card_deck_size() {
    let game = GameState::new(2, vec!["A".into(), "B".into()]);
    assert_eq!(game.dev_card_deck.len(), 25);
}

#[test]
fn test_victory_points_calculation() {
    let mut game = GameState::new(2, vec!["A".into(), "B".into()]);

    assert_eq!(game.total_victory_points(0), 0);

    // Points come from the buildings on the board, so the two settlements are placed.
    game.players[0].settlements_remaining = 3;
    game.board.place_settlement(VertexCoord::new(HexCoord::new(0, 0), VertexDirection::North), 0);
    game.board.place_settlement(VertexCoord::new(HexCoord::new(0, 1), VertexDirection::South), 0);
    assert_eq!(game.total_victory_points(0), 2);

    game.players[0].has_longest_road = true;
    assert_eq!(game.total_victory_points(0), 4);
}

#[test]
fn test_maritime_trade_rate() {
    let game = GameState::new(2, vec!["A".into(), "B".into()]);

    assert_eq!(game.get_maritime_rate(0, Resource::Brick, &[]), 4);

    assert_eq!(game.get_maritime_rate(0, Resource::Brick, &[Harbor::Generic]), 3);

    assert_eq!(
        game.get_maritime_rate(0, Resource::Brick, &[Harbor::Specific(Resource::Brick)]),
        2
    );
}

#[test]
fn setup_follows_the_snake_order_for_two_players() {
    let mut game = two_players();
    game.current_player = 0;
    let mut order = Vec::new();
    while matches!(game.phase, GamePhase::Setup { .. }) {
        let player = game.current_player;
        let settle = game.valid_actions(player).into_iter().next().unwrap();
        order.push(player);
        game.apply_action(player, settle).unwrap();
        assert_eq!(game.current_player, player);
        let road = game.valid_actions(player).into_iter().next().unwrap();
        assert!(matches!(road, GameAction::PlaceInitialRoad(_)));
        game.apply_action(player, road).unwrap();
    }
    assert_eq!(order, vec![0, 1, 1, 0]);
    assert_eq!(game.phase, GamePhase::PreRoll);
    assert_eq!(game.turn_number, 1);
}

#[test]
fn a_seven_with_nine_cards_asks_for_four() {
    let mut game = two_players();
    game.current_player = 0;
    game.phase = GamePhase::PreRoll;
    game.players[0].resources = ResourceHand::with_amounts(3, 2, 2, 1, 1);
    game.players[1].resources = ResourceHand::with_amounts(1, 1, 1, 1, 1);

    game.apply_dice_roll(0, 3, 4);
    assert_eq!(game.phase, GamePhase::DiscardRequired { players_remaining: vec![0] });

    assert_eq!(game.apply_action(0, GameAction::EndTurn).unwrap_err(), GameError::InvalidPhase);
    assert_eq!(
        game.apply_action(0, GameAction::DiscardCards(ResourceHand::with_amounts(3, 0, 0, 0, 0))).unwrap_err(),
        GameError::InvalidDiscard
    );
    assert_eq!(
        game.apply_action(0, GameAction::DiscardCards(ResourceHand::with_amounts(0, 0, 0, 0, 4))).unwrap_err(),
        GameError::InvalidDiscard
    );
    assert_eq!(
        game.apply_action(1, GameAction::DiscardCards(ResourceHand::with_amounts(1, 1, 0, 0, 0))).unwrap_err(),
        GameError::NotYourTurn
    );
    assert_eq!(game.phase, GamePhase::DiscardRequired { players_remaining: vec![0] });

    game.apply_action(0, GameAction::DiscardCards(ResourceHand::with_amounts(3, 1, 0, 0, 0))).unwrap();
    assert_eq!(game.phase, GamePhase::RobberMoveRequired);
    assert_eq!(game.players[0].resources, ResourceHand::with_amounts(0, 1, 2, 1, 1));
}

#[test]
fn a_seven_without_large_hands_moves_the_robber() {
    let mut game = two_players();
    game.current_player = 1;
    game.phase = GamePhase::PreRoll;
    game.apply_dice_roll(1, 6, 1);
    assert_eq!(game.phase, GamePhase::RobberMoveRequired);
    assert_eq!(game.dice_roll, Some((6, 1)));
}

#[test]
fn ten_points_end_the_game_on_the_next_purchase() {
    let mut game = main_phase_game();
    let spots = [
        VertexCoord::new(HexCoord::new(0, 0), VertexDirection::North),
        VertexCoord::new(HexCoord::new(0, 0), VertexDirection::South),
        VertexCoord::new(HexCoord::new(2, -2), VertexDirection::North),
        VertexCoord::new(HexCoord::new(-2, 2), VertexDirection::South),
    ];
    for v in spots {
        game.board.place_settlement(v, 0);
    }
    game.players[0].settlements_remaining = 1;
    game.players[0].has_longest_road = true;
    game.players[0].has_largest_army = true;
    game.players[0].dev_cards = vec![DevelopmentCard::VictoryPoint, DevelopmentCard::VictoryPoint];
    assert_eq!(game.total_victory_points(0), 10);
    assert!(!game.is_finished());

    game.players[0].resources = ResourceHand::with_amounts(0, 0, 1, 1, 1);
    game.apply_action(0, GameAction::BuyDevelopmentCard).unwrap();
    assert!(game.is_finished());
    assert_eq!(game.get_winner(), Some(0));
    assert_eq!(game.apply_action(0, GameAction::EndTurn).unwrap_err(), GameError::GameOver);
}

#[test]
fn maritime_trade_takes_the_rate_and_gives_one() {
    let mut game = main_phase_game();
    game.players[0].resources = ResourceHand::with_amounts(5, 0, 0, 0, 0);
    assert_eq!(
        game.apply_action(0, GameAction::MaritimeTrade { give: Resource::Brick, give_count: 3, receive: Resource::Ore }).unwrap_err(),
        GameError::InvalidTrade
    );
    game.apply_action(0, GameAction::MaritimeTrade { give: Resource::Brick, give_count: 4, receive: Resource::Ore }).unwrap();
    assert_eq!(game.players[0].resources, ResourceHand::with_amounts(1, 0, 1, 0, 0));
    assert_eq!(
        game.apply_action(0, GameAction::MaritimeTrade { give: Resource::Brick, give_count: 4, receive: Resource::Ore }).unwrap_err(),
        GameError::CannotAfford
    );
}

#[test]
fn an_accepted_trade_keeps_the_totals() {
    let mut game = main_phase_game();
    game.players[0].resources = ResourceHand::with_amounts(2, 0, 1, 0, 0);
    game.players[1].resources = ResourceHand::with_amounts(0, 3, 0, 1, 0);
    let offer = TradeOffer::new(
        0,
        Some(1),
        ResourceHand::with_amounts(2, 0, 0, 0, 0),
        ResourceHand::with_amounts(0, 1, 0, 1, 0),
    );
    game.apply_action(0, GameAction::ProposeTrade(offer)).unwrap();
    assert_eq!(game.apply_action(0, GameAction::AcceptTrade).unwrap_err(), GameError::NotYourTurn);
    game.apply_action(1, GameAction::AcceptTrade).unwrap();
    assert_eq!(game.players[0].resources, ResourceHand::with_amounts(0, 1, 1, 1, 0));
    assert_eq!(game.players[1].resources, ResourceHand::with_amounts(2, 2, 0, 0, 0));
    assert!(game.pending_trade.is_none());
    assert_eq!(game.apply_action(1, GameAction::AcceptTrade).unwrap_err(), GameError::NoActiveTrade);
}

#[test]
fn rejections_leave_the_state_alone() {
    let mut game = main_phase_game();
    let before = format!("{:?}", game);
    assert_eq!(game.apply_action(1, GameAction::EndTurn).unwrap_err(), GameError::NotYourTurn);
    assert_eq!(game.apply_action(0, GameAction::RollDice).unwrap_err(), GameError::InvalidPhase);
    assert_eq!(game.apply_action(0, GameAction::BuyDevelopmentCard).unwrap_err(), GameError::CannotAfford);
    assert_eq!(game.apply_action(0, GameAction::PlayKnight).unwrap_err(), GameError::NoSuchCard);
    assert_eq!(game.apply_action(0, GameAction::CancelTrade).unwrap_err(), GameError::NoActiveTrade);
    assert_eq!(format!("{:?}", game), before);
}

#[test]
fn ending_the_turn_passes_play_on() {
    let mut game = main_phase_game();
    game.players[0].dev_cards_bought_this_turn = vec![DevelopmentCard::Knight];
    let events = game.apply_action(0, GameAction::EndTurn).unwrap();
    assert_eq!(events.len(), 1);
    assert_eq!(game.current_player, 1);
    assert_eq!(game.phase, GamePhase::PreRoll);
    assert_eq!(game.players[0].dev_cards, vec![DevelopmentCard::Knight]);
}

#[test]
fn monopoly_collects_every_card_of_the_kind() {
    let mut game = main_phase_game();
    game.players[0].dev_cards = vec![DevelopmentCard::Monopoly];
    game.players[0].resources = ResourceHand::with_amounts(0, 0, 0, 1, 0);
    game.players[1].resources = ResourceHand::with_amounts(0, 0, 0, 4, 2);
    game.apply_action(0, GameAction::PlayMonopoly(Resource::Grain)).unwrap();
    assert_eq!(game.players[0].resources.grain, 5);
    assert_eq!(game.players[1].resources, ResourceHand::with_amounts(0, 0, 0, 0, 2));
    assert_eq!(game.apply_action(0, GameAction::PlayMonopoly(Resource::Grain)).unwrap_err(), GameError::InvalidPhase);
}

#[test]
fn year_of_plenty_and_road_building() {
    let mut game = main_phase_game();
    game.players[0].dev_cards = vec![DevelopmentCard::YearOfPlenty, DevelopmentCard::RoadBuilding];
    game.apply_action(0, GameAction::PlayYearOfPlenty(Resource::Ore, Resource::Ore)).unwrap();
    assert_eq!(game.players[0].resources.ore, 2);
    assert!(game.dev_card_played_this_turn);
    game.dev_card_played_this_turn = false;
    let v = VertexCoord::new(HexCoord::new(0, 0), VertexDirection::North);
    let e = v.touching_edges()[0];
    game.apply_action(0, GameAction::PlayRoadBuilding(e, e)).unwrap();
    assert_eq!(game.phase, GamePhase::RoadBuildingInProgress { roads_remaining: 2 });
    game.board.place_settlement(v, 0);
    game.apply_action(0, GameAction::BuildRoad(e)).unwrap();
    assert_eq!(game.phase, GamePhase::RoadBuildingInProgress { roads_remaining: 1 });
    assert_eq!(game.players[0].roads_remaining, 14);
}

#[test]
fn three_knights_win_the_army() {
    let mut game = main_phase_game();
    game.players[0].dev_cards = vec![DevelopmentCard::Knight];
    game.players[0].played_knights = 2;
    game.apply_action(0, GameAction::PlayKnight).unwrap();
    assert!(game.players[0].has_largest_army);
    assert_eq!(game.phase, GamePhase::RobberMoveRequired);
}

#[test]
fn a_tie_keeps_the_army_with_its_holder() {
    let mut game = main_phase_game();
    game.players[1].played_knights = 3;
    game.players[1].has_largest_army = true;
    game.players[0].dev_cards = vec![DevelopmentCard::Knight];
    game.players[0].played_knights = 2;
    game.apply_action(0, GameAction::PlayKnight).unwrap();
    assert!(game.players[1].has_largest_army);
    assert!(!game.players[0].has_largest_army);
}

#[test]
fn short_roads_give_no_award() {
    let mut game = main_phase_game();
    let v = VertexCoord::new(HexCoord::new(0, 0), VertexDirection::North);
    game.board.place_settlement(v, 0);
    game.players[0].resources = ResourceHand::with_amounts(4, 4, 0, 0, 0);
    let e = v.touching_edges()[0];
    game.apply_action(0, GameAction::BuildRoad(e)).unwrap();
    assert_eq!(game.board.longest_road(0), 1);
    assert!(!game.players[0].has_longest_road);
    assert_eq!(game.players[0].resources, ResourceHand::with_amounts(3, 3, 0, 0, 0));
}

#[test]
fn moving_the_robber_to_an_empty_tile() {
    let mut game = two_players();
    game.current_player = 0;
    game.phase = GamePhase::RobberMoveRequired;
    let robber = game.board.robber_location();
    assert_eq!(game.apply_action(0, GameAction::MoveRobber(robber)).unwrap_err(), GameError::InvalidLocation);
    assert_eq!(game.apply_action(0, GameAction::MoveRobber(HexCoord::new(9, 9))).unwrap_err(), GameError::InvalidLocation);
    let target = game
        .valid_actions(0)
        .into_iter()
        .find_map(|a| match a {
            GameAction::MoveRobber(h) => Some(h),
            _ => None,
        })
        .unwrap();
    game.apply_action(0, GameAction::MoveRobber(target)).unwrap();
    assert_eq!(game.board.robber_location(), target);
    assert_eq!(game.phase, GamePhase::MainPhase);
}

#[test]
fn the_robber_steals_from_the_only_victim() {
    let mut game = two_players();
    game.current_player = 0;
    game.phase = GamePhase::RobberMoveRequired;
    let target = if game.board.robber_location() == HexCoord::new(0, 0) {
        HexCoord::new(1, 0)
    } else {
        HexCoord::new(0, 0)
    };
    game.board.place_settlement(VertexCoord::new(target, VertexDirection::North), 1);
    game.players[1].resources = ResourceHand::with_amounts(0, 0, 2, 0, 0);
    game.apply_action(0, GameAction::MoveRobber(target)).unwrap();
    assert_eq!(game.players[0].resources, ResourceHand::with_amounts(0, 0, 1, 0, 0));
    assert_eq!(game.players[1].resources, ResourceHand::with_amounts(0, 0, 1, 0, 0));
    assert_eq!(game.phase, GamePhase::MainPhase);
}

#[test]
fn error_messages() {
    assert_eq!(GameError::NotYourTurn.message(), "Not your turn");
    assert_eq!(GameError::InvalidDiscard.message(), "Invalid discard");
    let g = GameState::new_standard_4player();
    assert_eq!(g.player_count(), 4);
    assert!(g.get_player(3).is_some());
    assert!(g.get_player(4).is_none());
}

#[test]
fn the_target_may_counter_and_either_side_may_cancel() {
    let mut game = main_phase_game();
    game.players[0].resources = ResourceHand::with_amounts(1, 0, 0, 0, 0);
    game.players[1].resources = ResourceHand::with_amounts(0, 0, 2, 0, 0);
    let offer = TradeOffer::new(0, Some(1), ResourceHand::with_amounts(1, 0, 0, 0, 0), ResourceHand::with_amounts(0, 0, 2, 0, 0));
    game.apply_action(0, GameAction::ProposeTrade(offer)).unwrap();
    let counter = TradeOffer::new(1, Some(0), ResourceHand::with_amounts(0, 0, 1, 0, 0), ResourceHand::with_amounts(1, 0, 0, 0, 0));
    let events = game.apply_action(1, GameAction::CounterTrade(counter)).unwrap();
    assert_eq!(events, vec![catan_core::GameEvent::TradeProposed { offer: counter }]);
    assert_eq!(game.pending_trade.as_ref().unwrap().offer, counter);
    let stranger = TradeOffer::new(1, None, ResourceHand::with_amounts(0, 0, 9, 0, 0), ResourceHand::with_amounts(1, 0, 0, 0, 0));
    assert_eq!(game.apply_action(1, GameAction::CounterTrade(stranger)).unwrap_err(), GameError::CannotAfford);
    game.apply_action(1, GameAction::CancelTrade).unwrap();
    assert!(game.pending_trade.is_none());
    assert_eq!(game.apply_action(1, GameAction::CancelTrade).unwrap_err(), GameError::NoActiveTrade);
}

#[test]
fn a_winning_purchase_reports_the_win_last() {
    let mut game = main_phase_game();
    for v in [
        VertexCoord::new(HexCoord::new(0, 0), VertexDirection::North),
        VertexCoord::new(HexCoord::new(0, 0), VertexDirection::South),
        VertexCoord::new(HexCoord::new(2, -2), VertexDirection::North),
        VertexCoord::new(HexCoord::new(-2, 2), VertexDirection::South),
    ] {
        game.board.place_settlement(v, 0);
    }
    game.players[0].has_longest_road = true;
    game.players[0].has_largest_army = true;
    game.players[0].dev_cards = vec![DevelopmentCard::VictoryPoint, DevelopmentCard::VictoryPoint];
    game.players[0].resources = ResourceHand::with_amounts(0, 0, 1, 1, 1);
    let events = game.apply_action(0, GameAction::BuyDevelopmentCard).unwrap();
    assert_eq!(events[0], catan_core::GameEvent::DevelopmentCardPurchased { player: 0 });
    assert!(matches!(events.last(), Some(catan_core::GameEvent::GameWon { player: 0, .. })));
}

#[test]
fn discard_marker_only_for_the_player_who_owes() {
    let mut game = two_players();
    game.phase = GamePhase::DiscardRequired { players_remaining: vec![1] };
    game.players[1].resources = ResourceHand::with_amounts(8, 0, 0, 0, 0);
    assert!(game.valid_actions(0).is_empty());
    assert_eq!(game.valid_actions(1), vec![GameAction::DiscardCards(ResourceHand::new())]);
}
