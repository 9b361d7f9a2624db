use catan_core::{GameAction, GameEvent, GamePhase, GameState, PlayerId, Resource, ResourceHand};

fn find_action<F>(game: &GameState, player: PlayerId, filter: F) -> Option<GameAction>
where
    F: Fn(&GameAction) -> bool,
{
    game.valid_actions(player).into_iter().find(filter)
}

fn complete_setup(game: &mut GameState) {
    let mut iterations = 0;
    let max_iterations = 100;

    while matches!(game.phase, GamePhase::Setup { .. }) && iterations < max_iterations {
        let player = game.current_player;
        let actions = game.valid_actions(player);

        if let Some(action) = actions.into_iter().next() {
            let _ = game.apply_action(player, action);
        } else {
            break;
        }
        iterations += 1;
    }

    assert!(
        !matches!(game.phase, GamePhase::Setup { .. }),
        "Game should complete setup within {} iterations",
        max_iterations
    );
}

fn handle_special_phases(game: &mut GameState, max_iterations: usize) {
    let mut iterations = 0;

    while iterations < max_iterations {
        match &game.phase {
            GamePhase::MainPhase | GamePhase::Finished { .. } | GamePhase::PreRoll => break,
            GamePhase::DiscardRequired { players_remaining } => {
                let players = players_remaining.clone();
                for p in players {
                    if let Some(player) = game.get_player(p) {
                        let total = player.resources.total();
                        if total > 7 {
                            let discard_count = total / 2;
                            let mut discard = ResourceHand::new();
                            let mut remaining = discard_count;
                            for r in Resource::all() {
                                let available = player.resources.get(r);
                                let take = available.min(remaining);
                                discard.add(r, take);
                                remaining -= take;
                                if remaining == 0 {
                                    break;
                                }
                            }
                            let _ = game.apply_action(p, GameAction::DiscardCards(discard));
                        }
                    }
                }
            }
            GamePhase::RobberMoveRequired => {
                let player = game.current_player;
                if let Some(action) =
                    find_action(game, player, |a| matches!(a, GameAction::MoveRobber(_)))
                {
                    let _ = game.apply_action(player, action);
                }
            }
            GamePhase::RobberSteal { .. } => {
                let player = game.current_player;
                if let Some(action) =
                    find_action(game, player, |a| matches!(a, GameAction::StealFrom(_)))
                {
                    let _ = game.apply_action(player, action);
                }
            }
            _ => break,
        }
        iterations += 1;
    }
}

#[test]
fn test_setup_phase_completes() {
    let mut game = GameState::new(
        4,
        vec!["Alice".into(), "Bob".into(), "Charlie".into(), "Diana".into()],
    );

    complete_setup(&mut game);

    for player in &game.players {
        assert_eq!(
            player.settlements_remaining, 3,
            "Each player should have 3 settlements left (placed 2)"
        );
        assert_eq!(
            player.roads_remaining, 13,
            "Each player should have 13 roads left (placed 2)"
        );
    }

    assert!(matches!(game.phase, GamePhase::PreRoll));
}

#[test]
fn test_normal_turn_flow() {
    let mut game = GameState::new(2, vec!["Alice".into(), "Bob".into()]);
    complete_setup(&mut game);

    let player = game.current_player;

    let roll_action = find_action(&game, player, |a| matches!(a, GameAction::RollDice));
    assert!(roll_action.is_some(), "Should be able to roll dice");

    let events = game.apply_action(player, GameAction::RollDice).unwrap();

    assert!(
        events.iter().any(|e| matches!(e, GameEvent::DiceRolled { .. })),
        "Should have dice roll event"
    );

    handle_special_phases(&mut game, 20);

    if matches!(game.phase, GamePhase::MainPhase) {
        let end_action = find_action(&game, player, |a| matches!(a, GameAction::EndTurn));
        assert!(end_action.is_some(), "Should be able to end turn");

        game.apply_action(player, GameAction::EndTurn).unwrap();

        assert_ne!(game.current_player, player, "Turn should advance");
        assert!(
            matches!(game.phase, GamePhase::PreRoll),
            "Should be in PreRoll for next player"
        );
    }
}

#[test]
fn test_building_requires_resources() {
    let mut game = GameState::new(2, vec!["Alice".into(), "Bob".into()]);
    complete_setup(&mut game);

    let player = game.current_player;

    game.apply_action(player, GameAction::RollDice).unwrap();

    handle_special_phases(&mut game, 20);

    if !matches!(game.phase, GamePhase::MainPhase) {
        return;
    }

    game.players[player as usize].resources = ResourceHand::new();

    let road_action = find_action(&game, player, |a| matches!(a, GameAction::BuildRoad(_)));
    assert!(
        road_action.is_none(),
        "Should not have road build action without resources"
    );

    let settlement_action =
        find_action(&game, player, |a| matches!(a, GameAction::BuildSettlement(_)));
    assert!(
        settlement_action.is_none(),
        "Should not have settlement build action without resources"
    );
}

#[test]
fn test_building_with_resources() {
    let mut game = GameState::new(2, vec!["Alice".into(), "Bob".into()]);
    complete_setup(&mut game);

    let player = game.current_player;

    game.players[player as usize].resources = ResourceHand::with_amounts(5, 5, 5, 5, 5);

    game.apply_action(player, GameAction::RollDice).unwrap();

    handle_special_phases(&mut game, 20);

    if !matches!(game.phase, GamePhase::MainPhase) {
        return;
    }

    if let Some(road_action) =
        find_action(&game, player, |a| matches!(a, GameAction::BuildRoad(_)))
    {
        let result = game.apply_action(player, road_action);
        assert!(result.is_ok(), "Should be able to build road with resources");

        assert_eq!(
            game.players[player as usize].roads_remaining,
            12,
            "Road count should decrease"
        );
    }
}

#[test]
fn test_maritime_trade() {
    let mut game = GameState::new(2, vec!["Alice".into(), "Bob".into()]);
    complete_setup(&mut game);

    let player = game.current_player;

    game.players[player as usize].resources = ResourceHand::with_amounts(4, 0, 0, 0, 0);

    game.apply_action(player, GameAction::RollDice).unwrap();

    handle_special_phases(&mut game, 20);

    if !matches!(game.phase, GamePhase::MainPhase) {
        return;
    }

    let trade_action =
        find_action(&game, player, |a| matches!(a, GameAction::MaritimeTrade { .. }));
    assert!(
        trade_action.is_some(),
        "Should be able to do maritime trade with 4 resources"
    );

    if let Some(GameAction::MaritimeTrade { give, give_count, receive }) = trade_action {
        assert_eq!(give, Resource::Brick);
        assert!(
            give_count >= 2 && give_count <= 4,
            "Rate should be between 2:1 and 4:1, got {}:1",
            give_count
        );

        let brick_before = game.players[player as usize].resources.brick;
        let receive_before = game.players[player as usize].resources.get(receive);

        game.apply_action(player, GameAction::MaritimeTrade { give, give_count, receive })
            .unwrap();

        assert_eq!(
            game.players[player as usize].resources.brick,
            brick_before - give_count,
            "Should have spent brick"
        );
        assert_eq!(
            game.players[player as usize].resources.get(receive),
            receive_before + 1,
            "Should have received one resource"
        );
    }
}

#[test]
fn test_development_card_purchase() {
    let mut game = GameState::new(2, vec!["Alice".into(), "Bob".into()]);
    complete_setup(&mut game);

    let player = game.current_player;
    let initial_deck_size = game.dev_card_deck.len();

    game.players[player as usize].resources = ResourceHand::with_amounts(0, 0, 1, 1, 1);

    game.apply_action(player, GameAction::RollDice).unwrap();

    handle_special_phases(&mut game, 20);

    if !matches!(game.phase, GamePhase::MainPhase) {
        return;
    }

    let buy_action = find_action(&game, player, |a| matches!(a, GameAction::BuyDevelopmentCard));
    assert!(
        buy_action.is_some(),
        "Should be able to buy dev card with resources"
    );

    game.apply_action(player, GameAction::BuyDevelopmentCard).unwrap();

    assert_eq!(
        game.dev_card_deck.len(),
        initial_deck_size - 1,
        "Deck should have one less card"
    );

    assert_eq!(
        game.players[player as usize].dev_cards_bought_this_turn.len(),
        1,
        "Player should have card in bought pile"
    );
}

#[test]
fn test_random_game_simulation() {
    for seed in 0..5 {
        let player_count = 2 + (seed % 3) as u8;
        let mut game = GameState::new(
            player_count,
            (0..player_count).map(|i| format!("Player{}", i)).collect(),
        );

        let mut iterations = 0;
        let max_iterations = 200;

        complete_setup(&mut game);

        while !matches!(game.phase, GamePhase::Finished { .. }) && iterations < max_iterations {
            if matches!(game.phase, GamePhase::PreRoll) {
                let player = game.current_player;
                let _ = game.apply_action(player, GameAction::RollDice);
                iterations += 1;
                continue;
            }

            handle_special_phases(&mut game, 20);

            if matches!(game.phase, GamePhase::MainPhase) {
                let player = game.current_player;
                let _ = game.apply_action(player, GameAction::EndTurn);
            }

            iterations += 1;
        }

        assert!(iterations > 0, "Game {} should have run some iterations", seed);
    }
}

#[test]
fn test_victory_points_from_buildings() {
    let mut game = GameState::new(2, vec!["Alice".into(), "Bob".into()]);
    complete_setup(&mut game);

    for player in 0..2 {
        let vp = game.total_victory_points(player);
        assert_eq!(vp, 2, "Player {} should have 2 VP from settlements", player);
    }
}

#[test]
fn test_longest_road_minimum() {
    let game = GameState::new(2, vec!["Alice".into(), "Bob".into()]);

    for player in 0..2 {
        let road_length = game.board.longest_road(player);
        assert!(road_length < 5, "Initial road should be less than 5 segments");
        assert!(
            !game.players[player as usize].has_longest_road,
            "No one should have longest road award initially"
        );
    }
}
