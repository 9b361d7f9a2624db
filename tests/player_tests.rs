use catan_core::player::costs::{city, development_card, road, settlement};
use catan_core::{DevelopmentCard, Player, PlayerColor, Resource, ResourceHand};

#[test]
fn test_resource_hand_total() {
    let hand = ResourceHand::with_amounts(1, 2, 3, 4, 5);
    assert_eq!(hand.total(), 15);
}

#[test]
fn test_resource_hand_can_afford() {
    let hand = ResourceHand::with_amounts(2, 2, 2, 2, 2);
    let cost = ResourceHand::with_amounts(1, 1, 1, 1, 1);
    assert!(hand.can_afford(&cost));

    let expensive = ResourceHand::with_amounts(3, 0, 0, 0, 0);
    assert!(!hand.can_afford(&expensive));
}

#[test]
fn test_resource_hand_subtract() {
    let mut hand = ResourceHand::with_amounts(3, 3, 3, 3, 3);
    let cost = ResourceHand::with_amounts(1, 1, 1, 1, 1);
    hand.subtract(&cost);
    assert_eq!(hand, ResourceHand::with_amounts(2, 2, 2, 2, 2));
}

#[test]
fn test_building_costs() {
    assert_eq!(road().total(), 2);
    assert_eq!(settlement().total(), 4);
    assert_eq!(city().total(), 5);
    assert_eq!(development_card().total(), 3);
}

#[test]
fn player_test_dev_card_deck_size() {
    let deck = DevelopmentCard::standard_deck();
    assert_eq!(deck.len(), 25);

    let knights = deck
        .iter()
        .filter(|c| matches!(c, DevelopmentCard::Knight))
        .count();
    assert_eq!(knights, 14);
}

#[test]
fn test_player_victory_points() {
    let mut player = Player::new(0, "Test".to_string());

    assert_eq!(player.victory_points(), 0);

    player.has_longest_road = true;
    assert_eq!(player.victory_points(), 2);

    player.has_largest_army = true;
    assert_eq!(player.victory_points(), 4);

    player.dev_cards.push(DevelopmentCard::VictoryPoint);
    assert_eq!(player.victory_points(), 5);
}

#[test]
fn test_player_buy_road() {
    let mut player = Player::new(0, "Test".to_string());
    player.resources = ResourceHand::with_amounts(5, 5, 5, 5, 5);

    assert!(player.can_afford_road());
    player.buy_road();
    assert_eq!(player.roads_remaining, 14);
    assert_eq!(player.resources.brick, 4);
    assert_eq!(player.resources.lumber, 4);
}

#[test]
fn test_player_buy_city() {
    let mut player = Player::new(0, "Test".to_string());
    player.resources = ResourceHand::with_amounts(5, 5, 5, 5, 5);
    player.settlements_remaining = 3;

    player.buy_city();
    assert_eq!(player.cities_remaining, 3);
    assert_eq!(player.settlements_remaining, 4);
}

#[test]
fn test_dev_card_bought_this_turn() {
    let mut player = Player::new(0, "Test".to_string());
    player.resources = ResourceHand::with_amounts(5, 5, 5, 5, 5);

    player.buy_dev_card(DevelopmentCard::Knight);

    assert!(!player.has_playable_dev_card(DevelopmentCard::Knight));
    assert_eq!(player.dev_cards_bought_this_turn.len(), 1);

    player.end_turn();

    assert!(player.has_playable_dev_card(DevelopmentCard::Knight));
    assert!(player.dev_cards_bought_this_turn.is_empty());
}

#[test]
fn test_steal_random() {
    let mut hand = ResourceHand::with_amounts(0, 0, 0, 1, 0);

    let stolen = hand.steal_random();
    assert_eq!(stolen, Some(Resource::Grain));
    assert!(hand.is_empty());
}

#[test]
fn stealing_from_an_empty_hand_takes_nothing() {
    let mut hand = ResourceHand::new();
    assert_eq!(hand.steal_random(), None);
    assert_eq!(hand, ResourceHand::new());
}

#[test]
fn stealing_takes_exactly_one_card() {
    let mut hand = ResourceHand::with_amounts(3, 0, 0, 0, 1);
    let stolen = hand.steal_random().unwrap();
    assert_eq!(hand.total(), 3);
    assert!(stolen == Resource::Brick || stolen == Resource::Wool);
}

#[test]
fn cards_are_laid_out_by_resource() {
    let mut hand = ResourceHand::with_amounts(3, 0, 0, 0, 1);
    assert_eq!(hand.take_card(2), Resource::Brick);
    assert_eq!(hand, ResourceHand::with_amounts(2, 0, 0, 0, 1));
    assert_eq!(hand.take_card(2), Resource::Wool);
    assert_eq!(hand, ResourceHand::with_amounts(2, 0, 0, 0, 0));
}

#[test]
fn try_subtract_leaves_hand_when_short() {
    let mut hand = ResourceHand::with_amounts(1, 0, 0, 0, 0);
    assert!(!hand.try_subtract(&road()));
    assert_eq!(hand, ResourceHand::with_amounts(1, 0, 0, 0, 0));
    hand.add(Resource::Lumber, 2);
    assert!(hand.try_subtract(&road()));
    assert_eq!(hand, ResourceHand::with_amounts(0, 1, 0, 0, 0));
}

#[test]
fn hand_helpers() {
    let mut hand = ResourceHand::single(Resource::Ore, 3);
    assert_eq!(hand.get(Resource::Ore), 3);
    hand.set(Resource::Wool, 2);
    hand.add_hand(&ResourceHand::with_amounts(1, 0, 1, 0, 0));
    assert_eq!(hand, ResourceHand::with_amounts(1, 0, 4, 0, 2));
    assert_eq!(hand.to_map(), vec![(Resource::Brick, 1), (Resource::Ore, 4), (Resource::Wool, 2)]);
}

#[test]
fn playing_a_card_removes_the_first_one() {
    let mut player = Player::new(1, "P".to_string());
    player.dev_cards = vec![DevelopmentCard::Monopoly, DevelopmentCard::Knight, DevelopmentCard::Knight];
    assert!(player.play_dev_card(DevelopmentCard::Knight));
    assert_eq!(player.dev_cards, vec![DevelopmentCard::Monopoly, DevelopmentCard::Knight]);
    assert_eq!(player.played_knights, 1);
    assert!(!player.play_dev_card(DevelopmentCard::YearOfPlenty));
    assert_eq!(player.dev_cards.len(), 2);
    assert_eq!(player.hidden_vp(), 0);
}

#[test]
fn colours_by_seat() {
    assert_eq!(PlayerColor::for_player(0), PlayerColor::Red);
    assert_eq!(PlayerColor::for_player(5), PlayerColor::Blue);
    assert_eq!(PlayerColor::Orange.hex_code(), 0xE67E22);
    assert!(!DevelopmentCard::VictoryPoint.is_playable());
    assert!(DevelopmentCard::Knight.is_playable());
}

#[test]
fn shuffled_deck_keeps_its_cards() {
    let mut deck = DevelopmentCard::standard_deck();
    DevelopmentCard::shuffle_deck(&mut deck);
    assert_eq!(deck.len(), 25);
    let vp = deck.iter().filter(|c| **c == DevelopmentCard::VictoryPoint).count();
    assert_eq!(vp, 5);
}

#[test]
fn shuffling_changes_the_order() {
    let standard = DevelopmentCard::standard_deck();
    let mut changed = false;
    for _ in 0..10 {
        let mut deck = DevelopmentCard::standard_deck();
        DevelopmentCard::shuffle_deck(&mut deck);
        if deck != standard {
            changed = true;
            break;
        }
    }
    assert!(changed);
}
