use catan_rust::backend::game::{DevCard, DevCardInstance, Game, GamePhase, HarborType, Player, Resource, TurnPhase};
use catan_rust::backend::game::roads::longest_road;

fn give(game: &mut Game, p: usize, r: Resource, n: u8) {
    game.players[p].resources[r.index()] = n;
}

fn count(game: &Game, p: usize, r: Resource) -> u8 {
    game.players()[p].resources[r.index()]
}

/// A vertex with its first neighbor, on the board of `game`.
fn vertex_and_neighbor(game: &Game, v: usize) -> (usize, usize) {
    (v, game.vertices()[v].neighbors[0])
}

#[test]
fn new_player_starts_empty() {
    let p = Player::new(3, "Dana");
    assert_eq!(p.id, 3);
    assert_eq!(p.name, "Dana");
    assert_eq!(p.resources, vec![0, 0, 0, 0, 0, 0]);
    assert!(p.settlements.is_empty() && p.cities.is_empty() && p.roads.is_empty());
    assert_eq!(p.victory_points, 0);
    assert_eq!(p.knights_played, 0);
    assert_eq!(p.resource_count(Resource::Ore), 0);
}

#[test]
fn new_game_starts_in_setup() {
    let game = Game::new(vec!["Alice", "Bob", "Carol", "Dave"]);
    assert_eq!(game.player_count(), 4);
    assert_eq!(game.current(), 0);
    assert_eq!(game.game_phase, GamePhase::SetupRound1);
    assert_eq!(game.turn_phase, TurnPhase::RollResources);
    assert_eq!(game.players()[2].name, "Carol");
    assert!(game.is_well_formed());
    let knights = game.dev_card_pool.iter().filter(|c| **c == DevCard::Knight).count();
    assert_eq!(knights, 14);
    let points = game.dev_card_pool.iter().filter(|c| **c == DevCard::VictoryPoint).count();
    assert_eq!(points, 5);
}

#[test]
fn settlement_takes_the_vertex() {
    let mut game = Game::new(vec!["Alice", "Bob"]);
    let (v, n) = vertex_and_neighbor(&game, 10);
    assert_eq!(game.build_settlement(0, v), Ok(()));
    assert!(game.vertex_occupied(v));
    assert_eq!(game.players()[0].victory_points, 1);
    assert_eq!(game.players()[0].last_setup_settlement, Some(v));
    assert_eq!(game.build_settlement(1, v), Err("Vertex is already occupied"));
    assert_eq!(game.build_settlement(0, v), Err("Vertex is already occupied"));
    assert_eq!(game.build_settlement(1, n), Err("Too close to another settlement or city"));
}

#[test]
fn setup_roads_follow_the_settlement() {
    let mut game = Game::new(vec!["Alice", "Bob"]);
    let (v, n) = vertex_and_neighbor(&game, 10);
    let (w, _m) = vertex_and_neighbor(&game, 40);
    assert_eq!(game.build_road(0, v, n), Err("Road must be connected to your existing infrastructure (settlement, city, or road)"));
    assert_eq!(game.build_settlement(0, v), Ok(()));
    // The settlement is placed; the road comes next.
    assert_eq!(game.setup_placement, 1);
    assert_eq!(game.build_settlement(0, w), Err("Must build road after settlement"));
    assert_eq!(game.build_settlement(1, w), Err("Must build road after settlement"));
    let other = game.vertices()[w].neighbors[0];
    assert_eq!(game.build_road(0, w, other), Err("Road must be connected to your existing infrastructure (settlement, city, or road)"));
    // The road from the settlement ends the first player's step.
    assert_eq!(game.build_road(0, v, n), Ok(()));
    assert_eq!(game.players()[0].roads, vec![Game::normalize_road(v, n)]);
    assert_eq!(game.setup_placement, 0);
    assert_eq!(game.current(), 1);
    assert_eq!(game.build_road(0, n, v), Err("Road already exists"));
}

#[test]
fn road_needs_adjacent_vertices() {
    let mut game = Game::new(vec!["Alice", "Bob"]);
    assert_eq!(game.build_settlement(0, 0), Ok(()));
    let not_neighbor = (1..game.vertex_count()).find(|&x| !game.vertices()[0].neighbors.contains(&x)).unwrap();
    assert_eq!(game.build_road(0, 0, not_neighbor), Err("Vertices not adjacent"));
}

#[test]
fn setup_order_snakes_back() {
    let mut game = Game::new(vec!["Alice", "Bob"]);
    let spots = [0usize, 20, 35, 50];
    let mut k = 0;
    // Round one: Alice then Bob; round two: Bob then Alice; then normal play.
    for expected in [0usize, 1, 1, 0] {
        assert_eq!(game.current(), expected);
        let v = spots[k];
        k += 1;
        assert_eq!(game.build_settlement(expected, v), Ok(()));
        assert_eq!(game.setup_placement, 1);
        let n = game.vertices()[v].neighbors[0];
        assert_eq!(game.build_road(expected, v, n), Ok(()));
        assert_eq!(game.setup_placement, 0);
    }
    assert_eq!(game.game_phase, GamePhase::NormalPlay);
    assert_eq!(game.current(), 0);
}

#[test]
fn city_replaces_settlement() {
    let mut game = Game::new(vec!["Alice", "Bob"]);
    assert_eq!(game.build_settlement(0, 5), Ok(()));
    game.game_phase = GamePhase::NormalPlay;
    assert_eq!(game.build_city(0, 5), Err("Not enough resources"));
    assert_eq!(game.build_city(0, 30), Err("No settlement to upgrade on this vertex"));
    assert_eq!(game.build_city(1, 5), Err("This vertex is already occupied by another player"));
    give(&mut game, 0, Resource::Grain, 2);
    give(&mut game, 0, Resource::Ore, 3);
    assert_eq!(game.build_city(0, 5), Ok(()));
    assert!(!game.players()[0].settlements.contains(&5));
    assert!(game.players()[0].cities.contains(&5));
    assert_eq!(game.players()[0].victory_points, 2);
    assert_eq!(count(&game, 0, Resource::Grain), 0);
    assert_eq!(count(&game, 0, Resource::Ore), 0);
    assert!(game.vertex_occupied(5));
    assert_eq!(game.build_city(0, 5), Err("No settlement to upgrade on this vertex"));
}

#[test]
fn settlement_in_normal_play_needs_road_and_cards() {
    let mut game = Game::new(vec!["Alice", "Bob"]);
    game.game_phase = GamePhase::NormalPlay;
    assert_eq!(game.build_settlement(0, 12), Err("Settlement must be connected to your road"));
    let n = game.vertices()[12].neighbors[0];
    game.players[0].roads.push(Game::normalize_road(12, n));
    assert_eq!(game.build_settlement(0, 12), Err("Not enough resources"));
    for r in [Resource::Brick, Resource::Lumber, Resource::Wool, Resource::Grain] {
        give(&mut game, 0, r, 1);
    }
    assert_eq!(game.build_settlement(0, 12), Ok(()));
    for r in [Resource::Brick, Resource::Lumber, Resource::Wool, Resource::Grain] {
        assert_eq!(count(&game, 0, r), 0);
    }
}

#[test]
fn maritime_trade_four_for_one() {
    let mut game = Game::new(vec!["Alice", "Bob"]);
    assert_eq!(game.maritime_trade_ratio(0, Resource::Brick), 4);
    give(&mut game, 0, Resource::Brick, 3);
    assert_eq!(game.maritime_trade(0, Resource::Brick, Resource::Ore), Err("Not enough resources"));
    give(&mut game, 0, Resource::Brick, 5);
    assert_eq!(game.maritime_trade(0, Resource::Brick, Resource::Ore), Ok(()));
    assert_eq!(count(&game, 0, Resource::Brick), 1);
    assert_eq!(count(&game, 0, Resource::Ore), 1);
}

#[test]
fn maritime_trade_harbor_ratios() {
    let mut game = Game::new(vec!["Alice", "Bob"]);
    let loc = game.harbors()[0].loc0;
    let htype = game.harbors()[0].htype;
    game.players[0].settlements.push(loc);
    for r in [Resource::Brick, Resource::Lumber, Resource::Wool, Resource::Grain, Resource::Ore] {
        let expected = match htype {
            HarborType::Generic => 3,
            HarborType::Resource(h) => if h == r { 2 } else { 4 },
        };
        assert_eq!(game.maritime_trade_ratio(0, r), expected);
    }
}

#[test]
fn player_trade_moves_cards() {
    let mut game = Game::new(vec!["Alice", "Bob"]);
    assert_eq!(game.player_trade(0, 0, Resource::Brick, 1, Resource::Ore, 1), Err("vendor and customer cannot be the same"));
    give(&mut game, 0, Resource::Brick, 3);
    give(&mut game, 1, Resource::Ore, 1);
    assert_eq!(game.player_trade(0, 1, Resource::Brick, 2, Resource::Ore, 2), Err("Not enough resources"));
    assert_eq!(game.player_trade(0, 1, Resource::Brick, 2, Resource::Ore, 1), Ok(()));
    assert_eq!(count(&game, 0, Resource::Brick), 1);
    assert_eq!(count(&game, 1, Resource::Brick), 2);
    assert_eq!(count(&game, 0, Resource::Ore), 1);
    assert_eq!(count(&game, 1, Resource::Ore), 0);
    // Every kind is conserved across the two hands.
    for r in [Resource::Brick, Resource::Lumber, Resource::Wool, Resource::Grain, Resource::Ore] {
        let before = if r == Resource::Brick { 3 } else if r == Resource::Ore { 1 } else { 0 };
        assert_eq!(count(&game, 0, r) + count(&game, 1, r), before);
    }
}

#[test]
fn buy_dev_card_pays_and_draws() {
    let mut game = Game::new(vec!["Alice", "Bob"]);
    assert_eq!(game.buy_dev_card(0), Err("Not enough resources"));
    for r in [Resource::Wool, Resource::Grain, Resource::Ore] {
        give(&mut game, 0, r, 1);
    }
    let top = *game.dev_card_pool.last().unwrap();
    assert_eq!(game.buy_dev_card(0), Ok(()));
    assert_eq!(game.dev_card_pool.len(), 24);
    assert_eq!(game.players()[0].dev_cards.len(), 1);
    assert_eq!(game.players()[0].dev_cards[0].card, top);
    assert_eq!(game.players()[0].dev_cards[0].age, if top == DevCard::VictoryPoint { 1 } else { 0 });
    for r in [Resource::Wool, Resource::Grain, Resource::Ore] {
        assert_eq!(count(&game, 0, r), 0);
    }
}

#[test]
fn buy_dev_card_from_empty_pool_keeps_payment() {
    let mut game = Game::new(vec!["Alice", "Bob"]);
    game.dev_card_pool.clear();
    for r in [Resource::Wool, Resource::Grain, Resource::Ore] {
        give(&mut game, 0, r, 1);
    }
    assert_eq!(game.buy_dev_card(0), Err("Dev card pool is depleted"));
    assert_eq!(count(&game, 0, Resource::Ore), 0);
}

#[test]
fn dev_card_errors() {
    let mut game = Game::new(vec!["Alice", "Bob"]);
    game.players[0].dev_cards.push(DevCardInstance { card: DevCard::VictoryPoint, age: 1 });
    assert_eq!(game.play_dev_card(0, 0), Err("Cannot play dev cards during setup"));
    game.game_phase = GamePhase::NormalPlay;
    assert_eq!(game.play_dev_card(0, 3), Err("Invalid dev card index"));
    game.players[0].dev_cards.push(DevCardInstance { card: DevCard::Knight, age: 0 });
    assert_eq!(game.play_dev_card(0, 1), Err("Cannot use this card yet"));
    assert_eq!(game.play_dev_card(0, 0), Ok(()));
    assert_eq!(game.players()[0].victory_points, 1);
    assert_eq!(game.players()[0].dev_cards.len(), 1);
}

#[test]
fn monopoly_and_year_of_plenty() {
    let mut game = Game::new(vec!["Alice", "Bob", "Carol"]);
    game.game_phase = GamePhase::NormalPlay;
    give(&mut game, 1, Resource::Ore, 3);
    give(&mut game, 2, Resource::Ore, 2);
    give(&mut game, 0, Resource::Ore, 1);
    game.players[0].dev_cards.push(DevCardInstance { card: DevCard::Monopoly, age: 1 });
    game.players[0].dev_cards.push(DevCardInstance { card: DevCard::YearOfPlenty, age: 1 });
    assert_eq!(game.play_dev_card(0, 0), Ok(()));
    assert_eq!(count(&game, 0, Resource::Ore), 6);
    assert_eq!(count(&game, 1, Resource::Ore), 0);
    assert_eq!(count(&game, 2, Resource::Ore), 0);
    assert_eq!(game.play_dev_card(0, 0), Ok(()));
    assert_eq!(count(&game, 0, Resource::Ore), 7);
    assert_eq!(count(&game, 0, Resource::Wool), 1);
}

#[test]
fn knights_win_the_largest_army() {
    let mut game = Game::new(vec!["Alice", "Bob"]);
    game.game_phase = GamePhase::NormalPlay;
    for _ in 0..3 {
        game.players[0].dev_cards.push(DevCardInstance { card: DevCard::Knight, age: 1 });
    }
    let robber = game.robber_tile;
    assert_eq!(game.play_dev_card(0, 0), Ok(()));
    assert_ne!(game.robber_tile, robber);
    assert_eq!(game.play_dev_card(0, 0), Ok(()));
    assert_eq!(game.largest_army_holder(), None);
    assert_eq!(game.play_dev_card(0, 0), Ok(()));
    assert_eq!(game.players()[0].knights_played, 3);
    assert_eq!(game.largest_army_holder(), Some(0));
    assert_eq!(game.players()[0].victory_points, 2);
    // The holder has played at least three knights.
    let holder = game.largest_army_holder().unwrap();
    assert!(game.players()[holder].knights_played >= 3);
}

#[test]
fn longest_road_of_a_path_and_a_cycle() {
    assert_eq!(longest_road(&vec![]), 0);
    assert_eq!(longest_road(&vec![(0, 1), (1, 2), (2, 3)]), 3);
    assert_eq!(longest_road(&vec![(0, 1), (1, 2), (1, 3)]), 2);
    // A cycle of six roads can be walked all the way round.
    assert_eq!(longest_road(&vec![(0, 1), (1, 2), (2, 3), (3, 4), (4, 5), (0, 5)]), 6);
    assert_eq!(longest_road(&vec![(0, 1), (5, 6)]), 1);
}

#[test]
fn longest_road_award_after_five_roads() {
    let mut game = Game::new(vec!["Alice", "Bob"]);
    game.game_phase = GamePhase::NormalPlay;
    game.players[0].roads = vec![(0, 1), (1, 2), (2, 3), (3, 4)];
    assert_eq!(game.longest_road_for_player(0), 4);
    game.players[0].roads.push((4, 5));
    game.update_longest_road(0);
    assert_eq!(game.longest_road_holder(), Some(0));
    assert_eq!(game.longest_road_length, 5);
    assert_eq!(game.players()[0].victory_points, 2);
}

#[test]
fn normalize_road_orders_ends() {
    assert_eq!(Game::normalize_road(7, 3), (3, 7));
    assert_eq!(Game::normalize_road(3, 7), (3, 7));
    assert_eq!(Game::normalize_road(4, 4), (4, 4));
}

#[test]
fn turns_go_round_the_table() {
    let mut game = Game::new(vec!["Alice", "Bob", "Carol"]);
    game.players[1].dev_cards.push(DevCardInstance { card: DevCard::Knight, age: 0 });
    for expected in [1usize, 2, 0, 1] {
        game.next_turn();
        assert_eq!(game.current(), expected);
        assert_eq!(game.turn_phase, TurnPhase::RollResources);
    }
    assert_eq!(game.players()[1].dev_cards[0].age, 4);
}

#[test]
fn four_phases_make_a_turn() {
    let mut game = Game::new(vec!["Alice", "Bob"]);
    let mut phases = vec![];
    for _ in 0..4 {
        game.next_phase();
        phases.push(game.turn_phase);
    }
    assert_eq!(phases, vec![TurnPhase::Trade, TurnPhase::Build, TurnPhase::EndTurn, TurnPhase::RollResources]);
    assert_eq!(game.current(), 1);
    game.end_turn();
    assert_eq!(game.turn_phase, TurnPhase::EndTurn);
    game.start_turn();
    assert_eq!(game.turn_phase, TurnPhase::RollResources);
}

#[test]
fn winner_at_ten_points() {
    let mut game = Game::new(vec!["Alice", "Bob"]);
    assert_eq!(game.check_for_winner(), None);
    game.players[0].victory_points = 9;
    assert_eq!(game.check_for_winner(), None);
    game.players[0].victory_points = 10;
    assert_eq!(game.check_for_winner(), Some(0));
    game.next_turn();
    assert_eq!(game.check_for_winner(), None);
}

#[test]
fn roll_is_between_two_and_twelve() {
    let mut game = Game::new(vec!["Alice", "Bob"]);
    game.game_phase = GamePhase::NormalPlay;
    assert!(game.can_roll());
    let mut seen = std::collections::HashSet::new();
    for _ in 0..60 {
        let total = game.roll_dice();
        assert!((2..=12).contains(&total));
        seen.insert(total);
    }
    assert!(seen.len() > 3);
}

#[test]
fn harvest_pays_settlements_and_cities() {
    let mut game = Game::new(vec!["Alice", "Bob"]);
    let t = (0..game.tiles().len()).find(|&t| t != game.robber_tile && game.tiles()[t].number_token.is_some()).unwrap();
    let tile = game.tiles()[t];
    let roll = tile.number_token.unwrap();
    let others = (0..game.tiles().len()).filter(|&u| u != t && u != game.robber_tile && game.tiles()[u].number_token == Some(roll));
    let extra: Vec<usize> = others.collect();
    game.players[0].settlements.push(tile.vertices[0]);
    game.players[1].cities.push(tile.vertices[3]);
    // Nobody else has buildings, so only this tile pays (another tile with the same number
    // pays only where these two corners also lie).
    let before0 = count(&game, 0, tile.resource);
    let before1 = count(&game, 1, tile.resource);
    assert!(game.harvest_fits_now(roll));
    game.distribute_resources(roll);
    let shared0 = extra.iter().filter(|&&u| game.tiles()[u].vertices.contains(&tile.vertices[0]) && game.tiles()[u].resource == tile.resource).count() as u8;
    let shared1 = extra.iter().filter(|&&u| game.tiles()[u].vertices.contains(&tile.vertices[3]) && game.tiles()[u].resource == tile.resource).count() as u8;
    assert_eq!(count(&game, 0, tile.resource), before0 + 1 + shared0);
    assert_eq!(count(&game, 1, tile.resource), before1 + 2 + 2 * shared1);
}

#[test]
fn robbery_halves_large_hands() {
    let mut game = Game::new(vec!["Alice", "Bob"]);
    give(&mut game, 0, Resource::Brick, 6);
    give(&mut game, 0, Resource::Ore, 4);
    give(&mut game, 1, Resource::Wool, 7);
    game.robbery();
    let total0: u32 = game.players()[0].resources.iter().map(|&c| c as u32).sum();
    // Ten cards lose exactly five: two whole rounds (two of each kind), then one more card
    // of whichever kind comes first in the shuffled order.
    assert_eq!(total0, 5);
    let brick = count(&game, 0, Resource::Brick);
    let ore = count(&game, 0, Resource::Ore);
    assert!((brick == 3 && ore == 2) || (brick == 4 && ore == 1));
    assert_eq!(count(&game, 1, Resource::Wool), 7);
}

#[test]
fn robbery_nine_cards_leave_five() {
    let mut game = Game::new(vec!["Alice", "Bob"]);
    give(&mut game, 0, Resource::Brick, 3);
    give(&mut game, 0, Resource::Lumber, 3);
    give(&mut game, 0, Resource::Wool, 3);
    give(&mut game, 1, Resource::Ore, 7);
    game.robbery();
    let total0: u32 = game.players()[0].resources.iter().map(|&c| c as u32).sum();
    assert_eq!(total0, 5);
    for r in [Resource::Brick, Resource::Lumber, Resource::Wool] {
        let c = count(&game, 0, r);
        assert!(c == 1 || c == 2);
    }
    assert_eq!(count(&game, 1, Resource::Ore), 7);
    let total1: u32 = game.players()[1].resources.iter().map(|&c| c as u32).sum();
    assert_eq!(total1, 7);
}

#[test]
fn well_formed_and_limits() {
    let mut game = Game::new(vec!["Alice", "Bob"]);
    assert!(game.is_well_formed());
    assert!(game.build_limits_ok());
    assert!(game.can_age_cards());
    game.players[1].victory_points = 254;
    assert!(!game.build_limits_ok());
    game.players[1].id = 5;
    assert!(game.is_well_formed());
    game.players[1].cities.push(7);
    assert!(!game.is_well_formed());
}

#[test]
fn add_player_seats_at_the_end() {
    let mut game = Game::new(vec!["Alice", "Bob"]);
    game.add_player(2, "Player 2");
    assert_eq!(game.player_count(), 3);
    assert_eq!(game.players()[2].name, "Player 2");
    assert!(game.is_well_formed());
    // A repeated number is harmless while that seat owns nothing.
    game.add_player(0, "Player 0");
    assert!(game.is_well_formed());
    game.players[3].settlements.push(40);
    assert!(!game.is_well_formed());
}

#[test]
fn refused_requests_change_nothing() {
    let mut game = Game::new(vec!["Alice", "Bob"]);
    game.game_phase = GamePhase::NormalPlay;
    give(&mut game, 0, Resource::Brick, 2);
    let hand = game.players()[0].resources.clone();
    assert!(game.build_settlement(0, 3).is_err());
    assert!(game.build_city(0, 3).is_err());
    assert!(game.build_road(0, 3, game.vertices()[3].neighbors[0]).is_err());
    assert!(game.maritime_trade(0, Resource::Brick, Resource::Ore).is_err());
    assert!(game.player_trade(0, 1, Resource::Brick, 3, Resource::Ore, 0).is_err());
    assert!(game.buy_dev_card(0).is_err());
    assert_eq!(game.players()[0].resources, hand);
    assert!(game.players()[0].settlements.is_empty() && game.players()[0].roads.is_empty());
    assert_eq!(game.dev_card_pool.len(), 25);
}

#[test]
fn bought_card_waits_a_turn() {
    let mut game = Game::new(vec!["Alice", "Bob"]);
    game.game_phase = GamePhase::NormalPlay;
    // Put a knight on top of the pool.
    game.dev_card_pool.push(DevCard::Knight);
    for r in [Resource::Wool, Resource::Grain, Resource::Ore] {
        give(&mut game, 0, r, 1);
    }
    assert_eq!(game.buy_dev_card(0), Ok(()));
    assert_eq!(game.play_dev_card(0, 0), Err("Cannot use this card yet"));
    game.next_turn();
    assert_eq!(game.play_dev_card(0, 0), Ok(()));
    assert_eq!(game.players()[0].knights_played, 1);
}

#[test]
fn setup_takes_two_rounds_in_snake_order() {
    let mut game = Game::new(vec!["A", "B", "C"]);
    let mut order = vec![];
    let spots = [0usize, 15, 30, 45, 52, 24];
    for (k, &v) in spots.iter().enumerate() {
        let p = game.current();
        order.push(p);
        assert_eq!(game.build_settlement(p, v), Ok(()), "step {}", k);
        assert!(game.build_settlement(p, spots[(k + 3) % 6]).is_err());
        let n1 = game.vertices()[v].neighbors[0];
        assert_eq!(game.build_road(p, v, n1), Ok(()));
    }
    assert_eq!(order, vec![0, 1, 2, 2, 1, 0]);
    assert_eq!(game.game_phase, GamePhase::NormalPlay);
}
