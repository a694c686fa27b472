use catan_rust::backend::game::{DevCard, DevCardInput, DevCardInstance, Game, GamePhase, Resource};
use catan_rust::backend::networking::protocol::ClientMessage;
use catan_rust::frontend::interface::endscreen::{check_for_endgame, format_resources, player_name, EndscreenState, PlayerStats};
use catan_rust::frontend::interface::game_panel::{
    buildable_city_vertices, buildable_road_edges, buildable_settlement_vertices, calculate_builds, dev_card_input,
    is_standard_board, player_color_rgb, robbable_players, select_ghost_edge, track_road_vertex, BuildingMode,
    DevCardPlayState, RoadBuildingState,
};
use catan_rust::frontend::screen::GameState;
use catan_rust::frontend::system::multiplayer::{handle_multiplayer_action, HostState, MultiplayerAction};
use catan_rust::frontend::system::transition::{handle_network_transition, NetworkTransition};
use catan_rust::frontend::visual::cards::{clicked_card, count_cards, owned_dev_cards, owned_resources, CardShowing};
use catan_rust::frontend::visual::icons::{RulesWindowState, SettingsWindowState, VolumeWindowState};
use catan_rust::text::decimal_string;

fn stats(id: usize, name: &str) -> PlayerStats {
    PlayerStats { id, name: name.to_string(), victory_points: 0, settlements: 0, cities: 0, roads: 0, resources: vec![0; 6] }
}

#[test]
fn decimal_numbers() {
    assert_eq!(decimal_string(0), "0");
    assert_eq!(decimal_string(7), "7");
    assert_eq!(decimal_string(42), "42");
    assert_eq!(decimal_string(255), "255");
    assert_eq!(decimal_string(1000), "1000");
}

#[test]
fn resources_are_formatted_in_order() {
    assert_eq!(format_resources(&vec![1, 2, 3, 4, 15, 0]), "Brick: 1, Lumber: 2, Wool: 3, Grain: 4, Ore: 15");
    assert_eq!(format_resources(&vec![0, 0, 0, 0, 0, 0]), "Brick: 0, Lumber: 0, Wool: 0, Grain: 0, Ore: 0");
}

#[test]
fn names_found_by_number() {
    let s = vec![stats(2, "Bob"), stats(0, "Alice"), stats(2, "Other")];
    assert_eq!(player_name(&s, Some(2)), Some("Bob"));
    assert_eq!(player_name(&s, Some(0)), Some("Alice"));
    assert_eq!(player_name(&s, Some(5)), None);
    assert_eq!(player_name(&s, None), None);
}

#[test]
fn endgame_records_the_winner_once() {
    let mut game = Game::new(vec!["Alice", "Bob"]);
    let mut state = EndscreenState::default();
    assert_eq!(check_for_endgame(&game, &mut state), None);
    assert_eq!(state.stats.len(), 2);
    assert_eq!(state.stats[1].name, "Bob");
    assert_eq!(state.winner_id, None);
    game.players[1].victory_points = 10;
    game.players[1].settlements.push(4);
    assert_eq!(check_for_endgame(&game, &mut state), Some(GameState::EndScreen));
    assert_eq!(state.winner_id, Some(1));
    assert_eq!(state.stats[1].settlements, 1);
    assert_eq!(state.stats[1].victory_points, 10);
    game.players[0].victory_points = 12;
    assert_eq!(check_for_endgame(&game, &mut state), None);
    assert_eq!(state.winner_id, Some(1));
    state.show_stats = true;
    state.reset();
    assert_eq!(state.winner_id, None);
    assert!(state.stats.is_empty());
    assert!(!state.show_stats);
}

#[test]
fn player_colors() {
    assert_eq!(player_color_rgb(0), (200, 50, 50));
    assert_eq!(player_color_rgb(1), (50, 100, 200));
    assert_eq!(player_color_rgb(2), (50, 200, 50));
    assert_eq!(player_color_rgb(3), (220, 200, 50));
    assert_eq!(player_color_rgb(9), (255, 255, 255));
}

#[test]
fn settlement_spots_respect_distance() {
    let mut game = Game::new(vec!["Alice", "Bob"]);
    assert!(is_standard_board(&game));
    let all = buildable_settlement_vertices(&game, 0, true);
    assert_eq!(all.len(), 54);
    let none = buildable_settlement_vertices(&game, 0, false);
    assert!(none.is_empty());
    game.build_settlement(0, 10).unwrap();
    let spots = buildable_settlement_vertices(&game, 1, true);
    assert!(!spots.contains(&10));
    for n in &game.vertices()[10].neighbors {
        assert!(!spots.contains(n));
    }
    assert_eq!(spots.len(), 54 - 1 - game.vertices()[10].neighbors.len());
}

#[test]
fn city_spots_are_settlements() {
    let mut game = Game::new(vec!["Alice", "Bob"]);
    game.players[0].settlements = vec![3, 9];
    game.players[0].cities = vec![9];
    let spots = buildable_city_vertices(&game, 0);
    assert_eq!(spots.len(), 1);
    assert!(spots.contains(&3));
    game.players[0].cities = vec![20, 21, 22, 23];
    assert!(buildable_city_vertices(&game, 0).is_empty());
}

#[test]
fn road_spots_touch_the_required_vertex() {
    let mut game = Game::new(vec!["Alice", "Bob"]);
    assert!(buildable_road_edges(&game, 0, true, None).is_empty());
    let edges = buildable_road_edges(&game, 0, true, Some(10));
    assert_eq!(edges.len(), game.vertices()[10].neighbors.len());
    for (a, b) in &edges {
        assert!(a < b && (*a == 10 || *b == 10));
    }
    assert!(buildable_road_edges(&game, 0, false, None).is_empty());
    let n = game.vertices()[10].neighbors[0];
    game.players[1].roads.push(Game::normalize_road(10, n));
    game.players[0].settlements.push(10);
    let edges = buildable_road_edges(&game, 0, false, None);
    assert_eq!(edges.len(), game.vertices()[10].neighbors.len() - 1);
    assert!(!edges.contains(&Game::normalize_road(10, n)));
    let all = buildable_road_edges(&game, 0, true, Some(0));
    let mut sorted = all.clone();
    sorted.sort();
    sorted.dedup();
    assert_eq!(sorted.len(), all.len());
}

#[test]
fn builds_follow_the_mode() {
    let mut game = Game::new(vec!["Alice", "Bob"]);
    let (v, e) = calculate_builds(&game, 0, true, 0, BuildingMode::Idle, false);
    assert_eq!(v.len(), 54);
    assert!(e.is_empty());
    game.build_settlement(0, 10).unwrap();
    let (v, e) = calculate_builds(&game, 0, true, 1, BuildingMode::Idle, false);
    assert!(v.is_empty());
    assert_eq!(e.len(), game.vertices()[10].neighbors.len());
    game.game_phase = GamePhase::NormalPlay;
    let (v, e) = calculate_builds(&game, 0, false, 0, BuildingMode::UpgradingCity, false);
    assert!(v.contains(&10) && v.len() == 1);
    assert!(e.is_empty());
    let (v, e) = calculate_builds(&game, 0, false, 0, BuildingMode::Idle, true);
    assert!(v.is_empty());
    assert_eq!(e.len(), game.vertices()[10].neighbors.len());
}

#[test]
fn ghost_edge_prefers_selection() {
    let buildable = vec![(1, 2), (2, 3), (4, 5)];
    assert_eq!(select_ghost_edge(&vec![2, 1], None, Some((4, 5)), &buildable), Some((1, 2)));
    assert_eq!(select_ghost_edge(&vec![1, 3], None, Some((4, 5)), &buildable), Some((4, 5)));
    assert_eq!(select_ghost_edge(&vec![3], Some(2), None, &buildable), Some((2, 3)));
    assert_eq!(select_ghost_edge(&vec![3], Some(9), Some((6, 7)), &buildable), None);
    assert_eq!(select_ghost_edge(&vec![], None, None, &buildable), None);
}

#[test]
fn road_selection_keeps_last_two() {
    let mut state = RoadBuildingState::default();
    track_road_vertex(&mut state, 4);
    track_road_vertex(&mut state, 5);
    assert_eq!(state.last_two_vertices, vec![4, 5]);
    track_road_vertex(&mut state, 6);
    assert_eq!(state.last_two_vertices, vec![5, 6]);
}

#[test]
fn card_inputs_from_choices() {
    let mut state = DevCardPlayState::default();
    assert_eq!(dev_card_input(DevCard::Knight, &state), DevCardInput::Empty);
    state.selected_tile = Some(4);
    state.selected_victim = Some(1);
    assert_eq!(dev_card_input(DevCard::Knight, &state), DevCardInput::Knight { tile: 4, victim: Some(1) });
    state.selected_resource = Some(Resource::Grain);
    assert_eq!(dev_card_input(DevCard::Monopoly, &state), DevCardInput::Monopoly { resource: Resource::Grain });
    state.road_building_roads = vec![(1, 2)];
    assert_eq!(dev_card_input(DevCard::RoadBuilding, &state), DevCardInput::Empty);
    state.road_building_roads.push((2, 3));
    assert_eq!(dev_card_input(DevCard::RoadBuilding, &state), DevCardInput::RoadBuilding { r1: (1, 2), r2: (2, 3) });
    state.year_resources = vec![Resource::Ore, Resource::Wool];
    assert_eq!(dev_card_input(DevCard::YearOfPlenty, &state), DevCardInput::YearOfPlenty { r1: Resource::Ore, r2: Resource::Wool });
    assert_eq!(dev_card_input(DevCard::VictoryPoint, &state), DevCardInput::Empty);
}

#[test]
fn robber_victims_on_a_tile() {
    let mut game = Game::new(vec!["Alice", "Bob", "Carol"]);
    let tile = game.tiles()[5];
    game.players[1].settlements.push(tile.vertices[0]);
    game.players[1].cities.push(tile.vertices[2]);
    game.players[0].settlements.push(tile.vertices[4]);
    game.players[2].settlements.push(tile.vertices[5]);
    let victims = robbable_players(&game, 5, 0);
    assert_eq!(victims, vec![1, 2]);
    assert!(robbable_players(&game, 99, 0).is_empty());
}

#[test]
fn multiplayer_menu_actions() {
    let mut host = HostState::default();
    let out = handle_multiplayer_action(MultiplayerAction::StartGame, &mut host);
    assert!(out.message.is_none() && out.next_state.is_none());
    let out = handle_multiplayer_action(MultiplayerAction::Host, &mut host);
    assert!(host.is_host);
    assert_eq!(out.next_state, Some(GameState::Lobby));
    let out = handle_multiplayer_action(MultiplayerAction::StartGame, &mut host);
    assert!(matches!(out.message, Some(ClientMessage::GameStart)));
    let out = handle_multiplayer_action(MultiplayerAction::Join { code: "ABC123".to_string() }, &mut host);
    assert!(!host.is_host);
    assert_eq!(out.pending_join.unwrap().join_code, "ABC123");
    let out = handle_multiplayer_action(MultiplayerAction::Back, &mut host);
    assert_eq!(out.next_state, Some(GameState::MainMenu));
}

#[test]
fn network_transitions() {
    assert_eq!(handle_network_transition(NetworkTransition::EnterLobby), GameState::Lobby);
    assert_eq!(handle_network_transition(NetworkTransition::EnterGame), GameState::MultiplayerInGame);
}

#[test]
fn window_defaults() {
    assert!(CardShowing::default().enabled);
    assert!(!SettingsWindowState::default().open);
    assert!(!RulesWindowState::default().open);
    assert!(!VolumeWindowState::default().open);
}

#[test]
fn shown_cards_follow_the_hand() {
    // Slots: brick, lumber, wool, grain, ore, desert.
    let hand = vec![2u8, 0, 1, 3, 0, 4];
    assert_eq!(owned_resources(&hand), vec![(Resource::Brick, 2), (Resource::Grain, 3), (Resource::Wool, 1)]);
    assert!(owned_resources(&vec![0u8; 6]).is_empty());
    let cards = vec![
        DevCardInstance { card: DevCard::YearOfPlenty, age: 1 },
        DevCardInstance { card: DevCard::Knight, age: 0 },
        DevCardInstance { card: DevCard::Knight, age: 2 },
    ];
    assert_eq!(count_cards(&cards, DevCard::Knight), 2);
    assert_eq!(owned_dev_cards(&cards), vec![(DevCard::Knight, 2), (DevCard::YearOfPlenty, 1)]);
    assert_eq!(clicked_card(&cards, DevCard::Knight), Some(1));
    assert_eq!(clicked_card(&cards, DevCard::YearOfPlenty), Some(0));
    assert_eq!(clicked_card(&cards, DevCard::Monopoly), None);
}
