use catan_rust::backend::game::{Game, GamePhase, Resource};
use catan_rust::backend::networking::config::{ConnectionMode, GameMode};
use catan_rust::backend::networking::game_request::{request_build_road, request_build_settlement, request_end_turn, request_roll_dice, request_buy_devcard, request_build_city};
use catan_rust::backend::networking::protocol::{Channel, ClientMessage, ServerMessage};
use catan_rust::backend::networking::server::{handle_client_message, Delivery, ServerPhase, ServerPlayers};
use catan_rust::networking::config::ConnectionMode as LobbyConnectionMode;
use catan_rust::networking::game_server::GameServer;
use catan_rust::networking::protocol::Channel as LobbyChannel;

fn action_text(d: &Delivery) -> Option<(bool, String)> {
    match d {
        Delivery::To { message: ServerMessage::ActionResult { success, message }, .. } => Some((*success, message.clone())),
        Delivery::ToAll { message: ServerMessage::ActionResult { success, message } } => Some((*success, message.clone())),
        _ => None,
    }
}

#[test]
fn stun_only_for_remote() {
    assert!(!ConnectionMode::LOCAL.use_stun());
    assert!(!ConnectionMode::LAN.use_stun());
    assert!(ConnectionMode::REMOTE.use_stun());
    assert!(!LobbyConnectionMode::LOCAL.use_stun());
    assert!(!LobbyConnectionMode::LAN.use_stun());
    assert!(LobbyConnectionMode::REMOTE.use_stun());
}

#[test]
fn channel_numbers() {
    assert_eq!(Channel::Reliable.id(), 0);
    assert_eq!(Channel::Unreliable.id(), 1);
    assert_eq!(Channel::Chat.id(), 2);
    assert_eq!(LobbyChannel::Chat.id(), 2);
}

#[test]
fn game_server_seats_and_frees() {
    let mut s = GameServer::new();
    assert_eq!(s.players, vec![None, None, None, None]);
    assert_eq!(s.current_player, 1);
    assert!(!s.game_started);
    assert_eq!(s.get_current_player(), None);
    assert_eq!(s.assign_slot(), Some(1));
    assert_eq!(s.assign_slot(), Some(2));
    s.free_slot(1);
    assert_eq!(s.players, vec![None, Some(2), None, None]);
    // Freeing the seat a newcomer was given undoes the seating.
    let before = s.players.clone();
    let p = s.assign_slot().unwrap();
    assert_eq!(p, 1);
    s.free_slot(p);
    assert_eq!(s.players, before);
    assert_eq!(s.assign_slot(), Some(1));
    assert_eq!(s.assign_slot(), Some(3));
    assert_eq!(s.assign_slot(), Some(4));
    assert_eq!(s.assign_slot(), None);
    s.free_slot(9);
    assert_eq!(s.players, vec![Some(1), Some(2), Some(3), Some(4)]);
}

#[test]
fn game_server_turns() {
    let mut s = GameServer::new();
    s.next_turn();
    assert_eq!(s.current_player, 1);
    s.assign_slot();
    s.assign_slot();
    s.assign_slot();
    s.free_slot(1);
    s.start_game();
    assert!(s.game_started);
    assert_eq!(s.get_current_player(), Some(2));
    assert!(s.is_current_player(2));
    assert!(!s.is_current_player(3));
    s.next_turn();
    assert_eq!(s.current_player, 3);
    s.next_turn();
    assert_eq!(s.current_player, 2);
    s.start_game();
    assert_eq!(s.current_player, 2);
    s.end_game();
    assert!(!s.game_started);
    assert_eq!(s.get_current_player(), None);
}

#[test]
fn game_server_turn_with_empty_table() {
    let mut s = GameServer::new();
    s.start_game();
    assert_eq!(s.current_player, 1);
    s.next_turn();
    assert_eq!(s.current_player, 1);
}

#[test]
fn lobby_join_and_full() {
    let mut game = Game::new(vec!["player0", "player1", "player2", "player3"]);
    let mut players = ServerPlayers::new();
    let mut phase = ServerPhase::Lobby;
    let (out, stop) = handle_client_message(&mut game, &mut players, &mut phase, 100, ClientMessage::Join);
    assert!(!stop);
    assert_eq!(players.players, vec![(100, 0)]);
    assert_eq!(players.host, Some(100));
    assert_eq!(game.player_count(), 5);
    assert_eq!(game.players()[4].name, "Player 0");
    assert!(matches!(out[0], Delivery::To { client: 100, message: ServerMessage::Confirmation { player: 0 } }));
    assert!(matches!(out[1], Delivery::ToOthers { client: 100, message: ServerMessage::ClientConnected { player: 0 } }));
    assert_eq!(out.len(), 2);
    let (out, _) = handle_client_message(&mut game, &mut players, &mut phase, 200, ClientMessage::Join);
    assert_eq!(players.players, vec![(100, 0), (200, 1)]);
    assert_eq!(players.host, Some(100));
    assert_eq!(out.len(), 3);
    assert!(matches!(out[2], Delivery::To { client: 200, message: ServerMessage::ClientConnected { player: 0 } }));
    handle_client_message(&mut game, &mut players, &mut phase, 300, ClientMessage::Join);
    handle_client_message(&mut game, &mut players, &mut phase, 400, ClientMessage::Join);
    let (out, stop) = handle_client_message(&mut game, &mut players, &mut phase, 500, ClientMessage::Join);
    assert!(stop);
    assert_eq!(out.len(), 1);
    assert_eq!(action_text(&out[0]), Some((false, "Lobby full".to_string())));
    assert_eq!(players.players.len(), 4);
}

#[test]
fn lobby_reuses_freed_numbers_and_hands_on_host() {
    let mut game = Game::new(vec!["a", "b"]);
    let mut players = ServerPlayers::new();
    let mut phase = ServerPhase::Lobby;
    for c in [1u64, 2, 3] {
        handle_client_message(&mut game, &mut players, &mut phase, c, ClientMessage::Join);
    }
    let (out, _) = handle_client_message(&mut game, &mut players, &mut phase, 1, ClientMessage::Disconnect);
    assert!(matches!(out[0], Delivery::ToAll { message: ServerMessage::ClientDisconnected { player: 0 } }));
    assert!(matches!(out[1], Delivery::Disconnect { client: 1 }));
    assert_eq!(players.host, Some(2));
    assert_eq!(players.players, vec![(2, 1), (3, 2)]);
    handle_client_message(&mut game, &mut players, &mut phase, 4, ClientMessage::Join);
    assert_eq!(players.players, vec![(2, 1), (3, 2), (4, 0)]);
    let (out, _) = handle_client_message(&mut game, &mut players, &mut phase, 9, ClientMessage::Disconnect);
    assert!(out.is_empty());
}

#[test]
fn actions_run_after_clients_join_and_rejoin() {
    let mut game = Game::new(vec!["player0", "player1", "player2", "player3"]);
    let mut players = ServerPlayers::new();
    let mut phase = ServerPhase::Lobby;
    for c in [1u64, 2] {
        handle_client_message(&mut game, &mut players, &mut phase, c, ClientMessage::Join);
    }
    handle_client_message(&mut game, &mut players, &mut phase, 1, ClientMessage::Disconnect);
    handle_client_message(&mut game, &mut players, &mut phase, 3, ClientMessage::Join);
    // Seats 4, 5 and 6 repeat the numbers 0, 1 and 0 and own nothing: the game stays
    // consistent and its actions stay open.
    assert_eq!(game.player_count(), 7);
    assert_eq!(game.players()[6].id, 0);
    assert!(game.is_well_formed());
    phase = ServerPhase::InGame;
    let (out, _) = handle_client_message(&mut game, &mut players, &mut phase, 3, ClientMessage::BuildSettlement { player_id: 0, vertex_id: 3 });
    assert_eq!(action_text(&out[1]), Some((true, "Settlement built".to_string())));
    assert!(game.players()[0].settlements.contains(&3));
    assert!(game.is_well_formed());
}

#[test]
fn lobby_start_and_turn_checks() {
    let mut game = Game::new(vec!["a", "b"]);
    let mut players = ServerPlayers::new();
    let mut phase = ServerPhase::Lobby;
    handle_client_message(&mut game, &mut players, &mut phase, 1, ClientMessage::Join);
    let (out, _) = handle_client_message(&mut game, &mut players, &mut phase, 1, ClientMessage::GameStart);
    assert_eq!(action_text(&out[0]), Some((false, "Need at least one other player to start".to_string())));
    let (out, _) = handle_client_message(&mut game, &mut players, &mut phase, 1, ClientMessage::RollDice { player_id: 0 });
    assert_eq!(action_text(&out[0]), Some((false, "Game has not started yet".to_string())));
    handle_client_message(&mut game, &mut players, &mut phase, 2, ClientMessage::Join);
    let (out, _) = handle_client_message(&mut game, &mut players, &mut phase, 2, ClientMessage::GameStart);
    assert!(out.is_empty());
    assert_eq!(phase, ServerPhase::Lobby);
    let (out, _) = handle_client_message(&mut game, &mut players, &mut phase, 1, ClientMessage::GameStart);
    assert!(matches!(out[0], Delivery::ToAll { message: ServerMessage::GameStart }));
    assert_eq!(phase, ServerPhase::InGame);
    let (out, _) = handle_client_message(&mut game, &mut players, &mut phase, 2, ClientMessage::EndTurn { player_id: 1 });
    assert_eq!(action_text(&out[0]), Some((false, "Not your turn!".to_string())));
    let (out, _) = handle_client_message(&mut game, &mut players, &mut phase, 1, ClientMessage::EndTurn { player_id: 0 });
    assert!(matches!(out[0], Delivery::To { client: 1, message: ServerMessage::Confirmation { player: 0 } }));
    assert_eq!(action_text(&out[1]), Some((true, "Turn ended".to_string())));
}

#[test]
fn server_game_actions() {
    let mut game = Game::new(vec!["a", "b"]);
    let mut players = ServerPlayers::new();
    let mut phase = ServerPhase::InGame;
    let (out, _) = handle_client_message(&mut game, &mut players, &mut phase, 1, ClientMessage::BuildSettlement { player_id: 0, vertex_id: 3 });
    assert_eq!(action_text(&out[1]), Some((true, "Settlement built".to_string())));
    let (out, _) = handle_client_message(&mut game, &mut players, &mut phase, 1, ClientMessage::BuildSettlement { player_id: 0, vertex_id: 3 });
    assert_eq!(action_text(&out[0]), Some((false, "Failed to build settlement".to_string())));
    let n = game.vertices()[3].neighbors[0];
    let (out, _) = handle_client_message(&mut game, &mut players, &mut phase, 1, ClientMessage::BuildRoad { player_id: 0, vertex1: 3, vertex2: n });
    assert_eq!(action_text(&out[1]), Some((true, "Road built".to_string())));
    // The road ends the first player's setup step: the second player is next.
    let (out, _) = handle_client_message(&mut game, &mut players, &mut phase, 1, ClientMessage::BuildCity { player_id: 0, vertex_id: 3 });
    assert_eq!(action_text(&out[0]), Some((false, "Not your turn!".to_string())));
    assert_eq!(game.current(), 1);
    let (out, _) = handle_client_message(&mut game, &mut players, &mut phase, 1, ClientMessage::BuildCity { player_id: 1, vertex_id: 3 });
    assert_eq!(action_text(&out[0]), Some((false, "Failed to build city".to_string())));
    game.game_phase = GamePhase::NormalPlay;
    game.current_player = 0;
    let (out, _) = handle_client_message(&mut game, &mut players, &mut phase, 1, ClientMessage::RollDice { player_id: 0 });
    assert_eq!(action_text(&out[1]), Some((true, "Dice rolled".to_string())));
    let (out, _) = handle_client_message(&mut game, &mut players, &mut phase, 1, ClientMessage::ChatMessage { message: "hello".to_string() });
    assert!(matches!(&out[0], Delivery::ToAll { message: ServerMessage::ChatMessage { message } } if message == "hello"));
    let (out, _) = handle_client_message(&mut game, &mut players, &mut phase, 1, ClientMessage::GameEnd);
    assert!(out.is_empty());
}

#[test]
fn requests_in_network_games_become_messages() {
    let mut game = Game::new(vec!["a", "b"]);
    assert!(matches!(request_build_settlement(GameMode::Multiplayer, &mut game, 1, 7), Some(ClientMessage::BuildSettlement { player_id: 1, vertex_id: 7 })));
    assert!(matches!(request_build_road(GameMode::Multiplayer, &mut game, 0, 1, 2), Some(ClientMessage::BuildRoad { player_id: 0, vertex1: 1, vertex2: 2 })));
    assert!(matches!(request_build_city(GameMode::Multiplayer, &mut game, 0, 2), Some(ClientMessage::BuildCity { player_id: 0, vertex_id: 2 })));
    assert!(matches!(request_buy_devcard(GameMode::Multiplayer, &mut game, 0), Some(ClientMessage::BuyDevCard { player_id: 0 })));
    assert!(matches!(request_roll_dice(GameMode::Multiplayer, &mut game, 0), (None, Some(ClientMessage::RollDice { player_id: 0 }))));
    assert!(matches!(request_end_turn(GameMode::Multiplayer, &mut game, 0), Some(ClientMessage::EndTurn { player_id: 0 })));
    assert!(game.players()[1].settlements.is_empty());
}

#[test]
fn requests_in_local_games_are_played() {
    let mut game = Game::new(vec!["a", "b"]);
    assert!(request_build_settlement(GameMode::Local, &mut game, 0, 7).is_none());
    assert!(game.players()[0].settlements.contains(&7));
    let n = game.vertices()[7].neighbors[0];
    assert!(request_build_road(GameMode::Local, &mut game, 0, 7, n).is_none());
    assert_eq!(game.players()[0].roads.len(), 1);
    // The road ended the first player's setup step; play on in normal play.
    assert_eq!(game.current(), 1);
    game.game_phase = GamePhase::NormalPlay;
    game.current_player = 0;
    game.players[0].resources[Resource::Wool.index()] = 1;
    game.players[0].resources[Resource::Grain.index()] = 1;
    game.players[0].resources[Resource::Ore.index()] = 1;
    assert!(request_buy_devcard(GameMode::Local, &mut game, 0).is_none());
    assert_eq!(game.players()[0].dev_cards.len(), 1);
    let (total, msg) = request_roll_dice(GameMode::Local, &mut game, 0);
    assert!(msg.is_none());
    assert!((2..=12).contains(&total.unwrap()));
    assert!(request_end_turn(GameMode::Local, &mut game, 0).is_none());
    assert_eq!(game.current(), 1);
}
