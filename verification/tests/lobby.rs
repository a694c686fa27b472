use catan_rust::backend::networking::client::{handle_server_message as game_client_reacts, initialize_game_state, terminal_message as game_terminal_message, ClientState as GameClientState};
use catan_rust::backend::networking::protocol::{ClientMessage as GameClientMessage, ServerMessage as GameServerMessage};
use catan_rust::frontend::system::chat::{handle_chat_input, ChatCommand, ChatState};
use catan_rust::frontend::system::transition::NetworkTransition;
use catan_rust::networking::client::{handle_server_message, player_label_string, terminal_message, ClientState};
use catan_rust::networking::protocol::{ClientMessage, ServerMessage};
use catan_rust::networking::server::{handle_lobby_message, LobbyDelivery, ServerPlayers};

#[test]
fn lobby_numbers_newcomers_in_order() {
    let mut state = ServerPlayers::default();
    let out = handle_lobby_message(&mut state, 11, ClientMessage::Join);
    assert!(matches!(out[0], LobbyDelivery::To { client: 11, message: ServerMessage::Confirmation { player: 0 } }));
    assert!(matches!(out[1], LobbyDelivery::ToAll { message: ServerMessage::Join { player: 0 } }));
    handle_lobby_message(&mut state, 12, ClientMessage::Join);
    assert_eq!(state.next_player_id, 2);
    assert_eq!(state.players.get(&12), Some(&1));
    assert_eq!(state.names.get(&12).map(|s| s.as_str()), Some("Player 1"));
    let out = handle_lobby_message(&mut state, 12, ClientMessage::Something { player: 7 });
    assert!(matches!(out[0], LobbyDelivery::ToAll { message: ServerMessage::Something { player: 1 } }));
    let out = handle_lobby_message(&mut state, 99, ClientMessage::Something { player: 7 });
    assert!(matches!(out[0], LobbyDelivery::ToAll { message: ServerMessage::Something { player: 0 } }));
    let out = handle_lobby_message(&mut state, 12, ClientMessage::ChatMessage { message: "hi".to_string() });
    assert!(matches!(&out[0], LobbyDelivery::ToAll { message: ServerMessage::ChatMessage { message } } if message == "hi"));
    let out = handle_lobby_message(&mut state, 11, ClientMessage::Disconnect);
    assert!(matches!(out[0], LobbyDelivery::ToAll { message: ServerMessage::Disconnect { player: 0 } }));
    assert!(matches!(out[1], LobbyDelivery::Disconnect { client: 11 }));
    assert!(state.players.get(&11).is_none());
    assert!(handle_lobby_message(&mut state, 11, ClientMessage::Disconnect).is_empty());
    assert!(handle_lobby_message(&mut state, 12, ClientMessage::GameStart).is_empty());
    // Numbers are not reused.
    handle_lobby_message(&mut state, 13, ClientMessage::Join);
    assert_eq!(state.players.get(&13), Some(&2));
}

#[test]
fn lobby_client_reactions() {
    let mut state = ClientState::default();
    let (line, stop) = handle_server_message(&mut state, ServerMessage::Confirmation { player: 3 });
    assert_eq!(line.as_deref(), Some("You are Player 3"));
    assert!(!stop);
    assert_eq!(state.assigned_player, Some(3));
    assert_eq!(state.users.get(&3).map(|s| s.as_str()), Some("Player 3"));
    assert_eq!(handle_server_message(&mut state, ServerMessage::Turn { player: 3 }).0.as_deref(), Some("Your turn"));
    assert_eq!(handle_server_message(&mut state, ServerMessage::Turn { player: 1 }).0.as_deref(), Some("Player 1's turn"));
    assert_eq!(handle_server_message(&mut state, ServerMessage::ClientConnected { player: 5 }).0.as_deref(), Some("Player 5 joined"));
    assert_eq!(handle_server_message(&mut state, ServerMessage::ChatMessage { message: "yo".to_string() }).0.as_deref(), Some("> yo"));
    assert_eq!(handle_server_message(&mut state, ServerMessage::ClientDisconnected { player: 5 }).0.as_deref(), Some("Player 5 left"));
    assert!(state.users.get(&5).is_none());
    assert_eq!(handle_server_message(&mut state, ServerMessage::ClientDisconnected { player: 6 }).0.as_deref(), Some("Player 6 left"));
    assert_eq!(handle_server_message(&mut state, ServerMessage::GameStart).0.as_deref(), Some("Game started"));
    let (line, stop) = handle_server_message(&mut state, ServerMessage::ServerCrash);
    assert_eq!(line.as_deref(), Some("Server crashed"));
    assert!(stop);
    assert_eq!(handle_server_message(&mut state, ServerMessage::Ready), (None, false));
    assert_eq!(player_label_string(42), "Player 42");
}

#[test]
fn terminal_lines() {
    assert!(matches!(terminal_message("quit"), (ClientMessage::Disconnect, true)));
    assert!(matches!(terminal_message("hello there"), (ClientMessage::ChatMessage { ref message }, false) if message == "hello there"));
    assert!(matches!(game_terminal_message("quit"), (GameClientMessage::Disconnect, true)));
    assert!(matches!(game_terminal_message("quit now"), (GameClientMessage::ChatMessage { ref message }, false) if message == "quit now"));
}

#[test]
fn game_client_reactions() {
    let mut state = GameClientState::default();
    let mut chat = ChatState::default();
    let (t, line) = game_client_reacts(&mut state, &mut chat, GameServerMessage::Confirmation { player: 2 });
    assert_eq!(t, Some(NetworkTransition::EnterLobby));
    assert_eq!(line.as_deref(), Some("You are Player 2"));
    let (t, _) = game_client_reacts(&mut state, &mut chat, GameServerMessage::Confirmation { player: 3 });
    assert_eq!(t, None);
    assert_eq!(state.assigned_player, Some(2));
    assert_eq!(state.users.len(), 2);
    let (t, _) = game_client_reacts(&mut state, &mut chat, GameServerMessage::GameStart);
    assert_eq!(t, Some(NetworkTransition::EnterGame));
    let (_, line) = game_client_reacts(&mut state, &mut chat, GameServerMessage::ChatMessage { message: "gg".to_string() });
    assert_eq!(line.as_deref(), Some("[Chat]: gg"));
    assert_eq!(state.messages, vec!["gg".to_string()]);
    assert_eq!(chat.messages, vec!["gg".to_string()]);
    let (_, line) = game_client_reacts(&mut state, &mut chat, GameServerMessage::ActionResult { success: false, message: "Road built".to_string() });
    assert_eq!(line.as_deref(), Some("Action 'Road built' failed."));
    let (_, line) = game_client_reacts(&mut state, &mut chat, GameServerMessage::ActionResult { success: true, message: "x".to_string() });
    assert_eq!(line.as_deref(), Some("Action 'x' succeeded."));
    let (_, line) = game_client_reacts(&mut state, &mut chat, GameServerMessage::ClientDisconnected { player: 3 });
    assert_eq!(line.as_deref(), Some("Player 3 left"));
    let (_, line) = game_client_reacts(&mut state, &mut chat, GameServerMessage::ClientDisconnected { player: 3 });
    assert_eq!(line, None);
    assert!(state.game.is_none());
    initialize_game_state(&mut state);
    assert_eq!(state.game.as_ref().unwrap().player_count(), 4);
}

#[test]
fn chat_commands() {
    assert!(matches!(handle_chat_input("/quit".to_string()), ChatCommand::Send(GameClientMessage::Disconnect)));
    assert!(matches!(handle_chat_input("/quit now please".to_string()), ChatCommand::Send(GameClientMessage::Disconnect)));
    assert!(matches!(handle_chat_input("/help".to_string()), ChatCommand::Help));
    assert!(matches!(handle_chat_input("/quitting".to_string()), ChatCommand::Invalid));
    assert!(matches!(handle_chat_input("/".to_string()), ChatCommand::Invalid));
    assert!(matches!(handle_chat_input("hello /quit".to_string()), ChatCommand::Send(GameClientMessage::ChatMessage { ref message }) if message == "hello /quit"));
}

use catan_rust::networking::rendezvous::{parse_rendezvous, RendezvousRegistry, RendezvousRequest};

#[test]
fn rendezvous_messages() {
    assert!(matches!(parse_rendezvous("REGISTER ABC123"), RendezvousRequest::Register { ref code, addr: None } if code == "ABC123"));
    assert!(matches!(parse_rendezvous("REGISTER ABC123 1.2.3.4:6000"),
        RendezvousRequest::Register { ref code, addr: Some(ref a) } if code == "ABC123" && a == "1.2.3.4:6000"));
    assert!(matches!(parse_rendezvous("REGISTER  XY   9.9.9.9:1 extra"),
        RendezvousRequest::Register { ref code, addr: Some(ref a) } if code == "XY" && a == "9.9.9.9:1"));
    assert!(matches!(parse_rendezvous("JOIN ABC123"), RendezvousRequest::Join { ref code } if code == "ABC123"));
    assert!(matches!(parse_rendezvous("JOIN ABC123 5.6.7.8:9"), RendezvousRequest::Join { ref code } if code == "ABC123"));
    assert!(matches!(parse_rendezvous("HELLO"), RendezvousRequest::Other));
    assert!(matches!(parse_rendezvous("REGISTER"), RendezvousRequest::Other));
    assert!(matches!(parse_rendezvous("join ABC"), RendezvousRequest::Other));
}

#[test]
fn rendezvous_registry_answers() {
    let mut registry = RendezvousRegistry::new();
    assert_eq!(registry.answer(parse_rendezvous("JOIN ABC"), String::new()), None);
    assert_eq!(registry.answer(parse_rendezvous("REGISTER ABC"), "1.2.3.4:6000".to_string()), Some("READY".to_string()));
    assert_eq!(registry.answer(parse_rendezvous("REGISTER XYZ"), "5.6.7.8:6000".to_string()), Some("READY".to_string()));
    assert_eq!(registry.answer(parse_rendezvous("JOIN ABC"), String::new()), Some("1.2.3.4:6000".to_string()));
    // A new registration replaces the old address of its code only.
    registry.answer(parse_rendezvous("REGISTER ABC 9.9.9.9:7000"), "9.9.9.9:7000".to_string());
    assert_eq!(registry.lookup(&"ABC".to_string()), Some("9.9.9.9:7000".to_string()));
    assert_eq!(registry.lookup(&"XYZ".to_string()), Some("5.6.7.8:6000".to_string()));
    assert_eq!(registry.answer(parse_rendezvous("HELLO"), String::new()), None);
    assert_eq!(registry.lookup(&"NOPE".to_string()), None);
}
