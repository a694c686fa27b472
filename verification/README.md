# catan_rust

The rules of a Settlers-of-Catan style board game for two to four players, written in
Verus: every function of the library carries a contract, and Verus proves each one.

## Layout

- `src/backend/game.rs` and `src/backend/game/`: the game itself. `GameView` is the
  mathematical model of a `Game`; every operation's contract says what it does to that model
  (spec functions in `board`, `building`, `devcards`, `resources`, `robber`, `roads`,
  `trade`, `turn`). `laws.rs` proves properties that span operations or hold of every board
  (trades conserve cards, turns go round the table, refused requests change nothing, victory
  points follow buildings, awards and played cards, the standard board has one desert and
  valid number tokens, ...). `rng.rs` is the only trusted
  part: the calls into the `rand` crate, with what their source shows.
- `src/backend/networking/`: the game server's answers to its clients
  (`server::handle_client_message`), a client's reactions, the requests of a local or
  network game, and the message types.
- `src/networking/`: the lobby: seat keeping (`GameServer`), the lobby server and client,
  and the rendezvous server's text protocol and registry.
- `src/frontend/`: what the screens decide: where a player may build, which road a preview
  shows, whom the robber can rob, which cards are shown and which one a click plays, the
  end-of-game summary, menu and network transitions.
- `src/text.rs`: numbers written in decimal.
- `tests/`: tests of the library on concrete values.
- `app/`: a terminal version of the game and the rendezvous server; the message types with
  serde derives and their bincode encoding.
