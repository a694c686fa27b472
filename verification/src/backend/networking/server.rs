//! The game server's decisions: who is in the lobby, who hosts, and what each client message
//! is answered with. Sending and receiving is left to the caller, which performs the
//! deliveries returned here.
use vstd::prelude::*;
use crate::backend::game::{Game, GameView, TurnPhase, new_player};
use crate::backend::networking::protocol::{ClientMessage, ServerMessage, ServerMessageView};
use crate::text::{decimal, decimal_string};

verus! {

/// Whether the server is gathering players or running a game.
#[derive(Debug, Clone, Copy, PartialEq, Eq, Structural)]
pub enum ServerPhase {
    Lobby,
    InGame,
}

/// The code a client uses to find the server.
#[derive(Debug, Clone)]
pub struct JoinCode(pub String);

/// The connected clients, each with the player number they were given, and the host.
pub struct ServerPlayers {
    /// Client and player number, in the order the clients joined.
    pub players: Vec<(u64, usize)>,
    pub next_player_id: usize,
    pub host: Option<u64>,
}

pub struct ServerPlayersView {
    pub players: Seq<(u64, usize)>,
    pub next_player_id: usize,
    pub host: Option<u64>,
}

impl View for ServerPlayers {
    type V = ServerPlayersView;

    open spec fn view(&self) -> ServerPlayersView {
        ServerPlayersView { players: self.players@, next_player_id: self.next_player_id, host: self.host }
    }
}

/// One thing for the caller to do after a message is handled.
pub enum Delivery {
    /// Send `message` to `client`.
    To { client: u64, message: ServerMessage },
    /// Send `message` to every connected client.
    ToAll { message: ServerMessage },
    /// Send `message` to every connected client but `client`.
    ToOthers { client: u64, message: ServerMessage },
    /// Close the connection of `client`.
    Disconnect { client: u64 },
}

pub enum DeliveryView {
    To { client: u64, message: ServerMessageView },
    ToAll { message: ServerMessageView },
    ToOthers { client: u64, message: ServerMessageView },
    Disconnect { client: u64 },
}

impl View for Delivery {
    type V = DeliveryView;

    open spec fn view(&self) -> DeliveryView {
        match self {
            Delivery::To { client, message } => DeliveryView::To { client: *client, message: message@ },
            Delivery::ToAll { message } => DeliveryView::ToAll { message: message@ },
            Delivery::ToOthers { client, message } => DeliveryView::ToOthers { client: *client, message: message@ },
            Delivery::Disconnect { client } => DeliveryView::Disconnect { client: *client },
        }
    }
}

/// The deliveries of a list, as values.
pub open spec fn deliveries_view(d: Seq<Delivery>) -> Seq<DeliveryView> {
    d.map_values(|x: Delivery| x@)
}

/// No client is listed twice.
pub open spec fn clients_distinct(players: Seq<(u64, usize)>) -> bool {
    forall|i: int, j: int| 0 <= i < j < players.len() ==> players[i].0 != players[j].0
}

/// Some listed client has player number `id`.
pub open spec fn id_taken(players: Seq<(u64, usize)>, id: nat) -> bool {
    exists|i: int| 0 <= i < players.len() && players[i].1 == id
}

/// The smallest player number no listed client has.
pub open spec fn smallest_free_id(players: Seq<(u64, usize)>) -> nat {
    choose|id: nat| !id_taken(players, id) && forall|j: nat| j < id ==> id_taken(players, j)
}

/// The position of `client` in the list, if it is listed.
pub open spec fn position_of(players: Seq<(u64, usize)>, client: u64) -> Option<int> {
    if exists|i: int| 0 <= i < players.len() && players[i].0 == client {
        Some(choose|i: int| 0 <= i < players.len() && players[i].0 == client)
    } else {
        None
    }
}

/// The list with `client` given player number `id`: its entry is updated if it has one,
/// otherwise the client is added at the end.
pub open spec fn with_player(players: Seq<(u64, usize)>, client: u64, id: usize) -> Seq<(u64, usize)> {
    match position_of(players, client) {
        Some(i) => players.update(i, (client, id)),
        None => players.push((client, id)),
    }
}

/// A client's name at the table: "Player " and its number.
pub open spec fn player_label(id: nat) -> Seq<char> {
    "Player "@ + decimal(id)
}

/// The answer to `msg` from `client` with the game still gathering or just checked for the
/// right turn: `text` tells the client why nothing happened.
pub open spec fn refusal(client: u64, text: Seq<char>) -> Seq<DeliveryView> {
    seq![DeliveryView::To { client, message: ServerMessageView::ActionResult { success: false, message: text } }]
}

/// The answer to a successful action of player `player`: a confirmation to its client and
/// the result for everyone.
pub open spec fn success(client: u64, player: u8, text: Seq<char>) -> Seq<DeliveryView> {
    seq![
        DeliveryView::To { client, message: ServerMessageView::Confirmation { player } },
        DeliveryView::ToAll { message: ServerMessageView::ActionResult { success: true, message: text } },
    ]
}

/// Announcements to `client` of every other client already listed.
pub open spec fn others_announced(players: Seq<(u64, usize)>, client: u64) -> Seq<DeliveryView>
    decreases players.len(),
{
    if players.len() == 0 {
        Seq::empty()
    } else {
        let rest = others_announced(players.drop_last(), client);
        if players.last().0 != client {
            rest.push(DeliveryView::To { client, message: ServerMessageView::ClientConnected { player: players.last().1 as u8 } })
        } else {
            rest
        }
    }
}

/// A roll of the dice may lead from `pre` to `post`: a total of 2 to 12; a seven robs large
/// hands and moves the robber, any other total harvests.
pub open spec fn rolled(pre: GameView, post: GameView) -> bool {
    exists|total: u8| 2 <= total <= 12 && #[trigger] roll_to(pre, total, post)
}

pub open spec fn roll_to(pre: GameView, total: u8, post: GameView) -> bool {
    &&& total == 7 ==> pre.seven_outcome(post)
    &&& total != 7 ==> post == pre.harvest(total)
}

/// What a game action of player `player` leads to, given that it is their turn and the game
/// is running: the action is tried when `allowed` holds and then answered by its outcome;
/// otherwise (or when it is refused) the client is told `failure`.
pub open spec fn action_answer(
    client: u64,
    player: u8,
    allowed: bool,
    outcome: (GameView, Result<(), &'static str>),
    pre: GameView,
    post: GameView,
    deliveries: Seq<DeliveryView>,
    done: Seq<char>,
    failure: Seq<char>,
) -> bool {
    if allowed && outcome.1 is Ok {
        post == outcome.0 && deliveries == success(client, player, done)
    } else {
        post == (if allowed { outcome.0 } else { pre }) && deliveries == refusal(client, failure)
    }
}

/// Whether `game2`, `players2`, `phase2`, the deliveries `out` and `stop` (drop the rest of
/// this round of messages) answer `msg` from `client`, received with `game`, `players` and
/// `phase`:
/// - `Join`: refused with "Lobby full" (and the round stops) once four clients are in;
///   otherwise the client gets the smallest free player number, becomes host if there is
///   none, is seated in the game as "Player n", is confirmed, announced to the others, and
///   told of every other client;
/// - building a settlement, road or city, rolling the dice and ending the turn: refused
///   before the game runs and out of turn; otherwise tried, confirmed to the client and
///   reported to all, or answered with a failure;
/// - a chat message goes to everybody;
/// - `GameStart` from the host starts the game when another client is in, and is refused
///   otherwise; from anybody else it is ignored;
/// - `Disconnect` drops the client (handing the host role to the first remaining client if
///   they held it), tells everybody, and closes the connection;
/// - anything else is ignored.
pub open spec fn answered(
    game: GameView,
    players: ServerPlayersView,
    phase: ServerPhase,
    client: u64,
    msg: ClientMessage,
    game2: GameView,
    players2: ServerPlayersView,
    phase2: ServerPhase,
    out: Seq<DeliveryView>,
    stop: bool,
) -> bool {
    let unchanged = game2 == game && players2 == players && phase2 == phase;
    match msg {
        ClientMessage::Join => if players.players.len() >= 4 {
            unchanged && stop && out == refusal(client, "Lobby full"@)
        } else {
            let id = smallest_free_id(players.players);
            let ps = with_player(players.players, client, id as usize);
            &&& !stop
            &&& phase2 == phase
            &&& players2 == (ServerPlayersView {
                players: ps,
                host: if players.host is None { Some(client) } else { players.host },
                ..players
            })
            &&& game2 == (GameView { players: game.players.push(new_player(id as usize, player_label(id))), ..game })
            &&& out == seq![
                DeliveryView::To { client, message: ServerMessageView::Confirmation { player: id as u8 } },
                DeliveryView::ToOthers { client, message: ServerMessageView::ClientConnected { player: id as u8 } },
            ] + others_announced(ps, client)
        },
        ClientMessage::BuildSettlement { player_id, vertex_id } => !stop && turn_checked(game, players, phase, client, player_id, game2, players2, phase2, out,
            action_answer(client, player_id, game.wf() && game.within_build_limits() && vertex_id < game.vertices.len(),
                game.build_settlement_outcome(player_id as int, vertex_id), game, game2, out, "Settlement built"@, "Failed to build settlement"@)),
        ClientMessage::BuildRoad { player_id, vertex1, vertex2 } => !stop && turn_checked(game, players, phase, client, player_id, game2, players2, phase2, out,
            action_answer(client, player_id, game.wf() && game.within_build_limits() && vertex1 < game.vertices.len(),
                game.build_road_outcome(player_id as int, vertex1, vertex2), game, game2, out, "Road built"@, "Failed to build road"@)),
        ClientMessage::BuildCity { player_id, vertex_id } => !stop && turn_checked(game, players, phase, client, player_id, game2, players2, phase2, out,
            action_answer(client, player_id, game.wf() && game.within_build_limits(),
                game.build_city_outcome(player_id as int, vertex_id), game, game2, out, "City built"@, "Failed to build city"@)),
        ClientMessage::RollDice { player_id } => !stop && turn_checked(game, players, phase, client, player_id, game2, players2, phase2, out,
            if game.wf() && game.within_roll_limits() {
                rolled(game, game2) && out == success(client, player_id, "Dice rolled"@)
            } else {
                game2 == game && out == refusal(client, "Failed to roll dice"@)
            }),
        ClientMessage::EndTurn { player_id } => !stop && turn_checked(game, players, phase, client, player_id, game2, players2, phase2, out,
            game2 == (GameView { turn_phase: TurnPhase::EndTurn, ..game }) && out == success(client, player_id, "Turn ended"@)),
        ClientMessage::ChatMessage { message } => unchanged && !stop
            && out == seq![DeliveryView::ToAll { message: ServerMessageView::ChatMessage { message: message@ } }],
        ClientMessage::GameStart => !stop && game2 == game && players2 == players && if players.host == Some(client) {
            if players.players.len() > 1 {
                phase2 == ServerPhase::InGame && out == seq![DeliveryView::ToAll { message: ServerMessageView::GameStart }]
            } else {
                phase2 == phase && out == refusal(client, "Need at least one other player to start"@)
            }
        } else {
            phase2 == phase && out == Seq::<DeliveryView>::empty()
        },
        ClientMessage::Disconnect => !stop && game2 == game && phase2 == phase && match position_of(players.players, client) {
            Some(i) => {
                let rest = players.players.remove(i);
                &&& players2 == (ServerPlayersView {
                    players: rest,
                    host: if players.host == Some(client) {
                        if rest.len() > 0 { Some(rest[0].0) } else { None }
                    } else {
                        players.host
                    },
                    ..players
                })
                &&& out == seq![
                    DeliveryView::ToAll { message: ServerMessageView::ClientDisconnected { player: players.players[i].1 as u8 } },
                    DeliveryView::Disconnect { client },
                ]
            },
            None => players2 == players && out == Seq::<DeliveryView>::empty(),
        },
        _ => unchanged && !stop && out == Seq::<DeliveryView>::empty(),
    }
}

/// A game action: refused before the game runs and when it is not `player`'s turn, leaving
/// everything as it was; otherwise the lobby stays as it was and `answer` says the rest.
pub open spec fn turn_checked(
    game: GameView,
    players: ServerPlayersView,
    phase: ServerPhase,
    client: u64,
    player: u8,
    game2: GameView,
    players2: ServerPlayersView,
    phase2: ServerPhase,
    out: Seq<DeliveryView>,
    answer: bool,
) -> bool {
    &&& players2 == players
    &&& phase2 == phase
    &&& if phase != ServerPhase::InGame {
        game2 == game && out == refusal(client, "Game has not started yet"@)
    } else if game.current_player != player as usize {
        game2 == game && out == refusal(client, "Not your turn!"@)
    } else {
        answer
    }
}

impl ServerPlayers {
    /// No clients, no host.
    pub fn new() -> (s: Self)
        ensures
            s@.players == Seq::<(u64, usize)>::empty(),
            s@.next_player_id == 0,
            s@.host is None,
    {
        ServerPlayers { players: Vec::new(), next_player_id: 0, host: None }
    }

    /// The smallest player number no client has.
    pub fn free_id(&self) -> (id: usize)
        ensures
            id == smallest_free_id(self@.players),
            id <= self@.players.len(),
    {
        let n = self.players.len();
        let mut id: usize = 0;
        loop
            invariant
                n == self@.players.len(),
                id <= n,
                forall|j: nat| j < id ==> id_taken(self@.players, j),
            ensures
                !id_taken(self@.players, id as nat),
                forall|j: nat| j < id ==> id_taken(self@.players, j),
            decreases n - id,
        {
            let mut taken = false;
            let mut i: usize = 0;
            while i < n
                invariant
                    n == self@.players.len(),
                    i <= n,
                    taken == exists|k: int| 0 <= k < i && self@.players[k].1 == id,
                decreases n - i,
            {
                if self.players[i].1 == id {
                    taken = true;
                }
                i += 1;
            }
            if !taken {
                break;
            }
            proof {
                if id == n {
                    lemma_ids_pigeonhole(self@.players, n as nat);
                    let j = choose|j: nat| j <= n && !id_taken(self@.players, j);
                    if j < id {
                        assert(id_taken(self@.players, j));
                    }
                }
            }
            id += 1;
        }
        proof {
            lemma_smallest_free_id_unique(self@.players, id as nat);
        }
        id
    }
}

impl ServerPlayers {
    /// Gives `client` player number `id`, adding the client if it is not listed.
    pub fn set_player(&mut self, client: u64, id: usize)
        requires
            clients_distinct(old(self)@.players),
        ensures
            final(self)@ == (ServerPlayersView { players: with_player(old(self)@.players, client, id), ..old(self)@ }),
            clients_distinct(final(self)@.players),
    {
        let ghost ps = self@.players;
        let n = self.players.len();
        let mut i: usize = 0;
        while i < n
            invariant
                n == self@.players.len(),
                i <= n,
                self@ == old(self)@,
                ps == self@.players,
                clients_distinct(ps),
                forall|j: int| 0 <= j < i ==> ps[j].0 != client,
            decreases n - i,
        {
            if self.players[i].0 == client {
                proof {
                    let j = choose|j: int| 0 <= j < ps.len() && ps[j].0 == client;
                    if i < j {
                        assert(ps[i as int].0 != ps[j].0);
                    }
                    assert(position_of(ps, client) == Some(i as int));
                }
                self.players.set(i, (client, id));
                proof {
                    assert forall|a: int, b: int| 0 <= a < b < self@.players.len() implies self@.players[a].0 != self@.players[b].0 by {
                        assert(ps[a].0 != ps[b].0);
                    }
                }
                return;
            }
            i += 1;
        }
        assert(position_of(ps, client) is None);
        self.players.push((client, id));
        proof {
            assert forall|a: int, b: int| 0 <= a < b < self@.players.len() implies self@.players[a].0 != self@.players[b].0 by {
                if b < ps.len() {
                    assert(ps[a].0 != ps[b].0);
                } else {
                    assert(ps[a].0 != client);
                }
            }
        }
    }

    /// Drops `client`, returning its player number if it was listed.
    pub fn remove_client(&mut self, client: u64) -> (r: Option<usize>)
        requires
            clients_distinct(old(self)@.players),
        ensures
            r == (match position_of(old(self)@.players, client) {
                Some(i) => Some(old(self)@.players[i].1),
                None => None::<usize>,
            }),
            final(self)@ == (ServerPlayersView {
                players: match position_of(old(self)@.players, client) {
                    Some(i) => old(self)@.players.remove(i),
                    None => old(self)@.players,
                },
                ..old(self)@
            }),
            clients_distinct(final(self)@.players),
    {
        let ghost ps = self@.players;
        let n = self.players.len();
        let mut i: usize = 0;
        while i < n
            invariant
                n == self@.players.len(),
                i <= n,
                self@ == old(self)@,
                ps == self@.players,
                clients_distinct(ps),
                forall|j: int| 0 <= j < i ==> ps[j].0 != client,
            decreases n - i,
        {
            if self.players[i].0 == client {
                proof {
                    let j = choose|j: int| 0 <= j < ps.len() && ps[j].0 == client;
                    if i < j {
                        assert(ps[i as int].0 != ps[j].0);
                    }
                    assert(position_of(ps, client) == Some(i as int));
                }
                let (_, id) = self.players.remove(i);
                proof {
                    assert forall|a: int, b: int| 0 <= a < b < self@.players.len() implies self@.players[a].0 != self@.players[b].0 by {
                        let a0 = if a < i { a } else { a + 1 };
                        let b0 = if b < i { b } else { b + 1 };
                        assert(ps[a0].0 != ps[b0].0);
                    }
                }
                return Some(id);
            }
            i += 1;
        }
        assert(position_of(ps, client) is None);
        None
    }
}

/// `text` refused to `client`.
fn refuse(client: u64, text: &str) -> (d: Vec<Delivery>)
    ensures
        deliveries_view(d@) == refusal(client, text@),
{
    let mut d: Vec<Delivery> = Vec::new();
    d.push(Delivery::To { client, message: ServerMessage::ActionResult { success: false, message: String::from_str(text) } });
    assert(deliveries_view(d@) =~= refusal(client, text@));
    d
}

/// `client` confirmed as player `player`, and `text` reported to everyone.
fn succeed(client: u64, player: u8, text: &str) -> (d: Vec<Delivery>)
    ensures
        deliveries_view(d@) == success(client, player, text@),
{
    let mut d: Vec<Delivery> = Vec::new();
    d.push(Delivery::To { client, message: ServerMessage::Confirmation { player } });
    d.push(Delivery::ToAll { message: ServerMessage::ActionResult { success: true, message: String::from_str(text) } });
    assert(deliveries_view(d@) =~= success(client, player, text@));
    d
}

/// The refusal owed to a game action before the game runs or out of turn, if one is owed.
fn turn_refusal(game: &Game, phase: ServerPhase, client: u64, player: u8) -> (r: Option<Vec<Delivery>>)
    ensures
        (r is Some) == (phase != ServerPhase::InGame || game@.current_player != player as usize),
        r matches Some(d) ==> deliveries_view(d@) == (if phase != ServerPhase::InGame {
            refusal(client, "Game has not started yet"@)
        } else {
            refusal(client, "Not your turn!"@)
        }),
{
    match phase {
        ServerPhase::InGame => {},
        ServerPhase::Lobby => {
            return Some(refuse(client, "Game has not started yet"));
        },
    }
    if game.current() != player as usize {
        return Some(refuse(client, "Not your turn!"));
    }
    None
}

/// Tells `client` of every other listed client.
fn announce_others(players: &ServerPlayers, client: u64, out: &mut Vec<Delivery>)
    ensures
        deliveries_view(final(out)@) == deliveries_view(old(out)@) + others_announced(players@.players, client),
{
    let ghost start = deliveries_view(out@);
    let n = players.players.len();
    let mut i: usize = 0;
    while i < n
        invariant
            n == players@.players.len(),
            i <= n,
            deliveries_view(out@) == start + others_announced(players@.players.subrange(0, i as int), client),
        decreases n - i,
    {
        let ghost before = out@;
        let (other, id) = players.players[i];
        if other != client {
            out.push(Delivery::To { client, message: ServerMessage::ClientConnected { player: id as u8 } });
        }
        proof {
            let sub = players@.players.subrange(0, i + 1);
            assert(sub.drop_last() =~= players@.players.subrange(0, i as int));
            assert(sub.last() == (other, id));
            if other != client {
                assert(deliveries_view(out@) =~= deliveries_view(before).push(
                    DeliveryView::To { client, message: ServerMessageView::ClientConnected { player: id as u8 } }));
            } else {
                assert(out@ == before);
            }
            assert(deliveries_view(out@) =~= start + others_announced(sub, client));
        }
        i += 1;
    }
    assert(players@.players.subrange(0, n as int) =~= players@.players);
}

/// Answers `msg` from `client`: updates the game, the lobby and the phase, and returns what
/// to deliver and whether to drop the rest of this round of messages (see `answered`).
pub fn handle_client_message(
    game: &mut Game,
    players: &mut ServerPlayers,
    phase: &mut ServerPhase,
    client: u64,
    msg: ClientMessage,
) -> (r: (Vec<Delivery>, bool))
    requires
        clients_distinct(old(players)@.players),
    ensures
        clients_distinct(final(players)@.players),
        answered(old(game)@, old(players)@, *old(phase), client, msg, final(game)@, final(players)@, *final(phase), deliveries_view(r.0@), r.1),
{
    let ghost msg0 = msg;
    match msg {
        ClientMessage::Join => {
            if players.players.len() >= 4 {
                return (refuse(client, "Lobby full"), true);
            }
            let id = players.free_id();
            players.set_player(client, id);
            if players.host.is_none() {
                players.host = Some(client);
            }
            let mut name = String::from_str("Player ");
            let number = decimal_string(id);
            name.append(number.as_str());
            game.add_player(id, name.as_str());
            let mut out: Vec<Delivery> = Vec::new();
            out.push(Delivery::To { client, message: ServerMessage::Confirmation { player: id as u8 } });
            out.push(Delivery::ToOthers { client, message: ServerMessage::ClientConnected { player: id as u8 } });
            let ghost head = deliveries_view(out@);
            announce_others(players, client, &mut out);
            proof {
                assert(head =~= seq![
                    DeliveryView::To { client, message: ServerMessageView::Confirmation { player: id as u8 } },
                    DeliveryView::ToOthers { client, message: ServerMessageView::ClientConnected { player: id as u8 } },
                ]);
                assert(name@ == player_label(id as nat));
            }
            (out, false)
        },
        ClientMessage::BuildSettlement { player_id, vertex_id } => {
            if let Some(d) = turn_refusal(game, *phase, client, player_id) {
                return (d, false);
            }
            let ghost g0 = game@;
            if game.is_well_formed() && game.build_limits_ok() && vertex_id < game.vertex_count() {
                proof {
                    g0.lemma_build_limits(player_id as int, vertex_id, vertex_id);
                }
                if game.build_settlement(player_id as usize, vertex_id).is_ok() {
                    return (succeed(client, player_id, "Settlement built"), false);
                }
            }
            (refuse(client, "Failed to build settlement"), false)
        },
        ClientMessage::BuildRoad { player_id, vertex1, vertex2 } => {
            if let Some(d) = turn_refusal(game, *phase, client, player_id) {
                return (d, false);
            }
            let ghost g0 = game@;
            if game.is_well_formed() && game.build_limits_ok() && vertex1 < game.vertex_count() {
                proof {
                    g0.lemma_build_limits(player_id as int, vertex1, vertex2);
                }
                if game.build_road(player_id as usize, vertex1, vertex2).is_ok() {
                    return (succeed(client, player_id, "Road built"), false);
                }
            }
            (refuse(client, "Failed to build road"), false)
        },
        ClientMessage::BuildCity { player_id, vertex_id } => {
            if let Some(d) = turn_refusal(game, *phase, client, player_id) {
                return (d, false);
            }
            let ghost g0 = game@;
            if game.is_well_formed() && game.build_limits_ok() {
                proof {
                    g0.lemma_build_limits(player_id as int, vertex_id, vertex_id);
                }
                if game.build_city(player_id as usize, vertex_id).is_ok() {
                    return (succeed(client, player_id, "City built"), false);
                }
            }
            (refuse(client, "Failed to build city"), false)
        },
        ClientMessage::RollDice { player_id } => {
            if let Some(d) = turn_refusal(game, *phase, client, player_id) {
                return (d, false);
            }
            let ghost g0 = game@;
            if game.is_well_formed() && game.can_roll() {
                proof {
                    g0.lemma_roll_limits();
                }
                let total = game.roll_dice();
                assert(roll_to(g0, total, game@));
                return (succeed(client, player_id, "Dice rolled"), false);
            }
            (refuse(client, "Failed to roll dice"), false)
        },
        ClientMessage::EndTurn { player_id } => {
            if let Some(d) = turn_refusal(game, *phase, client, player_id) {
                return (d, false);
            }
            game.end_turn();
            (succeed(client, player_id, "Turn ended"), false)
        },
        ClientMessage::ChatMessage { message } => {
            let mut out: Vec<Delivery> = Vec::new();
            out.push(Delivery::ToAll { message: ServerMessage::ChatMessage { message } });
            assert(deliveries_view(out@) =~= seq![DeliveryView::ToAll { message: ServerMessageView::ChatMessage { message: message@ } }]);
            (out, false)
        },
        ClientMessage::GameStart => {
            let mut out: Vec<Delivery> = Vec::new();
            let is_host = match players.host {
                Some(h) => h == client,
                None => false,
            };
            if is_host {
                if players.players.len() > 1 {
                    out.push(Delivery::ToAll { message: ServerMessage::GameStart });
                    *phase = ServerPhase::InGame;
                } else {
                    return (refuse(client, "Need at least one other player to start"), false);
                }
            }
            assert(deliveries_view(out@) =~= (if is_host { seq![DeliveryView::ToAll { message: ServerMessageView::GameStart }] } else { Seq::<DeliveryView>::empty() }));
            (out, false)
        },
        ClientMessage::Disconnect => {
            let mut out: Vec<Delivery> = Vec::new();
            let ghost p0 = players@;
            if let Some(id) = players.remove_client(client) {
                let was_host = match players.host {
                    Some(h) => h == client,
                    None => false,
                };
                if was_host {
                    players.host = if players.players.len() > 0 { Some(players.players[0].0) } else { None };
                }
                out.push(Delivery::ToAll { message: ServerMessage::ClientDisconnected { player: id as u8 } });
                out.push(Delivery::Disconnect { client });
                assert(deliveries_view(out@) =~= seq![
                    DeliveryView::ToAll { message: ServerMessageView::ClientDisconnected { player: id as u8 } },
                    DeliveryView::Disconnect { client },
                ]);
            } else {
                assert(deliveries_view(out@) =~= Seq::<DeliveryView>::empty());
            }
            (out, false)
        },
        _ => {
            let out: Vec<Delivery> = Vec::new();
            assert(deliveries_view(out@) =~= Seq::<DeliveryView>::empty());
            (out, false)
        },
    }
}

/// No two listed clients share a player number.
pub open spec fn ids_distinct(players: Seq<(u64, usize)>) -> bool {
    forall|i: int, j: int| 0 <= i < j < players.len() ==> players[i].1 != players[j].1
}

/// The host, if any, is a listed client.
pub open spec fn host_listed(players: ServerPlayersView) -> bool {
    players.host matches Some(h) ==> position_of(players.players, h) is Some
}

/// A newcomer's player number is one nobody else holds, so numbers stay distinct when a
/// client that was not listed joins.
pub proof fn law_join_keeps_numbers_distinct(players: Seq<(u64, usize)>, client: u64)
    requires
        ids_distinct(players),
        position_of(players, client) is None,
        players.len() < 4,
    ensures
        ids_distinct(with_player(players, client, smallest_free_id(players) as usize)),
{
    let id = smallest_free_id(players);
    lemma_ids_pigeonhole(players, players.len());
    let j = choose|j: nat| j <= players.len() && !id_taken(players, j);
    lemma_smallest_free_exists(players, j);
    let ps = players.push((client, id as usize));
    assert forall|a: int, b: int| 0 <= a < b < ps.len() implies ps[a].1 != ps[b].1 by {
        if b == players.len() {
            assert(!id_taken(players, id));
            assert(players[a].1 != id);
        }
    }
}

/// A client joining keeps the server's game consistent: the newcomer takes a seat at the
/// end of the table and owns nothing, so the game's actions stay open to everyone.
pub proof fn law_join_keeps_game_consistent(
    game: GameView,
    players: ServerPlayersView,
    phase: ServerPhase,
    client: u64,
    game2: GameView,
    players2: ServerPlayersView,
    phase2: ServerPhase,
    out: Seq<DeliveryView>,
    stop: bool,
)
    requires
        game.wf(),
        game.players.len() < usize::MAX,
        answered(game, players, phase, client, ClientMessage::Join, game2, players2, phase2, out, stop),
    ensures
        game2.wf(),
{
    if players.players.len() < 4 {
        let id = smallest_free_id(players.players);
        let np = new_player(id as usize, player_label(id));
        assert forall|i: int| 0 <= i < game2.players.len() implies (#[trigger] game2.players[i]).wf() && game2.players[i].seated(i) by {
            if i < game.players.len() {
                assert(game2.players[i] == game.players[i]);
            } else {
                assert(game2.players[i] == np);
            }
        }
    }
}

/// Some number is free while all smaller ones are taken.
proof fn lemma_smallest_free_exists(players: Seq<(u64, usize)>, j: nat)
    requires
        !id_taken(players, j),
    ensures
        !id_taken(players, smallest_free_id(players)),
        smallest_free_id(players) <= j,
    decreases j,
{
    if forall|k: nat| k < j ==> id_taken(players, k) {
        lemma_smallest_free_id_unique(players, j);
    } else {
        let k = choose|k: nat| k < j && !id_taken(players, k);
        lemma_smallest_free_exists(players, k);
    }
}

/// The host is always a client in the lobby: a join keeps it so (making the newcomer host
/// when there is none), and so does a disconnect (handing the role on when the host leaves).
pub proof fn law_host_stays_listed(
    game: GameView,
    players: ServerPlayersView,
    phase: ServerPhase,
    client: u64,
    msg: ClientMessage,
    game2: GameView,
    players2: ServerPlayersView,
    phase2: ServerPhase,
    out: Seq<DeliveryView>,
    stop: bool,
)
    requires
        clients_distinct(players.players),
        host_listed(players),
        answered(game, players, phase, client, msg, game2, players2, phase2, out, stop),
    ensures
        host_listed(players2),
{
    match msg {
        ClientMessage::Join => {
            if players.players.len() < 4 {
                let id = smallest_free_id(players.players);
                let ps = with_player(players.players, client, id as usize);
                if let Some(h) = players2.host {
                    if h == client {
                        lemma_with_player_lists(players.players, client, id as usize, client);
                    } else {
                        lemma_with_player_lists(players.players, client, id as usize, h);
                    }
                }
            }
        },
        ClientMessage::Disconnect => {
            if let Some(i) = position_of(players.players, client) {
                let rest = players.players.remove(i);
                if let Some(h) = players2.host {
                    if players.host == Some(client) {
                        assert(rest[0].0 == h);
                        assert(position_of(rest, h) is Some);
                    } else {
                        let k = position_of(players.players, h)->0;
                        assert(players.players[k].0 == h);
                        assert(k != i);
                        let k2 = if k < i { k } else { k - 1 };
                        assert(rest[k2].0 == h);
                        assert(position_of(rest, h) is Some);
                    }
                }
            }
        },
        _ => {},
    }
}

/// After `client` is given a number, it is listed, and so is every client listed before.
proof fn lemma_with_player_lists(players: Seq<(u64, usize)>, client: u64, id: usize, x: u64)
    requires
        x == client || position_of(players, x) is Some,
    ensures
        position_of(with_player(players, client, id), x) is Some,
{
    let ps = with_player(players, client, id);
    match position_of(players, client) {
        Some(i) => {
            assert(players[i].0 == client);
            if x == client {
                assert(ps[i].0 == x);
            } else {
                let k = position_of(players, x)->0;
                assert(players[k].0 == x);
                assert(ps[k].0 == x);
            }
        },
        None => {
            if x == client {
                assert(ps[players.len() as int].0 == x);
            } else {
                let k = position_of(players, x)->0;
                assert(players[k].0 == x);
                assert(ps[k].0 == x);
            }
        },
    }
}

/// Numbers `0` to `n` cannot all be taken by `n` clients.
proof fn lemma_ids_pigeonhole(players: Seq<(u64, usize)>, n: nat)
    requires
        players.len() == n,
    ensures
        exists|j: nat| j <= n && !id_taken(players, j),
{
    if forall|j: nat| j <= n ==> id_taken(players, j) {
        lemma_all_taken_impossible(players, n);
    }
}

proof fn lemma_all_taken_impossible(players: Seq<(u64, usize)>, n: nat)
    requires
        players.len() == n,
        forall|j: nat| j <= n ==> id_taken(players, j),
    ensures
        players.len() > n,
{
    let ids = players.map_values(|p: (u64, usize)| p.1 as nat);
    let wanted = Set::new(|j: nat| j <= n);
    assert(wanted =~= vstd::set_lib::set_int_range(0, n as int + 1).map(|i: int| i as nat)) by {
        assert forall|j: nat| wanted.contains(j) implies vstd::set_lib::set_int_range(0, n as int + 1).map(|i: int| i as nat).contains(j) by {
            assert(vstd::set_lib::set_int_range(0, n as int + 1).contains(j as int));
        }
    }
    assert(wanted.subset_of(ids.to_set())) by {
        assert forall|j: nat| wanted.contains(j) implies ids.to_set().contains(j) by {
            assert(id_taken(players, j));
            let i = choose|i: int| 0 <= i < players.len() && players[i].1 == j;
            assert(ids[i] == j);
        }
    }
    vstd::set_lib::lemma_int_range(0, n as int + 1);
    ids.lemma_cardinality_of_set();
    vstd::set_lib::lemma_len_subset(wanted, ids.to_set());
    lemma_range_len(n);
}

/// The numbers `0` to `n` are `n + 1` numbers.
proof fn lemma_range_len(n: nat)
    ensures
        Set::new(|j: nat| j <= n).finite(),
        Set::new(|j: nat| j <= n).len() == n + 1,
    decreases n,
{
    let s = Set::new(|j: nat| j <= n);
    if n == 0 {
        assert(s =~= Set::empty().insert(0nat));
    } else {
        lemma_range_len((n - 1) as nat);
        let t = Set::new(|j: nat| j <= (n - 1) as nat);
        assert(s =~= t.insert(n));
    }
}

/// The number that is free while all smaller ones are taken is the smallest free number.
proof fn lemma_smallest_free_id_unique(players: Seq<(u64, usize)>, id: nat)
    requires
        !id_taken(players, id),
        forall|j: nat| j < id ==> id_taken(players, j),
    ensures
        smallest_free_id(players) == id,
{
    let c = smallest_free_id(players);
    assert(!id_taken(players, c) && forall|j: nat| j < c ==> id_taken(players, j));
    if c < id {
        assert(id_taken(players, c));
    } else if id < c {
        assert(id_taken(players, id));
    }
}

} // verus!
