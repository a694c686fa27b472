//! A player's requests: played on this machine, or sent to the server in a network game;
//! and what the board screen remembers while a request is being put together.
use vstd::prelude::*;
use crate::backend::game::{DevCard, Game, Resource};
use crate::backend::networking::config::GameMode;
use crate::backend::networking::protocol::ClientMessage;

verus! {

/// The vertices clicked so far for a road (at most the last two).
#[derive(Debug, Default)]
pub struct RoadBuildingState {
    pub last_two_vertices: Vec<usize>,
}

/// What the player is building in normal play.
#[derive(Debug, Default, Clone, Copy, PartialEq, Eq, Structural)]
pub enum BuildingMode {
    /// Not building.
    #[default]
    Idle,
    BuildingRoad,
    BuildingSettlement,
    UpgradingCity,
}

/// The development card being played and the choices made for it so far.
#[derive(Debug, Default)]
pub struct DevCardPlayState {
    /// The card's kind and its number in the hand.
    pub selected_card: Option<(DevCard, usize)>,
    pub awaiting_input: Option<DevCard>,
    /// For a knight: the robber's new tile and the player to rob.
    pub selected_tile: Option<usize>,
    pub selected_victim: Option<usize>,
    /// For a monopoly.
    pub selected_resource: Option<Resource>,
    /// For road building.
    pub road_building_roads: Vec<(usize, usize)>,
    /// For year of plenty.
    pub year_resources: Vec<Resource>,
}

/// The robber's move after a seven.
#[derive(Debug, Default)]
pub struct RobberMoveState {
    pub needs_movement: bool,
    pub selected_tile: Option<usize>,
    pub selected_victim: Option<usize>,
}

/// A settlement on `vertex_id` for player `player_id`: built here in a local game (when the
/// game is consistent and no count can leave its range), or returned as the message to send
/// in a network game.
pub fn request_build_settlement(mode: GameMode, game: &mut Game, player_id: usize, vertex_id: usize) -> (r: Option<ClientMessage>)
    ensures
        mode == GameMode::Multiplayer ==> final(game)@ == old(game)@
            && r == Some(ClientMessage::BuildSettlement { player_id: player_id as u8, vertex_id }),
        mode == GameMode::Local ==> r is None && final(game)@ == (if old(game)@.wf() && old(game)@.within_build_limits()
            && player_id < old(game)@.players.len() && vertex_id < old(game)@.vertices.len() {
            old(game)@.build_settlement_outcome(player_id as int, vertex_id).0
        } else {
            old(game)@
        }),
{
    match mode {
        GameMode::Local => {
            let ghost g0 = game@;
            if game.is_well_formed() && game.build_limits_ok() && player_id < game.player_count() && vertex_id < game.vertex_count() {
                proof {
                    g0.lemma_build_limits(player_id as int, vertex_id, vertex_id);
                }
                let _ = game.build_settlement(player_id, vertex_id);
            }
            None
        },
        GameMode::Multiplayer => Some(ClientMessage::BuildSettlement { player_id: player_id as u8, vertex_id }),
    }
}

/// A road from `v1` to `v2` for player `player_id`, built here or sent (as for settlements).
pub fn request_build_road(mode: GameMode, game: &mut Game, player_id: usize, v1: usize, v2: usize) -> (r: Option<ClientMessage>)
    ensures
        mode == GameMode::Multiplayer ==> final(game)@ == old(game)@
            && r == Some(ClientMessage::BuildRoad { player_id: player_id as u8, vertex1: v1, vertex2: v2 }),
        mode == GameMode::Local ==> r is None && final(game)@ == (if old(game)@.wf() && old(game)@.within_build_limits()
            && player_id < old(game)@.players.len() && v1 < old(game)@.vertices.len() {
            old(game)@.build_road_outcome(player_id as int, v1, v2).0
        } else {
            old(game)@
        }),
{
    match mode {
        GameMode::Local => {
            let ghost g0 = game@;
            if game.is_well_formed() && game.build_limits_ok() && player_id < game.player_count() && v1 < game.vertex_count() {
                proof {
                    g0.lemma_build_limits(player_id as int, v1, v2);
                }
                let _ = game.build_road(player_id, v1, v2);
            }
            None
        },
        GameMode::Multiplayer => Some(ClientMessage::BuildRoad { player_id: player_id as u8, vertex1: v1, vertex2: v2 }),
    }
}

/// An upgrade of player `player_id`'s settlement on `vertex_id`, built here or sent.
pub fn request_build_city(mode: GameMode, game: &mut Game, player_id: usize, vertex_id: usize) -> (r: Option<ClientMessage>)
    ensures
        mode == GameMode::Multiplayer ==> final(game)@ == old(game)@
            && r == Some(ClientMessage::BuildCity { player_id: player_id as u8, vertex_id }),
        mode == GameMode::Local ==> r is None && final(game)@ == (if old(game)@.wf() && old(game)@.within_build_limits()
            && player_id < old(game)@.players.len() {
            old(game)@.build_city_outcome(player_id as int, vertex_id).0
        } else {
            old(game)@
        }),
{
    match mode {
        GameMode::Local => {
            let ghost g0 = game@;
            if game.is_well_formed() && game.build_limits_ok() && player_id < game.player_count() {
                proof {
                    g0.lemma_build_limits(player_id as int, vertex_id, vertex_id);
                }
                let _ = game.build_city(player_id, vertex_id);
            }
            None
        },
        GameMode::Multiplayer => Some(ClientMessage::BuildCity { player_id: player_id as u8, vertex_id }),
    }
}

/// A development card bought by player `player_id`, here or through the server.
pub fn request_buy_devcard(mode: GameMode, game: &mut Game, player_id: usize) -> (r: Option<ClientMessage>)
    ensures
        mode == GameMode::Multiplayer ==> final(game)@ == old(game)@
            && r == Some(ClientMessage::BuyDevCard { player_id: player_id as u8 }),
        mode == GameMode::Local ==> r is None && final(game)@ == (if old(game)@.wf() && player_id < old(game)@.players.len() {
            old(game)@.buy_dev_card_outcome(player_id as int).0
        } else {
            old(game)@
        }),
{
    match mode {
        GameMode::Local => {
            if game.is_well_formed() && player_id < game.player_count() {
                let _ = game.buy_dev_card(player_id);
            }
            None
        },
        GameMode::Multiplayer => Some(ClientMessage::BuyDevCard { player_id: player_id as u8 }),
    }
}

/// A roll of the dice: in a local game rolled here, when no count can leave its range, and
/// its total returned; in a network game the message to send (the result comes back later).
pub fn request_roll_dice(mode: GameMode, game: &mut Game, player_id: usize) -> (r: (Option<u8>, Option<ClientMessage>))
    ensures
        mode == GameMode::Multiplayer ==> final(game)@ == old(game)@
            && r == (None::<u8>, Some(ClientMessage::RollDice { player_id: player_id as u8 })),
        mode == GameMode::Local ==> r.1 is None && if old(game)@.wf() && old(game)@.within_roll_limits() {
            r.0 matches Some(total) && 2 <= total <= 12
                && (total == 7 ==> old(game)@.seven_outcome(final(game)@))
                && (total != 7 ==> final(game)@ == old(game)@.harvest(total))
        } else {
            r.0 is None && final(game)@ == old(game)@
        },
{
    match mode {
        GameMode::Local => {
            let ghost g0 = game@;
            if game.is_well_formed() && game.can_roll() {
                proof {
                    g0.lemma_roll_limits();
                }
                (Some(game.roll_dice()), None)
            } else {
                (None, None)
            }
        },
        GameMode::Multiplayer => (None, Some(ClientMessage::RollDice { player_id: player_id as u8 })),
    }
}

/// The end of player `player_id`'s turn: in a local game the turn passes on here (when every
/// card can grow older), in a network game the message to send.
pub fn request_end_turn(mode: GameMode, game: &mut Game, player_id: usize) -> (r: Option<ClientMessage>)
    ensures
        mode == GameMode::Multiplayer ==> final(game)@ == old(game)@
            && r == Some(ClientMessage::EndTurn { player_id: player_id as u8 }),
        mode == GameMode::Local ==> r is None && final(game)@ == (if old(game)@.wf() && old(game)@.cards_can_age() {
            old(game)@.after_next_turn()
        } else {
            old(game)@
        }),
{
    match mode {
        GameMode::Local => {
            if game.is_well_formed() && game.can_age_cards() {
                game.next_turn();
            }
            None
        },
        GameMode::Multiplayer => Some(ClientMessage::EndTurn { player_id: player_id as u8 }),
    }
}

} // verus!
