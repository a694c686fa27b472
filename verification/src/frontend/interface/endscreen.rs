//! The end of a game: the winner, every player's statistics, and who holds the awards.
use vstd::prelude::*;
use crate::backend::game::{Game, Player, PlayerView};
use crate::frontend::screen::GameState;
use crate::text::{decimal, decimal_string};

verus! {

/// One player's statistics at the end of the game.
#[derive(Debug, Clone)]
pub struct PlayerStats {
    pub id: usize,
    pub name: String,
    pub victory_points: u8,
    pub settlements: usize,
    pub cities: usize,
    pub roads: usize,
    /// Cards held, one count per resource slot.
    pub resources: Vec<u8>,
}

pub struct PlayerStatsView {
    pub id: usize,
    pub name: Seq<char>,
    pub victory_points: u8,
    pub settlements: usize,
    pub cities: usize,
    pub roads: usize,
    pub resources: Seq<u8>,
}

impl View for PlayerStats {
    type V = PlayerStatsView;

    open spec fn view(&self) -> PlayerStatsView {
        PlayerStatsView {
            id: self.id,
            name: self.name@,
            victory_points: self.victory_points,
            settlements: self.settlements,
            cities: self.cities,
            roads: self.roads,
            resources: self.resources@,
        }
    }
}

/// The statistics of a player.
pub open spec fn stats_of(p: PlayerView) -> PlayerStatsView {
    PlayerStatsView {
        id: p.id,
        name: p.name,
        victory_points: p.victory_points,
        settlements: p.settlements.len() as usize,
        cities: p.cities.len() as usize,
        roads: p.roads.len() as usize,
        resources: p.resources,
    }
}

/// What the end screen shows: its open windows, the winner, every player's statistics, and
/// the holders of the longest road and the largest army.
#[derive(Debug, Default)]
pub struct EndscreenState {
    pub show_credits: bool,
    pub show_stats: bool,
    pub winner_id: Option<usize>,
    pub stats: Vec<PlayerStats>,
    pub longest_road_owner: Option<usize>,
    pub largest_army_owner: Option<usize>,
}

impl EndscreenState {
    /// Back to nothing shown and nothing recorded, for the next game.
    pub fn reset(&mut self)
        ensures
            !final(self).show_credits,
            !final(self).show_stats,
            final(self).winner_id is None,
            final(self).stats@.len() == 0,
            final(self).longest_road_owner is None,
            final(self).largest_army_owner is None,
    {
        self.show_credits = false;
        self.show_stats = false;
        self.winner_id = None;
        self.stats.clear();
        self.longest_road_owner = None;
        self.largest_army_owner = None;
    }
}

/// The first player with at least 10 victory points, from seat `i` on.
pub open spec fn first_winner_from(players: Seq<PlayerView>, i: int) -> Option<usize>
    decreases players.len() - i,
{
    if i < 0 || i >= players.len() {
        None
    } else if players[i].victory_points >= 10 {
        Some(players[i].id)
    } else {
        first_winner_from(players, i + 1)
    }
}

/// The statistics of one player.
fn player_stats(p: &Player) -> (s: PlayerStats)
    ensures
        s@ == stats_of(p@),
{
    PlayerStats {
        id: p.id,
        name: p.name.clone(),
        victory_points: p.victory_points,
        settlements: p.settlements.len(),
        cities: p.cities.len(),
        roads: p.roads.len(),
        resources: p.resources.clone(),
    }
}

/// Brings the end screen up to date with the game: every player's statistics and the award
/// holders are copied; the first player with 10 victory points, if any, becomes the winner
/// unless one was already recorded, and then the end screen is the next screen.
pub fn check_for_endgame(game: &Game, endscreen_state: &mut EndscreenState) -> (next: Option<GameState>)
    ensures
        final(endscreen_state).stats@.map_values(|s: PlayerStats| s@) == game@.players.map_values(|p: PlayerView| stats_of(p)),
        final(endscreen_state).longest_road_owner == game@.longest_road_owner,
        final(endscreen_state).largest_army_owner == game@.largest_army_owner,
        final(endscreen_state).show_credits == old(endscreen_state).show_credits,
        final(endscreen_state).show_stats == old(endscreen_state).show_stats,
        old(endscreen_state).winner_id is None && first_winner_from(game@.players, 0) is Some ==> {
            &&& final(endscreen_state).winner_id == first_winner_from(game@.players, 0)
            &&& next == Some(GameState::EndScreen)
        },
        !(old(endscreen_state).winner_id is None && first_winner_from(game@.players, 0) is Some) ==> {
            &&& final(endscreen_state).winner_id == old(endscreen_state).winner_id
            &&& next is None
        },
{
    let players = game.players();
    let n = players.len();
    let mut stats: Vec<PlayerStats> = Vec::new();
    let mut winner: Option<usize> = None;
    let mut i: usize = 0;
    while i < n
        invariant
            n == players@.len(),
            players@.map_values(|p: Player| p@) == game@.players,
            i <= n,
            stats@.len() == i,
            forall|k: int| 0 <= k < i ==> (#[trigger] stats@[k])@ == stats_of(game@.players[k]),
            winner is None ==> first_winner_from(game@.players, 0) == first_winner_from(game@.players, i as int),
            winner is Some ==> winner == first_winner_from(game@.players, 0),
        decreases n - i,
    {
        let p = &players[i];
        assert(p@ == game@.players[i as int]);
        if winner.is_none() && p.victory_points >= 10 {
            winner = Some(p.id);
        }
        stats.push(player_stats(p));
        i += 1;
    }
    proof {
        assert(stats@.map_values(|s: PlayerStats| s@) =~= game@.players.map_values(|p: PlayerView| stats_of(p)));
    }
    endscreen_state.stats = stats;
    endscreen_state.longest_road_owner = game.longest_road_holder();
    endscreen_state.largest_army_owner = game.largest_army_holder();
    if endscreen_state.winner_id.is_none() {
        if let Some(w) = winner {
            endscreen_state.winner_id = Some(w);
            return Some(GameState::EndScreen);
        }
    }
    None
}

/// A hand written out: "Brick: b, Lumber: l, Wool: w, Grain: g, Ore: o".
pub open spec fn resources_text(r: Seq<u8>) -> Seq<char> {
    "Brick: "@ + decimal(r[0] as nat) + ", Lumber: "@ + decimal(r[1] as nat) + ", Wool: "@ + decimal(r[2] as nat)
        + ", Grain: "@ + decimal(r[3] as nat) + ", Ore: "@ + decimal(r[4] as nat)
}

/// The cards of a hand, kind by kind.
pub fn format_resources(resources: &Vec<u8>) -> (s: String)
    requires
        resources@.len() >= 5,
    ensures
        s@ == resources_text(resources@),
{
    let mut s = String::from_str("Brick: ");
    s.append(decimal_string(resources[0] as usize).as_str());
    s.append(", Lumber: ");
    s.append(decimal_string(resources[1] as usize).as_str());
    s.append(", Wool: ");
    s.append(decimal_string(resources[2] as usize).as_str());
    s.append(", Grain: ");
    s.append(decimal_string(resources[3] as usize).as_str());
    s.append(", Ore: ");
    s.append(decimal_string(resources[4] as usize).as_str());
    s
}

/// The position of the first statistics entry of player `id`, from position `i` on.
pub open spec fn stats_position(stats: Seq<PlayerStats>, id: usize, i: int) -> Option<int>
    decreases stats.len() - i,
{
    if i < 0 || i >= stats.len() {
        None
    } else if stats[i].id == id {
        Some(i)
    } else {
        stats_position(stats, id, i + 1)
    }
}

/// The name of player `player_id` in the statistics, if there is one.
pub fn player_name(stats: &Vec<PlayerStats>, player_id: Option<usize>) -> (r: Option<&str>)
    ensures
        r is Some == (player_id matches Some(id) && stats_position(stats@, id, 0) is Some),
        r matches Some(name) ==> name@ == stats@[stats_position(stats@, player_id->0, 0)->0].name@,
{
    let id = match player_id {
        Some(id) => id,
        None => return None,
    };
    let n = stats.len();
    let mut i: usize = 0;
    while i < n
        invariant
            n == stats@.len(),
            i <= n,
            player_id == Some(id),
            stats_position(stats@, id, 0) == stats_position(stats@, id, i as int),
        decreases n - i,
    {
        if stats[i].id == id {
            assert(stats_position(stats@, id, i as int) == Some(i as int));
            return Some(stats[i].name.as_str());
        }
        assert(stats_position(stats@, id, i as int) == stats_position(stats@, id, i + 1));
        i += 1;
    }
    assert(stats_position(stats@, id, n as int) is None);
    None
}

} // verus!
