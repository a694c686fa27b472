//! The board screen's decisions: where the current player may build, which road a preview
//! shows, whom the robber can rob, and what a development card is played with.
use vstd::prelude::*;
use std::collections::HashSet;
use crate::backend::game::{DevCard, DevCardInput, Game, GameView, Player, PlayerView, Vertex, contains_usize};
use crate::backend::game::building::has_road_at;
pub use crate::backend::networking::game_request::{BuildingMode, DevCardPlayState, RobberMoveState, RoadBuildingState};

verus! {

broadcast use vstd::std_specs::hash::group_hash_axioms;

/// The standard map (at most 19 tiles), where building limits apply.
pub fn is_standard_board(game: &Game) -> (b: bool)
    ensures
        b == game@.is_standard(),
{
    game.tiles().len() <= 19
}

/// The colour of a player's pieces: red, blue, green, yellow, and white for any other.
pub fn player_color_rgb(player_id: usize) -> (c: (u8, u8, u8))
    ensures
        c == (if player_id == 0 {
            (200u8, 50u8, 50u8)
        } else if player_id == 1 {
            (50u8, 100u8, 200u8)
        } else if player_id == 2 {
            (50u8, 200u8, 50u8)
        } else if player_id == 3 {
            (220u8, 200u8, 50u8)
        } else {
            (255u8, 255u8, 255u8)
        }),
{
    match player_id {
        0 => (200, 50, 50),
        1 => (50, 100, 200),
        2 => (50, 200, 50),
        3 => (220, 200, 50),
        _ => (255, 255, 255),
    }
}

/// Vertex number `j` of the board is free for a settlement of player `p`: nobody has built
/// on it or on a neighbor, and (outside the setup rounds) one of the player's roads ends
/// there.
pub open spec fn settlement_spot(g: GameView, p: int, is_setup: bool, j: int) -> bool {
    let v = g.vertices[j];
    &&& !g.occupied(v.id)
    &&& !(exists|k: int| 0 <= k < v.neighbors.len() && g.occupied(#[trigger] v.neighbors[k]))
    &&& (is_setup || g.players[p].has_road_at(v.id))
}

/// Where player `p` may place a settlement; nowhere once they have five on the standard map.
pub open spec fn settlement_spots(g: GameView, p: int, is_setup: bool) -> Set<usize> {
    if g.is_standard() && g.players[p].settlements.len() >= 5 {
        Set::empty()
    } else {
        Set::new(|v: usize| exists|j: int| 0 <= j < g.vertices.len() && #[trigger] g.vertices[j].id == v && settlement_spot(g, p, is_setup, j))
    }
}

/// Where player `p` may build a city: on their settlements that are not cities yet; nowhere
/// once they have four cities on the standard map.
pub open spec fn city_spots(g: GameView, p: int) -> Set<usize> {
    if g.is_standard() && g.players[p].cities.len() >= 4 {
        Set::empty()
    } else {
        Set::new(|v: usize| g.players[p].settlements.contains(v) && !g.players[p].cities.contains(v))
    }
}

/// The edge from vertex number `j` to its neighbor number `k`, written `(a, b)` with
/// `a < b`, is free for a road of player `p`: it touches `required` when that is given,
/// nobody has a road there, and (outside the setup rounds) it touches the player's
/// buildings or roads.
pub open spec fn road_spot(g: GameView, p: int, is_setup: bool, required: Option<usize>, j: int, k: int) -> bool {
    let a = g.vertices[j].id;
    let b = g.vertices[j].neighbors[k];
    &&& a < b
    &&& (required matches Some(r) ==> a == r || b == r)
    &&& !(exists|q: int| 0 <= q < g.players.len() && (#[trigger] g.players[q]).roads.contains((a, b)))
    &&& (is_setup || GameView::road_connected(g.players[p], a, b))
}

/// Where player `p` may build a road; nowhere once they have fifteen on the standard map, or
/// during setup before a settlement to build from is known.
pub open spec fn road_spots(g: GameView, p: int, is_setup: bool, required: Option<usize>) -> Set<(usize, usize)> {
    if g.is_standard() && g.players[p].roads.len() >= 15 {
        Set::empty()
    } else if is_setup && required is None {
        Set::empty()
    } else {
        Set::new(|e: (usize, usize)| exists|j: int, k: int|
            0 <= j < g.vertices.len() && 0 <= k < g.vertices[j].neighbors.len()
                && #[trigger] g.vertices[j].neighbors[k] == e.1 && g.vertices[j].id == e.0 && road_spot(g, p, is_setup, required, j, k))
    }
}

/// Whether some player has a building on `v`.
fn occupied_in(players: &Vec<Player>, v: usize) -> (b: bool)
    ensures
        b == exists|q: int| 0 <= q < players@.len() && (#[trigger] players@[q])@.owns_building_at(v),
{
    let n = players.len();
    let mut q: usize = 0;
    while q < n
        invariant
            n == players@.len(),
            q <= n,
            forall|r: int| 0 <= r < q ==> !(#[trigger] players@[r])@.owns_building_at(v),
        decreases n - q,
    {
        if contains_usize(&players[q].settlements, v) || contains_usize(&players[q].cities, v) {
            return true;
        }
        q += 1;
    }
    false
}

/// Whether some player has a road with exactly these ends.
fn road_in(players: &Vec<Player>, road: (usize, usize)) -> (b: bool)
    ensures
        b == exists|q: int| 0 <= q < players@.len() && (#[trigger] players@[q])@.roads.contains(road),
{
    let n = players.len();
    let mut q: usize = 0;
    while q < n
        invariant
            n == players@.len(),
            q <= n,
            forall|r: int| 0 <= r < q ==> !(#[trigger] players@[r])@.roads.contains(road),
        decreases n - q,
    {
        if crate::backend::game::building::contains_road(&players[q].roads, road) {
            return true;
        }
        q += 1;
    }
    false
}

/// The vertices where player `player_id` may place a settlement.
pub fn buildable_settlement_vertices(game: &Game, player_id: usize, is_setup: bool) -> (r: HashSet<usize>)
    requires
        player_id < game@.players.len(),
    ensures
        r@ == settlement_spots(game@, player_id as int, is_setup),
{
    let ghost g = game@;
    let players = game.players();
    let vertices = game.vertices();
    proof {
        lemma_players_view(players@, g);
        lemma_vertices_view(vertices@, g);
    }
    let player = &players[player_id];
    if is_standard_board(game) && player.settlements.len() >= 5 {
        let empty: HashSet<usize> = HashSet::new();
        assert(empty@ =~= settlement_spots(g, player_id as int, is_setup));
        return empty;
    }
    let mut buildable: HashSet<usize> = HashSet::new();
    let n = vertices.len();
    let mut j: usize = 0;
    while j < n
        invariant
            g == game@,
            n == g.vertices.len(),
            j <= n,
            player_id < g.players.len(),
            player@ == g.players[player_id as int],
            players@.len() == g.players.len(),
            forall|q: int| 0 <= q < players@.len() ==> (#[trigger] players@[q])@ == g.players[q],
            forall|v: usize| g.occupied(v) == exists|q: int| 0 <= q < players@.len() && (#[trigger] players@[q])@.owns_building_at(v),
            forall|i: int| 0 <= i < vertices@.len() ==> (#[trigger] vertices@[i])@ == g.vertices[i],
            vertices@.len() == n,
            buildable@ == Set::new(|v: usize| exists|i: int| 0 <= i < j && #[trigger] g.vertices[i].id == v && settlement_spot(g, player_id as int, is_setup, i)),
        decreases n - j,
    {
        let vertex = &vertices[j];
        let vertex_id = vertex.id;
        assert(vertex@ == g.vertices[j as int]);
        let occupied = occupied_in(players, vertex_id);
        let mut neighbor_occupied = false;
        let m = vertex.neighbors.len();
        let mut k: usize = 0;
        while k < m && !neighbor_occupied
            invariant
                m == vertex.neighbors@.len(),
                vertex@ == g.vertices[j as int],
                k <= m,
                forall|v: usize| g.occupied(v) == exists|q: int| 0 <= q < players@.len() && (#[trigger] players@[q])@.owns_building_at(v),
                neighbor_occupied == exists|i: int| 0 <= i < k && g.occupied(#[trigger] vertex.neighbors@[i]),
            decreases m - k,
        {
            if occupied_in(players, vertex.neighbors[k]) {
                neighbor_occupied = true;
            }
            k += 1;
        }
        let connected = is_setup || has_road_at(&player.roads, vertex_id);
        let ghost before = buildable@;
        if !occupied && !neighbor_occupied && connected {
            buildable.insert(vertex_id);
        }
        proof {
            let gv = g.vertices[j as int];
            assert(occupied == g.occupied(gv.id));
            assert(vertex.neighbors@ == gv.neighbors);
            if neighbor_occupied {
                let i = choose|i: int| 0 <= i < k && g.occupied(#[trigger] vertex.neighbors@[i]);
                assert(g.occupied(gv.neighbors[i]));
            } else {
                assert forall|i: int| 0 <= i < gv.neighbors.len() implies !g.occupied(#[trigger] gv.neighbors[i]) by {
                    assert(!g.occupied(vertex.neighbors@[i]));
                }
            }
            assert(neighbor_occupied == exists|i: int| 0 <= i < gv.neighbors.len() && g.occupied(#[trigger] gv.neighbors[i]));
            let pv = g.players[player_id as int];
            assert(player.roads@ == pv.roads);
            if !is_setup {
                if pv.has_road_at(gv.id) {
                    let i = choose|i: int| #![trigger pv.roads[i]] 0 <= i < pv.roads.len() && (pv.roads[i].0 == gv.id || pv.roads[i].1 == gv.id);
                    assert(player.roads@[i] == pv.roads[i]);
                }
                if connected {
                    let i = choose|i: int| #![trigger player.roads@[i]] 0 <= i < player.roads@.len() && (player.roads@[i].0 == vertex_id || player.roads@[i].1 == vertex_id);
                    assert(player.roads@[i] == pv.roads[i]);
                }
            }
            assert(connected == (is_setup || g.players[player_id as int].has_road_at(gv.id)));
            assert(settlement_spot(g, player_id as int, is_setup, j as int) == (!occupied && !neighbor_occupied && connected));
            assert(buildable@ =~= Set::new(|v: usize| exists|i: int| 0 <= i < j + 1 && #[trigger] g.vertices[i].id == v && settlement_spot(g, player_id as int, is_setup, i))) by {
                assert forall|v: usize| buildable@.contains(v) == (exists|i: int| 0 <= i < j + 1 && #[trigger] g.vertices[i].id == v && settlement_spot(g, player_id as int, is_setup, i)) by {
                    if exists|i: int| 0 <= i < j + 1 && #[trigger] g.vertices[i].id == v && settlement_spot(g, player_id as int, is_setup, i) {
                        let i = choose|i: int| 0 <= i < j + 1 && #[trigger] g.vertices[i].id == v && settlement_spot(g, player_id as int, is_setup, i);
                        if i < j {
                            assert(before.contains(v));
                        }
                    }
                }
            }
        }
        j += 1;
    }
    assert(buildable@ =~= settlement_spots(g, player_id as int, is_setup));
    buildable
}

/// The vertices where player `player_id` may build a city.
pub fn buildable_city_vertices(game: &Game, player_id: usize) -> (r: HashSet<usize>)
    requires
        player_id < game@.players.len(),
    ensures
        r@ == city_spots(game@, player_id as int),
{
    let ghost g = game@;
    let players = game.players();
    proof {
        lemma_players_view(players@, g);
    }
    let player = &players[player_id];
    let mut buildable: HashSet<usize> = HashSet::new();
    if is_standard_board(game) && player.cities.len() >= 4 {
        assert(buildable@ =~= city_spots(g, player_id as int));
        return buildable;
    }
    let n = player.settlements.len();
    let mut i: usize = 0;
    while i < n
        invariant
            player@ == g.players[player_id as int],
            n == player.settlements@.len(),
            i <= n,
            buildable@ == Set::new(|v: usize| exists|k: int| 0 <= k < i && #[trigger] player.settlements@[k] == v && !player.cities@.contains(v)),
        decreases n - i,
    {
        let v = player.settlements[i];
        let ghost before = buildable@;
        if !contains_usize(&player.cities, v) {
            buildable.insert(v);
        }
        proof {
            assert(buildable@ =~= Set::new(|w: usize| exists|k: int| 0 <= k < i + 1 && #[trigger] player.settlements@[k] == w && !player.cities@.contains(w))) by {
                assert forall|w: usize| buildable@.contains(w) == (exists|k: int| 0 <= k < i + 1 && #[trigger] player.settlements@[k] == w && !player.cities@.contains(w)) by {
                    if exists|k: int| 0 <= k < i + 1 && #[trigger] player.settlements@[k] == w && !player.cities@.contains(w) {
                        let k = choose|k: int| 0 <= k < i + 1 && #[trigger] player.settlements@[k] == w && !player.cities@.contains(w);
                        if k < i {
                            assert(before.contains(w));
                        }
                    }
                }
            }
        }
        i += 1;
    }
    assert(buildable@ =~= city_spots(g, player_id as int));
    buildable
}

/// Edge `e` is the edge from vertex number `j` to its neighbor number `k`, and free for a
/// road of player `p`.
pub open spec fn road_spot_at(g: GameView, p: int, is_setup: bool, required: Option<usize>, e: (usize, usize), j: int, k: int) -> bool {
    &&& 0 <= j < g.vertices.len()
    &&& 0 <= k < g.vertices[j].neighbors.len()
    &&& g.vertices[j].neighbors[k] == e.1
    &&& g.vertices[j].id == e.0
    &&& road_spot(g, p, is_setup, required, j, k)
}

/// The free edges among the neighbors of the first `j` vertices and the first `k`
/// neighbors of vertex number `j`.
pub open spec fn road_spots_before(g: GameView, p: int, is_setup: bool, required: Option<usize>, j: int, k: int) -> Set<(usize, usize)> {
    Set::new(|e: (usize, usize)| exists|j2: int, k2: int|
        (j2 < j || (j2 == j && k2 < k)) && #[trigger] road_spot_at(g, p, is_setup, required, e, j2, k2))
}

/// The edges where player `player_id` may build a road, each once.
pub fn buildable_road_edges(game: &Game, player_id: usize, is_setup: bool, required_vertex: Option<usize>) -> (r: Vec<(usize, usize)>)
    requires
        player_id < game@.players.len(),
    ensures
        r@.no_duplicates(),
        r@.to_set() == road_spots(game@, player_id as int, is_setup, required_vertex),
{
    let ghost g = game@;
    let ghost p = player_id as int;
    let players = game.players();
    let vertices = game.vertices();
    proof {
        lemma_players_view(players@, g);
        lemma_vertices_view(vertices@, g);
    }
    let player = &players[player_id];
    let mut edges: Vec<(usize, usize)> = Vec::new();
    if is_standard_board(game) && player.roads.len() >= 15 {
        assert(edges@.to_set() =~= road_spots(g, p, is_setup, required_vertex));
        return edges;
    }
    if is_setup && required_vertex.is_none() {
        assert(edges@.to_set() =~= road_spots(g, p, is_setup, required_vertex));
        return edges;
    }
    let n = vertices.len();
    let mut j: usize = 0;
    while j < n
        invariant
            g == game@,
            n == g.vertices.len(),
            j <= n,
            p == player_id as int,
            player_id < g.players.len(),
            player@ == g.players[p],
            players@.len() == g.players.len(),
            forall|q: int| 0 <= q < players@.len() ==> (#[trigger] players@[q])@ == g.players[q],
            forall|i: int| 0 <= i < vertices@.len() ==> (#[trigger] vertices@[i])@ == g.vertices[i],
            vertices@.len() == n,
            edges@.no_duplicates(),
            edges@.to_set() == road_spots_before(g, p, is_setup, required_vertex, j as int, 0),
        decreases n - j,
    {
        let vertex = &vertices[j];
        let a = vertex.id;
        assert(vertex@ == g.vertices[j as int]);
        let m = vertex.neighbors.len();
        let mut k: usize = 0;
        while k < m
            invariant
                g == game@,
                n == g.vertices.len(),
                j < n,
                p == player_id as int,
                player_id < g.players.len(),
                player@ == g.players[p],
                players@.len() == g.players.len(),
                forall|q: int| 0 <= q < players@.len() ==> (#[trigger] players@[q])@ == g.players[q],
                vertex@ == g.vertices[j as int],
                a == g.vertices[j as int].id,
                m == g.vertices[j as int].neighbors.len(),
                k <= m,
                edges@.no_duplicates(),
                edges@.to_set() == road_spots_before(g, p, is_setup, required_vertex, j as int, k as int),
            decreases m - k,
        {
            let b = vertex.neighbors[k];
            let ghost before = edges@;
            if a < b {
                let matches_required = match required_vertex {
                    Some(required) => a == required || b == required,
                    None => true,
                };
                if matches_required && !road_in(players, (a, b)) {
                    let connected = is_setup || contains_usize(&player.settlements, a) || contains_usize(&player.cities, a)
                        || has_road_at(&player.roads, a) || contains_usize(&player.settlements, b)
                        || contains_usize(&player.cities, b) || has_road_at(&player.roads, b);
                    proof {
                        lemma_has_road_at_view(player.roads@, g.players[p], a);
                        lemma_has_road_at_view(player.roads@, g.players[p], b);
                        assert(!(exists|q: int| 0 <= q < g.players.len() && (#[trigger] g.players[q]).roads.contains((a, b)))) by {
                            if exists|q: int| 0 <= q < g.players.len() && (#[trigger] g.players[q]).roads.contains((a, b)) {
                                let q = choose|q: int| 0 <= q < g.players.len() && (#[trigger] g.players[q]).roads.contains((a, b));
                                assert(players@[q]@ == g.players[q]);
                            }
                        }
                        assert(connected == (is_setup || GameView::road_connected(g.players[p], a, b)));
                        assert(road_spot(g, p, is_setup, required_vertex, j as int, k as int) == connected);
                    }
                    if connected && !crate::backend::game::building::contains_road(&edges, (a, b)) {
                        edges.push((a, b));
                        assert(edges@[before.len() as int] == (a, b));
                        proof {
                            assert forall|x: int, y: int| 0 <= x < y < edges@.len() implies edges@[x] != edges@[y] by {
                                if y == before.len() {
                                    assert(before[x] != (a, b));
                                }
                            }
                        }
                    }
                    assert(connected ==> edges@.contains((a, b)));
                } else {
                    proof {
                        if matches_required {
                            let q = choose|q: int| 0 <= q < players@.len() && (#[trigger] players@[q])@.roads.contains((a, b));
                            assert(g.players[q] == players@[q]@);
                        }
                        assert(!road_spot(g, p, is_setup, required_vertex, j as int, k as int));
                    }
                }
            }
            proof {
                let e = (a, b);
                assert(road_spot_at(g, p, is_setup, required_vertex, e, j as int, k as int) == road_spot(g, p, is_setup, required_vertex, j as int, k as int));
                assert(edges@.to_set() =~= road_spots_before(g, p, is_setup, required_vertex, j as int, k + 1)) by {
                    assert forall|x: (usize, usize)| edges@.to_set().contains(x) == road_spots_before(g, p, is_setup, required_vertex, j as int, k + 1).contains(x) by {
                        if road_spots_before(g, p, is_setup, required_vertex, j as int, k + 1).contains(x) {
                            let (j2, k2) = choose|j2: int, k2: int| (j2 < j || (j2 == j && k2 < k + 1)) && #[trigger] road_spot_at(g, p, is_setup, required_vertex, x, j2, k2);
                            if j2 < j || k2 < k {
                                assert(road_spots_before(g, p, is_setup, required_vertex, j as int, k as int).contains(x));
                                assert(before.to_set().contains(x));
                                assert(before.contains(x));
                                let i = choose|i: int| 0 <= i < before.len() && before[i] == x;
                                assert(edges@[i] == x);
                            } else {
                                assert(x == e);
                                assert(edges@.contains(e));
                            }
                        }
                        if edges@.to_set().contains(x) {
                            assert(edges@.contains(x));
                            if before.contains(x) {
                                assert(before.to_set().contains(x));
                            } else {
                                assert(x == e);
                                assert(road_spot_at(g, p, is_setup, required_vertex, x, j as int, k as int));
                            }
                        }
                    }
                }
            }
            k += 1;
        }
        proof {
            assert(road_spots_before(g, p, is_setup, required_vertex, j as int, m as int) =~= road_spots_before(g, p, is_setup, required_vertex, j + 1, 0)) by {
                assert forall|x: (usize, usize)| road_spots_before(g, p, is_setup, required_vertex, j + 1, 0).contains(x) implies
                    road_spots_before(g, p, is_setup, required_vertex, j as int, m as int).contains(x) by {
                    let (j2, k2) = choose|j2: int, k2: int| (j2 < j + 1 || (j2 == j + 1 && k2 < 0)) && #[trigger] road_spot_at(g, p, is_setup, required_vertex, x, j2, k2);
                    assert(j2 < j || (j2 == j && k2 < m));
                }
            }
        }
        j += 1;
    }
    proof {
        assert(road_spots_before(g, p, is_setup, required_vertex, n as int, 0) =~= road_spots(g, p, is_setup, required_vertex)) by {
            assert forall|x: (usize, usize)| road_spots(g, p, is_setup, required_vertex).contains(x) implies
                road_spots_before(g, p, is_setup, required_vertex, n as int, 0).contains(x) by {
                let (j2, k2) = choose|j2: int, k2: int| 0 <= j2 < g.vertices.len() && 0 <= k2 < g.vertices[j2].neighbors.len()
                    && #[trigger] g.vertices[j2].neighbors[k2] == x.1 && g.vertices[j2].id == x.0 && road_spot(g, p, is_setup, required_vertex, j2, k2);
                assert(road_spot_at(g, p, is_setup, required_vertex, x, j2, k2));
            }
            assert forall|x: (usize, usize)| road_spots_before(g, p, is_setup, required_vertex, n as int, 0).contains(x) implies
                road_spots(g, p, is_setup, required_vertex).contains(x) by {
                let (j2, k2) = choose|j2: int, k2: int| (j2 < n || (j2 == n && k2 < 0)) && #[trigger] road_spot_at(g, p, is_setup, required_vertex, x, j2, k2);
                assert(g.vertices[j2].neighbors[k2] == x.1);
            }
        }
    }
    edges
}

/// A player's roads seen through the player's view: a road ends at `v` in one exactly when
/// it does in the other.
proof fn lemma_has_road_at_view(roads: Seq<(usize, usize)>, pv: PlayerView, v: usize)
    requires
        roads == pv.roads,
    ensures
        pv.has_road_at(v) == exists|i: int| #![trigger roads[i]] 0 <= i < roads.len() && (roads[i].0 == v || roads[i].1 == v),
{
}

/// What the board shows as buildable for player `p`: during setup a settlement spot first,
/// then a road from the settlement just placed; in normal play what the build mode asks
/// for, and roads whenever a road building card is being played.
pub open spec fn builds(
    g: GameView,
    p: int,
    is_setup: bool,
    setup_placement: u8,
    mode: BuildingMode,
    road_card: bool,
) -> (Set<usize>, Set<(usize, usize)>) {
    if is_setup {
        if setup_placement == 0 {
            (settlement_spots(g, p, true), Set::empty())
        } else if setup_placement == 1 {
            (Set::empty(), road_spots(g, p, true, g.players[p].last_setup_settlement))
        } else {
            (Set::empty(), Set::empty())
        }
    } else {
        let vertices = match mode {
            BuildingMode::BuildingSettlement => settlement_spots(g, p, false),
            BuildingMode::UpgradingCity => city_spots(g, p),
            _ => Set::empty(),
        };
        let edges = if road_card || mode == BuildingMode::BuildingRoad {
            road_spots(g, p, false, None)
        } else {
            Set::empty()
        };
        (vertices, edges)
    }
}

/// The vertices and edges shown as buildable for player `player_id`.
pub fn calculate_builds(
    game: &Game,
    player_id: usize,
    is_setup: bool,
    setup_placement: u8,
    active_building_mode: BuildingMode,
    dev_card_road_building_active: bool,
) -> (r: (HashSet<usize>, Vec<(usize, usize)>))
    requires
        player_id < game@.players.len(),
    ensures
        r.0@ == builds(game@, player_id as int, is_setup, setup_placement, active_building_mode, dev_card_road_building_active).0,
        r.1@.no_duplicates(),
        r.1@.to_set() == builds(game@, player_id as int, is_setup, setup_placement, active_building_mode, dev_card_road_building_active).1,
{
    let mut buildable_vertices: HashSet<usize> = HashSet::new();
    let mut buildable_edges: Vec<(usize, usize)> = Vec::new();
    if is_setup {
        if setup_placement == 0 {
            buildable_vertices = buildable_settlement_vertices(game, player_id, true);
        } else if setup_placement == 1 {
            let players = game.players();
            proof {
                lemma_players_view(players@, game@);
            }
            let required_vertex = players[player_id].last_setup_settlement;
            buildable_edges = buildable_road_edges(game, player_id, true, required_vertex);
        }
    } else {
        match active_building_mode {
            BuildingMode::BuildingSettlement => {
                buildable_vertices = buildable_settlement_vertices(game, player_id, false);
            },
            BuildingMode::UpgradingCity => {
                buildable_vertices = buildable_city_vertices(game, player_id);
            },
            BuildingMode::BuildingRoad => {
                buildable_edges = buildable_road_edges(game, player_id, false, None);
            },
            BuildingMode::Idle => {},
        }
        if dev_card_road_building_active {
            buildable_edges = buildable_road_edges(game, player_id, false, None);
        }
    }
    assert(buildable_edges@.len() == 0 ==> buildable_edges@.to_set() =~= Set::<(usize, usize)>::empty());
    (buildable_vertices, buildable_edges)
}

/// The road a ghost preview shows: the two vertices selected, if they make a buildable edge;
/// else the selected vertex and the hovered one; else the hovered edge; each only when
/// buildable.
pub open spec fn ghost_edge(
    selection: Seq<usize>,
    hovered_vertex: Option<usize>,
    hovered_edge: Option<(usize, usize)>,
    buildable: Seq<(usize, usize)>,
) -> Option<(usize, usize)> {
    let pair = |a: usize, b: usize| if a <= b { (a, b) } else { (b, a) };
    if selection.len() >= 2 && buildable.contains(pair(selection[0], selection[1])) {
        Some(pair(selection[0], selection[1]))
    } else if selection.len() == 1 && hovered_vertex is Some && buildable.contains(pair(selection[0], hovered_vertex->0)) {
        Some(pair(selection[0], hovered_vertex->0))
    } else if hovered_edge matches Some(e) && buildable.contains(e) {
        Some(hovered_edge->0)
    } else {
        None
    }
}

/// The edge previewed for the road being placed.
pub fn select_ghost_edge(
    road_selection: &Vec<usize>,
    hovered_vertex: Option<usize>,
    hovered_edge: Option<(usize, usize)>,
    buildable_edges: &Vec<(usize, usize)>,
) -> (r: Option<(usize, usize)>)
    ensures
        r == ghost_edge(road_selection@, hovered_vertex, hovered_edge, buildable_edges@),
{
    if road_selection.len() >= 2 {
        let (x, y) = (road_selection[0], road_selection[1]);
        let edge = if x <= y { (x, y) } else { (y, x) };
        if crate::backend::game::building::contains_road(buildable_edges, edge) {
            return Some(edge);
        }
    }
    if road_selection.len() == 1 {
        if let Some(b) = hovered_vertex {
            let a = road_selection[0];
            let edge = if a <= b { (a, b) } else { (b, a) };
            if crate::backend::game::building::contains_road(buildable_edges, edge) {
                return Some(edge);
            }
        }
    }
    if let Some(edge) = hovered_edge {
        if crate::backend::game::building::contains_road(buildable_edges, edge) {
            return Some(edge);
        }
    }
    None
}

/// Player `x` (not `current`) has a building on a corner of tile `t`.
pub open spec fn robbable_on(g: GameView, t: int, current: usize, q: int) -> bool {
    &&& g.players[q].id != current
    &&& exists|c: int| 0 <= c < 6 && g.players[q].owns_building_at(#[trigger] g.tiles[t].vertices@[c])
}

/// The players the robber can rob on tile `tile_id`, each once: every player but the current
/// one with a building on one of its corners; nobody when there is no such tile.
pub fn robbable_players(game: &Game, tile_id: usize, current_player_id: usize) -> (r: Vec<usize>)
    ensures
        r@.no_duplicates(),
        forall|x: usize| r@.contains(x) <==> (tile_id < game@.tiles.len()
            && exists|q: int| 0 <= q < game@.players.len() && game@.players[q].id == x && #[trigger] robbable_on(game@, tile_id as int, current_player_id, q)),
{
    let ghost g = game@;
    let players = game.players();
    let tiles = game.tiles();
    proof {
        lemma_players_view(players@, g);
    }
    let mut robbable: Vec<usize> = Vec::new();
    if tile_id >= tiles.len() {
        return robbable;
    }
    let tile = tiles[tile_id];
    let n = players.len();
    let mut c: usize = 0;
    while c < 6
        invariant
            g == game@,
            tile_id < g.tiles.len(),
            tile == g.tiles[tile_id as int],
            n == g.players.len(),
            players@.len() == n,
            forall|q: int| 0 <= q < players@.len() ==> (#[trigger] players@[q])@ == g.players[q],
            c <= 6,
            robbable@.no_duplicates(),
            forall|x: usize| robbable@.contains(x) <==> exists|q: int| 0 <= q < n && g.players[q].id == x
                && g.players[q].id != current_player_id
                && exists|c2: int| 0 <= c2 < c && #[trigger] g.players[q].owns_building_at(tile.vertices@[c2]),
        decreases 6 - c,
    {
        let v = tile.vertices[c];
        let mut q: usize = 0;
        while q < n
            invariant
                g == game@,
                tile_id < g.tiles.len(),
                tile == g.tiles[tile_id as int],
                n == g.players.len(),
                players@.len() == n,
                forall|q2: int| 0 <= q2 < players@.len() ==> (#[trigger] players@[q2])@ == g.players[q2],
                c < 6,
                v == tile.vertices@[c as int],
                q <= n,
                robbable@.no_duplicates(),
                forall|x: usize| robbable@.contains(x) <==> exists|q2: int| 0 <= q2 < n && g.players[q2].id == x
                    && g.players[q2].id != current_player_id
                    && ((exists|c2: int| 0 <= c2 < c && #[trigger] g.players[q2].owns_building_at(tile.vertices@[c2]))
                        || (q2 < q && g.players[q2].owns_building_at(v))),
            decreases n - q,
        {
            let player = &players[q];
            let ghost before = robbable@;
            assert(player@ == g.players[q as int]);
            if player.id != current_player_id && (contains_usize(&player.settlements, v) || contains_usize(&player.cities, v)) {
                if !contains_usize(&robbable, player.id) {
                    robbable.push(player.id);
                    proof {
                        assert(robbable@[before.len() as int] == player.id);
                        assert forall|x: int, y: int| 0 <= x < y < robbable@.len() implies robbable@[x] != robbable@[y] by {
                            if y == before.len() {
                                assert(before[x] != player.id);
                            }
                        }
                    }
                }
            }
            proof {
                assert forall|x: usize| robbable@.contains(x) <==> exists|q2: int| 0 <= q2 < n && g.players[q2].id == x
                    && g.players[q2].id != current_player_id
                    && ((exists|c2: int| 0 <= c2 < c && #[trigger] g.players[q2].owns_building_at(tile.vertices@[c2]))
                        || (q2 < q + 1 && g.players[q2].owns_building_at(v))) by {
                    if robbable@.contains(x) && !before.contains(x) {
                        assert(x == player.id);
                        assert(g.players[q as int].owns_building_at(v));
                    }
                    if before.contains(x) {
                        let i = choose|i: int| 0 <= i < before.len() && before[i] == x;
                        assert(robbable@[i] == x);
                    }
                    if exists|q2: int| 0 <= q2 < n && g.players[q2].id == x
                        && g.players[q2].id != current_player_id
                        && ((exists|c2: int| 0 <= c2 < c && #[trigger] g.players[q2].owns_building_at(tile.vertices@[c2]))
                            || (q2 < q + 1 && g.players[q2].owns_building_at(v))) {
                        let q2 = choose|q2: int| 0 <= q2 < n && g.players[q2].id == x
                            && g.players[q2].id != current_player_id
                            && ((exists|c2: int| 0 <= c2 < c && #[trigger] g.players[q2].owns_building_at(tile.vertices@[c2]))
                                || (q2 < q + 1 && g.players[q2].owns_building_at(v)));
                        if q2 == q && !(exists|c2: int| 0 <= c2 < c && #[trigger] g.players[q2].owns_building_at(tile.vertices@[c2])) {
                            if !before.contains(x) {
                                assert(robbable@.contains(x));
                            }
                        }
                    }
                }
            }
            q += 1;
        }
        proof {
            assert forall|x: usize| robbable@.contains(x) <==> exists|q2: int| 0 <= q2 < n && g.players[q2].id == x
                && g.players[q2].id != current_player_id
                && exists|c2: int| 0 <= c2 < c + 1 && #[trigger] g.players[q2].owns_building_at(tile.vertices@[c2]) by {
                if exists|q2: int| 0 <= q2 < n && g.players[q2].id == x
                    && g.players[q2].id != current_player_id
                    && exists|c2: int| 0 <= c2 < c + 1 && #[trigger] g.players[q2].owns_building_at(tile.vertices@[c2]) {
                    let q2 = choose|q2: int| 0 <= q2 < n && g.players[q2].id == x
                        && g.players[q2].id != current_player_id
                        && exists|c2: int| 0 <= c2 < c + 1 && #[trigger] g.players[q2].owns_building_at(tile.vertices@[c2]);
                    let c2 = choose|c2: int| 0 <= c2 < c + 1 && #[trigger] g.players[q2].owns_building_at(tile.vertices@[c2]);
                    if c2 == c {
                        assert(g.players[q2].owns_building_at(v));
                    }
                }
            }
        }
        c += 1;
    }
    proof {
        assert forall|x: usize| robbable@.contains(x) <==> (tile_id < g.tiles.len()
            && exists|q: int| 0 <= q < g.players.len() && g.players[q].id == x && #[trigger] robbable_on(g, tile_id as int, current_player_id, q)) by {
            if exists|q: int| 0 <= q < g.players.len() && g.players[q].id == x && #[trigger] robbable_on(g, tile_id as int, current_player_id, q) {
                let q = choose|q: int| 0 <= q < g.players.len() && g.players[q].id == x && #[trigger] robbable_on(g, tile_id as int, current_player_id, q);
                let c2 = choose|c2: int| 0 <= c2 < 6 && g.players[q].owns_building_at(#[trigger] g.tiles[tile_id as int].vertices@[c2]);
                assert(g.players[q].owns_building_at(tile.vertices@[c2]));
            }
            if robbable@.contains(x) {
                let q = choose|q: int| 0 <= q < n && g.players[q].id == x
                    && g.players[q].id != current_player_id
                    && exists|c2: int| 0 <= c2 < 6 && #[trigger] g.players[q].owns_building_at(tile.vertices@[c2]);
                assert(robbable_on(g, tile_id as int, current_player_id, q));
            }
        }
    }
    robbable
}

/// A clicked vertex joins the road selection, which keeps the last two.
pub fn track_road_vertex(state: &mut RoadBuildingState, vertex_id: usize)
    ensures
        final(state).last_two_vertices@ == (if old(state).last_two_vertices@.len() + 1 > 2 {
            old(state).last_two_vertices@.push(vertex_id).drop_first()
        } else {
            old(state).last_two_vertices@.push(vertex_id)
        }),
{
    state.last_two_vertices.push(vertex_id);
    if state.last_two_vertices.len() > 2 {
        state.last_two_vertices.remove(0);
        proof {
            assert(state.last_two_vertices@ =~= old(state).last_two_vertices@.push(vertex_id).drop_first());
        }
    }
}

/// The choices a development card is played with, as far as they have been made: the
/// robber's tile and victim for a knight, the resource for a monopoly, two roads for road
/// building, two resources for year of plenty; nothing for a victory point card or while a
/// choice is missing.
pub open spec fn card_input(card: DevCard, state: DevCardPlayState) -> DevCardInput {
    match card {
        DevCard::Knight => match state.selected_tile {
            Some(tile) => DevCardInput::Knight { tile, victim: state.selected_victim },
            None => DevCardInput::Empty,
        },
        DevCard::Monopoly => match state.selected_resource {
            Some(resource) => DevCardInput::Monopoly { resource },
            None => DevCardInput::Empty,
        },
        DevCard::RoadBuilding => if state.road_building_roads@.len() == 2 {
            DevCardInput::RoadBuilding { r1: state.road_building_roads@[0], r2: state.road_building_roads@[1] }
        } else {
            DevCardInput::Empty
        },
        DevCard::YearOfPlenty => if state.year_resources@.len() == 2 {
            DevCardInput::YearOfPlenty { r1: state.year_resources@[0], r2: state.year_resources@[1] }
        } else {
            DevCardInput::Empty
        },
        DevCard::VictoryPoint => DevCardInput::Empty,
    }
}

/// What `card` is played with, from the choices in `state`.
pub fn dev_card_input(card: DevCard, state: &DevCardPlayState) -> (r: DevCardInput)
    ensures
        r == card_input(card, *state),
{
    match card {
        DevCard::Knight => match state.selected_tile {
            Some(tile) => DevCardInput::Knight { tile, victim: state.selected_victim },
            None => DevCardInput::Empty,
        },
        DevCard::Monopoly => match state.selected_resource {
            Some(resource) => DevCardInput::Monopoly { resource },
            None => DevCardInput::Empty,
        },
        DevCard::RoadBuilding => if state.road_building_roads.len() == 2 {
            DevCardInput::RoadBuilding { r1: state.road_building_roads[0], r2: state.road_building_roads[1] }
        } else {
            DevCardInput::Empty
        },
        DevCard::YearOfPlenty => if state.year_resources.len() == 2 {
            DevCardInput::YearOfPlenty { r1: state.year_resources[0], r2: state.year_resources[1] }
        } else {
            DevCardInput::Empty
        },
        DevCard::VictoryPoint => DevCardInput::Empty,
    }
}

/// The players seen through their views.
proof fn lemma_players_view(players: Seq<Player>, g: GameView)
    requires
        players.map_values(|p: Player| p@) == g.players,
    ensures
        players.len() == g.players.len(),
        forall|q: int| 0 <= q < players.len() ==> (#[trigger] players[q])@ == g.players[q],
        forall|v: usize| g.occupied(v) == exists|q: int| 0 <= q < players.len() && (#[trigger] players[q])@.owns_building_at(v),
{
    assert(players.len() == players.map_values(|p: Player| p@).len());
    assert forall|q: int| 0 <= q < players.len() implies (#[trigger] players[q])@ == g.players[q] by {
        assert(players.map_values(|p: Player| p@)[q] == players[q]@);
    }
    assert forall|v: usize| g.occupied(v) == exists|q: int| 0 <= q < players.len() && (#[trigger] players[q])@.owns_building_at(v) by {
        if g.occupied(v) {
            let q = choose|q: int| 0 <= q < g.players.len() && (#[trigger] g.players[q]).owns_building_at(v);
            assert(players[q]@ == g.players[q]);
        }
        if exists|q: int| 0 <= q < players.len() && (#[trigger] players[q])@.owns_building_at(v) {
            let q = choose|q: int| 0 <= q < players.len() && (#[trigger] players[q])@.owns_building_at(v);
            assert(g.players[q] == players[q]@);
        }
    }
}

/// The vertices seen through their views.
proof fn lemma_vertices_view(vertices: Seq<Vertex>, g: GameView)
    requires
        vertices.map_values(|v: Vertex| v@) == g.vertices,
    ensures
        vertices.len() == g.vertices.len(),
        forall|j: int| 0 <= j < vertices.len() ==> (#[trigger] vertices[j])@ == g.vertices[j],
{
    assert(vertices.len() == vertices.map_values(|v: Vertex| v@).len());
    assert forall|j: int| 0 <= j < vertices.len() implies (#[trigger] vertices[j])@ == g.vertices[j] by {
        assert(vertices.map_values(|v: Vertex| v@)[j] == vertices[j]@);
    }
}

/// Outside the setup rounds the road preview offers every extension of the player's own
/// network: an edge from vertex number `j` to its neighbor number `k` (smaller vertex first)
/// that nobody has built, with an end of one of the player's roads at either end, is offered
/// to a player with fewer than fifteen roads.
pub proof fn law_preview_offers_road_extensions(g: GameView, p: int, j: int, k: int, m: int)
    requires
        0 <= p < g.players.len(),
        0 <= j < g.vertices.len(),
        0 <= k < g.vertices[j].neighbors.len(),
        g.vertices[j].id < g.vertices[j].neighbors[k],
        forall|q: int| 0 <= q < g.players.len() ==> !(#[trigger] g.players[q]).roads.contains((g.vertices[j].id, g.vertices[j].neighbors[k])),
        g.players[p].roads.len() < 15,
        0 <= m < g.players[p].roads.len(),
        ({
            let (a, b) = (g.vertices[j].id, g.vertices[j].neighbors[k]);
            let r = g.players[p].roads[m];
            r.0 == a || r.1 == a || r.0 == b || r.1 == b
        }),
    ensures
        road_spots(g, p, false, None).contains((g.vertices[j].id, g.vertices[j].neighbors[k])),
{
    let a = g.vertices[j].id;
    let b = g.vertices[j].neighbors[k];
    let pl = g.players[p];
    assert(pl.roads[m] == pl.roads[m]);
    if pl.roads[m].0 == a || pl.roads[m].1 == a {
        assert(pl.has_road_at(a));
    } else {
        assert(pl.has_road_at(b));
    }
    assert(road_spot(g, p, false, None, j, k));
    assert(g.vertices[j].neighbors[k] == b);
}

} // verus!
