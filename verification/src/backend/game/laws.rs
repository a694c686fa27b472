//! Properties of the rules that span several operations or hold of every game.
use vstd::prelude::*;
use super::building::road_between;
use super::roads::longest_road_len;
use super::board::{is_shuffled_board, standard_coords, standard_number_pool, standard_resource_pool, token_for, adjacent_corners, all_corner_keys, coords_in_range, corner_key, corner_offset, first_occurrences, is_board, lemma_first_occurrences, tile_side};
use super::{DevCard, GamePhase, GameView, HarborType, PlayerView, Resource, Tile, TurnPhase, VertexView, RESOURCE_KINDS};
use super::resources::{hand_total, lemma_hand_total_update, lemma_robbed_hand_le};

verus! {

/// A trade between two players moves cards between them and creates none: for every kind,
/// the two hands together hold as many cards afterwards as before, and no other hand
/// changes.
pub proof fn law_player_trade_conserves_cards(
    g: GameView,
    vendor: int,
    customer: int,
    offer: Resource,
    amount_offer: u8,
    request: Resource,
    amount_request: u8,
    r: Resource,
)
    requires
        g.wf(),
        0 <= vendor < g.players.len(),
        0 <= customer < g.players.len(),
        g.player_trade_fits(vendor, customer, offer, amount_offer, request, amount_request),
    ensures
        ({
            let post = g.player_trade_outcome(vendor, customer, offer, amount_offer, request, amount_request).0;
            &&& post.players.len() == g.players.len()
            &&& post.count(vendor, r) + post.count(customer, r) == g.count(vendor, r) + g.count(customer, r)
            &&& forall|q: int| 0 <= q < g.players.len() && q != vendor && q != customer ==> #[trigger] post.players[q] == g.players[q]
        }),
{
    assert(g.players[vendor].wf());
    assert(g.players[customer].wf());
}

/// A trade with the bank takes `ratio` cards from the player's hand and gives one back, so
/// the hand shrinks by `ratio - 1`; no other hand changes.
pub proof fn law_maritime_trade_shrinks_hand(g: GameView, p: int, offer: Resource, request: Resource)
    requires
        g.wf(),
        0 <= p < g.players.len(),
        g.maritime_trade_fits(p, offer, request),
        offer != Resource::Desert,
        request != Resource::Desert,
    ensures
        ({
            let (post, res) = g.maritime_trade_outcome(p, offer, request);
            &&& res is Ok ==> hand_total(post.players[p].resources) == hand_total(g.players[p].resources) - g.trade_ratio(p, offer) + 1
            &&& res is Err ==> post == g
            &&& post.players.len() == g.players.len()
            &&& forall|q: int| 0 <= q < g.players.len() && q != p ==> #[trigger] post.players[q] == g.players[q]
        }),
{
    assert(g.players[p].wf());
    let ratio = g.trade_ratio(p, offer);
    if g.count(p, offer) >= ratio {
        let h0 = g.players[p].resources;
        let paid = g.with_count(p, offer.slot(), g.count(p, offer) - ratio);
        let h1 = paid.players[p].resources;
        lemma_hand_total_update(h0, offer.slot(), (g.count(p, offer) - ratio) as u8);
        assert(h1 == h0.update(offer.slot(), (g.count(p, offer) - ratio) as u8));
        let post = paid.with_count(p, request.slot(), paid.count(p, request) + 1);
        lemma_hand_total_update(h1, request.slot(), (paid.count(p, request) + 1) as u8);
        assert(post.players[p].resources == h1.update(request.slot(), (paid.count(p, request) + 1) as u8));
    }
}

/// Turns go round the table: after `k` turns it is the turn of the player `k` places on,
/// so after as many turns as there are players it is the same player's turn again.
pub proof fn law_turns_go_round(g: GameView, k: nat)
    requires
        g.wf(),
        g.players.len() <= usize::MAX,
    ensures
        g.after_turns(k).players.len() == g.players.len(),
        g.after_turns(k).current_player == (g.current_player + k) % (g.players.len() as int),
        k == g.players.len() ==> g.after_turns(k).current_player == g.current_player,
    decreases k,
{
    let n = g.players.len() as int;
    if k > 0 {
        let h = g.after_next_turn();
        assert(h.wf()) by {
            assert forall|i: int| 0 <= i < h.players.len() implies (#[trigger] h.players[i]).seated(i) && h.players[i].wf() by {
                assert(g.players[i].seated(i));
                assert(g.players[i].wf());
            }
        }
        law_turns_go_round(h, (k - 1) as nat);
        assert(g.after_turns(k) == h.after_turns((k - 1) as nat));
        assert(h.current_player == (g.current_player + 1) % n) by {
            vstd::arithmetic::div_mod::lemma_mod_pos_bound(g.current_player + 1, n);
        }
        assert(((g.current_player + 1) % n + (k - 1)) % n == (g.current_player + k) % n) by {
            vstd::arithmetic::div_mod::lemma_add_mod_noop(g.current_player + 1, k - 1, n);
            vstd::arithmetic::div_mod::lemma_add_mod_noop((g.current_player + 1) % n, k - 1, n);
            vstd::arithmetic::div_mod::lemma_mod_twice(g.current_player + 1, n);
        }
    }
    if k == 0 {
        vstd::arithmetic::div_mod::lemma_small_mod(g.current_player as nat, n as nat);
    }
    if k == n {
        vstd::arithmetic::div_mod::lemma_mod_add_multiples_vanish(g.current_player as int, n);
        vstd::arithmetic::div_mod::lemma_small_mod(g.current_player as nat, n as nat);
    }
}

/// A turn is four phases: from the roll, four steps lead to the next player's roll.
pub proof fn law_four_phases_make_a_turn(g: GameView)
    requires
        g.turn_phase == TurnPhase::RollResources,
    ensures
        g.after_next_phase().after_next_phase().after_next_phase().after_next_phase()
            == (GameView { turn_phase: TurnPhase::RollResources, ..g }).after_next_turn(),
{
}

/// A seven: a hand of at most seven cards is kept; from a larger one exactly half of the
/// cards (rounded down) are discarded, and it holds no more of any kind than before. Only
/// hands change.
pub proof fn law_robbery_halves_large_hands(g: GameView, post: GameView, q: int)
    requires
        0 <= q < g.players.len(),
        g.robbery_result(post),
    ensures
        ({
            let h = g.players[q].resources;
            let h2 = post.players[q].resources;
            &&& hand_total(h) <= 7 ==> h2 == h
            &&& hand_total(h) > 7 ==> hand_total(h) - hand_total(h2) == hand_total(h) / 2
            &&& h2.len() == h.len()
            &&& forall|k: int| 0 <= k < h.len() ==> #[trigger] h2[k] <= h[k]
            &&& post.players[q] == (PlayerView { resources: h2, ..g.players[q] })
            &&& post == (GameView { players: post.players, ..g })
        }),
{
    assert(post.players[q] == (PlayerView { resources: post.players[q].resources, ..g.players[q] }));
    lemma_robbed_hand_le(g.players[q].resources, post.players[q].resources);
}

/// A settlement that was built stands: its vertex is occupied afterwards, and a second
/// settlement there, by anybody, is refused because the vertex is taken.
pub proof fn law_settlement_takes_the_vertex(g: GameView, p: int, v: usize, q: int)
    requires
        g.wf(),
        0 <= p < g.players.len(),
        g.settlement_fits(p, v),
        g.build_settlement_outcome(p, v).1 is Ok,
    ensures
        ({
            let post = g.build_settlement_outcome(p, v).0;
            &&& !g.occupied(v) && !g.too_close(v)
            &&& post.occupied(v)
            &&& post.players[p].settlements.contains(v)
            &&& post.players[p].victory_points == g.players[p].victory_points + 1
            &&& post.build_settlement_outcome(q, v) == (post, Err::<(), &'static str>("Vertex is already occupied"))
        }),
{
    let post = g.build_settlement_outcome(p, v).0;
    assert(post.players[p].settlements.last() == v);
    assert(post.players[p].owns_building_at(v));
    assert(post.occupied(v));
    assert(!g.occupied(v));
    assert(!g.too_close(v));
    assert(post.players[p].victory_points == g.players[p].victory_points + 1);
}

/// A road that was built stands: some player holds it afterwards, and building it again is
/// refused because it exists.
pub proof fn law_road_is_taken(g: GameView, p: int, a: usize, b: usize)
    requires
        g.wf(),
        0 <= p < g.players.len(),
        g.build_road_outcome(p, a, b).1 is Ok,
    ensures
        ({
            let post = g.build_road_outcome(p, a, b).0;
            &&& post.road_taken(a, b)
            &&& post.build_road_outcome(p, a, b) == (post, Err::<(), &'static str>("Road already exists"))
        }),
{
    let laid = g.road_laid(p, a, b);
    let awarded = laid.road_award_outcome(p);
    let post = awarded.setup_advance();
    assert(laid.players[p].roads.last() == road_between(a, b));
    assert(awarded.players[p].roads == laid.players[p].roads);
    assert(post.players[p].roads.contains(road_between(a, b)));
    assert(post.players[p].roads[post.players[p].roads.len() - 1] == road_between(a, b));
    assert(post.players[p].has_road_at(a)) by {
        let i = post.players[p].roads.len() - 1;
        let rs = post.players[p].roads;
        assert(0 <= i < rs.len());
        if a < b {
            assert(rs[i].0 == a);
        } else {
            assert(rs[i].1 == a);
        }
        assert(rs[i].0 == a || rs[i].1 == a);
    }
    assert(post.vertices == g.vertices);
}

/// An upgraded settlement is a city: the player's settlement there is gone, their city
/// stands there, the vertex stays occupied and the player scores one more point.
pub proof fn law_city_replaces_settlement(g: GameView, p: int, v: usize)
    requires
        g.wf(),
        0 <= p < g.players.len(),
        g.city_fits(p, v),
        g.build_city_outcome(p, v).1 is Ok,
    ensures
        ({
            let post = g.build_city_outcome(p, v).0;
            &&& g.players[p].settlements.contains(v)
            &&& !post.players[p].settlements.contains(v)
            &&& post.players[p].cities.contains(v)
            &&& post.occupied(v)
            &&& post.players[p].victory_points == g.players[p].victory_points + 1
        }),
{
    let post = g.build_city_outcome(p, v).0;
    let s = g.players[p].settlements;
    assert(g.players[p].wf());
    s.index_of_first_ensures(v);
    let i = s.index_of_first(v)->0;
    let r = s.remove(i);
    assert(post.players[p].settlements == r);
    if r.contains(v) {
        let j = choose|j: int| 0 <= j < r.len() && r[j] == v;
        let j0 = if j < i { j } else { j + 1 };
        assert(s[j0] == v);
    }
    assert(post.players[p].cities.last() == v);
    assert(post.players[p].owns_building_at(v));
    assert(!post.players[p].settlements.contains(v));
    assert(post.players[p].cities.contains(v));
    assert(post.occupied(v));
}

/// Whoever holds the largest army has played at least three knights, before and after a
/// knight is counted.
pub proof fn law_army_holder_has_three_knights(g: GameView, p: int)
    requires
        g.wf(),
        0 <= p < g.players.len(),
        g.army_fits(p),
        g.largest_army_owner matches Some(o) ==> g.players[o as int].knights_played >= 3,
    ensures
        g.army_outcome(p).largest_army_owner matches Some(o) ==> g.army_outcome(p).players[o as int].knights_played >= 3,
{
}

/// A road is the same road whichever end it is named from, and it is written with the
/// smaller vertex first.
pub proof fn law_road_ends_are_unordered(a: usize, b: usize)
    ensures
        road_between(a, b) == road_between(b, a),
        road_between(a, b).0 <= road_between(a, b).1,
        (road_between(a, b).0 == a && road_between(a, b).1 == b) || (road_between(a, b).0 == b && road_between(a, b).1 == a),
{
}

/// A refused request changes nothing: a settlement, city, road, bank trade or player trade
/// that is refused leaves the game as it was, and so does a development card purchase
/// refused for want of cards (a purchase refused because the pool is empty keeps the
/// payment).
pub proof fn law_refusals_change_nothing(
    g: GameView,
    p: int,
    q: int,
    v: usize,
    a: usize,
    b: usize,
    offer: Resource,
    amount_offer: u8,
    request: Resource,
    amount_request: u8,
)
    ensures
        g.build_settlement_outcome(p, v).1 is Err ==> g.build_settlement_outcome(p, v).0 == g,
        g.build_city_outcome(p, v).1 is Err ==> g.build_city_outcome(p, v).0 == g,
        g.build_road_outcome(p, a, b).1 is Err ==> g.build_road_outcome(p, a, b).0 == g,
        g.maritime_trade_outcome(p, offer, request).1 is Err ==> g.maritime_trade_outcome(p, offer, request).0 == g,
        g.player_trade_outcome(p, q, offer, amount_offer, request, amount_request).1 is Err
            ==> g.player_trade_outcome(p, q, offer, amount_offer, request, amount_request).0 == g,
        g.buy_dev_card_outcome(p).1 == Err::<(), &'static str>("Not enough resources") ==> g.buy_dev_card_outcome(p).0 == g,
{
}

/// Whoever holds the longest road has a road of at least five, and the award keeps that
/// so whenever it is reconsidered (the length of a road, a count of roads, fits a `usize`).
pub proof fn law_road_holder_has_five(g: GameView, p: int)
    requires
        g.road_award_fits(p),
        longest_road_len(g.players[p].roads) <= usize::MAX,
        g.longest_road_owner is Some ==> g.longest_road_length >= 5,
    ensures
        g.road_award_outcome(p).longest_road_owner is Some ==> g.road_award_outcome(p).longest_road_length >= 5,
{
}

/// A knight (or a seven) always moves the robber to another tile of the board.
pub proof fn law_robber_moves_to_another_tile(g: GameView, post: GameView)
    requires
        g.wf(),
        g.players.len() <= usize::MAX,
        g.robber_can_move(),
        g.robber_tile < g.tiles.len(),
        g.knight_outcome(post),
    ensures
        post.robber_tile != g.robber_tile,
        post.robber_tile < post.tiles.len(),
{
    g.lemma_knight_moves_cards_only(post);
}

/// A setup step is a settlement and then its road: once the settlement stands, a second
/// settlement by anybody is refused until the road is laid, and the road ends the step (the
/// placement count goes back to zero and the setup order moves on).
pub proof fn law_setup_settlement_then_road(g: GameView, p: int, v: usize, q: int, w: usize, a: usize, b: usize)
    requires
        g.is_setup(),
        0 <= p < g.players.len(),
        g.build_settlement_outcome(p, v).1 is Ok,
    ensures
        ({
            let s = g.build_settlement_outcome(p, v).0;
            &&& s.setup_placement == 1
            &&& s.build_settlement_outcome(q, w).1 is Err
            &&& s.build_road_outcome(p, a, b).1 is Ok ==> s.build_road_outcome(p, a, b).0
                == s.road_laid(p, a, b).road_award_outcome(p).setup_advance()
            &&& s.build_road_outcome(p, a, b).1 is Ok ==> s.build_road_outcome(p, a, b).0.setup_placement == 0
        }),
{
    let s = g.build_settlement_outcome(p, v).0;
    let l = s.road_laid(p, a, b).road_award_outcome(p);
    assert(l.setup_placement == 1 && l.is_setup());
}

/// The setup rounds snake: in the first round the players place in seat order, in the
/// second in reverse order starting from the last player, and after both rounds normal play
/// begins with the first player. Only the turn, the phase and the setup count change.
pub proof fn law_setup_snakes(g: GameView, k: nat)
    requires
        g.game_phase == GamePhase::SetupRound1,
        g.current_player == 0,
        g.setup_placement == 0,
        1 <= g.players.len() <= usize::MAX,
        k <= 2 * g.players.len(),
    ensures
        ({
            let s = g.after_setup_steps(k);
            let n = g.players.len() as int;
            &&& k < n ==> s.game_phase == GamePhase::SetupRound1 && s.current_player == k && s.setup_placement == 0
            &&& n <= k < 2 * n ==> s.game_phase == GamePhase::SetupRound2 && s.current_player == 2 * n - 1 - k && s.setup_placement == 0
            &&& k == 2 * n ==> s.game_phase == GamePhase::NormalPlay && s.current_player == 0
            &&& s == (GameView { game_phase: s.game_phase, current_player: s.current_player, setup_placement: s.setup_placement, ..g })
        }),
    decreases k,
{
    if k > 0 {
        law_setup_snakes(g, (k - 1) as nat);
    }
}

/// A development card bought in normal play can be played from the next turn on, not in
/// the turn it was bought (a victory point card counts at once).
pub proof fn law_new_card_waits_a_turn(g: GameView, p: int)
    requires
        g.wf(),
        0 <= p < g.players.len(),
        g.game_phase == GamePhase::NormalPlay,
        g.buy_dev_card_outcome(p).1 is Ok,
    ensures
        ({
            let post = g.buy_dev_card_outcome(p).0;
            let i = post.players[p].dev_cards.len() - 1;
            &&& post.players[p].dev_cards[i].card != DevCard::VictoryPoint
                ==> post.play_error(p, i) == Some("Cannot use this card yet")
            &&& post.after_next_turn().play_error(p, i) is None
        }),
{
    let post = g.buy_dev_card_outcome(p).0;
    let i = post.players[p].dev_cards.len() - 1;
    let aged = post.after_next_turn();
    assert(aged.players[p] == post.players[p].with_cards_aged());
    assert(aged.players[p].dev_cards[i] == super::turn::aged(post.players[p].dev_cards[i]));
}

/// No building stands next to another: no neighbor of a vertex with a building has one.
pub open spec fn buildings_spaced(g: GameView) -> bool {
    forall|v: int, i: int|
        0 <= v < g.vertices.len() && g.occupied(v as usize) && 0 <= i < g.vertices[v].neighbors.len()
            ==> !g.occupied(#[trigger] g.vertices[v].neighbors[i])
}

/// Neighbors are vertices of the board, other than the vertex itself, and mutual.
pub open spec fn neighbors_mutual(g: GameView) -> bool {
    forall|a: int, i: int| 0 <= a < g.vertices.len() && 0 <= i < g.vertices[a].neighbors.len() ==> {
        let b = #[trigger] g.vertices[a].neighbors[i];
        &&& b < g.vertices.len()
        &&& b != a
        &&& g.vertices[b as int].neighbors.contains(a as usize)
    }
}

/// The distance rule holds of every game: a settlement is only ever built where no
/// neighbor has a building, so on a board with mutual neighbors no two buildings are ever
/// next to each other (upgrading to a city builds on no new vertex).
pub proof fn law_distance_rule_kept(g: GameView, p: int, v: usize)
    requires
        g.wf(),
        0 <= p < g.players.len(),
        neighbors_mutual(g),
        buildings_spaced(g),
    ensures
        g.build_settlement_outcome(p, v).1 is Ok ==> buildings_spaced(g.build_settlement_outcome(p, v).0),
        buildings_spaced(g.build_city_outcome(p, v).0),
{
    let post = g.build_settlement_outcome(p, v).0;
    if g.build_settlement_outcome(p, v).1 is Ok {
        assert forall|x: usize| post.occupied(x) == (g.occupied(x) || x == v) by {
            if post.occupied(x) {
                let q = choose|q: int| 0 <= q < post.players.len() && (#[trigger] post.players[q]).owns_building_at(x);
                if q != p {
                    assert(g.players[q].owns_building_at(x));
                } else if x != v {
                    assert(g.players[p].settlements.contains(x) || g.players[p].cities.contains(x)) by {
                        if post.players[p].settlements.contains(x) {
                            let k = choose|k: int| 0 <= k < post.players[p].settlements.len() && post.players[p].settlements[k] == x;
                            assert(g.players[p].settlements[k] == x);
                        }
                    }
                    assert(g.players[p].owns_building_at(x));
                }
            }
            if g.occupied(x) {
                let q = choose|q: int| 0 <= q < g.players.len() && (#[trigger] g.players[q]).owns_building_at(x);
                if q == p {
                    if g.players[p].settlements.contains(x) {
                        let k = choose|k: int| 0 <= k < g.players[p].settlements.len() && g.players[p].settlements[k] == x;
                        assert(post.players[p].settlements[k] == x);
                    }
                }
                assert(post.players[q].owns_building_at(x));
            }
            if x == v {
                assert(post.players[p].settlements.last() == v);
                assert(post.players[p].owns_building_at(v));
            }
        }
        assert forall|w: int, i: int|
            0 <= w < post.vertices.len() && post.occupied(w as usize) && 0 <= i < post.vertices[w].neighbors.len()
                implies !post.occupied(#[trigger] post.vertices[w].neighbors[i]) by {
            let n = post.vertices[w].neighbors[i];
            assert(n != w);
            if w as usize == v {
                assert(!g.occupied(n)) by {
                    if g.occupied(n) {
                        assert(g.too_close(v));
                    }
                }
            } else {
                assert(g.occupied(w as usize));
                assert(!g.occupied(n));
                if n == v {
                    assert(g.vertices[v as int].neighbors.contains(w as usize));
                    let k = choose|k: int| 0 <= k < g.vertices[v as int].neighbors.len() && g.vertices[v as int].neighbors[k] == w as usize;
                    assert(g.occupied(g.vertices[v as int].neighbors[k]));
                    assert(g.too_close(v));
                }
            }
        }
    }
    let post2 = g.build_city_outcome(p, v).0;
    if g.build_city_outcome(p, v).1 is Ok {
        assert forall|x: usize| post2.occupied(x) == g.occupied(x) by {
            if post2.occupied(x) {
                let q = choose|q: int| 0 <= q < post2.players.len() && (#[trigger] post2.players[q]).owns_building_at(x);
                if q != p {
                    assert(g.players[q].owns_building_at(x));
                } else {
                    if x == v {
                        assert(g.players[p].settlements.contains(v));
                    } else if post2.players[p].cities.contains(x) {
                        let k = choose|k: int| 0 <= k < post2.players[p].cities.len() && post2.players[p].cities[k] == x;
                        assert(g.players[p].cities[k] == x);
                    } else {
                        let s0 = g.players[p].settlements;
                        s0.index_of_first_ensures(v);
                        let j = s0.index_of_first(v)->0;
                        let k = choose|k: int| 0 <= k < post2.players[p].settlements.len() && post2.players[p].settlements[k] == x;
                        let k0 = if k < j { k } else { k + 1 };
                        assert(s0[k0] == x);
                    }
                    assert(g.players[p].owns_building_at(x));
                }
            }
            if g.occupied(x) {
                let q = choose|q: int| 0 <= q < g.players.len() && (#[trigger] g.players[q]).owns_building_at(x);
                if q == p {
                    if x == v {
                        assert(post2.players[p].cities.last() == v);
                    } else if g.players[p].cities.contains(x) {
                        let k = choose|k: int| 0 <= k < g.players[p].cities.len() && g.players[p].cities[k] == x;
                        assert(post2.players[p].cities[k] == x);
                    } else {
                        let s0 = g.players[p].settlements;
                        s0.index_of_first_ensures(v);
                        let j = s0.index_of_first(v)->0;
                        let k = choose|k: int| 0 <= k < s0.len() && s0[k] == x;
                        assert(k != j);
                        let k2 = if k < j { k } else { k - 1 };
                        assert(post2.players[p].settlements[k2] == x);
                    }
                }
                assert(post2.players[q].owns_building_at(x));
            }
        }
    }
}

/// Roads run both ways: on a board, when `b` is a neighbor of `a`, `b` is a vertex of the
/// board and `a` is a neighbor of `b`.
pub proof fn law_neighbors_are_mutual(
    coords: Seq<(i32, i32)>,
    order: Seq<Resource>,
    numbers: Seq<u8>,
    vs: Seq<VertexView>,
    tiles: Seq<Tile>,
    a: int,
    b: usize,
)
    requires
        is_board(coords, order, numbers, vs, tiles),
        0 <= a < vs.len(),
        vs[a].neighbors.contains(b),
    ensures
        b < vs.len(),
        vs[b as int].neighbors.contains(a as usize),
{
    assert(adjacent_corners(tiles, a as usize, b));
    let (t, c) = choose|t: int, c: int| 0 <= t < tiles.len() && 0 <= c < 6
        && (#[trigger] tile_side(tiles[t], c) == (a as usize, b) || tile_side(tiles[t], c) == (b, a as usize));
    assert(tiles[t].vertices@[c] < vs.len());
    assert(tiles[t].vertices@[(c + 1) % 6] < vs.len());
    assert(adjacent_corners(tiles, b, a as usize));
}

/// Two corners of one hex lie at different places on the lattice.
proof fn lemma_corners_apart(hex: (i32, i32), c1: int, c2: int)
    requires
        -100_000_000 <= hex.0 <= 100_000_000,
        -100_000_000 <= hex.1 <= 100_000_000,
        0 <= c1 < 6,
        0 <= c2 < 6,
        c1 != c2,
    ensures
        corner_key(hex, c1) != corner_key(hex, c2),
{
    assert(corner_offset(c1) != corner_offset(c2));
}

/// A sequence that holds two different values has at least two items.
proof fn lemma_two_members(s: Seq<usize>, x: usize, y: usize)
    requires
        s.contains(x),
        s.contains(y),
        x != y,
    ensures
        s.len() >= 2,
{
    let i = choose|i: int| 0 <= i < s.len() && s[i] == x;
    let j = choose|j: int| 0 <= j < s.len() && s[j] == y;
    assert(i != j);
}

/// Every vertex of a board is a corner of some tile, and the two corners beside it on that
/// tile are two different neighbors: every vertex has at least two neighbors.
pub proof fn law_every_vertex_has_two_neighbors(
    coords: Seq<(i32, i32)>,
    order: Seq<Resource>,
    numbers: Seq<u8>,
    vs: Seq<VertexView>,
    tiles: Seq<Tile>,
    j: int,
)
    requires
        is_board(coords, order, numbers, vs, tiles),
        coords_in_range(coords),
        0 <= j < vs.len(),
    ensures
        vs[j].neighbors.len() >= 2,
{
    let all = all_corner_keys(coords);
    let keys = first_occurrences(all);
    lemma_first_occurrences(all);
    assert(vs[j].lattice == keys[j]);
    assert(keys.contains(keys[j]));
    assert(all.contains(keys[j]));
    let pos = choose|pos: int| 0 <= pos < all.len() && all[pos] == keys[j];
    let i = pos / 6;
    let c = pos % 6;
    assert(0 <= i < coords.len()) by {
        vstd::arithmetic::div_mod::lemma_div_pos_is_pos(pos, 6);
        vstd::arithmetic::div_mod::lemma_div_is_ordered(pos, 6 * coords.len() as int, 6);
        vstd::arithmetic::div_mod::lemma_div_multiples_vanish(coords.len() as int, 6);
    }
    let w = tiles[i].vertices@[c];
    assert(w < vs.len());
    assert(keys[w as int] == corner_key(coords[i], c));
    assert(w == j) by {
        assert(keys.no_duplicates());
    }
    let next = (c + 1) % 6;
    let prev = (c + 5) % 6;
    let u1 = tiles[i].vertices@[next];
    let u2 = tiles[i].vertices@[prev];
    assert(tile_side(tiles[i], c) == (j as usize, u1));
    assert((prev + 1) % 6 == c);
    assert(tile_side(tiles[i], prev) == (u2, j as usize));
    assert(adjacent_corners(tiles, j as usize, u1));
    assert(adjacent_corners(tiles, j as usize, u2));
    assert(vs[j].neighbors.contains(u1));
    assert(vs[j].neighbors.contains(u2));
    assert(-100_000_000 <= coords[i].0 <= 100_000_000 && -100_000_000 <= coords[i].1 <= 100_000_000);
    assert(u1 != u2) by {
        assert(u1 < vs.len() && u2 < vs.len());
        assert(keys[u1 as int] == corner_key(coords[i], next));
        assert(keys[u2 as int] == corner_key(coords[i], prev));
        lemma_corners_apart(coords[i], next, prev);
    }
    lemma_two_members(vs[j].neighbors, u1, u2);
}

/// A value found twice in a sequence counts at least twice in its multiset.
proof fn lemma_found_twice(s: Seq<Resource>, x: Resource, i: int, j: int)
    requires
        0 <= i < j < s.len(),
        s[i] == x,
        s[j] == x,
    ensures
        s.to_multiset().count(x) >= 2,
{
    broadcast use vstd::seq_lib::group_to_multiset_ensures;
    broadcast use vstd::multiset::group_multiset_axioms;
    let s0 = s.subrange(0, j);
    let s1 = s.subrange(j, s.len() as int);
    assert(s == s0 + s1);
    vstd::seq_lib::lemma_multiset_commutative(s0, s1);
    assert(s0[i] == x);
    assert(s1[0] == x);
}

/// The standard terrain holds one desert.
proof fn lemma_one_desert_in_pool()
    ensures
        standard_resource_pool().to_multiset().count(Resource::Desert) == 1,
{
    broadcast use vstd::seq_lib::group_to_multiset_ensures;
    broadcast use vstd::multiset::group_multiset_axioms;
    let pool = standard_resource_pool();
    let front = pool.drop_last();
    assert(front.push(pool.last()) =~= pool);
    assert forall|k: int| 0 <= k < front.len() implies front[k] != Resource::Desert by {
        assert(pool[k] != Resource::Desert);
    }
    assert(!front.contains(Resource::Desert));
}

/// On the standard map, with the standard terrain and numbers shuffled: there are 19 tiles;
/// a tile carries a number token exactly when it is not the desert, and every token lies
/// between 2 and 12 and is never 7.
pub proof fn law_standard_tokens_are_valid(vs: Seq<VertexView>, tiles: Seq<Tile>, i: int)
    requires
        is_shuffled_board(standard_coords(), vs, tiles),
        0 <= i < tiles.len(),
    ensures
        tiles.len() == 19,
        (tiles[i].resource == Resource::Desert) == (tiles[i].number_token is None),
        tiles[i].number_token matches Some(n) ==> 2 <= n <= 12 && n != 7,
{
    broadcast use vstd::seq_lib::group_to_multiset_ensures;
    let (order, numbers) = choose|order: Seq<Resource>, numbers: Seq<u8>|
        order.to_multiset() == standard_resource_pool().to_multiset()
            && order.len() == standard_resource_pool().len()
            && numbers.to_multiset() == standard_number_pool().to_multiset()
            && numbers.len() == standard_number_pool().len()
            && #[trigger] is_board(standard_coords(), order, numbers, vs, tiles);
    assert(tiles[i].number_token == token_for(order, numbers, i));
    let pool = standard_number_pool();
    assert forall|k: int| 0 <= k < pool.len() implies 2 <= #[trigger] pool[k] <= 12 && pool[k] != 7 by {}
    if let Some(n) = tiles[i].number_token {
        if n != 2 {
            let k = choose|k: int| 0 <= k < numbers.len() && numbers[k] == n;
            assert(numbers.contains(n));
            assert(numbers.to_multiset().count(n) > 0);
            assert(pool.contains(n));
            let m = choose|m: int| 0 <= m < pool.len() && pool[m] == n;
            assert(2 <= pool[m] <= 12 && pool[m] != 7);
        }
    }
}

/// A shuffle of the standard terrain holds the desert at exactly one place.
proof fn lemma_one_desert_in_shuffle(order: Seq<Resource>)
    requires
        order.to_multiset() == standard_resource_pool().to_multiset(),
    ensures
        exists|d: int| 0 <= d < order.len() && order[d] == Resource::Desert
            && forall|i: int| 0 <= i < order.len() && #[trigger] order[i] == Resource::Desert ==> i == d,
{
    broadcast use vstd::seq_lib::group_to_multiset_ensures;
    lemma_one_desert_in_pool();
    assert(order.to_multiset().count(Resource::Desert) == 1);
    assert(order.contains(Resource::Desert));
    let d = choose|d: int| 0 <= d < order.len() && order[d] == Resource::Desert;
    assert forall|i: int| 0 <= i < order.len() && #[trigger] order[i] == Resource::Desert implies i == d by {
        if i < d {
            lemma_found_twice(order, Resource::Desert, i, d);
        } else if d < i {
            lemma_found_twice(order, Resource::Desert, d, i);
        }
    }
}

/// On the standard map, with the standard terrain shuffled, exactly one tile is the desert.
pub proof fn law_standard_board_has_one_desert(vs: Seq<VertexView>, tiles: Seq<Tile>)
    requires
        is_shuffled_board(standard_coords(), vs, tiles),
    ensures
        exists|d: int| 0 <= d < tiles.len() && tiles[d].resource == Resource::Desert
            && forall|i: int| 0 <= i < tiles.len() && #[trigger] tiles[i].resource == Resource::Desert ==> i == d,
{
    let (order, numbers) = choose|order: Seq<Resource>, numbers: Seq<u8>|
        order.to_multiset() == standard_resource_pool().to_multiset()
            && order.len() == standard_resource_pool().len()
            && numbers.to_multiset() == standard_number_pool().to_multiset()
            && numbers.len() == standard_number_pool().len()
            && #[trigger] is_board(standard_coords(), order, numbers, vs, tiles);
    assert(tiles.len() == 19);
    assert(order.len() == 19);
    assert forall|i: int| 0 <= i < 19 implies #[trigger] tiles[i].resource == order[i] by {
        assert(tiles[i].resource == order[i % 19]);
    }
    lemma_one_desert_in_shuffle(order);
    let d = choose|d: int| 0 <= d < order.len() && order[d] == Resource::Desert
        && forall|i: int| 0 <= i < order.len() && #[trigger] order[i] == Resource::Desert ==> i == d;
    assert(tiles[d].resource == Resource::Desert);
}

impl GameView {
    /// The victory points player `p`'s buildings and awards are worth: one per settlement,
    /// two per city, and two for each of the longest road and the largest army they hold.
    pub open spec fn board_points(self, p: int) -> int {
        self.players[p].settlements.len() + 2 * self.players[p].cities.len()
            + (if self.longest_road_owner == Some(p as usize) { 2int } else { 0int })
            + (if self.largest_army_owner == Some(p as usize) { 2int } else { 0int })
    }

    /// The victory points player `p` holds beyond their buildings and awards.
    pub open spec fn card_points(self, p: int) -> int {
        self.players[p].victory_points - self.board_points(p)
    }

    /// From `self` to `post` the players stay the same in number and nobody's points beyond
    /// buildings and awards change, except that `scorer`, if any, gains one.
    pub open spec fn card_points_step(self, post: GameView, scorer: Option<int>) -> bool {
        &&& post.players.len() == self.players.len()
        &&& forall|q: int| 0 <= q < self.players.len() ==>
            #[trigger] post.card_points(q) == self.card_points(q) + (if scorer == Some(q) { 1int } else { 0int })
    }
}

/// A step that leaves buildings, points and awards alone keeps everybody's card points.
proof fn lemma_same_board(pre: GameView, post: GameView)
    requires
        post.players.len() == pre.players.len(),
        post.longest_road_owner == pre.longest_road_owner,
        post.largest_army_owner == pre.largest_army_owner,
        forall|q: int| 0 <= q < pre.players.len() ==> {
            &&& (#[trigger] post.players[q]).victory_points == pre.players[q].victory_points
            &&& post.players[q].settlements == pre.players[q].settlements
            &&& post.players[q].cities == pre.players[q].cities
        },
    ensures
        pre.card_points_step(post, None),
{
    assert forall|q: int| 0 <= q < pre.players.len() implies #[trigger] post.card_points(q) == pre.card_points(q) + (if None::<int> == Some(q) { 1int } else { 0int }) by {
        assert(post.players[q].victory_points == pre.players[q].victory_points);
    }
}

/// Card points add up over two steps.
proof fn lemma_card_points_chain(a: GameView, b: GameView, c: GameView, s1: Option<int>, s2: Option<int>)
    requires
        a.card_points_step(b, s1),
        b.card_points_step(c, s2),
        s1 is None || s2 is None,
    ensures
        a.card_points_step(c, if s1 is Some { s1 } else { s2 }),
{
    assert forall|q: int| 0 <= q < a.players.len() implies #[trigger] c.card_points(q) == a.card_points(q) + (if (if s1 is Some { s1 } else { s2 }) == Some(q) { 1int } else { 0int }) by {
        assert(b.card_points(q) == a.card_points(q) + (if s1 == Some(q) { 1int } else { 0int }));
        assert(c.card_points(q) == b.card_points(q) + (if s2 == Some(q) { 1int } else { 0int }));
    }
}

/// A new game starts with no victory points: nobody has buildings, awards or points.
pub proof fn law_new_game_scores_nothing(g: GameView, names: Seq<Seq<char>>, q: int)
    requires
        super::is_new_game(g, names),
        0 <= q < g.players.len(),
    ensures
        g.board_points(q) == 0,
        g.card_points(q) == 0,
        g.players[q].victory_points == 0,
{
    assert(g.players[q] == super::new_player(q as usize, names[q]));
}

/// Building and the two awards keep every player's victory points equal to what their
/// buildings and awards are worth plus their card points: a settlement scores one, a city
/// one more than the settlement it replaces, and an award two for the player who takes it
/// and minus two for the player who loses it.
pub proof fn law_buildings_and_awards_score(g: GameView, p: int, v: usize, a: usize, b: usize)
    requires
        g.players.len() <= usize::MAX,
        g.wf(),
        0 <= p < g.players.len(),
    ensures
        g.settlement_fits(p, v) ==> g.card_points_step(g.build_settlement_outcome(p, v).0, None),
        g.city_fits(p, v) ==> g.card_points_step(g.build_city_outcome(p, v).0, None),
        g.road_fits(p, a, b) ==> g.card_points_step(g.build_road_outcome(p, a, b).0, None),
        g.road_award_fits(p) ==> g.card_points_step(g.road_award_outcome(p), None),
        g.army_fits(p) ==> g.card_points_step(g.army_outcome(p), None),
{
    if g.settlement_fits(p, v) {
        lemma_settlement_points(g, p, v);
    }
    if g.city_fits(p, v) {
        lemma_city_points(g, p, v);
    }
    if g.road_fits(p, a, b) {
        lemma_road_points(g, p, a, b);
    }
    if g.road_award_fits(p) {
        lemma_road_award_points(g, p);
    }
    if g.army_fits(p) {
        lemma_army_points(g, p);
    }
}

proof fn lemma_settlement_points(g: GameView, p: int, v: usize)
    requires
        g.wf(),
        0 <= p < g.players.len(),
        g.settlement_fits(p, v),
    ensures
        g.card_points_step(g.build_settlement_outcome(p, v).0, None),
{
    let post = g.build_settlement_outcome(p, v).0;
    assert forall|q: int| 0 <= q < g.players.len() implies #[trigger] post.card_points(q) == g.card_points(q) + (if None::<int> == Some(q) { 1int } else { 0int }) by {
        if q == p && g.settlement_error(p, v) is None {
            assert(post.players[q].settlements.len() == g.players[q].settlements.len() + 1);
        }
    }
}

proof fn lemma_city_points(g: GameView, p: int, v: usize)
    requires
        g.wf(),
        0 <= p < g.players.len(),
        g.city_fits(p, v),
    ensures
        g.card_points_step(g.build_city_outcome(p, v).0, None),
{
    let post = g.build_city_outcome(p, v).0;
    if g.city_error(p, v) is None {
        let s = g.players[p].settlements;
        s.index_of_first_ensures(v);
        assert(s.remove_value(v).len() == s.len() - 1);
    }
    assert forall|q: int| 0 <= q < g.players.len() implies #[trigger] post.card_points(q) == g.card_points(q) + (if None::<int> == Some(q) { 1int } else { 0int }) by {
        if q == p && g.city_error(p, v) is None {
            assert(post.players[q].settlements.len() == g.players[q].settlements.len() - 1);
            assert(post.players[q].cities.len() == g.players[q].cities.len() + 1);
        }
    }
}

proof fn lemma_road_award_points(g: GameView, p: int)
    requires
        g.longest_road_owner matches Some(o) ==> o < g.players.len(),
        g.players.len() <= usize::MAX,
        0 <= p < g.players.len(),
        g.road_award_fits(p),
    ensures
        g.card_points_step(g.road_award_outcome(p), None),
{
    let post = g.road_award_outcome(p);
    assert forall|q: int| 0 <= q < g.players.len() implies #[trigger] post.card_points(q) == g.card_points(q) + (if None::<int> == Some(q) { 1int } else { 0int }) by {
        if longest_road_len(g.players[p].roads) >= 5 {
            match g.longest_road_owner {
                None => {
                    assert(post.players[q].victory_points == g.players[q].victory_points + (if q == p { 2int } else { 0int }));
                    assert((Some(p as usize) == Some(q as usize)) == (q == p));
                },
                Some(o) => {
                    if o != p && longest_road_len(g.players[p].roads) > g.longest_road_length {
                        let lost = g.players.update(o as int, PlayerView {
                            victory_points: (g.players[o as int].victory_points - 2) as u8,
                            ..g.players[o as int]
                        });
                        assert(lost[p] == g.players[p]);
                        assert(lost[q].victory_points == g.players[q].victory_points - (if q == o { 2int } else { 0int }));
                        assert(post.players[q].victory_points == g.players[q].victory_points
                            + (if q == p { 2int } else { 0int }) - (if q == o { 2int } else { 0int }));
                        assert((Some(p as usize) == Some(q as usize)) == (q == p));
                        assert((Some(o) == Some(q as usize)) == (q == o));
                    }
                },
            }
        }
    }
}

proof fn lemma_army_points(g: GameView, p: int)
    requires
        g.wf(),
        g.players.len() <= usize::MAX,
        0 <= p < g.players.len(),
        g.army_fits(p),
    ensures
        g.card_points_step(g.army_outcome(p), None),
{
    let post = g.army_outcome(p);
    assert forall|q: int| 0 <= q < g.players.len() implies #[trigger] post.card_points(q) == g.card_points(q) + (if None::<int> == Some(q) { 1int } else { 0int }) by {
        if g.players[p].knights_played >= 3 {
            match g.largest_army_owner {
                None => {
                    assert(post.players[q].victory_points == g.players[q].victory_points + (if q == p { 2int } else { 0int }));
                    assert((Some(p as usize) == Some(q as usize)) == (q == p));
                },
                Some(o) => {
                    if !(o == p || g.players[p].knights_played <= g.players[o as int].knights_played) {
                        let lost = g.players.update(o as int, PlayerView {
                            victory_points: (g.players[o as int].victory_points - 2) as u8,
                            ..g.players[o as int]
                        });
                        assert(lost[p] == g.players[p]);
                        assert(lost[q].victory_points == g.players[q].victory_points - (if q == o { 2int } else { 0int }));
                        assert(post.players[q].victory_points == g.players[q].victory_points
                            + (if q == p { 2int } else { 0int }) - (if q == o { 2int } else { 0int }));
                        assert((Some(p as usize) == Some(q as usize)) == (q == p));
                        assert((Some(o) == Some(q as usize)) == (q == o));
                    }
                },
            }
        }
    }
}

proof fn lemma_road_points(g: GameView, p: int, a: usize, b: usize)
    requires
        g.longest_road_owner matches Some(o) ==> o < g.players.len(),
        g.players.len() <= usize::MAX,
        0 <= p < g.players.len(),
        g.road_fits(p, a, b),
    ensures
        g.card_points_step(g.build_road_outcome(p, a, b).0, None),
{
    if g.road_error(p, a, b) is None {
        let l = g.road_laid(p, a, b);
        lemma_same_board(g, l);
        lemma_road_award_points(l, p);
        let w = l.road_award_outcome(p);
        lemma_same_board(w, w.setup_advance());
        lemma_card_points_chain(g, l, w, None, None);
        lemma_card_points_chain(g, w, w.setup_advance(), None, None);
    }
}

/// Playing a development card changes nobody's victory points beyond their buildings and
/// awards, save that a victory point card scores one for the player who plays it. A knight
/// may move the largest army and road building the longest road; their points go with the
/// awards.
pub proof fn law_cards_score(g: GameView, p: int, card_id: int, post: GameView, r: Result<(), &'static str>)
    requires
        g.wf(),
        g.players.len() <= usize::MAX,
        0 <= p < g.players.len(),
        g.play_fits(p, card_id),
        g.play_dev_card_result(p, card_id, post, r),
    ensures
        g.card_points_step(post, if g.play_error(p, card_id) is None && g.players[p].dev_cards[card_id].card == DevCard::VictoryPoint {
            Some(p)
        } else {
            None
        }),
{
    if g.play_error(p, card_id) is Some {
        lemma_same_board(g, post);
    } else {
        let g1 = g.card_removed(p, card_id);
        lemma_same_board(g, g1);
        match g.players[p].dev_cards[card_id].card {
            DevCard::Knight => {
                let k = g1.with_knight(p);
                lemma_same_board(g1, k);
                lemma_card_points_chain(g, g1, k, None, None);
                let mid = choose|mid: GameView| #[trigger] k.knight_outcome(mid) && post == mid.army_outcome(p);
                assert(k.wf()) by {
                    assert forall|i: int| 0 <= i < k.players.len() implies (#[trigger] k.players[i]).wf() && k.players[i].seated(i) by {
                        assert(g.players[i].wf() && g.players[i].seated(i));
                    }
                }
                k.lemma_knight_moves_cards_only(mid);
                assert forall|i: int| 0 <= i < k.players.len() implies (#[trigger] mid.players[i]).victory_points == k.players[i].victory_points by {
                    assert(mid.players[i] == (PlayerView { resources: mid.players[i].resources, ..k.players[i] }));
                }
                lemma_same_board(k, mid);
                lemma_card_points_chain(g, k, mid, None, None);
                lemma_army_points(mid, p);
                lemma_card_points_chain(g, mid, post, None, None);
            },
            DevCard::VictoryPoint => {
                assert forall|q: int| 0 <= q < g.players.len() implies #[trigger] post.card_points(q) == g.card_points(q) + (if Some(p) == Some(q) { 1int } else { 0int }) by {
                }
            },
            DevCard::Monopoly => {
                lemma_same_board(g1, post);
                lemma_card_points_chain(g, g1, post, None, None);
            },
            DevCard::RoadBuilding => {
                let g2a = g1.with_more(p, Resource::Lumber, 2);
                let g2 = g2a.with_more(p, Resource::Brick, 2);
                lemma_same_board(g1, g2a);
                lemma_same_board(g2a, g2);
                lemma_card_points_chain(g, g1, g2a, None, None);
                lemma_card_points_chain(g, g2a, g2, None, None);
                lemma_road_points(g2, p, 1, 2);
                let g3 = g2.build_road_outcome(p, 1, 2).0;
                lemma_card_points_chain(g, g2, g3, None, None);
                if g2.build_road_outcome(p, 1, 2).1 is Ok {
                    lemma_road_points(g3, p, 2, 3);
                    lemma_card_points_chain(g, g3, post, None, None);
                }
            },
            DevCard::YearOfPlenty => {
                let y1 = g1.with_more(p, Resource::Ore, 1);
                lemma_same_board(g1, y1);
                lemma_same_board(y1, post);
                lemma_card_points_chain(g, g1, y1, None, None);
                lemma_card_points_chain(g, y1, post, None, None);
            },
        }
    }
}

/// Moves that neither build nor hand out awards leave every player's victory points as
/// their buildings and awards plus their card points: buying a card, trading, a harvest, a
/// seven, and the passing of phases and turns.
pub proof fn law_other_moves_keep_points(
    g: GameView,
    p: int,
    q: int,
    offer: Resource,
    amount_offer: u8,
    request: Resource,
    amount_request: u8,
    roll: u8,
    post: GameView,
)
    requires
        g.wf(),
        g.players.len() <= usize::MAX,
        0 <= p < g.players.len(),
        0 <= q < g.players.len(),
    ensures
        g.card_points_step(g.buy_dev_card_outcome(p).0, None),
        g.card_points_step(g.maritime_trade_outcome(p, offer, request).0, None),
        g.card_points_step(g.player_trade_outcome(p, q, offer, amount_offer, request, amount_request).0, None),
        g.card_points_step(g.harvest(roll), None),
        g.robbery_result(post) ==> g.card_points_step(post, None),
        g.seven_outcome(post) ==> g.card_points_step(post, None),
        g.card_points_step(g.after_next_phase(), None),
        g.card_points_step(g.after_next_turn(), None),
{
    lemma_same_board(g, g.buy_dev_card_outcome(p).0);
    let m = g.maritime_trade_outcome(p, offer, request).0;
    if g.count(p, offer) >= g.trade_ratio(p, offer) {
        let paid = g.with_count(p, offer.slot(), g.count(p, offer) - g.trade_ratio(p, offer));
        lemma_same_board(g, paid);
        lemma_same_board(paid, m);
        lemma_card_points_chain(g, paid, m, None, None);
    } else {
        lemma_same_board(g, m);
    }
    let t = g.player_trade_outcome(p, q, offer, amount_offer, request, amount_request).0;
    if p != q && !(g.count(p, offer) < amount_offer || g.count(q, request) < amount_request) {
        let g1 = g.with_count(p, offer.slot(), g.count(p, offer) - amount_offer);
        let g2 = g1.with_count(p, request.slot(), g1.count(p, request) + amount_request);
        let g3 = g2.with_count(q, request.slot(), g2.count(q, request) - amount_request);
        lemma_same_board(g, g1);
        lemma_same_board(g1, g2);
        lemma_same_board(g2, g3);
        lemma_same_board(g3, t);
        lemma_card_points_chain(g, g1, g2, None, None);
        lemma_card_points_chain(g, g2, g3, None, None);
        lemma_card_points_chain(g, g3, t, None, None);
    } else {
        lemma_same_board(g, t);
    }
    lemma_same_board(g, g.harvest(roll));
    if g.robbery_result(post) {
        lemma_same_board(g, post);
    }
    if g.seven_outcome(post) {
        let mid = choose|mid: GameView| #[trigger] g.robbery_result(mid) && mid.knight_outcome(post);
        lemma_same_board(g, mid);
        assert(mid.wf()) by {
            assert forall|i: int| 0 <= i < mid.players.len() implies (#[trigger] mid.players[i]).wf() && mid.players[i].seated(i) by {
                assert(g.players[i].wf() && g.players[i].seated(i));
                assert(mid.players[i] == (PlayerView { resources: mid.players[i].resources, ..g.players[i] }));
                super::resources::lemma_robbed_hand_le(g.players[i].resources, mid.players[i].resources);
            }
        }
        mid.lemma_knight_moves_cards_only(post);
        assert forall|i: int| 0 <= i < mid.players.len() implies (#[trigger] post.players[i]).victory_points == mid.players[i].victory_points by {
            assert(post.players[i] == (PlayerView { resources: post.players[i].resources, ..mid.players[i] }));
        }
        lemma_same_board(mid, post);
        lemma_card_points_chain(g, mid, post, None, None);
    }
    lemma_same_board(g, g.after_next_phase());
    lemma_same_board(g, g.after_next_turn());
}

/// The game with tile `t` stripped of its number token.
pub open spec fn without_token(g: GameView, t: int) -> GameView {
    GameView { tiles: g.tiles.update(t, Tile { number_token: None, ..g.tiles[t] }), ..g }
}

/// The tile under the robber pays nothing on any roll: every hand after the harvest is what
/// it would be if that tile carried no number at all.
pub proof fn law_robber_tile_pays_nothing(g: GameView, roll: u8)
    requires
        g.robber_tile < g.tiles.len(),
    ensures
        g.harvest(roll).players == without_token(g, g.robber_tile as int).harvest(roll).players,
{
    let g2 = without_token(g, g.robber_tile as int);
    let h1 = g.harvest(roll);
    let h2 = g2.harvest(roll);
    assert forall|p: int| 0 <= p < g.players.len() implies #[trigger] h1.players[p] == h2.players[p] by {
        assert forall|k: int| 0 <= k < RESOURCE_KINDS implies #[trigger] h1.players[p].resources[k] == h2.players[p].resources[k] by {
            lemma_gain_without_robber_tile(g, p, k, roll, g.tiles.len() as int);
        }
        assert(h1.players[p].resources =~= h2.players[p].resources);
    }
    assert(h1.players =~= h2.players);
}

proof fn lemma_gain_without_robber_tile(g: GameView, p: int, k: int, roll: u8, i: int)
    requires
        g.robber_tile < g.tiles.len(),
        i <= g.tiles.len(),
    ensures
        g.gain(p, k, roll, i) == without_token(g, g.robber_tile as int).gain(p, k, roll, i),
    decreases i,
{
    let g2 = without_token(g, g.robber_tile as int);
    if i > 0 {
        lemma_gain_without_robber_tile(g, p, k, roll, i - 1);
        if i - 1 == g.robber_tile {
            assert(!g.produces(i - 1, roll));
            assert(g2.tiles[i - 1].number_token is None);
            assert(!g2.produces(i - 1, roll));
        } else {
            assert(g2.tiles[i - 1] == g.tiles[i - 1]);
        }
    }
}

/// A roll whose number no tile but the robber's carries changes no hand.
pub proof fn law_roll_on_robber_only_changes_nothing(g: GameView, roll: u8)
    requires
        g.wf(),
        forall|i: int| 0 <= i < g.tiles.len() && i != g.robber_tile ==> (#[trigger] g.tiles[i]).number_token != Some(roll),
    ensures
        g.harvest(roll) == g,
{
    let h = g.harvest(roll);
    assert forall|p: int| 0 <= p < g.players.len() implies #[trigger] h.players[p] == g.players[p] by {
        assert forall|k: int| 0 <= k < RESOURCE_KINDS implies #[trigger] h.players[p].resources[k] == g.players[p].resources[k] by {
            lemma_gain_zero(g, p, k, roll, g.tiles.len() as int);
        }
        assert(g.players[p].wf());
        assert(h.players[p].resources =~= g.players[p].resources);
    }
    assert(h.players =~= g.players);
}

proof fn lemma_gain_zero(g: GameView, p: int, k: int, roll: u8, i: int)
    requires
        i <= g.tiles.len(),
        forall|j: int| 0 <= j < g.tiles.len() && j != g.robber_tile ==> (#[trigger] g.tiles[j]).number_token != Some(roll),
    ensures
        g.gain(p, k, roll, i) == 0,
    decreases i,
{
    if i > 0 {
        lemma_gain_zero(g, p, k, roll, i - 1);
        if i - 1 != g.robber_tile {
            assert(g.tiles[i - 1].number_token != Some(roll));
        }
    }
}

/// A tile with the rolled number and without the robber pays its owners: a player with a
/// settlement on one of its corners gets at least one card of its resource, with a city
/// there at least two.
pub proof fn law_producing_tile_pays(g: GameView, roll: u8, t: int, p: int, c: int)
    requires
        g.wf(),
        g.harvest_fits(roll),
        0 <= p < g.players.len(),
        0 <= t < g.tiles.len(),
        t != g.robber_tile,
        g.tiles[t].number_token == Some(roll),
        0 <= c < 6,
        g.players[p].settlements.contains(g.tiles[t].vertices@[c]) || g.players[p].cities.contains(g.tiles[t].vertices@[c]),
    ensures
        ({
            let k = g.tiles[t].resource.slot();
            let v = g.tiles[t].vertices@[c];
            g.harvest(roll).players[p].resources[k]
                >= g.players[p].resources[k] + (if g.players[p].cities.contains(v) { 2int } else { 1int })
        }),
{
    let k = g.tiles[t].resource.slot();
    let n = g.tiles.len() as int;
    let pl = g.players[p];
    let tile = g.tiles[t];
    super::resources::lemma_gain_monotone(g, p, k, roll, t + 1, n);
    super::resources::lemma_gain_monotone(g, p, k, roll, 0, t);
    assert(g.produces(t, roll));
    assert(g.gain(p, k, roll, t + 1) == g.gain(p, k, roll, t) + super::resources::yield_upto(pl, tile, 6));
    super::resources::lemma_yield_upto_monotone(pl, tile, c + 1, 6);
    super::resources::lemma_yield_upto_monotone(pl, tile, 0, c);
    assert(super::resources::yield_upto(pl, tile, c + 1)
        == super::resources::yield_upto(pl, tile, c) + super::resources::corner_yield(pl, tile.vertices@[c]));
    assert(0 <= k < RESOURCE_KINDS);
    assert(pl.resources[k] + g.gain(p, k, roll, n) <= 255);
}

/// A player collects a resource only from the producing tiles they have buildings on: with
/// no settlement or city on any corner of a tile that carries the rolled number, is free of
/// the robber and yields that resource, their count of it stays as it was.
pub proof fn law_no_building_no_harvest(g: GameView, roll: u8, p: int, k: int)
    requires
        g.wf(),
        0 <= p < g.players.len(),
        0 <= k < RESOURCE_KINDS,
        forall|t: int, c: int| #![trigger g.tiles[t].vertices@[c]] 0 <= t < g.tiles.len() && t != g.robber_tile && g.tiles[t].number_token == Some(roll)
            && g.tiles[t].resource.slot() == k && 0 <= c < 6
            ==> !g.players[p].settlements.contains(g.tiles[t].vertices@[c]) && !g.players[p].cities.contains(g.tiles[t].vertices@[c]),
    ensures
        g.harvest(roll).players[p].resources[k] == g.players[p].resources[k],
{
    lemma_gain_without_buildings(g, roll, p, k, g.tiles.len() as int);
}

proof fn lemma_gain_without_buildings(g: GameView, roll: u8, p: int, k: int, i: int)
    requires
        i <= g.tiles.len(),
        forall|t: int, c: int| #![trigger g.tiles[t].vertices@[c]] 0 <= t < g.tiles.len() && t != g.robber_tile && g.tiles[t].number_token == Some(roll)
            && g.tiles[t].resource.slot() == k && 0 <= c < 6
            ==> !g.players[p].settlements.contains(g.tiles[t].vertices@[c]) && !g.players[p].cities.contains(g.tiles[t].vertices@[c]),
    ensures
        g.gain(p, k, roll, i) == 0,
    decreases i,
{
    if i > 0 {
        lemma_gain_without_buildings(g, roll, p, k, i - 1);
        let t = i - 1;
        if g.produces(t, roll) && g.tiles[t].resource.slot() == k {
            lemma_yield_zero(g.players[p], g.tiles[t], 6);
        }
    }
}

proof fn lemma_yield_zero(pl: PlayerView, tile: Tile, c: int)
    requires
        c <= 6,
        forall|d: int| 0 <= d < 6 ==> !pl.settlements.contains(tile.vertices@[d]) && !pl.cities.contains(tile.vertices@[d]),
    ensures
        super::resources::yield_upto(pl, tile, c) == 0,
    decreases c,
{
    if c > 0 {
        lemma_yield_zero(pl, tile, c - 1);
        assert(!pl.settlements.contains(tile.vertices@[c - 1]));
    }
}

/// A building on either vertex of a harbor opens it: the player trades a resource at two for
/// one through a harbor for that resource, and at three or better through a generic one.
/// Every ratio is two, three or four, and a player with no building at any harbor trades
/// at four.
pub proof fn law_harbors_lower_the_ratio(g: GameView, p: int, i: int, r: Resource)
    requires
        0 <= p < g.players.len(),
    ensures
        2 <= g.trade_ratio(p, r) <= 4,
        0 <= i < g.harbors.len() && ({
            let h = g.harbors[i];
            let pl = g.players[p];
            pl.settlements.contains(h.loc0) || pl.cities.contains(h.loc0)
                || pl.settlements.contains(h.loc1) || pl.cities.contains(h.loc1)
        }) ==> {
            &&& g.harbors[i].htype == HarborType::Generic ==> g.trade_ratio(p, r) <= 3
            &&& g.harbors[i].htype == HarborType::Resource(r) ==> g.trade_ratio(p, r) == 2
        },
        (forall|j: int| 0 <= j < g.harbors.len() ==> {
            let h = #[trigger] g.harbors[j];
            let pl = g.players[p];
            !(pl.settlements.contains(h.loc0) || pl.cities.contains(h.loc0)
                || pl.settlements.contains(h.loc1) || pl.cities.contains(h.loc1))
        }) ==> g.trade_ratio(p, r) == 4,
        (forall|j: int| 0 <= j < g.harbors.len() && (#[trigger] g.harbors[j]).htype == HarborType::Resource(r) ==> {
            let h = g.harbors[j];
            let pl = g.players[p];
            !(pl.settlements.contains(h.loc0) || pl.cities.contains(h.loc0)
                || pl.settlements.contains(h.loc1) || pl.cities.contains(h.loc1))
        }) ==> g.trade_ratio(p, r) >= 3,
{
    if 0 <= i < g.harbors.len() {
        assert(super::trade::has_harbor_access(g.players[p], g.harbors[i])
            == (g.players[p].owns_building_at(g.harbors[i].loc0) || g.players[p].owns_building_at(g.harbors[i].loc1)));
    }
}

/// The current player wins exactly when they hold ten victory points or more; more points
/// never take a win away.
pub proof fn law_ten_points_win(g: GameView, more: u8)
    requires
        g.wf(),
    ensures
        g.players[g.current_player as int].victory_points >= 10 ==> g.winner() == Some(g.players[g.current_player as int].id),
        g.players[g.current_player as int].victory_points < 10 ==> g.winner() is None,
        ({
            let c = g.current_player as int;
            let g2 = GameView { players: g.players.update(c, PlayerView { victory_points: more, ..g.players[c] }), ..g };
            g.winner() is Some && more >= g.players[c].victory_points ==> g2.winner() == g.winner()
        }),
{
}

/// The largest army changes hands only to a player with strictly more knights than its
/// holder, and only from three knights on; a player who merely ties the holder changes
/// nothing, and the first player to reach three knights takes the award with its two
/// points.
pub proof fn law_army_goes_to_more_knights(g: GameView, p: int)
    requires
        g.wf(),
        0 <= p < g.players.len(),
        g.army_fits(p),
    ensures
        ({
            let post = g.army_outcome(p);
            let kp = g.players[p].knights_played;
            &&& post.largest_army_owner != g.largest_army_owner ==> {
                &&& post.largest_army_owner == Some(p as usize)
                &&& kp >= 3
                &&& (g.largest_army_owner matches Some(o) ==> kp > g.players[o as int].knights_played)
            }
            &&& (g.largest_army_owner matches Some(o) && o != p && kp <= g.players[o as int].knights_played) ==> post == g
            &&& kp < 3 ==> post == g
            &&& (g.largest_army_owner is None && kp >= 3) ==> {
                &&& post.largest_army_owner == Some(p as usize)
                &&& post.players[p].victory_points == g.players[p].victory_points + 2
            }
            &&& g.largest_army_owner matches Some(o) ==> (o != p && post.largest_army_owner != g.largest_army_owner ==> {
                &&& post.players[o as int].victory_points == g.players[o as int].victory_points - 2
                &&& post.players[p].victory_points == g.players[p].victory_points + 2
            })
        }),
{
}

/// Outside the setup rounds a player may extend their own road network: a road between two
/// adjacent vertices that nobody has built yet, from an end of one of the player's roads, is
/// built when they have fewer than fifteen roads and a brick and a lumber, and it joins their
/// roads, written with the smaller vertex first.
pub proof fn law_roads_extend_the_network(g: GameView, p: int, a: usize, b: usize, j: int)
    requires
        g.wf(),
        0 <= p < g.players.len(),
        g.game_phase == GamePhase::NormalPlay,
        a < g.vertices.len(),
        g.vertices[a as int].neighbors.contains(b),
        forall|q: int| 0 <= q < g.players.len() ==> !(#[trigger] g.players[q]).roads.contains(if a < b { (a, b) } else { (b, a) }),
        g.players[p].roads.len() < 15,
        g.players[p].resources[Resource::Brick.slot()] >= 1,
        g.players[p].resources[Resource::Lumber.slot()] >= 1,
        0 <= j < g.players[p].roads.len(),
        g.players[p].roads[j].0 == a || g.players[p].roads[j].1 == a || g.players[p].roads[j].0 == b || g.players[p].roads[j].1 == b,
    ensures
        g.build_road_outcome(p, a, b).1 is Ok,
        g.build_road_outcome(p, a, b).0.players[p].roads == g.players[p].roads.push(if a < b { (a, b) } else { (b, a) }),
        g.build_road_outcome(p, a, b).0.players[p].resources[Resource::Brick.slot()] == g.players[p].resources[Resource::Brick.slot()] - 1,
        g.build_road_outcome(p, a, b).0.players[p].resources[Resource::Lumber.slot()] == g.players[p].resources[Resource::Lumber.slot()] - 1,
{
    let pl = g.players[p];
    assert(pl.roads[j] == pl.roads[j]);
    if pl.roads[j].0 == a || pl.roads[j].1 == a {
        assert(pl.has_road_at(a));
    } else {
        assert(pl.has_road_at(b));
    }
    assert(road_between(a, b) == (if a < b { (a, b) } else { (b, a) }));
    assert(!g.road_taken(a, b));
    assert(pl.wf());
    assert(super::resources::can_pay(pl.resources, super::resources::road_price()));
    assert(g.road_error(p, a, b) is None);
}

/// Outside the setup rounds a road must touch the player's own network: a road with neither
/// end at one of the player's settlements, cities or road ends is refused and changes
/// nothing.
pub proof fn law_unconnected_road_refused(g: GameView, p: int, a: usize, b: usize)
    requires
        0 <= p < g.players.len(),
        g.game_phase == GamePhase::NormalPlay,
        !g.players[p].settlements.contains(a) && !g.players[p].cities.contains(a),
        !g.players[p].settlements.contains(b) && !g.players[p].cities.contains(b),
        forall|j: int| 0 <= j < g.players[p].roads.len() ==> {
            let r = #[trigger] g.players[p].roads[j];
            r.0 != a && r.1 != a && r.0 != b && r.1 != b
        },
    ensures
        g.build_road_outcome(p, a, b).1 is Err,
        g.build_road_outcome(p, a, b).0 == g,
{
}

/// Outside the setup rounds a settlement is built on a free vertex with no building next to
/// it, at an end of one of the player's roads, by a player with fewer than five settlements
/// and a brick, a lumber, a wool and a grain: it costs exactly those four cards and scores a
/// point, and no other player changes.
pub proof fn law_settlement_built_where_allowed(g: GameView, p: int, v: usize, j: int)
    requires
        g.wf(),
        0 <= p < g.players.len(),
        g.game_phase == GamePhase::NormalPlay,
        v < g.vertices.len(),
        forall|q: int| 0 <= q < g.players.len() ==> !(#[trigger] g.players[q]).settlements.contains(v) && !g.players[q].cities.contains(v),
        forall|q: int, i: int| 0 <= q < g.players.len() && 0 <= i < g.vertices[v as int].neighbors.len() ==>
            !(#[trigger] g.players[q]).settlements.contains(#[trigger] g.vertices[v as int].neighbors[i])
            && !g.players[q].cities.contains(g.vertices[v as int].neighbors[i]),
        0 <= j < g.players[p].roads.len(),
        g.players[p].roads[j].0 == v || g.players[p].roads[j].1 == v,
        g.players[p].settlements.len() < 5,
        g.players[p].victory_points < 255,
        g.players[p].resources[Resource::Brick.slot()] >= 1,
        g.players[p].resources[Resource::Lumber.slot()] >= 1,
        g.players[p].resources[Resource::Wool.slot()] >= 1,
        g.players[p].resources[Resource::Grain.slot()] >= 1,
    ensures
        ({
            let (post, r) = g.build_settlement_outcome(p, v);
            let (pl, pl2) = (g.players[p], post.players[p]);
            &&& r is Ok
            &&& pl2.settlements == pl.settlements.push(v)
            &&& pl2.cities == pl.cities
            &&& pl2.victory_points == pl.victory_points + 1
            &&& pl2.resources[Resource::Brick.slot()] == pl.resources[Resource::Brick.slot()] - 1
            &&& pl2.resources[Resource::Lumber.slot()] == pl.resources[Resource::Lumber.slot()] - 1
            &&& pl2.resources[Resource::Wool.slot()] == pl.resources[Resource::Wool.slot()] - 1
            &&& pl2.resources[Resource::Grain.slot()] == pl.resources[Resource::Grain.slot()] - 1
            &&& pl2.resources[Resource::Ore.slot()] == pl.resources[Resource::Ore.slot()]
            &&& forall|q: int| 0 <= q < g.players.len() && q != p ==> #[trigger] post.players[q] == g.players[q]
        }),
{
    let pl = g.players[p];
    assert(pl.roads[j] == pl.roads[j]);
    assert(pl.has_road_at(v));
    assert(!g.occupied(v)) by {
        if g.occupied(v) {
            let q = choose|q: int| 0 <= q < g.players.len() && (#[trigger] g.players[q]).owns_building_at(v);
            assert(!g.players[q].settlements.contains(v));
        }
    }
    assert(!g.too_close(v)) by {
        if g.too_close(v) {
            let i = choose|i: int| 0 <= i < g.vertices[v as int].neighbors.len() && g.occupied(#[trigger] g.vertices[v as int].neighbors[i]);
            let w = g.vertices[v as int].neighbors[i];
            let q = choose|q: int| 0 <= q < g.players.len() && (#[trigger] g.players[q]).owns_building_at(w);
            assert(!g.players[q].settlements.contains(w));
        }
    }
    assert(pl.wf());
    assert(super::resources::can_pay(pl.resources, super::resources::settlement_price()));
    assert(g.settlement_error(p, v) is None);
}

/// A player's settlement becomes a city when they have fewer than four cities and two grain
/// and three ore: it costs exactly those cards, the vertex moves from their settlements to
/// their cities, and it scores one more point.
pub proof fn law_city_built_where_allowed(g: GameView, p: int, v: usize)
    requires
        g.wf(),
        0 <= p < g.players.len(),
        g.players[p].settlements.contains(v),
        !g.players[p].cities.contains(v),
        forall|q: int| 0 <= q < g.players.len() && q != p ==> !(#[trigger] g.players[q]).settlements.contains(v) && !g.players[q].cities.contains(v),
        g.players[p].cities.len() < 4,
        g.players[p].victory_points < 255,
        g.players[p].resources[Resource::Grain.slot()] >= 2,
        g.players[p].resources[Resource::Ore.slot()] >= 3,
    ensures
        ({
            let (post, r) = g.build_city_outcome(p, v);
            let (pl, pl2) = (g.players[p], post.players[p]);
            &&& r is Ok
            &&& pl2.cities == pl.cities.push(v)
            &&& !pl2.settlements.contains(v)
            &&& pl2.settlements.len() == pl.settlements.len() - 1
            &&& pl2.victory_points == pl.victory_points + 1
            &&& pl2.resources[Resource::Grain.slot()] == pl.resources[Resource::Grain.slot()] - 2
            &&& pl2.resources[Resource::Ore.slot()] == pl.resources[Resource::Ore.slot()] - 3
            &&& pl2.resources[Resource::Brick.slot()] == pl.resources[Resource::Brick.slot()]
            &&& pl2.resources[Resource::Lumber.slot()] == pl.resources[Resource::Lumber.slot()]
            &&& pl2.resources[Resource::Wool.slot()] == pl.resources[Resource::Wool.slot()]
            &&& forall|q: int| 0 <= q < g.players.len() && q != p ==> #[trigger] post.players[q] == g.players[q]
        }),
{
    let pl = g.players[p];
    assert(!g.occupied_by_other(p, v)) by {
        if g.occupied_by_other(p, v) {
            let q = choose|q: int| 0 <= q < g.players.len() && q != p && (#[trigger] g.players[q]).owns_building_at(v);
            assert(!g.players[q].settlements.contains(v));
        }
    }
    assert(pl.wf());
    assert(super::resources::can_pay(pl.resources, super::resources::city_price()));
    assert(g.city_error(p, v) is None);
    let s = pl.settlements;
    s.index_of_first_ensures(v);
    let i = s.index_of_first(v)->0;
    let s2 = s.remove_value(v);
    assert(s2 == s.remove(i));
    if s2.contains(v) {
        let m = choose|m: int| 0 <= m < s2.len() && s2[m] == v;
        if m < i {
            assert(s[m] == v);
        } else {
            assert(s[m + 1] == v);
        }
    }
}

/// A trade with the bank goes through exactly when the player holds at least the ratio of
/// the offered resource: the offered count drops by the ratio and the requested count rises
/// by one. A refused trade changes nothing.
pub proof fn law_maritime_trade_exact(g: GameView, p: int, offer: Resource, request: Resource)
    requires
        g.wf(),
        0 <= p < g.players.len(),
        offer != request,
    ensures
        ({
            let (post, r) = g.maritime_trade_outcome(p, offer, request);
            let ratio = g.trade_ratio(p, offer);
            &&& (r is Ok) == (g.players[p].resources[offer.slot()] >= ratio)
            &&& r is Ok ==> post.players[p].resources[offer.slot()] == g.players[p].resources[offer.slot()] - ratio
            &&& r is Ok ==> post.players[p].resources[request.slot()] == (g.players[p].resources[request.slot()] + 1) as u8
            &&& r is Err ==> post == g
        }),
{
    assert(g.players[p].wf());
    assert(offer.slot() != request.slot());
}

/// Buying a development card succeeds exactly when the player has a wool, a grain and an ore
/// and the pool is not empty: those three cards are paid and the top card of the pool moves
/// to the player's hand.
pub proof fn law_buying_takes_the_top_card(g: GameView, p: int)
    requires
        g.wf(),
        0 <= p < g.players.len(),
    ensures
        ({
            let (post, r) = g.buy_dev_card_outcome(p);
            let pl = g.players[p];
            let can = pl.resources[Resource::Wool.slot()] >= 1 && pl.resources[Resource::Grain.slot()] >= 1
                && pl.resources[Resource::Ore.slot()] >= 1;
            &&& (r is Ok) == (can && g.dev_card_pool.len() > 0)
            &&& r is Ok ==> {
                &&& post.dev_card_pool == g.dev_card_pool.drop_last()
                &&& post.players[p].dev_cards.len() == pl.dev_cards.len() + 1
                &&& post.players[p].dev_cards.last().card == g.dev_card_pool.last()
                &&& post.players[p].dev_cards.drop_last() == pl.dev_cards
                &&& post.players[p].resources[Resource::Wool.slot()] == pl.resources[Resource::Wool.slot()] - 1
                &&& post.players[p].resources[Resource::Grain.slot()] == pl.resources[Resource::Grain.slot()] - 1
                &&& post.players[p].resources[Resource::Ore.slot()] == pl.resources[Resource::Ore.slot()] - 1
            }
            &&& !can ==> post == g
        }),
{
    assert(g.players[p].wf());
    let pl = g.players[p];
    let can = pl.resources[Resource::Wool.slot()] >= 1 && pl.resources[Resource::Grain.slot()] >= 1
        && pl.resources[Resource::Ore.slot()] >= 1;
    assert(can == super::resources::can_pay(pl.resources, super::resources::dev_card_price()));
    if g.buy_dev_card_outcome(p).1 is Ok {
        let post = g.buy_dev_card_outcome(p).0;
        assert(post.players[p].dev_cards.drop_last() =~= pl.dev_cards);
    }
}

/// The longest road changes hands only to a player whose road is at least five long and,
/// when someone holds the award, strictly longer than the holder's recorded road; a road
/// that only ties leaves the award and every point where they were.
pub proof fn law_road_award_goes_to_longer_road(g: GameView, p: int)
    requires
        g.wf(),
        0 <= p < g.players.len(),
        g.road_award_fits(p),
    ensures
        ({
            let post = g.road_award_outcome(p);
            let len = longest_road_len(g.players[p].roads);
            &&& post.longest_road_owner != g.longest_road_owner ==> {
                &&& post.longest_road_owner == Some(p as usize)
                &&& len >= 5
                &&& (g.longest_road_owner is Some ==> len > g.longest_road_length)
            }
            &&& (g.longest_road_owner matches Some(o) && o != p && len <= g.longest_road_length) ==> post == g
            &&& len < 5 ==> post == g
            &&& (g.longest_road_owner is None && len >= 5) ==> {
                &&& post.longest_road_owner == Some(p as usize)
                &&& post.players[p].victory_points == g.players[p].victory_points + 2
            }
        }),
{
}

} // verus!
