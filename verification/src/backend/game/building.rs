//! Building settlements, cities and roads, the setup rounds, and the longest road award.
use vstd::prelude::*;
use super::{GamePhase, GameView, PlayerView};
use super::resources::{can_pay, paid, road_price, settlement_price, city_price};
use super::roads::longest_road_len;

verus! {

/// The road between `a` and `b`, written with the smaller vertex first.
pub open spec fn road_between(a: usize, b: usize) -> (usize, usize) {
    if a < b {
        (a, b)
    } else {
        (b, a)
    }
}

impl GameView {
    /// A neighbor of `v` holds a building (the distance rule forbids building on `v`).
    pub open spec fn too_close(self, v: usize) -> bool {
        exists|i: int| 0 <= i < self.vertices[v as int].neighbors.len() && self.occupied(#[trigger] self.vertices[v as int].neighbors[i])
    }

    /// Why player `p` may not build a settlement on `v`, if they may not.
    pub open spec fn settlement_error(self, p: int, v: usize) -> Option<&'static str> {
        let pl = self.players[p];
        if self.occupied(v) {
            Some("Vertex is already occupied")
        } else if self.too_close(v) {
            Some("Too close to another settlement or city")
        } else if !self.is_setup() && !pl.has_road_at(v) {
            Some("Settlement must be connected to your road")
        } else if self.is_standard() && pl.settlements.len() >= 5 {
            Some("Maximum number of settlements reached")
        } else if self.is_setup() && self.setup_placement != 0 {
            Some("Must build road after settlement")
        } else if !self.is_setup() && !can_pay(pl.resources, settlement_price()) {
            Some("Not enough resources")
        } else {
            None
        }
    }

    /// The vertex and the player exist wherever the checks look them up.
    pub open spec fn settlement_args_ok(self, p: int, v: usize) -> bool {
        self.occupied(v) || (v < self.vertices.len() && (self.too_close(v) || 0 <= p < self.players.len()))
    }

    /// A new settlement keeps the victory points within a `u8`.
    pub open spec fn settlement_fits(self, p: int, v: usize) -> bool {
        self.settlement_error(p, v) is None ==> self.players[p].victory_points < 255
    }

    /// A settlement on `v`: paid for outside the setup rounds, worth one victory point, and
    /// during setup remembered as the one the next road must touch, with the placement count
    /// set to one (the settlement is placed, the road comes next).
    pub open spec fn build_settlement_outcome(self, p: int, v: usize) -> (GameView, Result<(), &'static str>) {
        match self.settlement_error(p, v) {
            Some(e) => (self, Err(e)),
            None => {
                let pl = self.players[p];
                (GameView {
                    players: self.players.update(p, PlayerView {
                        resources: if self.is_setup() { pl.resources } else { paid(pl.resources, settlement_price()) },
                        settlements: pl.settlements.push(v),
                        victory_points: (pl.victory_points + 1) as u8,
                        last_setup_settlement: if self.is_setup() { Some(v) } else { pl.last_setup_settlement },
                        ..pl
                    }),
                    setup_placement: if self.is_setup() { 1 } else { self.setup_placement },
                    ..self
                }, Ok(()))
            },
        }
    }

    /// A player other than `p` has a building on `v`.
    pub open spec fn occupied_by_other(self, p: int, v: usize) -> bool {
        exists|q: int| 0 <= q < self.players.len() && q != p && (#[trigger] self.players[q]).owns_building_at(v)
    }

    /// Why player `p` may not upgrade `v` to a city, if they may not.
    pub open spec fn city_error(self, p: int, v: usize) -> Option<&'static str> {
        let pl = self.players[p];
        if self.occupied_by_other(p, v) {
            Some("This vertex is already occupied by another player")
        } else if !pl.settlements.contains(v) {
            Some("No settlement to upgrade on this vertex")
        } else if pl.cities.contains(v) {
            Some("City already exists on this vertex")
        } else if self.is_standard() && pl.cities.len() >= 4 {
            Some("Maximum number of cities reached")
        } else if !can_pay(pl.resources, city_price()) {
            Some("Not enough resources")
        } else {
            None
        }
    }

    /// An upgrade keeps the victory points within a `u8`.
    pub open spec fn city_fits(self, p: int, v: usize) -> bool {
        self.city_error(p, v) is None ==> self.players[p].victory_points < 255
    }

    /// The settlement on `v` becomes a city, paid for and worth one more victory point.
    pub open spec fn build_city_outcome(self, p: int, v: usize) -> (GameView, Result<(), &'static str>) {
        match self.city_error(p, v) {
            Some(e) => (self, Err(e)),
            None => {
                let pl = self.players[p];
                (GameView {
                    players: self.players.update(p, PlayerView {
                        resources: paid(pl.resources, city_price()),
                        settlements: pl.settlements.remove_value(v),
                        cities: pl.cities.push(v),
                        victory_points: (pl.victory_points + 1) as u8,
                        ..pl
                    }),
                    ..self
                }, Ok(()))
            },
        }
    }

    /// Some player has a road between `a` and `b`.
    pub open spec fn road_taken(self, a: usize, b: usize) -> bool {
        exists|q: int| 0 <= q < self.players.len() && (#[trigger] self.players[q]).roads.contains(road_between(a, b))
    }

    /// The road touches a building or road of the player at one of its ends.
    pub open spec fn road_connected(pl: PlayerView, a: usize, b: usize) -> bool {
        pl.owns_building_at(a) || pl.has_road_at(a) || pl.owns_building_at(b) || pl.has_road_at(b)
    }

    /// Why player `p` may not build a road from `a` to `b`, if they may not.
    pub open spec fn road_error(self, p: int, a: usize, b: usize) -> Option<&'static str> {
        let pl = self.players[p];
        if !self.vertices[a as int].neighbors.contains(b) {
            Some("Vertices not adjacent")
        } else if !Self::road_connected(pl, a, b) {
            Some("Road must be connected to your existing infrastructure (settlement, city, or road)")
        } else if self.road_taken(a, b) {
            Some("Road already exists")
        } else if self.is_standard() && pl.roads.len() >= 15 {
            Some("Maximum number of roads reached")
        } else if self.is_setup() && pl.last_setup_settlement is None {
            Some("Must place settlement before road")
        } else if self.is_setup() && a != pl.last_setup_settlement->0 && b != pl.last_setup_settlement->0 {
            Some("Road must connect to the placed settlement")
        } else if !self.is_setup() && !can_pay(pl.resources, road_price()) {
            Some("Not enough resources")
        } else {
            None
        }
    }

    /// The road is laid: paid for outside the setup rounds.
    pub open spec fn road_laid(self, p: int, a: usize, b: usize) -> GameView {
        let pl = self.players[p];
        GameView {
            players: self.players.update(p, PlayerView {
                resources: if self.is_setup() { pl.resources } else { paid(pl.resources, road_price()) },
                roads: pl.roads.push(road_between(a, b)),
                ..pl
            }),
            ..self
        }
    }

    /// The longest road award: with a road of at least five, a player takes the award (two
    /// victory points) when nobody holds it, or from its holder with a strictly longer road;
    /// the holder's recorded length follows their road.
    pub open spec fn road_award_outcome(self, p: int) -> GameView {
        let len = longest_road_len(self.players[p].roads);
        if len < 5 {
            self
        } else {
            match self.longest_road_owner {
                None => GameView {
                    longest_road_owner: Some(p as usize),
                    longest_road_length: len as usize,
                    players: self.players.update(p, PlayerView {
                        victory_points: (self.players[p].victory_points + 2) as u8,
                        ..self.players[p]
                    }),
                    ..self
                },
                Some(o) => if o != p && len > self.longest_road_length {
                    let lost = self.players.update(o as int, PlayerView {
                        victory_points: (self.players[o as int].victory_points - 2) as u8,
                        ..self.players[o as int]
                    });
                    GameView {
                        longest_road_owner: Some(p as usize),
                        longest_road_length: len as usize,
                        players: lost.update(p, PlayerView {
                            victory_points: (lost[p].victory_points + 2) as u8,
                            ..lost[p]
                        }),
                        ..self
                    }
                } else if o == p {
                    GameView { longest_road_length: len as usize, ..self }
                } else {
                    self
                },
            }
        }
    }

    /// The award can change hands without a victory point count leaving the `u8` range.
    pub open spec fn road_award_fits(self, p: int) -> bool {
        &&& self.players[p].victory_points + 2 <= 255
        &&& (self.longest_road_owner matches Some(o) ==> o == p || self.players[o as int].victory_points >= 2)
    }

    /// The order of the setup rounds after a road: a road laid while the placement count is
    /// zero only raises it to one; a road after the settlement ends the player's step: the
    /// first round goes on in player order and the second, from the last player, in reverse
    /// order; after the first player's step in the second round normal play begins.
    pub open spec fn setup_advance(self) -> GameView {
        if !self.is_setup() {
            self
        } else if self.setup_placement + 1 == 1 {
            GameView { setup_placement: 1, ..self }
        } else if self.game_phase == GamePhase::SetupRound1 {
            if self.current_player + 1 == self.players.len() {
                GameView { setup_placement: 0, game_phase: GamePhase::SetupRound2, ..self }
            } else {
                GameView { setup_placement: 0, current_player: (self.current_player + 1) as usize, ..self }
            }
        } else if self.current_player == 0 {
            GameView { setup_placement: 0, game_phase: GamePhase::NormalPlay, ..self }
        } else {
            GameView { setup_placement: 0, current_player: (self.current_player - 1) as usize, ..self }
        }
    }

    /// The setup order after `k` players' steps, each a settlement (which sets the placement
    /// count to one) followed by a road.
    pub open spec fn after_setup_steps(self, k: nat) -> GameView
        decreases k,
    {
        if k == 0 {
            self
        } else {
            GameView { setup_placement: 1, ..self.after_setup_steps((k - 1) as nat) }.setup_advance()
        }
    }

    /// A road from `a` to `b` for player `p`, the longest road award, and the setup order.
    pub open spec fn build_road_outcome(self, p: int, a: usize, b: usize) -> (GameView, Result<(), &'static str>) {
        match self.road_error(p, a, b) {
            Some(e) => (self, Err(e)),
            None => (self.road_laid(p, a, b).road_award_outcome(p).setup_advance(), Ok(())),
        }
    }

    /// No victory point count is near the top of its range, every holder of an award has the
    /// two points it brought, and the setup count can still grow.
    pub open spec fn within_build_limits(self) -> bool {
        &&& forall|q: int| 0 <= q < self.players.len() ==> #[trigger] self.players[q].victory_points <= 253
        &&& self.setup_placement != 255
        &&& (self.largest_army_owner matches Some(o) ==> self.players[o as int].victory_points >= 2)
        &&& (self.longest_road_owner matches Some(o) ==> self.players[o as int].victory_points >= 2)
    }

    /// Within the build limits no build, upgrade or award pushes a count out of range.
    pub proof fn lemma_build_limits(self, p: int, a: usize, b: usize)
        requires
            self.wf(),
            self.within_build_limits(),
            0 <= p < self.players.len(),
        ensures
            self.road_fits(p, a, b),
            self.settlement_fits(p, a),
            self.city_fits(p, a),
            self.army_fits(p),
    {
        let laid = self.road_laid(p, a, b);
        assert(laid.players[p].victory_points == self.players[p].victory_points);
        if let Some(o) = self.longest_road_owner {
            assert(laid.players[o as int].victory_points == self.players[o as int].victory_points);
        }
    }

    /// The road keeps every count within range.
    pub open spec fn road_fits(self, p: int, a: usize, b: usize) -> bool {
        self.road_error(p, a, b) is None ==> {
            &&& self.road_laid(p, a, b).road_award_fits(p)
            &&& (self.is_setup() ==> self.setup_placement < 255)
        }
    }
}

/// Whether the roads hold `road`.
pub fn contains_road(roads: &Vec<(usize, usize)>, road: (usize, usize)) -> (b: bool)
    ensures
        b == roads@.contains(road),
{
    let mut i: usize = 0;
    while i < roads.len()
        invariant
            i <= roads@.len(),
            forall|j: int| 0 <= j < i ==> roads@[j] != road,
        decreases roads@.len() - i,
    {
        if roads[i].0 == road.0 && roads[i].1 == road.1 {
            assert(roads@[i as int] == road);
            return true;
        }
        i += 1;
    }
    false
}

/// Whether some road ends at `v`.
pub fn has_road_at(roads: &Vec<(usize, usize)>, v: usize) -> (b: bool)
    ensures
        b == exists|i: int| #![trigger roads@[i]] 0 <= i < roads@.len() && (roads@[i].0 == v || roads@[i].1 == v),
{
    let mut i: usize = 0;
    while i < roads.len()
        invariant
            i <= roads@.len(),
            forall|j: int| 0 <= j < i ==> !(roads@[j].0 == v || roads@[j].1 == v),
        decreases roads@.len() - i,
    {
        if roads[i].0 == v || roads[i].1 == v {
            return true;
        }
        i += 1;
    }
    false
}

/// Removes `x`, which occurs in `v`, at its first occurrence.
pub fn remove_usize(v: &mut Vec<usize>, x: usize)
    requires
        old(v)@.contains(x),
    ensures
        final(v)@ == old(v)@.remove_value(x),
{
    proof {
        old(v)@.index_of_first_ensures(x);
    }
    let ghost f = old(v)@.index_of_first(x)->0;
    let n = v.len();
    let mut i: usize = 0;
    while v[i] != x
        invariant
            i < v@.len(),
            n == v@.len(),
            v@ == old(v)@,
            old(v)@.index_of_first(x) == Some(f),
            i <= f < v@.len(),
            v@[f] == x,
            forall|j: int| 0 <= j < f ==> v@[j] != x,
        decreases v@.len() - i,
    {
        i += 1;
    }
    assert(i == f);
    v.remove(i);
}

} // verus!
