//! The robber, the knight, and the largest army.
use vstd::prelude::*;
use super::{GameView, PlayerView, RESOURCE_KINDS};

verus! {

/// The first player, from number `q` on, other than player `current`, with a building on `v`.
pub open spec fn first_other_from(players: Seq<PlayerView>, current: usize, v: usize, q: int) -> Option<usize>
    decreases players.len() - q,
{
    if q < 0 || q >= players.len() {
        None
    } else if q != current && players[q].owns_building_at(v) {
        Some(q as usize)
    } else {
        first_other_from(players, current, v, q + 1)
    }
}

/// What the search for a robbable player finds is a building owner other than the current
/// player.
pub proof fn lemma_first_other_facts(players: Seq<PlayerView>, current: usize, v: usize, q: int)
    requires
        0 <= q,
        players.len() <= usize::MAX,
    ensures
        first_other_from(players, current, v, q) matches Some(x) ==> q <= x < players.len() && x != current
            && players[x as int].owns_building_at(v),
    decreases players.len() - q,
{
    if q < players.len() {
        lemma_first_other_facts(players, current, v, q + 1);
        if q != current && players[q].owns_building_at(v) {
            assert(first_other_from(players, current, v, q) == Some(q as usize));
        } else {
            assert(first_other_from(players, current, v, q) == first_other_from(players, current, v, q + 1));
        }
    }
}

impl GameView {
    /// There is a tile other than the robber's for it to move to.
    pub open spec fn robber_can_move(self) -> bool {
        self.tiles.len() >= 2 || (self.tiles.len() == 1 && self.robber_tile != 0)
    }

    /// The tile the robber moves to: the first tile that is not its own.
    pub open spec fn knight_tile(self) -> usize {
        if self.robber_tile == 0 {
            1
        } else {
            0
        }
    }

    /// Player `x` can be robbed on tile `t`: for some corner of the tile, `x` is the first
    /// player other than the current one with a building there.
    pub open spec fn is_robbable(self, t: int, x: usize) -> bool {
        exists|c: int| 0 <= c < 6 && #[trigger] first_other_from(self.players, self.current_player, self.tiles[t].vertices@[c], 0) == Some(x)
    }

    /// Stealing any card a robbable player holds on the knight's tile fits the thief's hand.
    pub open spec fn knight_steal_fits(self) -> bool {
        forall|x: usize, k: int|
            self.is_robbable(self.knight_tile() as int, x) && 0 <= k < RESOURCE_KINDS && #[trigger] self.players[x as int].resources[k] > 0
                ==> self.players[self.current_player as int].resources[k] < 255
    }

    /// Player `x` hands one card of slot `k` to the current player.
    pub open spec fn steal(self, x: usize, k: int) -> GameView {
        let cur = self.current_player as int;
        let after_loss = self.players.update(x as int, PlayerView {
            resources: self.players[x as int].resources.update(k, (self.players[x as int].resources[k] - 1) as u8),
            ..self.players[x as int]
        });
        GameView {
            players: after_loss.update(cur, PlayerView {
                resources: after_loss[cur].resources.update(k, (after_loss[cur].resources[k] + 1) as u8),
                ..after_loss[cur]
            }),
            ..self
        }
    }

    /// What a knight (or a roll of seven) may lead to: the robber moves to the first other
    /// tile; if a player can be robbed there, one such player who holds cards gives one
    /// card, chosen at random, to the current player.
    pub open spec fn knight_outcome(self, post: GameView) -> bool {
        let moved = GameView { robber_tile: self.knight_tile(), ..self };
        let t = self.knight_tile() as int;
        if !(exists|x: usize| moved.is_robbable(t, x)) {
            post == moved
        } else {
            exists|x: usize| #[trigger] moved.is_robbable(t, x) && {
                ||| (forall|k: int| 0 <= k < RESOURCE_KINDS ==> moved.players[x as int].resources[k] == 0) && post == moved
                ||| exists|k: int| 0 <= k < RESOURCE_KINDS && moved.players[x as int].resources[k] > 0
                    && post == #[trigger] moved.steal(x, k)
            }
        }
    }

    /// A knight moves the robber and at most one card between two hands; everything else
    /// stays as it was.
    pub proof fn lemma_knight_moves_cards_only(self, post: GameView)
        requires
            self.wf(),
            self.players.len() <= usize::MAX,
            self.knight_outcome(post),
        ensures
            post.wf(),
            post == (GameView { players: post.players, robber_tile: self.knight_tile(), ..self }),
            post.players.len() == self.players.len(),
            forall|i: int| 0 <= i < self.players.len() ==> (#[trigger] post.players[i]) == (PlayerView {
                resources: post.players[i].resources,
                ..self.players[i]
            }),
    {
        let moved = GameView { robber_tile: self.knight_tile(), ..self };
        let t = self.knight_tile() as int;
        if exists|x: usize| moved.is_robbable(t, x) {
            let x = choose|x: usize| #[trigger] moved.is_robbable(t, x) && {
                ||| (forall|k: int| 0 <= k < RESOURCE_KINDS ==> moved.players[x as int].resources[k] == 0) && post == moved
                ||| exists|k: int| 0 <= k < RESOURCE_KINDS && moved.players[x as int].resources[k] > 0
                    && post == #[trigger] moved.steal(x, k)
            };
            let c = choose|c: int| 0 <= c < 6 && #[trigger] first_other_from(moved.players, moved.current_player, moved.tiles[t].vertices@[c], 0) == Some(x);
            lemma_first_other_facts(moved.players, moved.current_player, moved.tiles[t].vertices@[c], 0);
            if exists|k: int| 0 <= k < RESOURCE_KINDS && moved.players[x as int].resources[k] > 0 && post == #[trigger] moved.steal(x, k) {
                let k = choose|k: int| 0 <= k < RESOURCE_KINDS && moved.players[x as int].resources[k] > 0 && post == #[trigger] moved.steal(x, k);
                assert forall|i: int| 0 <= i < self.players.len() implies (#[trigger] post.players[i]) == (PlayerView {
                    resources: post.players[i].resources,
                    ..self.players[i]
                }) && post.players[i].wf() && post.players[i].seated(i) by {
                    assert(self.players[i].wf());
                    assert(self.players[i].seated(i));
                }
            }
        }
    }

    /// Every outcome of a roll keeps counts in range and lets the robber move.
    pub open spec fn roll_fits(self) -> bool {
        &&& forall|roll: u8| 2 <= roll <= 12 && roll != 7 ==> #[trigger] self.harvest_fits(roll)
        &&& self.hands_fit()
        &&& self.robber_can_move()
        &&& self.robbery_steal_fits()
    }

    /// Whatever a seven's discarding leaves, the robber's theft keeps counts in range.
    pub open spec fn robbery_steal_fits(self) -> bool {
        forall|mid: GameView| #[trigger] self.robbery_result(mid) ==> mid.knight_steal_fits()
    }

    /// Every harvest fits, no hand holds more than 255 cards, there is a tile for the robber
    /// to move to, and the current player holds fewer than 255 cards of every kind.
    pub open spec fn within_roll_limits(self) -> bool {
        &&& forall|roll: u8| 2 <= roll <= 12 && roll != 7 ==> #[trigger] self.harvest_fits(roll)
        &&& self.hands_fit()
        &&& self.robber_can_move()
        &&& forall|k: int| 0 <= k < RESOURCE_KINDS ==> #[trigger] self.players[self.current_player as int].resources[k] < 255
    }

    /// Within the roll limits a roll keeps every count in range.
    pub proof fn lemma_roll_limits(self)
        requires
            self.wf(),
            self.within_roll_limits(),
        ensures
            self.roll_fits(),
    {
        let cur = self.current_player as int;
        assert(self.players[cur].wf());
        assert forall|r: GameView| #[trigger] self.robbery_result(r) implies r.knight_steal_fits() by {
            super::laws::law_robbery_halves_large_hands(self, r, cur);
            assert forall|x: usize, j: int|
                r.is_robbable(r.knight_tile() as int, x) && 0 <= j < RESOURCE_KINDS && #[trigger] r.players[x as int].resources[j] > 0
                    implies r.players[r.current_player as int].resources[j] < 255 by {
                assert(r.players[cur].resources[j] <= self.players[cur].resources[j]);
            }
        }
    }

    /// Whether the award for the largest army can change hands without a victory point count
    /// leaving the `u8` range.
    pub open spec fn army_fits(self, p: int) -> bool {
        &&& self.players[p].victory_points + 2 <= 255
        &&& (self.largest_army_owner matches Some(o) ==> o == p || self.players[o as int].victory_points >= 2)
    }

    /// The largest army: a player with at least three knights played takes the award (two
    /// victory points) when nobody holds it, or from its holder when they have played more
    /// knights than the holder.
    pub open spec fn army_outcome(self, p: int) -> GameView {
        let knights = self.players[p].knights_played;
        if knights < 3 {
            self
        } else {
            match self.largest_army_owner {
                None => GameView {
                    largest_army_owner: Some(p as usize),
                    players: self.players.update(p, PlayerView {
                        victory_points: (self.players[p].victory_points + 2) as u8,
                        ..self.players[p]
                    }),
                    ..self
                },
                Some(o) => if o == p || knights <= self.players[o as int].knights_played {
                    self
                } else {
                    let lost = self.players.update(o as int, PlayerView {
                        victory_points: (self.players[o as int].victory_points - 2) as u8,
                        ..self.players[o as int]
                    });
                    GameView {
                        largest_army_owner: Some(p as usize),
                        players: lost.update(p, PlayerView {
                            victory_points: (lost[p].victory_points + 2) as u8,
                            ..lost[p]
                        }),
                        ..self
                    }
                },
            }
        }
    }
}

} // verus!
