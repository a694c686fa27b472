//! Buying and playing development cards.
use vstd::prelude::*;
use super::{DevCard, DevCardInstance, GamePhase, GameView, PlayerView, Resource};
use super::resources::{can_pay, paid, dev_card_price};

verus! {

impl GameView {
    /// Buying a card: paid for with wool, grain and ore, then the top of the pool goes to the
    /// player (a victory point card ready at once, any other card from the next turn). The
    /// payment is kept even when the pool turns out to be empty.
    pub open spec fn buy_dev_card_outcome(self, p: int) -> (GameView, Result<(), &'static str>) {
        let pl = self.players[p];
        if !can_pay(pl.resources, dev_card_price()) {
            (self, Err("Not enough resources"))
        } else {
            let paid_players = self.players.update(p, PlayerView { resources: paid(pl.resources, dev_card_price()), ..pl });
            if self.dev_card_pool.len() == 0 {
                (GameView { players: paid_players, ..self }, Err("Dev card pool is depleted"))
            } else {
                let card = self.dev_card_pool.last();
                let inst = DevCardInstance { card, age: if card == DevCard::VictoryPoint { 1 } else { 0 } };
                (GameView {
                    players: paid_players.update(p, PlayerView { dev_cards: paid_players[p].dev_cards.push(inst), ..paid_players[p] }),
                    dev_card_pool: self.dev_card_pool.drop_last(),
                    ..self
                }, Ok(()))
            }
        }
    }

    /// Why player `p` may not play their card number `card_id`, if they may not.
    pub open spec fn play_error(self, p: int, card_id: int) -> Option<&'static str> {
        if self.game_phase != GamePhase::NormalPlay {
            Some("Cannot play dev cards during setup")
        } else if card_id >= self.players[p].dev_cards.len() {
            Some("Invalid dev card index")
        } else if self.players[p].dev_cards[card_id].age < 1 {
            Some("Cannot use this card yet")
        } else {
            None
        }
    }

    /// The game with player `p`'s card number `card_id` taken out of their hand.
    pub open spec fn card_removed(self, p: int, card_id: int) -> GameView {
        GameView {
            players: self.players.update(p, PlayerView {
                dev_cards: self.players[p].dev_cards.remove(card_id),
                ..self.players[p]
            }),
            ..self
        }
    }

    /// The game with `n` more cards of `r` in player `p`'s hand.
    pub open spec fn with_more(self, p: int, r: Resource, n: int) -> GameView {
        self.with_count(p, r.slot(), self.count(p, r) + n)
    }

    /// One more knight played by player `p`.
    pub open spec fn with_knight(self, p: int) -> GameView {
        GameView {
            players: self.players.update(p, PlayerView { knights_played: (self.players[p].knights_played + 1) as u8, ..self.players[p] }),
            ..self
        }
    }

    /// One more victory point for player `p`.
    pub open spec fn with_point(self, p: int) -> GameView {
        GameView {
            players: self.players.update(p, PlayerView { victory_points: (self.players[p].victory_points + 1) as u8, ..self.players[p] }),
            ..self
        }
    }

    /// The ore held by the players among the first `n`, other than player `p`.
    pub open spec fn others_ore(self, p: int, n: int) -> int
        decreases n,
    {
        if n <= 0 {
            0
        } else {
            self.others_ore(p, n - 1) + (if n - 1 == p { 0 } else { self.count(n - 1, Resource::Ore) })
        }
    }

    /// The ore count only reads the hands.
    pub proof fn lemma_others_ore_reads_hands(self, other: GameView, p: int, n: int)
        requires
            self.players.len() == other.players.len(),
            n <= self.players.len(),
            forall|i: int| 0 <= i < self.players.len() ==> (#[trigger] self.players[i]).resources == other.players[i].resources,
        ensures
            self.others_ore(p, n) == other.others_ore(p, n),
        decreases n,
    {
        if n > 0 {
            self.lemma_others_ore_reads_hands(other, p, n - 1);
            assert(self.players[n - 1].resources == other.players[n - 1].resources);
        }
    }

    /// Monopoly on ore: every other player hands all their ore to player `p`.
    pub open spec fn monopoly_outcome(self, p: int) -> GameView {
        let total = self.others_ore(p, self.players.len() as int);
        GameView {
            players: Seq::new(self.players.len(), |q: int|
                if q == p {
                    PlayerView {
                        resources: self.players[q].resources.update(Resource::Ore.slot(), (self.count(q, Resource::Ore) + total) as u8),
                        ..self.players[q]
                    }
                } else {
                    PlayerView { resources: self.players[q].resources.update(Resource::Ore.slot(), 0u8), ..self.players[q] }
                }),
            ..self
        }
    }

    /// Road building: two lumber and two brick, then roads from vertex 1 to 2 and from 2 to
    /// 3; the first refusal ends the card.
    pub open spec fn road_building_outcome(self, p: int) -> (GameView, Result<(), &'static str>) {
        let g2 = self.with_more(p, Resource::Lumber, 2).with_more(p, Resource::Brick, 2);
        let (g3, r1) = g2.build_road_outcome(p, 1, 2);
        if r1 is Err {
            (g3, r1)
        } else {
            g3.build_road_outcome(p, 2, 3)
        }
    }

    /// Year of plenty: one ore and one wool.
    pub open spec fn year_of_plenty_outcome(self, p: int) -> GameView {
        self.with_more(p, Resource::Ore, 1).with_more(p, Resource::Wool, 1)
    }

    /// What playing card number `card_id` may lead to: the card leaves the hand, then a
    /// knight moves the robber (see `knight_outcome`) and may win the largest army; a victory
    /// point card scores; a monopoly takes every other player's ore; road building builds
    /// two roads; year of plenty gives an ore and a wool.
    pub open spec fn play_dev_card_result(self, p: int, card_id: int, post: GameView, r: Result<(), &'static str>) -> bool {
        match self.play_error(p, card_id) {
            Some(e) => post == self && r == Err::<(), &'static str>(e),
            None => {
                let g1 = self.card_removed(p, card_id);
                match self.players[p].dev_cards[card_id].card {
                    DevCard::Knight => r is Ok && exists|mid: GameView|
                        #[trigger] g1.with_knight(p).knight_outcome(mid) && post == mid.army_outcome(p),
                    DevCard::VictoryPoint => r is Ok && post == g1.with_point(p),
                    DevCard::Monopoly => r is Ok && post == g1.monopoly_outcome(p),
                    DevCard::RoadBuilding => (post, r) == g1.road_building_outcome(p),
                    DevCard::YearOfPlenty => r is Ok && post == g1.year_of_plenty_outcome(p),
                }
            },
        }
    }

    /// Every outcome of playing the card keeps counts in range and finds what it looks up.
    pub open spec fn play_fits(self, p: int, card_id: int) -> bool {
        self.play_error(p, card_id) is None ==> {
            let g1 = self.card_removed(p, card_id);
            match self.players[p].dev_cards[card_id].card {
                DevCard::Knight => {
                    &&& self.players[p].knights_played < 255
                    &&& g1.with_knight(p).robber_can_move()
                    &&& g1.with_knight(p).knight_steal_fits()
                    &&& g1.with_knight(p).army_fits(p)
                },
                DevCard::VictoryPoint => self.players[p].victory_points < 255,
                DevCard::Monopoly => {
                    &&& forall|n: int| 0 <= n <= self.players.len() ==> #[trigger] self.others_ore(p, n) <= 255
                    &&& self.count(p, Resource::Ore) + self.others_ore(p, self.players.len() as int) <= 255
                },
                DevCard::RoadBuilding => {
                    let g2 = g1.with_more(p, Resource::Lumber, 2).with_more(p, Resource::Brick, 2);
                    let (g3, r1) = g2.build_road_outcome(p, 1, 2);
                    &&& self.count(p, Resource::Lumber) + 2 <= 255
                    &&& self.count(p, Resource::Brick) + 2 <= 255
                    &&& 1 < self.vertices.len()
                    &&& g2.road_fits(p, 1, 2)
                    &&& (r1 is Ok ==> 2 < self.vertices.len() && g3.road_fits(p, 2, 3))
                },
                DevCard::YearOfPlenty => {
                    &&& self.count(p, Resource::Ore) < 255
                    &&& self.count(p, Resource::Wool) < 255
                },
            }
        }
    }
}

} // verus!
