//! Turns and their phases.
use vstd::prelude::*;
use super::{DevCardInstance, GameView, PlayerView, TurnPhase};

verus! {

/// A card one turn older.
pub open spec fn aged(c: DevCardInstance) -> DevCardInstance {
    DevCardInstance { card: c.card, age: (c.age + 1) as usize }
}

impl PlayerView {
    /// The player with every development card one turn older.
    pub open spec fn with_cards_aged(self) -> PlayerView {
        PlayerView { dev_cards: self.dev_cards.map_values(|c: DevCardInstance| aged(c)), ..self }
    }

    /// Every card can still age by one without overflow.
    pub open spec fn cards_can_age(self) -> bool {
        forall|j: int| 0 <= j < self.dev_cards.len() ==> (#[trigger] self.dev_cards[j]).age < usize::MAX
    }
}

/// The phase that follows `t` within a turn.
pub open spec fn following_phase(t: TurnPhase) -> TurnPhase {
    match t {
        TurnPhase::RollResources => TurnPhase::Trade,
        TurnPhase::Trade => TurnPhase::Build,
        TurnPhase::Build => TurnPhase::EndTurn,
        TurnPhase::EndTurn => TurnPhase::RollResources,
    }
}

impl GameView {
    pub open spec fn cards_can_age(self) -> bool {
        forall|i: int| 0 <= i < self.players.len() ==> (#[trigger] self.players[i]).cards_can_age()
    }

    /// The turn passes to the next player (after the last comes the first), who starts by
    /// rolling; every development card of every player gets one turn older.
    pub open spec fn after_next_turn(self) -> GameView {
        GameView {
            current_player: ((self.current_player + 1) % (self.players.len() as int)) as usize,
            turn_phase: TurnPhase::RollResources,
            players: self.players.map_values(|p: PlayerView| p.with_cards_aged()),
            ..self
        }
    }

    /// Roll, trade, build, end; after the end of a turn comes the next player's turn.
    pub open spec fn after_next_phase(self) -> GameView {
        if self.turn_phase == TurnPhase::EndTurn {
            self.after_next_turn()
        } else {
            GameView { turn_phase: following_phase(self.turn_phase), ..self }
        }
    }

    /// The game after `k` turns have passed.
    pub open spec fn after_turns(self, k: nat) -> GameView
        decreases k,
    {
        if k == 0 {
            self
        } else {
            self.after_next_turn().after_turns((k - 1) as nat)
        }
    }

    /// The winner: the current player, once they hold 10 victory points.
    pub open spec fn winner(self) -> Option<usize> {
        if self.players[self.current_player as int].victory_points >= 10 {
            Some(self.players[self.current_player as int].id)
        } else {
            None
        }
    }
}

} // verus!
