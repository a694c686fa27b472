//! Trading with the bank (through harbors) and between players.
use vstd::prelude::*;
use super::{GameView, Harbor, HarborType, PlayerView, Resource};

verus! {

/// The player has a settlement or city at one of the harbor's two vertices.
pub open spec fn has_harbor_access(p: PlayerView, h: Harbor) -> bool {
    p.owns_building_at(h.loc0) || p.owns_building_at(h.loc1)
}

impl GameView {
    /// The player's hand with slot `k` set to `n`.
    pub open spec fn with_count(self, p: int, k: int, n: int) -> GameView {
        GameView {
            players: self.players.update(p, PlayerView {
                resources: self.players[p].resources.update(k, n as u8),
                ..self.players[p]
            }),
            ..self
        }
    }

    /// Cards of `offer` the player gives the bank for one card: 2 with access to a harbor for
    /// that resource, else 3 with access to a generic harbor, else 4.
    pub open spec fn trade_ratio(self, p: int, offer: Resource) -> u8 {
        if exists|i: int| 0 <= i < self.harbors.len() && has_harbor_access(self.players[p], #[trigger] self.harbors[i])
            && self.harbors[i].htype == HarborType::Resource(offer) {
            2
        } else if exists|i: int| 0 <= i < self.harbors.len() && has_harbor_access(self.players[p], #[trigger] self.harbors[i])
            && self.harbors[i].htype == HarborType::Generic {
            3
        } else {
            4
        }
    }

    /// A trade with the bank: `ratio` cards of `offer` for one of `request`, refused when the
    /// player holds fewer than `ratio` cards of `offer`.
    pub open spec fn maritime_trade_outcome(self, p: int, offer: Resource, request: Resource) -> (GameView, Result<(), &'static str>) {
        let ratio = self.trade_ratio(p, offer);
        if self.count(p, offer) < ratio {
            (self, Err("Not enough resources"))
        } else {
            let paid = self.with_count(p, offer.slot(), self.count(p, offer) - ratio);
            (paid.with_count(p, request.slot(), paid.count(p, request) + 1), Ok(()))
        }
    }

    /// The bank trade keeps every count within a `u8`.
    pub open spec fn maritime_trade_fits(self, p: int, offer: Resource, request: Resource) -> bool {
        self.count(p, offer) >= self.trade_ratio(p, offer) ==> offer == request || self.count(p, request) < 255
    }

    /// A trade between two players who agreed on it: the vendor gives `amount_offer` of
    /// `offer` and receives `amount_request` of `request` from the customer. Refused for a
    /// player trading with themself, or when either side lacks the cards.
    pub open spec fn player_trade_outcome(
        self,
        vendor: int,
        customer: int,
        offer: Resource,
        amount_offer: u8,
        request: Resource,
        amount_request: u8,
    ) -> (GameView, Result<(), &'static str>) {
        if vendor == customer {
            (self, Err("vendor and customer cannot be the same"))
        } else if self.count(vendor, offer) < amount_offer || self.count(customer, request) < amount_request {
            (self, Err("Not enough resources"))
        } else {
            let g1 = self.with_count(vendor, offer.slot(), self.count(vendor, offer) - amount_offer);
            let g2 = g1.with_count(vendor, request.slot(), g1.count(vendor, request) + amount_request);
            let g3 = g2.with_count(customer, request.slot(), g2.count(customer, request) - amount_request);
            (g3.with_count(customer, offer.slot(), g3.count(customer, offer) + amount_offer), Ok(()))
        }
    }

    /// The player trade keeps every count within a `u8`.
    pub open spec fn player_trade_fits(
        self,
        vendor: int,
        customer: int,
        offer: Resource,
        amount_offer: u8,
        request: Resource,
        amount_request: u8,
    ) -> bool {
        vendor != customer && self.count(vendor, offer) >= amount_offer && self.count(customer, request) >= amount_request ==> {
            &&& (if offer == request { self.count(vendor, offer) - amount_offer } else { self.count(vendor, request) }) + amount_request <= 255
            &&& (if offer == request { self.count(customer, request) - amount_request } else { self.count(customer, offer) }) + amount_offer <= 255
        }
    }
}

} // verus!
