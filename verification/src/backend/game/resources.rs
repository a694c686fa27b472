//! Hands of resource cards: totals, costs, and discarding half of a large hand.
use vstd::prelude::*;
use rand::rngs::ThreadRng;
use super::{GameView, PlayerView, Resource, Tile, resource_of_slot, RESOURCE_KINDS};
use super::rng::shuffle_vec;

verus! {

/// Number of cards in a hand.
pub open spec fn hand_total(h: Seq<u8>) -> int
    decreases h.len(),
{
    if h.len() == 0 {
        0
    } else {
        hand_total(h.drop_last()) + h.last()
    }
}

pub proof fn lemma_hand_total_nonneg(h: Seq<u8>)
    ensures
        hand_total(h) >= 0,
    decreases h.len(),
{
    if h.len() > 0 {
        lemma_hand_total_nonneg(h.drop_last());
    }
}

/// Changing one count changes the total by the difference.
pub proof fn lemma_hand_total_update(h: Seq<u8>, i: int, v: u8)
    requires
        0 <= i < h.len(),
    ensures
        hand_total(h.update(i, v)) == hand_total(h) - h[i] + v,
    decreases h.len(),
{
    if i == h.len() - 1 {
        assert(h.update(i, v).drop_last() =~= h.drop_last());
    } else {
        assert(h.update(i, v).drop_last() =~= h.drop_last().update(i, v));
        lemma_hand_total_update(h.drop_last(), i, v);
    }
}

/// One count is at most the total.
pub proof fn lemma_hand_total_ge_entry(h: Seq<u8>, i: int)
    requires
        0 <= i < h.len(),
    ensures
        hand_total(h) >= h[i],
{
    lemma_hand_total_update(h, i, 0);
    lemma_hand_total_nonneg(h.update(i, 0));
}

/// A hand that holds no more of any kind has no more cards, and fewer if it holds fewer of
/// some kind.
pub proof fn lemma_hand_total_le(a: Seq<u8>, b: Seq<u8>)
    requires
        a.len() == b.len(),
        forall|i: int| 0 <= i < a.len() ==> a[i] <= b[i],
    ensures
        hand_total(a) <= hand_total(b),
        (exists|i: int| 0 <= i < a.len() && a[i] < b[i]) ==> hand_total(a) < hand_total(b),
    decreases a.len(),
{
    if a.len() > 0 {
        lemma_hand_total_le(a.drop_last(), b.drop_last());
        if exists|i: int| 0 <= i < a.len() && a[i] < b[i] {
            let i = choose|i: int| 0 <= i < a.len() && a[i] < b[i];
            if i < a.len() - 1 {
                assert(a.drop_last()[i] < b.drop_last()[i]);
            }
        }
    }
}

/// The hand after `k` rounds in each of which one card of every kind still held is given up.
pub open spec fn discard_rounds(h: Seq<u8>, k: nat) -> Seq<u8> {
    h.map_values(|c: u8| if c as int > k { (c - k) as u8 } else { 0u8 })
}

/// `f` lies between `k` and `k + 1` whole rounds of discarding from `h`: every kind has given
/// up its cards of the first `k` rounds, and at most one more.
pub open spec fn within_round(h: Seq<u8>, k: nat, f: Seq<u8>) -> bool {
    &&& f.len() == h.len()
    &&& forall|r: int| 0 <= r < h.len() ==> discard_rounds(h, k + 1)[r] <= #[trigger] f[r] <= discard_rounds(h, k)[r]
}

/// `f` is what a seven leaves of hand `h`: a hand of at most seven cards is kept; from a
/// larger one exactly half of the cards (rounded down) are discarded, spread over the kinds
/// one card of every kind still held per round, the last round possibly cut short.
pub open spec fn is_robbed_hand(h: Seq<u8>, f: Seq<u8>) -> bool {
    if hand_total(h) > 7 {
        &&& hand_total(f) == hand_total(h) - hand_total(h) / 2
        &&& exists|k: nat| #[trigger] within_round(h, k, f)
    } else {
        f == h
    }
}

/// What a seven leaves of a hand holds no more of any kind than the hand did.
pub proof fn lemma_robbed_hand_le(h: Seq<u8>, f: Seq<u8>)
    requires
        is_robbed_hand(h, f),
    ensures
        f.len() == h.len(),
        forall|j: int| 0 <= j < h.len() ==> #[trigger] f[j] <= h[j],
{
    if hand_total(h) > 7 {
        let k = choose|k: nat| #[trigger] within_round(h, k, f);
        assert forall|j: int| 0 <= j < h.len() implies #[trigger] f[j] <= h[j] by {
            assert(f[j] <= discard_rounds(h, k)[j]);
        }
    }
}

/// The six resources, in slot order.
pub open spec fn all_resources() -> Seq<Resource> {
    seq![Resource::Brick, Resource::Lumber, Resource::Wool, Resource::Grain, Resource::Ore, Resource::Desert]
}

/// Number of cards in a hand; the hand must not hold more than 255 cards.
pub fn hand_sum(hand: &Vec<u8>) -> (n: u8)
    requires
        hand_total(hand@) <= 255,
    ensures
        n == hand_total(hand@),
{
    let mut n: u8 = 0;
    let mut i: usize = 0;
    while i < hand.len()
        invariant
            i <= hand@.len(),
            hand_total(hand@) <= 255,
            n == hand_total(hand@.subrange(0, i as int)),
        decreases hand@.len() - i,
    {
        proof {
            assert(hand@.subrange(0, i + 1).drop_last() =~= hand@.subrange(0, i as int));
            lemma_prefix_total_le(hand@, i + 1);
        }
        n = n + hand[i];
        i += 1;
    }
    assert(hand@.subrange(0, hand@.len() as int) =~= hand@);
    n
}

proof fn lemma_prefix_total_le(h: Seq<u8>, i: int)
    requires
        0 <= i <= h.len(),
    ensures
        hand_total(h.subrange(0, i)) <= hand_total(h),
    decreases h.len(),
{
    if i < h.len() {
        assert(h.drop_last().subrange(0, i) =~= h.subrange(0, i));
        lemma_prefix_total_le(h.drop_last(), i);
        lemma_hand_total_nonneg(h);
    } else {
        assert(h.subrange(0, i) =~= h);
    }
}

/// One round: after handling the kinds in `done`, those kinds have gone through round `k + 1`.
spec fn round_progress(h0: Seq<u8>, k: nat, keys: Seq<Resource>, j: int, hand: Seq<u8>) -> bool {
    forall|r: int| 0 <= r < RESOURCE_KINDS ==>
        #[trigger] hand[r] == if keys.subrange(0, j).contains(resource_of_slot(r)) {
            discard_rounds(h0, k + 1)[r]
        } else {
            discard_rounds(h0, k)[r]
        }
}

/// A hand of more than seven cards loses half of them, rounded down: in rounds, in a
/// randomly shuffled order of the kinds, one card of every kind still held, stopping as soon
/// as half are gone. Smaller hands are kept. The hand must hold at most 255 cards.
pub fn discard_half(rng: &mut ThreadRng, hand: &mut Vec<u8>)
    requires
        old(hand)@.len() == RESOURCE_KINDS,
        hand_total(old(hand)@) <= 255,
    ensures
        is_robbed_hand(old(hand)@, final(hand)@),
{
    let ghost h0 = hand@;
    let total = hand_sum(hand);
    if total <= 7 {
        return;
    }
    let target: u8 = total / 2;
    let mut keys: Vec<Resource> = vec![
        Resource::Brick,
        Resource::Lumber,
        Resource::Wool,
        Resource::Grain,
        Resource::Ore,
        Resource::Desert,
    ];
    let ghost ordered = keys@;
    assert(ordered =~= all_resources());
    shuffle_vec(rng, &mut keys);
    proof {
        assert(ordered.no_duplicates());
        ordered.lemma_multiset_has_no_duplicates();
        keys@.lemma_multiset_has_no_duplicates_conv();
        broadcast use vstd::seq_lib::group_to_multiset_ensures;
        assert forall|r: int| 0 <= r < RESOURCE_KINDS implies keys@.contains(resource_of_slot(r)) by {
            assert(ordered[r] == resource_of_slot(r));
            assert(ordered.to_multiset().count(resource_of_slot(r)) > 0);
        }
        assert forall|m: int| 0 <= m < keys@.len() implies ordered.contains(#[trigger] keys@[m]) by {
            assert(keys@.to_multiset().count(keys@[m]) > 0);
        }
        assert(discard_rounds(h0, 0) =~= h0);
    }
    let mut discarded: u8 = 0;
    let ghost mut k: nat = 0;
    while discarded < target
        invariant
            hand@.len() == RESOURCE_KINDS,
            keys@.len() == RESOURCE_KINDS,
            keys@.no_duplicates(),
            forall|r: int| 0 <= r < RESOURCE_KINDS ==> keys@.contains(resource_of_slot(r)),
            total == hand_total(h0),
            total <= 255,
            h0.len() == RESOURCE_KINDS,
            target == total / 2,
            discarded <= target,
            discarded + hand_total(hand@) == total,
            discarded < target ==> hand@ == discard_rounds(h0, k),
            within_round(h0, k, hand@),
        decreases hand_total(hand@),
    {
        let ghost prev = hand@;
        let ghost d0 = discarded;
        let mut j: usize = 0;
        proof {
            assert(keys@.subrange(0, 0) =~= Seq::<Resource>::empty());
        }
        while j < keys.len()
            invariant
                hand@.len() == RESOURCE_KINDS,
                keys@.len() == RESOURCE_KINDS,
                keys@.no_duplicates(),
                j <= keys@.len(),
                h0.len() == RESOURCE_KINDS,
                prev == discard_rounds(h0, k),
                d0 < target,
                d0 <= discarded <= target,
                discarded + hand_total(hand@) == total,
                total <= 255,
                within_round(h0, k, hand@),
                discarded < target ==> round_progress(h0, k, keys@, j as int, hand@),
            decreases keys@.len() - j,
        {
            let key = keys[j];
            let idx = key.index();
            let ghost before = hand@;
            let ghost dis0 = discarded;
            if hand[idx] > 0 && discarded < target {
                proof {
                    lemma_hand_total_ge_entry(hand@, idx as int);
                    lemma_hand_total_update(hand@, idx as int, (hand@[idx as int] - 1) as u8);
                }
                hand[idx] = hand[idx] - 1;
                discarded = discarded + 1;
            }
            proof {
                assert(resource_of_slot(idx as int) == key);
                if dis0 < target {
                    assert(before[idx as int] == if keys@.subrange(0, j as int).contains(resource_of_slot(idx as int)) {
                        discard_rounds(h0, k + 1)[idx as int]
                    } else {
                        discard_rounds(h0, k)[idx as int]
                    });
                    if keys@.subrange(0, j as int).contains(key) {
                        let m = choose|m: int| 0 <= m < j && keys@.subrange(0, j as int)[m] == key;
                        assert(keys@[m] == keys@[j as int]);
                    }
                    assert(before[idx as int] == discard_rounds(h0, k)[idx as int]);
                    assert(discard_rounds(h0, k)[idx as int] == if h0[idx as int] as int > k { (h0[idx as int] - k) as u8 } else { 0u8 });
                    assert(discard_rounds(h0, k + 1)[idx as int] == if h0[idx as int] as int > k + 1 { (h0[idx as int] - (k + 1)) as u8 } else { 0u8 });
                    assert(hand@[idx as int] == discard_rounds(h0, k + 1)[idx as int]);
                }
                assert forall|r: int| 0 <= r < h0.len() implies discard_rounds(h0, k + 1)[r] <= #[trigger] hand@[r] <= discard_rounds(h0, k)[r] by {
                    if r != idx {
                        assert(hand@[r] == before[r]);
                    }
                }
                if discarded < target {
                    assert forall|r: int| 0 <= r < RESOURCE_KINDS implies #[trigger] hand@[r] == if keys@.subrange(0, j + 1).contains(resource_of_slot(r)) {
                        discard_rounds(h0, k + 1)[r]
                    } else {
                        discard_rounds(h0, k)[r]
                    } by {
                        assert(keys@.subrange(0, j + 1) =~= keys@.subrange(0, j as int).push(key));
                        assert(before[r] == if keys@.subrange(0, j as int).contains(resource_of_slot(r)) {
                            discard_rounds(h0, k + 1)[r]
                        } else {
                            discard_rounds(h0, k)[r]
                        });
                        if r == idx {
                            assert(keys@.subrange(0, j + 1)[j as int] == key);
                            assert(keys@.subrange(0, j + 1).contains(key));
                        } else {
                            assert(resource_of_slot(r) != key);
                            assert(hand@[r] == before[r]);
                        }
                    }
                }
            }
            j += 1;
        }
        proof {
            lemma_hand_total_nonneg(hand@);
            if discarded < target {
                assert forall|r: int| 0 <= r < RESOURCE_KINDS implies keys@.subrange(0, keys@.len() as int).contains(resource_of_slot(r)) by {
                    assert(keys@.subrange(0, keys@.len() as int) =~= keys@);
                }
                assert(hand@ =~= discard_rounds(h0, k + 1));
                assert(hand_total(prev) > 0);
                if forall|r: int| 0 <= r < RESOURCE_KINDS ==> prev[r] == 0 {
                    assert(prev =~= Seq::new(RESOURCE_KINDS as nat, |i: int| 0u8));
                    lemma_zero_hand(prev);
                }
                let r = choose|r: int| 0 <= r < RESOURCE_KINDS && prev[r] != 0;
                assert(prev[r] == if h0[r] as int > k { (h0[r] - k) as u8 } else { 0u8 });
                assert(hand@[r] == if h0[r] as int > k + 1 { (h0[r] - (k + 1)) as u8 } else { 0u8 });
                assert(hand@[r] < prev[r]);
                assert forall|i: int| 0 <= i < hand@.len() implies hand@[i] <= prev[i] by {
                    assert(prev[i] == if h0[i] as int > k { (h0[i] - k) as u8 } else { 0u8 });
                    assert(hand@[i] == if h0[i] as int > k + 1 { (h0[i] - (k + 1)) as u8 } else { 0u8 });
                }
                assert(exists|i: int| 0 <= i < hand@.len() && hand@[i] < prev[i]);
                lemma_hand_total_le(hand@, prev);
                assert forall|r: int| 0 <= r < h0.len() implies discard_rounds(h0, k + 2)[r] <= #[trigger] hand@[r] <= discard_rounds(h0, k + 1)[r] by {
                    assert(hand@[r] == if h0[r] as int > k + 1 { (h0[r] - (k + 1)) as u8 } else { 0u8 });
                    assert(discard_rounds(h0, k + 2)[r] == if h0[r] as int > k + 2 { (h0[r] - (k + 2)) as u8 } else { 0u8 });
                }
                k = k + 1;
            }
        }
    }
    proof {
        assert(within_round(h0, k, hand@));
    }
}


proof fn lemma_zero_hand(h: Seq<u8>)
    requires
        forall|i: int| 0 <= i < h.len() ==> h[i] == 0,
    ensures
        hand_total(h) == 0,
    decreases h.len(),
{
    if h.len() > 0 {
        lemma_zero_hand(h.drop_last());
    }
}

/// Cards a player collects from one corner of a producing tile: one for a settlement, two
/// for a city.
pub open spec fn corner_yield(p: PlayerView, v: usize) -> int {
    (if p.settlements.contains(v) { 1int } else { 0int }) + (if p.cities.contains(v) { 2int } else { 0int })
}

/// Cards a player collects from the first `c` corners of a producing tile.
pub open spec fn yield_upto(p: PlayerView, t: Tile, c: int) -> int
    decreases c,
{
    if c <= 0 {
        0
    } else {
        yield_upto(p, t, c - 1) + corner_yield(p, t.vertices@[c - 1])
    }
}

impl GameView {
    /// Tile `i` produces on a roll of `roll`: it carries that number and not the robber.
    pub open spec fn produces(self, i: int, roll: u8) -> bool {
        self.tiles[i].number_token == Some(roll) && i != self.robber_tile
    }

    /// Cards of the resource in slot `k` player `p` collects from the first `i` tiles on a
    /// roll of `roll`.
    pub open spec fn gain(self, p: int, k: int, roll: u8, i: int) -> int
        decreases i,
    {
        if i <= 0 {
            0
        } else {
            self.gain(p, k, roll, i - 1) + (if self.produces(i - 1, roll) && self.tiles[i - 1].resource.slot() == k {
                yield_upto(self.players[p], self.tiles[i - 1], 6)
            } else {
                0
            })
        }
    }

    /// Every player collects from every producing tile, for each corner of it, one card of
    /// the tile's resource per settlement and two per city there.
    pub open spec fn harvest(self, roll: u8) -> GameView {
        GameView {
            players: Seq::new(self.players.len(), |p: int|
                PlayerView {
                    resources: Seq::new(RESOURCE_KINDS as nat, |k: int|
                        (self.players[p].resources[k] + self.gain(p, k, roll, self.tiles.len() as int)) as u8),
                    ..self.players[p]
                }),
            ..self
        }
    }

    /// The harvest of `roll` fits every count in a `u8`.
    pub open spec fn harvest_fits(self, roll: u8) -> bool {
        forall|p: int, k: int| 0 <= p < self.players.len() && 0 <= k < RESOURCE_KINDS ==>
            self.players[p].resources[k] + #[trigger] self.gain(p, k, roll, self.tiles.len() as int) <= 255
    }

    /// `post` is this game after a seven's discarding: every player's hand is what a seven
    /// leaves of it (see `is_robbed_hand`); nothing else changes.
    pub open spec fn robbery_result(self, post: GameView) -> bool {
        &&& post == (GameView { players: post.players, ..self })
        &&& post.players.len() == self.players.len()
        &&& forall|p: int| 0 <= p < self.players.len() ==> {
            &&& #[trigger] post.players[p] == (PlayerView { resources: post.players[p].resources, ..self.players[p] })
            &&& is_robbed_hand(self.players[p].resources, post.players[p].resources)
        }
    }

    /// What a seven may lead to: every large hand is halved (see `robbery_result`), then the
    /// robber moves as for a knight.
    pub open spec fn seven_outcome(self, post: GameView) -> bool {
        exists|mid: GameView| #[trigger] self.robbery_result(mid) && mid.knight_outcome(post)
    }

    /// No hand holds more than 255 cards.
    pub open spec fn hands_fit(self) -> bool {
        forall|p: int| 0 <= p < self.players.len() ==> hand_total(#[trigger] self.players[p].resources) <= 255
    }
}

pub proof fn lemma_yield_upto_monotone(p: PlayerView, t: Tile, c1: int, c2: int)
    requires
        c1 <= c2,
    ensures
        0 <= yield_upto(p, t, c1) <= yield_upto(p, t, c2),
    decreases c2,
{
    if c2 > 0 && c1 < c2 {
        lemma_yield_upto_monotone(p, t, c1, c2 - 1);
    } else if c1 > 0 {
        lemma_yield_upto_monotone(p, t, c1 - 1, c1 - 1);
    }
}

pub proof fn lemma_gain_monotone(g: GameView, p: int, k: int, roll: u8, i1: int, i2: int)
    requires
        i1 <= i2,
    ensures
        0 <= g.gain(p, k, roll, i1) <= g.gain(p, k, roll, i2),
    decreases i2,
{
    if i2 > 0 && i1 < i2 {
        lemma_gain_monotone(g, p, k, roll, i1, i2 - 1);
        lemma_yield_upto_monotone(g.players[p], g.tiles[i2 - 1], 0, 6);
    } else if i1 > 0 {
        lemma_gain_monotone(g, p, k, roll, i1 - 1, i1 - 1);
        lemma_yield_upto_monotone(g.players[p], g.tiles[i1 - 1], 0, 6);
    }
}

/// A hand holds at least `cost` of every kind.
pub open spec fn can_pay(h: Seq<u8>, cost: Seq<u8>) -> bool {
    forall|k: int| 0 <= k < RESOURCE_KINDS ==> h[k] >= cost[k]
}

/// The hand after paying `cost`.
pub open spec fn paid(h: Seq<u8>, cost: Seq<u8>) -> Seq<u8> {
    Seq::new(RESOURCE_KINDS as nat, |k: int| (h[k] - cost[k]) as u8)
}

/// A road costs one brick and one lumber.
pub open spec fn road_price() -> Seq<u8> {
    seq![1u8, 1u8, 0u8, 0u8, 0u8, 0u8]
}

/// A settlement costs one brick, one lumber, one wool and one grain.
pub open spec fn settlement_price() -> Seq<u8> {
    seq![1u8, 1u8, 1u8, 1u8, 0u8, 0u8]
}

/// A city costs two grain and three ore.
pub open spec fn city_price() -> Seq<u8> {
    seq![0u8, 0u8, 0u8, 2u8, 3u8, 0u8]
}

/// A development card costs one wool, one grain and one ore.
pub open spec fn dev_card_price() -> Seq<u8> {
    seq![0u8, 0u8, 1u8, 1u8, 1u8, 0u8]
}

pub fn road_cost() -> (c: [u8; 6])
    ensures
        c@ == road_price(),
{
    let c = [1u8, 1u8, 0u8, 0u8, 0u8, 0u8];
    assert(c@ =~= road_price());
    c
}

pub fn settlement_cost() -> (c: [u8; 6])
    ensures
        c@ == settlement_price(),
{
    let c = [1u8, 1u8, 1u8, 1u8, 0u8, 0u8];
    assert(c@ =~= settlement_price());
    c
}

pub fn city_cost() -> (c: [u8; 6])
    ensures
        c@ == city_price(),
{
    let c = [0u8, 0u8, 0u8, 2u8, 3u8, 0u8];
    assert(c@ =~= city_price());
    c
}

pub fn dev_card_cost() -> (c: [u8; 6])
    ensures
        c@ == dev_card_price(),
{
    let c = [0u8, 0u8, 1u8, 1u8, 1u8, 0u8];
    assert(c@ =~= dev_card_price());
    c
}

/// Whether the hand can pay `cost`.
pub fn can_afford(hand: &Vec<u8>, cost: &[u8; 6]) -> (b: bool)
    requires
        hand@.len() == RESOURCE_KINDS,
    ensures
        b == can_pay(hand@, cost@),
{
    let mut k: usize = 0;
    while k < RESOURCE_KINDS
        invariant
            k <= RESOURCE_KINDS,
            hand@.len() == RESOURCE_KINDS,
            forall|j: int| 0 <= j < k ==> hand@[j] >= cost@[j],
        decreases RESOURCE_KINDS - k,
    {
        if hand[k] < cost[k] {
            return false;
        }
        k += 1;
    }
    true
}

/// Pays `cost` from a hand that can afford it.
pub fn pay(hand: &mut Vec<u8>, cost: &[u8; 6])
    requires
        old(hand)@.len() == RESOURCE_KINDS,
        can_pay(old(hand)@, cost@),
    ensures
        final(hand)@ == paid(old(hand)@, cost@),
{
    let ghost h0 = hand@;
    let mut k: usize = 0;
    while k < RESOURCE_KINDS
        invariant
            k <= RESOURCE_KINDS,
            hand@.len() == RESOURCE_KINDS,
            can_pay(h0, cost@),
            forall|j: int| 0 <= j < k ==> hand@[j] == (h0[j] - cost@[j]) as u8,
            forall|j: int| k <= j < RESOURCE_KINDS ==> hand@[j] == h0[j],
        decreases RESOURCE_KINDS - k,
    {
        hand[k] = hand[k] - cost[k];
        k += 1;
    }
    assert(hand@ =~= paid(h0, cost@));
}

} // verus!
