//! The hand of cards shown on the board screen.
use vstd::prelude::*;
use crate::backend::game::{DevCard, DevCardInstance, Resource, RESOURCE_KINDS};

verus! {

/// A card on screen: whether it is highlighted (hovered or selected).
#[derive(Debug, Clone, Copy)]
pub struct CardsVisual {
    pub highlighted: bool,
}

/// Whether the cards are shown.
#[derive(Debug, Clone, Copy)]
pub struct CardShowing {
    pub enabled: bool,
}

impl Default for CardShowing {
    /// Cards are shown unless hidden.
    fn default() -> (s: Self)
        ensures
            s.enabled,
    {
        CardShowing { enabled: true }
    }
}

/// The resource cards in the order they are laid out: by name (the desert is no card).
pub open spec fn resource_card_order() -> Seq<Resource> {
    seq![Resource::Brick, Resource::Grain, Resource::Lumber, Resource::Ore, Resource::Wool]
}

/// The development cards in the order they are laid out: by name.
pub open spec fn dev_card_order() -> Seq<DevCard> {
    seq![DevCard::Knight, DevCard::Monopoly, DevCard::RoadBuilding, DevCard::VictoryPoint, DevCard::YearOfPlenty]
}

/// The kinds among `order` of which hand `h` holds cards, each with its count, in that order.
pub open spec fn owned_resources_in(h: Seq<u8>, order: Seq<Resource>) -> Seq<(Resource, u8)>
    decreases order.len(),
{
    if order.len() == 0 {
        Seq::empty()
    } else {
        let rest = owned_resources_in(h, order.drop_last());
        let r = order.last();
        if h[r.slot()] > 0 {
            rest.push((r, h[r.slot()]))
        } else {
            rest
        }
    }
}

/// How many of `cards` are of kind `kind`.
pub open spec fn count_of_kind(cards: Seq<DevCardInstance>, kind: DevCard) -> nat
    decreases cards.len(),
{
    if cards.len() == 0 {
        0
    } else {
        count_of_kind(cards.drop_last(), kind) + (if cards.last().card == kind { 1nat } else { 0nat })
    }
}

/// The kinds among `order` of which `cards` holds some, each with how many, in that order.
pub open spec fn owned_dev_cards_in(cards: Seq<DevCardInstance>, order: Seq<DevCard>) -> Seq<(DevCard, usize)>
    decreases order.len(),
{
    if order.len() == 0 {
        Seq::empty()
    } else {
        let rest = owned_dev_cards_in(cards, order.drop_last());
        let k = order.last();
        if count_of_kind(cards, k) > 0 {
            rest.push((k, count_of_kind(cards, k) as usize))
        } else {
            rest
        }
    }
}

/// The resource cards shown for hand `hand`: every kind the player holds, with its count,
/// in the order of their names.
pub fn owned_resources(hand: &Vec<u8>) -> (r: Vec<(Resource, u8)>)
    requires
        hand@.len() == RESOURCE_KINDS,
    ensures
        r@ == owned_resources_in(hand@, resource_card_order()),
{
    let order: Vec<Resource> = vec![Resource::Brick, Resource::Grain, Resource::Lumber, Resource::Ore, Resource::Wool];
    assert(order@ =~= resource_card_order());
    let mut r: Vec<(Resource, u8)> = Vec::new();
    let mut i: usize = 0;
    assert(order@.take(0) =~= Seq::<Resource>::empty());
    while i < order.len()
        invariant
            i <= order@.len(),
            order@ == resource_card_order(),
            hand@.len() == RESOURCE_KINDS,
            r@ == owned_resources_in(hand@, order@.take(i as int)),
        decreases order@.len() - i,
    {
        assert(order@.take(i + 1).drop_last() =~= order@.take(i as int));
        assert(order@.take(i + 1).last() == order@[i as int]);
        let kind = order[i];
        let c = hand[kind.index()];
        if c > 0 {
            r.push((kind, c));
        }
        i += 1;
    }
    assert(order@.take(order@.len() as int) =~= order@);
    r
}

/// How many of `cards` are of kind `kind`.
pub fn count_cards(cards: &Vec<DevCardInstance>, kind: DevCard) -> (n: usize)
    ensures
        n == count_of_kind(cards@, kind),
{
    let mut n: usize = 0;
    let mut i: usize = 0;
    assert(cards@.take(0) =~= Seq::<DevCardInstance>::empty());
    while i < cards.len()
        invariant
            i <= cards@.len(),
            n == count_of_kind(cards@.take(i as int), kind),
            n <= i,
        decreases cards@.len() - i,
    {
        assert(cards@.take(i + 1).drop_last() =~= cards@.take(i as int));
        assert(cards@.take(i + 1).last() == cards@[i as int]);
        if cards[i].card == kind {
            n += 1;
        }
        i += 1;
    }
    assert(cards@.take(cards@.len() as int) =~= cards@);
    n
}

/// The development cards shown for a hand: every kind the player holds, with how many, in
/// the order of their names.
pub fn owned_dev_cards(cards: &Vec<DevCardInstance>) -> (r: Vec<(DevCard, usize)>)
    ensures
        r@ == owned_dev_cards_in(cards@, dev_card_order()),
{
    let order: Vec<DevCard> = vec![DevCard::Knight, DevCard::Monopoly, DevCard::RoadBuilding, DevCard::VictoryPoint, DevCard::YearOfPlenty];
    assert(order@ =~= dev_card_order());
    let mut r: Vec<(DevCard, usize)> = Vec::new();
    let mut i: usize = 0;
    assert(order@.take(0) =~= Seq::<DevCard>::empty());
    while i < order.len()
        invariant
            i <= order@.len(),
            order@ == dev_card_order(),
            r@ == owned_dev_cards_in(cards@, order@.take(i as int)),
        decreases order@.len() - i,
    {
        assert(order@.take(i + 1).drop_last() =~= order@.take(i as int));
        assert(order@.take(i + 1).last() == order@[i as int]);
        let kind = order[i];
        let c = count_cards(cards, kind);
        if c > 0 {
            r.push((kind, c));
        }
        i += 1;
    }
    assert(order@.take(order@.len() as int) =~= order@);
    r
}

/// The card a click on the shown card of kind `kind` plays: the player's first card of that
/// kind, by its position in the hand, or none when they hold none.
pub fn clicked_card(cards: &Vec<DevCardInstance>, kind: DevCard) -> (r: Option<usize>)
    ensures
        r matches Some(i) ==> i < cards@.len() && cards@[i as int].card == kind
            && forall|j: int| 0 <= j < i ==> (#[trigger] cards@[j]).card != kind,
        r is None ==> forall|j: int| 0 <= j < cards@.len() ==> (#[trigger] cards@[j]).card != kind,
{
    let mut i: usize = 0;
    while i < cards.len()
        invariant
            i <= cards@.len(),
            forall|j: int| 0 <= j < i ==> (#[trigger] cards@[j]).card != kind,
        decreases cards@.len() - i,
    {
        if cards[i].card == kind {
            return Some(i);
        }
        i += 1;
    }
    None
}

} // verus!
