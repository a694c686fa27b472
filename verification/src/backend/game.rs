//! Game state and the rules that change it.
use vstd::prelude::*;

pub mod rng;
pub mod roads;
pub mod turn;
pub mod resources;
pub mod board;
pub mod robber;
pub mod trade;
pub mod building;
pub mod devcards;
pub mod laws;

use rand::rngs::ThreadRng;
use turn::aged;
use robber::{first_other_from, lemma_first_other_facts};
use trade::has_harbor_access;
use roads::{longest_road, longest_road_len};
use building::{contains_road, has_road_at, remove_usize, road_between};
use resources::{can_afford, pay, paid, settlement_cost, city_cost, road_cost, dev_card_cost, dev_card_price};
use resources::{is_robbed_hand, discard_half, hand_total, corner_yield, yield_upto, lemma_yield_upto_monotone, lemma_gain_monotone};
use board::{is_shuffled_board, standard_coords, standard_harbor_types, is_harbor_layout, standard_resource_pool, standard_number_pool};

verus! {

/// The kinds of terrain; every kind but `Desert` is also a card a player can hold.
#[derive(Clone, Copy, Debug, PartialEq, Eq, Hash, Structural)]
pub enum Resource {
    Brick,
    Lumber,
    Wool,
    Grain,
    Ore,
    Desert,
}

/// Number of slots in a player's hand, one per `Resource`.
pub const RESOURCE_KINDS: usize = 6;

impl Resource {
    /// Slot of this resource in a hand.
    pub open spec fn slot(self) -> int {
        match self {
            Resource::Brick => 0,
            Resource::Lumber => 1,
            Resource::Wool => 2,
            Resource::Grain => 3,
            Resource::Ore => 4,
            Resource::Desert => 5,
        }
    }

    pub fn index(self) -> (r: usize)
        ensures
            r == self.slot(),
            r < RESOURCE_KINDS,
    {
        match self {
            Resource::Brick => 0,
            Resource::Lumber => 1,
            Resource::Wool => 2,
            Resource::Grain => 3,
            Resource::Ore => 4,
            Resource::Desert => 5,
        }
    }
}

/// The resource held in hand slot `i`.
pub open spec fn resource_of_slot(i: int) -> Resource {
    if i == 0 {
        Resource::Brick
    } else if i == 1 {
        Resource::Lumber
    } else if i == 2 {
        Resource::Wool
    } else if i == 3 {
        Resource::Grain
    } else if i == 4 {
        Resource::Ore
    } else {
        Resource::Desert
    }
}

#[derive(Debug, Clone, Copy, PartialEq, Eq, Structural)]
pub enum GamePhase {
    /// Placement in player order.
    SetupRound1,
    /// Placement in reverse player order.
    SetupRound2,
    NormalPlay,
}

#[derive(Debug, Clone, Copy, PartialEq, Eq, Structural)]
pub enum TurnPhase {
    RollResources,
    Trade,
    Build,
    EndTurn,
}

#[derive(Clone, Copy, Debug, PartialEq, Eq, Hash, Structural)]
pub enum DevCard {
    Knight,
    VictoryPoint,
    Monopoly,
    RoadBuilding,
    YearOfPlenty,
}

/// A development card in a player's hand; `age` counts the turns it has been held.
#[derive(Clone, Debug, Copy)]
pub struct DevCardInstance {
    pub card: DevCard,
    pub age: usize,
}

/// The choices a player makes when playing a development card.
#[derive(Clone, Copy, Debug, PartialEq, Eq)]
pub enum DevCardInput {
    Empty,
    Knight { tile: usize, victim: Option<usize> },
    Monopoly { resource: Resource },
    RoadBuilding { r1: (usize, usize), r2: (usize, usize) },
    YearOfPlenty { r1: Resource, r2: Resource },
}

/// A corner of one or more hexes.
///
/// `lattice` locates the corner on the grid of hex corners: with hexes of size 1 its
/// position on the board is `(lattice.0 * sqrt(3) / 2, lattice.1 / 2)`.
#[derive(Debug)]
pub struct Vertex {
    pub id: usize,
    pub lattice: (i32, i32),
    pub neighbors: Vec<usize>,
}

pub struct VertexView {
    pub id: usize,
    pub lattice: (i32, i32),
    pub neighbors: Seq<usize>,
}

impl View for Vertex {
    type V = VertexView;

    open spec fn view(&self) -> VertexView {
        VertexView { id: self.id, lattice: self.lattice, neighbors: self.neighbors@ }
    }
}

impl Vertex {
    pub fn new(id: usize, lattice: (i32, i32)) -> (v: Self)
        ensures
            v.id == id,
            v.lattice == lattice,
            v.neighbors@ == Seq::<usize>::empty(),
    {
        Vertex { id, lattice, neighbors: Vec::new() }
    }

    /// Records `other` as a neighbor; a neighbor is recorded once.
    pub fn connect(&mut self, other: usize)
        ensures
            final(self).id == old(self).id,
            final(self).lattice == old(self).lattice,
            final(self).neighbors@ == (if old(self).neighbors@.contains(other) {
                old(self).neighbors@
            } else {
                old(self).neighbors@.push(other)
            }),
    {
        if !contains_usize(&self.neighbors, other) {
            self.neighbors.push(other);
        }
    }
}

#[derive(Clone, Copy, Debug, PartialEq, Eq)]
pub struct Tile {
    pub resource: Resource,
    pub number_token: Option<u8>,
    /// The six corners, clockwise from the top.
    pub vertices: [usize; 6],
}

#[derive(Debug, Clone, Copy, PartialEq, Eq, Structural)]
pub enum HarborType {
    Generic,
    Resource(Resource),
}

#[derive(Debug, Copy, Clone)]
pub struct Harbor {
    pub loc0: usize,
    pub loc1: usize,
    pub htype: HarborType,
}

#[derive(Debug)]
pub struct Player {
    pub id: usize,
    pub name: String,
    /// Cards held, one count per `Resource` slot.
    pub resources: Vec<u8>,
    pub settlements: Vec<usize>,
    pub last_setup_settlement: Option<usize>,
    pub cities: Vec<usize>,
    /// Roads as `(a, b)` with `a < b`.
    pub roads: Vec<(usize, usize)>,
    pub dev_cards: Vec<DevCardInstance>,
    pub knights_played: u8,
    pub victory_points: u8,
}

#[verifier::ext_equal]
pub struct PlayerView {
    pub id: usize,
    pub name: Seq<char>,
    pub resources: Seq<u8>,
    pub settlements: Seq<usize>,
    pub last_setup_settlement: Option<usize>,
    pub cities: Seq<usize>,
    pub roads: Seq<(usize, usize)>,
    pub dev_cards: Seq<DevCardInstance>,
    pub knights_played: u8,
    pub victory_points: u8,
}

impl View for Player {
    type V = PlayerView;

    open spec fn view(&self) -> PlayerView {
        PlayerView {
            id: self.id,
            name: self.name@,
            resources: self.resources@,
            settlements: self.settlements@,
            last_setup_settlement: self.last_setup_settlement,
            cities: self.cities@,
            roads: self.roads@,
            dev_cards: self.dev_cards@,
            knights_played: self.knights_played,
            victory_points: self.victory_points,
        }
    }
}

impl PlayerView {
    /// How many cards of `r` the player holds.
    pub open spec fn count(self, r: Resource) -> int {
        self.resources[r.slot()] as int
    }

    pub open spec fn owns_building_at(self, v: usize) -> bool {
        self.settlements.contains(v) || self.cities.contains(v)
    }

    /// Some road of the player ends at `v`.
    pub open spec fn has_road_at(self, v: usize) -> bool {
        exists|i: int| #![trigger self.roads[i]] 0 <= i < self.roads.len() && (self.roads[i].0 == v || self.roads[i].1 == v)
    }

    /// The player may sit in seat `i`: their number is `i`, or they have no buildings (a
    /// seat whose number repeats another's owns nothing that could be mistaken for theirs).
    pub open spec fn seated(self, i: int) -> bool {
        self.id == i || (self.settlements.len() == 0 && self.cities.len() == 0)
    }

    pub open spec fn wf(self) -> bool {
        &&& self.resources.len() == RESOURCE_KINDS
        &&& self.settlements.no_duplicates()
        &&& self.cities.no_duplicates()
        &&& self.roads.no_duplicates()
    }
}

impl Player {
    pub fn new(id: usize, name: &str) -> (p: Self)
        ensures
            p@ == (PlayerView {
                id,
                name: name@,
                resources: seq![0u8, 0u8, 0u8, 0u8, 0u8, 0u8],
                settlements: Seq::empty(),
                last_setup_settlement: None,
                cities: Seq::empty(),
                roads: Seq::empty(),
                dev_cards: Seq::empty(),
                knights_played: 0,
                victory_points: 0,
            }),
            p@.wf(),
    {
        broadcast use vstd::string::to_string_from_display_ensures_for_str;

        let p = Self {
            id,
            name: name.to_string(),
            resources: vec![0u8, 0u8, 0u8, 0u8, 0u8, 0u8],
            settlements: Vec::new(),
            last_setup_settlement: None,
            cities: Vec::new(),
            roads: Vec::new(),
            dev_cards: Vec::new(),
            knights_played: 0,
            victory_points: 0,
        };
        assert(p@.resources =~= seq![0u8, 0u8, 0u8, 0u8, 0u8, 0u8]);
        p
    }

    /// How many cards of `r` the player holds.
    pub fn resource_count(&self, r: Resource) -> (n: u8)
        requires
            self@.wf(),
        ensures
            n == self@.count(r),
    {
        self.resources[r.index()]
    }
}

pub struct Game {
    pub players: Vec<Player>,
    pub vertices: Vec<Vertex>,
    pub tiles: Vec<Tile>,
    pub harbors: Vec<Harbor>,
    pub robber_tile: usize,
    pub current_player: usize,
    pub dev_card_pool: Vec<DevCard>,
    pub turn_phase: TurnPhase,
    pub game_phase: GamePhase,
    /// Placements the current player has made in this setup step.
    pub setup_placement: u8,
    pub largest_army_owner: Option<usize>,
    pub longest_road_owner: Option<usize>,
    pub longest_road_length: usize,
    rng: ThreadRng,
}

/// Everything a `Game` holds but its random number generator.
#[verifier::ext_equal]
pub struct GameView {
    pub players: Seq<PlayerView>,
    pub vertices: Seq<VertexView>,
    pub tiles: Seq<Tile>,
    pub harbors: Seq<Harbor>,
    pub robber_tile: usize,
    pub current_player: usize,
    pub dev_card_pool: Seq<DevCard>,
    pub turn_phase: TurnPhase,
    pub game_phase: GamePhase,
    pub setup_placement: u8,
    pub largest_army_owner: Option<usize>,
    pub longest_road_owner: Option<usize>,
    pub longest_road_length: usize,
}

impl Game {
    /// The game without its random number generator.
    pub closed spec fn game_view(&self) -> GameView {
        GameView {
            players: self.players@.map_values(|p: Player| p@),
            vertices: self.vertices@.map_values(|v: Vertex| v@),
            tiles: self.tiles@,
            harbors: self.harbors@,
            robber_tile: self.robber_tile,
            current_player: self.current_player,
            dev_card_pool: self.dev_card_pool@,
            turn_phase: self.turn_phase,
            game_phase: self.game_phase,
            setup_placement: self.setup_placement,
            largest_army_owner: self.largest_army_owner,
            longest_road_owner: self.longest_road_owner,
            longest_road_length: self.longest_road_length,
        }
    }
}

impl View for Game {
    type V = GameView;

    open spec fn view(&self) -> GameView {
        self.game_view()
    }
}

/// The development cards of the base game: 14 knights, 5 victory points, 2 of each other kind.
pub open spec fn standard_dev_cards() -> Seq<DevCard> {
    Seq::new(14, |i: int| DevCard::Knight)
        + Seq::new(5, |i: int| DevCard::VictoryPoint)
        + seq![DevCard::Monopoly, DevCard::Monopoly, DevCard::RoadBuilding, DevCard::RoadBuilding,
            DevCard::YearOfPlenty, DevCard::YearOfPlenty]
}

/// `g` is a game as `Game::new` starts it for players named `names`, in that order: fresh
/// players, the standard map with shuffled terrain, numbers, harbors and development cards,
/// the robber on the first desert, and the first player to place in the first setup round.
pub open spec fn is_new_game(g: GameView, names: Seq<Seq<char>>) -> bool {
    &&& g.wf()
    &&& g.players.len() == names.len()
    &&& forall|i: int| 0 <= i < names.len() ==> #[trigger] g.players[i] == new_player(i as usize, names[i])
    &&& is_shuffled_board(standard_coords(), g.vertices, g.tiles)
    &&& exists|first: bool, types: Seq<HarborType>|
        types.to_multiset() == standard_harbor_types().to_multiset()
            && types.len() == 9
            && is_harbor_layout(first, types, g.harbors)
    &&& g.robber_tile < g.tiles.len()
    &&& g.tiles[g.robber_tile as int].resource == Resource::Desert
    &&& forall|j: int| 0 <= j < g.robber_tile ==> g.tiles[j].resource != Resource::Desert
    &&& g.dev_card_pool.to_multiset() == standard_dev_cards().to_multiset()
    &&& g.dev_card_pool.len() == 25
    &&& g.current_player == 0
    &&& g.turn_phase == TurnPhase::RollResources
    &&& g.game_phase == GamePhase::SetupRound1
    &&& g.setup_placement == 0
    &&& g.largest_army_owner is None
    &&& g.longest_road_owner is None
    &&& g.longest_road_length == 0
}

/// A fresh player with number `id`.
pub open spec fn new_player(id: usize, name: Seq<char>) -> PlayerView {
    PlayerView {
        id,
        name,
        resources: seq![0u8, 0u8, 0u8, 0u8, 0u8, 0u8],
        settlements: Seq::empty(),
        last_setup_settlement: None,
        cities: Seq::empty(),
        roads: Seq::empty(),
        dev_cards: Seq::empty(),
        knights_played: 0,
        victory_points: 0,
    }
}

impl GameView {
    /// The invariant every operation keeps: players are numbered by their position, the
    /// current player and the award holders are players, and hands have one slot per resource.
    pub open spec fn wf(self) -> bool {
        &&& 0 < self.players.len() <= usize::MAX
        &&& forall|i: int| 0 <= i < self.players.len() ==> (#[trigger] self.players[i]).seated(i)
        &&& forall|i: int| 0 <= i < self.players.len() ==> (#[trigger] self.players[i]).wf()
        &&& self.current_player < self.players.len()
        &&& (self.largest_army_owner matches Some(o) ==> o < self.players.len())
        &&& (self.longest_road_owner matches Some(o) ==> o < self.players.len())
    }

    pub open spec fn is_setup(self) -> bool {
        self.game_phase == GamePhase::SetupRound1 || self.game_phase == GamePhase::SetupRound2
    }

    /// The board is the standard one (at most 19 tiles), where building limits apply.
    pub open spec fn is_standard(self) -> bool {
        self.tiles.len() <= 19
    }

    /// Some player has a settlement or a city on `v`.
    pub open spec fn occupied(self, v: usize) -> bool {
        exists|q: int| 0 <= q < self.players.len() && (#[trigger] self.players[q]).owns_building_at(v)
    }

    /// Cards of `r` held by player `p`.
    pub open spec fn count(self, p: int, r: Resource) -> int {
        self.players[p].count(r)
    }
}

impl Game {
    /// A new game for two to four players, in the order given, on the standard map with
    /// shuffled terrain, numbers, harbors and development cards. The robber starts on the
    /// desert; the first player begins the first setup round.
    pub fn new(player_names: Vec<&str>) -> (game: Self)
        requires
            2 <= player_names@.len() <= 4,
        ensures
            game@.wf(),
            game@.players.len() == player_names@.len(),
            forall|i: int| 0 <= i < player_names@.len() ==> #[trigger] game@.players[i] == new_player(i as usize, player_names@[i]@),
            is_shuffled_board(standard_coords(), game@.vertices, game@.tiles),
            exists|first: bool, types: Seq<HarborType>|
                types.to_multiset() == standard_harbor_types().to_multiset()
                    && types.len() == 9
                    && is_harbor_layout(first, types, game@.harbors),
            game@.robber_tile < game@.tiles.len(),
            game@.tiles[game@.robber_tile as int].resource == Resource::Desert,
            forall|j: int| 0 <= j < game@.robber_tile ==> game@.tiles[j].resource != Resource::Desert,
            game@.dev_card_pool.to_multiset() == standard_dev_cards().to_multiset(),
            game@.dev_card_pool.len() == 25,
            game@.current_player == 0,
            game@.turn_phase == TurnPhase::RollResources,
            game@.game_phase == GamePhase::SetupRound1,
            game@.setup_placement == 0,
            game@.largest_army_owner is None,
            game@.longest_road_owner is None,
            game@.longest_road_length == 0,
            is_new_game(game@, player_names@.map_values(|name: &str| name@)),
    {
        let mut rng = rng::thread_rng();
        let mut players: Vec<Player> = Vec::new();
        let mut i: usize = 0;
        while i < player_names.len()
            invariant
                i <= player_names@.len(),
                players@.len() == i,
                forall|k: int| 0 <= k < i ==> #[trigger] players@[k]@ == new_player(k as usize, player_names@[k]@),
            decreases player_names@.len() - i,
        {
            let p = Player::new(i, player_names[i]);
            players.push(p);
            proof {
                assert(players@[i as int]@ =~= new_player(i as usize, player_names@[i as int]@));
            }
            i += 1;
        }
        let (vertices, tiles) = Game::generate_board(&mut rng);
        let harbors = Game::generate_harbors(&mut rng);
        let ghost harbors_view = harbors@;
        // The robber starts on the desert.
        proof {
            let vs = vertices@.map_values(|v: Vertex| v@);
            let (order, numbers) = choose|order: Seq<Resource>, numbers: Seq<u8>|
                order.to_multiset() == standard_resource_pool().to_multiset()
                    && order.len() == standard_resource_pool().len()
                    && numbers.to_multiset() == standard_number_pool().to_multiset()
                    && numbers.len() == standard_number_pool().len()
                    && #[trigger] board::is_board(standard_coords(), order, numbers, vs, tiles@);
            broadcast use vstd::seq_lib::group_to_multiset_ensures;
            assert(standard_resource_pool()[18] == Resource::Desert);
            assert(standard_resource_pool().contains(Resource::Desert));
            assert(standard_resource_pool().to_multiset().count(Resource::Desert) > 0);
            assert(order.to_multiset().count(Resource::Desert) > 0);
            assert(order.contains(Resource::Desert));
            let d = choose|d: int| 0 <= d < order.len() && order[d] == Resource::Desert;
            assert(d % 19 == d);
            assert(tiles@[d].resource == Resource::Desert);
        }
        let mut robber_tile: usize = 0;
        while robber_tile < tiles.len() && tiles[robber_tile].resource != Resource::Desert
            invariant
                robber_tile <= tiles@.len(),
                exists|d: int| robber_tile <= d < tiles@.len() && tiles@[d].resource == Resource::Desert,
                forall|j: int| 0 <= j < robber_tile ==> tiles@[j].resource != Resource::Desert,
            decreases tiles@.len() - robber_tile,
        {
            robber_tile += 1;
        }
        let mut dev_card_pool: Vec<DevCard> = vec![
            DevCard::Knight, DevCard::Knight, DevCard::Knight, DevCard::Knight, DevCard::Knight,
            DevCard::Knight, DevCard::Knight, DevCard::Knight, DevCard::Knight, DevCard::Knight,
            DevCard::Knight, DevCard::Knight, DevCard::Knight, DevCard::Knight, DevCard::VictoryPoint,
            DevCard::VictoryPoint, DevCard::VictoryPoint, DevCard::VictoryPoint, DevCard::VictoryPoint, DevCard::Monopoly,
            DevCard::Monopoly, DevCard::RoadBuilding, DevCard::RoadBuilding, DevCard::YearOfPlenty, DevCard::YearOfPlenty,
        ];
        assert(dev_card_pool@ =~= standard_dev_cards());
        rng::shuffle_vec(&mut rng, &mut dev_card_pool);
        let game = Game {
            players,
            vertices,
            tiles,
            harbors,
            robber_tile,
            current_player: 0,
            dev_card_pool,
            turn_phase: TurnPhase::RollResources,
            game_phase: GamePhase::SetupRound1,
            setup_placement: 0,
            largest_army_owner: None,
            longest_road_owner: None,
            longest_road_length: 0,
            rng,
        };
        proof {
            assert(game@.harbors == harbors_view);
            let (first, types) = choose|first: bool, types: Seq<HarborType>|
                types.to_multiset() == standard_harbor_types().to_multiset()
                    && types.len() == 9
                    && is_harbor_layout(first, types, harbors_view);
            assert(is_harbor_layout(first, types, game@.harbors));
            assert forall|k: int| 0 <= k < game@.players.len() implies #[trigger] game@.players[k] == new_player(k as usize, player_names@[k]@) by {
                assert(game@.players[k] == game.players@[k]@);
            }
        }
        game
    }

    /// Every tile that carries `dice_roll` and not the robber pays out its resource: one card
    /// per settlement and two per city on each of its corners.
    pub fn distribute_resources(&mut self, dice_roll: u8)
        requires
            old(self)@.wf(),
            old(self)@.harvest_fits(dice_roll),
        ensures
            final(self)@ == old(self)@.harvest(dice_roll),
            final(self)@.wf(),
    {
        let ghost g0 = self@;
        let ntiles = self.tiles.len();
        let nplayers = self.players.len();
        let mut i: usize = 0;
        while i < ntiles
            invariant
                ntiles == g0.tiles.len(),
                nplayers == g0.players.len(),
                i <= ntiles,
                g0.wf(),
                g0.harvest_fits(dice_roll),
                self@ == (GameView { players: self@.players, ..g0 }),
                self@.players.len() == nplayers,
                forall|p: int| 0 <= p < nplayers ==> #[trigger] self@.players[p] == (PlayerView { resources: self@.players[p].resources, ..g0.players[p] }),
                forall|p: int| 0 <= p < nplayers ==> (#[trigger] self@.players[p]).resources.len() == RESOURCE_KINDS,
                forall|p: int, k: int| 0 <= p < nplayers && 0 <= k < RESOURCE_KINDS ==>
                    #[trigger] self@.players[p].resources[k] == g0.players[p].resources[k] + g0.gain(p, k, dice_roll, i as int),
            decreases ntiles - i,
        {
            let tile = self.tiles[i];
            assert(tile == g0.tiles[i as int]);
            let produces = match tile.number_token {
                Some(n) => n == dice_roll,
                None => false,
            } && i != self.robber_tile;
            assert(produces == g0.produces(i as int, dice_roll));
            if produces {
                let slot = tile.resource.index();
                let mut c: usize = 0;
                while c < 6
                    invariant
                        ntiles == g0.tiles.len(),
                        nplayers == g0.players.len(),
                        i < ntiles,
                        c <= 6,
                        tile == g0.tiles[i as int],
                        g0.produces(i as int, dice_roll),
                        slot == tile.resource.slot(),
                        g0.wf(),
                        g0.harvest_fits(dice_roll),
                        self@ == (GameView { players: self@.players, ..g0 }),
                        self@.players.len() == nplayers,
                        forall|p: int| 0 <= p < nplayers ==> #[trigger] self@.players[p] == (PlayerView { resources: self@.players[p].resources, ..g0.players[p] }),
                        forall|p: int| 0 <= p < nplayers ==> (#[trigger] self@.players[p]).resources.len() == RESOURCE_KINDS,
                        forall|p: int, k: int| 0 <= p < nplayers && 0 <= k < RESOURCE_KINDS ==>
                            #[trigger] self@.players[p].resources[k] == g0.players[p].resources[k] + g0.gain(p, k, dice_roll, i as int)
                                + (if k == slot { yield_upto(g0.players[p], tile, c as int) } else { 0 }),
                    decreases 6 - c,
                {
                    let v = tile.vertices[c];
                    let mut pi: usize = 0;
                    while pi < nplayers
                        invariant
                            ntiles == g0.tiles.len(),
                            nplayers == g0.players.len(),
                            i < ntiles,
                            c < 6,
                            pi <= nplayers,
                            v == tile.vertices@[c as int],
                            tile == g0.tiles[i as int],
                            g0.produces(i as int, dice_roll),
                            slot == tile.resource.slot(),
                            g0.wf(),
                            g0.harvest_fits(dice_roll),
                            self@ == (GameView { players: self@.players, ..g0 }),
                            self@.players.len() == nplayers,
                            forall|p: int| 0 <= p < nplayers ==> #[trigger] self@.players[p] == (PlayerView { resources: self@.players[p].resources, ..g0.players[p] }),
                            forall|p: int| 0 <= p < nplayers ==> (#[trigger] self@.players[p]).resources.len() == RESOURCE_KINDS,
                            forall|p: int, k: int| 0 <= p < nplayers && 0 <= k < RESOURCE_KINDS ==>
                                #[trigger] self@.players[p].resources[k] == g0.players[p].resources[k] + g0.gain(p, k, dice_roll, i as int)
                                    + (if k == slot { yield_upto(g0.players[p], tile, if p < pi { c + 1 } else { c as int }) } else { 0 }),
                        decreases nplayers - pi,
                    {
                        let ghost before = self@;
                        assert(self.players@[pi as int]@ == self@.players[pi as int]);
                        let has_settlement = contains_usize(&self.players[pi].settlements, v);
                        let has_city = contains_usize(&self.players[pi].cities, v);
                        let amount: u8 = (if has_settlement { 1u8 } else { 0u8 }) + (if has_city { 2u8 } else { 0u8 });
                        assert(amount == corner_yield(g0.players[pi as int], v));
                        proof {
                            let p = pi as int;
                            lemma_yield_upto_monotone(g0.players[p], tile, c + 1, 6);
                            lemma_gain_monotone(g0, p, slot as int, dice_roll, i + 1, g0.tiles.len() as int);
                            assert(g0.gain(p, slot as int, dice_roll, i + 1) == g0.gain(p, slot as int, dice_roll, i as int) + yield_upto(g0.players[p], tile, 6));
                            assert(self@.players[p].resources[slot as int] + amount <= 255);
                        }
                        if amount > 0 {
                            self.players[pi].resources[slot] += amount;
                        }
                        proof {
                            assert forall|p: int| 0 <= p < nplayers implies #[trigger] self@.players[p] == (PlayerView { resources: self@.players[p].resources, ..g0.players[p] }) by {
                                assert(self@.players[p] == self.players@[p]@);
                                assert(before.players[p] == (PlayerView { resources: before.players[p].resources, ..g0.players[p] }));
                            }
                            assert forall|p: int| 0 <= p < nplayers implies (#[trigger] self@.players[p]).resources.len() == RESOURCE_KINDS by {
                                assert(self@.players[p] == self.players@[p]@);
                                assert(before.players[p].resources.len() == RESOURCE_KINDS);
                            }
                            assert forall|p: int, k: int| 0 <= p < nplayers && 0 <= k < RESOURCE_KINDS implies
                                #[trigger] self@.players[p].resources[k] == g0.players[p].resources[k] + g0.gain(p, k, dice_roll, i as int)
                                    + (if k == slot { yield_upto(g0.players[p], tile, if p < pi + 1 { c + 1 } else { c as int }) } else { 0 }) by {
                                assert(self@.players[p] == self.players@[p]@);
                                assert(before.players[p].resources[k] == g0.players[p].resources[k] + g0.gain(p, k, dice_roll, i as int)
                                    + (if k == slot { yield_upto(g0.players[p], tile, if p < pi { c + 1 } else { c as int }) } else { 0 }));
                            }
                        }
                        pi += 1;
                    }
                    c += 1;
                }
                proof {
                    assert forall|p: int, k: int| 0 <= p < nplayers && 0 <= k < RESOURCE_KINDS implies
                        #[trigger] self@.players[p].resources[k] == g0.players[p].resources[k] + g0.gain(p, k, dice_roll, i + 1) by {
                        assert(g0.gain(p, k, dice_roll, i + 1) == g0.gain(p, k, dice_roll, i as int) + (if k == slot { yield_upto(g0.players[p], tile, 6) } else { 0 }));
                    }
                }
            } else {
                proof {
                    assert forall|p: int, k: int| 0 <= p < nplayers && 0 <= k < RESOURCE_KINDS implies
                        #[trigger] self@.players[p].resources[k] == g0.players[p].resources[k] + g0.gain(p, k, dice_roll, i + 1) by {
                        assert(g0.gain(p, k, dice_roll, i + 1) == g0.gain(p, k, dice_roll, i as int));
                    }
                }
            }
            i += 1;
        }
        proof {
            let h = g0.harvest(dice_roll);
            assert forall|p: int| 0 <= p < nplayers implies #[trigger] self@.players[p] == h.players[p] by {
                assert(self@.players[p].resources =~= h.players[p].resources);
            }
            assert(self@.players =~= h.players);
        }
    }

    /// Every player holding more than seven cards gives up half of them, rounded down (see
    /// `discard_half`).
    pub fn robbery(&mut self)
        requires
            old(self)@.wf(),
            old(self)@.hands_fit(),
        ensures
            old(self)@.robbery_result(final(self)@),
            final(self)@.wf(),
    {
        let ghost g0 = self@;
        let n = self.players.len();
        let mut i: usize = 0;
        while i < n
            invariant
                n == g0.players.len(),
                i <= n,
                g0.wf(),
                g0.hands_fit(),
                self@ == (GameView { players: self@.players, ..g0 }),
                self@.players.len() == n,
                forall|p: int| 0 <= p < n ==> #[trigger] self@.players[p] == (PlayerView { resources: self@.players[p].resources, ..g0.players[p] }),
                forall|p: int| 0 <= p < n ==> if p < i {
                    is_robbed_hand(g0.players[p].resources, #[trigger] self@.players[p].resources)
                } else {
                    self@.players[p].resources == g0.players[p].resources
                },
            decreases n - i,
        {
            let ghost before = self@;
            assert(self@.players[i as int] == before.players[i as int]);
            assert(self.players@[i as int]@.resources == g0.players[i as int].resources);
            discard_half(&mut self.rng, &mut self.players[i].resources);
            proof {
                assert forall|p: int| 0 <= p < n implies #[trigger] self@.players[p] == (PlayerView { resources: self@.players[p].resources, ..g0.players[p] }) by {
                    assert(self@.players[p] == self.players@[p]@);
                    assert(before.players[p] == (PlayerView { resources: before.players[p].resources, ..g0.players[p] }));
                }
                assert forall|p: int| 0 <= p < n implies if p < i + 1 {
                    is_robbed_hand(g0.players[p].resources, #[trigger] self@.players[p].resources)
                } else {
                    self@.players[p].resources == g0.players[p].resources
                } by {
                    assert(self@.players[p] == self.players@[p]@);
                    if p != i {
                        assert(self@.players[p].resources == before.players[p].resources);
                    }
                }
            }
            i += 1;
        }
        proof {
            lemma_robbery_keeps_wf(g0, self@);
        }
    }

    /// The first player other than the current one with a building on `v`.
    fn first_other_at(&self, v: usize) -> (r: Option<usize>)
        requires
            self@.wf(),
        ensures
            r == first_other_from(self@.players, self@.current_player, v, 0),
    {
        let n = self.players.len();
        let mut q: usize = 0;
        while q < n
            invariant
                n == self@.players.len(),
                q <= n,
                self@.wf(),
                first_other_from(self@.players, self@.current_player, v, 0) == first_other_from(self@.players, self@.current_player, v, q as int),
            decreases n - q,
        {
            assert(self.players@[q as int]@ == self@.players[q as int]);
            if q != self.current_player
                && (contains_usize(&self.players[q].settlements, v) || contains_usize(&self.players[q].cities, v)) {
                return Some(q);
            }
            q += 1;
        }
        None
    }

    /// The robber moves to the first tile other than its own; then one player with a
    /// building on that tile (if any) gives a random card (if they hold any) to the current
    /// player.
    pub fn handle_knight(&mut self)
        requires
            old(self)@.wf(),
            old(self)@.robber_can_move(),
            old(self)@.knight_steal_fits(),
        ensures
            old(self)@.knight_outcome(final(self)@),
            final(self)@.wf(),
    {
        let ghost g0 = self@;
        let _count = self.players.len();
        let target: usize = if self.robber_tile == 0 { 1 } else { 0 };
        self.robber_tile = target;
        let ghost moved = self@;
        assert(moved == (GameView { robber_tile: g0.knight_tile(), ..g0 }));
        let tile = self.tiles[target];
        let mut victim: Option<usize> = None;
        let mut c: usize = 0;
        while c < 6
            invariant
                self@ == moved,
                moved.wf(),
                moved.players.len() <= usize::MAX,
                tile == moved.tiles[target as int],
                target == g0.knight_tile(),
                c <= 6,
                victim matches Some(x) ==> moved.is_robbable(target as int, x),
                victim is None ==> forall|cc: int| 0 <= cc < c ==> #[trigger] first_other_from(moved.players, moved.current_player, tile.vertices@[cc], 0) is None,
            decreases 6 - c,
        {
            if victim.is_none() {
                let found = self.first_other_at(tile.vertices[c]);
                victim = found;
                if let Some(x) = found {
                    assert(first_other_from(moved.players, moved.current_player, moved.tiles[target as int].vertices@[c as int], 0) == Some(x));
                }
            }
            c += 1;
        }
        match victim {
            None => {
                proof {
                    assert forall|x: usize| !moved.is_robbable(target as int, x) by {
                        if moved.is_robbable(target as int, x) {
                            let cc = choose|cc: int| 0 <= cc < 6 && #[trigger] first_other_from(moved.players, moved.current_player, moved.tiles[target as int].vertices@[cc], 0) == Some(x);
                            assert(first_other_from(moved.players, moved.current_player, tile.vertices@[cc], 0) is None);
                        }
                    }
                }
            },
            Some(x) => {
                proof {
                    let cc = choose|cc: int| 0 <= cc < 6 && #[trigger] first_other_from(moved.players, moved.current_player, moved.tiles[target as int].vertices@[cc], 0) == Some(x);
                    lemma_first_other_facts(moved.players, moved.current_player, moved.tiles[target as int].vertices@[cc], 0);
                }
                assert(self.players@[x as int]@ == moved.players[x as int]);
                let mut available: Vec<usize> = Vec::new();
                let mut k: usize = 0;
                while k < RESOURCE_KINDS
                    invariant
                        self@ == moved,
                        moved.wf(),
                        x < moved.players.len(),
                        k <= RESOURCE_KINDS,
                        forall|m: int| 0 <= m < available@.len() ==> #[trigger] available@[m] < RESOURCE_KINDS
                            && moved.players[x as int].resources[available@[m] as int] > 0,
                        forall|kk: int| 0 <= kk < k && moved.players[x as int].resources[kk] > 0 ==> available@.contains(kk as usize),
                    decreases RESOURCE_KINDS - k,
                {
                    assert(self.players@[x as int]@ == moved.players[x as int]);
                    let ghost prev = available@;
                    if self.players[x].resources[k] > 0 {
                        available.push(k);
                        assert(available@[available@.len() - 1] == k);
                        assert forall|kk: int| 0 <= kk < k && moved.players[x as int].resources[kk] > 0 implies available@.contains(kk as usize) by {
                            let m = choose|m: int| 0 <= m < prev.len() && prev[m] == kk as usize;
                            assert(available@[m] == kk as usize);
                        }
                    }
                    k += 1;
                }
                match rng::choose_copy(&mut self.rng, &available) {
                    None => {
                        proof {
                            assert forall|kk: int| 0 <= kk < RESOURCE_KINDS implies moved.players[x as int].resources[kk] == 0 by {
                                if moved.players[x as int].resources[kk] > 0 {
                                    assert(available@.contains(kk as usize));
                                }
                            }
                        }
                    },
                    Some(slot) => {
                        let cur = self.current_player;
                        let ghost m = choose|m: int| 0 <= m < available@.len() && available@[m] == slot;
                        assert(moved.players[x as int].resources[slot as int] > 0);
                        assert(g0.knight_tile() == target);
                        assert(g0.is_robbable(g0.knight_tile() as int, x));
                        assert(moved.players[cur as int].resources[slot as int] < 255);
                        self.players[x].resources[slot] -= 1;
                        self.players[cur].resources[slot] += 1;
                        proof {
                            assert(self@.players =~= moved.steal(x, slot as int).players);
                            assert(self@ == moved.steal(x, slot as int));
                        }
                    },
                }
            },
        }
    }

    /// A roll of seven: large hands lose half their cards, then the robber moves as for a
    /// knight.
    pub fn handle_robber(&mut self)
        requires
            old(self)@.wf(),
            old(self)@.hands_fit(),
            old(self)@.robber_can_move(),
            old(self)@.robbery_steal_fits(),
        ensures
            old(self)@.seven_outcome(final(self)@),
            final(self)@.wf(),
    {
        let ghost g0 = self@;
        self.robbery();
        let ghost mid = self@;
        proof {
            lemma_robbery_keeps_wf(g0, mid);
            assert(g0.robbery_result(mid));
        }
        self.handle_knight();
        proof {
            assert(g0.robbery_result(mid) && mid.knight_outcome(self@));
        }
    }

    /// Updates the largest army after player `player_id` played a knight.
    pub fn update_largest_army(&mut self, player_id: usize)
        requires
            old(self)@.wf(),
            player_id < old(self)@.players.len(),
            old(self)@.army_fits(player_id as int),
        ensures
            final(self)@ == old(self)@.army_outcome(player_id as int),
            final(self)@.wf(),
    {
        let ghost g0 = self@;
        assert(self.players@[player_id as int]@ == g0.players[player_id as int]);
        let player_knights = self.players[player_id].knights_played;
        if player_knights < 3 {
            return;
        }
        match self.largest_army_owner {
            None => {
                self.largest_army_owner = Some(player_id);
                self.players[player_id].victory_points += 2;
                proof {
                    assert(self@.players =~= g0.army_outcome(player_id as int).players);
                }
            },
            Some(current_owner) => {
                if current_owner == player_id {
                    return;
                }
                assert(self.players@[current_owner as int]@ == g0.players[current_owner as int]);
                let current_knights = self.players[current_owner].knights_played;
                if player_knights > current_knights {
                    self.players[current_owner].victory_points -= 2;
                    self.players[player_id].victory_points += 2;
                    self.largest_army_owner = Some(player_id);
                    proof {
                        assert(self@.players =~= g0.army_outcome(player_id as int).players);
                    }
                }
            },
        }
    }

    /// Rolls two dice. A seven triggers the robber (see `handle_robber`); any other sum pays
    /// out resources (see `distribute_resources`). Returns the sum.
    pub fn roll_dice(&mut self) -> (total: u8)
        requires
            old(self)@.wf(),
            old(self)@.roll_fits(),
        ensures
            2 <= total <= 12,
            total == 7 ==> old(self)@.seven_outcome(final(self)@),
            total != 7 ==> final(self)@ == old(self)@.harvest(total),
            final(self)@.wf(),
    {
        let die1 = rng::random_range_u8(&mut self.rng, 1, 6);
        let die2 = rng::random_range_u8(&mut self.rng, 1, 6);
        let total = die1 + die2;
        if total == 7 {
            self.handle_robber();
        } else {
            self.distribute_resources(total);
        }
        total
    }

    /// Cards of `resource` player `player_id` must give the bank for one card.
    pub fn maritime_trade_ratio(&mut self, player_id: usize, resource: Resource) -> (ratio: u8)
        requires
            old(self)@.wf(),
            player_id < old(self)@.players.len(),
        ensures
            ratio == old(self)@.trade_ratio(player_id as int, resource),
            final(self)@ == old(self)@,
    {
        let ghost g0 = self@;
        let mut ratio: u8 = 4;
        assert(self.players@[player_id as int]@ == g0.players[player_id as int]);
        let mut i: usize = 0;
        while i < self.harbors.len()
            invariant
                self@ == g0,
                g0.wf(),
                player_id < g0.players.len(),
                i <= g0.harbors.len(),
                forall|j: int| 0 <= j < i ==> !(has_harbor_access(g0.players[player_id as int], #[trigger] g0.harbors[j])
                    && g0.harbors[j].htype == HarborType::Resource(resource)),
                ratio == (if exists|j: int| 0 <= j < i && has_harbor_access(g0.players[player_id as int], #[trigger] g0.harbors[j])
                    && g0.harbors[j].htype == HarborType::Generic { 3u8 } else { 4u8 }),
            decreases g0.harbors.len() - i,
        {
            let harbor = self.harbors[i];
            assert(self.players@[player_id as int]@ == g0.players[player_id as int]);
            let player = &self.players[player_id];
            let has_access = contains_usize(&player.settlements, harbor.loc0) || contains_usize(&player.settlements, harbor.loc1)
                || contains_usize(&player.cities, harbor.loc0) || contains_usize(&player.cities, harbor.loc1);
            assert(has_access == has_harbor_access(g0.players[player_id as int], g0.harbors[i as int]));
            if has_access {
                match harbor.htype {
                    HarborType::Resource(res) => {
                        if res == resource {
                            return 2;
                        }
                    },
                    HarborType::Generic => {
                        ratio = 3;
                    },
                }
            }
            i += 1;
        }
        ratio
    }

    /// Trades `ratio` cards of `offer` with the bank for one card of `request`.
    pub fn maritime_trade(&mut self, player_id: usize, offer: Resource, request: Resource) -> (r: Result<(), &'static str>)
        requires
            old(self)@.wf(),
            player_id < old(self)@.players.len(),
            old(self)@.maritime_trade_fits(player_id as int, offer, request),
        ensures
            (final(self)@, r) == old(self)@.maritime_trade_outcome(player_id as int, offer, request),
            final(self)@.wf(),
    {
        let ghost g0 = self@;
        let ratio = self.maritime_trade_ratio(player_id, offer);
        assert(self.players@[player_id as int]@ == g0.players[player_id as int]);
        let o = offer.index();
        let q = request.index();
        if self.players[player_id].resources[o] < ratio {
            return Err("Not enough resources");
        }
        self.players[player_id].resources[o] -= ratio;
        let ghost g1 = self@;
        assert(g1.players =~= g0.with_count(player_id as int, o as int, g0.count(player_id as int, offer) - ratio).players);
        assert(self.players@[player_id as int]@ == g1.players[player_id as int]);
        self.players[player_id].resources[q] += 1;
        proof {
            let paid = g0.with_count(player_id as int, o as int, g0.count(player_id as int, offer) - ratio);
            assert(self@.players =~= paid.with_count(player_id as int, q as int, paid.count(player_id as int, request) + 1).players);
            lemma_with_count_wf(g0, player_id as int, o as int, g0.count(player_id as int, offer) - ratio);
        }
        Ok(())
    }

    /// A trade both players agreed on: the vendor gives `amount_offer` of `offer` for
    /// `amount_request` of `request` from the customer.
    pub fn player_trade(
        &mut self,
        vendor_id: usize,
        customer_id: usize,
        offer: Resource,
        amount_offer: u8,
        request: Resource,
        amount_request: u8,
    ) -> (r: Result<(), &'static str>)
        requires
            old(self)@.wf(),
            vendor_id != customer_id ==> vendor_id < old(self)@.players.len() && customer_id < old(self)@.players.len(),
            old(self)@.player_trade_fits(vendor_id as int, customer_id as int, offer, amount_offer, request, amount_request),
        ensures
            (final(self)@, r) == old(self)@.player_trade_outcome(vendor_id as int, customer_id as int, offer, amount_offer, request, amount_request),
            final(self)@.wf(),
    {
        let ghost g0 = self@;
        if vendor_id == customer_id {
            return Err("vendor and customer cannot be the same");
        }
        let o = offer.index();
        let q = request.index();
        assert(self.players@[vendor_id as int]@ == g0.players[vendor_id as int]);
        assert(self.players@[customer_id as int]@ == g0.players[customer_id as int]);
        if self.players[vendor_id].resources[o] < amount_offer || self.players[customer_id].resources[q] < amount_request {
            return Err("Not enough resources");
        }
        let ghost v = vendor_id as int;
        let ghost c = customer_id as int;
        let ghost g1 = g0.with_count(v, o as int, g0.count(v, offer) - amount_offer);
        let ghost g2 = g1.with_count(v, q as int, g1.count(v, request) + amount_request);
        let ghost g3 = g2.with_count(c, q as int, g2.count(c, request) - amount_request);
        let ghost g4 = g3.with_count(c, o as int, g3.count(c, offer) + amount_offer);
        self.players[vendor_id].resources[o] -= amount_offer;
        assert(self@.players =~= g1.players);
        assert(self.players@[vendor_id as int]@ == g1.players[v]);
        self.players[vendor_id].resources[q] += amount_request;
        assert(self@.players =~= g2.players);
        assert(self.players@[customer_id as int]@ == g2.players[c]);
        self.players[customer_id].resources[q] -= amount_request;
        assert(self@.players =~= g3.players);
        assert(self.players@[customer_id as int]@ == g3.players[c]);
        self.players[customer_id].resources[o] += amount_offer;
        proof {
            assert(self@.players =~= g4.players);
            lemma_with_count_wf(g0, v, o as int, g0.count(v, offer) - amount_offer);
            lemma_with_count_wf(g1, v, q as int, g1.count(v, request) + amount_request);
            lemma_with_count_wf(g2, c, q as int, g2.count(c, request) - amount_request);
            lemma_with_count_wf(g3, c, o as int, g3.count(c, offer) + amount_offer);
        }
        Ok(())
    }

    /// Some player has a settlement or city on `v`.
    pub fn vertex_occupied(&self, v: usize) -> (b: bool)
        requires
            self@.wf(),
        ensures
            b == self@.occupied(v),
    {
        let n = self.players.len();
        let mut q: usize = 0;
        while q < n
            invariant
                n == self@.players.len(),
                q <= n,
                forall|j: int| 0 <= j < q ==> !(#[trigger] self@.players[j]).owns_building_at(v),
            decreases n - q,
        {
            assert(self.players@[q as int]@ == self@.players[q as int]);
            if contains_usize(&self.players[q].settlements, v) || contains_usize(&self.players[q].cities, v) {
                return true;
            }
            q += 1;
        }
        false
    }

    /// Some player other than `p` has a settlement or city on `v`.
    fn occupied_by_other(&self, p: usize, v: usize) -> (b: bool)
        requires
            self@.wf(),
        ensures
            b == self@.occupied_by_other(p as int, v),
    {
        let n = self.players.len();
        let mut q: usize = 0;
        while q < n
            invariant
                n == self@.players.len(),
                q <= n,
                forall|j: int| 0 <= j < q && j != p ==> !(#[trigger] self@.players[j]).owns_building_at(v),
            decreases n - q,
        {
            assert(self.players@[q as int]@ == self@.players[q as int]);
            if q != p && (contains_usize(&self.players[q].settlements, v) || contains_usize(&self.players[q].cities, v)) {
                return true;
            }
            q += 1;
        }
        false
    }

    /// A neighbor of `v` holds a building.
    fn too_close(&self, v: usize) -> (b: bool)
        requires
            self@.wf(),
            v < self@.vertices.len(),
        ensures
            b == self@.too_close(v),
    {
        assert(self.vertices@[v as int]@ == self@.vertices[v as int]);
        let n = self.vertices[v].neighbors.len();
        let mut i: usize = 0;
        while i < n
            invariant
                self@.wf(),
                v < self@.vertices.len(),
                self.vertices@[v as int]@ == self@.vertices[v as int],
                n == self@.vertices[v as int].neighbors.len(),
                i <= n,
                forall|j: int| 0 <= j < i ==> !self@.occupied(#[trigger] self@.vertices[v as int].neighbors[j]),
            decreases n - i,
        {
            let u = self.vertices[v].neighbors[i];
            if self.vertex_occupied(u) {
                return true;
            }
            i += 1;
        }
        false
    }

    /// Some player has a road between `a` and `b` (given with the smaller vertex first).
    fn road_taken(&self, road: (usize, usize)) -> (b: bool)
        requires
            self@.wf(),
        ensures
            b == exists|q: int| 0 <= q < self@.players.len() && (#[trigger] self@.players[q]).roads.contains(road),
    {
        let n = self.players.len();
        let mut q: usize = 0;
        while q < n
            invariant
                n == self@.players.len(),
                q <= n,
                forall|j: int| 0 <= j < q ==> !(#[trigger] self@.players[j]).roads.contains(road),
            decreases n - q,
        {
            assert(self.players@[q as int]@ == self@.players[q as int]);
            if contains_road(&self.players[q].roads, road) {
                return true;
            }
            q += 1;
        }
        false
    }

    /// Builds a settlement for player `player_id` on `vertex`. The vertex must be free and
    /// no neighbor may hold a building; outside the setup rounds the settlement must touch
    /// one of the player's roads and be paid for (brick, lumber, wool, grain); on the
    /// standard board a player has at most five settlements; during setup a player places
    /// one settlement, then its road.
    pub fn build_settlement(&mut self, player_id: usize, vertex: usize) -> (r: Result<(), &'static str>)
        requires
            old(self)@.wf(),
            old(self)@.settlement_args_ok(player_id as int, vertex),
            old(self)@.settlement_fits(player_id as int, vertex),
        ensures
            (final(self)@, r) == old(self)@.build_settlement_outcome(player_id as int, vertex),
            r is Err || old(self)@.players[player_id as int].id == player_id ==> final(self)@.wf(),
    {
        let ghost g0 = self@;
        let is_setup = match self.game_phase {
            GamePhase::SetupRound1 | GamePhase::SetupRound2 => true,
            _ => false,
        };
        if self.vertex_occupied(vertex) {
            return Err("Vertex is already occupied");
        }
        if self.too_close(vertex) {
            return Err("Too close to another settlement or city");
        }
        let is_standard = self.tiles.len() <= 19;
        assert(self.players@[player_id as int]@ == g0.players[player_id as int]);
        if !is_setup && !has_road_at(&self.players[player_id].roads, vertex) {
            return Err("Settlement must be connected to your road");
        }
        if is_standard && self.players[player_id].settlements.len() >= 5 {
            return Err("Maximum number of settlements reached");
        }
        if is_setup && self.setup_placement != 0 {
            return Err("Must build road after settlement");
        }
        if !is_setup {
            let cost = settlement_cost();
            if !can_afford(&self.players[player_id].resources, &cost) {
                return Err("Not enough resources");
            }
            pay(&mut self.players[player_id].resources, &cost);
        }
        self.players[player_id].settlements.push(vertex);
        self.players[player_id].victory_points += 1;
        if is_setup {
            self.players[player_id].last_setup_settlement = Some(vertex);
            self.setup_placement = 1;
        }
        proof {
            let post = g0.build_settlement_outcome(player_id as int, vertex).0;
            assert(self@.players[player_id as int] =~= post.players[player_id as int]);
            assert(self@.players =~= post.players);
            assert(!g0.players[player_id as int].settlements.contains(vertex));
            if g0.players[player_id as int].id == player_id {
                lemma_player_update_wf(g0, player_id as int, post.players[player_id as int]);
            }
        }
        Ok(())
    }

    /// Upgrades player `player_id`'s settlement on `vertex` to a city, for two grain and
    /// three ore; on the standard board a player has at most four cities.
    pub fn build_city(&mut self, player_id: usize, vertex: usize) -> (r: Result<(), &'static str>)
        requires
            old(self)@.wf(),
            old(self)@.occupied_by_other(player_id as int, vertex) || player_id < old(self)@.players.len(),
            old(self)@.city_fits(player_id as int, vertex),
        ensures
            (final(self)@, r) == old(self)@.build_city_outcome(player_id as int, vertex),
            final(self)@.wf(),
    {
        let ghost g0 = self@;
        if self.occupied_by_other(player_id, vertex) {
            return Err("This vertex is already occupied by another player");
        }
        let is_standard = self.tiles.len() <= 19;
        assert(self.players@[player_id as int]@ == g0.players[player_id as int]);
        if !contains_usize(&self.players[player_id].settlements, vertex) {
            return Err("No settlement to upgrade on this vertex");
        }
        if contains_usize(&self.players[player_id].cities, vertex) {
            return Err("City already exists on this vertex");
        }
        if is_standard && self.players[player_id].cities.len() >= 4 {
            return Err("Maximum number of cities reached");
        }
        let cost = city_cost();
        if !can_afford(&self.players[player_id].resources, &cost) {
            return Err("Not enough resources");
        }
        pay(&mut self.players[player_id].resources, &cost);
        remove_usize(&mut self.players[player_id].settlements, vertex);
        self.players[player_id].cities.push(vertex);
        self.players[player_id].victory_points += 1;
        proof {
            let post = g0.build_city_outcome(player_id as int, vertex).0;
            assert(self@.players[player_id as int] =~= post.players[player_id as int]);
            assert(self@.players =~= post.players);
            lemma_remove_value_no_dup(g0.players[player_id as int].settlements, vertex);
            lemma_player_update_wf(g0, player_id as int, post.players[player_id as int]);
        }
        Ok(())
    }

    /// Length of the longest trail of roads of player `player_id`, over all starting
    /// points, driving no road twice.
    pub fn longest_road_for_player(&self, player_id: usize) -> (n: usize)
        requires
            self@.wf(),
            player_id < self@.players.len(),
        ensures
            n == longest_road_len(self@.players[player_id as int].roads),
            n <= self@.players[player_id as int].roads.len(),
    {
        assert(self.players@[player_id as int]@ == self@.players[player_id as int]);
        longest_road(&self.players[player_id].roads)
    }

    /// Updates the longest road award after player `player_id` built a road.
    pub fn update_longest_road(&mut self, player_id: usize)
        requires
            old(self)@.wf(),
            player_id < old(self)@.players.len(),
            old(self)@.road_award_fits(player_id as int),
        ensures
            final(self)@ == old(self)@.road_award_outcome(player_id as int),
            final(self)@.wf(),
    {
        let ghost g0 = self@;
        let road_length = self.longest_road_for_player(player_id);
        if road_length < 5 {
            return;
        }
        assert(self.players@[player_id as int]@ == g0.players[player_id as int]);
        match self.longest_road_owner {
            None => {
                self.longest_road_owner = Some(player_id);
                self.players[player_id].victory_points += 2;
                self.longest_road_length = road_length;
                proof {
                    assert(self@.players =~= g0.road_award_outcome(player_id as int).players);
                }
            },
            Some(owner) => {
                if owner != player_id && road_length > self.longest_road_length {
                    assert(self.players@[owner as int]@ == g0.players[owner as int]);
                    self.players[owner].victory_points -= 2;
                    self.players[player_id].victory_points += 2;
                    self.longest_road_owner = Some(player_id);
                    self.longest_road_length = road_length;
                    proof {
                        assert(self@.players =~= g0.road_award_outcome(player_id as int).players);
                    }
                } else {
                    if owner == player_id {
                        self.longest_road_length = road_length;
                    }
                }
            },
        }
    }

    /// The road between `a` and `b`, with the smaller vertex first, so that `(a, b)` and
    /// `(b, a)` name the same road.
    pub fn normalize_road(a: usize, b: usize) -> (r: (usize, usize))
        ensures
            r == road_between(a, b),
    {
        if a < b {
            (a, b)
        } else {
            (b, a)
        }
    }

    /// Builds a road for player `player_id` between the adjacent vertices `a` and `b`. The
    /// road must touch the player's buildings or roads and must not exist yet; outside the
    /// setup rounds it costs a brick and a lumber; on the standard board a player has at
    /// most fifteen roads; during setup it must touch the settlement just placed, and the
    /// turn order of the setup rounds advances.
    pub fn build_road(&mut self, player_id: usize, a: usize, b: usize) -> (r: Result<(), &'static str>)
        requires
            old(self)@.wf(),
            player_id < old(self)@.players.len(),
            a < old(self)@.vertices.len(),
            old(self)@.road_fits(player_id as int, a, b),
        ensures
            (final(self)@, r) == old(self)@.build_road_outcome(player_id as int, a, b),
            final(self)@.wf(),
    {
        let ghost g0 = self@;
        let is_setup = match self.game_phase {
            GamePhase::SetupRound1 | GamePhase::SetupRound2 => true,
            _ => false,
        };
        assert(self.vertices@[a as int]@ == g0.vertices[a as int]);
        assert(self.players@[player_id as int]@ == g0.players[player_id as int]);
        if !contains_usize(&self.vertices[a].neighbors, b) {
            return Err("Vertices not adjacent");
        }
        let connected = {
            let player = &self.players[player_id];
            contains_usize(&player.settlements, a) || contains_usize(&player.cities, a) || has_road_at(&player.roads, a)
                || contains_usize(&player.settlements, b) || contains_usize(&player.cities, b) || has_road_at(&player.roads, b)
        };
        assert(connected == GameView::road_connected(g0.players[player_id as int], a, b));
        if !connected {
            return Err("Road must be connected to your existing infrastructure (settlement, city, or road)");
        }
        let road = Game::normalize_road(a, b);
        assert(road == road_between(a, b));
        let taken = self.road_taken(road);
        assert(taken == g0.road_taken(a, b));
        if taken {
            return Err("Road already exists");
        }
        let is_standard = self.tiles.len() <= 19;
        if is_standard && self.players[player_id].roads.len() >= 15 {
            return Err("Maximum number of roads reached");
        }
        if is_setup {
            match self.players[player_id].last_setup_settlement {
                None => {
                    return Err("Must place settlement before road");
                },
                Some(settlement) => {
                    if a != settlement && b != settlement {
                        return Err("Road must connect to the placed settlement");
                    }
                },
            }
        }
        if !is_setup {
            let cost = road_cost();
            if !can_afford(&self.players[player_id].resources, &cost) {
                return Err("Not enough resources");
            }
            pay(&mut self.players[player_id].resources, &cost);
        }
        self.players[player_id].roads.push(road);
        proof {
            let laid = g0.road_laid(player_id as int, a, b);
            assert(self@.players[player_id as int] =~= laid.players[player_id as int]);
            assert(self@.players =~= laid.players);
            assert(!g0.players[player_id as int].roads.contains(road));
            lemma_player_update_wf(g0, player_id as int, laid.players[player_id as int]);
            assert(self@ == laid);
        }
        self.update_longest_road(player_id);
        if is_setup {
            self.setup_placement += 1;
            if self.setup_placement == 1 {
                return Ok(());
            }
            self.setup_placement = 0;
            let count = self.players.len();
            match self.game_phase {
                GamePhase::SetupRound1 => {
                    self.current_player += 1;
                    if self.current_player == count {
                        self.current_player -= 1;
                        self.game_phase = GamePhase::SetupRound2;
                    }
                },
                GamePhase::SetupRound2 => {
                    if self.current_player == 0 {
                        self.game_phase = GamePhase::NormalPlay;
                    } else {
                        self.current_player -= 1;
                    }
                },
                _ => {},
            }
        }
        Ok(())
    }

    /// Buys a development card for wool, grain and ore. The card comes from the top of the
    /// pool; a victory point card can be played at once, any other from the next turn on.
    pub fn buy_dev_card(&mut self, player_id: usize) -> (r: Result<(), &'static str>)
        requires
            old(self)@.wf(),
            player_id < old(self)@.players.len(),
        ensures
            (final(self)@, r) == old(self)@.buy_dev_card_outcome(player_id as int),
            final(self)@.wf(),
    {
        let ghost g0 = self@;
        assert(self.players@[player_id as int]@ == g0.players[player_id as int]);
        let cost = dev_card_cost();
        if !can_afford(&self.players[player_id].resources, &cost) {
            return Err("Not enough resources");
        }
        pay(&mut self.players[player_id].resources, &cost);
        let ghost g1 = self@;
        proof {
            let paid_players = g0.players.update(player_id as int, PlayerView {
                resources: paid(g0.players[player_id as int].resources, dev_card_price()),
                ..g0.players[player_id as int]
            });
            assert(g1.players =~= paid_players);
            lemma_player_update_wf(g0, player_id as int, paid_players[player_id as int]);
        }
        match self.dev_card_pool.pop() {
            None => {
                return Err("Dev card pool is depleted");
            },
            Some(new_dev_card) => {
                let age: usize = match new_dev_card {
                    DevCard::VictoryPoint => 1,
                    _ => 0,
                };
                self.players[player_id].dev_cards.push(DevCardInstance { card: new_dev_card, age });
                proof {
                    let post = g0.buy_dev_card_outcome(player_id as int).0;
                    assert(self@.players[player_id as int] =~= post.players[player_id as int]);
                    assert(self@.players =~= post.players);
                    lemma_player_update_wf(g1, player_id as int, post.players[player_id as int]);
                }
            },
        }
        Ok(())
    }

    /// Monopoly on ore for player `player_id`: every other player's ore goes to them.
    fn monopoly(&mut self, player_id: usize)
        requires
            old(self)@.wf(),
            player_id < old(self)@.players.len(),
            forall|n: int| 0 <= n <= old(self)@.players.len() ==> #[trigger] old(self)@.others_ore(player_id as int, n) <= 255,
            old(self)@.count(player_id as int, Resource::Ore) + old(self)@.others_ore(player_id as int, old(self)@.players.len() as int) <= 255,
        ensures
            final(self)@ == old(self)@.monopoly_outcome(player_id as int),
            final(self)@.wf(),
    {
        let ghost g0 = self@;
        let ore = Resource::Ore.index();
        let n = self.players.len();
        let mut acquired: u8 = 0;
        let mut q: usize = 0;
        while q < n
            invariant
                n == g0.players.len(),
                q <= n,
                ore == Resource::Ore.slot(),
                player_id < n,
                g0.wf(),
                forall|m: int| 0 <= m <= g0.players.len() ==> #[trigger] g0.others_ore(player_id as int, m) <= 255,
                acquired == g0.others_ore(player_id as int, q as int),
                self@ == (GameView { players: self@.players, ..g0 }),
                self@.players.len() == n,
                forall|k: int| 0 <= k < n ==> #[trigger] self@.players[k] == (if k < q && k != player_id {
                    PlayerView { resources: g0.players[k].resources.update(ore as int, 0u8), ..g0.players[k] }
                } else {
                    g0.players[k]
                }),
            decreases n - q,
        {
            if q != player_id {
                let ghost before = self.players@;
                let ghost before_view = self@;
                assert(self@.players[q as int] == g0.players[q as int]);
                assert(self.players@[q as int]@ == g0.players[q as int]);
                let amount = self.players[q].resources[ore];
                self.players[q].resources[ore] = 0;
                assert(g0.others_ore(player_id as int, q + 1) == g0.others_ore(player_id as int, q as int) + amount);
                acquired = acquired + amount;
                proof {
                    assert(self@.players[q as int] =~= PlayerView { resources: g0.players[q as int].resources.update(ore as int, 0u8), ..g0.players[q as int] });
                    assert forall|k: int| 0 <= k < n implies #[trigger] self@.players[k] == (if k < q + 1 && k != player_id {
                        PlayerView { resources: g0.players[k].resources.update(ore as int, 0u8), ..g0.players[k] }
                    } else {
                        g0.players[k]
                    }) by {
                        assert(self@.players[k] == self.players@[k]@);
                        if k != q {
                            assert(self.players@[k] == before[k]);
                            assert(before_view.players[k] == before[k]@);
                        }
                    }
                }
            }
            q += 1;
        }
        assert(self@.players[player_id as int] == g0.players[player_id as int]);
        assert(self.players@[player_id as int]@ == g0.players[player_id as int]);
        let ghost before = self.players@;
        let ghost before_view = self@;
        self.players[player_id].resources[ore] += acquired;
        proof {
            let post = g0.monopoly_outcome(player_id as int);
            assert forall|k: int| 0 <= k < n implies #[trigger] self@.players[k] == post.players[k] by {
                assert(self@.players[k] == self.players@[k]@);
                if k != player_id {
                    assert(self.players@[k] == before[k]);
                    assert(before_view.players[k] == before[k]@);
                    assert(before_view.players[k] == PlayerView { resources: g0.players[k].resources.update(ore as int, 0u8), ..g0.players[k] });
                }
                if k == player_id {
                    assert(self@.players[k].resources =~= post.players[k].resources);
                } else {
                    assert(self@.players[k].resources =~= post.players[k].resources);
                }
            }
            assert(self@.players =~= post.players);
            assert forall|k: int| 0 <= k < n implies (#[trigger] post.players[k]).wf() && post.players[k].seated(k) by {
                assert(g0.players[k].wf());
                assert(g0.players[k].seated(k));
            }
        }
    }

    /// Adds `n` cards of `r` to player `p`'s hand.
    fn give(&mut self, p: usize, r: Resource, n: u8)
        requires
            old(self)@.wf(),
            p < old(self)@.players.len(),
            old(self)@.count(p as int, r) + n <= 255,
        ensures
            final(self)@ == old(self)@.with_more(p as int, r, n as int),
            final(self)@.wf(),
    {
        let ghost g0 = self@;
        assert(self.players@[p as int]@ == g0.players[p as int]);
        let k = r.index();
        self.players[p].resources[k] += n;
        proof {
            assert(self@.players =~= g0.with_more(p as int, r, n as int).players);
            lemma_with_count_wf(g0, p as int, k as int, g0.count(p as int, r) + n);
        }
    }

    /// Plays player `player_id`'s development card number `card_id` (only in normal play, and
    /// not in the turn it was bought). A knight moves the robber (see `handle_knight`) and
    /// counts for the largest army; a victory point card scores a point; a monopoly takes
    /// every other player's ore; road building gives two lumber and two brick and builds the
    /// roads 1-2 and 2-3; year of plenty gives an ore and a wool.
    pub fn play_dev_card(&mut self, player_id: usize, card_id: usize) -> (r: Result<(), &'static str>)
        requires
            old(self)@.wf(),
            player_id < old(self)@.players.len(),
            old(self)@.play_fits(player_id as int, card_id as int),
        ensures
            old(self)@.play_dev_card_result(player_id as int, card_id as int, final(self)@, r),
            final(self)@.wf(),
    {
        let ghost g0 = self@;
        assert(self.players@[player_id as int]@ == g0.players[player_id as int]);
        let normal = match self.game_phase {
            GamePhase::NormalPlay => true,
            _ => false,
        };
        if !normal {
            return Err("Cannot play dev cards during setup");
        }
        if card_id >= self.players[player_id].dev_cards.len() {
            return Err("Invalid dev card index");
        }
        if self.players[player_id].dev_cards[card_id].age < 1 {
            return Err("Cannot use this card yet");
        }
        let chosen_card = self.players[player_id].dev_cards.remove(card_id);
        let ghost g1 = self@;
        proof {
            assert(g1.players =~= g0.card_removed(player_id as int, card_id as int).players);
            lemma_player_update_wf(g0, player_id as int, g1.players[player_id as int]);
        }
        match chosen_card.card {
            DevCard::Knight => {
                assert(self.players@[player_id as int]@ == g1.players[player_id as int]);
                self.players[player_id].knights_played += 1;
                let ghost g2 = self@;
                proof {
                    assert(g2.players =~= g1.with_knight(player_id as int).players);
                    lemma_player_update_wf(g1, player_id as int, g2.players[player_id as int]);
                }
                let _count = self.players.len();
                self.handle_knight();
                let ghost mid = self@;
                proof {
                    g2.lemma_knight_moves_cards_only(mid);
                    assert(mid.players[player_id as int] == (PlayerView {
                        resources: mid.players[player_id as int].resources,
                        ..g2.players[player_id as int]
                    }));
                    if let Some(o) = g2.largest_army_owner {
                        assert(mid.players[o as int] == (PlayerView { resources: mid.players[o as int].resources, ..g2.players[o as int] }));
                    }
                }
                self.update_largest_army(player_id);
            },
            DevCard::VictoryPoint => {
                assert(self.players@[player_id as int]@ == g1.players[player_id as int]);
                self.players[player_id].victory_points += 1;
                proof {
                    assert(self@.players =~= g1.with_point(player_id as int).players);
                    lemma_player_update_wf(g1, player_id as int, self@.players[player_id as int]);
                }
            },
            DevCard::Monopoly => {
                proof {
                    assert forall|i: int| 0 <= i < g0.players.len() implies (#[trigger] g0.players[i]).resources == g1.players[i].resources by {}
                    assert forall|m: int| 0 <= m <= g1.players.len() implies #[trigger] g1.others_ore(player_id as int, m) <= 255 by {
                        g0.lemma_others_ore_reads_hands(g1, player_id as int, m);
                    }
                    g0.lemma_others_ore_reads_hands(g1, player_id as int, g0.players.len() as int);
                }
                self.monopoly(player_id);
            },
            DevCard::RoadBuilding => {
                self.give(player_id, Resource::Lumber, 2);
                self.give(player_id, Resource::Brick, 2);
                let first = self.build_road(player_id, 1, 2);
                if first.is_err() {
                    return first;
                }
                return self.build_road(player_id, 2, 3);
            },
            DevCard::YearOfPlenty => {
                self.give(player_id, Resource::Ore, 1);
                self.give(player_id, Resource::Wool, 1);
            },
        }
        Ok(())
    }

    /// Seats one more player at the end of the table. The newcomer owns nothing, so a
    /// consistent game stays consistent whatever their number.
    pub fn add_player(&mut self, id: usize, name: &str)
        ensures
            final(self)@ == (GameView { players: old(self)@.players.push(new_player(id, name@)), ..old(self)@ }),
            old(self)@.wf() ==> final(self)@.wf(),
    {
        let p = Player::new(id, name);
        self.players.push(p);
        proof {
            assert(self@.players =~= old(self)@.players.push(new_player(id, name@)));
            if old(self)@.wf() {
                let g = self@;
                assert(self.players@.len() == self.players.len());
                assert forall|i: int| 0 <= i < g.players.len() implies (#[trigger] g.players[i]).wf() && g.players[i].seated(i) by {
                    if i < old(self)@.players.len() {
                        assert(g.players[i] == old(self)@.players[i]);
                    } else {
                        assert(g.players[i] == new_player(id, name@));
                        assert(new_player(id, name@).resources.len() == RESOURCE_KINDS);
                    }
                }
            }
        }
    }

    /// Whether the game is consistent: every player numbered by their seat unless they own
    /// no buildings, hands with a slot per resource, no building or road recorded twice, and the current player and the award
    /// holders seated at the table.
    pub fn is_well_formed(&self) -> (b: bool)
        ensures
            b == self@.wf(),
    {
        let n = self.players.len();
        if n == 0 {
            return false;
        }
        let mut i: usize = 0;
        while i < n
            invariant
                n == self@.players.len(),
                i <= n,
                forall|j: int| 0 <= j < i ==> (#[trigger] self@.players[j]).seated(j) && self@.players[j].wf(),
            decreases n - i,
        {
            let p = &self.players[i];
            assert(self.players@[i as int]@ == self@.players[i as int]);
            if (p.id != i && (p.settlements.len() != 0 || p.cities.len() != 0)) || p.resources.len() != RESOURCE_KINDS || !no_dup_usize(&p.settlements)
                || !no_dup_usize(&p.cities) || !no_dup_roads(&p.roads) {
                return false;
            }
            i += 1;
        }
        if self.current_player >= n {
            return false;
        }
        if let Some(o) = self.largest_army_owner {
            if o >= n {
                return false;
            }
        }
        if let Some(o) = self.longest_road_owner {
            if o >= n {
                return false;
            }
        }
        true
    }

    /// Whether every development card can still grow one turn older.
    pub fn can_age_cards(&self) -> (b: bool)
        ensures
            b == self@.cards_can_age(),
    {
        let n = self.players.len();
        let mut i: usize = 0;
        while i < n
            invariant
                n == self@.players.len(),
                i <= n,
                forall|q: int| 0 <= q < i ==> (#[trigger] self@.players[q]).cards_can_age(),
            decreases n - i,
        {
            assert(self.players@[i as int]@ == self@.players[i as int]);
            let m = self.players[i].dev_cards.len();
            let mut j: usize = 0;
            while j < m
                invariant
                    n == self@.players.len(),
                    i < n,
                    self.players@[i as int]@ == self@.players[i as int],
                    m == self@.players[i as int].dev_cards.len(),
                    j <= m,
                    forall|k: int| 0 <= k < j ==> (#[trigger] self@.players[i as int].dev_cards[k]).age < usize::MAX,
                decreases m - j,
            {
                if self.players[i].dev_cards[j].age == usize::MAX {
                    assert(!self@.players[i as int].cards_can_age());
                    return false;
                }
                j += 1;
            }
            i += 1;
        }
        true
    }

    /// The players, in seat order.
    pub fn players(&self) -> (r: &Vec<Player>)
        ensures
            r@.map_values(|p: Player| p@) == self@.players,
    {
        &self.players
    }

    /// The vertices of the board.
    pub fn vertices(&self) -> (r: &Vec<Vertex>)
        ensures
            r@.map_values(|v: Vertex| v@) == self@.vertices,
    {
        &self.vertices
    }

    /// The tiles of the board.
    pub fn tiles(&self) -> (r: &Vec<Tile>)
        ensures
            r@ == self@.tiles,
    {
        &self.tiles
    }

    /// The harbors of the board.
    pub fn harbors(&self) -> (r: &Vec<Harbor>)
        ensures
            r@ == self@.harbors,
    {
        &self.harbors
    }

    /// Who holds the longest road, if anybody.
    pub fn longest_road_holder(&self) -> (o: Option<usize>)
        ensures
            o == self@.longest_road_owner,
    {
        self.longest_road_owner
    }

    /// Who holds the largest army, if anybody.
    pub fn largest_army_holder(&self) -> (o: Option<usize>)
        ensures
            o == self@.largest_army_owner,
    {
        self.largest_army_owner
    }

    /// Whose turn it is.
    pub fn current(&self) -> (c: usize)
        ensures
            c == self@.current_player,
    {
        self.current_player
    }

    /// Number of players.
    pub fn player_count(&self) -> (n: usize)
        ensures
            n == self@.players.len(),
    {
        self.players.len()
    }

    /// Number of vertices of the board.
    pub fn vertex_count(&self) -> (n: usize)
        ensures
            n == self@.vertices.len(),
    {
        self.vertices.len()
    }

    /// Whether no build, upgrade or award can push a count out of range (see
    /// `within_build_limits`).
    pub fn build_limits_ok(&self) -> (ok: bool)
        requires
            self@.wf(),
        ensures
            ok == self@.within_build_limits(),
    {
        let n = self.players.len();
        let mut i: usize = 0;
        while i < n
            invariant
                n == self@.players.len(),
                i <= n,
                forall|q: int| 0 <= q < i ==> #[trigger] self@.players[q].victory_points <= 253,
            decreases n - i,
        {
            assert(self.players@[i as int]@ == self@.players[i as int]);
            if self.players[i].victory_points > 253 {
                assert(self@.players[i as int].victory_points > 253);
                return false;
            }
            i += 1;
        }
        if self.setup_placement == 255 {
            return false;
        }
        if let Some(o) = self.largest_army_owner {
            assert(self.players@[o as int]@ == self@.players[o as int]);
            if self.players[o].victory_points < 2 {
                return false;
            }
        }
        if let Some(o) = self.longest_road_owner {
            assert(self.players@[o as int]@ == self@.players[o as int]);
            if self.players[o].victory_points < 2 {
                return false;
            }
        }
        true
    }

    /// Whether the harvest of `roll` leaves player `p` with at most 255 cards of slot `k`.
    fn harvest_fits_for(&self, p: usize, k: usize, roll: u8) -> (ok: bool)
        requires
            self@.wf(),
            p < self@.players.len(),
            k < RESOURCE_KINDS,
        ensures
            ok == (self@.players[p as int].resources[k as int] + self@.gain(p as int, k as int, roll, self@.tiles.len() as int) <= 255),
    {
        let ghost g = self@;
        assert(self.players@[p as int]@ == g.players[p as int]);
        assert(g.players[p as int].wf());
        let mut total: u64 = self.players[p].resources[k] as u64;
        let nt = self.tiles.len();
        let mut i: usize = 0;
        while i < nt
            invariant
                g == self@,
                nt == g.tiles.len(),
                i <= nt,
                p < g.players.len(),
                k < RESOURCE_KINDS,
                g.players[p as int].resources.len() == RESOURCE_KINDS,
                total == g.players[p as int].resources[k as int] + g.gain(p as int, k as int, roll, i as int),
                total <= 255,
            decreases nt - i,
        {
            let tile = self.tiles[i];
            let produces = match tile.number_token {
                Some(n) => n == roll,
                None => false,
            } && i != self.robber_tile;
            assert(tile == g.tiles[i as int]);
            assert(produces == g.produces(i as int, roll));
            let slot = tile.resource.index();
            if produces && slot == k {
                let mut c: usize = 0;
                while c < 6
                    invariant
                        g == self@,
                        i < nt,
                        nt == g.tiles.len(),
                        c <= 6,
                        p < g.players.len(),
                        k < RESOURCE_KINDS,
                        g.players[p as int].resources.len() == RESOURCE_KINDS,
                        tile == g.tiles[i as int],
                        g.produces(i as int, roll),
                        tile.resource.slot() == k,
                        total == g.players[p as int].resources[k as int] + g.gain(p as int, k as int, roll, i as int)
                            + yield_upto(g.players[p as int], tile, c as int),
                        total <= 255,
                    decreases 6 - c,
                {
                    let v = tile.vertices[c];
                    assert(self.players@[p as int]@ == g.players[p as int]);
                    let has_settlement = contains_usize(&self.players[p].settlements, v);
                    let has_city = contains_usize(&self.players[p].cities, v);
                    let amount: u64 = (if has_settlement { 1u64 } else { 0u64 }) + (if has_city { 2u64 } else { 0u64 });
                    assert(amount == corner_yield(g.players[p as int], v));
                    total = total + amount;
                    if total > 255 {
                        proof {
                            lemma_yield_upto_monotone(g.players[p as int], tile, c + 1, 6);
                            lemma_gain_monotone(g, p as int, k as int, roll, i + 1, g.tiles.len() as int);
                            assert(yield_upto(g.players[p as int], tile, c + 1) == yield_upto(g.players[p as int], tile, c as int) + corner_yield(g.players[p as int], v));
                            assert(g.gain(p as int, k as int, roll, i + 1) == g.gain(p as int, k as int, roll, i as int) + yield_upto(g.players[p as int], tile, 6));
                        }
                        return false;
                    }
                    c += 1;
                }
                assert(g.gain(p as int, k as int, roll, i + 1) == g.gain(p as int, k as int, roll, i as int) + yield_upto(g.players[p as int], tile, 6));
            } else {
                assert(g.gain(p as int, k as int, roll, i + 1) == g.gain(p as int, k as int, roll, i as int));
            }
            i += 1;
        }
        true
    }

    /// Whether the harvest of `roll` keeps every count of every hand within a `u8`.
    pub fn harvest_fits_now(&self, roll: u8) -> (ok: bool)
        requires
            self@.wf(),
        ensures
            ok == self@.harvest_fits(roll),
    {
        let n = self.players.len();
        let mut p: usize = 0;
        while p < n
            invariant
                self@.wf(),
                n == self@.players.len(),
                p <= n,
                forall|q: int, k: int| 0 <= q < p && 0 <= k < RESOURCE_KINDS ==>
                    self@.players[q].resources[k] + #[trigger] self@.gain(q, k, roll, self@.tiles.len() as int) <= 255,
            decreases n - p,
        {
            let mut k: usize = 0;
            while k < RESOURCE_KINDS
                invariant
                    self@.wf(),
                    n == self@.players.len(),
                    p < n,
                    k <= RESOURCE_KINDS,
                    forall|q: int, j: int| 0 <= q < p && 0 <= j < RESOURCE_KINDS ==>
                        self@.players[q].resources[j] + #[trigger] self@.gain(q, j, roll, self@.tiles.len() as int) <= 255,
                    forall|j: int| 0 <= j < k ==>
                        self@.players[p as int].resources[j] + #[trigger] self@.gain(p as int, j, roll, self@.tiles.len() as int) <= 255,
                decreases RESOURCE_KINDS - k,
            {
                if !self.harvest_fits_for(p, k, roll) {
                    return false;
                }
                k += 1;
            }
            p += 1;
        }
        true
    }

    /// Whether a roll of the dice keeps every count within range (see `within_roll_limits`).
    pub fn can_roll(&self) -> (ok: bool)
        requires
            self@.wf(),
        ensures
            ok == self@.within_roll_limits(),
    {
        let ghost g = self@;
        let mut roll: u8 = 2;
        while roll <= 12
            invariant
                g == self@,
                g.wf(),
                2 <= roll <= 13,
                forall|r: u8| 2 <= r < roll && r != 7 ==> #[trigger] g.harvest_fits(r),
            decreases 13 - roll,
        {
            if roll != 7 && !self.harvest_fits_now(roll) {
                return false;
            }
            roll += 1;
        }
        let n = self.players.len();
        let mut p: usize = 0;
        while p < n
            invariant
                g == self@,
                g.wf(),
                n == g.players.len(),
                p <= n,
                forall|q: int| 0 <= q < p ==> hand_total(#[trigger] g.players[q].resources) <= 255,
            decreases n - p,
        {
            assert(self.players@[p as int]@ == g.players[p as int]);
            assert(g.players[p as int].wf());
            let h = &self.players[p].resources;
            let total: u64 = h[0] as u64 + h[1] as u64 + h[2] as u64 + h[3] as u64 + h[4] as u64 + h[5] as u64;
            proof {
                let s = g.players[p as int].resources;
                reveal_with_fuel(hand_total, 7);
                assert(s.drop_last().drop_last().drop_last().drop_last().drop_last().drop_last().len() == 0);
                assert(hand_total(s) == s[0] + s[1] + s[2] + s[3] + s[4] + s[5]);
            }
            if total > 255 {
                return false;
            }
            p += 1;
        }
        let nt = self.tiles.len();
        if !(nt >= 2 || (nt == 1 && self.robber_tile != 0)) {
            return false;
        }
        let cur = self.current_player;
        assert(self.players@[cur as int]@ == g.players[cur as int]);
        assert(g.players[cur as int].wf());
        let mut k: usize = 0;
        while k < RESOURCE_KINDS
            invariant
                g == self@,
                g.wf(),
                cur == g.current_player,
                k <= RESOURCE_KINDS,
                self.players@[cur as int]@ == g.players[cur as int],
                g.players[cur as int].resources.len() == RESOURCE_KINDS,
                forall|j: int| 0 <= j < k ==> #[trigger] g.players[cur as int].resources[j] < 255,
            decreases RESOURCE_KINDS - k,
        {
            if self.players[cur].resources[k] == 255 {
                return false;
            }
            k += 1;
        }
        true
    }

    /// The current player, if they have reached 10 victory points.
    pub fn check_for_winner(&self) -> (w: Option<usize>)
        requires
            self@.wf(),
        ensures
            w == self@.winner(),
    {
        let current = &self.players[self.current_player];
        if current.victory_points >= 10 {
            Some(current.id)
        } else {
            None
        }
    }

    /// Moves to the next phase of the turn; after `EndTurn` the next player's turn begins.
    pub fn next_phase(&mut self)
        requires
            old(self)@.wf(),
            old(self)@.cards_can_age(),
        ensures
            final(self)@ == old(self)@.after_next_phase(),
            final(self)@.wf(),
    {
        match self.turn_phase {
            TurnPhase::RollResources => {
                self.turn_phase = TurnPhase::Trade;
            },
            TurnPhase::Trade => {
                self.turn_phase = TurnPhase::Build;
            },
            TurnPhase::Build => {
                self.turn_phase = TurnPhase::EndTurn;
            },
            TurnPhase::EndTurn => {
                self.next_turn();
                self.turn_phase = TurnPhase::RollResources;
            },
        }
    }

    /// The current player starts their turn by rolling.
    pub fn start_turn(&mut self)
        ensures
            final(self)@ == (GameView { turn_phase: TurnPhase::RollResources, ..old(self)@ }),
    {
        self.turn_phase = TurnPhase::RollResources;
    }

    /// The current player ends their turn.
    pub fn end_turn(&mut self)
        ensures
            final(self)@ == (GameView { turn_phase: TurnPhase::EndTurn, ..old(self)@ }),
    {
        self.turn_phase = TurnPhase::EndTurn;
    }

    /// Gives the turn to the next player and ages every development card by one turn.
    pub fn next_turn(&mut self)
        requires
            old(self)@.wf(),
            old(self)@.cards_can_age(),
        ensures
            final(self)@ == old(self)@.after_next_turn(),
            final(self)@.wf(),
    {
        let ghost g0 = self@;
        let count: usize = self.players.len();
        self.current_player = (self.current_player + 1) % count;
        self.start_turn();
        let n = self.players.len();
        let mut i: usize = 0;
        while i < n
            invariant
                n == self.players@.len(),
                n == g0.players.len(),
                i <= n,
                g0.cards_can_age(),
                self@ == (GameView {
                    current_player: ((g0.current_player + 1) % (g0.players.len() as int)) as usize,
                    turn_phase: TurnPhase::RollResources,
                    players: Seq::new(n as nat, |k: int| if k < i { g0.players[k].with_cards_aged() } else { g0.players[k] }),
                    ..g0
                }),
            decreases n - i,
        {
            let ghost before = self.players@;
            let ghost before_view = self@;
            let m = self.players[i].dev_cards.len();
            let mut j: usize = 0;
            assert(self@.players[i as int] == g0.players[i as int]);
            assert(self.players@[i as int]@ == g0.players[i as int]);
            while j < m
                invariant
                    i < n,
                    n == self.players@.len(),
                    m == self.players@[i as int].dev_cards@.len(),
                    j <= m,
                    g0.players[i as int].cards_can_age(),
                    m == g0.players[i as int].dev_cards.len(),
                    forall|k: int| 0 <= k < n && k != i ==> self.players@[k] == before[k],
                    self@ == (GameView { players: self@.players, ..before_view }),
                    self.players@[i as int]@ == (PlayerView {
                        dev_cards: Seq::new(m as nat, |k: int| if k < j { aged(g0.players[i as int].dev_cards[k]) } else { g0.players[i as int].dev_cards[k] }),
                        ..g0.players[i as int]
                    }),
                decreases m - j,
            {
                assert(g0.players[i as int].dev_cards[j as int].age < usize::MAX);
                self.players[i].dev_cards[j].age += 1;
                proof {
                    assert(self.players@[i as int]@.dev_cards =~= Seq::new(m as nat, |k: int| if k < j + 1 { aged(g0.players[i as int].dev_cards[k]) } else { g0.players[i as int].dev_cards[k] }));
                }
                j += 1;
            }
            proof {
                assert(self.players@[i as int]@.dev_cards =~= g0.players[i as int].with_cards_aged().dev_cards);
                assert(self.players@[i as int]@ == g0.players[i as int].with_cards_aged());
                assert forall|k: int| 0 <= k < n implies #[trigger] self@.players[k] == (if k < i + 1 { g0.players[k].with_cards_aged() } else { g0.players[k] }) by {
                    if k != i {
                        assert(self.players@[k] == before[k]);
                        assert(before_view.players[k] == before[k]@);
                    }
                }
                assert(self@.players =~= Seq::new(n as nat, |k: int| if k < i + 1 { g0.players[k].with_cards_aged() } else { g0.players[k] }));
            }
            i += 1;
        }
        proof {
            assert(self@.players =~= g0.players.map_values(|p: PlayerView| p.with_cards_aged()));
        }
    }
}


proof fn lemma_robbery_keeps_wf(g: GameView, r: GameView)
    requires
        g.wf(),
        g.robbery_result(r),
    ensures
        r.wf(),
        r.robber_can_move() == g.robber_can_move(),
{
    assert forall|i: int| 0 <= i < r.players.len() implies (#[trigger] r.players[i]).wf() && r.players[i].seated(i) by {
        assert(g.players[i].wf());
        assert(g.players[i].seated(i));
        assert(r.players[i] == (PlayerView { resources: r.players[i].resources, ..g.players[i] }));
        resources::lemma_robbed_hand_le(g.players[i].resources, r.players[i].resources);
    }
}

/// Setting one count of one hand keeps the invariant.
pub proof fn lemma_with_count_wf(g: GameView, p: int, k: int, n: int)
    requires
        g.wf(),
        0 <= p < g.players.len(),
        0 <= k < RESOURCE_KINDS,
    ensures
        g.with_count(p, k, n).wf(),
{
    let h = g.with_count(p, k, n);
    assert forall|i: int| 0 <= i < h.players.len() implies (#[trigger] h.players[i]).wf() && h.players[i].seated(i) by {
        assert(g.players[i].wf());
        assert(g.players[i].seated(i));
    }
}

/// Replacing a player by one with the same number whose hand still has a slot per resource
/// and whose collections still hold no duplicates keeps the invariant.
pub proof fn lemma_player_update_wf(g: GameView, p: int, pv: PlayerView)
    requires
        g.wf(),
        0 <= p < g.players.len(),
        pv.seated(p),
        pv.wf(),
    ensures
        (GameView { players: g.players.update(p, pv), ..g }).wf(),
{
    let h = GameView { players: g.players.update(p, pv), ..g };
    assert forall|i: int| 0 <= i < h.players.len() implies (#[trigger] h.players[i]).wf() && h.players[i].seated(i) by {
        assert(g.players[i].wf());
        assert(g.players[i].seated(i));
    }
}

/// Removing a value keeps a sequence free of duplicates.
pub proof fn lemma_remove_value_no_dup(s: Seq<usize>, x: usize)
    requires
        s.no_duplicates(),
    ensures
        s.remove_value(x).no_duplicates(),
{
    s.index_of_first_ensures(x);
    if let Some(i) = s.index_of_first(x) {
        let r = s.remove(i);
        assert forall|a: int, b: int| 0 <= a < r.len() && 0 <= b < r.len() && a != b implies r[a] != r[b] by {
            let a0 = if a < i { a } else { a + 1 };
            let b0 = if b < i { b } else { b + 1 };
            assert(r[a] == s[a0]);
            assert(r[b] == s[b0]);
        }
    }
}

/// Whether no value occurs twice in `v`.
pub fn no_dup_usize(v: &Vec<usize>) -> (b: bool)
    ensures
        b == v@.no_duplicates(),
{
    let n = v.len();
    let mut i: usize = 0;
    while i < n
        invariant
            n == v@.len(),
            i <= n,
            forall|a: int, c: int| 0 <= a < c < n && a < i ==> v@[a] != v@[c],
        decreases n - i,
    {
        let mut j: usize = i + 1;
        while j < n
            invariant
                n == v@.len(),
                i < n,
                i < j <= n,
                forall|a: int, c: int| 0 <= a < c < n && a < i ==> v@[a] != v@[c],
                forall|c: int| i < c < j ==> v@[i as int] != v@[c],
            decreases n - j,
        {
            if v[i] == v[j] {
                return false;
            }
            j += 1;
        }
        i += 1;
    }
    true
}

/// Whether no road occurs twice in `v`.
pub fn no_dup_roads(v: &Vec<(usize, usize)>) -> (b: bool)
    ensures
        b == v@.no_duplicates(),
{
    let n = v.len();
    let mut i: usize = 0;
    while i < n
        invariant
            n == v@.len(),
            i <= n,
            forall|a: int, c: int| 0 <= a < c < n && a < i ==> v@[a] != v@[c],
        decreases n - i,
    {
        let mut j: usize = i + 1;
        while j < n
            invariant
                n == v@.len(),
                i < n,
                i < j <= n,
                forall|a: int, c: int| 0 <= a < c < n && a < i ==> v@[a] != v@[c],
                forall|c: int| i < c < j ==> v@[i as int] != v@[c],
            decreases n - j,
        {
            if v[i].0 == v[j].0 && v[i].1 == v[j].1 {
                return false;
            }
            j += 1;
        }
        i += 1;
    }
    true
}

/// Whether `x` occurs in `v`.
pub fn contains_usize(v: &Vec<usize>, x: usize) -> (b: bool)
    ensures
        b == v@.contains(x),
{
    let mut i: usize = 0;
    while i < v.len()
        invariant
            i <= v@.len(),
            forall|j: int| 0 <= j < i ==> v@[j] != x,
        decreases v@.len() - i,
    {
        if v[i] == x {
            return true;
        }
        i += 1;
    }
    false
}

} // verus!
