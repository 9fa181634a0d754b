//! Actions, the sets of untried actions stored in search nodes, and the search graph.

use vstd::prelude::*;

use crate::bits::{count_ones128, has_bit128, lemma_clear_bit128, nth_bit128, popcount128};
use crate::board::Board;
use crate::game_state::{low_bits, GameState};
use crate::rng::{random_below_usize, weighted_index};
use crate::rng::random_below_u32;
use crate::topology::NUM_EDGES;
use crate::types::{DevCard, Resource};
use rand::rngs::SmallRng;

verus! {

/// An action that a player can perform. Some actions are non-deterministic (e.g. buying
/// a random development card) and carry placeholder values (e.g. [`DevCard::Unknown`])
/// until they are determined when applied.
#[derive(Copy, Clone, Debug, PartialEq, Eq, Structural)]
pub enum Action {
    /// Place a village at the player's nth available settle spot
    Settle(u8),
    /// Place a city on the player's nth placed village
    City(u8),
    /// Place a road on the player's nth available road spot
    Road(u8),
    /// Buy a development card
    BuyDevCard(DevCard),
    /// Trade a resource with the bank for another resource
    BankTrade(Resource, Resource),
    /// Play a particular development card
    PlayDevCard(DevCard),
    /// First road placement after playing a Road Builder development card
    RoadBuild1(u8),
    /// Second road placement after playing a Road Builder development card
    RoadBuild2(u8),
    /// Choose resources after playing a Year of Plenty development card
    YoPResources(Resource, Resource),
    /// Choose a resource after playing a Monopoly development card
    MonopolyResource(Resource),
    /// Place an initial settlement at the nth vertex
    InitialSettle(u8),
    /// Place an initial road at the nth edge adjacent to the last initial settlement
    InitialRoad(u8),
    /// Move the robber after rolling a 7 or playing a Knight development card
    MoveRobber(u8),
    /// Steal a resource from an adjacent player after moving the robber
    Steal(u8, Resource),
    /// End the player's turn
    EndTurn,
    /// Roll the dice for resource distribution/discard after 7
    Roll(u8),
}


/// What must follow `a`, if anything: a robber move after a 7 or a knight, a steal after
/// a robber move, the choices of the development cards, and the road-builder roads.
pub open spec fn spec_forced_continuation(a: Action) -> Option<Action> {
    match a {
        Action::Roll(7) => Some(Action::MoveRobber(0)),
        Action::PlayDevCard(DevCard::Knight) => Some(Action::MoveRobber(0)),
        Action::MoveRobber(_) => Some(Action::Steal(0, Resource::Desert)),
        Action::PlayDevCard(DevCard::YoP) => Some(Action::YoPResources(Resource::Desert, Resource::Desert)),
        Action::PlayDevCard(DevCard::Monopoly) => Some(Action::MonopolyResource(Resource::Desert)),
        Action::PlayDevCard(DevCard::RoadBuild) => Some(Action::RoadBuild1(0)),
        Action::RoadBuild1(_) => Some(Action::RoadBuild2(0)),
        _ => None,
    }
}

/// `a` must be followed by a road-builder road.
pub open spec fn forces_road_build(a: Action) -> bool {
    spec_forced_continuation(a) == Some(Action::RoadBuild1(0)) || spec_forced_continuation(a)
        == Some(Action::RoadBuild2(0))
}

/// `a` must be followed by an action of the kind of `next`.
pub open spec fn forces(a: Action, next: Action) -> bool {
    spec_forced_continuation(a) == Some(next)
}

impl Action {
    /// The action that stands for "no action yet" (a settle spot that never exists).
    pub open spec fn spec_none() -> Action {
        Action::Settle(255)
    }

    /// The action that stands for "no action yet" (a settle spot that never exists).
    pub fn none() -> (a: Action)
        ensures
            a == Action::spec_none(),
    {
        Action::Settle(255)
    }

    /// Whether an action must be followed by another type of action e.g. `Roll(7) -> MoveRobber(_)`
    pub fn has_forced_continuation(&self) -> (b: bool)
        ensures
            b == spec_forced_continuation(*self) is Some,
    {
        self.forced_continuation().is_some()
    }

    /// What is the forced continuation to this action? e.g. `Roll(7) -> MoveRobber(_)`
    pub fn forced_continuation(&self) -> (r: Option<Action>)
        ensures
            r == spec_forced_continuation(*self),
    {
        match *self {
            Action::Roll(7) | Action::PlayDevCard(DevCard::Knight) => Some(Action::MoveRobber(0)),
            Action::MoveRobber(_) => Some(Action::Steal(0, Resource::Desert)),
            Action::PlayDevCard(DevCard::YoP) => Some(
                Action::YoPResources(Resource::Desert, Resource::Desert),
            ),
            Action::PlayDevCard(DevCard::Monopoly) => Some(
                Action::MonopolyResource(Resource::Desert),
            ),
            Action::PlayDevCard(DevCard::RoadBuild) => Some(Action::RoadBuild1(0)),
            Action::RoadBuild1(_) => Some(Action::RoadBuild2(0)),
            _ => None,
        }
    }
}

/// Each player starts with two roads down, then 13 further roads can add one settle spot each
pub const SETTLES: u8 = 13;
/// Each player can have up to 5 villages down at once
pub const CITIES: u8 = 5;
/// The first two roads give up to 4 expansion spots each, then each road adds 1 to the total up to the 14th road
pub const ROADS: u8 = 20;
/// Only one way to buy a dev card
pub const BUYS: u8 = 1;
/// Only one way to end your turn
pub const ENDS: u8 = 1;
/// 4 different playable dev cards (no VP)
pub const PLAYS: u8 = 4;
/// Each of the 5 resources can be traded for any of the 4 others
pub const TRADES: u8 = 20;

/// First flag of the settle actions.
pub const SETTLE_START: u8 = 0;
/// First flag of the city actions.
pub const CITY_START: u8 = SETTLE_START + SETTLES;
/// First flag of the road actions.
pub const ROAD_START: u8 = CITY_START + CITIES;
/// The flag of buying a development card.
pub const BUYS_START: u8 = ROAD_START + ROADS;
/// The flag of ending the turn.
pub const ENDS_START: u8 = BUYS_START + BUYS;
/// First flag of playing a development card.
pub const PLAYS_START: u8 = ENDS_START + ENDS;
/// First flag of the bank trades.
pub const TRADES_START: u8 = PLAYS_START + PLAYS;
/// One past the last flag of a normal turn.
pub const FLAGS_END: u8 = TRADES_START + TRADES;

/// A set of action flags; the meaning of a flag depends on the situation in which the
/// set was generated (a normal turn, a robber move, a steal, a choice of resources, ...).
#[derive(Copy, Clone, Debug, PartialEq, Eq)]
pub struct Actions {
    pub bitflags: u128,
}

proof fn lemma_shifted_out(x: u128, n: usize, i: usize)
    by (bit_vector)
    requires
        n < 128,
        i < 128,
        x >> n == 0u128,
        x & (1u128 << i) != 0u128,
    ensures
        i < n,
{
}

proof fn lemma_shifted_bit(x: u128, n: usize, t: usize, j: usize)
    by (bit_vector)
    requires
        n < 128,
        t < 128,
        j == n + t,
        (x >> n) & (1u128 << t) != 0u128,
    ensures
        j < 128,
        x & (1u128 << j) != 0u128,
{
}

/// Every set bit of `x` is below `n`.
pub open spec fn bits_below(x: u128, n: nat) -> bool {
    forall|i: usize| i < 128 && #[trigger] has_bit128(x, i) ==> i < n
}

/// The normal-turn action of flag `bit`.
pub open spec fn spec_normal_action(bit: u8) -> Action {
    if bit < CITY_START {
        Action::Settle(bit)
    } else if bit < ROAD_START {
        Action::City((bit - CITY_START) as u8)
    } else if bit < BUYS_START {
        Action::Road((bit - ROAD_START) as u8)
    } else if bit < ENDS_START {
        Action::BuyDevCard(DevCard::Unknown)
    } else if bit < PLAYS_START {
        Action::EndTurn
    } else if bit < TRADES_START {
        Action::PlayDevCard(DevCard::spec_from_u8((bit - PLAYS_START) as u8))
    } else {
        let give = Resource::spec_from_u8(((bit - TRADES_START) / 4) as u8);
        Action::BankTrade(give, give.spec_from_trade_index(((bit - TRADES_START) % 4) as nat))
    }
}

/// The Year of Plenty choice of flag `bit`: resource `bit / 5`, then resource `bit % 5`.
pub open spec fn spec_yop_action(bit: u8) -> Action {
    Action::YoPResources(Resource::spec_from_u8(bit / 5), Resource::spec_from_u8(bit % 5))
}

impl Default for Actions {
    /// The empty set.
    fn default() -> (a: Self)
        ensures
            a.flags() == 0,
    {
        Actions { bitflags: 0 }
    }
}

impl From<u128> for Actions {
    /// The set with the given flags.
    fn from(value: u128) -> (a: Self) {
        Actions { bitflags: value }
    }
}

impl vstd::std_specs::convert::FromSpecImpl<u128> for Actions {
    open spec fn obeys_from_spec() -> bool {
        true
    }

    open spec fn from_spec(v: u128) -> Self {
        Actions { bitflags: v }
    }
}

impl Actions {
    /// The flags of the set.
    pub open spec fn flags(self) -> u128 {
        self.bitflags
    }

    /// The 19 robber spots without `spot`, where the robber stands.
    pub fn generate_robber_without(spot: u8) -> (a: Self)
        requires
            spot < 128,
        ensures
            a.flags() == 0x7FFFFu128 ^ (1u128 << spot),
    {
        Self { bitflags: 0x7FFFFu128 ^ (1u128 << spot) }
    }

    /// Whether every flag of the set is below `n`.
    pub fn flags_below(&self, n: usize) -> (b: bool)
        requires
            n < 128,
        ensures
            b == bits_below(self.flags(), n as nat),
    {
        let b = self.bitflags >> n == 0;
        proof {
            if b {
                assert forall|i: usize| i < 128 && #[trigger] has_bit128(self.flags(), i) implies i < n by {
                    lemma_shifted_out(self.flags(), n, i);
                }
            } else {
                let t = crate::bits::lemma_lowest_bit128(self.flags() >> n);
                let j = (n + t) as usize;
                lemma_shifted_bit(self.flags(), n, t, j);
                assert(has_bit128(self.flags(), j) && j >= n);
            }
        }
        b
    }

    /// The set is empty.
    pub fn is_empty(&self) -> (b: bool)
        ensures
            b == (self.flags() == 0),
    {
        self.bitflags == 0
    }

    /// Adds the initial settle spots of `settle_mask`.
    pub fn add_initial_settles(&mut self, settle_mask: u128)
        ensures
            final(self).flags() == old(self).flags() | settle_mask,
    {
        self.bitflags = self.bitflags | settle_mask;
    }

    /// Adds the initial road spots of `road_mask`.
    pub fn add_initial_roads(&mut self, road_mask: u8)
        ensures
            final(self).flags() == old(self).flags() | (road_mask as u128),
    {
        self.bitflags = self.bitflags | (road_mask as u128);
    }

    /// Adds settling on the `spot`-th available settle spot.
    pub fn add_settle(&mut self, spot: usize)
        requires
            spot <= SETTLES,
        ensures
            final(self).flags() == old(self).flags() | (1u128 << (SETTLE_START as usize + spot)),
    {
        self.bitflags = self.bitflags | (1u128 << (SETTLE_START as usize + spot));
    }

    /// Adds building a city on the `spot`-th village.
    pub fn add_city(&mut self, spot: usize)
        requires
            spot <= CITIES,
        ensures
            final(self).flags() == old(self).flags() | (1u128 << (CITY_START as usize + spot)),
    {
        self.bitflags = self.bitflags | (1u128 << (CITY_START as usize + spot));
    }

    /// Adds building a road on the `spot`-th available road spot.
    pub fn add_road(&mut self, spot: usize)
        requires
            spot <= ROADS,
        ensures
            final(self).flags() == old(self).flags() | (1u128 << (ROAD_START as usize + spot)),
    {
        self.bitflags = self.bitflags | (1u128 << (ROAD_START as usize + spot));
    }

    /// Adds buying a development card.
    pub fn add_buy_dev_card(&mut self)
        ensures
            final(self).flags() == old(self).flags() | (1u128 << BUYS_START),
    {
        self.bitflags = self.bitflags | (1u128 << BUYS_START);
    }

    /// Adds playing the development card with index `card`.
    pub fn add_play_dev_card(&mut self, card: usize)
        requires
            PLAYS_START + card < 128,
        ensures
            final(self).flags() == old(self).flags() | (1u128 << (PLAYS_START as usize + card)),
    {
        self.bitflags = self.bitflags | (1u128 << (PLAYS_START as usize + card));
    }

    /// Adds ending the turn.
    pub fn add_end_turn(&mut self)
        ensures
            final(self).flags() == old(self).flags() | (1u128 << ENDS_START),
    {
        self.bitflags = self.bitflags | (1u128 << ENDS_START);
    }

    /// Adds the four bank trades that give `give`.
    pub fn add_bank_trades(&mut self, give: Resource)
        ensures
            final(self).flags() == old(self).flags() | (0b1111u128 << (TRADES_START + 4
                * give.spec_index()) as u8),
    {
        let trades: u128 = 0b1111;
        self.bitflags = self.bitflags | (trades << (TRADES_START + 4 * (give.index() as u8)));
    }

    /// Takes flag number `index` (counted from the lowest) out of the set and returns it.
    pub fn take_nth_flag(&mut self, index: u32) -> (bit: u8)
        requires
            index < popcount128(old(self).flags()),
        ensures
            has_bit128(old(self).flags(), bit as usize),
            bit < 128,
            final(self).flags() == old(self).flags() ^ (1u128 << bit),
            bit == crate::bits::nth_set_bit128(old(self).flags(), index as nat),
    {
        let chosen = nth_bit128(self.bitflags, index);
        let chosen_bit = chosen as u8;
        self.bitflags = self.bitflags ^ (1u128 << chosen_bit);
        chosen_bit
    }

    /// Takes a random flag out of a non-empty set and returns it; every flag of the set
    /// can come out.
    fn choose_random_bit(&mut self, rng: &mut SmallRng) -> (bit: u8)
        requires
            old(self).flags() != 0,
        ensures
            has_bit128(old(self).flags(), bit as usize),
            bit < 128,
            final(self).flags() == old(self).flags() ^ (1u128 << bit),
    {
        let set_bits = count_ones128(self.bitflags);
        proof {
            let t = crate::bits::lemma_lowest_bit128(self.bitflags);
            lemma_clear_bit128(self.bitflags, t, 128);
        }
        let chosen_index = random_below_u32(rng, set_bits);
        self.take_nth_flag(chosen_index)
    }

    /// Takes a random untried action out of the set, read according to what `last_action`
    /// forces next.
    pub fn select_random_untried_action(&mut self, rng: &mut SmallRng, last_action: Action) -> (a:
        Action)
        requires
            forces_road_build(last_action) || old(self).flags() != 0,
            forces(last_action, Action::YoPResources(Resource::Desert, Resource::Desert))
                ==> bits_below(old(self).flags(), 30),
            forces(last_action, Action::MonopolyResource(Resource::Desert)) ==> bits_below(
                old(self).flags(),
                6,
            ),
            spec_forced_continuation(last_action) is None ==> bits_below(
                old(self).flags(),
                FLAGS_END as nat,
            ),
        ensures
            Self::drawn(last_action, *old(self), *final(self), a),
    {
        match last_action.forced_continuation() {
            Some(Action::MoveRobber(_)) => self.select_random_untried_robber_action(rng),
            Some(Action::Steal(_, _)) => self.select_random_untried_steal_action(rng),
            Some(Action::YoPResources(_, _)) => self.select_random_untried_yop_resources(rng),
            Some(Action::MonopolyResource(_)) => self.select_random_untried_monopoly_resource(rng),
            Some(Action::RoadBuild1(x)) => self.select_random_untried_road_build(Action::RoadBuild1(x), rng),
            Some(Action::RoadBuild2(x)) => self.select_random_untried_road_build(Action::RoadBuild2(x), rng),
            _ => self.select_random_untried_normal_action(rng),
        }
    }

    /// `a` is `decode` of a flag that was in `before` and that `after` no longer has.
    pub open spec fn taken(before: Actions, after: Actions, a: Action, decode: spec_fn(u8) -> Action) -> bool {
        exists|bit: u8|
            #![trigger has_bit128(before.flags(), bit as usize)]
            bit < 128 && has_bit128(before.flags(), bit as usize) && after.flags() == before.flags()
                ^ (1u128 << bit) && a == decode(bit)
    }

    /// `a` is an action of the kind that `last_action` calls for, taken from `before` to
    /// leave `after`.
    pub open spec fn drawn(last_action: Action, before: Actions, after: Actions, a: Action) -> bool {
        match spec_forced_continuation(last_action) {
            Some(Action::MoveRobber(_)) => Self::taken(before, after, a, |b: u8| Action::MoveRobber(b)),
            Some(Action::Steal(_, _)) => Self::taken(before, after, a, |b: u8| Action::Steal(b, Resource::Desert)),
            Some(Action::YoPResources(_, _)) => Self::taken(before, after, a, |b: u8| spec_yop_action(b)),
            Some(Action::MonopolyResource(_)) => Self::taken(before, after, a, |b: u8| Action::MonopolyResource(Resource::spec_from_u8(b))),
            Some(Action::RoadBuild1(_)) => Self::road_build_taken(before, after, a, |b: u8| Action::RoadBuild1(b)),
            Some(Action::RoadBuild2(_)) => Self::road_build_taken(before, after, a, |b: u8| Action::RoadBuild2(b)),
            _ => Self::taken(before, after, a, |b: u8| spec_normal_action(b)),
        }
    }

    /// As [`Actions::taken`], except that an empty set stays empty and gives flag 0.
    pub open spec fn road_build_taken(before: Actions, after: Actions, a: Action, decode: spec_fn(u8) -> Action) -> bool {
        if before.flags() == 0 {
            after == before && a == decode(0)
        } else {
            Self::taken(before, after, a, decode)
        }
    }

    /// Takes a random initial action: a settle spot when `settling`, else a road spot.
    pub fn select_random_untried_initial_action(&mut self, rng: &mut SmallRng, settling: bool) -> (a: Action)
        requires
            old(self).flags() != 0,
        ensures
            settling ==> Self::taken(*old(self), *final(self), a, |b: u8| Action::InitialSettle(b)),
            !settling ==> Self::taken(*old(self), *final(self), a, |b: u8| Action::InitialRoad(b)),
    {
        let chosen_bit = self.choose_random_bit(rng);
        if settling {
            Action::InitialSettle(chosen_bit)
        } else {
            Action::InitialRoad(chosen_bit)
        }
    }

    /// Takes a random robber spot.
    pub fn select_random_untried_robber_action(&mut self, rng: &mut SmallRng) -> (a: Action)
        requires
            old(self).flags() != 0,
        ensures
            Self::taken(*old(self), *final(self), a, |b: u8| Action::MoveRobber(b)),
    {
        let chosen_bit = self.choose_random_bit(rng);
        Action::MoveRobber(chosen_bit)
    }

    /// Takes a random victim; the stolen resource is determined when the steal is applied.
    pub fn select_random_untried_steal_action(&mut self, rng: &mut SmallRng) -> (a: Action)
        requires
            old(self).flags() != 0,
        ensures
            Self::taken(*old(self), *final(self), a, |b: u8| Action::Steal(b, Resource::Desert)),
    {
        let chosen_bit = self.choose_random_bit(rng);
        Action::Steal(chosen_bit, Resource::Desert)
    }

    /// Takes a random pair of Year of Plenty resources.
    pub fn select_random_untried_yop_resources(&mut self, rng: &mut SmallRng) -> (a: Action)
        requires
            old(self).flags() != 0,
            bits_below(old(self).flags(), 30),
        ensures
            Self::taken(*old(self), *final(self), a, |b: u8| spec_yop_action(b)),
    {
        let chosen_bit = self.choose_random_bit(rng);
        let res1 = Resource::from_u8(chosen_bit / 5);
        let res2 = Resource::from_u8(chosen_bit % 5);
        Action::YoPResources(res1, res2)
    }

    /// Takes a random Monopoly resource.
    pub fn select_random_untried_monopoly_resource(&mut self, rng: &mut SmallRng) -> (a: Action)
        requires
            old(self).flags() != 0,
            bits_below(old(self).flags(), 6),
        ensures
            Self::taken(*old(self), *final(self), a, |b: u8| Action::MonopolyResource(Resource::spec_from_u8(b))),
    {
        let chosen_bit = self.choose_random_bit(rng);
        Action::MonopolyResource(Resource::from_u8(chosen_bit))
    }

    /// Takes a random road-builder road spot, or spot 0 when no spot is left.
    pub fn select_random_untried_road_build(&mut self, road_build: Action, rng: &mut SmallRng) -> (a: Action)
        requires
            road_build is RoadBuild1 || road_build is RoadBuild2,
        ensures
            road_build is RoadBuild1 ==> Self::road_build_taken(*old(self), *final(self), a, |b: u8| Action::RoadBuild1(b)),
            road_build is RoadBuild2 ==> Self::road_build_taken(*old(self), *final(self), a, |b: u8| Action::RoadBuild2(b)),
    {
        let chosen_bit = if self.is_empty() {
            0
        } else {
            self.choose_random_bit(rng)
        };
        match road_build {
            Action::RoadBuild1(_) => Action::RoadBuild1(chosen_bit),
            _ => Action::RoadBuild2(chosen_bit),
        }
    }

    /// Takes a random normal-turn action.
    pub fn select_random_untried_normal_action(&mut self, rng: &mut SmallRng) -> (a: Action)
        requires
            old(self).flags() != 0,
            bits_below(old(self).flags(), FLAGS_END as nat),
        ensures
            Self::taken(*old(self), *final(self), a, |b: u8| spec_normal_action(b)),
    {
        let chosen_bit = self.choose_random_bit(rng);
        assert(chosen_bit < FLAGS_END);
        if chosen_bit < CITY_START {
            Action::Settle(chosen_bit)
        } else if chosen_bit < ROAD_START {
            Action::City(chosen_bit - CITY_START)
        } else if chosen_bit < BUYS_START {
            Action::Road(chosen_bit - ROAD_START)
        } else if chosen_bit < ENDS_START {
            Action::BuyDevCard(DevCard::Unknown)
        } else if chosen_bit < PLAYS_START {
            Action::EndTurn
        } else if chosen_bit < TRADES_START {
            Action::PlayDevCard(DevCard::from_u8(chosen_bit - PLAYS_START))
        } else {
            let give = Resource::from_u8((chosen_bit - TRADES_START) / 4);
            let get_idx = (chosen_bit - TRADES_START) % 4;
            let get = give.get_from_trade_index(get_idx as usize);
            Action::BankTrade(give, get)
        }
    }
}


/// Index of a node in a [`NodeArena`], or one of three marker values kept at the top of
/// the range: "no node", and the sibling markers of end-of-turn and robber nodes.
#[derive(Copy, Clone, Debug, PartialEq, Eq, Structural)]
pub struct NodeRef(pub usize);

impl NodeRef {
    /// The "no node" marker.
    pub open spec fn spec_invalid() -> NodeRef {
        NodeRef(usize::MAX)
    }

    /// Sibling marker of a node reached by ending the turn.
    pub open spec fn spec_end_turn() -> NodeRef {
        NodeRef((usize::MAX - 1) as usize)
    }

    /// Sibling marker of a node whose moves are robber moves.
    pub open spec fn spec_robber() -> NodeRef {
        NodeRef((usize::MAX - 2) as usize)
    }

    /// The "no node" marker.
    pub fn invalid() -> (r: NodeRef)
        ensures
            r == NodeRef::spec_invalid(),
    {
        NodeRef(usize::MAX)
    }

    /// Sibling marker of a node reached by ending the turn.
    pub fn end_turn() -> (r: NodeRef)
        ensures
            r == NodeRef::spec_end_turn(),
    {
        NodeRef(usize::MAX - 1)
    }

    /// Sibling marker of a node whose moves are robber moves.
    pub fn robber() -> (r: NodeRef)
        ensures
            r == NodeRef::spec_robber(),
    {
        NodeRef(usize::MAX - 2)
    }

    /// The reference names a node: it is none of the three markers.
    pub open spec fn spec_is_valid(self) -> bool {
        self.0 < usize::MAX - 2
    }

    /// Whether the reference names a node rather than a marker.
    pub fn is_valid(&self) -> (b: bool)
        ensures
            b == self.spec_is_valid(),
    {
        self.0 != usize::MAX && self.0 != usize::MAX - 1 && self.0 != usize::MAX - 2
    }
}

/// A node in the game graph, representing a game state reached from a particular sequence
/// of actions. Transpositions are not identified, so the same state may appear in several
/// nodes.
#[derive(Copy, Clone, Debug)]
pub struct Node {
    /// The current state of the game
    pub state: GameState,
    /// How many times the search has visited this node
    pub visits: u32,
    /// How many wins each player has had from all playouts beneath this node
    pub wins: [u32; 4],
    /// Actions available to the player that have not been tried yet
    pub available_actions: Actions,
    /// The parent node in the graph
    pub parent: NodeRef,
    /// Action taken from the parent to reach this node
    pub parent_action: Action,
    /// Head of the linked list of this node's children
    pub first_child: NodeRef,
    /// Next node in the linked list of the parent node's children
    pub next_sibling: NodeRef,
}

impl Node {
    /// A node for `state` with no visits, no wins and no children, reached from `parent`
    /// by `parent_action`, with untried actions `flags` and next sibling `sibling`.
    pub open spec fn fresh(self, state: GameState, flags: u128, parent: NodeRef, parent_action: Action, sibling: NodeRef) -> bool {
        &&& self.state == state
        &&& self.visits == 0
        &&& self.wins@ == seq![0u32, 0, 0, 0]
        &&& self.available_actions.flags() == flags
        &&& self.parent == parent
        &&& self.parent_action == parent_action
        &&& self.first_child == NodeRef::spec_invalid()
        &&& self.next_sibling == sibling
    }

    /// The untried actions that a node for `state` reached by `parent_action` starts with:
    /// none in a finished game, the generated actions otherwise.
    pub open spec fn initial_flags(state: GameState, board: Board, parent_action: Action, flags: u128) -> bool {
        if state.spec_is_terminal() {
            flags == 0
        } else {
            state.action_flags(board, parent_action, flags)
        }
    }

    fn make(state: GameState, actions: Actions, parent: NodeRef, parent_action: Action, sibling: NodeRef) -> (n: Node)
        ensures
            n.fresh(state, actions.flags(), parent, parent_action, sibling),
    {
        let n = Node {
            state,
            visits: 0,
            wins: [0, 0, 0, 0],
            available_actions: actions,
            parent,
            parent_action,
            first_child: NodeRef::invalid(),
            next_sibling: sibling,
        };
        assert(n.wins@ =~= seq![0u32, 0, 0, 0]);
        n
    }

    /// The root of a search from `state`: its own sibling is node 0.
    pub fn root(state: GameState, board: &Board) -> (n: Node)
        requires
            state.spec_is_terminal() || state.can_generate(Action::spec_none()),
        ensures
            n.fresh(state, n.available_actions.flags(), NodeRef::spec_invalid(), Action::spec_none(), NodeRef(0)),
            Node::initial_flags(state, *board, Action::spec_none(), n.available_actions.flags()),
    {
        Node::with_parent(state, board, NodeRef::invalid(), Action::none()).with_sibling(NodeRef(0))
    }

    /// The node reached by ending the turn; its children are the dice rolls.
    pub fn end_turn(state: GameState, parent: NodeRef) -> (n: Node)
        ensures
            n.fresh(state, 0, parent, Action::EndTurn, NodeRef::spec_end_turn()),
    {
        Node::make(state, Actions::default(), parent, Action::EndTurn, NodeRef::end_turn())
    }

    /// The node after a 7: its untried actions are the robber moves.
    pub fn robber(state: GameState, parent: NodeRef) -> (n: Node)
        requires
            state.robber < 128,
        ensures
            n.fresh(state, 0x7FFFFu128 ^ (1u128 << state.robber), parent, Action::Roll(7), NodeRef::spec_robber()),
    {
        Node::make(state, state.generate_robber_moves(), parent, Action::Roll(7), NodeRef::robber())
    }

    /// The node after moving the robber to `spot`: its untried actions are the steals.
    pub fn steal(state: GameState, parent: NodeRef, spot: u8) -> (n: Node)
        requires
            state.current_player < 4,
            spot < 19,
        ensures
            n.fresh(state, n.available_actions.flags(), parent, Action::MoveRobber(spot), NodeRef::spec_invalid()),
            state.steal_flags(spot, n.available_actions.flags()),
    {
        Node::make(state, state.generate_steals(spot), parent, Action::MoveRobber(spot), NodeRef::invalid())
    }

    /// The node after the last initial road; its children are the first dice rolls.
    pub fn initial_final(state: GameState, parent: NodeRef, parent_action: Action) -> (n: Node)
        ensures
            n.fresh(state, 0, parent, parent_action, NodeRef::spec_invalid()),
    {
        Node::make(state, Actions::default(), parent, parent_action, NodeRef::invalid())
    }

    /// The node of buying an unknown card; its children are the possible cards.
    pub fn buy_dev_card(state: GameState, parent: NodeRef) -> (n: Node)
        ensures
            n.fresh(state, 0, parent, Action::BuyDevCard(DevCard::Unknown), NodeRef::spec_invalid()),
    {
        Node::make(state, Actions::default(), parent, Action::BuyDevCard(DevCard::Unknown), NodeRef::invalid())
    }

    /// The node after playing a year of plenty: its untried actions are the resource pairs.
    pub fn yop_resources(state: GameState, parent: NodeRef) -> (n: Node)
        ensures
            n.fresh(state, 0x1FFFFFFu128, parent, Action::PlayDevCard(DevCard::YoP), NodeRef::spec_invalid()),
    {
        Node::make(state, state.generate_yop_resources(), parent, Action::PlayDevCard(DevCard::YoP), NodeRef::invalid())
    }

    /// The node after playing a monopoly: its untried actions are the resources.
    pub fn monopoly_resource(state: GameState, parent: NodeRef) -> (n: Node)
        ensures
            n.fresh(state, 0x1Fu128, parent, Action::PlayDevCard(DevCard::Monopoly), NodeRef::spec_invalid()),
    {
        Node::make(
            state,
            state.generate_monopoly_resources(),
            parent,
            Action::PlayDevCard(DevCard::Monopoly),
            NodeRef::invalid(),
        )
    }

    /// The node after playing a road builder: its untried actions are the road spots.
    pub fn road_build_1(state: GameState, parent: NodeRef) -> (n: Node)
        requires
            state.current_player < 4,
        ensures
            n.fresh(state, n.available_actions.flags(), parent, Action::PlayDevCard(DevCard::RoadBuild), NodeRef::spec_invalid()),
            low_bits(n.available_actions.flags(), state.road_spot_count(NUM_EDGES as int)),
    {
        Node::make(
            state,
            state.generate_road_builds(),
            parent,
            Action::PlayDevCard(DevCard::RoadBuild),
            NodeRef::invalid(),
        )
    }

    /// The node after the first road-builder road: its untried actions are the road spots.
    pub fn road_build_2(state: GameState, parent: NodeRef) -> (n: Node)
        requires
            state.current_player < 4,
        ensures
            n.fresh(state, n.available_actions.flags(), parent, Action::RoadBuild1(0), NodeRef::spec_invalid()),
            low_bits(n.available_actions.flags(), state.road_spot_count(NUM_EDGES as int)),
    {
        Node::make(state, state.generate_road_builds(), parent, Action::RoadBuild1(0), NodeRef::invalid())
    }

    /// The node for `state` reached from `parent` by `parent_action`, with the actions
    /// available after it (none in a finished game).
    pub fn with_parent(state: GameState, board: &Board, parent: NodeRef, parent_action: Action) -> (n: Node)
        requires
            state.spec_is_terminal() || state.can_generate(parent_action),
        ensures
            n.fresh(state, n.available_actions.flags(), parent, parent_action, NodeRef::spec_invalid()),
            Node::initial_flags(state, *board, parent_action, n.available_actions.flags()),
    {
        let actions = if state.is_terminal() {
            Actions::default()
        } else {
            state.generate_actions(board, parent_action)
        };
        Node::make(state, actions, parent, parent_action, NodeRef::invalid())
    }

    /// The node with its next sibling set to `sibling`.
    pub fn with_sibling(self, sibling: NodeRef) -> (n: Node)
        ensures
            n == (Node { next_sibling: sibling, ..self }),
    {
        let mut n = self;
        n.next_sibling = sibling;
        n
    }

    /// The node was reached by ending the turn.
    pub open spec fn spec_is_end_turn(self) -> bool {
        self.next_sibling == NodeRef::spec_end_turn()
    }

    /// Whether the node was reached by ending the turn.
    pub fn is_end_turn(&self) -> (b: bool)
        ensures
            b == self.spec_is_end_turn(),
    {
        self.next_sibling == NodeRef::end_turn()
    }

    /// The node follows the last initial road.
    pub open spec fn spec_is_initial_final(self) -> bool {
        self.parent_action is InitialRoad && !self.state.spec_is_initial()
    }

    /// Whether the node follows the last initial road.
    pub fn is_initial_final(&self) -> (b: bool)
        ensures
            b == self.spec_is_initial_final(),
    {
        let road = match self.parent_action {
            Action::InitialRoad(_) => true,
            _ => false,
        };
        road && !self.state.is_initial()
    }

    /// The node's children are outcomes of chance: dice rolls or a drawn card.
    pub open spec fn spec_is_chance_node(self) -> bool {
        self.spec_is_end_turn() || self.spec_is_initial_final() || self.parent_action == Action::BuyDevCard(
            DevCard::Unknown,
        )
    }

    /// Whether the node's children are outcomes of chance.
    pub fn is_chance_node(&self) -> (b: bool)
        ensures
            b == self.spec_is_chance_node(),
    {
        self.is_end_turn() || self.is_initial_final() || self.parent_action == Action::BuyDevCard(
            DevCard::Unknown,
        )
    }

    /// The node's children are the eleven dice totals, laid out from the first child.
    pub open spec fn rolls_dice(self) -> bool {
        self.spec_is_end_turn() || self.spec_is_initial_final()
    }

    /// Picks the child to follow: for dice, the child of the total of two dice (2 to 12,
    /// counted from the first child); for a drawn card, the child of a card kind drawn
    /// with the deck's weights; otherwise the first child.
    pub fn choose_child(&self, rng: &mut SmallRng) -> (r: NodeRef)
        requires
            self.rolls_dice() ==> self.first_child.0 + 10 <= usize::MAX,
            !self.rolls_dice() && self.parent_action == Action::BuyDevCard(DevCard::Unknown) ==> {
                &&& 0 < self.state.deck_total() <= 255
                &&& self.first_child.0 + 4 <= usize::MAX
            },
        ensures
            self.rolls_dice() ==> self.first_child.0 <= r.0 <= self.first_child.0 + 10,
            !self.rolls_dice() && self.parent_action == Action::BuyDevCard(DevCard::Unknown) ==> {
                &&& self.first_child.0 <= r.0 < self.first_child.0 + 5
                &&& self.state.dev_card_deck@[r.0 - self.first_child.0] > 0
            },
            !self.rolls_dice() && self.parent_action != Action::BuyDevCard(DevCard::Unknown) ==> r
                == self.first_child,
    {
        let first = self.first_child.0;
        if self.is_end_turn() || self.is_initial_final() {
            let a = random_below_usize(rng, 6);
            let b = random_below_usize(rng, 6);
            NodeRef(first + a + b)
        } else if self.parent_action == Action::BuyDevCard(DevCard::Unknown) {
            let k = weighted_index(rng, self.state.dev_card_deck);
            NodeRef(first + k)
        } else {
            self.first_child
        }
    }

    /// What taking an untried action needs: a non-empty set whose flags fit how the
    /// position reads them.
    pub open spec fn can_select(self) -> bool {
        let f = self.available_actions.flags();
        if self.state.spec_is_initial() {
            &&& f != 0
            &&& self.state.current_player < 4
            &&& self.state.cur().villages_left <= 5
            &&& self.state.cur().roads_left <= 15
        } else {
            &&& forces_road_build(self.parent_action) || f != 0
            &&& forces(self.parent_action, Action::YoPResources(Resource::Desert, Resource::Desert)) ==> bits_below(f, 30)
            &&& forces(self.parent_action, Action::MonopolyResource(Resource::Desert)) ==> bits_below(f, 6)
            &&& spec_forced_continuation(self.parent_action) is None ==> bits_below(f, FLAGS_END as nat)
        }
    }

    /// Whether an untried action can be taken out of the node (see [`Node::can_select`]).
    pub fn selectable(&self) -> (b: bool)
        ensures
            b == self.can_select(),
    {
        let a = self.available_actions;
        if self.state.is_initial() {
            let cp = self.state.current_player;
            return !a.is_empty() && cp < 4 && self.state.players[cp as usize].villages_left <= 5
                && self.state.players[cp as usize].roads_left <= 15;
        }
        match self.parent_action.forced_continuation() {
            Some(Action::RoadBuild1(_)) => true,
            Some(Action::RoadBuild2(_)) => true,
            Some(Action::YoPResources(_, _)) => !a.is_empty() && a.flags_below(30),
            Some(Action::MonopolyResource(_)) => !a.is_empty() && a.flags_below(6),
            Some(_) => !a.is_empty(),
            None => !a.is_empty() && a.flags_below(64),
        }
    }

    /// Takes a random untried action out of the node: an initial placement in the
    /// placement phase, otherwise an action of the kind that the parent action calls for.
    pub fn select_untried_action(&mut self, rng: &mut SmallRng) -> (a: Action)
        requires
            old(self).can_select(),
        ensures
            *final(self) == (Node { available_actions: final(self).available_actions, ..*old(self) }),
            old(self).state.spec_is_initial() ==> if old(self).state.spec_is_initial_settle() {
                Actions::taken(old(self).available_actions, final(self).available_actions, a, |b: u8| Action::InitialSettle(b))
            } else {
                Actions::taken(old(self).available_actions, final(self).available_actions, a, |b: u8| Action::InitialRoad(b))
            },
            !old(self).state.spec_is_initial() ==> match spec_forced_continuation(old(self).parent_action) {
                Some(Action::MoveRobber(_)) => Actions::taken(old(self).available_actions, final(self).available_actions, a, |b: u8| Action::MoveRobber(b)),
                Some(Action::Steal(_, _)) => Actions::taken(old(self).available_actions, final(self).available_actions, a, |b: u8| Action::Steal(b, Resource::Desert)),
                Some(Action::YoPResources(_, _)) => Actions::taken(old(self).available_actions, final(self).available_actions, a, |b: u8| spec_yop_action(b)),
                Some(Action::MonopolyResource(_)) => Actions::taken(old(self).available_actions, final(self).available_actions, a, |b: u8| Action::MonopolyResource(Resource::spec_from_u8(b))),
                Some(Action::RoadBuild1(_)) => Actions::road_build_taken(old(self).available_actions, final(self).available_actions, a, |b: u8| Action::RoadBuild1(b)),
                Some(Action::RoadBuild2(_)) => Actions::road_build_taken(old(self).available_actions, final(self).available_actions, a, |b: u8| Action::RoadBuild2(b)),
                _ => Actions::taken(old(self).available_actions, final(self).available_actions, a, |b: u8| spec_normal_action(b)),
            },
            old(self).can_draw(a),
    {
        let mut actions = self.available_actions;
        let ghost f = actions.flags();
        let a = if self.state.is_initial() {
            actions.select_random_untried_initial_action(rng, self.state.is_initial_settle())
        } else {
            actions.select_random_untried_action(rng, self.parent_action)
        };
        proof {
            if !self.state.spec_is_initial() {
                let p = self.parent_action;
                if !(forces_road_build(p) && f == 0) {
                    match spec_forced_continuation(p) {
                        Some(Action::RoadBuild1(_)) => {
                            let bit = choose|bit: u8| #![trigger has_bit128(f, bit as usize)] bit < 128 && has_bit128(f, bit as usize)
                                && actions.flags() == f ^ (1u128 << bit) && a == Action::RoadBuild1(bit);
                            assert(a == crate::legality::decode_flag(p, bit));
                        },
                        Some(Action::RoadBuild2(_)) => {
                            let bit = choose|bit: u8| #![trigger has_bit128(f, bit as usize)] bit < 128 && has_bit128(f, bit as usize)
                                && actions.flags() == f ^ (1u128 << bit) && a == Action::RoadBuild2(bit);
                            assert(a == crate::legality::decode_flag(p, bit));
                        },
                        _ => {},
                    }
                }
            }
        }
        self.available_actions = actions;
        a
    }

    /// `a` is an action that can be drawn from the node's untried actions: an initial
    /// placement in the placement phase, otherwise an action of the kind that the parent
    /// action calls for (spot 0 for a road builder with no spot left).
    pub open spec fn can_draw(self, a: Action) -> bool {
        let f = self.available_actions.flags();
        if self.state.spec_is_initial() {
            exists|bit: u8|
                bit < 128 && #[trigger] has_bit128(f, bit as usize) && a == (if self.state.spec_is_initial_settle() {
                    Action::InitialSettle(bit)
                } else {
                    Action::InitialRoad(bit)
                })
        } else if forces_road_build(self.parent_action) && f == 0 {
            a == crate::legality::decode_flag(self.parent_action, 0)
        } else {
            exists|bit: u8|
                bit < 128 && #[trigger] has_bit128(f, bit as usize) && a == crate::legality::decode_flag(self.parent_action, bit)
        }
    }
}

/// Arena for contiguous graph node storage; a [`NodeRef`] is an index into it.
pub struct NodeArena(pub Vec<Node>);

impl NodeArena {
    /// The nodes in the arena, in order of insertion.
    pub open spec fn view(&self) -> Seq<Node> {
        self.0@
    }

    /// An empty arena.
    pub fn new() -> (a: NodeArena)
        ensures
            a.view() == Seq::<Node>::empty(),
    {
        NodeArena(Vec::new())
    }

    /// Number of nodes in the arena.
    pub fn len(&self) -> (n: usize)
        ensures
            n == self.view().len(),
    {
        self.0.len()
    }

    /// Appends `node` and returns its reference, the next free index.
    pub fn insert(&mut self, node: Node) -> (r: NodeRef)
        requires
            old(self).view().len() < usize::MAX - 3,
        ensures
            r.0 == old(self).view().len(),
            r.spec_is_valid(),
            final(self).view() == old(self).view().push(node),
    {
        let i = self.0.len();
        self.0.push(node);
        NodeRef(i)
    }

    /// The node `r` refers to.
    pub fn get(&self, r: NodeRef) -> (n: Node)
        requires
            r.0 < self.view().len(),
        ensures
            n == self.view()[r.0 as int],
    {
        self.0[r.0]
    }

    /// Replaces the node `r` refers to with `node`.
    pub fn set(&mut self, r: NodeRef, node: Node)
        requires
            r.0 < old(self).view().len(),
        ensures
            final(self).view() == old(self).view().update(r.0 as int, node),
    {
        self.0.set(r.0, node);
    }
}

impl Default for NodeArena {
    /// An empty arena.
    fn default() -> (a: Self)
        ensures
            a.view() == Seq::<Node>::empty(),
    {
        NodeArena::new()
    }
}


/// The action-flag layout fits in the 128 flags of a set.
pub proof fn lemma_flags_fit()
    ensures
        FLAGS_END < 127,
{
}

/// The flags of a normal turn decode back to the actions that generation sets them for:
/// settle spot `i`, city spot `i` and road spot `i` within their ranges, buying a card,
/// ending the turn, playing card `c` (a knight, monopoly, year of plenty or road builder),
/// and the bank trade of any resource for another.
pub proof fn lemma_flag_decoding(i: u8, c: u8, give: Resource, get: Resource)
    ensures
        i < SETTLES ==> spec_normal_action((SETTLE_START + i) as u8) == Action::Settle(i),
        i < CITIES ==> spec_normal_action((CITY_START + i) as u8) == Action::City(i),
        i < ROADS ==> spec_normal_action((ROAD_START + i) as u8) == Action::Road(i),
        spec_normal_action(BUYS_START) == Action::BuyDevCard(DevCard::Unknown),
        spec_normal_action(ENDS_START) == Action::EndTurn,
        c < PLAYS ==> spec_normal_action((PLAYS_START + c) as u8) == Action::PlayDevCard(DevCard::spec_from_u8(c)),
        crate::types::is_tradeable(give) && crate::types::is_tradeable(get) && give != get ==> spec_normal_action(
            (TRADES_START + 4 * give.spec_index() + give.spec_trade_index(get)) as u8,
        ) == Action::BankTrade(give, get),
{
    if crate::types::is_tradeable(give) && crate::types::is_tradeable(get) && give != get {
        crate::types::lemma_trade_index_inverse(give, get, 0);
        let t = give.spec_trade_index(get);
        let bit = (TRADES_START + 4 * give.spec_index() + t) as u8;
        assert((bit - TRADES_START) / 4 == give.spec_index());
        assert((bit - TRADES_START) % 4 == t);
        assert(Resource::spec_from_u8(give.spec_index() as u8) == give);
    }
}

/// The Year of Plenty flags below 25 are the ordered pairs of the five resources: flag
/// `5 * i + j` decodes to taking resource `i` and then resource `j` (the same one twice
/// or two different ones), and different flags decode to different pairs.
pub proof fn lemma_yop_decoding(r1: Resource, r2: Resource, b1: u8, b2: u8)
    ensures
        crate::types::is_tradeable(r1) && crate::types::is_tradeable(r2) ==> spec_yop_action(
            (5 * r1.spec_index() + r2.spec_index()) as u8,
        ) == Action::YoPResources(r1, r2),
        b1 < 25 && b2 < 25 && b1 != b2 ==> spec_yop_action(b1) != spec_yop_action(b2),
        b1 < 25 ==> (spec_yop_action(b1) matches Action::YoPResources(x, y) && crate::types::is_tradeable(x)
            && crate::types::is_tradeable(y) && b1 == 5 * x.spec_index() + y.spec_index()),
{
    if crate::types::is_tradeable(r1) && crate::types::is_tradeable(r2) {
        let b = (5 * r1.spec_index() + r2.spec_index()) as u8;
        assert(b / 5 == r1.spec_index());
        assert(b % 5 == r2.spec_index());
    }
    if b1 < 25 && b2 < 25 && b1 != b2 {
        if b1 / 5 == b2 / 5 {
            assert(b1 % 5 != b2 % 5);
        }
    }
}

} // verus!
