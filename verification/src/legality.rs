//! Every action that is generated for a position within ordinary bounds can be applied to
//! it, and the positions in which a random placement, step of play or turn roll is sure
//! to succeed.

use vstd::prelude::*;

use crate::bits::{has_bit128, lemma_nth_set_bit64, nth_set_bit64, popcount64};
use crate::board::Board;
use crate::game_state::{hand_total, low_bits, GameState};
use crate::graph::{bits_below, spec_forced_continuation, spec_normal_action, spec_yop_action, Action, Actions};
use crate::player_state::PlayerState;
use crate::topology::{NUM_EDGES, NUM_VERTICES};
use crate::types::{DevCard, Player, Resource};

verus! {

/// The action that flag `bit` of a set generated after `parent` stands for.
pub open spec fn decode_flag(parent: Action, bit: u8) -> Action {
    match spec_forced_continuation(parent) {
        Some(Action::MoveRobber(_)) => Action::MoveRobber(bit),
        Some(Action::Steal(_, _)) => Action::Steal(bit, Resource::Desert),
        Some(Action::YoPResources(_, _)) => spec_yop_action(bit),
        Some(Action::MonopolyResource(_)) => Action::MonopolyResource(Resource::spec_from_u8(bit)),
        Some(Action::RoadBuild1(_)) => Action::RoadBuild1(bit),
        Some(Action::RoadBuild2(_)) => Action::RoadBuild2(bit),
        _ => spec_normal_action(bit),
    }
}

/// The counters of player `p` are within ordinary bounds.
pub open spec fn player_in_bounds(p: PlayerState) -> bool {
    &&& forall|r: int| 0 <= r < 5 ==> #[trigger] p.resources@[r] <= 50
    &&& p.vps <= 250
    &&& p.knights_played < 255
    &&& forall|c: int| 0 <= c < 5 ==> #[trigger] p.dev_cards@[c] < 255 && p.bought_dev_cards@[c] < 255
    &&& p.villages_left <= 5
    &&& p.roads_left <= 15
}

/// No resource has two harbours.
pub open spec fn ports_distinct(board: Board) -> bool {
    forall|j: int, k: int| 0 <= j < k < 9 && board.ports@[j] == board.ports@[k] ==> board.ports@[j] == Resource::Desert
}

impl GameState {
    /// The position is within ordinary bounds: a board for one to four players without a
    /// resource on two harbours, a player to move, players' counters in bounds, award
    /// holders with the points of their awards, and a deck that fits a counter.
    pub open spec fn in_bounds(self, board: Board) -> bool {
        &&& 1 <= board.num_players <= 4
        &&& ports_distinct(board)
        &&& self.current_player < 4
        &&& forall|i: int| 0 <= i < 4 ==> player_in_bounds(#[trigger] self.players[i])
        &&& self.longest_road.0 != Player::PNone ==> self.players[self.longest_road.0.spec_index() as int].vps >= 2
        &&& self.largest_army.0 != Player::PNone ==> self.players[self.largest_army.0.spec_index() as int].vps >= 2
        &&& self.deck_total() <= 255
    }

    /// The settle, city and road spots fit the flag ranges set aside for them.
    pub open spec fn spots_fit_ranges(self) -> bool {
        let p = self.cur();
        &&& p.spec_can_settle() ==> self.settle_spot_count(NUM_VERTICES as int) <= 13
        &&& p.spec_can_city() ==> popcount64(p.villages) <= 5
        &&& p.spec_can_road() ==> self.road_spot_count(NUM_EDGES as int) <= 20
    }

    /// Settle spot number `i` exists when there are more than `i` of them.
    pub proof fn lemma_settle_vertex_exists(self, n: int, i: nat)
        requires
            0 <= n <= 128,
            i < self.settle_spot_count(n),
        ensures
            exists|v: usize| v < n && self.settle_spot(v) && self.settle_spot_count(v as int) == i,
        decreases n,
    {
        if n > 0 {
            if i < self.settle_spot_count(n - 1) {
                self.lemma_settle_vertex_exists(n - 1, i);
            } else {
                let v = (n - 1) as usize;
                assert(self.settle_spot(v) && self.settle_spot_count(v as int) == i);
            }
        }
    }

    /// Road spot number `i` exists when there are more than `i` of them.
    pub proof fn lemma_road_edge_exists(self, n: int, i: nat)
        requires
            0 <= n <= 128,
            i < self.road_spot_count(n),
        ensures
            exists|e: usize| e < n && self.road_spot(e) && self.road_spot_count(e as int) == i,
        decreases n,
    {
        if n > 0 {
            if i < self.road_spot_count(n - 1) {
                self.lemma_road_edge_exists(n - 1, i);
            } else {
                let e = (n - 1) as usize;
                assert(self.road_spot(e) && self.road_spot_count(e as int) == i);
            }
        }
    }
}


/// The first harbour of a resource that has only one harbour is that harbour.
proof fn lemma_first_port(board: Board, give: Resource, k: int, j: int)
    requires
        ports_distinct(board),
        give != Resource::Desert,
        0 <= j <= k < 9,
        board.ports@[k] == give,
    ensures
        crate::apply::first_port_from(board.ports@, give, j) == k,
    decreases k - j,
{
    if j < k {
        assert(board.ports@[j] != give);
        lemma_first_port(board, give, k, j + 1);
    }
}

proof fn lemma_bits_of_small_masks(b: usize)
    by (bit_vector)
    requires
        b < 128,
    ensures
        0x1FFFFFFu128 & (1u128 << b) != 0 ==> b < 25,
        0x1Fu128 & (1u128 << b) != 0 ==> b < 5,
{
}

/// Trading a resource never gets the desert.
proof fn lemma_trade_partner(give: Resource, i: nat)
    requires
        give != Resource::Desert,
        i < 4,
    ensures
        give.spec_from_trade_index(i) != Resource::Desert,
{
}

impl GameState {
    proof fn lemma_settle_flag_applies(self, board: Board, bit: u8)
        requires
            self.in_bounds(board),
            self.cur().spec_can_settle(),
            (bit as nat) < self.settle_spot_count(NUM_VERTICES as int),
        ensures
            self.can_apply(board, Action::Settle(bit)),
    {
        self.lemma_settle_vertex_exists(NUM_VERTICES as int, bit as nat);
        let v = self.settle_vertex(bit as nat);
        assert(self.settle_spot(v));
        assert(player_in_bounds(self.players[self.current_player as int]));
    }

    proof fn lemma_city_flag_applies(self, board: Board, bit: u8)
        requires
            self.in_bounds(board),
            self.cur().spec_can_city(),
            (bit as nat) < popcount64(self.cur().villages),
        ensures
            self.can_apply(board, Action::City(bit)),
    {
        lemma_nth_set_bit64(self.cur().villages, bit as nat);
        assert(player_in_bounds(self.players[self.current_player as int]));
    }

    proof fn lemma_road_award(self, board: Board, i: int)
        requires
            self.in_bounds(board),
            i == self.current_player,
        ensures
            ({
                let p = self.players[i];
                let holder = self.longest_road.0;
                &&& holder != Player::PNone ==> self.players[holder.spec_index() as int].vps >= 2
                &&& p.vps - (if holder.spec_index() == i {
                    2int
                } else {
                    0int
                }) + 2 <= 255
            }),
    {
        assert(player_in_bounds(self.players[i]));
    }

    proof fn lemma_road_flag_applies(self, board: Board, bit: u8)
        requires
            self.in_bounds(board),
            self.cur().spec_can_road(),
            (bit as nat) < self.road_spot_count(NUM_EDGES as int),
        ensures
            self.can_apply(board, Action::Road(bit)),
    {
        self.lemma_road_edge_exists(NUM_EDGES as int, bit as nat);
        let e = self.road_edge(bit as nat);
        assert(self.road_spot(e));
        assert(player_in_bounds(self.players[self.current_player as int]));
        self.lemma_road_award(board, self.current_player as int);
    }

    proof fn lemma_road_build_flag_applies(self, board: Board, bit: u8)
        requires
            self.in_bounds(board),
            (bit as nat) < self.road_spot_count(NUM_EDGES as int),
        ensures
            self.can_apply(board, Action::RoadBuild1(bit)),
            self.can_apply(board, Action::RoadBuild2(bit)),
    {
        let i = self.current_player as int;
        let p = self.cur();
        assert(player_in_bounds(self.players[i]));
        assert(p.resources@[0] <= 50 && p.resources@[1] <= 50);
        if p.roads_left > 0 {
            self.lemma_road_edge_exists(NUM_EDGES as int, bit as nat);
            let e = self.road_edge(bit as nat);
            assert(self.road_spot(e));
            let t = self.with_road_materials();
            assert(t.players[i].resources@[0] >= 1 && t.players[i].resources@[1] >= 1);
            assert forall|j: int| 0 <= j < 4 && j != i implies t.players[j] == self.players[j] by {}
            assert(t.players[i].vps == p.vps);
            self.lemma_road_award(board, i);
        }
    }

    proof fn lemma_buy_flag_applies(self, board: Board)
        requires
            self.in_bounds(board),
            self.cur().spec_can_buy_dev_card(),
            self.deck_nonempty(),
        ensures
            self.can_apply(board, Action::BuyDevCard(DevCard::Unknown)),
    {
        let p = self.cur();
        assert(player_in_bounds(self.players[self.current_player as int]));
        let c = choose|c: int| 0 <= c < 5 && #[trigger] self.dev_card_deck@[c] > 0;
        assert(self.deck_total() > 0);
        assert forall|c: int| 0 <= c < 5 && #[trigger] self.dev_card_deck@[c] > 0 implies crate::apply::card_room(p, c) by {
            assert(p.dev_cards@[c] < 255 && p.bought_dev_cards@[c] < 255);
        }
    }

    proof fn lemma_play_flag_applies(self, board: Board, bit: u8)
        requires
            self.in_bounds(board),
            40 <= bit < 44,
            self.cur().spec_playable(bit - 40),
        ensures
            self.can_apply(board, Action::PlayDevCard(DevCard::spec_from_u8((bit - 40) as u8))),
    {
        assert(player_in_bounds(self.players[self.current_player as int]));
        let holder = self.largest_army.0;
        if holder != Player::PNone {
            assert(self.players[holder.spec_index() as int].vps >= 2);
        }
    }

    proof fn lemma_trade_flag_applies(self, board: Board, bit: u8)
        requires
            self.in_bounds(board),
            44 <= bit < 64,
            self.trade_offered(board, Resource::spec_from_u8(((bit - 44) / 4) as u8)),
        ensures
            self.can_apply(board, spec_normal_action(bit)),
    {
        let give = Resource::spec_from_u8(((bit - 44) / 4) as u8);
        let k = choose|k: int|
            0 <= k < 9 && board.ports@[k] == give && give != Resource::Desert && self.cur().resources@[give.spec_index() as int]
                >= #[trigger] self.trade_rate(board, k);
        lemma_first_port(board, give, k, 0);
        lemma_trade_partner(give, ((bit - 44) % 4) as nat);
        assert(spec_normal_action(bit) == Action::BankTrade(give, give.spec_from_trade_index(((bit - 44) % 4) as nat)));
    }

    proof fn lemma_normal_flag_applies(self, board: Board, bit: u8)
        requires
            self.in_bounds(board),
            self.spots_fit_ranges(),
            bit < 128,
            self.normal_flag(board, bit as usize),
        ensures
            self.can_apply(board, spec_normal_action(bit)),
    {
        let p = self.cur();
        if bit < 13 {
            self.lemma_settle_flag_applies(board, bit);
        } else if bit < 18 {
            self.lemma_city_flag_applies(board, (bit - 13) as u8);
        } else if bit < 38 {
            self.lemma_road_flag_applies(board, (bit - 18) as u8);
        } else if bit == 38 {
            self.lemma_buy_flag_applies(board);
        } else if bit == 39 {
        } else if bit < 44 {
            self.lemma_play_flag_applies(board, bit);
        } else {
            self.lemma_trade_flag_applies(board, bit);
        }
    }
}

/// Every action generated for a position after the placement phase, within ordinary
/// bounds and with its spots fitting their flag ranges, can be applied to it: each flag
/// of the generated set, read as the situation calls for, is an applicable action.
pub proof fn lemma_generated_actions_apply(s: GameState, board: Board, parent: Action, flags: u128, bit: u8)
    requires
        s.in_bounds(board),
        !s.spec_is_initial(),
        s.spots_fit_ranges(),
        s.can_generate(parent),
        s.action_flags(board, parent, flags),
        bit < 128,
        has_bit128(flags, bit as usize),
    ensures
        s.can_apply(board, decode_flag(parent, bit)),
{
    lemma_bits_of_small_masks(bit as usize);
    match spec_forced_continuation(parent) {
        Some(Action::MoveRobber(_)) => {},
        Some(Action::Steal(_, _)) => {
            let victim = s.players[bit as int];
            assert(player_in_bounds(s.players[s.current_player as int]));
            if bit < 4 {
                assert(player_in_bounds(victim));
                assert(hand_total(victim.resources@) <= 255);
            }
        },
        Some(Action::YoPResources(_, _)) => {
            assert(player_in_bounds(s.players[s.current_player as int]));
        },
        Some(Action::MonopolyResource(_)) => {
            let k = Resource::spec_from_u8(bit).spec_index() as int;
            assert(player_in_bounds(s.players[0]) && player_in_bounds(s.players[1]) && player_in_bounds(s.players[2])
                && player_in_bounds(s.players[3]));
            assert(s.players[0].resources@[k] <= 50 && s.players[1].resources@[k] <= 50 && s.players[2].resources@[k]
                <= 50 && s.players[3].resources@[k] <= 50);
        },
        Some(Action::RoadBuild1(_)) => {
            s.lemma_road_build_flag_applies(board, bit);
        },
        Some(Action::RoadBuild2(_)) => {
            s.lemma_road_build_flag_applies(board, bit);
        },
        _ => {
            s.lemma_normal_flag_applies(board, bit);
        },
    }
}


proof fn lemma_small_masks(b: usize)
    by (bit_vector)
    requires
        b < 128,
    ensures
        0u128 & (1u128 << b) == 0,
        1u128 & (1u128 << b) != 0 ==> b < 1,
        3u128 & (1u128 << b) != 0 ==> b < 2,
        7u128 & (1u128 << b) != 0 ==> b < 3,
{
}

proof fn lemma_mask_steps()
    by (bit_vector)
    ensures
        ((0u8 << 1u8) | 1u8) == 1u8,
        ((1u8 << 1u8) | 1u8) == 3u8,
        ((3u8 << 1u8) | 1u8) == 7u8,
{
}

/// In the placement phase, every generated placement can be made when the player to move
/// can pay for it: each flag of the generated set is a village spot or a road spot at
/// the village without a road.
pub proof fn lemma_generated_placements_apply(s: GameState, board: Board, flags: u128, bit: u8)
    requires
        s.in_bounds(board),
        s.spec_is_initial(),
        s.can_generate_normal(),
        s.normal_flags(board, flags),
        bit < 128,
        has_bit128(flags, bit as usize),
        s.spec_is_initial_settle() ==> {
            let r = s.cur().resources@;
            &&& r[0] >= 1 && r[1] >= 1 && r[3] >= 1 && r[4] >= 1
            &&& s.cur().villages_left >= 1
        },
        !s.spec_is_initial_settle() ==> {
            let r = s.cur().resources@;
            &&& r[0] >= 1 && r[1] >= 1
            &&& s.cur().roads_left >= 1
        },
    ensures
        s.spec_is_initial_settle() ==> s.can_apply(board, Action::InitialSettle(bit)),
        !s.spec_is_initial_settle() ==> s.can_apply(board, Action::InitialRoad(bit)),
{
    let i = s.current_player as int;
    assert(player_in_bounds(s.players[i]));
    if s.spec_is_initial_settle() {
        assert(has_bit128(flags, bit as usize));
        let v = bit as usize;
        assert forall|r: int| 0 <= r < 5 implies #[trigger] crate::game_state::village_built(s.cur(), v).resources@[r]
            + crate::apply::initial_yield(board, v, r) <= 255 by {
            reveal_with_fuel(crate::apply::row_yield, 4);
            assert(s.cur().resources@[r] <= 50);
        }
    } else {
        let v = choose|v: usize|
            s.first_unroaded_village(v) && flags == crate::game_state::entry_mask(crate::topology::spec_vertex_edges(v as int), 0, 0) as u128;
        let w = s.road_village();
        assert(s.first_unroaded_village(w));
        if w < v {
            assert(!s.unroaded_village(w));
        }
        if v < w {
            assert(!s.unroaded_village(v));
        }
        assert(w == v);
        crate::topology::lemma_vertex_edges_padded(v as int);
        let row = crate::topology::spec_vertex_edges(v as int);
        lemma_small_masks(bit as usize);
        lemma_mask_steps();
        reveal_with_fuel(crate::game_state::entry_mask, 4);
        if row[0] == crate::topology::NONE {
            assert(crate::game_state::entry_mask(row, 0, 0) == 0u8);
        } else if row[1] == crate::topology::NONE {
            assert(crate::game_state::entry_mask(row, 0, 0) == 1u8);
        } else if row[2] == crate::topology::NONE {
            assert(crate::game_state::entry_mask(row, 0, 0) == 3u8);
        } else {
            assert(crate::game_state::entry_mask(row, 0, 0) == 7u8);
        }
        assert(bit < 3);
        assert(row[bit as int] != crate::topology::NONE);
        s.lemma_road_award(board, i);
    }
}


/// No desert carries a number that two dice can roll.
pub open spec fn deserts_idle(board: Board) -> bool {
    forall|h: int| 0 <= h < 19 && #[trigger] board.resources@[h] == Resource::Desert ==> !(2 <= board.numbers@[h] <= 12)
}

/// A position after the placement phase in which every random step of play can be
/// generated and applied: within ordinary bounds, its spots fitting their flag ranges,
/// the actions that `last_action` calls for generable, the robber on a hex, and no desert
/// that produces.
pub open spec fn step_owed(s: GameState, board: Board, last_action: Action) -> bool {
    &&& s.in_bounds(board)
    &&& !s.spec_is_initial()
    &&& s.spots_fit_ranges()
    &&& s.can_generate(last_action)
    &&& s.robber < 19
    &&& deserts_idle(board)
}

/// A position in which the dice roll that starts a turn, and on a 7 the robber move and
/// steal after it, can always be applied: a player to move, the robber on a hex, no desert
/// that produces, and no player holding more than 50 of a resource.
pub open spec fn turn_roll_owed(s: GameState, board: Board) -> bool {
    &&& s.current_player < 4
    &&& s.robber < 19
    &&& deserts_idle(board)
    &&& forall|i: int, k: int| 0 <= i < 4 && 0 <= k < 5 ==> #[trigger] s.players[i].resources@[k] <= 50
}

proof fn lemma_bit_nonzero(x: u128, i: usize)
    by (bit_vector)
    requires
        i < 128,
        x & (1u128 << i) != 0u128,
    ensures
        x != 0u128,
{
}

proof fn lemma_full_masks(i: usize)
    by (bit_vector)
    requires
        i < 128,
    ensures
        0x1FFFFFFu128 & (1u128 << i) != 0u128 ==> i < 25,
        0x1Fu128 & (1u128 << i) != 0u128 ==> i < 5,
        0x1FFFFFFu128 != 0u128,
        0x1Fu128 != 0u128,
{
}

/// Moving the robber off any hex leaves some hex to move it to.
pub proof fn lemma_robber_moves(r: u8)
    by (bit_vector)
    requires
        r < 128,
    ensures
        0x7FFFFu128 ^ (1u128 << r) != 0u128,
{
}

/// A hex the robber can move to from a hex of the board is a hex of the board.
pub proof fn lemma_robber_spot(r: u8, b: usize)
    by (bit_vector)
    requires
        r < 19,
        b < 128,
        (0x7FFFFu128 ^ (1u128 << r)) & (1u128 << b) != 0u128,
    ensures
        b < 19,
{
}

impl GameState {
    /// The set of actions generated for a position in which a step is owed passes the
    /// checks made before one is drawn: it is not empty (unless it holds road-builder
    /// spots), and its flags lie below the limit of their kind.
    pub proof fn lemma_generated_flags_usable(self, board: Board, last_action: Action, flags: u128)
        requires
            step_owed(self, board, last_action),
            self.action_flags(board, last_action, flags),
        ensures
            match spec_forced_continuation(last_action) {
                Some(Action::RoadBuild1(_)) => true,
                Some(Action::RoadBuild2(_)) => true,
                Some(Action::YoPResources(_, _)) => flags != 0 && bits_below(flags, 30),
                Some(Action::MonopolyResource(_)) => flags != 0 && bits_below(flags, 6),
                Some(_) => flags != 0,
                None => flags != 0 && bits_below(flags, 64),
            },
    {
        match spec_forced_continuation(last_action) {
            Some(Action::MoveRobber(_)) => {
                lemma_robber_moves(self.robber);
            },
            Some(Action::Steal(_, _)) => {
                self.lemma_steals_nonempty(last_action->MoveRobber_0, flags);
            },
            Some(Action::YoPResources(_, _)) => {
                lemma_full_masks(0);
                assert forall|i: usize| i < 128 && #[trigger] has_bit128(flags, i) implies i < 30 by {
                    lemma_full_masks(i);
                }
            },
            Some(Action::MonopolyResource(_)) => {
                lemma_full_masks(0);
                assert forall|i: usize| i < 128 && #[trigger] has_bit128(flags, i) implies i < 6 by {
                    lemma_full_masks(i);
                }
            },
            Some(Action::RoadBuild1(_)) => {},
            Some(Action::RoadBuild2(_)) => {},
            _ => {
                self.lemma_end_turn_offered(board, flags);
                lemma_bit_nonzero(flags, 39);
                assert forall|i: usize| i < 128 && #[trigger] has_bit128(flags, i) implies i < 64 by {
                    assert(self.normal_flag(board, i));
                }
            },
        }
    }

    /// After a robber move, the set of players to rob is never empty.
    pub proof fn lemma_steals_nonempty(self, spot: u8, flags: u128)
        requires
            self.current_player < 4,
            self.steal_flags(spot, flags),
        ensures
            flags != 0,
    {
        if exists|p: int| 0 <= p < 4 && #[trigger] self.steal_victim(spot, p) {
            let p = choose|p: int| 0 <= p < 4 && #[trigger] self.steal_victim(spot, p);
            assert(has_bit128(flags, p as usize));
            lemma_bit_nonzero(flags, p as usize);
        } else {
            assert(has_bit128(flags, self.current_player as usize));
            lemma_bit_nonzero(flags, self.current_player as usize);
        }
    }

    /// An action drawn from the actions generated for a position in which a step is owed
    /// can be applied to it.
    pub proof fn lemma_drawn_action_applies(
        self,
        board: Board,
        last_action: Action,
        before: Actions,
        after: Actions,
        action: Action,
    )
        requires
            step_owed(self, board, last_action),
            self.action_flags(board, last_action, before.flags()),
            Actions::drawn(last_action, before, after, action),
        ensures
            self.can_apply(board, action),
    {
        let flags = before.flags();
        let road_build = match spec_forced_continuation(last_action) {
            Some(Action::RoadBuild1(_)) => true,
            Some(Action::RoadBuild2(_)) => true,
            _ => false,
        };
        if road_build && flags == 0 {
            crate::game_state::lemma_zero_bits128(0);
            assert(player_in_bounds(self.players[self.current_player as int]));
            assert(self.road_spot_count(NUM_EDGES as int) == 0);
        } else {
            let bit = choose|bit: u8|
                #![trigger has_bit128(flags, bit as usize)]
                bit < 128 && has_bit128(flags, bit as usize) && after.flags() == flags ^ (1u128 << bit)
                    && action == decode_flag(last_action, bit);
            lemma_generated_actions_apply(self, board, last_action, flags, bit);
        }
    }
}

/// Ending the turn in a position where a step is owed leaves one where the roll that
/// starts the next turn is owed.
pub proof fn lemma_end_turn_keeps_roll_owed(s: GameState, t: GameState, board: Board)
    requires
        s.in_bounds(board),
        s.robber < 19,
        deserts_idle(board),
        s.after_end_turn(board, t),
    ensures
        turn_roll_owed(t, board),
{
    assert forall|i: int, k: int| 0 <= i < 4 && 0 <= k < 5 implies #[trigger] t.players[i].resources@[k] <= 50 by {
        assert(player_in_bounds(s.players[i]));
        assert(t.players[i].resources == s.players[i].resources);
    }
}

/// A roll of two to twelve can be applied where the turn's roll is owed.
pub proof fn lemma_roll_owed(s: GameState, board: Board, n: u8)
    requires
        turn_roll_owed(s, board),
        2 <= n <= 12,
    ensures
        s.can_apply(board, Action::Roll(n)),
{
    if n == 7 {
        assert forall|i: int| 0 <= i < 4 implies crate::game_state::hand_total(#[trigger] s.players[i].resources@) <= 255 by {
            assert(s.players[i].resources@[0] <= 50 && s.players[i].resources@[1] <= 50 && s.players[i].resources@[2]
                <= 50 && s.players[i].resources@[3] <= 50 && s.players[i].resources@[4] <= 50);
        }
    } else {
        assert forall|h: int| 0 <= h < 19 implies #[trigger] crate::game_state::yields_safely(board, s, h, n as usize) by {
            if board.resources@[h] == Resource::Desert {
                assert(!(2 <= board.numbers@[h] <= 12));
            }
        }
    }
}

/// After a 7 where the turn's roll is owed and a move of the robber to a hex, every
/// player that can be robbed can be robbed.
pub proof fn lemma_steal_owed(
    s1: GameState,
    s2: GameState,
    s3: GameState,
    board: Board,
    spot: u8,
    flags: u128,
    b: u8,
)
    requires
        turn_roll_owed(s1, board),
        s1.after_roll(board, 7, s2),
        s2.after_move_robber(spot, s3),
        s3.steal_flags(spot, flags),
        b < 128,
        has_bit128(flags, b as usize),
    ensures
        s3.can_apply(board, Action::Steal(b, Resource::Desert)),
{
    let cp = s3.current_player as int;
    assert(b < 4);
    crate::game_state::lemma_discard_halves(s1.players[b as int].resources@);
    crate::game_state::lemma_discard_halves(s1.players[cp].resources@);
    assert(s3.players[b as int].resources@ == crate::game_state::hand_after_seven(s1.players[b as int].resources@));
    assert(s3.players[cp].resources@ == crate::game_state::hand_after_seven(s1.players[cp].resources@));
}


/// A position of the placement phase in which a random placement can always be made:
/// within ordinary bounds, the player to move able to pay for it, with a free village
/// spot when a village is due, and a village without a road when a road is due.
pub open spec fn placement_owed(s: GameState, board: Board) -> bool {
    let r = s.cur().resources@;
    &&& s.in_bounds(board)
    &&& s.spec_is_initial()
    &&& s.spec_is_initial_settle() ==> {
        &&& r[0] >= 1 && r[1] >= 1 && r[3] >= 1 && r[4] >= 1
        &&& s.cur().villages_left >= 1
        &&& exists|v: usize| v < NUM_VERTICES && #[trigger] s.spec_vertex_buildable(v)
    }
    &&& !s.spec_is_initial_settle() ==> {
        &&& r[0] >= 1 && r[1] >= 1
        &&& s.cur().roads_left >= 1
        &&& s.has_unroaded_village()
    }
}

impl GameState {
    /// Where a placement is owed, some placement is generated.
    pub proof fn lemma_placements_nonempty(self, board: Board, flags: u128)
        requires
            placement_owed(self, board),
            self.normal_flags(board, flags),
        ensures
            flags != 0,
    {
        if self.spec_is_initial_settle() {
            let v = choose|v: usize| v < NUM_VERTICES && #[trigger] self.spec_vertex_buildable(v);
            assert(has_bit128(flags, v));
            lemma_bit_nonzero(flags, v);
        } else {
            let v = choose|v: usize|
                self.first_unroaded_village(v) && flags == crate::game_state::entry_mask(crate::topology::spec_vertex_edges(v as int), 0, 0) as u128;
            crate::topology::lemma_vertex_edges_padded(v as int);
            let row = crate::topology::spec_vertex_edges(v as int);
            lemma_mask_steps();
            reveal_with_fuel(crate::game_state::entry_mask, 4);
            if row[1] == crate::topology::NONE {
                assert(crate::game_state::entry_mask(row, 0, 0) == 1u8);
            } else if row[2] == crate::topology::NONE {
                assert(crate::game_state::entry_mask(row, 0, 0) == 3u8);
            } else {
                assert(crate::game_state::entry_mask(row, 0, 0) == 7u8);
            }
        }
    }
}

} // verus!
