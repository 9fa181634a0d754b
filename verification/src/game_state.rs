//! The changing part of a game: the players' holdings, whose turn it is, the
//! development card deck, the awards and the robber; and the rules that change it.

use vstd::prelude::*;
use vstd::array::spec_array_update;

use crate::bits::{
    count_ones64, has_bit128, lemma_same_bits128, has_bit64, popcount64, lemma_clear_bit64, lemma_clear_lowest_step64, lemma_toggle_members64,
    lemma_zero_bits64, lowest_bit64,
};
use crate::board::Board;
use crate::graph::{spec_forced_continuation, Action, Actions};
use crate::player_state::PlayerState;
use crate::topology::{
    edge_edges, full_row, hex_vertices, padded_row, port_vertices, spec_edge_edges,
    spec_hex_vertices, spec_port_vertices,
    spec_vertex_edges, spec_vertex_vertices, vertex_edges, vertex_vertices, NONE, NUM_EDGES,
    NUM_HEXES, NUM_VERTICES,
};
use crate::types::{Player, Resource};

verus! {

/// The state of a game in progress.
#[derive(Copy, Clone, Debug)]
pub struct GameState {
    pub players: [PlayerState; 4],
    pub current_player: u8,
    pub dev_card_deck: [u8; 5],
    pub longest_road: (Player, u8),
    pub largest_army: (Player, u8),
    pub robber: u8,
}

/// `r` with entry `i` changed by `d`.
pub open spec fn res_add(r: [u8; 5], i: int, d: int) -> [u8; 5] {
    spec_array_update(r, i, (r[i] + d) as u8)
}

/// Player `p` after paying for and placing a village on `vertex`.
pub open spec fn village_built(p: PlayerState, vertex: usize) -> PlayerState {
    PlayerState {
        resources: res_add(res_add(res_add(res_add(p.resources, 0, -1), 1, -1), 3, -1), 4, -1),
        villages: p.villages | (1u64 << vertex),
        villages_left: (p.villages_left - 1) as u8,
        vps: (p.vps + 1) as u8,
        ..p
    }
}

/// Player `p` after paying for and placing a city on its village on `vertex`.
pub open spec fn city_built(p: PlayerState, vertex: usize) -> PlayerState {
    PlayerState {
        resources: res_add(res_add(p.resources, 2, -3), 3, -2),
        cities: p.cities | (1u64 << vertex),
        villages: p.villages ^ (1u64 << vertex),
        cities_left: (p.cities_left - 1) as u8,
        villages_left: (p.villages_left + 1) as u8,
        vps: (p.vps + 1) as u8,
        ..p
    }
}

/// Player `p` after paying for and placing a road on `edge`.
pub open spec fn road_built(p: PlayerState, edge: usize) -> PlayerState {
    PlayerState {
        resources: res_add(res_add(p.resources, 0, -1), 1, -1),
        roads_lower: if edge < 64 {
            p.roads_lower | (1u64 << edge)
        } else {
            p.roads_lower
        },
        roads_upper: if edge < 64 {
            p.roads_upper
        } else {
            p.roads_upper | (1u8 << ((edge - 64) as u8))
        },
        roads_left: (p.roads_left - 1) as u8,
        ..p
    }
}

/// Player `p` with victory points changed by `d`.
pub open spec fn vps_added(p: PlayerState, d: int) -> PlayerState {
    PlayerState { vps: (p.vps + d) as u8, ..p }
}

impl GameState {
    /// The state with player `i` replaced by `p`.
    pub open spec fn with_player(self, i: int, p: PlayerState) -> GameState {
        GameState { players: spec_array_update(self.players, i, p), ..self }
    }

    /// The player whose turn it is.
    pub open spec fn cur(self) -> PlayerState {
        self.players[self.current_player as int]
    }

    /// The start of a game: every player as in [`PlayerState::default`], player 0 to
    /// move, the full deck, no awards, and the robber on the board's first desert.
    pub fn new(board: &Board) -> (s: Self)
        requires
            exists|i: int| 0 <= i < 19 && board.resources@[i] == Resource::Desert,
        ensures
            s.is_start(),
            s.robber < 19,
            board.resources@[s.robber as int] == Resource::Desert,
            forall|j: int| 0 <= j < s.robber ==> board.resources@[j] != Resource::Desert,
    {
        let robber = match crate::board::first_desert(&board.resources) {
            Some(i) => i as u8,
            None => 0,
        };
        let d = <GameState as Default>::default();
        GameState { robber, ..d }
    }

}

impl Default for GameState {
    /// The start of a game with the robber off the board.
    fn default() -> (s: Self)
        ensures
            s.is_start(),
            s.robber == 255,
    {
        let p = PlayerState::default();
        let s = GameState {
            players: [p, p, p, p],
            current_player: 0,
            dev_card_deck: [14, 2, 2, 2, 5],
            longest_road: (Player::PNone, 0),
            largest_army: (Player::PNone, 0),
            robber: 255,
        };
        assert(s.dev_card_deck@ =~= seq![14u8, 2, 2, 2, 5]);
        s
    }
}

impl GameState {

    /// Every player as in [`PlayerState::default`], player 0 to move, the full deck of
    /// 14 knights, 2 monopolies, 2 years of plenty, 2 road builders and 5 victory points,
    /// and no awards.
    pub open spec fn is_start(self) -> bool {
        &&& forall|i: int| 0 <= i < 4 ==> (#[trigger] self.players[i]).is_fresh()
        &&& self.current_player == 0
        &&& self.dev_card_deck@ == seq![14u8, 2, 2, 2, 5]
        &&& self.longest_road == (Player::PNone, 0u8)
        &&& self.largest_army == (Player::PNone, 0u8)
    }

    /// The player whose turn it is.
    pub fn current_player(&self) -> (p: &PlayerState)
        requires
            self.current_player < 4,
        ensures
            *p == self.cur(),
    {
        &self.players[self.current_player as usize]
    }

    /// The player whose turn it is, for changing.
    pub fn current_player_mut(&mut self) -> (p: &mut PlayerState)
        requires
            old(self).current_player < 4,
        ensures
            *p == old(self).cur(),
            *final(self) == old(self).with_player(old(self).current_player as int, *final(p)),
    {
        &mut self.players[self.current_player as usize]
    }

    /// No player has built on `vertex` (always true for the padding value).
    pub open spec fn spec_vertex_empty(self, vertex: usize) -> bool {
        vertex == NONE || forall|i: int| 0 <= i < 4 ==> !has_bit64(
            #[trigger] self.players[i].villages | self.players[i].cities,
            vertex,
        )
    }

    /// Whether no player has built on `vertex`.
    pub fn is_vertex_empty(&self, vertex: usize) -> (b: bool)
        requires
            vertex < 64 || vertex == NONE,
        ensures
            b == self.spec_vertex_empty(vertex),
    {
        if vertex == NONE {
            return true;
        }
        let mut i: usize = 0;
        while i < 4
            invariant
                i <= 4,
                vertex < 64,
                forall|j: int| 0 <= j < i ==> !has_bit64(
                    #[trigger] self.players[j].villages | self.players[j].cities,
                    vertex,
                ),
            decreases 4 - i,
        {
            if (self.players[i].villages | self.players[i].cities) & (1u64 << vertex) != 0 {
                return false;
            }
            i = i + 1;
        }
        true
    }

    /// `vertex` and all its neighbours are empty.
    pub open spec fn spec_vertex_buildable(self, vertex: usize) -> bool {
        &&& self.spec_vertex_empty(vertex)
        &&& forall|k: int| 0 <= k < 3 ==> self.spec_vertex_empty(
            #[trigger] spec_vertex_vertices(vertex as int)[k],
        )
    }

    /// Whether a village may be placed on `vertex`: it is empty and so are its neighbours.
    pub fn is_vertex_buildable(&self, vertex: usize) -> (b: bool)
        requires
            vertex < NUM_VERTICES,
        ensures
            b == self.spec_vertex_buildable(vertex),
    {
        if !self.is_vertex_empty(vertex) {
            return false;
        }
        let row = vertex_vertices(vertex);
        let mut k: usize = 0;
        while k < 3
            invariant
                k <= 3,
                row@ == spec_vertex_vertices(vertex as int),
                padded_row(row@, NUM_VERTICES),
                forall|j: int| 0 <= j < k ==> self.spec_vertex_empty(#[trigger] row@[j]),
            decreases 3 - k,
        {
            if !self.is_vertex_empty(row[k]) {
                return false;
            }
            k = k + 1;
        }
        true
    }

    /// No player has a road on `edge` (never true for the padding value).
    pub open spec fn spec_edge_free(self, edge: usize) -> bool {
        edge != NONE && forall|i: int| 0 <= i < 4 ==> !has_bit128(
            #[trigger] self.players[i].spec_roads(),
            edge,
        )
    }

    /// Whether no player has a road on `edge`.
    pub fn is_edge_buildable(&self, edge: usize) -> (b: bool)
        requires
            edge < 128 || edge == NONE,
        ensures
            b == self.spec_edge_free(edge),
    {
        if edge == NONE {
            return false;
        }
        let mut i: usize = 0;
        while i < 4
            invariant
                i <= 4,
                edge < 128,
                forall|j: int| 0 <= j < i ==> !has_bit128(#[trigger] self.players[j].spec_roads(), edge),
            decreases 4 - i,
        {
            if self.players[i].roads() & (1u128 << edge) != 0 {
                return false;
            }
            i = i + 1;
        }
        true
    }

    /// Player 0 has placed fewer than two roads: the game is in its placement phase.
    pub open spec fn spec_is_initial(self) -> bool {
        self.players[0].roads_left > 13
    }

    /// Whether the game is still in the initial placement phase.
    pub fn is_initial(&self) -> (b: bool)
        ensures
            b == self.spec_is_initial(),
    {
        self.players[0].roads_left > 13
    }

    /// In the placement phase, the player to move has placed as many villages as roads,
    /// so a village comes next.
    pub open spec fn spec_is_initial_settle(self) -> bool {
        5 - self.cur().villages_left == 15 - self.cur().roads_left
    }

    /// Whether the next placement is a village (rather than a road).
    pub fn is_initial_settle(&self) -> (b: bool)
        requires
            self.current_player < 4,
            self.cur().villages_left <= 5,
            self.cur().roads_left <= 15,
        ensures
            b == self.spec_is_initial_settle(),
    {
        let p = &self.players[self.current_player as usize];
        5 - p.villages_left == 15 - p.roads_left
    }

    /// Some player has 10 or more victory points.
    pub open spec fn spec_is_terminal(self) -> bool {
        exists|i: int| 0 <= i < 4 && #[trigger] self.players[i].vps >= 10
    }

    /// Whether the game is over.
    pub fn is_terminal(&self) -> (b: bool)
        ensures
            b == self.spec_is_terminal(),
    {
        let mut i: usize = 0;
        while i < 4
            invariant
                i <= 4,
                forall|j: int| 0 <= j < i ==> !(#[trigger] self.players[j].vps >= 10),
            decreases 4 - i,
        {
            if self.players[i].vps >= 10 {
                return true;
            }
            i = i + 1;
        }
        false
    }

    /// The seat of the player to move.
    pub fn player(&self) -> (p: u8)
        ensures
            p == self.current_player,
    {
        self.current_player
    }

    /// What paying for and placing a village needs of player `i`.
    pub open spec fn can_build_village(self, vertex: usize, i: int) -> bool {
        let p = self.players[i];
        &&& 0 <= i < 4
        &&& vertex < 64
        &&& p.resources[0] >= 1 && p.resources[1] >= 1 && p.resources[3] >= 1 && p.resources[4] >= 1
        &&& p.villages_left >= 1
        &&& p.vps < 255
    }

    /// Player `player` pays a brick, a wood, a wheat and a sheep and places a village on
    /// `vertex`, gaining a victory point.
    pub fn build_village(&mut self, vertex: usize, player: Player)
        requires
            old(self).can_build_village(vertex, player.spec_index() as int),
        ensures
            *final(self) == old(self).with_player(
                player.spec_index() as int,
                village_built(old(self).players[player.spec_index() as int], vertex),
            ),
    {
        let i = player.index();
        let mut p = self.players[i];
        p.resources[0] = p.resources[0] - 1;
        p.resources[1] = p.resources[1] - 1;
        p.resources[3] = p.resources[3] - 1;
        p.resources[4] = p.resources[4] - 1;
        p.villages = p.villages | (1u64 << vertex);
        p.villages_left = p.villages_left - 1;
        p.vps = p.vps + 1;
        self.players[i] = p;
        proof {
            let q = village_built(old(self).players[i as int], vertex);
            assert(p.resources =~= q.resources);
            assert(p == q);
            assert(self.players =~= spec_array_update(old(self).players, i as int, q));
        }
    }

    /// What paying for and placing a city needs of player `i`.
    pub open spec fn can_build_city(self, vertex: usize, i: int) -> bool {
        let p = self.players[i];
        &&& 0 <= i < 4
        &&& vertex < 64
        &&& p.resources[2] >= 3 && p.resources[3] >= 2
        &&& p.cities_left >= 1
        &&& p.villages_left < 255
        &&& p.vps < 255
    }

    /// Player `player` pays three ore and two wheat and turns its village on `vertex`
    /// into a city, gaining a victory point and getting the village piece back.
    pub fn build_city(&mut self, vertex: usize, player: Player)
        requires
            old(self).can_build_city(vertex, player.spec_index() as int),
        ensures
            *final(self) == old(self).with_player(
                player.spec_index() as int,
                city_built(old(self).players[player.spec_index() as int], vertex),
            ),
    {
        let i = player.index();
        let mut p = self.players[i];
        p.resources[2] = p.resources[2] - 3;
        p.resources[3] = p.resources[3] - 2;
        p.cities = p.cities | (1u64 << vertex);
        p.villages = p.villages ^ (1u64 << vertex);
        p.cities_left = p.cities_left - 1;
        p.villages_left = p.villages_left + 1;
        p.vps = p.vps + 1;
        self.players[i] = p;
        proof {
            let q = city_built(old(self).players[i as int], vertex);
            assert(p.resources =~= q.resources);
            assert(p == q);
            assert(self.players =~= spec_array_update(old(self).players, i as int, q));
        }
    }
}


/// Every set bit of `x` is below `n`, and every position below `n` is set.
pub open spec fn low_bits(x: u128, n: nat) -> bool {
    forall|i: usize| i < 128 ==> (#[trigger] has_bit128(x, i) <==> i < n)
}

/// Some non-padding entry of `row` is a road of `roads`.
pub open spec fn touches_road(row: Seq<usize>, roads: u128) -> bool {
    exists|k: int| 0 <= k < row.len() && row[k] != NONE && #[trigger] has_bit128(roads, row[k])
}

/// Whether some non-padding entry of `row` is a road of `roads`.
pub fn row_touches_road4(row: [usize; 4], roads: u128) -> (b: bool)
    requires
        padded_row(row@, NUM_EDGES),
    ensures
        b == touches_road(row@, roads),
{
    let mut k: usize = 0;
    while k < 4 && row[k] != NONE
        invariant
            k <= 4,
            padded_row(row@, NUM_EDGES),
            forall|j: int| 0 <= j < k ==> !#[trigger] has_bit128(roads, row@[j]),
        decreases 4 - k,
    {
        if roads & (1u128 << row[k]) != 0 {
            assert(has_bit128(roads, row@[k as int]));
            return true;
        }
        k = k + 1;
    }
    assert forall|j: int| 0 <= j < 4 && row@[j] != NONE implies !#[trigger] has_bit128(
        roads,
        row@[j],
    ) by {
        if j >= k {
            assert(row@[k as int] == NONE);
        }
    }
    false
}

/// Whether some non-padding entry of `row` is a road of `roads`.
pub fn row_touches_road3(row: [usize; 3], roads: u128) -> (b: bool)
    requires
        padded_row(row@, NUM_EDGES),
    ensures
        b == touches_road(row@, roads),
{
    let mut k: usize = 0;
    while k < 3 && row[k] != NONE
        invariant
            k <= 3,
            padded_row(row@, NUM_EDGES),
            forall|j: int| 0 <= j < k ==> !#[trigger] has_bit128(roads, row@[j]),
        decreases 3 - k,
    {
        if roads & (1u128 << row[k]) != 0 {
            assert(has_bit128(roads, row@[k as int]));
            return true;
        }
        k = k + 1;
    }
    assert forall|j: int| 0 <= j < 3 && row@[j] != NONE implies !#[trigger] has_bit128(
        roads,
        row@[j],
    ) by {
        if j >= k {
            assert(row@[k as int] == NONE);
        }
    }
    false
}

/// The mask with one bit per non-padding entry of `row` from position `k` on, added
/// below the bits of `m`.
pub open spec fn entry_mask(row: Seq<usize>, k: int, m: u8) -> u8
    decreases 3 - k,
{
    if k < 0 || k >= 3 || row[k] == NONE {
        m
    } else {
        entry_mask(row, k + 1, ((m << 1u8) | 1u8) as u8)
    }
}

impl GameState {
    /// Player `i` may build a road on `edge`, and the longest-road award can change hands
    /// without a counter leaving its range.
    pub open spec fn can_build_road(self, edge: usize, i: int) -> bool {
        let p = self.players[i];
        let placed = 15 - (p.roads_left - 1);
        let holder = self.longest_road.0;
        &&& 0 <= i < 4
        &&& edge < NUM_EDGES
        &&& p.resources[0] >= 1 && p.resources[1] >= 1
        &&& 1 <= p.roads_left <= 16
        &&& placed > self.longest_road.1 ==> {
            &&& holder != Player::PNone ==> self.players[holder.spec_index() as int].vps >= 2
            &&& p.vps - (if holder.spec_index() == i {
                2int
            } else {
                0int
            }) + 2 <= 255
        }
    }

    /// The state after player `i` (`player`) builds a road on `edge`: the road is paid and
    /// placed, and when the player now has placed more roads than the award holder's
    /// count, the award (2 victory points) moves to the player.
    pub open spec fn road_result(self, edge: usize, player: Player) -> GameState {
        let i = player.spec_index() as int;
        let s1 = self.with_player(i, road_built(self.players[i], edge));
        let n = 15 - s1.players[i].roads_left;
        if n > self.longest_road.1 {
            let holder = self.longest_road.0;
            let s2 = if holder != Player::PNone {
                let h = holder.spec_index() as int;
                s1.with_player(h, vps_added(s1.players[h], -2))
            } else {
                s1
            };
            let s3 = s2.with_player(i, vps_added(s2.players[i], 2));
            GameState { longest_road: (player, n as u8), ..s3 }
        } else {
            s1
        }
    }

    /// Player `player` pays a brick and a wood and places a road on `edge`; the award for
    /// the most roads placed moves to the player when it now has more than the holder.
    pub fn build_road(&mut self, edge: usize, player: Player)
        requires
            old(self).can_build_road(edge, player.spec_index() as int),
        ensures
            *final(self) == old(self).road_result(edge, player),
    {
        let i = player.index();
        let mut p = self.players[i];
        p.resources[0] = p.resources[0] - 1;
        p.resources[1] = p.resources[1] - 1;
        if edge < 64 {
            p.roads_lower = p.roads_lower | (1u64 << edge);
        } else {
            p.roads_upper = p.roads_upper | (1u8 << ((edge - 64) as u8));
        }
        p.roads_left = p.roads_left - 1;
        self.players[i] = p;
        proof {
            let q = road_built(old(self).players[i as int], edge);
            assert(p.resources =~= q.resources);
            assert(p == q);
            assert(self.players =~= spec_array_update(old(self).players, i as int, q));
        }
        let ghost s1 = *self;
        if 15 - self.players[i].roads_left > self.longest_road.1 {
            if self.longest_road.0 != Player::PNone {
                let h = self.longest_road.0.index();
                let mut hp = self.players[h];
                hp.vps = hp.vps - 2;
                self.players[h] = hp;
                assert(self.players =~= spec_array_update(
                    s1.players,
                    h as int,
                    vps_added(s1.players[h as int], -2),
                ));
            }
            let ghost s2 = *self;
            let mut pp = self.players[i];
            pp.vps = pp.vps + 2;
            self.players[i] = pp;
            assert(self.players =~= spec_array_update(
                s2.players,
                i as int,
                vps_added(s2.players[i as int], 2),
            ));
            self.longest_road = (player, 15 - self.players[i].roads_left);
        }
    }

    /// The initial village spots: every vertex where a village may be placed.
    pub fn generate_initial_settles(&self) -> (a: Actions)
        ensures
            self.initial_settle_flags(a.flags()),
    {
        let mut actions = Actions::default();
        let mut settles: u128 = 0;
        let mut v: usize = 0;
        proof {
            assert forall|u: usize| u < 128 implies !#[trigger] has_bit128(0u128, u) by {
                lemma_zero_bits128(u);
            }
        }
        while v < NUM_VERTICES
            invariant
                v <= NUM_VERTICES,
                forall|u: usize|
                    u < 128 ==> (#[trigger] has_bit128(settles, u) <==> u < v
                        && self.spec_vertex_buildable(u)),
            decreases NUM_VERTICES - v,
        {
            if self.is_vertex_buildable(v) {
                proof {
                    crate::bits::lemma_toggle_members128(settles, v);
                    assert forall|u: usize| u < 128 implies (#[trigger] has_bit128(
                        settles | (1u128 << v),
                        u,
                    ) <==> (has_bit128(settles, u) || u == v)) by {
                        lemma_or_bit128(settles, v, u);
                    }
                }
                settles = settles | (1u128 << v);
            }
            v = v + 1;
        }
        actions.add_initial_settles(settles);
        assert(actions.flags() == settles) by {
            assert(0u128 | settles == settles) by (bit_vector);
        }
        actions
    }

    /// Vertex `v` holds a village of the player to move with no road of that player at it.
    pub open spec fn unroaded_village(self, v: usize) -> bool {
        &&& v < NUM_VERTICES
        &&& has_bit64(self.cur().villages, v)
        &&& !touches_road(spec_vertex_edges(v as int), self.cur().spec_roads())
    }

    /// `v` is the lowest vertex with a village of the player to move and no road at it.
    pub open spec fn first_unroaded_village(self, v: usize) -> bool {
        &&& self.unroaded_village(v)
        &&& forall|u: usize| u < v ==> !#[trigger] self.unroaded_village(u)
    }

    /// A village of the player to move has no road yet.
    pub open spec fn has_unroaded_village(self) -> bool {
        &&& self.current_player < 4
        &&& exists|u: usize| #[trigger] self.unroaded_village(u)
    }

    /// The lowest village of the player to move with no road at it: where the next initial
    /// road goes.
    pub fn last_initial_village(&self) -> (v: usize)
        requires
            self.has_unroaded_village(),
        ensures
            self.first_unroaded_village(v),
    {
        let p = self.players[self.current_player as usize];
        let villages = p.villages;
        let roads = p.roads();
        let mut vs = villages;
        while vs != 0
            invariant
                p == self.cur(),
                villages == p.villages,
                roads == p.spec_roads(),
                self.has_unroaded_village(),
                forall|u: usize| u < 64 && #[trigger] has_bit64(vs, u) ==> has_bit64(villages, u),
                forall|u: usize|
                    u < 64 && has_bit64(villages, u) && !has_bit64(vs, u) ==> !#[trigger] self.unroaded_village(u),
                forall|u: usize, w: usize|
                    u < 64 && w < 64 && #[trigger] has_bit64(vs, w) && !#[trigger] has_bit64(vs, u) && has_bit64(villages, u) ==> u < w,
            decreases vs,
        {
            let t = lowest_bit64(vs);
            let v = t as usize;
            assert(has_bit64(villages, v));
            proof {
                let u = choose|u: usize| self.unroaded_village(u);
                assert(self.unroaded_village(u));
                assert(has_bit64(vs, u));
                assert(v <= u);
            }
            let row = vertex_edges(v);
            if !row_touches_road3(row, roads) {
                assert(self.unroaded_village(v));
                assert forall|u: usize| u < v implies !#[trigger] self.unroaded_village(u) by {
                    if has_bit64(villages, u) {
                        assert(!has_bit64(vs, u));
                    }
                }
                return v;
            }
            proof {
                lemma_clear_lowest_step64(vs, v);
                lemma_clear_bit64(vs, v, 64);
                lemma_toggle_members64(vs, v);
            }
            vs = vs & (vs - 1);
        }
        proof {
            let u = choose|u: usize| self.unroaded_village(u);
            lemma_zero_bits64(u);
            assert(!has_bit64(vs, u));
        }
        0
    }

    /// The initial road spots: one flag per edge at the village that has no road yet.
    pub fn generate_initial_roads(&self) -> (a: Actions)
        requires
            self.has_unroaded_village(),
        ensures
            self.initial_road_flags(a.flags()),
    {
        let mut actions = Actions::default();
        let last_village = self.last_initial_village();
        let row = vertex_edges(last_village);
        let mut roads: u8 = 0;
        let mut k: usize = 0;
        while k < 3 && row[k] != NONE
            invariant
                k <= 3,
                row@ == spec_vertex_edges(last_village as int),
                roads <= 7,
                k == 0 ==> roads == 0,
                k <= 1 ==> roads <= 1,
                k <= 2 ==> roads <= 3,
                entry_mask(row@, 0, 0) == entry_mask(row@, k as int, roads),
            decreases 3 - k,
        {
            assert(roads == 0 ==> (roads << 1u8) | 1u8 <= 1) by (bit_vector);
            assert(roads <= 1 ==> (roads << 1u8) | 1u8 <= 3) by (bit_vector);
            assert(roads <= 3 ==> (roads << 1u8) | 1u8 <= 7) by (bit_vector);
            roads = (roads << 1) | 1;
            k = k + 1;
        }
        actions.add_initial_roads(roads);
        assert(0u128 | (roads as u128) == roads as u128) by (bit_vector);
        actions
    }

    /// The 18 robber spots other than the robber's hex.
    pub fn generate_robber_moves(&self) -> (a: Actions)
        requires
            self.robber < 128,
        ensures
            a.flags() == 0x7FFFFu128 ^ (1u128 << self.robber),
    {
        Actions::generate_robber_without(self.robber)
    }

    /// The first player (in seat order, from seat `i`) who has built on `v`.
    pub open spec fn first_builder(self, v: usize, i: int) -> Option<int>
        decreases 4 - i,
    {
        if i < 0 || i >= 4 {
            None
        } else if self.players[i].spec_built_on(v) {
            Some(i)
        } else {
            self.first_builder(v, i + 1)
        }
    }

    /// Player `p`, not the player to move, is the first builder on a corner of hex `spot`.
    pub open spec fn steal_victim(self, spot: u8, p: int) -> bool {
        &&& p != self.current_player
        &&& exists|k: int| 0 <= k < 6 && self.first_builder(#[trigger] spec_hex_vertices(spot as int)[k], 0) == Some(p)
    }

    /// `flags` holds the players that can be robbed at hex `spot`, or only the player to
    /// move when nobody can be robbed.
    pub open spec fn steal_flags(self, spot: u8, flags: u128) -> bool {
        forall|i: usize|
            i < 128 ==> (#[trigger] has_bit128(flags, i) <==> if exists|p: int|
                0 <= p < 4 && #[trigger] self.steal_victim(spot, p) {
                i < 4 && self.steal_victim(spot, i as int)
            } else {
                i == self.current_player
            })
    }

    /// The players that can be robbed after moving the robber to hex `spot`: for each
    /// corner, the first player in seat order who built there, unless it is the player to
    /// move; when there is none, the player to move "robs" itself.
    pub fn generate_steals(&self, spot: u8) -> (a: Actions)
        requires
            spot < NUM_HEXES,
            self.current_player < 4,
        ensures
            self.steal_flags(spot, a.flags()),
    {
        let mut player_mask: u128 = 0;
        let row = hex_vertices(spot as usize);
        let mut k: usize = 0;
        proof {
            assert forall|u: usize| u < 128 implies !#[trigger] has_bit128(0u128, u) by {
                lemma_zero_bits128(u);
            }
        }
        while k < 6
            invariant
                k <= 6,
                spot < NUM_HEXES,
                self.current_player < 4,
                row@ == spec_hex_vertices(spot as int),
                full_row(row@, NUM_VERTICES),
                forall|i: usize| i < 128 ==> (#[trigger] has_bit128(player_mask, i) <==> i < 4 && i != self.current_player && exists|j: int| 0 <= j < k && self.first_builder(#[trigger] row@[j], 0) == Some(i as int)),
            decreases 6 - k,
        {
            let v = row[k];
            let mut found: usize = 4;
            let mut i: usize = 0;
            while i < 4
                invariant
                    i <= 4,
                    found <= 4,
                    v < NUM_VERTICES,
                    found == 4 ==> self.first_builder(v, 0) == self.first_builder(v, i as int),
                    found < 4 ==> self.first_builder(v, 0) == Some(found as int),
                decreases 4 - i,
            {
                if found == 4 && self.players[i].has_built_on_vertex(v) {
                    found = i;
                }
                i = i + 1;
            }
            let ghost old_mask = player_mask;
            if found < 4 && found != self.current_player as usize {
                proof {
                    assert forall|u: usize| u < 128 implies (#[trigger] has_bit128(old_mask | (1u128 << found), u) <==> (has_bit128(old_mask, u) || u == found)) by {
                        lemma_or_bit128(old_mask, found, u);
                    }
                }
                player_mask = player_mask | (1u128 << found);
            }
            assert forall|u: usize| u < 128 implies (#[trigger] has_bit128(player_mask, u) <==> u < 4 && u != self.current_player && exists|j: int| 0 <= j < k + 1 && self.first_builder(#[trigger] row@[j], 0) == Some(u as int)) by {
                if u < 4 && u != self.current_player && self.first_builder(row@[k as int], 0) == Some(u as int) {
                    assert(found == u);
                }
                if exists|j: int| 0 <= j < k + 1 && self.first_builder(#[trigger] row@[j], 0) == Some(u as int) {
                    let j = choose|j: int| 0 <= j < k + 1 && self.first_builder(#[trigger] row@[j], 0) == Some(u as int);
                    if j < k {
                        assert(exists|j2: int| 0 <= j2 < k && self.first_builder(#[trigger] row@[j2], 0) == Some(u as int));
                    }
                }
            }
            k = k + 1;
        }
        assert(forall|p: int| 0 <= p < 4 ==> (self.steal_victim(spot, p) <==> has_bit128(player_mask, p as usize)));
        if player_mask == 0 {
            proof {
                assert forall|p: int| 0 <= p < 4 implies !#[trigger] self.steal_victim(spot, p) by {
                    lemma_zero_bits128(p as usize);
                }
                assert forall|u: usize| u < 128 implies (#[trigger] has_bit128(0u128 | (1u128 << self.current_player), u) <==> u == self.current_player) by {
                    lemma_or_bit128(0u128, self.current_player as usize, u);
                    lemma_zero_bits128(u);
                }
            }
            player_mask = player_mask | (1u128 << self.current_player);
        } else {
            proof {
                if forall|p: int| 0 <= p < 4 ==> !#[trigger] self.steal_victim(spot, p) {
                    assert forall|u: usize| u < 128 implies !has_bit128(player_mask, u) by {
                        if u < 4 {
                            assert(!self.steal_victim(spot, u as int));
                        }
                    }
                    lemma_no_bits_zero128(player_mask);
                }
            }
        }
        Actions::from(player_mask)
    }

    /// Year of Plenty choices: 25 flags, one per ordered pair of the five resources.
    pub fn generate_yop_resources(&self) -> (a: Actions)
        ensures
            a.flags() == 0x1FFFFFFu128,
    {
        let mask: u128 = 0x1FFFFFF;
        Actions::from(mask)
    }

    /// Monopoly choices: 5 flags, one per resource.
    pub fn generate_monopoly_resources(&self) -> (a: Actions)
        ensures
            a.flags() == 0x1Fu128,
    {
        let mask: u128 = 0x1F;
        Actions::from(mask)
    }

    /// `e` is free and touches a road of the player to move.
    pub open spec fn road_spot(self, e: usize) -> bool {
        &&& self.spec_edge_free(e)
        &&& touches_road(spec_edge_edges(e as int), self.cur().spec_roads())
    }

    /// Number of road spots among the edges below `n`.
    pub open spec fn road_spot_count(self, n: int) -> nat
        decreases n,
    {
        if n <= 0 {
            0
        } else {
            self.road_spot_count(n - 1) + if self.road_spot((n - 1) as usize) {
                1nat
            } else {
                0nat
            }
        }
    }

    /// Road-builder choices: one flag per free edge next to a road of the player to move.
    pub fn generate_road_builds(&self) -> (a: Actions)
        requires
            self.current_player < 4,
        ensures
            low_bits(a.flags(), self.road_spot_count(NUM_EDGES as int)),
    {
        let mut mask: u128 = 0;
        let mut n: usize = 0;
        let roads = self.players[self.current_player as usize].roads();
        let mut e: usize = 0;
        proof {
            assert forall|u: usize| u < 128 implies !#[trigger] has_bit128(0u128, u) by {
                lemma_zero_bits128(u);
            }
        }
        while e < NUM_EDGES
            invariant
                e <= NUM_EDGES,
                self.current_player < 4,
                roads == self.cur().spec_roads(),
                n == self.road_spot_count(e as int),
                n <= e,
                low_bits(mask, n as nat),
            decreases NUM_EDGES - e,
        {
            if self.is_edge_buildable(e) && row_touches_road4(edge_edges(e), roads) {
                proof {
                    assert forall|u: usize| u < 128 implies (#[trigger] has_bit128(mask | (1u128 << n), u) <==> u < n + 1) by {
                        lemma_or_bit128(mask, n, u);
                        assert(has_bit128(mask, u) <==> u < n);
                    }
                }
                mask = mask | (1u128 << n);
                n = n + 1;
            }
            e = e + 1;
        }
        Actions::from(mask)
    }
}

/// Bit `u` of `x | (1 << v)` is set when it is set in `x` or `u` is `v`.
pub proof fn lemma_or_bit128(x: u128, v: usize, u: usize)
    by (bit_vector)
    requires
        v < 128,
        u < 128,
    ensures
        ((x | (1u128 << v)) & (1u128 << u) != 0) == ((x & (1u128 << u) != 0) || u == v),
{
}

/// A set with no member below 128 is empty.
pub proof fn lemma_no_bits_zero128(x: u128)
    requires
        forall|u: usize| u < 128 ==> !#[trigger] has_bit128(x, u),
    ensures
        x == 0,
{
    let t = if x != 0 {
        crate::bits::lemma_lowest_bit128(x)
    } else {
        0
    };
}

/// No bit of 0 is set.
pub proof fn lemma_zero_bits128(u: usize)
    requires
        u < 128,
    ensures
        !has_bit128(0u128, u),
{
    crate::bits::lemma_zero_bits128(u);
}


/// Bit `u` of `x | (0b1111 << s)` is set when it is set in `x` or `u` is one of the four
/// positions from `s` on.
pub proof fn lemma_or_nibble128(x: u128, s: u8, u: usize)
    by (bit_vector)
    requires
        s <= 124,
        u < 128,
    ensures
        ((x | (0b1111u128 << s)) & (1u128 << u) != 0) == ((x & (1u128 << u) != 0) || (s <= u
            && u < s + 4)),
{
}

impl GameState {
    /// `v` is a spot for a new village of the player to move: it may be built on and
    /// touches a road of that player.
    pub open spec fn settle_spot(self, v: usize) -> bool {
        &&& v < NUM_VERTICES
        &&& self.spec_vertex_buildable(v)
        &&& touches_road(spec_vertex_edges(v as int), self.cur().spec_roads())
    }

    /// Number of settle spots among the vertices below `n`.
    pub open spec fn settle_spot_count(self, n: int) -> nat
        decreases n,
    {
        if n <= 0 {
            0
        } else {
            self.settle_spot_count(n - 1) + if self.settle_spot((n - 1) as usize) {
                1nat
            } else {
                0nat
            }
        }
    }

    /// Counting settle spots over more vertices never gives fewer.
    pub proof fn lemma_settle_count_mono(self, a: int, b: int)
        requires
            0 <= a <= b,
        ensures
            self.settle_spot_count(a) <= self.settle_spot_count(b),
        decreases b - a,
    {
        if a < b {
            self.lemma_settle_count_mono(a, b - 1);
        }
    }

    /// Counting road spots over more edges never gives fewer.
    pub proof fn lemma_road_count_mono(self, a: int, b: int)
        requires
            0 <= a <= b,
        ensures
            self.road_spot_count(a) <= self.road_spot_count(b),
        decreases b - a,
    {
        if a < b {
            self.lemma_road_count_mono(a, b - 1);
        }
    }

    /// The player to move has a village or city at harbour `k`.
    pub open spec fn port_owned(self, k: int) -> bool {
        let pv = spec_port_vertices(k);
        (self.cur().villages | self.cur().cities) & ((1u64 << pv[0]) | (1u64 << pv[1])) != 0
    }

    /// The player to move has a village or city at a 3:1 harbour.
    pub open spec fn has_generic_port(self, board: Board) -> bool {
        exists|k: int| 0 <= k < 9 && board.ports@[k] == Resource::Desert && #[trigger] self.port_owned(k)
    }

    /// How many cards the player to move gives for one in a trade through harbour `k`'s
    /// resource: 2 at that harbour, 3 at a 3:1 harbour, 4 otherwise.
    pub open spec fn trade_rate(self, board: Board, k: int) -> u8 {
        if self.port_owned(k) {
            2
        } else if self.has_generic_port(board) {
            3
        } else {
            4
        }
    }

    /// Bank trades giving `r` are offered: some harbour of resource `r` has a rate that the
    /// player to move can pay.
    pub open spec fn trade_offered(self, board: Board, r: Resource) -> bool {
        exists|k: int|
            0 <= k < 9 && board.ports@[k] == r && r != Resource::Desert && self.cur().resources@[r.spec_index() as int]
                >= #[trigger] self.trade_rate(board, k)
    }

    /// Flag `u` is one of the bank trades that the harbours before `k` offer.
    pub open spec fn trade_flag_upto(self, board: Board, u: usize, k: int) -> bool {
        &&& 44 <= u < 64
        &&& exists|j: int|
            0 <= j < k && board.ports@[j] == Resource::spec_from_u8(((u - 44) / 4) as u8)
                && self.cur().resources@[((u - 44) / 4) as int] >= #[trigger] self.trade_rate(board, j)
    }

    proof fn lemma_trade_flag_step(self, board: Board, u: usize, k: int)
        requires
            0 <= k,
        ensures
            self.trade_flag_upto(board, u, k + 1) == (self.trade_flag_upto(board, u, k) || (44 <= u
                < 64 && board.ports@[k] == Resource::spec_from_u8(((u - 44) / 4) as u8)
                && self.cur().resources@[((u - 44) / 4) as int] >= self.trade_rate(board, k))),
    {
        if self.trade_flag_upto(board, u, k + 1) {
            let j = choose|j: int|
                0 <= j < k + 1 && board.ports@[j] == Resource::spec_from_u8(((u - 44) / 4) as u8)
                    && self.cur().resources@[((u - 44) / 4) as int] >= #[trigger] self.trade_rate(board, j);
            if j < k {
                assert(self.trade_flag_upto(board, u, k));
            }
        }
        if self.trade_flag_upto(board, u, k) {
            let j = choose|j: int|
                0 <= j < k && board.ports@[j] == Resource::spec_from_u8(((u - 44) / 4) as u8)
                    && self.cur().resources@[((u - 44) / 4) as int] >= #[trigger] self.trade_rate(board, j);
            assert(0 <= j < k + 1);
        }
    }

    /// Some development card is left in the deck.
    pub open spec fn deck_nonempty(self) -> bool {
        exists|i: int| 0 <= i < 5 && #[trigger] self.dev_card_deck@[i] > 0
    }

    /// Flag `i` of a normal turn is available: settle spots, city spots (one per village),
    /// road spots, buying a card, ending the turn, playing a card held before this turn,
    /// and the bank trades.
    pub open spec fn normal_flag(self, board: Board, i: usize) -> bool {
        let p = self.cur();
        ||| p.spec_can_settle() && i < self.settle_spot_count(NUM_VERTICES as int)
        ||| p.spec_can_city() && 13 <= i < 13 + popcount64(p.villages)
        ||| p.spec_can_road() && 18 <= i < 18 + self.road_spot_count(NUM_EDGES as int)
        ||| i == 38 && p.spec_can_buy_dev_card() && self.deck_nonempty()
        ||| i == 39
        ||| 40 <= i < 44 && p.spec_playable(i - 40)
        ||| 44 <= i < 64 && self.trade_offered(board, Resource::spec_from_u8(((i - 44) / 4) as u8))
    }

    /// The numbers of settle, city and road spots fit the flag ranges of a normal turn, as
    /// far as flags are added for them: up to one past each range, the last such flag
    /// being the first of the next range, and no further.
    pub open spec fn normal_counts_fit(self) -> bool {
        let p = self.cur();
        &&& p.spec_can_settle() ==> self.settle_spot_count(NUM_VERTICES as int) <= 14
        &&& p.spec_can_city() ==> popcount64(p.villages) <= 6
        &&& p.spec_can_road() ==> self.road_spot_count(NUM_EDGES as int) <= 21
    }

    /// `flags` are the initial village spots.
    pub open spec fn initial_settle_flags(self, flags: u128) -> bool {
        forall|v: usize|
            v < 128 ==> (#[trigger] has_bit128(flags, v) <==> v < NUM_VERTICES
                && self.spec_vertex_buildable(v))
    }

    /// `flags` are the initial road spots at the village without a road.
    pub open spec fn initial_road_flags(self, flags: u128) -> bool {
        exists|v: usize|
            self.first_unroaded_village(v) && flags == entry_mask(spec_vertex_edges(v as int), 0, 0) as u128
    }

    /// What generating the actions of the position needs: a player to move, counters in
    /// range in the placement phase (and a village without road when a road is next),
    /// and spot counts that fit the flags otherwise.
    pub open spec fn can_generate_normal(self) -> bool {
        &&& self.current_player < 4
        &&& self.spec_is_initial() ==> {
            &&& self.cur().villages_left <= 5
            &&& self.cur().roads_left <= 15
            &&& !self.spec_is_initial_settle() ==> self.has_unroaded_village()
        }
        &&& !self.spec_is_initial() ==> self.normal_counts_fit()
    }

    /// `flags` are the actions of the position outside forced sequences.
    pub open spec fn normal_flags(self, board: Board, flags: u128) -> bool {
        if self.spec_is_initial() {
            if self.spec_is_initial_settle() {
                self.initial_settle_flags(flags)
            } else {
                self.initial_road_flags(flags)
            }
        } else {
            forall|i: usize| i < 128 ==> (#[trigger] has_bit128(flags, i) <==> self.normal_flag(board, i))
        }
    }

    /// The actions of the position outside forced sequences: the placements in the
    /// initial phase, and otherwise building, buying, playing, trading and ending the turn.
    pub fn generate_actions_normal(&self, board: &Board) -> (a: Actions)
        requires
            self.can_generate_normal(),
        ensures
            self.normal_flags(*board, a.flags()),
    {
        if self.is_initial() {
            return if self.is_initial_settle() {
                self.generate_initial_settles()
            } else {
                self.generate_initial_roads()
            };
        }
        let mut actions = Actions::default();
        let cp = self.current_player as usize;
        let ps = self.players[cp];
        let roads = ps.roads();
        proof {
            assert forall|u: usize| u < 128 implies !#[trigger] has_bit128(0u128, u) by {
                lemma_zero_bits128(u);
            }
        }
        // settles
        if ps.can_settle() {
            let mut n: usize = 0;
            let mut v: usize = 0;
            proof {
                self.lemma_settle_count_mono(0, NUM_VERTICES as int);
            }
            while v < NUM_VERTICES
                invariant
                    v <= NUM_VERTICES,
                    cp == self.current_player,
                    cp < 4,
                    ps == self.cur(),
                    roads == ps.spec_roads(),
                    ps.spec_can_settle(),
                    self.normal_counts_fit(),
                    n == self.settle_spot_count(v as int),
                    n <= self.settle_spot_count(NUM_VERTICES as int),
                    forall|u: usize| u < 128 ==> (#[trigger] has_bit128(actions.flags(), u) <==> u < n),
                decreases NUM_VERTICES - v,
            {
                if self.is_vertex_buildable(v) && row_touches_road3(vertex_edges(v), roads) {
                    proof {
                        self.lemma_settle_count_mono(v + 1, NUM_VERTICES as int);
                        assert forall|u: usize| u < 128 implies (#[trigger] has_bit128(actions.flags() | (1u128 << n), u) <==> u < n + 1) by {
                            lemma_or_bit128(actions.flags(), n, u);
                            assert(has_bit128(actions.flags(), u) <==> u < n);
                        }
                    }
                    actions.add_settle(n);
                    n = n + 1;
                }
                v = v + 1;
            }
        }
        let ghost f1 = actions.flags();
        assert forall|u: usize| u < 128 implies (#[trigger] has_bit128(f1, u) <==> ps.spec_can_settle() && u < self.settle_spot_count(NUM_VERTICES as int)) by {}
        // cities
        if ps.can_city() {
            let c = count_ones64(ps.villages);
            let mut j: u32 = 0;
            while j < c
                invariant
                    j <= c,
                    c == popcount64(ps.villages),
                    c <= 6,
                    forall|u: usize| u < 128 ==> (#[trigger] has_bit128(actions.flags(), u) <==> has_bit128(f1, u) || (13 <= u < 13 + j)),
                decreases c - j,
            {
                proof {
                    assert forall|u: usize| u < 128 implies (#[trigger] has_bit128(actions.flags() | (1u128 << (13 + j as usize)), u) <==> has_bit128(f1, u) || (13 <= u < 13 + j + 1)) by {
                        lemma_or_bit128(actions.flags(), (13 + j) as usize, u);
                        assert(has_bit128(actions.flags(), u) <==> has_bit128(f1, u) || (13 <= u < 13 + j));
                    }
                }
                actions.add_city(j as usize);
                j = j + 1;
            }
        }
        let ghost f2 = actions.flags();
        assert forall|u: usize| u < 128 implies (#[trigger] has_bit128(f2, u) <==> has_bit128(f1, u) || (ps.spec_can_city() && 13 <= u < 13 + popcount64(ps.villages))) by {}
        // roads
        if ps.can_road() {
            let mut n: usize = 0;
            let mut e: usize = 0;
            proof {
                self.lemma_road_count_mono(0, NUM_EDGES as int);
            }
            while e < NUM_EDGES
                invariant
                    e <= NUM_EDGES,
                    cp == self.current_player,
                    cp < 4,
                    ps == self.cur(),
                    roads == ps.spec_roads(),
                    ps.spec_can_road(),
                    self.normal_counts_fit(),
                    n == self.road_spot_count(e as int),
                    n <= self.road_spot_count(NUM_EDGES as int),
                    forall|u: usize| u < 128 ==> (#[trigger] has_bit128(actions.flags(), u) <==> has_bit128(f2, u) || (18 <= u < 18 + n)),
                decreases NUM_EDGES - e,
            {
                if self.is_edge_buildable(e) && row_touches_road4(edge_edges(e), roads) {
                    proof {
                        self.lemma_road_count_mono(e + 1, NUM_EDGES as int);
                        assert forall|u: usize| u < 128 implies (#[trigger] has_bit128(actions.flags() | (1u128 << (18 + n)), u) <==> has_bit128(f2, u) || (18 <= u < 18 + n + 1)) by {
                            lemma_or_bit128(actions.flags(), (18 + n) as usize, u);
                            assert(has_bit128(actions.flags(), u) <==> has_bit128(f2, u) || (18 <= u < 18 + n));
                        }
                    }
                    actions.add_road(n);
                    n = n + 1;
                }
                e = e + 1;
            }
        }
        let ghost f3 = actions.flags();
        assert forall|u: usize| u < 128 implies (#[trigger] has_bit128(f3, u) <==> has_bit128(f2, u) || (ps.spec_can_road() && 18 <= u < 18 + self.road_spot_count(NUM_EDGES as int))) by {}
        // buy a development card
        let deck = self.dev_card_deck;
        let any_card = deck[0] > 0 || deck[1] > 0 || deck[2] > 0 || deck[3] > 0 || deck[4] > 0;
        assert(any_card == self.deck_nonempty()) by {
            if self.deck_nonempty() {
                let i = choose|i: int| 0 <= i < 5 && #[trigger] self.dev_card_deck@[i] > 0;
                assert(deck@[i] > 0);
            }
            if any_card {
                if deck[0] > 0 { assert(self.dev_card_deck@[0] > 0); }
                else if deck[1] > 0 { assert(self.dev_card_deck@[1] > 0); }
                else if deck[2] > 0 { assert(self.dev_card_deck@[2] > 0); }
                else if deck[3] > 0 { assert(self.dev_card_deck@[3] > 0); }
                else { assert(self.dev_card_deck@[4] > 0); }
            }
        }
        if ps.can_buy_dev_card() && any_card {
            proof {
                assert forall|u: usize| u < 128 implies (#[trigger] has_bit128(actions.flags() | (1u128 << 38u8), u) <==> has_bit128(f3, u) || u == 38) by {
                    lemma_or_bit128(actions.flags(), 38, u);
                }
            }
            actions.add_buy_dev_card();
        }
        let ghost f4 = actions.flags();
        assert forall|u: usize| u < 128 implies (#[trigger] has_bit128(f4, u) <==> has_bit128(f3, u) || (u == 38 && ps.spec_can_buy_dev_card() && self.deck_nonempty())) by {}
        // play a development card
        if ps.can_play_dev_card() {
            let mut i: usize = 0;
            while i < 4
                invariant
                    i <= 4,
                    ps == self.cur(),
                    forall|u: usize| u < 128 ==> (#[trigger] has_bit128(actions.flags(), u) <==> has_bit128(f4, u) || (40 <= u < 40 + i && ps.spec_playable(u - 40))),
                decreases 4 - i,
            {
                if ps.dev_cards[i] > ps.bought_dev_cards[i] {
                    proof {
                        assert forall|u: usize| u < 128 implies (#[trigger] has_bit128(actions.flags() | (1u128 << (40 + i)), u) <==> has_bit128(actions.flags(), u) || u == 40 + i) by {
                            lemma_or_bit128(actions.flags(), (40 + i) as usize, u);
                        }
                    }
                    actions.add_play_dev_card(i);
                }
                i = i + 1;
            }
        }
        let ghost f5 = actions.flags();
        assert forall|u: usize| u < 128 implies (#[trigger] has_bit128(f5, u) <==> has_bit128(f4, u) || (40 <= u < 44 && ps.spec_playable(u - 40))) by {
            if 40 <= u < 44 && ps.spec_playable(u - 40) {
                assert(ps.spec_can_play_dev_card());
            }
        }
        // trades
        let owned = ps.villages | ps.cities;
        let mut has_3_1 = false;
        let mut k: usize = 0;
        while k < 9 && !has_3_1
            invariant
                k <= 9,
                ps == self.cur(),
                owned == ps.villages | ps.cities,
                has_3_1 ==> self.has_generic_port(*board),
                !has_3_1 ==> forall|j: int| 0 <= j < k && board.ports@[j] == Resource::Desert ==> !#[trigger] self.port_owned(j),
            decreases 9 - k,
        {
            if board.ports[k] == Resource::Desert {
                let pv = port_vertices(k);
                let port_mask = (1u64 << pv[0]) | (1u64 << pv[1]);
                if owned & port_mask != 0 {
                    assert(self.port_owned(k as int));
                    has_3_1 = true;
                }
            }
            k = k + 1;
        }
        assert(has_3_1 == self.has_generic_port(*board));
        let mut k: usize = 0;
        while k < 9
            invariant
                k <= 9,
                ps == self.cur(),
                owned == ps.villages | ps.cities,
                has_3_1 == self.has_generic_port(*board),
                forall|u: usize| u < 128 ==> (#[trigger] has_bit128(actions.flags(), u) <==> has_bit128(f5, u) || self.trade_flag_upto(*board, u, k as int)),
            decreases 9 - k,
        {
            let res = board.ports[k];
            let ghost before = actions.flags();
            if res != Resource::Desert {
                let pv = port_vertices(k);
                let port_mask = (1u64 << pv[0]) | (1u64 << pv[1]);
                let has_port = owned & port_mask != 0;
                let min: u8 = if has_port {
                    2
                } else if has_3_1 {
                    3
                } else {
                    4
                };
                assert(min == self.trade_rate(*board, k as int));
                let ri = res.index();
                if ps.resources[ri] >= min {
                    actions.add_bank_trades(res);
                    proof {
                        assert forall|u: usize| u < 128 implies (#[trigger] has_bit128(actions.flags(), u) <==> has_bit128(f5, u) || self.trade_flag_upto(*board, u, k + 1)) by {
                            lemma_or_nibble128(before, (44 + 4 * ri) as u8, u);
                            assert(actions.flags() == before | (0b1111u128 << ((44 + 4 * ri) as u8)));
                            assert(has_bit128(actions.flags(), u) == (has_bit128(before, u) || (44 + 4 * ri <= u < 48 + 4 * ri)));
                            self.lemma_trade_flag_step(*board, u, k as int);
                            if 44 <= u < 64 {
                                let r = Resource::spec_from_u8(((u - 44) / 4) as u8);
                                assert(r.spec_index() == (u - 44) / 4);
                                assert((board.ports@[k as int] == r) <==> (44 + 4 * ri <= u < 48 + 4 * ri));
                            }
                        }
                    }
                } else {
                    proof {
                        assert forall|u: usize| u < 128 implies (#[trigger] has_bit128(actions.flags(), u) <==> has_bit128(f5, u) || self.trade_flag_upto(*board, u, k + 1)) by {
                            self.lemma_trade_flag_step(*board, u, k as int);
                            if 44 <= u < 64 {
                                let r = Resource::spec_from_u8(((u - 44) / 4) as u8);
                                assert(r.spec_index() == (u - 44) / 4);
                                if board.ports@[k as int] == r {
                                    assert(ri == (u - 44) / 4);
                                }
                            }
                        }
                    }
                }
            } else {
                proof {
                    assert forall|u: usize| u < 128 implies (#[trigger] has_bit128(actions.flags(), u) <==> has_bit128(f5, u) || self.trade_flag_upto(*board, u, k + 1)) by {
                        self.lemma_trade_flag_step(*board, u, k as int);
                        if 44 <= u < 64 {
                            let r = Resource::spec_from_u8(((u - 44) / 4) as u8);
                            assert(r.spec_index() == (u - 44) / 4);
                            assert(r != Resource::Desert);
                        }
                    }
                }
            }
            k = k + 1;
        }
        let ghost f6 = actions.flags();
        proof {
            assert forall|u: usize| u < 128 implies (#[trigger] has_bit128(actions.flags() | (1u128 << 39u8), u) <==> has_bit128(f6, u) || u == 39) by {
                lemma_or_bit128(actions.flags(), 39, u);
            }
        }
        actions.add_end_turn();
        assert forall|u: usize| u < 128 implies (#[trigger] has_bit128(actions.flags(), u) <==> self.normal_flag(*board, u)) by {
            if 44 <= u < 64 {
                let r = Resource::spec_from_u8(((u - 44) / 4) as u8);
                assert(r.spec_index() == (u - 44) / 4);
                assert(r != Resource::Desert);
                if self.trade_offered(*board, r) {
                    let j = choose|j: int| 0 <= j < 9 && board.ports@[j] == r && r != Resource::Desert && self.cur().resources@[r.spec_index() as int] >= #[trigger] self.trade_rate(*board, j);
                    assert(ps.resources@[((u - 44) / 4) as int] >= self.trade_rate(*board, j));
                    assert(self.trade_flag_upto(*board, u, 9));
                }
                if self.trade_flag_upto(*board, u, 9) {
                    let j = choose|j: int| 0 <= j < 9 && board.ports@[j] == Resource::spec_from_u8(((u - 44) / 4) as u8) && self.cur().resources@[((u - 44) / 4) as int] >= #[trigger] self.trade_rate(*board, j);
                    assert(self.trade_offered(*board, r));
                }
            }
        }
        actions
    }
}


impl GameState {
    /// What generating the actions after `parent` needs.
    pub open spec fn can_generate(self, parent: Action) -> bool {
        match spec_forced_continuation(parent) {
            Some(Action::MoveRobber(_)) => self.robber < 128,
            Some(Action::Steal(_, _)) => self.current_player < 4 && parent->MoveRobber_0 < NUM_HEXES,
            Some(Action::YoPResources(_, _)) => true,
            Some(Action::MonopolyResource(_)) => true,
            Some(Action::RoadBuild1(_)) => self.current_player < 4,
            Some(Action::RoadBuild2(_)) => self.current_player < 4,
            _ => self.can_generate_normal(),
        }
    }

    /// `flags` are the actions available after `parent`: robber spots, victims, resource
    /// choices and road-builder spots in forced sequences, the normal actions otherwise.
    pub open spec fn action_flags(self, board: Board, parent: Action, flags: u128) -> bool {
        match spec_forced_continuation(parent) {
            Some(Action::MoveRobber(_)) => flags == 0x7FFFFu128 ^ (1u128 << self.robber),
            Some(Action::Steal(_, _)) => self.steal_flags(parent->MoveRobber_0, flags),
            Some(Action::YoPResources(_, _)) => flags == 0x1FFFFFFu128,
            Some(Action::MonopolyResource(_)) => flags == 0x1Fu128,
            Some(Action::RoadBuild1(_)) => low_bits(flags, self.road_spot_count(NUM_EDGES as int)),
            Some(Action::RoadBuild2(_)) => low_bits(flags, self.road_spot_count(NUM_EDGES as int)),
            _ => self.normal_flags(board, flags),
        }
    }

    /// The actions available after `parent_action`.
    pub fn generate_actions(&self, board: &Board, parent_action: Action) -> (a: Actions)
        requires
            self.can_generate(parent_action),
        ensures
            self.action_flags(*board, parent_action, a.flags()),
    {
        match parent_action.forced_continuation() {
            Some(Action::MoveRobber(_)) => self.generate_robber_moves(),
            Some(Action::Steal(_, _)) => {
                match parent_action {
                    Action::MoveRobber(spot) => self.generate_steals(spot),
                    _ => {
                        assert(false);
                        Actions::default()
                    },
                }
            },
            Some(Action::YoPResources(_, _)) => self.generate_yop_resources(),
            Some(Action::MonopolyResource(_)) => self.generate_monopoly_resources(),
            Some(Action::RoadBuild1(_)) => self.generate_road_builds(),
            Some(Action::RoadBuild2(_)) => self.generate_road_builds(),
            _ => self.generate_actions_normal(board),
        }
    }
}

/// The actions after `parent` are determined by the position: two flag sets that both
/// answer [`GameState::action_flags`] are one and the same. As the flags that each case
/// of `action_flags` asks for are those that its generator states, `generate_actions`
/// hands out what that generator hands out: the robber moves after a seven, the steals
/// at the robber's hex after moving it, the resource pairs and the resources after the
/// two resource cards, the road spots while building roads, and otherwise the actions of
/// the position.
pub proof fn lemma_action_flags_unique(s: GameState, board: Board, parent: Action, f1: u128, f2: u128)
    requires
        s.action_flags(board, parent, f1),
        s.action_flags(board, parent, f2),
    ensures
        f1 == f2,
{
    match spec_forced_continuation(parent) {
        Some(Action::MoveRobber(_)) => {},
        Some(Action::YoPResources(_, _)) => {},
        Some(Action::MonopolyResource(_)) => {},
        Some(Action::Steal(_, _)) => {
            assert forall|i: usize| i < 128 implies #[trigger] has_bit128(f1, i) == has_bit128(f2, i) by {}
            lemma_same_bits128(f1, f2);
        },
        Some(Action::RoadBuild1(_)) => {
            assert forall|i: usize| i < 128 implies #[trigger] has_bit128(f1, i) == has_bit128(f2, i) by {}
            lemma_same_bits128(f1, f2);
        },
        Some(Action::RoadBuild2(_)) => {
            assert forall|i: usize| i < 128 implies #[trigger] has_bit128(f1, i) == has_bit128(f2, i) by {}
            lemma_same_bits128(f1, f2);
        },
        _ => {
            if s.spec_is_initial() {
                if s.spec_is_initial_settle() {
                    assert forall|i: usize| i < 128 implies #[trigger] has_bit128(f1, i) == has_bit128(f2, i) by {}
                    lemma_same_bits128(f1, f2);
                } else {
                    let v1 = choose|v: usize|
                        s.first_unroaded_village(v) && f1 == entry_mask(spec_vertex_edges(v as int), 0, 0) as u128;
                    let v2 = choose|v: usize|
                        s.first_unroaded_village(v) && f2 == entry_mask(spec_vertex_edges(v as int), 0, 0) as u128;
                    if v1 < v2 {
                        assert(s.unroaded_village(v1));
                    } else if v2 < v1 {
                        assert(s.unroaded_village(v2));
                    }
                }
            } else {
                assert forall|i: usize| i < 128 implies #[trigger] has_bit128(f1, i) == has_bit128(f2, i) by {}
                lemma_same_bits128(f1, f2);
            }
        },
    }
}


/// What a piece of player `p` on vertex `v` yields: 1 for a village, 2 for a city.
pub open spec fn piece_yield(p: PlayerState, v: usize) -> nat {
    if has_bit64(p.villages, v) {
        1
    } else if has_bit64(p.cities, v) {
        2
    } else {
        0
    }
}

/// What the pieces of player `p` on the first `k` corners of hex `h` yield.
pub open spec fn hex_yield(p: PlayerState, h: int, k: int) -> nat
    decreases k,
{
    if k <= 0 {
        0
    } else {
        hex_yield(p, h, k - 1) + piece_yield(p, spec_hex_vertices(h)[k - 1])
    }
}

/// Hex `h` produces on a roll of `roll`: it carries that number and the robber is
/// elsewhere.
pub open spec fn produces(board: Board, robber: u8, h: int, roll: usize) -> bool {
    board.numbers@[h] as usize == roll && h != robber as int
}

/// Hex `h` can hand out its production on a roll of `roll`: unless it is a producing
/// desert, in which case nobody may have a village or city at its corners.
pub open spec fn yields_safely(board: Board, s: GameState, h: int, roll: usize) -> bool {
    produces(board, s.robber, h, roll) && board.resources@[h] == Resource::Desert ==> forall|i: int, k: int|
        0 <= i < 4 && 0 <= k < 6 ==> #[trigger] piece_yield(s.players[i], spec_hex_vertices(h)[k]) == 0
}

/// What player `p` receives of resource `r` from the producing hexes below `n`.
pub open spec fn roll_yield(board: Board, robber: u8, p: PlayerState, r: int, roll: usize, n: int) -> nat
    decreases n,
{
    if n <= 0 {
        0
    } else {
        roll_yield(board, robber, p, r, roll, n - 1) + if produces(board, robber, n - 1, roll)
            && board.resources@[n - 1].spec_index() == r {
            hex_yield(p, n - 1, 6)
        } else {
            0
        }
    }
}

/// `x` capped at 255.
pub open spec fn sat_u8(x: int) -> u8 {
    if x > 255 {
        255
    } else {
        x as u8
    }
}

/// Sum of the five entries of a hand.
pub open spec fn hand_total(r: Seq<u8>) -> int {
    r[0] + r[1] + r[2] + r[3] + r[4]
}

/// The last position among the first `n` entries of `r` that holds their maximum.
pub open spec fn last_max_index(r: Seq<u8>, n: int) -> int
    decreases n,
{
    if n <= 1 {
        0
    } else {
        let j = last_max_index(r, n - 1);
        if r[n - 1] >= r[j] {
            n - 1
        } else {
            j
        }
    }
}

/// The hand `r` after giving up `n` cards, each time one of the largest pile, the last
/// such pile on ties.
pub open spec fn discard_n(r: Seq<u8>, n: nat) -> Seq<u8>
    decreases n,
{
    if n == 0 {
        r
    } else {
        let s = discard_n(r, (n - 1) as nat);
        let m = last_max_index(s, 5);
        s.update(m, (s[m] - 1) as u8)
    }
}

/// The hand after discarding on a roll of 7: half of it, rounded down, when it has more
/// than seven cards.
pub open spec fn hand_after_seven(r: Seq<u8>) -> Seq<u8> {
    if hand_total(r) > 7 {
        discard_n(r, (hand_total(r) / 2) as nat)
    } else {
        r
    }
}

proof fn lemma_last_max(r: Seq<u8>, n: int)
    requires
        1 <= n <= r.len(),
    ensures
        0 <= last_max_index(r, n) < n,
        forall|i: int| 0 <= i < n ==> #[trigger] r[i] <= r[last_max_index(r, n)],
    decreases n,
{
    if n > 1 {
        lemma_last_max(r, n - 1);
    }
}

proof fn lemma_discard_n(r: Seq<u8>, n: nat)
    requires
        r.len() == 5,
        n <= hand_total(r),
    ensures
        discard_n(r, n).len() == 5,
        hand_total(discard_n(r, n)) == hand_total(r) - n,
        forall|k: int| 0 <= k < 5 ==> #[trigger] discard_n(r, n)[k] <= r[k],
    decreases n,
{
    if n > 0 {
        lemma_discard_n(r, (n - 1) as nat);
        let s = discard_n(r, (n - 1) as nat);
        lemma_last_max(s, 5);
        assert(s[0] <= r[0] && s[1] <= r[1] && s[2] <= r[2] && s[3] <= r[3] && s[4] <= r[4]);
    }
}

impl GameState {
    /// Hands out the production of a roll of `roll`: every hex with that number, unless
    /// the robber stands on it, gives each village at its corners one card and each city
    /// two cards of its resource, capped at 255.
    pub fn roll_resources(&mut self, board: &Board, roll: usize)
        requires
            forall|h: int| 0 <= h < 19 ==> #[trigger] yields_safely(*board, *old(self), h, roll),
        ensures
            forall|i: int| 0 <= i < 4 ==> #[trigger] final(self).players[i] == (PlayerState { resources: final(self).players[i].resources, ..old(self).players[i] }),
            forall|i: int, r: int| 0 <= i < 4 && 0 <= r < 5 ==> #[trigger] final(self).players[i].resources@[r] == sat_u8(old(self).players[i].resources@[r] + roll_yield(*board, old(self).robber, old(self).players[i], r, roll, 19)),
            *final(self) == (GameState { players: final(self).players, ..*old(self) }),
    {
        let ghost o = *self;
        let mut h: usize = 0;
        while h < NUM_HEXES
            invariant
                h <= NUM_HEXES,
                forall|hh: int| 0 <= hh < 19 ==> #[trigger] yields_safely(*board, o, hh, roll),
                *self == (GameState { players: self.players, ..o }),
                forall|i: int| 0 <= i < 4 ==> #[trigger] self.players[i] == (PlayerState { resources: self.players[i].resources, ..o.players[i] }),
                forall|i: int, r: int| 0 <= i < 4 && 0 <= r < 5 ==> #[trigger] self.players[i].resources@[r] == sat_u8(o.players[i].resources@[r] + roll_yield(*board, o.robber, o.players[i], r, roll, h as int)),
            decreases NUM_HEXES - h,
        {
            if board.numbers[h] as usize == roll && h != self.robber as usize {
                let ri = board.resources[h].index();
                let row = hex_vertices(h);
                proof {
                    assert(yields_safely(*board, o, h as int, roll));
                }
                let mut k: usize = 0;
                while k < 6
                    invariant
                        k <= 6,
                        h < NUM_HEXES,
                        ri <= 5,
                        ri == 5 ==> forall|j: int, kk: int| 0 <= j < 4 && 0 <= kk < 6 ==> #[trigger] piece_yield(o.players[j], row@[kk]) == 0,
                        ri == board.resources@[h as int].spec_index(),
                        produces(*board, o.robber, h as int, roll),
                        row@ == spec_hex_vertices(h as int),
                        full_row(row@, NUM_VERTICES),
                        *self == (GameState { players: self.players, ..o }),
                        forall|i: int| 0 <= i < 4 ==> #[trigger] self.players[i] == (PlayerState { resources: self.players[i].resources, ..o.players[i] }),
                        forall|i: int, r: int| 0 <= i < 4 && 0 <= r < 5 ==> #[trigger] self.players[i].resources@[r] == sat_u8(o.players[i].resources@[r] + roll_yield(*board, o.robber, o.players[i], r, roll, h as int) + if r == ri { hex_yield(o.players[i], h as int, k as int) } else { 0 }),
                    decreases 6 - k,
                {
                    let v = row[k];
                    let mut i: usize = 0;
                    while i < 4
                        invariant
                            i <= 4,
                            k < 6,
                            ri <= 5,
                            ri == 5 ==> forall|j: int| 0 <= j < 4 ==> piece_yield(#[trigger] o.players[j], v) == 0,
                            v == row@[k as int],
                            v < NUM_VERTICES,
                            *self == (GameState { players: self.players, ..o }),
                            forall|j: int| 0 <= j < 4 ==> #[trigger] self.players[j] == (PlayerState { resources: self.players[j].resources, ..o.players[j] }),
                            forall|j: int, r: int| 0 <= j < 4 && 0 <= r < 5 ==> #[trigger] self.players[j].resources@[r] == sat_u8(o.players[j].resources@[r] + roll_yield(*board, o.robber, o.players[j], r, roll, h as int) + if r == ri { hex_yield(o.players[j], h as int, k as int) + if j < i { piece_yield(o.players[j], v) } else { 0 } } else { 0 }),
                        decreases 4 - i,
                    {
                        let mut p = self.players[i];
                        let ghost before = p;
                        proof {
                            assert(self.players[i as int] == p);
                            assert(p.villages == o.players[i as int].villages && p.cities == o.players[i as int].cities);
                        }
                        if p.villages & (1u64 << v) != 0 {
                            assert(piece_yield(o.players[i as int], v) == 1);
                            p.resources[ri] = p.resources[ri].saturating_add(1);
                        } else if p.cities & (1u64 << v) != 0 {
                            assert(piece_yield(o.players[i as int], v) == 2);
                            p.resources[ri] = p.resources[ri].saturating_add(2);
                        }
                        self.players[i] = p;
                        i = i + 1;
                    }
                    k = k + 1;
                }
            }
            h = h + 1;
        }
    }

    /// Every player with more than seven cards gives up half of them (rounded down), one
    /// card at a time from the largest pile (the last such pile on ties).
    pub fn discard_excess(&mut self)
        requires
            forall|i: int| 0 <= i < 4 ==> hand_total(#[trigger] old(self).players[i].resources@) <= 255,
        ensures
            forall|i: int| 0 <= i < 4 ==> #[trigger] final(self).players[i] == (PlayerState { resources: final(self).players[i].resources, ..old(self).players[i] }),
            forall|i: int| 0 <= i < 4 ==> #[trigger] final(self).players[i].resources@ == hand_after_seven(old(self).players[i].resources@),
            *final(self) == (GameState { players: final(self).players, ..*old(self) }),
    {
        let ghost o = *self;
        let mut i: usize = 0;
        while i < 4
            invariant
                i <= 4,
                *self == (GameState { players: self.players, ..o }),
                forall|j: int| 0 <= j < 4 ==> hand_total(#[trigger] o.players[j].resources@) <= 255,
                forall|j: int| 0 <= j < 4 ==> #[trigger] self.players[j] == (PlayerState { resources: self.players[j].resources, ..o.players[j] }),
                forall|j: int| 0 <= j < 4 ==> #[trigger] self.players[j].resources@ == if j < i { hand_after_seven(o.players[j].resources@) } else { o.players[j].resources@ },
            decreases 4 - i,
        {
            let mut p = self.players[i];
            let total: u8 = p.resources[0] + p.resources[1] + p.resources[2] + p.resources[3] + p.resources[4];
            if total > 7 {
                let mut c: u8 = 0;
                while c < total / 2
                    invariant
                        c <= total / 2,
                        total as int == hand_total(o.players[i as int].resources@),
                        i < 4,
                        p == (PlayerState { resources: p.resources, ..o.players[i as int] }),
                        p.resources@ == discard_n(o.players[i as int].resources@, c as nat),
                    decreases total / 2 - c,
                {
                    proof {
                        lemma_discard_n(o.players[i as int].resources@, c as nat);
                        lemma_last_max(p.resources@, 5);
                    }
                    let mut most: usize = 0;
                    let mut j: usize = 1;
                    while j < 5
                        invariant
                            1 <= j <= 5,
                            most < j,
                            most == last_max_index(p.resources@, j as int),
                        decreases 5 - j,
                    {
                        if p.resources[j] >= p.resources[most] {
                            most = j;
                        }
                        j = j + 1;
                    }
                    p.resources[most] = p.resources[most] - 1;
                    c = c + 1;
                }
            }
            self.players[i] = p;
            i = i + 1;
        }
    }
}


/// Discarding on a 7 halves a hand of more than seven cards (rounding the discard down)
/// and leaves smaller hands alone; no count of a resource grows.
pub proof fn lemma_discard_halves(r: Seq<u8>)
    requires
        r.len() == 5,
        hand_total(r) <= 255,
    ensures
        hand_after_seven(r).len() == 5,
        hand_total(hand_after_seven(r)) == if hand_total(r) > 7 {
            hand_total(r) - hand_total(r) / 2
        } else {
            hand_total(r)
        },
        forall|k: int| 0 <= k < 5 ==> #[trigger] hand_after_seven(r)[k] <= r[k],
{
    if hand_total(r) > 7 {
        lemma_discard_n(r, (hand_total(r) / 2) as nat);
    }
}

impl GameState {
    /// Outside the placement phase and forced sequences, ending the turn is always offered.
    pub proof fn lemma_end_turn_offered(self, board: Board, flags: u128)
        requires
            !self.spec_is_initial(),
            self.normal_flags(board, flags),
        ensures
            has_bit128(flags, 39),
    {
        assert(self.normal_flag(board, 39));
    }
}

} // verus!
