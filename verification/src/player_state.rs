//! What one player owns: pieces on the board, cards in hand and counters.

use vstd::prelude::*;

use crate::bits::{has_bit128, has_bit64, lemma_clear_bit128, lemma_ones128_le, popcount128};
use crate::topology::{edge_edges, padded_row, spec_edge_edges, NONE, NUM_EDGES};

verus! {

/// Everything that belongs to one player.
///
/// `villages` and `cities` are vertex sets (bit `v` set: a piece on vertex `v`); the road
/// set over the 72 edges is split into `roads_lower` (edges 0..64) and `roads_upper`
/// (edges 64..72). The three card arrays are indexed by resource and card index.
#[derive(Copy, Clone, Debug)]
pub struct PlayerState {
    pub villages: u64,
    pub cities: u64,
    pub roads_lower: u64,
    pub roads_upper: u8,
    pub resources: [u8; 5],
    pub dev_cards: [u8; 5],
    pub bought_dev_cards: [u8; 5],
    pub knights_played: u8,
    pub longest_road: u8,
    pub vps: u8,
    pub roads_left: u8,
    pub villages_left: u8,
    pub cities_left: u8,
}

/// The larger of two naturals.
pub open spec fn nat_max(a: nat, b: nat) -> nat {
    if a >= b {
        a
    } else {
        b
    }
}

/// The road set over all 72 edges as one 128-bit set.
pub open spec fn spec_roads_of(roads_lower: u64, roads_upper: u8) -> u128 {
    ((roads_upper as u128) << 64u128) | (roads_lower as u128)
}

/// Pairs of a neighbouring edge and the length of the chain explored from it.
pub type ChainList = Seq<(usize, nat)>;

/// Exploration of the neighbours of road `cur` from position `k` of its adjacency row,
/// as the longest-road search does it: a neighbour is followed when it is still among
/// the `left` roads and does not also touch the road `prev` that led here; following it
/// removes it from `left`, explores the chain beyond it, and records its length.
/// Returns the recorded chains and the roads left afterwards. `fuel` bounds the depth.
pub open spec fn explore_neighbours(
    fuel: nat,
    cur: usize,
    prev: Option<usize>,
    left: u128,
    k: int,
    subs: ChainList,
) -> (ChainList, u128)
    decreases fuel, 4 - k,
{
    if fuel == 0 || k < 0 || k >= 4 {
        (subs, left)
    } else {
        let next = spec_edge_edges(cur as int)[k];
        if next == NONE {
            (subs, left)
        } else if !has_bit128(left, next) {
            explore_neighbours(fuel, cur, prev, left, k + 1, subs)
        } else if prev is Some && spec_edge_edges(prev->0 as int).contains(next) {
            explore_neighbours(fuel, cur, prev, left, k + 1, subs)
        } else {
            let sub = road_chain((fuel - 1) as nat, next, Some(cur), left ^ (1u128 << next));
            explore_neighbours(fuel, cur, prev, sub.1, k + 1, subs.push((next, sub.0)))
        }
    }
}

/// Length of the longest chain through road `cur` found by the search, and the roads
/// left unexplored afterwards.
pub open spec fn road_chain(fuel: nat, cur: usize, prev: Option<usize>, left: u128) -> (
    nat,
    u128,
)
    decreases fuel, 5int,
{
    let explored = explore_neighbours(fuel, cur, prev, left, 0, seq![]);
    (combine_chains(explored.0), explored.1)
}

/// Best length from pairing chain `a` with the chains from position `b` on: two chains
/// that leave from different, non-touching neighbours join across the current road.
pub open spec fn join_pairs(subs: ChainList, a: int, b: int, acc: nat) -> nat
    decreases subs.len() - b,
{
    if b < 0 || b >= subs.len() || a < 0 || a >= subs.len() {
        acc
    } else {
        let acc2 = if subs[b].0 != subs[a].0 && !spec_edge_edges(subs[a].0 as int).contains(
            subs[b].0,
        ) {
            nat_max(acc, subs[a].1 + subs[b].1 + 1)
        } else {
            acc
        };
        join_pairs(subs, a, b + 1, acc2)
    }
}

/// Best length over the chains from position `a` on, each alone (plus the current road)
/// or joined with another.
pub open spec fn join_all(subs: ChainList, a: int, acc: nat) -> nat
    decreases subs.len() - a,
{
    if a < 0 || a >= subs.len() {
        acc
    } else {
        join_all(subs, a + 1, join_pairs(subs, a, 0, nat_max(acc, subs[a].1 + 1)))
    }
}

/// Longest chain made of the current road and the explored chains.
pub open spec fn combine_chains(subs: ChainList) -> nat {
    join_all(subs, 0, 1)
}

/// Length of the longest contiguous road through road `placed` that the search finds in
/// the road set `roads`.
pub open spec fn road_length_through(roads: u128, placed: usize) -> nat {
    let left = roads ^ (1u128 << placed);
    road_chain(left as nat, placed, None, left).0
}

/// Total length of the recorded chains.
pub open spec fn chain_total(subs: ChainList) -> nat
    decreases subs.len(),
{
    if subs.len() == 0 {
        0
    } else {
        chain_total(subs.drop_last()) + subs.last().1
    }
}

/// Every adjacency row of an edge has four entries, each an edge or padding.
proof fn lemma_edge_rows_bounded(e: int)
    ensures
        spec_edge_edges(e).len() == 4,
        forall|k: int| 0 <= k < 4 ==> #[trigger] spec_edge_edges(e)[k] < NUM_EDGES || spec_edge_edges(e)[k] == NONE,
{
}

/// One recorded chain is at most the total, and two different ones together too.
proof fn lemma_chain_parts(subs: ChainList, a: int, b: int)
    requires
        0 <= a < subs.len(),
        0 <= b < subs.len(),
    ensures
        subs[a].1 <= chain_total(subs),
        a != b ==> subs[a].1 + subs[b].1 <= chain_total(subs),
    decreases subs.len(),
{
    let d = subs.drop_last();
    let l = subs.len() - 1;
    if a < l && b < l {
        lemma_chain_parts(d, a, b);
    } else if a < l {
        lemma_chain_parts(d, a, a);
    } else if b < l {
        lemma_chain_parts(d, b, b);
    }
}

/// Pairing chain `a` with others gives at least `acc` and at most one more than the total
/// (or `acc`).
proof fn lemma_join_pairs_bounds(subs: ChainList, a: int, b: int, acc: nat)
    requires
        0 <= a < subs.len(),
    ensures
        acc <= join_pairs(subs, a, b, acc),
        join_pairs(subs, a, b, acc) <= nat_max(acc, chain_total(subs) + 1),
    decreases subs.len() - b,
{
    if 0 <= b < subs.len() {
        let acc2 = if subs[b].0 != subs[a].0 && !spec_edge_edges(subs[a].0 as int).contains(subs[b].0) {
            nat_max(acc, subs[a].1 + subs[b].1 + 1)
        } else {
            acc
        };
        if subs[b].0 != subs[a].0 {
            lemma_chain_parts(subs, a, b);
        }
        lemma_join_pairs_bounds(subs, a, b + 1, acc2);
    }
}

/// Joining the chains from position `a` on gives at least `acc` and at most one more than
/// the total (or `acc`).
proof fn lemma_join_all_bounds(subs: ChainList, a: int, acc: nat)
    ensures
        acc <= join_all(subs, a, acc),
        join_all(subs, a, acc) <= nat_max(acc, chain_total(subs) + 1),
    decreases subs.len() - a,
{
    if 0 <= a < subs.len() {
        lemma_chain_parts(subs, a, a);
        let acc1 = nat_max(acc, subs[a].1 + 1);
        lemma_join_pairs_bounds(subs, a, 0, acc1);
        lemma_join_all_bounds(subs, a + 1, join_pairs(subs, a, 0, acc1));
    }
}

/// The chain found through road `cur` counts the road itself and at most the roads it
/// takes out of `left`.
proof fn lemma_road_chain_counts(fuel: nat, cur: usize, prev: Option<usize>, left: u128)
    ensures
        1 <= road_chain(fuel, cur, prev, left).0,
        popcount128(road_chain(fuel, cur, prev, left).1) <= popcount128(left),
        road_chain(fuel, cur, prev, left).0 + popcount128(road_chain(fuel, cur, prev, left).1) <= 1 + popcount128(left),
    decreases fuel, 5int,
{
    let explored = explore_neighbours(fuel, cur, prev, left, 0, seq![]);
    lemma_explore_counts(fuel, cur, prev, left, 0, seq![]);
    lemma_join_all_bounds(explored.0, 0, 1);
}

/// Exploring neighbours records chains whose lengths add up to at most the roads taken
/// out of `left`.
proof fn lemma_explore_counts(fuel: nat, cur: usize, prev: Option<usize>, left: u128, k: int, subs: ChainList)
    ensures
        popcount128(explore_neighbours(fuel, cur, prev, left, k, subs).1) <= popcount128(left),
        chain_total(explore_neighbours(fuel, cur, prev, left, k, subs).0) + popcount128(
            explore_neighbours(fuel, cur, prev, left, k, subs).1,
        ) <= chain_total(subs) + popcount128(left),
    decreases fuel, 4 - k,
{
    if !(fuel == 0 || k < 0 || k >= 4) {
        lemma_edge_rows_bounded(cur as int);
        let next = spec_edge_edges(cur as int)[k];
        if next == NONE {
        } else if !has_bit128(left, next) {
            lemma_explore_counts(fuel, cur, prev, left, k + 1, subs);
        } else if prev is Some && spec_edge_edges(prev->0 as int).contains(next) {
            lemma_explore_counts(fuel, cur, prev, left, k + 1, subs);
        } else {
            let left2 = left ^ (1u128 << next);
            lemma_clear_bit128(left, next, 128);
            let sub = road_chain((fuel - 1) as nat, next, Some(cur), left2);
            lemma_road_chain_counts((fuel - 1) as nat, next, Some(cur), left2);
            let subs2 = subs.push((next, sub.0));
            assert(subs2.drop_last() =~= subs);
            lemma_explore_counts(fuel, cur, prev, sub.1, k + 1, subs2);
        }
    }
}

/// The longest road through a placed road counts that road, and no more roads than the
/// player has: it is at least 1 and at most the number of roads in `roads`.
pub proof fn lemma_road_length_bounds(roads: u128, placed: usize)
    requires
        placed < 128,
        has_bit128(roads, placed),
    ensures
        1 <= road_length_through(roads, placed) <= popcount128(roads),
{
    let left = roads ^ (1u128 << placed);
    lemma_clear_bit128(roads, placed, 128);
    lemma_road_chain_counts(left as nat, placed, None, left);
}

/// The chains recorded in the first `n` slots.
pub open spec fn chain_list(slots: Seq<(usize, u8)>, n: int) -> ChainList {
    Seq::new(n as nat, |j: int| (slots[j].0, slots[j].1 as nat))
}

/// Sum of the chain lengths in the first `n` slots.
pub open spec fn chain_sum(slots: Seq<(usize, u8)>, n: int) -> nat
    decreases n,
{
    if n <= 0 {
        0
    } else {
        chain_sum(slots, n - 1) + slots[n - 1].1 as nat
    }
}

proof fn lemma_chain_sum_pair(slots: Seq<(usize, u8)>, n: int, a: int, b: int)
    requires
        0 <= a < n,
        0 <= b < n,
        a != b,
    ensures
        slots[a].1 + slots[b].1 <= chain_sum(slots, n),
        slots[a].1 <= chain_sum(slots, n),
    decreases n,
{
    if n - 1 != a && n - 1 != b {
        lemma_chain_sum_pair(slots, n - 1, a, b);
    } else if n - 1 == a {
        lemma_chain_sum_single(slots, n - 1, b);
    } else {
        lemma_chain_sum_single(slots, n - 1, a);
    }
}

proof fn lemma_chain_sum_single(slots: Seq<(usize, u8)>, n: int, a: int)
    requires
        0 <= a < n,
    ensures
        slots[a].1 <= chain_sum(slots, n),
    decreases n,
{
    if n - 1 != a {
        lemma_chain_sum_single(slots, n - 1, a);
    }
}

proof fn lemma_chain_sum_frame(s1: Seq<(usize, u8)>, s2: Seq<(usize, u8)>, n: int)
    requires
        forall|j: int| 0 <= j < n ==> s1[j] == s2[j],
    ensures
        chain_sum(s1, n) == chain_sum(s2, n),
    decreases n,
{
    if n > 0 {
        lemma_chain_sum_frame(s1, s2, n - 1);
    }
}

/// Whether `x` is among the four entries of `row`.
fn row_contains(row: [usize; 4], x: usize) -> (b: bool)
    ensures
        b == row@.contains(x),
{
    let b = row[0] == x || row[1] == x || row[2] == x || row[3] == x;
    proof {
        if b {
            if row[0] == x {
                assert(row@[0] == x);
            } else if row[1] == x {
                assert(row@[1] == x);
            } else if row[2] == x {
                assert(row@[2] == x);
            } else {
                assert(row@[3] == x);
            }
        }
    }
    b
}

impl PlayerState {
    /// The road set over all 72 edges.
    pub open spec fn spec_roads(self) -> u128 {
        spec_roads_of(self.roads_lower, self.roads_upper)
    }

    /// The road set over all 72 edges.
    pub fn roads(&self) -> (r: u128)
        ensures
            r == self.spec_roads(),
    {
        ((self.roads_upper as u128) << 64u128) | (self.roads_lower as u128)
    }

    /// The player has a village or a city on vertex `vertex`.
    pub open spec fn spec_built_on(self, vertex: usize) -> bool {
        has_bit64(self.villages | self.cities, vertex)
    }

    /// Whether the player has a village or a city on vertex `vertex`.
    pub fn has_built_on_vertex(&self, vertex: usize) -> (b: bool)
        requires
            vertex < 64,
        ensures
            b == self.spec_built_on(vertex),
    {
        (self.villages | self.cities) & (1u64 << vertex) != 0
    }

    /// The player has a village left and a brick, a wood, a wheat and a sheep.
    pub open spec fn spec_can_settle(self) -> bool {
        &&& self.villages_left > 0
        &&& self.resources@[0] > 0
        &&& self.resources@[1] > 0
        &&& self.resources@[3] > 0
        &&& self.resources@[4] > 0
    }

    /// Whether the player can pay for and place a village.
    pub fn can_settle(&self) -> (b: bool)
        ensures
            b == self.spec_can_settle(),
    {
        self.villages_left > 0 && self.resources[0] > 0 && self.resources[1] > 0
            && self.resources[3] > 0 && self.resources[4] > 0
    }

    /// The player has a city left, three ore and two wheat.
    pub open spec fn spec_can_city(self) -> bool {
        &&& self.cities_left > 0
        &&& self.resources@[2] >= 3
        &&& self.resources@[3] >= 2
    }

    /// Whether the player can pay for and place a city.
    pub fn can_city(&self) -> (b: bool)
        ensures
            b == self.spec_can_city(),
    {
        self.cities_left > 0 && self.resources[2] >= 3 && self.resources[3] >= 2
    }

    /// The player has a road left, a brick and a wood.
    pub open spec fn spec_can_road(self) -> bool {
        &&& self.roads_left > 0
        &&& self.resources@[0] > 0
        &&& self.resources@[1] > 0
    }

    /// Whether the player can pay for and place a road.
    pub fn can_road(&self) -> (b: bool)
        ensures
            b == self.spec_can_road(),
    {
        self.roads_left > 0 && self.resources[0] > 0 && self.resources[1] > 0
    }

    /// The player has an ore, a wheat and a sheep.
    pub open spec fn spec_can_buy_dev_card(self) -> bool {
        &&& self.resources@[2] > 0
        &&& self.resources@[3] > 0
        &&& self.resources@[4] > 0
    }

    /// Whether the player can pay for a development card.
    pub fn can_buy_dev_card(&self) -> (b: bool)
        ensures
            b == self.spec_can_buy_dev_card(),
    {
        self.resources[2] > 0 && self.resources[3] > 0 && self.resources[4] > 0
    }

    /// Card `i` was held before this turn: more copies in hand than bought this turn.
    pub open spec fn spec_playable(self, i: int) -> bool {
        self.dev_cards@[i] > self.bought_dev_cards@[i]
    }

    /// Some card other than a victory point card was held before this turn.
    pub open spec fn spec_can_play_dev_card(self) -> bool {
        exists|i: int| 0 <= i < 4 && #[trigger] self.spec_playable(i)
    }

    /// Whether the player holds a playable card (victory point cards are never played).
    pub fn can_play_dev_card(&self) -> (b: bool)
        ensures
            b == self.spec_can_play_dev_card(),
    {
        let mut i: usize = 0;
        while i < 4
            invariant
                i <= 4,
                forall|j: int| 0 <= j < i ==> !#[trigger] self.spec_playable(j),
            decreases 4 - i,
        {
            if self.dev_cards[i] > self.bought_dev_cards[i] {
                assert(self.spec_playable(i as int));
                return true;
            }
            i = i + 1;
        }
        false
    }

    /// Updates `longest_road` with the longest contiguous road through the road just
    /// placed on edge `placed`: a placement can only lengthen a chain that contains it.
    pub fn calculate_longest_road(&mut self, placed: usize)
        requires
            placed < NUM_EDGES,
        ensures
            final(self).longest_road as nat == nat_max(
                old(self).longest_road as nat,
                road_length_through(old(self).spec_roads(), placed),
            ),
            *final(self) == (PlayerState { longest_road: final(self).longest_road, ..*old(self) }),
            final(self).longest_road >= old(self).longest_road,
    {
        let mut roads_left = self.roads();
        roads_left = roads_left ^ (1u128 << placed);
        let ghost left = roads_left;
        let sub = self.longest_chain(placed, None, &mut roads_left, Ghost(left as nat));
        if sub > self.longest_road {
            self.longest_road = sub;
        }
    }

    /// The longest-road search from road `current_road`, reached from `prev_road`.
    /// Roads are taken out of `roads_left` as they are explored.
    fn longest_chain(
        &self,
        current_road: usize,
        prev_road: Option<usize>,
        roads_left: &mut u128,
        Ghost(fuel): Ghost<nat>,
    ) -> (longest: u8)
        requires
            current_road < NUM_EDGES,
            prev_road matches Some(p) ==> p < NUM_EDGES,
            *old(roads_left) as nat <= fuel,
        ensures
            (longest as nat, *final(roads_left)) == road_chain(
                fuel,
                current_road,
                prev_road,
                *old(roads_left),
            ),
            *final(roads_left) <= *old(roads_left),
            popcount128(*final(roads_left)) <= popcount128(*old(roads_left)),
            longest >= 1,
            longest as int <= 1 + popcount128(*old(roads_left)) - popcount128(*final(roads_left)),
        decreases fuel,
    {
        let ghost left0 = *roads_left;
        let mut longest: u8 = 1;
        let mut sub_lengths: [(usize, u8); 4] = [(NONE, 0u8); 4];
        let mut i: usize = 0;
        let row = edge_edges(current_road);
        let mut k: usize = 0;
        proof {
            lemma_ones128_le(left0, 128);
            assert(chain_list(sub_lengths@, 0) =~= seq![]);
        }
        while k < 4 && row[k] != NONE
            invariant
                k <= 4,
                i <= k,
                current_road < NUM_EDGES,
                prev_road matches Some(p) ==> p < NUM_EDGES,
                row@ == spec_edge_edges(current_road as int),
                padded_row(row@, NUM_EDGES),
                *roads_left <= left0,
                left0 as nat <= fuel,
                popcount128(left0) <= 128,
                chain_sum(sub_lengths@, i as int) + popcount128(*roads_left) <= popcount128(left0),
                forall|j: int| 0 <= j < i ==> #[trigger] sub_lengths@[j].0 < NUM_EDGES,
                explore_neighbours(fuel, current_road, prev_road, left0, 0, seq![])
                    == explore_neighbours(
                    fuel,
                    current_road,
                    prev_road,
                    *roads_left,
                    k as int,
                    chain_list(sub_lengths@, i as int),
                ),
            decreases 4 - k,
        {
            let next = row[k];
            if *roads_left & (1u128 << next) != 0 {
                let skip = match prev_road {
                    Some(prev) => row_contains(edge_edges(prev), next),
                    None => false,
                };
                if !skip {
                    let ghost before = *roads_left;
                    let ghost slots_before = sub_lengths@;
                    proof {
                        lemma_clear_bit128(before, next, 128);
                    }
                    *roads_left = *roads_left ^ (1u128 << next);
                    let l = self.longest_chain(
                        next,
                        Some(current_road),
                        roads_left,
                        Ghost((fuel - 1) as nat),
                    );
                    sub_lengths[i] = (next, l);
                    proof {
                        lemma_chain_sum_frame(slots_before, sub_lengths@, i as int);
                        assert(chain_list(sub_lengths@, i + 1) =~= chain_list(
                            slots_before,
                            i as int,
                        ).push((next, l as nat)));
                    }
                    i = i + 1;
                }
            }
            k = k + 1;
        }
        let ghost subs = chain_list(sub_lengths@, i as int);
        assert(explore_neighbours(fuel, current_road, prev_road, *roads_left, k as int, subs) == (
        subs, *roads_left));
        let mut a: usize = 0;
        while a < i
            invariant
                a <= i,
                i <= 4,
                subs == chain_list(sub_lengths@, i as int),
                forall|j: int| 0 <= j < i ==> #[trigger] sub_lengths@[j].0 < NUM_EDGES,
                chain_sum(sub_lengths@, i as int) <= 128,
                1 <= longest as nat <= 1 + chain_sum(sub_lengths@, i as int),
                join_all(subs, 0, 1) == join_all(subs, a as int, longest as nat),
            decreases i - a,
        {
            let (e1, l1) = sub_lengths[a];
            proof {
                lemma_chain_sum_single(sub_lengths@, i as int, a as int);
            }
            if l1 + 1 > longest {
                longest = l1 + 1;
            }
            let ghost start = longest as nat;
            let row1 = edge_edges(e1);
            let mut b: usize = 0;
            while b < i
                invariant
                    b <= i,
                    a < i,
                    i <= 4,
                    subs == chain_list(sub_lengths@, i as int),
                    (e1, l1) == sub_lengths@[a as int],
                    e1 < NUM_EDGES,
                    row1@ == spec_edge_edges(e1 as int),
                    chain_sum(sub_lengths@, i as int) <= 128,
                    1 <= longest as nat <= 1 + chain_sum(sub_lengths@, i as int),
                    join_pairs(subs, a as int, 0, start) == join_pairs(
                        subs,
                        a as int,
                        b as int,
                        longest as nat,
                    ),
                decreases i - b,
            {
                let (e2, l2) = sub_lengths[b];
                if e2 != e1 {
                    if !row_contains(row1, e2) {
                        proof {
                            lemma_chain_sum_pair(sub_lengths@, i as int, a as int, b as int);
                        }
                        if l1 + l2 + 1 > longest {
                            longest = l1 + l2 + 1;
                        }
                    }
                }
                b = b + 1;
            }
            a = a + 1;
        }
        longest
    }
}

impl PlayerState {
    /// A player before the first placement: no pieces, 15 roads, 5 villages and 4 cities
    /// in stock, the resources that pay for the two initial villages and roads, no cards,
    /// and a longest road of 1.
    pub open spec fn is_fresh(self) -> bool {
        &&& self.villages == 0
        &&& self.cities == 0
        &&& self.roads_lower == 0
        &&& self.roads_upper == 0
        &&& self.roads_left == 15
        &&& self.villages_left == 5
        &&& self.cities_left == 4
        &&& self.resources@ == seq![4u8, 4, 0, 2, 2]
        &&& self.dev_cards@ == seq![0u8, 0, 0, 0, 0]
        &&& self.bought_dev_cards@ == seq![0u8, 0, 0, 0, 0]
        &&& self.knights_played == 0
        &&& self.longest_road == 1
        &&& self.vps == 0
    }
}

impl Default for PlayerState {
    /// A player before the first placement: no pieces, 15 roads, 5 villages and 4 cities
    /// in stock, and the resources that pay for the two initial villages and roads.
    fn default() -> (p: Self)
        ensures
            p.is_fresh(),
    {
        let p = PlayerState {
            villages: 0,
            cities: 0,
            roads_lower: 0,
            roads_upper: 0,
            roads_left: 15,
            villages_left: 5,
            cities_left: 4,
            resources: [4, 4, 0, 2, 2],
            dev_cards: [0; 5],
            bought_dev_cards: [0; 5],
            knights_played: 0,
            longest_road: 1,
            vps: 0,
        };
        assert(p.resources@ =~= seq![4u8, 4, 0, 2, 2]);
        assert(p.dev_cards@ =~= seq![0u8, 0, 0, 0, 0]);
        assert(p.bought_dev_cards@ =~= seq![0u8, 0, 0, 0, 0]);
        p
    }
}

} // verus!
