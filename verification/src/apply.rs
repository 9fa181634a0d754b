//! Applying an action to a game state: what each action requires of the position, how
//! placeholder actions are determined, and the state that results.

use vstd::prelude::*;
use vstd::array::spec_array_update;

use crate::bits::{has_bit64, nth_bit64, nth_set_bit64, popcount64};
use crate::board::Board;
use crate::game_state::{
    city_built, hand_after_seven, hand_total, piece_yield, produces, yields_safely, res_add, roll_yield, row_touches_road3,
    row_touches_road4, road_built, sat_u8, village_built, vps_added, GameState,
};
use crate::graph::Action;
use crate::player_state::PlayerState;
use crate::topology::{
    edge_edges, spec_hex_vertices, spec_vertex_edges, spec_vertex_hexes, vertex_edges, vertex_hexes, NONE, NUM_EDGES,
    NUM_VERTICES,
};
use crate::rng::random_below_u8;
use crate::types::{DevCard, Player, Resource};
use rand::rngs::SmallRng;

verus! {

/// How many of the hexes in the first `k` entries of `row` hold resource `r`.
pub open spec fn row_yield(board: Board, row: Seq<usize>, r: int, k: int) -> nat
    decreases k,
{
    if k <= 0 {
        0
    } else {
        row_yield(board, row, r, k - 1) + if row[k - 1] != NONE && board.resources@[row[k - 1] as int].spec_index() == r {
            1nat
        } else {
            0nat
        }
    }
}

/// What a village on vertex `v` collects of resource `r` when it is a player's second
/// initial village: one card per adjacent hex of that resource.
pub open spec fn initial_yield(board: Board, v: usize, r: int) -> nat {
    row_yield(board, spec_vertex_hexes(v as int), r, 3)
}


/// The first harbour from position `k` on whose resource is `r`, or 9 when there is none.
pub open spec fn first_port_from(ports: Seq<Resource>, r: Resource, k: int) -> int
    decreases 9 - k,
{
    if k >= 9 {
        9
    } else if ports[k] == r {
        k
    } else {
        first_port_from(ports, r, k + 1)
    }
}

/// Number of cards in the piles from position `k` on.
pub open spec fn cards_from(counts: Seq<u8>, k: int) -> int
    decreases 5 - k,
{
    if k >= 5 {
        0
    } else {
        counts[k] + cards_from(counts, k + 1)
    }
}

/// The pile holding card number `i` (counted from 0) when the cards of the piles from `k` on
/// are laid out pile after pile.
pub open spec fn card_at(counts: Seq<u8>, i: int, k: int) -> int
    decreases 5 - k,
{
    if k >= 5 {
        5
    } else if counts[k] > i {
        k
    } else {
        card_at(counts, i - counts[k], k + 1)
    }
}

/// Player `p` can take one more card of kind `c`: the card counters and, for a victory
/// point card, the victory points stay in range.
pub open spec fn card_room(p: PlayerState, c: int) -> bool {
    &&& p.dev_cards@[c] < 255
    &&& p.bought_dev_cards@[c] < 255
    &&& c == 4 ==> p.vps < 255
}

impl GameState {
    /// The seat of the player to move as a player.
    pub open spec fn mover(self) -> Player {
        Player::spec_from_u8(self.current_player)
    }

    // ---- placement phase

    /// An initial village on `v` can be paid and placed, and the cards that a second
    /// initial village collects fit their counters.
    pub open spec fn ok_initial_settle(self, board: Board, v: u8) -> bool {
        let p = village_built(self.cur(), v as usize);
        &&& self.current_player < 4
        &&& self.can_build_village(v as usize, self.current_player as int)
        &&& self.cur().villages_left == 4 ==> {
            &&& (v as usize) < NUM_VERTICES
            &&& forall|r: int| 0 <= r < 5 ==> #[trigger] p.resources@[r] + initial_yield(board, v as usize, r) <= 255
        }
    }

    /// `t` is the state after an initial village on `v`: it is paid and placed, and when
    /// it is the player's second village, the player takes one card per adjacent hex.
    pub open spec fn after_initial_settle(self, board: Board, v: u8, t: GameState) -> bool {
        let i = self.current_player as int;
        let s1 = self.with_player(i, village_built(self.cur(), v as usize));
        if self.cur().villages_left == 4 {
            &&& t == s1.with_player(i, PlayerState { resources: t.players[i].resources, ..s1.players[i] })
            &&& forall|r: int| 0 <= r < 5 ==> #[trigger] t.players[i].resources@[r] == s1.players[i].resources@[r]
                + initial_yield(board, v as usize, r)
        } else {
            t == s1
        }
    }

    /// The village that the next initial road of the player to move goes to.
    pub open spec fn road_village(self) -> usize {
        choose|v: usize| self.first_unroaded_village(v)
    }

    /// The edge of initial road spot `spot`.
    pub open spec fn initial_road_edge(self, spot: u8) -> usize {
        spec_vertex_edges(self.road_village() as int)[spot as int]
    }

    /// An initial road on spot `spot` exists and can be paid and placed, on a board with
    /// one to four players.
    pub open spec fn ok_initial_road(self, board: Board, spot: u8) -> bool {
        &&& self.current_player < 4
        &&& self.has_unroaded_village()
        &&& spot < 3
        &&& self.initial_road_edge(spot) != NONE
        &&& self.can_build_road(self.initial_road_edge(spot), self.current_player as int)
        &&& 1 <= board.num_players <= 4
    }

    /// `t` is the state after an initial road on spot `spot`: the road is built, and the
    /// turn passes forward until the last player has placed twice, then backward.
    pub open spec fn after_initial_road(self, board: Board, spot: u8, t: GameState) -> bool {
        let cp = self.current_player;
        let np = board.num_players;
        let s1 = self.road_result(self.initial_road_edge(spot), self.mover());
        let forward = popcount64(s1.players[np - 1].villages) < 2;
        let next: int = if forward {
            if cp + 1 < np - 1 {
                cp + 1
            } else {
                np - 1
            }
        } else if cp == 0 {
            0
        } else {
            cp - 1
        };
        t == GameState { current_player: next as u8, ..s1 }
    }

    // ---- robber

    /// `t` is the state with the robber on hex `spot`.
    pub open spec fn after_move_robber(self, spot: u8, t: GameState) -> bool {
        t == GameState { robber: spot, ..self }
    }

    /// A steal from player `p` is possible: of resource `r`, or of a random card of `p`
    /// when `r` is the desert, with every count in range.
    pub open spec fn ok_steal(self, p: u8, r: Resource) -> bool {
        let hand = self.players[p as int].resources@;
        let mine = self.cur().resources@;
        &&& p < 4
        &&& if r == Resource::Desert {
            &&& hand_total(hand) <= 255
            &&& hand_total(hand) > 0 ==> {
                &&& self.current_player < 4
                &&& forall|k: int| 0 <= k < 5 && #[trigger] hand[k] > 0 ==> (p == self.current_player || mine[k] < 255)
            }
        } else {
            &&& self.current_player < 4
            &&& hand[r.spec_index() as int] >= 1
            &&& (p == self.current_player || mine[r.spec_index() as int] < 255)
        }
    }

    /// `got` is a possible resource of a steal from `p` of `r`: `r` itself unless it is the
    /// desert; otherwise one that `p` holds, or the desert when `p` holds nothing.
    pub open spec fn steal_outcome(self, p: u8, r: Resource, got: Resource) -> bool {
        let hand = self.players[p as int].resources@;
        if r == Resource::Desert {
            if hand_total(hand) == 0 {
                got == Resource::Desert
            } else {
                got != Resource::Desert && hand[got.spec_index() as int] > 0
            }
        } else {
            got == r
        }
    }

    /// `t` is the state after the player to move takes one `got` from player `p` (nothing
    /// moves for the desert).
    pub open spec fn after_steal(self, p: u8, got: Resource, t: GameState) -> bool {
        if got == Resource::Desert {
            t == self
        } else {
            let k = got.spec_index() as int;
            let i = self.current_player as int;
            let victim = self.players[p as int];
            let s1 = self.with_player(p as int, PlayerState { resources: res_add(victim.resources, k, -1), ..victim });
            t == s1.with_player(i, PlayerState { resources: res_add(s1.players[i].resources, k, 1), ..s1.players[i] })
        }
    }

    // ---- building

    /// Settle spot number `spot` exists and a village there can be paid.
    pub open spec fn ok_settle(self, spot: u8) -> bool {
        &&& self.current_player < 4
        &&& (spot as nat) < self.settle_spot_count(NUM_VERTICES as int)
        &&& self.can_build_village(self.settle_vertex(spot as nat), self.current_player as int)
    }

    /// `t` is the state after a village on settle spot number `spot`.
    pub open spec fn after_settle(self, spot: u8, t: GameState) -> bool {
        t == self.with_player(self.current_player as int, village_built(self.cur(), self.settle_vertex(spot as nat)))
    }

    /// The village that city spot `spot` upgrades: the player's `spot`-th village.
    pub open spec fn city_vertex(self, spot: u8) -> usize {
        nth_set_bit64(self.cur().villages, spot as nat)
    }

    /// The player to move has a village number `spot` and can pay for a city there.
    pub open spec fn ok_city(self, spot: u8) -> bool {
        &&& self.current_player < 4
        &&& (spot as nat) < popcount64(self.cur().villages)
        &&& self.can_build_city(self.city_vertex(spot), self.current_player as int)
    }

    /// `t` is the state after the player's village number `spot` becomes a city.
    pub open spec fn after_city(self, spot: u8, t: GameState) -> bool {
        t == self.with_player(self.current_player as int, city_built(self.cur(), self.city_vertex(spot)))
    }

    /// Road spot number `spot` exists and a road there can be paid.
    pub open spec fn ok_road(self, spot: u8) -> bool {
        &&& self.current_player < 4
        &&& (spot as nat) < self.road_spot_count(NUM_EDGES as int)
        &&& self.can_build_road(self.road_edge(spot as nat), self.current_player as int)
    }

    /// `t` is the state after a road on road spot number `spot`.
    pub open spec fn after_road(self, spot: u8, t: GameState) -> bool {
        t == self.road_result(self.road_edge(spot as nat), self.mover())
    }

    /// The state with a brick and a wood handed to the player to move, for a road-builder
    /// road.
    pub open spec fn with_road_materials(self) -> GameState {
        let p = self.cur();
        self.with_player(
            self.current_player as int,
            PlayerState { resources: res_add(res_add(p.resources, 0, 1), 1, 1), ..p },
        )
    }

    /// A road-builder road on spot `spot` keeps every counter in range.
    pub open spec fn ok_road_build(self, spot: u8) -> bool {
        let p = self.cur();
        &&& self.current_player < 4
        &&& p.roads_left > 0 ==> {
            &&& p.resources@[0] < 255
            &&& p.resources@[1] < 255
            &&& (spot as nat) < self.road_spot_count(NUM_EDGES as int) ==> self.with_road_materials().can_build_road(
                self.road_edge(spot as nat),
                self.current_player as int,
            )
        }
    }

    /// `t` is the state after a road-builder road on spot `spot`: nothing happens when the
    /// player has no road left; otherwise the player is handed a brick and a wood and, when
    /// the spot exists, builds the road with them.
    pub open spec fn after_road_build(self, spot: u8, t: GameState) -> bool {
        if self.cur().roads_left == 0 {
            t == self
        } else if (spot as nat) < self.road_spot_count(NUM_EDGES as int) {
            t == self.with_road_materials().road_result(self.road_edge(spot as nat), self.mover())
        } else {
            t == self.with_road_materials()
        }
    }

    // ---- development cards and trades

    /// Number of cards left in the deck.
    pub open spec fn deck_total(self) -> int {
        hand_total(self.dev_card_deck@)
    }

    /// Buying `card` (a random card of the deck for `Unknown`) can be paid and every
    /// counter stays in range.
    pub open spec fn ok_buy(self, card: DevCard) -> bool {
        let p = self.cur();
        &&& self.current_player < 4
        &&& p.resources@[2] >= 1 && p.resources@[3] >= 1 && p.resources@[4] >= 1
        &&& if card == DevCard::Unknown {
            &&& 0 < self.deck_total() <= 255
            &&& forall|c: int| 0 <= c < 5 && #[trigger] self.dev_card_deck@[c] > 0 ==> card_room(p, c)
        } else {
            card_room(p, card.spec_index() as int)
        }
    }

    /// `got` is a possible card of buying `card`: `card` itself unless it is `Unknown`,
    /// otherwise a kind that the deck holds.
    pub open spec fn buy_outcome(self, card: DevCard, got: DevCard) -> bool {
        if card == DevCard::Unknown {
            got != DevCard::Unknown && self.dev_card_deck@[got.spec_index() as int] > 0
        } else {
            got == card
        }
    }

    /// `t` is the state after the player to move pays an ore, a wheat and a sheep for card
    /// `got`, which is taken from the deck when `card` is `Unknown`; a victory point card
    /// scores at once.
    pub open spec fn after_buy(self, card: DevCard, got: DevCard, t: GameState) -> bool {
        let c = got.spec_index() as int;
        let p = self.cur();
        let q = PlayerState {
            resources: res_add(res_add(res_add(p.resources, 2, -1), 3, -1), 4, -1),
            dev_cards: res_add(p.dev_cards, c, 1),
            bought_dev_cards: res_add(p.bought_dev_cards, c, 1),
            vps: if c == 4 {
                (p.vps + 1) as u8
            } else {
                p.vps
            },
            ..p
        };
        let deck = if card == DevCard::Unknown {
            res_add(self.dev_card_deck, c, -1)
        } else {
            self.dev_card_deck
        };
        t == GameState { dev_card_deck: deck, ..self.with_player(self.current_player as int, q) }
    }

    /// The harbour whose rate a trade giving `give` uses: the first of that resource.
    pub open spec fn trade_port(board: Board, give: Resource) -> int {
        first_port_from(board.ports@, give, 0)
    }

    /// A bank trade of `give` for `get`: both are resources, a harbour of `give` exists,
    /// and the player to move holds enough `give` for that harbour's rate.
    pub open spec fn ok_trade(self, board: Board, give: Resource, get: Resource) -> bool {
        &&& self.current_player < 4
        &&& give != Resource::Desert
        &&& get != Resource::Desert
        &&& Self::trade_port(board, give) < 9
        &&& self.cur().resources@[give.spec_index() as int] >= self.trade_rate(board, Self::trade_port(board, give))
    }

    /// `t` is the state after the player to move gives the rate of `give` and takes one
    /// `get` (capped at 255).
    pub open spec fn after_trade(self, board: Board, give: Resource, get: Resource, t: GameState) -> bool {
        let p = self.cur();
        let rate = self.trade_rate(board, Self::trade_port(board, give));
        let r1 = res_add(p.resources, give.spec_index() as int, -rate);
        let k = get.spec_index() as int;
        let r2 = spec_array_update(r1, k, sat_u8(r1[k] + 1));
        t == self.with_player(self.current_player as int, PlayerState { resources: r2, ..p })
    }

    /// Playing `card`: a knight, monopoly, year of plenty or road builder that the player
    /// holds, with the knight count and the largest-army award in range.
    pub open spec fn ok_play(self, card: DevCard) -> bool {
        let p = self.cur();
        let holder = self.largest_army.0;
        &&& self.current_player < 4
        &&& card != DevCard::VP && card != DevCard::Unknown
        &&& p.dev_cards@[card.spec_index() as int] >= 1
        &&& card == DevCard::Knight ==> {
            &&& p.knights_played < 255
            &&& p.knights_played + 1 > self.largest_army.1 ==> {
                &&& holder != Player::PNone ==> self.players[holder.spec_index() as int].vps >= 2
                &&& p.vps - (if holder.spec_index() == self.current_player {
                    2int
                } else {
                    0int
                }) + 2 <= 255
            }
        }
    }

    /// `t` is the state after playing `card`: the card leaves the hand; a knight counts
    /// towards the largest army, whose award (2 victory points) moves to the player once
    /// it has played more knights than the holder.
    pub open spec fn after_play(self, card: DevCard, t: GameState) -> bool {
        let i = self.current_player as int;
        let p = self.cur();
        let s1 = self.with_player(i, PlayerState { dev_cards: res_add(p.dev_cards, card.spec_index() as int, -1), ..p });
        if card != DevCard::Knight {
            t == s1
        } else {
            let p2 = PlayerState { knights_played: (p.knights_played + 1) as u8, ..s1.players[i] };
            let s2 = s1.with_player(i, p2);
            if p2.knights_played > self.largest_army.1 {
                let holder = self.largest_army.0;
                let s3 = if holder != Player::PNone {
                    let h = holder.spec_index() as int;
                    s2.with_player(h, vps_added(s2.players[h], -2))
                } else {
                    s2
                };
                let s4 = s3.with_player(i, vps_added(s3.players[i], 2));
                t == GameState { largest_army: (self.mover(), p2.knights_played), ..s4 }
            } else {
                t == s2
            }
        }
    }

    /// The cards chosen with a year of plenty fit their counters.
    pub open spec fn ok_yop(self, r1: Resource, r2: Resource) -> bool {
        let p = self.cur();
        &&& self.current_player < 4
        &&& r1 != Resource::Desert
        &&& r2 != Resource::Desert
        &&& p.resources@[r1.spec_index() as int] < 255
        &&& res_add(p.resources, r1.spec_index() as int, 1)@[r2.spec_index() as int] < 255
    }

    /// `t` is the state after the player to move takes one `r1` and one `r2`.
    pub open spec fn after_yop(self, r1: Resource, r2: Resource, t: GameState) -> bool {
        let p = self.cur();
        t == self.with_player(
            self.current_player as int,
            PlayerState { resources: res_add(res_add(p.resources, r1.spec_index() as int, 1), r2.spec_index() as int, 1), ..p },
        )
    }

    /// All cards of resource index `k` in the players' hands.
    pub open spec fn resource_total(self, k: int) -> int {
        self.players[0].resources@[k] + self.players[1].resources@[k] + self.players[2].resources@[k]
            + self.players[3].resources@[k]
    }

    /// A monopoly on `res`: a resource whose cards in all hands fit a counter.
    pub open spec fn ok_monopoly(self, res: Resource) -> bool {
        &&& res != Resource::Desert
        &&& self.resource_total(res.spec_index() as int) <= 255
    }

    /// `t` is the state after a monopoly on `res`: the player to move holds every card of
    /// `res` and the others none.
    pub open spec fn after_monopoly(self, res: Resource, t: GameState) -> bool {
        let k = res.spec_index() as int;
        &&& t == GameState { players: t.players, ..self }
        &&& forall|j: int| 0 <= j < 4 ==> #[trigger] t.players[j] == PlayerState {
            resources: spec_array_update(
                self.players[j].resources,
                k,
                if j == self.current_player {
                    self.resource_total(k) as u8
                } else {
                    0u8
                },
            ),
            ..self.players[j]
        }
    }

    // ---- turns and dice

    /// Ending the turn of a player on a board with players.
    pub open spec fn ok_end_turn(self, board: Board) -> bool {
        self.current_player < 4 && board.num_players > 0
    }

    /// `t` is the state after the player to move ends the turn: its cards bought this turn
    /// become playable and the next seat moves.
    pub open spec fn after_end_turn(self, board: Board, t: GameState) -> bool {
        let i = self.current_player as int;
        &&& t.players[i].bought_dev_cards@ == seq![0u8, 0, 0, 0, 0]
        &&& t == GameState {
            current_player: ((self.current_player + 1) as int % board.num_players as int) as u8,
            ..self.with_player(i, PlayerState { bought_dev_cards: t.players[i].bought_dev_cards, ..self.cur() })
        }
    }

    /// A roll of `n`: no producing desert has a village or city at a corner, and on a 7
    /// every hand fits a counter.
    pub open spec fn ok_roll(self, board: Board, n: u8) -> bool {
        if n != 7 {
            forall|h: int| 0 <= h < 19 ==> #[trigger] yields_safely(board, self, h, n as usize)
        } else {
            forall|i: int| 0 <= i < 4 ==> hand_total(#[trigger] self.players[i].resources@) <= 255
        }
    }

    /// `t` is the state after a roll of `n`: production on any number but 7, discards on a 7.
    pub open spec fn after_roll(self, board: Board, n: u8, t: GameState) -> bool {
        &&& t == GameState { players: t.players, ..self }
        &&& forall|i: int| 0 <= i < 4 ==> #[trigger] t.players[i] == PlayerState { resources: t.players[i].resources, ..self.players[i] }
        &&& if n != 7 {
            forall|i: int, r: int| 0 <= i < 4 && 0 <= r < 5 ==> #[trigger] t.players[i].resources@[r] == sat_u8(
                self.players[i].resources@[r] + roll_yield(board, self.robber, self.players[i], r, n as usize, 19),
            )
        } else {
            forall|i: int| 0 <= i < 4 ==> #[trigger] t.players[i].resources@ == hand_after_seven(self.players[i].resources@)
        }
    }

    // ---- any action

    /// What applying `action` requires of the position: a seat number, and what the
    /// action itself needs so that nothing fails.
    pub open spec fn can_apply(self, board: Board, action: Action) -> bool {
        &&& self.current_player < 5
        &&& match action {
            Action::InitialSettle(v) => self.ok_initial_settle(board, v),
            Action::InitialRoad(spot) => self.ok_initial_road(board, spot),
            Action::MoveRobber(_) => true,
            Action::Steal(p, r) => self.ok_steal(p, r),
            Action::Settle(spot) => self.ok_settle(spot),
            Action::City(spot) => self.ok_city(spot),
            Action::Road(spot) => self.ok_road(spot),
            Action::RoadBuild1(spot) => self.ok_road_build(spot),
            Action::RoadBuild2(spot) => self.ok_road_build(spot),
            Action::BuyDevCard(card) => self.ok_buy(card),
            Action::BankTrade(give, get) => self.ok_trade(board, give, get),
            Action::PlayDevCard(card) => self.ok_play(card),
            Action::EndTurn => self.ok_end_turn(board),
            Action::Roll(n) => self.ok_roll(board, n),
            Action::YoPResources(r1, r2) => self.ok_yop(r1, r2),
            Action::MonopolyResource(res) => self.ok_monopoly(res),
        }
    }

    /// `result` is a possible determination of `action`: a steal with its resource
    /// chosen, a bought card with its kind drawn, and every other action itself.
    pub open spec fn determines(self, action: Action, result: Action) -> bool {
        match action {
            Action::Steal(p, r) => match result {
                Action::Steal(q, got) => q == p && self.steal_outcome(p, r, got),
                _ => false,
            },
            Action::BuyDevCard(card) => match result {
                Action::BuyDevCard(got) => self.buy_outcome(card, got),
                _ => false,
            },
            _ => result == action,
        }
    }

    /// `t` is the state after `action`, determined as `result`.
    pub open spec fn applied(self, board: Board, action: Action, result: Action, t: GameState) -> bool {
        match action {
            Action::InitialSettle(v) => self.after_initial_settle(board, v, t),
            Action::InitialRoad(spot) => self.after_initial_road(board, spot, t),
            Action::MoveRobber(spot) => self.after_move_robber(spot, t),
            Action::Steal(p, _) => match result {
                Action::Steal(_, got) => self.after_steal(p, got, t),
                _ => false,
            },
            Action::Settle(spot) => self.after_settle(spot, t),
            Action::City(spot) => self.after_city(spot, t),
            Action::Road(spot) => self.after_road(spot, t),
            Action::RoadBuild1(spot) => self.after_road_build(spot, t),
            Action::RoadBuild2(spot) => self.after_road_build(spot, t),
            Action::BuyDevCard(card) => match result {
                Action::BuyDevCard(got) => self.after_buy(card, got, t),
                _ => false,
            },
            Action::BankTrade(give, get) => self.after_trade(board, give, get, t),
            Action::PlayDevCard(card) => self.after_play(card, t),
            Action::EndTurn => self.after_end_turn(board, t),
            Action::Roll(n) => self.after_roll(board, n, t),
            Action::YoPResources(r1, r2) => self.after_yop(r1, r2, t),
            Action::MonopolyResource(res) => self.after_monopoly(res, t),
        }
    }
}

impl GameState {
    /// The vertex of the `n`-th settle spot (counted from 0) of the player to move.
    pub open spec fn settle_vertex(self, n: nat) -> usize {
        choose|v: usize| self.settle_spot(v) && self.settle_spot_count(v as int) == n
    }

    /// The edge of the `n`-th road spot (counted from 0) of the player to move.
    pub open spec fn road_edge(self, n: nat) -> usize {
        choose|e: usize| self.road_spot(e) && self.road_spot_count(e as int) == n
    }

    /// A settle spot is the `n`-th one for exactly one `n`.
    pub proof fn lemma_settle_vertex_unique(self, v: usize, n: nat)
        requires
            self.settle_spot(v),
            self.settle_spot_count(v as int) == n,
        ensures
            self.settle_vertex(n) == v,
    {
        let w = self.settle_vertex(n);
        assert(self.settle_spot(w) && self.settle_spot_count(w as int) == n);
        if w < v {
            self.lemma_settle_count_mono(w as int + 1, v as int);
        }
        if v < w {
            self.lemma_settle_count_mono(v as int + 1, w as int);
        }
    }

    /// A road spot is the `n`-th one for exactly one `n`.
    pub proof fn lemma_road_edge_unique(self, e: usize, n: nat)
        requires
            self.road_spot(e),
            self.road_spot_count(e as int) == n,
        ensures
            self.road_edge(n) == e,
    {
        let w = self.road_edge(n);
        assert(self.road_spot(w) && self.road_spot_count(w as int) == n);
        if w < e {
            self.lemma_road_count_mono(w as int + 1, e as int);
        }
        if e < w {
            self.lemma_road_count_mono(e as int + 1, w as int);
        }
    }

    /// The vertex of settle spot number `spot` of the player to move, if there are that
    /// many.
    pub fn settle_spot_vertex(&self, spot: u8) -> (v: Option<usize>)
        requires
            self.current_player < 4,
        ensures
            match v {
                Some(x) => (spot as nat) < self.settle_spot_count(NUM_VERTICES as int) && x < NUM_VERTICES
                    && x == self.settle_vertex(spot as nat),
                None => (spot as nat) >= self.settle_spot_count(NUM_VERTICES as int),
            },
    {
        let roads = self.players[self.current_player as usize].roads();
        let mut n: u8 = 0;
        let mut v: usize = 0;
        while v < NUM_VERTICES
            invariant
                v <= NUM_VERTICES,
                self.current_player < 4,
                roads == self.cur().spec_roads(),
                n == self.settle_spot_count(v as int),
                n <= spot,
            decreases NUM_VERTICES - v,
        {
            if self.is_vertex_buildable(v) && row_touches_road3(vertex_edges(v), roads) {
                assert(self.settle_spot(v));
                if n == spot {
                    proof {
                        self.lemma_settle_vertex_unique(v, spot as nat);
                        self.lemma_settle_count_mono(v as int + 1, NUM_VERTICES as int);
                    }
                    return Some(v);
                }
                n = n + 1;
            }
            v = v + 1;
        }
        None
    }

    /// The edge of road spot number `spot` of the player to move, if there are that many.
    pub fn road_spot_edge(&self, spot: u8) -> (e: Option<usize>)
        requires
            self.current_player < 4,
        ensures
            match e {
                Some(x) => (spot as nat) < self.road_spot_count(NUM_EDGES as int) && x < NUM_EDGES
                    && x == self.road_edge(spot as nat),
                None => (spot as nat) >= self.road_spot_count(NUM_EDGES as int),
            },
    {
        let roads = self.players[self.current_player as usize].roads();
        let mut n: u8 = 0;
        let mut e: usize = 0;
        while e < NUM_EDGES
            invariant
                e <= NUM_EDGES,
                self.current_player < 4,
                roads == self.cur().spec_roads(),
                n == self.road_spot_count(e as int),
                n <= spot,
            decreases NUM_EDGES - e,
        {
            if self.is_edge_buildable(e) && row_touches_road4(edge_edges(e), roads) {
                assert(self.road_spot(e));
                if n == spot {
                    proof {
                        self.lemma_road_edge_unique(e, spot as nat);
                        self.lemma_road_count_mono(e as int + 1, NUM_EDGES as int);
                    }
                    return Some(e);
                }
                n = n + 1;
            }
            e = e + 1;
        }
        None
    }
}


/// The pile holding card number `index` (counted from 0) when the cards of `counts` are
/// laid out pile after pile: the pile that a uniformly drawn position picks.
pub fn nth_card(counts: [u8; 5], index: u8) -> (k: usize)
    requires
        (index as int) < hand_total(counts@),
    ensures
        k < 5,
        counts@[k as int] > 0,
        k == card_at(counts@, index as int, 0),
{
    assert(hand_total(counts@) == cards_from(counts@, 0)) by {
        reveal_with_fuel(cards_from, 6);
    }
    let mut i: u8 = index;
    let mut k: usize = 0;
    while k < 5
        invariant
            k <= 5,
            (i as int) < cards_from(counts@, k as int),
            card_at(counts@, i as int, k as int) == card_at(counts@, index as int, 0),
        decreases 5 - k,
    {
        if counts[k] > i {
            return k;
        }
        i = i - counts[k];
        k = k + 1;
    }
    0
}

/// The first harbour whose resource is `r`, if any.
pub fn first_port(ports: &[Resource; 9], r: Resource) -> (k: Option<usize>)
    ensures
        match k {
            Some(x) => x < 9 && x as int == first_port_from(ports@, r, 0),
            None => first_port_from(ports@, r, 0) == 9,
        },
{
    let mut k: usize = 0;
    while k < 9
        invariant
            k <= 9,
            first_port_from(ports@, r, k as int) == first_port_from(ports@, r, 0),
        decreases 9 - k,
    {
        if ports[k] == r {
            return Some(k);
        }
        k = k + 1;
    }
    None
}

impl GameState {
    /// Ends the turn of the player to move.
    fn apply_end_turn(&mut self, board: &Board)
        requires
            old(self).ok_end_turn(*board),
        ensures
            old(self).after_end_turn(*board, *final(self)),
    {
        let cp = self.current_player as usize;
        let mut p = self.players[cp];
        p.bought_dev_cards = [0, 0, 0, 0, 0];
        self.players[cp] = p;
        assert(p.bought_dev_cards@ =~= seq![0u8, 0, 0, 0, 0]);
        self.current_player = (self.current_player + 1) % board.num_players;
    }

    /// Hands the two year-of-plenty cards to the player to move.
    fn apply_yop(&mut self, r1: Resource, r2: Resource)
        requires
            old(self).ok_yop(r1, r2),
        ensures
            old(self).after_yop(r1, r2, *final(self)),
    {
        let cp = self.current_player as usize;
        let mut p = self.players[cp];
        let a = r1.index();
        let b = r2.index();
        p.resources[a] = p.resources[a] + 1;
        p.resources[b] = p.resources[b] + 1;
        self.players[cp] = p;
        assert(p.resources =~= res_add(res_add(old(self).cur().resources, a as int, 1), b as int, 1));
    }

    /// Gathers every card of `res` in the hand of the player to move.
    fn apply_monopoly(&mut self, res: Resource)
        requires
            old(self).ok_monopoly(res),
        ensures
            old(self).after_monopoly(res, *final(self)),
    {
        let k = res.index();
        let ghost o = *self;
        let mut total: u8 = 0;
        let mut j: usize = 0;
        while j < 4
            invariant
                j <= 4,
                k < 5,
                *self == o,
                o.resource_total(k as int) <= 255,
                total as int == if j == 0 {
                    0
                } else if j == 1 {
                    o.players[0].resources@[k as int] as int
                } else if j == 2 {
                    o.players[0].resources@[k as int] + o.players[1].resources@[k as int]
                } else if j == 3 {
                    o.players[0].resources@[k as int] + o.players[1].resources@[k as int] + o.players[2].resources@[k as int]
                } else {
                    o.resource_total(k as int)
                },
            decreases 4 - j,
        {
            total = total + self.players[j].resources[k];
            j = j + 1;
        }
        let mut j: usize = 0;
        while j < 4
            invariant
                j <= 4,
                k < 5,
                k == res.spec_index(),
                total as int == o.resource_total(k as int),
                *self == (GameState { players: self.players, ..o }),
                forall|m: int| 0 <= m < 4 ==> #[trigger] self.players[m] == if m < j {
                    PlayerState {
                        resources: spec_array_update(
                            o.players[m].resources,
                            k as int,
                            if m == o.current_player {
                                o.resource_total(k as int) as u8
                            } else {
                                0u8
                            },
                        ),
                        ..o.players[m]
                    }
                } else {
                    o.players[m]
                },
            decreases 4 - j,
        {
            let mut p = self.players[j];
            if j == self.current_player as usize {
                p.resources[k] = total;
            } else {
                p.resources[k] = 0;
            }
            proof {
                let v: u8 = if j == o.current_player { total } else { 0u8 };
                assert(p.resources =~= spec_array_update(o.players[j as int].resources, k as int, v));
            }
            self.players[j] = p;
            j = j + 1;
        }
    }

    /// Production on a roll other than 7, discards on a 7.
    fn apply_roll(&mut self, board: &Board, n: u8)
        requires
            old(self).ok_roll(*board, n),
        ensures
            old(self).after_roll(*board, n, *final(self)),
    {
        if n != 7 {
            self.roll_resources(board, n as usize);
        } else {
            self.discard_excess();
        }
    }

    /// Builds a village on settle spot number `spot` of the player to move.
    fn apply_settle(&mut self, spot: u8)
        requires
            old(self).ok_settle(spot),
        ensures
            old(self).after_settle(spot, *final(self)),
    {
        let player = Player::from_u8(self.current_player);
        let vertex = match self.settle_spot_vertex(spot) {
            Some(v) => v,
            None => 0,
        };
        self.build_village(vertex, player);
    }

    /// Turns the village number `spot` of the player to move into a city.
    fn apply_city(&mut self, spot: u8)
        requires
            old(self).ok_city(spot),
        ensures
            old(self).after_city(spot, *final(self)),
    {
        let player = Player::from_u8(self.current_player);
        let villages = self.players[self.current_player as usize].villages;
        let vertex = nth_bit64(villages, spot as u32) as usize;
        self.build_city(vertex, player);
    }
}


impl GameState {
    /// Places an initial village on `v`; a second initial village collects one card per
    /// adjacent hex.
    fn apply_initial_settle(&mut self, board: &Board, v: u8)
        requires
            old(self).ok_initial_settle(*board, v),
        ensures
            old(self).after_initial_settle(*board, v, *final(self)),
    {
        let cp = self.current_player as usize;
        let player = Player::from_u8(self.current_player);
        let vertex = v as usize;
        self.build_village(vertex, player);
        let ghost s1 = *self;
        if self.players[cp].villages_left == 3 {
            let row = vertex_hexes(vertex);
            let mut p = self.players[cp];
            let mut k: usize = 0;
            while k < 3 && row[k] != NONE
                invariant
                    k <= 3,
                    cp == s1.current_player,
                    cp < 4,
                    vertex == v as usize,
                    row@ == spec_vertex_hexes(vertex as int),
                    crate::topology::padded_row(row@, crate::topology::NUM_HEXES),
                    s1.players[cp as int].villages_left == 3,
                    old(self).cur().villages_left == 4,
                    s1 == old(self).with_player(cp as int, village_built(old(self).cur(), vertex)),
                    old(self).ok_initial_settle(*board, v),
                    p == (PlayerState { resources: p.resources, ..s1.players[cp as int] }),
                    forall|r: int| 0 <= r < 5 ==> #[trigger] p.resources@[r] == s1.players[cp as int].resources@[r]
                        + row_yield(*board, row@, r, k as int),
                decreases 3 - k,
            {
                let h = row[k];
                let ghost before = p.resources;
                if board.resources[h] != Resource::Desert {
                    let ri = board.resources[h].index();
                    assert(row_yield(*board, row@, ri as int, k + 1) <= initial_yield(*board, vertex, ri as int)) by {
                        reveal_with_fuel(row_yield, 4);
                    }
                    assert(row_yield(*board, row@, ri as int, k + 1) == row_yield(*board, row@, ri as int, k as int) + 1);
                    assert(ri < 5);
                    assert(old(self).cur().villages_left == 4);
                    assert(village_built(old(self).cur(), v as usize).resources@[ri as int] + initial_yield(*board, v as usize, ri as int) <= 255);
                    assert(s1.players@ == old(self).players@.update(cp as int, village_built(old(self).cur(), v as usize)));
                    assert(s1.players[cp as int] == village_built(old(self).cur(), v as usize));
                    assert(p.resources@[ri as int] == s1.players[cp as int].resources@[ri as int] + row_yield(*board, row@, ri as int, k as int));
                    p.resources[ri] = p.resources[ri] + 1;
                }
                proof {
                    assert forall|r: int| 0 <= r < 5 implies #[trigger] p.resources@[r] == s1.players[cp as int].resources@[r]
                        + row_yield(*board, row@, r, k + 1) by {}
                }
                k = k + 1;
            }
            proof {
                assert forall|r: int| 0 <= r < 5 implies #[trigger] p.resources@[r] == s1.players[cp as int].resources@[r]
                    + initial_yield(*board, vertex, r) by {
                    reveal_with_fuel(row_yield, 4);
                    if k < 3 {
                        assert(row@[k as int] == NONE);
                        if k + 1 < 3 {
                            assert(row@[k + 1] == NONE);
                        }
                    }
                }
            }
            self.players[cp] = p;
        }
    }

    /// Places an initial road on spot `spot` at the village that has no road yet, and
    /// passes the turn on in placement order.
    fn apply_initial_road(&mut self, board: &Board, spot: u8)
        requires
            old(self).ok_initial_road(*board, spot),
        ensures
            old(self).after_initial_road(*board, spot, *final(self)),
    {
        let cp = self.current_player;
        let player = Player::from_u8(cp);
        let last_village = self.last_initial_village();
        proof {
            let w = self.road_village();
            assert(self.first_unroaded_village(w));
            if w < last_village {
                assert(!self.unroaded_village(w));
            }
            if last_village < w {
                assert(!self.unroaded_village(last_village));
            }
        }
        let row = vertex_edges(last_village);
        let road = row[spot as usize];
        self.build_road(road, player);
        let np = board.num_players;
        let forward = crate::bits::count_ones64(self.players[(np - 1) as usize].villages) < 2;
        self.current_player = if forward {
            if cp + 1 < np - 1 {
                cp + 1
            } else {
                np - 1
            }
        } else if cp == 0 {
            0
        } else {
            cp - 1
        };
    }

    /// Takes `res` (or, for the desert, a random card) from player `victim` and gives it
    /// to the player to move; returns the resource taken.
    fn apply_steal(&mut self, victim: u8, res: Resource, rng: &mut SmallRng) -> (got: Resource)
        requires
            old(self).ok_steal(victim, res),
        ensures
            old(self).steal_outcome(victim, res, got),
            old(self).after_steal(victim, got, *final(self)),
    {
        let mut chosen = res;
        if res == Resource::Desert {
            let hand = self.players[victim as usize].resources;
            let total: u8 = hand[0] + hand[1] + hand[2] + hand[3] + hand[4];
            if total == 0 {
                return Resource::Desert;
            }
            let i = random_below_u8(rng, total);
            let k = nth_card(hand, i);
            chosen = Resource::from_u8(k as u8);
        }
        let k = chosen.index();
        let v = victim as usize;
        let mut vp = self.players[v];
        vp.resources[k] = vp.resources[k] - 1;
        self.players[v] = vp;
        let ghost s1 = *self;
        assert(vp.resources =~= res_add(old(self).players[v as int].resources, k as int, -1));
        let cp = self.current_player as usize;
        let mut p = self.players[cp];
        p.resources[k] = p.resources[k] + 1;
        self.players[cp] = p;
        assert(p.resources =~= res_add(s1.players[cp as int].resources, k as int, 1));
        chosen
    }

    /// Builds a road on road spot number `spot` of the player to move; a road-builder road
    /// first hands the player the brick and wood it uses, and does nothing when the player
    /// has no road left.
    fn apply_road(&mut self, spot: u8, builder: bool)
        requires
            builder ==> old(self).ok_road_build(spot),
            !builder ==> old(self).ok_road(spot),
        ensures
            builder ==> old(self).after_road_build(spot, *final(self)),
            !builder ==> old(self).after_road(spot, *final(self)),
    {
        let cp = self.current_player as usize;
        let player = Player::from_u8(self.current_player);
        let edge = self.road_spot_edge(spot);
        if builder {
            if self.players[cp].roads_left > 0 {
                let mut p = self.players[cp];
                p.resources[0] = p.resources[0] + 1;
                p.resources[1] = p.resources[1] + 1;
                self.players[cp] = p;
                assert(p.resources =~= res_add(res_add(old(self).cur().resources, 0, 1), 1, 1));
                assert(*self == old(self).with_road_materials());
            } else {
                return;
            }
        }
        match edge {
            Some(e) => {
                self.build_road(e, player);
            },
            None => {},
        }
    }

    /// Whether the player to move has a village or city at a 3:1 harbour.
    fn owns_generic_port(&self, board: &Board) -> (b: bool)
        requires
            self.current_player < 4,
        ensures
            b == self.has_generic_port(*board),
    {
        let p = self.players[self.current_player as usize];
        let owned = p.villages | p.cities;
        let mut k: usize = 0;
        while k < 9
            invariant
                k <= 9,
                p == self.cur(),
                owned == p.villages | p.cities,
                forall|j: int| 0 <= j < k && board.ports@[j] == Resource::Desert ==> !#[trigger] self.port_owned(j),
            decreases 9 - k,
        {
            if board.ports[k] == Resource::Desert {
                let pv = crate::topology::port_vertices(k);
                let port_mask = (1u64 << pv[0]) | (1u64 << pv[1]);
                if owned & port_mask != 0 {
                    assert(self.port_owned(k as int));
                    return true;
                }
            }
            k = k + 1;
        }
        false
    }

    /// Trades the rate of `give` for one `get` with the bank.
    fn apply_trade(&mut self, board: &Board, give: Resource, get: Resource)
        requires
            old(self).ok_trade(*board, give, get),
        ensures
            old(self).after_trade(*board, give, get, *final(self)),
    {
        let cp = self.current_player as usize;
        let has_3_1 = self.owns_generic_port(board);
        let port_idx = match first_port(&board.ports, give) {
            Some(k) => k,
            None => 0,
        };
        let pv = crate::topology::port_vertices(port_idx);
        let mut p = self.players[cp];
        let has_port = p.has_built_on_vertex(pv[0]) || p.has_built_on_vertex(pv[1]);
        proof {
            let x = p.villages | p.cities;
            let a = pv@[0];
            let b = pv@[1];
            assert(a < 64 && b < 64);
            assert((x & ((1u64 << a) | (1u64 << b)) != 0) == (x & (1u64 << a) != 0 || x & (1u64 << b) != 0)) by (bit_vector)
                requires a < 64, b < 64;
        }
        let give_n: u8 = if has_port {
            2
        } else if has_3_1 {
            3
        } else {
            4
        };
        assert(give_n == self.trade_rate(*board, Self::trade_port(*board, give)));
        let gi = give.index();
        let ti = get.index();
        p.resources[gi] = p.resources[gi] - give_n;
        let ghost r1 = p.resources;
        p.resources[ti] = p.resources[ti].saturating_add(1);
        self.players[cp] = p;
        assert(r1 =~= res_add(old(self).cur().resources, gi as int, -give_n));
        assert(p.resources =~= spec_array_update(r1, ti as int, sat_u8(r1[ti as int] + 1)));
    }

    /// Pays for a development card and adds it to the hand of the player to move: `card`
    /// itself, or for `Unknown` a card drawn from the deck; returns the card.
    fn apply_buy(&mut self, card: DevCard, rng: &mut SmallRng) -> (got: DevCard)
        requires
            old(self).ok_buy(card),
        ensures
            old(self).buy_outcome(card, got),
            old(self).after_buy(card, got, *final(self)),
    {
        let cp = self.current_player as usize;
        let mut p = self.players[cp];
        p.resources[2] = p.resources[2] - 1;
        p.resources[3] = p.resources[3] - 1;
        p.resources[4] = p.resources[4] - 1;
        let got = if card == DevCard::Unknown {
            let deck = self.dev_card_deck;
            let cards: u8 = deck[0] + deck[1] + deck[2] + deck[3] + deck[4];
            let index = random_below_u8(rng, cards);
            let c = nth_card(deck, index);
            let mut d = deck;
            d[c] = d[c] - 1;
            self.dev_card_deck = d;
            assert(d =~= res_add(deck, c as int, -1));
            DevCard::from_u8(c as u8)
        } else {
            card
        };
        let c = got.index();
        p.dev_cards[c] = p.dev_cards[c] + 1;
        p.bought_dev_cards[c] = p.bought_dev_cards[c] + 1;
        if got == DevCard::VP {
            p.vps = p.vps + 1;
        }
        self.players[cp] = p;
        proof {
            let o = old(self).cur();
            assert(p.resources =~= res_add(res_add(res_add(o.resources, 2, -1), 3, -1), 4, -1));
            assert(p.dev_cards =~= res_add(o.dev_cards, c as int, 1));
            assert(p.bought_dev_cards =~= res_add(o.bought_dev_cards, c as int, 1));
        }
        got
    }

    /// Plays `card` from the hand of the player to move; a knight may move the
    /// largest-army award.
    fn apply_play(&mut self, card: DevCard)
        requires
            old(self).ok_play(card),
        ensures
            old(self).after_play(card, *final(self)),
    {
        let cp = self.current_player as usize;
        let player = Player::from_u8(self.current_player);
        let c = card.index();
        let mut p = self.players[cp];
        p.dev_cards[c] = p.dev_cards[c] - 1;
        self.players[cp] = p;
        assert(p.dev_cards =~= res_add(old(self).cur().dev_cards, c as int, -1));
        if card == DevCard::Knight {
            let mut p2 = self.players[cp];
            p2.knights_played = p2.knights_played + 1;
            self.players[cp] = p2;
            let ghost s2 = *self;
            let largest = self.largest_army.1;
            if self.players[cp].knights_played > largest {
                if self.largest_army.0 != Player::PNone {
                    let h = self.largest_army.0.index();
                    let mut hp = self.players[h];
                    hp.vps = hp.vps - 2;
                    self.players[h] = hp;
                }
                let ghost s3 = *self;
                let knights = self.players[cp].knights_played;
                self.largest_army = (player, knights);
                let mut p4 = self.players[cp];
                p4.vps = p4.vps + 2;
                self.players[cp] = p4;
                assert(self.players =~= s3.with_player(cp as int, vps_added(s3.players[cp as int], 2)).players);
            }
        }
    }
}


impl GameState {
    /// Applies `action` and returns it as determined: a steal with the resource taken, a
    /// bought card with the kind drawn, any other action unchanged.
    pub fn apply_action(&mut self, board: &Board, action: Action, rng: &mut SmallRng) -> (r: Action)
        requires
            old(self).can_apply(*board, action),
        ensures
            old(self).determines(action, r),
            old(self).applied(*board, action, r, *final(self)),
    {
        match action {
            Action::InitialSettle(v) => {
                self.apply_initial_settle(board, v);
                action
            },
            Action::InitialRoad(spot) => {
                self.apply_initial_road(board, spot);
                action
            },
            Action::MoveRobber(spot) => {
                self.robber = spot;
                action
            },
            Action::Steal(victim, res) => {
                let got = self.apply_steal(victim, res, rng);
                Action::Steal(victim, got)
            },
            Action::Settle(spot) => {
                self.apply_settle(spot);
                action
            },
            Action::City(spot) => {
                self.apply_city(spot);
                action
            },
            Action::Road(spot) => {
                self.apply_road(spot, false);
                action
            },
            Action::RoadBuild1(spot) => {
                self.apply_road(spot, true);
                action
            },
            Action::RoadBuild2(spot) => {
                self.apply_road(spot, true);
                action
            },
            Action::BuyDevCard(card) => {
                let got = self.apply_buy(card, rng);
                Action::BuyDevCard(got)
            },
            Action::BankTrade(give, get) => {
                self.apply_trade(board, give, get);
                action
            },
            Action::PlayDevCard(card) => {
                self.apply_play(card);
                action
            },
            Action::EndTurn => {
                self.apply_end_turn(board);
                action
            },
            Action::Roll(n) => {
                self.apply_roll(board, n);
                action
            },
            Action::YoPResources(r1, r2) => {
                self.apply_yop(r1, r2);
                action
            },
            Action::MonopolyResource(res) => {
                self.apply_monopoly(res);
                action
            },
        }
    }
}


/// An applied action, once determined, is a full record of the move: applying the
/// determined action instead (for anything but a card drawn from the deck, whose explicit
/// form leaves the deck alone) is possible, is its own determination, and leads to the
/// same state.
pub proof fn lemma_replay_determined(s: GameState, board: Board, action: Action, result: Action, t: GameState)
    requires
        s.can_apply(board, action),
        s.determines(action, result),
        s.applied(board, action, result, t),
        action != Action::BuyDevCard(DevCard::Unknown),
    ensures
        s.can_apply(board, result),
        s.determines(result, result),
        s.applied(board, result, result, t),
{
    match action {
        Action::Steal(p, r) => {
            if let Action::Steal(q, got) = result {
                if r == Resource::Desert && got != Resource::Desert {
                    let hand = s.players[p as int].resources@;
                    assert(hand[got.spec_index() as int] > 0);
                }
            }
        },
        _ => {},
    }
}


/// The placement order: an initial road places no village and passes the turn forward
/// one seat while the last seat has placed at most one village, so that the last seat,
/// after the road at its first village, keeps the turn and places its second village
/// right away; once the last seat has placed twice, the turn goes back one seat at a
/// time and stays with seat 0 at the end.
pub proof fn lemma_initial_road_turn(s: GameState, board: Board, spot: u8, t: GameState)
    requires
        s.ok_initial_road(board, spot),
        s.applied(board, Action::InitialRoad(spot), Action::InitialRoad(spot), t),
        s.current_player < board.num_players,
    ensures
        forall|i: int| 0 <= i < 4 ==> #[trigger] t.players[i].villages == s.players[i].villages,
        ({
            let np = board.num_players as int;
            let cp = s.current_player as int;
            let placed = popcount64(s.players[np - 1].villages);
            &&& placed <= 1 && cp < np - 1 ==> t.current_player == cp + 1
            &&& placed <= 1 && cp == np - 1 ==> t.current_player == np - 1
            &&& placed >= 2 && cp > 0 ==> t.current_player == cp - 1
            &&& placed >= 2 && cp == 0 ==> t.current_player == 0
        }),
{
    let e = s.initial_road_edge(spot);
    let p = s.mover();
    let i = p.spec_index() as int;
    let s1 = s.with_player(i, road_built(s.players[i], e));
    assert forall|j: int| 0 <= j < 4 implies #[trigger] s1.players[j].villages == s.players[j].villages by {}
    let r = s.road_result(e, p);
    assert forall|j: int| 0 <= j < 4 implies #[trigger] r.players[j].villages == s.players[j].villages by {}
}


/// Number of hexes next to vertex `v` that hold resource number `r`.
fn initial_yield_of(board: &Board, v: usize, r: usize) -> (n: u8)
    requires
        v < NUM_VERTICES,
    ensures
        n == initial_yield(*board, v, r as int),
{
    let row = vertex_hexes(v);
    let mut n: u8 = 0;
    let mut k: usize = 0;
    while k < 3
        invariant
            k <= 3,
            row@ == spec_vertex_hexes(v as int),
            crate::topology::padded_row(row@, crate::topology::NUM_HEXES),
            n == row_yield(*board, row@, r as int, k as int),
            n <= k,
        decreases 3 - k,
    {
        if row[k] != NONE && board.resources[row[k]].index() == r {
            n = n + 1;
        }
        k = k + 1;
    }
    n
}

impl GameState {
    /// Whether player `i` can pay for and place a village on `vertex`.
    pub fn village_affordable(&self, vertex: usize, i: usize) -> (b: bool)
        requires
            i < 4,
        ensures
            b == self.can_build_village(vertex, i as int),
    {
        let p = self.players[i];
        vertex < 64 && p.resources[0] >= 1 && p.resources[1] >= 1 && p.resources[3] >= 1
            && p.resources[4] >= 1 && p.villages_left >= 1 && p.vps < 255
    }

    /// Whether player `i` can pay for a city on `vertex`.
    pub fn city_affordable(&self, vertex: usize, i: usize) -> (b: bool)
        requires
            i < 4,
        ensures
            b == self.can_build_city(vertex, i as int),
    {
        let p = self.players[i];
        vertex < 64 && p.resources[2] >= 3 && p.resources[3] >= 2 && p.cities_left >= 1
            && p.villages_left < 255 && p.vps < 255
    }

    /// Whether player `i` can pay for a road on `edge`, with the longest-road award able
    /// to move.
    pub fn road_affordable(&self, edge: usize, i: usize) -> (b: bool)
        requires
            i < 4,
        ensures
            b == self.can_build_road(edge, i as int),
    {
        let p = self.players[i];
        if !(edge < NUM_EDGES && p.resources[0] >= 1 && p.resources[1] >= 1 && 1 <= p.roads_left
            && p.roads_left <= 16) {
            return false;
        }
        let placed: u8 = 16 - p.roads_left;
        if placed > self.longest_road.1 {
            let holder = self.longest_road.0;
            if holder != Player::PNone && self.players[holder.index()].vps < 2 {
                return false;
            }
            let give_back: u16 = if holder.index() == i {
                2
            } else {
                0
            };
            (p.vps as u16) + 2 <= 255 + give_back
        } else {
            true
        }
    }

    /// Whether the player to move has a village with no road next to it.
    pub fn unroaded_village_exists(&self) -> (b: bool)
        ensures
            b == self.has_unroaded_village(),
    {
        if self.current_player >= 4 {
            return false;
        }
        let p = self.players[self.current_player as usize];
        let villages = p.villages;
        let roads = p.roads();
        let mut v: usize = 0;
        while v < NUM_VERTICES
            invariant
                v <= NUM_VERTICES,
                self.current_player < 4,
                p == self.cur(),
                villages == p.villages,
                roads == p.spec_roads(),
                forall|w: usize| w < v ==> !#[trigger] self.unroaded_village(w),
            decreases NUM_VERTICES - v,
        {
            if villages & (1u64 << v) != 0 && !row_touches_road3(vertex_edges(v), roads) {
                assert(self.unroaded_village(v));
                return true;
            }
            v = v + 1;
        }
        false
    }

    /// Whether an initial village on `v` can be placed (see [`GameState::ok_initial_settle`]).
    fn check_initial_settle(&self, board: &Board, v: u8) -> (b: bool)
        requires
            self.current_player < 4,
        ensures
            b == self.ok_initial_settle(*board, v),
    {
        let cp = self.current_player as usize;
        if !self.village_affordable(v as usize, cp) {
            return false;
        }
        let p = self.players[cp];
        if p.villages_left == 4 {
            if v as usize >= NUM_VERTICES {
                return false;
            }
            let mut paid = p.resources;
            paid[0] = paid[0] - 1;
            paid[1] = paid[1] - 1;
            paid[3] = paid[3] - 1;
            paid[4] = paid[4] - 1;
            assert(paid =~= village_built(p, v as usize).resources);
            let mut r: usize = 0;
            while r < 5
                invariant
                    r <= 5,
                    (v as usize) < NUM_VERTICES,
                    self.current_player < 4,
                    self.cur().villages_left == 4,
                    paid == village_built(self.cur(), v as usize).resources,
                    forall|j: int| 0 <= j < r ==> #[trigger] paid@[j] + initial_yield(*board, v as usize, j) <= 255,
                decreases 5 - r,
            {
                if paid[r] as u16 + initial_yield_of(board, v as usize, r) as u16 > 255 {
                    assert(village_built(self.cur(), v as usize).resources@[r as int] + initial_yield(*board, v as usize, r as int) > 255);
                    return false;
                }
                r = r + 1;
            }
        }
        true
    }

    /// Whether initial road spot `spot` can be built (see [`GameState::ok_initial_road`]).
    fn check_initial_road(&self, board: &Board, spot: u8) -> (b: bool)
        ensures
            b == self.ok_initial_road(*board, spot),
    {
        if !(self.current_player < 4 && self.unroaded_village_exists() && spot < 3) {
            return false;
        }
        let v = self.last_initial_village();
        proof {
            let w = self.road_village();
            assert(self.first_unroaded_village(w));
            if w < v {
                assert(!self.unroaded_village(w));
            }
            if v < w {
                assert(!self.unroaded_village(v));
            }
        }
        let e = vertex_edges(v)[spot as usize];
        e != NONE && self.road_affordable(e, self.current_player as usize) && 1 <= board.num_players
            && board.num_players <= 4
    }

    /// Whether a steal from `victim` can be made (see [`GameState::ok_steal`]).
    fn check_steal(&self, victim: u8, r: Resource) -> (b: bool)
        ensures
            b == self.ok_steal(victim, r),
    {
        if victim >= 4 {
            return false;
        }
        let hand = self.players[victim as usize].resources;
        if r == Resource::Desert {
            let total: u16 = hand[0] as u16 + hand[1] as u16 + hand[2] as u16 + hand[3] as u16 + hand[4] as u16;
            if total > 255 {
                return false;
            }
            if total == 0 {
                return true;
            }
            if self.current_player >= 4 {
                return false;
            }
            let mine = self.players[self.current_player as usize].resources;
            let mut k: usize = 0;
            while k < 5
                invariant
                    k <= 5,
                    self.current_player < 4,
                    victim < 4,
                    r == Resource::Desert,
                    hand_total(hand@) > 0,
                    hand == self.players[victim as int].resources,
                    mine == self.cur().resources,
                    forall|j: int| 0 <= j < k && #[trigger] hand@[j] > 0 ==> (victim == self.current_player || mine@[j] < 255),
                decreases 5 - k,
            {
                if hand[k] > 0 && victim != self.current_player && mine[k] == 255 {
                    assert(self.players[victim as int].resources@[k as int] > 0);
                    return false;
                }
                k = k + 1;
            }
            true
        } else {
            if self.current_player >= 4 {
                return false;
            }
            let k = r.index();
            let mine = self.players[self.current_player as usize].resources;
            hand[k] >= 1 && (victim == self.current_player || mine[k] < 255)
        }
    }

    /// Whether `card` can be bought (see [`GameState::ok_buy`]).
    fn check_buy(&self, card: DevCard) -> (b: bool)
        requires
            self.current_player < 4,
        ensures
            b == self.ok_buy(card),
    {
        let p = self.players[self.current_player as usize];
        if !(p.resources[2] >= 1 && p.resources[3] >= 1 && p.resources[4] >= 1) {
            return false;
        }
        if card == DevCard::Unknown {
            let d = self.dev_card_deck;
            let total: u16 = d[0] as u16 + d[1] as u16 + d[2] as u16 + d[3] as u16 + d[4] as u16;
            if total == 0 || total > 255 {
                return false;
            }
            let mut c: usize = 0;
            while c < 5
                invariant
                    c <= 5,
                    card == DevCard::Unknown,
                    self.current_player < 4,
                    p == self.cur(),
                    d == self.dev_card_deck,
                    forall|j: int| 0 <= j < c && #[trigger] d@[j] > 0 ==> card_room(p, j),
                decreases 5 - c,
            {
                if d[c] > 0 && !(p.dev_cards[c] < 255 && p.bought_dev_cards[c] < 255 && (c != 4 || p.vps < 255)) {
                    assert(self.dev_card_deck@[c as int] > 0 && !card_room(self.cur(), c as int));
                    return false;
                }
                c = c + 1;
            }
            true
        } else {
            let c = card.index();
            p.dev_cards[c] < 255 && p.bought_dev_cards[c] < 255 && (c != 4 || p.vps < 255)
        }
    }

    /// Whether the bank trade can be made (see [`GameState::ok_trade`]).
    fn check_trade(&self, board: &Board, give: Resource, get: Resource) -> (b: bool)
        requires
            self.current_player < 4,
        ensures
            b == self.ok_trade(*board, give, get),
    {
        if give == Resource::Desert || get == Resource::Desert {
            return false;
        }
        match first_port(&board.ports, give) {
            Some(k) => {
                let has_3_1 = self.owns_generic_port(board);
                let p = self.players[self.current_player as usize];
                let pv = crate::topology::port_vertices(k);
                let port_mask = (1u64 << pv[0]) | (1u64 << pv[1]);
                let rate: u8 = if (p.villages | p.cities) & port_mask != 0 {
                    2
                } else if has_3_1 {
                    3
                } else {
                    4
                };
                assert(rate == self.trade_rate(*board, k as int));
                p.resources[give.index()] >= rate
            },
            None => false,
        }
    }

    /// Whether `card` can be played (see [`GameState::ok_play`]).
    fn check_play(&self, card: DevCard) -> (b: bool)
        requires
            self.current_player < 4,
        ensures
            b == self.ok_play(card),
    {
        let cp = self.current_player as usize;
        let p = self.players[cp];
        if card == DevCard::VP || card == DevCard::Unknown || p.dev_cards[card.index()] < 1 {
            return false;
        }
        if card == DevCard::Knight {
            if p.knights_played == 255 {
                return false;
            }
            if p.knights_played + 1 > self.largest_army.1 {
                let holder = self.largest_army.0;
                if holder != Player::PNone && self.players[holder.index()].vps < 2 {
                    return false;
                }
                let give_back: u16 = if holder.index() == cp {
                    2
                } else {
                    0
                };
                return (p.vps as u16) + 2 <= 255 + give_back;
            }
        }
        true
    }

    /// Whether nobody has a village or city at a corner of hex `h`.
    fn corners_empty(&self, h: usize) -> (b: bool)
        requires
            h < 19,
        ensures
            b == forall|i: int, k: int|
                0 <= i < 4 && 0 <= k < 6 ==> #[trigger] piece_yield(self.players[i], spec_hex_vertices(h as int)[k]) == 0,
    {
        let row = crate::topology::hex_vertices(h);
        let mut k: usize = 0;
        while k < 6
            invariant
                k <= 6,
                row@ == spec_hex_vertices(h as int),
                crate::topology::full_row(row@, NUM_VERTICES),
                forall|i: int, kk: int| 0 <= i < 4 && 0 <= kk < k ==> #[trigger] piece_yield(self.players[i], row@[kk]) == 0,
            decreases 6 - k,
        {
            let v = row[k];
            let mut i: usize = 0;
            while i < 4
                invariant
                    i <= 4,
                    k < 6,
                    v == row@[k as int],
                    v < NUM_VERTICES,
                    row@ == spec_hex_vertices(h as int),
                    forall|j: int, kk: int| 0 <= j < 4 && 0 <= kk < k ==> #[trigger] piece_yield(self.players[j], row@[kk]) == 0,
                    forall|j: int| 0 <= j < i ==> piece_yield(#[trigger] self.players[j], v) == 0,
                decreases 4 - i,
            {
                if self.players[i].villages & (1u64 << v) != 0 || self.players[i].cities & (1u64 << v) != 0 {
                    assert(piece_yield(self.players[i as int], row@[k as int]) != 0);
                    return false;
                }
                i = i + 1;
            }
            k = k + 1;
        }
        true
    }

    /// Whether a roll of `n` can be applied to the hands (see [`GameState::ok_roll`]).
    pub fn check_roll(&self, board: &Board, n: u8) -> (b: bool)
        ensures
            b == self.ok_roll(*board, n),
    {
        if n != 7 {
            let mut h: usize = 0;
            while h < 19
                invariant
                    h <= 19,
                    n != 7,
                    forall|j: int| 0 <= j < h ==> #[trigger] yields_safely(*board, *self, j, n as usize),
                decreases 19 - h,
            {
                if board.numbers[h] as usize == n as usize && h != self.robber as usize
                    && board.resources[h] == Resource::Desert && !self.corners_empty(h) {
                    assert(produces(*board, self.robber, h as int, n as usize));
                    assert(!yields_safely(*board, *self, h as int, n as usize));
                    return false;
                }
                h = h + 1;
            }
            true
        } else {
            let mut i: usize = 0;
            while i < 4
                invariant
                    i <= 4,
                    n == 7,
                    forall|j: int| 0 <= j < i ==> hand_total(#[trigger] self.players[j].resources@) <= 255,
                decreases 4 - i,
            {
                let r = self.players[i].resources;
                if r[0] as u16 + r[1] as u16 + r[2] as u16 + r[3] as u16 + r[4] as u16 > 255 {
                    return false;
                }
                i = i + 1;
            }
            true
        }
    }

    /// Whether the year-of-plenty cards fit (see [`GameState::ok_yop`]).
    fn check_yop(&self, r1: Resource, r2: Resource) -> (b: bool)
        requires
            self.current_player < 4,
        ensures
            b == self.ok_yop(r1, r2),
    {
        if r1 == Resource::Desert || r2 == Resource::Desert {
            return false;
        }
        let p = self.players[self.current_player as usize];
        let a = r1.index();
        let c = r2.index();
        let mut q = p.resources;
        if q[a] == 255 {
            return false;
        }
        q[a] = q[a] + 1;
        assert(q =~= res_add(p.resources, a as int, 1));
        q[c] < 255
    }

    /// Whether a monopoly on `res` fits (see [`GameState::ok_monopoly`]).
    fn check_monopoly(&self, res: Resource) -> (b: bool)
        ensures
            b == self.ok_monopoly(res),
    {
        if res == Resource::Desert {
            return false;
        }
        let k = res.index();
        let total: u16 = self.players[0].resources[k] as u16 + self.players[1].resources[k] as u16
            + self.players[2].resources[k] as u16 + self.players[3].resources[k] as u16;
        total <= 255
    }

    /// Whether a road-builder road on `spot` fits (see [`GameState::ok_road_build`]).
    fn check_road_build(&self, spot: u8) -> (b: bool)
        requires
            self.current_player < 4,
        ensures
            b == self.ok_road_build(spot),
    {
        let cp = self.current_player as usize;
        let p = self.players[cp];
        if p.roads_left == 0 {
            return true;
        }
        if p.resources[0] == 255 || p.resources[1] == 255 {
            return false;
        }
        match self.road_spot_edge(spot) {
            Some(e) => {
                let mut s1 = *self;
                let mut q = p;
                q.resources[0] = q.resources[0] + 1;
                q.resources[1] = q.resources[1] + 1;
                s1.players[cp] = q;
                assert(q.resources =~= res_add(res_add(p.resources, 0, 1), 1, 1));
                assert(s1 == self.with_road_materials());
                s1.road_affordable(e, cp)
            },
            None => true,
        }
    }

    /// Whether `action` can be applied to this position: exactly [`GameState::can_apply`].
    pub fn can_apply_action(&self, board: &Board, action: Action) -> (b: bool)
        ensures
            b == self.can_apply(*board, action),
    {
        if self.current_player >= 5 {
            return false;
        }
        let cp = self.current_player as usize;
        match action {
            Action::InitialSettle(v) => cp < 4 && self.check_initial_settle(board, v),
            Action::InitialRoad(spot) => self.check_initial_road(board, spot),
            Action::MoveRobber(_) => true,
            Action::Steal(victim, r) => self.check_steal(victim, r),
            Action::Settle(spot) => {
                if cp >= 4 {
                    return false;
                }
                match self.settle_spot_vertex(spot) {
                    Some(v) => self.village_affordable(v, cp),
                    None => false,
                }
            },
            Action::City(spot) => {
                if cp >= 4 {
                    return false;
                }
                let villages = self.players[cp].villages;
                if spot as u32 >= crate::bits::count_ones64(villages) {
                    return false;
                }
                let v = nth_bit64(villages, spot as u32) as usize;
                self.city_affordable(v, cp)
            },
            Action::Road(spot) => {
                if cp >= 4 {
                    return false;
                }
                match self.road_spot_edge(spot) {
                    Some(e) => self.road_affordable(e, cp),
                    None => false,
                }
            },
            Action::RoadBuild1(spot) => cp < 4 && self.check_road_build(spot),
            Action::RoadBuild2(spot) => cp < 4 && self.check_road_build(spot),
            Action::BuyDevCard(card) => cp < 4 && self.check_buy(card),
            Action::BankTrade(give, get) => cp < 4 && self.check_trade(board, give, get),
            Action::PlayDevCard(card) => cp < 4 && self.check_play(card),
            Action::EndTurn => cp < 4 && board.num_players > 0,
            Action::Roll(n) => self.check_roll(board, n),
            Action::YoPResources(r1, r2) => cp < 4 && self.check_yop(r1, r2),
            Action::MonopolyResource(res) => self.check_monopoly(res),
        }
    }
}


impl GameState {
    /// Number of settle spots of the player to move.
    pub fn settle_spot_total(&self) -> (n: u8)
        requires
            self.current_player < 4,
        ensures
            n == self.settle_spot_count(NUM_VERTICES as int),
    {
        let roads = self.players[self.current_player as usize].roads();
        let mut n: u8 = 0;
        let mut v: usize = 0;
        while v < NUM_VERTICES
            invariant
                v <= NUM_VERTICES,
                self.current_player < 4,
                roads == self.cur().spec_roads(),
                n == self.settle_spot_count(v as int),
                n <= v,
            decreases NUM_VERTICES - v,
        {
            if self.is_vertex_buildable(v) && row_touches_road3(vertex_edges(v), roads) {
                n = n + 1;
            }
            v = v + 1;
        }
        n
    }

    /// Number of road spots of the player to move.
    pub fn road_spot_total(&self) -> (n: u8)
        requires
            self.current_player < 4,
        ensures
            n == self.road_spot_count(NUM_EDGES as int),
    {
        let roads = self.players[self.current_player as usize].roads();
        let mut n: u8 = 0;
        let mut e: usize = 0;
        while e < NUM_EDGES
            invariant
                e <= NUM_EDGES,
                self.current_player < 4,
                roads == self.cur().spec_roads(),
                n == self.road_spot_count(e as int),
                n <= e,
            decreases NUM_EDGES - e,
        {
            if self.is_edge_buildable(e) && row_touches_road4(edge_edges(e), roads) {
                n = n + 1;
            }
            e = e + 1;
        }
        n
    }

    /// Whether the actions after `parent` can be generated in this position: exactly
    /// [`GameState::can_generate`].
    pub fn can_generate_actions(&self, parent: Action) -> (b: bool)
        ensures
            b == self.can_generate(parent),
    {
        match parent.forced_continuation() {
            Some(Action::MoveRobber(_)) => self.robber < 128,
            Some(Action::Steal(_, _)) => match parent {
                Action::MoveRobber(spot) => self.current_player < 4 && spot < 19,
                _ => false,
            },
            Some(Action::YoPResources(_, _)) => true,
            Some(Action::MonopolyResource(_)) => true,
            Some(Action::RoadBuild1(_)) => self.current_player < 4,
            Some(Action::RoadBuild2(_)) => self.current_player < 4,
            _ => {
                if self.current_player >= 4 {
                    return false;
                }
                let p = self.players[self.current_player as usize];
                if self.is_initial() {
                    p.villages_left <= 5 && p.roads_left <= 15 && (self.is_initial_settle()
                        || self.unroaded_village_exists())
                } else {
                    (!p.can_settle() || self.settle_spot_total() <= 14) && (!p.can_city()
                        || crate::bits::count_ones64(p.villages) <= 6) && (!p.can_road()
                        || self.road_spot_total() <= 21)
                }
            },
        }
    }
}

} // verus!
