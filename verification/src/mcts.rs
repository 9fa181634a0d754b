//! The Monte Carlo tree search: the search tree over a game, its growth by one node per
//! playout, and the choice of the move to play.

use vstd::prelude::*;
use vstd::array::spec_array_update;

use crate::bits::has_bit128;
use crate::board::Board;
use crate::game_data::Game;
use crate::game_state::GameState;
use crate::graph::{spec_forced_continuation, Action, Node, NodeArena, NodeRef};
use crate::types::DevCard;

verus! {

/// Node `n` has been visited once for every win it counts.
pub open spec fn counts_balanced(n: Node) -> bool {
    n.visits as int == n.wins@[0] + n.wins@[1] + n.wins@[2] + n.wins@[3]
}

/// Node `i` is well formed: it counts one visit per win; every node but the root (node
/// 0) has a parent; its parent and next sibling come before it (the root is its own
/// sibling), a next sibling has the same parent, its first child lies in the arena after
/// the root with it as parent, and the children of a chance node are laid out in full
/// after its first child.
pub open spec fn node_links_ok(nodes: Seq<Node>, i: int) -> bool {
    let n = nodes[i];
    &&& counts_balanced(n)
    &&& i > 0 ==> n.parent.spec_is_valid()
    &&& n.parent.spec_is_valid() ==> n.parent.0 < i
    &&& n.next_sibling.spec_is_valid() ==> (i == 0 || (1 <= n.next_sibling.0 < i && nodes[n.next_sibling.0 as int].parent
        == n.parent))
    &&& n.first_child.spec_is_valid() ==> (1 <= n.first_child.0 < nodes.len() && nodes[n.first_child.0 as int].parent
        == NodeRef(i as usize))
    &&& n.rolls_dice() && n.first_child.spec_is_valid() ==> n.first_child.0 + 10 < nodes.len()
    &&& n.parent_action == Action::BuyDevCard(DevCard::Unknown) && n.first_child.spec_is_valid() ==> n.first_child.0 + 4
        < nodes.len()
}

/// The links of every node of the search tree are well formed.
pub open spec fn tree_wf(nodes: Seq<Node>) -> bool {
    forall|i: int| 0 <= i < nodes.len() ==> #[trigger] node_links_ok(nodes, i)
}

/// The children of a node, from `r` along the sibling links.
pub open spec fn sibling_chain(nodes: Seq<Node>, r: NodeRef) -> Seq<int>
    decreases r.0,
{
    if !r.spec_is_valid() || r.0 == 0 || r.0 >= nodes.len() {
        Seq::empty()
    } else {
        let next = nodes[r.0 as int].next_sibling;
        if next.spec_is_valid() && next.0 < r.0 {
            seq![r.0 as int].add(sibling_chain(nodes, next))
        } else {
            seq![r.0 as int]
        }
    }
}

/// Search context: the game searched from, its board, the tree and the tree's root.
pub struct Mcts {
    pub game: Game,
    pub board: Board,
    pub arena: NodeArena,
    pub root: NodeRef,
}

impl Mcts {
    /// The context is consistent: the board is the game's, the tree is well formed and
    /// its root is node 0.
    pub open spec fn wf(self) -> bool {
        &&& self.board == self.game.spec_board()
        &&& tree_wf(self.arena.view())
        &&& self.root == NodeRef(0)
        &&& self.root.0 < self.arena.view().len()
    }

    /// What starting a search from `game` needs: the actions that the last action calls
    /// for can be generated (outside forced sequences, only in a game that is not over).
    pub open spec fn can_start(game: Game) -> bool {
        let last = game.spec_last_action();
        match spec_forced_continuation(last) {
            None => game.spec_state().spec_is_terminal() || game.spec_state().can_generate(last),
            Some(_) => game.spec_state().can_generate(last),
        }
    }

    /// Starts a search from the current position of `game`: the tree holds only a root,
    /// whose untried actions are those that the last action calls for.
    pub fn new(game: Game) -> (m: Mcts)
        requires
            Mcts::can_start(game),
        ensures
            m.wf(),
            m.game == game,
            m.root == NodeRef(0),
            m.arena.view().len() == 1,
            m.arena.view()[0].state == game.spec_state(),
            m.arena.view()[0].visits == 0,
            m.arena.view()[0].first_child == NodeRef::spec_invalid(),
            m.arena.view()[0].parent == NodeRef::spec_invalid(),
            match spec_forced_continuation(game.spec_last_action()) {
                Some(Action::MoveRobber(_)) => m.arena.view()[0].parent_action == Action::Roll(7)
                    && m.arena.view()[0].available_actions.flags() == 0x7FFFFu128 ^ (1u128 << game.spec_state().robber),
                Some(Action::Steal(_, _)) => m.arena.view()[0].parent_action == game.spec_last_action()
                    && game.spec_state().steal_flags(game.spec_last_action()->MoveRobber_0, m.arena.view()[0].available_actions.flags()),
                Some(Action::YoPResources(_, _)) => m.arena.view()[0].parent_action == Action::PlayDevCard(DevCard::YoP)
                    && m.arena.view()[0].available_actions.flags() == 0x1FFFFFFu128,
                Some(Action::MonopolyResource(_)) => m.arena.view()[0].parent_action == Action::PlayDevCard(DevCard::Monopoly)
                    && m.arena.view()[0].available_actions.flags() == 0x1Fu128,
                Some(Action::RoadBuild1(_)) => m.arena.view()[0].parent_action == Action::PlayDevCard(DevCard::RoadBuild)
                    && crate::game_state::low_bits(m.arena.view()[0].available_actions.flags(), game.spec_state().road_spot_count(crate::topology::NUM_EDGES as int)),
                Some(Action::RoadBuild2(_)) => m.arena.view()[0].parent_action == Action::RoadBuild1(0)
                    && crate::game_state::low_bits(m.arena.view()[0].available_actions.flags(), game.spec_state().road_spot_count(crate::topology::NUM_EDGES as int)),
                _ => m.arena.view()[0].parent_action == Action::spec_none()
                    && Node::initial_flags(game.spec_state(), game.spec_board(), Action::spec_none(), m.arena.view()[0].available_actions.flags()),
            },
    {
        let mut arena = NodeArena::new();
        let state = *game.current_state();
        let last = game.last_action();
        let root = match last.forced_continuation() {
            Some(Action::MoveRobber(_)) => arena.insert(Node::robber(state, NodeRef::invalid())),
            Some(Action::Steal(_, _)) => {
                let spot = match last {
                    Action::MoveRobber(spot) => spot,
                    _ => 0,
                };
                arena.insert(Node::steal(state, NodeRef::invalid(), spot))
            },
            Some(Action::YoPResources(_, _)) => arena.insert(Node::yop_resources(state, NodeRef::invalid())),
            Some(Action::MonopolyResource(_)) => arena.insert(Node::monopoly_resource(state, NodeRef::invalid())),
            Some(Action::RoadBuild1(_)) => arena.insert(Node::road_build_1(state, NodeRef::invalid())),
            Some(Action::RoadBuild2(_)) => arena.insert(Node::road_build_2(state, NodeRef::invalid())),
            _ => arena.insert(Node::root(state, game.board())),
        };
        let board = *game.board();
        Mcts { game, board, arena, root }
    }
}


/// Position, among the first `n` entries of `chain`, of the first node with the most
/// visits.
pub open spec fn most_visited(nodes: Seq<Node>, chain: Seq<int>, n: int) -> int
    decreases n,
{
    if n <= 1 {
        0
    } else {
        let b = most_visited(nodes, chain, n - 1);
        if nodes[chain[n - 1]].visits > nodes[chain[b]].visits {
            n - 1
        } else {
            b
        }
    }
}

/// Among the first `n` nodes of `chain`, the one [`most_visited`] picks has at least as
/// many visits as each of them, and more than each one before it: it is the first of the
/// most visited.
pub proof fn lemma_most_visited_max(nodes: Seq<Node>, chain: Seq<int>, n: int)
    requires
        1 <= n,
    ensures
        0 <= most_visited(nodes, chain, n) < n,
        forall|i: int| 0 <= i < n ==> #[trigger] nodes[chain[i]].visits <= nodes[chain[most_visited(nodes, chain, n)]].visits,
        forall|i: int| 0 <= i < most_visited(nodes, chain, n) ==> #[trigger] nodes[chain[i]].visits < nodes[chain[most_visited(
            nodes,
            chain,
            n,
        )]].visits,
    decreases n,
{
    if n > 1 {
        lemma_most_visited_max(nodes, chain, n - 1);
    }
}

/// Node `i` lies on the path from node `r` up to the root.
pub open spec fn on_path(nodes: Seq<Node>, r: NodeRef, i: int) -> bool
    decreases r.0,
{
    if !r.spec_is_valid() || r.0 >= nodes.len() {
        false
    } else if i == r.0 {
        true
    } else {
        let p = nodes[r.0 as int].parent;
        p.spec_is_valid() && p.0 < r.0 && on_path(nodes, p, i)
    }
}

proof fn lemma_chain_step(nodes: Seq<Node>, r: NodeRef)
    requires
        tree_wf(nodes),
        r.spec_is_valid(),
        1 <= r.0 < nodes.len(),
    ensures
        sibling_chain(nodes, r).len() >= 1,
        sibling_chain(nodes, r)[0] == r.0,
        nodes[r.0 as int].next_sibling.spec_is_valid() ==> sibling_chain(nodes, r).subrange(1, sibling_chain(nodes, r).len() as int)
            == sibling_chain(nodes, nodes[r.0 as int].next_sibling),
        !nodes[r.0 as int].next_sibling.spec_is_valid() ==> sibling_chain(nodes, r).len() == 1,
{
    let n = nodes[r.0 as int];
    assert(node_links_ok(nodes, r.0 as int));
    if n.next_sibling.spec_is_valid() {
        assert(1 <= n.next_sibling.0 < r.0);
        let c = sibling_chain(nodes, r);
        assert(c == seq![r.0 as int].add(sibling_chain(nodes, n.next_sibling)));
        assert(c.subrange(1, c.len() as int) =~= sibling_chain(nodes, n.next_sibling));
    }
}

impl Mcts {
    /// The move to play: the action leading to the root's child with the most visits (the
    /// first such child in sibling order).
    pub fn best_move(&self) -> (a: Action)
        requires
            self.wf(),
            self.arena.view()[self.root.0 as int].first_child.spec_is_valid(),
        ensures
            ({
                let nodes = self.arena.view();
                let c = sibling_chain(nodes, nodes[self.root.0 as int].first_child);
                &&& c.len() >= 1
                &&& a == nodes[c[most_visited(nodes, c, c.len() as int)]].parent_action
                &&& exists|j: int|
                    0 <= j < c.len() && a == nodes[c[j]].parent_action && (forall|i: int|
                        0 <= i < c.len() ==> #[trigger] nodes[c[i]].visits <= nodes[c[j]].visits) && (forall|i: int|
                        0 <= i < j ==> #[trigger] nodes[c[i]].visits < nodes[c[j]].visits)
            }),
    {
        let ghost nodes = self.arena.view();
        let first = self.arena.get(self.root).first_child;
        let ghost c = sibling_chain(nodes, first);
        proof {
            assert(tree_wf(nodes));
            assert(node_links_ok(nodes, self.root.0 as int));
            lemma_chain_step(nodes, first);
        }
        let mut best_child = first;
        let mut cur = first;
        let mut current_child = self.arena.get(first);
        let mut best_visits = current_child.visits;
        let ghost mut k: int = 0;
        loop
            invariant
                nodes == self.arena.view(),
                tree_wf(nodes),
                c == sibling_chain(nodes, first),
                1 <= cur.0 < nodes.len(),
                cur.spec_is_valid(),
                0 <= k < c.len(),
                c[k] == cur.0,
                sibling_chain(nodes, cur) == c.subrange(k, c.len() as int),
                current_child == nodes[cur.0 as int],
                best_child.0 == c[most_visited(nodes, c, k + 1)],
                best_child.0 < nodes.len(),
                best_visits == nodes[best_child.0 as int].visits,
            ensures
                k + 1 == c.len(),
                best_child.0 == c[most_visited(nodes, c, k + 1)],
                best_child.0 < nodes.len(),
            decreases cur.0,
        {
            proof {
                lemma_chain_step(nodes, cur);
            }
            let next = current_child.next_sibling;
            if !next.is_valid() {
                assert(c.subrange(k, c.len() as int).len() == 1);
                break;
            }
            proof {
                assert(nodes[cur.0 as int] == current_child);
                assert(node_links_ok(nodes, cur.0 as int));
                assert(1 <= next.0 < cur.0);
                lemma_chain_step(nodes, next);
                assert(c.subrange(k + 1, c.len() as int) =~= c.subrange(k, c.len() as int).subrange(1, c.subrange(k, c.len() as int).len() as int));
                assert(c[k + 1] == c.subrange(k + 1, c.len() as int)[0]);
            }
            current_child = self.arena.get(next);
            cur = next;
            proof {
                k = k + 1;
            }
            let current_visits = current_child.visits;
            if current_visits > best_visits {
                best_visits = current_visits;
                best_child = next;
            }
        }
        proof {
            lemma_most_visited_max(nodes, c, c.len() as int);
        }
        self.arena.get(best_child).parent_action
    }

    /// Records a playout won by seat `winner` on every node from `from` up to the root:
    /// one more visit, and one more win for the winner.
    pub fn backpropagate(&mut self, from: NodeRef, winner: usize)
        requires
            old(self).wf(),
            winner < 4,
            from.spec_is_valid() ==> from.0 < old(self).arena.view().len(),
            forall|i: int|
                0 <= i < old(self).arena.view().len() && on_path(old(self).arena.view(), from, i) ==> {
                    &&& (#[trigger] old(self).arena.view()[i]).visits < u32::MAX
                    &&& old(self).arena.view()[i].wins@[winner as int] < u32::MAX
                },
        ensures
            final(self).wf(),
            final(self).game == old(self).game,
            final(self).board == old(self).board,
            final(self).root == old(self).root,
            final(self).arena.view().len() == old(self).arena.view().len(),
            forall|i: int|
                0 <= i < old(self).arena.view().len() ==> #[trigger] final(self).arena.view()[i] == if on_path(
                    old(self).arena.view(),
                    from,
                    i,
                ) {
                    visited(old(self).arena.view()[i], winner as int)
                } else {
                    old(self).arena.view()[i]
                },
    {
        let ghost o = self.arena.view();
        let mut node_ref = from;
        while node_ref.is_valid()
            invariant
                self.wf(),
                self.game == old(self).game,
                self.board == old(self).board,
                self.root == old(self).root,
                winner < 4,
                o == old(self).arena.view(),
                tree_wf(o),
                self.arena.view().len() == o.len(),
                node_ref.spec_is_valid() ==> node_ref.0 < o.len(),
                forall|i: int|
                    0 <= i < o.len() && on_path(o, from, i) ==> {
                        &&& (#[trigger] o[i]).visits < u32::MAX
                        &&& o[i].wins@[winner as int] < u32::MAX
                    },
                forall|i: int| 0 <= i < o.len() && #[trigger] on_path(o, node_ref, i) ==> on_path(o, from, i),
                forall|i: int|
                    0 <= i < o.len() ==> #[trigger] self.arena.view()[i] == if on_path(o, from, i) && !on_path(o, node_ref, i) {
                        visited(o[i], winner as int)
                    } else {
                        o[i]
                    },
            decreases if node_ref.spec_is_valid() {
                node_ref.0 as int + 1
            } else {
                0
            },
        {
            let cur = node_ref;
            let mut node = self.arena.get(cur);
            let parent = node.parent;
            proof {
                assert(on_path(o, cur, cur.0 as int));
                assert(self.arena.view()[cur.0 as int] == o[cur.0 as int]);
                assert(node_links_ok(o, cur.0 as int));
                assert(parent.spec_is_valid() ==> parent.0 < cur.0);
            }
            node.visits = node.visits + 1;
            node.wins[winner] = node.wins[winner] + 1;
            proof {
                assert(node.wins =~= wins_add(o[cur.0 as int].wins, winner as int));
            }
            self.arena.set(cur, node);
            node_ref = parent;
            proof {
                assert forall|i: int| 0 <= i < o.len() implies #[trigger] on_path(o, cur, i) == (i == cur.0 || on_path(o, parent, i)) by {
                    if on_path(o, parent, i) {
                        lemma_path_below(o, parent, i);
                    }
                }
                assert forall|i: int| 0 <= i < o.len() && #[trigger] on_path(o, parent, i) implies on_path(o, from, i) by {
                    lemma_path_below(o, parent, i);
                    assert(on_path(o, cur, i));
                }
                assert(!on_path(o, parent, cur.0 as int)) by {
                    if on_path(o, parent, cur.0 as int) {
                        lemma_path_below(o, parent, cur.0 as int);
                    }
                }
                let v = self.arena.view();
                assert forall|i: int| 0 <= i < v.len() implies #[trigger] v[i].parent == o[i].parent && v[i].next_sibling
                    == o[i].next_sibling && v[i].first_child == o[i].first_child && v[i].parent_action == o[i].parent_action
                    && v[i].state == o[i].state by {
                    assert(v[i] == (if on_path(o, from, i) && !on_path(o, node_ref, i) {
                        visited(o[i], winner as int)
                    } else {
                        o[i]
                    }));
                }
                assert(tree_wf(v)) by {
                    assert forall|i: int| 0 <= i < v.len() implies #[trigger] node_links_ok(v, i) by {
                        assert(node_links_ok(o, i));
                        let n = v[i];
                        let m = o[i];
                        assert(m == o[i]);
                        assert(n.parent == m.parent && n.next_sibling == m.next_sibling && n.first_child == m.first_child);
                        assert(n.rolls_dice() == m.rolls_dice());
                        if m.next_sibling.spec_is_valid() && i != 0 {
                            assert(v[m.next_sibling.0 as int].parent == o[m.next_sibling.0 as int].parent);
                        }
                        if m.first_child.spec_is_valid() {
                            assert(v[m.first_child.0 as int].parent == o[m.first_child.0 as int].parent);
                        }
                    }
                }
            }
        }
    }
}

/// Node `n` after a playout through it won by seat `winner`.
pub open spec fn visited(n: Node, winner: int) -> Node {
    Node { visits: (n.visits + 1) as u32, wins: wins_add(n.wins, winner), ..n }
}

/// `w` with one more win for seat `k`.
pub open spec fn wins_add(w: [u32; 4], k: int) -> [u32; 4] {
    spec_array_update(w, k, (w[k] + 1) as u32)
}

proof fn lemma_path_below(nodes: Seq<Node>, r: NodeRef, i: int)
    requires
        on_path(nodes, r, i),
    ensures
        i <= r.0,
    decreases r.0,
{
    if i != r.0 {
        lemma_path_below(nodes, nodes[r.0 as int].parent, i);
    }
}


/// The links of node `n` fit the tree `nodes` when `n` is appended to it.
pub open spec fn links_fit(n: Node, nodes: Seq<Node>) -> bool {
    &&& counts_balanced(n)
    &&& nodes.len() > 0 ==> n.parent.spec_is_valid()
    &&& n.parent.spec_is_valid() ==> n.parent.0 < nodes.len()
    &&& n.next_sibling.spec_is_valid() ==> (nodes.len() == 0 || (1 <= n.next_sibling.0 < nodes.len()
        && nodes[n.next_sibling.0 as int].parent == n.parent))
    &&& n.first_child == NodeRef::spec_invalid()
}

/// `t` is the state after a roll of `n` from `s`, and the node for it can be made: it is
/// a robber node for a 7, and its actions can be generated otherwise. A roll of 2 hands
/// out production without the roll action (the node gets no parent action).
pub open spec fn roll_outcome(s: GameState, board: Board, n: u8, t: GameState) -> bool {
    if n == 2 {
        &&& s.ok_roll(board, 2)
        &&& s.after_roll(board, 2, t)
        &&& t.spec_is_terminal() || t.can_generate(Action::spec_none())
    } else {
        &&& s.can_apply(board, Action::Roll(n))
        &&& s.applied(board, Action::Roll(n), Action::Roll(n), t)
        &&& n == 7 ==> t.robber < 128
        &&& n != 7 ==> (t.spec_is_terminal() || t.can_generate(Action::Roll(n)))
    }
}

/// A roll of `n` from `s` has an outcome whose node can be made.
pub open spec fn roll_possible(s: GameState, board: Board, n: u8) -> bool {
    exists|t: GameState| roll_outcome(s, board, n, t)
}

/// A roll determines the state after it.
proof fn lemma_roll_unique(s: GameState, board: Board, n: u8, t1: GameState, t2: GameState)
    requires
        s.after_roll(board, n, t1),
        s.after_roll(board, n, t2),
    ensures
        t1 == t2,
{
    assert forall|i: int| 0 <= i < 4 implies #[trigger] t1.players[i] == t2.players[i] by {
        assert(t1.players[i].resources =~= t2.players[i].resources) by {
            if n == 7 {
                assert(t1.players[i].resources@ == t2.players[i].resources@);
            } else {
                assert forall|r: int| 0 <= r < 5 implies t1.players[i].resources[r] == t2.players[i].resources[r] by {
                    assert(t1.players[i].resources@[r] == t2.players[i].resources@[r]);
                }
            }
        }
    }
    assert(t1.players =~= t2.players);
}

/// `node` is the child for a roll of `n` under `parent`, for the state `t` after the roll.
pub open spec fn roll_child(board: Board, parent: NodeRef, n: u8, t: GameState, node: Node) -> bool {
    let f = node.available_actions.flags();
    if n == 2 {
        node.fresh(t, f, parent, Action::spec_none(), NodeRef::spec_invalid()) && Node::initial_flags(t, board, Action::spec_none(), f)
    } else if n == 7 {
        node.fresh(t, 0x7FFFFu128 ^ (1u128 << t.robber), parent, Action::Roll(7), NodeRef::spec_robber())
    } else {
        node.fresh(t, f, parent, Action::Roll(n), NodeRef::spec_invalid()) && Node::initial_flags(t, board, Action::Roll(n), f)
    }
}

/// `t` is the state after buying card number `c` from `s` (unchanged when the deck has
/// none of it), and the node for it can be made.
pub open spec fn card_outcome(s: GameState, board: Board, c: u8, t: GameState) -> bool {
    let a = Action::BuyDevCard(DevCard::spec_from_u8(c));
    &&& s.dev_card_deck@[c as int] > 0 ==> s.can_apply(board, a) && s.applied(board, a, a, t)
    &&& s.dev_card_deck@[c as int] == 0 ==> t == s
    &&& t.spec_is_terminal() || t.can_generate(a)
}

/// Buying card number `c` from `s` has an outcome whose node can be made.
pub open spec fn card_possible(s: GameState, board: Board, c: u8) -> bool {
    exists|t: GameState| card_outcome(s, board, c, t)
}

/// `node` is the child for card number `c` under `parent`, for state `t`.
pub open spec fn card_child(board: Board, parent: NodeRef, c: u8, t: GameState, node: Node) -> bool {
    let a = Action::BuyDevCard(DevCard::spec_from_u8(c));
    let f = node.available_actions.flags();
    node.fresh(t, f, parent, a, NodeRef::spec_invalid()) && Node::initial_flags(t, board, a, f)
}

impl Mcts {
    /// Appends `n` to the tree.
    fn add_node(&mut self, n: Node) -> (r: NodeRef)
        requires
            old(self).wf(),
            old(self).arena.view().len() < usize::MAX - 3,
            links_fit(n, old(self).arena.view()),
        ensures
            final(self).wf(),
            final(self).game == old(self).game,
            final(self).board == old(self).board,
            final(self).root == old(self).root,
            final(self).arena.view() == old(self).arena.view().push(n),
            r.0 == old(self).arena.view().len(),
            r.spec_is_valid(),
    {
        let ghost o = self.arena.view();
        let r = self.arena.insert(n);
        proof {
            let v = self.arena.view();
            assert forall|i: int| 0 <= i < v.len() implies #[trigger] node_links_ok(v, i) by {
                if i < o.len() {
                    assert(node_links_ok(o, i));
                    let m = o[i];
                    assert(m == o[i]);
                    assert(v[i] == m);
                    if m.next_sibling.spec_is_valid() && i != 0 {
                        assert(v[m.next_sibling.0 as int] == o[m.next_sibling.0 as int]);
                    }
                    if m.first_child.spec_is_valid() {
                        assert(v[m.first_child.0 as int] == o[m.first_child.0 as int]);
                    }
                } else {
                    assert(v[i] == n);
                    if n.next_sibling.spec_is_valid() && o.len() != 0 {
                        assert(v[n.next_sibling.0 as int] == o[n.next_sibling.0 as int]);
                    }
                }
            }
        }
        r
    }

    /// Sets the first child of node `p` to `c`.
    fn set_first_child(&mut self, p: NodeRef, c: NodeRef)
        requires
            old(self).wf(),
            p.0 < old(self).arena.view().len(),
            1 <= c.0 < old(self).arena.view().len(),
            old(self).arena.view()[c.0 as int].parent == p,
            old(self).arena.view()[p.0 as int].rolls_dice() ==> c.0 + 10 < old(self).arena.view().len(),
            old(self).arena.view()[p.0 as int].parent_action == Action::BuyDevCard(DevCard::Unknown) ==> c.0 + 4
                < old(self).arena.view().len(),
        ensures
            final(self).wf(),
            final(self).game == old(self).game,
            final(self).board == old(self).board,
            final(self).root == old(self).root,
            final(self).arena.view() == old(self).arena.view().update(
                p.0 as int,
                Node { first_child: c, ..old(self).arena.view()[p.0 as int] },
            ),
    {
        let ghost o = self.arena.view();
        let mut n = self.arena.get(p);
        n.first_child = c;
        self.arena.set(p, n);
        proof {
            let v = self.arena.view();
            assert forall|i: int| 0 <= i < v.len() implies #[trigger] node_links_ok(v, i) by {
                assert(node_links_ok(o, i));
                let m = o[i];
                assert(m == o[i]);
                assert forall|j: int| 0 <= j < v.len() implies #[trigger] v[j].parent == o[j].parent by {}
                if m.next_sibling.spec_is_valid() && i != 0 {
                    assert(v[m.next_sibling.0 as int].parent == o[m.next_sibling.0 as int].parent);
                }
                if v[i].first_child.spec_is_valid() {
                    assert(v[v[i].first_child.0 as int].parent == o[v[i].first_child.0 as int].parent);
                }
            }
        }
    }

    /// The states after the eleven dice totals from `state`, if every node for them can
    /// be made.
    fn roll_outcomes(&mut self, state: GameState) -> (r: Option<[GameState; 11]>)
        requires
            old(self).wf(),
        ensures
            final(self).wf(),
            final(self).board == old(self).board,
            final(self).root == old(self).root,
            final(self).arena == old(self).arena,
            final(self).game.spec_board() == old(self).game.spec_board(),
            final(self).game.spec_state() == old(self).game.spec_state(),
            final(self).game.spec_actions() == old(self).game.spec_actions(),
            r matches Some(a) ==> forall|k: int| 0 <= k < 11 ==> roll_outcome(state, old(self).board, (k + 2) as u8, #[trigger] a@[k]),
            r is None ==> exists|k: int| 0 <= k < 11 && !#[trigger] roll_possible(state, old(self).board, (k + 2) as u8),
    {
        let board = self.board;
        let mut out = [state; 11];
        if !state.check_roll(&board, 2) {
            assert(!roll_possible(state, board, (0int + 2) as u8));
            return None;
        }
        let mut s2 = state;
        s2.roll_resources(&board, 2);
        if !(s2.is_terminal() || s2.can_generate_actions(Action::none())) {
            proof {
                assert(state.after_roll(board, 2, s2));
                assert forall|t: GameState| !#[trigger] roll_outcome(state, board, 2, t) by {
                    if roll_outcome(state, board, 2, t) {
                        lemma_roll_unique(state, board, 2, s2, t);
                    }
                }
                assert(!roll_possible(state, board, (0int + 2) as u8));
            }
            return None;
        }
        out[0] = s2;
        let mut n: u8 = 3;
        while n <= 12
            invariant
                3 <= n <= 13,
                self.wf(),
                self.board == old(self).board,
                self.root == old(self).root,
                self.arena == old(self).arena,
                self.game.spec_board() == old(self).game.spec_board(),
                self.game.spec_state() == old(self).game.spec_state(),
                self.game.spec_actions() == old(self).game.spec_actions(),
                board == self.board,
                forall|k: int| 0 <= k < n - 2 ==> roll_outcome(state, board, (k + 2) as u8, #[trigger] out@[k]),
            decreases 13 - n,
        {
            let mut sn = state;
            if !sn.can_apply_action(&board, Action::Roll(n)) {
                assert(!roll_possible(state, board, ((n - 2) + 2) as u8));
                return None;
            }
            sn.apply_action(&board, Action::Roll(n), self.game.rng());
            let ok = if n == 7 {
                sn.robber < 128
            } else {
                sn.is_terminal() || sn.can_generate_actions(Action::Roll(n))
            };
            if !ok {
                proof {
                    assert forall|t: GameState| !#[trigger] roll_outcome(state, board, n, t) by {
                        if roll_outcome(state, board, n, t) {
                            lemma_roll_unique(state, board, n, sn, t);
                        }
                    }
                    assert(!roll_possible(state, board, ((n - 2) + 2) as u8));
                }
                return None;
            }
            let ghost before = out;
            out[(n - 2) as usize] = sn;
            assert(forall|k: int| 0 <= k < n - 2 ==> out@[k] == before@[k]);
            n = n + 1;
        }
        Some(out)
    }

    /// Adds the eleven children of `parent` for the dice totals 2 to 12, with the states
    /// `outcomes`, and makes the first of them `parent`'s first child.
    fn create_roll_nodes(&mut self, parent: NodeRef, outcomes: [GameState; 11])
        requires
            old(self).wf(),
            1 <= parent.0 < old(self).arena.view().len(),
            old(self).arena.view().len() + 11 < usize::MAX - 3,
            forall|k: int| 0 <= k < 11 ==> (#[trigger] outcomes@[k]).robber < 128 || k != 5,
            forall|k: int| 0 <= k < 11 ==> #[trigger] outcomes@[k].spec_is_terminal() || outcomes@[k].can_generate(
                if k == 0 {
                    Action::spec_none()
                } else {
                    Action::Roll((k + 2) as u8)
                },
            ) || k == 5,
        ensures
            final(self).wf(),
            final(self).game.spec_board() == old(self).game.spec_board(),
            final(self).game.spec_state() == old(self).game.spec_state(),
            final(self).game.spec_actions() == old(self).game.spec_actions(),
            final(self).board == old(self).board,
            final(self).root == old(self).root,
            final(self).arena.view().len() == old(self).arena.view().len() + 11,
            forall|j: int| 0 <= j < old(self).arena.view().len() && j != parent.0 ==> #[trigger] final(self).arena.view()[j]
                == old(self).arena.view()[j],
            final(self).arena.view()[parent.0 as int] == (Node {
                first_child: NodeRef(old(self).arena.view().len() as usize),
                ..old(self).arena.view()[parent.0 as int]
            }),
            forall|k: int| 0 <= k < 11 ==> roll_child(old(self).board, parent, (k + 2) as u8, outcomes@[k], #[trigger] final(self).arena.view()[old(self).arena.view().len() + k]),
    {
        let ghost o = self.arena.view();
        let board = self.board;
        let first_child = self.add_node(Node::with_parent(outcomes[0], &board, parent, Action::none()));
        let mut k: usize = 1;
        while k < 11
            invariant
                1 <= k <= 11,
                self.wf(),
                self.game.spec_board() == old(self).game.spec_board(),
                self.game.spec_state() == old(self).game.spec_state(),
                self.game.spec_actions() == old(self).game.spec_actions(),
                self.board == old(self).board,
                self.root == old(self).root,
                board == self.board,
                o == old(self).arena.view(),
                1 <= parent.0 < o.len(),
                o.len() + 11 < usize::MAX - 3,
                first_child.0 == o.len(),
                forall|j: int| 0 <= j < 11 ==> (#[trigger] outcomes@[j]).robber < 128 || j != 5,
                forall|j: int| 0 <= j < 11 ==> #[trigger] outcomes@[j].spec_is_terminal() || outcomes@[j].can_generate(
                    if j == 0 {
                        Action::spec_none()
                    } else {
                        Action::Roll((j + 2) as u8)
                    },
                ) || j == 5,
                self.arena.view().len() == o.len() + k,
                forall|j: int| 0 <= j < o.len() ==> #[trigger] self.arena.view()[j] == o[j],
                forall|j: int| 0 <= j < k ==> roll_child(board, parent, (j + 2) as u8, outcomes@[j], #[trigger] self.arena.view()[o.len() + j]),
            decreases 11 - k,
        {
            let n = (k + 2) as u8;
            let s = outcomes[k];
            assert(s == outcomes@[k as int]);
            let node = if n == 7 {
                Node::robber(s, parent)
            } else {
                Node::with_parent(s, &board, parent, Action::Roll(n))
            };
            let ghost before = self.arena.view();
            self.add_node(node);
            assert(self.arena.view()[o.len() + k] == node);
            assert(forall|j: int| 0 <= j < o.len() + k ==> self.arena.view()[j] == before[j]);
            k = k + 1;
        }
        let ghost before = self.arena.view();
        proof {
            assert(before[parent.0 as int] == o[parent.0 as int]);
        }
        proof {
            assert(roll_child(board, parent, (0 + 2) as u8, outcomes@[0], self.arena.view()[o.len() as int + 0]));
        }
        self.set_first_child(parent, first_child);
    }

    /// The states after buying each of the five cards from `state`, if every node for
    /// them can be made.
    fn card_outcomes(&mut self, state: GameState) -> (r: Option<[GameState; 5]>)
        requires
            old(self).wf(),
        ensures
            final(self).wf(),
            final(self).board == old(self).board,
            final(self).root == old(self).root,
            final(self).arena == old(self).arena,
            final(self).game.spec_board() == old(self).game.spec_board(),
            final(self).game.spec_state() == old(self).game.spec_state(),
            final(self).game.spec_actions() == old(self).game.spec_actions(),
            r matches Some(a) ==> forall|k: int| 0 <= k < 5 ==> card_outcome(state, old(self).board, k as u8, #[trigger] a@[k]),
            r is None ==> exists|k: int| 0 <= k < 5 && !#[trigger] card_possible(state, old(self).board, k as u8),
    {
        let board = self.board;
        let mut out = [state; 5];
        let mut c: usize = 0;
        while c < 5
            invariant
                c <= 5,
                self.wf(),
                self.board == old(self).board,
                self.root == old(self).root,
                self.arena == old(self).arena,
                self.game.spec_board() == old(self).game.spec_board(),
                self.game.spec_state() == old(self).game.spec_state(),
                self.game.spec_actions() == old(self).game.spec_actions(),
                board == self.board,
                forall|k: int| 0 <= k < c ==> card_outcome(state, board, k as u8, #[trigger] out@[k]),
            decreases 5 - c,
        {
            let mut t = state;
            let action = Action::BuyDevCard(DevCard::from_u8(c as u8));
            if state.dev_card_deck[c] > 0 {
                if !t.can_apply_action(&board, action) {
                    assert(!card_possible(state, board, c as u8));
                    return None;
                }
                t.apply_action(&board, action, self.game.rng());
            }
            if !(t.is_terminal() || t.can_generate_actions(action)) {
                proof {
                    assert(DevCard::spec_from_u8(c as u8) != DevCard::Unknown);
                    assert forall|u: GameState| !#[trigger] card_outcome(state, board, c as u8, u) by {
                        if card_outcome(state, board, c as u8, u) {
                            assert(u == t);
                        }
                    }
                    assert(!card_possible(state, board, c as u8));
                }
                return None;
            }
            let ghost before = out;
            out[c] = t;
            assert(forall|k: int| 0 <= k < c ==> out@[k] == before@[k]);
            c = c + 1;
        }
        Some(out)
    }

    /// Adds the five children of `parent` for the five cards, with the states `outcomes`,
    /// and makes the first of them `parent`'s first child.
    fn create_card_nodes(&mut self, parent: NodeRef, outcomes: [GameState; 5])
        requires
            old(self).wf(),
            1 <= parent.0 < old(self).arena.view().len(),
            old(self).arena.view().len() + 5 < usize::MAX - 3,
            !old(self).arena.view()[parent.0 as int].rolls_dice(),
            forall|k: int| 0 <= k < 5 ==> #[trigger] outcomes@[k].spec_is_terminal() || outcomes@[k].can_generate(
                Action::BuyDevCard(DevCard::spec_from_u8(k as u8)),
            ),
        ensures
            final(self).wf(),
            final(self).game.spec_board() == old(self).game.spec_board(),
            final(self).game.spec_state() == old(self).game.spec_state(),
            final(self).game.spec_actions() == old(self).game.spec_actions(),
            final(self).board == old(self).board,
            final(self).root == old(self).root,
            final(self).arena.view().len() == old(self).arena.view().len() + 5,
            forall|j: int| 0 <= j < old(self).arena.view().len() && j != parent.0 ==> #[trigger] final(self).arena.view()[j]
                == old(self).arena.view()[j],
            final(self).arena.view()[parent.0 as int] == (Node {
                first_child: NodeRef(old(self).arena.view().len() as usize),
                ..old(self).arena.view()[parent.0 as int]
            }),
            forall|k: int| 0 <= k < 5 ==> card_child(old(self).board, parent, k as u8, outcomes@[k], #[trigger] final(self).arena.view()[old(self).arena.view().len() + k]),
    {
        let ghost o = self.arena.view();
        let board = self.board;
        let mut first_child = NodeRef::invalid();
        let mut c: usize = 0;
        while c < 5
            invariant
                c <= 5,
                self.wf(),
                self.game.spec_board() == old(self).game.spec_board(),
                self.game.spec_state() == old(self).game.spec_state(),
                self.game.spec_actions() == old(self).game.spec_actions(),
                self.board == old(self).board,
                self.root == old(self).root,
                board == self.board,
                o == old(self).arena.view(),
                1 <= parent.0 < o.len(),
                !o[parent.0 as int].rolls_dice(),
                o.len() + 5 < usize::MAX - 3,
                c == 0 ==> first_child == NodeRef::spec_invalid(),
                c > 0 ==> first_child.0 == o.len(),
                forall|j: int| 0 <= j < 5 ==> #[trigger] outcomes@[j].spec_is_terminal() || outcomes@[j].can_generate(
                    Action::BuyDevCard(DevCard::spec_from_u8(j as u8)),
                ),
                self.arena.view().len() == o.len() + c,
                forall|j: int| 0 <= j < o.len() ==> #[trigger] self.arena.view()[j] == o[j],
                forall|j: int| 0 <= j < c ==> card_child(board, parent, j as u8, outcomes@[j], #[trigger] self.arena.view()[o.len() + j]),
            decreases 5 - c,
        {
            let action = Action::BuyDevCard(DevCard::from_u8(c as u8));
            let s = outcomes[c];
            assert(s == outcomes@[c as int]);
            let node = Node::with_parent(s, &board, parent, action);
            let ghost before = self.arena.view();
            let child = self.add_node(node);
            assert(self.arena.view()[o.len() + c] == node);
            assert(forall|j: int| 0 <= j < o.len() + c ==> self.arena.view()[j] == before[j]);
            if !first_child.is_valid() {
                first_child = child;
            }
            c = c + 1;
        }
        let ghost before = self.arena.view();
        proof {
            assert(before[parent.0 as int] == o[parent.0 as int]);
        }
        proof {
            assert(card_child(board, parent, 0u8, outcomes@[0], self.arena.view()[o.len() as int + 0]));
        }
        self.set_first_child(parent, first_child);
    }
}


/// Action `a`, leading to state `t`, gets a plain child node: it neither ends the turn,
/// nor buys an unknown card, nor is the last initial road.
pub open spec fn plain_step(a: Action, t: GameState) -> bool {
    &&& a != Action::EndTurn
    &&& a != Action::BuyDevCard(DevCard::Unknown)
    &&& !(a is InitialRoad && !t.spec_is_initial())
}

/// Node `x` of `nodes` is the child that an expansion of node `node_ref` (in state `s`,
/// in a tree that had `old_len` nodes) made for its action: some applicable action `a`
/// was applied, leading to `t`, and `x` has `node_ref` as parent. Except after ending the
/// turn, `x` is new and is now the first child of `node_ref`. For a plain step, `x` is
/// the node for `t` reached by `a`, with no children yet; after ending the turn, `x` is the dice node (made at
/// the first expansion of `node_ref` or now); after buying an unknown card, the card
/// node for `s`, whose deck is not empty; after the last initial road, the dice node for
/// `t`. A dice or card node has its outcomes laid out.
pub open spec fn expanded_to(s: GameState, board: Board, node_ref: NodeRef, old_len: int, nodes: Seq<Node>, x: NodeRef) -> bool {
    exists|a: Action, det: Action, t: GameState|
        #![trigger s.applied(board, a, det, t)]
        s.can_apply(board, a) && s.determines(a, det) && s.applied(board, a, det, t) && {
            let c = nodes[x.0 as int];
            &&& c.parent == node_ref
            &&& a != Action::EndTurn ==> old_len <= x.0 && nodes[node_ref.0 as int].first_child == x
            &&& plain_step(a, t) ==> c.state == t && c.parent_action == a && !c.first_child.spec_is_valid()
            &&& a == Action::EndTurn ==> c.spec_is_end_turn() && c.first_child.spec_is_valid()
            &&& a == Action::BuyDevCard(DevCard::Unknown) ==> {
                &&& c.parent_action == a
                &&& !c.rolls_dice()
                &&& c.state == s
                &&& 0 < s.deck_total() <= 255
                &&& c.first_child.spec_is_valid()
            }
            &&& (a is InitialRoad && !t.spec_is_initial()) ==> c.spec_is_initial_final() && c.state == t
                && c.first_child.spec_is_valid()
        }
}

/// An expansion by `a`, determined as `det` and leading to `t`, that made child `x` as
/// [`expanded_to`] describes.
proof fn lemma_expanded_to_intro(
    s: GameState,
    board: Board,
    node_ref: NodeRef,
    old_len: int,
    nodes: Seq<Node>,
    x: NodeRef,
    a: Action,
    det: Action,
    t: GameState,
)
    requires
        s.can_apply(board, a),
        s.determines(a, det),
        s.applied(board, a, det, t),
        ({
            let c = nodes[x.0 as int];
            &&& c.parent == node_ref
            &&& a != Action::EndTurn ==> old_len <= x.0 && nodes[node_ref.0 as int].first_child == x
            &&& plain_step(a, t) ==> c.state == t && c.parent_action == a && !c.first_child.spec_is_valid()
            &&& a == Action::EndTurn ==> c.spec_is_end_turn() && c.first_child.spec_is_valid()
            &&& a == Action::BuyDevCard(DevCard::Unknown) ==> {
                &&& c.parent_action == a
                &&& !c.rolls_dice()
                &&& c.state == s
                &&& 0 < s.deck_total() <= 255
                &&& c.first_child.spec_is_valid()
            }
            &&& (a is InitialRoad && !t.spec_is_initial()) ==> c.spec_is_initial_final() && c.state == t
                && c.first_child.spec_is_valid()
        }),
    ensures
        expanded_to(s, board, node_ref, old_len, nodes, x),
{
}

/// Expanding node `node_ref` of `nodes` by action `a` works out whatever `a` determines
/// to: `a` can be applied; after the last initial road, or after the first action of a
/// turn outside forced sequences, every dice total has an outcome; buying an unknown card
/// has an outcome for every card; ending the turn again finds a dice node with its
/// children; and any other action leaves a finished game or one whose next actions can
/// be generated.
pub open spec fn expansion_works(nodes: Seq<Node>, board: Board, node_ref: NodeRef, a: Action) -> bool {
    let n = nodes[node_ref.0 as int];
    let s = n.state;
    &&& s.can_apply(board, a)
    &&& forall|det: Action, t: GameState|
        s.determines(a, det) && #[trigger] s.applied(board, a, det, t) ==> {
            let final_road = a is InitialRoad && !t.spec_is_initial();
            let needs_end = !final_road && !n.first_child.spec_is_valid() && !t.spec_is_initial()
                && spec_forced_continuation(n.parent_action) is None;
            let buying = a == Action::BuyDevCard(DevCard::Unknown);
            let end_turn = a == Action::EndTurn;
            &&& (final_road || needs_end) ==> forall|k: int| 0 <= k < 11 ==> #[trigger] roll_possible(t, board, (k + 2) as u8)
            &&& buying ==> forall|k: int| 0 <= k < 5 ==> #[trigger] card_possible(s, board, k as u8)
            &&& (end_turn && !needs_end) ==> (first_end_turn(nodes, sibling_chain(nodes, n.first_child)) matches Some(e)
                && nodes[e.0 as int].first_child.spec_is_valid())
            &&& (!end_turn && !buying && !final_road) ==> (t.spec_is_terminal() || t.can_generate(a))
        }
}

/// Expanding node `node_ref` of `nodes` succeeds whichever untried action is drawn: the
/// node is not a chance node, an action can be drawn from it, and every action that can
/// be drawn expands.
pub open spec fn expansion_owed(nodes: Seq<Node>, board: Board, node_ref: NodeRef) -> bool {
    let n = nodes[node_ref.0 as int];
    &&& !n.spec_is_chance_node()
    &&& n.can_select()
    &&& forall|a: Action| #[trigger] n.can_draw(a) ==> expansion_works(nodes, board, node_ref, a)
}

/// The first node that ends the turn among the nodes `chain`, if any.
pub open spec fn first_end_turn(nodes: Seq<Node>, chain: Seq<int>) -> Option<NodeRef>
    decreases chain.len(),
{
    if chain.len() == 0 {
        None
    } else if nodes[chain[0]].spec_is_end_turn() {
        Some(NodeRef(chain[0] as usize))
    } else {
        first_end_turn(nodes, chain.subrange(1, chain.len() as int))
    }
}

/// `after` is `before` with one flag taken out, or both are empty.
pub open spec fn one_flag_taken(before: u128, after: u128) -> bool {
    ||| before == 0 && after == 0
    ||| exists|bit: u8| bit < 128 && #[trigger] has_bit128(before, bit as usize) && after == before ^ (1u128 << bit)
}

impl Mcts {
    /// The first node reached by ending the turn among the children from `first` on.
    fn find_end_turn(&self, first: NodeRef) -> (r: Option<NodeRef>)
        requires
            self.wf(),
            first.spec_is_valid() ==> 1 <= first.0 < self.arena.view().len(),
        ensures
            r == first_end_turn(self.arena.view(), sibling_chain(self.arena.view(), first)),
            r matches Some(x) ==> 1 <= x.0 < self.arena.view().len() && self.arena.view()[x.0 as int].spec_is_end_turn()
                && self.arena.view()[x.0 as int].parent == self.arena.view()[first.0 as int].parent,
    {
        let ghost nodes = self.arena.view();
        let ghost c = sibling_chain(nodes, first);
        let ghost mut k: int = 0;
        let mut cur = first;
        proof {
            if cur.spec_is_valid() {
                lemma_chain_step(nodes, cur);
            }
            assert(c.subrange(0, c.len() as int) =~= c);
        }
        while cur.is_valid()
            invariant
                self.wf(),
                nodes == self.arena.view(),
                c == sibling_chain(nodes, first),
                0 <= k <= c.len(),
                first.spec_is_valid() ==> 1 <= first.0 < self.arena.view().len(),
                cur.spec_is_valid() ==> 1 <= cur.0 < self.arena.view().len()
                    && self.arena.view()[cur.0 as int].parent == self.arena.view()[first.0 as int].parent,
                sibling_chain(nodes, cur) == c.subrange(k, c.len() as int),
                !cur.spec_is_valid() ==> k == c.len(),
                first_end_turn(nodes, c) == first_end_turn(nodes, c.subrange(k, c.len() as int)),
            decreases if cur.spec_is_valid() {
                cur.0 as int + 1
            } else {
                0
            },
        {
            proof {
                lemma_chain_step(nodes, cur);
            }
            let n = self.arena.get(cur);
            let ghost rest = c.subrange(k, c.len() as int);
            if n.is_end_turn() {
                assert(rest[0] == cur.0);
                return Some(cur);
            }
            proof {
                assert(node_links_ok(self.arena.view(), cur.0 as int));
                let next = n.next_sibling;
                if next.spec_is_valid() {
                    lemma_chain_step(nodes, next);
                    assert(c.subrange(k + 1, c.len() as int) =~= rest.subrange(1, rest.len() as int));
                    assert(first_end_turn(nodes, rest) == first_end_turn(nodes, rest.subrange(1, rest.len() as int)));
                } else {
                    assert(rest.len() == 1);
                    assert(rest.subrange(1, rest.len() as int) =~= Seq::<int>::empty());
                    assert(first_end_turn(nodes, rest) == first_end_turn(nodes, rest.subrange(1, rest.len() as int)));
                    assert(c.subrange(k + 1, c.len() as int) =~= Seq::<int>::empty());
                }
                k = k + 1;
            }
            cur = n.next_sibling;
        }
        proof {
            assert(c.subrange(k, c.len() as int) =~= Seq::<int>::empty());
        }
        None
    }

    /// Replaces node `p` by `n`, which differs from it only in its untried actions and
    /// first child.
    fn replace_node(&mut self, p: NodeRef, n: Node)
        requires
            old(self).wf(),
            p.0 < old(self).arena.view().len(),
            n == (Node { available_actions: n.available_actions, first_child: n.first_child, ..old(self).arena.view()[p.0 as int] }),
            n.first_child.spec_is_valid() ==> 1 <= n.first_child.0 < old(self).arena.view().len()
                && old(self).arena.view()[n.first_child.0 as int].parent == p,
            !n.spec_is_chance_node(),
        ensures
            final(self).wf(),
            final(self).game == old(self).game,
            final(self).board == old(self).board,
            final(self).root == old(self).root,
            final(self).arena.view() == old(self).arena.view().update(p.0 as int, n),
    {
        let ghost o = self.arena.view();
        self.arena.set(p, n);
        proof {
            let v = self.arena.view();
            assert forall|i: int| 0 <= i < v.len() implies #[trigger] node_links_ok(v, i) by {
                assert(node_links_ok(o, i));
                let m = o[i];
                assert(m == o[i]);
                assert forall|j: int| 0 <= j < v.len() implies #[trigger] v[j].parent == o[j].parent by {}
                if m.next_sibling.spec_is_valid() && i != 0 {
                    assert(v[m.next_sibling.0 as int].parent == o[m.next_sibling.0 as int].parent);
                }
                if v[i].first_child.spec_is_valid() {
                    assert(v[v[i].first_child.0 as int].parent == o[v[i].first_child.0 as int].parent);
                }
            }
        }
    }

    /// Expands leaf `node_ref`: an untried action is taken from it and applied, the child
    /// for it is added (with the dice-roll children after the last initial road or the
    /// first end of turn from the node, and the card children after buying an unknown
    /// card), and that child is returned (see [`expanded_to`]). Ending the turn makes no
    /// child of its own: it returns the node's end-of-turn node, which the first expansion
    /// of the node made. Returns `None`, with the tree unchanged, when the node is a chance
    /// node, has nothing to try, or a state on the way breaks the requirements of the
    /// rules; where every action that can be drawn expands (see [`expansion_owed`]) it
    /// returns the child.
    #[verifier::rlimit(40)]
    pub fn expand(&mut self, node_ref: NodeRef) -> (r: Option<NodeRef>)
        requires
            old(self).wf(),
            node_ref.0 < old(self).arena.view().len(),
            old(self).arena.view().len() + 20 < usize::MAX - 3,
        ensures
            final(self).wf(),
            final(self).board == old(self).board,
            final(self).root == old(self).root,
            final(self).game.spec_board() == old(self).game.spec_board(),
            final(self).game.spec_state() == old(self).game.spec_state(),
            final(self).game.spec_actions() == old(self).game.spec_actions(),
            old(self).arena.view().len() <= final(self).arena.view().len() <= old(self).arena.view().len() + 18,
            forall|j: int| 0 <= j < old(self).arena.view().len() && j != node_ref.0 ==> #[trigger] final(self).arena.view()[j]
                == old(self).arena.view()[j],
            r is None ==> final(self).arena.view() == old(self).arena.view(),
            expansion_owed(old(self).arena.view(), old(self).board, node_ref) ==> r is Some,
            r matches Some(x) ==> {
                let before = old(self).arena.view()[node_ref.0 as int];
                let after = final(self).arena.view()[node_ref.0 as int];
                &&& x.0 < final(self).arena.view().len()
                &&& after == (Node { available_actions: after.available_actions, first_child: after.first_child, ..before })
                &&& one_flag_taken(before.available_actions.flags(), after.available_actions.flags())
                &&& expanded_to(before.state, old(self).board, node_ref, old(self).arena.view().len() as int, final(self).arena.view(), x)
            },
    {
        let board = self.board;
        let ghost o = self.arena.view();
        let mut node = self.arena.get(node_ref);
        if node.is_chance_node() || !node.selectable() {
            return None;
        }
        proof {
            let m = o[node_ref.0 as int];
            assert(m == node);
            assert(node_links_ok(o, node_ref.0 as int));
        }
        let ghost before = node;
        let action = node.select_untried_action(self.game.rng());
        proof {
            assert(one_flag_taken(before.available_actions.flags(), node.available_actions.flags())) by {
                let f = before.available_actions.flags();
                if !(f == 0 && node.available_actions.flags() == 0) {
                    if before.state.spec_is_initial() {
                        if before.state.spec_is_initial_settle() {
                            let bit = choose|bit: u8| #![trigger has_bit128(f, bit as usize)] bit < 128 && has_bit128(f, bit as usize)
                                && node.available_actions.flags() == f ^ (1u128 << bit) && action == (|b: u8| Action::InitialSettle(b))(bit);
                            assert(has_bit128(f, bit as usize));
                        } else {
                            let bit = choose|bit: u8| #![trigger has_bit128(f, bit as usize)] bit < 128 && has_bit128(f, bit as usize)
                                && node.available_actions.flags() == f ^ (1u128 << bit) && action == (|b: u8| Action::InitialRoad(b))(bit);
                            assert(has_bit128(f, bit as usize));
                        }
                    }
                }
            }
        }
        let mut new_state = node.state;
        let ghost start_state = node.state;
        if !new_state.can_apply_action(&board, action) {
            return None;
        }
        let determined = new_state.apply_action(&board, action, self.game.rng());
        let final_initial_road = match action {
            Action::InitialRoad(_) => !new_state.is_initial(),
            _ => false,
        };
        let needs_end = !final_initial_road && !node.first_child.is_valid() && !new_state.is_initial()
            && !node.parent_action.has_forced_continuation();
        let buying = action == Action::BuyDevCard(DevCard::Unknown);
        let end_turn = action == Action::EndTurn;
        let rolls = if final_initial_road || needs_end {
            match self.roll_outcomes(new_state) {
                Some(a) => a,
                None => {
                    return None;
                },
            }
        } else {
            [new_state; 11]
        };
        let cards = if buying {
            match self.card_outcomes(node.state) {
                Some(a) => a,
                None => {
                    return None;
                },
            }
        } else {
            [node.state; 5]
        };
        let existing_end = if end_turn && !needs_end {
            match self.find_end_turn(node.first_child) {
                Some(e) => {
                    if !self.arena.get(e).first_child.is_valid() {
                        return None;
                    }
                    e
                },
                None => {
                    return None;
                },
            }
        } else {
            NodeRef::invalid()
        };
        let plain = !end_turn && !buying && !final_initial_road;
        if plain && !(new_state.is_terminal() || new_state.can_generate_actions(action)) {
            return None;
        }
        assert(self.arena.view() == o);
        proof {
            assert(node_links_ok(o, node_ref.0 as int));
            assert(node.first_child.spec_is_valid() ==> 1 <= node.first_child.0 < self.arena.view().len()
                && self.arena.view()[node.first_child.0 as int].parent == node_ref);
        }
        let mut chance_node = NodeRef::invalid();
        let ghost mut made_end = NodeRef::spec_invalid();
        if final_initial_road {
            chance_node = self.add_node(
                Node::initial_final(new_state, node_ref, action).with_sibling(node.first_child),
            );
            self.create_roll_nodes(chance_node, rolls);
            node.first_child = chance_node;
        }
        proof {
            assert(node.first_child.spec_is_valid() ==> 1 <= node.first_child.0 < self.arena.view().len()
                && self.arena.view()[node.first_child.0 as int].parent == node_ref);
        }
        if needs_end {
            let end_node = self.add_node(Node::end_turn(new_state, node_ref));
            self.create_roll_nodes(end_node, rolls);
            node.first_child = end_node;
            proof {
                made_end = end_node;
            }
        }
        proof {
            assert(node.first_child.spec_is_valid() ==> 1 <= node.first_child.0 < self.arena.view().len()
                && self.arena.view()[node.first_child.0 as int].parent == node_ref);
        }
        if buying {
            chance_node = self.add_node(
                Node::buy_dev_card(node.state, node_ref).with_sibling(node.first_child),
            );
            self.create_card_nodes(chance_node, cards);
            node.first_child = chance_node;
        }
        proof {
            assert(node.first_child.spec_is_valid() ==> 1 <= node.first_child.0 < self.arena.view().len()
                && self.arena.view()[node.first_child.0 as int].parent == node_ref);
        }
        let new_node = if end_turn {
            if needs_end {
                node.first_child
            } else {
                existing_end
            }
        } else if buying || final_initial_road {
            chance_node
        } else {
            let n = self.add_node(
                Node::with_parent(new_state, &board, node_ref, action).with_sibling(node.first_child),
            );
            node.first_child = n;
            n
        };
        let ghost grown = self.arena.view();
        self.replace_node(node_ref, node);
        proof {
            let v = self.arena.view();
            assert(start_state.applied(board, action, determined, new_state));
            if end_turn || buying || final_initial_road {
                let c = if end_turn {
                    if needs_end {
                        made_end
                    } else {
                        existing_end
                    }
                } else {
                    chance_node
                };
                assert(c == new_node);
                assert(node_links_ok(grown, c.0 as int));
                assert(c.0 != node_ref.0);
                assert(v[c.0 as int] == grown[c.0 as int]);
                assert(v[c.0 as int].spec_is_chance_node());
                assert(v[c.0 as int].first_child.spec_is_valid());
                assert(v[c.0 as int].parent == node_ref);
                if !end_turn {
                    assert(c.0 >= o.len());
                    assert(v[node_ref.0 as int].first_child == c);
                }
                if end_turn {
                    assert(v[c.0 as int].spec_is_end_turn());
                }
                if buying {
                    assert(v[c.0 as int].parent_action == action);
                    assert(v[c.0 as int].state == start_state);
                    assert(!v[c.0 as int].rolls_dice());
                    assert(start_state.can_apply(board, action));
                    assert(0 < start_state.deck_total() <= 255);
                }
                if final_initial_road {
                    assert(v[c.0 as int].spec_is_initial_final());
                    assert(v[c.0 as int].state == new_state);
                }
                assert(!plain_step(action, new_state));
                assert(start_state.determines(action, determined));
                let cn = v[new_node.0 as int];
                assert(cn.parent == node_ref);
                assert(action != Action::EndTurn ==> o.len() <= new_node.0 && v[node_ref.0 as int].first_child == new_node);
                assert(action == Action::EndTurn ==> cn.spec_is_end_turn() && cn.first_child.spec_is_valid());
                assert(action == Action::BuyDevCard(DevCard::Unknown) ==> {
                    &&& cn.parent_action == action
                    &&& !cn.rolls_dice()
                    &&& cn.state == start_state
                    &&& 0 < start_state.deck_total() <= 255
                    &&& cn.first_child.spec_is_valid()
                });
                assert((action is InitialRoad && !new_state.spec_is_initial()) ==> cn.spec_is_initial_final() && cn.state == new_state
                    && cn.first_child.spec_is_valid());
                lemma_expanded_to_intro(start_state, board, node_ref, o.len() as int, v, new_node, action, determined, new_state);
                assert(expanded_to(start_state, board, node_ref, o.len() as int, v, new_node));
            } else {
                assert(plain_step(action, new_state));
                assert(v[new_node.0 as int] == grown[new_node.0 as int]);
                assert(v[node_ref.0 as int].first_child == new_node);
                assert(new_node.0 >= o.len());
                let cn = v[new_node.0 as int];
                assert(cn.parent == node_ref && cn.state == new_state && cn.parent_action == action);
                assert(!cn.first_child.spec_is_valid());
                lemma_expanded_to_intro(start_state, board, node_ref, o.len() as int, v, new_node, action, determined, new_state);
            }
        }
        Some(new_node)
    }
}

/// Node `r` is where a playout goes on from node `x` of `nodes`: below a chance node
/// whose outcomes are laid out, one of them (a dice total from 2 to 12, counted from its
/// first child, or a card kind still in the deck); below any other node, `x` itself.
pub open spec fn outcome_step(nodes: Seq<Node>, x: NodeRef, r: NodeRef) -> bool {
    let c = nodes[x.0 as int];
    let first = c.first_child.0;
    if c.spec_is_chance_node() && c.first_child.spec_is_valid() {
        if c.rolls_dice() {
            first <= r.0 <= first + 10
        } else {
            &&& first <= r.0 < first + 5
            &&& c.state.dev_card_deck@[r.0 - first] > 0
        }
    } else {
        r == x
    }
}

/// The child that an expansion made asks no more of the deck than a draw needs: if it
/// is a card node with its outcomes, its deck is not empty.
proof fn lemma_expanded_deck(s: GameState, board: Board, node_ref: NodeRef, old_len: int, nodes: Seq<Node>, x: NodeRef)
    requires
        expanded_to(s, board, node_ref, old_len, nodes, x),
    ensures
        ({
            let c = nodes[x.0 as int];
            c.parent_action == Action::BuyDevCard(DevCard::Unknown) && !c.rolls_dice() && c.first_child.spec_is_valid()
                ==> 0 < c.state.deck_total() <= 255
        }),
{
    let (a, det, t) = choose|a: Action, det: Action, t: GameState|
        #![trigger s.applied(board, a, det, t)]
        s.can_apply(board, a) && s.determines(a, det) && s.applied(board, a, det, t) && {
            let c = nodes[x.0 as int];
            &&& c.parent == node_ref
            &&& a != Action::EndTurn ==> old_len <= x.0 && nodes[node_ref.0 as int].first_child == x
            &&& plain_step(a, t) ==> c.state == t && c.parent_action == a && !c.first_child.spec_is_valid()
            &&& a == Action::EndTurn ==> c.spec_is_end_turn() && c.first_child.spec_is_valid()
            &&& a == Action::BuyDevCard(DevCard::Unknown) ==> {
                &&& c.parent_action == a
                &&& !c.rolls_dice()
                &&& c.state == s
                &&& 0 < s.deck_total() <= 255
                &&& c.first_child.spec_is_valid()
            }
            &&& (a is InitialRoad && !t.spec_is_initial()) ==> c.spec_is_initial_final() && c.state == t
                && c.first_child.spec_is_valid()
        };
}

impl Mcts {
    /// Goes on from node `x`: below a chance node whose outcomes are laid out, an outcome
    /// is drawn (two dice, or a card weighted by the deck); any other node is kept. The
    /// tree is left as it is.
    pub fn enter_outcome(&mut self, x: NodeRef) -> (r: NodeRef)
        requires
            old(self).wf(),
            x.0 < old(self).arena.view().len(),
            ({
                let c = old(self).arena.view()[x.0 as int];
                c.parent_action == Action::BuyDevCard(DevCard::Unknown) && !c.rolls_dice() && c.first_child.spec_is_valid()
                    ==> 0 < c.state.deck_total() <= 255
            }),
        ensures
            final(self).wf(),
            final(self).arena == old(self).arena,
            final(self).board == old(self).board,
            final(self).root == old(self).root,
            final(self).game.spec_board() == old(self).game.spec_board(),
            final(self).game.spec_state() == old(self).game.spec_state(),
            final(self).game.spec_actions() == old(self).game.spec_actions(),
            r.0 < old(self).arena.view().len(),
            outcome_step(old(self).arena.view(), x, r),
    {
        let c = self.arena.get(x);
        if c.is_chance_node() && c.first_child.is_valid() {
            let len = self.arena.len();
            proof {
                assert(node_links_ok(self.arena.view(), x.0 as int));
                assert(c.rolls_dice() ==> c.first_child.0 + 10 < len);
            }
            c.choose_child(self.game.rng())
        } else {
            x
        }
    }
}

/// A playout from `leaf` of `o` goes on from node `new` of `grown`: a leaf whose game is
/// over is kept; any other leaf was expanded (see [`expanded_to`]) and `new` is the child
/// made, or an outcome drawn below it (see [`outcome_step`]).
pub open spec fn playout_start(o: Seq<Node>, board: Board, leaf: NodeRef, grown: Seq<Node>, new: NodeRef) -> bool {
    &&& new.0 < grown.len()
    &&& grown.len() >= o.len()
    &&& o[leaf.0 as int].state.spec_is_terminal() ==> new == leaf && grown == o
    &&& !o[leaf.0 as int].state.spec_is_terminal() ==> exists|x: NodeRef|
        #[trigger] expanded_to(o[leaf.0 as int].state, board, leaf, o.len() as int, grown, x) && outcome_step(grown, x, new)
}

/// Why a playout from `leaf` of `o` may stop with the tree as `f` and no count changed:
/// the tree is too large to grow; or the leaf's game is not over and its expansion is
/// not owed (see [`expansion_owed`]); or, from the node that the playout went on from,
/// the random play got stuck (see [`crate::game_data::play_stuck`]), or it ended with a
/// winner for whom a count on the path to the root is full.
pub open spec fn playout_stopped(o: Seq<Node>, board: Board, leaf: NodeRef, f: Seq<Node>) -> bool {
    ||| o.len() >= usize::MAX - 24 && f == o
    ||| !o[leaf.0 as int].state.spec_is_terminal() && !expansion_owed(o, board, leaf) && f == o
    ||| exists|new: NodeRef| #[trigger] playout_start(o, board, leaf, f, new) && {
        let n = f[new.0 as int];
        ||| crate::game_data::play_stuck(board, n.state, n.parent_action)
        ||| exists|w: crate::types::Player, t: GameState|
            #![trigger crate::game_data::won_by(t, w)]
            crate::game_data::simulated_to(board, n.state, n.parent_action, t) && t.spec_is_terminal()
                && crate::game_data::won_by(t, w) && exists|i: int|
                0 <= i < f.len() && #[trigger] on_path(f, new, i) && !has_room(f[i], w.spec_index() as int)
    }
}

/// Every node of the search tree has been visited once for every win it counts.
pub proof fn lemma_visits_count_wins(m: Mcts, i: int)
    requires
        m.wf(),
        0 <= i < m.arena.view().len(),
    ensures
        m.arena.view()[i].visits == m.arena.view()[i].wins@[0] + m.arena.view()[i].wins@[1] + m.arena.view()[i].wins@[2]
            + m.arena.view()[i].wins@[3],
{
    assert(node_links_ok(m.arena.view(), i));
}

/// Every node of a well-formed tree lies below the root: the path up from it reaches
/// node 0.
pub proof fn lemma_reaches_root(nodes: Seq<Node>, r: NodeRef)
    requires
        tree_wf(nodes),
        r.spec_is_valid(),
        r.0 < nodes.len(),
    ensures
        on_path(nodes, r, 0),
    decreases r.0,
{
    if r.0 != 0 {
        assert(node_links_ok(nodes, r.0 as int));
        lemma_reaches_root(nodes, nodes[r.0 as int].parent);
    }
}

/// Node `n` can count one more visit and one more win for seat `winner`.
pub open spec fn has_room(n: Node, winner: int) -> bool {
    n.visits < u32::MAX && n.wins@[winner] < u32::MAX
}

impl Mcts {
    /// Whether every node from `from` up to the root can count one more visit and one more
    /// win for seat `winner`.
    pub fn path_has_room(&self, from: NodeRef, winner: usize) -> (b: bool)
        requires
            self.wf(),
            winner < 4,
            from.spec_is_valid() ==> from.0 < self.arena.view().len(),
        ensures
            b == forall|i: int|
                0 <= i < self.arena.view().len() && on_path(self.arena.view(), from, i) ==> has_room(
                    #[trigger] self.arena.view()[i],
                    winner as int,
                ),
    {
        let ghost o = self.arena.view();
        let mut node_ref = from;
        while node_ref.is_valid()
            invariant
                self.wf(),
                o == self.arena.view(),
                winner < 4,
                node_ref.spec_is_valid() ==> node_ref.0 < o.len(),
                forall|i: int| 0 <= i < o.len() && #[trigger] on_path(o, node_ref, i) ==> on_path(o, from, i),
                forall|i: int|
                    0 <= i < o.len() && on_path(o, from, i) && !on_path(o, node_ref, i) ==> has_room(
                        #[trigger] o[i],
                        winner as int,
                    ),
            decreases if node_ref.spec_is_valid() {
                node_ref.0 as int + 1
            } else {
                0
            },
        {
            let cur = node_ref;
            let node = self.arena.get(cur);
            proof {
                assert(on_path(o, cur, cur.0 as int));
                assert(node_links_ok(o, cur.0 as int));
            }
            if node.visits == u32::MAX || node.wins[winner] == u32::MAX {
                assert(!has_room(o[cur.0 as int], winner as int));
                return false;
            }
            let parent = node.parent;
            node_ref = parent;
            proof {
                assert forall|i: int| 0 <= i < o.len() implies #[trigger] on_path(o, cur, i) == (i == cur.0 || on_path(o, parent, i)) by {
                    if on_path(o, parent, i) {
                        lemma_path_below(o, parent, i);
                    }
                }
                assert forall|i: int| 0 <= i < o.len() && #[trigger] on_path(o, parent, i) implies on_path(o, from, i) by {
                    lemma_path_below(o, parent, i);
                    assert(on_path(o, cur, i));
                }
            }
        }
        true
    }

    /// Completes a playout from `leaf`, the node that selection reached: a leaf whose game
    /// is not over is expanded and play goes on from the child made, or from an outcome
    /// drawn below it when it is a chance node; play goes on at random until somebody
    /// wins, and the result is counted on the path back to the root. Returns the winner,
    /// or `None`, with no count changed, only for a reason that [`playout_stopped`] names.
    /// A finished playout counts one more visit, and one more win for the winner, at the
    /// root, since every node lies below it. A leaf whose game is over after the placement
    /// phase, with room on its path for the winner's counts, always gives its winner.
    pub fn finish_playout(&mut self, leaf: NodeRef) -> (r: Option<crate::types::Player>)
        requires
            old(self).wf(),
            leaf.0 < old(self).arena.view().len(),
        ensures
            final(self).wf(),
            final(self).board == old(self).board,
            final(self).root == old(self).root,
            final(self).game.spec_board() == old(self).game.spec_board(),
            final(self).game.spec_state() == old(self).game.spec_state(),
            final(self).game.spec_actions() == old(self).game.spec_actions(),
            r matches Some(w) ==> exists|new: NodeRef, grown: Seq<Node>, t: GameState|
                #![trigger crate::game_data::simulated_to(old(self).board, grown[new.0 as int].state, grown[new.0 as int].parent_action, t)]
                {
                    let o = old(self).arena.view();
                    let f = final(self).arena.view();
                    &&& playout_start(o, old(self).board, leaf, grown, new)
                    &&& crate::game_data::simulated_to(
                        old(self).board,
                        grown[new.0 as int].state,
                        grown[new.0 as int].parent_action,
                        t,
                    )
                    &&& t.spec_is_terminal()
                    &&& crate::game_data::won_by(t, w)
                    &&& f.len() == grown.len()
                    &&& forall|i: int|
                        0 <= i < grown.len() ==> #[trigger] f[i] == if on_path(grown, new, i) {
                            visited(grown[i], w.spec_index() as int)
                        } else {
                            grown[i]
                        }
                },
            ({
                let o = old(self).arena.view();
                let s = o[leaf.0 as int].state;
                &&& o.len() < usize::MAX - 24
                &&& !s.spec_is_initial()
                &&& s.spec_is_terminal()
                &&& forall|p: crate::types::Player, i: int|
                    #![trigger crate::game_data::won_by(s, p), o[i]]
                    crate::game_data::won_by(s, p) && 0 <= i < o.len() && on_path(o, leaf, i) ==> has_room(
                        o[i],
                        p.spec_index() as int,
                    )
            }) ==> r is Some,
            r matches Some(w) ==> {
                let o = old(self).arena.view();
                let f = final(self).arena.view();
                &&& f[0].visits == o[0].visits + 1
                &&& f[0].wins == wins_add(o[0].wins, w.spec_index() as int)
            },
            r is None ==> {
                let o = old(self).arena.view();
                let f = final(self).arena.view();
                &&& f.len() >= o.len()
                &&& forall|i: int| 0 <= i < o.len() ==> #[trigger] f[i].visits == o[i].visits && f[i].wins == o[i].wins
                &&& playout_stopped(o, old(self).board, leaf, f)
            },
    {
        let ghost o = self.arena.view();
        let ghost board = self.board;
        let node = self.arena.get(leaf);
        if self.arena.len() >= usize::MAX - 24 {
            return None;
        }
        let new = if !node.state.is_terminal() {
            let child = match self.expand(leaf) {
                Some(n) => n,
                None => {
                    return None;
                },
            };
            proof {
                lemma_expanded_deck(node.state, board, leaf, o.len() as int, self.arena.view(), child);
            }
            let ghost g = self.arena.view();
            let next = self.enter_outcome(child);
            proof {
                assert(expanded_to(o[leaf.0 as int].state, board, leaf, o.len() as int, g, child));
                assert(playout_start(o, board, leaf, self.arena.view(), next));
            }
            next
        } else {
            proof {
                assert(playout_start(o, board, leaf, self.arena.view(), leaf));
            }
            leaf
        };
        let ghost grown = self.arena.view();
        assert(playout_start(o, board, leaf, grown, new));
        let reached = self.arena.get(new);
        let winner = match self.game.simulate(reached.state, reached.parent_action) {
            Some(w) => w,
            None => {
                return None;
            },
        };
        let k = winner.index();
        proof {
            let s = o[leaf.0 as int].state;
            if o.len() < usize::MAX - 24 && !s.spec_is_initial() && s.spec_is_terminal() && forall|p: crate::types::Player, i: int|
                #![trigger crate::game_data::won_by(s, p), o[i]]
                crate::game_data::won_by(s, p) && 0 <= i < o.len() && on_path(o, leaf, i) ==> has_room(
                    o[i],
                    p.spec_index() as int,
                ) {
                assert(node == o[leaf.0 as int]);
                assert(new == leaf && grown == o && reached == node);
                assert(crate::game_data::won_by(node.state, winner));
                assert forall|i: int| 0 <= i < grown.len() && on_path(grown, new, i) implies has_room(
                    #[trigger] grown[i],
                    k as int,
                ) by {
                    assert(o[i] == grown[i]);
                }
            }
        }
        if !self.path_has_room(new, k) {
            proof {
                let t = choose|t: GameState|
                    crate::game_data::simulated_to(board, reached.state, reached.parent_action, t) && t.spec_is_terminal()
                        && #[trigger] crate::game_data::won_by(t, winner);
                let i = choose|i: int| 0 <= i < grown.len() && #[trigger] on_path(grown, new, i) && !has_room(grown[i], k as int);
                assert(on_path(grown, new, i));
                assert(crate::game_data::won_by(t, winner));
            }
            return None;
        }
        proof {
            lemma_reaches_root(grown, new);
        }
        self.backpropagate(new, k);
        proof {
            let t = choose|t: GameState|
                crate::game_data::simulated_to(board, reached.state, reached.parent_action, t) && t.spec_is_terminal()
                    && #[trigger] crate::game_data::won_by(t, winner);
            assert(crate::game_data::simulated_to(board, grown[new.0 as int].state, grown[new.0 as int].parent_action, t));
        }
        Some(winner)
    }
}

/// The win-rate key by which the moves are listed: the wins of seat `player` per thousand
/// visits, with no visits counted as one.
pub open spec fn rate_key(n: Node, player: int) -> int {
    (n.wins@[player] * 1000) / (if n.visits == 0 {
        1
    } else {
        n.visits as int
    })
}

/// Child `a` is listed before child `b`: a higher win-rate key, or the same key and an
/// older node.
pub open spec fn listed_before(nodes: Seq<Node>, a: NodeRef, b: NodeRef, player: int) -> bool {
    let ka = rate_key(nodes[a.0 as int], player);
    let kb = rate_key(nodes[b.0 as int], player);
    ka > kb || (ka == kb && a.0 < b.0)
}

/// The children of a node, from `r` along the sibling links, as references.
pub open spec fn sibling_refs(nodes: Seq<Node>, r: NodeRef) -> Seq<NodeRef> {
    sibling_chain(nodes, r).map_values(|i: int| NodeRef(i as usize))
}

impl Mcts {
    /// The win-rate key of `n` for seat `player`.
    fn key_of(n: &Node, player: usize) -> (k: u64)
        requires
            player < 4,
        ensures
            k == rate_key(*n, player as int),
    {
        let v: u64 = if n.visits == 0 {
            1
        } else {
            n.visits as u64
        };
        (n.wins[player] as u64 * 1000) / v
    }

    /// Whether child `a` is listed before child `b`, whose win-rate key is `kb`.
    fn listed_ahead(&self, a: NodeRef, b: NodeRef, kb: u64, player: usize) -> (r: bool)
        requires
            player < 4,
            a.0 < self.arena.view().len(),
            b.0 < self.arena.view().len(),
            kb == rate_key(self.arena.view()[b.0 as int], player as int),
        ensures
            r == listed_before(self.arena.view(), a, b, player as int),
    {
        let other = self.arena.get(a);
        let ka = Self::key_of(&other, player);
        ka > kb || (ka == kb && a.0 < b.0)
    }

    /// The moves from the root as they are listed: the root's children ordered by the win
    /// rate of seat `player`, highest first, and among equal rates the older node first.
    pub fn ranked_moves(&self, player: usize) -> (r: Vec<NodeRef>)
        requires
            self.wf(),
            player < 4,
        ensures
            ({
                let nodes = self.arena.view();
                let refs = sibling_refs(nodes, nodes[self.root.0 as int].first_child);
                &&& r@.to_multiset() == refs.to_multiset()
                &&& forall|i: int| 0 <= i < r@.len() ==> #[trigger] r@[i].0 < nodes.len()
                &&& forall|i: int, j: int|
                    0 <= i < j < r@.len() ==> listed_before(nodes, #[trigger] r@[i], #[trigger] r@[j], player as int)
            }),
    {
        let ghost nodes = self.arena.view();
        let first = self.arena.get(self.root).first_child;
        let ghost c = sibling_chain(nodes, first);
        let ghost refs = sibling_refs(nodes, first);
        proof {
            assert(node_links_ok(nodes, self.root.0 as int));
        }
        let mut v: Vec<NodeRef> = Vec::new();
        let mut cur = first;
        let ghost mut k: int = 0;
        proof {
            if cur.spec_is_valid() {
                lemma_chain_step(nodes, cur);
            }
            assert(refs.subrange(0, 0) =~= Seq::<NodeRef>::empty());
            assert(c.subrange(k, c.len() as int) =~= c);
        }
        while cur.is_valid()
            invariant
                nodes == self.arena.view(),
                tree_wf(nodes),
                player < 4,
                c == sibling_chain(nodes, first),
                refs == sibling_refs(nodes, first),
                0 <= k <= c.len(),
                cur.spec_is_valid() ==> 1 <= cur.0 < nodes.len(),
                sibling_chain(nodes, cur) == c.subrange(k, c.len() as int),
                !cur.spec_is_valid() ==> k == c.len(),
                v@.to_multiset() == refs.subrange(0, k).to_multiset(),
                forall|i: int| 0 <= i < v@.len() ==> #[trigger] v@[i].0 < nodes.len(),
                cur.spec_is_valid() ==> forall|i: int| 0 <= i < v@.len() ==> #[trigger] v@[i].0 > cur.0,
                forall|i: int, j: int|
                    0 <= i < j < v@.len() ==> listed_before(nodes, #[trigger] v@[i], #[trigger] v@[j], player as int),
            decreases if cur.spec_is_valid() {
                cur.0 as int + 1
            } else {
                0
            },
        {
            proof {
                lemma_chain_step(nodes, cur);
                assert(c[k] == cur.0);
            }
            let node = self.arena.get(cur);
            let key = Self::key_of(&node, player);
            let mut p: usize = 0;
            while p < v.len() && self.listed_ahead(v[p], cur, key, player)
                invariant
                    nodes == self.arena.view(),
                    player < 4,
                    p <= v@.len(),
                    1 <= cur.0 < nodes.len(),
                    key == rate_key(nodes[cur.0 as int], player as int),
                    forall|i: int| 0 <= i < v@.len() ==> #[trigger] v@[i].0 < nodes.len(),
                    forall|i: int| 0 <= i < p ==> listed_before(nodes, #[trigger] v@[i], cur, player as int),
                decreases v@.len() - p,
            {
                p = p + 1;
            }
            proof {
                if p < v@.len() {
                    assert(v@[p as int].0 > cur.0);
                    assert(listed_before(nodes, cur, v@[p as int], player as int));
                    assert forall|j: int| p <= j < v@.len() implies listed_before(nodes, cur, #[trigger] v@[j], player as int) by {
                        if j > p {
                            assert(listed_before(nodes, v@[p as int], v@[j], player as int));
                        }
                    }
                }
            }
            let ghost before = v@;
            v.insert(p, cur);
            proof {
                before.insert_ensures(p as int, cur);
                assert(refs[k] == cur);
                assert(refs.subrange(0, k + 1) =~= refs.subrange(0, k).push(cur));
                vstd::seq_lib::to_multiset_insert(before, p as int, cur);
                vstd::seq_lib::to_multiset_build(refs.subrange(0, k), cur);
                assert(v@.to_multiset() == refs.subrange(0, k + 1).to_multiset());
                assert forall|i: int, j: int| 0 <= i < j < v@.len() implies listed_before(
                    nodes,
                    #[trigger] v@[i],
                    #[trigger] v@[j],
                    player as int,
                ) by {
                    if i < p && j < p {
                        assert(v@[i] == before[i] && v@[j] == before[j]);
                    } else if i < p && j == p {
                    } else if i < p && j > p {
                        assert(v@[j] == before[j - 1]);
                    } else if i == p {
                        assert(v@[j] == before[j - 1]);
                    } else {
                        assert(v@[i] == before[i - 1] && v@[j] == before[j - 1]);
                    }
                }
            }
            let next = node.next_sibling;
            proof {
                assert(node_links_ok(nodes, cur.0 as int));
                if next.spec_is_valid() {
                    assert(1 <= next.0 < cur.0);
                    lemma_chain_step(nodes, next);
                    assert(c.subrange(k + 1, c.len() as int) =~= c.subrange(k, c.len() as int).subrange(
                        1,
                        c.subrange(k, c.len() as int).len() as int,
                    ));
                    assert forall|i: int| 0 <= i < v@.len() implies #[trigger] v@[i].0 > next.0 by {
                        if i != p {
                            if i < p {
                                assert(v@[i] == before[i]);
                            } else {
                                assert(v@[i] == before[i - 1]);
                            }
                        }
                    }
                } else {
                    assert(c.subrange(k, c.len() as int).len() == 1);
                }
                k = k + 1;
            }
            cur = next;
        }
        proof {
            assert(refs.subrange(0, k) =~= refs);
        }
        v
    }
}

} // verus!
