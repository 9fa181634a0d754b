//! A game in progress or finished: the board, the actions played so far, the current
//! state and the random generator of its chance events; random play to the end of a
//! game; and the turn order of a match between the engine and an opponent.

use vstd::prelude::*;

use crate::board::Board;
use crate::game_state::GameState;
use crate::bits::has_bit128;
use crate::graph::Action;
use crate::legality::{
    lemma_end_turn_keeps_roll_owed, lemma_generated_placements_apply, lemma_robber_moves, lemma_robber_spot,
    lemma_roll_owed, lemma_steal_owed, placement_owed, step_owed, turn_roll_owed,
};
use crate::rng::{roll_die, roll_die_i32, seeded_rng};
use crate::types::Resource;
use rand::rngs::SmallRng;

verus! {

/// Represents a game in progress or finished.
#[derive(Clone, Debug)]
pub struct Game {
    board: Board,
    actions: Vec<Action>,
    state: GameState,
    rng: SmallRng,
}

impl Game {
    /// The board of the game.
    pub closed spec fn spec_board(self) -> Board {
        self.board
    }

    /// The actions applied so far, as they were determined.
    pub closed spec fn spec_actions(self) -> Seq<Action> {
        self.actions@
    }

    /// The current state of the game.
    pub closed spec fn spec_state(self) -> GameState {
        self.state
    }

    /// A game on `board` at its start, with chance events drawn from `rng`.
    pub fn new_with_rng(board: Board, rng: SmallRng) -> (g: Game)
        requires
            exists|i: int| 0 <= i < 19 && board.resources@[i] == crate::types::Resource::Desert,
        ensures
            g.spec_board() == board,
            g.spec_actions() == Seq::<Action>::empty(),
            g.spec_state().is_start(),
            g.spec_state().robber < 19,
            board.resources@[g.spec_state().robber as int] == crate::types::Resource::Desert,
            forall|j: int| 0 <= j < g.spec_state().robber ==> board.resources@[j] != crate::types::Resource::Desert,
    {
        let state = GameState::new(&board);
        Game { board, actions: Vec::new(), state, rng }
    }

    /// A new game for `players` players on a random board with a fair number layout (see
    /// [`Board::new_random_fair`]), drawn from a generator seeded from `seed`, which then
    /// draws the game's chance events. Returns `None` when no fair layout comes up.
    pub fn new_random(players: u8, seed: u64) -> (g: Option<Game>)
        requires
            2 <= players <= 4,
        ensures
            g matches Some(g) ==> {
                &&& g.spec_board().is_standard_fair(players)
                &&& g.spec_actions() == Seq::<Action>::empty()
                &&& g.spec_state().is_start()
                &&& g.spec_state().robber < 19
                &&& g.spec_board().resources@[g.spec_state().robber as int] == crate::types::Resource::Desert
                &&& forall|j: int|
                    0 <= j < g.spec_state().robber ==> g.spec_board().resources@[j] != crate::types::Resource::Desert
            },
    {
        let mut rng = seeded_rng(seed);
        let board = match Board::new_random_fair(players, &mut rng) {
            Some(b) => b,
            None => {
                return None;
            },
        };
        Some(Game::new_with_rng(board, rng))
    }

    /// A game on `board` at its start, with a generator seeded from `seed`.
    pub fn new_from_board(board: Board, seed: u64) -> (g: Game)
        requires
            exists|i: int| 0 <= i < 19 && board.resources@[i] == crate::types::Resource::Desert,
        ensures
            g.spec_board() == board,
            g.spec_actions() == Seq::<Action>::empty(),
            g.spec_state().is_start(),
            g.spec_state().robber < 19,
            board.resources@[g.spec_state().robber as int] == crate::types::Resource::Desert,
            forall|j: int| 0 <= j < g.spec_state().robber ==> board.resources@[j] != crate::types::Resource::Desert,
    {
        Game::new_with_rng(board, seeded_rng(seed))
    }

    /// Replaces the board and the current state; the actions played and the generator stay.
    pub fn set_board_state(&mut self, board: Board, state: GameState)
        ensures
            final(self).spec_board() == board,
            final(self).spec_state() == state,
            final(self).spec_actions() == old(self).spec_actions(),
    {
        self.board = board;
        self.state = state;
    }

    /// The board of the game.
    pub fn board(&self) -> (b: &Board)
        ensures
            *b == self.spec_board(),
    {
        &self.board
    }

    /// The current state of the game.
    pub fn current_state(&self) -> (s: &GameState)
        ensures
            *s == self.spec_state(),
    {
        &self.state
    }

    /// The generator of the game's chance events.
    pub closed spec fn spec_rng(self) -> SmallRng {
        self.rng
    }

    /// The generator of the game's chance events, to draw from.
    pub fn rng(&mut self) -> (r: &mut SmallRng)
        ensures
            *r == old(self).spec_rng(),
            final(self).spec_rng() == *final(r),
            final(self).spec_board() == old(self).spec_board(),
            final(self).spec_state() == old(self).spec_state(),
            final(self).spec_actions() == old(self).spec_actions(),
    {
        &mut self.rng
    }

    /// The last action applied, or [`Action::none`] before the first.
    pub open spec fn spec_last_action(self) -> Action {
        if self.spec_actions().len() == 0 {
            Action::spec_none()
        } else {
            self.spec_actions().last()
        }
    }

    /// The last action applied, or [`Action::none`] before the first.
    pub fn last_action(&self) -> (a: Action)
        ensures
            a == self.spec_last_action(),
    {
        let n = self.actions.len();
        if n == 0 {
            Action::none()
        } else {
            self.actions[n - 1]
        }
    }

    /// The victory points of the four seats.
    pub fn scores(&self) -> (s: [u8; 4])
        ensures
            forall|i: int| 0 <= i < 4 ==> #[trigger] s@[i] == self.spec_state().players[i].vps,
    {
        let p = self.state.players;
        [p[0].vps, p[1].vps, p[2].vps, p[3].vps]
    }

    /// Some player has 10 victory points or more.
    pub fn is_terminal(&self) -> (b: bool)
        ensures
            b == self.spec_state().spec_is_terminal(),
    {
        self.state.is_terminal()
    }

    /// Applies `action` to the current state, records it as determined, and returns it.
    pub fn apply_action(&mut self, action: Action) -> (r: Action)
        requires
            old(self).spec_state().can_apply(old(self).spec_board(), action),
        ensures
            old(self).spec_state().determines(action, r),
            old(self).spec_state().applied(old(self).spec_board(), action, r, final(self).spec_state()),
            final(self).spec_board() == old(self).spec_board(),
            final(self).spec_actions() == old(self).spec_actions().push(r),
    {
        let board = self.board;
        let action = self.state.apply_action(&board, action, &mut self.rng);
        self.actions.push(action);
        action
    }

    /// The total of two dice.
    pub fn roll_2d6(&mut self) -> (n: usize)
        ensures
            2 <= n <= 12,
            final(self).spec_board() == old(self).spec_board(),
            final(self).spec_state() == old(self).spec_state(),
            final(self).spec_actions() == old(self).spec_actions(),
    {
        let a = roll_die(&mut self.rng);
        let b = roll_die(&mut self.rng);
        a + b
    }
}


/// `t` follows `s` by a steal of a random card from some player.
pub open spec fn after_random_steal(s: GameState, board: Board, t: GameState) -> bool {
    exists|victim: u8, got: Action|
        s.can_apply(board, Action::Steal(victim, Resource::Desert)) && s.determines(Action::Steal(victim, Resource::Desert), got)
            && #[trigger] s.applied(board, Action::Steal(victim, Resource::Desert), got, t)
}

/// `t` follows `s` by a robber move and a random steal.
pub open spec fn after_robber(s: GameState, board: Board, t: GameState) -> bool {
    exists|spot: u8, s3: GameState|
        s.can_apply(board, Action::MoveRobber(spot)) && #[trigger] s.applied(board, Action::MoveRobber(spot), Action::MoveRobber(spot), s3)
            && after_random_steal(s3, board, t)
}

/// `t` follows `s` by the dice roll after a turn ends: a roll of 2 to 12 is applied, and a
/// 7 is followed by a robber move and a steal.
pub open spec fn after_turn_roll(s: GameState, board: Board, t: GameState) -> bool {
    exists|n: u8, s2: GameState|
        2 <= n <= 12 && s.can_apply(board, Action::Roll(n)) && #[trigger] s.applied(board, Action::Roll(n), Action::Roll(n), s2)
            && (n != 7 ==> t == s2) && (n == 7 ==> after_robber(s2, board, t))
}

/// `t` follows `s` by one step of play after `last`, determined as `a`: an action of the
/// kind that `last` calls for, and after the end of a turn the roll for the next player.
pub open spec fn step_to(board: Board, s: GameState, last: Action, a: Action, t: GameState) -> bool {
    exists|act: Action, s1: GameState|
        #![trigger s.applied(board, act, a, s1)]
        s.can_generate(last) && s.can_apply(board, act) && s.determines(act, a) && s.applied(board, act, a, s1)
            && (act != Action::EndTurn ==> t == s1) && (act == Action::EndTurn ==> after_turn_roll(s1, board, t))
}

/// `states`, whose last actions are `lasts`, follow one another by steps of play.
pub open spec fn play_trace(board: Board, states: Seq<GameState>, lasts: Seq<Action>) -> bool {
    &&& states.len() >= 1
    &&& lasts.len() == states.len()
    &&& forall|i: int|
        0 <= i < states.len() - 1 ==> #[trigger] step_to(board, states[i], lasts[i], lasts[i + 1], states[i + 1])
}

/// `t` follows `s` by placement `a` of the placement phase.
pub open spec fn placement_to(board: Board, s: GameState, a: Action, t: GameState) -> bool {
    &&& s.spec_is_initial()
    &&& a is InitialSettle || a is InitialRoad
    &&& s.can_apply(board, a)
    &&& s.applied(board, a, a, t)
}

/// `states` follow one another by the placements `placements`.
pub open spec fn placement_trace(board: Board, states: Seq<GameState>, placements: Seq<Action>) -> bool {
    &&& states.len() == placements.len() + 1
    &&& forall|i: int|
        0 <= i < placements.len() ==> #[trigger] placement_to(board, states[i], placements[i], states[i + 1])
}

/// `t` is where random play from `s`, whose last action is `last`, can arrive: from the
/// placement phase, placements until it ends, the first roll and then steps of play
/// (after a first roll of 7 the last action is that roll, else the last placement);
/// after the placement phase, steps of play.
pub open spec fn simulated_to(board: Board, s: GameState, last: Action, t: GameState) -> bool {
    if s.spec_is_initial() {
        exists|ps: Seq<GameState>, pa: Seq<Action>, r: u8, ss: Seq<GameState>, ls: Seq<Action>|
            #![trigger placement_trace(board, ps, pa), play_trace(board, ss, ls), ps.last().applied(board, Action::Roll(r), Action::Roll(r), ss[0])]
            {
                &&& placement_trace(board, ps, pa)
                &&& ps[0] == s
                &&& pa.len() > 0
                &&& !ps.last().spec_is_initial()
                &&& 2 <= r <= 12
                &&& ps.last().can_apply(board, Action::Roll(r))
                &&& ps.last().applied(board, Action::Roll(r), Action::Roll(r), ss[0])
                &&& play_trace(board, ss, ls)
                &&& ls[0] == if r == 7 {
                    Action::Roll(7)
                } else {
                    pa.last()
                }
                &&& ss.last() == t
            }
    } else {
        exists|ss: Seq<GameState>, ls: Seq<Action>|
            #[trigger] play_trace(board, ss, ls) && ss[0] == s && ls[0] == last && ss.last() == t
    }
}

/// Random play from `start`, whose last action is `last`, can come to a position where it
/// is not sure to go on, or can run out of moves: in the placement phase, a position where
/// no placement is owed (see [`placement_owed`]) or one reached by `u64::MAX` placements;
/// after the placements, one where the first roll is not owed (see [`turn_roll_owed`]);
/// then a game not over, reached by steps of play, where no step is owed (see
/// [`step_owed`]) or that took `u64::MAX` moves in all.
pub open spec fn play_stuck(board: Board, start: GameState, last: Action) -> bool {
    if start.spec_is_initial() {
        exists|ps: Seq<GameState>, pa: Seq<Action>|
            #![trigger placement_trace(board, ps, pa)]
            placement_trace(board, ps, pa) && ps[0] == start && {
                ||| ps.last().spec_is_initial() && (!placement_owed(ps.last(), board) || pa.len() >= u64::MAX)
                ||| !ps.last().spec_is_initial() && pa.len() > 0 && !turn_roll_owed(ps.last(), board)
                ||| !ps.last().spec_is_initial() && pa.len() > 0 && exists|r: u8, ss: Seq<GameState>, ls: Seq<Action>|
                    #![trigger play_trace(board, ss, ls), ps.last().applied(board, Action::Roll(r), Action::Roll(r), ss[0])]
                    {
                        &&& 2 <= r <= 12
                        &&& ps.last().can_apply(board, Action::Roll(r))
                        &&& ps.last().applied(board, Action::Roll(r), Action::Roll(r), ss[0])
                        &&& play_trace(board, ss, ls)
                        &&& ls[0] == if r == 7 {
                            Action::Roll(7)
                        } else {
                            pa.last()
                        }
                        &&& !ss.last().spec_is_terminal()
                        &&& !step_owed(ss.last(), board, ls.last()) || pa.len() + ss.len() - 1 >= u64::MAX
                    }
            }
    } else {
        exists|ss: Seq<GameState>, ls: Seq<Action>|
            #[trigger] play_trace(board, ss, ls) && ss[0] == start && ls[0] == last && !ss.last().spec_is_terminal() && (
            !step_owed(ss.last(), board, ls.last()) || ss.len() - 1 >= u64::MAX)
    }
}

/// Player `p` has won in `s`: the first seat with 10 victory points or more.
pub open spec fn won_by(s: GameState, p: crate::types::Player) -> bool {
    &&& p.spec_index() < 4
    &&& s.players[p.spec_index() as int].vps >= 10
    &&& forall|j: int| 0 <= j < p.spec_index() ==> s.players[j].vps < 10
}

impl Game {
    /// One random placement of the initial phase of `state`: a village on a free spot, or
    /// a road at the village without one. Returns the placement, or `None` when none can
    /// be made (the state is left as it was); where a placement is owed (see
    /// [`placement_owed`]) it returns one.
    pub fn simulate_initial_step(&mut self, state: &mut GameState) -> (r: Option<Action>)
        ensures
            final(self).spec_board() == old(self).spec_board(),
            final(self).spec_state() == old(self).spec_state(),
            final(self).spec_actions() == old(self).spec_actions(),
            r is None ==> *final(state) == *old(state),
            r matches Some(a) ==> {
                &&& old(state).can_apply(old(self).spec_board(), a)
                &&& old(state).applied(old(self).spec_board(), a, a, *final(state))
                &&& old(state).spec_is_initial_settle() ==> (a matches Action::InitialSettle(v) && (v as usize)
                    < crate::topology::NUM_VERTICES && old(state).spec_vertex_buildable(v as usize))
                &&& !old(state).spec_is_initial_settle() ==> a is InitialRoad
            },
            placement_owed(*old(state), old(self).spec_board()) ==> r is Some,
    {
        let cp = state.current_player;
        if cp >= 4 || state.players[cp as usize].villages_left > 5 || state.players[cp as usize].roads_left > 15 {
            return None;
        }
        let settling = state.is_initial_settle();
        let mut actions = if settling {
            state.generate_initial_settles()
        } else {
            if !state.unroaded_village_exists() {
                return None;
            }
            state.generate_initial_roads()
        };
        proof {
            if placement_owed(*state, self.board) {
                state.lemma_placements_nonempty(self.board, actions.flags());
            }
        }
        if actions.is_empty() {
            return None;
        }
        let ghost before = actions;
        let action = actions.select_random_untried_initial_action(&mut self.rng, settling);
        proof {
            if placement_owed(*state, self.board) {
                let bit = choose|bit: u8|
                    #![trigger has_bit128(before.flags(), bit as usize)]
                    bit < 128 && has_bit128(before.flags(), bit as usize) && actions.flags() == before.flags() ^ (1u128
                        << bit) && (action == Action::InitialSettle(bit) || action == Action::InitialRoad(bit));
                lemma_generated_placements_apply(*state, self.board, before.flags(), bit);
            }
        }
        if !state.can_apply_action(&self.board, action) {
            return None;
        }
        let board = self.board;
        let a = state.apply_action(&board, action, &mut self.rng);
        Some(a)
    }

    /// The first roll after the placement phase: two dice, applied to `state`. Returns the
    /// roll, or `None` when it cannot be applied (the state is left as it was); where the
    /// roll is owed (see [`turn_roll_owed`]) it returns the roll.
    pub fn simulate_first_roll(&mut self, state: &mut GameState) -> (r: Option<Action>)
        ensures
            final(self).spec_board() == old(self).spec_board(),
            final(self).spec_state() == old(self).spec_state(),
            final(self).spec_actions() == old(self).spec_actions(),
            r is None ==> *final(state) == *old(state),
            r matches Some(a) ==> {
                &&& a matches Action::Roll(n) && 2 <= n <= 12
                &&& old(state).can_apply(old(self).spec_board(), a)
                &&& old(state).applied(old(self).spec_board(), a, a, *final(state))
            },
            turn_roll_owed(*old(state), old(self).spec_board()) ==> r is Some,
    {
        let roll = self.roll_2d6();
        let action = Action::Roll(roll as u8);
        proof {
            if turn_roll_owed(*state, self.board) {
                lemma_roll_owed(*state, self.board, roll as u8);
            }
        }
        if !state.can_apply_action(&self.board, action) {
            return None;
        }
        let board = self.board;
        let a = state.apply_action(&board, action, &mut self.rng);
        Some(a)
    }

    /// One random action of the kind that `last_action` calls for, drawn from the generated
    /// actions and applied. Returns the action as determined, or `None`, with the state
    /// left as it was, when no action can be generated or applied.
    fn play_step(&mut self, state: &mut GameState, last_action: Action) -> (r: Option<Action>)
        ensures
            final(self).spec_board() == old(self).spec_board(),
            final(self).spec_state() == old(self).spec_state(),
            final(self).spec_actions() == old(self).spec_actions(),
            r is None ==> *final(state) == *old(state),
            r matches Some(a) ==> exists|act: Action|
                #![trigger old(state).applied(old(self).spec_board(), act, a, *final(state))]
                old(state).can_generate(last_action) && old(state).can_apply(old(self).spec_board(), act)
                    && old(state).determines(act, a) && old(state).applied(old(self).spec_board(), act, a, *final(state)),
            step_owed(*old(state), old(self).spec_board(), last_action) ==> r is Some,
    {
        let board = self.board;
        if !state.can_generate_actions(last_action) {
            return None;
        }
        let mut actions = state.generate_actions(&board, last_action);
        let fits = match last_action.forced_continuation() {
            Some(Action::RoadBuild1(_)) => true,
            Some(Action::RoadBuild2(_)) => true,
            Some(Action::YoPResources(_, _)) => !actions.is_empty() && actions.flags_below(30),
            Some(Action::MonopolyResource(_)) => !actions.is_empty() && actions.flags_below(6),
            Some(_) => !actions.is_empty(),
            None => !actions.is_empty() && actions.flags_below(64),
        };
        proof {
            if step_owed(*state, board, last_action) {
                state.lemma_generated_flags_usable(board, last_action, actions.flags());
            }
        }
        if !fits {
            return None;
        }
        let ghost before = actions;
        let action = actions.select_random_untried_action(&mut self.rng, last_action);
        proof {
            if step_owed(*state, board, last_action) {
                state.lemma_drawn_action_applies(board, last_action, before, actions, action);
            }
        }
        if !state.can_apply_action(&board, action) {
            return None;
        }
        let ghost s0 = *state;
        let a = state.apply_action(&board, action, &mut self.rng);
        assert(s0 == *old(state) && board == old(self).spec_board());
        assert(s0.can_generate(last_action) && s0.applied(board, action, a, *state));
        Some(a)
    }

    /// The dice roll that starts the next turn: two dice are rolled and the sum applied,
    /// and a 7 is followed by a random robber move and a random steal. Returns the roll,
    /// or `None`, with the state left as it was, when one of these cannot be applied.
    fn roll_for_turn(&mut self, state: &mut GameState) -> (r: Option<u8>)
        ensures
            final(self).spec_board() == old(self).spec_board(),
            final(self).spec_state() == old(self).spec_state(),
            final(self).spec_actions() == old(self).spec_actions(),
            r is None ==> *final(state) == *old(state),
            r is Some ==> after_turn_roll(*old(state), old(self).spec_board(), *final(state)),
            turn_roll_owed(*old(state), old(self).spec_board()) ==> r is Some,
    {
        let board = self.board;
        let mut next = *state;
        let roll = roll_die_i32(&mut self.rng) + roll_die_i32(&mut self.rng);
        let n = roll as u8;
        assert(2 <= n <= 12 && n as i32 == roll);
        proof {
            if turn_roll_owed(next, board) {
                lemma_roll_owed(next, board, n);
            }
        }
        if !next.can_apply_action(&board, Action::Roll(n)) {
            return None;
        }
        let ghost s1 = next;
        next.apply_action(&board, Action::Roll(n), &mut self.rng);
        let ghost s2 = next;
        assert(s1.applied(board, Action::Roll(n), Action::Roll(n), s2));
        if roll == 7 {
            if next.robber >= 128 {
                return None;
            }
            let mut robbers = next.generate_robber_moves();
            proof {
                lemma_robber_moves(next.robber);
            }
            if robbers.is_empty() {
                return None;
            }
            let ghost robbers0 = robbers;
            let robber = robbers.select_random_untried_robber_action(&mut self.rng);
            let spot = match robber {
                Action::MoveRobber(spot) => spot,
                _ => {
                    return None;
                },
            };
            proof {
                if turn_roll_owed(s1, board) {
                    let b = choose|b: u8|
                        #![trigger has_bit128(robbers0.flags(), b as usize)]
                        b < 128 && has_bit128(robbers0.flags(), b as usize) && robbers.flags() == robbers0.flags()
                            ^ (1u128 << b) && robber == Action::MoveRobber(b);
                    lemma_robber_spot(next.robber, b as usize);
                }
            }
            next.apply_action(&board, Action::MoveRobber(spot), &mut self.rng);
            let ghost s3 = next;
            assert(s2.applied(board, Action::MoveRobber(spot), Action::MoveRobber(spot), s3));
            if next.current_player >= 4 || spot >= 19 {
                return None;
            }
            let mut steals = next.generate_steals(spot);
            proof {
                next.lemma_steals_nonempty(spot, steals.flags());
            }
            if steals.is_empty() {
                return None;
            }
            let ghost steals0 = steals;
            let steal = steals.select_random_untried_steal_action(&mut self.rng);
            let victim = match steal {
                Action::Steal(victim, _) => victim,
                _ => {
                    return None;
                },
            };
            proof {
                if turn_roll_owed(s1, board) {
                    let b = choose|b: u8|
                        #![trigger has_bit128(steals0.flags(), b as usize)]
                        b < 128 && has_bit128(steals0.flags(), b as usize) && steals.flags() == steals0.flags()
                            ^ (1u128 << b) && steal == Action::Steal(b, Resource::Desert);
                    lemma_steal_owed(s1, s2, s3, board, spot, steals0.flags(), b);
                }
            }
            if !next.can_apply_action(&board, Action::Steal(victim, Resource::Desert)) {
                return None;
            }
            let got = next.apply_action(&board, Action::Steal(victim, Resource::Desert), &mut self.rng);
            proof {
                assert(s3.applied(board, Action::Steal(victim, Resource::Desert), got, next));
                assert(after_random_steal(s3, board, next));
                assert(after_robber(s2, board, next));
            }
        }
        proof {
            assert(after_turn_roll(s1, board, next));
        }
        *state = next;
        Some(n)
    }

    /// One random step of play after the placement phase: an untried action of the kind
    /// that `last_action` calls for is drawn from the generated actions and applied; after
    /// ending the turn, the dice are rolled for the next player, and a 7 is followed by a
    /// random robber move and steal. Returns the action as determined, or `None` when a
    /// step cannot be generated or applied; in a position where every step can be
    /// generated and applied (see [`step_owed`]) it returns the action.
    pub fn simulate_step(&mut self, state: &mut GameState, last_action: Action) -> (r: Option<Action>)
        ensures
            final(self).spec_board() == old(self).spec_board(),
            final(self).spec_state() == old(self).spec_state(),
            final(self).spec_actions() == old(self).spec_actions(),
            r matches Some(a) ==> step_to(old(self).spec_board(), *old(state), last_action, a, *final(state)),
            step_owed(*old(state), old(self).spec_board(), last_action) ==> r is Some,
    {
        let ghost s0 = *state;
        let ghost board = self.board;
        let a = match self.play_step(state, last_action) {
            Some(a) => a,
            None => {
                return None;
            },
        };
        let ghost s1 = *state;
        let ghost act = choose|act: Action|
            #![trigger s0.applied(board, act, a, s1)]
            s0.can_generate(last_action) && s0.can_apply(board, act) && s0.determines(act, a) && s0.applied(board, act, a, s1);
        if a == Action::EndTurn {
            proof {
                assert(act == Action::EndTurn);
                if step_owed(s0, board, last_action) {
                    lemma_end_turn_keeps_roll_owed(s0, s1, board);
                }
            }
            if self.roll_for_turn(state).is_none() {
                return None;
            }
        } else {
            proof {
                assert(act != Action::EndTurn);
            }
        }
        Some(a)
    }

    /// The winner of a finished game: the first seat with 10 victory points or more.
    pub fn winner(state: &GameState) -> (w: Option<crate::types::Player>)
        ensures
            match w {
                Some(p) => won_by(*state, p),
                None => !state.spec_is_terminal(),
            },
    {
        let mut i: usize = 0;
        while i < 4
            invariant
                i <= 4,
                forall|j: int| 0 <= j < i ==> state.players[j].vps < 10,
            decreases 4 - i,
        {
            if state.players[i].vps >= 10 {
                return Some(crate::types::Player::from_u8(i as u8));
            }
            i = i + 1;
        }
        None
    }
}


impl Game {
    /// Plays randomly from `state`, whose last action is `last_action`, until somebody
    /// wins, and returns the winner: in the placement phase random placements until it
    /// ends and the first roll, then random steps of play (see
    /// [`Game::simulate_step`]). Returns `None` only where the play got stuck (see
    /// [`play_stuck`]): it came to a placement, first roll or step that was not owed, or
    /// it made `u64::MAX` moves. A game that is over after the placement phase gives its
    /// winner.
    pub fn simulate(&mut self, start: GameState, last_action: Action) -> (w: Option<crate::types::Player>)
        ensures
            final(self).spec_board() == old(self).spec_board(),
            final(self).spec_state() == old(self).spec_state(),
            final(self).spec_actions() == old(self).spec_actions(),
            w matches Some(p) ==> exists|t: GameState|
                simulated_to(old(self).spec_board(), start, last_action, t) && t.spec_is_terminal() && #[trigger] won_by(t, p),
            w is None ==> play_stuck(old(self).spec_board(), start, last_action),
            !start.spec_is_initial() && start.spec_is_terminal() ==> (w is Some && won_by(start, w->0)),
    {
        let ghost board = self.board;
        if !start.is_initial() && start.is_terminal() {
            proof {
                let ss = seq![start];
                let ls = seq![last_action];
                assert(play_trace(board, ss, ls) && ss[0] == start && ls[0] == last_action && ss.last() == start);
            }
            return Self::winner(&start);
        }
        let ghost s0 = start;
        let mut state = start;
        let mut last = last_action;
        let mut count: u64 = 0;
        // the trace of the steps of play, from where they start
        let ghost mut ss: Seq<GameState> = seq![state];
        let ghost mut ls: Seq<Action> = seq![last_action];
        // the trace of the placements, and how many moves came before the steps of play
        let ghost mut ps: Seq<GameState> = seq![state];
        let ghost mut pa: Seq<Action> = seq![];
        let ghost mut k0: int = 0;
        if state.is_initial() {
            while state.is_initial() && count < u64::MAX
                invariant
                    self.spec_board() == board,
                    board == old(self).spec_board(),
                    self.spec_state() == old(self).spec_state(),
                    self.spec_actions() == old(self).spec_actions(),
                    s0 == start,
                    s0.spec_is_initial(),
                    placement_trace(board, ps, pa),
                    ps[0] == s0,
                    ps.last() == state,
                    pa.len() > 0 ==> last == pa.last(),
                    count == pa.len(),
                decreases u64::MAX - count,
            {
                let ghost before = state;
                let a = match self.simulate_initial_step(&mut state) {
                    Some(a) => a,
                    None => {
                        proof {
                            assert(placement_trace(board, ps, pa) && ps[0] == start);
                        }
                        return None;
                    },
                };
                proof {
                    assert(placement_to(board, before, a, state));
                    let ps2 = ps.push(state);
                    let pa2 = pa.push(a);
                    assert forall|i: int| 0 <= i < pa2.len() implies #[trigger] placement_to(board, ps2[i], pa2[i], ps2[i + 1]) by {
                        if i < pa.len() {
                            assert(ps2[i] == ps[i] && ps2[i + 1] == ps[i + 1] && pa2[i] == pa[i]);
                        }
                    }
                    ps = ps2;
                    pa = pa2;
                }
                last = a;
                count = count + 1;
            }
            if state.is_initial() {
                proof {
                    assert(placement_trace(board, ps, pa) && ps[0] == start);
                }
                return None;
            }
            let ghost p = state;
            assert(pa.len() > 0);
            let roll = match self.simulate_first_roll(&mut state) {
                Some(r) => r,
                None => {
                    proof {
                        assert(placement_trace(board, ps, pa) && ps[0] == start);
                    }
                    return None;
                },
            };
            if roll == Action::Roll(7) {
                last = roll;
            }
            proof {
                let r = roll->Roll_0;
                assert(p.applied(board, Action::Roll(r), Action::Roll(r), state));
                ss = seq![state];
                ls = seq![last];
                k0 = pa.len() as int;
                assert(last == if r == 7 {
                    Action::Roll(7)
                } else {
                    pa.last()
                });
                assert forall|ss2: Seq<GameState>, ls2: Seq<Action>|
                    #[trigger] play_trace(board, ss2, ls2) && ss2[0] == state && ls2[0] == last implies simulated_to(
                    board,
                    s0,
                    last_action,
                    ss2.last(),
                ) by {
                    assert(placement_trace(board, ps, pa) && play_trace(board, ss2, ls2) && p.applied(
                        board,
                        Action::Roll(r),
                        Action::Roll(r),
                        ss2[0],
                    ));
                }
                assert forall|ss2: Seq<GameState>, ls2: Seq<Action>|
                    #[trigger] play_trace(board, ss2, ls2) && ss2[0] == state && ls2[0] == last && !ss2.last().spec_is_terminal()
                        && (!step_owed(ss2.last(), board, ls2.last()) || k0 + ss2.len() - 1 >= u64::MAX) implies play_stuck(
                    board,
                    s0,
                    last_action,
                ) by {
                    assert(placement_trace(board, ps, pa) && play_trace(board, ss2, ls2) && p.applied(
                        board,
                        Action::Roll(r),
                        Action::Roll(r),
                        ss2[0],
                    ));
                }
            }
        }
        let ghost q = state;
        let ghost lq = last;
        assert(play_trace(board, ss, ls));
        assert(count == k0);
        proof {
            if !s0.spec_is_initial() {
                assert forall|ss2: Seq<GameState>, ls2: Seq<Action>|
                    #[trigger] play_trace(board, ss2, ls2) && ss2[0] == q && ls2[0] == lq && !ss2.last().spec_is_terminal()
                        && (!step_owed(ss2.last(), board, ls2.last()) || k0 + ss2.len() - 1 >= u64::MAX) implies play_stuck(
                    board,
                    s0,
                    last_action,
                ) by {
                }
            }
        }
        while !state.is_terminal() && count < u64::MAX
            invariant
                self.spec_board() == board,
                board == old(self).spec_board(),
                self.spec_state() == old(self).spec_state(),
                self.spec_actions() == old(self).spec_actions(),
                s0 == start,
                !(!s0.spec_is_initial() && s0.spec_is_terminal()),
                play_trace(board, ss, ls),
                ss[0] == q,
                ls[0] == lq,
                ss.last() == state,
                ls.last() == last,
                count == k0 + ss.len() - 1,
                forall|ss2: Seq<GameState>, ls2: Seq<Action>|
                    #[trigger] play_trace(board, ss2, ls2) && ss2[0] == q && ls2[0] == lq ==> simulated_to(
                        board,
                        s0,
                        last_action,
                        ss2.last(),
                    ),
                forall|ss2: Seq<GameState>, ls2: Seq<Action>|
                    #[trigger] play_trace(board, ss2, ls2) && ss2[0] == q && ls2[0] == lq && !ss2.last().spec_is_terminal()
                        && (!step_owed(ss2.last(), board, ls2.last()) || k0 + ss2.len() - 1 >= u64::MAX) ==> play_stuck(
                        board,
                        s0,
                        last_action,
                    ),
            decreases u64::MAX - count,
        {
            let ghost before = state;
            let ghost before_last = last;
            let a = match self.simulate_step(&mut state, last) {
                Some(a) => a,
                None => {
                    proof {
                        assert(play_trace(board, ss, ls) && ss[0] == q && ls[0] == lq);
                    }
                    return None;
                },
            };
            proof {
                assert(step_to(board, before, before_last, a, state));
                let ss2 = ss.push(state);
                let ls2 = ls.push(a);
                assert forall|i: int| 0 <= i < ss2.len() - 1 implies #[trigger] step_to(board, ss2[i], ls2[i], ls2[i + 1], ss2[i + 1]) by {
                    if i < ss.len() - 1 {
                        assert(ss2[i] == ss[i] && ss2[i + 1] == ss[i + 1] && ls2[i] == ls[i] && ls2[i + 1] == ls[i + 1]);
                    }
                }
                ss = ss2;
                ls = ls2;
            }
            last = a;
            count = count + 1;
        }
        if !state.is_terminal() {
            proof {
                assert(play_trace(board, ss, ls) && ss[0] == q && ls[0] == lq);
            }
            return None;
        }
        let w = Self::winner(&state);
        proof {
            assert(play_trace(board, ss, ls) && ss[0] == q && ls[0] == lq);
            assert(simulated_to(board, s0, last_action, state));
        }
        w
    }
}

/// Whose part of the turn a two-player match between the engine and an opponent is in.
#[derive(Copy, Clone, Debug, PartialEq, Eq, Structural)]
pub enum MatchPhase {
    /// The engine plays while its seat is to move.
    Local,
    /// The opponent plays while the other seat is to move.
    Opponent,
}

/// What a match does next.
#[derive(Copy, Clone, Debug, PartialEq, Eq, Structural)]
pub enum MatchMove {
    /// The engine searches and plays its best move.
    Search,
    /// The opponent is asked for its move, which is played.
    Ask,
    /// The dice are rolled for the next player.
    Roll,
    /// Nothing is played.
    Pass,
    /// The game is over.
    Done,
}

/// The step of a match after `phase` in `state`, with the engine in seat `local` (0 or
/// 1) and the opponent in the other: a finished game is done; the side whose phase it is
/// plays while its seat is to move; then, after the placement phase, the dice are rolled,
/// and the other side's phase begins.
pub fn match_step(phase: MatchPhase, state: &GameState, local: u8) -> (r: (MatchPhase, MatchMove))
    requires
        local < 2,
    ensures
        state.spec_is_terminal() ==> r.1 == MatchMove::Done,
        !state.spec_is_terminal() ==> r == match phase {
            MatchPhase::Local => if state.current_player == local {
                (MatchPhase::Local, MatchMove::Search)
            } else if !state.spec_is_initial() {
                (MatchPhase::Opponent, MatchMove::Roll)
            } else {
                (MatchPhase::Opponent, MatchMove::Pass)
            },
            MatchPhase::Opponent => if state.current_player == 1 - local {
                (MatchPhase::Opponent, MatchMove::Ask)
            } else if !state.spec_is_initial() {
                (MatchPhase::Local, MatchMove::Roll)
            } else {
                (MatchPhase::Local, MatchMove::Pass)
            },
        },
{
    if state.is_terminal() {
        return (phase, MatchMove::Done);
    }
    match phase {
        MatchPhase::Local => if state.current_player == local {
            (MatchPhase::Local, MatchMove::Search)
        } else if !state.is_initial() {
            (MatchPhase::Opponent, MatchMove::Roll)
        } else {
            (MatchPhase::Opponent, MatchMove::Pass)
        },
        MatchPhase::Opponent => if state.current_player == 1 - local {
            (MatchPhase::Opponent, MatchMove::Ask)
        } else if !state.is_initial() {
            (MatchPhase::Local, MatchMove::Roll)
        } else {
            (MatchPhase::Local, MatchMove::Pass)
        },
    }
}

/// What applying an action records is what the game then reports as its last action.
pub proof fn lemma_last_action_after_apply(before: Game, after: Game, r: Action)
    requires
        after.spec_actions() == before.spec_actions().push(r),
    ensures
        after.spec_last_action() == r,
{
}

} // verus!
