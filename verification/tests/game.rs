use monte_catano::board::Board;
use monte_catano::game_data::{match_step, Game, MatchMove, MatchPhase};
use monte_catano::game_state::GameState;
use monte_catano::graph::Action;
use monte_catano::mcts::Mcts;
use rand::rngs::SmallRng;
use rand::SeedableRng;
use monte_catano::types::Resource::{Brick, Desert, Ore, Sheep, Wheat, Wood};
use monte_catano::types::{DevCard, Player, Resource};

fn sample_board() -> Board {
    Board {
        num_players: 4,
        resources: [
            Ore, Sheep, Wood, Wheat, Brick, Sheep, Wheat, Wood, Desert, Ore, Wood, Brick, Sheep, Wheat, Wood,
            Brick, Sheep, Ore, Wheat,
        ],
        numbers: [10, 2, 9, 12, 6, 4, 10, 9, 0, 11, 3, 8, 8, 3, 4, 5, 5, 6, 11],
        ports: [Brick, Desert, Wood, Desert, Ore, Desert, Wheat, Desert, Sheep],
    }
}

/// A state after the placement phase: every player has placed its two roads.
fn playing_state(board: &Board) -> GameState {
    let mut s = GameState::new(board);
    for p in s.players.iter_mut() {
        p.roads_left = 13;
        p.villages_left = 3;
        p.resources = [0, 0, 0, 0, 0];
    }
    s
}

#[test]
fn new_state_puts_robber_on_desert() {
    let board = sample_board();
    let s = GameState::new(&board);
    assert_eq!(s.robber, 8);
    assert_eq!(s.current_player, 0);
    assert_eq!(s.dev_card_deck, [14, 2, 2, 2, 5]);
    assert!(s.is_initial());
    assert!(s.is_initial_settle());
    assert!(!s.is_terminal());
    assert_eq!(s.player(), 0);
}

#[test]
fn default_state_has_robber_off_board() {
    let s = GameState::default();
    assert_eq!(s.robber, 255);
    assert_eq!(s.longest_road, (Player::PNone, 0));
    assert_eq!(s.largest_army, (Player::PNone, 0));
}

#[test]
fn initial_settles_cover_the_whole_board() {
    let board = sample_board();
    let s = GameState::new(&board);
    let a = s.generate_actions(&board, Action::none());
    assert_eq!(a.bitflags, (1u128 << 54) - 1);
}

#[test]
fn first_initial_placements() {
    let board = sample_board();
    let mut s = GameState::new(&board);
    let mut rng = SmallRng::seed_from_u64(1);
    assert!(s.can_apply_action(&board, Action::InitialSettle(0)));
    assert_eq!(s.apply_action(&board, Action::InitialSettle(0), &mut rng), Action::InitialSettle(0));
    let p = s.players[0];
    assert_eq!(p.villages, 1);
    assert_eq!(p.resources, [3, 3, 0, 1, 1]);
    assert_eq!(p.vps, 1);
    assert_eq!(p.villages_left, 4);
    assert!(!s.is_initial_settle());
    // the village on vertex 0 touches edges 0 and 6
    let roads = s.generate_actions(&board, Action::InitialSettle(0));
    assert_eq!(roads.bitflags, 0b11);
    assert!(!s.is_vertex_buildable(1));
    assert!(s.is_vertex_buildable(2));
    s.apply_action(&board, Action::InitialRoad(1), &mut rng);
    assert_eq!(s.players[0].roads_lower, 1 << 6);
    assert_eq!(s.players[0].resources, [2, 2, 0, 1, 1]);
    assert_eq!(s.current_player, 1);
    assert!(!s.is_edge_buildable(6));
    assert!(s.is_edge_buildable(5));
}

#[test]
fn initial_roads_read_villages_only_up_to_the_one_without_road() {
    let board = sample_board();
    let mut s = GameState::new(&board);
    let mut rng = SmallRng::seed_from_u64(1);
    s.apply_action(&board, Action::InitialSettle(0), &mut rng);
    // a stray village bit above the village without a road is never read
    s.players[0].villages |= 1 << 60;
    assert!(s.unroaded_village_exists());
    assert_eq!(s.generate_initial_roads().bitflags, 0b11);
    assert_eq!(s.generate_actions(&board, Action::InitialSettle(0)).bitflags, 0b11);
}

#[test]
fn second_initial_village_collects_resources() {
    let board = sample_board();
    let mut s = GameState::new(&board);
    s.players[0].villages_left = 4;
    s.players[0].resources = [3, 3, 0, 1, 1];
    let mut rng = SmallRng::seed_from_u64(2);
    // vertex 10 touches hexes 0 (ore), 1 (sheep) and 4 (brick)
    s.apply_action(&board, Action::InitialSettle(10), &mut rng);
    assert_eq!(s.players[0].resources, [3, 2, 1, 0, 1]);
}

#[test]
fn rolls_pay_villages_and_cities() {
    let board = sample_board();
    let mut s = playing_state(&board);
    s.players[0].villages = 1 << 10;
    s.players[1].cities = 1 << 0;
    let mut rng = SmallRng::seed_from_u64(3);
    s.apply_action(&board, Action::Roll(10), &mut rng);
    assert_eq!(s.players[0].resources, [0, 0, 1, 0, 0]);
    assert_eq!(s.players[1].resources, [0, 0, 2, 0, 0]);
    // the robber blocks its hex
    s.robber = 0;
    s.roll_resources(&board, 10);
    assert_eq!(s.players[0].resources, [0, 0, 1, 0, 0]);
}

#[test]
fn seven_discards_half_from_largest_piles() {
    let board = sample_board();
    let mut s = playing_state(&board);
    s.players[2].resources = [5, 4, 0, 0, 0];
    s.players[3].resources = [3, 2, 2, 0, 0];
    let mut rng = SmallRng::seed_from_u64(4);
    s.apply_action(&board, Action::Roll(7), &mut rng);
    assert_eq!(s.players[2].resources, [3, 2, 0, 0, 0]);
    assert_eq!(s.players[3].resources, [3, 2, 2, 0, 0]);
}

#[test]
fn steals() {
    let board = sample_board();
    let mut s = playing_state(&board);
    s.players[1].resources = [0, 0, 0, 2, 0];
    let mut rng = SmallRng::seed_from_u64(5);
    assert_eq!(s.apply_action(&board, Action::Steal(1, Wheat), &mut rng), Action::Steal(1, Wheat));
    assert_eq!(s.players[1].resources, [0, 0, 0, 1, 0]);
    assert_eq!(s.players[0].resources, [0, 0, 0, 1, 0]);
    // a random steal takes what the victim has
    assert_eq!(s.apply_action(&board, Action::Steal(1, Desert), &mut rng), Action::Steal(1, Wheat));
    assert_eq!(s.players[0].resources, [0, 0, 0, 2, 0]);
    // nothing to take
    assert_eq!(s.apply_action(&board, Action::Steal(1, Desert), &mut rng), Action::Steal(1, Desert));
    assert!(!s.can_apply_action(&board, Action::Steal(1, Wheat)));
    assert!(!s.can_apply_action(&board, Action::Steal(4, Desert)));
}

#[test]
fn buying_cards() {
    let board = sample_board();
    let mut s = playing_state(&board);
    s.players[0].resources = [0, 0, 2, 2, 2];
    let mut rng = SmallRng::seed_from_u64(6);
    assert_eq!(s.apply_action(&board, Action::BuyDevCard(DevCard::VP), &mut rng), Action::BuyDevCard(DevCard::VP));
    assert_eq!(s.players[0].vps, 1);
    assert_eq!(s.players[0].dev_cards, [0, 0, 0, 0, 1]);
    assert_eq!(s.players[0].bought_dev_cards, [0, 0, 0, 0, 1]);
    assert_eq!(s.dev_card_deck, [14, 2, 2, 2, 5], "an explicit card leaves the deck alone");
    let drawn = s.apply_action(&board, Action::BuyDevCard(DevCard::Unknown), &mut rng);
    let Action::BuyDevCard(card) = drawn else { panic!("unexpected {drawn:?}") };
    assert!(card != DevCard::Unknown);
    let total: u32 = s.dev_card_deck.iter().map(|c| *c as u32).sum();
    assert_eq!(total, 24);
    assert_eq!(s.players[0].resources, [0, 0, 0, 0, 0]);
    assert!(!s.can_apply_action(&board, Action::BuyDevCard(DevCard::Unknown)));
}

#[test]
fn bank_trades_use_harbours() {
    let board = sample_board();
    let mut s = playing_state(&board);
    let mut rng = SmallRng::seed_from_u64(7);
    s.players[0].resources = [5, 0, 0, 0, 0];
    s.apply_action(&board, Action::BankTrade(Brick, Ore), &mut rng);
    assert_eq!(s.players[0].resources, [1, 0, 1, 0, 0]);
    // the brick harbour (harbour 0) is at vertices 0 and 1
    s.players[0].villages = 1 << 1;
    s.players[0].resources = [2, 0, 0, 0, 0];
    assert!(s.can_apply_action(&board, Action::BankTrade(Brick, Wood)));
    s.apply_action(&board, Action::BankTrade(Brick, Wood), &mut rng);
    assert_eq!(s.players[0].resources, [0, 1, 0, 0, 0]);
    // a 3:1 harbour (harbour 1, vertices 3 and 4)
    s.players[0].villages = 1 << 4;
    s.players[0].resources = [0, 0, 0, 3, 0];
    s.apply_action(&board, Action::BankTrade(Wheat, Sheep), &mut rng);
    assert_eq!(s.players[0].resources, [0, 0, 0, 0, 1]);
    assert!(!s.can_apply_action(&board, Action::BankTrade(Desert, Sheep)));
}

#[test]
fn knights_move_the_largest_army() {
    let board = sample_board();
    let mut s = playing_state(&board);
    let mut rng = SmallRng::seed_from_u64(8);
    s.players[0].dev_cards = [1, 0, 0, 0, 0];
    s.apply_action(&board, Action::PlayDevCard(DevCard::Knight), &mut rng);
    assert_eq!(s.largest_army, (Player::P0, 1));
    assert_eq!(s.players[0].vps, 2);
    assert_eq!(s.players[0].knights_played, 1);
    s.current_player = 1;
    s.players[1].dev_cards = [2, 0, 0, 0, 0];
    s.apply_action(&board, Action::PlayDevCard(DevCard::Knight), &mut rng);
    assert_eq!(s.largest_army, (Player::P0, 1), "a tie keeps the holder");
    s.apply_action(&board, Action::PlayDevCard(DevCard::Knight), &mut rng);
    assert_eq!(s.largest_army, (Player::P1, 2));
    assert_eq!(s.players[0].vps, 0);
    assert_eq!(s.players[1].vps, 2);
    assert!(!s.can_apply_action(&board, Action::PlayDevCard(DevCard::VP)));
}

#[test]
fn end_turn_passes_the_dice() {
    let mut board = sample_board();
    board.num_players = 2;
    let mut s = playing_state(&board);
    let mut rng = SmallRng::seed_from_u64(9);
    s.current_player = 1;
    s.players[1].bought_dev_cards = [1, 0, 0, 0, 1];
    s.apply_action(&board, Action::EndTurn, &mut rng);
    assert_eq!(s.current_player, 0);
    assert_eq!(s.players[1].bought_dev_cards, [0, 0, 0, 0, 0]);
}

#[test]
fn year_of_plenty_and_monopoly() {
    let board = sample_board();
    let mut s = playing_state(&board);
    let mut rng = SmallRng::seed_from_u64(10);
    s.apply_action(&board, Action::YoPResources(Ore, Ore), &mut rng);
    assert_eq!(s.players[0].resources, [0, 0, 2, 0, 0]);
    s.players[1].resources = [0, 0, 3, 0, 0];
    s.players[3].resources = [0, 0, 1, 0, 4];
    s.apply_action(&board, Action::MonopolyResource(Ore), &mut rng);
    assert_eq!(s.players[0].resources, [0, 0, 6, 0, 0]);
    assert_eq!(s.players[1].resources, [0, 0, 0, 0, 0]);
    assert_eq!(s.players[3].resources, [0, 0, 0, 0, 4]);
}

#[test]
fn robber_moves_and_steal_targets() {
    let board = sample_board();
    let mut s = playing_state(&board);
    let mut rng = SmallRng::seed_from_u64(11);
    assert_eq!(s.generate_actions(&board, Action::Roll(7)).bitflags, 0x7FFFF ^ (1 << 8));
    s.apply_action(&board, Action::MoveRobber(0), &mut rng);
    assert_eq!(s.robber, 0);
    // nobody at hex 0: the player to move robs itself
    assert_eq!(s.generate_steals(0).bitflags, 1);
    s.players[2].villages = 1 << 9;
    assert_eq!(s.generate_actions(&board, Action::MoveRobber(0)).bitflags, 1 << 2);
}

#[test]
fn generated_actions_follow_the_forced_case() {
    let board = sample_board();
    let mut s = playing_state(&board);
    s.players[0].villages = 1 << 0;
    s.players[0].roads_lower = 1 << 0;
    s.players[2].villages = 1 << 9;
    s.robber = 0;
    let flags = |a: Action| s.generate_actions(&board, a).bitflags;
    assert_eq!(flags(Action::Roll(7)), s.generate_robber_moves().bitflags);
    assert_eq!(flags(Action::PlayDevCard(DevCard::Knight)), s.generate_robber_moves().bitflags);
    assert_eq!(flags(Action::MoveRobber(0)), s.generate_steals(0).bitflags);
    assert_eq!(flags(Action::PlayDevCard(DevCard::YoP)), s.generate_yop_resources().bitflags);
    assert_eq!(flags(Action::PlayDevCard(DevCard::Monopoly)), s.generate_monopoly_resources().bitflags);
    assert_eq!(flags(Action::PlayDevCard(DevCard::RoadBuild)), s.generate_road_builds().bitflags);
    assert_eq!(flags(Action::RoadBuild1(0)), s.generate_road_builds().bitflags);
    assert_eq!(flags(Action::EndTurn), s.generate_actions_normal(&board).bitflags);
}

#[test]
fn building_in_a_normal_turn() {
    let board = sample_board();
    let mut s = playing_state(&board);
    let mut rng = SmallRng::seed_from_u64(12);
    s.players[0].villages = 1 << 0;
    s.players[0].roads_lower = 1 << 0;
    s.players[0].resources = [2, 2, 3, 3, 1];
    let a = s.generate_actions(&board, Action::EndTurn);
    // roads next to edge 0: edges 1 and 6; settle spot vertex 2; one city; end turn
    assert_eq!(a.bitflags & (1 << 39), 1 << 39);
    assert_eq!(a.bitflags & (1 << 13), 1 << 13);
    s.apply_action(&board, Action::Road(0), &mut rng);
    assert_eq!(s.players[0].roads_lower, 0b11);
    assert_eq!(s.longest_road, (Player::P0, 3));
    assert_eq!(s.players[0].vps, 2);
    s.apply_action(&board, Action::City(0), &mut rng);
    assert_eq!(s.players[0].cities, 1);
    assert_eq!(s.players[0].villages, 0);
    assert_eq!(s.players[0].vps, 3);
    assert_eq!(s.players[0].resources, [1, 1, 0, 1, 1]);
}

#[test]
fn road_builder_hands_out_materials() {
    let board = sample_board();
    let mut s = playing_state(&board);
    let mut rng = SmallRng::seed_from_u64(13);
    s.players[0].roads_lower = 1 << 0;
    s.apply_action(&board, Action::RoadBuild1(0), &mut rng);
    assert_eq!(s.players[0].roads_lower, 0b11);
    assert_eq!(s.players[0].resources, [0, 0, 0, 0, 0]);
    s.players[0].roads_left = 0;
    let before = s;
    s.apply_action(&board, Action::RoadBuild2(0), &mut rng);
    assert_eq!(s.players[0].roads_lower, before.players[0].roads_lower);
}

#[test]
fn game_records_actions() {
    let board = sample_board();
    let mut game = Game::new_from_board(board, 42);
    assert_eq!(game.last_action(), Action::none());
    assert_eq!(*game.board(), board);
    let r = game.apply_action(Action::InitialSettle(20));
    assert_eq!(r, Action::InitialSettle(20));
    assert_eq!(game.last_action(), Action::InitialSettle(20));
    assert_eq!(game.scores(), [1, 0, 0, 0]);
    assert!(!game.is_terminal());
    for _ in 0..50 {
        let n = game.roll_2d6();
        assert!((2..=12).contains(&n));
    }
    let mut state = *game.current_state();
    state.players[3].vps = 10;
    game.set_board_state(board, state);
    assert!(game.is_terminal());
    assert_eq!(Game::winner(game.current_state()), Some(Player::P3));
}

#[test]
fn random_games_reach_a_winner() {
    let board = sample_board();
    for seed in 0..3 {
        let mut game = Game::new_from_board(board, seed);
        let mut state = *game.current_state();
        let mut last = Action::none();
        while state.is_initial() {
            last = game.simulate_initial_step(&mut state).expect("initial placement");
        }
        let roll = game.simulate_first_roll(&mut state).expect("first roll");
        if roll == Action::Roll(7) {
            last = roll;
        }
        let mut steps = 0;
        while !state.is_terminal() && steps < 200_000 {
            last = game.simulate_step(&mut state, last).expect("simulation step");
            steps += 1;
        }
        assert!(state.is_terminal());
        let w = Game::winner(&state).unwrap();
        assert!(state.players[w.index()].vps >= 10);
    }
}

#[test]
fn search_expands_and_picks_most_visited() {
    let board = sample_board();
    let game = Game::new_from_board(board, 3);
    let mut mcts = Mcts::new(game);
    assert_eq!(mcts.arena.len(), 1);
    let root = mcts.root;
    assert_eq!(mcts.arena.get(root).available_actions.bitflags, (1u128 << 54) - 1);
    let mut last_child = root;
    for _ in 0..5 {
        let child = mcts.expand(root).expect("expansion");
        mcts.backpropagate(child, 0);
        last_child = child;
    }
    assert_eq!(mcts.arena.len(), 6);
    assert_eq!(mcts.arena.get(root).visits, 5);
    assert_eq!(mcts.arena.get(root).wins, [5, 0, 0, 0]);
    assert_eq!(mcts.arena.get(root).available_actions.bitflags.count_ones(), 49);
    // all children have one visit: the first in sibling order (the newest) is chosen
    assert_eq!(mcts.best_move(), mcts.arena.get(last_child).parent_action);
    // a second visit makes a child the best
    let first = NodeRefHelper::nth_child(&mcts, 4);
    mcts.backpropagate(first, 1);
    assert_eq!(mcts.best_move(), mcts.arena.get(first).parent_action);
}

struct NodeRefHelper;

impl NodeRefHelper {
    fn nth_child(m: &Mcts, n: usize) -> monte_catano::graph::NodeRef {
        let mut c = m.arena.get(m.root).first_child;
        for _ in 0..n {
            c = m.arena.get(c).next_sibling;
        }
        c
    }
}

#[test]
fn end_of_turn_expansion_adds_roll_children() {
    let board = sample_board();
    let mut game = Game::new_from_board(board, 5);
    let mut state = playing_state(&board);
    state.players[0].villages = 1 << 0;
    state.players[0].roads_lower = 1 << 0;
    game.set_board_state(board, state);
    let mut mcts = Mcts::new(game);
    // only ending the turn is possible
    assert_eq!(mcts.arena.get(mcts.root).available_actions.bitflags, 1 << 39);
    let child = mcts.expand(mcts.root).expect("expansion");
    // the end-of-turn node and its eleven roll children
    assert_eq!(mcts.arena.len(), 13);
    let end = mcts.arena.get(mcts.root).first_child;
    // the child returned is the end-of-turn node itself
    assert_eq!(child, end);
    assert_eq!(mcts.arena.get(child).parent, mcts.root);
    assert!(mcts.arena.get(end).is_end_turn());
    assert!(mcts.arena.get(end).is_chance_node());
    let first = mcts.arena.get(end).first_child.0;
    // the playout goes on from a roll drawn below it
    let next = mcts.enter_outcome(child);
    assert!(next.0 >= first && next.0 <= first + 10);
    assert_eq!(mcts.arena.len(), 13);
    // a node that is no chance node is kept
    let seven_ref = monte_catano::graph::NodeRef(first + 5);
    assert_eq!(mcts.enter_outcome(seven_ref), seven_ref);
    let seven = mcts.arena.get(monte_catano::graph::NodeRef(first + 5));
    assert_eq!(seven.parent_action, Action::Roll(7));
    assert_eq!(seven.state.current_player, 1);
}

#[test]
fn ending_the_turn_after_another_expansion_returns_the_end_node() {
    let board = sample_board();
    let mut game = Game::new_from_board(board, 6);
    let mut state = playing_state(&board);
    state.players[0].villages = 1 << 0;
    state.players[0].roads_lower = 1 << 0;
    state.players[0].resources = [1, 1, 0, 0, 0];
    game.set_board_state(board, state);
    let mut mcts = Mcts::new(game);
    let root = mcts.root;
    let tried = mcts.arena.get(root).available_actions.bitflags.count_ones();
    assert!(tried >= 2);
    let mut returned = Vec::new();
    for _ in 0..tried {
        let before = mcts.arena.len();
        let child = mcts.expand(root).expect("expansion");
        assert_eq!(mcts.arena.get(child).parent, root);
        if !mcts.arena.get(child).is_end_turn() {
            assert!(child.0 >= before);
            assert_eq!(mcts.arena.get(root).first_child, child);
        }
        returned.push(child);
    }
    // one end-of-turn node, made by the first expansion, whatever was tried first
    let mut ends = Vec::new();
    let mut c = mcts.arena.get(root).first_child;
    while c.is_valid() {
        let n = mcts.arena.get(c);
        if n.is_end_turn() {
            ends.push(c);
            c = monte_catano::graph::NodeRef::invalid();
        } else {
            c = n.next_sibling;
        }
    }
    assert_eq!(ends.len(), 1);
    assert_eq!(ends[0].0, 1);
    assert!(returned.contains(&ends[0]));
}

#[test]
fn a_producing_desert_only_matters_with_buildings() {
    let mut board = sample_board();
    board.numbers[8] = 5; // the desert hex now carries a 5
    let mut s = playing_state(&board);
    s.robber = 0;
    assert!(s.can_apply_action(&board, Action::Roll(5)));
    // hex 8 has corners 18, 19, 20, 29, 30 and 31
    s.players[1].villages = 1 << 20;
    assert!(!s.can_apply_action(&board, Action::Roll(5)));
    assert!(s.can_apply_action(&board, Action::Roll(6)));
}

#[test]
fn every_generated_action_applies() {
    let board = sample_board();
    let mut s = playing_state(&board);
    s.players[0].villages = (1 << 0) | (1 << 10);
    s.players[0].roads_lower = (1 << 0) | (1 << 1);
    s.players[0].resources = [4, 4, 4, 4, 4];
    s.players[0].dev_cards = [1, 1, 1, 1, 0];
    s.players[1].villages = 1 << 20;
    s.players[1].resources = [1, 0, 2, 0, 1];
    let mut rng = SmallRng::seed_from_u64(30);
    for parent in [
        Action::EndTurn,
        Action::Roll(7),
        Action::MoveRobber(4),
        Action::PlayDevCard(DevCard::YoP),
        Action::PlayDevCard(DevCard::Monopoly),
        Action::PlayDevCard(DevCard::RoadBuild),
        Action::RoadBuild1(0),
    ] {
        let mut actions = s.generate_actions(&board, parent);
        let mut n = 0;
        while !actions.is_empty() {
            let a = actions.select_random_untried_action(&mut rng, parent);
            assert!(s.can_apply_action(&board, a), "{a:?} after {parent:?} cannot be applied");
            let mut t = s;
            t.apply_action(&board, a, &mut rng);
            n += 1;
        }
        assert!(n > 0, "nothing generated after {parent:?}");
    }
}

#[test]
fn match_steps_follow_the_seats() {
    let mut state = GameState::default();
    state.players[0].roads_left = 13;
    state.current_player = 0;
    assert_eq!(match_step(MatchPhase::Local, &state, 0), (MatchPhase::Local, MatchMove::Search));
    state.current_player = 1;
    assert_eq!(match_step(MatchPhase::Local, &state, 0), (MatchPhase::Opponent, MatchMove::Roll));
    assert_eq!(match_step(MatchPhase::Opponent, &state, 0), (MatchPhase::Opponent, MatchMove::Ask));
    state.current_player = 0;
    assert_eq!(match_step(MatchPhase::Opponent, &state, 0), (MatchPhase::Local, MatchMove::Roll));
    state.players[0].roads_left = 15;
    assert_eq!(match_step(MatchPhase::Opponent, &state, 0), (MatchPhase::Local, MatchMove::Pass));
    state.current_player = 1;
    assert_eq!(match_step(MatchPhase::Local, &state, 0), (MatchPhase::Opponent, MatchMove::Pass));
    state.players[1].vps = 10;
    assert_eq!(match_step(MatchPhase::Local, &state, 0).1, MatchMove::Done);
    assert_eq!(match_step(MatchPhase::Opponent, &state, 0).1, MatchMove::Done);
}

#[test]
fn simulate_plays_to_a_winner() {
    let board = sample_board();
    for seed in 0..3 {
        let mut game = Game::new_from_board(board, seed);
        let state = *game.current_state();
        let w = game.simulate(state, Action::none()).expect("random play finishes");
        assert!(w.index() < 4);
        // the game itself is untouched by the playout
        assert_eq!(game.current_state().players[0].roads_left, 15);
    }
}

#[test]
fn finished_playouts_count_on_the_path() {
    let board = sample_board();
    let game = Game::new_from_board(board, 5);
    let mut mcts = Mcts::new(game);
    let root = mcts.root;
    let mut wins = [0u32; 4];
    for _ in 0..4 {
        let w = mcts.finish_playout(root).expect("playout finishes");
        wins[w.index()] += 1;
    }
    let r = mcts.arena.get(root);
    assert_eq!(r.visits, 4);
    assert_eq!(r.wins, wins);
    // every playout added one child below the root
    let mut children = 0;
    let mut c = r.first_child;
    while c.is_valid() {
        let n = mcts.arena.get(c);
        assert_eq!(n.visits, 1);
        children += 1;
        c = n.next_sibling;
    }
    assert_eq!(children, 4);
}

#[test]
fn ranked_moves_list_best_rate_first() {
    let board = sample_board();
    let game = Game::new_from_board(board, 9);
    let mut mcts = Mcts::new(game);
    let root = mcts.root;
    for _ in 0..12 {
        mcts.finish_playout(root).expect("playout finishes");
    }
    let ranked = mcts.ranked_moves(0);
    assert_eq!(ranked.len(), 12);
    let key = |r: &monte_catano::graph::NodeRef| {
        let n = mcts.arena.get(*r);
        (n.wins[0] as u64 * 1000) / n.visits.max(1) as u64
    };
    for w in ranked.windows(2) {
        let (a, b) = (key(&w[0]), key(&w[1]));
        assert!(a > b || (a == b && w[0].0 < w[1].0));
    }
    let mut seen: Vec<usize> = ranked.iter().map(|r| r.0).collect();
    seen.sort();
    seen.dedup();
    assert_eq!(seen.len(), 12);
}

#[test]
fn finished_games_give_their_winner() {
    let board = sample_board();
    let mut game = Game::new_from_board(board, 4);
    let mut state = *game.current_state();
    for p in state.players.iter_mut() {
        p.roads_left = 13;
    }
    state.players[2].vps = 10;
    state.players[3].vps = 11;
    assert_eq!(game.simulate(state, Action::EndTurn), Some(Player::P2));
    game.set_board_state(board, state);
    let mut mcts = Mcts::new(game);
    let root = mcts.root;
    assert_eq!(mcts.finish_playout(root), Some(Player::P2));
    let r = mcts.arena.get(root);
    assert_eq!(r.visits, 1);
    assert_eq!(r.wins, [0, 0, 1, 0]);
}

#[test]
fn match_steps_follow_the_seats_with_the_engine_second() {
    let mut state = GameState::default();
    state.players[0].roads_left = 13;
    state.current_player = 1;
    assert_eq!(match_step(MatchPhase::Local, &state, 1), (MatchPhase::Local, MatchMove::Search));
    assert_eq!(match_step(MatchPhase::Opponent, &state, 1), (MatchPhase::Local, MatchMove::Roll));
    state.current_player = 0;
    assert_eq!(match_step(MatchPhase::Opponent, &state, 1), (MatchPhase::Opponent, MatchMove::Ask));
    assert_eq!(match_step(MatchPhase::Local, &state, 1), (MatchPhase::Opponent, MatchMove::Roll));
}

#[test]
fn random_games_are_fair_boards_at_their_start() {
    let game = Game::new_random(3, 42).expect("a fair layout comes up");
    assert_eq!(game.board().num_players, 3);
    assert_eq!(game.current_state().players[0].roads_left, 15);
    let desert = monte_catano::board::first_desert(&game.board().resources).unwrap();
    assert_eq!(game.board().numbers[desert], 0);
    assert_eq!(game.current_state().robber as usize, desert);
    assert!(monte_catano::board::numbers_are_fair(&game.board().numbers));
    let again = Game::new_random(3, 42).unwrap();
    assert_eq!(again.board(), game.board());
}
