use monte_catano::board::Board;
use monte_catano::game_data::Game;
use monte_catano::game_state::GameState;
use monte_catano::graph::{Action, Actions, Node, NodeRef};
use rand::rngs::SmallRng;
use rand::SeedableRng;
use monte_catano::types::DevCard;
use monte_catano::types::Resource::{Brick, Desert, Ore, Sheep, Wheat, Wood};

fn sample_board() -> Board {
    Board {
        num_players: 4,
        resources: [
            Ore, Sheep, Wood, Wheat, Brick, Sheep, Wheat, Wood, Desert, Ore, Wood, Brick, Sheep, Wheat, Wood,
            Brick, Sheep, Ore, Wheat,
        ],
        numbers: [10, 2, 9, 12, 6, 4, 10, 9, 0, 11, 3, 8, 8, 3, 4, 5, 5, 6, 11],
        ports: [Brick, Desert, Wood, Desert, Ore, Desert, Wheat, Desert, Sheep],
    }
}

#[test]
fn dice_totals_cover_two_to_twelve() {
    let mut game = Game::new_from_board(sample_board(), 99);
    let mut seen = [0u32; 13];
    for _ in 0..2000 {
        let n = game.roll_2d6();
        assert!((2..=12).contains(&n));
        seen[n] += 1;
    }
    assert!(seen[2..].iter().all(|c| *c > 0));
    assert!(seen[2..].iter().all(|c| *c <= seen[7]));
}

#[test]
fn drawn_flags_are_members_and_vary() {
    let mut rng = SmallRng::seed_from_u64(3);
    let mut seen = [false; 7];
    for _ in 0..300 {
        let mut actions = Actions { bitflags: 0b1111111 };
        let Action::InitialSettle(bit) = actions.select_random_untried_initial_action(&mut rng, true) else {
            panic!("not a settle")
        };
        assert!(bit < 7);
        assert_eq!(actions.bitflags, 0b1111111 ^ (1 << bit));
        seen[bit as usize] = true;
    }
    assert!(seen.iter().all(|x| *x));
}

#[test]
fn random_steals_take_a_card_the_victim_holds() {
    let board = sample_board();
    let mut rng = SmallRng::seed_from_u64(12);
    let mut got_wood = false;
    let mut got_sheep = false;
    for _ in 0..100 {
        let mut s = GameState::new(&board);
        for p in s.players.iter_mut() {
            p.roads_left = 13;
            p.resources = [0, 0, 0, 0, 0];
        }
        s.players[2].resources = [0, 3, 0, 0, 1];
        match s.apply_action(&board, Action::Steal(2, Desert), &mut rng) {
            Action::Steal(2, Wood) => got_wood = true,
            Action::Steal(2, Sheep) => got_sheep = true,
            other => panic!("unexpected {other:?}"),
        }
    }
    assert!(got_wood && got_sheep);
}

#[test]
fn bought_cards_come_from_the_deck() {
    let board = sample_board();
    let mut rng = SmallRng::seed_from_u64(13);
    let mut seen = [false; 5];
    for _ in 0..300 {
        let mut s = GameState::new(&board);
        for p in s.players.iter_mut() {
            p.roads_left = 13;
        }
        s.players[0].resources = [0, 0, 1, 1, 1];
        s.dev_card_deck = [3, 0, 2, 0, 1];
        assert!(s.can_apply_action(&board, Action::BuyDevCard(DevCard::Unknown)));
        let Action::BuyDevCard(card) = s.apply_action(&board, Action::BuyDevCard(DevCard::Unknown), &mut rng) else {
            panic!("not a purchase")
        };
        let k = card.index();
        assert!(k < 5 && [3, 0, 2, 0, 1][k] > 0);
        seen[k] = true;
    }
    assert_eq!(seen, [true, false, true, false, true]);
}

#[test]
fn weighted_card_children_only_hit_cards_in_the_deck() {
    let mut rng = SmallRng::seed_from_u64(5);
    let cards = chance_node(Action::BuyDevCard(DevCard::Unknown), [0, 3, 0, 1, 0], NodeRef::invalid());
    let mut seen = [0u32; 5];
    for _ in 0..300 {
        let r = cards.choose_child(&mut rng);
        seen[r.0 - 10] += 1;
    }
    assert_eq!(seen[0] + seen[2] + seen[4], 0);
    assert!(seen[1] > seen[3] && seen[3] > 0);
}

#[test]
fn seeded_games_repeat_and_clones_follow() {
    let mut a = Game::new_from_board(sample_board(), 17);
    let mut b = Game::new_from_board(sample_board(), 17);
    let mut other = Game::new_from_board(sample_board(), 18);
    let mut c = a.clone();
    let mut differs = false;
    for _ in 0..20 {
        let x = a.roll_2d6();
        assert_eq!(x, b.roll_2d6());
        assert_eq!(x, c.roll_2d6());
        if x != other.roll_2d6() {
            differs = true;
        }
    }
    assert!(differs);
}

fn chance_node(parent_action: Action, deck: [u8; 5], sibling: NodeRef) -> Node {
    let mut state = GameState::default();
    state.dev_card_deck = deck;
    state.players[0].roads_left = 13;
    Node {
        state,
        visits: 0,
        wins: [0; 4],
        available_actions: Actions::default(),
        parent: NodeRef::invalid(),
        parent_action,
        first_child: NodeRef(10),
        next_sibling: sibling,
    }
}

#[test]
fn chance_children() {
    let mut rng = SmallRng::seed_from_u64(8);
    let dice = chance_node(Action::EndTurn, [14, 2, 2, 2, 5], NodeRef::end_turn());
    assert!(dice.is_chance_node());
    let mut totals = [0u32; 11];
    for _ in 0..2000 {
        let r = dice.choose_child(&mut rng);
        assert!(r.0 >= 10 && r.0 <= 20);
        totals[r.0 - 10] += 1;
    }
    // a total of 7 is the most likely one
    assert!(totals.iter().all(|t| *t <= totals[5]));
    let cards = chance_node(Action::BuyDevCard(DevCard::Unknown), [0, 0, 3, 0, 0], NodeRef::invalid());
    assert!(cards.is_chance_node());
    for _ in 0..20 {
        assert_eq!(cards.choose_child(&mut rng), NodeRef(12));
    }
    let plain = chance_node(Action::Roll(5), [14, 2, 2, 2, 5], NodeRef::invalid());
    assert!(!plain.is_chance_node());
    assert_eq!(plain.choose_child(&mut rng), NodeRef(10));
}

#[test]
fn replaying_a_determined_steal_gives_the_same_state() {
    let board = sample_board();
    let mut s = GameState::new(&board);
    for p in s.players.iter_mut() {
        p.roads_left = 13;
        p.resources = [0, 0, 0, 0, 0];
    }
    s.players[2].resources = [0, 3, 0, 0, 1];
    let start = s;
    let mut rng = SmallRng::seed_from_u64(21);
    let determined = s.apply_action(&board, Action::Steal(2, Desert), &mut rng);
    let Action::Steal(2, got) = determined else { panic!("unexpected {determined:?}") };
    assert!(got == Wood || got == Sheep);
    let mut replay = start;
    assert!(replay.can_apply_action(&board, determined));
    assert_eq!(replay.apply_action(&board, determined, &mut rng), determined);
    for i in 0..4 {
        assert_eq!(replay.players[i].resources, s.players[i].resources);
    }
}

#[test]
fn last_action_is_the_recorded_one() {
    let mut game = Game::new_from_board(sample_board(), 1);
    game.apply_action(Action::InitialSettle(12));
    let r = game.apply_action(Action::InitialRoad(0));
    assert_eq!(game.last_action(), r);
}

#[test]
fn a_random_board_game_starts_cleanly() {
    let mut rng = SmallRng::seed_from_u64(4);
    let board = Board::new_random_fair(2, &mut rng).expect("a fair layout comes up");
    let desert = monte_catano::board::first_desert(&board.resources).unwrap();
    let game = Game::new_with_rng(board, rng);
    assert_eq!(game.current_state().robber as usize, desert);
    assert_eq!(game.current_state().players[0].resources, [4, 4, 0, 2, 2]);
}
