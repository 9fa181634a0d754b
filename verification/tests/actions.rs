use monte_catano::graph::{Action, Actions, NodeRef};
use rand::rngs::SmallRng;
use rand::SeedableRng;
use monte_catano::types::{DevCard, Resource};

#[test]
fn forced_continuations() {
    assert_eq!(Action::Roll(7).forced_continuation(), Some(Action::MoveRobber(0)));
    assert_eq!(Action::PlayDevCard(DevCard::Knight).forced_continuation(), Some(Action::MoveRobber(0)));
    assert_eq!(Action::MoveRobber(3).forced_continuation(), Some(Action::Steal(0, Resource::Desert)));
    assert_eq!(
        Action::PlayDevCard(DevCard::YoP).forced_continuation(),
        Some(Action::YoPResources(Resource::Desert, Resource::Desert))
    );
    assert_eq!(
        Action::PlayDevCard(DevCard::Monopoly).forced_continuation(),
        Some(Action::MonopolyResource(Resource::Desert))
    );
    assert_eq!(Action::PlayDevCard(DevCard::RoadBuild).forced_continuation(), Some(Action::RoadBuild1(0)));
    assert_eq!(Action::RoadBuild1(4).forced_continuation(), Some(Action::RoadBuild2(0)));
    assert_eq!(Action::Roll(8).forced_continuation(), None);
    assert_eq!(Action::EndTurn.forced_continuation(), None);
    assert!(Action::Roll(7).has_forced_continuation());
    assert!(!Action::RoadBuild2(1).has_forced_continuation());
    assert_eq!(Action::none(), Action::Settle(255));
}

#[test]
fn adding_flags() {
    let mut a = Actions::default();
    assert!(a.is_empty());
    a.add_settle(2);
    a.add_city(1);
    a.add_road(0);
    a.add_buy_dev_card();
    a.add_end_turn();
    a.add_play_dev_card(3);
    a.add_bank_trades(Resource::Ore);
    let expected = (1u128 << 2) | (1 << 14) | (1 << 18) | (1 << 38) | (1 << 39) | (1 << 43) | (0b1111 << 52);
    assert_eq!(a.bitflags, expected);
    assert!(!a.is_empty());
}

#[test]
fn initial_flags_and_robber_spots() {
    let mut a = Actions::default();
    a.add_initial_settles(0b1011);
    a.add_initial_roads(0b100);
    assert_eq!(a.bitflags, 0b1111);
    assert_eq!(Actions::generate_robber_without(4).bitflags, 0x7FFFF ^ (1 << 4));
    assert_eq!(Actions::from(5u128).bitflags, 5);
}

#[test]
fn take_nth_flag_counts_from_lowest() {
    let mut a = Actions::from(0b1010_0110u128);
    assert_eq!(a.take_nth_flag(2), 5);
    assert_eq!(a.bitflags, 0b1000_0110);
    assert_eq!(a.take_nth_flag(0), 1);
    assert_eq!(a.bitflags, 0b1000_0100);
}

#[test]
fn random_selection_takes_each_flag_once() {
    let mut rng = SmallRng::seed_from_u64(3);
    let mut a = Actions::from(0b1_0000_0100_0001u128);
    let mut seen = Vec::new();
    for _ in 0..3 {
        match a.select_random_untried_robber_action(&mut rng) {
            Action::MoveRobber(spot) => seen.push(spot),
            other => panic!("unexpected {other:?}"),
        }
    }
    seen.sort();
    assert_eq!(seen, vec![0, 6, 12]);
    assert!(a.is_empty());
}

#[test]
fn normal_action_decoding() {
    let mut rng = SmallRng::seed_from_u64(11);
    let mut a = Actions::from(1u128 << 45);
    assert_eq!(a.select_random_untried_normal_action(&mut rng), Action::BankTrade(Resource::Brick, Resource::Ore));
    let mut b = Actions::from(1u128 << 15);
    assert_eq!(b.select_random_untried_normal_action(&mut rng), Action::City(2));
    let mut c = Actions::from(1u128 << 20);
    assert_eq!(c.select_random_untried_normal_action(&mut rng), Action::Road(2));
    let mut d = Actions::from(1u128 << 38);
    assert_eq!(d.select_random_untried_normal_action(&mut rng), Action::BuyDevCard(DevCard::Unknown));
    let mut e = Actions::from(1u128 << 41);
    assert_eq!(e.select_random_untried_normal_action(&mut rng), Action::PlayDevCard(DevCard::Monopoly));
    let mut f = Actions::from(1u128 << 39);
    assert_eq!(f.select_random_untried_normal_action(&mut rng), Action::EndTurn);
}

#[test]
fn yop_monopoly_and_steal_decoding() {
    let mut rng = SmallRng::seed_from_u64(12);
    let mut a = Actions::from(1u128 << 18);
    assert_eq!(
        a.select_random_untried_yop_resources(&mut rng),
        Action::YoPResources(Resource::Wheat, Resource::Wheat)
    );
    let mut b = Actions::from(1u128 << 4);
    assert_eq!(b.select_random_untried_monopoly_resource(&mut rng), Action::MonopolyResource(Resource::Sheep));
    let mut c = Actions::from(1u128 << 2);
    assert_eq!(c.select_random_untried_steal_action(&mut rng), Action::Steal(2, Resource::Desert));
    let mut d = Actions::from(1u128 << 7);
    assert_eq!(d.select_random_untried_initial_action(&mut rng, true), Action::InitialSettle(7));
    let mut e = Actions::from(1u128 << 1);
    assert_eq!(e.select_random_untried_initial_action(&mut rng, false), Action::InitialRoad(1));
}

#[test]
fn road_build_with_nothing_left_picks_spot_zero() {
    let mut rng = SmallRng::seed_from_u64(5);
    let mut a = Actions::default();
    assert_eq!(a.select_random_untried_road_build(Action::RoadBuild2(9), &mut rng), Action::RoadBuild2(0));
    assert!(a.is_empty());
    assert_eq!(
        a.select_random_untried_action(&mut rng, Action::PlayDevCard(DevCard::RoadBuild)),
        Action::RoadBuild1(0)
    );
}

#[test]
fn node_ref_markers() {
    assert!(!NodeRef::invalid().is_valid());
    assert!(!NodeRef::end_turn().is_valid());
    assert!(!NodeRef::robber().is_valid());
    assert!(NodeRef(0).is_valid());
    assert!(NodeRef(123).is_valid());
}
