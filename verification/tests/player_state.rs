use monte_catano::player_state::PlayerState;

#[test]
fn test_longest_road_horizontal() {
    let mut p = PlayerState::default();
    p.roads_lower = 0x3F; // first 5 edges in a line
    p.calculate_longest_road(0);
    assert!(p.longest_road == 6, "horizontal longest road failed")
}

#[test]
fn test_longest_road_vertical() {
    let mut p = PlayerState::default();
    p.roads_lower = (1 << 1) | (1 << 7) | (1 << 13) | (1 << 20) | (1 << 27) | (1 << 35);
    p.calculate_longest_road(35);
    assert!(p.longest_road == 6, "vertical longest road failed")
}

#[test]
fn test_longest_road_middle() {
    let mut p = PlayerState::default();
    p.roads_lower = (1 << 6) | (1 << 10) | (1 << 0) | (1 << 1) | (1 << 2) | (1 << 3) | (1 << 8);
    p.calculate_longest_road(0);
    assert!(p.longest_road == 7, "middle longest road failed")
}

#[test]
fn test_longest_road_loop() {
    let mut p = PlayerState::default();
    p.roads_lower = (1 << 0) | (1 << 1) | (1 << 7) | (1 << 12) | (1 << 11) | (1 << 6);
    p.calculate_longest_road(0);
    assert!(p.longest_road == 6, "loop longest road failed")
}

#[test]
fn test_longest_road_branch() {
    let mut p = PlayerState::default();
    p.roads_lower = (1 << 7) | (1 << 2) | (1 << 11) | (1 << 12) | (1 << 13) | (1 << 14) | (1 << 15);
    p.longest_road = 5;
    p.calculate_longest_road(7);
    assert!(p.longest_road == 5, "branch longest road failed")
}

#[test]
fn test_longest_road_disjoint() {
    let mut p = PlayerState::default();
    p.roads_lower = (1 << 0) | (1 << 1) | (1 << 35) | (1 << 43) | (1 << 44);
    p.longest_road = 2;
    p.calculate_longest_road(35);
    assert!(p.longest_road == 3, "disjoint longest road failed")
}

#[test]
fn longest_road_never_shrinks() {
    let mut p = PlayerState::default();
    p.roads_lower = 1 << 0;
    p.longest_road = 9;
    p.calculate_longest_road(0);
    assert_eq!(p.longest_road, 9);
}

#[test]
fn default_player_holds_starting_resources() {
    let p = PlayerState::default();
    assert_eq!(p.resources, [4, 4, 0, 2, 2]);
    assert_eq!(p.roads_left, 15);
    assert_eq!(p.villages_left, 5);
    assert_eq!(p.cities_left, 4);
    assert_eq!(p.longest_road, 1);
    assert!(p.can_settle());
    assert!(p.can_road());
    assert!(!p.can_city());
    assert!(p.can_buy_dev_card() == false);
    assert!(!p.can_play_dev_card());
}

#[test]
fn roads_join_both_words() {
    let mut p = PlayerState::default();
    p.roads_lower = 1 << 3;
    p.roads_upper = 1 << 2;
    assert_eq!(p.roads(), (1u128 << 66) | (1u128 << 3));
}

#[test]
fn built_on_vertex_sees_villages_and_cities() {
    let mut p = PlayerState::default();
    p.villages = 1 << 10;
    p.cities = 1 << 20;
    assert!(p.has_built_on_vertex(10));
    assert!(p.has_built_on_vertex(20));
    assert!(!p.has_built_on_vertex(11));
}

#[test]
fn playable_card_needs_one_held_before_this_turn() {
    let mut p = PlayerState::default();
    p.dev_cards = [1, 0, 0, 0, 0];
    p.bought_dev_cards = [1, 0, 0, 0, 0];
    assert!(!p.can_play_dev_card());
    p.dev_cards = [2, 0, 0, 0, 0];
    assert!(p.can_play_dev_card());
    p.dev_cards = [0, 0, 0, 0, 3];
    p.bought_dev_cards = [0, 0, 0, 0, 0];
    assert!(!p.can_play_dev_card(), "victory point cards are not played");
}
