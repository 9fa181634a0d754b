use monte_catano::types::{DevCard, Player, Resource};

const ALL: [Resource; 5] = [Resource::Brick, Resource::Wood, Resource::Ore, Resource::Wheat, Resource::Sheep];

#[test]
fn trade_index_and_back() {
    for give in ALL {
        for get in ALL {
            if give != get {
                let i = give.trade_index(get);
                assert!(i < 4);
                assert_eq!(give.get_from_trade_index(i as usize), get);
            }
        }
    }
}

#[test]
fn trade_index_examples() {
    assert_eq!(Resource::Brick.trade_index(Resource::Wood), 0);
    assert_eq!(Resource::Wheat.trade_index(Resource::Sheep), 3);
    assert_eq!(Resource::Sheep.trade_index(Resource::Wheat), 3);
    assert_eq!(Resource::Ore.trade_index(Resource::Ore), 4);
    assert_eq!(Resource::Desert.trade_index(Resource::Brick), 4);
    assert_eq!(Resource::Wood.get_from_trade_index(0), Resource::Brick);
    assert_eq!(Resource::Desert.get_from_trade_index(2), Resource::Desert);
}

#[test]
fn conversions_from_numbers() {
    assert_eq!(Player::from_u8(2), Player::P2);
    assert_eq!(Player::from_u8(4), Player::PNone);
    assert_eq!(Resource::from_u8(3), Resource::Wheat);
    assert_eq!(Resource::from_u8(5), Resource::Desert);
    assert_eq!(DevCard::from_u8(4), DevCard::VP);
    assert_eq!(DevCard::from_u8(5), DevCard::Unknown);
    assert_eq!(Player::P3.index(), 3);
    assert_eq!(Resource::Sheep.index(), 4);
    assert_eq!(DevCard::RoadBuild.index(), 3);
}

#[test]
fn port_letters() {
    assert_eq!(Resource::Brick.port_letter(), " B");
    assert_eq!(Resource::Wheat.port_letter(), " G");
    assert_eq!(Resource::Desert.port_letter(), " ?");
}

#[test]
fn defaults() {
    assert_eq!(Player::default(), Player::PNone);
    assert_eq!(Resource::default(), Resource::Desert);
    assert_eq!(DevCard::default(), DevCard::Unknown);
}
