use monte_catano::board::{first_desert, numbers_are_fair, try_fair_numbers, Board, BoardStringError, Cell};
use monte_catano::types::Resource::{self, Brick, Desert, Ore, Sheep, Wheat, Wood};
use rand::rngs::SmallRng;
use rand::SeedableRng;

/// A random board with a fair number layout, built as the engine builds one.
fn fair_board(players: u8, rng: &mut SmallRng) -> Board {
    Board::new_random_fair(players, rng).expect("a fair layout comes up")
}

fn sample_board() -> Board {
    Board {
        num_players: 4,
        resources: [
            Ore, Sheep, Wood, Wheat, Brick, Sheep, Wheat, Wood, Desert, Ore, Wood, Brick, Sheep, Wheat, Wood,
            Brick, Sheep, Ore, Wheat,
        ],
        numbers: [10, 2, 9, 12, 6, 4, 10, 9, 0, 11, 3, 8, 8, 3, 4, 5, 5, 6, 11],
        ports: [Brick, Desert, Wood, Desert, Ore, Desert, Wheat, Desert, Sheep],
    }
}

const SAMPLE: &str = "o10,s2,w9,g12,b6,s4,g10,w9,d0,o11,w3,b8,s8,g3,w4,b5,s5,o6,g11|bdwdodgds";

#[test]
fn cli_string_round_trip() {
    for i in 0..100 {
        let mut rng = SmallRng::seed_from_u64(0xDEADBEEF + i);
        let board = fair_board(4, &mut rng);

        let string = board.cli_string();

        let parsed = Board::from_cli_string(4, &string).expect("round trip failed to parse");

        assert!(board == parsed, "round trip not equal: {string}");
    }
}

#[test]
fn cli_string_of_sample_board() {
    assert_eq!(sample_board().cli_string(), SAMPLE);
}

#[test]
fn parse_sample_board() {
    assert_eq!(Board::from_cli_string(4, SAMPLE), Ok(sample_board()));
}

#[test]
fn parse_keeps_player_count() {
    let b = Board::from_cli_string(3, SAMPLE).unwrap();
    assert_eq!(b.num_players, 3);
}

#[test]
fn parse_accepts_upper_case_hex_letters_and_plus_sign() {
    let s = "O10,s2,W9,g12,b6,s4,g10,w9,D0,o11,w3,b8,s8,g3,w4,b5,s5,o6,g+11|bdwdodgds";
    assert_eq!(Board::from_cli_string(4, s), Ok(sample_board()));
}

#[test]
fn parse_rejects_wrong_hex_count() {
    let s = "o10,s2|bdwdodgds";
    assert_eq!(Board::from_cli_string(4, s), Err(BoardStringError::WrongHexCount(2)));
}

#[test]
fn parse_rejects_missing_ports() {
    let s = "o10,s2,w9,g12,b6,s4,g10,w9,d0,o11,w3,b8,s8,g3,w4,b5,s5,o6,g11";
    assert_eq!(Board::from_cli_string(4, s), Err(BoardStringError::MissingPorts));
}

#[test]
fn parse_rejects_wrong_port_count() {
    let s = "o10,s2,w9,g12,b6,s4,g10,w9,d0,o11,w3,b8,s8,g3,w4,b5,s5,o6,g11|bdw";
    assert_eq!(Board::from_cli_string(4, s), Err(BoardStringError::WrongPortCount(3)));
}

#[test]
fn parse_rejects_empty_hex() {
    let s = "o10,,w9,g12,b6,s4,g10,w9,d0,o11,w3,b8,s8,g3,w4,b5,s5,o6,g11|bdwdodgds";
    assert_eq!(Board::from_cli_string(4, s), Err(BoardStringError::EmptyHex(1)));
}

#[test]
fn parse_rejects_invalid_resource_letter() {
    let s = "o10,s2,x9,g12,b6,s4,g10,w9,d0,o11,w3,b8,s8,g3,w4,b5,s5,o6,g11|bdwdodgds";
    assert_eq!(Board::from_cli_string(4, s), Err(BoardStringError::InvalidResourceLetter(2)));
}

#[test]
fn parse_rejects_invalid_number() {
    let s = "o10,s2,w9,g256,b6,s4,g10,w9,d0,o11,w3,b8,s8,g3,w4,b5,s5,o6,g11|bdwdodgds";
    assert_eq!(Board::from_cli_string(4, s), Err(BoardStringError::InvalidNumber(3)));
    let t = "o10,s2,w9,g12,b,s4,g10,w9,d0,o11,w3,b8,s8,g3,w4,b5,s5,o6,g11|bdwdodgds";
    assert_eq!(Board::from_cli_string(4, t), Err(BoardStringError::InvalidNumber(4)));
}

#[test]
fn parse_rejects_invalid_port_letter() {
    let s = "o10,s2,w9,g12,b6,s4,g10,w9,d0,o11,w3,b8,s8,g3,w4,b5,s5,o6,g11|bdwdoDgds";
    assert_eq!(Board::from_cli_string(4, s), Err(BoardStringError::InvalidPortLetter(5)));
}

#[test]
fn parse_reports_hex_count_before_other_faults() {
    let s = "x|";
    assert_eq!(Board::from_cli_string(4, s), Err(BoardStringError::WrongHexCount(1)));
}

#[test]
fn fair_layout_has_desert_zero_and_no_clashes() {
    let mut rng = SmallRng::seed_from_u64(7);
    let board = fair_board(4, &mut rng);
    let desert = first_desert(&board.resources).unwrap();
    assert_eq!(board.numbers[desert], 0);
    assert!(numbers_are_fair(&board.numbers));
    let mut sorted = board.numbers;
    sorted.sort();
    assert_eq!(sorted, [0, 2, 3, 3, 4, 4, 5, 5, 6, 6, 8, 8, 9, 9, 10, 10, 11, 11, 12]);
}

#[test]
fn clashing_layout_is_not_fair() {
    // hexes 0 and 1 are neighbours
    let mut numbers = [2, 3, 3, 4, 4, 5, 5, 6, 6, 8, 8, 9, 9, 10, 10, 11, 11, 12, 0];
    numbers[0] = 6;
    numbers[1] = 8;
    assert!(!numbers_are_fair(&numbers));
}

#[test]
fn random_boards_shuffle_tiles_and_harbours() {
    let mut rng = SmallRng::seed_from_u64(1);
    let standard_tiles = [
        Brick, Brick, Brick, Wood, Wood, Wood, Wood, Ore, Ore, Ore, Wheat, Wheat, Wheat, Wheat, Sheep, Sheep,
        Sheep, Sheep, Desert,
    ];
    let standard_ports = [Brick, Wood, Ore, Wheat, Sheep, Desert, Desert, Desert, Desert];
    let key = |r: &Resource| r.index();
    let mut tiles_moved = false;
    let mut ports_moved = false;
    for _ in 0..5 {
        let board = fair_board(3, &mut rng);
        assert_eq!(board.num_players, 3);
        if board.resources != standard_tiles {
            tiles_moved = true;
        }
        if board.ports != standard_ports {
            ports_moved = true;
        }
        let mut tiles = board.resources;
        tiles.sort_by_key(key);
        let mut expected = standard_tiles;
        expected.sort_by_key(key);
        assert_eq!(tiles, expected);
        let mut ports = board.ports;
        ports.sort_by_key(key);
        let mut expected = standard_ports;
        expected.sort_by_key(key);
        assert_eq!(ports, expected);
    }
    assert!(tiles_moved && ports_moved);
}

#[test]
fn first_desert_finds_first() {
    let mut r = [Brick; 19];
    assert_eq!(first_desert(&r), None);
    r[4] = Desert;
    r[9] = Desert;
    assert_eq!(first_desert(&r), Some(4));
}

#[test]
fn resource_letters() {
    let letters: Vec<&str> = [Brick, Wood, Ore, Wheat, Sheep, Desert].iter().map(|r: &Resource| r.letter()).collect();
    assert_eq!(letters, vec!["b", "w", "o", "g", "s", "d"]);
}

#[test]
fn picture_of_sample_board() {
    let rows = sample_board().picture();
    let lens: Vec<usize> = rows.iter().map(|r| r.len()).collect();
    assert_eq!(lens, vec![5, 6, 7, 8, 9, 8, 7, 6, 5]);
    assert_eq!(rows[0], vec![Cell::Water; 5]);
    assert_eq!(
        rows[1],
        vec![Cell::Water, Cell::Harbour(Brick), Cell::Water, Cell::Harbour(Desert), Cell::Water, Cell::Water]
    );
    assert_eq!(
        rows[2],
        vec![
            Cell::Water,
            Cell::Water,
            Cell::Land(Ore, 10),
            Cell::Land(Sheep, 2),
            Cell::Land(Wood, 9),
            Cell::Harbour(Desert),
            Cell::Water,
        ]
    );
    assert_eq!(rows[4][2], Cell::Land(Wood, 9));
    assert_eq!(rows[4][4], Cell::Land(Ore, 11));
    assert_eq!(rows[4][7], Cell::Harbour(Ore));
    assert_eq!(rows[6][4], Cell::Land(Wheat, 11));
    assert_eq!(rows[7][1], Cell::Harbour(Desert));
    assert_eq!(rows[7][3], Cell::Harbour(Sheep));
    let land: usize = rows.iter().flatten().filter(|c| matches!(c, Cell::Land(..))).count();
    let harbours: usize = rows.iter().flatten().filter(|c| matches!(c, Cell::Harbour(..))).count();
    assert_eq!((land, harbours), (19, 9));
}
