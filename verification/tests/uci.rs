use monte_catano::board::{Board, BoardStringError};
use monte_catano::uci::{read_command, UciCommand};

const SAMPLE: &str = "o10,s2,w9,g12,b6,s4,g10,w9,d0,o11,w3,b8,s8,g3,w4,b5,s5,o6,g11|bdwdodgds";

fn text(line: &str, r: (usize, usize)) -> &str {
    &line[r.0..r.1]
}

#[test]
fn reads_greetings() {
    assert!(matches!(read_command(4, "init"), UciCommand::Init));
    assert!(matches!(read_command(4, "isready"), UciCommand::IsReady));
    assert!(matches!(read_command(4, "stop"), UciCommand::Stop));
    assert!(matches!(read_command(4, "quit"), UciCommand::Quit));
}

#[test]
fn ignores_unknown_and_padded_commands() {
    assert!(matches!(read_command(4, ""), UciCommand::Ignored));
    assert!(matches!(read_command(4, "hello"), UciCommand::Ignored));
    assert!(matches!(read_command(4, " init"), UciCommand::Ignored));
    assert!(matches!(read_command(4, "INIT"), UciCommand::Ignored));
    assert!(matches!(read_command(4, "go"), UciCommand::Ignored));
    assert!(matches!(read_command(4, "go playouts 5 6"), UciCommand::Ignored));
}

#[test]
fn reads_newgame() {
    match read_command(4, "newgame players 2 seed 42") {
        UciCommand::NewGame { players, seed, bad_players, bad_seed } => {
            assert_eq!(players, 2);
            assert_eq!(seed, 42);
            assert_eq!(bad_players, None);
            assert_eq!(bad_seed, None);
        }
        other => panic!("unexpected {other:?}"),
    }
    match read_command(3, "newgame") {
        UciCommand::NewGame { players, seed, bad_players, bad_seed } => {
            assert_eq!((players, seed, bad_players, bad_seed), (4, 0, None, None));
        }
        other => panic!("unexpected {other:?}"),
    }
    match read_command(4, "newgame players +3 seed 18446744073709551615") {
        UciCommand::NewGame { players, seed, .. } => {
            assert_eq!(players, 3);
            assert_eq!(seed, u64::MAX);
        }
        other => panic!("unexpected {other:?}"),
    }
}

#[test]
fn reports_unreadable_newgame_numbers() {
    let line = "newgame players x seed 18446744073709551616";
    match read_command(2, line) {
        UciCommand::NewGame { players, seed, bad_players, bad_seed } => {
            assert_eq!(players, 4);
            assert_eq!(seed, 0);
            assert_eq!(text(line, bad_players.unwrap()), "x");
            assert_eq!(text(line, bad_seed.unwrap()), "18446744073709551616");
        }
        other => panic!("unexpected {other:?}"),
    }
    let line = "newgame players 256";
    match read_command(2, line) {
        UciCommand::NewGame { players, bad_players, bad_seed, .. } => {
            assert_eq!(players, 4);
            assert_eq!(text(line, bad_players.unwrap()), "256");
            assert_eq!(bad_seed, None);
        }
        other => panic!("unexpected {other:?}"),
    }
}

#[test]
fn reads_position_with_state() {
    let line = format!("position {SAMPLE} state (x:1)");
    match read_command(3, &line) {
        UciCommand::PositionState(board, r) => {
            assert_eq!(board, Board::from_cli_string(3, SAMPLE).unwrap());
            assert_eq!(board.num_players, 3);
            assert_eq!(text(&line, r), "(x:1)");
        }
        other => panic!("unexpected {other:?}"),
    }
}

#[test]
fn reads_position_with_actions() {
    let line = format!("position {SAMPLE} actions InitialSettle(3) InitialRoad(0) EndTurn");
    match read_command(4, &line) {
        UciCommand::PositionActions(board, texts) => {
            assert_eq!(board, Board::from_cli_string(4, SAMPLE).unwrap());
            let words: Vec<&str> = texts.iter().map(|r| text(&line, *r)).collect();
            assert_eq!(words, vec!["InitialSettle(3)", "InitialRoad(0)", "EndTurn"]);
        }
        other => panic!("unexpected {other:?}"),
    }
}

#[test]
fn reports_position_faults() {
    assert!(matches!(read_command(4, "position a b"), UciCommand::PositionArgsMissing(2)));
    assert!(matches!(read_command(4, "position"), UciCommand::PositionArgsMissing(0)));
    let line = "position x1|bdwdodgds state s";
    match read_command(4, line) {
        UciCommand::PositionBadBoard(e, r) => {
            assert_eq!(e, BoardStringError::WrongHexCount(1));
            assert_eq!(text(line, r), "x1|bdwdodgds");
        }
        other => panic!("unexpected {other:?}"),
    }
    let line = format!("position {SAMPLE} moves x");
    match read_command(4, &line) {
        UciCommand::PositionBadSubcommand(r) => assert_eq!(text(&line, r), "moves"),
        other => panic!("unexpected {other:?}"),
    }
}

#[test]
fn reads_go() {
    assert!(matches!(read_command(4, "go movetime 1500"), UciCommand::GoMovetime(1500)));
    assert!(matches!(read_command(4, "go playouts 7"), UciCommand::GoPlayouts(7)));
    let line = "go playouts -7";
    match read_command(4, line) {
        UciCommand::GoBadNumber(r) => assert_eq!(text(line, r), "-7"),
        other => panic!("unexpected {other:?}"),
    }
    let line = "go depth 7";
    match read_command(4, line) {
        UciCommand::GoBadSubcommand(r) => assert_eq!(text(line, r), "depth"),
        other => panic!("unexpected {other:?}"),
    }
}

#[test]
fn reads_apply() {
    assert!(matches!(read_command(4, "apply"), UciCommand::ApplyMissing));
    let line = "apply EndTurn";
    match read_command(4, line) {
        UciCommand::Apply(r) => assert_eq!(text(line, r), "EndTurn"),
        other => panic!("unexpected {other:?}"),
    }
    let line = "apply ";
    match read_command(4, line) {
        UciCommand::Apply(r) => assert_eq!(text(line, r), ""),
        other => panic!("unexpected {other:?}"),
    }
}
