//! Reading the command lines of the engine's console protocol.
//!
//! A line is a command word followed by arguments, all separated by single spaces:
//! `init`, `isready`, `newgame players <N> seed <SEED>`, `position <BOARD> state <STATE>`,
//! `position <BOARD> actions <ACTION>...`, `go movetime <MS>`, `go playouts <N>`, `stop`,
//! `apply <ACTION>` and `quit`. States and actions are left as text (their ranges in the
//! line) for the caller to deserialize.

use vstd::prelude::*;
use vstd::string::StringSliceAdditionalSpecFns;

use crate::board::{
    parse_u64, parse_u64_range, parse_u8, parse_u8_range, spec_parse_board, split_fields, split_ranges, Board,
    BoardParts, BoardStringError,
};

verus! {

/// What a command line asks of the engine. Ranges are byte ranges of words of the line.
#[derive(Debug)]
pub enum UciCommand {
    /// `init`: the engine names itself.
    Init,
    /// `isready`: the engine answers that it is ready.
    IsReady,
    /// `newgame`: a new random game for `players` players from `seed`. A player count or
    /// seed that does not read is reported by its range, and 4 players or seed 0 are used.
    NewGame { players: u8, seed: u64, bad_players: Option<(usize, usize)>, bad_seed: Option<(usize, usize)> },
    /// `position` with fewer than three arguments; it holds how many there were.
    PositionArgsMissing(usize),
    /// `position` with a board string that does not read: the fault and the board's range.
    PositionBadBoard(BoardStringError, (usize, usize)),
    /// `position <BOARD> state <STATE>`: the board and the range of the state's text.
    PositionState(Board, (usize, usize)),
    /// `position <BOARD> actions ...`: the board and the ranges of the actions' texts.
    PositionActions(Board, Vec<(usize, usize)>),
    /// `position` with a second argument other than `state` or `actions`: its range.
    PositionBadSubcommand((usize, usize)),
    /// `go movetime <MS>`: search for that many milliseconds.
    GoMovetime(u64),
    /// `go playouts <N>`: search for that many playouts.
    GoPlayouts(u64),
    /// `go movetime` or `go playouts` with a number that does not read: its range.
    GoBadNumber((usize, usize)),
    /// `go` with a first argument other than `movetime` or `playouts`: its range.
    GoBadSubcommand((usize, usize)),
    /// `stop`: stop the running search.
    Stop,
    /// `apply` without an action.
    ApplyMissing,
    /// `apply <ACTION>`: the range of the action's text.
    Apply((usize, usize)),
    /// `quit`: stop the search and leave.
    Quit,
    /// Anything else, which is ignored.
    Ignored,
}

/// The words of a command line: the pieces between single spaces, as `str::split(' ')`
/// gives them.
pub open spec fn line_words(line: Seq<u8>) -> Seq<Seq<u8>> {
    split_fields(line, 32u8)
}

/// `init`
pub open spec fn kw_init() -> Seq<u8> {
    seq![105u8, 110, 105, 116]
}

/// `isready`
pub open spec fn kw_isready() -> Seq<u8> {
    seq![105u8, 115, 114, 101, 97, 100, 121]
}

/// `newgame`
pub open spec fn kw_newgame() -> Seq<u8> {
    seq![110u8, 101, 119, 103, 97, 109, 101]
}

/// `position`
pub open spec fn kw_position() -> Seq<u8> {
    seq![112u8, 111, 115, 105, 116, 105, 111, 110]
}

/// `state`
pub open spec fn kw_state() -> Seq<u8> {
    seq![115u8, 116, 97, 116, 101]
}

/// `actions`
pub open spec fn kw_actions() -> Seq<u8> {
    seq![97u8, 99, 116, 105, 111, 110, 115]
}

/// `go`
pub open spec fn kw_go() -> Seq<u8> {
    seq![103u8, 111]
}

/// `movetime`
pub open spec fn kw_movetime() -> Seq<u8> {
    seq![109u8, 111, 118, 101, 116, 105, 109, 101]
}

/// `playouts`
pub open spec fn kw_playouts() -> Seq<u8> {
    seq![112u8, 108, 97, 121, 111, 117, 116, 115]
}

/// `stop`
pub open spec fn kw_stop() -> Seq<u8> {
    seq![115u8, 116, 111, 112]
}

/// `apply`
pub open spec fn kw_apply() -> Seq<u8> {
    seq![97u8, 112, 112, 108, 121]
}

/// `quit`
pub open spec fn kw_quit() -> Seq<u8> {
    seq![113u8, 117, 105, 116]
}

/// `r` is the range of word `w` in `line`.
pub open spec fn names(line: Seq<u8>, r: (usize, usize), w: Seq<u8>) -> bool {
    r.0 <= r.1 <= line.len() && line.subrange(r.0 as int, r.1 as int) == w
}

/// `b` is the board that `parts` describe, for `players` players.
pub open spec fn board_of(b: Board, players: u8, parts: BoardParts) -> bool {
    b.num_players == players && b.parts() == parts
}

/// The player count of `newgame` with arguments `args`: the second argument read as a
/// `u8`, or 4 when it is missing or does not read.
pub open spec fn newgame_players(args: Seq<Seq<u8>>) -> u8 {
    if args.len() > 1 && parse_u8(args[1]) is Some {
        parse_u8(args[1])->0
    } else {
        4
    }
}

/// The seed of `newgame` with arguments `args`: the fourth argument read as a `u64`, or
/// 0 when it is missing or does not read.
pub open spec fn newgame_seed(args: Seq<Seq<u8>>) -> u64 {
    if args.len() > 3 && parse_u64(args[3]) is Some {
        parse_u64(args[3])->0
    } else {
        0
    }
}

/// `bad` reports argument `k` of `args` exactly when it is present and does not read.
pub open spec fn reports(line: Seq<u8>, args: Seq<Seq<u8>>, k: int, fails: bool, bad: Option<(usize, usize)>) -> bool {
    match bad {
        None => !(args.len() > k && fails),
        Some(r) => args.len() > k && fails && names(line, r, args[k]),
    }
}

/// `c` is what command line `line` asks of an engine whose current player count is
/// `players` (boards given by `position` are read for that many players).
pub open spec fn command_read(players: u8, line: Seq<u8>, c: UciCommand) -> bool {
    let words = line_words(line);
    let cmd = words[0];
    let args = words.subrange(1, words.len() as int);
    if cmd == kw_init() {
        c == UciCommand::Init
    } else if cmd == kw_isready() {
        c == UciCommand::IsReady
    } else if cmd == kw_newgame() {
        c matches UciCommand::NewGame { players: p, seed, bad_players, bad_seed } && {
            &&& p == newgame_players(args)
            &&& seed == newgame_seed(args)
            &&& reports(line, args, 1, args.len() > 1 && parse_u8(args[1]) is None, bad_players)
            &&& reports(line, args, 3, args.len() > 3 && parse_u64(args[3]) is None, bad_seed)
        }
    } else if cmd == kw_position() {
        if args.len() < 3 {
            c == UciCommand::PositionArgsMissing(args.len() as usize)
        } else {
            match spec_parse_board(args[0]) {
                Err(e) => c matches UciCommand::PositionBadBoard(e2, r) && e2 == e && names(line, r, args[0]),
                Ok(parts) => if args[1] == kw_state() {
                    c matches UciCommand::PositionState(b, r) && board_of(b, players, parts) && names(
                        line,
                        r,
                        args[2],
                    )
                } else if args[1] == kw_actions() {
                    c matches UciCommand::PositionActions(b, rs) && board_of(b, players, parts) && rs@.len()
                        == args.len() - 2 && forall|k: int|
                        0 <= k < rs@.len() ==> names(line, #[trigger] rs@[k], args[k + 2])
                } else {
                    c matches UciCommand::PositionBadSubcommand(r) && names(line, r, args[1])
                },
            }
        }
    } else if cmd == kw_go() && args.len() == 2 {
        if args[0] == kw_movetime() {
            match parse_u64(args[1]) {
                Some(v) => c == UciCommand::GoMovetime(v),
                None => c matches UciCommand::GoBadNumber(r) && names(line, r, args[1]),
            }
        } else if args[0] == kw_playouts() {
            match parse_u64(args[1]) {
                Some(v) => c == UciCommand::GoPlayouts(v),
                None => c matches UciCommand::GoBadNumber(r) && names(line, r, args[1]),
            }
        } else {
            c matches UciCommand::GoBadSubcommand(r) && names(line, r, args[0])
        }
    } else if cmd == kw_stop() {
        c == UciCommand::Stop
    } else if cmd == kw_apply() {
        if args.len() == 0 {
            c == UciCommand::ApplyMissing
        } else {
            c matches UciCommand::Apply(r) && names(line, r, args[0])
        }
    } else if cmd == kw_quit() {
        c == UciCommand::Quit
    } else {
        c == UciCommand::Ignored
    }
}

/// Whether `bytes[r.0..r.1]` is the word `w`.
fn word_is(bytes: &[u8], r: (usize, usize), w: &[u8]) -> (b: bool)
    requires
        r.0 <= r.1 <= bytes@.len(),
    ensures
        b == (bytes@.subrange(r.0 as int, r.1 as int) == w@),
{
    let ghost word = bytes@.subrange(r.0 as int, r.1 as int);
    if r.1 - r.0 != w.len() {
        assert(word.len() != w@.len());
        return false;
    }
    let mut k: usize = 0;
    while k < w.len()
        invariant
            k <= w@.len(),
            r.0 <= r.1 <= bytes@.len(),
            r.1 - r.0 == w@.len(),
            word == bytes@.subrange(r.0 as int, r.1 as int),
            forall|i: int| 0 <= i < k ==> word[i] == w@[i],
        decreases w@.len() - k,
    {
        if bytes[r.0 + k] != w[k] {
            assert(word[k as int] != w@[k as int]);
            return false;
        }
        k = k + 1;
    }
    assert(word =~= w@);
    true
}

/// Reads command line `line` for an engine whose current player count is `players`.
pub fn read_command(players: u8, line: &str) -> (c: UciCommand)
    ensures
        command_read(players, line.spec_bytes(), c),
{
    let bytes = line.as_bytes();
    let words = split_ranges(bytes, 0, bytes.len(), 32u8);
    let ghost ws = line_words(bytes@);
    proof {
        assert(bytes@.subrange(0, bytes@.len() as int) =~= bytes@);
        assert(ws == crate::board::ranges_view(bytes@, words@));
    }
    let ghost args = ws.subrange(1, ws.len() as int);
    let n = words.len();
    let cmd = words[0];
    assert(ws[0] == bytes@.subrange(cmd.0 as int, cmd.1 as int));
    assert forall|k: int| 0 <= k < args.len() implies #[trigger] args[k] == bytes@.subrange(
        words@[k + 1].0 as int,
        words@[k + 1].1 as int,
    ) by {
        assert(args[k] == ws[k + 1]);
    }
    if word_is(bytes, cmd, &[105u8, 110, 105, 116]) {
        assert([105u8, 110, 105, 116]@ =~= kw_init());
        return UciCommand::Init;
    }
    assert([105u8, 110, 105, 116]@ =~= kw_init());
    if word_is(bytes, cmd, &[105u8, 115, 114, 101, 97, 100, 121]) {
        assert([105u8, 115, 114, 101, 97, 100, 121]@ =~= kw_isready());
        return UciCommand::IsReady;
    }
    assert([105u8, 115, 114, 101, 97, 100, 121]@ =~= kw_isready());
    if word_is(bytes, cmd, &[110u8, 101, 119, 103, 97, 109, 101]) {
        assert([110u8, 101, 119, 103, 97, 109, 101]@ =~= kw_newgame());
        let mut new_players: u8 = 4;
        let mut bad_players: Option<(usize, usize)> = None;
        if n > 2 {
            let w = words[2];
            match parse_u8_range(bytes, w.0, w.1) {
                Some(p) => {
                    new_players = p;
                },
                None => {
                    bad_players = Some(w);
                },
            }
        }
        let mut seed: u64 = 0;
        let mut bad_seed: Option<(usize, usize)> = None;
        if n > 4 {
            let w = words[4];
            match parse_u64_range(bytes, w.0, w.1) {
                Some(s) => {
                    seed = s;
                },
                None => {
                    bad_seed = Some(w);
                },
            }
        }
        return UciCommand::NewGame { players: new_players, seed, bad_players, bad_seed };
    }
    assert([110u8, 101, 119, 103, 97, 109, 101]@ =~= kw_newgame());
    if word_is(bytes, cmd, &[112u8, 111, 115, 105, 116, 105, 111, 110]) {
        assert([112u8, 111, 115, 105, 116, 105, 111, 110]@ =~= kw_position());
        if n < 4 {
            return UciCommand::PositionArgsMissing(n - 1);
        }
        let b = words[1];
        let board = match Board::from_cli_bytes(players, bytes, b.0, b.1) {
            Ok(board) => board,
            Err(e) => {
                return UciCommand::PositionBadBoard(e, b);
            },
        };
        let sub = words[2];
        assert([115u8, 116, 97, 116, 101]@ =~= kw_state());
        assert([97u8, 99, 116, 105, 111, 110, 115]@ =~= kw_actions());
        if word_is(bytes, sub, &[115u8, 116, 97, 116, 101]) {
            return UciCommand::PositionState(board, words[3]);
        }
        if word_is(bytes, sub, &[97u8, 99, 116, 105, 111, 110, 115]) {
            let mut texts: Vec<(usize, usize)> = Vec::new();
            let mut k: usize = 3;
            while k < n
                invariant
                    3 <= k <= n,
                    n == words@.len(),
                    n == ws.len(),
                    args == ws.subrange(1, ws.len() as int),
                    texts@.len() == k - 3,
                    forall|j: int| 0 <= j < words@.len() ==> #[trigger] words@[j].0 <= words@[j].1 <= bytes@.len(),
                    forall|j: int|
                        0 <= j < args.len() ==> #[trigger] args[j] == bytes@.subrange(
                            words@[j + 1].0 as int,
                            words@[j + 1].1 as int,
                        ),
                    forall|j: int| 0 <= j < texts@.len() ==> names(bytes@, #[trigger] texts@[j], args[j + 2]),
                decreases n - k,
            {
                texts.push(words[k]);
                proof {
                    assert(names(bytes@, texts@[k - 3], args[k - 3 + 2]));
                }
                k = k + 1;
            }
            return UciCommand::PositionActions(board, texts);
        }
        return UciCommand::PositionBadSubcommand(sub);
    }
    assert([112u8, 111, 115, 105, 116, 105, 111, 110]@ =~= kw_position());
    if n == 3 && word_is(bytes, cmd, &[103u8, 111]) {
        assert([103u8, 111]@ =~= kw_go());
        let sub = words[1];
        let num = words[2];
        assert([109u8, 111, 118, 101, 116, 105, 109, 101]@ =~= kw_movetime());
        assert([112u8, 108, 97, 121, 111, 117, 116, 115]@ =~= kw_playouts());
        if word_is(bytes, sub, &[109u8, 111, 118, 101, 116, 105, 109, 101]) {
            return match parse_u64_range(bytes, num.0, num.1) {
                Some(v) => UciCommand::GoMovetime(v),
                None => UciCommand::GoBadNumber(num),
            };
        }
        if word_is(bytes, sub, &[112u8, 108, 97, 121, 111, 117, 116, 115]) {
            return match parse_u64_range(bytes, num.0, num.1) {
                Some(v) => UciCommand::GoPlayouts(v),
                None => UciCommand::GoBadNumber(num),
            };
        }
        return UciCommand::GoBadSubcommand(sub);
    }
    assert([103u8, 111]@ =~= kw_go());
    if word_is(bytes, cmd, &[115u8, 116, 111, 112]) {
        assert([115u8, 116, 111, 112]@ =~= kw_stop());
        return UciCommand::Stop;
    }
    assert([115u8, 116, 111, 112]@ =~= kw_stop());
    if word_is(bytes, cmd, &[97u8, 112, 112, 108, 121]) {
        assert([97u8, 112, 112, 108, 121]@ =~= kw_apply());
        if n < 2 {
            return UciCommand::ApplyMissing;
        }
        return UciCommand::Apply(words[1]);
    }
    assert([97u8, 112, 112, 108, 121]@ =~= kw_apply());
    if word_is(bytes, cmd, &[113u8, 117, 105, 116]) {
        assert([113u8, 117, 105, 116]@ =~= kw_quit());
        return UciCommand::Quit;
    }
    assert([113u8, 117, 105, 116]@ =~= kw_quit());
    UciCommand::Ignored
}

} // verus!
