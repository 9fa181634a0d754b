//! The fixed part of a game: hex resources, dice numbers and harbours, the text form in
//! which boards are exchanged (`b6,w3,...,d0|bwogsdddd`), random boards with a fair
//! number layout, and the layout of a board's picture.

use vstd::prelude::*;
use vstd::string::{StringExecFns, StringSliceAdditionalSpecFns};
use vstd::utf8::{encode_utf8, is_ascii_chars_encode_utf8, is_ascii_chars};

use crate::topology::{hex_hexes, padded_row, spec_hex_hexes, NONE, NUM_HEXES};
use crate::rng::shuffle_array;
use crate::types::Resource;
use rand::rngs::SmallRng;

verus! {

/// Everything about the board that stays fixed during a game.
#[derive(Copy, Clone, Debug, PartialEq, Eq)]
pub struct Board {
    pub num_players: u8,
    pub resources: [Resource; 19],
    pub numbers: [u8; 19],
    pub ports: [Resource; 9],
}

/// Why a board string was rejected. The index says which hex or harbour was at fault.
#[derive(Copy, Clone, Debug, PartialEq, Eq, Structural)]
pub enum BoardStringError {
    /// The hex list does not have 19 entries; the count found.
    WrongHexCount(usize),
    /// There is no `|` and so no harbour list.
    MissingPorts,
    /// The harbour list does not have 9 bytes; the length found.
    WrongPortCount(usize),
    /// A hex entry is empty or does not start with a one-byte character.
    EmptyHex(usize),
    /// A hex entry does not start with a resource letter.
    InvalidResourceLetter(usize),
    /// A hex entry does not continue with a number from 0 to 255.
    InvalidNumber(usize),
    /// A harbour is not given by a lower-case resource letter.
    InvalidPortLetter(usize),
}

// ---------------------------------------------------------------------------
// Text form of a board
// ---------------------------------------------------------------------------

/// The byte of the lower-case letter of a resource.
pub open spec fn letter_byte(r: Resource) -> u8 {
    match r {
        Resource::Brick => 98u8,
        Resource::Wood => 119u8,
        Resource::Ore => 111u8,
        Resource::Wheat => 103u8,
        Resource::Sheep => 115u8,
        Resource::Desert => 100u8,
    }
}

/// Decimal digits of `n`, without leading zeros.
pub open spec fn decimal(n: nat) -> Seq<u8>
    decreases n,
{
    if n < 10 {
        seq![(48 + n) as u8]
    } else {
        decimal(n / 10).push((48 + n % 10) as u8)
    }
}

/// The entry of hex `i`: its resource letter followed by its number.
pub open spec fn hex_token(b: Board, i: int) -> Seq<u8> {
    seq![letter_byte(b.resources@[i])] + decimal(b.numbers@[i] as nat)
}

/// The entries of the first `n` hexes, separated by commas.
pub open spec fn hex_tokens(b: Board, n: int) -> Seq<u8>
    decreases n,
{
    if n <= 0 {
        seq![]
    } else if n == 1 {
        hex_token(b, 0)
    } else {
        hex_tokens(b, n - 1) + seq![44u8] + hex_token(b, n - 1)
    }
}

/// The letters of the first `n` harbours.
pub open spec fn port_letters(b: Board, n: int) -> Seq<u8>
    decreases n,
{
    if n <= 0 {
        seq![]
    } else {
        port_letters(b, n - 1).push(letter_byte(b.ports@[n - 1]))
    }
}

/// The board string as bytes: the hex entries, a `|`, and the harbour letters.
pub open spec fn spec_cli_bytes(b: Board) -> Seq<u8> {
    hex_tokens(b, 19) + seq![124u8] + port_letters(b, 9)
}

/// The characters of an ASCII byte string.
pub open spec fn ascii_chars(bytes: Seq<u8>) -> Seq<char> {
    Seq::new(bytes.len(), |i: int| bytes[i] as char)
}

// ---------------------------------------------------------------------------
// Reading a board string
// ---------------------------------------------------------------------------

/// The pieces of `s` between occurrences of `sep`, as `str::split` gives them.
pub open spec fn split_fields(s: Seq<u8>, sep: u8) -> Seq<Seq<u8>>
    decreases s.len(),
{
    if s.len() == 0 {
        seq![seq![]]
    } else {
        let rest = split_fields(s.drop_last(), sep);
        if s.last() == sep {
            rest.push(seq![])
        } else {
            rest.update(rest.len() - 1, rest.last().push(s.last()))
        }
    }
}

/// ASCII upper-case letters turned to lower case; other bytes unchanged.
pub open spec fn ascii_lower(c: u8) -> u8 {
    if 65 <= c <= 90 {
        (c + 32) as u8
    } else {
        c
    }
}

/// The resource of a lower-case resource letter.
pub open spec fn resource_of_letter(c: u8) -> Option<Resource> {
    if c == 98 {
        Some(Resource::Brick)
    } else if c == 119 {
        Some(Resource::Wood)
    } else if c == 111 {
        Some(Resource::Ore)
    } else if c == 103 {
        Some(Resource::Wheat)
    } else if c == 115 {
        Some(Resource::Sheep)
    } else if c == 100 {
        Some(Resource::Desert)
    } else {
        None
    }
}

/// All bytes of `d` are decimal digits.
pub open spec fn all_digits(d: Seq<u8>) -> bool {
    forall|i: int| 0 <= i < d.len() ==> 48 <= #[trigger] d[i] <= 57
}

/// The number written by the digits `d`.
pub open spec fn digits_value(d: Seq<u8>) -> nat
    decreases d.len(),
{
    if d.len() == 0 {
        0
    } else {
        digits_value(d.drop_last()) * 10 + (d.last() - 48) as nat
    }
}

/// `u8` parsing of `d`: an optional `+` followed by at least one digit, with a value
/// of at most 255.
pub open spec fn parse_u8(d: Seq<u8>) -> Option<u8> {
    let digits = if d.len() > 0 && d[0] == 43 {
        d.subrange(1, d.len() as int)
    } else {
        d
    };
    if digits.len() == 0 || !all_digits(digits) || digits_value(digits) > 255 {
        None
    } else {
        Some(digits_value(digits) as u8)
    }
}

/// `u64` parsing of `d`: an optional `+` followed by at least one digit, with a value
/// that fits a `u64`.
pub open spec fn parse_u64(d: Seq<u8>) -> Option<u64> {
    let digits = if d.len() > 0 && d[0] == 43 {
        d.subrange(1, d.len() as int)
    } else {
        d
    };
    if digits.len() == 0 || !all_digits(digits) || digits_value(digits) > u64::MAX {
        None
    } else {
        Some(digits_value(digits) as u64)
    }
}

/// The fault of hex entry number `i`, if any.
pub open spec fn hex_error(h: Seq<u8>, i: usize) -> Option<BoardStringError> {
    if h.len() == 0 || h[0] >= 128 {
        Some(BoardStringError::EmptyHex(i))
    } else if resource_of_letter(ascii_lower(h[0])) is None {
        Some(BoardStringError::InvalidResourceLetter(i))
    } else if parse_u8(h.subrange(1, h.len() as int)) is None {
        Some(BoardStringError::InvalidNumber(i))
    } else {
        None
    }
}

/// The first fault among the hex entries from number `i` on.
pub open spec fn first_hex_error(hexes: Seq<Seq<u8>>, i: int) -> Option<BoardStringError>
    decreases hexes.len() - i,
{
    if i < 0 || i >= hexes.len() {
        None
    } else if hex_error(hexes[i], i as usize) is Some {
        hex_error(hexes[i], i as usize)
    } else {
        first_hex_error(hexes, i + 1)
    }
}

/// The first harbour letter from position `i` on that is not a resource letter.
pub open spec fn first_port_error(ports: Seq<u8>, i: int) -> Option<BoardStringError>
    decreases ports.len() - i,
{
    if i < 0 || i >= ports.len() {
        None
    } else if resource_of_letter(ports[i]) is None {
        Some(BoardStringError::InvalidPortLetter(i as usize))
    } else {
        first_port_error(ports, i + 1)
    }
}

/// The resources, numbers and harbours of a board, as sequences.
pub type BoardParts = (Seq<Resource>, Seq<u8>, Seq<Resource>);

/// The resources, numbers and harbours that a board string describes, or the first
/// fault in it: the hex count, then the harbour list, then each hex in order, then each
/// harbour in order.
pub open spec fn spec_parse_board(s: Seq<u8>) -> Result<BoardParts, BoardStringError> {
    let fields = split_fields(s, 124u8);
    let hexes = split_fields(fields[0], 44u8);
    if hexes.len() != 19 {
        Err(BoardStringError::WrongHexCount(hexes.len() as usize))
    } else if fields.len() < 2 {
        Err(BoardStringError::MissingPorts)
    } else if fields[1].len() != 9 {
        Err(BoardStringError::WrongPortCount(fields[1].len() as usize))
    } else if first_hex_error(hexes, 0) is Some {
        Err(first_hex_error(hexes, 0)->0)
    } else if first_port_error(fields[1], 0) is Some {
        Err(first_port_error(fields[1], 0)->0)
    } else {
        Ok(
            (
                Seq::new(
                    19,
                    |i: int| resource_of_letter(ascii_lower(hexes[i][0]))->0,
                ),
                Seq::new(
                    19,
                    |i: int| parse_u8(hexes[i].subrange(1, hexes[i].len() as int))->0,
                ),
                Seq::new(9, |i: int| resource_of_letter(fields[1][i])->0),
            ),
        )
    }
}

/// The pieces of `bytes` between `from` and `to`, given by their ranges.
pub open spec fn ranges_view(bytes: Seq<u8>, ranges: Seq<(usize, usize)>) -> Seq<Seq<u8>> {
    Seq::new(ranges.len(), |i: int| bytes.subrange(ranges[i].0 as int, ranges[i].1 as int))
}

proof fn lemma_split_nonempty(s: Seq<u8>, sep: u8)
    ensures
        split_fields(s, sep).len() >= 1,
    decreases s.len(),
{
    if s.len() > 0 {
        lemma_split_nonempty(s.drop_last(), sep);
    }
}

/// Ranges of the pieces of `bytes[from..to]` between occurrences of `sep`.
pub(crate) fn split_ranges(bytes: &[u8], from: usize, to: usize, sep: u8) -> (r: Vec<(usize, usize)>)
    requires
        from <= to <= bytes@.len(),
    ensures
        ranges_view(bytes@, r@) == split_fields(bytes@.subrange(from as int, to as int), sep),
        r@.len() >= 1,
        forall|i: int| 0 <= i < r@.len() ==> from <= #[trigger] r@[i].0 <= r@[i].1 <= to,
{
    let mut r: Vec<(usize, usize)> = Vec::new();
    let mut start = from;
    let mut k = from;
    assert(bytes@.subrange(from as int, from as int) =~= seq![]);
    assert(ranges_view(bytes@, r@).push(bytes@.subrange(start as int, k as int)) =~= seq![
        seq![],
    ]);
    while k < to
        invariant
            from <= start <= k <= to <= bytes@.len(),
            forall|i: int| 0 <= i < r@.len() ==> from <= #[trigger] r@[i].0 <= r@[i].1 <= k,
            split_fields(bytes@.subrange(from as int, k as int), sep) == ranges_view(
                bytes@,
                r@,
            ).push(bytes@.subrange(start as int, k as int)),
        decreases to - k,
    {
        let ghost prefix = bytes@.subrange(from as int, k as int);
        let ghost next = bytes@.subrange(from as int, k + 1);
        assert(next.drop_last() =~= prefix);
        assert(next.last() == bytes@[k as int]);
        if bytes[k] == sep {
            r.push((start, k));
            start = k + 1;
            assert(bytes@.subrange(start as int, (k + 1) as int) =~= seq![]);
            assert(ranges_view(bytes@, r@).push(bytes@.subrange(start as int, (k + 1) as int))
                =~= split_fields(next, sep));
        } else {
            assert(bytes@.subrange(start as int, (k + 1) as int) =~= bytes@.subrange(
                start as int,
                k as int,
            ).push(bytes@[k as int]));
            assert(ranges_view(bytes@, r@).push(bytes@.subrange(start as int, (k + 1) as int))
                =~= split_fields(next, sep));
        }
        k = k + 1;
    }
    r.push((start, to));
    assert(ranges_view(bytes@, r@) =~= split_fields(
        bytes@.subrange(from as int, to as int),
        sep,
    ));
    r
}

/// The resource of a lower-case resource letter.
fn letter_resource(c: u8) -> (r: Option<Resource>)
    ensures
        r == resource_of_letter(c),
{
    if c == 98 {
        Some(Resource::Brick)
    } else if c == 119 {
        Some(Resource::Wood)
    } else if c == 111 {
        Some(Resource::Ore)
    } else if c == 103 {
        Some(Resource::Wheat)
    } else if c == 115 {
        Some(Resource::Sheep)
    } else if c == 100 {
        Some(Resource::Desert)
    } else {
        None
    }
}

/// `u8` parsing of `bytes[from..to]`.
pub(crate) fn parse_u8_range(bytes: &[u8], from: usize, to: usize) -> (r: Option<u8>)
    requires
        from <= to <= bytes@.len(),
    ensures
        r == parse_u8(bytes@.subrange(from as int, to as int)),
{
    let ghost d = bytes@.subrange(from as int, to as int);
    let start = if from < to && bytes[from] == 43 {
        from + 1
    } else {
        from
    };
    let ghost digits = bytes@.subrange(start as int, to as int);
    assert(d.len() == to - from);
    if from < to {
        assert(d[0] == bytes@[from as int]);
    }
    assert(from < to && bytes@[from as int] == 43 ==> digits =~= d.subrange(1, d.len() as int));
    assert(!(from < to && bytes@[from as int] == 43) ==> digits =~= d);
    assert(parse_u8(d) == (if digits.len() == 0 || !all_digits(digits) || digits_value(digits)
        > 255 {
        None
    } else {
        Some(digits_value(digits) as u8)
    }));
    if start == to {
        return None;
    }
    let mut value: u16 = 0;
    let mut j = start;
    assert(bytes@.subrange(start as int, start as int) =~= seq![]);
    while j < to
        invariant
            start <= j <= to <= bytes@.len(),
            digits == bytes@.subrange(start as int, to as int),
            d == bytes@.subrange(from as int, to as int),
            parse_u8(d) == (if digits.len() == 0 || !all_digits(digits) || digits_value(digits)
                > 255 {
                None
            } else {
                Some(digits_value(digits) as u8)
            }),
            all_digits(bytes@.subrange(start as int, j as int)),
            value as nat == if digits_value(bytes@.subrange(start as int, j as int)) > 255 {
                256
            } else {
                digits_value(bytes@.subrange(start as int, j as int))
            },
        decreases to - j,
    {
        let c = bytes[j];
        let ghost pre = bytes@.subrange(start as int, j as int);
        let ghost post = bytes@.subrange(start as int, j + 1);
        assert(post.drop_last() =~= pre);
        assert(post.last() == c);
        if c < 48 || c > 57 {
            assert(digits[j - start] == c);
            assert(!all_digits(digits));
            return None;
        }
        if value > 255 {
            value = 256;
        } else {
            value = value * 10 + (c - 48) as u16;
            if value > 255 {
                value = 256;
            }
        }
        j = j + 1;
    }
    assert(bytes@.subrange(start as int, to as int) =~= digits);
    if value > 255 {
        None
    } else {
        Some(value as u8)
    }
}

/// `u64` parsing of `bytes[from..to]`.
pub(crate) fn parse_u64_range(bytes: &[u8], from: usize, to: usize) -> (r: Option<u64>)
    requires
        from <= to <= bytes@.len(),
    ensures
        r == parse_u64(bytes@.subrange(from as int, to as int)),
{
    let ghost d = bytes@.subrange(from as int, to as int);
    let start = if from < to && bytes[from] == 43 {
        from + 1
    } else {
        from
    };
    let ghost digits = bytes@.subrange(start as int, to as int);
    assert(d.len() == to - from);
    if from < to {
        assert(d[0] == bytes@[from as int]);
    }
    assert(from < to && bytes@[from as int] == 43 ==> digits =~= d.subrange(1, d.len() as int));
    assert(!(from < to && bytes@[from as int] == 43) ==> digits =~= d);
    if start == to {
        return None;
    }
    let mut value: u64 = 0;
    let mut over = false;
    let mut j = start;
    assert(bytes@.subrange(start as int, start as int) =~= seq![]);
    while j < to
        invariant
            start <= j <= to <= bytes@.len(),
            digits == bytes@.subrange(start as int, to as int),
            d == bytes@.subrange(from as int, to as int),
            parse_u64(d) == (if digits.len() == 0 || !all_digits(digits) || digits_value(digits)
                > u64::MAX {
                None
            } else {
                Some(digits_value(digits) as u64)
            }),
            all_digits(bytes@.subrange(start as int, j as int)),
            over == (digits_value(bytes@.subrange(start as int, j as int)) > u64::MAX),
            !over ==> value as nat == digits_value(bytes@.subrange(start as int, j as int)),
        decreases to - j,
    {
        let c = bytes[j];
        let ghost pre = bytes@.subrange(start as int, j as int);
        let ghost post = bytes@.subrange(start as int, j + 1);
        assert(post.drop_last() =~= pre);
        assert(post.last() == c);
        if c < 48 || c > 57 {
            assert(digits[j - start] == c);
            assert(!all_digits(digits));
            return None;
        }
        assert(digits_value(post) == digits_value(pre) * 10 + (c - 48) as nat);
        if !over {
            match value.checked_mul(10) {
                Some(v) => match v.checked_add((c - 48) as u64) {
                    Some(w) => {
                        value = w;
                    },
                    None => {
                        over = true;
                    },
                },
                None => {
                    over = true;
                },
            }
        } else {
            assert(digits_value(post) >= digits_value(pre));
        }
        j = j + 1;
    }
    assert(bytes@.subrange(start as int, to as int) =~= digits);
    if over {
        None
    } else {
        Some(value)
    }
}

impl Board {
    /// The parts of the board as sequences.
    pub open spec fn parts(self) -> BoardParts {
        (self.resources@, self.numbers@, self.ports@)
    }

    /// The board in its text form: for each hex its resource letter and number, separated
    /// by commas, then `|` and one letter per harbour.
    pub fn cli_string(&self) -> (s: String)
        ensures
            s@ == ascii_chars(spec_cli_bytes(*self)),
    {
        let mut s = String::new();
        let mut i: usize = 0;
        assert(s@ =~= ascii_chars(hex_tokens(*self, 0)));
        while i < 19
            invariant
                i <= 19,
                s@ == ascii_chars(hex_tokens(*self, i as int)),
            decreases 19 - i,
        {
            if i > 0 {
                s.append(",");
                proof {
                    reveal_strlit(",");
                }
            }
            let ghost before = s@;
            s.append(self.resources[i].letter());
            append_decimal(&mut s, self.numbers[i]);
            proof {
                assert(s@ =~= before + ascii_chars(hex_token(*self, i as int)));
                if i == 0 {
                    assert(s@ =~= ascii_chars(hex_tokens(*self, 1)));
                } else {
                    assert(s@ =~= ascii_chars(hex_tokens(*self, i + 1)));
                }
            }
            i = i + 1;
        }
        s.append("|");
        proof {
            reveal_strlit("|");
        }
        let ghost mid = s@;
        let mut j: usize = 0;
        assert(s@ =~= ascii_chars(hex_tokens(*self, 19) + seq![124u8] + port_letters(*self, 0)));
        while j < 9
            invariant
                j <= 9,
                s@ == ascii_chars(hex_tokens(*self, 19) + seq![124u8] + port_letters(*self, j as int)),
            decreases 9 - j,
        {
            s.append(self.ports[j].letter());
            assert(s@ =~= ascii_chars(
                hex_tokens(*self, 19) + seq![124u8] + port_letters(*self, j + 1),
            ));
            j = j + 1;
        }
        s
    }

    /// Reads a board from its text form (see [`Board::cli_string`]) for `players`
    /// players. Hex letters may be upper case; harbour letters must be lower case. Only
    /// the first two `|`-separated parts are read.
    pub fn from_cli_string(players: u8, s: &str) -> (r: Result<Board, BoardStringError>)
        ensures
            match r {
                Ok(b) => b.num_players == players && spec_parse_board(s.spec_bytes()) == Ok::<
                    BoardParts,
                    BoardStringError,
                >(b.parts()),
                Err(e) => spec_parse_board(s.spec_bytes()) == Err::<BoardParts, BoardStringError>(e),
            },
    {
        let bytes = s.as_bytes();
        assert(bytes@.subrange(0, bytes@.len() as int) =~= bytes@);
        Self::from_cli_bytes(players, bytes, 0, bytes.len())
    }

    /// Reads a board from the text form held in `bytes[from..to]`, as
    /// [`Board::from_cli_string`] does.
    pub fn from_cli_bytes(players: u8, bytes: &[u8], from: usize, to: usize) -> (r: Result<Board, BoardStringError>)
        requires
            from <= to <= bytes@.len(),
        ensures
            match r {
                Ok(b) => b.num_players == players && spec_parse_board(bytes@.subrange(from as int, to as int))
                    == Ok::<BoardParts, BoardStringError>(b.parts()),
                Err(e) => spec_parse_board(bytes@.subrange(from as int, to as int)) == Err::<
                    BoardParts,
                    BoardStringError,
                >(e),
            },
    {
        let parts = split_ranges(bytes, from, to, 124u8);
        let ghost fields = split_fields(bytes@.subrange(from as int, to as int), 124u8);
        let (h0, h1) = parts[0];
        assert(fields[0] == bytes@.subrange(h0 as int, h1 as int));
        let hexes = split_ranges(bytes, h0, h1, 44u8);
        let ghost hs = split_fields(fields[0], 44u8);
        assert(hs.len() == hexes@.len());
        if hexes.len() != 19 {
            return Err(BoardStringError::WrongHexCount(hexes.len()));
        }
        if parts.len() < 2 {
            return Err(BoardStringError::MissingPorts);
        }
        let (p0, p1) = parts[1];
        assert(fields[1] == bytes@.subrange(p0 as int, p1 as int));
        if p1 - p0 != 9 {
            return Err(BoardStringError::WrongPortCount(p1 - p0));
        }
        let mut resources = [Resource::Desert; 19];
        let mut numbers = [0u8; 19];
        let mut i: usize = 0;
        while i < 19
            invariant
                i <= 19,
                fields == split_fields(bytes@.subrange(from as int, to as int), 124u8),
                hs == split_fields(fields[0], 44u8),
                fields.len() >= 2,
                fields[1].len() == 9,
                hexes@.len() == 19,
                hs == ranges_view(bytes@, hexes@),
                forall|j: int| 0 <= j < 19 ==> #[trigger] hexes@[j].0 <= hexes@[j].1 <= bytes@.len(),
                first_hex_error(hs, 0) == first_hex_error(hs, i as int),
                forall|j: int|
                    0 <= j < i ==> resources@[j] == resource_of_letter(
                        ascii_lower(#[trigger] hs[j][0]),
                    )->0,
                forall|j: int|
                    0 <= j < i ==> numbers@[j] == parse_u8(
                        #[trigger] hs[j].subrange(1, hs[j].len() as int),
                    )->0,
            decreases 19 - i,
        {
            let (a, e) = hexes[i];
            let ghost h = hs[i as int];
            assert(h == bytes@.subrange(a as int, e as int));
            assert(h.len() == e - a);
            if a < e {
                assert(h[0] == bytes@[a as int]);
            }
            if a == e || bytes[a] >= 128 {
                return Err(BoardStringError::EmptyHex(i));
            }
            assert(h[0] == bytes@[a as int]);
            let c = bytes[a];
            let lower = if 65 <= c && c <= 90 {
                c + 32
            } else {
                c
            };
            let res = match letter_resource(lower) {
                Some(r) => r,
                None => {
                    return Err(BoardStringError::InvalidResourceLetter(i));
                },
            };
            let number = match parse_u8_range(bytes, a + 1, e) {
                Some(n) => n,
                None => {
                    assert(h.subrange(1, h.len() as int) =~= bytes@.subrange(a + 1, e as int));
                    return Err(BoardStringError::InvalidNumber(i));
                },
            };
            assert(h.subrange(1, h.len() as int) =~= bytes@.subrange(a + 1, e as int));
            resources[i] = res;
            numbers[i] = number;
            i = i + 1;
        }
        let mut ports = [Resource::Desert; 9];
        let mut j: usize = 0;
        let ghost ps = fields[1];
        while j < 9
            invariant
                j <= 9,
                fields == split_fields(bytes@.subrange(from as int, to as int), 124u8),
                hs == split_fields(fields[0], 44u8),
                hs.len() == 19,
                fields.len() >= 2,
                fields[1] == ps,
                first_hex_error(hs, 0) is None,
                forall|j: int|
                    0 <= j < 19 ==> resources@[j] == resource_of_letter(
                        ascii_lower(#[trigger] hs[j][0]),
                    )->0,
                forall|j: int|
                    0 <= j < 19 ==> numbers@[j] == parse_u8(
                        #[trigger] hs[j].subrange(1, hs[j].len() as int),
                    )->0,
                p1 - p0 == 9,
                p0 <= p1 <= bytes@.len(),
                ps == bytes@.subrange(p0 as int, p1 as int),
                first_port_error(ps, 0) == first_port_error(ps, j as int),
                forall|k: int| 0 <= k < j ==> ports@[k] == resource_of_letter(#[trigger] ps[k])->0,
            decreases 9 - j,
        {
            assert(ps[j as int] == bytes@[p0 + j]);
            let port = match letter_resource(bytes[p0 + j]) {
                Some(r) => r,
                None => {
                    return Err(BoardStringError::InvalidPortLetter(j));
                },
            };
            ports[j] = port;
            j = j + 1;
        }
        let board = Board { num_players: players, resources, numbers, ports };
        assert(board.parts().0 =~= Seq::new(
            19,
            |i: int| resource_of_letter(ascii_lower(hs[i][0]))->0,
        ));
        assert(board.parts().1 =~= Seq::new(
            19,
            |i: int| parse_u8(hs[i].subrange(1, hs[i].len() as int))->0,
        ));
        assert(board.parts().2 =~= Seq::new(9, |i: int| resource_of_letter(ps[i])->0));
        Ok(board)
    }
}

/// Appends the decimal digits of `n` to `s`.
fn append_decimal(s: &mut String, n: u8)
    ensures
        final(s)@ == old(s)@ + ascii_chars(decimal(n as nat)),
{
    if n >= 100 {
        append_digit(s, n / 100);
        append_digit(s, (n / 10) % 10);
        append_digit(s, n % 10);
        assert((n as nat / 10) / 10 == n as nat / 100);
        assert((n as nat / 10) % 10 == (n / 10) % 10);
        assert(decimal(n as nat / 10) == decimal(n as nat / 100).push((48 + (n / 10) % 10) as u8));
        assert(decimal(n as nat) == decimal(n as nat / 10).push((48 + n % 10) as u8));
        assert(decimal(n as nat / 100) == seq![(48 + n / 100) as u8]);
    } else if n >= 10 {
        append_digit(s, n / 10);
        append_digit(s, n % 10);
        assert(decimal(n as nat) == decimal(n as nat / 10).push((48 + n % 10) as u8));
        assert(decimal(n as nat / 10) == seq![(48 + n / 10) as u8]);
    } else {
        append_digit(s, n);
    }
    assert(final(s)@ =~= old(s)@ + ascii_chars(decimal(n as nat)));
}

/// Appends the digit `d` to `s`.
fn append_digit(s: &mut String, d: u8)
    requires
        d < 10,
    ensures
        final(s)@ == old(s)@.push(((48 + d) as u8) as char),
{
    let t = match d {
        0 => {
            proof {
                reveal_strlit("0");
            }
            "0"
        },
        1 => {
            proof {
                reveal_strlit("1");
            }
            "1"
        },
        2 => {
            proof {
                reveal_strlit("2");
            }
            "2"
        },
        3 => {
            proof {
                reveal_strlit("3");
            }
            "3"
        },
        4 => {
            proof {
                reveal_strlit("4");
            }
            "4"
        },
        5 => {
            proof {
                reveal_strlit("5");
            }
            "5"
        },
        6 => {
            proof {
                reveal_strlit("6");
            }
            "6"
        },
        7 => {
            proof {
                reveal_strlit("7");
            }
            "7"
        },
        8 => {
            proof {
                reveal_strlit("8");
            }
            "8"
        },
        _ => {
            proof {
                reveal_strlit("9");
            }
            "9"
        },
    };
    s.append(t);
    assert(final(s)@ =~= old(s)@.push(((48 + d) as u8) as char));
}


// ---------------------------------------------------------------------------
// Reading back what was written
// ---------------------------------------------------------------------------

proof fn lemma_split_no_sep(s: Seq<u8>, sep: u8)
    requires
        !s.contains(sep),
    ensures
        split_fields(s, sep) == seq![s],
    decreases s.len(),
{
    if s.len() == 0 {
        assert(s =~= seq![]);
    } else {
        let t = s.drop_last();
        assert(!t.contains(sep)) by {
            if t.contains(sep) {
                let k = choose|k: int| 0 <= k < t.len() && t[k] == sep;
                assert(s[k] == sep);
            }
        }
        lemma_split_no_sep(t, sep);
        assert(s.last() != sep) by {
            assert(s[s.len() - 1] == s.last());
        }
        assert(t.push(s.last()) =~= s);
        assert(split_fields(s, sep) =~= seq![s]);
    }
}

proof fn lemma_split_concat(x: Seq<u8>, y: Seq<u8>, sep: u8)
    ensures
        split_fields(x + seq![sep] + y, sep) == split_fields(x, sep) + split_fields(y, sep),
    decreases y.len(),
{
    let s = x + seq![sep] + y;
    if y.len() == 0 {
        assert(s.drop_last() =~= x);
        assert(split_fields(s, sep) =~= split_fields(x, sep) + split_fields(y, sep));
    } else {
        let y1 = y.drop_last();
        lemma_split_concat(x, y1, sep);
        assert(s.drop_last() =~= x + seq![sep] + y1);
        lemma_split_nonempty(y1, sep);
        lemma_split_nonempty(x, sep);
        assert(split_fields(s, sep) =~= split_fields(x, sep) + split_fields(y, sep));
    }
}

proof fn lemma_decimal(n: nat)
    ensures
        all_digits(decimal(n)),
        decimal(n).len() >= 1,
        digits_value(decimal(n)) == n,
    decreases n,
{
    if n >= 10 {
        lemma_decimal(n / 10);
        let d = decimal(n);
        assert(d.drop_last() =~= decimal(n / 10));
        assert(d.last() == (48 + n % 10) as u8);
        assert(digits_value(d) == digits_value(d.drop_last()) * 10 + (d.last() - 48) as nat);
        assert((d.last() - 48) as nat == n % 10);
        assert((n / 10) * 10 + n % 10 == n) by (nonlinear_arith);
    } else {
        let d = decimal(n);
        assert(d.drop_last() =~= seq![]);
        assert(digits_value(d) == digits_value(d.drop_last()) * 10 + (d.last() - 48) as nat);
        assert(digits_value(d.drop_last()) == 0);
    }
}

proof fn lemma_decimal_parse(n: u8)
    ensures
        parse_u8(decimal(n as nat)) == Some(n),
{
    lemma_decimal(n as nat);
    let d = decimal(n as nat);
    assert(d[0] != 43);
}

/// A byte of a hex entry: a resource letter or a digit.
pub open spec fn token_byte(c: u8) -> bool {
    (48 <= c <= 57) || c == 98 || c == 119 || c == 111 || c == 103 || c == 115 || c == 100
}

proof fn lemma_token_bytes(b: Board, i: int)
    requires
        0 <= i < 19,
    ensures
        forall|k: int| 0 <= k < hex_token(b, i).len() ==> token_byte(#[trigger] hex_token(b, i)[k]),
        hex_error(hex_token(b, i), i as usize) is None,
        resource_of_letter(ascii_lower(hex_token(b, i)[0]))->0 == b.resources@[i],
        parse_u8(hex_token(b, i).subrange(1, hex_token(b, i).len() as int))->0 == b.numbers@[i],
{
    let t = hex_token(b, i);
    lemma_decimal(b.numbers@[i] as nat);
    lemma_decimal_parse(b.numbers@[i]);
    assert(t.subrange(1, t.len() as int) =~= decimal(b.numbers@[i] as nat));
    assert forall|k: int| 0 <= k < t.len() implies token_byte(#[trigger] t[k]) by {
        if k > 0 {
            assert(t[k] == decimal(b.numbers@[i] as nat)[k - 1]);
        }
    }
}

proof fn lemma_hex_tokens(b: Board, n: int)
    requires
        1 <= n <= 19,
    ensures
        split_fields(hex_tokens(b, n), 44u8) == Seq::new(n as nat, |i: int| hex_token(b, i)),
        forall|k: int|
            0 <= k < hex_tokens(b, n).len() ==> #[trigger] hex_tokens(b, n)[k] == 44u8
                || token_byte(hex_tokens(b, n)[k]),
    decreases n,
{
    lemma_token_bytes(b, n - 1);
    let t = hex_token(b, n - 1);
    assert(!t.contains(44u8)) by {
        if t.contains(44u8) {
            let k = choose|k: int| 0 <= k < t.len() && t[k] == 44u8;
            assert(token_byte(t[k]));
        }
    }
    lemma_split_no_sep(t, 44u8);
    if n == 1 {
        assert(Seq::new(1, |i: int| hex_token(b, i)) =~= seq![t]);
    } else {
        lemma_hex_tokens(b, n - 1);
        lemma_split_concat(hex_tokens(b, n - 1), t, 44u8);
        assert(split_fields(hex_tokens(b, n), 44u8) =~= Seq::new(
            n as nat,
            |i: int| hex_token(b, i),
        ));
        let h = hex_tokens(b, n);
        let h1 = hex_tokens(b, n - 1);
        assert forall|k: int| 0 <= k < h.len() implies #[trigger] h[k] == 44u8 || token_byte(
            h[k],
        ) by {
            if k < h1.len() {
                assert(h[k] == h1[k]);
            } else if k > h1.len() {
                assert(h[k] == t[k - h1.len() - 1]);
            }
        }
    }
}

proof fn lemma_port_letters(b: Board, n: int)
    requires
        0 <= n <= 9,
    ensures
        port_letters(b, n).len() == n,
        forall|k: int| 0 <= k < n ==> #[trigger] port_letters(b, n)[k] == letter_byte(b.ports@[k]),
    decreases n,
{
    if n > 0 {
        lemma_port_letters(b, n - 1);
    }
}

proof fn lemma_no_hex_error(b: Board, hexes: Seq<Seq<u8>>, i: int)
    requires
        0 <= i <= 19,
        hexes == Seq::new(19, |j: int| hex_token(b, j)),
    ensures
        first_hex_error(hexes, i) is None,
    decreases 19 - i,
{
    if i < 19 {
        lemma_token_bytes(b, i);
        lemma_no_hex_error(b, hexes, i + 1);
    }
}

proof fn lemma_no_port_error(b: Board, ports: Seq<u8>, i: int)
    requires
        0 <= i <= 9,
        ports == port_letters(b, 9),
    ensures
        first_port_error(ports, i) is None,
    decreases 9 - i,
{
    lemma_port_letters(b, 9);
    if i < 9 {
        lemma_no_port_error(b, ports, i + 1);
    }
}

/// Reading a board back from its text form gives the same hexes, numbers and harbours:
/// the parse of the bytes of [`Board::cli_string`] succeeds with the board's parts.
pub proof fn lemma_cli_round_trip(b: Board)
    ensures
        spec_parse_board(spec_cli_bytes(b)) == Ok::<BoardParts, BoardStringError>(b.parts()),
        encode_utf8(ascii_chars(spec_cli_bytes(b))) == spec_cli_bytes(b),
{
    let h = hex_tokens(b, 19);
    let p = port_letters(b, 9);
    let s = spec_cli_bytes(b);
    lemma_hex_tokens(b, 19);
    lemma_port_letters(b, 9);
    assert(!h.contains(124u8)) by {
        if h.contains(124u8) {
            let k = choose|k: int| 0 <= k < h.len() && h[k] == 124u8;
            assert(h[k] == 44u8 || token_byte(h[k]));
        }
    }
    assert(!p.contains(124u8)) by {
        if p.contains(124u8) {
            let k = choose|k: int| 0 <= k < p.len() && p[k] == 124u8;
            assert(p[k] == letter_byte(b.ports@[k]));
        }
    }
    lemma_split_no_sep(h, 124u8);
    lemma_split_no_sep(p, 124u8);
    lemma_split_concat(h, p, 124u8);
    let fields = split_fields(s, 124u8);
    assert(fields =~= seq![h, p]);
    let hexes = split_fields(h, 44u8);
    lemma_no_hex_error(b, hexes, 0);
    lemma_no_port_error(b, p, 0);
    assert forall|i: int| 0 <= i < 19 implies resource_of_letter(ascii_lower(#[trigger] hexes[i][0]))->0
        == b.resources@[i] && parse_u8(hexes[i].subrange(1, hexes[i].len() as int))->0
        == b.numbers@[i] by {
        lemma_token_bytes(b, i);
    }
    assert(Seq::new(19, |i: int| resource_of_letter(ascii_lower(hexes[i][0]))->0)
        =~= b.resources@);
    assert(Seq::new(19, |i: int| parse_u8(hexes[i].subrange(1, hexes[i].len() as int))->0)
        =~= b.numbers@);
    assert(Seq::new(9, |i: int| resource_of_letter(p[i])->0) =~= b.ports@);
    let chars = ascii_chars(s);
    assert forall|k: int| 0 <= k < s.len() implies #[trigger] s[k] < 128 by {
        if k < h.len() {
            assert(s[k] == h[k]);
            assert(h[k] == 44u8 || token_byte(h[k]));
        } else if k > h.len() {
            assert(s[k] == p[k - h.len() - 1]);
        }
    }
    assert(is_ascii_chars(chars));
    is_ascii_chars_encode_utf8(chars);
    assert(encode_utf8(chars) =~= s);
}


// ---------------------------------------------------------------------------
// Fair number layouts
// ---------------------------------------------------------------------------

/// Two numbers that may not lie on neighbouring hexes: both 6 or 8, both 2 or 12, or equal.
pub open spec fn numbers_clash(a: u8, b: u8) -> bool {
    ||| (a == 6 || a == 8) && (b == 6 || b == 8)
    ||| (a == 2 || a == 12) && (b == 2 || b == 12)
    ||| a == b
}

/// No two neighbouring hexes carry clashing numbers.
pub open spec fn spec_numbers_fair(numbers: Seq<u8>) -> bool {
    forall|h: int, k: int|
        0 <= h < 19 && 0 <= k < 6 && #[trigger] spec_hex_hexes(h)[k] != NONE ==> !numbers_clash(
            numbers[h],
            numbers[spec_hex_hexes(h)[k] as int],
        )
}

/// In a fair layout no two neighbouring hexes carry the same number, nor both a 6 or an
/// 8, nor both a 2 or a 12.
pub proof fn lemma_fair_neighbours(numbers: Seq<u8>, h: int, k: int)
    requires
        spec_numbers_fair(numbers),
        0 <= h < 19,
        0 <= k < 6,
        spec_hex_hexes(h)[k] != NONE,
    ensures
        ({
            let a = numbers[h];
            let b = numbers[spec_hex_hexes(h)[k] as int];
            &&& a != b
            &&& !((a == 6 || a == 8) && (b == 6 || b == 8))
            &&& !((a == 2 || a == 12) && (b == 2 || b == 12))
        }),
{
}

/// Whether a number layout keeps clashing numbers (6 and 8, 2 and 12, equal numbers)
/// apart.
pub fn numbers_are_fair(numbers: &[u8; 19]) -> (b: bool)
    ensures
        b == spec_numbers_fair(numbers@),
        b ==> forall|h: int, k: int|
            0 <= h < 19 && 0 <= k < 6 && #[trigger] spec_hex_hexes(h)[k] != NONE ==> numbers@[h]
                != numbers@[spec_hex_hexes(h)[k] as int],
{
    let mut h: usize = 0;
    while h < NUM_HEXES
        invariant
            h <= NUM_HEXES,
            forall|i: int, k: int|
                0 <= i < h && 0 <= k < 6 && #[trigger] spec_hex_hexes(i)[k] != NONE
                    ==> !numbers_clash(numbers@[i], numbers@[spec_hex_hexes(i)[k] as int]),
        decreases NUM_HEXES - h,
    {
        let row = hex_hexes(h);
        let number = numbers[h];
        let mut k: usize = 0;
        while k < 6 && row[k] != NONE
            invariant
                h < NUM_HEXES,
                k <= 6,
                row@ == spec_hex_hexes(h as int),
                padded_row(row@, NUM_HEXES),
                number == numbers@[h as int],
                forall|i: int, j: int|
                    0 <= i < h && 0 <= j < 6 && #[trigger] spec_hex_hexes(i)[j] != NONE
                        ==> !numbers_clash(numbers@[i], numbers@[spec_hex_hexes(i)[j] as int]),
                forall|j: int|
                    0 <= j < k ==> !numbers_clash(number, numbers@[#[trigger] row@[j] as int]),
            decreases 6 - k,
        {
            let neighbor = numbers[row[k]];
            if (number == 6 || number == 8) && (neighbor == 6 || neighbor == 8) {
                assert(spec_hex_hexes(h as int)[k as int] != NONE);
                return false;
            }
            if (number == 2 || number == 12) && (neighbor == 2 || neighbor == 12) {
                assert(spec_hex_hexes(h as int)[k as int] != NONE);
                return false;
            }
            if number == neighbor {
                assert(spec_hex_hexes(h as int)[k as int] != NONE);
                return false;
            }
            k = k + 1;
        }
        assert forall|i: int, j: int|
            0 <= i < h + 1 && 0 <= j < 6 && #[trigger] spec_hex_hexes(i)[j] != NONE implies !numbers_clash(
            numbers@[i],
            numbers@[spec_hex_hexes(i)[j] as int],
        ) by {
            if i == h && j >= k {
                assert(row@[k as int] == NONE);
            }
        }
        h = h + 1;
    }
    proof {
        assert forall|h: int, k: int|
            0 <= h < 19 && 0 <= k < 6 && #[trigger] spec_hex_hexes(h)[k] != NONE implies numbers@[h]
                != numbers@[spec_hex_hexes(h)[k] as int] by {
            lemma_fair_neighbours(numbers@, h, k);
        }
    }
    true
}

/// Position of the first desert hex, if there is one.
pub fn first_desert(resources: &[Resource; 19]) -> (r: Option<usize>)
    ensures
        match r {
            Some(i) => i < 19 && resources@[i as int] == Resource::Desert && forall|j: int|
                0 <= j < i ==> resources@[j] != Resource::Desert,
            None => forall|j: int| 0 <= j < 19 ==> resources@[j] != Resource::Desert,
        },
{
    let mut i: usize = 0;
    while i < 19
        invariant
            i <= 19,
            forall|j: int| 0 <= j < i ==> resources@[j] != Resource::Desert,
        decreases 19 - i,
    {
        if resources[i] == Resource::Desert {
            return Some(i);
        }
        i = i + 1;
    }
    None
}

/// Swaps the first 0 of the layout onto hex `desert`, so that the desert gets no number.
pub fn move_zero_to(numbers: &mut [u8; 19], desert: usize)
    requires
        desert < 19,
        exists|i: int| 0 <= i < 19 && old(numbers)@[i] == 0,
    ensures
        exists|z: int|
            0 <= z < 19 && old(numbers)@[z] == 0 && (forall|j: int|
                0 <= j < z ==> old(numbers)@[j] != 0) && final(numbers)@ == old(numbers)@.update(
                desert as int,
                old(numbers)@[z],
            ).update(z, old(numbers)@[desert as int]),
{
    let mut z: usize = 0;
    while numbers[z] != 0
        invariant
            z < 19,
            *numbers == *old(numbers),
            exists|i: int| z <= i < 19 && old(numbers)@[i] == 0,
            forall|j: int| 0 <= j < z ==> old(numbers)@[j] != 0,
        decreases 19 - z,
    {
        z = z + 1;
    }
    let a = numbers[desert];
    let b = numbers[z];
    numbers[desert] = b;
    numbers[z] = a;
    assert(numbers@ =~= old(numbers)@.update(desert as int, old(numbers)@[z as int]).update(
        z as int,
        old(numbers)@[desert as int],
    ));
}


/// One round of laying out the numbers fairly: shuffles `numbers`, moves its first 0 onto
/// the desert hex `desert`, and tells whether the layout keeps clashing numbers apart.
pub fn try_fair_numbers(rng: &mut SmallRng, numbers: &mut [u8; 19], desert: usize) -> (fair: bool)
    requires
        desert < 19,
        old(numbers)@.to_multiset().count(0u8) >= 1,
    ensures
        final(numbers)@.to_multiset() == old(numbers)@.to_multiset(),
        final(numbers)@[desert as int] == 0,
        fair == spec_numbers_fair(final(numbers)@),
{
    shuffle_array(rng, numbers);
    let ghost s = numbers@;
    proof {
        broadcast use vstd::seq_lib::to_multiset_contains;
        assert(s.to_multiset().contains(0u8));
        assert(s.contains(0u8));
    }
    move_zero_to(numbers, desert);
    proof {
        broadcast use vstd::seq_lib::to_multiset_update;
        broadcast use vstd::multiset::group_multiset_axioms;
        let z = choose|z: int|
            0 <= z < 19 && s[z] == 0 && (forall|j: int| 0 <= j < z ==> s[j] != 0) && numbers@ == s.update(
                desert as int,
                s[z],
            ).update(z, s[desert as int]);
        let s1 = s.update(desert as int, s[z]);
        assert(s1.to_multiset() == s.to_multiset().insert(s[z]).remove(s[desert as int]));
        assert(s1.update(z, s[desert as int]).to_multiset() == s1.to_multiset().insert(s[desert as int]).remove(s1[z]));
        if z == desert as int {
            assert(s1 =~= s);
            assert(s1.update(z, s[desert as int]) =~= s);
        } else {
            assert(s1[z] == s[z]);
            assert(s1.update(z, s[desert as int]).to_multiset() =~= s.to_multiset());
        }
    }
    numbers_are_fair(numbers)
}


// ---------------------------------------------------------------------------
// The picture of a board
// ---------------------------------------------------------------------------

/// A cell of the picture of a board: open water, a harbour, or a land hex with its
/// resource and number.
#[derive(Copy, Clone, Debug, PartialEq, Eq, Structural)]
pub enum Cell {
    Water,
    Harbour(Resource),
    Land(Resource, u8),
}

/// Number of cells in row `r` of the picture: the rows grow from five cells to nine and
/// shrink back.
pub open spec fn picture_row_len(r: int) -> int {
    if r <= 4 {
        5 + r
    } else {
        13 - r
    }
}

/// The land hex shown at row `r`, column `c` of the picture, if any: the land rows are the
/// middle five, with two cells of water on each side.
pub open spec fn land_at(r: int, c: int) -> Option<int> {
    let start: int = if r == 2 {
        0
    } else if r == 3 {
        3
    } else if r == 4 {
        7
    } else if r == 5 {
        12
    } else {
        16
    };
    if 2 <= r <= 6 && 2 <= c < picture_row_len(r) - 2 {
        Some(start + c - 2)
    } else {
        None
    }
}

/// The harbour shown at row `r`, column `c` of the picture, if any.
pub open spec fn harbour_at(r: int, c: int) -> Option<int> {
    if r == 1 && c == 1 {
        Some(0)
    } else if r == 1 && c == 3 {
        Some(1)
    } else if r == 3 && c == 1 {
        Some(2)
    } else if r == 2 && c == 5 {
        Some(3)
    } else if r == 4 && c == 7 {
        Some(4)
    } else if r == 5 && c == 1 {
        Some(5)
    } else if r == 6 && c == 5 {
        Some(6)
    } else if r == 7 && c == 1 {
        Some(7)
    } else if r == 7 && c == 3 {
        Some(8)
    } else {
        None
    }
}

/// The cell at row `r`, column `c` of the picture of board `b`.
pub open spec fn picture_cell(b: Board, r: int, c: int) -> Cell {
    match land_at(r, c) {
        Some(h) => Cell::Land(b.resources@[h], b.numbers@[h]),
        None => match harbour_at(r, c) {
            Some(k) => Cell::Harbour(b.ports@[k]),
            None => Cell::Water,
        },
    }
}

/// The harbour at row `r`, column `c` of the picture, if any.
fn harbour_index(r: usize, c: usize) -> (k: Option<usize>)
    ensures
        k == (match harbour_at(r as int, c as int) {
            Some(i) => Some(i as usize),
            None => None::<usize>,
        }),
{
    if r == 1 && c == 1 {
        Some(0)
    } else if r == 1 && c == 3 {
        Some(1)
    } else if r == 3 && c == 1 {
        Some(2)
    } else if r == 2 && c == 5 {
        Some(3)
    } else if r == 4 && c == 7 {
        Some(4)
    } else if r == 5 && c == 1 {
        Some(5)
    } else if r == 6 && c == 5 {
        Some(6)
    } else if r == 7 && c == 1 {
        Some(7)
    } else if r == 7 && c == 3 {
        Some(8)
    } else {
        None
    }
}

impl Board {
    /// The board as a picture: nine rows of hexes, the land in the middle surrounded by
    /// water with the harbours on it.
    pub fn picture(&self) -> (rows: Vec<Vec<Cell>>)
        ensures
            rows@.len() == 9,
            forall|r: int| 0 <= r < 9 ==> #[trigger] rows@[r]@.len() == picture_row_len(r),
            forall|r: int, c: int|
                0 <= r < 9 && 0 <= c < picture_row_len(r) ==> #[trigger] rows@[r]@[c] == picture_cell(*self, r, c),
    {
        let mut rows: Vec<Vec<Cell>> = Vec::new();
        let mut r: usize = 0;
        while r < 9
            invariant
                r <= 9,
                rows@.len() == r,
                forall|i: int| 0 <= i < r ==> #[trigger] rows@[i]@.len() == picture_row_len(i),
                forall|i: int, c: int|
                    0 <= i < r && 0 <= c < picture_row_len(i) ==> #[trigger] rows@[i]@[c] == picture_cell(*self, i, c),
            decreases 9 - r,
        {
            let len: usize = if r <= 4 {
                5 + r
            } else {
                13 - r
            };
            let start: usize = if r == 2 {
                0
            } else if r == 3 {
                3
            } else if r == 4 {
                7
            } else if r == 5 {
                12
            } else {
                16
            };
            let mut row: Vec<Cell> = Vec::new();
            let mut c: usize = 0;
            while c < len
                invariant
                    r < 9,
                    c <= len,
                    len == picture_row_len(r as int),
                    row@.len() == c,
                    start == (if r == 2 {
                        0
                    } else if r == 3 {
                        3
                    } else if r == 4 {
                        7
                    } else if r == 5 {
                        12
                    } else {
                        16int
                    }),
                    forall|j: int| 0 <= j < c ==> #[trigger] row@[j] == picture_cell(*self, r as int, j),
                decreases len - c,
            {
                let cell = if 2 <= r && r <= 6 && 2 <= c && c < len - 2 {
                    let h = start + c - 2;
                    Cell::Land(self.resources[h], self.numbers[h])
                } else {
                    match harbour_index(r, c) {
                        Some(k) => Cell::Harbour(self.ports[k]),
                        None => Cell::Water,
                    }
                };
                row.push(cell);
                c = c + 1;
            }
            rows.push(row);
            r = r + 1;
        }
        rows
    }
}

// ---------------------------------------------------------------------------
// Random boards
// ---------------------------------------------------------------------------

/// The land tiles of a board: three brick, four wood, three ore, four wheat, four sheep
/// and the desert.
pub open spec fn standard_tiles() -> Seq<Resource> {
    seq![
        Resource::Brick, Resource::Brick, Resource::Brick, Resource::Wood, Resource::Wood, Resource::Wood,
        Resource::Wood, Resource::Ore, Resource::Ore, Resource::Ore, Resource::Wheat, Resource::Wheat,
        Resource::Wheat, Resource::Wheat, Resource::Sheep, Resource::Sheep, Resource::Sheep, Resource::Sheep,
        Resource::Desert,
    ]
}

/// The number tokens of a board, with 0 for the desert.
pub open spec fn standard_numbers() -> Seq<u8> {
    seq![2u8, 3, 3, 4, 4, 5, 5, 6, 6, 8, 8, 9, 9, 10, 10, 11, 11, 12, 0]
}

/// The harbours of a board: one for each resource and four generic ones.
pub open spec fn standard_harbours() -> Seq<Resource> {
    seq![
        Resource::Brick, Resource::Wood, Resource::Ore, Resource::Wheat, Resource::Sheep, Resource::Desert,
        Resource::Desert, Resource::Desert, Resource::Desert,
    ]
}

impl Board {
    /// The board is one that [`Board::new_random_fair`] can give for `players` players:
    /// the standard tiles, numbers and harbours in some order, a fair number layout, and
    /// the 0 on the first desert.
    pub open spec fn is_standard_fair(self, players: u8) -> bool {
        &&& self.num_players == players
        &&& self.resources@.to_multiset() == standard_tiles().to_multiset()
        &&& self.numbers@.to_multiset() == standard_numbers().to_multiset()
        &&& self.ports@.to_multiset() == standard_harbours().to_multiset()
        &&& spec_numbers_fair(self.numbers@)
        &&& exists|d: int|
            0 <= d < 19 && #[trigger] self.resources@[d] == Resource::Desert && self.numbers@[d] == 0 && forall|j: int|
                0 <= j < d ==> self.resources@[j] != Resource::Desert
    }

    /// A random board for `players` players: the tiles and harbours shuffled, and the
    /// numbers shuffled until no clashing numbers touch, with the 0 on the (first) desert.
    /// Returns `None` if `u64::MAX` rounds in a row give no fair layout.
    pub fn new_random_fair(players: u8, rng: &mut SmallRng) -> (r: Option<Board>)
        ensures
            r matches Some(b) ==> b.is_standard_fair(players),
    {
        broadcast use vstd::seq_lib::to_multiset_contains;

        let mut resources = [
            Resource::Brick,
            Resource::Brick,
            Resource::Brick,
            Resource::Wood,
            Resource::Wood,
            Resource::Wood,
            Resource::Wood,
            Resource::Ore,
            Resource::Ore,
            Resource::Ore,
            Resource::Wheat,
            Resource::Wheat,
            Resource::Wheat,
            Resource::Wheat,
            Resource::Sheep,
            Resource::Sheep,
            Resource::Sheep,
            Resource::Sheep,
            Resource::Desert,
        ];
        assert(resources@ =~= standard_tiles());
        shuffle_array(rng, &mut resources);
        let desert = match first_desert(&resources) {
            Some(d) => d,
            None => {
                proof {
                    assert(standard_tiles()[18] == Resource::Desert);
                    assert(standard_tiles().contains(Resource::Desert));
                    assert(resources@.to_multiset().contains(Resource::Desert));
                    assert(resources@.contains(Resource::Desert));
                }
                return None;
            },
        };
        let mut numbers = [2u8, 3, 3, 4, 4, 5, 5, 6, 6, 8, 8, 9, 9, 10, 10, 11, 11, 12, 0];
        proof {
            assert(numbers@ =~= standard_numbers());
            assert(numbers@[18] == 0u8);
            assert(numbers@.contains(0u8));
            assert(numbers@.to_multiset().contains(0u8));
        }
        let mut fair = try_fair_numbers(rng, &mut numbers, desert);
        let mut rounds: u64 = 1;
        while !fair && rounds < u64::MAX
            invariant
                desert < 19,
                numbers@.to_multiset() == standard_numbers().to_multiset(),
                standard_numbers().to_multiset().count(0u8) >= 1,
                numbers@[desert as int] == 0,
                fair == spec_numbers_fair(numbers@),
            decreases u64::MAX - rounds,
        {
            fair = try_fair_numbers(rng, &mut numbers, desert);
            rounds = rounds + 1;
        }
        if !fair {
            return None;
        }
        let mut ports = [
            Resource::Brick,
            Resource::Wood,
            Resource::Ore,
            Resource::Wheat,
            Resource::Sheep,
            Resource::Desert,
            Resource::Desert,
            Resource::Desert,
            Resource::Desert,
        ];
        assert(ports@ =~= standard_harbours());
        shuffle_array(rng, &mut ports);
        let b = Board { num_players: players, resources, numbers, ports };
        assert(b.resources@[desert as int] == Resource::Desert && b.numbers@[desert as int] == 0);
        Some(b)
    }
}

} // verus!
