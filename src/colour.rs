use vstd::prelude::*;
use vstd::string::StringSliceAdditionalSpecFns;

use crate::pixel::Pixel;

verus! {

/// ASCII `,`, which separates the channels of a colour.
pub const COMMA: u8 = 44;

/// ASCII `+`, which may lead a channel.
pub const PLUS: u8 = 43;

/// Why a colour string was refused.
#[derive(Clone, Copy, Debug, PartialEq, Eq, Structural)]
pub enum RgbParseError {
    /// Some comma-separated piece is not a decimal number in `0..=255`.
    InvalidComponent,
    /// Every piece is a channel, but there are fewer than three.
    MissingComponent,
}

pub open spec fn is_digit(b: u8) -> bool {
    48 <= b <= 57
}

/// The number that the decimal digits `d` spell.
pub open spec fn decimal_value(d: Seq<u8>) -> int
    decreases d.len(),
{
    if d.len() == 0 {
        0
    } else {
        10 * decimal_value(d.drop_last()) + (d.last() - 48)
    }
}

/// `s` without a leading `+`.
pub open spec fn unsigned_digits(s: Seq<u8>) -> Seq<u8> {
    if s.len() > 0 && s[0] == PLUS {
        s.drop_first()
    } else {
        s
    }
}

/// A byte as a decimal string spells it: an optional `+`, then one or more digits whose
/// value fits a byte.
pub open spec fn parse_u8(s: Seq<u8>) -> Option<u8> {
    let d = unsigned_digits(s);
    if d.len() > 0 && (forall|i: int| 0 <= i < d.len() ==> is_digit(#[trigger] d[i])) && decimal_value(d)
        <= 255 {
        Some(decimal_value(d) as u8)
    } else {
        None
    }
}

/// The pieces of `s` between commas, in order; without a comma, `s` itself.
pub open spec fn comma_pieces(s: Seq<u8>) -> Seq<Seq<u8>>
    decreases s.len(),
{
    if s.len() == 0 {
        seq![Seq::<u8>::empty()]
    } else {
        let rest = comma_pieces(s.drop_last());
        if s.last() == COMMA {
            rest.push(Seq::<u8>::empty())
        } else {
            rest.update(rest.len() - 1, rest.last().push(s.last()))
        }
    }
}

/// The colour that `r,g,b` spells: every comma-separated piece must be a byte, and
/// the first three are red, green and blue.
pub open spec fn rgb_of(s: Seq<u8>) -> Result<Pixel, RgbParseError> {
    let pieces = comma_pieces(s);
    if exists|i: int| 0 <= i < pieces.len() && #[trigger] parse_u8(pieces[i]) is None {
        Err(RgbParseError::InvalidComponent)
    } else if pieces.len() < 3 {
        Err(RgbParseError::MissingComponent)
    } else {
        Ok(
            Pixel {
                r: parse_u8(pieces[0])->Some_0,
                g: parse_u8(pieces[1])->Some_0,
                b: parse_u8(pieces[2])->Some_0,
            },
        )
    }
}

proof fn lemma_comma_pieces_nonempty(s: Seq<u8>)
    ensures
        comma_pieces(s).len() >= 1,
    decreases s.len(),
{
    if s.len() > 0 {
        lemma_comma_pieces_nonempty(s.drop_last());
    }
}

/// Appending digits never makes a number smaller.
proof fn lemma_decimal_value_grows(d: Seq<u8>, n: int)
    requires
        0 <= n <= d.len(),
        forall|i: int| 0 <= i < d.len() ==> is_digit(#[trigger] d[i]),
    ensures
        decimal_value(d.subrange(0, n)) <= decimal_value(d),
        0 <= decimal_value(d.subrange(0, n)),
    decreases d.len(),
{
    if d.len() > 0 {
        if n == d.len() {
            assert(d.subrange(0, n) =~= d);
        } else {
            assert(d.drop_last().subrange(0, n) =~= d.subrange(0, n));
        }
        if n < d.len() {
            lemma_decimal_value_grows(d.drop_last(), n);
        }
        lemma_decimal_value_grows(d.drop_last(), d.len() - 1);
    } else {
        assert(d.subrange(0, n) =~= d);
    }
}

fn parse_piece(bytes: &[u8], start: usize, end: usize) -> (r: Option<u8>)
    requires
        start <= end <= bytes@.len(),
    ensures
        r == parse_u8(bytes@.subrange(start as int, end as int)),
{
    let ghost piece = bytes@.subrange(start as int, end as int);
    let mut i = start;
    if i < end && bytes[i] == PLUS {
        i = i + 1;
    }
    let digits_start = i;
    let ghost d = bytes@.subrange(digits_start as int, end as int);
    assert(d =~= unsigned_digits(piece));
    if i == end {
        return None;
    }
    let mut value: u32 = 0;
    while i < end
        invariant
            start <= digits_start <= i <= end <= bytes@.len(),
            d == bytes@.subrange(digits_start as int, end as int),
            d == unsigned_digits(piece),
            piece == bytes@.subrange(start as int, end as int),
            value <= 255,
            forall|k: int| 0 <= k < i - digits_start ==> is_digit(#[trigger] d[k]),
            value == decimal_value(d.subrange(0, i - digits_start)),
        decreases end - i,
    {
        let b = bytes[i];
        if b < 48 || b > 57 {
            assert(!is_digit(d[i - digits_start]));
            assert(parse_u8(piece) is None);
            return None;
        }
        let next = value * 10 + (b - 48) as u32;
        let ghost n = i - digits_start + 1;
        assert(d.subrange(0, n).drop_last() =~= d.subrange(0, n - 1));
        assert(d.subrange(0, n).last() == b);
        assert(next == decimal_value(d.subrange(0, n)));
        if next > 255 {
            proof {
                if forall|k: int| 0 <= k < d.len() ==> is_digit(#[trigger] d[k]) {
                    lemma_decimal_value_grows(d, n);
                    assert(decimal_value(d) > 255);
                }
                assert(parse_u8(piece) is None);
            }
            return None;
        }
        value = next;
        i = i + 1;
    }
    assert(d.subrange(0, d.len() as int) =~= d);
    Some(value as u8)
}

/// Reads a colour written `r,g,b`: three decimal bytes separated by commas.
pub fn parse_rgb(s: &str) -> (r: Result<Pixel, RgbParseError>)
    ensures
        r == rgb_of(s.spec_bytes()),
{
    let bytes = s.as_bytes();
    let ghost text = bytes@;
    let mut values: Vec<u8> = Vec::new();
    let mut all_valid = true;
    let mut start: usize = 0;
    let mut i: usize = 0;
    while i < bytes.len()
        invariant
            text == bytes@,
            start <= i <= bytes@.len(),
            ({
                let pieces = comma_pieces(bytes@.subrange(0, i as int));
                &&& pieces.len() >= 1
                &&& pieces.last() == bytes@.subrange(start as int, i as int)
                &&& all_valid == forall|j: int|
                    0 <= j < pieces.len() - 1 ==> #[trigger] parse_u8(pieces[j]) is Some
                &&& all_valid ==> values@.len() == pieces.len() - 1
                &&& all_valid ==> forall|j: int|
                    0 <= j < pieces.len() - 1 ==> parse_u8(pieces[j]) == Some(#[trigger] values@[j])
            }),
        decreases bytes@.len() - i,
    {
        let ghost before = comma_pieces(bytes@.subrange(0, i as int));
        assert(bytes@.subrange(0, i + 1).drop_last() =~= bytes@.subrange(0, i as int));
        if bytes[i] == COMMA {
            let piece = parse_piece(bytes, start, i);
            match piece {
                Some(v) => {
                    if all_valid {
                        values.push(v);
                    }
                },
                None => {
                    all_valid = false;
                },
            }
            start = i + 1;
        } else {
            assert(bytes@.subrange(start as int, i + 1) =~= before.last().push(bytes@[i as int]));
        }
        i = i + 1;
        proof {
            let after = comma_pieces(bytes@.subrange(0, i as int));
            assert forall|j: int| 0 <= j < after.len() - 1 implies after[j] == before[j] by {}
            if bytes@[i - 1] == COMMA {
                assert(after.last() =~= bytes@.subrange(start as int, i as int));
            }
        }
    }
    let last = parse_piece(bytes, start, bytes.len());
    proof {
        assert(bytes@.subrange(0, bytes@.len() as int) =~= bytes@);
    }
    let ghost pieces = comma_pieces(bytes@);
    match last {
        None => {
            assert(parse_u8(pieces[pieces.len() - 1]) is None);
            Err(RgbParseError::InvalidComponent)
        },
        Some(v) => {
            if !all_valid {
                Err(RgbParseError::InvalidComponent)
            } else {
                values.push(v);
                assert(forall|j: int| 0 <= j < pieces.len() ==> parse_u8(pieces[j]) == Some(#[trigger] values@[j]));
                if values.len() < 3 {
                    Err(RgbParseError::MissingComponent)
                } else {
                    Ok(Pixel::new(values[0], values[1], values[2]))
                }
            }
        },
    }
}

} // verus!
