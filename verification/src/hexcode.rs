//! Hex encoding and decoding of byte strings, as used by the hex-octet
//! value form (`#` followed by hex digits) and by the serializer for the
//! types whose values are always hex-encoded.

use vstd::prelude::*;

verus! {

/// The value of one hex digit; upper- and lower-case letters are both
/// accepted. `None` for any other character.
pub open spec fn hex_digit_value(c: char) -> Option<u8> {
    let u = c as u32;
    if '0' <= c && c <= '9' {
        Some((u - 48) as u8)
    } else if 'a' <= c && c <= 'f' {
        Some((u - 87) as u8)
    } else if 'A' <= c && c <= 'F' {
        Some((u - 55) as u8)
    } else {
        None
    }
}

/// The bytes denoted by a string of hex digits, two digits per byte;
/// `None` when the length is odd or any character is not a hex digit.
pub open spec fn hex_decode(s: Seq<char>) -> Option<Seq<u8>>
    decreases s.len(),
{
    if s.len() == 0 {
        Some(Seq::empty())
    } else if s.len() == 1 {
        None
    } else {
        match (hex_digit_value(s[0]), hex_digit_value(s[1])) {
            (Some(hi), Some(lo)) => match hex_decode(s.skip(2)) {
                Some(rest) => Some(seq![(hi * 16 + lo) as u8] + rest),
                None => None,
            },
            _ => None,
        }
    }
}

/// The lower-case hex digit for one nibble.
pub open spec fn hex_char_of_nibble(v: u8) -> char
    recommends
        v < 16,
{
    if v < 10 {
        ((v + 48) as u8) as char
    } else {
        ((v + 87) as u8) as char
    }
}

/// The lower-case hex encoding of a byte string, two digits per byte.
pub open spec fn hex_encode(bs: Seq<u8>) -> Seq<char>
    decreases bs.len(),
{
    if bs.len() == 0 {
        Seq::empty()
    } else {
        seq![
            hex_char_of_nibble((bs[0] / 16) as u8),
            hex_char_of_nibble((bs[0] % 16) as u8),
        ] + hex_encode(bs.drop_first())
    }
}

/// The value of one hex digit character, if it is one.
fn hex_digit_val(c: char) -> (r: Option<u8>)
    ensures
        r == hex_digit_value(c),
{
    let u = c as u32;
    if 48 <= u && u <= 57 {
        Some((u - 48) as u8)
    } else if 97 <= u && u <= 102 {
        Some((u - 87) as u8)
    } else if 65 <= u && u <= 70 {
        Some((u - 55) as u8)
    } else {
        None
    }
}

/// Decodes a string of hex digits into bytes; `None` exactly when the
/// digits do not denote a byte string.
pub fn hex_decode_chars(s: &[char]) -> (r: Option<Vec<u8>>)
    ensures
        r is Some <==> hex_decode(s@) is Some,
        r matches Some(bs) ==> Some(bs@) == hex_decode(s@),
{
    let n = s.len();
    let mut out: Vec<u8> = Vec::new();
    let mut i: usize = 0;
    proof {
        assert(s@.skip(0) =~= s@);
        match hex_decode(s@) {
            Some(rest) => {
                assert(out@ + rest =~= rest);
            },
            None => {},
        }
    }
    while i < n
        invariant
            0 <= i <= n,
            n == s@.len(),
            hex_decode(s@) == match hex_decode(s@.skip(i as int)) {
                Some(rest) => Some(out@ + rest),
                None => None::<Seq<u8>>,
            },
        decreases n - i,
    {
        let ghost tail = s@.skip(i as int);
        assert(tail[0] == s@[i as int]);
        if n - i < 2 {
            assert(tail.len() == 1);
            return None;
        }
        assert(tail[1] == s@[i + 1]);
        let hi = match hex_digit_val(s[i]) {
            Some(v) => v,
            None => {
                return None;
            },
        };
        let lo = match hex_digit_val(s[i + 1]) {
            Some(v) => v,
            None => {
                return None;
            },
        };
        out.push(hi * 16 + lo);
        assert(tail.skip(2) =~= s@.skip(i + 2));
        proof {
            match hex_decode(s@.skip(i + 2)) {
                Some(rest) => {
                    assert(out@ + rest =~= out@.drop_last() + (seq![(hi * 16 + lo) as u8] + rest));
                },
                None => {},
            }
        }
        i += 2;
    }
    assert(s@.skip(n as int) =~= Seq::<char>::empty());
    assert(out@ + Seq::<u8>::empty() =~= out@);
    Some(out)
}

/// The lower-case hex digit for one nibble.
fn hex_nibble_char(v: u8) -> (r: char)
    requires
        v < 16,
    ensures
        r == hex_char_of_nibble(v),
{
    if v < 10 {
        (v + 48) as char
    } else {
        (v + 87) as char
    }
}

/// Encodes bytes as lower-case hex digits, two per byte.
pub fn hex_encode_bytes(bs: &[u8]) -> (r: Vec<char>)
    ensures
        r@ == hex_encode(bs@),
{
    let n = bs.len();
    let mut out: Vec<char> = Vec::new();
    let mut i: usize = 0;
    proof {
        assert(bs@.skip(0) =~= bs@);
        assert(out@ + hex_encode(bs@) =~= hex_encode(bs@));
    }
    while i < n
        invariant
            0 <= i <= n,
            n == bs@.len(),
            hex_encode(bs@) == out@ + hex_encode(bs@.skip(i as int)),
        decreases n - i,
    {
        let ghost tail = bs@.skip(i as int);
        assert(tail[0] == bs@[i as int]);
        let b = bs[i];
        out.push(hex_nibble_char(b / 16));
        out.push(hex_nibble_char(b % 16));
        assert(tail.drop_first() =~= bs@.skip(i + 1));
        proof {
            assert(hex_encode(bs@) =~= out@ + hex_encode(bs@.skip(i + 1)));
        }
        i += 1;
    }
    assert(bs@.skip(n as int) =~= Seq::<u8>::empty());
    assert(out@ + Seq::<char>::empty() =~= out@);
    out
}

} // verus!
