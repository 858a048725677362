//! Character-level text utilities shared by the parser, the normalizer and
//! the serializer: whitespace classification and trimming, ASCII case
//! folding, and conversions between character sequences, UTF-8 bytes and
//! owned strings.

use vstd::prelude::*;
use vstd::string::StrSliceExecFns;
use vstd::string::StringExecFns;
use vstd::utf8::*;

verus! {

/// True for the characters with the Unicode `White_Space` property; these
/// are the characters removed when a value is trimmed.
pub open spec fn is_space(c: char) -> bool {
    let u = c as u32;
    (0x09 <= u && u <= 0x0D) || u == 0x20 || u == 0x85 || u == 0xA0 || u == 0x1680 || (0x2000 <= u
        && u <= 0x200A) || u == 0x2028 || u == 0x2029 || u == 0x202F || u == 0x205F || u == 0x3000
}

/// Whether the character counts as whitespace for trimming.
pub fn is_space_char(c: char) -> (r: bool)
    ensures
        r == is_space(c),
{
    let u = c as u32;
    (0x09 <= u && u <= 0x0D) || u == 0x20 || u == 0x85 || u == 0xA0 || u == 0x1680 || (0x2000 <= u
        && u <= 0x200A) || u == 0x2028 || u == 0x2029 || u == 0x202F || u == 0x205F || u == 0x3000
}

/// The sequence with all leading whitespace removed.
pub open spec fn trim_start(s: Seq<char>) -> Seq<char>
    decreases s.len(),
{
    if s.len() > 0 && is_space(s[0]) {
        trim_start(s.drop_first())
    } else {
        s
    }
}

/// The sequence with all trailing whitespace removed.
pub open spec fn trim_end(s: Seq<char>) -> Seq<char>
    decreases s.len(),
{
    if s.len() > 0 && is_space(s.last()) {
        trim_end(s.drop_last())
    } else {
        s
    }
}

/// The sequence with leading and trailing whitespace removed.
pub open spec fn trim(s: Seq<char>) -> Seq<char> {
    trim_end(trim_start(s))
}

proof fn lemma_trim_start_skip(s: Seq<char>, i: int)
    requires
        0 <= i <= s.len(),
        forall|j: int| 0 <= j < i ==> is_space(#[trigger] s[j]),
    ensures
        trim_start(s) == trim_start(s.subrange(i, s.len() as int)),
    decreases i,
{
    if i > 0 {
        assert(is_space(s[0]));
        assert(s.drop_first() =~= s.subrange(1, s.len() as int));
        lemma_trim_start_skip(s.drop_first(), i - 1);
        assert(s.drop_first().subrange(i - 1, s.drop_first().len() as int) =~= s.subrange(
            i,
            s.len() as int,
        ));
    } else {
        assert(s.subrange(0, s.len() as int) =~= s);
    }
}

proof fn lemma_trim_end_cut(s: Seq<char>, j: int)
    requires
        0 <= j <= s.len(),
        forall|k: int| j <= k < s.len() ==> is_space(#[trigger] s[k]),
    ensures
        trim_end(s) == trim_end(s.subrange(0, j)),
    decreases s.len() - j,
{
    if j < s.len() {
        assert(s.drop_last() =~= s.subrange(0, s.len() - 1));
        lemma_trim_end_cut(s.drop_last(), j);
        assert(s.drop_last().subrange(0, j) =~= s.subrange(0, j));
    } else {
        assert(s.subrange(0, s.len() as int) =~= s);
    }
}

/// Copy of the slice with leading and trailing whitespace removed.
pub fn trim_chars(s: &[char]) -> (r: Vec<char>)
    ensures
        r@ == trim(s@),
{
    let n = s.len();
    let mut i: usize = 0;
    while i < n && is_space_char(s[i])
        invariant
            0 <= i <= n,
            n == s@.len(),
            forall|j: int| 0 <= j < i ==> is_space(#[trigger] s@[j]),
        decreases n - i,
    {
        i += 1;
    }
    proof {
        lemma_trim_start_skip(s@, i as int);
    }
    let ghost t = s@.subrange(i as int, n as int);
    // t has no leading whitespace, so trimming it only cuts the tail
    assert(trim_start(t) == t);
    let mut j: usize = n;
    while j > i && is_space_char(s[j - 1])
        invariant
            i <= j <= n,
            n == s@.len(),
            t == s@.subrange(i as int, n as int),
            forall|k: int| j <= k < n ==> is_space(#[trigger] s@[k]),
        decreases j,
    {
        j -= 1;
    }
    proof {
        lemma_trim_end_cut(t, j - i);
        assert(t.subrange(0, j - i) =~= s@.subrange(i as int, j as int));
    }
    let ghost u = s@.subrange(i as int, j as int);
    assert(trim_end(u) == u);
    let mut r: Vec<char> = Vec::new();
    let mut k: usize = i;
    while k < j
        invariant
            i <= k <= j <= n,
            n == s@.len(),
            u == s@.subrange(i as int, j as int),
            r@ == s@.subrange(i as int, k as int),
        decreases j - k,
    {
        r.push(s[k]);
        assert(s@.subrange(i as int, k + 1 as int) =~= s@.subrange(i as int, k as int).push(
            s@[k as int],
        ));
        k += 1;
    }
    r
}

/// The character with an ASCII upper-case letter folded to lower case; any
/// other character is left unchanged.
pub open spec fn lower_char(c: char) -> char {
    if 'A' <= c && c <= 'Z' {
        ((c as u32) + 32) as char
    } else {
        c
    }
}

/// The sequence with every ASCII upper-case letter folded to lower case.
pub open spec fn lower_seq(s: Seq<char>) -> Seq<char> {
    s.map_values(|c: char| lower_char(c))
}

/// Relies on char::from_u32: it returns Some exactly when the value is a
/// Unicode scalar value (not a surrogate and at most 0x10FFFF), and the
/// returned character has the given scalar value.
#[verifier::external_body]
fn char_from_u32(v: u32) -> (r: Option<char>)
    ensures
        r is Some <==> is_scalar(v),
        r matches Some(c) ==> c as u32 == v,
{
    char::from_u32(v)
}

/// The character with an ASCII upper-case letter folded to lower case.
pub fn lower_char_exec(c: char) -> (r: char)
    ensures
        r == lower_char(c),
{
    let u = c as u32;
    if 65 <= u && u <= 90 {
        proof {
            char_is_scalar(c);
        }
        let lowered = char_from_u32(u + 32);
        let l = lowered.unwrap();
        proof {
            char_u32_cast(l, (u + 32) as u32);
        }
        l
    } else {
        c
    }
}

/// Copy of the slice with every ASCII upper-case letter folded to lower
/// case.
pub fn lower_chars(s: &[char]) -> (r: Vec<char>)
    ensures
        r@ == lower_seq(s@),
{
    let n = s.len();
    let mut r: Vec<char> = Vec::new();
    let mut i: usize = 0;
    while i < n
        invariant
            0 <= i <= n,
            n == s@.len(),
            r@ == lower_seq(s@.subrange(0, i as int)),
        decreases n - i,
    {
        r.push(lower_char_exec(s[i]));
        assert(lower_seq(s@.subrange(0, i + 1 as int)) =~= lower_seq(
            s@.subrange(0, i as int),
        ).push(lower_char(s@[i as int])));
        i += 1;
    }
    assert(s@.subrange(0, n as int) =~= s@);
    r
}

/// Copy of the slice without its first `k` characters.
pub fn skip_chars(s: &[char], k: usize) -> (r: Vec<char>)
    requires
        k <= s@.len(),
    ensures
        r@ == s@.skip(k as int),
{
    let n = s.len();
    let mut r: Vec<char> = Vec::new();
    let mut i: usize = k;
    while i < n
        invariant
            k <= i <= n,
            n == s@.len(),
            r@ == s@.subrange(k as int, i as int),
        decreases n - i,
    {
        r.push(s[i]);
        assert(s@.subrange(k as int, i + 1 as int) =~= s@.subrange(k as int, i as int).push(
            s@[i as int],
        ));
        i += 1;
    }
    r
}

/// Whether the two slices hold the same characters.
pub fn chars_eq(a: &[char], b: &[char]) -> (r: bool)
    ensures
        r == (a@ == b@),
{
    if a.len() != b.len() {
        return false;
    }
    let n = a.len();
    let mut i: usize = 0;
    while i < n
        invariant
            0 <= i <= n,
            n == a@.len() == b@.len(),
            forall|j: int| 0 <= j < i ==> a@[j] == b@[j],
        decreases n - i,
    {
        if a[i] != b[i] {
            return false;
        }
        i += 1;
    }
    proof {
        assert(a@ =~= b@);
    }
    true
}

/// Whether the slice holds exactly the characters of the string slice.
pub fn eq_lit(a: &[char], lit: &str) -> (r: bool)
    ensures
        r == (a@ == lit@),
{
    let l = str_to_chars(lit);
    chars_eq(a, l.as_slice())
}

/// Appends the UTF-8 encoding of the character to the byte accumulator.
pub fn push_utf8_char(acc: &mut Vec<u8>, c: char)
    ensures
        final(acc)@ == old(acc)@ + encode_scalar(c as u32),
{
    let u = c as u32;
    proof {
        char_is_scalar(c);
    }
    let ghost acc0 = acc@;
    if u <= 0x7F {
        acc.push((u & 0x7F) as u8);
        assert(acc@ =~= acc0 + encode_scalar(u));
    } else if u <= 0x7FF {
        acc.push(0xC0 | ((u >> 6) & 0x1F) as u8);
        acc.push(0x80 | (u & 0x3F) as u8);
        assert(acc@ =~= acc0 + encode_scalar(u));
    } else if u <= 0xFFFF {
        acc.push(0xE0 | ((u >> 12) & 0x0F) as u8);
        acc.push(0x80 | ((u >> 6) & 0x3F) as u8);
        acc.push(0x80 | (u & 0x3F) as u8);
        assert(acc@ =~= acc0 + encode_scalar(u));
    } else {
        acc.push(0xF0 | ((u >> 18) & 0x7) as u8);
        acc.push(0x80 | ((u >> 12) & 0x3F) as u8);
        acc.push(0x80 | ((u >> 6) & 0x3F) as u8);
        acc.push(0x80 | (u & 0x3F) as u8);
        assert(acc@ =~= acc0 + encode_scalar(u));
    }
}

/// Decodes a UTF-8 byte sequence into its characters; `None` exactly when
/// the bytes are not a valid UTF-8 encoding.
pub fn utf8_to_chars(bytes: &[u8]) -> (r: Option<Vec<char>>)
    ensures
        r is Some <==> valid_utf8(bytes@),
        r matches Some(cs) ==> cs@ == decode_utf8(bytes@),
{
    let n = bytes.len();
    let mut out: Vec<char> = Vec::new();
    let mut i: usize = 0;
    while i < n
        invariant
            0 <= i <= n,
            n == bytes@.len(),
            partial_valid_utf8(bytes@, i as int),
            out@ == decode_utf8(bytes@.subrange(0, i as int)),
        decreases n - i,
    {
        let ghost rest = bytes@.subrange(i as int, n as int);
        assert(rest.len() > 0);
        assert(rest[0] == bytes@[i as int]);
        let b0 = bytes[i];
        let width: usize;
        let cp: u32;
        if b0 <= 0x7F {
            width = 1;
            cp = (b0 & 0x7F) as u32;
            assert(is_leading_byte_width_1(rest[0]));
            assert(cp <= 0x7F) by (bit_vector)
                requires
                    cp == (b0 & 0x7F) as u32,
            ;
        } else if 0xC0 <= b0 && b0 <= 0xDF {
            if n - i < 2 {
                proof {
                    lemma_rest_invalid(bytes@, i as int);
                }
                return None;
            }
            let b1 = bytes[i + 1];
            assert(rest[1] == bytes@[i + 1]);
            if !(0x80 <= b1 && b1 <= 0xBF) {
                proof {
                    lemma_rest_invalid(bytes@, i as int);
                }
                return None;
            }
            let hi = (b0 & 0x1F) as u32;
            let lo = (b1 & 0x3F) as u32;
            cp = (hi << 6) | lo;
            if cp < 0x80 {
                // overlong two-byte encoding
                proof {
                    lemma_rest_invalid(bytes@, i as int);
                }
                return None;
            }
            width = 2;
            assert(cp <= 0x7FF) by (bit_vector)
                requires
                    cp == (((b0 & 0x1F) as u32) << 6) | ((b1 & 0x3F) as u32),
            ;
        } else if 0xE0 <= b0 && b0 <= 0xEF {
            if n - i < 3 {
                proof {
                    lemma_rest_invalid(bytes@, i as int);
                }
                return None;
            }
            let b1 = bytes[i + 1];
            let b2 = bytes[i + 2];
            assert(rest[1] == bytes@[i + 1] && rest[2] == bytes@[i + 2]);
            if !(0x80 <= b1 && b1 <= 0xBF) || !(0x80 <= b2 && b2 <= 0xBF) {
                proof {
                    lemma_rest_invalid(bytes@, i as int);
                }
                return None;
            }
            let hi = ((b0 & 0x0F) as u32) << 12;
            let mid = ((b1 & 0x3F) as u32) << 6;
            let lo = (b2 & 0x3F) as u32;
            cp = hi | mid | lo;
            if cp < 0x800 || (0xD800 <= cp && cp <= 0xDFFF) {
                // overlong encoding or surrogate codepoint
                proof {
                    lemma_rest_invalid(bytes@, i as int);
                }
                return None;
            }
            width = 3;
            assert(cp <= 0xFFFF) by (bit_vector)
                requires
                    cp == ((((b0 & 0x0F) as u32) << 12) | (((b1 & 0x3F) as u32) << 6)) | ((b2
                        & 0x3F) as u32),
            ;
            assert(cp == (((b0 & 0x0F) as u32) << 12) | ((((b1 & 0x3F) as u32) << 6) | ((b2
                & 0x3F) as u32))) by (bit_vector)
                requires
                    cp == ((((b0 & 0x0F) as u32) << 12) | (((b1 & 0x3F) as u32) << 6)) | ((b2
                        & 0x3F) as u32),
            ;
        } else if 0xF0 <= b0 && b0 <= 0xF7 {
            if n - i < 4 {
                proof {
                    lemma_rest_invalid(bytes@, i as int);
                }
                return None;
            }
            let b1 = bytes[i + 1];
            let b2 = bytes[i + 2];
            let b3 = bytes[i + 3];
            assert(rest[1] == bytes@[i + 1] && rest[2] == bytes@[i + 2] && rest[3] == bytes@[i
                + 3]);
            if !(0x80 <= b1 && b1 <= 0xBF) || !(0x80 <= b2 && b2 <= 0xBF) || !(0x80 <= b3 && b3
                <= 0xBF) {
                proof {
                    lemma_rest_invalid(bytes@, i as int);
                }
                return None;
            }
            let hi = ((b0 & 0x07) as u32) << 18;
            let m1 = ((b1 & 0x3F) as u32) << 12;
            let m2 = ((b2 & 0x3F) as u32) << 6;
            let lo = (b3 & 0x3F) as u32;
            cp = hi | m1 | m2 | lo;
            if cp < 0x10000 || cp > 0x10FFFF {
                // overlong encoding or beyond the last scalar value
                proof {
                    lemma_rest_invalid(bytes@, i as int);
                }
                return None;
            }
            width = 4;
            assert(cp == (((b0 & 0x07) as u32) << 18) | ((((b1 & 0x3F) as u32) << 12) | ((((b2
                & 0x3F) as u32) << 6) | ((b3 & 0x3F) as u32)))) by (bit_vector)
                requires
                    cp == (((((b0 & 0x07) as u32) << 18) | (((b1 & 0x3F) as u32) << 12)) | (((b2
                        & 0x3F) as u32) << 6)) | ((b3 & 0x3F) as u32),
            ;
        } else {
            // a stray continuation byte, or a byte no encoding uses
            assert(!valid_leading_and_continuation_bytes_first_codepoint(rest));
            proof {
                lemma_rest_invalid(bytes@, i as int);
            }
            return None;
        }
        assert(valid_first_scalar(rest) && decode_first_scalar(rest) == cp
            && length_of_first_scalar(rest) == width);
        let copt = char_from_u32(cp);
        let c = copt.unwrap();
        proof {
            char_u32_cast(c, cp);
            lemma_step_decode(bytes@, i as int, width as int, cp);
        }
        out.push(c);
        i += width;
    }
    assert(bytes@.subrange(0, n as int) =~= bytes@);
    Some(out)
}

/// When the prefix before `i` is valid UTF-8 but no well-formed scalar
/// encoding starts at `i`, the whole sequence is not valid UTF-8.
proof fn lemma_rest_invalid(bytes: Seq<u8>, i: int)
    requires
        0 <= i < bytes.len(),
        partial_valid_utf8(bytes, i),
        !valid_first_scalar(bytes.subrange(i, bytes.len() as int)),
    ensures
        !valid_utf8(bytes),
{
    let rest = bytes.subrange(i, bytes.len() as int);
    assert(rest.len() > 0);
    assert(!valid_utf8(rest));
    partial_valid_partial_invalid_utf8(bytes, i);
}

/// Stepping over one well-formed scalar extends the valid prefix and
/// appends exactly that scalar's character to the decoded prefix.
proof fn lemma_step_decode(bytes: Seq<u8>, i: int, width: int, cp: u32)
    requires
        0 <= i < bytes.len(),
        partial_valid_utf8(bytes, i),
        valid_first_scalar(bytes.subrange(i, bytes.len() as int)),
        decode_first_scalar(bytes.subrange(i, bytes.len() as int)) == cp,
        length_of_first_scalar(bytes.subrange(i, bytes.len() as int)) == width,
    ensures
        i + width <= bytes.len(),
        partial_valid_utf8(bytes, i + width),
        decode_utf8(bytes.subrange(0, i + width)) == decode_utf8(bytes.subrange(0, i)).push(
            cp as char,
        ),
{
    let rest = bytes.subrange(i, bytes.len() as int);
    partial_valid_utf8_extend(bytes, i);
    let p2 = bytes.subrange(0, i + width);
    assert(valid_utf8(p2));
    // the step starts on a character boundary of the extended prefix
    assert(p2[i] == rest[0]);
    assert(!is_continuation_byte(p2[i]));
    is_char_boundary_iff_not_is_continuation_byte(p2, i);
    decode_utf8_split(p2, i);
    assert(p2.subrange(0, i) =~= bytes.subrange(0, i));
    let s1 = p2.subrange(i, i + width);
    // the slice holding the stepped-over scalar decodes to its character
    assert(s1 =~= rest.subrange(0, width));
    assert(valid_first_scalar(s1) && decode_first_scalar(s1) == cp && length_of_first_scalar(s1)
        == width) by {
        assert(s1[0] == rest[0]);
        assert(width >= 2 ==> s1[1] == rest[1]);
        assert(width >= 3 ==> s1[2] == rest[2]);
        assert(width >= 4 ==> s1[3] == rest[3]);
    }
    assert(pop_first_scalar(s1) =~= Seq::<u8>::empty());
    assert(valid_utf8(pop_first_scalar(s1)));
    assert(valid_utf8(s1));
    assert(decode_utf8(pop_first_scalar(s1)) =~= Seq::<char>::empty());
    assert(decode_utf8(s1) =~= seq![cp as char]);
    assert(decode_utf8(p2) =~= decode_utf8(bytes.subrange(0, i)).push(cp as char));
}

/// Relies on String::push: it appends the one character to the string.
#[verifier::external_body]
fn push_char(s: &mut String, c: char)
    ensures
        final(s)@ == old(s)@.push(c),
{
    s.push(c);
}

/// Builds an owned string holding exactly the given characters.
pub fn chars_to_string(cs: &[char]) -> (r: String)
    ensures
        r@ == cs@,
{
    let n = cs.len();
    let mut r = String::new();
    let mut i: usize = 0;
    while i < n
        invariant
            0 <= i <= n,
            n == cs@.len(),
            r@ == cs@.subrange(0, i as int),
        decreases n - i,
    {
        push_char(&mut r, cs[i]);
        assert(cs@.subrange(0, i + 1 as int) =~= cs@.subrange(0, i as int).push(cs@[i as int]));
        i += 1;
    }
    assert(cs@.subrange(0, n as int) =~= cs@);
    r
}

/// The characters of the string slice, as a vector.
pub fn str_to_chars(s: &str) -> (r: Vec<char>)
    ensures
        r@ == s@,
{
    let bytes = s.as_bytes_vec();
    proof {
        encode_utf8_valid_utf8(s@);
        encode_utf8_decode_utf8(s@);
    }
    let decoded = utf8_to_chars(bytes.as_slice());
    decoded.unwrap()
}

} // verus!
