//! The parsing engine: a single left-to-right scan of the input with an
//! explicit escaping state machine, producing the ordered RDN sequence of
//! a [`DistinguishedName`]. The grammar is `DN = RDN (',' RDN)* | empty`
//! with `RDN = Type '=' Value`; values may use backslash escapes or the
//! `#`-prefixed hex-octet form.

use vstd::prelude::*;
use vstd::utf8::{decode_utf8, encode_scalar, valid_utf8};

use crate::dn::{is_reserved, is_reserved_char, DistinguishedName, RdnModel,
    RelativeDistinguishedName};
use crate::hexcode::{hex_decode, hex_decode_chars, hex_digit_value};
use crate::rdn_type::{spec_resolve, RdnType};
use crate::text::{chars_to_string, push_utf8_char, str_to_chars, trim, trim_chars, utf8_to_chars};
use crate::Error;
use crate::ErrorModel;

verus! {

/// The escaping sub-machine threaded through the scan.
#[derive(Clone, Copy, Debug, PartialEq, Eq, Structural)]
pub enum Escaping {
    /// No escape sequence is active.
    Idle,
    /// A backslash was read; the next character decides the kind.
    Started,
    /// One hex digit of a two-digit escape was read.
    Hex(u8),
}

/// What one character does to a pending escape: a reserved symbol right
/// after the backslash is emitted literally; any other ASCII character
/// starts a two-digit hex escape that emits the decoded byte; anything
/// else cannot begin or continue a hex escape.
pub open spec fn esc_consume(esc: Escaping, c: char) -> Result<(Escaping, Option<u8>), ErrorModel>
    recommends
        esc != Escaping::Idle,
{
    match esc {
        Escaping::Started => {
            if is_reserved(c) {
                Ok((Escaping::Idle, Some(c as u8)))
            } else if c as u32 <= 0x7F {
                Ok((Escaping::Hex(c as u8), None))
            } else {
                Err(ErrorModel::HexDecodingFailed)
            }
        },
        Escaping::Hex(p) => {
            match (hex_digit_value(p as char), hex_digit_value(c)) {
                (Some(hi), Some(lo)) => Ok((Escaping::Idle, Some((hi * 16 + lo) as u8))),
                _ => Err(ErrorModel::HexDecodingFailed),
            }
        },
        Escaping::Idle => Err(ErrorModel::UnexpectedEof),
    }
}

impl Escaping {
    /// Whether an escape sequence is waiting for more characters.
    pub fn is_pending(self) -> (r: bool)
        ensures
            r == (self != Escaping::Idle),
    {
        matches!(self, Escaping::Started | Escaping::Hex(_))
    }

    /// Feeds the next character to a pending escape sequence, yielding the
    /// byte it emits, if any. On an error the machine resets, though the
    /// error aborts the whole parse anyway.
    pub fn consume(&mut self, c: char) -> (r: Result<Option<u8>, Error>)
        requires
            *old(self) != Escaping::Idle,
        ensures
            match r {
                Ok(o) => esc_consume(*old(self), c) == Ok::<(Escaping, Option<u8>), ErrorModel>(
                    (*final(self), o),
                ),
                Err(e) => esc_consume(*old(self), c) == Err::<(Escaping, Option<u8>), ErrorModel>(
                    e@,
                ) && *final(self) == Escaping::Idle,
            },
    {
        match *self {
            Escaping::Started => {
                if is_reserved_char(c) {
                    *self = Escaping::Idle;
                    Ok(Some(c as u8))
                } else {
                    let u = c as u32;
                    if u <= 0x7F {
                        *self = Escaping::Hex(c as u8);
                        Ok(None)
                    } else {
                        *self = Escaping::Idle;
                        Err(Error::HexDecodingFailed)
                    }
                }
            },
            Escaping::Hex(previous) => {
                *self = Escaping::Idle;
                let hi = match hex_digit_byte(previous) {
                    Some(v) => v,
                    None => {
                        return Err(Error::HexDecodingFailed);
                    },
                };
                let lo = match hex_digit_char(c) {
                    Some(v) => v,
                    None => {
                        return Err(Error::HexDecodingFailed);
                    },
                };
                Ok(Some(hi * 16 + lo))
            },
            Escaping::Idle => Err(Error::UnexpectedEof),
        }
    }
}

/// The value of the hex digit held in an ASCII byte, if it is one.
fn hex_digit_byte(b: u8) -> (r: Option<u8>)
    ensures
        r == hex_digit_value(b as char),
{
    if 48 <= b && b <= 57 {
        Some(b - 48)
    } else if 97 <= b && b <= 102 {
        Some(b - 87)
    } else if 65 <= b && b <= 70 {
        Some(b - 55)
    } else {
        None
    }
}

/// The value of the hex digit character, if it is one.
fn hex_digit_char(c: char) -> (r: Option<u8>)
    ensures
        r == hex_digit_value(c),
{
    let u = c as u32;
    if 48 <= u && u <= 57 {
        Some((u - 48) as u8)
    } else if 97 <= u && u <= 102 {
        Some((u - 87) as u8)
    } else if 65 <= u && u <= 70 {
        Some((u - 55) as u8)
    } else {
        None
    }
}

/// The scan state outside the escaping sub-machine: the RDNs collected so
/// far in encounter order, the byte accumulator of the current token, the
/// attribute type once the current RDN has passed its `=`, and whether the
/// current value was marked as a hex-octet string.
#[verifier::ext_equal]
pub struct ScanState {
    pub rdns: Seq<RdnModel>,
    pub acc: Seq<u8>,
    pub ty: Option<RdnType>,
    pub hex: bool,
}

/// The state in which the scan starts.
pub open spec fn init_state() -> ScanState {
    ScanState { rdns: Seq::empty(), acc: Seq::empty(), ty: None, hex: false }
}

/// Takes the accumulator as the type text of the current RDN, at an `=`:
/// the text is UTF-8-decoded, trimmed, required to be non-empty and not a
/// second type for the same RDN, and resolved against the registry.
pub open spec fn take_type(st: ScanState) -> Result<ScanState, ErrorModel> {
    if st.ty is Some {
        Err(ErrorModel::UnexpectedCharacter('='))
    } else if !valid_utf8(st.acc) {
        Err(ErrorModel::Utf8DecodingFailed)
    } else {
        let t = trim(decode_utf8(st.acc));
        if t.len() == 0 {
            Err(ErrorModel::UnexpectedCharacter('='))
        } else {
            match spec_resolve(t) {
                Ok(ty) => Ok(ScanState { rdns: st.rdns, acc: Seq::empty(), ty: Some(ty), hex: st.hex }),
                Err(e) => Err(e),
            }
        }
    }
}

/// Completes the current RDN, at an unescaped comma or at the end of the
/// input. The trimmed accumulator must be a non-empty value for an RDN
/// whose type is already set; the one exception is an empty value at the
/// end of the input with no type pending, which completes the whole DN.
/// A value marked as hex is hex-decoded and the bytes must be UTF-8.
pub open spec fn finish_rdn(st: ScanState, at_eof: bool) -> Result<ScanState, ErrorModel> {
    if !valid_utf8(st.acc) {
        Err(ErrorModel::Utf8DecodingFailed)
    } else {
        let v = trim(decode_utf8(st.acc));
        if v.len() == 0 && at_eof && st.ty is None {
            Ok(st)
        } else if v.len() == 0 || st.ty is None {
            Err(
                if at_eof {
                    ErrorModel::UnexpectedEof
                } else {
                    ErrorModel::UnexpectedCharacter(',')
                },
            )
        } else {
            let ty = st.ty->0;
            if st.hex {
                match hex_decode(v) {
                    None => Err(ErrorModel::HexDecodingFailed),
                    Some(bytes) => {
                        if !valid_utf8(bytes) {
                            Err(ErrorModel::Utf8DecodingFailed)
                        } else {
                            Ok(
                                ScanState {
                                    rdns: st.rdns.push(
                                        RdnModel { ty, value: decode_utf8(bytes) },
                                    ),
                                    acc: Seq::empty(),
                                    ty: None,
                                    hex: false,
                                },
                            )
                        }
                    },
                }
            } else {
                Ok(
                    ScanState {
                        rdns: st.rdns.push(RdnModel { ty, value: v }),
                        acc: Seq::empty(),
                        ty: None,
                        hex: false,
                    },
                )
            }
        }
    }
}

/// What one unescaped character does to the scan state: a comma completes
/// the RDN; an equals sign takes the type; a backslash is handled by the
/// escaping sub-machine; a `#` on an empty accumulator marks the value as
/// hex; an unescaped `+` would begin a multi-valued RDN, which is
/// unsupported; every other character is a literal.
pub open spec fn normal_step(st: ScanState, c: char) -> Result<ScanState, ErrorModel> {
    if c == ',' {
        finish_rdn(st, false)
    } else if c == '=' {
        take_type(st)
    } else if c == '#' {
        if st.acc.len() == 0 {
            Ok(ScanState { rdns: st.rdns, acc: st.acc, ty: st.ty, hex: true })
        } else {
            Ok(ScanState { rdns: st.rdns, acc: st.acc.push('#' as u8), ty: st.ty, hex: st.hex })
        }
    } else if c == '+' {
        Err(ErrorModel::UnsupportedMultiValueRdns)
    } else {
        Ok(
            ScanState {
                rdns: st.rdns,
                acc: st.acc + encode_scalar(c as u32),
                ty: st.ty,
                hex: st.hex,
            },
        )
    }
}

/// The whole scan: each character is fed to the escaping sub-machine or
/// to the unescaped step, and the end of the input completes the DN. The
/// result is the RDN sequence in encounter order.
pub open spec fn scan(st: ScanState, esc: Escaping, input: Seq<char>) -> Result<
    Seq<RdnModel>,
    ErrorModel,
>
    decreases input.len(),
{
    if input.len() == 0 {
        if esc != Escaping::Idle {
            Err(ErrorModel::UnexpectedEof)
        } else {
            match finish_rdn(st, true) {
                Ok(st2) => Ok(st2.rdns),
                Err(e) => Err(e),
            }
        }
    } else {
        let c = input[0];
        if esc != Escaping::Idle {
            match esc_consume(esc, c) {
                Err(e) => Err(e),
                Ok((esc2, out)) => scan(
                    match out {
                        Some(b) => ScanState {
                            rdns: st.rdns,
                            acc: st.acc.push(b),
                            ty: st.ty,
                            hex: st.hex,
                        },
                        None => st,
                    },
                    esc2,
                    input.drop_first(),
                ),
            }
        } else if c == '\\' {
            scan(st, Escaping::Started, input.drop_first())
        } else {
            match normal_step(st, c) {
                Err(e) => Err(e),
                Ok(st2) => scan(st2, Escaping::Idle, input.drop_first()),
            }
        }
    }
}

/// The meaning of a textual DN: the scan from the initial state, with the
/// collected RDNs reversed into canonical order (the wire convention puts
/// the most specific component first, canonical order puts it last).
pub open spec fn spec_parse(input: Seq<char>) -> Result<Seq<RdnModel>, ErrorModel> {
    match scan(init_state(), Escaping::Idle, input) {
        Ok(rdns) => Ok(rdns.reverse()),
        Err(e) => Err(e),
    }
}

/// The spec-level image of the mutable scan pieces the parser threads.
spec fn state_of(
    rdns: Seq<RelativeDistinguishedName>,
    acc: Seq<u8>,
    ty: Option<RdnType>,
    hex: bool,
) -> ScanState {
    ScanState {
        rdns: rdns.map_values(|r: RelativeDistinguishedName| r@),
        acc,
        ty,
        hex,
    }
}

/// Takes the accumulator as the current RDN's type text.
fn take_type_step(acc: &mut Vec<u8>, ty: &mut Option<RdnType>, Ghost(st): Ghost<ScanState>) -> (r:
    Result<(), Error>)
    requires
        st.acc == old(acc)@,
        st.ty == *old(ty),
    ensures
        match r {
            Ok(_) => take_type(st) == Ok::<ScanState, ErrorModel>(
                (ScanState { rdns: st.rdns, acc: final(acc)@, ty: *final(ty), hex: st.hex }),
            ),
            Err(e) => take_type(st) == Err::<ScanState, ErrorModel>(e@) && final(acc)@ == old(acc)@
                && *final(ty) == *old(ty),
        },
{
    if ty.is_some() {
        return Err(Error::UnexpectedCharacter('='));
    }
    let decoded = match utf8_to_chars(acc.as_slice()) {
        Some(cs) => cs,
        None => {
            return Err(Error::Utf8DecodingFailed);
        },
    };
    let t = trim_chars(decoded.as_slice());
    if t.len() == 0 {
        return Err(Error::UnexpectedCharacter('='));
    }
    let resolved = match RdnType::resolve(t.as_slice()) {
        Ok(v) => v,
        Err(e) => {
            return Err(e);
        },
    };
    *ty = Some(resolved);
    acc.clear();
    Ok(())
}

/// Completes the current RDN at a comma or at the end of the input.
fn finish_rdn_step(
    rdns: &mut Vec<RelativeDistinguishedName>,
    acc: &mut Vec<u8>,
    ty: &mut Option<RdnType>,
    hex: &mut bool,
    at_eof: bool,
    Ghost(st): Ghost<ScanState>,
) -> (r: Result<(), Error>)
    requires
        st == state_of(old(rdns)@, old(acc)@, *old(ty), *old(hex)),
    ensures
        match r {
            Ok(_) => finish_rdn(st, at_eof) == Ok::<ScanState, ErrorModel>(
                state_of(final(rdns)@, final(acc)@, *final(ty), *final(hex)),
            ),
            Err(e) => finish_rdn(st, at_eof) == Err::<ScanState, ErrorModel>(e@),
        },
{
    let decoded = match utf8_to_chars(acc.as_slice()) {
        Some(cs) => cs,
        None => {
            return Err(Error::Utf8DecodingFailed);
        },
    };
    let v = trim_chars(decoded.as_slice());
    if v.len() == 0 && at_eof && ty.is_none() {
        return Ok(());
    }
    if v.len() == 0 || ty.is_none() {
        return Err(
            if at_eof {
                Error::UnexpectedEof
            } else {
                Error::UnexpectedCharacter(',')
            },
        );
    }
    let tyv = ty.unwrap();
    let value: String;
    if *hex {
        let bytes = match hex_decode_chars(v.as_slice()) {
            Some(bs) => bs,
            None => {
                return Err(Error::HexDecodingFailed);
            },
        };
        let vchars = match utf8_to_chars(bytes.as_slice()) {
            Some(cs) => cs,
            None => {
                return Err(Error::Utf8DecodingFailed);
            },
        };
        value = chars_to_string(vchars.as_slice());
        *hex = false;
    } else {
        value = chars_to_string(v.as_slice());
    }
    *ty = None;
    acc.clear();
    let ghost rdns0 = rdns@;
    let rdn = RelativeDistinguishedName::new(tyv, value);
    let ghost rm = rdn@;
    rdns.push(rdn);
    proof {
        let f = |r: RelativeDistinguishedName| r@;
        assert(rdns@.map_values(f) =~= rdns0.map_values(f).push(rm));
    }
    Ok(())
}

impl DistinguishedName {
    /// Parse a DN from its canonical textual form.
    pub fn parse(s: &str) -> (r: Result<DistinguishedName, Error>)
        ensures
            match r {
                Ok(dn) => spec_parse(s@) == Ok::<Seq<RdnModel>, ErrorModel>(dn@),
                Err(e) => spec_parse(s@) == Err::<Seq<RdnModel>, ErrorModel>(e@),
            },
    {
        let chars = str_to_chars(s);
        let n = chars.len();
        let mut rdns: Vec<RelativeDistinguishedName> = Vec::new();
        let mut acc: Vec<u8> = Vec::new();
        let mut ty: Option<RdnType> = None;
        let mut hex: bool = false;
        let mut esc: Escaping = Escaping::Idle;
        let mut i: usize = 0;
        proof {
            assert(chars@.skip(0) =~= chars@);
            assert(state_of(rdns@, acc@, ty, hex) == init_state()) by {
                assert(rdns@.map_values(|r: RelativeDistinguishedName| r@) =~= Seq::<
                    RdnModel,
                >::empty());
            }
        }
        while i < n
            invariant
                0 <= i <= n,
                n == chars@.len(),
                chars@ == s@,
                scan(state_of(rdns@, acc@, ty, hex), esc, chars@.skip(i as int)) == scan(
                    init_state(),
                    Escaping::Idle,
                    s@,
                ),
            decreases n - i,
        {
            let ghost tail = chars@.skip(i as int);
            let ghost st0 = state_of(rdns@, acc@, ty, hex);
            assert(tail[0] == chars@[i as int]);
            assert(tail.drop_first() =~= chars@.skip(i + 1));
            let c = chars[i];
            if esc.is_pending() {
                let emitted = match esc.consume(c) {
                    Ok(o) => o,
                    Err(e) => {
                        return Err(e);
                    },
                };
                match emitted {
                    Some(b) => {
                        acc.push(b);
                    },
                    None => {},
                }
            } else if c == ',' {
                match finish_rdn_step(&mut rdns, &mut acc, &mut ty, &mut hex, false, Ghost(st0)) {
                    Ok(_) => {},
                    Err(e) => {
                        return Err(e);
                    },
                }
            } else if c == '=' {
                match take_type_step(&mut acc, &mut ty, Ghost(st0)) {
                    Ok(_) => {},
                    Err(e) => {
                        return Err(e);
                    },
                }
            } else if c == '\\' {
                esc = Escaping::Started;
            } else if c == '#' {
                if acc.len() == 0 {
                    hex = true;
                } else {
                    acc.push(35u8);
                }
            } else if c == '+' {
                return Err(Error::UnsupportedMultiValueRdns);
            } else {
                push_utf8_char(&mut acc, c);
            }
            i += 1;
        }
        assert(chars@.skip(n as int) =~= Seq::<char>::empty());
        if esc.is_pending() {
            // the input may not end in the middle of an escape sequence
            return Err(Error::UnexpectedEof);
        }
        let ghost st0 = state_of(rdns@, acc@, ty, hex);
        assert(scan(st0, esc, Seq::<char>::empty()) == scan(init_state(), Escaping::Idle, s@));
        match finish_rdn_step(&mut rdns, &mut acc, &mut ty, &mut hex, true, Ghost(st0)) {
            Ok(_) => {},
            Err(e) => {
                return Err(e);
            },
        }
        // the wire order puts the most specific component first; reverse
        // into canonical storage order
        let ghost collected = rdns@.map_values(|r: RelativeDistinguishedName| r@);
        assert(scan(init_state(), Escaping::Idle, s@) == Ok::<Seq<RdnModel>, ErrorModel>(
            collected,
        ));
        let ghost m = rdns@.len();
        let mut rev: Vec<RelativeDistinguishedName> = Vec::new();
        proof {
            assert(rdns@.map_values(|r: RelativeDistinguishedName| r@) =~= collected.take(
                rdns@.len() as int,
            ));
            assert(rev@.map_values(|r: RelativeDistinguishedName| r@) =~= collected.skip(
                rdns@.len() as int,
            ).reverse());
        }
        while rdns.len() > 0
            invariant
                rdns@.len() + rev@.len() == m,
                m == collected.len(),
                rdns@.map_values(|r: RelativeDistinguishedName| r@) == collected.take(
                    rdns@.len() as int,
                ),
                rev@.map_values(|r: RelativeDistinguishedName| r@) == collected.skip(
                    rdns@.len() as int,
                ).reverse(),
            decreases rdns@.len(),
        {
            let ghost k = rdns@.len() as int;
            let ghost rdns0 = rdns@;
            let ghost rev0 = rev@;
            let x = rdns.pop().unwrap();
            let ghost xm = x@;
            rev.push(x);
            proof {
                let f = |r: RelativeDistinguishedName| r@;
                assert(forall|j: int|
                    0 <= j < rdns@.len() ==> #[trigger] rdns@.map_values(f)[j] == rdns0.map_values(
                        f,
                    )[j]);
                assert(rdns@.map_values(f) =~= collected.take(rdns@.len() as int));
                assert(xm == rdns0.map_values(f)[k - 1]);
                assert(xm == collected[k - 1]);
                assert(rev@.map_values(f) =~= rev0.map_values(f).push(xm));
                assert(rev@.map_values(f) =~= collected.skip(k - 1).reverse());
            }
        }
        proof {
            assert(collected.skip(0) =~= collected);
        }
        let dn = DistinguishedName::new(rev);
        Ok(dn)
    }
}

impl core::str::FromStr for DistinguishedName {
    type Err = Error;

    fn from_str(s: &str) -> Result<DistinguishedName, Error> {
        DistinguishedName::parse(s)
    }
}

} // verus!
