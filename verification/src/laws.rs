//! The round-trip law: re-parsing a serialized DN restores it. The proof
//! walks the scan through a serialized RDN piece by piece — label, `=`,
//! and the escaped or hex-encoded value — and then composes the pieces
//! over the whole comma-joined wire string.

use vstd::prelude::*;
use vstd::utf8::{decode_utf8, encode_scalar, encode_utf8, encode_utf8_decode_utf8,
    encode_utf8_valid_utf8, valid_utf8};

use crate::compare::{classify, filter_value, find_marker, normalize_value, org_id_marker,
    spec_dn_comparator, spec_rdn_comparator, CharClass};
use crate::dn::{escape_value, is_reserved, serialize_rdn, serialize_wire, serialize_wire_tail,
    spec_serialize, RdnModel};
use crate::hexcode::{hex_char_of_nibble, hex_decode, hex_digit_value, hex_encode};
use crate::parse::{esc_consume, finish_rdn, init_state, normal_step, scan, spec_parse, take_type,
    Escaping, ScanState};
use crate::rdn_type::{spec_resolve, RdnType};
use crate::text::{is_space, lower_char, lower_seq, trim, trim_end, trim_start};
use crate::ErrorModel;

verus! {

/// True for a character that the unescaped scan copies literally: not a
/// separator, not the escape or hex introducer, and not the multi-value
/// joiner.
pub open spec fn plain_char(c: char) -> bool {
    !(c == ',' || c == '=' || c == '\\' || c == '#' || c == '+')
}

/// A one-byte character's UTF-8 encoding is that byte alone.
proof fn lemma_ascii_encode(c: char)
    requires
        c as u32 <= 0x7F,
    ensures
        encode_scalar(c as u32) == seq![c as u8],
{
    let u = c as u32;
    assert((u & 0x7F) as u8 == u as u8) by (bit_vector)
        requires
            u <= 0x7F,
    ;
}

/// Scanning characters that are all literal appends their UTF-8 encoding
/// to the accumulator and changes nothing else.
proof fn lemma_scan_plain(st: ScanState, t: Seq<char>, rest: Seq<char>)
    requires
        forall|j: int| 0 <= j < t.len() ==> plain_char(#[trigger] t[j]),
    ensures
        scan(st, Escaping::Idle, t + rest) == scan(
            (ScanState { rdns: st.rdns, acc: st.acc + encode_utf8(t), ty: st.ty, hex: st.hex }),
            Escaping::Idle,
            rest,
        ),
    decreases t.len(),
{
    if t.len() == 0 {
        assert(t + rest =~= rest);
        assert(st.acc + encode_utf8(t) =~= st.acc);
        assert((ScanState { rdns: st.rdns, acc: st.acc + encode_utf8(t), ty: st.ty, hex: st.hex })
            =~= st);
    } else {
        let c = t[0];
        let input = t + rest;
        assert(input.len() > 0 && input[0] == c);
        assert(plain_char(c));
        let st2 = ScanState { rdns: st.rdns, acc: st.acc + encode_scalar(c as u32), ty: st.ty, hex: st.hex };
        assert(normal_step(st, c) == Ok::<ScanState, ErrorModel>(st2));
        assert(input.drop_first() =~= t.drop_first() + rest);
        assert(scan(st, Escaping::Idle, input) == scan(st2, Escaping::Idle, t.drop_first() + rest));
        lemma_scan_plain(st2, t.drop_first(), rest);
        assert(st2.acc + encode_utf8(t.drop_first()) =~= st.acc + encode_utf8(t));
        assert((ScanState {
            rdns: st2.rdns,
            acc: st2.acc + encode_utf8(t.drop_first()),
            ty: st2.ty,
            hex: st2.hex,
        }) =~= (ScanState { rdns: st.rdns, acc: st.acc + encode_utf8(t), ty: st.ty, hex: st.hex }));
    }
}

/// Scanning the escaped form of any value appends the value's UTF-8
/// encoding to the accumulator and changes nothing else.
proof fn lemma_scan_escaped(st: ScanState, v: Seq<char>, rest: Seq<char>)
    ensures
        scan(st, Escaping::Idle, escape_value(v) + rest) == scan(
            (ScanState { rdns: st.rdns, acc: st.acc + encode_utf8(v), ty: st.ty, hex: st.hex }),
            Escaping::Idle,
            rest,
        ),
    decreases v.len(),
{
    if v.len() == 0 {
        assert(escape_value(v) + rest =~= rest);
        assert(st.acc + encode_utf8(v) =~= st.acc);
        assert((ScanState { rdns: st.rdns, acc: st.acc + encode_utf8(v), ty: st.ty, hex: st.hex })
            =~= st);
    } else {
        let c = v[0];
        let input = escape_value(v) + rest;
        if is_reserved(c) {
            assert(c as u32 <= 0x7F);
            assert(escape_value(v) =~= seq!['\\', c] + escape_value(v.drop_first()));
            assert(input[0] == '\\');
            let after_bs = input.drop_first();
            assert(scan(st, Escaping::Idle, input) == scan(st, Escaping::Started, after_bs));
            assert(after_bs.len() > 0 && after_bs[0] == c);
            assert(esc_consume(Escaping::Started, c) == Ok::<(Escaping, Option<u8>), ErrorModel>(
                (Escaping::Idle, Some(c as u8)),
            ));
            let st2 = ScanState { rdns: st.rdns, acc: st.acc.push(c as u8), ty: st.ty, hex: st.hex };
            assert(scan(st, Escaping::Started, after_bs) == scan(
                st2,
                Escaping::Idle,
                after_bs.drop_first(),
            ));
            assert(after_bs.drop_first() =~= escape_value(v.drop_first()) + rest);
            lemma_scan_escaped(st2, v.drop_first(), rest);
            lemma_ascii_encode(c);
            assert(st2.acc + encode_utf8(v.drop_first()) =~= st.acc + encode_utf8(v));
            assert((ScanState {
                rdns: st2.rdns,
                acc: st2.acc + encode_utf8(v.drop_first()),
                ty: st2.ty,
                hex: st2.hex,
            }) =~= (ScanState {
                rdns: st.rdns,
                acc: st.acc + encode_utf8(v),
                ty: st.ty,
                hex: st.hex,
            }));
        } else {
            assert(plain_char(c));
            assert(escape_value(v) =~= seq![c] + escape_value(v.drop_first()));
            assert(input[0] == c);
            let st2 = ScanState {
                rdns: st.rdns,
                acc: st.acc + encode_scalar(c as u32),
                ty: st.ty,
                hex: st.hex,
            };
            assert(normal_step(st, c) == Ok::<ScanState, ErrorModel>(st2));
            assert(scan(st, Escaping::Idle, input) == scan(
                st2,
                Escaping::Idle,
                input.drop_first(),
            ));
            assert(input.drop_first() =~= escape_value(v.drop_first()) + rest);
            lemma_scan_escaped(st2, v.drop_first(), rest);
            assert(st2.acc + encode_utf8(v.drop_first()) =~= st.acc + encode_utf8(v));
            assert((ScanState {
                rdns: st2.rdns,
                acc: st2.acc + encode_utf8(v.drop_first()),
                ty: st2.ty,
                hex: st2.hex,
            }) =~= (ScanState {
                rdns: st.rdns,
                acc: st.acc + encode_utf8(v),
                ty: st.ty,
                hex: st.hex,
            }));
        }
    }
}

/// A sequence whose first and last characters are not whitespace is
/// already trimmed.
proof fn lemma_trim_stable(s: Seq<char>)
    requires
        s.len() > 0,
        !is_space(s[0]),
        !is_space(s.last()),
    ensures
        trim(s) == s,
{
    assert(trim_start(s) == s);
    assert(trim_end(s) == s);
}

/// The hex digit written for a nibble reads back as that nibble.
proof fn lemma_nibble_round_trip(n: u8)
    requires
        n < 16,
    ensures
        hex_digit_value(hex_char_of_nibble(n)) == Some(n),
        48 <= hex_char_of_nibble(n) as u32 <= 57 || 97 <= hex_char_of_nibble(n) as u32 <= 102,
{
}

/// Every character of a hex encoding is a hex digit, hence literal to the
/// scan and not whitespace.
proof fn lemma_hex_encode_chars(bs: Seq<u8>)
    ensures
        hex_encode(bs).len() == 2 * bs.len(),
        forall|j: int|
            0 <= j < hex_encode(bs).len() ==> (48 <= (#[trigger] hex_encode(bs)[j]) as u32 <= 57
                || 97 <= hex_encode(bs)[j] as u32 <= 102),
    decreases bs.len(),
{
    if bs.len() > 0 {
        lemma_nibble_round_trip(bs[0] / 16);
        lemma_nibble_round_trip(bs[0] % 16);
        lemma_hex_encode_chars(bs.drop_first());
        assert(forall|j: int|
            2 <= j < hex_encode(bs).len() ==> #[trigger] hex_encode(bs)[j] == hex_encode(
                bs.drop_first(),
            )[j - 2]);
    }
}

/// Reading back a hex encoding restores the bytes.
proof fn lemma_hex_round_trip(bs: Seq<u8>)
    ensures
        hex_decode(hex_encode(bs)) == Some(bs),
    decreases bs.len(),
{
    let s = hex_encode(bs);
    if bs.len() == 0 {
        assert(hex_decode(s) == Some(Seq::<u8>::empty()));
        assert(Seq::<u8>::empty() =~= bs);
    } else {
        let hi = bs[0] / 16;
        let lo = bs[0] % 16;
        lemma_nibble_round_trip(hi);
        lemma_nibble_round_trip(lo);
        lemma_hex_encode_chars(bs);
        assert(s.len() >= 2);
        assert(s[0] == hex_char_of_nibble(hi) && s[1] == hex_char_of_nibble(lo));
        assert(s.skip(2) =~= hex_encode(bs.drop_first()));
        lemma_hex_round_trip(bs.drop_first());
        assert(hi * 16 + lo == bs[0]);
        assert(seq![(hi * 16 + lo) as u8] + bs.drop_first() =~= bs);
    }
}

/// A non-empty character sequence has a non-empty UTF-8 encoding.
proof fn lemma_encode_nonempty(v: Seq<char>)
    requires
        v.len() > 0,
    ensures
        encode_utf8(v).len() > 0,
{
    assert(encode_scalar(v[0] as u32).len() >= 1);
}

/// Two sequences differing at one position are different.
proof fn lemma_neq_at(a: Seq<char>, b: Seq<char>, j: int)
    requires
        0 <= j < a.len(),
        0 <= j < b.len(),
        a[j] != b[j],
    ensures
        a != b,
{
    assert(a != b) by {
        if a == b {
            assert(a[j] == b[j]);
        }
    }
}

/// Each registry label resolves back to its own type, is already trimmed,
/// is not empty, and contains only characters the scan copies literally.
proof fn lemma_label(ty: RdnType)
    ensures
        spec_resolve(ty.spec_label()) == Ok::<RdnType, ErrorModel>(ty),
        trim(ty.spec_label()) == ty.spec_label(),
        ty.spec_label().len() > 0,
        forall|j: int| 0 <= j < ty.spec_label().len() ==> plain_char(#[trigger] ty.spec_label()[j]),
{
    reveal_strlit("CN");
    reveal_strlit("L");
    reveal_strlit("ST");
    reveal_strlit("O");
    reveal_strlit("OU");
    reveal_strlit("C");
    reveal_strlit("STREET");
    reveal_strlit("DC");
    reveal_strlit("UID");
    reveal_strlit("cn");
    reveal_strlit("2.5.4.3");
    reveal_strlit("l");
    reveal_strlit("2.5.4.7");
    reveal_strlit("st");
    reveal_strlit("2.5.4.8");
    reveal_strlit("o");
    reveal_strlit("2.5.4.10");
    reveal_strlit("ou");
    reveal_strlit("c");
    reveal_strlit("2.5.4.6");
    reveal_strlit("street");
    reveal_strlit("2.5.4.9");
    reveal_strlit("dc");
    reveal_strlit("0.9.2342.19200300.100.1.25");
    reveal_strlit("uid");
    reveal_strlit("0.9.2342.19200300.100.1.1");
    reveal_strlit("businesscategory");
    reveal_strlit("2.5.4.15");
    reveal_strlit("jurisdictioncountryname");
    reveal_strlit("1.3.6.1.4.1.311.60.2.1.3");
    reveal_strlit("serialnumber");
    reveal_strlit("2.5.4.5");
    reveal_strlit("organizationidentifier");
    reveal_strlit("2.5.4.97");
    reveal_strlit("organizationalunitname");
    reveal_strlit("2.5.4.11");
    let lab = ty.spec_label();
    match ty {
        RdnType::Cn => {
            assert(lower_seq(lab) =~= "cn"@);
            assert(spec_resolve(lab) == Ok::<RdnType, ErrorModel>(ty));
        },
        RdnType::L => {
            assert(lower_seq(lab) =~= "l"@);
            assert(spec_resolve(lab) == Ok::<RdnType, ErrorModel>(ty));
        },
        RdnType::St => {
            lemma_neq_at("st"@, "cn"@, 0);
            assert(lower_seq(lab) =~= "st"@);
            assert(spec_resolve(lab) == Ok::<RdnType, ErrorModel>(ty));
        },
        RdnType::O => {
            lemma_neq_at("o"@, "l"@, 0);
            assert(lower_seq(lab) =~= "o"@);
            assert(spec_resolve(lab) == Ok::<RdnType, ErrorModel>(ty));
        },
        RdnType::Ou => {
            lemma_neq_at("ou"@, "cn"@, 0);
            lemma_neq_at("ou"@, "st"@, 0);
            assert(lower_seq(lab) =~= "ou"@);
            assert(spec_resolve(lab) == Ok::<RdnType, ErrorModel>(ty));
        },
        RdnType::C => {
            lemma_neq_at("c"@, "l"@, 0);
            lemma_neq_at("c"@, "o"@, 0);
            assert(lower_seq(lab) =~= "c"@);
            assert(spec_resolve(lab) == Ok::<RdnType, ErrorModel>(ty));
        },
        RdnType::Street => {
            assert(lower_seq(lab) =~= "street"@);
            assert(spec_resolve(lab) == Ok::<RdnType, ErrorModel>(ty));
        },
        RdnType::Dc => {
            lemma_neq_at("dc"@, "cn"@, 0);
            lemma_neq_at("dc"@, "st"@, 0);
            lemma_neq_at("dc"@, "ou"@, 0);
            assert(lower_seq(lab) =~= "dc"@);
            assert(spec_resolve(lab) == Ok::<RdnType, ErrorModel>(ty));
        },
        RdnType::Uid => {
            assert(lower_seq(lab) =~= "uid"@);
            assert(spec_resolve(lab) == Ok::<RdnType, ErrorModel>(ty));
        },
        RdnType::BusinessCategory => {
            lemma_neq_at("2.5.4.15"@, "2.5.4.10"@, 7);
            assert(lower_seq(lab) =~= "2.5.4.15"@);
            assert(spec_resolve(lab) == Ok::<RdnType, ErrorModel>(ty));
        },
        RdnType::JurisdictionCountryName => {
            assert(lower_seq(lab) =~= "1.3.6.1.4.1.311.60.2.1.3"@);
            assert(spec_resolve(lab) == Ok::<RdnType, ErrorModel>(ty));
        },
        RdnType::SerialNumber => {
            lemma_neq_at("2.5.4.5"@, "2.5.4.3"@, 6);
            lemma_neq_at("2.5.4.5"@, "2.5.4.7"@, 6);
            lemma_neq_at("2.5.4.5"@, "2.5.4.8"@, 6);
            lemma_neq_at("2.5.4.5"@, "2.5.4.6"@, 6);
            lemma_neq_at("2.5.4.5"@, "2.5.4.9"@, 6);
            assert(lower_seq(lab) =~= "2.5.4.5"@);
            assert(spec_resolve(lab) == Ok::<RdnType, ErrorModel>(ty));
        },
        RdnType::OrganizationIdentifier => {
            lemma_neq_at("2.5.4.97"@, "2.5.4.10"@, 6);
            lemma_neq_at("2.5.4.97"@, "2.5.4.15"@, 6);
            assert(lower_seq(lab) =~= "2.5.4.97"@);
            assert(spec_resolve(lab) == Ok::<RdnType, ErrorModel>(ty));
        },
        RdnType::OrganizationalUnitName => {
            lemma_neq_at("2.5.4.11"@, "2.5.4.10"@, 7);
            lemma_neq_at("2.5.4.11"@, "2.5.4.15"@, 7);
            lemma_neq_at("2.5.4.11"@, "2.5.4.97"@, 6);
            assert(lower_seq(lab) =~= "2.5.4.11"@);
            assert(spec_resolve(lab) == Ok::<RdnType, ErrorModel>(ty));
        },
    }
    assert(!is_space(lab[0]) && !is_space(lab.last()));
    lemma_trim_stable(lab);
}

/// The scan state between complete RDNs: nothing accumulated, no type
/// pending, no hex marker.
spec fn fresh_state(rdns: Seq<RdnModel>) -> ScanState {
    ScanState { rdns, acc: Seq::empty(), ty: None, hex: false }
}

/// The accumulator contents after the whole value part of a serialized
/// RDN has been scanned.
spec fn payload_acc(r: RdnModel) -> Seq<u8> {
    if r.ty.spec_encodes_as_hex() {
        encode_utf8(hex_encode(encode_utf8(r.value)))
    } else {
        encode_utf8(r.value)
    }
}

/// The scan state right after the whole serialized RDN has been scanned,
/// before its terminating comma or the end of the input.
spec fn after_rdn(rdns: Seq<RdnModel>, r: RdnModel) -> ScanState {
    ScanState {
        rdns,
        acc: payload_acc(r),
        ty: Some(r.ty),
        hex: r.ty.spec_encodes_as_hex(),
    }
}

/// Scanning one serialized RDN from a between-RDNs state accumulates its
/// value and records its type.
proof fn lemma_scan_rdn(rdns: Seq<RdnModel>, r: RdnModel, rest: Seq<char>)
    ensures
        scan(fresh_state(rdns), Escaping::Idle, serialize_rdn(r) + rest) == scan(
            after_rdn(rdns, r),
            Escaping::Idle,
            rest,
        ),
{
    let lab = r.ty.spec_label();
    lemma_label(r.ty);
    let payload = if r.ty.spec_encodes_as_hex() {
        seq!['#'] + hex_encode(encode_utf8(r.value))
    } else {
        escape_value(r.value)
    };
    assert(serialize_rdn(r) + rest =~= lab + (seq!['='] + (payload + rest)));
    let st0 = fresh_state(rdns);
    lemma_scan_plain(st0, lab, seq!['='] + (payload + rest));
    let st1 = ScanState { rdns, acc: Seq::empty() + encode_utf8(lab), ty: None, hex: false };
    assert((ScanState { rdns: st0.rdns, acc: st0.acc + encode_utf8(lab), ty: st0.ty, hex: st0.hex })
        =~= st1);
    // the equals sign takes the accumulated label as the type
    let input1 = seq!['='] + (payload + rest);
    assert(input1[0] == '=');
    assert(input1.drop_first() =~= payload + rest);
    encode_utf8_valid_utf8(lab);
    encode_utf8_decode_utf8(lab);
    assert(st1.acc =~= encode_utf8(lab));
    let st2 = ScanState { rdns, acc: Seq::empty(), ty: Some(r.ty), hex: false };
    assert(take_type(st1) == Ok::<ScanState, ErrorModel>(st2));
    assert(normal_step(st1, '=') == Ok::<ScanState, ErrorModel>(st2));
    assert(scan(st1, Escaping::Idle, input1) == scan(st2, Escaping::Idle, payload + rest));
    if r.ty.spec_encodes_as_hex() {
        // the octothorpe marks the value as hex, then the digits follow
        let digits = hex_encode(encode_utf8(r.value));
        assert(payload + rest =~= seq!['#'] + (digits + rest));
        let input2 = seq!['#'] + (digits + rest);
        assert(input2[0] == '#');
        assert(input2.drop_first() =~= digits + rest);
        let st3 = ScanState { rdns, acc: Seq::empty(), ty: Some(r.ty), hex: true };
        assert(normal_step(st2, '#') == Ok::<ScanState, ErrorModel>(st3));
        assert(scan(st2, Escaping::Idle, input2) == scan(st3, Escaping::Idle, digits + rest));
        lemma_hex_encode_chars(encode_utf8(r.value));
        assert(forall|j: int| 0 <= j < digits.len() ==> plain_char(#[trigger] digits[j]));
        lemma_scan_plain(st3, digits, rest);
        assert((ScanState {
            rdns: st3.rdns,
            acc: st3.acc + encode_utf8(digits),
            ty: st3.ty,
            hex: st3.hex,
        }) =~= after_rdn(rdns, r));
    } else {
        lemma_scan_escaped(st2, r.value, rest);
        assert((ScanState {
            rdns: st2.rdns,
            acc: st2.acc + encode_utf8(r.value),
            ty: st2.ty,
            hex: st2.hex,
        }) =~= after_rdn(rdns, r));
    }
}

/// Completing a scanned RDN at a comma or at the end of the input appends
/// exactly that RDN and returns to a between-RDNs state.
proof fn lemma_finish_after(rdns: Seq<RdnModel>, r: RdnModel, at_eof: bool)
    requires
        r.value.len() > 0,
        r.ty.spec_encodes_as_hex() || trim(r.value) == r.value,
    ensures
        finish_rdn(after_rdn(rdns, r), at_eof) == Ok::<ScanState, ErrorModel>(
            fresh_state(rdns.push(r)),
        ),
{
    let st = after_rdn(rdns, r);
    if r.ty.spec_encodes_as_hex() {
        let bytes = encode_utf8(r.value);
        let digits = hex_encode(bytes);
        encode_utf8_valid_utf8(digits);
        encode_utf8_decode_utf8(digits);
        lemma_hex_encode_chars(bytes);
        lemma_encode_nonempty(r.value);
        assert(digits.len() > 0);
        assert(!is_space(digits[0]) && !is_space(digits.last()));
        lemma_trim_stable(digits);
        assert(trim(decode_utf8(st.acc)) == digits);
        lemma_hex_round_trip(bytes);
        encode_utf8_valid_utf8(r.value);
        encode_utf8_decode_utf8(r.value);
        assert(RdnModel { ty: r.ty, value: decode_utf8(bytes) } =~= r);
        assert(finish_rdn(st, at_eof) == Ok::<ScanState, ErrorModel>(
            (ScanState {
                rdns: rdns.push(RdnModel { ty: r.ty, value: decode_utf8(bytes) }),
                acc: Seq::empty(),
                ty: None,
                hex: false,
            }),
        ));
        assert((ScanState {
            rdns: rdns.push(RdnModel { ty: r.ty, value: decode_utf8(bytes) }),
            acc: Seq::empty(),
            ty: None,
            hex: false,
        }) =~= fresh_state(rdns.push(r)));
    } else {
        encode_utf8_valid_utf8(r.value);
        encode_utf8_decode_utf8(r.value);
        assert(trim(decode_utf8(st.acc)) == r.value);
        assert(RdnModel { ty: r.ty, value: r.value } =~= r);
        assert((ScanState {
            rdns: rdns.push(RdnModel { ty: r.ty, value: r.value }),
            acc: Seq::empty(),
            ty: None,
            hex: false,
        }) =~= fresh_state(rdns.push(r)));
    }
}

/// The end of the input on a between-RDNs state completes the DN with the
/// RDNs collected so far.
proof fn lemma_scan_end(rdns: Seq<RdnModel>)
    ensures
        scan(fresh_state(rdns), Escaping::Idle, Seq::<char>::empty()) == Ok::<
            Seq<RdnModel>,
            ErrorModel,
        >(rdns),
{
    let st = fresh_state(rdns);
    assert(valid_utf8(st.acc));
    assert(decode_utf8(st.acc) =~= Seq::<char>::empty());
    assert(trim(Seq::<char>::empty()) =~= Seq::<char>::empty());
    assert(finish_rdn(st, true) == Ok::<ScanState, ErrorModel>(st));
}

/// Scanning a whole serialized wire list from a between-RDNs state
/// appends all of its RDNs in order.
proof fn lemma_scan_wire(rdns: Seq<RdnModel>, w: Seq<RdnModel>)
    requires
        forall|i: int|
            0 <= i < w.len() ==> (#[trigger] w[i]).value.len() > 0 && (w[i].ty.spec_encodes_as_hex()
                || trim(w[i].value) == w[i].value),
    ensures
        scan(fresh_state(rdns), Escaping::Idle, serialize_wire(w)) == Ok::<
            Seq<RdnModel>,
            ErrorModel,
        >(rdns + w),
    decreases w.len(),
{
    if w.len() == 0 {
        lemma_scan_end(rdns);
        assert(rdns + w =~= rdns);
    } else if w.len() == 1 {
        assert(serialize_wire_tail(w.drop_first()) =~= Seq::<char>::empty());
        assert(serialize_wire(w) =~= serialize_rdn(w[0]) + Seq::<char>::empty());
        lemma_scan_rdn(rdns, w[0], Seq::<char>::empty());
        lemma_finish_after(rdns, w[0], true);
        assert(scan(after_rdn(rdns, w[0]), Escaping::Idle, Seq::<char>::empty()) == Ok::<
            Seq<RdnModel>,
            ErrorModel,
        >(rdns.push(w[0])));
        assert(rdns.push(w[0]) =~= rdns + w);
    } else {
        let s = w.drop_first();
        let rest1 = serialize_wire(s);
        assert(rest1 =~= serialize_rdn(s[0]) + serialize_wire_tail(s.drop_first()));
        assert(serialize_wire_tail(s) =~= seq![','] + rest1);
        assert(serialize_wire(w) =~= serialize_rdn(w[0]) + (seq![','] + rest1));
        lemma_scan_rdn(rdns, w[0], seq![','] + rest1);
        let input1 = seq![','] + rest1;
        assert(input1[0] == ',');
        assert(input1.drop_first() =~= rest1);
        lemma_finish_after(rdns, w[0], false);
        assert(normal_step(after_rdn(rdns, w[0]), ',') == Ok::<ScanState, ErrorModel>(
            fresh_state(rdns.push(w[0])),
        ));
        assert(scan(after_rdn(rdns, w[0]), Escaping::Idle, input1) == scan(
            fresh_state(rdns.push(w[0])),
            Escaping::Idle,
            rest1,
        ));
        lemma_scan_wire(rdns.push(w[0]), s);
        assert(rdns.push(w[0]) + s =~= rdns + w);
    }
}

/// Round-trip fixed point: re-parsing the serialized form of a DN
/// restores the DN exactly, for every DN whose values are non-empty and,
/// for the types that are not hex-encoded, already trimmed. (A value with
/// leading or trailing whitespace cannot survive, because parsing trims
/// each non-hex value; re-serializing such a DN therefore changes the
/// string once and is stable from then on.)
pub proof fn lemma_serialize_parse_round_trip(rdns: Seq<RdnModel>)
    requires
        forall|i: int|
            0 <= i < rdns.len() ==> (#[trigger] rdns[i]).value.len() > 0 && (
            rdns[i].ty.spec_encodes_as_hex() || trim(rdns[i].value) == rdns[i].value),
    ensures
        spec_parse(spec_serialize(rdns)) == Ok::<Seq<RdnModel>, ErrorModel>(rdns),
{
    let w = rdns.reverse();
    assert(forall|i: int|
        0 <= i < w.len() ==> (#[trigger] w[i]).value.len() > 0 && (w[i].ty.spec_encodes_as_hex()
            || trim(w[i].value) == w[i].value)) by {
        assert(forall|i: int| 0 <= i < w.len() ==> #[trigger] w[i] == rdns[w.len() - 1 - i]);
    }
    assert(init_state() =~= fresh_state(Seq::<RdnModel>::empty()));
    lemma_scan_wire(Seq::<RdnModel>::empty(), w);
    assert(Seq::<RdnModel>::empty() + w =~= w);
    assert(scan(init_state(), Escaping::Idle, spec_serialize(rdns)) == Ok::<
        Seq<RdnModel>,
        ErrorModel,
    >(w));
    assert(w.reverse() =~= rdns);
}

/// The empty DN: parsing the empty string yields no RDNs, its comparable
/// projection is the empty sequence, and it serializes back to the empty
/// string.
pub proof fn lemma_empty_dn()
    ensures
        spec_parse(Seq::<char>::empty()) == Ok::<Seq<RdnModel>, ErrorModel>(
            Seq::<RdnModel>::empty(),
        ),
        spec_serialize(Seq::<RdnModel>::empty()) == Seq::<char>::empty(),
        spec_dn_comparator(Seq::<RdnModel>::empty()) == Ok::<Seq<RdnModel>, ErrorModel>(
            Seq::<RdnModel>::empty(),
        ),
{
    assert(init_state() =~= fresh_state(Seq::<RdnModel>::empty()));
    lemma_scan_end(Seq::<RdnModel>::empty());
    assert(Seq::<RdnModel>::empty().reverse() =~= Seq::<RdnModel>::empty());
    assert(serialize_wire(Seq::<RdnModel>::empty().reverse()) =~= Seq::<char>::empty());
}


/// Where the marker search succeeds, the marker indeed stands at the
/// found position.
proof fn lemma_find_marker_hit(v: Seq<char>, i: int)
    requires
        find_marker(v) == Some(i),
    ensures
        0 <= i,
        i + 6 <= v.len(),
        v.subrange(i, i + 6) == org_id_marker(),
    decreases v.len(),
{
    if v.len() < 6 {
    } else if v.subrange(0, 6) == org_id_marker() {
    } else {
        match find_marker(v.drop_first()) {
            Some(k) => {
                lemma_find_marker_hit(v.drop_first(), k);
                assert(v.drop_first().subrange(k, k + 6) =~= v.subrange(i, i + 6));
            },
            None => {},
        }
    }
}

/// Trimming from the end keeps everything up to the last non-whitespace
/// character, and the result is a prefix of the input.
proof fn lemma_trim_end_keeps(s: Seq<char>, k: int)
    requires
        0 <= k < s.len(),
        !is_space(s[k]),
    ensures
        trim_end(s).len() > k,
        trim_end(s).len() <= s.len(),
        trim_end(s) == s.subrange(0, trim_end(s).len() as int),
    decreases s.len(),
{
    if s.len() > 0 && is_space(s.last()) {
        assert(s.drop_last() =~= s.subrange(0, s.len() - 1));
        assert(s.drop_last()[k] == s[k]);
        lemma_trim_end_keeps(s.drop_last(), k);
        assert(trim_end(s) == trim_end(s.drop_last()));
        assert(s.drop_last().subrange(0, trim_end(s).len() as int) =~= s.subrange(
            0,
            trim_end(s).len() as int,
        ));
    } else {
        assert(s.subrange(0, s.len() as int) =~= s);
    }
}

/// Marker cleanup: whenever the comparable projection of an
/// organization-identifier RDN succeeds, its value starts with the
/// marker; everything before the first marker occurrence is gone.
pub proof fn lemma_org_id_comparator_starts_at_marker(m: RdnModel)
    requires
        m.ty == RdnType::OrganizationIdentifier,
        spec_rdn_comparator(m) is Ok,
    ensures
        spec_rdn_comparator(m)->Ok_0.value.len() >= 6,
        spec_rdn_comparator(m)->Ok_0.value.subrange(0, 6) == org_id_marker(),
{
    match crate::compare::filter_value(m.value) {
        Ok(filtered) => {
            let folded = lower_seq(filtered);
            match find_marker(folded) {
                Some(i) => {
                    lemma_find_marker_hit(folded, i);
                    let s = folded.skip(i);
                    assert(s.subrange(0, 6) =~= folded.subrange(i, i + 6));
                    assert(s[0] == 'o' && s[5] == '-');
                    assert(!is_space(s[0]));
                    assert(trim_start(s) == s);
                    lemma_trim_end_keeps(s, 5);
                    let t = trim_end(s);
                    assert(trim(s) == t);
                    assert(t.subrange(0, 6) =~= s.subrange(0, 6));
                },
                None => {},
            }
        },
        Err(_) => {},
    }
}


/// Order inversion: the serialized form of a two-component DN writes the
/// later (more specific) canonical component first.
pub proof fn lemma_serialize_order_inversion(a: RdnModel, b: RdnModel)
    ensures
        spec_serialize(seq![a, b]) == serialize_rdn(b) + seq![','] + serialize_rdn(a),
{
    let w = seq![a, b].reverse();
    assert(w =~= seq![b, a]);
    assert(w.drop_first() =~= seq![a]);
    assert(seq![a].drop_first() =~= Seq::<RdnModel>::empty());
    assert(serialize_wire_tail(Seq::<RdnModel>::empty()) =~= Seq::<char>::empty());
    assert(serialize_wire_tail(seq![a]) =~= seq![','] + serialize_rdn(a));
    assert(serialize_wire(w) =~= serialize_rdn(b) + seq![','] + serialize_rdn(a));
}

/// Characters with the same ASCII-lowercased form classify alike, and
/// only kept characters can differ at all (as an upper/lower-case ASCII
/// letter pair).
proof fn lemma_classify_case(a: char, b: char)
    requires
        lower_char(a) == lower_char(b),
    ensures
        classify(a) == classify(b),
        classify(a) != CharClass::Keep ==> a == b,
{
    let u = a as u32;
    let w = b as u32;
    if a != b {
        vstd::utf8::char_u32_cast(a, u);
        vstd::utf8::char_u32_cast(b, w);
        if 65 <= u <= 90 && 65 <= w <= 90 {
            assert(((u + 32) as char) as u32 == u + 32);
            assert(((w + 32) as char) as u32 == w + 32);
            assert(u == w);
            assert(false);
        } else if 65 <= u <= 90 {
            assert(((u + 32) as char) as u32 == u + 32);
            assert(w == u + 32);
        } else if 65 <= w <= 90 {
            assert(((w + 32) as char) as u32 == w + 32);
            assert(u == w + 32);
        } else {
            assert(a == b);
            assert(false);
        }
    }
}

/// The classification filter treats values that differ only in ASCII
/// letter case alike: it fails with the same error, or succeeds with
/// outputs that again differ only in ASCII letter case.
proof fn lemma_filter_case(v1: Seq<char>, v2: Seq<char>)
    requires
        lower_seq(v1) == lower_seq(v2),
    ensures
        match (filter_value(v1), filter_value(v2)) {
            (Ok(f1), Ok(f2)) => lower_seq(f1) == lower_seq(f2),
            (Err(e1), Err(e2)) => e1 == e2,
            _ => false,
        },
    decreases v1.len(),
{
    assert(v1.len() == v2.len()) by {
        assert(lower_seq(v1).len() == v1.len() && lower_seq(v2).len() == v2.len());
    }
    if v1.len() == 0 {
        assert(lower_seq(Seq::<char>::empty()) =~= Seq::<char>::empty());
    } else {
        let a = v1[0];
        let b = v2[0];
        assert(lower_seq(v1)[0] == lower_char(a) && lower_seq(v2)[0] == lower_char(b));
        lemma_classify_case(a, b);
        if classify(a) == CharClass::Prohibited {
        } else {
            assert(lower_seq(v1.drop_first()) =~= lower_seq(v2.drop_first())) by {
                assert(forall|j: int|
                    0 <= j < v1.len() - 1 ==> #[trigger] lower_seq(v1.drop_first())[j]
                        == lower_seq(v1)[j + 1] && lower_seq(v2.drop_first())[j] == lower_seq(
                        v2,
                    )[j + 1]);
            }
            lemma_filter_case(v1.drop_first(), v2.drop_first());
            match (filter_value(v1.drop_first()), filter_value(v2.drop_first())) {
                (Ok(r1), Ok(r2)) => {
                    let p1: Seq<char> = if classify(a) == CharClass::Space {
                        seq![' ']
                    } else if classify(a) == CharClass::Ignored {
                        Seq::empty()
                    } else {
                        seq![a]
                    };
                    let p2: Seq<char> = if classify(b) == CharClass::Space {
                        seq![' ']
                    } else if classify(b) == CharClass::Ignored {
                        Seq::empty()
                    } else {
                        seq![b]
                    };
                    assert(lower_seq(p1 + r1) =~= lower_seq(p1) + lower_seq(r1));
                    assert(lower_seq(p2 + r2) =~= lower_seq(p2) + lower_seq(r2));
                    assert(lower_seq(p1) =~= lower_seq(p2));
                },
                _ => {},
            }
        }
    }
}

/// Case folding: for a type that compares case-insensitively, values
/// that differ only in ASCII letter case have the same comparable
/// projection.
pub proof fn lemma_case_insensitive_comparator(ty: RdnType, v1: Seq<char>, v2: Seq<char>)
    requires
        !ty.spec_case_sensitive(),
        lower_seq(v1) == lower_seq(v2),
    ensures
        normalize_value(ty, v1) == normalize_value(ty, v2),
{
    lemma_filter_case(v1, v2);
    match (filter_value(v1), filter_value(v2)) {
        (Ok(f1), Ok(f2)) => {
            assert(lower_seq(f1) == lower_seq(f2));
        },
        _ => {},
    }
}


/// Rejection of multi-valued RDNs: wherever the scan stands, as long as
/// no escape sequence is pending, an unescaped `+` aborts the whole
/// parse at once with the multi-value error — no partial DN survives.
/// Since the scan threads every unescaped character of the input through
/// this step and propagates the first error, a parse that reaches an
/// unescaped `+` without failing earlier returns exactly this error.
pub proof fn lemma_unescaped_plus_rejected(st: ScanState, input: Seq<char>)
    requires
        input.len() > 0,
        input[0] == '+',
    ensures
        scan(st, Escaping::Idle, input) == Err::<Seq<RdnModel>, ErrorModel>(
            ErrorModel::UnsupportedMultiValueRdns,
        ),
{
    assert(normal_step(st, '+') == Err::<ScanState, ErrorModel>(
        ErrorModel::UnsupportedMultiValueRdns,
    ));
}


} // verus!
