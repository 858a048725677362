//! The distinguished-name value types and the serializer for the variant
//! string format: comma-joined `Label=Value` pairs in most-specific-first
//! (wire) order, with five designated types always hex-encoded and all
//! other values backslash-escaped for the ten reserved symbols.

use vstd::prelude::*;
use vstd::string::StrSliceExecFns;
use vstd::utf8::encode_utf8;

use crate::hexcode::{hex_encode, hex_encode_bytes};
use crate::rdn_type::RdnType;
use crate::text::{chars_to_string, str_to_chars};

verus! {

/// Spec-level image of one RDN: its type and its value text.
#[verifier::ext_equal]
pub struct RdnModel {
    pub ty: RdnType,
    pub value: Seq<char>,
}

/// A key-value pair that is part of a [`DistinguishedName`].
///
/// Multi-value RDNs are not supported.
#[derive(Clone, Debug)]
pub struct RelativeDistinguishedName {
    ty: RdnType,
    value: String,
}

impl View for RelativeDistinguishedName {
    type V = RdnModel;

    closed spec fn view(&self) -> RdnModel {
        RdnModel { ty: self.ty, value: self.value@ }
    }
}

impl RelativeDistinguishedName {
    /// Create a new RDN.
    pub fn new(ty: RdnType, value: String) -> (r: Self)
        ensures
            r@ == (RdnModel { ty, value: value@ }),
    {
        RelativeDistinguishedName { ty, value }
    }

    /// Get the type of this RDN.
    pub fn ty(&self) -> (r: RdnType)
        ensures
            r == self@.ty,
    {
        self.ty
    }

    /// Get the value of this RDN.
    pub fn value(&self) -> (r: &str)
        ensures
            r@ == self@.value,
    {
        self.value.as_str()
    }
}

/// True for the ten reserved symbols that are backslash-escaped wherever
/// they occur in a serialized value.
pub open spec fn is_reserved(c: char) -> bool {
    c == ' ' || c == '"' || c == '#' || c == '+' || c == ',' || c == ';' || c == '<' || c == '='
        || c == '>' || c == '\\'
}

/// Whether the character is one of the ten reserved symbols.
pub fn is_reserved_char(c: char) -> (r: bool)
    ensures
        r == is_reserved(c),
{
    c == ' ' || c == '"' || c == '#' || c == '+' || c == ',' || c == ';' || c == '<' || c == '='
        || c == '>' || c == '\\'
}

/// The value text with every reserved symbol preceded by a backslash,
/// applied to each character regardless of its position.
pub open spec fn escape_value(v: Seq<char>) -> Seq<char>
    decreases v.len(),
{
    if v.len() == 0 {
        Seq::empty()
    } else {
        (if is_reserved(v[0]) {
            seq!['\\', v[0]]
        } else {
            seq![v[0]]
        }) + escape_value(v.drop_first())
    }
}

/// The serialized form of one RDN: its label, `=`, and either `#` plus the
/// hex encoding of the value's UTF-8 bytes or the escaped value text.
pub open spec fn serialize_rdn(r: RdnModel) -> Seq<char> {
    r.ty.spec_label() + seq!['='] + if r.ty.spec_encodes_as_hex() {
        seq!['#'] + hex_encode(encode_utf8(r.value))
    } else {
        escape_value(r.value)
    }
}

/// The serialized forms of the RDNs given in wire order, joined by commas.
pub open spec fn serialize_wire(rs: Seq<RdnModel>) -> Seq<char> {
    if rs.len() == 0 {
        Seq::empty()
    } else {
        serialize_rdn(rs[0]) + serialize_wire_tail(rs.drop_first())
    }
}

/// The serialized forms of the remaining RDNs, each preceded by a comma.
pub open spec fn serialize_wire_tail(rs: Seq<RdnModel>) -> Seq<char>
    decreases rs.len(),
{
    if rs.len() == 0 {
        Seq::empty()
    } else {
        seq![','] + serialize_rdn(rs[0]) + serialize_wire_tail(rs.drop_first())
    }
}

/// The serialized form of a whole DN, given in canonical storage order:
/// the RDNs are written in the reverse of that order, restoring the wire
/// convention that the most specific component comes first.
pub open spec fn spec_serialize(rdns: Seq<RdnModel>) -> Seq<char> {
    serialize_wire(rdns.reverse())
}

/// The value of the first RDN of the given type, in canonical order.
pub open spec fn spec_find(rdns: Seq<RdnModel>, ty: RdnType) -> Option<Seq<char>>
    decreases rdns.len(),
{
    if rdns.len() == 0 {
        None
    } else if rdns[0].ty == ty {
        Some(rdns[0].value)
    } else {
        spec_find(rdns.drop_first(), ty)
    }
}

/// A distinguished name (DN).
///
/// DNs are composed of a sequence of key-value pairs called relative
/// distinguished names (RDNs), held in canonical order: the most specific
/// component last. The sequence may be empty, and duplicate types are
/// permitted and preserved.
#[derive(Clone, Debug)]
pub struct DistinguishedName {
    rdns: Vec<RelativeDistinguishedName>,
}

impl View for DistinguishedName {
    type V = Seq<RdnModel>;

    closed spec fn view(&self) -> Seq<RdnModel> {
        self.rdns@.map_values(|r: RelativeDistinguishedName| r@)
    }
}

impl DistinguishedName {
    /// Assemble a DN directly from RDNs given in canonical order.
    pub fn new(rdns: Vec<RelativeDistinguishedName>) -> (r: Self)
        ensures
            r@ == rdns@.map_values(|x: RelativeDistinguishedName| x@),
    {
        DistinguishedName { rdns }
    }

    /// Find the value of the first occurence of the given RDN type.
    pub fn find(&self, ty: RdnType) -> (r: Option<&str>)
        ensures
            match r {
                Some(v) => spec_find(self@, ty) == Some(v@),
                None => spec_find(self@, ty) is None,
            },
    {
        let n = self.rdns.len();
        let mut i: usize = 0;
        proof {
            assert(self@.skip(0) =~= self@);
        }
        while i < n
            invariant
                0 <= i <= n,
                n == self.rdns@.len(),
                self@ == self.rdns@.map_values(|r: RelativeDistinguishedName| r@),
                n == self@.len(),
                spec_find(self@, ty) == spec_find(self@.skip(i as int), ty),
            decreases n - i,
        {
            let ghost tail = self@.skip(i as int);
            assert(tail[0] == self@[i as int]);
            assert(tail.drop_first() =~= self@.skip(i + 1));
            if self.rdns[i].ty == ty {
                return Some(self.rdns[i].value.as_str());
            }
            i += 1;
        }
        assert(self@.skip(n as int) =~= Seq::<RdnModel>::empty());
        None
    }

    /// All RDNs of this DN, in canonical order, as a read-only view.
    pub fn iter(&self) -> (r: &[RelativeDistinguishedName])
        ensures
            r@.map_values(|x: RelativeDistinguishedName| x@) == self@,
    {
        self.rdns.as_slice()
    }

    /// Serialize into the variant string format: the RDNs in reverse
    /// canonical order, joined by commas, each as `Label=Value` with the
    /// value hex-encoded or escaped as its type requires. Never fails.
    pub fn to_of_string(&self) -> (r: String)
        ensures
            r@ == spec_serialize(self@),
    {
        let ghost w = self@.reverse();
        let n = self.rdns.len();
        let mut out: Vec<char> = Vec::new();
        let mut j: usize = 0;
        proof {
            assert(self@.len() == n);
            assert(w.len() == n);
        }
        while j < n
            invariant
                0 <= j <= n,
                n == self.rdns@.len(),
                self@ == self.rdns@.map_values(|r: RelativeDistinguishedName| r@),
                w == self@.reverse(),
                n == w.len(),
                serialize_wire(w) == out@ + (if j == 0 {
                    serialize_wire(w)
                } else {
                    serialize_wire_tail(w.skip(j as int))
                }),
            decreases n - j,
        {
            let idx = n - 1 - j;
            assert(w[j as int] == self@[idx as int]);
            if j > 0 {
                out.push(',');
            }
            let piece = serialize_rdn_chars(&self.rdns[idx]);
            let mut k: usize = 0;
            let plen = piece.len();
            let ghost out_before = out@;
            while k < plen
                invariant
                    0 <= k <= plen,
                    plen == piece@.len(),
                    out@ == out_before + piece@.subrange(0, k as int),
                decreases plen - k,
            {
                out.push(piece[k]);
                assert(piece@.subrange(0, k + 1 as int) =~= piece@.subrange(0, k as int).push(
                    piece@[k as int],
                ));
                k += 1;
            }
            assert(piece@.subrange(0, plen as int) =~= piece@);
            proof {
                let tail = w.skip(j as int);
                assert(tail[0] == w[j as int]);
                assert(tail.drop_first() =~= w.skip(j + 1));
                if j == 0 {
                    assert(serialize_wire(w) =~= out@ + serialize_wire_tail(w.skip(1)));
                } else {
                    assert(serialize_wire_tail(w.skip(j as int)) =~= seq![','] + serialize_rdn(
                        w[j as int],
                    ) + serialize_wire_tail(w.skip(j + 1)));
                }
            }
            j += 1;
        }
        proof {
            if n == 0 {
                assert(serialize_wire(w) =~= out@ + serialize_wire(w));
                assert(serialize_wire(w) =~= Seq::<char>::empty());
                assert(out@ =~= serialize_wire(w));
            } else {
                assert(w.skip(n as int) =~= Seq::<RdnModel>::empty());
                assert(serialize_wire(w) =~= out@);
            }
        }
        chars_to_string(out.as_slice())
    }
}

/// The serialized characters of one RDN: label, `=`, and the encoded or
/// escaped value.
fn serialize_rdn_chars(rdn: &RelativeDistinguishedName) -> (r: Vec<char>)
    ensures
        r@ == serialize_rdn(rdn@),
{
    let ty = rdn.ty();
    let mut piece = str_to_chars(ty.as_of_str());
    piece.push('=');
    if ty.of_encodes_as_hex() {
        piece.push('#');
        let bytes = rdn.value().as_bytes_vec();
        let hexed = hex_encode_bytes(bytes.as_slice());
        let mut k: usize = 0;
        let hlen = hexed.len();
        let ghost before = piece@;
        while k < hlen
            invariant
                0 <= k <= hlen,
                hlen == hexed@.len(),
                piece@ == before + hexed@.subrange(0, k as int),
            decreases hlen - k,
        {
            piece.push(hexed[k]);
            assert(hexed@.subrange(0, k + 1 as int) =~= hexed@.subrange(0, k as int).push(
                hexed@[k as int],
            ));
            k += 1;
        }
        assert(hexed@.subrange(0, hlen as int) =~= hexed@);
        assert(piece@ =~= serialize_rdn(rdn@));
    } else {
        let value = str_to_chars(rdn.value());
        let vlen = value.len();
        let mut k: usize = 0;
        let ghost before = piece@;
        proof {
            assert(value@.skip(0) =~= value@);
            assert(piece@.skip(before.len() as int) =~= Seq::<char>::empty());
            assert(Seq::<char>::empty() + escape_value(value@) =~= escape_value(value@));
        }
        while k < vlen
            invariant
                0 <= k <= vlen,
                vlen == value@.len(),
                piece@.len() >= before.len(),
                piece@.subrange(0, before.len() as int) == before,
                escape_value(value@) == piece@.skip(before.len() as int) + escape_value(
                    value@.skip(k as int),
                ),
            decreases vlen - k,
        {
            let ghost tail = value@.skip(k as int);
            assert(tail[0] == value@[k as int]);
            assert(tail.drop_first() =~= value@.skip(k + 1));
            let c = value[k];
            if is_reserved_char(c) {
                piece.push('\\');
            }
            piece.push(c);
            proof {
                assert(piece@.subrange(0, before.len() as int) =~= before);
                assert(escape_value(value@) =~= piece@.skip(before.len() as int) + escape_value(
                    value@.skip(k + 1),
                ));
            }
            k += 1;
        }
        proof {
            assert(value@.skip(vlen as int) =~= Seq::<char>::empty());
            assert(escape_value(Seq::<char>::empty()) =~= Seq::<char>::empty());
            assert(piece@.skip(before.len() as int) + Seq::<char>::empty() =~= piece@.skip(
                before.len() as int,
            ));
            assert(piece@ =~= before + escape_value(value@));
            assert(piece@ =~= serialize_rdn(rdn@));
        }
    }
    piece
}

} // verus!
