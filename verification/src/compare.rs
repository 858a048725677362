//! The comparison normalizer: DN values are transformed before comparison
//! by a four-way character classification, optional ASCII case folding,
//! one vendor-specific marker rule for the organization identifier, and a
//! final trim. Two DNs denote the same entity exactly when their
//! normalized projections are equal.

use vstd::prelude::*;

use crate::dn::{DistinguishedName, RdnModel, RelativeDistinguishedName};
use crate::rdn_type::RdnType;
use crate::text::{chars_to_string, lower_chars, lower_seq, skip_chars, str_to_chars, trim,
    trim_chars, is_space};
use crate::Error;
use crate::ErrorModel;

verus! {

/// The four possible outcomes of classifying one character for
/// comparison.
#[derive(Clone, Copy, Debug, PartialEq, Eq, Structural)]
pub enum CharClass {
    /// The character may not appear at all; normalization aborts.
    Prohibited,
    /// The character is compared as if it were a single ASCII space.
    Space,
    /// The character contributes nothing to the comparison.
    Ignored,
    /// The character is compared as it stands.
    Keep,
}

/// True for the control characters (the Unicode `Cc` category).
pub open spec fn is_control(c: char) -> bool {
    let u = c as u32;
    u <= 0x1F || (0x7F <= u && u <= 0x9F)
}

/// Classifies one character for comparison, checking the classes in
/// priority order: prohibited, space-equivalent, ignored, kept.
pub open spec fn classify(c: char) -> CharClass {
    let u = c as u32;
    if u == 0x0340 || u == 0x0341 || u == 0x200E || u == 0x200F || (0x202A <= u && u <= 0x202E)
        || (0x206A <= u && u <= 0x206F) || (0xE000 <= u && u <= 0xF8FF) || (0xF0000 <= u && u
        <= 0xFFFFD) || (0x100000 <= u && u <= 0x10FFFD) || u == 0xFFFD {
        CharClass::Prohibited
    } else if (0x09 <= u && u <= 0x0D) || u == 0x85 || is_space(c) {
        CharClass::Space
    } else if u == 0xAD || u == 0x1806 || u == 0x034F || (0x180B <= u && u <= 0x180D) || (0xFE0F
        <= u && u <= 0xFF00) || u == 0xFFFC || is_control(c) || u == 0x200B {
        CharClass::Ignored
    } else {
        CharClass::Keep
    }
}

/// Classifies one character for comparison.
pub fn classify_char(c: char) -> (r: CharClass)
    ensures
        r == classify(c),
{
    let u = c as u32;
    if u == 0x0340 || u == 0x0341 || u == 0x200E || u == 0x200F || (0x202A <= u && u <= 0x202E)
        || (0x206A <= u && u <= 0x206F) || (0xE000 <= u && u <= 0xF8FF) || (0xF0000 <= u && u
        <= 0xFFFFD) || (0x100000 <= u && u <= 0x10FFFD) || u == 0xFFFD {
        CharClass::Prohibited
    } else if (0x09 <= u && u <= 0x0D) || u == 0x85 || (0x09 <= u && u <= 0x0D) || u == 0x20 || u
        == 0xA0 || u == 0x1680 || (0x2000 <= u && u <= 0x200A) || u == 0x2028 || u == 0x2029 || u
        == 0x202F || u == 0x205F || u == 0x3000 {
        CharClass::Space
    } else if u == 0xAD || u == 0x1806 || u == 0x034F || (0x180B <= u && u <= 0x180D) || (0xFE0F
        <= u && u <= 0xFF00) || u == 0xFFFC || u <= 0x1F || (0x7F <= u && u <= 0x9F) || u
        == 0x200B {
        CharClass::Ignored
    } else {
        CharClass::Keep
    }
}

/// The value with each character replaced by its classification outcome:
/// kept characters stay, space-equivalents become one ASCII space, ignored
/// characters are dropped, and the first prohibited character aborts with
/// `UnexpectedCharacter`.
pub open spec fn filter_value(v: Seq<char>) -> Result<Seq<char>, ErrorModel>
    decreases v.len(),
{
    if v.len() == 0 {
        Ok(Seq::empty())
    } else if classify(v[0]) == CharClass::Prohibited {
        Err(ErrorModel::UnexpectedCharacter(v[0]))
    } else {
        match filter_value(v.drop_first()) {
            Err(e) => Err(e),
            Ok(rest) => Ok(
                (if classify(v[0]) == CharClass::Space {
                    seq![' ']
                } else if classify(v[0]) == CharClass::Ignored {
                    Seq::empty()
                } else {
                    seq![v[0]]
                }) + rest,
            ),
        }
    }
}

/// The marker that must occur in an organization-identifier value.
pub open spec fn org_id_marker() -> Seq<char> {
    seq!['o', 'f', 'b', 'b', 'r', '-']
}

/// The first position where the marker occurs in the value, if any.
pub open spec fn find_marker(v: Seq<char>) -> Option<int>
    decreases v.len(),
{
    if v.len() < 6 {
        None
    } else if v.subrange(0, 6) == org_id_marker() {
        Some(0)
    } else {
        match find_marker(v.drop_first()) {
            Some(i) => Some(i + 1),
            None => None,
        }
    }
}

/// The normalized comparable projection of one value: the classification
/// filter, then ASCII case folding unless the type compares
/// case-sensitively, then, for the organization identifier only, the text
/// from the first marker occurrence on (its absence is `InvalidValue`),
/// and finally a trim.
pub open spec fn normalize_value(ty: RdnType, v: Seq<char>) -> Result<Seq<char>, ErrorModel> {
    match filter_value(v) {
        Err(e) => Err(e),
        Ok(f) => {
            let folded = if ty.spec_case_sensitive() {
                f
            } else {
                lower_seq(f)
            };
            if ty == RdnType::OrganizationIdentifier {
                match find_marker(folded) {
                    Some(i) => Ok(trim(folded.skip(i))),
                    None => Err(ErrorModel::InvalidValue { ty, value: folded }),
                }
            } else {
                Ok(trim(folded))
            }
        },
    }
}

/// The comparable projection of one RDN: its type with its normalized
/// value.
pub open spec fn spec_rdn_comparator(m: RdnModel) -> Result<RdnModel, ErrorModel> {
    match normalize_value(m.ty, m.value) {
        Ok(v) => Ok(RdnModel { ty: m.ty, value: v }),
        Err(e) => Err(e),
    }
}

/// The comparable projection of a whole DN: the projections of its RDNs
/// in canonical order; the first failing RDN's error aborts the whole
/// projection.
pub open spec fn spec_dn_comparator(rdns: Seq<RdnModel>) -> Result<Seq<RdnModel>, ErrorModel>
    decreases rdns.len(),
{
    if rdns.len() == 0 {
        Ok(Seq::empty())
    } else {
        match spec_rdn_comparator(rdns[0]) {
            Err(e) => Err(e),
            Ok(c) => match spec_dn_comparator(rdns.drop_first()) {
                Err(e) => Err(e),
                Ok(rest) => Ok(seq![c] + rest),
            },
        }
    }
}

/// Applies the classification filter to a value.
fn filter_value_chars(v: &[char]) -> (r: Result<Vec<char>, Error>)
    ensures
        match r {
            Ok(f) => filter_value(v@) == Ok::<Seq<char>, ErrorModel>(f@),
            Err(e) => filter_value(v@) == Err::<Seq<char>, ErrorModel>(e@),
        },
{
    let n = v.len();
    let mut out: Vec<char> = Vec::new();
    let mut i: usize = 0;
    proof {
        assert(v@.skip(0) =~= v@);
        match filter_value(v@) {
            Ok(rest) => {
                assert(out@ + rest =~= rest);
            },
            Err(_) => {},
        }
    }
    while i < n
        invariant
            0 <= i <= n,
            n == v@.len(),
            filter_value(v@) == match filter_value(v@.skip(i as int)) {
                Ok(rest) => Ok::<Seq<char>, ErrorModel>(out@ + rest),
                Err(e) => Err::<Seq<char>, ErrorModel>(e),
            },
        decreases n - i,
    {
        let ghost tail = v@.skip(i as int);
        assert(tail[0] == v@[i as int]);
        assert(tail.drop_first() =~= v@.skip(i + 1));
        let ghost out0 = out@;
        let c = v[i];
        match classify_char(c) {
            CharClass::Prohibited => {
                return Err(Error::UnexpectedCharacter(c));
            },
            CharClass::Space => {
                out.push(' ');
            },
            CharClass::Ignored => {},
            CharClass::Keep => {
                out.push(c);
            },
        }
        proof {
            match filter_value(v@.skip(i + 1)) {
                Ok(rest) => {
                    if classify(tail[0]) == CharClass::Space {
                        assert(out@ + rest =~= out0 + (seq![' '] + rest));
                    } else if classify(tail[0]) == CharClass::Ignored {
                        assert(out@ + rest =~= out0 + (Seq::<char>::empty() + rest));
                    } else {
                        assert(out@ + rest =~= out0 + (seq![tail[0]] + rest));
                    }
                },
                Err(_) => {},
            }
        }
        i += 1;
    }
    assert(v@.skip(n as int) =~= Seq::<char>::empty());
    Ok(out)
}

/// Finds the first occurrence of the marker in the value, if any.
fn find_marker_chars(v: &[char]) -> (r: Option<usize>)
    ensures
        match r {
            Some(i) => find_marker(v@) == Some(i as int) && i + 6 <= v@.len(),
            None => find_marker(v@) is None,
        },
{
    let n = v.len();
    let mut i: usize = 0;
    proof {
        assert(v@.skip(0) =~= v@);
    }
    while n - i >= 6
        invariant
            0 <= i <= n,
            n == v@.len(),
            find_marker(v@) == match find_marker(v@.skip(i as int)) {
                Some(k) => Some(i + k),
                None => None::<int>,
            },
        decreases n - i,
    {
        let ghost tail = v@.skip(i as int);
        assert(tail.len() >= 6);
        assert(tail[0] == v@[i as int] && tail[1] == v@[i + 1] && tail[2] == v@[i + 2] && tail[3]
            == v@[i + 3] && tail[4] == v@[i + 4] && tail[5] == v@[i + 5]);
        assert(tail.drop_first() =~= v@.skip(i + 1));
        let hit = v[i] == 'o' && v[i + 1] == 'f' && v[i + 2] == 'b' && v[i + 3] == 'b' && v[i + 4]
            == 'r' && v[i + 5] == '-';
        proof {
            if hit {
                assert(tail.subrange(0, 6) =~= org_id_marker());
            } else {
                assert(tail.subrange(0, 6)[0] == tail[0] && tail.subrange(0, 6)[1] == tail[1]
                    && tail.subrange(0, 6)[2] == tail[2] && tail.subrange(0, 6)[3] == tail[3]
                    && tail.subrange(0, 6)[4] == tail[4] && tail.subrange(0, 6)[5] == tail[5]);
                assert(tail.subrange(0, 6) != org_id_marker());
            }
        }
        if hit {
            return Some(i);
        }
        i += 1;
    }
    proof {
        assert(v@.skip(i as int).len() < 6);
    }
    None
}

impl DistinguishedName {
    /// Create a comparator for this DN: the normalized projection used for
    /// equality and ordering, per the RFC 4518 string preparation rules
    /// implemented here.
    pub fn comparator(&self) -> (r: Result<DnComparator, Error>)
        ensures
            match r {
                Ok(c) => spec_dn_comparator(self@) == Ok::<Seq<RdnModel>, ErrorModel>(c@),
                Err(e) => spec_dn_comparator(self@) == Err::<Seq<RdnModel>, ErrorModel>(e@),
            },
    {
        DnComparator::new(self)
    }
}

/// A transformed [`DistinguishedName`] suitable for comparisons.
#[derive(Clone, Debug, Hash, PartialEq, Eq, PartialOrd, Ord)]
pub struct DnComparator {
    /// The normalized projections of the RDNs, in canonical order.
    pub rdns: Vec<RdnComparator>,
}

impl View for DnComparator {
    type V = Seq<RdnModel>;

    closed spec fn view(&self) -> Seq<RdnModel> {
        self.rdns@.map_values(|r: RdnComparator| r@)
    }
}

impl DnComparator {
    /// Create a new comparator from a [`DistinguishedName`].
    pub fn new(dn: &DistinguishedName) -> (r: Result<Self, Error>)
        ensures
            match r {
                Ok(c) => spec_dn_comparator(dn@) == Ok::<Seq<RdnModel>, ErrorModel>(c@),
                Err(e) => spec_dn_comparator(dn@) == Err::<Seq<RdnModel>, ErrorModel>(e@),
            },
    {
        let rdns = dn.iter();
        let n = rdns.len();
        let mut out: Vec<RdnComparator> = Vec::new();
        let mut i: usize = 0;
        proof {
            assert(dn@.skip(0) =~= dn@);
            match spec_dn_comparator(dn@) {
                Ok(rest) => {
                    assert(out@.map_values(|r: RdnComparator| r@) + rest =~= rest);
                },
                Err(_) => {},
            }
        }
        while i < n
            invariant
                0 <= i <= n,
                n == rdns@.len(),
                rdns@.map_values(|x: RelativeDistinguishedName| x@) == dn@,
                n == dn@.len(),
                spec_dn_comparator(dn@) == match spec_dn_comparator(dn@.skip(i as int)) {
                    Ok(rest) => Ok::<Seq<RdnModel>, ErrorModel>(
                        out@.map_values(|r: RdnComparator| r@) + rest,
                    ),
                    Err(e) => Err::<Seq<RdnModel>, ErrorModel>(e),
                },
            decreases n - i,
        {
            let ghost tail = dn@.skip(i as int);
            assert(tail[0] == dn@[i as int]);
            assert(tail.drop_first() =~= dn@.skip(i + 1));
            assert(rdns@.map_values(|x: RelativeDistinguishedName| x@)[i as int] == rdns@[i as int]@);
            let ghost out0 = out@;
            let c = match RdnComparator::new(&rdns[i]) {
                Ok(c) => c,
                Err(e) => {
                    return Err(e);
                },
            };
            let ghost cm = c@;
            out.push(c);
            proof {
                let m0 = out0.map_values(|r: RdnComparator| r@);
                let m = out@.map_values(|r: RdnComparator| r@);
                assert(m =~= m0.push(cm));
                match spec_dn_comparator(dn@.skip(i + 1)) {
                    Ok(rest) => {
                        assert(m + rest =~= m0 + (seq![cm] + rest));
                    },
                    Err(_) => {},
                }
            }
            i += 1;
        }
        assert(dn@.skip(n as int) =~= Seq::<RdnModel>::empty());
        assert(out@.map_values(|r: RdnComparator| r@) + Seq::<RdnModel>::empty() =~= out@.map_values(
            |r: RdnComparator| r@,
        ));
        Ok(DnComparator { rdns: out })
    }
}

/// A transformed [`RelativeDistinguishedName`] suitable for comparisons.
#[derive(Clone, Debug, Hash, PartialEq, Eq, PartialOrd, Ord)]
pub struct RdnComparator {
    /// The RDN's type.
    pub ty: RdnType,
    /// The normalized value text.
    pub value: String,
}

impl View for RdnComparator {
    type V = RdnModel;

    closed spec fn view(&self) -> RdnModel {
        RdnModel { ty: self.ty, value: self.value@ }
    }
}

impl RdnComparator {
    /// Create a new comparator from a [`RelativeDistinguishedName`].
    pub fn new(rdn: &RelativeDistinguishedName) -> (r: Result<Self, Error>)
        ensures
            match r {
                Ok(c) => spec_rdn_comparator(rdn@) == Ok::<RdnModel, ErrorModel>(c@),
                Err(e) => spec_rdn_comparator(rdn@) == Err::<RdnModel, ErrorModel>(e@),
            },
    {
        let ty = rdn.ty();
        let value = str_to_chars(rdn.value());
        let filtered = match filter_value_chars(value.as_slice()) {
            Ok(f) => f,
            Err(e) => {
                return Err(e);
            },
        };
        let folded = if ty.is_comparison_case_sensitive() {
            filtered
        } else {
            lower_chars(filtered.as_slice())
        };
        let cleaned = if matches!(ty, RdnType::OrganizationIdentifier) {
            match find_marker_chars(folded.as_slice()) {
                Some(idx) => skip_chars(folded.as_slice(), idx),
                None => {
                    return Err(Error::InvalidValue { ty, value: chars_to_string(folded.as_slice()) });
                },
            }
        } else {
            folded
        };
        let trimmed = trim_chars(cleaned.as_slice());
        Ok(RdnComparator { ty, value: chars_to_string(trimmed.as_slice()) })
    }
}

} // verus!
