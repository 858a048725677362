//! The closed attribute-type registry: the supported RDN types together
//! with their static metadata (output label, case sensitivity, and whether
//! the serialized value is hex-encoded).

use vstd::prelude::*;

use crate::text::{chars_to_string, eq_lit, lower_chars, lower_seq, skip_chars, str_to_chars};
use crate::Error;
use crate::ErrorModel;

verus! {

/// True when the text begins with the optional `oid.` marker that may
/// precede a dotted OID.
pub open spec fn has_oid_prefix(t: Seq<char>) -> bool {
    t.len() >= 4 && t[0] == 'o' && t[1] == 'i' && t[2] == 'd' && t[3] == '.'
}

/// The text without its optional `oid.` marker.
pub open spec fn strip_oid_prefix(t: Seq<char>) -> Seq<char> {
    if has_oid_prefix(t) {
        t.skip(4)
    } else {
        t
    }
}

/// The attribute type denoted by the given type text: a case-insensitive
/// match of the ASCII-lowercased text, with the optional `oid.` marker
/// stripped, against the registry's short names and OIDs. Unknown text is
/// rejected with `InvalidType` carrying the original text.
pub open spec fn spec_resolve(t: Seq<char>) -> Result<RdnType, ErrorModel> {
    let low = strip_oid_prefix(lower_seq(t));
    if low == "cn"@ || low == "2.5.4.3"@ {
        Ok(RdnType::Cn)
    } else if low == "l"@ || low == "2.5.4.7"@ {
        Ok(RdnType::L)
    } else if low == "st"@ || low == "2.5.4.8"@ {
        Ok(RdnType::St)
    } else if low == "o"@ || low == "2.5.4.10"@ {
        Ok(RdnType::O)
    } else if low == "ou"@ {
        Ok(RdnType::Ou)
    } else if low == "c"@ || low == "2.5.4.6"@ {
        Ok(RdnType::C)
    } else if low == "street"@ || low == "2.5.4.9"@ {
        Ok(RdnType::Street)
    } else if low == "dc"@ || low == "0.9.2342.19200300.100.1.25"@ {
        Ok(RdnType::Dc)
    } else if low == "uid"@ || low == "0.9.2342.19200300.100.1.1"@ {
        Ok(RdnType::Uid)
    } else if low == "businesscategory"@ || low == "2.5.4.15"@ {
        Ok(RdnType::BusinessCategory)
    } else if low == "jurisdictioncountryname"@ || low == "1.3.6.1.4.1.311.60.2.1.3"@ {
        Ok(RdnType::JurisdictionCountryName)
    } else if low == "serialnumber"@ || low == "2.5.4.5"@ {
        Ok(RdnType::SerialNumber)
    } else if low == "organizationidentifier"@ || low == "2.5.4.97"@ {
        Ok(RdnType::OrganizationIdentifier)
    } else if low == "organizationalunitname"@ || low == "2.5.4.11"@ {
        Ok(RdnType::OrganizationalUnitName)
    } else {
        Err(ErrorModel::InvalidType(t))
    }
}

/// A relative distinguished name type.
///
/// This is the type of a single component of a full DN. Only a closed set
/// of attribute types is supported; any other type text is rejected while
/// parsing, never coerced.
#[derive(Clone, Copy, Debug, PartialEq, Eq, Structural, Hash, PartialOrd, Ord)]
pub enum RdnType {
    /// Common name.
    Cn,
    /// Locality name.
    L,
    /// State or province name.
    St,
    /// Organization name.
    O,
    /// Organizational unit name.
    Ou,
    /// Country name.
    C,
    /// Street address.
    Street,
    /// Domain component.
    Dc,
    /// User ID.
    Uid,
    /// Type of business category.
    BusinessCategory,
    /// Jurisdiction country name.
    JurisdictionCountryName,
    /// National registry number of the legal entity holding the
    /// certificate.
    SerialNumber,
    /// Participant code listed in the directory service.
    OrganizationIdentifier,
    /// Organizational unit name given in OID form.
    OrganizationalUnitName,
}

impl RdnType {
    /// The canonical output label of this type: the upper-case short name
    /// for the common types and the dotted OID for the five exotic ones.
    pub open spec fn spec_label(self) -> Seq<char> {
        match self {
            RdnType::Cn => "CN"@,
            RdnType::L => "L"@,
            RdnType::St => "ST"@,
            RdnType::O => "O"@,
            RdnType::Ou => "OU"@,
            RdnType::C => "C"@,
            RdnType::Street => "STREET"@,
            RdnType::Dc => "DC"@,
            RdnType::Uid => "UID"@,
            RdnType::BusinessCategory => "2.5.4.15"@,
            RdnType::JurisdictionCountryName => "1.3.6.1.4.1.311.60.2.1.3"@,
            RdnType::SerialNumber => "2.5.4.5"@,
            RdnType::OrganizationIdentifier => "2.5.4.97"@,
            RdnType::OrganizationalUnitName => "2.5.4.11"@,
        }
    }

    /// The label under which this type is serialized.
    pub fn as_of_str(self) -> (r: &'static str)
        ensures
            r@ == self.spec_label(),
    {
        match self {
            RdnType::Cn => "CN",
            RdnType::L => "L",
            RdnType::St => "ST",
            RdnType::O => "O",
            RdnType::Ou => "OU",
            RdnType::C => "C",
            RdnType::Street => "STREET",
            RdnType::Dc => "DC",
            RdnType::Uid => "UID",
            RdnType::BusinessCategory => "2.5.4.15",
            RdnType::JurisdictionCountryName => "1.3.6.1.4.1.311.60.2.1.3",
            RdnType::SerialNumber => "2.5.4.5",
            RdnType::OrganizationIdentifier => "2.5.4.97",
            RdnType::OrganizationalUnitName => "2.5.4.11",
        }
    }

    /// True exactly for the five types whose serialized value is always
    /// written as `#` followed by the hex encoding of the raw text.
    pub open spec fn spec_encodes_as_hex(self) -> bool {
        match self {
            RdnType::BusinessCategory
            | RdnType::JurisdictionCountryName
            | RdnType::SerialNumber
            | RdnType::OrganizationIdentifier
            | RdnType::OrganizationalUnitName => true,
            _ => false,
        }
    }

    /// Whether the serialized value of this type is hex-encoded.
    pub fn of_encodes_as_hex(self) -> (r: bool)
        ensures
            r == self.spec_encodes_as_hex(),
    {
        match self {
            RdnType::BusinessCategory
            | RdnType::JurisdictionCountryName
            | RdnType::SerialNumber
            | RdnType::OrganizationIdentifier
            | RdnType::OrganizationalUnitName => true,
            _ => false,
        }
    }

    /// True for the types whose values keep their letter case when they
    /// are compared; the values of all other types are case-folded first.
    pub open spec fn spec_case_sensitive(self) -> bool {
        match self {
            RdnType::Cn
            | RdnType::L
            | RdnType::St
            | RdnType::O
            | RdnType::Ou
            | RdnType::C
            | RdnType::JurisdictionCountryName
            | RdnType::OrganizationalUnitName => true,
            _ => false,
        }
    }

    /// Resolves trimmed type text against the registry.
    pub fn resolve(text: &[char]) -> (r: Result<RdnType, Error>)
        ensures
            match r {
                Ok(t) => spec_resolve(text@) == Ok::<RdnType, ErrorModel>(t),
                Err(e) => spec_resolve(text@) == Err::<RdnType, ErrorModel>(e@),
            },
    {
        let lowered = lower_chars(text);
        let stripped: Vec<char>;
        if lowered.len() >= 4 && lowered[0] == 'o' && lowered[1] == 'i' && lowered[2] == 'd'
            && lowered[3] == '.' {
            stripped = skip_chars(lowered.as_slice(), 4);
        } else {
            stripped = lowered;
        }
        let low = stripped.as_slice();
        if eq_lit(low, "cn") || eq_lit(low, "2.5.4.3") {
            Ok(RdnType::Cn)
        } else if eq_lit(low, "l") || eq_lit(low, "2.5.4.7") {
            Ok(RdnType::L)
        } else if eq_lit(low, "st") || eq_lit(low, "2.5.4.8") {
            Ok(RdnType::St)
        } else if eq_lit(low, "o") || eq_lit(low, "2.5.4.10") {
            Ok(RdnType::O)
        } else if eq_lit(low, "ou") {
            Ok(RdnType::Ou)
        } else if eq_lit(low, "c") || eq_lit(low, "2.5.4.6") {
            Ok(RdnType::C)
        } else if eq_lit(low, "street") || eq_lit(low, "2.5.4.9") {
            Ok(RdnType::Street)
        } else if eq_lit(low, "dc") || eq_lit(low, "0.9.2342.19200300.100.1.25") {
            Ok(RdnType::Dc)
        } else if eq_lit(low, "uid") || eq_lit(low, "0.9.2342.19200300.100.1.1") {
            Ok(RdnType::Uid)
        } else if eq_lit(low, "businesscategory") || eq_lit(low, "2.5.4.15") {
            Ok(RdnType::BusinessCategory)
        } else if eq_lit(low, "jurisdictioncountryname") || eq_lit(
            low,
            "1.3.6.1.4.1.311.60.2.1.3",
        ) {
            Ok(RdnType::JurisdictionCountryName)
        } else if eq_lit(low, "serialnumber") || eq_lit(low, "2.5.4.5") {
            Ok(RdnType::SerialNumber)
        } else if eq_lit(low, "organizationidentifier") || eq_lit(low, "2.5.4.97") {
            Ok(RdnType::OrganizationIdentifier)
        } else if eq_lit(low, "organizationalunitname") || eq_lit(low, "2.5.4.11") {
            Ok(RdnType::OrganizationalUnitName)
        } else {
            Err(Error::InvalidType(chars_to_string(text)))
        }
    }

    /// Whether comparison of values of this type is case-sensitive.
    pub fn is_comparison_case_sensitive(self) -> (r: bool)
        ensures
            r == self.spec_case_sensitive(),
    {
        match self {
            RdnType::Cn
            | RdnType::L
            | RdnType::St
            | RdnType::O
            | RdnType::Ou
            | RdnType::C
            | RdnType::JurisdictionCountryName
            | RdnType::OrganizationalUnitName => true,
            _ => false,
        }
    }
}

impl core::str::FromStr for RdnType {
    type Err = Error;

    fn from_str(s: &str) -> Result<RdnType, Error> {
        RdnType::resolve(str_to_chars(s).as_slice())
    }
}

} // verus!
