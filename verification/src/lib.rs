//! Distinguished name (DN) handling for certificate subject and issuer
//! fields: an RFC 4514-style parser over a closed attribute-type registry,
//! an RFC 4518-derived comparison normalizer, and a serializer for the
//! OpenFinance Brasil variant string format.

use vstd::prelude::*;

pub mod compare;
pub mod dn;
pub mod hexcode;
pub mod laws;
pub mod parse;
pub mod rdn_type;
pub mod text;

pub use compare::DnComparator;
pub use compare::RdnComparator;
pub use dn::DistinguishedName;
pub use dn::RdnModel;
pub use dn::RelativeDistinguishedName;
pub use rdn_type::RdnType;

verus! {

/// Spec-level image of [`Error`]: text payloads appear as character
/// sequences so that contracts can speak about their contents.
pub enum ErrorModel {
    HexDecodingFailed,
    InvalidType(Seq<char>),
    InvalidValue { ty: RdnType, value: Seq<char> },
    UnexpectedCharacter(char),
    UnexpectedEof,
    UnsupportedMultiValueRdns,
    Utf8DecodingFailed,
}

/// Possible errors when parsing or normalizing distinguished names.
///
/// Every error is terminal: the whole parse or normalization aborts and no
/// partial result is produced.
#[derive(Debug)]
pub enum Error {
    /// Could not decode a hex string.
    HexDecodingFailed,
    /// Found an attribute type outside the closed registry.
    InvalidType(String),
    /// A type-specific rule on the value was violated.
    InvalidValue { ty: RdnType, value: String },
    /// Found a character in a position where it is invalid.
    UnexpectedCharacter(char),
    /// The input ended mid-token, mid-escape, or mid-value.
    UnexpectedEof,
    /// Multi-value RDNs are deliberately unsupported.
    UnsupportedMultiValueRdns,
    /// Decoded bytes are not valid UTF-8 text.
    Utf8DecodingFailed,
}

impl View for Error {
    type V = ErrorModel;

    open spec fn view(&self) -> ErrorModel {
        match *self {
            Error::HexDecodingFailed => ErrorModel::HexDecodingFailed,
            Error::InvalidType(ref s) => ErrorModel::InvalidType(s@),
            Error::InvalidValue { ty, ref value } => ErrorModel::InvalidValue {
                ty,
                value: value@,
            },
            Error::UnexpectedCharacter(c) => ErrorModel::UnexpectedCharacter(c),
            Error::UnexpectedEof => ErrorModel::UnexpectedEof,
            Error::UnsupportedMultiValueRdns => ErrorModel::UnsupportedMultiValueRdns,
            Error::Utf8DecodingFailed => ErrorModel::Utf8DecodingFailed,
        }
    }
}

} // verus!
