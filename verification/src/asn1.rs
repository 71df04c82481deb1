//! Minimal ASN.1 codec for the encodings RDP needs: the DER subset that the
//! CredSSP `TSRequest` uses (see [`der`]).
use vstd::prelude::*;

pub mod der;

verus! {

/// Why a DER decode failed.
#[derive(Debug, Clone, Copy, PartialEq, Eq, Structural)]
pub enum Asn1Error {
    /// The input ended inside an element.
    UnexpectedEof,
    /// A length or integer does not fit the target width.
    LengthOverflow,
    /// A length was not encoded in its minimal form.
    NonMinimalLength,
    /// The indefinite-length form, which DER forbids.
    IndefiniteLength,
    /// An element carried another tag than the one required.
    UnexpectedTag { expected: u8, found: u8 },
}

} // verus!
