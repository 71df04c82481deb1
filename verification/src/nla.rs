//! CredSSP / Network Level Authentication (MS-CSSP): the `TSRequest` and
//! `TSCredentials` DER codecs ([`tsrequest`]) and the certificate public key
//! that CredSSP binds to ([`x509`]).
use vstd::prelude::*;
use crate::asn1::Asn1Error;

pub mod tsrequest;
pub mod x509;

verus! {

#[verifier::external_type_specification]
#[verifier::external_body]
pub struct ExIoError(std::io::Error);

/// Why an NLA exchange failed.
#[derive(Debug)]
pub enum NlaError {
    /// A security-support-provider call failed with this status.
    Sspi(i32),
    /// The CredSSP exchange went out of order.
    Sequence(String),
    /// The server certificate's public key did not match the binding.
    PubKeyMismatch,
    /// Network error.
    Io(std::io::Error),
    /// A DER message could not be decoded.
    Asn1(Asn1Error),
}

} // verus!
