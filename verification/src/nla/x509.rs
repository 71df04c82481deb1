//! Minimal X.509 navigation: the certificate's `subjectPublicKey` (the BIT
//! STRING contents of the `SubjectPublicKeyInfo`, i.e. the raw key), which
//! CredSSP's public-key binding hashes or encrypts.
//!
//! ```text
//! Certificate ::= SEQUENCE { tbsCertificate SEQUENCE { ... }, sigAlg, sig }
//! TBSCertificate ::= SEQUENCE {
//!   version [0] EXPLICIT INTEGER OPTIONAL, serialNumber INTEGER,
//!   signature, issuer, validity, subject,
//!   subjectPublicKeyInfo SEQUENCE { algorithm SEQUENCE, subjectPublicKey BIT STRING }, ... }
//! ```
use vstd::prelude::*;
use crate::asn1::Asn1Error;
use crate::asn1::der::{TAG_SEQUENCE, TAG_BIT_STRING, spec_expect, spec_read_element, spec_context_tag, expect, read_element, context_tag};

verus! {

/// Skip `k` elements.
pub open spec fn skip_elements(s: Seq<u8>, k: nat) -> Result<Seq<u8>, Asn1Error>
    decreases k,
{
    if k == 0 {
        Ok(s)
    } else {
        match spec_read_element(s) {
            Err(e) => Err(e),
            Ok((_, _, n)) => skip_elements(s.skip(n as int), (k - 1) as nat),
        }
    }
}

/// The rest of the TBS certificate at the `subjectPublicKeyInfo`: past the
/// optional `[0]` version, the serial number and the four fields after it.
pub open spec fn spec_at_spki(tbs: Seq<u8>) -> Result<Seq<u8>, Asn1Error> {
    match spec_read_element(tbs) {
        Err(e) => Err(e),
        Ok((tag0, _, n0)) => {
            let t = tbs.skip(n0 as int);
            if tag0 == spec_context_tag(0) {
                match spec_read_element(t) {
                    Err(e) => Err(e),
                    Ok((_, _, n1)) => skip_elements(t.skip(n1 as int), 4),
                }
            } else {
                skip_elements(t, 4)
            }
        },
    }
}

/// The raw key from the `subjectPublicKeyInfo` at the front of `t`.
pub open spec fn spec_key_from_spki(t: Seq<u8>) -> Result<Seq<u8>, Asn1Error> {
    match spec_expect(t, TAG_SEQUENCE) {
        Err(e) => Err(e),
        Ok((spki, _)) => match spec_expect(spki, TAG_SEQUENCE) {
            Err(e) => Err(e),
            Ok((_, na)) => match spec_expect(spki.skip(na as int), TAG_BIT_STRING) {
                Err(e) => Err(e),
                Ok((bits, _)) => if bits.len() == 0 {
                    Err(Asn1Error::UnexpectedEof)
                } else {
                    Ok(bits.skip(1))
                },
            },
        },
    }
}

/// The key found in a TBS certificate.
pub open spec fn spec_key_from_tbs(tbs: Seq<u8>) -> Result<Seq<u8>, Asn1Error> {
    match spec_at_spki(tbs) {
        Err(e) => Err(e),
        Ok(t) => spec_key_from_spki(t),
    }
}

/// The raw public key of a DER certificate, or why it could not be found.
pub open spec fn spec_extract_public_key(cert: Seq<u8>) -> Result<Seq<u8>, Asn1Error> {
    match spec_expect(cert, TAG_SEQUENCE) {
        Err(e) => Err(e),
        Ok((body, _)) => match spec_expect(body, TAG_SEQUENCE) {
            Err(e) => Err(e),
            Ok((tbs, _)) => spec_key_from_tbs(tbs),
        },
    }
}

/// Extract the raw `subjectPublicKey` (the BIT STRING contents after its
/// unused-bits byte) from a DER X.509 certificate.
pub fn extract_public_key(cert_der: &[u8]) -> (r: Result<Vec<u8>, Asn1Error>)
    ensures
        match spec_extract_public_key(cert_der@) {
            Ok(k) => r matches Ok(v) && v@ == k,
            Err(e) => r == Err::<Vec<u8>, Asn1Error>(e),
        },
{
    let mut outer = cert_der;
    let cert_body = match expect(&mut outer, TAG_SEQUENCE) {
        Ok(b) => b,
        Err(e) => return Err(e),
    };
    let mut cb = cert_body;
    let tbs = match expect(&mut cb, TAG_SEQUENCE) {
        Ok(b) => b,
        Err(e) => return Err(e),
    };
    let mut t = tbs;
    let ghost tbs0 = tbs@;
    let (tag0, _) = match read_element(&mut t) {
        Ok(x) => x,
        Err(e) => return Err(e),
    };
    if tag0 == context_tag(0) {
        match read_element(&mut t) {
            Ok(_) => {},
            Err(e) => return Err(e),
        }
    }
    let ghost start = t@;
    assert(spec_at_spki(tbs0) == skip_elements(start, 4));
    assert(spec_extract_public_key(cert_der@) == spec_key_from_tbs(tbs0));
    let mut k: usize = 0;
    while k < 4
        invariant
            k <= 4,
            spec_extract_public_key(cert_der@) == spec_key_from_tbs(tbs0),
            spec_at_spki(tbs0) == skip_elements(start, 4),
            skip_elements(start, 4) == skip_elements(t@, (4 - k) as nat),
        decreases 4 - k,
    {
        let ghost cur = t@;
        match read_element(&mut t) {
            Ok(_) => {},
            Err(e) => {
                assert(skip_elements(cur, (4 - k) as nat) == Err::<Seq<u8>, Asn1Error>(e));
                return Err(e);
            },
        }
        k = k + 1;
    }
    assert(spec_at_spki(tbs0) == Ok::<Seq<u8>, Asn1Error>(t@));
    let spki = match expect(&mut t, TAG_SEQUENCE) {
        Ok(b) => b,
        Err(e) => return Err(e),
    };
    let mut s = spki;
    match expect(&mut s, TAG_SEQUENCE) {
        Ok(_) => {},
        Err(e) => return Err(e),
    }
    let bit_string = match expect(&mut s, TAG_BIT_STRING) {
        Ok(b) => b,
        Err(e) => return Err(e),
    };
    if bit_string.len() == 0 {
        return Err(Asn1Error::UnexpectedEof);
    }
    Ok(crate::bytes::to_vec(crate::bytes::skip(bit_string, 1)))
}

} // verus!
