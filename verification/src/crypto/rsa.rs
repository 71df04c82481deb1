//! RSA public-key encryption for Standard RDP Security: the client random is
//! encrypted with the server's key, all numbers little-endian, the result
//! padded to the modulus length (raw textbook RSA, no padding scheme).
use vstd::prelude::*;
use vstd::arithmetic::power::pow;
use crate::bytes::{le_value, pow256, lemma_le_bound};
use crate::crypto::bignum::BigUint;

verus! {

/// Textbook RSA on little-endian numbers: `m^e mod n`, or zero for a zero
/// modulus.
pub open spec fn spec_rsa(m: nat, e: nat, n: nat) -> nat {
    if n == 0 {
        0
    } else {
        (pow(m as int, e) % (n as int)) as nat
    }
}

/// Encrypt `message_le` with the RSA public key (`modulus_le`,
/// `exponent_le`, all little-endian), returning the little-endian ciphertext
/// padded to the modulus length.
pub fn encrypt_le(message_le: &[u8], modulus_le: &[u8], exponent_le: &[u8]) -> (r: Vec<u8>)
    ensures
        r@.len() == modulus_le@.len(),
        le_value(r@) == spec_rsa(le_value(message_le@), le_value(exponent_le@), le_value(modulus_le@)),
{
    let m = BigUint::from_bytes_le(message_le);
    let n = BigUint::from_bytes_le(modulus_le);
    let e = BigUint::from_bytes_le(exponent_le);
    let mlen = modulus_le.len();
    assert(n.limb_count() <= usize::MAX / 2) by {
        assert(mlen <= usize::MAX);
    }
    let c = m.modpow(&e, &n);
    proof {
        lemma_le_bound(modulus_le@);
        if n@ > 0 {
            vstd::arithmetic::div_mod::lemma_mod_bound(pow(m@ as int, e@), n@ as int);
        }
        vstd::arithmetic::div_mod::lemma_small_mod(c@, pow256(modulus_le@.len()));
    }
    c.to_bytes_le(modulus_le.len())
}

} // verus!
