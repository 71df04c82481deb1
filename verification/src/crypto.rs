//! Crypto primitives for Standard RDP Security: a small unsigned big integer
//! for RSA ([`bignum`]), textbook RSA ([`rsa`]) and the RC4 stream cipher
//! ([`rc4`]).
pub mod bignum;
pub mod rc4;
pub mod rsa;
