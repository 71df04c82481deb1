use rdpio::crypto::bignum::BigUint;
use rdpio::crypto::rc4::Rc4;
use rdpio::crypto::rsa::encrypt_le;

#[test]
fn small_rsa_roundtrip() {
    let n = BigUint::from_u32(3233);
    let e = BigUint::from_u32(17);
    let d = BigUint::from_u32(413);
    let m = BigUint::from_u32(65);

    let c = m.modpow(&e, &n);
    assert_eq!(c, BigUint::from_u32(2790));
    assert_eq!(c.modpow(&d, &n), m);
}

#[test]
fn modpow_basic() {
    assert_eq!(
        BigUint::from_u32(2).modpow(&BigUint::from_u32(10), &BigUint::from_u32(1000)),
        BigUint::from_u32(24)
    );
    assert_eq!(
        BigUint::from_u32(4).modpow(&BigUint::from_u32(13), &BigUint::from_u32(497)),
        BigUint::from_u32(445)
    );
}

#[test]
fn mul_full_width() {
    let max = BigUint::from_u32(0xFFFF_FFFF);
    assert_eq!(max.mul(&max).to_bytes_le(8), [0x01, 0x00, 0x00, 0x00, 0xFE, 0xFF, 0xFF, 0xFF]);
}

#[test]
fn bytes_roundtrip_le_and_be() {
    let le = [0x78, 0x56, 0x34, 0x12, 0x9a];
    let n = BigUint::from_bytes_le(&le);
    assert_eq!(n.to_bytes_le(5), le);
    assert_eq!(BigUint::from_bytes_be(&[0x12, 0x34]).to_bytes_le(2), [0x34, 0x12]);
}

#[test]
fn multi_limb_modpow_fermat() {
    let p = BigUint::from_bytes_le(&4_294_967_311u64.to_le_bytes());
    let p_minus_1 = BigUint::from_bytes_le(&4_294_967_310u64.to_le_bytes());
    assert_eq!(BigUint::from_u32(5).modpow(&p_minus_1, &p), BigUint::from_u32(1));
    assert_eq!(BigUint::from_u32(123_456).modpow(&p_minus_1, &p), BigUint::from_u32(1));
}

#[test]
fn modpow_edge_cases() {
    // Zero modulus gives zero; modulus one gives zero; zero exponent gives one.
    assert!(BigUint::from_u32(7).modpow(&BigUint::from_u32(3), &BigUint::zero()).is_zero());
    assert!(BigUint::from_u32(7).modpow(&BigUint::from_u32(3), &BigUint::from_u32(1)).is_zero());
    assert_eq!(BigUint::from_u32(7).modpow(&BigUint::zero(), &BigUint::from_u32(10)), BigUint::from_u32(1));
}

#[test]
fn rem_and_truncation() {
    let a = BigUint::from_bytes_le(&[0x00, 0x00, 0x00, 0x00, 0x01]);
    assert_eq!(a.rem(&BigUint::from_u32(7)), BigUint::from_u32(4)); // 2^32 mod 7
    assert_eq!(BigUint::from_u32(0x1234_5678).to_bytes_le(2), [0x78, 0x56]);
    assert_eq!(BigUint::from_u32(0x12).to_bytes_le(3), [0x12, 0x00, 0x00]);
    assert!(BigUint::from_bytes_be(&[0, 0, 0]).is_zero());
}

fn keystream_cipher(key: &[u8], plaintext: &[u8]) -> Vec<u8> {
    let mut data = plaintext.to_vec();
    Rc4::new(key).apply(&mut data);
    data
}

#[test]
fn rc4_known_vectors() {
    assert_eq!(keystream_cipher(b"Key", b"Plaintext"), [0xBB, 0xF3, 0x16, 0xE8, 0xD9, 0x40, 0xAF, 0x0A, 0xD3]);
    assert_eq!(keystream_cipher(b"Wiki", b"pedia"), [0x10, 0x21, 0xBF, 0x04, 0x20]);
    assert_eq!(
        keystream_cipher(b"Secret", b"Attack at dawn"),
        [0x45, 0xA0, 0x1F, 0x64, 0x5F, 0xC3, 0x5B, 0x38, 0x35, 0x52, 0x54, 0x4B, 0x9B, 0xF5]
    );
}

#[test]
fn rc4_roundtrips() {
    let key = b"session-key";
    let msg = b"the quick brown fox";
    let ct = keystream_cipher(key, msg);
    assert_ne!(ct, msg);
    assert_eq!(keystream_cipher(key, &ct), msg);
}

#[test]
fn rc4_state_continues_across_calls() {
    // Applying in two pieces equals applying once.
    let mut a = Rc4::new(b"Key");
    let mut first = b"Plain".to_vec();
    let mut second = b"text".to_vec();
    a.apply(&mut first);
    a.apply(&mut second);
    first.extend_from_slice(&second);
    assert_eq!(first, keystream_cipher(b"Key", b"Plaintext"));
}

#[test]
fn textbook_rsa_little_endian() {
    let c = encrypt_le(&[0x41], &[0xA1, 0x0C], &[0x11]);
    assert_eq!(c, [0xE6, 0x0A]);
}

#[test]
fn rsa_zero_modulus_gives_zero_padded() {
    assert_eq!(encrypt_le(&[0x41], &[0x00, 0x00, 0x00], &[0x11]), [0, 0, 0]);
}

#[test]
fn rc4_keystream_continues_across_calls() {
    let data = b"split me into two calls".to_vec();
    let mut whole = data.clone();
    rdpio::crypto::rc4::Rc4::new(b"k3y").apply(&mut whole);
    let mut r = rdpio::crypto::rc4::Rc4::new(b"k3y");
    let (mut a, mut b) = (data[..7].to_vec(), data[7..].to_vec());
    r.apply(&mut a);
    r.apply(&mut b);
    a.extend_from_slice(&b);
    assert_eq!(a, whole);
}
