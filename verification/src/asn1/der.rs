//! Distinguished Encoding Rules: a length codec plus a small TLV reader and
//! writer (SEQUENCE, INTEGER, OCTET STRING, BIT STRING and EXPLICIT context
//! tags). Writers build values inner-first; readers take a `&mut &[u8]`
//! cursor and advance it past what they consumed.
use vstd::prelude::*;
use crate::bytes::{be_bytes, be_value, pow256, push_all, lemma_pow256_8, lemma_be_bytes_props, lemma_be_value_bound, lemma_pow256_mono, lemma_be_bytes_of_value, skip, range};
use super::Asn1Error;

verus! {

/// Universal tag: INTEGER.
pub const TAG_INTEGER: u8 = 0x02;
/// Universal tag: BIT STRING.
pub const TAG_BIT_STRING: u8 = 0x03;
/// Universal tag: OCTET STRING.
pub const TAG_OCTET_STRING: u8 = 0x04;
/// Universal tag: SEQUENCE / SEQUENCE OF (constructed).
pub const TAG_SEQUENCE: u8 = 0x30;

/// Number of bytes in a `usize`: the longest long-form length accepted.
pub open spec fn usize_bytes() -> nat {
    (usize::BITS / 8) as nat
}

pub open spec fn spec_context_tag(n: u8) -> u8 {
    (0xA0 + n % 32) as u8
}

/// The constructed context-specific tag byte for `[n]` (EXPLICIT tagging).
pub fn context_tag(n: u8) -> (r: u8)
    ensures
        r == spec_context_tag(n),
{
    let r = 0xA0 | (n & 0x1F);
    assert(0xA0 | (n & 0x1F) == (0xA0 + n % 32) as u8) by (bit_vector);
    r
}

/// DER encoding of a definite length: short form below `0x80`, otherwise the
/// long form with the minimal number of big-endian bytes.
pub open spec fn spec_encode_length(len: nat) -> Seq<u8> {
    if len < 0x80 {
        seq![len as u8]
    } else {
        seq![(0x80 + be_bytes(len).len()) as u8] + be_bytes(len)
    }
}

/// DER decoding of a length at the front of `s`: `Ok((value, consumed))`, or
/// the reason it is rejected.
pub open spec fn spec_decode_length(s: Seq<u8>) -> Result<(nat, nat), Asn1Error> {
    if s.len() == 0 {
        Err(Asn1Error::UnexpectedEof)
    } else if s[0] < 0x80 {
        Ok((s[0] as nat, 1))
    } else if s[0] == 0x80 {
        Err(Asn1Error::IndefiniteLength)
    } else {
        let n = (s[0] - 0x80) as nat;
        if n > usize_bytes() {
            Err(Asn1Error::LengthOverflow)
        } else if s.len() - 1 < n {
            Err(Asn1Error::UnexpectedEof)
        } else {
            let head = s.subrange(1, 1 + n as int);
            if head[0] == 0 {
                Err(Asn1Error::NonMinimalLength)
            } else if be_value(head) < 0x80 {
                Err(Asn1Error::NonMinimalLength)
            } else {
                Ok((be_value(head), 1 + n))
            }
        }
    }
}

/// How many bytes decoding a length takes off the front of `s`, whether it
/// succeeds or not: nothing of empty input, only the first byte when the
/// long form is refused before its bytes are read, else the whole field.
pub open spec fn spec_length_consumed(s: Seq<u8>) -> nat {
    if s.len() == 0 {
        0
    } else if s[0] <= 0x80 {
        1
    } else {
        let n = (s[0] - 0x80) as nat;
        if n > usize_bytes() || s.len() - 1 < n {
            1
        } else {
            1 + n
        }
    }
}

/// A complete tag-length-value element.
pub open spec fn spec_tlv(tag: u8, value: Seq<u8>) -> Seq<u8> {
    seq![tag] + spec_encode_length(value.len()) + value
}

/// Reading one TLV from the front of `s`: `Ok((tag, value, consumed))`.
pub open spec fn spec_read_element(s: Seq<u8>) -> Result<(u8, Seq<u8>, nat), Asn1Error> {
    if s.len() == 0 {
        Err(Asn1Error::UnexpectedEof)
    } else {
        match spec_decode_length(s.skip(1)) {
            Err(e) => Err(e),
            Ok((len, k)) => if s.len() - 1 - k < len {
                Err(Asn1Error::UnexpectedEof)
            } else {
                Ok((s[0], s.subrange(1 + k as int, 1 + k + len as int), 1 + k + len))
            },
        }
    }
}

/// How many bytes reading one element takes off the front of `s`, whether
/// it succeeds or not: the tag and as much of the length as was read, and
/// the value when it is all there.
pub open spec fn spec_element_consumed(s: Seq<u8>) -> nat {
    if s.len() == 0 {
        0
    } else {
        match spec_decode_length(s.skip(1)) {
            Ok((len, k)) => if s.len() - 1 - k < len {
                1 + k
            } else {
                1 + k + len
            },
            Err(_) => 1 + spec_length_consumed(s.skip(1)),
        }
    }
}

/// Reading one TLV that must carry `tag`: `Ok((value, consumed))`.
pub open spec fn spec_expect(s: Seq<u8>, tag: u8) -> Result<(Seq<u8>, nat), Asn1Error> {
    match spec_read_element(s) {
        Err(e) => Err(e),
        Ok((found, value, n)) => if found != tag {
            Err(Asn1Error::UnexpectedTag { expected: tag, found })
        } else {
            Ok((value, n))
        },
    }
}

/// Minimal DER content octets of a non-negative integer: the minimal
/// big-endian bytes, with a `0x00` prefix when the top bit would read as a sign.
pub open spec fn spec_integer_value(v: u32) -> Seq<u8> {
    if v == 0 {
        seq![0u8]
    } else if be_bytes(v as nat)[0] >= 0x80 {
        seq![0u8] + be_bytes(v as nat)
    } else {
        be_bytes(v as nat)
    }
}

/// Interpreting integer content octets as a `u32`.
pub open spec fn spec_read_u32(value: Seq<u8>) -> Result<u32, Asn1Error> {
    if value.len() > 5 {
        Err(Asn1Error::LengthOverflow)
    } else if be_value(value) > u32::MAX {
        Err(Asn1Error::LengthOverflow)
    } else {
        Ok(be_value(value) as u32)
    }
}

proof fn lemma_usize_bytes()
    ensures
        usize_bytes() == 4 || usize_bytes() == 8,
        pow256(usize_bytes()) == usize::MAX as nat + 1,
{
    lemma_pow256_8();
}

/// Append the minimal big-endian bytes of `v`.
fn push_be(v: usize, out: &mut Vec<u8>)
    ensures
        final(out)@ == old(out)@ + be_bytes(v as nat),
    decreases v,
{
    if v >= 256 {
        push_be(v / 256, out);
    } else if v > 0 {
        assert(be_bytes((v / 256) as nat) == Seq::<u8>::empty());
    }
    if v > 0 {
        out.push((v % 256) as u8);
        assert(be_bytes(v as nat) == be_bytes((v / 256) as nat).push((v % 256) as u8));
        assert(out@ =~= old(out)@ + be_bytes(v as nat));
    } else {
        assert(out@ =~= old(out)@ + be_bytes(v as nat));
    }
}

/// Encode a definite length in DER form, appending it to `out`.
pub fn encode_length(len: usize, out: &mut Vec<u8>)
    ensures
        final(out)@ == old(out)@ + spec_encode_length(len as nat),
{
    if len < 0x80 {
        out.push(len as u8);
        assert(out@ =~= old(out)@ + spec_encode_length(len as nat));
    } else {
        proof {
            lemma_usize_bytes();
            lemma_be_bytes_props(len as nat);
        }
        let mut be: Vec<u8> = Vec::new();
        push_be(len, &mut be);
        assert(be@ =~= be_bytes(len as nat));
        let n = be.len();
        assert(n <= 8);
        out.push(0x80 | n as u8);
        assert(0x80 | n as u8 == (0x80 + n) as u8) by (bit_vector)
            requires
                n <= 8,
        ;
        push_all(out, be.as_slice());
        assert(out@ =~= old(out)@ + spec_encode_length(len as nat));
    }
}

/// Decode a definite length from the front of `input`, advancing the cursor.
/// Rejects indefinite and non-minimal encodings, as DER requires.
pub fn decode_length(input: &mut &[u8]) -> (r: Result<usize, Asn1Error>)
    ensures
        match spec_decode_length(old(input)@) {
            Ok((v, n)) => r == Ok::<usize, Asn1Error>(v as usize) && v <= usize::MAX
                && final(input)@ == old(input)@.skip(n as int),
            Err(e) => r == Err::<usize, Asn1Error>(e),
        },
        final(input)@ == old(input)@.skip(spec_length_consumed(old(input)@) as int),
{
    let ghost s = input@;
    if input.len() == 0 {
        assert(input@ =~= s.skip(0));
        return Err(Asn1Error::UnexpectedEof);
    }
    let first = input[0];
    if first < 0x80 {
        *input = skip(input, 1);
        assert(input@ =~= s.skip(1));
        return Ok(first as usize);
    }
    if first == 0x80 {
        *input = skip(input, 1);
        assert(input@ =~= s.skip(1));
        return Err(Asn1Error::IndefiniteLength);
    }
    let n = (first & 0x7f) as usize;
    assert(first & 0x7f == first - 0x80) by (bit_vector)
        requires
            first >= 0x80,
    ;
    proof {
        lemma_usize_bytes();
    }
    if n > (usize::BITS / 8) as usize {
        *input = skip(input, 1);
        assert(input@ =~= s.skip(1));
        return Err(Asn1Error::LengthOverflow);
    }
    if input.len() - 1 < n {
        *input = skip(input, 1);
        assert(input@ =~= s.skip(1));
        return Err(Asn1Error::UnexpectedEof);
    }
    let ghost head = s.subrange(1, 1 + n as int);
    if input[1] == 0 {
        *input = skip(input, 1 + n);
        assert(input@ =~= s.skip(1 + n as int));
        return Err(Asn1Error::NonMinimalLength);
    }
    let mut value: usize = 0;
    let mut i: usize = 0;
    while i < n
        invariant
            i <= n,
            n <= usize_bytes(),
            usize_bytes() == 4 || usize_bytes() == 8,
            pow256(usize_bytes()) == usize::MAX as nat + 1,
            1 + n <= input@.len(),
            input@ == s,
            head == s.subrange(1, 1 + n as int),
            value as nat == be_value(head.take(i as int)),
        decreases n - i,
    {
        proof {
            lemma_be_value_bound(head.take(i as int));
            lemma_pow256_mono(i as nat + 1, usize_bytes());
            assert(head.take(i as int + 1).drop_last() =~= head.take(i as int));
        }
        value = value * 256 + input[1 + i] as usize;
        i = i + 1;
    }
    assert(head.take(n as int) =~= head);
    if value < 0x80 {
        *input = skip(input, 1 + n);
        assert(input@ =~= s.skip(1 + n as int));
        return Err(Asn1Error::NonMinimalLength);
    }
    *input = skip(input, 1 + n);
    assert(input@ =~= s.skip(1 + n as int));
    Ok(value)
}

/// A complete tag-length-value element.
pub fn tlv(tag: u8, value: &[u8]) -> (r: Vec<u8>)
    ensures
        r@ == spec_tlv(tag, value@),
{
    let mut out = Vec::new();
    out.push(tag);
    encode_length(value.len(), &mut out);
    push_all(&mut out, value);
    assert(out@ =~= spec_tlv(tag, value@));
    out
}

/// Minimal DER content octets for a non-negative integer (positive two's
/// complement: a leading `0x00` is prepended when the top bit is set).
pub fn integer_value(v: u32) -> (r: Vec<u8>)
    ensures
        r@ == spec_integer_value(v),
{
    if v == 0 {
        let mut out = Vec::new();
        out.push(0u8);
        assert(out@ =~= spec_integer_value(v));
        return out;
    }
    let mut be = Vec::new();
    push_be(v as usize, &mut be);
    assert(be@ =~= be_bytes(v as nat));
    proof {
        lemma_be_bytes_props(v as nat);
    }
    if be[0] >= 0x80 {
        let mut out = Vec::new();
        out.push(0u8);
        push_all(&mut out, be.as_slice());
        assert(out@ =~= spec_integer_value(v));
        out
    } else {
        be
    }
}

/// `INTEGER` element.
pub fn integer(v: u32) -> (r: Vec<u8>)
    ensures
        r@ == spec_tlv(TAG_INTEGER, spec_integer_value(v)),
{
    let value = integer_value(v);
    tlv(TAG_INTEGER, value.as_slice())
}

/// `OCTET STRING` element.
pub fn octet_string(bytes: &[u8]) -> (r: Vec<u8>)
    ensures
        r@ == spec_tlv(TAG_OCTET_STRING, bytes@),
{
    tlv(TAG_OCTET_STRING, bytes)
}

/// `SEQUENCE { .. }` wrapping already-encoded inner elements.
pub fn sequence(inner: &[u8]) -> (r: Vec<u8>)
    ensures
        r@ == spec_tlv(TAG_SEQUENCE, inner@),
{
    tlv(TAG_SEQUENCE, inner)
}

/// EXPLICIT context tag `[n] { inner }`.
pub fn context(n: u8, inner: &[u8]) -> (r: Vec<u8>)
    ensures
        r@ == spec_tlv(spec_context_tag(n), inner@),
{
    tlv(context_tag(n), inner)
}

/// Read one TLV: returns `(tag, value)` and advances `input` past it.
pub fn read_element<'a>(input: &mut &'a [u8]) -> (r: Result<(u8, &'a [u8]), Asn1Error>)
    ensures
        match spec_read_element(old(input)@) {
            Ok((tag, value, n)) => r matches Ok((t, v)) && t == tag && v@ == value
                && final(input)@ == old(input)@.skip(n as int),
            Err(e) => r == Err::<(u8, &'a [u8]), Asn1Error>(e),
        },
        final(input)@ == old(input)@.skip(spec_element_consumed(old(input)@) as int),
{
    let ghost s = input@;
    if input.len() == 0 {
        assert(input@ =~= s.skip(0));
        return Err(Asn1Error::UnexpectedEof);
    }
    let tag = input[0];
    *input = skip(input, 1);
    assert(input@ =~= s.skip(1));
    let len = match decode_length(input) {
        Ok(len) => len,
        Err(e) => {
            assert(input@ =~= s.skip((1 + spec_length_consumed(s.skip(1))) as int));
            return Err(e);
        },
    };
    if input.len() < len {
        let ghost k = spec_decode_length(s.skip(1))->Ok_0.1;
        assert(input@ =~= s.skip((1 + k) as int));
        return Err(Asn1Error::UnexpectedEof);
    }
    let value = range(input, 0, len);
    *input = skip(input, len);
    let ghost k = spec_decode_length(s.skip(1))->Ok_0.1;
    assert(value@ =~= s.subrange(1 + k as int, 1 + k + len as int));
    assert(input@ =~= s.skip(1 + k + len));
    Ok((tag, value))
}

/// Read one TLV and require a specific tag, returning its value.
pub fn expect<'a>(input: &mut &'a [u8], tag: u8) -> (r: Result<&'a [u8], Asn1Error>)
    ensures
        match spec_expect(old(input)@, tag) {
            Ok((value, n)) => r matches Ok(v) && v@ == value && final(input)@ == old(input)@.skip(n as int),
            Err(e) => r == Err::<&'a [u8], Asn1Error>(e),
        },
        final(input)@ == old(input)@.skip(spec_element_consumed(old(input)@) as int),
{
    let (found, value) = match read_element(input) {
        Ok(x) => x,
        Err(e) => return Err(e),
    };
    if found != tag {
        return Err(Asn1Error::UnexpectedTag { expected: tag, found });
    }
    Ok(value)
}

/// Interpret integer content octets as a `u32`.
pub fn read_u32(value: &[u8]) -> (r: Result<u32, Asn1Error>)
    ensures
        r == spec_read_u32(value@),
{
    if value.len() > 5 {
        return Err(Asn1Error::LengthOverflow);
    }
    let mut v: u64 = 0;
    let mut i: usize = 0;
    while i < value.len()
        invariant
            i <= value@.len(),
            value@.len() <= 5,
            v as nat == be_value(value@.take(i as int)),
        decreases value@.len() - i,
    {
        proof {
            lemma_be_value_bound(value@.take(i as int));
            lemma_pow256_mono(i as nat + 1, 5);
            reveal_with_fuel(pow256, 6);
            assert(value@.take(i as int + 1).drop_last() =~= value@.take(i as int));
        }
        v = v * 256 + value[i] as u64;
        i = i + 1;
    }
    assert(value@.take(i as int) =~= value@);
    if v > u32::MAX as u64 {
        return Err(Asn1Error::LengthOverflow);
    }
    Ok(v as u32)
}

// --- Laws -------------------------------------------------------------------

/// Every length decodes back from its DER encoding, whatever follows it, and
/// exactly the encoded bytes are consumed.
pub proof fn lemma_length_roundtrip(len: usize, rest: Seq<u8>)
    ensures
        spec_decode_length(spec_encode_length(len as nat) + rest)
            == Ok::<(nat, nat), Asn1Error>((len as nat, spec_encode_length(len as nat).len())),
{
    let e = spec_encode_length(len as nat);
    let s = e + rest;
    if len >= 0x80 {
        lemma_usize_bytes();
        lemma_be_bytes_props(len as nat);
        let b = be_bytes(len as nat);
        assert(b.len() <= usize_bytes());
        assert(s[0] == (0x80 + b.len()) as u8);
        assert(s.subrange(1, 1 + b.len() as int) =~= b);
    }
}

/// DER lengths are unique: whatever a successful decode consumed is exactly
/// the encoding of the value it returned.
pub proof fn lemma_length_canonical(s: Seq<u8>)
    ensures
        spec_decode_length(s) matches Ok((v, n)) ==> s.take(n as int) == spec_encode_length(v),
{
    if let Ok((v, n)) = spec_decode_length(s) {
        if s[0] < 0x80 {
            assert(s.take(1) =~= seq![s[0]]);
        } else {
            let head = s.subrange(1, n as int);
            lemma_be_bytes_of_value(head);
            assert(s[0] == (0x80 + head.len()) as u8);
            assert(s.take(n as int) =~= seq![s[0]] + head);
        }
    }
}

/// A TLV reads back as its tag and value, consuming exactly its own bytes.
pub proof fn lemma_tlv_roundtrip(tag: u8, value: Seq<u8>, rest: Seq<u8>)
    requires
        value.len() <= usize::MAX,
    ensures
        spec_read_element(spec_tlv(tag, value) + rest)
            == Ok::<(u8, Seq<u8>, nat), Asn1Error>((tag, value, spec_tlv(tag, value).len())),
{
    let e = spec_encode_length(value.len());
    let s = spec_tlv(tag, value) + rest;
    lemma_length_roundtrip(value.len() as usize, value + rest);
    assert(s.skip(1) =~= e + (value + rest));
    assert(s.subrange(1 + e.len() as int, 1 + e.len() + value.len() as int) =~= value);
}

/// The integer content octets of `v` read back as `v`.
pub proof fn lemma_integer_roundtrip(v: u32)
    ensures
        spec_read_u32(spec_integer_value(v)) == Ok::<u32, Asn1Error>(v),
{
    lemma_be_bytes_props(v as nat);
    lemma_pow256_8();
    if v != 0 {
        let b = be_bytes(v as nat);
        assert(b.len() <= 4);
        if b[0] >= 0x80 {
            let c = seq![0u8] + b;
            assert(be_value(c) == be_value(b)) by {
                lemma_be_value_leading_zero(b);
            }
        }
    } else {
        assert(be_value(seq![0u8]) == 0) by {
            assert(seq![0u8].drop_last() =~= Seq::<u8>::empty());
        }
    }
}

/// A leading zero byte does not change a big-endian value.
proof fn lemma_be_value_leading_zero(b: Seq<u8>)
    ensures
        be_value(seq![0u8] + b) == be_value(b),
    decreases b.len(),
{
    if b.len() == 0 {
        let c = seq![0u8] + b;
        assert(c.drop_last() =~= Seq::<u8>::empty());
        assert(c.last() == 0);
        assert(be_value(c) == be_value(c.drop_last()) * 256 + c.last() as nat);
    } else {
        let c = seq![0u8] + b;
        assert(c.drop_last() =~= seq![0u8] + b.drop_last());
        assert(c.last() == b.last());
        lemma_be_value_leading_zero(b.drop_last());
        assert(be_value(c) == be_value(c.drop_last()) * 256 + c.last() as nat);
    }
}

} // verus!
