use rdpio::asn1::der::{
    context, decode_length, encode_length, expect, integer, integer_value, octet_string, read_element, read_u32,
    sequence, TAG_INTEGER, TAG_OCTET_STRING, TAG_SEQUENCE,
};
use rdpio::asn1::Asn1Error;

#[test]
fn roundtrip_short_and_long_lengths() {
    for len in [0usize, 1, 0x7f, 0x80, 0xff, 0x100, 0x1234, 0xffff, 0x1_0000, 0x12_3456] {
        let mut buf = Vec::new();
        encode_length(len, &mut buf);
        let mut cur: &[u8] = &buf;
        let decoded = decode_length(&mut cur).expect("decode");
        assert_eq!(decoded, len, "roundtrip failed for {len:#x}");
        assert!(cur.is_empty(), "trailing bytes for {len:#x}");
    }
}

#[test]
fn rejects_indefinite_and_non_minimal() {
    assert!(decode_length(&mut (&[0x80][..])).is_err());
    assert!(decode_length(&mut (&[0x81, 0x7f][..])).is_err());
}

#[test]
fn integer_value_is_minimal_and_positive() {
    assert_eq!(integer_value(0), vec![0x00]);
    assert_eq!(integer_value(6), vec![0x06]);
    assert_eq!(integer_value(0x80), vec![0x00, 0x80]);
    assert_eq!(integer_value(0x1234), vec![0x12, 0x34]);
}

#[test]
fn integer_element_bytes() {
    assert_eq!(integer(6), vec![0x02, 0x01, 0x06]);
}

#[test]
fn context_explicit_wraps_inner() {
    assert_eq!(context(0, &integer(6)), vec![0xa0, 0x03, 0x02, 0x01, 0x06]);
}

#[test]
fn read_element_walks_a_sequence() {
    let seq = sequence(&[octet_string(b"hi"), integer(1)].concat());
    let mut cur: &[u8] = &seq;
    let body = expect(&mut cur, TAG_SEQUENCE).unwrap();
    let mut b = body;
    let (t0, v0) = read_element(&mut b).unwrap();
    assert_eq!(t0, TAG_OCTET_STRING);
    assert_eq!(v0, b"hi");
    let (t1, v1) = read_element(&mut b).unwrap();
    assert_eq!(t1, TAG_INTEGER);
    assert_eq!(read_u32(v1).unwrap(), 1);
    assert!(b.is_empty());
}

#[test]
fn expect_reports_wrong_tag() {
    let bytes = integer(1);
    let mut cur: &[u8] = &bytes;
    assert!(matches!(expect(&mut cur, TAG_OCTET_STRING), Err(Asn1Error::UnexpectedTag { .. })));
}

#[test]
fn long_form_length_bytes() {
    let mut buf = Vec::new();
    encode_length(0x1234, &mut buf);
    assert_eq!(buf, vec![0x82, 0x12, 0x34]);
    let mut buf = Vec::new();
    encode_length(0x80, &mut buf);
    assert_eq!(buf, vec![0x81, 0x80]);
}

#[test]
fn decode_length_errors_by_kind() {
    assert_eq!(decode_length(&mut (&[][..])), Err(Asn1Error::UnexpectedEof));
    assert_eq!(decode_length(&mut (&[0x80][..])), Err(Asn1Error::IndefiniteLength));
    assert_eq!(decode_length(&mut (&[0x81, 0x7f][..])), Err(Asn1Error::NonMinimalLength));
    assert_eq!(decode_length(&mut (&[0x82, 0x00, 0x90][..])), Err(Asn1Error::NonMinimalLength));
    assert_eq!(decode_length(&mut (&[0x82, 0x01][..])), Err(Asn1Error::UnexpectedEof));
    assert_eq!(decode_length(&mut (&[0x89, 1, 1, 1, 1, 1, 1, 1, 1, 1][..])), Err(Asn1Error::LengthOverflow));
}

#[test]
fn read_u32_rejects_too_large() {
    assert_eq!(read_u32(&[0x01, 0x00, 0x00, 0x00, 0x00]), Err(Asn1Error::LengthOverflow));
    assert_eq!(read_u32(&[0, 0, 0, 0, 0, 0]), Err(Asn1Error::LengthOverflow));
    assert_eq!(read_u32(&[0x00, 0xff, 0xff, 0xff, 0xff]), Ok(0xffff_ffff));
}

#[test]
fn integer_roundtrips_through_read_u32() {
    for v in [0u32, 1, 0x7f, 0x80, 0xff, 0x100, 0xc000_0022, 0xffff_ffff] {
        assert_eq!(read_u32(&integer_value(v)), Ok(v));
    }
}

#[test]
fn failed_reads_advance_past_what_was_read() {
    let buf = [0x02u8, 0x01, 0x05, 0x04, 0x00];
    let mut cur: &[u8] = &buf;
    assert!(expect(&mut cur, TAG_OCTET_STRING).is_err());
    assert_eq!(cur, &[0x04, 0x00]);

    let bad = [0x80u8, 1];
    let mut c2: &[u8] = &bad;
    assert_eq!(decode_length(&mut c2), Err(Asn1Error::IndefiniteLength));
    assert_eq!(c2, &[1]);

    let non_minimal = [0x81u8, 0x10, 7];
    let mut c3: &[u8] = &non_minimal;
    assert_eq!(decode_length(&mut c3), Err(Asn1Error::NonMinimalLength));
    assert_eq!(c3, &[7]);

    let short = [0x30u8, 0x05, 1, 2];
    let mut c4: &[u8] = &short;
    assert_eq!(read_element(&mut c4), Err(Asn1Error::UnexpectedEof));
    assert_eq!(c4, &[1, 2]);
}
