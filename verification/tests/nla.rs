use rdpio::asn1::der;
use rdpio::nla::tsrequest::{password_credentials_der, TsRequest};
use rdpio::nla::x509::extract_public_key;

#[test]
fn version_only_request_matches_known_bytes() {
    let req = TsRequest {
        version: 6,
        ..Default::default()
    };
    // SEQUENCE { [0] { INTEGER 6 } } = 30 05 a0 03 02 01 06
    assert_eq!(req.to_der(), vec![0x30, 0x05, 0xa0, 0x03, 0x02, 0x01, 0x06]);
}

#[test]
fn nego_token_roundtrips() {
    let req = TsRequest::with_nego_token(b"NTLMSSP\0".to_vec());
    let der_bytes = req.to_der();
    let parsed = TsRequest::from_der(&der_bytes).unwrap();
    assert_eq!(parsed, req);
    assert_eq!(parsed.nego_tokens[0], b"NTLMSSP\0");
    assert_eq!(parsed.version, 6);
}

#[test]
fn all_optional_fields_roundtrip() {
    let req = TsRequest {
        version: 6,
        nego_tokens: vec![vec![1, 2, 3], vec![4, 5]],
        auth_info: Some(vec![0xaa; 40]),
        pub_key_auth: Some(vec![0xbb; 16]),
        error_code: Some(0xc000_0022),
        client_nonce: Some([7u8; 32]),
    };
    let parsed = TsRequest::from_der(&req.to_der()).unwrap();
    assert_eq!(parsed, req);
}

#[test]
fn server_response_with_error_code_parses() {
    let server = TsRequest {
        version: 6,
        error_code: Some(0x0000_000c),
        ..Default::default()
    };
    let parsed = TsRequest::from_der(&server.to_der()).unwrap();
    assert_eq!(parsed.error_code, Some(0x0000_000c));
    assert!(parsed.nego_tokens.is_empty());
}

#[test]
fn password_credentials_structure() {
    let creds = password_credentials_der("CORP", "alice", "hunter2");
    let mut cur: &[u8] = &creds;
    let body = der::expect(&mut cur, der::TAG_SEQUENCE).unwrap();
    let mut b = body;
    let mut cred_type = der::expect(&mut b, der::context_tag(0)).unwrap();
    assert_eq!(
        der::read_u32(der::expect(&mut cred_type, der::TAG_INTEGER).unwrap()).unwrap(),
        1
    );
    let mut creds_field = der::expect(&mut b, der::context_tag(1)).unwrap();
    let inner = der::expect(&mut creds_field, der::TAG_OCTET_STRING).unwrap();
    let mut ic: &[u8] = inner;
    let pwd_body = der::expect(&mut ic, der::TAG_SEQUENCE).unwrap();
    let mut pb = pwd_body;
    let domain = der::expect(&mut pb, der::context_tag(0)).unwrap();
    let user = der::expect(&mut pb, der::context_tag(1)).unwrap();
    let pass = der::expect(&mut pb, der::context_tag(2)).unwrap();
    assert!(!domain.is_empty() && !user.is_empty() && !pass.is_empty());
}

#[test]
fn password_credentials_carry_utf16_strings() {
    let creds = password_credentials_der("D", "u", "p");
    let mut cur: &[u8] = &creds;
    let mut b = der::expect(&mut cur, der::TAG_SEQUENCE).unwrap();
    let _ = der::expect(&mut b, der::context_tag(0)).unwrap();
    let mut creds_field = der::expect(&mut b, der::context_tag(1)).unwrap();
    let mut ic = der::expect(&mut creds_field, der::TAG_OCTET_STRING).unwrap();
    let mut pb = der::expect(&mut ic, der::TAG_SEQUENCE).unwrap();
    let mut domain = der::expect(&mut pb, der::context_tag(0)).unwrap();
    assert_eq!(der::expect(&mut domain, der::TAG_OCTET_STRING).unwrap(), &[b'D', 0]);
    let mut user = der::expect(&mut pb, der::context_tag(1)).unwrap();
    assert_eq!(der::expect(&mut user, der::TAG_OCTET_STRING).unwrap(), &[b'u', 0]);
    let mut pass = der::expect(&mut pb, der::context_tag(2)).unwrap();
    assert_eq!(der::expect(&mut pass, der::TAG_OCTET_STRING).unwrap(), &[b'p', 0]);
}

#[test]
fn from_der_rejects_truncated_request() {
    let req = TsRequest::with_nego_token(vec![1, 2, 3]);
    let bytes = req.to_der();
    assert!(TsRequest::from_der(&bytes[..bytes.len() - 1]).is_err());
    assert!(TsRequest::from_der(&[]).is_err());
}

fn spki(algorithm_contents: &[u8], key: &[u8]) -> Vec<u8> {
    let mut bit_string = vec![der::TAG_BIT_STRING];
    let mut content = vec![0x00];
    content.extend_from_slice(key);
    der::encode_length(content.len(), &mut bit_string);
    bit_string.extend_from_slice(&content);
    der::sequence(&[der::sequence(algorithm_contents), bit_string].concat())
}

fn synthetic_cert(with_version: bool, spki: &[u8]) -> Vec<u8> {
    let mut tbs = Vec::new();
    if with_version {
        tbs.extend(der::context(0, &der::integer(2)));
    }
    tbs.extend(der::integer(0x1234));
    tbs.extend(der::sequence(&der::integer(0)));
    tbs.extend(der::sequence(&[]));
    tbs.extend(der::sequence(&[]));
    tbs.extend(der::sequence(&[]));
    tbs.extend_from_slice(spki);
    der::sequence(
        &[
            der::sequence(&tbs),
            der::sequence(&der::integer(0)),
            der::octet_string(&[0xAB, 0xCD]),
        ]
        .concat(),
    )
}

#[test]
fn extracts_raw_public_key_without_version() {
    let key = [0x55, 0x66, 0x77, 0x88, 0x99];
    let cert = synthetic_cert(false, &spki(&der::integer(0), &key));
    assert_eq!(extract_public_key(&cert).unwrap(), key);
}

#[test]
fn extracts_raw_public_key_with_version() {
    let key = der::sequence(&[der::integer(0x00C0_FFEE), der::integer(65537)].concat());
    let cert = synthetic_cert(true, &spki(&der::integer(0), &key));
    assert_eq!(extract_public_key(&cert).unwrap(), key);
}

#[test]
fn rejects_garbage() {
    assert!(extract_public_key(&[0x01, 0x02, 0x03]).is_err());
}
