//! RDSTLS authentication (the reverse-connect authentication of Azure
//! Virtual Desktop / Windows 365): the client Capabilities and
//! Authentication Request PDUs, and the server's Capabilities and
//! Authentication Response. Every field is little-endian; strings are
//! length-prefixed UTF-16LE.
use vstd::prelude::*;
use crate::bytes::{le16, rd16, rd32, put_u16, push_all, get_u16, get_u32};
use crate::text::{utf16_encode, units_le, encode_utf16, push_units_le};

verus! {

/// `RDSTLS_VERSION_1`.
pub const VERSION_1: u16 = 0x0001;
/// `RDSTLS_TYPE_CAPABILITIES`.
pub const TYPE_CAPABILITIES: u16 = 0x0001;
/// `RDSTLS_TYPE_AUTHREQ`.
pub const TYPE_AUTHREQ: u16 = 0x0002;
/// `RDSTLS_TYPE_AUTHRSP`.
pub const TYPE_AUTHRSP: u16 = 0x0004;
/// `RDSTLS_DATA_CAPABILITIES`.
pub const DATA_CAPABILITIES: u16 = 0x0001;
/// `RDSTLS_DATA_PASSWORD_CREDS`.
pub const DATA_PASSWORD_CREDS: u16 = 0x0001;
/// `RDSTLS_DATA_RESULT_CODE`.
pub const DATA_RESULT_CODE: u16 = 0x0001;
/// `RDSTLS_RESULT_SUCCESS`: authentication accepted.
pub const RESULT_SUCCESS: u32 = 0x0000_0000;

/// A 16-bit length field (wrapping).
pub open spec fn len16(n: nat) -> u16 {
    (n % 65536) as u16
}

/// A length-prefixed, NUL-terminated UTF-16LE string: the byte length
/// (including the terminator), then the units.
pub open spec fn spec_utf16_field(s: Seq<char>) -> Seq<u8> {
    let units = utf16_encode(s).push(0u16);
    le16(len16(2 * units.len())) + units_le(units)
}

fn write_utf16(out: &mut Vec<u8>, s: &str)
    ensures
        final(out)@ == old(out)@ + spec_utf16_field(s@),
{
    let mut units = encode_utf16(s);
    units.push(0);
    let n = units.len();
    let len = ((n % 65536) * 2 % 65536) as u16;
    proof {
        vstd::arithmetic::div_mod::lemma_mul_mod_noop_left(n as int, 2, 65536);
        assert((n % 65536) * 2 == 2 * (n % 65536));
        assert(2 * n == n * 2);
    }
    put_u16(len, out);
    push_units_le(out, units.as_slice());
    assert(out@ =~= old(out)@ + spec_utf16_field(s@));
}

/// The client's RDSTLS Capabilities PDU (8 bytes).
pub fn build_capabilities() -> (r: Vec<u8>)
    ensures
        r@ == le16(VERSION_1) + le16(TYPE_CAPABILITIES) + le16(DATA_CAPABILITIES) + le16(VERSION_1),
{
    let mut out: Vec<u8> = Vec::new();
    put_u16(VERSION_1, &mut out);
    put_u16(TYPE_CAPABILITIES, &mut out);
    put_u16(DATA_CAPABILITIES, &mut out);
    put_u16(VERSION_1, &mut out);
    assert(out@ =~= le16(VERSION_1) + le16(TYPE_CAPABILITIES) + le16(DATA_CAPABILITIES) + le16(VERSION_1));
    out
}

/// Whether `data` looks like an RDSTLS Capabilities PDU.
pub open spec fn spec_is_capabilities(data: Seq<u8>) -> bool {
    data.len() >= 4 && rd16(data, 2) == TYPE_CAPABILITIES
}

/// True if `data` looks like an RDSTLS Capabilities PDU (the server's reply
/// to ours).
pub fn is_capabilities(data: &[u8]) -> (r: bool)
    ensures
        r == spec_is_capabilities(data@),
{
    data.len() >= 4 && get_u16(data, 2) == TYPE_CAPABILITIES
}

/// The server's advertised `SupportedVersions` (the fourth 16-bit field of
/// its Capabilities PDU).
pub fn capabilities_version(data: &[u8]) -> (r: Option<u16>)
    ensures
        r == (if data@.len() >= 8 && spec_is_capabilities(data@) { Some(rd16(data@, 6)) } else { None::<u16> }),
{
    if data.len() >= 8 && is_capabilities(data) {
        Some(get_u16(data, 6))
    } else {
        None
    }
}

/// The Authentication Request PDU (password-credentials variant).
pub open spec fn spec_auth_request(version: u16, guid: Seq<u8>, username: Seq<char>, domain: Seq<char>, password: Seq<u8>) -> Seq<u8> {
    le16(version) + le16(TYPE_AUTHREQ) + le16(DATA_PASSWORD_CREDS) + le16(len16(guid.len())) + guid
        + spec_utf16_field(username) + spec_utf16_field(domain) + le16(len16(password.len())) + password
}

/// Build the Authentication Request PDU (password-credentials variant):
/// header, the redirection GUID (length and raw bytes), user name and domain
/// as UTF-16LE strings, then the password blob (length and raw bytes).
pub fn build_auth_request_password(
    version: u16,
    redirection_guid: &[u8],
    username: &str,
    domain: &str,
    password: &[u8],
) -> (r: Vec<u8>)
    ensures
        r@ == spec_auth_request(version, redirection_guid@, username@, domain@, password@),
{
    let mut out: Vec<u8> = Vec::new();
    put_u16(version, &mut out);
    put_u16(TYPE_AUTHREQ, &mut out);
    put_u16(DATA_PASSWORD_CREDS, &mut out);
    put_u16((redirection_guid.len() % 65536) as u16, &mut out);
    push_all(&mut out, redirection_guid);
    write_utf16(&mut out, username);
    write_utf16(&mut out, domain);
    put_u16((password.len() % 65536) as u16, &mut out);
    push_all(&mut out, password);
    assert(out@ =~= spec_auth_request(version, redirection_guid@, username@, domain@, password@));
    out
}

/// Parse the server's Authentication Response: its result code, or `None`
/// when the buffer is short or another PDU type.
pub fn parse_auth_response(data: &[u8]) -> (r: Option<u32>)
    ensures
        r == (if data@.len() >= 10 && rd16(data@, 2) == TYPE_AUTHRSP { Some(rd32(data@, 6)) } else { None::<u32> }),
{
    if data.len() < 10 {
        return None;
    }
    let pdu_type = get_u16(data, 2);
    if pdu_type != TYPE_AUTHRSP {
        return None;
    }
    Some(get_u32(data, 6))
}

/// The Win32-style name of an RDSTLS result code.
pub open spec fn spec_result_name(code: u32) -> Seq<char> {
    if code == 0x0000_0000 {
        "SUCCESS"@
    } else if code == 0x0000_0005 {
        "ACCESS_DENIED"@
    } else if code == 0x0000_052E {
        "LOGON_FAILURE"@
    } else if code == 0x0000_0530 {
        "INVALID_LOGON_HOURS"@
    } else if code == 0x0000_0532 {
        "PASSWORD_EXPIRED"@
    } else if code == 0x0000_0533 {
        "ACCOUNT_DISABLED"@
    } else if code == 0x0000_0773 {
        "PASSWORD_MUST_CHANGE"@
    } else if code == 0x0000_0775 {
        "ACCOUNT_LOCKED_OUT"@
    } else {
        "UNKNOWN"@
    }
}

/// A human-readable name for an RDSTLS result code.
pub fn result_name(code: u32) -> (r: &'static str)
    ensures
        r@ == spec_result_name(code),
{
    if code == 0x0000_0000 {
        "SUCCESS"
    } else if code == 0x0000_0005 {
        "ACCESS_DENIED"
    } else if code == 0x0000_052E {
        "LOGON_FAILURE"
    } else if code == 0x0000_0530 {
        "INVALID_LOGON_HOURS"
    } else if code == 0x0000_0532 {
        "PASSWORD_EXPIRED"
    } else if code == 0x0000_0533 {
        "ACCOUNT_DISABLED"
    } else if code == 0x0000_0773 {
        "PASSWORD_MUST_CHANGE"
    } else if code == 0x0000_0775 {
        "ACCOUNT_LOCKED_OUT"
    } else {
        "UNKNOWN"
    }
}

} // verus!
