//! Connection finalization: the Synchronize, Control and Font List PDUs the
//! client sends, and detection of the server's Font Map PDU that marks the
//! session active. All are Share Data PDUs: a Share Control Header of type
//! DATAPDU wrapping the Share Data Header and a small body.
use vstd::prelude::*;
use crate::bytes::{le16, le32, rd16, put_u16, put_u32, push_all, get_u16};

verus! {

/// Share Control Header `pduType` for a Data PDU (DATAPDU = 7, version 0x10).
pub const PDUTYPE_DATA: u16 = 0x17;

/// Share Data Header `pduType2` values.
pub const PDUTYPE2_UPDATE: u8 = 2;
pub const PDUTYPE2_CONTROL: u8 = 20;
pub const PDUTYPE2_POINTER: u8 = 27;
pub const PDUTYPE2_SYNCHRONIZE: u8 = 31;
pub const PDUTYPE2_SAVE_SESSION_INFO: u8 = 38;
pub const PDUTYPE2_FONTLIST: u8 = 39;
pub const PDUTYPE2_FONTMAP: u8 = 40;
pub const PDUTYPE2_SET_ERROR_INFO: u8 = 47;

/// Control PDU actions.
pub const CTRLACTION_REQUEST_CONTROL: u16 = 0x0001;
pub const CTRLACTION_GRANTED_CONTROL: u16 = 0x0002;
pub const CTRLACTION_COOPERATE: u16 = 0x0004;

/// Bytes of a Share Data Header (Share Control Header and data header).
pub const SHARE_DATA_HEADER_LEN: usize = 18;

/// The 16-bit total length of a Share Data PDU with `n` body bytes (wrapping).
pub open spec fn share_total(n: nat) -> u16 {
    ((n + 18) % 65536) as u16
}

/// A Share Data PDU: Share Control Header (totalLength, DATAPDU, user id),
/// Share Data Header (share id, pad, STREAM_LOW, uncompressedLength,
/// `pduType2`, no compression), then the body.
pub open spec fn spec_share_data(share_id: u32, user_id: u16, pdu_type2: u8, body: Seq<u8>) -> Seq<u8> {
    let total = share_total(body.len());
    le16(total) + le16(PDUTYPE_DATA) + le16(user_id) + le32(share_id) + seq![0u8, 1u8] + le16(total)
        + seq![pdu_type2, 0u8] + le16(0) + body
}

/// Wrap `body` in a Share Data Header for `pdu_type2`.
pub fn share_data(share_id: u32, user_id: u16, pdu_type2: u8, body: &[u8]) -> (r: Vec<u8>)
    ensures
        r@ == spec_share_data(share_id, user_id, pdu_type2, body@),
{
    let total = (((body.len() % 65536) + 18) % 65536) as u16;
    proof {
        vstd::arithmetic::div_mod::lemma_add_mod_noop(body@.len() as int, 18, 65536);
    }
    let mut out: Vec<u8> = Vec::new();
    put_u16(total, &mut out);
    put_u16(PDUTYPE_DATA, &mut out);
    put_u16(user_id, &mut out);
    put_u32(share_id, &mut out);
    out.push(0);
    out.push(1);
    put_u16(total, &mut out);
    out.push(pdu_type2);
    out.push(0);
    put_u16(0, &mut out);
    push_all(&mut out, body);
    assert(out@ =~= spec_share_data(share_id, user_id, pdu_type2, body@));
    out
}

/// Client Synchronize PDU (SYNCMSGTYPE_SYNC to `target_user`).
pub fn synchronize_pdu(share_id: u32, user_id: u16, target_user: u16) -> (r: Vec<u8>)
    ensures
        r@ == spec_share_data(share_id, user_id, PDUTYPE2_SYNCHRONIZE, le16(1) + le16(target_user)),
{
    let mut body: Vec<u8> = Vec::new();
    put_u16(1, &mut body);
    put_u16(target_user, &mut body);
    share_data(share_id, user_id, PDUTYPE2_SYNCHRONIZE, body.as_slice())
}

/// Control PDU with the given action (Cooperate, Request Control, ...).
pub fn control_pdu(share_id: u32, user_id: u16, action: u16) -> (r: Vec<u8>)
    ensures
        r@ == spec_share_data(share_id, user_id, PDUTYPE2_CONTROL, le16(action) + le16(0) + le32(0)),
{
    let mut body: Vec<u8> = Vec::new();
    put_u16(action, &mut body);
    put_u16(0, &mut body);
    put_u32(0, &mut body);
    share_data(share_id, user_id, PDUTYPE2_CONTROL, body.as_slice())
}

/// Client Font List PDU: no fonts, first and last list, entry size 50.
pub fn font_list_pdu(share_id: u32, user_id: u16) -> (r: Vec<u8>)
    ensures
        r@ == spec_share_data(share_id, user_id, PDUTYPE2_FONTLIST, le16(0) + le16(0) + le16(3) + le16(50)),
{
    let mut body: Vec<u8> = Vec::new();
    put_u16(0, &mut body);
    put_u16(0, &mut body);
    put_u16(0x0003, &mut body);
    put_u16(50, &mut body);
    share_data(share_id, user_id, PDUTYPE2_FONTLIST, body.as_slice())
}

/// The `pduType2` of a Share Data PDU; `None` for a short buffer or another
/// PDU type.
pub open spec fn spec_data_pdu_type2(pdu: Seq<u8>) -> Option<u8> {
    if pdu.len() < 18 {
        None
    } else if rd16(pdu, 2) & 0x0f != 7 {
        None
    } else {
        Some(pdu[14])
    }
}

/// If `share_pdu` is a Share Data PDU, its `pduType2` (used to spot the
/// server's Font Map, which marks the session active).
pub fn data_pdu_type2(share_pdu: &[u8]) -> (r: Option<u8>)
    ensures
        r == spec_data_pdu_type2(share_pdu@),
{
    if share_pdu.len() < SHARE_DATA_HEADER_LEN {
        return None;
    }
    let pdu_type = get_u16(share_pdu, 2) & 0x0f;
    if pdu_type != 7 {
        return None;
    }
    Some(share_pdu[14])
}

/// Every Share Data PDU built here is recognised as one, with its
/// `pduType2`; and its total-length field is its length when that fits.
pub proof fn lemma_share_data_roundtrip(share_id: u32, user_id: u16, pdu_type2: u8, body: Seq<u8>)
    ensures
        spec_data_pdu_type2(spec_share_data(share_id, user_id, pdu_type2, body)) == Some(pdu_type2),
        body.len() + 18 < 65536 ==> rd16(spec_share_data(share_id, user_id, pdu_type2, body), 0) as nat
            == spec_share_data(share_id, user_id, pdu_type2, body).len(),
{
    let p = spec_share_data(share_id, user_id, pdu_type2, body);
    let t: u16 = 0x17;
    assert(p[2] == 0x17 && p[3] == 0);
    assert(rd16(p, 2) == 0x17);
    assert(t & 0x0f == 7) by (bit_vector)
        requires t == 0x17u16;
    let total = share_total(body.len());
    assert(p[0] == (total % 256) as u8 && p[1] == (total / 256) as u8);
}

} // verus!
