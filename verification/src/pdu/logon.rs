//! Server Save Session Info PDU: the server reports a successful logon (the
//! domain and user name it logged the client on as, and the session id), a
//! plain notification, or extended information that may carry an
//! auto-reconnect cookie.
use vstd::prelude::*;
use crate::bytes::{rd32, get_u32};
use crate::text::{utf16_decode_lossy, units_until_nul, read_units_until_nul, string_from_utf16_lossy};
use super::finalization::{data_pdu_type2, spec_data_pdu_type2, PDUTYPE2_SAVE_SESSION_INFO};

verus! {

pub const INFOTYPE_LOGON: u32 = 0x0000_0000;
pub const INFOTYPE_LOGON_LONG: u32 = 0x0000_0001;
pub const INFOTYPE_LOGON_PLAINNOTIFY: u32 = 0x0000_0002;
pub const INFOTYPE_LOGON_EXTENDED_INFO: u32 = 0x0000_0003;

/// Extended info field: an auto-reconnect cookie is present.
pub const LOGON_EX_AUTORECONNECTCOOKIE: u32 = 0x0000_0001;

/// The logon identity the server reports.
#[derive(Debug, Clone, PartialEq, Eq)]
pub struct LogonInfo {
    pub domain: String,
    pub username: String,
    pub session_id: u32,
}

/// The server's auto-reconnect cookie: lets the client reconnect after a
/// transient drop without re-entering credentials.
#[derive(Debug, Clone, Copy, PartialEq, Eq)]
pub struct ReconnectCookie {
    pub logon_id: u32,
    pub arc_random: [u8; 16],
}

/// A classified Save Session Info PDU.
#[derive(Debug, Clone, PartialEq, Eq)]
pub enum SaveSessionInfo {
    /// A logon notification (version 1 or 2) with identity and session id.
    Logon(LogonInfo),
    /// A plain logon notification.
    PlainNotify,
    /// Extended information, with the auto-reconnect cookie when offered.
    Extended { cookie: Option<ReconnectCookie> },
}

/// A Save Session Info PDU as values.
pub enum SessionInfoModel {
    Logon { domain: Seq<char>, username: Seq<char>, session_id: u32 },
    PlainNotify,
    Extended { cookie: Option<(u32, Seq<u8>)> },
}

pub open spec fn session_info_view(s: SaveSessionInfo) -> SessionInfoModel {
    match s {
        SaveSessionInfo::Logon(l) => SessionInfoModel::Logon {
            domain: l.domain@,
            username: l.username@,
            session_id: l.session_id,
        },
        SaveSessionInfo::PlainNotify => SessionInfoModel::PlainNotify,
        SaveSessionInfo::Extended { cookie } => SessionInfoModel::Extended {
            cookie: match cookie {
                Some(c) => Some((c.logon_id, c.arc_random@)),
                None => None,
            },
        },
    }
}

/// The 32-bit value at `o` if four bytes are there.
pub open spec fn u32_at(b: Seq<u8>, o: int) -> Option<u32> {
    if 0 <= o && o + 4 <= b.len() {
        Some(rd32(b, o))
    } else {
        None
    }
}

/// The text of `cb` bytes of UTF-16LE at `off`, up to a NUL unit; empty when
/// those bytes are not all there.
pub open spec fn utf16_field(b: Seq<u8>, off: nat, cb: nat) -> Seq<char> {
    if off + cb <= b.len() {
        utf16_decode_lossy(units_until_nul(b.subrange(off as int, (off + cb) as int), 0))
    } else {
        Seq::empty()
    }
}

/// Decode `cb` bytes of UTF-16LE at `off` into a `String`, stopping at a NUL.
fn utf16(b: &[u8], off: usize, cb: usize) -> (r: String)
    ensures
        r@ == utf16_field(b@, off as nat, cb as nat),
{
    if off > b.len() || cb > b.len() - off {
        let s = String::new();
        return s;
    }
    let slice = crate::bytes::range(b, off, off + cb);
    let units = read_units_until_nul(slice);
    string_from_utf16_lossy(units.as_slice())
}

/// Logon fields of a version-1 notification: cbDomain, Domain[52],
/// cbUserName, UserName[512], SessionId (lengths capped at the field sizes).
pub open spec fn spec_logon_v1(body: Seq<u8>) -> Option<SessionInfoModel> {
    match (u32_at(body, 4), u32_at(body, 60), u32_at(body, 576)) {
        (Some(cd), Some(cu), Some(sid)) => {
            let cb_domain: nat = if cd < 52 { cd as nat } else { 52 };
            let cb_user: nat = if cu < 512 { cu as nat } else { 512 };
            Some(SessionInfoModel::Logon {
                domain: utf16_field(body, 8, cb_domain),
                username: utf16_field(body, 64, cb_user),
                session_id: sid,
            })
        },
        _ => None,
    }
}

/// Logon fields of a version-2 notification: Version, Size, SessionId,
/// cbDomain, cbUserName, 558 bytes of padding, then the names back to back.
pub open spec fn spec_logon_v2(body: Seq<u8>) -> Option<SessionInfoModel> {
    match (u32_at(body, 10), u32_at(body, 14), u32_at(body, 18)) {
        (Some(sid), Some(cd), Some(cu)) => Some(SessionInfoModel::Logon {
            domain: utf16_field(body, 580, cd as nat),
            username: utf16_field(body, 580 + cd as nat, cu as nat),
            session_id: sid,
        }),
        _ => None,
    }
}

/// Extended information: the fields-present mask at 6, and with the cookie
/// flag the logon id at 22 and 16 random bytes at 26.
pub open spec fn spec_logon_extended(body: Seq<u8>) -> Option<SessionInfoModel> {
    match u32_at(body, 6) {
        None => None,
        Some(fields) => if fields & LOGON_EX_AUTORECONNECTCOOKIE != 0 {
            match u32_at(body, 22) {
                None => None,
                Some(id) => if body.len() >= 42 {
                    Some(SessionInfoModel::Extended { cookie: Some((id, body.subrange(26, 42))) })
                } else {
                    None
                },
            }
        } else {
            Some(SessionInfoModel::Extended { cookie: None })
        },
    }
}

/// Classifying a Save Session Info PDU: the body follows the 18-byte Share
/// Data Header and starts with the info type.
pub open spec fn spec_parse_save_session_info(plaintext: Seq<u8>) -> Option<SessionInfoModel> {
    if spec_data_pdu_type2(plaintext) != Some(PDUTYPE2_SAVE_SESSION_INFO) {
        None
    } else {
        let body = plaintext.skip(18);
        match u32_at(body, 0) {
            None => None,
            Some(t) => if t == INFOTYPE_LOGON {
                spec_logon_v1(body)
            } else if t == INFOTYPE_LOGON_LONG {
                spec_logon_v2(body)
            } else if t == INFOTYPE_LOGON_PLAINNOTIFY {
                Some(SessionInfoModel::PlainNotify)
            } else if t == INFOTYPE_LOGON_EXTENDED_INFO {
                spec_logon_extended(body)
            } else {
                None
            },
        }
    }
}

fn u32le(b: &[u8], o: usize) -> (r: Option<u32>)
    ensures
        r == u32_at(b@, o as int),
{
    if o <= b.len() && b.len() - o >= 4 {
        Some(get_u32(b, o))
    } else {
        None
    }
}

/// Classify a Save Session Info PDU from a Share Data PDU's plaintext;
/// `None` if it is not one.
pub fn parse_save_session_info(plaintext: &[u8]) -> (r: Option<SaveSessionInfo>)
    ensures
        match spec_parse_save_session_info(plaintext@) {
            None => r is None,
            Some(m) => r matches Some(s) && session_info_view(s) == m,
        },
{
    if data_pdu_type2(plaintext) != Some(PDUTYPE2_SAVE_SESSION_INFO) {
        return None;
    }
    let body = crate::bytes::skip(plaintext, 18);
    let t = match u32le(body, 0) {
        Some(t) => t,
        None => return None,
    };
    if t == INFOTYPE_LOGON {
        let cd = match u32le(body, 4) {
            Some(v) => v,
            None => return None,
        };
        let cu = match u32le(body, 60) {
            Some(v) => v,
            None => return None,
        };
        let cb_domain: usize = if cd < 52 { cd as usize } else { 52 };
        let cb_user: usize = if cu < 512 { cu as usize } else { 512 };
        let domain = utf16(body, 8, cb_domain);
        let username = utf16(body, 64, cb_user);
        let session_id = match u32le(body, 576) {
            Some(v) => v,
            None => return None,
        };
        Some(SaveSessionInfo::Logon(LogonInfo { domain, username, session_id }))
    } else if t == INFOTYPE_LOGON_LONG {
        let session_id = match u32le(body, 10) {
            Some(v) => v,
            None => return None,
        };
        let cd = match u32le(body, 14) {
            Some(v) => v,
            None => return None,
        };
        let cu = match u32le(body, 18) {
            Some(v) => v,
            None => return None,
        };
        let domain = utf16(body, 580, cd as usize);
        let username = if (cd as usize) <= body.len() && 580 <= body.len() - (cd as usize) {
            utf16(body, 580 + cd as usize, cu as usize)
        } else {
            String::new()
        };
        Some(SaveSessionInfo::Logon(LogonInfo { domain, username, session_id }))
    } else if t == INFOTYPE_LOGON_PLAINNOTIFY {
        Some(SaveSessionInfo::PlainNotify)
    } else if t == INFOTYPE_LOGON_EXTENDED_INFO {
        let fields = match u32le(body, 6) {
            Some(v) => v,
            None => return None,
        };
        if fields & LOGON_EX_AUTORECONNECTCOOKIE != 0 {
            let logon_id = match u32le(body, 22) {
                Some(v) => v,
                None => return None,
            };
            if body.len() < 42 {
                return None;
            }
            let mut arc_random = [0u8; 16];
            let mut i: usize = 0;
            while i < 16
                invariant
                    i <= 16,
                    body@.len() >= 42,
                    arc_random@.len() == 16,
                    forall|k: int| 0 <= k < i ==> arc_random@[k] == body@[26 + k],
                decreases 16 - i,
            {
                arc_random[i] = body[26 + i];
                i = i + 1;
            }
            assert(arc_random@ =~= body@.subrange(26, 42));
            Some(SaveSessionInfo::Extended { cookie: Some(ReconnectCookie { logon_id, arc_random }) })
        } else {
            Some(SaveSessionInfo::Extended { cookie: None })
        }
    } else {
        None
    }
}

} // verus!
