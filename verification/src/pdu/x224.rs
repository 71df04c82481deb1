//! X.224 connection setup inside TPKT: the client's Connection Request
//! carrying an `RDP_NEG_REQ` (and an optional routing cookie), the server's
//! Connection Confirm carrying an `RDP_NEG_RSP` or `RDP_NEG_FAILURE` (or no
//! negotiation data at all), and the TPKT length every PDU starts with.
//!
//! ```text
//! TPKT:  version(1) = 3, reserved(1), length(2, big-endian, whole PDU)
//! X.224: LI(1) = header length after itself, code(1) (CR 0xE0 / CC 0xD0),
//!        dst-ref(2), src-ref(2), class(1), then the variable part
//! RDP_NEG_*: type(1), flags(1), length(2) = 8, value(4, little-endian)
//! ```
use vstd::prelude::*;
use vstd::utf8::encode_utf8;
use vstd::string::StringSliceAdditionalSpecFns;
use crate::bytes::{le16, le32, rd32, put_u32, push_all, get_u32};
use super::{PduError, PduResult};

verus! {

/// Protocol bits.
pub const PROTOCOL_SSL: u32 = 0x0000_0001;
pub const PROTOCOL_HYBRID: u32 = 0x0000_0002;
pub const PROTOCOL_RDSTLS: u32 = 0x0000_0004;

/// The security protocols a Connection Request offers or a Confirm selects.
#[derive(Debug, Clone, Copy, PartialEq, Eq, Structural)]
pub struct SecurityProtocol {
    pub bits: u32,
}

impl SecurityProtocol {
    /// TLS (`PROTOCOL_SSL`).
    pub fn ssl() -> (r: Self)
        ensures
            r.bits == PROTOCOL_SSL,
    {
        SecurityProtocol { bits: PROTOCOL_SSL }
    }

    /// CredSSP / NLA (`PROTOCOL_HYBRID`).
    pub fn hybrid() -> (r: Self)
        ensures
            r.bits == PROTOCOL_HYBRID,
    {
        SecurityProtocol { bits: PROTOCOL_HYBRID }
    }

    /// RDSTLS (`PROTOCOL_RDSTLS`).
    pub fn rdstls() -> (r: Self)
        ensures
            r.bits == PROTOCOL_RDSTLS,
    {
        SecurityProtocol { bits: PROTOCOL_RDSTLS }
    }

    /// No protocol: Standard RDP Security (`PROTOCOL_RDP`).
    pub fn empty() -> (r: Self)
        ensures
            r.bits == 0,
    {
        SecurityProtocol { bits: 0 }
    }

    pub fn from_bits(bits: u32) -> (r: Self)
        ensures
            r.bits == bits,
    {
        SecurityProtocol { bits }
    }

    pub fn bits(&self) -> (r: u32)
        ensures
            r == self.bits,
    {
        self.bits
    }

    pub fn is_empty(&self) -> (r: bool)
        ensures
            r == (self.bits == 0),
    {
        self.bits == 0
    }

    /// Both sets of protocols.
    pub fn union(&self, other: SecurityProtocol) -> (r: Self)
        ensures
            r.bits == self.bits | other.bits,
    {
        SecurityProtocol { bits: self.bits | other.bits }
    }
}

/// `RDP_NEG_REQ` flags.
#[derive(Debug, Clone, Copy, PartialEq, Eq, Structural)]
pub struct NegRequestFlags {
    pub bits: u8,
}

impl NegRequestFlags {
    pub fn empty() -> (r: Self)
        ensures
            r.bits == 0,
    {
        NegRequestFlags { bits: 0 }
    }
}

/// The `failureCode` of an `RDP_NEG_FAILURE`.
#[derive(Debug, Clone, Copy, PartialEq, Eq, Structural)]
pub struct NegFailureCode {
    pub code: u32,
}

/// The client's X.224 Connection Request.
pub struct ConnectionRequest {
    pub requested_protocols: SecurityProtocol,
    pub flags: NegRequestFlags,
    /// The routing cookie (`Cookie: mstshash=<user>`), usually the user name.
    pub cookie: Option<String>,
}

/// The server's X.224 Connection Confirm.
#[derive(Debug, Clone, Copy, PartialEq, Eq, Structural)]
pub enum ConnectionConfirm {
    /// `RDP_NEG_RSP`: the protocol the server selected.
    Response { flags: u8, selected_protocol: SecurityProtocol },
    /// `RDP_NEG_FAILURE`: why the server refused.
    Failure { failure_code: NegFailureCode },
    /// A confirm without negotiation data (a legacy server).
    NoNegotiation,
}

/// TPKT version.
pub const TPKT_VERSION: u8 = 3;
/// X.224 Connection Request and Connection Confirm codes.
pub const X224_CR: u8 = 0xE0;
pub const X224_CC: u8 = 0xD0;
/// Negotiation structure types.
pub const TYPE_RDP_NEG_REQ: u8 = 0x01;
pub const TYPE_RDP_NEG_RSP: u8 = 0x02;
pub const TYPE_RDP_NEG_FAILURE: u8 = 0x03;
/// The largest X.224 length indicator.
pub const MAX_LI: usize = 254;

/// The routing cookie line `Cookie: mstshash=<name>` and CR LF.
pub open spec fn spec_cookie(name: Seq<char>) -> Seq<u8> {
    encode_utf8("Cookie: mstshash="@) + encode_utf8(name) + seq![13u8, 10u8]
}

/// The variable part of a Connection Request: the cookie, if any, then the
/// `RDP_NEG_REQ`.
pub open spec fn spec_request_variable(protocols: u32, flags: u8, cookie: Option<Seq<char>>) -> Seq<u8> {
    (match cookie {
        Some(c) => spec_cookie(c),
        None => Seq::empty(),
    }) + seq![TYPE_RDP_NEG_REQ, flags] + le16(8) + le32(protocols)
}

/// A Connection Request as bytes: TPKT header, X.224 CR header, variable
/// part; `None` when the header would exceed the largest length indicator.
pub open spec fn spec_request_bytes(protocols: u32, flags: u8, cookie: Option<Seq<char>>) -> Option<Seq<u8>> {
    let var = spec_request_variable(protocols, flags, cookie);
    let li = 6 + var.len();
    if li > MAX_LI {
        None
    } else {
        let total = 5 + li;
        Some(seq![TPKT_VERSION, 0u8, (total / 256) as u8, (total % 256) as u8] + seq![li as u8, X224_CR, 0u8, 0u8, 0u8, 0u8, 0u8] + var)
    }
}

pub open spec fn opt_string_view(o: Option<String>) -> Option<Seq<char>> {
    match o {
        Some(s) => Some(s@),
        None => None,
    }
}

impl ConnectionRequest {
    /// Encode the request; an error when the cookie is too long for the
    /// X.224 header.
    pub fn to_bytes(&self) -> (r: PduResult<Vec<u8>>)
        ensures
            match spec_request_bytes(self.requested_protocols.bits, self.flags.bits, opt_string_view(self.cookie)) {
                Some(b) => r matches Ok(v) && v@ == b,
                None => r is Err,
            },
    {
        let mut var: Vec<u8> = Vec::new();
        if let Some(c) = &self.cookie {
            push_all(&mut var, "Cookie: mstshash=".as_bytes());
            push_all(&mut var, c.as_str().as_bytes());
            var.push(13);
            var.push(10);
        }
        var.push(TYPE_RDP_NEG_REQ);
        var.push(self.flags.bits);
        var.push(8);
        var.push(0);
        put_u32(self.requested_protocols.bits, &mut var);
        assert(var@ =~= spec_request_variable(self.requested_protocols.bits, self.flags.bits, opt_string_view(self.cookie)));
        if var.len() > MAX_LI - 6 {
            return Err(PduError::InvalidField { field: "cookie", detail: "too long for the X.224 header".to_owned() });
        }
        let li = 6 + var.len();
        let total = 5 + li;
        let mut out: Vec<u8> = Vec::new();
        out.push(TPKT_VERSION);
        out.push(0);
        out.push((total / 256) as u8);
        out.push((total % 256) as u8);
        out.push(li as u8);
        out.push(X224_CR);
        out.push(0);
        out.push(0);
        out.push(0);
        out.push(0);
        out.push(0);
        push_all(&mut out, var.as_slice());
        assert(out@ =~= spec_request_bytes(self.requested_protocols.bits, self.flags.bits, opt_string_view(self.cookie))->Some_0);
        Ok(out)
    }
}

/// The big-endian TPKT length of a PDU starting with a TPKT header.
pub open spec fn spec_tpkt_len(s: Seq<u8>) -> Option<nat> {
    if s.len() < 4 || s[0] != TPKT_VERSION {
        None
    } else {
        Some(s[2] as nat * 256 + s[3] as nat)
    }
}

/// Every Connection Request that encodes is a TPKT packet whose length
/// field is its own size.
pub proof fn lemma_request_is_tpkt(protocols: u32, flags: u8, cookie: Option<Seq<char>>)
    requires
        spec_request_bytes(protocols, flags, cookie) is Some,
    ensures
        spec_tpkt_len(spec_request_bytes(protocols, flags, cookie)->Some_0)
            == Some(spec_request_bytes(protocols, flags, cookie)->Some_0.len()),
{
    let var = spec_request_variable(protocols, flags, cookie);
    let b = spec_request_bytes(protocols, flags, cookie)->Some_0;
    let total = 11 + var.len();
    assert(b.len() == total);
    assert(b[0] == TPKT_VERSION);
    assert(b[2] == (total / 256) as u8);
    assert(b[3] == (total % 256) as u8);
    assert(total / 256 < 256);
}

/// Read the TPKT length field (the length of the whole PDU).
pub fn read_tpkt_len(bytes: &[u8]) -> (r: PduResult<usize>)
    ensures
        match spec_tpkt_len(bytes@) {
            Some(n) => r matches Ok(v) && v == n,
            None => r is Err,
        },
        bytes@.len() < 4 ==> r matches Err(PduError::NotEnoughData { .. }),
{
    if bytes.len() < 4 {
        return Err(PduError::NotEnoughData { have: bytes.len(), needed: 4 });
    }
    if bytes[0] != TPKT_VERSION {
        return Err(PduError::InvalidField { field: "tpkt version", detail: "not 3".to_owned() });
    }
    Ok(bytes[2] as usize * 256 + bytes[3] as usize)
}

/// Decoding a Connection Confirm: the confirm and the bytes it used (the
/// TPKT length), or `None` for a malformed or short PDU.
pub open spec fn spec_decode_confirm(s: Seq<u8>) -> Option<(ConnectionConfirm, nat)> {
    match spec_tpkt_len(s) {
        None => None,
        Some(n) => if n < 11 || s.len() < n || s[5] & 0xF0 != X224_CC {
            None
        } else if s[4] >= 14 && n >= 19 {
            if s[11] == TYPE_RDP_NEG_RSP {
                Some((ConnectionConfirm::Response { flags: s[12], selected_protocol: SecurityProtocol { bits: rd32(s, 15) } }, n))
            } else if s[11] == TYPE_RDP_NEG_FAILURE {
                Some((ConnectionConfirm::Failure { failure_code: NegFailureCode { code: rd32(s, 15) } }, n))
            } else {
                None
            }
        } else {
            Some((ConnectionConfirm::NoNegotiation, n))
        },
    }
}

impl ConnectionConfirm {
    /// Decode a Connection Confirm from the front of `src`, advancing it past
    /// the PDU.
    pub fn decode(src: &mut &[u8]) -> (r: PduResult<Self>)
        ensures
            match spec_decode_confirm(old(src)@) {
                Some((c, n)) => r matches Ok(v) && v == c && final(src)@ == old(src)@.skip(n as int),
                None => r is Err,
            },
    {
        let s: &[u8] = *src;
        let n = match read_tpkt_len(s) {
            Ok(n) => n,
            Err(e) => return Err(e),
        };
        if n < 11 {
            return Err(PduError::InvalidField { field: "tpkt length", detail: "shorter than an X.224 header".to_owned() });
        }
        if s.len() < n {
            return Err(PduError::NotEnoughData { have: s.len(), needed: n });
        }
        if s[5] & 0xF0 != X224_CC {
            return Err(PduError::InvalidField { field: "x224 code", detail: "not a connection confirm".to_owned() });
        }
        let c = if s[4] >= 14 && n >= 19 {
            if s[11] == TYPE_RDP_NEG_RSP {
                ConnectionConfirm::Response { flags: s[12], selected_protocol: SecurityProtocol { bits: get_u32(s, 15) } }
            } else if s[11] == TYPE_RDP_NEG_FAILURE {
                ConnectionConfirm::Failure { failure_code: NegFailureCode { code: get_u32(s, 15) } }
            } else {
                return Err(PduError::InvalidField { field: "negotiation type", detail: "unknown".to_owned() });
            }
        } else {
            ConnectionConfirm::NoNegotiation
        };
        *src = crate::bytes::skip(s, n);
        Ok(c)
    }
}

} // verus!
