//! Multitransport bootstrap: the Server Initiate Multitransport Request that
//! offers a side-band UDP transport, and the client's response carrying an
//! `HRESULT` (success: it will use the transport; an error: stay on TCP).
use vstd::prelude::*;
use crate::bytes::{le32, rd16, rd32, put_u32, get_u16, get_u32};

verus! {

/// Reliable UDP (lossless, retransmitted).
pub const PROTOCOL_UDPFECR: u16 = 0x0001;
/// Lossy UDP (forward-error-corrected).
pub const PROTOCOL_UDPFECL: u16 = 0x0002;

/// The client accepts and will attempt the requested transport.
pub const HR_S_OK: u32 = 0x0000_0000;
/// The client declines the transport (stay on TCP).
pub const HR_E_ABORT: u32 = 0x8000_4004;

/// A parsed Server Initiate Multitransport Request.
#[derive(Debug, Clone, PartialEq, Eq)]
pub struct InitiateRequest {
    pub request_id: u32,
    /// `PROTOCOL_UDPFECR` (reliable) or `PROTOCOL_UDPFECL` (lossy).
    pub requested_protocol: u16,
    /// 16-byte cookie echoed into the tunnel handshake.
    pub security_cookie: [u8; 16],
}

impl InitiateRequest {
    /// Whether this request is for the lossy (FEC) UDP channel.
    pub fn is_lossy(&self) -> (r: bool)
        ensures
            r == (self.requested_protocol == PROTOCOL_UDPFECL),
    {
        self.requested_protocol == PROTOCOL_UDPFECL
    }

    /// Parse the 24-byte request body (requestId, requestedProtocol,
    /// reserved, securityCookie). `None` if too short or the protocol is
    /// unknown.
    pub fn parse(body: &[u8]) -> (r: Option<Self>)
        ensures
            r is Some <==> body@.len() >= 24 && (rd16(body@, 4) == PROTOCOL_UDPFECR || rd16(body@, 4)
                == PROTOCOL_UDPFECL),
            r matches Some(q) ==> q.request_id == rd32(body@, 0) && q.requested_protocol == rd16(body@, 4)
                && q.security_cookie@ == body@.subrange(8, 24),
    {
        if body.len() < 24 {
            return None;
        }
        let request_id = get_u32(body, 0);
        let requested_protocol = get_u16(body, 4);
        if requested_protocol != PROTOCOL_UDPFECR && requested_protocol != PROTOCOL_UDPFECL {
            return None;
        }
        let mut security_cookie = [0u8; 16];
        let mut i: usize = 0;
        while i < 16
            invariant
                i <= 16,
                body@.len() >= 24,
                security_cookie@.len() == 16,
                forall|k: int| 0 <= k < i ==> security_cookie@[k] == body@[8 + k],
            decreases 16 - i,
        {
            security_cookie[i] = body[8 + i];
            i = i + 1;
        }
        assert(security_cookie@ =~= body@.subrange(8, 24));
        Some(InitiateRequest { request_id, requested_protocol, security_cookie })
    }
}

/// Build a Client Initiate Multitransport Response body: the echoed
/// `request_id` and an `HRESULT`.
pub fn response(request_id: u32, hr: u32) -> (r: Vec<u8>)
    ensures
        r@ == le32(request_id) + le32(hr),
{
    let mut out: Vec<u8> = Vec::new();
    put_u32(request_id, &mut out);
    put_u32(hr, &mut out);
    out
}

} // verus!
