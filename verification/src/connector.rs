//! The sans-I/O RDP connection state machine: [`Connector`] owns only
//! protocol state; the driver owns the socket and TLS, feeds received bytes
//! in, and writes the bytes the connector asks it to send.
use vstd::prelude::*;
use vstd::string::StrSliceExecFns;
use vstd::string::StringExecFns;
use crate::pdu::PduError;
use crate::pdu::x224::{ConnectionConfirm, ConnectionRequest, NegFailureCode, NegRequestFlags, SecurityProtocol,
    spec_request_bytes, spec_decode_confirm, opt_string_view, PROTOCOL_SSL, PROTOCOL_HYBRID};

verus! {

/// Why the connection sequence failed.
#[derive(Debug)]
pub enum CoreError {
    /// A PDU could not be decoded or encoded.
    Pdu(PduError),
    /// The connection sequence went out of order.
    Sequence(String),
    /// The server rejected the security negotiation.
    NegotiationRejected(NegFailureCode),
}

/// Reverse Connect parameters for Windows 365 / Azure Virtual Desktop.
#[derive(Debug, Clone, Default)]
pub struct ReverseConnectConfig {
    /// Gateway host the brokering request is sent to.
    pub gateway_fqdn: String,
    pub resource_id: String,
    pub tenant_id: String,
    pub session_id: String,
    /// OAuth2 access token for the WebSocket upgrade and Client Info PDU.
    pub access_token: String,
    /// Opaque `loadbalanceinfo` token replayed in the brokering request.
    pub load_balance_info: String,
    /// Client application name sent in the brokering request.
    pub application_name: String,
    /// The `remoteapplicationprogram` sent as the brokering `application`.
    pub remote_application: String,
    /// The user's logon password for the RDSTLS credential.
    pub rdstls_password: String,
    /// Logon domain for the RDSTLS credential.
    pub rdstls_domain: String,
}

/// One client monitor of a spanned desktop (`TS_MONITOR_DEF`).
#[derive(Debug, Clone, Copy, PartialEq, Eq, Structural)]
pub struct MonitorDef {
    pub left: i32,
    pub top: i32,
    pub right: i32,
    pub bottom: i32,
    pub flags: u32,
}

/// Logon credentials.
#[derive(Clone, Default)]
pub struct Credentials {
    pub domain: String,
    pub username: String,
    pub password: String,
}

/// What `format!("{:?}")` prints for a string: the text quoted, with
/// quotes, backslashes and control characters escaped.
pub uninterp spec fn str_debug(s: Seq<char>) -> Seq<char>;

/// `<str as Debug>::fmt` of the standard library, through `format!`.
#[verifier::external_body]
fn debug_str(s: &str) -> (r: String)
    ensures
        r@ == str_debug(s@),
{
    format!("{:?}", s)
}

/// The debug form of credentials: domain and user name shown, the password
/// replaced by a fixed marker.
pub open spec fn spec_credentials_debug(domain: Seq<char>, username: Seq<char>) -> Seq<char> {
    "Credentials { domain: "@ + str_debug(domain) + ", username: "@ + str_debug(username)
        + ", password: \"<redacted>\" }"@
}

impl Credentials {
    /// The debug form (as `{:?}` shows a struct), with the password redacted.
    pub fn debug_string(&self) -> (r: String)
        ensures
            r@ == spec_credentials_debug(self.domain@, self.username@),
    {
        let mut out = "Credentials { domain: ".to_owned();
        let d = debug_str(self.domain.as_str());
        out.append(d.as_str());
        out.append(", username: ");
        let u = debug_str(self.username.as_str());
        out.append(u.as_str());
        out.append(", password: \"<redacted>\" }");
        out
    }
}

/// The debug form never depends on the password: credentials that differ
/// only in their password print the same.
pub proof fn lemma_debug_hides_password(a: Credentials, b: Credentials)
    requires
        a.domain@ == b.domain@,
        a.username@ == b.username@,
    ensures
        spec_credentials_debug(a.domain@, a.username@) == spec_credentials_debug(b.domain@, b.username@),
{
}

/// User-supplied connection parameters.
#[derive(Clone)]
pub struct ClientConfig {
    pub hostname: String,
    pub port: u16,
    pub width: u16,
    pub height: u16,
    pub credentials: Credentials,
    /// Fall back to legacy Standard RDP Security if the server refuses TLS/NLA.
    pub allow_legacy_fallback: bool,
    /// Accept an unvalidated or self-signed TLS server certificate.
    pub allow_invalid_certificate: bool,
    /// Local directories to share into the session as redirected drives.
    pub drive_paths: Vec<String>,
    /// Client monitor layout; empty means a single monitor.
    pub monitors: Vec<MonitorDef>,
    /// Skip TLS/NLA negotiation and use Standard RDP Security directly.
    pub force_legacy: bool,
    /// Keyboard layout id override.
    pub keyboard_layout: Option<u32>,
    /// Session colour depth override (16/24/32).
    pub color_depth: Option<u16>,
    /// Enable RemoteFX Progressive codec support.
    pub enable_rfx: bool,
    /// Opaque load-balance cookie replayed in the Client Info PDU.
    pub load_balance_info: Option<Vec<u8>>,
    /// Server redirection session id.
    pub redirected_session_id: Option<u32>,
    /// Reverse Connect configuration for W365/AVD.
    pub reverse_connect: Option<ReverseConnectConfig>,
    /// Attempt a direct UDP Shortpath tunnel.
    pub shortpath: bool,
    /// Advertise the multitransport GCC block.
    pub multitransport: bool,
}

impl Default for ClientConfig {
    fn default() -> (r: Self)
        ensures
            r.hostname@.len() == 0,
            r.port == 3389,
            r.width == 1920,
            r.height == 1080,
            r.credentials.domain@.len() == 0,
            r.credentials.username@.len() == 0,
            r.credentials.password@.len() == 0,
            r.allow_legacy_fallback,
            !r.allow_invalid_certificate,
            r.drive_paths@.len() == 0,
            r.monitors@.len() == 0,
            !r.force_legacy,
            r.keyboard_layout is None,
            r.color_depth is None,
            !r.enable_rfx,
            r.load_balance_info is None,
            r.redirected_session_id is None,
            r.reverse_connect is None,
            !r.shortpath,
            !r.multitransport,
    {
        ClientConfig {
            hostname: String::new(),
            port: 3389,
            width: 1920,
            height: 1080,
            credentials: Credentials { domain: String::new(), username: String::new(), password: String::new() },
            allow_legacy_fallback: true,
            allow_invalid_certificate: false,
            drive_paths: Vec::new(),
            monitors: Vec::new(),
            force_legacy: false,
            keyboard_layout: None,
            color_depth: None,
            enable_rfx: false,
            load_balance_info: None,
            redirected_session_id: None,
            reverse_connect: None,
            shortpath: false,
            multitransport: false,
        }
    }
}

/// The index of the first `c` in `s` at or after `i`.
pub open spec fn first_index_from(s: Seq<char>, c: char, i: nat) -> Option<nat>
    decreases s.len() - i,
{
    if i >= s.len() {
        None
    } else if s[i as int] == c {
        Some(i)
    } else {
        first_index_from(s, c, i + 1)
    }
}

/// `str::split_once` of the standard library with a character pattern:
/// splits at the first occurrence of `c`, giving the text before and after
/// it, or `None` when `c` does not occur.
#[verifier::external_body]
fn str_split_once<'a>(s: &'a str, c: char) -> (r: Option<(&'a str, &'a str)>)
    ensures
        match first_index_from(s@, c, 0) {
            None => r is None,
            Some(i) => r matches Some((a, b)) && a@ == s@.take(i as int) && b@ == s@.skip((i + 1) as int),
        },
{
    s.split_once(c)
}

/// How a logon name splits into domain and user: at the first backslash,
/// with the local-machine domain `.` becoming empty; a user principal name
/// (`user@domain`, no backslash) stays whole with an empty domain; a bare
/// name keeps the given domain.
pub open spec fn spec_split_domain_user(domain: Seq<char>, username: Seq<char>) -> (Seq<char>, Seq<char>) {
    match first_index_from(username, '\\', 0) {
        Some(i) => {
            let d = username.take(i as int);
            (if d == seq!['.'] { Seq::empty() } else { d }, username.skip((i + 1) as int))
        },
        None => if first_index_from(username, '@', 0) is Some {
            (Seq::empty(), username)
        } else {
            (domain, username)
        },
    }
}

/// Split a Windows-style logon name into `(domain, user)` the way the mstsc
/// credential prompt does: `DOMAIN\user` gives (`DOMAIN`, `user`), `.\user`
/// an empty domain (a local account), `user@domain` stays whole with an
/// empty domain, and a bare user keeps the given domain. A backslash in the
/// user name wins over an explicit domain.
pub fn split_domain_user(domain: &str, username: &str) -> (r: (String, String))
    ensures
        (r.0@, r.1@) == spec_split_domain_user(domain@, username@),
{
    match str_split_once(username, '\\') {
        Some((dom, user)) => {
            let local = dom.unicode_len() == 1 && dom.get_char(0) == '.';
            assert(local <==> dom@ =~= seq!['.']);
            let d = if local { String::new() } else { dom.to_owned() };
            (d, user.to_owned())
        },
        None => if str_split_once(username, '@').is_some() {
            (String::new(), username.to_owned())
        } else {
            (domain.to_owned(), username.to_owned())
        },
    }
}

/// Where the client is in the RDP connection sequence.
#[derive(Debug, Clone, Copy, PartialEq, Eq, Structural)]
pub enum Phase {
    /// X.224 Connection Request/Confirm and security-protocol selection.
    Negotiation,
    /// CredSSP / NLA.
    Authentication,
    /// MCS Connect-Initial/Response carrying the GCC conference data.
    BasicSettings,
    /// Erect-Domain, Attach-User and Channel-Join.
    ChannelJoin,
    /// License exchange.
    Licensing,
    /// Demand-Active / Confirm-Active capability negotiation.
    CapabilityExchange,
    /// Synchronize, Control, Font List/Map.
    Finalization,
    /// The session is up.
    Active,
}

/// Drives the RDP connection sequence over an already-connected transport.
pub struct Connector {
    config: ClientConfig,
    phase: Phase,
    selected_protocol: SecurityProtocol,
    requested_protocols: SecurityProtocol,
}

/// The protocols a new connector offers: none for forced legacy security,
/// else TLS and CredSSP.
pub open spec fn initial_protocols(force_legacy: bool) -> u32 {
    if force_legacy { 0 } else { 3 }
}

/// The longest user name (in UTF-8 bytes) whose routing cookie fits the
/// X.224 header.
pub open spec fn cookie_fits(username: Seq<char>) -> bool {
    spec_request_bytes(0, 0, Some(username)) is Some
}

impl Connector {
    pub closed spec fn spec_phase(&self) -> Phase {
        self.phase
    }

    pub closed spec fn spec_selected(&self) -> u32 {
        self.selected_protocol.bits
    }

    pub closed spec fn spec_requested(&self) -> u32 {
        self.requested_protocols.bits
    }

    pub closed spec fn spec_config(&self) -> ClientConfig {
        self.config
    }

    pub fn new(config: ClientConfig) -> (r: Self)
        ensures
            r.spec_phase() == Phase::Negotiation,
            r.spec_requested() == initial_protocols(config.force_legacy),
            r.spec_selected() == 0,
            r.spec_config() == config,
    {
        let requested_protocols = if config.force_legacy {
            SecurityProtocol::empty()
        } else {
            let r = SecurityProtocol::ssl().union(SecurityProtocol::hybrid());
            assert(PROTOCOL_SSL | PROTOCOL_HYBRID == 3u32) by (bit_vector);
            r
        };
        Connector { config, phase: Phase::Negotiation, selected_protocol: SecurityProtocol::empty(), requested_protocols }
    }

    pub fn phase(&self) -> (r: Phase)
        ensures
            r == self.spec_phase(),
    {
        self.phase
    }

    pub fn config(&self) -> (r: &ClientConfig)
        ensures
            *r == self.spec_config(),
    {
        &self.config
    }

    /// The protocol the server selected (valid once the negotiation response
    /// has been processed).
    pub fn selected_protocol(&self) -> (r: SecurityProtocol)
        ensures
            r.bits == self.spec_selected(),
    {
        self.selected_protocol
    }

    /// Protocols advertised in the next Connection Request.
    pub fn requested_protocols(&self) -> (r: SecurityProtocol)
        ensures
            r.bits == self.spec_requested(),
    {
        self.requested_protocols
    }

    /// Change the advertised protocols and restart the negotiation phase
    /// (the legacy Standard RDP Security fallback).
    pub fn set_requested_protocols(&mut self, protocols: SecurityProtocol)
        ensures
            final(self).spec_requested() == protocols.bits,
            final(self).spec_phase() == Phase::Negotiation,
            final(self).spec_selected() == old(self).spec_selected(),
            final(self).spec_config() == old(self).spec_config(),
    {
        self.requested_protocols = protocols;
        self.phase = Phase::Negotiation;
    }

    /// The first bytes to send: an X.224 Connection Request advertising the
    /// requested protocols, with the `mstshash` cookie when a user name is
    /// set. The user name must be short enough for the cookie to fit.
    pub fn initial_request(&self) -> (r: Vec<u8>)
        requires
            cookie_fits(self.spec_config().credentials.username@),
        ensures
            Some(r@) == spec_request_bytes(
                self.spec_requested(),
                0,
                if self.spec_config().credentials.username@.len() == 0 {
                    None
                } else {
                    Some(self.spec_config().credentials.username@)
                },
            ),
    {
        let cookie = if self.config.credentials.username.as_str().is_empty() {
            None
        } else {
            Some(self.config.credentials.username.clone())
        };
        let request = ConnectionRequest { requested_protocols: self.requested_protocols, flags: NegRequestFlags::empty(), cookie };
        match request.to_bytes() {
            Ok(v) => v,
            Err(_) => {
                assert(false);
                Vec::new()
            },
        }
    }

    /// Process the server's X.224 Connection Confirm and advance the state
    /// machine: TLS/NLA moves on to authentication, Standard RDP Security
    /// (or a server without negotiation) straight to basic settings. Returns
    /// the selected protocol.
    pub fn handle_negotiation_response(&mut self, data: &[u8]) -> (r: Result<SecurityProtocol, CoreError>)
        ensures
            final(self).spec_config() == old(self).spec_config(),
            final(self).spec_requested() == old(self).spec_requested(),
            match spec_decode_confirm(data@) {
                None => r matches Err(CoreError::Pdu(_)) && final(self).spec_phase() == old(self).spec_phase()
                    && final(self).spec_selected() == old(self).spec_selected(),
                Some((ConnectionConfirm::Response { selected_protocol, .. }, _)) => r matches Ok(p)
                    && p == selected_protocol && final(self).spec_selected() == selected_protocol.bits
                    && final(self).spec_phase() == (if selected_protocol.bits == 0 { Phase::BasicSettings } else { Phase::Authentication }),
                Some((ConnectionConfirm::Failure { failure_code }, _)) => r matches Err(CoreError::NegotiationRejected(c))
                    && c == failure_code && final(self).spec_phase() == old(self).spec_phase()
                    && final(self).spec_selected() == old(self).spec_selected(),
                Some((ConnectionConfirm::NoNegotiation, _)) => r matches Ok(p) && p.bits == 0
                    && final(self).spec_selected() == 0 && final(self).spec_phase() == Phase::BasicSettings,
            },
    {
        let mut cursor = data;
        match ConnectionConfirm::decode(&mut cursor) {
            Err(e) => Err(CoreError::Pdu(e)),
            Ok(ConnectionConfirm::Response { selected_protocol, .. }) => {
                self.selected_protocol = selected_protocol;
                self.phase = if selected_protocol.is_empty() { Phase::BasicSettings } else { Phase::Authentication };
                Ok(selected_protocol)
            },
            Ok(ConnectionConfirm::Failure { failure_code }) => Err(CoreError::NegotiationRejected(failure_code)),
            Ok(ConnectionConfirm::NoNegotiation) => {
                self.selected_protocol = SecurityProtocol::empty();
                self.phase = Phase::BasicSettings;
                Ok(SecurityProtocol::empty())
            },
        }
    }
}

} // verus!
