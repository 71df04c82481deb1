use rdpio::connector::{split_domain_user, ClientConfig, Connector, CoreError, Credentials, Phase};
use rdpio::pdu::x224::{read_tpkt_len, SecurityProtocol};

fn config_with_user(user: &str) -> ClientConfig {
    ClientConfig {
        hostname: "host".into(),
        credentials: Credentials { username: user.into(), ..Default::default() },
        ..Default::default()
    }
}

#[test]
fn starts_in_negotiation() {
    let c = Connector::new(ClientConfig::default());
    assert_eq!(c.phase(), Phase::Negotiation);
}

#[test]
fn split_domain_user_handles_windows_logon_forms() {
    assert_eq!(split_domain_user("", "CORP\\alice"), ("CORP".into(), "alice".into()));
    assert_eq!(split_domain_user("", ".\\carol"), (String::new(), "carol".into()));
    assert_eq!(split_domain_user("IGNORED", "CORP\\bob"), ("CORP".into(), "bob".into()));
    assert_eq!(split_domain_user("", "alice@corp.com"), (String::new(), "alice@corp.com".into()));
    assert_eq!(split_domain_user("CORP", "alice"), ("CORP".into(), "alice".into()));
    assert_eq!(split_domain_user("", "carol"), (String::new(), "carol".into()));
}

#[test]
fn upn_drops_an_explicit_domain() {
    assert_eq!(split_domain_user("CORP", "alice@corp.com"), (String::new(), "alice@corp.com".into()));
    // A backslash still wins over an at sign.
    assert_eq!(split_domain_user("X", "CORP\\a@b"), ("CORP".into(), "a@b".into()));
}

#[test]
fn initial_request_is_a_valid_tpkt_advertising_nla() {
    let c = Connector::new(config_with_user(""));
    let bytes = c.initial_request();
    assert_eq!(read_tpkt_len(&bytes).unwrap(), bytes.len());
    let proto = u32::from_le_bytes(bytes[bytes.len() - 4..].try_into().unwrap());
    assert_eq!(proto, 0x03);
}

#[test]
fn initial_request_includes_cookie_when_user_set() {
    let c = Connector::new(config_with_user("alice"));
    let bytes = c.initial_request();
    assert!(String::from_utf8_lossy(&bytes).contains("Cookie: mstshash=alice"));
}

#[test]
fn legacy_fallback_advertises_standard_security() {
    let mut c = Connector::new(ClientConfig::default());
    c.set_requested_protocols(SecurityProtocol::empty());
    let bytes = c.initial_request();
    let proto = u32::from_le_bytes(bytes[bytes.len() - 4..].try_into().unwrap());
    assert_eq!(proto, 0);
    assert_eq!(c.phase(), Phase::Negotiation);
}

#[test]
fn negotiation_response_selecting_hybrid_advances_to_auth() {
    let mut c = Connector::new(ClientConfig::default());
    let cc = [
        0x03, 0x00, 0x00, 0x13, 0x0e, 0xd0, 0x00, 0x00, 0x00, 0x00, 0x00, 0x02, 0x00, 0x08, 0x00, 0x02, 0x00, 0x00,
        0x00,
    ];
    let proto = c.handle_negotiation_response(&cc).unwrap();
    assert_eq!(proto, SecurityProtocol::hybrid());
    assert_eq!(c.phase(), Phase::Authentication);
}

#[test]
fn negotiation_failure_is_reported() {
    let mut c = Connector::new(ClientConfig::default());
    let cc = [
        0x03, 0x00, 0x00, 0x13, 0x0e, 0xd0, 0x00, 0x00, 0x00, 0x00, 0x00, 0x03, 0x00, 0x08, 0x00, 0x05, 0x00, 0x00,
        0x00,
    ];
    assert!(matches!(c.handle_negotiation_response(&cc), Err(CoreError::NegotiationRejected(_))));
}

#[test]
fn connector_follows_the_config() {
    let mut cfg = ClientConfig::default();
    assert_eq!(cfg.port, 3389);
    assert_eq!((cfg.width, cfg.height), (1920, 1080));
    cfg.force_legacy = true;
    let c = Connector::new(cfg);
    assert!(c.requested_protocols().is_empty());
    assert!(c.config().force_legacy);
    assert!(c.selected_protocol().is_empty());
}

#[test]
fn legacy_and_short_confirms() {
    let mut c = Connector::new(ClientConfig::default());
    // A confirm without negotiation data: Standard RDP Security, basic settings.
    let cc = [0x03, 0x00, 0x00, 0x0b, 0x06, 0xd0, 0x00, 0x00, 0x00, 0x00, 0x00];
    assert_eq!(c.handle_negotiation_response(&cc).unwrap(), SecurityProtocol::empty());
    assert_eq!(c.phase(), Phase::BasicSettings);
    // A truncated PDU is a decode error.
    let mut c = Connector::new(ClientConfig::default());
    assert!(matches!(c.handle_negotiation_response(&[0x03, 0x00]), Err(CoreError::Pdu(_))));
    assert_eq!(c.phase(), Phase::Negotiation);
}

#[test]
fn credentials_debug_redacts_password() {
    let creds = Credentials { domain: "CORP".into(), username: "alice".into(), password: "hunter2".into() };
    let printed = creds.debug_string();
    assert!(printed.contains("alice"));
    assert!(!printed.contains("hunter2"));
}

#[test]
fn credentials_debug_matches_struct_debug_form() {
    let creds = Credentials { domain: "CORP".into(), username: "al\"ice".into(), password: "x".into() };
    assert_eq!(
        creds.debug_string(),
        "Credentials { domain: \"CORP\", username: \"al\\\"ice\", password: \"<redacted>\" }"
    );
}
