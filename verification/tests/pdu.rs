use rdpio::pdu::finalization::{
    control_pdu, data_pdu_type2, font_list_pdu, share_data, synchronize_pdu, CTRLACTION_COOPERATE,
    CTRLACTION_REQUEST_CONTROL, PDUTYPE2_CONTROL, PDUTYPE2_FONTLIST, PDUTYPE2_FONTMAP, PDUTYPE2_SAVE_SESSION_INFO,
    PDUTYPE2_SYNCHRONIZE, PDUTYPE_DATA,
};
use rdpio::pdu::input::{
    input_pdu, keyboard_event, mouse_event, rel_mouse_event, sync_event, unicode_event, INPUT_EVENT_MOUSE,
    INPUT_EVENT_MOUSEREL, INPUT_EVENT_SCANCODE, INPUT_EVENT_SYNC, INPUT_EVENT_UNICODE, KBDFLAGS_EXTENDED,
    KBDFLAGS_RELEASE, PDUTYPE2_INPUT, PTRFLAGS_MOVE,
};
use rdpio::pdu::logon::{
    parse_save_session_info, LogonInfo, ReconnectCookie, SaveSessionInfo, INFOTYPE_LOGON, INFOTYPE_LOGON_LONG,
    LOGON_EX_AUTORECONNECTCOOKIE,
};
use rdpio::pdu::multitransport::{response, InitiateRequest, HR_E_ABORT, HR_S_OK, PROTOCOL_UDPFECL, PROTOCOL_UDPFECR};
use rdpio::pdu::rdstls::{
    build_auth_request_password, build_capabilities, capabilities_version, is_capabilities, parse_auth_response,
    result_name, DATA_CAPABILITIES, DATA_PASSWORD_CREDS, DATA_RESULT_CODE, RESULT_SUCCESS, TYPE_AUTHREQ,
    TYPE_AUTHRSP, TYPE_CAPABILITIES, VERSION_1,
};
use rdpio::pdu::{ensure, PduError};

#[test]
fn ensure_reports_shortfall() {
    let buf = [0u8; 2];
    let err = ensure(&buf, 4).unwrap_err();
    assert!(matches!(err, PduError::NotEnoughData { have: 2, needed: 4 }));
    assert!(ensure(&buf, 2).is_ok());
}

fn check_header(pdu: &[u8], expected_type2: u8) {
    assert_eq!(u16::from_le_bytes([pdu[0], pdu[1]]) as usize, pdu.len());
    assert_eq!(u16::from_le_bytes([pdu[2], pdu[3]]), PDUTYPE_DATA);
    assert_eq!(pdu[14], expected_type2);
    assert_eq!(data_pdu_type2(pdu), Some(expected_type2));
}

#[test]
fn synchronize_pdu_layout() {
    let pdu = synchronize_pdu(0x0001_03EA, 1007, 1002);
    check_header(&pdu, PDUTYPE2_SYNCHRONIZE);
    assert_eq!(u16::from_le_bytes([pdu[18], pdu[19]]), 1);
    assert_eq!(u16::from_le_bytes([pdu[20], pdu[21]]), 1002);
}

#[test]
fn control_pdu_cooperate_and_request() {
    let coop = control_pdu(1, 1007, CTRLACTION_COOPERATE);
    check_header(&coop, PDUTYPE2_CONTROL);
    assert_eq!(u16::from_le_bytes([coop[18], coop[19]]), CTRLACTION_COOPERATE);

    let req = control_pdu(1, 1007, CTRLACTION_REQUEST_CONTROL);
    assert_eq!(u16::from_le_bytes([req[18], req[19]]), CTRLACTION_REQUEST_CONTROL);
}

#[test]
fn font_list_pdu_layout() {
    let pdu = font_list_pdu(1, 1007);
    check_header(&pdu, PDUTYPE2_FONTLIST);
    assert_eq!(u16::from_le_bytes([pdu[22], pdu[23]]), 0x0003);
    assert_eq!(u16::from_le_bytes([pdu[24], pdu[25]]), 50);
}

#[test]
fn detects_server_font_map() {
    let pdu = share_data(1, 1002, PDUTYPE2_FONTMAP, &[0, 0, 0, 0]);
    assert_eq!(data_pdu_type2(&pdu), Some(PDUTYPE2_FONTMAP));
    assert_eq!(data_pdu_type2(&[0x00, 0x00, 0x11, 0x00, 0, 0, 0, 0, 0, 0]), None);
}

#[test]
fn share_data_header_fields() {
    let pdu = share_data(0x0102_0304, 0x0506, 7, &[0xAA, 0xBB]);
    assert_eq!(pdu.len(), 20);
    assert_eq!(&pdu[0..2], &[20, 0]);
    assert_eq!(&pdu[4..6], &[0x06, 0x05]);
    assert_eq!(&pdu[6..10], &[0x04, 0x03, 0x02, 0x01]);
    assert_eq!(&pdu[18..20], &[0xAA, 0xBB]);
    // data_pdu_type2 needs at least 15 bytes.
    assert_eq!(data_pdu_type2(&pdu[..14]), None);
}

#[test]
fn keyboard_event_layout() {
    let e = keyboard_event(KBDFLAGS_RELEASE | KBDFLAGS_EXTENDED, 0x1D);
    assert_eq!(u16::from_le_bytes([e[4], e[5]]), INPUT_EVENT_SCANCODE);
    assert_eq!(u16::from_le_bytes([e[6], e[7]]), 0x8100);
    assert_eq!(u16::from_le_bytes([e[8], e[9]]), 0x1D);
}

#[test]
fn mouse_event_layout() {
    let e = mouse_event(PTRFLAGS_MOVE, 640, 480);
    assert_eq!(u16::from_le_bytes([e[4], e[5]]), INPUT_EVENT_MOUSE);
    assert_eq!(u16::from_le_bytes([e[6], e[7]]), PTRFLAGS_MOVE);
    assert_eq!(u16::from_le_bytes([e[8], e[9]]), 640);
    assert_eq!(u16::from_le_bytes([e[10], e[11]]), 480);
}

#[test]
fn sync_event_carries_toggle_flags() {
    let e = sync_event(0x4);
    assert_eq!(u16::from_le_bytes([e[4], e[5]]), INPUT_EVENT_SYNC);
    assert_eq!(u32::from_le_bytes([e[8], e[9], e[10], e[11]]), 0x4);
}

#[test]
fn unicode_and_relative_mouse_events() {
    let u = unicode_event(0, 0x263A);
    assert_eq!(u16::from_le_bytes([u[4], u[5]]), INPUT_EVENT_UNICODE);
    assert_eq!(u16::from_le_bytes([u[8], u[9]]), 0x263A);
    let r = rel_mouse_event(PTRFLAGS_MOVE, -3, 5);
    assert_eq!(u16::from_le_bytes([r[4], r[5]]), INPUT_EVENT_MOUSEREL);
    assert_eq!(i16::from_le_bytes([r[8], r[9]]), -3);
    assert_eq!(i16::from_le_bytes([r[10], r[11]]), 5);
}

#[test]
fn input_pdu_is_a_well_formed_share_data() {
    let events = [mouse_event(PTRFLAGS_MOVE, 10, 20), keyboard_event(0, 0x1E)];
    let pdu = input_pdu(0x0001_03EA, 1007, &events);
    assert_eq!(u16::from_le_bytes([pdu[0], pdu[1]]) as usize, pdu.len());
    assert_eq!(data_pdu_type2(&pdu), Some(PDUTYPE2_INPUT));
    assert_eq!(u16::from_le_bytes([pdu[18], pdu[19]]), 2);
    assert_eq!(pdu.len(), 18 + 4 + 24);
}

fn utf16le(s: &str) -> Vec<u8> {
    s.encode_utf16().flat_map(|u| u.to_le_bytes()).collect()
}

#[test]
fn parses_logon_info_v1() {
    let mut body = vec![];
    body.extend_from_slice(&INFOTYPE_LOGON.to_le_bytes());
    let domain = utf16le("CORP\0");
    body.extend_from_slice(&((domain.len() - 2) as u32).to_le_bytes());
    let mut dom_field = domain.clone();
    dom_field.resize(52, 0);
    body.extend_from_slice(&dom_field);
    let user = utf16le("alice\0");
    body.extend_from_slice(&((user.len() - 2) as u32).to_le_bytes());
    let mut user_field = user.clone();
    user_field.resize(512, 0);
    body.extend_from_slice(&user_field);
    body.extend_from_slice(&42u32.to_le_bytes());

    let pdu = share_data(1, 1002, PDUTYPE2_SAVE_SESSION_INFO, &body);
    assert_eq!(
        parse_save_session_info(&pdu),
        Some(SaveSessionInfo::Logon(LogonInfo {
            domain: "CORP".into(),
            username: "alice".into(),
            session_id: 42,
        }))
    );
}

#[test]
fn parses_logon_info_v2() {
    let mut body = vec![];
    body.extend_from_slice(&INFOTYPE_LOGON_LONG.to_le_bytes());
    body.extend_from_slice(&1u16.to_le_bytes());
    body.extend_from_slice(&0x240u32.to_le_bytes());
    body.extend_from_slice(&7u32.to_le_bytes());
    let domain = utf16le("D");
    let user = utf16le("bob");
    body.extend_from_slice(&(domain.len() as u32).to_le_bytes());
    body.extend_from_slice(&(user.len() as u32).to_le_bytes());
    body.extend_from_slice(&[0u8; 558]);
    body.extend_from_slice(&domain);
    body.extend_from_slice(&user);

    let pdu = share_data(1, 1002, PDUTYPE2_SAVE_SESSION_INFO, &body);
    assert_eq!(
        parse_save_session_info(&pdu),
        Some(SaveSessionInfo::Logon(LogonInfo {
            domain: "D".into(),
            username: "bob".into(),
            session_id: 7,
        }))
    );
}

#[test]
fn classifies_notify_and_extended_and_rejects_others() {
    let notify = share_data(1, 1002, PDUTYPE2_SAVE_SESSION_INFO, &2u32.to_le_bytes());
    assert_eq!(parse_save_session_info(&notify), Some(SaveSessionInfo::PlainNotify));
    let mut ext_body = 3u32.to_le_bytes().to_vec();
    ext_body.extend_from_slice(&8u16.to_le_bytes());
    ext_body.extend_from_slice(&0u32.to_le_bytes());
    let ext = share_data(1, 1002, PDUTYPE2_SAVE_SESSION_INFO, &ext_body);
    assert_eq!(parse_save_session_info(&ext), Some(SaveSessionInfo::Extended { cookie: None }));
    let fm = share_data(1, 1002, PDUTYPE2_FONTMAP, &[0; 4]);
    assert_eq!(parse_save_session_info(&fm), None);
}

#[test]
fn parses_auto_reconnect_cookie() {
    let mut body = 3u32.to_le_bytes().to_vec();
    body.extend_from_slice(&50u16.to_le_bytes());
    body.extend_from_slice(&LOGON_EX_AUTORECONNECTCOOKIE.to_le_bytes());
    body.extend_from_slice(&28u32.to_le_bytes());
    body.extend_from_slice(&28u32.to_le_bytes());
    body.extend_from_slice(&1u32.to_le_bytes());
    body.extend_from_slice(&0xABCDu32.to_le_bytes());
    body.extend_from_slice(&[7u8; 16]);
    let pdu = share_data(1, 1002, PDUTYPE2_SAVE_SESSION_INFO, &body);
    assert_eq!(
        parse_save_session_info(&pdu),
        Some(SaveSessionInfo::Extended {
            cookie: Some(ReconnectCookie {
                logon_id: 0xABCD,
                arc_random: [7u8; 16],
            }),
        })
    );
}

#[test]
fn save_session_info_rejects_unknown_type_and_short_body() {
    let unknown = share_data(1, 1002, PDUTYPE2_SAVE_SESSION_INFO, &9u32.to_le_bytes());
    assert_eq!(parse_save_session_info(&unknown), None);
    let short = share_data(1, 1002, PDUTYPE2_SAVE_SESSION_INFO, &[0, 0]);
    assert_eq!(parse_save_session_info(&short), None);
}

fn request_body(id: u32, proto: u16, cookie: [u8; 16]) -> Vec<u8> {
    let mut b = Vec::new();
    b.extend_from_slice(&id.to_le_bytes());
    b.extend_from_slice(&proto.to_le_bytes());
    b.extend_from_slice(&0u16.to_le_bytes());
    b.extend_from_slice(&cookie);
    b
}

#[test]
fn parses_lossy_request() {
    let cookie = [0xAB; 16];
    let req = InitiateRequest::parse(&request_body(0x1234, PROTOCOL_UDPFECL, cookie)).unwrap();
    assert_eq!(req.request_id, 0x1234);
    assert!(req.is_lossy());
    assert_eq!(req.security_cookie, cookie);
}

#[test]
fn parses_reliable_request() {
    let req = InitiateRequest::parse(&request_body(7, PROTOCOL_UDPFECR, [0; 16])).unwrap();
    assert_eq!(req.requested_protocol, PROTOCOL_UDPFECR);
    assert!(!req.is_lossy());
}

#[test]
fn rejects_unknown_protocol_or_short() {
    assert!(InitiateRequest::parse(&request_body(1, 0x00FF, [0; 16])).is_none());
    assert!(InitiateRequest::parse(&[0u8; 10]).is_none());
}

#[test]
fn response_roundtrip() {
    let r = response(0x1234, HR_S_OK);
    assert_eq!(r.len(), 8);
    assert_eq!(u32::from_le_bytes([r[0], r[1], r[2], r[3]]), 0x1234);
    assert_eq!(u32::from_le_bytes([r[4], r[5], r[6], r[7]]), 0);
}

#[test]
fn response_carries_abort_code() {
    let r = response(9, HR_E_ABORT);
    assert_eq!(u32::from_le_bytes([r[4], r[5], r[6], r[7]]), HR_E_ABORT);
}

#[test]
fn capabilities_layout() {
    let pdu = build_capabilities();
    assert_eq!(pdu.len(), 8);
    assert_eq!(u16::from_le_bytes([pdu[0], pdu[1]]), VERSION_1);
    assert_eq!(u16::from_le_bytes([pdu[2], pdu[3]]), TYPE_CAPABILITIES);
    assert_eq!(u16::from_le_bytes([pdu[4], pdu[5]]), DATA_CAPABILITIES);
    assert_eq!(u16::from_le_bytes([pdu[6], pdu[7]]), VERSION_1);
    assert!(is_capabilities(&pdu));
}

#[test]
fn capabilities_version_reads_supported_versions() {
    let pdu = build_capabilities();
    assert_eq!(capabilities_version(&pdu), Some(VERSION_1));
    assert_eq!(capabilities_version(&pdu[..6]), None);
    assert!(!is_capabilities(&[0u8; 8]));
}

#[test]
fn auth_request_layout_and_fields() {
    let guid = [0xABu8; 16];
    let pdu = build_auth_request_password(VERSION_1, &guid, "user", "", b"BLOBBYTES");
    assert_eq!(u16::from_le_bytes([pdu[0], pdu[1]]), VERSION_1);
    assert_eq!(u16::from_le_bytes([pdu[2], pdu[3]]), TYPE_AUTHREQ);
    assert_eq!(u16::from_le_bytes([pdu[4], pdu[5]]), DATA_PASSWORD_CREDS);
    assert_eq!(u16::from_le_bytes([pdu[6], pdu[7]]), 16);
    assert_eq!(&pdu[8..24], &guid);
    let mut off = 24;
    assert_eq!(u16::from_le_bytes([pdu[off], pdu[off + 1]]), 10);
    assert_eq!(&pdu[off + 2..off + 4], &[b'u', 0]);
    off += 2 + 10;
    assert_eq!(u16::from_le_bytes([pdu[off], pdu[off + 1]]), 2);
    assert_eq!(&pdu[off + 2..off + 4], &[0, 0]);
    off += 2 + 2;
    assert_eq!(u16::from_le_bytes([pdu[off], pdu[off + 1]]), 9);
    assert_eq!(&pdu[off + 2..off + 11], b"BLOBBYTES");
}

#[test]
fn auth_response_parses_success_and_failure() {
    let mut ok = Vec::new();
    ok.extend_from_slice(&VERSION_1.to_le_bytes());
    ok.extend_from_slice(&TYPE_AUTHRSP.to_le_bytes());
    ok.extend_from_slice(&DATA_RESULT_CODE.to_le_bytes());
    ok.extend_from_slice(&RESULT_SUCCESS.to_le_bytes());
    assert_eq!(parse_auth_response(&ok), Some(RESULT_SUCCESS));

    let mut fail = Vec::new();
    fail.extend_from_slice(&VERSION_1.to_le_bytes());
    fail.extend_from_slice(&TYPE_AUTHRSP.to_le_bytes());
    fail.extend_from_slice(&DATA_RESULT_CODE.to_le_bytes());
    fail.extend_from_slice(&0x0000_052Eu32.to_le_bytes());
    assert_eq!(parse_auth_response(&fail), Some(0x0000_052E));
    assert_eq!(result_name(0x0000_052E), "LOGON_FAILURE");
}

#[test]
fn auth_response_rejects_wrong_type_or_short() {
    assert_eq!(parse_auth_response(&[0u8; 4]), None);
    assert_eq!(parse_auth_response(&build_capabilities()), None);
}

#[test]
fn result_names_cover_success_and_unknown() {
    assert_eq!(result_name(RESULT_SUCCESS), "SUCCESS");
    assert_eq!(result_name(0xDEAD_BEEF), "UNKNOWN");
}
