use rdpio::channels::cliprdr::{
    decode_unicode, message, unicode_response, utf16z, ClipFile, ClipboardChannel, ClipboardProvider, NoopClipboard,
    CB_CLIP_CAPS, CB_FILECONTENTS_REQUEST, CB_FILECONTENTS_RESPONSE, CB_FORMAT_DATA_REQUEST,
    CB_FORMAT_DATA_RESPONSE, CB_FORMAT_LIST, CB_FORMAT_LIST_RESPONSE, CB_MONITOR_READY, CB_RESPONSE_FAIL,
    CB_RESPONSE_OK, CF_FILEGROUPDESCRIPTORW, CF_UNICODETEXT, FILECONTENTS_RANGE, FILECONTENTS_SIZE,
};
use rdpio::channels::cliprdr::{query, ClipAction, ClipAnswers, ClipQuery};
use rdpio::channels::is_redirection_channel;

#[derive(Default)]
struct MockClipboard {
    local: Option<String>,
    pasted: Option<String>,
}

impl ClipboardProvider for MockClipboard {
    fn get_text(&mut self) -> Option<String> {
        self.local.clone()
    }
    fn set_text(&mut self, text: &str) {
        self.pasted = Some(text.to_string());
    }
    fn save_remote_file(&mut self, _name: &str, _data: &[u8]) {}
}

fn msg_type(m: &[u8]) -> u16 {
    u16::from_le_bytes([m[0], m[1]])
}

#[test]
fn monitor_ready_triggers_caps_and_format_list() {
    let mut clip = ClipboardChannel::new();
    let mut prov = MockClipboard { local: Some("local text".into()), ..Default::default() };
    let out = clip.process(&message(CB_MONITOR_READY, 0, &[]), &mut prov);
    assert!(clip.is_ready());
    assert_eq!(out.len(), 2);
    assert_eq!(msg_type(&out[0]), CB_CLIP_CAPS);
    assert_eq!(msg_type(&out[1]), CB_FORMAT_LIST);
    assert!(out[1].len() > 8);
}

#[test]
fn server_format_list_acks_and_requests_text() {
    let mut clip = ClipboardChannel::new();
    let mut prov = MockClipboard::default();
    let mut list = Vec::new();
    list.extend_from_slice(&CF_UNICODETEXT.to_le_bytes());
    list.extend_from_slice(&[0, 0]);
    let out = clip.process(&message(CB_FORMAT_LIST, 0, &list), &mut prov);
    assert_eq!(out.len(), 2);
    assert_eq!(msg_type(&out[0]), CB_FORMAT_LIST_RESPONSE);
    assert_eq!(msg_type(&out[1]), CB_FORMAT_DATA_REQUEST);
    assert_eq!(&out[1][8..12], &CF_UNICODETEXT.to_le_bytes());
}

#[test]
fn remote_data_response_sets_local_clipboard() {
    let mut clip = ClipboardChannel::new();
    let mut prov = MockClipboard::default();
    let payload = unicode_response("hello™");
    clip.process(&message(CB_FORMAT_DATA_RESPONSE, CB_RESPONSE_OK, &payload), &mut prov);
    assert_eq!(prov.pasted.as_deref(), Some("hello™"));
}

#[test]
fn data_request_answers_with_local_text() {
    let mut clip = ClipboardChannel::new();
    let mut prov = MockClipboard { local: Some("copy me".into()), ..Default::default() };
    let out = clip.process(&message(CB_FORMAT_DATA_REQUEST, 0, &CF_UNICODETEXT.to_le_bytes()), &mut prov);
    assert_eq!(out.len(), 1);
    assert_eq!(msg_type(&out[0]), CB_FORMAT_DATA_RESPONSE);
    assert_eq!(u16::from_le_bytes([out[0][2], out[0][3]]), CB_RESPONSE_OK);
    assert_eq!(decode_unicode(&out[0][8..]), "copy me");
}

#[test]
fn data_request_with_empty_clipboard_fails_cleanly() {
    let mut clip = ClipboardChannel::new();
    let mut prov = MockClipboard::default();
    let out = clip.process(&message(CB_FORMAT_DATA_REQUEST, 0, &CF_UNICODETEXT.to_le_bytes()), &mut prov);
    assert_eq!(u16::from_le_bytes([out[0][2], out[0][3]]), CB_RESPONSE_FAIL);
}

#[test]
fn announce_local_gated_on_handshake() {
    let mut clip = ClipboardChannel::new();
    assert_eq!(clip.announce_local(true, false), None);
    let mut prov = MockClipboard::default();
    clip.process(&message(CB_MONITOR_READY, 0, &[]), &mut prov);
    assert!(clip.announce_local(true, false).is_some());
}

#[derive(Default)]
struct FileClipboard {
    files: Vec<ClipFile>,
}

impl ClipboardProvider for FileClipboard {
    fn get_text(&mut self) -> Option<String> {
        None
    }
    fn set_text(&mut self, _t: &str) {}
    fn get_files(&mut self) -> Vec<ClipFile> {
        self.files.clone()
    }
    fn read_file(&mut self, index: u32, offset: u64, len: u32) -> Option<Vec<u8>> {
        (index < self.files.len() as u32).then(|| {
            let _ = offset;
            vec![index as u8; len as usize]
        })
    }
    fn save_remote_file(&mut self, _name: &str, _data: &[u8]) {}
}

#[test]
fn file_clipboard_announces_and_serves_contents() {
    let mut clip = ClipboardChannel::new();
    let mut prov = FileClipboard { files: vec![ClipFile { name: "report.pdf".into(), size: 1234 }] };
    let out = clip.process(&message(CB_MONITOR_READY, 0, &[]), &mut prov);
    let fl = &out[1];
    assert_eq!(u16::from_le_bytes([fl[0], fl[1]]), CB_FORMAT_LIST);
    assert_eq!(u32::from_le_bytes([fl[8], fl[9], fl[10], fl[11]]), CF_FILEGROUPDESCRIPTORW);

    let out = clip.process(&message(CB_FORMAT_DATA_REQUEST, 0, &CF_FILEGROUPDESCRIPTORW.to_le_bytes()), &mut prov);
    assert_eq!(u16::from_le_bytes([out[0][2], out[0][3]]), CB_RESPONSE_OK);
    assert_eq!(u32::from_le_bytes([out[0][8], out[0][9], out[0][10], out[0][11]]), 1);

    let mut req = Vec::new();
    req.extend_from_slice(&7u32.to_le_bytes());
    req.extend_from_slice(&0u32.to_le_bytes());
    req.extend_from_slice(&FILECONTENTS_SIZE.to_le_bytes());
    req.extend_from_slice(&[0u8; 12]);
    let out = clip.process(&message(CB_FILECONTENTS_REQUEST, 0, &req), &mut prov);
    assert_eq!(u16::from_le_bytes([out[0][0], out[0][1]]), CB_FILECONTENTS_RESPONSE);
    assert_eq!(u32::from_le_bytes([out[0][8], out[0][9], out[0][10], out[0][11]]), 7);
    let size = u64::from_le_bytes([
        out[0][12], out[0][13], out[0][14], out[0][15], out[0][16], out[0][17], out[0][18], out[0][19],
    ]);
    assert_eq!(size, 1234);

    let mut req = Vec::new();
    req.extend_from_slice(&8u32.to_le_bytes());
    req.extend_from_slice(&0u32.to_le_bytes());
    req.extend_from_slice(&FILECONTENTS_RANGE.to_le_bytes());
    req.extend_from_slice(&0u32.to_le_bytes());
    req.extend_from_slice(&0u32.to_le_bytes());
    req.extend_from_slice(&4u32.to_le_bytes());
    let out = clip.process(&message(CB_FILECONTENTS_REQUEST, 0, &req), &mut prov);
    assert_eq!(u16::from_le_bytes([out[0][2], out[0][3]]), CB_RESPONSE_OK);
    assert_eq!(&out[0][12..16], &[0, 0, 0, 0]);
}

#[derive(Default)]
struct DownloadClipboard {
    saved: Vec<(String, Vec<u8>)>,
}

impl ClipboardProvider for DownloadClipboard {
    fn get_text(&mut self) -> Option<String> {
        None
    }
    fn set_text(&mut self, _t: &str) {}
    fn wants_remote_files(&self) -> bool {
        true
    }
    fn save_remote_file(&mut self, name: &str, data: &[u8]) {
        self.saved.push((name.to_string(), data.to_vec()));
    }
}

fn one_descriptor(name: &str, size: u64) -> Vec<u8> {
    let mut d = 1u32.to_le_bytes().to_vec();
    let mut rec = vec![0u8; 592];
    rec[64..68].copy_from_slice(&((size >> 32) as u32).to_le_bytes());
    rec[68..72].copy_from_slice(&(size as u32).to_le_bytes());
    for (i, u) in name.encode_utf16().enumerate() {
        rec[72 + i * 2..74 + i * 2].copy_from_slice(&u.to_le_bytes());
    }
    d.extend_from_slice(&rec);
    d
}

#[test]
fn remote_files_are_downloaded() {
    let mut clip = ClipboardChannel::new();
    let mut prov = DownloadClipboard::default();
    clip.process(&message(CB_MONITOR_READY, 0, &[]), &mut prov);

    let mut fl = CF_FILEGROUPDESCRIPTORW.to_le_bytes().to_vec();
    fl.extend_from_slice(&utf16z("FileGroupDescriptorW"));
    let out = clip.process(&message(CB_FORMAT_LIST, 0, &fl), &mut prov);
    assert_eq!(msg_type(&out[1]), CB_FORMAT_DATA_REQUEST);
    assert_eq!(&out[1][8..12], &CF_FILEGROUPDESCRIPTORW.to_le_bytes());

    let out = clip.process(&message(CB_FORMAT_DATA_RESPONSE, CB_RESPONSE_OK, &one_descriptor("a.txt", 5)), &mut prov);
    assert_eq!(msg_type(&out[0]), CB_FILECONTENTS_REQUEST);

    let mut resp = 1u32.to_le_bytes().to_vec();
    resp.extend_from_slice(b"hello");
    clip.process(&message(CB_FILECONTENTS_RESPONSE, CB_RESPONSE_OK, &resp), &mut prov);
    assert_eq!(prov.saved.len(), 1);
    assert_eq!(prov.saved[0].0, "a.txt");
    assert_eq!(prov.saved[0].1, b"hello");
}

#[test]
fn short_and_unknown_messages_produce_nothing() {
    let mut clip = ClipboardChannel::new();
    let mut prov = NoopClipboard::new();
    assert!(clip.process(&[1, 0, 0], &mut prov).is_empty());
    assert!(clip.process(&message(CB_CLIP_CAPS, 0, &[1, 2, 3]), &mut prov).is_empty());
    assert!(!clip.is_ready());
}

#[test]
fn message_header_counts_data() {
    assert_eq!(message(CB_FORMAT_LIST_RESPONSE, CB_RESPONSE_OK, &[9, 9]), vec![3, 0, 1, 0, 2, 0, 0, 0, 9, 9]);
    assert_eq!(utf16z("A"), vec![0x41, 0, 0, 0]);
    assert_eq!(decode_unicode(&[0x41, 0, 0x42, 0, 0, 0, 0x43, 0]), "AB");
}

#[test]
fn empty_format_list_requests_nothing_and_noop_answers_fail() {
    let mut clip = ClipboardChannel::new();
    let mut prov = NoopClipboard::new();
    let out = clip.process(&message(CB_FORMAT_LIST, 0, &[]), &mut prov);
    assert_eq!(out.len(), 1);
    assert_eq!(msg_type(&out[0]), CB_FORMAT_LIST_RESPONSE);
    let out = clip.process(&message(CB_FORMAT_DATA_REQUEST, 0, &CF_FILEGROUPDESCRIPTORW.to_le_bytes()), &mut prov);
    assert_eq!(u16::from_le_bytes([out[0][2], out[0][3]]), CB_RESPONSE_FAIL);
}

#[test]
fn redirection_channels_are_recognised_by_prefix() {
    assert!(is_redirection_channel("Microsoft::Windows::RDS::Video::Control::v08.01"));
    assert!(is_redirection_channel("com.microsoft.rdc.dvc.webrtc.1"));
    assert!(is_redirection_channel("Microsoft::Windows::RDS::Geometry::v08.01"));
    assert!(!is_redirection_channel("Microsoft::Windows::RDS::Graphics"));
    assert!(!is_redirection_channel("com.microsoft"));
}

#[test]
fn unicode_text_round_trips_without_nul() {
    for s in ["", "plain", "hello™", "emoji 😀 and 中文", "line\r\nbreak"] {
        assert_eq!(decode_unicode(&unicode_response(s)), s);
    }
    // A NUL inside the text ends it on the receiving side.
    assert_eq!(decode_unicode(&unicode_response("a\0b")), "a");
}

#[test]
fn format_list_is_acknowledged_before_anything_else() {
    let mut ch = ClipboardChannel::new();
    let mut cb = MockClipboard::default();
    let out = ch.process(&message(CB_FORMAT_LIST, 0, &[]), &mut cb);
    assert!(!out.is_empty());
    assert_eq!(msg_type(&out[0]), CB_FORMAT_LIST_RESPONSE);
}

#[test]
fn every_sent_message_counts_its_data() {
    let mut ch = ClipboardChannel::new();
    let mut cb = MockClipboard { local: Some("text".into()), pasted: None };
    let mut sent = ch.process(&message(CB_MONITOR_READY, 0, &[]), &mut cb);
    sent.extend(ch.process(&message(CB_FORMAT_DATA_REQUEST, 0, &CF_UNICODETEXT.to_le_bytes()), &mut cb));
    sent.extend(ch.process(&message(CB_FORMAT_LIST, 0, &[0x0d, 0, 0, 0, 0, 0]), &mut cb));
    assert!(sent.len() >= 4);
    for m in &sent {
        assert!(m.len() >= 8);
        assert_eq!(u32::from_le_bytes([m[4], m[5], m[6], m[7]]) as usize, m.len() - 8);
    }
}

fn no_answers() -> ClipAnswers {
    ClipAnswers { text: None, files: Vec::new(), wants: false, read: None }
}

#[test]
fn step_reports_pasted_text_and_saved_files_as_actions() {
    let mut clip = ClipboardChannel::new();
    let (out, actions) = clip.step(&message(CB_FORMAT_DATA_RESPONSE, CB_RESPONSE_OK, &utf16z("hi")), &no_answers());
    assert!(out.is_empty());
    assert_eq!(actions, vec![ClipAction::SetText("hi".into())]);

    let mut fl = CF_FILEGROUPDESCRIPTORW.to_le_bytes().to_vec();
    fl.extend_from_slice(&utf16z("FileGroupDescriptorW"));
    let wants = ClipAnswers { wants: true, ..no_answers() };
    clip.step(&message(CB_FORMAT_LIST, 0, &fl), &wants);
    let (_, actions) =
        clip.step(&message(CB_FORMAT_DATA_RESPONSE, CB_RESPONSE_OK, &one_descriptor("a.txt", 5)), &no_answers());
    assert!(actions.is_empty());
    let mut resp = 1u32.to_le_bytes().to_vec();
    resp.extend_from_slice(b"hel");
    let (out, actions) = clip.step(&message(CB_FILECONTENTS_RESPONSE, CB_RESPONSE_OK, &resp), &no_answers());
    assert!(actions.is_empty());
    assert_eq!(msg_type(&out[0]), CB_FILECONTENTS_REQUEST);
    let mut resp = 1u32.to_le_bytes().to_vec();
    resp.extend_from_slice(b"lo");
    let (out, actions) = clip.step(&message(CB_FILECONTENTS_RESPONSE, CB_RESPONSE_OK, &resp), &no_answers());
    assert!(out.is_empty());
    assert_eq!(actions, vec![ClipAction::SaveFile("a.txt".into(), b"hello".to_vec())]);
}

#[test]
fn step_answers_data_request_from_the_given_text() {
    let mut clip = ClipboardChannel::new();
    let req = message(CB_FORMAT_DATA_REQUEST, 0, &CF_UNICODETEXT.to_le_bytes());
    let (out, _) = clip.step(&req, &ClipAnswers { text: Some("copy me".into()), ..no_answers() });
    assert_eq!(u16::from_le_bytes([out[0][2], out[0][3]]), CB_RESPONSE_OK);
    assert_eq!(decode_unicode(&out[0][8..]), "copy me");
    let (out, _) = clip.step(&req, &no_answers());
    assert_eq!(u16::from_le_bytes([out[0][2], out[0][3]]), CB_RESPONSE_FAIL);
}

#[test]
fn query_names_what_the_provider_must_answer() {
    assert_eq!(query(&message(CB_MONITOR_READY, 0, &[])), ClipQuery::Announce);
    assert_eq!(query(&message(CB_FORMAT_LIST, 0, &[])), ClipQuery::Nothing);
    let mut fl = CF_FILEGROUPDESCRIPTORW.to_le_bytes().to_vec();
    fl.extend_from_slice(&utf16z("FileGroupDescriptorW"));
    assert_eq!(query(&message(CB_FORMAT_LIST, 0, &fl)), ClipQuery::Wants);
    assert_eq!(query(&message(CB_FORMAT_DATA_REQUEST, 0, &CF_UNICODETEXT.to_le_bytes())), ClipQuery::Text);
    assert_eq!(query(&message(CB_FORMAT_DATA_REQUEST, 0, &CF_FILEGROUPDESCRIPTORW.to_le_bytes())), ClipQuery::Files);
    let mut req = Vec::new();
    for v in [7u32, 2, FILECONTENTS_RANGE, 0x10, 0x1, 300] {
        req.extend_from_slice(&v.to_le_bytes());
    }
    assert_eq!(
        query(&message(CB_FILECONTENTS_REQUEST, 0, &req)),
        ClipQuery::FileRange { index: 2, offset: 0x1_0000_0010, len: 300 }
    );
    assert_eq!(query(&[1, 2, 3]), ClipQuery::Nothing);
}
