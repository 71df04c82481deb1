//! Clipboard redirection (MS-RDPECLIP): text and file sync over the static
//! `cliprdr` virtual channel.
//!
//! Every message is an 8-byte `CLIPRDR_HEADER` { msgType, msgFlags, dataLen }
//! followed by its data. The server sends Monitor Ready, the client answers
//! with its capabilities and a Format List; either side announces new
//! clipboard contents with a Format List, acknowledged by a Format List
//! Response; to paste, the peer sends a Format Data Request and gets back a
//! Format Data Response. Files travel as a file descriptor list and File
//! Contents Request/Response pairs.
//!
//! [`ClipboardChannel`] is sans-I/O: it turns inbound messages into the
//! outbound messages to send, calling a [`ClipboardProvider`] for the local
//! clipboard.
use vstd::prelude::*;
use crate::bytes::{le16, le32, le64, rd16, rd32, put_u16, put_u32, put_u64, push_all, get_u16, get_u32};
use crate::text::{nul_free, lemma_encode_nonzero, lemma_units_until_terminator, lemma_utf16_roundtrip, utf16_encode, units_le, utf16_decode_lossy, units_until_nul, encode_utf16,
    push_units_le, read_units_until_nul, string_from_utf16_lossy};

verus! {

pub const CB_MONITOR_READY: u16 = 0x0001;
pub const CB_FORMAT_LIST: u16 = 0x0002;
pub const CB_FORMAT_LIST_RESPONSE: u16 = 0x0003;
pub const CB_FORMAT_DATA_REQUEST: u16 = 0x0004;
pub const CB_FORMAT_DATA_RESPONSE: u16 = 0x0005;
pub const CB_CLIP_CAPS: u16 = 0x0007;
pub const CB_FILECONTENTS_REQUEST: u16 = 0x0008;
pub const CB_FILECONTENTS_RESPONSE: u16 = 0x0009;

pub const CB_RESPONSE_OK: u16 = 0x0001;
pub const CB_RESPONSE_FAIL: u16 = 0x0002;

/// File Contents Request types.
pub const FILECONTENTS_SIZE: u32 = 0x0001;
pub const FILECONTENTS_RANGE: u32 = 0x0002;

/// The format id this client gives the registered "FileGroupDescriptorW"
/// format.
pub const CF_FILEGROUPDESCRIPTORW: u32 = 0x0000_C0C0;
/// Capability flag: file-list clipboard transfer is supported.
pub const CB_STREAM_FILECLIP_ENABLED: u32 = 0x0000_0004;
/// FILEDESCRIPTORW flags: the attributes and size fields are valid.
pub const FD_ATTRIBUTES: u32 = 0x0000_0004;
pub const FD_FILESIZE: u32 = 0x0000_0040;
pub const FILE_ATTRIBUTE_ARCHIVE: u32 = 0x0000_0020;

pub const CB_CAPSTYPE_GENERAL: u16 = 0x0001;
pub const CB_CAPS_VERSION_2: u32 = 0x0000_0002;
pub const CB_USE_LONG_FORMAT_NAMES: u32 = 0x0000_0002;

/// `CF_UNICODETEXT`: UTF-16LE text, the text format synchronised.
pub const CF_UNICODETEXT: u32 = 13;

/// Largest single File Contents Request (the download chunk size).
pub const FILE_CHUNK: u32 = 4194304;

/// Size of one FILEDESCRIPTORW record.
pub const DESCRIPTOR_LEN: usize = 592;

/// A length as the 32-bit header field carries it (wrapping).
pub open spec fn len32(n: nat) -> u32 {
    (n % 0x1_0000_0000) as u32
}

/// A CLIPRDR message: header then data.
pub open spec fn spec_message(msg_type: u16, msg_flags: u16, data: Seq<u8>) -> Seq<u8> {
    le16(msg_type) + le16(msg_flags) + le32(len32(data.len())) + data
}

/// Build a CLIPRDR PDU (`CLIPRDR_HEADER` + data).
pub fn message(msg_type: u16, msg_flags: u16, data: &[u8]) -> (r: Vec<u8>)
    ensures
        r@ == spec_message(msg_type, msg_flags, data@),
{
    let mut v: Vec<u8> = Vec::new();
    put_u16(msg_type, &mut v);
    put_u16(msg_flags, &mut v);
    let n = (data.len() as u64 % 0x1_0000_0000u64) as u32;
    put_u32(n, &mut v);
    push_all(&mut v, data);
    v
}

/// The client capability data: one General set, version 2, long format
/// names and file-clip transfer.
pub open spec fn spec_capability_data() -> Seq<u8> {
    le16(1) + le16(0) + le16(CB_CAPSTYPE_GENERAL) + le16(12) + le32(CB_CAPS_VERSION_2) + le32(
        CB_USE_LONG_FORMAT_NAMES | CB_STREAM_FILECLIP_ENABLED,
    )
}

/// Client Clipboard Capabilities.
pub fn capabilities() -> (r: Vec<u8>)
    ensures
        r@ == spec_message(CB_CLIP_CAPS, 0, spec_capability_data()),
{
    let mut d: Vec<u8> = Vec::new();
    put_u16(1, &mut d);
    put_u16(0, &mut d);
    put_u16(CB_CAPSTYPE_GENERAL, &mut d);
    put_u16(12, &mut d);
    put_u32(CB_CAPS_VERSION_2, &mut d);
    put_u32(CB_USE_LONG_FORMAT_NAMES | CB_STREAM_FILECLIP_ENABLED, &mut d);
    assert(d@ =~= spec_capability_data());
    message(CB_CLIP_CAPS, 0, d.as_slice())
}

/// UTF-16LE bytes of `s` followed by a NUL unit.
pub open spec fn spec_utf16z(s: Seq<char>) -> Seq<u8> {
    units_le(utf16_encode(s)) + seq![0u8, 0u8]
}

/// UTF-16LE, NUL-terminated form of a format name.
pub fn utf16z(s: &str) -> (r: Vec<u8>)
    ensures
        r@ == spec_utf16z(s@),
{
    let units = encode_utf16(s);
    let mut v: Vec<u8> = Vec::new();
    push_units_le(&mut v, units.as_slice());
    v.push(0);
    v.push(0);
    assert(v@ =~= spec_utf16z(s@));
    v
}

/// The name under which file lists are announced.
pub open spec fn file_group_name() -> Seq<char> {
    "FileGroupDescriptorW"@
}

/// A Format List advertising what the client holds: text as
/// `CF_UNICODETEXT` with an empty name, files as the registered format.
pub open spec fn spec_format_list(has_text: bool, has_files: bool) -> Seq<u8> {
    let t = if has_text { le32(CF_UNICODETEXT) + seq![0u8, 0u8] } else { Seq::empty() };
    let f = if has_files { le32(CF_FILEGROUPDESCRIPTORW) + spec_utf16z(file_group_name()) } else { Seq::empty() };
    spec_message(CB_FORMAT_LIST, 0, t + f)
}

/// A Format List advertising what we hold (long-format-name layout:
/// `formatId` and a NUL-terminated UTF-16 name). Empty means "nothing".
pub fn format_list(has_text: bool, has_files: bool) -> (r: Vec<u8>)
    ensures
        r@ == spec_format_list(has_text, has_files),
{
    let mut d: Vec<u8> = Vec::new();
    if has_text {
        put_u32(CF_UNICODETEXT, &mut d);
        d.push(0);
        d.push(0);
    }
    let ghost t = d@;
    if has_files {
        put_u32(CF_FILEGROUPDESCRIPTORW, &mut d);
        let name = utf16z("FileGroupDescriptorW");
        push_all(&mut d, name.as_slice());
    }
    assert(d@ =~= (if has_text { le32(CF_UNICODETEXT) + seq![0u8, 0u8] } else { Seq::empty() })
        + (if has_files { le32(CF_FILEGROUPDESCRIPTORW) + spec_utf16z(file_group_name()) } else { Seq::empty() }));
    message(CB_FORMAT_LIST, 0, d.as_slice())
}

/// Append `n` zero bytes.
fn push_zeros(out: &mut Vec<u8>, n: usize)
    ensures
        final(out)@ == old(out)@ + Seq::new(n as nat, |i: int| 0u8),
{
    let mut i: usize = 0;
    while i < n
        invariant
            i <= n,
            out@ == old(out)@ + Seq::new(i as nat, |k: int| 0u8),
        decreases n - i,
    {
        out.push(0);
        i = i + 1;
        assert(out@ =~= old(out)@ + Seq::new(i as nat, |k: int| 0u8));
    }
}

/// One file offered to the session via the clipboard (local to remote).
#[derive(Debug, Clone, PartialEq, Eq)]
pub struct ClipFile {
    /// File name (no path) as shown when pasting in the session.
    pub name: String,
    pub size: u64,
}

/// The 260-unit name field of a file descriptor: the first 259 units of the
/// name, NUL-padded.
pub open spec fn name_field(u: Seq<u16>) -> Seq<u16> {
    Seq::new(260, |i: int| if i < 259 && i < u.len() { u[i] } else { 0u16 })
}

/// One FILEDESCRIPTORW record (592 bytes).
pub open spec fn spec_descriptor(name: Seq<char>, size: u64) -> Seq<u8> {
    le32(FD_ATTRIBUTES | FD_FILESIZE) + Seq::new(32, |i: int| 0u8) + le32(FILE_ATTRIBUTE_ARCHIVE)
        + Seq::new(16, |i: int| 0u8) + le64(0) + le32((size >> 32u64) as u32) + le32(size as u32)
        + units_le(name_field(utf16_encode(name)))
}

/// The descriptor records of `files`, in order.
pub open spec fn spec_descriptors(files: Seq<(Seq<char>, u64)>) -> Seq<u8>
    decreases files.len(),
{
    if files.len() == 0 {
        Seq::empty()
    } else {
        spec_descriptors(files.drop_last()) + spec_descriptor(files.last().0, files.last().1)
    }
}

/// A `CLIPRDR_FILELIST`: the item count, then one record per file.
pub open spec fn spec_file_group_descriptor(files: Seq<(Seq<char>, u64)>) -> Seq<u8> {
    le32(len32(files.len())) + spec_descriptors(files)
}

/// How a file offered to the session is seen: its name and size.
pub open spec fn clip_file_view(f: ClipFile) -> (Seq<char>, u64) {
    (f.name@, f.size)
}

/// Append the 260-unit name field for `units`.
fn push_name_field(out: &mut Vec<u8>, units: &[u16])
    ensures
        final(out)@ == old(out)@ + units_le(name_field(units@)),
{
    let mut field: Vec<u16> = Vec::new();
    let mut i: usize = 0;
    while i < 260
        invariant
            i <= 260,
            field@ =~= name_field(units@).take(i as int),
        decreases 260 - i,
    {
        let u = if i < 259 && i < units.len() { units[i] } else { 0 };
        field.push(u);
        i = i + 1;
    }
    assert(field@ =~= name_field(units@));
    push_units_le(out, field.as_slice());
}

/// Pack a `CLIPRDR_FILELIST` (cItems and that many 592-byte records).
pub fn file_group_descriptor(files: &[ClipFile]) -> (r: Vec<u8>)
    ensures
        r@ == spec_file_group_descriptor(files@.map_values(|f: ClipFile| clip_file_view(f))),
{
    let ghost fv = files@.map_values(|f: ClipFile| clip_file_view(f));
    let mut d: Vec<u8> = Vec::new();
    put_u32((files.len() as u64 % 0x1_0000_0000u64) as u32, &mut d);
    let mut i: usize = 0;
    while i < files.len()
        invariant
            i <= files@.len(),
            fv == files@.map_values(|f: ClipFile| clip_file_view(f)),
            d@ == le32(len32(files@.len())) + spec_descriptors(fv.take(i as int)),
        decreases files@.len() - i,
    {
        let f = &files[i];
        let ghost before = d@;
        put_u32(FD_ATTRIBUTES | FD_FILESIZE, &mut d);
        push_zeros(&mut d, 32);
        put_u32(FILE_ATTRIBUTE_ARCHIVE, &mut d);
        push_zeros(&mut d, 16);
        put_u64(0, &mut d);
        put_u32((f.size >> 32u64) as u32, &mut d);
        put_u32(f.size as u32, &mut d);
        let units = encode_utf16(f.name.as_str());
        push_name_field(&mut d, units.as_slice());
        proof {
            assert(fv.take(i as int + 1).drop_last() =~= fv.take(i as int));
            assert(fv[i as int] == clip_file_view(files@[i as int]));
            assert(d@ =~= before + spec_descriptor(f.name@, f.size));
        }
        i = i + 1;
    }
    assert(fv.take(i as int) =~= fv);
    d
}

/// Encode `text` as a Format Data Response payload (UTF-16LE,
/// NUL-terminated).
pub fn unicode_response(text: &str) -> (r: Vec<u8>)
    ensures
        r@ == spec_utf16z(text@),
{
    utf16z(text)
}

/// The text a Format Data Response payload carries: its UTF-16LE units up
/// to the first NUL, decoded lossily.
pub open spec fn spec_decode_unicode(data: Seq<u8>) -> Seq<char> {
    utf16_decode_lossy(units_until_nul(data, 0))
}

/// Decode a Format Data Response payload (UTF-16LE, trailing NUL).
pub fn decode_unicode(data: &[u8]) -> (r: String)
    ensures
        r@ == spec_decode_unicode(data@),
{
    let units = read_units_until_nul(data);
    string_from_utf16_lossy(units.as_slice())
}

/// Clipboard text survives the trip: the payload `unicode_response` builds
/// for a text without NUL characters decodes (`decode_unicode`) back to the
/// same text.
pub proof fn lemma_unicode_text_roundtrip(s: Seq<char>)
    requires
        nul_free(s),
    ensures
        spec_decode_unicode(spec_utf16z(s)) == s,
{
    let u = utf16_encode(s);
    lemma_encode_nonzero(s);
    lemma_units_until_terminator(u, 0);
    assert(u.skip(0) =~= u);
    lemma_utf16_roundtrip(s);
}

/// The name units from `o` up to a NUL unit (consumed) or the end of the
/// data, and the position after them.
pub open spec fn name_scan(data: Seq<u8>, o: nat) -> (Seq<u16>, nat)
    decreases data.len() - o,
{
    if o + 2 > data.len() {
        (Seq::empty(), o)
    } else if rd16(data, o as int) == 0 {
        (Seq::empty(), o + 2)
    } else {
        let rest = name_scan(data, o + 2);
        (seq![rd16(data, o as int)] + rest.0, rest.1)
    }
}

proof fn lemma_name_scan_end(data: Seq<u8>, o: nat)
    ensures
        o <= name_scan(data, o).1,
        o <= data.len() ==> name_scan(data, o).1 <= data.len(),
    decreases data.len() - o,
{
    if o + 2 <= data.len() && rd16(data, o as int) != 0 {
        lemma_name_scan_end(data, o + 2);
    }
}

/// The `(formatId, name units)` entries of a long-format-name Format List
/// from position `o`.
pub open spec fn format_entries(data: Seq<u8>, o: nat) -> Seq<(u32, Seq<u16>)>
    decreases data.len() - o,
{
    if o + 4 > data.len() {
        Seq::empty()
    } else {
        let scan = name_scan(data, o + 4);
        let rest = if o < scan.1 <= data.len() { format_entries(data, scan.1) } else { Seq::empty() };
        seq![(rd32(data, o as int), scan.0)] + rest
    }
}

/// Read the NUL-terminated name at `o`.
fn scan_name(data: &[u8], o: usize) -> (r: (Vec<u16>, usize))
    requires
        o <= data@.len(),
    ensures
        (r.0@, r.1 as nat) == name_scan(data@, o as nat),
{
    let mut units: Vec<u16> = Vec::new();
    let mut pos = o;
    while data.len() - pos >= 2
        invariant
            o <= pos <= data@.len(),
            name_scan(data@, o as nat) == (units@ + name_scan(data@, pos as nat).0, name_scan(data@, pos as nat).1),
        decreases data@.len() - pos,
    {
        let u = get_u16(data, pos);
        if u == 0 {
            assert(units@ + Seq::<u16>::empty() =~= units@);
            return (units, pos + 2);
        }
        units.push(u);
        proof {
            let rest = name_scan(data@, pos as nat + 2);
            assert(units@ + rest.0 =~= units@.drop_last() + (seq![u] + rest.0));
        }
        pos = pos + 2;
    }
    assert(units@ + Seq::<u16>::empty() =~= units@);
    (units, pos)
}

/// Parse a long-format-name Format List into `(formatId, name)` pairs.
pub fn parse_format_list(data: &[u8]) -> (r: Vec<(u32, String)>)
    ensures
        r@.len() == format_entries(data@, 0).len(),
        forall|i: int| 0 <= i < r@.len() ==> (#[trigger] r@[i]).0 == format_entries(data@, 0)[i].0
            && r@[i].1@ == utf16_decode_lossy(format_entries(data@, 0)[i].1),
{
    let ghost all = format_entries(data@, 0);
    let ghost mut done: Seq<(u32, Seq<u16>)> = Seq::empty();
    let mut out: Vec<(u32, String)> = Vec::new();
    let mut o: usize = 0;
    while data.len() - o >= 4
        invariant
            o <= data@.len(),
            all == format_entries(data@, 0),
            done + format_entries(data@, o as nat) == all,
            out@.len() == done.len(),
            forall|i: int| 0 <= i < out@.len() ==> (#[trigger] out@[i]).0 == done[i].0
                && out@[i].1@ == utf16_decode_lossy(done[i].1),
        decreases data@.len() - o,
    {
        let id = get_u32(data, o);
        let (units, end) = scan_name(data, o + 4);
        proof {
            lemma_name_scan_end(data@, o as nat + 4);
        }
        let name = string_from_utf16_lossy(units.as_slice());
        out.push((id, name));
        proof {
            let e = (id, units@);
            assert(format_entries(data@, o as nat) == seq![e] + format_entries(data@, end as nat));
            assert(done.push(e) + format_entries(data@, end as nat) =~= done + format_entries(data@, o as nat));
            done = done.push(e);
        }
        o = end;
    }
    assert(done + format_entries(data@, o as nat) =~= done);
    out
}

/// How many complete file descriptor records a `CLIPRDR_FILELIST` holds:
/// the announced count, cut at the first incomplete record.
pub open spec fn descriptor_count(data: Seq<u8>) -> nat {
    if data.len() < 4 {
        0
    } else {
        let fit = ((data.len() - 4) / 592) as nat;
        let c = rd32(data, 0) as nat;
        if c < fit { c } else { fit }
    }
}

/// The name units and size of record `i`: the size is `sizeHigh:sizeLow` at
/// bytes 64 and 68, the name the UTF-16 units from byte 72 up to a NUL.
pub open spec fn descriptor_at(data: Seq<u8>, i: nat) -> (Seq<u16>, u64) {
    let base: int = (4 + 592 * i) as int;
    let name = units_until_nul(data.subrange(base + 72, base + 592), 0);
    let size = ((rd32(data, base + 64) as u64) << 32u64) | (rd32(data, base + 68) as u64);
    (name, size)
}

/// Parse a `CLIPRDR_FILELIST` into `(name, size)` pairs.
pub fn parse_file_descriptors(data: &[u8]) -> (r: Vec<(String, u64)>)
    ensures
        r@.len() == descriptor_count(data@),
        forall|i: int| 0 <= i < r@.len() ==> (#[trigger] r@[i]).0@ == utf16_decode_lossy(descriptor_at(data@, i as nat).0)
            && r@[i].1 == descriptor_at(data@, i as nat).1,
{
    let mut out: Vec<(String, u64)> = Vec::new();
    if data.len() < 4 {
        return out;
    }
    let count = get_u32(data, 0) as usize;
    let mut base: usize = 4;
    let mut i: usize = 0;
    while i < count
        invariant
            data@.len() >= 4,
            count as nat == rd32(data@, 0) as nat,
            i <= count,
            base == 4 + 592 * i,
            base <= data@.len(),
            out@.len() == i,
            forall|k: int| 0 <= k < i ==> (#[trigger] out@[k]).0@ == utf16_decode_lossy(descriptor_at(data@, k as nat).0)
                && out@[k].1 == descriptor_at(data@, k as nat).1,
        decreases count - i,
    {
        if data.len() - base < DESCRIPTOR_LEN {
            assert(((data@.len() - 4) / 592) as nat == i);
            return out;
        }
        let size_high = get_u32(data, base + 64) as u64;
        let size_low = get_u32(data, base + 68) as u64;
        let size = (size_high << 32u64) | size_low;
        let name_bytes = crate::bytes::range(data, base + 72, base + 592);
        let units = read_units_until_nul(name_bytes);
        let name = string_from_utf16_lossy(units.as_slice());
        out.push((name, size));
        base = base + DESCRIPTOR_LEN;
        i = i + 1;
    }
    proof {
        assert(i as nat <= ((data@.len() - 4) / 592) as nat);
    }
    out
}

/// A File Contents Request (range) for `len` bytes of file `index`.
pub open spec fn spec_file_contents_request(stream_id: u32, index: u32, offset: u64, len: u32) -> Seq<u8> {
    spec_message(
        CB_FILECONTENTS_REQUEST,
        0,
        le32(stream_id) + le32(index) + le32(FILECONTENTS_RANGE) + le32(offset as u32) + le32(
            (offset >> 32u64) as u32,
        ) + le32(len) + le32(0),
    )
}

/// Build a File Contents Request (range) for `len` bytes of file `index`.
pub fn file_contents_request(stream_id: u32, index: u32, offset: u64, len: u32) -> (r: Vec<u8>)
    ensures
        r@ == spec_file_contents_request(stream_id, index, offset, len),
{
    let mut d: Vec<u8> = Vec::new();
    put_u32(stream_id, &mut d);
    put_u32(index, &mut d);
    put_u32(FILECONTENTS_RANGE, &mut d);
    put_u32(offset as u32, &mut d);
    put_u32((offset >> 32u64) as u32, &mut d);
    put_u32(len, &mut d);
    put_u32(0, &mut d);
    assert(d@ =~= le32(stream_id) + le32(index) + le32(FILECONTENTS_RANGE) + le32(offset as u32) + le32(
        (offset >> 32u64) as u32) + le32(len) + le32(0));
    message(CB_FILECONTENTS_REQUEST, 0, d.as_slice())
}

/// The local clipboard, abstracted so the protocol stays portable: the
/// platform implements it. Its model, [`ClipboardProvider::received`], is
/// what the channel has handed it so far; only `set_text` and
/// `save_remote_file` add to it.
pub trait ClipboardProvider {
    /// The pasted texts and saved files handed to this provider so far, in
    /// order. A provider that implements `set_text` or `save_remote_file`
    /// under verification defines it.
    closed spec fn received(&self) -> Seq<ActionModel> {
        Seq::empty()
    }

    /// The current local clipboard text, if any.
    fn get_text(&mut self) -> (r: Option<String>)
        ensures
            final(self).received() == old(self).received(),
    ;

    /// Replace the local clipboard text (a remote copy was pasted to us).
    fn set_text(&mut self, text: &str)
        ensures
            final(self).received() == old(self).received().push(ActionModel::SetText(text@)),
    ;

    /// Files currently on the local clipboard, to offer the session.
    fn get_files(&mut self) -> (r: Vec<ClipFile>)
        ensures
            final(self).received() == old(self).received(),
        default_ensures
            r@.len() == 0,
    {
        Vec::new()
    }

    /// Read `len` bytes at `offset` from local file `index` (into the last
    /// `get_files` list); `None` on any error.
    fn read_file(&mut self, index: u32, offset: u64, len: u32) -> (r: Option<Vec<u8>>)
        ensures
            final(self).received() == old(self).received(),
        default_ensures
            r is None,
    {
        None
    }

    /// Whether to pull files the session puts on its clipboard down to the
    /// local machine.
    fn wants_remote_files(&self) -> (r: bool)
        default_ensures
            !r,
    {
        false
    }

    /// Save a complete file fetched from the session's clipboard.
    fn save_remote_file(&mut self, name: &str, data: &[u8])
        ensures
            final(self).received() == old(self).received().push(ActionModel::SaveFile(name@, data@)),
    ;
}

/// A clipboard that holds nothing and discards writes: the default when no
/// OS clipboard is wired in. Clipboard messages are still answered (empty or
/// FAIL), so the channel handshake completes. It keeps only the ghost record
/// of what it was handed.
pub struct NoopClipboard {
    log: Ghost<Seq<ActionModel>>,
}

impl NoopClipboard {
    /// A provider that has been handed nothing yet.
    pub fn new() -> (r: Self)
        ensures
            r.received() == Seq::<ActionModel>::empty(),
    {
        NoopClipboard { log: Ghost(Seq::empty()) }
    }
}

impl Default for NoopClipboard {
    fn default() -> (r: Self)
        ensures
            r.received() == Seq::<ActionModel>::empty(),
    {
        Self::new()
    }
}

impl ClipboardProvider for NoopClipboard {
    closed spec fn received(&self) -> Seq<ActionModel> {
        self.log@
    }

    fn get_text(&mut self) -> (r: Option<String>)
        ensures
            r is None,
    {
        None
    }

    fn set_text(&mut self, text: &str) {
        proof {
            self.log@ = self.log@.push(ActionModel::SetText(text@));
        }
    }

    fn save_remote_file(&mut self, name: &str, data: &[u8]) {
        proof {
            self.log@ = self.log@.push(ActionModel::SaveFile(name@, data@));
        }
    }
}

/// The channel state as the contracts see it.
pub struct ClipState {
    /// The server's Monitor Ready has been processed.
    pub ready: bool,
    /// Files the session offered for download, as name and size.
    pub files: Seq<(Seq<char>, u64)>,
    /// The file being fetched.
    pub fetch_index: nat,
    /// The bytes of it received so far.
    pub fetch_buf: Seq<u8>,
    /// The next Format Data Response is the file descriptor list.
    pub expecting: bool,
    /// The last stream id used for a File Contents Request.
    pub stream_id: u32,
}

/// What the clipboard provider answered while one message was processed.
pub struct ProviderAnswers {
    /// `get_text`.
    pub text: Option<Seq<char>>,
    /// `get_files`, as name and size.
    pub files: Seq<(Seq<char>, u64)>,
    /// `wants_remote_files`.
    pub wants: bool,
    /// `read_file`.
    pub read: Option<Seq<u8>>,
}

/// The clipboard channel state machine.
pub struct ClipboardChannel {
    ready: bool,
    remote_files: Vec<(String, u64)>,
    fetch_index: usize,
    fetch_buf: Vec<u8>,
    expecting_descriptors: bool,
    stream_id: u32,
}

pub open spec fn remote_view(p: (String, u64)) -> (Seq<char>, u64) {
    (p.0@, p.1)
}

impl View for ClipboardChannel {
    type V = ClipState;

    closed spec fn view(&self) -> ClipState {
        ClipState {
            ready: self.ready,
            files: self.remote_files@.map_values(|p: (String, u64)| remote_view(p)),
            fetch_index: self.fetch_index as nat,
            fetch_buf: self.fetch_buf@,
            expecting: self.expecting_descriptors,
            stream_id: self.stream_id,
        }
    }
}

/// The data of a message: `dataLen` bytes after the header, or everything
/// after the header when fewer bytes are there.
pub open spec fn spec_payload(msg: Seq<u8>) -> Seq<u8> {
    let n = rd32(msg, 4) as nat;
    if 8 + n <= msg.len() {
        msg.subrange(8, (8 + n) as int)
    } else {
        msg.skip(8)
    }
}

/// The byte at `i`, or zero past the end.
pub open spec fn pad_byte(data: Seq<u8>, i: int) -> u8 {
    if 0 <= i < data.len() {
        data[i]
    } else {
        0
    }
}

/// The little-endian 32-bit value at `o`, missing bytes read as zero.
pub open spec fn padded_u32(data: Seq<u8>, o: int) -> u32 {
    (pad_byte(data, o) as nat + 256 * pad_byte(data, o + 1) as nat + 65536 * pad_byte(data, o + 2) as nat
        + 16777216 * pad_byte(data, o + 3) as nat) as u32
}

/// The request for the next chunk of the file being fetched; nothing once
/// all offered files are done.
pub open spec fn spec_next_request(st: ClipState) -> (ClipState, Seq<Seq<u8>>) {
    if st.fetch_index >= st.files.len() {
        (st, Seq::empty())
    } else {
        let size = st.files[st.fetch_index as int].1;
        let offset = st.fetch_buf.len();
        let rest: nat = if size >= offset { (size - offset) as nat } else { 0 };
        let len: nat = if rest < FILE_CHUNK { rest } else { FILE_CHUNK as nat };
        let sid = (if st.stream_id == 0xFFFF_FFFF { 0 } else { st.stream_id + 1 }) as u32;
        (
            ClipState { stream_id: sid, ..st },
            seq![spec_file_contents_request(sid, st.fetch_index as u32, offset as u64, len as u32)],
        )
    }
}

/// The first announced format whose name is "FileGroupDescriptorW".
pub open spec fn first_file_format(entries: Seq<(u32, Seq<u16>)>) -> Option<u32>
    decreases entries.len(),
{
    if entries.len() == 0 {
        None
    } else if utf16_decode_lossy(entries[0].1) == file_group_name() {
        Some(entries[0].0)
    } else {
        first_file_format(entries.skip(1))
    }
}

/// A Format List from the peer: acknowledge, then ask for the file list if
/// files are offered and wanted, else for text if text is offered (an
/// unparseable non-empty list counts as text).
pub open spec fn spec_on_format_list(st: ClipState, data: Seq<u8>, wants: bool) -> (ClipState, Seq<Seq<u8>>) {
    let entries = format_entries(data, 0);
    let ack = spec_message(CB_FORMAT_LIST_RESPONSE, CB_RESPONSE_OK, Seq::empty());
    match first_file_format(entries) {
        Some(id) if wants => (
            ClipState { expecting: true, files: Seq::empty(), fetch_index: 0, fetch_buf: Seq::empty(), ..st },
            seq![ack, spec_message(CB_FORMAT_DATA_REQUEST, 0, le32(id))],
        ),
        _ => {
            let has_text = (exists|i: int| 0 <= i < entries.len() && #[trigger] entries[i].0 == CF_UNICODETEXT)
                || (entries.len() == 0 && data.len() > 0);
            if has_text {
                (st, seq![ack, spec_message(CB_FORMAT_DATA_REQUEST, 0, le32(CF_UNICODETEXT))])
            } else {
                (st, seq![ack])
            }
        },
    }
}

/// The answer to a Format Data Request: the file list or the text, or FAIL
/// when there is none.
pub open spec fn spec_data_request_reply(data: Seq<u8>, a: ProviderAnswers) -> Seq<Seq<u8>> {
    let fail = spec_message(CB_FORMAT_DATA_RESPONSE, CB_RESPONSE_FAIL, Seq::empty());
    if padded_u32(data, 0) == CF_FILEGROUPDESCRIPTORW {
        if a.files.len() == 0 {
            seq![fail]
        } else {
            seq![spec_message(CB_FORMAT_DATA_RESPONSE, CB_RESPONSE_OK, spec_file_group_descriptor(a.files))]
        }
    } else {
        match a.text {
            Some(t) => seq![spec_message(CB_FORMAT_DATA_RESPONSE, CB_RESPONSE_OK, spec_utf16z(t))],
            None => seq![fail],
        }
    }
}

/// A Format Data Response: a failure ends any pending file-list request; the
/// awaited file list starts a download; anything else is text to paste.
pub open spec fn spec_on_data_response(st: ClipState, flags: u16, data: Seq<u8>) -> (ClipState, Seq<Seq<u8>>) {
    if flags & CB_RESPONSE_OK == 0 {
        (ClipState { expecting: false, ..st }, Seq::empty())
    } else if st.expecting {
        let files = Seq::new(
            descriptor_count(data),
            |i: int| (utf16_decode_lossy(descriptor_at(data, i as nat).0), descriptor_at(data, i as nat).1),
        );
        spec_next_request(
            ClipState { expecting: false, files: files, fetch_index: 0, fetch_buf: Seq::empty(), ..st },
        )
    } else {
        (st, Seq::empty())
    }
}

/// A File Contents Response: a chunk of the file being fetched (after its
/// 4-byte stream id); a complete file moves on to the next; a failure drops
/// the download list.
pub open spec fn spec_on_contents_response(st: ClipState, flags: u16, data: Seq<u8>) -> (ClipState, Seq<Seq<u8>>) {
    if flags & CB_RESPONSE_OK != 0 {
        let chunk = if data.len() >= 4 { data.skip(4) } else { Seq::empty() };
        let buf = st.fetch_buf + chunk;
        let done = st.fetch_index < st.files.len() && buf.len() >= st.files[st.fetch_index as int].1;
        let st1 = if done {
            ClipState { fetch_index: st.fetch_index + 1, fetch_buf: Seq::empty(), ..st }
        } else {
            ClipState { fetch_buf: buf, ..st }
        };
        spec_next_request(st1)
    } else {
        (ClipState { files: Seq::empty(), ..st }, Seq::empty())
    }
}

/// The answer to a File Contents Request: the size of the file asked for
/// (zero if unknown), the requested bytes, or FAIL.
pub open spec fn spec_contents_request_reply(data: Seq<u8>, a: ProviderAnswers) -> Seq<Seq<u8>> {
    let sid = padded_u32(data, 0);
    let index = padded_u32(data, 4);
    let flags = padded_u32(data, 8);
    let fail = spec_message(CB_FILECONTENTS_RESPONSE, CB_RESPONSE_FAIL, le32(sid));
    if flags & FILECONTENTS_SIZE != 0 {
        let size: u64 = if index < a.files.len() { a.files[index as int].1 } else { 0 };
        seq![spec_message(CB_FILECONTENTS_RESPONSE, CB_RESPONSE_OK, le32(sid) + le64(size))]
    } else if flags & FILECONTENTS_RANGE != 0 {
        match a.read {
            Some(b) => seq![spec_message(CB_FILECONTENTS_RESPONSE, CB_RESPONSE_OK, le32(sid) + b)],
            None => seq![fail],
        }
    } else {
        seq![fail]
    }
}

/// One inbound message: the new state and the messages to send, given what
/// the provider answered.
pub open spec fn spec_process(st: ClipState, msg: Seq<u8>, a: ProviderAnswers) -> (ClipState, Seq<Seq<u8>>) {
    if msg.len() < 8 {
        (st, Seq::empty())
    } else {
        let t = rd16(msg, 0);
        let f = rd16(msg, 2);
        let data = spec_payload(msg);
        if t == CB_MONITOR_READY {
            (
                ClipState { ready: true, ..st },
                seq![
                    spec_message(CB_CLIP_CAPS, 0, spec_capability_data()),
                    spec_format_list(a.text is Some, a.files.len() > 0),
                ],
            )
        } else if t == CB_FORMAT_LIST {
            spec_on_format_list(st, data, a.wants)
        } else if t == CB_FORMAT_DATA_REQUEST {
            (st, spec_data_request_reply(data, a))
        } else if t == CB_FORMAT_DATA_RESPONSE {
            spec_on_data_response(st, f, data)
        } else if t == CB_FILECONTENTS_RESPONSE {
            spec_on_contents_response(st, f, data)
        } else if t == CB_FILECONTENTS_REQUEST {
            (st, spec_contents_request_reply(data, a))
        } else {
            (st, Seq::empty())
        }
    }
}

/// The handshake stays done: once Monitor Ready was processed, no message
/// makes the channel unready again.
pub proof fn lemma_ready_is_kept(st: ClipState, msg: Seq<u8>, a: ProviderAnswers)
    requires
        st.ready,
    ensures
        spec_process(st, msg, a).0.ready,
{
}

/// A Format List from the peer is always acknowledged first: the first
/// message sent back is the Format List Response (OK).
pub proof fn lemma_format_list_acknowledged(st: ClipState, msg: Seq<u8>, a: ProviderAnswers)
    requires
        msg.len() >= 8,
        rd16(msg, 0) == CB_FORMAT_LIST,
    ensures
        spec_process(st, msg, a).1.len() >= 1,
        spec_process(st, msg, a).1[0] == spec_message(CB_FORMAT_LIST_RESPONSE, CB_RESPONSE_OK, Seq::empty()),
{
}

/// Whether `m` is a whole CLIPRDR message: an 8-byte header whose length
/// field counts the data after it.
pub open spec fn is_framed(m: Seq<u8>) -> bool {
    m.len() >= 8 && rd32(m, 4) == len32((m.len() - 8) as nat)
}

proof fn lemma_message_framed(t: u16, f: u16, d: Seq<u8>)
    ensures
        is_framed(spec_message(t, f, d)),
{
    let m = spec_message(t, f, d);
    let v = len32(d.len());
    let b = le32(v);
    assert(m[4] == b[0] && m[5] == b[1] && m[6] == b[2] && m[7] == b[3]);
    assert(b[0] as nat + 256 * b[1] as nat + 65536 * b[2] as nat + 16777216 * b[3] as nat == v) by {
        assert(v == (v % 256) + 256 * (((v / 256) % 256) + 256 * (((v / 65536) % 256) + 256 * (v
            / 16777216)))) by (bit_vector);
    }
    assert(m.len() - 8 == d.len());
}

proof fn lemma_next_request_framed(st: ClipState)
    ensures
        forall|i: int| 0 <= i < spec_next_request(st).1.len() ==> is_framed(#[trigger] spec_next_request(st).1[i]),
{
    if st.fetch_index < st.files.len() {
        let size = st.files[st.fetch_index as int].1;
        let offset = st.fetch_buf.len();
        let rest: nat = if size >= offset { (size - offset) as nat } else { 0 };
        let len: nat = if rest < FILE_CHUNK { rest } else { FILE_CHUNK as nat };
        let sid = (if st.stream_id == 0xFFFF_FFFF { 0 } else { st.stream_id + 1 }) as u32;
        let o = offset as u64;
        lemma_message_framed(
            CB_FILECONTENTS_REQUEST,
            0,
            le32(sid) + le32(st.fetch_index as u32) + le32(FILECONTENTS_RANGE) + le32(o as u32) + le32(
                (o >> 32u64) as u32,
            ) + le32(len as u32) + le32(0),
        );
    }
}

proof fn lemma_rd32_le32(s: Seq<u8>, o: int, v: u32)
    requires
        0 <= o,
        o + 4 <= s.len(),
        s.subrange(o, o + 4) == le32(v),
    ensures
        rd32(s, o) == v,
{
    let b = le32(v);
    assert(s[o] == b[0] && s[o + 1] == b[1] && s[o + 2] == b[2] && s[o + 3] == b[3]);
    assert(v == (v % 256) + 256 * (((v / 256) % 256) + 256 * (((v / 65536) % 256) + 256 * (v
        / 16777216)))) by (bit_vector);
}

/// Downloads resume where they stopped: while a file is being fetched, the
/// File Contents Request sent asks for that file (by its index), for a byte
/// range starting at the number of its bytes received so far and reaching
/// the end of the file or one chunk further, whichever comes first; once
/// every offered file is done, nothing more is requested.
pub proof fn lemma_next_request_resumes(st: ClipState)
    requires
        st.fetch_buf.len() < 0x1_0000_0000_0000_0000,
        st.fetch_index < 0x1_0000_0000,
    ensures
        st.fetch_index >= st.files.len() ==> spec_next_request(st).1.len() == 0,
        st.fetch_index < st.files.len() ==> {
            let r = spec_next_request(st).1;
            let size = st.files[st.fetch_index as int].1;
            &&& r.len() == 1
            &&& r[0].len() == 36
            &&& rd16(r[0], 0) == CB_FILECONTENTS_REQUEST
            &&& rd32(r[0], 12) == st.fetch_index
            &&& rd32(r[0], 16) == FILECONTENTS_RANGE
            &&& rd32(r[0], 20) as nat + rd32(r[0], 24) as nat * 0x1_0000_0000 == st.fetch_buf.len()
            &&& rd32(r[0], 28) <= FILE_CHUNK
            &&& st.fetch_buf.len() <= size ==> st.fetch_buf.len() + rd32(r[0], 28) == (if size
                <= st.fetch_buf.len() + FILE_CHUNK { size as int } else { st.fetch_buf.len() + FILE_CHUNK })
        },
{
    if st.fetch_index < st.files.len() {
        let size = st.files[st.fetch_index as int].1;
        let offset = st.fetch_buf.len();
        let rest: nat = if size >= offset { (size - offset) as nat } else { 0 };
        let len: nat = if rest < FILE_CHUNK { rest } else { FILE_CHUNK as nat };
        let sid = (if st.stream_id == 0xFFFF_FFFF { 0 } else { st.stream_id + 1 }) as u32;
        let o = offset as u64;
        let lo = o as u32;
        let hi = (o >> 32u64) as u32;
        let idx = st.fetch_index as u32;
        let d = le32(sid) + le32(idx) + le32(FILECONTENTS_RANGE) + le32(lo) + le32(hi) + le32(len as u32) + le32(0);
        let r = spec_message(CB_FILECONTENTS_REQUEST, 0, d);
        assert(spec_next_request(st).1 == seq![r]);
        assert(d.len() == 28);
        assert(r.subrange(0, 2) =~= le16(CB_FILECONTENTS_REQUEST));
        assert(r.subrange(12, 16) =~= le32(idx));
        assert(r.subrange(16, 20) =~= le32(FILECONTENTS_RANGE));
        assert(r.subrange(20, 24) =~= le32(lo));
        assert(r.subrange(24, 28) =~= le32(hi));
        assert(r.subrange(28, 32) =~= le32(len as u32));
        lemma_rd32_le32(r, 12, idx);
        lemma_rd32_le32(r, 16, FILECONTENTS_RANGE);
        lemma_rd32_le32(r, 20, lo);
        lemma_rd32_le32(r, 24, hi);
        lemma_rd32_le32(r, 28, len as u32);
        assert(lo as nat + hi as nat * 0x1_0000_0000 == o as nat) by (bit_vector)
            requires
                lo == o as u32,
                hi == (o >> 32u64) as u32,
        ;
        let t = CB_FILECONTENTS_REQUEST;
        assert(r[0] == (t % 256) as u8 && r[1] == (t / 256) as u8);
    }
}

/// Every message the channel sends is a whole CLIPRDR message whose header
/// counts its data, whatever arrives and whatever the provider answers.
pub proof fn lemma_process_output_framed(st: ClipState, msg: Seq<u8>, a: ProviderAnswers)
    ensures
        forall|i: int| 0 <= i < spec_process(st, msg, a).1.len() ==> is_framed(#[trigger] spec_process(st, msg, a).1[i]),
{
    if msg.len() >= 8 {
        let t = rd16(msg, 0);
        let f = rd16(msg, 2);
        let data = spec_payload(msg);
        if t == CB_MONITOR_READY {
            lemma_message_framed(CB_CLIP_CAPS, 0, spec_capability_data());
            let tx = if a.text is Some { le32(CF_UNICODETEXT) + seq![0u8, 0u8] } else { Seq::empty() };
            let fx = if a.files.len() > 0 {
                le32(CF_FILEGROUPDESCRIPTORW) + spec_utf16z(file_group_name())
            } else {
                Seq::empty()
            };
            lemma_message_framed(CB_FORMAT_LIST, 0, tx + fx);
        } else if t == CB_FORMAT_LIST {
            let entries = format_entries(data, 0);
            lemma_message_framed(CB_FORMAT_LIST_RESPONSE, CB_RESPONSE_OK, Seq::empty());
            match first_file_format(entries) {
                Some(id) => lemma_message_framed(CB_FORMAT_DATA_REQUEST, 0, le32(id)),
                None => {},
            }
            lemma_message_framed(CB_FORMAT_DATA_REQUEST, 0, le32(CF_UNICODETEXT));
        } else if t == CB_FORMAT_DATA_REQUEST {
            lemma_message_framed(CB_FORMAT_DATA_RESPONSE, CB_RESPONSE_FAIL, Seq::empty());
            lemma_message_framed(CB_FORMAT_DATA_RESPONSE, CB_RESPONSE_OK, spec_file_group_descriptor(a.files));
            match a.text {
                Some(x) => lemma_message_framed(CB_FORMAT_DATA_RESPONSE, CB_RESPONSE_OK, spec_utf16z(x)),
                None => {},
            }
        } else if t == CB_FORMAT_DATA_RESPONSE {
            if f & CB_RESPONSE_OK != 0 && st.expecting {
                let files = Seq::new(
                    descriptor_count(data),
                    |i: int| (utf16_decode_lossy(descriptor_at(data, i as nat).0), descriptor_at(data, i as nat).1),
                );
                lemma_next_request_framed(
                    ClipState { expecting: false, files: files, fetch_index: 0, fetch_buf: Seq::empty(), ..st },
                );
            }
        } else if t == CB_FILECONTENTS_RESPONSE {
            if f & CB_RESPONSE_OK != 0 {
                let chunk = if data.len() >= 4 { data.skip(4) } else { Seq::empty() };
                let buf = st.fetch_buf + chunk;
                let done = st.fetch_index < st.files.len() && buf.len() >= st.files[st.fetch_index as int].1;
                let st1 = if done {
                    ClipState { fetch_index: st.fetch_index + 1, fetch_buf: Seq::empty(), ..st }
                } else {
                    ClipState { fetch_buf: buf, ..st }
                };
                lemma_next_request_framed(st1);
            }
        } else if t == CB_FILECONTENTS_REQUEST {
            let sid = padded_u32(data, 0);
            let index = padded_u32(data, 4);
            let size: u64 = if index < a.files.len() { a.files[index as int].1 } else { 0 };
            lemma_message_framed(CB_FILECONTENTS_RESPONSE, CB_RESPONSE_FAIL, le32(sid));
            lemma_message_framed(CB_FILECONTENTS_RESPONSE, CB_RESPONSE_OK, le32(sid) + le64(size));
            match a.read {
                Some(b) => lemma_message_framed(CB_FILECONTENTS_RESPONSE, CB_RESPONSE_OK, le32(sid) + b),
                None => {},
            }
        }
    }
}

/// The byte strings of a list of messages.
pub open spec fn msgs_view(r: Seq<Vec<u8>>) -> Seq<Seq<u8>> {
    r.map_values(|m: Vec<u8>| m@)
}

pub open spec fn opt_text_view(t: Option<String>) -> Option<Seq<char>> {
    match t {
        Some(s) => Some(s@),
        None => None,
    }
}

pub open spec fn opt_bytes_view(b: Option<Vec<u8>>) -> Option<Seq<u8>> {
    match b {
        Some(v) => Some(v@),
        None => None,
    }
}

/// The data of a message (see [`spec_payload`]).
fn payload(msg: &[u8]) -> (r: &[u8])
    requires
        msg@.len() >= 8,
    ensures
        r@ == spec_payload(msg@),
{
    let n = get_u32(msg, 4) as usize;
    if n <= msg.len() - 8 {
        crate::bytes::range(msg, 8, 8 + n)
    } else {
        crate::bytes::skip(msg, 8)
    }
}

/// The little-endian 32-bit value at `o`, missing bytes read as zero.
fn padded_u32_at(data: &[u8], o: usize) -> (r: u32)
    requires
        o <= 20,
    ensures
        r == padded_u32(data@, o as int),
{
    let b0 = if o < data.len() { data[o] } else { 0 };
    let b1 = if o + 1 < data.len() { data[o + 1] } else { 0 };
    let b2 = if o + 2 < data.len() { data[o + 2] } else { 0 };
    let b3 = if o + 3 < data.len() { data[o + 3] } else { 0 };
    (b0 as u32) + 256 * (b1 as u32) + 65536 * (b2 as u32) + 16777216 * (b3 as u32)
}

/// A message with no data.
fn bare_message(msg_type: u16, msg_flags: u16) -> (r: Vec<u8>)
    ensures
        r@ == spec_message(msg_type, msg_flags, Seq::empty()),
{
    let empty: Vec<u8> = Vec::new();
    message(msg_type, msg_flags, empty.as_slice())
}

/// A message whose data is one 32-bit value.
fn u32_message(msg_type: u16, msg_flags: u16, v: u32) -> (r: Vec<u8>)
    ensures
        r@ == spec_message(msg_type, msg_flags, le32(v)),
{
    let mut d: Vec<u8> = Vec::new();
    put_u32(v, &mut d);
    message(msg_type, msg_flags, d.as_slice())
}

/// The first of `formats` named "FileGroupDescriptorW".
fn find_file_format(formats: &Vec<(u32, String)>, Ghost(entries): Ghost<Seq<(u32, Seq<u16>)>>) -> (r: Option<u32>)
    requires
        formats@.len() == entries.len(),
        forall|i: int| 0 <= i < formats@.len() ==> (#[trigger] formats@[i]).0 == entries[i].0
            && formats@[i].1@ == utf16_decode_lossy(entries[i].1),
    ensures
        r == first_file_format(entries),
{
    let target: String = "FileGroupDescriptorW".to_owned();
    let mut i: usize = 0;
    assert(entries.skip(0) =~= entries);
    while i < formats.len()
        invariant
            i <= formats@.len(),
            formats@.len() == entries.len(),
            target@ == file_group_name(),
            forall|k: int| 0 <= k < formats@.len() ==> (#[trigger] formats@[k]).0 == entries[k].0
                && formats@[k].1@ == utf16_decode_lossy(entries[k].1),
            first_file_format(entries) == first_file_format(entries.skip(i as int)),
        decreases formats@.len() - i,
    {
        assert(entries.skip(i as int)[0] == entries[i as int]);
        assert(entries.skip(i as int).skip(1) =~= entries.skip(i as int + 1));
        if formats[i].1 == target {
            return Some(formats[i].0);
        }
        i = i + 1;
    }
    None
}

/// Whether any of `formats` is `CF_UNICODETEXT`.
fn has_unicode_text(formats: &Vec<(u32, String)>) -> (r: bool)
    ensures
        r == exists|i: int| 0 <= i < formats@.len() && #[trigger] formats@[i].0 == CF_UNICODETEXT,
{
    let mut i: usize = 0;
    while i < formats.len()
        invariant
            i <= formats@.len(),
            forall|k: int| 0 <= k < i ==> (#[trigger] formats@[k]).0 != CF_UNICODETEXT,
        decreases formats@.len() - i,
    {
        if formats[i].0 == CF_UNICODETEXT {
            return true;
        }
        i = i + 1;
    }
    false
}

impl ClipboardChannel {
    pub fn new() -> (r: Self)
        ensures
            r@ == (ClipState {
                ready: false,
                files: Seq::empty(),
                fetch_index: 0,
                fetch_buf: Seq::empty(),
                expecting: false,
                stream_id: 0,
            }),
    {
        let r = ClipboardChannel {
            ready: false,
            remote_files: Vec::new(),
            fetch_index: 0,
            fetch_buf: Vec::new(),
            expecting_descriptors: false,
            stream_id: 0,
        };
        assert(r@.files =~= Seq::<(Seq<char>, u64)>::empty());
        r
    }

    /// Whether the initial handshake (Monitor Ready) has been processed.
    pub fn is_ready(&self) -> (r: bool)
        ensures
            r == self@.ready,
    {
        self.ready
    }

    /// The File Contents Request for the next chunk of the file being
    /// downloaded, or `None` when all offered files are done.
    fn request_next_file(&mut self) -> (r: Vec<Vec<u8>>)
        ensures
            (final(self)@, msgs_view(r@)) == spec_next_request(old(self)@),
    {
        let ghost st = self@;
        if self.fetch_index >= self.remote_files.len() {
            let r: Vec<Vec<u8>> = Vec::new();
            assert(msgs_view(r@) =~= Seq::<Seq<u8>>::empty());
            return r;
        }
        let size = self.remote_files[self.fetch_index].1;
        let offset = self.fetch_buf.len() as u64;
        let rest = if size >= offset { size - offset } else { 0 };
        let len = if rest < FILE_CHUNK as u64 { rest as u32 } else { FILE_CHUNK };
        self.stream_id = if self.stream_id == 0xFFFF_FFFF { 0 } else { self.stream_id + 1 };
        let req = file_contents_request(self.stream_id, self.fetch_index as u32, offset, len);
        let mut r: Vec<Vec<u8>> = Vec::new();
        r.push(req);
        proof {
            assert(self@.files =~= st.files);
            assert(msgs_view(r@) =~= spec_next_request(st).1);
        }
        r
    }

    /// Build a Format List announcing that the local clipboard changed;
    /// `None` before the handshake.
    pub fn announce_local(&self, has_text: bool, has_files: bool) -> (r: Option<Vec<u8>>)
        ensures
            r is Some <==> self@.ready,
            r matches Some(v) ==> v@ == spec_format_list(has_text, has_files),
    {
        if self.ready {
            Some(format_list(has_text, has_files))
        } else {
            None
        }
    }
}

/// What the local clipboard answered, as the channel uses it to answer one
/// message (fields the message does not need are ignored).
pub struct ClipAnswers {
    /// The local clipboard text.
    pub text: Option<String>,
    /// The files on the local clipboard.
    pub files: Vec<ClipFile>,
    /// Whether files the session offers are to be fetched.
    pub wants: bool,
    /// The bytes read from a local file.
    pub read: Option<Vec<u8>>,
}

impl View for ClipAnswers {
    type V = ProviderAnswers;

    open spec fn view(&self) -> ProviderAnswers {
        ProviderAnswers {
            text: opt_text_view(self.text),
            files: self.files@.map_values(|f: ClipFile| clip_file_view(f)),
            wants: self.wants,
            read: opt_bytes_view(self.read),
        }
    }
}

/// What the provider must be asked before a message can be answered.
#[derive(Debug, Clone, Copy, PartialEq, Eq, Structural)]
pub enum ClipQuery {
    /// Nothing.
    Nothing,
    /// The local files, then the local text (Monitor Ready).
    Announce,
    /// Whether to fetch the files the session offers (a Format List with files).
    Wants,
    /// The local files (a Format Data Request for the file list).
    Files,
    /// The local text (a Format Data Request for anything else).
    Text,
    /// The local files, for the size of one (a File Contents Request for a size).
    FileSize,
    /// `len` bytes at `offset` of local file `index` (a File Contents Request for a range).
    FileRange { index: u32, offset: u64, len: u32 },
}

/// What a message needs from the provider.
pub open spec fn spec_query(msg: Seq<u8>) -> ClipQuery {
    if msg.len() < 8 {
        ClipQuery::Nothing
    } else {
        let t = rd16(msg, 0);
        let data = spec_payload(msg);
        if t == CB_MONITOR_READY {
            ClipQuery::Announce
        } else if t == CB_FORMAT_LIST {
            if first_file_format(format_entries(data, 0)) is Some {
                ClipQuery::Wants
            } else {
                ClipQuery::Nothing
            }
        } else if t == CB_FORMAT_DATA_REQUEST {
            if padded_u32(data, 0) == CF_FILEGROUPDESCRIPTORW {
                ClipQuery::Files
            } else {
                ClipQuery::Text
            }
        } else if t == CB_FILECONTENTS_REQUEST {
            let flags = padded_u32(data, 8);
            if flags & FILECONTENTS_SIZE != 0 {
                ClipQuery::FileSize
            } else if flags & FILECONTENTS_RANGE != 0 {
                ClipQuery::FileRange {
                    index: padded_u32(data, 4),
                    offset: ((padded_u32(data, 16) as u64) << 32u64) | (padded_u32(data, 12) as u64),
                    len: padded_u32(data, 20),
                }
            } else {
                ClipQuery::Nothing
            }
        } else {
            ClipQuery::Nothing
        }
    }
}

/// What the channel does to the local clipboard.
#[derive(Debug, Clone, PartialEq, Eq)]
pub enum ClipAction {
    /// Replace the local clipboard text.
    SetText(String),
    /// Save a file fetched from the session, by name.
    SaveFile(String, Vec<u8>),
}

/// A clipboard action as values.
pub enum ActionModel {
    SetText(Seq<char>),
    SaveFile(Seq<char>, Seq<u8>),
}

pub open spec fn action_view(a: ClipAction) -> ActionModel {
    match a {
        ClipAction::SetText(t) => ActionModel::SetText(t@),
        ClipAction::SaveFile(n, d) => ActionModel::SaveFile(n@, d@),
    }
}

pub open spec fn actions_view(r: Seq<ClipAction>) -> Seq<ActionModel> {
    r.map_values(|a: ClipAction| action_view(a))
}

/// What one inbound message does to the local clipboard: pasted text is
/// set, and a file whose bytes are all there is saved under its name.
pub open spec fn spec_actions(st: ClipState, msg: Seq<u8>) -> Seq<ActionModel> {
    if msg.len() < 8 {
        Seq::empty()
    } else {
        let t = rd16(msg, 0);
        let f = rd16(msg, 2);
        let data = spec_payload(msg);
        if t == CB_FORMAT_DATA_RESPONSE && f & CB_RESPONSE_OK != 0 && !st.expecting {
            seq![ActionModel::SetText(spec_decode_unicode(data))]
        } else if t == CB_FILECONTENTS_RESPONSE && f & CB_RESPONSE_OK != 0 {
            let chunk = if data.len() >= 4 { data.skip(4) } else { Seq::empty() };
            let buf = st.fetch_buf + chunk;
            if st.fetch_index < st.files.len() && buf.len() >= st.files[st.fetch_index as int].1 {
                seq![ActionModel::SaveFile(st.files[st.fetch_index as int].0, buf)]
            } else {
                Seq::empty()
            }
        } else {
            Seq::empty()
        }
    }
}

/// What `msg` needs from the provider (see [`spec_query`]).
pub fn query(msg: &[u8]) -> (r: ClipQuery)
    ensures
        r == spec_query(msg@),
{
    if msg.len() < 8 {
        return ClipQuery::Nothing;
    }
    let msg_type = get_u16(msg, 0);
    let data = payload(msg);
    if msg_type == CB_MONITOR_READY {
        ClipQuery::Announce
    } else if msg_type == CB_FORMAT_LIST {
        let formats = parse_format_list(data);
        let ghost entries = format_entries(data@, 0);
        match find_file_format(&formats, Ghost(entries)) {
            Some(_) => ClipQuery::Wants,
            None => ClipQuery::Nothing,
        }
    } else if msg_type == CB_FORMAT_DATA_REQUEST {
        if padded_u32_at(data, 0) == CF_FILEGROUPDESCRIPTORW {
            ClipQuery::Files
        } else {
            ClipQuery::Text
        }
    } else if msg_type == CB_FILECONTENTS_REQUEST {
        let flags = padded_u32_at(data, 8);
        if flags & FILECONTENTS_SIZE != 0 {
            ClipQuery::FileSize
        } else if flags & FILECONTENTS_RANGE != 0 {
            let index = padded_u32_at(data, 4);
            let lo = padded_u32_at(data, 12);
            let hi = padded_u32_at(data, 16);
            let len = padded_u32_at(data, 20);
            ClipQuery::FileRange { index, offset: ((hi as u64) << 32u64) | (lo as u64), len }
        } else {
            ClipQuery::Nothing
        }
    } else {
        ClipQuery::Nothing
    }
}

impl ClipboardChannel {
    /// Monitor Ready: the handshake is done; announce capabilities and what
    /// the local clipboard holds.
    fn on_monitor_ready(&mut self, answers: &ClipAnswers) -> (r: Vec<Vec<u8>>)
        ensures
            final(self)@ == (ClipState { ready: true, ..old(self)@ }),
            msgs_view(r@) == seq![
                spec_message(CB_CLIP_CAPS, 0, spec_capability_data()),
                spec_format_list(answers@.text is Some, answers@.files.len() > 0),
            ],
    {
        self.ready = true;
        let has_files = answers.files.len() > 0;
        let has_text = answers.text.is_some();
        let mut out: Vec<Vec<u8>> = Vec::new();
        out.push(capabilities());
        out.push(format_list(has_text, has_files));
        assert(msgs_view(out@) =~= seq![
            spec_message(CB_CLIP_CAPS, 0, spec_capability_data()),
            spec_format_list(answers@.text is Some, answers@.files.len() > 0),
        ]);
        out
    }

    /// A Format List from the peer (see [`spec_on_format_list`]).
    fn on_format_list(&mut self, data: &[u8], wants: bool) -> (r: Vec<Vec<u8>>)
        ensures
            (final(self)@, msgs_view(r@)) == spec_on_format_list(old(self)@, data@, wants),
    {
        let ghost st = self@;
        let mut out: Vec<Vec<u8>> = Vec::new();
        out.push(bare_message(CB_FORMAT_LIST_RESPONSE, CB_RESPONSE_OK));
        let formats = parse_format_list(data);
        let ghost entries = format_entries(data@, 0);
        let file_fmt = find_file_format(&formats, Ghost(entries));
        if let Some(id) = file_fmt {
            if wants {
                self.expecting_descriptors = true;
                self.remote_files.clear();
                self.fetch_index = 0;
                self.fetch_buf.clear();
                out.push(u32_message(CB_FORMAT_DATA_REQUEST, 0, id));
                proof {
                    assert(self@.files =~= Seq::<(Seq<char>, u64)>::empty());
                    assert(self@ == (ClipState { expecting: true, files: Seq::empty(), fetch_index: 0, fetch_buf: Seq::empty(), ..st }));
                    assert(msgs_view(out@) =~= spec_on_format_list(st, data@, true).1);
                }
                return out;
            }
        }
        let any_text = has_unicode_text(&formats);
        let has_text = any_text || (formats.len() == 0 && data.len() > 0);
        proof {
            if any_text {
                let i = choose|i: int| 0 <= i < formats@.len() && #[trigger] formats@[i].0 == CF_UNICODETEXT;
                assert(entries[i].0 == CF_UNICODETEXT);
            }
            if exists|i: int| 0 <= i < entries.len() && #[trigger] entries[i].0 == CF_UNICODETEXT {
                let i = choose|i: int| 0 <= i < entries.len() && #[trigger] entries[i].0 == CF_UNICODETEXT;
                assert(formats@[i].0 == CF_UNICODETEXT);
            }
        }
        if has_text {
            out.push(u32_message(CB_FORMAT_DATA_REQUEST, 0, CF_UNICODETEXT));
        }
        assert(msgs_view(out@) =~= spec_on_format_list(st, data@, wants).1);
        out
    }

    /// A Format Data Request: answer with the file list or the text.
    fn on_data_request(&self, data: &[u8], answers: &ClipAnswers) -> (r: Vec<Vec<u8>>)
        ensures
            msgs_view(r@) == spec_data_request_reply(data@, answers@),
    {
        let format_id = padded_u32_at(data, 0);
        let mut out: Vec<Vec<u8>> = Vec::new();
        if format_id == CF_FILEGROUPDESCRIPTORW {
            if answers.files.len() == 0 {
                out.push(bare_message(CB_FORMAT_DATA_RESPONSE, CB_RESPONSE_FAIL));
            } else {
                let d = file_group_descriptor(answers.files.as_slice());
                out.push(message(CB_FORMAT_DATA_RESPONSE, CB_RESPONSE_OK, d.as_slice()));
            }
        } else {
            match &answers.text {
                Some(t) => {
                    let d = unicode_response(t.as_str());
                    out.push(message(CB_FORMAT_DATA_RESPONSE, CB_RESPONSE_OK, d.as_slice()));
                },
                None => {
                    out.push(bare_message(CB_FORMAT_DATA_RESPONSE, CB_RESPONSE_FAIL));
                },
            }
        }
        assert(msgs_view(out@) =~= spec_data_request_reply(data@, answers@));
        out
    }

    /// A Format Data Response (see [`spec_on_data_response`]); pasted text
    /// becomes an action.
    fn on_data_response(&mut self, flags: u16, data: &[u8]) -> (r: (Vec<Vec<u8>>, Vec<ClipAction>))
        ensures
            (final(self)@, msgs_view(r.0@)) == spec_on_data_response(old(self)@, flags, data@),
            actions_view(r.1@) == (if flags & CB_RESPONSE_OK != 0 && !old(self)@.expecting {
                seq![ActionModel::SetText(spec_decode_unicode(data@))]
            } else {
                Seq::empty()
            }),
    {
        let ghost st = self@;
        let mut actions: Vec<ClipAction> = Vec::new();
        if flags & CB_RESPONSE_OK == 0 {
            self.expecting_descriptors = false;
            let r: Vec<Vec<u8>> = Vec::new();
            assert(self@.files =~= st.files);
            assert(msgs_view(r@) =~= Seq::<Seq<u8>>::empty());
            assert(actions_view(actions@) =~= Seq::<ActionModel>::empty());
            return (r, actions);
        }
        if self.expecting_descriptors {
            self.expecting_descriptors = false;
            self.remote_files = parse_file_descriptors(data);
            self.fetch_index = 0;
            self.fetch_buf.clear();
            proof {
                let files = Seq::new(
                    descriptor_count(data@),
                    |i: int| (utf16_decode_lossy(descriptor_at(data@, i as nat).0), descriptor_at(data@, i as nat).1),
                );
                assert(self@.files =~= files);
                assert(self@ == (ClipState { expecting: false, files: files, fetch_index: 0, fetch_buf: Seq::empty(), ..st }));
            }
            let r = self.request_next_file();
            assert(actions_view(actions@) =~= Seq::<ActionModel>::empty());
            return (r, actions);
        }
        let text = decode_unicode(data);
        actions.push(ClipAction::SetText(text));
        let r: Vec<Vec<u8>> = Vec::new();
        assert(msgs_view(r@) =~= Seq::<Seq<u8>>::empty());
        assert(actions_view(actions@) =~= seq![ActionModel::SetText(spec_decode_unicode(data@))]);
        (r, actions)
    }

    /// A File Contents Response (see [`spec_on_contents_response`]); a
    /// complete file becomes an action.
    fn on_contents_response(&mut self, flags: u16, data: &[u8]) -> (r: (Vec<Vec<u8>>, Vec<ClipAction>))
        ensures
            (final(self)@, msgs_view(r.0@)) == spec_on_contents_response(old(self)@, flags, data@),
            actions_view(r.1@) == (if flags & CB_RESPONSE_OK != 0 {
                let chunk = if data@.len() >= 4 { data@.skip(4) } else { Seq::empty() };
                let buf = old(self)@.fetch_buf + chunk;
                if old(self)@.fetch_index < old(self)@.files.len() && buf.len() >= old(self)@.files[old(self)@.fetch_index as int].1 {
                    seq![ActionModel::SaveFile(old(self)@.files[old(self)@.fetch_index as int].0, buf)]
                } else {
                    Seq::empty()
                }
            } else {
                Seq::empty()
            }),
    {
        let ghost st = self@;
        let mut actions: Vec<ClipAction> = Vec::new();
        if flags & CB_RESPONSE_OK != 0 {
            if data.len() >= 4 {
                push_all(&mut self.fetch_buf, crate::bytes::skip(data, 4));
            }
            let ghost chunk = if data@.len() >= 4 { data@.skip(4) } else { Seq::<u8>::empty() };
            assert(self.fetch_buf@ =~= st.fetch_buf + chunk);
            if self.fetch_index < self.remote_files.len() {
                let size = self.remote_files[self.fetch_index].1;
                if self.fetch_buf.len() as u64 >= size {
                    let name = self.remote_files[self.fetch_index].0.clone();
                    let bytes = crate::bytes::to_vec(self.fetch_buf.as_slice());
                    actions.push(ClipAction::SaveFile(name, bytes));
                    self.fetch_index = self.fetch_index + 1;
                    self.fetch_buf.clear();
                }
            }
            proof {
                assert(self@.files =~= st.files);
                assert(actions_view(actions@) =~= (if st.fetch_index < st.files.len()
                    && (st.fetch_buf + chunk).len() >= st.files[st.fetch_index as int].1 {
                    seq![ActionModel::SaveFile(st.files[st.fetch_index as int].0, st.fetch_buf + chunk)]
                } else {
                    Seq::<ActionModel>::empty()
                }));
            }
            let r = self.request_next_file();
            return (r, actions);
        }
        self.remote_files.clear();
        let r: Vec<Vec<u8>> = Vec::new();
        assert(self@.files =~= Seq::<(Seq<char>, u64)>::empty());
        assert(msgs_view(r@) =~= Seq::<Seq<u8>>::empty());
        assert(actions_view(actions@) =~= Seq::<ActionModel>::empty());
        (r, actions)
    }

    /// A File Contents Request: answer with a file's size or a range of its
    /// bytes.
    fn on_contents_request(&self, data: &[u8], answers: &ClipAnswers) -> (r: Vec<Vec<u8>>)
        ensures
            msgs_view(r@) == spec_contents_request_reply(data@, answers@),
    {
        let stream_id = padded_u32_at(data, 0);
        let index = padded_u32_at(data, 4);
        let flags = padded_u32_at(data, 8);
        let mut body: Vec<u8> = Vec::new();
        put_u32(stream_id, &mut body);
        let mut out: Vec<Vec<u8>> = Vec::new();
        if flags & FILECONTENTS_SIZE != 0 {
            let size: u64 = if (index as usize) < answers.files.len() { answers.files[index as usize].size } else { 0 };
            put_u64(size, &mut body);
            out.push(message(CB_FILECONTENTS_RESPONSE, CB_RESPONSE_OK, body.as_slice()));
        } else if flags & FILECONTENTS_RANGE != 0 {
            match &answers.read {
                Some(bytes) => {
                    push_all(&mut body, bytes.as_slice());
                    out.push(message(CB_FILECONTENTS_RESPONSE, CB_RESPONSE_OK, body.as_slice()));
                },
                None => {
                    out.push(message(CB_FILECONTENTS_RESPONSE, CB_RESPONSE_FAIL, body.as_slice()));
                },
            }
        } else {
            out.push(message(CB_FILECONTENTS_RESPONSE, CB_RESPONSE_FAIL, body.as_slice()));
        }
        assert(msgs_view(out@) =~= spec_contents_request_reply(data@, answers@));
        out
    }

    /// Answer one complete inbound CLIPRDR message given what the local
    /// clipboard answered: the messages to send back (already framed) and
    /// what to do to the local clipboard.
    pub fn step(&mut self, msg: &[u8], answers: &ClipAnswers) -> (r: (Vec<Vec<u8>>, Vec<ClipAction>))
        ensures
            (final(self)@, msgs_view(r.0@)) == spec_process(old(self)@, msg@, answers@),
            actions_view(r.1@) == spec_actions(old(self)@, msg@),
    {
        let ghost st = self@;
        let mut none: Vec<ClipAction> = Vec::new();
        assert(actions_view(none@) =~= Seq::<ActionModel>::empty());
        if msg.len() < 8 {
            let r: Vec<Vec<u8>> = Vec::new();
            assert(msgs_view(r@) =~= Seq::<Seq<u8>>::empty());
            return (r, none);
        }
        let msg_type = get_u16(msg, 0);
        let msg_flags = get_u16(msg, 2);
        let data = payload(msg);
        if msg_type == CB_MONITOR_READY {
            let out = self.on_monitor_ready(answers);
            assert(self@.files =~= st.files);
            (out, none)
        } else if msg_type == CB_FORMAT_LIST {
            let out = self.on_format_list(data, answers.wants);
            (out, none)
        } else if msg_type == CB_FORMAT_DATA_REQUEST {
            let out = self.on_data_request(data, answers);
            (out, none)
        } else if msg_type == CB_FORMAT_DATA_RESPONSE {
            self.on_data_response(msg_flags, data)
        } else if msg_type == CB_FILECONTENTS_RESPONSE {
            self.on_contents_response(msg_flags, data)
        } else if msg_type == CB_FILECONTENTS_REQUEST {
            let out = self.on_contents_request(data, answers);
            (out, none)
        } else {
            let r: Vec<Vec<u8>> = Vec::new();
            assert(msgs_view(r@) =~= Seq::<Seq<u8>>::empty());
            (r, none)
        }
    }

    /// Process one complete inbound CLIPRDR message, returning the messages
    /// to send back (already CLIPRDR-framed): ask the provider what
    /// [`query`] names, answer with [`ClipboardChannel::step`], and carry out
    /// its actions on the provider.
    pub fn process<P: ClipboardProvider + ?Sized>(&mut self, msg: &[u8], provider: &mut P) -> (r: Vec<Vec<u8>>)
        ensures
            exists|a: ProviderAnswers| (final(self)@, msgs_view(r@)) == #[trigger] spec_process(old(self)@, msg@, a),
            final(provider).received() == old(provider).received() + spec_actions(old(self)@, msg@),
    {
        let ghost before = provider.received();
        let mut answers = ClipAnswers { text: None, files: Vec::new(), wants: false, read: None };
        match query(msg) {
            ClipQuery::Nothing => {},
            ClipQuery::Announce => {
                answers.files = provider.get_files();
                answers.text = provider.get_text();
            },
            ClipQuery::Wants => {
                answers.wants = provider.wants_remote_files();
            },
            ClipQuery::Files => {
                answers.files = provider.get_files();
            },
            ClipQuery::Text => {
                answers.text = provider.get_text();
            },
            ClipQuery::FileSize => {
                answers.files = provider.get_files();
            },
            ClipQuery::FileRange { index, offset, len } => {
                answers.read = provider.read_file(index, offset, len);
            },
        }
        assert(provider.received() == before);
        let (out, actions) = self.step(msg, &answers);
        let mut i: usize = 0;
        assert(actions_view(actions@).take(0) =~= Seq::<ActionModel>::empty());
        assert(before + Seq::<ActionModel>::empty() =~= before);
        while i < actions.len()
            invariant
                i <= actions@.len(),
                provider.received() == before + actions_view(actions@).take(i as int),
            decreases actions@.len() - i,
        {
            match &actions[i] {
                ClipAction::SetText(t) => provider.set_text(t.as_str()),
                ClipAction::SaveFile(name, bytes) => provider.save_remote_file(name.as_str(), bytes.as_slice()),
            }
            assert(actions_view(actions@).take(i + 1) =~= actions_view(actions@).take(i as int).push(action_view(actions@[i as int])));
            i = i + 1;
        }
        assert(actions_view(actions@).take(i as int) =~= actions_view(actions@));
        out
    }
}


impl Default for ClipboardChannel {
    fn default() -> (r: Self)
        ensures
            r@ == (ClipState {
                ready: false,
                files: Seq::empty(),
                fetch_index: 0,
                fetch_buf: Seq::empty(),
                expecting: false,
                stream_id: 0,
            }),
    {
        Self::new()
    }
}

} // verus!
