//! AVC420 / AVC444 bitstream framing for the EGFX H.264 path, and H.264
//! Annex-B NAL-unit splitting.
//!
//! An `RFX_AVC420_BITMAP_STREAM` is a region metablock (dirty rectangles and
//! their per-region QP/quality) followed by the raw H.264 bitstream. An
//! `RFX_AVC444_BITMAP_STREAM` starts with a 32-bit word whose top two bits
//! select which luma/chroma sub-streams are present and whose low 30 bits give
//! the first one's length, then one or two AVC420 streams.
use vstd::prelude::*;
use crate::bytes::{rd16, rd32, get_u16, get_u32};

verus! {

/// A dirty rectangle (RDPGFX_RECT16): right and bottom exclusive.
#[derive(Debug, Clone, Copy, PartialEq, Eq, Structural)]
pub struct Rect {
    pub left: u16,
    pub top: u16,
    pub right: u16,
    pub bottom: u16,
}

/// Per-region quantization parameter and quality.
#[derive(Debug, Clone, Copy, PartialEq, Eq, Structural)]
pub struct QuantQuality {
    pub qp: u8,
    pub quality: u8,
}

/// A parsed AVC420 stream: its region metadata and the H.264 payload.
#[derive(Debug, Clone, PartialEq, Eq)]
pub struct Avc420Stream<'a> {
    pub rects: Vec<Rect>,
    pub quants: Vec<QuantQuality>,
    pub h264: &'a [u8],
}

/// The AVC444 luma/chroma stream selector (top two bits of the first word).
#[derive(Debug, Clone, Copy, PartialEq, Eq, Structural)]
pub enum Avc444Lc {
    /// Both sub-streams (stream 1 luma, stream 2 chroma).
    Both,
    /// Luma sub-stream only.
    LumaOnly,
    /// Chroma sub-stream only.
    ChromaOnly,
}

/// A parsed AVC444 stream: the selector and one or two AVC420 sub-streams.
#[derive(Debug, Clone, PartialEq, Eq)]
pub struct Avc444Stream<'a> {
    pub lc: Avc444Lc,
    pub stream1: Avc420Stream<'a>,
    pub stream2: Option<Avc420Stream<'a>>,
}

/// Region rectangle `i` of a metablock.
pub open spec fn rect_at(buf: Seq<u8>, i: int) -> Rect {
    let o = 4 + 8 * i;
    Rect { left: rd16(buf, o), top: rd16(buf, o + 2), right: rd16(buf, o + 4), bottom: rd16(buf, o + 6) }
}

/// Quantization entry `i` of a metablock with `count` regions.
pub open spec fn quant_at(buf: Seq<u8>, count: int, i: int) -> QuantQuality {
    let o = 4 + 8 * count + 2 * i;
    QuantQuality { qp: buf[o], quality: buf[o + 1] }
}

/// An AVC420 stream parses when the region count and all its rectangles
/// and quantization entries are present.
pub open spec fn avc420_ok(buf: Seq<u8>) -> bool {
    buf.len() >= 4 && 4 + 10 * rd32(buf, 0) <= buf.len()
}

/// The parsed stream `s` is what `buf` holds.
pub open spec fn avc420_matches(s: Avc420Stream, buf: Seq<u8>) -> bool {
    let c = rd32(buf, 0) as int;
    &&& s.rects@.len() == c
    &&& s.quants@.len() == c
    &&& forall|i: int| 0 <= i < c ==> #[trigger] s.rects@[i] == rect_at(buf, i)
    &&& forall|i: int| 0 <= i < c ==> #[trigger] s.quants@[i] == quant_at(buf, c, i)
    &&& s.h264@ == buf.skip(4 + 10 * c)
}

/// Parse an `RFX_AVC420_BITMAP_STREAM`: the metablock followed by H.264.
pub fn parse_avc420(buf: &[u8]) -> (r: Option<Avc420Stream<'_>>)
    ensures
        r is Some <==> avc420_ok(buf@),
        r matches Some(s) ==> avc420_matches(s, buf@),
{
    if buf.len() < 4 {
        return None;
    }
    let count = get_u32(buf, 0) as usize;
    let mut off: usize = 4;
    let mut rects: Vec<Rect> = Vec::new();
    let mut i: usize = 0;
    while i < count
        invariant
            buf@.len() >= 4,
            count == rd32(buf@, 0),
            i <= count,
            off == 4 + 8 * i,
            off <= buf@.len(),
            rects@.len() == i,
            forall|k: int| 0 <= k < i ==> #[trigger] rects@[k] == rect_at(buf@, k),
        decreases count - i,
    {
        if buf.len() - off < 8 {
            return None;
        }
        rects.push(Rect {
            left: get_u16(buf, off),
            top: get_u16(buf, off + 2),
            right: get_u16(buf, off + 4),
            bottom: get_u16(buf, off + 6),
        });
        off = off + 8;
        i = i + 1;
    }
    let mut quants: Vec<QuantQuality> = Vec::new();
    let mut j: usize = 0;
    while j < count
        invariant
            buf@.len() >= 4,
            count == rd32(buf@, 0),
            j <= count,
            off == 4 + 8 * count + 2 * j,
            off <= buf@.len(),
            quants@.len() == j,
            forall|k: int| 0 <= k < j ==> #[trigger] quants@[k] == quant_at(buf@, count as int, k),
        decreases count - j,
    {
        if buf.len() - off < 2 {
            return None;
        }
        quants.push(QuantQuality { qp: buf[off], quality: buf[off + 1] });
        off = off + 2;
        j = j + 1;
    }
    let h264 = crate::bytes::skip(buf, off);
    Some(Avc420Stream { rects, quants, h264 })
}

/// The selector of an AVC444 first word, `None` for the reserved value.
pub open spec fn spec_lc(word: u32) -> Option<Avc444Lc> {
    if word >> 30u32 == 0 {
        Some(Avc444Lc::Both)
    } else if word >> 30u32 == 1 {
        Some(Avc444Lc::LumaOnly)
    } else if word >> 30u32 == 2 {
        Some(Avc444Lc::ChromaOnly)
    } else {
        None
    }
}

/// An AVC444 stream parses when the selector is valid, the first stream's
/// bytes are present and parse, and with both sub-streams the rest parses.
pub open spec fn avc444_ok(buf: Seq<u8>) -> bool {
    let word = rd32(buf, 0);
    let len1 = (word & 0x3FFF_FFFF) as int;
    &&& buf.len() >= 4
    &&& spec_lc(word) is Some
    &&& 4 + len1 <= buf.len()
    &&& avc420_ok(buf.subrange(4, 4 + len1))
    &&& (spec_lc(word) == Some(Avc444Lc::Both) ==> avc420_ok(buf.skip(4 + len1)))
}

/// Parse an `RFX_AVC444_BITMAP_STREAM`.
pub fn parse_avc444(buf: &[u8]) -> (r: Option<Avc444Stream<'_>>)
    ensures
        r is Some <==> avc444_ok(buf@),
        r matches Some(s) ==> {
            let word = rd32(buf@, 0);
            let len1 = (word & 0x3FFF_FFFF) as int;
            &&& Some(s.lc) == spec_lc(word)
            &&& avc420_matches(s.stream1, buf@.subrange(4, 4 + len1))
            &&& match s.stream2 {
                Some(s2) => s.lc == Avc444Lc::Both && avc420_matches(s2, buf@.skip(4 + len1)),
                None => s.lc != Avc444Lc::Both,
            }
        },
{
    if buf.len() < 4 {
        return None;
    }
    let word = get_u32(buf, 0);
    let len1 = (word & 0x3FFF_FFFF) as usize;
    let top = word >> 30u32;
    let lc = if top == 0 {
        Avc444Lc::Both
    } else if top == 1 {
        Avc444Lc::LumaOnly
    } else if top == 2 {
        Avc444Lc::ChromaOnly
    } else {
        return None;
    };
    if buf.len() - 4 < len1 {
        return None;
    }
    let stream1 = match parse_avc420(crate::bytes::range(buf, 4, 4 + len1)) {
        Some(s) => s,
        None => return None,
    };
    let stream2 = if let Avc444Lc::Both = lc {
        match parse_avc420(crate::bytes::skip(buf, 4 + len1)) {
            Some(s) => Some(s),
            None => return None,
        }
    } else {
        None
    };
    Some(Avc444Stream { lc, stream1, stream2 })
}

/// Whether an Annex-B start code `00 00 01` begins at `i`.
pub open spec fn start_code_at(h: Seq<u8>, i: int) -> bool {
    i + 3 <= h.len() && h[i] == 0 && h[i + 1] == 0 && h[i + 2] == 1
}

/// The start-code offsets found scanning from `i` (a match skips its three
/// bytes).
pub open spec fn start_codes_from(h: Seq<u8>, i: nat) -> Seq<nat>
    decreases h.len() - i,
{
    if i + 3 > h.len() {
        Seq::empty()
    } else if start_code_at(h, i as int) {
        seq![i] + start_codes_from(h, i + 3)
    } else {
        start_codes_from(h, i + 1)
    }
}

/// Where NAL unit `k` ends: before the next start code, less the zero byte
/// of a four-byte start code; the last one runs to the end.
pub open spec fn nal_end(h: Seq<u8>, starts: Seq<nat>, k: int) -> int {
    if k + 1 < starts.len() {
        let next = starts[k + 1] as int;
        if next > starts[k] + 3 && h[next - 1] == 0 {
            next - 1
        } else {
            next
        }
    } else {
        h.len() as int
    }
}

/// The NAL units of an Annex-B stream, without start codes; bytes before the
/// first start code are ignored.
pub open spec fn spec_nal_units(h: Seq<u8>) -> Seq<Seq<u8>> {
    let starts = start_codes_from(h, 0);
    Seq::new(starts.len(), |k: int| h.subrange((starts[k] + 3) as int, nal_end(h, starts, k)))
}

proof fn lemma_start_codes_bounds(h: Seq<u8>, i: nat)
    ensures
        forall|k: int| 0 <= k < start_codes_from(h, i).len() ==> i <= #[trigger] start_codes_from(h, i)[k]
            && start_codes_from(h, i)[k] + 3 <= h.len(),
        forall|k: int, l: int| 0 <= k < l < start_codes_from(h, i).len() ==> start_codes_from(h, i)[k] + 3
            <= #[trigger] start_codes_from(h, i)[l] && #[trigger] start_codes_from(h, i)[k] < start_codes_from(h, i)[l],
    decreases h.len() - i,
{
    if i + 3 <= h.len() {
        if start_code_at(h, i as int) {
            let rest = start_codes_from(h, i + 3);
            lemma_start_codes_bounds(h, i + 3);
            let s = start_codes_from(h, i);
            assert(s == seq![i] + rest);
            assert forall|k: int| 0 <= k < s.len() implies i <= #[trigger] s[k] && s[k] + 3 <= h.len() by {
                if k > 0 {
                    assert(s[k] == rest[k - 1]);
                }
            }
            assert forall|k: int, l: int| 0 <= k < l < s.len() implies s[k] + 3 <= #[trigger] s[l] && #[trigger] s[k] < s[l] by {
                assert(s[l] == rest[l - 1]);
                if k > 0 {
                    assert(s[k] == rest[k - 1]);
                }
            }
        } else {
            lemma_start_codes_bounds(h, i + 1);
            assert(start_codes_from(h, i) == start_codes_from(h, i + 1));
        }
    }
}

/// Split an H.264 Annex-B byte stream into its NAL units (without the 3- or
/// 4-byte start codes). Bytes before the first start code are ignored.
pub fn nal_units(h264: &[u8]) -> (r: Vec<&[u8]>)
    ensures
        r@.len() == spec_nal_units(h264@).len(),
        forall|k: int| 0 <= k < r@.len() ==> (#[trigger] r@[k])@ == spec_nal_units(h264@)[k],
{
    let ghost all = start_codes_from(h264@, 0);
    let mut starts: Vec<usize> = Vec::new();
    let mut i: usize = 0;
    while h264.len() >= 3 && i <= h264.len() - 3
        invariant
            i <= h264@.len(),
            all == start_codes_from(h264@, 0),
            starts@.map_values(|x: usize| x as nat) + start_codes_from(h264@, i as nat) == all,
        decreases h264@.len() - i,
    {
        if h264[i] == 0 && h264[i + 1] == 0 && h264[i + 2] == 1 {
            proof {
                assert(starts@.push(i).map_values(|x: usize| x as nat) =~= starts@.map_values(|x: usize| x as nat).push(i as nat));
                assert(starts@.map_values(|x: usize| x as nat).push(i as nat) + start_codes_from(h264@, i as nat + 3)
                    =~= starts@.map_values(|x: usize| x as nat) + start_codes_from(h264@, i as nat));
            }
            starts.push(i);
            i = i + 3;
        } else {
            i = i + 1;
        }
    }
    proof {
        assert(start_codes_from(h264@, i as nat) =~= Seq::<nat>::empty());
        assert(starts@.map_values(|x: usize| x as nat) =~= all);
        lemma_start_codes_bounds(h264@, 0);
    }
    let mut nals: Vec<&[u8]> = Vec::new();
    let mut idx: usize = 0;
    while idx < starts.len()
        invariant
            idx <= starts@.len(),
            all == start_codes_from(h264@, 0),
            starts@.len() == all.len(),
            forall|k: int| 0 <= k < starts@.len() ==> starts@[k] as nat == #[trigger] all[k],
            forall|k: int| 0 <= k < all.len() ==> 0 <= #[trigger] all[k] && all[k] + 3 <= h264@.len(),
            forall|k: int, l: int| 0 <= k < l < all.len() ==> all[k] + 3 <= #[trigger] all[l] && #[trigger] all[k] < all[l],
            nals@.len() == idx,
            forall|k: int| 0 <= k < idx ==> (#[trigger] nals@[k])@ == spec_nal_units(h264@)[k],
        decreases starts@.len() - idx,
    {
        assert(starts@[idx as int] as nat == all[idx as int]);
        assert(starts@[idx as int] + 3 <= h264.len());
        let payload = starts[idx] + 3;
        let end = if idx + 1 < starts.len() {
            let next_sc = starts[idx + 1];
            assert(starts@[idx as int + 1] as nat == all[idx as int + 1]);
            if next_sc > payload && h264[next_sc - 1] == 0 {
                next_sc - 1
            } else {
                next_sc
            }
        } else {
            h264.len()
        };
        assert(end as int == nal_end(h264@, all, idx as int));
        let nal = crate::bytes::range(h264, payload, end);
        nals.push(nal);
        idx = idx + 1;
    }
    nals
}

/// The Annex-B stream that carries each of `units`, in order, after a
/// four-byte start code `00 00 00 01`, as H.264 encoders emit them.
pub open spec fn annex_b(units: Seq<Seq<u8>>) -> Seq<u8>
    decreases units.len(),
{
    if units.len() == 0 {
        Seq::empty()
    } else {
        annex_b(units.drop_last()) + seq![0u8, 0u8, 0u8, 1u8] + units.last()
    }
}

/// Where the start code of unit `j` begins in `annex_b(units)`.
spec fn unit_base(units: Seq<Seq<u8>>, j: int) -> int {
    annex_b(units.take(j)).len() as int
}

proof fn lemma_annex_b_prefix(u: Seq<Seq<u8>>, j: int)
    requires
        0 <= j <= u.len(),
    ensures
        annex_b(u.take(j)).len() <= annex_b(u).len(),
        annex_b(u).subrange(0, annex_b(u.take(j)).len() as int) == annex_b(u.take(j)),
    decreases u.len(),
{
    if j == u.len() {
        assert(u.take(j) =~= u);
        assert(annex_b(u).subrange(0, annex_b(u).len() as int) =~= annex_b(u));
    } else {
        let d = u.drop_last();
        assert(u.take(j) =~= d.take(j));
        lemma_annex_b_prefix(d, j);
        let a = annex_b(d);
        let l = annex_b(d.take(j)).len() as int;
        assert(annex_b(u) == a + seq![0u8, 0u8, 0u8, 1u8] + u.last());
        assert(annex_b(u).subrange(0, l) =~= a.subrange(0, l));
    }
}

/// Unit `j` of `annex_b(u)`: its start code, then its bytes.
proof fn lemma_annex_b_unit(u: Seq<Seq<u8>>, j: int)
    requires
        0 <= j < u.len(),
    ensures
        unit_base(u, j + 1) == unit_base(u, j) + 4 + u[j].len(),
        unit_base(u, j + 1) <= annex_b(u).len(),
        annex_b(u)[unit_base(u, j)] == 0,
        annex_b(u)[unit_base(u, j) + 1] == 0,
        annex_b(u)[unit_base(u, j) + 2] == 0,
        annex_b(u)[unit_base(u, j) + 3] == 1,
        annex_b(u).subrange(unit_base(u, j) + 4, unit_base(u, j + 1)) == u[j],
{
    let h = annex_b(u);
    let t = u.take(j + 1);
    lemma_annex_b_prefix(u, j + 1);
    assert(t.drop_last() =~= u.take(j));
    assert(t.last() == u[j]);
    let a = annex_b(t);
    let b = unit_base(u, j);
    assert(a == annex_b(u.take(j)) + seq![0u8, 0u8, 0u8, 1u8] + u[j]);
    assert(h.subrange(0, a.len() as int) == a);
    assert(h[b] == a[b]);
    assert(h[b + 1] == a[b + 1]);
    assert(h[b + 2] == a[b + 2]);
    assert(h[b + 3] == a[b + 3]);
    assert(h.subrange(b + 4, unit_base(u, j + 1)) =~= u[j]) by {
        assert forall|r: int| 0 <= r < u[j].len() implies h.subrange(b + 4, unit_base(u, j + 1))[r] == u[j][r] by {
            assert(h[b + 4 + r] == a[b + 4 + r]);
        }
    }
}

/// Scanning across positions that begin no start code finds nothing.
proof fn lemma_no_start_codes(h: Seq<u8>, a: nat, b: nat)
    requires
        a <= b,
        forall|q: int| a <= q < b ==> !start_code_at(h, q),
    ensures
        start_codes_from(h, a) == start_codes_from(h, b),
    decreases b - a,
{
    if a < b {
        if a + 3 > h.len() {
            assert(start_codes_from(h, a) == Seq::<nat>::empty());
            assert(start_codes_from(h, b) == Seq::<nat>::empty());
        } else {
            assert(!start_code_at(h, a as int));
            lemma_no_start_codes(h, a + 1, b);
        }
    }
}

/// Payloads that split back out of `annex_b`: none holds a start code, and
/// none but the last ends in a zero byte.
pub open spec fn splittable_units(units: Seq<Seq<u8>>) -> bool {
    &&& forall|j: int, q: int| 0 <= j < units.len() ==> !#[trigger] start_code_at(units[j], q)
    &&& forall|j: int| 0 <= j < units.len() - 1 && #[trigger] units[j].len() > 0 ==> units[j].last() != 0
}

/// From the start code of unit `i` on, the scan finds exactly the start
/// codes `00 00 01` of units `i..`, each one byte into its four-byte code.
proof fn lemma_annex_b_starts(u: Seq<Seq<u8>>, i: int)
    requires
        0 <= i <= u.len(),
        splittable_units(u),
    ensures
        start_codes_from(annex_b(u), unit_base(u, i) as nat) == Seq::new(
            (u.len() - i) as nat,
            |j: int| (unit_base(u, i + j) + 1) as nat,
        ),
    decreases u.len() - i,
{
    let h = annex_b(u);
    if i == u.len() {
        assert(u.take(i) =~= u);
        assert(start_codes_from(h, unit_base(u, i) as nat) =~= Seq::new(
            (u.len() - i) as nat,
            |j: int| (unit_base(u, i + j) + 1) as nat,
        ));
    } else {
        let b = unit_base(u, i);
        let nb = unit_base(u, i + 1);
        let n = u[i];
        lemma_annex_b_unit(u, i);
        lemma_annex_b_starts(u, i + 1);
        if i + 1 < u.len() {
            lemma_annex_b_unit(u, i + 1);
        } else {
            assert(u.take(i + 1) =~= u);
        }
        assert(!start_code_at(h, b));
        assert(start_codes_from(h, b as nat) == start_codes_from(h, (b + 1) as nat));
        assert(start_code_at(h, b + 1));
        assert(start_codes_from(h, (b + 1) as nat) == seq![(b + 1) as nat] + start_codes_from(h, (b + 4) as nat));
        assert forall|q: int| b + 4 <= q < nb implies !start_code_at(h, q) by {
            let sub = h.subrange(b + 4, nb);
            if q + 3 <= nb {
                let r = q - (b + 4);
                assert(sub[r] == h[q] && sub[r + 1] == h[q + 1] && sub[r + 2] == h[q + 2]);
                assert(!start_code_at(n, r));
            } else if i + 1 < u.len() {
                assert(n.last() == sub[n.len() - 1]);
                assert(n.last() == h[nb - 1]);
                assert(h[nb] == 0);
            }
        }
        lemma_no_start_codes(h, (b + 4) as nat, nb as nat);
        assert(start_codes_from(h, b as nat) =~= Seq::new(
            (u.len() - i) as nat,
            |j: int| (unit_base(u, i + j) + 1) as nat,
        ));
    }
}

/// Splitting an Annex-B stream built from four-byte start codes gives back
/// exactly the payloads it was built from, in order: no unit keeps a byte of
/// the following start code, provided no payload holds a start code and none
/// but the last ends in a zero byte.
pub proof fn lemma_nal_units_of_annex_b(units: Seq<Seq<u8>>)
    requires
        splittable_units(units),
    ensures
        spec_nal_units(annex_b(units)) == units,
{
    let h = annex_b(units);
    let k = units.len() as int;
    lemma_annex_b_starts(units, 0);
    assert(units.take(0) =~= Seq::<Seq<u8>>::empty());
    let starts = start_codes_from(h, 0);
    assert(starts.len() == k);
    assert forall|j: int| 0 <= j < k implies spec_nal_units(h)[j] == units[j] by {
        lemma_annex_b_unit(units, j);
        assert(starts[j] == unit_base(units, j) + 1);
        if j + 1 < k {
            lemma_annex_b_unit(units, j + 1);
            assert(starts[j + 1] == unit_base(units, j + 1) + 1);
        } else {
            assert(units.take(j + 1) =~= units);
        }
        assert(nal_end(h, starts, j) == unit_base(units, j + 1));
    }
    assert(spec_nal_units(h) =~= units);
}

} // verus!
