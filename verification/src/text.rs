//! UTF-16 text as the protocol carries it: encoding a string to UTF-16
//! code units, their little-endian bytes, and lossy decoding back.
use vstd::prelude::*;
use crate::bytes::le16;
use vstd::std_specs::iter::IteratorSpec;

verus! {

/// The UTF-16 code units of one character: one unit below U+10000, else a
/// surrogate pair.
pub open spec fn utf16_of_char(c: char) -> Seq<u16> {
    let v = c as u32;
    if v < 0x10000 {
        seq![v as u16]
    } else {
        let x = (v - 0x10000) as u32;
        seq![(0xD800 + x / 0x400) as u16, (0xDC00 + x % 0x400) as u16]
    }
}

/// The UTF-16 encoding of a character sequence.
pub open spec fn utf16_encode(s: Seq<char>) -> Seq<u16>
    decreases s.len(),
{
    if s.len() == 0 {
        Seq::empty()
    } else {
        utf16_encode(s.drop_last()) + utf16_of_char(s.last())
    }
}

/// Code units as little-endian bytes.
pub open spec fn units_le(u: Seq<u16>) -> Seq<u8>
    decreases u.len(),
{
    if u.len() == 0 {
        Seq::empty()
    } else {
        units_le(u.drop_last()) + le16(u.last())
    }
}

/// Encode `s` as UTF-16 code units.
pub fn encode_utf16(s: &str) -> (r: Vec<u16>)
    ensures
        r@ == utf16_encode(s@),
{
    let mut out: Vec<u16> = Vec::new();
    let mut chars = s.chars();
    let ghost mut done: Seq<char> = Seq::empty();
    loop
        invariant
            done + chars.remaining() == s@,
            out@ == utf16_encode(done),
            chars.decrease() is Some,
        ensures
            out@ == utf16_encode(s@),
        decreases chars.decrease()->0,
    {
        match chars.next() {
            None => {
                assert(done =~= s@);
                break;
            },
            Some(c) => {
                let v = c as u32;
                if v < 0x10000 {
                    out.push(v as u16);
                } else {
                    let x = v - 0x10000;
                    out.push((0xD800 + x / 0x400) as u16);
                    out.push((0xDC00 + x % 0x400) as u16);
                }
                proof {
                    assert(done.push(c).drop_last() =~= done);
                    done = done.push(c);
                    assert(done + chars.remaining() =~= s@);
                }
                assert(out@ =~= utf16_encode(done));
            },
        }
    }
    out
}

/// Lossy UTF-16 decoding: a high surrogate followed by a low surrogate makes
/// one character, any other surrogate unit becomes U+FFFD, and every other
/// unit is the character with that value.
pub open spec fn utf16_decode_lossy(u: Seq<u16>) -> Seq<char>
    decreases u.len(),
{
    if u.len() == 0 {
        Seq::empty()
    } else if 0xD800 <= u[0] < 0xDC00 && u.len() >= 2 && 0xDC00 <= u[1] < 0xE000 {
        let c = 0x10000 + (u[0] - 0xD800) * 0x400 + (u[1] - 0xDC00);
        seq![c as char] + utf16_decode_lossy(u.skip(2))
    } else if 0xD800 <= u[0] < 0xE000 {
        seq!['\u{FFFD}'] + utf16_decode_lossy(u.skip(1))
    } else {
        seq![u[0] as char] + utf16_decode_lossy(u.skip(1))
    }
}

/// `String::from_utf16_lossy` of the standard library: decodes UTF-16,
/// replacing each unpaired surrogate with U+FFFD (the replacement character).
#[verifier::external_body]
pub(crate) fn string_from_utf16_lossy(units: &[u16]) -> (r: String)
    ensures
        r@ == utf16_decode_lossy(units@),
{
    String::from_utf16_lossy(units)
}

/// Append the little-endian bytes of each code unit.
pub fn push_units_le(out: &mut Vec<u8>, units: &[u16])
    ensures
        final(out)@ == old(out)@ + units_le(units@),
{
    let mut i: usize = 0;
    while i < units.len()
        invariant
            i <= units@.len(),
            out@ == old(out)@ + units_le(units@.take(i as int)),
        decreases units@.len() - i,
    {
        crate::bytes::put_u16(units[i], out);
        assert(units@.take(i as int + 1).drop_last() =~= units@.take(i as int));
        i = i + 1;
        assert(out@ =~= old(out)@ + units_le(units@.take(i as int)));
    }
    assert(units@.take(i as int) =~= units@);
}

/// The code units stored little-endian in `data` from unit `i` on, up to
/// (not including) the first zero unit or the last whole unit.
pub open spec fn units_until_nul(data: Seq<u8>, i: nat) -> Seq<u16>
    decreases data.len() - 2 * i,
{
    if 2 * i + 2 > data.len() {
        Seq::empty()
    } else if crate::bytes::rd16(data, (2 * i) as int) == 0 {
        Seq::empty()
    } else {
        seq![crate::bytes::rd16(data, (2 * i) as int)] + units_until_nul(data, i + 1)
    }
}

/// Read the code units of `data` up to the first zero unit.
pub fn read_units_until_nul(data: &[u8]) -> (r: Vec<u16>)
    ensures
        r@ == units_until_nul(data@, 0),
{
    let mut out: Vec<u16> = Vec::new();
    let mut i: usize = 0;
    while i < data.len() / 2
        invariant
            i <= data@.len() / 2,
            out@ + units_until_nul(data@, i as nat) == units_until_nul(data@, 0),
        decreases data@.len() / 2 - i,
    {
        let u = crate::bytes::get_u16(data, 2 * i);
        if u == 0 {
            assert(out@ =~= out@ + units_until_nul(data@, i as nat));
            return out;
        }
        out.push(u);
        assert(out@ + units_until_nul(data@, i as nat + 1) =~= units_until_nul(data@, 0));
        i = i + 1;
    }
    assert(out@ =~= out@ + units_until_nul(data@, i as nat));
    out
}

} // verus!

verus! {

proof fn lemma_utf16_encode_cons(c: char, t: Seq<char>)
    ensures
        utf16_encode(seq![c] + t) == utf16_of_char(c) + utf16_encode(t),
    decreases t.len(),
{
    let s = seq![c] + t;
    if t.len() == 0 {
        assert(s.drop_last() =~= Seq::<char>::empty());
        assert(s.last() == c);
        assert(utf16_encode(Seq::<char>::empty()) =~= Seq::<u16>::empty());
        assert(utf16_encode(t) =~= Seq::<u16>::empty());
        assert(utf16_encode(s) =~= utf16_of_char(c) + utf16_encode(t));
    } else {
        assert(s.drop_last() =~= seq![c] + t.drop_last());
        lemma_utf16_encode_cons(c, t.drop_last());
        assert(utf16_encode(s) =~= utf16_of_char(c) + utf16_encode(t));
    }
}

proof fn lemma_decode_char(c: char, rest: Seq<u16>)
    ensures
        utf16_decode_lossy(utf16_of_char(c) + rest) == seq![c] + utf16_decode_lossy(rest),
{
    let u = utf16_of_char(c) + rest;
    let v = c as u32;
    if v < 0x10000 {
        assert(u.skip(1) =~= rest);
        assert(u[0] == v);
        assert((v as u16) as char == c);
    } else {
        let x = (v - 0x10000) as u32;
        assert(u.skip(2) =~= rest);
        assert(u[0] == 0xD800 + x / 0x400);
        assert(u[1] == 0xDC00 + x % 0x400);
        assert(0x10000 + (u[0] - 0xD800) * 0x400 + (u[1] - 0xDC00) == v);
        assert(((0x10000 + (u[0] - 0xD800) * 0x400 + (u[1] - 0xDC00)) as char) == c);
    }
}

/// Decoding the UTF-16 encoding of a text gives the text back.
pub proof fn lemma_utf16_roundtrip(s: Seq<char>)
    ensures
        utf16_decode_lossy(utf16_encode(s)) == s,
    decreases s.len(),
{
    if s.len() == 0 {
        assert(utf16_decode_lossy(utf16_encode(s)) =~= s);
    } else {
        let t = s.skip(1);
        assert(s =~= seq![s[0]] + t);
        lemma_utf16_encode_cons(s[0], t);
        lemma_decode_char(s[0], utf16_encode(t));
        lemma_utf16_roundtrip(t);
        assert(seq![s[0]] + t =~= s);
    }
}

} // verus!

verus! {

/// No character of `s` is NUL.
pub open spec fn nul_free(s: Seq<char>) -> bool {
    forall|i: int| 0 <= i < s.len() ==> s[i] != '\0'
}

/// The encoding of a NUL-free text has no zero unit.
pub proof fn lemma_encode_nonzero(s: Seq<char>)
    requires
        nul_free(s),
    ensures
        forall|i: int| 0 <= i < utf16_encode(s).len() ==> utf16_encode(s)[i] != 0,
    decreases s.len(),
{
    if s.len() > 0 {
        lemma_encode_nonzero(s.drop_last());
        let c = s.last();
        assert(c == s[s.len() - 1]);
        let e = utf16_encode(s);
        let p = utf16_encode(s.drop_last());
        let q = utf16_of_char(c);
        assert forall|i: int| 0 <= i < e.len() implies e[i] != 0 by {
            if i >= p.len() {
                assert(e[i] == q[i - p.len()]);
                vstd::utf8::char_u32_cast(c, c as u32);
                vstd::utf8::char_u32_cast('\0', '\0' as u32);
                assert(('\0' as u32) == 0);
                assert((c as u32) != 0);
            } else {
                assert(e[i] == p[i]);
            }
        }
    }
}

pub proof fn lemma_units_le_len(u: Seq<u16>)
    ensures
        units_le(u).len() == 2 * u.len(),
    decreases u.len(),
{
    if u.len() > 0 {
        lemma_units_le_len(u.drop_last());
    }
}

/// Unit `i` reads back from its two bytes.
pub proof fn lemma_units_le_index(u: Seq<u16>, i: int)
    requires
        0 <= i < u.len(),
    ensures
        crate::bytes::rd16(units_le(u), 2 * i) == u[i],
    decreases u.len(),
{
    let p = units_le(u.drop_last());
    lemma_units_le_len(u.drop_last());
    let b = units_le(u);
    assert(b == p + le16(u.last()));
    if i < u.len() - 1 {
        lemma_units_le_index(u.drop_last(), i);
        assert(b[2 * i] == p[2 * i]);
        assert(b[2 * i + 1] == p[2 * i + 1]);
    } else {
        let v = u.last();
        assert(b[2 * i] == (v % 256) as u8);
        assert(b[2 * i + 1] == (v / 256) as u8);
        assert(((v % 256) as u8) as nat + 256 * ((v / 256) as u8) as nat == v as nat);
    }
}

/// Reading a NUL-terminated run of nonzero units stops exactly at the NUL.
pub proof fn lemma_units_until_terminator(u: Seq<u16>, i: nat)
    requires
        i <= u.len(),
        forall|k: int| 0 <= k < u.len() ==> u[k] != 0,
    ensures
        units_until_nul(units_le(u) + seq![0u8, 0u8], i) == u.skip(i as int),
    decreases u.len() - i,
{
    let d = units_le(u) + seq![0u8, 0u8];
    let j: int = 2 * (i as int);
    lemma_units_le_len(u);
    if i == u.len() {
        assert(d[j] == 0 && d[j + 1] == 0);
        assert(crate::bytes::rd16(d, j) == 0);
        assert(u.skip(i as int) =~= Seq::<u16>::empty());
    } else {
        lemma_units_le_index(u, i as int);
        assert(d[j] == units_le(u)[j]);
        assert(d[j + 1] == units_le(u)[j + 1]);
        assert(crate::bytes::rd16(d, j) == u[i as int]);
        lemma_units_until_terminator(u, i + 1);
        assert(u.skip(i as int) =~= seq![u[i as int]] + u.skip(i as int + 1));
    }
}

} // verus!
