//! Byte-sequence helpers shared by the codecs: big/little-endian integer
//! models and small verified builders for output buffers.
use vstd::prelude::*;

verus! {

/// `256^k`.
pub open spec fn pow256(k: nat) -> nat
    decreases k,
{
    if k == 0 {
        1
    } else {
        256 * pow256((k - 1) as nat)
    }
}

/// The value of a big-endian byte string.
pub open spec fn be_value(s: Seq<u8>) -> nat
    decreases s.len(),
{
    if s.len() == 0 {
        0
    } else {
        be_value(s.drop_last()) * 256 + s.last() as nat
    }
}

/// The minimal big-endian byte string of `v` (empty for zero, no leading zero byte otherwise).
pub open spec fn be_bytes(v: nat) -> Seq<u8>
    decreases v,
{
    if v == 0 {
        Seq::empty()
    } else {
        be_bytes(v / 256).push((v % 256) as u8)
    }
}

/// Little-endian bytes of a 16-bit value.
pub open spec fn le16(v: u16) -> Seq<u8> {
    seq![(v % 256) as u8, (v / 256) as u8]
}

/// Little-endian bytes of a 32-bit value.
pub open spec fn le32(v: u32) -> Seq<u8> {
    seq![(v % 256) as u8, ((v / 256) % 256) as u8, ((v / 65536) % 256) as u8, (v / 16777216) as u8]
}

/// Little-endian bytes of a 64-bit value.
pub open spec fn le64(v: u64) -> Seq<u8> {
    le32((v % 0x1_0000_0000) as u32) + le32((v / 0x1_0000_0000) as u32)
}

/// The 16-bit value stored little-endian at `s[o..o+2]`.
pub open spec fn rd16(s: Seq<u8>, o: int) -> u16 {
    (s[o] as nat + 256 * s[o + 1] as nat) as u16
}

/// The 32-bit value stored little-endian at `s[o..o+4]`.
pub open spec fn rd32(s: Seq<u8>, o: int) -> u32 {
    (s[o] as nat + 256 * s[o + 1] as nat + 65536 * s[o + 2] as nat + 16777216 * s[o + 3] as nat) as u32
}

pub proof fn lemma_pow256_pos(k: nat)
    ensures
        pow256(k) >= 1,
    decreases k,
{
    if k > 0 {
        lemma_pow256_pos((k - 1) as nat);
    }
}

pub proof fn lemma_pow256_mono(a: nat, b: nat)
    requires
        a <= b,
    ensures
        pow256(a) <= pow256(b),
    decreases b,
{
    if a < b {
        lemma_pow256_mono(a, (b - 1) as nat);
        lemma_pow256_pos((b - 1) as nat);
    }
}

pub proof fn lemma_pow256_8()
    ensures
        pow256(8) == 0x1_0000_0000_0000_0000,
        pow256(4) == 0x1_0000_0000,
{
    reveal_with_fuel(pow256, 9);
}

/// A big-endian string of length `k` is below `256^k`.
pub proof fn lemma_be_value_bound(s: Seq<u8>)
    ensures
        be_value(s) < pow256(s.len()),
    decreases s.len(),
{
    if s.len() > 0 {
        lemma_be_value_bound(s.drop_last());
    }
}

/// A big-endian string whose first byte is nonzero is at least `256^(k-1)`.
pub proof fn lemma_be_value_lower(s: Seq<u8>)
    requires
        s.len() > 0,
        s[0] != 0,
    ensures
        be_value(s) >= pow256((s.len() - 1) as nat),
    decreases s.len(),
{
    if s.len() > 1 {
        let t = s.drop_last();
        assert(t[0] == s[0]);
        lemma_be_value_lower(t);
    } else {
        assert(s.drop_last().len() == 0);
    }
}

/// `be_bytes` has no leading zero and fits the value's magnitude.
pub proof fn lemma_be_bytes_props(v: nat)
    ensures
        be_value(be_bytes(v)) == v,
        v > 0 ==> be_bytes(v).len() > 0 && be_bytes(v)[0] != 0,
        v == 0 ==> be_bytes(v).len() == 0,
        forall|k: nat| v < pow256(k) ==> be_bytes(v).len() <= k,
    decreases v,
{
    if v > 0 {
        let q = v / 256;
        let r = v % 256;
        lemma_be_bytes_props(q);
        let b = be_bytes(v);
        assert(b.drop_last() =~= be_bytes(q));
        assert(b.last() == r as u8);
        if q > 0 {
            assert(b[0] == be_bytes(q)[0]);
        } else {
            assert(b[0] == r as u8);
        }
        assert forall|k: nat| v < pow256(k) implies be_bytes(v).len() <= k by {
            if k == 0 {
                assert(pow256(0) == 1);
            } else {
                assert(pow256(k) == 256 * pow256((k - 1) as nat));
                assert(q < pow256((k - 1) as nat));
            }
        }
    }
}

/// `be_bytes` inverts `be_value` on strings without a leading zero.
pub proof fn lemma_be_bytes_of_value(s: Seq<u8>)
    requires
        s.len() == 0 || s[0] != 0,
    ensures
        be_bytes(be_value(s)) == s,
    decreases s.len(),
{
    if s.len() > 0 {
        let t = s.drop_last();
        let v = be_value(s);
        lemma_be_value_lower(s);
        lemma_pow256_pos((s.len() - 1) as nat);
        assert(v > 0);
        assert(v / 256 == be_value(t));
        assert(v % 256 == s.last() as nat);
        if t.len() > 0 {
            assert(t[0] == s[0]);
        }
        lemma_be_bytes_of_value(t);
        assert(be_bytes(v) =~= s);
    }
}

/// Append `src` to `out`.
pub fn push_all(out: &mut Vec<u8>, src: &[u8])
    ensures
        final(out)@ == old(out)@ + src@,
{
    let mut i: usize = 0;
    while i < src.len()
        invariant
            i <= src@.len(),
            out@ == old(out)@ + src@.take(i as int),
        decreases src@.len() - i,
    {
        out.push(src[i]);
        i = i + 1;
        assert(out@ =~= old(out)@ + src@.take(i as int));
    }
    assert(src@.take(i as int) =~= src@);
}

/// Append a 16-bit value little-endian.
pub fn put_u16(v: u16, out: &mut Vec<u8>)
    ensures
        final(out)@ == old(out)@ + le16(v),
{
    out.push((v % 256) as u8);
    out.push((v / 256) as u8);
    assert(out@ =~= old(out)@ + le16(v));
}

/// Append a 32-bit value little-endian.
pub fn put_u32(v: u32, out: &mut Vec<u8>)
    ensures
        final(out)@ == old(out)@ + le32(v),
{
    out.push((v % 256) as u8);
    out.push(((v / 256) % 256) as u8);
    out.push(((v / 65536) % 256) as u8);
    out.push((v / 16777216) as u8);
    assert(out@ =~= old(out)@ + le32(v));
}

/// Append a 64-bit value little-endian.
pub fn put_u64(v: u64, out: &mut Vec<u8>)
    ensures
        final(out)@ == old(out)@ + le64(v),
{
    put_u32((v % 0x1_0000_0000) as u32, out);
    put_u32((v / 0x1_0000_0000) as u32, out);
    assert(out@ =~= old(out)@ + le64(v));
}

/// Read a little-endian 16-bit value at `o`.
pub fn get_u16(s: &[u8], o: usize) -> (r: u16)
    requires
        o + 2 <= s@.len(),
    ensures
        r == rd16(s@, o as int),
{
    (s[o] as u16) + 256 * (s[o + 1] as u16)
}

/// Read a little-endian 32-bit value at `o`.
pub fn get_u32(s: &[u8], o: usize) -> (r: u32)
    requires
        o + 4 <= s@.len(),
    ensures
        r == rd32(s@, o as int),
{
    (s[o] as u32) + 256 * (s[o + 1] as u32) + 65536 * (s[o + 2] as u32) + 16777216 * (s[o + 3] as u32)
}

/// Fetch the 32-bit value at `o` if four bytes are there.
pub fn opt_u32(s: &[u8], o: usize) -> (r: Option<u32>)
    ensures
        r == (if o + 4 <= s@.len() { Some(rd32(s@, o as int)) } else { None::<u32> }),
{
    if o <= s.len() && 4 <= s.len() - o {
        Some(get_u32(s, o))
    } else {
        None
    }
}

/// Fetch the 16-bit value at `o` if two bytes are there.
pub fn opt_u16(s: &[u8], o: usize) -> (r: Option<u16>)
    ensures
        r == (if o + 2 <= s@.len() { Some(rd16(s@, o as int)) } else { None::<u16> }),
{
    if o <= s.len() && 2 <= s.len() - o {
        Some(get_u16(s, o))
    } else {
        None
    }
}

/// Copy a slice into a fresh vector.
pub fn to_vec(s: &[u8]) -> (r: Vec<u8>)
    ensures
        r@ == s@,
{
    let mut out = Vec::new();
    push_all(&mut out, s);
    assert(out@ =~= s@);
    out
}

} // verus!

verus! {

/// The bytes of `s` after the first `n`.
pub fn skip<'a>(s: &'a [u8], n: usize) -> (r: &'a [u8])
    requires
        n <= s@.len(),
    ensures
        r@ == s@.skip(n as int),
{
    let (_, b) = s.split_at(n);
    assert(b@ =~= s@.skip(n as int));
    b
}

/// The bytes `s[a..b]`.
pub fn range<'a>(s: &'a [u8], a: usize, b: usize) -> (r: &'a [u8])
    requires
        a <= b <= s@.len(),
    ensures
        r@ == s@.subrange(a as int, b as int),
{
    let (x, _) = s.split_at(b);
    let (_, y) = x.split_at(a);
    assert(y@ =~= s@.subrange(a as int, b as int));
    y
}

} // verus!

verus! {

/// The value of a little-endian byte string.
pub open spec fn le_value(s: Seq<u8>) -> nat
    decreases s.len(),
{
    if s.len() == 0 {
        0
    } else {
        le_value(s.drop_last()) + s.last() as nat * pow256((s.len() - 1) as nat)
    }
}

pub proof fn lemma_le_push(s: Seq<u8>, x: u8)
    ensures
        le_value(s.push(x)) == le_value(s) + x as nat * pow256(s.len()),
{
    assert(s.push(x).drop_last() =~= s);
}

pub proof fn lemma_le_bound(s: Seq<u8>)
    ensures
        le_value(s) < pow256(s.len()),
    decreases s.len(),
{
    if s.len() > 0 {
        let n = (s.len() - 1) as nat;
        lemma_le_bound(s.drop_last());
        assert(pow256(s.len()) == 256 * pow256(n));
        let l = s.last() as nat;
        let p = pow256(n);
        assert(l * p + p <= 256 * p) by (nonlinear_arith)
            requires
                l < 256,
        ;
    }
}

pub proof fn lemma_pow256_add(a: nat, b: nat)
    ensures
        pow256(a + b) == pow256(a) * pow256(b),
    decreases a,
{
    if a > 0 {
        let a1 = (a - 1) as nat;
        lemma_pow256_add(a1, b);
        assert((a + b) as nat - 1 == a1 + b);
        let x = pow256(a1);
        let y = pow256(b);
        assert(256 * (x * y) == (256 * x) * y) by (nonlinear_arith);
    } else {
        let y = pow256(b);
        assert(1 * y == y) by (nonlinear_arith);
    }
}

/// Splitting at `i`: low bytes plus `256^i` times the high bytes.
pub proof fn lemma_le_split(s: Seq<u8>, i: int)
    requires
        0 <= i <= s.len(),
    ensures
        le_value(s) == le_value(s.take(i)) + pow256(i as nat) * le_value(s.skip(i)),
    decreases s.len(),
{
    if i == s.len() {
        assert(s.take(i) =~= s);
        assert(s.skip(i) =~= Seq::<u8>::empty());
        let p = pow256(i as nat);
        assert(p * 0 == 0) by (nonlinear_arith);
    } else {
        let d = s.drop_last();
        lemma_le_split(d, i);
        assert(d.take(i) =~= s.take(i));
        let hi = s.skip(i);
        assert(hi.drop_last() =~= d.skip(i));
        let n = (s.len() - 1) as nat;
        let m = (hi.len() - 1) as nat;
        lemma_pow256_add(i as nat, m);
        let vh = le_value(hi);
        let vd = le_value(d.skip(i));
        let l = s.last() as nat;
        let pi = pow256(i as nat);
        let pm = pow256(m);
        let pn = pow256(n);
        assert(vh == vd + l * pm);
        assert(pi * vh == pi * vd + l * pn) by (nonlinear_arith)
            requires
                vh == vd + l * pm,
                pn == pi * pm,
        ;
    }
}

/// A byte followed by more bytes: the byte plus 256 times the rest.
pub proof fn lemma_le_cons(x: u8, t: Seq<u8>)
    ensures
        le_value(seq![x] + t) == x as nat + 256 * le_value(t),
{
    let s = seq![x] + t;
    lemma_le_split(s, 1);
    assert(s.take(1) =~= Seq::<u8>::empty().push(x));
    lemma_le_push(Seq::<u8>::empty(), x);
    assert(s.skip(1) =~= t);
    assert(pow256(1) == 256);
    assert(x as nat * pow256(0) == x as nat) by (nonlinear_arith)
        requires
            pow256(0) == 1,
    ;
}

/// All-zero bytes have value zero.
pub proof fn lemma_le_zeros(s: Seq<u8>)
    requires
        forall|k: int| 0 <= k < s.len() ==> s[k] == 0,
    ensures
        le_value(s) == 0,
    decreases s.len(),
{
    if s.len() > 0 {
        lemma_le_zeros(s.drop_last());
        let p = pow256((s.len() - 1) as nat);
        assert(0 * p == 0) by (nonlinear_arith);
    }
}

/// The four little-endian bytes of a 32-bit value read back as that value.
pub proof fn lemma_le32_value(v: u32)
    ensures
        le_value(le32(v)) == v as nat,
        le32(v).len() == 4,
{
    let b0 = (v % 256) as u8;
    let b1 = ((v / 256) % 256) as u8;
    let b2 = ((v / 65536) % 256) as u8;
    let b3 = (v / 16777216) as u8;
    let t3 = seq![b3] + Seq::<u8>::empty();
    let t2 = seq![b2] + t3;
    let t1 = seq![b1] + t2;
    let t0 = seq![b0] + t1;
    assert(le32(v) =~= t0);
    lemma_le_cons(b3, Seq::<u8>::empty());
    lemma_le_cons(b2, t3);
    lemma_le_cons(b1, t2);
    lemma_le_cons(b0, t1);
    assert(v == (v % 256) + 256 * (((v / 256) % 256) + 256 * (((v / 65536) % 256) + 256 * (v
        / 16777216)))) by (bit_vector);
}

/// Reading bytes in reverse order: little-endian value of the reversal is
/// the big-endian value.
pub proof fn lemma_le_of_reversed(s: Seq<u8>)
    ensures
        le_value(Seq::new(s.len(), |k: int| s[s.len() - 1 - k])) == be_value(s),
    decreases s.len(),
{
    let r = Seq::new(s.len(), |k: int| s[s.len() - 1 - k]);
    if s.len() == 0 {
        assert(r =~= Seq::<u8>::empty());
    } else {
        let d = s.drop_last();
        let rd = Seq::new(d.len(), |k: int| d[d.len() - 1 - k]);
        lemma_le_of_reversed(d);
        assert(r =~= seq![s.last()] + rd);
        lemma_le_cons(s.last(), rd);
    }
}

/// Two byte strings of one length with the same little-endian value are equal.
pub proof fn lemma_le_value_injective(a: Seq<u8>, b: Seq<u8>)
    requires
        a.len() == b.len(),
        le_value(a) == le_value(b),
    ensures
        a == b,
    decreases a.len(),
{
    if a.len() == 0 {
        assert(a =~= b);
    } else {
        let n = (a.len() - 1) as nat;
        let p = pow256(n);
        lemma_le_bound(a.drop_last());
        lemma_le_bound(b.drop_last());
        lemma_pow256_pos(n);
        let x1 = le_value(a.drop_last());
        let x2 = le_value(b.drop_last());
        let y1 = a.last() as nat;
        let y2 = b.last() as nat;
        assert(x1 + y1 * p == x2 + y2 * p);
        assert(y1 == y2) by (nonlinear_arith)
            requires
                x1 + y1 * p == x2 + y2 * p,
                x1 < p,
                x2 < p,
                p > 0,
        ;
        lemma_le_value_injective(a.drop_last(), b.drop_last());
        assert(a =~= a.drop_last().push(a.last()));
        assert(b =~= b.drop_last().push(b.last()));
    }
}

} // verus!
