//! Minimal unsigned big integer — just enough for RSA modular exponentiation
//! (the Standard RDP Security client-random encryption). Limbs are `u32`,
//! stored little-endian and normalised (no trailing zero limb).
use vstd::prelude::*;
use vstd::arithmetic::power::{pow, lemma_pow_adds, lemma_pow1, lemma_pow0};
use vstd::arithmetic::power2::{pow2, lemma_pow2_adds, lemma2_to64, lemma_pow2_unfold, lemma_pow2_pos};
use vstd::arithmetic::div_mod::{lemma_mul_mod_noop, lemma_small_mod, lemma_fundamental_div_mod,
    lemma_fundamental_div_mod_converse, lemma_div_denominator, lemma_mod_breakdown};
use vstd::bits::lemma_u32_shr_is_div;
use crate::bytes::{le_value, le32, pow256, be_value, lemma_le_push, lemma_le_bound, lemma_le_split, lemma_le_zeros,
    lemma_le32_value, lemma_le_of_reversed, lemma_le_value_injective, lemma_pow256_add, lemma_pow256_mono, lemma_pow256_8, push_all};

verus! {

/// The limb base, `2^32`.
pub open spec fn limb_base() -> nat {
    0x1_0000_0000
}

/// `(2^32)^k`.
pub open spec fn pw(k: nat) -> nat
    decreases k,
{
    if k == 0 {
        1
    } else {
        limb_base() * pw((k - 1) as nat)
    }
}

/// The value of little-endian base-`2^32` limbs.
pub open spec fn limbs_val(s: Seq<u32>) -> nat
    decreases s.len(),
{
    if s.len() == 0 {
        0
    } else {
        limbs_val(s.drop_last()) + s.last() as nat * pw((s.len() - 1) as nat)
    }
}

/// Limbs without a trailing zero limb (zero has no limbs).
pub open spec fn normalized(s: Seq<u32>) -> bool {
    s.len() == 0 || s.last() != 0
}

pub proof fn lemma_pw_pos(k: nat)
    ensures
        pw(k) >= 1,
    decreases k,
{
    if k > 0 {
        lemma_pw_pos((k - 1) as nat);
    }
}

pub proof fn lemma_pw_add(a: nat, b: nat)
    ensures
        pw(a + b) == pw(a) * pw(b),
    decreases a,
{
    if a > 0 {
        let a1 = (a - 1) as nat;
        lemma_pw_add(a1, b);
        assert((a + b) as nat - 1 == a1 + b);
        assert(pw(a + b) == limb_base() * pw(a1 + b));
        assert(pw(a) == limb_base() * pw(a1));
        let x = pw(a1);
        let y = pw(b);
        assert(limb_base() * (x * y) == (limb_base() * x) * y) by (nonlinear_arith);
        assert(pw(a + b) == pw(a) * pw(b));
    } else {
        assert(pw(0) == 1);
        assert(a + b == b);
        assert(pw(a) * pw(b) == 1 * pw(b));
    }
}

pub proof fn lemma_pw_mono(a: nat, b: nat)
    requires
        a <= b,
    ensures
        pw(a) <= pw(b),
    decreases b,
{
    if a < b {
        lemma_pw_mono(a, (b - 1) as nat);
        lemma_pw_pos((b - 1) as nat);
    }
}

pub proof fn lemma_val_bound(s: Seq<u32>)
    ensures
        limbs_val(s) < pw(s.len()),
    decreases s.len(),
{
    if s.len() > 0 {
        let n = (s.len() - 1) as nat;
        lemma_val_bound(s.drop_last());
        assert(pw(s.len()) == limb_base() * pw(n));
        let l = s.last() as nat;
        let p = pw(n);
        assert(l * p + p <= limb_base() * p) by (nonlinear_arith)
            requires
                l < limb_base(),
        ;
    }
}

pub proof fn lemma_val_lower(s: Seq<u32>)
    requires
        s.len() > 0,
        s.last() != 0,
    ensures
        limbs_val(s) >= pw((s.len() - 1) as nat),
{
    let n = (s.len() - 1) as nat;
    assert(s.last() as nat * pw(n) >= pw(n)) by (nonlinear_arith)
        requires
            s.last() >= 1,
    ;
}

pub proof fn lemma_val_take(s: Seq<u32>, i: int)
    requires
        0 <= i < s.len(),
    ensures
        limbs_val(s.take(i + 1)) == limbs_val(s.take(i)) + s[i] as nat * pw(i as nat),
{
    assert(s.take(i + 1).drop_last() =~= s.take(i));
}

pub proof fn lemma_val_push(s: Seq<u32>, x: u32)
    ensures
        limbs_val(s.push(x)) == limbs_val(s) + x as nat * pw(s.len()),
{
    assert(s.push(x).drop_last() =~= s);
}

pub proof fn lemma_val_full(s: Seq<u32>)
    ensures
        limbs_val(s.take(s.len() as int)) == limbs_val(s),
{
    assert(s.take(s.len() as int) =~= s);
}

/// All-zero limbs have value zero.
pub proof fn lemma_val_zeros(s: Seq<u32>)
    requires
        forall|k: int| 0 <= k < s.len() ==> s[k] == 0,
    ensures
        limbs_val(s) == 0,
    decreases s.len(),
{
    if s.len() > 0 {
        lemma_val_zeros(s.drop_last());
        let p = pw((s.len() - 1) as nat);
        assert(0 * p == 0) by (nonlinear_arith);
    }
}

/// Dropping a trailing zero limb does not change the value.
pub proof fn lemma_val_trailing_zero(s: Seq<u32>)
    requires
        s.len() > 0,
        s.last() == 0,
    ensures
        limbs_val(s) == limbs_val(s.drop_last()),
{
}

/// Replacing limb `k` moves the value by the difference at that position.
pub proof fn lemma_val_update(s: Seq<u32>, k: int, x: u32)
    requires
        0 <= k < s.len(),
    ensures
        limbs_val(s.update(k, x)) + s[k] as nat * pw(k as nat) == limbs_val(s) + x as nat * pw(k as nat),
    decreases s.len(),
{
    let t = s.update(k, x);
    if k == s.len() - 1 {
        assert(t.drop_last() =~= s.drop_last());
    } else {
        assert(t.drop_last() =~= s.drop_last().update(k, x));
        lemma_val_update(s.drop_last(), k, x);
    }
}

/// Splitting at `i`: low limbs plus `pw(i)` times the high limbs.
pub proof fn lemma_val_split(s: Seq<u32>, i: int)
    requires
        0 <= i <= s.len(),
    ensures
        limbs_val(s) == limbs_val(s.take(i)) + pw(i as nat) * limbs_val(s.skip(i)),
    decreases s.len(),
{
    if i == s.len() {
        assert(s.take(i) =~= s);
        assert(s.skip(i) =~= Seq::<u32>::empty());
        let p = pw(i as nat);
        assert(p * 0 == 0) by (nonlinear_arith);
    } else {
        let d = s.drop_last();
        lemma_val_split(d, i);
        assert(d.take(i) =~= s.take(i));
        let hi = s.skip(i);
        assert(hi.drop_last() =~= d.skip(i));
        assert(hi.last() == s.last());
        let n = (s.len() - 1) as nat;
        let m = (hi.len() - 1) as nat;
        assert(n == i + m);
        lemma_pw_add(i as nat, m);
        assert(limbs_val(hi) == limbs_val(hi.drop_last()) + hi.last() as nat * pw(m));
        let vh = limbs_val(hi);
        let vd = limbs_val(d.skip(i));
        let l = s.last() as nat;
        let pi = pw(i as nat);
        let pm = pw(m);
        assert(pi * vh == pi * vd + l * (pi * pm)) by (nonlinear_arith)
            requires
                vh == vd + l * pm,
        ;
        assert(limbs_val(s) == limbs_val(d) + l * pw(n));
        assert(limbs_val(d) == limbs_val(d.take(i)) + pi * vd);
        assert(pw(n) == pi * pm);
        assert(l * pw(n) == l * (pi * pm));
    }
}

/// Same-length normalized limbs that agree above `i` and differ at `i`
/// compare as their limbs at `i` do.
pub proof fn lemma_val_lex(a: Seq<u32>, b: Seq<u32>, i: int)
    requires
        a.len() == b.len(),
        0 <= i < a.len(),
        a.skip(i + 1) == b.skip(i + 1),
        a[i] < b[i],
    ensures
        limbs_val(a) < limbs_val(b),
{
    lemma_val_split(a, i + 1);
    lemma_val_split(b, i + 1);
    lemma_val_take(a, i);
    lemma_val_take(b, i);
    lemma_val_bound(a.take(i));
    assert(a.take(i).len() == i);
    assert(limbs_val(a.take(i + 1)) < limbs_val(b.take(i + 1))) by (nonlinear_arith)
        requires
            limbs_val(a.take(i + 1)) == limbs_val(a.take(i)) + a[i] as nat * pw(i as nat),
            limbs_val(b.take(i + 1)) == limbs_val(b.take(i)) + b[i] as nat * pw(i as nat),
            limbs_val(a.take(i)) < pw(i as nat),
            (a[i] as nat) + 1 <= b[i] as nat,
    ;
}

/// Normalized limbs of different lengths compare as their lengths do.
pub proof fn lemma_val_len_order(a: Seq<u32>, b: Seq<u32>)
    requires
        normalized(a),
        normalized(b),
        a.len() < b.len(),
    ensures
        limbs_val(a) < limbs_val(b),
{
    lemma_val_bound(a);
    lemma_val_lower(b);
    lemma_pw_mono(a.len(), (b.len() - 1) as nat);
}


/// One step of schoolbook multiplication keeps the running identity.
proof fn lemma_mul_step(
    old_val: nat, x: nat, cur: nat, lo: nat, hi: nat, ai: nat, bj: nat, carry: nat,
    pi: nat, pj: nat, pij: nat, pij1: nat, new_val: nat, vb_j: nat, vb_j1: nat,
)
    requires
        cur == x + ai * bj + carry,
        cur == lo + limb_base() * hi,
        pij == pi * pj,
        pij1 == limb_base() * pij,
        new_val + x * pij == old_val + lo * pij,
        vb_j1 == vb_j + bj * pj,
    ensures
        new_val + hi * pij1 == old_val + carry * pij + ai * vb_j1 * pi - ai * vb_j * pi,
{
    let bh = limb_base() * hi;
    assert(hi * pij1 == bh * pij) by (nonlinear_arith)
        requires
            pij1 == limb_base() * pij,
            bh == limb_base() * hi,
    ;
    assert(lo * pij + bh * pij == cur * pij) by (nonlinear_arith)
        requires
            cur == lo + bh,
    ;
    let ab = ai * bj;
    assert(cur * pij == x * pij + ab * pij + carry * pij) by (nonlinear_arith)
        requires
            cur == x + ab + carry,
    ;
    assert(ai * vb_j1 * pi == ai * vb_j * pi + ab * pij) by (nonlinear_arith)
        requires
            vb_j1 == vb_j + bj * pj,
            pij == pi * pj,
            ab == ai * bj,
    ;
}

/// `pw(k)` is `2^(32k)`.
proof fn lemma_pw_pow2(k: nat)
    ensures
        pw(k) == pow2(32 * k),
    decreases k,
{
    if k == 0 {
        lemma2_to64();
    } else {
        lemma_pw_pow2((k - 1) as nat);
        lemma_pow2_adds(32, 32 * (k - 1) as nat);
        lemma2_to64();
        assert(32 * k == 32 + 32 * (k - 1) as nat);
    }
}

/// Long-division step: doubling a residue and adding a bit, then reducing once.
proof fn lemma_rem_step(q: nat, r: nat, b: nat, m: nat)
    requires
        m > 0,
        r == q % m,
        b <= 1,
    ensures
        (2 * r + b) % m == (2 * q + b) % m,
        2 * r + b < 2 * m,
{
    lemma_fundamental_div_mod(q as int, m as int);
    let k = q / m;
    assert(2 * q + b == m * (2 * k) + (2 * r + b)) by (nonlinear_arith)
        requires
            q == m * k + r,
    ;
    vstd::arithmetic::div_mod::lemma_mod_multiples_vanish(2 * k as int, (2 * r + b) as int, m as int);
    assert(r < m) by {
        vstd::arithmetic::div_mod::lemma_mod_bound(q as int, m as int);
    }
}

/// Bits of a limb, read from the top: shifting one less keeps one more bit.
proof fn lemma_bit_down(limb: u32, bit: nat)
    ensures
        limb as nat / pow2(bit) == 2 * (limb as nat / pow2(bit + 1)) + (limb as nat / pow2(bit)) % 2,
{
    let x = limb as nat / pow2(bit);
    lemma_pow2_unfold(bit + 1);
    lemma_pow2_pos(bit);
    lemma_div_denominator(limb as int, pow2(bit) as int, 2);
    assert(pow2(bit) * 2 == pow2(bit + 1));
    lemma_fundamental_div_mod(x as int, 2);
}

/// Bits of a limb, read from the bottom: one more bit of the remainder.
proof fn lemma_bit_up(limb: u32, bit: nat)
    ensures
        limb as nat % pow2(bit + 1) == limb as nat % pow2(bit) + ((limb as nat / pow2(bit)) % 2) * pow2(bit),
{
    lemma_pow2_unfold(bit + 1);
    lemma_pow2_pos(bit);
    lemma_mod_breakdown(limb as int, pow2(bit) as int, 2);
    assert(pow2(bit + 1) == pow2(bit) * 2);
}

/// The value read so far when scanning a limb from the top, one bit further.
proof fn lemma_scan_down(hi: nat, limb: u32, bit: nat)
    requires
        bit < 32,
    ensures
        hi * pow2((32 - bit) as nat) + limb as nat / pow2(bit)
            == 2 * (hi * pow2((32 - (bit + 1)) as nat) + limb as nat / pow2(bit + 1))
                + (limb as nat / pow2(bit)) % 2,
{
    lemma_bit_down(limb, bit);
    let e = (32 - bit) as nat;
    let e1 = (32 - (bit + 1)) as nat;
    assert(e1 + 1 == e);
    lemma_pow2_adds(e1, 1);
    lemma2_to64();
    assert(pow2(e) == pow2(e1) * 2);
    let x = hi * pow2(e);
    let y = hi * pow2(e1);
    assert(x == 2 * y) by (nonlinear_arith)
        requires
            x == hi * pow2(e),
            y == hi * pow2(e1),
            pow2(e) == pow2(e1) * 2,
    ;
}

/// The exponent bits consumed so far when scanning a limb from the bottom, one bit further.
proof fn lemma_scan_up(lo: nat, limb: u32, bit: nat, k: nat)
    ensures
        lo + (limb as nat % pow2(bit + 1)) * pw(k)
            == lo + (limb as nat % pow2(bit)) * pw(k) + ((limb as nat / pow2(bit)) % 2) * pow2(32 * k + bit),
{
    lemma_bit_up(limb, bit);
    lemma_pw_pow2(k);
    lemma_pow2_adds(32 * k, bit);
    let t = (limb as nat / pow2(bit)) % 2;
    let m0 = limb as nat % pow2(bit);
    assert((m0 + t * pow2(bit)) * pw(k) == m0 * pw(k) + t * (pow2(32 * k) * pow2(bit))) by (nonlinear_arith)
        requires
            pw(k) == pow2(32 * k),
    ;
}

/// The exec form of one bit of a limb.
proof fn lemma_limb_bit(limb: u32, bit: u32)
    requires
        bit < 32,
    ensures
        ((limb >> bit) & 1) as nat == (limb as nat / pow2(bit as nat)) % 2,
{
    lemma_u32_shr_is_div(limb, bit);
    let y = limb >> bit;
    assert(y & 1 == y % 2) by (bit_vector);
}

/// `256^(4k)` is `(2^32)^k`.
proof fn lemma_pow256_pw(k: nat)
    ensures
        pow256(4 * k) == pw(k),
    decreases k,
{
    if k > 0 {
        lemma_pow256_pw((k - 1) as nat);
        lemma_pow256_add(4, 4 * (k - 1) as nat);
        reveal_with_fuel(pow256, 5);
        assert(4 * k == 4 + 4 * (k - 1) as nat);
    }
}

/// An unsigned big integer.
#[derive(Debug, PartialEq, Eq)]
pub struct BigUint {
    /// Little-endian base-2^32 limbs; empty == zero.
    limbs: Vec<u32>,
}

impl View for BigUint {
    type V = nat;

    closed spec fn view(&self) -> nat {
        limbs_val(self.limbs@)
    }
}

/// Strip trailing zero limbs, keeping the value.
fn normalize(limbs: &mut Vec<u32>)
    ensures
        normalized(final(limbs)@),
        limbs_val(final(limbs)@) == limbs_val(old(limbs)@),
        final(limbs)@.len() <= old(limbs)@.len(),
{
    while limbs.len() > 0 && limbs[limbs.len() - 1] == 0
        invariant
            limbs_val(limbs@) == limbs_val(old(limbs)@),
            limbs@.len() <= old(limbs)@.len(),
        decreases limbs@.len(),
    {
        proof {
            lemma_val_trailing_zero(limbs@);
        }
        limbs.pop();
    }
}

impl Clone for BigUint {
    fn clone(&self) -> (r: Self)
        ensures
            r@ == self@,
    {
        self.copy()
    }
}

impl BigUint {
    #[verifier::type_invariant]
    closed spec fn inv(self) -> bool {
        normalized(self.limbs@)
    }

    /// Number of 32-bit limbs in the normalized representation.
    pub closed spec fn limb_count(&self) -> nat {
        self.limbs@.len()
    }

    /// Zero.
    pub fn zero() -> (r: Self)
        ensures
            r@ == 0,
            r.limb_count() == 0,
    {
        Self { limbs: Vec::new() }
    }

    /// A one-limb value.
    pub fn from_u32(v: u32) -> (r: Self)
        ensures
            r@ == v as nat,
            r.limb_count() <= 1,
    {
        let mut limbs = Vec::new();
        limbs.push(v);
        proof {
            lemma_val_push(Seq::<u32>::empty(), v);
            assert(limbs@ =~= Seq::<u32>::empty().push(v));
            assert(pw(0) == 1);
            assert(Seq::<u32>::empty().len() == 0);
            assert(limbs_val(Seq::<u32>::empty()) == 0);
            assert(v as nat * pw(0) == v as nat) by (nonlinear_arith)
                requires
                    pw(0) == 1,
            ;
            assert(limbs_val(limbs@) == v as nat);
        }
        normalize(&mut limbs);
        Self { limbs }
    }

    /// Whether the value is zero.
    pub fn is_zero(&self) -> (r: bool)
        ensures
            r == (self@ == 0),
    {
        proof {
            use_type_invariant(self);
            if self.limbs@.len() > 0 {
                lemma_val_lower(self.limbs@);
                lemma_pw_pos((self.limbs@.len() - 1) as nat);
            }
        }
        self.limbs.len() == 0
    }

    /// A copy with the same value.
    fn copy(&self) -> (r: Self)
        ensures
            r@ == self@,
    {
        proof {
            use_type_invariant(self);
        }
        let mut limbs = Vec::new();
        let mut i: usize = 0;
        while i < self.limbs.len()
            invariant
                i <= self.limbs@.len(),
                limbs@ == self.limbs@.take(i as int),
            decreases self.limbs@.len() - i,
        {
            limbs.push(self.limbs[i]);
            i = i + 1;
            assert(limbs@ =~= self.limbs@.take(i as int));
        }
        assert(limbs@ =~= self.limbs@);
        Self { limbs }
    }

    /// `self < other`.
    fn lt(&self, other: &Self) -> (r: bool)
        ensures
            r == (self@ < other@),
    {
        proof {
            use_type_invariant(self);
            use_type_invariant(other);
        }
        let a = &self.limbs;
        let b = &other.limbs;
        if a.len() != b.len() {
            proof {
                if a@.len() < b@.len() {
                    lemma_val_len_order(a@, b@);
                } else {
                    lemma_val_len_order(b@, a@);
                }
            }
            return a.len() < b.len();
        }
        let mut i = a.len();
        while i > 0
            invariant
                i <= a@.len(),
                a@ == self.limbs@,
                b@ == other.limbs@,
                a@.len() == b@.len(),
                a@.skip(i as int) == b@.skip(i as int),
            decreases i,
        {
            let j = i - 1;
            if a[j] != b[j] {
                let r = a[j] < b[j];
                proof {
                    assert(a@.skip(j as int + 1) == b@.skip(j as int + 1));
                    if r {
                        lemma_val_lex(a@, b@, j as int);
                        assert(limbs_val(a@) < limbs_val(b@));
                    } else {
                        lemma_val_lex(b@, a@, j as int);
                        assert(limbs_val(b@) < limbs_val(a@));
                    }
                }
                return r;
            }
            assert(a@.skip(j as int) =~= seq![a@[j as int]] + a@.skip(i as int));
            assert(b@.skip(j as int) =~= seq![b@[j as int]] + b@.skip(i as int));
            i = j;
        }
        assert(a@ =~= a@.skip(0));
        assert(b@ =~= b@.skip(0));
        false
    }

    /// Multiply by two.
    fn shl1(&self) -> (r: Self)
        ensures
            r@ == 2 * self@,
    {
        proof {
            use_type_invariant(self);
        }
        let n = self.limbs.len();
        let mut limbs: Vec<u32> = Vec::new();
        let mut carry: u32 = 0;
        let mut i: usize = 0;
        while i < n
            invariant
                n == self.limbs@.len(),
                i <= n,
                limbs@.len() == i,
                carry <= 1,
                limbs_val(limbs@) + carry as nat * pw(i as nat) == 2 * limbs_val(self.limbs@.take(i as int)),
            decreases n - i,
        {
            let l = self.limbs[i];
            let v: u64 = (l as u64) * 2 + carry as u64;
            let lo = (v % 0x1_0000_0000) as u32;
            let hi = (v / 0x1_0000_0000) as u32;
            proof {
                lemma_val_push(limbs@, lo);
                lemma_val_take(self.limbs@, i as int);
                assert(pw(i as nat + 1) == limb_base() * pw(i as nat));
                let p = pw(i as nat);
                let (lo_n, hi_n, l_n, c_n) = (lo as nat, hi as nat, l as nat, carry as nat);
                assert(lo_n * p + hi_n * (limb_base() * p) == 2 * (l_n * p) + c_n * p)
                    by (nonlinear_arith)
                    requires
                        lo_n + limb_base() * hi_n == 2 * l_n + c_n,
                ;
            }
            limbs.push(lo);
            carry = hi;
            i = i + 1;
        }
        if carry != 0 {
            proof {
                lemma_val_push(limbs@, carry);
            }
            limbs.push(carry);
        }
        proof {
            lemma_val_full(self.limbs@);
        }
        normalize(&mut limbs);
        Self { limbs }
    }



    /// Build from little-endian bytes.
    pub fn from_bytes_le(bytes: &[u8]) -> (r: Self)
        ensures
            r@ == le_value(bytes@),
            r.limb_count() <= bytes@.len() / 4 + 1,
    {
        let len = bytes.len();
        let mut limbs: Vec<u32> = Vec::new();
        let mut c: usize = 0;
        while c < len
            invariant
                len == bytes@.len(),
                c <= len,
                c < len ==> c == 4 * limbs@.len(),
                limbs@.len() <= c / 4 + 1,
                limbs@.len() * 4 <= c + 3,
                limbs_val(limbs@) == le_value(bytes@.take(c as int)),
            decreases len - c,
        {
            let end = if len - c < 4 { len } else { c + 4 };
            let mut v: u64 = 0;
            let mut mulv: u64 = 1;
            let mut i = c;
            proof {
                assert(bytes@.subrange(c as int, c as int) =~= Seq::<u8>::empty());
            }
            while i < end
                invariant
                    c <= i <= end,
                    end <= len,
                    end <= c + 4,
                    len == bytes@.len(),
                    mulv == pow256((i - c) as nat),
                    v == le_value(bytes@.subrange(c as int, i as int)),
                decreases end - i,
            {
                let ghost k = (i - c) as nat;
                let ghost sub = bytes@.subrange(c as int, i as int);
                proof {
                    lemma_le_bound(sub);
                    lemma_pow256_mono(k, 3);
                    reveal_with_fuel(pow256, 5);
                    assert(bytes@.subrange(c as int, i as int + 1) =~= sub.push(bytes@[i as int]));
                    lemma_le_push(sub, bytes@[i as int]);
                    assert(bytes@[i as int] as u64 * mulv <= 255 * 0x100_0000) by (nonlinear_arith)
                        requires
                            mulv <= 0x100_0000,
                            bytes@[i as int] <= 255,
                    ;
                    assert(pow256(k + 1) == 256 * pow256(k));
                }
                v = v + bytes[i] as u64 * mulv;
                mulv = mulv * 256;
                i = i + 1;
            }
            proof {
                let chunk = bytes@.subrange(c as int, end as int);
                lemma_le_bound(chunk);
                lemma_pow256_mono((end - c) as nat, 4);
                lemma_pow256_8();
                let t = bytes@.take(end as int);
                lemma_le_split(t, c as int);
                assert(t.take(c as int) =~= bytes@.take(c as int));
                assert(t.skip(c as int) =~= chunk);
                lemma_pow256_pw(limbs@.len());
                lemma_val_push(limbs@, v as u32);
                let p = pw(limbs@.len());
                let vv = v as nat;
                assert(vv * p == p * vv) by (nonlinear_arith);
            }
            limbs.push(v as u32);
            c = end;
        }
        proof {
            assert(bytes@.take(len as int) =~= bytes@);
        }
        normalize(&mut limbs);
        Self { limbs }
    }

    /// Build from big-endian bytes.
    pub fn from_bytes_be(bytes: &[u8]) -> (r: Self)
        ensures
            r@ == be_value(bytes@),
            r.limb_count() <= bytes@.len() / 4 + 1,
    {
        let n = bytes.len();
        let mut le: Vec<u8> = Vec::new();
        let mut i: usize = 0;
        while i < n
            invariant
                n == bytes@.len(),
                i <= n,
                le@ =~= Seq::new(i as nat, |k: int| bytes@[n - 1 - k]),
            decreases n - i,
        {
            le.push(bytes[n - 1 - i]);
            i = i + 1;
        }
        proof {
            lemma_le_of_reversed(bytes@);
        }
        Self::from_bytes_le(le.as_slice())
    }

    /// Serialize to little-endian bytes, zero-padded or truncated to `len`.
    pub fn to_bytes_le(&self, len: usize) -> (r: Vec<u8>)
        ensures
            r@.len() == len,
            le_value(r@) == self@ % pow256(len as nat),
    {
        let n = self.limbs.len();
        let mut out: Vec<u8> = Vec::new();
        let mut i: usize = 0;
        while i < n
            invariant
                n == self.limbs@.len(),
                i <= n,
                out@.len() == 4 * i,
                le_value(out@) == limbs_val(self.limbs@.take(i as int)),
            decreases n - i,
        {
            let limb = self.limbs[i];
            let ghost before = out@;
            crate::bytes::put_u32(limb, &mut out);
            proof {
                lemma_le32_value(limb);
                lemma_le_split(out@, before.len() as int);
                assert(out@.take(before.len() as int) =~= before);
                assert(out@.skip(before.len() as int) =~= le32(limb));
                lemma_pow256_pw(i as nat);
                lemma_val_take(self.limbs@, i as int);
                let p = pw(i as nat);
                assert(p * (limb as nat) == (limb as nat) * p) by (nonlinear_arith);
            }
            i = i + 1;
        }
        proof {
            lemma_val_full(self.limbs@);
            lemma_val_bound(self.limbs@);
            lemma_pow256_pw(n as nat);
        }
        let ghost full = out@;
        if out.len() < len {
            let ghost base = out@;
            while out.len() < len
                invariant
                    base.len() <= out@.len() <= len,
                    out@.take(base.len() as int) == base,
                    forall|k: int| base.len() <= k < out@.len() ==> out@[k] == 0,
                decreases len - out@.len(),
            {
                out.push(0);
                assert(out@.take(base.len() as int) =~= base);
            }
            proof {
                lemma_le_split(out@, base.len() as int);
                lemma_le_zeros(out@.skip(base.len() as int));
                let p = pow256(base.len());
                assert(p * 0 == 0) by (nonlinear_arith);
                crate::bytes::lemma_pow256_mono(base.len(), len as nat);
                lemma_small_mod(le_value(base), pow256(len as nat));
            }
        } else {
            out.truncate(len);
            proof {
                lemma_le_split(full, len as int);
                assert(out@ =~= full.take(len as int));
                lemma_le_bound(out@);
                let x = le_value(full) as int;
                let d = pow256(len as nat) as int;
                let q = le_value(full.skip(len as int)) as int;
                let r = le_value(out@) as int;
                assert(x == q * d + r) by (nonlinear_arith)
                    requires
                        x == r + d * q,
                ;
                lemma_fundamental_div_mod_converse(x, d, q, r);
            }
        }
        out
    }

    /// `self + 1`, given `self` is even (sets the low bit).
    fn set_low_bit(&self) -> (r: Self)
        requires
            self@ % 2 == 0,
        ensures
            r@ == self@ + 1,
    {
        proof {
            use_type_invariant(self);
        }
        let c = self.copy();
        proof {
            use_type_invariant(&c);
        }
        let mut limbs = c.limbs;
        if limbs.len() == 0 {
            limbs.push(1);
            proof {
                lemma_val_push(Seq::<u32>::empty(), 1);
                assert(limbs@ =~= Seq::<u32>::empty().push(1));
                assert(1 * pw(0) == 1) by (nonlinear_arith) requires pw(0) == 1;
            }
        } else {
            let l0 = limbs[0];
            proof {
                lemma_val_split(limbs@, 1);
                assert(limbs@.take(1) =~= Seq::<u32>::empty().push(l0));
                lemma_val_push(Seq::<u32>::empty(), l0);
                assert(l0 as nat * pw(0) == l0 as nat) by (nonlinear_arith) requires pw(0) == 1;
                let rest = limbs_val(limbs@.skip(1));
                assert(pw(1) == limb_base());
                assert((l0 as nat + limb_base() * rest) % 2 == l0 as nat % 2) by (nonlinear_arith);
                lemma_val_update(limbs@, 0, (l0 + 1) as u32);
                assert(1 * pw(0) == 1) by (nonlinear_arith) requires pw(0) == 1;
                assert(l0 as nat * pw(0) == l0 as nat) by (nonlinear_arith) requires pw(0) == 1;
                assert(((l0 + 1) as u32) as nat * pw(0) == l0 as nat + 1) by (nonlinear_arith)
                    requires pw(0) == 1, l0 % 2 == 0, l0 < limb_base();
            }
            assert(l0 | 1 == (l0 + 1) as u32) by (bit_vector) requires l0 % 2 == 0;
            let ghost before = limbs@;
            limbs[0] = l0 | 1;
            proof {
                assert(limbs@ == before.update(0, (l0 + 1) as u32));
                if limbs@.len() > 1 {
                    assert(limbs@.last() == before.last());
                }
            }
        }
        Self { limbs }
    }

    /// `self * other`.
    pub fn mul(&self, other: &Self) -> (r: Self)
        requires
            self.limb_count() + other.limb_count() <= usize::MAX,
        ensures
            r@ == self@ * other@,
            r.limb_count() <= self.limb_count() + other.limb_count(),
    {
        proof {
            use_type_invariant(self);
            use_type_invariant(other);
        }
        if self.is_zero() || other.is_zero() {
            assert(self@ * other@ == 0) by (nonlinear_arith) requires self@ == 0 || other@ == 0;
            return Self::zero();
        }
        let a = &self.limbs;
        let b = &other.limbs;
        let n = a.len();
        let m = b.len();
        assert(n + m <= usize::MAX);
        proof {
            lemma_val_bound(a@);
            lemma_val_bound(b@);
            lemma_pw_add(n as nat, m as nat);
            assert(self@ * other@ < pw(n as nat) * pw(m as nat)) by (nonlinear_arith)
                requires self@ < pw(n as nat), other@ < pw(m as nat);
        }
        let mut limbs: Vec<u32> = Vec::new();
        let mut z: usize = 0;
        while z < n + m
            invariant
                n + m <= usize::MAX,
                z <= n + m,
                limbs@.len() == z,
                forall|k: int| 0 <= k < z ==> limbs@[k] == 0,
            decreases n + m - z,
        {
            limbs.push(0);
            z = z + 1;
        }
        proof {
            lemma_val_zeros(limbs@);
            assert(a@.take(0) =~= Seq::<u32>::empty());
            assert(0 * limbs_val(b@) == 0) by (nonlinear_arith);
        }
        let mut i: usize = 0;
        while i < n
            invariant
                n == a@.len(),
                m == b@.len(),
                a@ == self.limbs@,
                b@ == other.limbs@,
                i <= n,
                n + m <= usize::MAX,
                limbs@.len() == n + m,
                forall|k: int| i + m <= k < n + m ==> limbs@[k] == 0,
                limbs_val(limbs@) == limbs_val(a@.take(i as int)) * limbs_val(b@),
            decreases n - i,
        {
            let ai = a[i];
            let mut carry: u64 = 0;
            let mut j: usize = 0;
            proof {
                assert(b@.take(0) =~= Seq::<u32>::empty());
                assert(ai as nat * 0 * pw(i as nat) == 0) by (nonlinear_arith);
            }
            while j < m
                invariant
                    n == a@.len(),
                    m == b@.len(),
                    i < n,
                    j <= m,
                    n + m <= usize::MAX,
                    ai == a@[i as int],
                    limbs@.len() == n + m,
                    carry < limb_base(),
                    forall|k: int| i + m <= k < n + m ==> limbs@[k] == 0,
                    limbs_val(limbs@) + carry as nat * pw((i + j) as nat)
                        == limbs_val(a@.take(i as int)) * limbs_val(b@)
                            + ai as nat * limbs_val(b@.take(j as int)) * pw(i as nat),
                decreases m - j,
            {
                let x = limbs[i + j];
                let bj = b[j];
                assert(ai as u64 * bj as u64 <= 0xFFFF_FFFE_0000_0001) by (nonlinear_arith)
                    requires ai < limb_base(), bj < limb_base();
                let cur: u64 = x as u64 + ai as u64 * bj as u64 + carry;
                let lo = (cur % 0x1_0000_0000) as u32;
                let hi = cur / 0x1_0000_0000;
                proof {
                    let ghost old_limbs = limbs@;
                    lemma_val_update(old_limbs, (i + j) as int, lo);
                    lemma_val_take(b@, j as int);
                    lemma_pw_add(i as nat, j as nat);
                    assert(pw((i + j) as nat + 1) == limb_base() * pw((i + j) as nat));
                    lemma_mul_step(
                        limbs_val(old_limbs), x as nat, cur as nat, lo as nat, hi as nat, ai as nat,
                        bj as nat, carry as nat, pw(i as nat), pw(j as nat), pw((i + j) as nat),
                        pw((i + j) as nat + 1), limbs_val(old_limbs.update((i + j) as int, lo)),
                        limbs_val(b@.take(j as int)), limbs_val(b@.take(j as int + 1)),
                    );
                    let ai_n = ai as nat;
                    let pi = pw(i as nat);
                    let v1 = limbs_val(b@.take(j as int + 1));
                    let v0 = limbs_val(b@.take(j as int));
                    assert(ai_n * v1 * pi == (ai_n * v1) * pi);
                }
                limbs[i + j] = lo;
                carry = hi;
                j = j + 1;
            }
            proof {
                assert(b@.take(m as int) =~= b@);
                lemma_val_take(a@, i as int);
                let va = limbs_val(a@.take(i as int));
                let vb = limbs_val(b@);
                let pi = pw(i as nat);
                assert((va + ai as nat * pi) * vb == va * vb + ai as nat * vb * pi) by (nonlinear_arith);
            }
            if carry > 0 {
                let k = i + m;
                proof {
                    lemma_val_update(limbs@, k as int, carry as u32);
                    assert(0 * pw(k as nat) == 0) by (nonlinear_arith);
                }
                limbs[k] = carry as u32;
            } else {
                assert(0 * pw((i + m) as nat) == 0) by (nonlinear_arith);
            }
            i = i + 1;
        }
        proof {
            assert(a@.take(n as int) =~= a@);
        }
        normalize(&mut limbs);
        Self { limbs }
    }

    /// `self mod modulus`, by bit-at-a-time long division from the top.
    pub fn rem(&self, modulus: &Self) -> (r: Self)
        requires
            modulus@ > 0,
        ensures
            r@ == self@ % modulus@,
            r.limb_count() <= modulus.limb_count(),
    {
        let r = self.rem_value(modulus);
        proof {
            use_type_invariant(&r);
            use_type_invariant(modulus);
            vstd::arithmetic::div_mod::lemma_mod_bound(self@ as int, modulus@ as int);
            if r.limbs@.len() > modulus.limbs@.len() {
                lemma_val_len_order(modulus.limbs@, r.limbs@);
            }
        }
        r
    }

    fn rem_value(&self, modulus: &Self) -> (r: Self)
        requires
            modulus@ > 0,
        ensures
            r@ == self@ % modulus@,
    {
        proof {
            use_type_invariant(self);
        }
        if self.lt(modulus) {
            proof {
                lemma_small_mod(self@, modulus@);
            }
            return self.copy();
        }
        let ghost mm = modulus@;
        let ghost s = self.limbs@;
        let mut rem = Self::zero();
        let n = self.limbs.len();
        let mut k = n;
        proof {
            assert(s.skip(n as int) =~= Seq::<u32>::empty());
            lemma_small_mod(0, mm);
        }
        while k > 0
            invariant
                k <= n,
                n == s.len(),
                s == self.limbs@,
                mm == modulus@,
                mm > 0,
                rem@ == limbs_val(s.skip(k as int)) % mm,
                rem@ < mm,
            decreases k,
        {
            k = k - 1;
            let limb = self.limbs[k];
            let ghost hi = limbs_val(s.skip(k as int + 1));
            let mut bit: u32 = 32;
            proof {
                lemma2_to64();
                assert(limb as nat / pow2(32) == 0);
                assert(hi * pow2(0) == hi) by (nonlinear_arith) requires pow2(0) == 1;
            }
            while bit > 0
                invariant
                    bit <= 32,
                    mm == modulus@,
                    mm > 0,
                    rem@ == (hi * pow2((32 - bit) as nat) + limb as nat / pow2(bit as nat)) % mm,
                    rem@ < mm,
                decreases bit,
            {
                let ghost q = hi * pow2((32 - bit) as nat) + limb as nat / pow2(bit as nat);
                bit = bit - 1;
                let b = (limb >> bit) & 1;
                proof {
                    lemma_limb_bit(limb, bit);
                    lemma_scan_down(hi, limb, bit as nat);
                    lemma_rem_step(q, rem@, b as nat, mm);
                }
                let doubled = rem.shl1();
                let grown = if b == 1 {
                    proof {
                        assert((2 * rem@) % 2 == 0);
                    }
                    doubled.set_low_bit()
                } else {
                    doubled
                };
                if grown.lt(modulus) {
                    proof {
                        lemma_small_mod(grown@, mm);
                    }
                    rem = grown;
                } else {
                    proof {
                        lemma_small_mod((grown@ - mm) as nat, mm);
                        vstd::arithmetic::div_mod::lemma_mod_sub_multiples_vanish(grown@ as int, mm as int);
                    }
                    rem = grown.sub(modulus);
                }
            }
            proof {
                lemma2_to64();
                let t = s.skip(k as int);
                lemma_val_split(t, 1);
                assert(t.take(1) =~= Seq::<u32>::empty().push(limb));
                lemma_val_push(Seq::<u32>::empty(), limb);
                assert(limb as nat * pw(0) == limb as nat) by (nonlinear_arith) requires pw(0) == 1;
                assert(t.skip(1) =~= s.skip(k as int + 1));
                assert(pw(1) == limb_base());
                assert(limb as nat / pow2(0) == limb as nat);
                assert(hi * pow2(32) == limb_base() * hi) by (nonlinear_arith) requires pow2(32) == limb_base();
            }
        }
        proof {
            assert(s.skip(0) =~= s);
        }
        rem
    }

    /// Modular exponentiation: `self^exp mod modulus` (zero for a zero modulus).
    pub fn modpow(&self, exp: &Self, modulus: &Self) -> (r: Self)
        requires
            modulus.limb_count() <= usize::MAX / 2,
        ensures
            modulus@ == 0 ==> r@ == 0,
            modulus@ > 0 ==> r@ == pow(self@ as int, exp@) % (modulus@ as int),
    {
        proof {
            use_type_invariant(exp);
        }
        if modulus.is_zero() {
            return Self::zero();
        }
        let ghost mm = modulus@;
        let ghost b = self@ as int;
        let ghost e = exp.limbs@;
        let mut result = Self::from_u32(1).rem(modulus);
        let mut base = self.rem(modulus);
        proof {
            lemma_pow0(b);
            lemma_pow1(b);
            lemma2_to64();
            assert(e.take(0) =~= Seq::<u32>::empty());
        }
        let n = exp.limbs.len();
        let mut k: usize = 0;
        while k < n
            invariant
                k <= n,
                n == e.len(),
                e == exp.limbs@,
                mm == modulus@,
                mm > 0,
                b == self@ as int,
                result@ == pow(b, limbs_val(e.take(k as int))) % (mm as int),
                base@ == pow(b, pow2(32 * k as nat)) % (mm as int),
                result.limb_count() <= modulus.limb_count(),
                base.limb_count() <= modulus.limb_count(),
                modulus.limb_count() <= usize::MAX / 2,
            decreases n - k,
        {
            let limb = exp.limbs[k];
            let ghost lo = limbs_val(e.take(k as int));
            let mut bit: u32 = 0;
            proof {
                lemma2_to64();
                assert(limb as nat % pow2(0) == 0);
                assert(0 * pw(k as nat) == 0) by (nonlinear_arith);
            }
            while bit < 32
                invariant
                    bit <= 32,
                    mm == modulus@,
                    mm > 0,
                    b == self@ as int,
                    result@ == pow(b, lo + (limb as nat % pow2(bit as nat)) * pw(k as nat)) % (mm as int),
                    base@ == pow(b, pow2(32 * k as nat + bit as nat)) % (mm as int),
                    result.limb_count() <= modulus.limb_count(),
                    base.limb_count() <= modulus.limb_count(),
                    modulus.limb_count() <= usize::MAX / 2,
                decreases 32 - bit,
            {
                let t = (limb >> bit) & 1;
                let ghost ex = lo + (limb as nat % pow2(bit as nat)) * pw(k as nat);
                let ghost j = 32 * k as nat + bit as nat;
                proof {
                    lemma_limb_bit(limb, bit);
                    lemma_scan_up(lo, limb, bit as nat, k as nat);
                    lemma_pow2_unfold(j + 1);
                    lemma_pow_adds(b, pow2(j), pow2(j));
                    lemma_mul_mod_noop(pow(b, pow2(j)), pow(b, pow2(j)), mm as int);
                    assert(pow2(j) + pow2(j) == pow2(j + 1));
                }
                if t == 1 {
                    proof {
                        lemma_pow_adds(b, ex, pow2(j));
                        lemma_mul_mod_noop(pow(b, ex), pow(b, pow2(j)), mm as int);
                        assert(((limb as nat / pow2(bit as nat)) % 2) * pow2(j) == pow2(j)) by (nonlinear_arith)
                            requires
                                ((limb as nat / pow2(bit as nat)) % 2) == 1,
                        ;
                    }
                    result = result.mul(&base).rem(modulus);
                } else {
                    proof {
                        assert(((limb as nat / pow2(bit as nat)) % 2) * pow2(j) == 0) by (nonlinear_arith)
                            requires
                                ((limb as nat / pow2(bit as nat)) % 2) == 0,
                        ;
                    }
                }
                base = base.mul(&base).rem(modulus);
                bit = bit + 1;
            }
            proof {
                lemma2_to64();
                vstd::arithmetic::div_mod::lemma_small_mod(limb as nat, pow2(32));
                lemma_val_take(e, k as int);
                assert(32 * (k + 1) as nat == 32 * k as nat + 32);
            }
            k = k + 1;
        }
        proof {
            assert(e.take(n as int) =~= e);
        }
        result
    }

    /// `self - other`, given `self >= other`.
    fn sub(&self, other: &Self) -> (r: Self)
        requires
            self@ >= other@,
        ensures
            r@ == self@ - other@,
    {
        proof {
            use_type_invariant(self);
            use_type_invariant(other);
            if other.limbs@.len() > self.limbs@.len() {
                lemma_val_len_order(self.limbs@, other.limbs@);
            }
        }
        let a = &self.limbs;
        let b = &other.limbs;
        let n = a.len();
        let mut limbs: Vec<u32> = Vec::new();
        let mut borrow: u32 = 0;
        let mut i: usize = 0;
        while i < n
            invariant
                n == a@.len(),
                a@ == self.limbs@,
                b@ == other.limbs@,
                b@.len() <= n,
                i <= n,
                limbs@.len() == i,
                borrow <= 1,
                limbs_val(limbs@) + limbs_val(b@.take(if i <= b@.len() { i as int } else { b@.len() as int }))
                    == limbs_val(a@.take(i as int)) + borrow as nat * pw(i as nat),
            decreases n - i,
        {
            let o: u32 = if i < b.len() { b[i] } else { 0 };
            let ai = a[i];
            let d: u32;
            let nb: u32;
            if (ai as u64) < (o as u64) + (borrow as u64) {
                d = ((ai as u64) + 0x1_0000_0000 - (o as u64) - (borrow as u64)) as u32;
                nb = 1;
            } else {
                d = ai - o - borrow;
                nb = 0;
            }
            proof {
                lemma_val_push(limbs@, d);
                lemma_val_take(a@, i as int);
                if i < b@.len() {
                    lemma_val_take(b@, i as int);
                } else {
                    assert(b@.take(b@.len() as int) =~= b@);
                }
                assert(pw(i as nat + 1) == limb_base() * pw(i as nat));
                let p = pw(i as nat);
                let (d_n, o_n, b_n, a_n, nb_n) = (d as nat, o as nat, borrow as nat, ai as nat, nb as nat);
                assert(d_n + o_n + b_n == a_n + nb_n * limb_base());
                assert(d_n * p + o_n * p + b_n * p == a_n * p + nb_n * (limb_base() * p)) by (nonlinear_arith)
                    requires
                        d_n + o_n + b_n == a_n + nb_n * limb_base(),
                ;
            }
            limbs.push(d);
            borrow = nb;
            i = i + 1;
        }
        proof {
            lemma_val_full(a@);
            assert(b@.take(b@.len() as int) =~= b@);
            lemma_val_bound(limbs@);
            lemma_pw_pos(n as nat);
            let p = pw(n as nat);
            let bn = borrow as nat;
            assert(bn * p == (if bn == 0 { 0 } else { p })) by (nonlinear_arith)
                requires
                    bn <= 1,
            ;
        }
        normalize(&mut limbs);
        Self { limbs }
    }
}

/// Little-endian bytes read into a number (`from_bytes_le`) and written
/// back at their own length (`to_bytes_le`) come out unchanged: any `r` that
/// `to_bytes_le` may return there is `b`.
pub proof fn lemma_bytes_le_roundtrip(b: Seq<u8>, r: Seq<u8>)
    requires
        r.len() == b.len(),
        le_value(r) == le_value(b) % pow256(b.len()),
    ensures
        r == b,
{
    lemma_le_bound(b);
    vstd::arithmetic::div_mod::lemma_small_mod(le_value(b), pow256(b.len()));
    lemma_le_value_injective(r, b);
}

/// Big-endian bytes read into a number (`from_bytes_be`) and written back
/// little-endian at their own length (`to_bytes_le`) come out reversed.
pub proof fn lemma_bytes_be_to_le(b: Seq<u8>, r: Seq<u8>)
    requires
        r.len() == b.len(),
        le_value(r) == be_value(b) % pow256(b.len()),
    ensures
        r == b.reverse(),
{
    let rev = Seq::new(b.len(), |k: int| b[b.len() - 1 - k]);
    lemma_le_of_reversed(b);
    assert(rev.len() == b.len());
    lemma_bytes_le_roundtrip(rev, r);
    assert(rev =~= b.reverse());
}

} // verus!
