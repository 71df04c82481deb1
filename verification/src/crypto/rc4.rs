//! The RC4 stream cipher (Standard RDP Security bulk encryption).
use vstd::prelude::*;

verus! {

/// `s` with the bytes at `a` and `b` exchanged.
pub open spec fn swap_at(s: Seq<u8>, a: int, b: int) -> Seq<u8> {
    s.update(a, s[b]).update(b, s[a])
}

/// The identity permutation 0, 1, ..., 255.
pub open spec fn identity_perm() -> Seq<u8> {
    Seq::new(256, |k: int| k as u8)
}

/// The key-scheduling algorithm after `n` of its 256 rounds: the state
/// permutation and `j`.
pub open spec fn ksa(key: Seq<u8>, n: nat) -> (Seq<u8>, u8)
    decreases n,
{
    if n == 0 {
        (identity_perm(), 0)
    } else {
        let (s, j) = ksa(key, (n - 1) as nat);
        let i = n - 1;
        let j2 = ((j + s[i] + key[i % key.len() as int]) % 256) as u8;
        (swap_at(s, i, j2 as int), j2)
    }
}

/// The cipher state: permutation, `i`, `j`.
pub type Rc4State = (Seq<u8>, u8, u8);

/// One keystream byte: advance `i` and `j`, swap, and read the byte the two
/// swapped entries point at.
pub open spec fn prga_step(st: Rc4State) -> (Rc4State, u8) {
    let (s, i, j) = st;
    let i2 = ((i + 1) % 256) as u8;
    let j2 = ((j + s[i2 as int]) % 256) as u8;
    let s2 = swap_at(s, i2 as int, j2 as int);
    let k = s2[(s2[i2 as int] + s2[j2 as int]) % 256];
    ((s2, i2, j2), k)
}

/// The next `n` keystream bytes and the state after them.
pub open spec fn keystream(st: Rc4State, n: nat) -> (Rc4State, Seq<u8>)
    decreases n,
{
    if n == 0 {
        (st, Seq::empty())
    } else {
        let (st1, ks) = keystream(st, (n - 1) as nat);
        let (st2, k) = prga_step(st1);
        (st2, ks.push(k))
    }
}

/// Bytewise XOR of `d` with the first `d.len()` bytes of `k`.
pub open spec fn xor_bytes(d: Seq<u8>, k: Seq<u8>) -> Seq<u8> {
    Seq::new(d.len(), |i: int| d[i] ^ k[i])
}

/// The state a fresh cipher starts from.
pub open spec fn rc4_start(key: Seq<u8>) -> Rc4State {
    (ksa(key, 256).0, 0, 0)
}

/// RC4 keystream generator and cipher state.
#[derive(Clone)]
pub struct Rc4 {
    s: [u8; 256],
    i: u8,
    j: u8,
}

impl View for Rc4 {
    type V = Rc4State;

    closed spec fn view(&self) -> Rc4State {
        (self.s@, self.i, self.j)
    }
}

/// Exchange two entries of the permutation.
fn swap_entries(s: &mut [u8; 256], a: usize, b: usize)
    requires
        a < 256,
        b < 256,
    ensures
        final(s)@ == swap_at(old(s)@, a as int, b as int),
{
    let t = s[a];
    s[a] = s[b];
    s[b] = t;
    assert(s@ =~= swap_at(old(s)@, a as int, b as int));
}

pub proof fn lemma_keystream_len(st: Rc4State, n: nat)
    ensures
        keystream(st, n).1.len() == n,
    decreases n,
{
    if n > 0 {
        lemma_keystream_len(st, (n - 1) as nat);
    }
}

impl Rc4 {
    /// Initialise the cipher with `key` (the key-scheduling algorithm). The
    /// key must not be empty.
    pub fn new(key: &[u8]) -> (r: Self)
        requires
            key@.len() > 0,
        ensures
            r@ == rc4_start(key@),
    {
        let mut s = [0u8; 256];
        let mut idx: usize = 0;
        while idx < 256
            invariant
                idx <= 256,
                s@.len() == 256,
                forall|k: int| 0 <= k < idx ==> s@[k] == k as u8,
            decreases 256 - idx,
        {
            s[idx] = idx as u8;
            idx = idx + 1;
        }
        assert(s@ =~= identity_perm());
        let mut j: u8 = 0;
        let mut i: usize = 0;
        while i < 256
            invariant
                i <= 256,
                key@.len() > 0,
                s@.len() == 256,
                (s@, j) == ksa(key@, i as nat),
            decreases 256 - i,
        {
            let k = key[i % key.len()];
            j = ((j as u16 + s[i] as u16 + k as u16) % 256) as u8;
            swap_entries(&mut s, i, j as usize);
            i = i + 1;
        }
        Rc4 { s, i: 0, j: 0 }
    }

    /// XOR `data` in place with the next keystream bytes (encryption and
    /// decryption are the same operation).
    pub fn apply(&mut self, data: &mut [u8])
        ensures
            final(self)@ == keystream(old(self)@, old(data)@.len()).0,
            final(data)@ == xor_bytes(old(data)@, keystream(old(self)@, old(data)@.len()).1),
    {
        let ghost st0 = self@;
        let ghost d0 = data@;
        let n = data.len();
        let mut p: usize = 0;
        while p < n
            invariant
                p <= n,
                n == d0.len(),
                data@.len() == n,
                self.s@.len() == 256,
                self@ == keystream(st0, p as nat).0,
                forall|q: int| 0 <= q < p ==> data@[q] == d0[q] ^ #[trigger] keystream(st0, p as nat).1[q],
                forall|q: int| p <= q < n ==> data@[q] == d0[q],
            decreases n - p,
        {
            proof {
                lemma_keystream_len(st0, p as nat);
            }
            self.i = ((self.i as u16 + 1) % 256) as u8;
            self.j = ((self.j as u16 + self.s[self.i as usize] as u16) % 256) as u8;
            swap_entries(&mut self.s, self.i as usize, self.j as usize);
            let t = ((self.s[self.i as usize] as u16 + self.s[self.j as usize] as u16) % 256) as usize;
            let k = self.s[t];
            data[p] = data[p] ^ k;
            proof {
                let prev = keystream(st0, p as nat);
                assert(keystream(st0, p as nat + 1).1 == prev.1.push(k));
                assert forall|q: int| 0 <= q < p + 1 implies data@[q] == d0[q] ^ #[trigger] keystream(st0, p as nat + 1).1[q] by {
                    if q < p {
                        assert(keystream(st0, p as nat + 1).1[q] == prev.1[q]);
                    }
                }
            }
            p = p + 1;
        }
        proof {
            lemma_keystream_len(st0, n as nat);
        }
        assert(data@ =~= xor_bytes(d0, keystream(st0, n as nat).1));
    }
}

/// Encryption is its own inverse: XOR with the same keystream twice gives
/// the data back, so two ciphers started from the same key (or state) undo
/// each other.
pub proof fn lemma_rc4_roundtrip(st: Rc4State, data: Seq<u8>)
    ensures
        xor_bytes(xor_bytes(data, keystream(st, data.len()).1), keystream(st, data.len()).1) == data,
{
    let ks = keystream(st, data.len()).1;
    lemma_keystream_len(st, data.len());
    assert forall|i: int| 0 <= i < data.len() implies #[trigger] xor_bytes(xor_bytes(data, ks), ks)[i] == data[i] by {
        let a = data[i];
        let k = ks[i];
        assert((a ^ k) ^ k == a) by (bit_vector);
    }
    assert(xor_bytes(xor_bytes(data, ks), ks) =~= data);
}

proof fn lemma_keystream_split(st: Rc4State, n: nat, m: nat)
    ensures
        keystream(st, n + m).0 == keystream(keystream(st, n).0, m).0,
        keystream(st, n + m).1 == keystream(st, n).1 + keystream(keystream(st, n).0, m).1,
    decreases m,
{
    if m == 0 {
        assert(keystream(st, n).1 + Seq::<u8>::empty() =~= keystream(st, n).1);
    } else {
        lemma_keystream_split(st, n, (m - 1) as nat);
        assert((n + m - 1) as nat == n + (m - 1) as nat);
        let mid = keystream(st, n);
        let (st1, ks1) = keystream(mid.0, (m - 1) as nat);
        let (st2, k) = prga_step(st1);
        assert(keystream(mid.0, m) == (st2, ks1.push(k)));
        assert(mid.1 + ks1.push(k) =~= (mid.1 + ks1).push(k));
    }
}

/// The keystream runs on across calls: encrypting `a` and then `b` with one
/// cipher gives what encrypting `a + b` in one call gives, and leaves the
/// cipher in the same state.
pub proof fn lemma_rc4_continues(st: Rc4State, a: Seq<u8>, b: Seq<u8>)
    ensures
        keystream(keystream(st, a.len()).0, b.len()).0 == keystream(st, a.len() + b.len()).0,
        xor_bytes(a, keystream(st, a.len()).1) + xor_bytes(b, keystream(keystream(st, a.len()).0, b.len()).1)
            == xor_bytes(a + b, keystream(st, a.len() + b.len()).1),
{
    let mid = keystream(st, a.len());
    let k1 = mid.1;
    let k2 = keystream(mid.0, b.len()).1;
    lemma_keystream_split(st, a.len(), b.len());
    lemma_keystream_len(st, a.len());
    lemma_keystream_len(mid.0, b.len());
    let k = keystream(st, a.len() + b.len()).1;
    assert(k == k1 + k2);
    assert(xor_bytes(a, k1) + xor_bytes(b, k2) =~= xor_bytes(a + b, k));
}

} // verus!
