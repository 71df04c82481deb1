//! A capacity-bucketed pool of `Vec<u8>` buffers for decode allocations:
//! bucket `i` holds buffers whose capacity lies in `[2^i, 2^(i+1))`, each
//! recorded with the capacity it had when it was returned; a request for
//! `len` bytes looks in the bucket of `len` for a buffer that can hold it.
//! Buffers come out zeroed with exactly the requested length, and each
//! bucket retains at most a fixed number of buffers.
use vstd::prelude::*;
use vstd::std_specs::bits::u64_leading_zeros;
use vstd::arithmetic::power2::{pow2, lemma_pow2_unfold};

verus! {

/// Number of significant bits of `x`.
pub open spec fn bit_len(x: nat) -> nat
    decreases x,
{
    if x == 0 {
        0
    } else {
        1 + bit_len(x / 2)
    }
}

/// The bucket of a capacity: the largest `i` with `2^i <= capacity`, one
/// less than its bit length (0 for zero).
pub open spec fn spec_bucket_index(capacity: nat) -> nat {
    if capacity == 0 {
        0
    } else {
        (bit_len(capacity) - 1) as nat
    }
}

proof fn lemma_leading_zeros(x: u64)
    ensures
        64 - u64_leading_zeros(x) == bit_len(x as nat),
        bit_len(x as nat) <= 64,
    decreases x,
{
    reveal(u64_leading_zeros);
    vstd::std_specs::bits::axiom_u64_leading_zeros(x);
    if x > 0 {
        lemma_leading_zeros(x / 2);
    }
}

proof fn lemma_bit_len_range(c: nat)
    requires
        c >= 1,
    ensures
        bit_len(c) >= 1,
        pow2((bit_len(c) - 1) as nat) <= c < pow2(bit_len(c)),
    decreases c,
{
    vstd::arithmetic::power2::lemma2_to64();
    if c == 1 {
        assert(bit_len(0) == 0);
        assert(bit_len(1) == 1);
    } else {
        lemma_bit_len_range(c / 2);
        let k = bit_len(c / 2);
        assert(bit_len(c) == k + 1);
        lemma_pow2_unfold(k);
        lemma_pow2_unfold(k + 1);
        assert(pow2(k) == 2 * pow2((k - 1) as nat));
        assert(pow2(k + 1) == 2 * pow2(k));
    }
}

/// Bucket `i` holds exactly the capacities in `[2^i, 2^(i+1))`.
pub proof fn lemma_bucket_range(capacity: nat)
    requires
        capacity >= 1,
    ensures
        pow2(spec_bucket_index(capacity)) <= capacity < pow2(spec_bucket_index(capacity) + 1),
{
    lemma_bit_len_range(capacity);
}

/// The bucket of a capacity.
pub fn bucket_index(capacity: usize) -> (r: usize)
    ensures
        r == spec_bucket_index(capacity as nat),
        r <= 64,
{
    if capacity == 0 {
        return 0;
    }
    let x = capacity as u64;
    let lz = x.leading_zeros();
    proof {
        lemma_leading_zeros(x);
        lemma_bit_len_range(x as nat);
    }
    (63 - lz) as usize
}

/// `Vec::capacity` of the standard library: how many elements the vector
/// can hold without reallocating, never less than its length.
#[verifier::external_body]
fn vec_capacity(v: &Vec<u8>) -> (r: usize)
    ensures
        r >= v@.len(),
{
    v.capacity()
}

/// A bucketed pool of `Vec<u8>` buffers indexed by power-of-two capacity.
#[derive(Debug)]
pub struct BufferPool {
    /// Per bucket, the pooled buffers with the capacity each had when it
    /// was returned (clearing keeps a buffer's capacity).
    buckets: Vec<Vec<(Vec<u8>, usize)>>,
    max_per_bucket: usize,
}

/// The recorded capacities of one bucket.
pub open spec fn bucket_caps(b: Seq<(Vec<u8>, usize)>) -> Seq<nat> {
    b.map_values(|e: (Vec<u8>, usize)| e.1 as nat)
}

/// How many buffers each bucket holds.
pub open spec fn caps_counts(caps: Seq<Seq<nat>>) -> Seq<nat> {
    caps.map_values(|b: Seq<nat>| b.len())
}

/// The pool after a buffer of capacity `cap` is returned: tiny buffers are
/// dropped; otherwise the bucket list grows to reach its bucket, which takes
/// the buffer unless it is full.
pub open spec fn spec_release(caps: Seq<Seq<nat>>, max: nat, cap: nat) -> Seq<Seq<nat>> {
    if cap < 64 {
        caps
    } else {
        let idx = spec_bucket_index(cap);
        let grown = if caps.len() <= idx {
            caps + Seq::new((idx + 1 - caps.len()) as nat, |i: int| Seq::<nat>::empty())
        } else {
            caps
        };
        if grown[idx as int].len() < max {
            grown.update(idx as int, grown[idx as int].push(cap))
        } else {
            grown
        }
    }
}

/// The first position at or after `j` in `b` of a capacity of at least `len`.
pub open spec fn first_fit(b: Seq<nat>, len: nat, j: nat) -> Option<nat>
    decreases b.len() - j,
{
    if j >= b.len() {
        None
    } else if b[j as int] >= len {
        Some(j)
    } else {
        first_fit(b, len, j + 1)
    }
}

/// The pool after a request for `len` bytes: when the bucket of `len`
/// holds a buffer whose capacity is at least `len`, the first such buffer
/// leaves it (its place taken by the bucket's last); otherwise nothing
/// changes and a new buffer is allocated.
pub open spec fn spec_acquire(caps: Seq<Seq<nat>>, len: nat) -> Seq<Seq<nat>> {
    let idx = spec_bucket_index(len);
    if idx < caps.len() {
        match first_fit(caps[idx as int], len, 0) {
            Some(j) => {
                let b = caps[idx as int];
                caps.update(idx as int, b.update(j as int, b.last()).drop_last())
            },
            None => caps,
        }
    } else {
        caps
    }
}

/// The retention limit holds across releases: if no bucket holds more than
/// `max` buffers, none does after a buffer of any capacity is returned.
pub proof fn lemma_release_respects_limit(caps: Seq<Seq<nat>>, max: nat, cap: nat)
    requires
        forall|i: int| 0 <= i < caps.len() ==> caps[i].len() <= max,
    ensures
        forall|i: int| 0 <= i < spec_release(caps, max, cap).len() ==> #[trigger] spec_release(caps, max, cap)[i].len() <= max,
{
    if cap >= 64 {
        let idx = spec_bucket_index(cap);
        let grown = if caps.len() <= idx {
            caps + Seq::new((idx + 1 - caps.len()) as nat, |i: int| Seq::<nat>::empty())
        } else {
            caps
        };
        assert forall|i: int| 0 <= i < grown.len() implies grown[i].len() <= max by {
            if i >= caps.len() {
                assert(grown[i].len() == 0);
            }
        }
    }
}

/// Every pooled capacity sits in its own bucket.
pub open spec fn placed(caps: Seq<Seq<nat>>) -> bool {
    forall|i: int, j: int| 0 <= i < caps.len() && 0 <= j < caps[i].len() ==> spec_bucket_index(#[trigger] caps[i][j]) == i
}

/// Buffers stay in their buckets: releasing and acquiring keep every pooled
/// capacity in the bucket of its capacity.
pub proof fn lemma_buffers_stay_placed(caps: Seq<Seq<nat>>, max: nat, cap: nat, len: nat)
    requires
        placed(caps),
    ensures
        placed(spec_release(caps, max, cap)),
        placed(spec_acquire(caps, len)),
{
    if cap >= 64 {
        let idx = spec_bucket_index(cap);
        let grown = if caps.len() <= idx {
            caps + Seq::new((idx + 1 - caps.len()) as nat, |i: int| Seq::<nat>::empty())
        } else {
            caps
        };
        assert(placed(grown)) by {
            assert forall|i: int, j: int| 0 <= i < grown.len() && 0 <= j < grown[i].len() implies spec_bucket_index(#[trigger] grown[i][j]) == i by {
                assert(i < caps.len());
                assert(grown[i] == caps[i]);
            }
        }
        let r = spec_release(caps, max, cap);
        assert forall|i: int, j: int| 0 <= i < r.len() && 0 <= j < r[i].len() implies spec_bucket_index(#[trigger] r[i][j]) == i by {
            if i == idx && grown[idx as int].len() < max {
                if j < grown[i].len() {
                    assert(r[i][j] == grown[i][j]);
                } else {
                    assert(r[i][j] == cap);
                }
            } else {
                assert(r[i] == grown[i]);
            }
        }
    }
    let idx = spec_bucket_index(len);
    if idx < caps.len() {
        match first_fit(caps[idx as int], len, 0) {
            Some(j) => {
                let b = caps[idx as int];
                let nb = b.update(j as int, b.last()).drop_last();
                let a = spec_acquire(caps, len);
                lemma_first_fit(b, len, 0);
                assert(a == caps.update(idx as int, nb));
                assert forall|i: int, k: int| 0 <= i < a.len() && 0 <= k < a[i].len() implies spec_bucket_index(#[trigger] a[i][k]) == i by {
                    if i == idx {
                        assert(a[i] == nb);
                        if k == j {
                            assert(nb[k] == b[b.len() - 1]);
                        } else {
                            assert(nb[k] == b[k]);
                        }
                    } else {
                        assert(a[i] == caps[i]);
                    }
                }
            },
            None => {},
        }
    }
}

proof fn lemma_first_fit(b: Seq<nat>, len: nat, j: nat)
    ensures
        first_fit(b, len, j) matches Some(k) ==> j <= k < b.len() && b[k as int] >= len
            && forall|m: int| j <= m < k ==> b[m] < len,
        first_fit(b, len, j) is None ==> forall|m: int| j <= m < b.len() ==> b[m] < len,
    decreases b.len() - j,
{
    if j < b.len() && b[j as int] < len {
        lemma_first_fit(b, len, j + 1);
    }
}

impl BufferPool {
    /// The capacities recorded in each bucket.
    pub closed spec fn caps(&self) -> Seq<Seq<nat>> {
        self.buckets@.map_values(|b: Vec<(Vec<u8>, usize)>| bucket_caps(b@))
    }

    /// The number of buffers in each bucket.
    pub open spec fn counts(&self) -> Seq<nat> {
        caps_counts(self.caps())
    }

    /// The retention limit per bucket.
    pub closed spec fn limit(&self) -> nat {
        self.max_per_bucket as nat
    }

    /// An empty pool with the default retention limit of 8.
    pub fn new() -> (r: Self)
        ensures
            r.caps().len() == 0,
            r.limit() == 8,
    {
        Self::with_limit(8)
    }

    /// An empty pool retaining at most `max_per_bucket` buffers per bucket.
    pub fn with_limit(max_per_bucket: usize) -> (r: Self)
        ensures
            r.caps().len() == 0,
            r.limit() == max_per_bucket,
    {
        let r = BufferPool { buckets: Vec::new(), max_per_bucket };
        assert(r.caps() =~= Seq::<Seq<nat>>::empty());
        r
    }

    /// How many buffers bucket `idx` holds (zero past the last bucket).
    pub fn bucket_len(&self, idx: usize) -> (r: usize)
        ensures
            r == (if idx < self.caps().len() { self.caps()[idx as int].len() } else { 0 }),
    {
        if idx < self.buckets.len() {
            self.buckets[idx].len()
        } else {
            0
        }
    }

    /// A zeroed buffer of exactly `len` bytes. When the bucket of `len`
    /// holds a buffer whose capacity is at least `len`, the first such one
    /// is taken out and reused (see [`spec_acquire`]); the other buckets and
    /// buffers stay.
    pub fn acquire(&mut self, len: usize) -> (r: Vec<u8>)
        ensures
            r@ == Seq::new(len as nat, |i: int| 0u8),
            final(self).limit() == old(self).limit(),
            final(self).caps() == spec_acquire(old(self).caps(), len as nat),
    {
        let ghost c0 = self.caps();
        let idx = bucket_index(len);
        if idx < self.buckets.len() {
            let mut bucket = self.buckets.remove(idx);
            let ghost b0 = bucket_caps(bucket@);
            assert(b0 == c0[idx as int]);
            proof {
                lemma_first_fit(b0, len as nat, 0);
            }
            let mut pos: usize = 0;
            let mut found = false;
            while pos < bucket.len()
                invariant_except_break
                    pos <= bucket@.len(),
                    !found,
                    b0 == bucket_caps(bucket@),
                    forall|m: int| 0 <= m < pos ==> b0[m] < len,
                ensures
                    b0 == bucket_caps(bucket@),
                    found ==> pos < bucket@.len() && b0[pos as int] >= len && forall|m: int| 0 <= m < pos ==> b0[m] < len,
                    !found ==> forall|m: int| 0 <= m < bucket@.len() ==> b0[m] < len,
                decreases bucket@.len() - pos,
            {
                if bucket[pos].1 >= len {
                    found = true;
                    break;
                }
                pos = pos + 1;
            }
            if found {
                proof {
                    if first_fit(b0, len as nat, 0) != Some(pos as nat) {
                        match first_fit(b0, len as nat, 0) {
                            Some(k) => {
                                if k < pos {
                                } else {
                                    assert(b0[pos as int] < len);
                                }
                            },
                            None => {
                                assert(b0[pos as int] < len);
                            },
                        }
                    }
                }
                let (mut candidate, _cap) = bucket.swap_remove(pos);
                candidate.clear();
                let mut k: usize = 0;
                while k < len
                    invariant
                        k <= len,
                        candidate@ == Seq::new(k as nat, |i: int| 0u8),
                    decreases len - k,
                {
                    candidate.push(0);
                    k = k + 1;
                    assert(candidate@ =~= Seq::new(k as nat, |i: int| 0u8));
                }
                assert(bucket_caps(bucket@) =~= b0.update(pos as int, b0.last()).drop_last());
                self.buckets.insert(idx, bucket);
                assert(self.caps() =~= spec_acquire(c0, len as nat));
                return candidate;
            }
            proof {
                match first_fit(b0, len as nat, 0) {
                    Some(k) => {
                        assert(b0[k as int] < len);
                    },
                    None => {},
                }
            }
            self.buckets.insert(idx, bucket);
            assert(self.caps() =~= c0);
        }
        let v = vec![0u8; len];
        assert(v@ =~= Seq::new(len as nat, |i: int| 0u8));
        v
    }

    /// Return a buffer whose capacity is `cap` to the pool (see
    /// [`spec_release`]).
    pub fn release_with_capacity(&mut self, buf: Vec<u8>, cap: usize)
        ensures
            final(self).caps() == spec_release(old(self).caps(), old(self).limit(), cap as nat),
            final(self).limit() == old(self).limit(),
    {
        let ghost c0 = self.caps();
        if cap < 64 {
            return;
        }
        let mut buf = buf;
        buf.clear();
        let idx = bucket_index(cap);
        let ghost grown = if c0.len() <= idx {
            c0 + Seq::new((idx + 1 - c0.len()) as nat, |i: int| Seq::<nat>::empty())
        } else {
            c0
        };
        assert(c0.len() == self.buckets@.len());
        assert(Seq::new((self.buckets@.len() - c0.len()) as nat, |i: int| Seq::<nat>::empty()) =~= Seq::<Seq<nat>>::empty());
        assert(c0 + Seq::<Seq<nat>>::empty() =~= c0);
        assert(self.caps() =~= c0 + Seq::new((self.buckets@.len() - c0.len()) as nat, |i: int| Seq::<nat>::empty()));
        while self.buckets.len() <= idx
            invariant
                idx <= 64,
                c0.len() <= self.buckets@.len(),
                c0.len() <= idx ==> self.buckets@.len() <= idx + 1,
                c0.len() > idx ==> self.buckets@.len() == c0.len(),
                self.caps() =~= c0 + Seq::new((self.buckets@.len() - c0.len()) as nat, |i: int| Seq::<nat>::empty()),
                self.limit() == old(self).limit(),
            decreases idx + 1 - self.buckets@.len(),
        {
            let ghost before = self.caps();
            let ghost bb = self.buckets@;
            let empty: Vec<(Vec<u8>, usize)> = Vec::new();
            self.buckets.push(empty);
            assert(bucket_caps(empty@) =~= Seq::<nat>::empty());
            assert(self.buckets@ == bb.push(empty));
            assert(self.caps() =~= before.push(Seq::<nat>::empty()));
            assert(self.caps() =~= c0 + Seq::new((self.buckets@.len() - c0.len()) as nat, |i: int| Seq::<nat>::empty()));
        }
        assert(self.caps() =~= grown);
        let mut bucket = self.buckets.remove(idx);
        let ghost b0 = bucket_caps(bucket@);
        if bucket.len() < self.max_per_bucket {
            bucket.push((buf, cap));
            assert(bucket_caps(bucket@) =~= b0.push(cap as nat));
        }
        self.buckets.insert(idx, bucket);
        assert(self.caps() =~= spec_release(c0, self.limit(), cap as nat));
    }

    /// Return a buffer to the pool: it is cleared and keeps its capacity for
    /// reuse; tiny buffers, and buffers whose bucket is full, are dropped.
    pub fn release(&mut self, buf: Vec<u8>)
        ensures
            exists|cap: nat| cap >= buf@.len() && final(self).caps() == #[trigger] spec_release(
                old(self).caps(),
                old(self).limit(),
                cap,
            ),
            final(self).limit() == old(self).limit(),
    {
        let cap = vec_capacity(&buf);
        let ghost n = buf@.len();
        self.release_with_capacity(buf, cap);
        assert(cap as nat >= n);
    }
}

/// An empty pool that retains nothing (limit zero).
impl Default for BufferPool {
    fn default() -> (r: Self)
        ensures
            r.caps().len() == 0,
            r.limit() == 0,
    {
        Self::with_limit(0)
    }
}

} // verus!
