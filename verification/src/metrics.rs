//! Performance telemetry: timing samples pushed into per-metric vectors and
//! counters, drained into a report of percentiles and totals every window.
//! The state here is plain values; the client shares it across threads.
use vstd::prelude::*;

verus! {

/// Whether `s` is in ascending order.
pub open spec fn sorted(s: Seq<u64>) -> bool {
    forall|i: int, j: int| 0 <= i <= j < s.len() ==> s[i] <= s[j]
}

/// `slice::sort_unstable` of the standard library: sorts ascending; the
/// result is a permutation of the input.
#[verifier::external_body]
fn sort_samples(v: &mut Vec<u64>)
    ensures
        sorted(final(v)@),
        final(v)@.to_multiset() == old(v)@.to_multiset(),
{
    v.sort_unstable();
}

/// The sample at fraction `permille / 1000` of a sorted list: index
/// `(n - 1) * permille / 1000` (rounded down, clamped to the last); zero
/// for no samples.
pub open spec fn spec_percentile(s: Seq<u64>, permille: nat) -> u64 {
    if s.len() == 0 {
        0
    } else {
        let idx = (s.len() - 1) * permille / 1000;
        s[if idx < s.len() - 1 { idx } else { s.len() - 1 }]
    }
}

/// The sample at `permille / 1000` of `sorted_samples`.
pub fn percentile(sorted_samples: &[u64], permille: u64) -> (r: u64)
    requires
        permille <= 1000,
    ensures
        r == spec_percentile(sorted_samples@, permille as nat),
{
    let n = sorted_samples.len();
    if n == 0 {
        return 0;
    }
    proof {
        assert((n - 1) * permille <= (n - 1) * 1000) by (nonlinear_arith)
            requires permille <= 1000, n >= 1;
    }
    let idx = ((n as u128 - 1) * permille as u128 / 1000) as usize;
    let i = if idx < n - 1 { idx } else { n - 1 };
    sorted_samples[i]
}

/// Percentiles of sorted samples never decrease as the fraction grows.
pub proof fn lemma_percentile_monotone(s: Seq<u64>, p: nat, q: nat)
    requires
        sorted(s),
        p <= q <= 1000,
    ensures
        spec_percentile(s, p) <= spec_percentile(s, q),
{
    if s.len() > 0 {
        let n = s.len() - 1;
        assert(n * p / 1000 <= n * q / 1000) by (nonlinear_arith)
            requires p <= q, n >= 0;
        assert(n * q / 1000 <= n) by (nonlinear_arith)
            requires q <= 1000, n >= 0;
    }
}

/// A snapshot of one telemetry window.
#[derive(Debug, Default)]
pub struct MetricsReport {
    pub decode_p50: u64,
    pub decode_p99: u64,
    pub decode_p999: u64,
    pub present_p50: u64,
    pub present_p99: u64,
    pub present_p999: u64,
    pub frame_interval_p50: u64,
    pub frame_interval_p99: u64,
    pub frames_decoded: u64,
    pub frames_presented: u64,
    pub blits_submitted: u64,
    pub allocations: u64,
    pub bytes_allocated: u64,
    pub gpu_decode_p99: u64,
    pub gpu_present_p99: u64,
    pub rtt_p50: u64,
    pub rtt_p99: u64,
    pub network_rx_bytes: u64,
    pub network_tx_bytes: u64,
}

impl MetricsReport {
    /// True if any frames were observed in this window.
    pub fn has_data(&self) -> (r: bool)
        ensures
            r == (self.frames_decoded > 0 || self.frames_presented > 0),
    {
        self.frames_decoded > 0 || self.frames_presented > 0
    }
}

/// Timing samples (microseconds) and counters of the current window.
pub struct Metrics {
    decode_us: Vec<u64>,
    present_us: Vec<u64>,
    frame_interval_us: Vec<u64>,
    gpu_decode_us: Vec<u64>,
    gpu_present_us: Vec<u64>,
    rtt_us: Vec<u64>,
    frames_decoded: u64,
    frames_presented: u64,
    blits_submitted: u64,
    network_bytes_rx: u64,
    network_bytes_tx: u64,
}

/// The metrics as values: the six sample lists and five counters.
pub struct MetricsModel {
    pub decode: Seq<u64>,
    pub present: Seq<u64>,
    pub frame_interval: Seq<u64>,
    pub gpu_decode: Seq<u64>,
    pub gpu_present: Seq<u64>,
    pub rtt: Seq<u64>,
    pub frames_decoded: u64,
    pub frames_presented: u64,
    pub blits_submitted: u64,
    pub network_rx: u64,
    pub network_tx: u64,
}

impl View for Metrics {
    type V = MetricsModel;

    closed spec fn view(&self) -> MetricsModel {
        MetricsModel {
            decode: self.decode_us@,
            present: self.present_us@,
            frame_interval: self.frame_interval_us@,
            gpu_decode: self.gpu_decode_us@,
            gpu_present: self.gpu_present_us@,
            rtt: self.rtt_us@,
            frames_decoded: self.frames_decoded,
            frames_presented: self.frames_presented,
            blits_submitted: self.blits_submitted,
            network_rx: self.network_bytes_rx,
            network_tx: self.network_bytes_tx,
        }
    }
}

/// Counters wrap around, as atomic adds do.
pub open spec fn wrapping(a: u64, b: u64) -> u64 {
    ((a as nat + b as nat) % 0x1_0000_0000_0000_0000) as u64
}

fn wrap_add(a: u64, b: u64) -> (r: u64)
    ensures
        r == wrapping(a, b),
{
    if a <= u64::MAX - b {
        a + b
    } else {
        b - (u64::MAX - a) - 1
    }
}

/// Take the samples out (leaving none) and sort them.
fn take_sorted(v: &mut Vec<u64>) -> (r: Vec<u64>)
    ensures
        final(v)@.len() == 0,
        sorted(r@),
        r@.to_multiset() == old(v)@.to_multiset(),
{
    let mut data: Vec<u64> = Vec::new();
    std::mem::swap(&mut data, v);
    sort_samples(&mut data);
    data
}

/// The empty window.
pub open spec fn empty_metrics() -> MetricsModel {
    MetricsModel {
        decode: Seq::empty(),
        present: Seq::empty(),
        frame_interval: Seq::empty(),
        gpu_decode: Seq::empty(),
        gpu_present: Seq::empty(),
        rtt: Seq::empty(),
        frames_decoded: 0,
        frames_presented: 0,
        blits_submitted: 0,
        network_rx: 0,
        network_tx: 0,
    }
}

impl Metrics {
    pub fn new() -> (r: Self)
        ensures
            r@ == empty_metrics(),
    {
        Metrics {
            decode_us: Vec::new(),
            present_us: Vec::new(),
            frame_interval_us: Vec::new(),
            gpu_decode_us: Vec::new(),
            gpu_present_us: Vec::new(),
            rtt_us: Vec::new(),
            frames_decoded: 0,
            frames_presented: 0,
            blits_submitted: 0,
            network_bytes_rx: 0,
            network_bytes_tx: 0,
        }
    }

    /// A decoded frame took `us` microseconds.
    pub fn record_decode_us(&mut self, us: u64)
        ensures
            final(self)@ == (MetricsModel {
                decode: old(self)@.decode.push(us),
                frames_decoded: wrapping(old(self)@.frames_decoded, 1),
                ..old(self)@
            }),
    {
        self.decode_us.push(us);
        self.frames_decoded = wrap_add(self.frames_decoded, 1);
    }

    /// A presented frame took `us` microseconds.
    pub fn record_present_us(&mut self, us: u64)
        ensures
            final(self)@ == (MetricsModel {
                present: old(self)@.present.push(us),
                frames_presented: wrapping(old(self)@.frames_presented, 1),
                ..old(self)@
            }),
    {
        self.present_us.push(us);
        self.frames_presented = wrap_add(self.frames_presented, 1);
    }

    /// The time between two frames.
    pub fn record_frame_interval_us(&mut self, us: u64)
        ensures
            final(self)@ == (MetricsModel { frame_interval: old(self)@.frame_interval.push(us), ..old(self)@ }),
    {
        self.frame_interval_us.push(us);
    }

    /// GPU time of a decode.
    pub fn record_gpu_decode_us(&mut self, us: u64)
        ensures
            final(self)@ == (MetricsModel { gpu_decode: old(self)@.gpu_decode.push(us), ..old(self)@ }),
    {
        self.gpu_decode_us.push(us);
    }

    /// GPU time of a present.
    pub fn record_gpu_present_us(&mut self, us: u64)
        ensures
            final(self)@ == (MetricsModel { gpu_present: old(self)@.gpu_present.push(us), ..old(self)@ }),
    {
        self.gpu_present_us.push(us);
    }

    /// A round-trip time measurement.
    pub fn record_rtt_us(&mut self, us: u64)
        ensures
            final(self)@ == (MetricsModel { rtt: old(self)@.rtt.push(us), ..old(self)@ }),
    {
        self.rtt_us.push(us);
    }

    /// A blit was submitted (its size is not recorded).
    pub fn record_blit(&mut self, bytes: u64)
        ensures
            final(self)@ == (MetricsModel { blits_submitted: wrapping(old(self)@.blits_submitted, 1), ..old(self)@ }),
    {
        self.blits_submitted = wrap_add(self.blits_submitted, 1);
    }

    /// Network bytes received and sent.
    pub fn add_network_bytes(&mut self, rx: u64, tx: u64)
        ensures
            final(self)@ == (MetricsModel {
                network_rx: wrapping(old(self)@.network_rx, rx),
                network_tx: wrapping(old(self)@.network_tx, tx),
                ..old(self)@
            }),
    {
        self.network_bytes_rx = wrap_add(self.network_bytes_rx, rx);
        self.network_bytes_tx = wrap_add(self.network_bytes_tx, tx);
    }

    /// Drain all samples and counters into a report: percentiles of each
    /// sample list (p50/p99/p99.9 as the report lists them), the counters,
    /// and the allocation totals handed in. The window starts empty again.
    pub fn report_and_reset(&mut self, allocations: u64, bytes_allocated: u64) -> (r: MetricsReport)
        ensures
            final(self)@ == empty_metrics(),
            exists|d: Seq<u64>, p: Seq<u64>, f: Seq<u64>, gd: Seq<u64>, gp: Seq<u64>, t: Seq<u64>|
                #![trigger sorted(d), sorted(p), sorted(f), sorted(gd), sorted(gp), sorted(t)]
                sorted(d) && d.to_multiset() == old(self)@.decode.to_multiset()
                && sorted(p) && p.to_multiset() == old(self)@.present.to_multiset()
                && sorted(f) && f.to_multiset() == old(self)@.frame_interval.to_multiset()
                && sorted(gd) && gd.to_multiset() == old(self)@.gpu_decode.to_multiset()
                && sorted(gp) && gp.to_multiset() == old(self)@.gpu_present.to_multiset()
                && sorted(t) && t.to_multiset() == old(self)@.rtt.to_multiset()
                && r.decode_p50 == spec_percentile(d, 500) && r.decode_p99 == spec_percentile(d, 990)
                && r.decode_p999 == spec_percentile(d, 999) && r.present_p50 == spec_percentile(p, 500)
                && r.present_p99 == spec_percentile(p, 990) && r.present_p999 == spec_percentile(p, 999)
                && r.frame_interval_p50 == spec_percentile(f, 500) && r.frame_interval_p99 == spec_percentile(f, 990)
                && r.gpu_decode_p99 == spec_percentile(gd, 990) && r.gpu_present_p99 == spec_percentile(gp, 990)
                && r.rtt_p50 == spec_percentile(t, 500) && r.rtt_p99 == spec_percentile(t, 990),
            r.frames_decoded == old(self)@.frames_decoded,
            r.frames_presented == old(self)@.frames_presented,
            r.blits_submitted == old(self)@.blits_submitted,
            r.allocations == allocations,
            r.bytes_allocated == bytes_allocated,
            r.network_rx_bytes == old(self)@.network_rx,
            r.network_tx_bytes == old(self)@.network_tx,
    {
        let decode = take_sorted(&mut self.decode_us);
        let present = take_sorted(&mut self.present_us);
        let frame_interval = take_sorted(&mut self.frame_interval_us);
        let gpu_decode = take_sorted(&mut self.gpu_decode_us);
        let gpu_present = take_sorted(&mut self.gpu_present_us);
        let rtt = take_sorted(&mut self.rtt_us);
        let r = MetricsReport {
            decode_p50: percentile(decode.as_slice(), 500),
            decode_p99: percentile(decode.as_slice(), 990),
            decode_p999: percentile(decode.as_slice(), 999),
            present_p50: percentile(present.as_slice(), 500),
            present_p99: percentile(present.as_slice(), 990),
            present_p999: percentile(present.as_slice(), 999),
            frame_interval_p50: percentile(frame_interval.as_slice(), 500),
            frame_interval_p99: percentile(frame_interval.as_slice(), 990),
            frames_decoded: self.frames_decoded,
            frames_presented: self.frames_presented,
            blits_submitted: self.blits_submitted,
            allocations,
            bytes_allocated,
            gpu_decode_p99: percentile(gpu_decode.as_slice(), 990),
            gpu_present_p99: percentile(gpu_present.as_slice(), 990),
            rtt_p50: percentile(rtt.as_slice(), 500),
            rtt_p99: percentile(rtt.as_slice(), 990),
            network_rx_bytes: self.network_bytes_rx,
            network_tx_bytes: self.network_bytes_tx,
        };
        self.frames_decoded = 0;
        self.frames_presented = 0;
        self.blits_submitted = 0;
        self.network_bytes_rx = 0;
        self.network_bytes_tx = 0;
        assert(self@.decode =~= Seq::<u64>::empty());
        assert(self@.present =~= Seq::<u64>::empty());
        assert(self@.frame_interval =~= Seq::<u64>::empty());
        assert(self@.gpu_decode =~= Seq::<u64>::empty());
        assert(self@.gpu_present =~= Seq::<u64>::empty());
        assert(self@.rtt =~= Seq::<u64>::empty());
        r
    }
}

/// An empty window.
impl Default for Metrics {
    fn default() -> (r: Self)
        ensures
            r@ == empty_metrics(),
    {
        Self::new()
    }
}

} // verus!
