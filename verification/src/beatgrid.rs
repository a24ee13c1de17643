//! Beat detection: frame energies, onset strengths, peak picking, interval
//! gating and a single tempo estimate.
//!
//! Amplitudes come in as fixed-point samples (`UNIT` is full scale), times go
//! out in milliseconds and the tempo in thousandths of a BPM. Every stage has
//! a specification-level twin, and the detector's contract ties its output to
//! the composition of those twins.

use vstd::arithmetic::div_mod::{
    lemma_div_is_ordered, lemma_div_is_ordered_by_denominator, lemma_div_multiples_vanish,
    lemma_fundamental_div_mod, lemma_hoist_over_denominator, lemma_multiply_divide_lt,
};
use vstd::prelude::*;

use crate::units::{MS_CAP, UNIT};

verus! {

/// Analysis window length in samples.
pub const WINDOW: usize = 1024;

/// Hop between successive analysis windows, in samples.
pub const HOP: usize = 512;

/// Default tempo, in thousandths of a BPM, when fewer than two peaks exist.
pub const DEFAULT_BPM_MILLI: i64 = 120000;

/// Shortest inter-beat interval kept for the tempo estimate, in milliseconds.
pub const MIN_INTERVAL_MS: i64 = 200;

/// Longest inter-beat interval kept for the tempo estimate, in milliseconds.
pub const MAX_INTERVAL_MS: i64 = 2000;

/// An ordered sequence of beat times (milliseconds) and one tempo estimate
/// (thousandths of a BPM).
#[derive(Debug, Clone)]
pub struct BeatGrid {
    pub beats: Vec<i64>,
    pub bpm_milli: i64,
}

impl BeatGrid {
    /// Beats strictly increase, lie in `[0, MS_CAP]`, and the tempo lies in
    /// the musically meaningful band of 30 to 300 BPM.
    pub open spec fn wf(self) -> bool {
        &&& forall|j: int, k: int|
            0 <= j < k < self.beats@.len() ==> self.beats@[j] < self.beats@[k]
        &&& forall|k: int| 0 <= k < self.beats@.len() ==> 0 <= #[trigger] self.beats@[k] <= MS_CAP
        &&& 30000 <= self.bpm_milli <= 300000
    }
}

/// Sum of the squares of `s[lo..lo + n]`.
pub open spec fn sq_sum(s: Seq<i64>, lo: int, n: int) -> int
    decreases n,
{
    if n <= 0 {
        0
    } else {
        sq_sum(s, lo, n - 1) + s[lo + n - 1] * s[lo + n - 1]
    }
}

/// Integer square root: the greatest `r` with `r * r <= n`.
pub open spec fn isqrt_spec(n: int) -> int
    decreases n,
{
    if n <= 0 {
        0
    } else {
        let r = isqrt_spec(n - 1);
        if (r + 1) * (r + 1) <= n {
            r + 1
        } else {
            r
        }
    }
}

/// How many whole analysis windows fit before `n - WINDOW`.
pub open spec fn frame_count(n: int) -> int {
    if n <= WINDOW {
        0
    } else {
        (n - WINDOW - 1) / (HOP as int) + 1
    }
}

/// Root-of-energy of each analysis frame.
pub open spec fn energy_seq(s: Seq<i64>) -> Seq<int> {
    Seq::new(
        frame_count(s.len() as int) as nat,
        |f: int| isqrt_spec(sq_sum(s, f * (HOP as int), WINDOW as int)),
    )
}

/// Positive first difference of the energies, with a leading zero.
pub open spec fn onset_seq(e: Seq<int>) -> Seq<int> {
    Seq::new(
        e.len(),
        |i: int|
            if i == 0 {
                0
            } else if e[i] > e[i - 1] {
                e[i] - e[i - 1]
            } else {
                0
            },
    )
}

/// `i` is a strict local maximum of `o` (ties are not peaks).
pub open spec fn is_peak(o: Seq<int>, i: int) -> bool {
    &&& 1 <= i
    &&& i + 1 < o.len()
    &&& o[i] > o[i - 1]
    &&& o[i] > o[i + 1]
}

/// The ascending peak indices of `o` from position `i` on.
pub open spec fn peaks_from(o: Seq<int>, i: int) -> Seq<int>
    decreases o.len() - i,
{
    if i + 1 >= o.len() {
        Seq::empty()
    } else if is_peak(o, i) {
        seq![i] + peaks_from(o, i + 1)
    } else {
        peaks_from(o, i + 1)
    }
}

/// All ascending peak indices of `o`.
pub open spec fn peak_seq(o: Seq<int>) -> Seq<int> {
    peaks_from(o, 1)
}

/// A frame index converted to milliseconds at `sr` samples per second.
pub open spec fn frame_ms(idx: int, sr: int) -> int {
    idx * (HOP as int) * 1000 / sr
}

/// The inter-peak intervals, in milliseconds, that lie inside the accepted band.
pub open spec fn gated_from(p: Seq<int>, k: int, sr: int) -> Seq<int>
    decreases p.len() - k,
{
    if k < 1 || k >= p.len() {
        Seq::empty()
    } else {
        let d = (p[k] - p[k - 1]) * (HOP as int) * 1000 / sr;
        if MIN_INTERVAL_MS <= d <= MAX_INTERVAL_MS {
            seq![d] + gated_from(p, k + 1, sr)
        } else {
            gated_from(p, k + 1, sr)
        }
    }
}

/// Sum of a sequence of integers.
pub open spec fn seq_sum(s: Seq<int>) -> int
    decreases s.len(),
{
    if s.len() == 0 {
        0
    } else {
        seq_sum(s.drop_last()) + s.last()
    }
}

/// Tempo from the kept intervals: `60 / mean`, or the default when no
/// interval lay inside the band.
pub open spec fn bpm_of_gated(g: Seq<int>) -> int {
    if g.len() == 0 {
        DEFAULT_BPM_MILLI as int
    } else {
        60000000int / (seq_sum(g) / g.len() as int)
    }
}

/// Beat times of the peaks; empty when fewer than two peaks were found.
pub open spec fn beats_of_peaks(p: Seq<int>, sr: int) -> Seq<int> {
    if p.len() < 2 {
        Seq::empty()
    } else {
        Seq::new(p.len(), |k: int| frame_ms(p[k], sr))
    }
}

/// The beat times the detector owes for `s` at rate `sr`.
pub open spec fn detect_beats_spec(s: Seq<i64>, sr: int) -> Seq<int> {
    beats_of_peaks(peak_seq(onset_seq(energy_seq(s))), sr)
}

/// The tempo the detector owes for `s` at rate `sr`.
pub open spec fn detect_bpm_spec(s: Seq<i64>, sr: int) -> int {
    bpm_of_gated(gated_from(peak_seq(onset_seq(energy_seq(s))), 1, sr))
}

/// Every inter-peak interval kept for the tempo estimate lies inside the
/// accepted band of 0.2 to 2 seconds.
pub proof fn lemma_kept_intervals_in_band(p: Seq<int>, k: int, sr: int)
    ensures
        forall|j: int|
            0 <= j < gated_from(p, k, sr).len() ==> MIN_INTERVAL_MS <= #[trigger] gated_from(
                p,
                k,
                sr,
            )[j] <= MAX_INTERVAL_MS,
    decreases p.len() - k,
{
    if 1 <= k < p.len() {
        lemma_kept_intervals_in_band(p, k + 1, sr);
        let g = gated_from(p, k, sr);
        let rest = gated_from(p, k + 1, sr);
        let d = (p[k] - p[k - 1]) * (HOP as int) * 1000 / sr;
        assert forall|j: int| 0 <= j < g.len() implies MIN_INTERVAL_MS <= #[trigger] g[j]
            <= MAX_INTERVAL_MS by {
            if MIN_INTERVAL_MS <= d <= MAX_INTERVAL_MS {
                if j > 0 {
                    assert(g[j] == rest[j - 1]);
                }
            } else {
                assert(g[j] == rest[j]);
            }
        }
    }
}

/// The defining property of `isqrt_spec`.
proof fn lemma_isqrt_bounds(n: int)
    requires
        n >= 0,
    ensures
        isqrt_spec(n) * isqrt_spec(n) <= n,
        n < (isqrt_spec(n) + 1) * (isqrt_spec(n) + 1),
        isqrt_spec(n) >= 0,
    decreases n,
{
    if n > 0 {
        lemma_isqrt_bounds(n - 1);
        let r = isqrt_spec(n - 1);
        if (r + 1) * (r + 1) <= n {
            assert(n == (r + 1) * (r + 1));
            assert((r + 1) * (r + 1) < (r + 2) * (r + 2)) by (nonlinear_arith)
                requires
                    r >= 0,
            ;
        }
    }
}

/// Only one value satisfies the square-root bracketing, so any `r` that does
/// is `isqrt_spec(n)`.
proof fn lemma_isqrt_unique(n: int, r: int)
    requires
        n >= 0,
        r >= 0,
        r * r <= n,
        n < (r + 1) * (r + 1),
    ensures
        r == isqrt_spec(n),
{
    lemma_isqrt_bounds(n);
    let s = isqrt_spec(n);
    if r < s {
        assert((r + 1) * (r + 1) <= s * s) by (nonlinear_arith)
            requires
                0 <= r,
                r + 1 <= s,
        ;
    }
    if s < r {
        assert((s + 1) * (s + 1) <= r * r) by (nonlinear_arith)
            requires
                0 <= s,
                s + 1 <= r,
        ;
    }
}

/// `c / d <= c` for nonnegative `c` and positive `d`.
proof fn lemma_div_le_self(c: int, d: int)
    requires
        c >= 0,
        d > 0,
    ensures
        0 <= c / d <= c,
{
    lemma_fundamental_div_mod(c, d);
    assert(0 <= c / d <= c) by (nonlinear_arith)
        requires
            c >= 0,
            d > 0,
            c == d * (c / d) + c % d,
            0 <= c % d < d,
    ;
}

/// Converting frame indices at least two apart to milliseconds keeps them in
/// strict order, for any realistic sample rate.
proof fn lemma_frame_ms_strict(a: int, b: int, sr: int)
    requires
        0 <= a,
        a + 2 <= b,
        8000 <= sr <= 384000,
    ensures
        frame_ms(a, sr) < frame_ms(b, sr),
{
    assert(a * 512 * 1000 + 2 * 512000 <= b * 512 * 1000) by (nonlinear_arith)
        requires
            a + 2 <= b,
    ;
    lemma_hoist_over_denominator(a * 512 * 1000, 2, sr as nat);
    lemma_div_is_ordered(a * 512 * 1000 + 2 * sr, b * 512 * 1000, sr);
}

/// Integer square root on the range the energy sums occupy.
fn isqrt64(n: i64) -> (r: i64)
    requires
        0 <= n <= 0x40000000000,
    ensures
        r as int == isqrt_spec(n as int),
        0 <= r <= 0x200000,
{
    let mut lo: i64 = 0;
    let mut hi: i64 = 0x200001;
    assert((0x200001 as int) * (0x200001 as int) > 0x40000000000) by (nonlinear_arith);
    while lo + 1 < hi
        invariant
            0 <= lo < hi <= 0x200001,
            lo * lo <= n,
            (n as int) < hi * hi,
        decreases hi - lo,
    {
        let mid = lo + (hi - lo) / 2;
        assert(lo < mid < hi);
        proof {
            assert(mid * mid <= 0x200001int * 0x200001) by (nonlinear_arith)
                requires
                    0 <= mid <= 0x200001,
            ;
        }
        if mid * mid <= n {
            lo = mid;
        } else {
            hi = mid;
        }
    }
    proof {
        lemma_isqrt_unique(n as int, lo as int);
    }
    lo
}

/// A frame index converted to milliseconds, with its bounds.
fn frame_to_ms(idx: usize, sr: i64) -> (t: i64)
    requires
        8000 <= sr <= 384000,
        idx <= 0x80000000,
    ensures
        t as int == frame_ms(idx as int, sr as int),
        0 <= t <= MS_CAP,
{
    let t = (idx as i64) * 512 * 1000 / sr;
    proof {
        lemma_div_le_self((idx as int) * 512 * 1000, sr as int);
        lemma_div_is_ordered_by_denominator((idx as int) * 512 * 1000, 8000, sr as int);
        lemma_div_is_ordered((idx as int) * 512 * 1000, 0x80000000int * 512 * 1000, 8000);
        assert(0x80000000int * 512 * 1000 == 8000 * 137438953472) by (nonlinear_arith);
        lemma_div_multiples_vanish(137438953472, 8000);
    }
    t
}

/// Detect the beat times and tempo of a mono fixed-point sample buffer.
///
/// Slides a `WINDOW`-sample window by `HOP`, takes the square root of each
/// window's energy, keeps strict local maxima of the positive energy
/// differences as peaks, keeps only inter-peak intervals inside `[0.2 s, 2 s]`,
/// and averages the survivors into one tempo. Fewer than two peaks yield the
/// default tempo and no beats.
pub fn detect_beats(samples: &Vec<i64>, sample_rate: i64) -> (grid: BeatGrid)
    requires
        8000 <= sample_rate <= 384000,
        samples@.len() <= 0x80000000,
        forall|k: int| 0 <= k < samples@.len() ==> -UNIT <= #[trigger] samples@[k] <= UNIT,
    ensures
        grid.wf(),
        grid.beats@.len() == detect_beats_spec(samples@, sample_rate as int).len(),
        forall|k: int|
            0 <= k < grid.beats@.len() ==> #[trigger] grid.beats@[k] as int == detect_beats_spec(
                samples@,
                sample_rate as int,
            )[k],
        grid.bpm_milli as int == detect_bpm_spec(samples@, sample_rate as int),
        peak_seq(onset_seq(energy_seq(samples@))).len() < 2 ==> grid.beats@.len() == 0
            && grid.bpm_milli == DEFAULT_BPM_MILLI,
{
    let n = samples.len();

    // Frame energies.
    let mut energy: Vec<i64> = Vec::new();
    let mut f: usize = 0;
    while f * HOP + WINDOW < n
        invariant
            8000 <= sample_rate <= 384000,
            n == samples@.len() <= 0x80000000,
            forall|k: int| 0 <= k < samples@.len() ==> -UNIT <= #[trigger] samples@[k] <= UNIT,
            f * HOP <= n,
            f <= n,
            f > 0 ==> (f - 1) * (HOP as int) + WINDOW < n,
            energy@.len() == f,
            forall|i: int|
                0 <= i < f ==> #[trigger] energy@[i] as int == isqrt_spec(
                    sq_sum(samples@, i * (HOP as int), WINDOW as int),
                ),
            forall|i: int| 0 <= i < f ==> 0 <= #[trigger] energy@[i] <= 0x200000,
        decreases n - f * HOP,
    {
        let base = f * HOP;
        let mut sum: i64 = 0;
        let mut j: usize = 0;
        while j < WINDOW
            invariant
                j <= WINDOW,
                base + WINDOW < n,
                base == f * HOP,
                n == samples@.len(),
                forall|k: int| 0 <= k < samples@.len() ==> -UNIT <= #[trigger] samples@[k] <= UNIT,
                sum as int == sq_sum(samples@, base as int, j as int),
                0 <= sum <= (j as int) * (UNIT as int) * (UNIT as int),
            decreases WINDOW - j,
        {
            let x = samples[base + j];
            proof {
                assert(0 <= x * x <= (UNIT as int) * (UNIT as int)) by (nonlinear_arith)
                    requires
                        -UNIT <= x <= UNIT,
                ;
                assert(((j + 1) as int) * (UNIT as int) * (UNIT as int) == (j as int) * (
                UNIT as int) * (UNIT as int) + (UNIT as int) * (UNIT as int)) by (nonlinear_arith);
                assert((j as int) * (UNIT as int) * (UNIT as int) <= (WINDOW as int) * (
                UNIT as int) * (UNIT as int)) by (nonlinear_arith)
                    requires
                        0 <= j < WINDOW,
                ;
            }
            sum = sum + x * x;
            j += 1;
        }
        proof {
            assert((WINDOW as int) * (UNIT as int) * (UNIT as int) == 0x40000000000)
                by (nonlinear_arith);
        }
        let e = isqrt64(sum);
        energy.push(e);
        f += 1;
    }
    proof {
        if f == 0 {
            assert(n <= WINDOW);
            assert(frame_count(n as int) == 0);
        } else {
            assert((f - 1) * (HOP as int) + WINDOW < n);
            assert(f * HOP + WINDOW >= n);
            let m = n as int - WINDOW - 1;
            assert((f - 1) * (HOP as int) <= m);
            lemma_div_is_ordered((f - 1) * (HOP as int), m, HOP as int);
            lemma_div_multiples_vanish(f - 1, HOP as int);
            assert((HOP as int) * (f - 1) == (f - 1) * (HOP as int)) by (nonlinear_arith);
            assert(f - 1 <= m / (HOP as int));
            assert(m < f * (HOP as int)) by (nonlinear_arith)
                requires
                    m == n as int - WINDOW - 1,
                    (f as int) * (HOP as int) + WINDOW >= n,
            ;
            assert((HOP as int) * (f as int) == (f as int) * (HOP as int)) by (nonlinear_arith);
            lemma_multiply_divide_lt(m, HOP as int, f as int);
            assert(m / (HOP as int) < f);
            assert(frame_count(n as int) == f);
        }
        assert(energy@.len() == energy_seq(samples@).len());
        assert forall|i: int| 0 <= i < energy@.len() implies #[trigger] energy@[i] as int
            == energy_seq(samples@)[i] by {
            assert(energy@[i] as int == isqrt_spec(sq_sum(samples@, i * (HOP as int), WINDOW as int)));
        }
    }

    // Onset strengths.
    let ghost es = energy_seq(samples@);
    let ghost os = onset_seq(es);
    proof {
        assert(es.len() <= 0x80000000);
    }
    let mut onset: Vec<i64> = Vec::new();
    let mut i: usize = 0;
    while i < energy.len()
        invariant
            energy@.len() == es.len() <= 0x80000000,
            forall|k: int| 0 <= k < es.len() ==> #[trigger] energy@[k] as int == es[k],
            forall|k: int| 0 <= k < es.len() ==> 0 <= #[trigger] energy@[k] <= 0x200000,
            os == onset_seq(es),
            onset@.len() == i <= energy@.len(),
            forall|k: int| 0 <= k < i ==> #[trigger] onset@[k] as int == os[k],
        decreases energy@.len() - i,
    {
        if i == 0 {
            onset.push(0);
        } else {
            let prev = energy[i - 1];
            let cur = energy[i];
            if cur > prev {
                onset.push(cur - prev);
            } else {
                onset.push(0);
            }
        }
        i += 1;
    }

    // Peak picking.
    let mut peaks: Vec<usize> = Vec::new();
    let mut p: usize = 1;
    if onset.len() >= 2 {
        while p + 1 < onset.len()
            invariant
                onset@.len() == os.len() <= 0x80000000,
                forall|k: int| 0 <= k < os.len() ==> #[trigger] onset@[k] as int == os[k],
                1 <= p,
                p + 1 <= onset@.len(),
                peak_seq(os) == peaks@.map_values(|u: usize| u as int) + peaks_from(os, p as int),
                forall|k: int| 0 <= k < peaks@.len() ==> is_peak(os, #[trigger] peaks@[k] as int),
                forall|k: int| 0 <= k < peaks@.len() ==> #[trigger] peaks@[k] < p,
                forall|j: int, k: int| 0 <= j < k < peaks@.len() ==> peaks@[j] < peaks@[k],
                peaks@.len() <= p,
            decreases onset@.len() - p,
        {
            if onset[p] > onset[p - 1] && onset[p] > onset[p + 1] {
                proof {
                    assert(os[p as int] == onset@[p as int] as int);
                    assert(os[p as int - 1] == onset@[p as int - 1] as int);
                    assert(os[p as int + 1] == onset@[p as int + 1] as int);
                    assert(is_peak(os, p as int));
                    assert(peaks_from(os, p as int) == seq![p as int] + peaks_from(
                        os,
                        p as int + 1,
                    ));
                    assert(peaks@.push(p).map_values(|u: usize| u as int) =~= peaks@.map_values(
                        |u: usize| u as int,
                    ) + seq![p as int]);
                    assert(peaks@.map_values(|u: usize| u as int) + (seq![p as int] + peaks_from(
                        os,
                        p as int + 1,
                    )) =~= (peaks@.map_values(|u: usize| u as int) + seq![p as int]) + peaks_from(
                        os,
                        p as int + 1,
                    ));
                }
                peaks.push(p);
            } else {
                proof {
                    assert(os[p as int] == onset@[p as int] as int);
                    assert(os[p as int - 1] == onset@[p as int - 1] as int);
                    assert(os[p as int + 1] == onset@[p as int + 1] as int);
                    assert(!is_peak(os, p as int));
                    assert(peaks_from(os, p as int) == peaks_from(os, p as int + 1));
                }
            }
            p += 1;
        }
    }
    proof {
        if onset@.len() >= 2 {
            assert(p as int + 1 >= os.len());
            assert(peaks_from(os, p as int) == Seq::<int>::empty());
        } else {
            assert(peaks_from(os, 1) == Seq::<int>::empty());
            assert(peaks@.map_values(|u: usize| u as int) =~= Seq::<int>::empty());
        }
        assert(peak_seq(os) =~= peaks@.map_values(|u: usize| u as int));
        assert(peak_seq(os).len() == peaks@.len());
    }
    let ghost pk = peak_seq(os);

    // Interval gating and tempo.
    let mut gcount: i64 = 0;
    let mut gsum: i64 = 0;
    let ghost gall = gated_from(pk, 1, sample_rate as int);
    let ghost mut gpre: Seq<int> = Seq::empty();
    proof {
        assert(Seq::empty() + gall =~= gall);
    }
    let mut k: usize = 1;
    while k < peaks.len()
        invariant
            8000 <= sample_rate <= 384000,
            pk == peaks@.map_values(|u: usize| u as int),
            gall == gated_from(pk, 1, sample_rate as int),
            peaks@.len() <= 0x80000000,
            forall|j: int| 0 <= j < peaks@.len() ==> #[trigger] peaks@[j] <= 0x80000000,
            forall|j0: int, j1: int| 0 <= j0 < j1 < peaks@.len() ==> peaks@[j0] < peaks@[j1],
            1 <= k,
            peaks@.len() == 0 ==> k == 1,
            peaks@.len() > 0 ==> k <= peaks@.len(),
            gall == gpre + gated_from(pk, k as int, sample_rate as int),
            gsum as int == seq_sum(gpre),
            gcount as int == gpre.len(),
            gsum >= 200 * gcount,
            gsum <= 2000 * gcount,
            0 <= gcount < k,
        decreases peaks@.len() - k,
    {
        let a = peaks[k - 1];
        let b = peaks[k];
        proof {
            assert(pk[k as int] == peaks@[k as int] as int);
            assert(pk[k as int - 1] == peaks@[k as int - 1] as int);
        }
        let d = ((b - a) as i64) * 512 * 1000 / sample_rate;
        proof {
            lemma_div_le_self(((b - a) as int) * 512 * 1000, sample_rate as int);
            assert((pk[k as int] - pk[k as int - 1]) * (HOP as int) * 1000 == ((b - a) as int)
                * 512 * 1000) by (nonlinear_arith)
                requires
                    pk[k as int] == peaks@[k as int] as int,
                    pk[k as int - 1] == peaks@[k as int - 1] as int,
                    b == peaks@[k as int],
                    a == peaks@[k as int - 1],
                    a < b,
                    HOP == 512,
            ;
        }
        if MIN_INTERVAL_MS <= d && d <= MAX_INTERVAL_MS {
            proof {
                let gnew = gpre.push(d as int);
                assert(gnew.drop_last() =~= gpre);
                assert(seq_sum(gnew) == seq_sum(gpre) + d as int);
                assert(gpre + (seq![d as int] + gated_from(pk, k as int + 1, sample_rate as int))
                    =~= gnew + gated_from(pk, k as int + 1, sample_rate as int));
                gpre = gnew;
            }
            gsum = gsum + d;
            gcount = gcount + 1;
        }
        k += 1;
    }
    proof {
        assert(gated_from(pk, k as int, sample_rate as int) == Seq::<int>::empty());
        assert(gall =~= gpre);
    }
    let bpm_milli: i64 = if gcount == 0 {
        DEFAULT_BPM_MILLI
    } else {
        let avg = gsum / gcount;
        proof {
            lemma_div_is_ordered(200 * gcount, gsum as int, gcount as int);
            lemma_div_multiples_vanish(200, gcount as int);
            assert((gcount as int) * 200 == 200 * (gcount as int)) by (nonlinear_arith);
            lemma_div_is_ordered(gsum as int, 2000 * gcount, gcount as int);
            lemma_div_multiples_vanish(2000, gcount as int);
            assert((gcount as int) * 2000 == 2000 * (gcount as int)) by (nonlinear_arith);
            assert(200 <= avg as int <= 2000);
            lemma_div_is_ordered_by_denominator(60000000, 200, avg as int);
            lemma_div_is_ordered_by_denominator(60000000, avg as int, 2000);
        }
        60000000 / avg
    };

    // Beat times.
    let mut beats: Vec<i64> = Vec::new();
    if peaks.len() >= 2 {
        let mut q: usize = 0;
        while q < peaks.len()
            invariant
                8000 <= sample_rate <= 384000,
                pk == peaks@.map_values(|u: usize| u as int),
                peaks@.len() >= 2,
                forall|j: int| 0 <= j < peaks@.len() ==> #[trigger] peaks@[j] <= 0x80000000,
                forall|j0: int, j1: int| 0 <= j0 < j1 < peaks@.len() ==> peaks@[j0] < peaks@[j1],
                forall|j: int| 0 <= j < peaks@.len() ==> is_peak(os, #[trigger] peaks@[j] as int),
                q <= peaks@.len(),
                beats@.len() == q,
                forall|j: int|
                    0 <= j < q ==> #[trigger] beats@[j] as int == frame_ms(
                        pk[j],
                        sample_rate as int,
                    ),
                forall|j: int| 0 <= j < q ==> 0 <= #[trigger] beats@[j] <= MS_CAP,
                forall|j0: int, j1: int| 0 <= j0 < j1 < q ==> beats@[j0] < beats@[j1],
            decreases peaks@.len() - q,
        {
            let idx = peaks[q];
            let t = frame_to_ms(idx, sample_rate);
            proof {
                assert(pk[q as int] == peaks@[q as int] as int);
                assert(t as int == frame_ms(pk[q as int], sample_rate as int));
                if q > 0 {
                    assert(pk[q as int - 1] == peaks@[q as int - 1] as int);
                    assert(peaks@[q as int - 1] < peaks@[q as int]);
                    assert(is_peak(os, peaks@[q as int - 1] as int));
                    assert(is_peak(os, peaks@[q as int] as int));
                    if peaks@[q as int - 1] as int + 1 == peaks@[q as int] as int {
                        assert(false);
                    }
                    lemma_frame_ms_strict(pk[q as int - 1], pk[q as int], sample_rate as int);
                    assert(beats@[q as int - 1] < t);
                }
            }
            beats.push(t);
            q += 1;
        }
    }

    let grid = BeatGrid { beats, bpm_milli };
    proof {
        assert(detect_beats_spec(samples@, sample_rate as int) == beats_of_peaks(
            pk,
            sample_rate as int,
        ));
        if pk.len() >= 2 {
            assert(grid.beats@.len() == pk.len());
        }
        assert(detect_bpm_spec(samples@, sample_rate as int) == bpm_of_gated(gall));
    }
    grid
}

} // verus!
