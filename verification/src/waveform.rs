//! Display waveform: a sparse series of `(sample index, amplitude)` pairs
//! taken from decoded audio at a fixed decimation.

use vstd::prelude::*;

use crate::units::UNIT;

verus! {

/// Frames skipped between consecutive waveform points.
pub const DECIMATION: usize = 512;

/// One point of the display waveform: the index of the decoded frame it was
/// taken from, and its amplitude.
pub struct WavePoint {
    pub index: i64,
    pub amplitude: i64,
}

/// The waveform owed for `s`: every `DECIMATION`-th sample, labelled with its
/// frame index.
pub open spec fn waveform_spec(s: Seq<i64>) -> Seq<(int, int)> {
    Seq::new(
        ((s.len() + DECIMATION - 1) / (DECIMATION as int)) as nat,
        |k: int| (k * DECIMATION, s[k * DECIMATION] as int),
    )
}

/// Downsample decoded mono audio to one point per `DECIMATION` frames,
/// keeping the frame index of each kept sample.
pub fn extract_waveform(samples: &Vec<i64>) -> (w: Vec<WavePoint>)
    requires
        samples@.len() <= 0x80000000,
        forall|k: int| 0 <= k < samples@.len() ==> -UNIT <= #[trigger] samples@[k] <= UNIT,
    ensures
        w@.len() == waveform_spec(samples@).len(),
        forall|k: int|
            0 <= k < w@.len() ==> #[trigger] w@[k].index == waveform_spec(samples@)[k].0
                && w@[k].amplitude == waveform_spec(samples@)[k].1,
{
    let mut w: Vec<WavePoint> = Vec::new();
    let mut i: usize = 0;
    while i < samples.len()
        invariant
            samples@.len() <= 0x80000000,
            forall|k: int| 0 <= k < samples@.len() ==> -UNIT <= #[trigger] samples@[k] <= UNIT,
            w@.len() * (DECIMATION as int) == i,
            i == 0 || i - DECIMATION < samples@.len(),
            forall|k: int|
                0 <= k < w@.len() ==> #[trigger] w@[k].index == k * (DECIMATION as int)
                    && w@[k].amplitude == samples@[k * (DECIMATION as int)],
        decreases samples@.len() + DECIMATION - i,
    {
        let x = samples[i];
        proof {
            assert((w@.len() + 1) * (DECIMATION as int) == w@.len() * (DECIMATION as int) + (
            DECIMATION as int)) by (nonlinear_arith);
        }
        w.push(WavePoint { index: i as i64, amplitude: x });
        i += DECIMATION;
    }
    proof {
        let n = samples@.len() as int;
        let c = DECIMATION as int;
        let m = w@.len() as int;
        if n == 0 {
            assert(m * c == 0);
            assert(m == 0) by (nonlinear_arith)
                requires
                    m * c == 0,
                    c > 0,
                    m >= 0,
            ;
            assert(waveform_spec(samples@).len() == 0);
        } else {
            assert(m * c >= n);
            assert(m * c - c < n);
            vstd::arithmetic::div_mod::lemma_fundamental_div_mod(n + c - 1, c);
            assert(m == (n + c - 1) / c) by (nonlinear_arith)
                requires
                    c > 0,
                    m * c <= n + c - 1,
                    m * c >= n,
                    n + c - 1 == c * ((n + c - 1) / c) + (n + c - 1) % c,
                    0 <= (n + c - 1) % c < c,
            ;
        }
        assert(w@.len() == waveform_spec(samples@).len());
    }
    w
}

} // verus!
