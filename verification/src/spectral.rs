//! Index bookkeeping of the spectral weighting pass.
//!
//! A weighting curve covers the positive-frequency bins of a spectrum
//! computed from a real signal. Applying gain `curve[i]` to bin `i` must also
//! apply it to the Nyquist-mirror bin `fft_size - i`, which carries the
//! conjugate coefficient — except at DC and at the Nyquist bin, which have no
//! distinct mirror and must be weighted exactly once. The complex
//! multiplications are floating point and stay outside this crate; which bins
//! they touch is decided and proved here.

use vstd::prelude::*;

verus! {

/// The mirror of bin `i` in an `n`-point spectrum, if it is a distinct bin:
/// DC and the Nyquist bin have none.
pub open spec fn spec_mirror(i: int, n: int) -> Option<int> {
    if i == 0 || 2 * i == n {
        Option::None
    } else {
        Option::Some(n - i)
    }
}

/// The mirror bin that must receive the same gain as bin `i`, or `None` for
/// DC and the Nyquist bin, which are weighted exactly once.
pub fn mirror_bin(i: usize, fft_size: usize) -> (m: Option<usize>)
    requires
        0 < fft_size,
        fft_size % 2 == 0,
        i < fft_size,
    ensures
        m is Some <==> (i != 0 && i != fft_size / 2),
        m matches Some(mm) ==> {
            &&& mm == fft_size - i
            &&& 0 < mm < fft_size
            &&& mm != i
            &&& spec_mirror(i as int, fft_size as int) == Option::Some(mm as int)
        },
        m is None ==> spec_mirror(i as int, fft_size as int) is None,
{
    if i != 0 && i != fft_size / 2 {
        Some(fft_size - i)
    } else {
        None
    }
}

/// The three gain curves of one session — A, C, and the microphone's own
/// calibration — one non-negative linear gain per positive-frequency bin,
/// carried as single-precision bit patterns. The curves are immutable after
/// construction; their length, half the FFT size, is checked once here, which
/// is what lets the per-tick weighting pass skip any length check.
pub struct Weightings {
    pub a_weighting: Vec<u32>,
    pub c_weighting: Vec<u32>,
    pub cal_weighting: Vec<u32>,
}

impl Weightings {
    /// Each curve covers exactly the positive-frequency bins: half the FFT
    /// size, from DC to just below Nyquist.
    pub open spec fn wf(&self, fft_size: int) -> bool {
        &&& self.a_weighting@.len() == fft_size / 2
        &&& self.c_weighting@.len() == fft_size / 2
        &&& self.cal_weighting@.len() == fft_size / 2
    }

    /// Builds the session's curves, enforcing the length invariant once; a
    /// curve of the wrong length is a construction-time error.
    pub fn new(
        a_weighting: Vec<u32>,
        c_weighting: Vec<u32>,
        cal_weighting: Vec<u32>,
        fft_size: usize,
    ) -> (r: Result<Weightings, ()>)
        ensures
            r matches Ok(w) ==> {
                &&& w.wf(fft_size as int)
                &&& w.a_weighting@ == a_weighting@
                &&& w.c_weighting@ == c_weighting@
                &&& w.cal_weighting@ == cal_weighting@
            },
            r is Err <==> !(a_weighting@.len() == fft_size / 2 && c_weighting@.len() == fft_size
                / 2 && cal_weighting@.len() == fft_size / 2),
    {
        let half = fft_size / 2;
        if a_weighting.len() == half && c_weighting.len() == half && cal_weighting.len() == half {
            Ok(Weightings { a_weighting, c_weighting, cal_weighting })
        } else {
            Err(())
        }
    }
}

/// Center frequency, in micro-Hz, of calibration bin `i`: `i` times the bin
/// width `sample_rate / fft_size`, plus the deliberate half-bin offset of
/// half a hertz. With the session's FFT size of twice the sample rate the
/// bin width is exactly half a hertz, so the center is exact.
pub fn cal_bin_center_micro_hz(i: usize, sample_rate: usize, fft_size: usize) -> (f: u64)
    requires
        0 < sample_rate <= 100_000_000,
        fft_size == 2 * sample_rate,
        i < fft_size / 2,
    ensures
        f == i * (((sample_rate * 1_000_000) as int) / (fft_size as int)) + 500_000,
        f == i * 500_000 + 500_000,
{
    proof {
        assert(((sample_rate * 1_000_000) as int) / ((2 * sample_rate) as int) == 500_000)
            by (nonlinear_arith)
            requires
                0 < sample_rate,
        ;
        assert(i * 500_000 + 500_000 <= 100_000_000 * 500_000) by (nonlinear_arith)
            requires
                0 <= i < 100_000_000,
        ;
    }
    (i as u64) * 500_000 + 500_000
}

/// The calibration curve's query frequencies: the center of every
/// positive-frequency bin, in micro-Hz, in bin order.
#[verifier::loop_isolation(false)]
pub fn cal_bin_centers(sample_rate: usize, fft_size: usize) -> (v: Vec<u64>)
    requires
        0 < sample_rate <= 100_000_000,
        fft_size == 2 * sample_rate,
    ensures
        v@.len() == fft_size / 2,
        forall|i: int| 0 <= i < v@.len() ==> v@[i] == i * 500_000 + 500_000,
{
    let half = fft_size / 2;
    let mut v: Vec<u64> = Vec::new();
    let mut i: usize = 0;
    while i < half
        invariant
            i <= half,
            v@.len() == i,
            forall|k: int| 0 <= k < i ==> v@[k] == k * 500_000 + 500_000,
        decreases half - i,
    {
        v.push(cal_bin_center_micro_hz(i, sample_rate, fft_size));
        i = i + 1;
    }
    v
}

/// Law: mirroring is a pairing of distinct bins. For every bin `i` that has
/// a mirror, the mirror lies strictly above the Nyquist bin, differs from
/// `i`, and mirrors straight back to `i` — so a weighting pass that touches
/// `i` and its mirror, and DC and Nyquist once each, applies every gain to
/// each bin of the pair exactly once.
pub proof fn lemma_mirror_pairing(i: int, n: int)
    requires
        0 < n,
        n % 2 == 0,
        0 < i < n / 2,
    ensures
        spec_mirror(i, n) == Option::Some(n - i),
        n / 2 < n - i < n,
        n - i != i,
        spec_mirror(n - i, n) == Option::Some(i),
        spec_mirror(0, n) is None,
        spec_mirror(n / 2, n) is None,
{
}

/// Law: one weighting pass reaches every spectrum bin at most once. The
/// pass walks the curve's bins `[0, n/2)`, touching each directly, and
/// touches `spec_mirror(i, n)` beside bin `i`. A bin `b` below Nyquist is
/// then never some other bin's mirror; the Nyquist bin is nobody's mirror;
/// and a bin above Nyquist is the mirror of exactly one curve bin, `n - b`.
/// So a conjugate pair receives one and the same real gain on both sides —
/// which is what preserves the Hermitian symmetry of a real signal's
/// spectrum — and DC and Nyquist are weighted at most once.
pub proof fn lemma_each_bin_weighted_once(b: int, n: int)
    requires
        0 < n,
        n % 2 == 0,
        0 <= b < n,
    ensures
        b <= n / 2 ==> forall|i: int|
            0 <= i < n / 2 ==> #[trigger] spec_mirror(i, n) != Option::Some(b),
        b > n / 2 ==> spec_mirror(n - b, n) == Option::Some(b),
        b > n / 2 ==> forall|i: int|
            0 <= i < n / 2 && i != n - b ==> #[trigger] spec_mirror(i, n) != Option::Some(b),
{
}

} // verus!
