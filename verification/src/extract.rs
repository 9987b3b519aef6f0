//! Feature extraction from one filtered waveform.
//!
//! Windows are derived from the configs; the baseline mean is subtracted from
//! every sample; the peak is the last maximum of the search window, which
//! must be NaN-free; rise and decay times come from threshold crossings
//! relative to the peak average. A threshold that is never crossed is an
//! explicit `NotFoundError`, never a silent zero index.
use vstd::prelude::*;

use crate::config::{PulseAnalysisConfig, PulseReadoutConfig};
use crate::errors::TESErr;
use crate::fbits::{
    add_bits, div_bits, fp_add, fp_div, fp_is_nan, fp_lt, fp_mul, fp_of_u64, fp_sub, is_nan_bits,
    lt_bits, mul_bits, sub_bits, u64_to_bits,
};

verus! {

/// The features of one pulse. Fractional fields are binary64 bit patterns.
#[derive(Clone, Copy, PartialEq, Eq, Structural, Debug)]
pub struct PulseInfoS {
    /// Baseline level, the mean of the baseline window.
    pub Base: u64,
    /// Mean of the window around the peak, after baseline subtraction.
    pub PeakAverage: u64,
    /// Index of the peak sample in the waveform.
    pub PeakIndex: u32,
    /// Seconds between the low and high rise crossings.
    pub RiseTime: u64,
    /// Seconds between the high and low decay crossings.
    pub DecayTime: u64,
}

impl PulseInfoS {
    /// All-zero features, to be filled by extraction.
    pub fn new() -> (r: Self)
        ensures
            r == (PulseInfoS {
                Base: 0u64,
                PeakAverage: 0u64,
                PeakIndex: 0u32,
                RiseTime: 0u64,
                DecayTime: 0u64,
            }),
    {
        Self { Base: 0, PeakAverage: 0, PeakIndex: 0, RiseTime: 0, DecayTime: 0 }
    }
}

/// Diagnostic intermediates: the raw peak value and the four crossings.
#[derive(Clone, Copy, PartialEq, Eq, Structural, Debug)]
pub struct PulseInfoHelperS {
    /// The peak sample after baseline subtraction.
    pub Peak: u64,
    /// Latest index below the peak under the high rise threshold.
    pub RiseHighIndex: usize,
    /// Latest index below that over the low rise threshold.
    pub RiseLowIndex: usize,
    /// Earliest index at or after the peak under the high decay threshold.
    pub DecayHighIndex: usize,
    /// Earliest index at or after that under the low decay threshold.
    pub DecayLowIndex: usize,
}

impl PulseInfoHelperS {
    /// All-zero intermediates, to be filled by extraction.
    pub fn new() -> (r: Self)
        ensures
            r == (PulseInfoHelperS {
                Peak: 0u64,
                RiseHighIndex: 0usize,
                RiseLowIndex: 0usize,
                DecayHighIndex: 0usize,
                DecayLowIndex: 0usize,
            }),
    {
        Self { Peak: 0, RiseHighIndex: 0, RiseLowIndex: 0, DecayHighIndex: 0, DecayLowIndex: 0 }
    }
}

/// The derived windows: baseline bounds, peak-search end, peak-average bounds.
#[derive(Clone, Copy, PartialEq, Eq, Structural, Debug)]
pub struct PulseAnalysisHelperS {
    /// First baseline sample.
    pub BaseStart: u32,
    /// One past the last baseline sample.
    pub BaseEnd: u32,
    /// One past the last peak-search sample.
    pub PeakSearch: u32,
    /// First peak-average sample.
    pub PeakAverageStart: u32,
    /// One past the last peak-average sample.
    pub PeakAverageEnd: u32,
}

impl PulseAnalysisHelperS {
    /// Derives the baseline window around half the pre-trigger samples and
    /// the end of the peak search; fails when a bound underflows or cannot
    /// be represented. The peak-average bounds are filled after the peak is
    /// found.
    pub fn new(PRConfig: &PulseReadoutConfig, PAConfig: &PulseAnalysisConfig) -> (r: Result<
        Self,
        TESErr,
    >)
        ensures
            r == helper_spec(*PRConfig, *PAConfig),
    {
        let half = PRConfig.PreSample / 2;
        if half < PAConfig.BaseLinePreSample {
            return Err(TESErr::ConfigError);
        }
        if (half as u64) + (PAConfig.BaseLinePreSample as u64) > 0xFFFFFFFF {
            return Err(TESErr::ConfigError);
        }
        if (PRConfig.PreSample as u64) + (PAConfig.PeakSearchSample as u64) > 0xFFFFFFFF {
            return Err(TESErr::ConfigError);
        }
        Ok(
            Self {
                BaseStart: half - PAConfig.BaseLinePreSample,
                BaseEnd: half + PAConfig.BaseLinePreSample,
                PeakSearch: PRConfig.PreSample + PAConfig.PeakSearchSample,
                PeakAverageStart: 0,
                PeakAverageEnd: 0,
            },
        )
    }
}

/// What deriving the windows returns.
pub open spec fn helper_spec(pr: PulseReadoutConfig, pa: PulseAnalysisConfig) -> Result<
    PulseAnalysisHelperS,
    TESErr,
> {
    let half = pr.PreSample as int / 2;
    if half < pa.BaseLinePreSample || half + pa.BaseLinePreSample > u32::MAX || pr.PreSample
        + pa.PeakSearchSample > u32::MAX {
        Err(TESErr::ConfigError)
    } else {
        Ok(
            PulseAnalysisHelperS {
                BaseStart: (half - pa.BaseLinePreSample) as u32,
                BaseEnd: (half + pa.BaseLinePreSample) as u32,
                PeakSearch: (pr.PreSample + pa.PeakSearchSample) as u32,
                PeakAverageStart: 0u32,
                PeakAverageEnd: 0u32,
            },
        )
    }
}

/// The binary64 sum of the samples, folded left from +0.
pub open spec fn sum_spec(s: Seq<u64>) -> u64
    decreases s.len(),
{
    if s.len() == 0 {
        0u64
    } else {
        fp_add(sum_spec(s.drop_last()), s.last())
    }
}

/// The binary64 mean: the left-folded sum over the sample count.
pub open spec fn mean_spec(s: Seq<u64>) -> u64 {
    fp_div(sum_spec(s), fp_of_u64(s.len() as u64))
}

/// Every sample with the baseline subtracted.
pub open spec fn sub_base_spec(s: Seq<u64>, base: u64) -> Seq<u64> {
    Seq::new(s.len(), |i: int| fp_sub(s[i], base))
}

/// Some sample of `[lo, hi)` is NaN.
pub open spec fn has_nan_in(s: Seq<u64>, lo: int, hi: int) -> bool {
    exists|i: int| lo <= i < hi && #[trigger] fp_is_nan(s[i])
}

/// The index of the last maximum of `[lo, hi)`: later samples replace the
/// running maximum unless strictly below it.
pub open spec fn last_max_from(s: Seq<u64>, lo: int, hi: int) -> int
    recommends
        0 <= lo < hi <= s.len(),
    decreases hi - lo,
{
    if hi - lo <= 1 {
        lo
    } else {
        let m = last_max_from(s, lo, hi - 1);
        if fp_lt(s[hi - 1], s[m]) {
            m
        } else {
            hi - 1
        }
    }
}

/// What `last_max_from` picks really is the last maximum of a NaN-free
/// window: no sample beats it, and every later sample is strictly below it.
pub proof fn lemma_last_max_is_last_max(s: Seq<u64>, lo: int, hi: int)
    requires
        0 <= lo < hi <= s.len(),
        forall|j: int| lo <= j < hi ==> !fp_is_nan(#[trigger] s[j]),
    ensures
        lo <= last_max_from(s, lo, hi) < hi,
        forall|j: int| lo <= j < hi ==> !fp_lt(s[last_max_from(s, lo, hi)], #[trigger] s[j]),
        forall|j: int| last_max_from(s, lo, hi) < j < hi ==> fp_lt(
            #[trigger] s[j],
            s[last_max_from(s, lo, hi)],
        ),
    decreases hi - lo,
{
    if hi - lo > 1 {
        lemma_last_max_is_last_max(s, lo, hi - 1);
        let m = last_max_from(s, lo, hi - 1);
        if !fp_lt(s[hi - 1], s[m]) {
            assert forall|j: int| lo <= j < hi implies !fp_lt(s[hi - 1], #[trigger] s[j]) by {
                if j < hi - 1 {
                    assert(!fp_lt(s[m], s[j]));
                }
            }
        }
    }
}

/// The latest index of `[lo, hi)` whose sample is below the threshold.
pub open spec fn find_last_lt(s: Seq<u64>, thr: u64, lo: int, hi: int) -> Option<int>
    decreases hi - lo,
{
    if hi <= lo {
        None
    } else if fp_lt(s[hi - 1], thr) {
        Some(hi - 1)
    } else {
        find_last_lt(s, thr, lo, hi - 1)
    }
}

/// The latest index of `[lo, hi)` whose sample is above the threshold.
pub open spec fn find_last_gt(s: Seq<u64>, thr: u64, lo: int, hi: int) -> Option<int>
    decreases hi - lo,
{
    if hi <= lo {
        None
    } else if fp_lt(thr, s[hi - 1]) {
        Some(hi - 1)
    } else {
        find_last_gt(s, thr, lo, hi - 1)
    }
}

/// The earliest index of `[lo, hi)` whose sample is below the threshold.
pub open spec fn find_first_lt(s: Seq<u64>, thr: u64, lo: int, hi: int) -> Option<int>
    decreases hi - lo,
{
    if hi <= lo {
        None
    } else if fp_lt(s[lo], thr) {
        Some(lo)
    } else {
        find_first_lt(s, thr, lo + 1, hi)
    }
}

/// What `find_last_lt` finds really is the latest crossing: its sample is
/// below the threshold and every later sample of the window is not; `None`
/// means no sample of the window is below the threshold.
pub proof fn lemma_find_last_lt_is_latest(s: Seq<u64>, thr: u64, lo: int, hi: int)
    requires
        0 <= lo <= hi <= s.len(),
    ensures
        find_last_lt(s, thr, lo, hi) matches Some(i) ==> lo <= i < hi && fp_lt(s[i], thr)
            && forall|j: int| i < j < hi ==> !fp_lt(#[trigger] s[j], thr),
        find_last_lt(s, thr, lo, hi) is None ==> forall|j: int| lo <= j < hi ==> !fp_lt(
            #[trigger] s[j],
            thr,
        ),
    decreases hi - lo,
{
    if hi > lo && !fp_lt(s[hi - 1], thr) {
        lemma_find_last_lt_is_latest(s, thr, lo, hi - 1);
    }
}

/// What `find_last_gt` finds really is the latest sample over the threshold.
pub proof fn lemma_find_last_gt_is_latest(s: Seq<u64>, thr: u64, lo: int, hi: int)
    requires
        0 <= lo <= hi <= s.len(),
    ensures
        find_last_gt(s, thr, lo, hi) matches Some(i) ==> lo <= i < hi && fp_lt(thr, s[i])
            && forall|j: int| i < j < hi ==> !fp_lt(thr, #[trigger] s[j]),
        find_last_gt(s, thr, lo, hi) is None ==> forall|j: int| lo <= j < hi ==> !fp_lt(
            thr,
            #[trigger] s[j],
        ),
    decreases hi - lo,
{
    if hi > lo && !fp_lt(thr, s[hi - 1]) {
        lemma_find_last_gt_is_latest(s, thr, lo, hi - 1);
    }
}

/// What `find_first_lt` finds really is the earliest crossing: its sample is
/// below the threshold and every earlier sample of the window is not.
pub proof fn lemma_find_first_lt_is_earliest(s: Seq<u64>, thr: u64, lo: int, hi: int)
    requires
        0 <= lo <= hi <= s.len(),
    ensures
        find_first_lt(s, thr, lo, hi) matches Some(i) ==> lo <= i < hi && fp_lt(s[i], thr)
            && forall|j: int| lo <= j < i ==> !fp_lt(#[trigger] s[j], thr),
        find_first_lt(s, thr, lo, hi) is None ==> forall|j: int| lo <= j < hi ==> !fp_lt(
            #[trigger] s[j],
            thr,
        ),
    decreases hi - lo,
{
    if hi > lo && !fp_lt(s[lo], thr) {
        lemma_find_first_lt_is_earliest(s, thr, lo + 1, hi);
    }
}

/// Everything feature extraction returns, step by step: derived windows,
/// length check, baseline mean and subtraction, NaN check, peak search,
/// peak average, and the four threshold crossings.
pub open spec fn pulse_info_spec(pr: PulseReadoutConfig, pa: PulseAnalysisConfig, w: Seq<u64>)
    -> Result<(PulseInfoS, PulseInfoHelperS, PulseAnalysisHelperS), TESErr> {
    match helper_spec(pr, pa) {
        Err(e) => Err(e),
        Ok(h) => {
            let bs = h.BaseStart as int;
            let be = h.BaseEnd as int;
            let pse = h.PeakSearch as int;
            let pre = pr.PreSample as int;
            if w.len() <= be || w.len() <= pse {
                Err(TESErr::TooShortError)
            } else if bs == be {
                Err(TESErr::NumericError)
            } else {
                let base = mean_spec(w.subrange(bs, be));
                let w1 = sub_base_spec(w, base);
                if pse <= pre {
                    Err(TESErr::NumericError)
                } else if has_nan_in(w1, pre, pse) {
                    Err(TESErr::NumericError)
                } else {
                    let pk = last_max_from(w1, pre, pse);
                    if pk < pa.PeakAveragePreSample || pk + pa.PeakAveragePostSample > w.len() || pk
                        + pa.PeakAveragePostSample > u32::MAX {
                        Err(TESErr::TooShortError)
                    } else if pa.PeakAveragePreSample == 0 && pa.PeakAveragePostSample == 0 {
                        Err(TESErr::NumericError)
                    } else {
                        let pas = pk - pa.PeakAveragePreSample;
                        let pae = pk + pa.PeakAveragePostSample;
                        let pavg = mean_spec(w1.subrange(pas, pae));
                        match find_last_lt(w1, fp_mul(pavg, pa.RiseHighRatio), 0, pk) {
                            None => Err(TESErr::NotFoundError),
                            Some(rh) => match find_last_gt(
                                w1,
                                fp_mul(pavg, pa.RiseLowRatio),
                                0,
                                rh,
                            ) {
                                None => Err(TESErr::NotFoundError),
                                Some(rl) => match find_first_lt(
                                    w1,
                                    fp_mul(pavg, pa.DecayHighRatio),
                                    pk,
                                    w.len() as int,
                                ) {
                                    None => Err(TESErr::NotFoundError),
                                    Some(dh) => match find_first_lt(
                                        w1,
                                        fp_mul(pavg, pa.DecayLowRatio),
                                        dh,
                                        w.len() as int,
                                    ) {
                                        None => Err(TESErr::NotFoundError),
                                        Some(dl) => Ok(
                                            (
                                                PulseInfoS {
                                                    Base: base,
                                                    PeakAverage: pavg,
                                                    PeakIndex: pk as u32,
                                                    RiseTime: fp_div(
                                                        fp_of_u64((rh - rl) as u64),
                                                        pr.Rate,
                                                    ),
                                                    DecayTime: fp_div(
                                                        fp_of_u64((dl - dh) as u64),
                                                        pr.Rate,
                                                    ),
                                                },
                                                PulseInfoHelperS {
                                                    Peak: w1[pk],
                                                    RiseHighIndex: rh as usize,
                                                    RiseLowIndex: rl as usize,
                                                    DecayHighIndex: dh as usize,
                                                    DecayLowIndex: dl as usize,
                                                },
                                                PulseAnalysisHelperS {
                                                    BaseStart: h.BaseStart,
                                                    BaseEnd: h.BaseEnd,
                                                    PeakSearch: h.PeakSearch,
                                                    PeakAverageStart: pas as u32,
                                                    PeakAverageEnd: pae as u32,
                                                },
                                            ),
                                        ),
                                    },
                                },
                            },
                        }
                    }
                }
            }
        },
    }
}

/// Boundary rejection: a waveform whose length equals the end of the
/// peak-search window (or any of the window bounds) is rejected as too
/// short; only a strictly longer one proceeds.
pub proof fn lemma_boundary_too_short(
    pr: PulseReadoutConfig,
    pa: PulseAnalysisConfig,
    w: Seq<u64>,
)
    requires
        helper_spec(pr, pa) is Ok,
        w.len() == helper_spec(pr, pa)->Ok_0.PeakSearch,
    ensures
        pulse_info_spec(pr, pa, w) == Err::<
            (PulseInfoS, PulseInfoHelperS, PulseAnalysisHelperS),
            TESErr,
        >(TESErr::TooShortError),
{
}

/// The last maximum lies inside its window.
pub proof fn lemma_last_max_range(s: Seq<u64>, lo: int, hi: int)
    requires
        lo < hi,
    ensures
        lo <= last_max_from(s, lo, hi) < hi,
    decreases hi - lo,
{
    if hi - lo > 1 {
        lemma_last_max_range(s, lo, hi - 1);
    }
}

/// Boundary acceptance: a waveform strictly longer than every window bound,
/// under a config whose peak-average window always fits, is never rejected
/// as too short (it may still fail on a NaN or a missing crossing).
pub proof fn lemma_long_enough_not_too_short(
    pr: PulseReadoutConfig,
    pa: PulseAnalysisConfig,
    w: Seq<u64>,
)
    requires
        helper_spec(pr, pa) is Ok,
        w.len() > helper_spec(pr, pa)->Ok_0.BaseEnd,
        w.len() > helper_spec(pr, pa)->Ok_0.PeakSearch,
        pr.PreSample < helper_spec(pr, pa)->Ok_0.PeakSearch,
        pa.PeakAveragePreSample <= pr.PreSample,
        helper_spec(pr, pa)->Ok_0.PeakSearch - 1 + pa.PeakAveragePostSample <= w.len(),
        helper_spec(pr, pa)->Ok_0.PeakSearch - 1 + pa.PeakAveragePostSample <= u32::MAX,
    ensures
        pulse_info_spec(pr, pa, w) != Err::<
            (PulseInfoS, PulseInfoHelperS, PulseAnalysisHelperS),
            TESErr,
        >(TESErr::TooShortError),
{
    let h = helper_spec(pr, pa)->Ok_0;
    let base = mean_spec(w.subrange(h.BaseStart as int, h.BaseEnd as int));
    let w1 = sub_base_spec(w, base);
    lemma_last_max_range(w1, pr.PreSample as int, h.PeakSearch as int);
}

/// NaN rejection: a NaN among the raw samples of the peak-search window of
/// an otherwise processable waveform yields `NumericError`, never a peak
/// index. The last hypothesis is the subtraction wrapper's guarantee that an
/// operation on a NaN returns a NaN.
pub proof fn lemma_nan_rejected(
    pr: PulseReadoutConfig,
    pa: PulseAnalysisConfig,
    w: Seq<u64>,
    i: int,
)
    requires
        helper_spec(pr, pa) is Ok,
        w.len() > helper_spec(pr, pa)->Ok_0.BaseEnd,
        w.len() > helper_spec(pr, pa)->Ok_0.PeakSearch,
        helper_spec(pr, pa)->Ok_0.BaseStart != helper_spec(pr, pa)->Ok_0.BaseEnd,
        pr.PreSample < helper_spec(pr, pa)->Ok_0.PeakSearch,
        pr.PreSample <= i < helper_spec(pr, pa)->Ok_0.PeakSearch,
        fp_is_nan(w[i]),
        fp_is_nan(
            fp_sub(
                w[i],
                mean_spec(
                    w.subrange(
                        helper_spec(pr, pa)->Ok_0.BaseStart as int,
                        helper_spec(pr, pa)->Ok_0.BaseEnd as int,
                    ),
                ),
            ),
        ),
    ensures
        pulse_info_spec(pr, pa, w) == Err::<
            (PulseInfoS, PulseInfoHelperS, PulseAnalysisHelperS),
            TESErr,
        >(TESErr::NumericError),
{
    let h = helper_spec(pr, pa)->Ok_0;
    let base = mean_spec(w.subrange(h.BaseStart as int, h.BaseEnd as int));
    let w1 = sub_base_spec(w, base);
    assert(fp_is_nan(w1[i]));
    assert(has_nan_in(w1, pr.PreSample as int, h.PeakSearch as int));
}

/// The left-folded binary64 sum of `w[lo..hi]`.
fn sum_range(w: &Vec<u64>, lo: usize, hi: usize) -> (r: u64)
    requires
        lo <= hi <= w@.len(),
    ensures
        r == sum_spec(w@.subrange(lo as int, hi as int)),
{
    let mut acc: u64 = 0;
    let mut i: usize = lo;
    proof {
        assert(w@.subrange(lo as int, lo as int) =~= Seq::<u64>::empty());
    }
    while i < hi
        invariant
            lo <= i <= hi <= w@.len(),
            acc == sum_spec(w@.subrange(lo as int, i as int)),
        decreases hi - i,
    {
        proof {
            assert(w@.subrange(lo as int, i + 1).drop_last() =~= w@.subrange(
                lo as int,
                i as int,
            ));
            assert(w@.subrange(lo as int, i + 1).last() == w@[i as int]);
        }
        acc = add_bits(acc, w[i]);
        i = i + 1;
    }
    acc
}

/// The binary64 mean of `w[lo..hi]`.
fn mean_range(w: &Vec<u64>, lo: usize, hi: usize) -> (r: u64)
    requires
        lo <= hi <= w@.len(),
    ensures
        r == mean_spec(w@.subrange(lo as int, hi as int)),
{
    let s = sum_range(w, lo, hi);
    div_bits(s, u64_to_bits((hi - lo) as u64))
}

/// The waveform with the baseline subtracted from every sample.
fn sub_base_all(w: Vec<u64>, base: u64) -> (r: Vec<u64>)
    ensures
        r@ == sub_base_spec(w@, base),
{
    let mut out: Vec<u64> = Vec::new();
    let mut i: usize = 0;
    while i < w.len()
        invariant
            0 <= i <= w@.len(),
            out@.len() == i,
            forall|j: int| 0 <= j < i ==> out@[j] == fp_sub(w@[j], base),
        decreases w@.len() - i,
    {
        out.push(sub_bits(w[i], base));
        i = i + 1;
    }
    proof {
        assert(out@ =~= sub_base_spec(w@, base));
    }
    out
}

/// Whether `w[lo..hi]` holds a NaN.
fn scan_nan(w: &Vec<u64>, lo: usize, hi: usize) -> (r: bool)
    requires
        lo <= hi <= w@.len(),
    ensures
        r == has_nan_in(w@, lo as int, hi as int),
{
    let mut i: usize = lo;
    while i < hi
        invariant
            lo <= i <= hi <= w@.len(),
            forall|j: int| lo <= j < i ==> !#[trigger] fp_is_nan(w@[j]),
        decreases hi - i,
    {
        if is_nan_bits(w[i]) {
            assert(fp_is_nan(w@[i as int]));
            return true;
        }
        i = i + 1;
    }
    false
}

/// The index of the last maximum of `w[lo..hi]`.
fn peak_search(w: &Vec<u64>, lo: usize, hi: usize) -> (r: usize)
    requires
        lo < hi <= w@.len(),
    ensures
        r == last_max_from(w@, lo as int, hi as int),
        lo <= r < hi,
{
    let mut best: usize = lo;
    let mut i: usize = lo + 1;
    while i < hi
        invariant
            lo <= best < i <= hi <= w@.len(),
            lo < hi,
            best == last_max_from(w@, lo as int, i as int),
        decreases hi - i,
    {
        if !lt_bits(w[i], w[best]) {
            best = i;
        }
        i = i + 1;
    }
    best
}

/// The latest index of `w[lo..hi]` whose sample is below the threshold.
fn find_last_lt_exec(w: &Vec<u64>, thr: u64, lo: usize, hi: usize) -> (r: Option<usize>)
    requires
        lo <= hi <= w@.len(),
    ensures
        r is Some <==> find_last_lt(w@, thr, lo as int, hi as int) is Some,
        r matches Some(v) ==> find_last_lt(w@, thr, lo as int, hi as int) == Some(v as int),
        r matches Some(v) ==> lo <= v < hi,
{
    let mut i: usize = hi;
    while i > lo
        invariant
            lo <= i <= hi <= w@.len(),
            find_last_lt(w@, thr, lo as int, hi as int) == find_last_lt(
                w@,
                thr,
                lo as int,
                i as int,
            ),
        decreases i,
    {
        if lt_bits(w[i - 1], thr) {
            return Some(i - 1);
        }
        i = i - 1;
    }
    None
}

/// The latest index of `w[lo..hi]` whose sample is above the threshold.
fn find_last_gt_exec(w: &Vec<u64>, thr: u64, lo: usize, hi: usize) -> (r: Option<usize>)
    requires
        lo <= hi <= w@.len(),
    ensures
        r is Some <==> find_last_gt(w@, thr, lo as int, hi as int) is Some,
        r matches Some(v) ==> find_last_gt(w@, thr, lo as int, hi as int) == Some(v as int),
        r matches Some(v) ==> lo <= v < hi,
{
    let mut i: usize = hi;
    while i > lo
        invariant
            lo <= i <= hi <= w@.len(),
            find_last_gt(w@, thr, lo as int, hi as int) == find_last_gt(
                w@,
                thr,
                lo as int,
                i as int,
            ),
        decreases i,
    {
        if lt_bits(thr, w[i - 1]) {
            return Some(i - 1);
        }
        i = i - 1;
    }
    None
}

/// The earliest index of `w[lo..hi]` whose sample is below the threshold.
fn find_first_lt_exec(w: &Vec<u64>, thr: u64, lo: usize, hi: usize) -> (r: Option<usize>)
    requires
        lo <= hi <= w@.len(),
    ensures
        r is Some <==> find_first_lt(w@, thr, lo as int, hi as int) is Some,
        r matches Some(v) ==> find_first_lt(w@, thr, lo as int, hi as int) == Some(v as int),
        r matches Some(v) ==> lo <= v < hi,
{
    let mut i: usize = lo;
    while i < hi
        invariant
            lo <= i <= hi <= w@.len(),
            find_first_lt(w@, thr, lo as int, hi as int) == find_first_lt(
                w@,
                thr,
                i as int,
                hi as int,
            ),
        decreases hi - i,
    {
        if lt_bits(w[i], thr) {
            return Some(i);
        }
        i = i + 1;
    }
    None
}

/// Extracts the features of one filtered waveform, consumed by the call.
///
/// Fails with `ConfigError` when a window bound cannot be represented,
/// `TooShortError` when the waveform does not cover a window,
/// `NumericError` on a NaN in the peak-search window or an empty mean, and
/// `NotFoundError` when a threshold is never crossed.
pub fn GetPulseInfo(
    PRConfig: &PulseReadoutConfig,
    PAConfig: &PulseAnalysisConfig,
    Pulse: Vec<u64>,
) -> (r: Result<(PulseInfoS, PulseInfoHelperS, PulseAnalysisHelperS), TESErr>)
    ensures
        r == pulse_info_spec(*PRConfig, *PAConfig, Pulse@),
{
    let h = match PulseAnalysisHelperS::new(PRConfig, PAConfig) {
        Ok(h) => h,
        Err(e) => {
            return Err(e);
        },
    };
    let len = Pulse.len();
    if (len as u64) <= (h.BaseEnd as u64) || (len as u64) <= (h.PeakSearch as u64) {
        return Err(TESErr::TooShortError);
    }
    if h.BaseStart == h.BaseEnd {
        return Err(TESErr::NumericError);
    }
    let base = mean_range(&Pulse, h.BaseStart as usize, h.BaseEnd as usize);
    let w1 = sub_base_all(Pulse, base);
    let pre = PRConfig.PreSample as usize;
    let pse = h.PeakSearch as usize;
    if pse <= pre {
        return Err(TESErr::NumericError);
    }
    if scan_nan(&w1, pre, pse) {
        return Err(TESErr::NumericError);
    }
    let pk = peak_search(&w1, pre, pse);
    if (pk as u64) < (PAConfig.PeakAveragePreSample as u64) || (pk as u64) + (
    PAConfig.PeakAveragePostSample as u64) > (len as u64) || (pk as u64) + (
    PAConfig.PeakAveragePostSample as u64) > 0xFFFFFFFF {
        return Err(TESErr::TooShortError);
    }
    if PAConfig.PeakAveragePreSample == 0 && PAConfig.PeakAveragePostSample == 0 {
        return Err(TESErr::NumericError);
    }
    let pas = pk - PAConfig.PeakAveragePreSample as usize;
    let pae = pk + PAConfig.PeakAveragePostSample as usize;
    let pavg = mean_range(&w1, pas, pae);
    let rh = match find_last_lt_exec(&w1, mul_bits(pavg, PAConfig.RiseHighRatio), 0, pk) {
        Some(i) => i,
        None => {
            return Err(TESErr::NotFoundError);
        },
    };
    let rl = match find_last_gt_exec(&w1, mul_bits(pavg, PAConfig.RiseLowRatio), 0, rh) {
        Some(i) => i,
        None => {
            return Err(TESErr::NotFoundError);
        },
    };
    let dh = match find_first_lt_exec(&w1, mul_bits(pavg, PAConfig.DecayHighRatio), pk, len) {
        Some(i) => i,
        None => {
            return Err(TESErr::NotFoundError);
        },
    };
    let dl = match find_first_lt_exec(&w1, mul_bits(pavg, PAConfig.DecayLowRatio), dh, len) {
        Some(i) => i,
        None => {
            return Err(TESErr::NotFoundError);
        },
    };
    let pi = PulseInfoS {
        Base: base,
        PeakAverage: pavg,
        PeakIndex: pk as u32,
        RiseTime: div_bits(u64_to_bits((rh - rl) as u64), PRConfig.Rate),
        DecayTime: div_bits(u64_to_bits((dl - dh) as u64), PRConfig.Rate),
    };
    let pih = PulseInfoHelperS {
        Peak: w1[pk],
        RiseHighIndex: rh,
        RiseLowIndex: rl,
        DecayHighIndex: dh,
        DecayLowIndex: dl,
    };
    let pah = PulseAnalysisHelperS {
        BaseStart: h.BaseStart,
        BaseEnd: h.BaseEnd,
        PeakSearch: h.PeakSearch,
        PeakAverageStart: pas as u32,
        PeakAverageEnd: pae as u32,
    };
    Ok((pi, pih, pah))
}

} // verus!
