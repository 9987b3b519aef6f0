//! Readout and analysis configuration, with validation.
//!
//! Fractional fields (rate, cutoff, ratios) are binary64 bit patterns; sample
//! counts are plain integers. A config document may give an integer field as
//! a number with a fractional part: it is truncated toward zero, and rejected
//! when negative, NaN or beyond `u32`.
use vstd::prelude::*;

use crate::errors::TESErr;
use crate::fbits::{fp_is_nan, fp_lt, fp_mag, fp_sign, is_nan_bits, lt_bits, ONE_BITS};
use vstd::arithmetic::div_mod::{lemma_div_by_multiple, lemma_div_is_ordered};
use vstd::arithmetic::power2::{lemma2_to64, lemma_pow2_strictly_increases, lemma_pow2_unfold, pow2};

verus! {

/// Parameters of the IV/RT analyses; carried for fingerprinting only.
#[derive(Clone, Copy, PartialEq, Eq, Structural, Debug)]
pub struct TESAnalysisConfig {
    /// Shunt resistance, a binary64 bit pattern.
    pub R_sh: u64,
    /// How many leading points a linear fit uses.
    pub LinerFitSample: u32,
}

impl TESAnalysisConfig {
    /// The defaults: a 3.9 shunt and a 10-point fit.
    pub fn new() -> (r: Self)
        ensures
            r.R_sh == 0x400F333333333333u64,
            r.LinerFitSample == 10,
    {
        Self { R_sh: 0x400F333333333333, LinerFitSample: 10 }
    }
}

/// How a channel was digitized.
#[derive(Clone, Copy, PartialEq, Eq, Structural, Debug)]
pub struct PulseReadoutConfig {
    /// Samples per capture.
    pub Sample: u32,
    /// Samples recorded before the trigger.
    pub PreSample: u32,
    /// Sampling rate in Hz, a binary64 bit pattern.
    pub Rate: u64,
}

impl PulseReadoutConfig {
    /// An all-zero placeholder, to be replaced by a loaded config.
    pub fn new() -> (r: Self)
        ensures
            r.Sample == 0 && r.PreSample == 0 && r.Rate == 0,
    {
        Self { Sample: 0, PreSample: 0, Rate: 0 }
    }
}

/// The knobs of feature extraction. Ratio fields are binary64 bit patterns.
#[derive(Clone, Copy, PartialEq, Eq, Structural, Debug)]
pub struct PulseAnalysisConfig {
    /// Low-pass cutoff handed to the filter designer, a binary64 bit pattern.
    pub CutoffFrequency: u64,
    /// Half-width of the baseline window around half the pre-trigger samples.
    pub BaseLinePreSample: u32,
    /// Kept for the config document; the baseline window does not read it.
    pub BaseLinePostSample: u32,
    /// How many samples after the trigger the peak search covers.
    pub PeakSearchSample: u32,
    /// Samples before the peak that enter the peak average.
    pub PeakAveragePreSample: u32,
    /// Samples at and after the peak that enter the peak average.
    pub PeakAveragePostSample: u32,
    /// Upper rise threshold as a share of the peak average.
    pub RiseHighRatio: u64,
    /// Lower rise threshold as a share of the peak average.
    pub RiseLowRatio: u64,
    /// Upper decay threshold as a share of the peak average.
    pub DecayHighRatio: u64,
    /// Lower decay threshold as a share of the peak average.
    pub DecayLowRatio: u64,
}

impl PulseAnalysisConfig {
    /// An all-zero placeholder, to be replaced by a loaded config.
    pub fn new() -> (r: Self)
        ensures
            r == (PulseAnalysisConfig {
                CutoffFrequency: 0u64,
                BaseLinePreSample: 0u32,
                BaseLinePostSample: 0u32,
                PeakSearchSample: 0u32,
                PeakAveragePreSample: 0u32,
                PeakAveragePostSample: 0u32,
                RiseHighRatio: 0u64,
                RiseLowRatio: 0u64,
                DecayHighRatio: 0u64,
                DecayLowRatio: 0u64,
            }),
    {
        PulseAnalysisConfig {
            CutoffFrequency: 0,
            BaseLinePreSample: 0,
            BaseLinePostSample: 0,
            PeakSearchSample: 0,
            PeakAveragePreSample: 0,
            PeakAveragePostSample: 0,
            RiseHighRatio: 0,
            RiseLowRatio: 0,
            DecayHighRatio: 0,
            DecayLowRatio: 0,
        }
    }
}

/// The pair that the config and fingerprint documents carry.
#[derive(Clone, Copy, PartialEq, Eq, Structural, Debug)]
pub struct PulseProcessorConfig {
    /// Readout section.
    pub Readout: PulseReadoutConfig,
    /// Analysis section.
    pub Analysis: PulseAnalysisConfig,
}

/// The exponent field of a bit pattern.
pub open spec fn fp_exp_field(b: u64) -> u64 {
    fp_mag(b) / 0x10000000000000
}

/// The significand field of a bit pattern.
pub open spec fn fp_frac(b: u64) -> u64 {
    fp_mag(b) % 0x10000000000000
}

/// The pattern's value is strictly negative (a negative zero is not).
pub open spec fn fp_neg_value(b: u64) -> bool {
    fp_sign(b) && fp_mag(b) != 0
}

/// The pattern's value is strictly positive (infinity counts).
pub open spec fn fp_pos_value(b: u64) -> bool {
    !fp_is_nan(b) && !fp_sign(b) && fp_mag(b) != 0
}

/// The pattern's value exceeds `u32::MAX`: its exponent reaches 2^32, or at
/// exponents just below, its scaled significand exceeds `u32::MAX << 52`.
pub open spec fn fp_gt_u32max(b: u64) -> bool {
    if fp_exp_field(b) >= 1055 {
        true
    } else if fp_exp_field(b) < 1023 {
        false
    } else {
        (0x10000000000000 + fp_frac(b)) * pow2((fp_exp_field(b) - 1023) as nat) > 0xFFFFFFFF
            * 0x10000000000000
    }
}

/// The integer part of a non-negative pattern no bigger than `u32::MAX`:
/// zero below one, else the scaled significand shifted back down.
pub open spec fn fp_trunc_u32(b: u64) -> int {
    if fp_exp_field(b) < 1023 {
        0
    } else {
        ((0x10000000000000 + fp_frac(b)) * pow2((fp_exp_field(b) - 1023) as nat))
            / 0x10000000000000
    }
}

/// What converting a fractional field to `u32` returns.
pub open spec fn float_to_u32_spec(b: u64) -> Result<u32, TESErr> {
    if fp_is_nan(b) || fp_neg_value(b) || fp_gt_u32max(b) {
        Err(TESErr::ConfigError)
    } else {
        Ok(fp_trunc_u32(b) as u32)
    }
}

/// Truncates the value of the pattern toward zero into a `u32`; NaN,
/// negative values and values above `u32::MAX` are out of range.
pub fn float_to_u32(b: u64) -> (r: Result<u32, TESErr>)
    ensures
        r == float_to_u32_spec(b),
{
    if is_nan_bits(b) {
        return Err(TESErr::ConfigError);
    }
    let mag: u64 = if b >= 0x8000_0000_0000_0000 {
        b - 0x8000_0000_0000_0000
    } else {
        b
    };
    if b >= 0x8000_0000_0000_0000 && mag != 0 {
        return Err(TESErr::ConfigError);
    }
    let e: u64 = mag / 0x10000000000000;
    let m: u64 = mag % 0x10000000000000;
    if e >= 1055 {
        return Err(TESErr::ConfigError);
    }
    if e < 1023 {
        return Ok(0);
    }
    let k: u64 = e - 1023;
    let mut p: u128 = 1;
    let mut j: u64 = 0;
    proof {
        lemma2_to64();
    }
    while j < k
        invariant
            0 <= j <= k <= 31,
            p == pow2(j as nat),
            p <= 0x80000000,
        decreases k - j,
    {
        proof {
            lemma_pow2_unfold((j + 1) as nat);
            if j + 1 < 31 {
                lemma_pow2_strictly_increases((j + 1) as nat, 31);
            }
            lemma2_to64();
        }
        p = p * 2;
        j = j + 1;
    }
    proof {
        assert((0x10000000000000 + m as int) * (p as int) <= 0x20000000000000int * 0x80000000int)
            by (nonlinear_arith)
            requires
                (m as int) < 0x10000000000000,
                0 <= (m as int),
                1 <= (p as int),
                (p as int) <= 0x80000000,
        ;
    }
    let scaled: u128 = (0x10000000000000u128 + m as u128) * p;
    if scaled > 0xFFFFFFFF0000000000000u128 {
        assert((0x10000000000000 + m) * pow2(k as nat) > 0xFFFFFFFF * 0x10000000000000);
        Err(TESErr::ConfigError)
    } else {
        proof {
            lemma_div_is_ordered(scaled as int, 0xFFFFFFFF0000000000000int, 0x10000000000000int);
            lemma_div_by_multiple(0xFFFFFFFFint, 0x10000000000000int);
        }
        Ok((scaled / 0x10000000000000u128) as u32)
    }
}

/// A ratio lies in `[0, 1]`: non-negative and not above one.
pub open spec fn ratio_valid(b: u64) -> bool {
    &&& !fp_is_nan(b)
    &&& (!fp_sign(b) || fp_mag(b) == 0)
    &&& !fp_lt(ONE_BITS, b)
}

/// The readout invariant: more samples than pre-trigger samples, and a
/// strictly positive rate.
pub open spec fn readout_valid(r: PulseReadoutConfig) -> bool {
    &&& r.Sample > r.PreSample
    &&& fp_pos_value(r.Rate)
}

/// The analysis invariant: all four ratios in `[0, 1]`, each low ratio not
/// above its high ratio.
pub open spec fn analysis_valid(a: PulseAnalysisConfig) -> bool {
    &&& ratio_valid(a.RiseHighRatio)
    &&& ratio_valid(a.RiseLowRatio)
    &&& ratio_valid(a.DecayHighRatio)
    &&& ratio_valid(a.DecayLowRatio)
    &&& !fp_lt(a.RiseHighRatio, a.RiseLowRatio)
    &&& !fp_lt(a.DecayHighRatio, a.DecayLowRatio)
}

/// Both sections hold their invariants.
pub open spec fn config_valid(c: PulseProcessorConfig) -> bool {
    readout_valid(c.Readout) && analysis_valid(c.Analysis)
}

/// Decides `ratio_valid`.
fn ratio_ok(b: u64) -> (r: bool)
    ensures
        r == ratio_valid(b),
{
    !is_nan_bits(b) && b <= 0x8000_0000_0000_0000 && !lt_bits(ONE_BITS, b)
}

/// Decides `config_valid`.
pub fn ValidateConfig(c: &PulseProcessorConfig) -> (r: bool)
    ensures
        r == config_valid(*c),
{
    let readout_ok = c.Readout.Sample > c.Readout.PreSample && !is_nan_bits(c.Readout.Rate)
        && c.Readout.Rate < 0x8000_0000_0000_0000 && c.Readout.Rate != 0;
    let a = &c.Analysis;
    let analysis_ok = ratio_ok(a.RiseHighRatio) && ratio_ok(a.RiseLowRatio)
        && ratio_ok(a.DecayHighRatio) && ratio_ok(a.DecayLowRatio)
        && !lt_bits(a.RiseHighRatio, a.RiseLowRatio)
        && !lt_bits(a.DecayHighRatio, a.DecayLowRatio);
    readout_ok && analysis_ok
}

/// A config document's numeric fields, each as the binary64 bit pattern the
/// document gave, before integer fields are truncated and checked.
#[derive(Clone, Copy, PartialEq, Eq, Structural, Debug)]
pub struct RawPulseConfig {
    /// `Readout.Sample`.
    pub Sample: u64,
    /// `Readout.PreSample`.
    pub PreSample: u64,
    /// `Readout.Rate`.
    pub Rate: u64,
    /// `Analysis.CutoffFrequency`.
    pub CutoffFrequency: u64,
    /// `Analysis.BaseLinePreSample`.
    pub BaseLinePreSample: u64,
    /// `Analysis.BaseLinePostSample`.
    pub BaseLinePostSample: u64,
    /// `Analysis.PeakSearchSample`.
    pub PeakSearchSample: u64,
    /// `Analysis.PeakAveragePreSample`.
    pub PeakAveragePreSample: u64,
    /// `Analysis.PeakAveragePostSample`.
    pub PeakAveragePostSample: u64,
    /// `Analysis.RiseHighRatio`.
    pub RiseHighRatio: u64,
    /// `Analysis.RiseLowRatio`.
    pub RiseLowRatio: u64,
    /// `Analysis.DecayHighRatio`.
    pub DecayHighRatio: u64,
    /// `Analysis.DecayLowRatio`.
    pub DecayLowRatio: u64,
}

/// Every integer field of the raw document converts to `u32`.
pub open spec fn raw_config_ints_ok(raw: RawPulseConfig) -> bool {
    &&& float_to_u32_spec(raw.Sample) is Ok
    &&& float_to_u32_spec(raw.PreSample) is Ok
    &&& float_to_u32_spec(raw.BaseLinePreSample) is Ok
    &&& float_to_u32_spec(raw.BaseLinePostSample) is Ok
    &&& float_to_u32_spec(raw.PeakSearchSample) is Ok
    &&& float_to_u32_spec(raw.PeakAveragePreSample) is Ok
    &&& float_to_u32_spec(raw.PeakAveragePostSample) is Ok
}

/// The config a raw document denotes, once its integer fields convert.
pub open spec fn parse_config_spec(raw: RawPulseConfig) -> PulseProcessorConfig {
    PulseProcessorConfig {
        Readout: PulseReadoutConfig {
            Sample: float_to_u32_spec(raw.Sample)->Ok_0,
            PreSample: float_to_u32_spec(raw.PreSample)->Ok_0,
            Rate: raw.Rate,
        },
        Analysis: PulseAnalysisConfig {
            CutoffFrequency: raw.CutoffFrequency,
            BaseLinePreSample: float_to_u32_spec(raw.BaseLinePreSample)->Ok_0,
            BaseLinePostSample: float_to_u32_spec(raw.BaseLinePostSample)->Ok_0,
            PeakSearchSample: float_to_u32_spec(raw.PeakSearchSample)->Ok_0,
            PeakAveragePreSample: float_to_u32_spec(raw.PeakAveragePreSample)->Ok_0,
            PeakAveragePostSample: float_to_u32_spec(raw.PeakAveragePostSample)->Ok_0,
            RiseHighRatio: raw.RiseHighRatio,
            RiseLowRatio: raw.RiseLowRatio,
            DecayHighRatio: raw.DecayHighRatio,
            DecayLowRatio: raw.DecayLowRatio,
        },
    }
}

/// Builds a config from a raw document: integer fields are truncated toward
/// zero, and the document is rejected when one is negative, NaN or too big.
pub fn ParseConfig(raw: &RawPulseConfig) -> (r: Result<PulseProcessorConfig, TESErr>)
    ensures
        r is Ok <==> raw_config_ints_ok(*raw),
        r is Ok ==> r->Ok_0 == parse_config_spec(*raw),
        r is Err ==> r->Err_0 == TESErr::ConfigError,
{
    let sample = float_to_u32(raw.Sample)?;
    let pre_sample = float_to_u32(raw.PreSample)?;
    let blpre = float_to_u32(raw.BaseLinePreSample)?;
    let blpost = float_to_u32(raw.BaseLinePostSample)?;
    let psearch = float_to_u32(raw.PeakSearchSample)?;
    let papre = float_to_u32(raw.PeakAveragePreSample)?;
    let papost = float_to_u32(raw.PeakAveragePostSample)?;
    Ok(
        PulseProcessorConfig {
            Readout: PulseReadoutConfig { Sample: sample, PreSample: pre_sample, Rate: raw.Rate },
            Analysis: PulseAnalysisConfig {
                CutoffFrequency: raw.CutoffFrequency,
                BaseLinePreSample: blpre,
                BaseLinePostSample: blpost,
                PeakSearchSample: psearch,
                PeakAveragePreSample: papre,
                PeakAveragePostSample: papost,
                RiseHighRatio: raw.RiseHighRatio,
                RiseLowRatio: raw.RiseLowRatio,
                DecayHighRatio: raw.DecayHighRatio,
                DecayLowRatio: raw.DecayLowRatio,
            },
        },
    )
}

} // verus!
