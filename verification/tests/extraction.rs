//! Feature extraction on synthetic waveforms.
use tes_gui_lib::config::{PulseAnalysisConfig, PulseReadoutConfig};
use tes_gui_lib::errors::TESErr;
use tes_gui_lib::extract::GetPulseInfo;

fn readout() -> PulseReadoutConfig {
    PulseReadoutConfig { Sample: 1000, PreSample: 200, Rate: 1.0e6f64.to_bits() }
}

fn analysis() -> PulseAnalysisConfig {
    PulseAnalysisConfig {
        CutoffFrequency: 1.0e4f64.to_bits(),
        BaseLinePreSample: 20,
        BaseLinePostSample: 0,
        PeakSearchSample: 100,
        PeakAveragePreSample: 5,
        PeakAveragePostSample: 5,
        RiseHighRatio: 0.8f64.to_bits(),
        RiseLowRatio: 0.2f64.to_bits(),
        DecayHighRatio: 0.8f64.to_bits(),
        DecayLowRatio: 0.2f64.to_bits(),
    }
}

/// 0 over [0,200), ramp 0..100 over [200,210), flat 100 over [210,250),
/// decay 100..0 over [250,260), 0 afterward.
fn scenario_wave(len: usize) -> Vec<u64> {
    let mut w = Vec::new();
    for i in 0..len {
        let v: f64 = if i < 200 {
            0.0
        } else if i < 210 {
            (i - 200) as f64 * 10.0
        } else if i < 250 {
            100.0
        } else if i < 260 {
            100.0 - (i - 249) as f64 * 10.0
        } else {
            0.0
        };
        w.push(v.to_bits());
    }
    w
}

#[test]
fn scenario_features() {
    let (pi, pih, pah) = GetPulseInfo(&readout(), &analysis(), scenario_wave(1000)).unwrap();
    assert_eq!(f64::from_bits(pi.Base), 0.0);
    assert!(pi.PeakIndex >= 210 && pi.PeakIndex <= 249, "peak {} pih {:?}", pi.PeakIndex, pih);
    let avg = f64::from_bits(pi.PeakAverage);
    assert!((avg - 100.0).abs() <= 15.0, "peak average {avg}");
    let rise = f64::from_bits(pi.RiseTime);
    let decay = f64::from_bits(pi.DecayTime);
    assert!(rise > 0.0 && rise.is_finite());
    assert!(decay > 0.0 && decay.is_finite());
    assert_eq!(pah.BaseStart, 80);
    assert_eq!(pah.BaseEnd, 120);
    assert_eq!(pah.PeakSearch, 300);
    assert!(pih.RiseLowIndex < pih.RiseHighIndex);
    assert!(pih.DecayHighIndex <= pih.DecayLowIndex);
    assert_eq!(f64::from_bits(pih.Peak), 100.0);
}

/// A narrow pulse that fits a 301-sample capture.
fn narrow_wave(len: usize) -> Vec<u64> {
    let mut w = Vec::new();
    for i in 0..len {
        let v: f64 = if i < 240 {
            0.0
        } else if i <= 250 {
            (i - 240) as f64 * 10.0
        } else if i < 260 {
            100.0 - (i - 249) as f64 * 10.0
        } else {
            0.0
        };
        w.push(v.to_bits());
    }
    w
}

#[test]
fn boundary_length_rejected_then_accepted() {
    // Exactly PeakSearchEnd samples: rejected as too short.
    let r = GetPulseInfo(&readout(), &analysis(), narrow_wave(300));
    assert_eq!(r.unwrap_err(), TESErr::TooShortError);
    // One sample longer: accepted.
    let r = GetPulseInfo(&readout(), &analysis(), narrow_wave(301));
    assert!(r.is_ok(), "{:?}", r.unwrap_err());
}

#[test]
fn nan_in_search_window_rejected() {
    let mut w = scenario_wave(1000);
    w[220] = f64::NAN.to_bits();
    let r = GetPulseInfo(&readout(), &analysis(), w);
    assert_eq!(r.unwrap_err(), TESErr::NumericError);
}

#[test]
fn nan_in_baseline_window_rejected() {
    let mut w = scenario_wave(1000);
    w[90] = f64::NAN.to_bits();
    let r = GetPulseInfo(&readout(), &analysis(), w);
    assert_eq!(r.unwrap_err(), TESErr::NumericError);
}

#[test]
fn flat_waveform_has_no_crossing() {
    let w = vec![0u64; 1000];
    let r = GetPulseInfo(&readout(), &analysis(), w);
    assert_eq!(r.unwrap_err(), TESErr::NotFoundError);
}

#[test]
fn baseline_wider_than_pretrigger_rejected() {
    let mut a = analysis();
    a.BaseLinePreSample = 200;
    let r = GetPulseInfo(&readout(), &a, scenario_wave(1000));
    assert_eq!(r.unwrap_err(), TESErr::ConfigError);
}

#[test]
fn empty_baseline_window_rejected() {
    let mut a = analysis();
    a.BaseLinePreSample = 0;
    let r = GetPulseInfo(&readout(), &a, scenario_wave(1000));
    assert_eq!(r.unwrap_err(), TESErr::NumericError);
}

#[test]
fn baseline_mean_matches_ieee_fold() {
    let mut w = scenario_wave(1000);
    // Put a known slope into the baseline window [80, 120).
    for i in 80..120 {
        w[i] = ((i - 80) as f64 * 0.5).to_bits();
    }
    let (pi, _, _) = GetPulseInfo(&readout(), &analysis(), w).unwrap();
    let mut sum = 0.0f64;
    for i in 0..40 {
        sum += i as f64 * 0.5;
    }
    let expected = sum / 40.0;
    assert_eq!(pi.Base, expected.to_bits());
}

#[test]
fn rise_and_decay_times_exact() {
    let (pi, pih, _) = GetPulseInfo(&readout(), &analysis(), narrow_wave(301)).unwrap();
    let rise = (pih.RiseHighIndex - pih.RiseLowIndex) as f64 / 1.0e6;
    let decay = (pih.DecayLowIndex - pih.DecayHighIndex) as f64 / 1.0e6;
    assert_eq!(pi.RiseTime, rise.to_bits());
    assert_eq!(pi.DecayTime, decay.to_bits());
}

#[test]
fn crossings_land_at_exact_indices() {
    // narrow_wave: ramp (i-240)*10 over [240,250], decay 100-(i-249)*10 over
    // (250,260), zero elsewhere. Peak 100 at 250; peak average window
    // [245,255) holds 50,60,70,80,90,100,80,70,60,50, mean 71.
    let (pi, pih, pah) = GetPulseInfo(&readout(), &analysis(), narrow_wave(301)).unwrap();
    assert_eq!(pi.PeakIndex, 250);
    assert_eq!(f64::from_bits(pi.PeakAverage), 71.0);
    assert_eq!(pah.PeakAverageStart, 245);
    assert_eq!(pah.PeakAverageEnd, 255);
    // Rise: thresholds 56.8 and 14.2.
    assert_eq!(pih.RiseHighIndex, 245);
    assert_eq!(pih.RiseLowIndex, 244);
    // Decay: first below 56.8 at 254, first below 14.2 at 258.
    assert_eq!(pih.DecayHighIndex, 254);
    assert_eq!(pih.DecayLowIndex, 258);
    assert_eq!(pi.RiseTime, (1.0f64 / 1.0e6).to_bits());
    assert_eq!(pi.DecayTime, (4.0f64 / 1.0e6).to_bits());
}

#[test]
fn nonzero_baseline_is_subtracted() {
    // The whole capture shifted up by 8: the baseline must come out as 8 and
    // be subtracted before the peak average and thresholds are taken.
    let mut w = Vec::new();
    for b in narrow_wave(301) {
        w.push((f64::from_bits(b) + 8.0).to_bits());
    }
    let (pi, pih, _) = GetPulseInfo(&readout(), &analysis(), w).unwrap();
    assert_eq!(f64::from_bits(pi.Base), 8.0);
    assert_eq!(pi.PeakIndex, 250);
    assert_eq!(f64::from_bits(pi.PeakAverage), 71.0);
    assert_eq!(pih.RiseHighIndex, 245);
    assert_eq!(pih.DecayLowIndex, 258);
}
