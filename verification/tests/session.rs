//! The session: batches, the cache protocol, filtering, and the registry.
use tes_gui_lib::config::{ParseConfig, PulseProcessorConfig, RawPulseConfig, TESAnalysisConfig};
use tes_gui_lib::data_processor::DataProcessorS;
use tes_gui_lib::errors::TESErr;
use tes_gui_lib::filter::{filtfilt, FilterCoefficients};
use tes_gui_lib::names::{ChannelOfDirName, FindFolderType, PulseNumberOfFileName};
use tes_gui_lib::processor::{ChannelState, ProcessPulse, ProgressPercent, PulseProcessorS, RunStates};
use tes_gui_lib::registry::{
    RegisterProcessor, SaveFigCommand, SetDataPathCommand, TabRegistry, UnregisterProcessor,
};

fn config() -> PulseProcessorConfig {
    ParseConfig(&RawPulseConfig {
        Sample: 1000.0f64.to_bits(),
        PreSample: 200.0f64.to_bits(),
        Rate: 1.0e6f64.to_bits(),
        CutoffFrequency: 2.0e4f64.to_bits(),
        BaseLinePreSample: 20.0f64.to_bits(),
        BaseLinePostSample: 0.0f64.to_bits(),
        PeakSearchSample: 100.0f64.to_bits(),
        PeakAveragePreSample: 5.0f64.to_bits(),
        PeakAveragePostSample: 5.0f64.to_bits(),
        RiseHighRatio: 0.8f64.to_bits(),
        RiseLowRatio: 0.2f64.to_bits(),
        DecayHighRatio: 0.8f64.to_bits(),
        DecayLowRatio: 0.2f64.to_bits(),
    })
    .unwrap()
}

/// A pass-through section: `b0 = 1`, every other tap zero.
fn identity_coeffs() -> FilterCoefficients {
    FilterCoefficients {
        b0: 1.0f64.to_bits(),
        b1: 0.0f64.to_bits(),
        b2: 0.0f64.to_bits(),
        a1: 0.0f64.to_bits(),
        a2: 0.0f64.to_bits(),
    }
}

fn capture(samples: &[f64]) -> Vec<u8> {
    let mut v = vec![0u8; 4];
    for s in samples {
        v.extend_from_slice(&s.to_bits().to_le_bytes());
    }
    v
}

fn pulse_shape(peak: f64) -> Vec<f64> {
    let mut w = Vec::new();
    for i in 0..1000usize {
        let v: f64 = if i < 200 {
            0.0
        } else if i < 210 {
            (i - 200) as f64 * peak / 10.0
        } else if i < 250 {
            peak
        } else if i < 260 {
            peak - (i - 250) as f64 * peak / 10.0
        } else {
            0.0
        };
        w.push(v);
    }
    w
}

fn session_with(cfg: PulseProcessorConfig) -> PulseProcessorS {
    let mut p = PulseProcessorS::new();
    p.SaveConfig(cfg).unwrap();
    p.BesselCoeffs = Some(identity_coeffs());
    p
}

fn batch() -> Vec<(u32, Vec<u8>)> {
    let mut pulses = Vec::new();
    pulses.push((0u32, capture(&pulse_shape(100.0))));
    pulses.push((1u32, capture(&pulse_shape(50.0))));
    // A corrupt capture: not a whole number of samples.
    let mut bad = capture(&pulse_shape(75.0));
    bad.push(0);
    pulses.push((2u32, bad));
    pulses
}

#[test]
fn batch_runs_are_idempotent() {
    let mut s1 = session_with(config());
    let mut s2 = session_with(config());
    let d1 = s1.AnalyzePulse(3, &batch()).unwrap();
    let d2 = s2.AnalyzePulse(3, &batch()).unwrap();
    assert_eq!(d1, 1, "exactly the corrupt capture is dropped");
    assert_eq!(d1, d2);
    assert_eq!(s1.GetFeatures(3).unwrap(), s2.GetFeatures(3).unwrap());
    // Running the same batch again on the same session gives the same table.
    let before = s1.GetFeatures(3).unwrap().clone();
    s1.AnalyzePulse(3, &batch()).unwrap();
    assert_eq!(*s1.GetFeatures(3).unwrap(), before);
}

#[test]
fn collect_matches_worker_results() {
    let mut s1 = session_with(config());
    let mut s2 = session_with(config());
    s1.AnalyzePulse(1, &batch()).unwrap();
    let coeffs = identity_coeffs();
    let cfg = config();
    let mut results = Vec::new();
    for (num, bytes) in batch() {
        results.push((num, ProcessPulse(&coeffs, &cfg.Readout, &cfg.Analysis, &bytes).ok()));
    }
    let dropped = s2.CollectPulseInfos(1, &results);
    assert_eq!(dropped, 1);
    assert_eq!(s1.GetFeatures(1).unwrap(), s2.GetFeatures(1).unwrap());
}

#[test]
fn cache_hit_skips_loaded_channels() {
    let mut s = session_with(config());
    let fp = s.CurrentFingerprint();
    s.SetFingerprint(Some(fp));
    s.SetChannels(&vec![2, 1]).unwrap();
    // Compute channel 1, persist it, and reload it as its CSV.
    s.AnalyzePulse(1, &batch()).unwrap();
    let csv = s.SavePulseInfos(1);
    s.LoadPulseInfos(1, &csv).unwrap();
    let plan = s.RunPlan();
    assert_eq!(plan, vec![(1, true), (2, false)]);
    assert!(!s.AllFresh());
    s.LoadPulseInfos(2, &csv).unwrap();
    assert!(s.AllFresh());
    // An explicit reset forces every channel stale again.
    s.ResetPreResult().unwrap();
    assert_eq!(s.RunPlan(), vec![(1, false), (2, false)]);
}

#[test]
fn cache_invalidation_on_any_config_change() {
    let base = config();
    let mut changed_ratio = base;
    changed_ratio.Analysis.RiseHighRatio = 0.9f64.to_bits();
    let mut changed_window = base;
    changed_window.Analysis.BaseLinePreSample = 21;
    let mut changed_rate = base;
    changed_rate.Readout.Rate = 2.0e6f64.to_bits();
    for current in [changed_ratio, changed_window, changed_rate] {
        let mut s = session_with(current);
        // The fingerprint of the previous run used the unchanged config.
        s.SetFingerprint(Some(base));
        s.SetChannels(&vec![1]).unwrap();
        s.AnalyzePulse(1, &batch()).unwrap();
        let csv = s.SavePulseInfos(1);
        s.LoadPulseInfos(1, &csv).unwrap();
        // The CSV is there, yet the channel must be recomputed.
        assert_eq!(s.RunPlan(), vec![(1, false)]);
    }
}

#[test]
fn round_trip_through_session_tables() {
    let mut s = session_with(config());
    s.AnalyzePulse(4, &batch()).unwrap();
    let csv = s.SavePulseInfos(4);
    let mut s2 = session_with(config());
    s2.SetChannels(&vec![4]).unwrap();
    s2.LoadPulseInfos(4, &csv).unwrap();
    assert_eq!(s.GetFeatures(4).unwrap(), s2.GetFeatures(4).unwrap());
}

#[test]
fn identity_section_passes_signal_through() {
    let wave: Vec<u64> = pulse_shape(100.0).iter().map(|v| v.to_bits()).collect();
    let filtered = filtfilt(&identity_coeffs(), &wave);
    assert_eq!(filtered, wave);
}

/// A second-order Butterworth low-pass section for the given cutoff share.
fn butterworth(fc_over_fs: f64) -> FilterCoefficients {
    let omega = (std::f64::consts::PI * fc_over_fs).tan();
    let s2 = std::f64::consts::SQRT_2;
    let a0 = 1.0 + s2 * omega + omega * omega;
    let b0 = omega * omega / a0;
    FilterCoefficients {
        b0: b0.to_bits(),
        b1: (2.0 * b0).to_bits(),
        b2: b0.to_bits(),
        a1: (2.0 * (omega * omega - 1.0) / a0).to_bits(),
        a2: ((1.0 - s2 * omega + omega * omega) / a0).to_bits(),
    }
}

fn argmax(w: &[f64]) -> usize {
    let mut best = 0;
    for i in 1..w.len() {
        if w[i] >= w[best] {
            best = i;
        }
    }
    best
}

#[test]
fn filtfilt_keeps_peak_position() {
    // A slowly varying bump with small deterministic noise on top.
    let mut noisy = Vec::new();
    let mut seed: u64 = 0x2545F4914F6CDD1D;
    for i in 0..1000usize {
        let x = (i as f64 - 500.0) / 50.0;
        let bump = 100.0 * (-x * x / 2.0).exp();
        seed = seed.wrapping_mul(6364136223846793005).wrapping_add(1442695040888963407);
        let noise = ((seed >> 33) as f64 / (1u64 << 31) as f64 - 0.5) * 1.0;
        noisy.push(bump + noise);
    }
    let bits: Vec<u64> = noisy.iter().map(|v| v.to_bits()).collect();
    let filtered_bits = filtfilt(&butterworth(0.02), &bits);
    let filtered: Vec<f64> = filtered_bits.iter().map(|b| f64::from_bits(*b)).collect();
    let raw_peak = argmax(&noisy) as i64;
    let filtered_peak = argmax(&filtered) as i64;
    assert!(
        (raw_peak - filtered_peak).abs() <= 8,
        "raw {raw_peak} filtered {filtered_peak}"
    );
}

#[test]
fn progress_is_a_whole_percentage() {
    assert_eq!(ProgressPercent(0, 4), 0);
    assert_eq!(ProgressPercent(1, 3), 33);
    assert_eq!(ProgressPercent(2, 4), 50);
    assert_eq!(ProgressPercent(4, 4), 100);
}

#[test]
fn channels_are_sorted_and_unique() {
    let mut s = session_with(config());
    s.SetChannels(&vec![3, 1, 2, 2, 1]).unwrap();
    let plan = s.RunPlan();
    let chans: Vec<u32> = plan.iter().map(|p| p.0).collect();
    assert_eq!(chans, vec![1, 2, 3]);
    assert_eq!(
        s.SetChannels(&Vec::new()).unwrap_err(),
        TESErr::IOError,
        "an empty discovery aborts the run"
    );
}

#[test]
fn registry_dispatch() {
    let mut reg = TabRegistry::new();
    RegisterProcessor(&mut reg, "tab1".to_string(), "IV".to_string()).unwrap();
    RegisterProcessor(&mut reg, "tab2".to_string(), "Pulse".to_string()).unwrap();
    assert!(RegisterProcessor(&mut reg, "tab1".to_string(), "RT".to_string()).is_err());
    assert!(RegisterProcessor(&mut reg, "tab3".to_string(), "XY".to_string()).is_err());
    assert_eq!(reg.len(), 2);
    SetDataPathCommand(&mut reg, "tab2".to_string(), "/data/run1".to_string()).unwrap();
    assert!(SetDataPathCommand(&mut reg, "nope".to_string(), "/x".to_string()).is_err());
    assert!(SaveFigCommand(&reg, "tab1".to_string(), "fig.png".to_string()).is_ok());
    assert!(SaveFigCommand(&reg, "tab2".to_string(), "fig.png".to_string()).is_err());
    assert!(SaveFigCommand(&reg, "nope".to_string(), "fig.png".to_string()).is_err());
    UnregisterProcessor(&mut reg, "tab1".to_string()).unwrap();
    assert!(UnregisterProcessor(&mut reg, "tab1".to_string()).is_err());
    assert_eq!(reg.len(), 1);
}

#[test]
fn names_parse_channels_and_pulses() {
    assert_eq!(ChannelOfDirName(b"CH12_pulse"), Some(12));
    assert_eq!(ChannelOfDirName(b"CH0_pulse"), Some(0));
    assert_eq!(ChannelOfDirName(b"CH_pulse"), None);
    assert_eq!(ChannelOfDirName(b"CH12_pulsex"), None);
    assert_eq!(ChannelOfDirName(b"XH12_pulse"), None);
    assert_eq!(PulseNumberOfFileName(b"CH3_457.dat"), Some(457));
    assert_eq!(PulseNumberOfFileName(b"CH3_0.dat"), Some(0));
    assert_eq!(PulseNumberOfFileName(b"CH3_45x.dat"), None);
    assert_eq!(PulseNumberOfFileName(b"CH_457.dat"), None);
    assert_eq!(PulseNumberOfFileName(b"CH3457.dat"), None);
    assert_eq!(PulseNumberOfFileName(b"CH3_457.txt"), None);
}

#[test]
fn folder_type_classification() {
    let iv = vec![b"120mK".to_vec(), b"junk".to_vec()];
    assert_eq!(FindFolderType(&iv, false).unwrap(), "IV");
    let rt: Vec<Vec<u8>> = vec![b"other".to_vec()];
    assert_eq!(FindFolderType(&rt, true).unwrap(), "RT");
    let pulse = vec![b"CH1_pulse".to_vec()];
    assert_eq!(FindFolderType(&pulse, false).unwrap(), "Pulse");
    let none: Vec<Vec<u8>> = vec![b"other".to_vec()];
    assert_eq!(FindFolderType(&none, false), None);
    // IV is checked before Pulse, so an IV folder wins.
    let both = vec![b"CH1_pulse".to_vec(), b"90mK".to_vec()];
    assert_eq!(FindFolderType(&both, false).unwrap(), "IV");
}

#[test]
fn analysis_defaults_and_data_path() {
    let t = TESAnalysisConfig::new();
    assert_eq!(t.R_sh, 3.9f64.to_bits());
    assert_eq!(t.LinerFitSample, 10);
    let mut dp = DataProcessorS::new();
    assert!(dp.DataPath.is_empty());
    dp.SetDataPath("/data/run7".to_string());
    assert_eq!(dp.DataPath, "/data/run7");
}

#[test]
fn stale_channel_recomputes_after_config_change() {
    // End to end: a run, a config change, and the forced recomputation.
    let base = config();
    let mut s = session_with(base);
    s.SetChannels(&vec![1]).unwrap();
    s.AnalyzePulse(1, &batch()).unwrap();
    let csv = s.SavePulseInfos(1);
    let fp = s.CurrentFingerprint();

    // Next run with one analysis field changed.
    let mut changed = base;
    changed.Analysis.PeakSearchSample = 90;
    let mut s2 = session_with(changed);
    s2.SetFingerprint(Some(fp));
    s2.SetChannels(&vec![1]).unwrap();
    s2.LoadPulseInfos(1, &csv).unwrap();
    assert_eq!(s2.RunPlan(), vec![(1, false)]);
    // And with the same config the channel stays cached.
    let mut s3 = session_with(base);
    s3.SetFingerprint(Some(fp));
    s3.SetChannels(&vec![1]).unwrap();
    s3.LoadPulseInfos(1, &csv).unwrap();
    assert_eq!(s3.RunPlan(), vec![(1, true)]);
}

#[test]
fn channel_states_step_legally() {
    let plan = vec![(1u32, false), (2u32, true)];
    let mut st = RunStates::new(&plan);
    assert_eq!(st.state_at(0), (1, ChannelState::Pending));
    st.step(0, ChannelState::Running).unwrap();
    st.step(0, ChannelState::Done).unwrap();
    assert_eq!(st.done_count(), 1);
    // A done channel cannot move again; a pending one cannot finish directly.
    assert!(st.step(0, ChannelState::Running).is_err());
    assert!(st.step(1, ChannelState::Done).is_err());
    st.step(1, ChannelState::Running).unwrap();
    st.step(1, ChannelState::Failed).unwrap();
    assert_eq!(st.done_count(), 1);
}
