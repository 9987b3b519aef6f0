//! Binary decoding, numeric conversion, and the CSV round trip.
use tes_gui_lib::config::{float_to_u32, ParseConfig, RawPulseConfig, ValidateConfig, PulseProcessorConfig, PulseReadoutConfig, PulseAnalysisConfig};
use tes_gui_lib::errors::TESErr;
use tes_gui_lib::extract::PulseInfoS;
use tes_gui_lib::table::{ParseTable, PulseInfoTable};
use tes_gui_lib::waveform::DecodeWaveform;

fn capture(samples: &[f64]) -> Vec<u8> {
    let mut v = vec![7u8, 7, 7, 7];
    for s in samples {
        v.extend_from_slice(&s.to_bits().to_le_bytes());
    }
    v
}

#[test]
fn decode_reads_little_endian_doubles() {
    let bytes = capture(&[1.5, -0.25, 1.0e-7]);
    let w = DecodeWaveform(&bytes).unwrap();
    assert_eq!(w.len(), 3);
    assert_eq!(f64::from_bits(w[0]), 1.5);
    assert_eq!(f64::from_bits(w[1]), -0.25);
    assert_eq!(f64::from_bits(w[2]), 1.0e-7);
}

#[test]
fn decode_rejects_partial_sample() {
    let mut bytes = capture(&[1.5]);
    bytes.push(0);
    assert_eq!(DecodeWaveform(&bytes).unwrap_err(), TESErr::FormatError);
}

#[test]
fn decode_short_file_is_empty() {
    let bytes = vec![1u8, 2, 3];
    assert_eq!(DecodeWaveform(&bytes).unwrap().len(), 0);
}

#[test]
fn float_to_u32_truncates_toward_zero() {
    assert_eq!(float_to_u32(3.75f64.to_bits()).unwrap(), 3);
    assert_eq!(float_to_u32(0.999f64.to_bits()).unwrap(), 0);
    assert_eq!(float_to_u32(0.0f64.to_bits()).unwrap(), 0);
    assert_eq!(float_to_u32((-0.0f64).to_bits()).unwrap(), 0);
    assert_eq!(float_to_u32(4294967295.0f64.to_bits()).unwrap(), u32::MAX);
    assert_eq!(float_to_u32(1000.0f64.to_bits()).unwrap(), 1000);
}

#[test]
fn float_to_u32_rejects_out_of_range() {
    assert_eq!(float_to_u32((-0.5f64).to_bits()).unwrap_err(), TESErr::ConfigError);
    assert_eq!(float_to_u32(f64::NAN.to_bits()).unwrap_err(), TESErr::ConfigError);
    assert_eq!(float_to_u32(f64::INFINITY.to_bits()).unwrap_err(), TESErr::ConfigError);
    assert_eq!(float_to_u32(4294967295.5f64.to_bits()).unwrap_err(), TESErr::ConfigError);
    assert_eq!(float_to_u32(4294967296.0f64.to_bits()).unwrap_err(), TESErr::ConfigError);
    assert_eq!(float_to_u32(1.0e18f64.to_bits()).unwrap_err(), TESErr::ConfigError);
}

fn features(base: f64, avg: f64, idx: u32, rise: f64, decay: f64) -> PulseInfoS {
    PulseInfoS {
        Base: base.to_bits(),
        PeakAverage: avg.to_bits(),
        PeakIndex: idx,
        RiseTime: rise.to_bits(),
        DecayTime: decay.to_bits(),
    }
}

#[test]
fn csv_round_trip_is_identity() {
    let mut t = PulseInfoTable::new();
    t.insert(0, features(0.0, 100.0, 217, 2.0e-6, 7.5e-6));
    t.insert(1, features(-1.5, 99.25, 220, 1.0e-7, 0.125));
    t.insert(7, features(0.0078125, -3.5, 4000000, 123456.75, 1.0e-300));
    let text = t.RenderTable();
    let back = ParseTable(&text).unwrap();
    assert_eq!(back, t);
}

#[test]
fn csv_header_line_is_fixed() {
    let t = PulseInfoTable::new();
    let text = t.RenderTable();
    assert_eq!(text, b"key,Base,PeakAverage,PeakIndex,RiseTime,DecayTime\n".to_vec());
}

#[test]
fn csv_insert_replaces_existing_key() {
    let mut t = PulseInfoTable::new();
    t.insert(5, features(0.0, 1.0, 1, 1.0, 1.0));
    t.insert(5, features(0.0, 2.0, 2, 2.0, 2.0));
    assert_eq!(t.len(), 1);
    assert_eq!(t.get(5).unwrap().PeakIndex, 2);
}

#[test]
fn csv_parse_plain_document() {
    let text = b"key,Base,PeakAverage,PeakIndex,RiseTime,DecayTime\n1,0.5,2,3,0.25,0.125\n";
    let t = ParseTable(text).unwrap();
    assert_eq!(t.len(), 1);
    let p = t.get(1).unwrap();
    assert_eq!(f64::from_bits(p.Base), 0.5);
    assert_eq!(f64::from_bits(p.PeakAverage), 2.0);
    assert_eq!(p.PeakIndex, 3);
    assert_eq!(f64::from_bits(p.RiseTime), 0.25);
    assert_eq!(f64::from_bits(p.DecayTime), 0.125);
}

#[test]
fn csv_parse_scientific_notation() {
    let text = b"key,Base,PeakAverage,PeakIndex,RiseTime,DecayTime\n2,1e-6,-2.5E+3,0,0,0\n";
    let t = ParseTable(text).unwrap();
    let p = t.get(2).unwrap();
    assert_eq!(f64::from_bits(p.Base), 1.0e-6);
    assert_eq!(f64::from_bits(p.PeakAverage), -2.5e3);
}

#[test]
fn csv_rejects_first_malformed_row() {
    let short = b"key,Base,PeakAverage,PeakIndex,RiseTime,DecayTime\n1,2\n";
    assert_eq!(ParseTable(short).unwrap_err(), TESErr::FormatError);
    let bad_key = b"key,Base,PeakAverage,PeakIndex,RiseTime,DecayTime\nx,0,0,0,0,0\n";
    assert_eq!(ParseTable(bad_key).unwrap_err(), TESErr::FormatError);
    let bad_float = b"key,Base,PeakAverage,PeakIndex,RiseTime,DecayTime\n1,zz,0,0,0,0\n";
    assert_eq!(ParseTable(bad_float).unwrap_err(), TESErr::FormatError);
}

#[test]
fn csv_empty_document_is_empty_table() {
    assert_eq!(ParseTable(b"").unwrap().len(), 0);
    assert_eq!(ParseTable(b"key,Base,PeakAverage,PeakIndex,RiseTime,DecayTime\n").unwrap().len(), 0);
}

fn raw_config() -> RawPulseConfig {
    RawPulseConfig {
        Sample: 1000.0f64.to_bits(),
        PreSample: 200.9f64.to_bits(),
        Rate: 1.0e6f64.to_bits(),
        CutoffFrequency: 1.0e4f64.to_bits(),
        BaseLinePreSample: 20.0f64.to_bits(),
        BaseLinePostSample: 0.0f64.to_bits(),
        PeakSearchSample: 100.0f64.to_bits(),
        PeakAveragePreSample: 5.0f64.to_bits(),
        PeakAveragePostSample: 5.0f64.to_bits(),
        RiseHighRatio: 0.8f64.to_bits(),
        RiseLowRatio: 0.2f64.to_bits(),
        DecayHighRatio: 0.8f64.to_bits(),
        DecayLowRatio: 0.2f64.to_bits(),
    }
}

#[test]
fn config_document_fields_truncate() {
    let c = ParseConfig(&raw_config()).unwrap();
    assert_eq!(c.Readout.Sample, 1000);
    assert_eq!(c.Readout.PreSample, 200);
    assert_eq!(c.Analysis.BaseLinePreSample, 20);
    assert_eq!(c.Analysis.PeakSearchSample, 100);
    assert!(ValidateConfig(&c));
}

#[test]
fn config_document_rejects_negative_field() {
    let mut raw = raw_config();
    raw.PeakSearchSample = (-3.0f64).to_bits();
    assert_eq!(ParseConfig(&raw).unwrap_err(), TESErr::ConfigError);
}

#[test]
fn config_validation_rejects_bad_ratio() {
    let mut c = ParseConfig(&raw_config()).unwrap();
    c.Analysis.RiseHighRatio = 1.5f64.to_bits();
    assert!(!ValidateConfig(&c));
    c.Analysis.RiseHighRatio = 0.1f64.to_bits();
    // Low ratio above high ratio.
    assert!(!ValidateConfig(&c));
}

#[test]
fn config_validation_rejects_bad_readout() {
    let good = ParseConfig(&raw_config()).unwrap();
    let swapped = PulseProcessorConfig {
        Readout: PulseReadoutConfig { Sample: 100, PreSample: 200, Rate: 1.0e6f64.to_bits() },
        Analysis: good.Analysis,
    };
    assert!(!ValidateConfig(&swapped));
    let zero_rate = PulseProcessorConfig {
        Readout: PulseReadoutConfig { Sample: 1000, PreSample: 200, Rate: 0.0f64.to_bits() },
        Analysis: good.Analysis,
    };
    assert!(!ValidateConfig(&zero_rate));
}

#[test]
fn analysis_config_defaults_are_zero() {
    let a = PulseAnalysisConfig::new();
    assert_eq!(a.PeakSearchSample, 0);
    assert_eq!(f64::from_bits(a.RiseHighRatio), 0.0);
}
