//! The pulse-analysis session: configuration, channels, per-channel feature
//! tables, and the cache protocol.
//!
//! The session owns the configs and the channel list. A channel is fresh when
//! the fingerprint persisted after the previous run equals the active config
//! and the channel's CSV was loaded; a fresh channel is served from its table
//! with no waveform re-read, a stale one is recomputed. Batch work over one
//! channel's captures is a data-parallel map: the caller may fan
//! `ProcessPulse` out over workers and hand the results to
//! `CollectPulseInfos`, or let `AnalyzePulse` fold them here; either way a
//! pulse that fails to decode or extract is dropped and counted, never fatal.
use vstd::prelude::*;

use crate::assoc::{assoc_get, assoc_index, assoc_put, assoc_set, lemma_assoc_index, lemma_assoc_set_result};
use crate::config::{config_valid, PulseAnalysisConfig, PulseProcessorConfig, PulseReadoutConfig, ValidateConfig};
use crate::data_processor::DataProcessorS;
use crate::errors::TESErr;
use crate::extract::{pulse_info_spec, GetPulseInfo, PulseInfoS};
use crate::filter::{filtfilt, filtfilt_spec, FilterCoefficients};
use crate::table::{insert_pair, table_wf, ParseTable, parse_table_spec, PulseInfoTable, render_table_spec, entry_fmt_ok};
use crate::waveform::{capture_well_formed, decode_spec, DecodeWaveform};
use vstd::arithmetic::div_mod::{lemma_div_by_multiple, lemma_div_is_ordered};
use vstd::arithmetic::mul::lemma_mul_inequality;
use vstd::pervasive::VecAdditionalExecFns;

verus! {

/// Strictly increasing channel numbers.
pub open spec fn chans_sorted(s: Seq<u32>) -> bool {
    forall|i: int, j: int| 0 <= i < j < s.len() ==> s[i] < s[j]
}

/// Inserts a channel into a sorted list, keeping it sorted and duplicate-free.
fn sorted_insert(v: &mut Vec<u32>, x: u32)
    requires
        chans_sorted(old(v)@),
    ensures
        chans_sorted(final(v)@),
        forall|y: u32| final(v)@.contains(y) <==> (old(v)@.contains(y) || y == x),
{
    let ghost s = v@;
    let mut i: usize = 0;
    while i < v.len() && v[i] < x
        invariant
            v@ == s,
            s == old(v)@,
            chans_sorted(s),
            0 <= i <= s.len(),
            forall|j: int| 0 <= j < i ==> #[trigger] s[j] < x,
        decreases s.len() - i,
    {
        i = i + 1;
    }
    if i < v.len() {
        let cur = v[i];
        if cur == x {
            assert(s.contains(x)) by {
                assert(s[i as int] == x);
            }
            return ;
        }
    }
    v.insert(i, x);
    proof {
        s.insert_ensures(i as int, x);
        let t = v@;
        let ii = i as int;
        assert(ii < s.len() ==> s[ii] > x);
        assert forall|a: int, b: int| 0 <= a < b < t.len() implies t[a] < t[b] by {
            if b < ii {
                assert(t[a] == s[a] && t[b] == s[b]);
            } else if b == ii {
                assert(t[a] == s[a] && t[b] == x && s[a] < x);
            } else if a < ii {
                assert(t[a] == s[a] && t[b] == s[b - 1] && ii <= b - 1 < s.len());
                assert(s[a] < x);
                assert(s[ii] > x);
                assert(ii < b - 1 ==> s[ii] < s[b - 1]);
            } else if a == ii {
                assert(t[a] == x && t[b] == s[b - 1] && ii <= b - 1 < s.len());
                assert(s[ii] > x);
                assert(ii < b - 1 ==> s[ii] < s[b - 1]);
            } else {
                assert(t[a] == s[a - 1] && t[b] == s[b - 1] && s[a - 1] < s[b - 1]);
            }
        }
        assert forall|y: u32| t.contains(y) implies (s.contains(y) || y == x) by {
            let j = choose|j: int| 0 <= j < t.len() && t[j] == y;
            if j < i {
                assert(s[j] == y);
            } else if j == i {
            } else {
                assert(s[j - 1] == y);
            }
        }
        assert forall|y: u32| s.contains(y) || y == x implies t.contains(y) by {
            if y == x {
                assert(t[i as int] == x);
            } else {
                let j = choose|j: int| 0 <= j < s.len() && s[j] == y;
                if j < i {
                    assert(t[j] == y);
                } else {
                    assert(t[j + 1] == y);
                }
            }
        }
    }
}

/// What one raw capture yields: decoded, zero-phase filtered, extracted.
pub open spec fn process_spec(
    c: FilterCoefficients,
    pr: PulseReadoutConfig,
    pa: PulseAnalysisConfig,
    bytes: Seq<u8>,
) -> Result<PulseInfoS, TESErr> {
    if !capture_well_formed(bytes) {
        Err(TESErr::FormatError)
    } else {
        match pulse_info_spec(pr, pa, filtfilt_spec(c, decode_spec(bytes))) {
            Ok(t) => Ok(t.0),
            Err(e) => Err(e),
        }
    }
}

/// Decodes one capture, filters it with the shared coefficients, and
/// extracts its features. This is the whole per-pulse computation; workers
/// may run it concurrently since it shares nothing mutable.
pub fn ProcessPulse(
    Coeffs: &FilterCoefficients,
    PRConfig: &PulseReadoutConfig,
    PAConfig: &PulseAnalysisConfig,
    Data: &[u8],
) -> (r: Result<PulseInfoS, TESErr>)
    ensures
        r == process_spec(*Coeffs, *PRConfig, *PAConfig, Data@),
{
    let wave = match DecodeWaveform(Data) {
        Ok(w) => w,
        Err(e) => {
            return Err(e);
        },
    };
    let filtered = filtfilt(Coeffs, &wave);
    match GetPulseInfo(PRConfig, PAConfig, filtered) {
        Ok(t) => Ok(t.0),
        Err(e) => Err(e),
    }
}

/// The table a batch of raw captures folds to: failures dropped, successes
/// keyed by pulse number, later duplicates replacing earlier ones.
pub open spec fn batch_spec(
    c: FilterCoefficients,
    pr: PulseReadoutConfig,
    pa: PulseAnalysisConfig,
    ps: Seq<(u32, Vec<u8>)>,
) -> Seq<(u32, PulseInfoS)>
    decreases ps.len(),
{
    if ps.len() == 0 {
        Seq::empty()
    } else {
        let prev = batch_spec(c, pr, pa, ps.drop_last());
        match process_spec(c, pr, pa, ps.last().1@) {
            Ok(pi) => insert_pair(prev, ps.last().0, pi),
            Err(_) => prev,
        }
    }
}

/// How many captures of the batch are dropped.
pub open spec fn batch_dropped(
    c: FilterCoefficients,
    pr: PulseReadoutConfig,
    pa: PulseAnalysisConfig,
    ps: Seq<(u32, Vec<u8>)>,
) -> int
    decreases ps.len(),
{
    if ps.len() == 0 {
        0
    } else {
        batch_dropped(c, pr, pa, ps.drop_last()) + if process_spec(
            c,
            pr,
            pa,
            ps.last().1@,
        ) is Err {
            1int
        } else {
            0int
        }
    }
}

/// The table a batch of per-pulse results folds to: `None` results dropped.
pub open spec fn collect_spec(rs: Seq<(u32, Option<PulseInfoS>)>) -> Seq<(u32, PulseInfoS)>
    decreases rs.len(),
{
    if rs.len() == 0 {
        Seq::empty()
    } else {
        let prev = collect_spec(rs.drop_last());
        match rs.last().1 {
            Some(pi) => insert_pair(prev, rs.last().0, pi),
            None => prev,
        }
    }
}

/// How many results of a collection are dropped.
pub open spec fn collect_dropped(rs: Seq<(u32, Option<PulseInfoS>)>) -> int
    decreases rs.len(),
{
    if rs.len() == 0 {
        0
    } else {
        collect_dropped(rs.drop_last()) + if rs.last().1 is None {
            1int
        } else {
            0int
        }
    }
}

/// Batch idempotence: the table of a batch is a function of the
/// coefficients, the configs and the capture bytes alone, so two runs on
/// identical inputs yield identical features.
pub proof fn lemma_batch_idempotent(
    c: FilterCoefficients,
    pr: PulseReadoutConfig,
    pa: PulseAnalysisConfig,
    ps: Seq<(u32, Vec<u8>)>,
    t1: Seq<(u32, PulseInfoS)>,
    t2: Seq<(u32, PulseInfoS)>,
)
    requires
        t1 == batch_spec(c, pr, pa, ps),
        t2 == batch_spec(c, pr, pa, ps),
    ensures
        t1 == t2,
{
}

/// Each result is the per-pulse computation of the matching capture, in the
/// same order.
pub open spec fn results_of_batch(
    c: FilterCoefficients,
    pr: PulseReadoutConfig,
    pa: PulseAnalysisConfig,
    ps: Seq<(u32, Vec<u8>)>,
    rs: Seq<(u32, Option<PulseInfoS>)>,
) -> bool {
    &&& rs.len() == ps.len()
    &&& forall|i: int| 0 <= i < ps.len() ==> (#[trigger] rs[i]).0 == ps[i].0 && rs[i].1 == (
    match process_spec(c, pr, pa, ps[i].1@) {
        Ok(pi) => Some(pi),
        Err(_) => None::<PulseInfoS>,
    })
}

/// The worker path agrees with the sequential fold: collecting the per-pulse
/// results of a batch, in capture order, builds exactly the batch's table
/// and drop count.
pub proof fn lemma_collect_matches_batch(
    c: FilterCoefficients,
    pr: PulseReadoutConfig,
    pa: PulseAnalysisConfig,
    ps: Seq<(u32, Vec<u8>)>,
    rs: Seq<(u32, Option<PulseInfoS>)>,
)
    requires
        results_of_batch(c, pr, pa, ps, rs),
    ensures
        collect_spec(rs) == batch_spec(c, pr, pa, ps),
        collect_dropped(rs) == batch_dropped(c, pr, pa, ps),
    decreases ps.len(),
{
    if ps.len() > 0 {
        assert(results_of_batch(c, pr, pa, ps.drop_last(), rs.drop_last())) by {
            assert(forall|i: int|
                0 <= i < ps.len() - 1 ==> #[trigger] rs.drop_last()[i] == rs[i]);
            assert(forall|i: int|
                0 <= i < ps.len() - 1 ==> #[trigger] ps.drop_last()[i] == ps[i]);
        }
        lemma_collect_matches_batch(c, pr, pa, ps.drop_last(), rs.drop_last());
        assert(rs.last() == rs[ps.len() - 1]);
        assert(ps.last() == ps[ps.len() - 1]);
    }
}

/// Reports batch progress as a whole percentage of completed pulses.
pub fn ProgressPercent(Done: usize, Total: usize) -> (r: u32)
    requires
        0 < Total,
        Done <= Total,
    ensures
        r == Done as int * 100 / Total as int,
        r <= 100,
{
    proof {
        lemma_mul_inequality(Done as int, Total as int, 100);
        lemma_div_is_ordered(Done as int * 100, Total as int * 100, Total as int);
        lemma_div_by_multiple(100, Total as int);
        assert(Done as int * 100 == (Done as u128 * 100) as int);
    }
    ((Done as u128) * 100 / (Total as u128)) as u32
}

/// The two configs a fingerprint is compared against.
pub open spec fn current_config(pr: PulseReadoutConfig, pa: PulseAnalysisConfig)
    -> PulseProcessorConfig {
    PulseProcessorConfig { Readout: pr, Analysis: pa }
}

/// The pulse-analysis session.
pub struct PulseProcessorS {
    /// Where the channel folders live.
    pub DP: DataProcessorS,
    /// The active readout config.
    pub PRConfig: PulseReadoutConfig,
    /// The active analysis config.
    pub PAConfig: PulseAnalysisConfig,
    /// The discovered channels, ascending.
    pub Channels: Vec<u32>,
    /// The features of each channel, computed or loaded, keyed by channel.
    pub PulseInfosCH: Vec<(u32, PulseInfoTable)>,
    /// Whether each channel's CSV was seen this run, keyed by channel.
    pub InfoCSVExist: Vec<(u32, bool)>,
    /// The shared low-pass section, designed once per run.
    pub BesselCoeffs: Option<FilterCoefficients>,
    /// The config pair persisted after the previous run, if any.
    pub Fingerprint: Option<PulseProcessorConfig>,
}

impl PulseProcessorS {
    /// The session's well-formedness: channels ascending, every stored table
    /// with distinct keys.
    pub open spec fn wf(&self) -> bool {
        &&& chans_sorted(self.Channels@)
        &&& forall|i: int| 0 <= i < self.PulseInfosCH@.len() ==> table_wf(
            (#[trigger] self.PulseInfosCH@[i]).1@,
        )
    }

    /// A channel's CSV was seen and loaded this run.
    pub open spec fn csv_exists(&self, ch: u32) -> bool {
        &&& assoc_index(self.InfoCSVExist@, ch) >= 0
        &&& self.InfoCSVExist@[assoc_index(self.InfoCSVExist@, ch)].1
    }

    /// The persisted fingerprint equals the active configuration.
    pub open spec fn fingerprint_matches(&self) -> bool {
        self.Fingerprint == Some(current_config(self.PRConfig, self.PAConfig))
    }

    /// A channel is fresh exactly when the fingerprint matches and its CSV
    /// was loaded: fresh channels are served from their table, stale ones
    /// recomputed.
    pub open spec fn channel_fresh(&self, ch: u32) -> bool {
        self.fingerprint_matches() && self.csv_exists(ch)
    }

    /// An idle session: no folder, placeholder configs, nothing discovered.
    pub fn new() -> (r: Self)
        ensures
            r.wf(),
            r.Channels@.len() == 0,
            r.PulseInfosCH@.len() == 0,
            r.InfoCSVExist@.len() == 0,
            r.BesselCoeffs is None,
            r.Fingerprint is None,
            r.DP.DataPath@ == Seq::<char>::empty(),
            r.PRConfig == (PulseReadoutConfig { Sample: 0u32, PreSample: 0u32, Rate: 0u64 }),
            r.PAConfig == (PulseAnalysisConfig {
                CutoffFrequency: 0u64,
                BaseLinePreSample: 0u32,
                BaseLinePostSample: 0u32,
                PeakSearchSample: 0u32,
                PeakAveragePreSample: 0u32,
                PeakAveragePostSample: 0u32,
                RiseHighRatio: 0u64,
                RiseLowRatio: 0u64,
                DecayHighRatio: 0u64,
                DecayLowRatio: 0u64,
            }),
    {
        Self {
            DP: DataProcessorS::new(),
            PRConfig: PulseReadoutConfig::new(),
            PAConfig: PulseAnalysisConfig::new(),
            Channels: Vec::new(),
            PulseInfosCH: Vec::new(),
            InfoCSVExist: Vec::new(),
            BesselCoeffs: None,
            Fingerprint: None,
        }
    }

    /// Points the session at a data folder.
    pub fn SetDataPath(&mut self, path: String)
        ensures
            final(self).DP.DataPath@ == path@,
            *final(self) == (PulseProcessorS { DP: final(self).DP, ..*old(self) }),
            old(self).wf() ==> final(self).wf(),
    {
        self.DP.SetDataPath(path);
        proof {
            assert(self.Channels == old(self).Channels);
            assert(self.PulseInfosCH == old(self).PulseInfosCH);
        }
    }

    /// Validates and installs a configuration; a config whose ratios or
    /// readout bounds are out of range is rejected unchanged.
    pub fn SaveConfig(&mut self, PPC: PulseProcessorConfig) -> (r: Result<(), TESErr>)
        ensures
            r is Ok <==> config_valid(PPC),
            r is Err ==> r->Err_0 == TESErr::ConfigError && *final(self) == *old(self),
            r is Ok ==> *final(self) == (PulseProcessorS {
                PRConfig: PPC.Readout,
                PAConfig: PPC.Analysis,
                ..*old(self)
            }),
            old(self).wf() ==> final(self).wf(),
    {
        if !ValidateConfig(&PPC) {
            return Err(TESErr::ConfigError);
        }
        self.PRConfig = PPC.Readout;
        self.PAConfig = PPC.Analysis;
        proof {
            assert(self.Channels == old(self).Channels);
            assert(self.PulseInfosCH == old(self).PulseInfosCH);
        }
        Ok(())
    }

    /// The pair to persist as the fingerprint after a successful run.
    pub fn CurrentFingerprint(&self) -> (r: PulseProcessorConfig)
        ensures
            r == current_config(self.PRConfig, self.PAConfig),
    {
        PulseProcessorConfig { Readout: self.PRConfig, Analysis: self.PAConfig }
    }

    /// Installs the fingerprint read from the previous run, or `None` when
    /// there was none.
    pub fn SetFingerprint(&mut self, fp: Option<PulseProcessorConfig>)
        ensures
            *final(self) == (PulseProcessorS { Fingerprint: fp, ..*old(self) }),
            old(self).wf() ==> final(self).wf(),
    {
        self.Fingerprint = fp;
        proof {
            assert(self.Channels == old(self).Channels);
            assert(self.PulseInfosCH == old(self).PulseInfosCH);
        }
    }

    /// Decides whether the persisted fingerprint equals the active config.
    pub fn FingerprintMatches(&self) -> (r: bool)
        ensures
            r == self.fingerprint_matches(),
    {
        match &self.Fingerprint {
            None => false,
            Some(fp) => *fp == PulseProcessorConfig {
                Readout: self.PRConfig,
                Analysis: self.PAConfig,
            },
        }
    }

    /// Installs the discovered channels, ascending and duplicate-free, all
    /// marked as having no CSV yet; an empty discovery is an error.
    pub fn SetChannels(&mut self, Found: &Vec<u32>) -> (r: Result<(), TESErr>)
        requires
            old(self).wf(),
        ensures
            final(self).wf(),
            r is Ok <==> Found@.len() > 0,
            r is Err ==> r->Err_0 == TESErr::IOError && *final(self) == *old(self),
            r is Ok ==> forall|y: u32| final(self).Channels@.contains(y) <==> Found@.contains(y),
            r is Ok ==> final(self).InfoCSVExist@.len() == final(self).Channels@.len(),
            r is Ok ==> forall|i: int| 0 <= i < final(self).Channels@.len()
                ==> #[trigger] final(self).InfoCSVExist@[i] == (final(self).Channels@[i], false),
            final(self).PulseInfosCH == old(self).PulseInfosCH,
            final(self).PRConfig == old(self).PRConfig,
            final(self).PAConfig == old(self).PAConfig,
            final(self).Fingerprint == old(self).Fingerprint,
            final(self).BesselCoeffs == old(self).BesselCoeffs,
            final(self).DP == old(self).DP,
    {
        if Found.len() == 0 {
            return Err(TESErr::IOError);
        }
        let mut chans: Vec<u32> = Vec::new();
        let mut i: usize = 0;
        while i < Found.len()
            invariant
                0 <= i <= Found@.len(),
                chans_sorted(chans@),
                forall|y: u32| chans@.contains(y) <==> Found@.subrange(0, i as int).contains(y),
            decreases Found@.len() - i,
        {
            sorted_insert(&mut chans, Found[i]);
            proof {
                let pre = Found@.subrange(0, i as int);
                let now = Found@.subrange(0, i + 1);
                assert(pre.push(Found@[i as int]) =~= now);
                let x = Found@[i as int];
                assert forall|y: u32| now.contains(y) implies (pre.contains(y) || y == x) by {
                    let j = choose|j: int| 0 <= j < now.len() && now[j] == y;
                    if j < i {
                        assert(pre[j] == y);
                    }
                }
                assert forall|y: u32| pre.contains(y) implies now.contains(y) by {
                    let j = choose|j: int| 0 <= j < pre.len() && pre[j] == y;
                    assert(now[j] == y);
                }
                assert(now.contains(Found@[i as int])) by {
                    assert(now[i as int] == Found@[i as int]);
                }
            }
            i = i + 1;
        }
        let mut exist: Vec<(u32, bool)> = Vec::new();
        let mut j: usize = 0;
        while j < chans.len()
            invariant
                0 <= j <= chans@.len(),
                exist@.len() == j,
                forall|i2: int| 0 <= i2 < j ==> #[trigger] exist@[i2] == (chans@[i2], false),
            decreases chans@.len() - j,
        {
            exist.push((chans[j], false));
            j = j + 1;
        }
        proof {
            assert(Found@.subrange(0, Found@.len() as int) =~= Found@);
        }
        self.Channels = chans;
        self.InfoCSVExist = exist;
        Ok(())
    }

    /// Marks every channel as needing recomputation, the explicit reset of
    /// the cache protocol.
    pub fn ResetPreResult(&mut self) -> (r: Result<(), TESErr>)
        requires
            old(self).wf(),
        ensures
            r is Ok,
            final(self).wf(),
            final(self).InfoCSVExist@.len() == old(self).InfoCSVExist@.len(),
            forall|i: int| 0 <= i < final(self).InfoCSVExist@.len()
                ==> #[trigger] final(self).InfoCSVExist@[i] == (old(self).InfoCSVExist@[i].0, false),
            final(self).Channels == old(self).Channels,
            final(self).PulseInfosCH == old(self).PulseInfosCH,
            final(self).PRConfig == old(self).PRConfig,
            final(self).PAConfig == old(self).PAConfig,
            final(self).Fingerprint == old(self).Fingerprint,
            final(self).BesselCoeffs == old(self).BesselCoeffs,
            final(self).DP == old(self).DP,
    {
        let n = self.InfoCSVExist.len();
        let mut i: usize = 0;
        while i < n
            invariant
                0 <= i <= n,
                n == self.InfoCSVExist@.len(),
                self.InfoCSVExist@.len() == old(self).InfoCSVExist@.len(),
                forall|j: int| 0 <= j < i ==> #[trigger] self.InfoCSVExist@[j] == (
                    old(self).InfoCSVExist@[j].0,
                    false,
                ),
                forall|j: int| i <= j < n ==> #[trigger] self.InfoCSVExist@[j] == old(
                    self,
                ).InfoCSVExist@[j],
                self.Channels == old(self).Channels,
                self.PulseInfosCH == old(self).PulseInfosCH,
                self.PRConfig == old(self).PRConfig,
                self.PAConfig == old(self).PAConfig,
                self.Fingerprint == old(self).Fingerprint,
                self.BesselCoeffs == old(self).BesselCoeffs,
                self.DP == old(self).DP,
            decreases n - i,
        {
            let ch = self.InfoCSVExist[i].0;
            self.InfoCSVExist.set(i, (ch, false));
            i = i + 1;
        }
        Ok(())
    }

    /// Parses one channel's CSV document and stores its table; the channel
    /// is then marked as cached. A malformed document changes nothing.
    pub fn LoadPulseInfos(&mut self, Channel: u32, Data: &[u8]) -> (r: Result<(), TESErr>)
        requires
            old(self).wf(),
        ensures
            final(self).wf(),
            r is Ok <==> parse_table_spec(Data@) is Ok,
            r is Err ==> r->Err_0 == TESErr::FormatError && *final(self) == *old(self),
            r is Ok ==> final(self).PulseInfosCH@ == assoc_set(
                old(self).PulseInfosCH@,
                Channel,
                final(self).GetTableSpec(Channel),
            ) && Ok::<_, TESErr>(final(self).GetTableSpec(Channel)@) == parse_table_spec(Data@)
                && final(self).InfoCSVExist@ == assoc_set(
                old(self).InfoCSVExist@,
                Channel,
                true,
            ) && final(self).Channels == old(self).Channels && final(self).PRConfig == old(
                self,
            ).PRConfig && final(self).PAConfig == old(self).PAConfig && final(self).Fingerprint
                == old(self).Fingerprint && final(self).BesselCoeffs == old(self).BesselCoeffs
                && final(self).DP == old(self).DP,
    {
        let table = match ParseTable(Data) {
            Ok(t) => t,
            Err(e) => {
                return Err(e);
            },
        };
        let ghost gtable = table;
        assoc_put(&mut self.PulseInfosCH, Channel, table);
        assoc_put(&mut self.InfoCSVExist, Channel, true);
        proof {
            let s = old(self).PulseInfosCH@;
            let t = self.PulseInfosCH@;
            let ki = assoc_index(s, Channel);
            lemma_assoc_index(s, Channel);
            lemma_assoc_index(t, Channel);
            lemma_assoc_set_result(s, Channel, gtable);
            assert(self.GetTableSpec(Channel) == gtable);
            assert forall|i: int| 0 <= i < t.len() implies table_wf((#[trigger] t[i]).1@) by {
                if ki >= 0 {
                    if i != ki {
                        assert(t[i] == s[i]);
                    }
                } else {
                    if i < s.len() {
                        assert(t[i] == s[i]);
                    }
                }
            }
        }
        Ok(())
    }

    /// The stored table of a channel, as a spec value.
    pub open spec fn GetTableSpec(&self, Channel: u32) -> PulseInfoTable
        recommends
            assoc_index(self.PulseInfosCH@, Channel) >= 0,
    {
        self.PulseInfosCH@[assoc_index(self.PulseInfosCH@, Channel)].1
    }

    /// Whether features for a channel are in memory.
    pub fn HasPulseInfos(&self, Channel: u32) -> (r: bool)
        ensures
            r == (assoc_index(self.PulseInfosCH@, Channel) >= 0),
    {
        match assoc_get(&self.PulseInfosCH, Channel) {
            Some(_) => true,
            None => false,
        }
    }

    /// The features computed or loaded for a channel.
    pub fn GetFeatures(&self, Channel: u32) -> (r: Option<&PulseInfoTable>)
        ensures
            r is Some <==> assoc_index(self.PulseInfosCH@, Channel) >= 0,
            r matches Some(t) ==> *t == self.GetTableSpec(Channel),
    {
        assoc_get(&self.PulseInfosCH, Channel)
    }

    /// Renders the stored table of a channel as its CSV document.
    pub fn SavePulseInfos(&self, Channel: u32) -> (r: Vec<u8>)
        requires
            assoc_index(self.PulseInfosCH@, Channel) >= 0,
        ensures
            r@ == render_table_spec(self.GetTableSpec(Channel)@),
            forall|i: int| 0 <= i < self.GetTableSpec(Channel)@.len() ==> entry_fmt_ok(
                (#[trigger] self.GetTableSpec(Channel)@[i]).1,
            ),
    {
        let t = match assoc_get(&self.PulseInfosCH, Channel) {
            Some(t) => t,
            None => {
                proof {
                    assert(false);
                }
                unreached()
            },
        };
        t.RenderTable()
    }

    /// Folds a batch of raw captures into the channel's table: each capture
    /// is decoded, filtered and extracted; failures are dropped and counted,
    /// so one corrupt capture never aborts the batch. Returns the drop count.
    #[verifier::rlimit(100)]
    pub fn AnalyzePulse(&mut self, Channel: u32, Pulses: &Vec<(u32, Vec<u8>)>) -> (r: Result<
        usize,
        TESErr,
    >)
        requires
            old(self).wf(),
            old(self).BesselCoeffs is Some,
        ensures
            final(self).wf(),
            r is Ok,
            r->Ok_0 == batch_dropped(
                old(self).BesselCoeffs->Some_0,
                old(self).PRConfig,
                old(self).PAConfig,
                Pulses@,
            ),
            final(self).PulseInfosCH@ == assoc_set(
                old(self).PulseInfosCH@,
                Channel,
                final(self).GetTableSpec(Channel),
            ),
            final(self).GetTableSpec(Channel)@ == batch_spec(
                old(self).BesselCoeffs->Some_0,
                old(self).PRConfig,
                old(self).PAConfig,
                Pulses@,
            ),
            final(self).Channels == old(self).Channels,
            final(self).InfoCSVExist == old(self).InfoCSVExist,
            final(self).PRConfig == old(self).PRConfig,
            final(self).PAConfig == old(self).PAConfig,
            final(self).Fingerprint == old(self).Fingerprint,
            final(self).BesselCoeffs == old(self).BesselCoeffs,
            final(self).DP == old(self).DP,
    {
        let coeffs = match &self.BesselCoeffs {
            Some(c) => *c,
            None => {
                proof {
                    assert(false);
                }
                unreached()
            },
        };
        let ghost c = coeffs;
        let mut table = PulseInfoTable::new();
        let mut dropped: usize = 0;
        let mut i: usize = 0;
        while i < Pulses.len()
            invariant
                0 <= i <= Pulses@.len(),
                c == old(self).BesselCoeffs->Some_0,
                coeffs == c,
                self == old(self),
                old(self).BesselCoeffs is Some,
                table_wf(table@),
                table@ == batch_spec(c, self.PRConfig, self.PAConfig, Pulses@.subrange(0, i as int)),
                dropped == batch_dropped(
                    c,
                    self.PRConfig,
                    self.PAConfig,
                    Pulses@.subrange(0, i as int),
                ),
                dropped <= i,
            decreases Pulses@.len() - i,
        {
            let kv = &Pulses[i];
            proof {
                assert(Pulses@.subrange(0, i + 1).drop_last() =~= Pulses@.subrange(0, i as int));
                assert(Pulses@.subrange(0, i + 1).last() == Pulses@[i as int]);
            }
            match ProcessPulse(&coeffs, &self.PRConfig, &self.PAConfig, kv.1.as_slice()) {
                Ok(pi) => {
                    table.insert(kv.0, pi);
                },
                Err(_) => {
                    dropped = dropped + 1;
                },
            }
            i = i + 1;
        }
        proof {
            assert(Pulses@.subrange(0, Pulses@.len() as int) =~= Pulses@);
        }
        let ghost olds = self.PulseInfosCH@;
        let ghost gtable = table;
        assoc_put(&mut self.PulseInfosCH, Channel, table);
        proof {
            let t = self.PulseInfosCH@;
            let ki = assoc_index(olds, Channel);
            lemma_assoc_index(olds, Channel);
            lemma_assoc_index(t, Channel);
            lemma_assoc_set_result(olds, Channel, gtable);
            assert(self.GetTableSpec(Channel) == gtable);
            assert forall|j: int| 0 <= j < t.len() implies table_wf((#[trigger] t[j]).1@) by {
                if ki >= 0 {
                    if j != ki {
                        assert(t[j] == olds[j]);
                    }
                } else {
                    if j < olds.len() {
                        assert(t[j] == olds[j]);
                    }
                }
            }
        }
        Ok(dropped)
    }

    /// Folds per-pulse results computed elsewhere (for instance by a worker
    /// pool running `ProcessPulse`) into the channel's table; dropped pulses
    /// are counted, whatever order the workers finished in.
    #[verifier::rlimit(100)]
    pub fn CollectPulseInfos(&mut self, Channel: u32, Results: &Vec<(u32, Option<PulseInfoS>)>)
        -> (r: usize)
        requires
            old(self).wf(),
        ensures
            final(self).wf(),
            r == collect_dropped(Results@),
            final(self).PulseInfosCH@ == assoc_set(
                old(self).PulseInfosCH@,
                Channel,
                final(self).GetTableSpec(Channel),
            ),
            final(self).GetTableSpec(Channel)@ == collect_spec(Results@),
            final(self).Channels == old(self).Channels,
            final(self).InfoCSVExist == old(self).InfoCSVExist,
            final(self).PRConfig == old(self).PRConfig,
            final(self).PAConfig == old(self).PAConfig,
            final(self).Fingerprint == old(self).Fingerprint,
            final(self).BesselCoeffs == old(self).BesselCoeffs,
            final(self).DP == old(self).DP,
    {
        let mut table = PulseInfoTable::new();
        let mut dropped: usize = 0;
        let mut i: usize = 0;
        while i < Results.len()
            invariant
                0 <= i <= Results@.len(),
                self == old(self),
                table_wf(table@),
                table@ == collect_spec(Results@.subrange(0, i as int)),
                dropped == collect_dropped(Results@.subrange(0, i as int)),
                dropped <= i,
            decreases Results@.len() - i,
        {
            let kv = &Results[i];
            proof {
                assert(Results@.subrange(0, i + 1).drop_last() =~= Results@.subrange(0, i as int));
                assert(Results@.subrange(0, i + 1).last() == Results@[i as int]);
            }
            match &kv.1 {
                Some(pi) => {
                    table.insert(kv.0, *pi);
                },
                None => {
                    dropped = dropped + 1;
                },
            }
            i = i + 1;
        }
        proof {
            assert(Results@.subrange(0, Results@.len() as int) =~= Results@);
        }
        let ghost olds = self.PulseInfosCH@;
        let ghost gtable = table;
        assoc_put(&mut self.PulseInfosCH, Channel, table);
        proof {
            let t = self.PulseInfosCH@;
            let ki = assoc_index(olds, Channel);
            lemma_assoc_index(olds, Channel);
            lemma_assoc_index(t, Channel);
            lemma_assoc_set_result(olds, Channel, gtable);
            assert(self.GetTableSpec(Channel) == gtable);
            assert forall|j: int| 0 <= j < t.len() implies table_wf((#[trigger] t[j]).1@) by {
                if ki >= 0 {
                    if j != ki {
                        assert(t[j] == olds[j]);
                    }
                } else {
                    if j < olds.len() {
                        assert(t[j] == olds[j]);
                    }
                }
            }
        }
        dropped
    }

    /// The run plan: each channel, ascending, with its freshness. A fresh
    /// channel is served from its loaded table and no capture of it is read
    /// again; a stale one is recomputed.
    pub fn RunPlan(&self) -> (r: Vec<(u32, bool)>)
        ensures
            r@.len() == self.Channels@.len(),
            forall|i: int| 0 <= i < r@.len() ==> #[trigger] r@[i] == (
                self.Channels@[i],
                self.channel_fresh(self.Channels@[i]),
            ),
    {
        let m = self.FingerprintMatches();
        let mut out: Vec<(u32, bool)> = Vec::new();
        let mut i: usize = 0;
        while i < self.Channels.len()
            invariant
                0 <= i <= self.Channels@.len(),
                m == self.fingerprint_matches(),
                out@.len() == i,
                forall|j: int| 0 <= j < i ==> #[trigger] out@[j] == (
                    self.Channels@[j],
                    self.channel_fresh(self.Channels@[j]),
                ),
            decreases self.Channels@.len() - i,
        {
            let ch = self.Channels[i];
            let cached = match assoc_get(&self.InfoCSVExist, ch) {
                Some(b) => *b,
                None => false,
            };
            out.push((ch, m && cached));
            i = i + 1;
        }
        out
    }

    /// Whether every channel is fresh: the caller may then skip the whole
    /// recomputation phase.
    pub fn AllFresh(&self) -> (r: bool)
        ensures
            r == forall|i: int| 0 <= i < self.Channels@.len() ==> self.channel_fresh(
                #[trigger] self.Channels@[i],
            ),
    {
        let plan = self.RunPlan();
        let mut i: usize = 0;
        while i < plan.len()
            invariant
                0 <= i <= plan@.len(),
                plan@.len() == self.Channels@.len(),
                forall|j: int| 0 <= j < plan@.len() ==> #[trigger] plan@[j] == (
                    self.Channels@[j],
                    self.channel_fresh(self.Channels@[j]),
                ),
                forall|j: int| 0 <= j < i ==> self.channel_fresh(#[trigger] self.Channels@[j]),
            decreases plan@.len() - i,
        {
            if !plan[i].1 {
                return false;
            }
            i = i + 1;
        }
        true
    }
}

/// Where one channel stands during a run.
#[derive(Clone, Copy, PartialEq, Eq, Structural, Debug)]
pub enum ChannelState {
    /// Not reached yet.
    Pending,
    /// Its batch is running.
    Running,
    /// Served from cache or recomputed and persisted.
    Done,
    /// Its batch or persistence failed; the run goes on.
    Failed,
}

/// The legal transitions: a pending channel starts running; a running one
/// ends done or failed.
pub open spec fn state_step_ok(from: ChannelState, to: ChannelState) -> bool {
    ||| (from is Pending && to is Running)
    ||| (from is Running && (to is Done || to is Failed))
}

/// How many entries are `Done`.
pub open spec fn spec_done_count(s: Seq<(u32, ChannelState)>) -> int
    decreases s.len(),
{
    if s.len() == 0 {
        0
    } else {
        spec_done_count(s.drop_last()) + if s.last().1 is Done {
            1int
        } else {
            0int
        }
    }
}

/// The done count never exceeds the number of entries.
pub proof fn lemma_done_count_bounded(s: Seq<(u32, ChannelState)>)
    ensures
        0 <= spec_done_count(s) <= s.len(),
    decreases s.len(),
{
    if s.len() > 0 {
        lemma_done_count_bounded(s.drop_last());
    }
}

/// Tracks each channel's state while a run walks the plan in sequence.
pub struct RunStates {
    states: Vec<(u32, ChannelState)>,
}

impl View for RunStates {
    type V = Seq<(u32, ChannelState)>;

    closed spec fn view(&self) -> Seq<(u32, ChannelState)> {
        self.states@
    }
}

impl RunStates {
    /// Every channel of the plan, pending.
    pub fn new(plan: &Vec<(u32, bool)>) -> (r: Self)
        ensures
            r@.len() == plan@.len(),
            forall|i: int| 0 <= i < plan@.len() ==> #[trigger] r@[i] == (
                plan@[i].0,
                ChannelState::Pending,
            ),
    {
        let mut states: Vec<(u32, ChannelState)> = Vec::new();
        let mut i: usize = 0;
        while i < plan.len()
            invariant
                0 <= i <= plan@.len(),
                states@.len() == i,
                forall|j: int| 0 <= j < i ==> #[trigger] states@[j] == (
                    plan@[j].0,
                    ChannelState::Pending,
                ),
            decreases plan@.len() - i,
        {
            states.push((plan[i].0, ChannelState::Pending));
            i = i + 1;
        }
        Self { states }
    }

    /// The state of the channel at a plan position.
    pub fn state_at(&self, i: usize) -> (r: (u32, ChannelState))
        requires
            i < self@.len(),
        ensures
            r == self@[i as int],
    {
        let kv = &self.states[i];
        (kv.0, kv.1)
    }

    /// How many channels are done.
    pub fn done_count(&self) -> (r: usize)
        ensures
            r == spec_done_count(self@),
            r <= self@.len(),
    {
        proof {
            lemma_done_count_bounded(self@);
        }
        let mut n: usize = 0;
        let mut i: usize = 0;
        while i < self.states.len()
            invariant
                0 <= i <= self@.len(),
                n == spec_done_count(self@.subrange(0, i as int)),
                n <= i,
            decreases self@.len() - i,
        {
            proof {
                assert(self@.subrange(0, i + 1).drop_last() =~= self@.subrange(0, i as int));
                assert(self@.subrange(0, i + 1).last() == self@[i as int]);
                lemma_done_count_bounded(self@.subrange(0, i + 1));
            }
            if matches!(self.states[i].1, ChannelState::Done) {
                n = n + 1;
            }
            i = i + 1;
        }
        proof {
            assert(self@.subrange(0, self@.len() as int) =~= self@);
        }
        n
    }

    /// Moves the channel at a plan position one legal step: pending channels
    /// start, running channels end done or failed; anything else is refused
    /// unchanged.
    pub fn step(&mut self, i: usize, to: ChannelState) -> (r: Result<(), TESErr>)
        requires
            i < old(self)@.len(),
        ensures
            final(self)@.len() == old(self)@.len(),
            r is Ok <==> state_step_ok(old(self)@[i as int].1, to),
            r is Ok ==> final(self)@ == old(self)@.update(
                i as int,
                (old(self)@[i as int].0, to),
            ),
            r is Err ==> final(self)@ == old(self)@ && r->Err_0 == TESErr::CoordinationError,
    {
        let from = self.states[i].1;
        let legal = match (from, to) {
            (ChannelState::Pending, ChannelState::Running) => true,
            (ChannelState::Running, ChannelState::Done) => true,
            (ChannelState::Running, ChannelState::Failed) => true,
            _ => false,
        };
        if !legal {
            return Err(TESErr::CoordinationError);
        }
        let ch = self.states[i].0;
        self.states.set(i, (ch, to));
        Ok(())
    }
}

/// Cache hit: with a matching fingerprint and a loaded CSV for the channel,
/// the plan marks it fresh, so no raw waveform of it is read again.
pub proof fn lemma_cache_hit(p: PulseProcessorS, ch: u32)
    requires
        p.fingerprint_matches(),
        p.csv_exists(ch),
    ensures
        p.channel_fresh(ch),
{
}

/// Cache invalidation: a fingerprint that differs from the active config in
/// any field, or a missing fingerprint, leaves every channel stale, so every
/// channel is recomputed.
pub proof fn lemma_cache_invalidation(p: PulseProcessorS)
    requires
        p.Fingerprint matches Some(fp) ==> fp.Analysis != p.PAConfig || fp.Readout != p.PRConfig,
    ensures
        forall|ch: u32| !p.channel_fresh(ch),
{
    assert forall|ch: u32| !p.channel_fresh(ch) by {
        if p.Fingerprint is Some {
            assert(p.Fingerprint->Some_0 != current_config(p.PRConfig, p.PAConfig));
        }
    }
}

} // verus!
