//! The per-channel feature table and its CSV document.
//!
//! A table maps pulse numbers to features, in insertion order with unique
//! keys. It persists as one CSV per channel: a header line, then one line
//! per pulse, fields separated by commas, every line ended by a line feed.
//! Loading fails entirely on the first malformed row. Re-parsing a rendered
//! table gives the table back; `lemma_csv_round_trip` proves it.
use vstd::prelude::*;

use crate::bytesplit::{
    fields_join, free_of, lemma_fields_join_free, lemma_split_fields,
    lemma_split_lines, lines_join, split_bytes, split_spec,
};
use crate::digits::{
    all_digits, dec_spec, lemma_dec_spec_props, lemma_parse_render_u32, parse_u32_bytes,
    parse_u32_spec, render_u32,
};
use crate::errors::TESErr;
use crate::extract::PulseInfoS;
use crate::fbits::{fmt_bits, fp_fmt, fp_is_nan, fp_parse, parse_bits};
use vstd::pervasive::VecAdditionalExecFns;

verus! {

/// Keys are pairwise distinct.
pub open spec fn table_wf(s: Seq<(u32, PulseInfoS)>) -> bool {
    forall|i: int, j: int|
        #![trigger s[i].0, s[j].0]
        0 <= i < j < s.len() ==> s[i].0 != s[j].0
}

/// The position of `k` among the entries, `-1` when absent.
pub open spec fn key_index(s: Seq<(u32, PulseInfoS)>, k: u32) -> int
    decreases s.len(),
{
    if s.len() == 0 {
        -1
    } else if s[0].0 == k {
        0
    } else {
        let r = key_index(s.skip(1), k);
        if r < 0 {
            -1
        } else {
            r + 1
        }
    }
}

/// `key_index` finds the first entry with the key, or reports absence.
pub proof fn lemma_key_index(s: Seq<(u32, PulseInfoS)>, k: u32)
    ensures
        -1 <= key_index(s, k) < s.len(),
        key_index(s, k) >= 0 ==> s[key_index(s, k)].0 == k,
        key_index(s, k) >= 0 ==> forall|j: int| 0 <= j < key_index(s, k) ==> (#[trigger] s[j]).0
            != k,
        key_index(s, k) == -1 ==> forall|j: int| 0 <= j < s.len() ==> (#[trigger] s[j]).0 != k,
    decreases s.len(),
{
    if s.len() == 0 {
    } else if s[0].0 == k {
    } else {
        lemma_key_index(s.skip(1), k);
        let r = key_index(s.skip(1), k);
        if r >= 0 {
            assert forall|j: int| 0 <= j < r + 1 implies (#[trigger] s[j]).0 != k by {
                if j > 0 {
                    assert(s.skip(1)[j - 1] == s[j]);
                    assert(s.skip(1)[j - 1].0 != k);
                }
            }
        } else {
            assert forall|j: int| 0 <= j < s.len() implies (#[trigger] s[j]).0 != k by {
                if j > 0 {
                    assert(s.skip(1)[j - 1] == s[j]);
                    assert(s.skip(1)[j - 1].0 != k);
                }
            }
        }
    }
}

/// The entries after storing `(k, v)`: the first entry keyed `k` is
/// replaced, or the pair is appended when the key is new.
pub open spec fn insert_pair(s: Seq<(u32, PulseInfoS)>, k: u32, v: PulseInfoS) -> Seq<
    (u32, PulseInfoS),
> {
    if key_index(s, k) >= 0 {
        s.update(key_index(s, k), (k, v))
    } else {
        s.push((k, v))
    }
}

/// Storing a pair keeps the keys pairwise distinct.
pub proof fn lemma_insert_pair_wf(s: Seq<(u32, PulseInfoS)>, k: u32, v: PulseInfoS)
    requires
        table_wf(s),
    ensures
        table_wf(insert_pair(s, k, v)),
{
    lemma_key_index(s, k);
    let ki = key_index(s, k);
    if ki >= 0 {
        assert(s[ki].0 == k);
        let t = s.update(ki, (k, v));
        assert forall|i: int, j: int|
            #![trigger t[i].0, t[j].0]
            0 <= i < j < t.len() implies t[i].0 != t[j].0 by {
            assert(s[i].0 != s[j].0);
        }
    } else {
        let t = s.push((k, v));
        assert forall|i: int, j: int|
            #![trigger t[i].0, t[j].0]
            0 <= i < j < t.len() implies t[i].0 != t[j].0 by {
            if j < s.len() {
                assert(s[i].0 != s[j].0);
            } else {
                assert(s[i].0 != k);
            }
        }
    }
}

/// One channel's features, keyed by pulse number.
#[derive(Debug, Clone, PartialEq, Eq)]
pub struct PulseInfoTable {
    entries: Vec<(u32, PulseInfoS)>,
}

impl View for PulseInfoTable {
    type V = Seq<(u32, PulseInfoS)>;

    closed spec fn view(&self) -> Seq<(u32, PulseInfoS)> {
        self.entries@
    }
}

impl PulseInfoTable {
    /// An empty table.
    pub fn new() -> (r: Self)
        ensures
            r@ =~= Seq::<(u32, PulseInfoS)>::empty(),
            table_wf(r@),
    {
        Self { entries: Vec::new() }
    }

    /// How many pulses the table holds.
    pub fn len(&self) -> (r: usize)
        ensures
            r == self@.len(),
    {
        self.entries.len()
    }

    /// The entry at a position, in insertion order.
    pub fn entry_at(&self, i: usize) -> (r: (u32, PulseInfoS))
        requires
            i < self@.len(),
        ensures
            r == self@[i as int],
    {
        let kv = &self.entries[i];
        (kv.0, kv.1)
    }

    /// The features stored under a pulse number, if any.
    pub fn get(&self, key: u32) -> (r: Option<PulseInfoS>)
        ensures
            r is Some <==> key_index(self@, key) >= 0,
            r matches Some(v) ==> key_index(self@, key) >= 0 && v == self@[key_index(
                self@,
                key,
            )].1,
    {
        proof {
            lemma_key_index(self@, key);
        }
        let mut i: usize = 0;
        while i < self.entries.len()
            invariant
                0 <= i <= self@.len(),
                forall|j: int| 0 <= j < i ==> (#[trigger] self@[j]).0 != key,
                -1 <= key_index(self@, key) < self@.len(),
                key_index(self@, key) >= 0 ==> self@[key_index(self@, key)].0 == key,
                key_index(self@, key) >= 0 ==> forall|j: int|
                    0 <= j < key_index(self@, key) ==> (#[trigger] self@[j]).0 != key,
                key_index(self@, key) == -1 ==> forall|j: int|
                    0 <= j < self@.len() ==> (#[trigger] self@[j]).0 != key,
            decreases self@.len() - i,
        {
            if self.entries[i].0 == key {
                proof {
                    let ki = key_index(self@, key);
                    if ki == -1 {
                        assert(self@[i as int].0 != key);
                    } else if ki < i {
                        assert(self@[ki].0 != key);
                    } else if ki > i {
                        assert(self@[i as int].0 != key);
                    }
                }
                return Some(self.entries[i].1);
            }
            i = i + 1;
        }
        proof {
            let ki = key_index(self@, key);
            if ki >= 0 {
                assert(self@[ki].0 != key);
            }
        }
        None
    }

    /// Stores features under a pulse number, replacing any previous entry.
    pub fn insert(&mut self, key: u32, value: PulseInfoS)
        ensures
            final(self)@ == insert_pair(old(self)@, key, value),
            table_wf(old(self)@) ==> table_wf(final(self)@),
    {
        proof {
            lemma_key_index(old(self)@, key);
            if table_wf(old(self)@) {
                lemma_insert_pair_wf(old(self)@, key, value);
            }
        }
        let ghost s = self@;
        let mut i: usize = 0;
        while i < self.entries.len()
            invariant
                self@ == s,
                self.entries@ == s,
                s == old(self)@,
                0 <= i <= s.len(),
                forall|j: int| 0 <= j < i ==> (#[trigger] s[j]).0 != key,
            decreases s.len() - i,
        {
            if self.entries[i].0 == key {
                proof {
                    lemma_key_index(s, key);
                    let ki = key_index(s, key);
                    if ki == -1 {
                        assert(s[i as int].0 != key);
                    } else if ki < i {
                        assert(s[ki].0 != key);
                    } else if ki > i {
                        assert(s[i as int].0 != key);
                    }
                    assert(key_index(s, key) == i as int);
                    assert(insert_pair(s, key, value) == s.update(i as int, (key, value)));
                    if table_wf(s) {
                        lemma_insert_pair_wf(s, key, value);
                    }
                }
                self.entries.set(i, (key, value));
                return ;
            }
            i = i + 1;
        }
        proof {
            lemma_key_index(s, key);
            let ki = key_index(s, key);
            if ki >= 0 {
                assert(s[ki].0 != key);
            }
        }
        self.entries.push((key, value));
    }
}

/// The formatter's guarantees for one pattern: a nonempty rendering without
/// commas or line feeds that, for a non-NaN value, parses back to it.
pub open spec fn fmt_ok(b: u64) -> bool {
    &&& fp_fmt(b).len() >= 1
    &&& free_of(fp_fmt(b), 44)
    &&& free_of(fp_fmt(b), 10)
    &&& (!fp_is_nan(b) ==> fp_parse(fp_fmt(b)) == Some(b))
}

/// `fmt_ok` for each fractional field of the features.
pub open spec fn entry_fmt_ok(p: PulseInfoS) -> bool {
    fmt_ok(p.Base) && fmt_ok(p.PeakAverage) && fmt_ok(p.RiseTime) && fmt_ok(p.DecayTime)
}

/// No fractional field of the features is NaN.
pub open spec fn entry_no_nan(p: PulseInfoS) -> bool {
    !fp_is_nan(p.Base) && !fp_is_nan(p.PeakAverage) && !fp_is_nan(p.RiseTime) && !fp_is_nan(
        p.DecayTime,
    )
}

/// The six fields of one row: key, base, peak average, peak index, rise
/// time, decay time.
pub open spec fn row_fields(k: u32, p: PulseInfoS) -> Seq<Seq<u8>> {
    seq![
        dec_spec(k as nat),
        fp_fmt(p.Base),
        fp_fmt(p.PeakAverage),
        dec_spec(p.PeakIndex as nat),
        fp_fmt(p.RiseTime),
        fp_fmt(p.DecayTime),
    ]
}

/// One row: the six fields, commas between them.
pub open spec fn render_row_spec(k: u32, p: PulseInfoS) -> Seq<u8> {
    fields_join(row_fields(k, p), 44)
}

/// The header line's bytes: `key,Base,PeakAverage,PeakIndex,RiseTime,DecayTime`.
pub open spec fn header_spec() -> Seq<u8> {
    seq![
        107u8, 101u8, 121u8, 44u8, 66u8, 97u8, 115u8, 101u8, 44u8, 80u8, 101u8, 97u8, 107u8, 65u8,
        118u8, 101u8, 114u8, 97u8, 103u8, 101u8, 44u8, 80u8, 101u8, 97u8, 107u8, 73u8, 110u8,
        100u8, 101u8, 120u8, 44u8, 82u8, 105u8, 115u8, 101u8, 84u8, 105u8, 109u8, 101u8, 44u8,
        68u8, 101u8, 99u8, 97u8, 121u8, 84u8, 105u8, 109u8, 101u8,
    ]
}

/// One row line per entry, in table order.
pub open spec fn table_rows(s: Seq<(u32, PulseInfoS)>) -> Seq<Seq<u8>> {
    Seq::new(s.len(), |i: int| render_row_spec(s[i].0, s[i].1))
}

/// The document's lines: the header, then the rows.
pub open spec fn table_lines_spec(s: Seq<(u32, PulseInfoS)>) -> Seq<Seq<u8>> {
    seq![header_spec()] + table_rows(s)
}

/// The whole document: every line ended by a line feed.
pub open spec fn render_table_spec(s: Seq<(u32, PulseInfoS)>) -> Seq<u8> {
    lines_join(table_lines_spec(s), 10)
}

/// What parsing one row line yields: exactly six comma-separated fields,
/// integer keys and indices, binary64 text for the rest.
pub open spec fn parse_row_spec(line: Seq<u8>) -> Option<(u32, PulseInfoS)> {
    let fs = split_spec(line, 44);
    if fs.len() != 6 {
        None
    } else {
        if parse_u32_spec(fs[0]) is Some && fp_parse(fs[1]) is Some && fp_parse(fs[2]) is Some
            && parse_u32_spec(fs[3]) is Some && fp_parse(fs[4]) is Some && fp_parse(fs[5])
            is Some {
            Some(
                (
                    parse_u32_spec(fs[0])->Some_0,
                    PulseInfoS {
                        Base: fp_parse(fs[1])->Some_0,
                        PeakAverage: fp_parse(fs[2])->Some_0,
                        PeakIndex: parse_u32_spec(fs[3])->Some_0,
                        RiseTime: fp_parse(fs[4])->Some_0,
                        DecayTime: fp_parse(fs[5])->Some_0,
                    },
                ),
            )
        } else {
            None
        }
    }
}

/// Folds the lines `[i, end)` into the accumulated entries, stopping at the
/// first malformed row.
pub open spec fn parse_rows(
    ls: Seq<Seq<u8>>,
    i: int,
    end: int,
    acc: Seq<(u32, PulseInfoS)>,
) -> Result<Seq<(u32, PulseInfoS)>, TESErr>
    decreases end - i,
{
    if i >= end {
        Ok(acc)
    } else {
        match parse_row_spec(ls[i]) {
            None => Err(TESErr::FormatError),
            Some(p) => parse_rows(ls, i + 1, end, insert_pair(acc, p.0, p.1)),
        }
    }
}

/// What parsing a document yields: lines split on line feeds, one trailing
/// empty piece dropped, the first line skipped as the header, the rest rows.
pub open spec fn parse_table_spec(data: Seq<u8>) -> Result<Seq<(u32, PulseInfoS)>, TESErr> {
    let ls = split_spec(data, 10);
    let end = if ls.len() > 0 && ls.last().len() == 0 {
        ls.len() - 1
    } else {
        ls.len() as int
    };
    parse_rows(ls, 1, end, Seq::empty())
}

/// The header line's bytes.
#[verifier::rlimit(100)]
fn header_bytes() -> (r: Vec<u8>)
    ensures
        r@ == header_spec(),
{
    let mut v: Vec<u8> = Vec::new();
    v.push(107);
    v.push(101);
    v.push(121);
    v.push(44);
    v.push(66);
    v.push(97);
    v.push(115);
    v.push(101);
    v.push(44);
    v.push(80);
    v.push(101);
    v.push(97);
    v.push(107);
    v.push(65);
    v.push(118);
    v.push(101);
    v.push(114);
    v.push(97);
    v.push(103);
    v.push(101);
    v.push(44);
    v.push(80);
    v.push(101);
    v.push(97);
    v.push(107);
    v.push(73);
    v.push(110);
    v.push(100);
    v.push(101);
    v.push(120);
    v.push(44);
    v.push(82);
    v.push(105);
    v.push(115);
    v.push(101);
    v.push(84);
    v.push(105);
    v.push(109);
    v.push(101);
    v.push(44);
    v.push(68);
    v.push(101);
    v.push(99);
    v.push(97);
    v.push(121);
    v.push(84);
    v.push(105);
    v.push(109);
    v.push(101);
    proof {
        assert(v@ =~= header_spec());
    }
    v
}

/// A six-field join, written out.
proof fn lemma_join6(a: Seq<u8>, b: Seq<u8>, c: Seq<u8>, d: Seq<u8>, e: Seq<u8>, f: Seq<u8>, sep: u8)
    ensures
        fields_join(seq![a, b, c, d, e, f], sep) =~= a + seq![sep] + b + seq![sep] + c + seq![sep]
            + d + seq![sep] + e + seq![sep] + f,
{
    let s6 = seq![a, b, c, d, e, f];
    let s5 = seq![b, c, d, e, f];
    let s4 = seq![c, d, e, f];
    let s3 = seq![d, e, f];
    let s2 = seq![e, f];
    let s1 = seq![f];
    assert(s6.skip(1) =~= s5);
    assert(s5.skip(1) =~= s4);
    assert(s4.skip(1) =~= s3);
    assert(s3.skip(1) =~= s2);
    assert(s2.skip(1) =~= s1);
    assert(fields_join(s1, sep) == f);
    assert(fields_join(s2, sep) == e + seq![sep] + fields_join(s1, sep));
    assert(fields_join(s3, sep) == d + seq![sep] + fields_join(s2, sep));
    assert(fields_join(s4, sep) == c + seq![sep] + fields_join(s3, sep));
    assert(fields_join(s5, sep) == b + seq![sep] + fields_join(s4, sep));
    assert(fields_join(s6, sep) == a + seq![sep] + fields_join(s5, sep));
}

/// Renders one row line, without its line feed.
fn render_row(key: u32, p: &PulseInfoS) -> (r: Vec<u8>)
    ensures
        r@ == render_row_spec(key, *p),
        entry_fmt_ok(*p),
{
    let mut v = render_u32(key);
    v.push(44);
    let f1 = fmt_bits(p.Base);
    v.extend_from_slice(f1.as_slice());
    v.push(44);
    let f2 = fmt_bits(p.PeakAverage);
    v.extend_from_slice(f2.as_slice());
    v.push(44);
    let f3 = render_u32(p.PeakIndex);
    v.extend_from_slice(f3.as_slice());
    v.push(44);
    let f4 = fmt_bits(p.RiseTime);
    v.extend_from_slice(f4.as_slice());
    v.push(44);
    let f5 = fmt_bits(p.DecayTime);
    v.extend_from_slice(f5.as_slice());
    proof {
        lemma_join6(
            dec_spec(key as nat),
            fp_fmt(p.Base),
            fp_fmt(p.PeakAverage),
            dec_spec(p.PeakIndex as nat),
            fp_fmt(p.RiseTime),
            fp_fmt(p.DecayTime),
            44,
        );
        assert(v@ =~= render_row_spec(key, *p));
    }
    v
}

/// Appending one line to a joined document appends the line and a separator.
proof fn lemma_lines_join_push(ps: Seq<Seq<u8>>, p: Seq<u8>, sep: u8)
    ensures
        lines_join(ps.push(p), sep) =~= lines_join(ps, sep) + p + seq![sep],
    decreases ps.len(),
{
    let q = ps.push(p);
    assert(q.len() == ps.len() + 1);
    if ps.len() == 0 {
        assert(q[0] =~= p);
        assert(q.skip(1) =~= Seq::<Seq<u8>>::empty());
        assert(lines_join(q, sep) == q[0] + seq![sep] + lines_join(q.skip(1), sep));
        assert(lines_join(q.skip(1), sep) =~= Seq::<u8>::empty());
        assert(lines_join(ps, sep) =~= Seq::<u8>::empty());
        assert(lines_join(q, sep) =~= lines_join(ps, sep) + p + seq![sep]);
    } else {
        assert(q[0] =~= ps[0]);
        assert(q.skip(1) =~= ps.skip(1).push(p));
        lemma_lines_join_push(ps.skip(1), p, sep);
        assert(lines_join(q, sep) == q[0] + seq![sep] + lines_join(q.skip(1), sep));
        assert(lines_join(q.skip(1), sep) =~= lines_join(ps.skip(1), sep) + p + seq![sep]);
        assert(lines_join(ps, sep) == ps[0] + seq![sep] + lines_join(ps.skip(1), sep));
        assert(lines_join(q, sep) =~= lines_join(ps, sep) + p + seq![sep]);
    }
}

impl PulseInfoTable {
    /// Renders the whole CSV document: the header line, then one line per
    /// entry in table order, every line ended by a line feed.
    pub fn RenderTable(&self) -> (r: Vec<u8>)
        ensures
            r@ == render_table_spec(self@),
            forall|i: int| 0 <= i < self@.len() ==> entry_fmt_ok((#[trigger] self@[i]).1),
    {
        let mut out = header_bytes();
        out.push(10);
        proof {
            assert(seq![header_spec()].push(header_spec()) =~= seq![header_spec(), header_spec()]);
            lemma_lines_join_push(Seq::<Seq<u8>>::empty(), header_spec(), 10);
            assert(lines_join(Seq::<Seq<u8>>::empty().push(header_spec()), 10) =~= header_spec()
                + seq![10u8]);
            assert(Seq::<Seq<u8>>::empty().push(header_spec()) =~= seq![header_spec()]);
            assert(out@ =~= lines_join(seq![header_spec()] + table_rows(self@.subrange(0, 0)), 10));
        }
        let mut i: usize = 0;
        while i < self.entries.len()
            invariant
                0 <= i <= self@.len(),
                out@ =~= lines_join(
                    seq![header_spec()] + table_rows(self@.subrange(0, i as int)),
                    10,
                ),
                forall|j: int| 0 <= j < i ==> entry_fmt_ok((#[trigger] self@[j]).1),
            decreases self@.len() - i,
        {
            let kv = &self.entries[i];
            let row = render_row(kv.0, &kv.1);
            out.extend_from_slice(row.as_slice());
            out.push(10);
            proof {
                let prev = seq![header_spec()] + table_rows(self@.subrange(0, i as int));
                let next = seq![header_spec()] + table_rows(self@.subrange(0, i + 1));
                assert(prev.push(render_row_spec(self@[i as int].0, self@[i as int].1)) =~= next);
                lemma_lines_join_push(prev, render_row_spec(self@[i as int].0, self@[i as int].1), 10);
                assert(out@ =~= lines_join(next, 10));
            }
            i = i + 1;
        }
        proof {
            assert(self@.subrange(0, self@.len() as int) =~= self@);
            assert(out@ =~= render_table_spec(self@));
        }
        out
    }
}

/// Parses one row line into a key and its features.
fn parse_row(line: &Vec<u8>) -> (r: Option<(u32, PulseInfoS)>)
    ensures
        r == parse_row_spec(line@),
{
    let fields = split_bytes(line.as_slice(), 44);
    if fields.len() != 6 {
        return None;
    }
    let k = match parse_u32_bytes(fields[0].as_slice()) {
        Some(k) => k,
        None => {
            return None;
        },
    };
    let base = match parse_bits(fields[1].as_slice()) {
        Some(b) => b,
        None => {
            return None;
        },
    };
    let pavg = match parse_bits(fields[2].as_slice()) {
        Some(b) => b,
        None => {
            return None;
        },
    };
    let pidx = match parse_u32_bytes(fields[3].as_slice()) {
        Some(k) => k,
        None => {
            return None;
        },
    };
    let rise = match parse_bits(fields[4].as_slice()) {
        Some(b) => b,
        None => {
            return None;
        },
    };
    let decay = match parse_bits(fields[5].as_slice()) {
        Some(b) => b,
        None => {
            return None;
        },
    };
    Some(
        (
            k,
            PulseInfoS {
                Base: base,
                PeakAverage: pavg,
                PeakIndex: pidx,
                RiseTime: rise,
                DecayTime: decay,
            },
        ),
    )
}

/// Parses a whole CSV document into a table: the first line is the header,
/// every further line one row; the first malformed row fails the document.
pub fn ParseTable(data: &[u8]) -> (r: Result<PulseInfoTable, TESErr>)
    ensures
        r is Ok <==> parse_table_spec(data@) is Ok,
        r matches Ok(t) ==> Ok::<_, TESErr>(t@) == parse_table_spec(data@) && table_wf(t@),
        r is Err ==> r->Err_0 == TESErr::FormatError,
{
    let lines = split_bytes(data, 10);
    let mut end = lines.len();
    if end > 0 && lines[end - 1].len() == 0 {
        end = end - 1;
    }
    let ghost ls = split_spec(data@, 10);
    proof {
        let specend: int = if ls.len() > 0 && ls.last().len() == 0 {
            ls.len() - 1
        } else {
            ls.len() as int
        };
        if ls.len() > 0 {
            assert(lines@[ls.len() - 1]@ == ls.last());
        }
        assert(end as int == specend);
        assert(parse_table_spec(data@) == parse_rows(ls, 1, specend, Seq::empty()));
    }
    let mut table = PulseInfoTable::new();
    let mut i: usize = 1;
    if end <= 1 {
        proof {
            assert(parse_rows(ls, 1, end as int, Seq::empty()) == Ok::<
                Seq<(u32, PulseInfoS)>,
                TESErr,
            >(Seq::empty()));
        }
        return Ok(table);
    }
    while i < end
        invariant
            1 <= i <= end <= lines@.len(),
            lines@.len() == ls.len(),
            forall|j: int| 0 <= j < ls.len() ==> #[trigger] lines@[j]@ == ls[j],
            table_wf(table@),
            parse_table_spec(data@) == parse_rows(ls, 1, end as int, Seq::empty()),
            ls == split_spec(data@, 10),
            parse_rows(ls, 1, end as int, Seq::empty()) == parse_rows(
                ls,
                i as int,
                end as int,
                table@,
            ),
        decreases end - i,
    {
        match parse_row(&lines[i]) {
            None => {
                return Err(TESErr::FormatError);
            },
            Some(p) => {
                proof {
                    lemma_insert_pair_wf(table@, p.0, p.1);
                }
                table.insert(p.0, p.1);
            },
        }
        i = i + 1;
    }
    Ok(table)
}

/// The header line holds no line feed.
proof fn lemma_header_free()
    ensures
        free_of(header_spec(), 10),
{
    assert forall|i: int| 0 <= i < header_spec().len() implies #[trigger] header_spec()[i] != 10 by {
        assert(header_spec().len() == 49);
    }
}

/// Parsing one rendered row gives the key and features back, and the row
/// holds no line feed.
proof fn lemma_row_round_trip(k: u32, p: PulseInfoS)
    requires
        entry_fmt_ok(p),
        entry_no_nan(p),
    ensures
        parse_row_spec(render_row_spec(k, p)) == Some((k, p)),
        free_of(render_row_spec(k, p), 10),
{
    lemma_dec_spec_props(k as nat);
    lemma_dec_spec_props(p.PeakIndex as nat);
    lemma_parse_render_u32(k);
    lemma_parse_render_u32(p.PeakIndex);
    let fs = row_fields(k, p);
    assert(free_of(dec_spec(k as nat), 44) && free_of(dec_spec(k as nat), 10)) by {
        assert(forall|i: int|
            0 <= i < dec_spec(k as nat).len() ==> 48 <= #[trigger] dec_spec(k as nat)[i] <= 57);
    }
    assert(free_of(dec_spec(p.PeakIndex as nat), 44) && free_of(dec_spec(p.PeakIndex as nat), 10))
        by {
        assert(forall|i: int|
            0 <= i < dec_spec(p.PeakIndex as nat).len() ==> 48 <= #[trigger] dec_spec(
                p.PeakIndex as nat,
            )[i] <= 57);
    }
    assert forall|i: int| 0 <= i < fs.len() implies free_of(#[trigger] fs[i], 44) by {
        if i == 0 {
            assert(fs[i] == dec_spec(k as nat));
        } else if i == 1 {
            assert(fs[i] == fp_fmt(p.Base));
        } else if i == 2 {
            assert(fs[i] == fp_fmt(p.PeakAverage));
        } else if i == 3 {
            assert(fs[i] == dec_spec(p.PeakIndex as nat));
        } else if i == 4 {
            assert(fs[i] == fp_fmt(p.RiseTime));
        } else {
            assert(fs[i] == fp_fmt(p.DecayTime));
        }
    }
    assert forall|i: int| 0 <= i < fs.len() implies free_of(#[trigger] fs[i], 10) by {
        if i == 0 {
            assert(fs[i] == dec_spec(k as nat));
        } else if i == 1 {
            assert(fs[i] == fp_fmt(p.Base));
        } else if i == 2 {
            assert(fs[i] == fp_fmt(p.PeakAverage));
        } else if i == 3 {
            assert(fs[i] == dec_spec(p.PeakIndex as nat));
        } else if i == 4 {
            assert(fs[i] == fp_fmt(p.RiseTime));
        } else {
            assert(fs[i] == fp_fmt(p.DecayTime));
        }
    }
    lemma_split_fields(fs, 44);
    lemma_fields_join_free(fs, 44, 10);
    let gs = split_spec(render_row_spec(k, p), 44);
    assert(gs.len() == 6);
    assert(gs[0] == dec_spec(k as nat));
    assert(gs[1] == fp_fmt(p.Base));
    assert(gs[2] == fp_fmt(p.PeakAverage));
    assert(gs[3] == dec_spec(p.PeakIndex as nat));
    assert(gs[4] == fp_fmt(p.RiseTime));
    assert(gs[5] == fp_fmt(p.DecayTime));
    assert(parse_row_spec(render_row_spec(k, p)) matches Some(q) && q == (k, p)) by {
        assert(parse_u32_spec(gs[0]) == Some(k));
        assert(fp_parse(gs[1]) == Some(p.Base));
        assert(fp_parse(gs[2]) == Some(p.PeakAverage));
        assert(parse_u32_spec(gs[3]) == Some(p.PeakIndex));
        assert(fp_parse(gs[4]) == Some(p.RiseTime));
        assert(fp_parse(gs[5]) == Some(p.DecayTime));
    }
}

/// Folding the rendered rows back in rebuilds exactly the entries.
proof fn lemma_round_trip_rows(
    ls: Seq<Seq<u8>>,
    t: Seq<(u32, PulseInfoS)>,
    i: int,
    acc: Seq<(u32, PulseInfoS)>,
    end: int,
)
    requires
        table_wf(t),
        forall|j: int| 0 <= j < t.len() ==> entry_fmt_ok((#[trigger] t[j]).1) && entry_no_nan(
            t[j].1,
        ),
        end == 1 + t.len(),
        ls.len() >= end,
        forall|j: int| 0 <= j < t.len() ==> #[trigger] ls[1 + j] == render_row_spec(
            t[j].0,
            t[j].1,
        ),
        0 <= i <= t.len(),
        acc == t.subrange(0, i),
    ensures
        parse_rows(ls, 1 + i, end, acc) == Ok::<Seq<(u32, PulseInfoS)>, TESErr>(t),
    decreases t.len() - i,
{
    if i == t.len() {
        assert(acc =~= t);
    } else {
        lemma_row_round_trip(t[i].0, t[i].1);
        assert(ls[1 + i] == render_row_spec(t[i].0, t[i].1));
        assert(parse_row_spec(ls[1 + i]) == Some((t[i].0, t[i].1)));
        lemma_key_index(acc, t[i].0);
        let ki = key_index(acc, t[i].0);
        if ki >= 0 {
            assert(acc[ki] == t[ki]);
            assert(t[ki].0 != t[i].0);
        }
        assert(ki == -1);
        assert((t[i].0, t[i].1) == t[i]);
        assert(insert_pair(acc, t[i].0, t[i].1) == acc.push(t[i]));
        assert(acc.push(t[i]) =~= t.subrange(0, i + 1));
        lemma_round_trip_rows(ls, t, i + 1, acc.push(t[i]), end);
    }
}

/// Round trip: re-parsing a rendered table yields exactly the same entries,
/// for any table with distinct keys whose features are NaN-free and carry
/// the formatter's guarantees (which rendering establishes for every entry).
pub proof fn lemma_csv_round_trip(t: Seq<(u32, PulseInfoS)>)
    requires
        table_wf(t),
        forall|j: int| 0 <= j < t.len() ==> entry_fmt_ok((#[trigger] t[j]).1) && entry_no_nan(
            t[j].1,
        ),
    ensures
        parse_table_spec(render_table_spec(t)) == Ok::<Seq<(u32, PulseInfoS)>, TESErr>(t),
{
    let lines = table_lines_spec(t);
    lemma_header_free();
    assert forall|i: int| 0 <= i < lines.len() implies free_of(#[trigger] lines[i], 10) by {
        if i == 0 {
            assert(lines[i] == header_spec());
        } else {
            assert(lines[i] == render_row_spec(t[i - 1].0, t[i - 1].1));
            lemma_row_round_trip(t[i - 1].0, t[i - 1].1);
        }
    }
    lemma_split_lines(lines, 10);
    let ls = split_spec(render_table_spec(t), 10);
    assert(ls =~= lines + seq![Seq::<u8>::empty()]);
    assert(ls.len() == 2 + t.len());
    assert(ls.last().len() == 0);
    assert forall|j: int| 0 <= j < t.len() implies #[trigger] ls[1 + j] == render_row_spec(
        t[j].0,
        t[j].1,
    ) by {
        assert(ls[1 + j] == lines[1 + j]);
        assert(lines[1 + j] == table_rows(t)[j]);
    }
    assert(Seq::<(u32, PulseInfoS)>::empty() =~= t.subrange(0, 0));
    lemma_round_trip_rows(ls, t, 0, Seq::empty(), 1 + t.len() as int);
}

} // verus!
