//! The per-tab processor registry and folder classification.
//!
//! Each GUI tab owns one processor, looked up by tab name in an explicit
//! registry that the caller creates and owns. The IV and RT analyses are
//! outside collaborators; their variants here carry only the folder handle,
//! while the pulse variant carries the whole verified session.
use vstd::prelude::*;

use crate::data_processor::DataProcessorS;
use crate::processor::PulseProcessorS;

verus! {

/// The processor behind one tab.
pub enum TabProcessor {
    /// A bias-sweep tab; its analysis is an outside collaborator.
    IV(DataProcessorS),
    /// A resistance-temperature tab; its analysis is an outside collaborator.
    RT(DataProcessorS),
    /// A pulse tab, with the verified analysis session.
    Pulse(PulseProcessorS),
}

/// The folder a tab's processor is pointed at.
pub open spec fn tab_path(t: TabProcessor) -> Seq<char> {
    match t {
        TabProcessor::IV(p) => p.DataPath@,
        TabProcessor::RT(p) => p.DataPath@,
        TabProcessor::Pulse(p) => p.DP.DataPath@,
    }
}

/// Both processors are of the same kind.
pub open spec fn tab_kind_same(a: TabProcessor, b: TabProcessor) -> bool {
    &&& (a is IV <==> b is IV)
    &&& (a is RT <==> b is RT)
    &&& (a is Pulse <==> b is Pulse)
}

impl TabProcessor {
    /// Points the tab's processor at a folder.
    pub fn SetDataPath(&mut self, path: String) -> (r: Result<(), String>)
        ensures
            r is Ok,
            tab_path(*final(self)) == path@,
            tab_kind_same(*old(self), *final(self)),
    {
        match self {
            TabProcessor::IV(p) => {
                p.SetDataPath(path);
                Ok(())
            },
            TabProcessor::RT(p) => {
                p.SetDataPath(path);
                Ok(())
            },
            TabProcessor::Pulse(p) => {
                p.SetDataPath(path);
                Ok(())
            },
        }
    }
}

/// The position of the tab name, `-1` when absent.
pub open spec fn reg_index(s: Seq<(String, TabProcessor)>, k: Seq<char>) -> int
    decreases s.len(),
{
    if s.len() == 0 {
        -1
    } else if s[0].0@ == k {
        0
    } else {
        let r = reg_index(s.skip(1), k);
        if r < 0 {
            -1
        } else {
            r + 1
        }
    }
}

/// `reg_index` finds the first entry with the name, or reports absence.
pub proof fn lemma_reg_index(s: Seq<(String, TabProcessor)>, k: Seq<char>)
    ensures
        -1 <= reg_index(s, k) < s.len(),
        reg_index(s, k) >= 0 ==> s[reg_index(s, k)].0@ == k,
        reg_index(s, k) >= 0 ==> forall|j: int| 0 <= j < reg_index(s, k) ==> (#[trigger] s[j]).0@
            != k,
        reg_index(s, k) == -1 ==> forall|j: int| 0 <= j < s.len() ==> (#[trigger] s[j]).0@ != k,
    decreases s.len(),
{
    if s.len() == 0 {
    } else if s[0].0@ == k {
    } else {
        lemma_reg_index(s.skip(1), k);
        let r = reg_index(s.skip(1), k);
        if r >= 0 {
            assert forall|j: int| 0 <= j < r + 1 implies (#[trigger] s[j]).0@ != k by {
                if j > 0 {
                    assert(s.skip(1)[j - 1] == s[j]);
                    assert(s.skip(1)[j - 1].0@ != k);
                }
            }
        } else {
            assert forall|j: int| 0 <= j < s.len() implies (#[trigger] s[j]).0@ != k by {
                if j > 0 {
                    assert(s.skip(1)[j - 1] == s[j]);
                    assert(s.skip(1)[j - 1].0@ != k);
                }
            }
        }
    }
}

/// The tab registry: each tab name owns one processor. The caller creates
/// and owns it; there is no hidden process-wide state.
pub struct TabRegistry {
    entries: Vec<(String, TabProcessor)>,
}

impl View for TabRegistry {
    type V = Seq<(String, TabProcessor)>;

    closed spec fn view(&self) -> Seq<(String, TabProcessor)> {
        self.entries@
    }
}

impl TabRegistry {
    /// An empty registry.
    pub fn new() -> (r: Self)
        ensures
            r@ =~= Seq::<(String, TabProcessor)>::empty(),
    {
        Self { entries: Vec::new() }
    }

    /// How many tabs are registered.
    pub fn len(&self) -> (r: usize)
        ensures
            r == self@.len(),
    {
        self.entries.len()
    }

    /// The position of a tab name, if registered.
    fn find(&self, TabName: &String) -> (r: Option<usize>)
        ensures
            r is Some <==> reg_index(self@, TabName@) >= 0,
            r matches Some(i) ==> i == reg_index(self@, TabName@) && i < self@.len()
                && self@[i as int].0@ == TabName@,
    {
        proof {
            lemma_reg_index(self@, TabName@);
        }
        let mut i: usize = 0;
        while i < self.entries.len()
            invariant
                0 <= i <= self@.len(),
                forall|j: int| 0 <= j < i ==> (#[trigger] self@[j]).0@ != TabName@,
                -1 <= reg_index(self@, TabName@) < self@.len(),
                reg_index(self@, TabName@) >= 0 ==> self@[reg_index(self@, TabName@)].0@
                    == TabName@,
                reg_index(self@, TabName@) >= 0 ==> forall|j: int|
                    0 <= j < reg_index(self@, TabName@) ==> (#[trigger] self@[j]).0@ != TabName@,
                reg_index(self@, TabName@) == -1 ==> forall|j: int|
                    0 <= j < self@.len() ==> (#[trigger] self@[j]).0@ != TabName@,
            decreases self@.len() - i,
        {
            if self.entries[i].0 == *TabName {
                proof {
                    let ki = reg_index(self@, TabName@);
                    if ki == -1 {
                        assert(self@[i as int].0@ != TabName@);
                    } else if ki < i {
                        assert(self@[ki].0@ != TabName@);
                    } else if ki > i {
                        assert(self@[i as int].0@ != TabName@);
                    }
                }
                return Some(i);
            }
            i = i + 1;
        }
        proof {
            let ki = reg_index(self@, TabName@);
            if ki >= 0 {
                assert(self@[ki].0@ != TabName@);
            }
        }
        None
    }
}

/// Registers a new tab with a processor of the named kind (`IV`, `RT` or
/// `Pulse`); a taken name or an unknown kind is rejected.
pub fn RegisterProcessor(Reg: &mut TabRegistry, TabName: String, ProcessorType: String) -> (r:
    Result<(), String>)
    ensures
        r is Ok <==> (reg_index(old(Reg)@, TabName@) == -1 && (ProcessorType@ == "IV"@
            || ProcessorType@ == "RT"@ || ProcessorType@ == "Pulse"@)),
        r is Err ==> final(Reg)@ == old(Reg)@,
        r is Ok ==> final(Reg)@.len() == old(Reg)@.len() + 1 && final(Reg)@.subrange(
            0,
            old(Reg)@.len() as int,
        ) == old(Reg)@ && final(Reg)@.last().0@ == TabName@ && (final(Reg)@.last().1 is IV
            <==> ProcessorType@ == "IV"@) && (final(Reg)@.last().1 is RT <==> ProcessorType@
            == "RT"@) && (final(Reg)@.last().1 is Pulse <==> ProcessorType@ == "Pulse"@),
{
    proof {
        broadcast use vstd::string::group_string_axioms;

        reveal_strlit("IV");
        reveal_strlit("RT");
        reveal_strlit("Pulse");
        assert("IV"@.len() == 2 && "RT"@.len() == 2 && "Pulse"@.len() == 5);
        assert("IV"@[0] == 'I' && "RT"@[0] == 'R');
        assert("IV"@ != "RT"@);
        assert("IV"@ != "Pulse"@);
        assert("RT"@ != "Pulse"@);
    }
    if Reg.find(&TabName).is_some() {
        return Err("Tab already registered".to_owned());
    }
    let processor = if ProcessorType == "IV".to_owned() {
        TabProcessor::IV(DataProcessorS::new())
    } else if ProcessorType == "RT".to_owned() {
        TabProcessor::RT(DataProcessorS::new())
    } else if ProcessorType == "Pulse".to_owned() {
        TabProcessor::Pulse(PulseProcessorS::new())
    } else {
        return Err("Unknown processor type".to_owned());
    };
    let pair = (TabName, processor);
    let ghost p0 = pair;
    Reg.entries.push(pair);
    proof {
        assert(Reg@ == old(Reg)@.push(p0));
        assert(Reg@.last() == p0);
        assert(Reg@.subrange(0, old(Reg)@.len() as int) =~= old(Reg)@);
    }
    Ok(())
}

/// Removes a tab and its processor; an unknown name is rejected.
pub fn UnregisterProcessor(Reg: &mut TabRegistry, TabName: String) -> (r: Result<(), String>)
    ensures
        r is Ok <==> reg_index(old(Reg)@, TabName@) >= 0,
        r is Ok ==> final(Reg)@ == old(Reg)@.remove(reg_index(old(Reg)@, TabName@)),
        r is Err ==> final(Reg)@ == old(Reg)@,
{
    match Reg.find(&TabName) {
        Some(i) => {
            Reg.entries.remove(i);
            Ok(())
        },
        None => Err("Tab not found".to_owned()),
    }
}

/// Points the named tab's processor at a folder.
pub fn SetDataPathCommand(Reg: &mut TabRegistry, TabName: String, path: String) -> (r: Result<
    (),
    String,
>)
    ensures
        r is Ok <==> reg_index(old(Reg)@, TabName@) >= 0,
        r is Err ==> final(Reg)@ == old(Reg)@,
        r is Ok ==> {
            let ki = reg_index(old(Reg)@, TabName@);
            &&& final(Reg)@.len() == old(Reg)@.len()
            &&& forall|j: int| 0 <= j < old(Reg)@.len() && j != ki ==> final(Reg)@[j] == old(
                Reg,
            )@[j]
            &&& final(Reg)@[ki].0 == old(Reg)@[ki].0
            &&& tab_path(final(Reg)@[ki].1) == path@
            &&& tab_kind_same(old(Reg)@[ki].1, final(Reg)@[ki].1)
        },
{
    let i = match Reg.find(&TabName) {
        Some(i) => i,
        None => {
            return Err("Tab not found".to_owned());
        },
    };
    let ghost s = Reg@;
    let (name, mut processor) = Reg.entries.remove(i);
    let res = processor.SetDataPath(path);
    let pair = (name, processor);
    let ghost gpair = pair;
    Reg.entries.insert(i, pair);
    proof {
        s.remove_ensures(i as int);
        s.remove(i as int).insert_ensures(i as int, gpair);
        assert(Reg@[i as int] == gpair);
        assert forall|j: int| 0 <= j < s.len() && j != i implies Reg@[j] == s[j] by {
            if j < i {
                assert(Reg@[j] == s.remove(i as int)[j]);
            } else {
                assert(Reg@[j] == s.remove(i as int)[j - 1]);
                assert(s.remove(i as int)[j - 1] == s[j]);
            }
        }
    }
    res
}

/// Dispatches a figure save: succeeds exactly on a registered IV tab, whose
/// calibration figure the caller then renders to the given path (plotting is
/// an outside collaborator).
pub fn SaveFigCommand(Reg: &TabRegistry, TabName: String, path: String) -> (r: Result<(), String>)
    ensures
        r is Ok <==> (reg_index(Reg@, TabName@) >= 0 && Reg@[reg_index(Reg@, TabName@)].1 is IV),
{
    let _ = path;
    match Reg.find(&TabName) {
        Some(i) => match &Reg.entries[i].1 {
            TabProcessor::IV(_) => Ok(()),
            _ => Err("Invalid tab or processor type".to_owned()),
        },
        None => Err("Invalid tab or processor type".to_owned()),
    }
}

} // verus!
