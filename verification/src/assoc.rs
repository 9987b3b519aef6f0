//! Small association lists keyed by channel number.
use vstd::prelude::*;

use vstd::pervasive::VecAdditionalExecFns;

verus! {

/// The position of key `k`, `-1` when absent.
pub open spec fn assoc_index<T>(s: Seq<(u32, T)>, k: u32) -> int
    decreases s.len(),
{
    if s.len() == 0 {
        -1
    } else if s[0].0 == k {
        0
    } else {
        let r = assoc_index(s.skip(1), k);
        if r < 0 {
            -1
        } else {
            r + 1
        }
    }
}

/// `assoc_index` finds the first entry with the key, or reports absence.
pub proof fn lemma_assoc_index<T>(s: Seq<(u32, T)>, k: u32)
    ensures
        -1 <= assoc_index(s, k) < s.len(),
        assoc_index(s, k) >= 0 ==> s[assoc_index(s, k)].0 == k,
        assoc_index(s, k) >= 0 ==> forall|j: int| 0 <= j < assoc_index(s, k) ==> (#[trigger] s[j]).0
            != k,
        assoc_index(s, k) == -1 ==> forall|j: int| 0 <= j < s.len() ==> (#[trigger] s[j]).0 != k,
    decreases s.len(),
{
    if s.len() == 0 {
    } else if s[0].0 == k {
    } else {
        lemma_assoc_index(s.skip(1), k);
        let r = assoc_index(s.skip(1), k);
        if r >= 0 {
            assert forall|j: int| 0 <= j < r + 1 implies (#[trigger] s[j]).0 != k by {
                if j > 0 {
                    assert(s.skip(1)[j - 1] == s[j]);
                    assert(s.skip(1)[j - 1].0 != k);
                }
            }
        } else {
            assert forall|j: int| 0 <= j < s.len() implies (#[trigger] s[j]).0 != k by {
                if j > 0 {
                    assert(s.skip(1)[j - 1] == s[j]);
                    assert(s.skip(1)[j - 1].0 != k);
                }
            }
        }
    }
}

/// The entries after storing `(k, v)`: the first entry keyed `k` is
/// replaced, or the pair is appended.
pub open spec fn assoc_set<T>(s: Seq<(u32, T)>, k: u32, v: T) -> Seq<(u32, T)> {
    if assoc_index(s, k) >= 0 {
        s.update(assoc_index(s, k), (k, v))
    } else {
        s.push((k, v))
    }
}

/// After storing `(k, v)`, the key is present and holds `v`.
pub proof fn lemma_assoc_set_result<T>(s: Seq<(u32, T)>, k: u32, v: T)
    ensures
        assoc_index(assoc_set(s, k, v), k) >= 0,
        assoc_set(s, k, v)[assoc_index(assoc_set(s, k, v), k)] == (k, v),
{
    lemma_assoc_index(s, k);
    let t = assoc_set(s, k, v);
    lemma_assoc_index(t, k);
    let ki = assoc_index(s, k);
    let ti = assoc_index(t, k);
    if ki >= 0 {
        assert(t[ki].0 == k);
        if ti == -1 {
            assert(t[ki].0 != k);
        }
        if ti < ki {
            assert(t[ti] == s[ti]);
            assert(s[ti].0 != k);
        }
        if ti > ki {
            assert(t[ki].0 != k);
        }
        assert(ti == ki);
    } else {
        assert(t[s.len() as int].0 == k);
        if ti == -1 {
            assert(t[s.len() as int].0 != k);
        }
        if ti < s.len() {
            assert(t[ti] == s[ti]);
            assert(s[ti].0 != k);
        }
        assert(ti == s.len());
    }
}

/// Stores a value under a key, replacing any previous entry.
pub fn assoc_put<T>(v: &mut Vec<(u32, T)>, k: u32, value: T)
    ensures
        final(v)@ == assoc_set(old(v)@, k, value),
{
    proof {
        lemma_assoc_index(old(v)@, k);
    }
    let ghost s = v@;
    let mut i: usize = 0;
    while i < v.len()
        invariant
            v@ == s,
            s == old(v)@,
            0 <= i <= s.len(),
            forall|j: int| 0 <= j < i ==> (#[trigger] s[j]).0 != k,
        decreases s.len() - i,
    {
        if v[i].0 == k {
            proof {
                lemma_assoc_index(s, k);
                let ki = assoc_index(s, k);
                if ki == -1 {
                    assert(s[i as int].0 != k);
                } else if ki < i {
                    assert(s[ki].0 != k);
                } else if ki > i {
                    assert(s[i as int].0 != k);
                }
                assert(assoc_index(s, k) == i as int);
            }
            v.set(i, (k, value));
            return ;
        }
        i = i + 1;
    }
    proof {
        lemma_assoc_index(s, k);
        let ki = assoc_index(s, k);
        if ki >= 0 {
            assert(s[ki].0 != k);
        }
    }
    v.push((k, value));
}

/// Borrows the value stored under a key, if any.
pub fn assoc_get<'a, T>(v: &'a Vec<(u32, T)>, k: u32) -> (r: Option<&'a T>)
    ensures
        r is Some <==> assoc_index(v@, k) >= 0,
        r matches Some(t) ==> assoc_index(v@, k) >= 0 && *t == v@[assoc_index(v@, k)].1,
{
    proof {
        lemma_assoc_index(v@, k);
    }
    let mut i: usize = 0;
    while i < v.len()
        invariant
            0 <= i <= v@.len(),
            forall|j: int| 0 <= j < i ==> (#[trigger] v@[j]).0 != k,
            -1 <= assoc_index(v@, k) < v@.len(),
            assoc_index(v@, k) >= 0 ==> v@[assoc_index(v@, k)].0 == k,
            assoc_index(v@, k) >= 0 ==> forall|j: int|
                0 <= j < assoc_index(v@, k) ==> (#[trigger] v@[j]).0 != k,
            assoc_index(v@, k) == -1 ==> forall|j: int|
                0 <= j < v@.len() ==> (#[trigger] v@[j]).0 != k,
        decreases v@.len() - i,
    {
        if v[i].0 == k {
            proof {
                let ki = assoc_index(v@, k);
                if ki == -1 {
                    assert(v@[i as int].0 != k);
                } else if ki < i {
                    assert(v@[ki].0 != k);
                } else if ki > i {
                    assert(v@[i as int].0 != k);
                }
            }
            return Some(&v[i].1);
        }
        i = i + 1;
    }
    proof {
        let ki = assoc_index(v@, k);
        if ki >= 0 {
            assert(v@[ki].0 != k);
        }
    }
    None
}

} // verus!
