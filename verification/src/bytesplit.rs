//! Splitting byte text on a separator, and joining it back.
//!
//! `split_spec` is an accumulator recursion: bytes are gathered into the
//! current piece until a separator ends it. Joins come in two shapes: fields
//! with separators between them, and lines each ended by a separator. The
//! lemmas here invert each join, which carries the CSV round trip.
use vstd::prelude::*;

verus! {

/// The pieces of `s` split on `sep`, the bytes read so far in `cur`.
pub open spec fn split_acc(s: Seq<u8>, sep: u8, cur: Seq<u8>) -> Seq<Seq<u8>>
    decreases s.len(),
{
    if s.len() == 0 {
        seq![cur]
    } else if s[0] == sep {
        seq![cur] + split_acc(s.skip(1), sep, Seq::empty())
    } else {
        split_acc(s.skip(1), sep, cur.push(s[0]))
    }
}

/// The pieces of `s` split on `sep`; one more piece than separators.
pub open spec fn split_spec(s: Seq<u8>, sep: u8) -> Seq<Seq<u8>> {
    split_acc(s, sep, Seq::empty())
}

/// `b` occurs nowhere in `s`.
pub open spec fn free_of(s: Seq<u8>, b: u8) -> bool {
    forall|i: int| 0 <= i < s.len() ==> #[trigger] s[i] != b
}

/// Every piece is free of `b`.
pub open spec fn all_free_of(ps: Seq<Seq<u8>>, b: u8) -> bool {
    forall|i: int| 0 <= i < ps.len() ==> free_of(#[trigger] ps[i], b)
}

/// The pieces with `sep` between them.
pub open spec fn fields_join(ps: Seq<Seq<u8>>, sep: u8) -> Seq<u8>
    decreases ps.len(),
{
    if ps.len() == 0 {
        Seq::empty()
    } else if ps.len() == 1 {
        ps[0]
    } else {
        ps[0] + seq![sep] + fields_join(ps.skip(1), sep)
    }
}

/// The pieces, each ended by `sep`.
pub open spec fn lines_join(ps: Seq<Seq<u8>>, sep: u8) -> Seq<u8>
    decreases ps.len(),
{
    if ps.len() == 0 {
        Seq::empty()
    } else {
        ps[0] + seq![sep] + lines_join(ps.skip(1), sep)
    }
}

/// Splitting consumes a separator-free prefix into the current piece.
proof fn lemma_split_acc_consume(p: Seq<u8>, rest: Seq<u8>, sep: u8, cur: Seq<u8>)
    requires
        free_of(p, sep),
    ensures
        split_acc(p + rest, sep, cur) == split_acc(rest, sep, cur + p),
    decreases p.len(),
{
    if p.len() == 0 {
        assert(p + rest =~= rest);
        assert(cur + p =~= cur);
    } else {
        let s = p + rest;
        assert(s[0] == p[0]);
        assert(s[0] != sep);
        assert(s.skip(1) =~= p.skip(1) + rest);
        assert(free_of(p.skip(1), sep));
        lemma_split_acc_consume(p.skip(1), rest, sep, cur.push(p[0]));
        assert(cur.push(p[0]) + p.skip(1) =~= cur + p);
    }
}

/// Splitting inverts a field join: the pieces come back exactly.
proof fn lemma_split_fields_acc(ps: Seq<Seq<u8>>, sep: u8, cur: Seq<u8>)
    requires
        ps.len() >= 1,
        all_free_of(ps, sep),
    ensures
        split_acc(fields_join(ps, sep), sep, cur) =~= seq![cur + ps[0]] + ps.skip(1),
    decreases ps.len(),
{
    if ps.len() == 1 {
        assert(fields_join(ps, sep) == ps[0]);
        assert(free_of(ps[0], sep));
        lemma_split_acc_consume(ps[0], Seq::empty(), sep, cur);
        assert(ps[0] + Seq::<u8>::empty() =~= ps[0]);
        assert(split_acc(Seq::empty(), sep, cur + ps[0]) == seq![cur + ps[0]]);
        assert(seq![cur + ps[0]] + ps.skip(1) =~= seq![cur + ps[0]]);
    } else {
        let tail = seq![sep] + fields_join(ps.skip(1), sep);
        assert(fields_join(ps, sep) =~= ps[0] + tail);
        assert(free_of(ps[0], sep));
        lemma_split_acc_consume(ps[0], tail, sep, cur);
        assert(tail[0] == sep);
        assert(tail.skip(1) =~= fields_join(ps.skip(1), sep));
        assert(all_free_of(ps.skip(1), sep)) by {
            assert(forall|i: int|
                0 <= i < ps.skip(1).len() ==> ps.skip(1)[i] == ps[i + 1]);
        }
        lemma_split_fields_acc(ps.skip(1), sep, Seq::empty());
        assert(Seq::<u8>::empty() + ps.skip(1)[0] =~= ps.skip(1)[0]);
        assert(seq![cur + ps[0]] + (seq![ps.skip(1)[0]] + ps.skip(1).skip(1)) =~= seq![cur + ps[0]]
            + ps.skip(1));
    }
}

/// Splitting inverts a field join.
pub proof fn lemma_split_fields(ps: Seq<Seq<u8>>, sep: u8)
    requires
        ps.len() >= 1,
        all_free_of(ps, sep),
    ensures
        split_spec(fields_join(ps, sep), sep) =~= ps,
{
    lemma_split_fields_acc(ps, sep, Seq::empty());
    assert(Seq::<u8>::empty() + ps[0] =~= ps[0]);
    assert(seq![ps[0]] + ps.skip(1) =~= ps);
}

/// Splitting inverts a line join: the lines come back, then one empty piece.
pub proof fn lemma_split_lines(ps: Seq<Seq<u8>>, sep: u8)
    requires
        all_free_of(ps, sep),
    ensures
        split_spec(lines_join(ps, sep), sep) =~= ps + seq![Seq::<u8>::empty()],
    decreases ps.len(),
{
    if ps.len() == 0 {
        assert(split_spec(Seq::empty(), sep) == seq![Seq::<u8>::empty()]);
        assert(ps + seq![Seq::<u8>::empty()] =~= seq![Seq::<u8>::empty()]);
    } else {
        let tail = seq![sep] + lines_join(ps.skip(1), sep);
        assert(lines_join(ps, sep) =~= ps[0] + tail);
        lemma_split_acc_consume(ps[0], tail, sep, Seq::empty());
        assert(tail[0] == sep);
        assert(tail.skip(1) =~= lines_join(ps.skip(1), sep));
        assert(all_free_of(ps.skip(1), sep)) by {
            assert(forall|i: int|
                0 <= i < ps.skip(1).len() ==> ps.skip(1)[i] == ps[i + 1]);
        }
        lemma_split_lines(ps.skip(1), sep);
        assert(Seq::<u8>::empty() + ps[0] =~= ps[0]);
        assert(seq![ps[0]] + (ps.skip(1) + seq![Seq::<u8>::empty()]) =~= ps + seq![
            Seq::<u8>::empty(),
        ]);
    }
}

/// A field join of pieces free of some other byte is itself free of it.
pub proof fn lemma_fields_join_free(ps: Seq<Seq<u8>>, sep: u8, other: u8)
    requires
        sep != other,
        all_free_of(ps, other),
    ensures
        free_of(fields_join(ps, sep), other),
    decreases ps.len(),
{
    if ps.len() == 0 {
    } else if ps.len() == 1 {
        assert(free_of(ps[0], other));
    } else {
        assert(all_free_of(ps.skip(1), other)) by {
            assert(forall|i: int|
                0 <= i < ps.skip(1).len() ==> ps.skip(1)[i] == ps[i + 1]);
        }
        lemma_fields_join_free(ps.skip(1), sep, other);
        let j = fields_join(ps, sep);
        let t = fields_join(ps.skip(1), sep);
        assert(free_of(ps[0], other));
        assert forall|i: int| 0 <= i < j.len() implies #[trigger] j[i] != other by {
            if i < ps[0].len() {
                assert(j[i] == ps[0][i]);
            } else if i == ps[0].len() {
                assert(j[i] == sep);
            } else {
                assert(j[i] == t[i - ps[0].len() - 1]);
            }
        }
    }
}

/// The pieces of `s` split on `sep`.
pub fn split_bytes(s: &[u8], sep: u8) -> (r: Vec<Vec<u8>>)
    ensures
        r@.len() == split_spec(s@, sep).len(),
        forall|i: int| 0 <= i < r@.len() ==> #[trigger] r@[i]@ == split_spec(s@, sep)[i],
{
    let ghost full = split_spec(s@, sep);
    let mut out: Vec<Vec<u8>> = Vec::new();
    let mut cur: Vec<u8> = Vec::new();
    let mut i: usize = 0;
    proof {
        assert(s@.skip(0) =~= s@);
        assert(full.skip(0) =~= full);
    }
    while i < s.len()
        invariant
            0 <= i <= s@.len(),
            full == split_spec(s@, sep),
            split_acc(s@.skip(i as int), sep, cur@) =~= full.skip(out@.len() as int),
            out@.len() <= full.len(),
            forall|j: int| 0 <= j < out@.len() ==> #[trigger] out@[j]@ == full[j],
        decreases s@.len() - i,
    {
        let c = s[i];
        proof {
            assert(s@.skip(i as int)[0] == s@[i as int]);
            assert(s@.skip(i as int).skip(1) =~= s@.skip(i + 1));
        }
        if c == sep {
            proof {
                assert(split_acc(s@.skip(i as int), sep, cur@) == seq![cur@] + split_acc(
                    s@.skip(i + 1),
                    sep,
                    Seq::empty(),
                ));
                assert(full.skip(out@.len() as int)[0] == full[out@.len() as int]);
                assert(full[out@.len() as int] == cur@);
                assert(split_acc(s@.skip(i + 1), sep, Seq::empty()) =~= full.skip(
                    out@.len() as int + 1,
                )) by {
                    assert((seq![cur@] + split_acc(s@.skip(i + 1), sep, Seq::empty())).skip(1)
                        =~= split_acc(s@.skip(i + 1), sep, Seq::empty()));
                    assert(full.skip(out@.len() as int).skip(1) =~= full.skip(out@.len() as int + 1));
                }
            }
            out.push(cur);
            cur = Vec::new();
        } else {
            proof {
                assert(split_acc(s@.skip(i as int), sep, cur@) == split_acc(
                    s@.skip(i + 1),
                    sep,
                    cur@.push(c),
                ));
            }
            cur.push(c);
        }
        i = i + 1;
    }
    proof {
        assert(s@.skip(i as int) =~= Seq::<u8>::empty());
        assert(split_acc(Seq::empty(), sep, cur@) == seq![cur@]);
        assert(full.skip(out@.len() as int) =~= seq![cur@]);
        assert(full.len() == out@.len() + 1);
        assert(full[out@.len() as int] == full.skip(out@.len() as int)[0]);
    }
    out.push(cur);
    out
}

} // verus!
