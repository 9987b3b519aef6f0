//! Decimal rendering and parsing of unsigned 32-bit integers, as bytes.
use vstd::prelude::*;

use vstd::arithmetic::div_mod::lemma_fundamental_div_mod;

verus! {

/// The decimal digits of `n`, most significant first.
pub open spec fn dec_spec(n: nat) -> Seq<u8>
    decreases n,
{
    if n < 10 {
        seq![(n + 48) as u8]
    } else {
        dec_spec(n / 10).push(((n % 10) + 48) as u8)
    }
}

/// Every byte is an ASCII digit.
pub open spec fn all_digits(s: Seq<u8>) -> bool {
    forall|i: int| 0 <= i < s.len() ==> 48 <= #[trigger] s[i] <= 57
}

/// The numeric value of a digit string, most significant first.
pub open spec fn dec_value(s: Seq<u8>) -> int
    decreases s.len(),
{
    if s.len() == 0 {
        0
    } else {
        10 * dec_value(s.drop_last()) + (s.last() - 48)
    }
}

/// A decimal rendering is nonempty, all digits, and evaluates back to `n`.
pub proof fn lemma_dec_spec_props(n: nat)
    ensures
        dec_spec(n).len() >= 1,
        all_digits(dec_spec(n)),
        dec_value(dec_spec(n)) == n,
    decreases n,
{
    if n < 10 {
        let s = dec_spec(n);
        assert(s.len() == 1);
        assert(s.last() == (n + 48) as u8);
        assert(dec_value(s.drop_last()) == 0);
        assert(dec_value(s) == 10 * dec_value(s.drop_last()) + (s.last() - 48));
    } else {
        lemma_dec_spec_props(n / 10);
        lemma_fundamental_div_mod(n as int, 10);
        let p = dec_spec(n / 10);
        let s = p.push(((n % 10) + 48) as u8);
        assert(s.drop_last() =~= p);
        assert(dec_value(s) == 10 * dec_value(p) + (n % 10));
        assert forall|i: int| 0 <= i < s.len() implies 48 <= #[trigger] s[i] <= 57 by {
            if i < p.len() {
                assert(48 <= p[i] <= 57);
            }
        }
    }
}

/// `None` unless the text is one or more digits whose value fits in `u32`.
pub open spec fn parse_u32_spec(s: Seq<u8>) -> Option<u32> {
    if s.len() >= 1 && all_digits(s) && dec_value(s) <= u32::MAX {
        Some(dec_value(s) as u32)
    } else {
        None
    }
}

/// The value of a digit string never shrinks as digits are appended.
proof fn lemma_dec_value_prefix_le(s: Seq<u8>, i: int)
    requires
        0 <= i <= s.len(),
        all_digits(s),
        dec_value(s.subrange(0, i)) >= 0,
    ensures
        dec_value(s.subrange(0, i)) <= dec_value(s),
    decreases s.len() - i,
{
    if i == s.len() {
        assert(s.subrange(0, i) =~= s);
    } else {
        let p = s.subrange(0, i);
        let q = s.subrange(0, i + 1);
        assert(q.drop_last() =~= p);
        assert(48 <= s[i] <= 57);
        assert(q.last() == s[i]);
        assert(dec_value(q) == 10 * dec_value(p) + (s[i] - 48));
        assert(dec_value(q) >= dec_value(p));
        lemma_dec_value_prefix_le(s, i + 1);
    }
}

/// Digit values are never negative.
proof fn lemma_dec_value_nonneg(s: Seq<u8>)
    requires
        all_digits(s),
    ensures
        dec_value(s) >= 0,
    decreases s.len(),
{
    if s.len() > 0 {
        assert forall|i: int| 0 <= i < s.drop_last().len()
            implies 48 <= #[trigger] s.drop_last()[i] <= 57 by {
            assert(48 <= s[i] <= 57);
        }
        lemma_dec_value_nonneg(s.drop_last());
    }
}

/// Parsing inverts rendering for every `u32`.
pub proof fn lemma_parse_render_u32(n: u32)
    ensures
        parse_u32_spec(dec_spec(n as nat)) == Some(n),
{
    lemma_dec_spec_props(n as nat);
}

/// The decimal digits of `n`.
pub fn render_u32(n: u32) -> (r: Vec<u8>)
    ensures
        r@ == dec_spec(n as nat),
    decreases n,
{
    if n < 10 {
        let mut v: Vec<u8> = Vec::new();
        v.push((n as u8) + 48);
        proof {
            assert(v@ =~= dec_spec(n as nat));
        }
        v
    } else {
        let mut v = render_u32(n / 10);
        v.push(((n % 10) as u8) + 48);
        proof {
            assert(v@ =~= dec_spec(n as nat));
        }
        v
    }
}

/// Parses one or more decimal digits into a `u32`, `None` on anything else
/// or on overflow.
pub fn parse_u32_bytes(s: &[u8]) -> (r: Option<u32>)
    ensures
        r == parse_u32_spec(s@),
{
    if s.len() == 0 {
        return None;
    }
    let mut acc: u64 = 0;
    let mut i: usize = 0;
    while i < s.len()
        invariant
            0 <= i <= s@.len(),
            s@.len() >= 1,
            all_digits(s@.subrange(0, i as int)),
            acc == dec_value(s@.subrange(0, i as int)),
            acc <= u32::MAX,
        decreases s@.len() - i,
    {
        let d = s[i];
        if d < 48 || d > 57 {
            assert(!all_digits(s@));
            return None;
        }
        proof {
            assert(s@.subrange(0, i + 1).drop_last() =~= s@.subrange(0, i as int));
        }
        acc = acc * 10 + ((d - 48) as u64);
        i = i + 1;
        if acc > u32::MAX as u64 {
            proof {
                if all_digits(s@) {
                    lemma_dec_value_nonneg(s@.subrange(0, i as int));
                    lemma_dec_value_prefix_le(s@, i as int);
                }
            }
            return None;
        }
    }
    proof {
        assert(s@.subrange(0, i as int) =~= s@);
    }
    Some(acc as u32)
}

} // verus!
