//! Zero-phase low-pass filtering.
//!
//! One biquad section in direct form 1: each output is
//! `b0*x + b1*x1 + b2*x2 - a1*y1 - a2*y2`, folded left in that order over the
//! delayed inputs and outputs, exactly as a causal biquad filter computes it.
//! `filtfilt` runs the section forward, reverses, runs it again and reverses
//! back, which cancels the section's phase delay at twice the compute cost.
use vstd::prelude::*;

use crate::fbits::{fp_add, fp_mul, fp_sub, add_bits, mul_bits, sub_bits};

verus! {

/// One normalized low-pass biquad section, as binary64 bit patterns
/// (`a0` is one and is not stored). Designed once per run and shared
/// read-only by all workers.
#[derive(Clone, Copy, PartialEq, Eq, Structural, Debug)]
pub struct FilterCoefficients {
    /// Numerator tap on the current input.
    pub b0: u64,
    /// Numerator tap on the previous input.
    pub b1: u64,
    /// Numerator tap on the input before that.
    pub b2: u64,
    /// Denominator tap on the previous output.
    pub a1: u64,
    /// Denominator tap on the output before that.
    pub a2: u64,
}

/// The delay registers of a running section: the two previous inputs and the
/// two previous outputs, all zero before the first sample.
pub struct FilterState {
    /// Previous input.
    pub x1: u64,
    /// Input before the previous one.
    pub x2: u64,
    /// Previous output.
    pub y1: u64,
    /// Output before the previous one.
    pub y2: u64,
}

/// One direct-form-1 output, folded left:
/// `((((b0*x + b1*x1) + b2*x2) - a1*y1) - a2*y2)`.
pub open spec fn df1_out(c: FilterCoefficients, x1: u64, x2: u64, y1: u64, y2: u64, x: u64) -> u64 {
    fp_sub(
        fp_sub(
            fp_add(fp_add(fp_mul(c.b0, x), fp_mul(c.b1, x1)), fp_mul(c.b2, x2)),
            fp_mul(c.a1, y1),
        ),
        fp_mul(c.a2, y2),
    )
}

/// The section's output at position `n` of `s`, with zeroed registers before
/// the first sample.
pub open spec fn fwd_out(c: FilterCoefficients, s: Seq<u64>, n: int) -> u64
    decreases n + 1,
{
    df1_out(
        c,
        if n >= 1 {
            s[n - 1]
        } else {
            0
        },
        if n >= 2 {
            s[n - 2]
        } else {
            0
        },
        if n >= 1 {
            fwd_out(c, s, n - 1)
        } else {
            0
        },
        if n >= 2 {
            fwd_out(c, s, n - 2)
        } else {
            0
        },
        s[n],
    )
}

/// One causal pass of the section over the whole signal.
pub open spec fn forward_spec(c: FilterCoefficients, s: Seq<u64>) -> Seq<u64> {
    Seq::new(s.len(), |n: int| fwd_out(c, s, n))
}

/// Both passes: forward, reverse, forward, reverse.
pub open spec fn filtfilt_spec(c: FilterCoefficients, s: Seq<u64>) -> Seq<u64> {
    forward_spec(c, forward_spec(c, s).reverse()).reverse()
}

/// Runs one causal pass of the section over the signal.
fn forward_pass(c: &FilterCoefficients, s: &Vec<u64>) -> (r: Vec<u64>)
    ensures
        r@ == forward_spec(*c, s@),
{
    let mut out: Vec<u64> = Vec::new();
    let mut st = FilterState { x1: 0, x2: 0, y1: 0, y2: 0 };
    let mut n: usize = 0;
    while n < s.len()
        invariant
            0 <= n <= s@.len(),
            out@.len() == n,
            forall|j: int| 0 <= j < n ==> out@[j] == fwd_out(*c, s@, j),
            st.x1 == if n >= 1 { s@[n - 1] } else { 0u64 },
            st.x2 == if n >= 2 { s@[n - 2] } else { 0u64 },
            st.y1 == if n >= 1 { fwd_out(*c, s@, n - 1) } else { 0u64 },
            st.y2 == if n >= 2 { fwd_out(*c, s@, n - 2) } else { 0u64 },
        decreases s@.len() - n,
    {
        let x = s[n];
        let y = sub_bits(
            sub_bits(
                add_bits(add_bits(mul_bits(c.b0, x), mul_bits(c.b1, st.x1)), mul_bits(c.b2, st.x2)),
                mul_bits(c.a1, st.y1),
            ),
            mul_bits(c.a2, st.y2),
        );
        assert(y == fwd_out(*c, s@, n as int));
        out.push(y);
        st = FilterState { x1: x, x2: st.x1, y1: y, y2: st.y1 };
        n = n + 1;
    }
    proof {
        assert(out@ =~= forward_spec(*c, s@));
    }
    out
}

/// The signal backwards.
fn reverse_vec(s: &Vec<u64>) -> (r: Vec<u64>)
    ensures
        r@ == s@.reverse(),
{
    let mut out: Vec<u64> = Vec::new();
    let mut n: usize = s.len();
    while n > 0
        invariant
            0 <= n <= s@.len(),
            out@.len() == s@.len() - n,
            forall|j: int| 0 <= j < out@.len() ==> out@[j] == s@[s@.len() - 1 - j],
        decreases n,
    {
        n = n - 1;
        out.push(s[n]);
    }
    proof {
        assert(out@ =~= s@.reverse());
    }
    out
}

/// Applies the section forward and backward, cancelling its phase delay.
/// The result has exactly one output per input sample.
pub fn filtfilt(c: &FilterCoefficients, pulse: &Vec<u64>) -> (r: Vec<u64>)
    ensures
        r@ == filtfilt_spec(*c, pulse@),
        r@.len() == pulse@.len(),
{
    let fwd = forward_pass(c, pulse);
    let rev = reverse_vec(&fwd);
    let bwd = forward_pass(c, &rev);
    reverse_vec(&bwd)
}

} // verus!
