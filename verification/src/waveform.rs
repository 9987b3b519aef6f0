//! Decoding one binary pulse capture into samples.
//!
//! A capture file is a 4-byte instrument header followed by little-endian
//! binary64 samples. The header is skipped; a byte count that is not a whole
//! number of samples is a format error; a short-but-valid file simply gives a
//! short waveform, whose adequacy the feature extractor judges later.
use vstd::prelude::*;

use crate::errors::TESErr;
use vstd::bytes::{spec_u64_from_le_bytes, u64_from_le_bytes};
use vstd::slice::slice_subrange;

verus! {

/// How many samples a capture of this many bytes holds.
pub open spec fn sample_count(bytes: Seq<u8>) -> int {
    if bytes.len() >= 4 {
        (bytes.len() - 4) / 8
    } else {
        0
    }
}

/// The body after the header is a whole number of 8-byte samples. A file
/// shorter than its header decodes to an empty waveform.
pub open spec fn capture_well_formed(bytes: Seq<u8>) -> bool {
    bytes.len() >= 4 ==> (bytes.len() - 4) % 8 == 0
}

/// The `k`-th sample: the 8 little-endian bytes after the header.
pub open spec fn capture_sample(bytes: Seq<u8>, k: int) -> u64 {
    spec_u64_from_le_bytes(bytes.subrange(4 + 8 * k, 12 + 8 * k))
}

/// All samples of a capture, in file order.
pub open spec fn decode_spec(bytes: Seq<u8>) -> Seq<u64> {
    Seq::new(sample_count(bytes) as nat, |k: int| capture_sample(bytes, k))
}

/// Decodes one capture: skips the 4-byte header and reinterprets the rest as
/// little-endian binary64 bit patterns, in file order.
pub fn DecodeWaveform(bytes: &[u8]) -> (r: Result<Vec<u64>, TESErr>)
    ensures
        r is Ok <==> capture_well_formed(bytes@),
        r is Ok ==> r->Ok_0@ == decode_spec(bytes@),
        r is Err ==> r->Err_0 == TESErr::FormatError,
{
    if bytes.len() < 4 {
        let v: Vec<u64> = Vec::new();
        proof {
            assert(v@ =~= decode_spec(bytes@));
        }
        return Ok(v);
    }
    let body = bytes.len() - 4;
    if body % 8 != 0 {
        return Err(TESErr::FormatError);
    }
    let n = body / 8;
    proof {
        vstd::arithmetic::div_mod::lemma_fundamental_div_mod(body as int, 8);
    }
    let mut out: Vec<u64> = Vec::new();
    let mut k: usize = 0;
    while k < n
        invariant
            n == sample_count(bytes@),
            bytes@.len() == 4 + 8 * n,
            8 * n + 4 <= usize::MAX,
            0 <= k <= n,
            out@.len() == k,
            forall|j: int| 0 <= j < k ==> out@[j] == capture_sample(bytes@, j),
        decreases n - k,
    {
        let piece = slice_subrange(bytes, 4 + 8 * k, 12 + 8 * k);
        let x = u64_from_le_bytes(piece);
        out.push(x);
        k = k + 1;
    }
    proof {
        assert(out@ =~= decode_spec(bytes@));
    }
    Ok(out)
}

} // verus!
