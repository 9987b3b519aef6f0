//! Parsing channel and capture names, and classifying data folders.
//!
//! A channel folder is `CH<number>_pulse`; a capture inside it is
//! `CH<digits>_<number>.dat`, the second number its pulse sequence; an IV
//! folder holds `<digits>mK` subfolders; an RT folder holds `rawdata`.
use vstd::prelude::*;

use crate::digits::{all_digits, parse_u32_bytes, parse_u32_spec};
use vstd::slice::slice_subrange;

verus! {

/// The bytes of `_pulse`.
pub open spec fn pulse_suffix() -> Seq<u8> {
    seq![95u8, 112u8, 117u8, 108u8, 115u8, 101u8]
}

/// The bytes of `.dat`.
pub open spec fn dat_suffix() -> Seq<u8> {
    seq![46u8, 100u8, 97u8, 116u8]
}

/// `<digits>mK`, the digits possibly empty.
pub open spec fn is_iv_dir_name(s: Seq<u8>) -> bool {
    &&& s.len() >= 2
    &&& s[s.len() - 2] == 109
    &&& s[s.len() - 1] == 75
    &&& all_digits(s.subrange(0, s.len() - 2))
}

/// `CH<digits>_pulse`, the digits possibly empty.
pub open spec fn is_pulse_dir_name(s: Seq<u8>) -> bool {
    &&& s.len() >= 8
    &&& s[0] == 67
    &&& s[1] == 72
    &&& s.subrange(s.len() - 6, s.len() as int) == pulse_suffix()
    &&& all_digits(s.subrange(2, s.len() - 6))
}

/// The channel number of a `CH<number>_pulse` folder name.
pub open spec fn channel_of_dirname_spec(s: Seq<u8>) -> Option<u32> {
    if s.len() >= 8 && s[0] == 67 && s[1] == 72 && s.subrange(s.len() - 6, s.len() as int)
        == pulse_suffix() {
        parse_u32_spec(s.subrange(2, s.len() - 6))
    } else {
        None
    }
}

/// The first position at or after `i` that is not an ASCII digit.
pub open spec fn digits_end(s: Seq<u8>, i: int) -> int
    decreases s.len() - i,
{
    if i < 0 || i >= s.len() {
        i
    } else if 48 <= s[i] <= 57 {
        digits_end(s, i + 1)
    } else {
        i
    }
}

/// The pulse sequence number of a `CH<digits>_<number>.dat` capture name.
pub open spec fn pulse_number_spec(s: Seq<u8>) -> Option<u32> {
    if s.len() < 9 || s[0] != 67 || s[1] != 72 || s.subrange(s.len() - 4, s.len() as int)
        != dat_suffix() {
        None
    } else {
        let e = digits_end(s, 2);
        if e > 2 && e + 1 <= s.len() - 4 && s[e] == 95 {
            parse_u32_spec(s.subrange(e + 1, s.len() - 4))
        } else {
            None
        }
    }
}

/// Whether `s[lo..hi]` is all ASCII digits.
fn digits_range(s: &[u8], lo: usize, hi: usize) -> (r: bool)
    requires
        lo <= hi <= s@.len(),
    ensures
        r == all_digits(s@.subrange(lo as int, hi as int)),
{
    let mut i: usize = lo;
    while i < hi
        invariant
            lo <= i <= hi <= s@.len(),
            forall|j: int| lo <= j < i ==> 48 <= #[trigger] s@[j] <= 57,
        decreases hi - i,
    {
        let c = s[i];
        if c < 48 || c > 57 {
            assert(s@.subrange(lo as int, hi as int)[i - lo] == s@[i as int]);
            return false;
        }
        i = i + 1;
    }
    proof {
        assert forall|j: int| 0 <= j < hi - lo implies 48 <= #[trigger] s@.subrange(
            lo as int,
            hi as int,
        )[j] <= 57 by {
            assert(s@.subrange(lo as int, hi as int)[j] == s@[lo + j]);
        }
    }
    true
}

/// Decides `is_iv_dir_name`.
pub fn IsIVDirName(Name: &[u8]) -> (r: bool)
    ensures
        r == is_iv_dir_name(Name@),
{
    let n = Name.len();
    if n < 2 {
        return false;
    }
    if Name[n - 2] != 109 || Name[n - 1] != 75 {
        return false;
    }
    digits_range(Name, 0, n - 2)
}

/// Decides `is_pulse_dir_name`.
pub fn IsPulseDirName(Name: &[u8]) -> (r: bool)
    ensures
        r == is_pulse_dir_name(Name@),
{
    let n = Name.len();
    if n < 8 {
        return false;
    }
    if Name[0] != 67 || Name[1] != 72 {
        return false;
    }
    if Name[n - 6] != 95 || Name[n - 5] != 112 || Name[n - 4] != 117 || Name[n - 3] != 108
        || Name[n - 2] != 115 || Name[n - 1] != 101 {
        proof {
            assert(Name@.subrange(n - 6, n as int)[0] == Name@[n - 6]);
            assert(Name@.subrange(n - 6, n as int)[1] == Name@[n - 5]);
            assert(Name@.subrange(n - 6, n as int)[2] == Name@[n - 4]);
            assert(Name@.subrange(n - 6, n as int)[3] == Name@[n - 3]);
            assert(Name@.subrange(n - 6, n as int)[4] == Name@[n - 2]);
            assert(Name@.subrange(n - 6, n as int)[5] == Name@[n - 1]);
        }
        return false;
    }
    proof {
        assert(Name@.subrange(n - 6, n as int) =~= pulse_suffix());
    }
    digits_range(Name, 2, n - 6)
}

/// The channel number of a `CH<number>_pulse` folder name, if it is one.
pub fn ChannelOfDirName(Name: &[u8]) -> (r: Option<u32>)
    ensures
        r == channel_of_dirname_spec(Name@),
{
    let n = Name.len();
    if n < 8 {
        return None;
    }
    if Name[0] != 67 || Name[1] != 72 {
        return None;
    }
    if Name[n - 6] != 95 || Name[n - 5] != 112 || Name[n - 4] != 117 || Name[n - 3] != 108
        || Name[n - 2] != 115 || Name[n - 1] != 101 {
        proof {
            assert(Name@.subrange(n - 6, n as int)[0] == Name@[n - 6]);
            assert(Name@.subrange(n - 6, n as int)[1] == Name@[n - 5]);
            assert(Name@.subrange(n - 6, n as int)[2] == Name@[n - 4]);
            assert(Name@.subrange(n - 6, n as int)[3] == Name@[n - 3]);
            assert(Name@.subrange(n - 6, n as int)[4] == Name@[n - 2]);
            assert(Name@.subrange(n - 6, n as int)[5] == Name@[n - 1]);
        }
        return None;
    }
    proof {
        assert(Name@.subrange(n - 6, n as int) =~= pulse_suffix());
    }
    parse_u32_bytes(slice_subrange(Name, 2, n - 6))
}

/// The pulse sequence number of a `CH<digits>_<number>.dat` capture name,
/// if it is one.
pub fn PulseNumberOfFileName(Name: &[u8]) -> (r: Option<u32>)
    ensures
        r == pulse_number_spec(Name@),
{
    let n = Name.len();
    if n < 9 {
        return None;
    }
    if Name[0] != 67 || Name[1] != 72 {
        return None;
    }
    if Name[n - 4] != 46 || Name[n - 3] != 100 || Name[n - 2] != 97 || Name[n - 1] != 116 {
        proof {
            assert(Name@.subrange(n - 4, n as int)[0] == Name@[n - 4]);
            assert(Name@.subrange(n - 4, n as int)[1] == Name@[n - 3]);
            assert(Name@.subrange(n - 4, n as int)[2] == Name@[n - 2]);
            assert(Name@.subrange(n - 4, n as int)[3] == Name@[n - 1]);
        }
        return None;
    }
    proof {
        assert(Name@.subrange(n - 4, n as int) =~= dat_suffix());
    }
    let mut i: usize = 2;
    while i < n && 48 <= Name[i] && Name[i] <= 57
        invariant
            2 <= i <= n,
            n == Name@.len(),
            digits_end(Name@, 2) == digits_end(Name@, i as int),
        decreases n - i,
    {
        i = i + 1;
    }
    assert(digits_end(Name@, 2) == i as int);
    if i == 2 {
        return None;
    }
    if i >= n - 4 {
        return None;
    }
    if Name[i] != 95 {
        return None;
    }
    parse_u32_bytes(slice_subrange(Name, i + 1, n - 4))
}

/// The folder kind the directory names show: IV when some subfolder is
/// `<digits>mK`, else RT when `rawdata` is present, else Pulse when some
/// subfolder is `CH<digits>_pulse`.
pub open spec fn folder_type_spec(names: Seq<Vec<u8>>, has_rawdata: bool) -> Option<Seq<char>> {
    if exists|i: int| 0 <= i < names.len() && is_iv_dir_name(#[trigger] names[i]@) {
        Some("IV"@)
    } else if has_rawdata {
        Some("RT"@)
    } else if exists|i: int| 0 <= i < names.len() && is_pulse_dir_name(#[trigger] names[i]@) {
        Some("Pulse"@)
    } else {
        None
    }
}

/// Classifies a data folder by its subfolder names; `None` when it looks
/// like none of the three kinds.
pub fn FindFolderType(DirNames: &Vec<Vec<u8>>, HasRawdata: bool) -> (r: Option<String>)
    ensures
        r is Some <==> folder_type_spec(DirNames@, HasRawdata) is Some,
        r matches Some(t) ==> Some(t@) == folder_type_spec(DirNames@, HasRawdata),
{
    let mut i: usize = 0;
    while i < DirNames.len()
        invariant
            0 <= i <= DirNames@.len(),
            forall|j: int| 0 <= j < i ==> !is_iv_dir_name(#[trigger] DirNames@[j]@),
        decreases DirNames@.len() - i,
    {
        if IsIVDirName(DirNames[i].as_slice()) {
            return Some("IV".to_owned());
        }
        i = i + 1;
    }
    if HasRawdata {
        return Some("RT".to_owned());
    }
    let mut k: usize = 0;
    while k < DirNames.len()
        invariant
            0 <= k <= DirNames@.len(),
            forall|j: int| 0 <= j < DirNames@.len() ==> !is_iv_dir_name(#[trigger] DirNames@[j]@),
            !HasRawdata,
            forall|j: int| 0 <= j < k ==> !is_pulse_dir_name(#[trigger] DirNames@[j]@),
        decreases DirNames@.len() - k,
    {
        if IsPulseDirName(DirNames[k].as_slice()) {
            return Some("Pulse".to_owned());
        }
        k = k + 1;
    }
    None
}

} // verus!
