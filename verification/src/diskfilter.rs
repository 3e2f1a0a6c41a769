//! The block-device inclusion filter.
//!
//! Per-partition I/O counters are reported only for physical block devices.
//! The rule: names shorter than 3 characters are rejected; names starting
//! with `nvme` or `mmcblk` are accepted unconditionally; names whose first
//! character is `s`, `h` or `v` are accepted only when the second character
//! is `d`; names starting with `x` are accepted only when they start with
//! `xvd`; everything else is rejected.

use vstd::prelude::*;
use vstd::string::StrSliceExecFns;

verus! {

/// The name begins with `nvme`.
pub open spec fn starts_with_nvme(s: Seq<char>) -> bool {
    s.len() >= 4 && s[0] == 'n' && s[1] == 'v' && s[2] == 'm' && s[3] == 'e'
}

/// The name begins with `mmcblk`.
pub open spec fn starts_with_mmcblk(s: Seq<char>) -> bool {
    s.len() >= 6 && s[0] == 'm' && s[1] == 'm' && s[2] == 'c' && s[3] == 'b' && s[4] == 'l' && s[5]
        == 'k'
}

/// The name begins with `xvd`.
pub open spec fn starts_with_xvd(s: Seq<char>) -> bool {
    s.len() >= 3 && s[0] == 'x' && s[1] == 'v' && s[2] == 'd'
}

/// The inclusion rule for block-device names.
pub open spec fn disk_included(s: Seq<char>) -> bool {
    if s.len() < 3 {
        false
    } else if starts_with_nvme(s) || starts_with_mmcblk(s) {
        true
    } else if s[0] == 's' || s[0] == 'h' || s[0] == 'v' {
        s[1] == 'd'
    } else if s[0] == 'x' {
        starts_with_xvd(s)
    } else {
        false
    }
}

/// Decides whether a block device is left out of per-partition I/O
/// reporting: exactly the names the inclusion rule rejects.
pub fn should_exclude_disk(name: &str) -> (r: bool)
    ensures
        r == !disk_included(name@),
{
    let n = name.unicode_len();
    if n < 3 {
        return true;
    }
    let c0 = name.get_char(0);
    let c1 = name.get_char(1);
    let c2 = name.get_char(2);
    let nvme = c0 == 'n' && c1 == 'v' && c2 == 'm' && n >= 4 && name.get_char(3) == 'e';
    let mmcblk = c0 == 'm' && c1 == 'm' && c2 == 'c' && n >= 6 && name.get_char(3) == 'b'
        && name.get_char(4) == 'l' && name.get_char(5) == 'k';
    let included = if nvme || mmcblk {
        true
    } else if c0 == 's' || c0 == 'h' || c0 == 'v' {
        c1 == 'd'
    } else if c0 == 'x' {
        c1 == 'v' && c2 == 'd'
    } else {
        false
    };
    !included
}

} // verus!
