//! QC filter: drop whole profiles whose profile-level QC is not usable.
//!
//! A profile is kept when both `time_qc` and `position_qc` are `"1"` (good) or
//! `""` (missing). Any other flag drops it. The QC columns are constant within
//! a profile, so a row predicate keeps or drops whole profiles.

use vstd::prelude::*;

verus! {

/// A profile-level QC flag is usable: good (`"1"`) or missing (`""`).
pub open spec fn qc_usable(flag: Option<Seq<char>>) -> bool {
    match flag {
        Some(s) => s == seq!['1'] || s.len() == 0,
        None => false,
    }
}

/// The view of an optional string.
pub open spec fn opt_view(s: Option<&str>) -> Option<Seq<char>> {
    match s {
        Some(s) => Some(s@),
        None => None,
    }
}

/// Whether a QC flag is usable; a null flag is not.
pub fn is_usable(flag: Option<&str>) -> (r: bool)
    ensures
        r == qc_usable(opt_view(flag)),
{
    match flag {
        None => false,
        Some(s) => {
            let n = s.unicode_len();
            if n == 0 {
                true
            } else if n == 1 {
                let c = s.get_char(0);
                proof {
                    if c == '1' {
                        assert(s@ =~= seq!['1']);
                    }
                }
                c == '1'
            } else {
                false
            }
        },
    }
}

/// Whether a row is kept: both of its profile-level QC flags are usable.
pub fn keep_row(time_qc: Option<&str>, position_qc: Option<&str>) -> (r: bool)
    ensures
        r == (qc_usable(opt_view(time_qc)) && qc_usable(opt_view(position_qc))),
{
    is_usable(time_qc) && is_usable(position_qc)
}

/// The row mask of a chunk, from its two QC columns.
pub fn qc_mask(time_qc: &Vec<Option<String>>, position_qc: &Vec<Option<String>>) -> (mask: Vec<bool>)
    requires
        time_qc.len() == position_qc.len(),
    ensures
        mask.len() == time_qc.len(),
        forall|i: int|
            0 <= i < mask.len() ==> #[trigger] mask@[i] == (qc_usable(
                match time_qc@[i] {
                    Some(s) => Some(s@),
                    None => None,
                },
            ) && qc_usable(
                match position_qc@[i] {
                    Some(s) => Some(s@),
                    None => None,
                },
            )),
{
    let mut mask: Vec<bool> = Vec::new();
    let mut i: usize = 0;
    while i < time_qc.len()
        invariant
            time_qc.len() == position_qc.len(),
            i <= time_qc.len(),
            mask.len() == i,
            forall|j: int|
                0 <= j < i ==> #[trigger] mask@[j] == (qc_usable(
                    match time_qc@[j] {
                        Some(s) => Some(s@),
                        None => None,
                    },
                ) && qc_usable(
                    match position_qc@[j] {
                        Some(s) => Some(s@),
                        None => None,
                    },
                )),
        decreases time_qc.len() - i,
    {
        let t = match &time_qc[i] {
            Some(s) => Some(s.as_str()),
            None => None,
        };
        let p = match &position_qc[i] {
            Some(s) => Some(s.as_str()),
            None => None,
        };
        mask.push(keep_row(t, p));
        i += 1;
    }
    mask
}

} // verus!
