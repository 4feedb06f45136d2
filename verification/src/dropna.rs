//! Drop-NA filter: remove whole profiles that are entirely missing in any of
//! the core parameters (`temp`, `psal`, `pres`).
//!
//! A profile is kept only if each parameter has at least one valid
//! observation. Whether one observation is valid (neither null nor NaN) is
//! decided by the caller; this module gathers it per profile across chunks.

use vstd::prelude::*;

use crate::profiles::{lemma_push_row, lemma_tally, ProfileId, ProfileTally};

verus! {

/// Flag `k` of a row's validity flags.
pub open spec fn flag_of(v: (bool, bool, bool), k: int) -> bool {
    if k == 0 {
        v.0
    } else if k == 1 {
        v.1
    } else {
        v.2
    }
}

/// Some row of profile `id` has a valid value of parameter `k` (0: `temp`,
/// 1: `psal`, 2: `pres`).
pub open spec fn has_valid(rows: Seq<(ProfileId, (bool, bool, bool))>, id: ProfileId, k: int) -> bool {
    exists|r: int|
        0 <= r < rows.len() && (#[trigger] rows[r]).0 == id && flag_of(rows[r].1, k)
}

/// Gathers, per profile, which parameters have a valid observation.
pub struct NaFilter {
    tally: ProfileTally<(bool, bool, bool)>,
    valid: Vec<(bool, bool, bool)>,
}

impl NaFilter {
    /// The rows observed so far, with their validity flags.
    pub closed spec fn seen(&self) -> Seq<(ProfileId, (bool, bool, bool))> {
        self.tally.seen()
    }

    /// The profiles, in the order of their first row.
    pub closed spec fn profiles(&self) -> Seq<ProfileId> {
        self.tally.profiles()
    }

    /// The internal invariant.
    pub closed spec fn wf(&self) -> bool {
        &&& self.tally.wf()
        &&& self.valid.len() == self.tally.profiles().len()
        &&& forall|i: int|
            0 <= i < self.valid.len() ==> {
                &&& (#[trigger] self.valid@[i]).0 == has_valid(self.tally.seen(), self.tally.profiles()[i], 0)
                &&& self.valid@[i].1 == has_valid(self.tally.seen(), self.tally.profiles()[i], 1)
                &&& self.valid@[i].2 == has_valid(self.tally.seen(), self.tally.profiles()[i], 2)
            }
    }

    /// The number of rows observed.
    pub closed spec fn row_count(&self) -> nat {
        self.tally.seen().len()
    }

    /// The number of platforms observed.
    pub closed spec fn platform_count(&self) -> nat {
        self.tally.platform_count()
    }

    /// An empty filter.
    pub fn new() -> (f: Self)
        ensures
            f.wf(),
            f.seen().len() == 0,
    {
        NaFilter { tally: ProfileTally::new(), valid: Vec::new() }
    }

    /// The number of rows observed, and of platforms.
    pub fn sizes(&self) -> (r: (u64, usize))
        requires
            self.wf(),
        ensures
            r.0 == self.seen().len(),
            r.1 == self.platform_count(),
    {
        (self.tally.row_total(), self.tally.platform_total())
    }

    /// Observe one row of profile `(platform, profile_no)` with the validity of
    /// its `temp`, `psal` and `pres` values.
    pub fn observe(&mut self, platform: &str, profile_no: u32, temp: bool, psal: bool, pres: bool)
        requires
            old(self).wf(),
            old(self).seen().len() < u64::MAX,
            old(self).platform_count() < u32::MAX,
        ensures
            final(self).wf(),
            final(self).seen() == old(self).seen().push(((platform@, profile_no), (temp, psal, pres))),
    {
        let ghost old_rows = self.tally.seen();
        let ghost old_profiles = self.tally.profiles();
        let ghost e = ((platform@, profile_no), (temp, psal, pres));
        proof {
            lemma_tally(&self.tally);
            assert(old_profiles == crate::profiles::first_seen(old_rows));
        }
        let (idx, is_new) = self.tally.observe(platform, profile_no, (temp, psal, pres));
        proof {
            lemma_tally(&self.tally);
            lemma_push_row(old_rows, e);
        }
        if is_new {
            self.valid.push((temp, psal, pres));
        } else {
            let v = self.valid[idx];
            self.valid.set(idx, (v.0 || temp, v.1 || psal, v.2 || pres));
        }
        proof {
            let rows = self.tally.seen();
            assert(rows == old_rows.push(e));
            assert forall|i: int, k: int| 0 <= i < self.tally.profiles().len() && 0 <= k < 3 implies
                #[trigger] has_valid(rows, self.tally.profiles()[i], k) == (has_valid(old_rows, self.tally.profiles()[i], k) || (e.0 == self.tally.profiles()[i] && flag_of((temp, psal, pres), k))) by {
                let id = self.tally.profiles()[i];
                if has_valid(old_rows, id, k) {
                    let r = choose|r: int| 0 <= r < old_rows.len() && (#[trigger] old_rows[r]).0 == id && flag_of(old_rows[r].1, k);
                    assert(rows[r] == old_rows[r]);
                }
                if e.0 == id && flag_of((temp, psal, pres), k) {
                    assert(rows[old_rows.len() as int] == e);
                }
                if has_valid(rows, id, k) {
                    let r = choose|r: int| 0 <= r < rows.len() && (#[trigger] rows[r]).0 == id && flag_of(rows[r].1, k);
                    if r < old_rows.len() {
                        assert(rows[r] == old_rows[r]);
                    }
                }
            }
            if is_new {
                assert(!old_profiles.contains(e.0));
                crate::profiles::lemma_first_seen(old_rows);
                assert forall|k: int| 0 <= k < 3 implies !has_valid(old_rows, e.0, k) by {
                    if has_valid(old_rows, e.0, k) {
                        let r = choose|r: int| 0 <= r < old_rows.len() && (#[trigger] old_rows[r]).0 == e.0 && flag_of(old_rows[r].1, k);
                        assert(crate::profiles::has_id(old_rows, e.0));
                    }
                }
                assert(self.tally.profiles() == old_profiles.push(e.0));
            } else {
                assert(self.tally.profiles() == old_profiles);
            }
            assert forall|i: int| 0 <= i < self.valid.len() implies {
                &&& (#[trigger] self.valid@[i]).0 == has_valid(rows, self.tally.profiles()[i], 0)
                &&& self.valid@[i].1 == has_valid(rows, self.tally.profiles()[i], 1)
                &&& self.valid@[i].2 == has_valid(rows, self.tally.profiles()[i], 2)
            } by {
                assert(has_valid(rows, self.tally.profiles()[i], 0) == (has_valid(old_rows, self.tally.profiles()[i], 0) || (e.0 == self.tally.profiles()[i] && temp)));
                assert(has_valid(rows, self.tally.profiles()[i], 1) == (has_valid(old_rows, self.tally.profiles()[i], 1) || (e.0 == self.tally.profiles()[i] && psal)));
                assert(has_valid(rows, self.tally.profiles()[i], 2) == (has_valid(old_rows, self.tally.profiles()[i], 2) || (e.0 == self.tally.profiles()[i] && pres)));
                if i != idx {
                    assert(self.tally.profiles()[i] != e.0);
                }
            }
        }
    }

    /// For each row of a chunk, whether its profile is kept: every parameter
    /// of the profile has a valid value. A row without a platform code or a
    /// profile number, or of a profile not observed, is dropped.
    pub fn keep_mask(&self, platforms: &Vec<Option<String>>, profile_nos: &Vec<Option<u32>>) -> (mask: Vec<bool>)
        requires
            self.wf(),
            platforms.len() == profile_nos.len(),
        ensures
            mask.len() == platforms.len(),
            forall|r: int|
                0 <= r < mask.len() ==> #[trigger] mask@[r] == (platforms@[r] is Some && profile_nos@[r] is Some
                    && self.profiles().contains((platforms@[r]->0@, profile_nos@[r]->0)) && has_valid(
                    self.seen(),
                    (platforms@[r]->0@, profile_nos@[r]->0),
                    0,
                ) && has_valid(self.seen(), (platforms@[r]->0@, profile_nos@[r]->0), 1) && has_valid(
                    self.seen(),
                    (platforms@[r]->0@, profile_nos@[r]->0),
                    2,
                )),
    {
        let mut mask: Vec<bool> = Vec::new();
        let mut r: usize = 0;
        while r < platforms.len()
            invariant
                self.wf(),
                platforms.len() == profile_nos.len(),
                r <= platforms.len(),
                mask.len() == r,
                forall|q: int|
                    0 <= q < r ==> #[trigger] mask@[q] == (platforms@[q] is Some && profile_nos@[q] is Some
                        && self.profiles().contains((platforms@[q]->0@, profile_nos@[q]->0)) && has_valid(
                        self.seen(),
                        (platforms@[q]->0@, profile_nos@[q]->0),
                        0,
                    ) && has_valid(self.seen(), (platforms@[q]->0@, profile_nos@[q]->0), 1) && has_valid(
                        self.seen(),
                        (platforms@[q]->0@, profile_nos@[q]->0),
                        2,
                    )),
            decreases platforms.len() - r,
        {
            let m = match (&platforms[r], profile_nos[r]) {
                (Some(p), Some(n)) => match self.tally.find(p.as_str(), n) {
                    Some(i) => {
                        let v = self.valid[i];
                        proof {
                            assert(self.profiles().contains((p@, n)));
                        }
                        v.0 && v.1 && v.2
                    },
                    None => false,
                },
                _ => false,
            };
            mask.push(m);
            r += 1;
        }
        mask
    }
}

} // verus!
