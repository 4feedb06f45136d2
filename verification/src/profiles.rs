//! Profiles of an observation table, found by streaming its rows.
//!
//! A profile is identified by its `(platform_code, profile_no)` pair. The
//! tally numbers the profiles in the order in which their first row appears,
//! counts each profile's rows, and keeps a value taken from its first row.
//! Rows may come in any order and in any number of chunks.

use vstd::prelude::*;
use vstd::hash_map::StringHashMap;
use std::collections::HashMap;

verus! {

broadcast use vstd::std_specs::hash::group_hash_axioms;

/// A profile's identity: its platform code and profile number.
pub type ProfileId = (Seq<char>, u32);

/// Some row of `rows` carries `id`.
pub open spec fn has_id<P>(rows: Seq<(ProfileId, P)>, id: ProfileId) -> bool {
    exists|i: int| 0 <= i < rows.len() && (#[trigger] rows[i]).0 == id
}

/// The sum of a sequence of counts.
pub open spec fn seq_sum(s: Seq<u64>) -> nat
    decreases s.len(),
{
    if s.len() == 0 {
        0
    } else {
        seq_sum(s.drop_last()) + s.last() as nat
    }
}

/// Adding one to an entry adds one to the sum.
pub proof fn lemma_seq_sum_bump(s: Seq<u64>, i: int, v: u64)
    requires
        0 <= i < s.len(),
        v == s[i] + 1,
    ensures
        seq_sum(s.update(i, v)) == seq_sum(s) + 1,
    decreases s.len(),
{
    let u = s.update(i, v);
    if i == s.len() - 1 {
        assert(u.drop_last() =~= s.drop_last());
    } else {
        assert(u.drop_last() =~= s.drop_last().update(i, v));
        lemma_seq_sum_bump(s.drop_last(), i, v);
    }
}

/// A prefix sums to no more than the whole.
pub proof fn lemma_seq_sum_prefix(s: Seq<u64>, k: int)
    requires
        0 <= k <= s.len(),
    ensures
        seq_sum(s.take(k)) <= seq_sum(s),
    decreases s.len(),
{
    if k < s.len() {
        assert(s.drop_last().take(k) =~= s.take(k));
        lemma_seq_sum_prefix(s.drop_last(), k);
    } else {
        assert(s.take(k) =~= s);
    }
}

/// Some row of `rows` belongs to platform `p`.
pub open spec fn has_platform<P>(rows: Seq<(ProfileId, P)>, p: Seq<char>) -> bool {
    exists|i: int| 0 <= i < rows.len() && (#[trigger] rows[i]).0.0 == p
}

/// The distinct ids of `rows`, in the order of their first row.
pub open spec fn first_seen<P>(rows: Seq<(ProfileId, P)>) -> Seq<ProfileId>
    decreases rows.len(),
{
    if rows.len() == 0 {
        Seq::empty()
    } else {
        let prev = first_seen(rows.drop_last());
        if prev.contains(rows.last().0) {
            prev
        } else {
            prev.push(rows.last().0)
        }
    }
}

/// The number of rows of `rows` that carry `id`.
pub open spec fn row_count<P>(rows: Seq<(ProfileId, P)>, id: ProfileId) -> nat
    decreases rows.len(),
{
    if rows.len() == 0 {
        0
    } else {
        row_count(rows.drop_last(), id) + if rows.last().0 == id {
            1nat
        } else {
            0nat
        }
    }
}

/// The value carried by the first row of `rows` with `id`.
pub open spec fn first_value<P>(rows: Seq<(ProfileId, P)>, id: ProfileId) -> P
    recommends
        has_id(rows, id),
    decreases rows.len(),
{
    if rows.len() == 0 {
        arbitrary()
    } else if has_id(rows.drop_last(), id) {
        first_value(rows.drop_last(), id)
    } else {
        rows.last().1
    }
}

/// A row added at the end carries its id.
pub proof fn lemma_has_id_push<P>(rows: Seq<(ProfileId, P)>, e: (ProfileId, P), id: ProfileId)
    ensures
        has_id(rows.push(e), id) <==> has_id(rows, id) || e.0 == id,
{
    let r = rows.push(e);
    if has_id(rows, id) {
        let i = choose|i: int| 0 <= i < rows.len() && (#[trigger] rows[i]).0 == id;
        assert(r[i] == rows[i]);
    }
    if e.0 == id {
        assert(r[rows.len() as int] == e);
    }
    if has_id(r, id) && !(e.0 == id) {
        let i = choose|i: int| 0 <= i < r.len() && (#[trigger] r[i]).0 == id;
        assert(i < rows.len());
        assert(rows[i] == r[i]);
    }
}

/// What one more row changes in the spec functions over the rows.
pub proof fn lemma_push_row<P>(rows: Seq<(ProfileId, P)>, e: (ProfileId, P))
    ensures
        forall|p: ProfileId| #[trigger]
            row_count(rows.push(e), p) == row_count(rows, p) + if e.0 == p {
                1nat
            } else {
                0nat
            },
        forall|p: ProfileId| has_id(rows, p) ==> #[trigger] first_value(rows.push(e), p) == first_value(rows, p),
        !has_id(rows, e.0) ==> first_value(rows.push(e), e.0) == e.1,
        first_seen(rows.push(e)) == if first_seen(rows).contains(e.0) {
            first_seen(rows)
        } else {
            first_seen(rows).push(e.0)
        },
        forall|p: Seq<char>| #[trigger] has_platform(rows.push(e), p) <==> has_platform(rows, p) || e.0.0 == p,
        forall|p: ProfileId| #[trigger] has_id(rows.push(e), p) <==> has_id(rows, p) || e.0 == p,
{
    let r = rows.push(e);
    assert(r.drop_last() =~= rows);
    assert(r.last() == e);
    assert forall|p: ProfileId| #[trigger] has_id(r, p) <==> has_id(rows, p) || e.0 == p by {
        lemma_has_id_push(rows, e, p);
    }
    assert forall|p: Seq<char>| #[trigger] has_platform(r, p) <==> has_platform(rows, p) || e.0.0 == p by {
        if has_platform(rows, p) {
            let i = choose|i: int| 0 <= i < rows.len() && (#[trigger] rows[i]).0.0 == p;
            assert(r[i] == rows[i]);
        }
        if e.0.0 == p {
            assert(r[rows.len() as int] == e);
        }
        if has_platform(r, p) && e.0.0 != p {
            let i = choose|i: int| 0 <= i < r.len() && (#[trigger] r[i]).0.0 == p;
            assert(r[i] == rows[i]);
        }
    }
}

/// An id that no row carries has no rows.
pub proof fn lemma_row_count_absent<P>(rows: Seq<(ProfileId, P)>, id: ProfileId)
    requires
        !has_id(rows, id),
    ensures
        row_count(rows, id) == 0,
    decreases rows.len(),
{
    if rows.len() > 0 {
        let d = rows.drop_last();
        assert(rows =~= d.push(rows.last()));
        lemma_has_id_push(d, rows.last(), id);
        lemma_row_count_absent(d, id);
    }
}

/// An id is listed by `first_seen` exactly when some row carries it, and
/// `first_seen` lists no id twice.
pub proof fn lemma_first_seen<P>(rows: Seq<(ProfileId, P)>)
    ensures
        first_seen(rows).no_duplicates(),
        forall|id: ProfileId| #[trigger] first_seen(rows).contains(id) <==> has_id(rows, id),
    decreases rows.len(),
{
    if rows.len() > 0 {
        let d = rows.drop_last();
        let e = rows.last();
        assert(rows =~= d.push(e));
        lemma_first_seen(d);
        let prev = first_seen(d);
        assert forall|id: ProfileId| #[trigger] first_seen(rows).contains(id) <==> has_id(rows, id) by {
            lemma_has_id_push(d, e, id);
            if !prev.contains(e.0) {
                assert(first_seen(rows) == prev.push(e.0));
                if prev.push(e.0).contains(id) && id != e.0 {
                    let k = choose|k: int| 0 <= k < prev.push(e.0).len() && prev.push(e.0)[k] == id;
                    assert(prev[k] == id);
                }
                if prev.contains(id) {
                    let k = choose|k: int| 0 <= k < prev.len() && prev[k] == id;
                    assert(prev.push(e.0)[k] == id);
                }
                if id == e.0 {
                    assert(prev.push(e.0)[prev.len() as int] == id);
                }
            }
        }
        if !prev.contains(e.0) {
            let s = prev.push(e.0);
            assert forall|i: int, j: int| 0 <= i < s.len() && 0 <= j < s.len() && i != j implies s[i] != s[j] by {
                if i < prev.len() && j < prev.len() {
                    assert(s[i] == prev[i] && s[j] == prev[j]);
                } else if i < prev.len() {
                    assert(s[i] == prev[i]);
                } else if j < prev.len() {
                    assert(s[j] == prev[j]);
                }
            }
        }
    }
}

/// A well-formed tally states what it has seen, and its profiles are
/// distinct.
pub proof fn lemma_tally<P>(t: &ProfileTally<P>)
    requires
        t.wf(),
    ensures
        t.tallies(),
        t.profiles().no_duplicates(),
{
    lemma_first_seen(t.seen());
}

/// The composite key of a platform number and a profile number is their
/// pair in base 2^32, so it determines both.
proof fn lemma_composite(a: u32, b: u32, c: u32, d: u32)
    ensures
        composite(a, b) as int == a * 0x1_0000_0000 + b,
        composite(a, b) == composite(c, d) ==> a == c && b == d,
{
    assert(a * 0x1_0000_0000 + b < 0x1_0000_0000_0000_0000) by (nonlinear_arith)
        requires
            a < 0x1_0000_0000,
            b < 0x1_0000_0000,
    ;
    assert(c * 0x1_0000_0000 + d < 0x1_0000_0000_0000_0000) by (nonlinear_arith)
        requires
            c < 0x1_0000_0000,
            d < 0x1_0000_0000,
    ;
    if composite(a, b) == composite(c, d) {
        assert(a == c) by (nonlinear_arith)
            requires
                b < 0x1_0000_0000,
                d < 0x1_0000_0000,
                a * 0x1_0000_0000 + b == c * 0x1_0000_0000 + d,
        ;
    }
}

/// The composite key of a platform number and a profile number.
pub open spec fn composite(pnum: u32, profile_no: u32) -> u64 {
    (pnum * 0x1_0000_0000 + profile_no) as u64
}

/// Streams rows of `(platform_code, profile_no)` and tallies the profiles.
pub struct ProfileTally<P> {
    platforms: StringHashMap<u32>,
    platform_names: Vec<String>,
    index: HashMap<u64, usize>,
    ids: Vec<(String, u32)>,
    firsts: Vec<P>,
    counts: Vec<u64>,
    n_rows: u64,
    rows: Ghost<Seq<(ProfileId, P)>>,
}

impl<P> ProfileTally<P> {
    /// The rows observed so far, each with the value it was observed with.
    pub closed spec fn seen(&self) -> Seq<(ProfileId, P)> {
        self.rows@
    }

    /// The profiles, in the order of their first row.
    pub closed spec fn profiles(&self) -> Seq<ProfileId> {
        self.ids@.map_values(|e: (String, u32)| (e.0@, e.1))
    }

    /// The value of each profile's first row.
    pub closed spec fn first_values(&self) -> Seq<P> {
        self.firsts@
    }

    /// The number of rows of each profile.
    pub closed spec fn row_counts(&self) -> Seq<u64> {
        self.counts@
    }

    /// The number of distinct platform codes.
    pub closed spec fn platform_count(&self) -> nat {
        self.platform_names.len() as nat
    }

    /// The distinct platform codes, in the order of their first row.
    pub closed spec fn platform_codes(&self) -> Seq<Seq<char>> {
        self.platform_names@.map_values(|s: String| s@)
    }

    /// What the tally states of the rows it has seen.
    pub open spec fn tallies(&self) -> bool {
        &&& self.profiles() == first_seen(self.seen())
        &&& self.first_values().len() == self.profiles().len()
        &&& self.row_counts().len() == self.profiles().len()
        &&& forall|i: int|
            0 <= i < self.profiles().len() ==> #[trigger] self.row_counts()[i] == row_count(
                self.seen(),
                self.profiles()[i],
            )
        &&& forall|i: int|
            0 <= i < self.profiles().len() ==> #[trigger] self.first_values()[i] == first_value(
                self.seen(),
                self.profiles()[i],
            )
        &&& seq_sum(self.row_counts()) == self.seen().len()
        &&& self.seen().len() <= u64::MAX
        &&& self.platform_codes().len() == self.platform_count()
        &&& self.platform_codes().no_duplicates()
        &&& forall|p: Seq<char>| #[trigger]
            self.platform_codes().contains(p) <==> has_platform(self.seen(), p)
    }

    /// The internal invariant: the two maps agree with the lists.
    pub closed spec fn wf(&self) -> bool {
        &&& self.tallies()
        &&& self.platform_names.len() <= self.ids.len()
        &&& self.ids.len() <= self.rows@.len()
        &&& self.n_rows == self.rows@.len()
        &&& forall|n: int|
            0 <= n < self.platform_names.len() ==> #[trigger] self.platforms@.contains_key(
                self.platform_names@[n]@,
            ) && self.platforms@[self.platform_names@[n]@] == n
        &&& forall|p: Seq<char>| #[trigger]
            self.platforms@.contains_key(p) ==> self.platforms@[p] < self.platform_names.len()
                && self.platform_names@[self.platforms@[p] as int]@ == p
        &&& forall|i: int|
            0 <= i < self.ids.len() ==> #[trigger] self.platforms@.contains_key(self.ids@[i].0@)
        &&& forall|i: int|
            0 <= i < self.ids.len() ==> #[trigger] self.index@.contains_key(
                composite(self.platforms@[self.ids@[i].0@], self.ids@[i].1),
            ) && self.index@[composite(self.platforms@[self.ids@[i].0@], self.ids@[i].1)] == i
        &&& forall|k: u64| #[trigger]
            self.index@.contains_key(k) ==> self.index@[k] < self.ids.len() && k == composite(
                self.platforms@[self.ids@[self.index@[k] as int].0@],
                self.ids@[self.index@[k] as int].1,
            )
        &&& forall|i: int| 0 <= i < self.counts.len() ==> #[trigger] self.counts@[i] <= self.rows@.len()
    }

    /// An empty tally.
    pub fn new() -> (t: Self)
        ensures
            t.wf(),
            t.seen().len() == 0,
            t.profiles().len() == 0,
    {
        let t = ProfileTally {
            platforms: StringHashMap::new(),
            platform_names: Vec::new(),
            index: HashMap::new(),
            ids: Vec::new(),
            firsts: Vec::new(),
            counts: Vec::new(),
            n_rows: 0,
            rows: Ghost(Seq::empty()),
        };
        proof {
            assert(t.row_counts() =~= Seq::<u64>::empty());
            assert(t.profiles() =~= Seq::<ProfileId>::empty());
            assert(t.platform_codes() =~= Seq::<Seq<char>>::empty());
        }
        t
    }

    /// Observe one row of profile `(platform, profile_no)`. A profile not seen
    /// before is appended, with `value` as the value of its first row. Returns
    /// the position of the row's profile and whether the row is its first.
    pub fn observe(&mut self, platform: &str, profile_no: u32, value: P) -> (r: (usize, bool))
        requires
            old(self).wf(),
            old(self).seen().len() < u64::MAX,
            old(self).platform_count() < u32::MAX,
        ensures
            final(self).wf(),
            final(self).seen() == old(self).seen().push(((platform@, profile_no), value)),
            r.0 < final(self).profiles().len(),
            final(self).profiles()[r.0 as int] == (platform@, profile_no),
            r.1 <==> !old(self).profiles().contains((platform@, profile_no)),
    {
        let ghost id: ProfileId = (platform@, profile_no);
        let ghost old_rows = self.rows@;
        let ghost e = (id, value);
        proof {
            lemma_first_seen(old_rows);
            lemma_push_row(old_rows, e);
        }
        let ghost old_self = *self;
        let pnum: u32;
        let known: bool;
        match self.platforms.get(platform) {
            Some(n) => {
                pnum = *n;
                known = true;
            },
            None => {
                let n = self.platform_names.len() as u32;
                self.platforms.insert(platform.to_owned(), n);
                self.platform_names.push(platform.to_owned());
                pnum = n;
                known = false;
            },
        }
        proof {
            assert(self.platforms@.contains_key(platform@) && self.platforms@[platform@] == pnum);
            assert(self.platform_names@[pnum as int]@ == platform@);
            assert(pnum < self.platform_names.len());
            lemma_composite(pnum, profile_no, pnum, profile_no);
        }
        let key: u64 = (pnum as u64) * 0x1_0000_0000u64 + profile_no as u64;
        assert(key == composite(pnum, profile_no));
        let found: Option<usize> = if known {
            match self.index.get(&key) {
                Some(i) => Some(*i),
                None => None,
            }
        } else {
            None
        };
        proof {
            if !known {
                assert(self.index@ == old_self.index@);
                assert(pnum as int == old_self.platform_names.len());
                if self.index@.contains_key(key) {
                    let m = self.index@[key] as int;
                    assert(m < old_self.ids.len());
                    assert(old_self.platforms@.contains_key(old_self.ids@[m].0@));
                    let q = old_self.platforms@[old_self.ids@[m].0@];
                    assert(q < pnum);
                    lemma_composite(q, old_self.ids@[m].1, pnum, profile_no);
                    assert(false);
                }
            }
        }
        assert(found is None ==> !self.index@.contains_key(key));
        let r = match found {
            Some(i) => {
                proof {
                    assert(self.index@.contains_key(key) && self.index@[key] == i);
                    assert(i < self.ids.len());
                    assert(self.platforms@.contains_key(self.ids@[i as int].0@));
                    let q = self.platforms@[self.ids@[i as int].0@];
                    lemma_composite(q, self.ids@[i as int].1, pnum, profile_no);
                    assert(q == pnum);
                    assert(self.platform_names@[q as int]@ == self.ids@[i as int].0@);
                    assert(self.ids@[i as int].0@ == platform@);
                    assert(self.profiles()[i as int] == id);
                }
                let c = self.counts[i];
                self.counts.set(i, c + 1);
                (i, false)
            },
            None => {
                let idx = self.ids.len();
                self.index.insert(key, idx);
                self.ids.push((platform.to_owned(), profile_no));
                self.firsts.push(value);
                self.counts.push(1);
                (idx, true)
            },
        };
        self.n_rows = self.n_rows + 1;
        self.rows = Ghost(old_rows.push(e));
        proof {
            let ghost new_rows = old_rows.push(e);
            assert(self.seen() == new_rows);
            if found is Some {
                assert(old_self.profiles().contains(id));
                assert(self.profiles() =~= old_self.profiles());
                assert(self.profiles() == first_seen(new_rows));
            } else {
                assert(!old_self.profiles().contains(id)) by {
                    if old_self.profiles().contains(id) {
                        let j = choose|j: int| 0 <= j < old_self.profiles().len() && old_self.profiles()[j] == id;
                        assert(old_self.ids@[j].0@ == platform@);
                        assert(old_self.ids@[j].1 == profile_no);
                        assert(self.platforms@.contains_key(platform@));
                        assert(old_self.platforms@.contains_key(old_self.ids@[j].0@));
                        assert(known);
                        assert(self.index@ == old_self.index@);
                        assert(self.index@.contains_key(key));
                    }
                }
                assert(self.profiles() =~= old_self.profiles().push(id));
                assert(self.profiles() == first_seen(new_rows));
                lemma_row_count_absent(old_rows, id);
            }
            assert(first_seen(old_rows).no_duplicates());
            assert(seq_sum(self.row_counts()) == self.seen().len()) by {
                match found {
                    Some(i) => {
                        lemma_seq_sum_bump(old_self.counts@, i as int, self.counts@[i as int]);
                    },
                    None => {
                        assert(self.counts@.drop_last() =~= old_self.counts@);
                    },
                }
            }
            assert forall|i: int| 0 <= i < self.profiles().len() implies #[trigger] self.row_counts()[i] == row_count(
                self.seen(),
                self.profiles()[i],
            ) by {
                if i < old_self.profiles().len() {
                    assert(self.profiles()[i] == old_self.profiles()[i]);
                    if self.profiles()[i] == id {
                        assert(found is Some);
                    }
                }
            }
            assert forall|i: int| 0 <= i < self.profiles().len() implies #[trigger] self.first_values()[i] == first_value(
                self.seen(),
                self.profiles()[i],
            ) by {
                if i < old_self.profiles().len() {
                    assert(self.profiles()[i] == old_self.profiles()[i]);
                    assert(first_seen(old_rows).contains(old_self.profiles()[i]));
                }
            }
            assert(self.platform_codes().no_duplicates()) by {
                if !known {
                    assert(!old_self.platform_codes().contains(platform@)) by {
                        if old_self.platform_codes().contains(platform@) {
                            let n = choose|n: int| 0 <= n < old_self.platform_codes().len() && old_self.platform_codes()[n] == platform@;
                            assert(old_self.platform_names@[n]@ == platform@);
                        }
                    }
                    assert(self.platform_codes() =~= old_self.platform_codes().push(platform@));
                } else {
                    assert(self.platform_codes() =~= old_self.platform_codes());
                }
            }
            assert forall|p: Seq<char>| #[trigger] self.platform_codes().contains(p) <==> has_platform(self.seen(), p) by {
                if !known {
                    assert(self.platform_codes() =~= old_self.platform_codes().push(platform@));
                    if old_self.platform_codes().contains(p) {
                        let n = choose|n: int| 0 <= n < old_self.platform_codes().len() && old_self.platform_codes()[n] == p;
                        assert(self.platform_codes()[n] == p);
                    }
                    if p == platform@ {
                        assert(self.platform_codes()[old_self.platform_codes().len() as int] == p);
                    }
                    if self.platform_codes().contains(p) && p != platform@ {
                        let n = choose|n: int| 0 <= n < self.platform_codes().len() && self.platform_codes()[n] == p;
                        assert(old_self.platform_codes()[n] == p);
                    }
                } else {
                    assert(self.platform_codes() =~= old_self.platform_codes());
                    assert(old_self.platform_codes()[pnum as int] == platform@);
                }
            }
            assert(self.tallies());
            assert(self.platform_names.len() <= self.ids.len());
            assert(self.ids.len() <= self.rows@.len());
            assert(self.n_rows == self.rows@.len());
            assert(forall|n: int|
            0 <= n < self.platform_names.len() ==> #[trigger] self.platforms@.contains_key(
                self.platform_names@[n]@,
            ) && self.platforms@[self.platform_names@[n]@] == n);
            assert(forall|p: Seq<char>| #[trigger]
            self.platforms@.contains_key(p) ==> self.platforms@[p] < self.platform_names.len()
                && self.platform_names@[self.platforms@[p] as int]@ == p);
            assert(forall|i: int|
            0 <= i < self.ids.len() ==> #[trigger] self.platforms@.contains_key(self.ids@[i].0@));
            assert(forall|i: int|
            0 <= i < self.ids.len() ==> #[trigger] self.index@.contains_key(
                composite(self.platforms@[self.ids@[i].0@], self.ids@[i].1),
            ) && self.index@[composite(self.platforms@[self.ids@[i].0@], self.ids@[i].1)] == i);
            assert(forall|k: u64| #[trigger]
            self.index@.contains_key(k) ==> self.index@[k] < self.ids.len() && k == composite(
                self.platforms@[self.ids@[self.index@[k] as int].0@],
                self.ids@[self.index@[k] as int].1,
            ));
            assert(forall|i: int| 0 <= i < self.counts.len() ==> #[trigger] self.counts@[i] <= self.rows@.len());
        }
        r
    }

    /// The position of profile `(platform, profile_no)`, if it has been seen.
    pub fn find(&self, platform: &str, profile_no: u32) -> (r: Option<usize>)
        requires
            self.wf(),
        ensures
            r matches Some(i) ==> i < self.profiles().len() && self.profiles()[i as int] == (
                platform@,
                profile_no,
            ),
            r is None ==> !self.profiles().contains((platform@, profile_no)),
    {
        let ghost id: ProfileId = (platform@, profile_no);
        let pnum: u32 = match self.platforms.get(platform) {
            Some(n) => *n,
            None => {
                proof {
                    if self.profiles().contains(id) {
                        let j = choose|j: int| 0 <= j < self.profiles().len() && self.profiles()[j] == id;
                        assert(self.ids@[j].0@ == platform@);
                        assert(self.platforms@.contains_key(self.ids@[j].0@));
                    }
                }
                return None;
            },
        };
        proof {
            lemma_composite(pnum, profile_no, pnum, profile_no);
        }
        let key: u64 = (pnum as u64) * 0x1_0000_0000u64 + profile_no as u64;
        match self.index.get(&key) {
            Some(i) => {
                let i = *i;
                proof {
                    assert(self.index@.contains_key(key) && self.index@[key] == i);
                    assert(self.platforms@.contains_key(self.ids@[i as int].0@));
                    let q = self.platforms@[self.ids@[i as int].0@];
                    lemma_composite(q, self.ids@[i as int].1, pnum, profile_no);
                    assert(self.platform_names@[q as int]@ == self.ids@[i as int].0@);
                    assert(self.profiles()[i as int] == id);
                }
                Some(i)
            },
            None => {
                proof {
                    if self.profiles().contains(id) {
                        let j = choose|j: int| 0 <= j < self.profiles().len() && self.profiles()[j] == id;
                        assert(self.ids@[j].0@ == platform@);
                        assert(self.ids@[j].1 == profile_no);
                        assert(self.index@.contains_key(key));
                    }
                }
                None
            },
        }
    }

    /// Whether some row of platform `p` has been seen.
    pub fn has_platform(&self, p: &str) -> (r: bool)
        requires
            self.wf(),
        ensures
            r == self.platform_codes().contains(p@),
    {
        let r = self.platforms.contains_key(p);
        proof {
            if r {
                let n = self.platforms@[p@] as int;
                assert(self.platform_codes()[n] == p@);
            }
            if self.platform_codes().contains(p@) {
                let n = choose|n: int| 0 <= n < self.platform_codes().len() && self.platform_codes()[n] == p@;
                assert(self.platform_names@[n]@ == p@);
            }
        }
        r
    }

    /// The platform code at position `k` of `platform_codes`.
    pub fn platform_at(&self, k: usize) -> (r: &String)
        requires
            self.wf(),
            k < self.platform_count(),
        ensures
            r@ == self.platform_codes()[k as int],
    {
        &self.platform_names[k]
    }

    /// The platform code and profile number of the profile at `i`.
    pub fn profile_at(&self, i: usize) -> (r: (&String, u32))
        requires
            self.wf(),
            i < self.profiles().len(),
        ensures
            (r.0@, r.1) == self.profiles()[i as int],
    {
        (&self.ids[i].0, self.ids[i].1)
    }

    /// The value of the first row of the profile at `i`.
    pub fn first_value_at(&self, i: usize) -> (r: &P)
        requires
            self.wf(),
            i < self.profiles().len(),
        ensures
            *r == self.first_values()[i as int],
    {
        &self.firsts[i]
    }

    /// The number of rows of the profile at `i`.
    pub fn count_at(&self, i: usize) -> (r: u64)
        requires
            self.wf(),
            i < self.profiles().len(),
        ensures
            r == self.row_counts()[i as int],
    {
        self.counts[i]
    }

    /// The number of profiles found so far.
    pub fn len(&self) -> (n: usize)
        requires
            self.wf(),
        ensures
            n == self.profiles().len(),
    {
        self.ids.len()
    }

    /// The number of rows observed so far.
    pub fn row_total(&self) -> (n: u64)
        requires
            self.wf(),
        ensures
            n == self.seen().len(),
    {
        self.n_rows
    }

    /// The number of distinct platform codes found so far.
    pub fn platform_total(&self) -> (n: usize)
        requires
            self.wf(),
        ensures
            n == self.platform_count(),
    {
        self.platform_names.len()
    }
}

} // verus!
