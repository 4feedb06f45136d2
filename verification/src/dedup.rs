//! Remove duplicate profiles, keeping one per duplicate group.
//!
//! Within each group of profiles sharing a duplicate key, the profile with the
//! most observation rows is kept, ties broken by first appearance. Profiles
//! with no key (null timestamp or NaN position) are always kept.

use vstd::prelude::*;
use vstd::hash_map::StringHashMap;

use crate::dupkey::{
    dup_key, key_text, key_text_of, key_view, lemma_key_text_injective, opt_key_view, DupKey,
    KeyOpts,
};
use crate::profiles::ProfileTally;

verus! {

/// The views of a list of optional keys.
pub open spec fn key_views(keys: Seq<Option<DupKey>>) -> Seq<Option<(Seq<char>, i64, i64)>> {
    keys.map_values(|k: Option<DupKey>| opt_key_view(k))
}

/// Profile `a` wins over profile `b`: it has more rows, or as many and an
/// earlier first row.
pub open spec fn beats(n_obs: Seq<u64>, a: int, b: int) -> bool {
    n_obs[a] > n_obs[b] || (n_obs[a] == n_obs[b] && a < b)
}

/// Profile `i` is kept: it has no key, or it wins over every other profile
/// with its key.
pub open spec fn survives(keys: Seq<Option<(Seq<char>, i64, i64)>>, n_obs: Seq<u64>, i: int) -> bool {
    keys[i] is None || forall|j: int|
        0 <= j < keys.len() && j != i && #[trigger] keys[j] == keys[i] ==> beats(n_obs, i, j)
}

/// Every keyed profile's group has exactly one survivor, and it belongs to
/// the group.
pub proof fn lemma_one_survivor_per_group(
    keys: Seq<Option<(Seq<char>, i64, i64)>>,
    n_obs: Seq<u64>,
    i: int,
)
    requires
        keys.len() == n_obs.len(),
        0 <= i < keys.len(),
        keys[i] is Some,
    ensures
        exists|w: int| 0 <= w < keys.len() && keys[w] == keys[i] && survives(keys, n_obs, w),
        forall|a: int, b: int|
            0 <= a < keys.len() && 0 <= b < keys.len() && keys[a] == keys[i] && keys[b] == keys[i]
                && survives(keys, n_obs, a) && survives(keys, n_obs, b) ==> a == b,
{
    let r = best_below(keys, n_obs, keys[i], keys.len() as int);
    let w = r->0;
    assert(survives(keys, n_obs, w));
}

/// The winner among the profiles below `m` whose key is `key`, if any.
proof fn best_below(
    keys: Seq<Option<(Seq<char>, i64, i64)>>,
    n_obs: Seq<u64>,
    key: Option<(Seq<char>, i64, i64)>,
    m: int,
) -> (r: Option<int>)
    requires
        keys.len() == n_obs.len(),
        0 <= m <= keys.len(),
    ensures
        r is None ==> forall|j: int| 0 <= j < m ==> keys[j] != key,
        r matches Some(w) ==> 0 <= w < m && keys[w] == key && forall|j: int|
            0 <= j < m && j != w && #[trigger] keys[j] == key ==> beats(n_obs, w, j),
    decreases m,
{
    if m == 0 {
        None
    } else {
        let r0 = best_below(keys, n_obs, key, m - 1);
        let j = m - 1;
        if keys[j] == key {
            match r0 {
                None => Some(j),
                Some(w0) => if beats(n_obs, j, w0) {
                    Some(j)
                } else {
                    Some(w0)
                },
            }
        } else {
            r0
        }
    }
}

/// Which profiles to keep: for each profile, whether it survives.
pub fn select_survivors(keys: &Vec<Option<DupKey>>, n_obs: &Vec<u64>) -> (keep: Vec<bool>)
    requires
        keys.len() == n_obs.len(),
    ensures
        keep.len() == keys.len(),
        forall|i: int| 0 <= i < keys.len() ==> #[trigger] keep@[i] == survives(key_views(keys@), n_obs@, i),
{
    let ghost kv = key_views(keys@);
    let mut best: StringHashMap<usize> = StringHashMap::new();
    let mut i: usize = 0;
    while i < keys.len()
        invariant
            i <= keys.len(),
            keys.len() == n_obs.len(),
            kv == key_views(keys@),
            kv.len() == keys.len(),
            forall|j: int| 0 <= j < i && kv[j] is Some ==> #[trigger] best@.contains_key(key_text(kv[j]->0)),
            forall|t: Seq<char>| #[trigger] best@.contains_key(t) ==> {
                let b = best@[t] as int;
                &&& 0 <= b < i
                &&& kv[b] is Some
                &&& key_text(kv[b]->0) == t
                &&& forall|j: int|
                    0 <= j < i && j != b && kv[j] is Some && #[trigger] key_text(kv[j]->0) == t
                        ==> beats(n_obs@, b, j)
            },
        decreases keys.len() - i,
    {
        match &keys[i] {
            None => {},
            Some(k) => {
                let t = key_text_of(k);
                proof {
                    assert(kv[i as int] == Some(key_view(*k)));
                }
                let current: Option<usize> = match best.get(t.as_str()) {
                    Some(b) => Some(*b),
                    None => None,
                };
                match current {
                    None => {
                        best.insert(t, i);
                    },
                    Some(b) => {
                        if n_obs[i] > n_obs[b] {
                            best.insert(t, i);
                        }
                    },
                }
            },
        }
        i += 1;
    }
    let mut keep: Vec<bool> = Vec::new();
    let mut i: usize = 0;
    while i < keys.len()
        invariant
            i <= keys.len(),
            keys.len() == n_obs.len(),
            kv == key_views(keys@),
            kv.len() == keys.len(),
            keep.len() == i,
            forall|j: int| 0 <= j < keys.len() && kv[j] is Some ==> #[trigger] best@.contains_key(key_text(kv[j]->0)),
            forall|t: Seq<char>| #[trigger] best@.contains_key(t) ==> {
                let b = best@[t] as int;
                &&& 0 <= b < keys.len()
                &&& kv[b] is Some
                &&& key_text(kv[b]->0) == t
                &&& forall|j: int|
                    0 <= j < keys.len() && j != b && kv[j] is Some && #[trigger] key_text(kv[j]->0) == t
                        ==> beats(n_obs@, b, j)
            },
            forall|j: int| 0 <= j < i ==> #[trigger] keep@[j] == survives(kv, n_obs@, j),
        decreases keys.len() - i,
    {
        let k = match &keys[i] {
            None => true,
            Some(k) => {
                let t = key_text_of(k);
                proof {
                    assert(kv[i as int] == Some(key_view(*k)));
                }
                let b = match best.get(t.as_str()) {
                    Some(b) => *b,
                    None => i,
                };
                proof {
                    let bb = best@[t@] as int;
                    assert forall|j: int| 0 <= j < kv.len() && kv[j] is Some implies (#[trigger] key_text(kv[j]->0) == t@ <==> kv[j] == kv[i as int]) by {
                        lemma_key_text_injective(kv[j]->0, kv[i as int]->0);
                    }
                    if b == i {
                        assert forall|j: int| 0 <= j < kv.len() && j != i && #[trigger] kv[j] == kv[i as int] implies beats(n_obs@, i as int, j) by {
                            assert(key_text(kv[j]->0) == t@);
                        }
                    } else {
                        assert(key_text(kv[bb]->0) == t@);
                        assert(kv[bb] == kv[i as int]);
                        assert(beats(n_obs@, bb, i as int));
                    }
                }
                b == i
            },
        };
        keep.push(k);
        i += 1;
    }
    keep
}

/// The duplicate key of each profile of a tally whose rows carry their
/// timestamp and rounded coordinates.
pub open spec fn profile_keys(fmt: Seq<char>, firsts: Seq<(Option<i64>, Option<i64>, Option<i64>)>) -> Seq<Option<(Seq<char>, i64, i64)>> {
    firsts.map_values(|f: (Option<i64>, Option<i64>, Option<i64>)| dup_key(fmt, f.0, f.1, f.2))
}

/// The keys of the profiles of a tally.
pub fn keys_of_tally(opts: &KeyOpts, tally: &ProfileTally<(Option<i64>, Option<i64>, Option<i64>)>) -> (keys: Vec<Option<DupKey>>)
    requires
        tally.wf(),
    ensures
        keys.len() == tally.profiles().len(),
        key_views(keys@) == profile_keys(opts.time_format@, tally.first_values()),
{
    proof {
        crate::profiles::lemma_tally(tally);
    }
    let mut keys: Vec<Option<DupKey>> = Vec::new();
    let n = tally.len();
    let mut i: usize = 0;
    while i < n
        invariant
            tally.wf(),
            n == tally.profiles().len(),
            i <= n,
            tally.first_values().len() == n,
            key_views(keys@) == profile_keys(opts.time_format@, tally.first_values()).take(i as int),
        decreases n - i,
    {
        let f = tally.first_value_at(i);
        let k = opts.key(f.0, f.1, f.2);
        let ghost before = keys@;
        keys.push(k);
        proof {
            let pk = profile_keys(opts.time_format@, tally.first_values());
            assert(pk[i as int] == dup_key(opts.time_format@, f.0, f.1, f.2));
            assert(key_views(keys@) =~= key_views(before).push(opt_key_view(k)));
            assert(pk.take(i as int + 1) =~= pk.take(i as int).push(pk[i as int]));
        }
        i += 1;
    }
    proof {
        assert(profile_keys(opts.time_format@, tally.first_values()).take(n as int) =~= profile_keys(opts.time_format@, tally.first_values()));
    }
    keys
}

/// The row counts of the profiles of a tally.
pub fn counts_of_tally<P>(tally: &ProfileTally<P>) -> (counts: Vec<u64>)
    requires
        tally.wf(),
    ensures
        counts.len() == tally.profiles().len(),
        counts@ == tally.row_counts(),
{
    proof {
        crate::profiles::lemma_tally(tally);
    }
    let mut counts: Vec<u64> = Vec::new();
    let n = tally.len();
    let mut i: usize = 0;
    while i < n
        invariant
            tally.wf(),
            n == tally.profiles().len(),
            i <= n,
            counts@ == tally.row_counts().take(i as int),
            tally.row_counts().len() == n,
        decreases n - i,
    {
        let c = tally.count_at(i);
        counts.push(c);
        proof {
            assert(counts@ =~= tally.row_counts().take(i as int + 1));
        }
        i += 1;
    }
    proof {
        assert(tally.row_counts().take(n as int) =~= tally.row_counts());
    }
    counts
}

/// Which profiles of a tally `dedup` keeps.
pub fn dedup_keep(opts: &KeyOpts, tally: &ProfileTally<(Option<i64>, Option<i64>, Option<i64>)>) -> (keep: Vec<bool>)
    requires
        tally.wf(),
    ensures
        keep.len() == tally.profiles().len(),
        forall|i: int|
            0 <= i < keep.len() ==> #[trigger] keep@[i] == survives(
                profile_keys(opts.time_format@, tally.first_values()),
                tally.row_counts(),
                i,
            ),
{
    proof {
        crate::profiles::lemma_tally(tally);
    }
    let keys = keys_of_tally(opts, tally);
    let counts = counts_of_tally(tally);
    select_survivors(&keys, &counts)
}

/// For each row of a chunk, given by its platform code and profile number,
/// whether its profile is kept. A row of a profile the tally has not seen is
/// dropped.
pub fn row_mask<P>(tally: &ProfileTally<P>, keep: &Vec<bool>, platforms: &Vec<String>, profile_nos: &Vec<u32>) -> (mask: Vec<bool>)
    requires
        tally.wf(),
        keep.len() == tally.profiles().len(),
        platforms.len() == profile_nos.len(),
    ensures
        mask.len() == platforms.len(),
        forall|r: int|
            0 <= r < mask.len() ==> #[trigger] mask@[r] == exists|i: int|
                0 <= i < keep.len() && tally.profiles()[i] == (platforms@[r]@, profile_nos@[r]) && keep@[i],
{
    let mut mask: Vec<bool> = Vec::new();
    let mut r: usize = 0;
    while r < platforms.len()
        invariant
            tally.wf(),
            keep.len() == tally.profiles().len(),
            platforms.len() == profile_nos.len(),
            r <= platforms.len(),
            mask.len() == r,
            forall|q: int|
                0 <= q < r ==> #[trigger] mask@[q] == exists|i: int|
                    0 <= i < keep.len() && tally.profiles()[i] == (platforms@[q]@, profile_nos@[q]) && keep@[i],
        decreases platforms.len() - r,
    {
        let m = match tally.find(platforms[r].as_str(), profile_nos[r]) {
            Some(i) => {
                proof {
                    crate::profiles::lemma_tally(tally);
                }
                keep[i]
            },
            None => false,
        };
        mask.push(m);
        r += 1;
    }
    mask
}

} // verus!
