//! Mark duplicate profiles and lay out the report of them.
//!
//! A profile is a duplicate when its duplicate key matches the key of at
//! least one other profile (see [`crate::dupkey`]). Each duplicated key gets a
//! group number, counting from one in the order of the keys; the report lists
//! the duplicated profiles by group, then platform code, then profile number.

use vstd::prelude::*;
use vstd::hash_map::StringHashMap;

use crate::dedup::{key_views, keys_of_tally, profile_keys};
use crate::dupkey::{key_text, key_text_of, key_view, lemma_key_text_injective, DupKey, KeyOpts};
use crate::order::{chars_lt, chars_of, key_lt, lemma_key_lt_order, lemma_seq_lt_order, seq_lt};
use crate::profiles::{lemma_tally, ProfileTally};

verus! {

/// The number of profiles below `m` whose key is `k`.
pub open spec fn key_count(keys: Seq<Option<(Seq<char>, i64, i64)>>, k: (Seq<char>, i64, i64), m: int) -> nat
    decreases m,
{
    if m <= 0 {
        0
    } else {
        key_count(keys, k, m - 1) + if keys[m - 1] == Some(k) {
            1nat
        } else {
            0nat
        }
    }
}

/// Profile `i` is a duplicate: its key is shared by more than one profile.
pub open spec fn is_duplicate(keys: Seq<Option<(Seq<char>, i64, i64)>>, i: int) -> bool {
    keys[i] is Some && key_count(keys, keys[i]->0, keys.len() as int) > 1
}

/// A profile is a duplicate exactly when another profile has its key.
pub proof fn lemma_duplicate_iff_shared(keys: Seq<Option<(Seq<char>, i64, i64)>>, i: int)
    requires
        0 <= i < keys.len(),
    ensures
        is_duplicate(keys, i) <==> keys[i] is Some && exists|j: int|
            0 <= j < keys.len() && j != i && keys[j] == keys[i],
{
    if keys[i] is Some {
        let k = keys[i]->0;
        lemma_key_count(keys, k, i, keys.len() as int);
    }
}

/// `dedup` removes only profiles that `markdup` flags as duplicates, and of
/// each group of duplicates it keeps exactly one: a profile that is no
/// duplicate is always kept.
pub proof fn lemma_dedup_removes_only_duplicates(
    keys: Seq<Option<(Seq<char>, i64, i64)>>,
    n_obs: Seq<u64>,
    i: int,
)
    requires
        keys.len() == n_obs.len(),
        0 <= i < keys.len(),
    ensures
        !crate::dedup::survives(keys, n_obs, i) ==> is_duplicate(keys, i),
        is_duplicate(keys, i) ==> exists|w: int|
            0 <= w < keys.len() && keys[w] == keys[i] && crate::dedup::survives(keys, n_obs, w),
{
    lemma_duplicate_iff_shared(keys, i);
    if keys[i] is Some {
        crate::dedup::lemma_one_survivor_per_group(keys, n_obs, i);
    }
}

/// Counting the profiles with key `k` below `m`, where profile `i` has it.
proof fn lemma_key_count(keys: Seq<Option<(Seq<char>, i64, i64)>>, k: (Seq<char>, i64, i64), i: int, m: int)
    requires
        0 <= i < keys.len(),
        keys[i] == Some(k),
        0 <= m <= keys.len(),
    ensures
        i < m ==> key_count(keys, k, m) >= 1,
        i < m ==> (key_count(keys, k, m) > 1 <==> exists|j: int| 0 <= j < m && j != i && keys[j] == Some(k)),
        i >= m ==> (key_count(keys, k, m) > 0 <==> exists|j: int| 0 <= j < m && keys[j] == Some(k)),
    decreases m,
{
    if m > 0 {
        lemma_key_count(keys, k, i, m - 1);
        if i < m - 1 {
            if exists|j: int| 0 <= j < m - 1 && j != i && keys[j] == Some(k) {
                let j = choose|j: int| 0 <= j < m - 1 && j != i && keys[j] == Some(k);
                assert(0 <= j < m && j != i && keys[j] == Some(k));
            }
        } else if i == m - 1 {
            if exists|j: int| 0 <= j < m && j != i && keys[j] == Some(k) {
                let j = choose|j: int| 0 <= j < m && j != i && keys[j] == Some(k);
                assert(0 <= j < m - 1 && keys[j] == Some(k));
            }
        } else {
            if exists|j: int| 0 <= j < m - 1 && keys[j] == Some(k) {
                let j = choose|j: int| 0 <= j < m - 1 && keys[j] == Some(k);
                assert(0 <= j < m && keys[j] == Some(k));
            }
        }
    }
}

/// The distinct keys of the duplicate profiles below `m`, in profile order.
pub open spec fn dup_keys(keys: Seq<Option<(Seq<char>, i64, i64)>>, m: int) -> Seq<(Seq<char>, i64, i64)>
    decreases m,
{
    if m <= 0 {
        Seq::empty()
    } else {
        let prev = dup_keys(keys, m - 1);
        if is_duplicate(keys, m - 1) && !prev.contains(keys[m - 1]->0) {
            prev.push(keys[m - 1]->0)
        } else {
            prev
        }
    }
}

/// The number of keys of `ks` that come before `k`.
pub open spec fn count_below(ks: Seq<(Seq<char>, i64, i64)>, k: (Seq<char>, i64, i64)) -> nat
    decreases ks.len(),
{
    if ks.len() == 0 {
        0
    } else {
        count_below(ks.drop_last(), k) + if key_lt(ks.last(), k) {
            1nat
        } else {
            0nat
        }
    }
}

/// The group number of a duplicated key: one more than the number of
/// duplicated keys before it.
pub open spec fn group_of(keys: Seq<Option<(Seq<char>, i64, i64)>>, k: (Seq<char>, i64, i64)) -> nat {
    1 + count_below(dup_keys(keys, keys.len() as int), k)
}

/// The sort key of a report row: group, platform code, profile number.
pub open spec fn row_lt(a: (nat, Seq<char>, u32), b: (nat, Seq<char>, u32)) -> bool {
    a.0 < b.0 || (a.0 == b.0 && (seq_lt(a.1, b.1) || (a.1 == b.1 && a.2 < b.2)))
}

/// The order of report rows is a strict total order.
pub proof fn lemma_row_lt_order(a: (nat, Seq<char>, u32), b: (nat, Seq<char>, u32), c: (nat, Seq<char>, u32))
    ensures
        !row_lt(a, a),
        row_lt(a, b) ==> !row_lt(b, a),
        a != b ==> row_lt(a, b) || row_lt(b, a),
        row_lt(a, b) && row_lt(b, c) ==> row_lt(a, c),
{
    lemma_seq_lt_order(a.1, b.1, c.1);
    lemma_seq_lt_order(b.1, a.1, c.1);
    lemma_seq_lt_order(a.1, c.1, b.1);
}

/// What `markdup` decides for the profiles of a file.
pub struct MarkdupPlan {
    /// For each profile, whether it is a duplicate.
    pub is_dup: Vec<bool>,
    /// For each profile, its group number, or 0 when it is not a duplicate.
    pub group: Vec<u64>,
    /// The duplicate profiles, in report order.
    pub report: Vec<usize>,
}

/// The sort key of the report row of profile `i`.
pub open spec fn row_key(
    keys: Seq<Option<(Seq<char>, i64, i64)>>,
    profiles: Seq<(Seq<char>, u32)>,
    i: int,
) -> (nat, Seq<char>, u32) {
    (group_of(keys, keys[i]->0), profiles[i].0, profiles[i].1)
}

/// The plan is the one `markdup` makes for profiles with these keys.
pub open spec fn plans(
    keys: Seq<Option<(Seq<char>, i64, i64)>>,
    profiles: Seq<(Seq<char>, u32)>,
    p: MarkdupPlan,
) -> bool {
    &&& p.is_dup.len() == keys.len()
    &&& p.group.len() == keys.len()
    &&& forall|i: int| 0 <= i < keys.len() ==> #[trigger] p.is_dup@[i] == is_duplicate(keys, i)
    &&& forall|i: int|
        0 <= i < keys.len() ==> #[trigger] p.group@[i] == if is_duplicate(keys, i) {
            group_of(keys, keys[i]->0) as int
        } else {
            0
        }
    &&& forall|i: int| 0 <= i < keys.len() ==> (is_duplicate(keys, i) <==> #[trigger] p.report@.contains(i as usize))
    &&& forall|a: int, b: int|
        0 <= a < b < p.report.len() ==> row_lt(
            row_key(keys, profiles, p.report@[a] as int),
            row_key(keys, profiles, p.report@[b] as int),
        )
}

/// For each profile, whether it is a duplicate.
fn duplicate_flags(keys: &Vec<Option<DupKey>>) -> (flags: Vec<bool>)
    ensures
        flags.len() == keys.len(),
        forall|i: int| 0 <= i < keys.len() ==> #[trigger] flags@[i] == is_duplicate(key_views(keys@), i),
{
    let ghost kv = key_views(keys@);
    let mut counts: StringHashMap<u64> = StringHashMap::new();
    let mut i: usize = 0;
    while i < keys.len()
        invariant
            i <= keys.len(),
            kv == key_views(keys@),
            kv.len() == keys.len(),
            forall|t: Seq<char>| #[trigger] counts@.contains_key(t) ==> exists|k: (Seq<char>, i64, i64)|
                key_text(k) == t && counts@[t] == key_count(kv, k, i as int) && key_count(kv, k, i as int) > 0,
            forall|k: (Seq<char>, i64, i64)| key_count(kv, k, i as int) > 0 ==> #[trigger] counts@.contains_key(key_text(k)),
            forall|k: (Seq<char>, i64, i64)| #[trigger] key_count(kv, k, i as int) <= i,
        decreases keys.len() - i,
    {
        match &keys[i] {
            None => {
                proof {
                    assert forall|k: (Seq<char>, i64, i64)| #[trigger] key_count(kv, k, i as int + 1) == key_count(kv, k, i as int) by {
                        assert(kv[i as int] is None);
                    }
                }
            },
            Some(k) => {
                let t = key_text_of(k);
                let ghost kk = key_view(*k);
                proof {
                    assert(kv[i as int] == Some(kk));
                    assert forall|k2: (Seq<char>, i64, i64)| #[trigger] key_count(kv, k2, i as int + 1) == key_count(kv, k2, i as int) + if k2 == kk { 1nat } else { 0nat } by {}
                }
                let c: u64 = match counts.get(t.as_str()) {
                    Some(c) => *c,
                    None => 0,
                };
                proof {
                    if counts@.contains_key(t@) {
                        let k2 = choose|k2: (Seq<char>, i64, i64)|
                            key_text(k2) == t@ && counts@[t@] == key_count(kv, k2, i as int) && key_count(kv, k2, i as int) > 0;
                        lemma_key_text_injective(k2, kk);
                    } else {
                        if key_count(kv, kk, i as int) > 0 {
                            assert(counts@.contains_key(key_text(kk)));
                        }
                    }
                    assert(c == key_count(kv, kk, i as int));
                }
                let ghost before = counts@;
                counts.insert(t, c + 1);
                proof {
                    assert forall|u: Seq<char>| #[trigger] counts@.contains_key(u) implies exists|k2: (Seq<char>, i64, i64)|
                        key_text(k2) == u && counts@[u] == key_count(kv, k2, i as int + 1) && key_count(kv, k2, i as int + 1) > 0 by {
                        if u == key_text(kk) {
                            assert(key_text(kk) == u && counts@[u] == key_count(kv, kk, i as int + 1));
                        } else {
                            let k2 = choose|k2: (Seq<char>, i64, i64)|
                                key_text(k2) == u && before[u] == key_count(kv, k2, i as int) && key_count(kv, k2, i as int) > 0;
                            assert(k2 != kk);
                            assert(key_count(kv, k2, i as int + 1) == key_count(kv, k2, i as int));
                        }
                    }
                }
            },
        }
        i += 1;
    }
    let mut flags: Vec<bool> = Vec::new();
    let mut i: usize = 0;
    while i < keys.len()
        invariant
            i <= keys.len(),
            kv == key_views(keys@),
            kv.len() == keys.len(),
            flags.len() == i,
            forall|t: Seq<char>| #[trigger] counts@.contains_key(t) ==> exists|k: (Seq<char>, i64, i64)|
                key_text(k) == t && counts@[t] == key_count(kv, k, keys.len() as int) && key_count(kv, k, keys.len() as int) > 0,
            forall|k: (Seq<char>, i64, i64)| key_count(kv, k, keys.len() as int) > 0 ==> #[trigger] counts@.contains_key(key_text(k)),
            forall|j: int| 0 <= j < i ==> #[trigger] flags@[j] == is_duplicate(kv, j),
        decreases keys.len() - i,
    {
        let f = match &keys[i] {
            None => false,
            Some(k) => {
                let t = key_text_of(k);
                let ghost kk = key_view(*k);
                proof {
                    assert(kv[i as int] == Some(kk));
                    lemma_key_count(kv, kk, i as int, keys.len() as int);
                    assert(counts@.contains_key(key_text(kk)));
                    let k2 = choose|k2: (Seq<char>, i64, i64)|
                        key_text(k2) == t@ && counts@[t@] == key_count(kv, k2, keys.len() as int) && key_count(kv, k2, keys.len() as int) > 0;
                    lemma_key_text_injective(k2, kk);
                }
                match counts.get(t.as_str()) {
                    Some(c) => *c > 1,
                    None => false,
                }
            },
        };
        flags.push(f);
        i += 1;
    }
    flags
}

/// The distinct keys of the duplicate profiles, in profile order, with the
/// position of each key's text in that list.
fn distinct_dup_keys(keys: &Vec<Option<DupKey>>, flags: &Vec<bool>) -> (r: (Vec<DupKey>, StringHashMap<usize>))
    requires
        flags.len() == keys.len(),
        forall|i: int| 0 <= i < keys.len() ==> #[trigger] flags@[i] == is_duplicate(key_views(keys@), i),
    ensures
        r.0@.map_values(|k: DupKey| key_view(k)) == dup_keys(key_views(keys@), keys.len() as int),
        forall|d: int| 0 <= d < r.0.len() ==> #[trigger] r.1@.contains_key(key_text(key_view(r.0@[d]))) && r.1@[key_text(key_view(r.0@[d]))] == d,
{
    let ghost kv = key_views(keys@);
    let mut dk: Vec<DupKey> = Vec::new();
    let mut index: StringHashMap<usize> = StringHashMap::new();
    let mut i: usize = 0;
    while i < keys.len()
        invariant
            i <= keys.len(),
            flags.len() == keys.len(),
            kv == key_views(keys@),
            kv.len() == keys.len(),
            forall|j: int| 0 <= j < keys.len() ==> #[trigger] flags@[j] == is_duplicate(kv, j),
            dk@.map_values(|k: DupKey| key_view(k)) == dup_keys(kv, i as int),
            forall|d: int| 0 <= d < dk.len() ==> #[trigger] index@.contains_key(key_text(key_view(dk@[d]))) && index@[key_text(key_view(dk@[d]))] == d,
            forall|t: Seq<char>| #[trigger] index@.contains_key(t) ==> index@[t] < dk.len() && key_text(key_view(dk@[index@[t] as int])) == t,
        decreases keys.len() - i,
    {
        if flags[i] {
            match &keys[i] {
                None => {},
                Some(k) => {
                    let t = key_text_of(k);
                    let ghost kk = key_view(*k);
                    let ghost prev = dup_keys(kv, i as int);
                    proof {
                        assert(kv[i as int] == Some(kk));
                    }
                    if !index.contains_key(t.as_str()) {
                        proof {
                            if prev.contains(kk) {
                                let d = choose|d: int| 0 <= d < prev.len() && prev[d] == kk;
                                assert(key_view(dk@[d]) == kk);
                                assert(index@.contains_key(key_text(key_view(dk@[d]))));
                            }
                        }
                        let ghost before = dk@;
                        let pos = dk.len();
                        let kc: DupKey = (k.0.clone(), k.1, k.2);
                        proof {
                            assert(key_view(kc) == kk);
                        }
                        dk.push(kc);
                        index.insert(t, pos);
                        proof {
                            assert(dk@.map_values(|k: DupKey| key_view(k)) =~= before.map_values(|k: DupKey| key_view(k)).push(kk));
                            assert forall|d: int| 0 <= d < dk.len() implies #[trigger] index@.contains_key(key_text(key_view(dk@[d]))) && index@[key_text(key_view(dk@[d]))] == d by {
                                if d < pos {
                                    assert(dk@[d] == before[d]);
                                    lemma_key_text_injective(key_view(before[d]), kk);
                                    if key_text(key_view(before[d])) == key_text(kk) {
                                        assert(prev[d] == kk);
                                    }
                                }
                            }
                        }
                    } else {
                        proof {
                            let d = index@[t@] as int;
                            lemma_key_text_injective(key_view(dk@[d]), kk);
                            assert(prev[d] == kk);
                            assert(prev.contains(kk));
                        }
                    }
                },
            }
        } else {
            proof {
                assert(!is_duplicate(kv, i as int));
            }
        }
        i += 1;
    }
    (dk, index)
}

/// Whether the key `a` comes before the key `b`, the formatted times given as
/// characters.
fn dupkey_lt(a: &DupKey, ac: &Vec<char>, b: &DupKey, bc: &Vec<char>) -> (r: bool)
    requires
        ac@ == a.0@,
        bc@ == b.0@,
    ensures
        r == key_lt(key_view(*a), key_view(*b)),
{
    if chars_lt(ac, bc) {
        return true;
    }
    if chars_lt(bc, ac) {
        return false;
    }
    proof {
        lemma_seq_lt_order(a.0@, b.0@, b.0@);
    }
    a.1 < b.1 || (a.1 == b.1 && a.2 < b.2)
}

/// The group number of each distinct duplicated key.
fn group_numbers(dk: &Vec<DupKey>) -> (g: Vec<u64>)
    ensures
        g.len() == dk.len(),
        forall|d: int| 0 <= d < dk.len() ==> #[trigger] g@[d] == 1 + count_below(
            dk@.map_values(|k: DupKey| key_view(k)),
            key_view(dk@[d]),
        ),
{
    let ghost dkv = dk@.map_values(|k: DupKey| key_view(k));
    let mut times: Vec<Vec<char>> = Vec::new();
    let mut e: usize = 0;
    while e < dk.len()
        invariant
            e <= dk.len(),
            times.len() == e,
            forall|x: int| 0 <= x < e ==> (#[trigger] times@[x])@ == dk@[x].0@,
        decreases dk.len() - e,
    {
        times.push(chars_of(dk[e].0.as_str()));
        e += 1;
    }
    let mut g: Vec<u64> = Vec::new();
    let mut d: usize = 0;
    while d < dk.len()
        invariant
            d <= dk.len(),
            times.len() == dk.len(),
            forall|x: int| 0 <= x < dk.len() ==> (#[trigger] times@[x])@ == dk@[x].0@,
            dkv == dk@.map_values(|k: DupKey| key_view(k)),
            g.len() == d,
            forall|x: int| 0 <= x < d ==> #[trigger] g@[x] == 1 + count_below(dkv, key_view(dk@[x])),
        decreases dk.len() - d,
    {
        let mut c: u64 = 0;
        let mut e: usize = 0;
        while e < dk.len()
            invariant
                e <= dk.len(),
                d < dk.len(),
                times.len() == dk.len(),
                forall|x: int| 0 <= x < dk.len() ==> (#[trigger] times@[x])@ == dk@[x].0@,
                dkv == dk@.map_values(|k: DupKey| key_view(k)),
                c == count_below(dkv.take(e as int), key_view(dk@[d as int])),
                c + (if d < e { 1int } else { 0int }) <= e,
            decreases dk.len() - e,
        {
            proof {
                assert(dkv.take(e as int + 1).drop_last() =~= dkv.take(e as int));
                assert(dkv.take(e as int + 1).last() == key_view(dk@[e as int]));
                lemma_key_lt_order(key_view(dk@[d as int]), key_view(dk@[d as int]), key_view(dk@[d as int]));
            }
            if dupkey_lt(&dk[e], &times[e], &dk[d], &times[d]) {
                c = c + 1;
            }
            e += 1;
        }
        proof {
            assert(dkv.take(dk.len() as int) =~= dkv);
        }
        g.push(c + 1);
        d += 1;
    }
    g
}

/// Every duplicate profile's key is among the distinct duplicated keys.
proof fn lemma_dup_keys_contains(keys: Seq<Option<(Seq<char>, i64, i64)>>, i: int, m: int)
    requires
        0 <= i < m <= keys.len(),
        is_duplicate(keys, i),
    ensures
        dup_keys(keys, m).contains(keys[i]->0),
    decreases m,
{
    let prev = dup_keys(keys, m - 1);
    if i < m - 1 {
        lemma_dup_keys_contains(keys, i, m - 1);
        let d = choose|d: int| 0 <= d < prev.len() && prev[d] == keys[i]->0;
        if is_duplicate(keys, m - 1) && !prev.contains(keys[m - 1]->0) {
            assert(dup_keys(keys, m)[d] == keys[i]->0);
        }
    } else {
        if !prev.contains(keys[i]->0) {
            assert(dup_keys(keys, m)[prev.len() as int] == keys[i]->0);
        }
    }
}

/// Whether report row `a` comes before report row `b`.
fn row_before(g: &Vec<u64>, plats: &Vec<Vec<char>>, pns: &Vec<u32>, a: usize, b: usize) -> (r: bool)
    requires
        a < g.len(),
        b < g.len(),
        plats.len() == g.len(),
        pns.len() == g.len(),
    ensures
        r == row_lt((g@[a as int] as nat, plats@[a as int]@, pns@[a as int]), (g@[b as int] as nat, plats@[b as int]@, pns@[b as int])),
{
    if g[a] != g[b] {
        return g[a] < g[b];
    }
    if chars_lt(&plats[a], &plats[b]) {
        return true;
    }
    if chars_lt(&plats[b], &plats[a]) {
        return false;
    }
    proof {
        lemma_seq_lt_order(plats@[a as int]@, plats@[b as int]@, plats@[b as int]@);
    }
    pns[a] < pns[b]
}

/// The duplicate profiles sorted by their report rows.
fn report_order(is_dup: &Vec<bool>, g: &Vec<u64>, plats: &Vec<Vec<char>>, pns: &Vec<u32>) -> (out: Vec<usize>)
    requires
        is_dup.len() == g.len(),
        plats.len() == g.len(),
        pns.len() == g.len(),
        forall|x: int, y: int|
            0 <= x < g.len() && 0 <= y < g.len() && x != y && is_dup@[x] && is_dup@[y] ==> (plats@[x]@, pns@[x]) != (
                plats@[y]@,
                pns@[y],
            ),
    ensures
        forall|x: int| 0 <= x < g.len() ==> (is_dup@[x] <==> #[trigger] out@.contains(x as usize)),
        forall|x: int| 0 <= x < out.len() ==> #[trigger] out@[x] < g.len(),
        forall|a: int, b: int|
            0 <= a < b < out.len() ==> row_lt(
                (g@[out@[a] as int] as nat, plats@[out@[a] as int]@, pns@[out@[a] as int]),
                (g@[out@[b] as int] as nat, plats@[out@[b] as int]@, pns@[out@[b] as int]),
            ),
{
    let ghost rk = |x: int| (g@[x] as nat, plats@[x]@, pns@[x]);
    let mut out: Vec<usize> = Vec::new();
    let mut i: usize = 0;
    while i < g.len()
        invariant
            i <= g.len(),
            is_dup.len() == g.len(),
            plats.len() == g.len(),
            pns.len() == g.len(),
            rk == (|x: int| (g@[x] as nat, plats@[x]@, pns@[x])),
            forall|x: int, y: int|
                0 <= x < g.len() && 0 <= y < g.len() && x != y && is_dup@[x] && is_dup@[y] ==> (plats@[x]@, pns@[x]) != (
                    plats@[y]@,
                    pns@[y],
                ),
            forall|x: int| 0 <= x < g.len() ==> (#[trigger] out@.contains(x as usize) <==> (x < i && is_dup@[x])),
            forall|x: int| 0 <= x < out.len() ==> #[trigger] out@[x] < i && is_dup@[out@[x] as int],
            forall|a: int, b: int| 0 <= a < b < out.len() ==> row_lt(rk(out@[a] as int), rk(out@[b] as int)),
        decreases g.len() - i,
    {
        if is_dup[i] {
            let mut lo: usize = 0;
            let mut hi: usize = out.len();
            while lo < hi
                invariant
                    lo <= hi <= out.len(),
                    i < g.len(),
                    is_dup.len() == g.len(),
                    plats.len() == g.len(),
                    pns.len() == g.len(),
                    rk == (|x: int| (g@[x] as nat, plats@[x]@, pns@[x])),
                    forall|x: int| 0 <= x < out.len() ==> #[trigger] out@[x] < i && is_dup@[out@[x] as int],
                    forall|a: int, b: int| 0 <= a < b < out.len() ==> row_lt(rk(out@[a] as int), rk(out@[b] as int)),
                    forall|a: int| 0 <= a < lo ==> row_lt(rk(#[trigger] out@[a] as int), rk(i as int)),
                    forall|a: int| hi <= a < out.len() ==> !row_lt(rk(#[trigger] out@[a] as int), rk(i as int)),
                decreases hi - lo,
            {
                let mid = lo + (hi - lo) / 2;
                if row_before(g, plats, pns, out[mid], i) {
                    proof {
                        assert forall|a: int| 0 <= a < mid + 1 implies row_lt(rk(#[trigger] out@[a] as int), rk(i as int)) by {
                            if a < mid {
                                lemma_row_lt_order(rk(out@[a] as int), rk(out@[mid as int] as int), rk(i as int));
                            }
                        }
                    }
                    lo = mid + 1;
                } else {
                    proof {
                        assert forall|a: int| mid <= a < out.len() implies !row_lt(rk(#[trigger] out@[a] as int), rk(i as int)) by {
                            if a > mid {
                                lemma_row_lt_order(rk(out@[mid as int] as int), rk(out@[a] as int), rk(i as int));
                            }
                        }
                    }
                    hi = mid;
                }
            }
            let ghost before = out@;
            out.insert(lo, i);
            proof {
                assert forall|a: int, b: int| 0 <= a < b < out.len() implies row_lt(rk(out@[a] as int), rk(out@[b] as int)) by {
                    if b == lo {
                        assert(out@[a] == before[a]);
                    } else if a == lo {
                        let x = before[b - 1] as int;
                        assert(out@[b] == before[b - 1]);
                        assert(x != i);
                        assert(rk(x) != rk(i as int));
                        lemma_row_lt_order(rk(i as int), rk(x), rk(x));
                    } else if a < lo && b > lo {
                        assert(out@[a] == before[a]);
                        assert(out@[b] == before[b - 1]);
                    } else if a < lo {
                        assert(out@[a] == before[a]);
                        assert(out@[b] == before[b]);
                    } else {
                        assert(out@[a] == before[a - 1]);
                        assert(out@[b] == before[b - 1]);
                    }
                }
                assert forall|x: int| 0 <= x < g.len() implies (#[trigger] out@.contains(x as usize) <==> (x < i + 1 && is_dup@[x])) by {
                    if out@.contains(x as usize) {
                        let k = choose|k: int| 0 <= k < out.len() && out@[k] == x as usize;
                        if k < lo {
                            assert(before[k] == x as usize);
                        } else if k > lo {
                            assert(before[k - 1] == x as usize);
                        }
                    }
                    if x < i && is_dup@[x] {
                        assert(before.contains(x as usize));
                        let k = choose|k: int| 0 <= k < before.len() && before[k] == x as usize;
                        if k < lo {
                            assert(out@[k] == x as usize);
                        } else {
                            assert(out@[k + 1] == x as usize);
                        }
                    }
                    if x == i {
                        assert(out@[lo as int] == x as usize);
                    }
                }
                assert forall|x: int| 0 <= x < out.len() implies #[trigger] out@[x] < i + 1 && is_dup@[out@[x] as int] by {
                    if x < lo {
                        assert(out@[x] == before[x]);
                    } else if x > lo {
                        assert(out@[x] == before[x - 1]);
                    }
                }
            }
        }
        i += 1;
    }
    out
}

/// What `markdup` decides for the profiles of a tally: which are
/// duplicates, their group numbers, and the order of the report.
pub fn markdup_plan(opts: &KeyOpts, tally: &ProfileTally<(Option<i64>, Option<i64>, Option<i64>)>) -> (p: MarkdupPlan)
    requires
        tally.wf(),
    ensures
        plans(profile_keys(opts.time_format@, tally.first_values()), tally.profiles(), p),
{
    proof {
        lemma_tally(tally);
    }
    let keys = keys_of_tally(opts, tally);
    let ghost kv = key_views(keys@);
    let flags = duplicate_flags(&keys);
    let (dk, index) = distinct_dup_keys(&keys, &flags);
    let ghost dkv = dk@.map_values(|k: DupKey| key_view(k));
    let g = group_numbers(&dk);
    let n = keys.len();
    let mut group: Vec<u64> = Vec::new();
    let mut plats: Vec<Vec<char>> = Vec::new();
    let mut pns: Vec<u32> = Vec::new();
    let mut i: usize = 0;
    while i < n
        invariant
            tally.wf(),
            tally.profiles().len() == n,
            tally.profiles().no_duplicates(),
            n == keys.len(),
            kv == key_views(keys@),
            kv.len() == n,
            flags.len() == n,
            forall|j: int| 0 <= j < n ==> #[trigger] flags@[j] == is_duplicate(kv, j),
            dkv == dk@.map_values(|k: DupKey| key_view(k)),
            dkv == dup_keys(kv, n as int),
            forall|d: int| 0 <= d < dk.len() ==> #[trigger] index@.contains_key(key_text(key_view(dk@[d]))) && index@[key_text(key_view(dk@[d]))] == d,
            g.len() == dk.len(),
            forall|d: int| 0 <= d < dk.len() ==> #[trigger] g@[d] == 1 + count_below(dkv, key_view(dk@[d])),
            i <= n,
            group.len() == i,
            plats.len() == i,
            pns.len() == i,
            forall|j: int| 0 <= j < i ==> #[trigger] group@[j] == if is_duplicate(kv, j) {
                group_of(kv, kv[j]->0) as int
            } else {
                0
            },
            forall|j: int| 0 <= j < i ==> (#[trigger] plats@[j])@ == tally.profiles()[j].0 && pns@[j] == tally.profiles()[j].1,
        decreases n - i,
    {
        let (platform, pn) = tally.profile_at(i);
        plats.push(chars_of(platform.as_str()));
        pns.push(pn);
        let gi: u64 = if flags[i] {
            match &keys[i] {
                Some(k) => {
                    let t = key_text_of(k);
                    proof {
                        assert(kv[i as int] == Some(key_view(*k)));
                        lemma_dup_keys_contains(kv, i as int, n as int);
                    }
                    let ghost d = choose|d: int| 0 <= d < dkv.len() && dkv[d] == key_view(*k);
                    proof {
                        assert(key_view(dk@[d]) == key_view(*k));
                    }
                    match index.get(t.as_str()) {
                        Some(d2) => {
                            let d2 = *d2;
                            proof {
                                assert(d2 == d);
                            }
                            g[d2]
                        },
                        None => {
                            proof {
                                assert(false);
                            }
                            0
                        },
                    }
                },
                None => {
                    proof {
                        assert(false);
                    }
                    0
                },
            }
        } else {
            0
        };
        group.push(gi);
        i += 1;
    }
    let report = report_order(&flags, &group, &plats, &pns);
    proof {
        assert forall|a: int, b: int| 0 <= a < b < report.len() implies row_lt(
            row_key(kv, tally.profiles(), report@[a] as int),
            row_key(kv, tally.profiles(), report@[b] as int),
        ) by {
            let x = report@[a] as int;
            let y = report@[b] as int;
            assert(report@[a] < n && report@[b] < n);
            assert(report@.contains(x as usize));
            assert(report@.contains(y as usize));
            assert(flags@[x] && flags@[y]);
            assert(row_key(kv, tally.profiles(), x) == (group@[x] as nat, plats@[x]@, pns@[x]));
            assert(row_key(kv, tally.profiles(), y) == (group@[y] as nat, plats@[y]@, pns@[y]));
        }
        assert(kv == profile_keys(opts.time_format@, tally.first_values()));
    }
    MarkdupPlan { is_dup: flags, group, report }
}

} // verus!
