//! Concatenation: the configuration of `concat convert`, the partition of
//! platforms into bounded work ranges, and the merge of header mappings.

use vstd::prelude::*;
use vstd::hash_map::StringHashMap;

use crate::batch::{collect_nc_files, glob_pattern_valid, path_file_name, select_matching, GlobPattern};
use crate::dupkey::{int_decimal, lemma_int_decimal, lemma_split_at_comma};
use crate::order::{chars_lt, chars_of, lemma_seq_lt_order, seq_lt, sort_distinct};
use crate::error::CtdError;
use crate::text::{decimal, push_char, push_str, str_views, u64_to_decimal};

verus! {

/// Configuration for the `concat` command.
#[derive(Debug)]
pub struct ConcatConfig {
    /// Glob pattern matched against filenames only (default: `*.parquet`).
    pub pattern: String,
    /// Re-assign `profile_no` and `observation_no` after merging (default: `true`).
    pub renumber: bool,
    /// Include `pres` as the final sort key when renumbering (default: `true`).
    pub sort_by_pres: bool,
    /// Drop rows whose `pres` is null or NaN before merging (default: `true`).
    pub drop_na_pres: bool,
    /// Number of range workers for the renumber path; `None` uses all cores.
    pub threads: Option<usize>,
}

impl ConcatConfig {
    /// The defaults: `*.parquet`, renumber, sort by `pres`, drop missing `pres`,
    /// all cores.
    pub fn default() -> (c: Self)
        ensures
            c.pattern@ == "*.parquet"@,
            c.renumber,
            c.sort_by_pres,
            c.drop_na_pres,
            c.threads is None,
    {
        ConcatConfig {
            pattern: String::from_str("*.parquet"),
            renumber: true,
            sort_by_pres: true,
            drop_na_pres: true,
            threads: None,
        }
    }
}

/// Sum of the counts `s[lo..=hi]`.
pub open spec fn range_sum(s: Seq<u64>, lo: int, hi: int) -> int
    decreases hi - lo + 1,
{
    if hi < lo {
        0
    } else {
        range_sum(s, lo, hi - 1) + s[hi] as int
    }
}

/// `ranges` splits the indices `0..counts.len()` into consecutive inclusive
/// `(lo, hi)` ranges, greedily from the left: each range takes following
/// entries while its total stays within `budget`, and holds a single entry
/// when that entry alone exceeds the budget.
pub open spec fn is_greedy_partition(counts: Seq<u64>, budget: int, ranges: Seq<(usize, usize)>) -> bool {
    &&& (ranges.len() == 0 <==> counts.len() == 0)
    &&& ranges.len() > 0 ==> ranges[0].0 == 0
    &&& ranges.len() > 0 ==> ranges[ranges.len() - 1].1 + 1 == counts.len()
    &&& forall|i: int| 0 <= i < ranges.len() - 1 ==> #[trigger] ranges[i + 1].0 == ranges[i].1 + 1
    &&& forall|i: int| 0 <= i < ranges.len() ==> #[trigger] ranges[i].0 <= ranges[i].1
    &&& forall|i: int|
        0 <= i < ranges.len() ==> range_sum(counts, #[trigger] ranges[i].0 as int, ranges[i].1 as int)
            <= budget || ranges[i].0 == ranges[i].1
    &&& forall|i: int|
        0 <= i < ranges.len() && #[trigger] ranges[i].1 + 1 < counts.len() ==> range_sum(
            counts,
            ranges[i].0 as int,
            ranges[i].1 as int,
        ) + counts[ranges[i].1 + 1] > budget
}

/// Partition consecutive entries (platforms in ascending `platform_code` order,
/// given by their row counts) into `(lo, hi)` index ranges holding at most
/// `budget` rows each; a single entry larger than the budget forms its own range.
pub fn partition_count_ranges(counts: &Vec<u64>, budget: u64) -> (r: Vec<(usize, usize)>)
    ensures
        is_greedy_partition(counts@, budget as int, r@),
{
    let n = counts.len();
    let mut ranges: Vec<(usize, usize)> = Vec::new();
    let mut i: usize = 0;
    while i < n
        invariant
            i <= n == counts.len(),
            (ranges.len() == 0 <==> i == 0),
            ranges.len() > 0 ==> ranges@[0].0 == 0,
            ranges.len() > 0 ==> ranges@[ranges.len() - 1].1 + 1 == i,
            forall|k: int| 0 <= k < ranges.len() - 1 ==> #[trigger] ranges@[k + 1].0 == ranges@[k].1 + 1,
            forall|k: int| 0 <= k < ranges.len() ==> #[trigger] ranges@[k].0 <= ranges@[k].1,
            forall|k: int|
                0 <= k < ranges.len() ==> range_sum(
                    counts@,
                    #[trigger] ranges@[k].0 as int,
                    ranges@[k].1 as int,
                ) <= budget || ranges@[k].0 == ranges@[k].1,
            forall|k: int|
                0 <= k < ranges.len() && #[trigger] ranges@[k].1 + 1 < n ==> range_sum(
                    counts@,
                    ranges@[k].0 as int,
                    ranges@[k].1 as int,
                ) + counts@[ranges@[k].1 + 1] > budget,
        decreases n - i,
    {
        let lo = i;
        let mut sum: u64 = counts[i];
        let mut j: usize = i;
        assert(range_sum(counts@, lo as int, lo as int) == counts@[lo as int]) by {
            assert(range_sum(counts@, lo as int, lo - 1) == 0);
        }
        while j + 1 < n && sum <= budget && counts[j + 1] <= budget - sum
            invariant
                lo <= j < n == counts.len(),
                sum == range_sum(counts@, lo as int, j as int),
                sum <= budget || j == lo,
            decreases n - j,
        {
            j = j + 1;
            sum = sum + counts[j];
        }
        ranges.push((lo, j));
        i = j + 1;
    }
    ranges
}

/// The row counts of `(platform_code, rows)` entries.
pub open spec fn platform_counts(platforms: Seq<(String, u64)>) -> Seq<u64> {
    platforms.map_values(|p: (String, u64)| p.1)
}

/// `names` holds the first and last platform names of each index range.
pub open spec fn names_of_ranges(
    platforms: Seq<(String, u64)>,
    idx: Seq<(usize, usize)>,
    names: Seq<(String, String)>,
) -> bool {
    &&& idx.len() == names.len()
    &&& forall|i: int|
        0 <= i < names.len() ==> #[trigger] names[i].0@ == platforms[idx[i].0 as int].0@
            && names[i].1@ == platforms[idx[i].1 as int].0@
}

/// Partition platforms, given in ascending `platform_code` order with their
/// observation row counts, into contiguous `(first, last)` platform ranges of
/// at most `budget` rows each (see `partition_count_ranges`).
pub fn partition_platform_ranges(platforms: &Vec<(String, u64)>, budget: u64) -> (r: Vec<(String, String)>)
    ensures
        exists|idx: Seq<(usize, usize)>|
            #![trigger is_greedy_partition(platform_counts(platforms@), budget as int, idx)]
            is_greedy_partition(platform_counts(platforms@), budget as int, idx) && names_of_ranges(
                platforms@,
                idx,
                r@,
            ),
{
    let mut counts: Vec<u64> = Vec::new();
    let mut k: usize = 0;
    while k < platforms.len()
        invariant
            k <= platforms.len(),
            counts@ == platform_counts(platforms@.subrange(0, k as int)),
        decreases platforms.len() - k,
    {
        counts.push(platforms[k].1);
        k = k + 1;
        assert(counts@ =~= platform_counts(platforms@.subrange(0, k as int)));
    }
    assert(platforms@.subrange(0, k as int) =~= platforms@);
    assert(counts@ =~= platform_counts(platforms@));
    let idx = partition_count_ranges(&counts, budget);
    let mut r: Vec<(String, String)> = Vec::new();
    let mut i: usize = 0;
    while i < idx.len()
        invariant
            i <= idx.len(),
            is_greedy_partition(counts@, budget as int, idx@),
            counts@ == platform_counts(platforms@),
            counts.len() == platforms.len(),
            r.len() == i,
            forall|q: int|
                0 <= q < i ==> #[trigger] r@[q].0@ == platforms@[idx@[q].0 as int].0@
                    && r@[q].1@ == platforms@[idx@[q].1 as int].0@,
        decreases idx.len() - i,
    {
        let (lo, hi) = idx[i];
        assert(lo <= hi);
        proof {
            lemma_partition_in_range(counts@, budget as int, idx@, i as int);
        }
        r.push((platforms[lo].0.clone(), platforms[hi].0.clone()));
        i = i + 1;
    }
    assert(is_greedy_partition(platform_counts(platforms@), budget as int, idx@));
    assert(names_of_ranges(platforms@, idx@, r@));
    r
}

/// Every range of a greedy partition lies within the entries.
pub proof fn lemma_partition_in_range(counts: Seq<u64>, budget: int, ranges: Seq<(usize, usize)>, i: int)
    requires
        is_greedy_partition(counts, budget, ranges),
        0 <= i < ranges.len(),
    ensures
        ranges[i].1 < counts.len(),
    decreases ranges.len() - i,
{
    if i + 1 < ranges.len() {
        assert(ranges[i + 1].0 == ranges[i].1 + 1);
        lemma_partition_in_range(counts, budget, ranges, i + 1);
        assert(ranges[i + 1].0 <= ranges[i + 1].1);
    }
}

/// What `std::path::Path::with_file_name` gives for `path` and `name`.
pub uninterp spec fn path_with_file_name(path: Seq<char>, name: Seq<char>) -> Seq<char>;

/// Trusted: the body is `std::path::Path::with_file_name`, converted back to a
/// `String`; the path of two UTF-8 strings is UTF-8, so nothing is lost.
#[verifier::external_body]
fn with_file_name(path: &str, name: &str) -> (r: String)
    ensures
        r@ == path_with_file_name(path@, name@),
{
    std::path::Path::new(path).with_file_name(name).to_string_lossy().into_owned()
}

/// `s` padded on the left with zeros to at least `width` characters.
pub open spec fn zero_padded(s: Seq<char>, width: nat) -> Seq<char> {
    if s.len() >= width {
        s
    } else {
        Seq::new((width - s.len()) as nat, |i: int| '0') + s
    }
}

/// The name of the temporary file of range `i`: the output's file name (or
/// `concat_output` when it has none), `.concat-tmp-` and the range number in
/// at least five digits. It has no `.parquet` extension, so a later
/// `*.parquet` scan never picks up a stray temporary file.
pub open spec fn temp_name(output: Seq<char>, i: nat) -> Seq<char> {
    let base = match path_file_name(output) {
        Some(n) => n,
        None => "concat_output"@,
    };
    base + ".concat-tmp-"@ + zero_padded(decimal(i), 5)
}

/// The inputs of a concatenation: the files found under `src_dir` whose file
/// name matches `pattern`, in their order. A pattern that is no glob, or one
/// that matches no file, is refused: nothing would be written.
pub fn concat_inputs(files: &Vec<String>, src_dir: &str, pattern: &str) -> (r: Result<Vec<String>, CtdError>)
    ensures
        r is Ok <==> glob_pattern_valid(pattern@) && select_matching(str_views(files@), pattern@).len() > 0,
        r matches Ok(v) ==> str_views(v@) == select_matching(str_views(files@), pattern@),
        !glob_pattern_valid(pattern@) ==> (r matches Err(CtdError::InvalidPattern { pattern: p, .. }) && p@
            == pattern@),
        glob_pattern_valid(pattern@) && select_matching(str_views(files@), pattern@).len() == 0 ==> (r matches Err(
            CtdError::NoMatchingFiles { pattern: p, dir },
        ) && p@ == pattern@ && dir@ == src_dir@),
{
    let selected = match collect_nc_files(files, pattern) {
        Ok(v) => v,
        Err(e) => return Err(e),
    };
    if selected.len() == 0 {
        return Err(CtdError::NoMatchingFiles { pattern: pattern.to_owned(), dir: src_dir.to_owned() });
    }
    Ok(selected)
}

/// The path of the temporary file of range `i`, beside the output.
pub fn temp_path_for(output: &str, i: usize) -> (r: String)
    ensures
        r@ == path_with_file_name(output@, temp_name(output@, i as nat)),
{
    let mut name = match crate::batch::file_name_of(output) {
        Some(n) => n,
        None => String::from_str("concat_output"),
    };
    let suffix = String::from_str(".concat-tmp-");
    push_str(&mut name, suffix.as_str());
    let digits = u64_to_decimal(i as u64);
    let n = digits.as_str().unicode_len();
    let mut k: usize = n;
    let ghost start = name@;
    while k < 5
        invariant
            n <= k <= 5 || (n > 5 && k == n),
            n == decimal(i as nat).len(),
            name@ == start + Seq::new((k - n) as nat, |j: int| '0'),
        decreases 5 - k,
    {
        push_char(&mut name, '0');
        proof {
            assert(Seq::new((k + 1 - n) as nat, |j: int| '0') =~= Seq::new((k - n) as nat, |j: int| '0').push('0'));
        }
        k += 1;
    }
    let ghost zeros = name@.skip(start.len() as int);
    push_str(&mut name, digits.as_str());
    proof {
        reveal_strlit("concat_output");
        reveal_strlit(".concat-tmp-");
        if n >= 5 {
            assert(Seq::new((k - n) as nat, |j: int| '0') =~= Seq::<char>::empty());
        }
        assert(name@ =~= temp_name(output@, i as nat));
    }
    with_file_name(output, name.as_str())
}

/// The number of range workers: an explicit count (at least one), or the
/// available parallelism when none is given.
pub fn worker_count(threads: Option<usize>, available: usize) -> (r: usize)
    ensures
        r == match threads {
            Some(n) => if n > 1 { n } else { 1 },
            None => available,
        },
{
    match threads {
        Some(n) => if n > 1 {
            n
        } else {
            1
        },
        None => available,
    }
}

/// The entries kept by a header merge: each key's first entry, in order.
pub open spec fn first_entries<V>(entries: Seq<(String, String, V)>) -> Seq<(Seq<char>, V)>
    decreases entries.len(),
{
    if entries.len() == 0 {
        Seq::empty()
    } else {
        let d = entries.drop_last();
        let e = entries.last();
        if exists|j: int| 0 <= j < d.len() && (#[trigger] d[j]).1@ == e.1@ {
            first_entries(d)
        } else {
            first_entries(d).push((e.1@, e.2))
        }
    }
}

/// The entries refused by a header merge: every later entry of a key that
/// an earlier entry already has, as the key and the file it came from.
pub open spec fn duplicate_entries<V>(entries: Seq<(String, String, V)>) -> Seq<(Seq<char>, Seq<char>)>
    decreases entries.len(),
{
    if entries.len() == 0 {
        Seq::empty()
    } else {
        let d = entries.drop_last();
        let e = entries.last();
        if exists|j: int| 0 <= j < d.len() && (#[trigger] d[j]).1@ == e.1@ {
            duplicate_entries(d).push((e.1@, e.0@))
        } else {
            duplicate_entries(d)
        }
    }
}

/// Merge the top-level entries of header files into one mapping. `entries`
/// holds `(file, key, value)` for every entry of every file, file by file.
/// Two entries with the same key, in one file or in two, are an error that
/// lists every later one with its file.
pub fn merge_headers<V>(entries: Vec<(String, String, V)>) -> (r: Result<Vec<(String, V)>, CtdError>)
    ensures
        r is Ok <==> duplicate_entries(entries@).len() == 0,
        r matches Ok(m) ==> m@.map_values(|e: (String, V)| (e.0@, e.1)) == first_entries(entries@),
        r matches Err(e) ==> (e matches CtdError::DuplicateKeys { duplicates } && duplicates@.map_values(
            |d: (String, String)| (d.0@, d.1@),
        ) == duplicate_entries(entries@)),
{
    let ghost all = entries@;
    let mut seen: StringHashMap<bool> = StringHashMap::new();
    let mut kept: Vec<(String, V)> = Vec::new();
    let mut dups: Vec<(String, String)> = Vec::new();
    let ghost mut i: int = 0;
    for e in it: entries.into_iter()
        invariant
            i == it.index(),
            it.seq() == all,
            i <= all.len(),
            forall|t: Seq<char>| #[trigger] seen@.contains_key(t) <==> exists|j: int| 0 <= j < i && (#[trigger] all[j]).1@ == t,
            kept@.map_values(|e: (String, V)| (e.0@, e.1)) == first_entries(all.take(i)),
            dups@.map_values(|d: (String, String)| (d.0@, d.1@)) == duplicate_entries(all.take(i)),
    {
        let ghost pre = all.take(i);
        proof {
            assert(all.take(i + 1).drop_last() =~= pre);
            assert(all.take(i + 1).last() == all[i]);
            assert(e == all[i]);
        }
        let (file, key, value) = e;
        if seen.contains_key(key.as_str()) {
            let ghost before = dups@;
            dups.push((key, file));
            proof {
                let j = choose|j: int| 0 <= j < i && (#[trigger] all[j]).1@ == key@;
                assert(pre[j] == all[j]);
                assert(dups@.map_values(|d: (String, String)| (d.0@, d.1@)) =~= before.map_values(
                    |d: (String, String)| (d.0@, d.1@),
                ).push((key@, file@)));
            }
        } else {
            let ghost kv = key@;
            let ghost before = kept@;
            seen.insert(key.clone(), true);
            kept.push((key, value));
            proof {
                assert forall|j: int| 0 <= j < pre.len() implies (#[trigger] pre[j]).1@ != kv by {
                    assert(pre[j] == all[j]);
                }
                assert(kept@.map_values(|e: (String, V)| (e.0@, e.1)) =~= before.map_values(
                    |e: (String, V)| (e.0@, e.1),
                ).push((kv, value)));
            }
        }
        proof {
            assert forall|t: Seq<char>| #[trigger] seen@.contains_key(t) <==> exists|j: int| 0 <= j < i + 1 && (#[trigger] all[j]).1@ == t by {
                if t == all[i].1@ {
                    assert(all[i].1@ == t);
                }
            }
            i = i + 1;
        }
    }
    proof {
        assert(all.take(all.len() as int) =~= all);
    }
    if dups.len() == 0 {
        Ok(kept)
    } else {
        Err(CtdError::DuplicateKeys { duplicates: dups })
    }
}

/// A header merge is refused exactly when two entries, in one file or in
/// two, share a key.
pub proof fn lemma_merge_refused_iff_shared_key<V>(entries: Seq<(String, String, V)>)
    ensures
        duplicate_entries(entries).len() == 0 <==> forall|i: int, j: int|
            0 <= i < j < entries.len() ==> (#[trigger] entries[i]).1@ != (#[trigger] entries[j]).1@,
    decreases entries.len(),
{
    if entries.len() > 0 {
        let d = entries.drop_last();
        lemma_merge_refused_iff_shared_key(d);
        if duplicate_entries(entries).len() == 0 {
            assert forall|i: int, j: int| 0 <= i < j < entries.len() implies (#[trigger] entries[i]).1@
                != (#[trigger] entries[j]).1@ by {
                if j < d.len() {
                    assert(entries[i] == d[i] && entries[j] == d[j]);
                } else if entries[i].1@ == entries[j].1@ {
                    assert(d[i] == entries[i]);
                    assert(entries.last() == entries[j]);
                    assert(exists|k: int| 0 <= k < d.len() && (#[trigger] d[k]).1@ == entries.last().1@);
                }
            }
        }
        if forall|i: int, j: int| 0 <= i < j < entries.len() ==> (#[trigger] entries[i]).1@ != (#[trigger] entries[j]).1@ {
            assert forall|i: int, j: int| 0 <= i < j < d.len() implies (#[trigger] d[i]).1@ != (#[trigger] d[j]).1@ by {
                assert(entries[i] == d[i] && entries[j] == d[j]);
            }
            if exists|k: int| 0 <= k < d.len() && (#[trigger] d[k]).1@ == entries.last().1@ {
                let k = choose|k: int| 0 <= k < d.len() && (#[trigger] d[k]).1@ == entries.last().1@;
                assert(entries[k] == d[k]);
                assert(entries[entries.len() - 1] == entries.last());
            }
        }
    }
}

/// A merged header holds each key of its files once: no two kept entries
/// share a key, and every key of every file is kept.
pub proof fn lemma_merged_keys_distinct_and_complete<V>(entries: Seq<(String, String, V)>)
    ensures
        forall|a: int, b: int|
            0 <= a < b < first_entries(entries).len() ==> (#[trigger] first_entries(entries)[a]).0
                != (#[trigger] first_entries(entries)[b]).0,
        forall|j: int|
            0 <= j < entries.len() ==> exists|a: int|
                0 <= a < first_entries(entries).len() && (#[trigger] first_entries(entries)[a]).0
                    == (#[trigger] entries[j]).1@,
    decreases entries.len(),
{
    if entries.len() > 0 {
        let d = entries.drop_last();
        let e = entries.last();
        lemma_merged_keys_distinct_and_complete(d);
        let fd = first_entries(d);
        let fe = first_entries(entries);
        assert forall|j: int| 0 <= j < entries.len() implies exists|a: int|
            0 <= a < fe.len() && (#[trigger] fe[a]).0 == (#[trigger] entries[j]).1@ by {
            if j < d.len() {
                assert(entries[j] == d[j]);
                let a = choose|a: int| 0 <= a < fd.len() && (#[trigger] fd[a]).0 == (#[trigger] d[j]).1@;
                assert(fe[a] == fd[a]);
            } else if exists|k: int| 0 <= k < d.len() && (#[trigger] d[k]).1@ == e.1@ {
                let k = choose|k: int| 0 <= k < d.len() && (#[trigger] d[k]).1@ == e.1@;
                let a = choose|a: int| 0 <= a < fd.len() && (#[trigger] fd[a]).0 == (#[trigger] d[k]).1@;
                assert(fe[a] == fd[a]);
            } else {
                assert(fe[fd.len() as int].0 == e.1@);
            }
        }
        if !(exists|k: int| 0 <= k < d.len() && (#[trigger] d[k]).1@ == e.1@) {
            assert forall|a: int| 0 <= a < fd.len() implies (#[trigger] fd[a]).0 != e.1@ by {
                if fd[a].0 == e.1@ {
                    lemma_first_entries_from(d, a);
                }
            }
        }
    }
}

/// Each kept entry's key is the key of some entry of the files.
proof fn lemma_first_entries_from<V>(entries: Seq<(String, String, V)>, a: int)
    requires
        0 <= a < first_entries(entries).len(),
    ensures
        exists|k: int| 0 <= k < entries.len() && (#[trigger] entries[k]).1@ == first_entries(entries)[a].0,
    decreases entries.len(),
{
    let d = entries.drop_last();
    if a < first_entries(d).len() {
        lemma_first_entries_from(d, a);
        let k = choose|k: int| 0 <= k < d.len() && (#[trigger] d[k]).1@ == first_entries(d)[a].0;
        assert(entries[k] == d[k]);
    } else {
        assert(entries[entries.len() - 1] == entries.last());
    }
}

/// The views of optional strings.
pub open spec fn opt_strs(v: Seq<Option<String>>) -> Seq<Option<Seq<char>>> {
    v.map_values(|o: Option<String>| match o {
        Some(s) => Some(s@),
        None => None,
    })
}

/// The number of rows below `m` whose platform and profile key are `(p, k)`
/// (a row without a key has key `None`).
pub open spec fn pair_count(ps: Seq<Seq<char>>, ks: Seq<Option<Seq<char>>>, p: Seq<char>, k: Option<Seq<char>>, m: int) -> nat
    decreases m,
{
    if m <= 0 {
        0
    } else {
        pair_count(ps, ks, p, k, m - 1) + if ps[m - 1] == p && ks[m - 1] == k {
            1nat
        } else {
            0nat
        }
    }
}

/// The distinct `(platform, profile key)` pairs of the rows below `m`, in the
/// order of their first row.
pub open spec fn distinct_pairs(ps: Seq<Seq<char>>, ks: Seq<Option<Seq<char>>>, m: int) -> Seq<(Seq<char>, Option<Seq<char>>)>
    decreases m,
{
    if m <= 0 {
        Seq::empty()
    } else {
        let prev = distinct_pairs(ps, ks, m - 1);
        if prev.contains((ps[m - 1], ks[m - 1])) {
            prev
        } else {
            prev.push((ps[m - 1], ks[m - 1]))
        }
    }
}

/// The number of pairs of `d` of platform `p` with a key that comes before `k`.
pub open spec fn keys_below(d: Seq<(Seq<char>, Option<Seq<char>>)>, p: Seq<char>, k: Seq<char>) -> nat
    decreases d.len(),
{
    if d.len() == 0 {
        0
    } else {
        keys_below(d.drop_last(), p, k) + if d.last().0 == p && (d.last().1 matches Some(k2) && seq_lt(k2, k)) {
            1nat
        } else {
            0nat
        }
    }
}

/// The tag of an optional key: nothing for no key, `=` and the key for a key.
pub open spec fn key_tag(k: Option<Seq<char>>) -> Seq<char> {
    match k {
        Some(k) => seq!['='] + k,
        None => Seq::empty(),
    }
}

/// The text a pair is held under: the length of the platform code, a comma,
/// the platform code, then the tag of the key.
pub open spec fn pair_text(p: Seq<char>, k: Option<Seq<char>>) -> Seq<char> {
    int_decimal(p.len() as int) + seq![','] + p + key_tag(k)
}

/// Different pairs are held under different texts.
pub proof fn lemma_pair_text_injective(p1: Seq<char>, k1: Option<Seq<char>>, p2: Seq<char>, k2: Option<Seq<char>>)
    ensures
        pair_text(p1, k1) == pair_text(p2, k2) <==> (p1 == p2 && k1 == k2),
{
    if pair_text(p1, k1) == pair_text(p2, k2) {
        let t1 = key_tag(k1);
        let t2 = key_tag(k2);
        lemma_int_decimal(p1.len() as int, p2.len() as int);
        lemma_int_decimal(p2.len() as int, p1.len() as int);
        assert(pair_text(p1, k1) =~= int_decimal(p1.len() as int) + seq![','] + (p1 + t1));
        assert(pair_text(p2, k2) =~= int_decimal(p2.len() as int) + seq![','] + (p2 + t2));
        lemma_split_at_comma(int_decimal(p1.len() as int), p1 + t1, int_decimal(p2.len() as int), p2 + t2);
        assert(p1.len() == p2.len());
        assert(p1 =~= (p1 + t1).take(p1.len() as int));
        assert(p2 =~= (p2 + t2).take(p2.len() as int));
        assert(t1 =~= (p1 + t1).skip(p1.len() as int));
        assert(t2 =~= (p2 + t2).skip(p2.len() as int));
        match (k1, k2) {
            (Some(a), Some(b)) => {
                assert(a =~= t1.drop_first());
                assert(b =~= t2.drop_first());
            },
            (Some(a), None) => {
                assert(t1.len() >= 1);
            },
            (None, Some(b)) => {
                assert(t2.len() >= 1);
            },
            (None, None) => {},
        }
    }
}

/// The text of a pair.
fn pair_text_of(p: &String, k: &Option<String>) -> (r: String)
    ensures
        r@ == pair_text(p@, match k {
            Some(s) => Some(s@),
            None => None,
        }),
{
    let n = p.as_str().unicode_len();
    let mut r = u64_to_decimal(n as u64);
    push_char(&mut r, ',');
    push_str(&mut r, p.as_str());
    match k {
        Some(s) => {
            push_char(&mut r, '=');
            push_str(&mut r, s.as_str());
        },
        None => {},
    }
    proof {
        assert(int_decimal(n as int) == decimal(n as nat));
        assert(r@ =~= pair_text(p@, match k {
            Some(s) => Some(s@),
            None => None,
        }));
    }
    r
}

/// A copy of an optional string.
fn copy_opt(k: &Option<String>) -> (r: Option<String>)
    ensures
        match (r, *k) {
            (Some(a), Some(b)) => a@ == b@,
            (None, None) => true,
            _ => false,
        },
{
    match k {
        Some(s) => Some(s.clone()),
        None => None,
    }
}

/// Renumber sorted rows. Each row carries its platform code and its profile
/// key (the platform code, time and position joined as text), `None` when a
/// part of the key is missing. A row's `profile_no` is the dense rank of its
/// key among the keys of its platform, in text order, counting from one,
/// and `None` when the row has no key; its `observation_no` counts the rows
/// of its platform with its key (or, without a key, the keyless rows of its
/// platform) up to and including it.
pub fn renumber_rows(platforms: &Vec<String>, keys: &Vec<Option<String>>) -> (r: (Vec<Option<u32>>, Vec<u32>))
    requires
        platforms.len() == keys.len(),
        keys.len() < u32::MAX,
    ensures
        r.0.len() == keys.len(),
        r.1.len() == keys.len(),
        forall|q: int| 0 <= q < keys.len() ==> match #[trigger] r.0@[q] {
            Some(v) => keys@[q] matches Some(k) && v == 1 + keys_below(
                distinct_pairs(str_views(platforms@), opt_strs(keys@), keys.len() as int),
                platforms@[q]@,
                k@,
            ),
            None => keys@[q] is None,
        },
        forall|q: int| 0 <= q < keys.len() ==> #[trigger] r.1@[q] == 1 + pair_count(
            str_views(platforms@),
            opt_strs(keys@),
            platforms@[q]@,
            opt_strs(keys@)[q],
            q,
        ),
{
    let ghost ps = str_views(platforms@);
    let ghost ks = opt_strs(keys@);
    let n = keys.len();
    let mut index: StringHashMap<usize> = StringHashMap::new();
    let mut pairs: Vec<(String, Option<String>)> = Vec::new();
    let mut counters: Vec<u32> = Vec::new();
    let mut row_pair: Vec<usize> = Vec::new();
    let mut obs: Vec<u32> = Vec::new();
    let mut q: usize = 0;
    while q < n
        invariant
            n == keys.len() == platforms.len(),
            n < u32::MAX,
            q <= n,
            ps == str_views(platforms@),
            ks == opt_strs(keys@),
            pair_views(pairs@) == distinct_pairs(ps, ks, q as int),
            counters.len() == pairs.len(),
            pairs.len() <= q,
            forall|d: int| 0 <= d < pairs.len() ==> #[trigger] counters@[d] == pair_count(ps, ks, pair_views(pairs@)[d].0, pair_views(pairs@)[d].1, q as int),
            forall|d: int| 0 <= d < pairs.len() ==> #[trigger] counters@[d] <= q,
            forall|d: int| 0 <= d < pairs.len() ==> #[trigger] index@.contains_key(pair_text(pair_views(pairs@)[d].0, pair_views(pairs@)[d].1)) && index@[pair_text(pair_views(pairs@)[d].0, pair_views(pairs@)[d].1)] == d,
            forall|t: Seq<char>| #[trigger] index@.contains_key(t) ==> index@[t] < pairs.len() && pair_text(pair_views(pairs@)[index@[t] as int].0, pair_views(pairs@)[index@[t] as int].1) == t,
            row_pair.len() == q,
            obs.len() == q,
            forall|x: int| 0 <= x < q ==> #[trigger] row_pair@[x] < pairs.len() && pair_views(pairs@)[row_pair@[x] as int] == (ps[x], ks[x]),
            forall|x: int| 0 <= x < q ==> #[trigger] obs@[x] == 1 + pair_count(ps, ks, ps[x], ks[x], x),
        decreases n - q,
    {
        let t = pair_text_of(&platforms[q], &keys[q]);
        let ghost pv = (ps[q as int], ks[q as int]);
        proof {
            assert(ps[q as int] == platforms@[q as int]@);
            assert(ks[q as int] == match keys@[q as int] {
                Some(s) => Some(s@),
                None => None,
            });
        }
        let found: Option<usize> = match index.get(t.as_str()) {
            Some(d) => Some(*d),
            None => None,
        };
        let ghost dp = pair_views(pairs@);
        let d: usize = match found {
            Some(d) => {
                proof {
                    lemma_pair_text_injective(dp[d as int].0, dp[d as int].1, pv.0, pv.1);
                    assert(dp[d as int] == pv);
                    assert(dp.contains(pv));
                }
                d
            },
            None => {
                proof {
                    if dp.contains(pv) {
                        let e = choose|e: int| 0 <= e < dp.len() && dp[e] == pv;
                        assert(index@.contains_key(pair_text(dp[e].0, dp[e].1)));
                    }
                }
                let d = pairs.len();
                let pc = platforms[q].clone();
                let kc = copy_opt(&keys[q]);
                pairs.push((pc, kc));
                counters.push(0);
                let ghost old_index = index@;
                index.insert(t, d);
                proof {
                    assert(pair_views(pairs@) =~= dp.push(pv));
                    assert forall|e: int| 0 <= e < pairs.len() implies #[trigger] index@.contains_key(pair_text(pair_views(pairs@)[e].0, pair_views(pairs@)[e].1)) && index@[pair_text(pair_views(pairs@)[e].0, pair_views(pairs@)[e].1)] == e by {
                        if e < d {
                            assert(pair_views(pairs@)[e] == dp[e]);
                            assert(old_index.contains_key(pair_text(dp[e].0, dp[e].1)));
                            lemma_pair_text_injective(dp[e].0, dp[e].1, pv.0, pv.1);
                            if pair_text(dp[e].0, dp[e].1) == t@ {
                                assert(dp[e] == pv);
                            }
                        } else {
                            assert(pair_views(pairs@)[e] == pv);
                        }
                    }
                    assert(pair_count(ps, ks, pv.0, pv.1, q as int) == 0) by {
                        lemma_pair_count_absent(ps, ks, pv.0, pv.1, q as int);
                    }
                }
                d
            },
        };
        let c = counters[d];
        obs.push(c + 1);
        counters.set(d, c + 1);
        row_pair.push(d);
        proof {
            assert forall|e: int| 0 <= e < pairs.len() implies #[trigger] counters@[e] == pair_count(ps, ks, pair_views(pairs@)[e].0, pair_views(pairs@)[e].1, q as int + 1) by {
                if e != d {
                    assert(pair_views(pairs@)[d as int] == pv);
                    lemma_distinct_pairs_unique(ps, ks, q as int + 1, e, d as int);
                }
            }
        }
        q += 1;
    }
    // Ranks: one more than the number of keys of the same platform before it.
    let np = pairs.len();
    let ghost dp = pair_views(pairs@);
    let mut kchars: Vec<Option<Vec<char>>> = Vec::new();
    let mut e: usize = 0;
    while e < np
        invariant
            np == pairs.len(),
            dp == pair_views(pairs@),
            e <= np,
            kchars.len() == e,
            forall|x: int| 0 <= x < e ==> match #[trigger] kchars@[x] {
                Some(v) => dp[x].1 == Some(v@),
                None => dp[x].1 is None,
            },
        decreases np - e,
    {
        let kc = match &pairs[e].1 {
            Some(k) => Some(chars_of(k.as_str())),
            None => None,
        };
        kchars.push(kc);
        proof {
            assert(dp[e as int].1 == match pairs@[e as int].1 {
                Some(s) => Some(s@),
                None => None,
            });
        }
        e += 1;
    }
    let mut rank: Vec<Option<u32>> = Vec::new();
    let mut d: usize = 0;
    while d < np
        invariant
            np == pairs.len(),
            np <= n,
            n < u32::MAX,
            d <= np,
            kchars.len() == np,
            forall|x: int| 0 <= x < np ==> match #[trigger] kchars@[x] {
                Some(v) => dp[x].1 == Some(v@),
                None => dp[x].1 is None,
            },
            dp == pair_views(pairs@),
            rank.len() == d,
            forall|x: int| 0 <= x < d ==> match #[trigger] rank@[x] {
                Some(v) => dp[x].1 matches Some(k) && v == 1 + keys_below(dp, dp[x].0, k),
                None => dp[x].1 is None,
            },
        decreases np - d,
    {
        match &kchars[d] {
            None => {
                rank.push(None);
            },
            Some(kd) => {
                let ghost kdv = kd@;
                let mut c: u32 = 0;
                let mut e: usize = 0;
                while e < np
                    invariant
                        np == pairs.len(),
                        np <= n,
                        n < u32::MAX,
                        d < np,
                        e <= np,
                        kchars.len() == np,
                        forall|x: int| 0 <= x < np ==> match #[trigger] kchars@[x] {
                            Some(v) => dp[x].1 == Some(v@),
                            None => dp[x].1 is None,
                        },
                        dp == pair_views(pairs@),
                        kdv == kd@,
                        c == keys_below(dp.take(e as int), dp[d as int].0, kdv),
                        c <= e,
                    decreases np - e,
                {
                    proof {
                        assert(dp.take(e as int + 1).drop_last() =~= dp.take(e as int));
                        assert(dp.take(e as int + 1).last() == dp[e as int]);
                        assert(dp[e as int].0 == pairs@[e as int].0@);
                        assert(dp[d as int].0 == pairs@[d as int].0@);
                    }
                    let below = match &kchars[e] {
                        Some(ke) => pairs[e].0 == pairs[d].0 && chars_lt(ke, kd),
                        None => false,
                    };
                    if below {
                        c = c + 1;
                    }
                    e += 1;
                }
                proof {
                    assert(dp.take(np as int) =~= dp);
                }
                rank.push(Some(c + 1));
            },
        }
        d += 1;
    }
    let mut profile_no: Vec<Option<u32>> = Vec::new();
    let mut x: usize = 0;
    while x < n
        invariant
            n == keys.len() == platforms.len(),
            x <= n,
            ps == str_views(platforms@),
            ks == opt_strs(keys@),
            dp == pair_views(pairs@),
            dp == distinct_pairs(ps, ks, n as int),
            rank.len() == pairs.len(),
            forall|y: int| 0 <= y < pairs.len() ==> match #[trigger] rank@[y] {
                Some(v) => dp[y].1 matches Some(k) && v == 1 + keys_below(dp, dp[y].0, k),
                None => dp[y].1 is None,
            },
            row_pair.len() == n,
            forall|y: int| 0 <= y < n ==> #[trigger] row_pair@[y] < pairs.len() && dp[row_pair@[y] as int] == (ps[y], ks[y]),
            profile_no.len() == x,
            forall|y: int| 0 <= y < x ==> match #[trigger] profile_no@[y] {
                Some(v) => ks[y] matches Some(k) && v == 1 + keys_below(dp, ps[y], k),
                None => ks[y] is None,
            },
        decreases n - x,
    {
        let pd = row_pair[x];
        profile_no.push(rank[pd]);
        proof {
            assert(dp[pd as int] == (ps[x as int], ks[x as int]));
        }
        x += 1;
    }
    proof {
        assert forall|y: int| 0 <= y < n implies match #[trigger] profile_no@[y] {
            Some(v) => keys@[y] matches Some(k) && v == 1 + keys_below(
                distinct_pairs(str_views(platforms@), opt_strs(keys@), keys.len() as int),
                platforms@[y]@,
                k@,
            ),
            None => keys@[y] is None,
        } by {
            assert(ps[y] == platforms@[y]@);
            assert(ks[y] == match keys@[y] {
                Some(s) => Some(s@),
                None => None,
            });
        }
        assert forall|y: int| 0 <= y < n implies #[trigger] obs@[y] == 1 + pair_count(
            str_views(platforms@),
            opt_strs(keys@),
            platforms@[y]@,
            opt_strs(keys@)[y],
            y,
        ) by {
            assert(ps[y] == platforms@[y]@);
        }
    }
    (profile_no, obs)
}

/// The views of a list of pairs.
pub open spec fn pair_views(v: Seq<(String, Option<String>)>) -> Seq<(Seq<char>, Option<Seq<char>>)> {
    v.map_values(|e: (String, Option<String>)| (e.0@, match e.1 {
        Some(s) => Some(s@),
        None => None,
    }))
}

/// A pair not among the first `m` rows' pairs has no rows below `m`.
proof fn lemma_pair_count_absent(ps: Seq<Seq<char>>, ks: Seq<Option<Seq<char>>>, p: Seq<char>, k: Option<Seq<char>>, m: int)
    requires
        0 <= m <= ps.len(),
        ps.len() == ks.len(),
        !distinct_pairs(ps, ks, m).contains((p, k)),
    ensures
        pair_count(ps, ks, p, k, m) == 0,
    decreases m,
{
    if m > 0 {
        let prev = distinct_pairs(ps, ks, m - 1);
        if prev.contains((p, k)) {
            let j = choose|j: int| 0 <= j < prev.len() && prev[j] == (p, k);
            if !prev.contains((ps[m - 1], ks[m - 1])) {
                assert(distinct_pairs(ps, ks, m)[j] == (p, k));
            }
        }
        if ps[m - 1] == p && ks[m - 1] == k {
            if !prev.contains((p, k)) {
                assert(distinct_pairs(ps, ks, m)[prev.len() as int] == (p, k));
            }
        }
        lemma_pair_count_absent(ps, ks, p, k, m - 1);
    }
}

/// The distinct pairs are distinct.
proof fn lemma_distinct_pairs_unique(ps: Seq<Seq<char>>, ks: Seq<Option<Seq<char>>>, m: int, a: int, b: int)
    requires
        0 <= m,
        0 <= a < distinct_pairs(ps, ks, m).len(),
        0 <= b < distinct_pairs(ps, ks, m).len(),
        a != b,
    ensures
        distinct_pairs(ps, ks, m)[a] != distinct_pairs(ps, ks, m)[b],
    decreases m,
{
    if m > 0 {
        let prev = distinct_pairs(ps, ks, m - 1);
        if prev.contains((ps[m - 1], ks[m - 1])) {
            lemma_distinct_pairs_unique(ps, ks, m - 1, a, b);
        } else {
            if a < prev.len() && b < prev.len() {
                lemma_distinct_pairs_unique(ps, ks, m - 1, a, b);
            } else if a < prev.len() {
                assert(distinct_pairs(ps, ks, m)[a] == prev[a]);
            } else {
                assert(distinct_pairs(ps, ks, m)[b] == prev[b]);
            }
        }
    }
}

/// The sum of the counts of the entries named `p`.
pub open spec fn name_sum(entries: Seq<(String, u64)>, p: Seq<char>) -> nat
    decreases entries.len(),
{
    if entries.len() == 0 {
        0
    } else {
        name_sum(entries.drop_last(), p) + if entries.last().0@ == p {
            entries.last().1 as nat
        } else {
            0nat
        }
    }
}

/// The sum of all counts.
pub open spec fn count_total(entries: Seq<(String, u64)>) -> nat
    decreases entries.len(),
{
    if entries.len() == 0 {
        0
    } else {
        count_total(entries.drop_last()) + entries.last().1 as nat
    }
}

/// A name's sum is part of the total, and a prefix's total part of the whole.
proof fn lemma_name_sum_bound(entries: Seq<(String, u64)>, p: Seq<char>, m: int)
    requires
        0 <= m <= entries.len(),
    ensures
        name_sum(entries.take(m), p) <= count_total(entries.take(m)),
        count_total(entries.take(m)) <= count_total(entries),
    decreases entries.len() - m,
{
    if m < entries.len() {
        lemma_name_sum_bound(entries, p, m + 1);
        assert(entries.take(m + 1).drop_last() =~= entries.take(m));
    } else {
        assert(entries.take(m) =~= entries);
    }
    lemma_name_sum_le_total(entries.take(m), p);
}

proof fn lemma_name_sum_le_total(entries: Seq<(String, u64)>, p: Seq<char>)
    ensures
        name_sum(entries, p) <= count_total(entries),
    decreases entries.len(),
{
    if entries.len() > 0 {
        lemma_name_sum_le_total(entries.drop_last(), p);
    }
}

/// The distinct names of the entries, in order of first appearance, with
/// their totals.
fn accumulate_totals(entries: &Vec<(String, u64)>) -> (r: (Vec<String>, Vec<u64>))
    requires
        count_total(entries@) <= u64::MAX,
    ensures
        r.0.len() == r.1.len(),
        forall|x: int, y: int| 0 <= x < r.0.len() && 0 <= y < r.0.len() && x != y ==> r.0@[x]@ != r.0@[y]@,
        forall|e: int| #![trigger entries@[e]] 0 <= e < entries.len() ==> exists|d: int| 0 <= d < r.0.len() && #[trigger] r.0@[d]@ == entries@[e].0@,
        forall|d: int| #![trigger r.0@[d]] 0 <= d < r.0.len() ==> exists|e: int| 0 <= e < entries.len() && #[trigger] entries@[e].0@ == r.0@[d]@,
        forall|d: int| 0 <= d < r.0.len() ==> #[trigger] r.1@[d] == name_sum(entries@, r.0@[d]@),
{
    let mut pos: StringHashMap<usize> = StringHashMap::new();
    let mut names: Vec<String> = Vec::new();
    let mut totals: Vec<u64> = Vec::new();
    let mut q: usize = 0;
    while q < entries.len()
        invariant
            q <= entries.len(),
            count_total(entries@) <= u64::MAX,
            names.len() == totals.len(),
            forall|d: int| 0 <= d < names.len() ==> #[trigger] pos@.contains_key(names@[d]@) && pos@[names@[d]@] == d,
            forall|t: Seq<char>| #[trigger] pos@.contains_key(t) ==> pos@[t] < names.len() && names@[pos@[t] as int]@ == t,
            forall|d: int| 0 <= d < names.len() ==> #[trigger] totals@[d] == name_sum(entries@.take(q as int), names@[d]@),
            forall|d: int| #![trigger names@[d]] 0 <= d < names.len() ==> exists|e: int| 0 <= e < q && #[trigger] entries@[e].0@ == names@[d]@,
            forall|e: int| 0 <= e < q ==> #[trigger] pos@.contains_key(entries@[e].0@),
        decreases entries.len() - q,
    {
        let ghost pre = entries@.take(q as int);
        let ghost nxt = entries@.take(q as int + 1);
        proof {
            assert(nxt.drop_last() =~= pre);
            assert(nxt.last() == entries@[q as int]);
            lemma_name_sum_bound(entries@, entries@[q as int].0@, q as int + 1);
        }
        let name = &entries[q].0;
        let c = entries[q].1;
        let found: Option<usize> = match pos.get(name.as_str()) {
            Some(d) => Some(*d),
            None => None,
        };
        match found {
            Some(d) => {
                let t = totals[d];
                proof {
                    assert(names@[d as int]@ == name@);
                    assert(t + c == name_sum(nxt, name@));
                }
                totals.set(d, t + c);
            },
            None => {
                proof {
                    assert forall|d: int| 0 <= d < names.len() implies names@[d]@ != name@ by {
                        assert(pos@.contains_key(names@[d]@));
                    }
                    lemma_name_sum_absent(pre, name@);
                }
                let d = names.len();
                names.push(name.clone());
                totals.push(c);
                pos.insert(name.clone(), d);
            },
        }
        proof {
            assert forall|d: int| 0 <= d < names.len() implies #[trigger] totals@[d] == name_sum(nxt, names@[d]@) by {
                if names@[d]@ != name@ {
                    assert(name_sum(nxt, names@[d]@) == name_sum(pre, names@[d]@));
                }
            }
            assert forall|d: int| #![trigger names@[d]] 0 <= d < names.len() implies exists|e: int| 0 <= e < q + 1 && #[trigger] entries@[e].0@ == names@[d]@ by {
                if names@[d]@ == name@ {
                    assert(entries@[q as int].0@ == names@[d]@);
                }
            }
        }
        q += 1;
    }
    proof {
        assert(entries@.take(entries.len() as int) =~= entries@);
    }
    proof {
        assert forall|e: int| #![trigger entries@[e]] 0 <= e < entries.len() implies exists|d: int| 0 <= d < names.len() && #[trigger] names@[d]@ == entries@[e].0@ by {
            assert(pos@.contains_key(entries@[e].0@));
            let d = pos@[entries@[e].0@] as int;
            assert(names@[d]@ == entries@[e].0@);
        }
        assert forall|x: int, y: int| 0 <= x < names.len() && 0 <= y < names.len() && x != y implies names@[x]@ != names@[y]@ by {
            assert(pos@.contains_key(names@[x]@) && pos@[names@[x]@] == x);
            assert(pos@.contains_key(names@[y]@) && pos@[names@[y]@] == y);
        }
    }
    (names, totals)
}

/// The characters of each string.
fn chars_of_all(names: &Vec<String>) -> (chars: Vec<Vec<char>>)
    ensures
        chars.len() == names.len(),
        forall|x: int| 0 <= x < names.len() ==> (#[trigger] chars@[x])@ == names@[x]@,
{
    let mut chars: Vec<Vec<char>> = Vec::new();
    let mut k: usize = 0;
    while k < names.len()
        invariant
            k <= names.len(),
            chars.len() == k,
            forall|x: int| 0 <= x < k ==> (#[trigger] chars@[x])@ == names@[x]@,
        decreases names.len() - k,
    {
        chars.push(chars_of(names[k].as_str()));
        k += 1;
    }
    chars
}

/// The names and totals taken in the order of `order`.
fn pick_in_order(names: &Vec<String>, totals: &Vec<u64>, order: &Vec<usize>) -> (r: Vec<(String, u64)>)
    requires
        names.len() == totals.len(),
        forall|x: int| 0 <= x < order.len() ==> #[trigger] order@[x] < names.len(),
    ensures
        r.len() == order.len(),
        forall|x: int| 0 <= x < order.len() ==> (#[trigger] r@[x]).0@ == names@[order@[x] as int]@ && r@[x].1 == totals@[order@[x] as int],
{
    let mut r: Vec<(String, u64)> = Vec::new();
    let mut i: usize = 0;
    while i < order.len()
        invariant
            i <= order.len(),
            names.len() == totals.len(),
            forall|x: int| 0 <= x < order.len() ==> #[trigger] order@[x] < names.len(),
            r.len() == i,
            forall|x: int| 0 <= x < i ==> (#[trigger] r@[x]).0@ == names@[order@[x] as int]@ && r@[x].1 == totals@[order@[x] as int],
        decreases order.len() - i,
    {
        let o = order[i];
        r.push((names[o].clone(), totals[o]));
        i += 1;
    }
    r
}

/// The distinct platform codes of per-platform row counts, in ascending
/// order, each with its total over all entries. The entries are the
/// `(platform_code, rows)` counts of every input file.
#[verifier::rlimit(50)]
pub fn platform_totals(entries: &Vec<(String, u64)>) -> (r: Vec<(String, u64)>)
    requires
        count_total(entries@) <= u64::MAX,
    ensures
        forall|a: int, b: int| 0 <= a < b < r.len() ==> seq_lt(r@[a].0@, r@[b].0@),
        forall|i: int| 0 <= i < r.len() ==> #[trigger] r@[i].1 == name_sum(entries@, r@[i].0@),
        forall|i: int| #![trigger r@[i]] 0 <= i < r.len() ==> exists|e: int| 0 <= e < entries.len() && #[trigger] entries@[e].0@ == r@[i].0@,
        forall|e: int| #![trigger entries@[e]] 0 <= e < entries.len() ==> exists|i: int| 0 <= i < r.len() && #[trigger] r@[i].0@ == entries@[e].0@,
{
    let (names, totals) = accumulate_totals(entries);
    let chars = chars_of_all(&names);
    let order = sort_distinct(&chars);
    let r = pick_in_order(&names, &totals, &order);
    proof {
        assert forall|a: int, b: int| 0 <= a < b < r.len() implies seq_lt(r@[a].0@, r@[b].0@) by {
            assert(chars@[order@[a] as int]@ == names@[order@[a] as int]@);
            assert(chars@[order@[b] as int]@ == names@[order@[b] as int]@);
        }
        assert forall|x: int| #![trigger r@[x]] 0 <= x < r.len() implies exists|e: int| 0 <= e < entries.len() && #[trigger] entries@[e].0@ == r@[x].0@ by {
            let d = order@[x] as int;
            assert(names@[d] == names@[d]);
            let e = choose|e: int| 0 <= e < entries.len() && #[trigger] entries@[e].0@ == names@[d]@;
            assert(entries@[e].0@ == r@[x].0@);
        }
        assert forall|e: int| #![trigger entries@[e]] 0 <= e < entries.len() implies exists|x: int| 0 <= x < r.len() && #[trigger] r@[x].0@ == entries@[e].0@ by {
            assert(entries@[e] == entries@[e]);
            let d = choose|d: int| 0 <= d < names.len() && #[trigger] names@[d]@ == entries@[e].0@;
            assert(order@.contains(d as usize));
            let x = choose|x: int| 0 <= x < order.len() && order@[x] == d as usize;
            assert(r@[x].0@ == entries@[e].0@);
        }
    }
    r
}

/// A name no entry has sums to nothing.
proof fn lemma_name_sum_absent(entries: Seq<(String, u64)>, p: Seq<char>)
    requires
        forall|e: int| 0 <= e < entries.len() ==> (#[trigger] entries[e]).0@ != p,
    ensures
        name_sum(entries, p) == 0,
    decreases entries.len(),
{
    if entries.len() > 0 {
        let d = entries.drop_last();
        assert forall|e: int| 0 <= e < d.len() implies (#[trigger] d[e]).0@ != p by {
            assert(d[e] == entries[e]);
        }
        lemma_name_sum_absent(d, p);
    }
}

/// The first and last platform code of a file, by text order; `None` for a
/// file without rows.
pub fn file_span(entries: &Vec<(String, u64)>) -> (r: Option<(String, String)>)
    ensures
        r is None <==> entries.len() == 0,
        r matches Some(span) ==> (exists|e: int| 0 <= e < entries.len() && #[trigger] entries@[e].0@ == span.0@)
            && (exists|e: int| 0 <= e < entries.len() && #[trigger] entries@[e].0@ == span.1@)
            && forall|e: int| 0 <= e < entries.len() ==> !seq_lt(#[trigger] entries@[e].0@, span.0@) && !seq_lt(span.1@, entries@[e].0@),
{
    if entries.len() == 0 {
        return None;
    }
    let mut lo: usize = 0;
    let mut hi: usize = 0;
    let mut lo_chars = chars_of(entries[0].0.as_str());
    let mut hi_chars = chars_of(entries[0].0.as_str());
    let mut i: usize = 1;
    proof {
        lemma_seq_lt_order(entries@[0].0@, entries@[0].0@, entries@[0].0@);
    }
    while i < entries.len()
        invariant
            1 <= i <= entries.len(),
            lo < i,
            hi < i,
            lo_chars@ == entries@[lo as int].0@,
            hi_chars@ == entries@[hi as int].0@,
            forall|e: int| 0 <= e < i ==> !seq_lt(#[trigger] entries@[e].0@, entries@[lo as int].0@) && !seq_lt(entries@[hi as int].0@, entries@[e].0@),
        decreases entries.len() - i,
    {
        let c = chars_of(entries[i].0.as_str());
        if chars_lt(&c, &lo_chars) {
            proof {
                assert forall|e: int| 0 <= e < i implies !seq_lt(#[trigger] entries@[e].0@, entries@[i as int].0@) by {
                    lemma_seq_lt_order(entries@[e].0@, entries@[i as int].0@, entries@[lo as int].0@);
                    lemma_seq_lt_order(entries@[i as int].0@, entries@[e].0@, entries@[lo as int].0@);
                }
                lemma_seq_lt_order(entries@[i as int].0@, entries@[i as int].0@, entries@[i as int].0@);
                lemma_seq_lt_order(entries@[hi as int].0@, entries@[lo as int].0@, entries@[i as int].0@);
                lemma_seq_lt_order(entries@[lo as int].0@, entries@[hi as int].0@, entries@[i as int].0@);
                assert(!seq_lt(entries@[hi as int].0@, entries@[lo as int].0@));
            }
            lo = i;
            lo_chars = c;
        } else if chars_lt(&hi_chars, &c) {
            proof {
                assert forall|e: int| 0 <= e < i implies !seq_lt(entries@[i as int].0@, #[trigger] entries@[e].0@) by {
                    lemma_seq_lt_order(entries@[hi as int].0@, entries@[i as int].0@, entries@[e].0@);
                    lemma_seq_lt_order(entries@[e].0@, entries@[hi as int].0@, entries@[i as int].0@);
                    lemma_seq_lt_order(entries@[i as int].0@, entries@[e].0@, entries@[hi as int].0@);
                }
                lemma_seq_lt_order(entries@[i as int].0@, entries@[i as int].0@, entries@[i as int].0@);
            }
            hi = i;
            hi_chars = c;
        }
        i += 1;
    }
    Some((entries[lo].0.clone(), entries[hi].0.clone()))
}

/// Whether a file whose platform codes span `span` can hold platforms of the
/// range `[lo, hi]`.
pub fn span_overlaps(span: &(String, String), lo: &str, hi: &str) -> (r: bool)
    ensures
        r == !(seq_lt(span.1@, lo@) || seq_lt(hi@, span.0@)),
{
    let first = chars_of(span.0.as_str());
    let last = chars_of(span.1.as_str());
    let lo_c = chars_of(lo);
    let hi_c = chars_of(hi);
    !(chars_lt(&last, &lo_c) || chars_lt(&hi_c, &first))
}

} // verus!
