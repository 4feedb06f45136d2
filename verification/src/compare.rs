//! Compare two observation tables and count how far each one covers the other.
//!
//! Profiles are matched on a key built like the duplicate key (see
//! [`crate::dupkey`]), to which the platform code is added unless
//! `use_platform` is off. Coverage is counted in both directions, since it is
//! not symmetric: the second file is the reference in the first direction, the
//! first file in the second. The percentages derived from these counts are
//! floating-point work for the caller.

use vstd::prelude::*;
use vstd::hash_map::StringHashMap;

use crate::convert::common::base_file_name_checked;
use crate::dupkey::{
    dup_key, i64_to_decimal, int_decimal, lemma_int_decimal, lemma_split_at_comma,
    KeyOpts,
};
use crate::error::CtdError;
use crate::profiles::{lemma_seq_sum_prefix, lemma_tally, seq_sum, ProfileTally};
use crate::text::{push_char, push_str, u64_to_decimal};

verus! {

/// Which columns to read and whether the platform code takes part in the key.
#[derive(Clone, Debug)]
pub struct CompareOpts {
    pub key: KeyOpts,
    pub platform_col: String,
    pub time_col: String,
    pub lon_col: String,
    pub lat_col: String,
    /// When false the key is time and position only, so the same cast under
    /// two platform codes still counts as common.
    pub use_platform: bool,
}

impl Default for CompareOpts {
    /// The key options' defaults, the standard column names, and the
    /// platform code in the key.
    fn default() -> (r: Self)
        ensures
            r.key.time_format@ == "%Y-%m-%d"@,
            r.key.decimals == 3,
            r.platform_col@ == "platform_code"@,
            r.time_col@ == "profile_time"@,
            r.lon_col@ == "longitude"@,
            r.lat_col@ == "latitude"@,
            r.use_platform,
    {
        CompareOpts {
            key: KeyOpts::default(),
            platform_col: String::from_str("platform_code"),
            time_col: String::from_str("profile_time"),
            lon_col: String::from_str("longitude"),
            lat_col: String::from_str("latitude"),
            use_platform: true,
        }
    }
}

/// How the time column carries its value: days since 1950 as a float, or a
/// datetime.
#[derive(Clone, Copy, Debug, PartialEq, Eq, Structural)]
pub enum TimeKind {
    Days1950,
    Datetime,
}

/// The type of a column of the table, as far as the comparison cares.
#[derive(Clone, Debug)]
pub enum ColumnType {
    Datetime,
    Float64,
    Float32,
    /// Any other type, with the name the table gives it.
    Other(String),
}

/// The table has a column named `name`.
pub open spec fn has_column(schema: Seq<(String, ColumnType)>, name: Seq<char>) -> bool {
    exists|i: int| 0 <= i < schema.len() && (#[trigger] schema[i]).0@ == name
}

/// The type of the first column named `name`.
pub open spec fn column_type(schema: Seq<(String, ColumnType)>, name: Seq<char>) -> ColumnType
    decreases schema.len(),
{
    if schema.len() == 0 {
        arbitrary()
    } else if schema[0].0@ == name {
        schema[0].1
    } else {
        column_type(schema.drop_first(), name)
    }
}

/// The columns a comparison reads, in the order they are reported.
pub open spec fn required_columns(opts: CompareOpts) -> Seq<Seq<char>> {
    seq![opts.platform_col@, "profile_no"@, opts.time_col@, opts.lon_col@, opts.lat_col@]
}

/// The names of `names` that the table lacks, in order.
pub open spec fn missing_columns(schema: Seq<(String, ColumnType)>, names: Seq<Seq<char>>) -> Seq<Seq<char>>
    decreases names.len(),
{
    if names.len() == 0 {
        Seq::empty()
    } else {
        let prev = missing_columns(schema, names.drop_last());
        if has_column(schema, names.last()) {
            prev
        } else {
            prev.push(names.last())
        }
    }
}

/// Find the column named `name`.
fn find_column(schema: &Vec<(String, ColumnType)>, name: &str) -> (r: Option<usize>)
    ensures
        r is None ==> !has_column(schema@, name@),
        r matches Some(i) ==> i < schema.len() && schema@[i as int].0@ == name@ && column_type(
            schema@,
            name@,
        ) == schema@[i as int].1,
{
    let target = name.to_owned();
    let mut i: usize = 0;
    proof {
        assert(schema@.subrange(0, schema.len() as int) =~= schema@);
    }
    while i < schema.len()
        invariant
            i <= schema.len(),
            target@ == name@,
            forall|j: int| 0 <= j < i ==> (#[trigger] schema@[j]).0@ != name@,
            column_type(schema@, name@) == column_type(schema@.subrange(i as int, schema.len() as int), name@),
        decreases schema.len() - i,
    {
        let ghost rest = schema@.subrange(i as int, schema.len() as int);
        if schema[i].0 == target {
            proof {
                assert(rest[0] == schema@[i as int]);
            }
            return Some(i);
        }
        proof {
            assert(rest.drop_first() =~= schema@.subrange(i as int + 1, schema.len() as int));
        }
        i += 1;
    }
    None
}

/// Check that the columns a comparison reads exist, and decide how the time
/// column is read. A missing column is an error that lists the missing and
/// the available columns; a time column that is neither a datetime nor a
/// float is an error that names its type.
pub fn check_columns(opts: &CompareOpts, schema: &Vec<(String, ColumnType)>, src: &str) -> (r: Result<TimeKind, CtdError>)
    ensures
        missing_columns(schema@, required_columns(*opts)).len() > 0 ==> (r matches Err(
            CtdError::MissingColumns { src: s, missing, available },
        ) && s@ == src@ && missing@.map_values(|m: String| m@) == missing_columns(
            schema@,
            required_columns(*opts),
        ) && available@.map_values(|a: String| a@) == schema@.map_values(
            |c: (String, ColumnType)| c.0@,
        )),
        missing_columns(schema@, required_columns(*opts)).len() == 0 ==> match column_type(
            schema@,
            opts.time_col@,
        ) {
            ColumnType::Datetime => r == Ok::<TimeKind, CtdError>(TimeKind::Datetime),
            ColumnType::Float64 | ColumnType::Float32 => r == Ok::<TimeKind, CtdError>(TimeKind::Days1950),
            ColumnType::Other(t) => r matches Err(CtdError::TimeColumnType { src: s, column, found })
                && s@ == src@ && column@ == opts.time_col@ && found@ == t@,
        },
{
    let mut names: Vec<String> = Vec::new();
    names.push(opts.platform_col.clone());
    names.push(String::from_str("profile_no"));
    names.push(opts.time_col.clone());
    names.push(opts.lon_col.clone());
    names.push(opts.lat_col.clone());
    let ghost req = required_columns(*opts);
    assert(names@.map_values(|m: String| m@) =~= req);
    let mut missing: Vec<String> = Vec::new();
    let mut i: usize = 0;
    while i < names.len()
        invariant
            names.len() == 5,
            i <= 5,
            names@.map_values(|m: String| m@) == req,
            missing@.map_values(|m: String| m@) == missing_columns(schema@, req.take(i as int)),
        decreases 5 - i,
    {
        proof {
            assert(req.take(i as int + 1).drop_last() =~= req.take(i as int));
            assert(req[i as int] == names@[i as int]@);
        }
        match find_column(schema, names[i].as_str()) {
            Some(_) => {},
            None => {
                let ghost before = missing@;
                missing.push(names[i].clone());
                proof {
                    assert(missing@.map_values(|m: String| m@) =~= before.map_values(|m: String| m@).push(
                        names@[i as int]@,
                    ));
                }
            },
        }
        i += 1;
    }
    proof {
        assert(req.take(5) =~= req);
    }
    if missing.len() > 0 {
        let mut available: Vec<String> = Vec::new();
        let mut j: usize = 0;
        while j < schema.len()
            invariant
                j <= schema.len(),
                available@.map_values(|a: String| a@) == schema@.take(j as int).map_values(
                    |c: (String, ColumnType)| c.0@,
                ),
            decreases schema.len() - j,
        {
            let ghost before = available@;
            let name = schema[j].0.clone();
            available.push(name);
            proof {
                assert(available@ == before.push(name));
                assert(available@.map_values(|a: String| a@) =~= before.map_values(|a: String| a@).push(
                    name@,
                ));
                assert(schema@.take(j as int + 1) =~= schema@.take(j as int).push(schema@[j as int]));
                assert(schema@.take(j as int + 1).map_values(|c: (String, ColumnType)| c.0@) =~= schema@.take(
                    j as int,
                ).map_values(|c: (String, ColumnType)| c.0@).push(schema@[j as int].0@));
            }
            j += 1;
        }
        proof {
            assert(schema@.take(schema.len() as int) =~= schema@);
        }
        return Err(CtdError::MissingColumns { src: src.to_owned(), missing, available });
    }
    proof {
        assert(missing_columns(schema@, req).len() == 0);
        assert(has_column(schema@, opts.time_col@)) by {
            assert(req.take(3).drop_last() =~= req.take(2));
            lemma_missing_columns_all(schema@, req, 2);
        }
    }
    let t = find_column(schema, opts.time_col.as_str());
    match t {
        Some(k) => match &schema[k].1 {
            ColumnType::Datetime => Ok(TimeKind::Datetime),
            ColumnType::Float64 => Ok(TimeKind::Days1950),
            ColumnType::Float32 => Ok(TimeKind::Days1950),
            ColumnType::Other(name) => Err(
                CtdError::TimeColumnType {
                    src: src.to_owned(),
                    column: opts.time_col.clone(),
                    found: name.clone(),
                },
            ),
        },
        None => {
            proof {
                assert(false);
            }
            Err(CtdError::NoTarget)
        },
    }
}

/// With nothing missing, every required column is there.
proof fn lemma_missing_columns_all(schema: Seq<(String, ColumnType)>, names: Seq<Seq<char>>, k: int)
    requires
        missing_columns(schema, names).len() == 0,
        0 <= k < names.len(),
    ensures
        has_column(schema, names[k]),
    decreases names.len(),
{
    let prev = missing_columns(schema, names.drop_last());
    if k < names.len() - 1 {
        if !has_column(schema, names.last()) {
            assert(missing_columns(schema, names).len() == prev.len() + 1);
        }
        assert(names.drop_last()[k] == names[k]);
        lemma_missing_columns_all(schema, names.drop_last(), k);
    } else {
        if !has_column(schema, names.last()) {
            assert(missing_columns(schema, names).len() == prev.len() + 1);
        }
    }
}

/// A comparison key: the optional platform code, the formatted date, and the
/// rounded longitude and latitude.
pub type MatchKey = (Option<Seq<char>>, Seq<char>, i64, i64);

/// The comparison key of a profile of platform `platform` whose first row
/// carries a timestamp and rounded coordinates.
pub open spec fn match_key(
    fmt: Seq<char>,
    use_platform: bool,
    platform: Seq<char>,
    first: (Option<i64>, Option<i64>, Option<i64>),
) -> Option<MatchKey> {
    match dup_key(fmt, first.0, first.1, first.2) {
        Some(k) => Some((if use_platform { Some(platform) } else { None }, k.0, k.1, k.2)),
        None => None,
    }
}

/// The comparison keys of the profiles of a tally.
pub open spec fn tally_keys(
    fmt: Seq<char>,
    use_platform: bool,
    t: ProfileTally<(Option<i64>, Option<i64>, Option<i64>)>,
) -> Seq<Option<MatchKey>> {
    Seq::new(
        t.profiles().len(),
        |i: int| match_key(fmt, use_platform, t.profiles()[i].0, t.first_values()[i]),
    )
}

/// The text a comparison key is held under: longitude, latitude, the length
/// of the date and the date, then `!` and the platform code when there is one.
pub open spec fn match_text(k: MatchKey) -> Seq<char> {
    int_decimal(k.2 as int) + seq![','] + int_decimal(k.3 as int) + seq![','] + int_decimal(
        k.1.len() as int,
    ) + seq![','] + k.1 + match k.0 {
        Some(p) => seq!['!'] + p,
        None => Seq::empty(),
    }
}

/// The text a comparison key and an observation count are held under.
pub open spec fn match_count_text(k: MatchKey, n: u64) -> Seq<char> {
    int_decimal(n as int) + seq![','] + match_text(k)
}

/// Different keys are held under different texts.
#[verifier::rlimit(40)]
pub proof fn lemma_match_text_injective(a: MatchKey, b: MatchKey)
    ensures
        match_text(a) == match_text(b) <==> a == b,
{
    if match_text(a) == match_text(b) {
        let pa = match a.0 {
            Some(p) => seq!['!'] + p,
            None => Seq::empty(),
        };
        let pb = match b.0 {
            Some(p) => seq!['!'] + p,
            None => Seq::empty(),
        };
        let ta = a.1 + pa;
        let tb = b.1 + pb;
        let ra2 = int_decimal(a.1.len() as int) + seq![','] + ta;
        let rb2 = int_decimal(b.1.len() as int) + seq![','] + tb;
        let ra1 = int_decimal(a.3 as int) + seq![','] + ra2;
        let rb1 = int_decimal(b.3 as int) + seq![','] + rb2;
        assert(match_text(a) =~= int_decimal(a.2 as int) + seq![','] + ra1);
        assert(match_text(b) =~= int_decimal(b.2 as int) + seq![','] + rb1);
        lemma_int_decimal(a.2 as int, b.2 as int);
        lemma_int_decimal(b.2 as int, a.2 as int);
        lemma_split_at_comma(int_decimal(a.2 as int), ra1, int_decimal(b.2 as int), rb1);
        lemma_int_decimal(a.3 as int, b.3 as int);
        lemma_int_decimal(b.3 as int, a.3 as int);
        lemma_split_at_comma(int_decimal(a.3 as int), ra2, int_decimal(b.3 as int), rb2);
        lemma_int_decimal(a.1.len() as int, b.1.len() as int);
        lemma_int_decimal(b.1.len() as int, a.1.len() as int);
        lemma_split_at_comma(int_decimal(a.1.len() as int), ta, int_decimal(b.1.len() as int), tb);
        assert(a.1.len() == b.1.len());
        assert(a.1 =~= ta.take(a.1.len() as int));
        assert(b.1 =~= tb.take(b.1.len() as int));
        assert(pa =~= ta.skip(a.1.len() as int));
        assert(pb =~= tb.skip(b.1.len() as int));
        match (a.0, b.0) {
            (Some(p), Some(q)) => {
                assert(p =~= pa.drop_first());
                assert(q =~= pb.drop_first());
            },
            (Some(p), None) => {
                assert(pa.len() >= 1);
            },
            (None, Some(q)) => {
                assert(pb.len() >= 1);
            },
            (None, None) => {},
        }
    }
}

/// Different key and count pairs are held under different texts.
pub proof fn lemma_match_count_text_injective(a: MatchKey, n: u64, b: MatchKey, m: u64)
    ensures
        match_count_text(a, n) == match_count_text(b, m) <==> (a == b && n == m),
{
    if match_count_text(a, n) == match_count_text(b, m) {
        lemma_int_decimal(n as int, m as int);
        lemma_int_decimal(m as int, n as int);
        lemma_split_at_comma(int_decimal(n as int), match_text(a), int_decimal(m as int), match_text(b));
        lemma_match_text_injective(a, b);
    }
}

/// The comparison key of a profile.
fn match_key_of(
    opts: &CompareOpts,
    platform: &String,
    first: &(Option<i64>, Option<i64>, Option<i64>),
) -> (r: Option<(Option<String>, String, i64, i64)>)
    ensures
        match r {
            Some(k) => match_key(opts.key.time_format@, opts.use_platform, platform@, *first) == Some(
                (
                    match k.0 {
                        Some(p) => Some(p@),
                        None => None,
                    },
                    k.1@,
                    k.2,
                    k.3,
                ),
            ),
            None => match_key(opts.key.time_format@, opts.use_platform, platform@, *first) is None,
        },
{
    match opts.key.key(first.0, first.1, first.2) {
        Some(k) => {
            let p = if opts.use_platform {
                Some(platform.clone())
            } else {
                None
            };
            Some((p, k.0, k.1, k.2))
        },
        None => None,
    }
}

/// The view of an executable comparison key.
pub open spec fn match_view(k: (Option<String>, String, i64, i64)) -> MatchKey {
    (
        match k.0 {
            Some(p) => Some(p@),
            None => None,
        },
        k.1@,
        k.2,
        k.3,
    )
}

/// The text of a comparison key.
fn match_text_of(k: &(Option<String>, String, i64, i64)) -> (r: String)
    ensures
        r@ == match_text(match_view(*k)),
{
    let mut r = i64_to_decimal(k.2);
    push_char(&mut r, ',');
    let y = i64_to_decimal(k.3);
    push_str(&mut r, y.as_str());
    push_char(&mut r, ',');
    let n = k.1.as_str().unicode_len();
    let l = u64_to_decimal(n as u64);
    push_str(&mut r, l.as_str());
    push_char(&mut r, ',');
    push_str(&mut r, k.1.as_str());
    match &k.0 {
        Some(p) => {
            push_char(&mut r, '!');
            push_str(&mut r, p.as_str());
        },
        None => {},
    }
    proof {
        assert(int_decimal(n as int) == crate::text::decimal(n as nat));
        assert(r@ =~= match_text(match_view(*k)));
    }
    r
}

/// The text of a comparison key with an observation count.
fn match_count_text_of(k: &(Option<String>, String, i64, i64), n: u64) -> (r: String)
    ensures
        r@ == match_count_text(match_view(*k), n),
{
    let mut r = u64_to_decimal(n);
    push_char(&mut r, ',');
    let t = match_text_of(k);
    push_str(&mut r, t.as_str());
    proof {
        assert(r@ =~= match_count_text(match_view(*k), n));
    }
    r
}

/// The number of `true` entries.
pub open spec fn count_true(s: Seq<bool>) -> nat
    decreases s.len(),
{
    if s.len() == 0 {
        0
    } else {
        count_true(s.drop_last()) + if s.last() {
            1nat
        } else {
            0nat
        }
    }
}

/// The sum of the counts whose flag is set.
pub open spec fn sum_where(flags: Seq<bool>, n: Seq<u64>) -> nat
    decreases flags.len(),
{
    if flags.len() == 0 {
        0
    } else {
        sum_where(flags.drop_last(), n) + if flags.last() {
            n[flags.len() - 1] as nat
        } else {
            0nat
        }
    }
}

/// The counts of one direction of a comparison: how far `compared` covers
/// `reference`.
#[derive(Debug, Clone, Copy)]
pub struct Direction {
    pub ref_platforms: u64,
    pub common_platforms: u64,
    pub ref_profiles: u64,
    pub ref_unkeyed_profiles: u64,
    pub matched_profiles: u64,
    /// Matched profiles with a profile of the same key and the same number
    /// of observations in the compared file.
    pub same_nobs: u64,
    pub diff_nobs: u64,
    pub ref_observations: u64,
    pub matched_observations: u64,
}

/// The profiles of the reference without a key.
pub open spec fn unkeyed_flags(kr: Seq<Option<MatchKey>>) -> Seq<bool> {
    Seq::new(kr.len(), |i: int| kr[i] is None)
}

/// The profiles of the reference whose key some profile of the compared
/// file has.
pub open spec fn matched_flags(kr: Seq<Option<MatchKey>>, ko: Seq<Option<MatchKey>>) -> Seq<bool> {
    Seq::new(kr.len(), |i: int| kr[i] is Some && ko.contains(kr[i]))
}

/// The profiles of the reference whose key and observation count some
/// profile of the compared file has.
pub open spec fn same_flags(
    kr: Seq<Option<MatchKey>>,
    nr: Seq<u64>,
    ko: Seq<Option<MatchKey>>,
    no: Seq<u64>,
) -> Seq<bool> {
    Seq::new(
        kr.len(),
        |i: int| kr[i] is Some && exists|j: int| 0 <= j < ko.len() && ko[j] == kr[i] && no[j] == nr[i],
    )
}

/// The platforms of the reference that the compared file also has.
pub open spec fn common_flags(pr: Seq<Seq<char>>, po: Seq<Seq<char>>) -> Seq<bool> {
    Seq::new(pr.len(), |k: int| po.contains(pr[k]))
}

/// The counts of one direction, as a function of the two tallies.
pub open spec fn direction_spec(
    fmt: Seq<char>,
    use_platform: bool,
    r: ProfileTally<(Option<i64>, Option<i64>, Option<i64>)>,
    o: ProfileTally<(Option<i64>, Option<i64>, Option<i64>)>,
    d: Direction,
) -> bool {
    let kr = tally_keys(fmt, use_platform, r);
    let ko = tally_keys(fmt, use_platform, o);
    let nr = r.row_counts();
    let no = o.row_counts();
    &&& d.ref_platforms == r.platform_count()
    &&& d.common_platforms == count_true(common_flags(r.platform_codes(), o.platform_codes()))
    &&& d.ref_profiles == r.profiles().len()
    &&& d.ref_unkeyed_profiles == count_true(unkeyed_flags(kr))
    &&& d.matched_profiles == count_true(matched_flags(kr, ko))
    &&& d.same_nobs == count_true(same_flags(kr, nr, ko, no))
    &&& d.diff_nobs == d.matched_profiles - d.same_nobs
    &&& d.ref_observations == r.seen().len()
    &&& d.matched_observations == sum_where(matched_flags(kr, ko), nr)
}

/// A profile with the same key and count has the same key.
proof fn lemma_same_implies_matched(
    kr: Seq<Option<MatchKey>>,
    nr: Seq<u64>,
    ko: Seq<Option<MatchKey>>,
    no: Seq<u64>,
    m: int,
)
    requires
        nr.len() == kr.len(),
        no.len() == ko.len(),
        0 <= m <= kr.len(),
    ensures
        count_true(same_flags(kr, nr, ko, no).take(m)) <= count_true(matched_flags(kr, ko).take(m)),
    decreases m,
{
    if m > 0 {
        let s = same_flags(kr, nr, ko, no);
        let t = matched_flags(kr, ko);
        assert(s.take(m).drop_last() =~= s.take(m - 1));
        assert(t.take(m).drop_last() =~= t.take(m - 1));
        if s[m - 1] {
            let j = choose|j: int| 0 <= j < ko.len() && ko[j] == kr[m - 1] && no[j] == nr[m - 1];
            assert(ko.contains(kr[m - 1]));
        }
        lemma_same_implies_matched(kr, nr, ko, no, m - 1);
    }
}

/// The matched observations of a prefix are no more than all its observations.
proof fn lemma_sum_where_bound(flags: Seq<bool>, n: Seq<u64>, m: int)
    requires
        flags.len() == n.len(),
        0 <= m <= flags.len(),
    ensures
        sum_where(flags.take(m), n) <= seq_sum(n.take(m)),
    decreases m,
{
    if m > 0 {
        assert(flags.take(m).drop_last() =~= flags.take(m - 1));
        assert(n.take(m).drop_last() =~= n.take(m - 1));
        lemma_sum_where_bound(flags, n, m - 1);
    }
}

/// The set of key texts of a tally's keyed profiles, and the set of their
/// key and count texts.
fn index_keys(
    opts: &CompareOpts,
    o: &ProfileTally<(Option<i64>, Option<i64>, Option<i64>)>,
) -> (r: (StringHashMap<bool>, StringHashMap<bool>))
    requires
        o.wf(),
    ensures
        forall|t: Seq<char>| #[trigger] r.0@.contains_key(t) <==> exists|j: int|
            0 <= j < o.profiles().len() && tally_keys(opts.key.time_format@, opts.use_platform, *o)[j] is Some
                && match_text(tally_keys(opts.key.time_format@, opts.use_platform, *o)[j]->0) == t,
        forall|t: Seq<char>| #[trigger] r.1@.contains_key(t) <==> exists|j: int|
            0 <= j < o.profiles().len() && tally_keys(opts.key.time_format@, opts.use_platform, *o)[j] is Some
                && match_count_text(tally_keys(opts.key.time_format@, opts.use_platform, *o)[j]->0, o.row_counts()[j]) == t,
{
    proof {
        lemma_tally(o);
    }
    let ghost ko = tally_keys(opts.key.time_format@, opts.use_platform, *o);
    let mut keys: StringHashMap<bool> = StringHashMap::new();
    let mut pairs: StringHashMap<bool> = StringHashMap::new();
    let n = o.len();
    let mut j: usize = 0;
    while j < n
        invariant
            o.wf(),
            o.tallies(),
            n == o.profiles().len(),
            j <= n,
            ko == tally_keys(opts.key.time_format@, opts.use_platform, *o),
            forall|t: Seq<char>| #[trigger] keys@.contains_key(t) <==> exists|i: int|
                0 <= i < j && ko[i] is Some && match_text(ko[i]->0) == t,
            forall|t: Seq<char>| #[trigger] pairs@.contains_key(t) <==> exists|i: int|
                0 <= i < j && ko[i] is Some && match_count_text(ko[i]->0, o.row_counts()[i]) == t,
        decreases n - j,
    {
        let (platform, _) = o.profile_at(j);
        let first = o.first_value_at(j);
        let count = o.count_at(j);
        let k = match_key_of(opts, platform, first);
        proof {
            assert(ko[j as int] == match_key(opts.key.time_format@, opts.use_platform, platform@, *first));
        }
        match &k {
            Some(k) => {
                let t = match_text_of(k);
                let c = match_count_text_of(k, count);
                let ghost tv = t@;
                let ghost cv = c@;
                keys.insert(t, true);
                pairs.insert(c, true);
                proof {
                    assert forall|u: Seq<char>| #[trigger] keys@.contains_key(u) <==> exists|i: int|
                        0 <= i < j + 1 && ko[i] is Some && match_text(ko[i]->0) == u by {
                        if u == tv {
                            assert(ko[j as int] is Some && match_text(ko[j as int]->0) == u);
                        }
                    }
                    assert forall|u: Seq<char>| #[trigger] pairs@.contains_key(u) <==> exists|i: int|
                        0 <= i < j + 1 && ko[i] is Some && match_count_text(ko[i]->0, o.row_counts()[i]) == u by {
                        if u == cv {
                            assert(ko[j as int] is Some && match_count_text(ko[j as int]->0, o.row_counts()[j as int]) == u);
                        }
                    }
                }
            },
            None => {},
        }
        j += 1;
    }
    (keys, pairs)
}

/// The counts of one direction: how far the tally `o` covers the tally `r`.
pub fn direction(
    opts: &CompareOpts,
    r: &ProfileTally<(Option<i64>, Option<i64>, Option<i64>)>,
    o: &ProfileTally<(Option<i64>, Option<i64>, Option<i64>)>,
) -> (d: Direction)
    requires
        r.wf(),
        o.wf(),
    ensures
        direction_spec(opts.key.time_format@, opts.use_platform, *r, *o, d),
{
    proof {
        lemma_tally(r);
        lemma_tally(o);
    }
    let ghost fmt = opts.key.time_format@;
    let ghost kr = tally_keys(fmt, opts.use_platform, *r);
    let ghost ko = tally_keys(fmt, opts.use_platform, *o);
    let ghost nr = r.row_counts();
    let ghost no = o.row_counts();
    let (keys, pairs) = index_keys(opts, o);
    let np = r.platform_total();
    let mut common: u64 = 0;
    let mut k: usize = 0;
    while k < np
        invariant
            r.wf(),
            o.wf(),
            np == r.platform_count(),
            k <= np,
            r.platform_codes().len() == np,
            common == count_true(common_flags(r.platform_codes(), o.platform_codes()).take(k as int)),
            common <= k,
        decreases np - k,
    {
        let p = r.platform_at(k);
        let has = o.has_platform(p.as_str());
        proof {
            let f = common_flags(r.platform_codes(), o.platform_codes());
            assert(f.take(k as int + 1).drop_last() =~= f.take(k as int));
        }
        if has {
            common = common + 1;
        }
        k += 1;
    }
    proof {
        let f = common_flags(r.platform_codes(), o.platform_codes());
        assert(f.take(np as int) =~= f);
    }
    let n = r.len();
    let mut unkeyed: u64 = 0;
    let mut matched: u64 = 0;
    let mut same: u64 = 0;
    let mut matched_obs: u64 = 0;
    let mut i: usize = 0;
    while i < n
        invariant
            r.wf(),
            o.wf(),
            r.tallies(),
            o.tallies(),
            n == r.profiles().len(),
            i <= n,
            kr == tally_keys(fmt, opts.use_platform, *r),
            ko == tally_keys(fmt, opts.use_platform, *o),
            fmt == opts.key.time_format@,
            nr == r.row_counts(),
            no == o.row_counts(),
            forall|t: Seq<char>| #[trigger] keys@.contains_key(t) <==> exists|j: int|
                0 <= j < o.profiles().len() && ko[j] is Some && match_text(ko[j]->0) == t,
            forall|t: Seq<char>| #[trigger] pairs@.contains_key(t) <==> exists|j: int|
                0 <= j < o.profiles().len() && ko[j] is Some && match_count_text(ko[j]->0, no[j]) == t,
            unkeyed == count_true(unkeyed_flags(kr).take(i as int)),
            matched == count_true(matched_flags(kr, ko).take(i as int)),
            same == count_true(same_flags(kr, nr, ko, no).take(i as int)),
            matched_obs == sum_where(matched_flags(kr, ko).take(i as int), nr),
            unkeyed <= i,
            matched <= i,
            same <= i,
        decreases n - i,
    {
        let (platform, _) = r.profile_at(i);
        let first = r.first_value_at(i);
        let count = r.count_at(i);
        let key = match_key_of(opts, platform, first);
        let ghost uf = unkeyed_flags(kr);
        let ghost mf = matched_flags(kr, ko);
        let ghost sf = same_flags(kr, nr, ko, no);
        proof {
            assert(kr[i as int] == match_key(fmt, opts.use_platform, platform@, *first));
            assert(uf.take(i as int + 1).drop_last() =~= uf.take(i as int));
            assert(mf.take(i as int + 1).drop_last() =~= mf.take(i as int));
            assert(sf.take(i as int + 1).drop_last() =~= sf.take(i as int));
            lemma_sum_where_bound(mf, nr, i as int + 1);
            lemma_seq_sum_prefix(nr, i as int + 1);
            assert(nr.take(i as int + 1).drop_last() =~= nr.take(i as int));
        }
        match &key {
            None => {
                unkeyed = unkeyed + 1;
            },
            Some(k) => {
                let t = match_text_of(k);
                let c = match_count_text_of(k, count);
                let ghost ki = match_view(*k);
                proof {
                    assert(kr[i as int] == Some(ki));
                }
                if keys.contains_key(t.as_str()) {
                    proof {
                        let j = choose|j: int|
                            0 <= j < o.profiles().len() && ko[j] is Some && match_text(ko[j]->0) == t@;
                        lemma_match_text_injective(ko[j]->0, ki);
                        assert(ko[j] == kr[i as int]);
                        assert(ko.contains(kr[i as int]));
                        assert(mf[i as int]);
                    }
                    matched = matched + 1;
                    matched_obs = matched_obs + count;
                } else {
                    proof {
                        if ko.contains(kr[i as int]) {
                            let j = choose|j: int| 0 <= j < ko.len() && ko[j] == kr[i as int];
                            assert(keys@.contains_key(match_text(ko[j]->0)));
                        }
                    }
                }
                if pairs.contains_key(c.as_str()) {
                    proof {
                        let j = choose|j: int|
                            0 <= j < o.profiles().len() && ko[j] is Some && match_count_text(ko[j]->0, no[j]) == c@;
                        lemma_match_count_text_injective(ko[j]->0, no[j], ki, count);
                        assert(sf[i as int]);
                    }
                    same = same + 1;
                } else {
                    proof {
                        if sf[i as int] {
                            let j = choose|j: int| 0 <= j < ko.len() && ko[j] == kr[i as int] && no[j] == nr[i as int];
                            assert(pairs@.contains_key(match_count_text(ko[j]->0, no[j])));
                        }
                    }
                }
            },
        }
        i += 1;
    }
    proof {
        assert(unkeyed_flags(kr).take(n as int) =~= unkeyed_flags(kr));
        assert(matched_flags(kr, ko).take(n as int) =~= matched_flags(kr, ko));
        assert(same_flags(kr, nr, ko, no).take(n as int) =~= same_flags(kr, nr, ko, no));
        lemma_same_implies_matched(kr, nr, ko, no, n as int);
    }
    Direction {
        ref_platforms: np as u64,
        common_platforms: common,
        ref_profiles: n as u64,
        ref_unkeyed_profiles: unkeyed,
        matched_profiles: matched,
        same_nobs: same,
        diff_nobs: matched - same,
        ref_observations: r.row_total(),
        matched_observations: matched_obs,
    }
}

/// Both directions of a comparison of `a` with `b`: `b` as the reference
/// first, then `a`.
pub fn compare_tallies(
    opts: &CompareOpts,
    a: &ProfileTally<(Option<i64>, Option<i64>, Option<i64>)>,
    b: &ProfileTally<(Option<i64>, Option<i64>, Option<i64>)>,
) -> (r: (Direction, Direction))
    requires
        a.wf(),
        b.wf(),
    ensures
        direction_spec(opts.key.time_format@, opts.use_platform, *b, *a, r.0),
        direction_spec(opts.key.time_format@, opts.use_platform, *a, *b, r.1),
{
    (direction(opts, b, a), direction(opts, a, b))
}

/// The label of a file in the report: its stem, or the whole path when it
/// has none.
pub fn label(path: &str) -> (r: String)
    ensures
        match crate::convert::common::path_file_stem(path@) {
            Some(s) => r@ == s,
            None => r@ == path@,
        },
{
    match base_file_name_checked(path) {
        Some(s) => s,
        None => path.to_owned(),
    }
}

} // verus!
