use ctddump::compare::{check_columns, compare_tallies, label, ColumnType, CompareOpts, TimeKind};
use ctddump::dedup::{dedup_keep, row_mask, select_survivors};
use ctddump::dropna::NaFilter;
use ctddump::dropqc::{keep_row, qc_mask};
use ctddump::dupkey::{KeyOpts, RoundMode};
use ctddump::error::CtdError;
use ctddump::markdup::markdup_plan;
use ctddump::profiles::ProfileTally;

const JAN1_2020: i64 = 1_577_836_800_000;
const HOUR: i64 = 3_600_000;
const DAY: i64 = 86_400_000;

type Raw = (Option<i64>, Option<i64>, Option<i64>);

fn tally(rows: &[(&str, u32, Raw)]) -> ProfileTally<Raw> {
    let mut t = ProfileTally::new();
    for (p, n, v) in rows {
        t.observe(p, *n, *v);
    }
    t
}

#[test]
fn key_options_default_to_the_date_and_three_decimals() {
    let o = KeyOpts::default();
    assert_eq!(o.time_format, "%Y-%m-%d");
    assert_eq!(o.decimals, 3);
    assert_eq!(o.round_mode, RoundMode::Round);
    assert!(o.validate().is_ok());
}

#[test]
fn an_invalid_time_format_is_refused() {
    let o = KeyOpts { time_format: "%Y-%Q".to_string(), decimals: 3, round_mode: RoundMode::Floor };
    match o.validate() {
        Err(CtdError::InvalidTimeFormat { format }) => assert_eq!(format, "%Y-%Q"),
        other => panic!("expected an invalid format error, got {other:?}"),
    }
}

#[test]
fn a_key_formats_the_timestamp_and_keeps_the_rounded_position() {
    let o = KeyOpts::default();
    assert_eq!(
        o.key(Some(JAN1_2020 + 5 * HOUR), Some(12345), Some(-6789)),
        Some(("2020-01-01".to_string(), 12345, -6789))
    );
    let hourly = KeyOpts { time_format: "%Y-%m-%dT%H".to_string(), ..KeyOpts::default() };
    assert_eq!(hourly.key(Some(JAN1_2020 + 5 * HOUR), Some(1), Some(2)).unwrap().0, "2020-01-01T05");
}

#[test]
fn a_missing_component_gives_no_key() {
    let o = KeyOpts::default();
    assert_eq!(o.key(None, Some(1), Some(2)), None);
    assert_eq!(o.key(Some(JAN1_2020), None, Some(2)), None);
    assert_eq!(o.key(Some(JAN1_2020), Some(1), None), None);
    // Beyond chrono's range there is no date either.
    assert_eq!(o.key(Some(i64::MAX), Some(1), Some(2)), None);
}

#[test]
fn the_tally_numbers_profiles_by_first_row_and_counts_rows() {
    let t = tally(&[
        ("B", 1, (Some(1), None, None)),
        ("A", 1, (Some(2), None, None)),
        ("B", 1, (Some(3), None, None)),
        ("B", 2, (Some(4), None, None)),
        ("A", 1, (Some(5), None, None)),
    ]);
    assert_eq!(t.len(), 3);
    assert_eq!(t.row_total(), 5);
    assert_eq!(t.platform_total(), 2);
    assert_eq!(t.profile_at(0), (&"B".to_string(), 1));
    assert_eq!(t.profile_at(1), (&"A".to_string(), 1));
    assert_eq!(t.profile_at(2), (&"B".to_string(), 2));
    assert_eq!(t.count_at(0), 2);
    assert_eq!(t.count_at(1), 2);
    assert_eq!(t.count_at(2), 1);
    assert_eq!(t.first_value_at(0).0, Some(1));
    assert_eq!(t.first_value_at(1).0, Some(2));
    assert_eq!(t.find("B", 2), Some(2));
    assert_eq!(t.find("C", 1), None);
    assert!(t.has_platform("A") && !t.has_platform("C"));
}

#[test]
fn observing_reports_whether_the_profile_is_new() {
    let mut t: ProfileTally<u8> = ProfileTally::new();
    assert_eq!(t.observe("P", 7, 0), (0, true));
    assert_eq!(t.observe("P", 8, 0), (1, true));
    assert_eq!(t.observe("P", 7, 0), (0, false));
    assert_eq!(t.observe("Q", 7, 0), (2, true));
}

#[test]
fn survivors_are_the_biggest_profile_of_each_group_ties_to_the_first() {
    let k = |d: &str| Some((d.to_string(), 1i64, 2i64));
    let keys = vec![k("a"), k("a"), None, k("b"), k("a"), k("b")];
    let n_obs = vec![3u64, 5, 1, 4, 5, 4];
    assert_eq!(select_survivors(&keys, &n_obs), vec![false, true, true, true, false, false]);
}

#[test]
fn dedup_keeps_one_profile_per_key_across_platforms() {
    let here = (Some(JAN1_2020), Some(1000), Some(2000));
    let later_same_day = (Some(JAN1_2020 + 6 * HOUR), Some(1000), Some(2000));
    let next_day = (Some(JAN1_2020 + DAY), Some(1000), Some(2000));
    let t = tally(&[
        ("A", 1, here),
        ("A", 1, here),
        ("B", 1, later_same_day),
        ("B", 1, later_same_day),
        ("B", 1, later_same_day),
        ("C", 1, next_day),
        ("D", 1, (None, Some(1), Some(1))),
    ]);
    let keep = dedup_keep(&KeyOpts::default(), &t);
    assert_eq!(keep, vec![false, true, true, true]);
    let mask = row_mask(
        &t,
        &keep,
        &vec!["A".to_string(), "B".to_string(), "X".to_string()],
        &vec![1, 1, 1],
    );
    assert_eq!(mask, vec![false, true, false]);
}

#[test]
fn markdup_flags_groups_numbers_them_in_key_order_and_sorts_the_report() {
    let p = |d: i64, x: i64| (Some(JAN1_2020 + d * DAY), Some(x), Some(0));
    let t = tally(&[
        ("Z", 1, p(1, 5)),
        ("A", 1, p(0, 9)),
        ("M", 1, p(1, 5)),
        ("A", 2, p(0, 9)),
        ("K", 1, p(0, 1)),
        ("B", 3, p(0, 9)),
    ]);
    let plan = markdup_plan(&KeyOpts::default(), &t);
    assert_eq!(plan.is_dup, vec![true, true, true, true, false, true]);
    // Keys: 2020-01-01/9 sorts before 2020-01-02/5.
    assert_eq!(plan.group, vec![2, 1, 2, 1, 0, 1]);
    // Group 1: A/1, A/2, B/3; group 2: M/1, Z/1.
    assert_eq!(plan.report, vec![1, 3, 5, 2, 0]);
}

#[test]
fn comparison_counts_both_directions() {
    let opts = CompareOpts::default();
    let p = |d: i64| (Some(JAN1_2020 + d * DAY), Some(10), Some(20));
    let a = tally(&[("A", 1, p(0)), ("A", 1, p(0)), ("A", 2, p(1))]);
    let b = tally(&[
        ("A", 7, p(0)),
        ("A", 7, p(0)),
        ("A", 8, p(1)),
        ("A", 8, p(1)),
        ("B", 1, p(2)),
        ("B", 2, (None, Some(1), Some(1))),
    ]);
    let (b_ref, a_ref) = compare_tallies(&opts, &a, &b);
    assert_eq!(b_ref.ref_platforms, 2);
    assert_eq!(b_ref.common_platforms, 1);
    assert_eq!(b_ref.ref_profiles, 4);
    assert_eq!(b_ref.ref_unkeyed_profiles, 1);
    assert_eq!(b_ref.matched_profiles, 2);
    assert_eq!(b_ref.same_nobs, 1);
    assert_eq!(b_ref.diff_nobs, 1);
    assert_eq!(b_ref.ref_observations, 6);
    assert_eq!(b_ref.matched_observations, 4);
    assert_eq!(a_ref.ref_profiles, 2);
    assert_eq!(a_ref.matched_profiles, 2);
    assert_eq!(a_ref.same_nobs, 1);
    assert_eq!(a_ref.ref_observations, 3);
    assert_eq!(a_ref.matched_observations, 3);
}

#[test]
fn without_the_platform_key_profiles_match_across_platforms() {
    let mut opts = CompareOpts::default();
    let p = (Some(JAN1_2020), Some(10), Some(20));
    let a = tally(&[("A", 1, p)]);
    let b = tally(&[("B", 1, p)]);
    assert_eq!(compare_tallies(&opts, &a, &b).1.matched_profiles, 0);
    opts.use_platform = false;
    assert_eq!(compare_tallies(&opts, &a, &b).1.matched_profiles, 1);
}

#[test]
fn a_missing_key_column_is_a_clean_error() {
    let opts = CompareOpts::default();
    let schema = vec![
        ("platform_code".to_string(), ColumnType::Other("String".to_string())),
        ("profile_no".to_string(), ColumnType::Other("UInt32".to_string())),
        ("longitude".to_string(), ColumnType::Float64),
    ];
    let err = check_columns(&opts, &schema, "a.parquet").unwrap_err();
    assert_eq!(
        err.message(),
        "a.parquet has no column profile_time, latitude (available: platform_code, profile_no, longitude)"
    );
}

#[test]
fn the_time_column_type_decides_how_time_is_read() {
    let opts = CompareOpts::default();
    let with_time = |t: ColumnType| {
        vec![
            ("platform_code".to_string(), ColumnType::Other("String".to_string())),
            ("profile_no".to_string(), ColumnType::Other("UInt32".to_string())),
            ("profile_time".to_string(), t),
            ("longitude".to_string(), ColumnType::Float64),
            ("latitude".to_string(), ColumnType::Float64),
        ]
    };
    assert_eq!(check_columns(&opts, &with_time(ColumnType::Float32), "f").unwrap(), TimeKind::Days1950);
    assert_eq!(check_columns(&opts, &with_time(ColumnType::Datetime), "f").unwrap(), TimeKind::Datetime);
    match check_columns(&opts, &with_time(ColumnType::Other("Int64".to_string())), "f") {
        Err(CtdError::TimeColumnType { found, .. }) => assert_eq!(found, "Int64"),
        other => panic!("expected a time type error, got {other:?}"),
    }
}

#[test]
fn a_file_is_labelled_by_its_stem() {
    assert_eq!(label("/x/y/extract.parquet"), "extract");
    assert_eq!(label("/"), "/");
}

#[test]
fn dropna_keeps_profiles_with_a_valid_value_of_every_parameter() {
    let mut f = NaFilter::new();
    f.observe("A", 1, true, false, false);
    f.observe("A", 1, false, true, true);
    f.observe("A", 2, true, true, false);
    f.observe("B", 1, false, false, false);
    let mask = f.keep_mask(
        &vec![Some("A".to_string()), Some("A".to_string()), Some("B".to_string()), None, Some("C".to_string())],
        &vec![Some(1), Some(2), Some(1), Some(1), Some(1)],
    );
    assert_eq!(mask, vec![true, false, false, false, false]);
}

#[test]
fn dropqc_keeps_good_or_missing_flags_only() {
    assert!(keep_row(Some("1"), Some("")));
    assert!(keep_row(Some(""), Some("")));
    assert!(!keep_row(Some("1"), Some("4")));
    assert!(!keep_row(Some("0"), Some("1")));
    assert!(!keep_row(Some("A"), Some("1")));
    assert!(!keep_row(None, Some("1")));
    assert!(!keep_row(Some("11"), Some("1")));
    let mask = qc_mask(
        &vec![Some("1".to_string()), Some("2".to_string()), Some(String::new())],
        &vec![Some("1".to_string()), Some("1".to_string()), Some("1".to_string())],
    );
    assert_eq!(mask, vec![true, false, true]);
}

#[test]
fn dedup_removes_only_profiles_markdup_flags() {
    let here = (Some(JAN1_2020), Some(1000), Some(2000));
    let there = (Some(JAN1_2020), Some(1001), Some(2000));
    let t = tally(&[
        ("A", 1, here),
        ("B", 1, here),
        ("B", 1, here),
        ("C", 1, there),
        ("D", 1, here),
        ("E", 1, (None, Some(1000), Some(2000))),
    ]);
    let keep = dedup_keep(&KeyOpts::default(), &t);
    let plan = markdup_plan(&KeyOpts::default(), &t);
    assert_eq!(keep, vec![false, true, true, false, true]);
    assert_eq!(plan.is_dup, vec![true, true, false, true, false]);
    for i in 0..keep.len() {
        assert!(keep[i] || plan.is_dup[i], "profile {i} removed without being flagged");
    }
}
