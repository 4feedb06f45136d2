use ctddump::batch::{check_duplicates, collect_nc_files, compute_output_pairs, is_plain_extension, plan_batch};
use ctddump::error::CtdError;

fn s(v: &str) -> String {
    v.to_string()
}

#[test]
fn test_output_pairs_flat_into_dir() {
    let files = vec![s("/data/a/file1.nc"), s("/data/b/file2.nc")];
    let pairs = compute_output_pairs(&files, Some("/out"), "parquet").unwrap();
    assert_eq!(pairs[0], (s("/data/a/file1.nc"), s("/out/file1.parquet")));
    assert_eq!(pairs[1], (s("/data/b/file2.nc"), s("/out/file2.parquet")));
}

#[test]
fn test_output_pairs_in_place() {
    let files = vec![s("/data/sub/file.nc")];
    let pairs = compute_output_pairs(&files, None, "parquet").unwrap();
    assert_eq!(pairs[0].1, s("/data/sub/file.parquet"));
}

#[test]
fn test_output_pairs_yaml_extension() {
    let files = vec![s("/data/file.nc")];
    let pairs = compute_output_pairs(&files, None, "yaml").unwrap();
    assert_eq!(pairs[0].1, s("/data/file.yaml"));
}

#[test]
fn test_output_pairs_preserves_stem_with_hyphens() {
    let files = vec![s("/data/AR_PR_CT_ITP-71.nc")];
    let pairs = compute_output_pairs(&files, None, "parquet").unwrap();
    assert_eq!(pairs[0].1, s("/data/AR_PR_CT_ITP-71.parquet"));
}

#[test]
fn test_output_pairs_empty_input() {
    let pairs = compute_output_pairs(&vec![], None, "parquet").unwrap();
    assert!(pairs.is_empty());
}

#[test]
fn test_output_pairs_src_preserved() {
    let f = s("/data/file.nc");
    let pairs = compute_output_pairs(&vec![f.clone()], None, "parquet").unwrap();
    assert_eq!(pairs[0].0, f);
}

#[test]
fn test_check_duplicates_no_conflict() {
    let pairs = vec![
        (s("/a/f1.nc"), s("/out/f1.parquet")),
        (s("/b/f2.nc"), s("/out/f2.parquet")),
    ];
    assert!(check_duplicates(&pairs).is_ok());
}

#[test]
fn test_check_duplicates_detects_conflict() {
    let pairs = vec![
        (s("/a/file.nc"), s("/out/file.parquet")),
        (s("/b/file.nc"), s("/out/file.parquet")),
    ];
    let err = check_duplicates(&pairs).unwrap_err().message();
    assert!(err.contains("Duplicate output filenames detected"), "got: {err}");
}

#[test]
fn test_check_duplicates_error_names_conflicting_sources() {
    let pairs = vec![
        (s("/a/file.nc"), s("/out/file.parquet")),
        (s("/b/file.nc"), s("/out/file.parquet")),
    ];
    let err = check_duplicates(&pairs).unwrap_err().message();
    assert!(err.contains("file.nc"), "got: {err}");
}

#[test]
fn test_check_duplicates_empty() {
    assert!(check_duplicates(&vec![]).is_ok());
}

#[test]
fn test_check_duplicates_single_file() {
    let pairs = vec![(s("/a/f.nc"), s("/out/f.parquet"))];
    assert!(check_duplicates(&pairs).is_ok());
}

#[test]
fn duplicate_error_lists_every_clash_with_the_latest_earlier_source() {
    let pairs = vec![
        (s("/a/x.nc"), s("/out/x.parquet")),
        (s("/b/x.nc"), s("/out/x.parquet")),
        (s("/c/y.nc"), s("/out/y.parquet")),
        (s("/d/x.nc"), s("/out/x.parquet")),
    ];
    match check_duplicates(&pairs) {
        Err(CtdError::DuplicateOutputs { clashes }) => {
            assert_eq!(
                clashes,
                vec![
                    (s("/a/x.nc"), s("/b/x.nc"), s("/out/x.parquet")),
                    (s("/b/x.nc"), s("/d/x.nc"), s("/out/x.parquet")),
                ]
            );
        }
        other => panic!("expected a duplicate error, got {other:?}"),
    }
}

#[test]
fn equal_paths_clash_even_when_spelled_differently() {
    // Path equality compares components, so a doubled separator is the same path.
    let pairs = vec![(s("/a/f.nc"), s("/out/f.parquet")), (s("/b/f.nc"), s("/out//f.parquet"))];
    assert!(check_duplicates(&pairs).is_err());
}

#[test]
fn collect_matches_the_file_name_only() {
    let files = vec![
        s("/data/AR_PR_CT_1.nc"),
        s("/data/AR_PR_CT_dir/other.nc"),
        s("/data/BO_PR_CT_2.nc"),
        s("/data/AR_PR_CT_3.txt"),
    ];
    let got = collect_nc_files(&files, "AR_PR_CT_*.nc").unwrap();
    assert_eq!(got, vec![s("/data/AR_PR_CT_1.nc")]);
}

#[test]
fn an_invalid_pattern_is_an_error_naming_it() {
    match collect_nc_files(&vec![s("/a.nc")], "[") {
        Err(CtdError::InvalidPattern { pattern, .. }) => assert_eq!(pattern, "["),
        other => panic!("expected an invalid pattern error, got {other:?}"),
    }
}

#[test]
fn a_file_without_a_stem_is_an_error() {
    match compute_output_pairs(&vec![s("/")], None, "parquet") {
        Err(CtdError::NoFileStem { path }) => assert_eq!(path, "/"),
        other => panic!("expected a missing stem error, got {other:?}"),
    }
}

#[test]
fn no_matching_file_is_refused() {
    match plan_batch(&vec![s("/d/a.txt")], "/d", "*.nc", Some("/out"), "parquet") {
        Err(e) => {
            assert!(matches!(e, CtdError::NoSourceFiles { .. }));
            assert!(e.message().contains("No .nc files found"), "got: {}", e.message());
        },
        Ok(p) => panic!("expected an error, got {p:?}"),
    }
}

#[test]
fn a_clashing_plan_lists_its_clashes() {
    let clash = vec![s("/d/a.nc"), s("/e/a.nc")];
    match plan_batch(&clash, "/", "*.nc", Some("/out"), "yaml") {
        Err(CtdError::DuplicateOutputs { clashes }) => {
            assert_eq!(clashes, vec![(s("/d/a.nc"), s("/e/a.nc"), s("/out/a.yaml"))]);
        },
        other => panic!("expected duplicate outputs, got {other:?}"),
    }
}

#[test]
fn extensions_with_a_separator_are_not_plain() {
    assert!(is_plain_extension("parquet"));
    assert!(!is_plain_extension("a/b"));
    assert!(!is_plain_extension("a\\b"));
}

#[test]
fn a_plan_pairs_the_selected_files_with_their_outputs() {
    let files = vec![s("/d/a.nc"), s("/d/b.txt"), s("/e/c.nc")];
    let plan = plan_batch(&files, "/", "*.nc", Some("/out"), "yaml").unwrap();
    assert_eq!(
        plan,
        vec![(s("/d/a.nc"), s("/out/a.yaml")), (s("/e/c.nc"), s("/out/c.yaml"))]
    );
    let clash = vec![s("/d/a.nc"), s("/e/a.nc")];
    assert!(plan_batch(&clash, "/", "*.nc", Some("/out"), "yaml").is_err());
}

#[test]
fn a_dotted_stem_is_kept_whole_in_either_mode() {
    let files = vec![s("/data/x.v2.nc")];
    let flat = compute_output_pairs(&files, Some("/out"), "parquet").unwrap();
    assert_eq!(flat, vec![(s("/data/x.v2.nc"), s("/out/x.v2.parquet"))]);
    let beside = compute_output_pairs(&files, None, "parquet").unwrap();
    assert_eq!(beside, vec![(s("/data/x.v2.nc"), s("/data/x.v2.parquet"))]);
}
