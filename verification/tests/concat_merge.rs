use ctddump::concat::concat_inputs;
use ctddump::concat::{
    file_span, merge_headers, partition_count_ranges, partition_platform_ranges, platform_totals,
    renumber_rows, span_overlaps, temp_path_for, worker_count, ConcatConfig,
};
use ctddump::error::CtdError;

fn s(v: &str) -> String {
    v.to_string()
}

#[test]
fn concat_defaults() {
    let c = ConcatConfig::default();
    assert_eq!(c.pattern, "*.parquet");
    assert!(c.renumber && c.sort_by_pres && c.drop_na_pres);
    assert!(c.threads.is_none());
}

#[test]
fn ranges_fill_greedily_and_a_large_platform_stands_alone() {
    assert_eq!(partition_count_ranges(&vec![3, 4, 2, 10, 1, 1], 7), vec![(0, 1), (2, 2), (3, 3), (4, 5)]);
    assert!(partition_count_ranges(&vec![], 5).is_empty());
}

#[test]
fn platform_ranges_name_their_first_and_last_platform() {
    let platforms = vec![(s("A"), 5), (s("B"), 5), (s("C"), 1)];
    assert_eq!(partition_platform_ranges(&platforms, 6), vec![(s("A"), s("A")), (s("B"), s("C"))]);
}

#[test]
fn platform_totals_are_summed_over_files_and_sorted() {
    let entries = vec![(s("ZZ"), 3), (s("AB"), 1), (s("ZZ"), 4), (s("AA"), 2)];
    assert_eq!(platform_totals(&entries), vec![(s("AA"), 2), (s("AB"), 1), (s("ZZ"), 7)]);
}

#[test]
fn a_file_span_is_its_first_and_last_platform() {
    assert_eq!(file_span(&vec![(s("M"), 1), (s("B"), 1), (s("X"), 1)]), Some((s("B"), s("X"))));
    assert_eq!(file_span(&vec![]), None);
    let span = (s("B"), s("X"));
    assert!(span_overlaps(&span, "A", "C"));
    assert!(!span_overlaps(&span, "Y", "Z"));
    assert!(!span_overlaps(&span, "A", "AZ"));
}

#[test]
fn renumbering_ranks_keys_within_each_platform() {
    let platforms = vec![s("P"), s("P"), s("P"), s("Q"), s("P")];
    let keys = vec![Some(s("P|2")), Some(s("P|2")), Some(s("P|10")), Some(s("Q|5")), Some(s("P|3"))];
    let (profile_no, observation_no) = renumber_rows(&platforms, &keys);
    // Text order: "P|10" < "P|2" < "P|3".
    assert_eq!(profile_no, vec![Some(2), Some(2), Some(1), Some(1), Some(3)]);
    assert_eq!(observation_no, vec![1, 2, 1, 1, 1]);
}

#[test]
fn rows_without_a_key_get_no_profile_number_and_count_together() {
    let platforms = vec![s("P"), s("P"), s("P"), s("Q"), s("P")];
    let keys = vec![Some(s("P|2")), None, Some(s("P|1")), None, None];
    let (profile_no, observation_no) = renumber_rows(&platforms, &keys);
    assert_eq!(profile_no, vec![Some(2), None, Some(1), None, None]);
    assert_eq!(observation_no, vec![1, 1, 1, 1, 2]);
}

#[test]
fn temp_files_sit_beside_the_output_without_a_parquet_extension() {
    assert_eq!(temp_path_for("/out/merged.parquet", 7), "/out/merged.parquet.concat-tmp-00007");
    assert_eq!(temp_path_for("/out/m.parquet", 123456), "/out/m.parquet.concat-tmp-123456");
}

#[test]
fn worker_count_is_at_least_one() {
    assert_eq!(worker_count(Some(0), 8), 1);
    assert_eq!(worker_count(Some(3), 8), 3);
    assert_eq!(worker_count(None, 8), 8);
}

#[test]
fn header_merge_keeps_every_key_once() {
    let entries = vec![(s("a.yaml"), s("f1"), 1), (s("a.yaml"), s("f2"), 2), (s("b.yaml"), s("f3"), 3)];
    assert_eq!(merge_headers(entries).unwrap(), vec![(s("f1"), 1), (s("f2"), 2), (s("f3"), 3)]);
}

#[test]
fn header_merge_refuses_a_key_in_two_files() {
    let entries = vec![(s("a.yaml"), s("f1"), 1), (s("b.yaml"), s("f1"), 2)];
    match merge_headers(entries) {
        Err(e) => {
            assert!(matches!(e, CtdError::DuplicateKeys { .. }));
            assert_eq!(e.message(), "Duplicate keys detected in YAML files:\n  key 'f1' in b.yaml");
        }
        Ok(_) => panic!("duplicate keys must be refused"),
    }
}

#[test]
fn concat_inputs_refuse_an_empty_selection() {
    let files = vec![s("/d/a.parquet"), s("/d/b.yaml")];
    assert_eq!(concat_inputs(&files, "/d", "*.parquet").unwrap(), vec![s("/d/a.parquet")]);
    match concat_inputs(&files, "/d", "*.nc") {
        Err(e) => {
            assert!(matches!(e, CtdError::NoMatchingFiles { .. }));
            assert!(e.message().contains("No files matching"));
        },
        Ok(v) => panic!("expected an error, got {v:?}"),
    }
}
