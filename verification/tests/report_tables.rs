//! Report tables written as TSV, aligned text and JSON; the header report.

use std::collections::HashMap;

use ctddump::report::format::{render_json, render_report, render_text, render_tsv, ReportCell, ReportFormat, ReportTable};
use ctddump::report::yaml::{extra_params, yaml_report, HeaderFile, HeaderVar};

fn var(name: &str, data_type: &str, dims: &[&str]) -> HeaderVar {
    HeaderVar {
        name: Some(name.to_string()),
        data_type: Some(data_type.to_string()),
        dimensions: Some(dims.iter().map(|d| d.to_string()).collect()),
    }
}

/// The merged header of two files: FILE_A with TEMP, PSAL and TEMP_QC;
/// FILE_B with TEMP, DOXY, TUR3, DOXY_QC and the two profile-level flags.
fn fixture() -> Vec<HeaderFile> {
    let td = ["TIME", "DEPTH"];
    vec![
        HeaderFile {
            name: "FILE_A".to_string(),
            variables: Some(vec![
                var("TEMP", "Float(F32)", &td),
                var("PSAL", "Float(F32)", &td),
                var("TEMP_QC", "Int(I8)", &td),
            ]),
        },
        HeaderFile {
            name: "FILE_B".to_string(),
            variables: Some(vec![
                var("TEMP", "Float(F32)", &td),
                var("DOXY", "Float(F32)", &td),
                var("TUR3", "Float(F32)", &td),
                var("DOXY_QC", "Int(I8)", &td),
                var("TIME_QC", "Int(I8)", &["TIME"]),
                var("POSITION_QC", "Int(I8)", &["TIME"]),
            ]),
        },
    ]
}

fn parse_tsv(text: &str) -> (Vec<String>, Vec<Vec<String>>) {
    let mut lines = text.lines();
    let header: Vec<String> = lines.next().unwrap().split('\t').map(str::to_string).collect();
    let rows: Vec<Vec<String>> = lines.map(|l| l.split('\t').map(str::to_string).collect()).collect();
    (header, rows)
}

fn as_map<'a>(header: &'a [String], row: &'a [String]) -> HashMap<&'a str, &'a str> {
    header.iter().map(String::as_str).zip(row.iter().map(String::as_str)).collect()
}

#[test]
fn test_report_yaml() {
    let text = render_report(&yaml_report(&fixture()), ReportFormat::Tsv);
    let (header, rows) = parse_tsv(&text);
    assert_eq!(rows.len(), 2);
    let by_file: HashMap<&str, HashMap<&str, &str>> = rows.iter().map(|r| (r[0].as_str(), as_map(&header, r))).collect();

    let a = &by_file["FILE_A"];
    assert_eq!(a["has_temp"], "true");
    assert_eq!(a["has_psal"], "true");
    assert_eq!(a["has_pres"], "false");
    assert_eq!(a["has_time_qc"], "false");
    assert_eq!(a["has_position_qc"], "false");
    assert_eq!(a["extra_params"], "", "TEMP/PSAL are core; TEMP_QC excluded");

    let b = &by_file["FILE_B"];
    assert_eq!(b["has_temp"], "true");
    assert_eq!(b["has_psal"], "false");
    assert_eq!(b["has_time_qc"], "true");
    assert_eq!(b["has_position_qc"], "true");
    assert_eq!(b["extra_params"], "DOXY;TUR3", "sorted, QC/core excluded");
}

#[test]
fn extra_params_need_float_and_time_depth() {
    let f = HeaderFile {
        name: "F".to_string(),
        variables: Some(vec![
            var("ZED", "Float(F64)", &["TIME", "DEPTH"]),
            var("CNDC", "Float(F32)", &["TIME", "DEPTH"]),
            var("FLAG", "Int(I8)", &["TIME", "DEPTH"]),
            var("LAT", "Float(F32)", &["TIME"]),
            var("DEPH", "Float(F32)", &["TIME", "DEPTH"]),
            HeaderVar { name: None, data_type: Some("Float".to_string()), dimensions: None },
        ]),
    };
    assert_eq!(extra_params(&f), "CNDC;ZED");
    let none = HeaderFile { name: "G".to_string(), variables: None };
    assert_eq!(extra_params(&none), "");
}

fn sample() -> ReportTable {
    ReportTable {
        columns: vec!["name".to_string(), "n".to_string(), "mean".to_string()],
        rows: vec![
            vec![ReportCell::Text("a\"b".to_string()), ReportCell::UInt(12), ReportCell::Num("2.5".to_string())],
            vec![ReportCell::Text("long name".to_string()), ReportCell::Int(-3), ReportCell::Null],
        ],
    }
}

#[test]
fn tsv_writes_header_and_rows() {
    assert_eq!(render_tsv(&sample()), "name\tn\tmean\na\"b\t12\t2.5\nlong name\t-3\t\n");
}

#[test]
fn text_aligns_columns_under_dashes() {
    let expected = "name       n   mean\n---------  --  ----\na\"b        12  2.5 \nlong name  -3      \n";
    assert_eq!(render_text(&sample()), expected);
}

#[test]
fn text_single_row_is_a_label_block() {
    let t = ReportTable {
        columns: vec!["n_obs".to_string(), "temp_min".to_string(), "ok".to_string()],
        rows: vec![vec![ReportCell::UInt(6), ReportCell::Null, ReportCell::Bool(true)]],
    };
    assert_eq!(render_text(&t), "n_obs     6\ntemp_min  \nok        true\n");
}

#[test]
fn json_quotes_text_and_writes_null() {
    assert_eq!(
        render_json(&sample()),
        "[{\"name\":\"a\\\"b\",\"n\":12,\"mean\":2.5},{\"name\":\"long name\",\"n\":-3,\"mean\":null}]\n"
    );
    let t = ReportTable { columns: vec!["s".to_string()], rows: vec![vec![ReportCell::Text("\u{1}\t\\".to_string())]] };
    assert_eq!(render_json(&t), "[{\"s\":\"\\u0001\\t\\\\\"}]\n");
    let empty = ReportTable { columns: vec!["x".to_string()], rows: vec![] };
    assert_eq!(render_json(&empty), "[]\n");
}

#[test]
fn datetime_cells_are_iso_utc() {
    let t = ReportTable {
        columns: vec!["t".to_string()],
        rows: vec![vec![ReportCell::DateTimeMs(1000)]],
    };
    assert_eq!(render_tsv(&t), "t\n1970-01-01T00:00:01Z\n");
    assert_eq!(render_json(&t), "[{\"t\":\"1970-01-01T00:00:01Z\"}]\n");
}
