//! The summary page, assembled from report tables written in-test.

use ctddump::report::bbox::Extent;
use ctddump::report::coverage::{CompareReport, CompareRow};
use ctddump::report::page::{esc, render_md, render_page};
use ctddump::report::summary::{
    build_sections, dup_groups, dup_split, fmt_int, group_size_table, path_str, Cell, Counts,
    DupsReport, Section, StageReport, StemPaths, SummaryFormat, SummaryInputs, Table,
};
use ctddump::report::tsv::Tsv;

/// A platform-level report: `rows` are (platform, profiles, obs) triples;
/// `dup` optionally adds a `dup_profiles` column (one value per row).
fn platform_tsv(rows: &[(&str, u64, u64)], dup: Option<&[u64]>) -> String {
    let mut s = String::from("platform_code\tn_profiles\tn_obs\ttime_qc_good");
    if dup.is_some() {
        s.push_str("\tdup_profiles");
    }
    s.push('\n');
    for (i, (p, prof, obs)) in rows.iter().enumerate() {
        s.push_str(&format!("{p}\t{prof}\t{obs}\t0"));
        if let Some(d) = dup {
            s.push_str(&format!("\t{}", d[i]));
        }
        s.push('\n');
    }
    s
}

fn yaml_tsv() -> String {
    "filename\thas_temp\thas_psal\thas_pres\thas_deph\thas_time_qc\thas_position_qc\textra_params\n\
     AR001\ttrue\ttrue\ttrue\tfalse\ttrue\ttrue\tDOXY;FLU2\n\
     AR002\ttrue\tfalse\ttrue\tfalse\ttrue\ttrue\tDOXY\n"
        .to_string()
}

/// Group 1 within (AR001 x2), group 2 across (AR001, AR002), group 3 within
/// (AR001 x3): within 2 groups / 5 profiles; across 1 group / 2 profiles.
fn dups_tsv() -> String {
    let mut s = String::from(
        "dup_group\tplatform_code\tprofile_no\tprofile_time\tprofile_timestamp\tlongitude\tlatitude\tn_obs\n",
    );
    for (g, p, no) in [
        (1, "AR001", 5),
        (1, "AR001", 6),
        (2, "AR001", 7),
        (2, "AR002", 3),
        (3, "AR001", 8),
        (3, "AR001", 9),
        (3, "AR001", 10),
    ] {
        s.push_str(&format!("{g}\t{p}\t{no}\t0\t0\t0\t0\t100\n"));
    }
    s
}

fn column(t: &Tsv, name: &str) -> Vec<u64> {
    match t.col(name) {
        Some(i) => t.rows.iter().map(|r| r.get(i).map(|c| c.trim().parse::<u64>().unwrap()).unwrap_or(0)).collect(),
        None => vec![0; t.rows.len()],
    }
}

fn counts(t: &Tsv) -> Counts {
    Counts {
        platforms: t.rows.len() as u64,
        profiles: column(t, "n_profiles").iter().sum(),
        obs: column(t, "n_obs").iter().sum(),
    }
}

fn stage(text: &str, path: &str) -> StageReport {
    StageReport { counts: counts(&Tsv::parse(text)), path: path_str(path) }
}

fn markdup(text: &str, path: &str) -> (StageReport, u64) {
    let t = Tsv::parse(text);
    let dup = column(&t, "dup_profiles").iter().sum();
    (StageReport { counts: counts(&t), path: path_str(path) }, dup)
}

fn dups(text: &str, path: &str) -> DupsReport {
    let table = Tsv::parse(text);
    let obs = column(&table, "n_obs");
    DupsReport { table, obs, path: path_str(path) }
}

fn no_inputs() -> SummaryInputs {
    SummaryInputs {
        header: None,
        convert: None,
        dropqc: None,
        dropna: None,
        filter: None,
        markdup: None,
        dups: None,
        dedup: None,
        filter_extent: None,
        convert_extent: None,
        stem: String::new(),
        compare: Vec::new(),
    }
}

/// Every report of the standard layout for `stem`.
fn full_inputs(stem: &str) -> SummaryInputs {
    let p = StemPaths::new(stem, "report", "output");
    SummaryInputs {
        header: Some((Tsv::parse(&yaml_tsv()), path_str(&p.yaml))),
        convert: Some(stage(&platform_tsv(&[("AR001", 100, 10000), ("AR002", 100, 10000)], None), &p.convert)),
        dropqc: Some(stage(&platform_tsv(&[("AR001", 95, 9500), ("AR002", 100, 10000)], None), &p.dropqc)),
        dropna: Some(stage(&platform_tsv(&[("AR001", 90, 9000), ("AR002", 95, 9500)], None), &p.dropna)),
        filter: Some(stage(&platform_tsv(&[("AR001", 80, 8000)], None), &p.filter)),
        markdup: Some(markdup(&platform_tsv(&[("AR001", 80, 8000)], Some(&[7])), &p.markdup)),
        dups: Some(dups(&dups_tsv(), &p.dups)),
        dedup: Some(stage(&platform_tsv(&[("AR001", 73, 7300)], None), &p.dedup)),
        filter_extent: Some(no_extent()),
        convert_extent: Some(no_extent()),
        stem: stem.to_string(),
        compare: Vec::new(),
    }
}

fn no_extent() -> Extent {
    Extent { lon_min: None, lon_max: None, lat_min: None, lat_max: None }
}

fn s(x: &str) -> Option<String> {
    Some(x.to_string())
}

fn pct_text(n: u64, base: u64, deleted: bool) -> String {
    if base == 0 {
        return String::new();
    }
    let p = 100.0 * n as f64 / base as f64;
    let v = if deleted { 100.0 - p } else { p };
    format!("{v:.1}%")
}

fn resolve(sections: Vec<Section<Cell>>) -> Vec<Section<String>> {
    sections
        .into_iter()
        .map(|s| Section {
            level: s.level,
            title: s.title,
            desc: s.desc,
            files: s.files,
            tables: s
                .tables
                .into_iter()
                .map(|t| Table {
                    title: t.title,
                    desc: t.desc,
                    headers: t.headers,
                    rows: t
                        .rows
                        .into_iter()
                        .map(|r| {
                            r.into_iter()
                                .map(|c| match c {
                                    Cell::Text(s) => s,
                                    Cell::Pct { n, base } => pct_text(n, base, false),
                                    Cell::Deleted { n, base } => pct_text(n, base, true),
                                })
                                .collect()
                        })
                        .collect(),
                })
                .collect(),
        })
        .collect()
}

fn page(inputs: SummaryInputs, stem: &str, format: SummaryFormat, title: Option<&str>, notes: &[&str]) -> String {
    let sections = resolve(build_sections(inputs));
    let notes: Vec<String> = notes.iter().map(|n| n.to_string()).collect();
    render_page(stem, title.map(|t| t.to_string()), &notes, format, &sections)
}

#[test]
fn markdown_has_all_sections_and_correct_percentages() {
    let md = page(full_inputs("nrt_ar_ar"), "nrt_ar_ar", SummaryFormat::Md, None, &[]);
    for h in [
        "## File summary",
        "## Conversion",
        "## Cleaning",
        "### Drop bad QC",
        "### Drop all-NA profiles",
        "### Filter by region",
        "## Deduplication",
        "### Mark duplicates",
        "### Remove duplicates",
    ] {
        assert!(md.contains(h), "missing heading: {h}\n{md}");
    }
    assert!(md.contains("| Profiles | 80 | 40.0% | 60.0% |"), "filter profile % wrong\n{md}");
    assert!(md.contains("| Profiles | 195 | 97.5% | 2.5% |"), "dropqc profile % wrong\n{md}");
    assert!(
        md.contains("| Profiles | 73 | 36.5% | 63.5% | 80 | 91.2% | 8.8% |"),
        "dedup profile % wrong\n{md}"
    );
    assert!(md.contains("| Metric | Count | % of original | Deleted |"), "cleaning cols wrong\n{md}");
    assert!(
        md.contains("| Metric | Count | % of original | Deleted | Cleaned | % of cleaned | Deleted (cleaned) |"),
        "dedup cols wrong\n{md}"
    );
    assert!(md.contains("bounding box"), "filter description missing\n{md}");
    assert!(md.contains("| with PSAL | 1 | 50.0% |"), "psal coverage wrong\n{md}");
    assert!(md.contains("| Extra parameters | DOXY, FLU2 |"), "extras wrong\n{md}");
    assert!(md.contains("**Duplicates within a platform**"), "no within table\n{md}");
    assert!(md.contains("| Duplicate profiles | 5 | 71.4% |"), "within profiles wrong\n{md}");
    assert!(md.contains("**Duplicates across platforms**"), "no across table\n{md}");
    assert!(md.contains("| Duplicate profiles | 2 | 28.6% |"), "across profiles wrong\n{md}");
    assert!(md.contains("| Platforms | 2 |"), "across platforms wrong\n{md}");
    assert!(
        md.contains("| Duplicate profiles | 7 | 3.5% |  | 80 | 8.8% |  |"),
        "markdup duplicate row wrong\n{md}"
    );
    assert!(md.contains("all carry the same platform code"), "within desc missing\n{md}");
    assert!(md.contains("two or more different platform codes"), "across desc missing\n{md}");
    assert!(md.contains("A group of 2 is a cast recorded twice"), "group-size desc missing\n{md}");
    assert!(md.contains("**Duplicate group sizes**"), "no group-size table\n{md}");
    assert!(md.contains("| 2 | 2 | 4 | 57.1% |"), "size-2 row wrong\n{md}");
    assert!(md.contains("| 3 | 1 | 3 | 42.9% |"), "size-3 row wrong\n{md}");
}

#[test]
fn title_and_notes_are_used() {
    let md = page(
        full_inputs("nrt_ar_ar"),
        "nrt_ar_ar",
        SummaryFormat::Md,
        Some("NRT Arctic: regional (AR)"),
        &["First note.", "Second <note>."],
    );
    assert!(md.starts_with("# NRT Arctic: regional (AR)\n"), "custom title missing\n{md}");
    assert!(!md.contains("Summary: nrt_ar_ar"), "default title should be replaced\n{md}");
    assert!(md.contains("> First note.") && md.contains("> Second <note>."), "notes missing\n{md}");

    let html = page(full_inputs("nrt_ar_ar"), "nrt_ar_ar", SummaryFormat::Html, Some("NRT Arctic"), &["Second <note>."]);
    assert!(html.contains("<title>NRT Arctic</title>"), "html title missing\n{html}");
    assert!(html.contains("<h1>NRT Arctic</h1>"), "html heading missing\n{html}");
    assert!(html.contains("Second &lt;note&gt;."), "note not escaped\n{html}");
}

#[test]
fn large_duplicate_groups_collapse_into_a_tail_row() {
    let p = StemPaths::new("big", "report", "output");
    let mut s = String::from(
        "dup_group\tplatform_code\tprofile_no\tprofile_time\tprofile_timestamp\tlongitude\tlatitude\tn_obs\n",
    );
    for i in 0..12 {
        s.push_str(&format!("1\tP1\t{i}\t0\t0\t0\t0\t10\n"));
    }
    for i in 0..2 {
        s.push_str(&format!("2\tP1\t{}\t0\t0\t0\t0\t10\n", 100 + i));
    }
    let mut inputs = no_inputs();
    inputs.markdup = Some(markdup(&platform_tsv(&[("P1", 30, 3000)], Some(&[30])), &p.markdup));
    inputs.dups = Some(dups(&s, &p.dups));
    let md = page(inputs, "big", SummaryFormat::Md, None, &[]);
    assert!(md.contains("| 2 | 1 | 2 | 14.3% |"), "size-2 row wrong\n{md}");
    assert!(md.contains("| 11+ | 1 | 12 | 85.7% |"), "tail row wrong\n{md}");
    assert!(!md.contains("% of cleaned"), "cleaned cols should be absent\n{md}");
}

#[test]
fn html_is_self_contained_and_escaped() {
    let html = page(full_inputs("nrt_ar_ar"), "nrt_ar_ar", SummaryFormat::Html, None, &[]);
    assert!(html.starts_with("<!DOCTYPE html>"), "not an HTML doc");
    assert!(html.contains("<style>") && html.contains("</html>"), "not self-contained");
    assert_eq!(html.matches("<table>").count(), 10, "unexpected table count");
    assert!(html.contains("<h2>File summary</h2>"), "missing section heading");
}

#[test]
fn missing_files_skip_their_sections() {
    let p = StemPaths::new("part", "report", "output");
    let mut inputs = no_inputs();
    inputs.convert = Some(stage(&platform_tsv(&[("P1", 100, 5000)], None), &p.convert));
    inputs.filter = Some(stage(&platform_tsv(&[("P1", 60, 3000)], None), &p.filter));
    let md = page(inputs, "part", SummaryFormat::Md, None, &[]);
    assert!(md.contains("## Conversion"), "conversion missing\n{md}");
    assert!(md.contains("## Cleaning") && md.contains("### Filter by region"), "filter missing\n{md}");
    assert!(!md.contains("File summary"), "yaml section should be skipped\n{md}");
    assert!(!md.contains("Drop bad QC"), "dropqc section should be skipped\n{md}");
    assert!(!md.contains("Deduplication"), "dedup section should be skipped\n{md}");
    assert!(md.contains("| Profiles | 60 | 60.0% | 40.0% |"), "filter % wrong\n{md}");
}

#[test]
fn pages_contain_no_em_dashes() {
    for format in [SummaryFormat::Md, SummaryFormat::Html] {
        let text = page(full_inputs("nrt_ar_ar"), "nrt_ar_ar", format, None, &[]);
        assert!(!text.contains('\u{2014}'), "page contains an em dash\n{text}");
    }
}

#[test]
fn empty_extra_params_render_as_none() {
    let p = StemPaths::new("bare", "report", "output");
    let mut inputs = no_inputs();
    let t = Tsv::parse(
        "filename\thas_temp\thas_psal\thas_pres\thas_deph\thas_time_qc\thas_position_qc\textra_params\n\
         B1\ttrue\ttrue\ttrue\tfalse\ttrue\ttrue\t\n",
    );
    inputs.header = Some((t, path_str(&p.yaml)));
    let md = page(inputs, "bare", SummaryFormat::Md, None, &[]);
    assert!(md.contains("| Extra parameters | none |"), "extras placeholder wrong\n{md}");
    assert!(!md.contains('\u{2014}'), "page contains an em dash\n{md}");
}

#[test]
fn no_files_produces_valid_empty_page() {
    let md = page(no_inputs(), "ghost", SummaryFormat::Md, None, &[]);
    assert!(md.contains("# Summary: ghost"), "missing title\n{md}");
    assert!(md.contains("No section source files were found"), "missing empty note\n{md}");
}

// ── Pieces ──────────────────────────────────────────────────────────────────

#[test]
fn thousands_separators() {
    assert_eq!(fmt_int(0), "0");
    assert_eq!(fmt_int(999), "999");
    assert_eq!(fmt_int(1000), "1,000");
    assert_eq!(fmt_int(12345), "12,345");
    assert_eq!(fmt_int(1234567), "1,234,567");
    assert_eq!(fmt_int(1002003), "1,002,003");
    assert_eq!(fmt_int(u64::MAX), "18,446,744,073,709,551,615");
}

#[test]
fn html_escaping_replaces_tag_characters() {
    assert_eq!(esc("a < b && c > d"), "a &lt; b &amp;&amp; c &gt; d");
    assert_eq!(esc("plain"), "plain");
    assert_eq!(esc(""), "");
}

#[test]
fn tsv_lines_end_in_lf_or_crlf_and_blank_records_are_skipped() {
    let t = Tsv::parse("a\tb\r\n1\t2\r\n\r\n3\t\n");
    assert_eq!(t.header, vec!["a".to_string(), "b".to_string()]);
    assert_eq!(t.rows, vec![vec!["1".to_string(), "2".to_string()], vec!["3".to_string(), "".to_string()]]);
    let t = Tsv::parse("");
    assert!(t.header.is_empty() && t.rows.is_empty());
    let t = Tsv::parse("only\n");
    assert_eq!(t.header, vec!["only".to_string()]);
    assert!(t.rows.is_empty());
    let t = Tsv::parse("x\ny");
    assert_eq!(t.rows, vec![vec!["y".to_string()]]);
}

#[test]
fn tsv_columns_and_counts() {
    let t = Tsv::parse("k\tflag\tk\n1\ttrue\tx\n2\tfalse\ty\n3\ttrue\n4\n");
    assert_eq!(t.col("k"), Some(0));
    assert_eq!(t.col("flag"), Some(1));
    assert_eq!(t.col("missing"), None);
    assert_eq!(t.count_eq("flag", "true"), 2);
    assert_eq!(t.count_eq("missing", "true"), 0);
}

#[test]
fn duplicate_groups_aggregate_rows_by_label() {
    let t = Tsv::parse(&dups_tsv());
    let obs = vec![100; t.rows.len()];
    let gs = dup_groups(&t, &obs);
    assert_eq!(gs.len(), 3);
    assert_eq!((gs[0].profiles, gs[0].obs, gs[0].platforms.len()), (2, 200, 1));
    assert_eq!((gs[1].profiles, gs[1].obs, gs[1].platforms.len()), (2, 200, 2));
    assert_eq!((gs[2].profiles, gs[2].obs, gs[2].platforms.len()), (3, 300, 1));
    let (within, across) = dup_split(&gs);
    assert_eq!((within.groups, within.profiles, within.obs, within.platforms.len()), (2, 5, 500, 1));
    assert_eq!((across.groups, across.profiles, across.obs, across.platforms.len()), (1, 2, 200, 2));
    let sizes = group_size_table(&gs, 7);
    assert_eq!(sizes.rows.len(), 2);
    assert!(matches!(&sizes.rows[0][0], Cell::Text(s) if s == "2"));
    assert!(matches!(&sizes.rows[0][2], Cell::Text(s) if s == "4"));
    assert!(matches!(sizes.rows[0][3], Cell::Pct { n: 4, base: 7 }));
}

#[test]
fn stem_paths_follow_the_pipeline_layout() {
    let p = StemPaths::new("s", "rep", "out");
    assert_eq!(path_str(&p.yaml), "rep/header/s.yaml.tsv");
    assert_eq!(path_str(&p.convert), "rep/convert/s.parquet.tsv");
    assert_eq!(path_str(&p.dropqc), "rep/clean/dropqc/s.parquet.tsv");
    assert_eq!(path_str(&p.dups), "out/dedup/markdup/s.dups.tsv");
    assert_eq!(path_str("a\\b\\c"), "a/b/c");
}

#[test]
fn extras_are_trimmed_distinct_and_sorted() {
    let mut inputs = no_inputs();
    let t = Tsv::parse("extra_params\n ZZ ; DOXY;;\nDOXY;AA\n");
    inputs.header = Some((t, "h".to_string()));
    let sections = resolve(build_sections(inputs));
    let md = render_md("t", &vec![], &sections);
    assert!(md.contains("| Extra parameters | AA, DOXY, ZZ |"), "{md}");
}

// ── Filter bounding box ─────────────────────────────────────────────────────
// The extremes arrive already reduced over the platforms and rendered with
// three decimals: (A: -5.6..12.25, 51..60; B: 3.5..30, 36..45.5) after the
// filter, (A: -40.5..12.25, 50.1..80.9; B: 3.5..44.75, 35..60) before it.

fn bbox_inputs(with_convert: bool) -> SummaryInputs {
    let mut i = no_inputs();
    i.stem = "bb".to_string();
    i.filter = Some(stage("platform_code\tn_profiles\tn_obs\nA\t10\t100\nB\t10\t100\n", "report/clean/filter/bb.parquet.tsv"));
    i.filter_extent = Some(Extent { lon_min: s("-5.600"), lon_max: s("30.000"), lat_min: s("36.000"), lat_max: s("60.000") });
    if with_convert {
        i.convert = Some(stage("platform_code\tn_profiles\tn_obs\nA\t10\t100\nB\t10\t100\n", "report/convert/bb.parquet.tsv"));
        i.convert_extent = Some(Extent { lon_min: s("-40.500"), lon_max: s("44.750"), lat_min: s("35.000"), lat_max: s("80.900") });
    }
    i
}

#[test]
fn filter_bbox_table_reports_extremes_across_platforms() {
    let md = page(bbox_inputs(true), "bb", SummaryFormat::Md, None, &[]);
    assert!(md.contains("**Bounding box**"), "bbox table missing\n{md}");
    assert!(md.contains("| Metric | Filtered | Original |"), "bbox headers wrong\n{md}");
    for row in [
        "| Longitude min | -5.600 | -40.500 |",
        "| Longitude max | 30.000 | 44.750 |",
        "| Latitude min | 36.000 | 35.000 |",
        "| Latitude max | 60.000 | 80.900 |",
    ] {
        assert!(md.contains(row), "missing bbox row: {row}\n{md}");
    }
    assert_eq!(md.matches("**Bounding box**").count(), 1, "bbox table duplicated\n{md}");
    assert!(!md.contains('\u{2014}'), "page contains an em dash\n{md}");
}

#[test]
fn filter_bbox_omits_original_column_without_convert_report() {
    let mut i = bbox_inputs(false);
    i.filter_extent = Some(Extent { lon_min: s("-5.600"), lon_max: s("12.250"), lat_min: s("51.000"), lat_max: s("60.000") });
    let md = page(i, "bb", SummaryFormat::Md, None, &[]);
    assert!(md.contains("| Metric | Filtered |"), "bbox headers wrong\n{md}");
    assert!(!md.contains("Original |"), "unexpected Original column\n{md}");
    assert!(md.contains("| Longitude min | -5.600 |"), "bbox row wrong\n{md}");
}

#[test]
fn filter_bbox_table_absent_when_no_valid_positions() {
    let mut i = bbox_inputs(false);
    i.filter_extent = Some(no_extent());
    let md = page(i, "bb", SummaryFormat::Md, None, &[]);
    assert!(md.contains("### Filter by region"), "filter section missing\n{md}");
    assert!(!md.contains("Bounding box"), "bbox table should be omitted\n{md}");
}

#[test]
fn filter_bbox_renders_in_html() {
    let mut i = bbox_inputs(true);
    i.filter_extent = Some(Extent { lon_min: s("-5.600"), lon_max: s("12.250"), lat_min: s("51.000"), lat_max: s("60.000") });
    i.convert_extent = Some(Extent { lon_min: s("-40.500"), lon_max: s("12.250"), lat_min: s("50.100"), lat_max: s("80.900") });
    let html = page(i, "bb", SummaryFormat::Html, None, &[]);
    assert!(html.contains("Bounding box</p>"), "bbox title missing\n{html}");
    assert!(html.contains("<th>Filtered</th><th>Original</th>"), "bbox headers wrong\n{html}");
    assert!(
        html.contains("<td>Longitude min</td><td>-5.600</td><td>-40.500</td>"),
        "bbox row wrong\n{html}"
    );
}

// ── Comparison section ──────────────────────────────────────────────────────

#[allow(clippy::too_many_arguments)]
fn cmp_row(rf: &str, cmp: &str, rp: u64, cp: u64, rprof: u64, unk: u64, mprof: u64, same: u64, diff: u64, robs: u64, mobs: u64) -> CompareRow {
    CompareRow {
        reference: rf.to_string(),
        compared: cmp.to_string(),
        ref_platforms: rp,
        common_platforms: cp,
        ref_profiles: rprof,
        ref_unkeyed: unk,
        matched_profiles: mprof,
        same_nobs: same,
        diff_nobs: diff,
        ref_observations: robs,
        matched_observations: mobs,
    }
}

#[test]
fn comparison_section_gathers_rows_referencing_the_stem() {
    let mut i = full_inputs("nrt_ar_ar");
    i.compare = vec![
        CompareReport {
            path: "report/compare/ar_nrt_vs_cora.tsv".to_string(),
            rows: vec![
                cmp_row("nrt_ar_ar", "cora_ar", 2, 1, 200, 10, 150, 120, 30, 20000, 15000),
                cmp_row("cora_ar", "nrt_ar_ar", 5, 1, 400, 0, 150, 120, 30, 40000, 15000),
            ],
        },
        CompareReport {
            path: "report/compare/ar_nrt_vs_gl.tsv".to_string(),
            rows: vec![
                cmp_row("nrt_ar_gl", "nrt_ar_ar", 3, 2, 210, 0, 200, 200, 0, 21000, 20000),
                cmp_row("nrt_ar_ar", "nrt_ar_gl", 2, 2, 200, 10, 200, 200, 0, 20000, 20000),
            ],
        },
    ];
    // The first report lists the later name, to show the rows are ordered by name.
    i.compare.reverse();
    let md = page(i, "nrt_ar_ar", SummaryFormat::Md, None, &[]);
    assert!(md.contains("## Comparison"), "no comparison section\n{md}");
    assert!(md.contains("| Profiles without a key | 10 |"), "unkeyed total wrong\n{md}");
    let cora = md.find("| cora_ar | 1 | 50.0% | 150 | 75.0% | 120 | 30 | 80.0% |").expect("cora coverage row");
    let gl = md.find("| nrt_ar_gl | 2 | 100.0% | 200 | 100.0% | 200 | 0 | 100.0% |").expect("gl coverage row");
    assert!(cora < gl, "coverage rows not in name order\n{md}");
    assert!(!md.contains("| nrt_ar_ar |"), "reverse direction leaked in\n{md}");
    assert!(!md.contains("999"), "unexpected number\n{md}");
    assert!(md.contains("ar_nrt_vs_cora.tsv") && md.contains("ar_nrt_vs_gl.tsv"), "source files missing\n{md}");
    assert!(!md.contains('\u{2014}'), "comparison prose has an em dash\n{md}");
}

fn full_inputs_with(compare: Vec<CompareReport>) -> SummaryInputs {
    let mut i = full_inputs("nrt_ar_ar");
    i.compare = compare;
    i
}

#[test]
fn comparison_section_renders_in_html() {
    let compare = vec![CompareReport {
        path: "report/compare/ar_nrt_vs_cora.tsv".to_string(),
        rows: vec![cmp_row("nrt_ar_ar", "cora_ar", 2, 1, 200, 10, 150, 120, 30, 20000, 15000)],
    }];
    let html = page(full_inputs_with(compare), "nrt_ar_ar", SummaryFormat::Html, None, &[]);
    assert!(html.contains("<h2>Comparison</h2>"), "no html comparison heading\n{html}");
    assert!(
        html.contains("<td>cora_ar</td><td>1</td><td>50.0%</td><td>150</td><td>75.0%</td>"),
        "html coverage row wrong\n{html}"
    );
}

#[test]
fn comparison_section_absent_without_matching_reports() {
    let compare = vec![CompareReport {
        path: "report/compare/bo_nrt_vs_cora.tsv".to_string(),
        rows: vec![cmp_row("nrt_bo_bo", "cora_bo", 2, 1, 100, 0, 50, 40, 10, 5000, 2500)],
    }];
    let md = page(full_inputs_with(compare), "nrt_ar_ar", SummaryFormat::Md, None, &[]);
    assert!(!md.contains("## Comparison"), "comparison should be absent\n{md}");
    assert!(md.contains("## Conversion"), "conversion missing\n{md}");
}
