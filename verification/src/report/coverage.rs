//! The Comparison section of the summary page: how far each other dataset
//! covers the stem's own, gathered from the comparison reports.
//!
//! The counts come from the reports; the percentages are recomputed from
//! them (as `Pct` cells) rather than taken from the reports' own columns.

use vstd::prelude::*;

use crate::order::sort_distinct;
use crate::report::summary::{
    int_cell, int_text, lemma_sorted_unique, string_of, strings_of, strictly_sorted, text, text_cell, Cell,
    CellView, Section, SectionView, Table, TableView,
};
use crate::text::str_views;

verus! {

pub const DESC_COMPARISON: &'static str = "How far each other dataset covers this one, from the comparison reports in which this dataset is the reference. A profile is matched when the other dataset holds a profile with the same key; its observation count agrees when both hold as many observations.";

pub const DESC_COVERAGE: &'static str = "One row per compared dataset, in name order. Coverage is the share of this dataset's platforms or keyed profiles found in the other; agreement is the share of matched profiles whose observation counts agree.";

/// One row of a comparison report: one direction of a comparison.
#[derive(Debug)]
pub struct CompareRow {
    pub reference: String,
    pub compared: String,
    pub ref_platforms: u64,
    pub common_platforms: u64,
    pub ref_profiles: u64,
    pub ref_unkeyed: u64,
    pub matched_profiles: u64,
    pub same_nobs: u64,
    pub diff_nobs: u64,
    pub ref_observations: u64,
    pub matched_observations: u64,
}

/// A comparison report: its path and its rows.
#[derive(Debug)]
pub struct CompareReport {
    pub path: String,
    pub rows: Vec<CompareRow>,
}

/// The rows whose reference is `stem`, in order.
pub open spec fn picked_in(rows: Seq<CompareRow>, stem: Seq<char>) -> Seq<CompareRow>
    decreases rows.len(),
{
    if rows.len() == 0 {
        Seq::empty()
    } else {
        picked_in(rows.drop_last(), stem) + if rows.last().reference@ == stem {
            seq![rows.last()]
        } else {
            Seq::empty()
        }
    }
}

/// The rows of all reports whose reference is `stem`, report by report.
pub open spec fn picked_all(files: Seq<CompareReport>, stem: Seq<char>) -> Seq<CompareRow>
    decreases files.len(),
{
    if files.len() == 0 {
        Seq::empty()
    } else {
        picked_all(files.drop_last(), stem) + picked_in(files.last().rows@, stem)
    }
}

/// The paths of the reports with a row whose reference is `stem`.
pub open spec fn source_files(files: Seq<CompareReport>, stem: Seq<char>) -> Seq<Seq<char>>
    decreases files.len(),
{
    if files.len() == 0 {
        Seq::empty()
    } else {
        source_files(files.drop_last(), stem) + if picked_in(files.last().rows@, stem).len() > 0 {
            seq![files.last().path@]
        } else {
            Seq::empty()
        }
    }
}

/// The names of the compared datasets.
pub open spec fn compared_names(p: Seq<CompareRow>) -> Set<Seq<char>> {
    Set::new(|x: Seq<char>| exists|i: int| 0 <= i < p.len() && (#[trigger] p[i]).compared@ == x)
}

/// The names of the compared datasets in ascending order.
pub open spec fn sorted_names(p: Seq<CompareRow>) -> Seq<Seq<char>> {
    choose|l: Seq<Seq<char>>| strictly_sorted(l) && l.to_set() == compared_names(p)
}

/// The rows compared with `name`, in order.
pub open spec fn rows_named(p: Seq<CompareRow>, name: Seq<char>) -> Seq<CompareRow>
    decreases p.len(),
{
    if p.len() == 0 {
        Seq::empty()
    } else {
        rows_named(p.drop_last(), name) + if p.last().compared@ == name {
            seq![p.last()]
        } else {
            Seq::empty()
        }
    }
}

/// The rows grouped by the names of `l`, in the order of `l`.
pub open spec fn rows_by(p: Seq<CompareRow>, l: Seq<Seq<char>>) -> Seq<CompareRow>
    decreases l.len(),
{
    if l.len() == 0 {
        Seq::empty()
    } else {
        rows_by(p, l.drop_last()) + rows_named(p, l.last())
    }
}

/// The totals of the reference dataset, from a row.
pub open spec fn reference_view(r: CompareRow) -> TableView<CellView> {
    TableView {
        title: Some("Reference"@),
        desc: Seq::empty(),
        headers: seq!["Metric"@, "Count"@],
        rows: seq![
            seq![text("Platforms"@), int_cell(r.ref_platforms)],
            seq![text("Profiles"@), int_cell(r.ref_profiles)],
            seq![text("Profiles without a key"@), int_cell(r.ref_unkeyed)],
            seq![text("Observations"@), int_cell(r.ref_observations)],
        ],
    }
}

/// The coverage row of one comparison.
pub open spec fn coverage_cells(r: CompareRow) -> Seq<CellView> {
    seq![
        text(r.compared@),
        int_cell(r.common_platforms),
        CellView::Pct(r.common_platforms, r.ref_platforms),
        int_cell(r.matched_profiles),
        CellView::Pct(r.matched_profiles, r.ref_profiles),
        int_cell(r.same_nobs),
        int_cell(r.diff_nobs),
        CellView::Pct(r.same_nobs, r.matched_profiles),
    ]
}

/// The headers of the coverage table.
pub open spec fn coverage_headers() -> Seq<Seq<char>> {
    seq![
        "Compared with"@,
        "Common platforms"@,
        "Platform coverage"@,
        "Matched profiles"@,
        "Profile coverage"@,
        "Same n_obs"@,
        "Different n_obs"@,
        "n_obs agreement"@,
    ]
}

/// The coverage table over the rows `rows`.
pub open spec fn coverage_view(rows: Seq<CompareRow>) -> TableView<CellView> {
    TableView {
        title: Some("Coverage"@),
        desc: DESC_COVERAGE@,
        headers: coverage_headers(),
        rows: rows.map_values(|r: CompareRow| coverage_cells(r)),
    }
}

/// The Comparison section of `stem`: absent when no report has `stem` as
/// its reference; otherwise the reference totals (from the first such row)
/// and one coverage row per such row, ordered by the compared name (rows of
/// one name in report order).
pub open spec fn comparison_view(files: Seq<CompareReport>, stem: Seq<char>) -> Option<SectionView<CellView>> {
    let p = picked_all(files, stem);
    if p.len() == 0 {
        None
    } else {
        Some(
            SectionView {
                level: 1,
                title: "Comparison"@,
                desc: DESC_COMPARISON@,
                files: source_files(files, stem),
                tables: seq![reference_view(p[0]), coverage_view(rows_by(p, sorted_names(p)))],
            },
        )
    }
}

/// A copy of a row.
fn copy_row(r: &CompareRow) -> (c: CompareRow)
    ensures
        c == *r,
{
    CompareRow {
        reference: r.reference.clone(),
        compared: r.compared.clone(),
        ref_platforms: r.ref_platforms,
        common_platforms: r.common_platforms,
        ref_profiles: r.ref_profiles,
        ref_unkeyed: r.ref_unkeyed,
        matched_profiles: r.matched_profiles,
        same_nobs: r.same_nobs,
        diff_nobs: r.diff_nobs,
        ref_observations: r.ref_observations,
        matched_observations: r.matched_observations,
    }
}

/// The cells of the coverage row of `r`.
fn coverage_row(r: &CompareRow) -> (c: Vec<Cell>)
    ensures
        c@.map_values(|x: Cell| x@) == coverage_cells(*r),
{
    let c = vec![
        Cell::Text(r.compared.clone()),
        int_text(r.common_platforms),
        Cell::Pct { n: r.common_platforms, base: r.ref_platforms },
        int_text(r.matched_profiles),
        Cell::Pct { n: r.matched_profiles, base: r.ref_profiles },
        int_text(r.same_nobs),
        int_text(r.diff_nobs),
        Cell::Pct { n: r.same_nobs, base: r.matched_profiles },
    ];
    proof {
        assert(c@.map_values(|x: Cell| x@) =~= coverage_cells(*r));
    }
    c
}

/// The reference totals table of `r`.
fn reference_table(r: &CompareRow) -> (t: Table<Cell>)
    ensures
        t@ == reference_view(*r),
{
    let rows = vec![
        vec![text_cell("Platforms"), int_text(r.ref_platforms)],
        vec![text_cell("Profiles"), int_text(r.ref_profiles)],
        vec![text_cell("Profiles without a key"), int_text(r.ref_unkeyed)],
        vec![text_cell("Observations"), int_text(r.ref_observations)],
    ];
    let t = Table { title: Some(string_of("Reference")), desc: String::new(), headers: strings_of(&["Metric", "Count"]), rows };
    proof {
        let v = reference_view(*r);
        assert(t@.headers =~= v.headers);
        assert(t@.rows[0] =~= v.rows[0]);
        assert(t@.rows[1] =~= v.rows[1]);
        assert(t@.rows[2] =~= v.rows[2]);
        assert(t@.rows[3] =~= v.rows[3]);
        assert(t@.rows =~= v.rows);
        assert(t@ =~= v);
    }
    t
}

/// The Comparison section of `stem` (see `comparison_view`).
pub fn comparison_section(files: &Vec<CompareReport>, stem: &str) -> (r: Option<Section<Cell>>)
    ensures
        match r {
            Some(s) => comparison_view(files@, stem@) == Some(s@),
            None => comparison_view(files@, stem@) is None,
        },
{
    let stem_s = stem.to_owned();
    let mut picked: Vec<CompareRow> = Vec::new();
    let mut paths: Vec<String> = Vec::new();
    let mut f: usize = 0;
    while f < files.len()
        invariant
            f <= files.len(),
            stem_s@ == stem@,
            picked@ == picked_all(files@.take(f as int), stem@),
            str_views(paths@) == source_files(files@.take(f as int), stem@),
        decreases files.len() - f,
    {
        let file = &files[f];
        let before = picked.len();
        let ghost base = picked@;
        let mut j: usize = 0;
        while j < file.rows.len()
            invariant
                j <= file.rows.len(),
                stem_s@ == stem@,
                before == base.len(),
                picked@ == base + picked_in(file.rows@.take(j as int), stem@),
            decreases file.rows.len() - j,
        {
            proof {
                assert(file.rows@.take(j + 1).drop_last() =~= file.rows@.take(j as int));
                assert(file.rows@.take(j + 1).last() == file.rows@[j as int]);
            }
            if file.rows[j].reference == stem_s {
                let c = copy_row(&file.rows[j]);
                picked.push(c);
                proof {
                    assert(picked@ =~= base + picked_in(file.rows@.take(j + 1), stem@));
                }
            } else {
                proof {
                    assert(picked@ =~= base + picked_in(file.rows@.take(j + 1), stem@));
                }
            }
            j += 1;
        }
        proof {
            assert(file.rows@.take(file.rows.len() as int) =~= file.rows@);
            assert(files@.take(f + 1).drop_last() =~= files@.take(f as int));
            assert(files@.take(f + 1).last() == files@[f as int]);
            assert(picked@ =~= picked_all(files@.take(f + 1), stem@));
        }
        if picked.len() > before {
            let ghost pv = str_views(paths@);
            paths.push(file.path.clone());
            proof {
                assert(str_views(paths@) =~= pv.push(file.path@));
            }
        }
        proof {
            assert(str_views(paths@) =~= source_files(files@.take(f + 1), stem@));
        }
        f += 1;
    }
    proof {
        assert(files@.take(files.len() as int) =~= files@);
    }
    if picked.len() == 0 {
        return None;
    }
    let ghost p = picked@;
    // The distinct compared names, in order of first appearance.
    let mut names: Vec<String> = Vec::new();
    let mut name_chars: Vec<Vec<char>> = Vec::new();
    let mut j: usize = 0;
    while j < picked.len()
        invariant
            j <= picked.len(),
            p == picked@,
            names.len() == name_chars.len(),
            forall|x: int| 0 <= x < names.len() ==> (#[trigger] name_chars@[x])@ == names@[x]@,
            str_views(names@).no_duplicates(),
            str_views(names@).to_set() == compared_names(p.take(j as int)),
        decreases picked.len() - j,
    {
        let mut seen = false;
        let mut k: usize = 0;
        while k < names.len()
            invariant
                k <= names.len(),
                j < picked.len(),
                seen <==> exists|x: int| 0 <= x < k && names@[x]@ == picked@[j as int].compared@,
            decreases names.len() - k,
        {
            if names[k] == picked[j].compared {
                seen = true;
            }
            k += 1;
        }
        let ghost before = str_views(names@);
        if !seen {
            let nm = picked[j].compared.clone();
            let cs = crate::order::chars_of(nm.as_str());
            names.push(nm);
            name_chars.push(cs);
            proof {
                assert(str_views(names@) =~= before.push(picked@[j as int].compared@));
                assert forall|x: int| 0 <= x < before.len() implies before[x] != picked@[j as int].compared@ by {
                    assert(before[x] == names@[x]@);
                }
            }
        }
        proof {
            let sv = str_views(names@);
            assert forall|x: Seq<char>| sv.to_set().contains(x) == compared_names(p.take(j + 1)).contains(x) by {
                if compared_names(p.take(j + 1)).contains(x) {
                    let i = choose|i: int| 0 <= i < j + 1 && (#[trigger] p.take(j + 1)[i]).compared@ == x;
                    if i < j {
                        assert(p.take(j as int)[i] == p.take(j + 1)[i]);
                        assert(compared_names(p.take(j as int)).contains(x));
                        assert(before.to_set().contains(x));
                        let y = choose|y: int| 0 <= y < before.len() && before[y] == x;
                        assert(sv[y] == x);
                    } else if seen {
                        let y = choose|y: int| 0 <= y < names.len() && names@[y]@ == picked@[j as int].compared@;
                        assert(sv[y] == x);
                    } else {
                        assert(sv[sv.len() - 1] == x);
                    }
                }
                if sv.to_set().contains(x) {
                    let y = choose|y: int| 0 <= y < sv.len() && sv[y] == x;
                    if y < before.len() {
                        assert(before[y] == x);
                        assert(before.to_set().contains(x));
                        let i = choose|i: int| 0 <= i < j && (#[trigger] p.take(j as int)[i]).compared@ == x;
                        assert(p.take(j + 1)[i] == p.take(j as int)[i]);
                    } else {
                        assert(p.take(j + 1)[j as int] == p[j as int]);
                    }
                }
            }
            assert(sv.to_set() =~= compared_names(p.take(j + 1)));
        }
        j += 1;
    }
    proof {
        assert(p.take(p.len() as int) =~= p);
        assert forall|x: int, y: int| 0 <= x < name_chars.len() && 0 <= y < name_chars.len() && x != y
            implies name_chars@[x]@ != name_chars@[y]@ by {
            assert(str_views(names@)[x] == names@[x]@);
            assert(str_views(names@)[y] == names@[y]@);
        }
    }
    let order = sort_distinct(&name_chars);
    let mut ordered: Vec<String> = Vec::new();
    let mut k: usize = 0;
    while k < order.len()
        invariant
            k <= order.len(),
            order.len() == names.len() == name_chars.len(),
            forall|x: int| 0 <= x < order.len() ==> #[trigger] order@[x] < names.len(),
            forall|x: int| 0 <= x < names.len() ==> (#[trigger] name_chars@[x])@ == names@[x]@,
            ordered.len() == k,
            forall|x: int| 0 <= x < k ==> (#[trigger] ordered@[x])@ == names@[order@[x] as int]@,
        decreases order.len() - k,
    {
        let i = order[k];
        ordered.push(names[i].clone());
        k += 1;
    }
    let ghost l = str_views(ordered@);
    proof {
        assert(strictly_sorted(l)) by {
            assert forall|a: int, b: int| 0 <= a < b < l.len() implies crate::order::seq_lt(#[trigger] l[a], #[trigger] l[b]) by {
                assert(l[a] == name_chars@[order@[a] as int]@);
                assert(l[b] == name_chars@[order@[b] as int]@);
            }
        }
        let sv = str_views(names@);
        assert forall|x: Seq<char>| l.to_set().contains(x) == compared_names(p).contains(x) by {
            if l.to_set().contains(x) {
                let a = choose|a: int| 0 <= a < l.len() && l[a] == x;
                assert(sv[order@[a] as int] == x);
                assert(sv.to_set().contains(x));
            }
            if compared_names(p).contains(x) {
                assert(sv.to_set().contains(x));
                let y = choose|y: int| 0 <= y < sv.len() && sv[y] == x;
                assert(order@.contains(y as usize));
                let a = choose|a: int| 0 <= a < order.len() && order@[a] == y as usize;
                assert(l[a] == x);
            }
        }
        assert(l.to_set() =~= compared_names(p));
        lemma_sorted_unique(l, sorted_names(p));
    }
    // The coverage rows, grouped by name in ascending order.
    let mut rows: Vec<Vec<Cell>> = Vec::new();
    let ghost mut chosen: Seq<CompareRow> = Seq::empty();
    let mut k: usize = 0;
    while k < ordered.len()
        invariant
            k <= ordered.len(),
            p == picked@,
            l == str_views(ordered@),
            rows.len() == chosen.len(),
            forall|x: int| 0 <= x < rows.len() ==> (#[trigger] rows@[x])@.map_values(|c: Cell| c@) == coverage_cells(chosen[x]),
            chosen == rows_by(p, l.take(k as int)),
        decreases ordered.len() - k,
    {
        let ghost base = chosen;
        let mut j: usize = 0;
        while j < picked.len()
            invariant
                j <= picked.len(),
                k < ordered.len(),
                p == picked@,
                l == str_views(ordered@),
                rows.len() == chosen.len(),
                forall|x: int| 0 <= x < rows.len() ==> (#[trigger] rows@[x])@.map_values(|c: Cell| c@) == coverage_cells(chosen[x]),
                chosen == base + rows_named(p.take(j as int), l[k as int]),
            decreases picked.len() - j,
        {
            proof {
                assert(p.take(j + 1).drop_last() =~= p.take(j as int));
                assert(p.take(j + 1).last() == p[j as int]);
                assert(l[k as int] == ordered@[k as int]@);
            }
            if picked[j].compared == ordered[k] {
                let row = coverage_row(&picked[j]);
                rows.push(row);
                proof {
                    chosen = chosen.push(picked@[j as int]);
                    assert(chosen =~= base + rows_named(p.take(j + 1), l[k as int]));
                }
            } else {
                proof {
                    assert(chosen =~= base + rows_named(p.take(j + 1), l[k as int]));
                }
            }
            j += 1;
        }
        proof {
            assert(p.take(p.len() as int) =~= p);
            assert(l.take(k + 1).drop_last() =~= l.take(k as int));
            assert(l.take(k + 1).last() == l[k as int]);
        }
        k += 1;
    }
    proof {
        assert(l.take(l.len() as int) =~= l);
    }
    let reference = reference_table(&picked[0]);
    let coverage = Table {
        title: Some(string_of("Coverage")),
        desc: string_of(DESC_COVERAGE),
        headers: strings_of(
            &[
                "Compared with",
                "Common platforms",
                "Platform coverage",
                "Matched profiles",
                "Profile coverage",
                "Same n_obs",
                "Different n_obs",
                "n_obs agreement",
            ],
        ),
        rows,
    };
    let s = Section {
        level: 1,
        title: string_of("Comparison"),
        desc: string_of(DESC_COMPARISON),
        files: paths,
        tables: vec![reference, coverage],
    };
    proof {
        let v = comparison_view(files@, stem@)->0;
        assert(coverage@.headers =~= coverage_headers());
        assert(coverage@.rows =~= chosen.map_values(|r: CompareRow| coverage_cells(r)));
        assert(coverage@ =~= v.tables[1]);
        assert(s@.tables =~= v.tables);
        assert(s@ =~= v);
    }
    Some(s)
}

} // verus!
