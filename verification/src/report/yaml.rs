//! The header report: for each source file of a merged header, which core
//! physical variables exist and which other measurement variables are
//! present.

use vstd::prelude::*;

use crate::order::{chars_of, seq_lt, sort_distinct};
use crate::report::format::{ReportCell, ReportTable};
use crate::report::summary::{lemma_sorted_unique, strictly_sorted};
use crate::text::{joined, push_joined, str_views};

verus! {

/// A variable of a file's header: its name when the key is a string, its
/// `data_type` when that is a string, and the string items of its
/// `dimensions` when that is a sequence.
#[derive(Debug)]
pub struct HeaderVar {
    pub name: Option<String>,
    pub data_type: Option<String>,
    pub dimensions: Option<Vec<String>>,
}

/// A file's entry of a merged header: its name (empty when the key is not a
/// string) and its variables, `None` when it has no `variables` mapping.
#[derive(Debug)]
pub struct HeaderFile {
    pub name: String,
    pub variables: Option<Vec<HeaderVar>>,
}

/// The name of a variable, when it has one.
pub open spec fn var_name(v: HeaderVar) -> Option<Seq<char>> {
    match v.name {
        Some(n) => Some(n@),
        None => None,
    }
}

/// No two variables of a file have the same name (a mapping's keys differ).
pub open spec fn distinct_vars(f: HeaderFile) -> bool {
    match f.variables {
        Some(vs) => forall|i: int, j: int|
            0 <= i < vs.len() && 0 <= j < vs.len() && i != j && var_name(vs@[i]) is Some ==> var_name(
                #[trigger] vs@[i],
            ) != var_name(#[trigger] vs@[j]),
        None => true,
    }
}

/// Whether the file has a variable called `v`.
pub open spec fn has_var(f: HeaderFile, v: Seq<char>) -> bool {
    match f.variables {
        Some(vs) => exists|i: int| 0 <= i < vs.len() && var_name(#[trigger] vs@[i]) == Some(v),
        None => false,
    }
}

/// The core physical variables, which are never extra parameters.
pub open spec fn is_core(n: Seq<char>) -> bool {
    n == "TEMP"@ || n == "PSAL"@ || n == "PRES"@ || n == "DEPH"@
}

/// An extra measurement parameter: a `Float` variable dimensioned
/// `(TIME, DEPTH)` that is not a `_QC` flag and not a core variable.
pub open spec fn is_extra(v: HeaderVar) -> bool {
    &&& v.name matches Some(n) && !"_QC"@.is_suffix_of(n@) && !is_core(n@)
    &&& v.data_type matches Some(d) && "Float"@.is_prefix_of(d@)
    &&& v.dimensions matches Some(ds) && str_views(ds@) == seq!["TIME"@, "DEPTH"@]
}

/// The names of the extra parameters of a file.
pub open spec fn extra_names(f: HeaderFile) -> Set<Seq<char>> {
    match f.variables {
        Some(vs) => Set::new(|n: Seq<char>| exists|i: int| 0 <= i < vs.len() && is_extra(#[trigger] vs@[i]) && var_name(vs@[i]) == Some(n)),
        None => Set::empty(),
    }
}

/// Variable `v` is called `n`, a name that is none of TEMP, PSAL, PRES and
/// DEPH and does not end in `_QC`, and it is a `Float` dimensioned
/// `(TIME, DEPTH)`.
pub open spec fn named_measurement(v: HeaderVar, n: Seq<char>) -> bool {
    &&& v.name matches Some(m) && m@ == n
    &&& n != "TEMP"@ && n != "PSAL"@ && n != "PRES"@ && n != "DEPH"@
    &&& !"_QC"@.is_suffix_of(n)
    &&& v.data_type matches Some(d) && "Float"@.is_prefix_of(d@)
    &&& v.dimensions matches Some(ds) && str_views(ds@) == seq!["TIME"@, "DEPTH"@]
}

/// No core variable (TEMP, PSAL, PRES, DEPH) is ever an extra parameter, nor
/// is a `_QC` flag; the extra parameters of a file are exactly the names of
/// its `Float` `(TIME, DEPTH)` variables other than those.
pub proof fn lemma_extra_names_exclude_core(f: HeaderFile, n: Seq<char>)
    ensures
        !extra_names(f).contains("TEMP"@),
        !extra_names(f).contains("PSAL"@),
        !extra_names(f).contains("PRES"@),
        !extra_names(f).contains("DEPH"@),
        extra_names(f).contains(n) ==> !"_QC"@.is_suffix_of(n) && has_var(f, n),
        extra_names(f).contains(n) <==> (f.variables matches Some(vs) && exists|i: int|
            0 <= i < vs.len() && named_measurement(#[trigger] vs@[i], n)),
{
    match f.variables {
        Some(vs) => {
            if extra_names(f).contains(n) {
                let i = choose|i: int| 0 <= i < vs.len() && is_extra(#[trigger] vs@[i]) && var_name(vs@[i]) == Some(n);
                assert(var_name(vs@[i]) == Some(n));
                assert(named_measurement(vs@[i], n));
            }
            if exists|i: int| 0 <= i < vs.len() && named_measurement(#[trigger] vs@[i], n) {
                let i = choose|i: int| 0 <= i < vs.len() && named_measurement(#[trigger] vs@[i], n);
                assert(is_extra(vs@[i]));
                assert(var_name(vs@[i]) == Some(n));
                assert(extra_names(f).contains(n));
            }
        },
        None => {},
    }
    if extra_names(f).contains("TEMP"@) {
        let vs = f.variables->0;
        let i = choose|i: int| 0 <= i < vs.len() && is_extra(#[trigger] vs@[i]) && var_name(vs@[i]) == Some("TEMP"@);
        assert(var_name(vs@[i]) == Some("TEMP"@));
    }
    if extra_names(f).contains("PSAL"@) {
        let vs = f.variables->0;
        let i = choose|i: int| 0 <= i < vs.len() && is_extra(#[trigger] vs@[i]) && var_name(vs@[i]) == Some("PSAL"@);
        assert(var_name(vs@[i]) == Some("PSAL"@));
    }
    if extra_names(f).contains("PRES"@) {
        let vs = f.variables->0;
        let i = choose|i: int| 0 <= i < vs.len() && is_extra(#[trigger] vs@[i]) && var_name(vs@[i]) == Some("PRES"@);
        assert(var_name(vs@[i]) == Some("PRES"@));
    }
    if extra_names(f).contains("DEPH"@) {
        let vs = f.variables->0;
        let i = choose|i: int| 0 <= i < vs.len() && is_extra(#[trigger] vs@[i]) && var_name(vs@[i]) == Some("DEPH"@);
        assert(var_name(vs@[i]) == Some("DEPH"@));
    }
}

/// The extra parameters of a file, in ascending order.
pub open spec fn sorted_extra_names(f: HeaderFile) -> Seq<Seq<char>> {
    choose|l: Seq<Seq<char>>| strictly_sorted(l) && l.to_set() == extra_names(f)
}

/// The report row of a file: its name, whether it has TEMP, PSAL, PRES and
/// DEPH, whether it has each of the two profile-level QC flags (TIME_QC,
/// POSITION_QC), and its extra parameters joined by `;`.
pub open spec fn row_of(row: Seq<ReportCell>, f: HeaderFile) -> bool {
    &&& row.len() == 8
    &&& row[0] matches ReportCell::Text(s) && s@ == f.name@
    &&& row[1] == ReportCell::Bool(has_var(f, "TEMP"@))
    &&& row[2] == ReportCell::Bool(has_var(f, "PSAL"@))
    &&& row[3] == ReportCell::Bool(has_var(f, "PRES"@))
    &&& row[4] == ReportCell::Bool(has_var(f, "DEPH"@))
    &&& row[5] == ReportCell::Bool(has_var(f, "TIME_QC"@))
    &&& row[6] == ReportCell::Bool(has_var(f, "POSITION_QC"@))
    &&& row[7] matches ReportCell::Text(e) && e@ == joined(sorted_extra_names(f), ";"@)
}

/// The column names of the header report.
pub open spec fn yaml_columns() -> Seq<Seq<char>> {
    seq![
        "filename"@,
        "has_temp"@,
        "has_psal"@,
        "has_pres"@,
        "has_deph"@,
        "has_time_qc"@,
        "has_position_qc"@,
        "extra_params"@,
    ]
}

/// Whether two strings are equal.
fn same_text(a: &str, b: &str) -> (r: bool)
    ensures
        r == (a@ == b@),
{
    let x = a.to_owned();
    let y = b.to_owned();
    x == y
}

/// Whether the file has a variable called `v`.
fn has_variable(f: &HeaderFile, v: &str) -> (r: bool)
    ensures
        r == has_var(*f, v@),
{
    match &f.variables {
        None => false,
        Some(vs) => {
            let mut i: usize = 0;
            while i < vs.len()
                invariant
                    f.variables == Some(*vs),
                    i <= vs.len(),
                    forall|j: int| 0 <= j < i ==> var_name(#[trigger] vs@[j]) != Some(v@),
                decreases vs.len() - i,
            {
                match &vs[i].name {
                    Some(n) => {
                        if same_text(n.as_str(), v) {
                            proof {
                                assert(var_name(vs@[i as int]) == Some(v@));
                            }
                            return true;
                        }
                    },
                    None => {},
                }
                i += 1;
            }
            false
        },
    }
}

/// Whether `s` ends with `suffix`.
fn ends_with(s: &Vec<char>, suffix: &Vec<char>) -> (r: bool)
    ensures
        r == suffix@.is_suffix_of(s@),
{
    if suffix.len() > s.len() {
        return false;
    }
    let off = s.len() - suffix.len();
    let mut i: usize = 0;
    while i < suffix.len()
        invariant
            off == s.len() - suffix.len(),
            i <= suffix.len(),
            forall|k: int| 0 <= k < i ==> s@[off + k] == suffix@[k],
        decreases suffix.len() - i,
    {
        if s[off + i] != suffix[i] {
            proof {
                assert(s@.subrange(off as int, s.len() as int)[i as int] != suffix@[i as int]);
            }
            return false;
        }
        i += 1;
    }
    proof {
        assert(s@.subrange(off as int, s.len() as int) =~= suffix@);
    }
    true
}

/// Whether `s` starts with `prefix`.
fn starts_with(s: &Vec<char>, prefix: &Vec<char>) -> (r: bool)
    ensures
        r == prefix@.is_prefix_of(s@),
{
    if prefix.len() > s.len() {
        return false;
    }
    let mut i: usize = 0;
    while i < prefix.len()
        invariant
            prefix.len() <= s.len(),
            i <= prefix.len(),
            forall|k: int| 0 <= k < i ==> s@[k] == prefix@[k],
        decreases prefix.len() - i,
    {
        if s[i] != prefix[i] {
            proof {
                assert(s@.subrange(0, prefix.len() as int)[i as int] != prefix@[i as int]);
            }
            return false;
        }
        i += 1;
    }
    proof {
        assert(s@.subrange(0, prefix.len() as int) =~= prefix@);
    }
    true
}

/// Whether a variable is an extra measurement parameter.
fn extra(v: &HeaderVar) -> (r: bool)
    ensures
        r == is_extra(*v),
{
    let n = match &v.name {
        Some(n) => n,
        None => return false,
    };
    let nc = chars_of(n.as_str());
    let qc = chars_of("_QC");
    if ends_with(&nc, &qc) {
        return false;
    }
    if same_text(n.as_str(), "TEMP") || same_text(n.as_str(), "PSAL") || same_text(n.as_str(), "PRES") || same_text(
        n.as_str(),
        "DEPH",
    ) {
        return false;
    }
    let d = match &v.data_type {
        Some(d) => d,
        None => return false,
    };
    let dc = chars_of(d.as_str());
    let fl = chars_of("Float");
    if !starts_with(&dc, &fl) {
        return false;
    }
    match &v.dimensions {
        None => false,
        Some(ds) => {
            let r = ds.len() == 2 && same_text(ds[0].as_str(), "TIME") && same_text(ds[1].as_str(), "DEPTH");
            proof {
                if r {
                    assert(str_views(ds@) =~= seq!["TIME"@, "DEPTH"@]);
                }
                if str_views(ds@) == seq!["TIME"@, "DEPTH"@] {
                    assert(seq!["TIME"@, "DEPTH"@].len() == 2);
                    assert(ds@.len() == 2);
                    assert(str_views(ds@)[0] == ds@[0]@);
                    assert(str_views(ds@)[1] == ds@[1]@);
                }
            }
            r
        },
    }
}

/// The extra parameters of a file joined by `;`, in ascending order.
pub fn extra_params(f: &HeaderFile) -> (r: String)
    requires
        distinct_vars(*f),
    ensures
        r@ == joined(sorted_extra_names(*f), ";"@),
{
    let mut names: Vec<Vec<char>> = Vec::new();
    let mut strs: Vec<String> = Vec::new();
    match &f.variables {
        None => {},
        Some(vs) => {
            let mut i: usize = 0;
            while i < vs.len()
                invariant
                    f.variables == Some(*vs),
                    distinct_vars(*f),
                    i <= vs.len(),
                    names.len() == strs.len(),
                    forall|k: int| 0 <= k < names.len() ==> (#[trigger] names@[k])@ == strs@[k]@,
                    forall|k: int| #![trigger names@[k]] 0 <= k < names.len() ==> exists|j: int|
                        0 <= j < i && is_extra(#[trigger] vs@[j]) && var_name(vs@[j]) == Some(names@[k]@),
                    forall|j: int| #![trigger vs@[j]] 0 <= j < i && is_extra(vs@[j]) ==> exists|k: int|
                        0 <= k < names.len() && var_name(vs@[j]) == Some(#[trigger] names@[k]@),
                    forall|a: int, b: int| 0 <= a < names.len() && 0 <= b < names.len() && a != b ==> names@[a]@ != names@[b]@,
                decreases vs.len() - i,
            {
                if extra(&vs[i]) {
                    let n = match &vs[i].name {
                        Some(n) => n,
                        None => {
                            proof {
                                assert(false);
                            }
                            return String::new();
                        },
                    };
                    let ghost before = names@;
                    proof {
                        assert forall|k: int| 0 <= k < names.len() implies names@[k]@ != n@ by {
                            let j = choose|j: int| 0 <= j < i && is_extra(#[trigger] vs@[j]) && var_name(vs@[j]) == Some(names@[k]@);
                            assert(j != i);
                        }
                    }
                    names.push(chars_of(n.as_str()));
                    strs.push(n.clone());
                    proof {
                        assert forall|k: int| #![trigger names@[k]] 0 <= k < names.len() implies exists|j: int|
                            0 <= j < i + 1 && is_extra(#[trigger] vs@[j]) && var_name(vs@[j]) == Some(names@[k]@) by {
                            if k < before.len() {
                                assert(names@[k] == before[k]);
                            } else {
                                assert(var_name(vs@[i as int]) == Some(names@[k]@));
                            }
                        }
                        assert forall|j: int| #![trigger vs@[j]] 0 <= j < i + 1 && is_extra(vs@[j]) implies exists|k: int|
                            0 <= k < names.len() && var_name(vs@[j]) == Some(#[trigger] names@[k]@) by {
                            if j < i {
                                let k = choose|k: int| 0 <= k < before.len() && var_name(vs@[j]) == Some(before[k]@);
                                assert(names@[k] == before[k]);
                            } else {
                                assert(var_name(vs@[j]) == Some(names@[names.len() - 1]@));
                            }
                        }
                    }
                }
                i += 1;
            }
        },
    }
    let order = sort_distinct(&names);
    let mut parts: Vec<String> = Vec::new();
    let mut x: usize = 0;
    while x < order.len()
        invariant
            order.len() == names.len(),
            names.len() == strs.len(),
            forall|k: int| 0 <= k < names.len() ==> (#[trigger] names@[k])@ == strs@[k]@,
            forall|y: int| 0 <= y < order.len() ==> #[trigger] order@[y] < names.len(),
            x <= order.len(),
            parts.len() == x,
            forall|y: int| 0 <= y < x ==> (#[trigger] parts@[y])@ == names@[order@[y] as int]@,
        decreases order.len() - x,
    {
        let k = order[x];
        parts.push(strs[k].clone());
        x += 1;
    }
    let ghost l = str_views(parts@);
    proof {
        assert forall|a: int, b: int| 0 <= a < b < l.len() implies seq_lt(#[trigger] l[a], #[trigger] l[b]) by {
            assert(l[a] == names@[order@[a] as int]@);
            assert(l[b] == names@[order@[b] as int]@);
        }
        assert forall|y: Seq<char>| l.to_set().contains(y) <==> extra_names(*f).contains(y) by {
            if l.to_set().contains(y) {
                let a = choose|a: int| 0 <= a < l.len() && l[a] == y;
                let k = order@[a] as int;
                assert(l[a] == names@[k]@);
                let vs = f.variables->0;
                let j = choose|j: int| 0 <= j < vs.len() && is_extra(#[trigger] vs@[j]) && var_name(vs@[j]) == Some(names@[k]@);
            }
            if extra_names(*f).contains(y) {
                let vs = f.variables->0;
                let j = choose|j: int| 0 <= j < vs.len() && is_extra(#[trigger] vs@[j]) && var_name(vs@[j]) == Some(y);
                let k = choose|k: int| 0 <= k < names.len() && var_name(vs@[j]) == Some(names@[k]@);
                assert(order@.contains(k as usize));
                let b = choose|b: int| 0 <= b < order.len() && order@[b] == k as usize;
                assert(l[b] == y);
            }
        }
        assert(l.to_set() =~= extra_names(*f));
        assert(strictly_sorted(l) && l.to_set() == extra_names(*f));
        lemma_sorted_unique(l, sorted_extra_names(*f));
    }
    let mut r = String::new();
    push_joined(&mut r, &parts, ";");
    proof {
        assert(parts@.map_values(|p: String| p@) =~= l);
    }
    r
}


/// One report row per file of a merged header, in the header's order.
pub fn yaml_report(files: &Vec<HeaderFile>) -> (t: ReportTable)
    requires
        forall|k: int| 0 <= k < files.len() ==> distinct_vars(#[trigger] files@[k]),
    ensures
        t.wf(),
        str_views(t.columns@) == yaml_columns(),
        t.rows.len() == files.len(),
        forall|k: int| 0 <= k < files.len() ==> row_of(#[trigger] t.rows@[k]@, files@[k]),
{
    let columns = vec![
        String::from_str("filename"),
        String::from_str("has_temp"),
        String::from_str("has_psal"),
        String::from_str("has_pres"),
        String::from_str("has_deph"),
        String::from_str("has_time_qc"),
        String::from_str("has_position_qc"),
        String::from_str("extra_params"),
    ];
    proof {
        assert(str_views(columns@) =~= yaml_columns());
    }
    let mut rows: Vec<Vec<ReportCell>> = Vec::new();
    let mut k: usize = 0;
    while k < files.len()
        invariant
            forall|k: int| 0 <= k < files.len() ==> distinct_vars(#[trigger] files@[k]),
            columns.len() == 8,
            k <= files.len(),
            rows.len() == k,
            forall|j: int| 0 <= j < k ==> row_of(#[trigger] rows@[j]@, files@[j]),
        decreases files.len() - k,
    {
        let f = &files[k];
        let row = vec![
            ReportCell::Text(f.name.clone()),
            ReportCell::Bool(has_variable(f, "TEMP")),
            ReportCell::Bool(has_variable(f, "PSAL")),
            ReportCell::Bool(has_variable(f, "PRES")),
            ReportCell::Bool(has_variable(f, "DEPH")),
            ReportCell::Bool(has_variable(f, "TIME_QC")),
            ReportCell::Bool(has_variable(f, "POSITION_QC")),
            ReportCell::Text(extra_params(f)),
        ];
        rows.push(row);
        k += 1;
    }
    ReportTable { columns, rows }
}

} // verus!
