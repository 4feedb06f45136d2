//! The summary page for one file stem: its sections, assembled from the TSV
//! reports the pipeline produces.
//!
//! The per-stage counts (platforms / profiles / observations) come from the
//! platform-level parquet reports; the "% of original" / "Deleted" columns
//! compare each stage against the Conversion stage (or, if that is absent, the
//! earliest stage present). The Deduplication stages are additionally compared
//! against the cleaned counts, those of the last cleaning stage present. The
//! Mark-duplicates section splits the duplicates into within-platform (a
//! group confined to one platform) and across-platform (a group spanning two
//! or more), and tabulates how many profiles the duplicate groups hold.
//!
//! Percentages are kept as `Pct` / `Deleted` cells (a count and its base)
//! until the page is rendered.

use vstd::prelude::*;

use vstd::hash_map::StringHashMap;

use crate::batch::{join_path, path_join};
use crate::report::bbox::{bbox_table, bbox_view, Extent};
use crate::report::coverage::{comparison_section, comparison_view, CompareReport};
use crate::order::{chars_of, lemma_seq_lt_order, seq_lt, sort_distinct};
use crate::report::tsv::{column_of, count_eq_spec, row_views, split_on, split_range, Tsv};
use crate::text::{decimal, digit_char, joined, lemma_decimal_no_comma, lemma_digit_char, push_char, push_joined, push_str, str_views, u64_to_decimal};

verus! {

/// The format of the summary page.
#[derive(Debug, Clone, Copy, PartialEq, Eq, Structural)]
pub enum SummaryFormat {
    Md,
    Html,
}

/// What a summary run needs besides the stem.
#[derive(Debug)]
pub struct Opts {
    pub report_dir: String,
    pub out_dir: String,
    pub format: SummaryFormat,
    /// Page title; defaults to `Summary: <stem>`.
    pub title: Option<String>,
    /// Free-text notes rendered under the page title.
    pub notes: Vec<String>,
    pub output: Option<String>,
}

/// Distinct duplicate-group sizes are listed up to this many profiles per
/// group; larger groups collapse into one `11+` row.
pub const GROUP_SIZE_CAP: u64 = 10;

/// Platform, profile and observation counts of one stage.
#[derive(Debug, Clone, Copy, PartialEq, Eq, Structural)]
pub struct Counts {
    pub platforms: u64,
    pub profiles: u64,
    pub obs: u64,
}

/// A table cell: text, or a share that the renderer formats as a percentage.
#[derive(Debug)]
pub enum Cell {
    Text(String),
    /// `n` as a percentage of `base`; blank when `base` is 0.
    Pct { n: u64, base: u64 },
    /// 100 minus `n` as a percentage of `base`; blank when `base` is 0.
    Deleted { n: u64, base: u64 },
}

/// The view of a cell.
pub ghost enum CellView {
    Text(Seq<char>),
    Pct(u64, u64),
    Deleted(u64, u64),
}

impl View for Cell {
    type V = CellView;

    open spec fn view(&self) -> CellView {
        match self {
            Cell::Text(s) => CellView::Text(s@),
            Cell::Pct { n, base } => CellView::Pct(*n, *base),
            Cell::Deleted { n, base } => CellView::Deleted(*n, *base),
        }
    }
}

/// A table of the page, with cells of type `C`.
#[derive(Debug)]
pub struct Table<C> {
    pub title: Option<String>,
    /// Prose under the table's title; empty for the unlabelled tables.
    pub desc: String,
    pub headers: Vec<String>,
    pub rows: Vec<Vec<C>>,
}

/// The view of a table.
#[verifier::ext_equal]
pub ghost struct TableView<V> {
    pub title: Option<Seq<char>>,
    pub desc: Seq<char>,
    pub headers: Seq<Seq<char>>,
    pub rows: Seq<Seq<V>>,
}

/// The view of an optional string.
pub open spec fn opt_view(o: Option<String>) -> Option<Seq<char>> {
    match o {
        Some(s) => Some(s@),
        None => None,
    }
}

/// The views of the cells of a row.
pub open spec fn cell_views<C: View>(r: Seq<C>) -> Seq<C::V> {
    r.map_values(|c: C| c@)
}

impl<C: View> View for Table<C> {
    type V = TableView<C::V>;

    open spec fn view(&self) -> TableView<C::V> {
        TableView {
            title: opt_view(self.title),
            desc: self.desc@,
            headers: str_views(self.headers@),
            rows: self.rows@.map_values(|r: Vec<C>| cell_views(r@)),
        }
    }
}

/// A section of the page.
#[derive(Debug)]
pub struct Section<C> {
    /// 1 for a top-level section, 2 for a stage under one.
    pub level: u8,
    pub title: String,
    /// One or two generic sentences explaining what the stage did.
    pub desc: String,
    pub files: Vec<String>,
    pub tables: Vec<Table<C>>,
}

/// The view of a section.
#[verifier::ext_equal]
pub ghost struct SectionView<V> {
    pub level: u8,
    pub title: Seq<char>,
    pub desc: Seq<char>,
    pub files: Seq<Seq<char>>,
    pub tables: Seq<TableView<V>>,
}

/// The views of a list of tables.
pub open spec fn table_views<C: View>(ts: Seq<Table<C>>) -> Seq<TableView<C::V>> {
    ts.map_values(|t: Table<C>| t@)
}

impl<C: View> View for Section<C> {
    type V = SectionView<C::V>;

    open spec fn view(&self) -> SectionView<C::V> {
        SectionView {
            level: self.level,
            title: self.title@,
            desc: self.desc@,
            files: str_views(self.files@),
            tables: table_views(self.tables@),
        }
    }
}

/// The views of a list of sections.
pub open spec fn section_views<C: View>(ss: Seq<Section<C>>) -> Seq<SectionView<C::V>> {
    ss.map_values(|s: Section<C>| s@)
}


// ── Section prose ───────────────────────────────────────────────────────────
// Generic across every region and dataset; anything region- or
// product-specific belongs in a note passed by the caller.

pub const DESC_FILES: &'static str = "Coverage of the core measurement variables and the two profile-level QC flags across the source NetCDF files. A file counts as having one if the variable is present, regardless of how many of its values are valid. \"Extra parameters\" lists the non-core variables seen in any file.";

pub const DESC_CONVERT: &'static str = "Counts after converting the source NetCDF files to Parquet, before any profile is dropped. These are the \"original\" numbers every later stage is compared against.";

pub const DESC_CLEANING: &'static str = "Stages that drop whole profiles that are unusable or out of scope. They run in the order below, each on the output of the previous one, so the counts fall monotonically.";

pub const DESC_DROPQC: &'static str = "Drops whole profiles whose profile-level quality flags are bad. A profile is kept only if both its time and position QC are good (flag 1) or absent. Many files ship no profile-level QC, and those profiles are kept.";

pub const DESC_DROPNA: &'static str = "Drops whole profiles that carry no valid measurement at all in any one of temperature, salinity, or pressure. A profile is kept only if each of the three has at least one valid observation.";

pub const DESC_FILTER: &'static str = "Keeps only the profiles whose position falls inside the region's bounding box. A profile with a missing position counts as outside and is dropped.";

pub const DESC_DEDUP: &'static str = "Stages that find and remove profiles measuring the same time and place. Profiles match on date and rounded longitude/latitude. The platform is not part of the key, so duplicates are found across platforms as well as within one.";

pub const DESC_MARKDUP: &'static str = "Flags every profile that shares its (date, position) key with at least one other. Nothing is removed here, so the counts match the previous stage; \"Duplicate profiles\" is the pool the next stage picks a survivor from.";

pub const DESC_DUPS_WITHIN: &'static str = "Duplicate groups whose profiles all carry the same platform code: one platform reporting the same cast more than once. Percentages are shares of all duplicate profiles.";

pub const DESC_DUPS_ACROSS: &'static str = "Duplicate groups whose profiles carry two or more different platform codes: the same cast reaching the archive under more than one platform, typically via overlapping products. Percentages are shares of all duplicate profiles.";

pub const DESC_GROUP_SIZES: &'static str = "How many profiles each duplicate group holds. A group of 2 is a cast recorded twice; larger groups are the same cast repeated more often. Sizes above 10 are pooled into the final row.";

pub const DESC_REMOVE_DUPS: &'static str = "Keeps one profile per duplicate key and drops the rest. The survivor is the profile with the most observations, with ties broken by first appearance. Profiles with no key (missing time or position) are never treated as duplicates and always survive.";

// ── Integers with thousands separators ──────────────────────────────────────

/// Three decimal digits of `n`, with leading zeros.
pub open spec fn three_digits(n: nat) -> Seq<char> {
    seq![digit_char(n / 100), digit_char((n / 10) % 10), digit_char(n % 10)]
}

/// `n` in decimal, its digits grouped by threes with commas, e.g. `12,345`.
pub open spec fn thousands(n: nat) -> Seq<char>
    decreases n,
{
    if n < 1000 {
        decimal(n)
    } else {
        thousands(n / 1000) + seq![','] + three_digits(n % 1000)
    }
}

/// Integer with thousands separators, e.g. `12345` gives `12,345`.
pub fn fmt_int(n: u64) -> (r: String)
    ensures
        r@ == thousands(n as nat),
    decreases n,
{
    if n < 1000 {
        u64_to_decimal(n)
    } else {
        let mut r = fmt_int(n / 1000);
        let m = n % 1000;
        push_char(&mut r, ',');
        push_char(&mut r, (48u8 + (m / 100) as u8) as char);
        push_char(&mut r, (48u8 + ((m / 10) % 10) as u8) as char);
        push_char(&mut r, (48u8 + (m % 10) as u8) as char);
        proof {
            assert(r@ =~= thousands(n as nat));
        }
        r
    }
}

// ── Count tables ────────────────────────────────────────────────────────────

/// A text cell.
pub open spec fn text(s: Seq<char>) -> CellView {
    CellView::Text(s)
}

/// An integer cell.
pub open spec fn int_cell(n: u64) -> CellView {
    CellView::Text(thousands(n as nat))
}

/// The plain platforms / profiles / observations table of the Conversion stage.
pub open spec fn counts_table_view(c: Counts) -> TableView<CellView> {
    TableView {
        title: None,
        desc: Seq::empty(),
        headers: seq!["Metric"@, "Count"@],
        rows: seq![
            seq![text("Platforms"@), int_cell(c.platforms)],
            seq![text("Profiles"@), int_cell(c.profiles)],
            seq![text("Observations"@), int_cell(c.obs)],
        ],
    }
}

/// A row of a stage table: the count, its share of the original and what was
/// deleted of it, then, when a cleaned count is given, the same against it.
pub open spec fn stage_row_view(name: Seq<char>, n: u64, base: u64, clean_base: Option<u64>) -> Seq<CellView> {
    let r = seq![text(name), int_cell(n), CellView::Pct(n, base), CellView::Deleted(n, base)];
    match clean_base {
        Some(cb) => r + seq![int_cell(cb), CellView::Pct(n, cb), CellView::Deleted(n, cb)],
        None => r,
    }
}

/// The cleaned count picked out of optional counts.
pub open spec fn pick(cleaned: Option<Counts>, f: spec_fn(Counts) -> u64) -> Option<u64> {
    match cleaned {
        Some(c) => Some(f(c)),
        None => None,
    }
}

/// A stage table: counts with "% of original" / "Deleted" against `baseline`
/// (the stage itself when there is none), and, when `cleaned` is given, three
/// more columns against the cleaned counts.
pub open spec fn stage_table_view(c: Counts, baseline: Option<Counts>, cleaned: Option<Counts>) -> TableView<CellView> {
    let b = match baseline {
        Some(b) => b,
        None => c,
    };
    let headers = seq!["Metric"@, "Count"@, "% of original"@, "Deleted"@];
    TableView {
        title: None,
        desc: Seq::empty(),
        headers: if cleaned is Some {
            headers + seq!["Cleaned"@, "% of cleaned"@, "Deleted (cleaned)"@]
        } else {
            headers
        },
        rows: seq![
            stage_row_view("Platforms"@, c.platforms, b.platforms, pick(cleaned, |x: Counts| x.platforms)),
            stage_row_view("Profiles"@, c.profiles, b.profiles, pick(cleaned, |x: Counts| x.profiles)),
            stage_row_view("Observations"@, c.obs, b.obs, pick(cleaned, |x: Counts| x.obs)),
        ],
    }
}

/// A string holding `s`.
pub(crate) fn string_of(s: &str) -> (r: String)
    ensures
        r@ == s@,
{
    String::from_str(s)
}

/// A text cell holding `s`.
pub(crate) fn text_cell(s: &str) -> (r: Cell)
    ensures
        r@ == text(s@),
{
    Cell::Text(string_of(s))
}

/// An integer cell holding `n` with thousands separators.
pub(crate) fn int_text(n: u64) -> (r: Cell)
    ensures
        r@ == int_cell(n),
{
    Cell::Text(fmt_int(n))
}

/// A list of strings holding the given texts.
pub(crate) fn strings_of(items: &[&str]) -> (r: Vec<String>)
    ensures
        r.len() == items@.len(),
        forall|i: int| 0 <= i < r.len() ==> (#[trigger] r@[i])@ == items@[i]@,
{
    let mut r: Vec<String> = Vec::new();
    let mut i: usize = 0;
    while i < items.len()
        invariant
            i <= items@.len(),
            r.len() == i,
            forall|j: int| 0 <= j < i ==> (#[trigger] r@[j])@ == items@[j]@,
        decreases items@.len() - i,
    {
        r.push(string_of(items[i]));
        i += 1;
    }
    r
}

/// A plain platforms / profiles / observations table.
pub fn counts_table(c: Counts) -> (t: Table<Cell>)
    ensures
        t@ == counts_table_view(c),
{
    let headers = strings_of(&["Metric", "Count"]);
    let rows = vec![
        vec![text_cell("Platforms"), int_text(c.platforms)],
        vec![text_cell("Profiles"), int_text(c.profiles)],
        vec![text_cell("Observations"), int_text(c.obs)],
    ];
    let t = Table { title: None, desc: String::new(), headers, rows };
    proof {
        assert(t@.headers =~= counts_table_view(c).headers);
        assert(t@.rows[0] =~= counts_table_view(c).rows[0]);
        assert(t@.rows[1] =~= counts_table_view(c).rows[1]);
        assert(t@.rows[2] =~= counts_table_view(c).rows[2]);
        assert(t@.rows =~= counts_table_view(c).rows);
        assert(t@ =~= counts_table_view(c));
    }
    t
}


/// One row of a stage table.
fn stage_row(name: &str, n: u64, base: u64, clean_base: Option<u64>) -> (r: Vec<Cell>)
    ensures
        cell_views(r@) == stage_row_view(name@, n, base, clean_base),
{
    let mut r = vec![text_cell(name), int_text(n), Cell::Pct { n, base }, Cell::Deleted { n, base }];
    match clean_base {
        Some(cb) => {
            r.push(int_text(cb));
            r.push(Cell::Pct { n, base: cb });
            r.push(Cell::Deleted { n, base: cb });
        },
        None => {},
    }
    proof {
        assert(cell_views(r@) =~= stage_row_view(name@, n, base, clean_base));
    }
    r
}

/// A stage table with "% of original" / "Deleted" columns relative to
/// `baseline`. When `cleaned` is given, three more columns compare the stage
/// against the cleaned data it actually ran on: the cleaned count, the
/// stage's share of it, and how much of it the stage deleted.
pub fn stage_table(c: Counts, baseline: Option<Counts>, cleaned: Option<Counts>) -> (t: Table<Cell>)
    ensures
        t@ == stage_table_view(c, baseline, cleaned),
{
    let b = match baseline {
        Some(b) => b,
        None => c,
    };
    let mut headers = strings_of(&["Metric", "Count", "% of original", "Deleted"]);
    let (cp, cr, co) = match cleaned {
        Some(x) => {
            headers.push(string_of("Cleaned"));
            headers.push(string_of("% of cleaned"));
            headers.push(string_of("Deleted (cleaned)"));
            (Some(x.platforms), Some(x.profiles), Some(x.obs))
        },
        None => (None, None, None),
    };
    let rows = vec![
        stage_row("Platforms", c.platforms, b.platforms, cp),
        stage_row("Profiles", c.profiles, b.profiles, cr),
        stage_row("Observations", c.obs, b.obs, co),
    ];
    let t = Table { title: None, desc: String::new(), headers, rows };
    proof {
        let v = stage_table_view(c, baseline, cleaned);
        assert(t@.headers =~= v.headers);
        assert(t@.rows[0] =~= v.rows[0]);
        assert(t@.rows[1] =~= v.rows[1]);
        assert(t@.rows[2] =~= v.rows[2]);
        assert(t@.rows =~= v.rows);
        assert(t@ =~= v);
    }
    t
}

// ── Sections ────────────────────────────────────────────────────────────────

/// A heading section with prose and nothing else.
pub open spec fn parent_view(title: Seq<char>, desc: Seq<char>) -> SectionView<CellView> {
    SectionView { level: 1, title, desc, files: Seq::empty(), tables: Seq::empty() }
}

/// A heading section with prose and nothing else.
fn parent_section(title: &str, desc: &str) -> (s: Section<Cell>)
    ensures
        s@ == parent_view(title@, desc@),
{
    let s = Section { level: 1, title: string_of(title), desc: string_of(desc), files: Vec::new(), tables: Vec::new() };
    proof {
        assert(s@ =~= parent_view(title@, desc@));
    }
    s
}


// ── Duplicate groups ────────────────────────────────────────────────────────

/// Field `col` of a record, empty when the column or the field is missing.
pub open spec fn field_at(row: Seq<Seq<char>>, col: Option<int>) -> Seq<char> {
    match col {
        Some(i) => if 0 <= i < row.len() {
            row[i]
        } else {
            Seq::empty()
        },
        None => Seq::empty(),
    }
}

/// The fields of column `name` of every record (empty where missing).
pub open spec fn column_fields(t: Tsv, name: Seq<char>) -> Seq<Seq<char>> {
    let col = column_of(str_views(t.header@), name);
    row_views(t.rows@).map_values(|r: Seq<Seq<char>>| field_at(r, col))
}

/// The distinct labels of `ls`, in order of first appearance.
pub open spec fn first_labels(ls: Seq<Seq<char>>) -> Seq<Seq<char>>
    decreases ls.len(),
{
    if ls.len() == 0 {
        Seq::empty()
    } else {
        let p = first_labels(ls.drop_last());
        if p.contains(ls.last()) {
            p
        } else {
            p.push(ls.last())
        }
    }
}

/// The number of records labelled `l`.
pub open spec fn label_count(ls: Seq<Seq<char>>, l: Seq<char>) -> nat
    decreases ls.len(),
{
    if ls.len() == 0 {
        0
    } else {
        label_count(ls.drop_last(), l) + if ls.last() == l {
            1nat
        } else {
            0nat
        }
    }
}

/// The total of `obs` over the records labelled `l`.
pub open spec fn label_obs(ls: Seq<Seq<char>>, obs: Seq<u64>, l: Seq<char>) -> nat
    decreases ls.len(),
{
    if ls.len() == 0 || obs.len() == 0 {
        0
    } else {
        label_obs(ls.drop_last(), obs.drop_last(), l) + if ls.last() == l {
            obs.last() as nat
        } else {
            0nat
        }
    }
}

/// The total of a list of counts.
pub open spec fn total(s: Seq<u64>) -> nat
    decreases s.len(),
{
    if s.len() == 0 {
        0
    } else {
        total(s.drop_last()) + s.last() as nat
    }
}

/// The platforms of the records labelled `l`.
pub open spec fn label_platforms(ls: Seq<Seq<char>>, ps: Seq<Seq<char>>, l: Seq<char>) -> Set<Seq<char>> {
    Set::new(|p: Seq<char>| exists|r: int| 0 <= r < ls.len() && ls[r] == l && ps[r] == p)
}

/// One duplicate group: its distinct platforms, its profiles and their
/// observations.
#[derive(Debug)]
pub struct DupGroup {
    pub platforms: Vec<String>,
    pub profiles: u64,
    pub obs: u64,
}

/// `g` aggregates the records labelled `l`.
pub open spec fn aggregates(g: DupGroup, ls: Seq<Seq<char>>, ps: Seq<Seq<char>>, obs: Seq<u64>, l: Seq<char>) -> bool {
    &&& g.profiles == label_count(ls, l)
    &&& g.obs == label_obs(ls, obs, l)
    &&& str_views(g.platforms@).no_duplicates()
    &&& str_views(g.platforms@).to_set() == label_platforms(ls, ps, l)
}

/// What a group amounts to: its set of platforms, its profiles and its
/// observations.
pub open spec fn group_view(g: DupGroup) -> (Set<Seq<char>>, nat, nat) {
    (str_views(g.platforms@).to_set(), g.profiles as nat, g.obs as nat)
}

/// The views of a list of groups.
pub open spec fn group_views(gs: Seq<DupGroup>) -> Seq<(Set<Seq<char>>, nat, nat)> {
    gs.map_values(|g: DupGroup| group_view(g))
}

/// The groups of records with labels `ls`, platforms `ps` and observation
/// counts `obs`: one per distinct label, in order of first appearance.
pub open spec fn label_groups(ls: Seq<Seq<char>>, ps: Seq<Seq<char>>, obs: Seq<u64>) -> Seq<(Set<Seq<char>>, nat, nat)> {
    first_labels(ls).map_values(|l: Seq<char>| (label_platforms(ls, ps, l), label_count(ls, l), label_obs(ls, obs, l)))
}

/// The groups of a duplicates file, given the observation count of each row.
pub open spec fn file_groups(t: Tsv, obs: Seq<u64>) -> Seq<(Set<Seq<char>>, nat, nat)> {
    label_groups(column_fields(t, "dup_group"@), column_fields(t, "platform_code"@), obs)
}

/// The totals of profiles and of observations over a list of groups.
pub open spec fn group_profiles(gs: Seq<DupGroup>) -> nat
    decreases gs.len(),
{
    if gs.len() == 0 {
        0
    } else {
        group_profiles(gs.drop_last()) + gs.last().profiles as nat
    }
}

/// The total of observations over a list of groups.
pub open spec fn group_obs(gs: Seq<DupGroup>) -> nat
    decreases gs.len(),
{
    if gs.len() == 0 {
        0
    } else {
        group_obs(gs.drop_last()) + gs.last().obs as nat
    }
}

proof fn lemma_group_profiles_update(gs: Seq<DupGroup>, i: int, g: DupGroup)
    requires
        0 <= i < gs.len(),
    ensures
        group_profiles(gs.update(i, g)) == group_profiles(gs) - gs[i].profiles + g.profiles,
        group_obs(gs.update(i, g)) == group_obs(gs) - gs[i].obs + g.obs,
    decreases gs.len(),
{
    let u = gs.update(i, g);
    if i == gs.len() - 1 {
        assert(u.drop_last() =~= gs.drop_last());
    } else {
        assert(u.drop_last() =~= gs.drop_last().update(i, g));
        lemma_group_profiles_update(gs.drop_last(), i, g);
    }
}

proof fn lemma_label_obs_le(ls: Seq<Seq<char>>, obs: Seq<u64>, l: Seq<char>)
    requires
        ls.len() == obs.len(),
    ensures
        label_obs(ls, obs, l) <= total(obs),
    decreases ls.len(),
{
    if ls.len() > 0 {
        lemma_label_obs_le(ls.drop_last(), obs.drop_last(), l);
    }
}

proof fn lemma_total_prefix(s: Seq<u64>, k: int)
    requires
        0 <= k <= s.len(),
    ensures
        total(s.take(k)) <= total(s),
    decreases s.len() - k,
{
    if k < s.len() {
        lemma_total_prefix(s, k + 1);
        assert(s.take(k + 1).drop_last() =~= s.take(k));
    } else {
        assert(s.take(k) =~= s);
    }
}

/// A label is among the first labels exactly when some record has it.
proof fn lemma_first_labels_contains(ls: Seq<Seq<char>>, l: Seq<char>)
    ensures
        first_labels(ls).contains(l) <==> exists|r: int| 0 <= r < ls.len() && ls[r] == l,
        first_labels(ls).no_duplicates(),
    decreases ls.len(),
{
    if ls.len() > 0 {
        let d = ls.drop_last();
        let p = first_labels(d);
        let x = ls.last();
        lemma_first_labels_contains(d, l);
        lemma_first_labels_contains(d, x);
        if !p.contains(x) {
            assert(first_labels(ls) == p.push(x));
            assert(first_labels(ls)[p.len() as int] == x);
            assert forall|a: int, b: int| 0 <= a < b < first_labels(ls).len() implies first_labels(ls)[a] != first_labels(ls)[b] by {
                if b == p.len() {
                    assert(first_labels(ls)[a] == p[a]);
                }
            }
        }
        if exists|r: int| 0 <= r < ls.len() && ls[r] == l {
            let r = choose|r: int| 0 <= r < ls.len() && ls[r] == l;
            if r < d.len() {
                assert(d[r] == l);
                let i = choose|i: int| 0 <= i < p.len() && p[i] == l;
                if !p.contains(x) {
                    assert(first_labels(ls)[i] == l);
                }
            } else {
                assert(x == l);
                if p.contains(x) {
                } else {
                    assert(first_labels(ls)[p.len() as int] == l);
                }
            }
        }
        if first_labels(ls).contains(l) {
            if p.contains(l) {
                let r = choose|r: int| 0 <= r < d.len() && d[r] == l;
                assert(ls[r] == l);
            } else {
                assert(ls[ls.len() - 1] == l);
            }
        }
    }
}

/// A label that no record has counts nothing.
proof fn lemma_label_absent(ls: Seq<Seq<char>>, obs: Seq<u64>, l: Seq<char>)
    requires
        forall|r: int| 0 <= r < ls.len() ==> ls[r] != l,
    ensures
        label_count(ls, l) == 0,
        label_obs(ls, obs, l) == 0,
    decreases ls.len(),
{
    if ls.len() > 0 && obs.len() > 0 {
        let d = ls.drop_last();
        assert forall|r: int| 0 <= r < d.len() implies d[r] != l by {
            assert(d[r] == ls[r]);
        }
        lemma_label_absent(d, obs.drop_last(), l);
        assert(ls[ls.len() - 1] != l);
    } else if ls.len() > 0 {
        let d = ls.drop_last();
        assert forall|r: int| 0 <= r < d.len() implies d[r] != l by {
            assert(d[r] == ls[r]);
        }
        lemma_label_absent(d, obs, l);
        assert(ls[ls.len() - 1] != l);
    }
}

/// Taking one more record into account.
proof fn lemma_label_step(ls: Seq<Seq<char>>, ps: Seq<Seq<char>>, obs: Seq<u64>, r: int, l: Seq<char>)
    requires
        ls.len() == ps.len(),
        ls.len() == obs.len(),
        0 <= r < ls.len(),
    ensures
        label_count(ls.take(r + 1), l) == label_count(ls.take(r), l) + if ls[r] == l {
            1nat
        } else {
            0nat
        },
        label_obs(ls.take(r + 1), obs.take(r + 1), l) == label_obs(ls.take(r), obs.take(r), l) + if ls[r] == l {
            obs[r] as nat
        } else {
            0nat
        },
        label_platforms(ls.take(r + 1), ps.take(r + 1), l) == if ls[r] == l {
            label_platforms(ls.take(r), ps.take(r), l).insert(ps[r])
        } else {
            label_platforms(ls.take(r), ps.take(r), l)
        },
        label_count(ls.take(r + 1), l) <= r + 1,
{
    let l0 = ls.take(r);
    let l1 = ls.take(r + 1);
    let p0 = ps.take(r);
    let p1 = ps.take(r + 1);
    assert(l1.drop_last() =~= l0);
    assert(obs.take(r + 1).drop_last() =~= obs.take(r));
    lemma_label_count_le(l1, l);
    let a = label_platforms(l1, p1, l);
    let b = if ls[r] == l {
        label_platforms(l0, p0, l).insert(ps[r])
    } else {
        label_platforms(l0, p0, l)
    };
    assert forall|p: Seq<char>| a.contains(p) <==> b.contains(p) by {
        if a.contains(p) {
            let k = choose|k: int| 0 <= k < l1.len() && l1[k] == l && p1[k] == p;
            if k < r {
                assert(l0[k] == l1[k] && p0[k] == p1[k]);
            }
        }
        if label_platforms(l0, p0, l).contains(p) {
            let k = choose|k: int| 0 <= k < l0.len() && l0[k] == l && p0[k] == p;
            assert(l1[k] == l0[k] && p1[k] == p0[k]);
        }
        if ls[r] == l && p == ps[r] {
            assert(l1[r] == l && p1[r] == p);
        }
    }
    assert(a =~= b);
}

proof fn lemma_label_count_le(ls: Seq<Seq<char>>, l: Seq<char>)
    ensures
        label_count(ls, l) <= ls.len(),
    decreases ls.len(),
{
    if ls.len() > 0 {
        lemma_label_count_le(ls.drop_last(), l);
    }
}

/// Whether `v` holds a string equal to `s`.
fn contains_string(v: &Vec<String>, s: &String) -> (r: bool)
    ensures
        r == str_views(v@).contains(s@),
{
    let mut i: usize = 0;
    while i < v.len()
        invariant
            i <= v.len(),
            forall|j: int| 0 <= j < i ==> v@[j]@ != s@,
        decreases v.len() - i,
    {
        if v[i] == *s {
            proof {
                assert(str_views(v@)[i as int] == s@);
            }
            return true;
        }
        i += 1;
    }
    proof {
        if str_views(v@).contains(s@) {
            let j = choose|j: int| 0 <= j < v.len() && str_views(v@)[j] == s@;
            assert(v@[j]@ == s@);
        }
    }
    false
}

/// Field `col` of a record, empty when the column or the field is missing.
fn field_of(row: &Vec<String>, col: Option<usize>) -> (r: String)
    ensures
        r@ == field_at(str_views(row@), match col {
            Some(i) => Some(i as int),
            None => None,
        }),
{
    match col {
        Some(i) => if i < row.len() {
            row[i].clone()
        } else {
            String::new()
        },
        None => String::new(),
    }
}

/// Aggregate the rows of a duplicates file (one per duplicate profile) into
/// their groups, in order of the groups' first rows. `obs[r]` is the number
/// of observations of row `r`. Rows are grouped by their `dup_group` field,
/// and a group's platforms are the `platform_code` fields of its rows (a
/// missing column or field reads as empty).
#[verifier::rlimit(40)]
pub fn dup_groups(t: &Tsv, obs: &Vec<u64>) -> (gs: Vec<DupGroup>)
    requires
        obs.len() == t.rows.len(),
        total(obs@) <= u64::MAX,
    ensures
        gs.len() == first_labels(column_fields(*t, "dup_group"@)).len(),
        forall|g: int|
            0 <= g < gs.len() ==> aggregates(
                #[trigger] gs@[g],
                column_fields(*t, "dup_group"@),
                column_fields(*t, "platform_code"@),
                obs@,
                first_labels(column_fields(*t, "dup_group"@))[g],
            ),
        group_profiles(gs@) == t.rows.len(),
        group_obs(gs@) == total(obs@),
        group_views(gs@) == file_groups(*t, obs@),
        forall|g: int| 0 <= g < gs.len() ==> str_views((#[trigger] gs@[g]).platforms@).no_duplicates(),
{
    let ghost ls = column_fields(*t, "dup_group"@);
    let ghost ps = column_fields(*t, "platform_code"@);
    let gi = t.col("dup_group");
    let pi = t.col("platform_code");
    let mut index: StringHashMap<usize> = StringHashMap::new();
    let mut gs: Vec<DupGroup> = Vec::new();
    let n = t.rows.len();
    let mut r: usize = 0;
    while r < n
        invariant
            n == t.rows.len(),
            n == obs.len(),
            total(obs@) <= u64::MAX,
            ls == column_fields(*t, "dup_group"@),
            ps == column_fields(*t, "platform_code"@),
            gi matches Some(i) ==> column_of(str_views(t.header@), "dup_group"@) == Some(i as int),
            gi is None ==> column_of(str_views(t.header@), "dup_group"@) is None,
            pi matches Some(i) ==> column_of(str_views(t.header@), "platform_code"@) == Some(i as int),
            pi is None ==> column_of(str_views(t.header@), "platform_code"@) is None,
            r <= n,
            gs.len() == first_labels(ls.take(r as int)).len(),
            forall|l: Seq<char>| #[trigger] index@.contains_key(l) <==> first_labels(ls.take(r as int)).contains(l),
            forall|g: int| 0 <= g < gs.len() ==> #[trigger] index@[first_labels(ls.take(r as int))[g]] == g,
            first_labels(ls.take(r as int)).no_duplicates(),
            forall|g: int|
                0 <= g < gs.len() ==> aggregates(
                    #[trigger] gs@[g],
                    ls.take(r as int),
                    ps.take(r as int),
                    obs@.take(r as int),
                    first_labels(ls.take(r as int))[g],
                ),
            group_profiles(gs@) == r,
            group_obs(gs@) == total(obs@.take(r as int)),
        decreases n - r,
    {
        let row = &t.rows[r];
        let label = field_of(row, gi);
        let plat = field_of(row, pi);
        let ob = obs[r];
        let ghost l0 = ls.take(r as int);
        let ghost p0 = ps.take(r as int);
        let ghost o0 = obs@.take(r as int);
        let ghost l1 = ls.take(r as int + 1);
        let ghost p1 = ps.take(r as int + 1);
        let ghost o1 = obs@.take(r as int + 1);
        let ghost f0 = first_labels(l0);
        let ghost old_gs = gs@;
        proof {
            assert(row_views(t.rows@)[r as int] == str_views(row@));
            assert(label@ == ls[r as int]);
            assert(plat@ == ps[r as int]);
            assert(l1.drop_last() =~= l0);
            assert(o1.drop_last() =~= o0);
            assert(l1.last() == label@);
            assert(o1.last() == ob);
            assert(total(o1) == total(o0) + ob);
            lemma_total_prefix(obs@, r as int + 1);
            lemma_label_obs_le(l1, o1, label@);
            lemma_label_step(ls, ps, obs@, r as int, label@);
            lemma_first_labels_contains(l1, label@);
            assert forall|l: Seq<char>| l != label@ implies label_count(l1, l) == label_count(l0, l)
                && label_obs(l1, o1, l) == label_obs(l0, o0, l)
                && label_platforms(l1, p1, l) == label_platforms(l0, p0, l) by {
                lemma_label_step(ls, ps, obs@, r as int, l);
            }
        }
        match index.get(label.as_str()) {
            Some(gref) => {
                let g = *gref;
                proof {
                    assert(f0.contains(label@));
                    let k = choose|k: int| 0 <= k < f0.len() && f0[k] == label@;
                    assert(index@[f0[k]] == k);
                    assert(g == k);
                    assert(first_labels(l1) == f0);
                    assert(aggregates(gs@[g as int], l0, p0, o0, label@));
                }
                let profiles = gs[g].profiles + 1;
                let obs_g = gs[g].obs + ob;
                let known = contains_string(&gs[g].platforms, &plat);
                let ghost before_plats = str_views(gs@[g as int].platforms@);
                gs[g].profiles = profiles;
                gs[g].obs = obs_g;
                if !known {
                    gs[g].platforms.push(plat);
                    proof {
                        assert(str_views(gs@[g as int].platforms@) =~= before_plats.push(plat@));
                        before_plats.lemma_push_to_set_commute(plat@);
                    }
                } else {
                    proof {
                        assert(before_plats.to_set().insert(plat@) =~= before_plats.to_set());
                    }
                }
                proof {
                    lemma_group_profiles_update(old_gs, g as int, gs@[g as int]);
                    assert(gs@ == old_gs.update(g as int, gs@[g as int]));
                    assert forall|h: int| 0 <= h < gs.len() implies aggregates(
                        #[trigger] gs@[h],
                        l1,
                        p1,
                        o1,
                        first_labels(l1)[h],
                    ) by {
                        if h != g {
                            assert(gs@[h] == old_gs[h]);
                            assert(f0[h] != f0[g as int]);
                        }
                    }
                }
            },
            None => {
                proof {
                    assert(!f0.contains(label@));
                    lemma_first_labels_contains(l0, label@);
                    lemma_label_absent(l0, o0, label@);
                    assert(label_platforms(l0, p0, label@) =~= Set::<Seq<char>>::empty());
                    assert(first_labels(l1) == f0.push(label@));
                }
                let mut plats: Vec<String> = Vec::new();
                plats.push(plat);
                let k = gs.len();
                gs.push(DupGroup { platforms: plats, profiles: 1, obs: ob });
                index.insert(label, k);
                proof {
                    assert(str_views(gs@[k as int].platforms@) =~= seq![plat@]);
                    Seq::<Seq<char>>::empty().lemma_push_to_set_commute(plat@);
                    assert(Seq::<Seq<char>>::empty().push(plat@) =~= seq![plat@]);
                    assert(Seq::<Seq<char>>::empty().to_set() =~= Set::<Seq<char>>::empty());
                    assert(gs@.drop_last() =~= old_gs);
                    assert forall|h: int| 0 <= h < gs.len() implies aggregates(
                        #[trigger] gs@[h],
                        l1,
                        p1,
                        o1,
                        first_labels(l1)[h],
                    ) by {
                        if h < k {
                            assert(gs@[h] == old_gs[h]);
                            assert(f0[h] != label@);
                        }
                    }
                    assert forall|l: Seq<char>| #[trigger] index@.contains_key(l) <==> first_labels(l1).contains(l) by {
                        if l != label@ {
                            if first_labels(l1).contains(l) {
                                let x = choose|x: int| 0 <= x < first_labels(l1).len() && first_labels(l1)[x] == l;
                                assert(f0[x] == l);
                            }
                            if f0.contains(l) {
                                let x = choose|x: int| 0 <= x < f0.len() && f0[x] == l;
                                assert(first_labels(l1)[x] == l);
                            }
                        } else {
                            assert(first_labels(l1)[k as int] == l);
                        }
                    }
                    assert forall|h: int| 0 <= h < gs.len() implies #[trigger] index@[first_labels(l1)[h]] == h by {
                        if h < k {
                            assert(first_labels(l1)[h] == f0[h]);
                            assert(f0[h] != label@);
                        }
                    }
                }
            },
        }
        r += 1;
    }
    proof {
        assert(ls.take(n as int) =~= ls);
        assert(ps.take(n as int) =~= ps);
        assert(obs@.take(n as int) =~= obs@);
        assert(group_views(gs@) =~= file_groups(*t, obs@));
    }
    gs
}


/// Totals over the duplicate groups of one kind.
#[derive(Debug)]
pub struct DupStats {
    pub groups: u64,
    pub profiles: u64,
    pub obs: u64,
    /// The distinct platforms of those groups.
    pub platforms: Vec<String>,
}

/// Whether a group spans two or more platforms.
pub open spec fn is_across(g: (Set<Seq<char>>, nat, nat)) -> bool {
    g.0.len() > 1
}

/// The number of groups of the given kind.
pub open spec fn kind_groups(gs: Seq<(Set<Seq<char>>, nat, nat)>, across: bool) -> nat
    decreases gs.len(),
{
    if gs.len() == 0 {
        0
    } else {
        kind_groups(gs.drop_last(), across) + if is_across(gs.last()) == across {
            1nat
        } else {
            0nat
        }
    }
}

/// The profiles of the groups of the given kind.
pub open spec fn kind_profiles(gs: Seq<(Set<Seq<char>>, nat, nat)>, across: bool) -> nat
    decreases gs.len(),
{
    if gs.len() == 0 {
        0
    } else {
        kind_profiles(gs.drop_last(), across) + if is_across(gs.last()) == across {
            gs.last().1
        } else {
            0nat
        }
    }
}

/// The observations of the groups of the given kind.
pub open spec fn kind_obs(gs: Seq<(Set<Seq<char>>, nat, nat)>, across: bool) -> nat
    decreases gs.len(),
{
    if gs.len() == 0 {
        0
    } else {
        kind_obs(gs.drop_last(), across) + if is_across(gs.last()) == across {
            gs.last().2
        } else {
            0nat
        }
    }
}

/// The platforms of the groups of the given kind.
pub open spec fn kind_platforms(gs: Seq<(Set<Seq<char>>, nat, nat)>, across: bool) -> Set<Seq<char>> {
    Set::new(|p: Seq<char>| exists|g: int| 0 <= g < gs.len() && is_across(gs[g]) == across && gs[g].0.contains(p))
}

/// `s` totals the groups of the given kind.
pub open spec fn totals_kind(s: DupStats, gs: Seq<(Set<Seq<char>>, nat, nat)>, across: bool) -> bool {
    &&& s.groups == kind_groups(gs, across)
    &&& s.profiles == kind_profiles(gs, across)
    &&& s.obs == kind_obs(gs, across)
    &&& s.platforms.len() == kind_platforms(gs, across).len()
    &&& str_views(s.platforms@).no_duplicates()
    &&& str_views(s.platforms@).to_set() == kind_platforms(gs, across)
}

/// The totals of profiles and observations over group views.
pub open spec fn view_profiles(gs: Seq<(Set<Seq<char>>, nat, nat)>) -> nat
    decreases gs.len(),
{
    if gs.len() == 0 {
        0
    } else {
        view_profiles(gs.drop_last()) + gs.last().1
    }
}

/// The total of observations over group views.
pub open spec fn view_obs(gs: Seq<(Set<Seq<char>>, nat, nat)>) -> nat
    decreases gs.len(),
{
    if gs.len() == 0 {
        0
    } else {
        view_obs(gs.drop_last()) + gs.last().2
    }
}

proof fn lemma_views_total(gs: Seq<DupGroup>)
    ensures
        view_profiles(group_views(gs)) == group_profiles(gs),
        view_obs(group_views(gs)) == group_obs(gs),
    decreases gs.len(),
{
    if gs.len() > 0 {
        assert(group_views(gs).drop_last() =~= group_views(gs.drop_last()));
        lemma_views_total(gs.drop_last());
    }
}

proof fn lemma_kind_le(gs: Seq<(Set<Seq<char>>, nat, nat)>, across: bool)
    ensures
        kind_groups(gs, across) <= gs.len(),
        kind_profiles(gs, across) <= view_profiles(gs),
        kind_obs(gs, across) <= view_obs(gs),
    decreases gs.len(),
{
    if gs.len() > 0 {
        lemma_kind_le(gs.drop_last(), across);
    }
}

/// The two kinds together hold every profile and every observation.
pub proof fn lemma_kinds_total(gs: Seq<(Set<Seq<char>>, nat, nat)>)
    ensures
        kind_profiles(gs, false) + kind_profiles(gs, true) == view_profiles(gs),
        kind_obs(gs, false) + kind_obs(gs, true) == view_obs(gs),
        kind_groups(gs, false) + kind_groups(gs, true) == gs.len(),
    decreases gs.len(),
{
    if gs.len() > 0 {
        lemma_kinds_total(gs.drop_last());
    }
}

/// Add the platforms of `from` that `to` lacks to `to`.
fn add_platforms(to: &mut Vec<String>, from: &Vec<String>)
    requires
        str_views(old(to)@).no_duplicates(),
    ensures
        str_views(final(to)@).no_duplicates(),
        str_views(final(to)@).to_set() == str_views(old(to)@).to_set().union(str_views(from@).to_set()),
{
    let ghost start = str_views(to@).to_set();
    let mut i: usize = 0;
    while i < from.len()
        invariant
            i <= from.len(),
            str_views(to@).no_duplicates(),
            str_views(to@).to_set() == start.union(str_views(from@).take(i as int).to_set()),
        decreases from.len() - i,
    {
        let p = &from[i];
        let ghost before = str_views(to@);
        proof {
            assert(str_views(from@).take(i as int + 1) =~= str_views(from@).take(i as int).push(p@));
            str_views(from@).take(i as int).lemma_push_to_set_commute(p@);
        }
        if !contains_string(to, p) {
            to.push(p.clone());
            proof {
                assert(str_views(to@) =~= before.push(p@));
                before.lemma_push_to_set_commute(p@);
                assert forall|a: int, b: int| 0 <= a < b < str_views(to@).len() implies str_views(to@)[a] != str_views(to@)[b] by {
                    if b == before.len() {
                        assert(str_views(to@)[a] == before[a]);
                        assert(before.contains(before[a]));
                    } else {
                        assert(str_views(to@)[a] == before[a]);
                        assert(str_views(to@)[b] == before[b]);
                    }
                }
                assert(str_views(to@).to_set() =~= start.union(str_views(from@).take(i as int + 1).to_set()));
            }
        } else {
            proof {
                assert(str_views(to@).to_set() =~= start.union(str_views(from@).take(i as int + 1).to_set()));
            }
        }
        i += 1;
    }
    proof {
        assert(str_views(from@).take(from.len() as int) =~= str_views(from@));
    }
}

/// Totals of no groups.
fn empty_stats() -> (s: DupStats)
    ensures
        s.groups == 0 && s.profiles == 0 && s.obs == 0 && s.platforms.len() == 0,
{
    DupStats { groups: 0, profiles: 0, obs: 0, platforms: Vec::new() }
}

/// Split the duplicate groups into within-platform (a group confined to a
/// single platform) and across-platform (spanning two or more).
pub fn dup_split(gs: &Vec<DupGroup>) -> (r: (DupStats, DupStats))
    requires
        group_profiles(gs@) <= u64::MAX,
        group_obs(gs@) <= u64::MAX,
        forall|g: int| 0 <= g < gs.len() ==> str_views((#[trigger] gs@[g]).platforms@).no_duplicates(),
    ensures
        totals_kind(r.0, group_views(gs@), false),
        totals_kind(r.1, group_views(gs@), true),
{
    let ghost vs = group_views(gs@);
    let mut within = empty_stats();
    let mut across = empty_stats();
    let mut i: usize = 0;
    proof {
        lemma_views_total(gs@);
        assert(vs.take(0) =~= Seq::<(Set<Seq<char>>, nat, nat)>::empty());
        assert(str_views(within.platforms@).to_set() =~= kind_platforms(vs.take(0), false));
        assert(str_views(across.platforms@).to_set() =~= kind_platforms(vs.take(0), true));
    }
    while i < gs.len()
        invariant
            vs == group_views(gs@),
            i <= gs.len(),
            view_profiles(vs) <= u64::MAX,
            view_obs(vs) <= u64::MAX,
            forall|g: int| 0 <= g < gs.len() ==> str_views((#[trigger] gs@[g]).platforms@).no_duplicates(),
            within.groups == kind_groups(vs.take(i as int), false),
            within.profiles == kind_profiles(vs.take(i as int), false),
            within.obs == kind_obs(vs.take(i as int), false),
            str_views(within.platforms@).no_duplicates(),
            str_views(within.platforms@).to_set() == kind_platforms(vs.take(i as int), false),
            across.groups == kind_groups(vs.take(i as int), true),
            across.profiles == kind_profiles(vs.take(i as int), true),
            across.obs == kind_obs(vs.take(i as int), true),
            str_views(across.platforms@).no_duplicates(),
            str_views(across.platforms@).to_set() == kind_platforms(vs.take(i as int), true),
        decreases gs.len() - i,
    {
        let g = &gs[i];
        let ghost t0 = vs.take(i as int);
        let ghost t1 = vs.take(i as int + 1);
        proof {
            assert(t1.drop_last() =~= t0);
            assert(t1.last() == group_view(*g));
            str_views(g.platforms@).unique_seq_to_set();
            lemma_kind_le(t1, false);
            lemma_kind_le(t1, true);
            lemma_views_prefix(vs, i as int + 1);
            let k = is_across(group_view(*g));
            let nk = !k;
            assert forall|p: Seq<char>| #[trigger] kind_platforms(t1, k).contains(p) <==> kind_platforms(t0, k).union(group_view(*g).0).contains(p) by {
                if kind_platforms(t1, k).contains(p) {
                    let h = choose|h: int| 0 <= h < t1.len() && is_across(t1[h]) == k && t1[h].0.contains(p);
                    if h < t0.len() {
                        assert(t0[h] == t1[h]);
                    }
                }
                if kind_platforms(t0, k).contains(p) {
                    let h = choose|h: int| 0 <= h < t0.len() && is_across(t0[h]) == k && t0[h].0.contains(p);
                    assert(t1[h] == t0[h]);
                }
                if group_view(*g).0.contains(p) {
                    assert(t1[i as int] == group_view(*g));
                }
            }
            assert(kind_platforms(t1, k) =~= kind_platforms(t0, k).union(group_view(*g).0));
            assert forall|p: Seq<char>| #[trigger] kind_platforms(t1, nk).contains(p) <==> kind_platforms(t0, nk).contains(p) by {
                if kind_platforms(t1, nk).contains(p) {
                    let h = choose|h: int| 0 <= h < t1.len() && is_across(t1[h]) == nk && t1[h].0.contains(p);
                    if h < t0.len() {
                        assert(t0[h] == t1[h]);
                    }
                }
                if kind_platforms(t0, nk).contains(p) {
                    let h = choose|h: int| 0 <= h < t0.len() && is_across(t0[h]) == nk && t0[h].0.contains(p);
                    assert(t1[h] == t0[h]);
                }
            }
            assert(kind_platforms(t1, nk) =~= kind_platforms(t0, nk));
        }
        if g.platforms.len() <= 1 {
            within.groups = within.groups + 1;
            within.profiles = within.profiles + g.profiles;
            within.obs = within.obs + g.obs;
            add_platforms(&mut within.platforms, &g.platforms);
        } else {
            across.groups = across.groups + 1;
            across.profiles = across.profiles + g.profiles;
            across.obs = across.obs + g.obs;
            add_platforms(&mut across.platforms, &g.platforms);
        }
        i += 1;
    }
    proof {
        assert(vs.take(gs.len() as int) =~= vs);
        str_views(within.platforms@).unique_seq_to_set();
        str_views(across.platforms@).unique_seq_to_set();
    }
    (within, across)
}

proof fn lemma_views_prefix(gs: Seq<(Set<Seq<char>>, nat, nat)>, k: int)
    requires
        0 <= k <= gs.len(),
    ensures
        view_profiles(gs.take(k)) <= view_profiles(gs),
        view_obs(gs.take(k)) <= view_obs(gs),
    decreases gs.len() - k,
{
    if k < gs.len() {
        lemma_views_prefix(gs, k + 1);
        assert(gs.take(k + 1).drop_last() =~= gs.take(k));
    } else {
        assert(gs.take(k) =~= gs);
    }
}

/// The table of one kind of duplicates.
pub open spec fn dup_table_view(
    title: Seq<char>,
    desc: Seq<char>,
    groups: nat,
    profiles: nat,
    platforms: nat,
    obs: nat,
    total_profiles: nat,
    total_obs: nat,
) -> TableView<CellView> {
    TableView {
        title: Some(title),
        desc,
        headers: seq!["Metric"@, "Count"@, "% of duplicates"@],
        rows: seq![
            seq![text("Duplicate groups"@), int_cell(groups as u64), text(Seq::empty())],
            seq![text("Duplicate profiles"@), int_cell(profiles as u64), CellView::Pct(profiles as u64, total_profiles as u64)],
            seq![text("Platforms"@), int_cell(platforms as u64), text(Seq::empty())],
            seq![text("Observations"@), int_cell(obs as u64), CellView::Pct(obs as u64, total_obs as u64)],
        ],
    }
}

/// The table of one kind of duplicates: groups, profiles (and their share of
/// all duplicate profiles), platforms, observations (and their share).
pub fn dup_table(title: &str, desc: &str, s: &DupStats, total_profiles: u64, total_obs: u64) -> (t: Table<Cell>)
    ensures
        t@ == dup_table_view(
            title@,
            desc@,
            s.groups as nat,
            s.profiles as nat,
            s.platforms.len() as nat,
            s.obs as nat,
            total_profiles as nat,
            total_obs as nat,
        ),
{
    let headers = strings_of(&["Metric", "Count", "% of duplicates"]);
    let n_plat = s.platforms.len() as u64;
    let rows = vec![
        vec![text_cell("Duplicate groups"), int_text(s.groups), Cell::Text(String::new())],
        vec![text_cell("Duplicate profiles"), int_text(s.profiles), Cell::Pct { n: s.profiles, base: total_profiles }],
        vec![text_cell("Platforms"), int_text(n_plat), Cell::Text(String::new())],
        vec![text_cell("Observations"), int_text(s.obs), Cell::Pct { n: s.obs, base: total_obs }],
    ];
    let t = Table { title: Some(string_of(title)), desc: string_of(desc), headers, rows };
    proof {
        let v = dup_table_view(
            title@,
            desc@,
            s.groups as nat,
            s.profiles as nat,
            s.platforms.len() as nat,
            s.obs as nat,
            total_profiles as nat,
            total_obs as nat,
        );
        assert(t@.headers =~= v.headers);
        assert(t@.rows[0] =~= v.rows[0]);
        assert(t@.rows[1] =~= v.rows[1]);
        assert(t@.rows[2] =~= v.rows[2]);
        assert(t@.rows[3] =~= v.rows[3]);
        assert(t@.rows =~= v.rows);
        assert(t@ =~= v);
    }
    t
}

/// The size bin of a group: its profile count, with every count above the
/// cap in one bin.
pub open spec fn size_bin(profiles: nat) -> nat {
    if profiles > GROUP_SIZE_CAP {
        (GROUP_SIZE_CAP + 1) as nat
    } else {
        profiles
    }
}

/// The number of groups in bin `b`.
pub open spec fn bin_groups(gs: Seq<(Set<Seq<char>>, nat, nat)>, b: nat) -> nat
    decreases gs.len(),
{
    if gs.len() == 0 {
        0
    } else {
        bin_groups(gs.drop_last(), b) + if size_bin(gs.last().1) == b {
            1nat
        } else {
            0nat
        }
    }
}

/// The profiles of the groups in bin `b`.
pub open spec fn bin_profiles(gs: Seq<(Set<Seq<char>>, nat, nat)>, b: nat) -> nat
    decreases gs.len(),
{
    if gs.len() == 0 {
        0
    } else {
        bin_profiles(gs.drop_last(), b) + if size_bin(gs.last().1) == b {
            gs.last().1
        } else {
            0nat
        }
    }
}

/// The label of bin `b`: its size, or `11+` for the collapsed bin.
pub open spec fn bin_label(b: nat) -> Seq<char> {
    if b > GROUP_SIZE_CAP {
        decimal((GROUP_SIZE_CAP + 1) as nat) + seq!['+']
    } else {
        decimal(b)
    }
}

/// The rows of the bins up to `b` that hold a group, in ascending order.
pub open spec fn size_rows(gs: Seq<(Set<Seq<char>>, nat, nat)>, total_profiles: nat, b: int) -> Seq<Seq<CellView>>
    decreases b + 1,
{
    if b < 0 {
        Seq::empty()
    } else {
        let prev = size_rows(gs, total_profiles, b - 1);
        if bin_groups(gs, b as nat) > 0 {
            prev.push(
                seq![
                    text(bin_label(b as nat)),
                    int_cell(bin_groups(gs, b as nat) as u64),
                    int_cell(bin_profiles(gs, b as nat) as u64),
                    CellView::Pct(bin_profiles(gs, b as nat) as u64, total_profiles as u64),
                ],
            )
        } else {
            prev
        }
    }
}

/// The group-size table.
pub open spec fn group_size_view(gs: Seq<(Set<Seq<char>>, nat, nat)>, total_profiles: nat) -> TableView<CellView> {
    TableView {
        title: Some("Duplicate group sizes"@),
        desc: DESC_GROUP_SIZES@,
        headers: seq!["Profiles per group"@, "Groups"@, "Profiles"@, "% of duplicates"@],
        rows: size_rows(gs, total_profiles, (GROUP_SIZE_CAP + 1) as int),
    }
}

proof fn lemma_bins_le(gs: Seq<(Set<Seq<char>>, nat, nat)>, b: nat)
    ensures
        bin_groups(gs, b) <= gs.len(),
        bin_profiles(gs, b) <= view_profiles(gs),
    decreases gs.len(),
{
    if gs.len() > 0 {
        lemma_bins_le(gs.drop_last(), b);
    }
}

/// How many profiles each duplicate group holds: one row per size that
/// occurs, ascending, with every size above the cap collapsed into a final
/// `11+` row.
pub fn group_size_table(gs: &Vec<DupGroup>, total_profiles: u64) -> (t: Table<Cell>)
    requires
        group_profiles(gs@) <= u64::MAX,
    ensures
        t@ == group_size_view(group_views(gs@), total_profiles as nat),
{
    let ghost vs = group_views(gs@);
    proof {
        lemma_views_total(gs@);
    }
    let nb: usize = (GROUP_SIZE_CAP + 2) as usize;
    let mut n_groups: Vec<u64> = vec![0u64; nb];
    let mut n_profiles: Vec<u64> = vec![0u64; nb];
    let mut i: usize = 0;
    proof {
        assert forall|x: int| 0 <= x < nb implies #[trigger] n_groups@[x] == bin_groups(vs.take(0), x as nat)
            && n_profiles@[x] == bin_profiles(vs.take(0), x as nat) by {
            assert(vs.take(0).len() == 0);
        }
    }
    while i < gs.len()
        invariant
            vs == group_views(gs@),
            nb == GROUP_SIZE_CAP + 2,
            n_groups.len() == nb,
            n_profiles.len() == nb,
            i <= gs.len(),
            view_profiles(vs) <= u64::MAX,
            forall|x: int| 0 <= x < nb ==> #[trigger] n_groups@[x] == bin_groups(vs.take(i as int), x as nat)
                && n_profiles@[x] == bin_profiles(vs.take(i as int), x as nat),
        decreases gs.len() - i,
    {
        let p = gs[i].profiles;
        let bin: usize = if p > GROUP_SIZE_CAP { (GROUP_SIZE_CAP + 1) as usize } else { p as usize };
        let ghost t0 = vs.take(i as int);
        let ghost t1 = vs.take(i as int + 1);
        proof {
            assert(t1.drop_last() =~= t0);
            assert(t1.last() == group_view(gs@[i as int]));
            lemma_bins_le(t1, bin as nat);
            lemma_views_prefix(vs, i as int + 1);
            assert(bin as nat == size_bin(p as nat));
        }
        let g = n_groups[bin] + 1;
        let q = n_profiles[bin] + p;
        let ghost og = n_groups@;
        let ghost op = n_profiles@;
        assert(forall|x: int| 0 <= x < nb ==> #[trigger] og[x] == bin_groups(t0, x as nat) && op[x] == bin_profiles(t0, x as nat));
        n_groups.set(bin, g);
        n_profiles.set(bin, q);
        proof {
            assert forall|x: int| 0 <= x < nb implies #[trigger] n_groups@[x] == bin_groups(t1, x as nat)
                && n_profiles@[x] == bin_profiles(t1, x as nat) by {
                assert(bin_groups(t1, x as nat) == bin_groups(t0, x as nat) + if size_bin(p as nat) == x as nat {
                    1nat
                } else {
                    0nat
                });
                assert(bin_profiles(t1, x as nat) == bin_profiles(t0, x as nat) + if size_bin(p as nat) == x as nat {
                    p as nat
                } else {
                    0nat
                });
                if x != bin {
                    assert(n_groups@[x] == og[x] && n_profiles@[x] == op[x]);
                }
            }
        }
        i += 1;
    }
    proof {
        assert(vs.take(gs.len() as int) =~= vs);
    }
    let mut rows: Vec<Vec<Cell>> = Vec::new();
    let mut b: usize = 0;
    while b < nb
        invariant
            nb == GROUP_SIZE_CAP + 2,
            n_groups.len() == nb,
            n_profiles.len() == nb,
            b <= nb,
            forall|x: int| 0 <= x < nb ==> #[trigger] n_groups@[x] == bin_groups(vs, x as nat)
                && n_profiles@[x] == bin_profiles(vs, x as nat),
            rows@.map_values(|r: Vec<Cell>| cell_views(r@)) == size_rows(vs, total_profiles as nat, b - 1),
        decreases nb - b,
    {
        let ghost before = rows@.map_values(|r: Vec<Cell>| cell_views(r@));
        if n_groups[b] > 0 {
            let label = if b as u64 > GROUP_SIZE_CAP {
                let mut l = u64_to_decimal(GROUP_SIZE_CAP + 1);
                push_char(&mut l, '+');
                l
            } else {
                u64_to_decimal(b as u64)
            };
            let row = vec![
                Cell::Text(label),
                int_text(n_groups[b]),
                int_text(n_profiles[b]),
                Cell::Pct { n: n_profiles[b], base: total_profiles },
            ];
            rows.push(row);
            proof {
                let bb = b as nat;
                assert(bin_groups(vs, bb) > 0);
                assert(size_rows(vs, total_profiles as nat, b as int) == before.push(
                    seq![
                        text(bin_label(bb)),
                        int_cell(bin_groups(vs, bb) as u64),
                        int_cell(bin_profiles(vs, bb) as u64),
                        CellView::Pct(bin_profiles(vs, bb) as u64, total_profiles),
                    ],
                ));
                assert(label@ == bin_label(bb));
                assert(cell_views(row@) =~= size_rows(vs, total_profiles as nat, b as int).last());
                assert(rows@.map_values(|r: Vec<Cell>| cell_views(r@)) =~= before.push(cell_views(row@)));
            }
        }
        b += 1;
    }
    let t = Table {
        title: Some(string_of("Duplicate group sizes")),
        desc: string_of(DESC_GROUP_SIZES),
        headers: strings_of(&["Profiles per group", "Groups", "Profiles", "% of duplicates"]),
        rows,
    };
    proof {
        let v = group_size_view(vs, total_profiles as nat);
        assert(t@.headers =~= v.headers);
        assert(t@ =~= v);
    }
    t
}

// ── File coverage ───────────────────────────────────────────────────────────

/// Whether `c` is white space, as `char::is_whitespace` has it (the Unicode
/// `White_Space` property).
pub open spec fn is_ws(c: char) -> bool {
    ('\u{9}' <= c <= '\u{d}') || c == ' ' || c == '\u{85}' || c == '\u{a0}' || c == '\u{1680}'
        || ('\u{2000}' <= c <= '\u{200a}') || c == '\u{2028}' || c == '\u{2029}' || c == '\u{202f}'
        || c == '\u{205f}' || c == '\u{3000}'
}

/// `s` without its leading white space.
pub open spec fn trim_start(s: Seq<char>) -> Seq<char>
    decreases s.len(),
{
    if s.len() > 0 && is_ws(s[0]) {
        trim_start(s.drop_first())
    } else {
        s
    }
}

/// `s` without its trailing white space.
pub open spec fn trim_end(s: Seq<char>) -> Seq<char>
    decreases s.len(),
{
    if s.len() > 0 && is_ws(s.last()) {
        trim_end(s.drop_last())
    } else {
        s
    }
}

/// `s` without leading and trailing white space, as `str::trim` gives it.
pub open spec fn trim(s: Seq<char>) -> Seq<char> {
    trim_end(trim_start(s))
}

/// Whether `c` is white space.
fn char_is_ws(c: char) -> (r: bool)
    ensures
        r == is_ws(c),
{
    ('\u{9}' <= c && c <= '\u{d}') || c == ' ' || c == '\u{85}' || c == '\u{a0}' || c == '\u{1680}'
        || ('\u{2000}' <= c && c <= '\u{200a}') || c == '\u{2028}' || c == '\u{2029}' || c == '\u{202f}'
        || c == '\u{205f}' || c == '\u{3000}'
}

/// The bounds of `cs[lo..hi]` without its leading and trailing white space.
fn trim_range(cs: &Vec<char>, lo: usize, hi: usize) -> (r: (usize, usize))
    requires
        lo <= hi <= cs.len(),
    ensures
        lo <= r.0 <= r.1 <= hi,
        cs@.subrange(r.0 as int, r.1 as int) == trim(cs@.subrange(lo as int, hi as int)),
{
    let mut a = lo;
    while a < hi && char_is_ws(cs[a])
        invariant
            lo <= a <= hi <= cs.len(),
            trim_start(cs@.subrange(lo as int, hi as int)) == trim_start(cs@.subrange(a as int, hi as int)),
        decreases hi - a,
    {
        proof {
            assert(cs@.subrange(a as int, hi as int).drop_first() =~= cs@.subrange(a as int + 1, hi as int));
        }
        a += 1;
    }
    let mut b = hi;
    while b > a && char_is_ws(cs[b - 1])
        invariant
            lo <= a <= b <= hi <= cs.len(),
            trim_end(cs@.subrange(a as int, hi as int)) == trim_end(cs@.subrange(a as int, b as int)),
        decreases b - a,
    {
        proof {
            assert(cs@.subrange(a as int, b as int).drop_last() =~= cs@.subrange(a as int, b as int - 1));
        }
        b -= 1;
    }
    proof {
        let t = cs@.subrange(a as int, b as int);
        let u = cs@.subrange(a as int, hi as int);
        assert(trim_start(u) == u);
        assert(trim_end(t) == t);
    }
    (a, b)
}

/// The extra parameters named in the `extra_params` field of the records: the
/// non-empty trimmed pieces between `;` separators.
pub open spec fn extras_set(t: Tsv) -> Set<Seq<char>> {
    let rows = row_views(t.rows@);
    Set::new(|x: Seq<char>| x.len() > 0 && exists|r: int, i: int, k: int|
        column_of(str_views(t.header@), "extra_params"@) == Some(i) && 0 <= r < rows.len() && 0 <= i
            < rows[r].len() && 0 <= k < split_on(rows[r][i], ';').len() && #[trigger] trim(
            split_on(rows[r][i], ';')[k],
        ) == x)
}

/// `l` is in strictly ascending order.
pub open spec fn strictly_sorted(l: Seq<Seq<char>>) -> bool {
    forall|a: int, b: int| 0 <= a < b < l.len() ==> seq_lt(#[trigger] l[a], #[trigger] l[b])
}

/// The extra parameters in ascending order.
pub open spec fn sorted_extras(t: Tsv) -> Seq<Seq<char>> {
    choose|l: Seq<Seq<char>>| strictly_sorted(l) && l.to_set() == extras_set(t)
}

/// The text of the extra parameters: in ascending order separated by `, `,
/// or `none` when there are none.
#[verifier::opaque]
pub open spec fn extras_text(t: Tsv) -> Seq<char> {
    if sorted_extras(t).len() == 0 {
        "none"@
    } else {
        joined(sorted_extras(t), ", "@)
    }
}

/// Two strictly ascending lists of the same strings are equal.
pub proof fn lemma_sorted_unique(a: Seq<Seq<char>>, b: Seq<Seq<char>>)
    requires
        strictly_sorted(a),
        strictly_sorted(b),
        a.to_set() == b.to_set(),
    ensures
        a == b,
    decreases a.len(),
{
    if a.len() == 0 {
        if b.len() > 0 {
            assert(b.to_set().contains(b[0]));
        }
        assert(a =~= b);
    } else {
        assert(a.to_set().contains(a[0]));
        assert(b.len() > 0);
        assert(b.to_set().contains(b[0]));
        let j = choose|j: int| 0 <= j < a.len() && a[j] == b[0];
        let k = choose|k: int| 0 <= k < b.len() && b[k] == a[0];
        if j > 0 && k > 0 {
            assert(seq_lt(a[0], a[j]));
            assert(seq_lt(b[0], b[k]));
            lemma_seq_lt_order(a[0], b[0], a[0]);
        }
        if j == 0 {
            assert(a[0] == b[0]);
        } else {
            assert(b[0] == a[0]);
        }
        let a1 = a.drop_first();
        let b1 = b.drop_first();
        assert forall|x: Seq<char>| a1.to_set().contains(x) <==> b1.to_set().contains(x) by {
            if a1.to_set().contains(x) {
                let i = choose|i: int| 0 <= i < a1.len() && a1[i] == x;
                assert(a[i + 1] == x);
                assert(seq_lt(a[0], a[i + 1]));
                lemma_seq_lt_order(x, x, x);
                assert(a.to_set().contains(x));
                let m = choose|m: int| 0 <= m < b.len() && b[m] == x;
                assert(m != 0);
                assert(b1[m - 1] == x);
            }
            if b1.to_set().contains(x) {
                let i = choose|i: int| 0 <= i < b1.len() && b1[i] == x;
                assert(b[i + 1] == x);
                assert(seq_lt(b[0], b[i + 1]));
                lemma_seq_lt_order(x, x, x);
                assert(b.to_set().contains(x));
                let m = choose|m: int| 0 <= m < a.len() && a[m] == x;
                assert(m != 0);
                assert(a1[m - 1] == x);
            }
        }
        assert(a1.to_set() =~= b1.to_set());
        assert forall|x: int, y: int| 0 <= x < y < a1.len() implies seq_lt(#[trigger] a1[x], #[trigger] a1[y]) by {
            assert(a1[x] == a[x + 1] && a1[y] == a[y + 1]);
        }
        assert forall|x: int, y: int| 0 <= x < y < b1.len() implies seq_lt(#[trigger] b1[x], #[trigger] b1[y]) by {
            assert(b1[x] == b[x + 1] && b1[y] == b[y + 1]);
        }
        lemma_sorted_unique(a1, b1);
        assert(a.len() == b.len());
        assert forall|i: int| 0 <= i < a.len() implies a[i] == b[i] by {
            if i > 0 {
                assert(a[i] == a1[i - 1]);
                assert(b[i] == b1[i - 1]);
            }
        }
        assert(a =~= b);
    }
}

/// A string holding the characters of `v`.
fn string_of_chars(v: &Vec<char>) -> (r: String)
    ensures
        r@ == v@,
{
    let mut r = String::new();
    let mut i: usize = 0;
    while i < v.len()
        invariant
            i <= v.len(),
            r@ == v@.take(i as int),
        decreases v.len() - i,
    {
        push_char(&mut r, v[i]);
        proof {
            assert(r@ =~= v@.take(i as int + 1));
        }
        i += 1;
    }
    proof {
        assert(v@.take(v.len() as int) =~= v@);
    }
    r
}


/// The views of a list of character vectors.
pub open spec fn char_views(v: Seq<Vec<char>>) -> Seq<Seq<char>> {
    v.map_values(|c: Vec<char>| c@)
}

/// The non-empty trimmed pieces of `cell` between `;` separators.
pub open spec fn cell_extras(cell: Seq<char>) -> Set<Seq<char>> {
    Set::new(|x: Seq<char>| x.len() > 0 && exists|k: int| 0 <= k < split_on(cell, ';').len()
        && #[trigger] trim(split_on(cell, ';')[k]) == x)
}

/// The extra parameters of the records below `r`, field `i` of each.
pub open spec fn rows_extras(rows: Seq<Seq<Seq<char>>>, i: int, r: int) -> Set<Seq<char>> {
    Set::new(|x: Seq<char>| x.len() > 0 && exists|q: int, k: int| 0 <= q < r && 0 <= i < rows[q].len()
        && 0 <= k < split_on(rows[q][i], ';').len() && #[trigger] trim(split_on(rows[q][i], ';')[k]) == x)
}

/// Whether `items` holds `item`.
fn contains_chars(items: &Vec<Vec<char>>, item: &Vec<char>) -> (r: bool)
    ensures
        r == char_views(items@).contains(item@),
{
    let mut i: usize = 0;
    while i < items.len()
        invariant
            i <= items.len(),
            forall|j: int| 0 <= j < i ==> items@[j]@ != item@,
        decreases items.len() - i,
    {
        if chars_equal(&items[i], item) {
            proof {
                assert(char_views(items@)[i as int] == item@);
            }
            return true;
        }
        i += 1;
    }
    proof {
        if char_views(items@).contains(item@) {
            let j = choose|j: int| 0 <= j < items.len() && char_views(items@)[j] == item@;
            assert(items@[j]@ == item@);
        }
    }
    false
}

/// Whether two character vectors are equal.
fn chars_equal(a: &Vec<char>, b: &Vec<char>) -> (r: bool)
    ensures
        r == (a@ == b@),
{
    if a.len() != b.len() {
        return false;
    }
    let mut i: usize = 0;
    while i < a.len()
        invariant
            a.len() == b.len(),
            i <= a.len(),
            a@.take(i as int) == b@.take(i as int),
        decreases a.len() - i,
    {
        if a[i] != b[i] {
            return false;
        }
        proof {
            assert(a@.take(i as int + 1) =~= a@.take(i as int).push(a@[i as int]));
            assert(b@.take(i as int + 1) =~= b@.take(i as int).push(b@[i as int]));
        }
        i += 1;
    }
    proof {
        assert(a@.take(a.len() as int) =~= a@);
        assert(b@.take(b.len() as int) =~= b@);
    }
    true
}

/// The characters of `cs[a..b]`.
fn chars_range(cs: &Vec<char>, a: usize, b: usize) -> (r: Vec<char>)
    requires
        a <= b <= cs.len(),
    ensures
        r@ == cs@.subrange(a as int, b as int),
{
    let mut r: Vec<char> = Vec::new();
    let mut i = a;
    while i < b
        invariant
            a <= i <= b <= cs.len(),
            r@ == cs@.subrange(a as int, i as int),
        decreases b - i,
    {
        r.push(cs[i]);
        proof {
            assert(r@ =~= cs@.subrange(a as int, i as int + 1));
        }
        i += 1;
    }
    r
}

/// Add to `items` the extra parameters of `cell` that it lacks.
fn add_cell_extras(items: &mut Vec<Vec<char>>, cell: &String)
    requires
        char_views(old(items)@).no_duplicates(),
    ensures
        char_views(final(items)@).no_duplicates(),
        char_views(final(items)@).to_set() == char_views(old(items)@).to_set().union(cell_extras(cell@)),
{
    let cs = chars_of(cell.as_str());
    let pieces = split_range(&cs, 0, cs.len(), ';');
    let ghost sp = split_on(cell@, ';');
    proof {
        assert(cs@.subrange(0, cs.len() as int) =~= cell@);
    }
    let ghost start = char_views(items@).to_set();
    let mut k: usize = 0;
    while k < pieces.len()
        invariant
            sp == split_on(cell@, ';'),
            str_views(pieces@) == sp,
            k <= pieces.len(),
            char_views(items@).no_duplicates(),
            char_views(items@).to_set() == start.union(Set::new(|x: Seq<char>| x.len() > 0 && exists|j: int| 0 <= j < k
                && #[trigger] trim(sp[j]) == x)),
        decreases pieces.len() - k,
    {
        let pc = chars_of(pieces[k].as_str());
        proof {
            assert(str_views(pieces@)[k as int] == pieces@[k as int]@);
        }
        let (a, b) = trim_range(&pc, 0, pc.len());
        proof {
            assert(pc@.subrange(0, pc.len() as int) =~= sp[k as int]);
        }
        let ghost before = char_views(items@);
        let ghost x0 = trim(sp[k as int]);
        if a < b {
            let item = chars_range(&pc, a, b);
            if !contains_chars(&items, &item) {
                items.push(item);
                proof {
                    assert(char_views(items@) =~= before.push(x0));
                    before.lemma_push_to_set_commute(x0);
                    assert forall|p: int, q: int| 0 <= p < q < char_views(items@).len() implies char_views(items@)[p] != char_views(items@)[q] by {
                        if q == before.len() {
                            assert(char_views(items@)[p] == before[p]);
                            assert(before.contains(before[p]));
                        } else {
                            assert(char_views(items@)[p] == before[p]);
                            assert(char_views(items@)[q] == before[q]);
                        }
                    }
                }
            }
        }
        proof {
            let lhs = char_views(items@).to_set();
            let rhs = start.union(Set::new(|x: Seq<char>| x.len() > 0 && exists|j: int| 0 <= j < k + 1 && #[trigger] trim(sp[j]) == x));
            assert forall|x: Seq<char>| lhs.contains(x) <==> rhs.contains(x) by {
                if x.len() > 0 && x == x0 {
                    assert(trim(sp[k as int]) == x);
                }
                if x.len() > 0 && (exists|j: int| 0 <= j < k + 1 && #[trigger] trim(sp[j]) == x) {
                    let j = choose|j: int| 0 <= j < k + 1 && #[trigger] trim(sp[j]) == x;
                    if j < k {
                        assert(exists|j2: int| 0 <= j2 < k && #[trigger] trim(sp[j2]) == x);
                    }
                }
            }
            assert(lhs =~= rhs);
        }
        k += 1;
    }
    proof {
        assert(Set::new(|x: Seq<char>| x.len() > 0 && exists|j: int| 0 <= j < k && #[trigger] trim(sp[j]) == x)
            =~= cell_extras(cell@));
    }
}

/// The extra parameters of a header report: in ascending order separated by
/// `, `, or `none` when there are none.
pub fn extras_of(t: &Tsv) -> (r: String)
    ensures
        r@ == extras_text(*t),
{
    let ghost rows = row_views(t.rows@);
    let mut items: Vec<Vec<char>> = Vec::new();
    match t.col("extra_params") {
        Some(i) => {
            let mut r: usize = 0;
            proof {
                assert(char_views(items@).to_set() =~= rows_extras(rows, i as int, 0));
            }
            while r < t.rows.len()
                invariant
                    rows == row_views(t.rows@),
                    r <= t.rows.len(),
                    char_views(items@).no_duplicates(),
                    char_views(items@).to_set() == rows_extras(rows, i as int, r as int),
                decreases t.rows.len() - r,
            {
                let row = &t.rows[r];
                let ghost before = char_views(items@).to_set();
                proof {
                    assert(rows[r as int] == str_views(row@));
                }
                if i < row.len() {
                    proof {
                        assert(rows[r as int][i as int] == row@[i as int]@);
                    }
                    add_cell_extras(&mut items, &row[i]);
                }
                proof {
                    let lhs = char_views(items@).to_set();
                    let rhs = rows_extras(rows, i as int, r as int + 1);
                    assert forall|x: Seq<char>| lhs.contains(x) <==> rhs.contains(x) by {
                        if rows_extras(rows, i as int, r as int).contains(x) {
                            let (q, k) = choose|q: int, k: int| 0 <= q < r && 0 <= i < rows[q].len()
                                && 0 <= k < split_on(rows[q][i as int], ';').len() && #[trigger] trim(split_on(rows[q][i as int], ';')[k]) == x;
                            assert(rhs.contains(x));
                        }
                        if i < row.len() && cell_extras(rows[r as int][i as int]).contains(x) {
                            let k = choose|k: int| 0 <= k < split_on(rows[r as int][i as int], ';').len()
                                && #[trigger] trim(split_on(rows[r as int][i as int], ';')[k]) == x;
                            assert(rhs.contains(x));
                        }
                        if rhs.contains(x) {
                            let (q, k) = choose|q: int, k: int| 0 <= q < r + 1 && 0 <= i < rows[q].len()
                                && 0 <= k < split_on(rows[q][i as int], ';').len() && #[trigger] trim(split_on(rows[q][i as int], ';')[k]) == x;
                            if q < r {
                                assert(rows_extras(rows, i as int, r as int).contains(x));
                            } else {
                                assert(cell_extras(rows[r as int][i as int]).contains(x));
                            }
                        }
                    }
                    assert(lhs =~= rhs);
                }
                r += 1;
            }
            proof {
                assert(rows_extras(rows, i as int, rows.len() as int) =~= extras_set(*t));
            }
        },
        None => {
            proof {
                assert(char_views(items@).to_set() =~= extras_set(*t));
            }
        },
    }
    proof {
        assert forall|x: int, y: int| 0 <= x < items.len() && 0 <= y < items.len() && x != y implies items@[x]@ != items@[y]@ by {
            assert(char_views(items@)[x] == items@[x]@);
            assert(char_views(items@)[y] == items@[y]@);
        }
    }
    let order = sort_distinct(&items);
    let mut parts: Vec<String> = Vec::new();
    let mut x: usize = 0;
    while x < order.len()
        invariant
            order.len() == items.len(),
            forall|y: int| 0 <= y < order.len() ==> #[trigger] order@[y] < items.len(),
            x <= order.len(),
            parts.len() == x,
            forall|y: int| 0 <= y < x ==> (#[trigger] parts@[y])@ == items@[order@[y] as int]@,
        decreases order.len() - x,
    {
        parts.push(string_of_chars(&items[order[x]]));
        x += 1;
    }
    let ghost l = str_views(parts@);
    proof {
        let iv = char_views(items@);
        assert forall|a: int, b: int| 0 <= a < b < l.len() implies seq_lt(#[trigger] l[a], #[trigger] l[b]) by {
            assert(l[a] == items@[order@[a] as int]@);
            assert(l[b] == items@[order@[b] as int]@);
        }
        assert forall|y: Seq<char>| l.to_set().contains(y) <==> iv.to_set().contains(y) by {
            if l.to_set().contains(y) {
                let a = choose|a: int| 0 <= a < l.len() && l[a] == y;
                assert(iv[order@[a] as int] == y);
            }
            if iv.to_set().contains(y) {
                let a = choose|a: int| 0 <= a < iv.len() && iv[a] == y;
                assert(order@.contains(a as usize));
                let b = choose|b: int| 0 <= b < order.len() && order@[b] == a as usize;
                assert(l[b] == y);
            }
        }
        assert(l.to_set() =~= iv.to_set());
        assert(strictly_sorted(l) && l.to_set() == extras_set(*t));
        lemma_sorted_unique(l, sorted_extras(*t));
    }
    let mut r = String::new();
    if parts.len() == 0 {
        push_str(&mut r, "none");
    } else {
        push_joined(&mut r, &parts, ", ");
    }
    proof {
        reveal(extras_text);
        assert(r@ =~= extras_text(*t));
    }
    r
}


/// A coverage row: how many files have `col` set to `true`, and their share.
#[verifier::opaque]
pub open spec fn coverage_row(t: Tsv, label: Seq<char>, col: Seq<char>) -> Seq<CellView> {
    let n = count_eq_spec(str_views(t.header@), row_views(t.rows@), col, "true"@) as u64;
    seq![text(label), int_cell(n), CellView::Pct(n, t.rows.len() as u64)]
}

/// The file-coverage table of a header report.
pub open spec fn file_table_view(t: Tsv) -> TableView<CellView> {
    TableView {
        title: None,
        desc: Seq::empty(),
        headers: seq!["Metric"@, "Count"@, "% of files"@],
        rows: seq![
            seq![text("Files"@), int_cell(t.rows.len() as u64), text(Seq::empty())],
            coverage_row(t, "with TEMP"@, "has_temp"@),
            coverage_row(t, "with PSAL"@, "has_psal"@),
            coverage_row(t, "with PRES"@, "has_pres"@),
            coverage_row(t, "with DEPH"@, "has_deph"@),
            coverage_row(t, "with TIME_QC"@, "has_time_qc"@),
            coverage_row(t, "with POSITION_QC"@, "has_position_qc"@),
            seq![text("Extra parameters"@), text(extras_text(t)), text(Seq::empty())],
        ],
    }
}

/// The file-coverage section of a header report (one record per source file).
pub open spec fn file_summary_view(t: Tsv, path: Seq<char>) -> SectionView<CellView> {
    SectionView {
        level: 1,
        title: "File summary"@,
        desc: DESC_FILES@,
        files: seq![path],
        tables: seq![file_table_view(t)],
    }
}

/// A coverage row of the file summary.
fn coverage(t: &Tsv, label: &str, col: &str) -> (r: Vec<Cell>)
    ensures
        cell_views(r@) == coverage_row(*t, label@, col@),
{
    let n = t.count_eq(col, "true");
    let n_files = t.rows.len() as u64;
    let r = vec![text_cell(label), int_text(n), Cell::Pct { n, base: n_files }];
    proof {
        reveal(coverage_row);
        assert(cell_views(r@) =~= coverage_row(*t, label@, col@));
    }
    r
}

/// The file-coverage table of a header report.
fn file_table(t: &Tsv) -> (table: Table<Cell>)
    ensures
        table@ == file_table_view(*t),
{
    let n_files = t.rows.len() as u64;
    let mut rows: Vec<Vec<Cell>> = Vec::new();
    rows.push(vec![text_cell("Files"), int_text(n_files), Cell::Text(String::new())]);
    rows.push(coverage(t, "with TEMP", "has_temp"));
    rows.push(coverage(t, "with PSAL", "has_psal"));
    rows.push(coverage(t, "with PRES", "has_pres"));
    rows.push(coverage(t, "with DEPH", "has_deph"));
    rows.push(coverage(t, "with TIME_QC", "has_time_qc"));
    rows.push(coverage(t, "with POSITION_QC", "has_position_qc"));
    rows.push(vec![text_cell("Extra parameters"), Cell::Text(extras_of(t)), Cell::Text(String::new())]);
    let table = Table {
        title: None,
        desc: String::new(),
        headers: strings_of(&["Metric", "Count", "% of files"]),
        rows,
    };
    proof {
        let tv = file_table_view(*t);
        assert(table@.headers =~= tv.headers);
        assert(table@.rows[0] =~= tv.rows[0]);
        assert(table@.rows[7] =~= tv.rows[7]);
        assert(table@.rows =~= tv.rows);
        assert(table@ =~= tv);
    }
    table
}

/// File-coverage summary from the header report (one record per source
/// file): how many files have each core variable and QC flag, and the
/// extra parameters seen in any file.
pub fn file_summary_section(t: &Tsv, path: String) -> (s: Section<Cell>)
    ensures
        s@ == file_summary_view(*t, path@),
{
    let table = file_table(t);
    let s = Section {
        level: 1,
        title: string_of("File summary"),
        desc: string_of(DESC_FILES),
        files: vec![path],
        tables: vec![table],
    };
    proof {
        let v = file_summary_view(*t, path@);
        assert(s@.files =~= v.files);
        assert(s@.tables =~= v.tables);
        assert(s@ =~= v);
    }
    s
}


// ── Section assembly ────────────────────────────────────────────────────────

/// The counts of one stage and the report file they came from.
#[derive(Debug)]
pub struct StageReport {
    pub counts: Counts,
    pub path: String,
}

/// The duplicates file of the mark-duplicates stage: its records, the
/// observation count of each record, and its path.
#[derive(Debug)]
pub struct DupsReport {
    pub table: Tsv,
    pub obs: Vec<u64>,
    pub path: String,
}

/// The reports a summary draws on, each present only when its file exists.
#[derive(Debug)]
pub struct SummaryInputs {
    /// The header report (one record per source file) and its path.
    pub header: Option<(Tsv, String)>,
    pub convert: Option<StageReport>,
    pub dropqc: Option<StageReport>,
    pub dropna: Option<StageReport>,
    pub filter: Option<StageReport>,
    /// The mark-duplicates report and the total of its `dup_profiles` column.
    pub markdup: Option<(StageReport, u64)>,
    pub dups: Option<DupsReport>,
    pub dedup: Option<StageReport>,
    /// The extent of the positions after the region filter, when its report exists.
    pub filter_extent: Option<Extent>,
    /// The extent of the converted positions, when the Conversion report exists.
    pub convert_extent: Option<Extent>,
    /// The stem the page is about, and the comparison reports found.
    pub stem: String,
    pub compare: Vec<CompareReport>,
}

/// The duplicates file is well formed: one observation count per record,
/// with a total that a `u64` holds.
pub open spec fn dups_ok(d: DupsReport) -> bool {
    d.obs.len() == d.table.rows.len() && total(d.obs@) <= u64::MAX
}

/// The counts of an optional stage report.
pub open spec fn counts_of(r: Option<StageReport>) -> Option<Counts> {
    match r {
        Some(x) => Some(x.counts),
        None => None,
    }
}

/// The first of two optional counts that is present.
pub open spec fn or_else(a: Option<Counts>, b: Option<Counts>) -> Option<Counts> {
    if a is Some {
        a
    } else {
        b
    }
}

/// The counts the "% of original" columns compare against: the Conversion
/// counts if present, else those of the earliest stage that is.
pub open spec fn baseline_of(i: SummaryInputs) -> Option<Counts> {
    let markdup = match i.markdup {
        Some(m) => Some(m.0.counts),
        None => None,
    };
    or_else(
        counts_of(i.convert),
        or_else(
            counts_of(i.dropqc),
            or_else(counts_of(i.dropna), or_else(counts_of(i.filter), or_else(markdup, counts_of(i.dedup)))),
        ),
    )
}

/// The counts the deduplication stages are also compared against: those of
/// the last cleaning stage present.
pub open spec fn cleaned_of(i: SummaryInputs) -> Option<Counts> {
    or_else(counts_of(i.filter), or_else(counts_of(i.dropna), counts_of(i.dropqc)))
}

/// The extra row of the mark-duplicates table: the duplicate profiles, their
/// share of the original profiles, and, with cleaned counts, of the cleaned
/// ones; the "Deleted" cells stay blank since this stage removes nothing.
pub open spec fn dup_row_view(dup: u64, base_profiles: u64, cleaned: Option<Counts>) -> Seq<CellView> {
    let r = seq![text("Duplicate profiles"@), int_cell(dup), CellView::Pct(dup, base_profiles), text(Seq::empty())];
    match cleaned {
        Some(cl) => r + seq![int_cell(cl.profiles), CellView::Pct(dup, cl.profiles), text(Seq::empty())],
        None => r,
    }
}

/// The tables drawn from the duplicates file: the within- and
/// across-platform splits, and the group sizes.
pub open spec fn dups_tables_view(gs: Seq<(Set<Seq<char>>, nat, nat)>) -> Seq<TableView<CellView>> {
    let tp = kind_profiles(gs, false) + kind_profiles(gs, true);
    let to = kind_obs(gs, false) + kind_obs(gs, true);
    seq![
        dup_table_view(
            "Duplicates within a platform"@,
            DESC_DUPS_WITHIN@,
            kind_groups(gs, false),
            kind_profiles(gs, false),
            kind_platforms(gs, false).len(),
            kind_obs(gs, false),
            tp,
            to,
        ),
        dup_table_view(
            "Duplicates across platforms"@,
            DESC_DUPS_ACROSS@,
            kind_groups(gs, true),
            kind_profiles(gs, true),
            kind_platforms(gs, true).len(),
            kind_obs(gs, true),
            tp,
            to,
        ),
        group_size_view(gs, tp),
    ]
}

/// The mark-duplicates section.
pub open spec fn markdup_view(
    m: StageReport,
    dup: u64,
    baseline: Option<Counts>,
    cleaned: Option<Counts>,
    dups: Option<DupsReport>,
) -> SectionView<CellView> {
    let main = stage_table_view(m.counts, baseline, cleaned);
    let base_profiles = match baseline {
        Some(b) => b.profiles,
        None => m.counts.profiles,
    };
    let main = TableView { rows: main.rows.push(dup_row_view(dup, base_profiles, cleaned)), ..main };
    SectionView {
        level: 2,
        title: "Mark duplicates"@,
        desc: DESC_MARKDUP@,
        files: match dups {
            Some(d) => seq![m.path@, d.path@],
            None => seq![m.path@],
        },
        tables: match dups {
            Some(d) => seq![main] + dups_tables_view(file_groups(d.table, d.obs@)),
            None => seq![main],
        },
    }
}

/// Mark-duplicates section: the stage counts and the duplicate profiles the
/// next stage would thin out, plus, from the duplicates file when there is
/// one, the within-/across-platform split and the group-size distribution.
pub fn markdup_section(
    m: StageReport,
    dup: u64,
    baseline: Option<Counts>,
    cleaned: Option<Counts>,
    dups: Option<DupsReport>,
) -> (s: Section<Cell>)
    requires
        dups matches Some(d) ==> dups_ok(d),
    ensures
        s@ == markdup_view(m, dup, baseline, cleaned, dups),
{
    let ghost m0 = m;
    let ghost dups0 = dups;
    let mut main = stage_table(m.counts, baseline, cleaned);
    let base_profiles = match baseline {
        Some(b) => b.profiles,
        None => m.counts.profiles,
    };
    let mut extra = vec![text_cell("Duplicate profiles"), int_text(dup), Cell::Pct { n: dup, base: base_profiles }, Cell::Text(String::new())];
    match cleaned {
        Some(cl) => {
            extra.push(int_text(cl.profiles));
            extra.push(Cell::Pct { n: dup, base: cl.profiles });
            extra.push(Cell::Text(String::new()));
        },
        None => {},
    }
    proof {
        assert(cell_views(extra@) =~= dup_row_view(dup, base_profiles, cleaned));
    }
    let ghost before_rows = main@.rows;
    main.rows.push(extra);
    let ghost mv = markdup_view(m0, dup, baseline, cleaned, dups0);
    proof {
        assert(main@.rows =~= before_rows.push(dup_row_view(dup, base_profiles, cleaned)));
        assert(main@ =~= mv.tables[0]);
    }
    let mut files: Vec<String> = Vec::new();
    files.push(m.path);
    let mut tables: Vec<Table<Cell>> = Vec::new();
    tables.push(main);
    match dups {
        Some(d) => {
            files.push(d.path);
            let groups = dup_groups(&d.table, &d.obs);
            proof {
                lemma_views_total(groups@);
                lemma_kinds_total(group_views(groups@));
            }
            let (within, across) = dup_split(&groups);
            let total_profiles = within.profiles + across.profiles;
            let total_obs = within.obs + across.obs;
            let t1 = dup_table("Duplicates within a platform", DESC_DUPS_WITHIN, &within, total_profiles, total_obs);
            let t2 = dup_table("Duplicates across platforms", DESC_DUPS_ACROSS, &across, total_profiles, total_obs);
            let t3 = group_size_table(&groups, total_profiles);
            let ghost tv = table_views(tables@);
            tables.push(t1);
            tables.push(t2);
            tables.push(t3);
            proof {
                let dt = dups_tables_view(file_groups(d.table, d.obs@));
                assert(t1@ == dt[0]);
                assert(t2@ == dt[1]);
                assert(t3@ == dt[2]);
                assert(table_views(tables@) =~= tv + dt);
            }
        },
        None => {},
    }
    let s = Section { level: 2, title: string_of("Mark duplicates"), desc: string_of(DESC_MARKDUP), files, tables };
    proof {
        assert(s@.files =~= mv.files);
        assert(s@.tables =~= mv.tables);
        assert(s@ =~= mv);
    }
    s
}


/// A stage section: its counts against the original (and, when given, the
/// cleaned) counts.
pub open spec fn stage_view(
    level: u8,
    title: Seq<char>,
    desc: Seq<char>,
    r: StageReport,
    baseline: Option<Counts>,
    cleaned: Option<Counts>,
) -> SectionView<CellView> {
    SectionView { level, title, desc, files: seq![r.path@], tables: seq![stage_table_view(r.counts, baseline, cleaned)] }
}

/// The section of an optional stage, as a list of none or one.
pub open spec fn opt_stage(
    title: Seq<char>,
    desc: Seq<char>,
    r: Option<StageReport>,
    baseline: Option<Counts>,
    cleaned: Option<Counts>,
) -> Seq<SectionView<CellView>> {
    match r {
        Some(x) => seq![stage_view(2, title, desc, x, baseline, cleaned)],
        None => Seq::empty(),
    }
}

/// The Filter by region section: its stage table and, when the filtered
/// data has a valid position, the bounding-box table.
pub open spec fn filter_view(
    r: StageReport,
    baseline: Option<Counts>,
    fe: Option<Extent>,
    ce: Option<Extent>,
) -> SectionView<CellView> {
    let s = stage_view(2, "Filter by region"@, DESC_FILTER@, r, baseline, None);
    match fe {
        Some(e) => match bbox_view(e, ce) {
            Some(t) => SectionView { tables: s.tables.push(t), ..s },
            None => s,
        },
        None => s,
    }
}

/// The Filter by region section, as a list of none or one.
#[verifier::opaque]
pub open spec fn opt_filter(
    r: Option<StageReport>,
    baseline: Option<Counts>,
    fe: Option<Extent>,
    ce: Option<Extent>,
) -> Seq<SectionView<CellView>> {
    match r {
        Some(x) => seq![filter_view(x, baseline, fe, ce)],
        None => Seq::empty(),
    }
}

/// The Comparison section, as a list of none or one.
#[verifier::opaque]
pub open spec fn opt_comparison(files: Seq<CompareReport>, stem: Seq<char>) -> Seq<SectionView<CellView>> {
    match comparison_view(files, stem) {
        Some(v) => seq![v],
        None => Seq::empty(),
    }
}

/// A group of stage sections under its heading, or nothing when the group
/// is empty.
pub open spec fn under_heading(title: Seq<char>, desc: Seq<char>, subs: Seq<SectionView<CellView>>) -> Seq<SectionView<CellView>> {
    if subs.len() == 0 {
        Seq::empty()
    } else {
        seq![parent_view(title, desc)] + subs
    }
}

/// The sections of a summary page, in page order: File summary, Conversion,
/// Cleaning (Drop bad QC, Drop all-NA profiles, Filter by region),
/// Deduplication (Mark duplicates, Remove duplicates) and Comparison, each
/// present only when its report is.
pub open spec fn sections_view(i: SummaryInputs) -> Seq<SectionView<CellView>> {
    let baseline = baseline_of(i);
    let cleaned = cleaned_of(i);
    let header = match i.header {
        Some((t, path)) => seq![file_summary_view(t, path@)],
        None => Seq::empty(),
    };
    let conversion = match i.convert {
        Some(c) => seq![
            SectionView {
                level: 1,
                title: "Conversion"@,
                desc: DESC_CONVERT@,
                files: seq![c.path@],
                tables: seq![counts_table_view(c.counts)],
            },
        ],
        None => Seq::empty(),
    };
    let cleaning = opt_stage("Drop bad QC"@, DESC_DROPQC@, i.dropqc, baseline, None) + opt_stage(
        "Drop all-NA profiles"@,
        DESC_DROPNA@,
        i.dropna,
        baseline,
        None,
    ) + opt_filter(i.filter, baseline, i.filter_extent, i.convert_extent);
    let dedup = match i.markdup {
        Some((m, dup)) => seq![markdup_view(m, dup, baseline, cleaned, i.dups)],
        None => Seq::empty(),
    } + opt_stage("Remove duplicates"@, DESC_REMOVE_DUPS@, i.dedup, baseline, cleaned);
    header + conversion + under_heading("Cleaning"@, DESC_CLEANING@, cleaning) + under_heading(
        "Deduplication"@,
        DESC_DEDUP@,
        dedup,
    ) + opt_comparison(i.compare@, i.stem@)
}

/// The counts of an optional stage report.
fn counts_in(r: &Option<StageReport>) -> (c: Option<Counts>)
    ensures
        c == counts_of(*r),
{
    match r {
        Some(x) => Some(x.counts),
        None => None,
    }
}

/// A stage section.
fn stage_section(
    title: &str,
    desc: &str,
    r: StageReport,
    baseline: Option<Counts>,
    cleaned: Option<Counts>,
) -> (s: Section<Cell>)
    ensures
        s@ == stage_view(2, title@, desc@, r, baseline, cleaned),
{
    let ghost r0 = r;
    let table = stage_table(r.counts, baseline, cleaned);
    let s = Section { level: 2, title: string_of(title), desc: string_of(desc), files: vec![r.path], tables: vec![table] };
    proof {
        let v = stage_view(2, title@, desc@, r0, baseline, cleaned);
        assert(s@.files =~= v.files);
        assert(s@.tables =~= v.tables);
        assert(s@ =~= v);
    }
    s
}

/// Append the section of an optional stage to `out`.
fn push_stage(
    out: &mut Vec<Section<Cell>>,
    title: &str,
    desc: &str,
    r: Option<StageReport>,
    baseline: Option<Counts>,
    cleaned: Option<Counts>,
)
    ensures
        section_views(final(out)@) == section_views(old(out)@) + opt_stage(title@, desc@, r, baseline, cleaned),
{
    let ghost before = section_views(out@);
    match r {
        Some(x) => {
            let s = stage_section(title, desc, x, baseline, cleaned);
            out.push(s);
            proof {
                assert(section_views(out@) =~= before + opt_stage(title@, desc@, r, baseline, cleaned));
            }
        },
        None => {
            proof {
                assert(section_views(out@) =~= before + opt_stage(title@, desc@, r, baseline, cleaned));
            }
        },
    }
}

/// Append the Filter by region section of an optional report to `out`.
fn push_filter(
    out: &mut Vec<Section<Cell>>,
    filter: Option<StageReport>,
    baseline: Option<Counts>,
    filter_extent: &Option<Extent>,
    convert_extent: &Option<Extent>,
)
    ensures
        section_views(final(out)@) == section_views(old(out)@) + opt_filter(filter, baseline, *filter_extent, *convert_extent),
{
    let ghost before = section_views(out@);
    proof {
        reveal(opt_filter);
    }
    match filter {
        Some(x) => {
            let ghost x0 = x;
            let mut fs = stage_section("Filter by region", DESC_FILTER, x, baseline, None);
            let ghost sv = fs@;
            match filter_extent {
                Some(e) => match bbox_table(e, convert_extent) {
                    Some(t) => {
                        let ghost tv = table_views(fs.tables@);
                        fs.tables.push(t);
                        proof {
                            assert(table_views(fs.tables@) =~= tv.push(t@));
                            assert(fs@ =~= SectionView { tables: sv.tables.push(t@), ..sv });
                        }
                    },
                    None => {},
                },
                None => {},
            }
            proof {
                assert(fs@ == filter_view(x0, baseline, *filter_extent, *convert_extent));
            }
            out.push(fs);
            proof {
                assert(section_views(out@) =~= before + opt_filter(filter, baseline, *filter_extent, *convert_extent));
            }
        },
        None => {
            proof {
                assert(section_views(out@) =~= before + opt_filter(filter, baseline, *filter_extent, *convert_extent));
            }
        },
    }
}

/// Append `subs` to `out` under a heading section, unless `subs` is empty.
fn push_under_heading(out: &mut Vec<Section<Cell>>, title: &str, desc: &str, subs: Vec<Section<Cell>>)
    ensures
        section_views(final(out)@) == section_views(old(out)@) + under_heading(title@, desc@, section_views(subs@)),
{
    let ghost before = section_views(out@);
    if subs.len() > 0 {
        out.push(parent_section(title, desc));
        let ghost mid = section_views(out@);
        proof {
            assert(mid =~= before.push(parent_view(title@, desc@)));
        }
        let ghost sv = section_views(subs@);
        let mut k: usize = 0;
        let n = subs.len();
        for s in it: subs.into_iter()
            invariant
                k == it.index(),
                it.seq() == subs@,
                sv == section_views(subs@),
                n == subs@.len(),
                k <= n,
                section_views(out@) == mid + sv.take(k as int),
        {
            let ghost prev = section_views(out@);
            proof {
                assert(s == subs@[k as int]);
            }
            out.push(s);
            proof {
                assert(sv.take(k as int + 1) =~= sv.take(k as int).push(sv[k as int]));
                assert(section_views(out@) =~= prev.push(s@));
                assert(section_views(out@) =~= mid + sv.take(k as int + 1));
            }
            k += 1;
        }
        proof {
            assert(sv.take(n as int) =~= sv);
            assert(section_views(out@) =~= before + under_heading(title@, desc@, sv));
        }
    } else {
        proof {
            assert(section_views(subs@) =~= Seq::<SectionView<CellView>>::empty());
            assert(section_views(out@) =~= before + under_heading(title@, desc@, section_views(subs@)));
        }
    }
}

/// The sections of the summary page, each present only when its report is.
#[verifier::spinoff_prover]
#[verifier::rlimit(60)]
pub fn build_sections(inputs: SummaryInputs) -> (r: Vec<Section<Cell>>)
    requires
        inputs.dups matches Some(d) ==> dups_ok(d),
    ensures
        section_views(r@) == sections_view(inputs),
{
    let ghost i0 = inputs;
    let SummaryInputs {
        header,
        convert,
        dropqc,
        dropna,
        filter,
        markdup,
        dups,
        dedup,
        filter_extent,
        convert_extent,
        stem,
        compare,
    } = inputs;
    let c_convert = counts_in(&convert);
    let c_dropqc = counts_in(&dropqc);
    let c_dropna = counts_in(&dropna);
    let c_filter = counts_in(&filter);
    let c_markdup = match &markdup {
        Some(m) => Some(m.0.counts),
        None => None,
    };
    let c_dedup = counts_in(&dedup);
    let baseline = if c_convert.is_some() {
        c_convert
    } else if c_dropqc.is_some() {
        c_dropqc
    } else if c_dropna.is_some() {
        c_dropna
    } else if c_filter.is_some() {
        c_filter
    } else if c_markdup.is_some() {
        c_markdup
    } else {
        c_dedup
    };
    let cleaned = if c_filter.is_some() {
        c_filter
    } else if c_dropna.is_some() {
        c_dropna
    } else {
        c_dropqc
    };
    proof {
        assert(baseline == baseline_of(i0));
        assert(cleaned == cleaned_of(i0));
    }
    let mut out: Vec<Section<Cell>> = Vec::new();
    match header {
        Some((t, path)) => {
            out.push(file_summary_section(&t, path));
        },
        None => {},
    }
    match convert {
        Some(c) => {
            let ghost c0 = c;
            let table = counts_table(c.counts);
            let s = Section {
                level: 1,
                title: string_of("Conversion"),
                desc: string_of(DESC_CONVERT),
                files: vec![c.path],
                tables: vec![table],
            };
            let ghost before = section_views(out@);
            out.push(s);
            proof {
                assert(s@.files =~= seq![c0.path@]);
                assert(s@.tables =~= seq![counts_table_view(c0.counts)]);
            }
        },
        None => {},
    }
    let ghost v = sections_view(i0);
    let ghost head = section_views(out@);
    proof {
        let h = match i0.header {
            Some((t, path)) => seq![file_summary_view(t, path@)],
            None => Seq::<SectionView<CellView>>::empty(),
        };
        let c = match i0.convert {
            Some(c) => seq![
                SectionView {
                    level: 1u8,
                    title: "Conversion"@,
                    desc: DESC_CONVERT@,
                    files: seq![c.path@],
                    tables: seq![counts_table_view(c.counts)],
                },
            ],
            None => Seq::<SectionView<CellView>>::empty(),
        };
        assert(head =~= h + c);
    }
    let mut cleaning: Vec<Section<Cell>> = Vec::new();
    push_stage(&mut cleaning, "Drop bad QC", DESC_DROPQC, dropqc, baseline, None);
    push_stage(&mut cleaning, "Drop all-NA profiles", DESC_DROPNA, dropna, baseline, None);
    let ghost pre_filter = section_views(cleaning@);
    push_filter(&mut cleaning, filter, baseline, &filter_extent, &convert_extent);
    proof {
        assert(section_views(cleaning@) =~= pre_filter + opt_filter(i0.filter, baseline, i0.filter_extent, i0.convert_extent));
        assert(section_views(cleaning@) =~= opt_stage("Drop bad QC"@, DESC_DROPQC@, i0.dropqc, baseline, None)
            + opt_stage("Drop all-NA profiles"@, DESC_DROPNA@, i0.dropna, baseline, None)
            + opt_filter(i0.filter, baseline, i0.filter_extent, i0.convert_extent));
    }
    push_under_heading(&mut out, "Cleaning", DESC_CLEANING, cleaning);
    let mut dedups: Vec<Section<Cell>> = Vec::new();
    match markdup {
        Some((m, dup)) => {
            dedups.push(markdup_section(m, dup, baseline, cleaned, dups));
            proof {
                let pair = i0.markdup->0;
                assert(section_views(dedups@) =~= seq![markdup_view(pair.0, dup, baseline, cleaned, i0.dups)]);
            }
        },
        None => {
            proof {
                assert(section_views(dedups@) =~= Seq::<SectionView<CellView>>::empty());
            }
        },
    }
    push_stage(&mut dedups, "Remove duplicates", DESC_REMOVE_DUPS, dedup, baseline, cleaned);
    push_under_heading(&mut out, "Deduplication", DESC_DEDUP, dedups);
    push_comparison(&mut out, &compare, stem.as_str());
    proof {
        assert(section_views(out@) =~= v);
    }
    out
}

/// Append the Comparison section of `stem`, when there is one, to `out`.
fn push_comparison(out: &mut Vec<Section<Cell>>, compare: &Vec<CompareReport>, stem: &str)
    ensures
        section_views(final(out)@) == section_views(old(out)@) + opt_comparison(compare@, stem@),
{
    let ghost before = section_views(out@);
    proof {
        reveal(opt_comparison);
    }
    match comparison_section(compare, stem) {
        Some(c) => {
            out.push(c);
            proof {
                assert(section_views(out@) =~= before + opt_comparison(compare@, stem@));
            }
        },
        None => {
            proof {
                assert(section_views(out@) =~= before + opt_comparison(compare@, stem@));
            }
        },
    }
}


// ── Auto-located source files ───────────────────────────────────────────────

/// The eight report files a summary can draw on, at their standard paths.
#[derive(Debug)]
pub struct StemPaths {
    /// `<report>/header/<stem>.yaml.tsv`
    pub yaml: String,
    /// `<report>/convert/<stem>.parquet.tsv`
    pub convert: String,
    /// `<report>/clean/dropqc/<stem>.parquet.tsv`
    pub dropqc: String,
    /// `<report>/clean/dropna/<stem>.parquet.tsv`
    pub dropna: String,
    /// `<report>/clean/filter/<stem>.parquet.tsv`
    pub filter: String,
    /// `<report>/dedup/markdup/<stem>.parquet.tsv`
    pub markdup: String,
    /// `<output>/dedup/markdup/<stem>.dups.tsv`
    pub dups: String,
    /// `<report>/dedup/dedup/<stem>.parquet.tsv`
    pub dedup: String,
}

/// `<dir>/<sub>/<stem><suffix>`, joined as `Path::join` joins.
pub open spec fn stem_path(dir: Seq<char>, sub: Seq<char>, stem: Seq<char>, suffix: Seq<char>) -> Seq<char> {
    path_join(path_join(dir, sub), stem + suffix)
}

/// `<dir>/<sub>/<stem><suffix>`.
fn stem_file(dir: &str, sub: &str, stem: &str, suffix: &str) -> (r: String)
    ensures
        r@ == stem_path(dir@, sub@, stem@, suffix@),
{
    let d = join_path(dir, sub);
    let mut name = String::from_str(stem);
    push_str(&mut name, suffix);
    join_path(d.as_str(), name.as_str())
}

impl StemPaths {
    /// The report files of `stem` under the report directory and the output
    /// directory.
    pub fn new(stem: &str, report_dir: &str, out_dir: &str) -> (p: StemPaths)
        ensures
            p.yaml@ == stem_path(report_dir@, "header"@, stem@, ".yaml.tsv"@),
            p.convert@ == stem_path(report_dir@, "convert"@, stem@, ".parquet.tsv"@),
            p.dropqc@ == stem_path(report_dir@, "clean/dropqc"@, stem@, ".parquet.tsv"@),
            p.dropna@ == stem_path(report_dir@, "clean/dropna"@, stem@, ".parquet.tsv"@),
            p.filter@ == stem_path(report_dir@, "clean/filter"@, stem@, ".parquet.tsv"@),
            p.markdup@ == stem_path(report_dir@, "dedup/markdup"@, stem@, ".parquet.tsv"@),
            p.dups@ == stem_path(out_dir@, "dedup/markdup"@, stem@, ".dups.tsv"@),
            p.dedup@ == stem_path(report_dir@, "dedup/dedup"@, stem@, ".parquet.tsv"@),
    {
        StemPaths {
            yaml: stem_file(report_dir, "header", stem, ".yaml.tsv"),
            convert: stem_file(report_dir, "convert", stem, ".parquet.tsv"),
            dropqc: stem_file(report_dir, "clean/dropqc", stem, ".parquet.tsv"),
            dropna: stem_file(report_dir, "clean/dropna", stem, ".parquet.tsv"),
            filter: stem_file(report_dir, "clean/filter", stem, ".parquet.tsv"),
            markdup: stem_file(report_dir, "dedup/markdup", stem, ".parquet.tsv"),
            dups: stem_file(out_dir, "dedup/markdup", stem, ".dups.tsv"),
            dedup: stem_file(report_dir, "dedup/dedup", stem, ".parquet.tsv"),
        }
    }
}

/// A path as the page shows it: every backslash turned into `/`.
pub open spec fn slashed(p: Seq<char>) -> Seq<char> {
    p.map_values(|c: char| if c == '\\' { '/' } else { c })
}

/// A path as the page shows it: every backslash turned into `/`.
pub fn path_str(p: &str) -> (r: String)
    ensures
        r@ == slashed(p@),
{
    let cs = chars_of(p);
    let mut r = String::new();
    let mut i: usize = 0;
    while i < cs.len()
        invariant
            cs@ == p@,
            i <= cs.len(),
            r@ == slashed(cs@.take(i as int)),
        decreases cs.len() - i,
    {
        let c = cs[i];
        push_char(&mut r, if c == '\\' { '/' } else { c });
        proof {
            assert(r@ =~= slashed(cs@.take(i as int + 1)));
        }
        i += 1;
    }
    proof {
        assert(cs@.take(cs.len() as int) =~= p@);
    }
    r
}


// ── Laws ────────────────────────────────────────────────────────────────────

/// The total of the profiles of the size bins up to `b`.
pub open spec fn bins_profiles_upto(gs: Seq<(Set<Seq<char>>, nat, nat)>, b: int) -> nat
    decreases b + 1,
{
    if b < 0 {
        0
    } else {
        bins_profiles_upto(gs, b - 1) + bin_profiles(gs, b as nat)
    }
}

/// The number of groups in the size bins up to `b`.
pub open spec fn bins_groups_upto(gs: Seq<(Set<Seq<char>>, nat, nat)>, b: int) -> nat
    decreases b + 1,
{
    if b < 0 {
        0
    } else {
        bins_groups_upto(gs, b - 1) + bin_groups(gs, b as nat)
    }
}

proof fn lemma_bins_upto_step(gs: Seq<(Set<Seq<char>>, nat, nat)>, b: int)
    requires
        gs.len() > 0,
        b >= -1,
    ensures
        bins_profiles_upto(gs, b) == bins_profiles_upto(gs.drop_last(), b) + if size_bin(gs.last().1) <= b {
            gs.last().1
        } else {
            0nat
        },
        bins_groups_upto(gs, b) == bins_groups_upto(gs.drop_last(), b) + if size_bin(gs.last().1) <= b {
            1nat
        } else {
            0nat
        },
    decreases b + 1,
{
    if b >= 0 {
        lemma_bins_upto_step(gs, b - 1);
    }
}

/// The group-size table accounts for every duplicate group and profile:
/// its bins together hold all the groups and all their profiles.
pub proof fn lemma_size_bins_cover(gs: Seq<(Set<Seq<char>>, nat, nat)>)
    ensures
        bins_profiles_upto(gs, (GROUP_SIZE_CAP + 1) as int) == view_profiles(gs),
        bins_groups_upto(gs, (GROUP_SIZE_CAP + 1) as int) == gs.len(),
    decreases gs.len(),
{
    let top = (GROUP_SIZE_CAP + 1) as int;
    if gs.len() == 0 {
        lemma_bins_upto_empty(gs, top);
    } else {
        lemma_size_bins_cover(gs.drop_last());
        lemma_bins_upto_step(gs, top);
    }
}

proof fn lemma_bins_upto_empty(gs: Seq<(Set<Seq<char>>, nat, nat)>, b: int)
    requires
        gs.len() == 0,
    ensures
        bins_profiles_upto(gs, b) == 0,
        bins_groups_upto(gs, b) == 0,
    decreases b + 1,
{
    if b >= 0 {
        lemma_bins_upto_empty(gs, b - 1);
    }
}

/// `s` without its commas.
pub open spec fn without_commas(s: Seq<char>) -> Seq<char>
    decreases s.len(),
{
    if s.len() == 0 {
        s
    } else if s.last() == ',' {
        without_commas(s.drop_last())
    } else {
        without_commas(s.drop_last()).push(s.last())
    }
}

proof fn lemma_without_commas_add(a: Seq<char>, b: Seq<char>)
    ensures
        without_commas(a + b) == without_commas(a) + without_commas(b),
    decreases b.len(),
{
    if b.len() == 0 {
        assert(a + b =~= a);
        assert(without_commas(b) =~= Seq::<char>::empty());
        assert(without_commas(a) + without_commas(b) =~= without_commas(a));
    } else {
        lemma_without_commas_add(a, b.drop_last());
        assert((a + b).drop_last() =~= a + b.drop_last());
        assert((a + b).last() == b.last());
        if b.last() != ',' {
            assert(without_commas(a) + without_commas(b.drop_last()).push(b.last()) =~= (without_commas(a)
                + without_commas(b.drop_last())).push(b.last()));
        }
    }
}

proof fn lemma_digits_no_comma(s: Seq<char>)
    requires
        forall|i: int| 0 <= i < s.len() ==> s[i] != ',',
    ensures
        without_commas(s) == s,
    decreases s.len(),
{
    if s.len() > 0 {
        lemma_digits_no_comma(s.drop_last());
        assert(s.drop_last().push(s.last()) =~= s);
    }
}

/// The decimal text of `n` at least 1000 is that of `n / 1000` followed by
/// three digits.
proof fn lemma_decimal_thousands(n: nat)
    requires
        n >= 1000,
    ensures
        decimal(n) == decimal(n / 1000) + three_digits(n % 1000),
{
    let m = n % 1000;
    assert(n / 10 / 10 == n / 100) by (nonlinear_arith)
        requires
            n >= 0,
    ;
    assert(n / 100 / 10 == n / 1000) by (nonlinear_arith)
        requires
            n >= 0,
    ;
    assert((n / 100) % 10 == m / 100) by (nonlinear_arith)
        requires
            m == n % 1000,
            n >= 0,
    ;
    assert((n / 10) % 10 == (m / 10) % 10) by (nonlinear_arith)
        requires
            m == n % 1000,
            n >= 0,
    ;
    assert(n % 10 == m % 10) by (nonlinear_arith)
        requires
            m == n % 1000,
            n >= 0,
    ;
    assert(n / 100 >= 10);
    assert(n / 10 >= 10);
    let d100 = decimal(n / 100);
    assert(d100 == decimal(n / 1000).push(digit_char((n / 100) % 10)));
    let d10 = decimal(n / 10);
    assert(d10 == d100.push(digit_char((n / 10) % 10)));
    assert(decimal(n) == d10.push(digit_char(n % 10)));
    assert(decimal(n) =~= decimal(n / 1000) + three_digits(m));
}

/// Thousands separators only add commas: with its commas removed, the text
/// of `fmt_int(n)` is the decimal text of `n`.
pub proof fn lemma_thousands_digits(n: nat)
    ensures
        without_commas(thousands(n)) == decimal(n),
    decreases n,
{
    if n < 1000 {
        lemma_decimal_no_comma(n);
        lemma_digits_no_comma(decimal(n));
    } else {
        lemma_thousands_digits(n / 1000);
        let t = three_digits(n % 1000);
        lemma_without_commas_add(thousands(n / 1000) + seq![','], t);
        lemma_without_commas_add(thousands(n / 1000), seq![',']);
        assert(without_commas(seq![',']) =~= Seq::<char>::empty()) by {
            assert(seq![','].drop_last() =~= Seq::<char>::empty());
            assert(seq![','].last() == ',');
            assert(without_commas(Seq::<char>::empty()) =~= Seq::<char>::empty());
        }
        lemma_digit_char(n % 1000 / 100);
        lemma_digit_char((n % 1000 / 10) % 10);
        lemma_digit_char(n % 1000 % 10);
        lemma_digits_no_comma(t);
        lemma_decimal_thousands(n);
        assert(without_commas(thousands(n)) =~= decimal(n));
    }
}

} // verus!
