//! A report table of plain values, written as TSV, as aligned plain text, or
//! as JSON. Null and NaN cells render as empty text (`null` in JSON); a
//! floating-point value arrives already formatted as a number.

use vstd::prelude::*;

use crate::dupkey::{format_utc_millis, i64_to_decimal, int_decimal, utc_millis_format};
use crate::order::chars_of;
use crate::report::page::{concat_map, lemma_concat_map_step};
use crate::text::{decimal, joined, push_char, push_joined, push_str, str_views, u64_to_decimal};

verus! {

/// The format of a report.
#[derive(Debug, Clone, Copy, PartialEq, Eq, Structural)]
pub enum ReportFormat {
    Tsv,
    Text,
    Json,
}

/// A cell of a report table.
#[derive(Debug)]
pub enum ReportCell {
    /// No value (a null, or a NaN measurement).
    Null,
    Bool(bool),
    Int(i64),
    UInt(u64),
    /// A number already written out (a floating-point value).
    Num(String),
    Text(String),
    /// A UTC instant in milliseconds since the Unix epoch.
    DateTimeMs(i64),
}

/// A report table: column names and rows of cells, one cell per column.
#[derive(Debug)]
pub struct ReportTable {
    pub columns: Vec<String>,
    pub rows: Vec<Vec<ReportCell>>,
}

impl ReportTable {
    /// Every row has one cell per column.
    pub open spec fn wf(&self) -> bool {
        forall|r: int| 0 <= r < self.rows.len() ==> (#[trigger] self.rows@[r]).len() == self.columns.len()
    }
}

/// The strftime format instants are written in.
pub const DATETIME_FORMAT: &'static str = "%Y-%m-%dT%H:%M:%SZ";

/// An instant as text: ISO 8601 in UTC, or empty when chrono cannot render it.
pub open spec fn datetime_text(ms: i64) -> Seq<char> {
    match utc_millis_format(ms, DATETIME_FORMAT@) {
        Some(s) => s,
        None => Seq::empty(),
    }
}

/// A cell as plain text (TSV and aligned text).
pub open spec fn cell_plain(c: ReportCell) -> Seq<char> {
    match c {
        ReportCell::Null => Seq::empty(),
        ReportCell::Bool(b) => if b {
            "true"@
        } else {
            "false"@
        },
        ReportCell::Int(n) => int_decimal(n as int),
        ReportCell::UInt(n) => decimal(n as nat),
        ReportCell::Num(s) => s@,
        ReportCell::Text(s) => s@,
        ReportCell::DateTimeMs(ms) => datetime_text(ms),
    }
}

/// A lowercase hexadecimal digit.
pub open spec fn hex_digit(d: nat) -> char {
    if d < 10 {
        (48 + d) as char
    } else {
        (87 + d) as char
    }
}

/// A character in a JSON string: quote, backslash and the control
/// characters escaped.
pub open spec fn json_char(c: char) -> Seq<char> {
    if c == '"' {
        seq!['\\', '"']
    } else if c == '\\' {
        seq!['\\', '\\']
    } else if c == '\n' {
        seq!['\\', 'n']
    } else if c == '\r' {
        seq!['\\', 'r']
    } else if c == '\t' {
        seq!['\\', 't']
    } else if (c as u32) < 0x20 {
        seq!['\\', 'u', '0', '0', hex_digit((c as u32 / 16) as nat), hex_digit((c as u32 % 16) as nat)]
    } else {
        seq![c]
    }
}

/// A JSON string holding `s`.
pub open spec fn json_quote(s: Seq<char>) -> Seq<char> {
    seq!['"'] + concat_map(s, |c: char| json_char(c)) + seq!['"']
}

/// A cell as a JSON value: numbers and booleans bare, text quoted, no value
/// as `null`.
pub open spec fn cell_json(c: ReportCell) -> Seq<char> {
    match c {
        ReportCell::Null => "null"@,
        ReportCell::Text(s) => json_quote(s@),
        ReportCell::DateTimeMs(ms) => json_quote(datetime_text(ms)),
        _ => cell_plain(c),
    }
}

/// A cell as plain text.
pub fn plain_text(c: &ReportCell) -> (r: String)
    ensures
        r@ == cell_plain(*c),
{
    match c {
        ReportCell::Null => String::new(),
        ReportCell::Bool(b) => if *b {
            String::from_str("true")
        } else {
            String::from_str("false")
        },
        ReportCell::Int(n) => i64_to_decimal(*n),
        ReportCell::UInt(n) => u64_to_decimal(*n),
        ReportCell::Num(s) => s.clone(),
        ReportCell::Text(s) => s.clone(),
        ReportCell::DateTimeMs(ms) => match format_utc_millis(*ms, DATETIME_FORMAT) {
            Some(s) => s,
            None => String::new(),
        },
    }
}

/// Append `s` as a JSON string.
fn push_json_quoted(out: &mut String, s: &str)
    ensures
        final(out)@ == old(out)@ + json_quote(s@),
{
    let ghost start = out@;
    push_char(out, '"');
    let cs = chars_of(s);
    let ghost mid = out@;
    let mut i: usize = 0;
    while i < cs.len()
        invariant
            cs@ == s@,
            i <= cs.len(),
            out@ == mid + concat_map(cs@.take(i as int), |c: char| json_char(c)),
        decreases cs.len() - i,
    {
        let c = cs[i];
        let ghost before = out@;
        if c == '"' {
            push_char(out, '\\');
            push_char(out, '"');
        } else if c == '\\' {
            push_char(out, '\\');
            push_char(out, '\\');
        } else if c == '\n' {
            push_char(out, '\\');
            push_char(out, 'n');
        } else if c == '\r' {
            push_char(out, '\\');
            push_char(out, 'r');
        } else if c == '\t' {
            push_char(out, '\\');
            push_char(out, 't');
        } else if (c as u32) < 0x20 {
            let v = c as u32;
            push_char(out, '\\');
            push_char(out, 'u');
            push_char(out, '0');
            push_char(out, '0');
            push_char(out, hex_char(v / 16));
            push_char(out, hex_char(v % 16));
        } else {
            push_char(out, c);
        }
        proof {
            assert(out@ =~= before + json_char(c));
            lemma_concat_map_step(cs@, |c: char| json_char(c), i as int);
        }
        i += 1;
    }
    push_char(out, '"');
    proof {
        assert(cs@.take(cs.len() as int) =~= s@);
        assert(out@ =~= start + json_quote(s@));
    }
}

/// A lowercase hexadecimal digit.
fn hex_char(d: u32) -> (c: char)
    requires
        d < 16,
    ensures
        c == hex_digit(d as nat),
{
    if d < 10 {
        (48u8 + d as u8) as char
    } else {
        (87u8 + d as u8) as char
    }
}

/// Append a cell as a JSON value.
fn push_cell_json(out: &mut String, c: &ReportCell)
    ensures
        final(out)@ == old(out)@ + cell_json(*c),
{
    match c {
        ReportCell::Null => push_str(out, "null"),
        ReportCell::Text(s) => push_json_quoted(out, s.as_str()),
        ReportCell::DateTimeMs(_) => {
            let t = plain_text(c);
            push_json_quoted(out, t.as_str());
        },
        _ => {
            let t = plain_text(c);
            push_str(out, t.as_str());
        },
    }
}


/// The cells of each row.
pub open spec fn rows_of(t: ReportTable) -> Seq<Seq<ReportCell>> {
    t.rows@.map_values(|r: Vec<ReportCell>| r@)
}

/// A row as plain texts.
pub open spec fn plain_row(r: Seq<ReportCell>) -> Seq<Seq<char>> {
    r.map_values(|c: ReportCell| cell_plain(c))
}

/// The plain texts of row `r` of a table.
fn plain_texts(r: &Vec<ReportCell>) -> (v: Vec<String>)
    ensures
        str_views(v@) == plain_row(r@),
{
    let mut v: Vec<String> = Vec::new();
    let mut i: usize = 0;
    while i < r.len()
        invariant
            i <= r.len(),
            str_views(v@) == plain_row(r@.take(i as int)),
        decreases r.len() - i,
    {
        let t = plain_text(&r[i]);
        let ghost before = str_views(v@);
        v.push(t);
        proof {
            assert(str_views(v@) =~= before.push(t@));
            assert(plain_row(r@.take(i as int + 1)) =~= plain_row(r@.take(i as int)).push(cell_plain(r@[i as int])));
        }
        i += 1;
    }
    proof {
        assert(r@.take(r.len() as int) =~= r@);
    }
    v
}

// ── TSV ─────────────────────────────────────────────────────────────────────

/// The report as TSV: the header line, then one line per row.
pub open spec fn tsv_text(t: ReportTable) -> Seq<char> {
    joined(str_views(t.columns@), "\t"@) + "\n"@ + concat_map(
        rows_of(t),
        |r: Seq<ReportCell>| joined(plain_row(r), "\t"@) + "\n"@,
    )
}

/// The report as TSV.
pub fn render_tsv(t: &ReportTable) -> (r: String)
    ensures
        r@ == tsv_text(*t),
{
    let mut out = String::new();
    push_joined(&mut out, &t.columns, "\t");
    push_str(&mut out, "\n");
    proof {
        assert(t.columns@.map_values(|p: String| p@) =~= str_views(t.columns@));
    }
    let ghost head = out@;
    let ghost rows = rows_of(*t);
    let mut i: usize = 0;
    while i < t.rows.len()
        invariant
            rows == rows_of(*t),
            i <= t.rows.len(),
            out@ == head + concat_map(rows.take(i as int), |r: Seq<ReportCell>| joined(plain_row(r), "\t"@) + "\n"@),
        decreases t.rows.len() - i,
    {
        let cells = plain_texts(&t.rows[i]);
        push_joined(&mut out, &cells, "\t");
        push_str(&mut out, "\n");
        proof {
            assert(cells@.map_values(|p: String| p@) =~= str_views(cells@));
            assert(rows[i as int] == t.rows@[i as int]@);
            lemma_concat_map_step(rows, |r: Seq<ReportCell>| joined(plain_row(r), "\t"@) + "\n"@, i as int);
            assert(out@ =~= head + concat_map(rows.take(i as int + 1), |r: Seq<ReportCell>| joined(plain_row(r), "\t"@) + "\n"@));
        }
        i += 1;
    }
    proof {
        assert(rows.take(t.rows.len() as int) =~= rows);
    }
    out
}

// ── JSON ────────────────────────────────────────────────────────────────────

/// A row as a JSON object, its fields named by the columns.
pub open spec fn json_object(names: Seq<Seq<char>>, r: Seq<ReportCell>) -> Seq<char> {
    "{"@ + joined(Seq::new(names.len(), |i: int| json_quote(names[i]) + ":"@ + cell_json(r[i])), ","@) + "}"@
}

/// The report as a JSON array of objects, one per row.
pub open spec fn json_text(t: ReportTable) -> Seq<char> {
    "["@ + joined(
        rows_of(t).map_values(|r: Seq<ReportCell>| json_object(str_views(t.columns@), r)),
        ","@,
    ) + "]\n"@
}

/// Row `r` as a JSON object.
fn json_object_text(t: &ReportTable, r: usize) -> (s: String)
    requires
        t.wf(),
        r < t.rows.len(),
    ensures
        s@ == json_object(str_views(t.columns@), t.rows@[r as int]@),
{
    let row = &t.rows[r];
    let ghost names = str_views(t.columns@);
    let mut fields: Vec<String> = Vec::new();
    let mut i: usize = 0;
    while i < t.columns.len()
        invariant
            t.wf(),
            r < t.rows.len(),
            row == &t.rows@[r as int],
            names == str_views(t.columns@),
            row.len() == t.columns.len(),
            i <= t.columns.len(),
            str_views(fields@) == Seq::new(i as nat, |k: int| json_quote(names[k]) + ":"@ + cell_json(row@[k])),
        decreases t.columns.len() - i,
    {
        let mut f = String::new();
        push_json_quoted(&mut f, t.columns[i].as_str());
        push_str(&mut f, ":");
        push_cell_json(&mut f, &row[i]);
        let ghost before = str_views(fields@);
        fields.push(f);
        proof {
            assert(names[i as int] == t.columns@[i as int]@);
            assert(str_views(fields@) =~= before.push(f@));
            assert(str_views(fields@) =~= Seq::new(i as nat + 1, |k: int| json_quote(names[k]) + ":"@ + cell_json(row@[k])));
        }
        i += 1;
    }
    let mut s = String::from_str("{");
    push_joined(&mut s, &fields, ",");
    push_str(&mut s, "}");
    proof {
        reveal_strlit("{");
        assert(fields@.map_values(|p: String| p@) =~= str_views(fields@));
        assert(s@ =~= json_object(names, row@));
    }
    s
}

/// The report as JSON.
pub fn render_json(t: &ReportTable) -> (r: String)
    requires
        t.wf(),
    ensures
        r@ == json_text(*t),
{
    let ghost names = str_views(t.columns@);
    let mut objects: Vec<String> = Vec::new();
    let mut i: usize = 0;
    while i < t.rows.len()
        invariant
            t.wf(),
            names == str_views(t.columns@),
            i <= t.rows.len(),
            str_views(objects@) == rows_of(*t).take(i as int).map_values(|r: Seq<ReportCell>| json_object(names, r)),
        decreases t.rows.len() - i,
    {
        let o = json_object_text(t, i);
        let ghost before = str_views(objects@);
        objects.push(o);
        proof {
            assert(str_views(objects@) =~= before.push(o@));
            assert(rows_of(*t)[i as int] == t.rows@[i as int]@);
            assert(rows_of(*t).take(i as int + 1).map_values(|r: Seq<ReportCell>| json_object(names, r)) =~= rows_of(
                *t,
            ).take(i as int).map_values(|r: Seq<ReportCell>| json_object(names, r)).push(o@));
        }
        i += 1;
    }
    let mut out = String::from_str("[");
    push_joined(&mut out, &objects, ",");
    push_str(&mut out, "]\n");
    proof {
        reveal_strlit("[");
        assert(rows_of(*t).take(t.rows.len() as int) =~= rows_of(*t));
        assert(objects@.map_values(|p: String| p@) =~= str_views(objects@));
        assert(out@ =~= json_text(*t));
    }
    out
}


// ── Aligned text ────────────────────────────────────────────────────────────

/// The length of `s` in UTF-8 bytes, as `str::len` gives it.
pub open spec fn byte_len(s: Seq<char>) -> usize {
    vstd::utf8::encode_utf8(s).len() as usize
}

/// `s` padded with spaces on the right to `w` characters, as `{:<w$}` pads.
pub open spec fn pad(s: Seq<char>, w: usize) -> Seq<char> {
    if s.len() < w {
        s + Seq::new((w - s.len()) as nat, |i: int| ' ')
    } else {
        s
    }
}

/// The largest byte length among `ss`, 0 for none.
pub open spec fn max_byte_len(ss: Seq<Seq<char>>) -> usize
    decreases ss.len(),
{
    if ss.len() == 0 {
        0
    } else {
        let m = max_byte_len(ss.drop_last());
        if byte_len(ss.last()) > m {
            byte_len(ss.last())
        } else {
            m
        }
    }
}

/// The width of column `i`: the largest byte length of its name and its
/// cells.
pub open spec fn col_width(names: Seq<Seq<char>>, rows: Seq<Seq<Seq<char>>>, i: int) -> usize {
    let m = max_byte_len(rows.map_values(|r: Seq<Seq<char>>| r[i]));
    if byte_len(names[i]) > m {
        byte_len(names[i])
    } else {
        m
    }
}

/// A table line: each cell padded to its column's width, two spaces between.
pub open spec fn text_line(cells: Seq<Seq<char>>, widths: Seq<usize>) -> Seq<char> {
    joined(Seq::new(cells.len(), |i: int| pad(cells[i], widths[i])), "  "@)
}

/// The report as aligned plain text. A single-row report reads as a block
/// of name/value lines, the names padded to the longest; otherwise a table
/// of padded columns under a line of dashes.
pub open spec fn text_text(t: ReportTable) -> Seq<char> {
    let names = str_views(t.columns@);
    let rows = rows_of(t).map_values(|r: Seq<ReportCell>| plain_row(r));
    if t.rows.len() == 1 {
        let w = max_byte_len(names);
        concat_map(
            Seq::new(names.len(), |i: int| pad(names[i], w) + "  "@ + rows[0][i] + "\n"@),
            |l: Seq<char>| l,
        )
    } else {
        let widths = Seq::new(names.len(), |i: int| col_width(names, rows, i));
        text_line(names, widths) + "\n"@ + joined(
            Seq::new(names.len(), |i: int| Seq::new(widths[i] as nat, |k: int| '-')),
            "  "@,
        ) + "\n"@ + concat_map(rows, |r: Seq<Seq<char>>| text_line(r, widths) + "\n"@)
    }
}

/// `s` padded with spaces on the right to `w` characters.
fn padded(s: &str, w: usize) -> (r: String)
    ensures
        r@ == pad(s@, w),
{
    let mut r = s.to_owned();
    let n = s.unicode_len();
    if n < w {
        let mut k = n;
        while k < w
            invariant
                n == s@.len(),
                n <= k <= w,
                r@ == s@ + Seq::new((k - n) as nat, |i: int| ' '),
            decreases w - k,
        {
            push_char(&mut r, ' ');
            proof {
                assert(r@ =~= s@ + Seq::new((k + 1 - n) as nat, |i: int| ' '));
            }
            k += 1;
        }
    }
    r
}

/// `n` dashes.
fn dashes(n: usize) -> (r: String)
    ensures
        r@ == Seq::new(n as nat, |k: int| '-'),
{
    let mut r = String::new();
    let mut k: usize = 0;
    while k < n
        invariant
            k <= n,
            r@ == Seq::new(k as nat, |i: int| '-'),
        decreases n - k,
    {
        push_char(&mut r, '-');
        proof {
            assert(r@ =~= Seq::new(k as nat + 1, |i: int| '-'));
        }
        k += 1;
    }
    r
}

/// The largest byte length among the strings.
fn max_len(ss: &Vec<String>) -> (m: usize)
    ensures
        m == max_byte_len(str_views(ss@)),
{
    let mut m: usize = 0;
    let mut i: usize = 0;
    while i < ss.len()
        invariant
            i <= ss.len(),
            m == max_byte_len(str_views(ss@).take(i as int)),
        decreases ss.len() - i,
    {
        let l = ss[i].as_str().len();
        proof {
            assert(str_views(ss@).take(i as int + 1).drop_last() =~= str_views(ss@).take(i as int));
            assert(str_views(ss@)[i as int] == ss@[i as int]@);
        }
        if l > m {
            m = l;
        }
        i += 1;
    }
    proof {
        assert(str_views(ss@).take(ss.len() as int) =~= str_views(ss@));
    }
    m
}

/// Cells padded to their widths and joined by two spaces.
fn line_of(cells: &Vec<String>, widths: &Vec<usize>) -> (r: String)
    requires
        cells.len() <= widths.len(),
    ensures
        r@ == text_line(str_views(cells@), widths@),
{
    let mut parts: Vec<String> = Vec::new();
    let mut i: usize = 0;
    while i < cells.len()
        invariant
            cells.len() <= widths.len(),
            i <= cells.len(),
            str_views(parts@) == Seq::new(i as nat, |k: int| pad(str_views(cells@)[k], widths@[k])),
        decreases cells.len() - i,
    {
        let p = padded(cells[i].as_str(), widths[i]);
        let ghost before = str_views(parts@);
        parts.push(p);
        proof {
            assert(str_views(cells@)[i as int] == cells@[i as int]@);
            assert(str_views(parts@) =~= before.push(p@));
            assert(str_views(parts@) =~= Seq::new(i as nat + 1, |k: int| pad(str_views(cells@)[k], widths@[k])));
        }
        i += 1;
    }
    let mut r = String::new();
    push_joined(&mut r, &parts, "  ");
    proof {
        assert(parts@.map_values(|p: String| p@) =~= str_views(parts@));
    }
    r
}

/// The report as aligned plain text.
pub fn render_text(t: &ReportTable) -> (r: String)
    requires
        t.wf(),
    ensures
        r@ == text_text(*t),
{
    let ghost names = str_views(t.columns@);
    let n = t.columns.len();
    let mut rows: Vec<Vec<String>> = Vec::new();
    let mut k: usize = 0;
    while k < t.rows.len()
        invariant
            t.wf(),
            k <= t.rows.len(),
            rows.len() == k,
            forall|j: int| 0 <= j < k ==> str_views((#[trigger] rows@[j])@) == plain_row(t.rows@[j]@),
        decreases t.rows.len() - k,
    {
        rows.push(plain_texts(&t.rows[k]));
        k += 1;
    }
    let ghost pr = rows_of(*t).map_values(|r: Seq<ReportCell>| plain_row(r));
    proof {
        assert forall|j: int| 0 <= j < rows.len() implies #[trigger] str_views(rows@[j]@) == pr[j] by {
            assert(rows_of(*t)[j] == t.rows@[j]@);
        }
    }
    let mut out = String::new();
    if t.rows.len() == 1 {
        proof {
            assert(rows_of(*t)[0] == t.rows@[0]@);
            assert(pr[0] == plain_row(rows_of(*t)[0]));
            assert(t.rows@[0]@.len() == n);
            assert(pr[0].len() == n);
            assert(str_views(rows@[0]@) == pr[0]);
            assert(rows@[0]@.len() == n);
        }
        let w = max_len(&t.columns);
        let ghost lines = Seq::new(names.len(), |i: int| pad(names[i], w) + "  "@ + pr[0][i] + "\n"@);
        let mut i: usize = 0;
        while i < n
            invariant
                t.wf(),
                t.rows.len() == 1,
                n == t.columns.len(),
                rows.len() == 1,
                str_views(rows@[0]@) == pr[0],
                names == str_views(t.columns@),
                lines == Seq::new(names.len(), |i: int| pad(names[i], w) + "  "@ + pr[0][i] + "\n"@),
                rows@[0]@.len() == n,
                i <= n,
                out@ == concat_map(lines.take(i as int), |l: Seq<char>| l),
            decreases n - i,
        {
            let p = padded(t.columns[i].as_str(), w);
            push_str(&mut out, p.as_str());
            push_str(&mut out, "  ");
            push_str(&mut out, rows[0][i].as_str());
            push_str(&mut out, "\n");
            proof {
                assert(str_views(rows@[0]@)[i as int] == rows@[0]@[i as int]@);
                assert(names[i as int] == t.columns@[i as int]@);
                lemma_concat_map_step(lines, |l: Seq<char>| l, i as int);
            }
            i += 1;
        }
        proof {
            assert(lines.take(n as int) =~= lines);
        }
    } else {
        let mut widths: Vec<usize> = Vec::new();
        let mut i: usize = 0;
        while i < n
            invariant
                t.wf(),
                n == t.columns.len(),
                names == str_views(t.columns@),
                rows.len() == t.rows.len(),
                forall|j: int| 0 <= j < rows.len() ==> #[trigger] str_views(rows@[j]@) == pr[j],
                pr.len() == t.rows.len(),
                pr == rows_of(*t).map_values(|r: Seq<ReportCell>| plain_row(r)),
                i <= n,
                widths@ == Seq::new(i as nat, |c: int| col_width(names, pr, c)),
            decreases n - i,
        {
            let mut m: usize = 0;
            let mut j: usize = 0;
            while j < rows.len()
                invariant
                    t.wf(),
                    i < n,
                    n == t.columns.len(),
                    rows.len() == t.rows.len(),
                    forall|j: int| 0 <= j < rows.len() ==> #[trigger] str_views(rows@[j]@) == pr[j],
                    pr.len() == t.rows.len(),
                    pr == rows_of(*t).map_values(|r: Seq<ReportCell>| plain_row(r)),
                    j <= rows.len(),
                    m == max_byte_len(pr.take(j as int).map_values(|r: Seq<Seq<char>>| r[i as int])),
                decreases rows.len() - j,
            {
                proof {
                    assert(t.rows@[j as int]@.len() == n);
                    assert(rows_of(*t)[j as int] == t.rows@[j as int]@);
                    assert(pr[j as int] == plain_row(rows_of(*t)[j as int]));
                    assert(str_views(rows@[j as int]@) == pr[j as int]);
                    assert(pr[j as int].len() == n);
                    assert(rows@[j as int]@.len() == n);
                }
                let l = rows[j][i].as_str().len();
                proof {
                    let col = |r: Seq<Seq<char>>| r[i as int];
                    assert(pr.take(j as int + 1).map_values(col).drop_last() =~= pr.take(j as int).map_values(col));
                    assert(pr.take(j as int + 1).map_values(col).last() == pr[j as int][i as int]);
                    assert(str_views(rows@[j as int]@)[i as int] == rows@[j as int]@[i as int]@);
                }
                if l > m {
                    m = l;
                }
                j += 1;
            }
            let nl = t.columns[i].as_str().len();
            let wd = if nl > m { nl } else { m };
            proof {
                assert(pr.take(rows.len() as int) =~= pr);
                assert(names[i as int] == t.columns@[i as int]@);
            }
            widths.push(wd);
            proof {
                assert(widths@ =~= Seq::new(i as nat + 1, |c: int| col_width(names, pr, c)));
            }
            i += 1;
        }
        let ghost ws = widths@;
        let head = line_of(&t.columns, &widths);
        push_str(&mut out, head.as_str());
        push_str(&mut out, "\n");
        let mut ds: Vec<String> = Vec::new();
        let mut c: usize = 0;
        while c < n
            invariant
                n == widths.len(),
                c <= n,
                str_views(ds@) == Seq::new(c as nat, |i: int| Seq::new(widths@[i] as nat, |k: int| '-')),
            decreases n - c,
        {
            let d = dashes(widths[c]);
            let ghost before = str_views(ds@);
            ds.push(d);
            proof {
                assert(str_views(ds@) =~= before.push(d@));
                assert(str_views(ds@) =~= Seq::new(c as nat + 1, |i: int| Seq::new(widths@[i] as nat, |k: int| '-')));
            }
            c += 1;
        }
        push_joined(&mut out, &ds, "  ");
        push_str(&mut out, "\n");
        proof {
            assert(ds@.map_values(|p: String| p@) =~= str_views(ds@));
        }
        let ghost top = out@;
        let mut j: usize = 0;
        while j < rows.len()
            invariant
                t.wf(),
                n == t.columns.len(),
                widths@ == ws,
                ws.len() == n,
                rows.len() == t.rows.len(),
                forall|j: int| 0 <= j < rows.len() ==> #[trigger] str_views(rows@[j]@) == pr[j],
                pr.len() == t.rows.len(),
                pr == rows_of(*t).map_values(|r: Seq<ReportCell>| plain_row(r)),
                j <= rows.len(),
                out@ == top + concat_map(pr.take(j as int), |r: Seq<Seq<char>>| text_line(r, ws) + "\n"@),
            decreases rows.len() - j,
        {
            proof {
                assert(t.rows@[j as int]@.len() == n);
                assert(rows_of(*t)[j as int] == t.rows@[j as int]@);
                assert(pr[j as int] == plain_row(rows_of(*t)[j as int]));
                assert(str_views(rows@[j as int]@) == pr[j as int]);
                assert(rows@[j as int]@.len() == n);
            }
            let l = line_of(&rows[j], &widths);
            push_str(&mut out, l.as_str());
            push_str(&mut out, "\n");
            proof {
                lemma_concat_map_step(pr, |r: Seq<Seq<char>>| text_line(r, ws) + "\n"@, j as int);
                assert(out@ =~= top + concat_map(pr.take(j as int + 1), |r: Seq<Seq<char>>| text_line(r, ws) + "\n"@));
            }
            j += 1;
        }
        proof {
            assert(pr.take(rows.len() as int) =~= pr);
            assert(out@ =~= text_text(*t));
        }
    }
    out
}

/// The report in the given format.
pub fn render_report(t: &ReportTable, format: ReportFormat) -> (r: String)
    requires
        t.wf(),
    ensures
        r@ == match format {
            ReportFormat::Tsv => tsv_text(*t),
            ReportFormat::Text => text_text(*t),
            ReportFormat::Json => json_text(*t),
        },
{
    match format {
        ReportFormat::Tsv => render_tsv(t),
        ReportFormat::Text => render_text(t),
        ReportFormat::Json => render_json(t),
    }
}

} // verus!
