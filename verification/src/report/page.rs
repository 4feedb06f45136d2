//! The summary page as Markdown or as a self-contained HTML document, from
//! sections whose cells are already text.

use vstd::prelude::*;

use crate::order::chars_of;
use crate::report::summary::{section_views, Section, SectionView, SummaryFormat, Table, TableView};
use crate::text::{decimal, joined, push_char, push_joined, push_str, str_views, u64_to_decimal};

verus! {

/// `f` applied to each item of `s`, the results one after the other.
pub open spec fn concat_map<A>(s: Seq<A>, f: spec_fn(A) -> Seq<char>) -> Seq<char>
    decreases s.len(),
{
    if s.len() == 0 {
        Seq::empty()
    } else {
        concat_map(s.drop_last(), f) + f(s.last())
    }
}

/// One more item of a `concat_map`.
pub proof fn lemma_concat_map_step<A>(s: Seq<A>, f: spec_fn(A) -> Seq<char>, i: int)
    requires
        0 <= i < s.len(),
    ensures
        concat_map(s.take(i + 1), f) == concat_map(s.take(i), f) + f(s[i]),
{
    assert(s.take(i + 1).drop_last() =~= s.take(i));
    assert(s.take(i + 1).last() == s[i]);
}

/// `piece` when `s` is not empty, else nothing.
pub open spec fn if_nonempty(s: Seq<char>, piece: Seq<char>) -> Seq<char> {
    if s.len() > 0 {
        piece
    } else {
        Seq::empty()
    }
}

/// `c` as HTML text: `&`, `<` and `>` as entities.
pub open spec fn esc_char(c: char) -> Seq<char> {
    if c == '&' {
        "&amp;"@
    } else if c == '<' {
        "&lt;"@
    } else if c == '>' {
        "&gt;"@
    } else {
        seq![c]
    }
}

/// `s` with `&`, `<` and `>` written as HTML entities.
pub open spec fn esc_text(s: Seq<char>) -> Seq<char> {
    concat_map(s, |c: char| esc_char(c))
}

/// Escape `s` for HTML text: `&`, `<` and `>` become entities.
pub fn esc(s: &str) -> (r: String)
    ensures
        r@ == esc_text(s@),
{
    let cs = chars_of(s);
    let mut r = String::new();
    let mut i: usize = 0;
    while i < cs.len()
        invariant
            cs@ == s@,
            i <= cs.len(),
            r@ == esc_text(cs@.take(i as int)),
        decreases cs.len() - i,
    {
        let c = cs[i];
        if c == '&' {
            push_str(&mut r, "&amp;");
        } else if c == '<' {
            push_str(&mut r, "&lt;");
        } else if c == '>' {
            push_str(&mut r, "&gt;");
        } else {
            push_char(&mut r, c);
        }
        proof {
            lemma_concat_map_step(cs@, |c: char| esc_char(c), i as int);
            assert(r@ =~= esc_text(cs@.take(i as int + 1)));
        }
        i += 1;
    }
    proof {
        assert(cs@.take(cs.len() as int) =~= s@);
    }
    r
}

/// Escaped text holds no `<` or `>`: nothing in a page's text can open or
/// close an HTML tag.
pub proof fn lemma_escaped_has_no_tags(s: Seq<char>)
    ensures
        !esc_text(s).contains('<'),
        !esc_text(s).contains('>'),
    decreases s.len(),
{
    if s.len() > 0 {
        lemma_escaped_has_no_tags(s.drop_last());
        let c = s.last();
        let p = esc_text(s.drop_last());
        let e = esc_char(c);
        reveal_strlit("&amp;");
        reveal_strlit("&lt;");
        reveal_strlit("&gt;");
        assert(!e.contains('<') && !e.contains('>'));
        assert(esc_text(s) == p + e);
        assert forall|i: int| 0 <= i < (p + e).len() implies (p + e)[i] != '<' && (p + e)[i] != '>' by {
            if i < p.len() {
                assert((p + e)[i] == p[i]);
                assert(p.contains(p[i]));
            } else {
                assert((p + e)[i] == e[i - p.len()]);
                assert(e.contains(e[i - p.len()]));
            }
        }
    }
}

/// The page title: the one given, else `Summary: <stem>`.
pub open spec fn title_text(stem: Seq<char>, title: Option<String>) -> Seq<char> {
    match title {
        Some(t) => t@,
        None => "Summary: "@ + stem,
    }
}

/// The page title: the one given, else `Summary: <stem>`.
pub fn page_title(stem: &str, title: Option<String>) -> (r: String)
    ensures
        r@ == title_text(stem@, title),
{
    match title {
        Some(t) => t,
        None => {
            let mut r = String::from_str("Summary: ");
            push_str(&mut r, stem);
            r
        },
    }
}

// ── Markdown ────────────────────────────────────────────────────────────────

/// `n` hash marks.
pub open spec fn hashes(n: nat) -> Seq<char> {
    Seq::new(n, |i: int| '#')
}

/// A Markdown table row.
pub open spec fn md_row(cells: Seq<Seq<char>>) -> Seq<char> {
    "| "@ + joined(cells, " | "@) + " |\n"@
}

/// A Markdown table: its bold title and prose when it has them, the header
/// row, the alignment row, the rows, and a blank line.
pub open spec fn md_table(t: TableView<Seq<char>>) -> Seq<char> {
    (match t.title {
        Some(x) => "**"@ + x + "**\n\n"@,
        None => Seq::empty(),
    }) + if_nonempty(t.desc, t.desc + "\n\n"@) + md_row(t.headers) + "|"@ + joined(
        Seq::new(t.headers.len(), |i: int| " --- "@),
        "|"@,
    ) + "|\n"@ + concat_map(t.rows, |r: Seq<Seq<char>>| md_row(r)) + "\n"@
}

/// A Markdown section: a heading one level below the page title, its
/// prose, its files, and its tables.
pub open spec fn md_section(s: SectionView<Seq<char>>) -> Seq<char> {
    hashes(s.level as nat + 1) + " "@ + s.title + "\n\n"@ + if_nonempty(s.desc, s.desc + "\n\n"@) + concat_map(
        s.files,
        |f: Seq<char>| "- File: `"@ + f + "`\n"@,
    ) + (if s.files.len() > 0 {
        "\n"@
    } else {
        Seq::empty()
    }) + concat_map(s.tables, |t: TableView<Seq<char>>| md_table(t))
}

/// The Markdown page: the title, the notes as quotes, then the sections, or
/// a note that no section source file was found.
pub open spec fn md_page(title: Seq<char>, notes: Seq<Seq<char>>, sections: Seq<SectionView<Seq<char>>>) -> Seq<char> {
    "# "@ + title + "\n\n"@ + concat_map(notes, |n: Seq<char>| "> "@ + n + "\n\n"@) + if sections.len() == 0 {
        "_No section source files were found._\n"@
    } else {
        concat_map(sections, |s: SectionView<Seq<char>>| md_section(s))
    }
}


/// Append `t` (a literal or other text) to `out`; a short name for the
/// many small pieces of a page.
fn put(out: &mut String, t: &str)
    ensures
        final(out)@ == old(out)@ + t@,
{
    push_str(out, t);
}

/// Append one Markdown table row.
fn md_row_into(out: &mut String, cells: &Vec<String>)
    ensures
        final(out)@ == old(out)@ + md_row(str_views(cells@)),
{
    let ghost start = out@;
    put(out, "| ");
    push_joined(out, cells, " | ");
    put(out, " |\n");
    proof {
        assert(cells@.map_values(|p: String| p@) =~= str_views(cells@));
        assert(out@ =~= start + md_row(str_views(cells@)));
    }
}

/// `n` copies of `piece`.
fn copies(piece: &str, n: usize) -> (r: Vec<String>)
    ensures
        str_views(r@) == Seq::new(n as nat, |i: int| piece@),
{
    let mut r: Vec<String> = Vec::new();
    let mut i: usize = 0;
    while i < n
        invariant
            i <= n,
            str_views(r@) == Seq::new(i as nat, |j: int| piece@),
        decreases n - i,
    {
        let ghost before = str_views(r@);
        let x = String::from_str(piece);
        r.push(x);
        proof {
            assert(str_views(r@) =~= before.push(x@));
            assert(str_views(r@) =~= Seq::new(i as nat + 1, |j: int| piece@));
        }
        i += 1;
    }
    r
}

/// The title and prose lines of a Markdown table.
pub open spec fn md_table_head(t: TableView<Seq<char>>) -> Seq<char> {
    (match t.title {
        Some(x) => "**"@ + x + "**\n\n"@,
        None => Seq::empty(),
    }) + if_nonempty(t.desc, t.desc + "\n\n"@)
}

/// The alignment row of a Markdown table with `n` columns.
pub open spec fn md_rule(n: nat) -> Seq<char> {
    "|"@ + joined(Seq::new(n, |i: int| " --- "@), "|"@) + "|\n"@
}

/// Append the title and prose of a Markdown table.
fn md_table_head_into(out: &mut String, t: &Table<String>)
    ensures
        final(out)@ == old(out)@ + md_table_head(t@),
{
    let ghost start = out@;
    match &t.title {
        Some(x) => {
            put(out, "**");
            put(out, x.as_str());
            put(out, "**\n\n");
        },
        None => {},
    }
    let ghost mid = out@;
    if t.desc.unicode_len() > 0 {
        put(out, t.desc.as_str());
        put(out, "\n\n");
    }
    proof {
        assert(out@ =~= start + md_table_head(t@));
    }
}

/// Append the alignment row of a Markdown table with `n` columns.
fn md_rule_into(out: &mut String, n: usize)
    ensures
        final(out)@ == old(out)@ + md_rule(n as nat),
{
    let ghost start = out@;
    put(out, "|");
    let dashes = copies(" --- ", n);
    push_joined(out, &dashes, "|");
    put(out, "|\n");
    proof {
        assert(dashes@.map_values(|p: String| p@) =~= str_views(dashes@));
        assert(out@ =~= start + md_rule(n as nat));
    }
}

/// Append the rows of a Markdown table.
fn md_rows_into(out: &mut String, t: &Table<String>)
    ensures
        final(out)@ == old(out)@ + concat_map(t@.rows, |r: Seq<Seq<char>>| md_row(r)),
{
    let ghost head = out@;
    let ghost rows = t@.rows;
    let mut i: usize = 0;
    while i < t.rows.len()
        invariant
            rows == t@.rows,
            i <= t.rows.len(),
            out@ == head + concat_map(rows.take(i as int), |r: Seq<Seq<char>>| md_row(r)),
        decreases t.rows.len() - i,
    {
        md_row_into(out, &t.rows[i]);
        proof {
            assert(rows[i as int] == crate::report::summary::cell_views(t.rows@[i as int]@));
            assert(crate::report::summary::cell_views(t.rows@[i as int]@) =~= str_views(t.rows@[i as int]@));
            lemma_concat_map_step(rows, |r: Seq<Seq<char>>| md_row(r), i as int);
            assert(out@ =~= head + concat_map(rows.take(i as int + 1), |r: Seq<Seq<char>>| md_row(r)));
        }
        i += 1;
    }
    proof {
        assert(rows.take(t.rows.len() as int) =~= rows);
    }
}

/// Append a Markdown table.
fn md_table_into(out: &mut String, t: &Table<String>)
    ensures
        final(out)@ == old(out)@ + md_table(t@),
{
    let ghost start = out@;
    md_table_head_into(out, t);
    let ghost a1 = out@;
    md_row_into(out, &t.headers);
    let ghost a2 = out@;
    md_rule_into(out, t.headers.len());
    let ghost a3 = out@;
    md_rows_into(out, t);
    let ghost a4 = out@;
    put(out, "\n");
    proof {
        let v = t@;
        assert(v.headers == str_views(t.headers@));
        let p1 = md_table_head(v);
        let p2 = md_row(v.headers);
        let p3 = md_rule(v.headers.len());
        let p4 = concat_map(v.rows, |r: Seq<Seq<char>>| md_row(r));
        assert(md_table(v) =~= p1 + p2 + p3 + p4 + "\n"@);
        assert(a2 =~= start + (p1 + p2));
        assert(a3 =~= start + (p1 + p2 + p3));
        assert(a4 =~= start + (p1 + p2 + p3 + p4));
        assert(out@ =~= start + md_table(v));
    }
}

/// The heading line and prose of a Markdown section.
pub open spec fn md_section_head(s: SectionView<Seq<char>>) -> Seq<char> {
    hashes(s.level as nat + 1) + " "@ + s.title + "\n\n"@ + if_nonempty(s.desc, s.desc + "\n\n"@)
}

/// The file lines of a Markdown section.
pub open spec fn md_files(files: Seq<Seq<char>>) -> Seq<char> {
    concat_map(files, |f: Seq<char>| "- File: `"@ + f + "`\n"@) + if files.len() > 0 {
        "\n"@
    } else {
        Seq::empty()
    }
}

/// Append the heading line and prose of a Markdown section.
fn md_section_head_into(out: &mut String, s: &Section<String>)
    ensures
        final(out)@ == old(out)@ + md_section_head(s@),
{
    let ghost start = out@;
    let n = s.level as usize + 1;
    let mut k: usize = 0;
    while k < n
        invariant
            n == s.level + 1,
            k <= n,
            out@ == start + hashes(k as nat),
        decreases n - k,
    {
        push_char(out, '#');
        proof {
            assert(hashes(k as nat + 1) =~= hashes(k as nat).push('#'));
        }
        k += 1;
    }
    put(out, " ");
    put(out, s.title.as_str());
    put(out, "\n\n");
    let ghost mid = out@;
    if s.desc.unicode_len() > 0 {
        put(out, s.desc.as_str());
        put(out, "\n\n");
    }
    proof {
        assert(out@ =~= start + md_section_head(s@));
    }
}

/// Append the file lines of a Markdown section.
fn md_files_into(out: &mut String, files_v: &Vec<String>)
    ensures
        final(out)@ == old(out)@ + md_files(str_views(files_v@)),
{
    let ghost mid = out@;
    let ghost files = str_views(files_v@);
    let mut i: usize = 0;
    while i < files_v.len()
        invariant
            files == str_views(files_v@),
            i <= files_v.len(),
            out@ == mid + concat_map(files.take(i as int), |f: Seq<char>| "- File: `"@ + f + "`\n"@),
        decreases files_v.len() - i,
    {
        put(out, "- File: `");
        put(out, files_v[i].as_str());
        put(out, "`\n");
        proof {
            lemma_concat_map_step(files, |f: Seq<char>| "- File: `"@ + f + "`\n"@, i as int);
            assert(out@ =~= mid + concat_map(files.take(i as int + 1), |f: Seq<char>| "- File: `"@ + f + "`\n"@));
        }
        i += 1;
    }
    proof {
        assert(files.take(files_v.len() as int) =~= files);
    }
    let ghost mid2 = out@;
    if files_v.len() > 0 {
        put(out, "\n");
    }
    proof {
        assert(out@ =~= mid + md_files(files));
    }
}

/// Append the tables of a section as Markdown.
fn md_tables_into(out: &mut String, s: &Section<String>)
    ensures
        final(out)@ == old(out)@ + concat_map(s@.tables, |t: TableView<Seq<char>>| md_table(t)),
{
    let ghost mid2 = out@;
    let ghost tables = s@.tables;
    let mut j: usize = 0;
    while j < s.tables.len()
        invariant
            tables == s@.tables,
            j <= s.tables.len(),
            out@ == mid2 + concat_map(tables.take(j as int), |t: TableView<Seq<char>>| md_table(t)),
        decreases s.tables.len() - j,
    {
        md_table_into(out, &s.tables[j]);
        proof {
            assert(tables[j as int] == s.tables@[j as int]@);
            lemma_concat_map_step(tables, |t: TableView<Seq<char>>| md_table(t), j as int);
            assert(out@ =~= mid2 + concat_map(tables.take(j as int + 1), |t: TableView<Seq<char>>| md_table(t)));
        }
        j += 1;
    }
    proof {
        assert(tables.take(s.tables.len() as int) =~= tables);
    }
}

/// Append a Markdown section.
fn md_section_into(out: &mut String, s: &Section<String>)
    ensures
        final(out)@ == old(out)@ + md_section(s@),
{
    let ghost start = out@;
    md_section_head_into(out, s);
    let ghost a1 = out@;
    md_files_into(out, &s.files);
    let ghost a2 = out@;
    md_tables_into(out, s);
    proof {
        let v = s@;
        let p1 = md_section_head(v);
        let p2 = md_files(v.files);
        let p3 = concat_map(v.tables, |t: TableView<Seq<char>>| md_table(t));
        assert(md_section(v) =~= p1 + p2 + p3);
        assert(a2 =~= start + (p1 + p2));
        assert(out@ =~= start + md_section(v));
    }
}

/// The summary page as Markdown.
pub fn render_md(title: &str, notes: &Vec<String>, sections: &Vec<Section<String>>) -> (r: String)
    ensures
        r@ == md_page(title@, str_views(notes@), section_views(sections@)),
{
    let mut out = String::new();
    put(&mut out, "# ");
    put(&mut out, title);
    put(&mut out, "\n\n");
    let ghost head = out@;
    let ghost nv = str_views(notes@);
    let mut i: usize = 0;
    while i < notes.len()
        invariant
            nv == str_views(notes@),
            i <= notes.len(),
            out@ == head + concat_map(nv.take(i as int), |n: Seq<char>| "> "@ + n + "\n\n"@),
        decreases notes.len() - i,
    {
        put(&mut out, "> ");
        put(&mut out, notes[i].as_str());
        put(&mut out, "\n\n");
        proof {
            lemma_concat_map_step(nv, |n: Seq<char>| "> "@ + n + "\n\n"@, i as int);
            assert(out@ =~= head + concat_map(nv.take(i as int + 1), |n: Seq<char>| "> "@ + n + "\n\n"@));
        }
        i += 1;
    }
    proof {
        assert(nv.take(notes.len() as int) =~= nv);
    }
    let ghost mid = out@;
    let ghost sv = section_views(sections@);
    if sections.len() == 0 {
        put(&mut out, "_No section source files were found._\n");
    } else {
        let mut j: usize = 0;
        while j < sections.len()
            invariant
                sv == section_views(sections@),
                j <= sections.len(),
                out@ == mid + concat_map(sv.take(j as int), |s: SectionView<Seq<char>>| md_section(s)),
            decreases sections.len() - j,
        {
            md_section_into(&mut out, &sections[j]);
            proof {
                lemma_concat_map_step(sv, |s: SectionView<Seq<char>>| md_section(s), j as int);
                assert(out@ =~= mid + concat_map(sv.take(j as int + 1), |s: SectionView<Seq<char>>| md_section(s)));
            }
            j += 1;
        }
        proof {
            assert(sv.take(sections.len() as int) =~= sv);
        }
    }
    proof {
        assert(out@ =~= md_page(title@, nv, sv));
    }
    out
}


// ── HTML ────────────────────────────────────────────────────────────────────

/// The style sheet of the HTML page.
pub const CSS: &'static str = "body{font-family:system-ui,-apple-system,Segoe UI,Roboto,sans-serif;\
     max-width:60rem;margin:2rem auto;padding:0 1rem;color:#1a1a1a;line-height:1.5}\n\
     h1{border-bottom:2px solid #ccc;padding-bottom:.2em}\n\
     h2{margin-top:2rem;border-bottom:1px solid #e0e0e0;padding-bottom:.2em}\n\
     table{border-collapse:collapse;margin:.5rem 0 1.5rem}\n\
     th,td{border:1px solid #ccc;padding:.35rem .7rem;text-align:left}\n\
     th{background:#f2f2f2}\n\
     td:nth-child(n+2){text-align:right;font-variant-numeric:tabular-nums}\n\
     .files{color:#555;font-size:.9em;list-style:none;padding-left:0}\n\
     .files code{background:#f5f5f5;padding:.1em .3em;border-radius:3px}\n\
     .tabletitle{font-weight:600;margin:.5rem 0 .2rem}\n\
     .desc{margin:.5rem 0;max-width:48rem}\n\
     .note{border-left:4px solid #b0c4de;background:#f7fafd;margin:.6rem 0;\
     padding:.5rem .9rem}\n";

/// A table cell in HTML.
pub open spec fn html_cell(c: Seq<char>) -> Seq<char> {
    "<td>"@ + esc_text(c) + "</td>"@
}

/// A table row in HTML.
pub open spec fn html_row(r: Seq<Seq<char>>) -> Seq<char> {
    "<tr>"@ + concat_map(r, |c: Seq<char>| html_cell(c)) + "</tr>\n"@
}

/// The title and prose paragraphs of an HTML table.
pub open spec fn html_table_head(t: TableView<Seq<char>>) -> Seq<char> {
    (match t.title {
        Some(x) => "<p class=\"tabletitle\">"@ + esc_text(x) + "</p>\n"@,
        None => Seq::empty(),
    }) + if_nonempty(t.desc, "<p class=\"desc\">"@ + esc_text(t.desc) + "</p>\n"@)
}

/// A table in HTML: title and prose, header cells, rows.
pub open spec fn html_table(t: TableView<Seq<char>>) -> Seq<char> {
    html_table_head(t) + "<table>\n<thead><tr>"@ + concat_map(t.headers, |h: Seq<char>| "<th>"@ + esc_text(h) + "</th>"@)
        + "</tr></thead>\n<tbody>\n"@ + concat_map(t.rows, |r: Seq<Seq<char>>| html_row(r)) + "</tbody>\n</table>\n"@
}

/// The heading and prose of an HTML section, one level below the page's
/// `<h1>` title.
pub open spec fn html_section_head(s: SectionView<Seq<char>>) -> Seq<char> {
    let tag = "h"@ + decimal(s.level as nat + 1);
    "<"@ + tag + ">"@ + esc_text(s.title) + "</"@ + tag + ">\n"@ + if_nonempty(
        s.desc,
        "<p class=\"desc\">"@ + esc_text(s.desc) + "</p>\n"@,
    )
}

/// The file list of an HTML section, when it has files.
pub open spec fn html_files(files: Seq<Seq<char>>) -> Seq<char> {
    if files.len() > 0 {
        "<ul class=\"files\">\n"@ + concat_map(files, |f: Seq<char>| "<li>File: <code>"@ + esc_text(f) + "</code></li>\n"@)
            + "</ul>\n"@
    } else {
        Seq::empty()
    }
}

/// An HTML section.
pub open spec fn html_section(s: SectionView<Seq<char>>) -> Seq<char> {
    html_section_head(s) + html_files(s.files) + concat_map(s.tables, |t: TableView<Seq<char>>| html_table(t))
}

/// The opening of the HTML page, up to the title heading.
pub open spec fn html_head(title: Seq<char>) -> Seq<char> {
    "<!DOCTYPE html>\n<html lang=\"en\">\n<head>\n<meta charset=\"utf-8\">\n"@ + "<title>"@ + esc_text(title)
        + "</title>\n"@ + "<style>\n"@ + CSS@ + "</style>\n</head>\n<body>\n"@ + "<h1>"@ + esc_text(title) + "</h1>\n"@
}

/// The HTML page: head and title, the notes, the sections (or a note that
/// no section source file was found), and the closing tags.
pub open spec fn html_page(title: Seq<char>, notes: Seq<Seq<char>>, sections: Seq<SectionView<Seq<char>>>) -> Seq<char> {
    html_head(title) + concat_map(notes, |n: Seq<char>| "<p class=\"note\">"@ + esc_text(n) + "</p>\n"@) + (if sections.len()
        == 0 {
        "<p><em>No section source files were found.</em></p>\n"@
    } else {
        Seq::empty()
    }) + concat_map(sections, |s: SectionView<Seq<char>>| html_section(s)) + "</body>\n</html>\n"@
}

/// Append `s` escaped for HTML.
fn put_esc(out: &mut String, s: &str)
    ensures
        final(out)@ == old(out)@ + esc_text(s@),
{
    let e = esc(s);
    push_str(out, e.as_str());
}

/// Append an HTML table row.
fn html_row_into(out: &mut String, cells: &Vec<String>)
    ensures
        final(out)@ == old(out)@ + html_row(str_views(cells@)),
{
    let ghost start = out@;
    put(out, "<tr>");
    let ghost mid = out@;
    let ghost cv = str_views(cells@);
    let mut i: usize = 0;
    while i < cells.len()
        invariant
            cv == str_views(cells@),
            i <= cells.len(),
            out@ == mid + concat_map(cv.take(i as int), |c: Seq<char>| html_cell(c)),
        decreases cells.len() - i,
    {
        put(out, "<td>");
        put_esc(out, cells[i].as_str());
        put(out, "</td>");
        proof {
            lemma_concat_map_step(cv, |c: Seq<char>| html_cell(c), i as int);
            assert(out@ =~= mid + concat_map(cv.take(i as int + 1), |c: Seq<char>| html_cell(c)));
        }
        i += 1;
    }
    put(out, "</tr>\n");
    proof {
        assert(cv.take(cells.len() as int) =~= cv);
        assert(out@ =~= start + html_row(cv));
    }
}

/// Append the title and prose of an HTML table.
fn html_table_head_into(out: &mut String, t: &Table<String>)
    ensures
        final(out)@ == old(out)@ + html_table_head(t@),
{
    let ghost start = out@;
    match &t.title {
        Some(x) => {
            put(out, "<p class=\"tabletitle\">");
            put_esc(out, x.as_str());
            put(out, "</p>\n");
        },
        None => {},
    }
    let ghost mid = out@;
    if t.desc.unicode_len() > 0 {
        put(out, "<p class=\"desc\">");
        put_esc(out, t.desc.as_str());
        put(out, "</p>\n");
    }
    proof {
        assert(out@ =~= start + html_table_head(t@));
    }
}

/// Append the header cells of an HTML table.
fn html_headers_into(out: &mut String, headers: &Vec<String>)
    ensures
        final(out)@ == old(out)@ + concat_map(str_views(headers@), |h: Seq<char>| "<th>"@ + esc_text(h) + "</th>"@),
{
    let ghost mid = out@;
    let ghost hv = str_views(headers@);
    let mut i: usize = 0;
    while i < headers.len()
        invariant
            hv == str_views(headers@),
            i <= headers.len(),
            out@ == mid + concat_map(hv.take(i as int), |h: Seq<char>| "<th>"@ + esc_text(h) + "</th>"@),
        decreases headers.len() - i,
    {
        put(out, "<th>");
        put_esc(out, headers[i].as_str());
        put(out, "</th>");
        proof {
            lemma_concat_map_step(hv, |h: Seq<char>| "<th>"@ + esc_text(h) + "</th>"@, i as int);
            assert(out@ =~= mid + concat_map(hv.take(i as int + 1), |h: Seq<char>| "<th>"@ + esc_text(h) + "</th>"@));
        }
        i += 1;
    }
    proof {
        assert(hv.take(headers.len() as int) =~= hv);
    }
}

/// Append the rows of an HTML table.
fn html_rows_into(out: &mut String, t: &Table<String>)
    ensures
        final(out)@ == old(out)@ + concat_map(t@.rows, |r: Seq<Seq<char>>| html_row(r)),
{
    let ghost head = out@;
    let ghost rows = t@.rows;
    let mut i: usize = 0;
    while i < t.rows.len()
        invariant
            rows == t@.rows,
            i <= t.rows.len(),
            out@ == head + concat_map(rows.take(i as int), |r: Seq<Seq<char>>| html_row(r)),
        decreases t.rows.len() - i,
    {
        html_row_into(out, &t.rows[i]);
        proof {
            assert(rows[i as int] == crate::report::summary::cell_views(t.rows@[i as int]@));
            assert(crate::report::summary::cell_views(t.rows@[i as int]@) =~= str_views(t.rows@[i as int]@));
            lemma_concat_map_step(rows, |r: Seq<Seq<char>>| html_row(r), i as int);
            assert(out@ =~= head + concat_map(rows.take(i as int + 1), |r: Seq<Seq<char>>| html_row(r)));
        }
        i += 1;
    }
    proof {
        assert(rows.take(t.rows.len() as int) =~= rows);
    }
}

/// Append an HTML table.
fn html_table_into(out: &mut String, t: &Table<String>)
    ensures
        final(out)@ == old(out)@ + html_table(t@),
{
    let ghost start = out@;
    html_table_head_into(out, t);
    let ghost a1 = out@;
    put(out, "<table>\n<thead><tr>");
    html_headers_into(out, &t.headers);
    let ghost a2 = out@;
    put(out, "</tr></thead>\n<tbody>\n");
    let ghost a3 = out@;
    html_rows_into(out, t);
    let ghost a4 = out@;
    put(out, "</tbody>\n</table>\n");
    proof {
        let v = t@;
        assert(v.headers == str_views(t.headers@));
        let p1 = html_table_head(v);
        let p2 = concat_map(v.headers, |h: Seq<char>| "<th>"@ + esc_text(h) + "</th>"@);
        let p3 = concat_map(v.rows, |r: Seq<Seq<char>>| html_row(r));
        assert(html_table(v) =~= p1 + "<table>\n<thead><tr>"@ + p2 + "</tr></thead>\n<tbody>\n"@ + p3
            + "</tbody>\n</table>\n"@);
        assert(a2 =~= start + (p1 + "<table>\n<thead><tr>"@ + p2));
        assert(a3 =~= start + (p1 + "<table>\n<thead><tr>"@ + p2 + "</tr></thead>\n<tbody>\n"@));
        assert(a4 =~= start + (p1 + "<table>\n<thead><tr>"@ + p2 + "</tr></thead>\n<tbody>\n"@ + p3));
        assert(out@ =~= start + html_table(v));
    }
}

/// Append the heading and prose of an HTML section.
fn html_section_head_into(out: &mut String, s: &Section<String>)
    requires
        s.level < 255,
    ensures
        final(out)@ == old(out)@ + html_section_head(s@),
{
    let ghost start = out@;
    let mut tag = String::from_str("h");
    let num = u64_to_decimal((s.level + 1) as u64);
    push_str(&mut tag, num.as_str());
    put(out, "<");
    put(out, tag.as_str());
    put(out, ">");
    put_esc(out, s.title.as_str());
    put(out, "</");
    put(out, tag.as_str());
    put(out, ">\n");
    let ghost mid = out@;
    if s.desc.unicode_len() > 0 {
        put(out, "<p class=\"desc\">");
        put_esc(out, s.desc.as_str());
        put(out, "</p>\n");
    }
    proof {
        assert(tag@ =~= "h"@ + decimal(s.level as nat + 1));
        assert(out@ =~= start + html_section_head(s@));
    }
}

/// Append the file list of an HTML section.
fn html_files_into(out: &mut String, files_v: &Vec<String>)
    ensures
        final(out)@ == old(out)@ + html_files(str_views(files_v@)),
{
    let ghost start = out@;
    let ghost files = str_views(files_v@);
    if files_v.len() > 0 {
        put(out, "<ul class=\"files\">\n");
        let ghost mid = out@;
        let mut i: usize = 0;
        while i < files_v.len()
            invariant
                files == str_views(files_v@),
                i <= files_v.len(),
                out@ == mid + concat_map(files.take(i as int), |f: Seq<char>| "<li>File: <code>"@ + esc_text(f) + "</code></li>\n"@),
            decreases files_v.len() - i,
        {
            put(out, "<li>File: <code>");
            put_esc(out, files_v[i].as_str());
            put(out, "</code></li>\n");
            proof {
                lemma_concat_map_step(files, |f: Seq<char>| "<li>File: <code>"@ + esc_text(f) + "</code></li>\n"@, i as int);
                assert(out@ =~= mid + concat_map(files.take(i as int + 1), |f: Seq<char>| "<li>File: <code>"@ + esc_text(f) + "</code></li>\n"@));
            }
            i += 1;
        }
        put(out, "</ul>\n");
        proof {
            assert(files.take(files_v.len() as int) =~= files);
            assert(out@ =~= start + html_files(files));
        }
    } else {
        proof {
            assert(out@ =~= start + html_files(files));
        }
    }
}

/// Append the tables of a section as HTML.
fn html_tables_into(out: &mut String, s: &Section<String>)
    ensures
        final(out)@ == old(out)@ + concat_map(s@.tables, |t: TableView<Seq<char>>| html_table(t)),
{
    let ghost mid2 = out@;
    let ghost tables = s@.tables;
    let mut j: usize = 0;
    while j < s.tables.len()
        invariant
            tables == s@.tables,
            j <= s.tables.len(),
            out@ == mid2 + concat_map(tables.take(j as int), |t: TableView<Seq<char>>| html_table(t)),
        decreases s.tables.len() - j,
    {
        html_table_into(out, &s.tables[j]);
        proof {
            assert(tables[j as int] == s.tables@[j as int]@);
            lemma_concat_map_step(tables, |t: TableView<Seq<char>>| html_table(t), j as int);
            assert(out@ =~= mid2 + concat_map(tables.take(j as int + 1), |t: TableView<Seq<char>>| html_table(t)));
        }
        j += 1;
    }
    proof {
        assert(tables.take(s.tables.len() as int) =~= tables);
    }
}

/// Append an HTML section.
fn html_section_into(out: &mut String, s: &Section<String>)
    requires
        s.level < 255,
    ensures
        final(out)@ == old(out)@ + html_section(s@),
{
    let ghost start = out@;
    html_section_head_into(out, s);
    let ghost a1 = out@;
    html_files_into(out, &s.files);
    let ghost a2 = out@;
    html_tables_into(out, s);
    proof {
        let v = s@;
        let p1 = html_section_head(v);
        let p2 = html_files(v.files);
        let p3 = concat_map(v.tables, |t: TableView<Seq<char>>| html_table(t));
        assert(html_section(v) =~= p1 + p2 + p3);
        assert(a2 =~= start + (p1 + p2));
        assert(out@ =~= start + html_section(v));
    }
}

/// The summary page as a self-contained HTML document. Every section's
/// level is below 255 (its heading is one level deeper).
pub fn render_html(title: &str, notes: &Vec<String>, sections: &Vec<Section<String>>) -> (r: String)
    requires
        forall|k: int| 0 <= k < sections.len() ==> (#[trigger] sections@[k]).level < 255,
    ensures
        r@ == html_page(title@, str_views(notes@), section_views(sections@)),
{
    let mut out = String::new();
    put(&mut out, "<!DOCTYPE html>\n<html lang=\"en\">\n<head>\n<meta charset=\"utf-8\">\n");
    put(&mut out, "<title>");
    put_esc(&mut out, title);
    put(&mut out, "</title>\n");
    put(&mut out, "<style>\n");
    put(&mut out, CSS);
    put(&mut out, "</style>\n</head>\n<body>\n");
    put(&mut out, "<h1>");
    put_esc(&mut out, title);
    put(&mut out, "</h1>\n");
    proof {
        assert(out@ =~= html_head(title@));
    }
    let ghost head = out@;
    let ghost nv = str_views(notes@);
    let mut i: usize = 0;
    while i < notes.len()
        invariant
            nv == str_views(notes@),
            i <= notes.len(),
            out@ == head + concat_map(nv.take(i as int), |n: Seq<char>| "<p class=\"note\">"@ + esc_text(n) + "</p>\n"@),
        decreases notes.len() - i,
    {
        put(&mut out, "<p class=\"note\">");
        put_esc(&mut out, notes[i].as_str());
        put(&mut out, "</p>\n");
        proof {
            lemma_concat_map_step(nv, |n: Seq<char>| "<p class=\"note\">"@ + esc_text(n) + "</p>\n"@, i as int);
            assert(out@ =~= head + concat_map(nv.take(i as int + 1), |n: Seq<char>| "<p class=\"note\">"@ + esc_text(n) + "</p>\n"@));
        }
        i += 1;
    }
    proof {
        assert(nv.take(notes.len() as int) =~= nv);
    }
    let ghost a1 = out@;
    if sections.len() == 0 {
        put(&mut out, "<p><em>No section source files were found.</em></p>\n");
    }
    let ghost mid = out@;
    let ghost sv = section_views(sections@);
    let mut j: usize = 0;
    while j < sections.len()
        invariant
            sv == section_views(sections@),
            forall|k: int| 0 <= k < sections.len() ==> (#[trigger] sections@[k]).level < 255,
            j <= sections.len(),
            out@ == mid + concat_map(sv.take(j as int), |s: SectionView<Seq<char>>| html_section(s)),
        decreases sections.len() - j,
    {
        html_section_into(&mut out, &sections[j]);
        proof {
            lemma_concat_map_step(sv, |s: SectionView<Seq<char>>| html_section(s), j as int);
            assert(out@ =~= mid + concat_map(sv.take(j as int + 1), |s: SectionView<Seq<char>>| html_section(s)));
        }
        j += 1;
    }
    let ghost a3 = out@;
    put(&mut out, "</body>\n</html>\n");
    proof {
        assert(sv.take(sections.len() as int) =~= sv);
        let p1 = html_head(title@);
        let p2 = concat_map(nv, |n: Seq<char>| "<p class=\"note\">"@ + esc_text(n) + "</p>\n"@);
        let p3: Seq<char> = if sv.len() == 0 {
            "<p><em>No section source files were found.</em></p>\n"@
        } else {
            Seq::empty()
        };
        let p4 = concat_map(sv, |s: SectionView<Seq<char>>| html_section(s));
        assert(html_page(title@, nv, sv) =~= p1 + p2 + p3 + p4 + "</body>\n</html>\n"@);
        assert(mid =~= p1 + p2 + p3);
        assert(a3 =~= p1 + p2 + p3 + p4);
        assert(out@ =~= html_page(title@, nv, sv));
    }
    out
}


/// The summary page in the given format, titled `title` (or
/// `Summary: <stem>` when no title is given).
pub open spec fn page_text(
    stem: Seq<char>,
    title: Option<String>,
    notes: Seq<Seq<char>>,
    format: SummaryFormat,
    sections: Seq<SectionView<Seq<char>>>,
) -> Seq<char> {
    match format {
        SummaryFormat::Md => md_page(title_text(stem, title), notes, sections),
        SummaryFormat::Html => html_page(title_text(stem, title), notes, sections),
    }
}

/// Render the summary page of `stem` in the given format. For HTML every
/// section's level is below 255.
pub fn render_page(
    stem: &str,
    title: Option<String>,
    notes: &Vec<String>,
    format: SummaryFormat,
    sections: &Vec<Section<String>>,
) -> (r: String)
    requires
        format == SummaryFormat::Html ==> forall|k: int| 0 <= k < sections.len() ==> (#[trigger] sections@[k]).level < 255,
    ensures
        r@ == page_text(stem@, title, str_views(notes@), format, section_views(sections@)),
{
    let t = page_title(stem, title);
    match format {
        SummaryFormat::Md => render_md(t.as_str(), notes, sections),
        SummaryFormat::Html => render_html(t.as_str(), notes, sections),
    }
}

} // verus!
