//! The tab-separated files the pipeline's report steps write: a header line of
//! column names, then one line per record. Lines end in `\n` or `\r\n`; blank
//! record lines are skipped.

use vstd::prelude::*;

use crate::order::chars_of;
use crate::text::{push_char, str_views};

verus! {

/// The fields of `s` between the separators `sep`, as `str::split` gives them:
/// read left to right, each separator closes the current field and opens a
/// new, empty one.
pub open spec fn split_on(s: Seq<char>, sep: char) -> Seq<Seq<char>>
    decreases s.len(),
{
    if s.len() == 0 {
        seq![Seq::empty()]
    } else {
        let prev = split_on(s.drop_last(), sep);
        if s.last() == sep {
            prev.push(Seq::empty())
        } else {
            prev.update(prev.len() - 1, prev.last().push(s.last()))
        }
    }
}

/// A line without the `\r` of a `\r\n` line ending.
pub open spec fn strip_cr(l: Seq<char>) -> Seq<char> {
    if l.len() > 0 && l.last() == '\r' {
        l.drop_last()
    } else {
        l
    }
}

/// Splitting gives at least one field.
proof fn lemma_split_nonempty(s: Seq<char>, sep: char)
    ensures
        split_on(s, sep).len() >= 1,
    decreases s.len(),
{
    if s.len() > 0 {
        lemma_split_nonempty(s.drop_last(), sep);
    }
}

/// The lines of `s`, as `str::lines` gives them: split at `\n`, each line
/// that a `\n` ends loses a `\r` before it, and a final empty line (after a
/// closing `\n`, or of an empty text) is not a line.
pub open spec fn text_lines(s: Seq<char>) -> Seq<Seq<char>> {
    let parts = split_on(s, '\n');
    let body = parts.drop_last().map_values(|l: Seq<char>| strip_cr(l));
    if parts.last().len() == 0 {
        body
    } else {
        body.push(parts.last())
    }
}

/// The column names: the fields of the first line, none when there is no line.
pub open spec fn tsv_header(s: Seq<char>) -> Seq<Seq<char>> {
    let ls = text_lines(s);
    if ls.len() == 0 {
        Seq::empty()
    } else {
        split_on(ls[0], '\t')
    }
}

/// The records of the given lines: the fields of each non-empty line.
pub open spec fn records(ls: Seq<Seq<char>>) -> Seq<Seq<Seq<char>>>
    decreases ls.len(),
{
    if ls.len() == 0 {
        Seq::empty()
    } else {
        let prev = records(ls.drop_last());
        if ls.last().len() == 0 {
            prev
        } else {
            prev.push(split_on(ls.last(), '\t'))
        }
    }
}

/// The records of a file: those of every line after the header line.
pub open spec fn tsv_rows(s: Seq<char>) -> Seq<Seq<Seq<char>>> {
    let ls = text_lines(s);
    if ls.len() == 0 {
        Seq::empty()
    } else {
        records(ls.skip(1))
    }
}

/// The views of the rows of a table.
pub open spec fn row_views(rows: Seq<Vec<String>>) -> Seq<Seq<Seq<char>>> {
    rows.map_values(|r: Vec<String>| str_views(r@))
}

/// The pieces of `cs` that the given ranges cover.
pub open spec fn range_views(cs: Seq<char>, rs: Seq<(usize, usize)>) -> Seq<Seq<char>> {
    rs.map_values(|r: (usize, usize)| cs.subrange(r.0 as int, r.1 as int))
}

/// A parsed tab-separated file: the column names and the records.
#[derive(Debug)]
pub struct Tsv {
    pub header: Vec<String>,
    pub rows: Vec<Vec<String>>,
}

/// The fields of `cs[lo..hi]` between the separators `sep`.
pub(crate) fn split_range(cs: &Vec<char>, lo: usize, hi: usize, sep: char) -> (r: Vec<String>)
    requires
        lo <= hi <= cs.len(),
    ensures
        str_views(r@) == split_on(cs@.subrange(lo as int, hi as int), sep),
{
    let mut parts: Vec<String> = Vec::new();
    let mut cur = String::new();
    let mut i = lo;
    proof {
        assert(cs@.subrange(lo as int, lo as int) =~= Seq::<char>::empty());
        assert(str_views(parts@).push(cur@) =~= seq![Seq::<char>::empty()]);
    }
    while i < hi
        invariant
            lo <= i <= hi <= cs.len(),
            str_views(parts@).push(cur@) == split_on(cs@.subrange(lo as int, i as int), sep),
        decreases hi - i,
    {
        let ghost s1 = cs@.subrange(lo as int, i as int + 1);
        proof {
            assert(s1.drop_last() =~= cs@.subrange(lo as int, i as int));
            assert(s1.last() == cs@[i as int]);
        }
        let c = cs[i];
        if c == sep {
            let ghost before = str_views(parts@);
            parts.push(cur);
            cur = String::new();
            proof {
                assert(str_views(parts@) =~= before.push(str_views(parts@).last()));
                assert(str_views(parts@).push(cur@) =~= split_on(s1, sep));
            }
        } else {
            push_char(&mut cur, c);
            proof {
                assert(str_views(parts@).push(cur@) =~= split_on(s1, sep));
            }
        }
        i += 1;
    }
    let ghost before = str_views(parts@);
    parts.push(cur);
    proof {
        assert(str_views(parts@) =~= before.push(str_views(parts@).last()));
    }
    parts
}

/// The ranges of the fields of `cs` between the separators `sep`.
fn split_ranges(cs: &Vec<char>, sep: char) -> (r: Vec<(usize, usize)>)
    ensures
        range_views(cs@, r@) == split_on(cs@, sep),
        forall|k: int| 0 <= k < r.len() ==> (#[trigger] r@[k]).0 <= r@[k].1 && r@[k].1 <= cs.len(),
{
    let mut rs: Vec<(usize, usize)> = Vec::new();
    let mut start: usize = 0;
    let mut i: usize = 0;
    proof {
        assert(cs@.subrange(0, 0) =~= Seq::<char>::empty());
        assert(range_views(cs@, rs@).push(cs@.subrange(0, 0)) =~= seq![Seq::<char>::empty()]);
    }
    while i < cs.len()
        invariant
            start <= i <= cs.len(),
            forall|k: int| 0 <= k < rs.len() ==> (#[trigger] rs@[k]).0 <= rs@[k].1 && rs@[k].1 <= i,
            range_views(cs@, rs@).push(cs@.subrange(start as int, i as int)) == split_on(
                cs@.subrange(0, i as int),
                sep,
            ),
        decreases cs.len() - i,
    {
        let ghost s1 = cs@.subrange(0, i as int + 1);
        proof {
            assert(s1.drop_last() =~= cs@.subrange(0, i as int));
            assert(s1.last() == cs@[i as int]);
        }
        if cs[i] == sep {
            let ghost before = range_views(cs@, rs@);
            let ghost old_rs = rs@;
            rs.push((start, i));
            start = i + 1;
            proof {
                assert forall|k: int| 0 <= k < rs.len() implies (#[trigger] rs@[k]).0 <= rs@[k].1 && rs@[k].1 <= i + 1 by {
                    if k < old_rs.len() {
                        assert(rs@[k] == old_rs[k]);
                    }
                }
                assert(range_views(cs@, rs@) =~= before.push(cs@.subrange(rs@.last().0 as int, i as int)));
                assert(cs@.subrange(start as int, i as int + 1) =~= Seq::<char>::empty());
                assert(range_views(cs@, rs@).push(cs@.subrange(start as int, i as int + 1)) =~= split_on(s1, sep));
            }
        } else {
            proof {
                assert(cs@.subrange(start as int, i as int + 1) =~= cs@.subrange(start as int, i as int).push(cs@[i as int]));
                assert(range_views(cs@, rs@).push(cs@.subrange(start as int, i as int + 1)) =~= split_on(s1, sep));
            }
        }
        i += 1;
    }
    let ghost before = range_views(cs@, rs@);
    let ghost old_rs = rs@;
    rs.push((start, cs.len()));
    proof {
        assert forall|k: int| 0 <= k < rs.len() implies (#[trigger] rs@[k]).0 <= rs@[k].1 && rs@[k].1 <= cs.len() by {
            if k < old_rs.len() {
                assert(rs@[k] == old_rs[k]);
            }
        }
        assert(cs@.subrange(0, cs.len() as int) =~= cs@);
        assert(range_views(cs@, rs@) =~= before.push(cs@.subrange(start as int, cs.len() as int)));
    }
    rs
}

/// The ranges of the lines of `cs`.
fn line_ranges(cs: &Vec<char>) -> (r: Vec<(usize, usize)>)
    ensures
        range_views(cs@, r@) == text_lines(cs@),
        forall|k: int| 0 <= k < r.len() ==> (#[trigger] r@[k]).0 <= r@[k].1 && r@[k].1 <= cs.len(),
{
    let raw = split_ranges(cs, '\n');
    let ghost parts = split_on(cs@, '\n');
    proof {
        lemma_split_nonempty(cs@, '\n');
    }
    let n = raw.len();
    let mut out: Vec<(usize, usize)> = Vec::new();
    let mut k: usize = 0;
    while k + 1 < n
        invariant
            n == raw.len(),
            n >= 1,
            parts == split_on(cs@, '\n'),
            range_views(cs@, raw@) == parts,
            forall|x: int| 0 <= x < raw.len() ==> (#[trigger] raw@[x]).0 <= raw@[x].1 && raw@[x].1 <= cs.len(),
            k < n,
            out.len() == k,
            forall|x: int| 0 <= x < out.len() ==> (#[trigger] out@[x]).0 <= out@[x].1 && out@[x].1 <= cs.len(),
            range_views(cs@, out@) == parts.take(k as int).map_values(|l: Seq<char>| strip_cr(l)),
        decreases n - k,
    {
        let (lo, hi) = raw[k];
        let ghost piece = cs@.subrange(lo as int, hi as int);
        proof {
            assert(range_views(cs@, raw@)[k as int] == piece);
        }
        let end = if hi > lo && cs[hi - 1] == '\r' {
            proof {
                assert(cs@.subrange(lo as int, hi as int - 1) =~= piece.drop_last());
            }
            hi - 1
        } else {
            hi
        };
        let ghost before = range_views(cs@, out@);
        out.push((lo, end));
        proof {
            assert(range_views(cs@, out@) =~= before.push(strip_cr(piece)));
            assert(parts.take(k as int + 1).map_values(|l: Seq<char>| strip_cr(l)) =~= parts.take(
                k as int,
            ).map_values(|l: Seq<char>| strip_cr(l)).push(strip_cr(parts[k as int])));
        }
        k += 1;
    }
    proof {
        assert(parts.take(k as int) =~= parts.drop_last());
        assert(range_views(cs@, raw@)[n - 1] == parts.last());
    }
    let (lo, hi) = raw[n - 1];
    if lo < hi {
        let ghost before = range_views(cs@, out@);
        out.push((lo, hi));
        proof {
            assert(range_views(cs@, out@) =~= before.push(parts.last()));
        }
    }
    out
}

impl Tsv {
    /// Parse the text of a tab-separated file.
    pub fn parse(content: &str) -> (t: Tsv)
        ensures
            str_views(t.header@) == tsv_header(content@),
            row_views(t.rows@) == tsv_rows(content@),
    {
        let cs = chars_of(content);
        let lines = line_ranges(&cs);
        let ghost ls = text_lines(content@);
        let header = if lines.len() == 0 {
            Vec::new()
        } else {
            proof {
                assert(range_views(cs@, lines@)[0] == ls[0]);
            }
            split_range(&cs, lines[0].0, lines[0].1, '\t')
        };
        let mut rows: Vec<Vec<String>> = Vec::new();
        let mut k: usize = 1;
        proof {
            if ls.len() == 0 {
                assert(str_views(header@) =~= Seq::<Seq<char>>::empty());
            }
            if lines.len() >= 1 {
                assert(ls.skip(1).take(0) =~= Seq::<Seq<char>>::empty());
            }
            assert(row_views(rows@) =~= Seq::<Seq<Seq<char>>>::empty());
        }
        while k < lines.len()
            invariant
                cs@ == content@,
                ls == text_lines(content@),
                range_views(cs@, lines@) == ls,
                forall|x: int| 0 <= x < lines.len() ==> (#[trigger] lines@[x]).0 <= lines@[x].1 && lines@[x].1 <= cs.len(),
                1 <= k <= lines.len() || (lines.len() == 0 && k == 1),
                lines.len() >= 1 ==> row_views(rows@) == records(ls.skip(1).take(k - 1)),
                lines.len() == 0 ==> rows.len() == 0,
            decreases lines.len() - k,
        {
            let (lo, hi) = lines[k];
            let ghost line = cs@.subrange(lo as int, hi as int);
            let ghost pre = ls.skip(1).take(k - 1);
            let ghost cur = ls.skip(1).take(k as int);
            proof {
                assert(range_views(cs@, lines@)[k as int] == line);
                assert(cur.drop_last() =~= pre);
                assert(cur.last() == line);
            }
            if lo < hi {
                let fields = split_range(&cs, lo, hi, '\t');
                let ghost before = row_views(rows@);
                rows.push(fields);
                proof {
                    assert(row_views(rows@) =~= before.push(str_views(fields@)));
                }
            }
            k += 1;
        }
        proof {
            if lines.len() >= 1 {
                assert(ls.skip(1).take(k - 1) =~= ls.skip(1));
            } else {
                assert(row_views(rows@) =~= Seq::<Seq<Seq<char>>>::empty());
            }
        }
        Tsv { header, rows }
    }
}


/// The first position of `name` among `header`, if any.
pub open spec fn column_of(header: Seq<Seq<char>>, name: Seq<char>) -> Option<int> {
    if exists|i: int| 0 <= i < header.len() && header[i] == name {
        Some(choose|i: int| 0 <= i < header.len() && header[i] == name && forall|j: int| 0 <= j < i ==> header[j] != name)
    } else {
        None
    }
}

/// The number of records whose field `i` is `val`.
pub open spec fn count_field(rows: Seq<Seq<Seq<char>>>, i: int, val: Seq<char>) -> nat
    decreases rows.len(),
{
    if rows.len() == 0 {
        0
    } else {
        count_field(rows.drop_last(), i, val) + if 0 <= i < rows.last().len() && rows.last()[i] == val {
            1nat
        } else {
            0nat
        }
    }
}

/// The number of records whose field in column `name` is `val`; none when
/// there is no such column.
pub open spec fn count_eq_spec(header: Seq<Seq<char>>, rows: Seq<Seq<Seq<char>>>, name: Seq<char>, val: Seq<char>) -> nat {
    match column_of(header, name) {
        Some(i) => count_field(rows, i, val),
        None => 0,
    }
}

impl Tsv {
    /// The position of the column called `name`, the first if several are.
    pub fn col(&self, name: &str) -> (r: Option<usize>)
        ensures
            match r {
                Some(i) => column_of(str_views(self.header@), name@) == Some(i as int),
                None => column_of(str_views(self.header@), name@) is None,
            },
    {
        let ghost h = str_views(self.header@);
        let target = name.to_owned();
        let mut i: usize = 0;
        while i < self.header.len()
            invariant
                h == str_views(self.header@),
                target@ == name@,
                i <= self.header.len(),
                forall|j: int| 0 <= j < i ==> h[j] != name@,
            decreases self.header.len() - i,
        {
            proof {
                assert(h[i as int] == self.header@[i as int]@);
            }
            if self.header[i] == target {
                proof {
                    assert(h[i as int] == name@);
                    let c = choose|c: int| 0 <= c < h.len() && h[c] == name@ && forall|j: int| 0 <= j < c ==> h[j] != name@;
                    if c < i {
                    } else if c > i {
                        assert(h[i as int] != name@);
                    }
                }
                return Some(i);
            }
            i += 1;
        }
        None
    }

    /// The number of records whose field in column `name` is `val` (0 when
    /// there is no such column).
    pub fn count_eq(&self, name: &str, val: &str) -> (r: u64)
        ensures
            r == count_eq_spec(str_views(self.header@), row_views(self.rows@), name@, val@),
    {
        let ghost rv = row_views(self.rows@);
        match self.col(name) {
            None => 0,
            Some(i) => {
                let target = val.to_owned();
                let mut n: u64 = 0;
                let mut k: usize = 0;
                while k < self.rows.len()
                    invariant
                        rv == row_views(self.rows@),
                        target@ == val@,
                        k <= self.rows.len(),
                        n == count_field(rv.take(k as int), i as int, val@),
                        n <= k,
                    decreases self.rows.len() - k,
                {
                    proof {
                        assert(rv.take(k as int + 1).drop_last() =~= rv.take(k as int));
                        assert(rv.take(k as int + 1).last() == rv[k as int]);
                        assert(rv[k as int] == str_views(self.rows@[k as int]@));
                    }
                    let row = &self.rows[k];
                    proof {
                        if i < row.len() {
                            assert(str_views(row@)[i as int] == row@[i as int]@);
                        }
                    }
                    if i < row.len() && row[i] == target {
                        n += 1;
                    }
                    k += 1;
                }
                proof {
                    assert(rv.take(k as int) =~= rv);
                }
                n
            },
        }
    }
}

} // verus!
