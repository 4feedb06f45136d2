//! Array logic shared by the converters: sequence numbers, chunking, and the
//! reshaping of NetCDF variables (already read into memory) into flat,
//! observation-level columns.
//!
//! A 1-D variable is held as `Vec<T>`; a 2-D `[outer, inner]` variable as one
//! `Vec<T>` per outer index. An absent variable is `None`.

use vstd::prelude::*;
use vstd::arithmetic::div_mod::{lemma_fundamental_div_mod, lemma_fundamental_div_mod_converse};

use crate::error::CtdError;
use crate::text::{char_string, push_char};

verus! {

/// `s` with every element repeated `n` times in place: `[a, b]`, 2 -> `[a, a, b, b]`.
pub open spec fn tile<T>(s: Seq<T>, n: nat) -> Seq<T> {
    Seq::new(s.len() * n, |k: int| s[k / (n as int)])
}

/// `n` copies of `x`.
pub open spec fn repeat<T>(x: T, n: nat) -> Seq<T> {
    Seq::new(n, |k: int| x)
}

/// The rows `[t0, t0 + tc)` of a 2-D variable, each cut to its first `n` entries,
/// laid out one after the other.
pub open spec fn grid_slice<T>(g: Seq<Seq<T>>, t0: int, tc: nat, n: nat) -> Seq<T> {
    Seq::new(tc * n, |k: int| g[t0 + k / (n as int)][k % (n as int)])
}

/// A 2-D variable viewed as a sequence of rows.
pub open spec fn rows_of<T>(g: Seq<Vec<T>>) -> Seq<Seq<T>> {
    g.map_values(|r: Vec<T>| r@)
}

/// Whether rows `[t0, t0 + tc)` exist and each has at least `n` entries.
pub open spec fn grid_slice_in_bounds<T>(g: Seq<Seq<T>>, t0: int, tc: int, n: int) -> bool {
    &&& t0 + tc <= g.len()
    &&& forall|t: int| t0 <= t < t0 + tc ==> n <= #[trigger] g[t].len()
}

/// Entry `o` of block `p` of blocks of `n` lies at `p * n + o`.
pub proof fn lemma_block_index(p: int, o: int, n: int)
    requires
        0 <= o < n,
    ensures
        (p * n + o) / n == p,
        (p * n + o) % n == o,
{
    lemma_fundamental_div_mod_converse(p * n + o, n, p, o);
}

/// An index below `count` blocks of `n` falls in one of those blocks.
pub proof fn lemma_index_in_block(k: int, count: int, n: int)
    requires
        0 <= count,
        0 <= k < count * n,
    ensures
        n > 0,
        0 <= k / n < count,
        0 <= k % n < n,
{
    if n <= 0 {
        assert(count * n <= 0) by (nonlinear_arith)
            requires n <= 0, 0 <= count;
    }
    assert(0 <= k / n < count) by (nonlinear_arith)
        requires 0 <= k < count * n, n > 0;
}

/// Repeat every element of `s` `n` times in place.
pub fn tile_vec<T: Copy>(s: &Vec<T>, n: usize) -> (r: Vec<T>)
    requires
        s.len() * n <= usize::MAX,
    ensures
        r@ == tile(s@, n as nat),
{
    let mut r: Vec<T> = Vec::new();
    let mut p: usize = 0;
    while p < s.len()
        invariant
            p <= s.len(),
            s.len() * n <= usize::MAX,
            r.len() == p * n,
            forall|k: int| 0 <= k < r.len() ==> r@[k] == s@[k / (n as int)],
        decreases s.len() - p,
    {
        let x = s[p];
        let mut o: usize = 0;
        assert((p + 1) * n <= s.len() * n) by (nonlinear_arith)
            requires p + 1 <= s.len();
        while o < n
            invariant
                p < s.len(),
                o <= n,
                (p + 1) * n <= usize::MAX,
                x == s@[p as int],
                r.len() == p * n + o,
                forall|k: int| 0 <= k < r.len() ==> r@[k] == s@[k / (n as int)],
            decreases n - o,
        {
            assert((p + 1) * n == p * n + n) by (nonlinear_arith);
            proof {
                lemma_block_index(p as int, o as int, n as int);
            }
            r.push(x);
            o = o + 1;
        }
        assert((p + 1) * n == p * n + n) by (nonlinear_arith);
        p = p + 1;
    }
    r
}

/// `n` copies of `x`.
pub fn repeat_vec<T: Copy>(x: T, n: usize) -> (r: Vec<T>)
    ensures
        r@ == repeat(x, n as nat),
{
    let mut r: Vec<T> = Vec::new();
    let mut i: usize = 0;
    while i < n
        invariant
            i <= n,
            r@ == repeat(x, i as nat),
        decreases n - i,
    {
        r.push(x);
        i = i + 1;
        assert(r@ =~= repeat(x, i as nat));
    }
    r
}

/// `n` copies of the string `s`.
pub fn repeat_string(s: &String, n: usize) -> (r: Vec<String>)
    ensures
        r.len() == n,
        forall|k: int| 0 <= k < n ==> #[trigger] r@[k]@ == s@,
{
    let mut r: Vec<String> = Vec::new();
    let mut i: usize = 0;
    while i < n
        invariant
            i <= n,
            r.len() == i,
            forall|k: int| 0 <= k < i ==> #[trigger] r@[k]@ == s@,
        decreases n - i,
    {
        r.push(s.clone());
        i = i + 1;
    }
    r
}

/// Rows `[t0, t0 + tc)` of a 2-D variable, each cut to its first `n` entries and
/// laid out in order. Fails when a row does not exist or is shorter than `n`, as
/// the NetCDF read of that hyperslab does.
pub fn slice_rows<T: Copy>(g: &Vec<Vec<T>>, t0: usize, tc: usize, n: usize) -> (r: Result<
    Vec<T>,
    CtdError,
>)
    requires
        tc * n <= usize::MAX,
    ensures
        match r {
            Ok(v) => grid_slice_in_bounds(rows_of(g@), t0 as int, tc as int, n as int) && v@
                == grid_slice(rows_of(g@), t0 as int, tc as nat, n as nat),
            Err(e) => !grid_slice_in_bounds(rows_of(g@), t0 as int, tc as int, n as int),
        },
{
    if t0 > g.len() || tc > g.len() - t0 {
        return Err(CtdError::SliceOutOfBounds { start: t0, end: t0, len: g.len() });
    }
    let mut r: Vec<T> = Vec::new();
    let mut p: usize = 0;
    while p < tc
        invariant
            p <= tc,
            t0 + tc <= g.len(),
            tc * n <= usize::MAX,
            r.len() == p * n,
            forall|t: int| t0 <= t < t0 + p ==> n <= #[trigger] g@[t]@.len(),
            forall|k: int| 0 <= k < r.len() ==> r@[k] == g@[t0 + k / (n as int)]@[k % (n as int)],
        decreases tc - p,
    {
        let row = &g[t0 + p];
        if row.len() < n {
            assert(!grid_slice_in_bounds(rows_of(g@), t0 as int, tc as int, n as int)) by {
                assert(rows_of(g@)[t0 + p] == g@[t0 + p]@);
            }
            return Err(CtdError::SliceOutOfBounds { start: 0, end: n, len: row.len() });
        }
        assert((p + 1) * n <= tc * n) by (nonlinear_arith)
            requires p + 1 <= tc;
        let mut o: usize = 0;
        while o < n
            invariant
                p < tc,
                o <= n,
                t0 + tc <= g.len(),
                (p + 1) * n <= usize::MAX,
                n <= row.len(),
                row@ == g@[t0 + p]@,
                r.len() == p * n + o,
                forall|k: int| 0 <= k < r.len() ==> r@[k] == g@[t0 + k / (n as int)]@[k % (n as int)],
            decreases n - o,
        {
            assert((p + 1) * n == p * n + n) by (nonlinear_arith);
            proof {
                lemma_block_index(p as int, o as int, n as int);
            }
            r.push(row[o]);
            o = o + 1;
        }
        assert((p + 1) * n == p * n + n) by (nonlinear_arith);
        p = p + 1;
    }
    assert(grid_slice_in_bounds(rows_of(g@), t0 as int, tc as int, n as int)) by {
        assert forall|t: int| t0 <= t < t0 + tc implies n <= #[trigger] rows_of(g@)[t].len() by {
            assert(rows_of(g@)[t] == g@[t]@);
        }
    }
    assert forall|k: int| 0 <= k < r.len() implies r@[k] == grid_slice(
        rows_of(g@),
        t0 as int,
        tc as nat,
        n as nat,
    )[k] by {
        lemma_index_in_block(k, tc as int, n as int);
        assert(rows_of(g@)[t0 + k / (n as int)] == g@[t0 + k / (n as int)]@);
    }
    assert(r@ =~= grid_slice(rows_of(g@), t0 as int, tc as nat, n as nat));
    Ok(r)
}

} // verus!

verus! {

/// The value of a NetCDF attribute, as far as the converters read it: only a
/// single string is ever used; every other kind of value is `Other`.
#[derive(Debug, Clone)]
pub enum AttributeValue {
    Str(String),
    Strs(Vec<String>),
    Other,
}

/// The string held by a single-string attribute, `None` for any other kind.
pub fn get_string_value(attr_value: AttributeValue) -> (r: Option<String>)
    ensures
        match attr_value {
            AttributeValue::Str(s) => r == Some(s),
            _ => r is None,
        },
{
    match attr_value {
        AttributeValue::Str(s) => Some(s),
        _ => None,
    }
}

/// The file stem (file name without its final extension) that
/// `std::path::Path::file_stem` gives for a path, `None` when the path has no
/// file name.
pub uninterp spec fn path_file_stem(path: Seq<char>) -> Option<Seq<char>>;

/// Trusted: the body is `std::path::Path::file_stem`, with the `OsStr` result
/// turned back into a `String` (a path built from a `&str` is valid UTF-8).
/// The result is named by `path_file_stem` and depends on the path alone.
#[verifier::external_body]
pub(crate) fn file_stem(path: &str) -> (r: Option<String>)
    ensures
        r matches Some(s) ==> path_file_stem(path@) == Some(s@),
        r is None ==> path_file_stem(path@) is None,
{
    std::path::Path::new(path).file_stem().and_then(|s| s.to_str()).map(|s| s.to_string())
}

/// The file stem of `file_name`: `"./data/AR_PR_CT_ITP-71.nc"` -> `"AR_PR_CT_ITP-71"`.
/// A path without a file name has no stem and is not accepted.
pub fn get_base_file_name(file_name: &str) -> (r: Result<String, CtdError>)
    requires
        path_file_stem(file_name@) is Some,
    ensures
        r matches Ok(s) && path_file_stem(file_name@) == Some(s@),
{
    match file_stem(file_name) {
        Some(s) => Ok(s),
        None => {
            assert(false);
            Err(CtdError::NotEnoughArguments)
        },
    }
}

/// The file stem of `file_name`, or `None` when the path has no file name (the
/// case that `get_base_file_name` does not accept).
pub fn base_file_name_checked(file_name: &str) -> (r: Option<String>)
    ensures
        r matches Some(s) ==> path_file_stem(file_name@) == Some(s@),
        r is None ==> path_file_stem(file_name@) is None,
{
    match file_stem(file_name) {
        Some(_) => match get_base_file_name(file_name) {
            Ok(s) => Some(s),
            Err(_) => None,
        },
        None => None,
    }
}

/// The `platform_code` global attribute repeated `vec_size` times. The attribute
/// must be present and hold a single string.
pub fn create_platform_code(attr: &Option<AttributeValue>, vec_size: usize) -> (r: Result<
    Vec<String>,
    CtdError,
>)
    requires
        attr matches Some(AttributeValue::Str(_)),
    ensures
        r matches Ok(v) && v.len() == vec_size && (forall|k: int|
            0 <= k < vec_size ==> #[trigger] v@[k]@ == attr->0->Str_0@),
{
    match attr {
        Some(AttributeValue::Str(s)) => Ok(repeat_string(s, vec_size)),
        _ => {
            assert(false);
            Err(CtdError::NotEnoughArguments)
        },
    }
}

/// The 1-based profile numbers `offset + 1 ..= offset + count`.
pub open spec fn profile_numbers(offset: nat, count: nat) -> Seq<u32> {
    Seq::new(count, |p: int| (offset + p + 1) as u32)
}

/// Profile numbers (1-based) for the whole outer dimension, each repeated
/// `obs_len` times: `(3, 2)` -> `[1, 1, 2, 2, 3, 3]`.
pub fn create_profile_no_sequence(time_len: usize, obs_len: usize) -> (r: Result<
    Vec<u32>,
    CtdError,
>)
    requires
        time_len <= u32::MAX,
        time_len * obs_len <= usize::MAX,
    ensures
        r matches Ok(v) && v@ == tile(profile_numbers(0, time_len as nat), obs_len as nat),
{
    create_profile_no_sequence_chunk(0, time_len, obs_len)
}

/// Profile numbers of adjacent outer slices join into those of the joined
/// slice: the numbers of `[o, o + c1)` followed by those of
/// `[o + c1, o + c1 + c2)` are the numbers of `[o, o + c1 + c2)`, entry `i` of
/// a slice's column is `o + i / obs_len + 1`, and the slice that starts at
/// zero gives the whole-file column.
pub proof fn lemma_profile_chunks_join(o: nat, c1: nat, c2: nat, obs_len: nat)
    ensures
        tile(profile_numbers(o, c1), obs_len) + tile(profile_numbers(o + c1, c2), obs_len) == tile(
            profile_numbers(o, c1 + c2),
            obs_len,
        ),
        forall|i: int| 0 <= i < c1 * obs_len ==> #[trigger] tile(profile_numbers(o, c1), obs_len)[i] == (o
            + i / (obs_len as int) + 1) as u32,
{
    let a = tile(profile_numbers(o, c1), obs_len);
    let b = tile(profile_numbers(o + c1, c2), obs_len);
    let w = tile(profile_numbers(o, c1 + c2), obs_len);
    let n = obs_len as int;
    assert((c1 + c2) * obs_len == c1 * obs_len + c2 * obs_len) by (nonlinear_arith);
    assert forall|k: int| 0 <= k < c1 * obs_len implies #[trigger] a[k] == (o + k / n + 1) as u32 by {
        lemma_index_in_block(k, c1 as int, n);
    }
    assert forall|k: int| 0 <= k < w.len() implies #[trigger] (a + b)[k] == w[k] by {
        if k < c1 * obs_len {
            lemma_index_in_block(k, c1 as int, n);
        } else {
            let j = k - c1 * obs_len;
            lemma_index_in_block(j, c2 as int, n);
            lemma_fundamental_div_mod(j, n);
            assert(k == (j / n + c1) * n + j % n) by (nonlinear_arith)
                requires
                    j == n * (j / n) + j % n,
                    k == j + c1 * n,
            ;
            lemma_block_index(j / n + c1, j % n, n);
            lemma_index_in_block(k, (c1 + c2) as int, n);
        }
    }
    assert(a + b =~= w);
}

/// Profile numbers (1-based, global) for the outer slice `[time_offset,
/// time_offset + time_count)`, each repeated `obs_len` times. Numbering is
/// anchored to the absolute offset, so chunks agree with a whole-file pass.
pub fn create_profile_no_sequence_chunk(time_offset: usize, time_count: usize, obs_len: usize) -> (r:
    Result<Vec<u32>, CtdError>)
    requires
        time_offset + time_count <= u32::MAX,
        time_count * obs_len <= usize::MAX,
    ensures
        r matches Ok(v) && v@ == tile(
            profile_numbers(time_offset as nat, time_count as nat),
            obs_len as nat,
        ),
{
    let mut numbers: Vec<u32> = Vec::new();
    let mut p: usize = 0;
    while p < time_count
        invariant
            p <= time_count,
            time_offset + time_count <= u32::MAX,
            numbers@ == profile_numbers(time_offset as nat, p as nat),
        decreases time_count - p,
    {
        numbers.push((time_offset + p + 1) as u32);
        p = p + 1;
        assert(numbers@ =~= profile_numbers(time_offset as nat, p as nat));
    }
    Ok(tile_vec(&numbers, obs_len))
}

/// The chunk size used by `time_chunks`: as many outer steps as fit in
/// `chunk_rows` observation rows, but at least one.
pub open spec fn chunk_step(chunk_rows: nat, obs_len: nat) -> nat {
    let per = if obs_len == 0 { chunk_rows } else { chunk_rows / obs_len };
    if per == 0 { 1 } else { per }
}

/// Split the outer dimension of length `outer_len` into `(offset, count)`
/// chunks of at most `chunk_step(chunk_rows, obs_len)` outer steps each,
/// covering `[0, outer_len)` in order. Empty when `outer_len == 0`.
pub fn time_chunks(outer_len: usize, obs_len: usize, chunk_rows: usize) -> (r: Vec<(usize, usize)>)
    ensures
        r.len() == 0 <==> outer_len == 0,
        r.len() > 0 ==> r@[0].0 == 0,
        r.len() > 0 ==> r@[r.len() - 1].0 + r@[r.len() - 1].1 == outer_len,
        forall|i: int| 0 <= i < r.len() - 1 ==> #[trigger] r@[i + 1].0 == r@[i].0 + r@[i].1,
        forall|i: int|
            0 <= i < r.len() ==> #[trigger] r@[i].1 == (if outer_len - r@[i].0 < chunk_step(
                chunk_rows as nat,
                obs_len as nat,
            ) {
                outer_len - r@[i].0
            } else {
                chunk_step(chunk_rows as nat, obs_len as nat) as int
            }),
        forall|i: int| 0 <= i < r.len() ==> #[trigger] r@[i].1 >= 1,
{
    let divisor = if obs_len == 0 { 1 } else { obs_len };
    let per = chunk_rows / divisor;
    let step = if per == 0 { 1 } else { per };
    assert(step == chunk_step(chunk_rows as nat, obs_len as nat));
    let mut chunks: Vec<(usize, usize)> = Vec::new();
    let mut offset: usize = 0;
    while offset < outer_len
        invariant
            offset <= outer_len,
            step >= 1,
            step == chunk_step(chunk_rows as nat, obs_len as nat),
            chunks.len() == 0 <==> offset == 0,
            chunks.len() > 0 ==> chunks@[0].0 == 0,
            chunks.len() > 0 ==> chunks@[chunks.len() - 1].0 + chunks@[chunks.len() - 1].1
                == offset,
            forall|i: int|
                0 <= i < chunks.len() - 1 ==> #[trigger] chunks@[i + 1].0 == chunks@[i].0
                    + chunks@[i].1,
            forall|i: int|
                0 <= i < chunks.len() ==> #[trigger] chunks@[i].1 == (if outer_len - chunks@[i].0
                    < step {
                    outer_len - chunks@[i].0
                } else {
                    step as int
                }),
            forall|i: int| 0 <= i < chunks.len() ==> #[trigger] chunks@[i].1 >= 1,
        decreases outer_len - offset,
    {
        let count = if step < outer_len - offset { step } else { outer_len - offset };
        chunks.push((offset, count));
        offset = offset + count;
    }
    chunks
}

/// Observation numbers `1..=obs_len`, restarting for each of the `time_len`
/// profiles: `(2, 3)` -> `[1, 2, 3, 1, 2, 3]`.
pub fn create_observation_sequence(time_len: usize, obs_len: usize) -> (r: Result<
    Vec<u32>,
    CtdError,
>)
    requires
        obs_len <= u32::MAX,
        time_len * obs_len <= usize::MAX,
    ensures
        r matches Ok(v) && v@ == Seq::new(
            (time_len * obs_len) as nat,
            |k: int| (k % (obs_len as int) + 1) as u32,
        ),
{
    let mut r: Vec<u32> = Vec::new();
    let mut p: usize = 0;
    while p < time_len
        invariant
            p <= time_len,
            obs_len <= u32::MAX,
            time_len * obs_len <= usize::MAX,
            r.len() == p * obs_len,
            forall|k: int| 0 <= k < r.len() ==> r@[k] == (k % (obs_len as int) + 1) as u32,
        decreases time_len - p,
    {
        assert((p + 1) * obs_len <= time_len * obs_len) by (nonlinear_arith)
            requires p + 1 <= time_len;
        let mut o: usize = 0;
        while o < obs_len
            invariant
                p < time_len,
                o <= obs_len,
                obs_len <= u32::MAX,
                (p + 1) * obs_len <= usize::MAX,
                r.len() == p * obs_len + o,
                forall|k: int| 0 <= k < r.len() ==> r@[k] == (k % (obs_len as int) + 1) as u32,
            decreases obs_len - o,
        {
            assert((p + 1) * obs_len == p * obs_len + obs_len) by (nonlinear_arith);
            proof {
                lemma_block_index(p as int, o as int, obs_len as int);
            }
            r.push((o + 1) as u32);
            o = o + 1;
        }
        assert((p + 1) * obs_len == p * obs_len + obs_len) by (nonlinear_arith);
        p = p + 1;
    }
    assert(r@ =~= Seq::new((time_len * obs_len) as nat, |k: int| (k % (obs_len as int) + 1) as u32));
    Ok(r)
}

} // verus!

verus! {

/// What `get_coordinate_value_chunk` yields for the outer slice
/// `[t0, t0 + tc)`: `None` when that slice is not part of the variable.
pub open spec fn coordinate_chunk<T>(var: Option<Seq<T>>, t0: int, tc: nat, n: nat, fill: T) -> Option<
    Seq<T>,
> {
    match var {
        None => Some(repeat(fill, tc * n)),
        Some(v) => if v.len() == 1 {
            Some(repeat(v[0], tc * n))
        } else if t0 + tc <= v.len() {
            Some(tile(v.subrange(t0, t0 + tc), n))
        } else {
            None
        },
    }
}

pub open spec fn opt_view<T>(var: Option<Vec<T>>) -> Option<Seq<T>> {
    match var {
        Some(v) => Some(v@),
        None => None,
    }
}

/// The outer slice `[time_offset, time_offset + time_count)` of a 1-D coordinate
/// variable, each value repeated `obs_len` times. A variable of length one is a
/// scalar and is broadcast over the whole chunk; a missing variable yields
/// `fill_value`. Asking for a slice beyond the variable is an error.
pub fn get_coordinate_value_chunk<T: Copy>(
    var: &Option<Vec<T>>,
    time_offset: usize,
    time_count: usize,
    obs_len: usize,
    fill_value: T,
) -> (r: Result<Vec<T>, CtdError>)
    requires
        time_count * obs_len <= usize::MAX,
    ensures
        match coordinate_chunk(
            opt_view(*var),
            time_offset as int,
            time_count as nat,
            obs_len as nat,
            fill_value,
        ) {
            Some(s) => r matches Ok(v) && v@ == s,
            None => r is Err,
        },
{
    let n = time_count * obs_len;
    match var {
        None => Ok(repeat_vec(fill_value, n)),
        Some(v) => {
            if v.len() == 1 {
                Ok(repeat_vec(v[0], n))
            } else if time_offset <= v.len() && time_count <= v.len() - time_offset {
                let mut slice: Vec<T> = Vec::new();
                let mut t: usize = time_offset;
                while t < time_offset + time_count
                    invariant
                        time_offset <= t <= time_offset + time_count <= v.len(),
                        slice@ == v@.subrange(time_offset as int, t as int),
                    decreases time_offset + time_count - t,
                {
                    slice.push(v[t]);
                    t = t + 1;
                    assert(slice@ =~= v@.subrange(time_offset as int, t as int));
                }
                Ok(tile_vec(&slice, obs_len))
            } else {
                Err(
                    CtdError::SliceOutOfBounds {
                        start: time_offset,
                        end: if time_count <= usize::MAX - time_offset {
                            time_offset + time_count
                        } else {
                            usize::MAX
                        },
                        len: v.len(),
                    },
                )
            }
        },
    }
}

/// The QC string of a raw `i8` flag: digits 0-9 become `"0"`-`"9"`; anything
/// else (including `i8::MIN`, the missing marker) becomes `""`.
pub open spec fn qc_text(v: i8) -> Seq<char> {
    if 0 <= v <= 9 {
        seq![(48 + v) as char]
    } else {
        Seq::empty()
    }
}

/// Convert a raw `i8` QC byte (0-9) to its single-digit string; any other value maps to `""`.
pub fn i8_to_qc_string(v: i8) -> (r: String)
    ensures
        r@ == qc_text(v),
{
    if 0 <= v && v <= 9 {
        let c = (48u8 + v as u8) as char;
        char_string(c)
    } else {
        String::new()
    }
}

/// The character a NetCDF `char` byte stands for (the byte read as Latin-1).
pub open spec fn nc_char(c: i8) -> char {
    (c as u8) as char
}

/// The character a NetCDF `char` byte stands for.
pub fn nc_char_exec(c: i8) -> (r: char)
    ensures
        r == nc_char(c),
{
    (c as u8) as char
}

/// The rows `[t0, t0 + tc)` of an optional 2-D variable, cut to `n` entries; a
/// missing variable is `None`, a slice outside it is `Some(None)`.
pub open spec fn grid_read<T>(var: Option<Vec<Vec<T>>>, t0: int, tc: nat, n: nat) -> Option<
    Option<Seq<T>>,
> {
    match var {
        None => None,
        Some(g) => if grid_slice_in_bounds(rows_of(g@), t0, tc as int, n as int) {
            Some(Some(grid_slice(rows_of(g@), t0, tc, n)))
        } else {
            Some(None)
        },
    }
}

/// The slice `[time_offset, time_offset + time_count)` of a 2-D `[TIME, DEPTH]`
/// integer QC variable, one string per flag (see `qc_text`). A missing variable
/// yields `""` everywhere.
pub fn get_qc_value_chunk(
    var: &Option<Vec<Vec<i8>>>,
    time_offset: usize,
    time_count: usize,
    obs_len: usize,
) -> (r: Result<Vec<String>, CtdError>)
    requires
        time_count * obs_len <= usize::MAX,
    ensures
        match grid_read(*var, time_offset as int, time_count as nat, obs_len as nat) {
            None => r matches Ok(v) && v.len() == time_count * obs_len && forall|k: int|
                0 <= k < v.len() ==> #[trigger] v@[k]@ == Seq::<char>::empty(),
            Some(None) => r is Err,
            Some(Some(raw)) => r matches Ok(v) && v.len() == raw.len() && forall|k: int|
                0 <= k < v.len() ==> #[trigger] v@[k]@ == qc_text(raw[k]),
        },
{
    match var {
        None => Ok(repeat_string(&String::new(), time_count * obs_len)),
        Some(g) => {
            let raw = slice_rows(g, time_offset, time_count, obs_len)?;
            Ok(map_qc_text(&raw))
        },
    }
}

/// `qc_text` of every raw flag.
fn map_qc_text(raw: &Vec<i8>) -> (r: Vec<String>)
    ensures
        r.len() == raw.len(),
        forall|k: int| 0 <= k < r.len() ==> #[trigger] r@[k]@ == qc_text(raw@[k]),
{
    let mut r: Vec<String> = Vec::new();
    let mut i: usize = 0;
    while i < raw.len()
        invariant
            i <= raw.len(),
            r.len() == i,
            forall|k: int| 0 <= k < r.len() ==> #[trigger] r@[k]@ == qc_text(raw@[k]),
        decreases raw.len() - i,
    {
        r.push(i8_to_qc_string(raw[i]));
        i = i + 1;
    }
    r
}

/// A coordinate-tiled QC variable (e.g. `TIME_QC`, `POSITION_QC`) stored as `i8`,
/// for the outer slice `[time_offset, time_offset + time_count)`, one string per
/// observation. A missing variable reads as `i8::MIN` and so yields `""`.
pub fn get_qc_coordinate_value_chunk(
    var: &Option<Vec<i8>>,
    time_offset: usize,
    time_count: usize,
    obs_len: usize,
) -> (r: Result<Vec<String>, CtdError>)
    requires
        time_count * obs_len <= usize::MAX,
    ensures
        match coordinate_chunk(
            opt_view(*var),
            time_offset as int,
            time_count as nat,
            obs_len as nat,
            i8::MIN,
        ) {
            Some(raw) => r matches Ok(v) && v.len() == raw.len() && forall|k: int|
                0 <= k < v.len() ==> #[trigger] v@[k]@ == qc_text(raw[k]),
            None => r is Err,
        },
{
    let raw = get_coordinate_value_chunk(var, time_offset, time_count, obs_len, i8::MIN)?;
    Ok(map_qc_text(&raw))
}

/// One single-character string per raw `char` byte.
fn map_char_strings(raw: &Vec<i8>) -> (r: Vec<String>)
    ensures
        r.len() == raw.len(),
        forall|k: int| 0 <= k < r.len() ==> #[trigger] r@[k]@ == seq![nc_char(raw@[k])],
{
    let mut r: Vec<String> = Vec::new();
    let mut i: usize = 0;
    while i < raw.len()
        invariant
            i <= raw.len(),
            r.len() == i,
            forall|k: int| 0 <= k < r.len() ==> #[trigger] r@[k]@ == seq![nc_char(raw@[k])],
        decreases raw.len() - i,
    {
        r.push(char_string(nc_char_exec(raw[i])));
        i = i + 1;
    }
    r
}

/// The slice `[time_offset, time_offset + time_count)` of a 2-D `[TIME, DEPTH]`
/// `char` variable, one single-character string per observation. A missing
/// variable yields `" "` everywhere.
pub fn get_char_value_chunk(
    var: &Option<Vec<Vec<i8>>>,
    time_offset: usize,
    time_count: usize,
    obs_len: usize,
) -> (r: Result<Vec<String>, CtdError>)
    requires
        time_count * obs_len <= usize::MAX,
    ensures
        match grid_read(*var, time_offset as int, time_count as nat, obs_len as nat) {
            None => r matches Ok(v) && v.len() == time_count * obs_len && forall|k: int|
                0 <= k < v.len() ==> #[trigger] v@[k]@ == seq![' '],
            Some(None) => r is Err,
            Some(Some(raw)) => r matches Ok(v) && v.len() == raw.len() && forall|k: int|
                0 <= k < v.len() ==> #[trigger] v@[k]@ == seq![nc_char(raw[k])],
        },
{
    match var {
        None => Ok(repeat_string(&char_string(' '), time_count * obs_len)),
        Some(g) => {
            let raw = slice_rows(g, time_offset, time_count, obs_len)?;
            Ok(map_char_strings(&raw))
        },
    }
}

/// A blank character: NUL or space.
pub open spec fn is_blank(c: char) -> bool {
    c == '\0' || c == ' '
}

/// The QC string of a `char` flag: the character itself, or `""` when blank.
pub open spec fn char_qc_text(c: char) -> Seq<char> {
    if is_blank(c) {
        Seq::empty()
    } else {
        seq![c]
    }
}

/// A `char` QC flag is kept verbatim as a one-character string unless it is
/// a space or a NUL, which read as a missing flag (`""`).
pub proof fn lemma_char_qc_keeps_flags(c: char)
    ensures
        c != ' ' && c != '\0' ==> char_qc_text(c) == seq![c],
        c != ' ' && c != '\0' ==> char_qc_text(c).len() == 1 && char_qc_text(c)[0] == c,
        c == ' ' || c == '\0' ==> char_qc_text(c).len() == 0,
{
}

/// A `char` QC variable read like `get_char_value_chunk`, with blank flags
/// (space or NUL) mapped to `""` and every other character kept verbatim, so
/// non-numeric codes such as `'A'` survive.
pub fn get_qc_value_from_char_chunk(
    var: &Option<Vec<Vec<i8>>>,
    time_offset: usize,
    time_count: usize,
    obs_len: usize,
) -> (r: Result<Vec<String>, CtdError>)
    requires
        time_count * obs_len <= usize::MAX,
    ensures
        match grid_read(*var, time_offset as int, time_count as nat, obs_len as nat) {
            None => r matches Ok(v) && v.len() == time_count * obs_len && forall|k: int|
                0 <= k < v.len() ==> #[trigger] v@[k]@ == Seq::<char>::empty(),
            Some(None) => r is Err,
            Some(Some(raw)) => r matches Ok(v) && v.len() == raw.len() && (forall|k: int|
                0 <= k < v.len() ==> #[trigger] v@[k]@ == char_qc_text(nc_char(raw[k]))) && (forall|k: int|
                0 <= k < v.len() ==> (#[trigger] v@[k])@ == if nc_char(raw[k]) == ' ' || nc_char(raw[k])
                    == '\0' {
                    Seq::<char>::empty()
                } else {
                    seq![nc_char(raw[k])]
                }),
        },
{
    let chars = get_char_value_chunk(var, time_offset, time_count, obs_len)?;
    let mut r: Vec<String> = Vec::new();
    let mut i: usize = 0;
    while i < chars.len()
        invariant
            i <= chars.len(),
            r.len() == i,
            forall|k: int| 0 <= k < chars.len() ==> #[trigger] chars@[k]@.len() == 1,
            forall|k: int| 0 <= k < r.len() ==> #[trigger] r@[k]@ == char_qc_text(chars@[k]@[0]),
        decreases chars.len() - i,
    {
        let c = chars[i].as_str().get_char(0);
        if c != '\0' && c != ' ' {
            r.push(char_string(c));
        } else {
            r.push(String::new());
        }
        i = i + 1;
    }
    Ok(r)
}

} // verus!

verus! {

/// The characters of `raw` with every blank (space or NUL) dropped.
pub open spec fn strip_blanks(raw: Seq<i8>) -> Seq<char>
    decreases raw.len(),
{
    if raw.len() == 0 {
        Seq::empty()
    } else {
        let rest = strip_blanks(raw.drop_last());
        if is_blank(nc_char(raw.last())) {
            rest
        } else {
            rest.push(nc_char(raw.last()))
        }
    }
}

/// The characters of a row of `char` bytes.
pub open spec fn row_chars(raw: Seq<i8>) -> Seq<char> {
    raw.map_values(|c: i8| nc_char(c))
}

/// `s` without its leading blanks (spaces and NULs).
pub open spec fn trim_start_blanks(s: Seq<char>) -> Seq<char>
    decreases s.len(),
{
    if s.len() > 0 && is_blank(s[0]) {
        trim_start_blanks(s.drop_first())
    } else {
        s
    }
}

/// `s` without its trailing blanks (spaces and NULs).
pub open spec fn trim_end_blanks(s: Seq<char>) -> Seq<char>
    decreases s.len(),
{
    if s.len() > 0 && is_blank(s.last()) {
        trim_end_blanks(s.drop_last())
    } else {
        s
    }
}

/// `s` trimmed of blanks (spaces and NULs) at both ends.
pub open spec fn trim_blanks(s: Seq<char>) -> Seq<char> {
    trim_end_blanks(trim_start_blanks(s))
}

/// Dropping the `lo` leading blanks, followed by a non-blank or the end, is
/// the start trim.
proof fn lemma_trim_start(s: Seq<char>, lo: int)
    requires
        0 <= lo <= s.len(),
        forall|i: int| 0 <= i < lo ==> is_blank(#[trigger] s[i]),
        lo == s.len() || !is_blank(s[lo]),
    ensures
        trim_start_blanks(s) == s.skip(lo),
    decreases lo,
{
    if lo == 0 {
        assert(s.skip(0) =~= s);
    } else {
        assert(is_blank(s[0]));
        let t = s.drop_first();
        assert forall|i: int| 0 <= i < lo - 1 implies is_blank(#[trigger] t[i]) by {
            assert(t[i] == s[i + 1]);
        }
        if lo - 1 < t.len() {
            assert(t[lo - 1] == s[lo]);
        }
        lemma_trim_start(t, lo - 1);
        assert(t.skip(lo - 1) =~= s.skip(lo));
    }
}

/// Keeping the first `m` characters, when all after them are blanks and the
/// last kept one is not, is the end trim.
proof fn lemma_trim_end(t: Seq<char>, m: int)
    requires
        0 <= m <= t.len(),
        forall|i: int| m <= i < t.len() ==> is_blank(#[trigger] t[i]),
        m == 0 || !is_blank(t[m - 1]),
    ensures
        trim_end_blanks(t) == t.take(m),
    decreases t.len() - m,
{
    if m == t.len() {
        assert(t.take(m) =~= t);
        if t.len() > 0 {
            assert(t.last() == t[m - 1]);
        }
    } else {
        assert(is_blank(t[t.len() - 1]));
        let u = t.drop_last();
        assert forall|i: int| m <= i < u.len() implies is_blank(#[trigger] u[i]) by {
            assert(u[i] == t[i]);
        }
        if m > 0 {
            assert(u[m - 1] == t[m - 1]);
        }
        lemma_trim_end(u, m);
        assert(u.take(m) =~= t.take(m));
    }
}

/// The name held by a fixed-width `char` row: its first `max_len` characters
/// trimmed of blanks at both ends.
pub fn trim_blank_chars(row: &Vec<i8>, max_len: usize) -> (r: String)
    requires
        max_len <= row.len(),
    ensures
        r@ == trim_blanks(row_chars(row@.take(max_len as int))),
{
    let ghost s = row_chars(row@.take(max_len as int));
    let mut lo: usize = 0;
    while lo < max_len && (nc_char_exec(row[lo]) == '\0' || nc_char_exec(row[lo]) == ' ')
        invariant
            lo <= max_len <= row.len(),
            s == row_chars(row@.take(max_len as int)),
            s.len() == max_len,
            forall|i: int| 0 <= i < lo ==> is_blank(#[trigger] s[i]),
        decreases max_len - lo,
    {
        assert(s[lo as int] == nc_char(row@[lo as int]));
        lo = lo + 1;
    }
    let mut hi: usize = max_len;
    while hi > lo && (nc_char_exec(row[hi - 1]) == '\0' || nc_char_exec(row[hi - 1]) == ' ')
        invariant
            lo <= hi <= max_len <= row.len(),
            s == row_chars(row@.take(max_len as int)),
            s.len() == max_len,
            forall|i: int| hi <= i < max_len ==> is_blank(#[trigger] s[i]),
        decreases hi,
    {
        assert(s[hi - 1] == nc_char(row@[hi - 1]));
        hi = hi - 1;
    }
    proof {
        if lo < max_len {
            assert(s[lo as int] == nc_char(row@[lo as int]));
        }
        if hi > lo {
            assert(s[hi - 1] == nc_char(row@[hi - 1]));
        }
        lemma_trim_start(s, lo as int);
        let t = s.skip(lo as int);
        assert forall|i: int| hi - lo <= i < t.len() implies is_blank(#[trigger] t[i]) by {
            assert(t[i] == s[i + lo]);
        }
        if hi > lo {
            assert(t[hi - lo - 1] == s[hi - 1]);
        }
        lemma_trim_end(t, hi - lo);
    }
    let mut r = String::new();
    let mut i: usize = lo;
    while i < hi
        invariant
            lo <= i <= hi <= max_len <= row.len(),
            s == row_chars(row@.take(max_len as int)),
            s.len() == max_len,
            r@ == s.subrange(lo as int, i as int),
        decreases hi - i,
    {
        let c = nc_char_exec(row[i]);
        push_char(&mut r, c);
        proof {
            assert(s[i as int] == c);
            assert(s.subrange(lo as int, i + 1) =~= s.subrange(lo as int, i as int).push(c));
        }
        i = i + 1;
    }
    proof {
        assert(s.skip(lo as int).take(hi - lo) =~= s.subrange(lo as int, hi as int));
    }
    r
}

/// Each string of `names` repeated `n` times in place.
pub fn tile_strings(names: &Vec<String>, n: usize) -> (r: Vec<String>)
    requires
        names.len() * n <= usize::MAX,
    ensures
        r.len() == names.len() * n,
        forall|k: int| 0 <= k < r.len() ==> #[trigger] r@[k]@ == names@[k / (n as int)]@,
{
    let mut r: Vec<String> = Vec::new();
    let mut p: usize = 0;
    while p < names.len()
        invariant
            p <= names.len(),
            names.len() * n <= usize::MAX,
            r.len() == p * n,
            forall|k: int| 0 <= k < r.len() ==> #[trigger] r@[k]@ == names@[k / (n as int)]@,
        decreases names.len() - p,
    {
        assert((p + 1) * n <= names.len() * n) by (nonlinear_arith)
            requires p + 1 <= names.len();
        let mut o: usize = 0;
        while o < n
            invariant
                p < names.len(),
                o <= n,
                (p + 1) * n <= usize::MAX,
                r.len() == p * n + o,
                forall|k: int| 0 <= k < r.len() ==> #[trigger] r@[k]@ == names@[k / (n as int)]@,
            decreases n - o,
        {
            assert((p + 1) * n == p * n + n) by (nonlinear_arith);
            proof {
                lemma_block_index(p as int, o as int, n as int);
            }
            r.push(names[p].clone());
            o = o + 1;
        }
        assert((p + 1) * n == p * n + n) by (nonlinear_arith);
        p = p + 1;
    }
    r
}

/// Whether profiles `[p0, p0 + pc)` of a fixed-width `char` variable exist and
/// hold at least `max_len` characters each.
pub open spec fn names_in_bounds(g: Seq<Vec<i8>>, p0: int, pc: int, max_len: int) -> bool {
    &&& p0 + pc <= g.len()
    &&& forall|p: int| p0 <= p < p0 + pc ==> max_len <= #[trigger] g[p]@.len()
}

/// The slice `[prof_offset, prof_offset + prof_count)` of a 2-D
/// `[N_PROF, STRING<max_len>]` `char` variable (e.g. `PLATFORM_NUMBER`): one
/// name per profile, trimmed of blanks at both ends, repeated `obs_len` times. A missing
/// variable yields `" "` everywhere.
pub fn get_char_value2_chunk(
    var: &Option<Vec<Vec<i8>>>,
    prof_offset: usize,
    prof_count: usize,
    obs_len: usize,
    max_len: usize,
) -> (r: Result<Vec<String>, CtdError>)
    requires
        prof_count * obs_len <= usize::MAX,
    ensures
        match *var {
            None => r matches Ok(v) && v.len() == prof_count * obs_len && forall|k: int|
                0 <= k < v.len() ==> #[trigger] v@[k]@ == seq![' '],
            Some(g) => if names_in_bounds(
                g@,
                prof_offset as int,
                prof_count as int,
                max_len as int,
            ) {
                r matches Ok(v) && v.len() == prof_count * obs_len && forall|k: int|
                    0 <= k < v.len() ==> #[trigger] v@[k]@ == trim_blanks(
                        row_chars(g@[prof_offset + k / (obs_len as int)]@.take(max_len as int)),
                    )
            } else {
                r is Err
            },
        },
{
    match var {
        None => Ok(repeat_string(&char_string(' '), prof_count * obs_len)),
        Some(g) => {
            if prof_offset > g.len() || prof_count > g.len() - prof_offset {
                return Err(
                    CtdError::SliceOutOfBounds { start: prof_offset, end: prof_offset, len: g.len() },
                );
            }
            let mut names: Vec<String> = Vec::new();
            let mut p: usize = 0;
            while p < prof_count
                invariant
                    p <= prof_count,
                    *var == Some(*g),
                    prof_offset + prof_count <= g.len(),
                    names.len() == p,
                    forall|q: int| prof_offset <= q < prof_offset + p ==> max_len <= #[trigger] g@[q]@.len(),
                    forall|q: int| 0 <= q < p ==> #[trigger] names@[q]@ == trim_blanks(
                        row_chars(g@[prof_offset + q]@.take(max_len as int)),
                    ),
                decreases prof_count - p,
            {
                let row = &g[prof_offset + p];
                if row.len() < max_len {
                    assert(!names_in_bounds(g@, prof_offset as int, prof_count as int, max_len as int));
                    return Err(CtdError::SliceOutOfBounds { start: 0, end: max_len, len: row.len() });
                }
                names.push(trim_blank_chars(row, max_len));
                p = p + 1;
            }
            let r = tile_strings(&names, obs_len);
            assert forall|k: int| 0 <= k < r.len() implies #[trigger] r@[k]@ == trim_blanks(
                row_chars(g@[prof_offset + k / (obs_len as int)]@.take(max_len as int)),
            ) by {
                lemma_index_in_block(k, prof_count as int, obs_len as int);
            }
            Ok(r)
        },
    }
}

/// Every character of a `char` variable as a one-character string, each
/// repeated `nrow` times. A missing variable yields an empty vector.
pub fn get_char_vector3(var: &Option<Vec<i8>>, nrow: usize) -> (r: Result<Vec<String>, CtdError>)
    requires
        var matches Some(v) ==> v.len() * nrow <= usize::MAX,
    ensures
        match *var {
            None => r matches Ok(v) && v.len() == 0,
            Some(raw) => r matches Ok(v) && v.len() == raw.len() * nrow && forall|k: int|
                0 <= k < v.len() ==> #[trigger] v@[k]@ == seq![nc_char(raw@[k / (nrow as int)])],
        },
{
    match var {
        None => Ok(Vec::new()),
        Some(raw) => {
            let chars = map_char_strings(raw);
            let r = tile_strings(&chars, nrow);
            assert forall|k: int| 0 <= k < r.len() implies #[trigger] r@[k]@ == seq![
                nc_char(raw@[k / (nrow as int)]),
            ] by {
                lemma_index_in_block(k, raw.len() as int, nrow as int);
            }
            Ok(r)
        },
    }
}

} // verus!

verus! {

/// The outer index at which a deployment starts; negative indices count as 0.
pub open spec fn deploy_start(idx: i32) -> int {
    if idx < 0 {
        0
    } else {
        idx as int
    }
}

/// Deployment `j` (among the first `m`) is the one active at outer index `t`:
/// it has started by `t`, and no other started deployment begins later (on a
/// tie in start index, the one listed last wins).
pub open spec fn is_active_deployment(starts: Seq<i32>, m: int, t: int, j: int) -> bool {
    &&& 0 <= j < m
    &&& deploy_start(starts[j]) <= t
    &&& forall|k: int|
        0 <= k < m && deploy_start(#[trigger] starts[k]) <= t ==> deploy_start(starts[k])
            < deploy_start(starts[j]) || (deploy_start(starts[k]) == deploy_start(starts[j]) && k
            <= j)
}

/// The coordinate of the deployment active at outer index `t`, or `missing`
/// when no deployment has started yet. Deployments are paired with
/// coordinates by position; unpaired entries are ignored.
pub open spec fn deployment_value<T>(starts: Seq<i32>, coords: Seq<T>, t: int, missing: T) -> T {
    if exists|j: int| is_active_deployment(starts, paired_len(starts, coords), t, j) {
        coords[choose|j: int| is_active_deployment(starts, paired_len(starts, coords), t, j)]
    } else {
        missing
    }
}

/// How many deployments have both a start index and a coordinate.
pub open spec fn paired_len<T>(starts: Seq<i32>, coords: Seq<T>) -> int {
    if starts.len() <= coords.len() {
        starts.len() as int
    } else {
        coords.len() as int
    }
}

/// At most one deployment is active at an outer index.
pub proof fn lemma_active_deployment_unique(starts: Seq<i32>, m: int, t: int, j1: int, j2: int)
    requires
        is_active_deployment(starts, m, t, j1),
        is_active_deployment(starts, m, t, j2),
    ensures
        j1 == j2,
{
    assert(deploy_start(starts[j2]) <= t);
    assert(deploy_start(starts[j1]) <= t);
}

/// The coordinate active at outer index `t` (see `deployment_value`).
fn active_deployment_value<T: Copy>(starts: &Vec<i32>, coords: &Vec<T>, t: usize, missing: T) -> (r: T)
    ensures
        r == deployment_value(starts@, coords@, t as int, missing),
{
    let m = if starts.len() <= coords.len() { starts.len() } else { coords.len() };
    let mut best: Option<usize> = None;
    let mut best_start: usize = 0;
    let mut j: usize = 0;
    while j < m
        invariant
            j <= m,
            m <= starts.len(),
            m <= coords.len(),
            best matches Some(b) ==> is_active_deployment(starts@, j as int, t as int, b as int)
                && best_start == deploy_start(starts@[b as int]),
            best is None ==> forall|k: int| 0 <= k < j ==> deploy_start(#[trigger] starts@[k]) > t,
        decreases m - j,
    {
        let s: usize = if starts[j] < 0 { 0 } else { starts[j] as usize };
        if s <= t && (best.is_none() || s >= best_start) {
            best = Some(j);
            best_start = s;
        }
        j = j + 1;
    }
    let ghost mm = paired_len(starts@, coords@);
    match best {
        Some(b) => {
            proof {
                assert(is_active_deployment(starts@, mm, t as int, b as int));
                let c = choose|i: int| is_active_deployment(starts@, paired_len(starts@, coords@), t as int, i);
                lemma_active_deployment_unique(starts@, mm, t as int, c, b as int);
                assert(deployment_value(starts@, coords@, t as int, missing) == coords@[b as int]);
            }
            coords[b]
        },
        None => {
            assert forall|i: int| !is_active_deployment(starts@, mm, t as int, i) by {
                if 0 <= i < mm {
                    assert(deploy_start(starts@[i]) > t);
                }
            }
            assert(deployment_value(starts@, coords@, t as int, missing) == missing);
            missing
        },
    }
}

/// The deployment-indexed coordinate resolved for each outer index in
/// `[t_start, t_end)` (see `deployment_value`), each value repeated `obs_len`
/// times. Deployment start indices need not be sorted. Resolution is anchored
/// to absolute outer indices, so a chunk resolves exactly as in a whole-file pass.
pub fn expand_coords_from_indices_range<T: Copy>(
    deploy_indices: &Vec<i32>,
    coord_values: &Vec<T>,
    t_start: usize,
    t_end: usize,
    obs_len: usize,
    missing: T,
) -> (r: Vec<T>)
    requires
        t_start <= t_end,
        (t_end - t_start) * obs_len <= usize::MAX,
    ensures
        r@ == tile(
            Seq::new(
                (t_end - t_start) as nat,
                |i: int| deployment_value(deploy_indices@, coord_values@, t_start + i, missing),
            ),
            obs_len as nat,
        ),
{
    let mut values: Vec<T> = Vec::new();
    let mut t: usize = t_start;
    while t < t_end
        invariant
            t_start <= t <= t_end,
            values@ == Seq::new(
                (t - t_start) as nat,
                |i: int| deployment_value(deploy_indices@, coord_values@, t_start + i, missing),
            ),
        decreases t_end - t,
    {
        values.push(active_deployment_value(deploy_indices, coord_values, t, missing));
        t = t + 1;
        assert(values@ =~= Seq::new(
            (t - t_start) as nat,
            |i: int| deployment_value(deploy_indices@, coord_values@, t_start + i, missing),
        ));
    }
    tile_vec(&values, obs_len)
}

/// Whole-dimension form of `expand_coords_from_indices_range`: outer indices
/// `[0, time_len)`, result length `time_len * obs_len`.
pub fn expand_coords_from_indices<T: Copy>(
    deploy_indices: &Vec<i32>,
    coord_values: &Vec<T>,
    time_len: usize,
    obs_len: usize,
    missing: T,
) -> (r: Vec<T>)
    requires
        time_len * obs_len <= usize::MAX,
    ensures
        r@ == tile(
            Seq::new(
                time_len as nat,
                |i: int| deployment_value(deploy_indices@, coord_values@, i, missing),
            ),
            obs_len as nat,
        ),
{
    let r = expand_coords_from_indices_range(deploy_indices, coord_values, 0, time_len, obs_len, missing);
    assert(Seq::new(
        time_len as nat,
        |i: int| deployment_value(deploy_indices@, coord_values@, 0 + i, missing),
    ) =~= Seq::new(
        time_len as nat,
        |i: int| deployment_value(deploy_indices@, coord_values@, i, missing),
    ));
    r
}

/// Expand a deployment-indexed coordinate variable (`DEPLOY_LATITUDE` or
/// `DEPLOY_LONGITUDE`, given as `coords`) over the outer slice
/// `[time_offset, time_offset + time_count)` using the `DEPLOYMENT` start
/// indices. A missing `DEPLOYMENT` or coordinate variable yields `missing`
/// everywhere; the two variables must have the same length.
pub fn expand_deploy_coords_chunk<T: Copy>(
    deployment: &Option<Vec<i32>>,
    coords: &Option<Vec<T>>,
    var_name: &str,
    time_offset: usize,
    time_count: usize,
    obs_len: usize,
    missing: T,
) -> (r: Result<Vec<T>, CtdError>)
    requires
        time_offset + time_count <= usize::MAX,
        time_count * obs_len <= usize::MAX,
    ensures
        match (*deployment, *coords) {
            (Some(d), Some(c)) => if d.len() != c.len() {
                r matches Err(CtdError::DeployLengthMismatch { var_name: v, deploy_len, coord_len })
                    && v@ == var_name@ && deploy_len == d.len() && coord_len == c.len()
            } else {
                r matches Ok(v) && v@ == tile(
                    Seq::new(
                        time_count as nat,
                        |i: int| deployment_value(d@, c@, time_offset + i, missing),
                    ),
                    obs_len as nat,
                )
            },
            _ => r matches Ok(v) && v@ == repeat(missing, (time_count * obs_len) as nat),
        },
{
    let n = time_count * obs_len;
    match deployment {
        None => Ok(repeat_vec(missing, n)),
        Some(d) => match coords {
            None => Ok(repeat_vec(missing, n)),
            Some(c) => {
                if d.len() != c.len() {
                    Err(
                        CtdError::DeployLengthMismatch {
                            var_name: String::from_str(var_name),
                            deploy_len: d.len(),
                            coord_len: c.len(),
                        },
                    )
                } else {
                    let r = expand_coords_from_indices_range(
                        d,
                        c,
                        time_offset,
                        time_offset + time_count,
                        obs_len,
                        missing,
                    );
                    assert(Seq::new(
                        ((time_offset + time_count) - time_offset) as nat,
                        |i: int| deployment_value(d@, c@, time_offset + i, missing),
                    ) =~= Seq::new(
                        time_count as nat,
                        |i: int| deployment_value(d@, c@, time_offset + i, missing),
                    ));
                    Ok(r)
                }
            },
        },
    }
}

/// The elements `s[i]` for `i < n` whose mask bit is set, in order.
pub open spec fn masked<T>(s: Seq<T>, keep: Seq<bool>, n: nat) -> Seq<T>
    decreases n,
{
    if n == 0 {
        Seq::empty()
    } else {
        let rest = masked(s, keep, (n - 1) as nat);
        if keep[n - 1] {
            rest.push(s[n - 1])
        } else {
            rest
        }
    }
}

/// Keep the elements of `v` whose mask bit is set, in order.
pub fn retain_by_mask<T>(v: Vec<T>, keep: &Vec<bool>) -> (r: Vec<T>)
    requires
        v.len() == keep.len(),
    ensures
        r@ == masked(v@, keep@, v.len() as nat),
{
    let ghost vs = v@;
    let n = v.len();
    let mut r: Vec<T> = Vec::new();
    let mut i: usize = 0;
    for x in it: v.into_iter()
        invariant
            i == it.index(),
            it.seq() == vs,
            n == vs.len(),
            keep.len() == n,
            r@ == masked(vs, keep@, i as nat),
    {
        if keep[i] {
            r.push(x);
        }
        i = i + 1;
    }
    r
}

} // verus!
