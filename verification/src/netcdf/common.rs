//! Whole-variable forms of the column helpers used by the earlier front end:
//! each reads a variable in full rather than one outer slice at a time.

use vstd::prelude::*;

use crate::convert::common::{
    self as chunked, nc_char, path_file_stem, repeat, strip_blanks, tile, AttributeValue,
};
use crate::error::CtdError;
use crate::text::char_string;

verus! {

/// The string held by a single-string attribute, `None` for any other kind.
pub fn get_string_value(attr_value: AttributeValue) -> (r: Option<String>)
    ensures
        match attr_value {
            AttributeValue::Str(s) => r == Some(s),
            _ => r is None,
        },
{
    chunked::get_string_value(attr_value)
}

/// The file stem of `file_name` (see `convert::common::get_base_file_name`).
pub fn get_base_file_name(file_name: &str) -> (r: Result<String, CtdError>)
    requires
        path_file_stem(file_name@) is Some,
    ensures
        r matches Ok(s) && path_file_stem(file_name@) == Some(s@),
{
    chunked::get_base_file_name(file_name)
}

/// The file stem of `file_name`, or `None` when the path has no file name (the
/// case that `get_base_file_name` does not accept).
pub fn base_file_name_checked(file_name: &str) -> (r: Option<String>)
    ensures
        r matches Some(s) ==> path_file_stem(file_name@) == Some(s@),
        r is None ==> path_file_stem(file_name@) is None,
{
    match chunked::file_stem(file_name) {
        Some(_) => match get_base_file_name(file_name) {
            Ok(s) => Some(s),
            Err(_) => None,
        },
        None => None,
    }
}

/// The `platform_code` attribute repeated `vec_size` times; the attribute must
/// be a single string.
pub fn create_platform_code(attr: &Option<AttributeValue>, vec_size: usize) -> (r: Result<
    Vec<String>,
    CtdError,
>)
    requires
        attr matches Some(AttributeValue::Str(_)),
    ensures
        r matches Ok(v) && v.len() == vec_size && (forall|k: int|
            0 <= k < vec_size ==> #[trigger] v@[k]@ == attr->0->Str_0@),
{
    chunked::create_platform_code(attr, vec_size)
}

/// Profile numbers `1..=time_len`, each repeated `obs_len` times.
pub fn create_profile_no_sequence(time_len: usize, obs_len: usize) -> (r: Result<
    Vec<u32>,
    CtdError,
>)
    requires
        time_len <= u32::MAX,
        time_len * obs_len <= usize::MAX,
    ensures
        r matches Ok(v) && v@ == tile(chunked::profile_numbers(0, time_len as nat), obs_len as nat),
{
    chunked::create_profile_no_sequence(time_len, obs_len)
}

/// Observation numbers `1..=obs_len`, restarting for each of the `time_len` profiles.
pub fn create_observation_sequence(time_len: usize, obs_len: usize) -> (r: Result<
    Vec<u32>,
    CtdError,
>)
    requires
        obs_len <= u32::MAX,
        time_len * obs_len <= usize::MAX,
    ensures
        r matches Ok(v) && v@ == Seq::new(
            (time_len * obs_len) as nat,
            |k: int| (k % (obs_len as int) + 1) as u32,
        ),
{
    chunked::create_observation_sequence(time_len, obs_len)
}

/// A whole 1-D coordinate variable with each value repeated `obs_len` times; a
/// variable of length one is broadcast over `time_len * obs_len` rows, and a
/// missing one yields `fill_value` there.
pub fn get_coordinate_value<T: Copy>(
    var: &Option<Vec<T>>,
    time_len: usize,
    obs_len: usize,
    fill_value: T,
) -> (r: Result<Vec<T>, CtdError>)
    requires
        time_len * obs_len <= usize::MAX,
        var matches Some(v) ==> v.len() * obs_len <= usize::MAX,
    ensures
        r matches Ok(out) && out@ == match *var {
            None => repeat(fill_value, (time_len * obs_len) as nat),
            Some(v) => if v.len() == 1 {
                repeat(v@[0], (time_len * obs_len) as nat)
            } else {
                tile(v@, obs_len as nat)
            },
        },
{
    match var {
        None => Ok(chunked::repeat_vec(fill_value, time_len * obs_len)),
        Some(v) => {
            if v.len() == 1 {
                Ok(chunked::repeat_vec(v[0], time_len * obs_len))
            } else {
                Ok(chunked::tile_vec(v, obs_len))
            }
        },
    }
}

/// Every byte of a `char` variable as a one-character string; a missing
/// variable yields `vec_size` strings `" "`.
pub fn get_char_value(var: &Option<Vec<i8>>, vec_size: usize) -> (r: Result<Vec<String>, CtdError>)
    ensures
        match *var {
            None => r matches Ok(v) && v.len() == vec_size && forall|k: int|
                0 <= k < v.len() ==> #[trigger] v@[k]@ == seq![' '],
            Some(raw) => r matches Ok(v) && v.len() == raw.len() && forall|k: int|
                0 <= k < v.len() ==> #[trigger] v@[k]@ == seq![nc_char(raw@[k])],
        },
{
    match var {
        None => Ok(chunked::repeat_string(&char_string(' '), vec_size)),
        Some(raw) => {
            let mut r: Vec<String> = Vec::new();
            let mut i: usize = 0;
            while i < raw.len()
                invariant
                    i <= raw.len(),
                    r.len() == i,
                    forall|k: int| 0 <= k < r.len() ==> #[trigger] r@[k]@ == seq![nc_char(raw@[k])],
                decreases raw.len() - i,
            {
                r.push(char_string(chunked::nc_char_exec(raw[i])));
                i = i + 1;
            }
            Ok(r)
        },
    }
}

/// The name in the fixed-width field `col` of a flattened `char` variable:
/// characters `[col * max_len, (col + 1) * max_len)` with blanks dropped.
pub open spec fn field_name(data: Seq<i8>, col: int, max_len: int) -> Seq<char> {
    strip_blanks(data.subrange(col * max_len, col * max_len + max_len))
}

/// The `ncol` fixed-width names of a flattened `[ncol, max_len]` `char`
/// variable, blank-stripped, each repeated `nrow` times. A missing variable
/// yields `nrow * ncol` strings `" "`. The variable must hold all `ncol` fields.
pub fn get_char_value2(var: &Option<Vec<i8>>, nrow: usize, ncol: usize, max_len: usize) -> (r: Result<
    Vec<String>,
    CtdError,
>)
    requires
        nrow * ncol <= usize::MAX,
        var matches Some(data) ==> ncol * max_len <= data.len(),
    ensures
        match *var {
            None => r matches Ok(v) && v.len() == nrow * ncol && forall|k: int|
                0 <= k < v.len() ==> #[trigger] v@[k]@ == seq![' '],
            Some(data) => r matches Ok(v) && v.len() == ncol * nrow && forall|k: int|
                0 <= k < v.len() ==> #[trigger] v@[k]@ == field_name(
                    data@,
                    k / (nrow as int),
                    max_len as int,
                ),
        },
{
    match var {
        None => Ok(chunked::repeat_string(&char_string(' '), nrow * ncol)),
        Some(data) => {
            let mut names: Vec<String> = Vec::new();
            let mut col: usize = 0;
            let mut base: usize = 0;
            while col < ncol
                invariant
                    col <= ncol,
                    ncol * max_len <= data.len(),
                    base == col * max_len,
                    names.len() == col,
                    forall|q: int| 0 <= q < col ==> #[trigger] names@[q]@ == field_name(
                        data@,
                        q,
                        max_len as int,
                    ),
                decreases ncol - col,
            {
                assert((col + 1) * max_len <= ncol * max_len) by (nonlinear_arith)
                    requires col + 1 <= ncol;
                assert((col + 1) * max_len == col * max_len + max_len) by (nonlinear_arith);
                let mut s = String::new();
                let mut row: usize = 0;
                while row < max_len
                    invariant
                        row <= max_len,
                        base + max_len <= data.len(),
                        s@ == strip_blanks(data@.subrange(base as int, base + row)),
                    decreases max_len - row,
                {
                    assert(data@.subrange(base as int, base + row + 1).drop_last() =~= data@.subrange(
                        base as int,
                        base + row,
                    ));
                    let c = chunked::nc_char_exec(data[base + row]);
                    if c != '\0' && c != ' ' {
                        crate::text::push_char(&mut s, c);
                    }
                    row = row + 1;
                }
                names.push(s);
                col = col + 1;
                base = base + max_len;
            }
            assert(ncol * nrow == nrow * ncol) by (nonlinear_arith);
            let r = chunked::tile_strings(&names, nrow);
            assert forall|k: int| 0 <= k < r.len() implies #[trigger] r@[k]@ == field_name(
                data@,
                k / (nrow as int),
                max_len as int,
            ) by {
                chunked::lemma_index_in_block(k, ncol as int, nrow as int);
            }
            Ok(r)
        },
    }
}

/// Every character of a `char` variable, each repeated `nrow` times; a missing
/// variable yields an empty vector.
pub fn get_char_vector3(var: &Option<Vec<i8>>, nrow: usize) -> (r: Result<Vec<String>, CtdError>)
    requires
        var matches Some(v) ==> v.len() * nrow <= usize::MAX,
    ensures
        match *var {
            None => r matches Ok(v) && v.len() == 0,
            Some(raw) => r matches Ok(v) && v.len() == raw.len() * nrow && forall|k: int|
                0 <= k < v.len() ==> #[trigger] v@[k]@ == seq![nc_char(raw@[k / (nrow as int)])],
        },
{
    chunked::get_char_vector3(var, nrow)
}

} // verus!
