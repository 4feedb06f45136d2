//! CORA conversion: how a chunk's QC flags are read, by the configured QC type.

use vstd::prelude::*;

use crate::convert::common::{
    char_qc_text, get_qc_value_chunk, get_qc_value_from_char_chunk, grid_read, nc_char, qc_text,
};
use crate::convert::cora_config::{CoraConfig, QcType};
use crate::error::CtdError;

verus! {

/// The QC string of raw flag `f` under QC type `t`: digit text for integer
/// flags, the character itself (blank as `""`) for `char` flags.
pub open spec fn flag_text(t: QcType, f: i8) -> Seq<char> {
    match t {
        QcType::Int => qc_text(f),
        QcType::Char => char_qc_text(nc_char(f)),
    }
}

/// The flags `[prof_offset, prof_offset + prof_count)` of a 2-D QC variable,
/// read as integer or `char` flags according to `qc_type`. A missing variable
/// gives `""` everywhere; a slice outside the variable is an error.
pub fn read_qc_chunk(
    var: &Option<Vec<Vec<i8>>>,
    qc_type: QcType,
    prof_offset: usize,
    prof_count: usize,
    n_levels: usize,
) -> (r: Result<Vec<String>, CtdError>)
    requires
        prof_count * n_levels <= usize::MAX,
    ensures
        match grid_read(*var, prof_offset as int, prof_count as nat, n_levels as nat) {
            None => r matches Ok(v) && v.len() == prof_count * n_levels && forall|k: int|
                0 <= k < v.len() ==> #[trigger] v@[k]@ == Seq::<char>::empty(),
            Some(None) => r is Err,
            Some(Some(raw)) => r matches Ok(v) && v.len() == raw.len() && forall|k: int|
                0 <= k < v.len() ==> #[trigger] v@[k]@ == flag_text(qc_type, raw[k]),
        },
{
    match qc_type {
        QcType::Int => get_qc_value_chunk(var, prof_offset, prof_count, n_levels),
        QcType::Char => get_qc_value_from_char_chunk(var, prof_offset, prof_count, n_levels),
    }
}

/// Whether the profile-level `TIME_QC` and `POSITION_QC` are read; without
/// them both columns are `""`.
pub fn reads_profile_qc(config: &CoraConfig) -> (r: bool)
    ensures
        r == config.has_time_qc,
{
    config.has_time_qc
}

} // verus!
