//! NRT conversion: the decisions made per file before its chunks are read.

use vstd::prelude::*;

use crate::convert::nrt_config::NrtConfig;

verus! {

/// Where a profile's own coordinates come from.
#[derive(Clone, Copy, Debug, PartialEq, Eq, Structural)]
pub enum CoordSource {
    /// `PRECISE_LONGITUDE` / `PRECISE_LATITUDE`.
    Precise,
    /// `DEPLOY_LONGITUDE` / `DEPLOY_LATITUDE`, expanded by the `DEPLOYMENT` index.
    Deploy,
    /// Neither: the profile coordinates are NaN.
    Missing,
}

/// The best available source of profile coordinates: the precise ones when
/// the file has them, else the deployment ones, else none.
pub fn profile_coord_source(has_precise: bool, has_deploy: bool) -> (r: CoordSource)
    ensures
        has_precise ==> r == CoordSource::Precise,
        !has_precise && has_deploy ==> r == CoordSource::Deploy,
        !has_precise && !has_deploy ==> r == CoordSource::Missing,
{
    if has_precise {
        CoordSource::Precise
    } else if has_deploy {
        CoordSource::Deploy
    } else {
        CoordSource::Missing
    }
}

/// Whether `DEPH` is read: when the configuration says the region sources
/// it, and whenever the file holds it, since some files ship `DEPH` in place
/// of `PRES`.
pub fn uses_deph(config: &NrtConfig, file_has_deph: bool) -> (r: bool)
    ensures
        r == (config.has_deph_source || file_has_deph),
{
    config.has_deph_source || file_has_deph
}

/// The number of rows of a chunk of `time_count` profiles of `obs_len`
/// levels each.
pub fn chunk_size(time_count: usize, obs_len: usize) -> (r: Option<usize>)
    ensures
        r matches Some(n) ==> n == time_count * obs_len,
        r is None ==> time_count * obs_len > usize::MAX,
{
    time_count.checked_mul(obs_len)
}

} // verus!
