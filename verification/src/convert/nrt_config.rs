use vstd::prelude::*;

verus! {

/// Configuration that describes the structure of an NRT NetCDF source file.
/// All NRT regions share the same conversion logic; only these flags differ.
#[derive(Debug, Clone)]
pub struct NrtConfig {
    /// Whether the source file contains a DEPH variable.
    pub has_deph_source: bool,
    /// Whether profile_longitude / profile_latitude are derived from
    /// PRECISE_* or DEPLOY_* coordinates.
    pub has_profile_coords: bool,
    /// Filename glob used for batch selection; `None` means the subcommand default.
    pub pattern: Option<String>,
}

impl NrtConfig {
    /// Arctic Sea (AR): PRES-only source, no profile coordinates.
    pub open spec fn spec_nrt_ar() -> Self {
        NrtConfig { has_deph_source: false, has_profile_coords: false, pattern: None }
    }

    pub fn nrt_ar() -> (c: Self)
        ensures
            c == Self::spec_nrt_ar(),
            !c.has_deph_source,
            !c.has_profile_coords,
            c.pattern is None,
    {
        NrtConfig { has_deph_source: false, has_profile_coords: false, pattern: None }
    }

    /// Baltic Sea (BO): DEPH source present, profile coordinates derived.
    pub open spec fn spec_nrt_bo() -> Self {
        NrtConfig { has_deph_source: true, has_profile_coords: true, pattern: None }
    }

    pub fn nrt_bo() -> (c: Self)
        ensures
            c == Self::spec_nrt_bo(),
            c.has_deph_source,
            c.has_profile_coords,
            c.pattern is None,
    {
        NrtConfig { has_deph_source: true, has_profile_coords: true, pattern: None }
    }

    /// Mediterranean Sea (MO): PRES-only source, no profile coordinates.
    pub open spec fn spec_nrt_mo() -> Self {
        NrtConfig { has_deph_source: false, has_profile_coords: false, pattern: None }
    }

    pub fn nrt_mo() -> (c: Self)
        ensures
            c == Self::spec_nrt_mo(),
            !c.has_deph_source,
            !c.has_profile_coords,
            c.pattern is None,
    {
        NrtConfig { has_deph_source: false, has_profile_coords: false, pattern: None }
    }

    /// Global (GL): DEPH source present, no profile coordinates.
    pub open spec fn spec_nrt_gl() -> Self {
        NrtConfig { has_deph_source: true, has_profile_coords: false, pattern: None }
    }

    pub fn nrt_gl() -> (c: Self)
        ensures
            c == Self::spec_nrt_gl(),
            c.has_deph_source,
            !c.has_profile_coords,
            c.pattern is None,
    {
        NrtConfig { has_deph_source: true, has_profile_coords: false, pattern: None }
    }
}

} // verus!
