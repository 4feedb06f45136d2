use vstd::prelude::*;

verus! {

/// How QC flags are stored in the NetCDF source file. Both storage types are
/// turned into single-character strings; a missing flag becomes `""`.
#[derive(Debug, Clone, Copy, PartialEq, Eq, Structural)]
pub enum QcType {
    /// QC flags stored as bytes (`i8`); digits 0-9 become `"0"`-`"9"`.
    Int,
    /// QC flags stored as ASCII characters, kept verbatim.
    Char,
}

/// Configuration that describes the structure of a CORA NetCDF source file.
#[derive(Debug, Clone)]
pub struct CoraConfig {
    /// Name of the time variable (`"TIME"` for the current format, `"JULD"` for legacy).
    pub time_var: String,
    /// Storage type of QC flags in the source file.
    pub qc_type: QcType,
    /// Whether the source file contains TIME_QC and POSITION_QC variables.
    pub has_time_qc: bool,
    /// Whether the source file contains a DEPH variable.
    pub has_deph_source: bool,
    /// Filename glob used for batch selection; `None` means the subcommand default.
    pub pattern: Option<String>,
}

impl CoraConfig {
    /// Whether `c` is the built-in current-format configuration.
    pub open spec fn is_cora_default(c: Self) -> bool {
        &&& c.time_var@ == "TIME"@
        &&& c.qc_type == QcType::Int
        &&& c.has_time_qc
        &&& c.has_deph_source
        &&& c.pattern is None
    }

    /// Whether `c` is the built-in legacy-format configuration.
    pub open spec fn is_cora_legacy_default(c: Self) -> bool {
        &&& c.time_var@ == "JULD"@
        &&& c.qc_type == QcType::Char
        &&& !c.has_time_qc
        &&& !c.has_deph_source
        &&& c.pattern is None
    }

    /// Current CORA format: integer QC, TIME variable, DEPH present.
    pub fn cora() -> (c: Self)
        ensures
            Self::is_cora_default(c),
            c.time_var@ == "TIME"@,
            c.qc_type == QcType::Int,
            c.has_time_qc,
            c.has_deph_source,
            c.pattern is None,
    {
        CoraConfig {
            time_var: String::from_str("TIME"),
            qc_type: QcType::Int,
            has_time_qc: true,
            has_deph_source: true,
            pattern: None,
        }
    }

    /// Legacy CORA format: char QC, JULD variable, no DEPH.
    pub fn cora_legacy() -> (c: Self)
        ensures
            Self::is_cora_legacy_default(c),
            c.time_var@ == "JULD"@,
            c.qc_type == QcType::Char,
            !c.has_time_qc,
            !c.has_deph_source,
            c.pattern is None,
    {
        CoraConfig {
            time_var: String::from_str("JULD"),
            qc_type: QcType::Char,
            has_time_qc: false,
            has_deph_source: false,
            pattern: None,
        }
    }
}

} // verus!
