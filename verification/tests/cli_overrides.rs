use ctddump::cli::{CoraArgs, NrtArgs};
use ctddump::convert::cora_config::{CoraConfig, QcType};
use ctddump::convert::nrt_config::NrtConfig;

fn nrt_args(
    deph_source: bool,
    no_deph_source: bool,
    profile_coords: bool,
    no_profile_coords: bool,
    pattern: Option<&str>,
) -> NrtArgs {
    NrtArgs {
        deph_source,
        no_deph_source,
        profile_coords,
        no_profile_coords,
        pattern: pattern.map(str::to_string),
    }
}

fn cora_args(
    time_var: Option<&str>,
    qc_type: Option<QcType>,
    time_qc: bool,
    no_time_qc: bool,
    deph_source: bool,
    no_deph_source: bool,
    pattern: Option<&str>,
) -> CoraArgs {
    CoraArgs {
        time_var: time_var.map(str::to_string),
        qc_type,
        time_qc,
        no_time_qc,
        deph_source,
        no_deph_source,
        pattern: pattern.map(str::to_string),
    }
}

#[test]
fn test_nrt_no_flags_leaves_config_unchanged() {
    let mut cfg = NrtConfig::nrt_bo();
    nrt_args(false, false, false, false, None).apply_to(&mut cfg);
    assert!(cfg.has_deph_source);
    assert!(cfg.has_profile_coords);
    assert!(cfg.pattern.is_none());
}

#[test]
fn test_nrt_deph_source_enables() {
    let mut cfg = NrtConfig::nrt_ar();
    nrt_args(true, false, false, false, None).apply_to(&mut cfg);
    assert!(cfg.has_deph_source);
}

#[test]
fn test_nrt_no_deph_source_disables() {
    let mut cfg = NrtConfig::nrt_bo();
    nrt_args(false, true, false, false, None).apply_to(&mut cfg);
    assert!(!cfg.has_deph_source);
}

#[test]
fn test_nrt_profile_coords_enables() {
    let mut cfg = NrtConfig::nrt_ar();
    nrt_args(false, false, true, false, None).apply_to(&mut cfg);
    assert!(cfg.has_profile_coords);
}

#[test]
fn test_nrt_no_profile_coords_disables() {
    let mut cfg = NrtConfig::nrt_bo();
    nrt_args(false, false, false, true, None).apply_to(&mut cfg);
    assert!(!cfg.has_profile_coords);
}

#[test]
fn test_nrt_pattern_sets_pattern() {
    let mut cfg = NrtConfig::nrt_ar();
    nrt_args(false, false, false, false, Some("MY_*.nc")).apply_to(&mut cfg);
    assert_eq!(cfg.pattern.as_deref(), Some("MY_*.nc"));
}

#[test]
fn test_nrt_none_pattern_does_not_clear_existing() {
    let mut cfg = NrtConfig::nrt_ar();
    cfg.pattern = Some("OLD_*.nc".to_string());
    nrt_args(false, false, false, false, None).apply_to(&mut cfg);
    assert_eq!(cfg.pattern.as_deref(), Some("OLD_*.nc"));
}

#[test]
fn test_cora_no_flags_leaves_config_unchanged() {
    let mut cfg = CoraConfig::cora();
    cora_args(None, None, false, false, false, false, None).apply_to(&mut cfg);
    assert_eq!(cfg.time_var, "TIME");
    assert_eq!(cfg.qc_type, QcType::Int);
    assert!(cfg.has_time_qc);
    assert!(cfg.has_deph_source);
}

#[test]
fn test_cora_time_var_override() {
    let mut cfg = CoraConfig::cora();
    cora_args(Some("JULD"), None, false, false, false, false, None).apply_to(&mut cfg);
    assert_eq!(cfg.time_var, "JULD");
}

#[test]
fn test_cora_qc_type_override_to_char() {
    let mut cfg = CoraConfig::cora();
    cora_args(None, Some(QcType::Char), false, false, false, false, None).apply_to(&mut cfg);
    assert_eq!(cfg.qc_type, QcType::Char);
}

#[test]
fn test_cora_no_time_qc_disables() {
    let mut cfg = CoraConfig::cora();
    cora_args(None, None, false, true, false, false, None).apply_to(&mut cfg);
    assert!(!cfg.has_time_qc);
}

#[test]
fn test_cora_time_qc_enables() {
    let mut cfg = CoraConfig::cora_legacy();
    cora_args(None, None, true, false, false, false, None).apply_to(&mut cfg);
    assert!(cfg.has_time_qc);
}

#[test]
fn test_cora_deph_source_enables() {
    let mut cfg = CoraConfig::cora_legacy();
    cora_args(None, None, false, false, true, false, None).apply_to(&mut cfg);
    assert!(cfg.has_deph_source);
}

#[test]
fn test_cora_no_deph_source_disables() {
    let mut cfg = CoraConfig::cora();
    cora_args(None, None, false, false, false, true, None).apply_to(&mut cfg);
    assert!(!cfg.has_deph_source);
}

#[test]
fn test_cora_pattern_sets_pattern() {
    let mut cfg = CoraConfig::cora();
    cora_args(None, None, false, false, false, false, Some("CO_*.nc")).apply_to(&mut cfg);
    assert_eq!(cfg.pattern.as_deref(), Some("CO_*.nc"));
}

#[test]
fn nrt_flag_pair_prefers_the_enabling_flag() {
    // Both flags given: the enabling one is checked first.
    let mut cfg = NrtConfig::nrt_ar();
    nrt_args(true, true, true, true, None).apply_to(&mut cfg);
    assert!(cfg.has_deph_source);
    assert!(cfg.has_profile_coords);
}

#[test]
fn applying_the_same_overrides_twice_changes_nothing_more() {
    let args = cora_args(Some("JULD"), Some(QcType::Char), false, true, true, false, Some("X*"));
    let mut once = CoraConfig::cora();
    args.apply_to(&mut once);
    let mut twice = CoraConfig::cora();
    args.apply_to(&mut twice);
    args.apply_to(&mut twice);
    assert_eq!(once.time_var, twice.time_var);
    assert_eq!(once.qc_type, twice.qc_type);
    assert_eq!(once.has_time_qc, twice.has_time_qc);
    assert_eq!(once.has_deph_source, twice.has_deph_source);
    assert_eq!(once.pattern, twice.pattern);
}

#[test]
fn region_defaults_match_the_documented_table() {
    let bo = NrtConfig::nrt_bo();
    assert!(bo.has_deph_source && bo.has_profile_coords);
    let gl = NrtConfig::nrt_gl();
    assert!(gl.has_deph_source && !gl.has_profile_coords);
    let ar = NrtConfig::nrt_ar();
    assert!(!ar.has_deph_source && !ar.has_profile_coords);
    let mo = NrtConfig::nrt_mo();
    assert!(!mo.has_deph_source && !mo.has_profile_coords);
    let legacy = CoraConfig::cora_legacy();
    assert_eq!(legacy.time_var, "JULD");
    assert_eq!(legacy.qc_type, QcType::Char);
    assert!(!legacy.has_time_qc && !legacy.has_deph_source);
}
