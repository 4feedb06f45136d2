use ctddump::cli::{Cli, Commands, ConcatSubcommand, ConvertFormat, CoraArgs, HeaderFormat, NrtArgs};
use ctddump::convert::cora_config::{CoraConfig, QcType};
use ctddump::convert::nrt_config::NrtConfig;
use ctddump::error::CtdError;
use ctddump::netcdf::handle_target_dispatch;
use ctddump::{config_file, run, ConfigKind, Job, LoadedConfig};

fn s(v: &str) -> String {
    v.to_string()
}

fn no_nrt_flags() -> NrtArgs {
    NrtArgs { deph_source: false, no_deph_source: false, profile_coords: false, no_profile_coords: false, pattern: None }
}

#[test]
fn convert_uses_the_region_default_with_flags_on_top() {
    let mut flags = no_nrt_flags();
    flags.no_deph_source = true;
    let cli = Cli {
        command: Commands::Convert {
            format: ConvertFormat::NrtBo { config: None, nrt_args: flags, src: s("in.nc"), dest: s("out.parquet") },
        },
    };
    let plan = run(cli, None).unwrap();
    match plan.job {
        Job::ConvertNrt { args, config } => {
            assert_eq!(args, vec![s("in.nc"), s("out.parquet")]);
            assert!(!config.has_deph_source);
            assert!(config.has_profile_coords);
        }
        other => panic!("unexpected job {other:?}"),
    }
}

#[test]
fn a_loaded_config_replaces_the_default() {
    let loaded = CoraConfig {
        time_var: s("JULD"),
        qc_type: QcType::Char,
        has_time_qc: false,
        has_deph_source: true,
        pattern: Some(s("CO_*.nc")),
    };
    let cli = Cli {
        command: Commands::Convert {
            format: ConvertFormat::Cora {
                config: Some(s("preset.toml")),
                cora_args: CoraArgs {
                    time_var: None,
                    qc_type: None,
                    time_qc: true,
                    no_time_qc: false,
                    deph_source: false,
                    no_deph_source: false,
                    pattern: None,
                },
                src: s("a.nc"),
                dest: s("a.parquet"),
            },
        },
    };
    assert_eq!(config_file(&cli), Some((s("preset.toml"), ConfigKind::Cora)));
    match run(cli, Some(LoadedConfig::Cora(loaded))).unwrap().job {
        Job::ConvertCora { config, .. } => {
            assert_eq!(config.time_var, "JULD");
            assert!(config.has_time_qc);
            assert_eq!(config.pattern.as_deref(), Some("CO_*.nc"));
        }
        other => panic!("unexpected job {other:?}"),
    }
}

#[test]
fn a_config_of_the_wrong_kind_is_refused() {
    let cli = Cli {
        command: Commands::Convert {
            format: ConvertFormat::NrtAr { config: Some(s("c.toml")), nrt_args: no_nrt_flags(), src: s("a"), dest: s("b") },
        },
    };
    let loaded = LoadedConfig::Cora(CoraConfig::cora());
    assert!(matches!(run(cli, Some(loaded)), Err(CtdError::ConfigKindMismatch)));
}

#[test]
fn header_and_concat_plans_report_their_module() {
    let cli = Cli { command: Commands::Header { format: HeaderFormat::Cora { src: s("a.nc"), dest: s("a.yaml") } } };
    let plan = run(cli, None).unwrap();
    assert_eq!(plan.config.module, "header");
    assert_eq!(plan.config.target, "cora");
    let cli = Cli {
        command: Commands::Concat {
            subcommand: ConcatSubcommand::Header { src_dir: s("/y"), output: s("all.yaml"), pattern: None },
        },
    };
    match run(cli, None).unwrap().job {
        Job::ConcatHeader { pattern, .. } => assert_eq!(pattern, "*.yaml"),
        other => panic!("unexpected job {other:?}"),
    }
}

#[test]
fn concat_convert_flags_turn_defaults_off() {
    let cli = Cli {
        command: Commands::Concat {
            subcommand: ConcatSubcommand::Convert {
                src_dir: s("/p"),
                output: s("m.parquet"),
                pattern: None,
                no_renumber: false,
                no_pres_sort: true,
                keep_na_pres: true,
                threads: Some(2),
            },
        },
    };
    match run(cli, None).unwrap().job {
        Job::ConcatConvert { config, .. } => {
            assert_eq!(config.pattern, "*.parquet");
            assert!(config.renumber);
            assert!(!config.sort_by_pres);
            assert!(!config.drop_na_pres);
            assert_eq!(config.threads, Some(2));
        }
        other => panic!("unexpected job {other:?}"),
    }
}

#[test]
fn target_dispatch_needs_a_known_target() {
    assert!(matches!(handle_target_dispatch(&vec![]), Err(CtdError::NoTarget)));
    assert!(matches!(handle_target_dispatch(&vec![s("nope")]), Err(CtdError::UnknownTarget)));
    assert_eq!(CtdError::UnknownTarget.message(), "Unknown target");
}

#[test]
fn nrt_defaults_have_no_pattern() {
    assert!(NrtConfig::nrt_gl().pattern.is_none());
}
