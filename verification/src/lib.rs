//! Conversion and clean-up of oceanographic CTD profile data: configuration,
//! command planning, and the array logic that turns NetCDF variables into
//! observation-level columns.

pub mod batch;
pub mod cli;
pub mod compare;
pub mod concat;
pub mod convert;
pub mod dedup;
pub mod dropna;
pub mod dropqc;
pub mod dupkey;
pub mod error;
pub mod header;
pub mod markdup;
pub mod names;
pub mod netcdf;
pub mod order;
pub mod profiles;
pub mod report;
pub mod text;

use vstd::prelude::*;

use cli::{
    BatchConvertFormat, BatchHeaderFormat, BatchSubcommand, Cli, Commands, ConcatSubcommand,
    ConvertFormat, CoraArgs, HeaderFormat, NrtArgs,
};
use concat::ConcatConfig;
use convert::cora_config::CoraConfig;
use convert::nrt_config::NrtConfig;
use error::CtdError;

verus! {

/// What a completed command reports: the module and target that ran, and the
/// positional arguments it was given.
#[derive(Debug)]
pub struct Config {
    pub module: String,
    pub target: String,
    pub args: Vec<String>,
}

/// A configuration read from a `--config` file.
#[derive(Debug)]
pub enum LoadedConfig {
    Nrt(NrtConfig),
    Cora(CoraConfig),
}

/// The kind of configuration a `--config` file must hold for a command.
#[derive(Debug, Clone, Copy, PartialEq, Eq, Structural)]
pub enum ConfigKind {
    Nrt,
    Cora,
}

/// The work a command stands for, with every default and override resolved.
#[derive(Debug)]
pub enum Job {
    /// Convert one NRT file; `args` is `[src, dest]`.
    ConvertNrt { args: Vec<String>, config: NrtConfig },
    /// Convert one CORA file; `args` is `[src, dest]`.
    ConvertCora { args: Vec<String>, config: CoraConfig },
    /// Convert every NRT file under `src_dir` whose name matches `pattern`.
    BatchNrt {
        src_dir: String,
        output: Option<String>,
        threads: Option<usize>,
        pattern: String,
        config: NrtConfig,
    },
    /// Convert every CORA file under `src_dir` whose name matches `pattern`.
    BatchCora {
        src_dir: String,
        output: Option<String>,
        threads: Option<usize>,
        pattern: String,
        config: CoraConfig,
    },
    /// Extract the header of every file under `src_dir` whose name matches `pattern`.
    BatchHeader {
        src_dir: String,
        output: Option<String>,
        threads: Option<usize>,
        pattern: String,
        cora: bool,
    },
    /// Extract the header of one file; `args` is `[src, dest]`.
    Header { args: Vec<String>, cora: bool },
    /// Merge Parquet files.
    ConcatConvert { src_dir: String, output: String, config: ConcatConfig },
    /// Merge header YAML files.
    ConcatHeader { src_dir: String, output: String, pattern: String },
}

/// A job together with the report it gives once it has run.
#[derive(Debug)]
pub struct Plan {
    pub job: Job,
    pub config: Config,
}

/// The configuration a command starts from: the loaded file when one was
/// read, otherwise the built-in default.
pub open spec fn nrt_base(loaded: Option<LoadedConfig>, default: NrtConfig) -> Option<NrtConfig> {
    match loaded {
        None => Some(default),
        Some(LoadedConfig::Nrt(c)) => Some(c),
        Some(LoadedConfig::Cora(_)) => None,
    }
}

/// As `nrt_base`, for CORA commands.
pub open spec fn cora_base(loaded: Option<LoadedConfig>, default: CoraConfig) -> Option<CoraConfig> {
    match loaded {
        None => Some(default),
        Some(LoadedConfig::Cora(c)) => Some(c),
        Some(LoadedConfig::Nrt(_)) => None,
    }
}

/// The `--config` file a command names, with the kind of configuration it must hold.
pub fn config_file(cli: &Cli) -> (r: Option<(String, ConfigKind)>)
    ensures
        match cli.command {
            Commands::Convert { format } => match format {
                ConvertFormat::NrtAr { config, .. } | ConvertFormat::NrtBo { config, .. }
                | ConvertFormat::NrtMo { config, .. } | ConvertFormat::NrtGl { config, .. } => match config {
                    Some(p) => r == Some((p, ConfigKind::Nrt)),
                    None => r is None,
                },
                ConvertFormat::Cora { config, .. } | ConvertFormat::CoraLegacy { config, .. } => match config {
                    Some(p) => r == Some((p, ConfigKind::Cora)),
                    None => r is None,
                },
            },
            Commands::Batch { subcommand: BatchSubcommand::Convert { format } } => match format {
                BatchConvertFormat::NrtAr { config, .. } | BatchConvertFormat::NrtBo { config, .. }
                | BatchConvertFormat::NrtMo { config, .. } | BatchConvertFormat::NrtGl { config, .. } => match config {
                    Some(p) => r == Some((p, ConfigKind::Nrt)),
                    None => r is None,
                },
                BatchConvertFormat::Cora { config, .. } | BatchConvertFormat::CoraLegacy { config, .. } => match config {
                    Some(p) => r == Some((p, ConfigKind::Cora)),
                    None => r is None,
                },
            },
            _ => r is None,
        },
{
    let (path, kind) = match &cli.command {
        Commands::Convert { format } => match format {
            ConvertFormat::NrtAr { config, .. } | ConvertFormat::NrtBo { config, .. }
            | ConvertFormat::NrtMo { config, .. } | ConvertFormat::NrtGl { config, .. } => (config, ConfigKind::Nrt),
            ConvertFormat::Cora { config, .. } | ConvertFormat::CoraLegacy { config, .. } => (config, ConfigKind::Cora),
        },
        Commands::Batch { subcommand: BatchSubcommand::Convert { format } } => match format {
            BatchConvertFormat::NrtAr { config, .. } | BatchConvertFormat::NrtBo { config, .. }
            | BatchConvertFormat::NrtMo { config, .. } | BatchConvertFormat::NrtGl { config, .. } => (config, ConfigKind::Nrt),
            BatchConvertFormat::Cora { config, .. } | BatchConvertFormat::CoraLegacy { config, .. } => (config, ConfigKind::Cora),
        },
        _ => return None,
    };
    match path {
        Some(p) => Some((p.clone(), kind)),
        None => None,
    }
}

/// Resolve an NRT configuration: the loaded file (or the default) with the
/// command-line overrides applied on top.
fn resolve_nrt(loaded: Option<LoadedConfig>, default: NrtConfig, args: &NrtArgs) -> (r: Result<
    NrtConfig,
    CtdError,
>)
    ensures
        match nrt_base(loaded, default) {
            Some(c) => r == Ok::<NrtConfig, CtdError>(args.applied(c)),
            None => r matches Err(CtdError::ConfigKindMismatch),
        },
{
    let mut c = match loaded {
        None => default,
        Some(LoadedConfig::Nrt(c)) => c,
        Some(LoadedConfig::Cora(_)) => return Err(CtdError::ConfigKindMismatch),
    };
    args.apply_to(&mut c);
    Ok(c)
}

/// As `resolve_nrt`, for CORA commands.
fn resolve_cora(loaded: Option<LoadedConfig>, default: CoraConfig, args: &CoraArgs) -> (r: Result<
    CoraConfig,
    CtdError,
>)
    ensures
        match cora_base(loaded, default) {
            Some(c) => r == Ok::<CoraConfig, CtdError>(args.applied(c)),
            None => r matches Err(CtdError::ConfigKindMismatch),
        },
{
    let mut c = match loaded {
        None => default,
        Some(LoadedConfig::Cora(c)) => c,
        Some(LoadedConfig::Nrt(_)) => return Err(CtdError::ConfigKindMismatch),
    };
    args.apply_to(&mut c);
    Ok(c)
}

/// `[src, dest]` as the positional argument list of a file-to-file command.
fn path_args(src: String, dest: String) -> (r: Vec<String>)
    ensures
        r@ == seq![src, dest],
{
    let mut v: Vec<String> = Vec::new();
    v.push(src);
    v.push(dest);
    v
}

/// A report with no positional arguments.
fn report(module: &str, target: &str) -> (r: Config)
    ensures
        r.module@ == module@,
        r.target@ == target@,
        r.args@ == Seq::<String>::empty(),
{
    Config { module: String::from_str(module), target: String::from_str(target), args: Vec::new() }
}

} // verus!

verus! {

/// `c` is the NRT configuration resolved from `loaded` (or `default`) with `args` applied.
pub open spec fn resolved_nrt(loaded: Option<LoadedConfig>, default: NrtConfig, args: NrtArgs, c: NrtConfig) -> bool {
    nrt_base(loaded, default) matches Some(b) && c == args.applied(b)
}

/// `c` is the CORA configuration resolved from `loaded` (or the built-in
/// current or legacy default) with `args` applied.
pub open spec fn resolved_cora(loaded: Option<LoadedConfig>, legacy: bool, args: CoraArgs, c: CoraConfig) -> bool {
    match loaded {
        None => exists|b: CoraConfig|
            #![trigger args.applied(b)]
            (if legacy { CoraConfig::is_cora_legacy_default(b) } else { CoraConfig::is_cora_default(b) })
                && c == args.applied(b),
        Some(LoadedConfig::Cora(b)) => c == args.applied(b),
        Some(LoadedConfig::Nrt(_)) => false,
    }
}

/// Whether `loaded` holds a configuration of the wrong kind.
pub open spec fn mismatched(loaded: Option<LoadedConfig>, kind: ConfigKind) -> bool {
    match loaded {
        None => false,
        Some(LoadedConfig::Nrt(_)) => kind == ConfigKind::Cora,
        Some(LoadedConfig::Cora(_)) => kind == ConfigKind::Nrt,
    }
}

/// A report with positional arguments `[src, dest]`.
pub open spec fn file_report(c: Config, module: Seq<char>, target: Seq<char>, src: String, dest: String) -> bool {
    c.module@ == module && c.target@ == target && c.args@ == seq![src, dest]
}

/// A report without positional arguments.
pub open spec fn bare_report(c: Config, module: Seq<char>, target: Seq<char>) -> bool {
    c.module@ == module && c.target@ == target && c.args@ == Seq::<String>::empty()
}

/// The plan of `convert` for one NRT file.
pub open spec fn convert_nrt_planned(
    r: Result<Plan, CtdError>,
    loaded: Option<LoadedConfig>,
    default: NrtConfig,
    args: NrtArgs,
    src: String,
    dest: String,
    target: Seq<char>,
) -> bool {
    if mismatched(loaded, ConfigKind::Nrt) {
        r matches Err(CtdError::ConfigKindMismatch)
    } else {
        r matches Ok(p) && p.job matches Job::ConvertNrt { args: a, config } && a@ == seq![src, dest]
            && resolved_nrt(loaded, default, args, config) && file_report(p.config, "convert"@, target, src, dest)
    }
}

/// The plan of `convert` for one CORA file.
pub open spec fn convert_cora_planned(
    r: Result<Plan, CtdError>,
    loaded: Option<LoadedConfig>,
    legacy: bool,
    args: CoraArgs,
    src: String,
    dest: String,
    target: Seq<char>,
) -> bool {
    if mismatched(loaded, ConfigKind::Cora) {
        r matches Err(CtdError::ConfigKindMismatch)
    } else {
        r matches Ok(p) && p.job matches Job::ConvertCora { args: a, config } && a@ == seq![src, dest]
            && resolved_cora(loaded, legacy, args, config) && file_report(p.config, "convert"@, target, src, dest)
    }
}

/// The batch pattern: the configured one, else the subcommand's default.
pub open spec fn batch_pattern(configured: Option<String>, default: Seq<char>) -> Seq<char> {
    match configured {
        Some(p) => p@,
        None => default,
    }
}

/// The plan of `batch convert` for NRT files.
pub open spec fn batch_nrt_planned(
    r: Result<Plan, CtdError>,
    loaded: Option<LoadedConfig>,
    default: NrtConfig,
    args: NrtArgs,
    src_dir: String,
    output: Option<String>,
    threads: Option<usize>,
    default_pattern: Seq<char>,
    target: Seq<char>,
) -> bool {
    if mismatched(loaded, ConfigKind::Nrt) {
        r matches Err(CtdError::ConfigKindMismatch)
    } else {
        r matches Ok(p) && p.job matches Job::BatchNrt { src_dir: d, output: o, threads: t, pattern, config }
            && d == src_dir && o == output && t == threads && resolved_nrt(loaded, default, args, config)
            && pattern@ == batch_pattern(config.pattern, default_pattern)
            && bare_report(p.config, "batch"@, target)
    }
}

/// The plan of `batch convert` for CORA files.
pub open spec fn batch_cora_planned(
    r: Result<Plan, CtdError>,
    loaded: Option<LoadedConfig>,
    legacy: bool,
    args: CoraArgs,
    src_dir: String,
    output: Option<String>,
    threads: Option<usize>,
    target: Seq<char>,
) -> bool {
    if mismatched(loaded, ConfigKind::Cora) {
        r matches Err(CtdError::ConfigKindMismatch)
    } else {
        r matches Ok(p) && p.job matches Job::BatchCora { src_dir: d, output: o, threads: t, pattern, config }
            && d == src_dir && o == output && t == threads && resolved_cora(loaded, legacy, args, config)
            && pattern@ == batch_pattern(config.pattern, "*.nc"@)
            && bare_report(p.config, "batch"@, target)
    }
}

fn convert_nrt(loaded: Option<LoadedConfig>, default: NrtConfig, nrt_args: &NrtArgs, src: String, dest: String, target: &str) -> (r: Result<Plan, CtdError>)
    ensures
        convert_nrt_planned(r, loaded, default, *nrt_args, src, dest, target@),
{
    let config = resolve_nrt(loaded, default, nrt_args)?;
    let report_args = path_args(src.clone(), dest.clone());
    let job_args = path_args(src, dest);
    Ok(Plan {
        job: Job::ConvertNrt { args: job_args, config },
        config: Config { module: String::from_str("convert"), target: String::from_str(target), args: report_args },
    })
}

fn convert_cora(loaded: Option<LoadedConfig>, legacy: bool, cora_args: &CoraArgs, src: String, dest: String, target: &str) -> (r: Result<Plan, CtdError>)
    ensures
        convert_cora_planned(r, loaded, legacy, *cora_args, src, dest, target@),
{
    let default = if legacy { CoraConfig::cora_legacy() } else { CoraConfig::cora() };
    let config = resolve_cora(loaded, default, cora_args)?;
    let report_args = path_args(src.clone(), dest.clone());
    let job_args = path_args(src, dest);
    assert(loaded is None ==> (if legacy { CoraConfig::is_cora_legacy_default(default) } else { CoraConfig::is_cora_default(default) })
        && config == cora_args.applied(default));
    Ok(Plan {
        job: Job::ConvertCora { args: job_args, config },
        config: Config { module: String::from_str("convert"), target: String::from_str(target), args: report_args },
    })
}

fn batch_nrt(loaded: Option<LoadedConfig>, default: NrtConfig, nrt_args: &NrtArgs, src_dir: String, output: Option<String>, threads: Option<usize>, default_pattern: &str, target: &str) -> (r: Result<Plan, CtdError>)
    ensures
        batch_nrt_planned(r, loaded, default, *nrt_args, src_dir, output, threads, default_pattern@, target@),
{
    let config = resolve_nrt(loaded, default, nrt_args)?;
    let pattern = match &config.pattern {
        Some(p) => p.clone(),
        None => String::from_str(default_pattern),
    };
    Ok(Plan {
        job: Job::BatchNrt { src_dir, output, threads, pattern, config },
        config: report("batch", target),
    })
}

fn batch_cora(loaded: Option<LoadedConfig>, legacy: bool, cora_args: &CoraArgs, src_dir: String, output: Option<String>, threads: Option<usize>, target: &str) -> (r: Result<Plan, CtdError>)
    ensures
        batch_cora_planned(r, loaded, legacy, *cora_args, src_dir, output, threads, target@),
{
    let default = if legacy { CoraConfig::cora_legacy() } else { CoraConfig::cora() };
    let config = resolve_cora(loaded, default, cora_args)?;
    assert(loaded is None ==> (if legacy { CoraConfig::is_cora_legacy_default(default) } else { CoraConfig::is_cora_default(default) })
        && config == cora_args.applied(default));
    let pattern = match &config.pattern {
        Some(p) => p.clone(),
        None => String::from_str("*.nc"),
    };
    Ok(Plan {
        job: Job::BatchCora { src_dir, output, threads, pattern, config },
        config: report("batch", target),
    })
}

} // verus!

verus! {

/// The plan of `convert <format>`.
pub open spec fn convert_planned(format: ConvertFormat, loaded: Option<LoadedConfig>, r: Result<Plan, CtdError>) -> bool {
    match format {
        ConvertFormat::NrtAr { nrt_args, src, dest, .. } => convert_nrt_planned(r, loaded, NrtConfig::spec_nrt_ar(), nrt_args, src, dest, "nrt_ar"@),
        ConvertFormat::NrtBo { nrt_args, src, dest, .. } => convert_nrt_planned(r, loaded, NrtConfig::spec_nrt_bo(), nrt_args, src, dest, "nrt_bo"@),
        ConvertFormat::NrtMo { nrt_args, src, dest, .. } => convert_nrt_planned(r, loaded, NrtConfig::spec_nrt_mo(), nrt_args, src, dest, "nrt_mo"@),
        ConvertFormat::NrtGl { nrt_args, src, dest, .. } => convert_nrt_planned(r, loaded, NrtConfig::spec_nrt_gl(), nrt_args, src, dest, "nrt_gl"@),
        ConvertFormat::Cora { cora_args, src, dest, .. } => convert_cora_planned(r, loaded, false, cora_args, src, dest, "cora"@),
        ConvertFormat::CoraLegacy { cora_args, src, dest, .. } => convert_cora_planned(r, loaded, true, cora_args, src, dest, "cora_legacy"@),
    }
}

fn dispatch_convert(format: ConvertFormat, loaded: Option<LoadedConfig>) -> (r: Result<Plan, CtdError>)
    ensures
        convert_planned(format, loaded, r),
{
    match format {
        ConvertFormat::NrtAr { nrt_args, src, dest, .. } => convert_nrt(loaded, NrtConfig::nrt_ar(), &nrt_args, src, dest, "nrt_ar"),
        ConvertFormat::NrtBo { nrt_args, src, dest, .. } => convert_nrt(loaded, NrtConfig::nrt_bo(), &nrt_args, src, dest, "nrt_bo"),
        ConvertFormat::NrtMo { nrt_args, src, dest, .. } => convert_nrt(loaded, NrtConfig::nrt_mo(), &nrt_args, src, dest, "nrt_mo"),
        ConvertFormat::NrtGl { nrt_args, src, dest, .. } => convert_nrt(loaded, NrtConfig::nrt_gl(), &nrt_args, src, dest, "nrt_gl"),
        ConvertFormat::Cora { cora_args, src, dest, .. } => convert_cora(loaded, false, &cora_args, src, dest, "cora"),
        ConvertFormat::CoraLegacy { cora_args, src, dest, .. } => convert_cora(loaded, true, &cora_args, src, dest, "cora_legacy"),
    }
}

/// The plan of `batch convert <format>`.
pub open spec fn batch_convert_planned(format: BatchConvertFormat, loaded: Option<LoadedConfig>, r: Result<Plan, CtdError>) -> bool {
    match format {
        BatchConvertFormat::NrtAr { nrt_args, output, threads, src_dir, .. } => batch_nrt_planned(r, loaded, NrtConfig::spec_nrt_ar(), nrt_args, src_dir, output, threads, "AR_PR_CT_*.nc"@, "nrt_ar"@),
        BatchConvertFormat::NrtBo { nrt_args, output, threads, src_dir, .. } => batch_nrt_planned(r, loaded, NrtConfig::spec_nrt_bo(), nrt_args, src_dir, output, threads, "BO_PR_CT_*.nc"@, "nrt_bo"@),
        BatchConvertFormat::NrtMo { nrt_args, output, threads, src_dir, .. } => batch_nrt_planned(r, loaded, NrtConfig::spec_nrt_mo(), nrt_args, src_dir, output, threads, "MO_PR_CT_*.nc"@, "nrt_mo"@),
        BatchConvertFormat::NrtGl { nrt_args, output, threads, src_dir, .. } => batch_nrt_planned(r, loaded, NrtConfig::spec_nrt_gl(), nrt_args, src_dir, output, threads, "GL_PR_CT_*.nc"@, "nrt_gl"@),
        BatchConvertFormat::Cora { cora_args, output, threads, src_dir, .. } => batch_cora_planned(r, loaded, false, cora_args, src_dir, output, threads, "cora"@),
        BatchConvertFormat::CoraLegacy { cora_args, output, threads, src_dir, .. } => batch_cora_planned(r, loaded, true, cora_args, src_dir, output, threads, "cora_legacy"@),
    }
}

fn dispatch_batch_convert(format: BatchConvertFormat, loaded: Option<LoadedConfig>) -> (r: Result<Plan, CtdError>)
    ensures
        batch_convert_planned(format, loaded, r),
{
    match format {
        BatchConvertFormat::NrtAr { nrt_args, output, threads, src_dir, .. } => batch_nrt(loaded, NrtConfig::nrt_ar(), &nrt_args, src_dir, output, threads, "AR_PR_CT_*.nc", "nrt_ar"),
        BatchConvertFormat::NrtBo { nrt_args, output, threads, src_dir, .. } => batch_nrt(loaded, NrtConfig::nrt_bo(), &nrt_args, src_dir, output, threads, "BO_PR_CT_*.nc", "nrt_bo"),
        BatchConvertFormat::NrtMo { nrt_args, output, threads, src_dir, .. } => batch_nrt(loaded, NrtConfig::nrt_mo(), &nrt_args, src_dir, output, threads, "MO_PR_CT_*.nc", "nrt_mo"),
        BatchConvertFormat::NrtGl { nrt_args, output, threads, src_dir, .. } => batch_nrt(loaded, NrtConfig::nrt_gl(), &nrt_args, src_dir, output, threads, "GL_PR_CT_*.nc", "nrt_gl"),
        BatchConvertFormat::Cora { cora_args, output, threads, src_dir, .. } => batch_cora(loaded, false, &cora_args, src_dir, output, threads, "cora"),
        BatchConvertFormat::CoraLegacy { cora_args, output, threads, src_dir, .. } => batch_cora(loaded, true, &cora_args, src_dir, output, threads, "cora_legacy"),
    }
}

/// The plan of `batch header <format>`: the given pattern or `*.nc`.
pub open spec fn batch_header_planned(format: BatchHeaderFormat, r: Result<Plan, CtdError>) -> bool {
    match format {
        BatchHeaderFormat::Nrt { output, threads, pattern, src_dir } => r matches Ok(p)
            && p.job matches Job::BatchHeader { src_dir: d, output: o, threads: t, pattern: pat, cora }
            && d == src_dir && o == output && t == threads && pat@ == batch_pattern(pattern, "*.nc"@)
            && !cora && bare_report(p.config, "batch"@, "header_nrt"@),
        BatchHeaderFormat::Cora { output, threads, pattern, src_dir } => r matches Ok(p)
            && p.job matches Job::BatchHeader { src_dir: d, output: o, threads: t, pattern: pat, cora }
            && d == src_dir && o == output && t == threads && pat@ == batch_pattern(pattern, "*.nc"@)
            && cora && bare_report(p.config, "batch"@, "header_cora"@),
    }
}

fn dispatch_batch_header(format: BatchHeaderFormat) -> (r: Result<Plan, CtdError>)
    ensures
        batch_header_planned(format, r),
{
    let (src_dir, output, threads, pattern, cora, target) = match format {
        BatchHeaderFormat::Nrt { output, threads, pattern, src_dir } => (src_dir, output, threads, pattern, false, "header_nrt"),
        BatchHeaderFormat::Cora { output, threads, pattern, src_dir } => (src_dir, output, threads, pattern, true, "header_cora"),
    };
    let effective = match pattern {
        Some(p) => p,
        None => String::from_str("*.nc"),
    };
    Ok(Plan {
        job: Job::BatchHeader { src_dir, output, threads, pattern: effective, cora },
        config: report("batch", target),
    })
}

/// The plan of `batch <subcommand>`.
pub open spec fn batch_planned(subcommand: BatchSubcommand, loaded: Option<LoadedConfig>, r: Result<Plan, CtdError>) -> bool {
    match subcommand {
        BatchSubcommand::Convert { format } => batch_convert_planned(format, loaded, r),
        BatchSubcommand::Header { format } => batch_header_planned(format, r),
    }
}

fn dispatch_batch(subcommand: BatchSubcommand, loaded: Option<LoadedConfig>) -> (r: Result<Plan, CtdError>)
    ensures
        batch_planned(subcommand, loaded, r),
{
    match subcommand {
        BatchSubcommand::Convert { format } => dispatch_batch_convert(format, loaded),
        BatchSubcommand::Header { format } => dispatch_batch_header(format),
    }
}

/// The plan of `header <format>`.
pub open spec fn header_planned(format: HeaderFormat, r: Result<Plan, CtdError>) -> bool {
    match format {
        HeaderFormat::Nrt { src, dest } => r matches Ok(p) && p.job matches Job::Header { args, cora }
            && args@ == seq![src, dest] && !cora && file_report(p.config, "header"@, "nrt"@, src, dest),
        HeaderFormat::Cora { src, dest } => r matches Ok(p) && p.job matches Job::Header { args, cora }
            && args@ == seq![src, dest] && cora && file_report(p.config, "header"@, "cora"@, src, dest),
    }
}

fn dispatch_header(format: HeaderFormat) -> (r: Result<Plan, CtdError>)
    ensures
        header_planned(format, r),
{
    let (src, dest, cora, target) = match format {
        HeaderFormat::Nrt { src, dest } => (src, dest, false, "nrt"),
        HeaderFormat::Cora { src, dest } => (src, dest, true, "cora"),
    };
    let report_args = path_args(src.clone(), dest.clone());
    Ok(Plan {
        job: Job::Header { args: path_args(src, dest), cora },
        config: Config { module: String::from_str("header"), target: String::from_str(target), args: report_args },
    })
}

/// The plan of `concat <subcommand>`.
pub open spec fn concat_planned(subcommand: ConcatSubcommand, r: Result<Plan, CtdError>) -> bool {
    match subcommand {
        ConcatSubcommand::Convert { src_dir, output, pattern, no_renumber, no_pres_sort, keep_na_pres, threads } =>
            r matches Ok(p) && p.job matches Job::ConcatConvert { src_dir: d, output: o, config }
            && d == src_dir && o == output && config.pattern@ == batch_pattern(pattern, "*.parquet"@)
            && config.renumber == !no_renumber && config.sort_by_pres == !no_pres_sort
            && config.drop_na_pres == !keep_na_pres && config.threads == threads
            && bare_report(p.config, "concat"@, "convert"@),
        ConcatSubcommand::Header { src_dir, output, pattern } => r matches Ok(p)
            && p.job matches Job::ConcatHeader { src_dir: d, output: o, pattern: pat }
            && d == src_dir && o == output && pat@ == batch_pattern(pattern, "*.yaml"@)
            && bare_report(p.config, "concat"@, "header"@),
    }
}

fn dispatch_concat(subcommand: ConcatSubcommand) -> (r: Result<Plan, CtdError>)
    ensures
        concat_planned(subcommand, r),
{
    match subcommand {
        ConcatSubcommand::Convert { src_dir, output, pattern, no_renumber, no_pres_sort, keep_na_pres, threads } => {
            let mut config = ConcatConfig::default();
            match pattern {
                Some(p) => {
                    config.pattern = p;
                },
                None => {},
            }
            if no_renumber {
                config.renumber = false;
            }
            if no_pres_sort {
                config.sort_by_pres = false;
            }
            if keep_na_pres {
                config.drop_na_pres = false;
            }
            config.threads = threads;
            Ok(Plan { job: Job::ConcatConvert { src_dir, output, config }, config: report("concat", "convert") })
        },
        ConcatSubcommand::Header { src_dir, output, pattern } => {
            let effective = match pattern {
                Some(p) => p,
                None => String::from_str("*.yaml"),
            };
            Ok(Plan { job: Job::ConcatHeader { src_dir, output, pattern: effective }, config: report("concat", "header") })
        },
    }
}

/// The plan of a whole command line.
pub open spec fn planned(cli: Cli, loaded: Option<LoadedConfig>, r: Result<Plan, CtdError>) -> bool {
    match cli.command {
        Commands::Convert { format } => convert_planned(format, loaded, r),
        Commands::Batch { subcommand } => batch_planned(subcommand, loaded, r),
        Commands::Header { format } => header_planned(format, r),
        Commands::Concat { subcommand } => concat_planned(subcommand, r),
    }
}

/// Resolve a parsed command line into the job it stands for and the report it
/// gives once done. `loaded` is the content of the `--config` file named by
/// the command (see `config_file`), if any; every default and override is
/// applied here: built-in default < config file < individual flags.
pub fn run(cli: Cli, loaded: Option<LoadedConfig>) -> (r: Result<Plan, CtdError>)
    ensures
        planned(cli, loaded, r),
{
    match cli.command {
        Commands::Convert { format } => dispatch_convert(format, loaded),
        Commands::Batch { subcommand } => dispatch_batch(subcommand, loaded),
        Commands::Header { format } => dispatch_header(format),
        Commands::Concat { subcommand } => dispatch_concat(subcommand),
    }
}

} // verus!
