use vstd::prelude::*;

use crate::convert::cora_config::{CoraConfig, QcType};
use crate::convert::nrt_config::NrtConfig;

verus! {

/// Per-field overrides for NRT configuration, applied on top of a config file
/// or the built-in default: built-in default < config file < individual flags.
#[derive(Debug, Clone)]
pub struct NrtArgs {
    pub deph_source: bool,
    pub no_deph_source: bool,
    pub profile_coords: bool,
    pub no_profile_coords: bool,
    pub pattern: Option<String>,
}

/// Resolve a `--flag` / `--no-flag` pair against the current value.
pub open spec fn flag_override(on: bool, off: bool, current: bool) -> bool {
    if on { true } else if off { false } else { current }
}

/// An optional override replaces the current value only when present.
pub open spec fn opt_override<T>(given: Option<T>, current: T) -> T {
    match given {
        Some(v) => v,
        None => current,
    }
}

/// A `--pattern` flag, when given, replaces the configured pattern.
pub open spec fn pattern_override(given: Option<String>, current: Option<String>) -> Option<String> {
    match given {
        Some(p) => Some(p),
        None => current,
    }
}

impl NrtArgs {
    /// The configuration after this override: each flag that was given wins.
    pub open spec fn applied(self, c: NrtConfig) -> NrtConfig {
        NrtConfig {
            has_deph_source: flag_override(self.deph_source, self.no_deph_source, c.has_deph_source),
            has_profile_coords: flag_override(
                self.profile_coords,
                self.no_profile_coords,
                c.has_profile_coords,
            ),
            pattern: pattern_override(self.pattern, c.pattern),
        }
    }

    /// Overwrite the fields of `config` for each flag that was explicitly set.
    /// Fields whose flag was not supplied are left unchanged.
    pub fn apply_to(&self, config: &mut NrtConfig)
        ensures
            *final(config) == self.applied(*old(config)),
            final(config).has_deph_source == flag_override(
                self.deph_source,
                self.no_deph_source,
                old(config).has_deph_source,
            ),
            final(config).has_profile_coords == flag_override(
                self.profile_coords,
                self.no_profile_coords,
                old(config).has_profile_coords,
            ),
            final(config).pattern == (match self.pattern {
                Some(p) => Some(p),
                None => old(config).pattern,
            }),
    {
        if self.deph_source {
            config.has_deph_source = true;
        } else if self.no_deph_source {
            config.has_deph_source = false;
        }
        if self.profile_coords {
            config.has_profile_coords = true;
        } else if self.no_profile_coords {
            config.has_profile_coords = false;
        }
        match &self.pattern {
            Some(p) => {
                config.pattern = Some(p.clone());
            },
            None => {},
        }
    }
}

/// Per-field overrides for CORA configuration, applied on top of a config file
/// or the built-in default: built-in default < config file < individual flags.
#[derive(Debug, Clone)]
pub struct CoraArgs {
    pub time_var: Option<String>,
    pub qc_type: Option<QcType>,
    pub time_qc: bool,
    pub no_time_qc: bool,
    pub deph_source: bool,
    pub no_deph_source: bool,
    pub pattern: Option<String>,
}

impl CoraArgs {
    /// The configuration after this override: each flag that was given wins.
    pub open spec fn applied(self, c: CoraConfig) -> CoraConfig {
        CoraConfig {
            time_var: opt_override(self.time_var, c.time_var),
            qc_type: opt_override(self.qc_type, c.qc_type),
            has_time_qc: flag_override(self.time_qc, self.no_time_qc, c.has_time_qc),
            has_deph_source: flag_override(self.deph_source, self.no_deph_source, c.has_deph_source),
            pattern: pattern_override(self.pattern, c.pattern),
        }
    }

    /// Overwrite the fields of `config` for each flag that was explicitly set.
    /// Fields whose flag was not supplied are left unchanged.
    pub fn apply_to(&self, config: &mut CoraConfig)
        ensures
            *final(config) == self.applied(*old(config)),
            final(config).time_var == opt_override(self.time_var, old(config).time_var),
            final(config).qc_type == opt_override(self.qc_type, old(config).qc_type),
            final(config).has_time_qc == flag_override(
                self.time_qc,
                self.no_time_qc,
                old(config).has_time_qc,
            ),
            final(config).has_deph_source == flag_override(
                self.deph_source,
                self.no_deph_source,
                old(config).has_deph_source,
            ),
            final(config).pattern == (match self.pattern {
                Some(p) => Some(p),
                None => old(config).pattern,
            }),
    {
        match &self.time_var {
            Some(tv) => {
                config.time_var = tv.clone();
            },
            None => {},
        }
        match &self.qc_type {
            Some(qt) => {
                config.qc_type = *qt;
            },
            None => {},
        }
        if self.time_qc {
            config.has_time_qc = true;
        } else if self.no_time_qc {
            config.has_time_qc = false;
        }
        if self.deph_source {
            config.has_deph_source = true;
        } else if self.no_deph_source {
            config.has_deph_source = false;
        }
        match &self.pattern {
            Some(p) => {
                config.pattern = Some(p.clone());
            },
            None => {},
        }
    }
}


/// Applying the same NRT overrides twice gives what applying them once gives.
pub proof fn lemma_nrt_override_idempotent(args: NrtArgs, c: NrtConfig)
    ensures
        args.applied(args.applied(c)) == args.applied(c),
{
}

/// NRT overrides with no flag given leave the configuration as it was; a
/// given flag decides its field whatever the configuration held.
pub proof fn lemma_nrt_override_precedence(args: NrtArgs, c: NrtConfig, d: NrtConfig)
    ensures
        !args.deph_source && !args.no_deph_source && !args.profile_coords && !args.no_profile_coords
            && args.pattern is None ==> args.applied(c) == c,
        (args.deph_source || args.no_deph_source) ==> args.applied(c).has_deph_source
            == args.applied(d).has_deph_source,
        (args.profile_coords || args.no_profile_coords) ==> args.applied(c).has_profile_coords
            == args.applied(d).has_profile_coords,
        args.pattern is Some ==> args.applied(c).pattern == args.applied(d).pattern,
{
}

/// Applying the same CORA overrides twice gives what applying them once gives.
pub proof fn lemma_cora_override_idempotent(args: CoraArgs, c: CoraConfig)
    ensures
        args.applied(args.applied(c)) == args.applied(c),
{
}

/// CORA overrides with no flag given leave the configuration as it was; a
/// given flag decides its field whatever the configuration held.
pub proof fn lemma_cora_override_precedence(args: CoraArgs, c: CoraConfig, d: CoraConfig)
    ensures
        args.time_var is None && args.qc_type is None && !args.time_qc && !args.no_time_qc
            && !args.deph_source && !args.no_deph_source && args.pattern is None ==> args.applied(c)
            == c,
        args.time_var is Some ==> args.applied(c).time_var == args.applied(d).time_var,
        args.qc_type is Some ==> args.applied(c).qc_type == args.applied(d).qc_type,
        (args.time_qc || args.no_time_qc) ==> args.applied(c).has_time_qc
            == args.applied(d).has_time_qc,
        (args.deph_source || args.no_deph_source) ==> args.applied(c).has_deph_source
            == args.applied(d).has_deph_source,
        args.pattern is Some ==> args.applied(c).pattern == args.applied(d).pattern,
{
}

/// The parsed command line.
#[derive(Debug)]
pub struct Cli {
    pub command: Commands,
}

/// Top-level commands.
#[derive(Debug)]
pub enum Commands {
    /// Convert a single NetCDF file to Parquet.
    Convert { format: ConvertFormat },
    /// Batch-process all NetCDF files in a directory tree.
    Batch { subcommand: BatchSubcommand },
    /// Extract metadata from a single NetCDF file to YAML.
    Header { format: HeaderFormat },
    /// Concatenate files from a directory tree into a single file.
    Concat { subcommand: ConcatSubcommand },
}

/// `concat` subcommands.
#[derive(Debug)]
pub enum ConcatSubcommand {
    /// Merge Parquet files into a single Parquet file.
    Convert {
        src_dir: String,
        output: String,
        pattern: Option<String>,
        no_renumber: bool,
        no_pres_sort: bool,
        keep_na_pres: bool,
        threads: Option<usize>,
    },
    /// Merge header YAML files into a single YAML file.
    Header { src_dir: String, output: String, pattern: Option<String> },
}

/// `convert` formats.
#[derive(Debug)]
pub enum ConvertFormat {
    NrtAr { config: Option<String>, nrt_args: NrtArgs, src: String, dest: String },
    NrtBo { config: Option<String>, nrt_args: NrtArgs, src: String, dest: String },
    NrtMo { config: Option<String>, nrt_args: NrtArgs, src: String, dest: String },
    NrtGl { config: Option<String>, nrt_args: NrtArgs, src: String, dest: String },
    Cora { config: Option<String>, cora_args: CoraArgs, src: String, dest: String },
    CoraLegacy { config: Option<String>, cora_args: CoraArgs, src: String, dest: String },
}

/// `batch` subcommands.
#[derive(Debug)]
pub enum BatchSubcommand {
    Convert { format: BatchConvertFormat },
    Header { format: BatchHeaderFormat },
}

/// `batch convert` formats.
#[derive(Debug)]
pub enum BatchConvertFormat {
    NrtAr {
        config: Option<String>,
        nrt_args: NrtArgs,
        output: Option<String>,
        threads: Option<usize>,
        src_dir: String,
    },
    NrtBo {
        config: Option<String>,
        nrt_args: NrtArgs,
        output: Option<String>,
        threads: Option<usize>,
        src_dir: String,
    },
    NrtMo {
        config: Option<String>,
        nrt_args: NrtArgs,
        output: Option<String>,
        threads: Option<usize>,
        src_dir: String,
    },
    NrtGl {
        config: Option<String>,
        nrt_args: NrtArgs,
        output: Option<String>,
        threads: Option<usize>,
        src_dir: String,
    },
    Cora {
        config: Option<String>,
        cora_args: CoraArgs,
        output: Option<String>,
        threads: Option<usize>,
        src_dir: String,
    },
    CoraLegacy {
        config: Option<String>,
        cora_args: CoraArgs,
        output: Option<String>,
        threads: Option<usize>,
        src_dir: String,
    },
}

/// `batch header` formats.
#[derive(Debug)]
pub enum BatchHeaderFormat {
    Nrt { output: Option<String>, threads: Option<usize>, pattern: Option<String>, src_dir: String },
    Cora { output: Option<String>, threads: Option<usize>, pattern: Option<String>, src_dir: String },
}

/// `header` formats.
#[derive(Debug)]
pub enum HeaderFormat {
    Nrt { src: String, dest: String },
    Cora { src: String, dest: String },
}

} // verus!
