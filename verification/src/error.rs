//! Errors reported by the library, and the messages they are shown with.

use vstd::prelude::*;

use crate::text::{decimal, joined, push_joined, push_str, u64_to_decimal};

verus! {

/// Everything that can go wrong in the library's own logic.
#[derive(Debug, Clone)]
pub enum CtdError {
    /// Fewer than two positional arguments were given to a file-to-file command.
    NotEnoughArguments,
    /// A read asked for the index range `[start, end)` of a dimension that only has `len` entries.
    SliceOutOfBounds { start: usize, end: usize, len: usize },
    /// No target name was given.
    NoTarget,
    /// The target name is not one of the known ones.
    UnknownTarget,
    /// A `--config` file holds a configuration of the wrong kind for the command.
    ConfigKindMismatch,
    /// `DEPLOYMENT` and a `DEPLOY_*` coordinate variable have different lengths.
    DeployLengthMismatch { var_name: String, deploy_len: usize, coord_len: usize },
    /// A filename glob that does not compile, with the reason the glob crate gives.
    InvalidPattern { pattern: String, reason: String },
    /// A source path that has no file stem to name its output after.
    NoFileStem { path: String },
    /// A batch whose pattern matches no file under its source directory.
    NoSourceFiles { pattern: String, dir: String },
    /// A concatenation whose pattern matches no file under its source directory.
    NoMatchingFiles { pattern: String, dir: String },
    /// Sources that would be written to the same output path: for each clash,
    /// the earlier source, the later source and the shared output path.
    DuplicateOutputs { clashes: Vec<(String, String, String)> },
    /// A `--time-format` that is not a valid strftime string.
    InvalidTimeFormat { format: String },
    /// Columns that a table lacks, with the columns it has.
    MissingColumns { src: String, missing: Vec<String>, available: Vec<String> },
    /// A time column whose type is neither a datetime nor a float.
    TimeColumnType { src: String, column: String, found: String },
    /// Keys that more than one header entry has, each with the file of a later entry.
    DuplicateKeys { duplicates: Vec<(String, String)> },
    /// Files of a batch that failed, each with its error message.
    BatchFailures { failures: Vec<(String, String)> },
}

/// The line of a clash: `  <earlier> and <later> both map to <output>`.
pub open spec fn clash_line(c: (String, String, String)) -> Seq<char> {
    "  "@ + c.0@ + " and "@ + c.1@ + " both map to "@ + c.2@
}

/// The line of a duplicate header key: `  key '<key>' in <file>`.
pub open spec fn key_line(d: (String, String)) -> Seq<char> {
    "  key '"@ + d.0@ + "' in "@ + d.1@
}

/// The line of a failed file: `<file>: <message>`.
pub open spec fn failure_line(f: (String, String)) -> Seq<char> {
    f.0@ + ": "@ + f.1@
}

/// The message an error is shown with.
pub open spec fn describe(e: CtdError) -> Seq<char> {
    match e {
        CtdError::NotEnoughArguments => "not enough arguments"@,
        CtdError::SliceOutOfBounds { start, end, len } => "index range "@ + decimal(start as nat) + ".."@
            + decimal(end as nat) + " is out of bounds for a dimension of length "@ + decimal(len as nat),
        CtdError::NoTarget => "No target specified"@,
        CtdError::UnknownTarget => "Unknown target"@,
        CtdError::ConfigKindMismatch => "the --config file does not hold a configuration for this command"@,
        CtdError::DeployLengthMismatch { var_name, deploy_len, coord_len } => "DEPLOYMENT and "@ + var_name@
            + " have different lengths ("@ + decimal(deploy_len as nat) + " vs "@ + decimal(coord_len as nat)
            + ")"@,
        CtdError::InvalidPattern { pattern, reason } => "Invalid pattern '"@ + pattern@ + "': "@ + reason@,
        CtdError::NoFileStem { path } => "Cannot get file stem for "@ + path@,
        CtdError::NoSourceFiles { pattern, dir } => "No .nc files found matching '"@ + pattern@ + "' under "@
            + dir@,
        CtdError::NoMatchingFiles { pattern, dir } => "No files matching '"@ + pattern@ + "' under "@ + dir@
            + "; no output written."@,
        CtdError::DuplicateOutputs { clashes } => "Duplicate output filenames detected:\n"@ + joined(
            clashes@.map_values(|c: (String, String, String)| clash_line(c)),
            "\n"@,
        ),
        CtdError::InvalidTimeFormat { format } => "invalid --time-format '"@ + format@ + "'"@,
        CtdError::MissingColumns { src, missing, available } => src@ + " has no column "@ + joined(
            missing@.map_values(|m: String| m@),
            ", "@,
        ) + " (available: "@ + joined(available@.map_values(|a: String| a@), ", "@) + ")"@,
        CtdError::TimeColumnType { src, column, found } => src@ + ": time column '"@ + column@ + "' is "@
            + found@ + ", expected a datetime or a float of days since 1950"@,
        CtdError::DuplicateKeys { duplicates } => "Duplicate keys detected in YAML files:\n"@ + joined(
            duplicates@.map_values(|d: (String, String)| key_line(d)),
            "\n"@,
        ),
        CtdError::BatchFailures { failures } => "Batch processing errors:\n"@ + joined(
            failures@.map_values(|f: (String, String)| failure_line(f)),
            "\n"@,
        ),
    }
}

impl CtdError {
    /// The message this error is shown with.
    pub fn message(&self) -> (r: String)
        ensures
            r@ == describe(*self),
    {
        let mut m = String::new();
        match self {
            CtdError::NotEnoughArguments => {
                push_str(&mut m, "not enough arguments");
            },
            CtdError::SliceOutOfBounds { start, end, len } => {
                push_str(&mut m, "index range ");
                push_str(&mut m, u64_to_decimal(*start as u64).as_str());
                push_str(&mut m, "..");
                push_str(&mut m, u64_to_decimal(*end as u64).as_str());
                push_str(&mut m, " is out of bounds for a dimension of length ");
                push_str(&mut m, u64_to_decimal(*len as u64).as_str());
            },
            CtdError::NoTarget => {
                push_str(&mut m, "No target specified");
            },
            CtdError::UnknownTarget => {
                push_str(&mut m, "Unknown target");
            },
            CtdError::ConfigKindMismatch => {
                push_str(&mut m, "the --config file does not hold a configuration for this command");
            },
            CtdError::DeployLengthMismatch { var_name, deploy_len, coord_len } => {
                push_str(&mut m, "DEPLOYMENT and ");
                push_str(&mut m, var_name.as_str());
                push_str(&mut m, " have different lengths (");
                push_str(&mut m, u64_to_decimal(*deploy_len as u64).as_str());
                push_str(&mut m, " vs ");
                push_str(&mut m, u64_to_decimal(*coord_len as u64).as_str());
                push_str(&mut m, ")");
            },
            CtdError::InvalidPattern { pattern, reason } => {
                push_str(&mut m, "Invalid pattern '");
                push_str(&mut m, pattern.as_str());
                push_str(&mut m, "': ");
                push_str(&mut m, reason.as_str());
            },
            CtdError::NoFileStem { path } => {
                push_str(&mut m, "Cannot get file stem for ");
                push_str(&mut m, path.as_str());
            },
            CtdError::NoSourceFiles { pattern, dir } => {
                push_str(&mut m, "No .nc files found matching '");
                push_str(&mut m, pattern.as_str());
                push_str(&mut m, "' under ");
                push_str(&mut m, dir.as_str());
            },
            CtdError::NoMatchingFiles { pattern, dir } => {
                push_str(&mut m, "No files matching '");
                push_str(&mut m, pattern.as_str());
                push_str(&mut m, "' under ");
                push_str(&mut m, dir.as_str());
                push_str(&mut m, "; no output written.");
            },
            CtdError::DuplicateOutputs { clashes } => {
                push_str(&mut m, "Duplicate output filenames detected:\n");
                let mut lines: Vec<String> = Vec::new();
                let mut i: usize = 0;
                while i < clashes.len()
                    invariant
                        i <= clashes.len(),
                        lines@.map_values(|p: String| p@) == clashes@.take(i as int).map_values(
                            |c: (String, String, String)| clash_line(c),
                        ),
                    decreases clashes.len() - i,
                {
                    let mut l = String::new();
                    push_str(&mut l, "  ");
                    push_str(&mut l, clashes[i].0.as_str());
                    push_str(&mut l, " and ");
                    push_str(&mut l, clashes[i].1.as_str());
                    push_str(&mut l, " both map to ");
                    push_str(&mut l, clashes[i].2.as_str());
                    let ghost before = lines@;
                    lines.push(l);
                    proof {
                        assert(l@ =~= clash_line(clashes@[i as int]));
                        assert(lines@.map_values(|p: String| p@) =~= before.map_values(|p: String| p@).push(l@));
                        assert(clashes@.take(i as int + 1).map_values(|c: (String, String, String)| clash_line(c)) =~= clashes@.take(
                            i as int,
                        ).map_values(|c: (String, String, String)| clash_line(c)).push(clash_line(clashes@[i as int])));
                    }
                    i += 1;
                }
                proof {
                    assert(clashes@.take(clashes.len() as int) =~= clashes@);
                }
                push_joined(&mut m, &lines, "\n");
            },
            CtdError::InvalidTimeFormat { format } => {
                push_str(&mut m, "invalid --time-format '");
                push_str(&mut m, format.as_str());
                push_str(&mut m, "'");
            },
            CtdError::MissingColumns { src, missing, available } => {
                push_str(&mut m, src.as_str());
                push_str(&mut m, " has no column ");
                push_joined(&mut m, missing, ", ");
                push_str(&mut m, " (available: ");
                push_joined(&mut m, available, ", ");
                push_str(&mut m, ")");
            },
            CtdError::TimeColumnType { src, column, found } => {
                push_str(&mut m, src.as_str());
                push_str(&mut m, ": time column '");
                push_str(&mut m, column.as_str());
                push_str(&mut m, "' is ");
                push_str(&mut m, found.as_str());
                push_str(&mut m, ", expected a datetime or a float of days since 1950");
            },
            CtdError::DuplicateKeys { duplicates } => {
                push_str(&mut m, "Duplicate keys detected in YAML files:\n");
                let mut lines: Vec<String> = Vec::new();
                let mut i: usize = 0;
                while i < duplicates.len()
                    invariant
                        i <= duplicates.len(),
                        lines@.map_values(|p: String| p@) == duplicates@.take(i as int).map_values(
                            |d: (String, String)| key_line(d),
                        ),
                    decreases duplicates.len() - i,
                {
                    let mut l = String::new();
                    let ghost before = lines@;
                    push_str(&mut l, "  key '");
                    push_str(&mut l, duplicates[i].0.as_str());
                    push_str(&mut l, "' in ");
                    push_str(&mut l, duplicates[i].1.as_str());
                    lines.push(l);
                    proof {
                        assert(l@ =~= key_line(duplicates@[i as int]));
                        assert(lines@.map_values(|p: String| p@) =~= before.map_values(|p: String| p@).push(l@));
                        assert(duplicates@.take(i as int + 1).map_values(|d: (String, String)| key_line(d)) =~= duplicates@.take(
                            i as int,
                        ).map_values(|d: (String, String)| key_line(d)).push(key_line(duplicates@[i as int])));
                    }
                    i += 1;
                }
                proof {
                    assert(duplicates@.take(duplicates.len() as int) =~= duplicates@);
                }
                push_joined(&mut m, &lines, "\n");
            },
            CtdError::BatchFailures { failures } => {
                push_str(&mut m, "Batch processing errors:\n");
                let mut lines: Vec<String> = Vec::new();
                let mut i: usize = 0;
                while i < failures.len()
                    invariant
                        i <= failures.len(),
                        lines@.map_values(|p: String| p@) == failures@.take(i as int).map_values(
                            |f: (String, String)| failure_line(f),
                        ),
                    decreases failures.len() - i,
                {
                    let mut l = String::new();
                    let ghost before = lines@;
                    push_str(&mut l, failures[i].0.as_str());
                    push_str(&mut l, ": ");
                    push_str(&mut l, failures[i].1.as_str());
                    lines.push(l);
                    proof {
                        assert(l@ =~= failure_line(failures@[i as int]));
                        assert(lines@.map_values(|p: String| p@) =~= before.map_values(|p: String| p@).push(l@));
                        assert(failures@.take(i as int + 1).map_values(|f: (String, String)| failure_line(f)) =~= failures@.take(
                            i as int,
                        ).map_values(|f: (String, String)| failure_line(f)).push(failure_line(failures@[i as int])));
                    }
                    i += 1;
                }
                proof {
                    assert(failures@.take(failures.len() as int) =~= failures@);
                }
                push_joined(&mut m, &lines, "\n");
            },
        }
        proof {
            assert(m@ =~= describe(*self));
        }
        m
    }
}

} // verus!
