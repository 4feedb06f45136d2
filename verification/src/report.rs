//! Reports on the pipeline's outputs: the summary page that gathers the
//! per-stage report tables of one file stem.

pub mod bbox;
pub mod coverage;
pub mod format;
pub mod page;
pub mod summary;
pub mod tsv;
pub mod yaml;
