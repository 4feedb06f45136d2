//! The YAML header of a NetCDF file: its dimensions and variables.

use vstd::prelude::*;

use crate::convert::common_head::{
    collect_dimensions, collect_variables_and_metadata, dimension_entries, variable_entries, Dimension,
    VariableInfo, VariableMetadata,
};
use crate::names::{distinct_names, lookup};

verus! {

/// The header of one NetCDF file.
#[derive(Debug)]
pub struct NetCDFHeader {
    pub dimensions: Vec<(String, usize)>,
    pub variables: Vec<(String, VariableMetadata)>,
}

/// Assemble the header from the file's dimensions and variables.
pub fn collect_netcdf_metadata(dims: &Vec<Dimension>, vars: Vec<VariableInfo>) -> (r: NetCDFHeader)
    ensures
        distinct_names(r.dimensions@),
        distinct_names(r.variables@),
        forall|k: Seq<char>| #[trigger] lookup(r.dimensions@, k) == lookup(dimension_entries(dims@), k),
        forall|k: Seq<char>| #[trigger] lookup(r.variables@, k) == lookup(variable_entries(vars@), k),
{
    NetCDFHeader {
        dimensions: collect_dimensions(dims),
        variables: collect_variables_and_metadata(vars),
    }
}

} // verus!
