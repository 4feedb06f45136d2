pub mod cora;

use vstd::prelude::*;

use crate::error::CtdError;

verus! {

/// The source NetCDF file and target YAML file of a header extraction.
#[derive(Debug)]
pub struct HeaderConfig {
    pub src_file: String,
    pub target_file: String,
}

impl HeaderConfig {
    /// Take the source and target file from the first two positional
    /// arguments; fewer than two is an error.
    pub fn build(args: &Vec<String>) -> (r: Result<HeaderConfig, CtdError>)
        ensures
            args.len() < 2 ==> r matches Err(CtdError::NotEnoughArguments),
            args.len() >= 2 ==> (r matches Ok(c) && c.src_file == args@[0] && c.target_file
                == args@[1]),
    {
        if args.len() < 2 {
            return Err(CtdError::NotEnoughArguments);
        }
        Ok(HeaderConfig { src_file: args[0].clone(), target_file: args[1].clone() })
    }
}

} // verus!
