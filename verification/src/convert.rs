pub mod common;
pub mod common_head;
pub mod cora;
pub mod cora_config;
pub mod nrt;
pub mod nrt_config;

use vstd::prelude::*;

use crate::error::CtdError;

verus! {

/// The source and target of a single-file conversion.
#[derive(Debug)]
pub struct ConvertConfig {
    pub src_file: String,
    pub target_file: String,
}

impl ConvertConfig {
    /// Take the source and target file from the first two positional
    /// arguments; fewer than two is an error.
    pub fn build(args: &Vec<String>) -> (r: Result<ConvertConfig, CtdError>)
        ensures
            args.len() < 2 ==> r matches Err(CtdError::NotEnoughArguments),
            args.len() >= 2 ==> (r matches Ok(c) && c.src_file == args@[0] && c.target_file
                == args@[1]),
    {
        if args.len() < 2 {
            return Err(CtdError::NotEnoughArguments);
        }
        Ok(ConvertConfig { src_file: args[0].clone(), target_file: args[1].clone() })
    }
}

} // verus!
