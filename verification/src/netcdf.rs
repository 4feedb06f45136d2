//! The earlier single-command front end: a target name followed by the file
//! arguments of that target.

pub mod common;

use vstd::prelude::*;

use crate::error::CtdError;

verus! {

/// The conversions the front end knows.
#[derive(Debug, Clone, Copy, PartialEq, Eq, Structural)]
pub enum Target {
    NrtHead,
    NrtAr,
    NrtBo,
    NrtMo,
    NrtGl,
    CoraHead,
    Cora,
    CoraLegacy,
}

/// The target a name stands for.
pub open spec fn target_of(name: Seq<char>) -> Option<Target> {
    if name == "nrt_head"@ {
        Some(Target::NrtHead)
    } else if name == "nrt_ar"@ {
        Some(Target::NrtAr)
    } else if name == "nrt_bo"@ {
        Some(Target::NrtBo)
    } else if name == "nrt_mo"@ {
        Some(Target::NrtMo)
    } else if name == "nrt_gl"@ {
        Some(Target::NrtGl)
    } else if name == "cora_head"@ {
        Some(Target::CoraHead)
    } else if name == "cora"@ {
        Some(Target::Cora)
    } else if name == "cora_legacy"@ {
        Some(Target::CoraLegacy)
    } else {
        None
    }
}

fn name_is(arg: &String, name: &str) -> (r: bool)
    ensures
        r == (arg@ == name@),
{
    *arg == String::from_str(name)
}

/// The target named by `arg`, if it is one of the known names.
pub fn parse_target(arg: &String) -> (r: Option<Target>)
    ensures
        r == target_of(arg@),
{
    if name_is(arg, "nrt_head") {
        Some(Target::NrtHead)
    } else if name_is(arg, "nrt_ar") {
        Some(Target::NrtAr)
    } else if name_is(arg, "nrt_bo") {
        Some(Target::NrtBo)
    } else if name_is(arg, "nrt_mo") {
        Some(Target::NrtMo)
    } else if name_is(arg, "nrt_gl") {
        Some(Target::NrtGl)
    } else if name_is(arg, "cora_head") {
        Some(Target::CoraHead)
    } else if name_is(arg, "cora") {
        Some(Target::Cora)
    } else if name_is(arg, "cora_legacy") {
        Some(Target::CoraLegacy)
    } else {
        None
    }
}

/// Split a command line into its target and the arguments that follow it.
/// An empty command line and an unknown target name are errors.
pub fn handle_target_dispatch(args: &Vec<String>) -> (r: Result<(Target, Vec<String>), CtdError>)
    ensures
        args.len() == 0 ==> r matches Err(CtdError::NoTarget),
        args.len() > 0 && target_of(args@[0]@) is None ==> r matches Err(CtdError::UnknownTarget),
        args.len() > 0 && target_of(args@[0]@) is Some ==> (r matches Ok((t, rest)) && Some(t)
            == target_of(args@[0]@) && rest@ == args@.skip(1)),
{
    if args.len() == 0 {
        return Err(CtdError::NoTarget);
    }
    match parse_target(&args[0]) {
        Some(t) => {
            let mut rest: Vec<String> = Vec::new();
            let mut i: usize = 1;
            while i < args.len()
                invariant
                    1 <= i <= args.len(),
                    rest@ == args@.subrange(1, i as int),
                decreases args.len() - i,
            {
                rest.push(args[i].clone());
                i = i + 1;
                assert(rest@ =~= args@.subrange(1, i as int));
            }
            assert(rest@ =~= args@.skip(1));
            Ok((t, rest))
        },
        None => Err(CtdError::UnknownTarget),
    }
}

/// The source and target of a single-file conversion.
#[derive(Debug)]
pub struct ConvertConfig {
    pub src_file: String,
    pub target_file: String,
}

impl ConvertConfig {
    /// Take the source and target file from the first two positional
    /// arguments; fewer than two is an error.
    pub fn build(args: &Vec<String>) -> (r: Result<ConvertConfig, CtdError>)
        ensures
            args.len() < 2 ==> r matches Err(CtdError::NotEnoughArguments),
            args.len() >= 2 ==> (r matches Ok(c) && c.src_file == args@[0] && c.target_file
                == args@[1]),
    {
        if args.len() < 2 {
            return Err(CtdError::NotEnoughArguments);
        }
        let src_file = args[0].clone();
        let target_file = args[1].clone();
        Ok(ConvertConfig { src_file, target_file })
    }
}

} // verus!
