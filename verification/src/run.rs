//! The checks that a run makes before it runs any recipe.
use crate::invocation_parser::{
    arg_views, invocation_views, spec_parse_invocations, Invocation, InvocationError,
    InvocationParser,
};
use crate::justfile::{spec_unknown_overrides, Justfile};
use crate::text::string_views;
use vstd::prelude::*;

verus! {

/// Why a run stops before its first recipe.
#[derive(Debug)]
pub enum RunPlanError {
    /// Variables were overridden that the recipe file does not define.
    UnknownOverrides { overrides: Vec<String> },
    /// The command line could not be grouped into invocations.
    Invocation(InvocationError),
    /// Only one invocation was allowed, and more were given.
    ExcessInvocations { invocations: usize },
}

impl Justfile {
    /// The invocations that a run with the overridden names `overrides` and
    /// the command-line arguments `arguments` makes: an unknown override
    /// stops it first, then a command line that does not parse, then more
    /// than one invocation where `one` allows only one.
    pub fn plan_run<'a>(&'a self, overrides: &Vec<String>, arguments: &'a [&'a str], one: bool) -> (r: Result<
        Vec<Invocation<'a>>,
        RunPlanError,
    >)
        ensures
            ({
                let unknown = spec_unknown_overrides(self.assignments@, overrides@);
                if unknown.len() > 0 {
                    r matches Err(RunPlanError::UnknownOverrides { overrides: o }) && string_views(o@)
                        == unknown
                } else {
                    match spec_parse_invocations(*self, arg_views(arguments@), 0) {
                        Err(e) => r matches Err(RunPlanError::Invocation(x)) && x@ == e,
                        Ok(invocations) => if one && invocations.len() > 1 {
                            r matches Err(RunPlanError::ExcessInvocations { invocations: n }) && n
                                == invocations.len()
                        } else {
                            r matches Ok(v) && invocation_views(v@) == invocations
                        },
                    }
                }
            }),
    {
        let unknown = self.unknown_overrides(overrides);
        if unknown.len() > 0 {
            return Err(RunPlanError::UnknownOverrides { overrides: unknown });
        }
        match InvocationParser::parse_invocations(self, arguments) {
            Err(e) => Err(RunPlanError::Invocation(e)),
            Ok(invocations) => {
                if one && invocations.len() > 1 {
                    Err(RunPlanError::ExcessInvocations { invocations: invocations.len() })
                } else {
                    Ok(invocations)
                }
            },
        }
    }
}

} // verus!
