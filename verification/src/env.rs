//! The environment that secrets are read from, as a value.

use vstd::prelude::*;

use crate::error::ConfigError;
use crate::table::TextMap;

verus! {

use crate::error::says_missing;
use crate::table::lookup;

/// The environment variables as they were when they were read.
#[derive(Debug, Clone)]
pub struct Env {
    /// The variables and their values.
    pub vars: TextMap<String>,
}

impl Env {
    /// The value of the variable `var`.
    pub open spec fn value(self, var: Seq<char>) -> Option<Seq<char>> {
        match lookup(self.vars@, var) {
            Some(value) => Some(value@),
            None => None,
        }
    }

    /// An environment without variables.
    pub fn new() -> (env: Self)
        ensures
            forall|var: Seq<char>| #[trigger] env.value(var) is None,
    {
        Env { vars: TextMap::new() }
    }

    /// The value of the variable `var`; an error that names it where it is not set.
    pub fn resolve(&self, var: &str) -> (value: Result<String, ConfigError>)
        ensures
            match value {
                Ok(value) => self.value(var@) == Some(value@),
                Err(e) => self.value(var@) is None && says_missing(e, var@),
            },
    {
        match self.vars.get(var) {
            Some(value) => Ok(value.clone()),
            None => Err(ConfigError::MissingEnv(var.to_owned())),
        }
    }
}

/// A variable has the value that stands under its name, and none where nothing does.
pub proof fn law_variable_has_its_value(env: Env, var: Seq<char>)
    ensures
        lookup(env.vars@, var) matches Some(value) ==> env.value(var) == Some(value@),
        lookup(env.vars@, var) is None ==> env.value(var) is None,
{
}

} // verus!
