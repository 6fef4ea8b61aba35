//! The minimal configuration of the standalone compositor entry point: environment
//! variables and simple bindings.
use vstd::prelude::*;

verus! {

/// Simple key bindings, in the order they are written.
#[derive(Debug, PartialEq)]
pub struct Binds {
    pub binds: Vec<Bind>,
}

/// A simple binding: the text of its one argument.
#[derive(Debug, PartialEq)]
pub struct Bind {
    pub something: String,
}

/// Environment variables, in the order they are written.
#[derive(Debug, PartialEq)]
pub struct Envs {
    pub vars: Vec<EnvVar>,
}

/// One environment variable: its name and value.
#[derive(Debug, PartialEq)]
pub struct EnvVar {
    pub name: String,
    pub value: String,
}

/// The minimal configuration: environment variables and bindings.
#[derive(Debug, PartialEq)]
pub struct Config {
    pub env: Envs,
    pub binds: Binds,
}

impl Default for Binds {
    /// No bindings.
    fn default() -> (b: Binds)
        ensures
            b.binds@.len() == 0,
    {
        Binds { binds: Vec::new() }
    }
}

impl Default for Bind {
    /// A binding with an empty argument.
    fn default() -> (b: Bind)
        ensures
            b.something@.len() == 0,
    {
        Bind { something: String::new() }
    }
}

impl Default for Envs {
    /// No variables.
    fn default() -> (e: Envs)
        ensures
            e.vars@.len() == 0,
    {
        Envs { vars: Vec::new() }
    }
}

impl Default for Config {
    /// No variables and no bindings.
    fn default() -> (c: Config)
        ensures
            c.env.vars@.len() == 0,
            c.binds.binds@.len() == 0,
    {
        Config { env: Envs::default(), binds: Binds::default() }
    }
}

} // verus!
