//! Environment variables that the configuration sets.
use vstd::prelude::*;
use vstd::std_specs::iter::IteratorSpec;

verus! {

/// The environment variables of the configuration, in the order they are written.
#[derive(Debug)]
pub struct Envs(pub Vec<Env>);

/// One environment variable: its name and value.
#[derive(Debug, PartialEq)]
pub struct Env {
    pub name: String,
    pub value: String,
}

impl IntoIterator for Envs {
    type Item = Env;
    type IntoIter = std::vec::IntoIter<Env>;

    fn into_iter(self) -> (it: std::vec::IntoIter<Env>)
        ensures
            it.remaining() == self.0@,
    {
        self.0.into_iter()
    }
}

impl<'a> IntoIterator for &'a Envs {
    type Item = &'a Env;
    type IntoIter = std::slice::Iter<'a, Env>;

    fn into_iter(self) -> (it: std::slice::Iter<'a, Env>)
        ensures
            it.remaining() == self.0@.map_values(|e: Env| &e),
    {
        self.0.iter()
    }
}

impl core::ops::Deref for Envs {
    type Target = [Env];

    fn deref(&self) -> (s: &[Env])
        ensures
            s@ == self.0@,
    {
        self.0.as_slice()
    }
}

} // verus!
