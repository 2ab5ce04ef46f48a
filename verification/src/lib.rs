//! Waveguide: a small language for number-crunching kernels. This crate
//! holds the compiler's data model and the phases that transform it.
use vstd::prelude::*;

pub mod ast;
pub mod concrete;
pub mod high_level;
pub mod native;
pub mod parser;
pub mod problem;
pub mod resolved;
pub mod shared;
pub mod simple;
pub mod specialized;

use crate::high_level::compiler::{BUILTIN_SOURCE_NAME, FAKE_BUILTIN_SOURCE};

verus! {

/// Named sources of a program; the built-in declarations come first.
pub struct SourceSet {
    sources: Vec<(String, String)>,
}

impl SourceSet {
    pub closed spec fn spec_sources(&self) -> Seq<(String, String)> {
        self.sources@
    }

    pub fn new() -> (r: SourceSet)
        ensures
            r.spec_sources().len() == 1,
            r.spec_sources()[0].0@ == BUILTIN_SOURCE_NAME@,
            r.spec_sources()[0].1@ == FAKE_BUILTIN_SOURCE@,
    {
        let mut sources: Vec<(String, String)> = Vec::new();
        sources.push((BUILTIN_SOURCE_NAME.to_owned(), FAKE_BUILTIN_SOURCE.to_owned()));
        SourceSet { sources }
    }

    pub fn add_item(&mut self, name: String, content: String)
        ensures
            final(self).spec_sources() == old(self).spec_sources().push((name, content)),
    {
        self.sources.push((name, content));
    }

    pub fn borrow_sources(&self) -> (r: &Vec<(String, String)>)
        ensures
            r@ == self.spec_sources(),
    {
        &self.sources
    }
}

} // verus!
