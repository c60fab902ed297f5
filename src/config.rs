//! The include and exclude lists that a sequence of directives adds up to.
use crate::grammar::{texts, ConfigLine, DirectiveView};
use vstd::prelude::*;

verus! {

/// Paths to include and paths to exclude, each in the order the directives
/// gave them.
pub struct Config {
    pub includes: Vec<String>,
    pub excludes: Vec<String>,
}

impl Default for Config {
    fn default() -> (r: Config)
        ensures
            r.includes@.len() == 0,
            r.excludes@.len() == 0,
    {
        Config { includes: Vec::new(), excludes: Vec::new() }
    }
}

impl Config {
    /// Adds the paths of `line` at the end of the list its keyword names.
    pub fn add(&mut self, line: ConfigLine)
        ensures
            match line@ {
                DirectiveView::Include(ps) => texts(final(self).includes@) == texts(
                    old(self).includes@,
                ) + ps && final(self).excludes@ == old(self).excludes@,
                DirectiveView::Exclude(ps) => texts(final(self).excludes@) == texts(
                    old(self).excludes@,
                ) + ps && final(self).includes@ == old(self).includes@,
            },
    {
        match line {
            ConfigLine::Include(mut ps) => {
                let ghost added = ps@;
                self.includes.append(&mut ps);
                assert(texts(self.includes@) =~= texts(old(self).includes@) + texts(added));
            },
            ConfigLine::Exclude(mut ps) => {
                let ghost added = ps@;
                self.excludes.append(&mut ps);
                assert(texts(self.excludes@) =~= texts(old(self).excludes@) + texts(added));
            },
        }
    }
}

} // verus!
