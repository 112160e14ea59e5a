//! Formatting of a matched path: absolute, or relative to the root.

use vstd::prelude::*;
use vstd::string::StrSliceExecFns;
use vstd::string::StringExecFns;

verus! {

/// Turns a matched absolute path into the line to print.  Built once before
/// the workers start and read-only afterwards.
pub struct PathPrinter {
    relative_length: usize,
}

impl PathPrinter {
    /// How many leading characters are stripped from each path.
    pub closed spec fn prefix_len(&self) -> nat {
        self.relative_length as nat
    }

    /// A printer for the run.  When relative output is requested it strips
    /// the root directory's length from every path; otherwise it strips
    /// nothing.
    pub fn new(relative: bool, root_dir: &str) -> (r: PathPrinter)
        ensures
            r.prefix_len() == if relative {
                root_dir@.len()
            } else {
                0nat
            },
    {
        if relative {
            PathPrinter { relative_length: root_dir.unicode_len() }
        } else {
            PathPrinter { relative_length: 0 }
        }
    }

    /// The line printed for one matched path: the path with the configured
    /// prefix removed.
    pub fn format_path(&self, path: &String) -> (r: String)
        requires
            self.prefix_len() <= path@.len(),
        ensures
            r@ == path@.subrange(self.prefix_len() as int, path@.len() as int),
    {
        let n: usize = path.as_str().unicode_len();
        String::from_str(path.as_str().substring_char(self.relative_length, n))
    }
}

} // verus!
