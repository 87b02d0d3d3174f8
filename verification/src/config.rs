//! Startup configuration: the one value the command line supplies.

use vstd::prelude::*;

verus! {

/// The runtime configuration handed in once at process start.
pub struct Config {
    /// The directory whose entries become the model's nodes.
    pub input_dir: String,
}

impl Config {
    /// A configuration for the given note directory.
    pub fn new(input_dir: String) -> (c: Config)
        ensures
            c.input_dir@ == input_dir@,
    {
        Config { input_dir }
    }
}

} // verus!
