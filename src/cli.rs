//! The command-line options of the generator.
use vstd::prelude::*;

verus! {

#[derive(Debug, Clone)]
pub struct Args {
    /// Disable top generator
    pub no_top: bool,
    /// Disable vips generator
    pub no_vips: bool,
    /// Disable self-test generator
    pub no_self_test: bool,
    /// Relative path to common config file
    pub project: String,
    /// Relative path to instances file
    pub instances: String,
    /// Relative path to output directory
    pub output: String,
    /// Relative search path to template files
    pub templates: String,
    /// Relative path to vip files
    pub vips: Vec<String>,
}

} // verus!
