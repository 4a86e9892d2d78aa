use std::collections::HashSet;

use vstd::prelude::*;

verus! {

#[derive(Debug)]
pub struct Interface {
    pub ports: HashSet<String>,
    pub clock: String,
    pub reset: String,
    pub use_clock_block: bool,
}

pub fn default_use_clock_block() -> (r: bool)
    ensures
        r,
{
    true
}

} // verus!
