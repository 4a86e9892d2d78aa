//! A component template as written in its configuration file: port and
//! member descriptors are still text.
use vstd::prelude::*;

verus! {

#[derive(Debug)]
pub struct VIP {
    pub name: Option<String>,
    pub ports: Vec<String>,
    pub clock: Option<String>,
    pub reset: Option<String>,
    pub use_clock_block: bool,
    pub item: Item,
}

/// Templates use a clocking block unless they say otherwise.
pub fn default_use_clock_block() -> (r: bool)
    ensures
        r,
{
    true
}

#[derive(Debug, Default)]
pub struct Item {
    pub members: Vec<String>,
    pub constraints: Vec<String>,
}

} // verus!
