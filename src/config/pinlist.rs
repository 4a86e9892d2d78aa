//! Declarations and signal maps of the top-level wiring.
use std::collections::{HashMap, HashSet};

use vstd::prelude::*;

verus! {

#[derive(Debug)]
pub struct PinList {
    pub top_wire_dec: HashSet<String>,
    pub top_param_dec: HashSet<String>,
    pub global_map: HashMap<String, String>,
    pub interface_map: HashMap<String, HashMap<String, String>>,
}

/// No declaration.
pub fn default_top_dec() -> (r: HashSet<String>)
    ensures
        r@ == Set::<String>::empty(),
{
    HashSet::new()
}

} // verus!
