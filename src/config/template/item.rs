use std::collections::HashSet;

use vstd::prelude::*;

verus! {

#[derive(Debug)]
pub struct Item {
    pub name: String,
    pub members: HashSet<String>,
    pub constraints: HashSet<String>,
}

} // verus!
