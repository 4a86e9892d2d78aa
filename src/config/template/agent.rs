use vstd::prelude::*;

verus! {

#[derive(Debug)]
pub struct Agent {
    pub name: String,
    pub is_active: bool,
    pub number_of_instances: u32,
}

pub fn default_is_active() -> (r: bool)
    ensures
        r,
{
    true
}

pub fn default_number_of_instances() -> (r: u32)
    ensures
        r == 1,
{
    1
}

} // verus!
