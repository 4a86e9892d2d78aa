//! Settings shared by a whole project.
use vstd::prelude::*;

verus! {

#[derive(Debug)]
pub struct Common {
    pub dut_path: String,
    pub generate_file_header: bool,
    pub top_default_sequence: u32,
}

pub fn default_dut_path() -> (r: String)
    ensures
        r@ == "dut.sv"@,
{
    "dut.sv".to_owned()
}

pub fn default_generate_file_header() -> (r: bool)
    ensures
        !r,
{
    false
}

/// How often the top-level default sequence repeats.
pub fn default_top_default_sequence() -> (r: u32)
    ensures
        r == 5,
{
    5
}

} // verus!
