//! The project file: generation settings and where the hardware module is.
use vstd::prelude::*;

verus! {

#[derive(Debug)]
pub struct Project {
    pub generate_file_header: bool,
    pub top_default_sequence: u32,
    pub dut: DUT,
}

/// Where the hardware module is described, and its clock and reset.
#[derive(Debug)]
pub struct DUT {
    pub path: String,
    /// The module's name; when absent it is taken from the file name.
    pub name: Option<String>,
    pub clock: Option<String>,
    pub reset: Option<String>,
}

pub fn default_path() -> (r: String)
    ensures
        r@ == "dut.sv"@,
{
    "dut.sv".to_owned()
}

/// The hardware module of a project file that describes none.
pub fn default_dut() -> (r: DUT)
    ensures
        r.path@ == "dut.sv"@,
        r.name is None,
        r.clock is None,
        r.reset is None,
{
    DUT { path: default_path(), name: None, clock: None, reset: None }
}

} // verus!
