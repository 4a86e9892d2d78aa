//! Generation model of a hardware verification environment: descriptor
//! parsers for ports and data members, identifier allocation for component
//! instances, topology checks and signal direction resolution.
pub mod cli;
pub mod config;
pub mod diagnostic;
pub mod dut;
pub mod render;
pub mod text;
pub mod uvm;
