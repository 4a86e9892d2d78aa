//! The hardware module as the test harness sees it: the same records as
//! the port model of the module.
pub use crate::dut::utils::{ParsePortError, Port, PortDirection, PortProperties, DUT};
