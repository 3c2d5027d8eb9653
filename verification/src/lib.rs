//! Status-line composition, fleet-status parsing and hook identity handling.

pub mod text;
pub mod fleet_segment;
pub mod styled;
pub mod status_format;
pub mod status_line;
pub mod ids;
pub mod hooks;
pub mod fleet_status;
pub mod laws;
