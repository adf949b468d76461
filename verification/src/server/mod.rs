//! What runs beside the balancing: health checks and the status report.
pub mod checker;
pub mod dashboard;
pub mod status;
