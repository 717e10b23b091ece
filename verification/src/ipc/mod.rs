//! Messages between the daemon and its clients.

pub mod protocol;
pub mod recent_logs;
