//! What the dashboard shows.

pub mod logging;
pub mod metrics_layer;
pub mod state;
