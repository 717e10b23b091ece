//! Decision logic of a transparent SSD cache that overmounts a media directory.
//!
//! Everything here computes on plain values. System calls, the FUSE session, the
//! clock and the database are driven by the application, which performs the actions
//! that these modules ask for and reports back what happened.

pub mod backing_store;
pub mod backing_watch;
pub mod cache;
pub mod cli;
pub mod config;
pub mod copier;
pub mod daemon;
pub mod dash;
pub mod discovery;
pub mod fuse;
pub mod ipc;
pub mod lru_map;
pub mod path;
pub mod path_map;
pub mod prediction_utils;
pub mod predictor;
pub mod preset;
pub mod presets;
pub mod sort;
pub mod telemetry;
pub mod text;
pub mod tui;
pub mod utils;
