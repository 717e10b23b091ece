//! The caching strategies that can be configured.

pub mod cache_on_miss;
pub mod plex_episode_prediction;
pub mod selection;
