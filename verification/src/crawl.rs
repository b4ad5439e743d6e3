//! The crawl: its state, the probe step and the loop that drives it.

pub mod core_types;
pub mod crawler;
pub mod net;
pub mod well_formed;
