//! Discovery engine for a federated Byzantine agreement network: the
//! quorum-set model, peer address rules, the crawl state machine and the
//! reconciliation of what the crawled validators claim.

pub mod quorum;
pub mod uri;
pub mod uri_set;
pub mod crawl;
pub mod io;
pub mod stats;
pub mod laws;
pub mod cli;
