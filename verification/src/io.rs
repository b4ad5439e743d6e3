//! What a crawl reports: the validators in the form in which they are
//! published, and what the network as a whole agrees on.

pub mod report;
