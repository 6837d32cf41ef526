//! A replication client for hypercore feeds: the decisions it takes on the
//! events of a replication stream, the download state machine of each feed
//! and the store of the feeds it replicates, each with a verified contract.

pub mod demo;
pub mod feed;
pub mod hexcode;
pub mod store;
pub mod transport;
