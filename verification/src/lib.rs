//! Persistence of what a networking node has learnt about its peers: the
//! addresses seen for each peer under each sub-protocol, the membership and
//! reputation of peers in peer sets, and the live connections of each peer.
//!
//! The crate holds the decisions; the caller owns the clock, the files and
//! the tasks. Every function that depends on time takes the current time in
//! milliseconds, and every function that would write a file hands back what
//! is to be written.

pub mod paths;
pub mod snapshot;
pub mod keyed;
pub mod cache;
pub mod peer_id;
pub mod address_book;
pub mod scheduler;
pub mod address_laws;
pub mod file_store;
pub mod address_list;
pub mod peersets;
pub mod connections;
pub mod call_at;
pub mod pruning;
pub mod meta_data;
