//! A horizontal sharding overlay for a relational SQL backend.
//!
//! A router fronts a set of shards, each wrapping its own SQL backend.
//! The router distributes write load across shards by free storage,
//! stitches the shards' local row-id spaces into one logical space,
//! and fans SELECTs out across all shards, merging the results.
//!
//! This crate holds the routing and coordination core: the message
//! codec, the query classifier and id rewriter, the memory manager,
//! the shard-selection structure, and the router, shard and client
//! decision logic. Network and SQL-backend I/O live outside it.

pub mod chars;
pub mod client;
pub mod common;
pub mod memory_manager;
pub mod message;
pub mod node;
pub mod node_info;
pub mod numbers;
pub mod queries;
pub mod router;
pub mod rows;
pub mod shard;
pub mod shard_manager;
pub mod tables_id_info;

use vstd::prelude::*;

verus! {

/// Control port used by every node: the SQL data port plus a fixed offset.
pub fn control_port(data_port: u64) -> (r: Option<u64>)
    ensures
        data_port + 1000 <= u64::MAX ==> r == Some((data_port + 1000) as u64),
        data_port + 1000 > u64::MAX ==> r is None,
{
    if data_port <= u64::MAX - 1000 {
        Some(data_port + 1000)
    } else {
        None
    }
}

} // verus!
