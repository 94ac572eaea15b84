//! The node roles and the configuration records the cluster is built
//! from. A process runs as exactly one of client, router or shard;
//! the role is fixed when the node instance is set up and may later
//! change only between the two server roles.

use vstd::prelude::*;

verus! {

/// What a node can run as.
#[derive(Debug, PartialEq, Eq, Structural, Clone, Copy)]
pub enum NodeType {
    Client,
    Router,
    Shard,
}

/// The capability the three roles share: submit a SQL string to the
/// shard group and get its textual response, or nothing on failure.
pub trait NodeRole {
    fn send_query(&mut self, query: &str) -> Option<String>;
}

/// The process-wide node slot: which role this process runs, at which
/// address. The live role object, which owns the process's sockets
/// and sessions, is constructed at the edge from this record.
pub struct NodeInstance {
    pub node_type: NodeType,
    pub ip: String,
    pub port: String,
}

impl NodeInstance {
    pub fn new(node_type: NodeType, ip: String, port: String) -> (r: NodeInstance)
        ensures
            r.node_type == node_type,
            r.ip == ip,
            r.port == port,
    {
        NodeInstance { node_type, ip, port }
    }

    /// Switches the node between the two server roles; a node never
    /// becomes a client after construction.
    pub fn change_role(&mut self, new_role: NodeType)
        requires
            new_role != NodeType::Client,
        ensures
            final(self).node_type == new_role,
            final(self).ip == old(self).ip,
            final(self).port == old(self).port,
    {
        self.node_type = new_role;
    }
}

/// One node of the cluster configuration.
pub struct Node {
    pub ip: String,
    pub port: String,
    pub name: String,
}

/// The cluster configuration: every node, the router among them.
pub struct NodesConfig {
    pub nodes: Vec<Node>,
}

/// The local memory configuration: the reserved share of storage, in
/// hundredths of a percent.
pub struct LocalNode {
    pub unavailable_memory_perc: u32,
}

/// One server of a server list configuration.
pub struct Server {
    pub ip: String,
    pub port: String,
    pub name: String,
}

/// A server list configuration.
pub struct ServerConfig {
    pub servers: Vec<Server>,
}

} // verus!
