//! The client's decision core: evaluating router-discovery replies
//! and framing queries. The probing connections and the query channel
//! live at the edge.

use vstd::prelude::*;
use crate::message::{Message, MessageType, spec_message_chars, spec_read_message, MessageView};
use crate::node_info::NodeInfo;

verus! {

/// A client: its own address. The channel to the router it found
/// lives with the caller.
pub struct Client {
    pub client_info: NodeInfo,
}

impl Client {
    pub fn new(ip: &str, port: &str) -> (r: Client)
        ensures
            r.client_info.ip@ == ip@,
            r.client_info.port@ == port@,
    {
        Client { client_info: NodeInfo { ip: String::from_str(ip), port: String::from_str(port) } }
    }

    /// The probe sent to each configured node while looking for the
    /// router.
    pub fn build_get_router_message() -> (r: String)
        ensures
            r@ == spec_message_chars(
                MessageView {
                    message_type: MessageType::GetRouter,
                    payload: None,
                    max_ids: None,
                    node_info: None,
                    query: None,
                },
            ),
    {
        Message::new_get_router().to_string()
    }

    /// The query line sent on the router channel: the SQL wrapped in
    /// a `QUERY` message naming this client.
    pub fn build_query_message(&self, query: &str) -> (r: String)
        ensures
            r@ == spec_message_chars(
                MessageView {
                    message_type: MessageType::Query,
                    payload: None,
                    max_ids: None,
                    node_info: Some(self.client_info@),
                    query: Some(query@),
                },
            ),
    {
        let message = Message::new_query(
            Some(self.client_info.duplicate()),
            String::from_str(query),
        );
        message.to_string()
    }
}

/// The router address a probe reply names: the address of a
/// `ROUTER_ID` reply; a `NO_ROUTER_DATA` reply, any other message,
/// and anything unreadable name none, and the probe moves on.
pub fn evaluate_router_probe(reply: &str) -> (r: Option<NodeInfo>)
    ensures
        ({
            let p = spec_read_message(reply);
            match r {
                Some(n) => p matches Some(m) && m.message_type == MessageType::RouterId
                    && m.node_info == Some(n@),
                None => p is None || !(p->0.message_type == MessageType::RouterId)
                    || p->0.node_info is None,
            }
        }),
{
    let m = match Message::from_string(reply) {
        Ok(m) => m,
        Err(_) => {
            return None;
        },
    };
    match m.get_message_type() {
        MessageType::RouterId => m.get_data().node_info,
        _ => None,
    }
}

/// The text a query response carries, ready to print: the query field
/// of a `QUERY_RESPONSE`; anything else yields nothing.
pub fn extract_query_response(message: &str) -> (r: Option<String>)
    ensures
        ({
            let p = spec_read_message(message);
            match r {
                Some(text) => p matches Some(m) && m.message_type == MessageType::QueryResponse
                    && m.query == Some(text@),
                None => p is None || !(p->0.message_type == MessageType::QueryResponse)
                    || p->0.query is None,
            }
        }),
{
    let m = match Message::from_string(message) {
        Ok(m) => m,
        Err(_) => {
            return None;
        },
    };
    match m.get_message_type() {
        MessageType::QueryResponse => m.get_data().query,
        _ => None,
    }
}

} // verus!
