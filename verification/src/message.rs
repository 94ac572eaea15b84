//! The control-protocol message and its wire codec. Every message is
//! one line of five space-separated fields:
//!
//! ```text
//! <TYPE> <payload|None> <max_ids|None> <ip:port|None> <query_tail|None>\n
//! ```
//!
//! The payload is a storage percentage (hundredths of a percent in
//! memory, plain decimal on the wire), `max_ids` is the per-table
//! maximum-id mapping, and the query tail runs to the first `;`.

use vstd::prelude::*;
use vstd::string::StringSliceAdditionalSpecFns;
use crate::chars::{
    index_of_from, lemma_index_of_from, find_char_from, subrange_chars, append_chars,
    str_to_chars, chars_to_string, chars_eq, is_space,
};
use crate::chars::is_digit;
use crate::numbers::{
    pct_chars, parse_pct, pct_to_chars, parse_pct_chars, lemma_pct_round_trip,
    lemma_nat_chars_value, nat_chars, lemma_index_of_none, lemma_index_of_is,
};
use crate::node_info::{
    NodeInfo, node_info_chars, parse_node_info, parse_node_info_chars, safe_node_info,
    lemma_node_info_round_trip,
};
use crate::tables_id_info::{
    TablesIdInfo, tables_entries, tables_chars, tables_to_chars, tables_from_chars,
    spec_tables_from_chars, tables_clone, tables_equal, safe_keys, unique_keys,
    lemma_tables_round_trip, lemma_tables_chars_class,
};

verus! {

/// The command a message carries.
#[derive(Clone, Copy, Debug, PartialEq, Eq, Structural)]
pub enum MessageType {
    InitConnection,
    AskMemoryUpdate,
    MemoryUpdate,
    Agreed,
    Denied,
    GetRouter,
    RouterId,
    NoRouterData,
    Query,
    QueryResponse,
}

/// Mathematical model of a message: the same five fields, with
/// strings as character sequences and the mapping as its entries.
#[verifier::ext_equal]
pub struct MessageView {
    pub message_type: MessageType,
    pub payload: Option<u32>,
    pub max_ids: Option<Seq<(Seq<char>, i64)>>,
    pub node_info: Option<(Seq<char>, Seq<char>)>,
    pub query: Option<Seq<char>>,
}

/// A control-protocol message. Only type-specific fields are
/// meaningful; all others hold `None`.
#[derive(Debug)]
pub struct Message {
    pub message_type: MessageType,
    pub payload: Option<u32>,
    pub max_ids: Option<TablesIdInfo>,
    pub node_info: Option<NodeInfo>,
    pub query_data: Option<String>,
}

impl View for Message {
    type V = MessageView;

    open spec fn view(&self) -> MessageView {
        MessageView {
            message_type: self.message_type,
            payload: self.payload,
            max_ids: match self.max_ids {
                Some(t) => Some(tables_entries(t)),
                None => None,
            },
            node_info: match self.node_info {
                Some(n) => Some(n@),
                None => None,
            },
            query: match self.query_data {
                Some(q) => Some(q@),
                None => None,
            },
        }
    }
}

/// Messages compare by type and payload, as the protocol's replies
/// are matched on those two fields alone.
impl PartialEq for Message {
    fn eq(&self, other: &Message) -> (r: bool) {
        let t = self.message_type == other.message_type;
        let p = match (self.payload, other.payload) {
            (Some(a), Some(b)) => a == b,
            (None, None) => true,
            _ => false,
        };
        t && p
    }
}

impl vstd::std_specs::cmp::PartialEqSpecImpl for Message {
    open spec fn obeys_eq_spec() -> bool {
        true
    }

    open spec fn eq_spec(&self, other: &Message) -> bool {
        self.message_type == other.message_type && self.payload == other.payload
    }
}

impl Message {
    pub fn new_init_connection(node_info: NodeInfo) -> (r: Message)
        ensures
            r@ == (MessageView {
                message_type: MessageType::InitConnection,
                payload: None,
                max_ids: None,
                node_info: Some(node_info@),
                query: None,
            }),
    {
        Message {
            message_type: MessageType::InitConnection,
            payload: None,
            max_ids: None,
            node_info: Some(node_info),
            query_data: None,
        }
    }

    pub fn new_ask_memory_update() -> (r: Message)
        ensures
            r@ == (MessageView {
                message_type: MessageType::AskMemoryUpdate,
                payload: None,
                max_ids: None,
                node_info: None,
                query: None,
            }),
    {
        Message {
            message_type: MessageType::AskMemoryUpdate,
            payload: None,
            max_ids: None,
            node_info: None,
            query_data: None,
        }
    }

    /// `payload` is the shard's free-storage percentage, in
    /// hundredths of a percent.
    pub fn new_memory_update(payload: u32, max_ids: TablesIdInfo) -> (r: Message)
        ensures
            r@ == (MessageView {
                message_type: MessageType::MemoryUpdate,
                payload: Some(payload),
                max_ids: Some(tables_entries(max_ids)),
                node_info: None,
                query: None,
            }),
    {
        Message {
            message_type: MessageType::MemoryUpdate,
            payload: Some(payload),
            max_ids: Some(max_ids),
            node_info: None,
            query_data: None,
        }
    }

    /// `memory_percentage` is in hundredths of a percent.
    pub fn new_agreed(memory_percentage: u32, max_ids: TablesIdInfo) -> (r: Message)
        ensures
            r@ == (MessageView {
                message_type: MessageType::Agreed,
                payload: Some(memory_percentage),
                max_ids: Some(tables_entries(max_ids)),
                node_info: None,
                query: None,
            }),
    {
        Message {
            message_type: MessageType::Agreed,
            payload: Some(memory_percentage),
            max_ids: Some(max_ids),
            node_info: None,
            query_data: None,
        }
    }

    pub fn new_denied() -> (r: Message)
        ensures
            r@ == (MessageView {
                message_type: MessageType::Denied,
                payload: None,
                max_ids: None,
                node_info: None,
                query: None,
            }),
    {
        Message {
            message_type: MessageType::Denied,
            payload: None,
            max_ids: None,
            node_info: None,
            query_data: None,
        }
    }

    pub fn new_get_router() -> (r: Message)
        ensures
            r@ == (MessageView {
                message_type: MessageType::GetRouter,
                payload: None,
                max_ids: None,
                node_info: None,
                query: None,
            }),
    {
        Message {
            message_type: MessageType::GetRouter,
            payload: None,
            max_ids: None,
            node_info: None,
            query_data: None,
        }
    }

    pub fn new_router_id(node_info: NodeInfo) -> (r: Message)
        ensures
            r@ == (MessageView {
                message_type: MessageType::RouterId,
                payload: None,
                max_ids: None,
                node_info: Some(node_info@),
                query: None,
            }),
    {
        Message {
            message_type: MessageType::RouterId,
            payload: None,
            max_ids: None,
            node_info: Some(node_info),
            query_data: None,
        }
    }

    pub fn new_no_router_data() -> (r: Message)
        ensures
            r@ == (MessageView {
                message_type: MessageType::NoRouterData,
                payload: None,
                max_ids: None,
                node_info: None,
                query: None,
            }),
    {
        Message {
            message_type: MessageType::NoRouterData,
            payload: None,
            max_ids: None,
            node_info: None,
            query_data: None,
        }
    }

    pub fn new_query(sender_info: Option<NodeInfo>, query: String) -> (r: Message)
        ensures
            r@.message_type == MessageType::Query,
            r@.payload is None,
            r@.max_ids is None,
            sender_info matches Some(n) ==> r@.node_info == Some(n@),
            sender_info is None ==> r@.node_info is None,
            r@.query == Some(query@),
    {
        Message {
            message_type: MessageType::Query,
            payload: None,
            max_ids: None,
            node_info: sender_info,
            query_data: Some(query),
        }
    }

    pub fn new_query_response(query_response: String) -> (r: Message)
        ensures
            r@ == (MessageView {
                message_type: MessageType::QueryResponse,
                payload: None,
                max_ids: None,
                node_info: None,
                query: Some(query_response@),
            }),
    {
        Message {
            message_type: MessageType::QueryResponse,
            payload: None,
            max_ids: None,
            node_info: None,
            query_data: Some(query_response),
        }
    }

    pub fn get_message_type(&self) -> (r: MessageType)
        ensures
            r == self@.message_type,
    {
        self.message_type
    }
}

/// The meaningful data of a message, as [`Message::get_data`] hands
/// it out.
#[derive(Debug)]
pub struct MessageData {
    pub payload: Option<u32>,
    pub node_info: Option<NodeInfo>,
    pub query: Option<String>,
    pub max_ids: Option<TablesIdInfo>,
}

/// Mathematical model of [`MessageData`].
#[verifier::ext_equal]
pub struct MessageDataView {
    pub payload: Option<u32>,
    pub node_info: Option<(Seq<char>, Seq<char>)>,
    pub query: Option<Seq<char>>,
    pub max_ids: Option<Seq<(Seq<char>, i64)>>,
}

impl View for MessageData {
    type V = MessageDataView;

    open spec fn view(&self) -> MessageDataView {
        MessageDataView {
            payload: self.payload,
            node_info: match self.node_info {
                Some(n) => Some(n@),
                None => None,
            },
            query: match self.query {
                Some(q) => Some(q@),
                None => None,
            },
            max_ids: match self.max_ids {
                Some(t) => Some(tables_entries(t)),
                None => None,
            },
        }
    }
}

impl MessageData {
    pub fn new_payload(payload: u32, max_ids: TablesIdInfo) -> (r: MessageData)
        ensures
            r@ == (MessageDataView {
                payload: Some(payload),
                node_info: None,
                query: None,
                max_ids: Some(tables_entries(max_ids)),
            }),
    {
        MessageData { payload: Some(payload), node_info: None, query: None, max_ids: Some(max_ids) }
    }

    pub fn new_node_info(node_info: NodeInfo) -> (r: MessageData)
        ensures
            r@ == (MessageDataView {
                payload: None,
                node_info: Some(node_info@),
                query: None,
                max_ids: None,
            }),
    {
        MessageData { payload: None, node_info: Some(node_info), query: None, max_ids: None }
    }

    pub fn new_query(query: String, sender_info: Option<NodeInfo>) -> (r: MessageData)
        ensures
            r@.payload is None,
            sender_info matches Some(n) ==> r@.node_info == Some(n@),
            sender_info is None ==> r@.node_info is None,
            r@.query == Some(query@),
            r@.max_ids is None,
    {
        MessageData { payload: None, node_info: sender_info, query: Some(query), max_ids: None }
    }

    pub fn new_query_response(query_response: String) -> (r: MessageData)
        ensures
            r@ == (MessageDataView {
                payload: None,
                node_info: None,
                query: Some(query_response@),
                max_ids: None,
            }),
    {
        MessageData { payload: None, node_info: None, query: Some(query_response), max_ids: None }
    }

    pub fn new_none() -> (r: MessageData)
        ensures
            r@ == (MessageDataView { payload: None, node_info: None, query: None, max_ids: None }),
    {
        MessageData { payload: None, node_info: None, query: None, max_ids: None }
    }
}

/// What `get_data` yields for each message: the fields meaningful for
/// the type, when they are all present, and nothing otherwise.
pub open spec fn spec_get_data(m: MessageView) -> MessageDataView {
    let none = MessageDataView { payload: None, node_info: None, query: None, max_ids: None };
    match m.message_type {
        MessageType::InitConnection | MessageType::RouterId => match m.node_info {
            Some(n) => MessageDataView {
                payload: None,
                node_info: Some(n),
                query: None,
                max_ids: None,
            },
            None => none,
        },
        MessageType::MemoryUpdate | MessageType::Agreed => match (m.payload, m.max_ids) {
            (Some(p), Some(es)) => MessageDataView {
                payload: Some(p),
                node_info: None,
                query: None,
                max_ids: Some(es),
            },
            _ => none,
        },
        MessageType::Query => match (m.query, m.node_info) {
            (Some(q), Some(n)) => MessageDataView {
                payload: None,
                node_info: Some(n),
                query: Some(q),
                max_ids: None,
            },
            _ => none,
        },
        MessageType::QueryResponse => match m.query {
            Some(q) => MessageDataView {
                payload: None,
                node_info: None,
                query: Some(q),
                max_ids: None,
            },
            None => none,
        },
        _ => none,
    }
}

impl Message {
    /// The message's meaningful data, per [`spec_get_data`].
    pub fn get_data(&self) -> (r: MessageData)
        ensures
            r@ == spec_get_data(self@),
    {
        match self.message_type {
            MessageType::InitConnection | MessageType::RouterId => {
                if let Some(node_info) = &self.node_info {
                    MessageData::new_node_info(node_info.duplicate())
                } else {
                    MessageData::new_none()
                }
            },
            MessageType::MemoryUpdate | MessageType::Agreed => {
                match (&self.payload, &self.max_ids) {
                    (Some(payload), Some(max_ids)) => MessageData::new_payload(
                        *payload,
                        tables_clone(max_ids),
                    ),
                    _ => MessageData::new_none(),
                }
            },
            MessageType::Query => {
                match (&self.query_data, &self.node_info) {
                    (Some(query), Some(node_info)) => MessageData::new_query(
                        query.clone(),
                        Some(node_info.duplicate()),
                    ),
                    _ => MessageData::new_none(),
                }
            },
            MessageType::QueryResponse => {
                if let Some(query_response) = &self.query_data {
                    MessageData::new_query_response(query_response.clone())
                } else {
                    MessageData::new_none()
                }
            },
            _ => MessageData::new_none(),
        }
    }
}

/// The wire name of each message type.
pub open spec fn type_chars(t: MessageType) -> Seq<char> {
    match t {
        MessageType::InitConnection => "INIT_CONNECTION"@,
        MessageType::AskMemoryUpdate => "ASK_MEMORY_UPDATE"@,
        MessageType::MemoryUpdate => "MEMORY_UPDATE"@,
        MessageType::Agreed => "AGREED"@,
        MessageType::Denied => "DENIED"@,
        MessageType::GetRouter => "GET_ROUTER"@,
        MessageType::RouterId => "ROUTER_ID"@,
        MessageType::NoRouterData => "NO_ROUTER_DATA"@,
        MessageType::Query => "QUERY"@,
        MessageType::QueryResponse => "QUERY_RESPONSE"@,
    }
}

/// A field's wire form: its characters, or the literal `None`.
pub open spec fn opt_field(f: Option<Seq<char>>) -> Seq<char> {
    match f {
        Some(s) => s,
        None => "None"@,
    }
}

/// The whole line a message becomes on the wire.
pub open spec fn spec_message_chars(m: MessageView) -> Seq<char> {
    type_chars(m.message_type) + seq![' '] + opt_field(
        match m.payload {
            Some(p) => Some(pct_chars(p as int)),
            None => None,
        },
    ) + seq![' '] + opt_field(
        match m.max_ids {
            Some(es) => Some(tables_chars(es)),
            None => None,
        },
    ) + seq![' '] + opt_field(
        match m.node_info {
            Some(n) => Some(node_info_chars(n)),
            None => None,
        },
    ) + seq![' '] + opt_field(m.query) + seq!['\n']
}

fn type_to_chars(t: MessageType) -> (v: Vec<char>)
    ensures
        v@ == type_chars(t),
{
    match t {
        MessageType::InitConnection => str_to_chars("INIT_CONNECTION"),
        MessageType::AskMemoryUpdate => str_to_chars("ASK_MEMORY_UPDATE"),
        MessageType::MemoryUpdate => str_to_chars("MEMORY_UPDATE"),
        MessageType::Agreed => str_to_chars("AGREED"),
        MessageType::Denied => str_to_chars("DENIED"),
        MessageType::GetRouter => str_to_chars("GET_ROUTER"),
        MessageType::RouterId => str_to_chars("ROUTER_ID"),
        MessageType::NoRouterData => str_to_chars("NO_ROUTER_DATA"),
        MessageType::Query => str_to_chars("QUERY"),
        MessageType::QueryResponse => str_to_chars("QUERY_RESPONSE"),
    }
}

impl Message {
    /// Serializes the message to its wire line.
    pub fn to_string(&self) -> (r: String)
        ensures
            r@ == spec_message_chars(self@),
    {
        let mut out = type_to_chars(self.message_type);
        out.push(' ');
        match &self.payload {
            Some(p) => {
                let d = pct_to_chars(*p);
                append_chars(&mut out, &d);
            },
            None => {
                let d = str_to_chars("None");
                append_chars(&mut out, &d);
            },
        }
        out.push(' ');
        match &self.max_ids {
            Some(t) => {
                let d = tables_to_chars(t);
                append_chars(&mut out, &d);
            },
            None => {
                let d = str_to_chars("None");
                append_chars(&mut out, &d);
            },
        }
        out.push(' ');
        match &self.node_info {
            Some(n) => {
                let s = n.to_string();
                let d = str_to_chars(s.as_str());
                append_chars(&mut out, &d);
            },
            None => {
                let d = str_to_chars("None");
                append_chars(&mut out, &d);
            },
        }
        out.push(' ');
        match &self.query_data {
            Some(q) => {
                let d = str_to_chars(q.as_str());
                append_chars(&mut out, &d);
            },
            None => {
                let d = str_to_chars("None");
                append_chars(&mut out, &d);
            },
        }
        out.push('\n');
        proof {
            assert(out@ =~= spec_message_chars(self@));
        }
        chars_to_string(&out)
    }
}

/// A trailing newline is dropped before the line is read.
pub open spec fn strip_newline(s: Seq<char>) -> Seq<char> {
    if s.len() > 0 && s.last() == '\n' {
        s.drop_last()
    } else {
        s
    }
}

/// The first space-delimited token of `s`, and what follows the
/// space; no following space means no further fields.
pub open spec fn split_tok(s: Seq<char>) -> (Seq<char>, Option<Seq<char>>) {
    let e = index_of_from(s, ' ', 0);
    if e == s.len() {
        (s, None)
    } else {
        (s.subrange(0, e), Some(s.subrange(e + 1, s.len() as int)))
    }
}

/// Splitting an absent remainder yields an empty token and no
/// further fields.
pub open spec fn split_opt(r: Option<Seq<char>>) -> (Seq<char>, Option<Seq<char>>) {
    match r {
        None => (Seq::<char>::empty(), None),
        Some(s) => split_tok(s),
    }
}

/// An absent or `None`-valued field.
pub open spec fn is_none_field(tok: Seq<char>) -> bool {
    tok == "None"@ || tok.len() == 0
}

/// The message type a wire name denotes.
pub open spec fn parse_type(tok: Seq<char>) -> Option<MessageType> {
    if tok == "INIT_CONNECTION"@ {
        Some(MessageType::InitConnection)
    } else if tok == "ASK_MEMORY_UPDATE"@ {
        Some(MessageType::AskMemoryUpdate)
    } else if tok == "MEMORY_UPDATE"@ {
        Some(MessageType::MemoryUpdate)
    } else if tok == "AGREED"@ {
        Some(MessageType::Agreed)
    } else if tok == "DENIED"@ {
        Some(MessageType::Denied)
    } else if tok == "GET_ROUTER"@ {
        Some(MessageType::GetRouter)
    } else if tok == "ROUTER_ID"@ {
        Some(MessageType::RouterId)
    } else if tok == "NO_ROUTER_DATA"@ {
        Some(MessageType::NoRouterData)
    } else if tok == "QUERY"@ {
        Some(MessageType::Query)
    } else if tok == "QUERY_RESPONSE"@ {
        Some(MessageType::QueryResponse)
    } else {
        None
    }
}

/// The payload field: absent or `None` is no payload; anything else
/// must read as a percentage or the whole decode fails.
pub open spec fn parse_opt_payload(tok: Seq<char>) -> Option<Option<u32>> {
    if is_none_field(tok) {
        Some(None)
    } else {
        match parse_pct(tok) {
            Some(p) => Some(Some(p)),
            None => None,
        }
    }
}

/// The max-ids field, in the same way.
pub open spec fn parse_opt_maxids(tok: Seq<char>) -> Option<Option<Seq<(Seq<char>, i64)>>> {
    if is_none_field(tok) {
        Some(None)
    } else {
        match spec_tables_from_chars(tok) {
            Some(es) => Some(Some(es)),
            None => None,
        }
    }
}

/// The address field, in the same way.
pub open spec fn parse_opt_node(tok: Seq<char>) -> Option<Option<(Seq<char>, Seq<char>)>> {
    if is_none_field(tok) {
        Some(None)
    } else {
        match parse_node_info(tok) {
            Some(n) => Some(Some(n)),
            None => None,
        }
    }
}

/// The query field is everything after the fourth space, cut at the
/// first `;` inclusive.
pub open spec fn parse_query_field(r: Option<Seq<char>>) -> Option<Seq<char>> {
    match r {
        None => None,
        Some(raw) => if raw == "None"@ || raw.len() == 0 {
            None
        } else {
            let sc = index_of_from(raw, ';', 0);
            if sc == raw.len() {
                Some(raw)
            } else {
                Some(raw.subrange(0, sc + 1))
            }
        },
    }
}

/// Reading one wire line: an unknown type or a malformed payload,
/// max-ids or address field fails the whole decode; absent fields
/// are tolerated as `None`.
pub open spec fn spec_parse_message(s: Seq<char>) -> Option<MessageView> {
    let body = strip_newline(s);
    let (t_tok, r1) = split_tok(body);
    let (p_tok, r2) = split_opt(r1);
    let (m_tok, r3) = split_opt(r2);
    let (n_tok, r4) = split_opt(r3);
    match (parse_type(t_tok), parse_opt_payload(p_tok), parse_opt_maxids(m_tok), parse_opt_node(
        n_tok,
    )) {
        (Some(mt), Some(payload), Some(max_ids), Some(node_info)) => Some(
            MessageView {
                message_type: mt,
                payload: payload,
                max_ids: max_ids,
                node_info: node_info,
                query: parse_query_field(r4),
            },
        ),
        _ => None,
    }
}

fn split_tok_exec(s: &Vec<char>) -> (r: (Vec<char>, Option<Vec<char>>))
    ensures
        r.0@ == split_tok(s@).0,
        (r.1 is Some) == (split_tok(s@).1 is Some),
        r.1 matches Some(v) ==> split_tok(s@).1 == Some(v@),
{
    let e = find_char_from(s, ' ', 0);
    proof {
        lemma_index_of_from(s@, ' ', 0);
    }
    if e == s.len() {
        let whole = subrange_chars(s, 0, s.len());
        proof {
            assert(whole@ =~= s@);
        }
        (whole, None)
    } else {
        (subrange_chars(s, 0, e), Some(subrange_chars(s, e + 1, s.len())))
    }
}

fn split_opt_exec(r: Option<Vec<char>>) -> (out: (Vec<char>, Option<Vec<char>>))
    ensures
        ({
            let spec_r = match r {
                Some(v) => Some(v@),
                None => None,
            };
            &&& out.0@ == split_opt(spec_r).0
            &&& (out.1 is Some) == (split_opt(spec_r).1 is Some)
            &&& (out.1 matches Some(v) ==> split_opt(spec_r).1 == Some(v@))
        }),
{
    match r {
        None => (Vec::new(), None),
        Some(s) => split_tok_exec(&s),
    }
}

fn is_none_tok(v: &Vec<char>) -> (r: bool)
    ensures
        r == is_none_field(v@),
{
    if v.len() == 0 {
        return true;
    }
    let lit = str_to_chars("None");
    chars_eq(v, &lit)
}

fn parse_type_exec(tok: &Vec<char>) -> (r: Option<MessageType>)
    ensures
        r == parse_type(tok@),
{
    if chars_eq(tok, &str_to_chars("INIT_CONNECTION")) {
        Some(MessageType::InitConnection)
    } else if chars_eq(tok, &str_to_chars("ASK_MEMORY_UPDATE")) {
        Some(MessageType::AskMemoryUpdate)
    } else if chars_eq(tok, &str_to_chars("MEMORY_UPDATE")) {
        Some(MessageType::MemoryUpdate)
    } else if chars_eq(tok, &str_to_chars("AGREED")) {
        Some(MessageType::Agreed)
    } else if chars_eq(tok, &str_to_chars("DENIED")) {
        Some(MessageType::Denied)
    } else if chars_eq(tok, &str_to_chars("GET_ROUTER")) {
        Some(MessageType::GetRouter)
    } else if chars_eq(tok, &str_to_chars("ROUTER_ID")) {
        Some(MessageType::RouterId)
    } else if chars_eq(tok, &str_to_chars("NO_ROUTER_DATA")) {
        Some(MessageType::NoRouterData)
    } else if chars_eq(tok, &str_to_chars("QUERY")) {
        Some(MessageType::Query)
    } else if chars_eq(tok, &str_to_chars("QUERY_RESPONSE")) {
        Some(MessageType::QueryResponse)
    } else {
        None
    }
}

/// The wire buffer is fixed at 1024 bytes; a longer line cannot be a
/// message.
pub open spec fn within_wire_limit(s: &str) -> bool {
    s.spec_bytes().len() as usize <= 1024
}

/// What reading a received line yields: its decode when it fits the
/// wire buffer, and nothing when it does not.
pub open spec fn spec_read_message(s: &str) -> Option<MessageView> {
    if within_wire_limit(s) {
        spec_parse_message(s@)
    } else {
        None
    }
}

impl Message {
    /// Deserializes one wire line, per [`spec_read_message`]: a line
    /// over the wire-buffer size is refused outright.
    pub fn from_string(input: &str) -> (r: Result<Message, &'static str>)
        ensures
            r is Ok <==> spec_read_message(input) is Some,
            r matches Ok(m) ==> spec_read_message(input) == Some(m@),
    {
        if input.len() > 1024 {
            return Err("Invalid message");
        }
        let all = str_to_chars(input);
        let body: Vec<char> = if all.len() > 0 && all[all.len() - 1] == '\n' {
            let b = subrange_chars(&all, 0, all.len() - 1);
            proof {
                assert(b@ =~= strip_newline(input@));
            }
            b
        } else {
            all
        };
        let (t_tok, r1) = split_tok_exec(&body);
        let message_type = match parse_type_exec(&t_tok) {
            Some(t) => t,
            None => {
                return Err("Invalid message type");
            },
        };
        let (p_tok, r2) = split_opt_exec(r1);
        let payload: Option<u32> = if is_none_tok(&p_tok) {
            None
        } else {
            match parse_pct_chars(&p_tok) {
                Some(p) => Some(p),
                None => {
                    return Err("Invalid message");
                },
            }
        };
        let (m_tok, r3) = split_opt_exec(r2);
        let max_ids: Option<TablesIdInfo> = if is_none_tok(&m_tok) {
            None
        } else {
            match tables_from_chars(&m_tok) {
                Some(t) => Some(t),
                None => {
                    return Err("Invalid message");
                },
            }
        };
        let (n_tok, r4) = split_opt_exec(r3);
        let node_info: Option<NodeInfo> = if is_none_tok(&n_tok) {
            None
        } else {
            match parse_node_info_chars(&n_tok) {
                Some(n) => Some(n),
                None => {
                    return Err("Invalid message");
                },
            }
        };
        let query_data: Option<String> = match r4 {
            None => None,
            Some(raw) => {
                if is_none_tok(&raw) {
                    None
                } else {
                    let sc = find_char_from(&raw, ';', 0);
                    proof {
                        lemma_index_of_from(raw@, ';', 0);
                    }
                    if sc == raw.len() {
                        Some(chars_to_string(&raw))
                    } else {
                        let cut = subrange_chars(&raw, 0, sc + 1);
                        Some(chars_to_string(&cut))
                    }
                }
            },
        };
        let m = Message { message_type, payload, max_ids, node_info, query_data };
        proof {
            assert(spec_parse_message(input@) == Some(m@)) by {
                assert(spec_parse_message(input@)->0 =~= m@);
            }
        }
        Ok(m)
    }
}

/// Splitting a spaceless token off the front of a line.
pub proof fn lemma_split_tok_concat(a: Seq<char>, b: Seq<char>)
    requires
        forall|i: int| 0 <= i < a.len() ==> a[i] != ' ',
    ensures
        split_tok(a + seq![' '] + b) == (a, Some(b)),
{
    let s = a + seq![' '] + b;
    assert(s[a.len() as int] == ' ');
    assert(forall|j: int| 0 <= j < a.len() ==> #[trigger] s[j] == a[j]);
    lemma_index_of_is(s, ' ', 0, a.len() as int);
    assert(s.subrange(0, a.len() as int) =~= a);
    assert(s.subrange(a.len() as int + 1, s.len() as int) =~= b);
}

/// The wire name of a type holds no blanks and reads back as that
/// type.
#[verifier::rlimit(60)]
pub proof fn lemma_type_chars_class(t: MessageType)
    ensures
        forall|j: int|
            0 <= j < type_chars(t).len() ==> #[trigger] type_chars(t)[j] != ' ' && type_chars(
                t,
            )[j] != '\n',
        type_chars(t).len() >= 1,
        parse_type(type_chars(t)) == Some(t),
{
    reveal_strlit("INIT_CONNECTION");
    reveal_strlit("ASK_MEMORY_UPDATE");
    reveal_strlit("MEMORY_UPDATE");
    reveal_strlit("AGREED");
    reveal_strlit("DENIED");
    reveal_strlit("GET_ROUTER");
    reveal_strlit("ROUTER_ID");
    reveal_strlit("NO_ROUTER_DATA");
    reveal_strlit("QUERY");
    reveal_strlit("QUERY_RESPONSE");
    match t {
        MessageType::InitConnection => {
            assert(parse_type(type_chars(t)) == Some(t));
        },
        MessageType::AskMemoryUpdate => {
            assert(!(type_chars(t) =~= "INIT_CONNECTION"@));
            assert(parse_type(type_chars(t)) == Some(t));
        },
        MessageType::MemoryUpdate => {
            assert(!(type_chars(t) =~= "INIT_CONNECTION"@));
            assert(!(type_chars(t) =~= "ASK_MEMORY_UPDATE"@));
            assert(parse_type(type_chars(t)) == Some(t));
        },
        MessageType::Agreed => {
            assert(!(type_chars(t) =~= "INIT_CONNECTION"@));
            assert(!(type_chars(t) =~= "ASK_MEMORY_UPDATE"@));
            assert(!(type_chars(t) =~= "MEMORY_UPDATE"@));
            assert(parse_type(type_chars(t)) == Some(t));
        },
        MessageType::Denied => {
            assert(!(type_chars(t) =~= "INIT_CONNECTION"@));
            assert(!(type_chars(t) =~= "ASK_MEMORY_UPDATE"@));
            assert(!(type_chars(t) =~= "MEMORY_UPDATE"@));
            assert("DENIED"@[0] != "AGREED"@[0]);
            assert(!(type_chars(t) =~= "AGREED"@));
            assert(parse_type(type_chars(t)) == Some(t));
        },
        MessageType::GetRouter => {
            assert(!(type_chars(t) =~= "INIT_CONNECTION"@));
            assert(!(type_chars(t) =~= "ASK_MEMORY_UPDATE"@));
            assert(!(type_chars(t) =~= "MEMORY_UPDATE"@));
            assert(!(type_chars(t) =~= "AGREED"@));
            assert(!(type_chars(t) =~= "DENIED"@));
            assert(parse_type(type_chars(t)) == Some(t));
        },
        MessageType::RouterId => {
            assert(!(type_chars(t) =~= "INIT_CONNECTION"@));
            assert(!(type_chars(t) =~= "ASK_MEMORY_UPDATE"@));
            assert(!(type_chars(t) =~= "MEMORY_UPDATE"@));
            assert(!(type_chars(t) =~= "AGREED"@));
            assert(!(type_chars(t) =~= "DENIED"@));
            assert(!(type_chars(t) =~= "GET_ROUTER"@));
            assert(parse_type(type_chars(t)) == Some(t));
        },
        MessageType::NoRouterData => {
            assert(!(type_chars(t) =~= "INIT_CONNECTION"@));
            assert(!(type_chars(t) =~= "ASK_MEMORY_UPDATE"@));
            assert(!(type_chars(t) =~= "MEMORY_UPDATE"@));
            assert(!(type_chars(t) =~= "AGREED"@));
            assert(!(type_chars(t) =~= "DENIED"@));
            assert(!(type_chars(t) =~= "GET_ROUTER"@));
            assert(!(type_chars(t) =~= "ROUTER_ID"@));
            assert(parse_type(type_chars(t)) == Some(t));
        },
        MessageType::Query => {
            assert(!(type_chars(t) =~= "INIT_CONNECTION"@));
            assert(!(type_chars(t) =~= "ASK_MEMORY_UPDATE"@));
            assert(!(type_chars(t) =~= "MEMORY_UPDATE"@));
            assert(!(type_chars(t) =~= "AGREED"@));
            assert(!(type_chars(t) =~= "DENIED"@));
            assert(!(type_chars(t) =~= "GET_ROUTER"@));
            assert(!(type_chars(t) =~= "ROUTER_ID"@));
            assert(!(type_chars(t) =~= "NO_ROUTER_DATA"@));
            assert(parse_type(type_chars(t)) == Some(t));
        },
        MessageType::QueryResponse => {
            assert(!(type_chars(t) =~= "INIT_CONNECTION"@));
            assert(!(type_chars(t) =~= "ASK_MEMORY_UPDATE"@));
            assert(!(type_chars(t) =~= "MEMORY_UPDATE"@));
            assert(!(type_chars(t) =~= "AGREED"@));
            assert(!(type_chars(t) =~= "DENIED"@));
            assert(!(type_chars(t) =~= "GET_ROUTER"@));
            assert(!(type_chars(t) =~= "ROUTER_ID"@));
            assert("QUERY_RESPONSE"@[0] != "NO_ROUTER_DATA"@[0]);
            assert(!(type_chars(t) =~= "NO_ROUTER_DATA"@));
            assert(!(type_chars(t) =~= "QUERY"@));
            assert(parse_type(type_chars(t)) == Some(t));
        },
    }
}

/// The characters of the literal `None` field.
pub proof fn lemma_none_field_class()
    ensures
        "None"@.len() == 4,
        forall|j: int|
            0 <= j < 4 ==> #[trigger] "None"@[j] != ' ' && "None"@[j] != '\n' && "None"@[j] != ':'
                && !is_digit("None"@[j]),
        is_none_field("None"@),
{
    reveal_strlit("None");
}

/// Every character of a printed percentage is a digit or the dot,
/// and the first is a digit.
pub proof fn lemma_pct_chars_class(p: u32)
    ensures
        pct_chars(p as int).len() >= 1,
        forall|j: int|
            0 <= j < pct_chars(p as int).len() ==> is_digit(#[trigger] pct_chars(p as int)[j])
                || pct_chars(p as int)[j] == '.',
        is_digit(pct_chars(p as int)[0]),
{
    let ip = p as int / 100;
    let fr = p as int % 100;
    lemma_nat_chars_value(ip as nat);
    let d = nat_chars(ip as nat);
    if fr != 0 {
        assert(forall|j: int|
            0 <= j < d.len() ==> #[trigger] pct_chars(p as int)[j] == d[j]);
    }
}

/// A message whose fields travel intact on the wire: wire-safe table
/// names and address parts, and a query tail free of newlines and of
/// any semicolon but a final one.
pub open spec fn wf_message(m: MessageView) -> bool {
    &&& (m.max_ids matches Some(es) ==> es.len() >= 1 && safe_keys(es) && unique_keys(es))
    &&& (m.node_info matches Some(n) ==> safe_node_info(n))
    &&& (m.query matches Some(q) ==> {
        &&& q.len() >= 1
        &&& q != "None"@
        &&& forall|i: int| 0 <= i < q.len() ==> #[trigger] q[i] != '\n'
        &&& forall|i: int| 0 <= i < q.len() - 1 ==> #[trigger] q[i] != ';'
    })
}

/// The printed payload field holds no blanks and reads back as the
/// payload.
proof fn lemma_payload_field(m: MessageView, f2: Seq<char>)
    requires
        f2 == opt_field(
            match m.payload {
                Some(p) => Some(pct_chars(p as int)),
                None => None,
            },
        ),
    ensures
        forall|j: int| 0 <= j < f2.len() ==> #[trigger] f2[j] != ' ' && f2[j] != '\n',
        parse_opt_payload(f2) == Some(m.payload),
{
    lemma_none_field_class();
    if let Some(p) = m.payload {
        lemma_pct_chars_class(p);
        lemma_pct_round_trip(p);
        assert(f2 != "None"@) by {
            if f2 == "None"@ {
                assert(is_digit(f2[0]));
                assert(!is_digit("None"@[0]));
            }
        }
        assert(f2.len() >= 1);
        assert(parse_opt_payload(f2) == Some(m.payload));
    } else {
        assert(parse_opt_payload(f2) == Some(m.payload));
    }
}

/// The printed max-ids field holds no blanks and reads back as the
/// entries.
proof fn lemma_maxids_field(m: MessageView, f3: Seq<char>)
    requires
        m.max_ids matches Some(es) ==> es.len() >= 1 && safe_keys(es) && unique_keys(es),
        f3 == opt_field(
            match m.max_ids {
                Some(es) => Some(tables_chars(es)),
                None => None,
            },
        ),
    ensures
        forall|j: int| 0 <= j < f3.len() ==> #[trigger] f3[j] != ' ' && f3[j] != '\n',
        parse_opt_maxids(f3) == Some(m.max_ids),
{
    lemma_none_field_class();
    if let Some(es) = m.max_ids {
        lemma_tables_chars_class(es, 0);
        lemma_tables_round_trip(es);
        assert(forall|j: int| 0 <= j < f3.len() ==> !is_space(#[trigger] f3[j]));
        assert(f3 != "None"@) by {
            let kp = es[0].0.len() as int;
            assert(f3[kp] == ':');
            if f3 == "None"@ {
                assert("None"@[kp] != ':');
            }
        }
        assert(f3.len() >= 1);
        assert(parse_opt_maxids(f3) == Some(m.max_ids));
    } else {
        assert(parse_opt_maxids(f3) == Some(m.max_ids));
    }
}

/// The printed address field holds no blanks and reads back as the
/// address.
proof fn lemma_node_field(m: MessageView, f4: Seq<char>)
    requires
        m.node_info matches Some(n) ==> safe_node_info(n),
        f4 == opt_field(
            match m.node_info {
                Some(n) => Some(node_info_chars(n)),
                None => None,
            },
        ),
    ensures
        forall|j: int| 0 <= j < f4.len() ==> #[trigger] f4[j] != ' ' && f4[j] != '\n',
        parse_opt_node(f4) == Some(m.node_info),
{
    lemma_none_field_class();
    if let Some(n) = m.node_info {
        lemma_node_info_round_trip(n);
        assert(forall|j: int| 0 <= j < f4.len() ==> !is_space(#[trigger] f4[j]));
        assert(f4 != "None"@) by {
            let kp = n.0.len() as int;
            assert(f4[kp] == ':');
            if f4 == "None"@ {
                assert("None"@[kp] != ':');
            }
        }
        assert(f4.len() >= 1);
        assert(parse_opt_node(f4) == Some(m.node_info));
    } else {
        assert(parse_opt_node(f4) == Some(m.node_info));
    }
}

/// The printed query field reads back as the query.
proof fn lemma_query_field(m: MessageView)
    requires
        m.query matches Some(q) ==> q.len() >= 1 && q != "None"@ && (forall|i: int|
            0 <= i < q.len() - 1 ==> #[trigger] q[i] != ';'),
    ensures
        parse_query_field(Some(opt_field(m.query))) == m.query,
{
    lemma_none_field_class();
    let f5 = opt_field(m.query);
    if let Some(q) = m.query {
        if q[q.len() - 1] == ';' {
            lemma_index_of_is(q, ';', 0, q.len() - 1);
            assert(q.subrange(0, (q.len() - 1) + 1) =~= q);
        } else {
            lemma_index_of_none(q, ';', 0);
        }
        assert(parse_query_field(Some(f5)) == m.query);
    } else {
        assert(parse_query_field(Some(f5)) == m.query);
    }
}

/// Message round trip: reading back the wire line of any well-formed
/// message yields that message, for every message type and field
/// combination the constructors build.
#[verifier::rlimit(100)]
pub proof fn lemma_message_round_trip(m: MessageView)
    requires
        wf_message(m),
    ensures
        spec_parse_message(spec_message_chars(m)) == Some(m),
{
    let s = spec_message_chars(m);
    let t = type_chars(m.message_type);
    let f2 = opt_field(
        match m.payload {
            Some(p) => Some(pct_chars(p as int)),
            None => None,
        },
    );
    let f3 = opt_field(
        match m.max_ids {
            Some(es) => Some(tables_chars(es)),
            None => None,
        },
    );
    let f4 = opt_field(
        match m.node_info {
            Some(n) => Some(node_info_chars(n)),
            None => None,
        },
    );
    let f5 = opt_field(m.query);
    lemma_type_chars_class(m.message_type);
    lemma_payload_field(m, f2);
    lemma_maxids_field(m, f3);
    lemma_node_field(m, f4);
    lemma_query_field(m);
    let body = strip_newline(s);
    assert(s.last() == '\n');
    let r1 = f2 + seq![' '] + (f3 + seq![' '] + (f4 + seq![' '] + f5));
    let r2 = f3 + seq![' '] + (f4 + seq![' '] + f5);
    let r3 = f4 + seq![' '] + f5;
    assert(body =~= t + seq![' '] + r1);
    lemma_split_tok_concat(t, r1);
    lemma_split_tok_concat(f2, r2);
    lemma_split_tok_concat(f3, r3);
    lemma_split_tok_concat(f4, f5);
    assert(split_tok(body) == (t, Some(r1)));
    assert(split_tok(r1) == (f2, Some(r2)));
    assert(split_tok(r2) == (f3, Some(r3)));
    assert(split_tok(r3) == (f4, Some(f5)));
    assert(spec_parse_message(s) == Some(m)) by {
        assert(spec_parse_message(s)->0 =~= m);
    }
}

/// An empty line decodes to nothing: no wire name is empty.
pub proof fn lemma_empty_line_unreadable(s: Seq<char>)
    requires
        s.len() == 0,
    ensures
        spec_parse_message(s) is None,
{
    reveal_strlit("INIT_CONNECTION");
    reveal_strlit("ASK_MEMORY_UPDATE");
    reveal_strlit("MEMORY_UPDATE");
    reveal_strlit("AGREED");
    reveal_strlit("DENIED");
    reveal_strlit("GET_ROUTER");
    reveal_strlit("ROUTER_ID");
    reveal_strlit("NO_ROUTER_DATA");
    reveal_strlit("QUERY");
    reveal_strlit("QUERY_RESPONSE");
    assert(!(s =~= "INIT_CONNECTION"@));
    assert(!(s =~= "ASK_MEMORY_UPDATE"@));
    assert(!(s =~= "MEMORY_UPDATE"@));
    assert(!(s =~= "AGREED"@));
    assert(!(s =~= "DENIED"@));
    assert(!(s =~= "GET_ROUTER"@));
    assert(!(s =~= "ROUTER_ID"@));
    assert(!(s =~= "NO_ROUTER_DATA"@));
    assert(!(s =~= "QUERY"@));
    assert(!(s =~= "QUERY_RESPONSE"@));
    assert(index_of_from(s, ' ', 0) == 0);
}

/// The attribute text of a message's data: each present field,
/// space-separated, in payload, address, query, max-ids order.
pub open spec fn md_chars(d: MessageDataView) -> Seq<char> {
    let raw = (match d.payload {
        Some(p) => pct_chars(p as int) + seq![' '],
        None => Seq::<char>::empty(),
    }) + (match d.node_info {
        Some(n) => node_info_chars(n) + seq![' '],
        None => Seq::<char>::empty(),
    }) + (match d.query {
        Some(q) => q + seq![' '],
        None => Seq::<char>::empty(),
    }) + (match d.max_ids {
        Some(es) => tables_chars(es),
        None => Seq::<char>::empty(),
    });
    if raw.len() > 0 && raw.last() == ' ' {
        raw.drop_last()
    } else {
        raw
    }
}

impl MessageData {
    /// The attributes as one string, per [`md_chars`].
    #[verifier::rlimit(100)]
    pub fn to_string(&self) -> (r: String)
        ensures
            r@ == md_chars(self@),
    {
        let mut out: Vec<char> = Vec::new();
        match &self.payload {
            Some(p) => {
                let d = pct_to_chars(*p);
                append_chars(&mut out, &d);
                out.push(' ');
            },
            None => {},
        }
        match &self.node_info {
            Some(n) => {
                let s = n.to_string();
                let d = str_to_chars(s.as_str());
                append_chars(&mut out, &d);
                out.push(' ');
            },
            None => {},
        }
        match &self.query {
            Some(q) => {
                let d = str_to_chars(q.as_str());
                append_chars(&mut out, &d);
                out.push(' ');
            },
            None => {},
        }
        match &self.max_ids {
            Some(t) => {
                let d = tables_to_chars(t);
                append_chars(&mut out, &d);
            },
            None => {},
        }
        let ghost raw = out@;
        if out.len() > 0 {
            let last = out[out.len() - 1];
            if last == ' ' {
                out.pop();
                proof {
                    assert(out@ =~= raw.drop_last());
                }
            }
        }
        proof {
            assert(out@ =~= md_chars(self@));
        }
        chars_to_string(&out)
    }
}

impl PartialEq for MessageData {
    #[verifier::rlimit(100)]
    fn eq(&self, other: &Self) -> (r: bool) {
        let p = match (self.payload, other.payload) {
            (Some(a), Some(b)) => a == b,
            (None, None) => true,
            _ => false,
        };
        let n = match (&self.node_info, &other.node_info) {
            (Some(a), Some(b)) => *a == *b,
            (None, None) => true,
            _ => false,
        };
        let q = match (&self.query, &other.query) {
            (Some(a), Some(b)) => *a == *b,
            (None, None) => true,
            _ => false,
        };
        let m = match (&self.max_ids, &other.max_ids) {
            (Some(a), Some(b)) => tables_equal(a, b),
            (None, None) => true,
            _ => false,
        };
        let r = p && n && q && m;
        proof {
            if r {
                assert(self@.payload == other@.payload);
                assert(self@.node_info == other@.node_info);
                assert(self@.query == other@.query);
                assert(self@.max_ids == other@.max_ids);
                assert(self@ =~= other@);
            } else {
                if !p {
                    assert(self@.payload != other@.payload);
                } else if !n {
                    assert(self@.node_info != other@.node_info);
                } else if !q {
                    assert(self@.query != other@.query);
                } else {
                    assert(self@.max_ids != other@.max_ids);
                }
            }
        }
        r
    }
}

impl vstd::std_specs::cmp::PartialEqSpecImpl for MessageData {
    open spec fn obeys_eq_spec() -> bool {
        true
    }

    open spec fn eq_spec(&self, other: &Self) -> bool {
        self@ == other@
    }
}

} // verus!

