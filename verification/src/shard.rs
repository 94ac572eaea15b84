//! The shard's decision core: which reply each control message gets,
//! and how the shard's advertised memory and per-table max ids are
//! maintained. The TCP listener and the SQL backend live at the
//! edge; they hand this module plain values and carry its replies.

use vstd::prelude::*;
use crate::memory_manager::MemoryManager;
use crate::message::{
    Message, MessageType, MessageView, spec_message_chars, spec_parse_message, spec_read_message,
    lemma_message_round_trip,
};
use crate::node_info::NodeInfo;
use crate::tables_id_info::{
    TablesIdInfo, tables_entries, tables_new, tables_insert, tables_clone, fold_into,
    insert_entry, unique_keys, safe_keys,
};

verus! {

/// A shard: its address, its memory manager, the router it last
/// accepted, and the per-table max ids it last scanned.
pub struct Shard {
    pub ip: String,
    pub port: String,
    pub memory_manager: MemoryManager,
    pub router_info: Option<NodeInfo>,
    pub tables_max_id: TablesIdInfo,
}

/// The `AGREED` reply a shard sends when it accepts a router: its
/// current advertised percentage and its current max-id snapshot.
pub open spec fn spec_agreed_view(s: Shard) -> MessageView {
    MessageView {
        message_type: MessageType::Agreed,
        payload: Some(s.memory_manager.available_memory_perc),
        max_ids: Some(tables_entries(s.tables_max_id)),
        node_info: None,
        query: None,
    }
}

/// The `MEMORY_UPDATE` reply: the same two fields.
pub open spec fn spec_memory_update_view(s: Shard) -> MessageView {
    MessageView {
        message_type: MessageType::MemoryUpdate,
        payload: Some(s.memory_manager.available_memory_perc),
        max_ids: Some(tables_entries(s.tables_max_id)),
        node_info: None,
        query: None,
    }
}

/// The reply to a router-discovery probe: the known router's address,
/// or the no-data sentinel.
pub open spec fn spec_router_reply_view(s: Shard) -> MessageView {
    match s.router_info {
        Some(n) => MessageView {
            message_type: MessageType::RouterId,
            payload: None,
            max_ids: None,
            node_info: Some(n@),
            query: None,
        },
        None => MessageView {
            message_type: MessageType::NoRouterData,
            payload: None,
            max_ids: None,
            node_info: None,
            query: None,
        },
    }
}

/// The pairs of a table scan, as values.
pub open spec fn pairs_view(v: Seq<(String, i64)>) -> Seq<(Seq<char>, i64)> {
    v.map_values(|e: (String, i64)| (e.0@, e.1))
}

impl Shard {
    /// The shard's advertised percentage stays within a full hundred
    /// percent.
    pub open spec fn inv(&self) -> bool {
        self.memory_manager.inv()
    }

    /// A shard that has accepted no router yet and scanned no tables.
    pub fn new(ip: &str, port: &str, memory_manager: MemoryManager) -> (r: Shard)
        requires
            memory_manager.inv(),
        ensures
            r.inv(),
            r.ip@ == ip@,
            r.port@ == port@,
            r.memory_manager == memory_manager,
            r.router_info is None,
            tables_entries(r.tables_max_id) == Seq::<(Seq<char>, i64)>::empty(),
    {
        Shard {
            ip: String::from_str(ip),
            port: String::from_str(port),
            memory_manager,
            router_info: None,
            tables_max_id: tables_new(),
        }
    }

    /// Records a table scan: the snapshot is rebuilt from the scan,
    /// so its keys are exactly the scanned tables; a table scanned
    /// twice keeps its first position with its last value.
    pub fn set_max_ids(&mut self, tables: Vec<(String, i64)>)
        ensures
            tables_entries(final(self).tables_max_id) == fold_into(
                Seq::<(Seq<char>, i64)>::empty(),
                pairs_view(tables@),
            ),
            unique_keys(tables_entries(final(self).tables_max_id)),
            final(self).memory_manager == old(self).memory_manager,
            final(self).router_info == old(self).router_info,
            final(self).ip == old(self).ip,
            final(self).port == old(self).port,
    {
        let ghost pv = pairs_view(tables@);
        let mut tables = tables;
        let mut fresh = tables_new();
        let ghost pre = tables_entries(fresh);
        let ghost mut i: int = 0;
        proof {
            assert(pv.subrange(0, 0) =~= Seq::<(Seq<char>, i64)>::empty());
            assert(fold_into(pre, pv.subrange(0, 0)) == pre);
        }
        while tables.len() > 0
            invariant
                i + tables@.len() == pv.len(),
                0 <= i <= pv.len(),
                forall|j: int|
                    0 <= j < tables@.len() ==> #[trigger] pairs_view(tables@)[j] == pv[i + j],
                tables_entries(fresh) == fold_into(pre, pv.subrange(0, i)),
                unique_keys(tables_entries(fresh)),
                pre == Seq::<(Seq<char>, i64)>::empty(),
            decreases tables@.len(),
        {
            let ghost prerest = tables@;
            let e = tables.remove(0);
            proof {
                assert(pairs_view(prerest)[0] == (prerest[0].0@, prerest[0].1));
                assert(pairs_view(prerest)[0] == pv[i]);
                assert((e.0@, e.1) == pv[i]);
            }
            let ghost before = tables_entries(fresh);
            tables_insert(&mut fresh, e.0, e.1);
            proof {
                assert forall|j: int| 0 <= j < tables@.len() implies #[trigger] pairs_view(
                    tables@,
                )[j] == pv[i + 1 + j] by {
                    assert(tables@[j] == prerest[j + 1]);
                    assert(pairs_view(prerest)[j + 1] == (prerest[j + 1].0@, prerest[j + 1].1));
                    assert(pairs_view(tables@)[j] == (tables@[j].0@, tables@[j].1));
                }
                let sub1 = pv.subrange(0, i + 1);
                assert(sub1 =~= pv.subrange(0, i).push(pv[i]));
                lemma_fold_into_push(pre, pv.subrange(0, i), pv[i]);
                assert(tables_entries(fresh) == insert_entry(before, e.0@, e.1));
                assert(tables_entries(fresh) == fold_into(pre, sub1));
                i = i + 1;
            }
        }
        proof {
            assert(pv.subrange(0, pv.len() as int) =~= pv);
        }
        self.tables_max_id = fresh;
    }

    /// Refreshes the advertised percentage from the given byte counts
    /// and records the given table scan, as one memory update.
    pub fn update_with(&mut self, total: u64, avail: u64, tables: Vec<(String, i64)>)
        requires
            old(self).inv(),
        ensures
            final(self).inv(),
            final(self).memory_manager.unavailable_memory_perc == old(
                self,
            ).memory_manager.unavailable_memory_perc,
            final(self).memory_manager.available_memory_perc
                == crate::memory_manager::spec_available_pct(
                old(self).memory_manager.unavailable_memory_perc as int,
                total as int,
                avail as int,
            ),
            tables_entries(final(self).tables_max_id) == fold_into(
                Seq::<(Seq<char>, i64)>::empty(),
                pairs_view(tables@),
            ),
            unique_keys(tables_entries(final(self).tables_max_id)),
            final(self).router_info == old(self).router_info,
            final(self).ip == old(self).ip,
            final(self).port == old(self).port,
    {
        self.set_max_ids(tables);
        self.memory_manager.update_with(total, avail);
    }

    /// The `AGREED` reply: the shard's current percentage and
    /// snapshot, on one wire line.
    pub fn get_agreed_connection(&self) -> (r: String)
        ensures
            r@ == spec_message_chars(spec_agreed_view(*self)),
    {
        let response_message = Message::new_agreed(
            self.memory_manager.available_memory_perc,
            tables_clone(&self.tables_max_id),
        );
        response_message.to_string()
    }

    /// The `MEMORY_UPDATE` reply, likewise.
    pub fn get_memory_update_message(&self) -> (r: String)
        ensures
            r@ == spec_message_chars(spec_memory_update_view(*self)),
    {
        let response_message = Message::new_memory_update(
            self.memory_manager.available_memory_perc,
            tables_clone(&self.tables_max_id),
        );
        response_message.to_string()
    }

    /// Accepts a router: the sender named in the message becomes the
    /// shard's router, overwriting any prior one, and the reply is
    /// `AGREED` with the shard's current state. A message that names
    /// no sender is dropped.
    pub fn handle_init_connection_message(&mut self, message: Message) -> (r: Option<String>)
        ensures
            message@.node_info matches Some(n) ==> {
                &&& final(self).router_info matches Some(ri) && ri@ == n
                &&& r matches Some(s) && s@ == spec_message_chars(spec_agreed_view(*final(self)))
            },
            message@.node_info is None ==> r is None && *final(self) == *old(self),
            final(self).memory_manager == old(self).memory_manager,
            tables_entries(final(self).tables_max_id) == tables_entries(old(self).tables_max_id),
            final(self).ip == old(self).ip,
            final(self).port == old(self).port,
    {
        match &message.node_info {
            Some(router_info) => {
                self.router_info = Some(router_info.duplicate());
                let response_string = self.get_agreed_connection();
                Some(response_string)
            },
            None => None,
        }
    }

    /// Answers a memory-update request with the shard's current
    /// state; the caller refreshes that state first.
    pub fn handle_memory_update_message(&self) -> (r: Option<String>)
        ensures
            r matches Some(s) && s@ == spec_message_chars(spec_memory_update_view(*self)),
    {
        Some(self.get_memory_update_message())
    }

    /// Answers a router-discovery probe with the known router's
    /// address, or the no-data sentinel.
    pub fn handle_get_router_message(&self) -> (r: Option<String>)
        ensures
            r matches Some(s) && s@ == spec_message_chars(spec_router_reply_view(*self)),
    {
        match &self.router_info {
            Some(router_info) => {
                let response_message = Message::new_router_id(router_info.duplicate());
                Some(response_message.to_string())
            },
            None => {
                let response_message = Message::new_no_router_data();
                Some(response_message.to_string())
            },
        }
    }

    /// Dispatches one incoming control line: a connection initiation
    /// naming its sender is accepted with `AGREED`, a memory-update
    /// request is answered with the current state, a router probe
    /// with the known router; anything else, and any line that does
    /// not decode, is dropped without a reply or a state change.
    pub fn get_response_message(&mut self, message: &str) -> (r: Option<String>)
        ensures
            ({
                let p = spec_read_message(message);
                &&& p is None ==> r is None && *final(self) == *old(self)
                &&& p matches Some(m) ==> {
                    &&& m.message_type == MessageType::InitConnection && m.node_info is Some ==> {
                        &&& final(self).router_info matches Some(ri) && Some(ri@) == m.node_info
                        &&& r matches Some(s) && s@ == spec_message_chars(
                            spec_agreed_view(*final(self)),
                        )
                    }
                    &&& m.message_type == MessageType::InitConnection && m.node_info is None ==> r
                        is None && *final(self) == *old(self)
                    &&& m.message_type == MessageType::AskMemoryUpdate ==> (r matches Some(s)
                        && s@ == spec_message_chars(spec_memory_update_view(*old(self)))
                        && *final(self) == *old(self))
                    &&& m.message_type == MessageType::GetRouter ==> (r matches Some(s) && s@
                        == spec_message_chars(spec_router_reply_view(*old(self)))
                        && *final(self) == *old(self))
                    &&& !(m.message_type == MessageType::InitConnection || m.message_type
                        == MessageType::AskMemoryUpdate || m.message_type
                        == MessageType::GetRouter) ==> r is None && *final(self) == *old(self)
                }
            }),
            final(self).memory_manager == old(self).memory_manager,
            tables_entries(final(self).tables_max_id) == tables_entries(old(self).tables_max_id),
            final(self).ip == old(self).ip,
            final(self).port == old(self).port,
    {
        if message.is_empty() {
            proof {
                crate::message::lemma_empty_line_unreadable(message@);
            }
            return None;
        }
        let message = match Message::from_string(message) {
            Ok(message) => message,
            Err(_) => {
                return None;
            },
        };
        match message.get_message_type() {
            MessageType::InitConnection => self.handle_init_connection_message(message),
            MessageType::AskMemoryUpdate => self.handle_memory_update_message(),
            MessageType::GetRouter => self.handle_get_router_message(),
            _ => None,
        }
    }
}

/// The `fold_into` of one more pair is an insertion into the fold so
/// far.
pub proof fn lemma_fold_into_push(
    es: Seq<(Seq<char>, i64)>,
    ps: Seq<(Seq<char>, i64)>,
    p: (Seq<char>, i64),
)
    ensures
        fold_into(es, ps.push(p)) == insert_entry(fold_into(es, ps), p.0, p.1),
    decreases ps.len(),
{
    if ps.len() == 0 {
        assert(ps.push(p).drop_first() =~= Seq::<(Seq<char>, i64)>::empty());
        assert(ps.push(p)[0] == p);
        assert(fold_into(insert_entry(es, p.0, p.1), Seq::<(Seq<char>, i64)>::empty())
            == insert_entry(es, p.0, p.1));
        assert((p.0, p.1) == p);
    } else {
        lemma_fold_into_push(insert_entry(es, ps[0].0, ps[0].1), ps.drop_first(), p);
        assert(ps.push(p).drop_first() =~= ps.drop_first().push(p));
        assert(ps.push(p)[0] == ps[0]);
    }
}

/// Every accepted connection initiation is answered `AGREED`: the
/// reply carries an advertised percentage within the valid range and
/// exactly the shard's recorded per-table max ids at that instant.
pub proof fn lemma_init_reply_agreed(s: Shard)
    requires
        s.inv(),
    ensures
        spec_agreed_view(s).message_type == MessageType::Agreed,
        spec_agreed_view(s).payload matches Some(p) && 0 <= p <= 10000,
        spec_agreed_view(s).max_ids == Some(tables_entries(s.tables_max_id)),
{
}

/// The `AGREED` reply reads back whole: for a shard whose non-empty
/// snapshot carries wire-safe table names, decoding the reply line
/// yields the very `AGREED` view, percentage and snapshot included.
/// An empty snapshot prints a blank mapping field, which reads back
/// as absent; the router records it as the empty snapshot.
pub proof fn lemma_agreed_reply_reads_back(s: Shard)
    requires
        s.inv(),
        safe_keys(tables_entries(s.tables_max_id)),
        unique_keys(tables_entries(s.tables_max_id)),
        tables_entries(s.tables_max_id).len() >= 1,
    ensures
        spec_parse_message(spec_message_chars(spec_agreed_view(s))) == Some(spec_agreed_view(s)),
{
    lemma_message_round_trip(spec_agreed_view(s));
}

} // verus!
