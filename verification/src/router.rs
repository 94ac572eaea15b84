//! The router's decision core: which shards a query goes to, how a
//! shard's control replies update the directory, and how per-shard
//! result sets merge into one response. The network and SQL-backend
//! sessions live at the edge; they hand this module plain values.

use vstd::prelude::*;
use crate::message::{Message, MessageType, MessageView, spec_read_message};
use crate::queries::{
    query_is_insert, query_is_select, query_affects_memory_state, get_table_name_from_query,
    get_id_if_exists, format_query_with_new_id, spec_query_is, spec_affects_memory,
    spec_table_name, spec_id_if_exists, spec_id_index, spec_format_query,
};
use crate::rows::{
    RowData, RowView, rows_view, strs_view, format_rows_with_offset, rows_convert_to_string,
    spec_format_rows, spec_rows_text, groups_view, groups_off_ok,
};
use crate::shard_manager::{ShardManager, peek_index, snap_insert, spec_max_id_for, remove_id};
use crate::tables_id_info::{TablesIdInfo, tables_new, tables_clone};

verus! {

/// The snapshot a control reply carries: its mapping's entries, or
/// the empty snapshot when the mapping field is absent.
pub open spec fn reply_entries(m: MessageView) -> Seq<(Seq<char>, i64)> {
    match m.max_ids {
        Some(es) => es,
        None => Seq::<(Seq<char>, i64)>::empty(),
    }
}

/// The router: the shards it fronts, in registration order, and the
/// selection structure over them. The SQL sessions and control
/// streams keyed by these shard ids live with the caller.
pub struct Router {
    pub ip: String,
    pub port: String,
    pub shards: Vec<String>,
    pub shard_manager: ShardManager,
}

impl Router {
    /// The shard ids in registration order.
    pub open spec fn shard_order(&self) -> Seq<Seq<char>> {
        strs_view(self.shards@)
    }

    /// The selection entries.
    pub open spec fn heap(&self) -> Seq<(u32, Seq<char>)> {
        self.shard_manager.heap()
    }

    /// The recorded per-shard snapshots.
    pub open spec fn snaps(&self) -> Seq<(Seq<char>, Seq<(Seq<char>, i64)>)> {
        self.shard_manager.snaps()
    }

    /// A router that fronts no shards yet.
    pub fn new(ip: &str, port: &str) -> (r: Router)
        ensures
            r.ip@ == ip@,
            r.port@ == port@,
            r.shard_order() == Seq::<Seq<char>>::empty(),
            r.heap() == Seq::<(u32, Seq<char>)>::empty(),
            r.snaps() == Seq::<(Seq<char>, Seq<(Seq<char>, i64)>)>::empty(),
    {
        let r = Router {
            ip: String::from_str(ip),
            port: String::from_str(port),
            shards: Vec::new(),
            shard_manager: ShardManager::new(),
        };
        proof {
            assert(r.shard_order() =~= Seq::<Seq<char>>::empty());
        }
        r
    }

    /// Records a shard whose backend session the caller opened; the
    /// shard id joins the registration order.
    pub fn save_shard_client(&mut self, shard_id: String)
        ensures
            final(self).shard_order() == old(self).shard_order().push(shard_id@),
            final(self).heap() == old(self).heap(),
            final(self).snaps() == old(self).snaps(),
            final(self).ip == old(self).ip,
            final(self).port == old(self).port,
    {
        let ghost pre = self.shards@;
        self.shards.push(shard_id);
        proof {
            assert(strs_view(self.shards@) =~= strs_view(pre).push(self.shards@.last()@));
        }
    }

    /// Registers a shard in the selection structure with the
    /// percentage and snapshot its `AGREED` reply carried.
    pub fn save_shard_in_manager(&mut self, memory_size: u32, shard_id: String, max_ids: TablesIdInfo)
        ensures
            final(self).heap() == old(self).heap().push((memory_size, shard_id@)),
            final(self).snaps() == snap_insert(
                old(self).snaps(),
                shard_id@,
                crate::tables_id_info::tables_entries(max_ids),
            ),
            final(self).shard_order() == old(self).shard_order(),
            final(self).ip == old(self).ip,
            final(self).port == old(self).port,
    {
        let id2 = shard_id.clone();
        self.shard_manager.add_shard(memory_size, shard_id);
        self.shard_manager.save_max_ids_for_shard(id2, max_ids);
    }

    /// Re-keys a shard in the selection structure with the percentage
    /// and snapshot its `MEMORY_UPDATE` reply carried.
    pub fn update_shard_in_manager(&mut self, memory_size: u32, shard_id: String, max_ids: TablesIdInfo)
        ensures
            final(self).heap() == remove_id(old(self).heap(), shard_id@).push(
                (memory_size, shard_id@),
            ),
            final(self).snaps() == snap_insert(
                old(self).snaps(),
                shard_id@,
                crate::tables_id_info::tables_entries(max_ids),
            ),
            final(self).shard_order() == old(self).shard_order(),
            final(self).ip == old(self).ip,
            final(self).port == old(self).port,
    {
        let id2 = shard_id.clone();
        self.shard_manager.update_shard_memory(memory_size, shard_id);
        self.shard_manager.save_max_ids_for_shard(id2, max_ids);
    }

    /// Applies a shard's control reply to the directory: an `AGREED`
    /// reply carrying a percentage registers the shard, a
    /// `MEMORY_UPDATE` carrying one re-keys it, each with the reply's
    /// snapshot. A reply without a mapping field records the empty
    /// snapshot: a shard with no tables sends a blank mapping, which
    /// reads back as absent. Anything else is dropped.
    pub fn handle_response(&mut self, response_message: Message, node_port: &str) -> (r: bool)
        ensures
            r == ((response_message@.message_type == MessageType::Agreed
                && response_message@.payload is Some) || (response_message@.message_type
                == MessageType::MemoryUpdate && response_message@.payload is Some)),
            final(self).shard_order() == old(self).shard_order(),
            final(self).ip == old(self).ip,
            final(self).port == old(self).port,
            !r ==> final(self).heap() == old(self).heap() && final(self).snaps() == old(
                self,
            ).snaps(),
            r && response_message@.message_type == MessageType::Agreed ==> final(self).heap()
                == old(self).heap().push((response_message@.payload->0, node_port@))
                && final(self).snaps() == snap_insert(
                old(self).snaps(),
                node_port@,
                reply_entries(response_message@),
            ),
            r && response_message@.message_type == MessageType::MemoryUpdate ==> final(self).heap()
                == remove_id(old(self).heap(), node_port@).push(
                (response_message@.payload->0, node_port@),
            ) && final(self).snaps() == snap_insert(
                old(self).snaps(),
                node_port@,
                reply_entries(response_message@),
            ),
    {
        match response_message.get_message_type() {
            MessageType::Agreed => {
                match (&response_message.payload, &response_message.max_ids) {
                    (Some(memory_size), Some(max_ids_info)) => {
                        self.save_shard_in_manager(
                            *memory_size,
                            String::from_str(node_port),
                            tables_clone(max_ids_info),
                        );
                        true
                    },
                    (Some(memory_size), None) => {
                        self.save_shard_in_manager(
                            *memory_size,
                            String::from_str(node_port),
                            tables_new(),
                        );
                        true
                    },
                    _ => false,
                }
            },
            MessageType::MemoryUpdate => {
                match (&response_message.payload, &response_message.max_ids) {
                    (Some(memory_size), Some(max_ids_info)) => {
                        self.update_shard_in_manager(
                            *memory_size,
                            String::from_str(node_port),
                            tables_clone(max_ids_info),
                        );
                        true
                    },
                    (Some(memory_size), None) => {
                        self.update_shard_in_manager(
                            *memory_size,
                            String::from_str(node_port),
                            tables_new(),
                        );
                        true
                    },
                    _ => false,
                }
            },
            _ => false,
        }
    }

    fn clone_shards(&self) -> (r: Vec<String>)
        ensures
            strs_view(r@) == self.shard_order(),
    {
        let mut out: Vec<String> = Vec::new();
        let mut i: usize = 0;
        let n: usize = self.shards.len();
        while i < n
            invariant
                i <= n,
                n == self.shards@.len(),
                strs_view(out@) == self.shard_order().subrange(0, i as int),
            decreases n - i,
        {
            let ghost pre = out@;
            out.push(self.shards[i].clone());
            proof {
                assert(strs_view(out@) =~= strs_view(pre).push(self.shards@[i as int]@));
                assert(self.shard_order().subrange(0, i + 1 as int) =~= self.shard_order()
                    .subrange(0, i as int).push(self.shard_order()[i as int]));
            }
            i = i + 1;
        }
        proof {
            assert(self.shard_order().subrange(0, n as int) =~= self.shard_order());
        }
        out
    }
}

/// The walk that homes a targeted id: shards are visited in
/// registration order; a shard without a recorded max id for the
/// table is skipped; an id beyond a shard's max id is reduced by it
/// and the walk continues; otherwise the walk stops at that shard
/// with the query rewritten to the reduced id. A walk that exhausts
/// the shards, or an id reduction that leaves the id type, falls back
/// to a fan-out with the original query.
pub open spec fn spec_walk(
    shards: Seq<Seq<char>>,
    snaps: Seq<(Seq<char>, Seq<(Seq<char>, i64)>)>,
    table: Seq<char>,
    q: Seq<char>,
    id: int,
    k: int,
) -> (Seq<Seq<char>>, bool, Seq<char>)
    decreases shards.len() - k when 0 <= k
{
    if k >= shards.len() {
        (shards, spec_affects_memory(q), q)
    } else {
        match spec_max_id_for(snaps, shards[k], table) {
            None => spec_walk(shards, snaps, table, q, id, k + 1),
            Some(m) => if id > m {
                if id - m > i64::MAX {
                    (shards, spec_affects_memory(q), q)
                } else {
                    spec_walk(shards, snaps, table, q, id - m, k + 1)
                }
            } else {
                (seq![shards[k]], spec_affects_memory(q), spec_format_query(q, id))
            },
        }
    }
}

/// Target selection: a query carrying a readable `WHERE id = N`
/// clause and a table name walks the shards; an `INSERT` goes to the
/// shard with the most free storage; everything else fans out, asking
/// for a memory update exactly when the query can change storage use.
pub open spec fn spec_plan(
    shards: Seq<Seq<char>>,
    heap: Seq<(u32, Seq<char>)>,
    snaps: Seq<(Seq<char>, Seq<(Seq<char>, i64)>)>,
    q: Seq<char>,
) -> (Seq<Seq<char>>, bool, Seq<char>) {
    match spec_id_if_exists(q) {
        Some(id) => match spec_table_name(q) {
            None => (shards, spec_affects_memory(q), q),
            Some(t) => spec_walk(shards, snaps, t, q, id as int, 0),
        },
        None => if spec_query_is(q, "INSERT"@) {
            if heap.len() == 0 {
                (Seq::<Seq<char>>::empty(), true, q)
            } else {
                (seq![heap[peek_index(heap)].1], true, q)
            }
        } else {
            (shards, spec_affects_memory(q), q)
        },
    }
}

impl Router {
    fn walk_exec(&self, table: &str, query: &str, id: i64, k: usize) -> (r: (Vec<String>, bool, String))
        requires
            k <= self.shards@.len(),
            spec_id_index(query@) is Some,
        ensures
            (strs_view(r.0@), r.1, r.2@) == spec_walk(
                self.shard_order(),
                self.snaps(),
                table@,
                query@,
                id as int,
                k as int,
            ),
        decreases self.shards@.len() - k,
    {
        if k == self.shards.len() {
            (self.clone_shards(), query_affects_memory_state(query), String::from_str(query))
        } else {
            match self.shard_manager.get_max_ids_for_shard_table(self.shards[k].as_str(), table) {
                None => self.walk_exec(table, query, id, k + 1),
                Some(m) => {
                    if id > m {
                        if m < 0 && id > i64::MAX + m {
                            (
                                self.clone_shards(),
                                query_affects_memory_state(query),
                                String::from_str(query),
                            )
                        } else {
                            self.walk_exec(table, query, id - m, k + 1)
                        }
                    } else {
                        let mut one: Vec<String> = Vec::new();
                        one.push(self.shards[k].clone());
                        proof {
                            assert(strs_view(one@) =~= seq![self.shard_order()[k as int]]);
                        }
                        (
                            one,
                            query_affects_memory_state(query),
                            format_query_with_new_id(query, id),
                        )
                    }
                },
            }
        }
    }

    /// The shards a query goes to, whether they must refresh their
    /// memory afterwards, and the query to send, per [`spec_plan`].
    /// An `INSERT` with no shard in the selection structure yields no
    /// targets.
    pub fn get_data_needed_from(&self, query: &str) -> (r: (Vec<String>, bool, String))
        ensures
            (strs_view(r.0@), r.1, r.2@) == spec_plan(
                self.shard_order(),
                self.heap(),
                self.snaps(),
                query@,
            ),
    {
        match get_id_if_exists(query) {
            Some(id) => {
                match get_table_name_from_query(query) {
                    None => (
                        self.clone_shards(),
                        query_affects_memory_state(query),
                        String::from_str(query),
                    ),
                    Some(table) => self.walk_exec(table.as_str(), query, id, 0),
                }
            },
            None => {
                if query_is_insert(query) {
                    match self.shard_manager.peek() {
                        Some(shard) => {
                            let mut one: Vec<String> = Vec::new();
                            one.push(shard);
                            proof {
                                assert(strs_view(one@) =~= seq![
                                    self.heap()[peek_index(self.heap())].1,
                                ]);
                            }
                            (one, true, String::from_str(query))
                        },
                        None => {
                            proof {
                                assert(strs_view(Seq::<String>::empty())
                                    =~= Seq::<Seq<char>>::empty());
                            }
                            (Vec::new(), true, String::from_str(query))
                        },
                    }
                } else {
                    (
                        self.clone_shards(),
                        query_affects_memory_state(query),
                        String::from_str(query),
                    )
                }
            },
        }
    }
}

/// Routing is deterministic: two routers with the same registration
/// order, selection entries and snapshots select the same targets,
/// the same refresh flag and the same rewritten query for the same
/// query text.
pub proof fn lemma_routing_deterministic(a: Router, b: Router, q: Seq<char>)
    requires
        a.shard_order() == b.shard_order(),
        a.heap() == b.heap(),
        a.snaps() == b.snaps(),
    ensures
        spec_plan(a.shard_order(), a.heap(), a.snaps(), q) == spec_plan(
            b.shard_order(),
            b.heap(),
            b.snaps(),
            q,
        ),
{
}

/// The per-shard responses as values: shard id and its rows.
pub open spec fn resp_view(v: Seq<(String, Vec<RowData>)>) -> Seq<(Seq<char>, Seq<RowView>)> {
    v.map_values(|e: (String, Vec<RowData>)| (e.0@, rows_view(e.1@)))
}

/// The cumulative id offset in front of group `k`: the sum of the
/// recorded max ids, for the queried table, of the groups before it.
pub open spec fn prefix_off(
    snaps: Seq<(Seq<char>, Seq<(Seq<char>, i64)>)>,
    groups: Seq<(Seq<char>, Seq<RowView>)>,
    table: Seq<char>,
    k: int,
) -> int
    decreases k when 0 <= k
{
    if k <= 0 {
        0
    } else {
        prefix_off(snaps, groups, table, k - 1) + spec_max_id_for(
            snaps,
            groups[k - 1].0,
            table,
        )->0
    }
}

/// Every responding shard has a recorded max id for the table.
pub open spec fn offsets_present(
    snaps: Seq<(Seq<char>, Seq<(Seq<char>, i64)>)>,
    groups: Seq<(Seq<char>, Seq<RowView>)>,
    table: Seq<char>,
) -> bool {
    forall|k: int|
        0 <= k < groups.len() ==> spec_max_id_for(snaps, #[trigger] groups[k].0, table) is Some
}

/// Every cumulative offset stays within the id type.
pub open spec fn offsets_in_range(
    snaps: Seq<(Seq<char>, Seq<(Seq<char>, i64)>)>,
    groups: Seq<(Seq<char>, Seq<RowView>)>,
    table: Seq<char>,
) -> bool {
    forall|k: int|
        0 <= k <= groups.len() ==> i64::MIN <= #[trigger] prefix_off(snaps, groups, table, k)
            <= i64::MAX
}

pub open spec fn spec_resp_ok(
    snaps: Seq<(Seq<char>, Seq<(Seq<char>, i64)>)>,
    groups: Seq<(Seq<char>, Seq<RowView>)>,
    table: Seq<char>,
) -> bool {
    offsets_present(snaps, groups, table) && offsets_in_range(snaps, groups, table)
}

/// The groups paired with their cumulative offsets.
pub open spec fn spec_resp_groups(
    snaps: Seq<(Seq<char>, Seq<(Seq<char>, i64)>)>,
    groups: Seq<(Seq<char>, Seq<RowView>)>,
    table: Seq<char>,
) -> Seq<(Seq<RowView>, int)> {
    Seq::new(groups.len(), |k: int| (groups[k].1, prefix_off(snaps, groups, table, k)))
}

impl Router {
    /// Merges per-shard result sets into one response: the queried
    /// table's name is recovered from the query, each shard's rows
    /// get the cumulative offset of its predecessors' max ids, and
    /// the rows stream out NUL-separated after one header. A query
    /// without a table name, a shard without a recorded max id, or a
    /// cumulative offset outside the id type yields the empty
    /// response.
    pub fn format_response(&self, shards_responses: Vec<(String, Vec<RowData>)>, query: &str) -> (r:
        String)
        requires
            spec_table_name(query@) matches Some(t) ==> (spec_resp_ok(
                self.snaps(),
                resp_view(shards_responses@),
                t,
            ) ==> resp_view(shards_responses@).len() > 0 && resp_view(shards_responses@)[0].1.len()
                > 0 && groups_off_ok(
                spec_resp_groups(self.snaps(), resp_view(shards_responses@), t),
            )),
        ensures
            spec_table_name(query@) is None ==> r@ == Seq::<char>::empty(),
            spec_table_name(query@) matches Some(t) ==> (!spec_resp_ok(
                self.snaps(),
                resp_view(shards_responses@),
                t,
            ) ==> r@ == Seq::<char>::empty()),
            spec_table_name(query@) matches Some(t) ==> (spec_resp_ok(
                self.snaps(),
                resp_view(shards_responses@),
                t,
            ) ==> r@ == spec_format_rows(
                spec_resp_groups(self.snaps(), resp_view(shards_responses@), t),
            )),
    {
        let ghost gv = resp_view(shards_responses@);
        let table = match get_table_name_from_query(query) {
            None => {
                return String::new();
            },
            Some(t) => t,
        };
        let ghost tv = spec_table_name(query@)->0;
        let mut resp = shards_responses;
        let mut groups: Vec<(Vec<RowData>, i64)> = Vec::new();
        let mut acc: i64 = 0;
        let ghost mut k: int = 0;
        proof {
            assert(resp_view(resp@) =~= gv.subrange(0, gv.len() as int));
        }
        while resp.len() > 0
            invariant
                table@ == tv,
                spec_table_name(query@) == Some(tv),
                gv == resp_view(shards_responses@),
                0 <= k <= gv.len(),
                k + resp@.len() == gv.len(),
                resp_view(resp@) == gv.subrange(k, gv.len() as int),
                groups_view(groups@) == spec_resp_groups(self.snaps(), gv, tv).subrange(
                    0,
                    k,
                ),
                acc == prefix_off(self.snaps(), gv, tv, k),
                forall|j: int|
                    0 <= j < k ==> spec_max_id_for(self.snaps(), #[trigger] gv[j].0, tv) is Some,
                forall|j: int|
                    0 <= j <= k ==> i64::MIN <= #[trigger] prefix_off(self.snaps(), gv, tv, j)
                        <= i64::MAX,
            decreases resp@.len(),
        {
            let ghost prerest = resp@;
            proof {
                assert(resp_view(prerest)[0] == gv.subrange(k, gv.len() as int)[0]);
            }
            let e = resp.remove(0);
            let sid = e.0;
            let rows = e.1;
            proof {
                assert(sid@ == gv[k].0 && rows_view(rows@) == gv[k].1) by {
                    assert(resp_view(prerest)[0] == (prerest[0].0@, rows_view(prerest[0].1@)));
                }
                assert forall|j: int| 0 <= j < resp@.len() implies #[trigger] resp_view(resp@)[j]
                    == gv.subrange(k + 1, gv.len() as int)[j] by {
                    assert(resp@[j] == prerest[j + 1]);
                    assert(resp_view(prerest)[j + 1] == gv.subrange(k, gv.len() as int)[j
                        + 1]);
                    assert(resp_view(prerest)[j + 1] == (prerest[j + 1].0@, rows_view(
                        prerest[j + 1].1@,
                    )));
                    assert(resp_view(resp@)[j] == (resp@[j].0@, rows_view(resp@[j].1@)));
                }
                assert(resp_view(resp@) =~= gv.subrange(k + 1, gv.len() as int));
            }
            let m = match self.shard_manager.get_max_ids_for_shard_table(
                sid.as_str(),
                table.as_str(),
            ) {
                None => {
                    proof {
                        assert(!offsets_present(self.snaps(), gv, tv));
                        assert(!spec_resp_ok(self.snaps(), resp_view(shards_responses@), tv));
                    }
                    return String::new();
                },
                Some(m) => m,
            };
            let ghost pregroups = groups@;
            groups.push((rows, acc));
            proof {
                assert(groups_view(groups@) =~= groups_view(pregroups).push(
                    (rows_view(groups@.last().0@), groups@.last().1 as int),
                ));
                assert(spec_resp_groups(self.snaps(), gv, tv).subrange(0, k + 1)
                    =~= spec_resp_groups(self.snaps(), gv, tv).subrange(0, k).push(
                    spec_resp_groups(self.snaps(), gv, tv)[k],
                ));
            }
            let overflow: bool = if m >= 0 {
                acc > i64::MAX - m
            } else {
                acc < i64::MIN - m
            };
            if overflow {
                proof {
                    assert(prefix_off(self.snaps(), gv, tv, k + 1) == acc + m);
                    assert(!offsets_in_range(self.snaps(), gv, tv));
                    assert(!spec_resp_ok(self.snaps(), resp_view(shards_responses@), tv));
                }
                return String::new();
            }
            proof {
                if m >= 0 {
                    assert(acc <= i64::MAX - m);
                    assert(i64::MIN <= acc + m <= i64::MAX);
                } else {
                    assert(acc >= i64::MIN - m);
                    assert(i64::MIN <= acc + m <= i64::MAX);
                }
            }
            acc = acc + m;
            proof {
                k = k + 1;
                assert(prefix_off(self.snaps(), gv, tv, k) == acc);
            }
        }
        proof {
            assert(resp_view(resp@).len() == 0);
            assert(spec_resp_ok(self.snaps(), gv, tv));
            assert(groups_view(groups@) =~= spec_resp_groups(self.snaps(), gv, tv));
            assert(groups_view(groups@)[0].0.len() > 0);
        }
        format_rows_with_offset(groups)
    }
}

/// The rows of every group, in order.
pub open spec fn concat_rows(groups: Seq<(Seq<char>, Seq<RowView>)>, k: int) -> Seq<RowView>
    decreases groups.len() - k when 0 <= k
{
    if k >= groups.len() {
        Seq::<RowView>::empty()
    } else {
        groups[k].1 + concat_rows(groups, k + 1)
    }
}

fn concat_groups(groups: Vec<(String, Vec<RowData>)>) -> (r: Vec<RowData>)
    ensures
        rows_view(r@) == concat_rows(resp_view(groups@), 0),
    decreases groups@.len(),
{
    let ghost gv = resp_view(groups@);
    let mut groups = groups;
    if groups.len() == 0 {
        proof {
            assert(rows_view(Seq::<RowData>::empty()) =~= Seq::<RowView>::empty());
        }
        Vec::new()
    } else {
        proof {
            assert(resp_view(groups@)[0] == gv[0]);
        }
        let e = groups.remove(0);
        let mut rows = e.1;
        proof {
            assert(resp_view(groups@) =~= gv.subrange(1, gv.len() as int));
        }
        let ghost rows0 = rows_view(rows@);
        let mut rest = concat_groups(groups);
        while rest.len() > 0
            invariant
                rows_view(rows@) + rows_view(rest@) == rows0 + concat_rows(
                    gv.subrange(1, gv.len() as int),
                    0,
                ),
            decreases rest@.len(),
        {
            let ghost prerows = rows@;
            let ghost prerest = rest@;
            let x = rest.remove(0);
            rows.push(x);
            proof {
                assert(rows_view(rows@) =~= rows_view(prerows).push(rows@.last()@));
                assert(rows_view(prerest) =~= seq![rows@.last()@] + rows_view(rest@));
                assert(rows_view(prerows) + rows_view(prerest) =~= rows_view(rows@) + rows_view(
                    rest@,
                ));
            }
        }
        proof {
            assert(rows_view(rest@) =~= Seq::<RowView>::empty());
            assert(rows_view(rows@) + Seq::<RowView>::empty() =~= rows_view(rows@));
            assert(concat_rows(gv, 0) == gv[0].1 + concat_rows(gv.subrange(1, gv.len() as int), 0)) by {
                assert(concat_rows(gv, 1) == concat_rows(gv.subrange(1, gv.len() as int), 0)) by {
                    lemma_concat_rows_shift(gv, 1);
                }
            }
        }
        rows
    }
}

/// Concatenating from position `k` is concatenating the suffix.
proof fn lemma_concat_rows_shift(groups: Seq<(Seq<char>, Seq<RowView>)>, k: int)
    requires
        0 <= k <= groups.len(),
    ensures
        concat_rows(groups, k) == concat_rows(groups.subrange(k, groups.len() as int), 0),
    decreases groups.len() - k,
{
    let t = groups.subrange(k, groups.len() as int);
    if k < groups.len() {
        lemma_concat_rows_shift(groups, k + 1);
        assert(groups.subrange(k + 1, groups.len() as int) =~= t.subrange(1, t.len() as int));
        assert(concat_rows(t, 0) == t[0].1 + concat_rows(t, 1));
        assert(concat_rows(t, 1) == concat_rows(t.subrange(1, t.len() as int), 0)) by {
            lemma_concat_rows_shift(t, 1);
        }
    } else {
        assert(t.len() == 0);
    }
}

impl Router {
    /// One response for the client: a `SELECT` answered by at least
    /// one shard merges with id offsets; anything else is the plain
    /// text of all returned rows in shard order.
    pub fn merge_responses(&self, shards_responses: Vec<(String, Vec<RowData>)>, query: &str) -> (r:
        String)
        requires
            spec_query_is(query@, "SELECT"@) && resp_view(shards_responses@).len() > 0 ==> (
            spec_table_name(query@) matches Some(t) ==> (spec_resp_ok(
                self.snaps(),
                resp_view(shards_responses@),
                t,
            ) ==> resp_view(shards_responses@)[0].1.len() > 0 && groups_off_ok(
                spec_resp_groups(self.snaps(), resp_view(shards_responses@), t),
            ))),
        ensures
            spec_query_is(query@, "SELECT"@) && resp_view(shards_responses@).len() > 0 ==> {
                &&& spec_table_name(query@) is None ==> r@ == Seq::<char>::empty()
                &&& spec_table_name(query@) matches Some(t) ==> (!spec_resp_ok(
                    self.snaps(),
                    resp_view(shards_responses@),
                    t,
                ) ==> r@ == Seq::<char>::empty())
                &&& spec_table_name(query@) matches Some(t) ==> (spec_resp_ok(
                    self.snaps(),
                    resp_view(shards_responses@),
                    t,
                ) ==> r@ == spec_format_rows(
                    spec_resp_groups(self.snaps(), resp_view(shards_responses@), t),
                ))
            },
            !(spec_query_is(query@, "SELECT"@) && resp_view(shards_responses@).len() > 0) ==> r@
                == spec_rows_text(concat_rows(resp_view(shards_responses@), 0)),
    {
        let is_select = query_is_select(query);
        if is_select && shards_responses.len() > 0 {
            self.format_response(shards_responses, query)
        } else {
            let all = concat_groups(shards_responses);
            rows_convert_to_string(&all)
        }
    }

    /// The SQL a client's message carries: the query text of a
    /// `QUERY` message naming its sender; any other message, and a
    /// `QUERY` without its fields, is dropped.
    pub fn parse_client_request(message: &str) -> (r: Option<String>)
        ensures
            ({
                let p = spec_read_message(message);
                match r {
                    Some(q) => p matches Some(m) && m.message_type == MessageType::Query
                        && m.query == Some(q@) && m.node_info is Some,
                    None => p is None || !(p->0.message_type == MessageType::Query) || p->0.query
                        is None || p->0.node_info is None,
                }
            }),
    {
        let m = match Message::from_string(message) {
            Ok(m) => m,
            Err(_) => {
                return None;
            },
        };
        match m.get_message_type() {
            MessageType::Query => {
                let d = m.get_data();
                match (d.query, d.node_info) {
                    (Some(q), Some(_)) => Some(q),
                    _ => None,
                }
            },
            _ => None,
        }
    }
}

} // verus!
