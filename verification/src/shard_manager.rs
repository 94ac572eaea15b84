//! The router's shard-selection structure: shards keyed by advertised
//! free-storage percentage, with the per-table max-id snapshot each
//! shard last reported. `peek` answers which shard has the most free
//! storage; ties go to the shard registered (or last re-registered)
//! first.

use vstd::prelude::*;
use crate::chars::{str_to_chars, chars_eq};
use crate::tables_id_info::{
    TablesIdInfo, tables_entries, tables_get, has_key, key_index,
};

verus! {

/// Selection entries: advertised percentage (hundredths) and shard
/// id, in insertion order.
pub struct ShardManager {
    pub shards: Vec<(u32, String)>,
    pub max_ids: Vec<(String, TablesIdInfo)>,
}

/// The selection entries as values.
pub open spec fn heap_view(v: Seq<(u32, String)>) -> Seq<(u32, Seq<char>)> {
    v.map_values(|e: (u32, String)| (e.0, e.1@))
}

/// The snapshots as values: shard id and recorded entries.
pub open spec fn snap_view(v: Seq<(String, TablesIdInfo)>) -> Seq<(Seq<char>, Seq<(Seq<char>, i64)>)> {
    v.map_values(|e: (String, TablesIdInfo)| (e.0@, tables_entries(e.1)))
}

/// Index of the entry `peek` answers with: the first entry holding
/// the greatest percentage.
pub open spec fn peek_index(es: Seq<(u32, Seq<char>)>) -> int
    decreases es.len(),
{
    if es.len() <= 1 {
        0
    } else {
        let r = peek_index(es.drop_last());
        if es.last().0 > es[r].0 {
            es.len() - 1
        } else {
            r
        }
    }
}

/// The entry `peek` answers with holds the greatest percentage, and
/// every earlier entry holds strictly less: ties go to the entry
/// inserted first.
pub proof fn lemma_peek_index(es: Seq<(u32, Seq<char>)>)
    requires
        es.len() > 0,
    ensures
        0 <= peek_index(es) < es.len(),
        forall|j: int| 0 <= j < es.len() ==> #[trigger] es[j].0 <= es[peek_index(es)].0,
        forall|j: int| 0 <= j < peek_index(es) ==> #[trigger] es[j].0 < es[peek_index(es)].0,
    decreases es.len(),
{
    if es.len() > 1 {
        lemma_peek_index(es.drop_last());
        assert(forall|j: int|
            0 <= j < es.len() - 1 ==> #[trigger] es[j] == es.drop_last()[j]);
    }
}

/// The entries with the given shard id removed.
pub open spec fn remove_id(es: Seq<(u32, Seq<char>)>, id: Seq<char>) -> Seq<(u32, Seq<char>)>
    decreases es.len(),
{
    if es.len() == 0 {
        Seq::<(u32, Seq<char>)>::empty()
    } else {
        let p = remove_id(es.drop_last(), id);
        if es.last().1 == id {
            p
        } else {
            p.push(es.last())
        }
    }
}

/// Index of the first snapshot recorded for the shard; the length
/// when there is none.
pub open spec fn snap_index_from(
    ss: Seq<(Seq<char>, Seq<(Seq<char>, i64)>)>,
    id: Seq<char>,
    from: int,
) -> int
    decreases ss.len() - from when 0 <= from <= ss.len()
{
    if from >= ss.len() {
        ss.len() as int
    } else if ss[from].0 == id {
        from
    } else {
        snap_index_from(ss, id, from + 1)
    }
}

pub open spec fn snap_index(ss: Seq<(Seq<char>, Seq<(Seq<char>, i64)>)>, id: Seq<char>) -> int {
    snap_index_from(ss, id, 0)
}

pub open spec fn snap_has(ss: Seq<(Seq<char>, Seq<(Seq<char>, i64)>)>, id: Seq<char>) -> bool {
    snap_index(ss, id) < ss.len()
}

pub proof fn lemma_snap_index_from(
    ss: Seq<(Seq<char>, Seq<(Seq<char>, i64)>)>,
    id: Seq<char>,
    from: int,
)
    requires
        0 <= from <= ss.len(),
    ensures
        from <= snap_index_from(ss, id, from) <= ss.len(),
        snap_index_from(ss, id, from) < ss.len() ==> ss[snap_index_from(ss, id, from)].0 == id,
        forall|j: int| from <= j < snap_index_from(ss, id, from) ==> ss[j].0 != id,
    decreases ss.len() - from,
{
    if from < ss.len() && ss[from].0 != id {
        lemma_snap_index_from(ss, id, from + 1);
    }
}

/// What storing a snapshot does: an existing shard's snapshot is
/// replaced in place; a new shard's is appended.
pub open spec fn snap_insert(
    ss: Seq<(Seq<char>, Seq<(Seq<char>, i64)>)>,
    id: Seq<char>,
    es: Seq<(Seq<char>, i64)>,
) -> Seq<(Seq<char>, Seq<(Seq<char>, i64)>)> {
    if snap_has(ss, id) {
        ss.update(snap_index(ss, id), (id, es))
    } else {
        ss.push((id, es))
    }
}

/// The recorded max id for a table on a shard: nothing when the
/// shard has no snapshot or the snapshot has no such table.
pub open spec fn spec_max_id_for(
    ss: Seq<(Seq<char>, Seq<(Seq<char>, i64)>)>,
    id: Seq<char>,
    table: Seq<char>,
) -> Option<i64> {
    if !snap_has(ss, id) {
        None
    } else {
        let es = ss[snap_index(ss, id)].1;
        if has_key(es, table) {
            Some(es[key_index(es, table)].1)
        } else {
            None
        }
    }
}

impl ShardManager {
    /// The selection entries of this manager.
    pub open spec fn heap(&self) -> Seq<(u32, Seq<char>)> {
        heap_view(self.shards@)
    }

    /// The snapshots of this manager.
    pub open spec fn snaps(&self) -> Seq<(Seq<char>, Seq<(Seq<char>, i64)>)> {
        snap_view(self.max_ids@)
    }

    pub fn new() -> (r: ShardManager)
        ensures
            r.heap() == Seq::<(u32, Seq<char>)>::empty(),
            r.snaps() == Seq::<(Seq<char>, Seq<(Seq<char>, i64)>)>::empty(),
    {
        let r = ShardManager { shards: Vec::new(), max_ids: Vec::new() };
        proof {
            assert(r.heap() =~= Seq::<(u32, Seq<char>)>::empty());
            assert(r.snaps() =~= Seq::<(Seq<char>, Seq<(Seq<char>, i64)>)>::empty());
        }
        r
    }

    /// Registers a shard with its advertised percentage (hundredths).
    pub fn add_shard(&mut self, value: u32, shard_id: String)
        ensures
            final(self).heap() == old(self).heap().push((value, shard_id@)),
            final(self).snaps() == old(self).snaps(),
    {
        let ghost pre = self.shards@;
        self.shards.push((value, shard_id));
        proof {
            assert(heap_view(self.shards@) =~= heap_view(pre).push(
                (value, self.shards@.last().1@),
            ));
        }
    }

    /// The shard with the most advertised free storage; nothing when
    /// no shard is registered. Among equal percentages, the first
    /// inserted wins.
    pub fn peek(&self) -> (r: Option<String>)
        ensures
            r is Some <==> self.heap().len() > 0,
            r matches Some(id) ==> {
                &&& id@ == self.heap()[peek_index(self.heap())].1
                &&& forall|j: int|
                    0 <= j < self.heap().len() ==> #[trigger] self.heap()[j].0
                        <= self.heap()[peek_index(self.heap())].0
            },
    {
        if self.shards.len() == 0 {
            return None;
        }
        let mut best: usize = 0;
        let mut i: usize = 1;
        let n: usize = self.shards.len();
        while i < n
            invariant
                1 <= i <= n,
                best < i,
                n == self.shards@.len(),
                best == peek_index(self.heap().subrange(0, i as int)),
            decreases n - i,
        {
            proof {
                let cur = self.heap().subrange(0, i + 1 as int);
                assert(cur.drop_last() =~= self.heap().subrange(0, i as int));
            }
            if self.shards[i].0 > self.shards[best].0 {
                best = i;
            }
            i = i + 1;
        }
        proof {
            assert(self.heap().subrange(0, self.heap().len() as int) =~= self.heap());
            lemma_peek_index(self.heap());
        }
        Some(self.shards[best].1.clone())
    }

    /// Removes and returns the shard `peek` answers with.
    pub fn pop(&mut self) -> (r: Option<String>)
        ensures
            r is Some <==> old(self).heap().len() > 0,
            old(self).heap().len() == 0 ==> final(self).heap() == old(self).heap(),
            r matches Some(id) ==> {
                &&& id@ == old(self).heap()[peek_index(old(self).heap())].1
                &&& final(self).heap() == old(self).heap().remove(peek_index(old(self).heap()))
            },
            final(self).snaps() == old(self).snaps(),
    {
        if self.shards.len() == 0 {
            return None;
        }
        let mut best: usize = 0;
        let mut i: usize = 1;
        let n: usize = self.shards.len();
        while i < n
            invariant
                1 <= i <= n,
                best < i,
                n == self.shards@.len(),
                best == peek_index(self.heap().subrange(0, i as int)),
            decreases n - i,
        {
            proof {
                let cur = self.heap().subrange(0, i + 1 as int);
                assert(cur.drop_last() =~= self.heap().subrange(0, i as int));
            }
            if self.shards[i].0 > self.shards[best].0 {
                best = i;
            }
            i = i + 1;
        }
        proof {
            assert(self.heap().subrange(0, self.heap().len() as int) =~= self.heap());
            lemma_peek_index(self.heap());
        }
        let ghost pre = self.heap();
        let e = self.shards.remove(best);
        proof {
            assert(heap_view(self.shards@) =~= pre.remove(peek_index(pre)));
        }
        Some(e.1)
    }

    /// Forgets every selection entry recorded for the shard.
    fn delete(&mut self, shard_id: &str)
        ensures
            final(self).heap() == remove_id(old(self).heap(), shard_id@),
            final(self).snaps() == old(self).snaps(),
    {
        let idv = str_to_chars(shard_id);
        let mut out: Vec<(u32, String)> = Vec::new();
        let mut i: usize = 0;
        let n: usize = self.shards.len();
        while i < n
            invariant
                i <= n,
                n == self.shards@.len(),
                idv@ == shard_id@,
                heap_view(out@) == remove_id(heap_view(self.shards@).subrange(0, i as int), shard_id@),
            decreases n - i,
        {
            proof {
                let cur = heap_view(self.shards@).subrange(0, i + 1 as int);
                assert(cur.drop_last() =~= heap_view(self.shards@).subrange(0, i as int));
                assert(cur.last() == heap_view(self.shards@)[i as int]);
            }
            let ev = str_to_chars(self.shards[i].1.as_str());
            let keep = !chars_eq(&ev, &idv);
            if keep {
                let ghost preout = out@;
                let entry = (self.shards[i].0, self.shards[i].1.clone());
                out.push(entry);
                proof {
                    assert(heap_view(out@) =~= heap_view(preout).push(
                        (heap_view(self.shards@)[i as int].0, heap_view(self.shards@)[i as int].1),
                    ));
                }
            }
            i = i + 1;
        }
        proof {
            assert(heap_view(self.shards@).subrange(0, n as int) =~= heap_view(self.shards@));
        }
        self.shards = out;
    }

    /// Replaces the shard's selection entry with the new percentage;
    /// a shard never seen before is simply registered.
    pub fn update_shard_memory(&mut self, memory: u32, shard_id: String)
        ensures
            final(self).heap() == remove_id(old(self).heap(), shard_id@).push((memory, shard_id@)),
            final(self).snaps() == old(self).snaps(),
    {
        self.delete(shard_id.as_str());
        self.add_shard(memory, shard_id);
    }

    /// Replaces the recorded per-table max-id snapshot for the shard.
    pub fn save_max_ids_for_shard(&mut self, shard_id: String, tables_id_info: TablesIdInfo)
        ensures
            final(self).snaps() == snap_insert(
                old(self).snaps(),
                shard_id@,
                tables_entries(tables_id_info),
            ),
            final(self).heap() == old(self).heap(),
    {
        let idv = str_to_chars(shard_id.as_str());
        let mut i: usize = 0;
        let n: usize = self.max_ids.len();
        while i < n
            invariant
                i <= n,
                n == self.max_ids@.len(),
                idv@ == shard_id@,
                self.shards@ == old(self).shards@,
                self.max_ids@ == old(self).max_ids@,
                forall|j: int| 0 <= j < i ==> snap_view(self.max_ids@)[j].0 != shard_id@,
            decreases n - i,
        {
            let ev = str_to_chars(self.max_ids[i].0.as_str());
            if chars_eq(&ev, &idv) {
                let ghost pre_snaps = self.snaps();
                proof {
                    lemma_snap_index_is(pre_snaps, shard_id@, i as int);
                }
                self.max_ids.set(i, (shard_id, tables_id_info));
                proof {
                    assert(snap_view(self.max_ids@) =~= snap_insert(
                        pre_snaps,
                        pre_snaps[i as int].0,
                        tables_entries(tables_id_info),
                    ));
                }
                return ;
            }
            i = i + 1;
        }
        proof {
            lemma_snap_index_none(self.snaps(), shard_id@, 0);
        }
        let ghost pre_snaps = self.snaps();
        self.max_ids.push((shard_id, tables_id_info));
        proof {
            assert(snap_view(self.max_ids@) =~= snap_insert(
                pre_snaps,
                snap_view(self.max_ids@).last().0,
                tables_entries(tables_id_info),
            ));
        }
    }

    /// The recorded max id for a table on a shard.
    pub fn get_max_ids_for_shard_table(&self, shard_id: &str, table: &str) -> (r: Option<i64>)
        ensures
            r == spec_max_id_for(self.snaps(), shard_id@, table@),
    {
        let idv = str_to_chars(shard_id);
        let mut i: usize = 0;
        let n: usize = self.max_ids.len();
        while i < n
            invariant
                i <= n,
                n == self.max_ids@.len(),
                idv@ == shard_id@,
                forall|j: int| 0 <= j < i ==> snap_view(self.max_ids@)[j].0 != shard_id@,
            decreases n - i,
        {
            let ev = str_to_chars(self.max_ids[i].0.as_str());
            if chars_eq(&ev, &idv) {
                proof {
                    lemma_snap_index_is(self.snaps(), shard_id@, i as int);
                }
                return tables_get(&self.max_ids[i].1, table);
            }
            i = i + 1;
        }
        proof {
            lemma_snap_index_none(self.snaps(), shard_id@, 0);
        }
        None
    }
}

/// When no snapshot at or after `from` belongs to the shard, the
/// search returns the length.
pub proof fn lemma_snap_index_none(
    ss: Seq<(Seq<char>, Seq<(Seq<char>, i64)>)>,
    id: Seq<char>,
    from: int,
)
    requires
        0 <= from <= ss.len(),
        forall|j: int| from <= j < ss.len() ==> ss[j].0 != id,
    ensures
        snap_index_from(ss, id, from) == ss.len(),
    decreases ss.len() - from,
{
    if from < ss.len() {
        lemma_snap_index_none(ss, id, from + 1);
    }
}

/// When the shard's first snapshot stands at `k`, the search returns
/// `k`.
pub proof fn lemma_snap_index_is(
    ss: Seq<(Seq<char>, Seq<(Seq<char>, i64)>)>,
    id: Seq<char>,
    k: int,
)
    requires
        0 <= k < ss.len(),
        ss[k].0 == id,
        forall|j: int| 0 <= j < k ==> ss[j].0 != id,
    ensures
        snap_index(ss, id) == k,
{
    lemma_snap_index_is_from(ss, id, 0, k);
}

proof fn lemma_snap_index_is_from(
    ss: Seq<(Seq<char>, Seq<(Seq<char>, i64)>)>,
    id: Seq<char>,
    from: int,
    k: int,
)
    requires
        0 <= from <= k < ss.len(),
        ss[k].0 == id,
        forall|j: int| from <= j < k ==> ss[j].0 != id,
    ensures
        snap_index_from(ss, id, from) == k,
    decreases k - from,
{
    if from < k {
        lemma_snap_index_is_from(ss, id, from + 1, k);
    }
}

/// After any sequence of registrations and memory updates, `peek`
/// answers with a shard whose recorded percentage is at least that
/// of every other present shard.
pub proof fn lemma_peek_is_max(es: Seq<(u32, Seq<char>)>)
    requires
        es.len() > 0,
    ensures
        forall|j: int| 0 <= j < es.len() ==> #[trigger] es[j].0 <= es[peek_index(es)].0,
{
    lemma_peek_index(es);
}

} // verus!
