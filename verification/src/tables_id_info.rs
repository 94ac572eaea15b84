//! Per-table maximum row ids, as reported by a shard: an ordered
//! mapping from table name to the greatest `id` stored on that shard.
//! The mapping keeps insertion order, which the router relies on when
//! it stitches shard-local id spaces together.
//!
//! The mapping is held in an `indexmap::IndexMap`; the contents are
//! named by [`tables_entries`], and every operation the crate performs
//! on the map goes through a wrapper whose contract speaks over that
//! name. The wire form is `table1:n1,table2:n2,...`.

use vstd::prelude::*;
use crate::chars::{
    index_of_from, lemma_index_of_from, find_char_from, subrange_chars, append_chars,
    str_to_chars, chars_to_string, is_digit, is_space,
};
use crate::numbers::{
    int_chars, parse_i64, i64_to_chars, parse_i64_chars, lemma_int_chars_round_trip,
    lemma_nat_chars_value, nat_chars, lemma_index_of_none, lemma_index_of_is,
};
use crate::common::{ConvertToString, FromString};

verus! {

/// Declares `indexmap::IndexMap` so its values can stand in
/// signatures; the map stays opaque, and its contents are reached
/// only through the named wrappers below.
#[verifier::external_type_specification]
#[verifier::external_body]
#[verifier::reject_recursive_types(K)]
#[verifier::reject_recursive_types(V)]
#[verifier::reject_recursive_types(S)]
pub struct ExIndexMap<K, V, S>(indexmap::IndexMap<K, V, S>);

/// Ordered mapping from table name to the table's maximum row id on
/// one shard.
pub type TablesIdInfo = indexmap::IndexMap<String, i64>;

/// The entries of the mapping, in insertion order. What this names is
/// fixed by the wrapper contracts below.
pub uninterp spec fn tables_entries(t: TablesIdInfo) -> Seq<(Seq<char>, i64)>;

/// Index of the first entry at or after `from` whose key is `k`;
/// `es.len()` when there is none.
pub open spec fn key_index_from(es: Seq<(Seq<char>, i64)>, k: Seq<char>, from: int) -> int
    decreases es.len() - from when 0 <= from <= es.len()
{
    if from >= es.len() {
        es.len() as int
    } else if es[from].0 == k {
        from
    } else {
        key_index_from(es, k, from + 1)
    }
}

/// Index of the first entry whose key is `k`; `es.len()` when absent.
pub open spec fn key_index(es: Seq<(Seq<char>, i64)>, k: Seq<char>) -> int {
    key_index_from(es, k, 0)
}

/// True when some entry has key `k`.
pub open spec fn has_key(es: Seq<(Seq<char>, i64)>, k: Seq<char>) -> bool {
    key_index(es, k) < es.len()
}

pub proof fn lemma_key_index_from(es: Seq<(Seq<char>, i64)>, k: Seq<char>, from: int)
    requires
        0 <= from <= es.len(),
    ensures
        from <= key_index_from(es, k, from) <= es.len(),
        key_index_from(es, k, from) < es.len() ==> es[key_index_from(es, k, from)].0 == k,
        forall|j: int| from <= j < key_index_from(es, k, from) ==> es[j].0 != k,
    decreases es.len() - from,
{
    if from < es.len() && es[from].0 != k {
        lemma_key_index_from(es, k, from + 1);
    }
}

/// When no entry at or after `from` has key `k`, the search returns
/// the length.
pub proof fn lemma_key_index_none(es: Seq<(Seq<char>, i64)>, k: Seq<char>, from: int)
    requires
        0 <= from <= es.len(),
        forall|j: int| from <= j < es.len() ==> es[j].0 != k,
    ensures
        key_index_from(es, k, from) == es.len(),
    decreases es.len() - from,
{
    if from < es.len() {
        lemma_key_index_none(es, k, from + 1);
    }
}

/// What inserting `(k, v)` does to the entries: an existing key keeps
/// its place and takes the new value; a new key is appended.
pub open spec fn insert_entry(
    es: Seq<(Seq<char>, i64)>,
    k: Seq<char>,
    v: i64,
) -> Seq<(Seq<char>, i64)> {
    if has_key(es, k) {
        es.update(key_index(es, k), (k, v))
    } else {
        es.push((k, v))
    }
}

/// Inserting the pairs of `ps` into `es`, in order.
pub open spec fn fold_into(
    es: Seq<(Seq<char>, i64)>,
    ps: Seq<(Seq<char>, i64)>,
) -> Seq<(Seq<char>, i64)>
    decreases ps.len(),
{
    if ps.len() == 0 {
        es
    } else {
        fold_into(insert_entry(es, ps[0].0, ps[0].1), ps.drop_first())
    }
}

/// No two entries share a key. Every `TablesIdInfo` built by this
/// crate satisfies this; it is the map's validity.
pub open spec fn unique_keys(es: Seq<(Seq<char>, i64)>) -> bool {
    forall|i: int, j: int| 0 <= i < j < es.len() ==> es[i].0 != es[j].0
}

/// Relies on `indexmap::IndexMap::new`: a fresh map is empty, and a
/// map's keys are always distinct.
#[verifier::external_body]
pub fn tables_new() -> (r: TablesIdInfo)
    ensures
        tables_entries(r) == Seq::<(Seq<char>, i64)>::empty(),
        unique_keys(tables_entries(r)),
{
    indexmap::IndexMap::new()
}

/// Relies on `indexmap::IndexMap::insert`: an equivalent key keeps
/// its place in the order and takes the new value; a new key is
/// appended, last in order. A map's keys are always distinct.
#[verifier::external_body]
pub fn tables_insert(t: &mut TablesIdInfo, k: String, v: i64)
    ensures
        tables_entries(*final(t)) == insert_entry(tables_entries(*old(t)), k@, v),
        unique_keys(tables_entries(*final(t))),
{
    t.insert(k, v);
}

/// Relies on `indexmap::IndexMap::get`: returns the value stored for
/// an equivalent key, and nothing for an absent key.
#[verifier::external_body]
pub fn tables_get(t: &TablesIdInfo, k: &str) -> (r: Option<i64>)
    ensures
        r is Some <==> has_key(tables_entries(*t), k@),
        r is Some ==> r->0 == tables_entries(*t)[key_index(tables_entries(*t), k@)].1,
{
    t.get(k).copied()
}

/// Relies on `indexmap::IndexMap::len`: the number of entries.
#[verifier::external_body]
pub fn tables_len(t: &TablesIdInfo) -> (r: usize)
    ensures
        r == tables_entries(*t).len(),
{
    t.len()
}

/// Relies on `indexmap::IndexMap::get_index`: the entry at a position
/// in the order, or nothing past the end.
#[verifier::external_body]
pub fn tables_get_index(t: &TablesIdInfo, i: usize) -> (r: Option<(String, i64)>)
    ensures
        r is Some <==> i < tables_entries(*t).len(),
        r matches Some(e) ==> e.0@ == tables_entries(*t)[i as int].0 && e.1 == tables_entries(
            *t,
        )[i as int].1,
{
    t.get_index(i).map(|(k, v)| (k.clone(), *v))
}

/// Relies on `indexmap::IndexMap::clone`: the copy holds the same
/// entries in the same order, and a map's keys are always distinct.
#[verifier::external_body]
pub fn tables_clone(t: &TablesIdInfo) -> (r: TablesIdInfo)
    ensures
        tables_entries(r) == tables_entries(*t),
        unique_keys(tables_entries(r)),
{
    t.clone()
}

/// Entry-by-entry equality, in order.
pub fn tables_equal(a: &TablesIdInfo, b: &TablesIdInfo) -> (r: bool)
    ensures
        r == (tables_entries(*a) =~= tables_entries(*b)),
{
    let alen = tables_len(a);
    let blen = tables_len(b);
    if alen != blen {
        return false;
    }
    let mut i: usize = 0;
    while i < alen
        invariant
            i <= alen,
            alen == tables_entries(*a).len(),
            alen == tables_entries(*b).len(),
            forall|j: int| 0 <= j < i ==> tables_entries(*a)[j] == tables_entries(*b)[j],
        decreases alen - i,
    {
        let ea = tables_get_index(a, i).unwrap();
        let eb = tables_get_index(b, i).unwrap();
        if !(ea.0 == eb.0) || ea.1 != eb.1 {
            proof {
                assert(tables_entries(*a)[i as int] != tables_entries(*b)[i as int]);
            }
            return false;
        }
        proof {
            assert(tables_entries(*a)[i as int] == tables_entries(*b)[i as int]);
        }
        i = i + 1;
    }
    true
}

/// Wire form of one entry: `key:value`.
pub open spec fn entry_chars(e: (Seq<char>, i64)) -> Seq<char> {
    e.0 + seq![':'] + int_chars(e.1 as int)
}

/// Wire form of the entries from position `i` on, comma-separated.
pub open spec fn tables_chars_from(es: Seq<(Seq<char>, i64)>, i: int) -> Seq<char>
    decreases es.len() - i when 0 <= i
{
    if i >= es.len() {
        Seq::<char>::empty()
    } else if i == es.len() - 1 {
        entry_chars(es[i])
    } else {
        entry_chars(es[i]) + seq![','] + tables_chars_from(es, i + 1)
    }
}

/// Wire form of the whole mapping: `table1:n1,table2:n2,...`.
pub open spec fn tables_chars(es: Seq<(Seq<char>, i64)>) -> Seq<char> {
    tables_chars_from(es, 0)
}

fn tables_to_chars_from(t: &TablesIdInfo, i: usize) -> (v: Vec<char>)
    ensures
        v@ == tables_chars_from(tables_entries(*t), i as int),
    decreases tables_entries(*t).len() - i,
{
    let n = tables_len(t);
    match tables_get_index(t, i) {
        None => Vec::new(),
        Some((key, val)) => {
            let mut out = str_to_chars(key.as_str());
            out.push(':');
            let digits = i64_to_chars(val);
            append_chars(&mut out, &digits);
            proof {
                assert(out@ =~= entry_chars(tables_entries(*t)[i as int]));
            }
            match tables_get_index(t, i + 1) {
                None => out,
                Some(_) => {
                    out.push(',');
                    let rest = tables_to_chars_from(t, i + 1);
                    append_chars(&mut out, &rest);
                    proof {
                        assert(out@ =~= tables_chars_from(tables_entries(*t), i as int));
                    }
                    out
                },
            }
        },
    }
}

/// The wire form of the mapping, as characters.
pub fn tables_to_chars(t: &TablesIdInfo) -> (v: Vec<char>)
    ensures
        v@ == tables_chars(tables_entries(*t)),
{
    tables_to_chars_from(t, 0)
}

/// One `key:value` segment of the wire form: the key runs to the
/// first colon, the value to the next colon or the end; anything
/// after a second colon is ignored.
pub open spec fn parse_pair(seg: Seq<char>) -> Option<(Seq<char>, i64)> {
    let k = index_of_from(seg, ':', 0);
    if k == seg.len() {
        None
    } else {
        let key = seg.subrange(0, k);
        let rest = seg.subrange(k + 1, seg.len() as int);
        let k2 = index_of_from(rest, ':', 0);
        match parse_i64(rest.subrange(0, k2)) {
            Some(v) => Some((key, v)),
            None => None,
        }
    }
}

/// The pairs read from the comma-separated segments of `s` starting
/// at `pos`; nothing if any segment is malformed.
pub open spec fn spec_parse_from(s: Seq<char>, pos: int) -> Option<Seq<(Seq<char>, i64)>>
    decreases s.len() - pos when 0 <= pos <= s.len() via spec_parse_from_dec
{
    let c = index_of_from(s, ',', pos);
    match parse_pair(s.subrange(pos, c)) {
        None => None,
        Some(p) => {
            if c == s.len() {
                Some(seq![p])
            } else {
                match spec_parse_from(s, c + 1) {
                    None => None,
                    Some(rest) => Some(seq![p] + rest),
                }
            }
        },
    }
}

#[via_fn]
proof fn spec_parse_from_dec(s: Seq<char>, pos: int) {
    lemma_index_of_from(s, ',', pos);
}

/// What reading a whole wire string yields: the parsed pairs,
/// inserted in order into an empty mapping.
pub open spec fn spec_tables_from_chars(s: Seq<char>) -> Option<Seq<(Seq<char>, i64)>> {
    match spec_parse_from(s, 0) {
        Some(ps) => Some(fold_into(Seq::<(Seq<char>, i64)>::empty(), ps)),
        None => None,
    }
}

fn tables_parse_from(v: &Vec<char>, pos: usize, t: &mut TablesIdInfo) -> (ok: bool)
    requires
        pos <= v@.len(),
    ensures
        ok == (spec_parse_from(v@, pos as int) is Some),
        spec_parse_from(v@, pos as int) matches Some(ps) ==> tables_entries(*final(t))
            == fold_into(tables_entries(*old(t)), ps),
    decreases v@.len() - pos,
{
    let c = find_char_from(v, ',', pos);
    proof {
        lemma_index_of_from(v@, ',', pos as int);
    }
    let seg = subrange_chars(v, pos, c);
    let k = find_char_from(&seg, ':', 0);
    proof {
        lemma_index_of_from(seg@, ':', 0);
    }
    if k == seg.len() {
        return false;
    }
    let key = subrange_chars(&seg, 0, k);
    let rest = subrange_chars(&seg, k + 1, seg.len());
    let k2 = find_char_from(&rest, ':', 0);
    proof {
        lemma_index_of_from(rest@, ':', 0);
    }
    let valchars = subrange_chars(&rest, 0, k2);
    let val = match parse_i64_chars(&valchars) {
        Some(x) => x,
        None => {
            return false;
        },
    };
    let key_s = chars_to_string(&key);
    let ghost pre = tables_entries(*t);
    tables_insert(t, key_s, val);
    if c == v.len() {
        proof {
            let ps = spec_parse_from(v@, pos as int)->0;
            assert(ps =~= seq![(key@, val)]);
            assert(ps[0] == (key@, val));
            assert(ps.drop_first() =~= Seq::<(Seq<char>, i64)>::empty());
            assert(fold_into(insert_entry(pre, key@, val), ps.drop_first()) == insert_entry(
                pre,
                key@,
                val,
            ));
        }
        true
    } else {
        let r = tables_parse_from(v, c + 1, t);
        proof {
            if spec_parse_from(v@, pos as int) is Some {
                let ps = spec_parse_from(v@, pos as int)->0;
                let rest_ps = spec_parse_from(v@, c + 1 as int)->0;
                assert(ps == seq![(key@, val)] + rest_ps);
                assert(ps.drop_first() =~= rest_ps);
                assert(ps[0] == (key@, val));
                assert(fold_into(pre, ps) == fold_into(insert_entry(pre, key@, val), rest_ps));
            }
        }
        r
    }
}

/// Reads a wire string into a fresh mapping; nothing when malformed.
pub fn tables_from_chars(v: &Vec<char>) -> (r: Option<TablesIdInfo>)
    ensures
        r is Some <==> spec_tables_from_chars(v@) is Some,
        spec_tables_from_chars(v@) matches Some(es) ==> tables_entries(r->0) == es,
{
    let mut t = tables_new();
    if tables_parse_from(v, 0, &mut t) {
        Some(t)
    } else {
        None
    }
}

/// A table name that travels intact on the wire: free of the colon
/// and comma the mapping's form uses, and of blanks, which the
/// message form splits on.
pub open spec fn safe_key(k: Seq<char>) -> bool {
    forall|i: int|
        0 <= i < k.len() ==> #[trigger] k[i] != ':' && k[i] != ',' && !is_space(k[i])
}

/// Every key of the entries is wire-safe.
pub open spec fn safe_keys(es: Seq<(Seq<char>, i64)>) -> bool {
    forall|i: int| 0 <= i < es.len() ==> safe_key(#[trigger] es[i].0)
}

/// Every character of a printed integer is a digit or the minus sign.
pub proof fn lemma_int_chars_class(v: int)
    ensures
        forall|j: int|
            0 <= j < int_chars(v).len() ==> is_digit(#[trigger] int_chars(v)[j]) || int_chars(
                v,
            )[j] == '-',
{
    if v < 0 {
        lemma_nat_chars_value((-v) as nat);
        assert(forall|j: int|
            1 <= j < int_chars(v).len() ==> #[trigger] int_chars(v)[j] == nat_chars(
                (-v) as nat,
            )[j - 1]);
    } else {
        lemma_nat_chars_value(v as nat);
    }
}

/// Reading one printed entry gives the entry back.
pub proof fn lemma_entry_parse(e: (Seq<char>, i64))
    requires
        safe_key(e.0),
    ensures
        parse_pair(entry_chars(e)) == Some(e),
{
    let u = entry_chars(e);
    let klen = e.0.len() as int;
    assert(u[klen] == ':');
    assert(forall|j: int| 0 <= j < klen ==> #[trigger] u[j] == e.0[j]);
    lemma_index_of_is(u, ':', 0, klen);
    assert(u.subrange(0, klen) =~= e.0);
    let rest = u.subrange(klen + 1, u.len() as int);
    assert(rest =~= int_chars(e.1 as int));
    lemma_int_chars_class(e.1 as int);
    lemma_index_of_none(rest, ':', 0);
    assert(rest.subrange(0, rest.len() as int) =~= rest);
    lemma_int_chars_round_trip(e.1 as int);
    assert(parse_pair(u) == Some((e.0, e.1)));
    assert((e.0, e.1) == e);
}

/// No character of the printed mapping is a blank, and the first
/// entry's colon stands right after its key.
pub proof fn lemma_tables_chars_class(es: Seq<(Seq<char>, i64)>, i: int)
    requires
        safe_keys(es),
        0 <= i,
    ensures
        forall|j: int|
            0 <= j < tables_chars_from(es, i).len() ==> !is_space(
                #[trigger] tables_chars_from(es, i)[j],
            ),
        i < es.len() ==> es[i].0.len() < tables_chars_from(es, i).len() && tables_chars_from(
            es,
            i,
        )[es[i].0.len() as int] == ':',
    decreases es.len() - i,
{
    if i < es.len() {
        lemma_int_chars_class(es[i].1 as int);
        if i < es.len() - 1 {
            lemma_tables_chars_class(es, i + 1);
        }
    }
}

/// Searching a sequence from a later start is searching its suffix.
pub proof fn lemma_index_of_shift(s: Seq<char>, c: char, pos: int, q: int)
    requires
        0 <= pos <= q <= s.len(),
    ensures
        index_of_from(s, c, q) == pos + index_of_from(s.subrange(pos, s.len() as int), c, q - pos),
    decreases s.len() - q,
{
    let t = s.subrange(pos, s.len() as int);
    if q >= s.len() {
    } else if s[q] == c {
    } else {
        lemma_index_of_shift(s, c, pos, q + 1);
    }
}

/// Parsing from a later position is parsing the suffix.
pub proof fn lemma_parse_shift(s: Seq<char>, pos: int, q: int)
    requires
        0 <= pos <= q <= s.len(),
    ensures
        spec_parse_from(s, q) == spec_parse_from(s.subrange(pos, s.len() as int), q - pos),
    decreases s.len() - q,
{
    let t = s.subrange(pos, s.len() as int);
    let c_s = index_of_from(s, ',', q);
    let c_t = index_of_from(t, ',', q - pos);
    lemma_index_of_shift(s, ',', pos, q);
    lemma_index_of_from(s, ',', q);
    assert(s.subrange(q, c_s) =~= t.subrange(q - pos, c_t));
    if c_s < s.len() {
        lemma_parse_shift(s, pos, c_s + 1);
    }
}

/// Reading the printed suffix of the entries from position `i` gives
/// exactly those entries back.
pub proof fn lemma_tables_chars_parse(es: Seq<(Seq<char>, i64)>, i: int)
    requires
        safe_keys(es),
        0 <= i < es.len(),
    ensures
        spec_parse_from(tables_chars_from(es, i), 0) == Some(es.subrange(i, es.len() as int)),
    decreases es.len() - i,
{
    let u = tables_chars_from(es, i);
    let e = es[i];
    let ec = entry_chars(e);
    lemma_int_chars_class(e.1 as int);
    lemma_entry_parse(e);
    if i == es.len() - 1 {
        assert(forall|j: int| 0 <= j < u.len() ==> #[trigger] u[j] != ',') by {
            assert(forall|j: int| 0 <= j < e.0.len() ==> #[trigger] u[j] == e.0[j]);
        }
        lemma_index_of_none(u, ',', 0);
        assert(u.subrange(0, u.len() as int) =~= u);
        assert(seq![e] =~= es.subrange(i, es.len() as int));
    } else {
        let rest = tables_chars_from(es, i + 1);
        let c = ec.len() as int;
        assert(u == ec + seq![','] + rest);
        assert(u[c] == ',');
        assert(forall|j: int| 0 <= j < c ==> #[trigger] u[j] == ec[j]);
        assert(forall|j: int| 0 <= j < c ==> u[j] != ',') by {
            assert(forall|j: int| 0 <= j < e.0.len() ==> #[trigger] ec[j] == e.0[j]);
            assert(ec[e.0.len() as int] == ':');
            assert(forall|j: int|
                e.0.len() + 1 <= j < ec.len() ==> #[trigger] ec[j] == int_chars(e.1 as int)[j
                    - (e.0.len() + 1)]);
        }
        lemma_index_of_is(u, ',', 0, c);
        assert(u.subrange(0, c) =~= ec);
        assert(u.subrange(c + 1, u.len() as int) =~= rest);
        lemma_parse_shift(u, c + 1, c + 1);
        lemma_tables_chars_parse(es, i + 1);
        assert(spec_parse_from(u, c + 1) == Some(es.subrange(i + 1, es.len() as int)));
        assert(seq![e] + es.subrange(i + 1, es.len() as int) =~= es.subrange(
            i,
            es.len() as int,
        ));
    }
}

/// Inserting pairs whose keys are fresh and mutually distinct appends
/// them in order.
pub proof fn lemma_fold_into_app(a: Seq<(Seq<char>, i64)>, ps: Seq<(Seq<char>, i64)>)
    requires
        unique_keys(ps),
        forall|i: int, j: int|
            0 <= i < a.len() && 0 <= j < ps.len() ==> #[trigger] a[i].0 != #[trigger] ps[j].0,
    ensures
        fold_into(a, ps) == a + ps,
    decreases ps.len(),
{
    if ps.len() == 0 {
        assert(a + ps =~= a);
    } else {
        let p = ps[0];
        lemma_key_index_none(a, p.0, 0);
        assert(!has_key(a, p.0));
        assert(insert_entry(a, p.0, p.1) == a.push(p));
        let a2 = a.push(p);
        let ps2 = ps.drop_first();
        assert(unique_keys(ps2)) by {
            assert(forall|i: int, j: int|
                0 <= i < j < ps2.len() ==> #[trigger] ps2[i].0 != #[trigger] ps2[j].0) by {
                assert(forall|i: int| 0 <= i < ps2.len() ==> #[trigger] ps2[i] == ps[i + 1]);
            }
        }
        assert(forall|i: int, j: int|
            0 <= i < a2.len() && 0 <= j < ps2.len() ==> #[trigger] a2[i].0
                != #[trigger] ps2[j].0) by {
            assert(forall|j: int| 0 <= j < ps2.len() ==> #[trigger] ps2[j] == ps[j + 1]);
        }
        lemma_fold_into_app(a2, ps2);
        assert(a.push(p) + ps.drop_first() =~= a + ps);
        assert((p.0, p.1) == p);
    }
}

/// Round trip of the mapping's wire form: printing any non-empty,
/// well-keyed mapping and reading the result gives the same entries.
pub proof fn lemma_tables_round_trip(es: Seq<(Seq<char>, i64)>)
    requires
        safe_keys(es),
        unique_keys(es),
        es.len() >= 1,
    ensures
        spec_tables_from_chars(tables_chars(es)) == Some(es),
{
    lemma_tables_chars_parse(es, 0);
    assert(es.subrange(0, es.len() as int) =~= es);
    lemma_fold_into_app(Seq::<(Seq<char>, i64)>::empty(), es);
}

impl ConvertToString for TablesIdInfo {
    fn convert_to_string(&self) -> String {
        let v = tables_to_chars(self);
        chars_to_string(&v)
    }
}

impl FromString for TablesIdInfo {
    /// A malformed wire string yields an empty mapping; the message
    /// codec uses [`tables_from_chars`] and rejects such input.
    fn from_string(string: &str) -> Self {
        let v = str_to_chars(string);
        match tables_from_chars(&v) {
            Some(t) => t,
            None => tables_new(),
        }
    }
}

} // verus!
