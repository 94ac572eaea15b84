//! Classification of SQL text and the narrow `WHERE id = N`
//! extractor the router uses for targeted queries. No SQL is parsed
//! beyond a leading keyword, a table name after `FROM`/`UPDATE`/
//! `INTO`/`TABLE`, and the one literal id-equality form.

use vstd::prelude::*;
use crate::chars::{
    upper, upper_chars, starts_with, matches_at_exec, find_sub_from, find_sub_exec,
    lemma_find_sub_from, skip_spaces, skip_spaces_exec, lemma_skip_spaces, ws_end, ws_end_exec,
    lemma_ws_end, trim, trim_exec, lemma_trim_end_idx, str_to_chars, chars_to_string,
    subrange_chars,
};
use crate::numbers::{parse_i64, parse_i64_chars, int_chars, i64_to_chars};

verus! {

/// The query begins with the given keyword, letter case ignored.
pub open spec fn spec_query_is(q: Seq<char>, kw: Seq<char>) -> bool {
    starts_with(upper(q), kw)
}

pub fn query_is(query: &str, query_type: &str) -> (r: bool)
    ensures
        r == spec_query_is(query@, query_type@),
{
    let qv = str_to_chars(query);
    let uq = upper_chars(&qv);
    let kv = str_to_chars(query_type);
    if kv.len() > uq.len() {
        return false;
    }
    let m = matches_at_exec(&uq, &kv, 0);
    proof {
        assert(m == starts_with(upper(query@), query_type@));
    }
    m
}

pub fn query_is_insert(query: &str) -> (r: bool)
    ensures
        r == spec_query_is(query@, "INSERT"@),
{
    query_is(query, "INSERT")
}

pub fn query_is_select(query: &str) -> (r: bool)
    ensures
        r == spec_query_is(query@, "SELECT"@),
{
    query_is(query, "SELECT")
}

/// The query may change how much storage a shard uses.
pub open spec fn spec_affects_memory(q: Seq<char>) -> bool {
    spec_query_is(q, "INSERT"@) || spec_query_is(q, "DELETE"@) || spec_query_is(q, "DROP"@)
        || spec_query_is(q, "UPDATE"@) || spec_query_is(q, "CREATE"@)
}

pub fn query_affects_memory_state(query: &str) -> (r: bool)
    ensures
        r == spec_affects_memory(query@),
{
    query_is(query, "INSERT") || query_is(query, "DELETE") || query_is(query, "DROP") || query_is(
        query,
        "UPDATE",
    ) || query_is(query, "CREATE")
}

/// The first blank-delimited word after the first occurrence of the
/// keyword (matched case-insensitively); nothing when the keyword is
/// absent or nothing follows it.
pub open spec fn spec_table_behind(q: Seq<char>, kw: Seq<char>) -> Option<Seq<char>> {
    let u = upper(q);
    let i = find_sub_from(u, kw, 0);
    if i == u.len() {
        None
    } else {
        let a = skip_spaces(q, i + kw.len());
        if a == q.len() {
            None
        } else {
            Some(q.subrange(a, ws_end(q, a)))
        }
    }
}

pub fn get_table_name_behind_keyword(query: &str, keyword: String) -> (r: Option<String>)
    ensures
        r is Some <==> spec_table_behind(query@, keyword@) is Some,
        r matches Some(t) ==> spec_table_behind(query@, keyword@) == Some(t@),
{
    let qv = str_to_chars(query);
    let uq = upper_chars(&qv);
    let kv = str_to_chars(keyword.as_str());
    let i = find_sub_exec(&uq, &kv, 0);
    proof {
        lemma_find_sub_from(uq@, kv@, 0);
    }
    if i == uq.len() {
        return None;
    }
    let a = skip_spaces_exec(&qv, i + kv.len());
    proof {
        lemma_skip_spaces(qv@, i + kv@.len());
    }
    if a == qv.len() {
        return None;
    }
    let b = ws_end_exec(&qv, a);
    proof {
        lemma_ws_end(qv@, a as int);
    }
    let tok = subrange_chars(&qv, a, b);
    Some(chars_to_string(&tok))
}

/// The table name a query speaks of: the word after `FROM`, `UPDATE`,
/// `INTO` or `TABLE`, tried in that order, with one trailing `;`
/// removed.
pub open spec fn spec_table_name(q: Seq<char>) -> Option<Seq<char>> {
    let raw = match spec_table_behind(q, "FROM"@) {
        Some(t) => Some(t),
        None => match spec_table_behind(q, "UPDATE"@) {
            Some(t) => Some(t),
            None => match spec_table_behind(q, "INTO"@) {
                Some(t) => Some(t),
                None => spec_table_behind(q, "TABLE"@),
            },
        },
    };
    match raw {
        None => None,
        Some(t) => if t.len() > 0 && t.last() == ';' {
            Some(t.drop_last())
        } else {
            Some(t)
        },
    }
}

pub fn get_table_name_from_query(query: &str) -> (r: Option<String>)
    ensures
        r is Some <==> spec_table_name(query@) is Some,
        r matches Some(t) ==> spec_table_name(query@) == Some(t@),
{
    let raw = match get_table_name_behind_keyword(query, String::from_str("FROM")) {
        Some(t) => Some(t),
        None => match get_table_name_behind_keyword(query, String::from_str("UPDATE")) {
            Some(t) => Some(t),
            None => match get_table_name_behind_keyword(query, String::from_str("INTO")) {
                Some(t) => Some(t),
                None => get_table_name_behind_keyword(query, String::from_str("TABLE")),
            },
        },
    };
    match raw {
        None => None,
        Some(t) => {
            let tv = str_to_chars(t.as_str());
            if tv.len() > 0 && tv[tv.len() - 1] == ';' {
                let cut = subrange_chars(&tv, 0, tv.len() - 1);
                proof {
                    assert(cut@ =~= tv@.drop_last());
                }
                Some(chars_to_string(&cut))
            } else {
                Some(t)
            }
        },
    }
}

/// Where the id literal of a `WHERE id = N` clause starts: right
/// after the first of the four spacing variants to occur, preferring
/// the variant with both blanks.
pub open spec fn spec_id_index(q: Seq<char>) -> Option<int> {
    let u = upper(q);
    let i1 = find_sub_from(u, "WHERE ID = "@, 0);
    let i2 = find_sub_from(u, "WHERE ID ="@, 0);
    let i3 = find_sub_from(u, "WHERE ID= "@, 0);
    let i4 = find_sub_from(u, "WHERE ID="@, 0);
    if i1 < u.len() {
        Some(i1 + "WHERE ID = "@.len())
    } else if i2 < u.len() {
        Some(i2 + "WHERE ID ="@.len())
    } else if i3 < u.len() {
        Some(i3 + "WHERE ID= "@.len())
    } else if i4 < u.len() {
        Some(i4 + "WHERE ID="@.len())
    } else {
        None
    }
}

pub fn get_id_index(query: &str) -> (r: Option<usize>)
    ensures
        r is Some <==> spec_id_index(query@) is Some,
        r matches Some(ix) ==> spec_id_index(query@) == Some(ix as int) && ix <= query@.len(),
{
    let qv = str_to_chars(query);
    let uq = upper_chars(&qv);
    let p1 = str_to_chars("WHERE ID = ");
    let p2 = str_to_chars("WHERE ID =");
    let p3 = str_to_chars("WHERE ID= ");
    let p4 = str_to_chars("WHERE ID=");
    let i1 = find_sub_exec(&uq, &p1, 0);
    proof {
        lemma_find_sub_from(uq@, p1@, 0);
    }
    if i1 < uq.len() {
        return Some(i1 + p1.len());
    }
    let i2 = find_sub_exec(&uq, &p2, 0);
    proof {
        lemma_find_sub_from(uq@, p2@, 0);
    }
    if i2 < uq.len() {
        return Some(i2 + p2.len());
    }
    let i3 = find_sub_exec(&uq, &p3, 0);
    proof {
        lemma_find_sub_from(uq@, p3@, 0);
    }
    if i3 < uq.len() {
        return Some(i3 + p3.len());
    }
    let i4 = find_sub_exec(&uq, &p4, 0);
    proof {
        lemma_find_sub_from(uq@, p4@, 0);
    }
    if i4 < uq.len() {
        return Some(i4 + p4.len());
    }
    None
}

/// The id literal: the tail of the query from `from` on, blanks
/// trimmed and one trailing `;` removed.
pub open spec fn spec_trimmed_id(q: Seq<char>, from: int) -> Seq<char> {
    let t = trim(q.subrange(from, q.len() as int));
    if t.len() > 0 && t.last() == ';' {
        t.drop_last()
    } else {
        t
    }
}

fn trimmed_id_chars(qv: &Vec<char>, from: usize) -> (r: Vec<char>)
    requires
        from <= qv@.len(),
    ensures
        r@ == spec_trimmed_id(qv@, from as int),
        from + r@.len() <= qv@.len(),
{
    let rest = subrange_chars(qv, from, qv.len());
    let t = trim_exec(&rest);
    proof {
        lemma_skip_spaces(rest@, 0);
        lemma_trim_end_idx(rest@);
    }
    if t.len() > 0 && t[t.len() - 1] == ';' {
        let cut = subrange_chars(&t, 0, t.len() - 1);
        proof {
            assert(cut@ =~= t@.drop_last());
        }
        cut
    } else {
        t
    }
}

pub fn get_trimmed_id(query: &str, from: usize) -> (r: String)
    requires
        from <= query@.len(),
    ensures
        r@ == spec_trimmed_id(query@, from as int),
{
    let qv = str_to_chars(query);
    let t = trimmed_id_chars(&qv, from);
    chars_to_string(&t)
}

/// The id a `WHERE id = N` clause names, when the clause is present
/// and its literal reads as an integer; a clause whose literal does
/// not read as one yields nothing.
pub open spec fn spec_id_if_exists(q: Seq<char>) -> Option<i64> {
    match spec_id_index(q) {
        None => None,
        Some(ix) => parse_i64(spec_trimmed_id(q, ix)),
    }
}

pub fn get_id_if_exists(query: &str) -> (r: Option<i64>)
    ensures
        r == spec_id_if_exists(query@),
{
    match get_id_index(query) {
        None => None,
        Some(ix) => {
            let qv = str_to_chars(query);
            let t = trimmed_id_chars(&qv, ix);
            parse_i64_chars(&t)
        },
    }
}

/// The query with the id literal of its `WHERE id = N` clause
/// replaced by `new_id`.
pub open spec fn spec_format_query(q: Seq<char>, new_id: int) -> Seq<char> {
    let ix = spec_id_index(q)->0;
    let id = spec_trimmed_id(q, ix);
    q.subrange(0, ix) + int_chars(new_id) + q.subrange(ix + id.len(), q.len() as int)
}

pub fn format_query_with_new_id(query: &str, new_id: i64) -> (r: String)
    requires
        spec_id_index(query@) is Some,
    ensures
        r@ == spec_format_query(query@, new_id as int),
{
    let ix = get_id_index(query).unwrap();
    let qv = str_to_chars(query);
    let id = trimmed_id_chars(&qv, ix);
    let mut out = subrange_chars(&qv, 0, ix);
    let digits = i64_to_chars(new_id);
    crate::chars::append_chars(&mut out, &digits);
    let tail = subrange_chars(&qv, ix + id.len(), qv.len());
    crate::chars::append_chars(&mut out, &tail);
    chars_to_string(&out)
}

} // verus!
