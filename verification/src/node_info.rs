//! Address of a node: an ip and a port, both kept as strings and
//! written on the wire as `ip:port`.

use vstd::prelude::*;
use vstd::string::StringExecFns;
use crate::chars::{
    index_of_from, lemma_index_of_from, find_char_from, subrange_chars, str_to_chars,
    chars_to_string, is_space,
};
use crate::numbers::{lemma_index_of_none, lemma_index_of_is};

verus! {

/// A node's address. The shard's control channel always listens on
/// the numeric data port plus the fixed control offset.
#[derive(Clone, Debug)]
pub struct NodeInfo {
    pub ip: String,
    pub port: String,
}

impl View for NodeInfo {
    type V = (Seq<char>, Seq<char>);

    open spec fn view(&self) -> (Seq<char>, Seq<char>) {
        (self.ip@, self.port@)
    }
}

impl NodeInfo {
    /// A copy with the same ip and port.
    pub fn duplicate(&self) -> (r: NodeInfo)
        ensures
            r == *self,
    {
        NodeInfo { ip: self.ip.clone(), port: self.port.clone() }
    }

    /// The wire form `ip:port`.
    pub fn to_string(&self) -> (r: String)
        ensures
            r@ == node_info_chars(self@),
    {
        let mut s = self.ip.clone();
        s.append(":");
        proof {
            reveal_strlit(":");
            assert(":"@ =~= seq![':']);
        }
        s.append(self.port.as_str());
        s
    }
}

impl PartialEq for NodeInfo {
    fn eq(&self, other: &Self) -> (r: bool) {
        self.ip == other.ip && self.port == other.port
    }
}

impl vstd::std_specs::cmp::PartialEqSpecImpl for NodeInfo {
    open spec fn obeys_eq_spec() -> bool {
        true
    }

    open spec fn eq_spec(&self, other: &Self) -> bool {
        self.ip@ == other.ip@ && self.port@ == other.port@
    }
}

/// Wire form of an address.
pub open spec fn node_info_chars(n: (Seq<char>, Seq<char>)) -> Seq<char> {
    n.0 + seq![':'] + n.1
}

/// Reading an address: the ip runs to the first colon, the port to
/// the next colon or the end; an address without a colon is refused.
pub open spec fn parse_node_info(s: Seq<char>) -> Option<(Seq<char>, Seq<char>)> {
    let k = index_of_from(s, ':', 0);
    if k == s.len() {
        None
    } else {
        let ip = s.subrange(0, k);
        let rest = s.subrange(k + 1, s.len() as int);
        let k2 = index_of_from(rest, ':', 0);
        Some((ip, rest.subrange(0, k2)))
    }
}

/// Reads an address from characters, as [`parse_node_info`].
pub fn parse_node_info_chars(v: &Vec<char>) -> (r: Option<NodeInfo>)
    ensures
        r is Some <==> parse_node_info(v@) is Some,
        r matches Some(n) ==> parse_node_info(v@) == Some(n@),
{
    let k = find_char_from(v, ':', 0);
    proof {
        lemma_index_of_from(v@, ':', 0);
    }
    if k == v.len() {
        return None;
    }
    let ip = subrange_chars(v, 0, k);
    let rest = subrange_chars(v, k + 1, v.len());
    let k2 = find_char_from(&rest, ':', 0);
    proof {
        lemma_index_of_from(rest@, ':', 0);
    }
    let port = subrange_chars(&rest, 0, k2);
    Some(NodeInfo { ip: chars_to_string(&ip), port: chars_to_string(&port) })
}

impl core::str::FromStr for NodeInfo {
    type Err = &'static str;

    fn from_str(input: &str) -> Result<NodeInfo, Self::Err> {
        let v = str_to_chars(input);
        match parse_node_info_chars(&v) {
            Some(n) => Ok(n),
            None => Err("Missing port"),
        }
    }
}

/// An address that travels intact on the wire: no colons inside the
/// parts, no blanks anywhere.
pub open spec fn safe_node_info(n: (Seq<char>, Seq<char>)) -> bool {
    &&& forall|i: int| 0 <= i < n.0.len() ==> #[trigger] n.0[i] != ':' && !is_space(n.0[i])
    &&& forall|i: int| 0 <= i < n.1.len() ==> #[trigger] n.1[i] != ':' && !is_space(n.1[i])
}

/// Reading a printed well-formed address gives it back, and the
/// printed form holds no blanks and a colon right after the ip.
pub proof fn lemma_node_info_round_trip(n: (Seq<char>, Seq<char>))
    requires
        safe_node_info(n),
    ensures
        parse_node_info(node_info_chars(n)) == Some(n),
        forall|j: int|
            0 <= j < node_info_chars(n).len() ==> !is_space(#[trigger] node_info_chars(n)[j]),
        node_info_chars(n)[n.0.len() as int] == ':',
        n.0.len() < node_info_chars(n).len(),
{
    let s = node_info_chars(n);
    let klen = n.0.len() as int;
    assert(s[klen] == ':');
    assert(forall|j: int| 0 <= j < klen ==> #[trigger] s[j] == n.0[j]);
    lemma_index_of_is(s, ':', 0, klen);
    assert(s.subrange(0, klen) =~= n.0);
    let rest = s.subrange(klen + 1, s.len() as int);
    assert(rest =~= n.1);
    lemma_index_of_none(rest, ':', 0);
    assert(rest.subrange(0, rest.len() as int) =~= rest);
}

} // verus!
