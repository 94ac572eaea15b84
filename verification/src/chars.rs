//! Character-level utilities shared by the message codec and the
//! query classifier: digit and case maps, conversions between
//! `&str`/`String` and `Vec<char>`, and searching within sequences.

use vstd::prelude::*;

verus! {

/// True for the ten ASCII decimal digits.
pub open spec fn is_digit(c: char) -> bool {
    '0' <= c && c <= '9'
}

/// Numeric value of an ASCII decimal digit; unspecified elsewhere.
pub open spec fn digit_val(c: char) -> int {
    if c == '0' { 0 } else if c == '1' { 1 } else if c == '2' { 2 }
    else if c == '3' { 3 } else if c == '4' { 4 } else if c == '5' { 5 }
    else if c == '6' { 6 } else if c == '7' { 7 } else if c == '8' { 8 }
    else if c == '9' { 9 } else { 10 }
}

/// The ASCII digit for a value in 0..10; unspecified elsewhere.
pub open spec fn digit_char(d: int) -> char {
    if d == 0 { '0' } else if d == 1 { '1' } else if d == 2 { '2' }
    else if d == 3 { '3' } else if d == 4 { '4' } else if d == 5 { '5' }
    else if d == 6 { '6' } else if d == 7 { '7' } else if d == 8 { '8' }
    else { '9' }
}

pub proof fn lemma_digit_char_val(d: int)
    requires
        0 <= d < 10,
    ensures
        is_digit(digit_char(d)),
        digit_val(digit_char(d)) == d,
{
}

pub fn digit_to_char(d: u8) -> (c: char)
    requires
        d < 10,
    ensures
        c == digit_char(d as int),
{
    match d {
        0 => '0',
        1 => '1',
        2 => '2',
        3 => '3',
        4 => '4',
        5 => '5',
        6 => '6',
        7 => '7',
        8 => '8',
        _ => '9',
    }
}

pub fn char_to_digit(c: char) -> (r: Option<u8>)
    ensures
        r is Some <==> is_digit(c),
        r is Some ==> r->0 == digit_val(c) && r->0 < 10,
{
    match c {
        '0' => Some(0),
        '1' => Some(1),
        '2' => Some(2),
        '3' => Some(3),
        '4' => Some(4),
        '5' => Some(5),
        '6' => Some(6),
        '7' => Some(7),
        '8' => Some(8),
        '9' => Some(9),
        _ => None,
    }
}

/// ASCII upper-casing of a single character; other characters are
/// returned unchanged. SQL keywords are ASCII, so this is all the
/// case folding the query classifier needs.
pub open spec fn upper_char(c: char) -> char {
    if c == 'a' { 'A' } else if c == 'b' { 'B' } else if c == 'c' { 'C' }
    else if c == 'd' { 'D' } else if c == 'e' { 'E' } else if c == 'f' { 'F' }
    else if c == 'g' { 'G' } else if c == 'h' { 'H' } else if c == 'i' { 'I' }
    else if c == 'j' { 'J' } else if c == 'k' { 'K' } else if c == 'l' { 'L' }
    else if c == 'm' { 'M' } else if c == 'n' { 'N' } else if c == 'o' { 'O' }
    else if c == 'p' { 'P' } else if c == 'q' { 'Q' } else if c == 'r' { 'R' }
    else if c == 's' { 'S' } else if c == 't' { 'T' } else if c == 'u' { 'U' }
    else if c == 'v' { 'V' } else if c == 'w' { 'W' } else if c == 'x' { 'X' }
    else if c == 'y' { 'Y' } else if c == 'z' { 'Z' } else { c }
}

/// ASCII upper-casing of a whole sequence.
pub open spec fn upper(s: Seq<char>) -> Seq<char> {
    s.map_values(|c: char| upper_char(c))
}

pub fn upper_char_exec(c: char) -> (r: char)
    ensures
        r == upper_char(c),
{
    match c {
        'a' => 'A', 'b' => 'B', 'c' => 'C', 'd' => 'D', 'e' => 'E',
        'f' => 'F', 'g' => 'G', 'h' => 'H', 'i' => 'I', 'j' => 'J',
        'k' => 'K', 'l' => 'L', 'm' => 'M', 'n' => 'N', 'o' => 'O',
        'p' => 'P', 'q' => 'Q', 'r' => 'R', 's' => 'S', 't' => 'T',
        'u' => 'U', 'v' => 'V', 'w' => 'W', 'x' => 'X', 'y' => 'Y',
        'z' => 'Z',
        _ => c,
    }
}

pub fn upper_chars(v: &Vec<char>) -> (r: Vec<char>)
    ensures
        r@ == upper(v@),
{
    let mut out: Vec<char> = Vec::new();
    let mut i: usize = 0;
    while i < v.len()
        invariant
            i <= v.len(),
            out@ == upper(v@.subrange(0, i as int)),
        decreases v.len() - i,
    {
        out.push(upper_char_exec(v[i]));
        proof {
            assert(upper(v@.subrange(0, i + 1 as int)) =~= upper(
                v@.subrange(0, i as int),
            ).push(upper_char(v@[i as int])));
        }
        i = i + 1;
    }
    proof {
        assert(v@.subrange(0, v@.len() as int) =~= v@);
    }
    out
}

/// The characters of a `&str`, as a vector.
pub fn str_to_chars(s: &str) -> (v: Vec<char>)
    ensures
        v@ == s@,
{
    let n: usize = s.unicode_len();
    let mut v: Vec<char> = Vec::new();
    let mut i: usize = 0;
    while i < n
        invariant
            i <= n,
            n == s@.len(),
            v@ == s@.subrange(0, i as int),
        decreases n - i,
    {
        v.push(s.get_char(i));
        proof {
            assert(s@.subrange(0, i + 1 as int) =~= s@.subrange(0, i as int).push(
                s@[i as int],
            ));
        }
        i = i + 1;
    }
    proof {
        assert(s@.subrange(0, s@.len() as int) =~= s@);
    }
    v
}

/// Relies on `String: FromIterator<char>` from std: collecting the
/// characters of the vector yields the string with exactly those
/// characters, in order.
#[verifier::external_body]
pub fn chars_to_string(v: &Vec<char>) -> (r: String)
    ensures
        r@ == v@,
{
    v.iter().collect()
}

/// Appends a copy of `src` to `dst`.
pub fn append_chars(dst: &mut Vec<char>, src: &Vec<char>)
    ensures
        final(dst)@ == old(dst)@ + src@,
{
    let mut i: usize = 0;
    let slen: usize = src.len();
    while i < slen
        invariant
            i <= slen,
            slen == src@.len(),
            dst@ == old(dst)@ + src@.subrange(0, i as int),
        decreases slen - i,
    {
        dst.push(src[i]);
        proof {
            assert(old(dst)@ + src@.subrange(0, i + 1 as int) =~= (old(dst)@ + src@.subrange(
                0,
                i as int,
            )).push(src@[i as int]));
        }
        i = i + 1;
    }
    proof {
        assert(src@.subrange(0, src@.len() as int) =~= src@);
    }
}

/// Copy of `v[a..b]`.
pub fn subrange_chars(v: &Vec<char>, a: usize, b: usize) -> (r: Vec<char>)
    requires
        a <= b <= v@.len(),
    ensures
        r@ == v@.subrange(a as int, b as int),
{
    let mut out: Vec<char> = Vec::new();
    let mut i: usize = a;
    while i < b
        invariant
            a <= i <= b <= v@.len(),
            out@ == v@.subrange(a as int, i as int),
        decreases b - i,
    {
        out.push(v[i]);
        proof {
            assert(v@.subrange(a as int, i + 1 as int) =~= v@.subrange(
                a as int,
                i as int,
            ).push(v@[i as int]));
        }
        i = i + 1;
    }
    out
}

/// Index of the first occurrence of `c` in `s` at or after `from`;
/// `s.len()` when there is none.
pub open spec fn index_of_from(s: Seq<char>, c: char, from: int) -> int
    decreases s.len() - from when 0 <= from <= s.len()
{
    if from >= s.len() {
        s.len() as int
    } else if s[from] == c {
        from
    } else {
        index_of_from(s, c, from + 1)
    }
}

pub proof fn lemma_index_of_from(s: Seq<char>, c: char, from: int)
    requires
        0 <= from <= s.len(),
    ensures
        from <= index_of_from(s, c, from) <= s.len(),
        index_of_from(s, c, from) < s.len() ==> s[index_of_from(s, c, from)] == c,
        forall|j: int|
            from <= j < index_of_from(s, c, from) ==> s[j] != c,
    decreases s.len() - from,
{
    if from < s.len() && s[from] != c {
        lemma_index_of_from(s, c, from + 1);
    }
}

pub fn find_char_from(v: &Vec<char>, c: char, from: usize) -> (r: usize)
    requires
        from <= v@.len(),
    ensures
        r == index_of_from(v@, c, from as int),
{
    let mut i: usize = from;
    while i < v.len()
        invariant
            from <= i <= v@.len(),
            index_of_from(v@, c, from as int) == index_of_from(v@, c, i as int),
        decreases v.len() - i,
    {
        if v[i] == c {
            return i;
        }
        i = i + 1;
    }
    i
}

/// True when `p` occurs in `s` starting at index `i`.
pub open spec fn matches_at(s: Seq<char>, p: Seq<char>, i: int) -> bool {
    0 <= i && i + p.len() <= s.len() && s.subrange(i, i + p.len()) == p
}

/// Index of the first occurrence of `p` in `s` at or after `from`;
/// `s.len()` when there is none (note an occurrence index is always
/// at most `s.len() - p.len()`, so the sentinel is unambiguous for
/// non-empty `p`).
pub open spec fn find_sub_from(s: Seq<char>, p: Seq<char>, from: int) -> int
    decreases s.len() - from when 0 <= from <= s.len()
{
    if from >= s.len() || from + p.len() > s.len() {
        s.len() as int
    } else if matches_at(s, p, from) {
        from
    } else {
        find_sub_from(s, p, from + 1)
    }
}

pub proof fn lemma_find_sub_from(s: Seq<char>, p: Seq<char>, from: int)
    requires
        0 <= from <= s.len(),
    ensures
        from <= find_sub_from(s, p, from) <= s.len(),
        find_sub_from(s, p, from) < s.len() ==> matches_at(s, p, find_sub_from(s, p, from)),
        forall|j: int| from <= j < find_sub_from(s, p, from) ==> !matches_at(s, p, j),
    decreases s.len() - from,
{
    if from < s.len() && from + p.len() <= s.len() && !matches_at(s, p, from) {
        lemma_find_sub_from(s, p, from + 1);
    }
}

/// True when the first characters of `s` are `p`.
pub open spec fn starts_with(s: Seq<char>, p: Seq<char>) -> bool {
    p.len() <= s.len() && s.subrange(0, p.len() as int) == p
}

pub fn chars_eq(a: &Vec<char>, b: &Vec<char>) -> (r: bool)
    ensures
        r == (a@ =~= b@),
{
    if a.len() != b.len() {
        return false;
    }
    let mut i: usize = 0;
    while i < a.len()
        invariant
            i <= a@.len(),
            a@.len() == b@.len(),
            forall|j: int| 0 <= j < i ==> a@[j] == b@[j],
        decreases a.len() - i,
    {
        if a[i] != b[i] {
            return false;
        }
        i = i + 1;
    }
    true
}

/// True when `p` occurs at offset `i` of `v`.
pub fn matches_at_exec(v: &Vec<char>, p: &Vec<char>, i: usize) -> (r: bool)
    requires
        i + p@.len() <= v@.len(),
    ensures
        r == matches_at(v@, p@, i as int),
{
    let vlen: usize = v.len();
    let mut k: usize = 0;
    while k < p.len()
        invariant
            k <= p@.len(),
            i + p@.len() <= v@.len(),
            vlen == v@.len(),
            forall|j: int| 0 <= j < k ==> v@[i + j] == p@[j],
        decreases p.len() - k,
    {
        if v[i + k] != p[k] {
            proof {
                assert(v@.subrange(i as int, i + p@.len())[k as int] == v@[i + k]);
            }
            return false;
        }
        k = k + 1;
    }
    proof {
        assert(v@.subrange(i as int, i + p@.len()) =~= p@);
    }
    true
}

/// First occurrence of `p` in `v` at or after `from`, as `find_sub_from`.
pub fn find_sub_exec(v: &Vec<char>, p: &Vec<char>, from: usize) -> (r: usize)
    requires
        from <= v@.len(),
    ensures
        r == find_sub_from(v@, p@, from as int),
{
    if p.len() == 0 {
        if from < v.len() {
            proof {
                assert(v@.subrange(from as int, from as int) =~= p@);
            }
            return from;
        }
        return v.len();
    }
    if p.len() > v.len() || from > v.len() - p.len() {
        return v.len();
    }
    let end: usize = v.len() - p.len();
    let vlen: usize = v.len();
    let mut i: usize = from;
    while i <= end
        invariant
            from <= i <= end + 1,
            1 <= p@.len() <= v@.len(),
            end == v@.len() - p@.len(),
            vlen == v@.len(),
            end < vlen,
            find_sub_from(v@, p@, from as int) == find_sub_from(v@, p@, i as int),
        decreases end + 1 - i,
    {
        if matches_at_exec(v, p, i) {
            return i;
        }
        i = i + 1;
    }
    v.len()
}

/// True when `c` is one of the ASCII whitespace characters the
/// protocol and the query parser treat as blank.
pub open spec fn is_space(c: char) -> bool {
    c == ' ' || c == '\t' || c == '\n' || c == '\r'
}

pub fn is_space_exec(c: char) -> (r: bool)
    ensures
        r == is_space(c),
{
    c == ' ' || c == '\t' || c == '\n' || c == '\r'
}

/// Index of the first non-blank character at or after `from`;
/// `s.len()` when the rest is blank.
pub open spec fn skip_spaces(s: Seq<char>, from: int) -> int
    decreases s.len() - from when 0 <= from <= s.len()
{
    if from >= s.len() {
        s.len() as int
    } else if !is_space(s[from]) {
        from
    } else {
        skip_spaces(s, from + 1)
    }
}

pub proof fn lemma_skip_spaces(s: Seq<char>, from: int)
    requires
        0 <= from <= s.len(),
    ensures
        from <= skip_spaces(s, from) <= s.len(),
        skip_spaces(s, from) < s.len() ==> !is_space(s[skip_spaces(s, from)]),
        forall|j: int| from <= j < skip_spaces(s, from) ==> is_space(s[j]),
    decreases s.len() - from,
{
    if from < s.len() && is_space(s[from]) {
        lemma_skip_spaces(s, from + 1);
    }
}

pub fn skip_spaces_exec(v: &Vec<char>, from: usize) -> (r: usize)
    requires
        from <= v@.len(),
    ensures
        r == skip_spaces(v@, from as int),
{
    let mut i: usize = from;
    while i < v.len()
        invariant
            from <= i <= v@.len(),
            skip_spaces(v@, from as int) == skip_spaces(v@, i as int),
        decreases v.len() - i,
    {
        if !is_space_exec(v[i]) {
            return i;
        }
        i = i + 1;
    }
    i
}

/// Index of the first blank character at or after `from`; `s.len()`
/// when there is none.
pub open spec fn ws_end(s: Seq<char>, from: int) -> int
    decreases s.len() - from when 0 <= from <= s.len()
{
    if from >= s.len() {
        s.len() as int
    } else if is_space(s[from]) {
        from
    } else {
        ws_end(s, from + 1)
    }
}

pub proof fn lemma_ws_end(s: Seq<char>, from: int)
    requires
        0 <= from <= s.len(),
    ensures
        from <= ws_end(s, from) <= s.len(),
        ws_end(s, from) < s.len() ==> is_space(s[ws_end(s, from)]),
        forall|j: int| from <= j < ws_end(s, from) ==> !is_space(s[j]),
    decreases s.len() - from,
{
    if from < s.len() && !is_space(s[from]) {
        lemma_ws_end(s, from + 1);
    }
}

pub fn ws_end_exec(v: &Vec<char>, from: usize) -> (r: usize)
    requires
        from <= v@.len(),
    ensures
        r == ws_end(v@, from as int),
{
    let mut i: usize = from;
    while i < v.len()
        invariant
            from <= i <= v@.len(),
            ws_end(v@, from as int) == ws_end(v@, i as int),
        decreases v.len() - i,
    {
        if is_space_exec(v[i]) {
            return i;
        }
        i = i + 1;
    }
    i
}

/// Length of `s` once trailing blanks are dropped.
pub open spec fn trim_end_idx(s: Seq<char>) -> int
    decreases s.len(),
{
    if s.len() == 0 {
        0
    } else if is_space(s.last()) {
        trim_end_idx(s.drop_last())
    } else {
        s.len() as int
    }
}

pub proof fn lemma_trim_end_idx(s: Seq<char>)
    ensures
        0 <= trim_end_idx(s) <= s.len(),
        trim_end_idx(s) > 0 ==> !is_space(s[trim_end_idx(s) - 1]),
        forall|j: int| trim_end_idx(s) <= j < s.len() ==> is_space(s[j]),
    decreases s.len(),
{
    if s.len() > 0 && is_space(s.last()) {
        lemma_trim_end_idx(s.drop_last());
        assert(forall|j: int|
            0 <= j < s.len() - 1 ==> s.drop_last()[j] == s[j]);
    }
}

pub fn trim_end_exec(v: &Vec<char>) -> (r: usize)
    ensures
        r == trim_end_idx(v@),
{
    let mut e: usize = v.len();
    proof {
        assert(v@.subrange(0, v@.len() as int) =~= v@);
    }
    while e > 0 && is_space_exec(v[e - 1])
        invariant
            0 <= e <= v@.len(),
            trim_end_idx(v@) == trim_end_idx(v@.subrange(0, e as int)),
        decreases e,
    {
        proof {
            let pre = v@.subrange(0, e as int);
            assert(pre.drop_last() =~= v@.subrange(0, e - 1 as int));
        }
        e = e - 1;
    }
    proof {
        let pre = v@.subrange(0, e as int);
        if e > 0 {
            assert(!is_space(pre.last()));
        }
    }
    e
}

/// Blanks trimmed from both ends.
pub open spec fn trim(s: Seq<char>) -> Seq<char> {
    let a = skip_spaces(s, 0);
    let e = trim_end_idx(s);
    if a >= e {
        Seq::<char>::empty()
    } else {
        s.subrange(a, e)
    }
}

pub fn trim_exec(v: &Vec<char>) -> (r: Vec<char>)
    ensures
        r@ == trim(v@),
{
    let a = skip_spaces_exec(v, 0);
    let e = trim_end_exec(v);
    proof {
        lemma_skip_spaces(v@, 0);
        lemma_trim_end_idx(v@);
    }
    if a >= e {
        Vec::new()
    } else {
        subrange_chars(v, a, e)
    }
}

} // verus!
