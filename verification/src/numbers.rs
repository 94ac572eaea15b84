//! Decimal printing and parsing for the wire protocol: unsigned and
//! signed integers, and storage percentages. A percentage is carried
//! throughout the crate in hundredths of a percent (so `1250` means
//! `12.5%`), and travels on the wire as a plain decimal such as
//! `12.5`, `0.25` or `100`.

use vstd::prelude::*;
use crate::chars::{
    digit_char, digit_val, is_digit, digit_to_char, char_to_digit, index_of_from,
    lemma_index_of_from, lemma_digit_char_val, find_char_from, subrange_chars,
};

verus! {

/// Decimal digits of a natural number, most significant first.
pub open spec fn nat_chars(n: nat) -> Seq<char>
    decreases n,
{
    if n < 10 {
        seq![digit_char(n as int)]
    } else {
        nat_chars(n / 10).push(digit_char((n % 10) as int))
    }
}

/// Every character is an ASCII decimal digit.
pub open spec fn all_digits(s: Seq<char>) -> bool {
    forall|i: int| 0 <= i < s.len() ==> is_digit(#[trigger] s[i])
}

/// Value of a digit string read in base ten.
pub open spec fn digits_value(s: Seq<char>) -> int
    decreases s.len(),
{
    if s.len() == 0 {
        0
    } else {
        digits_value(s.drop_last()) * 10 + digit_val(s.last())
    }
}

pub proof fn lemma_digits_value_nonneg(s: Seq<char>)
    requires
        all_digits(s),
    ensures
        digits_value(s) >= 0,
    decreases s.len(),
{
    if s.len() > 0 {
        assert(all_digits(s.drop_last()));
        lemma_digits_value_nonneg(s.drop_last());
    }
}

/// Printing then reading a natural number gives it back.
pub proof fn lemma_nat_chars_value(n: nat)
    ensures
        nat_chars(n).len() >= 1,
        all_digits(nat_chars(n)),
        digits_value(nat_chars(n)) == n,
    decreases n,
{
    if n < 10 {
        lemma_digit_char_val(n as int);
        assert(nat_chars(n).drop_last() =~= Seq::<char>::empty());
        assert(digits_value(Seq::<char>::empty()) == 0);
    } else {
        lemma_nat_chars_value(n / 10);
        lemma_digit_char_val((n % 10) as int);
        assert(nat_chars(n / 10).push(digit_char((n % 10) as int)).drop_last() =~= nat_chars(
            n / 10,
        ));
    }
}

pub fn u64_to_chars(n: u64) -> (v: Vec<char>)
    ensures
        v@ == nat_chars(n as nat),
    decreases n,
{
    if n < 10 {
        let mut v: Vec<char> = Vec::new();
        v.push(digit_to_char(n as u8));
        proof {
            assert(v@ =~= nat_chars(n as nat));
        }
        v
    } else {
        let mut v = u64_to_chars(n / 10);
        v.push(digit_to_char((n % 10) as u8));
        v
    }
}

/// The value of a prefix never exceeds the value of the whole digit
/// string.
pub proof fn lemma_digits_prefix_le(s: Seq<char>, k: int)
    requires
        all_digits(s),
        0 <= k <= s.len(),
    ensures
        digits_value(s.subrange(0, k)) <= digits_value(s),
    decreases s.len() - k,
{
    if k < s.len() {
        lemma_digits_prefix_le(s, k + 1);
        let a = s.subrange(0, k);
        let b = s.subrange(0, k + 1);
        assert(b.drop_last() =~= a);
        assert(all_digits(a));
        lemma_digits_value_nonneg(a);
        assert(digits_value(b) == digits_value(a) * 10 + digit_val(s[k]));
    } else {
        assert(s.subrange(0, k) =~= s);
    }
}

/// A non-empty, all-digit string whose value fits reads as that
/// value; anything else fails.
pub open spec fn parse_u64(s: Seq<char>) -> Option<u64> {
    if s.len() >= 1 && all_digits(s) && digits_value(s) <= u64::MAX {
        Some(digits_value(s) as u64)
    } else {
        None
    }
}

pub fn parse_u64_chars(v: &Vec<char>) -> (r: Option<u64>)
    ensures
        r == parse_u64(v@),
{
    if v.len() == 0 {
        return None;
    }
    let vlen: usize = v.len();
    let mut acc: u64 = 0;
    let mut i: usize = 0;
    while i < vlen
        invariant
            0 <= i <= vlen,
            vlen == v@.len(),
            all_digits(v@.subrange(0, i as int)),
            acc == digits_value(v@.subrange(0, i as int)),
        decreases vlen - i,
    {
        let d = match char_to_digit(v[i]) {
            Some(d) => d,
            None => {
                return None;
            },
        };
        proof {
            assert(v@.subrange(0, i + 1 as int).drop_last() =~= v@.subrange(0, i as int));
            lemma_digits_value_nonneg(v@.subrange(0, i as int));
        }
        if acc > (u64::MAX - (d as u64)) / 10 {
            proof {
                assert(digits_value(v@.subrange(0, i + 1 as int)) > u64::MAX);
                if all_digits(v@) {
                    lemma_digits_prefix_le(v@, i + 1 as int);
                }
            }
            return None;
        }
        acc = acc * 10 + (d as u64);
        i = i + 1;
    }
    proof {
        assert(v@.subrange(0, vlen as int) =~= v@);
    }
    Some(acc)
}

/// Decimal form of a (possibly negative) integer.
pub open spec fn int_chars(n: int) -> Seq<char> {
    if n < 0 {
        seq!['-'] + nat_chars((-n) as nat)
    } else {
        nat_chars(n as nat)
    }
}

pub fn i64_to_chars(n: i64) -> (v: Vec<char>)
    ensures
        v@ == int_chars(n as int),
{
    if n >= 0 {
        u64_to_chars(n as u64)
    } else {
        let mag: u64 = if n == i64::MIN {
            9223372036854775808u64
        } else {
            (-n) as u64
        };
        let digits = u64_to_chars(mag);
        let mut v: Vec<char> = Vec::new();
        v.push('-');
        let mut i: usize = 0;
        let dlen: usize = digits.len();
        while i < dlen
            invariant
                0 <= i <= dlen,
                dlen == digits@.len(),
                v@ == seq!['-'] + digits@.subrange(0, i as int),
            decreases dlen - i,
        {
            v.push(digits[i]);
            proof {
                assert(seq!['-'] + digits@.subrange(0, i + 1 as int) =~= (seq!['-']
                    + digits@.subrange(0, i as int)).push(digits@[i as int]));
            }
            i = i + 1;
        }
        proof {
            assert(digits@.subrange(0, digits@.len() as int) =~= digits@);
            assert(mag as int == -(n as int));
        }
        v
    }
}

/// Signed decimal parse: an optional leading minus sign, then digits;
/// the value must fit in an `i64`.
pub open spec fn parse_i64(s: Seq<char>) -> Option<i64> {
    if s.len() >= 1 && s[0] == '-' {
        let t = s.subrange(1, s.len() as int);
        if t.len() >= 1 && all_digits(t) && digits_value(t) <= 0x8000000000000000 {
            Some((-digits_value(t)) as i64)
        } else {
            None
        }
    } else {
        if s.len() >= 1 && all_digits(s) && digits_value(s) <= i64::MAX {
            Some(digits_value(s) as i64)
        } else {
            None
        }
    }
}

pub fn parse_i64_chars(v: &Vec<char>) -> (r: Option<i64>)
    ensures
        r == parse_i64(v@),
{
    if v.len() == 0 {
        return None;
    }
    if v[0] == '-' {
        let t = subrange_chars(v, 1, v.len());
        match parse_u64_chars(&t) {
            Some(mag) => {
                proof {
                    lemma_digits_value_nonneg(t@);
                }
                if mag > 9223372036854775808u64 {
                    return None;
                }
                if mag == 9223372036854775808u64 {
                    Some(i64::MIN)
                } else {
                    Some(-(mag as i64))
                }
            },
            None => None,
        }
    } else {
        match parse_u64_chars(v) {
            Some(mag) => {
                proof {
                    lemma_digits_value_nonneg(v@);
                }
                if mag > i64::MAX as u64 {
                    return None;
                }
                Some(mag as i64)
            },
            None => None,
        }
    }
}

/// Printing then reading an integer gives it back.
pub proof fn lemma_int_chars_round_trip(n: int)
    requires
        i64::MIN <= n <= i64::MAX,
    ensures
        parse_i64(int_chars(n)) == Some(n as i64),
{
    if n < 0 {
        lemma_nat_chars_value((-n) as nat);
        let s = seq!['-'] + nat_chars((-n) as nat);
        assert(s.subrange(1, s.len() as int) =~= nat_chars((-n) as nat));
    } else {
        lemma_nat_chars_value(n as nat);
        let s = nat_chars(n as nat);
        assert(s[0] != '-') by {
            assert(is_digit(s[0]));
        }
    }
}

/// Wire form of a percentage held in hundredths: the integer part,
/// then a fractional part of at most two digits with trailing zeros
/// trimmed; `1250` prints as `12.5`, `10000` as `100`.
pub open spec fn pct_chars(p: int) -> Seq<char> {
    let ip = p / 100;
    let fr = p % 100;
    if fr == 0 {
        nat_chars(ip as nat)
    } else if fr % 10 == 0 {
        nat_chars(ip as nat) + seq!['.', digit_char(fr / 10)]
    } else {
        nat_chars(ip as nat) + seq!['.', digit_char(fr / 10), digit_char(fr % 10)]
    }
}

pub fn pct_to_chars(p: u32) -> (v: Vec<char>)
    ensures
        v@ == pct_chars(p as int),
{
    let ip: u32 = p / 100;
    let fr: u32 = p % 100;
    let mut v = u64_to_chars(ip as u64);
    if fr == 0 {
        v
    } else if fr % 10 == 0 {
        v.push('.');
        v.push(digit_to_char((fr / 10) as u8));
        proof {
            assert(v@ =~= pct_chars(p as int));
        }
        v
    } else {
        v.push('.');
        v.push(digit_to_char((fr / 10) as u8));
        v.push(digit_to_char((fr % 10) as u8));
        proof {
            assert(v@ =~= pct_chars(p as int));
        }
        v
    }
}

/// Reading a percentage: digits, optionally a dot and one or two
/// fractional digits; the value in hundredths must fit in a `u32`.
pub open spec fn parse_pct(s: Seq<char>) -> Option<u32> {
    let dot = index_of_from(s, '.', 0);
    if dot == s.len() {
        match parse_u64(s) {
            Some(v) => if v * 100 <= u32::MAX {
                Some((v * 100) as u32)
            } else {
                None
            },
            None => None,
        }
    } else {
        let ip_part = s.subrange(0, dot);
        let fr_part = s.subrange(dot + 1, s.len() as int);
        if !(1 <= fr_part.len() <= 2 && all_digits(fr_part)) {
            None
        } else {
            let fr = if fr_part.len() == 1 {
                10 * digit_val(fr_part[0])
            } else {
                10 * digit_val(fr_part[0]) + digit_val(fr_part[1])
            };
            match parse_u64(ip_part) {
                Some(v) => if v * 100 + fr <= u32::MAX {
                    Some((v * 100 + fr) as u32)
                } else {
                    None
                },
                None => None,
            }
        }
    }
}

pub fn parse_pct_chars(v: &Vec<char>) -> (r: Option<u32>)
    ensures
        r == parse_pct(v@),
{
    let dot = find_char_from(v, '.', 0);
    proof {
        lemma_index_of_from(v@, '.', 0);
    }
    if dot == v.len() {
        match parse_u64_chars(v) {
            Some(x) => {
                if x <= u32::MAX as u64 / 100 {
                    Some((x as u32) * 100)
                } else {
                    None
                }
            },
            None => None,
        }
    } else {
        let ip_part = subrange_chars(v, 0, dot);
        let fr_part = subrange_chars(v, dot + 1, v.len());
        if fr_part.len() < 1 || fr_part.len() > 2 {
            return None;
        }
        let d0 = match char_to_digit(fr_part[0]) {
            Some(d) => d,
            None => {
                return None;
            },
        };
        let fr: u32 = if fr_part.len() == 1 {
            10 * (d0 as u32)
        } else {
            let d1 = match char_to_digit(fr_part[1]) {
                Some(d) => d,
                None => {
                    proof {
                        assert(!all_digits(fr_part@));
                    }
                    return None;
                },
            };
            10 * (d0 as u32) + (d1 as u32)
        };
        proof {
            assert(all_digits(fr_part@)) by {
                assert(forall|i: int|
                    0 <= i < fr_part@.len() ==> is_digit(#[trigger] fr_part@[i])) by {
                    assert(is_digit(fr_part@[0]));
                    if fr_part@.len() == 2 {
                        assert(is_digit(fr_part@[1]));
                    }
                }
            }
        }
        match parse_u64_chars(&ip_part) {
            Some(x) => {
                if x <= u32::MAX as u64 / 100 {
                    let total: u64 = x * 100 + fr as u64;
                    if total <= u32::MAX as u64 {
                        Some(total as u32)
                    } else {
                        None
                    }
                } else {
                    None
                }
            },
            None => None,
        }
    }
}

/// Printing then reading a percentage gives it back.
pub proof fn lemma_pct_round_trip(p: u32)
    ensures
        parse_pct(pct_chars(p as int)) == Some(p),
{
    let ip = p as int / 100;
    let fr = p as int % 100;
    lemma_nat_chars_value(ip as nat);
    let d = nat_chars(ip as nat);
    if fr == 0 {
        assert(forall|i: int| 0 <= i < d.len() ==> d[i] != '.') by {
            assert(forall|i: int| 0 <= i < d.len() ==> is_digit(#[trigger] d[i]));
        }
        lemma_index_of_none(d, '.', 0);
        assert(parse_pct(d) == Some(p));
    } else {
        let s = pct_chars(p as int);
        assert(forall|i: int| 0 <= i < d.len() ==> #[trigger] s[i] == d[i]);
        assert(s[d.len() as int] == '.');
        lemma_index_of_is(s, '.', 0, d.len() as int);
        assert(s.subrange(0, d.len() as int) =~= d);
        if fr % 10 == 0 {
            lemma_digit_char_val(fr / 10);
            assert(s.subrange(d.len() as int + 1, s.len() as int) =~= seq![digit_char(fr / 10)]);
        } else {
            lemma_digit_char_val(fr / 10);
            lemma_digit_char_val(fr % 10);
            assert(s.subrange(d.len() as int + 1, s.len() as int) =~= seq![
                digit_char(fr / 10),
                digit_char(fr % 10),
            ]);
        }
    }
}

/// When `c` does not occur at or after `from`, the search returns the
/// length.
pub proof fn lemma_index_of_none(s: Seq<char>, c: char, from: int)
    requires
        0 <= from <= s.len(),
        forall|j: int| from <= j < s.len() ==> s[j] != c,
    ensures
        index_of_from(s, c, from) == s.len(),
    decreases s.len() - from,
{
    if from < s.len() {
        lemma_index_of_none(s, c, from + 1);
    }
}

/// When `c` first occurs at `k` (counting from `from`), the search
/// returns `k`.
pub proof fn lemma_index_of_is(s: Seq<char>, c: char, from: int, k: int)
    requires
        0 <= from <= k < s.len(),
        s[k] == c,
        forall|j: int| from <= j < k ==> s[j] != c,
    ensures
        index_of_from(s, c, from) == k,
    decreases k - from,
{
    if from < k {
        lemma_index_of_is(s, c, from + 1, k);
    }
}

} // verus!
