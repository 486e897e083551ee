//! Native scalar parsing: raw string values into primitive field values.
//!
//! Each parser's contract pins its result down exactly; the format
//! specifications describe the canonical text of a scalar value and the
//! round-trip lemmas show that parsing a formatted value gives the value
//! back.

use vstd::prelude::*;

use crate::field_type::is_digit;

verus! {

/// The numeric value of a digit character.
pub open spec fn digit_val(c: char) -> int {
    c as u32 - 48
}

/// The value of a digit string read most significant first.
pub open spec fn digits_val(s: Seq<char>) -> int
    decreases s.len(),
{
    if s.len() == 0 {
        0
    } else {
        digits_val(s.drop_last()) * 10 + digit_val(s.last())
    }
}

/// Every character of `s` is a decimal digit.
pub open spec fn all_digits(s: Seq<char>) -> bool {
    forall|i: int| 0 <= i < s.len() ==> is_digit(#[trigger] s[i])
}

/// The signed decimal integer `s` denotes: an optional leading minus sign,
/// then one or more digits, with the value in range for `i64`.
pub open spec fn parse_i64_spec(s: Seq<char>) -> Option<i64> {
    if s.len() > 0 && s[0] == '-' {
        let d = s.subrange(1, s.len() as int);
        if d.len() > 0 && all_digits(d) && -digits_val(d) >= i64::MIN {
            Some((-digits_val(d)) as i64)
        } else {
            None
        }
    } else if s.len() > 0 && all_digits(s) && digits_val(s) <= i64::MAX {
        Some(digits_val(s) as i64)
    } else {
        None
    }
}

/// The text `true`.
pub open spec fn true_text() -> Seq<char> {
    seq!['t', 'r', 'u', 'e']
}

/// The text `false`.
pub open spec fn false_text() -> Seq<char> {
    seq!['f', 'a', 'l', 's', 'e']
}

/// The boolean `s` denotes: exactly the texts `true` and `false`.
pub open spec fn parse_bool_spec(s: Seq<char>) -> Option<bool> {
    if s == true_text() {
        Some(true)
    } else if s == false_text() {
        Some(false)
    } else {
        None
    }
}

/// The character `s` denotes: `s` itself when it is one character long.
pub open spec fn parse_char_spec(s: Seq<char>) -> Option<char> {
    if s.len() == 1 {
        Some(s[0])
    } else {
        None
    }
}

/// The digit character for a value in `0 ..= 9`.
pub open spec fn digit_char_of(d: int) -> char {
    if d == 0 {
        '0'
    } else if d == 1 {
        '1'
    } else if d == 2 {
        '2'
    } else if d == 3 {
        '3'
    } else if d == 4 {
        '4'
    } else if d == 5 {
        '5'
    } else if d == 6 {
        '6'
    } else if d == 7 {
        '7'
    } else if d == 8 {
        '8'
    } else {
        '9'
    }
}

/// The decimal digits of a non-negative value, empty for zero.
pub open spec fn fmt_nat(v: int) -> Seq<char>
    decreases v,
{
    if v <= 0 {
        Seq::empty()
    } else {
        fmt_nat(v / 10).push(digit_char_of(v % 10))
    }
}

/// The canonical decimal text of a signed integer.
pub open spec fn fmt_i64_spec(v: i64) -> Seq<char> {
    if v == 0 {
        seq!['0']
    } else if v > 0 {
        fmt_nat(v as int)
    } else {
        seq!['-'] + fmt_nat(-(v as int))
    }
}

/// The canonical text of a boolean.
pub open spec fn fmt_bool_spec(b: bool) -> Seq<char> {
    if b {
        true_text()
    } else {
        false_text()
    }
}

/// The canonical text of a character.
pub open spec fn fmt_char_spec(c: char) -> Seq<char> {
    seq![c]
}

/// A digit string denotes a non-negative value.
pub proof fn lemma_digits_val_nonneg(s: Seq<char>)
    requires
        all_digits(s),
    ensures
        digits_val(s) >= 0,
    decreases s.len(),
{
    if s.len() > 0 {
        assert(all_digits(s.drop_last())) by {
            assert(forall|i: int| 0 <= i < s.len() - 1 ==> s.drop_last()[i] == #[trigger] s[i]);
        }
        lemma_digits_val_nonneg(s.drop_last());
        assert(is_digit(s.last()));
    }
}

/// Extending a digit string to the right never shrinks its value.
pub proof fn lemma_digits_val_prefix(t: Seq<char>, k: int)
    requires
        all_digits(t),
        0 <= k <= t.len(),
    ensures
        digits_val(t) >= digits_val(t.subrange(0, k)),
    decreases t.len() - k,
{
    if k < t.len() {
        lemma_digits_val_prefix(t, k + 1);
        let p = t.subrange(0, k + 1);
        assert(p.drop_last() =~= t.subrange(0, k));
        assert(all_digits(t.subrange(0, k))) by {
            assert(forall|i: int| 0 <= i < k ==> t.subrange(0, k)[i] == #[trigger] t[i]);
        }
        lemma_digits_val_nonneg(t.subrange(0, k));
        assert(is_digit(p.last()));
        assert(digits_val(p) == digits_val(t.subrange(0, k)) * 10 + digit_val(t[k]));
    } else {
        assert(t.subrange(0, k) =~= t);
    }
}

/// The formatted digits of `v` are digits whose value is `v`.
pub proof fn lemma_fmt_nat(v: int)
    requires
        v >= 0,
    ensures
        all_digits(fmt_nat(v)),
        digits_val(fmt_nat(v)) == v,
        v > 0 ==> fmt_nat(v).len() > 0,
    decreases v,
{
    if v > 0 {
        lemma_fmt_nat(v / 10);
        let s = fmt_nat(v);
        assert(s.drop_last() =~= fmt_nat(v / 10));
        assert(is_digit(digit_char_of(v % 10)));
        assert(digit_val(digit_char_of(v % 10)) == v % 10);
        assert(digits_val(s) == (v / 10) * 10 + v % 10);
        assert(all_digits(s)) by {
            assert(forall|i: int| 0 <= i < s.len() - 1 ==> s[i] == #[trigger] fmt_nat(v / 10)[i]);
        }
    }
}

/// Round trip: parsing the canonical decimal text of any `i64` gives that
/// value back.
pub proof fn lemma_parse_fmt_i64(v: i64)
    ensures
        parse_i64_spec(fmt_i64_spec(v)) == Some(v),
{
    if v == 0 {
        let s = fmt_i64_spec(v);
        assert(s[0] == '0');
        assert(s.drop_last() =~= Seq::<char>::empty());
        assert(digits_val(Seq::<char>::empty()) == 0);
        assert(digits_val(s) == digits_val(Seq::<char>::empty()) * 10 + digit_val('0'));
    } else if v > 0 {
        lemma_fmt_nat(v as int);
        let s = fmt_i64_spec(v);
        assert(is_digit(s[0]));
        assert(s[0] != '-');
    } else {
        lemma_fmt_nat(-(v as int));
        let s = fmt_i64_spec(v);
        assert(s[0] == '-');
        let d = s.subrange(1, s.len() as int);
        assert(d =~= fmt_nat(-(v as int)));
        assert(digits_val(d) == -(v as int));
        assert((-digits_val(d)) as i64 == v);
    }
}

/// Round trip: parsing the canonical text of a boolean gives it back.
pub proof fn lemma_parse_fmt_bool(b: bool)
    ensures
        parse_bool_spec(fmt_bool_spec(b)) == Some(b),
{
    assert(true_text().len() != false_text().len());
}

/// Round trip: parsing the canonical text of a character gives it back.
pub proof fn lemma_parse_fmt_char(c: char)
    ensures
        parse_char_spec(fmt_char_spec(c)) == Some(c),
{
}

/// Parse a signed decimal integer: an optional leading minus sign, then one
/// or more digits; rejects anything else and any value out of `i64` range.
pub fn parse_i64(s: &str) -> (r: Option<i64>)
    ensures
        r == parse_i64_spec(s@),
{
    let n = s.unicode_len();
    if n == 0 {
        return None;
    }
    let neg = s.get_char(0) == '-';
    let start: usize = if neg {
        1
    } else {
        0
    };
    if n - start == 0 {
        return None;
    }
    let ghost seg = s@.subrange(start as int, n as int);
    proof {
        if !neg {
            assert(seg =~= s@);
        }
    }
    let limit: u64 = if neg {
        9223372036854775808
    } else {
        9223372036854775807
    };
    let mut acc: u64 = 0;
    let mut i: usize = start;
    while i < n
        invariant
            start <= i <= n,
            n == s@.len(),
            start < n,
            start == if neg { 1int } else { 0int },
            neg == (s@[0] == '-'),
            seg == s@.subrange(start as int, n as int),
            !neg ==> seg == s@,
            limit == if neg { 9223372036854775808u64 } else { 9223372036854775807u64 },
            all_digits(seg.subrange(0, i - start)),
            acc == digits_val(seg.subrange(0, i - start)),
            acc <= limit,
        decreases n - i,
    {
        let c = s.get_char(i);
        let cv = c as u32;
        proof {
            assert(seg[i - start] == s@[i as int]);
        }
        if cv < 48 || cv > 57 {
            proof {
                assert(!is_digit(seg[i - start]));
            }
            return None;
        }
        let d = (cv - 48) as u64;
        proof {
            assert(is_digit(seg[i - start]));
            assert(d == digit_val(seg[i - start]));
        }
        let ghost prev = seg.subrange(0, i - start);
        let ghost cur = seg.subrange(0, i + 1 - start);
        proof {
            assert(cur.drop_last() =~= prev);
            assert(cur.last() == seg[i - start]);
            assert(digits_val(cur) == digits_val(prev) * 10 + digit_val(seg[i - start]));
            assert(all_digits(cur)) by {
                assert(forall|j: int| 0 <= j < cur.len() - 1 ==> cur[j] == #[trigger] prev[j]);
            }
        }
        if acc > limit / 10 || (acc == limit / 10 && d > limit % 10) {
            proof {
                assert(digits_val(cur) > limit);
                if all_digits(seg) {
                    lemma_digits_val_prefix(seg, i + 1 - start);
                    assert(digits_val(seg) > limit);
                }
            }
            return None;
        }
        acc = acc * 10 + d;
        i += 1;
    }
    proof {
        assert(seg.subrange(0, n - start) =~= seg);
    }
    if neg {
        if acc == 9223372036854775808 {
            return Some(i64::MIN);
        }
        Some(-(acc as i64))
    } else {
        Some(acc as i64)
    }
}

/// Parse a boolean: exactly the texts `true` and `false`.
pub fn parse_bool(s: &str) -> (r: Option<bool>)
    ensures
        r == parse_bool_spec(s@),
{
    let n = s.unicode_len();
    if n == 4 {
        if s.get_char(0) == 't' && s.get_char(1) == 'r' && s.get_char(2) == 'u' && s.get_char(3)
            == 'e' {
            proof {
                assert(s@ =~= true_text());
            }
            return Some(true);
        }
        proof {
            if s@ == true_text() {
                assert(s@[0] == 't' && s@[1] == 'r' && s@[2] == 'u' && s@[3] == 'e');
            }
        }
        return None;
    }
    if n == 5 {
        if s.get_char(0) == 'f' && s.get_char(1) == 'a' && s.get_char(2) == 'l' && s.get_char(3)
            == 's' && s.get_char(4) == 'e' {
            proof {
                assert(s@ =~= false_text());
            }
            return Some(false);
        }
        proof {
            if s@ == false_text() {
                assert(s@[0] == 'f' && s@[1] == 'a' && s@[2] == 'l' && s@[3] == 's' && s@[4]
                    == 'e');
            }
        }
        return None;
    }
    None
}

/// Parse a character: the raw value must be exactly one character long.
pub fn parse_char(s: &str) -> (r: Option<char>)
    ensures
        r == parse_char_spec(s@),
{
    if s.unicode_len() == 1 {
        Some(s.get_char(0))
    } else {
        None
    }
}

} // verus!
