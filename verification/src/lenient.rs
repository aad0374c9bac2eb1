//! How form values, which are all text, are read as booleans and integers: surrounding
//! whitespace is ignored, booleans ignore ASCII case, integers read as Rust's `FromStr`.

use vstd::prelude::*;
use crate::form::{all_digits, digits_value, lemma_digits_grow};
use crate::text::{ascii_lower, chars_eq_ignore_case, eq_ignore_case, first_non_ws, is_ws, last_non_ws, spec_trim, to_chars, trim_range};

verus! {

/// The words read as `true`.
pub open spec fn true_word(t: Seq<char>) -> bool {
    ||| eq_ignore_case(t, seq!['1'])
    ||| eq_ignore_case(t, seq!['t', 'r', 'u', 'e'])
    ||| eq_ignore_case(t, seq!['o', 'n'])
    ||| eq_ignore_case(t, seq!['y', 'e', 's'])
}

/// The words read as `false` (the empty text among them).
pub open spec fn false_word(t: Seq<char>) -> bool {
    ||| eq_ignore_case(t, seq!['0'])
    ||| eq_ignore_case(t, seq!['f', 'a', 'l', 's', 'e'])
    ||| eq_ignore_case(t, seq!['o', 'f', 'f'])
    ||| eq_ignore_case(t, seq!['n', 'o'])
    ||| t.len() == 0
}

/// A form value as a boolean: `1`, `true`, `on`, `yes` are true; `0`, `false`, `off`, `no`
/// and the empty text are false (ASCII case and surrounding whitespace ignored); anything
/// else is no boolean.
pub open spec fn spec_lenient_bool(s: Seq<char>) -> Option<bool> {
    let t = spec_trim(s);
    if true_word(t) {
        Some(true)
    } else if false_word(t) {
        Some(false)
    } else {
        None
    }
}

/// An unsigned integer as `u64::from_str` reads it: an optional `+`, then at least one
/// digit, the value fitting in a `u64`.
pub open spec fn parse_unsigned(s: Seq<char>) -> Option<nat> {
    let d = if s.len() > 0 && s[0] == '+' { s.drop_first() } else { s };
    if d.len() > 0 && all_digits(d) && digits_value(d) <= u64::MAX { Some(digits_value(d)) } else { None }
}

/// A signed integer as `i64::from_str` reads it: an optional `+` or `-`, then at least one
/// digit, the value fitting in an `i64`.
pub open spec fn parse_signed(s: Seq<char>) -> Option<int> {
    if s.len() > 0 && s[0] == '-' {
        let d = s.drop_first();
        if d.len() > 0 && all_digits(d) && digits_value(d) <= 0x8000_0000_0000_0000 {
            Some(-(digits_value(d) as int))
        } else {
            None
        }
    } else {
        match parse_unsigned(s) {
            Some(n) => if n <= i64::MAX { Some(n as int) } else { None },
            None => None,
        }
    }
}

/// The text of `v[start..]` as a decimal `u64`: `None` unless it is one or more digits of
/// a value that fits.
fn digits_u64(v: &Vec<char>, start: usize) -> (r: Option<u64>)
    requires
        start <= v@.len(),
    ensures
        ({
            let d = v@.subrange(start as int, v@.len() as int);
            match r {
                Some(n) => d.len() > 0 && all_digits(d) && digits_value(d) == n as nat,
                None => !(d.len() > 0 && all_digits(d) && digits_value(d) <= u64::MAX),
            }
        }),
{
    let ghost d = v@.subrange(start as int, v@.len() as int);
    if start >= v.len() {
        return None;
    }
    let mut value: u64 = 0;
    let mut i: usize = start;
    while i < v.len()
        invariant
            start <= i <= v@.len(),
            d == v@.subrange(start as int, v@.len() as int),
            all_digits(v@.subrange(start as int, i as int)),
            value as nat == digits_value(v@.subrange(start as int, i as int)),
        decreases v@.len() - i,
    {
        let c = v[i];
        assert(v@.subrange(start as int, i + 1).drop_last() == v@.subrange(start as int, i as int));
        if !('0' <= c && c <= '9') {
            assert(!all_digits(d)) by {
                assert(d[i - start] == c);
            }
            return None;
        }
        let digit = (c as u32 - 48) as u64;
        if value > (u64::MAX - digit) / 10 {
            proof {
                lemma_digits_grow(d, (i + 1 - start) as int);
                assert(d.subrange(0, i + 1 - start) == v@.subrange(start as int, i + 1));
            }
            assert(!(digits_value(d) <= u64::MAX)) by (nonlinear_arith)
                requires
                    value as nat * 10 + digit > u64::MAX,
                    digits_value(d) >= value as nat * 10 + digit,
            {
            }
            return None;
        }
        value = value * 10 + digit;
        i = i + 1;
    }
    assert(v@.subrange(start as int, v@.len() as int) == d);
    Some(value)
}

fn trimmed(s: &str) -> (r: Vec<char>)
    ensures
        r@ == spec_trim(s@),
{
    let v = to_chars(s);
    assert(v@.subrange(0, v@.len() as int) == v@);
    trim_range(&v, 0, v.len())
}

/// A form value as a boolean; see [`spec_lenient_bool`].
pub fn lenient_bool(s: &str) -> (r: Option<bool>)
    ensures
        r == spec_lenient_bool(s@),
{
    let t = trimmed(s);
    let one = ['1'];
    let tru = ['t', 'r', 'u', 'e'];
    let on = ['o', 'n'];
    let yes = ['y', 'e', 's'];
    let zero = ['0'];
    let fals = ['f', 'a', 'l', 's', 'e'];
    let off = ['o', 'f', 'f'];
    let no = ['n', 'o'];
    assert(one@ == seq!['1']);
    assert(tru@ == seq!['t', 'r', 'u', 'e']);
    assert(on@ == seq!['o', 'n']);
    assert(yes@ == seq!['y', 'e', 's']);
    assert(zero@ == seq!['0']);
    assert(fals@ == seq!['f', 'a', 'l', 's', 'e']);
    assert(off@ == seq!['o', 'f', 'f']);
    assert(no@ == seq!['n', 'o']);
    if chars_eq_ignore_case(&t, &one) || chars_eq_ignore_case(&t, &tru) || chars_eq_ignore_case(&t, &on)
        || chars_eq_ignore_case(&t, &yes) {
        Some(true)
    } else if chars_eq_ignore_case(&t, &zero) || chars_eq_ignore_case(&t, &fals)
        || chars_eq_ignore_case(&t, &off) || chars_eq_ignore_case(&t, &no) || t.len() == 0 {
        Some(false)
    } else {
        None
    }
}

/// A form value as an unsigned integer: [`parse_unsigned`] of the trimmed text.
pub fn lenient_u64(s: &str) -> (r: Option<u64>)
    ensures
        match r {
            Some(n) => parse_unsigned(spec_trim(s@)) == Some(n as nat),
            None => parse_unsigned(spec_trim(s@)) is None,
        },
{
    let t = trimmed(s);
    let start: usize = if t.len() > 0 && t[0] == '+' { 1 } else { 0 };
    let ghost u = spec_trim(s@);
    assert(t@.subrange(start as int, t@.len() as int) == if u.len() > 0 && u[0] == '+' { u.drop_first() } else { u });
    digits_u64(&t, start)
}

/// A form value as a signed integer: [`parse_signed`] of the trimmed text.
pub fn lenient_i64(s: &str) -> (r: Option<i64>)
    ensures
        match r {
            Some(n) => parse_signed(spec_trim(s@)) == Some(n as int),
            None => parse_signed(spec_trim(s@)) is None,
        },
{
    let t = trimmed(s);
    let ghost u = spec_trim(s@);
    if t.len() > 0 && t[0] == '-' {
        assert(t@.subrange(1, t@.len() as int) == u.drop_first());
        match digits_u64(&t, 1) {
            Some(m) => {
                if m < 0x8000_0000_0000_0000 {
                    Some(-(m as i64))
                } else if m == 0x8000_0000_0000_0000 {
                    Some(i64::MIN)
                } else {
                    None
                }
            },
            None => None,
        }
    } else {
        let start: usize = if t.len() > 0 && t[0] == '+' { 1 } else { 0 };
        assert(t@.subrange(start as int, t@.len() as int) == if u.len() > 0 && u[0] == '+' { u.drop_first() } else { u });
        match digits_u64(&t, start) {
            Some(m) => {
                if m <= 0x7fff_ffff_ffff_ffff {
                    Some(m as i64)
                } else {
                    None
                }
            },
            None => None,
        }
    }
}

/// Characters equal up to ASCII case are alike whitespace or not.
proof fn lemma_ws_ignores_case(a: char, b: char)
    requires
        ascii_lower(a) == ascii_lower(b),
    ensures
        is_ws(a) == is_ws(b),
{
}

proof fn lemma_first_non_ws_ignores_case(s1: Seq<char>, s2: Seq<char>, from: int)
    requires
        eq_ignore_case(s1, s2),
        0 <= from <= s1.len(),
    ensures
        first_non_ws(s1, from) == first_non_ws(s2, from),
    decreases s1.len() - from,
{
    if from < s1.len() {
        lemma_ws_ignores_case(s1[from], s2[from]);
        lemma_first_non_ws_ignores_case(s1, s2, from + 1);
    }
}

proof fn lemma_last_non_ws_ignores_case(s1: Seq<char>, s2: Seq<char>, lo: int, to: int)
    requires
        eq_ignore_case(s1, s2),
        0 <= lo <= to <= s1.len(),
    ensures
        last_non_ws(s1, lo, to) == last_non_ws(s2, lo, to),
    decreases to - lo,
{
    if to > lo {
        lemma_ws_ignores_case(s1[to - 1], s2[to - 1]);
        lemma_last_non_ws_ignores_case(s1, s2, lo, to - 1);
    }
}

proof fn lemma_trim_ignores_case(s1: Seq<char>, s2: Seq<char>)
    requires
        eq_ignore_case(s1, s2),
    ensures
        eq_ignore_case(spec_trim(s1), spec_trim(s2)),
{
    lemma_first_non_ws_ignores_case(s1, s2, 0);
    let a = first_non_ws(s1, 0);
    crate::text::lemma_first_non_ws(s1, 0);
    lemma_last_non_ws_ignores_case(s1, s2, a, s1.len() as int);
    crate::text::lemma_last_non_ws(s1, a, s1.len() as int);
    let b = last_non_ws(s1, a, s1.len() as int);
    assert forall|i: int| 0 <= i < b - a implies ascii_lower(#[trigger] spec_trim(s1)[i]) == ascii_lower(spec_trim(s2)[i]) by {
        assert(spec_trim(s1)[i] == s1[a + i]);
        assert(spec_trim(s2)[i] == s2[a + i]);
    }
}

proof fn lemma_word_ignores_case(t1: Seq<char>, t2: Seq<char>, w: Seq<char>)
    requires
        eq_ignore_case(t1, t2),
    ensures
        eq_ignore_case(t1, w) == eq_ignore_case(t2, w),
{
    if eq_ignore_case(t1, w) {
        assert forall|i: int| 0 <= i < t2.len() implies ascii_lower(#[trigger] t2[i]) == ascii_lower(w[i]) by {
            assert(ascii_lower(t1[i]) == ascii_lower(t2[i]));
        }
    }
    if eq_ignore_case(t2, w) {
        assert forall|i: int| 0 <= i < t1.len() implies ascii_lower(#[trigger] t1[i]) == ascii_lower(w[i]) by {
            assert(ascii_lower(t1[i]) == ascii_lower(t2[i]));
        }
    }
}

/// Reading a boolean ignores ASCII case: two texts that differ only in the case of ASCII
/// letters (`Yes`, `YES`, `yes`) read alike.
pub proof fn lemma_bool_ignores_case(s1: Seq<char>, s2: Seq<char>)
    requires
        eq_ignore_case(s1, s2),
    ensures
        spec_lenient_bool(s1) == spec_lenient_bool(s2),
{
    lemma_trim_ignores_case(s1, s2);
    let t1 = spec_trim(s1);
    let t2 = spec_trim(s2);
    lemma_word_ignores_case(t1, t2, seq!['1']);
    lemma_word_ignores_case(t1, t2, seq!['t', 'r', 'u', 'e']);
    lemma_word_ignores_case(t1, t2, seq!['o', 'n']);
    lemma_word_ignores_case(t1, t2, seq!['y', 'e', 's']);
    lemma_word_ignores_case(t1, t2, seq!['0']);
    lemma_word_ignores_case(t1, t2, seq!['f', 'a', 'l', 's', 'e']);
    lemma_word_ignores_case(t1, t2, seq!['o', 'f', 'f']);
    lemma_word_ignores_case(t1, t2, seq!['n', 'o']);
}

} // verus!
