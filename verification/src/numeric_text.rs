//! Recognizers for the numeric text an OBJ file carries: the decimal
//! float syntax `str::parse::<f32>` accepts, and `i64` parsing.
use vstd::prelude::*;
use crate::text::{ascii_lower_seq, is_word, lower_chars};

verus! {

pub open spec fn is_digit(c: char) -> bool {
    '0' <= c && c <= '9'
}

pub open spec fn all_digits(s: Seq<char>) -> bool {
    forall|i: int| 0 <= i < s.len() ==> #[trigger] is_digit(s[i])
}

/// `s` with one leading `+` or `-` removed.
pub open spec fn strip_sign(s: Seq<char>) -> Seq<char> {
    if s.len() > 0 && (s[0] == '+' || s[0] == '-') { s.drop_first() } else { s }
}

/// Index of the first `c` in `s`, or `s.len()` if there is none.
pub open spec fn find_char(s: Seq<char>, c: char) -> int
    decreases s.len(),
{
    if s.len() == 0 {
        0
    } else if s[0] == c {
        0
    } else {
        1 + find_char(s.drop_first(), c)
    }
}

/// Index of the first `e` or `E`, or `s.len()`.
pub open spec fn find_exponent(s: Seq<char>) -> int
    decreases s.len(),
{
    if s.len() == 0 {
        0
    } else if s[0] == 'e' || s[0] == 'E' {
        0
    } else {
        1 + find_exponent(s.drop_first())
    }
}

/// `Digit+`, `Digit+ '.' Digit*` or `Digit* '.' Digit+`.
pub open spec fn valid_mantissa(m: Seq<char>) -> bool {
    let d = find_char(m, '.');
    if d == m.len() {
        m.len() > 0 && all_digits(m)
    } else {
        all_digits(m.take(d)) && all_digits(m.skip(d + 1)) && m.len() > 1
    }
}

/// `Sign? Digit+`.
pub open spec fn valid_exponent(e: Seq<char>) -> bool {
    strip_sign(e).len() > 0 && all_digits(strip_sign(e))
}

/// The syntax `f32::from_str` accepts: `Sign? ('inf' | 'infinity' | 'nan'
/// | Number)` with the words case-insensitive, and `Number` a mantissa
/// optionally followed by `e`/`E` and an exponent.
pub open spec fn is_float_literal(s: Seq<char>) -> bool {
    let b = strip_sign(s);
    let l = ascii_lower_seq(b);
    ||| l == "inf"@
    ||| l == "infinity"@
    ||| l == "nan"@
    ||| {
        let e = find_exponent(b);
        if e == b.len() {
            valid_mantissa(b)
        } else {
            valid_mantissa(b.take(e)) && valid_exponent(b.skip(e + 1))
        }
    }
}

proof fn lemma_find_char_bounds(s: Seq<char>, c: char)
    ensures
        0 <= find_char(s, c) <= s.len(),
        find_char(s, c) < s.len() ==> s[find_char(s, c)] == c,
        forall|i: int| 0 <= i < find_char(s, c) ==> s[i] != c,
    decreases s.len(),
{
    if s.len() > 0 && s[0] != c {
        lemma_find_char_bounds(s.drop_first(), c);
        assert forall|i: int| 0 <= i < find_char(s, c) implies s[i] != c by {
            if i > 0 {
                assert(s[i] == s.drop_first()[i - 1]);
            }
        }
    }
}

proof fn lemma_find_exponent_bounds(s: Seq<char>)
    ensures
        0 <= find_exponent(s) <= s.len(),
        find_exponent(s) < s.len() ==> (s[find_exponent(s)] == 'e' || s[find_exponent(s)] == 'E'),
        forall|i: int| 0 <= i < find_exponent(s) ==> s[i] != 'e' && s[i] != 'E',
    decreases s.len(),
{
    if s.len() > 0 && s[0] != 'e' && s[0] != 'E' {
        lemma_find_exponent_bounds(s.drop_first());
        assert forall|i: int| 0 <= i < find_exponent(s) implies s[i] != 'e' && s[i] != 'E' by {
            if i > 0 {
                assert(s[i] == s.drop_first()[i - 1]);
            }
        }
    }
}

pub(crate) proof fn lemma_find_char_unique(s: Seq<char>, c: char, k: int)
    requires
        0 <= k <= s.len(),
        k < s.len() ==> s[k] == c,
        forall|i: int| 0 <= i < k ==> s[i] != c,
    ensures
        find_char(s, c) == k,
    decreases s.len(),
{
    lemma_find_char_bounds(s, c);
    if find_char(s, c) < k {
        assert(s[find_char(s, c)] == c);
    } else if find_char(s, c) > k {
        assert(s[k] == c);
    }
}

proof fn lemma_find_exponent_unique(s: Seq<char>, k: int)
    requires
        0 <= k <= s.len(),
        k < s.len() ==> (s[k] == 'e' || s[k] == 'E'),
        forall|i: int| 0 <= i < k ==> s[i] != 'e' && s[i] != 'E',
    ensures
        find_exponent(s) == k,
{
    lemma_find_exponent_bounds(s);
    if find_exponent(s) < k {
        let j = find_exponent(s);
        assert(s[j] == 'e' || s[j] == 'E');
    } else if find_exponent(s) > k {
        assert(s[k] == 'e' || s[k] == 'E');
    }
}

fn digit_char(c: char) -> (r: bool)
    ensures
        r == is_digit(c),
{
    '0' <= c && c <= '9'
}

/// Whether `s[from..to]` is all digits.
fn digits_between(s: &[char], from: usize, to: usize) -> (r: bool)
    requires
        from <= to <= s@.len(),
    ensures
        r == all_digits(s@.subrange(from as int, to as int)),
{
    let mut i = from;
    while i < to
        invariant
            from <= i <= to <= s@.len(),
            forall|j: int| from <= j < i ==> is_digit(s@[j]),
        decreases to - i,
    {
        if !digit_char(s[i]) {
            assert(!is_digit(s@.subrange(from as int, to as int)[i - from]));
            return false;
        }
        i = i + 1;
    }
    assert forall|j: int| 0 <= j < to - from implies #[trigger] is_digit(s@.subrange(from as int, to as int)[j]) by {
        assert(s@.subrange(from as int, to as int)[j] == s@[from + j]);
    }
    true
}

/// `valid_mantissa` of `s[from..to]`.
fn mantissa_between(s: &[char], from: usize, to: usize) -> (r: bool)
    requires
        from <= to <= s@.len(),
    ensures
        r == valid_mantissa(s@.subrange(from as int, to as int)),
{
    let ghost m = s@.subrange(from as int, to as int);
    let mut d = from;
    while d < to && s[d] != '.'
        invariant
            from <= d <= to <= s@.len(),
            forall|j: int| from <= j < d ==> s@[j] != '.',
        decreases to - d,
    {
        d = d + 1;
    }
    proof {
        assert forall|i: int| 0 <= i < d - from implies m[i] != '.' by {
            assert(m[i] == s@[from + i]);
        }
        lemma_find_char_unique(m, '.', d - from);
    }
    if d == to {
        to > from && digits_between(s, from, to)
    } else {
        assert(m.take(d - from) =~= s@.subrange(from as int, d as int));
        assert(m.skip(d - from + 1) =~= s@.subrange(d + 1, to as int));
        digits_between(s, from, d) && digits_between(s, d + 1, to) && to - from > 1
    }
}

/// `valid_exponent` of `s[from..to]`.
fn exponent_between(s: &[char], from: usize, to: usize) -> (r: bool)
    requires
        from <= to <= s@.len(),
    ensures
        r == valid_exponent(s@.subrange(from as int, to as int)),
{
    let ghost e = s@.subrange(from as int, to as int);
    if from < to && (s[from] == '+' || s[from] == '-') {
        assert(strip_sign(e) =~= s@.subrange(from + 1, to as int));
        from + 1 < to && digits_between(s, from + 1, to)
    } else {
        assert(strip_sign(e) =~= e);
        from < to && digits_between(s, from, to)
    }
}

/// Whether `s` is text `f32::from_str` accepts.
pub fn float_literal(s: &[char]) -> (r: bool)
    ensures
        r == is_float_literal(s@),
{
    let start: usize = if s.len() > 0 && (s[0] == '+' || s[0] == '-') { 1 } else { 0 };
    let ghost b = strip_sign(s@);
    assert(b =~= s@.subrange(start as int, s@.len() as int));
    let body = slice_from(s, start);
    let lowered = lower_chars(body.as_slice());
    if is_word(lowered.as_slice(), "inf") || is_word(lowered.as_slice(), "infinity") || is_word(lowered.as_slice(), "nan") {
        return true;
    }
    let n = body.len();
    let mut e: usize = 0;
    while e < n && body[e] != 'e' && body[e] != 'E'
        invariant
            n == body@.len(),
            e <= n,
            forall|j: int| 0 <= j < e ==> body@[j] != 'e' && body@[j] != 'E',
        decreases n - e,
    {
        e = e + 1;
    }
    proof {
        lemma_find_exponent_unique(body@, e as int);
    }
    if e == n {
        assert(body@.subrange(0, n as int) =~= body@);
        mantissa_between(body.as_slice(), 0, n)
    } else {
        assert(body@.subrange(0, e as int) =~= body@.take(e as int));
        assert(body@.subrange(e + 1, n as int) =~= body@.skip(e + 1));
        mantissa_between(body.as_slice(), 0, e) && exponent_between(body.as_slice(), e + 1, n)
    }
}

/// A copy of `s[from..]`.
pub fn slice_from(s: &[char], from: usize) -> (r: Vec<char>)
    requires
        from <= s@.len(),
    ensures
        r@ == s@.subrange(from as int, s@.len() as int),
{
    let mut r: Vec<char> = Vec::new();
    let mut i = from;
    while i < s.len()
        invariant
            from <= i <= s@.len(),
            r@ == s@.subrange(from as int, i as int),
        decreases s@.len() - i,
    {
        r.push(s[i]);
        i = i + 1;
        assert(r@ =~= s@.subrange(from as int, i as int));
    }
    r
}

/// The decimal value of a digit string.
pub open spec fn digits_value(s: Seq<char>) -> int
    decreases s.len(),
{
    if s.len() == 0 {
        0
    } else {
        digits_value(s.drop_last()) * 10 + (s.last() as int - '0' as int)
    }
}

/// What `str::parse::<i64>` yields: an optional sign, at least one
/// digit, and a value within `i64`'s range.
pub open spec fn parse_i64_spec(s: Seq<char>) -> Option<i64> {
    let body = strip_sign(s);
    if body.len() == 0 || !all_digits(body) {
        None
    } else {
        let v = if s[0] == '-' { -digits_value(body) } else { digits_value(body) };
        if i64::MIN <= v && v <= i64::MAX { Some(v as i64) } else { None }
    }
}

proof fn lemma_digits_value_grows(s: Seq<char>, k: int)
    requires
        0 <= k <= s.len(),
        all_digits(s),
    ensures
        digits_value(s.take(k)) <= digits_value(s),
        0 <= digits_value(s.take(k)),
    decreases s.len() - k,
{
    if k < s.len() {
        lemma_digits_value_grows(s, k + 1);
        assert(s.take(k + 1).drop_last() =~= s.take(k));
        assert(is_digit(s[k]));
        assert(s.take(k + 1).last() == s[k]);
    } else {
        assert(s.take(k) =~= s);
        lemma_digits_nonneg(s);
    }
}

proof fn lemma_digits_nonneg(s: Seq<char>)
    requires
        all_digits(s),
    ensures
        0 <= digits_value(s),
    decreases s.len(),
{
    if s.len() > 0 {
        assert(is_digit(s[s.len() - 1]));
        lemma_digits_nonneg(s.drop_last());
    }
}

/// Parses `s` as `i64`.
pub fn parse_i64(s: &[char]) -> (r: Option<i64>)
    ensures
        r == parse_i64_spec(s@),
{
    let start: usize = if s.len() > 0 && (s[0] == '+' || s[0] == '-') { 1 } else { 0 };
    let negative = s.len() > 0 && s[0] == '-';
    let ghost body = strip_sign(s@);
    assert(body =~= s@.subrange(start as int, s@.len() as int));
    if start == s.len() {
        return None;
    }
    if !digits_between(s, start, s.len()) {
        return None;
    }
    let limit: u64 = 0x8000_0000_0000_0000;
    let mut value: u64 = 0;
    let mut i = start;
    while i < s.len()
        invariant
            start <= i <= s@.len(),
            body == s@.subrange(start as int, s@.len() as int),
            body == strip_sign(s@),
            all_digits(body),
            value == digits_value(body.take(i - start)),
            value <= limit,
            limit == 0x8000_0000_0000_0000u64,
        decreases s@.len() - i,
    {
        assert(is_digit(body[i - start]));
        assert(is_digit(s@[i as int]));
        let d = (s[i] as u32 - '0' as u32) as u64;
        assert(d <= 9);
        assert(body.take(i - start + 1).drop_last() =~= body.take(i - start));
        assert(body.take(i - start + 1).last() == s@[i as int]);
        if value > (limit - d) / 10 {
            proof {
                assert(value * 10 + d > limit) by (nonlinear_arith)
                    requires
                        value > (limit - d) / 10,
                        d <= 9,
                        limit == 0x8000_0000_0000_0000u64,
                ;
                lemma_digits_value_grows(body, i - start + 1);
                let t = body.take(i - start + 1);
                assert(digits_value(t) == digits_value(t.drop_last()) * 10 + (t.last() as int - '0' as int));
                assert(digits_value(t) == value * 10 + d);
                assert(digits_value(body) > limit);
                assert(body.len() > 0);
            }
            return None;
        }
        value = value * 10 + d;
        i = i + 1;
    }
    assert(body.take(body.len() as int) =~= body);
    if negative {
        if value == limit {
            Some(i64::MIN)
        } else {
            Some(-(value as i64))
        }
    } else if value == limit {
        None
    } else {
        Some(value as i64)
    }
}

} // verus!
