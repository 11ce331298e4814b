//! Decimal numbers as they appear in `@listspecs` sheets.
//!
//! A `Number` keeps the exact text of a floating-point literal that Rust's
//! `f64` parser accepts. Converting it to a float is left to the caller.

use vstd::prelude::*;
use crate::text::{is_digit, string_of};

verus! {

/// The code point of `c` with ASCII letters lowercased.
pub open spec fn lower(c: char) -> int {
    if 'A' <= c <= 'Z' {
        (c as u32) + 32
    } else {
        c as u32 as int
    }
}

pub open spec fn is_sign(c: char) -> bool {
    c == '+' || c == '-'
}

/// `s` equals the lowercase word `w` up to ASCII case.
pub open spec fn eq_ignore_case(s: Seq<char>, w: Seq<char>) -> bool {
    s.len() == w.len() && forall|i: int| 0 <= i < s.len() ==> lower(#[trigger] s[i]) == w[i] as u32 as int
}

pub open spec fn all_digits(s: Seq<char>) -> bool {
    forall|i: int| 0 <= i < s.len() ==> is_digit(#[trigger] s[i])
}

/// The first index at or after `i` holding `c` (or its other case when
/// `c2` is the same letter in the other case).
pub open spec fn index_of2(s: Seq<char>, c1: char, c2: char, i: int) -> Option<int>
    decreases s.len() - i,
{
    if i < 0 || i >= s.len() {
        None
    } else if s[i] == c1 || s[i] == c2 {
        Some(i)
    } else {
        index_of2(s, c1, c2, i + 1)
    }
}

/// `Digit+ | Digit+ '.' Digit* | Digit* '.' Digit+`
pub open spec fn is_decimal(s: Seq<char>) -> bool {
    match index_of2(s, '.', '.', 0) {
        None => s.len() > 0 && all_digits(s),
        Some(k) => s.len() >= 2 && all_digits(s.take(k)) && all_digits(s.skip(k + 1)),
    }
}

/// `Sign? Digit+`
pub open spec fn is_exponent_digits(s: Seq<char>) -> bool {
    let u = if s.len() > 0 && is_sign(s[0]) {
        s.skip(1)
    } else {
        s
    };
    u.len() > 0 && all_digits(u)
}

/// `Decimal ('e' Sign? Digit+)?`, the exponent letter in either case.
pub open spec fn is_number(s: Seq<char>) -> bool {
    match index_of2(s, 'e', 'E', 0) {
        None => is_decimal(s),
        Some(e) => is_decimal(s.take(e)) && is_exponent_digits(s.skip(e + 1)),
    }
}

/// Whether Rust's `f64` parser accepts `s`: an optional sign followed by
/// `inf`, `infinity`, `nan` (any case) or a decimal number with an optional
/// exponent.
pub open spec fn is_float_literal(s: Seq<char>) -> bool {
    let b = if s.len() > 0 && is_sign(s[0]) {
        s.skip(1)
    } else {
        s
    };
    eq_ignore_case(b, seq!['i', 'n', 'f']) || eq_ignore_case(
        b,
        seq!['i', 'n', 'f', 'i', 'n', 'i', 't', 'y'],
    ) || eq_ignore_case(b, seq!['n', 'a', 'n']) || is_number(b)
}

/// The value of a string of decimal digits.
pub open spec fn digits_value(s: Seq<char>) -> nat
    decreases s.len(),
{
    if s.len() == 0 {
        0
    } else {
        10 * digits_value(s.drop_last()) + (s.last() as u32 - '0' as u32) as nat
    }
}

/// What `str::parse::<i64>` gives for a nonempty string of digits.
pub open spec fn parse_i64_digits(s: Seq<char>) -> Option<i64> {
    if s.len() == 0 || digits_value(s) > i64::MAX {
        None
    } else {
        Some(digits_value(s) as i64)
    }
}

fn all_digits_range(s: &[char], lo: usize, hi: usize) -> (r: bool)
    requires
        lo <= hi <= s@.len(),
    ensures
        r == all_digits(s@.subrange(lo as int, hi as int)),
{
    let mut k = lo;
    while k < hi
        invariant
            lo <= k <= hi <= s@.len(),
            forall|m: int| lo <= m < k ==> is_digit(#[trigger] s@[m]),
        decreases hi - k,
    {
        if !('0' <= s[k] && s[k] <= '9') {
            assert(!is_digit(s@.subrange(lo as int, hi as int)[k - lo]));
            return false;
        }
        k = k + 1;
    }
    assert forall|i: int| 0 <= i < hi - lo implies is_digit(
        #[trigger] s@.subrange(lo as int, hi as int)[i],
    ) by {
        assert(s@.subrange(lo as int, hi as int)[i] == s@[lo + i]);
    }
    true
}

fn index_of2_range(s: &[char], c1: char, c2: char, lo: usize, hi: usize) -> (r: Option<usize>)
    requires
        lo <= hi <= s@.len(),
    ensures
        r matches Some(k) ==> index_of2(s@.subrange(lo as int, hi as int), c1, c2, 0) == Some(
            k - lo,
        ) && lo <= k < hi,
        r is None ==> index_of2(s@.subrange(lo as int, hi as int), c1, c2, 0) is None,
{
    let ghost t = s@.subrange(lo as int, hi as int);
    let mut k = lo;
    while k < hi
        invariant
            lo <= k <= hi <= s@.len(),
            t == s@.subrange(lo as int, hi as int),
            index_of2(t, c1, c2, k - lo) == index_of2(t, c1, c2, 0),
        decreases hi - k,
    {
        if s[k] == c1 || s[k] == c2 {
            assert(t[k - lo] == s@[k as int]);
            return Some(k);
        }
        assert(t[k - lo] == s@[k as int]);
        k = k + 1;
    }
    None
}

pub(crate) fn eq_ignore_case_range(s: &[char], lo: usize, hi: usize, w: &[char]) -> (r: bool)
    requires
        lo <= hi <= s@.len(),
    ensures
        r == eq_ignore_case(s@.subrange(lo as int, hi as int), w@),
{
    if hi - lo != w.len() {
        return false;
    }
    let mut k: usize = 0;
    while k < w.len()
        invariant
            lo <= hi <= s@.len(),
            hi - lo == w@.len(),
            k <= w@.len(),
            forall|m: int| 0 <= m < k ==> lower(#[trigger] s@[lo + m]) == w@[m] as u32 as int,
        decreases w@.len() - k,
    {
        let c = s[lo + k];
        let l: u32 = if 'A' <= c && c <= 'Z' {
            (c as u32) + 32
        } else {
            c as u32
        };
        if l != w[k] as u32 {
            assert(s@.subrange(lo as int, hi as int)[k as int] == c);
            return false;
        }
        k = k + 1;
    }
    assert forall|i: int| 0 <= i < hi - lo implies lower(
        #[trigger] s@.subrange(lo as int, hi as int)[i],
    ) == w@[i] as u32 as int by {
        assert(s@.subrange(lo as int, hi as int)[i] == s@[lo + i]);
    }
    true
}

fn is_decimal_range(s: &[char], lo: usize, hi: usize) -> (r: bool)
    requires
        lo <= hi <= s@.len(),
    ensures
        r == is_decimal(s@.subrange(lo as int, hi as int)),
{
    let ghost t = s@.subrange(lo as int, hi as int);
    match index_of2_range(s, '.', '.', lo, hi) {
        None => hi > lo && all_digits_range(s, lo, hi),
        Some(k) => {
            assert(t.take(k - lo) =~= s@.subrange(lo as int, k as int));
            assert(t.skip(k - lo + 1) =~= s@.subrange(k + 1, hi as int));
            hi - lo >= 2 && all_digits_range(s, lo, k) && all_digits_range(s, k + 1, hi)
        },
    }
}

fn is_number_range(s: &[char], lo: usize, hi: usize) -> (r: bool)
    requires
        lo <= hi <= s@.len(),
    ensures
        r == is_number(s@.subrange(lo as int, hi as int)),
{
    let ghost t = s@.subrange(lo as int, hi as int);
    match index_of2_range(s, 'e', 'E', lo, hi) {
        None => is_decimal_range(s, lo, hi),
        Some(e) => {
            assert(t.take(e - lo) =~= s@.subrange(lo as int, e as int));
            let ghost u = t.skip(e - lo + 1);
            assert(u =~= s@.subrange(e + 1, hi as int));
            if !is_decimal_range(s, lo, e) {
                return false;
            }
            let start = if e + 1 < hi && (s[e + 1] == '+' || s[e + 1] == '-') {
                assert(u[0] == s@[e + 1]);
                assert(u.skip(1) =~= s@.subrange(e + 2, hi as int));
                e + 2
            } else {
                e + 1
            };
            start < hi && all_digits_range(s, start, hi)
        },
    }
}

/// Whether Rust's `f64` parser accepts the characters.
pub fn is_float_literal_exec(s: &[char]) -> (r: bool)
    ensures
        r == is_float_literal(s@),
{
    let n = s.len();
    let lo: usize = if n > 0 && (s[0] == '+' || s[0] == '-') {
        1
    } else {
        0
    };
    assert(s@.subrange(lo as int, n as int) =~= (if s@.len() > 0 && is_sign(s@[0]) {
        s@.skip(1)
    } else {
        s@
    }));
    let mut inf = Vec::new();
    inf.push('i');
    inf.push('n');
    inf.push('f');
    let mut infinity = Vec::new();
    infinity.push('i');
    infinity.push('n');
    infinity.push('f');
    infinity.push('i');
    infinity.push('n');
    infinity.push('i');
    infinity.push('t');
    infinity.push('y');
    let mut nan = Vec::new();
    nan.push('n');
    nan.push('a');
    nan.push('n');
    assert(inf@ =~= seq!['i', 'n', 'f']);
    assert(infinity@ =~= seq!['i', 'n', 'f', 'i', 'n', 'i', 't', 'y']);
    assert(nan@ =~= seq!['n', 'a', 'n']);
    eq_ignore_case_range(s, lo, n, inf.as_slice()) || eq_ignore_case_range(
        s,
        lo,
        n,
        infinity.as_slice(),
    ) || eq_ignore_case_range(s, lo, n, nan.as_slice()) || is_number_range(s, lo, n)
}

proof fn lemma_digits_value_prefix(s: Seq<char>, k: int)
    requires
        0 <= k <= s.len(),
    ensures
        digits_value(s.take(k)) <= digits_value(s),
    decreases s.len() - k,
{
    if k < s.len() {
        lemma_digits_value_prefix(s, k + 1);
        assert(s.take(k + 1).drop_last() =~= s.take(k));
    } else {
        assert(s.take(k) =~= s);
    }
}

/// `str::parse::<i64>` on a string of decimal digits.
pub fn parse_i64_exec(s: &[char]) -> (r: Option<i64>)
    requires
        all_digits(s@),
    ensures
        r == parse_i64_digits(s@),
{
    if s.len() == 0 {
        return None;
    }
    let mut acc: i64 = 0;
    let mut k: usize = 0;
    while k < s.len()
        invariant
            k <= s@.len(),
            all_digits(s@),
            0 <= acc,
            acc == digits_value(s@.take(k as int)),
        decreases s@.len() - k,
    {
        assert(is_digit(s@[k as int]));
        let d = (s[k] as u32 - '0' as u32) as i64;
        assert(s@.take(k + 1).drop_last() =~= s@.take(k as int));
        assert(s@.take(k + 1).last() == s@[k as int]);
        assert(digits_value(s@.take(k + 1)) == 10 * acc + d);
        if acc > (i64::MAX - d) / 10 {
            proof {
                lemma_digits_value_prefix(s@, k + 1);
                assert(10 * acc + d > i64::MAX) by (nonlinear_arith)
                    requires
                        acc > (i64::MAX - d) / 10,
                        0 <= d <= 9,
                ;
            }
            return None;
        }
        assert(acc * 10 + d <= i64::MAX) by (nonlinear_arith)
            requires
                acc <= (i64::MAX - d) / 10,
                0 <= d <= 9,
                0 <= acc,
        ;
        acc = acc * 10 + d;
        k = k + 1;
    }
    assert(s@.take(s@.len() as int) =~= s@);
    Some(acc)
}

/// The exact text of a floating-point literal.
pub struct Number {
    text: String,
}

impl View for Number {
    type V = Seq<char>;

    closed spec fn view(&self) -> Seq<char> {
        self.text@
    }
}

impl DeepView for Number {
    type V = Seq<char>;

    open spec fn deep_view(&self) -> Seq<char> {
        self@
    }
}

impl Number {
    #[verifier::type_invariant]
    closed spec fn inv(self) -> bool {
        is_float_literal(self.text@)
    }

    /// The literal's text; Rust's `f64` parser accepts it.
    pub fn as_str(&self) -> (r: &str)
        ensures
            r@ == self@,
            is_float_literal(r@),
    {
        proof {
            use_type_invariant(self);
        }
        self.text.as_str()
    }

    /// The literal `0`.
    pub fn zero() -> (r: Number)
        ensures
            r@ == seq!['0'],
    {
        let mut v = Vec::new();
        v.push('0');
        assert(v@ =~= seq!['0']);
        assert(is_decimal(v@)) by {
            assert(index_of2(v@, '.', '.', 1) is None);
        }
        assert(is_number(v@)) by {
            assert(index_of2(v@, 'e', 'E', 1) is None);
        }
        Number { text: string_of(v.as_slice()) }
    }

    /// The characters as a number, when they are a floating-point literal.
    pub fn parse(v: &[char]) -> (r: Option<Number>)
        ensures
            r is Some <==> is_float_literal(v@),
            r matches Some(n) ==> n@ == v@,
    {
        if is_float_literal_exec(v) {
            Some(Number { text: string_of(v) })
        } else {
            None
        }
    }
}

impl Clone for Number {
    fn clone(&self) -> (r: Self)
        ensures
            r@ == self@,
    {
        proof {
            use_type_invariant(self);
        }
        Number { text: self.text.clone() }
    }
}

} // verus!
