use vstd::prelude::*;
use crate::text::chars_eq_str;

verus! {
pub open spec fn is_digit(c: char) -> bool {
    '0' <= c && c <= '9'
}

pub open spec fn digit_value(c: char) -> nat {
    ((c as u32) - ('0' as u32)) as nat
}

pub open spec fn all_digits(s: Seq<char>) -> bool {
    forall|i: int| 0 <= i < s.len() ==> #[trigger] is_digit(s[i])
}

/// The value of a sequence of decimal digits.
pub open spec fn digits_value(s: Seq<char>) -> nat
    decreases s.len(),
{
    if s.len() == 0 {
        0
    } else {
        digits_value(s.drop_last()) * 10 + digit_value(s.last())
    }
}

pub open spec fn is_sign(c: char) -> bool {
    c == '+' || c == '-'
}

/// The text without its leading sign, if it has one.
pub open spec fn unsigned_part(s: Seq<char>) -> Seq<char> {
    if s.len() > 0 && is_sign(s[0]) {
        s.drop_first()
    } else {
        s
    }
}

/// What `i64::from_str` accepts: an optional sign and at least one decimal
/// digit, with a value in the range of `i64`.
pub open spec fn int_literal(t: Seq<char>) -> Option<int> {
    let body = unsigned_part(t);
    if body.len() == 0 || !all_digits(body) {
        None
    } else {
        let v: int = if t[0] == '-' { -(digits_value(body) as int) } else { digits_value(body) as int };
        if i64::MIN <= v && v <= i64::MAX {
            Some(v)
        } else {
            None
        }
    }
}

proof fn lemma_digits_value_grows(s: Seq<char>, k: int)
    requires
        0 <= k <= s.len(),
    ensures
        digits_value(s.subrange(0, k)) <= digits_value(s),
    decreases s.len(),
{
    if k < s.len() {
        assert(s.drop_last() =~= s.subrange(0, s.len() - 1));
        lemma_digits_value_grows(s.drop_last(), k);
        assert(s.drop_last().subrange(0, k) =~= s.subrange(0, k));
    } else {
        assert(s.subrange(0, k) =~= s);
    }
}

fn char_is_digit(c: char) -> (r: bool)
    ensures
        r == is_digit(c),
{
    '0' <= c && c <= '9'
}

/// Reads a decimal integer the way `i64::from_str` does.
pub fn parse_int(v: &Vec<char>) -> (r: Option<i64>)
    ensures
        match r {
            Some(n) => int_literal(v@) == Some(n as int),
            None => int_literal(v@).is_none(),
        },
{
    let mut start: usize = 0;
    let mut neg = false;
    if v.len() > 0 && (v[0] == '+' || v[0] == '-') {
        neg = v[0] == '-';
        start = 1;
    }
    let ghost body = unsigned_part(v@);
    assert(body =~= v@.subrange(start as int, v@.len() as int));
    if start == v.len() {
        return None;
    }
    let mut mag: u64 = 0;
    let mut i: usize = start;
    while i < v.len()
        invariant
            start <= i <= v.len(),
            body == v@.subrange(start as int, v@.len() as int),
            body == unsigned_part(v@),
            body.len() > 0,
            neg == (v@[0] == '-'),
            mag as nat == digits_value(body.subrange(0, i - start)),
            mag <= 9223372036854775808u64,
            all_digits(body.subrange(0, i - start)),
        decreases v.len() - i,
    {
        let c = v[i];
        if !char_is_digit(c) {
            assert(!is_digit(body[i - start]));
            assert(!all_digits(body));
            assert(body == unsigned_part(v@));
            assert(int_literal(v@).is_none());
            return None;
        }
        let d: u64 = ((c as u32) - ('0' as u32)) as u64;
        assert(body.subrange(0, i + 1 - start).drop_last() =~= body.subrange(0, i - start));
        if mag > (9223372036854775808u64 - d) / 10 {
            proof {
                assert(digits_value(body.subrange(0, i + 1 - start)) > 9223372036854775808);
                if all_digits(body) {
                    lemma_digits_value_grows(body, i + 1 - start);
                    assert(digits_value(body) > 9223372036854775808);
                }
                assert(int_literal(v@).is_none());
            }
            return None;
        }
        mag = mag * 10 + d;
        i = i + 1;
        assert forall|j: int| 0 <= j < i - start implies #[trigger] is_digit(body.subrange(0, i - start)[j]) by {
            if j < i - 1 - start {
                assert(body.subrange(0, i - start)[j] == body.subrange(0, i - 1 - start)[j]);
            }
        }
    }
    assert(body.subrange(0, i - start) =~= body);
    if neg {
        if mag == 9223372036854775808u64 {
            Some(i64::MIN)
        } else {
            Some(-(mag as i64))
        }
    } else {
        if mag <= 9223372036854775807u64 {
            Some(mag as i64)
        } else {
            None
        }
    }
}

/// ASCII letters in lower case; other characters unchanged.
pub open spec fn ascii_lower(c: char) -> char {
    if 'A' <= c && c <= 'Z' {
        ((c as u32) + 32) as char
    } else {
        c
    }
}

pub open spec fn lower(s: Seq<char>) -> Seq<char> {
    Seq::new(s.len(), |i: int| ascii_lower(s[i]))
}

/// The position of the first `c` in `s`, or `s.len()` when there is none.
pub open spec fn first_index(s: Seq<char>, c: char) -> int
    decreases s.len(),
{
    if s.len() == 0 {
        0
    } else if s[0] == c {
        0
    } else {
        1 + first_index(s.drop_first(), c)
    }
}

/// `Digit+ | Digit+ '.' Digit* | Digit* '.' Digit+`
pub open spec fn mantissa_ok(m: Seq<char>) -> bool {
    let d = first_index(m, '.');
    if d >= m.len() {
        m.len() > 0 && all_digits(m)
    } else {
        &&& all_digits(m.subrange(0, d))
        &&& all_digits(m.subrange(d + 1, m.len() as int))
        &&& (d > 0 || d + 1 < m.len())
    }
}

/// `Sign? Digit+`
pub open spec fn exponent_ok(x: Seq<char>) -> bool {
    let y = unsigned_part(x);
    y.len() > 0 && all_digits(y)
}

/// `Number ::= ( Digit+ | Digit+ '.' Digit* | Digit* '.' Digit+ ) Exp?` with `Exp ::= 'e' Sign? Digit+`
pub open spec fn decimal_number(b: Seq<char>) -> bool {
    let k = first_index(b, 'e');
    if k >= b.len() {
        mantissa_ok(b)
    } else {
        mantissa_ok(b.subrange(0, k)) && exponent_ok(b.subrange(k + 1, b.len() as int))
    }
}

/// What `f64::from_str` accepts: the text, in lower case, is
/// `Sign? ( 'inf' | 'infinity' | 'nan' | Number )`.
pub open spec fn float_literal(t: Seq<char>) -> bool {
    let b = unsigned_part(lower(t));
    b == "inf"@ || b == "infinity"@ || b == "nan"@ || decimal_number(b)
}

fn lower_chars(v: &Vec<char>) -> (w: Vec<char>)
    ensures
        w@ == lower(v@),
{
    let mut w: Vec<char> = Vec::new();
    let mut i: usize = 0;
    while i < v.len()
        invariant
            i <= v.len(),
            w@ == lower(v@).subrange(0, i as int),
        decreases v.len() - i,
    {
        let c = v[i];
        let l = if 'A' <= c && c <= 'Z' {
            let code: u32 = (c as u32) + 32;
            assert(0x61 <= code <= 0x7a);
            char_from_ascii_letter(code)
        } else {
            c
        };
        w.push(l);
        i = i + 1;
        assert(w@ =~= lower(v@).subrange(0, i as int));
    }
    assert(lower(v@).subrange(0, v.len() as int) =~= lower(v@));
    w
}

fn char_from_ascii_letter(code: u32) -> (c: char)
    requires
        0x61 <= code <= 0x7a,
    ensures
        c == code as char,
{
    if code == 0x61 { 'a' } else if code == 0x62 { 'b' } else if code == 0x63 { 'c' }
    else if code == 0x64 { 'd' } else if code == 0x65 { 'e' } else if code == 0x66 { 'f' }
    else if code == 0x67 { 'g' } else if code == 0x68 { 'h' } else if code == 0x69 { 'i' }
    else if code == 0x6a { 'j' } else if code == 0x6b { 'k' } else if code == 0x6c { 'l' }
    else if code == 0x6d { 'm' } else if code == 0x6e { 'n' } else if code == 0x6f { 'o' }
    else if code == 0x70 { 'p' } else if code == 0x71 { 'q' } else if code == 0x72 { 'r' }
    else if code == 0x73 { 's' } else if code == 0x74 { 't' } else if code == 0x75 { 'u' }
    else if code == 0x76 { 'v' } else if code == 0x77 { 'w' } else if code == 0x78 { 'x' }
    else if code == 0x79 { 'y' } else { 'z' }
}

/// Whether `v[lo..hi]` holds only decimal digits.
fn digits_in(v: &Vec<char>, lo: usize, hi: usize) -> (r: bool)
    requires
        lo <= hi <= v.len(),
    ensures
        r == all_digits(v@.subrange(lo as int, hi as int)),
{
    let mut i = lo;
    while i < hi
        invariant
            lo <= i <= hi <= v.len(),
            all_digits(v@.subrange(lo as int, i as int)),
        decreases hi - i,
    {
        if !char_is_digit(v[i]) {
            assert(!is_digit(v@.subrange(lo as int, hi as int)[i - lo]));
            return false;
        }
        i = i + 1;
        assert forall|j: int| 0 <= j < i - lo implies #[trigger] is_digit(v@.subrange(lo as int, i as int)[j]) by {
            if j < i - 1 - lo {
                assert(v@.subrange(lo as int, i as int)[j] == v@.subrange(lo as int, i - 1)[j]);
            }
        }
    }
    true
}

proof fn lemma_first_index_bounds(s: Seq<char>, c: char)
    ensures
        0 <= first_index(s, c) <= s.len(),
        first_index(s, c) < s.len() ==> s[first_index(s, c)] == c,
        forall|j: int| 0 <= j < first_index(s, c) ==> s[j] != c,
    decreases s.len(),
{
    if s.len() > 0 && s[0] != c {
        lemma_first_index_bounds(s.drop_first(), c);
        assert forall|j: int| 0 <= j < first_index(s, c) implies s[j] != c by {
            if j > 0 {
                assert(s[j] == s.drop_first()[j - 1]);
            }
        }
    }
}

proof fn lemma_first_index_sub(v: Seq<char>, lo: int, hi: int, c: char, k: int)
    requires
        0 <= lo <= k <= hi <= v.len(),
        forall|j: int| lo <= j < k ==> v[j] != c,
        k == hi || v[k] == c,
    ensures
        first_index(v.subrange(lo, hi), c) == k - lo,
    decreases k - lo,
{
    if lo < k {
        lemma_first_index_sub(v, lo + 1, hi, c, k);
        assert(v.subrange(lo, hi).drop_first() =~= v.subrange(lo + 1, hi));
    } else if k < hi {
        assert(v.subrange(lo, hi)[0] == c);
    }
}

/// The position of the first `c` in `v[lo..hi]`, counted from `lo`, or `hi - lo`.
fn find_in(v: &Vec<char>, lo: usize, hi: usize, c: char) -> (k: usize)
    requires
        lo <= hi <= v.len(),
    ensures
        k as int == first_index(v@.subrange(lo as int, hi as int), c),
        lo + k <= hi,
{
    let mut i = lo;
    while i < hi && v[i] != c
        invariant
            lo <= i <= hi <= v.len(),
            forall|j: int| lo <= j < i ==> v@[j] != c,
        decreases hi - i,
    {
        i = i + 1;
    }
    proof {
        lemma_first_index_sub(v@, lo as int, hi as int, c, i as int);
    }
    i - lo
}

fn mantissa_ok_in(v: &Vec<char>, lo: usize, hi: usize) -> (r: bool)
    requires
        lo <= hi <= v.len(),
    ensures
        r == mantissa_ok(v@.subrange(lo as int, hi as int)),
{
    let ghost m = v@.subrange(lo as int, hi as int);
    let d = find_in(v, lo, hi, '.');
    if lo + d >= hi {
        hi > lo && digits_in(v, lo, hi)
    } else {
        assert(m.subrange(0, d as int) =~= v@.subrange(lo as int, (lo + d) as int));
        assert(m.subrange(d + 1, m.len() as int) =~= v@.subrange((lo + d + 1) as int, hi as int));
        digits_in(v, lo, lo + d) && digits_in(v, lo + d + 1, hi) && (d > 0 || lo + d + 1 < hi)
    }
}

fn exponent_ok_in(v: &Vec<char>, lo: usize, hi: usize) -> (r: bool)
    requires
        lo <= hi <= v.len(),
    ensures
        r == exponent_ok(v@.subrange(lo as int, hi as int)),
{
    let ghost x = v@.subrange(lo as int, hi as int);
    let start = if lo < hi && (v[lo] == '+' || v[lo] == '-') { lo + 1 } else { lo };
    assert(unsigned_part(x) =~= v@.subrange(start as int, hi as int));
    start < hi && digits_in(v, start, hi)
}

/// Whether the text is a floating-point literal that `f64::from_str` accepts.
pub fn is_float_literal(t: &Vec<char>) -> (r: bool)
    ensures
        r == float_literal(t@),
{
    let w = lower_chars(t);
    let lo: usize = if w.len() > 0 && (w[0] == '+' || w[0] == '-') { 1 } else { 0 };
    let hi = w.len();
    let ghost b = unsigned_part(lower(t@));
    assert(b =~= w@.subrange(lo as int, hi as int));
    let mut body: Vec<char> = Vec::new();
    let mut i = lo;
    while i < hi
        invariant
            lo <= i <= hi == w.len(),
            body@ == w@.subrange(lo as int, i as int),
        decreases hi - i,
    {
        body.push(w[i]);
        i = i + 1;
        assert(body@ =~= w@.subrange(lo as int, i as int));
    }
    if chars_eq_str(&body, "inf") || chars_eq_str(&body, "infinity") || chars_eq_str(&body, "nan") {
        return true;
    }
    let n = body.len();
    let k = find_in(&body, 0, n, 'e');
    assert(body@.subrange(0, n as int) =~= body@);
    if k >= n {
        mantissa_ok_in(&body, 0, n)
    } else {
        mantissa_ok_in(&body, 0, k) && exponent_ok_in(&body, k + 1, n)
    }
}
} // verus!
