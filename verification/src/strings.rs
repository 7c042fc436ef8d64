use vstd::prelude::*;
use crate::text::{chars_of, string_of, owned, push_str, push_chars, push_usize, decimal, signed_decimal, i64_decimal, push_char, text2, text3};
use crate::value::{Value, ValueView, List, value_view, values_view, list_view, names_view, opt_name_view, pairs_view,
    lemma_pairs_view_len, lemma_pairs_view_index, copy_value, lemma_values_view_ext, lemma_values_view_len, lemma_values_view_push, lemma_values_view_index};
use crate::ffi::{type_name_of, value_type_name};
use crate::input::{is_white_space, white_space};
use crate::literals::{int_literal, parse_int, digits_value, digit_value, all_digits, is_digit, unsigned_part};
use crate::text::digit_char;

verus! {
// ---------------------------------------------------------------------------
// Text measures and transformations

/// The number of bytes a character takes in UTF-8.
pub open spec fn utf8_width(c: char) -> nat {
    let u = c as u32;
    if u < 0x80 { 1 } else if u < 0x800 { 2 } else if u < 0x10000 { 3 } else { 4 }
}

/// The length in bytes of the UTF-8 encoding of a text.
pub open spec fn utf8_len(s: Seq<char>) -> nat
    decreases s.len(),
{
    if s.len() == 0 { 0 } else { utf8_len(s.drop_last()) + utf8_width(s.last()) }
}

/// The text without leading white space.
pub open spec fn trim_start(s: Seq<char>) -> Seq<char>
    decreases s.len(),
{
    if s.len() > 0 && is_white_space(s[0]) { trim_start(s.drop_first()) } else { s }
}

/// The text without trailing white space.
pub open spec fn trim_end(s: Seq<char>) -> Seq<char>
    decreases s.len(),
{
    if s.len() > 0 && is_white_space(s.last()) { trim_end(s.drop_last()) } else { s }
}

/// The text without leading and trailing white space (`str::trim`).
pub open spec fn trim(s: Seq<char>) -> Seq<char> {
    trim_end(trim_start(s))
}

/// Replacing each occurrence of a non-empty `pat`, scanning from the left
/// and without overlaps, by `by`.
pub open spec fn replace_nonempty(s: Seq<char>, pat: Seq<char>, by: Seq<char>) -> Seq<char>
    decreases s.len(),
{
    if pat.len() == 0 || s.len() < pat.len() {
        s
    } else if s.subrange(0, pat.len() as int) == pat {
        by + replace_nonempty(s.subrange(pat.len() as int, s.len() as int), pat, by)
    } else {
        seq![s[0]] + replace_nonempty(s.drop_first(), pat, by)
    }
}

/// Replacing the empty text: `by` goes before each character and at the end.
pub open spec fn replace_empty(s: Seq<char>, by: Seq<char>) -> Seq<char>
    decreases s.len(),
{
    if s.len() == 0 { by } else { by + seq![s[0]] + replace_empty(s.drop_first(), by) }
}

/// `str::replace`.
pub open spec fn replace_all(s: Seq<char>, pat: Seq<char>, by: Seq<char>) -> Seq<char> {
    if pat.len() == 0 { replace_empty(s, by) } else { replace_nonempty(s, pat, by) }
}

/// The pieces of `s` between the occurrences of a non-empty `sep`, the
/// first piece starting with `cur`.
pub open spec fn split_from(s: Seq<char>, sep: Seq<char>, cur: Seq<char>) -> Seq<Seq<char>>
    decreases s.len(),
{
    if sep.len() == 0 || s.len() < sep.len() {
        seq![cur + s]
    } else if s.subrange(0, sep.len() as int) == sep {
        seq![cur] + split_from(s.subrange(sep.len() as int, s.len() as int), sep, Seq::empty())
    } else {
        split_from(s.drop_first(), sep, cur.push(s[0]))
    }
}

/// The pieces of `s` between the occurrences of `sep`; with an empty `sep`,
/// the characters one by one.
pub open spec fn split_text(s: Seq<char>, sep: Seq<char>) -> Seq<Seq<char>> {
    if sep.len() == 0 {
        Seq::new(s.len(), |i: int| seq![s[i]])
    } else {
        split_from(s, sep, Seq::empty())
    }
}

/// Texts as string values.
pub open spec fn string_values(parts: Seq<Seq<char>>) -> Seq<ValueView> {
    Seq::new(parts.len(), |k: int| ValueView::String(parts[k]))
}

/// The position of the first value that is not a string, at or after `i`
/// (the length when there is none).
pub open spec fn first_non_string(items: Seq<ValueView>, i: int) -> int
    decreases items.len() - i,
{
    if i < 0 || i >= items.len() {
        items.len() as int
    } else if !(items[i] is String) {
        i
    } else {
        first_non_string(items, i + 1)
    }
}

/// The texts of string values.
pub open spec fn texts_of(items: Seq<ValueView>) -> Seq<Seq<char>> {
    Seq::new(items.len(), |k: int| items[k]->String_0)
}

/// The texts one after the other.
pub open spec fn concat(parts: Seq<Seq<char>>) -> Seq<char>
    decreases parts.len(),
{
    if parts.len() == 0 { Seq::empty() } else { concat(parts.drop_last()) + parts.last() }
}

/// The texts with `sep` between each two.
pub open spec fn join(parts: Seq<Seq<char>>, sep: Seq<char>) -> Seq<char>
    decreases parts.len(),
{
    if parts.len() == 0 {
        Seq::empty()
    } else if parts.len() == 1 {
        parts[0]
    } else {
        join(parts.drop_last(), sep) + sep + parts.last()
    }
}

// ---------------------------------------------------------------------------
// The string instructions

/// Whether an operand-free opcode is one of the string instructions, or one
/// of those that look into a value (`TypeOf`, `FunctionParams`,
/// `ClosureCaptured`, `FunctionName`).
pub open spec fn is_string_op(op: u8) -> bool {
    op == 26 || op == 27 || op == 40 || op == 41 || op == 42 || op == 43 || op == 44 || op == 50 || op == 53
        || op == 73 || op == 105 || op == 106 || op == 107 || op == 108 || op == 114 || op == 94 || op == 95
        || op == 96
}

/// How many values a string instruction takes from the stack.
pub open spec fn string_arity(op: u8) -> nat {
    if op == 42 || op == 105 || op == 106 { 2 } else if op == 41 || op == 108 { 3 } else { 1 }
}

/// The instruction's name, as stack underflow messages give it.
pub open spec fn string_op_title(op: u8) -> Seq<char> {
    if op == 26 { "SymbolToString"@ } else if op == 27 { "StringToSymbol"@ } else if op == 40 { "StringLength"@ }
    else if op == 41 { "Substring"@ } else if op == 42 { "StringAppend"@ } else if op == 43 { "StringToList"@ }
    else if op == 44 { "ListToString"@ } else if op == 50 { "CharCode"@ } else if op == 53 { "NumberToString"@ }
    else if op == 73 { "StringToNumber"@ } else if op == 105 { "StringSplit"@ } else if op == 106 { "StringJoin"@ }
    else if op == 107 { "StringTrim"@ } else if op == 108 { "StringReplace"@ } else if op == 94 { "FunctionParams"@ }
    else if op == 95 { "ClosureCaptured"@ } else if op == 96 { "FunctionName"@ } else { "TypeOf"@ }
}

/// `substring` of a text by the byte-length bounds the language uses; the
/// characters from `start` to `end` are taken.
pub open spec fn substring_of(s: Seq<char>, st: i64, en: i64) -> Result<ValueView, Seq<char>> {
    let nu: usize = utf8_len(s) as usize;
    let n64: i64 = nu as i64;
    let start: usize = (if st < 0 { 0 } else { st }) as usize;
    let end: usize = (if en < n64 { en } else { n64 }) as usize;
    if start <= end && end <= nu {
        let lo = if start < s.len() { start as int } else { s.len() as int };
        let hi = if end < s.len() { end as int } else { s.len() as int };
        Ok(ValueView::String(s.subrange(lo, hi)))
    } else {
        Err("'substring' invalid indices: start="@ + signed_decimal(st as int) + ", end="@ + signed_decimal(en as int)
            + ", string length="@ + decimal(nu as nat))
    }
}

/// What a one-operand string instruction gives for `v`.
pub open spec fn string_unary(op: u8, v: ValueView) -> Result<ValueView, Seq<char>> {
    if op == 26 {
        match v {
            ValueView::Symbol(s) => Ok(ValueView::String(s)),
            _ => Err("Type error: 'symbol->string' expects a symbol, got "@ + type_name_of(v)),
        }
    } else if op == 27 {
        match v {
            ValueView::String(s) => Ok(ValueView::Symbol(s)),
            _ => Err("Type error: 'string->symbol' expects a string, got "@ + type_name_of(v)),
        }
    } else if op == 40 {
        match v {
            ValueView::String(s) => Ok(ValueView::Integer((utf8_len(s) as usize) as i64)),
            _ => Err("Type error: 'string-length' expects a string, got "@ + type_name_of(v)),
        }
    } else if op == 43 {
        match v {
            ValueView::String(s) => Ok(ValueView::List(Seq::new(s.len(), |i: int| ValueView::String(seq![s[i]])))),
            _ => Err("Type error: 'string->list' expects a string, got "@ + type_name_of(v)),
        }
    } else if op == 44 {
        match v {
            ValueView::List(items) => {
                let bad = first_non_string(items, 0);
                if bad < items.len() {
                    Err("Type error: 'list->string' expects a list of strings, but found "@ + type_name_of(items[bad]))
                } else {
                    Ok(ValueView::String(concat(texts_of(items))))
                }
            },
            _ => Err("Type error: 'list->string' expects a list, got "@ + type_name_of(v)),
        }
    } else if op == 50 {
        match v {
            ValueView::String(s) => if utf8_len(s) as usize != 1 {
                Err("'char-code' expects a single-character string, got "@ + decimal((utf8_len(s) as usize) as nat)
                    + " characters"@)
            } else {
                Ok(ValueView::Integer(s[0] as i64))
            },
            _ => Err("Type error: 'char-code' expects a string, got "@ + type_name_of(v)),
        }
    } else if op == 53 {
        match v {
            ValueView::Integer(n) => Ok(ValueView::String(signed_decimal(n as int))),
            _ => Err("Type error: 'number->string' expects an integer, got "@ + type_name_of(v)),
        }
    } else if op == 73 {
        match v {
            ValueView::String(s) => match int_literal(trim(s)) {
                Some(n) => Ok(ValueView::Integer(n as i64)),
                None => Err("Type error: 'string->number' cannot parse '"@ + s + "' as a number"@),
            },
            _ => Err("Type error: 'string->number' expects a string, got "@ + type_name_of(v)),
        }
    } else if op == 107 {
        match v {
            ValueView::String(s) => Ok(ValueView::String(trim(s))),
            _ => Err("Type error: 'string-trim' expects a string, got "@ + type_name_of(v)),
        }
    } else if op == 94 {
        match v {
            ValueView::Closure(params, rest, _, _) => Ok(ValueView::List(string_values(params) + match rest {
                Some(r) => seq![ValueView::String(". "@ + r)],
                None => Seq::empty(),
            })),
            ValueView::Function(name) => Err(
                "Type error: 'function-params' only works with closures, not named functions. Got function '"@ + name
                    + "'"@,
            ),
            _ => Err("Type error: 'function-params' expects a closure, got "@ + type_name_of(v)),
        }
    } else if op == 95 {
        match v {
            ValueView::Closure(_, _, _, captured) => Ok(ValueView::List(Seq::new(
                captured.len(),
                |i: int| ValueView::List(seq![ValueView::String(captured[i].0), captured[i].1]),
            ))),
            ValueView::Function(_) => Ok(ValueView::List(Seq::empty())),
            _ => Err("Type error: 'closure-captured' expects a function or closure, got "@ + type_name_of(v)),
        }
    } else if op == 96 {
        match v {
            ValueView::Function(name) => Ok(ValueView::String(name)),
            ValueView::Closure(..) => Err("Type error: 'function-name' expects a named function, not a closure"@),
            _ => Err("Type error: 'function-name' expects a function, got "@ + type_name_of(v)),
        }
    } else {
        Ok(ValueView::Symbol(type_name_of(v)))
    }
}

/// What a two-operand string instruction gives for `a` (below) and `b` (on top).
pub open spec fn string_binary(op: u8, a: ValueView, b: ValueView) -> Result<ValueView, Seq<char>> {
    if op == 42 {
        match (a, b) {
            (ValueView::String(x), ValueView::String(y)) => Ok(ValueView::String(x + y)),
            _ => Err("Type error: 'string-append' expects two strings, got "@ + type_name_of(a) + " and "@ + type_name_of(b)),
        }
    } else if op == 105 {
        match (a, b) {
            (ValueView::String(x), ValueView::String(y)) => Ok(ValueView::List(string_values(split_text(x, y)))),
            _ => Err("Type error: 'string-split' expects two strings, got "@ + type_name_of(a) + " and "@ + type_name_of(b)),
        }
    } else {
        match (a, b) {
            (ValueView::List(items), ValueView::String(sep)) => {
                let bad = first_non_string(items, 0);
                if bad < items.len() {
                    Err("Type error: 'string-join' expects a list of strings, but found "@ + type_name_of(items[bad]))
                } else {
                    Ok(ValueView::String(join(texts_of(items), sep)))
                }
            },
            _ => Err("Type error: 'string-join' expects a list and a string, got "@ + type_name_of(a) + " and "@
                + type_name_of(b)),
        }
    }
}

/// What a three-operand string instruction gives for `a`, `b` and `c` (on top).
pub open spec fn string_ternary(op: u8, a: ValueView, b: ValueView, c: ValueView) -> Result<ValueView, Seq<char>> {
    if op == 41 {
        match (a, b, c) {
            (ValueView::String(s), ValueView::Integer(st), ValueView::Integer(en)) => substring_of(s, st, en),
            _ => Err("Type error: 'substring' expects a string and two integers, got "@ + type_name_of(a) + ", "@
                + type_name_of(b) + ", and "@ + type_name_of(c)),
        }
    } else {
        match (a, b, c) {
            (ValueView::String(s), ValueView::String(p), ValueView::String(r)) => Ok(ValueView::String(replace_all(s, p, r))),
            _ => Err("Type error: 'string-replace' expects three strings, got "@ + type_name_of(a) + ", "@
                + type_name_of(b) + ", and "@ + type_name_of(c)),
        }
    }
}

/// What a string instruction gives for its operands, the top of the stack last.
pub open spec fn string_result(op: u8, args: Seq<ValueView>) -> Result<ValueView, Seq<char>> {
    if string_arity(op) == 1 {
        string_unary(op, args[0])
    } else if string_arity(op) == 2 {
        string_binary(op, args[0], args[1])
    } else {
        string_ternary(op, args[0], args[1], args[2])
    }
}

// ---------------------------------------------------------------------------
// Executable text operations

fn char_width(c: char) -> (w: u128)
    ensures
        w == utf8_width(c),
{
    let u = c as u32;
    if u < 0x80 { 1 } else if u < 0x800 { 2 } else if u < 0x10000 { 3 } else { 4 }
}

/// The length in bytes of the UTF-8 encoding of the characters.
pub fn utf8_length(v: &Vec<char>) -> (n: u128)
    ensures
        n == utf8_len(v@),
{
    let mut total: u128 = 0;
    let mut i: usize = 0;
    while i < v.len()
        invariant
            i <= v.len(),
            total == utf8_len(v@.subrange(0, i as int)),
            total <= 4 * i,
        decreases v.len() - i,
    {
        assert(v@.subrange(0, i + 1).drop_last() =~= v@.subrange(0, i as int));
        total = total + char_width(v[i]);
        i = i + 1;
    }
    assert(v@.subrange(0, v.len() as int) =~= v@);
    total
}

/// The characters `v[lo..hi]`.
pub fn sub_chars(v: &Vec<char>, lo: usize, hi: usize) -> (r: Vec<char>)
    requires
        lo <= hi <= v.len(),
    ensures
        r@ == v@.subrange(lo as int, hi as int),
{
    let mut r: Vec<char> = Vec::new();
    let mut i: usize = lo;
    while i < hi
        invariant
            lo <= i <= hi,
            hi <= v.len(),
            r@ == v@.subrange(lo as int, i as int),
        decreases hi - i,
    {
        r.push(v[i]);
        i = i + 1;
        assert(r@ =~= v@.subrange(lo as int, i as int));
    }
    r
}

proof fn lemma_trim_start_at(s: Seq<char>, lo: int)
    requires
        0 <= lo <= s.len(),
        forall|j: int| 0 <= j < lo ==> is_white_space(#[trigger] s[j]),
    ensures
        trim_start(s) == trim_start(s.subrange(lo, s.len() as int)),
    decreases lo,
{
    if lo > 0 {
        assert(s.drop_first().subrange(lo - 1, s.drop_first().len() as int) =~= s.subrange(lo, s.len() as int));
        assert(is_white_space(s[0]));
        lemma_trim_start_at(s.drop_first(), lo - 1);
    } else {
        assert(s.subrange(0, s.len() as int) =~= s);
    }
}

proof fn lemma_trim_end_at(s: Seq<char>, hi: int)
    requires
        0 <= hi <= s.len(),
        forall|j: int| hi <= j < s.len() ==> is_white_space(#[trigger] s[j]),
    ensures
        trim_end(s) == trim_end(s.subrange(0, hi)),
    decreases s.len() - hi,
{
    if hi < s.len() {
        assert(is_white_space(s.last()));
        assert(s.drop_last().subrange(0, hi) =~= s.subrange(0, hi));
        lemma_trim_end_at(s.drop_last(), hi);
    } else {
        assert(s.subrange(0, hi) =~= s);
    }
}

/// The characters without leading and trailing white space.
pub fn trim_chars(v: &Vec<char>) -> (r: Vec<char>)
    ensures
        r@ == trim(v@),
{
    let n = v.len();
    let mut lo: usize = 0;
    while lo < n && white_space(v[lo])
        invariant
            lo <= n,
            n == v.len(),
            forall|j: int| 0 <= j < lo ==> is_white_space(#[trigger] v@[j]),
        decreases n - lo,
    {
        lo = lo + 1;
    }
    proof {
        lemma_trim_start_at(v@, lo as int);
        let t = v@.subrange(lo as int, n as int);
        if lo < n {
            assert(t[0] == v@[lo as int]);
        }
        assert(trim_start(t) == t);
    }
    let mut hi: usize = n;
    while hi > lo && white_space(v[hi - 1])
        invariant
            lo <= hi <= n,
            n == v.len(),
            forall|j: int| hi <= j < n ==> is_white_space(#[trigger] v@[j]),
        decreases hi - lo,
    {
        hi = hi - 1;
    }
    proof {
        let t = v@.subrange(lo as int, n as int);
        assert forall|j: int| hi - lo <= j < t.len() implies is_white_space(#[trigger] t[j]) by {
            assert(t[j] == v@[lo + j]);
        }
        lemma_trim_end_at(t, hi - lo);
        let u = t.subrange(0, hi - lo);
        assert(u =~= v@.subrange(lo as int, hi as int));
        if hi > lo {
            assert(u.last() == v@[hi - 1]);
        }
        assert(trim_end(u) == u);
    }
    sub_chars(v, lo, hi)
}

/// Whether `pat` occurs in `s` at position `i`.
pub fn matches_at(s: &Vec<char>, pat: &Vec<char>, i: usize) -> (r: bool)
    requires
        i <= s.len(),
    ensures
        r == (pat.len() <= s.len() - i && s@.subrange(i as int, i + pat.len()) == pat@),
{
    if pat.len() > s.len() - i {
        return false;
    }
    let mut k: usize = 0;
    while k < pat.len()
        invariant
            k <= pat.len(),
            i + pat.len() <= s.len(),
            forall|j: int| 0 <= j < k ==> s@[i + j] == pat@[j],
        decreases pat.len() - k,
    {
        if s[i + k] != pat[k] {
            assert(s@.subrange(i as int, i + pat.len())[k as int] != pat@[k as int]);
            return false;
        }
        k = k + 1;
    }
    assert(s@.subrange(i as int, i + pat.len()) =~= pat@);
    true
}

/// `str::replace` on characters.
pub fn replace_chars(s: &Vec<char>, pat: &Vec<char>, by: &Vec<char>) -> (r: Vec<char>)
    ensures
        r@ == replace_all(s@, pat@, by@),
{
    let n = s.len();
    let mut out: Vec<char> = Vec::new();
    let mut i: usize = 0;
    proof {
        assert(s@.subrange(0, n as int) =~= s@);
        assert(out@ + s@ =~= s@);
        assert(out@ + replace_empty(s@, by@) =~= replace_empty(s@, by@));
        assert(out@ + replace_nonempty(s@, pat@, by@) =~= replace_nonempty(s@, pat@, by@));
    }
    if pat.len() == 0 {
        while i < n
            invariant
                i <= n,
                n == s.len(),
                replace_empty(s@, by@) == out@ + replace_empty(s@.subrange(i as int, n as int), by@),
            decreases n - i,
        {
            proof {
                let t = s@.subrange(i as int, n as int);
                assert(t.drop_first() =~= s@.subrange(i + 1, n as int));
                assert(t[0] == s@[i as int]);
            }
            let ghost before = out@;
            push_all(&mut out, by);
            out.push(s[i]);
            proof {
                assert(out@ =~= before + by@ + seq![s@[i as int]]);
            }
            i = i + 1;
        }
        let ghost before = out@;
        push_all(&mut out, by);
        proof {
            assert(s@.subrange(n as int, n as int) =~= Seq::<char>::empty());
        }
        return out;
    }
    while i < n
        invariant
            i <= n,
            n == s.len(),
            pat.len() > 0,
            replace_nonempty(s@, pat@, by@) == out@ + replace_nonempty(s@.subrange(i as int, n as int), pat@, by@),
        decreases n - i,
    {
        let ghost t = s@.subrange(i as int, n as int);
        let ghost before = out@;
        if matches_at(s, pat, i) {
            proof {
                assert(t.subrange(0, pat.len() as int) =~= s@.subrange(i as int, i + pat.len()));
                assert(t.subrange(pat.len() as int, t.len() as int) =~= s@.subrange(i + pat.len(), n as int));
            }
            push_all(&mut out, by);
            i = i + pat.len();
        } else {
            proof {
                assert(t.drop_first() =~= s@.subrange(i + 1, n as int));
                assert(t[0] == s@[i as int]);
                if t.len() >= pat.len() {
                    assert(t.subrange(0, pat.len() as int) =~= s@.subrange(i as int, i + pat.len()));
                }
            }
            out.push(s[i]);
            i = i + 1;
        }
    }
    proof {
        assert(s@.subrange(n as int, n as int) =~= Seq::<char>::empty());
    }
    out
}

/// Appends the characters of `w` to `v`.
pub fn push_all(v: &mut Vec<char>, w: &Vec<char>)
    ensures
        final(v)@ == old(v)@ + w@,
{
    let mut k: usize = 0;
    while k < w.len()
        invariant
            k <= w.len(),
            v@ == old(v)@ + w@.subrange(0, k as int),
        decreases w.len() - k,
    {
        v.push(w[k]);
        k = k + 1;
        assert(v@ =~= old(v)@ + w@.subrange(0, k as int));
    }
    assert(w@.subrange(0, w.len() as int) =~= w@);
}

/// A one-character string value.
fn char_value(c: char) -> (v: Value)
    ensures
        value_view(v) == ValueView::String(seq![c]),
{
    let mut t = String::new();
    push_char(&mut t, c);
    proof {
        assert(t@ =~= seq![c]);
    }
    Value::String(t)
}

/// The pieces of `s` split at `sep`, as string values.
pub fn split_chars(s: &Vec<char>, sep: &Vec<char>) -> (r: Vec<Value>)
    ensures
        values_view(r@) == string_values(split_text(s@, sep@)),
{
    let n = s.len();
    let mut parts: Vec<Value> = Vec::new();
    let mut i: usize = 0;
    if sep.len() == 0 {
        while i < n
            invariant
                i <= n,
                n == s.len(),
                values_view(parts@) == string_values(Seq::new(i as nat, |k: int| seq![s@[k]])),
            decreases n - i,
        {
            let ghost before = parts@;
            let v = char_value(s[i]);
            parts.push(v);
            proof {
                lemma_values_view_push(before, v);
                assert(string_values(Seq::new((i + 1) as nat, |k: int| seq![s@[k]])) =~= string_values(
                    Seq::new(i as nat, |k: int| seq![s@[k]]),
                ).push(ValueView::String(seq![s@[i as int]])));
            }
            i = i + 1;
        }
        return parts;
    }
    let mut cur: Vec<char> = Vec::new();
    let ghost mut pieces: Seq<Seq<char>> = Seq::empty();
    proof {
        assert(s@.subrange(0, n as int) =~= s@);
        assert(pieces + split_from(s@, sep@, cur@) =~= split_from(s@, sep@, Seq::empty()));
        assert(values_view(parts@) =~= string_values(pieces));
    }
    while i < n
        invariant
            i <= n,
            n == s.len(),
            sep.len() > 0,
            values_view(parts@) == string_values(pieces),
            split_from(s@, sep@, Seq::empty()) == pieces + split_from(s@.subrange(i as int, n as int), sep@, cur@),
        decreases n - i,
    {
        let ghost t = s@.subrange(i as int, n as int);
        if matches_at(s, sep, i) {
            proof {
                assert(t.subrange(0, sep.len() as int) =~= s@.subrange(i as int, i + sep.len()));
                assert(t.subrange(sep.len() as int, t.len() as int) =~= s@.subrange(i + sep.len(), n as int));
            }
            let ghost before = parts@;
            let piece = string_of(&cur);
            let v = Value::String(piece);
            parts.push(v);
            proof {
                lemma_values_view_push(before, v);
                assert(string_values(pieces.push(cur@)) =~= string_values(pieces).push(ValueView::String(cur@)));
                assert(pieces + (seq![cur@] + split_from(s@.subrange(i + sep.len(), n as int), sep@, Seq::empty()))
                    =~= pieces.push(cur@) + split_from(s@.subrange(i + sep.len(), n as int), sep@, Seq::empty()));
                pieces = pieces.push(cur@);
            }
            cur = Vec::new();
            proof {
                assert(cur@ =~= Seq::<char>::empty());
            }
            i = i + sep.len();
        } else {
            proof {
                assert(t.drop_first() =~= s@.subrange(i + 1, n as int));
                assert(t[0] == s@[i as int]);
                if t.len() >= sep.len() {
                    assert(t.subrange(0, sep.len() as int) =~= s@.subrange(i as int, i + sep.len()));
                } else {
                    assert(cur@ + t =~= cur@.push(t[0]) + t.drop_first());
                }
            }
            cur.push(s[i]);
            i = i + 1;
        }
    }
    let ghost before = parts@;
    let last = string_of(&cur);
    let v = Value::String(last);
    parts.push(v);
    proof {
        assert(s@.subrange(n as int, n as int) =~= Seq::<char>::empty());
        assert(cur@ + Seq::<char>::empty() =~= cur@);
        lemma_values_view_push(before, v);
        assert(string_values(pieces.push(cur@)) =~= string_values(pieces).push(ValueView::String(cur@)));
        assert(pieces + seq![cur@] =~= pieces.push(cur@));
    }
    parts
}

/// The position of the first value that is not a string (the length when
/// there is none).
pub fn find_non_string(items: &Vec<Value>) -> (k: usize)
    ensures
        k == first_non_string(values_view(items@), 0),
        k <= items.len(),
{
    let ghost iv = values_view(items@);
    proof {
        lemma_values_view_len(items@);
    }
    let mut i: usize = 0;
    while i < items.len()
        invariant
            i <= items.len(),
            iv == values_view(items@),
            iv.len() == items.len(),
            first_non_string(iv, 0) == first_non_string(iv, i as int),
        decreases items.len() - i,
    {
        proof {
            lemma_values_view_index(items@, i as int);
        }
        match &items[i] {
            Value::String(_) => {},
            _ => {
                return i;
            },
        }
        i = i + 1;
    }
    i
}

proof fn lemma_all_strings(items: Seq<ValueView>, i: int)
    requires
        0 <= i,
        first_non_string(items, i) == items.len(),
    ensures
        forall|j: int| i <= j < items.len() ==> (#[trigger] items[j]) is String,
    decreases items.len() - i,
{
    if i < items.len() {
        lemma_all_strings(items, i + 1);
    }
}

/// The characters of a string value.
fn text_chars(v: &Value) -> (r: Vec<char>)
    requires
        value_view(*v) is String,
    ensures
        r@ == value_view(*v)->String_0,
{
    match v {
        Value::String(t) => chars_of(t.as_str()),
        _ => Vec::new(),
    }
}

/// The texts of string values, one after the other (with `sep` between each
/// two when `with_sep` holds).
fn glue_texts(items: &Vec<Value>, sep: &Vec<char>, with_sep: bool) -> (r: Vec<char>)
    requires
        first_non_string(values_view(items@), 0) == items.len(),
    ensures
        with_sep ==> r@ == join(texts_of(values_view(items@)), sep@),
        !with_sep ==> r@ == concat(texts_of(values_view(items@))),
{
    let ghost iv = values_view(items@);
    proof {
        lemma_values_view_len(items@);
        lemma_all_strings(iv, 0);
        assert(texts_of(iv.subrange(0, 0)) =~= Seq::<Seq<char>>::empty());
    }
    let mut out: Vec<char> = Vec::new();
    let mut i: usize = 0;
    while i < items.len()
        invariant
            i <= items.len(),
            iv == values_view(items@),
            iv.len() == items.len(),
            forall|j: int| 0 <= j < iv.len() ==> (#[trigger] iv[j]) is String,
            with_sep ==> out@ == join(texts_of(iv.subrange(0, i as int)), sep@),
            !with_sep ==> out@ == concat(texts_of(iv.subrange(0, i as int))),
        decreases items.len() - i,
    {
        proof {
            lemma_values_view_index(items@, i as int);
            assert(iv[i as int] is String);
        }
        let t = text_chars(&items[i]);
        let ghost before = out@;
        if with_sep && i > 0 {
            push_all(&mut out, sep);
        }
        push_all(&mut out, &t);
        proof {
            let now = texts_of(iv.subrange(0, i + 1));
            assert(now.drop_last() =~= texts_of(iv.subrange(0, i as int)));
            assert(now.last() == t@);
            if i == 0 {
                assert(out@ =~= t@);
            }
        }
        i = i + 1;
    }
    proof {
        assert(iv.subrange(0, iv.len() as int) =~= iv);
    }
    out
}

/// Whether an exec result matches a spec result.
pub open spec fn result_matches(r: Result<Value, String>, e: Result<ValueView, Seq<char>>) -> bool {
    match r {
        Ok(v) => e == Ok::<ValueView, Seq<char>>(value_view(v)),
        Err(m) => e == Err::<ValueView, Seq<char>>(m@),
    }
}

/// A one-operand string instruction on its operand.
pub fn string_unary_exec(op: u8, v: Value) -> (r: Result<Value, String>)
    requires
        is_string_op(op),
        string_arity(op) == 1,
    ensures
        result_matches(r, string_unary(op, value_view(v))),
{
    let ghost vv = value_view(v);
    if op == 26 {
        match v {
            Value::Symbol(s) => Ok(Value::String(s)),
            other => Err(text2("Type error: 'symbol->string' expects a symbol, got ", value_type_name(&other))),
        }
    } else if op == 27 {
        match v {
            Value::String(s) => Ok(Value::Symbol(s)),
            other => Err(text2("Type error: 'string->symbol' expects a string, got ", value_type_name(&other))),
        }
    } else if op == 40 {
        match v {
            Value::String(s) => {
                let cs = chars_of(s.as_str());
                let n = utf8_length(&cs);
                let nu: usize = #[verifier::truncate] (n as usize);
                Ok(Value::Integer(#[verifier::truncate] (nu as i64)))
            },
            other => Err(text2("Type error: 'string-length' expects a string, got ", value_type_name(&other))),
        }
    } else if op == 43 {
        match v {
            Value::String(s) => {
                let cs = chars_of(s.as_str());
                let empty: Vec<char> = Vec::new();
                let parts = split_chars(&cs, &empty);
                proof {
                    assert(empty@ =~= Seq::<char>::empty());
                    assert(string_values(split_text(cs@, empty@)) =~= Seq::new(
                        cs@.len(),
                        |i: int| ValueView::String(seq![cs@[i]]),
                    ));
                }
                Ok(Value::List(List::from_vec(parts)))
            },
            other => Err(text2("Type error: 'string->list' expects a string, got ", value_type_name(&other))),
        }
    } else if op == 44 {
        match v {
            Value::List(l) => {
                let items = l.items();
                let bad = find_non_string(items);
                proof {
                    lemma_values_view_len(items@);
                    assert(vv == ValueView::List(values_view(items@)));
                }
                if bad < items.len() {
                    proof {
                        lemma_values_view_index(items@, bad as int);
                    }
                    Err(text2("Type error: 'list->string' expects a list of strings, but found ", value_type_name(&items[bad])))
                } else {
                    let empty: Vec<char> = Vec::new();
                    let out = glue_texts(items, &empty, false);
                    Ok(Value::String(string_of(&out)))
                }
            },
            other => Err(text2("Type error: 'list->string' expects a list, got ", value_type_name(&other))),
        }
    } else if op == 50 {
        match v {
            Value::String(s) => {
                let cs = chars_of(s.as_str());
                let n = utf8_length(&cs);
                let nu: usize = #[verifier::truncate] (n as usize);
                if nu != 1 {
                    let mut msg = owned("'char-code' expects a single-character string, got ");
                    push_usize(&mut msg, nu);
                    push_str(&mut msg, " characters");
                    Err(msg)
                } else {
                    proof {
                        if cs@.len() == 0 {
                            assert(utf8_len(cs@) == 0);
                        }
                    }
                    Ok(Value::Integer(cs[0] as i64))
                }
            },
            other => Err(text2("Type error: 'char-code' expects a string, got ", value_type_name(&other))),
        }
    } else if op == 53 {
        match v {
            Value::Integer(n) => Ok(Value::String(string_of(&i64_decimal(n)))),
            other => Err(text2("Type error: 'number->string' expects an integer, got ", value_type_name(&other))),
        }
    } else if op == 73 {
        match v {
            Value::String(s) => {
                let cs = chars_of(s.as_str());
                let t = trim_chars(&cs);
                match parse_int(&t) {
                    Some(n) => Ok(Value::Integer(n)),
                    None => {
                        let mut msg = text2("Type error: 'string->number' cannot parse '", s.as_str());
                        push_str(&mut msg, "' as a number");
                        Err(msg)
                    },
                }
            },
            other => Err(text2("Type error: 'string->number' expects a string, got ", value_type_name(&other))),
        }
    } else if op == 107 {
        match v {
            Value::String(s) => {
                let cs = chars_of(s.as_str());
                Ok(Value::String(string_of(&trim_chars(&cs))))
            },
            other => Err(text2("Type error: 'string-trim' expects a string, got ", value_type_name(&other))),
        }
    } else if op == 94 || op == 95 || op == 96 {
        reflect(op, v)
    } else {
        Ok(Value::Symbol(owned(value_type_name(&v))))
    }
}

/// `FunctionParams`, `ClosureCaptured` and `FunctionName` on their operand.
fn reflect(op: u8, v: Value) -> (r: Result<Value, String>)
    requires
        op == 94 || op == 95 || op == 96,
    ensures
        result_matches(r, string_unary(op, value_view(v))),
{
    match v {
        Value::Closure(c) => {
            if op == 96 {
                return Err(owned("Type error: 'function-name' expects a named function, not a closure"));
            }
            let c = *c;
            let mut out: Vec<Value> = Vec::new();
            if op == 94 {
                let mut i: usize = 0;
                while i < c.params.len()
                    invariant
                        i <= c.params.len(),
                        values_view(out@) == string_values(names_view(c.params@).subrange(0, i as int)),
                    decreases c.params.len() - i,
                {
                    let ghost before = out@;
                    let w = Value::String(owned(c.params[i].as_str()));
                    out.push(w);
                    proof {
                        lemma_values_view_push(before, w);
                        assert(string_values(names_view(c.params@).subrange(0, i + 1)) =~= string_values(
                            names_view(c.params@).subrange(0, i as int),
                        ).push(ValueView::String(c.params@[i as int]@)));
                    }
                    i = i + 1;
                }
                proof {
                    assert(names_view(c.params@).subrange(0, c.params@.len() as int) =~= names_view(c.params@));
                }
                let ghost before = out@;
                match &c.rest_param {
                    Some(r) => {
                        let w = Value::String(text2(". ", r.as_str()));
                        out.push(w);
                        proof {
                            lemma_values_view_push(before, w);
                        }
                    },
                    None => {
                        assert(values_view(before) + Seq::<ValueView>::empty() =~= values_view(before));
                    },
                }
                proof {
                    assert(values_view(out@) =~= string_values(names_view(c.params@)) + match opt_name_view(c.rest_param) {
                        Some(r) => seq![ValueView::String(". "@ + r)],
                        None => Seq::<ValueView>::empty(),
                    });
                }
                Ok(Value::List(List::from_vec(out)))
            } else {
                proof {
                    lemma_pairs_view_len(c.captured@);
                }
                let ghost cap = pairs_view(c.captured@);
                let mut i: usize = 0;
                while i < c.captured.len()
                    invariant
                        i <= c.captured.len(),
                        cap == pairs_view(c.captured@),
                        cap.len() == c.captured.len(),
                        values_view(out@) == Seq::new(
                            i as nat,
                            |k: int| ValueView::List(seq![ValueView::String(cap[k].0), cap[k].1]),
                        ),
                    decreases c.captured.len() - i,
                {
                    proof {
                        lemma_pairs_view_index(c.captured@, i as int);
                    }
                    let mut pair: Vec<Value> = Vec::new();
                    pair.push(Value::String(owned(c.captured[i].0.as_str())));
                    pair.push(copy_value(&c.captured[i].1));
                    proof {
                        lemma_values_view_ext(pair@);
                        assert(values_view(pair@) =~= seq![ValueView::String(cap[i as int].0), cap[i as int].1]);
                    }
                    let w = Value::List(List::from_vec(pair));
                    let ghost before = out@;
                    out.push(w);
                    proof {
                        lemma_values_view_push(before, w);
                        assert(values_view(out@) =~= Seq::new(
                            (i + 1) as nat,
                            |k: int| ValueView::List(seq![ValueView::String(cap[k].0), cap[k].1]),
                        ));
                    }
                    i = i + 1;
                }
                Ok(Value::List(List::from_vec(out)))
            }
        },
        Value::Function(name) => {
            if op == 94 {
                let mut m = text2(
                    "Type error: 'function-params' only works with closures, not named functions. Got function '",
                    name.as_str(),
                );
                push_str(&mut m, "'");
                Err(m)
            } else if op == 95 {
                let empty: Vec<Value> = Vec::new();
                proof {
                    assert(values_view(empty@) =~= Seq::<ValueView>::empty());
                }
                Ok(Value::List(List::from_vec(empty)))
            } else {
                Ok(Value::String(name))
            }
        },
        other => Err(text2(
            if op == 94 {
                "Type error: 'function-params' expects a closure, got "
            } else if op == 95 {
                "Type error: 'closure-captured' expects a function or closure, got "
            } else {
                "Type error: 'function-name' expects a function, got "
            },
            value_type_name(&other),
        )),
    }
}

/// A type error message naming the types of two operands.
fn type_error2(prefix: &str, a: &Value, b: &Value) -> (m: String)
    ensures
        m@ == prefix@ + type_name_of(value_view(*a)) + " and "@ + type_name_of(value_view(*b)),
{
    let mut m = text3(prefix, value_type_name(a), " and ");
    push_str(&mut m, value_type_name(b));
    m
}

/// A type error message naming the types of three operands.
fn type_error3(prefix: &str, a: &Value, b: &Value, c: &Value) -> (m: String)
    ensures
        m@ == prefix@ + type_name_of(value_view(*a)) + ", "@ + type_name_of(value_view(*b)) + ", and "@
            + type_name_of(value_view(*c)),
{
    let mut m = text3(prefix, value_type_name(a), ", ");
    push_str(&mut m, value_type_name(b));
    push_str(&mut m, ", and ");
    push_str(&mut m, value_type_name(c));
    m
}

/// A two-operand string instruction on its operands (`b` was on top).
pub fn string_binary_exec(op: u8, a: Value, b: Value) -> (r: Result<Value, String>)
    requires
        is_string_op(op),
        string_arity(op) == 2,
    ensures
        result_matches(r, string_binary(op, value_view(a), value_view(b))),
{
    if op == 42 {
        match (&a, &b) {
            (Value::String(x), Value::String(y)) => {
                let mut t = owned(x.as_str());
                push_str(&mut t, y.as_str());
                Ok(Value::String(t))
            },
            _ => Err(type_error2("Type error: 'string-append' expects two strings, got ", &a, &b)),
        }
    } else if op == 105 {
        match (&a, &b) {
            (Value::String(x), Value::String(y)) => {
                let cs = chars_of(x.as_str());
                let ds = chars_of(y.as_str());
                let parts = split_chars(&cs, &ds);
                Ok(Value::List(List::from_vec(parts)))
            },
            _ => Err(type_error2("Type error: 'string-split' expects two strings, got ", &a, &b)),
        }
    } else {
        match (&a, &b) {
            (Value::List(l), Value::String(sep)) => {
                let items = l.items();
                let bad = find_non_string(items);
                proof {
                    lemma_values_view_len(items@);
                }
                if bad < items.len() {
                    proof {
                        lemma_values_view_index(items@, bad as int);
                    }
                    Err(text2("Type error: 'string-join' expects a list of strings, but found ", value_type_name(&items[bad])))
                } else {
                    let sc = chars_of(sep.as_str());
                    let out = glue_texts(items, &sc, true);
                    Ok(Value::String(string_of(&out)))
                }
            },
            _ => Err(type_error2("Type error: 'string-join' expects a list and a string, got ", &a, &b)),
        }
    }
}

/// A three-operand string instruction on its operands (`c` was on top).
pub fn string_ternary_exec(op: u8, a: Value, b: Value, c: Value) -> (r: Result<Value, String>)
    requires
        is_string_op(op),
        string_arity(op) == 3,
    ensures
        result_matches(r, string_ternary(op, value_view(a), value_view(b), value_view(c))),
{
    if op == 41 {
        match (&a, &b, &c) {
            (Value::String(s), Value::Integer(st), Value::Integer(en)) => {
                let st = *st;
                let en = *en;
                let cs = chars_of(s.as_str());
                let n = utf8_length(&cs);
                let nu: usize = #[verifier::truncate] (n as usize);
                let n64: i64 = #[verifier::truncate] (nu as i64);
                let start: usize = #[verifier::truncate] ((if st < 0 { 0 } else { st }) as usize);
                let end: usize = #[verifier::truncate] ((if en < n64 { en } else { n64 }) as usize);
                if start <= end && end <= nu {
                    let lo = if start < cs.len() { start } else { cs.len() };
                    let hi = if end < cs.len() { end } else { cs.len() };
                    Ok(Value::String(string_of(&sub_chars(&cs, lo, hi))))
                } else {
                    let mut m = owned("'substring' invalid indices: start=");
                    push_chars(&mut m, &i64_decimal(st));
                    push_str(&mut m, ", end=");
                    push_chars(&mut m, &i64_decimal(en));
                    push_str(&mut m, ", string length=");
                    push_usize(&mut m, nu);
                    Err(m)
                }
            },
            _ => Err(type_error3("Type error: 'substring' expects a string and two integers, got ", &a, &b, &c)),
        }
    } else {
        match (&a, &b, &c) {
            (Value::String(s), Value::String(p), Value::String(w)) => {
                let sc = chars_of(s.as_str());
                let pc = chars_of(p.as_str());
                let wc = chars_of(w.as_str());
                Ok(Value::String(string_of(&replace_chars(&sc, &pc, &wc))))
            },
            _ => Err(type_error3("Type error: 'string-replace' expects three strings, got ", &a, &b, &c)),
        }
    }
}

/// Whether an operand-free opcode is one of the string instructions.
pub fn is_string_opcode(op: u8) -> (r: bool)
    ensures
        r == is_string_op(op),
{
    op == 26 || op == 27 || op == 40 || op == 41 || op == 42 || op == 43 || op == 44 || op == 50 || op == 53
        || op == 73 || op == 105 || op == 106 || op == 107 || op == 108 || op == 114 || op == 94 || op == 95
        || op == 96
}

/// How many values a string instruction takes from the stack.
pub fn string_arity_of(op: u8) -> (n: usize)
    ensures
        n == string_arity(op),
{
    if op == 42 || op == 105 || op == 106 { 2 } else if op == 41 || op == 108 { 3 } else { 1 }
}

/// The instruction's name, as stack underflow messages give it.
pub fn string_op_title_str(op: u8) -> (r: &'static str)
    ensures
        r@ == string_op_title(op),
{
    if op == 26 { "SymbolToString" } else if op == 27 { "StringToSymbol" } else if op == 40 { "StringLength" }
    else if op == 41 { "Substring" } else if op == 42 { "StringAppend" } else if op == 43 { "StringToList" }
    else if op == 44 { "ListToString" } else if op == 50 { "CharCode" } else if op == 53 { "NumberToString" }
    else if op == 73 { "StringToNumber" } else if op == 105 { "StringSplit" } else if op == 106 { "StringJoin" }
    else if op == 107 { "StringTrim" } else if op == 108 { "StringReplace" } else if op == 94 { "FunctionParams" }
    else if op == 95 { "ClosureCaptured" } else if op == 96 { "FunctionName" } else { "TypeOf" }
}

/// A string instruction on its operands, the top of the stack last.
pub fn string_operation(op: u8, args: Vec<Value>) -> (r: Result<Value, String>)
    requires
        is_string_op(op),
        args.len() == string_arity(op),
    ensures
        result_matches(r, string_result(op, values_view(args@))),
{
    proof {
        lemma_values_view_ext(args@);
    }
    let ghost av = args@;
    let mut args = args;
    let k = string_arity_of(op);
    if k == 1 {
        let a = args.pop().unwrap();
        string_unary_exec(op, a)
    } else if k == 2 {
        let b = args.pop().unwrap();
        let a = args.pop().unwrap();
        string_binary_exec(op, a, b)
    } else {
        let c = args.pop().unwrap();
        let b = args.pop().unwrap();
        let a = args.pop().unwrap();
        proof {
            assert(av[2] == c && av[1] == b && av[0] == a);
        }
        string_ternary_exec(op, a, b, c)
    }
}

// ---------------------------------------------------------------------------
// Laws

proof fn lemma_split_from_nonempty(s: Seq<char>, sep: Seq<char>, cur: Seq<char>)
    ensures
        split_from(s, sep, cur).len() >= 1,
    decreases s.len(),
{
    if sep.len() == 0 || s.len() < sep.len() {
    } else if s.subrange(0, sep.len() as int) == sep {
        lemma_split_from_nonempty(s.subrange(sep.len() as int, s.len() as int), sep, Seq::empty());
    } else {
        lemma_split_from_nonempty(s.drop_first(), sep, cur.push(s[0]));
    }
}

proof fn lemma_join_front(a: Seq<char>, rest: Seq<Seq<char>>, sep: Seq<char>)
    requires
        rest.len() >= 1,
    ensures
        join(seq![a] + rest, sep) == a + sep + join(rest, sep),
    decreases rest.len(),
{
    let all = seq![a] + rest;
    if rest.len() == 1 {
        assert(all.drop_last() =~= seq![a]);
        assert(all.last() == rest[0]);
        assert(join(all.drop_last(), sep) == a);
    } else {
        assert(all.drop_last() =~= seq![a] + rest.drop_last());
        lemma_join_front(a, rest.drop_last(), sep);
        assert(all.last() == rest.last());
    }
}

proof fn lemma_split_join_from(s: Seq<char>, sep: Seq<char>, cur: Seq<char>)
    requires
        sep.len() > 0,
    ensures
        join(split_from(s, sep, cur), sep) == cur + s,
    decreases s.len(),
{
    if s.len() < sep.len() {
        assert(join(seq![cur + s], sep) == cur + s);
    } else if s.subrange(0, sep.len() as int) == sep {
        let rest = s.subrange(sep.len() as int, s.len() as int);
        lemma_split_join_from(rest, sep, Seq::empty());
        lemma_split_from_nonempty(rest, sep, Seq::empty());
        lemma_join_front(cur, split_from(rest, sep, Seq::empty()), sep);
        assert(Seq::<char>::empty() + rest =~= rest);
        assert(cur + sep + rest =~= cur + s) by {
            assert(s =~= sep + rest);
        }
    } else {
        lemma_split_join_from(s.drop_first(), sep, cur.push(s[0]));
        assert(cur.push(s[0]) + s.drop_first() =~= cur + s);
    }
}

/// Splitting a text at a non-empty separator and joining the pieces with
/// it gives the text back.
pub proof fn law_split_then_join(s: Seq<char>, sep: Seq<char>)
    requires
        sep.len() > 0,
    ensures
        join(split_text(s, sep), sep) == s,
{
    lemma_split_join_from(s, sep, Seq::empty());
    assert(Seq::<char>::empty() + s =~= s);
}

/// Replacing a text by itself changes nothing.
pub proof fn law_replace_by_itself(s: Seq<char>, pat: Seq<char>)
    ensures
        replace_all(s, pat, pat) == s,
    decreases s.len(),
{
    if pat.len() == 0 {
        assert(pat =~= Seq::<char>::empty());
        lemma_replace_empty_nothing(s);
    } else if s.len() < pat.len() {
    } else if s.subrange(0, pat.len() as int) == pat {
        let rest = s.subrange(pat.len() as int, s.len() as int);
        law_replace_by_itself(rest, pat);
        assert(pat + rest =~= s);
    } else {
        law_replace_by_itself(s.drop_first(), pat);
        assert(seq![s[0]] + s.drop_first() =~= s);
    }
}

proof fn lemma_replace_empty_nothing(s: Seq<char>)
    ensures
        replace_empty(s, Seq::empty()) == s,
    decreases s.len(),
{
    if s.len() > 0 {
        lemma_replace_empty_nothing(s.drop_first());
        assert(Seq::<char>::empty() + seq![s[0]] + s.drop_first() =~= s);
    }
}

/// Turning a text into its one-character strings and those back into a
/// string gives the text back.
pub proof fn law_chars_then_concat(s: Seq<char>)
    ensures
        concat(texts_of(Seq::new(s.len(), |i: int| ValueView::String(seq![s[i]])))) == s,
    decreases s.len(),
{
    let items = Seq::new(s.len(), |i: int| ValueView::String(seq![s[i]]));
    if s.len() > 0 {
        let shorter = s.drop_last();
        law_chars_then_concat(shorter);
        assert(texts_of(items).drop_last() =~= texts_of(Seq::new(shorter.len(), |i: int| ValueView::String(seq![shorter[i]]))));
        assert(texts_of(items).last() == seq![s.last()]);
        assert(shorter + seq![s.last()] =~= s);
    } else {
        assert(texts_of(items) =~= Seq::<Seq<char>>::empty());
    }
}

proof fn lemma_digit_char(d: nat)
    requires
        d < 10,
    ensures
        is_digit(digit_char(d)),
        digit_value(digit_char(d)) == d,
        !is_white_space(digit_char(d)),
{
}

pub(crate) proof fn lemma_decimal_digits(k: nat)
    ensures
        decimal(k).len() >= 1,
        all_digits(decimal(k)),
        digits_value(decimal(k)) == k,
    decreases k,
{
    if k < 10 {
        lemma_digit_char(k);
        assert(decimal(k) == seq![digit_char(k)]);
        assert(decimal(k).drop_last() =~= Seq::<char>::empty());
        assert(digits_value(decimal(k)) == digits_value(decimal(k).drop_last()) * 10 + digit_value(decimal(k).last()));
    } else {
        lemma_decimal_digits(k / 10);
        lemma_digit_char(k % 10);
        let d = decimal(k);
        assert(d == decimal(k / 10).push(digit_char(k % 10)));
        assert(d.drop_last() =~= decimal(k / 10));
        assert(d.last() == digit_char(k % 10));
        assert((k / 10) * 10 + k % 10 == k) by (nonlinear_arith);
        assert(digits_value(d) == digits_value(d.drop_last()) * 10 + digit_value(d.last()));
        assert forall|i: int| 0 <= i < d.len() implies #[trigger] is_digit(d[i]) by {
            if i < d.len() - 1 {
                assert(d[i] == decimal(k / 10)[i]);
            }
        }
    }
}

pub(crate) proof fn lemma_no_space(t: Seq<char>)
    requires
        t.len() >= 1,
        forall|i: int| 0 <= i < t.len() ==> !is_white_space(#[trigger] t[i]),
    ensures
        trim(t) == t,
{
    assert(trim_start(t) == t);
    assert(trim_end(t) == t);
}

/// Writing an integer in decimal and reading the text back gives the
/// integer: `number->string` and then `string->number`.
pub proof fn law_number_text_round_trip(n: i64)
    ensures
        int_literal(trim(signed_decimal(n as int))) == Some(n as int),
{
    let t = signed_decimal(n as int);
    let mag: nat = if n < 0 { (-(n as int)) as nat } else { n as nat };
    lemma_decimal_digits(mag);
    let d = decimal(mag);
    assert forall|i: int| 0 <= i < d.len() implies !is_white_space(#[trigger] d[i]) by {
        assert(is_digit(d[i]));
    }
    if n < 0 {
        assert(t == seq!['-'] + d);
        assert forall|i: int| 0 <= i < t.len() implies !is_white_space(#[trigger] t[i]) by {
            if i > 0 {
                assert(t[i] == d[i - 1]);
            }
        }
        lemma_no_space(t);
        assert(unsigned_part(t) =~= d);
    } else {
        assert(t == d);
        lemma_no_space(t);
        assert(is_digit(t[0]));
        assert(unsigned_part(t) == d);
    }
}
} // verus!
