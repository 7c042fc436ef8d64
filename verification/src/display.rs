use vstd::prelude::*;
use crate::value::{
    Value, ValueView, value_view, values_view, pairs_view, lemma_values_view_len, lemma_values_view_index,
    lemma_pairs_view_len, lemma_pairs_view_index,
};
use crate::text::{chars_of, string_of, decimal, signed_decimal, u64_decimal, i64_decimal};
use crate::strings::{join, push_all};
use crate::disassembler::{chars_less, chars_less_exec};

verus! {
broadcast use vstd::std_specs::vec::axiom_vec_decreases_to_view;

/// The two ways values are written out: as the `print` instruction writes
/// them (strings in quotes, `<function f>`, entries of hash maps shown), or as
/// the runner shows the final result (strings bare, `#<function:f>`,
/// `#<hashmap>`).
#[derive(Clone, Copy)]
pub enum Style {
    Print,
    Result,
}

// ---------------------------------------------------------------------------
// The texts

/// The text that the float table gives for the bit pattern `b`: that of its
/// first entry with this pattern, if any. Float texts come from the host,
/// which formats floating-point numbers.
pub open spec fn float_entry(table: Seq<(u64, String)>, b: u64) -> Option<Seq<char>>
    decreases table.len(),
{
    if table.len() == 0 {
        None
    } else if table[0].0 == b {
        Some(table[0].1@)
    } else {
        float_entry(table.subrange(1, table.len() as int), b)
    }
}

/// Whether the table has a text for every float that the text of `v` shows.
pub open spec fn floats_known(v: ValueView, table: Seq<(u64, String)>, style: Style) -> bool
    decreases v,
{
    match v {
        ValueView::Float(b) => float_entry(table, b) is Some,
        ValueView::List(items) => items_known(items, table, style),
        ValueView::Vector(items) => items_known(items, table, style),
        ValueView::HashMap(entries) => style is Result || entries_known(entries, table, style),
        _ => true,
    }
}

pub open spec fn items_known(items: Seq<ValueView>, table: Seq<(u64, String)>, style: Style) -> bool
    decreases items,
{
    items.len() == 0 || (floats_known(items[0], table, style) && items_known(
        items.subrange(1, items.len() as int),
        table,
        style,
    ))
}

pub open spec fn entries_known(entries: Seq<(Seq<char>, ValueView)>, table: Seq<(u64, String)>, style: Style) -> bool
    decreases entries,
{
    entries.len() == 0 || (floats_known(entries[0].1, table, style) && entries_known(
        entries.subrange(1, entries.len() as int),
        table,
        style,
    ))
}

/// `s` between double quotes.
pub open spec fn quoted(s: Seq<char>) -> Seq<char> {
    seq!['"'] + s + seq!['"']
}

/// The text of a value in the given style.
pub open spec fn shown(v: ValueView, table: Seq<(u64, String)>, style: Style) -> Seq<char>
    decreases v,
{
    match v {
        ValueView::Integer(n) => signed_decimal(n as int),
        ValueView::Float(b) => match float_entry(table, b) {
            Some(t) => t,
            None => Seq::empty(),
        },
        ValueView::Boolean(b) => if b { "true"@ } else { "false"@ },
        ValueView::List(items) => seq!['('] + shown_items(items, table, style) + seq![')'],
        ValueView::Symbol(s) => s,
        ValueView::String(s) => match style {
            Style::Print => quoted(s),
            Style::Result => s,
        },
        ValueView::Function(name) => match style {
            Style::Print => "<function "@ + name + seq!['>'],
            Style::Result => "#<function:"@ + name + seq!['>'],
        },
        ValueView::Closure(params, rest, _, _) => match style {
            Style::Print => "<closure/"@ + decimal(params.len()) + seq!['>'],
            Style::Result => if rest is Some {
                "#<closure/"@ + decimal(params.len()) + " + rest>"@
            } else {
                "#<closure/"@ + decimal(params.len()) + seq!['>']
            },
        },
        ValueView::HashMap(entries) => match style {
            Style::Print => seq!['{'] + join(sort_texts(entry_texts(entries, table)), seq![' ']) + seq!['}'],
            Style::Result => "#<hashmap>"@,
        },
        ValueView::Vector(items) => seq!['['] + shown_items(items, table, style) + seq![']'],
        ValueView::Pointer(p) => match style {
            Style::Print => "<pointer "@ + signed_decimal(p as int) + seq!['>'],
            Style::Result => "#<pointer:"@ + signed_decimal(p as int) + seq!['>'],
        },
    }
}

/// The texts of the items, with one space between each two.
pub open spec fn shown_items(items: Seq<ValueView>, table: Seq<(u64, String)>, style: Style) -> Seq<char>
    decreases items,
{
    if items.len() == 0 {
        Seq::empty()
    } else {
        shown(items[0], table, style) + spaced_items(items.subrange(1, items.len() as int), table, style)
    }
}

/// The texts of the items, each after a space.
pub open spec fn spaced_items(items: Seq<ValueView>, table: Seq<(u64, String)>, style: Style) -> Seq<char>
    decreases items,
{
    if items.len() == 0 {
        Seq::empty()
    } else {
        seq![' '] + shown(items[0], table, style) + spaced_items(items.subrange(1, items.len() as int), table, style)
    }
}

/// The texts of hash map entries as `print` writes them: the key in quotes,
/// a space, the value.
pub open spec fn entry_texts(entries: Seq<(Seq<char>, ValueView)>, table: Seq<(u64, String)>) -> Seq<Seq<char>>
    decreases entries,
{
    if entries.len() == 0 {
        Seq::empty()
    } else {
        seq![quoted(entries[0].0) + seq![' '] + shown(entries[0].1, table, Style::Print)] + entry_texts(
            entries.subrange(1, entries.len() as int),
            table,
        )
    }
}

/// `x` put into `s` before the first text that `x` does not come after.
pub open spec fn insert_text(x: Seq<char>, s: Seq<Seq<char>>) -> Seq<Seq<char>>
    decreases s.len(),
{
    if s.len() == 0 {
        seq![x]
    } else if chars_less(s[0], x) {
        seq![s[0]] + insert_text(x, s.subrange(1, s.len() as int))
    } else {
        seq![x] + s
    }
}

/// The texts in increasing order (by code point, as strings sort).
pub open spec fn sort_texts(s: Seq<Seq<char>>) -> Seq<Seq<char>>
    decreases s.len(),
{
    if s.len() == 0 {
        s
    } else {
        insert_text(s[0], sort_texts(s.subrange(1, s.len() as int)))
    }
}

/// The character sequences that the vectors hold.
pub open spec fn texts_view(v: Seq<Vec<char>>) -> Seq<Seq<char>> {
    Seq::new(v.len(), |i: int| v[i]@)
}

// ---------------------------------------------------------------------------
// Writing the texts

fn push_text(out: &mut Vec<char>, t: &str)
    ensures
        final(out)@ == old(out)@ + t@,
{
    let v = chars_of(t);
    push_all(out, &v);
}

/// The table's text for the float with bit pattern `b`.
pub(crate) fn float_text(table: &Vec<(u64, String)>, b: u64) -> (r: Option<Vec<char>>)
    ensures
        r is Some == float_entry(table@, b) is Some,
        r is Some ==> r->0@ == float_entry(table@, b)->0,
{
    let mut i: usize = 0;
    assert(table@.subrange(0, table@.len() as int) =~= table@);
    while i < table.len()
        invariant
            i <= table.len(),
            float_entry(table@, b) == float_entry(table@.subrange(i as int, table@.len() as int), b),
        decreases table.len() - i,
    {
        let ghost rest = table@.subrange(i as int, table@.len() as int);
        assert(rest.subrange(1, rest.len() as int) =~= table@.subrange(i + 1, table@.len() as int));
        if table[i].0 == b {
            return Some(chars_of(table[i].1.as_str()));
        }
        i = i + 1;
    }
    None
}

/// Appends the text of `v` in the given style; `false` (with `out` in any
/// state) when the table lacks the text of a float that it shows.
fn write_value(out: &mut Vec<char>, v: &Value, table: &Vec<(u64, String)>, style: Style) -> (ok: bool)
    ensures
        ok == floats_known(value_view(*v), table@, style),
        ok ==> final(out)@ == old(out)@ + shown(value_view(*v), table@, style),
    decreases *v, 0int,
{
    match v {
        Value::Integer(n) => {
            let d = i64_decimal(*n);
            push_all(out, &d);
            true
        },
        Value::Float(b) => {
            match float_text(table, *b) {
                Some(t) => {
                    push_all(out, &t);
                    true
                },
                None => false,
            }
        },
        Value::Boolean(b) => {
            if *b {
                push_text(out, "true");
            } else {
                push_text(out, "false");
            }
            true
        },
        Value::List(list) => {
            out.push('(');
            let ok = write_items(out, &list.items, table, style);
            if ok {
                out.push(')');
                assert(out@ =~= old(out)@ + shown(value_view(*v), table@, style));
            }
            ok
        },
        Value::Symbol(s) => {
            let t = chars_of(s.as_str());
            push_all(out, &t);
            true
        },
        Value::String(s) => {
            let t = chars_of(s.as_str());
            match style {
                Style::Print => {
                    out.push('"');
                    push_all(out, &t);
                    out.push('"');
                    assert(out@ =~= old(out)@ + shown(value_view(*v), table@, style));
                },
                Style::Result => {
                    push_all(out, &t);
                },
            }
            true
        },
        Value::Function(name) => {
            let t = chars_of(name.as_str());
            match style {
                Style::Print => push_text(out, "<function "),
                Style::Result => push_text(out, "#<function:"),
            }
            push_all(out, &t);
            out.push('>');
            assert(out@ =~= old(out)@ + shown(value_view(*v), table@, style));
            true
        },
        Value::Closure(data) => {
            let d = u64_decimal(data.params.len() as u64);
            match style {
                Style::Print => {
                    push_text(out, "<closure/");
                    push_all(out, &d);
                    out.push('>');
                },
                Style::Result => {
                    push_text(out, "#<closure/");
                    push_all(out, &d);
                    if data.rest_param.is_some() {
                        push_text(out, " + rest>");
                    } else {
                        out.push('>');
                    }
                },
            }
            assert(out@ =~= old(out)@ + shown(value_view(*v), table@, style));
            true
        },
        Value::HashMap(entries) => {
            match style {
                Style::Print => {
                    match entry_texts_of(entries, table) {
                        Some(texts) => {
                            let sorted = sort_texts_exec(texts);
                            out.push('{');
                            write_joined(out, &sorted);
                            out.push('}');
                            assert(out@ =~= old(out)@ + shown(value_view(*v), table@, style));
                            true
                        },
                        None => false,
                    }
                },
                Style::Result => {
                    push_text(out, "#<hashmap>");
                    true
                },
            }
        },
        Value::Vector(items) => {
            out.push('[');
            let ok = write_items(out, items, table, style);
            if ok {
                out.push(']');
                assert(out@ =~= old(out)@ + shown(value_view(*v), table@, style));
            }
            ok
        },
        Value::Pointer(p) => {
            let d = i64_decimal(*p);
            match style {
                Style::Print => push_text(out, "<pointer "),
                Style::Result => push_text(out, "#<pointer:"),
            }
            push_all(out, &d);
            out.push('>');
            assert(out@ =~= old(out)@ + shown(value_view(*v), table@, style));
            true
        },
    }
}

/// Appends the texts of the items with one space between each two.
fn write_items(out: &mut Vec<char>, items: &Vec<Value>, table: &Vec<(u64, String)>, style: Style) -> (ok: bool)
    ensures
        ok == items_known(values_view(items@), table@, style),
        ok ==> final(out)@ == old(out)@ + shown_items(values_view(items@), table@, style),
    decreases items@, 1int,
{
    let ghost iv = values_view(items@);
    proof {
        lemma_values_view_len(items@);
    }
    if items.len() == 0 {
        return true;
    }
    proof {
        lemma_values_view_index(items@, 0);
    }
    let first = write_value(out, &items[0], table, style);
    if !first {
        return false;
    }
    let ghost start = old(out)@;
    let mut i: usize = 1;
    while i < items.len()
        invariant
            1 <= i <= items.len(),
            iv == values_view(items@),
            iv.len() == items@.len(),
            items_known(iv, table@, style) == items_known(iv.subrange(i as int, iv.len() as int), table@, style),
            out@ + spaced_items(iv.subrange(i as int, iv.len() as int), table@, style) == start + shown_items(iv, table@, style),
        decreases items.len() - i,
    {
        let ghost rest = iv.subrange(i as int, iv.len() as int);
        assert(rest.subrange(1, rest.len() as int) =~= iv.subrange(i + 1, iv.len() as int));
        proof {
            lemma_values_view_index(items@, i as int);
        }
        let ghost before = out@;
        out.push(' ');
        let ok = write_value(out, &items[i], table, style);
        if !ok {
            return false;
        }
        assert(out@ =~= before + seq![' '] + shown(iv[i as int], table@, style));
        i = i + 1;
    }
    assert(iv.subrange(items.len() as int, iv.len() as int) =~= Seq::<ValueView>::empty());
    true
}

/// The texts of the entries of a hash map, as `print` writes them.
fn entry_texts_of(entries: &Vec<(String, Value)>, table: &Vec<(u64, String)>) -> (r: Option<Vec<Vec<char>>>)
    ensures
        r is Some == entries_known(pairs_view(entries@), table@, Style::Print),
        r is Some ==> texts_view(r->0@) == entry_texts(pairs_view(entries@), table@),
    decreases entries@, 1int,
{
    let ghost ev = pairs_view(entries@);
    proof {
        lemma_pairs_view_len(entries@);
    }
    let mut texts: Vec<Vec<char>> = Vec::new();
    let mut i: usize = 0;
    assert(ev.subrange(0, ev.len() as int) =~= ev);
    while i < entries.len()
        invariant
            i <= entries.len(),
            ev == pairs_view(entries@),
            ev.len() == entries@.len(),
            entries_known(ev, table@, Style::Print) == entries_known(
                ev.subrange(i as int, ev.len() as int),
                table@,
                Style::Print,
            ),
            texts_view(texts@) + entry_texts(ev.subrange(i as int, ev.len() as int), table@) == entry_texts(ev, table@),
        decreases entries.len() - i,
    {
        let ghost rest = ev.subrange(i as int, ev.len() as int);
        assert(rest.subrange(1, rest.len() as int) =~= ev.subrange(i + 1, ev.len() as int));
        proof {
            lemma_pairs_view_index(entries@, i as int);
        }
        let mut t: Vec<char> = Vec::new();
        t.push('"');
        let k = chars_of(entries[i].0.as_str());
        push_all(&mut t, &k);
        t.push('"');
        t.push(' ');
        let ok = write_value(&mut t, &entries[i].1, table, Style::Print);
        if !ok {
            return None;
        }
        assert(t@ =~= quoted(ev[i as int].0) + seq![' '] + shown(ev[i as int].1, table@, Style::Print));
        let ghost before = texts@;
        texts.push(t);
        assert(texts_view(texts@) =~= texts_view(before).push(t@));
        assert(texts_view(texts@) + entry_texts(ev.subrange(i + 1, ev.len() as int), table@) =~= texts_view(before)
            + entry_texts(rest, table@));
        i = i + 1;
    }
    assert(ev.subrange(entries.len() as int, ev.len() as int) =~= Seq::<(Seq<char>, ValueView)>::empty());
    assert(texts_view(texts@) + Seq::<Seq<char>>::empty() =~= texts_view(texts@));
    Some(texts)
}

/// Where `insert_text` puts `x`: after the texts that come before it.
proof fn lemma_insert_text_at(x: Seq<char>, s: Seq<Seq<char>>, k: int)
    requires
        0 <= k <= s.len(),
        forall|j: int| 0 <= j < k ==> chars_less(#[trigger] s[j], x),
        k < s.len() ==> !chars_less(s[k], x),
    ensures
        insert_text(x, s) == s.subrange(0, k) + seq![x] + s.subrange(k, s.len() as int),
    decreases s.len(),
{
    if s.len() == 0 {
        assert(s.subrange(0, k) + seq![x] + s.subrange(k, s.len() as int) =~= seq![x]);
    } else if k == 0 {
        assert(s.subrange(0, k) + seq![x] + s.subrange(k, s.len() as int) =~= seq![x] + s);
    } else {
        let t = s.subrange(1, s.len() as int);
        assert(chars_less(s[0], x));
        assert forall|j: int| 0 <= j < k - 1 implies chars_less(#[trigger] t[j], x) by {
            assert(t[j] == s[j + 1]);
        }
        lemma_insert_text_at(x, t, k - 1);
        assert(s.subrange(0, k) + seq![x] + s.subrange(k, s.len() as int) =~= seq![s[0]] + (t.subrange(0, k - 1)
            + seq![x] + t.subrange(k - 1, t.len() as int)));
    }
}

/// Puts `x` into the sorted texts, in its place.
fn insert_sorted(v: &mut Vec<Vec<char>>, x: Vec<char>)
    ensures
        texts_view(final(v)@) == insert_text(x@, texts_view(old(v)@)),
{
    let mut k: usize = 0;
    while k < v.len()
        invariant
            k <= v.len(),
            v@ == old(v)@,
            forall|j: int| 0 <= j < k ==> chars_less(#[trigger] texts_view(v@)[j], x@),
        ensures
            k <= v.len(),
            v@ == old(v)@,
            forall|j: int| 0 <= j < k ==> chars_less(#[trigger] texts_view(v@)[j], x@),
            k < v.len() ==> !chars_less(texts_view(v@)[k as int], x@),
        decreases v.len() - k,
    {
        assert(texts_view(v@)[k as int] == v@[k as int]@);
        if !chars_less_exec(&v[k], &x) {
            break;
        }
        k = k + 1;
    }
    proof {
        lemma_insert_text_at(x@, texts_view(v@), k as int);
    }
    let ghost xv = x@;
    v.insert(k, x);
    assert(texts_view(v@) =~= texts_view(old(v)@).subrange(0, k as int) + seq![xv] + texts_view(old(v)@).subrange(
        k as int,
        old(v)@.len() as int,
    ));
}

/// The texts in increasing order.
fn sort_texts_exec(texts: Vec<Vec<char>>) -> (r: Vec<Vec<char>>)
    ensures
        texts_view(r@) == sort_texts(texts_view(texts@)),
{
    let ghost all = texts_view(texts@);
    let mut rest = texts;
    let mut r: Vec<Vec<char>> = Vec::new();
    assert(all.subrange(all.len() as int, all.len() as int) =~= Seq::<Seq<char>>::empty());
    while rest.len() > 0
        invariant
            rest@.len() <= all.len(),
            texts_view(rest@) == all.subrange(0, rest@.len() as int),
            texts_view(r@) == sort_texts(all.subrange(rest@.len() as int, all.len() as int)),
        decreases rest@.len(),
    {
        let ghost before = rest@;
        let x = rest.pop().unwrap();
        let n = rest.len();
        assert(texts_view(rest@) =~= all.subrange(0, n as int)) by {
            assert(before == rest@.push(x));
            assert forall|j: int| 0 <= j < n implies texts_view(rest@)[j] == all[j] by {
                assert(texts_view(before)[j] == all.subrange(0, n + 1)[j]);
            }
        }
        assert(x@ == all[n as int]) by {
            assert(texts_view(before)[n as int] == all.subrange(0, n + 1)[n as int]);
        }
        let ghost tail = all.subrange(n as int, all.len() as int);
        assert(tail.subrange(1, tail.len() as int) =~= all.subrange(n + 1, all.len() as int));
        insert_sorted(&mut r, x);
    }
    assert(all.subrange(0, all.len() as int) =~= all);
    r
}

/// Appends the texts with one space between each two.
fn write_joined(out: &mut Vec<char>, parts: &Vec<Vec<char>>)
    ensures
        final(out)@ == old(out)@ + join(texts_view(parts@), seq![' ']),
{
    let ghost pv = texts_view(parts@);
    let mut i: usize = 0;
    assert(pv.subrange(0, 0) =~= Seq::<Seq<char>>::empty());
    while i < parts.len()
        invariant
            i <= parts.len(),
            pv == texts_view(parts@),
            out@ == old(out)@ + join(pv.subrange(0, i as int), seq![' ']),
        decreases parts.len() - i,
    {
        let ghost before = out@;
        let ghost upto = pv.subrange(0, i + 1);
        assert(upto.drop_last() =~= pv.subrange(0, i as int));
        if i > 0 {
            out.push(' ');
        }
        push_all(out, &parts[i]);
        if i == 0 {
            assert(upto.len() == 1);
            assert(out@ =~= old(out)@ + join(upto, seq![' ']));
        } else {
            assert(out@ =~= old(out)@ + join(upto, seq![' ']));
        }
        i = i + 1;
    }
    assert(pv.subrange(0, parts.len() as int) =~= pv);
}

/// The text of `value` as the runner shows a final result: integers in
/// decimal, strings and symbols bare, lists in round and vectors in square
/// brackets, `#<function:f>`, `#<closure/N>` (`#<closure/N + rest>` with a rest
/// parameter), `#<hashmap>`, `#<pointer:P>`. Each float is written as the
/// table gives its bit pattern; `None` when the table lacks one of them.
pub fn format_value(value: &Value, float_texts: &Vec<(u64, String)>) -> (r: Option<String>)
    ensures
        r is Some <==> floats_known(value_view(*value), float_texts@, Style::Result),
        r is Some ==> r->0@ == shown(value_view(*value), float_texts@, Style::Result),
{
    let mut out: Vec<char> = Vec::new();
    if write_value(&mut out, value, float_texts, Style::Result) {
        assert(out@ =~= shown(value_view(*value), float_texts@, Style::Result));
        Some(string_of(&out))
    } else {
        None
    }
}

/// The text of `value` as the `print` instruction writes it: as
/// `format_value` does, but strings in double quotes, `<function f>`,
/// `<closure/N>`, `<pointer P>`, and a hash map as its entries `"key" value`
/// in increasing order, between braces. `None` when the table lacks the text
/// of one of its floats.
pub fn print_text(value: &Value, float_texts: &Vec<(u64, String)>) -> (r: Option<String>)
    ensures
        r is Some <==> floats_known(value_view(*value), float_texts@, Style::Print),
        r is Some ==> r->0@ == shown(value_view(*value), float_texts@, Style::Print),
{
    let mut out: Vec<char> = Vec::new();
    if write_value(&mut out, value, float_texts, Style::Print) {
        assert(out@ =~= shown(value_view(*value), float_texts@, Style::Print));
        Some(string_of(&out))
    } else {
        None
    }
}

// ---------------------------------------------------------------------------
// The floats a text shows

/// The bit patterns of the floats that the text of `v` shows, in order.
pub open spec fn float_list(v: ValueView, style: Style) -> Seq<u64>
    decreases v,
{
    match v {
        ValueView::Float(b) => seq![b],
        ValueView::List(items) => items_floats(items, style),
        ValueView::Vector(items) => items_floats(items, style),
        ValueView::HashMap(entries) => match style {
            Style::Print => entries_floats(entries),
            Style::Result => Seq::empty(),
        },
        _ => Seq::empty(),
    }
}

pub open spec fn items_floats(items: Seq<ValueView>, style: Style) -> Seq<u64>
    decreases items,
{
    if items.len() == 0 {
        Seq::empty()
    } else {
        float_list(items[0], style) + items_floats(items.subrange(1, items.len() as int), style)
    }
}

pub open spec fn entries_floats(entries: Seq<(Seq<char>, ValueView)>) -> Seq<u64>
    decreases entries,
{
    if entries.len() == 0 {
        Seq::empty()
    } else {
        float_list(entries[0].1, Style::Print) + entries_floats(entries.subrange(1, entries.len() as int))
    }
}

/// Whether the table has a text for each of the bit patterns.
pub open spec fn all_listed(bits: Seq<u64>, table: Seq<(u64, String)>) -> bool {
    forall|i: int| 0 <= i < bits.len() ==> (#[trigger] float_entry(table, bits[i])) is Some
}

proof fn lemma_all_listed_split(a: Seq<u64>, b: Seq<u64>, table: Seq<(u64, String)>)
    requires
        all_listed(a + b, table),
    ensures
        all_listed(a, table),
        all_listed(b, table),
{
    assert forall|i: int| 0 <= i < a.len() implies (#[trigger] float_entry(table, a[i])) is Some by {
        assert((a + b)[i] == a[i]);
    }
    assert forall|i: int| 0 <= i < b.len() implies (#[trigger] float_entry(table, b[i])) is Some by {
        assert((a + b)[a.len() + i] == b[i]);
    }
}

/// A table with a text for each float that the text of `v` shows lets it be
/// written.
proof fn lemma_listed_known(v: ValueView, table: Seq<(u64, String)>, style: Style)
    requires
        all_listed(float_list(v, style), table),
    ensures
        floats_known(v, table, style),
    decreases v, 0int,
{
    match v {
        ValueView::Float(b) => {
            assert(float_list(v, style)[0] == b);
        },
        ValueView::List(items) => lemma_items_listed_known(items, table, style),
        ValueView::Vector(items) => lemma_items_listed_known(items, table, style),
        ValueView::HashMap(entries) => {
            if style is Print {
                lemma_entries_listed_known(entries, table);
            }
        },
        _ => {},
    }
}

proof fn lemma_items_listed_known(items: Seq<ValueView>, table: Seq<(u64, String)>, style: Style)
    requires
        all_listed(items_floats(items, style), table),
    ensures
        items_known(items, table, style),
    decreases items, 1int,
{
    if items.len() > 0 {
        lemma_all_listed_split(
            float_list(items[0], style),
            items_floats(items.subrange(1, items.len() as int), style),
            table,
        );
        lemma_listed_known(items[0], table, style);
        lemma_items_listed_known(items.subrange(1, items.len() as int), table, style);
    }
}

proof fn lemma_entries_listed_known(entries: Seq<(Seq<char>, ValueView)>, table: Seq<(u64, String)>)
    requires
        all_listed(entries_floats(entries), table),
    ensures
        entries_known(entries, table, Style::Print),
    decreases entries, 1int,
{
    if entries.len() > 0 {
        lemma_all_listed_split(
            float_list(entries[0].1, Style::Print),
            entries_floats(entries.subrange(1, entries.len() as int)),
            table,
        );
        lemma_listed_known(entries[0].1, table, Style::Print);
        lemma_entries_listed_known(entries.subrange(1, entries.len() as int), table);
    }
}

fn collect_floats(out: &mut Vec<u64>, v: &Value, style: Style)
    ensures
        final(out)@ == old(out)@ + float_list(value_view(*v), style),
    decreases *v, 0int,
{
    match v {
        Value::Float(b) => {
            out.push(*b);
        },
        Value::List(list) => {
            collect_item_floats(out, &list.items, style);
        },
        Value::Vector(items) => {
            collect_item_floats(out, items, style);
        },
        Value::HashMap(entries) => {
            match style {
                Style::Print => collect_entry_floats(out, entries),
                Style::Result => {},
            }
        },
        _ => {},
    }
    assert(out@ =~= old(out)@ + float_list(value_view(*v), style));
}

fn collect_item_floats(out: &mut Vec<u64>, items: &Vec<Value>, style: Style)
    ensures
        final(out)@ == old(out)@ + items_floats(values_view(items@), style),
    decreases items@, 1int,
{
    let ghost iv = values_view(items@);
    proof {
        lemma_values_view_len(items@);
    }
    let mut i: usize = 0;
    assert(iv.subrange(0, iv.len() as int) =~= iv);
    while i < items.len()
        invariant
            i <= items.len(),
            iv == values_view(items@),
            iv.len() == items@.len(),
            out@ + items_floats(iv.subrange(i as int, iv.len() as int), style) == old(out)@ + items_floats(iv, style),
        decreases items.len() - i,
    {
        let ghost rest = iv.subrange(i as int, iv.len() as int);
        assert(rest.subrange(1, rest.len() as int) =~= iv.subrange(i + 1, iv.len() as int));
        proof {
            lemma_values_view_index(items@, i as int);
        }
        let ghost before = out@;
        collect_floats(out, &items[i], style);
        assert(out@ + items_floats(iv.subrange(i + 1, iv.len() as int), style) =~= before + items_floats(rest, style));
        i = i + 1;
    }
    assert(iv.subrange(items.len() as int, iv.len() as int) =~= Seq::<ValueView>::empty());
    assert(out@ =~= old(out)@ + items_floats(iv, style));
}

fn collect_entry_floats(out: &mut Vec<u64>, entries: &Vec<(String, Value)>)
    ensures
        final(out)@ == old(out)@ + entries_floats(pairs_view(entries@)),
    decreases entries@, 1int,
{
    let ghost ev = pairs_view(entries@);
    proof {
        lemma_pairs_view_len(entries@);
    }
    let mut i: usize = 0;
    assert(ev.subrange(0, ev.len() as int) =~= ev);
    while i < entries.len()
        invariant
            i <= entries.len(),
            ev == pairs_view(entries@),
            ev.len() == entries@.len(),
            out@ + entries_floats(ev.subrange(i as int, ev.len() as int)) == old(out)@ + entries_floats(ev),
        decreases entries.len() - i,
    {
        let ghost rest = ev.subrange(i as int, ev.len() as int);
        assert(rest.subrange(1, rest.len() as int) =~= ev.subrange(i + 1, ev.len() as int));
        proof {
            lemma_pairs_view_index(entries@, i as int);
        }
        let ghost before = out@;
        collect_floats(out, &entries[i].1, Style::Print);
        assert(out@ + entries_floats(ev.subrange(i + 1, ev.len() as int)) =~= before + entries_floats(rest));
        i = i + 1;
    }
    assert(ev.subrange(entries.len() as int, ev.len() as int) =~= Seq::<(Seq<char>, ValueView)>::empty());
    assert(out@ =~= old(out)@ + entries_floats(ev));
}

/// The bit patterns of the floats that the text of `value` shows in the given
/// style, in order: a table with a text for each of them lets `format_value`
/// and `print_text` write it.
pub fn float_bits(value: &Value, style: Style) -> (r: Vec<u64>)
    ensures
        r@ == float_list(value_view(*value), style),
        forall|table: Seq<(u64, String)>|
            all_listed(r@, table) ==> #[trigger] floats_known(value_view(*value), table, style),
{
    let mut r: Vec<u64> = Vec::new();
    collect_floats(&mut r, value, style);
    assert(r@ =~= float_list(value_view(*value), style));
    assert forall|table: Seq<(u64, String)>| all_listed(r@, table) implies #[trigger] floats_known(
        value_view(*value),
        table,
        style,
    ) by {
        lemma_listed_known(value_view(*value), table, style);
    }
    r
}
} // verus!
