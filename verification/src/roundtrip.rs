use vstd::prelude::*;
use vstd::utf8::{encode_utf8, decode_utf8, valid_utf8, encode_utf8_valid_utf8, encode_utf8_decode_utf8};
use crate::bytecode::{
    u32_le, u64_le, u32_at, u64_at, enc_len, enc_str, enc_strs, rd_u32, rd_str, rd_strs, DecodeError,
    enc_value, enc_values, enc_pairs, enc_instr, enc_instrs, enc_opt_str, rd_value, rd_values, rd_pairs,
    rd_closure, rd_instr, rd_instrs, rd_make_closure, writable_value, writable_values, writable_pairs,
    writable_instr, writable_instrs, insert_all, insert_entry, key_index, enc_code, enc_table,
    enc_program, rd_code, rd_table, dec_program, writable_table,
};
use crate::value::ValueView;
use crate::instructions::{InstrView, simple_of_opcode, indexed_of_opcode};

verus! {
/// `e` stands in `b` from position `pos` on.
pub open spec fn at(b: Seq<u8>, pos: int, e: Seq<u8>) -> bool {
    0 <= pos && pos + e.len() <= b.len() && b.subrange(pos, pos + e.len()) == e
}

pub proof fn lemma_at_split(b: Seq<u8>, pos: int, x: Seq<u8>, y: Seq<u8>)
    requires
        at(b, pos, x + y),
    ensures
        at(b, pos, x),
        at(b, pos + x.len(), y),
{
    let whole = b.subrange(pos, pos + x.len() + y.len());
    assert(whole == x + y);
    assert(b.subrange(pos, pos + x.len()) =~= whole.subrange(0, x.len() as int));
    assert(whole.subrange(0, x.len() as int) =~= x);
    assert(b.subrange(pos + x.len(), pos + x.len() + y.len()) =~= whole.subrange(x.len() as int, whole.len() as int));
    assert(whole.subrange(x.len() as int, whole.len() as int) =~= y);
}

pub proof fn lemma_at_byte(b: Seq<u8>, pos: int, x: Seq<u8>)
    requires
        at(b, pos, x),
        x.len() > 0,
    ensures
        b[pos] == x[0],
{
    assert(b.subrange(pos, pos + x.len())[0] == b[pos]);
}

pub proof fn lemma_u32_bytes(x: u32)
    ensures
        ((x % 256) as u8) as int + 256 * (((x / 256) % 256) as u8) as int + 65536 * (((x / 65536) % 256) as u8) as int
            + 16777216 * (((x / 16777216) % 256) as u8) as int == x as int,
{
    assert(((x % 256) as u8) as int + 256 * (((x / 256) % 256) as u8) as int + 65536 * (((x / 65536) % 256) as u8) as int
        + 16777216 * (((x / 16777216) % 256) as u8) as int == x as int) by (bit_vector);
}

pub proof fn lemma_rd_u32(b: Seq<u8>, pos: int, x: u32)
    requires
        at(b, pos, u32_le(x)),
    ensures
        rd_u32(b, pos) == Ok::<(u32, int), DecodeError>((x, pos + 4)),
{
    let e = u32_le(x);
    assert(b[pos] == e[0]) by { assert(b.subrange(pos, pos + 4)[0] == b[pos]); }
    assert(b[pos + 1] == e[1]) by { assert(b.subrange(pos, pos + 4)[1] == b[pos + 1]); }
    assert(b[pos + 2] == e[2]) by { assert(b.subrange(pos, pos + 4)[2] == b[pos + 2]); }
    assert(b[pos + 3] == e[3]) by { assert(b.subrange(pos, pos + 4)[3] == b[pos + 3]); }
    lemma_u32_bytes(x);
}

pub proof fn lemma_u64_parts(v: u64)
    ensures
        ((v % 4294967296) as u32) as int + 4294967296 * ((v / 4294967296) as u32) as int == v as int,
{
    assert(((v % 4294967296) as u32) as int + 4294967296 * ((v / 4294967296) as u32) as int == v as int) by (bit_vector);
}

pub proof fn lemma_rd_u64(b: Seq<u8>, pos: int, v: u64)
    requires
        at(b, pos, u64_le(v)),
    ensures
        pos + 8 <= b.len(),
        u64_at(b, pos) == v,
{
    let lo = (v % 4294967296) as u32;
    let hi = (v / 4294967296) as u32;
    lemma_at_split(b, pos, u32_le(lo), u32_le(hi));
    lemma_rd_u32(b, pos, lo);
    lemma_rd_u32(b, pos + 4, hi);
    lemma_u64_parts(v);
}

pub proof fn lemma_i64_bits(n: i64)
    ensures
        (n as u64) as i64 == n,
{
    assert((n as u64) as i64 == n) by (bit_vector);
}

/// The string fits the 32-bit length field.
pub open spec fn fits_str(s: Seq<char>) -> bool {
    encode_utf8(s).len() < 4294967296
}

pub proof fn lemma_rd_str(b: Seq<u8>, pos: int, s: Seq<char>)
    requires
        at(b, pos, enc_str(s)),
        fits_str(s),
    ensures
        rd_str(b, pos) == Ok::<(Seq<char>, int), DecodeError>((s, pos + enc_str(s).len())),
{
    let u = encode_utf8(s);
    let n = u.len() as u32;
    assert(n as int == u.len());
    lemma_at_split(b, pos, enc_len(u.len() as int), u);
    lemma_rd_u32(b, pos, n);
    encode_utf8_valid_utf8(s);
    encode_utf8_decode_utf8(s);
    assert(b.subrange(pos + 4, pos + 4 + n) == u);
}

pub open spec fn fits_strs(s: Seq<Seq<char>>) -> bool {
    forall|i: int| 0 <= i < s.len() ==> #[trigger] fits_str(s[i])
}

pub proof fn lemma_rd_strs(b: Seq<u8>, pos: int, s: Seq<Seq<char>>)
    requires
        at(b, pos, enc_strs(s)),
        fits_strs(s),
    ensures
        rd_strs(b, pos, s.len()) == Ok::<(Seq<Seq<char>>, int), DecodeError>((s, pos + enc_strs(s).len())),
    decreases s.len(),
{
    if s.len() > 0 {
        let rest = s.subrange(1, s.len() as int);
        lemma_at_split(b, pos, enc_str(s[0]), enc_strs(rest));
        assert(fits_str(s[0]));
        lemma_rd_str(b, pos, s[0]);
        assert forall|i: int| 0 <= i < rest.len() implies #[trigger] fits_str(rest[i]) by {
            assert(rest[i] == s[i + 1]);
            assert(fits_str(s[i + 1]));
        }
        lemma_rd_strs(b, pos + enc_str(s[0]).len(), rest);
        assert(seq![s[0]] + rest =~= s);
        assert(rest.len() == (s.len() - 1) as nat);
        assert(enc_strs(s).len() == enc_str(s[0]).len() + enc_strs(rest).len());
    } else {
        assert(s =~= Seq::<Seq<char>>::empty());
    }
}


pub open spec fn distinct_keys<V>(e: Seq<(Seq<char>, V)>) -> bool {
    forall|i: int, j: int| 0 <= i < j < e.len() ==> e[i].0 != e[j].0
}

/// Every count, length and numeric operand fits 32 bits, the opcodes are
/// those of instructions, and no hash map holds a key twice.
pub open spec fn fits_value(v: ValueView) -> bool
    decreases v,
{
    match v {
        ValueView::List(items) => items.len() < 4294967296 && fits_values(items),
        ValueView::Vector(items) => items.len() < 4294967296 && fits_values(items),
        ValueView::Symbol(s) => fits_str(s),
        ValueView::String(s) => fits_str(s),
        ValueView::Function(s) => fits_str(s),
        ValueView::Closure(params, rest, body, cap) => {
            &&& params.len() < 4294967296
            &&& fits_strs(params)
            &&& (match rest {
                Some(r) => fits_str(r),
                None => true,
            })
            &&& body.len() < 4294967296
            &&& fits_instrs(body)
            &&& cap.len() < 4294967296
            &&& fits_pairs(cap)
        },
        ValueView::HashMap(e) => e.len() < 4294967296 && fits_pairs(e) && distinct_keys(e),
        _ => true,
    }
}

pub open spec fn fits_values(s: Seq<ValueView>) -> bool
    decreases s,
{
    s.len() > 0 ==> fits_value(s[0]) && fits_values(s.subrange(1, s.len() as int))
}

pub open spec fn fits_pairs(s: Seq<(Seq<char>, ValueView)>) -> bool
    decreases s,
{
    s.len() > 0 ==> fits_str(s[0].0) && fits_value(s[0].1) && fits_pairs(s.subrange(1, s.len() as int))
}

pub open spec fn fits_instr(i: InstrView) -> bool
    decreases i,
{
    match i {
        InstrView::Push(v) => fits_value(v),
        InstrView::Simple(op) => simple_of_opcode(op).is_some(),
        InstrView::Indexed(op, a) => indexed_of_opcode(op, 0).is_some() && a < 4294967296,
        InstrView::Call(name, n) => fits_str(name) && n < 4294967296,
        InstrView::TailCall(name, n) => fits_str(name) && n < 4294967296,
        InstrView::CheckArity(a, c) => a < 4294967296 && c < 4294967296,
        InstrView::MakeClosure(params, body, n) => {
            &&& params.len() < 4294967296
            &&& fits_strs(params)
            &&& body.len() < 4294967296
            &&& fits_instrs(body)
            &&& n < 4294967296
        },
        InstrView::MakeVariadicClosure(params, rest, body, n) => {
            &&& params.len() < 4294967296
            &&& fits_strs(params)
            &&& fits_str(rest)
            &&& body.len() < 4294967296
            &&& fits_instrs(body)
            &&& n < 4294967296
        },
        InstrView::LoadGlobal(name) => fits_str(name),
        InstrView::StoreGlobal(name) => fits_str(name),
        InstrView::FfiCall(_, _) => true,
    }
}

pub open spec fn fits_instrs(s: Seq<InstrView>) -> bool
    decreases s,
{
    s.len() > 0 ==> fits_instr(s[0]) && fits_instrs(s.subrange(1, s.len() as int))
}

proof fn lemma_insert_all_fresh<V>(t: Seq<(Seq<char>, V)>, e: Seq<(Seq<char>, V)>)
    requires
        distinct_keys(t + e),
    ensures
        insert_all(t, e) == t + e,
    decreases e.len(),
{
    if e.len() > 0 {
        lemma_key_index_absent(t, e[0].0);
        assert forall|i: int| 0 <= i < t.len() implies t[i].0 != e[0].0 by {
            assert((t + e)[i] == t[i]);
            assert((t + e)[t.len() as int] == e[0]);
        }
        let rest = e.subrange(1, e.len() as int);
        assert(t.push(e[0]) + rest =~= t + e);
        lemma_insert_all_fresh(t.push(e[0]), rest);
    } else {
        assert(t + e =~= t);
    }
}

proof fn lemma_key_index_absent<V>(t: Seq<(Seq<char>, V)>, k: Seq<char>)
    ensures
        (forall|i: int| 0 <= i < t.len() ==> t[i].0 != k) ==> key_index(t, k) == t.len(),
    decreases t.len(),
{
    if t.len() > 0 {
        let rest = t.subrange(1, t.len() as int);
        lemma_key_index_absent(rest, k);
        if forall|i: int| 0 <= i < t.len() ==> t[i].0 != k {
            assert forall|i: int| 0 <= i < rest.len() implies rest[i].0 != k by {
                assert(rest[i] == t[i + 1]);
            }
        }
    }
}

proof fn lemma_enc_value_nonempty(v: ValueView)
    requires
        writable_value(v),
    ensures
        enc_value(v).len() > 0,
{
}

proof fn lemma_enc_instr_nonempty(i: InstrView)
    requires
        writable_instr(i),
    ensures
        enc_instr(i).len() > 0,
{
}

pub proof fn lemma_rt_value(b: Seq<u8>, pos: int, v: ValueView)
    requires
        writable_value(v),
        fits_value(v),
        at(b, pos, enc_value(v)),
    ensures
        rd_value(b, pos) == Ok::<(ValueView, int), DecodeError>((v, pos + enc_value(v).len())),
    decreases v, 2int,
{
    let e = enc_value(v);
    lemma_at_byte(b, pos, e);
    let tail = e.subrange(1, e.len() as int);
    assert(seq![e[0]] + tail =~= e);
    lemma_at_split(b, pos, seq![e[0]], tail);
    match v {
        ValueView::List(_) => lemma_rt_items(b, pos, v),
        ValueView::Vector(_) => lemma_rt_items(b, pos, v),
        ValueView::HashMap(_) => lemma_rt_map(b, pos, v),
        ValueView::Closure(_, _, _, _) => lemma_rt_closure(b, pos + 1, v),
        _ => lemma_rt_atom(b, pos, v),
    }
}

proof fn lemma_rt_atom(b: Seq<u8>, pos: int, v: ValueView)
    requires
        !(v is List || v is Vector || v is HashMap || v is Closure),
        writable_value(v),
        fits_value(v),
        at(b, pos, enc_value(v)),
        at(b, pos + 1, enc_value(v).subrange(1, enc_value(v).len() as int)),
        b[pos] == enc_value(v)[0],
    ensures
        rd_value(b, pos) == Ok::<(ValueView, int), DecodeError>((v, pos + enc_value(v).len())),
{
    let e = enc_value(v);
    let p = pos + 1;
    let tail = e.subrange(1, e.len() as int);
    match v {
        ValueView::Integer(n) => {
            assert(tail =~= u64_le(n as u64));
            lemma_rd_u64(b, p, n as u64);
            lemma_i64_bits(n);
        },
        ValueView::Boolean(x) => {
            lemma_at_byte(b, p, tail);
        },
        ValueView::Float(bits) => {
            assert(tail =~= u64_le(bits));
            lemma_rd_u64(b, p, bits);
        },
        ValueView::Symbol(x) => {
            assert(tail =~= enc_str(x));
            lemma_rd_str(b, p, x);
        },
        ValueView::String(x) => {
            assert(tail =~= enc_str(x));
            lemma_rd_str(b, p, x);
        },
        ValueView::Function(x) => {
            assert(tail =~= enc_str(x));
            lemma_rd_str(b, p, x);
        },
        _ => {},
    }
}

#[verifier::rlimit(60)]
proof fn lemma_rt_items(b: Seq<u8>, pos: int, v: ValueView)
    requires
        v is List || v is Vector,
        writable_value(v),
        fits_value(v),
        at(b, pos, enc_value(v)),
        at(b, pos + 1, enc_value(v).subrange(1, enc_value(v).len() as int)),
        b[pos] == enc_value(v)[0],
    ensures
        rd_value(b, pos) == Ok::<(ValueView, int), DecodeError>((v, pos + enc_value(v).len())),
    decreases v, 1int,
{
    let e = enc_value(v);
    let p = pos + 1;
    let tail = e.subrange(1, e.len() as int);
    let items = if v is List { v->List_0 } else { v->Vector_0 };
    assert(tail =~= enc_len(items.len() as int) + enc_values(items));
    lemma_at_split(b, p, enc_len(items.len() as int), enc_values(items));
    lemma_rd_u32(b, p, items.len() as u32);
    lemma_rt_values(b, p + 4, items);
}

#[verifier::rlimit(60)]
proof fn lemma_rt_map(b: Seq<u8>, pos: int, v: ValueView)
    requires
        v is HashMap,
        writable_value(v),
        fits_value(v),
        at(b, pos, enc_value(v)),
        at(b, pos + 1, enc_value(v).subrange(1, enc_value(v).len() as int)),
        b[pos] == enc_value(v)[0],
    ensures
        rd_value(b, pos) == Ok::<(ValueView, int), DecodeError>((v, pos + enc_value(v).len())),
    decreases v, 1int,
{
    let e = enc_value(v);
    let p = pos + 1;
    let tail = e.subrange(1, e.len() as int);
    let entries = v->HashMap_0;
    assert(tail =~= enc_len(entries.len() as int) + enc_pairs(entries));
    lemma_at_split(b, p, enc_len(entries.len() as int), enc_pairs(entries));
    lemma_rd_u32(b, p, entries.len() as u32);
    lemma_rt_pairs(b, p + 4, entries);
    assert(Seq::<(Seq<char>, ValueView)>::empty() + entries =~= entries);
    lemma_insert_all_fresh(Seq::<(Seq<char>, ValueView)>::empty(), entries);
}

#[verifier::rlimit(100)]
#[verifier::spinoff_prover]
pub proof fn lemma_rt_closure(b: Seq<u8>, p: int, v: ValueView)
    requires
        v is Closure,
        writable_value(v),
        fits_value(v),
        at(b, p - 1, enc_value(v)),
        b[p - 1] == 6,
    ensures
        rd_closure(b, p) == Ok::<(ValueView, int), DecodeError>((v, p - 1 + enc_value(v).len())),
        rd_value(b, p - 1) == Ok::<(ValueView, int), DecodeError>((v, p - 1 + enc_value(v).len())),
    decreases v, 1int,
{
    let (params, rest, body, cap) = (v->Closure_0, v->Closure_1, v->Closure_2, v->Closure_3);
    let e = enc_value(v);
    let a1 = enc_len(params.len() as int);
    let a2 = enc_strs(params);
    let a3 = enc_opt_str(rest);
    let a4 = enc_len(body.len() as int);
    let a5 = enc_instrs(body);
    let a6 = enc_len(cap.len() as int);
    let a7 = enc_pairs(cap);
    assert(e =~= seq![6u8] + (a1 + (a2 + (a3 + (a4 + (a5 + (a6 + a7)))))));
    lemma_at_split(b, p - 1, seq![6u8], a1 + (a2 + (a3 + (a4 + (a5 + (a6 + a7))))));
    lemma_at_split(b, p, a1, a2 + (a3 + (a4 + (a5 + (a6 + a7)))));
    let q1 = p + 4;
    lemma_rd_u32(b, p, params.len() as u32);
    lemma_at_split(b, q1, a2, a3 + (a4 + (a5 + (a6 + a7))));
    lemma_rd_strs(b, q1, params);
    let q2 = q1 + a2.len();
    lemma_at_split(b, q2, a3, a4 + (a5 + (a6 + a7)));
    lemma_at_byte(b, q2, a3);
    match rest {
        Some(r) => {
            assert(a3 =~= seq![1u8] + enc_str(r));
            lemma_at_split(b, q2, seq![1u8], enc_str(r));
            lemma_rd_str(b, q2 + 1, r);
        },
        None => {},
    }
    let q3 = q2 + a3.len();
    lemma_at_split(b, q3, a4, a5 + (a6 + a7));
    lemma_rd_u32(b, q3, body.len() as u32);
    let q4 = q3 + 4;
    lemma_at_split(b, q4, a5, a6 + a7);
    lemma_rt_instrs(b, q4, body);
    let q5 = q4 + a5.len();
    lemma_at_split(b, q5, a6, a7);
    lemma_rd_u32(b, q5, cap.len() as u32);
    let q6 = q5 + 4;
    lemma_rt_pairs(b, q6, cap);
}

pub proof fn lemma_rt_values(b: Seq<u8>, pos: int, s: Seq<ValueView>)
    requires
        writable_values(s),
        fits_values(s),
        at(b, pos, enc_values(s)),
    ensures
        rd_values(b, pos, s.len()) == Ok::<(Seq<ValueView>, int), DecodeError>((s, pos + enc_values(s).len())),
    decreases s, 0int,
{
    if s.len() > 0 {
        let rest = s.subrange(1, s.len() as int);
        lemma_at_split(b, pos, enc_value(s[0]), enc_values(rest));
        lemma_rt_value(b, pos, s[0]);
        lemma_enc_value_nonempty(s[0]);
        lemma_rt_values(b, pos + enc_value(s[0]).len(), rest);
        assert(seq![s[0]] + rest =~= s);
        assert(rest.len() == (s.len() - 1) as nat);
    } else {
        assert(s =~= Seq::<ValueView>::empty());
    }
}

pub proof fn lemma_rt_pairs(b: Seq<u8>, pos: int, s: Seq<(Seq<char>, ValueView)>)
    requires
        writable_pairs(s),
        fits_pairs(s),
        at(b, pos, enc_pairs(s)),
    ensures
        rd_pairs(b, pos, s.len()) == Ok::<(Seq<(Seq<char>, ValueView)>, int), DecodeError>((s, pos + enc_pairs(s).len())),
    decreases s, 0int,
{
    if s.len() > 0 {
        let rest = s.subrange(1, s.len() as int);
        lemma_at_split(b, pos, enc_str(s[0].0) + enc_value(s[0].1), enc_pairs(rest));
        lemma_at_split(b, pos, enc_str(s[0].0), enc_value(s[0].1));
        lemma_rd_str(b, pos, s[0].0);
        lemma_rt_value(b, pos + enc_str(s[0].0).len(), s[0].1);
        lemma_enc_value_nonempty(s[0].1);
        lemma_rt_pairs(b, pos + enc_str(s[0].0).len() + enc_value(s[0].1).len(), rest);
        assert(seq![(s[0].0, s[0].1)] + rest =~= s);
        assert(rest.len() == (s.len() - 1) as nat);
    } else {
        assert(s =~= Seq::<(Seq<char>, ValueView)>::empty());
    }
}

#[verifier::rlimit(100)]
#[verifier::spinoff_prover]
pub proof fn lemma_rt_instr(b: Seq<u8>, pos: int, i: InstrView)
    requires
        writable_instr(i),
        fits_instr(i),
        at(b, pos, enc_instr(i)),
    ensures
        rd_instr(b, pos) == Ok::<(InstrView, int), DecodeError>((i, pos + enc_instr(i).len())),
    decreases i, 1int,
{
    let e = enc_instr(i);
    lemma_at_byte(b, pos, e);
    let p = pos + 1;
    let tail = e.subrange(1, e.len() as int);
    assert(seq![e[0]] + tail =~= e);
    lemma_at_split(b, pos, seq![e[0]], tail);
    match i {
        InstrView::Push(v) => {
            assert(tail =~= enc_value(v));
            lemma_rt_value(b, p, v);
        },
        InstrView::Simple(op) => {},
        InstrView::Indexed(op, a) => {
            assert(tail =~= enc_len(a as int));
            lemma_rd_u32(b, p, a as u32);
        },
        InstrView::Call(name, n) => {
            assert(tail =~= enc_str(name) + enc_len(n as int));
            lemma_at_split(b, p, enc_str(name), enc_len(n as int));
            lemma_rd_str(b, p, name);
            lemma_rd_u32(b, p + enc_str(name).len(), n as u32);
        },
        InstrView::TailCall(name, n) => {
            assert(tail =~= enc_str(name) + enc_len(n as int));
            lemma_at_split(b, p, enc_str(name), enc_len(n as int));
            lemma_rd_str(b, p, name);
            lemma_rd_u32(b, p + enc_str(name).len(), n as u32);
        },
        InstrView::CheckArity(a, c) => {
            assert(tail =~= enc_len(a as int) + enc_len(c as int));
            lemma_at_split(b, p, enc_len(a as int), enc_len(c as int));
            lemma_rd_u32(b, p, a as u32);
            lemma_rd_u32(b, p + 4, c as u32);
        },
        InstrView::MakeClosure(_, _, _) => {
            lemma_rt_make_closure(b, p, i);
        },
        InstrView::MakeVariadicClosure(_, _, _, _) => {
            lemma_rt_make_closure(b, p, i);
        },
        InstrView::LoadGlobal(name) => {
            assert(tail =~= enc_str(name));
            lemma_rd_str(b, p, name);
        },
        InstrView::StoreGlobal(name) => {
            assert(tail =~= enc_str(name));
            lemma_rd_str(b, p, name);
        },
        InstrView::FfiCall(_, _) => {},
    }
}

#[verifier::rlimit(100)]
pub proof fn lemma_rt_make_closure(b: Seq<u8>, p: int, i: InstrView)
    requires
        i is MakeClosure || i is MakeVariadicClosure,
        writable_instr(i),
        fits_instr(i),
        at(b, p - 1, enc_instr(i)),
    ensures
        rd_make_closure(b, p, i is MakeVariadicClosure) == Ok::<(InstrView, int), DecodeError>((i, p - 1 + enc_instr(i).len())),
    decreases i, 0int,
{
    let (params, rest, body, n, op, r3) = match i {
        InstrView::MakeClosure(params, body, n) => (params, Seq::<char>::empty(), body, n, 32u8, Seq::<u8>::empty()),
        InstrView::MakeVariadicClosure(params, rest, body, n) => (params, rest, body, n, 77u8, enc_str(rest)),
        _ => (Seq::empty(), Seq::empty(), Seq::empty(), 0usize, 0u8, Seq::empty()),
    };
    let e = enc_instr(i);
    let a1 = enc_len(params.len() as int);
    let a2 = enc_strs(params);
    let a4 = enc_len(body.len() as int);
    let a5 = enc_instrs(body);
    let a6 = enc_len(n as int);
    assert(e =~= seq![op] + (a1 + (a2 + (r3 + (a4 + (a5 + a6))))));
    lemma_at_split(b, p - 1, seq![op], a1 + (a2 + (r3 + (a4 + (a5 + a6)))));
    lemma_at_split(b, p, a1, a2 + (r3 + (a4 + (a5 + a6))));
    lemma_rd_u32(b, p, params.len() as u32);
    let q1 = p + 4;
    lemma_at_split(b, q1, a2, r3 + (a4 + (a5 + a6)));
    lemma_rd_strs(b, q1, params);
    let q2 = q1 + a2.len();
    lemma_at_split(b, q2, r3, a4 + (a5 + a6));
    if i is MakeVariadicClosure {
        lemma_rd_str(b, q2, rest);
    }
    let q3 = q2 + r3.len();
    lemma_at_split(b, q3, a4, a5 + a6);
    lemma_rd_u32(b, q3, body.len() as u32);
    let q4 = q3 + 4;
    lemma_at_split(b, q4, a5, a6);
    lemma_rt_instrs(b, q4, body);
    lemma_rd_u32(b, q4 + a5.len(), n as u32);
}

pub proof fn lemma_rt_instrs(b: Seq<u8>, pos: int, s: Seq<InstrView>)
    requires
        writable_instrs(s),
        fits_instrs(s),
        at(b, pos, enc_instrs(s)),
    ensures
        rd_instrs(b, pos, s.len()) == Ok::<(Seq<InstrView>, int), DecodeError>((s, pos + enc_instrs(s).len())),
    decreases s, 0int,
{
    if s.len() > 0 {
        let rest = s.subrange(1, s.len() as int);
        lemma_at_split(b, pos, enc_instr(s[0]), enc_instrs(rest));
        lemma_rt_instr(b, pos, s[0]);
        lemma_enc_instr_nonempty(s[0]);
        lemma_rt_instrs(b, pos + enc_instr(s[0]).len(), rest);
        assert(seq![s[0]] + rest =~= s);
        assert(rest.len() == (s.len() - 1) as nat);
    } else {
        assert(s =~= Seq::<InstrView>::empty());
    }
}


/// The functions' names differ, and every count, length and operand in the
/// table fits 32 bits.
pub open spec fn fits_table(t: Seq<(Seq<char>, Seq<InstrView>)>) -> bool {
    &&& t.len() < 4294967296
    &&& distinct_keys(t)
    &&& forall|i: int| 0 <= i < t.len() ==> #[trigger] fits_str(t[i].0) && t[i].1.len() < 4294967296 && fits_instrs(t[i].1)
}

proof fn lemma_rt_code(b: Seq<u8>, pos: int, s: Seq<InstrView>)
    requires
        writable_instrs(s),
        fits_instrs(s),
        s.len() < 4294967296,
        at(b, pos, enc_code(s)),
    ensures
        rd_code(b, pos) == Ok::<(Seq<InstrView>, int), DecodeError>((s, pos + enc_code(s).len())),
{
    lemma_at_split(b, pos, enc_len(s.len() as int), enc_instrs(s));
    lemma_rd_u32(b, pos, s.len() as u32);
    lemma_rt_instrs(b, pos + 4, s);
}

proof fn lemma_rt_table(b: Seq<u8>, pos: int, t: Seq<(Seq<char>, Seq<InstrView>)>)
    requires
        writable_table(t),
        forall|i: int| 0 <= i < t.len() ==> #[trigger] fits_str(t[i].0) && t[i].1.len() < 4294967296 && fits_instrs(t[i].1),
        at(b, pos, enc_table(t)),
    ensures
        rd_table(b, pos, t.len()) == Ok::<(Seq<(Seq<char>, Seq<InstrView>)>, int), DecodeError>((t, pos + enc_table(t).len())),
    decreases t.len(),
{
    if t.len() > 0 {
        let rest = t.subrange(1, t.len() as int);
        assert(fits_str(t[0].0) && t[0].1.len() < 4294967296 && fits_instrs(t[0].1));
        assert(writable_instrs(t[0].1));
        lemma_at_split(b, pos, enc_str(t[0].0) + enc_code(t[0].1), enc_table(rest));
        lemma_at_split(b, pos, enc_str(t[0].0), enc_code(t[0].1));
        lemma_rd_str(b, pos, t[0].0);
        lemma_rt_code(b, pos + enc_str(t[0].0).len(), t[0].1);
        assert forall|i: int| 0 <= i < rest.len() implies #[trigger] fits_str(rest[i].0) && rest[i].1.len() < 4294967296 && fits_instrs(rest[i].1) by {
            assert(rest[i] == t[i + 1]);
            assert(fits_str(t[i + 1].0) && t[i + 1].1.len() < 4294967296 && fits_instrs(t[i + 1].1));
        }
        assert forall|i: int| 0 <= i < rest.len() implies #[trigger] writable_instrs(rest[i].1) by {
            assert(rest[i] == t[i + 1]);
            assert(writable_instrs(t[i + 1].1));
        }
        lemma_rt_table(b, pos + enc_str(t[0].0).len() + enc_code(t[0].1).len(), rest);
        assert(seq![(t[0].0, t[0].1)] + rest =~= t);
        assert(rest.len() == (t.len() - 1) as nat);
    } else {
        assert(t =~= Seq::<(Seq<char>, Seq<InstrView>)>::empty());
    }
}

/// Reading back a written program gives the same functions, in the same
/// order, and the same main code, when it can be written (no pointer value,
/// no foreign call), its counts, lengths and operands fit 32 bits, no hash
/// map holds a key twice, and the functions' names differ.
pub proof fn law_bytecode_roundtrip(t: Seq<(Seq<char>, Seq<InstrView>)>, main: Seq<InstrView>)
    requires
        writable_table(t),
        writable_instrs(main),
        fits_table(t),
        fits_instrs(main),
        main.len() < 4294967296,
    ensures
        dec_program(enc_program(t, main)) == Ok::<(Seq<(Seq<char>, Seq<InstrView>)>, Seq<InstrView>), DecodeError>((t, main)),
{
    let b = enc_program(t, main);
    let head = seq![76u8, 73u8, 83u8, 80u8, 7u8];
    assert(b =~= head + (enc_len(t.len() as int) + (enc_table(t) + enc_code(main))));
    assert(b.subrange(0, 4) =~= seq![76u8, 73u8, 83u8, 80u8]);
    assert(b[4] == 7u8);
    assert(at(b, 0, b)) by {
        assert(b.subrange(0, b.len() as int) =~= b);
    }
    lemma_at_split(b, 0, head, enc_len(t.len() as int) + (enc_table(t) + enc_code(main)));
    lemma_at_split(b, 5, enc_len(t.len() as int), enc_table(t) + enc_code(main));
    lemma_rd_u32(b, 5, t.len() as u32);
    lemma_at_split(b, 9, enc_table(t), enc_code(main));
    lemma_rt_table(b, 9, t);
    lemma_rt_code(b, (9 + enc_table(t).len()) as int, main);
    assert(Seq::<(Seq<char>, Seq<InstrView>)>::empty() + t =~= t);
    lemma_insert_all_fresh(Seq::<(Seq<char>, Seq<InstrView>)>::empty(), t);
}
} // verus!
