use vstd::prelude::*;
use vstd::utf8::{encode_utf8, decode_utf8, valid_utf8};
use crate::text::decimal;
use crate::instructions::{
    simple_from_opcode, indexed_from_opcode, lemma_simple_roundtrip, lemma_indexed_roundtrip,
    simple_of_opcode, indexed_of_opcode,
    lemma_simple_view, lemma_indexed_view, lemma_classify,
    Instruction, InstrView, instr_view, simple_opcode, index_opcode, instrs_view, opcode_of_simple, opcode_of_indexed,
    lemma_instrs_view_ext, lemma_instrs_view_index, lemma_instrs_view_len,
};
use crate::value::{
    Value, ValueView, List, ClosureData, value_view, values_view, pairs_view, list_view, names_view,
    lemma_values_view_ext, lemma_values_view_index, lemma_values_view_len, lemma_pairs_view_len, lemma_pairs_view_ext, lemma_pairs_view_index,
};

verus! {
broadcast use vstd::std_specs::vec::axiom_vec_decreases_to_view;

/// The functions of a program, by name, each with its code.
pub type FunctionTable = Vec<(String, Vec<Instruction>)>;

pub open spec fn table_view(t: Seq<(String, Vec<Instruction>)>) -> Seq<(Seq<char>, Seq<InstrView>)> {
    Seq::new(t.len(), |i: int| (t[i].0@, instrs_view(t[i].1@)))
}

// ---------------------------------------------------------------- encoding

/// Four bytes, least significant first.
pub open spec fn u32_le(v: u32) -> Seq<u8> {
    seq![(v % 256) as u8, ((v / 256) % 256) as u8, ((v / 65536) % 256) as u8, ((v / 16777216) % 256) as u8]
}

/// Eight bytes, least significant first.
pub open spec fn u64_le(v: u64) -> Seq<u8> {
    u32_le((v % 4294967296) as u32) + u32_le((v / 4294967296) as u32)
}

/// A count or an address, written as four bytes (truncated to 32 bits).
pub open spec fn enc_len(n: int) -> Seq<u8> {
    u32_le(n as u32)
}

/// A string: its length in bytes, then its UTF-8 bytes.
pub open spec fn enc_str(s: Seq<char>) -> Seq<u8> {
    enc_len(encode_utf8(s).len() as int) + encode_utf8(s)
}

pub open spec fn enc_strs(s: Seq<Seq<char>>) -> Seq<u8>
    decreases s.len(),
{
    if s.len() == 0 {
        Seq::empty()
    } else {
        enc_str(s[0]) + enc_strs(s.subrange(1, s.len() as int))
    }
}

pub open spec fn enc_opt_str(o: Option<Seq<char>>) -> Seq<u8> {
    match o {
        None => seq![0u8],
        Some(s) => seq![1u8] + enc_str(s),
    }
}

pub open spec fn enc_value(v: ValueView) -> Seq<u8>
    decreases v,
{
    match v {
        ValueView::Integer(n) => seq![0u8] + u64_le(n as u64),
        ValueView::Boolean(b) => seq![1u8, if b { 1u8 } else { 0u8 }],
        ValueView::Float(bits) => seq![9u8] + u64_le(bits),
        ValueView::List(items) => seq![2u8] + enc_len(items.len() as int) + enc_values(items),
        ValueView::Symbol(s) => seq![3u8] + enc_str(s),
        ValueView::String(s) => seq![4u8] + enc_str(s),
        ValueView::Function(s) => seq![5u8] + enc_str(s),
        ValueView::Closure(params, rest, body, captured) => seq![6u8] + enc_len(params.len() as int)
            + enc_strs(params) + enc_opt_str(rest) + enc_len(body.len() as int) + enc_instrs(body)
            + enc_len(captured.len() as int) + enc_pairs(captured),
        ValueView::HashMap(entries) => seq![7u8] + enc_len(entries.len() as int) + enc_pairs(entries),
        ValueView::Vector(items) => seq![8u8] + enc_len(items.len() as int) + enc_values(items),
        ValueView::Pointer(_) => Seq::empty(),
    }
}

pub open spec fn enc_values(s: Seq<ValueView>) -> Seq<u8>
    decreases s,
{
    if s.len() == 0 {
        Seq::empty()
    } else {
        enc_value(s[0]) + enc_values(s.subrange(1, s.len() as int))
    }
}

pub open spec fn enc_pairs(s: Seq<(Seq<char>, ValueView)>) -> Seq<u8>
    decreases s,
{
    if s.len() == 0 {
        Seq::empty()
    } else {
        enc_str(s[0].0) + enc_value(s[0].1) + enc_pairs(s.subrange(1, s.len() as int))
    }
}

pub open spec fn enc_instr(i: InstrView) -> Seq<u8>
    decreases i,
{
    match i {
        InstrView::Push(v) => seq![0u8] + enc_value(v),
        InstrView::Simple(op) => seq![op],
        InstrView::Indexed(op, a) => seq![op] + enc_len(a as int),
        InstrView::Call(name, n) => seq![8u8] + enc_str(name) + enc_len(n as int),
        InstrView::TailCall(name, n) => seq![37u8] + enc_str(name) + enc_len(n as int),
        InstrView::CheckArity(a, b) => seq![31u8] + enc_len(a as int) + enc_len(b as int),
        InstrView::MakeClosure(params, body, n) => seq![32u8] + enc_len(params.len() as int) + enc_strs(params)
            + enc_len(body.len() as int) + enc_instrs(body) + enc_len(n as int),
        InstrView::MakeVariadicClosure(params, rest, body, n) => seq![77u8] + enc_len(params.len() as int)
            + enc_strs(params) + enc_str(rest) + enc_len(body.len() as int) + enc_instrs(body) + enc_len(n as int),
        InstrView::LoadGlobal(name) => seq![38u8] + enc_str(name),
        InstrView::StoreGlobal(name) => seq![39u8] + enc_str(name),
        InstrView::FfiCall(_, _) => Seq::empty(),
    }
}

pub open spec fn enc_instrs(s: Seq<InstrView>) -> Seq<u8>
    decreases s,
{
    if s.len() == 0 {
        Seq::empty()
    } else {
        enc_instr(s[0]) + enc_instrs(s.subrange(1, s.len() as int))
    }
}

/// A sequence of instructions: their count, then each one.
pub open spec fn enc_code(s: Seq<InstrView>) -> Seq<u8> {
    enc_len(s.len() as int) + enc_instrs(s)
}

pub open spec fn enc_table(t: Seq<(Seq<char>, Seq<InstrView>)>) -> Seq<u8>
    decreases t.len(),
{
    if t.len() == 0 {
        Seq::empty()
    } else {
        enc_str(t[0].0) + enc_code(t[0].1) + enc_table(t.subrange(1, t.len() as int))
    }
}

/// The bytecode file: the magic "LISP", the version 7, the functions
/// (their count, then name and code of each), then the main code.
pub open spec fn enc_program(t: Seq<(Seq<char>, Seq<InstrView>)>, main: Seq<InstrView>) -> Seq<u8> {
    seq![76u8, 73u8, 83u8, 80u8, 7u8] + enc_len(t.len() as int) + enc_table(t) + enc_code(main)
}

/// Whether a value can be written: it holds no pointer and no foreign call.
pub open spec fn writable_value(v: ValueView) -> bool
    decreases v,
{
    match v {
        ValueView::List(items) => writable_values(items),
        ValueView::Vector(items) => writable_values(items),
        ValueView::Closure(_, _, body, captured) => writable_instrs(body) && writable_pairs(captured),
        ValueView::HashMap(entries) => writable_pairs(entries),
        ValueView::Pointer(_) => false,
        _ => true,
    }
}

pub open spec fn writable_values(s: Seq<ValueView>) -> bool
    decreases s,
{
    s.len() > 0 ==> writable_value(s[0]) && writable_values(s.subrange(1, s.len() as int))
}

pub open spec fn writable_pairs(s: Seq<(Seq<char>, ValueView)>) -> bool
    decreases s,
{
    s.len() > 0 ==> writable_value(s[0].1) && writable_pairs(s.subrange(1, s.len() as int))
}

pub open spec fn writable_instr(i: InstrView) -> bool
    decreases i,
{
    match i {
        InstrView::Push(v) => writable_value(v),
        InstrView::MakeClosure(_, body, _) => writable_instrs(body),
        InstrView::MakeVariadicClosure(_, _, body, _) => writable_instrs(body),
        InstrView::FfiCall(_, _) => false,
        _ => true,
    }
}

pub open spec fn writable_instrs(s: Seq<InstrView>) -> bool
    decreases s,
{
    s.len() > 0 ==> writable_instr(s[0]) && writable_instrs(s.subrange(1, s.len() as int))
}

pub open spec fn writable_table(t: Seq<(Seq<char>, Seq<InstrView>)>) -> bool {
    forall|i: int| 0 <= i < t.len() ==> #[trigger] writable_instrs(t[i].1)
}

// ---------------------------------------------------------------- writing

fn write_u32(bytes: &mut Vec<u8>, value: u32)
    ensures
        final(bytes)@ == old(bytes)@ + u32_le(value),
{
    bytes.push((value % 256) as u8);
    bytes.push(((value / 256) % 256) as u8);
    bytes.push(((value / 65536) % 256) as u8);
    bytes.push(((value / 16777216) % 256) as u8);
    assert(bytes@ =~= old(bytes)@ + u32_le(value));
}

fn write_u64(bytes: &mut Vec<u8>, value: u64)
    ensures
        final(bytes)@ == old(bytes)@ + u64_le(value),
{
    write_u32(bytes, (value % 4294967296) as u32);
    write_u32(bytes, (value / 4294967296) as u32);
    assert(bytes@ =~= old(bytes)@ + u64_le(value));
}

fn write_len(bytes: &mut Vec<u8>, n: usize)
    ensures
        final(bytes)@ == old(bytes)@ + enc_len(n as int),
{
    write_u32(bytes, n as u32);
}

fn write_string(bytes: &mut Vec<u8>, s: &str)
    ensures
        final(bytes)@ == old(bytes)@ + enc_str(s@),
{
    let raw = s.as_bytes();
    let n = raw.len();
    write_len(bytes, n);
    let ghost mid = bytes@;
    let mut i: usize = 0;
    while i < n
        invariant
            n == raw@.len(),
            i <= n,
            bytes@ == mid + raw@.subrange(0, i as int),
        decreases n - i,
    {
        bytes.push(raw[i]);
        i = i + 1;
        assert(bytes@ =~= mid + raw@.subrange(0, i as int));
    }
    assert(raw@.subrange(0, n as int) =~= raw@);
}

fn write_strings(bytes: &mut Vec<u8>, v: &Vec<String>)
    ensures
        final(bytes)@ == old(bytes)@ + enc_len(v@.len() as int) + enc_strs(names_view(v@)),
{
    write_len(bytes, v.len());
    let ghost mid = bytes@;
    let ghost nv = names_view(v@);
    let mut i: usize = 0;
    assert(nv.subrange(0, nv.len() as int) =~= nv);
    while i < v.len()
        invariant
            i <= v.len(),
            nv == names_view(v@),
            bytes@ + enc_strs(nv.subrange(i as int, nv.len() as int)) == mid + enc_strs(nv),
        decreases v.len() - i,
    {
        let ghost prev = bytes@;
        write_string(bytes, v[i].as_str());
        assert(nv.subrange(i as int, nv.len() as int).subrange(1, nv.len() - i) =~= nv.subrange(i + 1, nv.len() as int));
        assert(bytes@ + enc_strs(nv.subrange(i + 1, nv.len() as int)) =~= prev + enc_strs(nv.subrange(i as int, nv.len() as int)));
        i = i + 1;
    }
    assert(nv.subrange(0, nv.len() as int) =~= nv);
    assert(nv.subrange(v.len() as int, nv.len() as int) =~= Seq::<Seq<char>>::empty());
    assert(bytes@ =~= mid + enc_strs(nv));
}

fn write_instructions(bytes: &mut Vec<u8>, code: &[Instruction])
    requires
        writable_instrs(instrs_view(code@)),
    ensures
        final(bytes)@ == old(bytes)@ + enc_code(instrs_view(code@)),
    decreases code@, 1int,
{
    proof {
        lemma_instrs_view_ext(code@);
    }
    write_len(bytes, code.len());
    let ghost mid = bytes@;
    let ghost iv = instrs_view(code@);
    let mut i: usize = 0;
    assert(iv.subrange(0, iv.len() as int) =~= iv);
    while i < code.len()
        invariant
            i <= code.len(),
            iv == instrs_view(code@),
            iv.len() == code@.len(),
            writable_instrs(iv.subrange(i as int, iv.len() as int)),
            bytes@ + enc_instrs(iv.subrange(i as int, iv.len() as int)) == mid + enc_instrs(iv),
        decreases code.len() - i,
    {
        let ghost prev = bytes@;
        let ghost rest = iv.subrange(i as int, iv.len() as int);
        assert(rest.subrange(1, rest.len() as int) =~= iv.subrange(i + 1, iv.len() as int));
        proof {
            lemma_instrs_view_index(code@, i as int);
        }
        write_instruction(bytes, &code[i]);
        assert(bytes@ + enc_instrs(iv.subrange(i + 1, iv.len() as int)) =~= prev + enc_instrs(rest));
        i = i + 1;
    }
    assert(iv.subrange(0, iv.len() as int) =~= iv);
    assert(iv.subrange(code.len() as int, iv.len() as int) =~= Seq::<InstrView>::empty());
    assert(bytes@ =~= mid + enc_instrs(iv));
}

/// Writes an instruction that has no operand or one numeric operand.
fn write_plain(bytes: &mut Vec<u8>, instr: &Instruction)
    requires
        simple_opcode(*instr).is_some() || index_opcode(*instr).is_some(),
    ensures
        final(bytes)@ == old(bytes)@ + enc_instr(instr_view(*instr)),
{
    match opcode_of_simple(instr) {
        Some(op) => {
            proof {
                lemma_simple_view(*instr);
            }
            bytes.push(op);
            assert(bytes@ =~= old(bytes)@ + enc_instr(instr_view(*instr)));
        },
        None => {
            match opcode_of_indexed(instr) {
                Some((op, a)) => {
                    proof {
                        lemma_indexed_view(*instr);
                    }
                    bytes.push(op);
                    write_len(bytes, a);
                    assert(bytes@ =~= old(bytes)@ + enc_instr(instr_view(*instr)));
                },
                None => {},
            }
        },
    }
}

#[verifier::rlimit(60)]
fn write_instruction(bytes: &mut Vec<u8>, instr: &Instruction)
    requires
        writable_instr(instr_view(*instr)),
    ensures
        final(bytes)@ == old(bytes)@ + enc_instr(instr_view(*instr)),
    decreases *instr, 0int,
{
    match instr {
        Instruction::Push(value) => {
            bytes.push(0);
            write_value(bytes, value);
        },
        Instruction::Call(name, argc) => {
            bytes.push(8);
            write_string(bytes, name.as_str());
            write_len(bytes, *argc);
        },
        Instruction::TailCall(name, argc) => {
            bytes.push(37);
            write_string(bytes, name.as_str());
            write_len(bytes, *argc);
        },
        Instruction::CheckArity(arity, addr) => {
            bytes.push(31);
            write_len(bytes, *arity);
            write_len(bytes, *addr);
        },
        Instruction::MakeClosure(params, body, num_captured) => {
            bytes.push(32);
            write_strings(bytes, params);
            write_instructions(bytes, body);
            write_len(bytes, *num_captured);
        },
        Instruction::MakeVariadicClosure(params, rest_param, body, num_captured) => {
            bytes.push(77);
            write_strings(bytes, params);
            write_string(bytes, rest_param.as_str());
            write_instructions(bytes, body);
            write_len(bytes, *num_captured);
        },
        Instruction::LoadGlobal(name) => {
            bytes.push(38);
            write_string(bytes, name.as_str());
        },
        Instruction::StoreGlobal(name) => {
            bytes.push(39);
            write_string(bytes, name.as_str());
        },
        Instruction::FfiCall(_, _) => {},
        _ => {
            proof {
                lemma_classify(*instr);
            }
            write_plain(bytes, instr);
        },
    }
    assert(bytes@ =~= old(bytes)@ + enc_instr(instr_view(*instr)));
}

fn write_values(bytes: &mut Vec<u8>, items: &Vec<Value>)
    requires
        writable_values(values_view(items@)),
    ensures
        final(bytes)@ == old(bytes)@ + enc_len(items@.len() as int) + enc_values(values_view(items@)),
    decreases items@, 1int,
{
    proof {
        lemma_values_view_ext(items@);
    }
    write_len(bytes, items.len());
    let ghost mid = bytes@;
    let ghost iv = values_view(items@);
    let mut i: usize = 0;
    assert(iv.subrange(0, iv.len() as int) =~= iv);
    while i < items.len()
        invariant
            i <= items.len(),
            iv == values_view(items@),
            iv.len() == items@.len(),
            writable_values(iv.subrange(i as int, iv.len() as int)),
            bytes@ + enc_values(iv.subrange(i as int, iv.len() as int)) == mid + enc_values(iv),
        decreases items.len() - i,
    {
        let ghost prev = bytes@;
        let ghost rest = iv.subrange(i as int, iv.len() as int);
        assert(rest.subrange(1, rest.len() as int) =~= iv.subrange(i + 1, iv.len() as int));
        proof {
            lemma_values_view_index(items@, i as int);
        }
        write_value(bytes, &items[i]);
        assert(bytes@ + enc_values(iv.subrange(i + 1, iv.len() as int)) =~= prev + enc_values(rest));
        i = i + 1;
    }
    assert(iv.subrange(0, iv.len() as int) =~= iv);
    assert(iv.subrange(items.len() as int, iv.len() as int) =~= Seq::<ValueView>::empty());
    assert(bytes@ =~= mid + enc_values(iv));
}

fn write_pairs(bytes: &mut Vec<u8>, items: &Vec<(String, Value)>)
    requires
        writable_pairs(pairs_view(items@)),
    ensures
        final(bytes)@ == old(bytes)@ + enc_len(items@.len() as int) + enc_pairs(pairs_view(items@)),
    decreases items@, 1int,
{
    proof {
        lemma_pairs_view_ext(items@);
    }
    write_len(bytes, items.len());
    let ghost mid = bytes@;
    let ghost iv = pairs_view(items@);
    let mut i: usize = 0;
    assert(iv.subrange(0, iv.len() as int) =~= iv);
    while i < items.len()
        invariant
            i <= items.len(),
            iv == pairs_view(items@),
            iv.len() == items@.len(),
            writable_pairs(iv.subrange(i as int, iv.len() as int)),
            bytes@ + enc_pairs(iv.subrange(i as int, iv.len() as int)) == mid + enc_pairs(iv),
        decreases items.len() - i,
    {
        let ghost prev = bytes@;
        let ghost rest = iv.subrange(i as int, iv.len() as int);
        assert(rest.subrange(1, rest.len() as int) =~= iv.subrange(i + 1, iv.len() as int));
        proof {
            lemma_pairs_view_index(items@, i as int);
        }
        write_string(bytes, items[i].0.as_str());
        write_value(bytes, &items[i].1);
        assert(bytes@ + enc_pairs(iv.subrange(i + 1, iv.len() as int)) =~= prev + enc_pairs(rest));
        i = i + 1;
    }
    assert(iv.subrange(0, iv.len() as int) =~= iv);
    assert(iv.subrange(items.len() as int, iv.len() as int) =~= Seq::<(Seq<char>, ValueView)>::empty());
    assert(bytes@ =~= mid + enc_pairs(iv));
}

#[verifier::rlimit(60)]
fn write_value(bytes: &mut Vec<u8>, value: &Value)
    requires
        writable_value(value_view(*value)),
    ensures
        final(bytes)@ == old(bytes)@ + enc_value(value_view(*value)),
    decreases *value, 0int,
{
    match value {
        Value::Integer(n) => {
            bytes.push(0);
            write_u64(bytes, *n as u64);
            assert(bytes@ =~= old(bytes)@ + enc_value(value_view(*value)));
        },
        Value::Boolean(b) => {
            bytes.push(1);
            bytes.push(if *b { 1 } else { 0 });
            assert(bytes@ =~= old(bytes)@ + enc_value(value_view(*value)));
        },
        Value::Float(bits) => {
            bytes.push(9);
            write_u64(bytes, *bits);
            assert(bytes@ =~= old(bytes)@ + enc_value(value_view(*value)));
        },
        Value::List(list) => {
            bytes.push(2);
            proof {
                lemma_values_view_len(list.items@);
            }
            write_values(bytes, &list.items);
            assert(bytes@ =~= old(bytes)@ + enc_value(value_view(*value)));
        },
        Value::Symbol(s) => {
            bytes.push(3);
            write_string(bytes, s.as_str());
            assert(bytes@ =~= old(bytes)@ + enc_value(value_view(*value)));
        },
        Value::String(s) => {
            bytes.push(4);
            write_string(bytes, s.as_str());
            assert(bytes@ =~= old(bytes)@ + enc_value(value_view(*value)));
        },
        Value::Function(name) => {
            bytes.push(5);
            write_string(bytes, name.as_str());
            assert(bytes@ =~= old(bytes)@ + enc_value(value_view(*value)));
        },
        Value::Closure(data) => {
            bytes.push(6);
            proof {
                lemma_pairs_view_len(data.captured@);
                lemma_instrs_view_len(data.body@);
            }
            write_strings(bytes, &data.params);
            match &data.rest_param {
                None => bytes.push(0),
                Some(rest_name) => {
                    bytes.push(1);
                    write_string(bytes, rest_name.as_str());
                },
            }
            write_instructions(bytes, &data.body);
            write_pairs(bytes, &data.captured);
            assert(bytes@ =~= old(bytes)@ + enc_value(value_view(*value)));
        },
        Value::HashMap(entries) => {
            bytes.push(7);
            proof {
                lemma_pairs_view_len(entries@);
            }
            write_pairs(bytes, entries);
            assert(bytes@ =~= old(bytes)@ + enc_value(value_view(*value)));
        },
        Value::Vector(items) => {
            bytes.push(8);
            proof {
                lemma_values_view_len(items@);
            }
            write_values(bytes, items);
            assert(bytes@ =~= old(bytes)@ + enc_value(value_view(*value)));
        },
        Value::Pointer(_) => {},
    }
    assert(bytes@ =~= old(bytes)@ + enc_value(value_view(*value)));
}

fn write_table(bytes: &mut Vec<u8>, functions: &FunctionTable)
    requires
        writable_table(table_view(functions@)),
    ensures
        final(bytes)@ == old(bytes)@ + enc_len(functions@.len() as int) + enc_table(table_view(functions@)),
{
    write_len(bytes, functions.len());
    let ghost mid = bytes@;
    let ghost tv = table_view(functions@);
    let mut i: usize = 0;
    assert(tv.subrange(0, tv.len() as int) =~= tv);
    while i < functions.len()
        invariant
            i <= functions.len(),
            tv == table_view(functions@),
            writable_table(tv),
            bytes@ + enc_table(tv.subrange(i as int, tv.len() as int)) == mid + enc_table(tv),
        decreases functions.len() - i,
    {
        let ghost prev = bytes@;
        let ghost rest = tv.subrange(i as int, tv.len() as int);
        assert(rest.subrange(1, rest.len() as int) =~= tv.subrange(i + 1, tv.len() as int));
        assert(writable_instrs(tv[i as int].1));
        write_string(bytes, functions[i].0.as_str());
        write_instructions(bytes, &functions[i].1);
        assert(bytes@ + enc_table(tv.subrange(i + 1, tv.len() as int)) =~= prev + enc_table(rest));
        i = i + 1;
    }
    assert(tv.subrange(functions.len() as int, tv.len() as int) =~= Seq::<(Seq<char>, Seq<InstrView>)>::empty());
    assert(bytes@ =~= mid + enc_table(tv));
}

fn value_writable(v: &Value) -> (r: bool)
    ensures
        r == writable_value(value_view(*v)),
    decreases *v, 0int,
{
    match v {
        Value::List(l) => values_writable(&l.items),
        Value::Vector(items) => values_writable(items),
        Value::Closure(data) => instrs_writable(data.body.as_slice()) && pairs_writable(&data.captured),
        Value::HashMap(entries) => pairs_writable(entries),
        Value::Pointer(_) => false,
        _ => true,
    }
}

fn values_writable(items: &Vec<Value>) -> (r: bool)
    ensures
        r == writable_values(values_view(items@)),
    decreases items@, 1int,
{
    let ghost iv = values_view(items@);
    proof {
        lemma_values_view_len(items@);
    }
    let mut i: usize = 0;
    assert(iv.subrange(0, iv.len() as int) =~= iv);
    while i < items.len()
        invariant
            i <= items.len(),
            iv == values_view(items@),
            iv.len() == items@.len(),
            writable_values(iv) == writable_values(iv.subrange(i as int, iv.len() as int)),
        decreases items.len() - i,
    {
        let ghost rest = iv.subrange(i as int, iv.len() as int);
        assert(rest.subrange(1, rest.len() as int) =~= iv.subrange(i + 1, iv.len() as int));
        proof {
            lemma_values_view_index(items@, i as int);
        }
        if !value_writable(&items[i]) {
            return false;
        }
        i = i + 1;
    }
    assert(iv.subrange(items.len() as int, iv.len() as int) =~= Seq::<ValueView>::empty());
    true
}

fn pairs_writable(items: &Vec<(String, Value)>) -> (r: bool)
    ensures
        r == writable_pairs(pairs_view(items@)),
    decreases items@, 1int,
{
    let ghost iv = pairs_view(items@);
    proof {
        lemma_pairs_view_len(items@);
    }
    let mut i: usize = 0;
    assert(iv.subrange(0, iv.len() as int) =~= iv);
    while i < items.len()
        invariant
            i <= items.len(),
            iv == pairs_view(items@),
            iv.len() == items@.len(),
            writable_pairs(iv) == writable_pairs(iv.subrange(i as int, iv.len() as int)),
        decreases items.len() - i,
    {
        let ghost rest = iv.subrange(i as int, iv.len() as int);
        assert(rest.subrange(1, rest.len() as int) =~= iv.subrange(i + 1, iv.len() as int));
        proof {
            lemma_pairs_view_index(items@, i as int);
        }
        if !value_writable(&items[i].1) {
            return false;
        }
        i = i + 1;
    }
    assert(iv.subrange(items.len() as int, iv.len() as int) =~= Seq::<(Seq<char>, ValueView)>::empty());
    true
}

fn instr_writable(i: &Instruction) -> (r: bool)
    ensures
        r == writable_instr(instr_view(*i)),
    decreases *i, 0int,
{
    match i {
        Instruction::Push(v) => value_writable(v),
        Instruction::MakeClosure(_, body, _) => instrs_writable(body.as_slice()),
        Instruction::MakeVariadicClosure(_, _, body, _) => instrs_writable(body.as_slice()),
        Instruction::FfiCall(_, _) => false,
        _ => {
            proof {
                lemma_classify(*i);
                if simple_opcode(*i).is_some() {
                    lemma_simple_view(*i);
                } else if index_opcode(*i).is_some() {
                    lemma_indexed_view(*i);
                }
            }
            true
        },
    }
}

fn instrs_writable(code: &[Instruction]) -> (r: bool)
    ensures
        r == writable_instrs(instrs_view(code@)),
    decreases code@, 1int,
{
    let ghost cv = instrs_view(code@);
    proof {
        lemma_instrs_view_len(code@);
    }
    let mut i: usize = 0;
    assert(cv.subrange(0, cv.len() as int) =~= cv);
    while i < code.len()
        invariant
            i <= code.len(),
            cv == instrs_view(code@),
            cv.len() == code@.len(),
            writable_instrs(cv) == writable_instrs(cv.subrange(i as int, cv.len() as int)),
        decreases code.len() - i,
    {
        let ghost rest = cv.subrange(i as int, cv.len() as int);
        assert(rest.subrange(1, rest.len() as int) =~= cv.subrange(i + 1, cv.len() as int));
        proof {
            lemma_instrs_view_index(code@, i as int);
        }
        if !instr_writable(&code[i]) {
            return false;
        }
        i = i + 1;
    }
    assert(cv.subrange(code.len() as int, cv.len() as int) =~= Seq::<InstrView>::empty());
    true
}

/// Whether a program can be written as a bytecode file: no value in it is a
/// pointer and no instruction a foreign call.
pub fn is_writable(functions: &FunctionTable, main_bytecode: &[Instruction]) -> (r: bool)
    ensures
        r == (writable_table(table_view(functions@)) && writable_instrs(instrs_view(main_bytecode@))),
{
    let mut k: usize = 0;
    while k < functions.len()
        invariant
            k <= functions@.len(),
            forall|j: int| 0 <= j < k ==> #[trigger] writable_instrs(table_view(functions@)[j].1),
        decreases functions@.len() - k,
    {
        if !instrs_writable(functions[k].1.as_slice()) {
            assert(!writable_instrs(table_view(functions@)[k as int].1));
            return false;
        }
        k = k + 1;
    }
    instrs_writable(main_bytecode)
}

/// Writes a program as a bytecode file: the magic "LISP", the version 7,
/// the functions (count, then name and code of each), and the main code.
/// Counts, lengths and numeric operands are written as 32 bits.
pub fn serialize_bytecode(functions: &FunctionTable, main_bytecode: &[Instruction]) -> (bytes: Vec<u8>)
    requires
        writable_table(table_view(functions@)),
        writable_instrs(instrs_view(main_bytecode@)),
    ensures
        bytes@ == enc_program(table_view(functions@), instrs_view(main_bytecode@)),
{
    let mut bytes: Vec<u8> = Vec::new();
    bytes.push(76);
    bytes.push(73);
    bytes.push(83);
    bytes.push(80);
    bytes.push(7);
    write_table(&mut bytes, functions);
    write_instructions(&mut bytes, main_bytecode);
    assert(bytes@ =~= enc_program(table_view(functions@), instrs_view(main_bytecode@)));
    bytes
}


// ---------------------------------------------------------------- reading

/// Why reading stopped: an error the reader reports, or an index past the
/// end of the input that the reader does not check (it would panic there).
pub enum DecodeError {
    Message(Seq<char>),
    OutOfBounds,
}

pub open spec fn end_msg() -> Seq<char> {
    "Unexpected end of bytecode"@
}

pub open spec fn u32_at(b: Seq<u8>, p: int) -> u32 {
    (b[p] as int + 256 * b[p + 1] + 65536 * b[p + 2] + 16777216 * b[p + 3]) as u32
}

pub open spec fn u64_at(b: Seq<u8>, p: int) -> u64 {
    (u32_at(b, p) as int + 4294967296 * u32_at(b, p + 4)) as u64
}

pub open spec fn rd_u32(b: Seq<u8>, pos: int) -> Result<(u32, int), DecodeError> {
    if pos < 0 || pos + 4 > b.len() {
        Err(DecodeError::Message(end_msg()))
    } else {
        Ok((u32_at(b, pos), pos + 4))
    }
}

pub open spec fn rd_str(b: Seq<u8>, pos: int) -> Result<(Seq<char>, int), DecodeError> {
    match rd_u32(b, pos) {
        Err(e) => Err(e),
        Ok((n, p)) => if p + n > b.len() {
            Err(DecodeError::Message(end_msg()))
        } else if !valid_utf8(b.subrange(p, p + n)) {
            Err(DecodeError::Message("Invalid UTF-8 in bytecode"@))
        } else {
            Ok((decode_utf8(b.subrange(p, p + n)), p + n))
        },
    }
}

pub open spec fn rd_strs(b: Seq<u8>, pos: int, n: nat) -> Result<(Seq<Seq<char>>, int), DecodeError>
    decreases n,
{
    if n == 0 {
        Ok((Seq::empty(), pos))
    } else {
        match rd_str(b, pos) {
            Err(e) => Err(e),
            Ok((s, p)) => match rd_strs(b, p, (n - 1) as nat) {
                Err(e) => Err(e),
                Ok((rest, q)) => Ok((seq![s] + rest, q)),
            },
        }
    }
}

/// The position of the first entry with key `k`, or the length when there is none.
pub open spec fn key_index<V>(t: Seq<(Seq<char>, V)>, k: Seq<char>) -> int
    decreases t.len(),
{
    if t.len() == 0 {
        0
    } else if t[0].0 == k {
        0
    } else {
        1 + key_index(t.subrange(1, t.len() as int), k)
    }
}

/// Map insertion: the entry for `k` gets the value `v`, or is added at the end.
pub open spec fn insert_entry<V>(t: Seq<(Seq<char>, V)>, k: Seq<char>, v: V) -> Seq<(Seq<char>, V)> {
    let i = key_index(t, k);
    if i < t.len() {
        t.update(i, (k, v))
    } else {
        t.push((k, v))
    }
}

/// The entries inserted one after the other.
pub open spec fn insert_all<V>(t: Seq<(Seq<char>, V)>, entries: Seq<(Seq<char>, V)>) -> Seq<(Seq<char>, V)>
    decreases entries.len(),
{
    if entries.len() == 0 {
        t
    } else {
        insert_all(insert_entry(t, entries[0].0, entries[0].1), entries.subrange(1, entries.len() as int))
    }
}

pub open spec fn rd_value(b: Seq<u8>, pos: int) -> Result<(ValueView, int), DecodeError>
    decreases b.len() - pos, 0int, 0int,
{
    if pos < 0 || pos >= b.len() {
        Err(DecodeError::Message(end_msg()))
    } else {
        let tag = b[pos];
        let p = pos + 1;
        if tag == 0 {
            if p + 8 > b.len() {
                Err(DecodeError::Message(end_msg()))
            } else {
                Ok((ValueView::Integer(u64_at(b, p) as i64), p + 8))
            }
        } else if tag == 1 {
            if p >= b.len() {
                Err(DecodeError::Message(end_msg()))
            } else {
                Ok((ValueView::Boolean(b[p] != 0), p + 1))
            }
        } else if tag == 2 {
            match rd_u32(b, p) {
                Err(e) => Err(e),
                Ok((n, q)) => match rd_values(b, q, n as nat) {
                    Err(e) => Err(e),
                    Ok((items, r)) => Ok((ValueView::List(items), r)),
                },
            }
        } else if tag == 3 {
            match rd_str(b, p) {
                Err(e) => Err(e),
                Ok((s, q)) => Ok((ValueView::Symbol(s), q)),
            }
        } else if tag == 4 {
            match rd_str(b, p) {
                Err(e) => Err(e),
                Ok((s, q)) => Ok((ValueView::String(s), q)),
            }
        } else if tag == 5 {
            match rd_str(b, p) {
                Err(e) => Err(e),
                Ok((s, q)) => Ok((ValueView::Function(s), q)),
            }
        } else if tag == 6 {
            rd_closure(b, p)
        } else if tag == 7 {
            match rd_u32(b, p) {
                Err(e) => Err(e),
                Ok((n, q)) => match rd_pairs(b, q, n as nat) {
                    Err(e) => Err(e),
                    Ok((entries, r)) => Ok((ValueView::HashMap(insert_all(Seq::empty(), entries)), r)),
                },
            }
        } else if tag == 8 {
            match rd_u32(b, p) {
                Err(e) => Err(e),
                Ok((n, q)) => match rd_values(b, q, n as nat) {
                    Err(e) => Err(e),
                    Ok((items, r)) => Ok((ValueView::Vector(items), r)),
                },
            }
        } else if tag == 9 {
            if p + 8 > b.len() {
                Err(DecodeError::Message(end_msg()))
            } else {
                Ok((ValueView::Float(u64_at(b, p)), p + 8))
            }
        } else {
            Err(DecodeError::Message("Unknown value tag: "@ + decimal(tag as nat)))
        }
    }
}

/// The rest of a closure value after its tag: parameter names, an optional
/// rest parameter (a flag byte, then the name when the flag is not 0), the
/// body, and the captured (name, value) pairs.
pub open spec fn rd_closure(b: Seq<u8>, p: int) -> Result<(ValueView, int), DecodeError>
    decreases b.len() - p, 2int, 0int,
{
    match rd_u32(b, p) {
        Err(e) => Err(e),
        Ok((np, q1)) => match rd_strs(b, q1, np as nat) {
            Err(e) => Err(e),
            Ok((params, q2)) => if q2 < 0 || q2 >= b.len() {
                Err(DecodeError::OutOfBounds)
            } else {
                let rest: Result<(Option<Seq<char>>, int), DecodeError> = if b[q2] == 0 {
                    Ok((None, q2 + 1))
                } else {
                    match rd_str(b, q2 + 1) {
                        Err(e) => Err(e),
                        Ok((r, q)) => Ok((Some(r), q)),
                    }
                };
                match rest {
                    Err(e) => Err(e),
                    Ok((rp, q3)) => match rd_u32(b, q3) {
                        Err(e) => Err(e),
                        Ok((nb, q4)) => if q4 <= p || q4 > b.len() {
                            Err(DecodeError::OutOfBounds)
                        } else {
                            match rd_instrs(b, q4, nb as nat) {
                                Err(e) => Err(e),
                                Ok((body, q5)) => match rd_u32(b, q5) {
                                    Err(e) => Err(e),
                                    Ok((nc, q6)) => if q6 <= p || q6 > b.len() {
                                        Err(DecodeError::OutOfBounds)
                                    } else {
                                        match rd_pairs(b, q6, nc as nat) {
                                            Err(e) => Err(e),
                                            Ok((cap, q7)) => Ok((ValueView::Closure(params, rp, body, cap), q7)),
                                        }
                                    },
                                },
                            }
                        },
                    },
                }
            },
        },
    }
}

pub open spec fn rd_values(b: Seq<u8>, pos: int, n: nat) -> Result<(Seq<ValueView>, int), DecodeError>
    decreases b.len() - pos, 1int, n,
{
    if n == 0 {
        Ok((Seq::empty(), pos))
    } else if pos < 0 || pos > b.len() {
        Err(DecodeError::OutOfBounds)
    } else {
        match rd_value(b, pos) {
            Err(e) => Err(e),
            Ok((v, p)) => if p <= pos || p > b.len() {
                Err(DecodeError::OutOfBounds)
            } else {
                match rd_values(b, p, (n - 1) as nat) {
                    Err(e) => Err(e),
                    Ok((rest, q)) => Ok((seq![v] + rest, q)),
                }
            },
        }
    }
}

pub open spec fn rd_pairs(b: Seq<u8>, pos: int, n: nat) -> Result<(Seq<(Seq<char>, ValueView)>, int), DecodeError>
    decreases b.len() - pos, 1int, n,
{
    if n == 0 {
        Ok((Seq::empty(), pos))
    } else if pos < 0 || pos > b.len() {
        Err(DecodeError::OutOfBounds)
    } else {
        match rd_str(b, pos) {
            Err(e) => Err(e),
            Ok((k, p1)) => match rd_value(b, p1) {
                Err(e) => Err(e),
                Ok((v, p2)) => if p2 <= pos || p2 > b.len() {
                    Err(DecodeError::OutOfBounds)
                } else {
                    match rd_pairs(b, p2, (n - 1) as nat) {
                        Err(e) => Err(e),
                        Ok((rest, q)) => Ok((seq![(k, v)] + rest, q)),
                    }
                },
            },
        }
    }
}

pub open spec fn rd_instr(b: Seq<u8>, pos: int) -> Result<(InstrView, int), DecodeError>
    decreases b.len() - pos, 0int, 0int,
{
    if pos < 0 || pos >= b.len() {
        Err(DecodeError::Message(end_msg()))
    } else {
        let op = b[pos];
        let p = pos + 1;
        if op == 0 {
            match rd_value(b, p) {
                Err(e) => Err(e),
                Ok((v, q)) => Ok((InstrView::Push(v), q)),
            }
        } else if simple_of_opcode(op).is_some() {
            Ok((InstrView::Simple(op), p))
        } else if indexed_of_opcode(op, 0).is_some() {
            match rd_u32(b, p) {
                Err(e) => Err(e),
                Ok((a, q)) => Ok((InstrView::Indexed(op, a as usize), q)),
            }
        } else if op == 8 || op == 37 {
            match rd_str(b, p) {
                Err(e) => Err(e),
                Ok((name, q)) => match rd_u32(b, q) {
                    Err(e) => Err(e),
                    Ok((n, r)) => if op == 8 {
                        Ok((InstrView::Call(name, n as usize), r))
                    } else {
                        Ok((InstrView::TailCall(name, n as usize), r))
                    },
                },
            }
        } else if op == 31 {
            match rd_u32(b, p) {
                Err(e) => Err(e),
                Ok((a, q)) => match rd_u32(b, q) {
                    Err(e) => Err(e),
                    Ok((c, r)) => Ok((InstrView::CheckArity(a as usize, c as usize), r)),
                },
            }
        } else if op == 32 || op == 77 {
            rd_make_closure(b, p, op == 77)
        } else if op == 38 || op == 39 {
            match rd_str(b, p) {
                Err(e) => Err(e),
                Ok((name, q)) => if op == 38 {
                    Ok((InstrView::LoadGlobal(name), q))
                } else {
                    Ok((InstrView::StoreGlobal(name), q))
                },
            }
        } else {
            Err(DecodeError::Message("Unknown opcode: "@ + decimal(op as nat)))
        }
    }
}

/// The operands of a closure-making instruction: parameter names, the rest
/// parameter's name (variadic only), the body, and the number of captured values.
pub open spec fn rd_make_closure(b: Seq<u8>, p: int, variadic: bool) -> Result<(InstrView, int), DecodeError>
    decreases b.len() - p, 2int, 0int,
{
    match rd_u32(b, p) {
        Err(e) => Err(e),
        Ok((np, q1)) => match rd_strs(b, q1, np as nat) {
            Err(e) => Err(e),
            Ok((params, q2)) => {
                let rest: Result<(Seq<char>, int), DecodeError> = if !variadic {
                    Ok((Seq::empty(), q2))
                } else {
                    rd_str(b, q2)
                };
                match rest {
                    Err(e) => Err(e),
                    Ok((rp, q3)) => match rd_u32(b, q3) {
                        Err(e) => Err(e),
                        Ok((nb, q4)) => if q4 <= p || q4 > b.len() {
                            Err(DecodeError::OutOfBounds)
                        } else {
                            match rd_instrs(b, q4, nb as nat) {
                                Err(e) => Err(e),
                                Ok((body, q5)) => match rd_u32(b, q5) {
                                    Err(e) => Err(e),
                                    Ok((nc, q6)) => if !variadic {
                                        Ok((InstrView::MakeClosure(params, body, nc as usize), q6))
                                    } else {
                                        Ok((InstrView::MakeVariadicClosure(params, rp, body, nc as usize), q6))
                                    },
                                },
                            }
                        },
                    },
                }
            },
        },
    }
}

pub open spec fn rd_instrs(b: Seq<u8>, pos: int, n: nat) -> Result<(Seq<InstrView>, int), DecodeError>
    decreases b.len() - pos, 1int, n,
{
    if n == 0 {
        Ok((Seq::empty(), pos))
    } else if pos < 0 || pos > b.len() {
        Err(DecodeError::OutOfBounds)
    } else {
        match rd_instr(b, pos) {
            Err(e) => Err(e),
            Ok((v, p)) => if p <= pos || p > b.len() {
                Err(DecodeError::OutOfBounds)
            } else {
                match rd_instrs(b, p, (n - 1) as nat) {
                    Err(e) => Err(e),
                    Ok((rest, q)) => Ok((seq![v] + rest, q)),
                }
            },
        }
    }
}

/// A sequence of instructions: its count, then each one.
pub open spec fn rd_code(b: Seq<u8>, pos: int) -> Result<(Seq<InstrView>, int), DecodeError> {
    match rd_u32(b, pos) {
        Err(e) => Err(e),
        Ok((n, p)) => rd_instrs(b, p, n as nat),
    }
}

pub open spec fn rd_table(b: Seq<u8>, pos: int, n: nat) -> Result<(Seq<(Seq<char>, Seq<InstrView>)>, int), DecodeError>
    decreases n,
{
    if n == 0 {
        Ok((Seq::empty(), pos))
    } else {
        match rd_str(b, pos) {
            Err(e) => Err(e),
            Ok((name, p)) => match rd_code(b, p) {
                Err(e) => Err(e),
                Ok((code, q)) => match rd_table(b, q, (n - 1) as nat) {
                    Err(e) => Err(e),
                    Ok((rest, r)) => Ok((seq![(name, code)] + rest, r)),
                },
            },
        }
    }
}

/// What reading a bytecode file gives: the functions (a later entry with the
/// name of an earlier one replaces its code) and the main code. Bytes after
/// the main code are ignored.
pub open spec fn dec_program(b: Seq<u8>) -> Result<(Seq<(Seq<char>, Seq<InstrView>)>, Seq<InstrView>), DecodeError> {
    if b.len() < 5 || b.subrange(0, 4) != seq![76u8, 73u8, 83u8, 80u8] {
        Err(DecodeError::Message("Invalid bytecode file: bad magic number"@))
    } else if b[4] != 7 {
        Err(DecodeError::Message("Unsupported bytecode version: "@ + decimal(b[4] as nat) + " (expected 7)"@))
    } else {
        match rd_u32(b, 5) {
            Err(e) => Err(e),
            Ok((n, p)) => match rd_table(b, p, n as nat) {
                Err(e) => Err(e),
                Ok((entries, q)) => match rd_code(b, q) {
                    Err(e) => Err(e),
                    Ok((main, _r)) => Ok((insert_all(Seq::empty(), entries), main)),
                },
            },
        }
    }
}


/// No index past the end of the input is reached.
pub open spec fn no_panic<X>(r: Result<X, DecodeError>) -> bool {
    !(r matches Err(DecodeError::OutOfBounds))
}

/// `String::from_utf8`: the string when the bytes are valid UTF-8.
#[verifier::external_body]
fn string_from_utf8(bytes: Vec<u8>) -> (r: Option<String>)
    ensures
        r.is_some() == valid_utf8(bytes@),
        r matches Some(s) ==> s@ == decode_utf8(bytes@),
{
    String::from_utf8(bytes).ok()
}

/// Why the reader stopped: an error it reports, or an index past the end of
/// the input that the file format leaves unchecked.
pub enum ReadError {
    Message(String),
    OutOfBounds,
}

fn end_of_bytecode() -> (m: String)
    ensures
        m@ == end_msg(),
{
    crate::text::owned("Unexpected end of bytecode")
}

fn read_u32(bytes: &[u8], pos: &mut usize) -> (r: Result<u32, ReadError>)
    requires
        *old(pos) <= bytes@.len(),
    ensures
        match rd_u32(bytes@, *old(pos) as int) {
            Ok((v, p)) => r matches Ok(x) && x == v && *final(pos) == p,
            Err(DecodeError::Message(m)) => r matches Err(ReadError::Message(e)) && e@ == m,
            Err(DecodeError::OutOfBounds) => r matches Err(ReadError::OutOfBounds),
        },
        r.is_ok() ==> *old(pos) <= *final(pos) <= bytes@.len(),
{
    if bytes.len() - *pos < 4 {
        return Err(ReadError::Message(end_of_bytecode()));
    }
    let p = *pos;
    let value: u32 = (bytes[p] as u32) + 256 * (bytes[p + 1] as u32) + 65536 * (bytes[p + 2] as u32)
        + 16777216 * (bytes[p + 3] as u32);
    *pos = p + 4;
    Ok(value)
}

fn read_u64_at(bytes: &[u8], p: usize) -> (v: u64)
    requires
        p + 8 <= bytes@.len(),
    ensures
        v == u64_at(bytes@, p as int),
{
    let lo: u64 = (bytes[p] as u64) + 256 * (bytes[p + 1] as u64) + 65536 * (bytes[p + 2] as u64)
        + 16777216 * (bytes[p + 3] as u64);
    let hi: u64 = (bytes[p + 4] as u64) + 256 * (bytes[p + 5] as u64) + 65536 * (bytes[p + 6] as u64)
        + 16777216 * (bytes[p + 7] as u64);
    lo + 4294967296 * hi
}

fn read_string(bytes: &[u8], pos: &mut usize) -> (r: Result<String, ReadError>)
    requires
        *old(pos) <= bytes@.len(),
    ensures
        match rd_str(bytes@, *old(pos) as int) {
            Ok((v, p)) => r matches Ok(x) && x@ == v && *final(pos) == p,
            Err(DecodeError::Message(m)) => r matches Err(ReadError::Message(e)) && e@ == m,
            Err(DecodeError::OutOfBounds) => r matches Err(ReadError::OutOfBounds),
        },
        r.is_ok() ==> *old(pos) <= *final(pos) <= bytes@.len(),
{
    let len = read_u32(bytes, pos)? as usize;
    if len > bytes.len() - *pos {
        return Err(ReadError::Message(end_of_bytecode()));
    }
    let start = *pos;
    let blen = bytes.len();
    let mut raw: Vec<u8> = Vec::new();
    let mut i: usize = 0;
    while i < len
        invariant
            blen == bytes@.len(),
            start + len <= blen,
            i <= len,
            raw@ == bytes@.subrange(start as int, start + i),
        decreases len - i,
    {
        raw.push(bytes[start + i]);
        i = i + 1;
        assert(raw@ =~= bytes@.subrange(start as int, start + i));
    }
    match string_from_utf8(raw) {
        Some(s) => {
            *pos = start + len;
            Ok(s)
        },
        None => Err(ReadError::Message(crate::text::owned("Invalid UTF-8 in bytecode"))),
    }
}

fn read_strings(bytes: &[u8], pos: &mut usize, n: u32) -> (r: Result<Vec<String>, ReadError>)
    requires
        *old(pos) <= bytes@.len(),
    ensures
        match rd_strs(bytes@, *old(pos) as int, n as nat) {
            Ok((v, p)) => r matches Ok(x) && names_view(x@) == v && *final(pos) == p,
            Err(DecodeError::Message(m)) => r matches Err(ReadError::Message(e)) && e@ == m,
            Err(DecodeError::OutOfBounds) => r matches Err(ReadError::OutOfBounds),
        },
        r.is_ok() ==> *old(pos) <= *final(pos) <= bytes@.len(),
{
    let mut out: Vec<String> = Vec::new();
    let mut k: u32 = 0;
    let ghost p0 = *pos as int;
    while k < n
        invariant
            k <= n,
            p0 <= *pos <= bytes@.len(),
            p0 == *old(pos) as int,
            rd_strs(bytes@, p0, n as nat) == (match rd_strs(bytes@, *pos as int, (n - k) as nat) {
                Ok((rest, q)) => Ok((names_view(out@) + rest, q)),
                Err(e) => Err(e),
            }),
        decreases n - k,
    {
        let ghost pb = *pos as int;
        let ghost before = out@;
        assert(rd_strs(bytes@, pb, (n - k) as nat) == (match rd_str(bytes@, pb) {
            Err(e) => Err(e),
            Ok((s, p)) => match rd_strs(bytes@, p, (n - k - 1) as nat) {
                Err(e) => Err(e),
                Ok((rest, q)) => Ok((seq![s] + rest, q)),
            },
        }));
        let s = read_string(bytes, pos)?;
        let ghost sv = s@;
        out.push(s);
        assert(names_view(out@) =~= names_view(before).push(sv));
        k = k + 1;
        proof {
            assert(seq![sv] + Seq::<Seq<char>>::empty() =~= seq![sv]);
            match rd_strs(bytes@, *pos as int, (n - k) as nat) {
                Ok((rest, q)) => {
                    assert(names_view(before) + (seq![sv] + rest) =~= names_view(out@) + rest);
                },
                Err(_) => {},
            }
        }
    }
    assert(names_view(out@) + Seq::<Seq<char>>::empty() =~= names_view(out@));
    assert(rd_strs(bytes@, *pos as int, 0) == Ok::<(Seq<Seq<char>>, int), DecodeError>((Seq::<Seq<char>>::empty(), *pos as int)));
    Ok(out)
}


pub(crate) proof fn lemma_key_index<V>(t: Seq<(Seq<char>, V)>, k: Seq<char>)
    ensures
        0 <= key_index(t, k) <= t.len(),
        key_index(t, k) < t.len() ==> t[key_index(t, k)].0 == k,
        forall|j: int| 0 <= j < key_index(t, k) ==> t[j].0 != k,
    decreases t.len(),
{
    if t.len() > 0 && t[0].0 != k {
        let rest = t.subrange(1, t.len() as int);
        lemma_key_index(rest, k);
        assert forall|j: int| 0 <= j < key_index(t, k) implies t[j].0 != k by {
            if j > 0 {
                assert(t[j] == rest[j - 1]);
            }
        }
    }
}

proof fn lemma_key_index_is(t: Seq<(Seq<char>, ValueView)>, k: Seq<char>, i: int)
    requires
        0 <= i <= t.len(),
        i < t.len() ==> t[i].0 == k,
        forall|j: int| 0 <= j < i ==> t[j].0 != k,
    ensures
        key_index(t, k) == i,
{
    lemma_key_index(t, k);
    let ki = key_index(t, k);
    if ki < i {
        assert(t[ki].0 == k);
    } else if i < ki {
        assert(t[i].0 != k);
    }
}

/// Map insertion into a list of entries.
pub(crate) fn insert_pair(entries: &mut Vec<(String, Value)>, k: String, v: Value)
    ensures
        pairs_view(final(entries)@) == insert_entry(pairs_view(old(entries)@), k@, value_view(v)),
{
    proof {
        lemma_pairs_view_ext(entries@);
    }
    let ghost pv = pairs_view(entries@);
    let mut i: usize = 0;
    while i < entries.len() && !(entries[i].0 == k)
        invariant
            i <= entries.len(),
            entries@ == old(entries)@,
            pv == pairs_view(entries@),
            pv.len() == entries@.len(),
            forall|j: int| 0 <= j < pv.len() ==> #[trigger] pv[j] == (entries@[j].0@, value_view(entries@[j].1)),
            forall|j: int| 0 <= j < i ==> pv[j].0 != k@,
        decreases entries.len() - i,
    {
        i = i + 1;
    }
    proof {
        lemma_key_index_is(pv, k@, i as int);
    }
    let ghost kv = k@;
    let ghost vv = value_view(v);
    if i < entries.len() {
        entries.set(i, (k, v));
    } else {
        entries.push((k, v));
    }
    proof {
        lemma_pairs_view_ext(entries@);
        assert(pairs_view(entries@) =~= insert_entry(pv, kv, vv));
    }
}

/// Map insertion into a function table.
pub(crate) fn insert_function(table: &mut FunctionTable, name: String, code: Vec<Instruction>)
    ensures
        table_view(final(table)@) == insert_entry(table_view(old(table)@), name@, instrs_view(code@)),
{
    let ghost tv = table_view(table@);
    let mut i: usize = 0;
    while i < table.len() && !(table[i].0 == name)
        invariant
            i <= table.len(),
            table@ == old(table)@,
            tv == table_view(table@),
            forall|j: int| 0 <= j < i ==> tv[j].0 != name@,
        decreases table.len() - i,
    {
        i = i + 1;
    }
    proof {
        lemma_key_index(tv, name@);
        let ki = key_index(tv, name@);
        if ki < i {
            assert(tv[ki].0 == name@);
        } else if i < ki {
            assert(tv[i as int].0 != name@);
        }
    }
    let ghost nv = name@;
    let ghost cv = instrs_view(code@);
    if i < table.len() {
        table.set(i, (name, code));
    } else {
        table.push((name, code));
    }
    assert(table_view(table@) =~= insert_entry(tv, nv, cv));
}

fn read_values(bytes: &[u8], pos: &mut usize, n: u32) -> (r: Result<Vec<Value>, ReadError>)
    requires
        *old(pos) <= bytes@.len(),
    ensures
        match rd_values(bytes@, *old(pos) as int, n as nat) {
            Ok((v, p)) => r matches Ok(x) && values_view(x@) == v && *final(pos) == p,
            Err(DecodeError::Message(m)) => r matches Err(ReadError::Message(e)) && e@ == m,
            Err(DecodeError::OutOfBounds) => r matches Err(ReadError::OutOfBounds),
        },
        r.is_ok() ==> *old(pos) <= *final(pos) <= bytes@.len(),
    decreases bytes@.len() - *old(pos), 1int, n,
{
    let mut out: Vec<Value> = Vec::new();
    let mut k: u32 = 0;
    let ghost p0 = *pos as int;
    proof {
        lemma_values_view_ext(out@);
    }
    while k < n
        invariant
            k <= n,
            p0 <= *pos <= bytes@.len(),
            p0 == *old(pos) as int,
            k > 0 ==> p0 < *pos,
            rd_values(bytes@, p0, n as nat) == (match rd_values(bytes@, *pos as int, (n - k) as nat) {
                Ok((rest, q)) => Ok((values_view(out@) + rest, q)),
                Err(e) => Err(e),
            }),
        decreases n - k,
    {
        let ghost pb = *pos as int;
        let ghost before = out@;
        assert(rd_values(bytes@, pb, (n - k) as nat) == (match rd_value(bytes@, pb) {
            Err(e) => Err(e),
            Ok((v, p)) => if p <= pb || p > bytes@.len() {
                Err(DecodeError::OutOfBounds)
            } else {
                match rd_values(bytes@, p, (n - k - 1) as nat) {
                    Err(e) => Err(e),
                    Ok((rest, q)) => Ok((seq![v] + rest, q)),
                }
            },
        }));
        let v = read_value(bytes, pos)?;
        let ghost vv = value_view(v);
        out.push(v);
        proof {
            lemma_values_view_ext(out@);
            lemma_values_view_ext(before);
            assert(values_view(out@) =~= values_view(before).push(vv));
        }
        k = k + 1;
        proof {
            match rd_values(bytes@, *pos as int, (n - k) as nat) {
                Ok((rest, q)) => {
                    assert(values_view(before) + (seq![vv] + rest) =~= values_view(out@) + rest);
                },
                Err(_) => {},
            }
        }
    }
    assert(values_view(out@) + Seq::<ValueView>::empty() =~= values_view(out@));
    Ok(out)
}

fn read_pairs(bytes: &[u8], pos: &mut usize, n: u32) -> (r: Result<Vec<(String, Value)>, ReadError>)
    requires
        *old(pos) <= bytes@.len(),
    ensures
        match rd_pairs(bytes@, *old(pos) as int, n as nat) {
            Ok((v, p)) => r matches Ok(x) && pairs_view(x@) == v && *final(pos) == p,
            Err(DecodeError::Message(m)) => r matches Err(ReadError::Message(e)) && e@ == m,
            Err(DecodeError::OutOfBounds) => r matches Err(ReadError::OutOfBounds),
        },
        r.is_ok() ==> *old(pos) <= *final(pos) <= bytes@.len(),
    decreases bytes@.len() - *old(pos), 1int, n,
{
    let mut out: Vec<(String, Value)> = Vec::new();
    let mut k: u32 = 0;
    let ghost p0 = *pos as int;
    proof {
        lemma_pairs_view_ext(out@);
    }
    while k < n
        invariant
            k <= n,
            p0 <= *pos <= bytes@.len(),
            p0 == *old(pos) as int,
            k > 0 ==> p0 < *pos,
            rd_pairs(bytes@, p0, n as nat) == (match rd_pairs(bytes@, *pos as int, (n - k) as nat) {
                Ok((rest, q)) => Ok((pairs_view(out@) + rest, q)),
                Err(e) => Err(e),
            }),
        decreases n - k,
    {
        let ghost pb = *pos as int;
        let ghost before = out@;
        assert(rd_pairs(bytes@, pb, (n - k) as nat) == (match rd_str(bytes@, pb) {
            Err(e) => Err(e),
            Ok((kk, p1)) => match rd_value(bytes@, p1) {
                Err(e) => Err(e),
                Ok((v, p2)) => if p2 <= pb || p2 > bytes@.len() {
                    Err(DecodeError::OutOfBounds)
                } else {
                    match rd_pairs(bytes@, p2, (n - k - 1) as nat) {
                        Err(e) => Err(e),
                        Ok((rest, q)) => Ok((seq![(kk, v)] + rest, q)),
                    }
                },
            },
        }));
        let key = read_string(bytes, pos)?;
        let v = read_value(bytes, pos)?;
        let ghost pv = (key@, value_view(v));
        out.push((key, v));
        proof {
            lemma_pairs_view_ext(out@);
            lemma_pairs_view_ext(before);
            assert(pairs_view(out@) =~= pairs_view(before).push(pv));
        }
        k = k + 1;
        proof {
            match rd_pairs(bytes@, *pos as int, (n - k) as nat) {
                Ok((rest, q)) => {
                    assert(pairs_view(before) + (seq![pv] + rest) =~= pairs_view(out@) + rest);
                },
                Err(_) => {},
            }
        }
    }
    assert(pairs_view(out@) + Seq::<(Seq<char>, ValueView)>::empty() =~= pairs_view(out@));
    Ok(out)
}

/// The entries inserted one after the other into an empty map.
fn build_map(raw: Vec<(String, Value)>) -> (map: Vec<(String, Value)>)
    ensures
        pairs_view(map@) == insert_all(Seq::empty(), pairs_view(raw@)),
{
    let mut raw = raw;
    let mut map: Vec<(String, Value)> = Vec::new();
    proof {
        lemma_pairs_view_ext(map@);
        assert(pairs_view(map@) =~= Seq::<(Seq<char>, ValueView)>::empty());
    }
    let ghost target = insert_all(Seq::empty(), pairs_view(raw@));
    while raw.len() > 0
        invariant
            insert_all(pairs_view(map@), pairs_view(raw@)) == target,
        decreases raw.len(),
    {
        let ghost rv = pairs_view(raw@);
        proof {
            lemma_pairs_view_ext(raw@);
        }
        let (k, v) = raw.remove(0);
        proof {
            lemma_pairs_view_ext(raw@);
            assert(pairs_view(raw@) =~= rv.subrange(1, rv.len() as int));
        }
        insert_pair(&mut map, k, v);
    }
    proof {
        lemma_pairs_view_ext(raw@);
        assert(pairs_view(raw@) =~= Seq::<(Seq<char>, ValueView)>::empty());
    }
    map
}

fn read_value(bytes: &[u8], pos: &mut usize) -> (r: Result<Value, ReadError>)
    requires
        *old(pos) <= bytes@.len(),
    ensures
        match rd_value(bytes@, *old(pos) as int) {
            Ok((v, p)) => r matches Ok(x) && value_view(x) == v && *final(pos) == p,
            Err(DecodeError::Message(m)) => r matches Err(ReadError::Message(e)) && e@ == m,
            Err(DecodeError::OutOfBounds) => r matches Err(ReadError::OutOfBounds),
        },
        r.is_ok() ==> *old(pos) < *final(pos) <= bytes@.len(),
    decreases bytes@.len() - *old(pos), 0int, 0int,
{
    if *pos >= bytes.len() {
        return Err(ReadError::Message(end_of_bytecode()));
    }
    let tag = bytes[*pos];
    *pos = *pos + 1;
    let p = *pos;
    if tag == 0 {
        if bytes.len() - p < 8 {
            return Err(ReadError::Message(end_of_bytecode()));
        }
        let u = read_u64_at(bytes, p);
        *pos = p + 8;
        Ok(Value::Integer(u as i64))
    } else if tag == 1 {
        if p >= bytes.len() {
            return Err(ReadError::Message(end_of_bytecode()));
        }
        let b = bytes[p] != 0;
        *pos = p + 1;
        Ok(Value::Boolean(b))
    } else if tag == 2 {
        let n = read_u32(bytes, pos)?;
        let items = read_values(bytes, pos, n)?;
        Ok(Value::List(List { items }))
    } else if tag == 3 {
        Ok(Value::Symbol(read_string(bytes, pos)?))
    } else if tag == 4 {
        Ok(Value::String(read_string(bytes, pos)?))
    } else if tag == 5 {
        Ok(Value::Function(read_string(bytes, pos)?))
    } else if tag == 6 {
        read_closure(bytes, pos)
    } else if tag == 7 {
        let n = read_u32(bytes, pos)?;
        let raw = read_pairs(bytes, pos, n)?;
        Ok(Value::HashMap(build_map(raw)))
    } else if tag == 8 {
        let n = read_u32(bytes, pos)?;
        let items = read_values(bytes, pos, n)?;
        Ok(Value::Vector(items))
    } else if tag == 9 {
        if bytes.len() - p < 8 {
            return Err(ReadError::Message(end_of_bytecode()));
        }
        let u = read_u64_at(bytes, p);
        *pos = p + 8;
        Ok(Value::Float(u))
    } else {
        let mut m = crate::text::owned("Unknown value tag: ");
        crate::text::push_usize(&mut m, tag as usize);
        Err(ReadError::Message(m))
    }
}

fn read_closure(bytes: &[u8], pos: &mut usize) -> (r: Result<Value, ReadError>)
    requires
        *old(pos) <= bytes@.len(),
    ensures
        match rd_closure(bytes@, *old(pos) as int) {
            Ok((v, p)) => r matches Ok(x) && value_view(x) == v && *final(pos) == p,
            Err(DecodeError::Message(m)) => r matches Err(ReadError::Message(e)) && e@ == m,
            Err(DecodeError::OutOfBounds) => r matches Err(ReadError::OutOfBounds),
        },
        r.is_ok() ==> *old(pos) < *final(pos) <= bytes@.len(),
    decreases bytes@.len() - *old(pos), 2int, 0int,
{
    let ghost p0 = *pos as int;
    let np = read_u32(bytes, pos)?;
    let params = read_strings(bytes, pos, np)?;
    if *pos >= bytes.len() {
        return Err(ReadError::OutOfBounds);
    }
    let rest_param = if bytes[*pos] == 0 {
        *pos = *pos + 1;
        None
    } else {
        *pos = *pos + 1;
        Some(read_string(bytes, pos)?)
    };
    let nb = read_u32(bytes, pos)?;
    let body = read_instructions(bytes, pos, nb)?;
    let nc = read_u32(bytes, pos)?;
    let captured = read_pairs(bytes, pos, nc)?;
    Ok(Value::Closure(Box::new(ClosureData { params, rest_param, body, captured })))
}

fn read_instructions(bytes: &[u8], pos: &mut usize, n: u32) -> (r: Result<Vec<Instruction>, ReadError>)
    requires
        *old(pos) <= bytes@.len(),
    ensures
        match rd_instrs(bytes@, *old(pos) as int, n as nat) {
            Ok((v, p)) => r matches Ok(x) && instrs_view(x@) == v && *final(pos) == p,
            Err(DecodeError::Message(m)) => r matches Err(ReadError::Message(e)) && e@ == m,
            Err(DecodeError::OutOfBounds) => r matches Err(ReadError::OutOfBounds),
        },
        r.is_ok() ==> *old(pos) <= *final(pos) <= bytes@.len(),
    decreases bytes@.len() - *old(pos), 1int, n,
{
    let mut out: Vec<Instruction> = Vec::new();
    let mut k: u32 = 0;
    let ghost p0 = *pos as int;
    proof {
        lemma_instrs_view_ext(out@);
    }
    while k < n
        invariant
            k <= n,
            p0 <= *pos <= bytes@.len(),
            p0 == *old(pos) as int,
            k > 0 ==> p0 < *pos,
            rd_instrs(bytes@, p0, n as nat) == (match rd_instrs(bytes@, *pos as int, (n - k) as nat) {
                Ok((rest, q)) => Ok((instrs_view(out@) + rest, q)),
                Err(e) => Err(e),
            }),
        decreases n - k,
    {
        let ghost pb = *pos as int;
        let ghost before = out@;
        assert(rd_instrs(bytes@, pb, (n - k) as nat) == (match rd_instr(bytes@, pb) {
            Err(e) => Err(e),
            Ok((v, p)) => if p <= pb || p > bytes@.len() {
                Err(DecodeError::OutOfBounds)
            } else {
                match rd_instrs(bytes@, p, (n - k - 1) as nat) {
                    Err(e) => Err(e),
                    Ok((rest, q)) => Ok((seq![v] + rest, q)),
                }
            },
        }));
        let v = read_instruction(bytes, pos)?;
        let ghost vv = instr_view(v);
        out.push(v);
        proof {
            lemma_instrs_view_ext(out@);
            lemma_instrs_view_ext(before);
            assert(instrs_view(out@) =~= instrs_view(before).push(vv));
        }
        k = k + 1;
        proof {
            match rd_instrs(bytes@, *pos as int, (n - k) as nat) {
                Ok((rest, q)) => {
                    assert(instrs_view(before) + (seq![vv] + rest) =~= instrs_view(out@) + rest);
                },
                Err(_) => {},
            }
        }
    }
    assert(instrs_view(out@) + Seq::<InstrView>::empty() =~= instrs_view(out@));
    Ok(out)
}

fn read_make_closure(bytes: &[u8], pos: &mut usize, variadic: bool) -> (r: Result<Instruction, ReadError>)
    requires
        *old(pos) <= bytes@.len(),
    ensures
        match rd_make_closure(bytes@, *old(pos) as int, variadic) {
            Ok((v, p)) => r matches Ok(x) && instr_view(x) == v && *final(pos) == p,
            Err(DecodeError::Message(m)) => r matches Err(ReadError::Message(e)) && e@ == m,
            Err(DecodeError::OutOfBounds) => r matches Err(ReadError::OutOfBounds),
        },
        r.is_ok() ==> *old(pos) < *final(pos) <= bytes@.len(),
    decreases bytes@.len() - *old(pos), 2int, 0int,
{
    let np = read_u32(bytes, pos)?;
    let params = read_strings(bytes, pos, np)?;
    let rest_param = if variadic {
        read_string(bytes, pos)?
    } else {
        String::new()
    };
    let nb = read_u32(bytes, pos)?;
    let body = read_instructions(bytes, pos, nb)?;
    let nc = read_u32(bytes, pos)?;
    if variadic {
        Ok(Instruction::MakeVariadicClosure(params, rest_param, body, nc as usize))
    } else {
        Ok(Instruction::MakeClosure(params, body, nc as usize))
    }
}

fn read_instruction(bytes: &[u8], pos: &mut usize) -> (r: Result<Instruction, ReadError>)
    requires
        *old(pos) <= bytes@.len(),
    ensures
        match rd_instr(bytes@, *old(pos) as int) {
            Ok((v, p)) => r matches Ok(x) && instr_view(x) == v && *final(pos) == p,
            Err(DecodeError::Message(m)) => r matches Err(ReadError::Message(e)) && e@ == m,
            Err(DecodeError::OutOfBounds) => r matches Err(ReadError::OutOfBounds),
        },
        r.is_ok() ==> *old(pos) < *final(pos) <= bytes@.len(),
    decreases bytes@.len() - *old(pos), 0int, 0int,
{
    if *pos >= bytes.len() {
        return Err(ReadError::Message(end_of_bytecode()));
    }
    let op = bytes[*pos];
    *pos = *pos + 1;
    if op == 0 {
        return Ok(Instruction::Push(read_value(bytes, pos)?));
    }
    match simple_from_opcode(op) {
        Some(i) => {
            proof {
                lemma_simple_roundtrip(op);
            }
            return Ok(i);
        },
        None => {},
    }
    match indexed_from_opcode(op, 0) {
        Some(_) => {
            let a = read_u32(bytes, pos)?;
            let i = indexed_from_opcode(op, a as usize);
            proof {
                lemma_indexed_roundtrip(op, a as usize);
            }
            return Ok(i.unwrap());
        },
        None => {},
    }
    if op == 8 || op == 37 {
        let name = read_string(bytes, pos)?;
        let n = read_u32(bytes, pos)?;
        if op == 8 {
            Ok(Instruction::Call(name, n as usize))
        } else {
            Ok(Instruction::TailCall(name, n as usize))
        }
    } else if op == 31 {
        let a = read_u32(bytes, pos)?;
        let c = read_u32(bytes, pos)?;
        Ok(Instruction::CheckArity(a as usize, c as usize))
    } else if op == 32 || op == 77 {
        read_make_closure(bytes, pos, op == 77)
    } else if op == 38 || op == 39 {
        let name = read_string(bytes, pos)?;
        if op == 38 {
            Ok(Instruction::LoadGlobal(name))
        } else {
            Ok(Instruction::StoreGlobal(name))
        }
    } else {
        let mut m = crate::text::owned("Unknown opcode: ");
        crate::text::push_usize(&mut m, op as usize);
        Err(ReadError::Message(m))
    }
}


fn read_code(bytes: &[u8], pos: &mut usize) -> (r: Result<Vec<Instruction>, ReadError>)
    requires
        *old(pos) <= bytes@.len(),
    ensures
        match rd_code(bytes@, *old(pos) as int) {
            Ok((v, p)) => r matches Ok(x) && instrs_view(x@) == v && *final(pos) == p,
            Err(DecodeError::Message(m)) => r matches Err(ReadError::Message(e)) && e@ == m,
            Err(DecodeError::OutOfBounds) => r matches Err(ReadError::OutOfBounds),
        },
        r.is_ok() ==> *old(pos) <= *final(pos) <= bytes@.len(),
{
    let n = read_u32(bytes, pos)?;
    read_instructions(bytes, pos, n)
}

fn read_table(bytes: &[u8], pos: &mut usize, n: u32) -> (r: Result<FunctionTable, ReadError>)
    requires
        *old(pos) <= bytes@.len(),
    ensures
        match rd_table(bytes@, *old(pos) as int, n as nat) {
            Ok((v, p)) => r matches Ok(x) && table_view(x@) == v && *final(pos) == p,
            Err(DecodeError::Message(m)) => r matches Err(ReadError::Message(e)) && e@ == m,
            Err(DecodeError::OutOfBounds) => r matches Err(ReadError::OutOfBounds),
        },
        r.is_ok() ==> *old(pos) <= *final(pos) <= bytes@.len(),
{
    let mut out: FunctionTable = Vec::new();
    let mut k: u32 = 0;
    let ghost p0 = *pos as int;
    while k < n
        invariant
            k <= n,
            p0 <= *pos <= bytes@.len(),
            p0 == *old(pos) as int,
            rd_table(bytes@, p0, n as nat) == (match rd_table(bytes@, *pos as int, (n - k) as nat) {
                Ok((rest, q)) => Ok((table_view(out@) + rest, q)),
                Err(e) => Err(e),
            }),
        decreases n - k,
    {
        let ghost pb = *pos as int;
        let ghost before = out@;
        assert(rd_table(bytes@, pb, (n - k) as nat) == (match rd_str(bytes@, pb) {
            Err(e) => Err(e),
            Ok((name, p)) => match rd_code(bytes@, p) {
                Err(e) => Err(e),
                Ok((code, q)) => match rd_table(bytes@, q, (n - k - 1) as nat) {
                    Err(e) => Err(e),
                    Ok((rest, r)) => Ok((seq![(name, code)] + rest, r)),
                },
            },
        }));
        let name = read_string(bytes, pos)?;
        let code = read_code(bytes, pos)?;
        let ghost ev = (name@, instrs_view(code@));
        out.push((name, code));
        assert(table_view(out@) =~= table_view(before).push(ev));
        k = k + 1;
        proof {
            match rd_table(bytes@, *pos as int, (n - k) as nat) {
                Ok((rest, q)) => {
                    assert(table_view(before) + (seq![ev] + rest) =~= table_view(out@) + rest);
                },
                Err(_) => {},
            }
        }
    }
    assert(table_view(out@) + Seq::<(Seq<char>, Seq<InstrView>)>::empty() =~= table_view(out@));
    Ok(out)
}

/// The entries inserted one after the other into an empty table.
fn build_table(raw: FunctionTable) -> (table: FunctionTable)
    ensures
        table_view(table@) == insert_all(Seq::empty(), table_view(raw@)),
{
    let mut raw = raw;
    let mut table: FunctionTable = Vec::new();
    assert(table_view(table@) =~= Seq::<(Seq<char>, Seq<InstrView>)>::empty());
    let ghost target = insert_all(Seq::empty(), table_view(raw@));
    while raw.len() > 0
        invariant
            insert_all(table_view(table@), table_view(raw@)) == target,
        decreases raw.len(),
    {
        let ghost rv = table_view(raw@);
        let (name, code) = raw.remove(0);
        assert(table_view(raw@) =~= rv.subrange(1, rv.len() as int));
        insert_function(&mut table, name, code);
    }
    assert(table_view(raw@) =~= Seq::<(Seq<char>, Seq<InstrView>)>::empty());
    table
}

fn decode_program(bytes: &[u8]) -> (r: Result<(FunctionTable, Vec<Instruction>), ReadError>)
    ensures
        match dec_program(bytes@) {
            Ok((t, m)) => r matches Ok((ft, mc)) && table_view(ft@) == t && instrs_view(mc@) == m,
            Err(DecodeError::Message(msg)) => r matches Err(ReadError::Message(e)) && e@ == msg,
            Err(DecodeError::OutOfBounds) => r matches Err(ReadError::OutOfBounds),
        },
{
    if bytes.len() < 5 || !(bytes[0] == 76 && bytes[1] == 73 && bytes[2] == 83 && bytes[3] == 80) {
        proof {
            if bytes@.len() >= 5 {
                if bytes@.subrange(0, 4) == seq![76u8, 73u8, 83u8, 80u8] {
                    assert(bytes@.subrange(0, 4)[0] == 76u8);
                    assert(bytes@.subrange(0, 4)[1] == 73u8);
                    assert(bytes@.subrange(0, 4)[2] == 83u8);
                    assert(bytes@.subrange(0, 4)[3] == 80u8);
                }
            }
        }
        return Err(ReadError::Message(crate::text::owned("Invalid bytecode file: bad magic number")));
    }
    assert(bytes@.subrange(0, 4) =~= seq![76u8, 73u8, 83u8, 80u8]);
    let version = bytes[4];
    if version != 7 {
        let mut m = crate::text::owned("Unsupported bytecode version: ");
        crate::text::push_usize(&mut m, version as usize);
        crate::text::push_str(&mut m, " (expected 7)");
        return Err(ReadError::Message(m));
    }
    let mut pos: usize = 5;
    let func_count = read_u32(bytes, &mut pos)?;
    let raw = read_table(bytes, &mut pos, func_count)?;
    let functions = build_table(raw);
    let main_bytecode = read_code(bytes, &mut pos)?;
    Ok((functions, main_bytecode))
}

/// Reads a bytecode file written by `serialize_bytecode`. When a function
/// name occurs twice, the later code replaces the earlier.
pub fn deserialize_bytecode(bytes: &[u8]) -> (r: Result<(FunctionTable, Vec<Instruction>), String>)
    requires
        no_panic(dec_program(bytes@)),
    ensures
        match dec_program(bytes@) {
            Ok((t, m)) => r matches Ok((ft, mc)) && table_view(ft@) == t && instrs_view(mc@) == m,
            Err(DecodeError::Message(msg)) => r matches Err(e) && e@ == msg,
            Err(DecodeError::OutOfBounds) => false,
        },
{
    match decode_program(bytes) {
        Ok(out) => Ok(out),
        Err(ReadError::Message(m)) => Err(m),
        Err(ReadError::OutOfBounds) => Err(String::new()),
    }
}

/// Reads a bytecode file as `deserialize_bytecode` does, for any input:
/// `None` where reading would index past the end of the input.
pub fn read_bytecode(bytes: &[u8]) -> (r: Option<Result<(FunctionTable, Vec<Instruction>), String>>)
    ensures
        match dec_program(bytes@) {
            Ok((t, m)) => r matches Some(Ok((ft, mc))) && table_view(ft@) == t && instrs_view(mc@) == m,
            Err(DecodeError::Message(msg)) => r matches Some(Err(e)) && e@ == msg,
            Err(DecodeError::OutOfBounds) => r is None,
        },
{
    match decode_program(bytes) {
        Ok(out) => Some(Ok(out)),
        Err(ReadError::Message(m)) => Some(Err(m)),
        Err(ReadError::OutOfBounds) => None,
    }
}
} // verus!
