use vstd::prelude::*;
use crate::instructions::{Instruction, FfiType, index_opcode, instruction_name, name_of, opcode_of_indexed};
use crate::value::{Value, names_view};
use crate::text::{decimal, signed_decimal, push_str, push_chars, push_usize, i64_decimal};
use crate::display::{float_entry, float_text};
use crate::ast::{LispExpr, SourceExpr, ExprView, SourceView, expr_view, source_view, sources_view, lemma_sources_view_len, lemma_sources_view_index};
use crate::errors::{Location, LocView};

verus! {
broadcast use vstd::std_specs::vec::axiom_vec_decreases_to_view;

// ---------------------------------------------------------------------------
// What std's `Debug` gives for texts

/// The text `{:?}` gives for a string: quoted, with std's escapes.
pub uninterp spec fn debug_str(s: Seq<char>) -> Seq<char>;

/// The text `{:?}` gives for a list of names: each as `debug_str` gives it,
/// separated by commas, in square brackets.
pub uninterp spec fn debug_names(names: Seq<Seq<char>>) -> Seq<char>;

/// `format!("{:?}", s)` on a string; the contract names the text.
#[verifier::external_body]
pub(crate) fn str_debug_text(s: &str) -> (r: String)
    ensures
        r@ == debug_str(s@),
{
    format!("{:?}", s)
}

/// `format!("{:?}", v)` on a list of names; the contract names the text.
#[verifier::external_body]
pub(crate) fn names_debug_text(v: &Vec<String>) -> (r: String)
    ensures
        r@ == debug_names(names_view(v@)),
{
    format!("{:?}", v)
}

// ---------------------------------------------------------------------------
// The derived `Debug` text of values and instructions

/// The name of an FFI type, as its derived `Debug` gives it.
pub open spec fn ffi_debug(t: FfiType) -> Seq<char> {
    match t {
        FfiType::Void => "Void"@,
        FfiType::Int8 => "Int8"@,
        FfiType::Int16 => "Int16"@,
        FfiType::Int32 => "Int32"@,
        FfiType::Int64 => "Int64"@,
        FfiType::UInt8 => "UInt8"@,
        FfiType::UInt16 => "UInt16"@,
        FfiType::UInt32 => "UInt32"@,
        FfiType::UInt64 => "UInt64"@,
        FfiType::Float => "Float"@,
        FfiType::Double => "Double"@,
        FfiType::Pointer => "Pointer"@,
        FfiType::String => "String"@,
    }
}

/// FFI types from `i` on, separated by ", ".
pub open spec fn ffis_joined(ts: Seq<FfiType>, i: int) -> Seq<char>
    decreases ts.len() - i,
{
    if i < 0 || i >= ts.len() {
        Seq::empty()
    } else if i + 1 == ts.len() {
        ffi_debug(ts[i])
    } else {
        ffi_debug(ts[i]) + ", "@ + ffis_joined(ts, i + 1)
    }
}

/// Whether every float in a value has a text in the table.
pub open spec fn value_known(v: Value, t: Seq<(u64, String)>) -> bool
    decreases v, 1int, 0int,
{
    match v {
        Value::Float(b) => float_entry(t, b) is Some,
        Value::List(l) => values_known(l.items@, 0, t),
        Value::Vector(items) => values_known(items@, 0, t),
        Value::HashMap(m) => pairs_known(m@, 0, t),
        Value::Closure(c) => pairs_known(c.captured@, 0, t) && instrs_known(c.body@, 0, t),
        _ => true,
    }
}

pub open spec fn values_known(s: Seq<Value>, i: int, t: Seq<(u64, String)>) -> bool
    decreases s, 0int, s.len() - i,
{
    if i < 0 || i >= s.len() {
        true
    } else {
        value_known(s[i], t) && values_known(s, i + 1, t)
    }
}

pub open spec fn pairs_known(s: Seq<(String, Value)>, i: int, t: Seq<(u64, String)>) -> bool
    decreases s, 0int, s.len() - i,
{
    if i < 0 || i >= s.len() {
        true
    } else {
        value_known(s[i].1, t) && pairs_known(s, i + 1, t)
    }
}

pub open spec fn instr_known(ins: Instruction, t: Seq<(u64, String)>) -> bool
    decreases ins, 1int, 0int,
{
    match ins {
        Instruction::Push(v) => value_known(v, t),
        Instruction::MakeClosure(_, body, _) => instrs_known(body@, 0, t),
        Instruction::MakeVariadicClosure(_, _, body, _) => instrs_known(body@, 0, t),
        _ => true,
    }
}

pub open spec fn instrs_known(s: Seq<Instruction>, i: int, t: Seq<(u64, String)>) -> bool
    decreases s, 0int, s.len() - i,
{
    if i < 0 || i >= s.len() {
        true
    } else {
        instr_known(s[i], t) && instrs_known(s, i + 1, t)
    }
}

/// The derived `Debug` text of a value, a float by its text in the table. A
/// list shows as its cons cells; a hash map shows its entries in the order
/// they are held.
pub open spec fn value_debug(v: Value, t: Seq<(u64, String)>) -> Seq<char>
    decreases v, 1int, 0int,
{
    match v {
        Value::Integer(n) => "Integer("@ + signed_decimal(n as int) + ")"@,
        Value::Float(b) => "Float("@ + float_entry(t, b).unwrap() + ")"@,
        Value::Boolean(b) => if b {
            "Boolean(true)"@
        } else {
            "Boolean(false)"@
        },
        Value::List(l) => "List("@ + cons_debug(l.items@, 0, t) + ")"@,
        Value::Symbol(s) => "Symbol("@ + debug_str(s@) + ")"@,
        Value::String(s) => "String("@ + debug_str(s@) + ")"@,
        Value::Function(s) => "Function("@ + debug_str(s@) + ")"@,
        Value::Closure(c) => "Closure(ClosureData { params: "@ + debug_names(names_view(c.params@))
            + ", rest_param: "@ + (match c.rest_param {
            Some(r) => "Some("@ + debug_str(r@) + ")"@,
            None => "None"@,
        }) + ", body: ["@ + instrs_debug(c.body@, 0, t) + "], captured: ["@ + captured_debug(c.captured@, 0, t)
            + "] })"@,
        Value::HashMap(m) => "HashMap({"@ + entries_debug(m@, 0, t) + "})"@,
        Value::Vector(items) => "Vector(["@ + values_debug(items@, 0, t) + "])"@,
        Value::Pointer(p) => "Pointer("@ + signed_decimal(p as int) + ")"@,
    }
}

/// A list from position `i` on as its cons cells.
pub open spec fn cons_debug(s: Seq<Value>, i: int, t: Seq<(u64, String)>) -> Seq<char>
    decreases s, 0int, s.len() - i,
{
    if i < 0 || i >= s.len() {
        "Nil"@
    } else {
        "Cons(ConsCell { head: "@ + value_debug(s[i], t) + ", tail: "@ + cons_debug(s, i + 1, t) + " })"@
    }
}

/// Values from `i` on, separated by ", ".
pub open spec fn values_debug(s: Seq<Value>, i: int, t: Seq<(u64, String)>) -> Seq<char>
    decreases s, 0int, s.len() - i,
{
    if i < 0 || i >= s.len() {
        Seq::empty()
    } else if i + 1 == s.len() {
        value_debug(s[i], t)
    } else {
        value_debug(s[i], t) + ", "@ + values_debug(s, i + 1, t)
    }
}

/// Map entries from `i` on as `"key": value`, separated by ", ".
pub open spec fn entries_debug(s: Seq<(String, Value)>, i: int, t: Seq<(u64, String)>) -> Seq<char>
    decreases s, 0int, s.len() - i,
{
    if i < 0 || i >= s.len() {
        Seq::empty()
    } else {
        debug_str(s[i].0@) + ": "@ + value_debug(s[i].1, t) + (if i + 1 == s.len() {
            Seq::empty()
        } else {
            ", "@ + entries_debug(s, i + 1, t)
        })
    }
}

/// Captured pairs from `i` on as `("name", value)`, separated by ", ".
pub open spec fn captured_debug(s: Seq<(String, Value)>, i: int, t: Seq<(u64, String)>) -> Seq<char>
    decreases s, 0int, s.len() - i,
{
    if i < 0 || i >= s.len() {
        Seq::empty()
    } else {
        "("@ + debug_str(s[i].0@) + ", "@ + value_debug(s[i].1, t) + ")"@ + (if i + 1 == s.len() {
            Seq::empty()
        } else {
            ", "@ + captured_debug(s, i + 1, t)
        })
    }
}

/// The derived `Debug` text of an instruction.
pub open spec fn instr_debug(ins: Instruction, t: Seq<(u64, String)>) -> Seq<char>
    decreases ins, 1int, 0int,
{
    match ins {
        Instruction::Push(v) => "Push("@ + value_debug(v, t) + ")"@,
        Instruction::Call(name, n) => "Call("@ + debug_str(name@) + ", "@ + decimal(n as nat) + ")"@,
        Instruction::TailCall(name, n) => "TailCall("@ + debug_str(name@) + ", "@ + decimal(n as nat) + ")"@,
        Instruction::CheckArity(a, b) => "CheckArity("@ + decimal(a as nat) + ", "@ + decimal(b as nat) + ")"@,
        Instruction::MakeClosure(params, body, n) => "MakeClosure("@ + debug_names(names_view(params@)) + ", ["@
            + instrs_debug(body@, 0, t) + "], "@ + decimal(n as nat) + ")"@,
        Instruction::MakeVariadicClosure(params, rest, body, n) => "MakeVariadicClosure("@ + debug_names(
            names_view(params@),
        ) + ", "@ + debug_str(rest@) + ", ["@ + instrs_debug(body@, 0, t) + "], "@ + decimal(n as nat) + ")"@,
        Instruction::LoadGlobal(name) => "LoadGlobal("@ + debug_str(name@) + ")"@,
        Instruction::StoreGlobal(name) => "StoreGlobal("@ + debug_str(name@) + ")"@,
        Instruction::FfiCall(args, ret) => "FfiCall(["@ + ffis_joined(args@, 0) + "], "@ + ffi_debug(ret) + ")"@,
        _ => match index_opcode(ins) {
            Some((_op, a)) => instruction_name(ins) + "("@ + decimal(a as nat) + ")"@,
            None => instruction_name(ins),
        },
    }
}

/// Instructions from `i` on, separated by ", ".
pub open spec fn instrs_debug(s: Seq<Instruction>, i: int, t: Seq<(u64, String)>) -> Seq<char>
    decreases s, 0int, s.len() - i,
{
    if i < 0 || i >= s.len() {
        Seq::empty()
    } else if i + 1 == s.len() {
        instr_debug(s[i], t)
    } else {
        instr_debug(s[i], t) + ", "@ + instrs_debug(s, i + 1, t)
    }
}

// ---------------------------------------------------------------------------
// Writing them

/// Appends a float's text from the table, or names the float it lacks.
fn push_float(out: &mut String, b: u64, t: &Vec<(u64, String)>) -> (r: Result<(), u64>)
    ensures
        r is Ok == (float_entry(t@, b) is Some),
        r is Ok ==> final(out)@ == old(out)@ + float_entry(t@, b).unwrap(),
        r matches Err(x) ==> x == b,
{
    match float_text(t, b) {
        Some(cs) => {
            push_chars(out, &cs);
            Ok(())
        },
        None => Err(b),
    }
}

fn push_ffi_joined(out: &mut String, ts: &Vec<FfiType>)
    ensures
        final(out)@ == old(out)@ + ffis_joined(ts@, 0),
{
    let ghost start = out@;
    let mut i: usize = ts.len();
    let mut tail = String::new();
    while i > 0
        invariant
            i <= ts@.len(),
            tail@ == ffis_joined(ts@, i as int),
            out@ == start,
        decreases i,
    {
        i = i - 1;
        let mut piece = String::new();
        push_ffi_name(&mut piece, ts[i]);
        if i + 1 < ts.len() {
            push_str(&mut piece, ", ");
        }
        push_str(&mut piece, tail.as_str());
        tail = piece;
    }
    push_str(out, tail.as_str());
}

fn push_ffi_name(out: &mut String, t: FfiType)
    ensures
        final(out)@ == old(out)@ + ffi_debug(t),
{
    match t {
        FfiType::Void => push_str(out, "Void"),
        FfiType::Int8 => push_str(out, "Int8"),
        FfiType::Int16 => push_str(out, "Int16"),
        FfiType::Int32 => push_str(out, "Int32"),
        FfiType::Int64 => push_str(out, "Int64"),
        FfiType::UInt8 => push_str(out, "UInt8"),
        FfiType::UInt16 => push_str(out, "UInt16"),
        FfiType::UInt32 => push_str(out, "UInt32"),
        FfiType::UInt64 => push_str(out, "UInt64"),
        FfiType::Float => push_str(out, "Float"),
        FfiType::Double => push_str(out, "Double"),
        FfiType::Pointer => push_str(out, "Pointer"),
        FfiType::String => push_str(out, "String"),
    }
}

fn push_debug_str(out: &mut String, s: &str)
    ensures
        final(out)@ == old(out)@ + debug_str(s@),
{
    let d = str_debug_text(s);
    push_str(out, d.as_str());
}

fn push_signed(out: &mut String, n: i64)
    ensures
        final(out)@ == old(out)@ + signed_decimal(n as int),
{
    let d = i64_decimal(n);
    push_chars(out, &d);
}

/// Appends the derived `Debug` text of a value; fails with the first float
/// that has no text in the table.
pub fn push_value_debug(out: &mut String, v: &Value, t: &Vec<(u64, String)>) -> (r: Result<(), u64>)
    ensures
        r is Ok == value_known(*v, t@),
        r is Ok ==> final(out)@ == old(out)@ + value_debug(*v, t@),
        r matches Err(b) ==> float_entry(t@, b) is None,
    decreases *v, 1int, 0int,
{
    match v {
        Value::Integer(n) => {
            push_str(out, "Integer(");
            push_signed(out, *n);
            push_str(out, ")");
        },
        Value::Float(b) => {
            push_str(out, "Float(");
            push_float(out, *b, t)?;
            push_str(out, ")");
        },
        Value::Boolean(b) => {
            if *b {
                push_str(out, "Boolean(true)");
            } else {
                push_str(out, "Boolean(false)");
            }
        },
        Value::List(l) => {
            push_str(out, "List(");
            push_cons_debug(out, &l.items, 0, t)?;
            push_str(out, ")");
        },
        Value::Symbol(s) => {
            push_str(out, "Symbol(");
            push_debug_str(out, s.as_str());
            push_str(out, ")");
        },
        Value::String(s) => {
            push_str(out, "String(");
            push_debug_str(out, s.as_str());
            push_str(out, ")");
        },
        Value::Function(s) => {
            push_str(out, "Function(");
            push_debug_str(out, s.as_str());
            push_str(out, ")");
        },
        Value::Closure(c) => {
            push_str(out, "Closure(ClosureData { params: ");
            let names = names_debug_text(&c.params);
            push_str(out, names.as_str());
            push_str(out, ", rest_param: ");
            match &c.rest_param {
                Some(r) => {
                    push_str(out, "Some(");
                    push_debug_str(out, r.as_str());
                    push_str(out, ")");
                },
                None => {
                    push_str(out, "None");
                },
            }
            push_str(out, ", body: [");
            push_instrs_debug(out, &c.body, 0, t)?;
            push_str(out, "], captured: [");
            push_captured_debug(out, &c.captured, 0, t)?;
            push_str(out, "] })");
        },
        Value::HashMap(m) => {
            push_str(out, "HashMap({");
            push_entries_debug(out, m, 0, t)?;
            push_str(out, "})");
        },
        Value::Vector(items) => {
            push_str(out, "Vector([");
            push_values_debug(out, items, 0, t)?;
            push_str(out, "])");
        },
        Value::Pointer(p) => {
            push_str(out, "Pointer(");
            push_signed(out, *p);
            push_str(out, ")");
        },
    }
    Ok(())
}

fn push_cons_debug(out: &mut String, s: &Vec<Value>, i: usize, t: &Vec<(u64, String)>) -> (r: Result<(), u64>)
    ensures
        r is Ok == values_known(s@, i as int, t@),
        r is Ok ==> final(out)@ == old(out)@ + cons_debug(s@, i as int, t@),
        r matches Err(b) ==> float_entry(t@, b) is None,
    decreases *s, 0int, s@.len() - i,
{
    if i >= s.len() {
        push_str(out, "Nil");
        return Ok(());
    }
    push_str(out, "Cons(ConsCell { head: ");
    push_value_debug(out, &s[i], t)?;
    push_str(out, ", tail: ");
    push_cons_debug(out, s, i + 1, t)?;
    push_str(out, " })");
    Ok(())
}

fn push_values_debug(out: &mut String, s: &Vec<Value>, i: usize, t: &Vec<(u64, String)>) -> (r: Result<(), u64>)
    ensures
        r is Ok == values_known(s@, i as int, t@),
        r is Ok ==> final(out)@ == old(out)@ + values_debug(s@, i as int, t@),
        r matches Err(b) ==> float_entry(t@, b) is None,
    decreases *s, 0int, s@.len() - i,
{
    if i >= s.len() {
        return Ok(());
    }
    push_value_debug(out, &s[i], t)?;
    if i + 1 < s.len() {
        push_str(out, ", ");
    }
    push_values_debug(out, s, i + 1, t)?;
    Ok(())
}

fn push_entries_debug(out: &mut String, s: &Vec<(String, Value)>, i: usize, t: &Vec<(u64, String)>) -> (r: Result<(), u64>)
    ensures
        r is Ok == pairs_known(s@, i as int, t@),
        r is Ok ==> final(out)@ == old(out)@ + entries_debug(s@, i as int, t@),
        r matches Err(b) ==> float_entry(t@, b) is None,
    decreases *s, 0int, s@.len() - i,
{
    if i >= s.len() {
        return Ok(());
    }
    push_debug_str(out, s[i].0.as_str());
    push_str(out, ": ");
    push_value_debug(out, &s[i].1, t)?;
    if i + 1 < s.len() {
        push_str(out, ", ");
    }
    push_entries_debug(out, s, i + 1, t)?;
    Ok(())
}

fn push_captured_debug(out: &mut String, s: &Vec<(String, Value)>, i: usize, t: &Vec<(u64, String)>) -> (r: Result<(), u64>)
    ensures
        r is Ok == pairs_known(s@, i as int, t@),
        r is Ok ==> final(out)@ == old(out)@ + captured_debug(s@, i as int, t@),
        r matches Err(b) ==> float_entry(t@, b) is None,
    decreases *s, 0int, s@.len() - i,
{
    if i >= s.len() {
        return Ok(());
    }
    push_str(out, "(");
    push_debug_str(out, s[i].0.as_str());
    push_str(out, ", ");
    push_value_debug(out, &s[i].1, t)?;
    push_str(out, ")");
    if i + 1 < s.len() {
        push_str(out, ", ");
    }
    push_captured_debug(out, s, i + 1, t)?;
    Ok(())
}

/// Appends the derived `Debug` text of an instruction; fails with the first
/// float that has no text in the table.
pub fn push_instr_debug(out: &mut String, ins: &Instruction, t: &Vec<(u64, String)>) -> (r: Result<(), u64>)
    ensures
        r is Ok == instr_known(*ins, t@),
        r is Ok ==> final(out)@ == old(out)@ + instr_debug(*ins, t@),
        r matches Err(b) ==> float_entry(t@, b) is None,
    decreases *ins, 1int, 0int,
{
    match ins {
        Instruction::Push(v) => {
            push_str(out, "Push(");
            push_value_debug(out, v, t)?;
            push_str(out, ")");
        },
        Instruction::Call(name, n) => {
            push_str(out, "Call(");
            push_debug_str(out, name.as_str());
            push_str(out, ", ");
            push_usize(out, *n);
            push_str(out, ")");
        },
        Instruction::TailCall(name, n) => {
            push_str(out, "TailCall(");
            push_debug_str(out, name.as_str());
            push_str(out, ", ");
            push_usize(out, *n);
            push_str(out, ")");
        },
        Instruction::CheckArity(a, b) => {
            push_str(out, "CheckArity(");
            push_usize(out, *a);
            push_str(out, ", ");
            push_usize(out, *b);
            push_str(out, ")");
        },
        Instruction::MakeClosure(params, body, n) => {
            push_str(out, "MakeClosure(");
            let names = names_debug_text(params);
            push_str(out, names.as_str());
            push_str(out, ", [");
            push_instrs_debug(out, body, 0, t)?;
            push_str(out, "], ");
            push_usize(out, *n);
            push_str(out, ")");
        },
        Instruction::MakeVariadicClosure(params, rest, body, n) => {
            push_str(out, "MakeVariadicClosure(");
            let names = names_debug_text(params);
            push_str(out, names.as_str());
            push_str(out, ", ");
            push_debug_str(out, rest.as_str());
            push_str(out, ", [");
            push_instrs_debug(out, body, 0, t)?;
            push_str(out, "], ");
            push_usize(out, *n);
            push_str(out, ")");
        },
        Instruction::LoadGlobal(name) => {
            push_str(out, "LoadGlobal(");
            push_debug_str(out, name.as_str());
            push_str(out, ")");
        },
        Instruction::StoreGlobal(name) => {
            push_str(out, "StoreGlobal(");
            push_debug_str(out, name.as_str());
            push_str(out, ")");
        },
        Instruction::FfiCall(args, ret) => {
            push_str(out, "FfiCall([");
            push_ffi_joined(out, args);
            push_str(out, "], ");
            push_ffi_name(out, *ret);
            push_str(out, ")");
        },
        _ => {
            push_str(out, name_of(ins));
            match opcode_of_indexed(ins) {
                Some((_op, a)) => {
                    push_str(out, "(");
                    push_usize(out, a);
                    push_str(out, ")");
                },
                None => {},
            }
        },
    }
    Ok(())
}

fn push_instrs_debug(out: &mut String, s: &Vec<Instruction>, i: usize, t: &Vec<(u64, String)>) -> (r: Result<(), u64>)
    ensures
        r is Ok == instrs_known(s@, i as int, t@),
        r is Ok ==> final(out)@ == old(out)@ + instrs_debug(s@, i as int, t@),
        r matches Err(b) ==> float_entry(t@, b) is None,
    decreases *s, 0int, s@.len() - i,
{
    if i >= s.len() {
        return Ok(());
    }
    push_instr_debug(out, &s[i], t)?;
    if i + 1 < s.len() {
        push_str(out, ", ");
    }
    push_instrs_debug(out, s, i + 1, t)?;
    Ok(())
}

// ---------------------------------------------------------------------------
// The derived `Debug` text of expressions

/// The derived `Debug` text of a location.
pub open spec fn loc_debug(l: LocView) -> Seq<char> {
    "Location { line: "@ + decimal(l.line) + ", column: "@ + decimal(l.column) + ", file: "@ + debug_str(l.file)
        + " }"@
}

/// The derived `Debug` text of an expression; a float shows the literal as
/// it was written.
pub open spec fn expr_debug(e: ExprView) -> Seq<char>
    decreases e, 1int, 0int,
{
    match e {
        ExprView::Number(n) => "Number("@ + signed_decimal(n as int) + ")"@,
        ExprView::Float(t) => "Float("@ + t + ")"@,
        ExprView::Boolean(b) => if b {
            "Boolean(true)"@
        } else {
            "Boolean(false)"@
        },
        ExprView::Symbol(s) => "Symbol("@ + debug_str(s) + ")"@,
        ExprView::List(items) => "List(["@ + sources_debug(items, 0) + "])"@,
        ExprView::DottedList(items, rest) => "DottedList(["@ + sources_debug(items, 0) + "], "@ + source_debug(*rest)
            + ")"@,
    }
}

/// The derived `Debug` text of an expression with its location.
pub open spec fn source_debug(s: SourceView) -> Seq<char>
    decreases s, 1int, 0int,
{
    "SourceExpr { expr: "@ + expr_debug(s.expr) + ", location: "@ + loc_debug(s.loc) + " }"@
}

/// Expressions from `i` on, separated by ", ".
pub open spec fn sources_debug(s: Seq<SourceView>, i: int) -> Seq<char>
    decreases s, 0int, s.len() - i,
{
    if i < 0 || i >= s.len() {
        Seq::empty()
    } else if i + 1 == s.len() {
        source_debug(s[i])
    } else {
        source_debug(s[i]) + ", "@ + sources_debug(s, i + 1)
    }
}

fn push_loc_debug(out: &mut String, l: &Location)
    ensures
        final(out)@ == old(out)@ + loc_debug(l@),
{
    push_str(out, "Location { line: ");
    push_usize(out, l.line);
    push_str(out, ", column: ");
    push_usize(out, l.column);
    push_str(out, ", file: ");
    push_debug_str(out, l.file.as_str());
    push_str(out, " }");
}

/// Appends the derived `Debug` text of an expression.
pub fn push_expr_debug(out: &mut String, e: &LispExpr)
    ensures
        final(out)@ == old(out)@ + expr_debug(expr_view(*e)),
    decreases *e, 1int,
{
    match e {
        LispExpr::Number(n) => {
            push_str(out, "Number(");
            push_signed(out, *n);
            push_str(out, ")");
        },
        LispExpr::Float(t) => {
            push_str(out, "Float(");
            push_str(out, t.as_str());
            push_str(out, ")");
        },
        LispExpr::Boolean(b) => {
            if *b {
                push_str(out, "Boolean(true)");
            } else {
                push_str(out, "Boolean(false)");
            }
        },
        LispExpr::Symbol(s) => {
            push_str(out, "Symbol(");
            push_debug_str(out, s.as_str());
            push_str(out, ")");
        },
        LispExpr::List(items) => {
            push_str(out, "List([");
            push_sources_debug(out, items, 0);
            push_str(out, "])");
        },
        LispExpr::DottedList(items, rest) => {
            push_str(out, "DottedList([");
            push_sources_debug(out, items, 0);
            push_str(out, "], ");
            push_source_debug(out, rest);
            push_str(out, ")");
        },
    }
}

fn push_source_debug(out: &mut String, s: &SourceExpr)
    ensures
        final(out)@ == old(out)@ + source_debug(source_view(*s)),
    decreases *s, 2int,
{
    push_str(out, "SourceExpr { expr: ");
    push_expr_debug(out, &s.expr);
    push_str(out, ", location: ");
    push_loc_debug(out, &s.location);
    push_str(out, " }");
}

fn push_sources_debug(out: &mut String, items: &Vec<SourceExpr>, i: usize)
    ensures
        final(out)@ == old(out)@ + sources_debug(sources_view(items@), i as int),
    decreases *items, 0int, items@.len() - i,
{
    proof {
        lemma_sources_view_len(items@);
    }
    if i >= items.len() {
        return;
    }
    proof {
        lemma_sources_view_index(items@, i as int);
    }
    push_source_debug(out, &items[i]);
    if i + 1 < items.len() {
        push_str(out, ", ");
    }
    push_sources_debug(out, items, i + 1);
}
} // verus!
