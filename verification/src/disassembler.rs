use vstd::prelude::*;
use crate::instructions::{Instruction, FfiType, index_opcode, instruction_name, name_of, opcode_of_indexed};
use crate::bytecode::FunctionTable;
use crate::text::{decimal, pad_left, push_chars, push_str, push_usize, push_padded, chars_of, u64_decimal};
use crate::value::{Value, names_view};
use crate::debug_text::{debug_names, names_debug_text, value_debug, value_known, push_value_debug};
use crate::display::float_entry;
use vstd::utf8::char_u32_cast;

verus! {
// ---------------------------------------------------------------------------
// The text of one instruction

/// The name of an FFI type.
pub open spec fn ffi_type_text(t: FfiType) -> Seq<char> {
    match t {
        FfiType::Void => "Void"@,
        FfiType::Int8 => "Int8"@,
        FfiType::Int16 => "Int16"@,
        FfiType::Int32 => "Int32"@,
        FfiType::Int64 => "Int64"@,
        FfiType::UInt8 => "UInt8"@,
        FfiType::UInt16 => "UInt16"@,
        FfiType::UInt32 => "UInt32"@,
        FfiType::UInt64 => "UInt64"@,
        FfiType::Float => "Float"@,
        FfiType::Double => "Double"@,
        FfiType::Pointer => "Pointer"@,
        FfiType::String => "String"@,
    }
}

/// The names of the first `n` FFI types, separated by ", ".
pub open spec fn ffi_types_upto(ts: Seq<FfiType>, n: int) -> Seq<char>
    decreases n,
{
    if n <= 0 {
        Seq::empty()
    } else if n == 1 {
        ffi_type_text(ts[0])
    } else {
        ffi_types_upto(ts, n - 1) + ", "@ + ffi_type_text(ts[n - 1])
    }
}

/// A list of FFI types, in square brackets.
pub open spec fn ffi_list_text(ts: Seq<FfiType>) -> Seq<char> {
    "["@ + ffi_types_upto(ts, ts.len() as int) + "]"@
}

/// The disassembler's text for one instruction.
pub open spec fn instr_text(i: Instruction, t: Seq<(u64, String)>) -> Seq<char> {
    match i {
        Instruction::Push(v) => "Push("@ + value_debug(v, t) + ")"@,
        Instruction::Call(name, argc) => "Call(\""@ + name@ + "\", "@ + decimal(argc as nat) + ")"@,
        Instruction::TailCall(name, argc) => "TailCall(\""@ + name@ + "\", "@ + decimal(argc as nat) + ")"@,
        Instruction::CheckArity(arity, addr) => "CheckArity("@ + decimal(arity as nat) + ", "@ + decimal(
            addr as nat,
        ) + ")"@,
        Instruction::MakeClosure(params, body, n) => "MakeClosure("@ + debug_names(names_view(params@)) + ", "@
            + decimal(body@.len()) + " instructions, "@ + decimal(n as nat) + " captured)"@,
        Instruction::MakeVariadicClosure(params, rest, body, n) => "MakeVariadicClosure("@ + debug_names(
            names_view(params@),
        ) + ", \""@ + rest@ + "\", "@ + decimal(body@.len()) + " instructions, "@ + decimal(n as nat)
            + " captured)"@,
        Instruction::LoadGlobal(name) => "LoadGlobal(\""@ + name@ + "\")"@,
        Instruction::StoreGlobal(name) => "StoreGlobal(\""@ + name@ + "\")"@,
        Instruction::FfiCall(args, ret) => "FfiCall("@ + ffi_list_text(args@) + ", "@ + ffi_type_text(ret) + ")"@,
        _ => match index_opcode(i) {
            Some((_op, a)) => instruction_name(i) + "("@ + decimal(a as nat) + ")"@,
            None => instruction_name(i),
        },
    }
}

fn push_ffi_type(s: &mut String, t: FfiType)
    ensures
        final(s)@ == old(s)@ + ffi_type_text(t),
{
    let name = match t {
        FfiType::Void => "Void",
        FfiType::Int8 => "Int8",
        FfiType::Int16 => "Int16",
        FfiType::Int32 => "Int32",
        FfiType::Int64 => "Int64",
        FfiType::UInt8 => "UInt8",
        FfiType::UInt16 => "UInt16",
        FfiType::UInt32 => "UInt32",
        FfiType::UInt64 => "UInt64",
        FfiType::Float => "Float",
        FfiType::Double => "Double",
        FfiType::Pointer => "Pointer",
        FfiType::String => "String",
    };
    push_str(s, name);
}

fn push_ffi_list(s: &mut String, ts: &Vec<FfiType>)
    ensures
        final(s)@ == old(s)@ + ffi_list_text(ts@),
{
    let ghost start = s@;
    push_str(s, "[");
    let mut k: usize = 0;
    while k < ts.len()
        invariant
            k <= ts@.len(),
            s@ == start + "["@ + ffi_types_upto(ts@, k as int),
        decreases ts@.len() - k,
    {
        if k > 0 {
            push_str(s, ", ");
        }
        push_ffi_type(s, ts[k]);
        k = k + 1;
        proof {
            if k == 1 {
                assert(ffi_types_upto(ts@, 0) =~= Seq::<char>::empty());
            }
        }
    }
    push_str(s, "]");
}

/// Whether the text of an instruction is known: a pushed value's floats
/// have texts in the table.
pub open spec fn instr_text_known(i: Instruction, t: Seq<(u64, String)>) -> bool {
    match i {
        Instruction::Push(v) => value_known(v, t),
        _ => true,
    }
}

/// Whether the text of every instruction of the code is known.
pub open spec fn code_known(code: Seq<Instruction>, t: Seq<(u64, String)>) -> bool {
    forall|k: int| 0 <= k < code.len() ==> instr_text_known(#[trigger] code[k], t)
}

/// The disassembler's text for one instruction without floats.
pub fn format_instruction(instr: &Instruction) -> (r: String)
    requires
        instr_text_known(*instr, Seq::empty()),
    ensures
        r@ == instr_text(*instr, Seq::empty()),
{
    let none: Vec<(u64, String)> = Vec::new();
    match format_instruction_with(instr, &none) {
        Ok(s) => s,
        Err(_) => String::new(),
    }
}

/// The disassembler's text for one instruction, the texts of floats taken
/// from the table; fails with a float the table lacks.
pub fn format_instruction_with(instr: &Instruction, floats: &Vec<(u64, String)>) -> (r: Result<String, u64>)
    ensures
        r is Ok == instr_text_known(*instr, floats@),
        r matches Ok(x) ==> x@ == instr_text(*instr, floats@),
        r matches Err(b) ==> float_entry(floats@, b) is None,
{
    let mut s = String::new();
    match instr {
        Instruction::Push(v) => {
            push_str(&mut s, "Push(");
            push_value_debug(&mut s, v, floats)?;
            push_str(&mut s, ")");
        },
        Instruction::Call(name, argc) => {
            push_str(&mut s, "Call(\"");
            push_str(&mut s, name.as_str());
            push_str(&mut s, "\", ");
            push_usize(&mut s, *argc);
            push_str(&mut s, ")");
        },
        Instruction::TailCall(name, argc) => {
            push_str(&mut s, "TailCall(\"");
            push_str(&mut s, name.as_str());
            push_str(&mut s, "\", ");
            push_usize(&mut s, *argc);
            push_str(&mut s, ")");
        },
        Instruction::CheckArity(arity, addr) => {
            push_str(&mut s, "CheckArity(");
            push_usize(&mut s, *arity);
            push_str(&mut s, ", ");
            push_usize(&mut s, *addr);
            push_str(&mut s, ")");
        },
        Instruction::MakeClosure(params, body, n) => {
            push_str(&mut s, "MakeClosure(");
            let t = names_debug_text(params);
            push_str(&mut s, t.as_str());
            push_str(&mut s, ", ");
            push_usize(&mut s, body.len());
            push_str(&mut s, " instructions, ");
            push_usize(&mut s, *n);
            push_str(&mut s, " captured)");
        },
        Instruction::MakeVariadicClosure(params, rest, body, n) => {
            push_str(&mut s, "MakeVariadicClosure(");
            let t = names_debug_text(params);
            push_str(&mut s, t.as_str());
            push_str(&mut s, ", \"");
            push_str(&mut s, rest.as_str());
            push_str(&mut s, "\", ");
            push_usize(&mut s, body.len());
            push_str(&mut s, " instructions, ");
            push_usize(&mut s, *n);
            push_str(&mut s, " captured)");
        },
        Instruction::LoadGlobal(name) => {
            push_str(&mut s, "LoadGlobal(\"");
            push_str(&mut s, name.as_str());
            push_str(&mut s, "\")");
        },
        Instruction::StoreGlobal(name) => {
            push_str(&mut s, "StoreGlobal(\"");
            push_str(&mut s, name.as_str());
            push_str(&mut s, "\")");
        },
        Instruction::FfiCall(args, ret) => {
            push_str(&mut s, "FfiCall(");
            push_ffi_list(&mut s, args);
            push_str(&mut s, ", ");
            push_ffi_type(&mut s, *ret);
            push_str(&mut s, ")");
        },
        _ => {
            push_str(&mut s, name_of(instr));
            match opcode_of_indexed(instr) {
                Some((_op, a)) => {
                    push_str(&mut s, "(");
                    push_usize(&mut s, a);
                    push_str(&mut s, ")");
                },
                None => {},
            }
        },
    }
    Ok(s)
}

// ---------------------------------------------------------------------------
// Listings

/// The listing of the first `n` instructions: one line each, the address
/// right-aligned in four columns.
pub open spec fn listing_upto(code: Seq<Instruction>, n: int, t: Seq<(u64, String)>) -> Seq<char>
    decreases n,
{
    if n <= 0 {
        Seq::empty()
    } else {
        listing_upto(code, n - 1, t) + "  "@ + pad_left(decimal((n - 1) as nat), 4) + ": "@ + instr_text(code[n - 1], t)
            + "\n"@
    }
}

pub open spec fn listing(code: Seq<Instruction>, t: Seq<(u64, String)>) -> Seq<char> {
    listing_upto(code, code.len() as int, t)
}

/// The listing of a piece of code.
fn disassemble_instructions(bytecode: &[Instruction], floats: &Vec<(u64, String)>) -> (r: Result<String, u64>)
    ensures
        r is Ok == code_known(bytecode@, floats@),
        r matches Ok(x) ==> x@ == listing(bytecode@, floats@),
        r matches Err(b) ==> float_entry(floats@, b) is None,
{
    let mut s = String::new();
    let mut addr: usize = 0;
    while addr < bytecode.len()
        invariant
            addr <= bytecode@.len(),
            s@ == listing_upto(bytecode@, addr as int, floats@),
            forall|k: int| 0 <= k < addr ==> instr_text_known(#[trigger] bytecode@[k], floats@),
        decreases bytecode@.len() - addr,
    {
        push_str(&mut s, "  ");
        let d = u64_decimal(addr as u64);
        push_padded(&mut s, &d, 4);
        push_str(&mut s, ": ");
        let t = format_instruction_with(&bytecode[addr], floats)?;
        push_str(&mut s, t.as_str());
        push_str(&mut s, "\n");
        addr = addr + 1;
    }
    Ok(s)
}

// ---------------------------------------------------------------------------
// Ordering functions by name

/// Lexicographic order of character sequences, by code point (the order of
/// Rust's strings).
pub open spec fn chars_less(a: Seq<char>, b: Seq<char>) -> bool
    decreases a.len(),
{
    if a.len() == 0 {
        b.len() > 0
    } else if b.len() == 0 {
        false
    } else if a[0] != b[0] {
        (a[0] as u32) < (b[0] as u32)
    } else {
        chars_less(a.drop_first(), b.drop_first())
    }
}

proof fn lemma_chars_less_irreflexive(a: Seq<char>)
    ensures
        !chars_less(a, a),
    decreases a.len(),
{
    if a.len() > 0 {
        lemma_chars_less_irreflexive(a.drop_first());
    }
}

proof fn lemma_chars_less_total(a: Seq<char>, b: Seq<char>)
    ensures
        a == b || chars_less(a, b) || chars_less(b, a),
    decreases a.len(),
{
    if a.len() > 0 && b.len() > 0 && a[0] == b[0] {
        lemma_chars_less_total(a.drop_first(), b.drop_first());
        if a.drop_first() == b.drop_first() {
            assert(a =~= seq![a[0]] + a.drop_first());
            assert(b =~= seq![b[0]] + b.drop_first());
        }
    } else if a.len() == 0 && b.len() == 0 {
        assert(a =~= b);
    } else if a.len() > 0 && b.len() > 0 {
        char_u32_cast(a[0], a[0] as u32);
        char_u32_cast(b[0], b[0] as u32);
        assert((a[0] as u32) != (b[0] as u32));
    }
}

proof fn lemma_chars_less_transitive(a: Seq<char>, b: Seq<char>, c: Seq<char>)
    requires
        chars_less(a, b),
        chars_less(b, c),
    ensures
        chars_less(a, c),
    decreases a.len(),
{
    if a.len() > 0 && b.len() > 0 && c.len() > 0 && a[0] == b[0] && b[0] == c[0] {
        lemma_chars_less_transitive(a.drop_first(), b.drop_first(), c.drop_first());
    }
}

proof fn lemma_chars_less_asymmetric(a: Seq<char>, b: Seq<char>)
    requires
        chars_less(a, b),
    ensures
        !chars_less(b, a),
{
    if chars_less(b, a) {
        lemma_chars_less_transitive(a, b, a);
        lemma_chars_less_irreflexive(a);
    }
}

/// Whether function `i` of the table comes before function `j`: by name,
/// and by position between equal names.
pub open spec fn name_before(t: Seq<(String, Vec<Instruction>)>, i: int, j: int) -> bool {
    chars_less(t[i].0@, t[j].0@) || (t[i].0@ == t[j].0@ && i < j)
}

/// Whether `ord` lists the positions of the table's functions in name order.
pub open spec fn is_name_order(t: Seq<(String, Vec<Instruction>)>, ord: Seq<usize>) -> bool {
    &&& ord.len() == t.len()
    &&& forall|k: int| 0 <= k < ord.len() ==> #[trigger] ord[k] < t.len()
    &&& forall|a: int, b: int| 0 <= a < b < ord.len() ==> name_before(t, #[trigger] ord[a] as int, #[trigger] ord[b] as int)
}

pub(crate) fn chars_less_exec(a: &Vec<char>, b: &Vec<char>) -> (r: bool)
    ensures
        r == chars_less(a@, b@),
{
    let mut k: usize = 0;
    assert(a@.subrange(0, a@.len() as int) =~= a@);
    assert(b@.subrange(0, b@.len() as int) =~= b@);
    while k < a.len() && k < b.len() && a[k] == b[k]
        invariant
            k <= a@.len(),
            k <= b@.len(),
            chars_less(a@, b@) == chars_less(a@.subrange(k as int, a@.len() as int), b@.subrange(k as int, b@.len() as int)),
        decreases a@.len() - k,
    {
        proof {
            let sa = a@.subrange(k as int, a@.len() as int);
            let sb = b@.subrange(k as int, b@.len() as int);
            assert(sa.drop_first() =~= a@.subrange(k + 1, a@.len() as int));
            assert(sb.drop_first() =~= b@.subrange(k + 1, b@.len() as int));
        }
        k = k + 1;
    }
    if k == a.len() {
        k < b.len()
    } else if k == b.len() {
        false
    } else {
        let ca = a[k];
        let cb = b[k];
        proof {
            let sa = a@.subrange(k as int, a@.len() as int);
            let sb = b@.subrange(k as int, b@.len() as int);
            assert(sa[0] == ca && sb[0] == cb);
        }
        (ca as u32) < (cb as u32)
    }
}

/// The positions of the table's functions, in name order.
fn function_order(functions: &FunctionTable) -> (ord: Vec<usize>)
    ensures
        is_name_order(functions@, ord@),
{
    let n = functions.len();
    let mut names: Vec<Vec<char>> = Vec::new();
    let mut k: usize = 0;
    while k < n
        invariant
            k <= n,
            n == functions@.len(),
            names@.len() == k,
            forall|j: int| 0 <= j < k ==> #[trigger] names@[j]@ == functions@[j].0@,
        decreases n - k,
    {
        names.push(chars_of(functions[k].0.as_str()));
        k = k + 1;
    }
    let mut ord: Vec<usize> = Vec::new();
    let mut i: usize = 0;
    while i < n
        invariant
            i <= n,
            n == functions@.len(),
            names@.len() == n,
            forall|j: int| 0 <= j < n ==> #[trigger] names@[j]@ == functions@[j].0@,
            ord@.len() == i,
            forall|k: int| 0 <= k < ord@.len() ==> #[trigger] ord@[k] < i,
            forall|a: int, b: int| 0 <= a < b < ord@.len() ==> name_before(functions@, #[trigger] ord@[a] as int, #[trigger] ord@[b] as int),
        decreases n - i,
    {
        let mut p: usize = 0;
        while p < ord.len() && !chars_less_exec(&names[i], &names[ord[p]])
            invariant
                p <= ord@.len(),
                i < n,
                names@.len() == n,
                forall|k: int| 0 <= k < ord@.len() ==> #[trigger] ord@[k] < i,
                forall|k: int| 0 <= k < p ==> name_before(functions@, #[trigger] ord@[k] as int, i as int),
                forall|j: int| 0 <= j < n ==> #[trigger] names@[j]@ == functions@[j].0@,
            decreases ord@.len() - p,
        {
            proof {
                let q = ord@[p as int] as int;
                lemma_chars_less_total(functions@[q].0@, functions@[i as int].0@);
            }
            p = p + 1;
        }
        proof {
            if p < ord@.len() {
                let q = ord@[p as int] as int;
                assert(chars_less(functions@[i as int].0@, functions@[q].0@));
                assert forall|k: int| p <= k < ord@.len() implies name_before(functions@, i as int, #[trigger] ord@[k] as int) by {
                    let r = ord@[k] as int;
                    if k > p {
                        assert(name_before(functions@, q, r));
                        if chars_less(functions@[q].0@, functions@[r].0@) {
                            lemma_chars_less_transitive(functions@[i as int].0@, functions@[q].0@, functions@[r].0@);
                        }
                    }
                }
            }
        }
        let ghost before = ord@;
        ord.insert(p, i);
        proof {
            assert forall|a: int, b: int| 0 <= a < b < ord@.len() implies name_before(functions@, #[trigger] ord@[a] as int, #[trigger] ord@[b] as int) by {
                if b < p {
                    assert(ord@[a] == before[a] && ord@[b] == before[b]);
                } else if b == p {
                    assert(ord@[a] == before[a]);
                } else if a == p {
                    assert(ord@[b] == before[b - 1]);
                } else if a < p {
                    assert(ord@[a] == before[a] && ord@[b] == before[b - 1]);
                } else {
                    assert(ord@[a] == before[a - 1] && ord@[b] == before[b - 1]);
                }
            }
            assert forall|k: int| 0 <= k < ord@.len() implies #[trigger] ord@[k] < i + 1 by {
                if k < p {
                    assert(ord@[k] == before[k]);
                } else if k > p {
                    assert(ord@[k] == before[k - 1]);
                }
            }
        }
        i = i + 1;
    }
    ord
}

// ---------------------------------------------------------------------------
// Statistics

/// The number of instructions in the first `n` functions of a table.
pub open spec fn code_size_upto(t: Seq<(String, Vec<Instruction>)>, n: int) -> nat
    decreases n,
{
    if n <= 0 {
        0
    } else {
        code_size_upto(t, n - 1) + t[n - 1].1@.len()
    }
}

pub open spec fn code_size(t: Seq<(String, Vec<Instruction>)>) -> nat {
    code_size_upto(t, t.len() as int)
}

/// Counts of a program's instructions.
pub struct DisassemblerStats {
    pub total_instructions: usize,
    pub function_count: usize,
    /// Each function's name and number of instructions, in the table's order.
    pub per_function_counts: Vec<(String, usize)>,
    pub main_instruction_count: usize,
}

fn code_size_exec(functions: &FunctionTable) -> (r: usize)
    requires
        code_size(functions@) <= usize::MAX,
    ensures
        r == code_size(functions@),
{
    let mut total: usize = 0;
    let mut k: usize = 0;
    while k < functions.len()
        invariant
            k <= functions@.len(),
            code_size(functions@) <= usize::MAX,
            total == code_size_upto(functions@, k as int),
        decreases functions@.len() - k,
    {
        proof {
            lemma_code_size_monotone(functions@, k + 1, functions@.len() as int);
        }
        total = total + functions[k].1.len();
        k = k + 1;
    }
    total
}

proof fn lemma_code_size_monotone(t: Seq<(String, Vec<Instruction>)>, a: int, b: int)
    requires
        0 <= a <= b,
    ensures
        code_size_upto(t, a) <= code_size_upto(t, b),
    decreases b - a,
{
    if a < b {
        lemma_code_size_monotone(t, a, b - 1);
    }
}

/// The counts of a program: all instructions, the functions, each
/// function's instructions, and the main code's.
pub fn get_statistics(functions: &FunctionTable, main: &[Instruction]) -> (r: DisassemblerStats)
    requires
        code_size(functions@) + main@.len() <= usize::MAX,
    ensures
        r.total_instructions == code_size(functions@) + main@.len(),
        r.function_count == functions@.len(),
        r.per_function_counts@.len() == functions@.len(),
        forall|k: int| 0 <= k < functions@.len() ==> #[trigger] r.per_function_counts@[k].0@ == functions@[k].0@
            && r.per_function_counts@[k].1 == functions@[k].1@.len(),
        r.main_instruction_count == main@.len(),
{
    let mut per_function_counts: Vec<(String, usize)> = Vec::new();
    let mut k: usize = 0;
    while k < functions.len()
        invariant
            k <= functions@.len(),
            per_function_counts@.len() == k,
            forall|j: int| 0 <= j < k ==> #[trigger] per_function_counts@[j].0@ == functions@[j].0@
                && per_function_counts@[j].1 == functions@[j].1@.len(),
        decreases functions@.len() - k,
    {
        let mut name = String::new();
        push_str(&mut name, functions[k].0.as_str());
        let count = functions[k].1.len();
        let ghost before = per_function_counts@;
        per_function_counts.push((name, count));
        proof {
            assert forall|j: int| 0 <= j < k + 1 implies #[trigger] per_function_counts@[j].0@ == functions@[j].0@
                && per_function_counts@[j].1 == functions@[j].1@.len() by {
                if j < k {
                    assert(per_function_counts@[j] == before[j]);
                }
            }
        }
        k = k + 1;
    }
    let total = code_size_exec(functions) + main.len();
    DisassemblerStats {
        total_instructions: total,
        function_count: functions.len(),
        per_function_counts,
        main_instruction_count: main.len(),
    }
}

/// The per-function count lines for the first `n` functions in the order `ord`.
pub open spec fn count_lines_upto(t: Seq<(String, Vec<Instruction>)>, ord: Seq<usize>, n: int) -> Seq<char>
    decreases n,
{
    if n <= 0 {
        Seq::empty()
    } else {
        let f = t[ord[n - 1] as int];
        count_lines_upto(t, ord, n - 1) + "  "@ + f.0@ + ": "@ + decimal(f.1@.len()) + "\n"@
    }
}

/// The statistics section of a disassembly.
pub open spec fn statistics_text(t: Seq<(String, Vec<Instruction>)>, ord: Seq<usize>, main: Seq<Instruction>) -> Seq<char> {
    "=== Statistics ===\n"@ + "Total instructions: "@ + decimal(code_size(t) + main.len()) + "\n"@ + "Functions: "@
        + decimal(t.len()) + "\n"@ + "Main instructions: "@ + decimal(main.len()) + "\n"@ + if t.len() > 0 {
        "\nPer-function instruction counts:\n"@ + count_lines_upto(t, ord, t.len() as int)
    } else {
        Seq::empty()
    }
}

fn format_statistics(functions: &FunctionTable, main: &[Instruction], ord: &Vec<usize>) -> (r: String)
    requires
        code_size(functions@) + main@.len() <= usize::MAX,
        is_name_order(functions@, ord@),
    ensures
        r@ == statistics_text(functions@, ord@, main@),
{
    let mut s = String::new();
    push_str(&mut s, "=== Statistics ===\n");
    let total = code_size_exec(functions) + main.len();
    push_str(&mut s, "Total instructions: ");
    push_usize(&mut s, total);
    push_str(&mut s, "\n");
    push_str(&mut s, "Functions: ");
    push_usize(&mut s, functions.len());
    push_str(&mut s, "\n");
    push_str(&mut s, "Main instructions: ");
    push_usize(&mut s, main.len());
    push_str(&mut s, "\n");
    let ghost head = s@;
    if functions.len() > 0 {
        push_str(&mut s, "\nPer-function instruction counts:\n");
        let ghost head2 = s@;
        let mut k: usize = 0;
        while k < ord.len()
            invariant
                is_name_order(functions@, ord@),
                k <= ord@.len(),
                s@ == head2 + count_lines_upto(functions@, ord@, k as int),
            decreases ord@.len() - k,
        {
            let f = &functions[ord[k]];
            push_str(&mut s, "  ");
            push_str(&mut s, f.0.as_str());
            push_str(&mut s, ": ");
            push_usize(&mut s, f.1.len());
            push_str(&mut s, "\n");
            k = k + 1;
        }
    }
    s
}

// ---------------------------------------------------------------------------
// Whole programs

/// The section of one function: its name, its size and its listing.
pub open spec fn function_block(f: (String, Vec<Instruction>), ft: Seq<(u64, String)>) -> Seq<char> {
    "Function: "@ + f.0@ + "\n"@ + "  "@ + decimal(f.1@.len()) + " instruction(s)\n"@ + listing(f.1@, ft) + "\n"@
}

/// The sections of the first `n` functions in the order `ord`.
pub open spec fn blocks_upto(t: Seq<(String, Vec<Instruction>)>, ord: Seq<usize>, n: int, ft: Seq<(u64, String)>) -> Seq<char>
    decreases n,
{
    if n <= 0 {
        Seq::empty()
    } else {
        blocks_upto(t, ord, n - 1, ft) + function_block(t[ord[n - 1] as int], ft)
    }
}

/// The disassembly of a program: its functions in name order (when there
/// are any), its main code, and its statistics; floats by their texts in
/// the table `ft`.
pub open spec fn disassembly(
    t: Seq<(String, Vec<Instruction>)>,
    ord: Seq<usize>,
    main: Seq<Instruction>,
    ft: Seq<(u64, String)>,
) -> Seq<char> {
    (if t.len() > 0 {
        "=== Functions ===\n\n"@ + blocks_upto(t, ord, t.len() as int, ft)
    } else {
        Seq::empty()
    }) + "=== Main ===\n"@ + "  "@ + decimal(main.len()) + " instruction(s)\n"@ + listing(main, ft) + "\n"@
        + statistics_text(t, ord, main)
}

/// Whether the text of every instruction of the program is known.
pub open spec fn program_known(t: Seq<(String, Vec<Instruction>)>, main: Seq<Instruction>, ft: Seq<(u64, String)>) -> bool {
    &&& code_known(main, ft)
    &&& forall|i: int| 0 <= i < t.len() ==> code_known(#[trigger] t[i].1@, ft)
}

/// The disassembly of a program without floats: its functions in name
/// order, its main code, and its statistics.
pub fn disassemble_bytecode(functions: &FunctionTable, main: &[Instruction]) -> (r: String)
    requires
        code_size(functions@) + main@.len() <= usize::MAX,
        program_known(functions@, main@, Seq::empty()),
    ensures
        exists|ord: Seq<usize>| is_name_order(functions@, ord) && r@ == disassembly(functions@, ord, main@, Seq::empty()),
{
    let none: Vec<(u64, String)> = Vec::new();
    match disassemble_bytecode_with(functions, main, &none) {
        Ok(s) => s,
        Err(_) => String::new(),
    }
}

/// The disassembly of a program, the texts of floats taken from the table;
/// fails with a float the table lacks.
#[verifier::rlimit(50)]
pub fn disassemble_bytecode_with(functions: &FunctionTable, main: &[Instruction], floats: &Vec<(u64, String)>) -> (r: Result<String, u64>)
    requires
        code_size(functions@) + main@.len() <= usize::MAX,
    ensures
        r is Ok == program_known(functions@, main@, floats@),
        r matches Ok(x) ==> exists|ord: Seq<usize>| is_name_order(functions@, ord) && x@ == disassembly(
            functions@,
            ord,
            main@,
            floats@,
        ),
        r matches Err(b) ==> float_entry(floats@, b) is None,
{
    let mut i: usize = 0;
    while i < functions.len()
        invariant
            i <= functions@.len(),
            forall|j: int| 0 <= j < i ==> code_known(#[trigger] functions@[j].1@, floats@),
        decreases functions@.len() - i,
    {
        disassemble_instructions(functions[i].1.as_slice(), floats)?;
        i = i + 1;
    }
    let ord = function_order(functions);
    let mut s = String::new();
    if functions.len() > 0 {
        push_str(&mut s, "=== Functions ===\n\n");
        let ghost head = s@;
        let mut k: usize = 0;
        while k < ord.len()
            invariant
                is_name_order(functions@, ord@),
                k <= ord@.len(),
                s@ == head + blocks_upto(functions@, ord@, k as int, floats@),
                forall|j: int| 0 <= j < functions@.len() ==> code_known(#[trigger] functions@[j].1@, floats@),
            decreases ord@.len() - k,
        {
            let f = &functions[ord[k]];
            push_str(&mut s, "Function: ");
            push_str(&mut s, f.0.as_str());
            push_str(&mut s, "\n");
            push_str(&mut s, "  ");
            push_usize(&mut s, f.1.len());
            push_str(&mut s, " instruction(s)\n");
            let listing_text = match disassemble_instructions(f.1.as_slice(), floats) {
                Ok(x) => x,
                Err(b) => {
                    return Err(b);
                },
            };
            push_str(&mut s, listing_text.as_str());
            push_str(&mut s, "\n");
            k = k + 1;
        }
    }
    push_str(&mut s, "=== Main ===\n");
    push_str(&mut s, "  ");
    push_usize(&mut s, main.len());
    push_str(&mut s, " instruction(s)\n");
    let main_text = disassemble_instructions(main, floats)?;
    push_str(&mut s, main_text.as_str());
    push_str(&mut s, "\n");
    let stats = format_statistics(functions, main, &ord);
    push_str(&mut s, stats.as_str());
    proof {
        assert(s@ =~= disassembly(functions@, ord@, main@, floats@));
    }
    Ok(s)
}
} // verus!
