use vstd::prelude::*;
use crate::instructions::{
    Instruction, InstrView, instr_view, instrs_view, simple_opcode, lemma_instrs_view_len, lemma_instrs_view_index,
    lemma_instrs_view_ext, lemma_simple_view,
};
use crate::value::{Value, ValueView, value_view, values_view, pairs_view, lemma_values_view_ext, lemma_values_view_len,
    lemma_values_view_index, lemma_pairs_view_len, lemma_pairs_view_index};
use crate::bytecode::{FunctionTable, table_view, key_index, insert_entry, insert_all, lemma_key_index, insert_function, insert_pair};
use crate::optimizer::{fold_int_int, int_fold, int_fold_overflows, SIGN_BIT, OP_ADD, OP_SUB, OP_MUL, OP_DIV, OP_MOD, OP_NEG, OP_LEQ, OP_LT, OP_GT, OP_GTE, OP_NEQ, OP_HALT};
use crate::text::{text2, text3, owned, push_str, push_usize, decimal, signed_decimal, i64_decimal, push_chars};
use crate::errors::RuntimeError;
use crate::strings::{string_values, is_string_op, string_arity, string_op_title, string_result, is_string_opcode, string_arity_of, string_op_title_str, string_operation, result_matches};
use crate::ffi::{type_name_of, value_type_name};
use crate::value::{copy_value, copy_values, copy_instructions, copy_instruction, List, names_view};
use crate::instructions::{simple_from_opcode, simple_of_opcode, lemma_simple_roundtrip, indexed_from_opcode, indexed_of_opcode};
use crate::instructions::{opcode_of_simple, opcode_of_indexed, index_opcode, name_of, instruction_name, lemma_classify, lemma_indexed_view};
use crate::nested::{Resume, ResumeView, resumes_view, resume};
use crate::requests::{RequestView, DrawView, Request, request_view, is_request_op, request_step, request_fits, drawn_matches, is_request_opcode, request_fits_exec};

verus! {
broadcast use vstd::std_specs::vec::axiom_vec_decreases_to_view;

/// The opcode of `LoadArg`.
pub const OP_LOAD_ARG: u8 = 10;
/// The opcodes of `Ret` and `Eq`.
pub const OP_RET: u8 = 9;
pub const OP_EQ: u8 = 18;

// ---------------------------------------------------------------------------
// Builtin functions

/// The code of a builtin that loads its `args` arguments, runs one
/// operand-free instruction and returns.
pub open spec fn builtin_code(args: nat, op: u8) -> Seq<InstrView> {
    Seq::new(args, |k: int| InstrView::Indexed(OP_LOAD_ARG, k as usize)) + seq![InstrView::Simple(op), InstrView::Simple(OP_RET)]
}

/// Builtins, part 1.
pub open spec fn builtin_group_1() -> Seq<(Seq<char>, Seq<InstrView>)> {
    seq![
        ("+"@, builtin_code(2, 1)),
        ("-"@, builtin_code(2, 2)),
        ("*"@, builtin_code(2, 3)),
        ("/"@, builtin_code(2, 4)),
        ("%"@, builtin_code(2, 13)),
        ("neg"@, builtin_code(1, 14)),
        ("<="@, builtin_code(2, 5)),
        ("<"@, builtin_code(2, 15)),
        (">"@, builtin_code(2, 16)),
        (">="@, builtin_code(2, 17)),
        ("=="@, builtin_code(2, 18)),
        ("!="@, builtin_code(2, 19)),
    ]
}
/// Builtins, part 2.
pub open spec fn builtin_group_2() -> Seq<(Seq<char>, Seq<InstrView>)> {
    seq![
        ("cons"@, builtin_code(2, 20)),
        ("car"@, builtin_code(1, 21)),
        ("cdr"@, builtin_code(1, 22)),
        ("list?"@, builtin_code(1, 23)),
        ("append"@, builtin_code(2, 35)),
        ("list-ref"@, builtin_code(2, 51)),
        ("list-length"@, builtin_code(1, 52)),
        ("null?"@, seq![InstrView::Indexed(OP_LOAD_ARG, 0), InstrView::Simple(52), InstrView::Push(ValueView::Integer(0)), InstrView::Simple(OP_EQ), InstrView::Simple(OP_RET)]),
        ("integer?"@, builtin_code(1, 68)),
        ("float?"@, builtin_code(1, 81)),
        ("number?"@, builtin_code(1, 82)),
        ("boolean?"@, builtin_code(1, 69)),
    ]
}
/// Builtins, part 3.
pub open spec fn builtin_group_3() -> Seq<(Seq<char>, Seq<InstrView>)> {
    seq![
        ("function?"@, builtin_code(1, 70)),
        ("closure?"@, builtin_code(1, 71)),
        ("procedure?"@, builtin_code(1, 72)),
        ("string?"@, builtin_code(1, 24)),
        ("symbol?"@, builtin_code(1, 25)),
        ("symbol->string"@, builtin_code(1, 26)),
        ("string->symbol"@, builtin_code(1, 27)),
        ("string-length"@, builtin_code(1, 40)),
        ("substring"@, builtin_code(3, 41)),
        ("string-append"@, builtin_code(2, 42)),
        ("string->list"@, builtin_code(1, 43)),
        ("list->string"@, builtin_code(1, 44)),
    ]
}
/// Builtins, part 4.
pub open spec fn builtin_group_4() -> Seq<(Seq<char>, Seq<InstrView>)> {
    seq![
        ("char-code"@, builtin_code(1, 50)),
        ("number->string"@, builtin_code(1, 53)),
        ("string->number"@, builtin_code(1, 73)),
        ("string-split"@, builtin_code(2, 105)),
        ("string-join"@, builtin_code(2, 106)),
        ("string-trim"@, builtin_code(1, 107)),
        ("string-replace"@, builtin_code(3, 108)),
        ("read-file"@, builtin_code(1, 45)),
        ("write-file"@, builtin_code(2, 46)),
        ("file-exists?"@, builtin_code(1, 47)),
        ("write-binary-file"@, builtin_code(2, 49)),
        ("load"@, builtin_code(1, 79)),
    ]
}
/// Builtins, part 5.
pub open spec fn builtin_group_5() -> Seq<(Seq<char>, Seq<InstrView>)> {
    seq![
        ("require"@, builtin_code(1, 80)),
        ("current-timestamp"@, builtin_code(0, 109)),
        ("format-timestamp"@, builtin_code(2, 110)),
        ("get-args"@, builtin_code(0, 48)),
        ("print"@, builtin_code(1, 11)),
        ("apply"@, builtin_code(2, 78)),
        ("hashmap?"@, builtin_code(1, 60)),
        ("hashmap-get"@, builtin_code(2, 55)),
        ("hashmap-set"@, builtin_code(3, 56)),
        ("hashmap-keys"@, builtin_code(1, 57)),
        ("hashmap-values"@, builtin_code(1, 58)),
        ("hashmap-contains-key?"@, builtin_code(2, 59)),
    ]
}
/// Builtins, part 6.
pub open spec fn builtin_group_6() -> Seq<(Seq<char>, Seq<InstrView>)> {
    seq![
        ("vector?"@, builtin_code(1, 67)),
        ("vector-ref"@, builtin_code(2, 62)),
        ("vector-set"@, builtin_code(3, 63)),
        ("vector-push"@, builtin_code(2, 64)),
        ("vector-pop"@, builtin_code(1, 65)),
        ("vector-length"@, builtin_code(1, 66)),
        ("list->vector"@, builtin_code(1, 74)),
        ("vector->list"@, builtin_code(1, 75)),
        ("int->float"@, builtin_code(1, 83)),
        ("float->int"@, builtin_code(1, 84)),
        ("sqrt"@, builtin_code(1, 85)),
        ("sin"@, builtin_code(1, 86)),
    ]
}
/// Builtins, part 7.
pub open spec fn builtin_group_7() -> Seq<(Seq<char>, Seq<InstrView>)> {
    seq![
        ("cos"@, builtin_code(1, 87)),
        ("tan"@, builtin_code(1, 97)),
        ("atan"@, builtin_code(1, 98)),
        ("atan2"@, builtin_code(2, 99)),
        ("log"@, builtin_code(1, 100)),
        ("exp"@, builtin_code(1, 101)),
        ("floor"@, builtin_code(1, 88)),
        ("ceil"@, builtin_code(1, 89)),
        ("abs"@, builtin_code(1, 90)),
        ("pow"@, builtin_code(2, 91)),
        ("random"@, builtin_code(0, 102)),
        ("random-int"@, builtin_code(1, 103)),
    ]
}
/// Builtins, part 8.
pub open spec fn builtin_group_8() -> Seq<(Seq<char>, Seq<InstrView>)> {
    seq![
        ("seed-random"@, builtin_code(1, 104)),
        ("eval"@, builtin_code(1, 92)),
        ("function-arity"@, builtin_code(1, 93)),
        ("function-params"@, builtin_code(1, 94)),
        ("closure-captured"@, builtin_code(1, 95)),
        ("function-name"@, builtin_code(1, 96)),
        ("type-of"@, builtin_code(1, 114)),
        ("gensym"@, builtin_code(0, 115)),
        ("pmap"@, builtin_code(2, 116)),
        ("pfilter"@, builtin_code(2, 117)),
        ("preduce"@, builtin_code(3, 118)),
    ]
}
/// The functions every machine starts with, by name.
pub open spec fn builtin_table() -> Seq<(Seq<char>, Seq<InstrView>)> {
    builtin_group_1() + builtin_group_2() + builtin_group_3() + builtin_group_4() + builtin_group_5() + builtin_group_6() + builtin_group_7() + builtin_group_8()
}

fn builtin_entry(name: &str, args: usize, op: Instruction) -> (r: (String, Vec<Instruction>))
    requires
        simple_opcode(op).is_some(),
    ensures
        r.0@ == name@,
        instrs_view(r.1@) == builtin_code(args as nat, simple_opcode(op).unwrap()),
{
    let mut code: Vec<Instruction> = Vec::new();
    let mut k: usize = 0;
    while k < args
        invariant
            k <= args,
            code@.len() == k,
            forall|j: int| 0 <= j < k ==> #[trigger] instr_view(code@[j]) == InstrView::Indexed(OP_LOAD_ARG, j as usize),
        decreases args - k,
    {
        code.push(Instruction::LoadArg(k));
        k = k + 1;
    }
    proof {
        lemma_simple_view(op);
    }
    code.push(op);
    code.push(Instruction::Ret);
    proof {
        lemma_instrs_view_ext(code@);
        lemma_instrs_view_len(code@);
        assert(instrs_view(code@) =~= builtin_code(args as nat, simple_opcode(op).unwrap()));
    }
    (owned(name), code)
}

fn null_check_entry() -> (r: (String, Vec<Instruction>))
    ensures
        r.0@ == "null?"@,
        instrs_view(r.1@) == seq![InstrView::Indexed(OP_LOAD_ARG, 0), InstrView::Simple(52), InstrView::Push(ValueView::Integer(0)), InstrView::Simple(OP_EQ), InstrView::Simple(OP_RET)],
{
    let code = vec![Instruction::LoadArg(0), Instruction::ListLength, Instruction::Push(Value::Integer(0)), Instruction::Eq, Instruction::Ret];
    proof {
        lemma_instrs_view_ext(code@);
        lemma_instrs_view_len(code@);
        assert(instrs_view(code@) =~= seq![InstrView::Indexed(OP_LOAD_ARG, 0), InstrView::Simple(52), InstrView::Push(ValueView::Integer(0)), InstrView::Simple(OP_EQ), InstrView::Simple(OP_RET)]);
    }
    (owned("null?"), code)
}

fn add_entry(table: &mut FunctionTable, e: (String, Vec<Instruction>))
    ensures
        table_view(final(table)@) == table_view(old(table)@).push((e.0@, instrs_view(e.1@))),
{
    table.push(e);
    assert(table_view(table@) =~= table_view(old(table)@).push((e.0@, instrs_view(e.1@))));
}

fn builtins_1() -> (r: FunctionTable)
    ensures
        table_view(r@) == builtin_group_1(),
{
    let mut table: FunctionTable = Vec::new();
    assert(table_view(table@) =~= Seq::<(Seq<char>, Seq<InstrView>)>::empty());
    add_entry(&mut table, builtin_entry("+", 2, Instruction::Add));
    add_entry(&mut table, builtin_entry("-", 2, Instruction::Sub));
    add_entry(&mut table, builtin_entry("*", 2, Instruction::Mul));
    add_entry(&mut table, builtin_entry("/", 2, Instruction::Div));
    add_entry(&mut table, builtin_entry("%", 2, Instruction::Mod));
    add_entry(&mut table, builtin_entry("neg", 1, Instruction::Neg));
    add_entry(&mut table, builtin_entry("<=", 2, Instruction::Leq));
    add_entry(&mut table, builtin_entry("<", 2, Instruction::Lt));
    add_entry(&mut table, builtin_entry(">", 2, Instruction::Gt));
    add_entry(&mut table, builtin_entry(">=", 2, Instruction::Gte));
    add_entry(&mut table, builtin_entry("==", 2, Instruction::Eq));
    add_entry(&mut table, builtin_entry("!=", 2, Instruction::Neq));
    table
}
fn builtins_2() -> (r: FunctionTable)
    ensures
        table_view(r@) == builtin_group_2(),
{
    let mut table: FunctionTable = Vec::new();
    assert(table_view(table@) =~= Seq::<(Seq<char>, Seq<InstrView>)>::empty());
    add_entry(&mut table, builtin_entry("cons", 2, Instruction::Cons));
    add_entry(&mut table, builtin_entry("car", 1, Instruction::Car));
    add_entry(&mut table, builtin_entry("cdr", 1, Instruction::Cdr));
    add_entry(&mut table, builtin_entry("list?", 1, Instruction::IsList));
    add_entry(&mut table, builtin_entry("append", 2, Instruction::Append));
    add_entry(&mut table, builtin_entry("list-ref", 2, Instruction::ListRef));
    add_entry(&mut table, builtin_entry("list-length", 1, Instruction::ListLength));
    add_entry(&mut table, null_check_entry());
    add_entry(&mut table, builtin_entry("integer?", 1, Instruction::IsInteger));
    add_entry(&mut table, builtin_entry("float?", 1, Instruction::IsFloat));
    add_entry(&mut table, builtin_entry("number?", 1, Instruction::IsNumber));
    add_entry(&mut table, builtin_entry("boolean?", 1, Instruction::IsBoolean));
    table
}
fn builtins_3() -> (r: FunctionTable)
    ensures
        table_view(r@) == builtin_group_3(),
{
    let mut table: FunctionTable = Vec::new();
    assert(table_view(table@) =~= Seq::<(Seq<char>, Seq<InstrView>)>::empty());
    add_entry(&mut table, builtin_entry("function?", 1, Instruction::IsFunction));
    add_entry(&mut table, builtin_entry("closure?", 1, Instruction::IsClosure));
    add_entry(&mut table, builtin_entry("procedure?", 1, Instruction::IsProcedure));
    add_entry(&mut table, builtin_entry("string?", 1, Instruction::IsString));
    add_entry(&mut table, builtin_entry("symbol?", 1, Instruction::IsSymbol));
    add_entry(&mut table, builtin_entry("symbol->string", 1, Instruction::SymbolToString));
    add_entry(&mut table, builtin_entry("string->symbol", 1, Instruction::StringToSymbol));
    add_entry(&mut table, builtin_entry("string-length", 1, Instruction::StringLength));
    add_entry(&mut table, builtin_entry("substring", 3, Instruction::Substring));
    add_entry(&mut table, builtin_entry("string-append", 2, Instruction::StringAppend));
    add_entry(&mut table, builtin_entry("string->list", 1, Instruction::StringToList));
    add_entry(&mut table, builtin_entry("list->string", 1, Instruction::ListToString));
    table
}
fn builtins_4() -> (r: FunctionTable)
    ensures
        table_view(r@) == builtin_group_4(),
{
    let mut table: FunctionTable = Vec::new();
    assert(table_view(table@) =~= Seq::<(Seq<char>, Seq<InstrView>)>::empty());
    add_entry(&mut table, builtin_entry("char-code", 1, Instruction::CharCode));
    add_entry(&mut table, builtin_entry("number->string", 1, Instruction::NumberToString));
    add_entry(&mut table, builtin_entry("string->number", 1, Instruction::StringToNumber));
    add_entry(&mut table, builtin_entry("string-split", 2, Instruction::StringSplit));
    add_entry(&mut table, builtin_entry("string-join", 2, Instruction::StringJoin));
    add_entry(&mut table, builtin_entry("string-trim", 1, Instruction::StringTrim));
    add_entry(&mut table, builtin_entry("string-replace", 3, Instruction::StringReplace));
    add_entry(&mut table, builtin_entry("read-file", 1, Instruction::ReadFile));
    add_entry(&mut table, builtin_entry("write-file", 2, Instruction::WriteFile));
    add_entry(&mut table, builtin_entry("file-exists?", 1, Instruction::FileExists));
    add_entry(&mut table, builtin_entry("write-binary-file", 2, Instruction::WriteBinaryFile));
    add_entry(&mut table, builtin_entry("load", 1, Instruction::LoadFile));
    table
}
fn builtins_5() -> (r: FunctionTable)
    ensures
        table_view(r@) == builtin_group_5(),
{
    let mut table: FunctionTable = Vec::new();
    assert(table_view(table@) =~= Seq::<(Seq<char>, Seq<InstrView>)>::empty());
    add_entry(&mut table, builtin_entry("require", 1, Instruction::RequireFile));
    add_entry(&mut table, builtin_entry("current-timestamp", 0, Instruction::CurrentTimestamp));
    add_entry(&mut table, builtin_entry("format-timestamp", 2, Instruction::FormatTimestamp));
    add_entry(&mut table, builtin_entry("get-args", 0, Instruction::GetArgs));
    add_entry(&mut table, builtin_entry("print", 1, Instruction::Print));
    add_entry(&mut table, builtin_entry("apply", 2, Instruction::Apply));
    add_entry(&mut table, builtin_entry("hashmap?", 1, Instruction::IsHashMap));
    add_entry(&mut table, builtin_entry("hashmap-get", 2, Instruction::HashMapGet));
    add_entry(&mut table, builtin_entry("hashmap-set", 3, Instruction::HashMapSet));
    add_entry(&mut table, builtin_entry("hashmap-keys", 1, Instruction::HashMapKeys));
    add_entry(&mut table, builtin_entry("hashmap-values", 1, Instruction::HashMapValues));
    add_entry(&mut table, builtin_entry("hashmap-contains-key?", 2, Instruction::HashMapContainsKey));
    table
}
fn builtins_6() -> (r: FunctionTable)
    ensures
        table_view(r@) == builtin_group_6(),
{
    let mut table: FunctionTable = Vec::new();
    assert(table_view(table@) =~= Seq::<(Seq<char>, Seq<InstrView>)>::empty());
    add_entry(&mut table, builtin_entry("vector?", 1, Instruction::IsVector));
    add_entry(&mut table, builtin_entry("vector-ref", 2, Instruction::VectorGet));
    add_entry(&mut table, builtin_entry("vector-set", 3, Instruction::VectorSet));
    add_entry(&mut table, builtin_entry("vector-push", 2, Instruction::VectorPush));
    add_entry(&mut table, builtin_entry("vector-pop", 1, Instruction::VectorPop));
    add_entry(&mut table, builtin_entry("vector-length", 1, Instruction::VectorLength));
    add_entry(&mut table, builtin_entry("list->vector", 1, Instruction::ListToVector));
    add_entry(&mut table, builtin_entry("vector->list", 1, Instruction::VectorToList));
    add_entry(&mut table, builtin_entry("int->float", 1, Instruction::IntToFloat));
    add_entry(&mut table, builtin_entry("float->int", 1, Instruction::FloatToInt));
    add_entry(&mut table, builtin_entry("sqrt", 1, Instruction::Sqrt));
    add_entry(&mut table, builtin_entry("sin", 1, Instruction::Sin));
    table
}
fn builtins_7() -> (r: FunctionTable)
    ensures
        table_view(r@) == builtin_group_7(),
{
    let mut table: FunctionTable = Vec::new();
    assert(table_view(table@) =~= Seq::<(Seq<char>, Seq<InstrView>)>::empty());
    add_entry(&mut table, builtin_entry("cos", 1, Instruction::Cos));
    add_entry(&mut table, builtin_entry("tan", 1, Instruction::Tan));
    add_entry(&mut table, builtin_entry("atan", 1, Instruction::Atan));
    add_entry(&mut table, builtin_entry("atan2", 2, Instruction::Atan2));
    add_entry(&mut table, builtin_entry("log", 1, Instruction::Log));
    add_entry(&mut table, builtin_entry("exp", 1, Instruction::Exp));
    add_entry(&mut table, builtin_entry("floor", 1, Instruction::Floor));
    add_entry(&mut table, builtin_entry("ceil", 1, Instruction::Ceil));
    add_entry(&mut table, builtin_entry("abs", 1, Instruction::Abs));
    add_entry(&mut table, builtin_entry("pow", 2, Instruction::Pow));
    add_entry(&mut table, builtin_entry("random", 0, Instruction::Random));
    add_entry(&mut table, builtin_entry("random-int", 1, Instruction::RandomInt));
    table
}
fn builtins_8() -> (r: FunctionTable)
    ensures
        table_view(r@) == builtin_group_8(),
{
    let mut table: FunctionTable = Vec::new();
    assert(table_view(table@) =~= Seq::<(Seq<char>, Seq<InstrView>)>::empty());
    add_entry(&mut table, builtin_entry("seed-random", 1, Instruction::SeedRandom));
    add_entry(&mut table, builtin_entry("eval", 1, Instruction::Eval));
    add_entry(&mut table, builtin_entry("function-arity", 1, Instruction::FunctionArity));
    add_entry(&mut table, builtin_entry("function-params", 1, Instruction::FunctionParams));
    add_entry(&mut table, builtin_entry("closure-captured", 1, Instruction::ClosureCaptured));
    add_entry(&mut table, builtin_entry("function-name", 1, Instruction::FunctionName));
    add_entry(&mut table, builtin_entry("type-of", 1, Instruction::TypeOf));
    add_entry(&mut table, builtin_entry("gensym", 0, Instruction::GenSym));
    add_entry(&mut table, builtin_entry("pmap", 2, Instruction::PMap));
    add_entry(&mut table, builtin_entry("pfilter", 2, Instruction::PFilter));
    add_entry(&mut table, builtin_entry("preduce", 3, Instruction::PReduce));
    table
}
fn append_table(table: &mut FunctionTable, more: FunctionTable)
    ensures
        table_view(final(table)@) == table_view(old(table)@) + table_view(more@),
{
    let ghost extra = more@;
    let mut more = more;
    table.append(&mut more);
    assert(table_view(table@) =~= table_view(old(table)@) + table_view(extra));
}

/// The functions every machine starts with.
pub fn builtin_functions() -> (r: FunctionTable)
    ensures
        table_view(r@) == builtin_table(),
{
    let mut table: FunctionTable = Vec::new();
    assert(table_view(table@) =~= Seq::<(Seq<char>, Seq<InstrView>)>::empty());
    append_table(&mut table, builtins_1());
    append_table(&mut table, builtins_2());
    append_table(&mut table, builtins_3());
    append_table(&mut table, builtins_4());
    append_table(&mut table, builtins_5());
    append_table(&mut table, builtins_6());
    append_table(&mut table, builtins_7());
    append_table(&mut table, builtins_8());
    assert(table_view(table@) =~= builtin_table());
    table
}

// ---------------------------------------------------------------------------
// Machine state

/// A call frame.
pub struct Frame {
    pub return_address: usize,
    pub locals: Vec<Value>,
    pub return_bytecode: Vec<Instruction>,
    pub function_name: String,
    pub captured: Vec<Value>,
    pub stack_base: usize,
    pub loop_start: Option<usize>,
    pub loop_bindings_start: Option<usize>,
    pub loop_bindings_count: Option<usize>,
}

/// The mathematical content of a call frame.
#[verifier::ext_equal]
pub struct FrameView {
    pub return_address: usize,
    pub locals: Seq<ValueView>,
    pub return_code: Seq<InstrView>,
    pub name: Seq<char>,
    pub captured: Seq<ValueView>,
    pub stack_base: usize,
    pub loop_start: Option<usize>,
    pub loop_bindings_start: Option<usize>,
    pub loop_bindings_count: Option<usize>,
}

pub open spec fn frame_view(f: Frame) -> FrameView {
    FrameView {
        return_address: f.return_address,
        locals: values_view(f.locals@),
        return_code: instrs_view(f.return_bytecode@),
        name: f.function_name@,
        captured: values_view(f.captured@),
        stack_base: f.stack_base,
        loop_start: f.loop_start,
        loop_bindings_start: f.loop_bindings_start,
        loop_bindings_count: f.loop_bindings_count,
    }
}

pub open spec fn frames_view(s: Seq<Frame>) -> Seq<FrameView> {
    Seq::new(s.len(), |i: int| frame_view(s[i]))
}

impl Frame {
    /// A frame with no locals, no captured values and no loop.
    pub fn new(return_address: usize, return_bytecode: Vec<Instruction>, function_name: String, stack_base: usize) -> (r: Self)
        ensures
            r.return_address == return_address,
            r.locals@.len() == 0,
            r.return_bytecode == return_bytecode,
            r.function_name == function_name,
            r.captured@.len() == 0,
            r.stack_base == stack_base,
            r.loop_start.is_none(),
            r.loop_bindings_start.is_none(),
            r.loop_bindings_count.is_none(),
    {
        Frame {
            return_address,
            locals: Vec::new(),
            return_bytecode,
            function_name,
            captured: Vec::new(),
            stack_base,
            loop_start: None,
            loop_bindings_start: None,
            loop_bindings_count: None,
        }
    }
}

/// The stack machine that runs bytecode.
pub struct VM {
    pub instruction_pointer: usize,
    pub value_stack: Vec<Value>,
    pub call_stack: Vec<Frame>,
    pub functions: FunctionTable,
    pub current_bytecode: Vec<Instruction>,
    pub halted: bool,
    pub global_vars: Vec<(String, Value)>,
    pub args: Vec<String>,
    pub loaded_modules: Vec<String>,
    /// Where to go on when code that `eval`, `load` or `require` runs comes
    /// to its end, innermost last.
    pub resumes: Vec<Resume>,
}

/// The mathematical content of a machine.
#[verifier::ext_equal]
pub struct MachineView {
    pub ip: usize,
    pub stack: Seq<ValueView>,
    pub frames: Seq<FrameView>,
    pub functions: Seq<(Seq<char>, Seq<InstrView>)>,
    pub code: Seq<InstrView>,
    pub halted: bool,
    pub globals: Seq<(Seq<char>, ValueView)>,
    /// The command-line arguments the program was given.
    pub args: Seq<Seq<char>>,
    pub resumes: Seq<ResumeView>,
    /// The modules that `require` has loaded.
    pub modules: Seq<Seq<char>>,
}

impl VM {
    pub open spec fn state(&self) -> MachineView {
        MachineView {
            ip: self.instruction_pointer,
            stack: values_view(self.value_stack@),
            frames: frames_view(self.call_stack@),
            functions: table_view(self.functions@),
            code: instrs_view(self.current_bytecode@),
            halted: self.halted,
            globals: pairs_view(self.global_vars@),
            args: names_view(self.args@),
            resumes: resumes_view(self.resumes@),
            modules: names_view(self.loaded_modules@),
        }
    }
}

/// The value stored under a key, if any.
pub open spec fn lookup<V>(t: Seq<(Seq<char>, V)>, k: Seq<char>) -> Option<V> {
    if key_index(t, k) < t.len() {
        Some(t[key_index(t, k)].1)
    } else {
        None
    }
}

// ---------------------------------------------------------------------------
// One step

/// What one step of the machine comes to.
pub enum Outcome {
    /// The machine goes on in this state.
    Next(MachineView),
    /// The machine goes on in this state, and the value is to be printed.
    Output(MachineView, ValueView),
    /// Floating-point arithmetic for the host: the opcode and the two
    /// operands on top of the stack; the state is unchanged until the host
    /// hands back the result.
    Float(u8, ValueView, ValueView),
    /// Work for the host; the state is unchanged until the host answers.
    Ask(RequestView),
    /// From this state, a value drawn from outside (as the second part
    /// allows) is pushed and the machine moves on.
    Drawn(MachineView, DrawView),
    /// The step fails with this message.
    Failed(Seq<char>),
    /// The step fails with this message, and leaves the machine in this
    /// state (the operands it took are gone).
    FailedAfter(Seq<char>, MachineView),
}

/// What the host is to do after a step.
pub enum Effect {
    Continue,
    Print(Value),
    /// Compute `a op b` in floating point and hand the result to
    /// `finish_float`.
    FloatArithmetic(u8, Value, Value),
    /// Do what the request asks and hand the result to `answer`.
    Request(Request),
}

impl MachineView {
    pub open spec fn advanced(self) -> MachineView {
        MachineView { ip: (self.ip + 1) as usize, ..self }
    }

    pub open spec fn with_stack(self, stack: Seq<ValueView>) -> MachineView {
        MachineView { stack, ..self }
    }

    /// The base of the current frame's part of the stack (0 in the main code).
    pub open spec fn base(self) -> nat {
        if self.frames.len() == 0 {
            0
        } else {
            self.frames.last().stack_base as nat
        }
    }
}

/// The stack with its top `n` values removed.
pub open spec fn drop_top(s: Seq<ValueView>, n: nat) -> Seq<ValueView> {
    s.subrange(0, s.len() - n)
}

/// The top `n` values, deepest first.
pub open spec fn top(s: Seq<ValueView>, n: nat) -> Seq<ValueView> {
    s.subrange(s.len() - n, s.len() as int)
}

/// Calling the function `name` with `n` arguments; a tail call reuses the
/// current frame when there is one.
pub open spec fn call_step(m: MachineView, name: Seq<char>, n: usize, tail: bool) -> Outcome {
    match lookup(m.functions, name) {
        None => Outcome::Failed("Undefined function '"@ + name + "'"@),
        Some(code) => if m.stack.len() < n {
            Outcome::Failed(if tail { "Stack underflow in TailCall"@ } else { "Stack underflow in Call"@ })
        } else {
            let args = top(m.stack, n as nat);
            let rest = drop_top(m.stack, n as nat);
            if tail && m.frames.len() > 0 {
                let f = m.frames.last();
                let kept = if f.stack_base <= rest.len() { rest.subrange(0, f.stack_base as int) } else { rest };
                Outcome::Next(MachineView {
                    ip: 0,
                    stack: kept,
                    frames: m.frames.update(m.frames.len() - 1, FrameView { locals: args, name, ..f }),
                    code,
                    ..m
                })
            } else {
                let frame = FrameView {
                    return_address: (m.ip + 1) as usize,
                    locals: args,
                    return_code: m.code,
                    name,
                    captured: Seq::empty(),
                    stack_base: rest.len() as usize,
                    loop_start: None,
                    loop_bindings_start: None,
                    loop_bindings_count: None,
                };
                Outcome::Next(MachineView { ip: 0, stack: rest, frames: m.frames.push(frame), code, ..m })
            }
        },
    }
}

/// A step of an instruction with one numeric operand.
pub open spec fn indexed_step(m: MachineView, op: u8, a: usize) -> Outcome {
    if op == 7 {
        Outcome::Next(MachineView { ip: a, ..m })
    } else if op == 6 {
        if m.stack.len() == 0 {
            Outcome::Failed("Stack underflow in JmpIfFalse operation"@)
        } else {
            let v = m.stack.last();
            let rest = m.stack.drop_last();
            match v {
                ValueView::Boolean(false) => Outcome::Next(MachineView { ip: a, stack: rest, ..m }),
                ValueView::Boolean(true) => Outcome::Next(m.with_stack(rest).advanced()),
                _ => Outcome::FailedAfter("Type error: conditional expects boolean, got "@ + type_name_of(v), m.with_stack(rest)),
            }
        }
    } else if op == OP_LOAD_ARG {
        if m.frames.len() == 0 {
            Outcome::Failed("No frame to load arg from"@)
        } else if a >= m.frames.last().locals.len() {
            Outcome::Failed("Arg index "@ + decimal(a as nat) + " out of bounds"@)
        } else {
            Outcome::Next(m.with_stack(m.stack.push(m.frames.last().locals[a as int])).advanced())
        }
    } else if op == 28 {
        let pos: nat = m.base() + a as nat;
        if pos >= m.stack.len() {
            Outcome::Failed("Stack position "@ + decimal(pos) + " (base "@ + decimal(m.base()) + " + offset "@ + decimal(
                a as nat,
            ) + ") out of bounds"@)
        } else {
            Outcome::Next(m.with_stack(m.stack.push(m.stack[pos as int])).advanced())
        }
    } else if op == 29 {
        if m.stack.len() < a {
            Outcome::Failed("Stack underflow during PopN"@)
        } else {
            Outcome::Next(m.with_stack(drop_top(m.stack, a as nat)).advanced())
        }
    } else if op == 30 {
        if m.stack.len() < a + 1 {
            Outcome::Failed("Stack underflow during Slide"@)
        } else {
            Outcome::Next(m.with_stack(drop_top(m.stack, (a + 1) as nat).push(m.stack.last())).advanced())
        }
    } else if op == 112 || op == 113 {
        loop_step(m, op, a)
    } else if op == 33 {
        call_closure_step(m, a)
    } else if op == 34 || op == 76 || op == 111 {
        frame_step(m, op, a)
    } else if op == 36 {
        if m.stack.len() < a {
            Outcome::Failed("Stack underflow in MakeList"@)
        } else {
            Outcome::Next(m.with_stack(drop_top(m.stack, a as nat).push(ValueView::List(top(m.stack, a as nat)))).advanced())
        }
    } else if op == 61 {
        if m.stack.len() < a {
            Outcome::Failed("Stack underflow in MakeVector"@)
        } else {
            Outcome::Next(m.with_stack(drop_top(m.stack, a as nat).push(ValueView::Vector(top(m.stack, a as nat)))).advanced())
        }
    } else if op == 54 {
        make_map_step(m, a)
    } else {
        Outcome::Failed("Unsupported instruction: "@ + indexed_name(op))
    }
}

/// The name of an instruction with one numeric operand, by opcode.
pub open spec fn indexed_name(op: u8) -> Seq<char> {
    match crate::instructions::indexed_of_opcode(op, 0) {
        Some(i) => instruction_name(i),
        None => Seq::empty(),
    }
}

// ---------------------------------------------------------------------------
// Equality of values

/// Whether a float's bit pattern is a NaN.
pub open spec fn is_nan_bits(x: u64) -> bool {
    (x & 0x7FF0_0000_0000_0000) == 0x7FF0_0000_0000_0000 && (x & 0x000F_FFFF_FFFF_FFFF) != 0
}

/// Equality of floats inside values: a NaN equals a NaN, and the two zeros
/// are equal.
pub open spec fn float_values_eq(x: u64, y: u64) -> bool {
    ||| is_nan_bits(x) && is_nan_bits(y)
    ||| !is_nan_bits(x) && !is_nan_bits(y) && (x == y || ((x == 0 || x == SIGN_BIT) && (y == 0 || y == SIGN_BIT)))
}

/// Whether a comparison of the two values can be made here: hash maps and
/// closures are not compared.
pub open spec fn comparable(a: ValueView, b: ValueView) -> bool
    decreases a,
{
    match a {
        ValueView::List(xs) => match b {
            ValueView::List(ys) => xs.len() == ys.len() ==> forall|k: int|
                0 <= k < xs.len() ==> comparable(#[trigger] xs[k], ys[k]),
            _ => true,
        },
        ValueView::Vector(xs) => match b {
            ValueView::Vector(ys) => xs.len() == ys.len() ==> forall|k: int|
                0 <= k < xs.len() ==> comparable(#[trigger] xs[k], ys[k]),
            _ => true,
        },
        ValueView::HashMap(_) => !(b is HashMap),
        ValueView::Closure(..) => !(b is Closure),
        _ => true,
    }
}

/// Equality of values: numbers, booleans, texts and pointers by content,
/// lists and vectors element by element; values of different kinds differ.
pub open spec fn values_eq(a: ValueView, b: ValueView) -> bool
    decreases a,
{
    match a {
        ValueView::Integer(x) => b == ValueView::Integer(x),
        ValueView::Float(x) => b is Float && float_values_eq(x, b->Float_0),
        ValueView::Boolean(x) => b == ValueView::Boolean(x),
        ValueView::List(xs) => match b {
            ValueView::List(ys) => xs.len() == ys.len() && forall|k: int|
                0 <= k < xs.len() ==> values_eq(#[trigger] xs[k], ys[k]),
            _ => false,
        },
        ValueView::Symbol(x) => b == ValueView::Symbol(x),
        ValueView::String(x) => b == ValueView::String(x),
        ValueView::Function(x) => b == ValueView::Function(x),
        ValueView::Vector(xs) => match b {
            ValueView::Vector(ys) => xs.len() == ys.len() && forall|k: int|
                0 <= k < xs.len() ==> values_eq(#[trigger] xs[k], ys[k]),
            _ => false,
        },
        ValueView::Pointer(x) => b == ValueView::Pointer(x),
        _ => false,
    }
}

// ---------------------------------------------------------------------------
// Steps of operand-free instructions

pub open spec fn is_number(v: ValueView) -> bool {
    v is Integer || v is Float
}

/// The name an operation has in stack underflow messages.
pub open spec fn op_title(op: u8) -> Seq<char> {
    if op == OP_ADD { "Add"@ } else if op == OP_SUB { "Sub"@ } else if op == OP_MUL { "Mul"@ }
    else if op == OP_DIV { "Div"@ } else if op == OP_MOD { "Mod"@ } else if op == OP_LEQ { "Leq"@ }
    else if op == OP_LT { "Lt"@ } else if op == OP_GT { "Gt"@ } else if op == OP_GTE { "Gte"@ }
    else if op == OP_EQ { "Eq"@ } else { "Neq"@ }
}

/// The symbol an operation has in type error messages.
pub open spec fn op_symbol(op: u8) -> Seq<char> {
    if op == OP_ADD { "+"@ } else if op == OP_SUB { "-"@ } else if op == OP_MUL { "*"@ }
    else if op == OP_DIV { "/"@ } else if op == OP_MOD { "%"@ } else if op == OP_LEQ { "<="@ }
    else if op == OP_LT { "<"@ } else if op == OP_GT { ">"@ } else { ">="@ }
}

pub open spec fn is_arith(op: u8) -> bool {
    op == OP_ADD || op == OP_SUB || op == OP_MUL || op == OP_DIV || op == OP_MOD
}

pub open spec fn is_order(op: u8) -> bool {
    op == OP_LEQ || op == OP_LT || op == OP_GT || op == OP_GTE
}

/// Whether a divisor is zero.
pub open spec fn is_zero_value(v: ValueView) -> bool {
    match v {
        ValueView::Integer(n) => n == 0,
        ValueView::Float(f) => f == 0 || f == SIGN_BIT,
        _ => false,
    }
}

/// A step of a binary operation on the two values on top of the stack.
pub open spec fn binary_step(m: MachineView, op: u8) -> Outcome {
    if m.stack.len() < 2 {
        Outcome::Failed("Stack underflow in "@ + op_title(op) + " operation"@)
    } else {
        let a = m.stack[m.stack.len() - 2];
        let b = m.stack.last();
        let rest = drop_top(m.stack, 2);
        if is_number(a) && is_number(b) {
            if (op == OP_DIV || op == OP_MOD) && is_zero_value(b) {
                Outcome::FailedAfter(if op == OP_DIV { "Division by zero"@ } else { "Modulo by zero"@ }, m.with_stack(rest))
            } else if a is Integer && b is Integer {
                Outcome::Next(m.with_stack(rest.push(int_fold(a->Integer_0, b->Integer_0, op).unwrap())).advanced())
            } else {
                Outcome::Float(op, a, b)
            }
        } else if op == OP_EQ || op == OP_NEQ {
            if comparable(a, b) {
                let same = values_eq(a, b);
                Outcome::Next(m.with_stack(rest.push(ValueView::Boolean(if op == OP_EQ { same } else { !same }))).advanced())
            } else {
                Outcome::Failed("Unsupported comparison of "@ + type_name_of(a) + " and "@ + type_name_of(b))
            }
        } else {
            Outcome::Failed("Type error: '"@ + op_symbol(op) + "' expects two numbers, got "@ + type_name_of(a) + " and "@
                + type_name_of(b))
        }
    }
}

/// A step of an instruction that pops one value and pushes one.
pub open spec fn unary_step(m: MachineView, title: Seq<char>, f: spec_fn(ValueView) -> Result<ValueView, Seq<char>>) -> Outcome {
    if m.stack.len() == 0 {
        Outcome::Failed("Stack underflow in "@ + title)
    } else {
        match f(m.stack.last()) {
            Ok(v) => Outcome::Next(m.with_stack(m.stack.drop_last().push(v)).advanced()),
            Err(msg) => Outcome::Failed(msg),
        }
    }
}

/// Negation: of an integer, or of a float by flipping its sign bit.
pub open spec fn negate(v: ValueView) -> Result<ValueView, Seq<char>> {
    match v {
        ValueView::Integer(n) => Ok(ValueView::Integer((-n) as i64)),
        ValueView::Float(f) => Ok(ValueView::Float(f ^ SIGN_BIT)),
        _ => Err("Type error: 'neg' expects a number, got "@ + type_name_of(v)),
    }
}

pub open spec fn first_of(v: ValueView) -> Result<ValueView, Seq<char>> {
    match v {
        ValueView::List(items) => if items.len() == 0 {
            Err("'car' cannot take the first element of an empty list"@)
        } else {
            Ok(items[0])
        },
        _ => Err("Type error: 'car' expects a list, got "@ + type_name_of(v)),
    }
}

pub open spec fn rest_of(v: ValueView) -> Result<ValueView, Seq<char>> {
    match v {
        ValueView::List(items) => if items.len() == 0 {
            Err("'cdr' cannot take the rest of an empty list"@)
        } else {
            Ok(ValueView::List(items.drop_first()))
        },
        _ => Err("Type error: 'cdr' expects a list, got "@ + type_name_of(v)),
    }
}

pub open spec fn length_of(v: ValueView) -> Result<ValueView, Seq<char>> {
    match v {
        ValueView::List(items) => Ok(ValueView::Integer(items.len() as i64)),
        _ => Err("Type error: 'list-length' expects a list, got "@ + type_name_of(v)),
    }
}

/// The type tests: the opcode, its title in messages, and what it accepts.
pub open spec fn type_test(op: u8, v: ValueView) -> Option<bool> {
    if op == 23 { Some(v is List) } else if op == 24 { Some(v is String) } else if op == 25 { Some(v is Symbol) }
    else if op == 60 { Some(v is HashMap) } else if op == 67 { Some(v is Vector) } else if op == 68 { Some(v is Integer) }
    else if op == 69 { Some(v is Boolean) } else if op == 70 { Some(v is Function) } else if op == 71 { Some(v is Closure) }
    else if op == 72 { Some(v is Function || v is Closure) } else if op == 81 { Some(v is Float) }
    else if op == 82 { Some(v is Integer || v is Float) } else { None }
}

pub open spec fn type_test_title(op: u8) -> Seq<char> {
    if op == 23 { "IsList"@ } else if op == 24 { "IsString"@ } else if op == 25 { "IsSymbol"@ }
    else if op == 60 { "IsHashMap"@ } else if op == 67 { "IsVector"@ } else if op == 68 { "IsInteger"@ }
    else if op == 69 { "IsBoolean"@ } else if op == 70 { "IsFunction"@ } else if op == 71 { "IsClosure"@ }
    else if op == 72 { "IsProcedure"@ } else if op == 81 { "IsFloat"@ } else { "IsNumber"@ }
}

/// The name of an operand-free instruction, by opcode.
pub open spec fn simple_name(op: u8) -> Seq<char> {
    match crate::instructions::simple_of_opcode(op) {
        Some(i) => instruction_name(i),
        None => Seq::empty(),
    }
}

/// `Apply`: calling the function or closure under the list on top of the
/// stack with the list's elements as arguments.
pub open spec fn apply_step(m: MachineView) -> Outcome {
    if m.stack.len() == 0 {
        Outcome::Failed("Stack underflow in Apply"@)
    } else {
        match m.stack.last() {
            ValueView::List(args) => {
                let below = m.stack.drop_last();
                if below.len() == 0 {
                    Outcome::Failed("Stack underflow in Apply"@)
                } else {
                    let callable = below.last();
                    let rest = below.drop_last();
                    let n = args.len();
                    match callable {
                        ValueView::Function(name) => match lookup(m.functions, name) {
                            None => Outcome::Failed("Undefined function '"@ + name + "'"@),
                            Some(code) => Outcome::Next(enter(m, rest, args, name, Seq::empty(), code)),
                        },
                        ValueView::Closure(params, rest_param, body, captured) => match rest_param {
                            None => if params.len() != n {
                                Outcome::Failed("Closure arity mismatch in apply: expected "@ + decimal(params.len())
                                    + " argument(s), got "@ + decimal(n))
                            } else {
                                Outcome::Next(enter(m, rest, args, "<closure>"@, pair_values(captured), body))
                            },
                            Some(_) => if n < params.len() {
                                Outcome::Failed("Variadic closure arity mismatch in apply: expected at least "@
                                    + decimal(params.len()) + " argument(s), got "@ + decimal(n))
                            } else {
                                let locals = args.subrange(0, params.len() as int).push(
                                    ValueView::List(args.subrange(params.len() as int, args.len() as int)),
                                );
                                Outcome::Next(enter(m, rest, locals, "<closure>"@, pair_values(captured), body))
                            },
                        },
                        _ => Outcome::Failed("Type error in apply: expected function or closure, got "@ + type_name_of(callable)),
                    }
                }
            },
            other => Outcome::Failed("Type error in apply: expected list of arguments, got "@ + type_name_of(other)),
        }
    }
}

/// A step of a string instruction: its operands on top of the stack give
/// way to its result.
pub open spec fn string_step(m: MachineView, op: u8) -> Outcome {
    let k = string_arity(op);
    if m.stack.len() < k {
        Outcome::Failed("Stack underflow in "@ + string_op_title(op))
    } else {
        match string_result(op, top(m.stack, k)) {
            Ok(v) => Outcome::Next(m.with_stack(drop_top(m.stack, k).push(v)).advanced()),
            Err(msg) => Outcome::Failed(msg),
        }
    }
}

/// A step of an operand-free instruction.
pub open spec fn simple_step(m: MachineView, op: u8) -> Outcome {
    if is_arith(op) || is_order(op) || op == OP_EQ || op == OP_NEQ {
        binary_step(m, op)
    } else if op == OP_NEG {
        unary_step(m, "Neg operation"@, |v: ValueView| negate(v))
    } else if op == OP_HALT {
        if m.resumes.len() > 0 {
            Outcome::Next(resume(m))
        } else {
            Outcome::Next(MachineView { halted: true, ..m })
        }
    } else if op == OP_RET {
        if m.frames.len() == 0 {
            Outcome::Failed("No frame to return from"@)
        } else {
            let f = m.frames.last();
            Outcome::Next(MachineView { ip: f.return_address, code: f.return_code, frames: m.frames.drop_last(), ..m })
        }
    } else if op == 11 {
        if m.stack.len() == 0 {
            Outcome::Failed("Stack underflow in Print"@)
        } else {
            Outcome::Output(m.advanced(), m.stack.last())
        }
    } else if op == 20 {
        if m.stack.len() < 2 {
            Outcome::Failed("Stack underflow in Cons"@)
        } else {
            let first = m.stack[m.stack.len() - 2];
            let second = m.stack.last();
            let list = match second {
                ValueView::List(items) => seq![first] + items,
                other => seq![first, other],
            };
            Outcome::Next(m.with_stack(drop_top(m.stack, 2).push(ValueView::List(list))).advanced())
        }
    } else if op == 21 {
        unary_step(m, "Car"@, |v: ValueView| first_of(v))
    } else if op == 22 {
        unary_step(m, "Cdr"@, |v: ValueView| rest_of(v))
    } else if op == 52 {
        unary_step(m, "ListLength"@, |v: ValueView| length_of(v))
    } else if op == 35 || op == 51 {
        list_pair_step(m, op)
    } else if op == 62 || op == 64 || op == 55 || op == 59 {
        collection_pair_step(m, op)
    } else if op == 63 || op == 56 {
        collection_set_step(m, op)
    } else if op == 65 {
        vector_pop_step(m)
    } else if op == 66 {
        unary_step(m, "VectorLength"@, |v: ValueView| vector_length_of(v))
    } else if op == 74 {
        unary_step(m, "ListToVector"@, |v: ValueView| list_to_vector(v))
    } else if op == 75 {
        unary_step(m, "VectorToList"@, |v: ValueView| vector_to_list(v))
    } else if op == 57 {
        unary_step(m, "HashMapKeys"@, |v: ValueView| map_keys(v))
    } else if op == 58 {
        unary_step(m, "HashMapValues"@, |v: ValueView| map_values(v))
    } else if op == 48 {
        Outcome::Next(m.with_stack(m.stack.push(ValueView::List(string_values(m.args)))).advanced())
    } else if op == 78 {
        apply_step(m)
    } else if is_request_op(op) {
        request_step(m, op)
    } else if is_string_op(op) {
        string_step(m, op)
    } else if type_test(op, ValueView::Integer(0)).is_some() {
        unary_step(m, type_test_title(op), |v: ValueView| Ok(ValueView::Boolean(type_test(op, v).unwrap())))
    } else {
        Outcome::Failed("Unsupported instruction: "@ + simple_name(op))
    }
}

/// The captured values of a new closure, named by position.
pub open spec fn captured_pairs(vals: Seq<ValueView>) -> Seq<(Seq<char>, ValueView)> {
    Seq::new(vals.len(), |i: int| ("__captured_"@ + decimal(i as nat), vals[i]))
}

/// Making a closure of the code `body` over the top `n` values.
pub open spec fn make_closure_step(
    m: MachineView,
    params: Seq<Seq<char>>,
    rest: Option<Seq<char>>,
    body: Seq<InstrView>,
    n: usize,
    title: Seq<char>,
) -> Outcome {
    if m.stack.len() < n {
        Outcome::Failed("Stack underflow during "@ + title)
    } else {
        Outcome::Next(m.with_stack(drop_top(m.stack, n as nat).push(
            ValueView::Closure(params, rest, body, captured_pairs(top(m.stack, n as nat))),
        )).advanced())
    }
}

/// The values of captured (name, value) pairs.
pub open spec fn pair_values(c: Seq<(Seq<char>, ValueView)>) -> Seq<ValueView> {
    Seq::new(c.len(), |i: int| c[i].1)
}

/// Entering code with a new frame.
pub open spec fn enter(m: MachineView, stack: Seq<ValueView>, locals: Seq<ValueView>, name: Seq<char>, captured: Seq<ValueView>, code: Seq<InstrView>) -> MachineView {
    let frame = FrameView {
        return_address: (m.ip + 1) as usize,
        locals,
        return_code: m.code,
        name,
        captured,
        stack_base: stack.len() as usize,
        loop_start: None,
        loop_bindings_start: None,
        loop_bindings_count: None,
    };
    MachineView { ip: 0, stack, frames: m.frames.push(frame), code, ..m }
}

/// Calling the function or closure below the top `n` values with them as
/// arguments.
pub open spec fn call_closure_step(m: MachineView, n: usize) -> Outcome {
    if m.stack.len() < n + 1 {
        Outcome::Failed("Stack underflow in CallClosure"@)
    } else {
        let args = top(m.stack, n as nat);
        let callable = m.stack[m.stack.len() - n - 1];
        let rest = drop_top(m.stack, (n + 1) as nat);
        match callable {
            ValueView::Function(name) => match lookup(m.functions, name) {
                None => Outcome::Failed("Undefined function '"@ + name + "'"@),
                Some(code) => Outcome::Next(enter(m, rest, args, name, Seq::empty(), code)),
            },
            ValueView::Closure(params, rest_param, body, captured) => match rest_param {
                None => if params.len() != n {
                    Outcome::Failed("Closure arity mismatch: expected "@ + decimal(params.len()) + " argument(s), got "@
                        + decimal(n as nat))
                } else {
                    Outcome::Next(enter(m, rest, args, "<closure>"@, pair_values(captured), body))
                },
                Some(_) => if n < params.len() {
                    Outcome::Failed("Variadic closure arity mismatch: expected at least "@ + decimal(params.len())
                        + " argument(s), got "@ + decimal(n as nat))
                } else {
                    let locals = args.subrange(0, params.len() as int).push(
                        ValueView::List(args.subrange(params.len() as int, args.len() as int)),
                    );
                    Outcome::Next(enter(m, rest, locals, "<closure>"@, pair_values(captured), body))
                },
            },
            _ => Outcome::Failed("Type error: expected function or closure, got "@ + type_name_of(callable)),
        }
    }
}

/// A step of an instruction on the current frame or its part of the stack.
pub open spec fn frame_step(m: MachineView, op: u8, a: usize) -> Outcome {
    if op == 34 {
        if m.frames.len() == 0 {
            Outcome::Failed("No frame for LoadCaptured"@)
        } else if a >= m.frames.last().captured.len() {
            Outcome::Failed("Captured variable index "@ + decimal(a as nat) + " out of bounds"@)
        } else {
            Outcome::Next(m.with_stack(m.stack.push(m.frames.last().captured[a as int])).advanced())
        }
    } else if op == 76 {
        if m.frames.len() == 0 {
            Outcome::Failed("No frame for PackRestArgs"@)
        } else if m.frames.last().locals.len() < a {
            Outcome::Failed("Not enough arguments: expected at least "@ + decimal(a as nat) + ", got "@ + decimal(
                m.frames.last().locals.len(),
            ))
        } else {
            let f = m.frames.last();
            let locals = f.locals.subrange(0, a as int).push(ValueView::List(f.locals.subrange(a as int, f.locals.len() as int)));
            Outcome::Next(MachineView { frames: m.frames.update(m.frames.len() - 1, FrameView { locals, ..f }), ..m }.advanced())
        }
    } else {
        let pos: nat = m.base() + a as nat;
        if m.stack.len() == 0 {
            Outcome::Failed("Stack underflow in SetLocal"@)
        } else if pos >= m.stack.len() - 1 {
            Outcome::Failed("Stack position "@ + decimal(pos) + " (base "@ + decimal(m.base()) + " + offset "@ + decimal(
                a as nat,
            ) + ") out of bounds for SetLocal"@)
        } else {
            Outcome::Next(m.with_stack(m.stack.drop_last().update(pos as int, m.stack.last())).advanced())
        }
    }
}

/// A step of `Append` or `ListRef` on the two values on top of the stack.
pub open spec fn list_pair_step(m: MachineView, op: u8) -> Outcome {
    if m.stack.len() < 2 {
        Outcome::Failed(if op == 35 { "Stack underflow in Append"@ } else { "Stack underflow in ListRef"@ })
    } else {
        let a = m.stack[m.stack.len() - 2];
        let b = m.stack.last();
        let rest = drop_top(m.stack, 2);
        if op == 35 {
            match (a, b) {
                (ValueView::List(xs), ValueView::List(ys)) => Outcome::Next(m.with_stack(rest.push(ValueView::List(xs + ys))).advanced()),
                _ => Outcome::Failed("Type error: 'append' expects two lists, got "@ + type_name_of(a) + " and "@ + type_name_of(b)),
            }
        } else {
            match (a, b) {
                (ValueView::List(xs), ValueView::Integer(idx)) => if idx < 0 {
                    Outcome::Failed("'list-ref' index cannot be negative: "@ + signed_decimal(idx as int))
                } else if idx >= xs.len() {
                    Outcome::Failed("'list-ref' index "@ + signed_decimal(idx as int) + " out of bounds for list of length "@
                        + decimal(xs.len()))
                } else {
                    Outcome::Next(m.with_stack(rest.push(xs[idx as int])).advanced())
                },
                _ => Outcome::Failed("Type error: 'list-ref' expects a list and an integer, got "@ + type_name_of(a)
                    + " and "@ + type_name_of(b)),
            }
        }
    }
}

/// A step of `BeginLoop` or `Recur`.
pub open spec fn loop_step(m: MachineView, op: u8, a: usize) -> Outcome {
    if op == 112 {
        let start = (m.ip + 1) as usize;
        let bindings = (m.stack.len() - a) as usize;
        if m.frames.len() > 0 {
            let f = m.frames.last();
            Outcome::Next(MachineView {
                frames: m.frames.update(m.frames.len() - 1, FrameView {
                    loop_start: Some(start),
                    loop_bindings_start: Some(bindings),
                    loop_bindings_count: Some(a),
                    ..f
                }),
                ..m
            }.advanced())
        } else {
            let f = FrameView {
                return_address: 0,
                locals: Seq::empty(),
                return_code: Seq::empty(),
                name: "<main>"@,
                captured: Seq::empty(),
                stack_base: 0,
                loop_start: Some(start),
                loop_bindings_start: Some(bindings),
                loop_bindings_count: Some(a),
            };
            Outcome::Next(MachineView { frames: m.frames.push(f), ..m }.advanced())
        }
    } else {
        if m.frames.len() == 0 || m.frames.last().loop_start is None || m.frames.last().loop_bindings_start is None
            || m.frames.last().loop_bindings_count is None {
            Outcome::Failed("recur used outside of loop"@)
        } else {
            let f = m.frames.last();
            let count = f.loop_bindings_count->Some_0;
            let start = f.loop_bindings_start->Some_0;
            if a != count {
                Outcome::Failed("recur expects "@ + decimal(count as nat) + " arguments but got "@ + decimal(a as nat))
            } else if m.stack.len() < a {
                Outcome::Failed("Stack underflow in Recur"@)
            } else {
                let values = top(m.stack, a as nat);
                let rest = drop_top(m.stack, a as nat);
                let updated = Seq::new(rest.len(), |i: int| if start <= i < start + a { values[i - start] } else { rest[i] });
                Outcome::Next(MachineView { ip: f.loop_start->Some_0, stack: updated, ..m })
            }
        }
    }
}

/// Keys of a hash map as string values, in the map's order.
pub open spec fn key_values(entries: Seq<(Seq<char>, ValueView)>) -> Seq<ValueView> {
    Seq::new(entries.len(), |i: int| ValueView::String(entries[i].0))
}

pub open spec fn entry_values(entries: Seq<(Seq<char>, ValueView)>) -> Seq<ValueView> {
    Seq::new(entries.len(), |i: int| entries[i].1)
}

pub open spec fn vector_length_of(v: ValueView) -> Result<ValueView, Seq<char>> {
    match v {
        ValueView::Vector(items) => Ok(ValueView::Integer(items.len() as i64)),
        _ => Err("Type error: 'vector-length' expects a vector, got "@ + type_name_of(v)),
    }
}

pub open spec fn list_to_vector(v: ValueView) -> Result<ValueView, Seq<char>> {
    match v {
        ValueView::List(items) => Ok(ValueView::Vector(items)),
        _ => Err("Type error: 'list->vector' expects a list, got "@ + type_name_of(v)),
    }
}

pub open spec fn vector_to_list(v: ValueView) -> Result<ValueView, Seq<char>> {
    match v {
        ValueView::Vector(items) => Ok(ValueView::List(items)),
        _ => Err("Type error: 'vector->list' expects a vector, got "@ + type_name_of(v)),
    }
}

pub open spec fn map_keys(v: ValueView) -> Result<ValueView, Seq<char>> {
    match v {
        ValueView::HashMap(entries) => Ok(ValueView::List(key_values(entries))),
        _ => Err("Type error: 'keys' expects a hashmap, got "@ + type_name_of(v)),
    }
}

pub open spec fn map_values(v: ValueView) -> Result<ValueView, Seq<char>> {
    match v {
        ValueView::HashMap(entries) => Ok(ValueView::List(entry_values(entries))),
        _ => Err("Type error: 'values' expects a hashmap, got "@ + type_name_of(v)),
    }
}

/// The message of an index that is negative or past the end.
pub open spec fn index_error(what: Seq<char>, idx: i64, len: nat, kind: Seq<char>) -> Seq<char> {
    if idx < 0 {
        "'"@ + what + "' index cannot be negative: "@ + signed_decimal(idx as int)
    } else {
        "'"@ + what + "' index "@ + signed_decimal(idx as int) + " out of bounds for "@ + kind + " of length "@ + decimal(len)
    }
}

/// A step of an operation on a vector or hash map and the value on top.
pub open spec fn collection_pair_step(m: MachineView, op: u8) -> Outcome {
    let title = if op == 62 { "VectorGet"@ } else if op == 64 { "VectorPush"@ } else if op == 55 { "HashMapGet"@ } else { "HashMapContainsKey"@ };
    if m.stack.len() < 2 {
        Outcome::Failed("Stack underflow in "@ + title)
    } else {
        let a = m.stack[m.stack.len() - 2];
        let b = m.stack.last();
        let rest = drop_top(m.stack, 2);
        if op == 62 {
            match (a, b) {
                (ValueView::Vector(items), ValueView::Integer(idx)) => if idx < 0 || idx >= items.len() {
                    Outcome::Failed(index_error("vector-ref"@, idx, items.len(), "vector"@))
                } else {
                    Outcome::Next(m.with_stack(rest.push(items[idx as int])).advanced())
                },
                _ => Outcome::Failed("Type error: 'vector-ref' expects a vector and an integer, got "@ + type_name_of(a)
                    + " and "@ + type_name_of(b)),
            }
        } else if op == 64 {
            match a {
                ValueView::Vector(items) => Outcome::Next(m.with_stack(rest.push(ValueView::Vector(items.push(b)))).advanced()),
                _ => Outcome::Failed("Type error: 'vector-push!' expects a vector, got "@ + type_name_of(a)),
            }
        } else {
            match (a, b) {
                (ValueView::HashMap(entries), ValueView::String(k)) => if op == 59 {
                    Outcome::Next(m.with_stack(rest.push(ValueView::Boolean(lookup(entries, k) is Some))).advanced())
                } else {
                    match lookup(entries, k) {
                        Some(v) => Outcome::Next(m.with_stack(rest.push(v)).advanced()),
                        None => Outcome::Failed("Key '"@ + k + "' not found in hashmap"@),
                    }
                },
                _ => Outcome::Failed(if op == 59 {
                    "Type error: 'contains-key?' expects a hashmap and a string key, got "@
                } else {
                    "Type error: 'get' expects a hashmap and a string key, got "@
                } + type_name_of(a) + " and "@ + type_name_of(b)),
            }
        }
    }
}

/// A step of `VectorSet` or `HashMapSet` on the three values on top.
pub open spec fn collection_set_step(m: MachineView, op: u8) -> Outcome {
    if m.stack.len() < 3 {
        Outcome::Failed(if op == 63 { "Stack underflow in VectorSet"@ } else { "Stack underflow in HashMapSet"@ })
    } else {
        let c = m.stack[m.stack.len() - 3];
        let k = m.stack[m.stack.len() - 2];
        let v = m.stack.last();
        let rest = drop_top(m.stack, 3);
        if op == 63 {
            match (c, k) {
                (ValueView::Vector(items), ValueView::Integer(idx)) => if idx < 0 || idx >= items.len() {
                    Outcome::Failed(index_error("vector-set!"@, idx, items.len(), "vector"@))
                } else {
                    Outcome::Next(m.with_stack(rest.push(ValueView::Vector(items.update(idx as int, v)))).advanced())
                },
                _ => Outcome::Failed("Type error: 'vector-set!' expects a vector, an integer, and a value, got "@
                    + type_name_of(c) + " and "@ + type_name_of(k)),
            }
        } else {
            match (c, k) {
                (ValueView::HashMap(entries), ValueView::String(key)) => Outcome::Next(
                    m.with_stack(rest.push(ValueView::HashMap(insert_entry(entries, key, v)))).advanced(),
                ),
                _ => Outcome::Failed("Type error: 'set' expects a hashmap and a string key, got "@ + type_name_of(c)
                    + " and "@ + type_name_of(k)),
            }
        }
    }
}

/// A step of `VectorPop`: the vector without its last item, then the item.
pub open spec fn vector_pop_step(m: MachineView) -> Outcome {
    if m.stack.len() == 0 {
        Outcome::Failed("Stack underflow in VectorPop"@)
    } else {
        match m.stack.last() {
            ValueView::Vector(items) => if items.len() == 0 {
                Outcome::Failed("'vector-pop!' cannot pop from empty vector"@)
            } else {
                Outcome::Next(m.with_stack(m.stack.drop_last().push(ValueView::Vector(items.drop_last())).push(items.last())).advanced())
            },
            v => Outcome::Failed("Type error: 'vector-pop!' expects a vector, got "@ + type_name_of(v)),
        }
    }
}

/// The position of the first key among `items` (keys at even positions)
/// from pair `i` on that is not a string, or `n`.
pub open spec fn first_bad_key(items: Seq<ValueView>, n: int, i: int) -> int
    decreases n - i,
{
    if i >= n || i < 0 {
        n
    } else if !(items[2 * i] is String) {
        i
    } else {
        first_bad_key(items, n, i + 1)
    }
}

proof fn lemma_no_bad_key(items: Seq<ValueView>, n: int, i: int)
    requires
        0 <= i,
        first_bad_key(items, n, i) == n,
    ensures
        forall|j: int| i <= j < n ==> (#[trigger] items[2 * j]) is String,
    decreases n - i,
{
    if i < n {
        lemma_no_bad_key(items, n, i + 1);
    }
}

/// A step of `MakeHashMap` with `n` key-value pairs.
pub open spec fn make_map_step(m: MachineView, n: usize) -> Outcome {
    if m.stack.len() < 2 * n {
        Outcome::Failed("Stack underflow in MakeHashMap"@)
    } else {
        let items = top(m.stack, (2 * n) as nat);
        let bad = first_bad_key(items, n as int, 0);
        if bad < n {
            Outcome::Failed("Type error: hashmap keys must be strings, got "@ + type_name_of(items[2 * bad]))
        } else {
            let pairs = Seq::new(n as nat, |i: int| (items[2 * i]->String_0, items[2 * i + 1]));
            Outcome::Next(m.with_stack(drop_top(m.stack, (2 * n) as nat).push(ValueView::HashMap(insert_all(Seq::empty(), pairs)))).advanced())
        }
    }
}

/// One step of the machine.
pub open spec fn step(m: MachineView) -> Outcome {
    if m.ip >= m.code.len() {
        if m.resumes.len() > 0 {
            Outcome::Next(resume(m))
        } else {
            Outcome::Next(MachineView { halted: true, ..m })
        }
    } else {
        match m.code[m.ip as int] {
            InstrView::Push(v) => Outcome::Next(m.with_stack(m.stack.push(v)).advanced()),
            InstrView::Simple(op) => simple_step(m, op),
            InstrView::Indexed(op, a) => indexed_step(m, op, a),
            InstrView::Call(name, n) => call_step(m, name, n, false),
            InstrView::TailCall(name, n) => call_step(m, name, n, true),
            InstrView::CheckArity(k, addr) => if m.frames.len() == 0 {
                Outcome::Failed("No frame for arity check"@)
            } else if m.frames.last().locals.len() != k {
                Outcome::Next(MachineView { ip: addr, ..m })
            } else {
                Outcome::Next(m.advanced())
            },
            InstrView::LoadGlobal(name) => match lookup(m.globals, name) {
                Some(v) => Outcome::Next(m.with_stack(m.stack.push(v)).advanced()),
                None => Outcome::Failed("Undefined global variable '"@ + name + "'"@),
            },
            InstrView::StoreGlobal(name) => if m.stack.len() == 0 {
                Outcome::Failed("Stack underflow in StoreGlobal"@)
            } else {
                Outcome::Next(MachineView {
                    stack: m.stack.drop_last(),
                    globals: insert_entry(m.globals, name, m.stack.last()),
                    ..m
                }.advanced())
            },
            InstrView::MakeClosure(params, body, n) => make_closure_step(m, params, None, body, n, "MakeClosure"@),
            InstrView::MakeVariadicClosure(params, rest, body, n) => make_closure_step(
                m,
                params,
                Some(rest),
                body,
                n,
                "MakeVariadicClosure"@,
            ),
            InstrView::FfiCall(..) => Outcome::Failed("Unsupported instruction: FfiCall"@),
        }
    }
}

/// Whether the step stays within Rust's machine arithmetic: integer
/// arithmetic does not overflow, and a local's position fits a `usize`.
pub open spec fn step_fits(m: MachineView) -> bool {
    m.ip < m.code.len() ==> match m.code[m.ip as int] {
        InstrView::Simple(op) => {
            &&& (is_arith(op) && m.stack.len() >= 2 && m.stack[m.stack.len() - 2] is Integer && m.stack.last() is Integer
                && !((op == OP_DIV || op == OP_MOD) && m.stack.last()->Integer_0 == 0))
                ==> !int_fold_overflows(m.stack[m.stack.len() - 2]->Integer_0, m.stack.last()->Integer_0, op)
            &&& (op == OP_NEG && m.stack.len() >= 1 && m.stack.last() is Integer) ==> m.stack.last()->Integer_0 != i64::MIN
            &&& request_fits(m, op)
        },
        InstrView::Indexed(op, a) => {
            &&& (op == 28 || op == 111) ==> m.base() + a <= usize::MAX
            &&& op == 112 ==> a <= m.stack.len()
            &&& (op == 113 && m.frames.len() > 0 && m.frames.last().loop_bindings_start is Some && a <= m.stack.len())
                ==> m.frames.last().loop_bindings_start->Some_0 + a <= m.stack.len() - a
        },
        _ => true,
    }
}

/// Whether what a step did matches its outcome, from the state `before`
/// to the state `after`.
pub open spec fn step_matches(o: Outcome, before: MachineView, r: Result<Effect, RuntimeError>, after: MachineView) -> bool {
    match o {
        Outcome::Next(m) => r is Ok && r->Ok_0 is Continue && after == m,
        Outcome::Output(m, v) => r is Ok && r->Ok_0 is Print && value_view(r->Ok_0->Print_0) == v && after == m,
        Outcome::Float(op, a, b) => r is Ok && r->Ok_0 is FloatArithmetic && r->Ok_0->FloatArithmetic_0 == op
            && value_view(r->Ok_0->FloatArithmetic_1) == a && value_view(r->Ok_0->FloatArithmetic_2) == b
            && after == before,
        Outcome::Ask(q) => r is Ok && r->Ok_0 is Request && request_view(r->Ok_0->Request_0) == q && after == before,
        Outcome::Drawn(m, d) => drawn_matches(m, d, r, after),
        Outcome::Failed(msg) => r is Err && r->Err_0.message@ == msg,
        Outcome::FailedAfter(msg, m) => r is Err && r->Err_0.message@ == msg && after == m,
    }
}

// ---------------------------------------------------------------------------
// Views of stack operations

proof fn lemma_push_view(s: Seq<Value>, v: Value)
    ensures
        values_view(s.push(v)) == values_view(s).push(value_view(v)),
{
    lemma_values_view_ext(s);
    lemma_values_view_ext(s.push(v));
    assert(values_view(s.push(v)) =~= values_view(s).push(value_view(v)));
}

proof fn lemma_split_view(s: Seq<Value>, at: int)
    requires
        0 <= at <= s.len(),
    ensures
        values_view(s.subrange(0, at)) == values_view(s).subrange(0, at),
        values_view(s.subrange(at, s.len() as int)) == values_view(s).subrange(at, s.len() as int),
        values_view(s).len() == s.len(),
{
    lemma_values_view_ext(s);
    lemma_values_view_ext(s.subrange(0, at));
    lemma_values_view_ext(s.subrange(at, s.len() as int));
    assert(values_view(s.subrange(0, at)) =~= values_view(s).subrange(0, at));
    assert(values_view(s.subrange(at, s.len() as int)) =~= values_view(s).subrange(at, s.len() as int));
}

pub(crate) proof fn lemma_last_view(s: Seq<Value>)
    requires
        s.len() > 0,
    ensures
        values_view(s).last() == value_view(s.last()),
        values_view(s.drop_last()) == values_view(s).drop_last(),
        values_view(s).len() == s.len(),
{
    lemma_values_view_ext(s);
    lemma_values_view_ext(s.drop_last());
    assert(values_view(s.drop_last()) =~= values_view(s).drop_last());
}

pub(crate) fn failure(msg: String) -> (r: Result<Effect, RuntimeError>)
    ensures
        r is Err && r->Err_0.message == msg,
{
    Err(RuntimeError::new(msg))
}

fn op_title_str(op: u8) -> (r: &'static str)
    ensures
        r@ == op_title(op),
{
    if op == OP_ADD { "Add" } else if op == OP_SUB { "Sub" } else if op == OP_MUL { "Mul" }
    else if op == OP_DIV { "Div" } else if op == OP_MOD { "Mod" } else if op == OP_LEQ { "Leq" }
    else if op == OP_LT { "Lt" } else if op == OP_GT { "Gt" } else if op == OP_GTE { "Gte" }
    else if op == OP_EQ { "Eq" } else { "Neq" }
}

fn op_symbol_str(op: u8) -> (r: &'static str)
    ensures
        r@ == op_symbol(op),
{
    if op == OP_ADD { "+" } else if op == OP_SUB { "-" } else if op == OP_MUL { "*" }
    else if op == OP_DIV { "/" } else if op == OP_MOD { "%" } else if op == OP_LEQ { "<=" }
    else if op == OP_LT { "<" } else if op == OP_GT { ">" } else { ">=" }
}

fn type_test_title_str(op: u8) -> (r: &'static str)
    ensures
        r@ == type_test_title(op),
{
    if op == 23 { "IsList" } else if op == 24 { "IsString" } else if op == 25 { "IsSymbol" }
    else if op == 60 { "IsHashMap" } else if op == 67 { "IsVector" } else if op == 68 { "IsInteger" }
    else if op == 69 { "IsBoolean" } else if op == 70 { "IsFunction" } else if op == 71 { "IsClosure" }
    else if op == 72 { "IsProcedure" } else if op == 81 { "IsFloat" } else { "IsNumber" }
}

pub(crate) fn simple_name_str(op: u8) -> (r: &'static str)
    ensures
        r@ == simple_name(op),
{
    match simple_from_opcode(op) {
        Some(i) => name_of(&i),
        None => {
            proof {
                reveal_strlit("");
            }
            ""
        },
    }
}

fn indexed_name_str(op: u8) -> (r: &'static str)
    ensures
        r@ == indexed_name(op),
{
    match indexed_from_opcode(op, 0) {
        Some(i) => name_of(&i),
        None => {
            proof {
                reveal_strlit("");
            }
            ""
        },
    }
}

fn is_type(op: u8, v: &Value) -> (r: bool)
    requires
        type_test(op, ValueView::Integer(0)).is_some(),
    ensures
        r == type_test(op, value_view(*v)).unwrap(),
{
    match v {
        Value::List(_) => op == 23,
        Value::String(_) => op == 24,
        Value::Symbol(_) => op == 25,
        Value::HashMap(_) => op == 60,
        Value::Vector(_) => op == 67,
        Value::Integer(_) => op == 68 || op == 82,
        Value::Boolean(_) => op == 69,
        Value::Function(_) => op == 70 || op == 72,
        Value::Closure(_) => op == 71 || op == 72,
        Value::Float(_) => op == 81 || op == 82,
        Value::Pointer(_) => false,
    }
}

/// Whether two values may be compared here.
fn can_compare(a: &Value, b: &Value) -> (r: bool)
    ensures
        r == comparable(value_view(*a), value_view(*b)),
    decreases *a,
{
    match (a, b) {
        (Value::List(xs), Value::List(ys)) => {
            proof {
                assert(value_view(*a) == ValueView::List(values_view(xs.items@)));
                assert(value_view(*b) == ValueView::List(values_view(ys.items@)));
                lemma_comparable_items(values_view(xs.items@), values_view(ys.items@));
            }
            all_comparable(&xs.items, &ys.items)
        },
        (Value::Vector(xs), Value::Vector(ys)) => {
            proof {
                lemma_comparable_items(values_view(xs@), values_view(ys@));
            }
            all_comparable(xs, ys)
        },
        (Value::HashMap(_), Value::HashMap(_)) => false,
        (Value::Closure(_), Value::Closure(_)) => false,
        _ => true,
    }
}

fn all_comparable(xs: &Vec<Value>, ys: &Vec<Value>) -> (r: bool)
    ensures
        r == (values_view(xs@).len() == values_view(ys@).len() ==> forall|k: int|
            0 <= k < values_view(xs@).len() ==> comparable(#[trigger] values_view(xs@)[k], values_view(ys@)[k])),
    decreases *xs,
{
    proof {
        lemma_values_view_len(xs@);
        lemma_values_view_len(ys@);
    }
    if xs.len() != ys.len() {
        return true;
    }
    let mut k: usize = 0;
    while k < xs.len()
        invariant
            k <= xs@.len(),
            xs@.len() == ys@.len(),
            values_view(xs@).len() == xs@.len(),
            values_view(ys@).len() == ys@.len(),
            forall|j: int| 0 <= j < k ==> comparable(#[trigger] values_view(xs@)[j], values_view(ys@)[j]),
        decreases xs@.len() - k,
    {
        proof {
            lemma_values_view_index(xs@, k as int);
            lemma_values_view_index(ys@, k as int);
        }
        if !can_compare(&xs[k], &ys[k]) {
            return false;
        }
        k = k + 1;
    }
    true
}

proof fn lemma_comparable_items(xv: Seq<ValueView>, yv: Seq<ValueView>)
    ensures
        comparable(ValueView::List(xv), ValueView::List(yv)) == (xv.len() == yv.len() ==> forall|k: int|
            0 <= k < xv.len() ==> comparable(#[trigger] xv[k], yv[k])),
        comparable(ValueView::Vector(xv), ValueView::Vector(yv)) == (xv.len() == yv.len() ==> forall|k: int|
            0 <= k < xv.len() ==> comparable(#[trigger] xv[k], yv[k])),
{
}

/// Equality of two values that may be compared here.
fn values_equal(a: &Value, b: &Value) -> (r: bool)
    requires
        comparable(value_view(*a), value_view(*b)),
    ensures
        r == values_eq(value_view(*a), value_view(*b)),
    decreases *a,
{
    match (a, b) {
        (Value::Integer(x), Value::Integer(y)) => *x == *y,
        (Value::Float(x), Value::Float(y)) => {
            let nx = (*x & 0x7FF0_0000_0000_0000) == 0x7FF0_0000_0000_0000 && (*x & 0x000F_FFFF_FFFF_FFFF) != 0;
            let ny = (*y & 0x7FF0_0000_0000_0000) == 0x7FF0_0000_0000_0000 && (*y & 0x000F_FFFF_FFFF_FFFF) != 0;
            (nx && ny) || (!nx && !ny && (*x == *y || ((*x == 0 || *x == SIGN_BIT) && (*y == 0 || *y == SIGN_BIT))))
        },
        (Value::Boolean(x), Value::Boolean(y)) => *x == *y,
        (Value::List(xs), Value::List(ys)) => {
            proof {
                let xv = values_view(xs.items@);
                let yv = values_view(ys.items@);
                assert(value_view(*a) == ValueView::List(xv));
                assert(value_view(*b) == ValueView::List(yv));
                lemma_comparable_items(xv, yv);
            }
            all_equal(&xs.items, &ys.items)
        },
        (Value::Symbol(x), Value::Symbol(y)) => *x == *y,
        (Value::String(x), Value::String(y)) => *x == *y,
        (Value::Function(x), Value::Function(y)) => *x == *y,
        (Value::Vector(xs), Value::Vector(ys)) => {
            proof {
                let xv = values_view(xs@);
                let yv = values_view(ys@);
                assert(value_view(*a) == ValueView::Vector(xv));
                assert(value_view(*b) == ValueView::Vector(yv));
                lemma_comparable_items(xv, yv);
            }
            all_equal(xs, ys)
        },
        (Value::Pointer(x), Value::Pointer(y)) => *x == *y,
        _ => false,
    }
}

fn all_equal(xs: &Vec<Value>, ys: &Vec<Value>) -> (r: bool)
    requires
        values_view(xs@).len() == values_view(ys@).len() ==> forall|k: int|
            0 <= k < values_view(xs@).len() ==> comparable(#[trigger] values_view(xs@)[k], values_view(ys@)[k]),
    ensures
        r == (values_view(xs@).len() == values_view(ys@).len() && forall|k: int|
            0 <= k < values_view(xs@).len() ==> values_eq(#[trigger] values_view(xs@)[k], values_view(ys@)[k])),
    decreases *xs,
{
    proof {
        lemma_values_view_len(xs@);
        lemma_values_view_len(ys@);
    }
    if xs.len() != ys.len() {
        return false;
    }
    let mut k: usize = 0;
    while k < xs.len()
        invariant
            k <= xs@.len(),
            xs@.len() == ys@.len(),
            values_view(xs@).len() == xs@.len(),
            values_view(ys@).len() == ys@.len(),
            forall|j: int| 0 <= j < xs@.len() ==> comparable(#[trigger] values_view(xs@)[j], values_view(ys@)[j]),
            forall|j: int| 0 <= j < k ==> values_eq(#[trigger] values_view(xs@)[j], values_view(ys@)[j]),
        decreases xs@.len() - k,
    {
        proof {
            lemma_values_view_index(xs@, k as int);
            lemma_values_view_index(ys@, k as int);
        }
        if !values_equal(&xs[k], &ys[k]) {
            return false;
        }
        k = k + 1;
    }
    true
}

// ---------------------------------------------------------------------------
// Running the machine

pub(crate) fn function_index(functions: &FunctionTable, name: &String) -> (i: usize)
    ensures
        i == key_index(table_view(functions@), name@),
{
    let ghost tv = table_view(functions@);
    let mut i: usize = 0;
    while i < functions.len() && !(functions[i].0 == *name)
        invariant
            i <= functions@.len(),
            tv == table_view(functions@),
            forall|j: int| 0 <= j < i ==> tv[j].0 != name@,
        decreases functions@.len() - i,
    {
        i = i + 1;
    }
    proof {
        lemma_key_index(tv, name@);
        let ki = key_index(tv, name@);
        if ki < i {
            assert(tv[ki].0 == name@);
        } else if i < ki {
            assert(tv[i as int].0 != name@);
        }
    }
    i
}

fn global_index(globals: &Vec<(String, Value)>, name: &String) -> (i: usize)
    ensures
        i == key_index(pairs_view(globals@), name@),
        i <= globals@.len(),
{
    let ghost pv = pairs_view(globals@);
    proof {
        lemma_pairs_view_len(globals@);
    }
    let mut i: usize = 0;
    while i < globals.len() && !(globals[i].0 == *name)
        invariant
            i <= globals@.len(),
            pv == pairs_view(globals@),
            pv.len() == globals@.len(),
            forall|j: int| 0 <= j < i ==> pv[j].0 != name@,
        decreases globals@.len() - i,
    {
        proof {
            lemma_pairs_view_index(globals@, i as int);
        }
        i = i + 1;
    }
    proof {
        lemma_key_index(pv, name@);
        let ki = key_index(pv, name@);
        if ki < i {
            assert(pv[ki].0 == name@);
        } else if i < ki {
            lemma_pairs_view_index(globals@, i as int);
            assert(pv[i as int].0 != name@);
        }
    }
    i
}

impl VM {
    /// A machine with the builtin functions, no code, and empty stacks.
    pub fn new() -> (r: Self)
        ensures
            r.state() == (MachineView {
                ip: 0,
                stack: Seq::empty(),
                frames: Seq::empty(),
                functions: builtin_table(),
                code: Seq::empty(),
                halted: false,
                globals: Seq::empty(),
                args: Seq::empty(),
                resumes: Seq::empty(),
                modules: Seq::empty(),
            }),
            r.args@.len() == 0,
            r.loaded_modules@.len() == 0,
    {
        let vm = VM {
            instruction_pointer: 0,
            value_stack: Vec::new(),
            call_stack: Vec::new(),
            functions: builtin_functions(),
            current_bytecode: Vec::new(),
            halted: false,
            global_vars: Vec::new(),
            args: Vec::new(),
            loaded_modules: Vec::new(),
            resumes: Vec::new(),
        };
        proof {
            assert(values_view(vm.value_stack@) =~= Seq::empty());
            assert(instrs_view(vm.current_bytecode@) =~= Seq::empty());
            assert(pairs_view(vm.global_vars@) =~= Seq::empty());
            assert(frames_view(vm.call_stack@) =~= Seq::empty());
        }
        vm
    }

    /// Defines (or redefines) a function.
    pub fn define_function(&mut self, name: String, code: Vec<Instruction>)
        ensures
            final(self).state() == (MachineView {
                functions: insert_entry(old(self).state().functions, name@, instrs_view(code@)),
                ..old(self).state()
            }),
            final(self).args == old(self).args,
            final(self).loaded_modules == old(self).loaded_modules,
    {
        insert_function(&mut self.functions, name, code);
    }

    /// The names of the active functions, outermost first.
    pub fn get_stack_trace(&self) -> (r: Vec<String>)
        ensures
            r@.len() == self.call_stack@.len(),
            forall|k: int| 0 <= k < r@.len() ==> #[trigger] r@[k]@ == self.call_stack@[k].function_name@,
    {
        let mut r: Vec<String> = Vec::new();
        let mut k: usize = 0;
        while k < self.call_stack.len()
            invariant
                k <= self.call_stack@.len(),
                r@.len() == k,
                forall|j: int| 0 <= j < k ==> #[trigger] r@[j]@ == self.call_stack@[j].function_name@,
            decreases self.call_stack@.len() - k,
        {
            r.push(self.call_stack[k].function_name.clone());
            k = k + 1;
        }
        r
    }

    pub(crate) fn pop_value(&mut self) -> (v: Value)
        requires
            old(self).value_stack@.len() > 0,
        ensures
            value_view(v) == old(self).state().stack.last(),
            final(self).state() == old(self).state().with_stack(old(self).state().stack.drop_last()),
            final(self).value_stack@.len() + 1 == old(self).value_stack@.len(),
            final(self).instruction_pointer == old(self).instruction_pointer,
            final(self).current_bytecode == old(self).current_bytecode,
            final(self).args == old(self).args,
            final(self).loaded_modules == old(self).loaded_modules,
    {
        proof {
            lemma_last_view(self.value_stack@);
        }
        self.value_stack.pop().unwrap()
    }

    pub(crate) fn push_value(&mut self, v: Value)
        ensures
            final(self).state() == old(self).state().with_stack(old(self).state().stack.push(value_view(v))),
            final(self).value_stack@.len() == old(self).value_stack@.len() + 1,
            final(self).instruction_pointer == old(self).instruction_pointer,
            final(self).current_bytecode == old(self).current_bytecode,
            final(self).args == old(self).args,
            final(self).loaded_modules == old(self).loaded_modules,
    {
        proof {
            lemma_push_view(self.value_stack@, v);
        }
        self.value_stack.push(v);
    }

    pub(crate) fn advance(&mut self)
        requires
            old(self).instruction_pointer < usize::MAX,
        ensures
            final(self).state() == old(self).state().advanced(),
            final(self).value_stack == old(self).value_stack,
            final(self).args == old(self).args,
            final(self).loaded_modules == old(self).loaded_modules,
    {
        self.instruction_pointer = self.instruction_pointer + 1;
    }

    /// Finishes a floating-point step: the two operands on top of the stack
    /// give way to the result the host computed, and the machine moves on.
    pub fn finish_float(&mut self, result: Value)
        requires
            old(self).value_stack@.len() >= 2,
            old(self).instruction_pointer < usize::MAX,
        ensures
            final(self).state() == old(self).state().with_stack(
                drop_top(old(self).state().stack, 2).push(value_view(result)),
            ).advanced(),
            final(self).args == old(self).args,
            final(self).loaded_modules == old(self).loaded_modules,
    {
        let ghost m = self.state();
        self.pop_value();
        self.pop_value();
        self.push_value(result);
        self.advance();
        proof {
            assert(m.stack.drop_last().drop_last() =~= drop_top(m.stack, 2));
        }
    }
}

impl VM {
    /// The state at an operand-free instruction.
    pub open spec fn at_simple(&self, op: u8) -> bool {
        &&& self.instruction_pointer < self.current_bytecode@.len()
        &&& self.state().code[self.instruction_pointer as int] == InstrView::Simple(op)
        &&& step_fits(self.state())
    }

    fn exec_binary(&mut self, op: u8) -> (r: Result<Effect, RuntimeError>)
        requires
            old(self).at_simple(op),
            is_arith(op) || is_order(op) || op == OP_EQ || op == OP_NEQ,
        ensures
            step_matches(binary_step(old(self).state(), op), old(self).state(), r, final(self).state()),
            final(self).args == old(self).args,
            final(self).loaded_modules == old(self).loaded_modules,
    {
        let ghost m = self.state();
        proof {
            lemma_values_view_len(self.value_stack@);
            lemma_instrs_view_len(self.current_bytecode@);
        }
        let code_len = self.current_bytecode.len();
        assert(self.instruction_pointer < code_len);
        let len = self.value_stack.len();
        if len < 2 {
            return failure(text3("Stack underflow in ", op_title_str(op), " operation"));
        }
        proof {
            lemma_values_view_index(self.value_stack@, len - 1);
            lemma_values_view_index(self.value_stack@, len - 2);
        }
        let a = &self.value_stack[len - 2];
        let b = &self.value_stack[len - 1];
        let a_number = a.is_number();
        let b_number = b.is_number();
        if a_number && b_number {
            let b_zero = match b {
                Value::Integer(n) => *n == 0,
                Value::Float(f) => *f == 0 || *f == SIGN_BIT,
                _ => false,
            };
            if (op == OP_DIV || op == OP_MOD) && b_zero {
                self.pop_value();
                self.pop_value();
                proof {
                    assert(m.stack.drop_last().drop_last() =~= drop_top(m.stack, 2));
                }
                return failure(owned(if op == OP_DIV { "Division by zero" } else { "Modulo by zero" }));
            }
            match (a, b) {
                (Value::Integer(x), Value::Integer(y)) => {
                    let x = *x;
                    let y = *y;
                    let folded = fold_int_int(x, y, op);
                    let v = folded.unwrap();
                    self.pop_value();
                    self.pop_value();
                    self.push_value(v);
                    self.advance();
                    proof {
                        assert(m.stack.drop_last().drop_last() =~= drop_top(m.stack, 2));
                    }
                    Ok(Effect::Continue)
                },
                _ => {
                    let ca = copy_value(a);
                    let cb = copy_value(b);
                    Ok(Effect::FloatArithmetic(op, ca, cb))
                },
            }
        } else if op == OP_EQ || op == OP_NEQ {
            if !can_compare(a, b) {
                let mut msg = text3("Unsupported comparison of ", value_type_name(a), " and ");
                push_str(&mut msg, value_type_name(b));
                return failure(msg);
            }
            let same = values_equal(a, b);
            let result = if op == OP_EQ { same } else { !same };
            self.pop_value();
            self.pop_value();
            self.push_value(Value::Boolean(result));
            self.advance();
            proof {
                assert(m.stack.drop_last().drop_last() =~= drop_top(m.stack, 2));
            }
            Ok(Effect::Continue)
        } else {
            let mut msg = text3("Type error: '", op_symbol_str(op), "' expects two numbers, got ");
            push_str(&mut msg, value_type_name(a));
            push_str(&mut msg, " and ");
            push_str(&mut msg, value_type_name(b));
            failure(msg)
        }
    }
}

impl VM {
    fn exec_simple(&mut self, op: u8) -> (r: Result<Effect, RuntimeError>)
        requires
            old(self).at_simple(op),
        ensures
            step_matches(simple_step(old(self).state(), op), old(self).state(), r, final(self).state()),
            final(self).args == old(self).args,
    {
        let ghost m = self.state();
        proof {
            lemma_values_view_len(self.value_stack@);
            lemma_instrs_view_len(self.current_bytecode@);
        }
        let code_len = self.current_bytecode.len();
        assert(self.instruction_pointer < code_len);
        if op == OP_ADD || op == OP_SUB || op == OP_MUL || op == OP_DIV || op == OP_MOD || op == OP_LEQ || op == OP_LT
            || op == OP_GT || op == OP_GTE || op == OP_EQ || op == OP_NEQ {
            return self.exec_binary(op);
        }
        if op == OP_HALT {
            if self.resumes.len() > 0 {
                return self.exec_resume();
            }
            self.halted = true;
            return Ok(Effect::Continue);
        }
        if op == OP_RET {
            if self.call_stack.len() == 0 {
                return failure(owned("No frame to return from"));
            }
            let ghost frames = self.call_stack@;
            let f = self.call_stack.pop().unwrap();
            self.current_bytecode = f.return_bytecode;
            self.instruction_pointer = f.return_address;
            proof {
                assert(frames_view(self.call_stack@) =~= frames_view(frames).drop_last());
                assert(frames_view(frames).last() == frame_view(f));
            }
            return Ok(Effect::Continue);
        }
        if is_request_opcode(op) {
            return self.exec_request(op);
        }
        let len = self.value_stack.len();
        if op == 11 {
            if len == 0 {
                return failure(owned("Stack underflow in Print"));
            }
            proof {
                lemma_last_view(self.value_stack@);
            }
            let v = copy_value(&self.value_stack[len - 1]);
            self.advance();
            return Ok(Effect::Print(v));
        }
        if op == 20 {
            if len < 2 {
                return failure(owned("Stack underflow in Cons"));
            }
            let second = self.pop_value();
            let first = self.pop_value();
            let ghost fv = value_view(first);
            let ghost sv = value_view(second);
            let list = match second {
                Value::List(tail) => {
                    proof {
                        assert(sv == ValueView::List(values_view(tail.items@)));
                    }
                    List::cons(first, tail)
                },
                other => List::cons(first, List::cons(other, List::nil())),
            };
            self.push_value(Value::List(list));
            self.advance();
            proof {
                assert(m.stack.drop_last().drop_last() =~= drop_top(m.stack, 2));
                assert(seq![sv] =~= seq![sv] + Seq::<ValueView>::empty());
                assert(seq![fv] + seq![sv] =~= seq![fv, sv]);
            }
            return Ok(Effect::Continue);
        }
        if op == OP_NEG || op == 21 || op == 22 || op == 52 {
            if len == 0 {
                return failure(text2("Stack underflow in ", if op == OP_NEG {
                    "Neg operation"
                } else if op == 21 {
                    "Car"
                } else if op == 22 {
                    "Cdr"
                } else {
                    "ListLength"
                }));
            }
            let v = self.pop_value();
            let ghost vv = value_view(v);
            proof {
                assert(m.code[m.ip as int] == InstrView::Simple(op));
                assert(vv == m.stack.last());
            }
            let result: Result<Value, String> = if op == OP_NEG {
                match v {
                    Value::Integer(n) => {
                        proof {
                            assert(vv == ValueView::Integer(n));
                            assert(step_fits(m));
                            assert(m.stack.len() >= 1);
                            assert(n != i64::MIN);
                        }
                        Ok(Value::Integer(-n))
                    },
                    Value::Float(f) => Ok(Value::Float(f ^ SIGN_BIT)),
                    other => Err(text2("Type error: 'neg' expects a number, got ", value_type_name(&other))),
                }
            } else if op == 52 {
                match v {
                    Value::List(items) => {
                        let n = items.len();
                        Ok(Value::Integer(#[verifier::truncate] (n as i64)))
                    },
                    other => Err(text2("Type error: 'list-length' expects a list, got ", value_type_name(&other))),
                }
            } else {
                match v {
                    Value::List(items) => {
                        if items.is_nil() {
                            Err(owned(if op == 21 {
                                "'car' cannot take the first element of an empty list"
                            } else {
                                "'cdr' cannot take the rest of an empty list"
                            }))
                        } else if op == 21 {
                            Ok(copy_value(items.car().unwrap()))
                        } else {
                            Ok(Value::List(items.cdr().unwrap()))
                        }
                    },
                    other => Err(text2(
                        if op == 21 { "Type error: 'car' expects a list, got " } else { "Type error: 'cdr' expects a list, got " },
                        value_type_name(&other),
                    )),
                }
            };
            return match result {
                Ok(w) => {
                    self.push_value(w);
                    self.advance();
                    Ok(Effect::Continue)
                },
                Err(msg) => failure(msg),
            };
        }
        if op == 35 || op == 51 {
            return self.exec_list_pair(op);
        }
        if op == 48 {
            let mut items: Vec<Value> = Vec::new();
            let mut k: usize = 0;
            while k < self.args.len()
                invariant
                    k <= self.args@.len(),
                    values_view(items@) == string_values(names_view(self.args@).subrange(0, k as int)),
                decreases self.args@.len() - k,
            {
                let ghost before = items@;
                let v = Value::String(self.args[k].clone());
                items.push(v);
                proof {
                    lemma_push_view(before, v);
                    assert(string_values(names_view(self.args@).subrange(0, k + 1)) =~= string_values(
                        names_view(self.args@).subrange(0, k as int),
                    ).push(ValueView::String(self.args@[k as int]@)));
                }
                k = k + 1;
            }
            proof {
                assert(names_view(self.args@).subrange(0, self.args@.len() as int) =~= names_view(self.args@));
            }
            self.push_value(Value::List(List::from_vec(items)));
            self.advance();
            return Ok(Effect::Continue);
        }
        if op == 78 {
            return self.exec_apply();
        }
        if is_string_opcode(op) {
            return self.exec_string(op);
        }
        if op == 62 || op == 64 || op == 55 || op == 59 {
            return self.exec_collection_pair(op);
        }
        if op == 63 || op == 56 {
            return self.exec_collection_set(op);
        }
        if op == 65 {
            if len == 0 {
                return failure(owned("Stack underflow in VectorPop"));
            }
            let v = self.pop_value();
            return match v {
                Value::Vector(items) => {
                    let mut items = items;
                    if items.len() == 0 {
                        return failure(owned("'vector-pop!' cannot pop from empty vector"));
                    }
                    proof {
                        lemma_last_view(items@);
                    }
                    let last = items.pop().unwrap();
                    self.push_value(Value::Vector(items));
                    self.push_value(last);
                    self.advance();
                    Ok(Effect::Continue)
                },
                other => failure(text2("Type error: 'vector-pop!' expects a vector, got ", value_type_name(&other))),
            };
        }
        if op == 66 || op == 74 || op == 75 || op == 57 || op == 58 {
            if len == 0 {
                return failure(text2("Stack underflow in ", if op == 66 {
                    "VectorLength"
                } else if op == 74 {
                    "ListToVector"
                } else if op == 75 {
                    "VectorToList"
                } else if op == 57 {
                    "HashMapKeys"
                } else {
                    "HashMapValues"
                }));
            }
            let v = self.pop_value();
            let result: Result<Value, String> = if op == 66 {
                match v {
                    Value::Vector(items) => {
                        proof {
                            lemma_values_view_len(items@);
                        }
                        let n = items.len();
                        Ok(Value::Integer(#[verifier::truncate] (n as i64)))
                    },
                    other => Err(text2("Type error: 'vector-length' expects a vector, got ", value_type_name(&other))),
                }
            } else if op == 74 {
                match v {
                    Value::List(items) => Ok(Value::Vector(items.items)),
                    other => Err(text2("Type error: 'list->vector' expects a list, got ", value_type_name(&other))),
                }
            } else if op == 75 {
                match v {
                    Value::Vector(items) => Ok(Value::List(List::from_vec(items))),
                    other => Err(text2("Type error: 'vector->list' expects a vector, got ", value_type_name(&other))),
                }
            } else {
                match v {
                    Value::HashMap(entries) => Ok(Value::List(List::from_vec(entry_list(&entries, op == 57)))),
                    other => Err(text2(
                        if op == 57 { "Type error: 'keys' expects a hashmap, got " } else { "Type error: 'values' expects a hashmap, got " },
                        value_type_name(&other),
                    )),
                }
            };
            return match result {
                Ok(w) => {
                    self.push_value(w);
                    self.advance();
                    Ok(Effect::Continue)
                },
                Err(msg) => failure(msg),
            };
        }
        if op == 23 || op == 24 || op == 25 || op == 60 || op == 67 || op == 68 || op == 69 || op == 70 || op == 71
            || op == 72 || op == 81 || op == 82 {
            if len == 0 {
                return failure(text2("Stack underflow in ", type_test_title_str(op)));
            }
            let v = self.pop_value();
            let b = is_type(op, &v);
            self.push_value(Value::Boolean(b));
            self.advance();
            return Ok(Effect::Continue);
        }
        failure(text2("Unsupported instruction: ", simple_name_str(op)))
    }
}

impl VM {
    /// The state at an instruction with one numeric operand.
    pub open spec fn at_indexed(&self, op: u8, a: usize) -> bool {
        &&& self.instruction_pointer < self.current_bytecode@.len()
        &&& self.state().code[self.instruction_pointer as int] == InstrView::Indexed(op, a)
        &&& step_fits(self.state())
    }

    fn exec_indexed(&mut self, op: u8, a: usize) -> (r: Result<Effect, RuntimeError>)
        requires
            old(self).at_indexed(op, a),
        ensures
            step_matches(indexed_step(old(self).state(), op, a), old(self).state(), r, final(self).state()),
            final(self).args == old(self).args,
            final(self).loaded_modules == old(self).loaded_modules,
    {
        let ghost m = self.state();
        proof {
            lemma_values_view_len(self.value_stack@);
            lemma_instrs_view_len(self.current_bytecode@);
        }
        let code_len = self.current_bytecode.len();
        assert(self.instruction_pointer < code_len);
        let len = self.value_stack.len();
        if op == 7 {
            self.instruction_pointer = a;
            return Ok(Effect::Continue);
        }
        if op == 6 {
            if len == 0 {
                return failure(owned("Stack underflow in JmpIfFalse operation"));
            }
            let v = self.pop_value();
            return match v {
                Value::Boolean(false) => {
                    self.instruction_pointer = a;
                    Ok(Effect::Continue)
                },
                Value::Boolean(true) => {
                    self.advance();
                    Ok(Effect::Continue)
                },
                other => failure(text2("Type error: conditional expects boolean, got ", value_type_name(&other))),
            };
        }
        if op == OP_LOAD_ARG {
            let depth = self.call_stack.len();
            if depth == 0 {
                return failure(owned("No frame to load arg from"));
            }
            proof {
                assert(frames_view(self.call_stack@).last() == frame_view(self.call_stack@[depth - 1]));
                lemma_values_view_len(self.call_stack@[depth - 1].locals@);
            }
            if a >= self.call_stack[depth - 1].locals.len() {
                let mut msg = owned("Arg index ");
                push_usize(&mut msg, a);
                push_str(&mut msg, " out of bounds");
                return failure(msg);
            }
            proof {
                lemma_values_view_index(self.call_stack@[depth - 1].locals@, a as int);
            }
            let v = copy_value(&self.call_stack[depth - 1].locals[a]);
            self.push_value(v);
            self.advance();
            return Ok(Effect::Continue);
        }
        if op == 28 {
            let depth = self.call_stack.len();
            let base = if depth == 0 {
                0
            } else {
                proof {
                    assert(frames_view(self.call_stack@).last() == frame_view(self.call_stack@[depth - 1]));
                }
                self.call_stack[depth - 1].stack_base
            };
            proof {
                assert(base == m.base());
                assert(m.code[m.ip as int] == InstrView::Indexed(op, a));
            }
            let pos = base + a;
            if pos >= len {
                let mut msg = owned("Stack position ");
                push_usize(&mut msg, pos);
                push_str(&mut msg, " (base ");
                push_usize(&mut msg, base);
                push_str(&mut msg, " + offset ");
                push_usize(&mut msg, a);
                push_str(&mut msg, ") out of bounds");
                return failure(msg);
            }
            proof {
                lemma_values_view_index(self.value_stack@, pos as int);
            }
            let v = copy_value(&self.value_stack[pos]);
            self.push_value(v);
            self.advance();
            return Ok(Effect::Continue);
        }
        if op == 29 {
            if len < a {
                return failure(owned("Stack underflow during PopN"));
            }
            proof {
                lemma_split_view(self.value_stack@, (len - a) as int);
            }
            self.value_stack.truncate(len - a);
            self.advance();
            return Ok(Effect::Continue);
        }
        if op == 30 {
            if len == 0 || len - 1 < a {
                return failure(owned("Stack underflow during Slide"));
            }
            let result = self.pop_value();
            proof {
                lemma_split_view(self.value_stack@, (len - 1 - a) as int);
                assert(m.stack.drop_last().subrange(0, len - 1 - a) =~= drop_top(m.stack, (a + 1) as nat));
            }
            self.value_stack.truncate(len - 1 - a);
            self.push_value(result);
            self.advance();
            return Ok(Effect::Continue);
        }
        if op == 33 {
            return self.exec_call_closure(a);
        }
        if op == 112 || op == 113 {
            proof {
                assert(m.code[m.ip as int] == InstrView::Indexed(op, a));
            }
            return self.exec_loop(op, a);
        }
        if op == 34 || op == 76 || op == 111 {
            return self.exec_frame_op(op, a);
        }
        if op == 36 || op == 61 {
            if len < a {
                return failure(owned(if op == 36 { "Stack underflow in MakeList" } else { "Stack underflow in MakeVector" }));
            }
            proof {
                lemma_split_view(self.value_stack@, (len - a) as int);
            }
            let items = self.value_stack.split_off(len - a);
            self.push_value(if op == 36 { Value::List(List::from_vec(items)) } else { Value::Vector(items) });
            self.advance();
            return Ok(Effect::Continue);
        }
        if op == 54 {
            return self.exec_make_map(a);
        }
        failure(text2("Unsupported instruction: ", indexed_name_str(op)))
    }
}

impl VM {
    fn exec_call(&mut self, name: String, n: usize, tail: bool) -> (r: Result<Effect, RuntimeError>)
        requires
            old(self).instruction_pointer < old(self).current_bytecode@.len(),
        ensures
            step_matches(call_step(old(self).state(), name@, n, tail), old(self).state(), r, final(self).state()),
            final(self).args == old(self).args,
            final(self).loaded_modules == old(self).loaded_modules,
    {
        let ghost m = self.state();
        proof {
            lemma_values_view_len(self.value_stack@);
            lemma_instrs_view_len(self.current_bytecode@);
            lemma_key_index(table_view(self.functions@), name@);
        }
        let code_len = self.current_bytecode.len();
        assert(self.instruction_pointer < code_len);
        let i = function_index(&self.functions, &name);
        if i >= self.functions.len() {
            return failure(text3("Undefined function '", name.as_str(), "'"));
        }
        let code = copy_instructions(&self.functions[i].1);
        assert(lookup(m.functions, name@) == Some(instrs_view(code@)));
        let len = self.value_stack.len();
        if len < n {
            return failure(owned(if tail { "Stack underflow in TailCall" } else { "Stack underflow in Call" }));
        }
        proof {
            lemma_split_view(self.value_stack@, (len - n) as int);
        }
        let args = self.value_stack.split_off(len - n);
        let ghost args_view = values_view(args@);
        let ghost rest = values_view(self.value_stack@);
        assert(args_view == top(m.stack, n as nat));
        assert(rest == drop_top(m.stack, n as nat));
        let depth = self.call_stack.len();
        if tail && depth > 0 {
            let ghost frames = self.call_stack@;
            let mut f = self.call_stack.pop().unwrap();
            proof {
                assert(frames_view(frames).last() == frame_view(f));
            }
            let base = f.stack_base;
            proof {
                lemma_split_view(self.value_stack@, if base <= self.value_stack@.len() { base as int } else { self.value_stack@.len() as int });
            }
            self.value_stack.truncate(base);
            f.locals = args;
            f.function_name = name;
            self.call_stack.push(f);
            proof {
                assert(frames_view(self.call_stack@) =~= frames_view(frames).update(
                    frames.len() - 1,
                    FrameView { locals: args_view, name: name@, ..frames_view(frames).last() },
                ));
                if base > rest.len() {
                    assert(values_view(self.value_stack@) =~= rest);
                }
            }
        } else {
            let ghost frames = self.call_stack@;
            let mut return_code = code;
            std::mem::swap(&mut self.current_bytecode, &mut return_code);
            let frame = Frame {
                return_address: self.instruction_pointer + 1,
                locals: args,
                return_bytecode: return_code,
                function_name: name,
                captured: Vec::new(),
                stack_base: self.value_stack.len(),
                loop_start: None,
                loop_bindings_start: None,
                loop_bindings_count: None,
            };
            proof {
                assert(values_view(frame.captured@) =~= Seq::<ValueView>::empty());
            }
            self.call_stack.push(frame);
            self.instruction_pointer = 0;
            proof {
                assert(frames_view(self.call_stack@) =~= frames_view(frames).push(frame_view(frame)));
            }
            return Ok(Effect::Continue);
        }
        self.current_bytecode = code;
        self.instruction_pointer = 0;
        Ok(Effect::Continue)
    }

    /// Runs the instruction at the instruction pointer, or halts when there is
    /// none. Floating-point arithmetic and printing come back as effects for
    /// the host.
    pub fn execute_one_instruction(&mut self) -> (r: Result<Effect, RuntimeError>)
        requires
            step_fits(old(self).state()),
        ensures
            step_matches(step(old(self).state()), old(self).state(), r, final(self).state()),
            final(self).args == old(self).args,
    {
        let ghost m = self.state();
        proof {
            lemma_instrs_view_len(self.current_bytecode@);
            lemma_values_view_len(self.value_stack@);
        }
        let ip = self.instruction_pointer;
        if ip >= self.current_bytecode.len() {
            if self.resumes.len() > 0 {
                return self.exec_resume();
            }
            self.halted = true;
            return Ok(Effect::Continue);
        }
        proof {
            lemma_instrs_view_index(self.current_bytecode@, ip as int);
        }
        let instr = copy_instruction(&self.current_bytecode[ip]);
        match instr {
            Instruction::Push(v) => {
                self.push_value(v);
                self.advance();
                Ok(Effect::Continue)
            },
            Instruction::Call(name, n) => self.exec_call(name, n, false),
            Instruction::TailCall(name, n) => self.exec_call(name, n, true),
            Instruction::CheckArity(k, addr) => {
                let depth = self.call_stack.len();
                if depth == 0 {
                    return failure(owned("No frame for arity check"));
                }
                proof {
                    assert(frames_view(self.call_stack@).last() == frame_view(self.call_stack@[depth - 1]));
                    lemma_values_view_len(self.call_stack@[depth - 1].locals@);
                }
                if self.call_stack[depth - 1].locals.len() != k {
                    self.instruction_pointer = addr;
                } else {
                    self.advance();
                }
                Ok(Effect::Continue)
            },
            Instruction::LoadGlobal(name) => {
                let i = global_index(&self.global_vars, &name);
                proof {
                    lemma_key_index(pairs_view(self.global_vars@), name@);
                    lemma_pairs_view_len(self.global_vars@);
                }
                if i >= self.global_vars.len() {
                    return failure(text3("Undefined global variable '", name.as_str(), "'"));
                }
                proof {
                    lemma_pairs_view_index(self.global_vars@, i as int);
                }
                let v = copy_value(&self.global_vars[i].1);
                self.push_value(v);
                self.advance();
                Ok(Effect::Continue)
            },
            Instruction::StoreGlobal(name) => {
                if self.value_stack.len() == 0 {
                    return failure(owned("Stack underflow in StoreGlobal"));
                }
                let v = self.pop_value();
                insert_pair(&mut self.global_vars, name, v);
                self.advance();
                Ok(Effect::Continue)
            },
            Instruction::MakeClosure(params, body, n) => self.exec_make_closure(params, None, body, n),
            Instruction::MakeVariadicClosure(params, rest, body, n) => self.exec_make_closure(params, Some(rest), body, n),
            Instruction::FfiCall(..) => failure(owned("Unsupported instruction: FfiCall")),
            other => {
                proof {
                    lemma_classify(other);
                }
                match opcode_of_simple(&other) {
                    Some(op) => {
                        proof {
                            lemma_simple_view(other);
                        }
                        self.exec_simple(op)
                    },
                    None => {
                        let (op, a) = opcode_of_indexed(&other).unwrap();
                        proof {
                            lemma_indexed_view(other);
                        }
                        self.exec_indexed(op, a)
                    },
                }
            },
        }
    }
}

/// The name of the `i`th captured value.
fn captured_name(i: usize) -> (r: String)
    ensures
        r@ == "__captured_"@ + decimal(i as nat),
{
    let mut s = owned("__captured_");
    push_usize(&mut s, i);
    s
}

proof fn lemma_values_view_append(a: Seq<Value>, b: Seq<Value>)
    ensures
        values_view(a + b) == values_view(a) + values_view(b),
{
    lemma_values_view_ext(a);
    lemma_values_view_ext(b);
    lemma_values_view_ext(a + b);
    assert(values_view(a + b) =~= values_view(a) + values_view(b));
}

impl VM {
    fn exec_make_closure(&mut self, params: Vec<String>, rest: Option<String>, body: Vec<Instruction>, n: usize) -> (r: Result<Effect, RuntimeError>)
        requires
            old(self).instruction_pointer < old(self).current_bytecode@.len(),
        ensures
            step_matches(
                make_closure_step(
                    old(self).state(),
                    crate::value::names_view(params@),
                    crate::value::opt_name_view(rest),
                    instrs_view(body@),
                    n,
                    if rest is Some { "MakeVariadicClosure"@ } else { "MakeClosure"@ },
                ),
                old(self).state(),
                r,
                final(self).state(),
            ),
            final(self).args == old(self).args,
            final(self).loaded_modules == old(self).loaded_modules,
    {
        let ghost m = self.state();
        proof {
            lemma_values_view_len(self.value_stack@);
        }
        let code_len = self.current_bytecode.len();
        assert(self.instruction_pointer < code_len);
        let len = self.value_stack.len();
        if len < n {
            return failure(text2("Stack underflow during ", if rest.is_some() { "MakeVariadicClosure" } else { "MakeClosure" }));
        }
        proof {
            lemma_split_view(self.value_stack@, (len - n) as int);
        }
        let values = self.value_stack.split_off(len - n);
        let ghost vv = values_view(values@);
        proof {
            lemma_values_view_ext(values@);
        }
        let mut captured: Vec<(String, Value)> = Vec::new();
        let mut values = values;
        let mut rev: Vec<Value> = Vec::new();
        while values.len() > 0
            invariant
                rev@.len() + values@.len() == n,
                forall|k: int| 0 <= k < values@.len() ==> value_view(#[trigger] values@[k]) == vv[k],
                forall|k: int| 0 <= k < rev@.len() ==> value_view(#[trigger] rev@[k]) == vv[n - 1 - k],
                vv.len() == n,
            decreases values@.len(),
        {
            let v = values.pop().unwrap();
            rev.push(v);
        }
        let mut i: usize = 0;
        while rev.len() > 0
            invariant
                i + rev@.len() == n,
                vv.len() == n,
                forall|k: int| 0 <= k < rev@.len() ==> value_view(#[trigger] rev@[k]) == vv[n - 1 - k],
                captured@.len() == i,
                forall|k: int| 0 <= k < i ==> #[trigger] captured@[k].0@ == "__captured_"@ + decimal(k as nat)
                    && value_view(captured@[k].1) == vv[k],
            decreases rev@.len(),
        {
            let v = rev.pop().unwrap();
            let ghost before = captured@;
            let name = captured_name(i);
            captured.push((name, v));
            proof {
                assert forall|k: int| 0 <= k < i + 1 implies #[trigger] captured@[k].0@ == "__captured_"@ + decimal(k as nat)
                    && value_view(captured@[k].1) == vv[k] by {
                    if k < i {
                        assert(captured@[k] == before[k]);
                    }
                }
            }
            i = i + 1;
        }
        proof {
            crate::value::lemma_pairs_view_ext(captured@);
            assert(pairs_view(captured@) =~= captured_pairs(vv));
        }
        let closure = Value::Closure(Box::new(crate::value::ClosureData { params, rest_param: rest, body, captured }));
        self.push_value(closure);
        self.advance();
        Ok(Effect::Continue)
    }

    fn exec_list_pair(&mut self, op: u8) -> (r: Result<Effect, RuntimeError>)
        requires
            old(self).instruction_pointer < old(self).current_bytecode@.len(),
            op == 35 || op == 51,
        ensures
            step_matches(list_pair_step(old(self).state(), op), old(self).state(), r, final(self).state()),
            final(self).args == old(self).args,
            final(self).loaded_modules == old(self).loaded_modules,
    {
        let ghost m = self.state();
        proof {
            lemma_values_view_len(self.value_stack@);
        }
        let code_len = self.current_bytecode.len();
        assert(self.instruction_pointer < code_len);
        let len = self.value_stack.len();
        if len < 2 {
            return failure(owned(if op == 35 { "Stack underflow in Append" } else { "Stack underflow in ListRef" }));
        }
        let b = self.pop_value();
        let a = self.pop_value();
        proof {
            assert(m.stack.drop_last().drop_last() =~= drop_top(m.stack, 2));
            assert(m.stack.drop_last().last() == m.stack[m.stack.len() - 2]);
        }
        if op == 35 {
            match (a, b) {
                (Value::List(xs), Value::List(ys)) => {
                    let mut items = xs.items;
                    let mut more = ys.items;
                    let ghost xi = items@;
                    let ghost yi = more@;
                    items.append(&mut more);
                    proof {
                        lemma_values_view_append(xi, yi);
                    }
                    self.push_value(Value::List(List::from_vec(items)));
                    self.advance();
                    Ok(Effect::Continue)
                },
                (a, b) => {
                    let mut msg = text2("Type error: 'append' expects two lists, got ", value_type_name(&a));
                    push_str(&mut msg, " and ");
                    push_str(&mut msg, value_type_name(&b));
                    failure(msg)
                },
            }
        } else {
            match (a, b) {
                (Value::List(xs), Value::Integer(idx)) => {
                    let n = xs.len();
                    if idx < 0 {
                        let mut msg = owned("'list-ref' index cannot be negative: ");
                        push_chars(&mut msg, &i64_decimal(idx));
                        return failure(msg);
                    }
                    if idx as u64 >= n as u64 {
                        let mut msg = owned("'list-ref' index ");
                        push_chars(&mut msg, &i64_decimal(idx));
                        push_str(&mut msg, " out of bounds for list of length ");
                        push_usize(&mut msg, n);
                        return failure(msg);
                    }
                    let k = idx as usize;
                    proof {
                        lemma_values_view_len(xs.items@);
                        lemma_values_view_index(xs.items@, k as int);
                    }
                    let v = copy_value(&xs.items[k]);
                    self.push_value(v);
                    self.advance();
                    Ok(Effect::Continue)
                },
                (a, b) => {
                    let mut msg = text2("Type error: 'list-ref' expects a list and an integer, got ", value_type_name(&a));
                    push_str(&mut msg, " and ");
                    push_str(&mut msg, value_type_name(&b));
                    failure(msg)
                },
            }
        }
    }

    fn exec_apply(&mut self) -> (r: Result<Effect, RuntimeError>)
        requires
            old(self).instruction_pointer < old(self).current_bytecode@.len(),
        ensures
            step_matches(apply_step(old(self).state()), old(self).state(), r, final(self).state()),
            final(self).args == old(self).args,
            final(self).loaded_modules == old(self).loaded_modules,
    {
        let ghost m = self.state();
        proof {
            lemma_values_view_len(self.value_stack@);
            lemma_instrs_view_len(self.current_bytecode@);
        }
        let code_len = self.current_bytecode.len();
        assert(self.instruction_pointer < code_len);
        if self.value_stack.len() == 0 {
            return failure(owned("Stack underflow in Apply"));
        }
        let list = self.pop_value();
        let args = match list {
            Value::List(l) => l.items,
            other => {
                return failure(text2("Type error in apply: expected list of arguments, got ", value_type_name(&other)));
            },
        };
        proof {
            lemma_values_view_len(self.value_stack@);
            lemma_values_view_len(args@);
        }
        if self.value_stack.len() == 0 {
            return failure(owned("Stack underflow in Apply"));
        }
        let callable = self.pop_value();
        let n = args.len();
        proof {
            assert(m.stack.drop_last().drop_last() =~= self.state().stack);
        }
        match callable {
            Value::Function(name) => {
                proof {
                    lemma_key_index(table_view(self.functions@), name@);
                }
                let i = function_index(&self.functions, &name);
                if i >= self.functions.len() {
                    return failure(text3("Undefined function '", name.as_str(), "'"));
                }
                let code = copy_instructions(&self.functions[i].1);
                assert(lookup(m.functions, name@) == Some(instrs_view(code@)));
                let no_values: Vec<Value> = Vec::new();
                assert(values_view(no_values@) =~= Seq::<ValueView>::empty());
                self.enter_code(args, name, no_values, code);
                Ok(Effect::Continue)
            },
            Value::Closure(data) => {
                let data = *data;
                let p = data.params.len();
                let captured_values = pair_values_exec(&data.captured);
                match data.rest_param {
                    None => {
                        if p != n {
                            let mut msg = owned("Closure arity mismatch in apply: expected ");
                            push_usize(&mut msg, p);
                            push_str(&mut msg, " argument(s), got ");
                            push_usize(&mut msg, n);
                            return failure(msg);
                        }
                        self.enter_code(args, owned("<closure>"), captured_values, data.body);
                        Ok(Effect::Continue)
                    },
                    Some(_) => {
                        if n < p {
                            let mut msg = owned("Variadic closure arity mismatch in apply: expected at least ");
                            push_usize(&mut msg, p);
                            push_str(&mut msg, " argument(s), got ");
                            push_usize(&mut msg, n);
                            return failure(msg);
                        }
                        let mut locals = args;
                        proof {
                            lemma_split_view(locals@, p as int);
                        }
                        let extra = locals.split_off(p);
                        let packed = Value::List(List::from_vec(extra));
                        proof {
                            lemma_push_view(locals@, packed);
                        }
                        locals.push(packed);
                        self.enter_code(locals, owned("<closure>"), captured_values, data.body);
                        Ok(Effect::Continue)
                    },
                }
            },
            other => failure(text2("Type error in apply: expected function or closure, got ", value_type_name(&other))),
        }
    }

    fn exec_call_closure(&mut self, n: usize) -> (r: Result<Effect, RuntimeError>)
        requires
            old(self).instruction_pointer < old(self).current_bytecode@.len(),
        ensures
            step_matches(call_closure_step(old(self).state(), n), old(self).state(), r, final(self).state()),
            final(self).args == old(self).args,
            final(self).loaded_modules == old(self).loaded_modules,
    {
        let ghost m = self.state();
        proof {
            lemma_values_view_len(self.value_stack@);
            lemma_instrs_view_len(self.current_bytecode@);
        }
        let code_len = self.current_bytecode.len();
        assert(self.instruction_pointer < code_len);
        let len = self.value_stack.len();
        if len == 0 || len - 1 < n {
            return failure(owned("Stack underflow in CallClosure"));
        }
        proof {
            lemma_split_view(self.value_stack@, (len - n) as int);
        }
        let args = self.value_stack.split_off(len - n);
        let callable = self.pop_value();
        proof {
            assert(values_view(args@) == top(m.stack, n as nat));
            assert(m.stack.subrange(0, len - n).drop_last() =~= drop_top(m.stack, (n + 1) as nat));
            assert(m.stack.subrange(0, len - n).last() == m.stack[m.stack.len() - n - 1]);
            lemma_values_view_len(self.value_stack@);
        }
        let ghost frames = self.call_stack@;
        match callable {
            Value::Function(name) => {
                proof {
                    lemma_key_index(table_view(self.functions@), name@);
                }
                let i = function_index(&self.functions, &name);
                if i >= self.functions.len() {
                    return failure(text3("Undefined function '", name.as_str(), "'"));
                }
                let code = copy_instructions(&self.functions[i].1);
                assert(lookup(m.functions, name@) == Some(instrs_view(code@)));
                let no_values: Vec<Value> = Vec::new();
                assert(values_view(no_values@) =~= Seq::<ValueView>::empty());
                self.enter_code(args, name, no_values, code);
                Ok(Effect::Continue)
            },
            Value::Closure(data) => {
                let data = *data;
                let p = data.params.len();
                let ghost cv = value_view(Value::Closure(Box::new(data)));
                let captured_values = pair_values_exec(&data.captured);
                match data.rest_param {
                    None => {
                        if p != n {
                            let mut msg = owned("Closure arity mismatch: expected ");
                            push_usize(&mut msg, p);
                            push_str(&mut msg, " argument(s), got ");
                            push_usize(&mut msg, n);
                            return failure(msg);
                        }
                        self.enter_code(args, owned("<closure>"), captured_values, data.body);
                        Ok(Effect::Continue)
                    },
                    Some(_) => {
                        if n < p {
                            let mut msg = owned("Variadic closure arity mismatch: expected at least ");
                            push_usize(&mut msg, p);
                            push_str(&mut msg, " argument(s), got ");
                            push_usize(&mut msg, n);
                            return failure(msg);
                        }
                        let mut locals = args;
                        let ghost av = values_view(locals@);
                        proof {
                            lemma_split_view(locals@, p as int);
                        }
                        let extra = locals.split_off(p);
                        let packed = Value::List(List::from_vec(extra));
                        proof {
                            lemma_push_view(locals@, packed);
                        }
                        locals.push(packed);
                        self.enter_code(locals, owned("<closure>"), captured_values, data.body);
                        Ok(Effect::Continue)
                    },
                }
            },
            other => failure(text2("Type error: expected function or closure, got ", value_type_name(&other))),
        }
    }

    /// Enters `code` with a new frame holding `locals`.
    fn enter_code(&mut self, locals: Vec<Value>, name: String, captured: Vec<Value>, code: Vec<Instruction>)
        requires
            old(self).instruction_pointer < usize::MAX,
        ensures
            final(self).state() == enter(
                old(self).state(),
                old(self).state().stack,
                values_view(locals@),
                name@,
                values_view(captured@),
                instrs_view(code@),
            ),
            final(self).args == old(self).args,
            final(self).loaded_modules == old(self).loaded_modules,
    {
        let ghost frames = self.call_stack@;
        proof {
            lemma_values_view_len(self.value_stack@);
        }
        let mut return_code = code;
        std::mem::swap(&mut self.current_bytecode, &mut return_code);
        let frame = Frame {
            return_address: self.instruction_pointer + 1,
            locals,
            return_bytecode: return_code,
            function_name: name,
            captured,
            stack_base: self.value_stack.len(),
            loop_start: None,
            loop_bindings_start: None,
            loop_bindings_count: None,
        };
        self.call_stack.push(frame);
        self.instruction_pointer = 0;
        proof {
            assert(frames_view(self.call_stack@) =~= frames_view(frames).push(frame_view(frame)));
        }
    }

    fn exec_frame_op(&mut self, op: u8, a: usize) -> (r: Result<Effect, RuntimeError>)
        requires
            old(self).instruction_pointer < old(self).current_bytecode@.len(),
            op == 34 || op == 76 || op == 111,
            op == 111 ==> old(self).state().base() + a <= usize::MAX,
        ensures
            step_matches(frame_step(old(self).state(), op, a), old(self).state(), r, final(self).state()),
            final(self).args == old(self).args,
            final(self).loaded_modules == old(self).loaded_modules,
    {
        let ghost m = self.state();
        proof {
            lemma_values_view_len(self.value_stack@);
        }
        let code_len = self.current_bytecode.len();
        assert(self.instruction_pointer < code_len);
        let depth = self.call_stack.len();
        if op == 34 {
            if depth == 0 {
                return failure(owned("No frame for LoadCaptured"));
            }
            proof {
                assert(frames_view(self.call_stack@).last() == frame_view(self.call_stack@[depth - 1]));
                lemma_values_view_len(self.call_stack@[depth - 1].captured@);
            }
            if a >= self.call_stack[depth - 1].captured.len() {
                let mut msg = owned("Captured variable index ");
                push_usize(&mut msg, a);
                push_str(&mut msg, " out of bounds");
                return failure(msg);
            }
            proof {
                lemma_values_view_index(self.call_stack@[depth - 1].captured@, a as int);
            }
            let v = copy_value(&self.call_stack[depth - 1].captured[a]);
            self.push_value(v);
            self.advance();
            return Ok(Effect::Continue);
        }
        if op == 76 {
            if depth == 0 {
                return failure(owned("No frame for PackRestArgs"));
            }
            let ghost frames = self.call_stack@;
            let mut f = self.call_stack.pop().unwrap();
            proof {
                assert(frames_view(frames).last() == frame_view(f));
                lemma_values_view_len(f.locals@);
            }
            let count = f.locals.len();
            if count < a {
                let mut msg = owned("Not enough arguments: expected at least ");
                push_usize(&mut msg, a);
                push_str(&mut msg, ", got ");
                push_usize(&mut msg, count);
                return failure(msg);
            }
            proof {
                lemma_split_view(f.locals@, a as int);
            }
            let extra = f.locals.split_off(a);
            let packed = Value::List(List::from_vec(extra));
            proof {
                lemma_push_view(f.locals@, packed);
            }
            f.locals.push(packed);
            self.call_stack.push(f);
            proof {
                assert(frames_view(self.call_stack@) =~= frames_view(frames).update(
                    frames.len() - 1,
                    FrameView { locals: values_view(f.locals@), ..frames_view(frames).last() },
                ));
            }
            self.advance();
            return Ok(Effect::Continue);
        }
        let base = if depth == 0 {
            0
        } else {
            proof {
                assert(frames_view(self.call_stack@).last() == frame_view(self.call_stack@[depth - 1]));
            }
            self.call_stack[depth - 1].stack_base
        };
        assert(base == m.base());
        let pos = base + a;
        if self.value_stack.len() == 0 {
            return failure(owned("Stack underflow in SetLocal"));
        }
        let v = self.pop_value();
        if pos >= self.value_stack.len() {
            let mut msg = owned("Stack position ");
            push_usize(&mut msg, pos);
            push_str(&mut msg, " (base ");
            push_usize(&mut msg, base);
            push_str(&mut msg, " + offset ");
            push_usize(&mut msg, a);
            push_str(&mut msg, ") out of bounds for SetLocal");
            return failure(msg);
        }
        let ghost before = self.value_stack@;
        self.value_stack.set(pos, v);
        proof {
            lemma_values_view_ext(before);
            lemma_values_view_ext(self.value_stack@);
            assert(values_view(self.value_stack@) =~= values_view(before).update(pos as int, value_view(v)));
        }
        self.advance();
        Ok(Effect::Continue)
    }
}

/// The values of (name, value) pairs, copied.
fn pair_values_exec(c: &Vec<(String, Value)>) -> (r: Vec<Value>)
    ensures
        values_view(r@) == pair_values(pairs_view(c@)),
{
    proof {
        crate::value::lemma_pairs_view_ext(c@);
    }
    let mut r: Vec<Value> = Vec::new();
    let mut k: usize = 0;
    while k < c.len()
        invariant
            k <= c@.len(),
            pairs_view(c@) == Seq::new(c@.len(), |i: int| (c@[i].0@, value_view(c@[i].1))),
            r@.len() == k,
            forall|j: int| 0 <= j < k ==> value_view(#[trigger] r@[j]) == value_view(c@[j].1),
        decreases c@.len() - k,
    {
        r.push(copy_value(&c[k].1));
        k = k + 1;
    }
    proof {
        lemma_values_view_ext(r@);
        assert(values_view(r@) =~= pair_values(pairs_view(c@)));
    }
    r
}

impl VM {
    fn exec_loop(&mut self, op: u8, a: usize) -> (r: Result<Effect, RuntimeError>)
        requires
            old(self).instruction_pointer < old(self).current_bytecode@.len(),
            op == 112 || op == 113,
            op == 112 ==> a <= old(self).state().stack.len(),
            (op == 113 && old(self).state().frames.len() > 0 && old(self).state().frames.last().loop_bindings_start is Some
                && a <= old(self).state().stack.len()) ==> old(self).state().frames.last().loop_bindings_start->Some_0 + a
                <= old(self).state().stack.len() - a,
        ensures
            step_matches(loop_step(old(self).state(), op, a), old(self).state(), r, final(self).state()),
            final(self).args == old(self).args,
            final(self).loaded_modules == old(self).loaded_modules,
    {
        let ghost m = self.state();
        proof {
            lemma_values_view_len(self.value_stack@);
        }
        let code_len = self.current_bytecode.len();
        assert(self.instruction_pointer < code_len);
        let depth = self.call_stack.len();
        let ghost frames = self.call_stack@;
        if op == 112 {
            let start = self.instruction_pointer + 1;
            let bindings = self.value_stack.len() - a;
            if depth > 0 {
                let mut f = self.call_stack.pop().unwrap();
                proof {
                    assert(frames_view(frames).last() == frame_view(f));
                }
                f.loop_start = Some(start);
                f.loop_bindings_start = Some(bindings);
                f.loop_bindings_count = Some(a);
                self.call_stack.push(f);
                proof {
                    assert(frames_view(self.call_stack@) =~= frames_view(frames).update(
                        frames.len() - 1,
                        FrameView {
                            loop_start: Some(start),
                            loop_bindings_start: Some(bindings),
                            loop_bindings_count: Some(a),
                            ..frames_view(frames).last()
                        },
                    ));
                }
            } else {
                let mut f = Frame::new(0, Vec::new(), owned("<main>"), 0);
                f.loop_start = Some(start);
                f.loop_bindings_start = Some(bindings);
                f.loop_bindings_count = Some(a);
                proof {
                    assert(values_view(f.locals@) =~= Seq::<ValueView>::empty());
                    assert(values_view(f.captured@) =~= Seq::<ValueView>::empty());
                    assert(instrs_view(f.return_bytecode@) =~= Seq::<InstrView>::empty());
                }
                self.call_stack.push(f);
                proof {
                    assert(frames_view(self.call_stack@) =~= frames_view(frames).push(frame_view(f)));
                }
            }
            self.advance();
            return Ok(Effect::Continue);
        }
        if depth == 0 {
            return failure(owned("recur used outside of loop"));
        }
        proof {
            assert(frames_view(frames).last() == frame_view(frames[depth - 1]));
        }
        let (start, count, target) = match (
            self.call_stack[depth - 1].loop_bindings_start,
            self.call_stack[depth - 1].loop_bindings_count,
            self.call_stack[depth - 1].loop_start,
        ) {
            (Some(s), Some(c), Some(t)) => (s, c, t),
            _ => {
                return failure(owned("recur used outside of loop"));
            },
        };
        if a != count {
            let mut msg = owned("recur expects ");
            push_usize(&mut msg, count);
            push_str(&mut msg, " arguments but got ");
            push_usize(&mut msg, a);
            return failure(msg);
        }
        let len = self.value_stack.len();
        if len < a {
            return failure(owned("Stack underflow in Recur"));
        }
        proof {
            lemma_split_view(self.value_stack@, (len - a) as int);
        }
        let values = self.value_stack.split_off(len - a);
        let ghost vv = values_view(values@);
        let ghost rest = values_view(self.value_stack@);
        proof {
            lemma_values_view_ext(values@);
        }
        let mut values = values;
        let mut rev: Vec<Value> = Vec::new();
        while values.len() > 0
            invariant
                rev@.len() + values@.len() == a,
                vv.len() == a,
                forall|k: int| 0 <= k < values@.len() ==> value_view(#[trigger] values@[k]) == vv[k],
                forall|k: int| 0 <= k < rev@.len() ==> value_view(#[trigger] rev@[k]) == vv[a - 1 - k],
            decreases values@.len(),
        {
            let v = values.pop().unwrap();
            rev.push(v);
        }
        let mut stack: Vec<Value> = Vec::new();
        std::mem::swap(&mut self.value_stack, &mut stack);
        proof {
            lemma_values_view_ext(stack@);
        }
        let mut i: usize = 0;
        while rev.len() > 0
            invariant
                i + rev@.len() == a,
                vv.len() == a,
                start + a <= len - a,
                stack@.len() == len - a,
                rest.len() == len - a,
                forall|k: int| 0 <= k < rev@.len() ==> value_view(#[trigger] rev@[k]) == vv[a - 1 - k],
                forall|k: int| 0 <= k < stack@.len() ==> value_view(#[trigger] stack@[k]) == if start <= k
                    < start + i { vv[k - start] } else { rest[k] },
            decreases rev@.len(),
        {
            let v = rev.pop().unwrap();
            stack.set(start + i, v);
            i = i + 1;
        }
        std::mem::swap(&mut self.value_stack, &mut stack);
        self.instruction_pointer = target;
        proof {
            lemma_values_view_ext(self.value_stack@);
            assert(values_view(self.value_stack@) =~= Seq::new(rest.len(), |k: int| if start <= k < start + a { vv[k - start] } else { rest[k] }));
        }
        Ok(Effect::Continue)
    }
}

/// The keys (as string values) or the values of a hash map's entries.
fn entry_list(entries: &Vec<(String, Value)>, keys: bool) -> (r: Vec<Value>)
    ensures
        values_view(r@) == if keys { key_values(pairs_view(entries@)) } else { entry_values(pairs_view(entries@)) },
{
    proof {
        crate::value::lemma_pairs_view_ext(entries@);
    }
    let mut r: Vec<Value> = Vec::new();
    let mut k: usize = 0;
    while k < entries.len()
        invariant
            k <= entries@.len(),
            pairs_view(entries@) == Seq::new(entries@.len(), |i: int| (entries@[i].0@, value_view(entries@[i].1))),
            r@.len() == k,
            forall|j: int| 0 <= j < k ==> value_view(#[trigger] r@[j]) == if keys {
                ValueView::String(entries@[j].0@)
            } else {
                value_view(entries@[j].1)
            },
        decreases entries@.len() - k,
    {
        if keys {
            r.push(Value::String(entries[k].0.clone()));
        } else {
            r.push(copy_value(&entries[k].1));
        }
        k = k + 1;
    }
    proof {
        lemma_values_view_ext(r@);
        if keys {
            assert(values_view(r@) =~= key_values(pairs_view(entries@)));
        } else {
            assert(values_view(r@) =~= entry_values(pairs_view(entries@)));
        }
    }
    r
}

proof fn lemma_index_error_negative(what: Seq<char>, idx: i64, len: nat, kind: Seq<char>)
    requires
        idx < 0,
    ensures
        index_error(what, idx, len, kind) == "'"@ + what + "' index cannot be negative: "@ + signed_decimal(idx as int),
{
}

/// The message of a bad index, built.
fn index_error_text(what: &str, idx: i64, len: usize, kind: &str) -> (r: String)
    ensures
        r@ == index_error(what@, idx, len as nat, kind@),
{
    let mut msg = text3("'", what, "' index ");
    if idx < 0 {
        let mut m2 = text3("'", what, "' index cannot be negative: ");
        push_chars(&mut m2, &i64_decimal(idx));
        return m2;
    }
    push_chars(&mut msg, &i64_decimal(idx));
    push_str(&mut msg, " out of bounds for ");
    push_str(&mut msg, kind);
    push_str(&mut msg, " of length ");
    push_usize(&mut msg, len);
    msg
}

impl VM {
    fn exec_collection_pair(&mut self, op: u8) -> (r: Result<Effect, RuntimeError>)
        requires
            old(self).instruction_pointer < old(self).current_bytecode@.len(),
            op == 62 || op == 64 || op == 55 || op == 59,
        ensures
            step_matches(collection_pair_step(old(self).state(), op), old(self).state(), r, final(self).state()),
            final(self).args == old(self).args,
            final(self).loaded_modules == old(self).loaded_modules,
    {
        let ghost m = self.state();
        proof {
            lemma_values_view_len(self.value_stack@);
        }
        let code_len = self.current_bytecode.len();
        assert(self.instruction_pointer < code_len);
        let len = self.value_stack.len();
        if len < 2 {
            return failure(text2("Stack underflow in ", if op == 62 {
                "VectorGet"
            } else if op == 64 {
                "VectorPush"
            } else if op == 55 {
                "HashMapGet"
            } else {
                "HashMapContainsKey"
            }));
        }
        let b = self.pop_value();
        let a = self.pop_value();
        proof {
            assert(m.stack.drop_last().drop_last() =~= drop_top(m.stack, 2));
            assert(m.stack.drop_last().last() == m.stack[m.stack.len() - 2]);
        }
        if op == 62 {
            return match (a, b) {
                (Value::Vector(items), Value::Integer(idx)) => {
                    proof {
                        lemma_values_view_len(items@);
                    }
                    let n = items.len();
                    if idx < 0 || idx as u64 >= n as u64 {
                        return failure(index_error_text("vector-ref", idx, n, "vector"));
                    }
                    let k = idx as usize;
                    proof {
                        lemma_values_view_index(items@, k as int);
                    }
                    let v = copy_value(&items[k]);
                    self.push_value(v);
                    self.advance();
                    Ok(Effect::Continue)
                },
                (a, b) => {
                    let mut msg = text2("Type error: 'vector-ref' expects a vector and an integer, got ", value_type_name(&a));
                    push_str(&mut msg, " and ");
                    push_str(&mut msg, value_type_name(&b));
                    failure(msg)
                },
            };
        }
        if op == 64 {
            return match a {
                Value::Vector(items) => {
                    let mut items = items;
                    proof {
                        lemma_push_view(items@, b);
                    }
                    items.push(b);
                    self.push_value(Value::Vector(items));
                    self.advance();
                    Ok(Effect::Continue)
                },
                other => failure(text2("Type error: 'vector-push!' expects a vector, got ", value_type_name(&other))),
            };
        }
        match (a, b) {
            (Value::HashMap(entries), Value::String(k)) => {
                let i = global_index(&entries, &k);
                proof {
                    lemma_key_index(pairs_view(entries@), k@);
                    lemma_pairs_view_len(entries@);
                }
                if op == 59 {
                    self.push_value(Value::Boolean(i < entries.len()));
                    self.advance();
                    return Ok(Effect::Continue);
                }
                if i >= entries.len() {
                    return failure(text3("Key '", k.as_str(), "' not found in hashmap"));
                }
                proof {
                    lemma_pairs_view_index(entries@, i as int);
                }
                let v = copy_value(&entries[i].1);
                self.push_value(v);
                self.advance();
                Ok(Effect::Continue)
            },
            (a, b) => {
                let mut msg = owned(if op == 59 {
                    "Type error: 'contains-key?' expects a hashmap and a string key, got "
                } else {
                    "Type error: 'get' expects a hashmap and a string key, got "
                });
                push_str(&mut msg, value_type_name(&a));
                push_str(&mut msg, " and ");
                push_str(&mut msg, value_type_name(&b));
                failure(msg)
            },
        }
    }

    fn exec_collection_set(&mut self, op: u8) -> (r: Result<Effect, RuntimeError>)
        requires
            old(self).instruction_pointer < old(self).current_bytecode@.len(),
            op == 63 || op == 56,
        ensures
            step_matches(collection_set_step(old(self).state(), op), old(self).state(), r, final(self).state()),
            final(self).args == old(self).args,
            final(self).loaded_modules == old(self).loaded_modules,
    {
        let ghost m = self.state();
        proof {
            lemma_values_view_len(self.value_stack@);
        }
        let code_len = self.current_bytecode.len();
        assert(self.instruction_pointer < code_len);
        let len = self.value_stack.len();
        if len < 3 {
            return failure(owned(if op == 63 { "Stack underflow in VectorSet" } else { "Stack underflow in HashMapSet" }));
        }
        let v = self.pop_value();
        let k = self.pop_value();
        let c = self.pop_value();
        proof {
            assert(m.stack.drop_last().drop_last().drop_last() =~= drop_top(m.stack, 3));
            assert(m.stack.drop_last().last() == m.stack[m.stack.len() - 2]);
            assert(m.stack.drop_last().drop_last().last() == m.stack[m.stack.len() - 3]);
        }
        if op == 63 {
            return match (c, k) {
                (Value::Vector(items), Value::Integer(idx)) => {
                    proof {
                        lemma_values_view_len(items@);
                    }
                    let n = items.len();
                    if idx < 0 || idx as u64 >= n as u64 {
                        return failure(index_error_text("vector-set!", idx, n, "vector"));
                    }
                    let i = idx as usize;
                    let mut items = items;
                    let ghost before = items@;
                    items.set(i, v);
                    proof {
                        lemma_values_view_ext(before);
                        lemma_values_view_ext(items@);
                        assert(values_view(items@) =~= values_view(before).update(i as int, value_view(v)));
                    }
                    self.push_value(Value::Vector(items));
                    self.advance();
                    Ok(Effect::Continue)
                },
                (c, k) => {
                    let mut msg = text2(
                        "Type error: 'vector-set!' expects a vector, an integer, and a value, got ",
                        value_type_name(&c),
                    );
                    push_str(&mut msg, " and ");
                    push_str(&mut msg, value_type_name(&k));
                    failure(msg)
                },
            };
        }
        match (c, k) {
            (Value::HashMap(entries), Value::String(key)) => {
                let mut entries = entries;
                insert_pair(&mut entries, key, v);
                self.push_value(Value::HashMap(entries));
                self.advance();
                Ok(Effect::Continue)
            },
            (c, k) => {
                let mut msg = text2("Type error: 'set' expects a hashmap and a string key, got ", value_type_name(&c));
                push_str(&mut msg, " and ");
                push_str(&mut msg, value_type_name(&k));
                failure(msg)
            },
        }
    }

    fn exec_string(&mut self, op: u8) -> (r: Result<Effect, RuntimeError>)
        requires
            old(self).instruction_pointer < old(self).current_bytecode@.len(),
            is_string_op(op),
        ensures
            step_matches(string_step(old(self).state(), op), old(self).state(), r, final(self).state()),
            final(self).args == old(self).args,
            final(self).loaded_modules == old(self).loaded_modules,
    {
        let ghost m = self.state();
        proof {
            lemma_values_view_len(self.value_stack@);
            lemma_instrs_view_len(self.current_bytecode@);
        }
        let code_len = self.current_bytecode.len();
        assert(self.instruction_pointer < code_len);
        let len = self.value_stack.len();
        let k = string_arity_of(op);
        if len < k {
            return failure(text2("Stack underflow in ", string_op_title_str(op)));
        }
        proof {
            lemma_split_view(self.value_stack@, (len - k) as int);
        }
        let args = self.value_stack.split_off(len - k);
        match string_operation(op, args) {
            Ok(v) => {
                self.push_value(v);
                self.advance();
                Ok(Effect::Continue)
            },
            Err(msg) => failure(msg),
        }
    }

    fn exec_make_map(&mut self, n: usize) -> (r: Result<Effect, RuntimeError>)
        requires
            old(self).instruction_pointer < old(self).current_bytecode@.len(),
        ensures
            step_matches(make_map_step(old(self).state(), n), old(self).state(), r, final(self).state()),
            final(self).args == old(self).args,
            final(self).loaded_modules == old(self).loaded_modules,
    {
        let ghost m = self.state();
        proof {
            lemma_values_view_len(self.value_stack@);
        }
        let code_len = self.current_bytecode.len();
        assert(self.instruction_pointer < code_len);
        let len = self.value_stack.len();
        if len / 2 < n {
            return failure(owned("Stack underflow in MakeHashMap"));
        }
        proof {
            lemma_split_view(self.value_stack@, (len - 2 * n) as int);
        }
        let items = self.value_stack.split_off(len - 2 * n);
        let ghost iv = values_view(items@);
        proof {
            lemma_values_view_ext(items@);
        }
        let ghost pairs = Seq::new(n as nat, |i: int| (iv[2 * i]->String_0, iv[2 * i + 1]));
        let count = items.len();
        let mut i: usize = 0;
        let mut bad: usize = n;
        while i < n
            invariant
                i <= n,
                bad <= n,
                count == items@.len(),
                items@.len() == 2 * n,
                iv == values_view(items@),
                iv == Seq::new(items@.len(), |j: int| value_view(items@[j])),
                bad == n ==> first_bad_key(iv, n as int, 0) == first_bad_key(iv, n as int, i as int),
                bad < n ==> first_bad_key(iv, n as int, 0) == bad && i == n,
            decreases n - i,
        {
            let j = 2 * i;
            match &items[j] {
                Value::String(_) => {
                    i = i + 1;
                },
                _ => {
                    assert(iv[j as int] == value_view(items@[j as int]));
                    assert(first_bad_key(iv, n as int, i as int) == i);
                    bad = i;
                    i = n;
                },
            }
        }
        if bad < n {
            let msg = text2("Type error: hashmap keys must be strings, got ", value_type_name(&items[2 * bad]));
            return failure(msg);
        }
        proof {
            lemma_no_bad_key(iv, n as int, 0);
        }
        let mut entries: Vec<(String, Value)> = Vec::new();
        let mut items = items;
        let mut rev: Vec<Value> = Vec::new();
        while items.len() > 0
            invariant
                rev@.len() + items@.len() == 2 * n,
                iv.len() == 2 * n,
                forall|k: int| 0 <= k < items@.len() ==> value_view(#[trigger] items@[k]) == iv[k],
                forall|k: int| 0 <= k < rev@.len() ==> value_view(#[trigger] rev@[k]) == iv[2 * n - 1 - k],
            decreases items@.len(),
        {
            let v = items.pop().unwrap();
            rev.push(v);
        }
        proof {
            assert(pairs.subrange(0, n as int) =~= pairs);
            assert(pairs_view(entries@) =~= Seq::<(Seq<char>, ValueView)>::empty());
        }
        let mut k: usize = 0;
        while k < n
            invariant
                k <= n,
                rev@.len() == 2 * (n - k),
                iv.len() == 2 * n,
                forall|j: int| 0 <= j < rev@.len() ==> value_view(#[trigger] rev@[j]) == iv[2 * n - 1 - j],
                forall|j: int| 0 <= j < n ==> (#[trigger] iv[2 * j]) is String,
                pairs == Seq::new(n as nat, |i: int| (iv[2 * i]->String_0, iv[2 * i + 1])),
                insert_all(Seq::empty(), pairs) == insert_all(pairs_view(entries@), pairs.subrange(k as int, n as int)),
            decreases n - k,
        {
            let key = rev.pop().unwrap();
            let value = rev.pop().unwrap();
            proof {
                let t = pairs.subrange(k as int, n as int);
                assert(t[0] == pairs[k as int]);
                assert(t.subrange(1, t.len() as int) =~= pairs.subrange(k + 1, n as int));
            }
            match key {
                Value::String(s) => {
                    insert_pair(&mut entries, s, value);
                },
                _ => {
                    assert(false);
                },
            }
            k = k + 1;
        }
        proof {
            assert(pairs.subrange(n as int, n as int) =~= Seq::<(Seq<char>, ValueView)>::empty());
        }
        self.push_value(Value::HashMap(entries));
        self.advance();
        Ok(Effect::Continue)
    }
}

impl VM {
    /// Whether the next step stays within machine arithmetic, so that it can
    /// be run.
    pub fn next_step_fits(&self) -> (r: bool)
        ensures
            r == step_fits(self.state()),
    {
        let ghost m = self.state();
        proof {
            lemma_instrs_view_len(self.current_bytecode@);
            lemma_values_view_len(self.value_stack@);
        }
        let ip = self.instruction_pointer;
        if ip >= self.current_bytecode.len() {
            return true;
        }
        proof {
            lemma_instrs_view_index(self.current_bytecode@, ip as int);
            lemma_classify(self.current_bytecode@[ip as int]);
        }
        let ins = &self.current_bytecode[ip];
        let len = self.value_stack.len();
        match opcode_of_simple(ins) {
            Some(op) => {
                proof {
                    assert(m.code[m.ip as int] == InstrView::Simple(op));
                }
                if (op == OP_ADD || op == OP_SUB || op == OP_MUL || op == OP_DIV || op == OP_MOD) && len >= 2 {
                    proof {
                        lemma_values_view_index(self.value_stack@, len - 2);
                        lemma_values_view_index(self.value_stack@, len - 1);
                    }
                    match (&self.value_stack[len - 2], &self.value_stack[len - 1]) {
                        (Value::Integer(a), Value::Integer(b)) => {
                            let a = *a;
                            let b = *b;
                            if (op == OP_DIV || op == OP_MOD) && b == 0 {
                                true
                            } else if op == OP_ADD {
                                a.checked_add(b).is_some()
                            } else if op == OP_SUB {
                                a.checked_sub(b).is_some()
                            } else if op == OP_MUL {
                                a.checked_mul(b).is_some()
                            } else {
                                !(a == i64::MIN && b == -1)
                            }
                        },
                        _ => true,
                    }
                } else if op == OP_NEG && len >= 1 {
                    proof {
                        lemma_values_view_index(self.value_stack@, len - 1);
                    }
                    match &self.value_stack[len - 1] {
                        Value::Integer(n) => *n != i64::MIN,
                        _ => true,
                    }
                } else {
                    request_fits_exec(self, op)
                }
            },
            None => match opcode_of_indexed(ins) {
                Some((op, a)) => {
                    proof {
                        assert(m.code[m.ip as int] == InstrView::Indexed(op, a));
                    }
                    let frames = self.call_stack.len();
                    if op == 28 || op == 111 {
                        let base = if frames == 0 { 0 } else { self.call_stack[frames - 1].stack_base };
                        base.checked_add(a).is_some()
                    } else if op == 112 {
                        a <= len
                    } else if op == 113 {
                        if frames > 0 && a <= len {
                            match self.call_stack[frames - 1].loop_bindings_start {
                                Some(start) => start <= len - a && a <= len - a - start,
                                None => true,
                            }
                        } else {
                            true
                        }
                    } else {
                        true
                    }
                },
                None => {
                    proof {
                        let i = self.current_bytecode@[ip as int];
                        assert(!(instr_view(i) is Simple) && !(instr_view(i) is Indexed));
                    }
                    true
                },
            },
        }
    }
}
} // verus!
