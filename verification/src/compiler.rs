use vstd::prelude::*;
use crate::ast::{LispExpr, SourceExpr, ExprView, SourceView, source_view, sources_view, lemma_sources_view_len, lemma_sources_view_index};
use crate::errors::{CompileError, Location, LocView, unknown_file};
use crate::instructions::Instruction;
use crate::value::{Value, List, ValueView, value_view, values_view, list_view, lemma_values_view_push, lemma_values_view_ext, lemma_values_view_len, lemma_values_view_index};
use crate::bytecode::FunctionTable;
use crate::text::{owned, text2, text3, push_str, push_chars, chars_of, same_text, string_of, i64_decimal, signed_decimal, chars_eq_str};
use crate::literals::{int_literal, parse_int};
use crate::strings::sub_chars;
use crate::requests::{Request, gensym_symbol, RequestView, DrawView, is_request_op, request_arity};
use crate::machine::{MachineView, Outcome, step, step_fits, drop_top};
use crate::text::decimal;
use crate::machine::{VM, Frame, Effect};
use crate::analysis::{parse_params, find_free_variables, contains_unquote, looks_like_param_list};
use crate::bytecode::{insert_function, insert_entry, table_view};
use crate::value::{copy_instruction, copy_value};
use crate::instructions::{instrs_view, instr_view, InstrView, lemma_instrs_view_ext, lemma_instrs_view_len};
use crate::ffi::{parse_ffi_type, ffi_type_named};
use crate::instructions::FfiType;
use crate::names::{is_builtin_function, builtin_names};
use crate::analysis::{starts_with_string_marker, is_string_marker, has_unquote, params_of};

verus! {
broadcast use vstd::std_specs::vec::axiom_vec_decreases_to_view;

// ---------------------------------------------------------------------------
// Where a bound name's value is found

/// Where the compiler finds the value of a bound name at run time.
pub enum ValueLocation {
    /// A value on the stack, at this depth in the current frame.
    Local(usize),
    /// A value captured by the closure being compiled.
    Captured(usize),
    /// The element at this position of the list found at the location.
    ListElement(Box<ValueLocation>, usize),
    /// What is left of the list found at the location after this many elements.
    ListRest(Box<ValueLocation>, usize),
}

/// A copy of a location.
pub fn copy_location(l: &ValueLocation) -> (r: ValueLocation)
    ensures
        r == *l,
    decreases l,
{
    match l {
        ValueLocation::Local(p) => ValueLocation::Local(*p),
        ValueLocation::Captured(i) => ValueLocation::Captured(*i),
        ValueLocation::ListElement(inner, i) => ValueLocation::ListElement(Box::new(copy_location(inner)), *i),
        ValueLocation::ListRest(inner, n) => ValueLocation::ListRest(Box::new(copy_location(inner)), *n),
    }
}

// ---------------------------------------------------------------------------
// Jumps

/// The address an instruction may jump to, if it jumps.
pub open spec fn jump_target(i: Instruction) -> Option<usize> {
    match i {
        Instruction::Jmp(a) => Some(a),
        Instruction::JmpIfFalse(a) => Some(a),
        Instruction::CheckArity(_, a) => Some(a),
        _ => None,
    }
}

/// Every jump among `code[lo..hi]` lands in `lo..=hi`: inside the fragment,
/// or just after its end.
pub open spec fn jumps_within(code: Seq<Instruction>, lo: int, hi: int) -> bool {
    forall|k: int| lo <= k < hi ==> match jump_target(#[trigger] code[k]) {
        Some(a) => lo <= a <= hi,
        None => true,
    }
}

/// `new` is `old` followed by a fragment whose jumps stay inside it.
pub open spec fn emitted(old: Seq<Instruction>, new: Seq<Instruction>) -> bool {
    &&& old.len() <= new.len()
    &&& new.subrange(0, old.len() as int) == old
    &&& jumps_within(new, old.len() as int, new.len() as int)
}

/// Two fragments one after the other make a fragment.
pub proof fn lemma_emitted_trans(a: Seq<Instruction>, b: Seq<Instruction>, c: Seq<Instruction>)
    requires
        emitted(a, b),
        emitted(b, c),
    ensures
        emitted(a, c),
{
    assert(c.subrange(0, a.len() as int) =~= b.subrange(0, a.len() as int)) by {
        assert forall|k: int| 0 <= k < a.len() implies c.subrange(0, a.len() as int)[k] == b.subrange(0, a.len() as int)[k] by {
            assert(c[k] == c.subrange(0, b.len() as int)[k]);
        }
    }
    assert forall|k: int| a.len() <= k < c.len() implies match jump_target(#[trigger] c[k]) {
        Some(t) => a.len() <= t <= c.len(),
        None => true,
    } by {
        if k < b.len() {
            assert(c[k] == c.subrange(0, b.len() as int)[k]);
            assert(c[k] == b[k]);
        }
    }
}

/// Nothing emitted is a fragment.
pub proof fn lemma_emitted_refl(a: Seq<Instruction>)
    ensures
        emitted(a, a),
{
    assert(a.subrange(0, a.len() as int) =~= a);
}

// ---------------------------------------------------------------------------
// Name-keyed tables

/// The position of the first entry of `t` with key `k` (the length when
/// there is none).
pub open spec fn first_key<V>(t: Seq<(String, V)>, k: Seq<char>) -> int
    decreases t.len(),
{
    if t.len() == 0 {
        0
    } else if t[0].0@ == k {
        0
    } else {
        1 + first_key(t.subrange(1, t.len() as int), k)
    }
}

proof fn lemma_first_key<V>(t: Seq<(String, V)>, k: Seq<char>)
    ensures
        0 <= first_key(t, k) <= t.len(),
        first_key(t, k) < t.len() ==> t[first_key(t, k)].0@ == k,
        forall|j: int| 0 <= j < first_key(t, k) ==> t[j].0@ != k,
    decreases t.len(),
{
    if t.len() > 0 && t[0].0@ != k {
        let rest = t.subrange(1, t.len() as int);
        lemma_first_key(rest, k);
        assert forall|j: int| 0 <= j < first_key(t, k) implies t[j].0@ != k by {
            if j > 0 {
                assert(t[j] == rest[j - 1]);
            }
        }
    }
}

proof fn lemma_first_key_at<V>(t: Seq<(String, V)>, k: Seq<char>, i: int)
    requires
        0 <= i < t.len(),
        t[i].0@ == k,
        forall|j: int| 0 <= j < i ==> t[j].0@ != k,
    ensures
        first_key(t, k) == i,
    decreases t.len(),
{
    if i > 0 {
        let rest = t.subrange(1, t.len() as int);
        assert forall|j: int| 0 <= j < i - 1 implies rest[j].0@ != k by {
            assert(rest[j] == t[j + 1]);
        }
        lemma_first_key_at(rest, k, i - 1);
    }
}

/// The texts of a table of names.
pub open spec fn text_pairs(t: Seq<(String, String)>) -> Seq<(Seq<char>, Seq<char>)> {
    Seq::new(t.len(), |i: int| (t[i].0@, t[i].1@))
}

/// The position of the first entry of `t` with key `k` (the length when there
/// is none).
pub open spec fn first_text_key(t: Seq<(Seq<char>, Seq<char>)>, k: Seq<char>) -> int
    decreases t.len(),
{
    if t.len() == 0 {
        0
    } else if t[0].0 == k {
        0
    } else {
        1 + first_text_key(t.subrange(1, t.len() as int), k)
    }
}

/// `t` with `k` standing for `v`: the entry of `k` replaced in its place, or
/// added last where there is none.
pub open spec fn with_text_key(t: Seq<(Seq<char>, Seq<char>)>, k: Seq<char>, v: Seq<char>) -> Seq<(Seq<char>, Seq<char>)> {
    let i = first_text_key(t, k);
    if i < t.len() {
        t.update(i, (k, v))
    } else {
        t.push((k, v))
    }
}

proof fn lemma_first_text_key(t: Seq<(String, String)>, k: Seq<char>)
    ensures
        first_text_key(text_pairs(t), k) == first_key(t, k),
    decreases t.len(),
{
    if t.len() > 0 {
        let rest = t.subrange(1, t.len() as int);
        assert(text_pairs(t).subrange(1, t.len() as int) =~= text_pairs(rest));
        lemma_first_text_key(rest, k);
    }
}

proof fn lemma_has_key_at<V>(t: Seq<(String, V)>, k: Seq<char>, i: int)
    requires
        0 <= i < t.len(),
        t[i].0@ == k,
    ensures
        has_key(t, k),
{
    lemma_first_key(t, k);
}

/// Whether a table of compiled functions has an entry with this name.
pub open spec fn has_entry(t: Seq<(Seq<char>, Seq<InstrView>)>, x: Seq<char>) -> bool {
    exists|i: int| 0 <= i < t.len() && t[i].0 == x
}

proof fn lemma_insert_entry_has(t: Seq<(Seq<char>, Seq<InstrView>)>, k: Seq<char>, v: Seq<InstrView>)
    ensures
        has_entry(insert_entry(t, k, v), k),
        forall|x: Seq<char>| has_entry(t, x) ==> has_entry(insert_entry(t, k, v), x),
{
    crate::bytecode::lemma_key_index(t, k);
    let n = insert_entry(t, k, v);
    let ki = crate::bytecode::key_index(t, k);
    if ki < t.len() {
        assert(n[ki].0 == k);
    } else {
        assert(n[t.len() as int].0 == k);
    }
    assert forall|x: Seq<char>| has_entry(t, x) implies has_entry(n, x) by {
        let i = choose|i: int| 0 <= i < t.len() && t[i].0 == x;
        if ki < t.len() && i == ki {
            assert(n[i].0 == x);
        } else {
            assert(n[i] == t[i]);
        }
    }
}

/// Finds the entry with key `k`.
pub fn find_key<V>(t: &Vec<(String, V)>, k: &str) -> (r: Option<usize>)
    ensures
        match r {
            Some(i) => i < t@.len() && i == first_key(t@, k@),
            None => first_key(t@, k@) == t@.len(),
        },
{
    proof {
        lemma_first_key(t@, k@);
    }
    let mut i: usize = 0;
    while i < t.len()
        invariant
            i <= t@.len(),
            forall|j: int| 0 <= j < i ==> t@[j].0@ != k@,
            0 <= first_key(t@, k@) <= t@.len(),
            first_key(t@, k@) < t@.len() ==> t@[first_key(t@, k@)].0@ == k@,
            forall|j: int| 0 <= j < first_key(t@, k@) ==> t@[j].0@ != k@,
        decreases t@.len() - i,
    {
        if same_text(t[i].0.as_str(), k) {
            return Some(i);
        }
        i = i + 1;
    }
    None
}

/// Sets the entry with key `k` to `v`, or adds it at the end.
pub fn set_key<V>(t: &mut Vec<(String, V)>, k: String, v: V)
    ensures
        first_key(old(t)@, k@) < old(t)@.len() ==> final(t)@ == old(t)@.update(first_key(old(t)@, k@), (k, v)),
        first_key(old(t)@, k@) == old(t)@.len() ==> final(t)@ == old(t)@.push((k, v)),
{
    match find_key(t, k.as_str()) {
        Some(i) => {
            t.set(i, (k, v));
        },
        None => {
            t.push((k, v));
        },
    }
}

/// Whether `names` holds `k`.
pub fn has_name(names: &Vec<String>, k: &str) -> (r: bool)
    ensures
        r == exists|j: int| 0 <= j < names@.len() && names@[j]@ == k@,
{
    position_of(names, k).is_some()
}

/// The position of the first occurrence of `k` in `names`.
pub fn position_of(names: &Vec<String>, k: &str) -> (r: Option<usize>)
    ensures
        match r {
            Some(i) => i < names@.len() && names@[i as int]@ == k@ && forall|j: int| 0 <= j < i ==> names@[j]@ != k@,
            None => forall|j: int| 0 <= j < names@.len() ==> names@[j]@ != k@,
        },
{
    let mut i: usize = 0;
    while i < names.len()
        invariant
            i <= names@.len(),
            forall|j: int| 0 <= j < i ==> names@[j]@ != k@,
        decreases names@.len() - i,
    {
        if same_text(names[i].as_str(), k) {
            return Some(i);
        }
        i = i + 1;
    }
    None
}

// ---------------------------------------------------------------------------
// The compiler

/// How many macro expansions one compiler makes at most: a macro that keeps
/// expanding into itself is reported instead of compiled forever.
pub const MACRO_EXPANSION_LIMIT: u64 = 100000;

/// The texts of names.
pub open spec fn names_of(s: Seq<String>) -> Seq<Seq<char>> {
    Seq::new(s.len(), |i: int| s[i]@)
}

/// The bindings after `name` is bound to `l`: `_` binds nothing, a name
/// bound before is bound anew in its place, and a new name is added last.
pub open spec fn bound(t: Seq<(String, ValueLocation)>, name: String, l: ValueLocation) -> Seq<(String, ValueLocation)> {
    if name@ == "_"@ {
        t
    } else if has_key(t, name@) {
        t.update(first_key(t, name@), (name, l))
    } else {
        t.push((name, l))
    }
}

/// Whether every expression is a symbol.
pub open spec fn all_symbols(items: Seq<SourceExpr>) -> bool {
    forall|j: int| 0 <= j < items.len() ==> (#[trigger] items[j]).expr is Symbol
}

/// The bindings after the first `n` symbols of `items` are bound, in order,
/// to the elements of the list found at `base`.
pub open spec fn bound_elements(
    t: Seq<(String, ValueLocation)>,
    items: Seq<SourceExpr>,
    base: ValueLocation,
    n: int,
) -> Seq<(String, ValueLocation)>
    decreases n,
{
    if n <= 0 {
        t
    } else {
        bound(
            bound_elements(t, items, base, n - 1),
            items[n - 1].expr->Symbol_0,
            ValueLocation::ListElement(Box::new(base), (n - 1) as usize),
        )
    }
}

/// Whether a value stands for an expression: closures, hash maps, vectors
/// and pointers do not, nor a list that holds one.
pub open spec fn quotable(v: Value) -> bool
    decreases v,
{
    match v {
        Value::List(l) => quotable_all(l.items@),
        Value::Closure(_) => false,
        Value::HashMap(_) => false,
        Value::Vector(_) => false,
        Value::Pointer(_) => false,
        _ => true,
    }
}

/// Whether every value stands for an expression.
pub open spec fn quotable_all(s: Seq<Value>) -> bool
    decreases s,
{
    if s.len() == 0 {
        true
    } else {
        quotable(s[0]) && quotable_all(s.subrange(1, s.len() as int))
    }
}

/// Where an expression made from a value comes from: nowhere known.
pub open spec fn unknown_loc() -> LocView {
    LocView { line: 0, column: 0, file: unknown_file() }
}

/// The expression a value stands for: a number, float or boolean itself;
/// a symbol or function by its name; a string as a marked symbol; a list
/// as the list of its elements' expressions.
pub open spec fn quoted_expr(v: Value) -> ExprView
    decreases v,
{
    match v {
        Value::Integer(n) => ExprView::Number(n),
        Value::Float(bits) => ExprView::Float("__FLOAT__"@ + signed_decimal((bits as i64) as int)),
        Value::Boolean(b) => ExprView::Boolean(b),
        Value::Symbol(s) => ExprView::Symbol(s@),
        Value::String(s) => ExprView::Symbol("__STRING__"@ + s@),
        Value::List(l) => ExprView::List(quoted_exprs(l.items@)),
        Value::Function(name) => ExprView::Symbol(name@),
        _ => ExprView::Number(0),
    }
}

/// The expressions values stand for, each of unknown origin.
pub open spec fn quoted_exprs(s: Seq<Value>) -> Seq<SourceView>
    decreases s,
{
    if s.len() == 0 {
        Seq::empty()
    } else {
        seq![SourceView { expr: quoted_expr(s[0]), loc: unknown_loc() }] + quoted_exprs(s.subrange(1, s.len() as int))
    }
}

proof fn lemma_quoted_exprs(s: Seq<Value>)
    ensures
        quoted_exprs(s).len() == s.len(),
        forall|i: int| 0 <= i < s.len() ==> #[trigger] quoted_exprs(s)[i] == (SourceView { expr: quoted_expr(s[i]), loc: unknown_loc() }),
        quotable_all(s) <==> forall|i: int| 0 <= i < s.len() ==> #[trigger] quotable(s[i]),
    decreases s.len(),
{
    if s.len() > 0 {
        let rest = s.subrange(1, s.len() as int);
        lemma_quoted_exprs(rest);
        assert forall|i: int| 0 < i < s.len() implies #[trigger] quoted_exprs(s)[i] == (SourceView { expr: quoted_expr(s[i]), loc: unknown_loc() }) by {
            assert(s[i] == rest[i - 1]);
        }
        if quotable_all(s) {
            assert forall|i: int| 0 <= i < s.len() implies #[trigger] quotable(s[i]) by {
                if i > 0 {
                    assert(s[i] == rest[i - 1]);
                }
            }
        }
        if forall|i: int| 0 <= i < s.len() ==> #[trigger] quotable(s[i]) {
            assert forall|i: int| 0 <= i < rest.len() implies #[trigger] quotable(rest[i]) by {
                assert(rest[i] == s[i + 1]);
            }
            assert(quotable(s[0]));
        }
    }
}

/// Whether every expression of `items` from position `from` on is a number
/// or a boolean: such an expression always compiles.
pub open spec fn all_constant(items: Seq<SourceExpr>, from: int) -> bool {
    forall|j: int| from <= j < items.len() ==> (#[trigger] items[j]).expr is Number || items[j].expr is Boolean
}

/// Whether a binding is `(name value)` with a number or boolean as value.
pub open spec fn simple_binding(b: SourceExpr) -> bool {
    &&& b.expr is List
    &&& b.expr->List_0@.len() == 2
    &&& b.expr->List_0@[0].expr is Symbol
    &&& (b.expr->List_0@[1].expr is Number || b.expr->List_0@[1].expr is Boolean)
}

/// Whether no item of a quasiquoted list is or holds an unquote.
pub open spec fn unquote_free(items: Seq<SourceExpr>) -> bool {
    forall|j: int|
        0 <= j < items.len() ==> unquote_kind_of(#[trigger] items[j]) == 0 && !has_unquote(source_view(items[j]))
}

/// Whether an expression is a symbol that names an FFI type.
pub open spec fn names_ffi_type(e: SourceExpr) -> bool {
    e.expr is Symbol && ffi_type_named(e.expr->Symbol_0@) is Some
}

/// Whether `(ffi-call f (types...) ret args...)` has its shape: type lists
/// of named types and as many arguments as argument types.
pub open spec fn ffi_call_form(items: Seq<SourceExpr>) -> bool {
    &&& items.len() >= 4
    &&& items[2].expr is List
    &&& forall|j: int|
        0 <= j < items[2].expr->List_0@.len() ==> names_ffi_type(#[trigger] items[2].expr->List_0@[j])
    &&& names_ffi_type(items[3])
    &&& items.len() - 4 == items[2].expr->List_0@.len()
}

/// Whether a `cond` clause is `(test expr)` with a number or boolean for each.
pub open spec fn constant_clause(c: SourceExpr) -> bool {
    &&& c.expr is List
    &&& c.expr->List_0@.len() == 2
    &&& all_constant(c.expr->List_0@, 0)
}

/// The parameter texts of an accepted parameter list, the rest parameter
/// last.
pub open spec fn param_texts(e: SourceView) -> Seq<Seq<char>> {
    match params_of(e) {
        Ok((req, rest)) => match rest {
            Some(n) => req.push(n),
            None => req,
        },
        Err(_) => Seq::empty(),
    }
}

/// The code a function with this parameter list starts with: the packing of
/// the rest arguments, where there is a rest parameter.
pub open spec fn rest_prefix(e: SourceView) -> Seq<InstrView> {
    match params_of(e) {
        Ok((req, Some(_))) => seq![instr_view(Instruction::PackRestArgs(req.len() as usize))],
        _ => Seq::empty(),
    }
}

/// A macro: its parameters and its body, kept unevaluated.
pub struct MacroDef {
    pub params: Vec<String>,
    pub body: SourceExpr,
}

/// The compiler from expressions to bytecode.
pub struct Compiler {
    bytecode: Vec<Instruction>,
    /// The compiled functions, by name.
    pub functions: FunctionTable,
    macros: Vec<(String, MacroDef)>,
    /// The global variables defined so far; the flag tells whether one is mutable.
    global_vars: Vec<(String, bool)>,
    known_functions: Vec<String>,
    known_globals: Vec<String>,
    instruction_address: usize,
    param_names: Vec<String>,
    pattern_bindings: Vec<(String, ValueLocation)>,
    local_bindings: Vec<(String, ValueLocation)>,
    stack_depth: usize,
    in_tail_position: bool,
    pattern_match_jumps: Vec<usize>,
    current_module: Option<String>,
    /// The exported names of each module.
    pub module_exports: Vec<(String, Vec<String>)>,
    imported_symbols: Vec<(String, String)>,
    module_functions: Vec<String>,
    /// The IEEE-754 bit patterns of float literals, by their source text.
    pub float_bits: Vec<(String, u64)>,
    /// How many more macro expansions this compiler may make.
    macro_budget: u64,
    /// How many symbols `gensym` has made while macros were expanded.
    symbols_made: u64,
}

impl Compiler {
    /// The code emitted so far into the main (or current) bytecode.
    pub closed spec fn code(&self) -> Seq<Instruction> {
        self.bytecode@
    }

    /// The compiled functions, by name.
    pub closed spec fn function_table(&self) -> Seq<(String, Vec<Instruction>)> {
        self.functions@
    }

    /// The names of functions known from the running program.
    pub closed spec fn known_function_names(&self) -> Seq<String> {
        self.known_functions@
    }

    /// The names of globals known from the running program.
    pub closed spec fn known_global_names(&self) -> Seq<String> {
        self.known_globals@
    }

    /// The bit patterns of float literals, by their text.
    pub closed spec fn float_table(&self) -> Seq<(String, u64)> {
        self.float_bits@
    }

    /// The exported names of each module, by module name.
    pub closed spec fn export_table(&self) -> Seq<(String, Vec<String>)> {
        self.module_exports@
    }

    /// Whether the expression being compiled is in tail position.
    pub closed spec fn in_tail(&self) -> bool {
        self.in_tail_position
    }

    /// How many more macro expansions this compiler may make.
    pub closed spec fn budget(&self) -> u64 {
        self.macro_budget
    }

    /// The address of the next instruction is the length of the code.
    pub closed spec fn wf(&self) -> bool {
        self.instruction_address == self.bytecode@.len()
    }

    /// Everything but the code being emitted is the same in both.
    pub closed spec fn same_context(&self, other: &Compiler) -> bool {
        &&& self.same_context_but_tail(other)
        &&& self.in_tail_position == other.in_tail_position
    }

    /// Everything but the code being emitted and the tail-position flag is
    /// the same in both.
    pub closed spec fn same_context_but_tail(&self, other: &Compiler) -> bool {
        &&& self.same_globals(other)
        &&& self.param_names@ == other.param_names@
        &&& self.pattern_bindings@ == other.pattern_bindings@
        &&& self.local_bindings@ == other.local_bindings@
        &&& self.stack_depth == other.stack_depth
    }

    /// Everything that outlives the compilation of one expression is the same
    /// in both: all but the code, the names in scope and the tail flag.
    pub closed spec fn same_globals(&self, other: &Compiler) -> bool {
        &&& self.functions@ == other.functions@
        &&& self.macros@ == other.macros@
        &&& self.global_vars@ == other.global_vars@
        &&& self.known_functions@ == other.known_functions@
        &&& self.known_globals@ == other.known_globals@
        &&& self.pattern_match_jumps@ == other.pattern_match_jumps@
        &&& self.current_module == other.current_module
        &&& self.module_exports@ == other.module_exports@
        &&& self.imported_symbols@ == other.imported_symbols@
        &&& self.module_functions@ == other.module_functions@
        &&& self.float_bits@ == other.float_bits@
        &&& self.macro_budget <= other.macro_budget
    }

    /// A compiler with nothing compiled and nothing known.
    pub fn new() -> (r: Self)
        ensures
            r.wf(),
            r.code().len() == 0,
            r.function_table().len() == 0,
    {
        Compiler {
            bytecode: Vec::new(),
            functions: Vec::new(),
            macros: Vec::new(),
            global_vars: Vec::new(),
            known_functions: Vec::new(),
            known_globals: Vec::new(),
            instruction_address: 0,
            param_names: Vec::new(),
            pattern_bindings: Vec::new(),
            local_bindings: Vec::new(),
            stack_depth: 0,
            in_tail_position: false,
            pattern_match_jumps: Vec::new(),
            current_module: None,
            module_exports: Vec::new(),
            imported_symbols: Vec::new(),
            module_functions: Vec::new(),
            float_bits: Vec::new(),
            macro_budget: MACRO_EXPANSION_LIMIT,
            symbols_made: 0,
        }
    }

    /// Makes the names of functions known from the running program available
    /// to the code being compiled.
    pub fn with_known_functions(&mut self, function_names: &Vec<String>)
        ensures
            names_of(final(self).known_function_names()) == names_of(old(self).known_function_names()) + names_of(function_names@),
            final(self).code() == old(self).code(),
            old(self).wf() ==> final(self).wf(),
    {
        let mut i: usize = 0;
        while i < function_names.len()
            invariant
                i <= function_names@.len(),
                self.known_functions@ == old(self).known_functions@ + function_names@.subrange(0, i as int),
                self.bytecode == old(self).bytecode,
                self.instruction_address == old(self).instruction_address,
            decreases function_names@.len() - i,
        {
            self.known_functions.push(function_names[i].clone());
            i = i + 1;
            assert(self.known_functions@ =~= old(self).known_functions@ + function_names@.subrange(0, i as int));
        }
        assert(function_names@.subrange(0, function_names@.len() as int) =~= function_names@);
        assert(names_of(self.known_functions@) =~= names_of(old(self).known_functions@) + names_of(function_names@));
    }

    /// Makes the names of globals known from the running program available
    /// to the code being compiled.
    pub fn with_known_globals(&mut self, global_names: &Vec<String>)
        ensures
            names_of(final(self).known_global_names()) == names_of(old(self).known_global_names()) + names_of(global_names@),
            final(self).code() == old(self).code(),
            old(self).wf() ==> final(self).wf(),
    {
        let mut i: usize = 0;
        while i < global_names.len()
            invariant
                i <= global_names@.len(),
                self.known_globals@ == old(self).known_globals@ + global_names@.subrange(0, i as int),
                self.bytecode == old(self).bytecode,
                self.instruction_address == old(self).instruction_address,
            decreases global_names@.len() - i,
        {
            self.known_globals.push(global_names[i].clone());
            i = i + 1;
            assert(self.known_globals@ =~= old(self).known_globals@ + global_names@.subrange(0, i as int));
        }
        assert(global_names@.subrange(0, global_names@.len() as int) =~= global_names@);
        assert(names_of(self.known_globals@) =~= names_of(old(self).known_globals@) + names_of(global_names@));
    }

    /// Records the exports of a module known from the running program: the
    /// entry of `module` is replaced, or added at the end where there is
    /// none, and every other entry stays.
    pub fn with_known_module_exports(&mut self, module: &str, exports: &Vec<String>)
        ensures
            final(self).code() == old(self).code(),
            final(self).function_table() == old(self).function_table(),
            old(self).wf() ==> final(self).wf(),
            ({
                let t = old(self).export_table();
                let k = first_key(t, module@);
                &&& final(self).export_table().len() == (if k < t.len() { t.len() } else { t.len() + 1 })
                &&& final(self).export_table()[k].0@ == module@
                &&& final(self).export_table()[k].1@ == exports@
                &&& forall|j: int| 0 <= j < t.len() && j != k ==> final(self).export_table()[j] == t[j]
            }),
    {
        proof {
            lemma_first_key(self.module_exports@, module@);
        }
        let mut copy: Vec<String> = Vec::new();
        let mut i: usize = 0;
        while i < exports.len()
            invariant
                i <= exports@.len(),
                copy@ == exports@.subrange(0, i as int),
            decreases exports@.len() - i,
        {
            copy.push(exports[i].clone());
            i = i + 1;
            assert(copy@ =~= exports@.subrange(0, i as int));
        }
        set_key(&mut self.module_exports, owned(module), copy);
    }

    /// Forgets the main code compiled so far.
    pub fn clear_main_bytecode(&mut self)
        ensures
            final(self).wf(),
            final(self).code().len() == 0,
            final(self).same_context(old(self)),
    {
        self.bytecode.clear();
        self.instruction_address = 0;
    }

    fn emit(&mut self, instruction: Instruction)
        requires
            old(self).wf(),
        ensures
            final(self).wf(),
            final(self).bytecode@ == old(self).bytecode@.push(instruction),
            final(self).same_context(old(self)),
    {
        self.bytecode.push(instruction);
        self.instruction_address = self.bytecode.len();
    }
}

/// The code that loads the value at a location.
pub open spec fn load_code(l: ValueLocation) -> Seq<Instruction>
    decreases l,
{
    match l {
        ValueLocation::Local(pos) => seq![Instruction::GetLocal(pos)],
        ValueLocation::Captured(idx) => seq![Instruction::LoadCaptured(idx)],
        ValueLocation::ListElement(inner, idx) => load_code(*inner) + Seq::new(idx as nat, |_i: int| Instruction::Cdr)
            + seq![Instruction::Car],
        ValueLocation::ListRest(inner, n) => load_code(*inner) + Seq::new(n as nat, |_i: int| Instruction::Cdr),
    }
}

proof fn lemma_no_jumps_emitted(a: Seq<Instruction>, b: Seq<Instruction>)
    requires
        forall|k: int| 0 <= k < b.len() ==> jump_target(#[trigger] b[k]) is None,
    ensures
        emitted(a, a + b),
{
    assert((a + b).subrange(0, a.len() as int) =~= a);
    assert forall|k: int| a.len() <= k < (a + b).len() implies match jump_target(#[trigger] (a + b)[k]) {
        Some(t) => a.len() <= t <= (a + b).len(),
        None => true,
    } by {
        assert((a + b)[k] == b[k - a.len()]);
    }
}

proof fn lemma_load_code_no_jumps(l: ValueLocation)
    ensures
        forall|k: int| 0 <= k < load_code(l).len() ==> jump_target(#[trigger] load_code(l)[k]) is None,
    decreases l,
{
    match l {
        ValueLocation::ListElement(inner, idx) => {
            lemma_load_code_no_jumps(*inner);
            let a = load_code(*inner);
            let b = Seq::new(idx as nat, |_i: int| Instruction::Cdr);
            assert forall|k: int| 0 <= k < load_code(l).len() implies jump_target(#[trigger] load_code(l)[k]) is None by {
                if k < a.len() {
                    assert(load_code(l)[k] == a[k]);
                } else if k < a.len() + b.len() {
                    assert(load_code(l)[k] == b[k - a.len()]);
                } else {
                    assert(load_code(l)[k] == Instruction::Car);
                }
            }
        },
        ValueLocation::ListRest(inner, n) => {
            lemma_load_code_no_jumps(*inner);
            let a = load_code(*inner);
            let b = Seq::new(n as nat, |_i: int| Instruction::Cdr);
            assert forall|k: int| 0 <= k < load_code(l).len() implies jump_target(#[trigger] load_code(l)[k]) is None by {
                if k < a.len() {
                    assert(load_code(l)[k] == a[k]);
                } else {
                    assert(load_code(l)[k] == b[k - a.len()]);
                }
            }
        },
        _ => {},
    }
}

/// Whether a text holds a '/'.
fn has_slash(s: &str) -> (r: bool)
    ensures
        r == s@.contains('/'),
{
    let n = s.unicode_len();
    let mut i: usize = 0;
    while i < n
        invariant
            n == s@.len(),
            i <= n,
            forall|j: int| 0 <= j < i ==> s@[j] != '/',
        decreases n - i,
    {
        if s.get_char(i) == '/' {
            assert(s@[i as int] == '/');
            return true;
        }
        i = i + 1;
    }
    false
}

/// Whether `names` holds the text `k`.
pub open spec fn holds_name(names: Seq<String>, k: Seq<char>) -> bool {
    exists|j: int| 0 <= j < names.len() && names[j]@ == k
}

/// Whether the table has an entry with key `k`.
pub open spec fn has_key<V>(t: Seq<(String, V)>, k: Seq<char>) -> bool {
    first_key(t, k) < t.len()
}

/// The position of the first name equal to `k` (the length when there is
/// none).
pub open spec fn first_name(names: Seq<String>, k: Seq<char>) -> int
    decreases names.len(),
{
    if names.len() == 0 {
        0
    } else if names[0]@ == k {
        0
    } else {
        1 + first_name(names.subrange(1, names.len() as int), k)
    }
}

proof fn lemma_first_name(names: Seq<String>, k: Seq<char>, i: int)
    requires
        0 <= i < names.len(),
        names[i]@ == k,
        forall|j: int| 0 <= j < i ==> names[j]@ != k,
    ensures
        first_name(names, k) == i,
    decreases names.len(),
{
    if i > 0 {
        let rest = names.subrange(1, names.len() as int);
        assert forall|j: int| 0 <= j < i - 1 implies rest[j]@ != k by {
            assert(rest[j] == names[j + 1]);
        }
        lemma_first_name(rest, k, i - 1);
    }
}

/// The views of the instructions with one more at the end.
proof fn lemma_instrs_view_append(a: Seq<Instruction>, b: Seq<Instruction>)
    ensures
        instrs_view(a + b) == instrs_view(a) + instrs_view(b),
{
    lemma_instrs_view_ext(a);
    lemma_instrs_view_ext(b);
    lemma_instrs_view_ext(a + b);
    assert(instrs_view(a + b) =~= instrs_view(a) + instrs_view(b));
}

impl Compiler {
    /// The qualified name of `name` in the current module.
    pub closed spec fn qualified(&self, name: Seq<char>) -> Seq<char> {
        match self.current_module {
            Some(m) => m@ + "/"@ + name,
            None => name,
        }
    }

    /// The name a call of `name` goes to: an imported alias, a function of
    /// the current module, or the name itself.
    pub closed spec fn function_name_for(&self, name: Seq<char>) -> Seq<char> {
        if has_key(self.imported_symbols@, name) {
            self.imported_symbols@[first_key(self.imported_symbols@, name)].1@
        } else if name.contains('/') {
            name
        } else if self.current_module is Some && (holds_name(self.module_functions@, name) || has_key(
            self.functions@,
            self.qualified(name),
        )) {
            self.qualified(name)
        } else {
            name
        }
    }

    /// The name a reference to the global `name` goes to.
    pub closed spec fn global_name_for(&self, name: Seq<char>) -> Seq<char> {
        if has_key(self.imported_symbols@, name) {
            self.imported_symbols@[first_key(self.imported_symbols@, name)].1@
        } else if name.contains('/') {
            name
        } else if self.current_module is Some && (holds_name(self.module_functions@, name) || has_key(
            self.global_vars@,
            self.qualified(name),
        ) || has_key(self.functions@, self.qualified(name))) {
            self.qualified(name)
        } else {
            name
        }
    }

    /// `name` qualified with the current module, if any.
    fn qualify(&self, name: &str) -> (r: String)
        ensures
            r@ == self.qualified(name@),
    {
        match &self.current_module {
            Some(m) => text3(m.as_str(), "/", name),
            None => owned(name),
        }
    }

    /// Resolves the name of a called function.
    /// The code that loads what a name stands for: a string constant (the
    /// reader marks string literals so), a local or pattern variable, a
    /// parameter, a global variable, or a function (a builtin, one compiled or
    /// one known from the running program), names being resolved through the
    /// module system; `None` when the name is undefined.
    pub closed spec fn symbol_load(&self, s: Seq<char>) -> Option<Seq<InstrView>> {
        let resolved = self.global_name_for(s);
        let resolved_is_global = has_key(self.global_vars@, resolved) || holds_name(self.known_globals@, resolved);
        let resolved_is_function = has_key(self.functions@, resolved) || holds_name(self.known_functions@, resolved);
        if is_string_marker(s) {
            Some(seq![InstrView::Push(ValueView::String(s.subrange(10, s.len() as int)))])
        } else if has_key(self.local_bindings@, s) {
            Some(instrs_view(load_code(self.local_bindings@[first_key(self.local_bindings@, s)].1)))
        } else if has_key(self.pattern_bindings@, s) {
            Some(instrs_view(load_code(self.pattern_bindings@[first_key(self.pattern_bindings@, s)].1)))
        } else if holds_name(self.param_names@, s) {
            Some(seq![InstrView::Indexed(10, first_name(self.param_names@, s) as usize)])
        } else if resolved_is_global || has_key(self.global_vars@, s) || holds_name(self.known_globals@, s) {
            Some(seq![InstrView::LoadGlobal(if resolved_is_global { resolved } else { s })])
        } else if resolved_is_function || has_key(self.functions@, s) || holds_name(self.known_functions@, s)
            || builtin_names().contains(s) {
            Some(seq![InstrView::Push(ValueView::Function(if resolved_is_function { resolved } else { s }))])
        } else {
            None
        }
    }

    fn resolve_function_name(&self, name: &str) -> (r: String)
        ensures
            r@ == self.function_name_for(name@),
    {
        match find_key(&self.imported_symbols, name) {
            Some(i) => {
                return self.imported_symbols[i].1.clone();
            },
            None => {},
        }
        if has_slash(name) {
            return owned(name);
        }
        if self.current_module.is_some() {
            let q = self.qualify(name);
            if has_name(&self.module_functions, name) || find_key(&self.functions, q.as_str()).is_some() {
                return q;
            }
        }
        owned(name)
    }

    /// Resolves the name of a global.
    fn resolve_global_name(&self, name: &str) -> (r: String)
        ensures
            r@ == self.global_name_for(name@),
    {
        match find_key(&self.imported_symbols, name) {
            Some(i) => {
                return self.imported_symbols[i].1.clone();
            },
            None => {},
        }
        if has_slash(name) {
            return owned(name);
        }
        if self.current_module.is_some() {
            let q = self.qualify(name);
            if has_name(&self.module_functions, name) || find_key(&self.global_vars, q.as_str()).is_some() || find_key(
                &self.functions,
                q.as_str(),
            ).is_some() {
                return q;
            }
        }
        owned(name)
    }

    /// Emits the code that loads the value at a location.
    fn emit_load(&mut self, l: &ValueLocation)
        requires
            old(self).wf(),
        ensures
            final(self).wf(),
            final(self).bytecode@ == old(self).bytecode@ + load_code(*l),
            emitted(old(self).bytecode@, final(self).bytecode@),
            final(self).same_context(old(self)),
        decreases l,
    {
        let ghost start = self.bytecode@;
        match l {
            ValueLocation::Local(pos) => {
                self.emit(Instruction::GetLocal(*pos));
            },
            ValueLocation::Captured(idx) => {
                self.emit(Instruction::LoadCaptured(*idx));
            },
            ValueLocation::ListElement(inner, idx) => {
                self.emit_load(inner);
                let ghost mid = self.bytecode@;
                let mut k: usize = 0;
                while k < *idx
                    invariant
                        self.wf(),
                        k <= *idx,
                        self.bytecode@ == mid + Seq::new(k as nat, |_i: int| Instruction::Cdr),
                        self.same_context(old(self)),
                    decreases *idx - k,
                {
                    self.emit(Instruction::Cdr);
                    k = k + 1;
                    assert(self.bytecode@ =~= mid + Seq::new(k as nat, |_i: int| Instruction::Cdr));
                }
                self.emit(Instruction::Car);
                assert(self.bytecode@ =~= start + load_code(*l));
            },
            ValueLocation::ListRest(inner, n) => {
                self.emit_load(inner);
                let ghost mid = self.bytecode@;
                let mut k: usize = 0;
                while k < *n
                    invariant
                        self.wf(),
                        k <= *n,
                        self.bytecode@ == mid + Seq::new(k as nat, |_i: int| Instruction::Cdr),
                        self.same_context(old(self)),
                    decreases *n - k,
                {
                    self.emit(Instruction::Cdr);
                    k = k + 1;
                    assert(self.bytecode@ =~= mid + Seq::new(k as nat, |_i: int| Instruction::Cdr));
                }
                assert(self.bytecode@ =~= start + load_code(*l));
            },
        }
        proof {
            assert(self.bytecode@ =~= start + load_code(*l));
            lemma_load_code_no_jumps(*l);
            lemma_no_jumps_emitted(start, load_code(*l));
        }
    }
}

proof fn lemma_patch(s: Seq<Instruction>, cur: Seq<Instruction>, idx: int, ins: Instruction)
    requires
        emitted(s, cur),
        s.len() <= idx < cur.len(),
        match jump_target(ins) {
            Some(t) => s.len() <= t <= cur.len(),
            None => true,
        },
    ensures
        emitted(s, cur.update(idx, ins)),
{
    let new = cur.update(idx, ins);
    assert(new.subrange(0, s.len() as int) =~= cur.subrange(0, s.len() as int));
    assert forall|k: int| s.len() <= k < new.len() implies match jump_target(#[trigger] new[k]) {
        Some(t) => s.len() <= t <= new.len(),
        None => true,
    } by {
        if k != idx {
            assert(new[k] == cur[k]);
        }
    }
}

proof fn lemma_instrs_view_push(s: Seq<Instruction>, ins: Instruction)
    ensures
        instrs_view(s.push(ins)) == instrs_view(s).push(instr_view(ins)),
        instrs_view(s).len() == s.len(),
{
    lemma_instrs_view_ext(s);
    lemma_instrs_view_ext(s.push(ins));
    assert(instrs_view(s.push(ins)) =~= instrs_view(s).push(instr_view(ins)));
}

proof fn lemma_instrs_view_update(s: Seq<Instruction>, i: int, ins: Instruction)
    requires
        0 <= i < s.len(),
    ensures
        instrs_view(s.update(i, ins)) == instrs_view(s).update(i, instr_view(ins)),
{
    lemma_instrs_view_ext(s);
    lemma_instrs_view_ext(s.update(i, ins));
    assert(instrs_view(s.update(i, ins)) =~= instrs_view(s).update(i, instr_view(ins)));
}

proof fn lemma_emit_plain(s: Seq<Instruction>, cur: Seq<Instruction>, ins: Instruction)
    requires
        emitted(s, cur),
        match jump_target(ins) {
            Some(t) => s.len() <= t <= cur.len() + 1,
            None => true,
        },
    ensures
        emitted(s, cur.push(ins)),
{
    let new = cur.push(ins);
    assert(new.subrange(0, s.len() as int) =~= cur.subrange(0, s.len() as int));
    assert forall|k: int| s.len() <= k < new.len() implies match jump_target(#[trigger] new[k]) {
        Some(t) => s.len() <= t <= new.len(),
        None => true,
    } by {
        if k < cur.len() {
            assert(new[k] == cur[k]);
        }
    }
}

/// The forms that compile their operands and then one instruction: the
/// number of operands, the instruction, the message when the count is wrong,
/// and whether the operands are compiled out of tail position.
pub open spec fn fixed_form_of(op: Seq<char>) -> Option<(usize, Instruction, Seq<char>, bool)> {
    if op == "neg"@ { Some((1usize, Instruction::Neg, "neg expects exactly 1 argument"@, true)) }
    else if op == "<="@ { Some((2usize, Instruction::Leq, "<= expects exactly 2 arguments"@, true)) }
    else if op == "<"@ { Some((2usize, Instruction::Lt, "< expects exactly 2 arguments"@, false)) }
    else if op == ">"@ { Some((2usize, Instruction::Gt, "> expects exactly 2 arguments"@, false)) }
    else if op == ">="@ { Some((2usize, Instruction::Gte, ">= expects exactly 2 arguments"@, false)) }
    else if op == "=="@ { Some((2usize, Instruction::Eq, "== expects exactly 2 arguments"@, false)) }
    else if op == "!="@ { Some((2usize, Instruction::Neq, "!= expects exactly 2 arguments"@, false)) }
    else if op == "print"@ { Some((1usize, Instruction::Print, "print expects exactly 1 argument"@, false)) }
    else if op == "cons"@ { Some((2usize, Instruction::Cons, "cons expects exactly 2 arguments"@, true)) }
    else if op == "car"@ { Some((1usize, Instruction::Car, "car expects exactly 1 argument"@, true)) }
    else if op == "cdr"@ { Some((1usize, Instruction::Cdr, "cdr expects exactly 1 argument"@, true)) }
    else if op == "list?"@ { Some((1usize, Instruction::IsList, "list? expects exactly 1 argument"@, true)) }
    else if op == "string?"@ { Some((1usize, Instruction::IsString, "string? expects exactly 1 argument"@, true)) }
    else if op == "symbol?"@ { Some((1usize, Instruction::IsSymbol, "symbol? expects exactly 1 argument"@, true)) }
    else if op == "symbol->string"@ {
        Some((1usize, Instruction::SymbolToString, "symbol->string expects exactly 1 argument"@, true))
    } else if op == "string->symbol"@ {
        Some((1usize, Instruction::StringToSymbol, "string->symbol expects exactly 1 argument"@, true))
    } else if op == "string-length"@ {
        Some((1usize, Instruction::StringLength, "string-length expects exactly 1 argument"@, true))
    } else if op == "substring"@ {
        Some((3usize, Instruction::Substring, "substring expects exactly 3 arguments (string, start, end)"@, true))
    } else if op == "string-append"@ {
        Some((2usize, Instruction::StringAppend, "string-append expects exactly 2 arguments"@, true))
    } else if op == "string->list"@ {
        Some((1usize, Instruction::StringToList, "string->list expects exactly 1 argument"@, true))
    } else if op == "list->string"@ {
        Some((1usize, Instruction::ListToString, "list->string expects exactly 1 argument"@, true))
    } else if op == "read-file"@ {
        Some((1usize, Instruction::ReadFile, "read-file expects exactly 1 argument (path)"@, true))
    } else if op == "write-file"@ {
        Some((2usize, Instruction::WriteFile, "write-file expects exactly 2 arguments (path, content)"@, true))
    } else if op == "file-exists?"@ {
        Some((1usize, Instruction::FileExists, "file-exists? expects exactly 1 argument (path)"@, true))
    } else if op == "get-args"@ {
        Some((0usize, Instruction::GetArgs, "get-args expects no arguments"@, false))
    } else if op == "write-binary-file"@ {
        Some((2usize, Instruction::WriteBinaryFile, "write-binary-file expects exactly 2 arguments (path, bytes)"@, true))
    } else if op == "char-code"@ {
        Some((1usize, Instruction::CharCode, "char-code expects exactly 1 argument (single-char string)"@, true))
    } else if op == "list-ref"@ {
        Some((2usize, Instruction::ListRef, "list-ref expects exactly 2 arguments (list, index)"@, true))
    } else if op == "list-length"@ {
        Some((1usize, Instruction::ListLength, "list-length expects exactly 1 argument (list)"@, true))
    } else if op == "append"@ {
        Some((2usize, Instruction::Append, "append expects exactly 2 arguments (list1, list2)"@, true))
    } else if op == "number->string"@ {
        Some((1usize, Instruction::NumberToString, "number->string expects exactly 1 argument (integer)"@, true))
    } else {
        None
    }
}

/// The arithmetic forms folded from the left: the opcode and the message
/// when there are too few operands.
pub open spec fn fold_form_of(op: Seq<char>) -> Option<(u8, Seq<char>)> {
    if op == "+"@ { Some((1u8, "+ expects at least 2 arguments"@)) }
    else if op == "-"@ { Some((2u8, "- expects at least 2 arguments"@)) }
    else if op == "*"@ { Some((3u8, "* expects at least 2 arguments"@)) }
    else if op == "/"@ { Some((4u8, "/ expects at least 2 arguments"@)) }
    else if op == "%"@ { Some((13u8, "% expects at least 2 arguments"@)) }
    else { None }
}

/// The forms with a fixed number of operands that compile to their operands
/// followed by one instruction: the number of operands, the instruction,
/// the message when the count is wrong, and whether the operands are
/// compiled out of tail position.
fn fixed_form(op: &str) -> (r: Option<(usize, Instruction, &'static str, bool)>)
    ensures
        r matches Some(f) ==> jump_target(f.1) is None,
        match (r, fixed_form_of(op@)) {
            (Some(f), Some(g)) => f.0 == g.0 && f.1 == g.1 && f.2@ == g.2 && f.3 == g.3,
            (None, None) => true,
            _ => false,
        },
{
    if same_text(op, "neg") { Some((1, Instruction::Neg, "neg expects exactly 1 argument", true)) }
    else if same_text(op, "<=") { Some((2, Instruction::Leq, "<= expects exactly 2 arguments", true)) }
    else if same_text(op, "<") { Some((2, Instruction::Lt, "< expects exactly 2 arguments", false)) }
    else if same_text(op, ">") { Some((2, Instruction::Gt, "> expects exactly 2 arguments", false)) }
    else if same_text(op, ">=") { Some((2, Instruction::Gte, ">= expects exactly 2 arguments", false)) }
    else if same_text(op, "==") { Some((2, Instruction::Eq, "== expects exactly 2 arguments", false)) }
    else if same_text(op, "!=") { Some((2, Instruction::Neq, "!= expects exactly 2 arguments", false)) }
    else if same_text(op, "print") { Some((1, Instruction::Print, "print expects exactly 1 argument", false)) }
    else if same_text(op, "cons") { Some((2, Instruction::Cons, "cons expects exactly 2 arguments", true)) }
    else if same_text(op, "car") { Some((1, Instruction::Car, "car expects exactly 1 argument", true)) }
    else if same_text(op, "cdr") { Some((1, Instruction::Cdr, "cdr expects exactly 1 argument", true)) }
    else if same_text(op, "list?") { Some((1, Instruction::IsList, "list? expects exactly 1 argument", true)) }
    else if same_text(op, "string?") { Some((1, Instruction::IsString, "string? expects exactly 1 argument", true)) }
    else if same_text(op, "symbol?") { Some((1, Instruction::IsSymbol, "symbol? expects exactly 1 argument", true)) }
    else if same_text(op, "symbol->string") {
        Some((1, Instruction::SymbolToString, "symbol->string expects exactly 1 argument", true))
    } else if same_text(op, "string->symbol") {
        Some((1, Instruction::StringToSymbol, "string->symbol expects exactly 1 argument", true))
    } else if same_text(op, "string-length") {
        Some((1, Instruction::StringLength, "string-length expects exactly 1 argument", true))
    } else if same_text(op, "substring") {
        Some((3, Instruction::Substring, "substring expects exactly 3 arguments (string, start, end)", true))
    } else if same_text(op, "string-append") {
        Some((2, Instruction::StringAppend, "string-append expects exactly 2 arguments", true))
    } else if same_text(op, "string->list") {
        Some((1, Instruction::StringToList, "string->list expects exactly 1 argument", true))
    } else if same_text(op, "list->string") {
        Some((1, Instruction::ListToString, "list->string expects exactly 1 argument", true))
    } else if same_text(op, "read-file") {
        Some((1, Instruction::ReadFile, "read-file expects exactly 1 argument (path)", true))
    } else if same_text(op, "write-file") {
        Some((2, Instruction::WriteFile, "write-file expects exactly 2 arguments (path, content)", true))
    } else if same_text(op, "file-exists?") {
        Some((1, Instruction::FileExists, "file-exists? expects exactly 1 argument (path)", true))
    } else if same_text(op, "get-args") {
        Some((0, Instruction::GetArgs, "get-args expects no arguments", false))
    } else if same_text(op, "write-binary-file") {
        Some((2, Instruction::WriteBinaryFile, "write-binary-file expects exactly 2 arguments (path, bytes)", true))
    } else if same_text(op, "char-code") {
        Some((1, Instruction::CharCode, "char-code expects exactly 1 argument (single-char string)", true))
    } else if same_text(op, "list-ref") {
        Some((2, Instruction::ListRef, "list-ref expects exactly 2 arguments (list, index)", true))
    } else if same_text(op, "list-length") {
        Some((1, Instruction::ListLength, "list-length expects exactly 1 argument (list)", true))
    } else if same_text(op, "append") {
        Some((2, Instruction::Append, "append expects exactly 2 arguments (list1, list2)", true))
    } else if same_text(op, "number->string") {
        Some((1, Instruction::NumberToString, "number->string expects exactly 1 argument (integer)", true))
    } else {
        None
    }
}

/// The arithmetic forms that take two or more operands, folded from the
/// left: the opcode of the instruction and the message when there are too
/// few operands.
fn fold_form(op: &str) -> (r: Option<(u8, &'static str)>)
    ensures
        r matches Some(f) ==> (f.0 == 1 || f.0 == 2 || f.0 == 3 || f.0 == 4 || f.0 == 13),
        match (r, fold_form_of(op@)) {
            (Some(f), Some(g)) => f.0 == g.0 && f.1@ == g.1,
            (None, None) => true,
            _ => false,
        },
{
    if same_text(op, "+") { Some((1, "+ expects at least 2 arguments")) }
    else if same_text(op, "-") { Some((2, "- expects at least 2 arguments")) }
    else if same_text(op, "*") { Some((3, "* expects at least 2 arguments")) }
    else if same_text(op, "/") { Some((4, "/ expects at least 2 arguments")) }
    else if same_text(op, "%") { Some((13, "% expects at least 2 arguments")) }
    else { None }
}

/// The arithmetic instruction with the opcode.
/// The arithmetic instruction with the opcode (`Mod` for any other).
pub open spec fn arith_of(op: u8) -> Instruction {
    if op == 1 { Instruction::Add } else if op == 2 { Instruction::Sub } else if op == 3 { Instruction::Mul }
    else if op == 4 { Instruction::Div } else { Instruction::Mod }
}

fn arith(op: u8) -> (r: Instruction)
    ensures
        jump_target(r) is None,
        r == arith_of(op),
{
    if op == 1 { Instruction::Add } else if op == 2 { Instruction::Sub } else if op == 3 { Instruction::Mul }
    else if op == 4 { Instruction::Div } else { Instruction::Mod }
}

/// An error at a copy of the location.
fn error_at(message: &str, location: &Location) -> (e: CompileError)
    ensures
        e.message@ == message@,
        e.location@ == location@,
{
    CompileError::new(owned(message), location.duplicate())
}

/// The items of a list expression.
fn list_items(e: &SourceExpr) -> (r: Option<&Vec<SourceExpr>>)
    ensures
        r matches Some(items) ==> e.expr == LispExpr::List(*items),
        r is None ==> !(e.expr is List),
{
    match &e.expr {
        LispExpr::List(items) => Some(items),
        _ => None,
    }
}

/// The text of a symbol expression.
fn symbol_of(e: &SourceExpr) -> (r: Option<&String>)
    ensures
        r matches Some(s) ==> e.expr == LispExpr::Symbol(*s),
        r is None ==> !(e.expr is Symbol),
{
    match &e.expr {
        LispExpr::Symbol(s) => Some(s),
        _ => None,
    }
}

/// Whether an expression is the symbol `name`.
fn is_symbol_text(e: &SourceExpr, name: &str) -> (r: bool)
    ensures
        r == (e.expr is Symbol && e.expr->Symbol_0@ == name@),
{
    match &e.expr {
        LispExpr::Symbol(s) => same_text(s.as_str(), name),
        _ => false,
    }
}

impl Compiler {
    /// The code that compiling `e` emits at address `at` (in tail position
    /// when `tail`): a number, float or boolean pushes itself, a name loads
    /// what it stands for, and a list is a form (see `plain_list_code`).
    /// `None` for what this does not describe: a dotted list, a name or float
    /// literal without value, and the forms `plain_list_code` leaves out.
    pub closed spec fn plain_code(&self, e: SourceExpr, tail: bool, at: int) -> Option<Seq<InstrView>>
        decreases e, 3int, 0int,
    {
        match e.expr {
            LispExpr::Number(n) => Some(seq![instr_view(Instruction::Push(Value::Integer(n)))]),
            LispExpr::Boolean(b) => Some(seq![instr_view(Instruction::Push(Value::Boolean(b)))]),
            LispExpr::Float(t) => match float_text_value(self.float_bits@, t@) {
                Some(bits) => Some(seq![instr_view(Instruction::Push(Value::Float(bits)))]),
                None => None,
            },
            LispExpr::Symbol(s) => self.symbol_load(s@),
            LispExpr::List(items) => self.plain_list_code(items@, tail, at),
            LispExpr::DottedList(..) => None,
        }
    }

    /// The code of a list form at address `at`: an arithmetic fold, an
    /// operation of fixed arity, `if`, `list`, `vector`, `hash-map`, `quote`,
    /// a call of a named function or of a variable's closure, or a call of
    /// what a head expression gives. The other special forms and macro
    /// calls give `None`.
    pub closed spec fn plain_list_code(&self, items: Seq<SourceExpr>, tail: bool, at: int) -> Option<Seq<InstrView>>
        decreases items, 2int, 0int,
    {
        if items.len() == 0 {
            None
        } else if items[0].expr is Symbol {
            let op = items[0].expr->Symbol_0@;
            let n = (items.len() - 1) as usize;
            if fold_form_of(op) is Some {
                if items.len() < 3 {
                    None
                } else {
                    self.fold_code(items, fold_form_of(op).unwrap().0, at)
                }
            } else if fixed_form_of(op) is Some {
                let f = fixed_form_of(op).unwrap();
                if items.len() != f.0 + 1 {
                    None
                } else {
                    match self.args_code(items, 1, if f.3 { false } else { tail }, at) {
                        Some(c) => Some(c.push(instr_view(f.1))),
                        None => None,
                    }
                }
            } else if op == "if"@ {
                if items.len() != 4 {
                    None
                } else {
                    self.if_code(items, tail, at)
                }
            } else if op == "when"@ || op == "unless"@ {
                self.when_code(items, op == "when"@, tail, at)
            } else if op == "and"@ || op == "or"@ {
                if items.len() < 2 {
                    None
                } else {
                    self.and_or_code(items, 1, op == "and"@, tail, at)
                }
            } else if op == "cond"@ {
                None
            } else if op == "do"@ || op == "begin"@ {
                if items.len() < 2 {
                    None
                } else {
                    self.do_code(items, 1, tail, at)
                }
            } else if op == "list"@ || op == "vector"@ {
                match self.args_code(items, 1, tail, at) {
                    Some(c) => Some(
                        c.push(
                            if op == "list"@ {
                                instr_view(Instruction::MakeList(n))
                            } else {
                                instr_view(Instruction::MakeVector(n))
                            },
                        ),
                    ),
                    None => None,
                }
            } else if op == "quote"@ {
                if items.len() != 2 {
                    None
                } else {
                    match quoted(self.float_bits@, source_view(items[1])) {
                        Some(v) => Some(seq![InstrView::Push(v)]),
                        None => None,
                    }
                }
            } else if op == "macroexpand"@ || op == "quasiquote"@ || op == "let"@ || op == "loop"@ || op == "recur"@
                || op == "lambda"@ || op == "ffi-call"@ {
                None
            } else if op == "hash-map"@ {
                if n % 2 != 0 {
                    None
                } else {
                    match self.args_code(items, 1, tail, at) {
                        Some(c) => Some(c.push(instr_view(Instruction::MakeHashMap((n / 2) as usize)))),
                        None => None,
                    }
                }
            } else {
                self.call_code(items, op, tail, at)
            }
        } else {
            match self.plain_code(items[0], tail, at) {
                Some(h) => match self.args_code(items, 1, tail, at + h.len()) {
                    Some(c) => Some(h + c + seq![instr_view(Instruction::CallClosure((items.len() - 1) as usize))]),
                    None => None,
                },
                None => None,
            }
        }
    }

    /// The code of `(op a1 ... an)` with `op` a name: not a macro; for a
    /// variable, its load, the arguments and `CallClosure(n)`; otherwise the
    /// arguments and a call (a tail call in tail position) of the function
    /// the name resolves to.
    pub closed spec fn call_code(&self, items: Seq<SourceExpr>, op: Seq<char>, tail: bool, at: int) -> Option<Seq<InstrView>>
        decreases items, 1int, 0int,
    {
        let n = (items.len() - 1) as usize;
        if items.len() == 0 || has_key(self.macros@, op) {
            None
        } else if self.variable_load(op) is Some {
            let load = instrs_view(self.variable_load(op).unwrap());
            match self.args_code(items, 1, false, at + load.len()) {
                Some(c) => Some(load + c + seq![instr_view(Instruction::CallClosure(n))]),
                None => None,
            }
        } else {
            match self.args_code(items, 1, false, at) {
                Some(c) => Some(
                    c.push(
                        if tail {
                            InstrView::TailCall(self.function_name_for(op), n)
                        } else {
                            InstrView::Call(self.function_name_for(op), n)
                        },
                    ),
                ),
                None => None,
            }
        }
    }

    /// The code of `(op a1 a2 ...)` folded with the arithmetic `code`: the
    /// first operand, then each further one followed by the operation.
    pub closed spec fn fold_code(&self, items: Seq<SourceExpr>, code: u8, at: int) -> Option<Seq<InstrView>>
        decreases items, 1int, 0int,
    {
        if items.len() < 2 {
            None
        } else {
            match self.plain_code(items[1], false, at) {
                Some(c) => match self.fold_rest(items, 2, code, at + c.len()) {
                    Some(d) => Some(c + d),
                    None => None,
                },
                None => None,
            }
        }
    }

    /// The operands from `from` on, each followed by the operation `code`.
    pub closed spec fn fold_rest(&self, items: Seq<SourceExpr>, from: int, code: u8, at: int) -> Option<Seq<InstrView>>
        decreases items, 0int, items.len() - from,
    {
        if from < 0 || from >= items.len() {
            Some(Seq::empty())
        } else {
            match self.plain_code(items[from], false, at) {
                Some(c) => match self.fold_rest(items, from + 1, code, at + c.len() + 1) {
                    Some(d) => Some(c.push(instr_view(arith_of(code))) + d),
                    None => None,
                },
                None => None,
            }
        }
    }

    /// The code of `(if c t e)`: the test, a jump past the `then` branch
    /// when false, the `then` branch, a jump to the end, the `else` branch.
    pub closed spec fn if_code(&self, items: Seq<SourceExpr>, tail: bool, at: int) -> Option<Seq<InstrView>>
        decreases items, 1int, 0int,
    {
        if items.len() != 4 {
            None
        } else {
            match self.plain_code(items[1], false, at) {
                Some(c1) => {
                    let j = at + c1.len();
                    match self.plain_code(items[2], tail, j + 1) {
                        Some(c2) => {
                            let k = j + 1 + c2.len();
                            match self.plain_code(items[3], tail, k + 1) {
                                Some(c3) => Some(
                                    c1 + seq![instr_view(Instruction::JmpIfFalse((k + 1) as usize))] + c2 + seq![
                                        instr_view(Instruction::Jmp((k + 1 + c3.len()) as usize)),
                                    ] + c3,
                                ),
                                None => None,
                            }
                        },
                        None => None,
                    }
                },
                None => None,
            }
        }
    }

    /// The code of the body of `(do e ...)` from `items[from]` on: each
    /// value but the last is dropped with `PopN(1)`; only the last stands in
    /// tail position.
    pub closed spec fn do_code(&self, items: Seq<SourceExpr>, from: int, tail: bool, at: int) -> Option<Seq<InstrView>>
        decreases items, 0int, items.len() - from,
    {
        if from < 0 || from >= items.len() {
            Some(Seq::empty())
        } else if from == items.len() - 1 {
            self.plain_code(items[from], tail, at)
        } else {
            match self.plain_code(items[from], false, at) {
                Some(c) => match self.do_code(items, from + 1, tail, at + c.len() + 1) {
                    Some(d) => Some(c.push(instr_view(Instruction::PopN(1))) + d),
                    None => None,
                },
                None => None,
            }
        }
    }

    /// The code of `(when c e)` (as `(if c e false)`) or of `(unless c e)`
    /// (as `(if c false e)`).
    pub closed spec fn when_code(&self, items: Seq<SourceExpr>, when: bool, tail: bool, at: int) -> Option<Seq<InstrView>>
        decreases items, 1int, 0int,
    {
        if items.len() != 3 {
            None
        } else {
            match self.plain_code(items[1], false, at) {
                Some(c1) => {
                    let j = at + c1.len();
                    let first = if when {
                        self.plain_code(items[2], tail, j + 1)
                    } else {
                        Some(seq![instr_view(Instruction::Push(Value::Boolean(false)))])
                    };
                    match first {
                        Some(c2) => {
                            let k = j + 1 + c2.len();
                            let second = if when {
                                Some(seq![instr_view(Instruction::Push(Value::Boolean(false)))])
                            } else {
                                self.plain_code(items[2], tail, k + 1)
                            };
                            match second {
                                Some(c3) => Some(
                                    c1 + seq![instr_view(Instruction::JmpIfFalse((k + 1) as usize))] + c2 + seq![
                                        instr_view(Instruction::Jmp((k + 1 + c3.len()) as usize)),
                                    ] + c3,
                                ),
                                None => None,
                            }
                        },
                        None => None,
                    }
                },
                None => None,
            }
        }
    }

    /// The code of `(and a ...)` (`is_and`) or `(or a ...)` from `items[from]`
    /// on: each operand but the last is tested, and a false one (for `and`)
    /// or a true one (for `or`) decides the value; the last gives the value.
    pub closed spec fn and_or_code(&self, items: Seq<SourceExpr>, from: int, is_and: bool, tail: bool, at: int) -> Option<
        Seq<InstrView>,
    >
        decreases items, 0int, items.len() - from,
    {
        if from < 0 || from >= items.len() {
            Some(seq![instr_view(Instruction::Push(Value::Boolean(is_and)))])
        } else if from == items.len() - 1 {
            self.plain_code(items[from], tail, at)
        } else {
            match self.plain_code(items[from], false, at) {
                Some(c1) => {
                    let j = at + c1.len();
                    let first = if is_and {
                        self.and_or_code(items, from + 1, is_and, tail, j + 1)
                    } else {
                        Some(seq![instr_view(Instruction::Push(Value::Boolean(true)))])
                    };
                    match first {
                        Some(c2) => {
                            let k = j + 1 + c2.len();
                            let second = if is_and {
                                Some(seq![instr_view(Instruction::Push(Value::Boolean(false)))])
                            } else {
                                self.and_or_code(items, from + 1, is_and, tail, k + 1)
                            };
                            match second {
                                Some(c3) => Some(
                                    c1 + seq![instr_view(Instruction::JmpIfFalse((k + 1) as usize))] + c2 + seq![
                                        instr_view(Instruction::Jmp((k + 1 + c3.len()) as usize)),
                                    ] + c3,
                                ),
                                None => None,
                            }
                        },
                        None => None,
                    }
                },
                None => None,
            }
        }
    }

    /// The code of the items from `from` on, one after the other.
    pub closed spec fn args_code(&self, items: Seq<SourceExpr>, from: int, tail: bool, at: int) -> Option<Seq<InstrView>>
        decreases items, 0int, items.len() - from,
    {
        if from < 0 || from >= items.len() {
            Some(Seq::empty())
        } else {
            match self.plain_code(items[from], tail, at) {
                Some(c) => match self.args_code(items, from + 1, tail, at + c.len()) {
                    Some(d) => Some(c + d),
                    None => None,
                },
                None => None,
            }
        }
    }

    /// The code of the operands `items[1..]`, in order, then `i`.
    pub open spec fn operands_then(&self, items: Seq<SourceExpr>, t: bool, at: int, i: Instruction) -> Option<Seq<InstrView>> {
        match self.args_code(items, 1, t, at) {
            Some(x) => Some(x.push(instr_view(i))),
            None => None,
        }
    }

    /// Each operator form compiles to the code of its operands, in order,
    /// then the instruction the language gives the operator: the arithmetic
    /// operators on two operands `+` Add, `-` Sub, `*` Mul, `/` Div and `%`
    /// Mod; the comparisons `<=` Leq, `<` Lt, `>` Gt, `>=` Gte, `==` Eq and
    /// `!=` Neq; and each other built-in operator its own instruction. The
    /// operands of the arithmetic operators, of `<=`, `neg` and of the list,
    /// string and file operators are compiled out of tail position; those of
    /// the other comparisons, of `print` and of `get-args` in the position of
    /// the form.
    #[verifier::spinoff_prover]
    pub proof fn law_operator_forms(c: &Compiler, items: Seq<SourceExpr>, tail: bool, at: int)
        requires
            items.len() > 0,
            items[0].expr is Symbol,
        ensures
            ({
                let op = items[0].expr->Symbol_0@;
                let code = c.plain_list_code(items, tail, at);
                &&& op == "+"@ && items.len() == 3 ==> code == c.operands_then(items, false, at, Instruction::Add)
                &&& op == "-"@ && items.len() == 3 ==> code == c.operands_then(items, false, at, Instruction::Sub)
                &&& op == "*"@ && items.len() == 3 ==> code == c.operands_then(items, false, at, Instruction::Mul)
                &&& op == "/"@ && items.len() == 3 ==> code == c.operands_then(items, false, at, Instruction::Div)
                &&& op == "%"@ && items.len() == 3 ==> code == c.operands_then(items, false, at, Instruction::Mod)
                &&& op == "neg"@ && items.len() == 2 ==> code == c.operands_then(items, false, at, Instruction::Neg)
                &&& op == "<="@ && items.len() == 3 ==> code == c.operands_then(items, false, at, Instruction::Leq)
                &&& op == "<"@ && items.len() == 3 ==> code == c.operands_then(items, tail, at, Instruction::Lt)
                &&& op == ">"@ && items.len() == 3 ==> code == c.operands_then(items, tail, at, Instruction::Gt)
                &&& op == ">="@ && items.len() == 3 ==> code == c.operands_then(items, tail, at, Instruction::Gte)
                &&& op == "=="@ && items.len() == 3 ==> code == c.operands_then(items, tail, at, Instruction::Eq)
                &&& op == "!="@ && items.len() == 3 ==> code == c.operands_then(items, tail, at, Instruction::Neq)
                &&& op == "print"@ && items.len() == 2 ==> code == c.operands_then(items, tail, at, Instruction::Print)
                &&& op == "cons"@ && items.len() == 3 ==> code == c.operands_then(items, false, at, Instruction::Cons)
                &&& op == "car"@ && items.len() == 2 ==> code == c.operands_then(items, false, at, Instruction::Car)
                &&& op == "cdr"@ && items.len() == 2 ==> code == c.operands_then(items, false, at, Instruction::Cdr)
                &&& op == "list?"@ && items.len() == 2 ==> code == c.operands_then(items, false, at, Instruction::IsList)
                &&& op == "string?"@ && items.len() == 2 ==> code == c.operands_then(items, false, at, Instruction::IsString)
                &&& op == "symbol?"@ && items.len() == 2 ==> code == c.operands_then(items, false, at, Instruction::IsSymbol)
                &&& op == "symbol->string"@ && items.len() == 2 ==> code == c.operands_then(items, false, at, Instruction::SymbolToString)
                &&& op == "string->symbol"@ && items.len() == 2 ==> code == c.operands_then(items, false, at, Instruction::StringToSymbol)
                &&& op == "string-length"@ && items.len() == 2 ==> code == c.operands_then(items, false, at, Instruction::StringLength)
                &&& op == "substring"@ && items.len() == 4 ==> code == c.operands_then(items, false, at, Instruction::Substring)
                &&& op == "string-append"@ && items.len() == 3 ==> code == c.operands_then(items, false, at, Instruction::StringAppend)
                &&& op == "string->list"@ && items.len() == 2 ==> code == c.operands_then(items, false, at, Instruction::StringToList)
                &&& op == "list->string"@ && items.len() == 2 ==> code == c.operands_then(items, false, at, Instruction::ListToString)
                &&& op == "read-file"@ && items.len() == 2 ==> code == c.operands_then(items, false, at, Instruction::ReadFile)
                &&& op == "write-file"@ && items.len() == 3 ==> code == c.operands_then(items, false, at, Instruction::WriteFile)
                &&& op == "file-exists?"@ && items.len() == 2 ==> code == c.operands_then(items, false, at, Instruction::FileExists)
                &&& op == "get-args"@ && items.len() == 1 ==> code == c.operands_then(items, tail, at, Instruction::GetArgs)
                &&& op == "write-binary-file"@ && items.len() == 3 ==> code == c.operands_then(items, false, at, Instruction::WriteBinaryFile)
                &&& op == "char-code"@ && items.len() == 2 ==> code == c.operands_then(items, false, at, Instruction::CharCode)
                &&& op == "list-ref"@ && items.len() == 3 ==> code == c.operands_then(items, false, at, Instruction::ListRef)
                &&& op == "list-length"@ && items.len() == 2 ==> code == c.operands_then(items, false, at, Instruction::ListLength)
                &&& op == "append"@ && items.len() == 3 ==> code == c.operands_then(items, false, at, Instruction::Append)
                &&& op == "number->string"@ && items.len() == 2 ==> code == c.operands_then(items, false, at, Instruction::NumberToString)
            }),
    {
        reveal_strlit("+");
        reveal_strlit("-");
        reveal_strlit("*");
        reveal_strlit("/");
        reveal_strlit("%");
        reveal_strlit("neg");
        reveal_strlit("<=");
        reveal_strlit("<");
        reveal_strlit(">");
        reveal_strlit(">=");
        reveal_strlit("==");
        reveal_strlit("!=");
        reveal_strlit("print");
        reveal_strlit("cons");
        reveal_strlit("car");
        reveal_strlit("cdr");
        reveal_strlit("list?");
        reveal_strlit("string?");
        reveal_strlit("symbol?");
        reveal_strlit("symbol->string");
        reveal_strlit("string->symbol");
        reveal_strlit("string-length");
        reveal_strlit("substring");
        reveal_strlit("string-append");
        reveal_strlit("string->list");
        reveal_strlit("list->string");
        reveal_strlit("read-file");
        reveal_strlit("write-file");
        reveal_strlit("file-exists?");
        reveal_strlit("get-args");
        reveal_strlit("write-binary-file");
        reveal_strlit("char-code");
        reveal_strlit("list-ref");
        reveal_strlit("list-length");
        reveal_strlit("append");
        reveal_strlit("number->string");
        let op = items[0].expr->Symbol_0@;
        if op == "+"@ {
            assert(op.len() == 1 && op[0] == '+');
            if items.len() == 3 {
                Self::lemma_fold_list_code(c, items, at);
            }
        } else if op == "-"@ {
            assert(op.len() == 1 && op[0] == '-');
            if items.len() == 3 {
                Self::lemma_fold_list_code(c, items, at);
            }
        } else if op == "*"@ {
            assert(op.len() == 1 && op[0] == '*');
            if items.len() == 3 {
                Self::lemma_fold_list_code(c, items, at);
            }
        } else if op == "/"@ {
            assert(op.len() == 1 && op[0] == '/');
            if items.len() == 3 {
                Self::lemma_fold_list_code(c, items, at);
            }
        } else if op == "%"@ {
            assert(op.len() == 1 && op[0] == '%');
            if items.len() == 3 {
                Self::lemma_fold_list_code(c, items, at);
            }
        } else if op == "neg"@ {
            assert(op.len() == 3 && op[0] == 'n' && op[1] == 'e' && op[2] == 'g');
            if items.len() == fixed_form_of(op).unwrap().0 + 1 {
                Self::lemma_fixed_list_code(c, items, tail, at);
            }
        } else if op == "<="@ {
            assert(op.len() == 2 && op[0] == '<' && op[1] == '=');
            if items.len() == fixed_form_of(op).unwrap().0 + 1 {
                Self::lemma_fixed_list_code(c, items, tail, at);
            }
        } else if op == "<"@ {
            assert(op.len() == 1 && op[0] == '<');
            if items.len() == fixed_form_of(op).unwrap().0 + 1 {
                Self::lemma_fixed_list_code(c, items, tail, at);
            }
        } else if op == ">"@ {
            assert(op.len() == 1 && op[0] == '>');
            if items.len() == fixed_form_of(op).unwrap().0 + 1 {
                Self::lemma_fixed_list_code(c, items, tail, at);
            }
        } else if op == ">="@ {
            assert(op.len() == 2 && op[0] == '>' && op[1] == '=');
            if items.len() == fixed_form_of(op).unwrap().0 + 1 {
                Self::lemma_fixed_list_code(c, items, tail, at);
            }
        } else if op == "=="@ {
            assert(op.len() == 2 && op[0] == '=' && op[1] == '=');
            if items.len() == fixed_form_of(op).unwrap().0 + 1 {
                Self::lemma_fixed_list_code(c, items, tail, at);
            }
        } else if op == "!="@ {
            assert(op.len() == 2 && op[0] == '!' && op[1] == '=');
            if items.len() == fixed_form_of(op).unwrap().0 + 1 {
                Self::lemma_fixed_list_code(c, items, tail, at);
            }
        } else if op == "print"@ {
            assert(op.len() == 5 && op[0] == 'p' && op[1] == 'r' && op[2] == 'i' && op[3] == 'n' && op[4] == 't');
            if items.len() == fixed_form_of(op).unwrap().0 + 1 {
                Self::lemma_fixed_list_code(c, items, tail, at);
            }
        } else if op == "cons"@ {
            assert(op.len() == 4 && op[0] == 'c' && op[1] == 'o' && op[2] == 'n' && op[3] == 's');
            if items.len() == fixed_form_of(op).unwrap().0 + 1 {
                Self::lemma_fixed_list_code(c, items, tail, at);
            }
        } else if op == "car"@ {
            assert(op.len() == 3 && op[0] == 'c' && op[1] == 'a' && op[2] == 'r');
            if items.len() == fixed_form_of(op).unwrap().0 + 1 {
                Self::lemma_fixed_list_code(c, items, tail, at);
            }
        } else if op == "cdr"@ {
            assert(op.len() == 3 && op[0] == 'c' && op[1] == 'd' && op[2] == 'r');
            if items.len() == fixed_form_of(op).unwrap().0 + 1 {
                Self::lemma_fixed_list_code(c, items, tail, at);
            }
        } else if op == "list?"@ {
            assert(op.len() == 5 && op[0] == 'l' && op[1] == 'i' && op[2] == 's' && op[3] == 't' && op[4] == '?');
            if items.len() == fixed_form_of(op).unwrap().0 + 1 {
                Self::lemma_fixed_list_code(c, items, tail, at);
            }
        } else if op == "string?"@ {
            assert(op.len() == 7 && op[0] == 's' && op[1] == 't' && op[2] == 'r' && op[3] == 'i' && op[4] == 'n' && op[5] == 'g' && op[6] == '?');
            if items.len() == fixed_form_of(op).unwrap().0 + 1 {
                Self::lemma_fixed_list_code(c, items, tail, at);
            }
        } else if op == "symbol?"@ {
            assert(op.len() == 7 && op[0] == 's' && op[1] == 'y' && op[2] == 'm' && op[3] == 'b' && op[4] == 'o' && op[5] == 'l' && op[6] == '?');
            if items.len() == fixed_form_of(op).unwrap().0 + 1 {
                Self::lemma_fixed_list_code(c, items, tail, at);
            }
        } else if op == "symbol->string"@ {
            assert(op.len() == 14 && op[0] == 's' && op[1] == 'y' && op[2] == 'm' && op[3] == 'b' && op[4] == 'o' && op[5] == 'l' && op[6] == '-' && op[7] == '>' && op[8] == 's' && op[9] == 't' && op[10] == 'r' && op[11] == 'i' && op[12] == 'n' && op[13] == 'g');
            if items.len() == fixed_form_of(op).unwrap().0 + 1 {
                Self::lemma_fixed_list_code(c, items, tail, at);
            }
        } else if op == "string->symbol"@ {
            assert(op.len() == 14 && op[0] == 's' && op[1] == 't' && op[2] == 'r' && op[3] == 'i' && op[4] == 'n' && op[5] == 'g' && op[6] == '-' && op[7] == '>' && op[8] == 's' && op[9] == 'y' && op[10] == 'm' && op[11] == 'b' && op[12] == 'o' && op[13] == 'l');
            if items.len() == fixed_form_of(op).unwrap().0 + 1 {
                Self::lemma_fixed_list_code(c, items, tail, at);
            }
        } else if op == "string-length"@ {
            assert(op.len() == 13 && op[0] == 's' && op[1] == 't' && op[2] == 'r' && op[3] == 'i' && op[4] == 'n' && op[5] == 'g' && op[6] == '-' && op[7] == 'l' && op[8] == 'e' && op[9] == 'n' && op[10] == 'g' && op[11] == 't' && op[12] == 'h');
            if items.len() == fixed_form_of(op).unwrap().0 + 1 {
                Self::lemma_fixed_list_code(c, items, tail, at);
            }
        } else if op == "substring"@ {
            assert(op.len() == 9 && op[0] == 's' && op[1] == 'u' && op[2] == 'b' && op[3] == 's' && op[4] == 't' && op[5] == 'r' && op[6] == 'i' && op[7] == 'n' && op[8] == 'g');
            if items.len() == fixed_form_of(op).unwrap().0 + 1 {
                Self::lemma_fixed_list_code(c, items, tail, at);
            }
        } else if op == "string-append"@ {
            assert(op.len() == 13 && op[0] == 's' && op[1] == 't' && op[2] == 'r' && op[3] == 'i' && op[4] == 'n' && op[5] == 'g' && op[6] == '-' && op[7] == 'a' && op[8] == 'p' && op[9] == 'p' && op[10] == 'e' && op[11] == 'n' && op[12] == 'd');
            if items.len() == fixed_form_of(op).unwrap().0 + 1 {
                Self::lemma_fixed_list_code(c, items, tail, at);
            }
        } else if op == "string->list"@ {
            assert(op.len() == 12 && op[0] == 's' && op[1] == 't' && op[2] == 'r' && op[3] == 'i' && op[4] == 'n' && op[5] == 'g' && op[6] == '-' && op[7] == '>' && op[8] == 'l' && op[9] == 'i' && op[10] == 's' && op[11] == 't');
            if items.len() == fixed_form_of(op).unwrap().0 + 1 {
                Self::lemma_fixed_list_code(c, items, tail, at);
            }
        } else if op == "list->string"@ {
            assert(op.len() == 12 && op[0] == 'l' && op[1] == 'i' && op[2] == 's' && op[3] == 't' && op[4] == '-' && op[5] == '>' && op[6] == 's' && op[7] == 't' && op[8] == 'r' && op[9] == 'i' && op[10] == 'n' && op[11] == 'g');
            if items.len() == fixed_form_of(op).unwrap().0 + 1 {
                Self::lemma_fixed_list_code(c, items, tail, at);
            }
        } else if op == "read-file"@ {
            assert(op.len() == 9 && op[0] == 'r' && op[1] == 'e' && op[2] == 'a' && op[3] == 'd' && op[4] == '-' && op[5] == 'f' && op[6] == 'i' && op[7] == 'l' && op[8] == 'e');
            if items.len() == fixed_form_of(op).unwrap().0 + 1 {
                Self::lemma_fixed_list_code(c, items, tail, at);
            }
        } else if op == "write-file"@ {
            assert(op.len() == 10 && op[0] == 'w' && op[1] == 'r' && op[2] == 'i' && op[3] == 't' && op[4] == 'e' && op[5] == '-' && op[6] == 'f' && op[7] == 'i' && op[8] == 'l' && op[9] == 'e');
            if items.len() == fixed_form_of(op).unwrap().0 + 1 {
                Self::lemma_fixed_list_code(c, items, tail, at);
            }
        } else if op == "file-exists?"@ {
            assert(op.len() == 12 && op[0] == 'f' && op[1] == 'i' && op[2] == 'l' && op[3] == 'e' && op[4] == '-' && op[5] == 'e' && op[6] == 'x' && op[7] == 'i' && op[8] == 's' && op[9] == 't' && op[10] == 's' && op[11] == '?');
            if items.len() == fixed_form_of(op).unwrap().0 + 1 {
                Self::lemma_fixed_list_code(c, items, tail, at);
            }
        } else if op == "get-args"@ {
            assert(op.len() == 8 && op[0] == 'g' && op[1] == 'e' && op[2] == 't' && op[3] == '-' && op[4] == 'a' && op[5] == 'r' && op[6] == 'g' && op[7] == 's');
            if items.len() == fixed_form_of(op).unwrap().0 + 1 {
                Self::lemma_fixed_list_code(c, items, tail, at);
            }
        } else if op == "write-binary-file"@ {
            assert(op.len() == 17 && op[0] == 'w' && op[1] == 'r' && op[2] == 'i' && op[3] == 't' && op[4] == 'e' && op[5] == '-' && op[6] == 'b' && op[7] == 'i' && op[8] == 'n' && op[9] == 'a' && op[10] == 'r' && op[11] == 'y' && op[12] == '-' && op[13] == 'f' && op[14] == 'i' && op[15] == 'l' && op[16] == 'e');
            if items.len() == fixed_form_of(op).unwrap().0 + 1 {
                Self::lemma_fixed_list_code(c, items, tail, at);
            }
        } else if op == "char-code"@ {
            assert(op.len() == 9 && op[0] == 'c' && op[1] == 'h' && op[2] == 'a' && op[3] == 'r' && op[4] == '-' && op[5] == 'c' && op[6] == 'o' && op[7] == 'd' && op[8] == 'e');
            if items.len() == fixed_form_of(op).unwrap().0 + 1 {
                Self::lemma_fixed_list_code(c, items, tail, at);
            }
        } else if op == "list-ref"@ {
            assert(op.len() == 8 && op[0] == 'l' && op[1] == 'i' && op[2] == 's' && op[3] == 't' && op[4] == '-' && op[5] == 'r' && op[6] == 'e' && op[7] == 'f');
            if items.len() == fixed_form_of(op).unwrap().0 + 1 {
                Self::lemma_fixed_list_code(c, items, tail, at);
            }
        } else if op == "list-length"@ {
            assert(op.len() == 11 && op[0] == 'l' && op[1] == 'i' && op[2] == 's' && op[3] == 't' && op[4] == '-' && op[5] == 'l' && op[6] == 'e' && op[7] == 'n' && op[8] == 'g' && op[9] == 't' && op[10] == 'h');
            if items.len() == fixed_form_of(op).unwrap().0 + 1 {
                Self::lemma_fixed_list_code(c, items, tail, at);
            }
        } else if op == "append"@ {
            assert(op.len() == 6 && op[0] == 'a' && op[1] == 'p' && op[2] == 'p' && op[3] == 'e' && op[4] == 'n' && op[5] == 'd');
            if items.len() == fixed_form_of(op).unwrap().0 + 1 {
                Self::lemma_fixed_list_code(c, items, tail, at);
            }
        } else if op == "number->string"@ {
            assert(op.len() == 14 && op[0] == 'n' && op[1] == 'u' && op[2] == 'm' && op[3] == 'b' && op[4] == 'e' && op[5] == 'r' && op[6] == '-' && op[7] == '>' && op[8] == 's' && op[9] == 't' && op[10] == 'r' && op[11] == 'i' && op[12] == 'n' && op[13] == 'g');
            if items.len() == fixed_form_of(op).unwrap().0 + 1 {
                Self::lemma_fixed_list_code(c, items, tail, at);
            }
        }
    }

    /// `(list a ...)` and `(vector a ...)` compile to their operands, in
    /// order, then `MakeList` or `MakeVector` of their number; `(hash-map k v
    /// ...)` with an even number of operands to its operands, then
    /// `MakeHashMap` of the number of pairs. Their operands are compiled in
    /// the position of the form.
    #[verifier::rlimit(100)]
    #[verifier::spinoff_prover]
    pub proof fn law_collection_forms(c: &Compiler, items: Seq<SourceExpr>, tail: bool, at: int)
        requires
            items.len() > 0,
            items[0].expr is Symbol,
        ensures
            ({
                let op = items[0].expr->Symbol_0@;
                let n = (items.len() - 1) as usize;
                let code = c.plain_list_code(items, tail, at);
                &&& op == "list"@ ==> code == c.operands_then(items, tail, at, Instruction::MakeList(n))
                &&& op == "vector"@ ==> code == c.operands_then(items, tail, at, Instruction::MakeVector(n))
                &&& op == "hash-map"@ && n % 2 == 0 ==> code == c.operands_then(
                    items,
                    tail,
                    at,
                    Instruction::MakeHashMap((n / 2) as usize),
                )
            }),
    {
        reveal_strlit("+");
        reveal_strlit("-");
        reveal_strlit("*");
        reveal_strlit("/");
        reveal_strlit("%");
        reveal_strlit("neg");
        reveal_strlit("<=");
        reveal_strlit("<");
        reveal_strlit(">");
        reveal_strlit(">=");
        reveal_strlit("==");
        reveal_strlit("!=");
        reveal_strlit("print");
        reveal_strlit("cons");
        reveal_strlit("car");
        reveal_strlit("cdr");
        reveal_strlit("list?");
        reveal_strlit("string?");
        reveal_strlit("symbol?");
        reveal_strlit("symbol->string");
        reveal_strlit("string->symbol");
        reveal_strlit("string-length");
        reveal_strlit("substring");
        reveal_strlit("string-append");
        reveal_strlit("string->list");
        reveal_strlit("list->string");
        reveal_strlit("read-file");
        reveal_strlit("write-file");
        reveal_strlit("file-exists?");
        reveal_strlit("get-args");
        reveal_strlit("write-binary-file");
        reveal_strlit("char-code");
        reveal_strlit("list-ref");
        reveal_strlit("list-length");
        reveal_strlit("append");
        reveal_strlit("number->string");
        reveal_strlit("if");
        reveal_strlit("when");
        reveal_strlit("unless");
        reveal_strlit("and");
        reveal_strlit("or");
        reveal_strlit("cond");
        reveal_strlit("do");
        reveal_strlit("begin");
        reveal_strlit("list");
        reveal_strlit("vector");
        reveal_strlit("quote");
        reveal_strlit("macroexpand");
        reveal_strlit("quasiquote");
        reveal_strlit("let");
        reveal_strlit("loop");
        reveal_strlit("recur");
        reveal_strlit("lambda");
        reveal_strlit("ffi-call");
        reveal_strlit("hash-map");
        let op = items[0].expr->Symbol_0@;
        if op == "list"@ {
            assert(op.len() == 4 && op[0] == 'l' && op[1] == 'i' && op[2] == 's' && op[3] == 't');
        } else if op == "vector"@ {
            assert(op.len() == 6 && op[0] == 'v' && op[1] == 'e' && op[2] == 'c' && op[3] == 't' && op[4] == 'o' && op[5] == 'r');
        } else if op == "hash-map"@ {
            assert(op.len() == 8 && op[0] == 'h' && op[1] == 'a' && op[2] == 's' && op[3] == 'h' && op[4] == '-' && op[5] == 'm' && op[6] == 'a' && op[7] == 'p');
        }
    }

    /// Compiled and run, a comparison of two integer literals leaves the
    /// truth of the comparison: the code of `(op a b)`, run from its first
    /// instruction, takes three steps and pushes `a <= b` for `<=`, `a < b`
    /// for `<`, `a > b` for `>`, `a >= b` for `>=`, `a == b` for `==` and
    /// `a != b` for `!=`.
#[verifier::rlimit(100)]
    #[verifier::spinoff_prover]
        pub proof fn law_compiled_comparison_runs(c: &Compiler, items: Seq<SourceExpr>, tail: bool, m: MachineView, a: i64, b: i64)
        requires
            items.len() == 3,
            items[0].expr is Symbol,
            items[1].expr == LispExpr::Number(a),
            items[2].expr == LispExpr::Number(b),
            c.plain_list_code(items, tail, m.ip as int) is Some,
            m.ip < m.code.len(),
            m.code == m.code.subrange(0, m.ip as int) + c.plain_list_code(items, tail, m.ip as int).unwrap(),
            m.code.len() <= usize::MAX,
        ensures
            ({
                let op = items[0].expr->Symbol_0@;
                let ran = |v: ValueView| step(m) matches Outcome::Next(m1) && step(m1) matches Outcome::Next(m2) && step(m2)
                    == Outcome::Next(MachineView { ip: (m.ip + 3) as usize, stack: m.stack.push(v), ..m });
                &&& op == "<="@ ==> ran(ValueView::Boolean(a <= b))
                &&& op == "<"@ ==> ran(ValueView::Boolean(a < b))
                &&& op == ">"@ ==> ran(ValueView::Boolean(a > b))
                &&& op == ">="@ ==> ran(ValueView::Boolean(a >= b))
                &&& op == "=="@ ==> ran(ValueView::Boolean(a == b))
                &&& op == "!="@ ==> ran(ValueView::Boolean(a != b))
            }),
    {
        let at = m.ip as int;
        Self::law_operator_forms(c, items, tail, at);
        Self::lemma_literal_operands(c, items, tail, at, a, b);
        Self::lemma_literal_operands(c, items, false, at, a, b);
        let code = c.plain_list_code(items, tail, at).unwrap();
        if code.len() == 3 && code[0] == InstrView::Push(ValueView::Integer(a)) && code[1] == InstrView::Push(
            ValueView::Integer(b),
        ) {
            let pre = m.code.subrange(0, m.ip as int);
            assert(pre.len() == m.ip);
            assert(m.code[m.ip as int] == (pre + code)[m.ip as int]);
            assert(m.code[m.ip as int] == code[0]);
            assert(m.code[m.ip + 1] == code[1]);
            assert(m.code[m.ip + 2] == code[2]);
            crate::meaning::lemma_two_pushes(m, a, b);
            let m2 = MachineView {
                ip: (m.ip + 2) as usize,
                stack: m.stack.push(ValueView::Integer(a)).push(ValueView::Integer(b)),
                ..m
            };
            crate::meaning::law_integer_comparisons(m2, a, b);
            assert(m2.stack.subrange(0, m2.stack.len() - 2) =~= m.stack);
        }
    }

    /// Compiled and run, `(if c x y)` with a boolean literal `c` and integer
    /// literals `x` and `y` leaves `x` when `c` is true and `y` when it is
    /// false, and ends at the end of its code.
    #[verifier::rlimit(100)]
    #[verifier::spinoff_prover]
    pub proof fn law_compiled_if_runs(c: &Compiler, items: Seq<SourceExpr>, tail: bool, m: MachineView, cb: bool, x: i64, y: i64)
        requires
            items.len() == 4,
            items[1].expr == LispExpr::Boolean(cb),
            items[2].expr == LispExpr::Number(x),
            items[3].expr == LispExpr::Number(y),
            c.if_code(items, tail, m.ip as int) is Some,
            m.ip < m.code.len() <= usize::MAX,
            m.code == m.code.subrange(0, m.ip as int) + c.if_code(items, tail, m.ip as int).unwrap(),
        ensures
            crate::meaning::after_steps(m, if cb { 4 } else { 3 }) == Some(
                MachineView { ip: (m.ip + 5) as usize, stack: m.stack.push(ValueView::Integer(if cb { x } else { y })), ..m },
            ),
    {
        let at = m.ip as int;
        let pc = InstrView::Push(ValueView::Boolean(cb));
        let px = InstrView::Push(ValueView::Integer(x));
        let py = InstrView::Push(ValueView::Integer(y));
        assert(c.plain_code(items[1], false, at) == Some(seq![pc]));
        assert(c.plain_code(items[2], tail, at + 2) == Some(seq![px]));
        assert(c.plain_code(items[3], tail, at + 4) == Some(seq![py]));
        let code = c.if_code(items, tail, at).unwrap();
        let jf = instr_view(Instruction::JmpIfFalse((at + 4) as usize));
        let jm = instr_view(Instruction::Jmp((at + 5) as usize));
        assert(code =~= seq![pc, jf, px, jm, py]);
        let pre = m.code.subrange(0, at);
        assert(pre.len() == at);
        assert(m.code.len() == at + 5);
        assert(m.code[at] == pc && m.code[at + 1] == jf && m.code[at + 2] == px && m.code[at + 3] == jm && m.code[at + 4] == py);
        let m1 = MachineView { ip: (at + 1) as usize, stack: m.stack.push(ValueView::Boolean(cb)), ..m };
        assert(step(m) == Outcome::Next(m1));
        if cb {
            let m2 = MachineView { ip: (at + 2) as usize, ..m };
            assert(m1.stack.drop_last() =~= m.stack);
            assert(step(m1) == Outcome::Next(m2));
            let m3 = MachineView { ip: (at + 3) as usize, stack: m.stack.push(ValueView::Integer(x)), ..m };
            assert(step(m2) == Outcome::Next(m3));
            let m4 = MachineView { ip: (at + 5) as usize, ..m3 };
            assert(step(m3) == Outcome::Next(m4));
            assert(crate::meaning::after_steps(m4, 0) == Some(m4));
            assert(crate::meaning::after_steps(m3, 1) == Some(m4));
            assert(crate::meaning::after_steps(m2, 2) == Some(m4));
            assert(crate::meaning::after_steps(m1, 3) == Some(m4));
        } else {
            let m2 = MachineView { ip: (at + 4) as usize, ..m };
            assert(m1.stack.drop_last() =~= m.stack);
            assert(step(m1) == Outcome::Next(m2));
            let m3 = MachineView { ip: (at + 5) as usize, stack: m.stack.push(ValueView::Integer(y)), ..m };
            assert(step(m2) == Outcome::Next(m3));
            assert(crate::meaning::after_steps(m3, 0) == Some(m3));
            assert(crate::meaning::after_steps(m2, 1) == Some(m3));
            assert(crate::meaning::after_steps(m1, 2) == Some(m3));
        }
    }

    /// Compiled and run, `(and p q)` and `(or p q)` with boolean literals
    /// leave `p && q` and `p || q`, and end at the end of their code.
    #[verifier::rlimit(100)]
    #[verifier::spinoff_prover]
    pub proof fn law_compiled_and_or_runs(
        c: &Compiler,
        items: Seq<SourceExpr>,
        is_and: bool,
        tail: bool,
        m: MachineView,
        p: bool,
        q: bool,
    )
        requires
            items.len() == 3,
            items[1].expr == LispExpr::Boolean(p),
            items[2].expr == LispExpr::Boolean(q),
            c.and_or_code(items, 1, is_and, tail, m.ip as int) is Some,
            m.ip < m.code.len() <= usize::MAX,
            m.code == m.code.subrange(0, m.ip as int) + c.and_or_code(items, 1, is_and, tail, m.ip as int).unwrap(),
        ensures
            crate::meaning::after_steps(m, if p { 4 } else { 3 }) == Some(
                MachineView {
                    ip: (m.ip + 5) as usize,
                    stack: m.stack.push(ValueView::Boolean(if is_and { p && q } else { p || q })),
                    ..m
                },
            ),
    {
        let at = m.ip as int;
        let pp = InstrView::Push(ValueView::Boolean(p));
        let pq = InstrView::Push(ValueView::Boolean(q));
        let pt = InstrView::Push(ValueView::Boolean(true));
        let pf = InstrView::Push(ValueView::Boolean(false));
        assert(c.plain_code(items[1], false, at) == Some(seq![pp]));
        assert(c.plain_code(items[2], tail, at + 2) == Some(seq![pq]));
        assert(c.plain_code(items[2], tail, at + 4) == Some(seq![pq]));
        assert(c.and_or_code(items, 2, is_and, tail, at + 2) == Some(seq![pq]));
        assert(c.and_or_code(items, 2, is_and, tail, at + 4) == Some(seq![pq]));
        let code = c.and_or_code(items, 1, is_and, tail, at).unwrap();
        let jf = instr_view(Instruction::JmpIfFalse((at + 4) as usize));
        let jm = instr_view(Instruction::Jmp((at + 5) as usize));
        let second = if is_and { pq } else { pt };
        let last = if is_and { pf } else { pq };
        assert(code =~= seq![pp, jf, second, jm, last]);
        let pre = m.code.subrange(0, at);
        assert(pre.len() == at);
        assert(m.code.len() == at + 5);
        assert(m.code[at] == pp && m.code[at + 1] == jf && m.code[at + 2] == second && m.code[at + 3] == jm && m.code[at
            + 4] == last);
        let m1 = MachineView { ip: (at + 1) as usize, stack: m.stack.push(ValueView::Boolean(p)), ..m };
        assert(step(m) == Outcome::Next(m1));
        assert(m1.stack.drop_last() =~= m.stack);
        let v = ValueView::Boolean(if is_and { p && q } else { p || q });
        if p {
            let m2 = MachineView { ip: (at + 2) as usize, ..m };
            assert(step(m1) == Outcome::Next(m2));
            let m3 = MachineView { ip: (at + 3) as usize, stack: m.stack.push(second->Push_0), ..m };
            assert(step(m2) == Outcome::Next(m3));
            let m4 = MachineView { ip: (at + 5) as usize, ..m3 };
            assert(step(m3) == Outcome::Next(m4));
            assert(second->Push_0 == v);
            assert(crate::meaning::after_steps(m4, 0) == Some(m4));
            assert(crate::meaning::after_steps(m3, 1) == Some(m4));
            assert(crate::meaning::after_steps(m2, 2) == Some(m4));
            assert(crate::meaning::after_steps(m1, 3) == Some(m4));
        } else {
            let m2 = MachineView { ip: (at + 4) as usize, ..m };
            assert(step(m1) == Outcome::Next(m2));
            let m3 = MachineView { ip: (at + 5) as usize, stack: m.stack.push(last->Push_0), ..m };
            assert(step(m2) == Outcome::Next(m3));
            assert(last->Push_0 == v);
            assert(crate::meaning::after_steps(m3, 0) == Some(m3));
            assert(crate::meaning::after_steps(m2, 1) == Some(m3));
            assert(crate::meaning::after_steps(m1, 2) == Some(m3));
        }
    }

    /// Compiled and run, `(when c x)` with a boolean literal `c` and an
    /// integer literal `x` leaves `x` when `c` is true and false otherwise;
    /// `(unless c x)` leaves false when `c` is true and `x` otherwise.
    #[verifier::rlimit(100)]
    #[verifier::spinoff_prover]
    pub proof fn law_compiled_when_runs(
        c: &Compiler,
        items: Seq<SourceExpr>,
        when: bool,
        tail: bool,
        m: MachineView,
        cb: bool,
        x: i64,
    )
        requires
            items.len() == 3,
            items[1].expr == LispExpr::Boolean(cb),
            items[2].expr == LispExpr::Number(x),
            c.when_code(items, when, tail, m.ip as int) is Some,
            m.ip < m.code.len() <= usize::MAX,
            m.code == m.code.subrange(0, m.ip as int) + c.when_code(items, when, tail, m.ip as int).unwrap(),
        ensures
            crate::meaning::after_steps(m, if cb { 4 } else { 3 }) == Some(
                MachineView {
                    ip: (m.ip + 5) as usize,
                    stack: m.stack.push(
                        if cb == when { ValueView::Integer(x) } else { ValueView::Boolean(false) },
                    ),
                    ..m
                },
            ),
    {
        let at = m.ip as int;
        let pc = InstrView::Push(ValueView::Boolean(cb));
        let px = InstrView::Push(ValueView::Integer(x));
        let pf = InstrView::Push(ValueView::Boolean(false));
        assert(c.plain_code(items[1], false, at) == Some(seq![pc]));
        assert(c.plain_code(items[2], tail, at + 2) == Some(seq![px]));
        assert(c.plain_code(items[2], tail, at + 4) == Some(seq![px]));
        let code = c.when_code(items, when, tail, at).unwrap();
        let jf = instr_view(Instruction::JmpIfFalse((at + 4) as usize));
        let jm = instr_view(Instruction::Jmp((at + 5) as usize));
        let second = if when { px } else { pf };
        let last = if when { pf } else { px };
        assert(code =~= seq![pc, jf, second, jm, last]);
        let pre = m.code.subrange(0, at);
        assert(pre.len() == at);
        assert(m.code.len() == at + 5);
        assert(m.code[at] == pc && m.code[at + 1] == jf && m.code[at + 2] == second && m.code[at + 3] == jm && m.code[at
            + 4] == last);
        let m1 = MachineView { ip: (at + 1) as usize, stack: m.stack.push(ValueView::Boolean(cb)), ..m };
        assert(step(m) == Outcome::Next(m1));
        assert(m1.stack.drop_last() =~= m.stack);
        if cb {
            let m2 = MachineView { ip: (at + 2) as usize, ..m };
            assert(step(m1) == Outcome::Next(m2));
            let m3 = MachineView { ip: (at + 3) as usize, stack: m.stack.push(second->Push_0), ..m };
            assert(step(m2) == Outcome::Next(m3));
            let m4 = MachineView { ip: (at + 5) as usize, ..m3 };
            assert(step(m3) == Outcome::Next(m4));
            assert(crate::meaning::after_steps(m4, 0) == Some(m4));
            assert(crate::meaning::after_steps(m3, 1) == Some(m4));
            assert(crate::meaning::after_steps(m2, 2) == Some(m4));
            assert(crate::meaning::after_steps(m1, 3) == Some(m4));
        } else {
            let m2 = MachineView { ip: (at + 4) as usize, ..m };
            assert(step(m1) == Outcome::Next(m2));
            let m3 = MachineView { ip: (at + 5) as usize, stack: m.stack.push(last->Push_0), ..m };
            assert(step(m2) == Outcome::Next(m3));
            assert(crate::meaning::after_steps(m3, 0) == Some(m3));
            assert(crate::meaning::after_steps(m2, 1) == Some(m3));
            assert(crate::meaning::after_steps(m1, 2) == Some(m3));
        }
    }

    /// Compiled and run, `(do x y)` with integer literals drops `x` and
    /// leaves `y`, and ends at the end of its code.
    pub proof fn law_compiled_do_runs(c: &Compiler, items: Seq<SourceExpr>, tail: bool, m: MachineView, x: i64, y: i64)
        requires
            items.len() == 3,
            items[1].expr == LispExpr::Number(x),
            items[2].expr == LispExpr::Number(y),
            c.do_code(items, 1, tail, m.ip as int) is Some,
            m.ip < m.code.len() <= usize::MAX,
            m.code == m.code.subrange(0, m.ip as int) + c.do_code(items, 1, tail, m.ip as int).unwrap(),
        ensures
            crate::meaning::after_steps(m, 3) == Some(
                MachineView { ip: (m.ip + 3) as usize, stack: m.stack.push(ValueView::Integer(y)), ..m },
            ),
    {
        let at = m.ip as int;
        let px = InstrView::Push(ValueView::Integer(x));
        let py = InstrView::Push(ValueView::Integer(y));
        let pop = instr_view(Instruction::PopN(1));
        assert(c.plain_code(items[1], false, at) == Some(seq![px]));
        assert(c.plain_code(items[2], tail, at + 2) == Some(seq![py]));
        assert(c.do_code(items, 2, tail, at + 2) == Some(seq![py]));
        let code = c.do_code(items, 1, tail, at).unwrap();
        assert(code =~= seq![px, pop, py]);
        let pre = m.code.subrange(0, at);
        assert(pre.len() == at);
        assert(m.code.len() == at + 3);
        assert(m.code[at] == px && m.code[at + 1] == pop && m.code[at + 2] == py);
        let m1 = MachineView { ip: (at + 1) as usize, stack: m.stack.push(ValueView::Integer(x)), ..m };
        assert(step(m) == Outcome::Next(m1));
        let m2 = MachineView { ip: (at + 2) as usize, ..m };
        assert(drop_top(m1.stack, 1) =~= m.stack);
        assert(step(m1) == Outcome::Next(m2));
        let m3 = MachineView { ip: (at + 3) as usize, stack: m.stack.push(ValueView::Integer(y)), ..m };
        assert(step(m2) == Outcome::Next(m3));
        assert(crate::meaning::after_steps(m3, 0) == Some(m3));
        assert(crate::meaning::after_steps(m2, 1) == Some(m3));
        assert(crate::meaning::after_steps(m1, 2) == Some(m3));
    }

    /// Two integer literals as operands compile to their two pushes.
    proof fn lemma_literal_operands(c: &Compiler, items: Seq<SourceExpr>, t: bool, at: int, a: i64, b: i64)
        requires
            items.len() == 3,
            items[1].expr == LispExpr::Number(a),
            items[2].expr == LispExpr::Number(b),
        ensures
            c.args_code(items, 1, t, at) == Some(
                seq![InstrView::Push(ValueView::Integer(a)), InstrView::Push(ValueView::Integer(b))],
            ),
    {
        let pa = InstrView::Push(ValueView::Integer(a));
        let pb = InstrView::Push(ValueView::Integer(b));
        assert(c.plain_code(items[1], t, at) == Some(seq![pa]));
        assert(c.plain_code(items[2], t, at + 1) == Some(seq![pb]));
        Self::lemma_args_end(c, items, t, at + 2);
        assert(c.args_code(items, 2, t, at + 1) == Some(seq![pb] + Seq::<InstrView>::empty()));
        assert(c.args_code(items, 1, t, at) == Some(seq![pa] + (seq![pb] + Seq::<InstrView>::empty())));
        assert(seq![pa] + (seq![pb] + Seq::<InstrView>::empty()) =~= seq![pa, pb]);
    }

    /// An arithmetic operator on two operands compiles to the operands, then
    /// its instruction.
    proof fn lemma_fold_list_code(c: &Compiler, items: Seq<SourceExpr>, at: int)
        requires
            items.len() == 3,
            items[0].expr is Symbol,
            fold_form_of(items[0].expr->Symbol_0@) is Some,
        ensures
            ({
                let f = fold_form_of(items[0].expr->Symbol_0@).unwrap();
                c.plain_list_code(items, true, at) == c.operands_then(items, false, at, arith_of(f.0))
                    && c.plain_list_code(items, false, at) == c.operands_then(items, false, at, arith_of(f.0))
            }),
    {
        let f = fold_form_of(items[0].expr->Symbol_0@).unwrap();
        let i = instr_view(arith_of(f.0));
        match c.plain_code(items[1], false, at) {
            Some(x) => match c.plain_code(items[2], false, at + x.len()) {
                Some(y) => {
                    assert(c.fold_rest(items, 3, f.0, at + x.len() + y.len() + 1) == Some(Seq::<InstrView>::empty()));
                    assert(c.fold_rest(items, 2, f.0, at + x.len()) == Some(y.push(i) + Seq::<InstrView>::empty()));
                    assert(c.args_code(items, 3, false, at + x.len() + y.len()) == Some(Seq::<InstrView>::empty()));
                    assert(c.args_code(items, 2, false, at + x.len()) == Some(y + Seq::<InstrView>::empty()));
                    assert(c.args_code(items, 1, false, at) == Some(x + (y + Seq::<InstrView>::empty())));
                    assert(x + (y.push(i) + Seq::<InstrView>::empty()) =~= (x + (y + Seq::<InstrView>::empty())).push(i));
                },
                None => {
                    assert(c.fold_rest(items, 2, f.0, at + x.len()) is None);
                    assert(c.args_code(items, 2, false, at + x.len()) is None);
                },
            },
            None => {},
        }
    }

    /// A form with a fixed number of operands compiles to its operands, then
    /// its instruction.
    proof fn lemma_fixed_list_code(c: &Compiler, items: Seq<SourceExpr>, tail: bool, at: int)
        requires
            items.len() > 0,
            items[0].expr is Symbol,
            fold_form_of(items[0].expr->Symbol_0@) is None,
            fixed_form_of(items[0].expr->Symbol_0@) is Some,
            items.len() == fixed_form_of(items[0].expr->Symbol_0@).unwrap().0 + 1,
        ensures
            ({
                let f = fixed_form_of(items[0].expr->Symbol_0@).unwrap();
                c.plain_list_code(items, tail, at) == c.operands_then(items, if f.3 { false } else { tail }, at, f.1)
            }),
    {
    }

    proof fn lemma_same_names_code(a: &Compiler, b: &Compiler, e: SourceExpr, t: bool, at: int)
        requires
            a.same_names(b),
        ensures
            a.plain_code(e, t, at) == b.plain_code(e, t, at),
        decreases e, 3int, 0int,
    {
        match e.expr {
            LispExpr::List(items) => Self::lemma_same_names_list(a, b, items@, t, at),
            LispExpr::Symbol(s) => {
                assert(a.symbol_load(s@) == b.symbol_load(s@));
            },
            _ => {},
        }
    }

    proof fn lemma_same_names_list(a: &Compiler, b: &Compiler, items: Seq<SourceExpr>, t: bool, at: int)
        requires
            a.same_names(b),
        ensures
            a.plain_list_code(items, t, at) == b.plain_list_code(items, t, at),
        decreases items, 2int, 0int,
    {
        if items.len() > 0 {
            if items[0].expr is Symbol {
                let op = items[0].expr->Symbol_0@;
                if fold_form_of(op) is Some {
                    Self::lemma_same_names_fold(a, b, items, fold_form_of(op).unwrap().0, at);
                }
                if fixed_form_of(op) is Some {
                    Self::lemma_same_names_args(a, b, items, 1, if fixed_form_of(op).unwrap().3 { false } else { t }, at);
                }
                Self::lemma_same_names_if(a, b, items, t, at);
                Self::lemma_same_names_args(a, b, items, 1, t, at);
                Self::lemma_same_names_call(a, b, items, op, t, at);
                Self::lemma_same_names_do(a, b, items, 1, t, at);
                Self::lemma_same_names_and_or(a, b, items, 1, op == "and"@, t, at);
                Self::lemma_same_names_when(a, b, items, op == "when"@, t, at);
                assert(quoted(a.float_bits@, source_view(items[1])) == quoted(b.float_bits@, source_view(items[1])));
            } else {
                Self::lemma_same_names_code(a, b, items[0], t, at);
                if a.plain_code(items[0], t, at) is Some {
                    Self::lemma_same_names_args(a, b, items, 1, t, at + a.plain_code(items[0], t, at).unwrap().len());
                }
            }
        }
    }

    proof fn lemma_same_names_call(a: &Compiler, b: &Compiler, items: Seq<SourceExpr>, op: Seq<char>, t: bool, at: int)
        requires
            a.same_names(b),
        ensures
            a.call_code(items, op, t, at) == b.call_code(items, op, t, at),
        decreases items, 1int, 0int,
    {
        assert(a.variable_load(op) == b.variable_load(op));
        assert(a.function_name_for(op) == b.function_name_for(op));
        if items.len() > 0 {
            if a.variable_load(op) is Some {
                Self::lemma_same_names_args(a, b, items, 1, false, at + instrs_view(a.variable_load(op).unwrap()).len());
            }
            Self::lemma_same_names_args(a, b, items, 1, false, at);
        }
    }

    proof fn lemma_same_names_fold(a: &Compiler, b: &Compiler, items: Seq<SourceExpr>, code: u8, at: int)
        requires
            a.same_names(b),
        ensures
            a.fold_code(items, code, at) == b.fold_code(items, code, at),
        decreases items, 1int, 0int,
    {
        if items.len() >= 2 {
            Self::lemma_same_names_code(a, b, items[1], false, at);
            if a.plain_code(items[1], false, at) is Some {
                Self::lemma_same_names_fold_rest(a, b, items, 2, code, at + a.plain_code(items[1], false, at).unwrap().len());
            }
        }
    }

    proof fn lemma_same_names_fold_rest(a: &Compiler, b: &Compiler, items: Seq<SourceExpr>, from: int, code: u8, at: int)
        requires
            a.same_names(b),
        ensures
            a.fold_rest(items, from, code, at) == b.fold_rest(items, from, code, at),
        decreases items, 0int, items.len() - from,
    {
        if 0 <= from < items.len() {
            Self::lemma_same_names_code(a, b, items[from], false, at);
            if a.plain_code(items[from], false, at) is Some {
                Self::lemma_same_names_fold_rest(
                    a,
                    b,
                    items,
                    from + 1,
                    code,
                    at + a.plain_code(items[from], false, at).unwrap().len() + 1,
                );
            }
        }
    }

    proof fn lemma_same_names_if(a: &Compiler, b: &Compiler, items: Seq<SourceExpr>, t: bool, at: int)
        requires
            a.same_names(b),
        ensures
            a.if_code(items, t, at) == b.if_code(items, t, at),
        decreases items, 1int, 0int,
    {
        if items.len() == 4 {
            Self::lemma_same_names_code(a, b, items[1], false, at);
            if a.plain_code(items[1], false, at) is Some {
                let j = at + a.plain_code(items[1], false, at).unwrap().len();
                Self::lemma_same_names_code(a, b, items[2], t, j + 1);
                if a.plain_code(items[2], t, j + 1) is Some {
                    let k = j + 1 + a.plain_code(items[2], t, j + 1).unwrap().len();
                    Self::lemma_same_names_code(a, b, items[3], t, k + 1);
                }
            }
        }
    }

    proof fn lemma_same_names_when(a: &Compiler, b: &Compiler, items: Seq<SourceExpr>, w: bool, t: bool, at: int)
        requires
            a.same_names(b),
        ensures
            a.when_code(items, w, t, at) == b.when_code(items, w, t, at),
        decreases items, 1int, 0int,
    {
        if items.len() == 3 {
            Self::lemma_same_names_code(a, b, items[1], false, at);
            if a.plain_code(items[1], false, at) is Some {
                let j = at + a.plain_code(items[1], false, at).unwrap().len();
                Self::lemma_same_names_code(a, b, items[2], t, j + 1);
                Self::lemma_same_names_code(a, b, items[2], t, j + 3);
            }
        }
    }

    proof fn lemma_same_names_and_or(a: &Compiler, b: &Compiler, items: Seq<SourceExpr>, from: int, w: bool, t: bool, at: int)
        requires
            a.same_names(b),
        ensures
            a.and_or_code(items, from, w, t, at) == b.and_or_code(items, from, w, t, at),
        decreases items, 0int, items.len() - from,
    {
        if 0 <= from < items.len() {
            Self::lemma_same_names_code(a, b, items[from], t, at);
            Self::lemma_same_names_code(a, b, items[from], false, at);
            if a.plain_code(items[from], false, at) is Some {
                let j = at + a.plain_code(items[from], false, at).unwrap().len();
                Self::lemma_same_names_and_or(a, b, items, from + 1, w, t, j + 1);
                Self::lemma_same_names_and_or(a, b, items, from + 1, w, t, j + 3);
            }
        }
    }

    proof fn lemma_same_names_do(a: &Compiler, b: &Compiler, items: Seq<SourceExpr>, from: int, t: bool, at: int)
        requires
            a.same_names(b),
        ensures
            a.do_code(items, from, t, at) == b.do_code(items, from, t, at),
        decreases items, 0int, items.len() - from,
    {
        if 0 <= from < items.len() {
            Self::lemma_same_names_code(a, b, items[from], t, at);
            Self::lemma_same_names_code(a, b, items[from], false, at);
            if a.plain_code(items[from], false, at) is Some {
                Self::lemma_same_names_do(a, b, items, from + 1, t, at + a.plain_code(items[from], false, at).unwrap().len() + 1);
            }
        }
    }

    proof fn lemma_same_names_args(a: &Compiler, b: &Compiler, items: Seq<SourceExpr>, from: int, t: bool, at: int)
        requires
            a.same_names(b),
        ensures
            a.args_code(items, from, t, at) == b.args_code(items, from, t, at),
        decreases items, 0int, items.len() - from,
    {
        if 0 <= from < items.len() {
            Self::lemma_same_names_code(a, b, items[from], t, at);
            if a.plain_code(items[from], t, at) is Some {
                Self::lemma_same_names_args(a, b, items, from + 1, t, at + a.plain_code(items[from], t, at).unwrap().len());
            }
        }
    }

    proof fn lemma_args_step(c: &Compiler, items: Seq<SourceExpr>, from: int, t: bool, at: int)
        requires
            0 <= from < items.len(),
        ensures
            c.args_code(items, from, t, at) is Some ==> {
                &&& c.plain_code(items[from], t, at) is Some
                &&& c.args_code(items, from + 1, t, at + c.plain_code(items[from], t, at).unwrap().len()) is Some
                &&& c.args_code(items, from, t, at).unwrap() == c.plain_code(items[from], t, at).unwrap() + c.args_code(
                    items,
                    from + 1,
                    t,
                    at + c.plain_code(items[from], t, at).unwrap().len(),
                ).unwrap()
            },
    {
        assert(c.args_code(items, from, t, at) == (match c.plain_code(items[from], t, at) {
            Some(x) => match c.args_code(items, from + 1, t, at + x.len()) {
                Some(d) => Some(x + d),
                None => None,
            },
            None => None,
        }));
    }

    proof fn lemma_args_end(c: &Compiler, items: Seq<SourceExpr>, t: bool, at: int)
        ensures
            c.args_code(items, items.len() as int, t, at) == Some(Seq::<InstrView>::empty()),
    {
    }

    proof fn lemma_fold_rest_step(c: &Compiler, items: Seq<SourceExpr>, from: int, code: u8, at: int)
        requires
            0 <= from < items.len(),
        ensures
            c.fold_rest(items, from, code, at) is Some ==> {
                &&& c.plain_code(items[from], false, at) is Some
                &&& c.fold_rest(items, from + 1, code, at + c.plain_code(items[from], false, at).unwrap().len() + 1) is Some
                &&& c.fold_rest(items, from, code, at).unwrap() == c.plain_code(items[from], false, at).unwrap().push(
                    instr_view(arith_of(code)),
                ) + c.fold_rest(items, from + 1, code, at + c.plain_code(items[from], false, at).unwrap().len() + 1).unwrap()
            },
    {
    }

    proof fn lemma_fold_rest_end(c: &Compiler, items: Seq<SourceExpr>, code: u8, at: int)
        ensures
            c.fold_rest(items, items.len() as int, code, at) == Some(Seq::<InstrView>::empty()),
    {
    }

    proof fn lemma_tail_same_names(a: &Compiler, b: &Compiler)
        requires
            a.same_context_but_tail(b),
        ensures
            a.same_names(b),
            b.same_names(a),
    {
    }

    /// Whether the two compilers agree on everything the code of an
    /// expression depends on.
    pub closed spec fn same_names(&self, other: &Compiler) -> bool {
        &&& self.functions@ == other.functions@
        &&& self.macros@ == other.macros@
        &&& self.global_vars@ == other.global_vars@
        &&& self.known_functions@ == other.known_functions@
        &&& self.known_globals@ == other.known_globals@
        &&& self.current_module == other.current_module
        &&& self.imported_symbols@ == other.imported_symbols@
        &&& self.module_functions@ == other.module_functions@
        &&& self.float_bits@ == other.float_bits@
        &&& self.param_names@ == other.param_names@
        &&& self.pattern_bindings@ == other.pattern_bindings@
        &&& self.local_bindings@ == other.local_bindings@
    }
}

impl Compiler {
    /// Whether the code emitted from `start` on is a fragment and nothing
    /// else changed.
    pub closed spec fn extends(&self, start: &Compiler) -> bool {
        &&& self.wf()
        &&& emitted(start.bytecode@, self.bytecode@)
        &&& self.same_context(start)
    }

    fn patch(&mut self, idx: usize, ins: Instruction)
        requires
            old(self).wf(),
            idx < old(self).bytecode@.len(),
        ensures
            final(self).wf(),
            final(self).bytecode@ == old(self).bytecode@.update(idx as int, ins),
            final(self).same_context(old(self)),
    {
        self.bytecode.set(idx, ins);
    }

    /// Compiles an expression, appending its code; gives the address where
    /// the code starts.
    pub fn compile_expr(&mut self, expr: &SourceExpr) -> (r: Result<usize, CompileError>)
        requires
            old(self).wf(),
        ensures
            final(self).wf(),
            r matches Ok(start) ==> start == old(self).code().len() && final(self).extends(old(self)),
            expr.expr is Number ==> r is Ok && final(self).code() == old(self).code().push(
                Instruction::Push(Value::Integer(expr.expr->Number_0)),
            ),
            expr.expr is Boolean ==> r is Ok && final(self).code() == old(self).code().push(
                Instruction::Push(Value::Boolean(expr.expr->Boolean_0)),
            ),
            expr.expr is Float ==> match float_text_value(old(self).float_table(), expr.expr->Float_0@) {
                Some(bits) => r is Ok && final(self).code() == old(self).code().push(Instruction::Push(Value::Float(bits))),
                None => r is Err,
            },
            expr.expr is Symbol ==> match old(self).symbol_load(expr.expr->Symbol_0@) {
                Some(c) => r is Ok && instrs_view(final(self).code()) == instrs_view(old(self).code()) + c,
                None => r is Err,
            },
            expr.expr is DottedList ==> r is Err,
            old(self).plain_code(*expr, old(self).in_tail(), old(self).code().len() as int) matches Some(c) ==> r is Ok
                && instrs_view(final(self).code()) == instrs_view(old(self).code()) + c,
        decreases self.budget(), *expr, 10int, 0int,
    {
        let start = self.instruction_address;
        let ghost s0 = self.bytecode@;
        proof {
            lemma_emitted_refl(s0);
        }
        match &expr.expr {
            LispExpr::Number(n) => {
                self.emit(Instruction::Push(Value::Integer(*n)));
                proof {
                    lemma_emit_plain(s0, s0, Instruction::Push(Value::Integer(*n)));
                    lemma_instrs_view_push(s0, Instruction::Push(Value::Integer(*n)));
                    assert(instrs_view(s0).push(instr_view(Instruction::Push(Value::Integer(*n)))) =~= instrs_view(s0)
                        + seq![instr_view(Instruction::Push(Value::Integer(*n)))]);
                }
            },
            LispExpr::Float(t) => {
                match self.float_value(t) {
                    Some(bits) => {
                        self.emit(Instruction::Push(Value::Float(bits)));
                        proof {
                            lemma_emit_plain(s0, s0, Instruction::Push(Value::Float(bits)));
                            lemma_instrs_view_push(s0, Instruction::Push(Value::Float(bits)));
                            assert(instrs_view(s0).push(instr_view(Instruction::Push(Value::Float(bits)))) =~= instrs_view(
                                s0,
                            ) + seq![instr_view(Instruction::Push(Value::Float(bits)))]);
                        }
                    },
                    None => {
                        return Err(CompileError::new(
                            text3("Float literal '", t.as_str(), "' has no value"),
                            expr.location.duplicate(),
                        ));
                    },
                }
            },
            LispExpr::Boolean(b) => {
                self.emit(Instruction::Push(Value::Boolean(*b)));
                proof {
                    lemma_emit_plain(s0, s0, Instruction::Push(Value::Boolean(*b)));
                    lemma_instrs_view_push(s0, Instruction::Push(Value::Boolean(*b)));
                    assert(instrs_view(s0).push(instr_view(Instruction::Push(Value::Boolean(*b)))) =~= instrs_view(s0)
                        + seq![instr_view(Instruction::Push(Value::Boolean(*b)))]);
                }
            },
            LispExpr::DottedList(_, _) => {
                return Err(error_at("Dotted lists can only be used in patterns, not in expressions", &expr.location));
            },
            LispExpr::Symbol(s) => {
                self.compile_symbol(s, &expr.location)?;
            },
            LispExpr::List(items) => {
                self.compile_list(items, &expr.location)?;
            },
        }
        Ok(start)
    }

    /// Compiles a reference to a name.
    fn compile_symbol(&mut self, s: &String, location: &Location) -> (r: Result<(), CompileError>)
        requires
            old(self).wf(),
        ensures
            final(self).wf(),
            r is Ok ==> final(self).extends(old(self)),
            match old(self).symbol_load(s@) {
                Some(c) => r is Ok && instrs_view(final(self).code()) == instrs_view(old(self).code()) + c,
                None => r is Err,
            },
    {
        let ghost s0 = self.bytecode@;
        proof {
            lemma_emitted_refl(s0);
        }
        if starts_with_string_marker(s) {
            let cs = chars_of(s.as_str());
            let mut content: Vec<char> = Vec::new();
            let mut k: usize = 10;
            proof {
                reveal_strlit("__STRING__");
            }
            assert(cs@.len() >= 10);
            while k < cs.len()
                invariant
                    10 <= k <= cs@.len(),
                    content@ == cs@.subrange(10, k as int),
                decreases cs@.len() - k,
            {
                content.push(cs[k]);
                k = k + 1;
                assert(content@ =~= cs@.subrange(10, k as int));
            }
            let ins = Instruction::Push(Value::String(string_of(&content)));
            self.emit(ins);
            proof {
                lemma_emit_plain(s0, s0, ins);
                lemma_instrs_view_append(s0, seq![ins]);
                assert(s0.push(ins) =~= s0 + seq![ins]);
                lemma_instrs_view_ext(seq![ins]);
            }
            return Ok(());
        }
        match find_key(&self.local_bindings, s.as_str()) {
            Some(i) => {
                let l = copy_location(&self.local_bindings[i].1);
                self.emit_load(&l);
                proof {
                    lemma_instrs_view_append(s0, load_code(l));
                }
                return Ok(());
            },
            None => {},
        }
        match find_key(&self.pattern_bindings, s.as_str()) {
            Some(i) => {
                let l = copy_location(&self.pattern_bindings[i].1);
                self.emit_load(&l);
                proof {
                    lemma_instrs_view_append(s0, load_code(l));
                }
                return Ok(());
            },
            None => {},
        }
        match position_of(&self.param_names, s.as_str()) {
            Some(idx) => {
                self.emit(Instruction::LoadArg(idx));
                proof {
                    lemma_emit_plain(s0, s0, Instruction::LoadArg(idx));
                    lemma_first_name(self.param_names@, s@, idx as int);
                    lemma_instrs_view_append(s0, seq![Instruction::LoadArg(idx)]);
                    assert(s0.push(Instruction::LoadArg(idx)) =~= s0 + seq![Instruction::LoadArg(idx)]);
                    lemma_instrs_view_ext(seq![Instruction::LoadArg(idx)]);
                }
                return Ok(());
            },
            None => {},
        }
        let resolved = self.resolve_global_name(s.as_str());
        let resolved_is_global = find_key(&self.global_vars, resolved.as_str()).is_some() || has_name(
            &self.known_globals,
            resolved.as_str(),
        );
        if resolved_is_global || find_key(&self.global_vars, s.as_str()).is_some() || has_name(&self.known_globals, s.as_str()) {
            let load_name = if resolved_is_global { resolved } else { s.clone() };
            self.emit(Instruction::LoadGlobal(load_name));
            proof {
                lemma_emit_plain(s0, s0, self.bytecode@.last());
                assert(self.bytecode@ =~= s0.push(self.bytecode@.last()));
                lemma_instrs_view_append(s0, seq![self.bytecode@.last()]);
                assert(s0.push(self.bytecode@.last()) =~= s0 + seq![self.bytecode@.last()]);
                lemma_instrs_view_ext(seq![self.bytecode@.last()]);
            }
            return Ok(());
        }
        let resolved_is_function = find_key(&self.functions, resolved.as_str()).is_some() || has_name(
            &self.known_functions,
            resolved.as_str(),
        );
        if resolved_is_function || find_key(&self.functions, s.as_str()).is_some() || has_name(
            &self.known_functions,
            s.as_str(),
        ) || is_builtin_function(s.as_str()) {
            let fn_name = if resolved_is_function { resolved } else { s.clone() };
            self.emit(Instruction::Push(Value::Function(fn_name)));
            proof {
                lemma_emit_plain(s0, s0, self.bytecode@.last());
                assert(self.bytecode@ =~= s0.push(self.bytecode@.last()));
                lemma_instrs_view_append(s0, seq![self.bytecode@.last()]);
                assert(s0.push(self.bytecode@.last()) =~= s0 + seq![self.bytecode@.last()]);
                lemma_instrs_view_ext(seq![self.bytecode@.last()]);
            }
            return Ok(());
        }
        Err(CompileError::new(text3("Undefined variable '", s.as_str(), "'"), location.duplicate()))
    }

    /// Compiles `items[from..]` one after the other.
    fn compile_all(&mut self, items: &Vec<SourceExpr>, from: usize) -> (r: Result<(), CompileError>)
        requires
            old(self).wf(),
        ensures
            final(self).wf(),
            r is Ok ==> final(self).extends(old(self)),
            all_constant(items@, from as int) ==> r is Ok,
            old(self).args_code(items@, from as int, old(self).in_tail_position, old(self).code().len() as int) matches Some(
                c,
            ) ==> r is Ok && instrs_view(final(self).code()) == instrs_view(old(self).code()) + c,
        decreases self.budget(), *items, 5int, 0int,
    {
        let ghost s0 = *self;
        let ghost t0 = self.in_tail_position;
        let ghost all = s0.args_code(items@, from as int, t0, s0.code().len() as int);
        proof {
            lemma_emitted_refl(self.bytecode@);
            lemma_instrs_view_len(self.bytecode@);
        }
        let mut i: usize = from;
        while i < items.len()
            invariant
                self.macro_budget <= old(self).macro_budget,
                self.wf(),
                self.extends(&s0),
                s0.wf(),
                from <= i,
                s0 == *old(self),
                t0 == s0.in_tail_position,
                all == s0.args_code(items@, from as int, t0, s0.code().len() as int),
                all is Some ==> {
                    &&& s0.args_code(items@, i as int, t0, self.code().len() as int) is Some
                    &&& instrs_view(self.code()) + s0.args_code(items@, i as int, t0, self.code().len() as int).unwrap()
                        == instrs_view(s0.code()) + all.unwrap()
                },
            decreases items@.len() - i,
        {
            let ghost mid = self.bytecode@;
            let ghost m = *self;
            proof {
                assert(all is Some ==> s0.args_code(items@, i as int, t0, m.code().len() as int) is Some);
                Self::lemma_args_step(&s0, items@, i as int, t0, m.code().len() as int);
                Self::lemma_tail_same_names(&m, &s0);
                Self::lemma_same_names_code(&m, &s0, items@[i as int], t0, m.code().len() as int);
                lemma_instrs_view_len(mid);
            }
            self.compile_expr(&items[i])?;
            proof {
                lemma_emitted_trans(s0.bytecode@, mid, self.bytecode@);
                lemma_instrs_view_len(self.bytecode@);
                if all is Some {
                    let c = s0.plain_code(items@[i as int], t0, m.code().len() as int).unwrap();
                    assert(instrs_view(self.code()) == instrs_view(m.code()) + c);
                    assert(self.code().len() == m.code().len() + c.len());
                    let rest = s0.args_code(items@, i + 1, t0, self.code().len() as int).unwrap();
                    assert(s0.args_code(items@, i as int, t0, m.code().len() as int).unwrap() == c + rest);
                    assert(instrs_view(self.code()) + rest =~= instrs_view(m.code()) + (c + rest));
                }
            }
            i = i + 1;
        }
        proof {
            if all is Some {
                assert(instrs_view(self.code()) + Seq::<InstrView>::empty() =~= instrs_view(self.code()));
            }
        }
        Ok(())
    }
}

impl Compiler {
    /// Compiles a list expression: a special form, a built-in operation, or
    /// a call.
    #[verifier::rlimit(100)]
    #[verifier::spinoff_prover]
    fn compile_list(&mut self, items: &Vec<SourceExpr>, location: &Location) -> (r: Result<(), CompileError>)
        requires
            old(self).wf(),
        ensures
            final(self).wf(),
            r is Ok ==> final(self).extends(old(self)),
            items@.len() == 0 ==> r is Err,
            items@.len() >= 3 && items@[0].expr is Symbol && fold_form_of(items@[0].expr->Symbol_0@) is Some
                && all_constant(items@, 1) ==> r is Ok,
            items@.len() >= 1 && items@[0].expr is Symbol && fold_form_of(items@[0].expr->Symbol_0@) is None
                && fixed_form_of(items@[0].expr->Symbol_0@) is Some && items@.len() == fixed_form_of(
                items@[0].expr->Symbol_0@,
            ).unwrap().0 + 1 && all_constant(items@, 1) ==> r is Ok,
            old(self).plain_list_code(items@, old(self).in_tail_position, old(self).code().len() as int) matches Some(c)
                ==> r is Ok && instrs_view(final(self).code()) == instrs_view(old(self).code()) + c,
        decreases self.budget(), *items, 9int, 0int,
    {
        if items.len() == 0 {
            return Err(error_at("Empty list cannot be compiled", location));
        }
        let ghost t0 = self.in_tail_position;
        let ghost l0 = self.code().len() as int;
        let ghost plain = self.plain_list_code(items@, t0, l0);
        proof {
            lemma_instrs_view_len(self.bytecode@);
        }
        match symbol_of(&items[0]) {
            Some(op) => {
                let op = op.as_str();
                match fold_form(op) {
                    Some((code, msg)) => {
                        return self.compile_fold(items, location, code, msg);
                    },
                    None => {},
                }
                match fixed_form(op) {
                    Some((n, ins, msg, clear_tail)) => {
                        return self.compile_fixed(items, location, n, ins, msg, clear_tail);
                    },
                    None => {},
                }
                if same_text(op, "if") {
                    self.compile_if(items, location)
                } else if same_text(op, "when") || same_text(op, "unless") {
                    self.compile_when(items, location, same_text(op, "when"))
                } else if same_text(op, "and") || same_text(op, "or") {
                    let is_and = same_text(op, "and");
                    if items.len() < 2 {
                        return Err(error_at(
                            if is_and { "and expects at least 1 argument" } else { "or expects at least 1 argument" },
                            location,
                        ));
                    }
                    if items.len() == 2 {
                        self.compile_expr(&items[1])?;
                        Ok(())
                    } else if is_and {
                        self.compile_and(items, 1)
                    } else {
                        self.compile_or(items, 1)
                    }
                } else if same_text(op, "cond") {
                    if items.len() < 2 {
                        return Err(error_at("cond expects at least 1 clause", location));
                    }
                    self.compile_cond(items, 1)
                } else if same_text(op, "do") || same_text(op, "begin") {
                    self.compile_do(items, location)
                } else if same_text(op, "list") || same_text(op, "vector") {
                    let n = items.len() - 1;
                    let ghost s0 = *self;
                    self.compile_all(items, 1)?;
                    let ghost mid = self.bytecode@;
                    let ins = if same_text(op, "list") { Instruction::MakeList(n) } else { Instruction::MakeVector(n) };
                    self.emit(ins);
                    proof {
                        lemma_emit_plain(s0.bytecode@, mid, ins);
                        lemma_instrs_view_push(mid, ins);
                    }
                    Ok(())
                } else if same_text(op, "quote") {
                    if items.len() != 2 {
                        return Err(error_at("quote expects exactly 1 argument", location));
                    }
                    let value = self.expr_to_value(&items[1])?;
                    let ghost mid = self.bytecode@;
                    self.emit_plain(Instruction::Push(value));
                    proof {
                        lemma_instrs_view_push(mid, Instruction::Push(value));
                        assert(instrs_view(mid).push(instr_view(Instruction::Push(value))) =~= instrs_view(mid) + seq![
                            InstrView::Push(value_view(value)),
                        ]);
                    }
                    Ok(())
                } else if same_text(op, "macroexpand") {
                    if items.len() != 2 {
                        return Err(error_at("macroexpand expects exactly 1 argument", location));
                    }
                    self.compile_macroexpand(&items[1])
                } else if same_text(op, "quasiquote") {
                    if items.len() != 2 {
                        return Err(error_at("quasiquote expects exactly 1 argument", location));
                    }
                    self.compile_quasiquote(&items[1])
                } else if same_text(op, "let") {
                    if items.len() != 3 {
                        return Err(error_at("let expects exactly 2 arguments: bindings and body", location));
                    }
                    self.compile_let(items)
                } else if same_text(op, "loop") {
                    if items.len() != 3 {
                        return Err(error_at("loop expects exactly 2 arguments: bindings and body", location));
                    }
                    self.compile_loop(items)
                } else if same_text(op, "recur") {
                    self.compile_recur(items)
                } else if same_text(op, "lambda") {
                    if items.len() != 3 {
                        return Err(error_at("lambda expects exactly 2 arguments: parameters and body", location));
                    }
                    self.compile_lambda(items)
                } else if same_text(op, "ffi-call") {
                    self.compile_ffi_call(items, location)
                } else if same_text(op, "hash-map") {
                    let n = items.len() - 1;
                    if n % 2 != 0 {
                        return Err(error_at("hash-map expects an even number of arguments (key-value pairs)", location));
                    }
                    let ghost s0 = *self;
                    self.compile_all(items, 1)?;
                    let ghost mid = self.bytecode@;
                    self.emit(Instruction::MakeHashMap(n / 2));
                    proof {
                        lemma_emit_plain(s0.bytecode@, mid, Instruction::MakeHashMap((n / 2) as usize));
                        lemma_instrs_view_push(mid, Instruction::MakeHashMap((n / 2) as usize));
                    }
                    Ok(())
                } else {
                    self.compile_call(items, op)
                }
            },
            None => {
                let ghost s0 = *self;
                self.compile_expr(&items[0])?;
                let ghost mid = self.bytecode@;
                proof {
                    lemma_instrs_view_len(mid);
                    Self::lemma_tail_same_names(self, &s0);
                    if s0.plain_code(items@[0], t0, l0) is Some {
                        Self::lemma_same_names_args(
                            self,
                            &s0,
                            items@,
                            1,
                            t0,
                            l0 + s0.plain_code(items@[0], t0, l0).unwrap().len(),
                        );
                    }
                }
                self.compile_all(items, 1)?;
                let ghost mid2 = self.bytecode@;
                self.emit(Instruction::CallClosure(items.len() - 1));
                proof {
                    lemma_emitted_trans(s0.bytecode@, mid, mid2);
                    lemma_emit_plain(s0.bytecode@, mid2, Instruction::CallClosure((items.len() - 1) as usize));
                    lemma_instrs_view_push(mid2, Instruction::CallClosure((items.len() - 1) as usize));
                    if plain is Some {
                        let h = s0.plain_code(items@[0], t0, l0).unwrap();
                        let c = s0.args_code(items@, 1, t0, l0 + h.len()).unwrap();
                        assert(instrs_view(mid2) == instrs_view(s0.bytecode@) + h + c);
                        assert(instrs_view(self.bytecode@) =~= instrs_view(s0.bytecode@) + (h + c + seq![
                            instr_view(Instruction::CallClosure((items.len() - 1) as usize)),
                        ]));
                    }
                }
                Ok(())
            },
        }
    }

    /// `(op a b ...)` folded from the left with the instruction.
    fn compile_fold(&mut self, items: &Vec<SourceExpr>, location: &Location, code: u8, msg: &str) -> (r: Result<(), CompileError>)
        requires
            old(self).wf(),
        ensures
            final(self).wf(),
            r is Ok ==> final(self).extends(old(self)),
            items@.len() >= 3 && all_constant(items@, 1) ==> r is Ok,
            items@.len() >= 3 ==> (old(self).fold_code(items@, code, old(self).code().len() as int) matches Some(c) ==> r
                is Ok && instrs_view(final(self).code()) == instrs_view(old(self).code()) + c),
        decreases self.budget(), *items, 7int, 0int,
    {
        if items.len() < 3 {
            return Err(error_at(msg, location));
        }
        let ghost s0 = *self;
        let ghost all = s0.fold_code(items@, code, s0.code().len() as int);
        proof {
            lemma_emitted_refl(self.bytecode@);
            lemma_instrs_view_len(self.bytecode@);
        }
        let saved = self.in_tail_position;
        self.in_tail_position = false;
        proof {
            Self::lemma_same_names_code(self, &s0, items@[1], false, s0.code().len() as int);
        }
        self.compile_expr(&items[1])?;
        proof {
            lemma_instrs_view_len(self.bytecode@);
        }
        let mut i: usize = 2;
        while i < items.len()
            invariant
                self.macro_budget <= old(self).macro_budget,
                self.wf(),
                s0.wf(),
                emitted(s0.bytecode@, self.bytecode@),
                self.in_tail_position == false,
                saved == s0.in_tail_position,
                self.same_context_but_tail(&s0),
                2 <= i,
                s0 == *old(self),
                all == s0.fold_code(items@, code, s0.code().len() as int),
                all is Some ==> {
                    &&& s0.fold_rest(items@, i as int, code, self.code().len() as int) is Some
                    &&& instrs_view(self.code()) + s0.fold_rest(items@, i as int, code, self.code().len() as int).unwrap()
                        == instrs_view(s0.code()) + all.unwrap()
                },
            decreases items@.len() - i,
        {
            let ghost mid = self.bytecode@;
            let ghost m = *self;
            proof {
                Self::lemma_tail_same_names(&m, &s0);
                Self::lemma_same_names_code(&m, &s0, items@[i as int], false, m.code().len() as int);
                lemma_instrs_view_len(mid);
            }
            self.compile_expr(&items[i])?;
            let ghost mid2 = self.bytecode@;
            let op_ins = arith(code);
            self.emit(op_ins);
            proof {
                lemma_emitted_trans(s0.bytecode@, mid, mid2);

                lemma_emit_plain(s0.bytecode@, mid2, op_ins);
                lemma_instrs_view_push(mid2, op_ins);
                lemma_instrs_view_len(mid2);
                lemma_instrs_view_len(self.bytecode@);
                if all is Some {
                    let c = s0.plain_code(items@[i as int], false, m.code().len() as int).unwrap();
                    let rest = s0.fold_rest(items@, i + 1, code, self.code().len() as int).unwrap();
                    assert(instrs_view(mid2) == instrs_view(mid) + c);
                    assert(self.code().len() == m.code().len() + c.len() + 1);
                    assert(s0.fold_rest(items@, i as int, code, m.code().len() as int).unwrap() == c.push(
                        instr_view(arith_of(code)),
                    ) + rest);
                    assert(instrs_view(self.code()) + rest =~= instrs_view(m.code()) + (c.push(instr_view(arith_of(code)))
                        + rest));
                }
            }
            i = i + 1;
        }
        self.in_tail_position = saved;
        proof {
            if all is Some {
                assert(instrs_view(self.code()) + Seq::<InstrView>::empty() =~= instrs_view(self.code()));
            }
        }
        Ok(())
    }

    /// `(op a ...)` with exactly `n` operands, then the instruction.
    fn compile_fixed(
        &mut self,
        items: &Vec<SourceExpr>,
        location: &Location,
        n: usize,
        ins: Instruction,
        msg: &str,
        clear_tail: bool,
    ) -> (r: Result<(), CompileError>)
        requires
            old(self).wf(),
            jump_target(ins) is None,
        ensures
            final(self).wf(),
            r is Ok ==> final(self).extends(old(self)),
            items@.len() == n + 1 && all_constant(items@, 1) ==> r is Ok,
            items@.len() == n + 1 ==> (old(self).args_code(
                items@,
                1,
                if clear_tail { false } else { old(self).in_tail_position },
                old(self).code().len() as int,
            ) matches Some(c) ==> r is Ok && instrs_view(final(self).code()) == instrs_view(old(self).code()) + c.push(
                instr_view(ins),
            )),
        decreases self.budget(), *items, 7int, 0int,
    {
        if items.len() == 0 || items.len() - 1 != n {
            return Err(error_at(msg, location));
        }
        let ghost s0 = *self;
        let saved = self.in_tail_position;
        if clear_tail {
            self.in_tail_position = false;
        }
        proof {
            Self::lemma_same_names_args(self, &s0, items@, 1, self.in_tail_position, s0.code().len() as int);
        }
        self.compile_all(items, 1)?;
        let ghost mid = self.bytecode@;
        self.emit(ins);
        proof {
            lemma_emit_plain(s0.bytecode@, mid, ins);
            lemma_instrs_view_push(mid, ins);
        }
        self.in_tail_position = saved;
        Ok(())
    }
}


impl Compiler {
    /// `(if c t e)`.
    #[verifier::rlimit(100)]
    #[verifier::spinoff_prover]
    fn compile_if(&mut self, items: &Vec<SourceExpr>, location: &Location) -> (r: Result<(), CompileError>)
        requires
            old(self).wf(),
        ensures
            final(self).wf(),
            r is Ok ==> final(self).extends(old(self)),
            items@.len() == 4 && all_constant(items@, 1) ==> r is Ok,
            old(self).if_code(items@, old(self).in_tail_position, old(self).code().len() as int) matches Some(c) ==> r is Ok
                && instrs_view(final(self).code()) == instrs_view(old(self).code()) + c,
        decreases self.budget(), *items, 7int, 0int,
    {
        if items.len() != 4 {
            return Err(error_at("if expects exactly 3 arguments (condition, then, else)", location));
        }
        let ghost s0 = *self;
        let ghost b0 = self.bytecode@;
        let ghost l0 = b0.len() as int;
        let ghost plain = s0.if_code(items@, s0.in_tail_position, l0);
        let saved = self.in_tail_position;
        self.in_tail_position = false;
        proof {
            lemma_instrs_view_len(b0);
            Self::lemma_tail_same_names(self, &s0);
            Self::lemma_same_names_code(self, &s0, items@[1], false, l0);
        }
        self.compile_expr(&items[1])?;
        let jif = self.bytecode.len();
        let ghost c1 = self.bytecode@;
        self.emit(Instruction::JmpIfFalse(jif));
        proof {
            lemma_emit_plain(b0, c1, Instruction::JmpIfFalse(jif));
            lemma_instrs_view_len(c1);
            lemma_instrs_view_push(c1, Instruction::JmpIfFalse(jif));
        }
        self.in_tail_position = saved;
        let ghost c2 = self.bytecode@;
        proof {
            Self::lemma_tail_same_names(self, &s0);
            Self::lemma_same_names_code(self, &s0, items@[2], saved, c2.len() as int);
        }
        self.compile_expr(&items[2])?;
        let jend = self.bytecode.len();
        let ghost c3 = self.bytecode@;
        self.emit(Instruction::Jmp(jend));
        proof {
            lemma_emitted_trans(b0, c2, c3);
            lemma_emit_plain(b0, c3, Instruction::Jmp(jend));
            lemma_instrs_view_len(c3);
            lemma_instrs_view_push(c3, Instruction::Jmp(jend));
        }
        let else_addr = self.instruction_address;
        let ghost c4 = self.bytecode@;
        self.patch(jif, Instruction::JmpIfFalse(else_addr));
        proof {
            lemma_patch(b0, c4, jif as int, Instruction::JmpIfFalse(else_addr));
            lemma_instrs_view_update(c4, jif as int, Instruction::JmpIfFalse(else_addr));
        }
        self.in_tail_position = saved;
        let ghost c5 = self.bytecode@;
        proof {
            Self::lemma_tail_same_names(self, &s0);
            Self::lemma_same_names_code(self, &s0, items@[3], saved, c5.len() as int);
        }
        self.compile_expr(&items[3])?;
        let end_addr = self.instruction_address;
        let ghost c6 = self.bytecode@;
        self.patch(jend, Instruction::Jmp(end_addr));
        proof {
            lemma_emitted_trans(b0, c5, c6);
            lemma_patch(b0, c6, jend as int, Instruction::Jmp(end_addr));
            lemma_instrs_view_len(c5);
            lemma_instrs_view_len(c6);
            lemma_instrs_view_update(c6, jend as int, Instruction::Jmp(end_addr));
            if plain is Some {
                let x1 = s0.plain_code(items@[1], false, l0).unwrap();
                let x2 = s0.plain_code(items@[2], saved, l0 + x1.len() + 1).unwrap();
                let x3 = s0.plain_code(items@[3], saved, l0 + x1.len() + x2.len() + 2).unwrap();
                let jv = instr_view(Instruction::JmpIfFalse(else_addr));
                let ev = instr_view(Instruction::Jmp(end_addr));
                assert(instrs_view(c1) == instrs_view(b0) + x1);
                assert(instrs_view(c3) == instrs_view(c2) + x2);
                assert(instrs_view(c5) =~= instrs_view(b0) + x1 + seq![jv] + x2 + seq![
                    instr_view(Instruction::Jmp(jend)),
                ]);
                assert(instrs_view(c6) == instrs_view(c5) + x3);
                assert(instrs_view(self.bytecode@) =~= instrs_view(b0) + (x1 + seq![jv] + x2 + seq![ev] + x3));
            }
        }
        self.in_tail_position = saved;
        Ok(())
    }

    /// `(when c e)` is `(if c e false)`; `(unless c e)` is `(if c false e)`.
    fn compile_when(&mut self, items: &Vec<SourceExpr>, location: &Location, when: bool) -> (r: Result<(), CompileError>)
        requires
            old(self).wf(),
        ensures
            final(self).wf(),
            r is Ok ==> final(self).extends(old(self)),
            items@.len() == 3 && all_constant(items@, 1) ==> r is Ok,
            old(self).when_code(items@, when, old(self).in_tail_position, old(self).code().len() as int) matches Some(c)
                ==> r is Ok && instrs_view(final(self).code()) == instrs_view(old(self).code()) + c,
        decreases self.budget(), *items, 7int, 0int,
    {
        if when {
            self.compile_when_form(items, location)
        } else {
            self.compile_unless_form(items, location)
        }
    }

    /// `(when c e)`.
    #[verifier::rlimit(100)]
    #[verifier::spinoff_prover]
    fn compile_when_form(&mut self, items: &Vec<SourceExpr>, location: &Location) -> (r: Result<(), CompileError>)
        requires
            old(self).wf(),
        ensures
            final(self).wf(),
            r is Ok ==> final(self).extends(old(self)),
            items@.len() == 3 && all_constant(items@, 1) ==> r is Ok,
            old(self).when_code(items@, true, old(self).in_tail_position, old(self).code().len() as int) matches Some(c)
                ==> r is Ok && instrs_view(final(self).code()) == instrs_view(old(self).code()) + c,
        decreases self.budget(), *items, 6int, 0int,
    {
        if items.len() != 3 {
            return Err(error_at("when expects exactly 2 arguments (test, expr)", location));
        }
        let ghost s0 = *self;
        let ghost b0 = self.bytecode@;
        let ghost l0 = b0.len() as int;
        let ghost plain = s0.when_code(items@, true, s0.in_tail_position, l0);
        let ghost pf = instr_view(Instruction::Push(Value::Boolean(false)));
        let saved = self.in_tail_position;
        self.in_tail_position = false;
        proof {
            lemma_instrs_view_len(b0);
            Self::lemma_tail_same_names(self, &s0);
            Self::lemma_same_names_code(self, &s0, items@[1], false, l0);
        }
        self.compile_expr(&items[1])?;
        let jif = self.bytecode.len();
        let ghost c1 = self.bytecode@;
        self.emit(Instruction::JmpIfFalse(jif));
        proof {
            lemma_emit_plain(b0, c1, Instruction::JmpIfFalse(jif));
            lemma_instrs_view_len(c1);
            lemma_instrs_view_push(c1, Instruction::JmpIfFalse(jif));
        }
        let ghost c2 = self.bytecode@;
        self.in_tail_position = saved;
        proof {
            Self::lemma_tail_same_names(self, &s0);
            Self::lemma_same_names_code(self, &s0, items@[2], saved, c2.len() as int);
        }
        self.compile_expr(&items[2])?;
        let jend = self.bytecode.len();
        let ghost c3 = self.bytecode@;
        self.emit(Instruction::Jmp(jend));
        proof {
            lemma_emitted_trans(b0, c2, c3);
            lemma_emit_plain(b0, c3, Instruction::Jmp(jend));
            lemma_instrs_view_len(c3);
            lemma_instrs_view_push(c3, Instruction::Jmp(jend));
        }
        let else_addr = self.instruction_address;
        let ghost c4 = self.bytecode@;
        self.patch(jif, Instruction::JmpIfFalse(else_addr));
        proof {
            lemma_patch(b0, c4, jif as int, Instruction::JmpIfFalse(else_addr));
            lemma_instrs_view_update(c4, jif as int, Instruction::JmpIfFalse(else_addr));
        }
        let ghost c5 = self.bytecode@;
        self.emit(Instruction::Push(Value::Boolean(false)));
        proof {
            lemma_emitted_refl(c5);
            lemma_emit_plain(c5, c5, Instruction::Push(Value::Boolean(false)));
            lemma_instrs_view_push(c5, Instruction::Push(Value::Boolean(false)));
            assert(instrs_view(c5).push(pf) =~= instrs_view(c5) + seq![pf]);
        }
        let end_addr = self.instruction_address;
        let ghost c6 = self.bytecode@;
        self.patch(jend, Instruction::Jmp(end_addr));
        proof {
            lemma_emitted_trans(b0, c5, c6);
            lemma_patch(b0, c6, jend as int, Instruction::Jmp(end_addr));
            lemma_instrs_view_len(c5);
            lemma_instrs_view_len(c6);
            lemma_instrs_view_update(c6, jend as int, Instruction::Jmp(end_addr));
            if plain is Some {
                let x1 = s0.plain_code(items@[1], false, l0).unwrap();
                let x2 = instrs_view(c3).subrange(c2.len() as int, c3.len() as int);
                let x3 = instrs_view(c6).subrange(c5.len() as int, c6.len() as int);
                let jv = instr_view(Instruction::JmpIfFalse(else_addr));
                let ev = instr_view(Instruction::Jmp(end_addr));
                assert(instrs_view(c1) == instrs_view(b0) + x1);
                assert(instrs_view(c3) =~= instrs_view(c2) + x2);
                assert(instrs_view(c5) =~= instrs_view(b0) + x1 + seq![jv] + x2 + seq![
                    instr_view(Instruction::Jmp(jend)),
                ]);
                assert(instrs_view(c6) =~= instrs_view(c5) + x3);
                assert(instrs_view(self.bytecode@) =~= instrs_view(b0) + (x1 + seq![jv] + x2 + seq![ev] + x3));
            }
        }
        self.in_tail_position = saved;
        Ok(())
    }

    /// `(unless c e)`.
    #[verifier::rlimit(100)]
    #[verifier::spinoff_prover]
    fn compile_unless_form(&mut self, items: &Vec<SourceExpr>, location: &Location) -> (r: Result<(), CompileError>)
        requires
            old(self).wf(),
        ensures
            final(self).wf(),
            r is Ok ==> final(self).extends(old(self)),
            items@.len() == 3 && all_constant(items@, 1) ==> r is Ok,
            old(self).when_code(items@, false, old(self).in_tail_position, old(self).code().len() as int) matches Some(c)
                ==> r is Ok && instrs_view(final(self).code()) == instrs_view(old(self).code()) + c,
        decreases self.budget(), *items, 6int, 0int,
    {
        if items.len() != 3 {
            return Err(error_at("unless expects exactly 2 arguments (test, expr)", location));
        }
        let ghost s0 = *self;
        let ghost b0 = self.bytecode@;
        let ghost l0 = b0.len() as int;
        let ghost plain = s0.when_code(items@, false, s0.in_tail_position, l0);
        let ghost pf = instr_view(Instruction::Push(Value::Boolean(false)));
        let saved = self.in_tail_position;
        self.in_tail_position = false;
        proof {
            lemma_instrs_view_len(b0);
            Self::lemma_tail_same_names(self, &s0);
            Self::lemma_same_names_code(self, &s0, items@[1], false, l0);
        }
        self.compile_expr(&items[1])?;
        let jif = self.bytecode.len();
        let ghost c1 = self.bytecode@;
        self.emit(Instruction::JmpIfFalse(jif));
        proof {
            lemma_emit_plain(b0, c1, Instruction::JmpIfFalse(jif));
            lemma_instrs_view_len(c1);
            lemma_instrs_view_push(c1, Instruction::JmpIfFalse(jif));
        }
        let ghost c2 = self.bytecode@;
        self.emit(Instruction::Push(Value::Boolean(false)));
        proof {
            lemma_emitted_refl(c2);
            lemma_emit_plain(c2, c2, Instruction::Push(Value::Boolean(false)));
            lemma_instrs_view_push(c2, Instruction::Push(Value::Boolean(false)));
            assert(instrs_view(c2).push(pf) =~= instrs_view(c2) + seq![pf]);
        }
        let jend = self.bytecode.len();
        let ghost c3 = self.bytecode@;
        self.emit(Instruction::Jmp(jend));
        proof {
            lemma_emitted_trans(b0, c2, c3);
            lemma_emit_plain(b0, c3, Instruction::Jmp(jend));
            lemma_instrs_view_len(c3);
            lemma_instrs_view_push(c3, Instruction::Jmp(jend));
        }
        let else_addr = self.instruction_address;
        let ghost c4 = self.bytecode@;
        self.patch(jif, Instruction::JmpIfFalse(else_addr));
        proof {
            lemma_patch(b0, c4, jif as int, Instruction::JmpIfFalse(else_addr));
            lemma_instrs_view_update(c4, jif as int, Instruction::JmpIfFalse(else_addr));
        }
        let ghost c5 = self.bytecode@;
        self.in_tail_position = saved;
        proof {
            Self::lemma_tail_same_names(self, &s0);
            Self::lemma_same_names_code(self, &s0, items@[2], saved, c5.len() as int);
        }
        self.compile_expr(&items[2])?;
        let end_addr = self.instruction_address;
        let ghost c6 = self.bytecode@;
        self.patch(jend, Instruction::Jmp(end_addr));
        proof {
            lemma_emitted_trans(b0, c5, c6);
            lemma_patch(b0, c6, jend as int, Instruction::Jmp(end_addr));
            lemma_instrs_view_len(c5);
            lemma_instrs_view_len(c6);
            lemma_instrs_view_update(c6, jend as int, Instruction::Jmp(end_addr));
            if plain is Some {
                let x1 = s0.plain_code(items@[1], false, l0).unwrap();
                let x2 = instrs_view(c3).subrange(c2.len() as int, c3.len() as int);
                let x3 = instrs_view(c6).subrange(c5.len() as int, c6.len() as int);
                let jv = instr_view(Instruction::JmpIfFalse(else_addr));
                let ev = instr_view(Instruction::Jmp(end_addr));
                assert(instrs_view(c1) == instrs_view(b0) + x1);
                assert(instrs_view(c3) =~= instrs_view(c2) + x2);
                assert(instrs_view(c5) =~= instrs_view(b0) + x1 + seq![jv] + x2 + seq![
                    instr_view(Instruction::Jmp(jend)),
                ]);
                assert(instrs_view(c6) =~= instrs_view(c5) + x3);
                assert(instrs_view(self.bytecode@) =~= instrs_view(b0) + (x1 + seq![jv] + x2 + seq![ev] + x3));
            }
        }
        self.in_tail_position = saved;
        Ok(())
    }

    /// `(do e ...)`: every value but the last is dropped.
    #[verifier::rlimit(100)]
    #[verifier::spinoff_prover]
    fn compile_do(&mut self, items: &Vec<SourceExpr>, location: &Location) -> (r: Result<(), CompileError>)
        requires
            old(self).wf(),
        ensures
            final(self).wf(),
            r is Ok ==> final(self).extends(old(self)),
            items@.len() >= 2 && all_constant(items@, 1) ==> r is Ok,
            items@.len() >= 2 ==> (old(self).do_code(items@, 1, old(self).in_tail(), old(self).code().len() as int) matches Some(
                c,
            ) ==> r is Ok && instrs_view(final(self).code()) == instrs_view(old(self).code()) + c),
        decreases self.budget(), *items, 7int, 0int,
    {
        if items.len() < 2 {
            return Err(error_at("do/begin expects at least 1 expression", location));
        }
        let ghost s0 = *self;
        let ghost all = s0.do_code(items@, 1, s0.in_tail(), s0.code().len() as int);
        proof {
            lemma_emitted_refl(self.bytecode@);
            lemma_instrs_view_len(self.bytecode@);
        }
        let saved = self.in_tail_position;
        let last = items.len() - 1;
        let mut i: usize = 1;
        while i < last
            invariant
                self.macro_budget <= old(self).macro_budget,
                self.wf(),
                s0.wf(),
                emitted(s0.bytecode@, self.bytecode@),
                saved == s0.in_tail_position,
                self.same_context_but_tail(&s0),
                last == items@.len() - 1,
                1 <= i <= last,
                s0 == *old(self),
                all == s0.do_code(items@, 1, s0.in_tail(), s0.code().len() as int),
                all is Some ==> {
                    &&& s0.do_code(items@, i as int, s0.in_tail(), self.code().len() as int) is Some
                    &&& instrs_view(self.code()) + s0.do_code(items@, i as int, s0.in_tail(), self.code().len() as int).unwrap()
                        == instrs_view(s0.code()) + all.unwrap()
                },
            decreases last - i,
        {
            self.in_tail_position = false;
            let ghost mid = self.bytecode@;
            let ghost m = *self;
            proof {
                Self::lemma_tail_same_names(&m, &s0);
                Self::lemma_same_names_code(&m, &s0, items@[i as int], false, m.code().len() as int);
                lemma_instrs_view_len(mid);
            }
            self.compile_expr(&items[i])?;
            let ghost mid2 = self.bytecode@;
            self.emit(Instruction::PopN(1));
            proof {
                lemma_emitted_trans(s0.bytecode@, mid, mid2);
                lemma_emit_plain(s0.bytecode@, mid2, Instruction::PopN(1));
                lemma_instrs_view_push(mid2, Instruction::PopN(1));
                lemma_instrs_view_len(mid2);
                lemma_instrs_view_len(self.bytecode@);
                if all is Some {
                    let c = s0.plain_code(items@[i as int], false, m.code().len() as int).unwrap();
                    let rest = s0.do_code(items@, i + 1, s0.in_tail(), self.code().len() as int).unwrap();
                    assert(instrs_view(mid2) == instrs_view(mid) + c);
                    assert(self.code().len() == m.code().len() + c.len() + 1);
                    assert(s0.do_code(items@, i as int, s0.in_tail(), m.code().len() as int).unwrap() == c.push(
                        instr_view(Instruction::PopN(1)),
                    ) + rest);
                    assert(instrs_view(self.code()) + rest =~= instrs_view(m.code()) + (c.push(
                        instr_view(Instruction::PopN(1)),
                    ) + rest));
                }
            }
            i = i + 1;
        }
        self.in_tail_position = saved;
        let ghost mid = self.bytecode@;
        let ghost m = *self;
        proof {
            Self::lemma_tail_same_names(&m, &s0);
            Self::lemma_same_names_code(&m, &s0, items@[last as int], saved, m.code().len() as int);
            lemma_instrs_view_len(mid);
        }
        self.compile_expr(&items[last])?;
        proof {
            lemma_emitted_trans(s0.bytecode@, mid, self.bytecode@);
        }
        self.in_tail_position = saved;
        Ok(())
    }

    /// `(and a b ...)` from `items[from]` on, as nested conditionals.
    #[verifier::rlimit(100)]
    #[verifier::spinoff_prover]
    fn compile_and(&mut self, items: &Vec<SourceExpr>, from: usize) -> (r: Result<(), CompileError>)
        requires
            old(self).wf(),
            from <= items@.len(),
        ensures
            final(self).wf(),
            r is Ok ==> final(self).extends(old(self)),
            all_constant(items@, from as int) ==> r is Ok,
            old(self).and_or_code(items@, from as int, true, old(self).in_tail_position, old(self).code().len() as int)
                matches Some(c) ==> r is Ok && instrs_view(final(self).code()) == instrs_view(old(self).code()) + c,
        decreases self.budget(), *items, 6int, items@.len() - from,
    {
        let ghost s0 = *self;
        let ghost b0 = self.bytecode@;
        let ghost l0 = b0.len() as int;
        let ghost plain = s0.and_or_code(items@, from as int, true, s0.in_tail_position, l0);
        proof {
            lemma_emitted_refl(b0);
            lemma_instrs_view_len(b0);
        }
        if from == items.len() {
            self.emit(Instruction::Push(Value::Boolean(true)));
            proof {
                lemma_emit_plain(b0, b0, Instruction::Push(Value::Boolean(true)));
                lemma_instrs_view_push(b0, Instruction::Push(Value::Boolean(true)));
                assert(instrs_view(b0).push(instr_view(Instruction::Push(Value::Boolean(true)))) =~= instrs_view(b0) + seq![
                    instr_view(Instruction::Push(Value::Boolean(true))),
                ]);
            }
            return Ok(());
        }
        if from + 1 == items.len() {
            self.compile_expr(&items[from])?;
            return Ok(());
        }
        let saved = self.in_tail_position;
        self.in_tail_position = false;
        proof {
            Self::lemma_tail_same_names(self, &s0);
            Self::lemma_same_names_code(self, &s0, items@[from as int], false, l0);
        }
        self.compile_expr(&items[from])?;
        let jif = self.bytecode.len();
        let ghost c1 = self.bytecode@;
        self.emit(Instruction::JmpIfFalse(jif));
        proof {
            lemma_emit_plain(b0, c1, Instruction::JmpIfFalse(jif));
            lemma_instrs_view_len(c1);
            lemma_instrs_view_push(c1, Instruction::JmpIfFalse(jif));
        }
        let ghost c2 = self.bytecode@;
        self.in_tail_position = saved;
        proof {
            Self::lemma_tail_same_names(self, &s0);
            Self::lemma_same_names_and_or(self, &s0, items@, from + 1, true, saved, c2.len() as int);
        }
        self.compile_and(items, from + 1)?;
        let jend = self.bytecode.len();
        let ghost c3 = self.bytecode@;
        self.emit(Instruction::Jmp(jend));
        proof {
            lemma_emitted_trans(b0, c2, c3);
            lemma_emit_plain(b0, c3, Instruction::Jmp(jend));
            lemma_instrs_view_len(c3);
            lemma_instrs_view_push(c3, Instruction::Jmp(jend));
        }
        let mid_addr = self.instruction_address;
        let ghost c4 = self.bytecode@;
        self.patch(jif, Instruction::JmpIfFalse(mid_addr));
        proof {
            lemma_patch(b0, c4, jif as int, Instruction::JmpIfFalse(mid_addr));
            lemma_instrs_view_update(c4, jif as int, Instruction::JmpIfFalse(mid_addr));
        }
        let ghost c5 = self.bytecode@;
        self.emit(Instruction::Push(Value::Boolean(false)));
        proof {
            lemma_emitted_refl(c5);
            lemma_emit_plain(c5, c5, Instruction::Push(Value::Boolean(false)));
            lemma_instrs_view_push(c5, Instruction::Push(Value::Boolean(false)));
        }
        let end_addr = self.instruction_address;
        let ghost c6 = self.bytecode@;
        self.patch(jend, Instruction::Jmp(end_addr));
        proof {
            lemma_emitted_trans(b0, c5, c6);
            lemma_patch(b0, c6, jend as int, Instruction::Jmp(end_addr));
            lemma_instrs_view_len(c5);
            lemma_instrs_view_len(c6);
            lemma_instrs_view_update(c6, jend as int, Instruction::Jmp(end_addr));
            if plain is Some {
                let x1 = s0.plain_code(items@[from as int], false, l0).unwrap();
                let x2 = instrs_view(c3).subrange(c2.len() as int, c3.len() as int);
                let x3 = instrs_view(c6).subrange(c5.len() as int, c6.len() as int);
                let jv = instr_view(Instruction::JmpIfFalse(mid_addr));
                let ev = instr_view(Instruction::Jmp(end_addr));
                assert(instrs_view(c1) == instrs_view(b0) + x1);
                assert(instrs_view(c3) =~= instrs_view(c2) + x2);
                assert(instrs_view(c5) =~= instrs_view(b0) + x1 + seq![jv] + x2 + seq![
                    instr_view(Instruction::Jmp(jend)),
                ]);
                assert(instrs_view(c6) =~= instrs_view(c5) + x3);
                assert(instrs_view(self.bytecode@) =~= instrs_view(b0) + (x1 + seq![jv] + x2 + seq![ev] + x3));
            }
        }
        self.in_tail_position = saved;
        Ok(())
    }

    /// `(or a b ...)` from `items[from]` on, as nested conditionals.
    #[verifier::rlimit(100)]
    #[verifier::spinoff_prover]
    fn compile_or(&mut self, items: &Vec<SourceExpr>, from: usize) -> (r: Result<(), CompileError>)
        requires
            old(self).wf(),
            from <= items@.len(),
        ensures
            final(self).wf(),
            r is Ok ==> final(self).extends(old(self)),
            all_constant(items@, from as int) ==> r is Ok,
            old(self).and_or_code(items@, from as int, false, old(self).in_tail_position, old(self).code().len() as int)
                matches Some(c) ==> r is Ok && instrs_view(final(self).code()) == instrs_view(old(self).code()) + c,
        decreases self.budget(), *items, 6int, items@.len() - from,
    {
        let ghost s0 = *self;
        let ghost b0 = self.bytecode@;
        let ghost l0 = b0.len() as int;
        let ghost plain = s0.and_or_code(items@, from as int, false, s0.in_tail_position, l0);
        proof {
            lemma_emitted_refl(b0);
            lemma_instrs_view_len(b0);
        }
        if from == items.len() {
            self.emit(Instruction::Push(Value::Boolean(false)));
            proof {
                lemma_emit_plain(b0, b0, Instruction::Push(Value::Boolean(false)));
                lemma_instrs_view_push(b0, Instruction::Push(Value::Boolean(false)));
                assert(instrs_view(b0).push(instr_view(Instruction::Push(Value::Boolean(false)))) =~= instrs_view(b0) + seq![
                    instr_view(Instruction::Push(Value::Boolean(false))),
                ]);
            }
            return Ok(());
        }
        if from + 1 == items.len() {
            self.compile_expr(&items[from])?;
            return Ok(());
        }
        let saved = self.in_tail_position;
        self.in_tail_position = false;
        proof {
            Self::lemma_tail_same_names(self, &s0);
            Self::lemma_same_names_code(self, &s0, items@[from as int], false, l0);
        }
        self.compile_expr(&items[from])?;
        let jif = self.bytecode.len();
        let ghost c1 = self.bytecode@;
        self.emit(Instruction::JmpIfFalse(jif));
        proof {
            lemma_emit_plain(b0, c1, Instruction::JmpIfFalse(jif));
            lemma_instrs_view_len(c1);
            lemma_instrs_view_push(c1, Instruction::JmpIfFalse(jif));
        }
        let ghost c2 = self.bytecode@;
        self.emit(Instruction::Push(Value::Boolean(true)));
        proof {
            lemma_emitted_refl(c2);
            lemma_emit_plain(c2, c2, Instruction::Push(Value::Boolean(true)));
            lemma_instrs_view_push(c2, Instruction::Push(Value::Boolean(true)));
        }
        let jend = self.bytecode.len();
        let ghost c3 = self.bytecode@;
        self.emit(Instruction::Jmp(jend));
        proof {
            lemma_emitted_trans(b0, c2, c3);
            lemma_emit_plain(b0, c3, Instruction::Jmp(jend));
            lemma_instrs_view_len(c3);
            lemma_instrs_view_push(c3, Instruction::Jmp(jend));
        }
        let mid_addr = self.instruction_address;
        let ghost c4 = self.bytecode@;
        self.patch(jif, Instruction::JmpIfFalse(mid_addr));
        proof {
            lemma_patch(b0, c4, jif as int, Instruction::JmpIfFalse(mid_addr));
            lemma_instrs_view_update(c4, jif as int, Instruction::JmpIfFalse(mid_addr));
        }
        let ghost c5 = self.bytecode@;
        self.in_tail_position = saved;
        proof {
            Self::lemma_tail_same_names(self, &s0);
            Self::lemma_same_names_and_or(self, &s0, items@, from + 1, false, saved, c5.len() as int);
        }
        self.compile_or(items, from + 1)?;
        let end_addr = self.instruction_address;
        let ghost c6 = self.bytecode@;
        self.patch(jend, Instruction::Jmp(end_addr));
        proof {
            lemma_emitted_trans(b0, c5, c6);
            lemma_patch(b0, c6, jend as int, Instruction::Jmp(end_addr));
            lemma_instrs_view_len(c5);
            lemma_instrs_view_len(c6);
            lemma_instrs_view_update(c6, jend as int, Instruction::Jmp(end_addr));
            if plain is Some {
                let x1 = s0.plain_code(items@[from as int], false, l0).unwrap();
                let x2 = instrs_view(c3).subrange(c2.len() as int, c3.len() as int);
                let x3 = instrs_view(c6).subrange(c5.len() as int, c6.len() as int);
                let jv = instr_view(Instruction::JmpIfFalse(mid_addr));
                let ev = instr_view(Instruction::Jmp(end_addr));
                assert(instrs_view(c1) == instrs_view(b0) + x1);
                assert(instrs_view(c3) =~= instrs_view(c2) + x2);
                assert(instrs_view(c5) =~= instrs_view(b0) + x1 + seq![jv] + x2 + seq![
                    instr_view(Instruction::Jmp(jend)),
                ]);
                assert(instrs_view(c6) =~= instrs_view(c5) + x3);
                assert(instrs_view(self.bytecode@) =~= instrs_view(b0) + (x1 + seq![jv] + x2 + seq![ev] + x3));
            }
        }
        self.in_tail_position = saved;
        Ok(())
    }

    /// `(cond (test e) ... (else e))` from the clause `clauses[from]` on.
    #[verifier::rlimit(100)]
    #[verifier::spinoff_prover]
    fn compile_cond(&mut self, clauses: &Vec<SourceExpr>, from: usize) -> (r: Result<(), CompileError>)
        requires
            old(self).wf(),
            from <= clauses@.len(),
        ensures
            final(self).wf(),
            r is Ok ==> final(self).extends(old(self)),
            (forall|j: int| from <= j < clauses@.len() ==> constant_clause(#[trigger] clauses@[j])) ==> r is Ok,
        decreases self.budget(), *clauses, 6int, clauses@.len() - from,
    {
        let ghost b0 = self.bytecode@;
        proof {
            lemma_emitted_refl(b0);
        }
        if from == clauses.len() {
            self.emit(Instruction::Push(Value::Boolean(false)));
            proof {
                lemma_emit_plain(b0, b0, Instruction::Push(Value::Boolean(false)));
            }
            return Ok(());
        }
        let is_last = from + 1 == clauses.len();
        let clause = &clauses[from];
        let parts = match &clauses[from].expr {
            LispExpr::List(parts) => parts,
            _ => {
                return Err(error_at("cond clause must be a list of (test expr)", &clause.location));
            },
        };
        if parts.len() != 2 {
            return Err(error_at("cond clause must be a list of (test expr)", &clause.location));
        }
        let saved = self.in_tail_position;
        if is_symbol_text(&parts[0], "else") {
            if !is_last {
                return Err(error_at("else clause must be the last clause in cond", &clause.location));
            }
            self.compile_expr(&parts[1])?;
            return Ok(());
        }
        self.in_tail_position = false;
        self.compile_expr(&parts[0])?;
        let jif = self.bytecode.len();
        let ghost c1 = self.bytecode@;
        self.emit(Instruction::JmpIfFalse(jif));
        proof {
            lemma_emit_plain(b0, c1, Instruction::JmpIfFalse(jif));
        }
        self.in_tail_position = saved;
        let ghost c2 = self.bytecode@;
        self.compile_expr(&parts[1])?;
        let jend = self.bytecode.len();
        let ghost c3 = self.bytecode@;
        self.emit(Instruction::Jmp(jend));
        proof {
            lemma_emitted_trans(b0, c2, c3);
            lemma_emit_plain(b0, c3, Instruction::Jmp(jend));
        }
        let else_addr = self.instruction_address;
        let ghost c4 = self.bytecode@;
        self.patch(jif, Instruction::JmpIfFalse(else_addr));
        proof {
            lemma_patch(b0, c4, jif as int, Instruction::JmpIfFalse(else_addr));
        }
        let ghost c5 = self.bytecode@;
        if !is_last {
            self.compile_cond(clauses, from + 1)?;
        } else {
            self.emit(Instruction::Push(Value::Boolean(false)));
            proof {
                lemma_emitted_refl(c5);
                lemma_emit_plain(c5, c5, Instruction::Push(Value::Boolean(false)));
            }
        }
        let end_addr = self.instruction_address;
        let ghost c6 = self.bytecode@;
        self.patch(jend, Instruction::Jmp(end_addr));
        proof {
            lemma_emitted_trans(b0, c5, c6);
            lemma_patch(b0, c6, jend as int, Instruction::Jmp(end_addr));
        }
        self.in_tail_position = saved;
        Ok(())
    }

    /// The code that loads a variable of the scope being compiled: a local or
    /// pattern variable, or a parameter; `None` when the name is none of them.
    spec fn variable_load(&self, s: Seq<char>) -> Option<Seq<Instruction>> {
        if has_key(self.local_bindings@, s) {
            Some(load_code(self.local_bindings@[first_key(self.local_bindings@, s)].1))
        } else if has_key(self.pattern_bindings@, s) {
            Some(load_code(self.pattern_bindings@[first_key(self.pattern_bindings@, s)].1))
        } else if holds_name(self.param_names@, s) {
            Some(seq![Instruction::LoadArg(first_name(self.param_names@, s) as usize)])
        } else {
            None
        }
    }

    /// Emits the load of a bound variable.
    fn compile_variable_load(&mut self, var_name: &str) -> (r: Result<(), CompileError>)
        requires
            old(self).wf(),
        ensures
            final(self).wf(),
            r is Ok ==> final(self).extends(old(self)),
            match old(self).variable_load(var_name@) {
                Some(c) => r is Ok && final(self).code() == old(self).code() + c,
                None => r is Err,
            },
    {
        let ghost b0 = self.bytecode@;
        proof {
            lemma_emitted_refl(b0);
        }
        match find_key(&self.local_bindings, var_name) {
            Some(i) => {
                let l = copy_location(&self.local_bindings[i].1);
                self.emit_load(&l);
                return Ok(());
            },
            None => {},
        }
        match find_key(&self.pattern_bindings, var_name) {
            Some(i) => {
                let l = copy_location(&self.pattern_bindings[i].1);
                self.emit_load(&l);
                return Ok(());
            },
            None => {},
        }
        match position_of(&self.param_names, var_name) {
            Some(idx) => {
                self.emit(Instruction::LoadArg(idx));
                proof {
                    lemma_emit_plain(b0, b0, Instruction::LoadArg(idx));
                    lemma_first_name(self.param_names@, var_name@, idx as int);
                    assert(b0.push(Instruction::LoadArg(idx)) =~= b0 + seq![Instruction::LoadArg(idx)]);
                }
                Ok(())
            },
            None => Err(CompileError::new(text3("Variable '", var_name, "' not found for capture"), Location::unknown())),
        }
    }

    /// A call of the operator `op` on `items[1..]`: a call of the closure a
    /// variable holds, or of a named function (a tail call in tail position).
    #[verifier::rlimit(100)]
    #[verifier::spinoff_prover]
    fn compile_call(&mut self, items: &Vec<SourceExpr>, op: &str) -> (r: Result<(), CompileError>)
        requires
            old(self).wf(),
            items@.len() >= 1,
        ensures
            final(self).wf(),
            r is Ok ==> final(self).extends(old(self)),
            !has_key(old(self).macros@, op@) && all_constant(items@, 1) ==> r is Ok,
            old(self).call_code(items@, op@, old(self).in_tail_position, old(self).code().len() as int) matches Some(c) ==> r
                is Ok && instrs_view(final(self).code()) == instrs_view(old(self).code()) + c,
        decreases self.budget(), *items, 7int, 0int,
    {
        let ghost b0 = self.bytecode@;
        match find_key(&self.macros, op) {
            Some(mi) => {
                let params = copy_names(&self.macros[mi].1.params);
                let body = copy_source(&self.macros[mi].1.body);
                if self.macro_budget == 0 {
                    return Err(CompileError::new(owned("Macro expansion limit reached"), Location::unknown()));
                }
                let ghost s0 = *self;
                self.macro_budget = self.macro_budget - 1;
                let expanded = self.expand_macro(&params, &body, items)?;
                let ghost mid = self.bytecode@;
                self.compile_expr(&expanded)?;
                proof {
                    lemma_emitted_trans(b0, mid, self.bytecode@);
                }
                return Ok(());
            },
            None => {},
        }
        let n = items.len() - 1;
        let ghost s0 = *self;
        let ghost l0 = self.code().len() as int;
        let ghost plain = self.call_code(items@, op@, self.in_tail_position, l0);
        let is_variable = find_key(&self.local_bindings, op).is_some() || find_key(&self.pattern_bindings, op).is_some()
            || has_name(&self.param_names, op);
        assert(is_variable == (s0.variable_load(op@) is Some));
        let saved = self.in_tail_position;
        self.in_tail_position = false;
        proof {
            lemma_instrs_view_len(b0);
        }
        if is_variable {
            self.compile_variable_load(op)?;
            let ghost c1 = self.bytecode@;
            proof {
                let load = s0.variable_load(op@).unwrap();
                lemma_instrs_view_append(b0, load);
                lemma_instrs_view_len(load);
                lemma_instrs_view_len(c1);
                Self::lemma_tail_same_names(self, &s0);
                Self::lemma_same_names_args(self, &s0, items@, 1, false, l0 + instrs_view(load).len());
            }
            self.compile_all(items, 1)?;
            let ghost c2 = self.bytecode@;
            self.emit(Instruction::CallClosure(n));
            proof {
                lemma_emitted_trans(b0, c1, c2);
                lemma_emit_plain(b0, c2, Instruction::CallClosure(n));
                lemma_instrs_view_push(c2, Instruction::CallClosure(n));
                if plain is Some {
                    let load = instrs_view(s0.variable_load(op@).unwrap());
                    let c = s0.args_code(items@, 1, false, l0 + load.len()).unwrap();
                    assert(instrs_view(c2) == instrs_view(b0) + load + c);
                    assert(instrs_view(self.bytecode@) =~= instrs_view(b0) + (load + c + seq![
                        instr_view(Instruction::CallClosure(n)),
                    ]));
                }
            }
        } else {
            proof {
                Self::lemma_tail_same_names(self, &s0);
                Self::lemma_same_names_args(self, &s0, items@, 1, false, l0);
            }
            self.compile_all(items, 1)?;
            assert(self.function_name_for(op@) == s0.function_name_for(op@));
            let resolved = self.resolve_function_name(op);
            let ghost c2 = self.bytecode@;
            let ins = if saved { Instruction::TailCall(resolved, n) } else { Instruction::Call(resolved, n) };
            self.emit(ins);
            proof {
                lemma_emit_plain(b0, c2, ins);
                lemma_instrs_view_push(c2, ins);
            }
        }
        self.in_tail_position = saved;
        Ok(())
    }
}

// ---------------------------------------------------------------------------
// Float literals

/// The text that stands for a float with the given bit pattern in an
/// expression a macro gave back.
pub open spec fn float_marker(bits: u64) -> Seq<char> {
    "__FLOAT__"@ + signed_decimal((bits as i64) as int)
}

/// The bit pattern such a text stands for.
pub open spec fn float_marker_value(t: Seq<char>) -> Option<u64> {
    if t.len() >= 9 && t.subrange(0, 9) == "__FLOAT__"@ {
        match int_literal(t.subrange(9, t.len() as int)) {
            Some(v) => Some((v as i64) as u64),
            None => None,
        }
    } else {
        None
    }
}

/// The bit pattern of a float literal's text: from the table the host
/// filled, or from the text itself when a macro gave it back.
pub open spec fn float_text_value(fb: Seq<(String, u64)>, t: Seq<char>) -> Option<u64> {
    if has_key(fb, t) {
        Some(fb[first_key(fb, t)].1)
    } else {
        float_marker_value(t)
    }
}

// ---------------------------------------------------------------------------
// Quoted data

/// The value a quoted expression stands for, if it stands for one: a float
/// literal needs a known bit pattern, and the rest of a dotted list must be
/// a list.
pub open spec fn quoted(fb: Seq<(String, u64)>, e: SourceView) -> Option<ValueView>
    decreases e, 1int,
{
    match e.expr {
        ExprView::Number(n) => Some(ValueView::Integer(n)),
        ExprView::Float(t) => match float_text_value(fb, t) {
            Some(bits) => Some(ValueView::Float(bits)),
            None => None,
        },
        ExprView::Boolean(b) => Some(ValueView::Boolean(b)),
        ExprView::Symbol(s) => Some(ValueView::Symbol(s)),
        ExprView::List(items) => match quoted_all(fb, items) {
            Some(vs) => Some(ValueView::List(vs)),
            None => None,
        },
        ExprView::DottedList(items, rest) => match quoted(fb, *rest) {
            Some(ValueView::List(rs)) => match quoted_all(fb, items) {
                Some(vs) => Some(ValueView::List(vs + rs)),
                None => None,
            },
            _ => None,
        },
    }
}

/// The values of quoted expressions, if each stands for one.
pub open spec fn quoted_all(fb: Seq<(String, u64)>, items: Seq<SourceView>) -> Option<Seq<ValueView>>
    decreases items, 0int,
{
    if items.len() == 0 {
        Some(Seq::empty())
    } else {
        match quoted_all(fb, items.drop_last()) {
            Some(vs) => match quoted(fb, items.last()) {
                Some(v) => Some(vs.push(v)),
                None => None,
            },
            None => None,
        }
    }
}

proof fn lemma_quoted_all_none(fb: Seq<(String, u64)>, items: Seq<SourceView>, k: int)
    requires
        0 <= k <= items.len(),
        quoted_all(fb, items.subrange(0, k)) is None,
    ensures
        quoted_all(fb, items) is None,
    decreases items.len() - k,
{
    if k < items.len() {
        let next = items.subrange(0, k + 1);
        assert(next.drop_last() =~= items.subrange(0, k));
        lemma_quoted_all_none(fb, items, k + 1);
    } else {
        assert(items.subrange(0, k) =~= items);
    }
}

impl Compiler {
    /// The value a quoted expression stands for.
    fn expr_to_value(&self, expr: &SourceExpr) -> (r: Result<Value, CompileError>)
        ensures
            match r {
                Ok(v) => quoted(self.float_bits@, source_view(*expr)) == Some(value_view(v)),
                Err(_) => quoted(self.float_bits@, source_view(*expr)) is None,
            },
        decreases *expr,
    {
        let ghost fb = self.float_bits@;
        match &expr.expr {
            LispExpr::Number(n) => Ok(Value::Integer(*n)),
            LispExpr::Float(t) => {
                match self.float_value(t) {
                    Some(bits) => Ok(Value::Float(bits)),
                    None => Err(CompileError::new(
                        text3("Float literal '", t.as_str(), "' has no value"),
                        expr.location.duplicate(),
                    )),
                }
            },
            LispExpr::Boolean(b) => Ok(Value::Boolean(*b)),
            LispExpr::Symbol(s) => Ok(Value::Symbol(s.clone())),
            LispExpr::List(items) => {
                let vals = self.items_to_values(items)?;
                proof {
                    assert(source_view(*expr).expr == ExprView::List(sources_view(items@)));
                }
                Ok(Value::List(List::from_vec(vals)))
            },
            LispExpr::DottedList(items, rest) => {
                proof {
                    assert(source_view(*expr).expr == ExprView::DottedList(sources_view(items@), Box::new(source_view(**rest))));
                }
                let rest_value = self.expr_to_value(rest)?;
                match rest_value {
                    Value::List(tail) => {
                        let mut vals = self.items_to_values(items)?;
                        let mut tail_items = tail.items;
                        let ghost a = vals@;
                        let ghost b = tail_items@;
                        vals.append(&mut tail_items);
                        proof {
                            lemma_values_view_ext(a);
                            lemma_values_view_ext(b);
                            lemma_values_view_ext(vals@);
                            assert(values_view(vals@) =~= values_view(a) + values_view(b));
                        }
                        Ok(Value::List(List::from_vec(vals)))
                    },
                    _ => Err(error_at("Rest of dotted list must be a list", &rest.location)),
                }
            },
        }
    }

    /// The values of quoted expressions, in order.
    fn items_to_values(&self, items: &Vec<SourceExpr>) -> (r: Result<Vec<Value>, CompileError>)
        ensures
            match r {
                Ok(vs) => quoted_all(self.float_bits@, sources_view(items@)) == Some(values_view(vs@)),
                Err(_) => quoted_all(self.float_bits@, sources_view(items@)) is None,
            },
        decreases *items,
    {
        let ghost fb = self.float_bits@;
        let ghost sv = sources_view(items@);
        proof {
            lemma_sources_view_len(items@);
            assert(sv.subrange(0, 0) =~= Seq::<SourceView>::empty());
            assert(values_view(Seq::<Value>::empty()) =~= Seq::<ValueView>::empty());
        }
        let mut vals: Vec<Value> = Vec::new();
        let mut i: usize = 0;
        while i < items.len()
            invariant
                i <= items@.len(),
                sv == sources_view(items@),
                sv.len() == items@.len(),
                fb == self.float_bits@,
                quoted_all(fb, sv.subrange(0, i as int)) == Some(values_view(vals@)),
            decreases items@.len() - i,
        {
            proof {
                lemma_sources_view_index(items@, i as int);
                assert(sv.subrange(0, i + 1).drop_last() =~= sv.subrange(0, i as int));
                assert(sv.subrange(0, i + 1).last() == sv[i as int]);
            }
            match self.expr_to_value(&items[i]) {
                Ok(v) => {
                    let ghost before = vals@;
                    vals.push(v);
                    proof {
                        lemma_values_view_push(before, v);
                    }
                },
                Err(e) => {
                    proof {
                        lemma_quoted_all_none(fb, sv, i + 1);
                    }
                    return Err(e);
                },
            }
            i = i + 1;
        }
        proof {
            assert(sv.subrange(0, sv.len() as int) =~= sv);
        }
        Ok(vals)
    }
}

/// A copy of a table of bindings.
fn copy_bindings(t: &Vec<(String, ValueLocation)>) -> (r: Vec<(String, ValueLocation)>)
    ensures
        r@ == t@,
{
    let mut r: Vec<(String, ValueLocation)> = Vec::new();
    let mut i: usize = 0;
    while i < t.len()
        invariant
            i <= t@.len(),
            r@ == t@.subrange(0, i as int),
        decreases t@.len() - i,
    {
        r.push((t[i].0.clone(), copy_location(&t[i].1)));
        i = i + 1;
        assert(r@ =~= t@.subrange(0, i as int));
    }
    assert(t@.subrange(0, t@.len() as int) =~= t@);
    r
}

/// A copy of a list of names.
fn copy_names(t: &Vec<String>) -> (r: Vec<String>)
    ensures
        r@ == t@,
{
    let mut r: Vec<String> = Vec::new();
    let mut i: usize = 0;
    while i < t.len()
        invariant
            i <= t@.len(),
            r@ == t@.subrange(0, i as int),
        decreases t@.len() - i,
    {
        r.push(t[i].clone());
        i = i + 1;
        assert(r@ =~= t@.subrange(0, i as int));
    }
    assert(t@.subrange(0, t@.len() as int) =~= t@);
    r
}

/// The derived `Debug` text of an expression, as error messages show it.
fn pattern_text(e: &LispExpr) -> (r: String)
    ensures
        r@ == crate::debug_text::expr_debug(crate::ast::expr_view(*e)),
{
    let mut s = String::new();
    crate::debug_text::push_expr_debug(&mut s, e);
    s
}

impl Compiler {
    fn emit_plain(&mut self, ins: Instruction)
        requires
            old(self).wf(),
            jump_target(ins) is None,
        ensures
            final(self).wf(),
            final(self).bytecode@ == old(self).bytecode@.push(ins),
            final(self).extends(old(self)),
            final(self).progressed(old(self)),
    {
        let ghost b0 = self.bytecode@;
        self.emit(ins);
        proof {
            lemma_emitted_refl(b0);
            lemma_emit_plain(b0, b0, ins);
        }
    }

    /// Binds a name to a location, unless it is the wildcard `_`.
    fn bind_name(&mut self, name: &String, l: ValueLocation)
        requires
            old(self).wf(),
        ensures
            final(self).wf(),
            final(self).bytecode@ == old(self).bytecode@,
            final(self).same_globals(old(self)),
            final(self).param_names@ == old(self).param_names@,
            final(self).pattern_bindings@ == old(self).pattern_bindings@,
            final(self).stack_depth == old(self).stack_depth,
            final(self).in_tail_position == old(self).in_tail_position,
            final(self).local_bindings@ == bound(old(self).local_bindings@, *name, l),
    {
        if !same_text(name.as_str(), "_") {
            let ghost t0 = self.local_bindings@;
            let n = name.clone();
            assert(n == *name);
            assert(!(name@ == "_"@));
            proof {
                lemma_first_key(t0, name@);
            }
            set_key(&mut self.local_bindings, n, l);
            assert(has_key(t0, name@) ==> self.local_bindings@ == t0.update(first_key(t0, name@), (*name, l)));
            assert(!has_key(t0, name@) ==> self.local_bindings@ == t0.push((*name, l)));
            assert(self.local_bindings@ == bound(t0, *name, l));
        }
    }

    /// Binds an element of a destructured value: only names and `_` are
    /// allowed there.
    fn bind_pattern_element_to_location(&mut self, pattern: &SourceExpr, l: ValueLocation) -> (r: Result<(), CompileError>)
        requires
            old(self).wf(),
        ensures
            final(self).wf(),
            final(self).bytecode@ == old(self).bytecode@,
            final(self).same_globals(old(self)),
            final(self).param_names@ == old(self).param_names@,
            final(self).pattern_bindings@ == old(self).pattern_bindings@,
            final(self).stack_depth == old(self).stack_depth,
            final(self).in_tail_position == old(self).in_tail_position,
            match pattern.expr {
                LispExpr::Symbol(s) => r is Ok && final(self).local_bindings@ == bound(old(self).local_bindings@, s, l),
                _ => r is Err && final(self).local_bindings@ == old(self).local_bindings@,
            },
    {
        match &pattern.expr {
            LispExpr::Symbol(s) => {
                self.bind_name(s, l);
                Ok(())
            },
            _ => Err(error_at("Only simple variables and wildcards supported in nested patterns", &pattern.location)),
        }
    }

    /// Binds a `let` pattern to the value at depth `pos` of the stack.
    fn bind_pattern_to_local(&mut self, pattern: &SourceExpr, pos: usize) -> (r: Result<(), CompileError>)
        requires
            old(self).wf(),
        ensures
            final(self).wf(),
            final(self).bytecode@ == old(self).bytecode@,
            final(self).same_globals(old(self)),
            final(self).param_names@ == old(self).param_names@,
            final(self).pattern_bindings@ == old(self).pattern_bindings@,
            final(self).stack_depth == old(self).stack_depth,
            final(self).in_tail_position == old(self).in_tail_position,
            match pattern.expr {
                LispExpr::Symbol(s) => r is Ok && final(self).local_bindings@ == bound(
                    old(self).local_bindings@,
                    s,
                    ValueLocation::Local(pos),
                ),
                LispExpr::List(items) => if items@.len() == 2 && items@[0].expr is Symbol && items@[0].expr->Symbol_0@
                    == "quote"@ {
                    r is Err
                } else {
                    &&& (r is Ok <==> all_symbols(items@))
                    &&& r is Ok ==> final(self).local_bindings@ == bound_elements(
                        old(self).local_bindings@,
                        items@,
                        ValueLocation::Local(pos),
                        items@.len() as int,
                    )
                },
                LispExpr::DottedList(items, rest) => {
                    &&& (r is Ok <==> all_symbols(items@) && rest.expr is Symbol)
                    &&& r is Ok ==> final(self).local_bindings@ == bound(
                        bound_elements(old(self).local_bindings@, items@, ValueLocation::Local(pos), items@.len() as int),
                        rest.expr->Symbol_0,
                        ValueLocation::ListRest(Box::new(ValueLocation::Local(pos)), items@.len() as usize),
                    )
                },
                _ => r is Err,
            },
    {
        match &pattern.expr {
            LispExpr::Symbol(s) => {
                self.bind_name(s, ValueLocation::Local(pos));
                Ok(())
            },
            LispExpr::List(items) => {
                if items.len() == 2 && is_symbol_text(&items[0], "quote") {
                    return Err(error_at("Quoted literal patterns not supported in let bindings", &pattern.location));
                }
                let mut i: usize = 0;
                while i < items.len()
                    invariant
                        self.wf(),
                        self.bytecode@ == old(self).bytecode@,
                        self.same_globals(old(self)),
                        self.param_names@ == old(self).param_names@,
                        self.pattern_bindings@ == old(self).pattern_bindings@,
                        self.stack_depth == old(self).stack_depth,
                        self.in_tail_position == old(self).in_tail_position,
                        i <= items@.len(),
                        pattern.expr == LispExpr::List(*items),
                        !(items@.len() == 2 && items@[0].expr is Symbol && items@[0].expr->Symbol_0@ == "quote"@),
                        forall|j: int| 0 <= j < i ==> (#[trigger] items@[j]).expr is Symbol,
                        self.local_bindings@ == bound_elements(
                            old(self).local_bindings@,
                            items@,
                            ValueLocation::Local(pos),
                            i as int,
                        ),
                    decreases items@.len() - i,
                {
                    let res = self.bind_pattern_element_to_location(
                        &items[i],
                        ValueLocation::ListElement(Box::new(ValueLocation::Local(pos)), i),
                    );
                    if res.is_err() {
                        assert(!(items@[i as int].expr is Symbol));
                        return res;
                    }
                    i = i + 1;
                }
                Ok(())
            },
            LispExpr::DottedList(items, rest) => {
                let mut i: usize = 0;
                while i < items.len()
                    invariant
                        self.wf(),
                        self.bytecode@ == old(self).bytecode@,
                        self.same_globals(old(self)),
                        self.param_names@ == old(self).param_names@,
                        self.pattern_bindings@ == old(self).pattern_bindings@,
                        self.stack_depth == old(self).stack_depth,
                        self.in_tail_position == old(self).in_tail_position,
                        i <= items@.len(),
                        pattern.expr == LispExpr::DottedList(*items, *rest),
                        forall|j: int| 0 <= j < i ==> (#[trigger] items@[j]).expr is Symbol,
                        self.local_bindings@ == bound_elements(
                            old(self).local_bindings@,
                            items@,
                            ValueLocation::Local(pos),
                            i as int,
                        ),
                    decreases items@.len() - i,
                {
                    let res = self.bind_pattern_element_to_location(
                        &items[i],
                        ValueLocation::ListElement(Box::new(ValueLocation::Local(pos)), i),
                    );
                    if res.is_err() {
                        assert(!(items@[i as int].expr is Symbol));
                        return res;
                    }
                    i = i + 1;
                }
                self.bind_pattern_element_to_location(rest, ValueLocation::ListRest(Box::new(ValueLocation::Local(pos)), items.len()))
            },
            other => Err(CompileError::new(
                text2("Unsupported pattern in let binding: ", pattern_text(other).as_str()),
                pattern.location.duplicate(),
            )),
        }
    }

    /// One binding `(pattern value)` of a `let` (or `(name value)` of a
    /// `loop`): the value is compiled onto the stack and the pattern bound
    /// to its place.
    fn compile_binding(&mut self, list: &SourceExpr, k: usize, loop_form: bool) -> (r: Result<(), CompileError>)
        requires
            old(self).wf(),
            list.expr is List,
            k < list.expr->List_0@.len(),
        ensures
            final(self).wf(),
            r is Ok ==> emitted(old(self).bytecode@, final(self).bytecode@),
            r is Ok ==> final(self).same_globals(old(self)),
            r is Ok ==> final(self).param_names@ == old(self).param_names@,
            r is Ok ==> final(self).pattern_bindings@ == old(self).pattern_bindings@,
            r is Ok ==> final(self).in_tail_position == old(self).in_tail_position,
            r is Ok ==> final(self).stack_depth == old(self).stack_depth + 1,
            simple_binding(list.expr->List_0@[k as int]) && old(self).stack_depth < usize::MAX ==> r is Ok,
        decreases self.budget(), *list, 7int, 0int,
    {
        let bindings = match &list.expr {
            LispExpr::List(b) => b,
            _ => {
                return Err(error_at("let bindings must be a list", &list.location));
            },
        };
        let binding = &bindings[k];
        let pair = match &bindings[k].expr {
            LispExpr::List(pair) => pair,
            _ => {
                return Err(error_at(
                    if loop_form { "Each binding must be a list (name value)" } else { "Each binding must be a list (pattern value)" },
                    &binding.location,
                ));
            },
        };
        if pair.len() != 2 {
            return Err(error_at(
                if loop_form {
                    "Each binding must have exactly 2 elements: (name value)"
                } else {
                    "Each binding must have exactly 2 elements: (pattern value)"
                },
                &binding.location,
            ));
        }
        if loop_form && symbol_of(&pair[0]).is_none() {
            return Err(error_at("loop binding name must be a symbol", &pair[0].location));
        }
        let saved_tail = self.in_tail_position;
        self.in_tail_position = false;
        self.compile_expr(&pair[1])?;
        self.in_tail_position = saved_tail;
        let value_position = self.stack_depth;
        if self.stack_depth == usize::MAX {
            return Err(error_at("Too many local bindings", &binding.location));
        }
        self.stack_depth = self.stack_depth + 1;
        if loop_form {
            match symbol_of(&pair[0]) {
                Some(name) => {
                    set_key(&mut self.local_bindings, name.clone(), ValueLocation::Local(value_position));
                },
                None => {},
            }
            Ok(())
        } else {
            self.bind_pattern_to_local(&pair[0], value_position)
        }
    }

    /// `(let ((pattern value) ...) body)`: each value is left on the stack
    /// under the body's value and slid away at the end.
    fn compile_let(&mut self, items: &Vec<SourceExpr>) -> (r: Result<(), CompileError>)
        requires
            old(self).wf(),
            items@.len() == 3,
        ensures
            final(self).wf(),
            r is Ok ==> final(self).extends(old(self)),
            ({
                &&& items@[1].expr is List
                &&& forall|j: int|
                    0 <= j < items@[1].expr->List_0@.len() ==> simple_binding(#[trigger] items@[1].expr->List_0@[j])
                &&& old(self).stack_depth + items@[1].expr->List_0@.len() <= usize::MAX
                &&& (items@[2].expr is Number || items@[2].expr is Boolean)
            }) ==> r is Ok,
        decreases self.budget(), *items, 7int, 0int,
    {
        let bindings_expr = &items[1];
        let body_expr = &items[2];
        let bindings = match &items[1].expr {
            LispExpr::List(b) => b,
            _ => {
                return Err(error_at("let bindings must be a list", &bindings_expr.location));
            },
        };
        let ghost s0 = *self;
        let ghost b0 = self.bytecode@;
        proof {
            lemma_emitted_refl(b0);
        }
        let saved_bindings = copy_bindings(&self.local_bindings);
        let saved_depth = self.stack_depth;
        let mut num_bindings: usize = 0;
        let mut k: usize = 0;
        while k < bindings.len()
            invariant
                self.macro_budget <= old(self).macro_budget,
                self.wf(),
                s0.wf(),
                emitted(b0, self.bytecode@),
                b0 == s0.bytecode@,
                self.same_globals(&s0),
                self.param_names@ == s0.param_names@,
                self.pattern_bindings@ == s0.pattern_bindings@,
                self.in_tail_position == s0.in_tail_position,
                saved_bindings@ == s0.local_bindings@,
                saved_depth == s0.stack_depth,
                num_bindings <= k,
                items@.len() == 3,
                items@[1].expr == LispExpr::List(*bindings),
                k <= bindings@.len(),
                self.stack_depth == saved_depth + k,
                saved_depth == old(self).stack_depth,
            decreases bindings@.len() - k,
        {
            let ghost mid = self.bytecode@;
            self.compile_binding(&items[1], k, false)?;
            proof {
                lemma_emitted_trans(b0, mid, self.bytecode@);
            }
            num_bindings = num_bindings + 1;
            k = k + 1;
        }
        let ghost mid = self.bytecode@;
        self.compile_expr(&items[2])?;
        proof {
            lemma_emitted_trans(b0, mid, self.bytecode@);
        }
        if num_bindings > 0 {
            let ghost mid2 = self.bytecode@;
            self.emit(Instruction::Slide(num_bindings));
            proof {
                lemma_emit_plain(b0, mid2, Instruction::Slide(num_bindings));
            }
        }
        self.local_bindings = saved_bindings;
        self.stack_depth = saved_depth;
        Ok(())
    }

    /// `(loop ((name value) ...) body)`: the values become the loop's
    /// bindings, and `recur` in the body starts it over.
    fn compile_loop(&mut self, items: &Vec<SourceExpr>) -> (r: Result<(), CompileError>)
        requires
            old(self).wf(),
            items@.len() == 3,
        ensures
            final(self).wf(),
            r is Ok ==> final(self).extends(old(self)),
            ({
                &&& items@[1].expr is List
                &&& forall|j: int|
                    0 <= j < items@[1].expr->List_0@.len() ==> simple_binding(#[trigger] items@[1].expr->List_0@[j])
                &&& old(self).stack_depth + items@[1].expr->List_0@.len() <= usize::MAX
                &&& (items@[2].expr is Number || items@[2].expr is Boolean)
            }) ==> r is Ok,
        decreases self.budget(), *items, 7int, 0int,
    {
        let bindings_expr = &items[1];
        let body_expr = &items[2];
        let bindings = match &items[1].expr {
            LispExpr::List(b) => b,
            _ => {
                return Err(error_at("loop bindings must be a list", &bindings_expr.location));
            },
        };
        let ghost s0 = *self;
        let ghost b0 = self.bytecode@;
        proof {
            lemma_emitted_refl(b0);
        }
        let saved_bindings = copy_bindings(&self.local_bindings);
        let saved_depth = self.stack_depth;
        let mut num_bindings: usize = 0;
        let mut k: usize = 0;
        while k < bindings.len()
            invariant
                self.macro_budget <= old(self).macro_budget,
                self.wf(),
                s0.wf(),
                emitted(b0, self.bytecode@),
                b0 == s0.bytecode@,
                self.same_globals(&s0),
                self.param_names@ == s0.param_names@,
                self.pattern_bindings@ == s0.pattern_bindings@,
                self.in_tail_position == s0.in_tail_position,
                saved_bindings@ == s0.local_bindings@,
                saved_depth == s0.stack_depth,
                num_bindings <= k,
                items@.len() == 3,
                items@[1].expr == LispExpr::List(*bindings),
                k <= bindings@.len(),
                self.stack_depth == saved_depth + k,
                saved_depth == old(self).stack_depth,
            decreases bindings@.len() - k,
        {
            let ghost mid = self.bytecode@;
            self.compile_binding(&items[1], k, true)?;
            proof {
                lemma_emitted_trans(b0, mid, self.bytecode@);
            }
            num_bindings = num_bindings + 1;
            k = k + 1;
        }
        let ghost mid = self.bytecode@;
        self.emit(Instruction::BeginLoop(num_bindings));
        proof {
            lemma_emit_plain(b0, mid, Instruction::BeginLoop(num_bindings));
        }
        let saved_tail = self.in_tail_position;
        self.in_tail_position = true;
        let ghost mid2 = self.bytecode@;
        self.compile_expr(&items[2])?;
        proof {
            lemma_emitted_trans(b0, mid2, self.bytecode@);
        }
        self.in_tail_position = saved_tail;
        if num_bindings > 0 {
            let ghost mid3 = self.bytecode@;
            self.emit(Instruction::Slide(num_bindings));
            proof {
                lemma_emit_plain(b0, mid3, Instruction::Slide(num_bindings));
            }
        }
        self.local_bindings = saved_bindings;
        self.stack_depth = saved_depth;
        Ok(())
    }

    /// `(recur v ...)`: the new values, then a jump back to the loop.
    fn compile_recur(&mut self, items: &Vec<SourceExpr>) -> (r: Result<(), CompileError>)
        requires
            old(self).wf(),
            items@.len() >= 1,
        ensures
            final(self).wf(),
            r is Ok ==> final(self).extends(old(self)),
            all_constant(items@, 1) ==> r is Ok,
        decreases self.budget(), *items, 7int, 0int,
    {
        let ghost b0 = self.bytecode@;
        let saved = self.in_tail_position;
        self.in_tail_position = false;
        self.compile_all(items, 1)?;
        self.in_tail_position = saved;
        let ghost mid = self.bytecode@;
        self.emit(Instruction::Recur(items.len() - 1));
        proof {
            lemma_emit_plain(b0, mid, Instruction::Recur((items.len() - 1) as usize));
        }
        Ok(())
    }

    /// `(lambda params body)`: the body is compiled on its own, and the
    /// values of the free variables it uses are captured.
    fn compile_lambda(&mut self, items: &Vec<SourceExpr>) -> (r: Result<(), CompileError>)
        requires
            old(self).wf(),
            items@.len() == 3,
        ensures
            final(self).wf(),
            r is Ok ==> final(self).extends(old(self)),
            params_of(source_view(items@[1])) is Ok && (items@[2].expr is Number || items@[2].expr is Boolean) ==> r is Ok,
        decreases self.budget(), *items, 7int, 0int,
    {
        let params_expr = &items[1];
        let body_expr = &items[2];
        let ghost s0 = *self;
        let ghost b0 = self.bytecode@;
        let parsed = parse_params(params_expr)?;
        let mut all_params = copy_names(&parsed.required);
        match &parsed.rest {
            Some(rest) => {
                all_params.push(rest.clone());
            },
            None => {},
        }
        let mut env: Vec<String> = Vec::new();
        let mut i: usize = 0;
        while i < self.local_bindings.len()
            invariant
                i <= self.local_bindings@.len(),
            decreases self.local_bindings@.len() - i,
        {
            env.push(self.local_bindings[i].0.clone());
            i = i + 1;
        }
        i = 0;
        while i < self.pattern_bindings.len()
            invariant
                i <= self.pattern_bindings@.len(),
            decreases self.pattern_bindings@.len() - i,
        {
            env.push(self.pattern_bindings[i].0.clone());
            i = i + 1;
        }
        i = 0;
        while i < self.param_names.len()
            invariant
                i <= self.param_names@.len(),
            decreases self.param_names@.len() - i,
        {
            env.push(self.param_names[i].clone());
            i = i + 1;
        }
        let free_vars = find_free_variables(body_expr, &all_params, &env);
        assert((items@[2].expr is Number || items@[2].expr is Boolean) ==> free_vars@.len() == 0) by {
            if items@[2].expr is Number || items@[2].expr is Boolean {
                assert(crate::value::names_view(free_vars@).len() == free_vars@.len());
            }
        }
        let mut saved_bytecode: Vec<Instruction> = Vec::new();
        std::mem::swap(&mut saved_bytecode, &mut self.bytecode);
        let mut saved_params = copy_names(&all_params);
        std::mem::swap(&mut saved_params, &mut self.param_names);
        let saved_locals = copy_bindings(&self.local_bindings);
        let saved_patterns = copy_bindings(&self.pattern_bindings);
        let saved_address = self.instruction_address;
        let saved_depth = self.stack_depth;
        let saved_tail = self.in_tail_position;
        self.instruction_address = 0;
        self.local_bindings = Vec::new();
        self.pattern_bindings = Vec::new();
        self.stack_depth = 0;
        self.in_tail_position = true;
        let mut k: usize = 0;
        while k < free_vars.len()
            invariant
                k <= free_vars@.len(),
                self.wf(),
                self.same_globals(&s0),
            decreases free_vars@.len() - k,
        {
            set_key(&mut self.pattern_bindings, free_vars[k].clone(), ValueLocation::Captured(k));
            k = k + 1;
        }
        let body_result = self.compile_expr(&items[2]);
        match body_result {
            Ok(_) => {},
            Err(e) => {
                return Err(e);
            },
        }
        self.emit(Instruction::Ret);
        let mut body_bytecode: Vec<Instruction> = Vec::new();
        std::mem::swap(&mut body_bytecode, &mut self.bytecode);
        self.bytecode = saved_bytecode;
        self.param_names = saved_params;
        self.local_bindings = saved_locals;
        self.pattern_bindings = saved_patterns;
        self.instruction_address = saved_address;
        self.stack_depth = saved_depth;
        self.in_tail_position = saved_tail;
        proof {
            lemma_emitted_refl(b0);
        }
        let mut k: usize = 0;
        while k < free_vars.len()
            invariant
                k <= free_vars@.len(),
                self.wf(),
                s0.wf(),
                b0 == s0.bytecode@,
                emitted(b0, self.bytecode@),
                self.same_context(&s0),
                (items@[2].expr is Number || items@[2].expr is Boolean) ==> free_vars@.len() == 0,
            decreases free_vars@.len() - k,
        {
            let ghost mid = self.bytecode@;
            self.compile_variable_load(free_vars[k].as_str())?;
            proof {
                lemma_emitted_trans(b0, mid, self.bytecode@);
            }
            k = k + 1;
        }
        let ghost mid = self.bytecode@;
        let n = free_vars.len();
        let ins = match parsed.rest {
            None => Instruction::MakeClosure(parsed.required, body_bytecode, n),
            Some(rest_name) => Instruction::MakeVariadicClosure(parsed.required, rest_name, body_bytecode, n),
        };
        self.emit(ins);
        proof {
            lemma_emit_plain(b0, mid, ins);
        }
        Ok(())
    }

    /// `(quasiquote e)`: like quote, but `(unquote x)` is evaluated and
    /// `(unquote-splicing xs)` is spliced in.
    fn compile_quasiquote(&mut self, expr: &SourceExpr) -> (r: Result<(), CompileError>)
        requires
            old(self).wf(),
        ensures
            final(self).wf(),
            r is Ok ==> final(self).extends(old(self)),
            !(expr.expr is List) ==> (r is Ok <==> quoted(old(self).float_bits@, source_view(*expr)) is Some),
            !(expr.expr is List) && r is Ok ==> {
                &&& final(self).code().len() == old(self).code().len() + 1
                &&& final(self).code().last() is Push
                &&& value_view(final(self).code().last()->Push_0) == quoted(old(self).float_bits@, source_view(*expr))->0
            },
            expr.expr is List && unquote_kind_of(*expr) != 1 && unquote_free(expr.expr->List_0@) ==> (r is Ok
                <==> forall|j: int|
                0 <= j < expr.expr->List_0@.len() ==> (#[trigger] quoted(
                    old(self).float_bits@,
                    source_view(expr.expr->List_0@[j]),
                )) is Some),
        decreases self.budget(), *expr, 9int, 0int,
    {
        let ghost b0 = self.bytecode@;
        match &expr.expr {
            LispExpr::List(items) => {
                if items.len() == 2 && is_symbol_text(&items[0], "unquote") {
                    self.compile_expr(&items[1])?;
                    return Ok(());
                }
                self.compile_quasiquote_list(items)
            },
            LispExpr::DottedList(_, _) => {
                let value = self.expr_to_value(expr)?;
                self.emit_plain(Instruction::Push(value));
                Ok(())
            },
            _ => {
                let value = self.expr_to_value(expr)?;
                self.emit_plain(Instruction::Push(value));
                Ok(())
            },
        }
    }

    /// Whether an item is `(unquote x)` (1) or `(unquote-splicing x)` (2).
    fn unquote_kind(item: &SourceExpr) -> (r: u8)
        ensures
            r != 0 ==> item.expr is List && item.expr->List_0@.len() == 2,
            r == unquote_kind_of(*item),
    {
        match &item.expr {
            LispExpr::List(inner) => {
                if inner.len() == 2 {
                    if is_symbol_text(&inner[0], "unquote") {
                        return 1;
                    }
                    if is_symbol_text(&inner[0], "unquote-splicing") {
                        return 2;
                    }
                }
                0
            },
            _ => 0,
        }
    }

    /// The items of a quasiquoted list.
    fn compile_quasiquote_list(&mut self, items: &Vec<SourceExpr>) -> (r: Result<(), CompileError>)
        requires
            old(self).wf(),
        ensures
            final(self).wf(),
            r is Ok ==> final(self).extends(old(self)),
            unquote_free(items@) ==> (r is Ok <==> forall|j: int|
                0 <= j < items@.len() ==> (#[trigger] quoted(old(self).float_bits@, source_view(items@[j]))) is Some),
            unquote_free(items@) && r is Ok ==> {
                &&& final(self).code().len() == old(self).code().len() + 1
                &&& final(self).code().last() is Push
                &&& value_view(final(self).code().last()->Push_0) == ValueView::List(
                    Seq::new(items@.len(), |j: int| quoted(old(self).float_bits@, source_view(items@[j]))->0),
                )
            },
        decreases self.budget(), *items, 8int, 0int,
    {
        let ghost s0 = *self;
        let ghost b0 = self.bytecode@;
        if items.len() == 0 {
            let nil = List::nil();
            assert(Seq::new(items@.len(), |j: int| quoted(old(self).float_bits@, source_view(items@[j]))->0) =~= list_view(nil));
            self.emit_plain(Instruction::Push(Value::List(nil)));
            return Ok(());
        }
        let mut has_unquote = false;
        let mut has_splicing = false;
        let mut i: usize = 0;
        while i < items.len()
            invariant
                i <= items@.len(),
                !has_unquote ==> unquote_free(items@.subrange(0, i as int)),
                unquote_free(items@) ==> !has_unquote,
            decreases items@.len() - i,
        {
            let kind = Self::unquote_kind(&items[i]);
            if kind == 2 {
                has_splicing = true;
            }
            if kind != 0 || contains_unquote(&items[i]) {
                has_unquote = true;
            }
            i = i + 1;
        }
        if !has_unquote {
            assert(items@.subrange(0, items@.len() as int) =~= items@);
            let mut vals: Vec<Value> = Vec::new();
            let mut k: usize = 0;
            while k < items.len()
                invariant
                    k <= items@.len(),
                    self.wf(),
                    *self == *old(self),
                    vals@.len() == k,
                    forall|j: int| 0 <= j < k ==> (#[trigger] quoted(self.float_bits@, source_view(items@[j]))) is Some,
                    forall|j: int|
                        0 <= j < k ==> value_view(#[trigger] vals@[j]) == quoted(self.float_bits@, source_view(items@[j]))->0,
                decreases items@.len() - k,
            {
                let v = self.expr_to_value(&items[k]);
                match v {
                    Ok(x) => {
                        vals.push(x);
                    },
                    Err(e) => {
                        assert(quoted(self.float_bits@, source_view(items@[k as int])) is None);
                        return Err(e);
                    },
                }
                k = k + 1;
            }
            proof {
                lemma_values_view_ext(vals@);
                assert(values_view(vals@) =~= Seq::new(items@.len(), |j: int| quoted(old(self).float_bits@, source_view(items@[j]))->0));
            }
            self.emit_plain(Instruction::Push(Value::List(List::from_vec(vals))));
            return Ok(());
        }
        proof {
            lemma_emitted_refl(b0);
        }
        if has_splicing {
            self.emit_plain(Instruction::Push(Value::List(List::nil())));
        }
        let mut count: usize = 0;
        let mut k: usize = 0;
        while k < items.len()
            invariant
                self.macro_budget <= old(self).macro_budget,
                k <= items@.len(),
                count <= k,
                self.wf(),
                s0.wf(),
                b0 == s0.bytecode@,
                emitted(b0, self.bytecode@),
                self.same_context(&s0),
                !unquote_free(items@),
            decreases items@.len() - k,
        {
            let item = &items[k];
            let kind = Self::unquote_kind(item);
            let ghost mid = self.bytecode@;
            match &items[k].expr {
                LispExpr::List(inner) if kind != 0 => {
                    self.compile_expr(&inner[1])?;
                },
                _ => {
                    self.compile_quasiquote(item)?;
                },
            }
            proof {
                lemma_emitted_trans(b0, mid, self.bytecode@);
            }
            if has_splicing {
                if kind != 2 {
                    let ghost m2 = self.bytecode@;
                    self.emit(Instruction::MakeList(1));
                    proof {
                        lemma_emit_plain(b0, m2, Instruction::MakeList(1));
                    }
                }
                let ghost m3 = self.bytecode@;
                self.emit(Instruction::Append);
                proof {
                    lemma_emit_plain(b0, m3, Instruction::Append);
                }
            }
            count = count + 1;
            k = k + 1;
        }
        if !has_splicing {
            let ghost m4 = self.bytecode@;
            self.emit(Instruction::MakeList(count));
            proof {
                lemma_emit_plain(b0, m4, Instruction::MakeList(count));
            }
        }
        Ok(())
    }

    /// `(ffi-call f (types ...) ret args ...)`.
    fn compile_ffi_call(&mut self, items: &Vec<SourceExpr>, location: &Location) -> (r: Result<(), CompileError>)
        requires
            old(self).wf(),
        ensures
            final(self).wf(),
            r is Ok ==> final(self).extends(old(self)),
            r is Ok ==> ffi_call_form(items@),
            ffi_call_form(items@) && (items@[1].expr is Number || items@[1].expr is Boolean) && all_constant(items@, 4)
                ==> r is Ok,
        decreases self.budget(), *items, 7int, 0int,
    {
        if items.len() < 4 {
            return Err(error_at(
                "ffi-call expects at least 3 arguments: func-ptr, (arg-types...), return-type, [args...]",
                location,
            ));
        }
        let arg_types = match &items[2].expr {
            LispExpr::List(types) => {
                let mut out: Vec<FfiType> = Vec::new();
                let mut k: usize = 0;
                while k < types.len()
                    invariant
                        k <= types@.len(),
                        self.wf(),
                        out@.len() == k,
                        items@.len() >= 4,
                        items@[2].expr == LispExpr::List(*types),
                        forall|j: int| 0 <= j < k ==> names_ffi_type(#[trigger] types@[j]),
                    decreases types@.len() - k,
                {
                    let t = ffi_type_of(&types[k]);
                    match t {
                        Ok(x) => {
                            out.push(x);
                        },
                        Err(e) => {
                            assert(!names_ffi_type(types@[k as int]));
                            return Err(e);
                        },
                    }
                    k = k + 1;
                }
                out
            },
            _ => {
                return Err(error_at("ffi-call: argument types must be a list", &items[2].location));
            },
        };
        let return_type = ffi_type_of(&items[3])?;
        let actual_args = items.len() - 4;
        if actual_args != arg_types.len() {
            let mut m = owned("ffi-call: expected ");
            push_usize_text(&mut m, arg_types.len());
            push_str(&mut m, " arguments based on arg-types, got ");
            push_usize_text(&mut m, actual_args);
            return Err(CompileError::new(m, location.duplicate()));
        }
        let ghost b0 = self.bytecode@;
        self.compile_expr(&items[1])?;
        let ghost m1 = self.bytecode@;
        self.compile_all(items, 4)?;
        let ghost m2 = self.bytecode@;
        self.emit(Instruction::FfiCall(arg_types, return_type));
        proof {
            lemma_emitted_trans(b0, m1, m2);
            lemma_emit_plain(b0, m2, self.bytecode@.last());
            assert(self.bytecode@ =~= m2.push(self.bytecode@.last()));
        }
        Ok(())
    }
}

/// Appends the decimal text of `n`.
fn push_usize_text(s: &mut String, n: usize) {
    crate::text::push_usize(s, n);
}

/// Whether an item is `(unquote x)` (1), `(unquote-splicing x)` (2), or
/// neither (0).
pub open spec fn unquote_kind_of(item: SourceExpr) -> u8 {
    match item.expr {
        LispExpr::List(inner) => if inner@.len() == 2 && inner@[0].expr is Symbol {
            if inner@[0].expr->Symbol_0@ == "unquote"@ {
                1
            } else if inner@[0].expr->Symbol_0@ == "unquote-splicing"@ {
                2
            } else {
                0
            }
        } else {
            0
        },
        _ => 0,
    }
}

/// The text of the symbol that heads a list expression, if it is one.
pub open spec fn head_name(e: SourceExpr) -> Option<Seq<char>> {
    match e.expr {
        LispExpr::List(items) => if items@.len() > 0 && items@[0].expr is Symbol {
            Some(items@[0].expr->Symbol_0@)
        } else {
            None
        },
        _ => None,
    }
}

/// The FFI type a symbol names.
fn ffi_type_of(e: &SourceExpr) -> (r: Result<FfiType, CompileError>)
    ensures
        match e.expr {
            LispExpr::Symbol(s) => match ffi_type_named(s@) {
                Some(t) => r matches Ok(u) && u == t,
                None => r matches Err(err) && err.message@ == "Unknown FFI type: "@ + s@ && err.location@ == e.location@,
            },
            _ => r matches Err(err) && err.message@ == "ffi-call: type must be a symbol (e.g., :int, :string, :pointer)"@
                && err.location@ == e.location@,
        },
{
    match &e.expr {
        LispExpr::Symbol(s) => match parse_ffi_type(s.as_str()) {
            Ok(t) => Ok(t),
            Err(m) => Err(CompileError::new(m, e.location.duplicate())),
        },
        _ => Err(error_at("ffi-call: type must be a symbol (e.g., :int, :string, :pointer)", &e.location)),
    }
}

/// The symbol that heads a list expression, if it is one.
fn head_symbol(e: &SourceExpr) -> (r: Option<&String>)
    ensures
        r is Some == head_name(*e) is Some,
        r matches Some(s) ==> s@ == head_name(*e)->Some_0,
{
    match &e.expr {
        LispExpr::List(items) => {
            if items.len() == 0 {
                None
            } else {
                symbol_of(&items[0])
            }
        },
        _ => None,
    }
}

/// Whether a top-level expression is a definition, compiled in the first
/// pass of a program.
fn is_definition(e: &SourceExpr) -> (r: bool)
    ensures
        r == (head_name(*e) matches Some(n) && (n == "defun"@ || n == "defmacro"@ || n == "def"@ || n == "module"@
            || n == "import"@)),
{
    match head_symbol(e) {
        Some(s) => {
            let s = s.as_str();
            same_text(s, "defun") || same_text(s, "defmacro") || same_text(s, "def") || same_text(s, "module")
                || same_text(s, "import")
        },
        None => false,
    }
}

/// A copy of a code sequence.
fn copy_code(v: &Vec<Instruction>) -> (r: Vec<Instruction>)
    ensures
        instrs_view(r@) == instrs_view(v@),
{
    crate::value::copy_instructions(v)
}

impl Compiler {
    /// `(def name value)`: an immutable global.
    fn compile_def(&mut self, expr: &SourceExpr) -> (r: Result<(), CompileError>)
        requires
            old(self).wf(),
        ensures
            final(self).wf(),
            r is Ok ==> emitted(old(self).bytecode@, final(self).bytecode@),
            r is Ok ==> {
                &&& expr.expr is List
                &&& expr.expr->List_0@.len() == 3
                &&& expr.expr->List_0@[1].expr is Symbol
                &&& !has_key(old(self).global_vars@, old(self).qualified(expr.expr->List_0@[1].expr->Symbol_0@))
            },
            ({
                &&& expr.expr is List
                &&& expr.expr->List_0@.len() == 3
                &&& expr.expr->List_0@[1].expr is Symbol
                &&& !has_key(old(self).global_vars@, old(self).qualified(expr.expr->List_0@[1].expr->Symbol_0@))
                &&& (expr.expr->List_0@[2].expr is Number || expr.expr->List_0@[2].expr is Boolean)
            }) ==> r is Ok,
            r is Ok ==> final(self).functions@ == old(self).functions@,
            r is Ok ==> final(self).module_exports@ == old(self).module_exports@,
            r is Ok ==> final(self).current_module == old(self).current_module,
        decreases *expr, 11int, 0int,
    {
        let items = match &expr.expr {
            LispExpr::List(items) => items,
            _ => {
                return Err(error_at("def expects a list", &expr.location));
            },
        };
        if items.len() != 3 {
            return Err(error_at("def expects exactly: (def name value)", &expr.location));
        }
        let var_name = match symbol_of(&items[1]) {
            Some(v) => v,
            None => {
                return Err(error_at("Variable name must be a symbol", &items[1].location));
            },
        };
        let qualified_name = self.qualify(var_name.as_str());
        if find_key(&self.global_vars, qualified_name.as_str()).is_some() {
            return Err(CompileError::new(
                text3("Cannot redefine constant '", qualified_name.as_str(), "' - all bindings are immutable"),
                items[1].location.duplicate(),
            ));
        }
        set_key(&mut self.global_vars, qualified_name.clone(), false);
        let ghost b0 = self.bytecode@;
        self.compile_expr(&items[2])?;
        let ghost mid = self.bytecode@;
        self.emit(Instruction::StoreGlobal(qualified_name));
        proof {
            lemma_emit_plain(b0, mid, self.bytecode@.last());
            assert(self.bytecode@ =~= mid.push(self.bytecode@.last()));
        }
        Ok(())
    }

    /// `(defun name (params) body)`, or `(defun name clause ...)` with
    /// patterns.
    fn compile_defun(&mut self, expr: &SourceExpr) -> (r: Result<(), CompileError>)
        requires
            old(self).wf(),
        ensures
            final(self).wf(),
            r is Ok ==> final(self).bytecode@ == old(self).bytecode@,
            r is Ok ==> {
                &&& expr.expr is List
                &&& expr.expr->List_0@.len() >= 3
                &&& expr.expr->List_0@[0].expr is Symbol
                &&& expr.expr->List_0@[0].expr->Symbol_0@ == "defun"@
                &&& expr.expr->List_0@[1].expr is Symbol
                &&& exists|code: Seq<InstrView>|
                    #![trigger insert_entry(table_view(old(self).function_table()), old(self).qualified(expr.expr->List_0@[1].expr->Symbol_0@), code)]
                    code.len() > 0 && table_view(final(self).function_table()) == insert_entry(
                        table_view(old(self).function_table()),
                        old(self).qualified(expr.expr->List_0@[1].expr->Symbol_0@),
                        code,
                    )
            },
            r is Ok ==> final(self).module_exports@ == old(self).module_exports@,
            r is Ok ==> final(self).current_module == old(self).current_module,
        decreases *expr, 11int, 0int,
    {
        let items = match &expr.expr {
            LispExpr::List(items) => items,
            _ => {
                return Err(error_at("defun expects a list", &expr.location));
            },
        };
        if items.len() < 3 {
            return Err(error_at("defun expects at least: (defun name clause)", &expr.location));
        }
        if !is_symbol_text(&items[0], "defun") {
            return Err(error_at("First element must be 'defun'", &items[0].location));
        }
        let fn_name = match symbol_of(&items[1]) {
            Some(f) => f,
            None => {
                return Err(error_at("Function name must be a symbol", &items[1].location));
            },
        };
        let ghost t0 = table_view(self.function_table());
        let ghost q = self.qualified(fn_name@);
        let res = if items.len() == 4 && looks_like_param_list(&items[2]) {
            self.compile_single_clause_defun(fn_name, items)
        } else {
            self.compile_multi_clause_defun(fn_name, items, &items[0].location)
        };
        proof {
            if res is Ok {
                let code = choose|code: Seq<InstrView>|
                    #![trigger insert_entry(t0, q, code)]
                    code.len() > 0 && table_view(self.function_table()) == insert_entry(t0, q, code);
                assert(insert_entry(t0, q, code) == table_view(self.function_table()));
                assert(code.len() > 0);
                assert(q == old(self).qualified(expr.expr->List_0@[1].expr->Symbol_0@));
                assert(t0 == table_view(old(self).function_table()));
                assert(expr.expr->List_0@[0].expr->Symbol_0@ == "defun"@);
            }
        }
        res
    }

    /// Whether `scope` is this compiler as it compiles a function body whose
    /// parameters have these texts: everything a body's code depends on is
    /// the same but the parameters.
    pub closed spec fn body_scope(&self, scope: Compiler, params: Seq<Seq<char>>) -> bool {
        &&& scope.functions@ == self.functions@
        &&& scope.macros@ == self.macros@
        &&& scope.global_vars@ == self.global_vars@
        &&& scope.known_functions@ == self.known_functions@
        &&& scope.known_globals@ == self.known_globals@
        &&& scope.current_module == self.current_module
        &&& scope.imported_symbols@ == self.imported_symbols@
        &&& scope.module_functions@ == self.module_functions@
        &&& scope.float_bits@ == self.float_bits@
        &&& scope.pattern_bindings@ == self.pattern_bindings@
        &&& scope.local_bindings@ == self.local_bindings@
        &&& names_of(scope.param_names@) == params
    }

    /// A function with one parameter list: its body in tail position, then `Ret`.
    fn compile_single_clause_defun(&mut self, fn_name: &String, items: &Vec<SourceExpr>) -> (r: Result<(), CompileError>)
        requires
            old(self).wf(),
            items@.len() == 4,
        ensures
            final(self).wf(),
            r is Ok ==> final(self).bytecode@ == old(self).bytecode@,
            r is Ok ==> exists|code: Seq<InstrView>|
                #![trigger insert_entry(table_view(old(self).function_table()), old(self).qualified(fn_name@), code)]
                code.len() > 0 && code.last() == instr_view(Instruction::Ret) && table_view(final(self).function_table())
                    == insert_entry(table_view(old(self).function_table()), old(self).qualified(fn_name@), code),
            r is Ok ==> exists|scope: Compiler, code: Seq<InstrView>|
                #![trigger old(self).body_scope(scope, param_texts(source_view(items@[2]))), insert_entry(table_view(old(self).function_table()), old(self).qualified(fn_name@), code)]
                {
                    &&& old(self).body_scope(scope, param_texts(source_view(items@[2])))
                    &&& table_view(final(self).function_table()) == insert_entry(
                        table_view(old(self).function_table()),
                        old(self).qualified(fn_name@),
                        code,
                    )
                    &&& scope.plain_code(items@[3], true, rest_prefix(source_view(items@[2])).len() as int) matches Some(b)
                        ==> code == rest_prefix(source_view(items@[2])) + b + seq![instr_view(Instruction::Ret)]
                },
            r is Ok ==> final(self).module_exports@ == old(self).module_exports@,
            r is Ok ==> final(self).current_module == old(self).current_module,
        decreases *items, 7int, 0int,
    {
        let parsed = parse_params(&items[2])?;
        let mut all_params = copy_names(&parsed.required);
        match &parsed.rest {
            Some(rest) => {
                all_params.push(rest.clone());
            },
            None => {},
        }
        let ghost b0 = self.bytecode@;
        let mut saved_bytecode: Vec<Instruction> = Vec::new();
        std::mem::swap(&mut saved_bytecode, &mut self.bytecode);
        let mut saved_params = all_params;
        std::mem::swap(&mut saved_params, &mut self.param_names);
        let saved_address = self.instruction_address;
        let saved_tail = self.in_tail_position;
        self.instruction_address = 0;
        self.in_tail_position = true;
        if parsed.rest.is_some() {
            self.emit(Instruction::PackRestArgs(parsed.required.len()));
            proof {
                lemma_instrs_view_push(Seq::<Instruction>::empty(), Instruction::PackRestArgs(parsed.required@.len() as usize));
            }
        }
        proof {
            lemma_instrs_view_len(self.bytecode@);
            lemma_instrs_view_ext(Seq::<Instruction>::empty());
            let req = params_of(source_view(items@[2]))->Ok_0.0;
            assert(names_of(parsed.required@) =~= req);
            assert(instrs_view(self.bytecode@) =~= rest_prefix(source_view(items@[2])));
            assert(names_of(self.param_names@) =~= param_texts(source_view(items@[2])));
        }
        let ghost scope = *self;
        let ghost pre = instrs_view(self.bytecode@);
        self.compile_expr(&items[3])?;
        let ghost mid = self.bytecode@;
        self.emit(Instruction::Ret);
        let mut fn_bytecode: Vec<Instruction> = Vec::new();
        std::mem::swap(&mut fn_bytecode, &mut self.bytecode);
        let qualified_name = self.qualify(fn_name.as_str());
        let ghost code = instrs_view(fn_bytecode@);
        proof {
            lemma_instrs_view_ext(fn_bytecode@);
            lemma_instrs_view_push(mid, Instruction::Ret);
            assert(old(self).body_scope(scope, param_texts(source_view(items@[2]))));
            if scope.plain_code(items@[3], true, pre.len() as int) is Some {
                let b = scope.plain_code(items@[3], true, pre.len() as int).unwrap();
                assert(code =~= rest_prefix(source_view(items@[2])) + b + seq![instr_view(Instruction::Ret)]);
            }
        }
        assert(code.len() > 0);
        assert(code.last() == instr_view(Instruction::Ret));
        assert(self.functions@ == old(self).functions@);
        assert(qualified_name@ == old(self).qualified(fn_name@));
        insert_function(&mut self.functions, qualified_name, fn_bytecode);
        assert(table_view(self.functions@) == insert_entry(table_view(old(self).function_table()), old(self).qualified(fn_name@), code));
        self.bytecode = saved_bytecode;
        self.param_names = saved_params;
        self.instruction_address = saved_address;
        self.in_tail_position = saved_tail;
        Ok(())
    }

    /// Whether an expression has the shape `(defmacro name (params...) body)`,
    /// the name and each parameter a symbol.
    spec fn defmacro_form(expr: SourceExpr) -> bool {
        &&& expr.expr is List
        &&& expr.expr->List_0@.len() == 4
        &&& expr.expr->List_0@[1].expr is Symbol
        &&& expr.expr->List_0@[2].expr is List
        &&& all_symbols(expr.expr->List_0@[2].expr->List_0@)
    }

    /// `(defmacro name (params) body)`: the body is kept for expansion,
    /// under the name, in place of a macro of that name or after the others.
    fn compile_defmacro(&mut self, expr: &SourceExpr) -> (r: Result<(), CompileError>)
        requires
            old(self).wf(),
        ensures
            final(self).wf(),
            final(self).bytecode@ == old(self).bytecode@,
            r is Ok <==> Self::defmacro_form(*expr),
            r is Err ==> final(self).macros@ == old(self).macros@,
            r is Ok ==> ({
                let items = expr.expr->List_0@;
                let ps = items[2].expr->List_0@;
                let t = old(self).macros@;
                let k = first_key(t, items[1].expr->Symbol_0@);
                &&& final(self).macros@.len() == (if k < t.len() { t.len() } else { t.len() + 1 })
                &&& final(self).macros@[k].0 == items[1].expr->Symbol_0
                &&& final(self).macros@[k].1.params@ == Seq::new(ps.len(), |j: int| ps[j].expr->Symbol_0)
                &&& source_view(final(self).macros@[k].1.body) == source_view(items[3])
                &&& forall|j: int| 0 <= j < t.len() && j != k ==> final(self).macros@[j] == t[j]
            }),
            r is Ok ==> final(self).functions@ == old(self).functions@,
            r is Ok ==> final(self).module_exports@ == old(self).module_exports@,
            r is Ok ==> final(self).current_module == old(self).current_module,
    {
        let items = match &expr.expr {
            LispExpr::List(items) => items,
            _ => {
                return Err(error_at("defmacro expects a list", &expr.location));
            },
        };
        if items.len() != 4 {
            return Err(error_at("defmacro expects: (defmacro name (params) body)", &expr.location));
        }
        let macro_name = match symbol_of(&items[1]) {
            Some(m) => m,
            None => {
                return Err(error_at("Macro name must be a symbol", &items[1].location));
            },
        };
        let params = match &items[2].expr {
            LispExpr::List(ps) => {
                let mut names: Vec<String> = Vec::new();
                let mut k: usize = 0;
                while k < ps.len()
                    invariant
                        k <= ps@.len(),
                        self.wf(),
                        self.bytecode@ == old(self).bytecode@,
                        self.macros@ == old(self).macros@,
                        expr.expr == LispExpr::List(*items),
                        items@.len() == 4,
                        items@[1].expr is Symbol,
                        items@[2].expr == LispExpr::List(*ps),
                        forall|j: int| 0 <= j < k ==> (#[trigger] ps@[j]).expr is Symbol,
                        names@ == Seq::new(k as nat, |j: int| ps@[j].expr->Symbol_0),
                    decreases ps@.len() - k,
                {
                    match symbol_of(&ps[k]) {
                        Some(p) => {
                            names.push(p.clone());
                            assert(names@ =~= Seq::new((k + 1) as nat, |j: int| ps@[j].expr->Symbol_0));
                        },
                        None => {
                            return Err(error_at("Macro parameters must be symbols", &ps[k].location));
                        },
                    }
                    k = k + 1;
                }
                names
            },
            _ => {
                return Err(error_at("Macro parameters must be a list", &items[2].location));
            },
        };
        let body = copy_source(&items[3]);
        proof {
            lemma_first_key(self.macros@, macro_name@);
        }
        set_key(&mut self.macros, macro_name.clone(), MacroDef { params, body });
        Ok(())
    }

    /// `(module name (export ...) body ...)`.
    fn compile_module(&mut self, expr: &SourceExpr) -> (r: Result<(), CompileError>)
        requires
            old(self).wf(),
        ensures
            final(self).wf(),
            r is Ok ==> emitted(old(self).bytecode@, final(self).bytecode@),
            r is Ok ==> {
                &&& expr.expr is List
                &&& expr.expr->List_0@.len() >= 3
                &&& expr.expr->List_0@[1].expr is Symbol
                &&& old(self).current_module is None
            },
            ({
                &&& expr.expr is List
                &&& expr.expr->List_0@.len() >= 3
                &&& expr.expr->List_0@[1].expr is Symbol
                &&& old(self).current_module is None
                &&& all_constant(expr.expr->List_0@, 2)
            }) ==> r is Ok,
            r is Ok ==> has_key(final(self).export_table(), expr.expr->List_0@[1].expr->Symbol_0@),
            r is Ok ==> forall|j: int|
                2 <= j < expr.expr->List_0@.len() && (#[trigger] Self::defun_name(expr.expr->List_0@[j])) is Some
                    ==> has_entry(
                    table_view(final(self).function_table()),
                    expr.expr->List_0@[1].expr->Symbol_0@ + "/"@ + Self::defun_name(expr.expr->List_0@[j]).unwrap(),
                ),
        decreases *expr, 12int, 0int,
    {
        let items = match &expr.expr {
            LispExpr::List(items) => items,
            _ => {
                return Err(error_at("module expects a list", &expr.location));
            },
        };
        if items.len() < 3 {
            return Err(error_at("module expects at least: (module name body...)", &expr.location));
        }
        let module_name = match symbol_of(&items[1]) {
            Some(m) => m,
            None => {
                return Err(error_at("Module name must be a symbol", &items[1].location));
            },
        };
        if self.current_module.is_some() {
            return Err(CompileError::new(
                text3("Cannot define module '", module_name.as_str(), "' inside another module"),
                expr.location.duplicate(),
            ));
        }
        proof {
            lemma_first_key(self.module_exports@, module_name@);
        }
        set_key(&mut self.module_exports, module_name.clone(), Vec::new());
        proof {
            let t0 = old(self).module_exports@;
            if first_key(t0, module_name@) < t0.len() {
                lemma_has_key_at(self.module_exports@, module_name@, first_key(t0, module_name@));
            } else {
                lemma_has_key_at(self.module_exports@, module_name@, t0.len() as int);
            }
            reveal_strlit("export");
            reveal_strlit("import");
            reveal_strlit("defun");
            assert("export"@.len() != "defun"@.len());
            assert("import"@.len() != "defun"@.len());
        }
        self.current_module = Some(module_name.clone());
        self.module_functions = Vec::new();
        let mut k: usize = 2;
        while k < items.len()
            invariant
                2 <= k <= items@.len(),
                self.wf(),
                expr.expr == LispExpr::List(*items),
                self.bytecode@ == old(self).bytecode@,
                self.functions@ == old(self).functions@,
                self.current_module == Some(*module_name),
                module_name@ == items@[1].expr->Symbol_0@,
                has_key(self.module_exports@, module_name@),
                "export"@ != "defun"@ && "import"@ != "defun"@,
            decreases items@.len() - k,
        {
            match &items[k].expr {
                LispExpr::List(inner) => {
                    if inner.len() >= 2 && is_symbol_text(&inner[0], "defun") {
                        match symbol_of(&inner[1]) {
                            Some(f) => {
                                if !has_name(&self.module_functions, f.as_str()) {
                                    self.module_functions.push(f.clone());
                                }
                            },
                            None => {},
                        }
                    }
                },
                _ => {},
            }
            k = k + 1;
        }
        let mut k: usize = 2;
        while k < items.len()
            invariant
                2 <= k <= items@.len(),
                self.wf(),
                expr.expr == LispExpr::List(*items),
                self.bytecode@ == old(self).bytecode@,
                self.functions@ == old(self).functions@,
                self.current_module == Some(*module_name),
                module_name@ == items@[1].expr->Symbol_0@,
                has_key(self.module_exports@, module_name@),
                "export"@ != "defun"@ && "import"@ != "defun"@,
            decreases items@.len() - k,
        {
            match head_symbol(&items[k]) {
                Some(s) => {
                    if same_text(s.as_str(), "import") {
                        self.compile_import(&items[k])?;
                    }
                },
                None => {},
            }
            k = k + 1;
        }
        let mut k: usize = 2;
        while k < items.len()
            invariant
                2 <= k <= items@.len(),
                self.wf(),
                expr.expr == LispExpr::List(*items),
                self.bytecode@ == old(self).bytecode@,
                self.functions@ == old(self).functions@,
                self.current_module == Some(*module_name),
                module_name@ == items@[1].expr->Symbol_0@,
                has_key(self.module_exports@, module_name@),
                "export"@ != "defun"@ && "import"@ != "defun"@,
            decreases items@.len() - k,
        {
            match head_symbol(&items[k]) {
                Some(s) => {
                    if same_text(s.as_str(), "export") {
                        let ghost t1 = self.module_exports@;
                        proof {
                            lemma_first_key(t1, module_name@);
                        }
                        self.compile_export(&items[k], module_name.as_str())?;
                        proof {
                            let key = first_key(t1, module_name@);
                            lemma_has_key_at(self.module_exports@, module_name@, key);
                        }
                    }
                },
                None => {},
            }
            k = k + 1;
        }
        let ghost b0 = self.bytecode@;
        proof {
            lemma_emitted_refl(b0);
        }
        let mut k: usize = 2;
        while k < items.len()
            invariant
                2 <= k <= items@.len(),
                self.wf(),
                expr.expr == LispExpr::List(*items),
                b0 == old(self).bytecode@,
                emitted(b0, self.bytecode@),
                self.current_module == Some(*module_name),
                module_name@ == items@[1].expr->Symbol_0@,
                has_key(self.module_exports@, module_name@),
                "export"@ != "defun"@ && "import"@ != "defun"@,
                forall|j: int|
                    2 <= j < k && (#[trigger] Self::defun_name(items@[j])) is Some ==> has_entry(
                        table_view(self.functions@),
                        module_name@ + "/"@ + Self::defun_name(items@[j]).unwrap(),
                    ),
            decreases items@.len() - k,
        {
            let item = &items[k];
            let ghost mid = self.bytecode@;
            let head = match &items[k].expr {
                LispExpr::List(inner) => if inner.len() > 0 {
                    symbol_of(&inner[0])
                } else {
                    None
                },
                _ => None,
            };
            match head {
                Some(s) => {
                    let s = s.as_str();
                    if same_text(s, "export") || same_text(s, "import") {
                    } else if same_text(s, "defun") {
                        let ghost tv = table_view(self.functions@);
                        let ghost q = self.qualified(items@[k as int].expr->List_0@[1].expr->Symbol_0@);
                        self.compile_defun(item)?;
                        proof {
                            lemma_emitted_refl(mid);
                            let code = choose|code: Seq<InstrView>|
                                #![trigger insert_entry(tv, q, code)]
                                code.len() > 0 && table_view(self.function_table()) == insert_entry(tv, q, code);
                            lemma_insert_entry_has(tv, q, code);
                        }
                    } else if same_text(s, "defmacro") {
                        self.compile_defmacro(item)?;
                        proof {
                            lemma_emitted_refl(mid);
                        }
                    } else if same_text(s, "def") {
                        self.compile_def(item)?;
                    } else {
                        self.compile_expr(item)?;
                        let ghost m2 = self.bytecode@;
                        self.emit(Instruction::PopN(1));
                        proof {
                            lemma_emit_plain(mid, m2, Instruction::PopN(1));
                        }
                    }
                },
                None => {
                    self.compile_expr(item)?;
                    let ghost m2 = self.bytecode@;
                    self.emit(Instruction::PopN(1));
                    proof {
                        lemma_emit_plain(mid, m2, Instruction::PopN(1));
                    }
                },
            }
            proof {
                if self.bytecode@ == mid {
                    lemma_emitted_refl(mid);
                }
                lemma_emitted_trans(b0, mid, self.bytecode@);
            }
            k = k + 1;
        }
        self.current_module = None;
        self.module_functions = Vec::new();
        Ok(())
    }

    /// The symbols an `export` form names: those of its one list argument,
    /// or its arguments.
    spec fn export_list(items: Seq<SourceExpr>) -> Seq<SourceExpr> {
        if items.len() == 2 && items[1].expr is List {
            items[1].expr->List_0@
        } else {
            items.subrange(1, items.len() as int)
        }
    }

    /// `names` with the texts of the first `n` symbols added, each unless it
    /// is there already.
    spec fn added_names(names: Seq<Seq<char>>, syms: Seq<SourceExpr>, n: int) -> Seq<Seq<char>>
        decreases n,
    {
        if n <= 0 {
            names
        } else {
            let before = Self::added_names(names, syms, n - 1);
            let x = syms[n - 1].expr->Symbol_0@;
            if before.contains(x) {
                before
            } else {
                before.push(x)
            }
        }
    }

    /// `(export a b ...)` or `(export (a b ...))` inside a module: the names
    /// are added to the module's exports, where the module has an entry.
    fn compile_export(&mut self, expr: &SourceExpr, module_name: &str) -> (r: Result<(), CompileError>)
        requires
            old(self).wf(),
        ensures
            final(self).wf(),
            final(self).bytecode@ == old(self).bytecode@,
            r is Ok <==> (expr.expr is List && expr.expr->List_0@.len() >= 2 && all_symbols(
                Self::export_list(expr.expr->List_0@),
            )),
            r is Ok ==> ({
                let t = old(self).module_exports@;
                let k = first_key(t, module_name@);
                let syms = Self::export_list(expr.expr->List_0@);
                if k < t.len() {
                    &&& final(self).module_exports@.len() == t.len()
                    &&& final(self).module_exports@[k].0@ == module_name@
                    &&& names_of(final(self).module_exports@[k].1@) == Self::added_names(
                        names_of(t[k].1@),
                        syms,
                        syms.len() as int,
                    )
                    &&& forall|j: int| 0 <= j < t.len() && j != k ==> final(self).module_exports@[j] == t[j]
                } else {
                    final(self).module_exports@ == t
                }
            }),
            r is Ok ==> final(self).functions@ == old(self).functions@,
            r is Ok ==> final(self).current_module == old(self).current_module,
    {
        let items = match &expr.expr {
            LispExpr::List(items) => items,
            _ => {
                return Err(error_at("export expects a list", &expr.location));
            },
        };
        if items.len() < 2 {
            return Err(error_at("export expects at least one symbol", &expr.location));
        }
        let (list, from): (&Vec<SourceExpr>, usize) = if items.len() == 2 {
            match &items[1].expr {
                LispExpr::List(inner) => (inner, 0),
                _ => (items, 1),
            }
        } else {
            (items, 1)
        };
        let ghost syms = Self::export_list(items@);
        let ghost t = old(self).module_exports@;
        let ghost key = first_key(t, module_name@);
        assert(list@.subrange(from as int, list@.len() as int) =~= syms);
        proof {
            lemma_first_key(t, module_name@);
        }
        let mut k: usize = from;
        while k < list.len()
            invariant
                self.wf(),
                self.bytecode@ == old(self).bytecode@,
                from <= k <= list@.len(),
                from <= 1,
                list@.subrange(from as int, list@.len() as int) == syms,
                syms == Self::export_list(items@),
                expr.expr == LispExpr::List(*items),
                self.functions@ == old(self).functions@,
                self.current_module == old(self).current_module,
                items@.len() >= 2,
                forall|j: int| from <= j < k ==> (#[trigger] list@[j]).expr is Symbol,
                t == old(self).module_exports@,
                key == first_key(t, module_name@),
                key <= t.len(),
                first_key(self.module_exports@, module_name@) == key,
                key < t.len() ==> {
                    &&& self.module_exports@.len() == t.len()
                    &&& self.module_exports@[key].0@ == module_name@
                    &&& names_of(self.module_exports@[key].1@) == Self::added_names(
                        names_of(t[key].1@),
                        syms,
                        k - from,
                    )
                    &&& forall|j: int| 0 <= j < t.len() && j != key ==> self.module_exports@[j] == t[j]
                },
                key == t.len() ==> self.module_exports@ == t,
            decreases list@.len() - k,
        {
            assert(syms[k - from] == list@[k as int]);
            let export_name = match symbol_of(&list[k]) {
                Some(e) => e,
                None => {
                    return Err(error_at("Export items must be symbols", &list[k].location));
                },
            };
            match find_key(&self.module_exports, module_name) {
                Some(i) => {
                    let ghost cur = self.module_exports@;
                    let mut names = copy_names(&self.module_exports[i].1);
                    let ghost before = names_of(names@);
                    let present = has_name(&names, export_name.as_str());
                    assert(present == before.contains(export_name@)) by {
                        if present {
                            let w = choose|w: int| 0 <= w < names@.len() && names@[w]@ == export_name@;
                            assert(before[w] == export_name@);
                        }
                        if before.contains(export_name@) {
                            let w = choose|w: int| 0 <= w < before.len() && before[w] == export_name@;
                            assert(names@[w]@ == export_name@);
                        }
                    }
                    if !present {
                        names.push(export_name.clone());
                        assert(names_of(names@) =~= before.push(export_name@));
                    }
                    proof {
                        lemma_first_key(cur, module_name@);
                    }
                    set_key(&mut self.module_exports, owned(module_name), names);
                    proof {
                        lemma_first_key_at(self.module_exports@, module_name@, key);
                    }
                },
                None => {},
            }
            k = k + 1;
        }
        Ok(())
    }

    /// Whether `(import m ...)` with these items is accepted: `m` is a
    /// symbol; alone, it names a known module; each further item is a symbol,
    /// exported by `m` where `m` is known.
    spec fn import_accepted(&self, items: Seq<SourceExpr>) -> bool {
        &&& items.len() >= 2
        &&& items[1].expr is Symbol
        &&& {
            let m = items[1].expr->Symbol_0@;
            let t = self.module_exports@;
            if items.len() == 2 {
                has_key(t, m)
            } else {
                forall|j: int|
                    2 <= j < items.len() ==> {
                        &&& (#[trigger] items[j]).expr is Symbol
                        &&& has_key(t, m) ==> holds_name(t[first_key(t, m)].1@, items[j].expr->Symbol_0@)
                    }
            }
        }
    }

    /// The imported names after the first `n` items, from the third on, are
    /// made to stand for the names qualified with module `m`.
    spec fn imported_after(
        t: Seq<(Seq<char>, Seq<char>)>,
        m: Seq<char>,
        items: Seq<SourceExpr>,
        n: int,
    ) -> Seq<(Seq<char>, Seq<char>)>
        decreases n,
    {
        if n <= 2 {
            t
        } else {
            let x = items[n - 1].expr->Symbol_0@;
            with_text_key(Self::imported_after(t, m, items, n - 1), x, m + "/"@ + x)
        }
    }

    /// `(import m)` checks that the module is known; `(import m a b ...)`
    /// makes `a` stand for `m/a`, and so on.
    fn compile_import(&mut self, expr: &SourceExpr) -> (r: Result<(), CompileError>)
        requires
            old(self).wf(),
        ensures
            final(self).wf(),
            final(self).bytecode@ == old(self).bytecode@,
            r is Ok <==> expr.expr is List && old(self).import_accepted(expr.expr->List_0@),
            r is Ok ==> text_pairs(final(self).imported_symbols@) == Self::imported_after(
                text_pairs(old(self).imported_symbols@),
                expr.expr->List_0@[1].expr->Symbol_0@,
                expr.expr->List_0@,
                expr.expr->List_0@.len() as int,
            ),
            r is Ok ==> final(self).functions@ == old(self).functions@,
            r is Ok ==> final(self).module_exports@ == old(self).module_exports@,
            r is Ok ==> final(self).current_module == old(self).current_module,
    {
        let items = match &expr.expr {
            LispExpr::List(items) => items,
            _ => {
                return Err(error_at("import expects a list", &expr.location));
            },
        };
        if items.len() < 2 {
            return Err(error_at("import expects a module name", &expr.location));
        }
        let module_name = match symbol_of(&items[1]) {
            Some(m) => m,
            None => {
                return Err(error_at("Module name must be a symbol", &items[1].location));
            },
        };
        let exports = find_key(&self.module_exports, module_name.as_str());
        if items.len() == 2 {
            if exports.is_none() {
                return Err(CompileError::new(
                    text3("Unknown module '", module_name.as_str(), "'"),
                    items[1].location.duplicate(),
                ));
            }
            return Ok(());
        }
        let ghost m = module_name@;
        let mut k: usize = 2;
        while k < items.len()
            invariant
                2 <= k <= items@.len(),
                self.wf(),
                self.bytecode@ == old(self).bytecode@,
                self.module_exports@ == old(self).module_exports@,
                self.functions@ == old(self).functions@,
                self.current_module == old(self).current_module,
                expr.expr == LispExpr::List(*items),
                items@.len() > 2,
                items@[1].expr is Symbol,
                m == items@[1].expr->Symbol_0@,
                m == module_name@,
                exports matches Some(i) ==> i == first_key(self.module_exports@, m) && i < self.module_exports@.len(),
                exports is None ==> !has_key(self.module_exports@, m),
                forall|j: int|
                    2 <= j < k ==> {
                        &&& (#[trigger] items@[j]).expr is Symbol
                        &&& has_key(self.module_exports@, m) ==> holds_name(
                            self.module_exports@[first_key(self.module_exports@, m)].1@,
                            items@[j].expr->Symbol_0@,
                        )
                    },
                text_pairs(self.imported_symbols@) == Self::imported_after(
                    text_pairs(old(self).imported_symbols@),
                    m,
                    items@,
                    k as int,
                ),
            decreases items@.len() - k,
        {
            let sym_name = match symbol_of(&items[k]) {
                Some(n) => n,
                None => {
                    assert(!old(self).import_accepted(items@));
                    return Err(error_at("Import items must be symbols", &items[k].location));
                },
            };
            match exports {
                Some(i) => {
                    if !has_name(&self.module_exports[i].1, sym_name.as_str()) {
                        assert(!old(self).import_accepted(items@));
                        let mut msg = text3("Symbol '", sym_name.as_str(), "' is not exported by module '");
                        push_str(&mut msg, module_name.as_str());
                        push_str(&mut msg, "'");
                        return Err(CompileError::new(msg, items[k].location.duplicate()));
                    }
                },
                None => {},
            }
            let qualified = text3(module_name.as_str(), "/", sym_name.as_str());
            let ghost t0 = self.imported_symbols@;
            proof {
                lemma_first_key(t0, sym_name@);
                lemma_first_text_key(t0, sym_name@);
            }
            set_key(&mut self.imported_symbols, sym_name.clone(), qualified);
            proof {
                let tv = text_pairs(t0);
                if first_key(t0, sym_name@) < t0.len() {
                    assert(text_pairs(self.imported_symbols@) =~= tv.update(
                        first_key(t0, sym_name@),
                        (sym_name@, m + "/"@ + sym_name@),
                    ));
                } else {
                    assert(text_pairs(self.imported_symbols@) =~= tv.push((sym_name@, m + "/"@ + sym_name@)));
                }
            }
            k = k + 1;
        }
        Ok(())
    }

    /// The name a `(defun name ...)` form defines.
    pub open spec fn defun_name(e: SourceExpr) -> Option<Seq<char>> {
        if head_name(e) == Some("defun"@) && e.expr->List_0@.len() >= 2 && e.expr->List_0@[1].expr is Symbol {
            Some(e.expr->List_0@[1].expr->Symbol_0@)
        } else {
            None
        }
    }

    /// Whether a top-level expression is taken up before the main code: a
    /// definition, a module, an import, or one of the removed `defvar` and
    /// `defconst` forms.
    pub open spec fn defining(e: SourceExpr) -> bool {
        head_name(e) matches Some(n) && (n == "defun"@ || n == "defmacro"@ || n == "def"@ || n == "module"@ || n
            == "import"@ || n == "defvar"@ || n == "defconst"@)
    }

    /// The position of the first defining expression from `k` on (the
    /// length when there is none).
    pub open spec fn first_defining(exprs: Seq<SourceExpr>, k: int) -> int
        decreases exprs.len() - k,
    {
        if k < 0 || k >= exprs.len() {
            exprs.len() as int
        } else if Self::defining(exprs[k]) {
            k
        } else {
            Self::first_defining(exprs, k + 1)
        }
    }

    proof fn lemma_first_defining(exprs: Seq<SourceExpr>, k: int)
        requires
            0 <= k <= exprs.len(),
        ensures
            k <= Self::first_defining(exprs, k) <= exprs.len(),
            forall|j: int| k <= j < Self::first_defining(exprs, k) ==> !Self::defining(#[trigger] exprs[j]),
            Self::first_defining(exprs, k) < exprs.len() ==> Self::defining(exprs[Self::first_defining(exprs, k)]),
        decreases exprs.len() - k,
    {
        if k < exprs.len() && !Self::defining(exprs[k]) {
            Self::lemma_first_defining(exprs, k + 1);
        }
    }

    /// The main code of expressions from `k` on at address `at`: the code of
    /// each, with `PopN(1)` after each but the last.
    pub closed spec fn main_code(&self, exprs: Seq<SourceExpr>, k: int, tail: bool, at: int) -> Option<Seq<InstrView>>
        decreases exprs.len() - k,
    {
        if k < 0 || k >= exprs.len() {
            Some(Seq::empty())
        } else {
            match self.plain_code(exprs[k], tail, at) {
                Some(c) => {
                    let sep = if k + 1 < exprs.len() {
                        seq![instr_view(Instruction::PopN(1))]
                    } else {
                        Seq::<InstrView>::empty()
                    };
                    match self.main_code(exprs, k + 1, tail, at + c.len() + sep.len()) {
                        Some(d) => Some(c + sep + d),
                        None => None,
                    }
                },
                None => None,
            }
        }
    }

    /// Compiles a program: definitions first, then the other expressions
    /// into the main code, each value but the last dropped, and `Halt` at
    /// the end. Gives the functions and the main code.
    #[verifier::rlimit(100)]
    #[verifier::spinoff_prover]
    pub fn compile_program(&mut self, exprs: &Vec<SourceExpr>) -> (r: Result<(FunctionTable, Vec<Instruction>), CompileError>)
        requires
            old(self).wf(),
        ensures
            final(self).wf(),
            r matches Ok(out) ==> {
                &&& instrs_view(out.1@) == instrs_view(final(self).code())
                &&& emitted(old(self).code(), final(self).code())
                &&& final(self).code().len() > 0
                &&& final(self).code().last() == Instruction::Halt
            },
            all_constant(exprs@, 0) ==> r is Ok,
            Self::first_defining(exprs@, 0) == exprs@.len() ==> (old(self).main_code(
                exprs@,
                0,
                old(self).in_tail(),
                old(self).code().len() as int,
            ) matches Some(c) ==> r matches Ok(out) && instrs_view(out.1@) == instrs_view(old(self).code()) + c.push(
                instr_view(Instruction::Halt),
            ) && table_view(out.0@) == table_view(old(self).function_table())),
            ({
                let f = Self::first_defining(exprs@, 0);
                f < exprs@.len() && head_name(exprs@[f]) == Some("defvar"@)
            }) ==> (r matches Err(e) && e.message@ == "'defvar' has been removed - use 'def' for immutable bindings"@
                && e.location@ == exprs@[Self::first_defining(exprs@, 0)].location@),
            ({
                let f = Self::first_defining(exprs@, 0);
                f < exprs@.len() && head_name(exprs@[f]) == Some("defconst"@)
            }) ==> (r matches Err(e) && e.message@ == "'defconst' has been renamed to 'def'"@ && e.location@
                == exprs@[Self::first_defining(exprs@, 0)].location@),
    {
        let ghost start = self.bytecode@;
        let ghost fd = Self::first_defining(exprs@, 0);
        let ghost t0 = self.in_tail_position;
        let ghost l0 = start.len() as int;
        let ghost plain = self.main_code(exprs@, 0, t0, l0);
        proof {
            lemma_emitted_refl(start);
            lemma_instrs_view_len(start);
            Self::lemma_first_defining(exprs@, 0);
            reveal_strlit("defun");
            reveal_strlit("defmacro");
            reveal_strlit("def");
            reveal_strlit("module");
            reveal_strlit("import");
            reveal_strlit("defvar");
            reveal_strlit("defconst");
            assert("defun"@.len() != "defvar"@.len());
            assert("defmacro"@.len() != "defvar"@.len());
            assert("def"@.len() != "defvar"@.len());
            assert("module"@[0] != "defvar"@[0]);
            assert("import"@[0] != "defvar"@[0]);
            assert("defun"@.len() != "defconst"@.len());
            assert("defmacro"@[3] != "defconst"@[3]);
            assert("def"@.len() != "defconst"@.len());
            assert("module"@.len() != "defconst"@.len());
            assert("import"@.len() != "defconst"@.len());
            assert("defvar"@.len() != "defconst"@.len());
            assert("defun"@ != "defvar"@ && "defmacro"@ != "defvar"@ && "def"@ != "defvar"@ && "module"@ != "defvar"@
                && "import"@ != "defvar"@);
            assert("defun"@ != "defconst"@ && "defmacro"@ != "defconst"@ && "def"@ != "defconst"@ && "module"@
                != "defconst"@ && "import"@ != "defconst"@ && "defvar"@ != "defconst"@);
        }
        let mut k: usize = 0;
        while k < exprs.len()
            invariant
                k <= exprs@.len(),
                self.wf(),
                emitted(start, self.bytecode@),
                fd == Self::first_defining(exprs@, 0),
                0 <= fd <= exprs@.len(),
                k <= fd ==> *self == *old(self) && Self::first_defining(exprs@, k as int) == fd,
                fd < k ==> head_name(exprs@[fd]) != Some("defvar"@) && head_name(exprs@[fd]) != Some("defconst"@),
                "defun"@ != "defvar"@ && "defmacro"@ != "defvar"@ && "def"@ != "defvar"@ && "module"@ != "defvar"@
                    && "import"@ != "defvar"@,
                "defun"@ != "defconst"@ && "defmacro"@ != "defconst"@ && "def"@ != "defconst"@ && "module"@ != "defconst"@
                    && "import"@ != "defconst"@ && "defvar"@ != "defconst"@,
            decreases exprs@.len() - k,
        {
            let expr = &exprs[k];
            let ghost mid = self.bytecode@;
            match head_symbol(expr) {
                Some(s) => {
                    let s = s.as_str();
                    if same_text(s, "defun") {
                        self.compile_defun(expr)?;
                    } else if same_text(s, "defmacro") {
                        self.compile_defmacro(expr)?;
                    } else if same_text(s, "def") {
                        self.compile_def(expr)?;
                    } else if same_text(s, "module") {
                        self.compile_module(expr)?;
                    } else if same_text(s, "import") {
                        self.compile_import(expr)?;
                    } else if same_text(s, "defvar") {
                        return Err(error_at("'defvar' has been removed - use 'def' for immutable bindings", &expr.location));
                    } else if same_text(s, "defconst") {
                        return Err(error_at("'defconst' has been renamed to 'def'", &expr.location));
                    }
                },
                None => {},
            }
            proof {
                if self.bytecode@ == mid {
                    lemma_emitted_refl(mid);
                }
                lemma_emitted_trans(start, mid, self.bytecode@);
            }
            k = k + 1;
        }
        let mut count: usize = 0;
        let mut k: usize = 0;
        while k < exprs.len()
            invariant
                k <= exprs@.len(),
                count <= k,
                fd == Self::first_defining(exprs@, 0),
                fd == exprs@.len() ==> count == k && forall|j: int| 0 <= j < exprs@.len() ==> !Self::defining(
                    #[trigger] exprs@[j],
                ),
                fd < exprs@.len() ==> head_name(exprs@[fd]) != Some("defvar"@) && head_name(exprs@[fd]) != Some("defconst"@),
            decreases exprs@.len() - k,
        {
            if !is_definition(&exprs[k]) {
                count = count + 1;
            }
            k = k + 1;
        }
        let ghost b0 = self.bytecode@;
        proof {
            lemma_emitted_refl(b0);
        }
        let mut seen: usize = 0;
        let mut k: usize = 0;
        while k < exprs.len()
            invariant
                k <= exprs@.len(),
                seen <= count,
                self.wf(),
                emitted(b0, self.bytecode@),
                fd == Self::first_defining(exprs@, 0),
                fd == exprs@.len() ==> {
                    &&& count == exprs@.len()
                    &&& seen == k
                    &&& forall|j: int| 0 <= j < exprs@.len() ==> !Self::defining(#[trigger] exprs@[j])
                    &&& self.same_context(old(self))
                    &&& b0 == start
                },
                plain == old(self).main_code(exprs@, 0, t0, l0),
                fd < exprs@.len() ==> head_name(exprs@[fd]) != Some("defvar"@) && head_name(exprs@[fd]) != Some("defconst"@),
                t0 == old(self).in_tail_position,
                l0 == old(self).code().len(),
                fd == exprs@.len() && plain is Some ==> {
                    &&& old(self).main_code(exprs@, k as int, t0, self.code().len() as int) is Some
                    &&& instrs_view(self.code()) + old(self).main_code(exprs@, k as int, t0, self.code().len() as int).unwrap()
                        == instrs_view(start) + plain.unwrap()
                },
            decreases exprs@.len() - k,
        {
            if !is_definition(&exprs[k]) {
                let ghost mid = self.bytecode@;
                let ghost m = *self;
                proof {
                    lemma_instrs_view_len(mid);
                    if fd == exprs@.len() {
                        assert(!Self::defining(exprs@[k as int]));
                        Self::lemma_same_names_code(&m, old(self), exprs@[k as int], t0, mid.len() as int);
                    }
                }
                self.compile_expr(&exprs[k])?;
                proof {
                    lemma_emitted_trans(b0, mid, self.bytecode@);
                    lemma_instrs_view_len(self.bytecode@);
                }
                let ghost mid1 = self.bytecode@;
                if count - seen > 1 {
                    let ghost mid2 = self.bytecode@;
                    self.emit(Instruction::PopN(1));
                    proof {
                        lemma_emit_plain(b0, mid2, Instruction::PopN(1));
                        lemma_instrs_view_push(mid2, Instruction::PopN(1));
                    }
                }
                proof {
                    lemma_instrs_view_len(self.bytecode@);
                    if fd == exprs@.len() && plain is Some {
                        let c = old(self).plain_code(exprs@[k as int], t0, mid.len() as int).unwrap();
                        let sep = if k + 1 < exprs@.len() {
                            seq![instr_view(Instruction::PopN(1))]
                        } else {
                            Seq::<InstrView>::empty()
                        };
                        assert(instrs_view(mid1) == instrs_view(mid) + c);
                        assert(instrs_view(self.bytecode@) =~= instrs_view(mid) + (c + sep));
                        let rest = old(self).main_code(exprs@, k + 1, t0, self.code().len() as int).unwrap();
                        assert(old(self).main_code(exprs@, k as int, t0, mid.len() as int).unwrap() == c + sep + rest);
                        assert(instrs_view(self.code()) + rest =~= instrs_view(mid) + (c + sep + rest));
                    }
                }
                if seen < count {
                    seen = seen + 1;
                }
            }
            k = k + 1;
        }
        let ghost mid = self.bytecode@;
        self.emit(Instruction::Halt);
        proof {
            lemma_emit_plain(b0, mid, Instruction::Halt);
            lemma_emitted_trans(start, b0, self.bytecode@);
            lemma_instrs_view_push(mid, Instruction::Halt);
            if fd == exprs@.len() && plain is Some {
                assert(instrs_view(mid) + Seq::<InstrView>::empty() =~= instrs_view(mid));
            }
        }
        let mut table: FunctionTable = Vec::new();
        let mut i: usize = 0;
        while i < self.functions.len()
            invariant
                i <= self.functions@.len(),
                table_view(table@) == table_view(self.functions@).subrange(0, i as int),
            decreases self.functions@.len() - i,
        {
            let name = self.functions[i].0.clone();
            let code = copy_code(&self.functions[i].1);
            let ghost before = table@;
            table.push((name, code));
            proof {
                assert(table_view(table@) =~= table_view(before).push((name@, instrs_view(code@))));
                assert(table_view(self.functions@)[i as int] == (self.functions@[i as int].0@, instrs_view(
                    self.functions@[i as int].1@,
                )));
            }
            i = i + 1;
            assert(table_view(table@) =~= table_view(self.functions@).subrange(0, i as int));
        }
        assert(table_view(self.functions@).subrange(0, self.functions@.len() as int) =~= table_view(self.functions@));
        let main = copy_code(&self.bytecode);
        Ok((table, main))
    }
}

/// A copy of an expression.
pub fn copy_source(e: &SourceExpr) -> (r: SourceExpr)
    ensures
        source_view(r) == source_view(*e),
    decreases *e, 1int,
{
    let expr = match &e.expr {
        LispExpr::Number(n) => LispExpr::Number(*n),
        LispExpr::Float(t) => LispExpr::Float(t.clone()),
        LispExpr::Boolean(b) => LispExpr::Boolean(*b),
        LispExpr::Symbol(t) => LispExpr::Symbol(t.clone()),
        LispExpr::List(items) => {
            let c = copy_sources(items);
            proof {
                assert(source_view(*e).expr == ExprView::List(sources_view(items@)));
            }
            LispExpr::List(c)
        },
        LispExpr::DottedList(items, rest) => {
            let c = copy_sources(items);
            let t = copy_source(rest);
            proof {
                assert(source_view(*e).expr == ExprView::DottedList(sources_view(items@), Box::new(source_view(**rest))));
            }
            LispExpr::DottedList(c, Box::new(t))
        },
    };
    SourceExpr { expr, location: e.location.duplicate() }
}

/// Copies of expressions.
pub fn copy_sources(items: &Vec<SourceExpr>) -> (r: Vec<SourceExpr>)
    ensures
        sources_view(r@) == sources_view(items@),
    decreases *items, 0int,
{
    let mut out: Vec<SourceExpr> = Vec::new();
    let mut i: usize = 0;
    proof {
        crate::ast::lemma_sources_view_ext(items@);
    }
    while i < items.len()
        invariant
            i <= items@.len(),
            out@.len() == i,
            forall|k: int| 0 <= k < i ==> source_view(#[trigger] out@[k]) == source_view(items@[k]),
        decreases items@.len() - i,
    {
        let c = copy_source(&items[i]);
        out.push(c);
        i = i + 1;
    }
    proof {
        crate::ast::lemma_sources_view_ext(items@);
        crate::ast::lemma_sources_view_ext(out@);
        assert(sources_view(out@) =~= sources_view(items@));
    }
    out
}

// ---------------------------------------------------------------------------
// Patterns of multi-clause functions

/// A pattern an argument is matched against.
pub enum Pattern {
    /// Matches anything and binds it to the name.
    Variable(String),
    /// Matches anything.
    Wildcard,
    /// Matches a value equal to this one.
    Literal(Value),
    /// Matches the symbol.
    QuotedSymbol(String),
    /// Matches the empty list.
    EmptyList,
    /// Matches a list of this many elements, each against its pattern.
    List(Vec<Pattern>),
    /// Matches a list of at least this many elements; the rest against the
    /// last pattern.
    DottedList(Vec<Pattern>, Box<Pattern>),
}

/// How many names binding a pattern `depth` levels deep puts on the stack:
/// a name binds itself; below the last level nothing more is bound; the
/// tail of a dotted list is bound one level deep at the top, and as a leaf
/// below it.
pub open spec fn bound_count(p: Pattern, depth: nat) -> nat
    decreases p,
{
    match p {
        Pattern::Variable(_) => 1,
        Pattern::List(subs) => if depth == 0 {
            0
        } else {
            bound_counts(subs@, (depth - 1) as nat)
        },
        Pattern::DottedList(heads, tail) => if depth == 0 {
            0
        } else {
            bound_counts(heads@, (depth - 1) as nat) + bound_count(*tail, if depth >= 3 { 1 } else { 0 })
        },
        _ => 0,
    }
}

/// The sum of `bound_count` over patterns.
pub open spec fn bound_counts(s: Seq<Pattern>, depth: nat) -> nat
    decreases s,
{
    if s.len() == 0 {
        0
    } else {
        bound_counts(s.drop_last(), depth) + bound_count(s.last(), depth)
    }
}

proof fn lemma_counts_step(s: Seq<Pattern>, k: int, depth: nat)
    requires
        0 <= k < s.len(),
    ensures
        bound_counts(s.subrange(0, k + 1), depth) == bound_counts(s.subrange(0, k), depth) + bound_count(s[k], depth),
{
    assert(s.subrange(0, k + 1).drop_last() =~= s.subrange(0, k));
}

proof fn lemma_counts_mono(s: Seq<Pattern>, k: int, depth: nat)
    requires
        0 <= k <= s.len(),
    ensures
        bound_counts(s.subrange(0, k), depth) <= bound_counts(s, depth),
    decreases s.len() - k,
{
    if k == s.len() {
        assert(s.subrange(0, k) =~= s);
    } else {
        lemma_counts_step(s, k, depth);
        lemma_counts_mono(s, k + 1, depth);
    }
}

/// One step into a list: the element at a position, or what is left after
/// a number of elements.
pub enum Step {
    Elem(usize),
    Rest(usize),
}

/// A pattern with its names as texts and its literal as a value view.
pub enum PatternView {
    Variable(Seq<char>),
    Wildcard,
    Literal(ValueView),
    QuotedSymbol(Seq<char>),
    EmptyList,
    List(Seq<PatternView>),
    DottedList(Seq<PatternView>, Box<PatternView>),
}

pub open spec fn pattern_view(p: Pattern) -> PatternView
    decreases p,
{
    match p {
        Pattern::Variable(s) => PatternView::Variable(s@),
        Pattern::Wildcard => PatternView::Wildcard,
        Pattern::Literal(v) => PatternView::Literal(value_view(v)),
        Pattern::QuotedSymbol(s) => PatternView::QuotedSymbol(s@),
        Pattern::EmptyList => PatternView::EmptyList,
        Pattern::List(ps) => PatternView::List(patterns_view(ps@)),
        Pattern::DottedList(ps, t) => PatternView::DottedList(patterns_view(ps@), Box::new(pattern_view(*t))),
    }
}

pub open spec fn patterns_view(s: Seq<Pattern>) -> Seq<PatternView>
    decreases s,
{
    if s.len() == 0 {
        Seq::empty()
    } else {
        seq![pattern_view(s[0])] + patterns_view(s.subrange(1, s.len() as int))
    }
}

proof fn lemma_patterns_view(s: Seq<Pattern>)
    ensures
        patterns_view(s).len() == s.len(),
        forall|i: int| 0 <= i < s.len() ==> #[trigger] patterns_view(s)[i] == pattern_view(s[i]),
    decreases s.len(),
{
    if s.len() > 0 {
        let rest = s.subrange(1, s.len() as int);
        lemma_patterns_view(rest);
        assert forall|i: int| 0 < i < s.len() implies #[trigger] patterns_view(s)[i] == pattern_view(s[i]) by {
            assert(s[i] == rest[i - 1]);
        }
    }
}

impl Compiler {
    /// The pattern an expression stands for: `_` matches anything, another
    /// symbol binds, a number, float or boolean matches itself, `(quote x)`
    /// a quoted pattern, and a list or dotted list the patterns of its
    /// items; `None` where an item has none or a float literal no value.
    pub closed spec fn pattern_of(&self, e: SourceExpr) -> Option<PatternView>
        decreases e, 1int,
    {
        match e.expr {
            LispExpr::Symbol(s) => Some(if s@ == "_"@ { PatternView::Wildcard } else { PatternView::Variable(s@) }),
            LispExpr::Number(n) => Some(PatternView::Literal(ValueView::Integer(n))),
            LispExpr::Float(t) => match float_text_value(self.float_bits@, t@) {
                Some(b) => Some(PatternView::Literal(ValueView::Float(b))),
                None => None,
            },
            LispExpr::Boolean(b) => Some(PatternView::Literal(ValueView::Boolean(b))),
            LispExpr::List(items) => if items@.len() == 2 && items@[0].expr is Symbol && items@[0].expr->Symbol_0@
                == "quote"@ {
                self.quoted_pattern_of(items@[1])
            } else {
                match self.patterns_of(items@, false) {
                    Some(ps) => Some(PatternView::List(ps)),
                    None => None,
                }
            },
            LispExpr::DottedList(head, tail) => match (self.patterns_of(head@, false), self.pattern_of(*tail)) {
                (Some(ps), Some(t)) => Some(PatternView::DottedList(ps, Box::new(t))),
                _ => None,
            },
        }
    }

    /// The patterns of expressions (quoted ones when `quoted`).
    pub closed spec fn patterns_of(&self, s: Seq<SourceExpr>, quoted: bool) -> Option<Seq<PatternView>>
        decreases s, 0int,
    {
        if s.len() == 0 {
            Some(Seq::empty())
        } else {
            let first = if quoted { self.quoted_element_of(s[0]) } else { self.pattern_of(s[0]) };
            match (first, self.patterns_of(s.subrange(1, s.len() as int), quoted)) {
                (Some(p), Some(ps)) => Some(seq![p] + ps),
                _ => None,
            }
        }
    }

    /// The pattern a quoted expression stands for: a symbol, the empty list,
    /// or a list of quoted elements.
    pub closed spec fn quoted_pattern_of(&self, e: SourceExpr) -> Option<PatternView>
        decreases e, 1int,
    {
        match e.expr {
            LispExpr::Symbol(s) => Some(PatternView::QuotedSymbol(s@)),
            LispExpr::List(items) => if items@.len() == 0 {
                Some(PatternView::EmptyList)
            } else {
                match self.patterns_of(items@, true) {
                    Some(ps) => Some(PatternView::List(ps)),
                    None => None,
                }
            },
            _ => None,
        }
    }

    /// The pattern an element of a quoted list stands for.
    pub closed spec fn quoted_element_of(&self, e: SourceExpr) -> Option<PatternView>
        decreases e, 1int,
    {
        match e.expr {
            LispExpr::Symbol(s) => Some(PatternView::QuotedSymbol(s@)),
            LispExpr::Number(n) => Some(PatternView::Literal(ValueView::Integer(n))),
            LispExpr::Float(t) => match float_text_value(self.float_bits@, t@) {
                Some(b) => Some(PatternView::Literal(ValueView::Float(b))),
                None => None,
            },
            LispExpr::Boolean(b) => Some(PatternView::Literal(ValueView::Boolean(b))),
            LispExpr::List(items) => if items@.len() == 0 {
                Some(PatternView::EmptyList)
            } else {
                match self.patterns_of(items@, true) {
                    Some(ps) => Some(PatternView::List(ps)),
                    None => None,
                }
            },
            LispExpr::DottedList(head, tail) => match (self.patterns_of(head@, true), self.quoted_element_of(*tail)) {
                (Some(ps), Some(t)) => Some(PatternView::DottedList(ps, Box::new(t))),
                _ => None,
            },
        }
    }
}

impl Compiler {
    /// The pattern of an item of a list of patterns (quoted when `quoted`).
    pub open spec fn item_pattern(&self, e: SourceExpr, quoted: bool) -> Option<PatternView> {
        if quoted {
            self.quoted_element_of(e)
        } else {
            self.pattern_of(e)
        }
    }

    proof fn lemma_patterns_of(&self, s: Seq<SourceExpr>, quoted: bool)
        ensures
            self.patterns_of(s, quoted) is Some <==> forall|i: int|
                0 <= i < s.len() ==> (#[trigger] self.item_pattern(s[i], quoted)) is Some,
            self.patterns_of(s, quoted) is Some ==> {
                &&& self.patterns_of(s, quoted)->0.len() == s.len()
                &&& forall|i: int|
                    0 <= i < s.len() ==> #[trigger] self.patterns_of(s, quoted)->0[i] == self.item_pattern(s[i], quoted)->0
            },
        decreases s.len(),
    {
        if s.len() > 0 {
            let rest = s.subrange(1, s.len() as int);
            self.lemma_patterns_of(rest, quoted);
            assert forall|i: int| 0 < i < s.len() implies s[i] == rest[i - 1] by {}
            if forall|i: int| 0 <= i < s.len() ==> (#[trigger] self.item_pattern(s[i], quoted)) is Some {
                assert forall|i: int| 0 <= i < rest.len() implies (#[trigger] self.item_pattern(rest[i], quoted)) is Some by {
                    assert(rest[i] == s[i + 1]);
                }
                assert(self.item_pattern(s[0], quoted) is Some);
            }
            if self.patterns_of(s, quoted) is Some {
                assert forall|i: int| 0 <= i < s.len() implies (#[trigger] self.item_pattern(s[i], quoted)) is Some by {
                    if i > 0 {
                        assert(self.item_pattern(rest[i - 1], quoted) is Some);
                    }
                }
                let r = self.patterns_of(s, quoted)->0;
                assert forall|i: int| 0 <= i < s.len() implies #[trigger] r[i] == self.item_pattern(s[i], quoted)->0 by {
                    if i > 0 {
                        assert(r[i] == self.patterns_of(rest, quoted)->0[i - 1]);
                    }
                }
            }
        }
    }
}

impl Compiler {
    /// The pattern an expression stands for.
    fn parse_pattern(&self, expr: &SourceExpr) -> (r: Result<Pattern, CompileError>)
        ensures
            r is Ok <==> self.pattern_of(*expr) is Some,
            r matches Ok(p) ==> pattern_view(p) == self.pattern_of(*expr)->0,
        decreases *expr, 1int,
    {
        match &expr.expr {
            LispExpr::Symbol(s) => {
                if same_text(s.as_str(), "_") {
                    Ok(Pattern::Wildcard)
                } else {
                    Ok(Pattern::Variable(s.clone()))
                }
            },
            LispExpr::Number(n) => Ok(Pattern::Literal(Value::Integer(*n))),
            LispExpr::Float(t) => {
                match self.float_value(t) {
                    Some(bits) => Ok(Pattern::Literal(Value::Float(bits))),
                    None => Err(CompileError::new(
                        text3("Float literal '", t.as_str(), "' has no value"),
                        expr.location.duplicate(),
                    )),
                }
            },
            LispExpr::Boolean(b) => Ok(Pattern::Literal(Value::Boolean(*b))),
            LispExpr::List(items) => {
                if items.len() == 2 && is_symbol_text(&items[0], "quote") {
                    return self.parse_quoted_pattern(&items[1]);
                }
                let subs = self.parse_pattern_items(items, false)?;
                Ok(Pattern::List(subs))
            },
            LispExpr::DottedList(head, tail) => {
                let subs = self.parse_pattern_items(head, false)?;
                let t = self.parse_pattern(tail)?;
                Ok(Pattern::DottedList(subs, Box::new(t)))
            },
        }
    }

    /// The patterns of a list's items (quoted ones when `quoted`).
    fn parse_pattern_items(&self, items: &Vec<SourceExpr>, quoted: bool) -> (r: Result<Vec<Pattern>, CompileError>)
        ensures
            r is Ok <==> self.patterns_of(items@, quoted) is Some,
            r matches Ok(ps) ==> patterns_view(ps@) == self.patterns_of(items@, quoted)->0,
        decreases *items, 0int,
    {
        proof {
            self.lemma_patterns_of(items@, quoted);
        }
        let mut subs: Vec<Pattern> = Vec::new();
        let mut k: usize = 0;
        while k < items.len()
            invariant
                k <= items@.len(),
                subs@.len() == k,
                forall|j: int| 0 <= j < k ==> (#[trigger] self.item_pattern(items@[j], quoted)) is Some,
                forall|j: int| 0 <= j < k ==> pattern_view(#[trigger] subs@[j]) == self.item_pattern(items@[j], quoted)->0,
                self.patterns_of(items@, quoted) is Some <==> forall|i: int|
                    0 <= i < items@.len() ==> (#[trigger] self.item_pattern(items@[i], quoted)) is Some,
                self.patterns_of(items@, quoted) is Some ==> {
                    &&& self.patterns_of(items@, quoted)->0.len() == items@.len()
                    &&& forall|i: int|
                        0 <= i < items@.len() ==> #[trigger] self.patterns_of(items@, quoted)->0[i] == self.item_pattern(items@[i], quoted)->0
                },
            decreases items@.len() - k,
        {
            let res = if quoted { self.parse_quoted_list_element(&items[k]) } else { self.parse_pattern(&items[k]) };
            match res {
                Ok(p) => {
                    subs.push(p);
                },
                Err(e) => {
                    assert(self.item_pattern(items@[k as int], quoted) is None);
                    return Err(e);
                },
            }
            k = k + 1;
        }
        proof {
            lemma_patterns_view(subs@);
            assert(patterns_view(subs@) =~= self.patterns_of(items@, quoted)->0);
        }
        Ok(subs)
    }

    /// The pattern a quoted expression stands for: a symbol, the empty list,
    /// or a list of literals.
    fn parse_quoted_pattern(&self, expr: &SourceExpr) -> (r: Result<Pattern, CompileError>)
        ensures
            r is Ok <==> self.quoted_pattern_of(*expr) is Some,
            r matches Ok(p) ==> pattern_view(p) == self.quoted_pattern_of(*expr)->0,
        decreases *expr, 1int,
    {
        match &expr.expr {
            LispExpr::Symbol(s) => Ok(Pattern::QuotedSymbol(s.clone())),
            LispExpr::List(items) => {
                if items.len() == 0 {
                    return Ok(Pattern::EmptyList);
                }
                let subs = self.parse_pattern_items(items, true)?;
                Ok(Pattern::List(subs))
            },
            other => Err(CompileError::new(
                text2("Unsupported quoted pattern: ", pattern_text(other).as_str()),
                expr.location.duplicate(),
            )),
        }
    }

    /// The pattern an element of a quoted list stands for.
    fn parse_quoted_list_element(&self, expr: &SourceExpr) -> (r: Result<Pattern, CompileError>)
        ensures
            r is Ok <==> self.quoted_element_of(*expr) is Some,
            r matches Ok(p) ==> pattern_view(p) == self.quoted_element_of(*expr)->0,
        decreases *expr, 1int,
    {
        match &expr.expr {
            LispExpr::Symbol(s) => Ok(Pattern::QuotedSymbol(s.clone())),
            LispExpr::Number(n) => Ok(Pattern::Literal(Value::Integer(*n))),
            LispExpr::Float(t) => {
                match self.float_value(t) {
                    Some(bits) => Ok(Pattern::Literal(Value::Float(bits))),
                    None => Err(CompileError::new(
                        text3("Float literal '", t.as_str(), "' has no value"),
                        expr.location.duplicate(),
                    )),
                }
            },
            LispExpr::Boolean(b) => Ok(Pattern::Literal(Value::Boolean(*b))),
            LispExpr::List(items) => {
                if items.len() == 0 {
                    return Ok(Pattern::EmptyList);
                }
                let subs = self.parse_pattern_items(items, true)?;
                Ok(Pattern::List(subs))
            },
            LispExpr::DottedList(head, tail) => {
                let subs = self.parse_pattern_items(head, true)?;
                let t = self.parse_quoted_list_element(tail)?;
                Ok(Pattern::DottedList(subs, Box::new(t)))
            },
        }
    }

    /// The patterns of a clause's pattern list: those of a list's items, or
    /// the one pattern of a dotted list with nothing before the dot.
    pub closed spec fn clause_patterns_of(&self, e: SourceExpr) -> Option<Seq<PatternView>> {
        match e.expr {
            LispExpr::List(items) => self.patterns_of(items@, false),
            LispExpr::DottedList(head, tail) => if head@.len() == 0 {
                match self.pattern_of(*tail) {
                    Some(t) => Some(seq![t]),
                    None => None,
                }
            } else {
                None
            },
            _ => None,
        }
    }

    /// The patterns of a clause's pattern list.
    fn parse_patterns(&self, expr: &SourceExpr) -> (r: Result<Vec<Pattern>, CompileError>)
        ensures
            r is Ok <==> self.clause_patterns_of(*expr) is Some,
            r matches Ok(ps) ==> patterns_view(ps@) == self.clause_patterns_of(*expr)->0,
    {
        match &expr.expr {
            LispExpr::List(items) => self.parse_pattern_items(items, false),
            LispExpr::DottedList(head, tail) => {
                let out = self.parse_pattern_items(head, false)?;
                let rest = self.parse_pattern(tail)?;
                if out.len() == 0 {
                    let mut only: Vec<Pattern> = Vec::new();
                    only.push(rest);
                    proof {
                        lemma_patterns_view(only@);
                        assert(patterns_view(only@) =~= seq![pattern_view(rest)]);
                    }
                    Ok(only)
                } else {
                    proof {
                        lemma_patterns_view(out@);
                        self.lemma_patterns_of(head@, false);
                    }
                    Err(error_at(
                        "Variadic patterns (a b . rest) not yet supported in multi-clause defun. Use single-clause defun with variadic parameters.",
                        &expr.location,
                    ))
                }
            },
            _ => Err(error_at("Patterns must be a list", &expr.location)),
        }
    }

    /// Emits `LoadArg(arg)` and the steps into the argument.
    fn emit_path(&mut self, arg: usize, path: &Vec<Step>)
        requires
            old(self).wf(),
        ensures
            final(self).wf(),
            final(self).extends(old(self)),
            final(self).progressed(old(self)),
    {
        let ghost b0 = self.bytecode@;
        proof {
            lemma_emitted_refl(b0);
        }
        self.emit_plain(Instruction::LoadArg(arg));
        let mut k: usize = 0;
        while k < path.len()
            invariant
                k <= path@.len(),
                self.wf(),
                self.extends(old(self)),
            decreases path@.len() - k,
        {
            let (count, car) = match &path[k] {
                Step::Elem(i) => (*i, true),
                Step::Rest(n) => (*n, false),
            };
            let mut c: usize = 0;
            while c < count
                invariant
                    c <= count,
                    self.wf(),
                    self.extends(old(self)),
                decreases count - c,
            {
                let ghost m = *self;
                self.emit_plain(Instruction::Cdr);
                proof {
                    lemma_emitted_trans(old(self).bytecode@, m.bytecode@, self.bytecode@);
                }
                c = c + 1;
            }
            if car {
                let ghost m = *self;
                self.emit_plain(Instruction::Car);
                proof {
                    lemma_emitted_trans(old(self).bytecode@, m.bytecode@, self.bytecode@);
                }
            }
            k = k + 1;
        }
    }

    /// Emits a test that jumps away (to a place patched in later) when the
    /// value on top of the stack is false, and records where it is.
    fn emit_pattern_jump(&mut self)
        requires
            old(self).wf(),
        ensures
            final(self).wf(),
            final(self).progressed(old(self)),
            final(self).bytecode@.len() == old(self).bytecode@.len() + 1,
            final(self).pattern_match_jumps@ == old(self).pattern_match_jumps@.push(old(self).bytecode@.len() as usize),
    {
        let ghost b0 = self.bytecode@;
        let idx = self.bytecode.len();
        self.emit(Instruction::JmpIfFalse(idx));
        proof {
            lemma_emitted_refl(b0);
            lemma_emit_plain(b0, b0, Instruction::JmpIfFalse(idx));
        }
        self.pattern_match_jumps.push(idx);
    }
}

/// `b` is `a` with more entries, each at a place in `lo..hi`.
pub open spec fn jumps_grow(a: Seq<usize>, b: Seq<usize>, lo: int, hi: int) -> bool {
    &&& a.len() <= b.len()
    &&& forall|j: int| 0 <= j < a.len() ==> b[j] == a[j]
    &&& forall|j: int| a.len() <= j < b.len() ==> lo <= #[trigger] b[j] < hi
}

/// Every recorded place is in `lo..hi`.
pub open spec fn pending_in(jumps: Seq<usize>, lo: int, hi: int) -> bool {
    forall|j: int| 0 <= j < jumps.len() ==> lo <= #[trigger] jumps[j] < hi
}

/// A copy of a path with one more step.
fn path_with(path: &Vec<Step>, step: Step) -> (r: Vec<Step>)
    ensures
        r@ == path@.push(step),
{
    let mut r: Vec<Step> = Vec::new();
    let mut k: usize = 0;
    while k < path.len()
        invariant
            k <= path@.len(),
            r@ == path@.subrange(0, k as int),
        decreases path@.len() - k,
    {
        let s = match &path[k] {
            Step::Elem(i) => Step::Elem(*i),
            Step::Rest(n) => Step::Rest(*n),
        };
        r.push(s);
        k = k + 1;
        assert(r@ =~= path@.subrange(0, k as int));
    }
    assert(path@.subrange(0, path@.len() as int) =~= path@);
    r.push(step);
    r
}

impl Compiler {
    /// Whether everything but the code and the recorded pattern jumps is the
    /// same in both.
    pub closed spec fn same_context_but_jumps(&self, other: &Compiler) -> bool {
        &&& self.functions@ == other.functions@
        &&& self.macros@ == other.macros@
        &&& self.global_vars@ == other.global_vars@
        &&& self.known_functions@ == other.known_functions@
        &&& self.known_globals@ == other.known_globals@
        &&& self.current_module == other.current_module
        &&& self.module_exports@ == other.module_exports@
        &&& self.imported_symbols@ == other.imported_symbols@
        &&& self.module_functions@ == other.module_functions@
        &&& self.float_bits@ == other.float_bits@
        &&& self.macro_budget <= other.macro_budget
        &&& self.param_names@ == other.param_names@
        &&& self.pattern_bindings@ == other.pattern_bindings@
        &&& self.local_bindings@ == other.local_bindings@
        &&& self.stack_depth == other.stack_depth
        &&& self.in_tail_position == other.in_tail_position
    }

    /// The code grew by a fragment, the recorded pattern jumps grew by places
    /// inside it, and nothing else changed.
    pub closed spec fn progressed(&self, start: &Compiler) -> bool {
        &&& self.wf()
        &&& emitted(start.bytecode@, self.bytecode@)
        &&& self.same_context_but_jumps(start)
        &&& jumps_grow(start.pattern_match_jumps@, self.pattern_match_jumps@, start.bytecode@.len() as int,
            self.bytecode@.len() as int)
    }

    proof fn lemma_progressed_trans(a: &Compiler, b: &Compiler, c: &Compiler)
        requires
            b.progressed(a),
            c.progressed(b),
        ensures
            c.progressed(a),
    {
        lemma_emitted_trans(a.bytecode@, b.bytecode@, c.bytecode@);
    }

    proof fn lemma_progressed_refl(a: &Compiler)
        requires
            a.wf(),
        ensures
            a.progressed(a),
    {
        lemma_emitted_refl(a.bytecode@);
    }

    /// Whether everything but the code, the local bindings and the stack
    /// depth is the same in both.
    pub closed spec fn same_but_locals(&self, other: &Compiler) -> bool {
        &&& self.same_globals(other)
        &&& self.param_names@ == other.param_names@
        &&& self.pattern_bindings@ == other.pattern_bindings@
        &&& self.in_tail_position == other.in_tail_position
    }

    /// Loads the value the path leads to and binds the name to its place on
    /// the stack.
    fn bind_at(&mut self, name: &String, arg: usize, path: &Vec<Step>) -> (r: Result<(), CompileError>)
        requires
            old(self).wf(),
        ensures
            final(self).wf(),
            r is Ok ==> emitted(old(self).bytecode@, final(self).bytecode@) && final(self).same_but_locals(old(self)),
            r is Ok <==> old(self).stack_depth < usize::MAX,
            r is Ok ==> final(self).stack_depth == old(self).stack_depth + 1,
            r is Ok ==> final(self).local_bindings@ == (if has_key(old(self).local_bindings@, name@) {
                old(self).local_bindings@.update(
                    first_key(old(self).local_bindings@, name@),
                    (*name, ValueLocation::Local(old(self).stack_depth)),
                )
            } else {
                old(self).local_bindings@.push((*name, ValueLocation::Local(old(self).stack_depth)))
            }),
    {
        if self.stack_depth == usize::MAX {
            return Err(CompileError::new(owned("Too many local bindings"), Location::unknown()));
        }
        self.emit_path(arg, path);
        let pos = self.stack_depth;
        self.stack_depth = self.stack_depth + 1;
        proof {
            lemma_first_key(self.local_bindings@, name@);
        }
        set_key(&mut self.local_bindings, name.clone(), ValueLocation::Local(pos));
        Ok(())
    }

    /// Binds a pattern that is a name; other patterns bind nothing here.
    fn bind_leaf(&mut self, p: &Pattern, arg: usize, path: &Vec<Step>) -> (r: Result<(), CompileError>)
        requires
            old(self).wf(),
        ensures
            final(self).wf(),
            r is Ok ==> emitted(old(self).bytecode@, final(self).bytecode@) && final(self).same_but_locals(old(self)),
            r is Ok <==> old(self).stack_depth + bound_count(*p, 0) <= usize::MAX,
            r is Ok ==> final(self).stack_depth == old(self).stack_depth + bound_count(*p, 0),
    {
        match p {
            Pattern::Variable(name) => self.bind_at(name, arg, path),
            _ => {
                proof {
                    lemma_emitted_refl(self.bytecode@);
                }
                Ok(())
            },
        }
    }

    /// Binds the names of a pattern three levels into an argument.
    fn bind_deep(&mut self, p: &Pattern, arg: usize, path: &Vec<Step>) -> (r: Result<(), CompileError>)
        requires
            old(self).wf(),
        ensures
            final(self).wf(),
            r is Ok ==> emitted(old(self).bytecode@, final(self).bytecode@) && final(self).same_but_locals(old(self)),
            r is Ok <==> old(self).stack_depth + bound_count(*p, 1) <= usize::MAX,
            r is Ok ==> final(self).stack_depth == old(self).stack_depth + bound_count(*p, 1),
    {
        let ghost b0 = self.bytecode@;
        proof {
            lemma_emitted_refl(b0);
        }
        match p {
            Pattern::Variable(name) => self.bind_at(name, arg, path),
            Pattern::List(subs) => {
                let mut k: usize = 0;
                while k < subs.len()
                    invariant
                        k <= subs@.len(),
                        self.wf(),
                        emitted(b0, self.bytecode@),
                        self.same_but_locals(old(self)),
                        *p == Pattern::List(*subs),
                        self.stack_depth == old(self).stack_depth + bound_counts(subs@.subrange(0, k as int), 0),
                    decreases subs@.len() - k,
                {
                    let ghost m = self.bytecode@;
                    proof {
                        lemma_counts_step(subs@, k as int, 0);
                        lemma_counts_mono(subs@, k + 1, 0);
                    }
                    self.bind_leaf(&subs[k], arg, &path_with(path, Step::Elem(k)))?;
                    proof {
                        lemma_emitted_trans(b0, m, self.bytecode@);
                    }
                    k = k + 1;
                }
                assert(subs@.subrange(0, subs@.len() as int) =~= subs@);
                Ok(())
            },
            Pattern::DottedList(heads, tail) => {
                let mut k: usize = 0;
                while k < heads.len()
                    invariant
                        k <= heads@.len(),
                        self.wf(),
                        emitted(b0, self.bytecode@),
                        self.same_but_locals(old(self)),
                        *p == Pattern::DottedList(*heads, *tail),
                        self.stack_depth == old(self).stack_depth + bound_counts(heads@.subrange(0, k as int), 0),
                    decreases heads@.len() - k,
                {
                    let ghost m = self.bytecode@;
                    proof {
                        lemma_counts_step(heads@, k as int, 0);
                        lemma_counts_mono(heads@, k + 1, 0);
                    }
                    self.bind_leaf(&heads[k], arg, &path_with(path, Step::Elem(k)))?;
                    proof {
                        lemma_emitted_trans(b0, m, self.bytecode@);
                    }
                    k = k + 1;
                }
                assert(heads@.subrange(0, heads@.len() as int) =~= heads@);
                let ghost m = self.bytecode@;
                self.bind_leaf(tail, arg, &path_with(path, Step::Rest(heads.len())))?;
                proof {
                    lemma_emitted_trans(b0, m, self.bytecode@);
                }
                Ok(())
            },
            _ => Ok(()),
        }
    }

    /// Binds the names of a pattern two levels into an argument.
    fn bind_nested(&mut self, p: &Pattern, arg: usize, path: &Vec<Step>) -> (r: Result<(), CompileError>)
        requires
            old(self).wf(),
        ensures
            final(self).wf(),
            r is Ok ==> emitted(old(self).bytecode@, final(self).bytecode@) && final(self).same_but_locals(old(self)),
            r is Ok <==> old(self).stack_depth + bound_count(*p, 2) <= usize::MAX,
            r is Ok ==> final(self).stack_depth == old(self).stack_depth + bound_count(*p, 2),
    {
        let ghost b0 = self.bytecode@;
        proof {
            lemma_emitted_refl(b0);
        }
        match p {
            Pattern::Variable(name) => self.bind_at(name, arg, path),
            Pattern::List(subs) => {
                let mut k: usize = 0;
                while k < subs.len()
                    invariant
                        k <= subs@.len(),
                        self.wf(),
                        emitted(b0, self.bytecode@),
                        self.same_but_locals(old(self)),
                        *p == Pattern::List(*subs),
                        self.stack_depth == old(self).stack_depth + bound_counts(subs@.subrange(0, k as int), 1),
                    decreases subs@.len() - k,
                {
                    let ghost m = self.bytecode@;
                    proof {
                        lemma_counts_step(subs@, k as int, 1);
                        lemma_counts_mono(subs@, k + 1, 1);
                    }
                    self.bind_deep(&subs[k], arg, &path_with(path, Step::Elem(k)))?;
                    proof {
                        lemma_emitted_trans(b0, m, self.bytecode@);
                    }
                    k = k + 1;
                }
                assert(subs@.subrange(0, subs@.len() as int) =~= subs@);
                Ok(())
            },
            Pattern::DottedList(heads, tail) => {
                let mut k: usize = 0;
                while k < heads.len()
                    invariant
                        k <= heads@.len(),
                        self.wf(),
                        emitted(b0, self.bytecode@),
                        self.same_but_locals(old(self)),
                        *p == Pattern::DottedList(*heads, *tail),
                        self.stack_depth == old(self).stack_depth + bound_counts(heads@.subrange(0, k as int), 1),
                    decreases heads@.len() - k,
                {
                    let ghost m = self.bytecode@;
                    proof {
                        lemma_counts_step(heads@, k as int, 1);
                        lemma_counts_mono(heads@, k + 1, 1);
                    }
                    self.bind_deep(&heads[k], arg, &path_with(path, Step::Elem(k)))?;
                    proof {
                        lemma_emitted_trans(b0, m, self.bytecode@);
                    }
                    k = k + 1;
                }
                assert(heads@.subrange(0, heads@.len() as int) =~= heads@);
                let ghost m = self.bytecode@;
                self.bind_leaf(tail, arg, &path_with(path, Step::Rest(heads.len())))?;
                proof {
                    lemma_emitted_trans(b0, m, self.bytecode@);
                }
                Ok(())
            },
            _ => Ok(()),
        }
    }

    /// Binds the names of the pattern for what is left of an argument after
    /// `skip` elements.
    fn bind_tail(&mut self, p: &Pattern, arg: usize, skip: usize) -> (r: Result<(), CompileError>)
        requires
            old(self).wf(),
        ensures
            final(self).wf(),
            r is Ok ==> emitted(old(self).bytecode@, final(self).bytecode@) && final(self).same_but_locals(old(self)),
            r is Ok <==> old(self).stack_depth + bound_count(*p, 1) <= usize::MAX,
            r is Ok ==> final(self).stack_depth == old(self).stack_depth + bound_count(*p, 1),
    {
        let ghost b0 = self.bytecode@;
        proof {
            lemma_emitted_refl(b0);
        }
        let mut base: Vec<Step> = Vec::new();
        base.push(Step::Rest(skip));
        match p {
            Pattern::Variable(name) => self.bind_at(name, arg, &base),
            Pattern::List(subs) => {
                let mut k: usize = 0;
                while k < subs.len()
                    invariant
                        k <= subs@.len(),
                        self.wf(),
                        emitted(b0, self.bytecode@),
                        self.same_but_locals(old(self)),
                        *p == Pattern::List(*subs),
                        self.stack_depth == old(self).stack_depth + bound_counts(subs@.subrange(0, k as int), 0),
                    decreases subs@.len() - k,
                {
                    let ghost m = self.bytecode@;
                    proof {
                        lemma_counts_step(subs@, k as int, 0);
                        lemma_counts_mono(subs@, k + 1, 0);
                    }
                    self.bind_leaf(&subs[k], arg, &path_with(&base, Step::Elem(k)))?;
                    proof {
                        lemma_emitted_trans(b0, m, self.bytecode@);
                    }
                    k = k + 1;
                }
                assert(subs@.subrange(0, subs@.len() as int) =~= subs@);
                Ok(())
            },
            Pattern::DottedList(heads, tail) => {
                let mut k: usize = 0;
                while k < heads.len()
                    invariant
                        k <= heads@.len(),
                        self.wf(),
                        emitted(b0, self.bytecode@),
                        self.same_but_locals(old(self)),
                        *p == Pattern::DottedList(*heads, *tail),
                        self.stack_depth == old(self).stack_depth + bound_counts(heads@.subrange(0, k as int), 0),
                    decreases heads@.len() - k,
                {
                    let ghost m = self.bytecode@;
                    proof {
                        lemma_counts_step(heads@, k as int, 0);
                        lemma_counts_mono(heads@, k + 1, 0);
                    }
                    self.bind_leaf(&heads[k], arg, &path_with(&base, Step::Elem(k)))?;
                    proof {
                        lemma_emitted_trans(b0, m, self.bytecode@);
                    }
                    k = k + 1;
                }
                assert(heads@.subrange(0, heads@.len() as int) =~= heads@);
                let ghost m = self.bytecode@;
                self.bind_leaf(tail, arg, &path_with(&base, Step::Rest(heads.len())))?;
                proof {
                    lemma_emitted_trans(b0, m, self.bytecode@);
                }
                Ok(())
            },
            _ => Ok(()),
        }
    }

    /// Binds the names of an argument's pattern.
    fn bind_top(&mut self, p: &Pattern, arg: usize) -> (r: Result<(), CompileError>)
        requires
            old(self).wf(),
        ensures
            final(self).wf(),
            r is Ok ==> emitted(old(self).bytecode@, final(self).bytecode@) && final(self).same_but_locals(old(self)),
            r is Ok <==> old(self).stack_depth + bound_count(*p, 3) <= usize::MAX,
            r is Ok ==> final(self).stack_depth == old(self).stack_depth + bound_count(*p, 3),
    {
        let ghost b0 = self.bytecode@;
        proof {
            lemma_emitted_refl(b0);
        }
        let empty: Vec<Step> = Vec::new();
        match p {
            Pattern::Variable(name) => self.bind_at(name, arg, &empty),
            Pattern::List(subs) => {
                let mut k: usize = 0;
                while k < subs.len()
                    invariant
                        k <= subs@.len(),
                        self.wf(),
                        emitted(b0, self.bytecode@),
                        self.same_but_locals(old(self)),
                        *p == Pattern::List(*subs),
                        self.stack_depth == old(self).stack_depth + bound_counts(subs@.subrange(0, k as int), 2),
                    decreases subs@.len() - k,
                {
                    let ghost m = self.bytecode@;
                    proof {
                        lemma_counts_step(subs@, k as int, 2);
                        lemma_counts_mono(subs@, k + 1, 2);
                    }
                    self.bind_nested(&subs[k], arg, &path_with(&empty, Step::Elem(k)))?;
                    proof {
                        lemma_emitted_trans(b0, m, self.bytecode@);
                    }
                    k = k + 1;
                }
                assert(subs@.subrange(0, subs@.len() as int) =~= subs@);
                Ok(())
            },
            Pattern::DottedList(heads, tail) => {
                let mut k: usize = 0;
                while k < heads.len()
                    invariant
                        k <= heads@.len(),
                        self.wf(),
                        emitted(b0, self.bytecode@),
                        self.same_but_locals(old(self)),
                        *p == Pattern::DottedList(*heads, *tail),
                        self.stack_depth == old(self).stack_depth + bound_counts(heads@.subrange(0, k as int), 2),
                    decreases heads@.len() - k,
                {
                    let ghost m = self.bytecode@;
                    proof {
                        lemma_counts_step(heads@, k as int, 2);
                        lemma_counts_mono(heads@, k + 1, 2);
                    }
                    self.bind_nested(&heads[k], arg, &path_with(&empty, Step::Elem(k)))?;
                    proof {
                        lemma_emitted_trans(b0, m, self.bytecode@);
                    }
                    k = k + 1;
                }
                assert(heads@.subrange(0, heads@.len() as int) =~= heads@);
                let ghost m = self.bytecode@;
                self.bind_tail(tail, arg, heads.len())?;
                proof {
                    lemma_emitted_trans(b0, m, self.bytecode@);
                }
                Ok(())
            },
            _ => Ok(()),
        }
    }

    /// The test that a value equals a constant: the value (loaded by the
    /// path), the constant, `Eq`, and a jump away when they differ.
    fn check_equal(&mut self, arg: usize, path: &Vec<Step>, v: Value)
        requires
            old(self).wf(),
        ensures
            final(self).progressed(old(self)),
    {
        let ghost s0 = *self;
        self.emit_path(arg, path);
        let ghost s1 = *self;
        self.emit_plain(Instruction::Push(v));
        let ghost s2 = *self;
        self.emit_plain(Instruction::Eq);
        let ghost s3 = *self;
        self.emit_pattern_jump();
        proof {
            Self::lemma_progressed_trans(&s0, &s1, &s2);
            Self::lemma_progressed_trans(&s0, &s2, &s3);
            Self::lemma_progressed_trans(&s0, &s3, self);
        }
    }

    /// The tests of a pattern for an element of a list argument.
    fn check_elem(&mut self, p: &Pattern, arg: usize, i: usize)
        requires
            old(self).wf(),
        ensures
            final(self).progressed(old(self)),
    {
        let mut path: Vec<Step> = Vec::new();
        path.push(Step::Elem(i));
        match p {
            Pattern::Literal(v) => self.check_equal(arg, &path, copy_value(v)),
            Pattern::QuotedSymbol(sym) => self.check_equal(arg, &path, Value::Symbol(sym.clone())),
            Pattern::EmptyList => self.check_equal(arg, &path, Value::List(List::nil())),
            _ => {
                proof {
                    Self::lemma_progressed_refl(self);
                }
            },
        }
    }

    /// The tests of an argument's pattern; each failing test jumps away.
    fn check_arg(&mut self, p: &Pattern, arg: usize)
        requires
            old(self).wf(),
        ensures
            final(self).progressed(old(self)),
    {
        let ghost s0 = *self;
        let empty: Vec<Step> = Vec::new();
        proof {
            Self::lemma_progressed_refl(self);
        }
        match p {
            Pattern::Literal(v) => self.check_equal(arg, &empty, copy_value(v)),
            Pattern::QuotedSymbol(sym) => self.check_equal(arg, &empty, Value::Symbol(sym.clone())),
            Pattern::EmptyList => self.check_equal(arg, &empty, Value::List(List::nil())),
            Pattern::List(subs) => {
                self.check_shape(arg, subs.len(), false);
                let mut k: usize = 0;
                while k < subs.len()
                    invariant
                        k <= subs@.len(),
                        self.progressed(&s0),
                    decreases subs@.len() - k,
                {
                    let ghost m = *self;
                    self.check_elem(&subs[k], arg, k);
                    proof {
                        Self::lemma_progressed_trans(&s0, &m, self);
                    }
                    k = k + 1;
                }
            },
            Pattern::DottedList(heads, tail) => {
                self.check_shape(arg, heads.len(), true);
                let mut k: usize = 0;
                while k < heads.len()
                    invariant
                        k <= heads@.len(),
                        self.progressed(&s0),
                    decreases heads@.len() - k,
                {
                    let ghost m = *self;
                    self.check_elem(&heads[k], arg, k);
                    proof {
                        Self::lemma_progressed_trans(&s0, &m, self);
                    }
                    k = k + 1;
                }
                match &**tail {
                    Pattern::EmptyList => {
                        let mut path: Vec<Step> = Vec::new();
                        path.push(Step::Rest(heads.len()));
                        let ghost m = *self;
                        self.check_equal(arg, &path, Value::List(List::nil()));
                        proof {
                            Self::lemma_progressed_trans(&s0, &m, self);
                        }
                    },
                    _ => {},
                }
            },
            _ => {},
        }
    }

    /// The tests that an argument is a list, of exactly `n` elements (or at
    /// least `n` when `at_least`, where none is needed for zero).
    fn check_shape(&mut self, arg: usize, n: usize, at_least: bool)
        requires
            old(self).wf(),
        ensures
            final(self).progressed(old(self)),
    {
        let ghost s0 = *self;
        let empty: Vec<Step> = Vec::new();
        self.emit_path(arg, &empty);
        let ghost s1 = *self;
        self.emit_plain(Instruction::IsList);
        let ghost s2 = *self;
        self.emit_pattern_jump();
        proof {
            Self::lemma_progressed_trans(&s0, &s1, &s2);
            Self::lemma_progressed_trans(&s0, &s2, self);
        }
        if at_least && n == 0 {
            return;
        }
        let ghost s3 = *self;
        self.emit_path(arg, &empty);
        let ghost s4 = *self;
        self.emit_plain(Instruction::ListLength);
        let ghost s5 = *self;
        self.emit_plain(Instruction::Push(Value::Integer(#[verifier::truncate] (n as i64))));
        let ghost s6 = *self;
        self.emit_plain(if at_least { Instruction::Gte } else { Instruction::Eq });
        let ghost s7 = *self;
        self.emit_pattern_jump();
        proof {
            Self::lemma_progressed_trans(&s3, &s4, &s5);
            Self::lemma_progressed_trans(&s3, &s5, &s6);
            Self::lemma_progressed_trans(&s3, &s6, &s7);
            Self::lemma_progressed_trans(&s3, &s7, self);
            Self::lemma_progressed_trans(&s0, &s3, self);
        }
    }
}

impl Compiler {
    /// The patterns of the clause `((patterns ...) body)`.
    fn parse_clause(&self, expr: &SourceExpr) -> (r: Result<Vec<Pattern>, CompileError>)
        ensures
            r is Ok <==> expr.expr is List && expr.expr->List_0@.len() == 2 && self.clause_patterns_of(
                expr.expr->List_0@[0],
            ) is Some,
            r matches Ok(ps) ==> patterns_view(ps@) == self.clause_patterns_of(expr.expr->List_0@[0])->0,
    {
        let items = match &expr.expr {
            LispExpr::List(items) => items,
            _ => {
                return Err(error_at("Clause must be a list: ((patterns...) body)", &expr.location));
            },
        };
        if items.len() != 2 {
            return Err(error_at("Clause must have exactly 2 elements: ((patterns...) body)", &expr.location));
        }
        self.parse_patterns(&items[0])
    }

    /// A function of several clauses: each clause checks the number of
    /// arguments and their patterns, jumping to the next clause when one
    /// fails, binds the pattern names and runs its body; after the last
    /// clause comes a message that no clause matched.
    fn compile_multi_clause_defun(&mut self, fn_name: &String, items: &Vec<SourceExpr>, location: &Location) -> (r: Result<(), CompileError>)
        requires
            old(self).wf(),
            items@.len() >= 2,
        ensures
            final(self).wf(),
            r is Ok ==> final(self).bytecode@ == old(self).bytecode@,
            r is Ok ==> exists|code: Seq<InstrView>|
                #![trigger insert_entry(table_view(old(self).function_table()), old(self).qualified(fn_name@), code)]
                code.len() > 0 && code.last() == instr_view(Instruction::Halt) && table_view(final(self).function_table())
                    == insert_entry(table_view(old(self).function_table()), old(self).qualified(fn_name@), code),
            r is Ok ==> final(self).module_exports@ == old(self).module_exports@,
            r is Ok ==> final(self).current_module == old(self).current_module,
        decreases *items, 7int, 0int,
    {
        let mut clauses: Vec<Vec<Pattern>> = Vec::new();
        let mut k: usize = 2;
        while k < items.len()
            invariant
                2 <= k <= items@.len(),
                clauses@.len() == k - 2,
                self.wf(),
                self.bytecode@ == old(self).bytecode@,
            decreases items@.len() - k,
        {
            clauses.push(self.parse_clause(&items[k])?);
            k = k + 1;
        }
        if clauses.len() == 0 {
            return Err(error_at("defun requires at least one clause", location));
        }
        let mut max_arity: usize = 0;
        let mut c: usize = 0;
        while c < clauses.len()
            invariant
                c <= clauses@.len(),
            decreases clauses@.len() - c,
        {
            if clauses[c].len() > max_arity {
                max_arity = clauses[c].len();
            }
            c = c + 1;
        }
        let mut arg_names: Vec<String> = Vec::new();
        let mut a: usize = 0;
        while a < max_arity
            invariant
                a <= max_arity,
            decreases max_arity - a,
        {
            let mut name = owned("__arg");
            crate::text::push_usize(&mut name, a);
            arg_names.push(name);
            a = a + 1;
        }
        let ghost b0 = self.bytecode@;
        let mut saved_bytecode: Vec<Instruction> = Vec::new();
        std::mem::swap(&mut saved_bytecode, &mut self.bytecode);
        let mut saved_params = arg_names;
        std::mem::swap(&mut saved_params, &mut self.param_names);
        let mut saved_locals: Vec<(String, ValueLocation)> = Vec::new();
        std::mem::swap(&mut saved_locals, &mut self.local_bindings);
        let saved_address = self.instruction_address;
        let saved_tail = self.in_tail_position;
        let saved_depth = self.stack_depth;
        self.instruction_address = 0;
        self.stack_depth = 0;
        let n = clauses.len();
        let items_len = items.len();
        let mut ci: usize = 0;
        while ci < n
            invariant
                ci <= n,
                n == clauses@.len(),
                n + 2 == items@.len(),
                items_len == items@.len(),
                self.wf(),
                n > 0,
                self.functions@ == old(self).functions@,
                    self.module_exports@ == old(self).module_exports@,
                self.current_module == old(self).current_module,
                ci == n ==> self.bytecode@.len() > 0 && self.bytecode@.last() == Instruction::Halt,
            decreases n - ci,
        {
            let arity = clauses[ci].len();
            self.local_bindings = Vec::new();
            self.stack_depth = 0;
            let clause_start = self.bytecode.len();
            let ghost c0 = *self;
            self.emit(Instruction::CheckArity(arity, clause_start));
            proof {
                lemma_emitted_refl(c0.bytecode@);
                lemma_emit_plain(c0.bytecode@, c0.bytecode@, Instruction::CheckArity(arity, clause_start));
            }
            self.pattern_match_jumps = Vec::new();
            let ghost c1 = *self;
            proof {
                Self::lemma_progressed_refl(self);
            }
            let mut ai: usize = 0;
            while ai < arity
                invariant
                    ai <= arity,
                    arity == clauses@[ci as int]@.len(),
                    ci < clauses@.len(),
                    ci < n,
                    n + 2 == items@.len(),
                    items_len == items@.len(),
                    self.progressed(&c1),
                decreases arity - ai,
            {
                let ghost m = *self;
                self.check_arg(&clauses[ci][ai], ai);
                proof {
                    Self::lemma_progressed_trans(&c1, &m, self);
                }
                ai = ai + 1;
            }
            proof {
                lemma_emitted_trans(c0.bytecode@, c1.bytecode@, self.bytecode@);
                assert(c1.pattern_match_jumps@.len() == 0);
                assert(pending_in(self.pattern_match_jumps@, c0.bytecode@.len() as int, self.bytecode@.len() as int));
            }
            let ghost c2 = *self;
            let mut ai: usize = 0;
            while ai < arity
                invariant
                    ai <= arity,
                    arity == clauses@[ci as int]@.len(),
                    ci < clauses@.len(),
                    ci < n,
                    n + 2 == items@.len(),
                    items_len == items@.len(),
                    self.wf(),
                    emitted(c0.bytecode@, self.bytecode@),
                    c2.bytecode@.len() <= self.bytecode@.len(),
                    self.pattern_match_jumps@ == c2.pattern_match_jumps@,
                    self.functions@ == old(self).functions@,
                    self.module_exports@ == old(self).module_exports@,
                    self.current_module == old(self).current_module,
                decreases arity - ai,
            {
                let ghost m = self.bytecode@;
                self.bind_top(&clauses[ci][ai], ai)?;
                proof {
                    lemma_emitted_trans(c0.bytecode@, m, self.bytecode@);
                }
                ai = ai + 1;
            }
            self.in_tail_position = true;
            let ghost m = self.bytecode@;
            match &items[ci + 2].expr {
                LispExpr::List(parts) => {
                    if parts.len() == 2 {
                        self.compile_expr(&parts[1])?;
                    }
                },
                _ => {},
            }
            proof {
                if self.bytecode@ == m {
                    lemma_emitted_refl(m);
                }
                lemma_emitted_trans(c0.bytecode@, m, self.bytecode@);
            }
            if self.stack_depth > 0 {
                let ghost m2 = self.bytecode@;
                self.emit(Instruction::Slide(self.stack_depth));
                proof {
                    lemma_emit_plain(c0.bytecode@, m2, self.bytecode@.last());
                    assert(self.bytecode@ =~= m2.push(self.bytecode@.last()));
                }
            }
            let ghost m3 = self.bytecode@;
            self.emit(Instruction::Ret);
            proof {
                lemma_emit_plain(c0.bytecode@, m3, Instruction::Ret);
            }
            let target = self.instruction_address;
            proof {
                assert(self.pattern_match_jumps@ == c2.pattern_match_jumps@);
                assert(pending_in(self.pattern_match_jumps@, c0.bytecode@.len() as int, target as int));
            }
            let ghost m4 = self.bytecode@;
            self.patch(clause_start, Instruction::CheckArity(arity, target));
            proof {
                lemma_patch(c0.bytecode@, m4, clause_start as int, Instruction::CheckArity(arity, target));
            }
            let mut j: usize = 0;
            while j < self.pattern_match_jumps.len()
                invariant
                    self.wf(),
                    emitted(c0.bytecode@, self.bytecode@),
                    target == self.bytecode@.len(),
                    pending_in(self.pattern_match_jumps@, c0.bytecode@.len() as int, target as int),
                    self.functions@ == old(self).functions@,
                    self.module_exports@ == old(self).module_exports@,
                    self.current_module == old(self).current_module,
                decreases self.pattern_match_jumps@.len() - j,
            {
                let idx = self.pattern_match_jumps[j];
                let ghost m5 = self.bytecode@;
                self.patch(idx, Instruction::JmpIfFalse(target));
                proof {
                    lemma_patch(c0.bytecode@, m5, idx as int, Instruction::JmpIfFalse(target));
                }
                j = j + 1;
            }
            if ci + 1 == n {
                let msg = text3("No matching clause in function '", fn_name.as_str(), "'");
                self.emit_plain(Instruction::Push(Value::String(msg)));
                self.emit_plain(Instruction::Print);
                self.emit_plain(Instruction::Halt);
            }
            ci = ci + 1;
        }
        let mut fn_bytecode: Vec<Instruction> = Vec::new();
        std::mem::swap(&mut fn_bytecode, &mut self.bytecode);
        let qualified_name = self.qualify(fn_name.as_str());
        let ghost code = instrs_view(fn_bytecode@);
        proof {
            lemma_instrs_view_ext(fn_bytecode@);
        }
        assert(code.len() > 0);
        assert(code.last() == instr_view(Instruction::Halt));
        assert(qualified_name@ == old(self).qualified(fn_name@));
        insert_function(&mut self.functions, qualified_name, fn_bytecode);
        assert(table_view(self.functions@) == insert_entry(table_view(old(self).function_table()), old(self).qualified(fn_name@), code));
        self.bytecode = saved_bytecode;
        self.param_names = saved_params;
        self.local_bindings = saved_locals;
        self.instruction_address = saved_address;
        self.in_tail_position = saved_tail;
        self.stack_depth = saved_depth;
        Ok(())
    }
}

impl Compiler {
    /// The bit pattern of a float literal's text.
    fn float_value(&self, t: &String) -> (r: Option<u64>)
        ensures
            r == float_text_value(self.float_bits@, t@),
    {
        match find_key(&self.float_bits, t.as_str()) {
            Some(i) => {
                return Some(self.float_bits[i].1);
            },
            None => {},
        }
        let cs = chars_of(t.as_str());
        if cs.len() < 9 {
            return None;
        }
        let head = sub_chars(&cs, 0, 9);
        if !chars_eq_str(&head, "__FLOAT__") {
            return None;
        }
        let rest = sub_chars(&cs, 9, cs.len());
        match parse_int(&rest) {
            Some(v) => Some(#[verifier::truncate] (v as u64)),
            None => None,
        }
    }

    /// The expression a value a macro gave back stands for.
    fn value_to_expr(&self, value: &Value) -> (r: Result<SourceExpr, CompileError>)
        ensures
            r is Ok <==> quotable(*value),
            r matches Ok(e) ==> source_view(e) == (SourceView { expr: quoted_expr(*value), loc: unknown_loc() }),
        decreases *value, 1int,
    {
        let expr = match value {
            Value::Integer(n) => LispExpr::Number(*n),
            Value::Float(bits) => {
                let mut t = owned("__FLOAT__");
                push_chars(&mut t, &i64_decimal(#[verifier::truncate] (*bits as i64)));
                LispExpr::Float(t)
            },
            Value::Boolean(b) => LispExpr::Boolean(*b),
            Value::Symbol(s) => LispExpr::Symbol(s.clone()),
            Value::String(s) => LispExpr::Symbol(text2("__STRING__", s.as_str())),
            Value::List(l) => LispExpr::List(self.values_to_exprs(&l.items)?),
            Value::Function(name) => LispExpr::Symbol(name.clone()),
            Value::Closure(_) => {
                return Err(CompileError::new(owned("Cannot convert closure to expression in macro expansion"), Location::unknown()));
            },
            Value::HashMap(_) => {
                return Err(CompileError::new(owned("Cannot convert hashmap to expression in macro expansion"), Location::unknown()));
            },
            Value::Vector(_) => {
                return Err(CompileError::new(owned("Cannot convert vector to expression in macro expansion"), Location::unknown()));
            },
            Value::Pointer(_) => {
                return Err(CompileError::new(owned("Cannot convert pointer to expression in macro expansion"), Location::unknown()));
            },
        };
        Ok(SourceExpr { expr, location: Location::unknown() })
    }

    /// The expressions values stand for.
    fn values_to_exprs(&self, items: &Vec<Value>) -> (r: Result<Vec<SourceExpr>, CompileError>)
        ensures
            r is Ok <==> quotable_all(items@),
            r matches Ok(es) ==> sources_view(es@) == quoted_exprs(items@),
        decreases *items, 0int,
    {
        proof {
            lemma_quoted_exprs(items@);
        }
        let mut exprs: Vec<SourceExpr> = Vec::new();
        let mut k: usize = 0;
        while k < items.len()
            invariant
                k <= items@.len(),
                exprs@.len() == k,
                forall|j: int| 0 <= j < k ==> quotable(#[trigger] items@[j]),
                forall|j: int| 0 <= j < k ==> source_view(#[trigger] exprs@[j]) == quoted_exprs(items@)[j],
                quoted_exprs(items@).len() == items@.len(),
                forall|i: int| 0 <= i < items@.len() ==> #[trigger] quoted_exprs(items@)[i] == (SourceView { expr: quoted_expr(items@[i]), loc: unknown_loc() }),
                quotable_all(items@) <==> forall|i: int| 0 <= i < items@.len() ==> #[trigger] quotable(items@[i]),
            decreases items@.len() - k,
        {
            let e = self.value_to_expr(&items[k]);
            match e {
                Ok(x) => {
                    exprs.push(x);
                },
                Err(err) => {
                    assert(!quotable(items@[k as int]));
                    return Err(err);
                },
            }
            k = k + 1;
        }
        proof {
            lemma_sources_view_len(exprs@);
            assert forall|j: int| 0 <= j < exprs@.len() implies sources_view(exprs@)[j] == quoted_exprs(items@)[j] by {
                lemma_sources_view_index(exprs@, j);
            }
            assert(sources_view(exprs@) =~= quoted_exprs(items@));
        }
        Ok(exprs)
    }

    /// Expands a macro call `items` (the name first): the body, compiled by
    /// a compiler of its own with the parameters as arguments, runs on a
    /// machine of its own with the arguments quoted, and the value it leaves
    /// becomes the expression. The caller has counted the expansion.
    fn expand_macro(&mut self, params: &Vec<String>, body: &SourceExpr, items: &Vec<SourceExpr>) -> (r: Result<SourceExpr, CompileError>)
        requires
            old(self).wf(),
            items@.len() >= 1,
        ensures
            final(self).wf(),
            r is Ok ==> final(self).extends(old(self)),
            items@.len() - 1 != params@.len() ==> r is Err,
            ({
                &&& items@.len() - 1 == params@.len()
                &&& (body.expr is Number || body.expr is Boolean)
                &&& forall|j: int|
                    1 <= j < items@.len() ==> (#[trigger] quoted(old(self).float_bits@, source_view(items@[j]))) is Some
            }) ==> (r matches Ok(e) && source_view(e).expr == (if body.expr is Number {
                ExprView::Number(body.expr->Number_0)
            } else {
                ExprView::Boolean(body.expr->Boolean_0)
            })),
        decreases self.budget(), *body, 11int, 0int,
    {
        let n = items.len() - 1;
        if n != params.len() {
            let mut m = owned("Macro arity mismatch: expected ");
            crate::text::push_usize(&mut m, params.len());
            push_str(&mut m, ", got ");
            crate::text::push_usize(&mut m, n);
            return Err(CompileError::new(m, Location::unknown()));
        }
        let mut mc = Compiler::new();
        mc.macro_budget = self.macro_budget;
        let mut k: usize = 0;
        while k < self.float_bits.len()
            invariant
                k <= self.float_bits@.len(),
                mc.wf(),
                mc.macro_budget == self.macro_budget,
                mc.bytecode@.len() == 0,
            decreases self.float_bits@.len() - k,
        {
            mc.float_bits.push((self.float_bits[k].0.clone(), self.float_bits[k].1));
            k = k + 1;
        }
        mc.param_names = copy_names(params);
        mc.symbols_made = self.symbols_made;
        mc.compile_expr(body)?;
        mc.emit(Instruction::Halt);
        self.symbols_made = mc.symbols_made;
        let code = mc.bytecode;
        let ghost constant_body = body.expr is Number || body.expr is Boolean;
        let ghost v = if body.expr is Number {
            ValueView::Integer(body.expr->Number_0)
        } else {
            ValueView::Boolean(body.expr->Boolean_0)
        };
        proof {
            if constant_body {
                lemma_instrs_view_ext(code@);
                assert(instrs_view(code@) =~= seq![InstrView::Push(v), instr_view(Instruction::Halt)]);
            }
        }
        let mut args: Vec<Value> = Vec::new();
        let mut k: usize = 1;
        while k < items.len()
            invariant
                1 <= k <= items@.len(),
                self.wf(),
                self.float_bits@ == old(self).float_bits@,
            decreases items@.len() - k,
        {
            let a = self.expr_to_value(&items[k]);
            match a {
                Ok(x) => {
                    args.push(x);
                },
                Err(e) => {
                    assert(quoted(old(self).float_bits@, source_view(items@[k as int])) is None);
                    return Err(e);
                },
            }
            k = k + 1;
        }
        let mut vm = VM::new();
        vm.current_bytecode = code;
        let mut frame = Frame::new(0, Vec::new(), owned("<macro>"), 0);
        frame.locals = args;
        vm.call_stack.push(frame);
        let ghost m0 = vm.state();
        let ghost n0 = self.symbols_made;
        let run = run_to_halt(&mut vm, &mut self.symbols_made);
        proof {
            if constant_body {
                let out = if run is Ok {
                    Ok::<(MachineView, u64), Seq<char>>((vm.state(), self.symbols_made))
                } else {
                    Err::<(MachineView, u64), Seq<char>>(run->Err_0@)
                };
                lemma_constant_run(m0, v, n0, out);
                assert(values_view(vm.value_stack@) == seq![v]);
                lemma_values_view_len(vm.value_stack@);
            }
        }
        match run {
            Ok(()) => {},
            Err(message) => {
                return Err(CompileError::new(text2("Macro expansion failed: ", message.as_str()), Location::unknown()));
            },
        }
        let ghost before_pop = vm.value_stack@;
        match vm.value_stack.pop() {
            Some(result) => {
                proof {
                    if constant_body {
                        lemma_values_view_index(before_pop, 0);
                        assert(value_view(result) == v);
                    }
                }
                let e = self.value_to_expr(&result)?;
                proof {
                    lemma_emitted_refl(self.bytecode@);
                }
                Ok(e)
            },
            None => Err(CompileError::new(owned("Macro expansion produced no value"), Location::unknown())),
        }
    }
}

/// How many steps a macro's code may take.
pub const MACRO_STEP_LIMIT: u64 = 100000000;

/// Whether the machine stands at an instruction that waits for its host,
/// with its operands on the stack.
pub open spec fn waits_for_host(m: MachineView) -> bool {
    &&& m.ip < m.code.len()
    &&& m.code[m.ip as int] is Simple
    &&& is_request_op(m.code[m.ip as int]->Simple_0)
    &&& m.stack.len() >= request_arity(m.code[m.ip as int]->Simple_0)
}

/// The machine after the fresh symbol numbered `n` answers its request.
pub open spec fn given_symbol(m: MachineView, n: u64) -> MachineView {
    m.with_stack(
        drop_top(m.stack, request_arity(m.code[m.ip as int]->Simple_0)).push(
            ValueView::Symbol("G__"@ + decimal(n as nat)),
        ),
    ).advanced()
}

/// Whether a run of at most `fuel` steps from `m`, with `n` fresh symbols
/// made so far, may end in `out`: the halted machine and the count, or the
/// message the run stops with. A number drawn at random (or a clock read)
/// may be any that the instruction allows.
pub open spec fn run_may_end(m: MachineView, n: u64, fuel: nat, out: Result<(MachineView, u64), Seq<char>>) -> bool
    decreases fuel,
{
    if m.halted {
        out == Ok::<(MachineView, u64), Seq<char>>((m, n))
    } else if fuel == 0 {
        out == Err::<(MachineView, u64), Seq<char>>("step limit reached"@)
    } else if !step_fits(m) {
        out == Err::<(MachineView, u64), Seq<char>>("integer overflow"@)
    } else {
        match step(m) {
            Outcome::Next(m2) => run_may_end(m2, n, (fuel - 1) as nat, out),
            Outcome::Output(m2, _) => run_may_end(m2, n, (fuel - 1) as nat, out),
            Outcome::Float(..) => out == Err::<(MachineView, u64), Seq<char>>("floating-point arithmetic needs the host"@),
            Outcome::Ask(q) => if q is Symbol {
                if n == u64::MAX || !waits_for_host(m) {
                    out == Err::<(MachineView, u64), Seq<char>>("no fresh symbol is left"@)
                } else {
                    run_may_end(given_symbol(m, n), (n + 1) as u64, (fuel - 1) as nat, out)
                }
            } else {
                out == Err::<(MachineView, u64), Seq<char>>("the instruction needs the host"@)
            },
            Outcome::Drawn(m2, d) => {
                ||| exists|v: i64|
                    #![trigger m2.with_stack(m2.stack.push(ValueView::Integer(v)))]
                    (match d {
                        DrawView::Below(k) => 0 <= v < k,
                        DrawView::Clock => true,
                    }) && run_may_end(
                        m2.with_stack(m2.stack.push(ValueView::Integer(v))).advanced(),
                        n,
                        (fuel - 1) as nat,
                        out,
                    )
                ||| d is Clock && out is Err && out->Err_0.len() >= 19 && out->Err_0.subrange(0, 19)
                    == "System time error: "@
            },
            Outcome::Failed(msg) => out == Err::<(MachineView, u64), Seq<char>>(msg),
            Outcome::FailedAfter(msg, _) => out == Err::<(MachineView, u64), Seq<char>>(msg),
        }
    }
}

/// A run of the code `[Push(v), Halt]` from its start, with nothing on the
/// stack and no resumption pending, halts with `v` alone on the stack and
/// makes no fresh symbol.
proof fn lemma_constant_run(m0: MachineView, v: ValueView, n: u64, out: Result<(MachineView, u64), Seq<char>>)
    requires
        m0.ip == 0,
        m0.stack.len() == 0,
        !m0.halted,
        m0.resumes.len() == 0,
        m0.code == seq![InstrView::Push(v), instr_view(Instruction::Halt)],
        run_may_end(m0, n, MACRO_STEP_LIMIT as nat, out),
    ensures
        out is Ok,
        out->Ok_0.0.stack == seq![v],
        out->Ok_0.1 == n,
{
    let m1 = m0.with_stack(m0.stack.push(v)).advanced();
    assert(step_fits(m0));
    assert(step(m0) == Outcome::Next(m1));
    assert(run_may_end(m1, n, (MACRO_STEP_LIMIT - 1) as nat, out));
    assert(instr_view(Instruction::Halt) == InstrView::Simple(12u8));
    assert(m1.code[m1.ip as int] == InstrView::Simple(12u8));
    assert(step_fits(m1));
    let m2 = MachineView { halted: true, ..m1 };
    assert(step(m1) == Outcome::Next(m2));
    assert(run_may_end(m2, n, (MACRO_STEP_LIMIT - 2) as nat, out));
    assert(m2.stack =~= seq![v]);
}

/// Runs a machine until it halts, making fresh symbols for `gensym` from the
/// count `symbols`. A step that would overflow, other work for the host
/// (floating point, files, time), an error, or running past the step limit
/// ends the run with a message; printed values are dropped.
#[verifier::rlimit(100)]
#[verifier::spinoff_prover]
pub fn run_to_halt(vm: &mut VM, symbols: &mut u64) -> (r: Result<(), String>)
    ensures
        r is Ok ==> final(vm).halted,
        run_may_end(
            old(vm).state(),
            *old(symbols),
            MACRO_STEP_LIMIT as nat,
            match r {
                Ok(_) => Ok::<(MachineView, u64), Seq<char>>((final(vm).state(), *final(symbols))),
                Err(e) => Err::<(MachineView, u64), Seq<char>>(e@),
            },
        ),
{
    let mut steps: u64 = 0;
    while !vm.halted
        invariant
            steps <= MACRO_STEP_LIMIT,
            forall|out: Result<(MachineView, u64), Seq<char>>|
                #[trigger] run_may_end(vm.state(), *symbols, (MACRO_STEP_LIMIT - steps) as nat, out) ==> run_may_end(
                    old(vm).state(),
                    *old(symbols),
                    MACRO_STEP_LIMIT as nat,
                    out,
                ),
        decreases MACRO_STEP_LIMIT - steps,
    {
        let ghost m0 = vm.state();
        let ghost n0 = *symbols;
        let ghost fuel = (MACRO_STEP_LIMIT - steps) as nat;
        if steps == MACRO_STEP_LIMIT {
            let msg = owned("step limit reached");
            assert(run_may_end(m0, n0, fuel, Err::<(MachineView, u64), Seq<char>>(msg@)));
            return Err(msg);
        }
        if !vm.next_step_fits() {
            let msg = owned("integer overflow");
            assert(run_may_end(m0, n0, fuel, Err::<(MachineView, u64), Seq<char>>(msg@)));
            return Err(msg);
        }
        let res = vm.execute_one_instruction();
        let ghost m1 = vm.state();
        match res {
            Ok(Effect::Continue) => {
                assert forall|out: Result<(MachineView, u64), Seq<char>>|
                    #[trigger] run_may_end(vm.state(), *symbols, (fuel - 1) as nat, out) implies run_may_end(m0, n0, fuel, out) by {
                    match step(m0) {
                        Outcome::Drawn(m2, d) => {
                            let v = m1.stack.last()->Integer_0;
                            assert(m1 == m2.with_stack(m2.stack.push(ValueView::Integer(v))).advanced());
                        },
                        _ => {},
                    }
                }
            },
            Ok(Effect::Print(_)) => {
                assert forall|out: Result<(MachineView, u64), Seq<char>>|
                    #[trigger] run_may_end(vm.state(), *symbols, (fuel - 1) as nat, out) implies run_may_end(m0, n0, fuel, out) by {}
            },
            Ok(Effect::FloatArithmetic(..)) => {
                let msg = owned("floating-point arithmetic needs the host");
                assert(run_may_end(m0, n0, fuel, Err::<(MachineView, u64), Seq<char>>(msg@)));
                return Err(msg);
            },
            Ok(Effect::Request(Request::Symbol)) => {
                assert(step(m0) == Outcome::Ask(RequestView::Symbol));
                assert(vm.awaits_answer() == waits_for_host(m0)) by {
                    crate::instructions::lemma_instrs_view_len(vm.current_bytecode@);
                }
                if *symbols == u64::MAX || !vm.is_awaiting_answer() {
                    let msg = owned("no fresh symbol is left");
                    assert(run_may_end(m0, n0, fuel, Err::<(MachineView, u64), Seq<char>>(msg@)));
                    return Err(msg);
                }
                vm.answer(gensym_symbol(*symbols));
                *symbols = *symbols + 1;
                assert(vm.state() == given_symbol(m0, n0));
                assert forall|out: Result<(MachineView, u64), Seq<char>>|
                    #[trigger] run_may_end(vm.state(), *symbols, (fuel - 1) as nat, out) implies run_may_end(m0, n0, fuel, out) by {}
            },
            Ok(Effect::Request(q)) => {
                let msg = owned("the instruction needs the host");
                assert(run_may_end(m0, n0, fuel, Err::<(MachineView, u64), Seq<char>>(msg@)));
                return Err(msg);
            },
            Err(e) => {
                assert(run_may_end(m0, n0, fuel, Err::<(MachineView, u64), Seq<char>>(e.message@)));
                return Err(e.message);
            },
        }
        steps = steps + 1;
        assert forall|out: Result<(MachineView, u64), Seq<char>>|
            #[trigger] run_may_end(vm.state(), *symbols, (MACRO_STEP_LIMIT - steps) as nat, out) implies run_may_end(
                old(vm).state(),
                *old(symbols),
                MACRO_STEP_LIMIT as nat,
                out,
            ) by {
            assert((MACRO_STEP_LIMIT - steps) as nat == (fuel - 1) as nat);
            assert(run_may_end(m0, n0, fuel, out));
        }
    }
    assert(run_may_end(vm.state(), *symbols, (MACRO_STEP_LIMIT - steps) as nat, Ok::<(MachineView, u64), Seq<char>>((vm.state(), *symbols))));
    Ok(())
}

impl Compiler {
    /// What `macroexpand` expands: the quoted expression, or the form itself.
    spec fn macroexpand_target(form: SourceExpr) -> SourceExpr {
        if form.expr is List && form.expr->List_0@.len() == 2 && form.expr->List_0@[0].expr is Symbol
            && form.expr->List_0@[0].expr->Symbol_0@ == "quote"@ {
            form.expr->List_0@[1]
        } else {
            form
        }
    }

    /// Whether an expression is a call of a defined macro.
    spec fn is_macro_call(&self, e: SourceExpr) -> bool {
        &&& e.expr is List
        &&& e.expr->List_0@.len() > 0
        &&& e.expr->List_0@[0].expr is Symbol
        &&& has_key(self.macros@, e.expr->List_0@[0].expr->Symbol_0@)
    }

    /// `(macroexpand form)`: the form (unquoted if quoted), expanded once
    /// when it is a macro call, as a constant.
    fn compile_macroexpand(&mut self, form: &SourceExpr) -> (r: Result<(), CompileError>)
        requires
            old(self).wf(),
        ensures
            final(self).wf(),
            r is Ok ==> final(self).extends(old(self)),
            !old(self).is_macro_call(Self::macroexpand_target(*form)) ==> (r is Ok <==> quoted(
                old(self).float_bits@,
                source_view(Self::macroexpand_target(*form)),
            ) is Some),
            !old(self).is_macro_call(Self::macroexpand_target(*form)) && r is Ok ==> {
                &&& final(self).code().len() == old(self).code().len() + 1
                &&& final(self).code().last() is Push
                &&& value_view(final(self).code().last()->Push_0) == quoted(
                    old(self).float_bits@,
                    source_view(Self::macroexpand_target(*form)),
                )->0
            },
        decreases self.budget(), *form, 9int, 0int,
    {
        let actual = match &form.expr {
            LispExpr::List(q) => if q.len() == 2 && is_symbol_text(&q[0], "quote") {
                &q[1]
            } else {
                form
            },
            _ => form,
        };
        let ghost b0 = self.bytecode@;
        let macro_call = match &actual.expr {
            LispExpr::List(fitems) => if fitems.len() > 0 {
                match symbol_of(&fitems[0]) {
                    Some(name) => find_key(&self.macros, name.as_str()),
                    None => None,
                }
            } else {
                None
            },
            _ => None,
        };
        let value = match (macro_call, &actual.expr) {
            (Some(mi), LispExpr::List(fitems)) => {
                let params = copy_names(&self.macros[mi].1.params);
                let body = copy_source(&self.macros[mi].1.body);
                if self.macro_budget == 0 {
                    return Err(CompileError::new(owned("Macro expansion limit reached"), Location::unknown()));
                }
                self.macro_budget = self.macro_budget - 1;
                let expanded = self.expand_macro(&params, &body, fitems)?;
                self.expr_to_value(&expanded)?
            },
            _ => self.expr_to_value(actual)?,
        };
        proof {
            if self.bytecode@ == b0 {
                lemma_emitted_refl(b0);
            }
        }
        let ghost s1 = *self;
        self.emit_plain(Instruction::Push(value));
        proof {
            lemma_emitted_trans(b0, s1.bytecode@, self.bytecode@);
        }
        Ok(())
    }
}
} // verus!
