use vstd::prelude::*;
use crate::instructions::{Instruction, InstrView, instrs_view, lemma_instrs_view_len, lemma_instrs_view_index};
use crate::value::{Value, ValueView, value_view, values_view, lemma_values_view_len, lemma_values_view_index, copy_value};
use crate::machine::{
    VM, MachineView, Outcome, Effect, step_matches, drop_top, lookup, is_number, simple_name, OP_LOAD_ARG,
    failure, function_index, lemma_last_view, simple_name_str,
};
use crate::instructions::{opcode_of_simple, simple_opcode, index_opcode, lemma_classify, lemma_simple_view, lemma_indexed_view};
use crate::bytecode::{table_view, lemma_key_index, FunctionTable};
use crate::value::{names_view, opt_name_view, lemma_values_view_ext, copy_values, copy_instructions, copy_names, List};
use crate::machine::{Frame, FrameView, frames_view, frame_view};
use crate::ffi::{type_name_of, value_type_name};
use crate::text::{signed_decimal, decimal, owned, text2, text3, push_str, push_chars, i64_decimal, u64_decimal};
use crate::errors::RuntimeError;

verus! {
broadcast use vstd::std_specs::vec::axiom_vec_decreases_to_view;

// ---------------------------------------------------------------------------
// Outside types

#[verifier::external_type_specification]
#[verifier::external_body]
pub struct ExThreadRng(rand::rngs::ThreadRng);

#[verifier::external_type_specification]
#[verifier::external_body]
pub struct ExSystemTime(std::time::SystemTime);

// ---------------------------------------------------------------------------
// Outside calls

/// `rand::thread_rng`: the generator of the current thread, seeded by the
/// operating system (it panics if the system cannot seed it). Nothing is
/// claimed of its state.
#[verifier::external_body]
fn thread_rng() -> (r: rand::rngs::ThreadRng) {
    rand::thread_rng()
}

/// `Rng::gen_range(0..max)`: a number drawn from `0..max`. The range is
/// empty, and the call panics, unless `max` is positive. Which number comes
/// out is left open.
#[verifier::external_body]
fn gen_below(rng: &mut rand::rngs::ThreadRng, max: i64) -> (r: i64)
    requires
        0 < max,
    ensures
        0 <= r < max,
{
    rand::Rng::gen_range(rng, 0..max)
}

/// `SystemTime::now()`: the time of the system clock; nothing is claimed of
/// it.
#[verifier::external_body]
fn system_now() -> (r: std::time::SystemTime) {
    std::time::SystemTime::now()
}

/// `SystemTime::duration_since(UNIX_EPOCH)`, in whole seconds: the error's
/// text when the time lies before the epoch. Nothing is claimed of the
/// number.
#[verifier::external_body]
fn seconds_since_epoch(t: &std::time::SystemTime) -> (r: Result<u64, String>) {
    match t.duration_since(std::time::UNIX_EPOCH) {
        Ok(d) => Ok(d.as_secs()),
        Err(e) => Err(e.to_string()),
    }
}

// ---------------------------------------------------------------------------
// What the machine asks of its host

/// Work the machine hands to its host: floating-point computation, files,
/// date formatting, random floats and fresh symbols. The operands stay on
/// the stack until the host answers with `answer`.
pub enum RequestView {
    /// The float computation of the instruction with this opcode on these
    /// numbers.
    Math(u8, Seq<ValueView>),
    ReadFile(Seq<char>),
    WriteFile(Seq<char>, Seq<char>),
    FileExists(Seq<char>),
    WriteBytes(Seq<char>, Seq<u8>),
    /// A timestamp in seconds and a `strftime`-style format.
    FormatTime(i64, Seq<char>),
    Random,
    /// The number of a fresh symbol (see `gensym_symbol`).
    Symbol,
    /// The text of the file at the path, for `load` (`false`) or `require`
    /// (`true`); see `run_loaded`.
    LoadSource(Seq<char>, bool),
    /// The compiling and running of source text (see `run_eval`).
    Eval(Seq<char>),
    /// The results of calling the code on each item, each call in a machine
    /// of its own (see `start_call`), as a list.
    MapEach(CallView, Seq<ValueView>),
    /// The items for whose call the code gives `true` (see `kept_items`).
    Filter(CallView, Seq<ValueView>),
    /// The value that calling the code on the running value and each item in
    /// turn leaves, from the initial value (the third part).
    Reduce(CallView, Seq<ValueView>, ValueView),
}

/// Code to call: its instructions, parameters and rest parameter.
pub struct CallView {
    pub code: Seq<InstrView>,
    pub params: Seq<Seq<char>>,
    pub rest: Option<Seq<char>>,
}

/// Code to call, as the host receives it.
pub struct Call {
    pub code: Vec<Instruction>,
    pub params: Vec<String>,
    pub rest: Option<String>,
}

pub open spec fn call_view(c: Call) -> CallView {
    CallView { code: instrs_view(c.code@), params: names_view(c.params@), rest: opt_name_view(c.rest) }
}

/// A request, as the host receives it.
pub enum Request {
    Math(u8, Vec<Value>),
    ReadFile(String),
    WriteFile(String, String),
    FileExists(String),
    WriteBytes(String, Vec<u8>),
    FormatTime(i64, String),
    Random,
    Symbol,
    LoadSource(String, bool),
    Eval(String),
    MapEach(Call, Vec<Value>),
    Filter(Call, Vec<Value>),
    Reduce(Call, Vec<Value>, Value),
}

pub open spec fn request_view(q: Request) -> RequestView {
    match q {
        Request::Math(op, args) => RequestView::Math(op, values_view(args@)),
        Request::ReadFile(p) => RequestView::ReadFile(p@),
        Request::WriteFile(p, c) => RequestView::WriteFile(p@, c@),
        Request::FileExists(p) => RequestView::FileExists(p@),
        Request::WriteBytes(p, b) => RequestView::WriteBytes(p@, b@),
        Request::FormatTime(t, f) => RequestView::FormatTime(t, f@),
        Request::Random => RequestView::Random,
        Request::Symbol => RequestView::Symbol,
        Request::LoadSource(p, req) => RequestView::LoadSource(p@, req),
        Request::Eval(t) => RequestView::Eval(t@),
        Request::MapEach(c, items) => RequestView::MapEach(call_view(c), values_view(items@)),
        Request::Filter(c, items) => RequestView::Filter(call_view(c), values_view(items@)),
        Request::Reduce(c, items, init) => RequestView::Reduce(call_view(c), values_view(items@), value_view(init)),
    }
}

/// What a value the machine draws from outside may be: a number below a
/// bound (from the random generator), or any number of seconds (from the
/// system clock).
pub enum DrawView {
    Below(i64),
    Clock,
}

/// The instructions that go outside the machine, or look at what a
/// function is.
pub open spec fn is_request_op(op: u8) -> bool {
    op == 45 || op == 46 || op == 47 || op == 49 || op == 79 || op == 80 || (83 <= op <= 93) || (97 <= op
        <= 104) || op == 109 || op == 110 || (115 <= op <= 118)
}

/// How many values such an instruction takes from the stack.
pub open spec fn request_arity(op: u8) -> nat {
    if op == 118 {
        3
    } else if op == 46 || op == 49 || op == 91 || op == 99 || op == 110 || op == 116 || op == 117 {
        2
    } else if op == 102 || op == 109 || op == 115 {
        0
    } else {
        1
    }
}

/// The instruction's name in the language, as type errors give it.
pub open spec fn request_name(op: u8) -> Seq<char> {
    if op == 45 { "read-file"@ } else if op == 46 { "write-file"@ } else if op == 47 { "file-exists?"@ }
    else if op == 79 { "load"@ } else if op == 80 { "require"@ }
    else if op == 49 { "write-binary-file"@ } else if op == 83 { "int->float"@ } else if op == 84 { "float->int"@ }
    else if op == 85 { "sqrt"@ } else if op == 86 { "sin"@ } else if op == 87 { "cos"@ } else if op == 88 { "floor"@ }
    else if op == 89 { "ceil"@ } else if op == 90 { "abs"@ } else if op == 91 { "pow"@ } else if op == 92 { "eval"@ }
    else if op == 93 { "function-arity"@ } else if op == 97 { "tan"@ } else if op == 98 { "atan"@ }
    else if op == 99 { "atan2"@ } else if op == 100 { "log"@ } else if op == 101 { "exp"@ }
    else if op == 103 { "random-int"@ } else if op == 104 { "seed-random"@ } else { "format-timestamp"@ }
}

/// The bytes of a list of integers from 0 to 255, or the type of the
/// first item that is not one.
pub open spec fn byte_values(items: Seq<ValueView>) -> Result<Seq<u8>, Seq<char>>
    decreases items.len(),
{
    if items.len() == 0 {
        Ok(Seq::empty())
    } else {
        match items[0] {
            ValueView::Integer(n) if 0 <= n <= 255 => match byte_values(items.subrange(1, items.len() as int)) {
                Ok(rest) => Ok(seq![n as u8] + rest),
                Err(t) => Err(t),
            },
            other => Err(type_name_of(other)),
        }
    }
}

/// The arity `function-arity` finds in a function's code, reading from
/// position `i` with `max` the highest argument loaded so far (-1 for none):
/// -1 at a `PackRestArgs`, the count of a `CheckArity`, and otherwise one
/// more than the highest argument loaded.
pub open spec fn arity_from(code: Seq<InstrView>, i: int, max: int) -> int
    decreases code.len() - i,
{
    if i < 0 || i >= code.len() {
        max + 1
    } else {
        match code[i] {
            InstrView::CheckArity(n, _) => n as int,
            InstrView::Indexed(76, _) => -1,
            InstrView::Indexed(op, a) => if op == OP_LOAD_ARG {
                arity_from(code, i + 1, if a > max { a as int } else { max })
            } else {
                arity_from(code, i + 1, max)
            },
            _ => arity_from(code, i + 1, max),
        }
    }
}

/// The arity of a function's code.
pub open spec fn code_arity(code: Seq<InstrView>) -> int {
    arity_from(code, 0, -1)
}

/// The absolute value of an integer (`i64::MIN` left aside).
pub open spec fn abs_of(n: i64) -> i64 {
    if n < 0 { (-n) as i64 } else { n }
}

/// `"Type error: '<name>' expects <what>, got <type of v>"`.
pub open spec fn expects(op: u8, what: Seq<char>, v: ValueView) -> Seq<char> {
    "Type error: '"@ + request_name(op) + "' expects "@ + what + ", got "@ + type_name_of(v)
}

/// `"<start><type of a> and <type of b>"`.
pub open spec fn both_named(start: Seq<char>, a: ValueView, b: ValueView) -> Seq<char> {
    start + type_name_of(a) + " and "@ + type_name_of(b)
}

/// A step of an instruction that takes one value.
pub open spec fn unary_request(m: MachineView, op: u8, v: ValueView, rest: Seq<ValueView>) -> Outcome {
    let pushed = |x: ValueView| Outcome::Next(m.with_stack(rest.push(x)).advanced());
    let not_a_number = Outcome::Failed(expects(op, "a number"@, v));
    if op == 45 || op == 47 || op == 79 || op == 80 {
        match v {
            ValueView::String(p) => Outcome::Ask(
                if op == 45 {
                    RequestView::ReadFile(p)
                } else if op == 47 {
                    RequestView::FileExists(p)
                } else {
                    RequestView::LoadSource(p, op == 80)
                },
            ),
            _ => Outcome::Failed(expects(op, "a string path"@, v)),
        }
    } else if op == 83 {
        match v {
            ValueView::Integer(_) => Outcome::Ask(RequestView::Math(op, seq![v])),
            _ => Outcome::Failed(expects(op, "an integer"@, v)),
        }
    } else if op == 84 {
        match v {
            ValueView::Float(_) => Outcome::Ask(RequestView::Math(op, seq![v])),
            _ => Outcome::Failed(expects(op, "a float"@, v)),
        }
    } else if op == 88 || op == 89 || op == 90 {
        match v {
            ValueView::Integer(n) => pushed(ValueView::Integer(if op == 90 { abs_of(n) } else { n })),
            ValueView::Float(_) => Outcome::Ask(RequestView::Math(op, seq![v])),
            _ => not_a_number,
        }
    } else if op == 92 {
        match v {
            ValueView::String(t) => Outcome::Ask(RequestView::Eval(t)),
            _ => Outcome::Failed(expects(op, "a string"@, v)),
        }
    } else if op == 93 {
        match v {
            ValueView::Function(name) => match lookup(m.functions, name) {
                Some(code) => pushed(ValueView::Integer(code_arity(code) as i64)),
                None => Outcome::Failed("Unknown function: "@ + name),
            },
            ValueView::Closure(params, rest_param, _, _) => pushed(
                ValueView::Integer(if rest_param is Some { -1i64 } else { params.len() as i64 }),
            ),
            _ => Outcome::Failed(expects(op, "a function or closure"@, v)),
        }
    } else if op == 103 {
        match v {
            ValueView::Integer(n) => if n <= 0 {
                Outcome::Failed("Argument error: 'random-int' expects positive integer, got "@ + signed_decimal(n as int))
            } else {
                Outcome::Drawn(m.with_stack(rest), DrawView::Below(n))
            },
            _ => Outcome::Failed(expects(op, "integer"@, v)),
        }
    } else if op == 104 {
        match v {
            ValueView::Integer(_) => pushed(v),
            _ => Outcome::Failed(expects(op, "integer"@, v)),
        }
    } else if is_number(v) {
        Outcome::Ask(RequestView::Math(op, seq![v]))
    } else {
        not_a_number
    }
}

/// A step of an instruction that takes two values (`a` the deeper one).
pub open spec fn binary_request(m: MachineView, op: u8, a: ValueView, b: ValueView) -> Outcome {
    if op == 46 {
        match (a, b) {
            (ValueView::String(p), ValueView::String(c)) => Outcome::Ask(RequestView::WriteFile(p, c)),
            _ => Outcome::Failed(both_named("Type error: 'write-file' expects a string path and string content, got "@, a, b)),
        }
    } else if op == 49 {
        match (a, b) {
            (ValueView::String(p), ValueView::List(items)) => match byte_values(items) {
                Ok(bytes) => Outcome::Ask(RequestView::WriteBytes(p, bytes)),
                Err(t) => Outcome::Failed("'write-binary-file' expects a list of integers 0-255, but found "@ + t),
            },
            _ => Outcome::Failed(
                both_named("Type error: 'write-binary-file' expects a string path and a list of bytes, got "@, a, b),
            ),
        }
    } else if op == 110 {
        match (a, b) {
            (ValueView::Integer(t), ValueView::String(f)) => Outcome::Ask(RequestView::FormatTime(t, f)),
            _ => Outcome::Failed(both_named("Type error: 'format-timestamp' expects integer and string, got "@, a, b)),
        }
    } else if is_number(a) && is_number(b) {
        Outcome::Ask(RequestView::Math(op, seq![a, b]))
    } else {
        Outcome::Failed(both_named("Type error: '"@ + request_name(op) + "' expects numbers, got "@, a, b))
    }
}

/// The name of a parallel collection operation, as its errors give it.
pub open spec fn collection_name(op: u8) -> Seq<char> {
    if op == 116 { "pmap"@ } else if op == 117 { "pfilter"@ } else { "preduce"@ }
}

/// What a parallel collection operation calls: a closure's code, or a named
/// function's code with the given parameter names.
pub open spec fn call_target(m: MachineView, op: u8, f: ValueView, params: Seq<Seq<char>>) -> Result<CallView, Seq<char>> {
    match f {
        ValueView::Closure(ps, rest, body, _) => Ok(CallView { code: body, params: ps, rest }),
        ValueView::Function(name) => match lookup(m.functions, name) {
            Some(code) => Ok(CallView { code, params, rest: None }),
            None => Err("Undefined function: "@ + name),
        },
        _ => Err("Type error: "@ + collection_name(op) + " expects function or closure, got "@ + type_name_of(f)),
    }
}

/// A step of `pmap`, `pfilter` (function under list) or `preduce` (list,
/// initial value, function).
pub open spec fn collection_step(m: MachineView, op: u8) -> Outcome {
    let k = m.stack.len();
    let list = if op == 118 { m.stack[k - 3] } else { m.stack.last() };
    let f = if op == 118 { m.stack.last() } else { m.stack[k - 2] };
    match list {
        ValueView::List(items) => if op == 118 && items.len() == 0 {
            Outcome::Next(m.with_stack(drop_top(m.stack, 3).push(m.stack[k - 2])).advanced())
        } else {
            match call_target(m, op, f, if op == 118 { seq!["acc"@, "x"@] } else { seq!["x"@] }) {
                Ok(c) => Outcome::Ask(
                    if op == 116 {
                        RequestView::MapEach(c, items)
                    } else if op == 117 {
                        RequestView::Filter(c, items)
                    } else {
                        RequestView::Reduce(c, items, m.stack[k - 2])
                    },
                ),
                Err(msg) => Outcome::Failed(msg),
            }
        },
        _ => Outcome::Failed("Type error: "@ + collection_name(op) + " expects list, got "@ + type_name_of(list)),
    }
}

/// A step of an instruction that goes outside the machine or looks at a
/// function.
pub open spec fn request_step(m: MachineView, op: u8) -> Outcome {
    let k = request_arity(op);
    if m.stack.len() < k {
        Outcome::Failed("Stack underflow in "@ + simple_name(op))
    } else if op == 102 {
        Outcome::Ask(RequestView::Random)
    } else if op == 115 {
        Outcome::Ask(RequestView::Symbol)
    } else if op == 109 {
        Outcome::Drawn(m, DrawView::Clock)
    } else if op >= 116 {
        collection_step(m, op)
    } else if k == 1 {
        unary_request(m, op, m.stack.last(), m.stack.drop_last())
    } else {
        binary_request(m, op, m.stack[m.stack.len() - 2], m.stack.last())
    }
}

/// Whether such a step stays within Rust's machine arithmetic: `abs` is not
/// taken of the least integer, and the arity found fits a `usize`.
pub open spec fn request_fits(m: MachineView, op: u8) -> bool {
    &&& (op == 90 && m.stack.len() >= 1 && m.stack.last() is Integer) ==> m.stack.last()->Integer_0 != i64::MIN
    &&& (op == 93 && m.stack.len() >= 1 && m.stack.last() is Function && lookup(m.functions, m.stack.last()->Function_0)
        is Some) ==> code_arity(lookup(m.functions, m.stack.last()->Function_0)->Some_0) <= usize::MAX
    &&& (op == 92 && m.stack.len() >= 1 && m.stack.last() is String) ==> m.stack.last()->String_0.len() < usize::MAX
}

/// Whether a step that draws a value from outside did what `d` allows: from
/// the state `m` (its operands taken), push the value and move on, or, for
/// the clock, fail with the clock's error.
pub open spec fn drawn_matches(m: MachineView, d: DrawView, r: Result<Effect, RuntimeError>, after: MachineView) -> bool {
    let pushed = r is Ok && r->Ok_0 is Continue && after.stack.len() == m.stack.len() + 1
        && after == m.with_stack(m.stack.push(after.stack.last())).advanced() && after.stack.last() is Integer;
    match d {
        DrawView::Below(n) => pushed && 0 <= after.stack.last()->Integer_0 < n,
        DrawView::Clock => pushed || (r is Err && r->Err_0.message@.len() >= 19 && r->Err_0.message@.subrange(0, 19)
            == "System time error: "@),
    }
}

// ---------------------------------------------------------------------------
// Running such instructions

pub fn is_request_opcode(op: u8) -> (r: bool)
    ensures
        r == is_request_op(op),
{
    op == 45 || op == 46 || op == 47 || op == 49 || op == 79 || op == 80 || (83 <= op && op <= 93) || (97
        <= op && op <= 104) || op == 109 || op == 110 || (115 <= op && op <= 118)
}

fn request_arity_of(op: u8) -> (r: usize)
    ensures
        r == request_arity(op),
{
    if op == 118 {
        3
    } else if op == 46 || op == 49 || op == 91 || op == 99 || op == 110 || op == 116 || op == 117 {
        2
    } else if op == 102 || op == 109 || op == 115 {
        0
    } else {
        1
    }
}

fn request_name_str(op: u8) -> (r: &'static str)
    ensures
        r@ == request_name(op),
{
    if op == 45 { "read-file" } else if op == 46 { "write-file" } else if op == 47 { "file-exists?" }
    else if op == 79 { "load" } else if op == 80 { "require" }
    else if op == 49 { "write-binary-file" } else if op == 83 { "int->float" } else if op == 84 { "float->int" }
    else if op == 85 { "sqrt" } else if op == 86 { "sin" } else if op == 87 { "cos" } else if op == 88 { "floor" }
    else if op == 89 { "ceil" } else if op == 90 { "abs" } else if op == 91 { "pow" } else if op == 92 { "eval" }
    else if op == 93 { "function-arity" } else if op == 97 { "tan" } else if op == 98 { "atan" }
    else if op == 99 { "atan2" } else if op == 100 { "log" } else if op == 101 { "exp" }
    else if op == 103 { "random-int" } else if op == 104 { "seed-random" } else { "format-timestamp" }
}

fn one_value(v: Value) -> (r: Vec<Value>)
    ensures
        values_view(r@) == seq![value_view(v)],
{
    let mut r: Vec<Value> = Vec::new();
    r.push(v);
    proof {
        lemma_values_view_ext(r@);
        assert(values_view(r@) =~= seq![value_view(v)]);
    }
    r
}

fn two_values(a: Value, b: Value) -> (r: Vec<Value>)
    ensures
        values_view(r@) == seq![value_view(a), value_view(b)],
{
    let mut r: Vec<Value> = Vec::new();
    r.push(a);
    r.push(b);
    proof {
        lemma_values_view_ext(r@);
        assert(values_view(r@) =~= seq![value_view(a), value_view(b)]);
    }
    r
}

/// `"Type error: '<name>' expects <what>, got <type>"`.
fn expects_error(op: u8, what: &str, v: &Value) -> (r: String)
    ensures
        r@ == expects(op, what@, value_view(*v)),
{
    let mut msg = text3("Type error: '", request_name_str(op), "' expects ");
    push_str(&mut msg, what);
    push_str(&mut msg, ", got ");
    push_str(&mut msg, value_type_name(v));
    msg
}

/// `"<start><type of a> and <type of b>"`.
fn both_types(start: &str, a: &Value, b: &Value) -> (r: String)
    ensures
        r@ == both_named(start@, value_view(*a), value_view(*b)),
{
    let mut msg = text2(start, value_type_name(a));
    push_str(&mut msg, " and ");
    push_str(&mut msg, value_type_name(b));
    msg
}

/// The bytes of a list of integers from 0 to 255, or the type of the first
/// item that is not one.
fn bytes_of(items: &Vec<Value>) -> (r: Result<Vec<u8>, &'static str>)
    ensures
        match byte_values(values_view(items@)) {
            Ok(b) => r is Ok && r->Ok_0@ == b,
            Err(t) => r is Err && r->Err_0@ == t,
        },
{
    let ghost iv = values_view(items@);
    proof {
        lemma_values_view_len(items@);
    }
    let mut out: Vec<u8> = Vec::new();
    let mut i: usize = 0;
    assert(iv.subrange(0, iv.len() as int) =~= iv);
    while i < items.len()
        invariant
            i <= items.len(),
            iv == values_view(items@),
            iv.len() == items@.len(),
            match byte_values(iv.subrange(i as int, iv.len() as int)) {
                Ok(b) => byte_values(iv) == Ok::<Seq<u8>, Seq<char>>(out@ + b),
                Err(t) => byte_values(iv) == Err::<Seq<u8>, Seq<char>>(t),
            },
        decreases items.len() - i,
    {
        let ghost rest = iv.subrange(i as int, iv.len() as int);
        assert(rest.subrange(1, rest.len() as int) =~= iv.subrange(i + 1, iv.len() as int));
        proof {
            lemma_values_view_index(items@, i as int);
        }
        match &items[i] {
            Value::Integer(n) => {
                if 0 <= *n && *n <= 255 {
                    let ghost before = out@;
                    out.push(*n as u8);
                    proof {
                        match byte_values(iv.subrange(i + 1, iv.len() as int)) {
                            Ok(b) => {
                                assert(out@ + b =~= before + (seq![*n as u8] + b));
                            },
                            Err(t) => {},
                        }
                    }
                } else {
                    return Err("integer");
                }
            },
            other => {
                return Err(value_type_name(other));
            },
        }
        i = i + 1;
    }
    assert(iv.subrange(items.len() as int, iv.len() as int) =~= Seq::<ValueView>::empty());
    assert(out@ + Seq::<u8>::empty() =~= out@);
    Ok(out)
}

/// The arity `function-arity` finds in a function's code.
fn arity_of_code(code: &Vec<Instruction>) -> (r: i64)
    requires
        code_arity(instrs_view(code@)) <= usize::MAX,
    ensures
        r == code_arity(instrs_view(code@)) as i64,
{
    let ghost cv = instrs_view(code@);
    proof {
        lemma_instrs_view_len(code@);
    }
    let mut max: Option<usize> = None;
    let mut i: usize = 0;
    while i < code.len()
        invariant
            i <= code.len(),
            cv == instrs_view(code@),
            cv.len() == code@.len(),
            code_arity(cv) <= usize::MAX,
            code_arity(cv) == arity_from(cv, i as int, match max { Some(a) => a as int, None => -1 }),
        decreases code.len() - i,
    {
        proof {
            lemma_instrs_view_index(code@, i as int);
            lemma_classify(code@[i as int]);
            if simple_opcode(code@[i as int]).is_some() {
                lemma_simple_view(code@[i as int]);
            } else if index_opcode(code@[i as int]).is_some() {
                lemma_indexed_view(code@[i as int]);
            }
        }
        match &code[i] {
            Instruction::CheckArity(n, _) => {
                return *n as i64;
            },
            Instruction::PackRestArgs(_) => {
                return -1;
            },
            Instruction::LoadArg(a) => {
                match max {
                    Some(m) => {
                        if *a > m {
                            max = Some(*a);
                        }
                    },
                    None => {
                        max = Some(*a);
                    },
                }
            },
            _ => {},
        }
        i = i + 1;
    }
    match max {
        Some(m) => (m + 1) as i64,
        None => 0,
    }
}

/// The fresh symbol `G__<n>` that `gensym` gives as its `n`th (counting
/// from 0).
pub fn gensym_symbol(n: u64) -> (r: Value)
    ensures
        value_view(r) == ValueView::Symbol("G__"@ + decimal(n as nat)),
{
    let mut s = owned("G__");
    let d = u64_decimal(n);
    push_chars(&mut s, &d);
    Value::Symbol(s)
}

impl VM {
    /// Whether the machine waits for its host: the instruction at the
    /// instruction pointer goes outside the machine and its operands are on
    /// the stack.
    pub open spec fn awaits_answer(&self) -> bool {
        let m = self.state();
        &&& self.instruction_pointer < self.current_bytecode@.len()
        &&& m.code[m.ip as int] is Simple
        &&& is_request_op(m.code[m.ip as int]->Simple_0)
        &&& m.stack.len() >= request_arity(m.code[m.ip as int]->Simple_0)
    }

    /// Whether the machine waits for its host (see `awaits_answer`).
    pub fn is_awaiting_answer(&self) -> (r: bool)
        ensures
            r == self.awaits_answer(),
    {
        proof {
            lemma_instrs_view_len(self.current_bytecode@);
            lemma_values_view_len(self.value_stack@);
        }
        let ip = self.instruction_pointer;
        if ip >= self.current_bytecode.len() {
            return false;
        }
        proof {
            let i = self.current_bytecode@[ip as int];
            lemma_instrs_view_index(self.current_bytecode@, ip as int);
            lemma_classify(i);
            if simple_opcode(i).is_some() {
                lemma_simple_view(i);
            } else if index_opcode(i).is_some() {
                lemma_indexed_view(i);
            }
        }
        match opcode_of_simple(&self.current_bytecode[ip]) {
            Some(op) => is_request_opcode(op) && self.value_stack.len() >= request_arity_of(op),
            None => false,
        }
    }

    /// Finishes a step that went to the host: the instruction's operands
    /// give way to the host's result, and the machine moves on.
    pub fn answer(&mut self, result: Value)
        requires
            old(self).awaits_answer(),
        ensures
            final(self).state() == old(self).state().with_stack(
                drop_top(
                    old(self).state().stack,
                    request_arity(old(self).state().code[old(self).instruction_pointer as int]->Simple_0),
                ).push(value_view(result)),
            ).advanced(),
            final(self).args == old(self).args,
            final(self).loaded_modules == old(self).loaded_modules,
    {
        let ghost m = self.state();
        proof {
            lemma_instrs_view_len(self.current_bytecode@);
            lemma_values_view_len(self.value_stack@);
        }
        let ip = self.instruction_pointer;
        let code_len = self.current_bytecode.len();
        proof {
            let i = self.current_bytecode@[ip as int];
            lemma_instrs_view_index(self.current_bytecode@, ip as int);
            lemma_classify(i);
            if simple_opcode(i).is_some() {
                lemma_simple_view(i);
            } else if index_opcode(i).is_some() {
                lemma_indexed_view(i);
            }
        }
        assert(ip < code_len);
        let op = opcode_of_simple(&self.current_bytecode[ip]).unwrap();
        let ghost k = request_arity(op);
        let n = request_arity_of(op);
        if n >= 1 {
            self.pop_value();
        }
        if n >= 2 {
            self.pop_value();
        }
        if n >= 3 {
            self.pop_value();
        }
        self.push_value(result);
        self.advance();
        proof {
            if k == 3 {
                assert(m.stack.drop_last().drop_last().drop_last() =~= drop_top(m.stack, 3));
            } else if k == 2 {
                assert(m.stack.drop_last().drop_last() =~= drop_top(m.stack, 2));
            } else if k == 1 {
                assert(m.stack.drop_last() =~= drop_top(m.stack, 1));
            } else {
                assert(m.stack =~= drop_top(m.stack, 0));
            }
        }
    }

    pub(crate) fn exec_request(&mut self, op: u8) -> (r: Result<Effect, RuntimeError>)
        requires
            old(self).at_simple(op),
            is_request_op(op),
        ensures
            step_matches(request_step(old(self).state(), op), old(self).state(), r, final(self).state()),
            final(self).args == old(self).args,
            final(self).loaded_modules == old(self).loaded_modules,
    {
        proof {
            lemma_values_view_len(self.value_stack@);
            lemma_instrs_view_len(self.current_bytecode@);
        }
        let k = request_arity_of(op);
        let len = self.value_stack.len();
        if len < k {
            return failure(text2("Stack underflow in ", simple_name_str(op)));
        }
        if op == 102 {
            return Ok(Effect::Request(Request::Random));
        }
        if op == 115 {
            return Ok(Effect::Request(Request::Symbol));
        }
        if op == 109 {
            return self.exec_clock();
        }
        if op >= 116 {
            return self.exec_collection(op);
        }
        if k == 1 {
            self.exec_unary_request(op)
        } else {
            self.exec_binary_request(op)
        }
    }

    fn exec_clock(&mut self) -> (r: Result<Effect, RuntimeError>)
        requires
            old(self).instruction_pointer < old(self).current_bytecode@.len(),
        ensures
            drawn_matches(old(self).state(), DrawView::Clock, r, final(self).state()),
            final(self).args == old(self).args,
            final(self).loaded_modules == old(self).loaded_modules,
    {
        let ghost m = self.state();
        let code_len = self.current_bytecode.len();
        assert(self.instruction_pointer < code_len);
        let now = system_now();
        match seconds_since_epoch(&now) {
            Ok(secs) => {
                self.push_value(Value::Integer(secs as i64));
                self.advance();
                proof {
                    lemma_values_view_len(self.value_stack@);
                }
                Ok(Effect::Continue)
            },
            Err(e) => {
                let mut msg = owned("System time error: ");
                push_str(&mut msg, e.as_str());
                proof {
                    reveal_strlit("System time error: ");
                    assert(msg@.subrange(0, 19) =~= "System time error: "@);
                }
                failure(msg)
            },
        }
    }
} // impl VM

impl VM {
    fn exec_unary_request(&mut self, op: u8) -> (r: Result<Effect, RuntimeError>)
        requires
            old(self).at_simple(op),
            is_request_op(op),
            request_arity(op) == 1,
            old(self).value_stack@.len() >= 1,
            op != 102 && op != 109 && op != 115,
        ensures
            step_matches(
                unary_request(old(self).state(), op, old(self).state().stack.last(), old(self).state().stack.drop_last()),
                old(self).state(),
                r,
                final(self).state(),
            ),
            final(self).args == old(self).args,
            final(self).loaded_modules == old(self).loaded_modules,
    {
        let ghost m = self.state();
        proof {
            lemma_last_view(self.value_stack@);
            lemma_instrs_view_len(self.current_bytecode@);
        }
        let len = self.value_stack.len();
        let code_len = self.current_bytecode.len();
        assert(self.instruction_pointer < code_len);
        if op == 45 || op == 47 || op == 79 || op == 80 {
            match &self.value_stack[len - 1] {
                Value::String(p) => {
                    let path = owned(p.as_str());
                    return Ok(
                        Effect::Request(
                            if op == 45 {
                                Request::ReadFile(path)
                            } else if op == 47 {
                                Request::FileExists(path)
                            } else {
                                Request::LoadSource(path, op == 80)
                            },
                        ),
                    );
                },
                other => {
                    return failure(expects_error(op, "a string path", other));
                },
            }
        }
        if op == 83 {
            match &self.value_stack[len - 1] {
                Value::Integer(_) => {
                    let v = copy_value(&self.value_stack[len - 1]);
                    return Ok(Effect::Request(Request::Math(op, one_value(v))));
                },
                other => {
                    return failure(expects_error(op, "an integer", other));
                },
            }
        }
        if op == 84 {
            match &self.value_stack[len - 1] {
                Value::Float(_) => {
                    let v = copy_value(&self.value_stack[len - 1]);
                    return Ok(Effect::Request(Request::Math(op, one_value(v))));
                },
                other => {
                    return failure(expects_error(op, "a float", other));
                },
            }
        }
        if op == 88 || op == 89 || op == 90 {
            match &self.value_stack[len - 1] {
                Value::Integer(n) => {
                    let n = *n;
                    let x = if op == 90 && n < 0 { -n } else { n };
                    self.pop_value();
                    self.push_value(Value::Integer(x));
                    self.advance();
                    return Ok(Effect::Continue);
                },
                Value::Float(_) => {
                    let v = copy_value(&self.value_stack[len - 1]);
                    return Ok(Effect::Request(Request::Math(op, one_value(v))));
                },
                other => {
                    return failure(expects_error(op, "a number", other));
                },
            }
        }
        if op == 92 {
            match &self.value_stack[len - 1] {
                Value::String(t) => {
                    return Ok(Effect::Request(Request::Eval(owned(t.as_str()))));
                },
                other => {
                    return failure(expects_error(op, "a string", other));
                },
            }
        }
        if op == 93 {
            return self.exec_function_arity();
        }
        if op == 103 {
            match &self.value_stack[len - 1] {
                Value::Integer(n) => {
                    let n = *n;
                    if n <= 0 {
                        let mut msg = owned("Argument error: 'random-int' expects positive integer, got ");
                        let d = i64_decimal(n);
                        push_chars(&mut msg, &d);
                        return failure(msg);
                    }
                    self.pop_value();
                    let mut rng = thread_rng();
                    let x = gen_below(&mut rng, n);
                    self.push_value(Value::Integer(x));
                    self.advance();
                    proof {
                        lemma_values_view_len(self.value_stack@);
                    }
                    return Ok(Effect::Continue);
                },
                other => {
                    return failure(expects_error(op, "integer", other));
                },
            }
        }
        if op == 104 {
            match &self.value_stack[len - 1] {
                Value::Integer(_) => {
                    let v = self.pop_value();
                    self.push_value(v);
                    self.advance();
                    return Ok(Effect::Continue);
                },
                other => {
                    return failure(expects_error(op, "integer", other));
                },
            }
        }
        match &self.value_stack[len - 1] {
            Value::Integer(_) | Value::Float(_) => {
                let v = copy_value(&self.value_stack[len - 1]);
                Ok(Effect::Request(Request::Math(op, one_value(v))))
            },
            other => failure(expects_error(op, "a number", other)),
        }
    }

    fn exec_function_arity(&mut self) -> (r: Result<Effect, RuntimeError>)
        requires
            old(self).at_simple(93),
            old(self).value_stack@.len() >= 1,
        ensures
            step_matches(
                unary_request(old(self).state(), 93, old(self).state().stack.last(), old(self).state().stack.drop_last()),
                old(self).state(),
                r,
                final(self).state(),
            ),
            final(self).args == old(self).args,
            final(self).loaded_modules == old(self).loaded_modules,
    {
        let ghost m = self.state();
        proof {
            lemma_last_view(self.value_stack@);
            lemma_instrs_view_len(self.current_bytecode@);
        }
        let len = self.value_stack.len();
        let code_len = self.current_bytecode.len();
        assert(self.instruction_pointer < code_len);
        let arity: i64 = match &self.value_stack[len - 1] {
            Value::Function(name) => {
                proof {
                    lemma_key_index(table_view(self.functions@), name@);
                }
                let i = function_index(&self.functions, name);
                if i >= self.functions.len() {
                    return failure(text2("Unknown function: ", name.as_str()));
                }
                assert(lookup(m.functions, name@) == Some(instrs_view(self.functions@[i as int].1@)));
                arity_of_code(&self.functions[i].1)
            },
            Value::Closure(data) => {
                if data.rest_param.is_some() {
                    -1
                } else {
                    data.params.len() as i64
                }
            },
            other => {
                return failure(expects_error(93, "a function or closure", other));
            },
        };
        self.pop_value();
        self.push_value(Value::Integer(arity));
        self.advance();
        Ok(Effect::Continue)
    }

    fn exec_binary_request(&mut self, op: u8) -> (r: Result<Effect, RuntimeError>)
        requires
            old(self).at_simple(op),
            is_request_op(op),
            request_arity(op) == 2,
            old(self).value_stack@.len() >= 2,
        ensures
            step_matches(
                binary_request(
                    old(self).state(),
                    op,
                    old(self).state().stack[old(self).state().stack.len() - 2],
                    old(self).state().stack.last(),
                ),
                old(self).state(),
                r,
                final(self).state(),
            ),
            final(self).args == old(self).args,
            final(self).loaded_modules == old(self).loaded_modules,
    {
        proof {
            lemma_values_view_len(self.value_stack@);
            lemma_values_view_index(self.value_stack@, self.value_stack@.len() - 2);
            lemma_values_view_index(self.value_stack@, self.value_stack@.len() - 1);
        }
        let len = self.value_stack.len();
        let a = &self.value_stack[len - 2];
        let b = &self.value_stack[len - 1];
        if op == 46 {
            return match (a, b) {
                (Value::String(p), Value::String(c)) => Ok(
                    Effect::Request(Request::WriteFile(owned(p.as_str()), owned(c.as_str()))),
                ),
                _ => failure(both_types("Type error: 'write-file' expects a string path and string content, got ", a, b)),
            };
        }
        if op == 49 {
            return match (a, b) {
                (Value::String(p), Value::List(items)) => {
                    match bytes_of(&items.items) {
                        Ok(bytes) => Ok(Effect::Request(Request::WriteBytes(owned(p.as_str()), bytes))),
                        Err(t) => failure(text2("'write-binary-file' expects a list of integers 0-255, but found ", t)),
                    }
                },
                _ => failure(
                    both_types("Type error: 'write-binary-file' expects a string path and a list of bytes, got ", a, b),
                ),
            };
        }
        if op == 110 {
            return match (a, b) {
                (Value::Integer(t), Value::String(f)) => Ok(Effect::Request(Request::FormatTime(*t, owned(f.as_str())))),
                _ => failure(both_types("Type error: 'format-timestamp' expects integer and string, got ", a, b)),
            };
        }
        let a_num = match a {
            Value::Integer(_) | Value::Float(_) => true,
            _ => false,
        };
        let b_num = match b {
            Value::Integer(_) | Value::Float(_) => true,
            _ => false,
        };
        if a_num && b_num {
            let x = copy_value(a);
            let y = copy_value(b);
            Ok(Effect::Request(Request::Math(op, two_values(x, y))))
        } else {
            let start = text3("Type error: '", request_name_str(op), "' expects numbers, got ");
            failure(both_types(start.as_str(), a, b))
        }
    }
} // impl VM

/// Whether the arity `function-arity` finds in a function's code fits a
/// `usize`.
fn arity_fits(code: &Vec<Instruction>) -> (r: bool)
    ensures
        r == (code_arity(instrs_view(code@)) <= usize::MAX),
{
    let ghost cv = instrs_view(code@);
    proof {
        lemma_instrs_view_len(code@);
    }
    let mut max: Option<usize> = None;
    let mut i: usize = 0;
    while i < code.len()
        invariant
            i <= code.len(),
            cv == instrs_view(code@),
            cv.len() == code@.len(),
            code_arity(cv) == arity_from(cv, i as int, match max { Some(a) => a as int, None => -1 }),
        decreases code.len() - i,
    {
        proof {
            lemma_instrs_view_index(code@, i as int);
            lemma_classify(code@[i as int]);
            if simple_opcode(code@[i as int]).is_some() {
                lemma_simple_view(code@[i as int]);
            } else if index_opcode(code@[i as int]).is_some() {
                lemma_indexed_view(code@[i as int]);
            }
        }
        match &code[i] {
            Instruction::CheckArity(_, _) => {
                return true;
            },
            Instruction::PackRestArgs(_) => {
                return true;
            },
            Instruction::LoadArg(a) => {
                match max {
                    Some(m) => {
                        if *a > m {
                            max = Some(*a);
                        }
                    },
                    None => {
                        max = Some(*a);
                    },
                }
            },
            _ => {},
        }
        i = i + 1;
    }
    match max {
        Some(m) => m < usize::MAX,
        None => true,
    }
}

/// Whether a step of the instruction with opcode `op` stays within Rust's
/// machine arithmetic.
pub(crate) fn request_fits_exec(vm: &VM, op: u8) -> (r: bool)
    ensures
        r == request_fits(vm.state(), op),
{
    proof {
        lemma_values_view_len(vm.value_stack@);
    }
    let len = vm.value_stack.len();
    if len == 0 {
        return true;
    }
    proof {
        lemma_last_view(vm.value_stack@);
    }
    if op == 90 {
        match &vm.value_stack[len - 1] {
            Value::Integer(n) => *n != i64::MIN,
            _ => true,
        }
    } else if op == 92 {
        match &vm.value_stack[len - 1] {
            Value::String(t) => t.as_str().unicode_len() < usize::MAX,
            _ => true,
        }
    } else if op == 93 {
        match &vm.value_stack[len - 1] {
            Value::Function(name) => {
                proof {
                    lemma_key_index(table_view(vm.functions@), name@);
                }
                let i = function_index(&vm.functions, name);
                if i >= vm.functions.len() {
                    true
                } else {
                    assert(lookup(vm.state().functions, name@) == Some(instrs_view(vm.functions@[i as int].1@)));
                    arity_fits(&vm.functions[i].1)
                }
            },
            _ => true,
        }
    } else {
        true
    }
}

fn collection_name_str(op: u8) -> (r: &'static str)
    ensures
        r@ == collection_name(op),
{
    if op == 116 { "pmap" } else if op == 117 { "pfilter" } else { "preduce" }
}

/// A copy of an optional name.
fn copy_rest(rest: &Option<String>) -> (r: Option<String>)
    ensures
        opt_name_view(r) == opt_name_view(*rest),
{
    match rest {
        Some(name) => Some(owned(name.as_str())),
        None => None,
    }
}

/// The items for whose result the call gave `true`, in order.
pub open spec fn kept(items: Seq<ValueView>, results: Seq<ValueView>) -> Seq<ValueView>
    decreases items.len(),
{
    if items.len() == 0 || results.len() == 0 {
        Seq::empty()
    } else {
        let rest = kept(items.subrange(1, items.len() as int), results.subrange(1, results.len() as int));
        if results[0] == ValueView::Boolean(true) { seq![items[0]] + rest } else { rest }
    }
}

/// What `pfilter` keeps: the items whose result is `true`.
pub fn kept_items(items: &Vec<Value>, results: &Vec<Value>) -> (r: Vec<Value>)
    requires
        items@.len() == results@.len(),
    ensures
        values_view(r@) == kept(values_view(items@), values_view(results@)),
{
    let ghost iv = values_view(items@);
    let ghost rv = values_view(results@);
    proof {
        lemma_values_view_len(items@);
        lemma_values_view_len(results@);
    }
    let mut out: Vec<Value> = Vec::new();
    let mut i: usize = 0;
    assert(iv.subrange(0, iv.len() as int) =~= iv);
    assert(rv.subrange(0, rv.len() as int) =~= rv);
    while i < items.len()
        invariant
            i <= items.len(),
            items@.len() == results@.len(),
            iv == values_view(items@),
            rv == values_view(results@),
            iv.len() == items@.len(),
            rv.len() == results@.len(),
            values_view(out@) + kept(iv.subrange(i as int, iv.len() as int), rv.subrange(i as int, rv.len() as int)) == kept(
                iv,
                rv,
            ),
        decreases items.len() - i,
    {
        let ghost irest = iv.subrange(i as int, iv.len() as int);
        let ghost rrest = rv.subrange(i as int, rv.len() as int);
        assert(irest.subrange(1, irest.len() as int) =~= iv.subrange(i + 1, iv.len() as int));
        assert(rrest.subrange(1, rrest.len() as int) =~= rv.subrange(i + 1, rv.len() as int));
        proof {
            lemma_values_view_index(items@, i as int);
            lemma_values_view_index(results@, i as int);
        }
        let keep = match &results[i] {
            Value::Boolean(b) => *b,
            _ => false,
        };
        if keep {
            let ghost before = out@;
            let v = copy_value(&items[i]);
            out.push(v);
            proof {
                lemma_values_view_ext(before);
                lemma_values_view_ext(out@);
                assert(values_view(out@) =~= values_view(before).push(value_view(v)));
                assert(values_view(out@) + kept(iv.subrange(i + 1, iv.len() as int), rv.subrange(i + 1, rv.len() as int))
                    =~= values_view(before) + kept(irest, rrest));
            }
        }
        i = i + 1;
    }
    assert(iv.subrange(items.len() as int, iv.len() as int) =~= Seq::<ValueView>::empty());
    assert(values_view(out@) + Seq::<ValueView>::empty() =~= values_view(out@));
    out
}

/// The error of calling code with `params` parameters (and a rest parameter
/// if `rest`) on `n` arguments, if the count is wrong.
pub open spec fn arity_error(params: nat, rest: bool, n: nat) -> Option<Seq<char>> {
    if rest {
        if n < params {
            Some("Wrong number of arguments: expected at least "@ + decimal(params) + ", got "@ + decimal(n))
        } else {
            None
        }
    } else if n != params {
        Some("Wrong number of arguments: expected "@ + decimal(params) + ", got "@ + decimal(n))
    } else {
        None
    }
}

impl VM {
    fn call_target_of(&self, op: u8, f: &Value) -> (r: Result<Call, String>)
        ensures
            match call_target(self.state(), op, value_view(*f), if op == 118 { seq!["acc"@, "x"@] } else { seq!["x"@] }) {
                Ok(c) => r is Ok && call_view(r->Ok_0) == c,
                Err(msg) => r is Err && r->Err_0@ == msg,
            },
    {
        match f {
            Value::Closure(data) => Ok(
                Call { code: copy_instructions(&data.body), params: copy_names(&data.params), rest: copy_rest(&data.rest_param) },
            ),
            Value::Function(name) => {
                proof {
                    lemma_key_index(table_view(self.functions@), name@);
                }
                let i = function_index(&self.functions, name);
                if i >= self.functions.len() {
                    return Err(text2("Undefined function: ", name.as_str()));
                }
                assert(lookup(self.state().functions, name@) == Some(instrs_view(self.functions@[i as int].1@)));
                let mut params: Vec<String> = Vec::new();
                if op == 118 {
                    params.push(owned("acc"));
                }
                params.push(owned("x"));
                proof {
                    if op == 118 {
                        assert(names_view(params@) =~= seq!["acc"@, "x"@]);
                    } else {
                        assert(names_view(params@) =~= seq!["x"@]);
                    }
                }
                Ok(Call { code: copy_instructions(&self.functions[i].1), params, rest: None })
            },
            other => {
                let mut msg = text3("Type error: ", collection_name_str(op), " expects function or closure, got ");
                push_str(&mut msg, value_type_name(other));
                Err(msg)
            },
        }
    }

    fn exec_collection(&mut self, op: u8) -> (r: Result<Effect, RuntimeError>)
        requires
            old(self).at_simple(op),
            116 <= op <= 118,
            old(self).value_stack@.len() >= request_arity(op),
        ensures
            step_matches(collection_step(old(self).state(), op), old(self).state(), r, final(self).state()),
            final(self).args == old(self).args,
            final(self).loaded_modules == old(self).loaded_modules,
    {
        let ghost m = self.state();
        proof {
            lemma_values_view_len(self.value_stack@);
            lemma_instrs_view_len(self.current_bytecode@);
        }
        let len = self.value_stack.len();
        let code_len = self.current_bytecode.len();
        assert(self.instruction_pointer < code_len);
        let list_at = if op == 118 { len - 3 } else { len - 1 };
        let f_at = if op == 118 { len - 1 } else { len - 2 };
        proof {
            lemma_values_view_index(self.value_stack@, list_at as int);
            lemma_values_view_index(self.value_stack@, f_at as int);
            lemma_values_view_index(self.value_stack@, len - 2);
        }
        let (is_list, empty) = match &self.value_stack[list_at] {
            Value::List(l) => {
                proof {
                    lemma_values_view_len(l.items@);
                }
                (true, l.items.len() == 0)
            },
            _ => (false, false),
        };
        if !is_list {
            let mut msg = text3("Type error: ", collection_name_str(op), " expects list, got ");
            push_str(&mut msg, value_type_name(&self.value_stack[list_at]));
            return failure(msg);
        }
        if op == 118 && empty {
            self.pop_value();
            let init = self.pop_value();
            self.pop_value();
            self.push_value(init);
            self.advance();
            proof {
                assert(m.stack.drop_last().drop_last().drop_last() =~= drop_top(m.stack, 3));
            }
            return Ok(Effect::Continue);
        }
        let items = match &self.value_stack[list_at] {
            Value::List(l) => copy_values(&l.items),
            _ => Vec::new(),
        };
        let target = match self.call_target_of(op, &self.value_stack[f_at]) {
            Ok(c) => c,
            Err(msg) => {
                return failure(msg);
            },
        };
        if op == 116 {
            Ok(Effect::Request(Request::MapEach(target, items)))
        } else if op == 117 {
            Ok(Effect::Request(Request::Filter(target, items)))
        } else {
            let init = copy_value(&self.value_stack[len - 2]);
            Ok(Effect::Request(Request::Reduce(target, items, init)))
        }
    }

    /// Sets the machine up to call `call` on `args` as the parallel
    /// collection operations run each call: the code from its start, under a
    /// frame named `<parallel>` whose locals are the arguments. A wrong count
    /// of arguments is an error, and the machine is then unchanged.
    pub fn start_call(&mut self, call: &Call, args: Vec<Value>) -> (r: Result<(), RuntimeError>)
        ensures
            arity_error(call.params@.len(), call.rest is Some, args@.len()) is Some ==> r is Err
                && r->Err_0.message@ == arity_error(call.params@.len(), call.rest is Some, args@.len())->Some_0
                && final(self).state() == old(self).state(),
            arity_error(call.params@.len(), call.rest is Some, args@.len()) is None ==> r is Ok && final(self).state()
                == (MachineView {
                code: instrs_view(call.code@),
                ip: 0,
                halted: false,
                frames: old(self).state().frames.push(
                    FrameView {
                        return_address: 0,
                        locals: values_view(args@),
                        return_code: Seq::empty(),
                        name: "<parallel>"@,
                        captured: Seq::empty(),
                        stack_base: old(self).value_stack@.len() as usize,
                        loop_start: None,
                        loop_bindings_start: None,
                        loop_bindings_count: None,
                    },
                ),
                ..old(self).state()
            }),
            final(self).args == old(self).args,
            final(self).loaded_modules == old(self).loaded_modules,
    {
        let required = call.params.len();
        let n = args.len();
        if call.rest.is_some() {
            if n < required {
                let mut msg = owned("Wrong number of arguments: expected at least ");
                push_chars(&mut msg, &u64_decimal(required as u64));
                push_str(&mut msg, ", got ");
                push_chars(&mut msg, &u64_decimal(n as u64));
                return Err(RuntimeError::new(msg));
            }
        } else if n != required {
            let mut msg = owned("Wrong number of arguments: expected ");
            push_chars(&mut msg, &u64_decimal(required as u64));
            push_str(&mut msg, ", got ");
            push_chars(&mut msg, &u64_decimal(n as u64));
            return Err(RuntimeError::new(msg));
        }
        let ghost frames = self.call_stack@;
        self.current_bytecode = copy_instructions(&call.code);
        self.instruction_pointer = 0;
        self.halted = false;
        let mut frame = Frame::new(0, Vec::new(), owned("<parallel>"), self.value_stack.len());
        frame.locals = args;
        self.call_stack.push(frame);
        proof {
            assert(instrs_view(Seq::<Instruction>::empty()) =~= Seq::<InstrView>::empty()) by {
                lemma_instrs_view_len(Seq::<Instruction>::empty());
            }
            assert(values_view(Seq::<Value>::empty()) =~= Seq::<ValueView>::empty()) by {
                lemma_values_view_len(Seq::<Value>::empty());
            }
            assert(frames_view(self.call_stack@) =~= frames_view(frames).push(frame_view(frame)));
        }
        Ok(())
    }

    /// Ends a call that `start_call` set up: drops the innermost frame, if
    /// any, and takes the result from the top of the stack.
    pub fn end_call(&mut self) -> (r: Result<Value, RuntimeError>)
        ensures
            old(self).value_stack@.len() == 0 ==> r is Err && r->Err_0.message@ == "No return value from closure call"@,
            old(self).value_stack@.len() > 0 ==> r is Ok && value_view(r->Ok_0) == old(self).state().stack.last()
                && final(self).state() == (MachineView {
                stack: old(self).state().stack.drop_last(),
                frames: if old(self).call_stack@.len() > 0 {
                    old(self).state().frames.drop_last()
                } else {
                    old(self).state().frames
                },
                ..old(self).state()
            }),
            final(self).args == old(self).args,
            final(self).loaded_modules == old(self).loaded_modules,
    {
        let ghost frames = self.call_stack@;
        if self.call_stack.len() > 0 {
            self.call_stack.pop();
            proof {
                assert(frames_view(self.call_stack@) =~= frames_view(frames).drop_last());
            }
        }
        if self.value_stack.len() == 0 {
            return Err(RuntimeError::new(owned("No return value from closure call")));
        }
        proof {
            lemma_last_view(self.value_stack@);
        }
        Ok(self.value_stack.pop().unwrap())
    }
} // impl VM

/// A copy of a function table.
fn copy_table(t: &FunctionTable) -> (r: FunctionTable)
    ensures
        table_view(r@) == table_view(t@),
{
    let mut r: FunctionTable = Vec::new();
    let mut k: usize = 0;
    while k < t.len()
        invariant
            k <= t@.len(),
            r@.len() == k,
            forall|j: int| 0 <= j < k ==> (#[trigger] r@[j]).0@ == t@[j].0@ && instrs_view(r@[j].1@) == instrs_view(t@[j].1@),
        decreases t@.len() - k,
    {
        r.push((owned(t[k].0.as_str()), copy_instructions(&t[k].1)));
        k = k + 1;
    }
    assert(table_view(r@) =~= table_view(t@));
    r
}

impl VM {
    /// A machine for one call of a parallel collection operation: fresh,
    /// with a copy of this machine's functions.
    pub fn worker(&self) -> (r: VM)
        ensures
            r.state() == (MachineView {
                ip: 0,
                stack: Seq::empty(),
                frames: Seq::empty(),
                functions: self.state().functions,
                code: Seq::empty(),
                halted: false,
                globals: Seq::empty(),
                args: Seq::empty(),
                resumes: Seq::empty(),
                modules: Seq::empty(),
            }),
    {
        let mut vm = VM::new();
        vm.functions = copy_table(&self.functions);
        vm
    }
} // impl VM
} // verus!
