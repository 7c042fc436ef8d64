use lisp_bytecode_vm::instructions::Instruction;
use lisp_bytecode_vm::machine::{Effect, VM};
use lisp_bytecode_vm::requests::{gensym_symbol, kept_items, Call, Request};
use lisp_bytecode_vm::value::copy_value;
use lisp_bytecode_vm::value::{ClosureData, List, Value};

fn float_op(op: u8, a: f64, b: f64) -> f64 {
    match op {
        1 => a + b,
        2 => a - b,
        3 => a * b,
        4 => a / b,
        _ => a % b,
    }
}

fn as_f64(v: &Value) -> f64 {
    match v {
        Value::Integer(n) => *n as f64,
        Value::Float(bits) => f64::from_bits(*bits),
        _ => panic!("not a number"),
    }
}

/// Runs the code to the end, handing floating-point work to the host and
/// collecting what is printed.
fn float(x: f64) -> Value {
    Value::Float(x.to_bits())
}

/// What a host does for the machine's requests (no files here).
fn host(vm: &VM, q: Request, symbols: &mut u64) -> Result<Value, String> {
    match q {
        Request::Math(op, args) => {
            let x = as_f64(&args[0]);
            Ok(match op {
                83 => float(x),
                84 => Value::Integer(x as i64),
                85 => float(x.sqrt()),
                86 => float(x.sin()),
                87 => float(x.cos()),
                88 => Value::Integer(x.floor() as i64),
                89 => Value::Integer(x.ceil() as i64),
                90 => float(x.abs()),
                91 => float(x.powf(as_f64(&args[1]))),
                97 => float(x.tan()),
                98 => float(x.atan()),
                99 => float(x.atan2(as_f64(&args[1]))),
                100 => {
                    if x <= 0.0 {
                        return Err(format!("Math error: 'log' expects positive number, got {}", x));
                    }
                    float(x.ln())
                }
                _ => float(x.exp()),
            })
        }
        Request::Random => Ok(float(0.25)),
        Request::Symbol => {
            let v = gensym_symbol(*symbols);
            *symbols += 1;
            Ok(v)
        }
        Request::FormatTime(ts, fmt) => match chrono::DateTime::from_timestamp(ts, 0) {
            Some(t) => Ok(Value::String(t.format(&fmt).to_string())),
            None => Err(format!("Invalid timestamp: {}", ts)),
        },
        Request::ReadFile(p) => Err(format!("read {}", p)),
        Request::WriteFile(p, c) => Err(format!("write {} {}", p, c)),
        Request::FileExists(p) => Err(format!("exists {}", p)),
        Request::WriteBytes(p, b) => Err(format!("bytes {} {:?}", p, b)),
        Request::Eval(t) => Err(format!("eval {}", t)),
        Request::LoadSource(p, _) => Err(format!("load {}", p)),
        Request::MapEach(call, items) => {
            let mut out = Vec::new();
            for item in &items {
                out.push(call_in_worker(vm, &call, vec![copy_value(item)], symbols)?);
            }
            Ok(Value::List(List { items: out }))
        }
        Request::Filter(call, items) => {
            let mut results = Vec::new();
            for item in &items {
                results.push(call_in_worker(vm, &call, vec![copy_value(item)], symbols)?);
            }
            Ok(Value::List(List { items: kept_items(&items, &results) }))
        }
        Request::Reduce(call, items, init) => {
            let mut acc = init;
            for item in &items {
                acc = call_in_worker(vm, &call, vec![acc, copy_value(item)], symbols)?;
            }
            Ok(acc)
        }
    }
}

/// One call of a parallel collection operation, in a machine of its own.
fn call_in_worker(vm: &VM, call: &Call, args: Vec<Value>, symbols: &mut u64) -> Result<Value, String> {
    let mut w = vm.worker();
    w.start_call(call, args).map_err(|e| e.message)?;
    while !w.halted && w.instruction_pointer < w.current_bytecode.len() {
        match w.execute_one_instruction() {
            Ok(Effect::Continue) | Ok(Effect::Print(_)) => {}
            Ok(Effect::FloatArithmetic(..)) => return Err("float".to_string()),
            Ok(Effect::Request(q)) => {
                let v = host(&w, q, symbols)?;
                w.answer(v);
            }
            Err(e) => return Err(e.message),
        }
    }
    w.end_call().map_err(|e| e.message)
}

fn run(vm: &mut VM, code: Vec<Instruction>) -> Result<Vec<Value>, String> {
    vm.current_bytecode = code;
    vm.instruction_pointer = 0;
    vm.halted = false;
    let mut printed = Vec::new();
    let mut steps = 0;
    let mut symbols = 0u64;
    while !vm.halted && steps < 10_000 {
        match vm.execute_one_instruction() {
            Ok(Effect::Continue) => {}
            Ok(Effect::Print(v)) => printed.push(v),
            Ok(Effect::FloatArithmetic(op, a, b)) => {
                let x = as_f64(&a);
                let y = as_f64(&b);
                let result = if op <= 4 || op == 13 {
                    Value::Float(float_op(op, x, y).to_bits())
                } else {
                    let r = match op {
                        5 => x <= y,
                        15 => x < y,
                        16 => x > y,
                        17 => x >= y,
                        18 => x == y,
                        _ => x != y,
                    };
                    Value::Boolean(r)
                };
                vm.finish_float(result);
            }
            Ok(Effect::Request(Request::Eval(_))) => vm.run_eval().map_err(|e| e.message)?,
            Ok(Effect::Request(Request::LoadSource(path, require))) => {
                if require && vm.is_module_loaded(&path) {
                    vm.answer(Value::Boolean(true));
                } else {
                    let text = match path.as_str() {
                        "lib.lisp" => "(defun twice (x) (* 2 x))",
                        _ => return Err(format!("no file {}", path)),
                    };
                    vm.run_loaded(text, if require { Some(path.clone()) } else { None }).map_err(|e| e.message)?;
                }
            }
            Ok(Effect::Request(q)) => {
                let v = host(vm, q, &mut symbols)?;
                vm.answer(v);
            }
            Err(e) => return Err(e.message),
        }
        steps += 1;
    }
    Ok(printed)
}

fn num(n: i64) -> Instruction {
    Instruction::Push(Value::Integer(n))
}

fn text(s: &str) -> Instruction {
    Instruction::Push(Value::String(s.to_string()))
}

fn top(vm: &VM) -> &Value {
    vm.value_stack.last().expect("a value on the stack")
}

fn top_int(vm: &VM) -> i64 {
    match top(vm) {
        Value::Integer(n) => *n,
        other => panic!("expected an integer, got {:?}", other),
    }
}

fn top_text(vm: &VM) -> String {
    match top(vm) {
        Value::String(s) => s.clone(),
        other => panic!("expected a string, got {:?}", other),
    }
}

fn texts_of(v: &Value) -> Vec<String> {
    match v {
        Value::List(l) => l
            .items()
            .iter()
            .map(|x| match x {
                Value::String(s) => s.clone(),
                other => panic!("expected a string, got {:?}", other),
            })
            .collect(),
        other => panic!("expected a list, got {:?}", other),
    }
}

#[test]
fn adds_and_prints() {
    let mut vm = VM::new();
    let printed = run(&mut vm, vec![num(2), num(3), Instruction::Add, Instruction::Print, Instruction::Halt]).unwrap();
    assert_eq!(printed.len(), 1);
    assert!(matches!(printed[0], Value::Integer(5)));
    assert_eq!(top_int(&vm), 5);
    assert!(vm.halted);
}

#[test]
fn integer_arithmetic_truncates_toward_zero() {
    let mut vm = VM::new();
    run(&mut vm, vec![num(-7), num(2), Instruction::Div, Instruction::Halt]).unwrap();
    assert_eq!(top_int(&vm), -3);
    let mut vm = VM::new();
    run(&mut vm, vec![num(-7), num(2), Instruction::Mod, Instruction::Halt]).unwrap();
    assert_eq!(top_int(&vm), -1);
}

#[test]
fn division_by_zero_fails() {
    let mut vm = VM::new();
    let err = run(&mut vm, vec![num(1), num(0), Instruction::Div]).unwrap_err();
    assert_eq!(err, "Division by zero");
}

#[test]
fn type_error_names_both_types() {
    let mut vm = VM::new();
    let err = run(&mut vm, vec![num(1), Instruction::Push(Value::Boolean(true)), Instruction::Add]).unwrap_err();
    assert_eq!(err, "Type error: '+' expects two numbers, got integer and boolean");
}

#[test]
fn calls_a_builtin_function() {
    let mut vm = VM::new();
    run(&mut vm, vec![num(4), num(5), Instruction::Call("+".to_string(), 2), Instruction::Halt]).unwrap();
    assert_eq!(top_int(&vm), 9);
    assert!(vm.call_stack.is_empty());
}

#[test]
fn calls_a_defined_function_and_returns() {
    let mut vm = VM::new();
    vm.define_function(
        "square".to_string(),
        vec![Instruction::LoadArg(0), Instruction::LoadArg(0), Instruction::Mul, Instruction::Ret],
    );
    run(&mut vm, vec![num(7), Instruction::Call("square".to_string(), 1), Instruction::Halt]).unwrap();
    assert_eq!(top_int(&vm), 49);
}

#[test]
fn undefined_function_fails() {
    let mut vm = VM::new();
    let err = run(&mut vm, vec![Instruction::Call("nope".to_string(), 0)]).unwrap_err();
    assert_eq!(err, "Undefined function 'nope'");
}

#[test]
fn conditional_jump_takes_the_false_branch() {
    let mut vm = VM::new();
    let code = vec![
        Instruction::Push(Value::Boolean(false)),
        Instruction::JmpIfFalse(4),
        num(1),
        Instruction::Jmp(5),
        num(2),
        Instruction::Halt,
    ];
    run(&mut vm, code).unwrap();
    assert_eq!(top_int(&vm), 2);
    assert_eq!(vm.value_stack.len(), 1);
}

#[test]
fn closure_call_adds_one() {
    let mut vm = VM::new();
    let body = vec![Instruction::LoadArg(0), num(1), Instruction::Add, Instruction::Ret];
    let code = vec![
        Instruction::MakeClosure(vec!["x".to_string()], body, 0),
        num(41),
        Instruction::CallClosure(1),
        Instruction::Halt,
    ];
    run(&mut vm, code).unwrap();
    assert_eq!(top_int(&vm), 42);
}

#[test]
fn closure_arity_is_checked() {
    let mut vm = VM::new();
    let body = vec![Instruction::LoadArg(0), Instruction::Ret];
    let code = vec![Instruction::MakeClosure(vec!["x".to_string()], body, 0), Instruction::CallClosure(0)];
    let err = run(&mut vm, code).unwrap_err();
    assert!(err.contains("arity"), "{}", err);
}

#[test]
fn stack_trace_names_the_frames() {
    let mut vm = VM::new();
    vm.define_function("inner".to_string(), vec![Instruction::Halt]);
    vm.define_function("outer".to_string(), vec![Instruction::Call("inner".to_string(), 0), Instruction::Ret]);
    run(&mut vm, vec![Instruction::Call("outer".to_string(), 0)]).unwrap();
    assert_eq!(vm.get_stack_trace(), vec!["outer".to_string(), "inner".to_string()]);
}

#[test]
fn lists_are_built_and_taken_apart() {
    let mut vm = VM::new();
    run(&mut vm, vec![num(1), num(2), num(3), Instruction::MakeList(3), Instruction::Cdr, Instruction::Car, Instruction::Halt])
        .unwrap();
    assert_eq!(top_int(&vm), 2);
    let mut vm = VM::new();
    let err = run(&mut vm, vec![Instruction::MakeList(0), Instruction::Car]).unwrap_err();
    assert_eq!(err, "'car' cannot take the first element of an empty list");
}

#[test]
fn vectors_are_indexed() {
    let mut vm = VM::new();
    run(&mut vm, vec![num(10), num(20), num(30), Instruction::MakeVector(3), num(1), Instruction::VectorGet, Instruction::Halt])
        .unwrap();
    assert_eq!(top_int(&vm), 20);
}

#[test]
fn hash_map_keys_must_be_strings() {
    let mut vm = VM::new();
    let err = run(&mut vm, vec![num(1), num(2), Instruction::MakeHashMap(1)]).unwrap_err();
    assert_eq!(err, "Type error: hashmap keys must be strings, got integer");
    let mut vm = VM::new();
    run(&mut vm, vec![text("a"), num(2), Instruction::MakeHashMap(1), text("a"), Instruction::HashMapGet, Instruction::Halt])
        .unwrap();
    assert_eq!(top_int(&vm), 2);
}

#[test]
fn global_variables_are_stored_and_loaded() {
    let mut vm = VM::new();
    let code = vec![
        num(5),
        Instruction::StoreGlobal("g".to_string()),
        Instruction::LoadGlobal("g".to_string()),
        Instruction::Halt,
    ];
    run(&mut vm, code).unwrap();
    assert_eq!(top_int(&vm), 5);
    let mut vm = VM::new();
    let err = run(&mut vm, vec![Instruction::LoadGlobal("missing".to_string())]).unwrap_err();
    assert_eq!(err, "Undefined global variable 'missing'");
}

#[test]
fn float_addition_goes_to_the_host() {
    let mut vm = VM::new();
    let code = vec![
        Instruction::Push(Value::Float(1.5f64.to_bits())),
        Instruction::Push(Value::Float(2.5f64.to_bits())),
        Instruction::Add,
        Instruction::Halt,
    ];
    run(&mut vm, code).unwrap();
    match top(&vm) {
        Value::Float(bits) => assert_eq!(f64::from_bits(*bits), 4.0),
        other => panic!("expected a float, got {:?}", other),
    }
}

#[test]
fn string_length_counts_bytes() {
    let mut vm = VM::new();
    run(&mut vm, vec![text("hello"), Instruction::StringLength, Instruction::Halt]).unwrap();
    assert_eq!(top_int(&vm), 5);
    let mut vm = VM::new();
    run(&mut vm, vec![text("é"), Instruction::StringLength, Instruction::Halt]).unwrap();
    assert_eq!(top_int(&vm), 2);
}

#[test]
fn strings_are_appended_and_cut() {
    let mut vm = VM::new();
    run(&mut vm, vec![text("foo"), text("bar"), Instruction::StringAppend, Instruction::Halt]).unwrap();
    assert_eq!(top_text(&vm), "foobar");
    let mut vm = VM::new();
    run(&mut vm, vec![text("hello world"), num(6), num(11), Instruction::Substring, Instruction::Halt]).unwrap();
    assert_eq!(top_text(&vm), "world");
    let mut vm = VM::new();
    let err = run(&mut vm, vec![text("abc"), num(2), num(1), Instruction::Substring]).unwrap_err();
    assert_eq!(err, "'substring' invalid indices: start=2, end=1, string length=3");
}

#[test]
fn strings_are_split_and_joined() {
    let mut vm = VM::new();
    run(&mut vm, vec![text("a,b,,c"), text(","), Instruction::StringSplit, Instruction::Halt]).unwrap();
    assert_eq!(texts_of(top(&vm)), vec!["a", "b", "", "c"]);
    let mut vm = VM::new();
    run(&mut vm, vec![text("abc"), text(""), Instruction::StringSplit, Instruction::Halt]).unwrap();
    assert_eq!(texts_of(top(&vm)), vec!["a", "b", "c"]);
    let mut vm = VM::new();
    run(&mut vm, vec![text("x"), text("y"), text("z"), Instruction::MakeList(3), text("-"), Instruction::StringJoin, Instruction::Halt])
        .unwrap();
    assert_eq!(top_text(&vm), "x-y-z");
}

#[test]
fn strings_are_replaced_and_trimmed() {
    let mut vm = VM::new();
    run(&mut vm, vec![text("aXbXc"), text("X"), text("--"), Instruction::StringReplace, Instruction::Halt]).unwrap();
    assert_eq!(top_text(&vm), "a--b--c");
    let mut vm = VM::new();
    run(&mut vm, vec![text("ab"), text(""), text("."), Instruction::StringReplace, Instruction::Halt]).unwrap();
    assert_eq!(top_text(&vm), ".a.b.");
    let mut vm = VM::new();
    run(&mut vm, vec![text("  padded \n"), Instruction::StringTrim, Instruction::Halt]).unwrap();
    assert_eq!(top_text(&vm), "padded");
}

#[test]
fn numbers_and_strings_convert() {
    let mut vm = VM::new();
    run(&mut vm, vec![text(" -42 "), Instruction::StringToNumber, Instruction::Halt]).unwrap();
    assert_eq!(top_int(&vm), -42);
    let mut vm = VM::new();
    let err = run(&mut vm, vec![text("4x"), Instruction::StringToNumber]).unwrap_err();
    assert_eq!(err, "Type error: 'string->number' cannot parse '4x' as a number");
    let mut vm = VM::new();
    run(&mut vm, vec![num(-120), Instruction::NumberToString, Instruction::Halt]).unwrap();
    assert_eq!(top_text(&vm), "-120");
    let mut vm = VM::new();
    run(&mut vm, vec![text("A"), Instruction::CharCode, Instruction::Halt]).unwrap();
    assert_eq!(top_int(&vm), 65);
    let mut vm = VM::new();
    let err = run(&mut vm, vec![text("AB"), Instruction::CharCode]).unwrap_err();
    assert_eq!(err, "'char-code' expects a single-character string, got 2 characters");
}

#[test]
fn strings_and_lists_convert() {
    let mut vm = VM::new();
    run(&mut vm, vec![text("hey"), Instruction::StringToList, Instruction::Halt]).unwrap();
    assert_eq!(texts_of(top(&vm)), vec!["h", "e", "y"]);
    let mut vm = VM::new();
    run(&mut vm, vec![text("ab"), text("cd"), Instruction::MakeList(2), Instruction::ListToString, Instruction::Halt]).unwrap();
    assert_eq!(top_text(&vm), "abcd");
    let mut vm = VM::new();
    let err = run(&mut vm, vec![text("ab"), num(3), Instruction::MakeList(2), Instruction::ListToString]).unwrap_err();
    assert_eq!(err, "Type error: 'list->string' expects a list of strings, but found integer");
}

#[test]
fn symbols_and_strings_convert() {
    let mut vm = VM::new();
    run(&mut vm, vec![text("abc"), Instruction::StringToSymbol, Instruction::Halt]).unwrap();
    assert!(matches!(top(&vm), Value::Symbol(s) if s == "abc"));
    let mut vm = VM::new();
    let err = run(&mut vm, vec![num(1), Instruction::SymbolToString]).unwrap_err();
    assert_eq!(err, "Type error: 'symbol->string' expects a symbol, got integer");
}

#[test]
fn type_of_names_the_type() {
    let mut vm = VM::new();
    run(&mut vm, vec![Instruction::Push(Value::Boolean(true)), Instruction::TypeOf, Instruction::Halt]).unwrap();
    assert!(matches!(top(&vm), Value::Symbol(s) if s == "boolean"));
}

#[test]
fn closures_can_be_inspected() {
    let data = ClosureData {
        params: vec!["a".to_string(), "b".to_string()],
        rest_param: Some("more".to_string()),
        body: vec![Instruction::Ret],
        captured: vec![("k".to_string(), Value::Integer(3))],
    };
    let mut vm = VM::new();
    run(&mut vm, vec![Instruction::Push(Value::Closure(Box::new(data))), Instruction::FunctionParams, Instruction::Halt]).unwrap();
    assert_eq!(texts_of(top(&vm)), vec!["a", "b", ". more"]);
    let data = ClosureData {
        params: vec![],
        rest_param: None,
        body: vec![Instruction::Ret],
        captured: vec![("k".to_string(), Value::Integer(3))],
    };
    let mut vm = VM::new();
    run(&mut vm, vec![Instruction::Push(Value::Closure(Box::new(data))), Instruction::ClosureCaptured, Instruction::Halt]).unwrap();
    match top(&vm) {
        Value::List(l) => {
            assert_eq!(l.len(), 1);
            match &l.items()[0] {
                Value::List(pair) => {
                    assert!(matches!(&pair.items()[0], Value::String(s) if s == "k"));
                    assert!(matches!(pair.items()[1], Value::Integer(3)));
                }
                other => panic!("expected a pair, got {:?}", other),
            }
        }
        other => panic!("expected a list, got {:?}", other),
    }
    let mut vm = VM::new();
    run(&mut vm, vec![Instruction::Push(Value::Function("car".to_string())), Instruction::FunctionName, Instruction::Halt]).unwrap();
    assert_eq!(top_text(&vm), "car");
}

#[test]
fn unsupported_instruction_is_reported() {
    let mut vm = VM::new();
    let err = run(&mut vm, vec![Instruction::HttpClose]).unwrap_err();
    assert_eq!(err, "Unsupported instruction: HttpClose");
}

#[test]
fn empty_list_value_prints_as_list() {
    let mut vm = VM::new();
    run(&mut vm, vec![Instruction::Push(Value::List(List::nil())), Instruction::IsList, Instruction::Halt]).unwrap();
    assert!(matches!(top(&vm), Value::Boolean(true)));
}

#[test]
fn apply_calls_with_list_arguments() {
    let mut vm = VM::new();
    let code = vec![
        Instruction::Push(Value::Function("+".to_string())),
        num(3),
        num(4),
        Instruction::MakeList(2),
        Instruction::Apply,
        Instruction::Halt,
    ];
    run(&mut vm, code).unwrap();
    assert_eq!(top_int(&vm), 7);
    let mut vm = VM::new();
    let err = run(&mut vm, vec![num(1), num(2), Instruction::Apply]).unwrap_err();
    assert_eq!(err, "Type error in apply: expected list of arguments, got integer");
}

#[test]
fn program_arguments_are_a_list_of_strings() {
    let mut vm = VM::new();
    vm.args = vec!["a".to_string(), "bc".to_string()];
    run(&mut vm, vec![Instruction::GetArgs, Instruction::Halt]).unwrap();
    assert_eq!(texts_of(top(&vm)), vec!["a", "bc"]);
}

#[test]
fn split_then_join_gives_the_string_back() {
    for (s, sep) in [("a,b,,c", ","), ("one--two--", "--"), ("no separator", "#"), ("", ";")] {
        let mut vm = VM::new();
        run(
            &mut vm,
            vec![text(s), text(sep), Instruction::StringSplit, text(sep), Instruction::StringJoin, Instruction::Halt],
        )
        .unwrap();
        assert_eq!(top_text(&vm), s);
    }
}

#[test]
fn replacing_a_pattern_by_itself_changes_nothing() {
    for (s, pat) in [("banana", "an"), ("aaaa", "aa"), ("xyz", "q")] {
        let mut vm = VM::new();
        run(&mut vm, vec![text(s), text(pat), text(pat), Instruction::StringReplace, Instruction::Halt]).unwrap();
        assert_eq!(top_text(&vm), s);
    }
}

#[test]
fn string_to_list_then_list_to_string_gives_the_string_back() {
    for s in ["", "x", "héllo wörld", "a b\tc"] {
        let mut vm = VM::new();
        run(&mut vm, vec![text(s), Instruction::StringToList, Instruction::ListToString, Instruction::Halt]).unwrap();
        assert_eq!(top_text(&vm), s);
    }
}

#[test]
fn number_to_string_then_back_gives_the_number() {
    for n in [0i64, 7, -120, i64::MAX, i64::MIN] {
        let mut vm = VM::new();
        run(&mut vm, vec![num(n), Instruction::NumberToString, Instruction::StringToNumber, Instruction::Halt]).unwrap();
        assert_eq!(top_int(&vm), n);
    }
}

#[test]
fn integer_abs_floor_and_ceil_stay_in_the_machine() {
    let mut vm = VM::new();
    run(&mut vm, vec![num(-9), Instruction::Abs, Instruction::Halt]).unwrap();
    assert_eq!(top_int(&vm), 9);
    let mut vm = VM::new();
    run(&mut vm, vec![num(-9), Instruction::Floor, Instruction::Halt]).unwrap();
    assert_eq!(top_int(&vm), -9);
    let mut vm = VM::new();
    run(&mut vm, vec![num(4), Instruction::Ceil, Instruction::Halt]).unwrap();
    assert_eq!(top_int(&vm), 4);
}

#[test]
fn float_math_goes_to_the_host() {
    let mut vm = VM::new();
    run(&mut vm, vec![num(16), Instruction::Sqrt, Instruction::Halt]).unwrap();
    assert_eq!(as_f64(top(&vm)), 4.0);
    let mut vm = VM::new();
    run(&mut vm, vec![Instruction::Push(float(2.7)), Instruction::Floor, Instruction::Halt]).unwrap();
    assert_eq!(top_int(&vm), 2);
    let mut vm = VM::new();
    run(&mut vm, vec![num(2), num(10), Instruction::Pow, Instruction::Halt]).unwrap();
    assert_eq!(as_f64(top(&vm)), 1024.0);
    let mut vm = VM::new();
    run(&mut vm, vec![num(5), Instruction::IntToFloat, Instruction::Halt]).unwrap();
    assert!(matches!(top(&vm), Value::Float(b) if f64::from_bits(*b) == 5.0));
    assert_eq!(vm.value_stack.len(), 1);
}

#[test]
fn math_type_errors_name_the_operation() {
    let mut vm = VM::new();
    let err = run(&mut vm, vec![text("x"), Instruction::Sqrt]).unwrap_err();
    assert_eq!(err, "Type error: 'sqrt' expects a number, got string");
    let mut vm = VM::new();
    let err = run(&mut vm, vec![Instruction::Push(float(1.5)), Instruction::IntToFloat]).unwrap_err();
    assert_eq!(err, "Type error: 'int->float' expects an integer, got float");
    let mut vm = VM::new();
    let err = run(&mut vm, vec![num(1), Instruction::FloatToInt]).unwrap_err();
    assert_eq!(err, "Type error: 'float->int' expects a float, got integer");
    let mut vm = VM::new();
    let err = run(&mut vm, vec![num(2), text("y"), Instruction::Pow]).unwrap_err();
    assert_eq!(err, "Type error: 'pow' expects numbers, got integer and string");
    let mut vm = VM::new();
    let err = run(&mut vm, vec![Instruction::Atan2]).unwrap_err();
    assert_eq!(err, "Stack underflow in Atan2");
}

#[test]
fn random_int_stays_below_its_bound() {
    for _ in 0..20 {
        let mut vm = VM::new();
        run(&mut vm, vec![num(7), Instruction::RandomInt, Instruction::Halt]).unwrap();
        let r = top_int(&vm);
        assert!((0..7).contains(&r));
    }
    let mut vm = VM::new();
    let err = run(&mut vm, vec![num(0), Instruction::RandomInt]).unwrap_err();
    assert_eq!(err, "Argument error: 'random-int' expects positive integer, got 0");
    let mut vm = VM::new();
    let err = run(&mut vm, vec![text("7"), Instruction::RandomInt]).unwrap_err();
    assert_eq!(err, "Type error: 'random-int' expects integer, got string");
    let mut vm = VM::new();
    run(&mut vm, vec![num(42), Instruction::SeedRandom, Instruction::Halt]).unwrap();
    assert_eq!(top_int(&vm), 42);
}

#[test]
fn timestamps_are_read_and_formatted() {
    let mut vm = VM::new();
    run(&mut vm, vec![Instruction::CurrentTimestamp, Instruction::Halt]).unwrap();
    assert!(top_int(&vm) > 1_600_000_000);
    let mut vm = VM::new();
    run(&mut vm, vec![num(0), text("%Y-%m-%d"), Instruction::FormatTimestamp, Instruction::Halt]).unwrap();
    assert_eq!(top_text(&vm), "1970-01-01");
    let mut vm = VM::new();
    let err = run(&mut vm, vec![text("0"), text("%Y"), Instruction::FormatTimestamp]).unwrap_err();
    assert_eq!(err, "Type error: 'format-timestamp' expects integer and string, got string and string");
}

#[test]
fn function_arity_reads_the_code() {
    let mut vm = VM::new();
    vm.define_function(
        "three".to_string(),
        vec![Instruction::LoadArg(2), Instruction::LoadArg(0), Instruction::Ret],
    );
    vm.define_function("checked".to_string(), vec![Instruction::CheckArity(2, 5), Instruction::Ret]);
    vm.define_function("rest".to_string(), vec![Instruction::PackRestArgs(1), Instruction::Ret]);
    for (name, arity) in [("three", 3), ("checked", 2), ("rest", -1), ("+", 2)] {
        run(&mut vm, vec![Instruction::Push(Value::Function(name.to_string())), Instruction::FunctionArity, Instruction::Halt])
            .unwrap();
        assert_eq!(top_int(&vm), arity);
    }
    let err = run(&mut vm, vec![Instruction::Push(Value::Function("nope".to_string())), Instruction::FunctionArity])
        .unwrap_err();
    assert_eq!(err, "Unknown function: nope");
}

#[test]
fn gensym_gives_fresh_symbols() {
    let mut vm = VM::new();
    run(&mut vm, vec![Instruction::GenSym, Instruction::GenSym, Instruction::Halt]).unwrap();
    assert!(matches!(top(&vm), Value::Symbol(s) if s == "G__1"));
}

#[test]
fn files_are_requested_from_the_host() {
    let mut vm = VM::new();
    let err = run(&mut vm, vec![text("a.txt"), Instruction::ReadFile]).unwrap_err();
    assert_eq!(err, "read a.txt");
    let mut vm = VM::new();
    let err = run(&mut vm, vec![num(3), Instruction::ReadFile]).unwrap_err();
    assert_eq!(err, "Type error: 'read-file' expects a string path, got integer");
    let mut vm = VM::new();
    let err = run(&mut vm, vec![text("b.bin"), num(1), num(255), Instruction::MakeList(2), Instruction::WriteBinaryFile])
        .unwrap_err();
    assert_eq!(err, "bytes b.bin [1, 255]");
    let mut vm = VM::new();
    let err = run(&mut vm, vec![text("b.bin"), num(1), num(256), Instruction::MakeList(2), Instruction::WriteBinaryFile])
        .unwrap_err();
    assert_eq!(err, "'write-binary-file' expects a list of integers 0-255, but found integer");
}

fn doubling_closure() -> Instruction {
    Instruction::Push(Value::Closure(Box::new(ClosureData {
        params: vec!["x".to_string()],
        rest_param: None,
        body: vec![Instruction::LoadArg(0), num(2), Instruction::Mul, Instruction::Ret],
        captured: Vec::new(),
    })))
}

fn ints_of(v: &Value) -> Vec<i64> {
    match v {
        Value::List(l) => l
            .items()
            .iter()
            .map(|x| match x {
                Value::Integer(n) => *n,
                other => panic!("expected an integer, got {:?}", other),
            })
            .collect(),
        other => panic!("expected a list, got {:?}", other),
    }
}

#[test]
fn pmap_calls_the_closure_on_each_item() {
    let mut vm = VM::new();
    run(&mut vm, vec![doubling_closure(), num(1), num(2), num(3), Instruction::MakeList(3), Instruction::PMap, Instruction::Halt])
        .unwrap();
    assert_eq!(ints_of(top(&vm)), vec![2, 4, 6]);
    let mut vm = VM::new();
    let err = run(&mut vm, vec![doubling_closure(), num(1), Instruction::PMap]).unwrap_err();
    assert_eq!(err, "Type error: pmap expects list, got integer");
    let mut vm = VM::new();
    let err = run(&mut vm, vec![num(5), num(1), Instruction::MakeList(1), Instruction::PMap]).unwrap_err();
    assert_eq!(err, "Type error: pmap expects function or closure, got integer");
}

#[test]
fn pfilter_keeps_the_items_the_function_accepts() {
    let mut vm = VM::new();
    vm.define_function(
        "big".to_string(),
        vec![Instruction::LoadArg(0), num(2), Instruction::Gt, Instruction::Ret],
    );
    run(
        &mut vm,
        vec![
            Instruction::Push(Value::Function("big".to_string())),
            num(1),
            num(5),
            num(2),
            num(7),
            Instruction::MakeList(4),
            Instruction::PFilter,
            Instruction::Halt,
        ],
    )
    .unwrap();
    assert_eq!(ints_of(top(&vm)), vec![5, 7]);
}

#[test]
fn preduce_folds_from_the_initial_value() {
    let mut vm = VM::new();
    run(
        &mut vm,
        vec![num(1), num(2), num(3), Instruction::MakeList(3), num(10), Instruction::Push(Value::Function("+".to_string())), Instruction::PReduce, Instruction::Halt],
    )
    .unwrap();
    assert_eq!(top_int(&vm), 16);
    let mut vm = VM::new();
    run(&mut vm, vec![Instruction::MakeList(0), num(10), num(0), Instruction::PReduce, Instruction::Halt]).unwrap();
    assert_eq!(top_int(&vm), 10);
}

#[test]
fn eval_compiles_and_runs_source_text() {
    let mut vm = VM::new();
    run(&mut vm, vec![text("(+ 1 2)"), Instruction::Eval, Instruction::Halt]).unwrap();
    assert_eq!(top_int(&vm), 3);
    assert_eq!(vm.value_stack.len(), 1);
    let mut vm = VM::new();
    run(&mut vm, vec![text("(defun sq (x) (* x x))"), Instruction::Eval, num(7), Instruction::Call("sq".to_string(), 1), Instruction::Halt])
        .unwrap();
    assert_eq!(top_int(&vm), 49);
}

#[test]
fn eval_reports_parse_and_type_errors() {
    let mut vm = VM::new();
    let err = run(&mut vm, vec![text("(+ 1"), Instruction::Eval]).unwrap_err();
    assert!(err.starts_with("'eval' failed to parse code: "), "{}", err);
    let mut vm = VM::new();
    let err = run(&mut vm, vec![num(1), Instruction::Eval]).unwrap_err();
    assert_eq!(err, "Type error: 'eval' expects a string, got integer");
}

#[test]
fn load_runs_a_file_and_require_runs_it_once() {
    let mut vm = VM::new();
    run(&mut vm, vec![text("lib.lisp"), Instruction::LoadFile, num(5), Instruction::Call("twice".to_string(), 1), Instruction::Halt])
        .unwrap();
    assert_eq!(top_int(&vm), 10);
    assert!(matches!(vm.value_stack[0], Value::Boolean(true)));
    let mut vm = VM::new();
    run(&mut vm, vec![text("lib.lisp"), Instruction::RequireFile, text("lib.lisp"), Instruction::RequireFile, Instruction::Halt]).unwrap();
    assert_eq!(vm.loaded_modules, vec!["lib.lisp".to_string()]);
    assert_eq!(vm.value_stack.len(), 2);
    let mut vm = VM::new();
    let err = run(&mut vm, vec![num(3), Instruction::RequireFile]).unwrap_err();
    assert_eq!(err, "Type error: 'require' expects a string path, got integer");
}

#[test]
fn a_failed_division_has_taken_both_operands() {
    let mut vm = VM::new();
    let err = run(&mut vm, vec![num(5), num(1), num(0), Instruction::Mod]).unwrap_err();
    assert_eq!(err, "Modulo by zero");
    assert_eq!(vm.value_stack.len(), 1);
    assert_eq!(top_int(&vm), 5);
    assert_eq!(vm.instruction_pointer, 3);
}

#[test]
fn a_failed_conditional_jump_has_taken_its_test() {
    let mut vm = VM::new();
    let err = run(&mut vm, vec![num(5), num(1), Instruction::JmpIfFalse(0)]).unwrap_err();
    assert_eq!(err, "Type error: conditional expects boolean, got integer");
    assert_eq!(vm.value_stack.len(), 1);
    assert_eq!(vm.instruction_pointer, 2);
}
