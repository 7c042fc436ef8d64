use lisp_bytecode_vm::ast::{boolean, list, number, symbol};
use lisp_bytecode_vm::compiler::Compiler;
use lisp_bytecode_vm::instructions::Instruction;
use lisp_bytecode_vm::machine::{Effect, VM};
use lisp_bytecode_vm::parser::Parser;
use lisp_bytecode_vm::value::Value;

fn compile(src: &str) -> Result<(Vec<(String, Vec<Instruction>)>, Vec<Instruction>), String> {
    let mut parser = Parser::new(src);
    let exprs = parser.parse_all()?;
    let mut compiler = Compiler::new();
    compiler.compile_program(&exprs).map_err(|e| e.message)
}

fn run(src: &str) -> Result<(Value, Vec<Value>), String> {
    let (functions, main) = compile(src)?;
    let mut vm = VM::new();
    for (name, code) in functions {
        vm.define_function(name, code);
    }
    vm.current_bytecode = main;
    let mut printed = Vec::new();
    let mut steps = 0;
    while !vm.halted && steps < 100_000 {
        match vm.execute_one_instruction() {
            Ok(Effect::Continue) => {}
            Ok(Effect::Print(v)) => printed.push(v),
            Ok(Effect::FloatArithmetic(..)) => return Err("float".to_string()),
            Ok(Effect::Request(_)) => return Err("request".to_string()),
            Err(e) => return Err(e.message),
        }
        steps += 1;
    }
    let top = vm.value_stack.pop().ok_or_else(|| "empty stack".to_string())?;
    Ok((top, printed))
}

fn int_result(src: &str) -> i64 {
    match run(src) {
        Ok((Value::Integer(n), _)) => n,
        other => panic!("expected an integer from {}, got {:?}", src, other.map(|p| p.0)),
    }
}

fn compile_failure(src: &str) -> String {
    compile(src).expect_err("a compile error")
}

#[test]
fn folds_arithmetic_from_the_left() {
    assert_eq!(int_result("(+ 1 2 3)"), 6);
    assert_eq!(int_result("(- 10 2 3)"), 5);
    assert_eq!(int_result("(* 2 3 4)"), 24);
    assert_eq!(int_result("(/ 20 2 2)"), 5);
    assert_eq!(int_result("(% 10 3 2)"), 1);
}

#[test]
fn arithmetic_needs_two_operands() {
    assert_eq!(compile_failure("(+ 1)"), "+ expects at least 2 arguments");
    assert_eq!(compile_failure("(neg 1 2)"), "neg expects exactly 1 argument");
}

#[test]
fn conditionals_choose_a_branch() {
    assert_eq!(int_result("(if (< 1 2) 10 20)"), 10);
    assert_eq!(int_result("(if (> 1 2) 10 20)"), 20);
    assert_eq!(int_result("(cond ((> 1 2) 1) ((> 2 1) 2) (else 3))"), 2);
    assert_eq!(int_result("(cond ((> 1 2) 1) (else 3))"), 3);
    assert!(matches!(run("(when (> 1 2) 5)").unwrap().0, Value::Boolean(false)));
    assert_eq!(int_result("(unless (> 1 2) 5)"), 5);
    assert_eq!(compile_failure("(if 1 2)"), "if expects exactly 3 arguments (condition, then, else)");
}

#[test]
fn and_or_short_circuit() {
    assert!(matches!(run("(and true false true)").unwrap().0, Value::Boolean(false)));
    assert!(matches!(run("(and true true)").unwrap().0, Value::Boolean(true)));
    assert!(matches!(run("(or false false true)").unwrap().0, Value::Boolean(true)));
    assert!(matches!(run("(or false false)").unwrap().0, Value::Boolean(false)));
}

#[test]
fn recursive_function() {
    assert_eq!(int_result("(defun fact (n) (if (<= n 1) 1 (* n (fact (- n 1))))) (fact 5)"), 120);
}

#[test]
fn tail_recursive_function() {
    assert_eq!(int_result("(defun sum (n acc) (if (== n 0) acc (sum (- n 1) (+ acc n)))) (sum 100 0)"), 5050);
}

#[test]
fn let_binds_values() {
    assert_eq!(int_result("(let ((x 2) (y 3)) (* x y))"), 6);
    assert_eq!(int_result("(let ((p (list 1 2 3))) (let (((a b c) p)) (+ a c)))"), 4);
}

#[test]
fn lambda_captures_free_variables() {
    assert_eq!(int_result("(let ((k 10)) ((lambda (x) (+ x k)) 5))"), 15);
    assert_eq!(int_result("(defun twice (f x) (f (f x))) (twice (lambda (y) (* y 3)) 2)"), 18);
}

#[test]
fn loop_and_recur() {
    assert_eq!(int_result("(loop ((i 0) (acc 0)) (if (> i 4) acc (recur (+ i 1) (+ acc i))))"), 10);
}

#[test]
fn multi_clause_function_matches_patterns() {
    let src = "(defun len (('()) 0) (((h . t)) (+ 1 (len t)))) (len (list 7 8 9))";
    assert_eq!(int_result(src), 3);
    let src = "(defun fib ((0) 0) ((1) 1) ((n) (+ (fib (- n 1)) (fib (- n 2))))) (fib 10)";
    assert_eq!(int_result(src), 55);
}

#[test]
fn globals_are_immutable() {
    assert_eq!(int_result("(def x 5) (* x x)"), 25);
    assert_eq!(compile_failure("(def x 5) (def x 6)"), "Cannot redefine constant 'x' - all bindings are immutable");
}

#[test]
fn quoted_data_is_not_evaluated() {
    match run("(quote (a 1))").unwrap().0 {
        Value::List(l) => {
            assert_eq!(l.len(), 2);
            assert!(matches!(&l.items()[0], Value::Symbol(s) if s == "a"));
            assert!(matches!(l.items()[1], Value::Integer(1)));
        }
        other => panic!("expected a list, got {:?}", other),
    }
}

#[test]
fn quasiquote_evaluates_unquoted_parts() {
    match run("(let ((x 5)) (quasiquote (a (unquote x))))").unwrap().0 {
        Value::List(l) => {
            assert_eq!(l.len(), 2);
            assert!(matches!(l.items()[1], Value::Integer(5)));
        }
        other => panic!("expected a list, got {:?}", other),
    }
}

#[test]
fn strings_and_printing() {
    match run("(string-append \"ab\" \"cd\")").unwrap().0 {
        Value::String(s) => assert_eq!(s, "abcd"),
        other => panic!("expected a string, got {:?}", other),
    }
    let (_, printed) = run("(print 42)").unwrap();
    assert!(matches!(printed[0], Value::Integer(42)));
}

#[test]
fn sequence_keeps_the_last_value() {
    assert_eq!(int_result("(do 1 2 3)"), 3);
    assert_eq!(int_result("1 2 3"), 3);
}

#[test]
fn undefined_names_are_reported() {
    assert_eq!(compile_failure("zzz"), "Undefined variable 'zzz'");
    assert_eq!(compile_failure("()"), "Empty list cannot be compiled");
    assert_eq!(compile_failure("(defvar x 1)"), "'defvar' has been removed - use 'def' for immutable bindings");
}

#[test]
fn every_jump_lands_inside_the_code() {
    let (functions, main) = compile("(defun f (n) (cond ((< n 0) 0) ((== n 0) 1) (else (and n (or n 2))))) (if (f 1) 1 2)").unwrap();
    let check = |code: &Vec<Instruction>| {
        for ins in code {
            match ins {
                Instruction::Jmp(a) | Instruction::JmpIfFalse(a) | Instruction::CheckArity(_, a) => {
                    assert!(*a <= code.len())
                }
                _ => {}
            }
        }
    };
    check(&main);
    for (_, code) in &functions {
        check(code);
    }
    assert!(matches!(main.last(), Some(Instruction::Halt)));
}

#[test]
fn modules_qualify_their_names() {
    let src = "(module math (export add) (defun add (a b) (+ a b))) (import math add) (add 2 3)";
    assert_eq!(int_result(src), 5);
    assert_eq!(int_result("(module m (export sq) (defun sq (x) (* x x))) (m/sq 4)"), 16);
}

#[test]
fn macros_expand_at_compile_time() {
    let src = "(defmacro my-unless (c e) (list (quote if) c false e)) (my-unless (> 1 2) 7)";
    assert_eq!(int_result(src), 7);
    let src = "(defmacro twice (x) (list (quote +) x x)) (twice 21)";
    assert_eq!(int_result(src), 42);
}

#[test]
fn macroexpand_shows_the_expansion() {
    match run("(defmacro twice (x) (list (quote +) x x)) (macroexpand (quote (twice 3)))").unwrap().0 {
        Value::List(l) => {
            assert_eq!(l.len(), 3);
            assert!(matches!(&l.items()[0], Value::Symbol(s) if s == "+"));
            assert!(matches!(l.items()[1], Value::Integer(3)));
        }
        other => panic!("expected a list, got {:?}", other),
    }
}

#[test]
fn macro_arity_is_checked() {
    assert_eq!(
        compile_failure("(defmacro twice (x) (list (quote +) x x)) (twice 1 2)"),
        "Macro arity mismatch: expected 1, got 2"
    );
}

#[test]
fn expressions_built_by_hand_compile_and_run() {
    let expr = list(vec![symbol("if"), boolean(true), list(vec![symbol("+"), number(2), number(3)]), number(0)]);
    let mut compiler = Compiler::new();
    let (functions, main) = compiler.compile_program(&vec![expr]).map_err(|e| e.message).unwrap();
    let mut vm = VM::new();
    for (name, code) in functions {
        vm.define_function(name, code);
    }
    vm.current_bytecode = main;
    while !vm.halted {
        assert!(matches!(vm.execute_one_instruction(), Ok(Effect::Continue)));
    }
    assert!(matches!(vm.value_stack.last(), Some(Value::Integer(5))));
}

#[test]
fn gensym_in_macros_gives_distinct_symbols() {
    match run("(defmacro fresh () (list (quote quote) (gensym))) (list (fresh) (fresh))").unwrap().0 {
        Value::List(l) => {
            assert_eq!(l.len(), 2);
            assert!(matches!(&l.items()[0], Value::Symbol(s) if s == "G__0"));
            assert!(matches!(&l.items()[1], Value::Symbol(s) if s == "G__1"));
        }
        other => panic!("expected a list, got {:?}", other),
    }
}
