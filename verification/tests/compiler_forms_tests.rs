use lisp_bytecode_vm::compiler::Compiler;
use lisp_bytecode_vm::instructions::Instruction;
use lisp_bytecode_vm::parser::Parser;
use lisp_bytecode_vm::value::Value;

fn compile(src: &str) -> Result<(Vec<(String, Vec<Instruction>)>, Vec<Instruction>), String> {
    let mut parser = Parser::new(src);
    let exprs = parser.parse_all()?;
    let mut compiler = Compiler::new();
    compiler.compile_program(&exprs).map_err(|e| e.message)
}

fn failure_of(src: &str) -> String {
    compile(src).expect_err("a compile error")
}

#[test]
fn importing_an_unexported_name_is_refused() {
    let src = "(module math (export add) (defun add (a b) (+ a b))) (import math sub)";
    assert_eq!(failure_of(src), "Symbol 'sub' is not exported by module 'math'");
}

#[test]
fn importing_an_unknown_module_is_refused() {
    assert_eq!(failure_of("(import nope)"), "Unknown module 'nope'");
}

#[test]
fn macro_parameters_must_be_symbols() {
    assert_eq!(failure_of("(defmacro m (1) 1)"), "Macro parameters must be symbols");
}

#[test]
fn variadic_clause_patterns_are_refused() {
    assert_eq!(
        failure_of("(defun f ((a b . c) 1))"),
        "Variadic patterns (a b . rest) not yet supported in multi-clause defun. Use single-clause defun with variadic parameters."
    );
}

#[test]
fn nested_let_patterns_hold_only_names() {
    assert_eq!(
        failure_of("(let (((a (b c)) (list 1 (list 2 3)))) a)"),
        "Only simple variables and wildcards supported in nested patterns"
    );
}

#[test]
fn a_macro_cannot_expand_into_a_closure() {
    assert_eq!(
        failure_of("(defmacro bad () (lambda (x) x)) (bad)"),
        "Cannot convert closure to expression in macro expansion"
    );
}

#[test]
fn module_exports_are_replaced_in_place() {
    let mut c = Compiler::new();
    c.with_known_module_exports("m", &vec!["a".to_string()]);
    c.with_known_module_exports("n", &Vec::new());
    c.with_known_module_exports("m", &vec!["b".to_string(), "c".to_string()]);
    assert_eq!(c.module_exports.len(), 2);
    assert_eq!(c.module_exports[0].0, "m");
    assert_eq!(c.module_exports[0].1, vec!["b".to_string(), "c".to_string()]);
    assert_eq!(c.module_exports[1].0, "n");
    assert!(c.module_exports[1].1.is_empty());
}

#[test]
fn exported_names_are_recorded_once() {
    let src = "(module m (export f f) (defun f (x) x)) (import m f) (f 1)";
    assert!(compile(src).is_ok());
}

#[test]
fn a_macro_with_a_constant_body_expands_to_it() {
    let (_, main) = compile("(defmacro five () 5) (five)").unwrap();
    assert!(matches!(main.first(), Some(Instruction::Push(Value::Integer(5)))));
    assert!(matches!(main.last(), Some(Instruction::Halt)));
}

#[test]
fn a_quasiquoted_list_of_constants_is_one_constant() {
    let (_, main) = compile("(quasiquote (1 2 3))").unwrap();
    match main.first() {
        Some(Instruction::Push(Value::List(l))) => assert_eq!(l.len(), 3),
        other => panic!("expected a pushed list, got {:?}", other),
    }
}

fn main_of(src: &str) -> Vec<Instruction> {
    compile(src).expect("compiles").1
}

fn same_code(got: Vec<Instruction>, want: Vec<Instruction>) {
    assert_eq!(format!("{:?}", got), format!("{:?}", want));
}

#[test]
fn do_drops_every_value_but_the_last() {
    let main = main_of("(do 1 2)");
    same_code(
        main,
        vec![
            Instruction::Push(Value::Integer(1)),
            Instruction::PopN(1),
            Instruction::Push(Value::Integer(2)),
            Instruction::Halt,
        ]
    );
}

#[test]
fn when_is_a_conditional_with_a_false_else() {
    let main = main_of("(when true 1)");
    same_code(
        main,
        vec![
            Instruction::Push(Value::Boolean(true)),
            Instruction::JmpIfFalse(4),
            Instruction::Push(Value::Integer(1)),
            Instruction::Jmp(5),
            Instruction::Push(Value::Boolean(false)),
            Instruction::Halt,
        ]
    );
}

#[test]
fn and_and_or_test_each_operand_but_the_last() {
    same_code(
        main_of("(and true 2)"),
        vec![
            Instruction::Push(Value::Boolean(true)),
            Instruction::JmpIfFalse(4),
            Instruction::Push(Value::Integer(2)),
            Instruction::Jmp(5),
            Instruction::Push(Value::Boolean(false)),
            Instruction::Halt,
        ]
    );
    same_code(
        main_of("(or false 2)"),
        vec![
            Instruction::Push(Value::Boolean(false)),
            Instruction::JmpIfFalse(4),
            Instruction::Push(Value::Boolean(true)),
            Instruction::Jmp(5),
            Instruction::Push(Value::Integer(2)),
            Instruction::Halt,
        ]
    );
}
