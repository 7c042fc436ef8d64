use lisp_bytecode_vm::disassembler::{disassemble_bytecode, format_instruction, format_instruction_with, get_statistics};
use lisp_bytecode_vm::instructions::{FfiType, Instruction};
use lisp_bytecode_vm::value::{List, Value};

#[test]
fn formats_plain_instructions() {
    assert_eq!(format_instruction(&Instruction::Add), "Add");
    assert_eq!(format_instruction(&Instruction::Jmp(5)), "Jmp(5)");
    assert_eq!(format_instruction(&Instruction::PopN(2)), "PopN(2)");
    assert_eq!(format_instruction(&Instruction::CheckArity(2, 9)), "CheckArity(2, 9)");
    assert_eq!(format_instruction(&Instruction::Call("f".to_string(), 2)), "Call(\"f\", 2)");
    assert_eq!(format_instruction(&Instruction::TailCall("g".to_string(), 0)), "TailCall(\"g\", 0)");
    assert_eq!(format_instruction(&Instruction::LoadGlobal("x".to_string())), "LoadGlobal(\"x\")");
    assert_eq!(format_instruction(&Instruction::StoreGlobal("y".to_string())), "StoreGlobal(\"y\")");
}

#[test]
fn formats_pushes_and_closures() {
    assert_eq!(format_instruction(&Instruction::Push(Value::Integer(42))), "Push(Integer(42))");
    assert_eq!(format_instruction(&Instruction::Push(Value::Boolean(true))), "Push(Boolean(true))");
    let closure = Instruction::MakeClosure(
        vec!["x".to_string(), "y".to_string()],
        vec![Instruction::LoadArg(0), Instruction::Ret],
        1,
    );
    assert_eq!(format_instruction(&closure), "MakeClosure([\"x\", \"y\"], 2 instructions, 1 captured)");
    let ffi = Instruction::FfiCall(vec![FfiType::Int32, FfiType::Double], FfiType::Void);
    assert_eq!(format_instruction(&ffi), "FfiCall([Int32, Double], Void)");
    let none = Instruction::FfiCall(vec![], FfiType::Pointer);
    assert_eq!(format_instruction(&none), "FfiCall([], Pointer)");
}

#[test]
fn disassembles_functions_in_name_order() {
    let functions = vec![
        ("b".to_string(), vec![Instruction::Ret]),
        ("a".to_string(), vec![Instruction::LoadArg(0), Instruction::Ret]),
    ];
    let main = vec![Instruction::Push(Value::Integer(1)), Instruction::Halt];
    let text = disassemble_bytecode(&functions, &main);
    let expected = "=== Functions ===\n\n\
Function: a\n  2 instruction(s)\n     0: LoadArg(0)\n     1: Ret\n\n\
Function: b\n  1 instruction(s)\n     0: Ret\n\n\
=== Main ===\n  2 instruction(s)\n     0: Push(Integer(1))\n     1: Halt\n\n\
=== Statistics ===\nTotal instructions: 5\nFunctions: 2\nMain instructions: 2\n\n\
Per-function instruction counts:\n  a: 2\n  b: 1\n";
    assert_eq!(text, expected);
}

#[test]
fn disassembles_main_only() {
    let text = disassemble_bytecode(&vec![], &[Instruction::Halt]);
    let expected = "=== Main ===\n  1 instruction(s)\n     0: Halt\n\n\
=== Statistics ===\nTotal instructions: 1\nFunctions: 0\nMain instructions: 1\n";
    assert_eq!(text, expected);
}

#[test]
fn pads_addresses_to_four_columns() {
    let main: Vec<Instruction> = (0..11).map(|_| Instruction::Print).collect();
    let text = disassemble_bytecode(&vec![], &main);
    assert!(text.contains("\n    10: Print\n"));
    assert!(text.contains("\n     9: Print\n"));
}

#[test]
fn counts_instructions() {
    let functions = vec![
        ("f".to_string(), vec![Instruction::Ret]),
        ("g".to_string(), vec![Instruction::LoadArg(0), Instruction::Neg, Instruction::Ret]),
    ];
    let stats = get_statistics(&functions, &[Instruction::Halt]);
    assert_eq!(stats.total_instructions, 5);
    assert_eq!(stats.function_count, 2);
    assert_eq!(stats.main_instruction_count, 1);
    assert_eq!(stats.per_function_counts, vec![("f".to_string(), 1), ("g".to_string(), 3)]);
}

#[test]
fn a_pushed_list_shows_its_cons_cells() {
    let list = Value::List(List::from_vec(vec![Value::Integer(1), Value::Integer(2)]));
    assert_eq!(
        format_instruction(&Instruction::Push(list)),
        "Push(List(Cons(ConsCell { head: Integer(1), tail: Cons(ConsCell { head: Integer(2), tail: Nil }) })))"
    );
    assert_eq!(format_instruction(&Instruction::Push(Value::Symbol("a\"b".to_string()))), "Push(Symbol(\"a\\\"b\"))");
}

#[test]
fn a_pushed_float_takes_its_text_from_the_table() {
    let bits = 2.5f64.to_bits();
    let push = Instruction::Push(Value::Float(bits));
    assert_eq!(format_instruction_with(&push, &vec![]), Err(bits));
    assert_eq!(format_instruction_with(&push, &vec![(bits, "2.5".to_string())]), Ok("Push(Float(2.5))".to_string()));
}
