use lisp_bytecode_vm::compiler::run_to_halt;
use lisp_bytecode_vm::instructions::Instruction;
use lisp_bytecode_vm::machine::VM;
use lisp_bytecode_vm::value::Value;

#[test]
fn a_halted_machine_takes_no_step() {
    let mut vm = VM::new();
    vm.halted = true;
    vm.current_bytecode = vec![Instruction::Push(Value::Integer(1))];
    let mut made = 7u64;
    assert!(run_to_halt(&mut vm, &mut made).is_ok());
    assert_eq!(made, 7);
    assert!(vm.value_stack.is_empty());
}

#[test]
fn a_run_ends_at_halt_with_its_value() {
    let mut vm = VM::new();
    vm.current_bytecode = vec![Instruction::Push(Value::Integer(5)), Instruction::Halt];
    let mut made = 0u64;
    assert!(run_to_halt(&mut vm, &mut made).is_ok());
    assert!(vm.halted);
    assert!(matches!(vm.value_stack.last(), Some(Value::Integer(5))));
}

#[test]
fn fresh_symbols_are_numbered_from_the_count() {
    let mut vm = VM::new();
    vm.current_bytecode = vec![Instruction::GenSym, Instruction::GenSym, Instruction::Halt];
    let mut made = 3u64;
    assert!(run_to_halt(&mut vm, &mut made).is_ok());
    assert_eq!(made, 5);
    assert_eq!(vm.value_stack.len(), 2);
    assert!(matches!(&vm.value_stack[0], Value::Symbol(s) if s == "G__3"));
    assert!(matches!(&vm.value_stack[1], Value::Symbol(s) if s == "G__4"));
}

#[test]
fn no_fresh_symbol_is_left_past_the_largest_count() {
    let mut vm = VM::new();
    vm.current_bytecode = vec![Instruction::GenSym, Instruction::Halt];
    let mut made = u64::MAX;
    assert_eq!(run_to_halt(&mut vm, &mut made), Err("no fresh symbol is left".to_string()));
}
