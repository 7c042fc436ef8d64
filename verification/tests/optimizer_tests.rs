use lisp_bytecode_vm::instructions::Instruction;
use lisp_bytecode_vm::optimizer::{folds_fit, OptimizationStats, Optimizer};
use lisp_bytecode_vm::value::Value;

fn show(code: &[Instruction]) -> String {
    format!("{:?}", code)
}

fn push_int(n: i64) -> Instruction {
    Instruction::Push(Value::Integer(n))
}

#[test]
fn fresh_stats_are_zero() {
    let stats = OptimizationStats::new();
    assert_eq!(stats.original_instruction_count, 0);
    assert_eq!(stats.optimized_instruction_count, 0);
    assert_eq!(stats.constant_folds, 0);
    assert_eq!(stats.dead_code_removed, 0);
    assert_eq!(stats.jump_chains_simplified, 0);
    assert_eq!(stats.peephole_optimizations, 0);
    assert_eq!(stats.strength_reductions, 0);
    let optimizer = Optimizer::new();
    assert_eq!(optimizer.get_stats().constant_folds, 0);
}

#[test]
fn folds_integer_addition() {
    let mut optimizer = Optimizer::new();
    let out = optimizer.optimize(vec![push_int(2), push_int(3), Instruction::Add, Instruction::Halt]);
    assert_eq!(show(&out), show(&[push_int(5), Instruction::Halt]));
    let stats = optimizer.get_stats();
    assert_eq!(stats.constant_folds, 1);
    assert_eq!(stats.original_instruction_count, 4);
    assert_eq!(stats.optimized_instruction_count, 2);
}

#[test]
fn folds_comparison_to_boolean() {
    let mut optimizer = Optimizer::new();
    let out = optimizer.optimize(vec![push_int(2), push_int(3), Instruction::Lt, Instruction::Halt]);
    assert_eq!(show(&out), show(&[Instruction::Push(Value::Boolean(true)), Instruction::Halt]));
}

#[test]
fn folds_truncating_division_and_remainder() {
    let mut optimizer = Optimizer::new();
    let out = optimizer.optimize(vec![push_int(-7), push_int(2), Instruction::Div, Instruction::Halt]);
    assert_eq!(show(&out), show(&[push_int(-3), Instruction::Halt]));
    let out = optimizer.optimize(vec![push_int(-7), push_int(2), Instruction::Mod, Instruction::Halt]);
    assert_eq!(show(&out), show(&[push_int(-1), Instruction::Halt]));
}

#[test]
fn leaves_division_by_zero() {
    let mut optimizer = Optimizer::new();
    let code = vec![push_int(1), push_int(0), Instruction::Div, Instruction::Halt];
    let out = optimizer.optimize(code);
    assert_eq!(show(&out), show(&[push_int(1), push_int(0), Instruction::Div, Instruction::Halt]));
    assert_eq!(optimizer.get_stats().constant_folds, 0);
}

#[test]
fn folds_negation() {
    let mut optimizer = Optimizer::new();
    let out = optimizer.optimize(vec![push_int(5), Instruction::Neg, Instruction::Halt]);
    assert_eq!(show(&out), show(&[push_int(-5), Instruction::Halt]));
    let one = 1.0f64.to_bits();
    let out = optimizer.optimize(vec![Instruction::Push(Value::Float(one)), Instruction::Neg, Instruction::Halt]);
    assert_eq!(
        show(&out),
        show(&[Instruction::Push(Value::Float((-1.0f64).to_bits())), Instruction::Halt])
    );
}

#[test]
fn drops_adding_zero() {
    let mut optimizer = Optimizer::new();
    let out = optimizer.optimize(vec![Instruction::LoadArg(0), push_int(0), Instruction::Add, Instruction::Ret]);
    assert_eq!(show(&out), show(&[Instruction::LoadArg(0), Instruction::Ret]));
    assert_eq!(optimizer.get_stats().peephole_optimizations, 1);
}

#[test]
fn drops_double_negation() {
    let mut optimizer = Optimizer::new();
    let out = optimizer.optimize(vec![Instruction::LoadArg(0), Instruction::Neg, Instruction::Neg, Instruction::Ret]);
    assert_eq!(show(&out), show(&[Instruction::LoadArg(0), Instruction::Ret]));
}

#[test]
fn multiplication_by_minus_one_becomes_negation() {
    let mut optimizer = Optimizer::new();
    let out = optimizer.optimize(vec![Instruction::LoadArg(0), push_int(-1), Instruction::Mul, Instruction::Ret]);
    assert_eq!(show(&out), show(&[Instruction::LoadArg(0), Instruction::Neg, Instruction::Ret]));
    assert_eq!(optimizer.get_stats().strength_reductions, 1);
}

#[test]
fn multiplication_by_zero_pops_and_pushes_zero() {
    let mut optimizer = Optimizer::new();
    let out = optimizer.optimize(vec![Instruction::LoadArg(0), push_int(0), Instruction::Mul, Instruction::Ret]);
    assert_eq!(
        show(&out),
        show(&[Instruction::LoadArg(0), Instruction::PopN(1), push_int(0), Instruction::Ret])
    );
    let neg_zero = (-0.0f64).to_bits();
    let out = optimizer.optimize(vec![
        Instruction::LoadArg(0),
        Instruction::Push(Value::Float(neg_zero)),
        Instruction::Mul,
        Instruction::Ret,
    ]);
    assert_eq!(
        show(&out),
        show(&[Instruction::LoadArg(0), Instruction::PopN(1), Instruction::Push(Value::Float(0)), Instruction::Ret])
    );
}

#[test]
fn threads_jump_to_jump_and_removes_dead_code() {
    let mut optimizer = Optimizer::new();
    let code = vec![
        Instruction::Jmp(2),
        Instruction::Halt,
        Instruction::Jmp(4),
        Instruction::Halt,
        push_int(1),
        Instruction::Halt,
    ];
    let out = optimizer.optimize(code);
    assert_eq!(show(&out), show(&[Instruction::Jmp(4), push_int(1), Instruction::Halt]));
    let stats = optimizer.get_stats();
    assert_eq!(stats.jump_chains_simplified, 1);
    assert_eq!(stats.dead_code_removed, 3);
    assert_eq!(stats.optimized_instruction_count, 3);
}

#[test]
fn jump_cycle_stops_at_a_position_seen_before() {
    let mut optimizer = Optimizer::new();
    let out = optimizer.optimize(vec![Instruction::Jmp(1), Instruction::Jmp(2), Instruction::Jmp(1)]);
    assert_eq!(show(&out), show(&[Instruction::Jmp(2), Instruction::Jmp(2)]));
    let stats = optimizer.get_stats();
    assert_eq!(stats.jump_chains_simplified, 3);
    assert_eq!(stats.dead_code_removed, 1);
}

#[test]
fn conditional_jump_keeps_both_branches() {
    let mut optimizer = Optimizer::new();
    let code = vec![
        Instruction::Push(Value::Boolean(true)),
        Instruction::JmpIfFalse(4),
        push_int(1),
        Instruction::Halt,
        push_int(2),
        Instruction::Halt,
    ];
    let out = optimizer.optimize(code);
    assert_eq!(out.len(), 6);
    assert_eq!(optimizer.get_stats().dead_code_removed, 0);
}

#[test]
fn code_after_return_is_dead() {
    let mut optimizer = Optimizer::new();
    let out = optimizer.optimize(vec![Instruction::LoadArg(0), Instruction::Ret, push_int(7), Instruction::Print]);
    assert_eq!(show(&out), show(&[Instruction::LoadArg(0), Instruction::Ret]));
    assert_eq!(optimizer.get_stats().dead_code_removed, 2);
}

#[test]
fn optimizes_each_function_and_keeps_names() {
    let mut optimizer = Optimizer::new();
    let table = vec![
        ("f".to_string(), vec![push_int(1), push_int(2), Instruction::Mul, Instruction::Ret]),
        ("g".to_string(), vec![Instruction::LoadArg(0), push_int(1), Instruction::Mul, Instruction::Ret]),
    ];
    let out = optimizer.optimize_functions(table);
    assert_eq!(out.len(), 2);
    assert_eq!(out[0].0, "f");
    assert_eq!(show(&out[0].1), show(&[push_int(2), Instruction::Ret]));
    assert_eq!(out[1].0, "g");
    assert_eq!(show(&out[1].1), show(&[Instruction::LoadArg(0), Instruction::Ret]));
    let stats = optimizer.get_stats();
    assert_eq!(stats.original_instruction_count, 8);
    assert_eq!(stats.optimized_instruction_count, 4);
    assert_eq!(stats.constant_folds, 1);
    assert_eq!(stats.peephole_optimizations, 1);
}

#[test]
fn tells_when_folding_would_overflow() {
    assert!(folds_fit(&vec![push_int(1), push_int(2), Instruction::Add]));
    assert!(!folds_fit(&vec![push_int(i64::MAX), push_int(1), Instruction::Add]));
    assert!(!folds_fit(&vec![push_int(i64::MIN), Instruction::Neg]));
    assert!(!folds_fit(&vec![push_int(i64::MIN), push_int(-1), Instruction::Div]));
    assert!(folds_fit(&vec![push_int(i64::MAX), push_int(1), Instruction::Lt]));
}

#[test]
fn never_lengthens_code() {
    let mut optimizer = Optimizer::new();
    let code = vec![push_int(4), push_int(5), Instruction::Mul, push_int(0), Instruction::Add, Instruction::Print, Instruction::Halt];
    let out = optimizer.optimize(code);
    assert!(out.len() <= 7);
    assert_eq!(show(&out), show(&[push_int(20), Instruction::Print, Instruction::Halt]));
}

#[test]
fn counts_add_up_over_several_calls() {
    let mut optimizer = Optimizer::new();
    let a = optimizer.optimize(vec![push_int(2), push_int(3), Instruction::Add, Instruction::Halt]);
    let b = optimizer.optimize(vec![push_int(7), Instruction::PopN(1), Instruction::Halt]);
    let stats = optimizer.get_stats();
    assert_eq!(stats.original_instruction_count, 7);
    assert_eq!(stats.optimized_instruction_count, a.len() + b.len());
    assert!(stats.optimized_instruction_count <= stats.original_instruction_count);
}
