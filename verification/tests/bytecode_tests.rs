use lisp_bytecode_vm::bytecode::{deserialize_bytecode, is_writable, read_bytecode, serialize_bytecode};
use lisp_bytecode_vm::instructions::{FfiType, Instruction};
use lisp_bytecode_vm::value::{ClosureData, Value};

fn sample_program() -> (Vec<(String, Vec<Instruction>)>, Vec<Instruction>) {
    let closure = Value::Closure(Box::new(ClosureData {
        params: vec!["x".to_string()],
        rest_param: Some("more".to_string()),
        body: vec![Instruction::LoadArg(0), Instruction::Ret],
        captured: vec![("k".to_string(), Value::Float(2.5f64.to_bits()))],
    }));
    let functions = vec![(
        "inc".to_string(),
        vec![Instruction::LoadArg(0), Instruction::Push(Value::Integer(1)), Instruction::Add, Instruction::Ret],
    )];
    let main = vec![
        Instruction::Push(closure),
        Instruction::Push(Value::String("héllo".to_string())),
        Instruction::Call("inc".to_string(), 1),
        Instruction::Halt,
    ];
    (functions, main)
}

#[test]
fn a_written_program_reads_back_the_same() {
    let (functions, main) = sample_program();
    assert!(is_writable(&functions, &main));
    let bytes = serialize_bytecode(&functions, &main);
    assert_eq!(&bytes[0..5], &[76, 73, 83, 80, 7]);
    let (f2, m2) = deserialize_bytecode(&bytes).unwrap();
    assert_eq!(format!("{:?}", f2), format!("{:?}", functions));
    assert_eq!(format!("{:?}", m2), format!("{:?}", main));
    let (f3, m3) = read_bytecode(&bytes).unwrap().unwrap();
    assert_eq!(format!("{:?}", (f3, m3)), format!("{:?}", (functions, main)));
}

#[test]
fn reading_reports_bad_files() {
    assert_eq!(read_bytecode(b"LIS").unwrap().unwrap_err(), "Invalid bytecode file: bad magic number");
    assert_eq!(read_bytecode(b"LISP\x06").unwrap().unwrap_err(), "Unsupported bytecode version: 6 (expected 7)");
    assert_eq!(read_bytecode(b"LISP\x07\x00\x00").unwrap().unwrap_err(), "Unexpected end of bytecode");
    let unknown = [76, 73, 83, 80, 7, 0, 0, 0, 0, 1, 0, 0, 0, 250];
    assert_eq!(read_bytecode(&unknown).unwrap().unwrap_err(), "Unknown opcode: 250");
}

#[test]
fn a_closure_cut_off_after_its_parameters_cannot_be_read() {
    // No functions, one main instruction: Push of a closure with no
    // parameters, and nothing after.
    let bytes = [76, 73, 83, 80, 7, 0, 0, 0, 0, 1, 0, 0, 0, 0, 6, 0, 0, 0, 0];
    assert!(read_bytecode(&bytes).is_none());
}

#[test]
fn foreign_calls_cannot_be_written() {
    let main = vec![Instruction::FfiCall(vec![FfiType::Int32], FfiType::Int32), Instruction::Halt];
    assert!(!is_writable(&Vec::new(), &main));
    assert!(!is_writable(&Vec::new(), &[Instruction::Push(Value::Pointer(0))]));
}
