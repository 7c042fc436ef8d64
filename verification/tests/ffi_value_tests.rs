use lisp_bytecode_vm::ffi::{ffi_type_size, parse_ffi_type, value_to_pointer, value_to_string, value_type_name};
use lisp_bytecode_vm::instructions::{FfiType, Instruction};
use lisp_bytecode_vm::value::{copy_instruction, copy_value, List, Value};

#[test]
fn parses_ffi_type_names() {
    assert_eq!(parse_ffi_type("int"), Ok(FfiType::Int32));
    assert_eq!(parse_ffi_type(":double"), Ok(FfiType::Double));
    assert_eq!(parse_ffi_type("char*"), Ok(FfiType::String));
    assert_eq!(parse_ffi_type(":char"), Ok(FfiType::Int8));
    assert_eq!(parse_ffi_type("void*"), Ok(FfiType::Pointer));
    assert_eq!(parse_ffi_type(":ulong"), Ok(FfiType::UInt64));
    assert_eq!(parse_ffi_type("void"), Ok(FfiType::Void));
}

#[test]
fn rejects_unknown_ffi_type() {
    assert_eq!(parse_ffi_type("bogus"), Err("Unknown FFI type: bogus".to_string()));
    assert_eq!(parse_ffi_type(""), Err("Unknown FFI type: ".to_string()));
}

#[test]
fn ffi_type_sizes() {
    assert_eq!(ffi_type_size(&FfiType::Void), 0);
    assert_eq!(ffi_type_size(&FfiType::UInt8), 1);
    assert_eq!(ffi_type_size(&FfiType::Int16), 2);
    assert_eq!(ffi_type_size(&FfiType::Float), 4);
    assert_eq!(ffi_type_size(&FfiType::Double), 8);
    assert_eq!(ffi_type_size(&FfiType::String), 8);
}

#[test]
fn names_value_types() {
    assert_eq!(value_type_name(&Value::Integer(1)), "integer");
    assert_eq!(value_type_name(&Value::HashMap(vec![])), "hashmap");
    assert_eq!(value_type_name(&Value::pointer(3)), "pointer");
    assert_eq!(value_type_name(&Value::empty_list()), "list");
}

#[test]
fn converts_values_for_foreign_calls() {
    assert_eq!(value_to_pointer(&Value::Pointer(42)).unwrap(), 42);
    assert_eq!(value_to_pointer(&Value::Integer(-1)).unwrap(), -1);
    let err = value_to_pointer(&Value::Boolean(true)).unwrap_err();
    assert_eq!(err.message, "FFI: Cannot convert boolean to pointer");
    assert_eq!(value_to_string(&Value::string("hi")).unwrap(), "hi");
    let err = value_to_string(&Value::Integer(3)).unwrap_err();
    assert_eq!(err.message, "FFI: Cannot convert integer to string");
}

#[test]
fn list_operations() {
    let list = List::cons(Value::Integer(1), List::from_vec(vec![Value::Integer(2), Value::Integer(3)]));
    assert_eq!(list.len(), 3);
    assert!(!list.is_nil());
    assert!(!list.is_empty());
    assert_eq!(list.car().unwrap().as_int(), Some(1));
    let rest = list.cdr().unwrap();
    assert_eq!(rest.len(), 2);
    assert_eq!(rest.car().unwrap().as_int(), Some(2));
    let items = list.to_vec();
    assert_eq!(format!("{:?}", items), "[Integer(1), Integer(2), Integer(3)]");
    let empty = List::nil();
    assert!(empty.is_nil());
    assert!(empty.car().is_none());
    assert!(empty.cdr().is_none());
}

#[test]
fn value_accessors() {
    let s = Value::symbol("x");
    assert!(s.is_symbol());
    assert_eq!(s.as_symbol(), Some("x"));
    assert_eq!(s.as_string(), None);
    assert!(Value::Float(0).is_number());
    assert!(!Value::Boolean(false).is_number());
    assert_eq!(Value::Boolean(false).as_bool(), Some(false));
    assert_eq!(Value::function("f").as_function(), Some("f"));
    assert_eq!(Value::null_pointer().as_pointer(), Some(0));
    assert!(Value::list_from_vec(vec![Value::Integer(1)]).is_list());
    assert!(Value::Vector(vec![]).is_vector());
    assert_eq!(Value::Vector(vec![Value::Integer(9)]).as_vector().unwrap().len(), 1);
}

#[test]
fn copies_are_equal() {
    let v = Value::Vector(vec![Value::string("a"), Value::HashMap(vec![("k".to_string(), Value::Float(7))])]);
    assert_eq!(format!("{:?}", copy_value(&v)), format!("{:?}", v));
    let i = Instruction::MakeClosure(vec!["x".to_string()], vec![Instruction::LoadArg(0), Instruction::Ret], 0);
    assert_eq!(format!("{:?}", copy_instruction(&i)), format!("{:?}", i));
}

#[test]
fn a_leading_colon_changes_nothing() {
    for name in ["void", "uint16", "void*", "char*", "ptr", "bogus"] {
        assert_eq!(parse_ffi_type(&format!(":{}", name)).ok(), parse_ffi_type(name).ok());
    }
    assert_eq!(parse_ffi_type("::int"), Err("Unknown FFI type: ::int".to_string()));
}
