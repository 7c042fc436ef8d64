use lisp_bytecode_vm::display::{float_bits, format_value, print_text, Style};
use lisp_bytecode_vm::value::{ClosureData, List, Value};

fn no_floats() -> Vec<(u64, String)> {
    Vec::new()
}

fn list(items: Vec<Value>) -> Value {
    Value::List(List { items })
}

fn closure(params: &[&str], rest: Option<&str>) -> Value {
    Value::Closure(Box::new(ClosureData {
        params: params.iter().map(|p| p.to_string()).collect(),
        rest_param: rest.map(|r| r.to_string()),
        body: Vec::new(),
        captured: Vec::new(),
    }))
}

#[test]
fn result_style_of_plain_values() {
    let t = no_floats();
    assert_eq!(format_value(&Value::Integer(42), &t), Some("42".to_string()));
    assert_eq!(format_value(&Value::Integer(-7), &t), Some("-7".to_string()));
    assert_eq!(format_value(&Value::Integer(i64::MIN), &t), Some("-9223372036854775808".to_string()));
    assert_eq!(format_value(&Value::Boolean(true), &t), Some("true".to_string()));
    assert_eq!(format_value(&Value::Boolean(false), &t), Some("false".to_string()));
    assert_eq!(format_value(&Value::String("hi there".to_string()), &t), Some("hi there".to_string()));
    assert_eq!(format_value(&Value::Symbol("foo".to_string()), &t), Some("foo".to_string()));
    assert_eq!(format_value(&Value::Function("square".to_string()), &t), Some("#<function:square>".to_string()));
    assert_eq!(format_value(&Value::Pointer(0), &t), Some("#<pointer:0>".to_string()));
}

#[test]
fn result_style_of_closures_and_maps() {
    let t = no_floats();
    assert_eq!(format_value(&closure(&["a", "b"], None), &t), Some("#<closure/2>".to_string()));
    assert_eq!(format_value(&closure(&["a"], Some("more")), &t), Some("#<closure/1 + rest>".to_string()));
    let map = Value::HashMap(vec![("k".to_string(), Value::Integer(1))]);
    assert_eq!(format_value(&map, &t), Some("#<hashmap>".to_string()));
}

#[test]
fn nested_lists_and_vectors() {
    let t = no_floats();
    let v = list(vec![
        Value::Integer(1),
        list(vec![Value::Integer(2), Value::Integer(3)]),
        Value::Vector(vec![Value::Integer(4)]),
        list(vec![]),
    ]);
    assert_eq!(format_value(&v, &t), Some("(1 (2 3) [4] ())".to_string()));
    assert_eq!(print_text(&v, &t), Some("(1 (2 3) [4] ())".to_string()));
    assert_eq!(format_value(&Value::Vector(vec![]), &t), Some("[]".to_string()));
}

#[test]
fn print_style_quotes_strings() {
    let t = no_floats();
    let v = list(vec![Value::String("a b".to_string()), Value::Symbol("c".to_string())]);
    assert_eq!(print_text(&v, &t), Some("(\"a b\" c)".to_string()));
    assert_eq!(print_text(&Value::Function("f".to_string()), &t), Some("<function f>".to_string()));
    assert_eq!(print_text(&closure(&["x", "y", "z"], Some("r")), &t), Some("<closure/3>".to_string()));
    assert_eq!(print_text(&Value::Pointer(-5), &t), Some("<pointer -5>".to_string()));
}

#[test]
fn print_style_sorts_map_entries() {
    let t = no_floats();
    let map = Value::HashMap(vec![
        ("zeta".to_string(), Value::Integer(26)),
        ("alpha".to_string(), Value::String("first".to_string())),
        ("mid".to_string(), list(vec![Value::Boolean(false)])),
    ]);
    assert_eq!(
        print_text(&map, &t),
        Some("{\"alpha\" \"first\" \"mid\" (false) \"zeta\" 26}".to_string())
    );
    assert_eq!(print_text(&Value::HashMap(vec![]), &t), Some("{}".to_string()));
}

#[test]
fn floats_come_from_the_table() {
    let half = 0.5f64.to_bits();
    let three = 3.0f64.to_bits();
    let table = vec![(half, "0.5".to_string()), (three, "3.0".to_string())];
    let v = Value::Vector(vec![Value::Float(half), Value::Float(three), Value::Integer(1)]);
    assert_eq!(format_value(&v, &table), Some("[0.5 3.0 1]".to_string()));
    let missing = vec![(half, "0.5".to_string())];
    assert_eq!(format_value(&v, &missing), None);
    assert_eq!(print_text(&v, &missing), None);
}

#[test]
fn float_bits_lists_what_a_text_shows() {
    let a = 1.25f64.to_bits();
    let b = 2.5f64.to_bits();
    let map = Value::HashMap(vec![("x".to_string(), Value::Float(b))]);
    let v = list(vec![Value::Float(a), map]);
    assert_eq!(float_bits(&v, Style::Print), vec![a, b]);
    assert_eq!(float_bits(&v, Style::Result), vec![a]);
    let table: Vec<(u64, String)> = float_bits(&v, Style::Print)
        .into_iter()
        .map(|bits| (bits, f64::from_bits(bits).to_string()))
        .collect();
    assert_eq!(print_text(&v, &table), Some("(1.25 {\"x\" 2.5})".to_string()));
}
