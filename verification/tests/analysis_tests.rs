use lisp_bytecode_vm::analysis::{contains_unquote, find_free_variables, looks_like_param_list, parse_params};
use lisp_bytecode_vm::parser::Parser;
use lisp_bytecode_vm::SourceExpr;

fn read(src: &str) -> SourceExpr {
    let mut parser = Parser::new(src);
    let mut exprs = parser.parse_all().unwrap();
    exprs.remove(0)
}

fn names(v: &[&str]) -> Vec<String> {
    v.iter().map(|s| s.to_string()).collect()
}

#[test]
fn finds_unquote_anywhere() {
    assert!(contains_unquote(&read("(a (unquote b))")));
    assert!(contains_unquote(&read("(unquote-splicing xs)")));
    assert!(contains_unquote(&read("(a (b (c (unquote d))))")));
    assert!(contains_unquote(&read("(a . (unquote b))")));
    assert!(!contains_unquote(&read("(a b c)")));
    assert!(!contains_unquote(&read("unquote")));
    assert!(!contains_unquote(&read("(unquote a b)")));
}

#[test]
fn recognizes_parameter_lists() {
    assert!(looks_like_param_list(&read("(a b c)")));
    assert!(looks_like_param_list(&read("()")));
    assert!(looks_like_param_list(&read("(a b . rest)")));
    assert!(!looks_like_param_list(&read("(a 1)")));
    assert!(!looks_like_param_list(&read("x")));
}

#[test]
fn parses_required_parameters() {
    let p = parse_params(&read("(a b c)")).ok().unwrap();
    assert_eq!(p.required, names(&["a", "b", "c"]));
    assert!(p.rest.is_none());
}

#[test]
fn parses_rest_parameter() {
    let p = parse_params(&read("(a b . rest)")).ok().unwrap();
    assert_eq!(p.required, names(&["a", "b"]));
    assert_eq!(p.rest, Some("rest".to_string()));
}

#[test]
fn rejects_bad_parameters() {
    let e = parse_params(&read("(a 1 b)")).err().unwrap();
    assert_eq!(e.message, "Parameter must be a symbol");
    assert_eq!(e.location.column, 4);
    let e = parse_params(&read("42")).err().unwrap();
    assert_eq!(e.message, "Parameters must be a list");
}

#[test]
fn free_variables_skip_bound_and_unknown_names() {
    let env = names(&["x", "y", "z"]);
    let free = find_free_variables(&read("(+ x (* y x) w)"), &vec![], &env);
    assert_eq!(free, names(&["x", "y"]));
    let free = find_free_variables(&read("(+ x y)"), &names(&["x"]), &env);
    assert_eq!(free, names(&["y"]));
}

#[test]
fn free_variables_respect_let_and_lambda() {
    let env = names(&["x", "y", "z"]);
    let free = find_free_variables(&read("(let ((x y)) (+ x z))"), &vec![], &env);
    assert_eq!(free, names(&["y", "z"]));
    let free = find_free_variables(&read("(lambda (x) (+ x y))"), &vec![], &env);
    assert_eq!(free, names(&["y"]));
    let free = find_free_variables(&read("(quote (x y))"), &vec![], &env);
    assert!(free.is_empty());
}
