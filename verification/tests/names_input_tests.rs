use lisp_bytecode_vm::input::is_complete_input;
use lisp_bytecode_vm::names::{is_builtin_function, levenshtein_distance, qualify_name, suggest_similar_name};

#[test]
fn edit_distances() {
    assert_eq!(levenshtein_distance("kitten", "sitting"), 3);
    assert_eq!(levenshtein_distance("", "abc"), 3);
    assert_eq!(levenshtein_distance("abc", ""), 3);
    assert_eq!(levenshtein_distance("abc", "abc"), 0);
    assert_eq!(levenshtein_distance("flaw", "lawn"), 2);
    assert_eq!(levenshtein_distance("héllo", "hello"), 1);
}

#[test]
fn suggests_the_closest_name() {
    let names = vec!["factorial".to_string(), "fac".to_string(), "x".to_string()];
    assert_eq!(
        suggest_similar_name("fact", &names),
        "Did you mean 'fac'? Check your spelling or define the variable before using it."
    );
}

#[test]
fn suggests_the_first_of_equally_close_names() {
    let names = vec!["cat".to_string(), "bat".to_string()];
    assert_eq!(
        suggest_similar_name("hat", &names),
        "Did you mean 'cat'? Check your spelling or define the variable before using it."
    );
}

#[test]
fn gives_advice_when_nothing_is_close() {
    let names = vec!["completely-different".to_string()];
    assert_eq!(
        suggest_similar_name("xy", &names),
        "Make sure the variable is defined before using it. Use 'defvar' to define global variables, or check if it's in scope."
    );
    assert_eq!(
        suggest_similar_name("xy", &vec![]),
        "Make sure the variable is defined before using it. Use 'defvar' to define global variables, or check if it's in scope."
    );
}

#[test]
fn knows_builtin_functions() {
    assert!(is_builtin_function("+"));
    assert!(is_builtin_function("string-upcase"));
    assert!(is_builtin_function("print"));
    assert!(is_builtin_function("hash-map"));
    assert!(!is_builtin_function("foo"));
    assert!(!is_builtin_function("float?"));
    assert!(!is_builtin_function(""));
}

#[test]
fn qualifies_names_in_modules() {
    assert_eq!(qualify_name(Some("math"), "add"), "math/add");
    assert_eq!(qualify_name(None, "add"), "add");
}

#[test]
fn tells_complete_input() {
    assert!(is_complete_input("(+ 1 2)"));
    assert!(!is_complete_input("(+ 1"));
    assert!(!is_complete_input("   \n\t"));
    assert!(!is_complete_input(""));
    assert!(is_complete_input("\"(\""));
    assert!(!is_complete_input("())"));
    assert!(is_complete_input("42"));
    assert!(is_complete_input("(define (f x)\n  (* x 2))"));
}
