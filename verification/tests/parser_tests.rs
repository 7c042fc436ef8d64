use lisp_bytecode_vm::parser::Parser;
use lisp_bytecode_vm::LispExpr;

#[test]
fn test_parse_number() {
    let mut parser = Parser::new("42");
    let exprs = parser.parse_all().unwrap();
    assert_eq!(exprs.len(), 1);
    assert_eq!(exprs[0].expr, LispExpr::Number(42));
}

#[test]
fn test_parse_symbol() {
    let mut parser = Parser::new("fib");
    let exprs = parser.parse_all().unwrap();
    assert_eq!(exprs.len(), 1);
    assert_eq!(exprs[0].expr, LispExpr::Symbol("fib".to_string()));
}

#[test]
fn test_parse_simple_list() {
    let mut parser = Parser::new("(+ 1 2)");
    let exprs = parser.parse_all().unwrap();
    assert_eq!(exprs.len(), 1);
    match &exprs[0].expr {
        LispExpr::List(items) => {
            assert_eq!(items.len(), 3);
            assert_eq!(items[0].expr, LispExpr::Symbol("+".to_string()));
            assert_eq!(items[1].expr, LispExpr::Number(1));
            assert_eq!(items[2].expr, LispExpr::Number(2));
        }
        _ => panic!("Expected List"),
    }
}

#[test]
fn test_parse_nested_list() {
    let mut parser = Parser::new("(+ (* 5 2) 3)");
    let exprs = parser.parse_all().unwrap();
    assert_eq!(exprs.len(), 1);
    match &exprs[0].expr {
        LispExpr::List(items) => {
            assert_eq!(items.len(), 3);
            assert_eq!(items[0].expr, LispExpr::Symbol("+".to_string()));
            match &items[1].expr {
                LispExpr::List(inner) => {
                    assert_eq!(inner.len(), 3);
                    assert_eq!(inner[0].expr, LispExpr::Symbol("*".to_string()));
                    assert_eq!(inner[1].expr, LispExpr::Number(5));
                    assert_eq!(inner[2].expr, LispExpr::Number(2));
                }
                _ => panic!("Expected nested List"),
            }
            assert_eq!(items[2].expr, LispExpr::Number(3));
        }
        _ => panic!("Expected List"),
    }
}

#[test]
fn test_parse_multiple_expressions() {
    let mut parser = Parser::new("(+ 1 2) (* 3 4)");
    let exprs = parser.parse_all().unwrap();
    assert_eq!(exprs.len(), 2);

    match &exprs[0].expr {
        LispExpr::List(items) => {
            assert_eq!(items.len(), 3);
            assert_eq!(items[0].expr, LispExpr::Symbol("+".to_string()));
            assert_eq!(items[1].expr, LispExpr::Number(1));
            assert_eq!(items[2].expr, LispExpr::Number(2));
        }
        _ => panic!("Expected List"),
    }

    match &exprs[1].expr {
        LispExpr::List(items) => {
            assert_eq!(items.len(), 3);
            assert_eq!(items[0].expr, LispExpr::Symbol("*".to_string()));
            assert_eq!(items[1].expr, LispExpr::Number(3));
            assert_eq!(items[2].expr, LispExpr::Number(4));
        }
        _ => panic!("Expected List"),
    }
}

#[test]
fn test_parse_boolean_true() {
    let mut parser = Parser::new("true");
    let exprs = parser.parse_all().unwrap();
    assert_eq!(exprs.len(), 1);
    assert_eq!(exprs[0].expr, LispExpr::Boolean(true));
}

#[test]
fn test_parse_boolean_false() {
    let mut parser = Parser::new("false");
    let exprs = parser.parse_all().unwrap();
    assert_eq!(exprs.len(), 1);
    assert_eq!(exprs[0].expr, LispExpr::Boolean(false));
}

#[test]
fn test_parse_negative_number() {
    let mut parser = Parser::new("-42");
    let exprs = parser.parse_all().unwrap();
    assert_eq!(exprs.len(), 1);
    assert_eq!(exprs[0].expr, LispExpr::Number(-42));
}

#[test]
fn test_parse_whitespace_handling() {
    let mut parser = Parser::new("  ( +   1    2  )  ");
    let exprs = parser.parse_all().unwrap();
    assert_eq!(exprs.len(), 1);
    match &exprs[0].expr {
        LispExpr::List(items) => {
            assert_eq!(items.len(), 3);
            assert_eq!(items[0].expr, LispExpr::Symbol("+".to_string()));
        }
        _ => panic!("Expected List"),
    }
}

#[test]
fn test_parse_multiline() {
    let source = r#"
        (defun double (x)
            (* x 2))
    "#;
    let mut parser = Parser::new(source);
    let exprs = parser.parse_all().unwrap();
    assert_eq!(exprs.len(), 1);
}

#[test]
fn test_parse_empty_list_error() {
    let mut parser = Parser::new("()");
    let exprs = parser.parse_all().unwrap();
    match &exprs[0].expr {
        LispExpr::List(items) => {
            assert_eq!(items.len(), 0);
        }
        _ => panic!("Expected empty list"),
    }
}

#[test]
fn test_parse_unclosed_paren_error() {
    let mut parser = Parser::new("(+ 1 2");
    let result = parser.parse_all();
    assert!(result.is_err());
    assert!(result.unwrap_err().contains("missing closing parenthesis"));
}

#[test]
fn test_parse_location_tracking() {
    let mut parser = Parser::new_with_file("42", "test.lisp".to_string());
    let exprs = parser.parse_all().unwrap();

    assert_eq!(exprs[0].location.file, "test.lisp");
    assert_eq!(exprs[0].location.line, 1);
    assert_eq!(exprs[0].location.column, 1);
}

#[test]
fn test_parse_multiline_location() {
    let source = "10\n20\n30";
    let mut parser = Parser::new(source);
    let exprs = parser.parse_all().unwrap();

    assert_eq!(exprs.len(), 3);
    assert_eq!(exprs[0].location.line, 1);
    assert_eq!(exprs[1].location.line, 2);
    assert_eq!(exprs[2].location.line, 3);
}

#[test]
fn test_parse_operators() {
    let operators = vec!["+", "-", "*", "/", "%", "<=", "<", ">", ">=", "==", "!=", "neg"];

    for op in operators {
        let mut parser = Parser::new(op);
        let exprs = parser.parse_all().unwrap();
        assert_eq!(exprs.len(), 1);
        assert_eq!(exprs[0].expr, LispExpr::Symbol(op.to_string()));
    }
}

#[test]
fn test_parse_defun() {
    let source = "(defun add (a b) (+ a b))";
    let mut parser = Parser::new(source);
    let exprs = parser.parse_all().unwrap();

    assert_eq!(exprs.len(), 1);
    match &exprs[0].expr {
        LispExpr::List(items) => {
            assert_eq!(items.len(), 4);
            assert_eq!(items[0].expr, LispExpr::Symbol("defun".to_string()));
            assert_eq!(items[1].expr, LispExpr::Symbol("add".to_string()));
        }
        _ => panic!("Expected List"),
    }
}

#[test]
fn test_parse_vector_literal() {
    let mut parser = Parser::new("#(1 2 3)");
    let exprs = parser.parse_all().unwrap();
    assert_eq!(exprs.len(), 1);

    match &exprs[0].expr {
        LispExpr::List(items) => {
            assert_eq!(items.len(), 4);
            assert_eq!(items[0].expr, LispExpr::Symbol("vector".to_string()));
            assert_eq!(items[1].expr, LispExpr::Number(1));
            assert_eq!(items[2].expr, LispExpr::Number(2));
            assert_eq!(items[3].expr, LispExpr::Number(3));
        }
        _ => panic!("Expected List (vector ...)"),
    }
}

#[test]
fn test_parse_empty_vector_literal() {
    let mut parser = Parser::new("#()");
    let exprs = parser.parse_all().unwrap();
    assert_eq!(exprs.len(), 1);

    match &exprs[0].expr {
        LispExpr::List(items) => {
            assert_eq!(items.len(), 1);
            assert_eq!(items[0].expr, LispExpr::Symbol("vector".to_string()));
        }
        _ => panic!("Expected List (vector)"),
    }
}

#[test]
fn test_parse_nested_vector_literal() {
    let mut parser = Parser::new("#(1 #(2 3) 4)");
    let exprs = parser.parse_all().unwrap();
    assert_eq!(exprs.len(), 1);

    match &exprs[0].expr {
        LispExpr::List(items) => {
            assert_eq!(items.len(), 4);
            assert_eq!(items[0].expr, LispExpr::Symbol("vector".to_string()));
            assert_eq!(items[1].expr, LispExpr::Number(1));

            // Check nested vector
            match &items[2].expr {
                LispExpr::List(nested) => {
                    assert_eq!(nested.len(), 3);
                    assert_eq!(nested[0].expr, LispExpr::Symbol("vector".to_string()));
                    assert_eq!(nested[1].expr, LispExpr::Number(2));
                    assert_eq!(nested[2].expr, LispExpr::Number(3));
                }
                _ => panic!("Expected nested vector"),
            }

            assert_eq!(items[3].expr, LispExpr::Number(4));
        }
        _ => panic!("Expected List (vector ...)"),
    }
}

#[test]
fn test_parse_vector_with_expressions() {
    let mut parser = Parser::new("#((+ 1 2) (* 3 4))");
    let exprs = parser.parse_all().unwrap();
    assert_eq!(exprs.len(), 1);

    match &exprs[0].expr {
        LispExpr::List(items) => {
            assert_eq!(items.len(), 3);
            assert_eq!(items[0].expr, LispExpr::Symbol("vector".to_string()));

            // Check first element is (+ 1 2)
            match &items[1].expr {
                LispExpr::List(add_expr) => {
                    assert_eq!(add_expr.len(), 3);
                    assert_eq!(add_expr[0].expr, LispExpr::Symbol("+".to_string()));
                }
                _ => panic!("Expected list expression"),
            }
        }
        _ => panic!("Expected List (vector ...)"),
    }
}

#[test]
fn test_parse_boolean_true_reader_macro() {
    let mut parser = Parser::new("#t");
    let exprs = parser.parse_all().unwrap();
    assert_eq!(exprs.len(), 1);
    assert_eq!(exprs[0].expr, LispExpr::Boolean(true));
}

#[test]
fn test_parse_boolean_false_reader_macro() {
    let mut parser = Parser::new("#f");
    let exprs = parser.parse_all().unwrap();
    assert_eq!(exprs.len(), 1);
    assert_eq!(exprs[0].expr, LispExpr::Boolean(false));
}

#[test]
fn test_parse_boolean_reader_macros_in_list() {
    let mut parser = Parser::new("(if #t #f true)");
    let exprs = parser.parse_all().unwrap();
    assert_eq!(exprs.len(), 1);

    match &exprs[0].expr {
        LispExpr::List(items) => {
            assert_eq!(items.len(), 4);
            assert_eq!(items[0].expr, LispExpr::Symbol("if".to_string()));
            assert_eq!(items[1].expr, LispExpr::Boolean(true));
            assert_eq!(items[2].expr, LispExpr::Boolean(false));
            assert_eq!(items[3].expr, LispExpr::Boolean(true));
        }
        _ => panic!("Expected List"),
    }
}

#[test]
fn test_parse_expression_comment() {
    let mut parser = Parser::new("(+ 1 #;(* 2 3) 4)");
    let exprs = parser.parse_all().unwrap();
    assert_eq!(exprs.len(), 1);

    match &exprs[0].expr {
        LispExpr::List(items) => {
            assert_eq!(items.len(), 3); // +, 1, 4 (the (* 2 3) is commented out)
            assert_eq!(items[0].expr, LispExpr::Symbol("+".to_string()));
            assert_eq!(items[1].expr, LispExpr::Number(1));
            assert_eq!(items[2].expr, LispExpr::Number(4));
        }
        _ => panic!("Expected List"),
    }
}

#[test]
fn test_parse_expression_comment_at_top_level() {
    let mut parser = Parser::new("#;(this is ignored) 42");
    let exprs = parser.parse_all().unwrap();
    assert_eq!(exprs.len(), 1);
    assert_eq!(exprs[0].expr, LispExpr::Number(42));
}

#[test]
fn test_parse_nested_expression_comment() {
    let mut parser = Parser::new("(+ 1 #;#;2 3 4)");
    let exprs = parser.parse_all().unwrap();
    assert_eq!(exprs.len(), 1);

    match &exprs[0].expr {
        LispExpr::List(items) => {
            assert_eq!(items.len(), 3); // +, 1, 4 (both 2 and 3 are commented)
            assert_eq!(items[0].expr, LispExpr::Symbol("+".to_string()));
            assert_eq!(items[1].expr, LispExpr::Number(1));
            assert_eq!(items[2].expr, LispExpr::Number(4));
        }
        _ => panic!("Expected List"),
    }
}

#[test]
fn test_parse_function_quote() {
    let mut parser = Parser::new("#'add");
    let exprs = parser.parse_all().unwrap();
    assert_eq!(exprs.len(), 1);
    // #'add → add (since function names are first-class)
    assert_eq!(exprs[0].expr, LispExpr::Symbol("add".to_string()));
}

#[test]
fn test_parse_function_quote_in_expression() {
    let mut parser = Parser::new("(apply #'+ '(1 2 3))");
    let exprs = parser.parse_all().unwrap();
    assert_eq!(exprs.len(), 1);

    match &exprs[0].expr {
        LispExpr::List(items) => {
            assert_eq!(items.len(), 3);
            assert_eq!(items[0].expr, LispExpr::Symbol("apply".to_string()));
            // Check #'+ became +
            assert_eq!(items[1].expr, LispExpr::Symbol("+".to_string()));
        }
        _ => panic!("Expected List"),
    }
}
