use strainer::evaluator::Evaluator;
use strainer::lexer::Lexer;
use strainer::object::Object;
use strainer::parser::Parser;

fn test_eval(input: String) -> Object {
    let mut evaluator = Evaluator::new();
    let l = Lexer::new(&input);
    let mut p = Parser::new(l);
    let program = p.parse_program();

    match evaluator.eval_program(program) {
        Some(obj) => obj,
        None => panic!(),
    }
}

fn test_integer_object(obj: Object, expected: i64) -> bool {
    match obj {
        Object::Integer(value) => {
            if value != expected {
                panic!("{} is not match to {}", value, expected);
            }
            true
        }
        _ => panic!("{} is not integer object.", obj.string()),
    }
}

fn test_boolean_object(obj: Object, expected: bool) -> bool {
    match obj {
        Object::Boolean(value) => {
            if value != expected {
                panic!("{} is not match to {}", value, expected);
            }
            true
        }
        _ => panic!("{} is not integer object.", obj.string()),
    }
}

fn test_null_object(obj: Object) -> bool {
    matches!(obj, Object::Null)
}

#[test]
fn test_eval_integer_expression() {
    let tests: [(&str, i64); 15] = [
        ("5", 5),
        ("10", 10),
        ("-5", -5),
        ("-10", -10),
        ("5 + 5 + 5 + 5 - 10", 10),
        ("2 * 2 * 2 * 2 * 2", 32),
        ("-50 + 100 + -50", 0),
        ("5 * 2 + 10", 20),
        ("5 + 2 * 10", 25),
        ("20 + 2 * 10", 40),
        ("50 / 2 * 2 + 10", 60),
        ("2 * (5 + 10)", 30),
        ("3 * 3 * 3 + 10", 37),
        ("3 * (3 * 3) + 10", 37),
        ("(5 + 10 * 2 + 15 / 3) * 2 + -10", 50),
    ];

    for t in tests {
        let evaluated = test_eval(t.0.to_string());
        test_integer_object(evaluated, t.1);
    }
}

#[test]
fn test_eval_string_literal() {
    let tests: [(&str, &str); 2] = [
        ("\"Hello World!\"", "Hello World!"),
        ("\"Hello\" + \" \" + \"World!\"", "Hello World!"),
    ];

    for t in tests {
        let evaluated = test_eval(t.0.to_string());
        if let Object::String(value) = evaluated {
            assert_eq!(value, t.1.to_string());
        } else {
            panic!("not string");
        }
    }
}

#[test]
fn test_eval_boolean_expression() {
    let tests: [(&str, bool); 21] = [
        ("true", true),
        ("false", false),
        ("1 < 2", true),
        ("1 > 2", false),
        ("1 < 1", false),
        ("1 > 1", false),
        ("1 == 1", true),
        ("1 != 1", false),
        ("1 == 2", false),
        ("1 != 2", true),
        ("true == true", true),
        ("false == false", true),
        ("true == false", false),
        ("true != false", true),
        ("false != true", true),
        ("(1 < 2) == true", true),
        ("(1 < 2) == false", false),
        ("(1 > 2) == true", false),
        ("(1 > 2) == false", true),
        ("\"Hello\" == \"Hello\"", true),
        ("\"Hello\" == \"World\"", false),
    ];

    for t in tests {
        let evaluated = test_eval(t.0.to_string());
        test_boolean_object(evaluated, t.1);
    }
}

#[test]
fn test_bang_operator() {
    let tests: [(&str, bool); 6] = [
        ("!true", false),
        ("!false", true),
        ("!5", false),
        ("!!true", true),
        ("!!false", false),
        ("!!5", true),
    ];

    for t in tests {
        let evaluated = test_eval(t.0.to_string());
        test_boolean_object(evaluated, t.1);
    }
}

#[test]
fn test_if_else_expression() {
    let tests: [(&str, Option<i64>); 7] = [
        ("if (true) { 10 }", Some(10)),
        ("if (false) { 10 }", None),
        ("if (1) { 10 }", Some(10)),
        ("if (1 < 2) { 10 }", Some(10)),
        ("if (1 > 2) { 10 }", None),
        ("if (1 > 2) { 10 } else { 20 }", Some(20)),
        ("if (1 < 2) { 10 } else { 20 }", Some(10)),
    ];

    for t in tests {
        let evaluated = test_eval(t.0.to_string());
        if let Some(integ) = t.1 {
            test_integer_object(evaluated, integ);
        } else {
            assert!(test_null_object(evaluated));
        }
    }
}

#[test]
fn evaluator_test_return_statements() {
    let tests: [(&str, i64); 5] = [
        ("return 10;", 10),
        ("return 10; 9;", 10),
        ("return 2 * 5; 9;", 10),
        ("9; return 2 * 5; 9;", 10),
        (
            "if (10 > 1) {
                    if ( 10 > 1) {
                        return 10;
                    }
                    return 1;
                }",
            10,
        ),
    ];

    for t in tests {
        let evaluated = test_eval(t.0.to_string());
        test_integer_object(evaluated, t.1);
    }
}

#[test]
fn test_error_handling() {
    let tests: [(&str, &str); 9] = [
        ("5 + true;", "type mismatch: INTEGER + BOOLEAN"),
        ("5 + true; 5;", "type mismatch: INTEGER + BOOLEAN"),
        ("-true", "unknown operator: -BOOLEAN"),
        ("true + false;", "unknown operator: BOOLEAN + BOOLEAN"),
        ("5; true + false; 5", "unknown operator: BOOLEAN + BOOLEAN"),
        (
            "if(10 > 1) {true + false; }",
            "unknown operator: BOOLEAN + BOOLEAN",
        ),
        (
            "if(10 > 1) {
                    if (-true) {
                        return true + false;
                    }
                    return 1
                }",
            "unknown operator: -BOOLEAN",
        ),
        ("foobar", "identifier not found: foobar"),
        ("\"Hello\" - \"World\"", "unknown operator: STRING - STRING"),
    ];

    for t in tests {
        let evaluated = test_eval(t.0.to_string());
        match evaluated {
            Object::Error(value) => {
                assert_eq!(value, t.1);
            }
            _ => {
                panic!("{}", evaluated.string());
            }
        }
    }
}

#[test]
fn test_function_object() {
    let tests: [(&str, Vec<&str>, &str); 1] =
        [("fn(x) { x + 2; };", vec!["x"], "{\n\t(x + 2)\n}")];

    for t in tests {
        let evaluated = test_eval(t.0.to_string());
        match evaluated {
            Object::Function {
                parameters,
                body,
                env: _,
            } => {
                assert_eq!(parameters.len(), t.1.len());
                for (i, p) in parameters.iter().enumerate() {
                    assert_eq!(p.string(), t.1[i]);
                }
                assert_eq!(body.string(), t.2);
            }
            _ => {
                panic!("{}", evaluated.string());
            }
        }
    }
}

#[test]
fn test_function_application() {
    let tests: [(&str, i64); 6] = [
        ("let identity = fn(x) { x; }; identity(5);", 5),
        ("let identity = fn(x) { return x; }; identity(5);", 5),
        ("let double = fn(x) { x * 2; }; double(5);", 10),
        ("let add = fn(x, y) { x + y; }; add(5, 5);", 10),
        ("let add = fn(x, y) { x + y; }; add(5 + 5, add(5, 5));", 20),
        ("fn(x){x;}(5)", 5),
    ];

    for t in tests {
        let evaluated = test_eval(t.0.to_string());
        test_integer_object(evaluated, t.1);
    }
}

#[test]
fn test_closures_capture_definition_scope() {
    let input = "
let newAdder = fn(x) { fn(y) { x + y; }; };
let addTwo = newAdder(2);
addTwo(3);
";
    let evaluated = test_eval(input.to_string());
    test_integer_object(evaluated, 5);
}

#[test]
fn test_scoping_shadowing() {
    let input = "
let x = 5;
let f = fn() { let x = 9; x; };
f();
x;
";
    let evaluated = test_eval(input.to_string());
    test_integer_object(evaluated, 5);

    let inner = "
let x = 5;
let f = fn() { let x = 9; x; };
f();
";
    let evaluated_inner = test_eval(inner.to_string());
    test_integer_object(evaluated_inner, 9);
}

#[test]
fn test_empty_program_has_no_value() {
    let mut evaluator = Evaluator::new();
    let l = Lexer::new("");
    let mut p = Parser::new(l);
    let program = p.parse_program();
    assert_eq!(p.errors.len(), 0);
    assert!(evaluator.eval_program(program).is_none());
}

#[test]
fn test_rebinding_same_name() {
    let evaluated = test_eval("let x = 1; let x = 2; x;".to_string());
    test_integer_object(evaluated, 2);
}

#[test]
fn test_largest_integer_literal() {
    let evaluated = test_eval("9223372036854775807".to_string());
    test_integer_object(evaluated, i64::MAX);
}

#[test]
fn test_let_with_error_value_does_not_bind() {
    let evaluated = test_eval("let x = missing; 7;".to_string());
    match evaluated {
        Object::Error(m) => assert_eq!(m, "identifier not found: missing"),
        other => panic!("{}", other.string()),
    }
}
