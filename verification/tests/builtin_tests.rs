use strainer::builtin::{apply_builtin, new_builtins};
use strainer::environment::Environment;
use strainer::repl::Repl;
use strainer::evaluator::{EvalResult, Evaluator, FaultKind};
use strainer::lexer::Lexer;
use strainer::object::{BuiltinKind, Object};
use strainer::parser::Parser;

fn test_eval(input: &str) -> Object {
    let mut evaluator = Evaluator::new();
    let l = Lexer::new(input);
    let mut p = Parser::new(l);
    let program = p.parse_program();
    assert_eq!(p.errors.len(), 0);
    evaluator.eval_program(program).expect("no value")
}

#[test]
fn test_len_builtin() {
    match test_eval("len(\"Hello\")") {
        Object::Integer(v) => assert_eq!(v, 5),
        other => panic!("unexpected {}", other.string()),
    }
    match test_eval("len(\"\")") {
        Object::Integer(v) => assert_eq!(v, 0),
        other => panic!("unexpected {}", other.string()),
    }
}

#[test]
fn test_len_wrong_arity_message() {
    match test_eval("len()") {
        Object::Error(m) => assert_eq!(m, "wrong number of arguments. got=0, want=1"),
        other => panic!("unexpected {}", other.string()),
    }
    match test_eval("len(5)") {
        Object::Error(m) => assert_eq!(m, "argument to `len` not supported, got INTEGER"),
        other => panic!("unexpected {}", other.string()),
    }
}

#[test]
fn test_push_returns_new_array() {
    let original = vec![Object::Integer(1), Object::Integer(2)];
    let args = vec![Object::Array(original.clone()), Object::Integer(3)];
    match apply_builtin(BuiltinKind::Push, &args) {
        EvalResult::Value(Object::Array(grown)) => {
            assert_eq!(grown.len(), 3);
            assert!(matches!(grown[2], Object::Integer(3)));
        }
        _ => panic!("push did not produce an array"),
    }
    // the array handed in is untouched
    match &args[0] {
        Object::Array(elems) => assert_eq!(elems.len(), 2),
        _ => panic!(),
    }
}

#[test]
fn test_first_last_rest_builtins() {
    let arr = Object::Array(vec![
        Object::Integer(1),
        Object::Integer(2),
        Object::Integer(3),
    ]);
    match apply_builtin(BuiltinKind::First, &vec![arr.clone()]) {
        EvalResult::Value(Object::Integer(v)) => assert_eq!(v, 1),
        _ => panic!(),
    }
    match apply_builtin(BuiltinKind::Last, &vec![arr.clone()]) {
        EvalResult::Value(Object::Integer(v)) => assert_eq!(v, 3),
        _ => panic!(),
    }
    match apply_builtin(BuiltinKind::Rest, &vec![arr.clone()]) {
        EvalResult::Value(Object::Array(rest)) => {
            assert_eq!(rest.len(), 2);
            assert!(matches!(rest[0], Object::Integer(2)));
        }
        _ => panic!(),
    }
    match apply_builtin(BuiltinKind::First, &vec![Object::Array(vec![])]) {
        EvalResult::Value(Object::Null) => {}
        _ => panic!(),
    }
    match apply_builtin(BuiltinKind::Rest, &vec![Object::Integer(1)]) {
        EvalResult::Value(Object::Error(m)) => {
            assert_eq!(m, "argument to `rest` must be array. got INTEGER")
        }
        _ => panic!(),
    }
}

#[test]
fn test_builtin_table_names() {
    let table = new_builtins();
    let names: Vec<&str> = table.iter().map(|e| e.0.as_str()).collect();
    assert_eq!(
        names,
        vec!["len", "first", "last", "rest", "push", "import", "exit", "puts"]
    );
}

#[test]
fn test_exit_builtin_signals() {
    match test_eval("exit()") {
        Object::Exit => {}
        other => panic!("unexpected {}", other.string()),
    }
    match test_eval("exit(3)") {
        Object::Exit => {}
        other => panic!("unexpected {}", other.string()),
    }
}

#[test]
fn test_import_runs_provided_source() {
    let mut evaluator = Evaluator::new();
    evaluator.provide_source("lib.mk".to_string(), "let z = 40; z + 2;");
    let l = Lexer::new("import(\"lib.mk\")");
    let mut p = Parser::new(l);
    let program = p.parse_program();
    assert_eq!(p.errors.len(), 0);
    match evaluator.eval_program(program) {
        Some(Object::Integer(v)) => assert_eq!(v, 42),
        _ => panic!("import did not evaluate"),
    }
}

#[test]
fn test_import_shares_environment() {
    let mut evaluator = Evaluator::new();
    evaluator.provide_source("defs.mk".to_string(), "let shared = 7;");
    let l = Lexer::new("import(\"defs.mk\"); shared + 1;");
    let mut p = Parser::new(l);
    let program = p.parse_program();
    assert_eq!(p.errors.len(), 0);
    match evaluator.eval_program(program) {
        Some(Object::Integer(v)) => assert_eq!(v, 8),
        _ => panic!("imported binding not visible"),
    }
}

#[test]
fn test_import_missing_file_errors() {
    match test_eval("import(\"nowhere\")") {
        Object::Error(m) => assert_eq!(m, "Could not open or find file: nowhere"),
        other => panic!("unexpected {}", other.string()),
    }
}

#[test]
fn test_division_by_zero_faults() {
    let mut evaluator = Evaluator::new();
    let l = Lexer::new("5 / 0;");
    let mut p = Parser::new(l);
    let program = p.parse_program();
    assert_eq!(p.errors.len(), 0);
    match evaluator.eval_outcome(&program) {
        EvalResult::Fault(FaultKind::DivideByZero) => {}
        _ => panic!("division by zero must fault"),
    }
    // a fault never becomes a language-level value
    let mut evaluator2 = Evaluator::new();
    let l2 = Lexer::new("5 / 0;");
    let mut p2 = Parser::new(l2);
    let program2 = p2.parse_program();
    assert!(evaluator2.eval_program(program2).is_none());
}

#[test]
fn test_overflow_faults() {
    let mut evaluator = Evaluator::new();
    let l = Lexer::new("9223372036854775807 + 1;");
    let mut p = Parser::new(l);
    let program = p.parse_program();
    assert_eq!(p.errors.len(), 0);
    match evaluator.eval_outcome(&program) {
        EvalResult::Fault(FaultKind::IntegerOverflow) => {}
        _ => panic!("overflow must fault"),
    }
}

#[test]
fn test_arity_mismatch_faults() {
    let mut evaluator = Evaluator::new();
    let l = Lexer::new("let f = fn(x, y) { x; }; f(1);");
    let mut p = Parser::new(l);
    let program = p.parse_program();
    assert_eq!(p.errors.len(), 0);
    match evaluator.eval_outcome(&program) {
        EvalResult::Fault(FaultKind::ArityMismatch) => {}
        _ => panic!("missing argument must fault"),
    }
}

#[test]
fn test_object_rendering() {
    assert_eq!(Object::Integer(-5).string(), "-5");
    assert_eq!(Object::Integer(1234567890).string(), "1234567890");
    assert_eq!(Object::Boolean(true).string(), "true");
    assert_eq!(Object::String("hi".to_string()).string(), "\"hi\"");
    assert_eq!(Object::Null.string(), "NULL");
    assert_eq!(Object::Exit.string(), "Exit");
    assert_eq!(
        Object::Array(vec![Object::Integer(1), Object::Integer(2)]).string(),
        "[1, 2, ]"
    );
    assert_eq!(Object::Error("boom".to_string()).string(), "boom");
    assert_eq!(
        Object::Return(Box::new(Object::Integer(5))).string(),
        "5"
    );
    assert_eq!(Object::Integer(7).kind_name_str(), "INTEGER");
    assert_eq!(Object::Null.kind_name_str(), "NULL");
}

#[test]
fn test_environment_shadowing() {
    let mut env = Environment::new();
    env.set(0, "x".to_string(), Object::Integer(1));
    let inner = env.new_enclosed_environment(0);
    env.set(inner, "x".to_string(), Object::Integer(2));
    match env.get(inner, "x") {
        Some(Object::Integer(v)) => assert_eq!(v, 2),
        _ => panic!(),
    }
    match env.get(0, "x") {
        Some(Object::Integer(v)) => assert_eq!(v, 1),
        _ => panic!(),
    }
    assert!(env.contains_key(inner, "x"));
    assert!(!env.contains_key(inner, "y"));
    match env.get(inner, "true") {
        Some(Object::Boolean(true)) => {}
        _ => panic!("outer constants must be reachable from the inner scope"),
    }
}

#[test]
fn test_repl_enter_round() {
    let mut r = Repl::new();
    r.view = vec!["1 + 2".chars().collect()];
    let (need_next, output) = r.enter();
    assert!(!need_next);
    assert_eq!(output, "3");

    let mut r2 = Repl::new();
    r2.view = vec!["if (true) {".chars().collect()];
    let (need_next2, _) = r2.enter();
    assert!(need_next2);
}

#[test]
fn test_repl_get_command_and_view() {
    let r = Repl::new();
    let mut r2 = Repl::new();
    r2.view = vec!["ab".chars().collect(), "c".chars().collect()];
    assert_eq!(r2.get_command(), "ab\r\nc\r\n");
    let rows = r.get_view("ab\r\nc\r\n".to_string());
    assert_eq!(rows.len(), 2);
    assert_eq!(rows[0], vec!['a', 'b']);
    assert_eq!(rows[1], vec!['c']);
}

#[test]
fn test_puts_returns_null() {
    match test_eval("puts(\"hi\")") {
        Object::Null => {}
        other => panic!("unexpected {}", other.string()),
    }
}

#[test]
fn test_calling_a_non_function_yields_no_value() {
    let mut evaluator = Evaluator::new();
    let l = Lexer::new("5(3);");
    let mut p = Parser::new(l);
    let program = p.parse_program();
    assert_eq!(p.errors.len(), 0);
    match evaluator.eval_outcome(&program) {
        EvalResult::NoValue => {}
        _ => panic!("applying a non-function must produce no value"),
    }
}

#[test]
fn test_string_comparison_and_truthiness() {
    match test_eval("if (\"\") { 1 } else { 2 }") {
        // every non-null, non-boolean value is true, the empty string too
        Object::Integer(v) => assert_eq!(v, 1),
        other => panic!("unexpected {}", other.string()),
    }
    match test_eval("if (0) { 1 } else { 2 }") {
        Object::Integer(v) => assert_eq!(v, 1),
        other => panic!("unexpected {}", other.string()),
    }
}

#[test]
fn test_import_reports_parse_errors() {
    let mut evaluator = Evaluator::new();
    evaluator.provide_source("bad.mk".to_string(), "let = 5;");
    let l = Lexer::new("import(\"bad.mk\")");
    let mut p = Parser::new(l);
    let program = p.parse_program();
    assert_eq!(p.errors.len(), 0);
    match evaluator.eval_program(program) {
        Some(Object::Error(m)) => {
            assert!(m.starts_with("parser errors:\r\n"));
            assert!(m.contains("expected next token to be IDENT, got ASSIGN instead."));
        }
        _ => panic!("a bad source must surface its diagnostics"),
    }
}

#[test]
fn test_repl_enter_fault_signal() {
    let mut r = Repl::new();
    r.view = vec!["5 / 0;".chars().collect()];
    let (need_next, output) = r.enter();
    assert!(!need_next);
    assert_eq!(output, "");
    assert!(matches!(r.fault, Some(FaultKind::DivideByZero)));
}
