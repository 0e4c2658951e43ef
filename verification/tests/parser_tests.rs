use strainer::ast::{Expression, Statement};
use strainer::lexer::Lexer;
use strainer::parser::{token_type_to_precedence, Parser, Precedence};
use strainer::token::{lookup_ident, new_token, TokenType};

fn check_parser_errors(p: Parser) {
    if p.errors.len() == 0 {
        return;
    }

    let mut error_messages = "".to_string();

    for msg in p.errors {
        error_messages += &msg;
    }
    panic!("{}", error_messages);
}

fn test_let_statement(stmt: &Statement, t: &str) {
    if let Statement::LetStatement { name, value: _ } = stmt {
        if let Expression::Identifier { value } = name {
            assert_eq!(value, t);
        } else {
            panic!("expression does not equal to identifier.");
        }
    } else {
        panic!("statement does not equal to letstatement.");
    }
}

fn test_integer_literal(il: Expression, value: i64) -> bool {
    if let Expression::IntegerLiteral { value: integ } = il {
        assert_eq!(integ, value);
        return true;
    } else {
        return false;
    }
}

#[test]
fn test_let_statements() {
    let input = "
let x = 5;
let y = 10;
let foobar = 838383;
        "
    .to_string();

    let l = Lexer::new(&input);
    let mut p = Parser::new(l);

    let tests: [&str; 3] = ["x", "y", "foobar"];

    let program = p.parse_program();
    check_parser_errors(p);

    assert_eq!(program.statements.len(), 3);
    for (i, t) in tests.iter().enumerate() {
        let stmt = &program.statements[i];
        test_let_statement(stmt, t);
    }
}

#[test]
fn parser_test_return_statements() {
    let input = "
return 5;
return 10;
return 993322;
        "
    .to_string();

    let l = Lexer::new(&input);
    let mut p = Parser::new(l);

    let program = p.parse_program();
    check_parser_errors(p);

    assert_eq!(program.statements.len(), 3);
    assert_eq!(program.statements[0].string(), format!("return {};", 5));
    assert_eq!(program.statements[1].string(), format!("return {};", 10));
    assert_eq!(program.statements[2].string(), format!("return {};", 993322));
}

#[test]
fn test_identifier_expression() {
    let input = "foobar;".to_string();

    let l = Lexer::new(&input);
    let mut p = Parser::new(l);
    let program = p.parse_program();
    check_parser_errors(p);

    assert_eq!(program.statements.len(), 1);
    if let Statement::ExpressionStatement { expression } = &program.statements[0] {
        if let Expression::Identifier { value } = expression {
            assert_eq!(value, "foobar");
        } else {
            panic!(
                "program.Statement[0] is not ast.Identifier. got={}",
                expression.string()
            );
        }
    } else {
        panic!(
            "program.Statement[0] is not ast.ExpressionStatement. got={}",
            program.statements[0].string()
        );
    }
}

#[test]
fn test_integer_literal_expression() {
    let input = "5;".to_string();

    let l = Lexer::new(&input);
    let mut p = Parser::new(l);
    let program = p.parse_program();
    check_parser_errors(p);

    assert_eq!(program.statements.len(), 1);
    if let Statement::ExpressionStatement { expression } = &program.statements[0] {
        if let Expression::IntegerLiteral { value } = expression {
            assert_eq!(*value, 5 as i64);
        } else {
            panic!(
                "program.Statement[0] is not ast.IntegerLiteral. got={}",
                expression.string()
            );
        }
    } else {
        panic!(
            "program.Statement[0] is not ast.ExpressionStatement. got={}",
            program.statements[0].string()
        );
    }
}

#[test]
fn test_parsing_prefix_expressions() {
    let prefix_tests: [(&str, &str, i64); 2] = [("!5;", "!", 5), ("-15;", "-", 15)];

    for t in prefix_tests {
        let l = Lexer::new(t.0);
        let mut p = Parser::new(l);
        let program = p.parse_program();

        check_parser_errors(p);
        assert_eq!(program.statements.len(), 1);

        if let Statement::ExpressionStatement { expression } = &program.statements[0] {
            if let Expression::PrefixExpression { operator, right } = expression {
                assert_eq!(operator, t.1);
                if !test_integer_literal((**right).clone(), t.2) {
                    return;
                }
            } else {
                panic!();
            }
        } else {
            panic!();
        }
    }
}

#[test]
fn test_parsing_infix_expressions() {
    let infix_tests: [(&str, i64, &str, i64); 8] = [
        ("5 + 5;", 5, "+", 5),
        ("5 - 5;", 5, "-", 5),
        ("5 * 5;", 5, "*", 5),
        ("5 / 5;", 5, "/", 5),
        ("5 > 5;", 5, ">", 5),
        ("5 < 5;", 5, "<", 5),
        ("5 == 5;", 5, "==", 5),
        ("5 != 5;", 5, "!=", 5),
    ];
    for t in infix_tests {
        let l = Lexer::new(t.0);
        let mut p = Parser::new(l);
        let program = p.parse_program();

        check_parser_errors(p);
        assert_eq!(program.statements.len(), 1);

        if let Statement::ExpressionStatement { expression } = &program.statements[0] {
            if let Expression::InfixExpression {
                left,
                operator,
                right,
            } = expression
            {
                assert_eq!(operator, t.2);
                let left_exp: Expression = (**left).clone();
                if !test_integer_literal(left_exp, t.1) {
                    return;
                }
                let right_exp: Expression = (**right).clone();
                if !test_integer_literal(right_exp, t.3) {
                    return;
                }
            } else {
                panic!();
            }
        } else {
            panic!();
        }
    }
}

#[test]
fn test_operator_precedence_parsing() {
    let tests: [(&str, &str); 24] = [
        ("a + b / c - d", "((a + (b / c)) - d)\n"),
        ("-a + b", "((-a) + b)\n"),
        ("!-a", "(!(-a))\n"),
        ("a + b + c", "((a + b) + c)\n"),
        ("a + b - c", "((a + b) - c)\n"),
        ("a * b * c", "((a * b) * c)\n"),
        ("a * b / c", "((a * b) / c)\n"),
        ("a + b / c", "(a + (b / c))\n"),
        ("a + b * c + d / e - f", "(((a + (b * c)) + (d / e)) - f)\n"),
        ("3 + 4; -5 * 5", "(3 + 4)\n((-5) * 5)\n"),
        ("5 > 4 == 3 < 4", "((5 > 4) == (3 < 4))\n"),
        ("5 < 4 != 3 > 4", "((5 < 4) != (3 > 4))\n"),
        (
            "3 + 4 * 5 == 3 * 1 + 4 * 5",
            "((3 + (4 * 5)) == ((3 * 1) + (4 * 5)))\n",
        ),
        ("true", "true\n"),
        ("false", "false\n"),
        ("3 > 5 == false", "((3 > 5) == false)\n"),
        ("3 < 5 == true", "((3 < 5) == true)\n"),
        ("1 + (2 + 3) + 4", "((1 + (2 + 3)) + 4)\n"),
        ("(5 + 5) * 2", "((5 + 5) * 2)\n"),
        ("2 / (5 + 5)", "(2 / (5 + 5))\n"),
        ("-(5 + 5)", "(-(5 + 5))\n"),
        ("!(true == true)", "(!(true == true))\n"),
        ("a + add(b * c) + d", "((a + add((b * c))) + d)\n"),
        (
            "add(a, b, 1, 2 * 3, 4 + 5, add(6, 7 * 8))",
            "add(a, b, 1, (2 * 3), (4 + 5), add(6, (7 * 8)))\n",
        ),
    ];

    for t in tests {
        let l = Lexer::new(t.0);
        let mut p = Parser::new(l);
        let program = p.parse_program();
        check_parser_errors(p);

        let actual = program.string();
        assert_eq!(actual, t.1);
    }
}

#[test]
fn test_boolean() {
    let tests: [(&str, &str); 4] = [
        ("true;", "true\n"),
        ("false;", "false\n"),
        ("let foobar = true;", "let foobar = true;\n"),
        ("let barfoo = false", "let barfoo = false;\n"),
    ];

    for t in tests {
        let l = Lexer::new(t.0);
        let mut p = Parser::new(l);
        let program = p.parse_program();
        check_parser_errors(p);

        let actual = program.string();
        assert_eq!(actual, t.1);
    }
}

#[test]
fn test_if_expression() {
    let tests: [(&str, &str); 2] = [
        ("if (x < y) { x }", "if ((x < y)) {\n\tx\n}\n"),
        (
            "if (x < y) { x } else { y }",
            "if ((x < y)) {\n\tx\n} else {\n\ty\n}\n",
        ),
    ];

    for t in tests {
        let l = Lexer::new(t.0);
        let mut p = Parser::new(l);
        let program = p.parse_program();
        check_parser_errors(p);

        let actual = program.string();
        assert_eq!(actual, t.1);
    }
}

#[test]
fn test_function_parameter_parsing() {
    let tests: [(&str, &str); 3] = [
        ("fn() {};", "fn () {\n}\n"),
        ("fn(x) {};", "fn (x) {\n}\n"),
        ("fn(x, y, z) {};", "fn (x, y, z) {\n}\n"),
    ];

    for t in tests {
        let l = Lexer::new(t.0);
        let mut p = Parser::new(l);
        let program = p.parse_program();
        check_parser_errors(p);

        let actual = program.string();
        assert_eq!(actual, t.1);
    }
}

#[test]
fn test_call_function() {
    let tests: [(&str, &str); 3] = [
        ("add()", "add()\n"),
        ("sum(x);", "sum(x)\n"),
        ("get(x, y, z)", "get(x, y, z)\n"),
    ];

    for t in tests {
        let l = Lexer::new(t.0);
        let mut p = Parser::new(l);
        let program = p.parse_program();
        check_parser_errors(p);

        let actual = program.string();
        assert_eq!(actual, t.1);
    }
}

#[test]
fn test_render_reparse_stable() {
    let sources: [&str; 5] = [
        "let x = 5; let y = x + 1; y;",
        "if (a < b) { a } else { b }",
        "let add = fn(x, y) { x + y; }; add(1, 2 * 3);",
        "!true == false",
        "\"hello\" + \" \" + \"world\"",
    ];

    for src in sources {
        let l = Lexer::new(src);
        let mut p = Parser::new(l);
        let program = p.parse_program();
        assert_eq!(p.errors.len(), 0);
        let once = program.string();

        let l2 = Lexer::new(&once);
        let mut p2 = Parser::new(l2);
        let program2 = p2.parse_program();
        assert_eq!(p2.errors.len(), 0);
        let twice = program2.string();

        assert_eq!(once, twice);
    }
}

#[test]
fn test_integer_literal_overflow_reports_error() {
    let l = Lexer::new("9223372036854775808;");
    let mut p = Parser::new(l);
    let _program = p.parse_program();
    assert!(p.errors.len() >= 1);
    assert_eq!(
        p.errors[0],
        "could not parse 9223372036854775808 as integer"
    );
}

#[test]
fn test_need_next_on_unterminated_block() {
    let l = Lexer::new("if (x) { y");
    let mut p = Parser::new(l);
    let _program = p.parse_program();
    assert!(p.need_next());

    let l2 = Lexer::new("if (x) { y }");
    let mut p2 = Parser::new(l2);
    let _program2 = p2.parse_program();
    assert!(!p2.need_next());
}

#[test]
fn test_peek_error_message() {
    let l = Lexer::new("let 5 = 3;");
    let mut p = Parser::new(l);
    let _program = p.parse_program();
    assert!(p.errors.len() >= 1);
    assert_eq!(
        p.errors[0],
        "\nexpected next token to be IDENT, got INT instead."
    );
}

#[test]
fn test_token_type_to_precedence() {
    assert_eq!(token_type_to_precedence(&TokenType::PLUS), Precedence::SUM);
    assert_eq!(
        token_type_to_precedence(&TokenType::ASTERISK),
        Precedence::PRODUCT
    );
    assert_eq!(token_type_to_precedence(&TokenType::EQ), Precedence::EQUALS);
    assert_eq!(
        token_type_to_precedence(&TokenType::LT),
        Precedence::LESSGREATER
    );
    assert_eq!(
        token_type_to_precedence(&TokenType::LPAREN),
        Precedence::CALL
    );
    assert_eq!(
        token_type_to_precedence(&TokenType::SEMICOLON),
        Precedence::LOWEST
    );
}

#[test]
fn test_lookup_ident_and_new_token() {
    assert_eq!(lookup_ident("fn"), TokenType::FUNCTION);
    assert_eq!(lookup_ident("let"), TokenType::LET);
    assert_eq!(lookup_ident("true"), TokenType::TRUE);
    assert_eq!(lookup_ident("false"), TokenType::FALSE);
    assert_eq!(lookup_ident("if"), TokenType::IF);
    assert_eq!(lookup_ident("else"), TokenType::ELSE);
    assert_eq!(lookup_ident("return"), TokenType::RETURN);
    assert_eq!(lookup_ident("banana"), TokenType::IDENT);

    let t = new_token(TokenType::IDENT, "banana".to_string());
    assert_eq!(t.token_type, TokenType::IDENT);
    assert_eq!(t.literal, "banana");
}
