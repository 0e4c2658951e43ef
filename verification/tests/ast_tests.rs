use strainer::ast::{Expression, Program, Statement};

#[test]
fn test_string() {
    let program = Program {
        statements: vec![Statement::LetStatement {
            name: Expression::Identifier {
                value: "myVar".to_string(),
            },
            value: Expression::Identifier {
                value: "anotherVar".to_string(),
            },
        }],
    };

    assert_eq!(program.string(), "let myVar = anotherVar;\n");
}

#[test]
fn test_statement_rendering() {
    let ret = Statement::ReturnStatement {
        return_value: Expression::IntegerLiteral { value: -7 },
    };
    assert_eq!(ret.string(), "return -7;");

    let block = Statement::BlockStatement {
        statements: vec![Statement::ExpressionStatement {
            expression: Expression::Identifier {
                value: "x".to_string(),
            },
        }],
    };
    assert_eq!(block.string(), "{\n\tx\n}");
}

#[test]
fn test_expression_rendering() {
    let e = Expression::InfixExpression {
        left: Box::new(Expression::IntegerLiteral { value: 1 }),
        operator: "+".to_string(),
        right: Box::new(Expression::StringLiteral {
            value: "hi".to_string(),
        }),
    };
    assert_eq!(e.string(), "(1 + \"hi\")");

    let f = Expression::FunctionLiteral {
        parameters: vec![
            Expression::Identifier {
                value: "a".to_string(),
            },
            Expression::Identifier {
                value: "b".to_string(),
            },
        ],
        body: Box::new(Statement::BlockStatement { statements: vec![] }),
    };
    assert_eq!(f.string(), "fn (a, b) {\n}");
}
