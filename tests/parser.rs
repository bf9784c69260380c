use plume::{BinaryOperator, Expression, OperatorPosition, Parser, UnaryOperator};

#[test]
fn function() {
    assert_eq!(
        Parser::from("function hello() { \"hello!\"; }").parse().unwrap(),
        vec![Expression::Function {
            name: "hello".to_owned(),
            ret: "void".to_owned(),
            args: vec![],
            body: Some(Box::new(Expression::Block {
                expressions: vec![Expression::String("hello!".to_owned())]
            }))
        }]
    )
}

#[test]
fn import() {
    // Import { print }
    assert_eq!(
        Parser::from("import { print } from \"util.plume\"").parse().unwrap(),
        vec![Expression::Import {
            path: "util.plume".to_owned(),
            idents: Some(vec!["print".to_owned()]),
            import_all: false,
        }]
    );

    // Import { print, hello }
    assert_eq!(
        Parser::from("import { print, hello } from \"util.plume\"").parse().unwrap(),
        vec![Expression::Import {
            path: "util.plume".to_owned(),
            idents: Some(vec!["print".to_owned(), "hello".to_owned()]),
            import_all: false,
        }]
    );

    // Import *
    assert_eq!(
        Parser::from("import * from \"util.plume\"").parse().unwrap(),
        vec![Expression::Import {
            path: "util.plume".to_owned(),
            idents: None,
            import_all: true,
        }]
    );
}

#[test]
fn empty_source_gives_no_expressions() {
    assert_eq!(Parser::from("").parse().unwrap(), vec![]);
}

#[test]
fn export_from_file_and_forward_declaration() {
    assert_eq!(
        Parser::from("export { a b } from \"x.plume\" declare function f(a: int, b: char*) -> int; ")
            .parse()
            .unwrap(),
        vec![
            Expression::ExportFromFile {
                idents: Some(vec!["a".to_owned(), "b".to_owned()]),
                export_all: false,
                path: "x.plume".to_owned(),
            },
            Expression::Declare(Box::new(Expression::Function {
                name: "f".to_owned(),
                ret: "int".to_owned(),
                args: vec![
                    ("a".to_owned(), "int".to_owned()),
                    ("b".to_owned(), "char*".to_owned())
                ],
                body: None,
            })),
        ]
    );
}

#[test]
fn prefix_postfix_and_binary_operators() {
    assert_eq!(
        Parser::from("-x i++ a * b ").parse().unwrap(),
        vec![
            Expression::UnaryOperation {
                operator: UnaryOperator::Negation,
                expr: Box::new(Expression::VariableRef("x".to_owned())),
                position: OperatorPosition::Prefix,
            },
            Expression::UnaryOperation {
                operator: UnaryOperator::Increment,
                expr: Box::new(Expression::VariableRef("i".to_owned())),
                position: OperatorPosition::Postfix,
            },
            Expression::BinaryOperation {
                operator: BinaryOperator::Multiply,
                lhs: Box::new(Expression::VariableRef("a".to_owned())),
                rhs: Box::new(Expression::VariableRef("b".to_owned())),
            },
        ]
    );
}

#[test]
fn variable_declaration_with_array_type_and_value() {
    assert_eq!(
        Parser::from("let xs: int[] = 1_000.5 ").parse().unwrap(),
        vec![Expression::BinaryOperation {
            operator: BinaryOperator::Assign,
            lhs: Box::new(Expression::VariableDeclaration {
                name: "xs".to_owned(),
                ty: "int[]".to_owned(),
                mutable: true,
            }),
            rhs: Box::new(Expression::Decimal("1000.5".to_owned())),
        }]
    );
}

#[test]
fn control_flow_and_calls() {
    assert_eq!(
        Parser::from("if (ok) { print(\"a\", 'b') } else { return; } ").parse().unwrap(),
        vec![
            Expression::If {
                condition: Box::new(Expression::VariableRef("ok".to_owned())),
                body: Box::new(Expression::Block {
                    expressions: vec![Expression::FuncCall(
                        "print".to_owned(),
                        vec![Expression::String("a".to_owned()), Expression::Char('b')]
                    )]
                }),
            },
            Expression::Else {
                body: Box::new(Expression::Block {
                    expressions: vec![Expression::Return(None)]
                }),
            },
        ]
    );
}

#[test]
fn for_loop() {
    let parsed = Parser::from("for (let i: int = 0; i < 10; i++) { } ").parse().unwrap();
    assert_eq!(parsed.len(), 1);
    match &parsed[0] {
        Expression::For { conditions, body } => {
            assert_eq!(
                *conditions.1,
                Expression::BinaryOperation {
                    operator: BinaryOperator::Lt,
                    lhs: Box::new(Expression::VariableRef("i".to_owned())),
                    rhs: Box::new(Expression::Number("10".to_owned())),
                }
            );
            assert_eq!(**body, Expression::Block { expressions: vec![] });
        }
        _ => panic!("expected a for loop"),
    }
}

#[test]
fn char_literal_longer_than_one_byte_is_an_error() {
    assert!(Parser::from("'ab' ").parse().is_err());
    assert!(Parser::from("'é' ").parse().is_err());
}

#[test]
fn import_without_from_is_an_error() {
    assert!(Parser::from("import * \"x\" ").parse().is_err());
}

#[test]
fn declaration_without_type_is_an_error() {
    assert!(Parser::from("let x = 1 ").parse().is_err());
}

#[test]
fn numbers_and_decimals() {
    assert_eq!(Parser::from("1.").parse().unwrap(), vec![Expression::Decimal("1.".to_owned())]);
    assert_eq!(Parser::from("42").parse().unwrap(), vec![Expression::Number("42".to_owned())]);
    assert_eq!(
        Parser::from("123_456.789_0").parse().unwrap(),
        vec![Expression::Decimal("123456.7890".to_owned())]
    );
}

fn var(name: &str) -> Box<Expression> {
    Box::new(Expression::VariableRef(name.to_owned()))
}

#[test]
fn binary_operations_nest_to_the_right() {
    assert_eq!(
        Parser::from("a + b * c").parse().unwrap(),
        vec![Expression::BinaryOperation {
            operator: BinaryOperator::Add,
            lhs: var("a"),
            rhs: Box::new(Expression::BinaryOperation {
                operator: BinaryOperator::Multiply,
                lhs: var("b"),
                rhs: var("c"),
            }),
        }]
    );
}

#[test]
fn ambiguous_operators_by_position() {
    let prefix = [
        ("-val", UnaryOperator::Negation, "val"),
        ("*ptr", UnaryOperator::Deref, "ptr"),
        ("&val", UnaryOperator::Ref, "val"),
    ];
    for (src, op, name) in prefix {
        assert_eq!(
            Parser::from(src).parse().unwrap(),
            vec![Expression::UnaryOperation {
                operator: op,
                expr: var(name),
                position: OperatorPosition::Prefix,
            }]
        );
    }
    let binary = [
        ("a - b", BinaryOperator::Subtract),
        ("a * b", BinaryOperator::Multiply),
        ("a & b", BinaryOperator::BitAND),
    ];
    for (src, op) in binary {
        assert_eq!(
            Parser::from(src).parse().unwrap(),
            vec![Expression::BinaryOperation { operator: op, lhs: var("a"), rhs: var("b") }]
        );
    }
}

#[test]
fn postfix_operators() {
    assert_eq!(
        Parser::from("i--").parse().unwrap(),
        vec![Expression::UnaryOperation {
            operator: UnaryOperator::Decrement,
            expr: var("i"),
            position: OperatorPosition::Postfix,
        }]
    );
}

#[test]
fn declarations() {
    assert_eq!(
        Parser::from("let x: i32 = 5").parse().unwrap(),
        vec![Expression::BinaryOperation {
            operator: BinaryOperator::Assign,
            lhs: Box::new(Expression::VariableDeclaration {
                name: "x".to_owned(),
                ty: "i32".to_owned(),
                mutable: true,
            }),
            rhs: Box::new(Expression::Number("5".to_owned())),
        }]
    );
    assert_eq!(
        Parser::from("const flag: bool").parse().unwrap(),
        vec![Expression::VariableDeclaration {
            name: "flag".to_owned(),
            ty: "bool".to_owned(),
            mutable: false,
        }]
    );
}

#[test]
fn call_with_arguments() {
    assert_eq!(
        Parser::from("print(\"hi\", x)").parse().unwrap(),
        vec![Expression::FuncCall(
            "print".to_owned(),
            vec![Expression::String("hi".to_owned()), Expression::VariableRef("x".to_owned())]
        )]
    );
}

#[test]
fn declaration_errors_carry_the_offending_token() {
    let e = Parser::from("let x = 5").parse().unwrap_err();
    let t = e.token.unwrap();
    assert!(t.cmp_token(plume::TokenKind::BinaryOperator, "="));
    let e = Parser::from("let 5: i32").parse().unwrap_err();
    let t = e.token.unwrap();
    assert!(t.cmp_token(plume::TokenKind::Number, "5"));
}

#[test]
fn unclosed_groups_are_errors() {
    assert!(Parser::from("print(x").parse().is_err());
    assert!(Parser::from("{ a").parse().is_err());
    assert!(Parser::from("function f(a: int").parse().is_err());
    assert!(Parser::from("import { a").parse().is_err());
}

#[test]
fn signature_errors_carry_the_offending_token() {
    let e = Parser::from("function (a: i32) -> i32;").parse().unwrap_err();
    assert!(e.token.unwrap().cmp_token(plume::TokenKind::Parens, "("));
    let e = Parser::from("function f(a) -> i32;").parse().unwrap_err();
    assert!(e.token.unwrap().cmp_token(plume::TokenKind::Parens, ")"));
    let e = Parser::from("function f(a: i32) -> ;").parse().unwrap_err();
    assert!(e.token.unwrap().cmp_token(plume::TokenKind::Semicolon, ";"));
}
