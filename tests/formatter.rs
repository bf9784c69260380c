use plume::formatter::format_number;
use plume::{BinaryOperator, Expression, OperatorPosition, Parser, SourceFile, UnaryOperator};

#[test]
fn numbers_are_grouped_by_three() {
    assert_eq!(format_number("1234567"), "1_234_567");
    assert_eq!(format_number("123"), "123");
    assert_eq!(format_number("1234.56789"), "1_234.56789");
    assert_eq!(format_number("12."), "12.");
    assert_eq!(format_number("1234.5.6"), "1_234.5.6");
    assert_eq!(Expression::Number("123456".to_owned()).as_string(), "123_456");
}

#[test]
fn comments_render_by_line_count() {
    assert_eq!(Expression::Comment("hi".to_owned()).as_string(), "// hi");
    assert_eq!(Expression::Comment("a\nb".to_owned()).as_string(), "/* a\nb */");
}

#[test]
fn operators_render_their_text() {
    let e = Expression::BinaryOperation {
        operator: BinaryOperator::LeftShiftAssign,
        lhs: Box::new(Expression::UnaryOperation {
            operator: UnaryOperator::Deref,
            expr: Box::new(Expression::VariableRef("p".to_owned())),
            position: OperatorPosition::Prefix,
        }),
        rhs: Box::new(Expression::UnaryOperation {
            operator: UnaryOperator::Decrement,
            expr: Box::new(Expression::VariableRef("n".to_owned())),
            position: OperatorPosition::Postfix,
        }),
    };
    assert_eq!(e.as_string(), "*p <<= n--");
    assert_eq!(BinaryOperator::BitOR.as_string(), "||");
    assert_eq!(UnaryOperator::BitNOT.as_string(), "~");
}

#[test]
fn function_and_modules() {
    let f = Expression::Function {
        name: "f".to_owned(),
        ret: "int".to_owned(),
        args: vec![("a".to_owned(), "int".to_owned()), ("b".to_owned(), "char*".to_owned())],
        body: Some(Box::new(Expression::Block {
            expressions: vec![Expression::Return(Some(Box::new(Expression::Bool(true))))],
        })),
    };
    assert_eq!(f.as_string(), "function f(a: int,b: char*) -> int {return true;}");
    let i = Expression::Import {
        idents: Some(vec!["a".to_owned(), "b".to_owned()]),
        import_all: false,
        path: "m.plume".to_owned(),
    };
    assert_eq!(i.as_string(), "import {a, b} from \"m.plume\"");
    let x = Expression::ExportFromFile { idents: None, export_all: true, path: "m".to_owned() };
    assert_eq!(x.as_string(), "export * from \"m\"");
    assert_eq!(Expression::Char('c').as_string(), "'c'");
}

#[test]
fn format_then_reparse_gives_the_same_tree() {
    let src = "function add(a: int, b: int) -> int { return a + b; } import * from \"m\" ";
    let first = Parser::from(src).parse().unwrap();
    let file = SourceFile::new("main.plume".to_owned(), src).unwrap();
    let mut text = file.format();
    text.push(' ');
    let second = Parser::from(text.as_str()).parse().unwrap();
    assert_eq!(first, second);
}

#[test]
fn nested_negation_keeps_apart() {
    let e = Expression::UnaryOperation {
        operator: UnaryOperator::Negation,
        expr: Box::new(Expression::UnaryOperation {
            operator: UnaryOperator::Negation,
            expr: Box::new(Expression::VariableRef("x".to_owned())),
            position: OperatorPosition::Prefix,
        }),
        position: OperatorPosition::Prefix,
    };
    assert_eq!(e.as_string(), "- -x");
    assert_eq!(Parser::from(e.as_string().as_str()).parse().unwrap(), vec![e]);
}
