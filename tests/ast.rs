use plume::{BinaryOperator, UnaryOperator};

#[test]
fn unary_operators_read_back_their_text() {
    let all = [
        UnaryOperator::Not,
        UnaryOperator::Deref,
        UnaryOperator::Ref,
        UnaryOperator::Increment,
        UnaryOperator::Decrement,
        UnaryOperator::BitNOT,
        UnaryOperator::Negation,
    ];
    for op in all {
        assert_eq!(UnaryOperator::from(op.as_string().as_str()), Some(op));
    }
    assert_eq!(UnaryOperator::from("++"), Some(UnaryOperator::Increment));
    assert_eq!(UnaryOperator::from("+"), None);
    assert_eq!(UnaryOperator::from(""), None);
}

#[test]
fn binary_operators_read_back_their_text() {
    let all = [
        BinaryOperator::Assign,
        BinaryOperator::Add,
        BinaryOperator::Subtract,
        BinaryOperator::Multiply,
        BinaryOperator::Divide,
        BinaryOperator::Modulo,
        BinaryOperator::AddAssign,
        BinaryOperator::SubtAssign,
        BinaryOperator::MultAssign,
        BinaryOperator::DivAssign,
        BinaryOperator::ModAssign,
        BinaryOperator::LeftShiftAssign,
        BinaryOperator::RightShiftAssign,
        BinaryOperator::BitANDAssign,
        BinaryOperator::BitXORAssign,
        BinaryOperator::BitORAssign,
        BinaryOperator::Eq,
        BinaryOperator::Ne,
        BinaryOperator::Gt,
        BinaryOperator::Lt,
        BinaryOperator::Ge,
        BinaryOperator::Le,
        BinaryOperator::BitAND,
        BinaryOperator::BitXOR,
        BinaryOperator::BitOR,
        BinaryOperator::LeftShift,
        BinaryOperator::RightShift,
    ];
    for op in all {
        assert_eq!(BinaryOperator::from(op.as_string().as_str()), Some(op));
    }
    assert_eq!(BinaryOperator::from(">>="), Some(BinaryOperator::RightShiftAssign));
    assert_eq!(BinaryOperator::from("|"), None);
    assert_eq!(BinaryOperator::from("<<=="), None);
}
