//! The syntax tree and its operators.
use crate::text::string_of;
use vstd::string::*;
use vstd::prelude::*;

verus! {

#[derive(Debug, PartialEq)]
pub enum Expression {
    Number(String),
    Decimal(String),
    String(String),
    Char(char),
    Bool(bool),
    VariableRef(String),
    Comment(String),
    Return(Option<Box<Expression>>),
    FuncCall(String, Vec<Expression>),
    Export(Box<Expression>),
    Declare(Box<Expression>),
    Import { idents: Option<Vec<String>>, import_all: bool, path: String },
    ExportFromFile { idents: Option<Vec<String>>, export_all: bool, path: String },
    Function { name: String, ret: String, args: Vec<(String, String)>, body: Option<Box<Expression>> },
    Block { expressions: Vec<Expression> },
    VariableDeclaration { name: String, ty: String, mutable: bool },
    For { conditions: (Box<Expression>, Box<Expression>, Box<Expression>), body: Box<Expression> },
    While { condition: Box<Expression>, body: Box<Expression> },
    If { condition: Box<Expression>, body: Box<Expression> },
    Else { body: Box<Expression> },
    UnaryOperation { operator: UnaryOperator, expr: Box<Expression>, position: OperatorPosition },
    BinaryOperation { operator: BinaryOperator, lhs: Box<Expression>, rhs: Box<Expression> },
}

#[derive(Debug, PartialEq, Eq, Structural, Clone, Copy)]
pub enum UnaryOperator {
    Not,
    Deref,
    Ref,
    Increment,
    Decrement,
    BitNOT,
    Negation,
}

#[derive(Debug, PartialEq, Eq, Structural, Clone, Copy)]
pub enum OperatorPosition {
    Prefix,
    Postfix,
}

#[derive(Debug, PartialEq, Eq, Structural, Clone, Copy)]
pub enum BinaryOperator {
    Assign,
    Add,
    Subtract,
    Multiply,
    Divide,
    Modulo,
    AddAssign,
    SubtAssign,
    MultAssign,
    DivAssign,
    ModAssign,
    LeftShiftAssign,
    RightShiftAssign,
    BitANDAssign,
    BitXORAssign,
    BitORAssign,
    Eq,
    Ne,
    Gt,
    Lt,
    Ge,
    Le,
    BitAND,
    BitXOR,
    BitOR,
    LeftShift,
    RightShift,
}

/// The shape rules of the syntax tree, in every sub-expression: a decimal
/// has a `.` and a number none, a character literal is ASCII, and an import
/// or re-export names a list or everything, not both.
pub open spec fn well_formed(e: Expression) -> bool
    decreases e,
{
    match e {
        Expression::Number(s) => !s@.contains('.'),
        Expression::Decimal(s) => s@.contains('.'),
        Expression::Char(c) => (c as u32) < 128,
        Expression::Return(r) => match r {
            Some(b) => well_formed(*b),
            None => true,
        },
        Expression::FuncCall(_, args) => all_well_formed(args@),
        Expression::Export(b) => well_formed(*b),
        Expression::Declare(b) => well_formed(*b),
        Expression::Import { idents, import_all, .. } => !(import_all && idents is Some),
        Expression::ExportFromFile { idents, export_all, .. } => !(export_all && idents is Some),
        Expression::Function { body, .. } => match body {
            Some(b) => well_formed(*b),
            None => true,
        },
        Expression::Block { expressions } => all_well_formed(expressions@),
        Expression::For { conditions, body } => well_formed(*conditions.0) && well_formed(
            *conditions.1,
        ) && well_formed(*conditions.2) && well_formed(*body),
        Expression::While { condition, body } => well_formed(*condition) && well_formed(*body),
        Expression::If { condition, body } => well_formed(*condition) && well_formed(*body),
        Expression::Else { body } => well_formed(*body),
        Expression::UnaryOperation { expr, .. } => well_formed(*expr),
        Expression::BinaryOperation { lhs, rhs, .. } => well_formed(*lhs) && well_formed(*rhs),
        _ => true,
    }
}

/// Every expression of `es` is well formed.
pub open spec fn all_well_formed(es: Seq<Expression>) -> bool
    decreases es,
{
    if es.len() == 0 {
        true
    } else {
        all_well_formed(es.subrange(0, es.len() - 1)) && well_formed(es[es.len() - 1])
    }
}

pub proof fn lemma_all_well_formed_push(es: Seq<Expression>, e: Expression)
    requires
        all_well_formed(es),
        well_formed(e),
    ensures
        all_well_formed(es.push(e)),
{
    assert(es.push(e).subrange(0, es.len() as int) =~= es);
}

/// The syntax tree as a mathematical value: texts as character sequences.
pub enum Tree {
    Number(Seq<char>),
    Decimal(Seq<char>),
    Str(Seq<char>),
    Char(char),
    Bool(bool),
    VariableRef(Seq<char>),
    Comment(Seq<char>),
    Return(Option<Box<Tree>>),
    FuncCall(Seq<char>, Seq<Tree>),
    Export(Box<Tree>),
    Declare(Box<Tree>),
    Import(Option<Seq<Seq<char>>>, bool, Seq<char>),
    ExportFromFile(Option<Seq<Seq<char>>>, bool, Seq<char>),
    Function(Seq<char>, Seq<char>, Seq<(Seq<char>, Seq<char>)>, Option<Box<Tree>>),
    Block(Seq<Tree>),
    VariableDeclaration(Seq<char>, Seq<char>, bool),
    For(Box<Tree>, Box<Tree>, Box<Tree>, Box<Tree>),
    While(Box<Tree>, Box<Tree>),
    If(Box<Tree>, Box<Tree>),
    Else(Box<Tree>),
    UnaryOperation(UnaryOperator, Box<Tree>, OperatorPosition),
    BinaryOperation(BinaryOperator, Box<Tree>, Box<Tree>),
}

pub open spec fn name_views(v: Seq<String>) -> Seq<Seq<char>> {
    v.map_values(|s: String| s@)
}

pub open spec fn names_view(idents: Option<Vec<String>>) -> Option<Seq<Seq<char>>> {
    match idents {
        Some(v) => Some(name_views(v@)),
        None => None,
    }
}

pub open spec fn pair_views(v: Seq<(String, String)>) -> Seq<(Seq<char>, Seq<char>)> {
    v.map_values(|a: (String, String)| (a.0@, a.1@))
}

/// The tree that an expression stands for.
pub open spec fn tree(e: Expression) -> Tree
    decreases e,
{
    match e {
        Expression::Number(s) => Tree::Number(s@),
        Expression::Decimal(s) => Tree::Decimal(s@),
        Expression::String(s) => Tree::Str(s@),
        Expression::Char(c) => Tree::Char(c),
        Expression::Bool(b) => Tree::Bool(b),
        Expression::VariableRef(s) => Tree::VariableRef(s@),
        Expression::Comment(s) => Tree::Comment(s@),
        Expression::Return(r) => Tree::Return(
            match r {
                Some(b) => Some(Box::new(tree(*b))),
                None => None,
            },
        ),
        Expression::FuncCall(name, args) => Tree::FuncCall(name@, trees(args@)),
        Expression::Export(b) => Tree::Export(Box::new(tree(*b))),
        Expression::Declare(b) => Tree::Declare(Box::new(tree(*b))),
        Expression::Import { idents, import_all, path } => Tree::Import(
            names_view(idents),
            import_all,
            path@,
        ),
        Expression::ExportFromFile { idents, export_all, path } => Tree::ExportFromFile(
            names_view(idents),
            export_all,
            path@,
        ),
        Expression::Function { name, ret, args, body } => Tree::Function(
            name@,
            ret@,
            pair_views(args@),
            match body {
                Some(b) => Some(Box::new(tree(*b))),
                None => None,
            },
        ),
        Expression::Block { expressions } => Tree::Block(trees(expressions@)),
        Expression::VariableDeclaration { name, ty, mutable } => Tree::VariableDeclaration(
            name@,
            ty@,
            mutable,
        ),
        Expression::For { conditions, body } => Tree::For(
            Box::new(tree(*conditions.0)),
            Box::new(tree(*conditions.1)),
            Box::new(tree(*conditions.2)),
            Box::new(tree(*body)),
        ),
        Expression::While { condition, body } => Tree::While(
            Box::new(tree(*condition)),
            Box::new(tree(*body)),
        ),
        Expression::If { condition, body } => Tree::If(
            Box::new(tree(*condition)),
            Box::new(tree(*body)),
        ),
        Expression::Else { body } => Tree::Else(Box::new(tree(*body))),
        Expression::UnaryOperation { operator, expr, position } => Tree::UnaryOperation(
            operator,
            Box::new(tree(*expr)),
            position,
        ),
        Expression::BinaryOperation { operator, lhs, rhs } => Tree::BinaryOperation(
            operator,
            Box::new(tree(*lhs)),
            Box::new(tree(*rhs)),
        ),
    }
}

/// The trees of a sequence of expressions.
pub open spec fn trees(es: Seq<Expression>) -> Seq<Tree>
    decreases es,
{
    if es.len() == 0 {
        Seq::empty()
    } else {
        trees(es.subrange(0, es.len() - 1)).push(tree(es[es.len() - 1]))
    }
}

pub proof fn lemma_trees_push(es: Seq<Expression>, e: Expression)
    ensures
        trees(es.push(e)) == trees(es).push(tree(e)),
{
    assert(es.push(e).subrange(0, es.len() as int) =~= es);
}

/// The source text of a unary operator.
pub open spec fn unary_literal(op: UnaryOperator) -> Seq<char> {
    match op {
        UnaryOperator::Not => seq!['!'],
        UnaryOperator::Deref => seq!['*'],
        UnaryOperator::Ref => seq!['&'],
        UnaryOperator::Increment => seq!['+', '+'],
        UnaryOperator::Decrement => seq!['-', '-'],
        UnaryOperator::BitNOT => seq!['~'],
        UnaryOperator::Negation => seq!['-'],
    }
}

/// The unary operator written as `s`, if any.
pub open spec fn unary_of_literal(s: Seq<char>) -> Option<UnaryOperator> {
    if s.len() == 1 {
        if s[0] == '!' {
            Some(UnaryOperator::Not)
        } else if s[0] == '*' {
            Some(UnaryOperator::Deref)
        } else if s[0] == '&' {
            Some(UnaryOperator::Ref)
        } else if s[0] == '~' {
            Some(UnaryOperator::BitNOT)
        } else if s[0] == '-' {
            Some(UnaryOperator::Negation)
        } else {
            None
        }
    } else if s.len() == 2 {
        if s[0] == '+' && s[1] == '+' {
            Some(UnaryOperator::Increment)
        } else if s[0] == '-' && s[1] == '-' {
            Some(UnaryOperator::Decrement)
        } else {
            None
        }
    } else {
        None
    }
}

/// The source text of a binary operator.
pub open spec fn binary_literal(op: BinaryOperator) -> Seq<char> {
    match op {
        BinaryOperator::Assign => seq!['='],
        BinaryOperator::Add => seq!['+'],
        BinaryOperator::Subtract => seq!['-'],
        BinaryOperator::Multiply => seq!['*'],
        BinaryOperator::Divide => seq!['/'],
        BinaryOperator::Modulo => seq!['%'],
        BinaryOperator::AddAssign => seq!['+', '='],
        BinaryOperator::SubtAssign => seq!['-', '='],
        BinaryOperator::MultAssign => seq!['*', '='],
        BinaryOperator::DivAssign => seq!['/', '='],
        BinaryOperator::ModAssign => seq!['%', '='],
        BinaryOperator::LeftShiftAssign => seq!['<', '<', '='],
        BinaryOperator::RightShiftAssign => seq!['>', '>', '='],
        BinaryOperator::BitANDAssign => seq!['&', '='],
        BinaryOperator::BitXORAssign => seq!['^', '='],
        BinaryOperator::BitORAssign => seq!['|', '='],
        BinaryOperator::Eq => seq!['=', '='],
        BinaryOperator::Ne => seq!['!', '='],
        BinaryOperator::Gt => seq!['>'],
        BinaryOperator::Lt => seq!['<'],
        BinaryOperator::Ge => seq!['>', '='],
        BinaryOperator::Le => seq!['<', '='],
        BinaryOperator::BitAND => seq!['&'],
        BinaryOperator::BitXOR => seq!['^'],
        BinaryOperator::BitOR => seq!['|', '|'],
        BinaryOperator::LeftShift => seq!['<', '<'],
        BinaryOperator::RightShift => seq!['>', '>'],
    }
}

/// The binary operator written as `s`, if any.
pub open spec fn binary_of_literal(s: Seq<char>) -> Option<BinaryOperator> {
    if s.len() == 1 {
        if s[0] == '=' {
            Some(BinaryOperator::Assign)
        } else if s[0] == '+' {
            Some(BinaryOperator::Add)
        } else if s[0] == '-' {
            Some(BinaryOperator::Subtract)
        } else if s[0] == '*' {
            Some(BinaryOperator::Multiply)
        } else if s[0] == '/' {
            Some(BinaryOperator::Divide)
        } else if s[0] == '%' {
            Some(BinaryOperator::Modulo)
        } else if s[0] == '>' {
            Some(BinaryOperator::Gt)
        } else if s[0] == '<' {
            Some(BinaryOperator::Lt)
        } else if s[0] == '&' {
            Some(BinaryOperator::BitAND)
        } else if s[0] == '^' {
            Some(BinaryOperator::BitXOR)
        } else {
            None
        }
    } else if s.len() == 2 {
        if s[0] == '+' && s[1] == '=' {
            Some(BinaryOperator::AddAssign)
        } else if s[0] == '-' && s[1] == '=' {
            Some(BinaryOperator::SubtAssign)
        } else if s[0] == '*' && s[1] == '=' {
            Some(BinaryOperator::MultAssign)
        } else if s[0] == '/' && s[1] == '=' {
            Some(BinaryOperator::DivAssign)
        } else if s[0] == '%' && s[1] == '=' {
            Some(BinaryOperator::ModAssign)
        } else if s[0] == '&' && s[1] == '=' {
            Some(BinaryOperator::BitANDAssign)
        } else if s[0] == '^' && s[1] == '=' {
            Some(BinaryOperator::BitXORAssign)
        } else if s[0] == '|' && s[1] == '=' {
            Some(BinaryOperator::BitORAssign)
        } else if s[0] == '=' && s[1] == '=' {
            Some(BinaryOperator::Eq)
        } else if s[0] == '!' && s[1] == '=' {
            Some(BinaryOperator::Ne)
        } else if s[0] == '>' && s[1] == '=' {
            Some(BinaryOperator::Ge)
        } else if s[0] == '<' && s[1] == '=' {
            Some(BinaryOperator::Le)
        } else if s[0] == '|' && s[1] == '|' {
            Some(BinaryOperator::BitOR)
        } else if s[0] == '<' && s[1] == '<' {
            Some(BinaryOperator::LeftShift)
        } else if s[0] == '>' && s[1] == '>' {
            Some(BinaryOperator::RightShift)
        } else {
            None
        }
    } else if s.len() == 3 {
        if s[0] == '<' && s[1] == '<' && s[2] == '=' {
            Some(BinaryOperator::LeftShiftAssign)
        } else if s[0] == '>' && s[1] == '>' && s[2] == '=' {
            Some(BinaryOperator::RightShiftAssign)
        } else {
            None
        }
    } else {
        None
    }
}

impl UnaryOperator {
    /// The unary operator written as `literal`, if any.
    pub fn from(literal: &str) -> (r: Option<UnaryOperator>)
        ensures
            r == unary_of_literal(literal@),
    {
        let n = literal.unicode_len();
        if n == 0 || n > 3 {
            return None;
        }
        let c0 = literal.get_char(0);
        if n == 1 {
            if c0 == '!' {
                return Some(UnaryOperator::Not);
            } else if c0 == '*' {
                return Some(UnaryOperator::Deref);
            } else if c0 == '&' {
                return Some(UnaryOperator::Ref);
            } else if c0 == '~' {
                return Some(UnaryOperator::BitNOT);
            } else if c0 == '-' {
                return Some(UnaryOperator::Negation);
            }
            return None;
        }
        let c1 = literal.get_char(1);
        if n == 2 {
            if c0 == '+' && c1 == '+' {
                return Some(UnaryOperator::Increment);
            } else if c0 == '-' && c1 == '-' {
                return Some(UnaryOperator::Decrement);
            }
            return None;
        }
        let c2 = literal.get_char(2);
        return None;
    }

    /// The source text of the operator.
    pub fn as_string(&self) -> (r: String)
        ensures
            r@ == unary_literal(*self),
    {
        let v: Vec<char> = match self {
            UnaryOperator::Not => vec!['!'],
            UnaryOperator::Deref => vec!['*'],
            UnaryOperator::Ref => vec!['&'],
            UnaryOperator::Increment => vec!['+', '+'],
            UnaryOperator::Decrement => vec!['-', '-'],
            UnaryOperator::BitNOT => vec!['~'],
            UnaryOperator::Negation => vec!['-'],
        };
        string_of(&v)
    }
}

impl BinaryOperator {
    /// The binary operator written as `literal`, if any.
    pub fn from(literal: &str) -> (r: Option<BinaryOperator>)
        ensures
            r == binary_of_literal(literal@),
    {
        let n = literal.unicode_len();
        if n == 0 || n > 3 {
            return None;
        }
        let c0 = literal.get_char(0);
        if n == 1 {
            if c0 == '=' {
                return Some(BinaryOperator::Assign);
            } else if c0 == '+' {
                return Some(BinaryOperator::Add);
            } else if c0 == '-' {
                return Some(BinaryOperator::Subtract);
            } else if c0 == '*' {
                return Some(BinaryOperator::Multiply);
            } else if c0 == '/' {
                return Some(BinaryOperator::Divide);
            } else if c0 == '%' {
                return Some(BinaryOperator::Modulo);
            } else if c0 == '>' {
                return Some(BinaryOperator::Gt);
            } else if c0 == '<' {
                return Some(BinaryOperator::Lt);
            } else if c0 == '&' {
                return Some(BinaryOperator::BitAND);
            } else if c0 == '^' {
                return Some(BinaryOperator::BitXOR);
            }
            return None;
        }
        let c1 = literal.get_char(1);
        if n == 2 {
            if c0 == '+' && c1 == '=' {
                return Some(BinaryOperator::AddAssign);
            } else if c0 == '-' && c1 == '=' {
                return Some(BinaryOperator::SubtAssign);
            } else if c0 == '*' && c1 == '=' {
                return Some(BinaryOperator::MultAssign);
            } else if c0 == '/' && c1 == '=' {
                return Some(BinaryOperator::DivAssign);
            } else if c0 == '%' && c1 == '=' {
                return Some(BinaryOperator::ModAssign);
            } else if c0 == '&' && c1 == '=' {
                return Some(BinaryOperator::BitANDAssign);
            } else if c0 == '^' && c1 == '=' {
                return Some(BinaryOperator::BitXORAssign);
            } else if c0 == '|' && c1 == '=' {
                return Some(BinaryOperator::BitORAssign);
            } else if c0 == '=' && c1 == '=' {
                return Some(BinaryOperator::Eq);
            } else if c0 == '!' && c1 == '=' {
                return Some(BinaryOperator::Ne);
            } else if c0 == '>' && c1 == '=' {
                return Some(BinaryOperator::Ge);
            } else if c0 == '<' && c1 == '=' {
                return Some(BinaryOperator::Le);
            } else if c0 == '|' && c1 == '|' {
                return Some(BinaryOperator::BitOR);
            } else if c0 == '<' && c1 == '<' {
                return Some(BinaryOperator::LeftShift);
            } else if c0 == '>' && c1 == '>' {
                return Some(BinaryOperator::RightShift);
            }
            return None;
        }
        let c2 = literal.get_char(2);
        if c0 == '<' && c1 == '<' && c2 == '=' {
            return Some(BinaryOperator::LeftShiftAssign);
        } else if c0 == '>' && c1 == '>' && c2 == '=' {
            return Some(BinaryOperator::RightShiftAssign);
        }
        return None;
    }

    /// The source text of the operator.
    pub fn as_string(&self) -> (r: String)
        ensures
            r@ == binary_literal(*self),
    {
        let v: Vec<char> = match self {
            BinaryOperator::Assign => vec!['='],
            BinaryOperator::Add => vec!['+'],
            BinaryOperator::Subtract => vec!['-'],
            BinaryOperator::Multiply => vec!['*'],
            BinaryOperator::Divide => vec!['/'],
            BinaryOperator::Modulo => vec!['%'],
            BinaryOperator::AddAssign => vec!['+', '='],
            BinaryOperator::SubtAssign => vec!['-', '='],
            BinaryOperator::MultAssign => vec!['*', '='],
            BinaryOperator::DivAssign => vec!['/', '='],
            BinaryOperator::ModAssign => vec!['%', '='],
            BinaryOperator::LeftShiftAssign => vec!['<', '<', '='],
            BinaryOperator::RightShiftAssign => vec!['>', '>', '='],
            BinaryOperator::BitANDAssign => vec!['&', '='],
            BinaryOperator::BitXORAssign => vec!['^', '='],
            BinaryOperator::BitORAssign => vec!['|', '='],
            BinaryOperator::Eq => vec!['=', '='],
            BinaryOperator::Ne => vec!['!', '='],
            BinaryOperator::Gt => vec!['>'],
            BinaryOperator::Lt => vec!['<'],
            BinaryOperator::Ge => vec!['>', '='],
            BinaryOperator::Le => vec!['<', '='],
            BinaryOperator::BitAND => vec!['&'],
            BinaryOperator::BitXOR => vec!['^'],
            BinaryOperator::BitOR => vec!['|', '|'],
            BinaryOperator::LeftShift => vec!['<', '<'],
            BinaryOperator::RightShift => vec!['>', '>'],
        };
        string_of(&v)
    }
}

/// Reading back the text of any unary operator gives that operator.
pub proof fn lemma_unary_round_trip(op: UnaryOperator)
    ensures
        unary_of_literal(unary_literal(op)) == Some(op),
{
}

/// Reading back the text of any binary operator gives that operator.
pub proof fn lemma_binary_round_trip(op: BinaryOperator)
    ensures
        binary_of_literal(binary_literal(op)) == Some(op),
{
}

} // verus!
