//! Prints a syntax tree back as canonical source text.
use crate::ast::{binary_literal, unary_literal, Expression, OperatorPosition, UnaryOperator};
use crate::text::{chars_of, string_of};
use vstd::prelude::*;
use vstd::string::*;

verus! {

/// The parts joined with `sep` between each two.
pub open spec fn join(parts: Seq<Seq<char>>, sep: Seq<char>) -> Seq<char>
    decreases parts.len(),
{
    if parts.len() == 0 {
        Seq::empty()
    } else if parts.len() == 1 {
        parts[0]
    } else {
        join(parts.drop_last(), sep) + sep + parts.last()
    }
}

/// Digits with `_` put between each group of three, counted from the right.
pub open spec fn group_digits(p: Seq<char>) -> Seq<char>
    decreases p.len(),
{
    if p.len() <= 3 {
        p
    } else {
        group_digits(p.subrange(0, p.len() - 3)) + seq!['_'] + p.subrange(
            p.len() - 3,
            p.len() as int,
        )
    }
}

/// The first position at or after `i` that holds a `.`, or the length.
pub open spec fn dot_index(s: Seq<char>, i: nat) -> nat
    decreases s.len() - i,
{
    if i >= s.len() || s[i as int] == '.' {
        i
    } else {
        dot_index(s, i + 1)
    }
}

/// A number with its whole part grouped by threes; everything after the
/// first `.` is kept as it is.
pub open spec fn number_text(s: Seq<char>) -> Seq<char> {
    let d = dot_index(s, 0);
    let whole = group_digits(s.subrange(0, d as int));
    if d >= s.len() {
        whole
    } else {
        whole + seq!['.'] + s.subrange((d + 1) as int, s.len() as int)
    }
}

pub open spec fn names_of(v: Seq<String>) -> Seq<Seq<char>> {
    v.map_values(|s: String| s@)
}

pub open spec fn args_of(v: Seq<(String, String)>) -> Seq<Seq<char>> {
    v.map_values(|a: (String, String)| a.0@ + ": "@ + a.1@)
}

pub open spec fn format_names(idents: Option<Vec<String>>) -> Seq<char> {
    match idents {
        Some(v) => "{"@ + join(names_of(v@), ", "@) + "}"@,
        None => "*"@,
    }
}

/// The space put between a prefix `-` and an operand whose text starts with
/// `-`, so that the two do not read back as `--`.
pub open spec fn prefix_gap(op: UnaryOperator, operand: Seq<char>) -> Seq<char> {
    if op == UnaryOperator::Negation && operand.len() > 0 && operand[0] == '-' {
        " "@
    } else {
        Seq::empty()
    }
}

/// The canonical text of an expression.
pub open spec fn format_expr(e: Expression) -> Seq<char>
    decreases e,
{
    match e {
        Expression::VariableRef(s) => s@,
        Expression::String(s) => "\""@ + s@ + "\""@,
        Expression::Char(c) => seq!['\'', c, '\''],
        Expression::Comment(s) => if s@.contains('\n') {
            "/* "@ + s@ + " */"@
        } else {
            "// "@ + s@
        },
        Expression::Bool(b) => if b {
            "true"@
        } else {
            "false"@
        },
        Expression::Declare(b) => "declare "@ + format_expr(*b),
        Expression::FuncCall(name, args) => name@ + "("@ + format_list(args@, ", "@) + ")"@,
        Expression::Number(s) => number_text(s@),
        Expression::Decimal(s) => number_text(s@),
        Expression::Block { expressions } => "{"@ + format_list(expressions@, "\n"@) + "}"@,
        Expression::Function { name, ret, args, body } => "function "@ + name@ + "("@ + join(
            args_of(args@),
            ","@,
        ) + ") -> "@ + ret@ + match body {
            Some(b) => " "@ + format_expr(*b),
            None => ";"@,
        },
        Expression::Return(r) => match r {
            Some(b) => "return "@ + format_expr(*b) + ";"@,
            None => "return;"@,
        },
        Expression::VariableDeclaration { name, ty, mutable } => (if mutable {
            "let "@
        } else {
            "const "@
        }) + name@ + ": "@ + ty@,
        Expression::For { conditions, body } => "for ("@ + format_expr(*conditions.0) + "; "@
            + format_expr(*conditions.1) + "; "@ + format_expr(*conditions.2) + ") "@
            + format_expr(*body),
        Expression::While { condition, body } => "while ("@ + format_expr(*condition) + ") "@
            + format_expr(*body),
        Expression::If { condition, body } => "if ("@ + format_expr(*condition) + ") "@
            + format_expr(*body),
        Expression::Else { body } => "else "@ + format_expr(*body),
        Expression::Import { idents, path, .. } => "import "@ + format_names(idents)
            + " from \""@ + path@ + "\""@,
        Expression::Export(b) => "export "@ + format_expr(*b) + ";"@,
        Expression::ExportFromFile { idents, path, .. } => "export "@ + format_names(idents)
            + " from \""@ + path@ + "\""@,
        Expression::UnaryOperation { operator, expr, position } => match position {
            OperatorPosition::Prefix => unary_literal(operator) + prefix_gap(operator, format_expr(*expr))
                + format_expr(*expr),
            OperatorPosition::Postfix => format_expr(*expr) + unary_literal(operator),
        },
        Expression::BinaryOperation { operator, lhs, rhs } => format_expr(*lhs) + " "@
            + binary_literal(operator) + " "@ + format_expr(*rhs),
    }
}

/// The canonical texts of `es`, joined with `sep`.
pub open spec fn format_list(es: Seq<Expression>, sep: Seq<char>) -> Seq<char>
    decreases es,
{
    if es.len() == 0 {
        Seq::empty()
    } else if es.len() == 1 {
        format_expr(es[0])
    } else {
        format_list(es.subrange(0, es.len() - 1), sep) + sep + format_expr(es[es.len() - 1])
    }
}

fn group(p: &Vec<char>, n: usize) -> (r: Vec<char>)
    requires
        n <= p@.len(),
    ensures
        r@ == group_digits(p@.subrange(0, n as int)),
    decreases n,
{
    let ghost q = p@.subrange(0, n as int);
    if n <= 3 {
        let mut r: Vec<char> = Vec::new();
        let mut i: usize = 0;
        while i < n
            invariant
                i <= n <= p@.len(),
                r@ == p@.subrange(0, i as int),
            decreases n - i,
        {
            r.push(p[i]);
            assert(p@.subrange(0, i + 1) == p@.subrange(0, i as int).push(p@[i as int]));
            i = i + 1;
        }
        r
    } else {
        let mut r = group(p, n - 3);
        r.push('_');
        r.push(p[n - 3]);
        r.push(p[n - 2]);
        r.push(p[n - 1]);
        assert(q.subrange(0, q.len() - 3) == p@.subrange(0, n - 3));
        assert(r@ =~= group_digits(q.subrange(0, q.len() - 3)) + seq!['_'] + q.subrange(
            q.len() - 3,
            q.len() as int,
        ));
        r
    }
}

fn find_dot(v: &Vec<char>, i: usize) -> (r: usize)
    requires
        i <= v@.len(),
    ensures
        r == dot_index(v@, i as nat),
        i <= r <= v@.len(),
{
    let mut j = i;
    while j < v.len() && v[j] != '.'
        invariant
            i <= j <= v@.len(),
            dot_index(v@, j as nat) == dot_index(v@, i as nat),
        decreases v.len() - j,
    {
        j = j + 1;
    }
    j
}

/// A number with its whole part grouped by threes.
pub fn format_number(s: &str) -> (r: String)
    ensures
        r@ == number_text(s@),
{
    let v = chars_of(s);
    let d = find_dot(&v, 0);
    let mut out = group(&v, d);
    if d < v.len() {
        let e = v.len();
        out.push('.');
        let mut i = d + 1;
        while i < e
            invariant
                d + 1 <= i <= e <= v@.len(),
                d < v@.len(),
                out@ == group_digits(v@.subrange(0, d as int)) + seq!['.'] + v@.subrange(
                    d + 1,
                    i as int,
                ),
            decreases e - i,
        {
            out.push(v[i]);
            assert(v@.subrange(d + 1, i + 1) == v@.subrange(d + 1, i as int).push(v@[i as int]));
            assert(group_digits(v@.subrange(0, d as int)) + seq!['.'] + v@.subrange(d + 1, i + 1)
                =~= (group_digits(v@.subrange(0, d as int)) + seq!['.'] + v@.subrange(
                d + 1,
                i as int,
            )).push(v@[i as int]));
            i = i + 1;
        }
    } else {
        assert(v@.subrange(0, d as int) == v@.subrange(0, d as int));
    }
    string_of(&out)
}

/// Appends `items` to `out`, with `sep` between each two.
fn append_names(out: &mut String, items: &Vec<String>, sep: &str)
    ensures
        final(out)@ == old(out)@ + join(names_of(items@), sep@),
{
    let ghost start = out@;
    let mut i: usize = 0;
    while i < items.len()
        invariant
            i <= items@.len(),
            out@ == start + join(names_of(items@.subrange(0, i as int)), sep@),
        decreases items.len() - i,
    {
        proof {
            let a = names_of(items@.subrange(0, i as int));
            let b = names_of(items@.subrange(0, i + 1));
            assert(b.drop_last() =~= a);
            assert(b.last() == items@[i as int]@);
        }
        if i > 0 {
            out.append(sep);
        }
        out.append(items[i].as_str());
        proof {
            let b = names_of(items@.subrange(0, i + 1));
            if i == 0 {
                assert(b.len() == 1);
                assert(b[0] == items@[0]@);
                assert(join(b, sep@) == b[0]);
                assert(out@ =~= start + join(b, sep@));
            } else {
                assert(out@ =~= start + join(b, sep@));
            }
        }
        i = i + 1;
    }
    assert(items@.subrange(0, items@.len() as int) =~= items@);
}

/// Appends the arguments of a function signature to `out`, with `,` between.
fn append_args(out: &mut String, items: &Vec<(String, String)>)
    ensures
        final(out)@ == old(out)@ + join(args_of(items@), ","@),
{
    let ghost start = out@;
    let mut i: usize = 0;
    while i < items.len()
        invariant
            i <= items@.len(),
            out@ == start + join(args_of(items@.subrange(0, i as int)), ","@),
        decreases items.len() - i,
    {
        proof {
            let a = args_of(items@.subrange(0, i as int));
            let b = args_of(items@.subrange(0, i + 1));
            assert(b.drop_last() =~= a);
            assert(b.last() == items@[i as int].0@ + ": "@ + items@[i as int].1@);
        }
        if i > 0 {
            out.append(",");
        }
        out.append(items[i].0.as_str());
        out.append(": ");
        out.append(items[i].1.as_str());
        proof {
            let b = args_of(items@.subrange(0, i + 1));
            if i == 0 {
                assert(b.len() == 1);
                assert(join(b, ","@) == b[0]);
            }
            assert(out@ =~= start + join(b, ","@));
        }
        i = i + 1;
    }
    assert(items@.subrange(0, items@.len() as int) =~= items@);
}

/// Appends the canonical texts of `items` to `out`, with `sep` between each two.
pub(crate) fn append_list(out: &mut String, items: &Vec<Expression>, sep: &str)
    ensures
        final(out)@ == old(out)@ + format_list(items@, sep@),
    decreases items@, 0int,
{
    let ghost start = out@;
    let mut i: usize = 0;
    while i < items.len()
        invariant
            i <= items@.len(),
            out@ == start + format_list(items@.subrange(0, i as int), sep@),
        decreases items.len() - i,
    {
        proof {
            let b = items@.subrange(0, i + 1);
            assert(b.subrange(0, b.len() - 1) =~= items@.subrange(0, i as int));
            assert(b[b.len() - 1] == items@[i as int]);
        }
        if i > 0 {
            out.append(sep);
        }
        let text = items[i].as_string();
        out.append(text.as_str());
        proof {
            let b = items@.subrange(0, i + 1);
            if i == 0 {
                assert(b.len() == 1);
                assert(b[0] == items@[0]);
            }
            assert(out@ =~= start + format_list(b, sep@));
        }
        i = i + 1;
    }
    assert(items@.subrange(0, items@.len() as int) =~= items@);
}

impl Expression {
    /// The canonical source text of the expression.
    pub fn as_string(&self) -> (r: String)
        ensures
            r@ == format_expr(*self),
        decreases *self, 1int,
    {
        let mut out = String::new();
        match self {
            Expression::VariableRef(s) => {
                out.append(s.as_str());
            },
            Expression::String(s) => {
                out.append("\"");
                out.append(s.as_str());
                out.append("\"");
            },
            Expression::Char(c) => {
                let v = vec!['\'', *c, '\''];
                return string_of(&v);
            },
            Expression::Comment(s) => {
                if has_newline(s.as_str()) {
                    out.append("/* ");
                    out.append(s.as_str());
                    out.append(" */");
                } else {
                    out.append("// ");
                    out.append(s.as_str());
                }
            },
            Expression::Bool(b) => {
                if *b {
                    out.append("true");
                } else {
                    out.append("false");
                }
            },
            Expression::Declare(b) => {
                out.append("declare ");
                out.append(b.as_string().as_str());
            },
            Expression::FuncCall(name, args) => {
                out.append(name.as_str());
                out.append("(");
                append_list(&mut out, args, ", ");
                out.append(")");
            },
            Expression::Number(s) => {
                return format_number(s.as_str());
            },
            Expression::Decimal(s) => {
                return format_number(s.as_str());
            },
            Expression::Block { expressions } => {
                out.append("{");
                append_list(&mut out, expressions, "\n");
                out.append("}");
            },
            Expression::Function { name, ret, args, body } => {
                out.append("function ");
                out.append(name.as_str());
                out.append("(");
                append_args(&mut out, args);
                out.append(") -> ");
                out.append(ret.as_str());
                match body {
                    Some(b) => {
                        out.append(" ");
                        out.append(b.as_string().as_str());
                    },
                    None => {
                        out.append(";");
                    },
                }
            },
            Expression::Return(r) => {
                match r {
                    Some(b) => {
                        out.append("return ");
                        out.append(b.as_string().as_str());
                        out.append(";");
                    },
                    None => {
                        out.append("return;");
                    },
                }
            },
            Expression::VariableDeclaration { name, ty, mutable } => {
                if *mutable {
                    out.append("let ");
                } else {
                    out.append("const ");
                }
                out.append(name.as_str());
                out.append(": ");
                out.append(ty.as_str());
            },
            Expression::For { conditions, body } => {
                out.append("for (");
                out.append(conditions.0.as_string().as_str());
                out.append("; ");
                out.append(conditions.1.as_string().as_str());
                out.append("; ");
                out.append(conditions.2.as_string().as_str());
                out.append(") ");
                out.append(body.as_string().as_str());
            },
            Expression::While { condition, body } => {
                out.append("while (");
                out.append(condition.as_string().as_str());
                out.append(") ");
                out.append(body.as_string().as_str());
            },
            Expression::If { condition, body } => {
                out.append("if (");
                out.append(condition.as_string().as_str());
                out.append(") ");
                out.append(body.as_string().as_str());
            },
            Expression::Else { body } => {
                out.append("else ");
                out.append(body.as_string().as_str());
            },
            Expression::Import { idents, path, .. } => {
                out.append("import ");
                append_module_names(&mut out, idents);
                out.append(" from \"");
                out.append(path.as_str());
                out.append("\"");
            },
            Expression::Export(b) => {
                out.append("export ");
                out.append(b.as_string().as_str());
                out.append(";");
            },
            Expression::ExportFromFile { idents, path, .. } => {
                out.append("export ");
                append_module_names(&mut out, idents);
                out.append(" from \"");
                out.append(path.as_str());
                out.append("\"");
            },
            Expression::UnaryOperation { operator, expr, position } => {
                match position {
                    OperatorPosition::Prefix => {
                        let operand = expr.as_string();
                        out.append(operator.as_string().as_str());
                        if *operator == UnaryOperator::Negation && operand.as_str().unicode_len() > 0
                            && operand.as_str().get_char(0) == '-' {
                            out.append(" ");
                        }
                        out.append(operand.as_str());
                    },
                    OperatorPosition::Postfix => {
                        out.append(expr.as_string().as_str());
                        out.append(operator.as_string().as_str());
                    },
                }
            },
            Expression::BinaryOperation { operator, lhs, rhs } => {
                out.append(lhs.as_string().as_str());
                out.append(" ");
                out.append(operator.as_string().as_str());
                out.append(" ");
                out.append(rhs.as_string().as_str());
            },
        }
        out
    }
}

fn append_module_names(out: &mut String, idents: &Option<Vec<String>>)
    ensures
        final(out)@ == old(out)@ + format_names(*idents),
{
    match idents {
        Some(v) => {
            out.append("{");
            append_names(out, v, ", ");
            out.append("}");
        },
        None => {
            out.append("*");
        },
    }
}

/// Whether the text holds a newline.
fn has_newline(s: &str) -> (r: bool)
    ensures
        r == s@.contains('\n'),
{
    let v = chars_of(s);
    let mut i: usize = 0;
    while i < v.len()
        invariant
            v@ == s@,
            i <= v@.len(),
            forall|j: int| 0 <= j < i ==> v@[j] != '\n',
        decreases v.len() - i,
    {
        if v[i] == '\n' {
            return true;
        }
        i = i + 1;
    }
    false
}

} // verus!
