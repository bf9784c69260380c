//! A recursive-descent parser from tokens to top-level expressions.
use crate::ast::{
    all_well_formed, binary_of_literal, lemma_all_well_formed_push, lemma_trees_push, name_views,
    pair_views, tree, trees, unary_of_literal, well_formed, BinaryOperator, Expression,
    OperatorPosition, Tree, UnaryOperator,
};
use crate::lexer::{
    has_token, kind_at, lemma_next_pos_bound, lemma_next_pos_grows, next_pos, text_at, Lexer,
    MAX_SOURCE_LEN,
};
use crate::text::chars_of;
use crate::token::{Token, TokenKind};
use vstd::prelude::*;
use vstd::string::*;

verus! {

/// Why parsing stopped: a message and, where there is one, the token at fault.
#[derive(Debug)]
pub struct ParseError {
    pub message: String,
    pub token: Option<Token>,
}

fn error(message: &str, token: Option<Token>) -> (r: ParseError)
    ensures
        r.message@ == message@,
        r.token == token,
{
    ParseError { message: String::from_str(message), token }
}

/// The text of a type that starts at `p` and where the parser stands after
/// it: an identifier, optionally followed by `*` or by `[` `]`.
pub open spec fn type_text(s: Seq<char>, p: nat) -> Option<(Seq<char>, nat)> {
    if !(has_token(s, p) && kind_at(s, p) == TokenKind::Ident) {
        None
    } else {
        let base = text_at(s, p);
        let after_base = next_pos(s, p);
        if has_token(s, after_base) && kind_at(s, after_base) == TokenKind::SomeOperator && text_at(s, after_base) == "*"@ {
            Some((base + "*"@, next_pos(s, after_base)))
        } else if has_token(s, after_base) && kind_at(s, after_base) == TokenKind::Brackets && text_at(s, after_base)
            == "["@ {
            let after_open = next_pos(s, after_base);
            if has_token(s, after_open) && kind_at(s, after_open) == TokenKind::Brackets && text_at(s, after_open) == "]"@ {
                Some((base + "[]"@, next_pos(s, after_open)))
            } else {
                None
            }
        } else {
            Some((base, after_base))
        }
    }
}

#[via_fn]
proof fn group_decreases(s: Seq<char>, p: nat) {
    if has_token(s, p) {
        lemma_next_pos_bound(s, p);
    }
}

/// The names of a `{ ... }` group whose items start at `p`, and where the
/// group ends, after its `}`; `None` where the text ends before the `}`.
/// Tokens other than identifiers, commas among them, are passed over.
pub open spec fn name_group(s: Seq<char>, p: nat) -> Option<(Seq<Seq<char>>, nat)>
    decreases s.len() + 2 - p,
    via group_decreases
{
    if !has_token(s, p) {
        None
    } else if kind_at(s, p) == TokenKind::Braces && text_at(s, p) == "}"@ {
        Some((Seq::empty(), next_pos(s, p)))
    } else {
        match name_group(s, next_pos(s, p)) {
            None => None,
            Some(rest) => if kind_at(s, p) == TokenKind::Ident {
                Some((seq![text_at(s, p)] + rest.0, rest.1))
            } else {
                Some(rest)
            },
        }
    }
}

/// What follows `import` or `export` from `p` on, if it is a module
/// reference: the names it lists (`None` for `*` or for no list), whether it
/// takes everything, its path, and where it ends.
pub open spec fn module_reference(s: Seq<char>, p: nat) -> Option<
    (Option<Seq<Seq<char>>>, bool, Seq<char>, nat),
> {
    let head: Option<(Option<Seq<Seq<char>>>, bool, nat)> = if has_token(s, p) && kind_at(s, p)
        == TokenKind::Braces && text_at(s, p) == "{"@ {
        match name_group(s, next_pos(s, p)) {
            Some(g) => Some((Some(g.0), false, g.1)),
            None => None,
        }
    } else if has_token(s, p) && kind_at(s, p) == TokenKind::SomeOperator && text_at(s, p)
        == "*"@ {
        Some((None, true, next_pos(s, p)))
    } else {
        Some((None, false, p))
    };
    match head {
        None => None,
        Some(h) => {
            let q = h.2;
            if has_token(s, q) && kind_at(s, q) == TokenKind::Keyword && text_at(s, q) == "from"@ {
                let q2 = next_pos(s, q);
                if has_token(s, q2) && kind_at(s, q2) == TokenKind::String {
                    Some((h.0, h.1, text_at(s, q2), next_pos(s, q2)))
                } else {
                    None
                }
            } else {
                None
            }
        },
    }
}

pub open spec fn name_list(idents: Option<Vec<String>>) -> Option<Seq<Seq<char>>> {
    match idents {
        Some(v) => Some(name_views(v@)),
        None => None,
    }
}

/// `e` is the import (or, without `is_import`, the re-export) that `m`
/// describes.
pub open spec fn is_module_reference(
    e: Expression,
    is_import: bool,
    m: (Option<Seq<Seq<char>>>, bool, Seq<char>, nat),
) -> bool {
    match e {
        Expression::Import { idents, import_all, path } => is_import && name_list(idents) == m.0
            && import_all == m.1 && path@ == m.2,
        Expression::ExportFromFile { idents, export_all, path } => !is_import && name_list(idents)
            == m.0 && export_all == m.1 && path@ == m.2,
        _ => false,
    }
}

/// The name, the type text and the end of a declaration `name: type` that
/// starts at `p`, after `let` or `const`.
pub open spec fn declaration_parts(s: Seq<char>, p: nat) -> Option<(Seq<char>, Seq<char>, nat)> {
    if !(has_token(s, p) && kind_at(s, p) == TokenKind::Ident) {
        None
    } else {
        let colon = next_pos(s, p);
        if !(has_token(s, colon) && kind_at(s, colon) == TokenKind::Colon) {
            None
        } else {
            match type_text(s, next_pos(s, colon)) {
                Some(t) => Some((text_at(s, p), t.0, t.1)),
                None => None,
            }
        }
    }
}

/// `e` declares `name` of type `ty`, mutable or not.
pub open spec fn declares(e: Expression, name: Seq<char>, ty: Seq<char>, mutable: bool) -> bool {
    e matches Expression::VariableDeclaration { name: n, ty: t, mutable: m } && n@ == name && t@
        == ty && m == mutable
}

/// `e` carries the token read at `q`.
pub open spec fn carries(e: ParseError, s: Seq<char>, q: nat) -> bool {
    e.token matches Some(t) && t.kind == kind_at(s, q) && t.literal@ == text_at(s, q)
}

/// The token that an error in a declaration from `p` on carries: the token
/// that stands where the name should, or else where the `:` should.
pub open spec fn declaration_error(e: ParseError, s: Seq<char>, p: nat) -> bool {
    if !(has_token(s, p) && kind_at(s, p) == TokenKind::Ident) {
        has_token(s, p) ==> carries(e, s, p)
    } else if !(has_token(s, next_pos(s, p)) && kind_at(s, next_pos(s, p)) == TokenKind::Colon) {
        has_token(s, next_pos(s, p)) ==> carries(e, s, next_pos(s, p))
    } else {
        true
    }
}

/// Whether the token at `p` is the `=` of an assignment.
pub open spec fn assignment_next(s: Seq<char>, p: nat) -> bool {
    has_token(s, p) && kind_at(s, p) == TokenKind::BinaryOperator && text_at(s, p) == "="@
}

/// Whether the token at `p` is `(`.
pub open spec fn paren_next(s: Seq<char>, p: nat) -> bool {
    has_token(s, p) && kind_at(s, p) == TokenKind::Parens && text_at(s, p) == "("@
}

proof fn lemma_type_text_end(s: Seq<char>, p: nat)
    requires
        type_text(s, p) is Some,
    ensures
        p < (type_text(s, p)->0).1 <= s.len() + 1,
{
    lemma_next_pos_bound(s, p);
    let q = next_pos(s, p);
    if has_token(s, q) {
        lemma_next_pos_bound(s, q);
        let q2 = next_pos(s, q);
        if has_token(s, q2) {
            lemma_next_pos_bound(s, q2);
        }
    }
}

#[via_fn]
proof fn args_decreases(s: Seq<char>, p: nat) {
    if has_token(s, p) {
        lemma_next_pos_bound(s, p);
        let colon = next_pos(s, p);
        if has_token(s, colon) {
            lemma_next_pos_bound(s, colon);
            if type_text(s, next_pos(s, colon)) is Some {
                lemma_type_text_end(s, next_pos(s, colon));
            }
        }
    }
}

/// The arguments `name: type` of a signature from `p` on, up to and with the
/// closing `)` (or the end of the text), and where they end; `None` where an
/// argument has no `:` or no type, or a token other than a name, `,` or `)`
/// stands there.
pub open spec fn arg_list(s: Seq<char>, p: nat) -> Option<(Seq<(Seq<char>, Seq<char>)>, nat)>
    decreases s.len() + 2 - p,
    via args_decreases
{
    if !has_token(s, p) {
        None
    } else if kind_at(s, p) == TokenKind::Parens && text_at(s, p) == ")"@ {
        Some((Seq::empty(), next_pos(s, p)))
    } else if kind_at(s, p) == TokenKind::Ident {
        let colon = next_pos(s, p);
        if !(has_token(s, colon) && kind_at(s, colon) == TokenKind::Colon) {
            None
        } else {
            match type_text(s, next_pos(s, colon)) {
                None => None,
                Some(t) => if t.1 > p {
                    match arg_list(s, t.1) {
                        None => None,
                        Some(rest) => Some((seq![(text_at(s, p), t.0)] + rest.0, rest.1)),
                    }
                } else {
                    None
                },
            }
        }
    } else if kind_at(s, p) == TokenKind::Comma {
        arg_list(s, next_pos(s, p))
    } else {
        None
    }
}

#[via_fn]
proof fn arg_error_decreases(e: ParseError, s: Seq<char>, p: nat) {
    if has_token(s, p) {
        lemma_next_pos_bound(s, p);
        let colon = next_pos(s, p);
        if has_token(s, colon) {
            lemma_next_pos_bound(s, colon);
            if type_text(s, next_pos(s, colon)) is Some {
                lemma_type_text_end(s, next_pos(s, colon));
            }
        }
    }
}

/// The token that an error in the arguments of a signature from `p` on
/// carries: where an argument name has no `:`, the token in its place;
/// where a token other than a name, `,` or `)` stands, that token.
pub open spec fn arg_error(e: ParseError, s: Seq<char>, p: nat) -> bool
    decreases s.len() + 2 - p,
    via arg_error_decreases
{
    if !has_token(s, p) {
        true
    } else if kind_at(s, p) == TokenKind::Parens && text_at(s, p) == ")"@ {
        true
    } else if kind_at(s, p) == TokenKind::Ident {
        let colon = next_pos(s, p);
        if !(has_token(s, colon) && kind_at(s, colon) == TokenKind::Colon) {
            has_token(s, colon) ==> carries(e, s, colon)
        } else {
            match type_text(s, next_pos(s, colon)) {
                None => true,
                Some(t) => if t.1 > p {
                    arg_error(e, s, t.1)
                } else {
                    true
                },
            }
        }
    } else if kind_at(s, p) == TokenKind::Comma {
        arg_error(e, s, next_pos(s, p))
    } else {
        carries(e, s, p)
    }
}

/// The token that an error in a signature from `p` on carries: the token
/// in place of the name, of the `(`, or of the return type after `->`; in
/// the arguments, as `arg_error` says.
pub open spec fn signature_error(e: ParseError, s: Seq<char>, p: nat) -> bool {
    if !(has_token(s, p) && kind_at(s, p) == TokenKind::Ident) {
        has_token(s, p) ==> carries(e, s, p)
    } else if !paren_next(s, next_pos(s, p)) {
        has_token(s, next_pos(s, p)) ==> carries(e, s, next_pos(s, p))
    } else {
        match arg_list(s, next_pos(s, next_pos(s, p))) {
            None => arg_error(e, s, next_pos(s, next_pos(s, p))),
            Some(a) => if has_token(s, a.1) && kind_at(s, a.1) == TokenKind::ReturnArrow {
                let r = next_pos(s, a.1);
                !(has_token(s, r) && kind_at(s, r) == TokenKind::Ident) ==> (has_token(s, r)
                    ==> carries(e, s, r))
            } else {
                true
            },
        }
    }
}

/// The signature of a function from `p` on, after `function`: its name, its
/// arguments, its return type (`void` without an arrow) and where it ends.
pub open spec fn signature(s: Seq<char>, p: nat) -> Option<
    (Seq<char>, Seq<(Seq<char>, Seq<char>)>, Seq<char>, nat),
> {
    if !(has_token(s, p) && kind_at(s, p) == TokenKind::Ident) {
        None
    } else if !paren_next(s, next_pos(s, p)) {
        None
    } else {
        match arg_list(s, next_pos(s, next_pos(s, p))) {
            None => None,
            Some(a) => if has_token(s, a.1) && kind_at(s, a.1) == TokenKind::ReturnArrow {
                let r = next_pos(s, a.1);
                if has_token(s, r) && kind_at(s, r) == TokenKind::Ident {
                    Some((text_at(s, p), a.0, text_at(s, r), next_pos(s, r)))
                } else {
                    None
                }
            } else {
                Some((text_at(s, p), a.0, "void"@, a.1))
            },
        }
    }
}


/// Whether the token at `p` is `{`.
pub open spec fn brace_next(s: Seq<char>, p: nat) -> bool {
    has_token(s, p) && kind_at(s, p) == TokenKind::Braces && text_at(s, p) == "{"@
}

/// The lengths and first characters of the keywords that start a
/// statement, which tell them apart.
proof fn lemma_keyword_texts()
    ensures
        "function"@.len() == 8,
        "function"@[0] == 'f',
        "import"@.len() == 6,
        "import"@[0] == 'i',
        "export"@.len() == 6,
        "export"@[0] == 'e',
        "declare"@.len() == 7,
        "declare"@[0] == 'd',
        "else"@.len() == 4,
        "else"@[0] == 'e',
        "return"@.len() == 6,
        "return"@[0] == 'r',
        "for"@.len() == 3,
        "for"@[0] == 'f',
        "while"@.len() == 5,
        "while"@[0] == 'w',
        "if"@.len() == 2,
        "if"@[0] == 'i',
        "let"@.len() == 3,
        "let"@[0] == 'l',
        "const"@.len() == 5,
        "const"@[0] == 'c',
{
    reveal_strlit("function");
    reveal_strlit("import");
    reveal_strlit("export");
    reveal_strlit("declare");
    reveal_strlit("else");
    reveal_strlit("return");
    reveal_strlit("for");
    reveal_strlit("while");
    reveal_strlit("if");
    reveal_strlit("let");
    reveal_strlit("const");
    assert("function"@.len() == 8);
    assert("function"@[0] == 'f');
    assert("import"@.len() == 6);
    assert("import"@[0] == 'i');
    assert("export"@.len() == 6);
    assert("export"@[0] == 'e');
    assert("declare"@.len() == 7);
    assert("declare"@[0] == 'd');
    assert("else"@.len() == 4);
    assert("else"@[0] == 'e');
    assert("return"@.len() == 6);
    assert("return"@[0] == 'r');
    assert("for"@.len() == 3);
    assert("for"@[0] == 'f');
    assert("while"@.len() == 5);
    assert("while"@[0] == 'w');
    assert("if"@.len() == 2);
    assert("if"@[0] == 'i');
    assert("let"@.len() == 3);
    assert("let"@[0] == 'l');
    assert("const"@.len() == 5);
    assert("const"@[0] == 'c');
}

/// Whether the token at `p` is `*`.
pub open spec fn star_next(s: Seq<char>, p: nat) -> bool {
    has_token(s, p) && kind_at(s, p) == TokenKind::SomeOperator && text_at(s, p) == "*"@
}

/// The token read at `a`, if there is one, and where the cursor then stands.
pub open spec fn read_at(s: Seq<char>, a: nat) -> (Option<nat>, nat) {
    if has_token(s, a) {
        (Some(a), next_pos(s, a))
    } else {
        (None, a)
    }
}

/// Whether the token at `a` has the given kind and text.
pub open spec fn token_is(s: Seq<char>, a: nat, kind: TokenKind, text: Seq<char>) -> bool {
    has_token(s, a) && kind_at(s, a) == kind && text_at(s, a) == text
}

pub open spec fn boxed(e: Option<Tree>) -> Option<Box<Tree>> {
    match e {
        Some(t) => Some(Box::new(t)),
        None => None,
    }
}

pub open spec fn prepend(e: Option<Tree>, rest: Seq<Tree>) -> Seq<Tree> {
    match e {
        Some(t) => seq![t] + rest,
        None => rest,
    }
}

#[via_fn]
proof fn expr_decreases(s: Seq<char>, tok: Option<nat>, p: nat, ignore: bool) {
    broadcast use lemma_next_pos_grows;

}

/// What the parser makes of the expression that starts with the token read
/// at `tok` (`None`: no token was left), with the cursor at `p`: the
/// expression, if the token starts one, and where the cursor ends; `None`
/// where the text breaks the grammar. With `ignore` set, an operator after
/// the token is left unread. Where a position after a part that was parsed
/// is checked not to lie before `p`, the check always holds and keeps the
/// definition well founded.
#[verifier::opaque]
pub open spec fn expr_at(s: Seq<char>, tok: Option<nat>, p: nat, ignore: bool) -> Option<
    (Option<Tree>, nat),
>
    decreases (s.len() + 2 - p) as nat, (if tok is Some {
        1int
    } else {
        0int
    }), (if ignore {
        0int
    } else {
        1int
    }),
    via expr_decreases
{
    match tok {
        None => Some((None, p)),
        Some(q) => {
            let k = kind_at(s, q);
            let t = text_at(s, q);
            if k == TokenKind::UnaryOperator || k == TokenKind::SomeOperator {
                match unary_of_literal(t) {
                    None => Some((None, p)),
                    Some(op) => match expr_at(s, read_at(s, p).0, read_at(s, p).1, false) {
                        Some((Some(e), end)) => Some(
                            (Some(Tree::UnaryOperation(op, Box::new(e), OperatorPosition::Prefix)), end),
                        ),
                        _ => None,
                    },
                }
            } else if k != TokenKind::Keyword && !ignore && has_token(s, p) && kind_at(s, p)
                == TokenKind::UnaryOperator {
                match expr_at(s, tok, p, true) {
                    Some((Some(e), a)) => if has_token(s, a) {
                        match unary_of_literal(text_at(s, a)) {
                            Some(op) => Some(
                                (
                                    Some(
                                        Tree::UnaryOperation(
                                            op,
                                            Box::new(e),
                                            OperatorPosition::Postfix,
                                        ),
                                    ),
                                    next_pos(s, a),
                                ),
                            ),
                            None => None,
                        }
                    } else {
                        None
                    },
                    _ => None,
                }
            } else if k != TokenKind::Keyword && !ignore && has_token(s, p) && (kind_at(s, p)
                == TokenKind::BinaryOperator || kind_at(s, p) == TokenKind::SomeOperator) {
                match expr_at(s, tok, p, true) {
                    Some((Some(lhs), a)) => if has_token(s, a) && p <= a {
                        match binary_of_literal(text_at(s, a)) {
                            Some(op) => {
                                let r = read_at(s, next_pos(s, a));
                                match expr_at(s, r.0, r.1, false) {
                                    Some((Some(rhs), end)) => Some(
                                        (
                                            Some(
                                                Tree::BinaryOperation(
                                                    op,
                                                    Box::new(lhs),
                                                    Box::new(rhs),
                                                ),
                                            ),
                                            end,
                                        ),
                                    ),
                                    _ => None,
                                }
                            },
                            None => None,
                        }
                    } else {
                        None
                    },
                    _ => None,
                }
            } else if k == TokenKind::Keyword {
                keyword_at(s, q, p)
            } else if k == TokenKind::Bool {
                Some((Some(Tree::Bool(t == "true"@)), p))
            } else if k == TokenKind::Ident {
                if paren_next(s, p) {
                    match call_args_at(s, next_pos(s, p)) {
                        Some((args, end)) => Some((Some(Tree::FuncCall(t, args)), end)),
                        None => None,
                    }
                } else {
                    Some((Some(Tree::VariableRef(t)), p))
                }
            } else if k == TokenKind::Braces {
                if t == "{"@ {
                    match block_items_at(s, p) {
                        Some((items, end)) => Some((Some(Tree::Block(items)), end)),
                        None => None,
                    }
                } else {
                    Some((None, p))
                }
            } else if k == TokenKind::String {
                Some((Some(Tree::Str(t)), p))
            } else if k == TokenKind::Char {
                if t.len() == 1 && (t[0] as u32) < 128 {
                    Some((Some(Tree::Char(t[0])), p))
                } else {
                    None
                }
            } else if k == TokenKind::Number {
                if t.contains('.') {
                    Some((Some(Tree::Decimal(t)), p))
                } else {
                    Some((Some(Tree::Number(t)), p))
                }
            } else if k == TokenKind::Comment {
                Some((Some(Tree::Comment(t)), p))
            } else {
                Some((None, p))
            }
        },
    }
}

#[via_fn]
proof fn keyword_decreases(s: Seq<char>, q: nat, p: nat) {
    broadcast use lemma_next_pos_grows;

}

/// What the keyword read at `q` starts, with the cursor at `p`.
#[verifier::opaque]
pub open spec fn keyword_at(s: Seq<char>, q: nat, p: nat) -> Option<(Option<Tree>, nat)>
    decreases (s.len() + 2 - p) as nat, 0int, 2int,
    via keyword_decreases
{
    let t = text_at(s, q);
    if t == "function"@ {
        match function_at(s, p) {
            Some((f, end)) => Some((Some(f), end)),
            None => None,
        }
    } else if t == "import"@ {
        match module_reference(s, p) {
            Some(m) => Some((Some(Tree::Import(m.0, m.1, m.2)), m.3)),
            None => None,
        }
    } else if t == "export"@ && (brace_next(s, p) || star_next(s, p)) {
        match module_reference(s, p) {
            Some(m) => Some((Some(Tree::ExportFromFile(m.0, m.1, m.2)), m.3)),
            None => None,
        }
    } else if t == "declare"@ || t == "export"@ || t == "else"@ {
        match expr_at(s, read_at(s, p).0, read_at(s, p).1, false) {
            Some((Some(e), end)) => Some(
                (
                    Some(
                        if t == "declare"@ {
                            Tree::Declare(Box::new(e))
                        } else if t == "export"@ {
                            Tree::Export(Box::new(e))
                        } else {
                            Tree::Else(Box::new(e))
                        },
                    ),
                    end,
                ),
            ),
            _ => None,
        }
    } else if t == "return"@ {
        match expr_at(s, read_at(s, p).0, read_at(s, p).1, false) {
            Some((e, end)) => Some((Some(Tree::Return(boxed(e))), end)),
            None => None,
        }
    } else if t == "for"@ {
        match for_at(s, p) {
            Some((f, end)) => Some((Some(f), end)),
            None => None,
        }
    } else if t == "while"@ || t == "if"@ {
        match control_at(s, p, t == "if"@) {
            Some((f, end)) => Some((Some(f), end)),
            None => None,
        }
    } else if t == "let"@ || t == "const"@ {
        match variable_at(s, p, t == "let"@) {
            Some((f, end)) => Some((Some(f), end)),
            None => None,
        }
    } else {
        Some((None, p))
    }
}

#[via_fn]
proof fn variable_decreases(s: Seq<char>, p: nat, mutable: bool) {
    broadcast use lemma_next_pos_grows;

    if has_token(s, p) && has_token(s, next_pos(s, p)) {
        let x = next_pos(s, next_pos(s, p));
        if type_text(s, x) is Some {
            lemma_type_text_end(s, x);
        }
    }
}

/// A declaration `name: type`, with an optional `= value`, from `p` on.
#[verifier::opaque]
pub open spec fn variable_at(s: Seq<char>, p: nat, mutable: bool) -> Option<(Tree, nat)>
    decreases (s.len() + 2 - p) as nat, 0int, 0int,
    via variable_decreases
{
    match declaration_parts(s, p) {
        None => None,
        Some(d) => {
            let decl = Tree::VariableDeclaration(d.0, d.1, mutable);
            if assignment_next(s, d.2) {
                let r = read_at(s, next_pos(s, d.2));
                match expr_at(s, r.0, r.1, false) {
                    Some((Some(rhs), end)) => Some(
                        (
                            Tree::BinaryOperation(
                                BinaryOperator::Assign,
                                Box::new(decl),
                                Box::new(rhs),
                            ),
                            end,
                        ),
                    ),
                    _ => None,
                }
            } else {
                Some((decl, d.2))
            }
        },
    }
}

#[via_fn]
proof fn call_args_decreases(s: Seq<char>, a: nat) {
    if has_token(s, a) {
        lemma_next_pos_bound(s, a);
    }
}

/// The arguments of a call from `a` on, up to and with the `)` (or the end
/// of the text); commas between them are passed over.
pub open spec fn call_args_at(s: Seq<char>, a: nat) -> Option<(Seq<Tree>, nat)>
    decreases (s.len() + 2 - a) as nat, 0int, 0int,
    via call_args_decreases
{
    if !has_token(s, a) {
        None
    } else if token_is(s, a, TokenKind::Parens, ")"@) {
        Some((Seq::empty(), next_pos(s, a)))
    } else if kind_at(s, a) == TokenKind::Comma {
        call_args_at(s, next_pos(s, a))
    } else {
        match expr_at(s, Some(a), next_pos(s, a), false) {
            Some((e, b)) => if b < next_pos(s, a) || b > s.len() + 1 {
                None
            } else {
                match call_args_at(s, b) {
                    Some((rest, end)) => Some((prepend(e, rest), end)),
                    None => None,
                }
            },
            None => None,
        }
    }
}

#[via_fn]
proof fn block_items_decreases(s: Seq<char>, a: nat) {
    if has_token(s, a) {
        lemma_next_pos_bound(s, a);
    }
}

/// The expressions of a block from `a` on, up to and with the `}` (or the
/// end of the text).
pub open spec fn block_items_at(s: Seq<char>, a: nat) -> Option<(Seq<Tree>, nat)>
    decreases (s.len() + 2 - a) as nat, 0int, 0int,
    via block_items_decreases
{
    if !has_token(s, a) {
        None
    } else if token_is(s, a, TokenKind::Braces, "}"@) {
        Some((Seq::empty(), next_pos(s, a)))
    } else {
        match expr_at(s, Some(a), next_pos(s, a), false) {
            Some((e, b)) => if b < next_pos(s, a) || b > s.len() + 1 {
                None
            } else {
                match block_items_at(s, b) {
                    Some((rest, end)) => Some((prepend(e, rest), end)),
                    None => None,
                }
            },
            None => None,
        }
    }
}

#[via_fn]
proof fn function_decreases(s: Seq<char>, p: nat) {
    broadcast use lemma_next_pos_grows;

}

/// A function from `p` on, after `function`: its signature, then a block, a
/// `;` or nothing.
#[verifier::opaque]
pub open spec fn function_at(s: Seq<char>, p: nat) -> Option<(Tree, nat)>
    decreases (s.len() + 2 - p) as nat, 0int, 0int,
    via function_decreases
{
    match signature(s, p) {
        None => None,
        Some(g) => if g.3 < p {
            None
        } else if brace_next(s, g.3) {
            match expr_at(s, Some(g.3), next_pos(s, g.3), false) {
                Some((body, end)) => Some((Tree::Function(g.0, g.2, g.1, boxed(body)), end)),
                None => None,
            }
        } else if has_token(s, g.3) && kind_at(s, g.3) == TokenKind::Semicolon {
            Some((Tree::Function(g.0, g.2, g.1, None), next_pos(s, g.3)))
        } else {
            Some((Tree::Function(g.0, g.2, g.1, None), g.3))
        },
    }
}

#[via_fn]
proof fn required_decreases(s: Seq<char>, p: nat) {
    broadcast use lemma_next_pos_grows;

}

/// An expression that must come at `p`.
#[verifier::opaque]
pub open spec fn required_at(s: Seq<char>, p: nat) -> Option<(Tree, nat)>
    decreases (s.len() + 2 - p) as nat, 0int, 0int,
    via required_decreases
{
    if !has_token(s, p) {
        None
    } else {
        match expr_at(s, Some(p), next_pos(s, p), false) {
            Some((Some(e), end)) => Some((e, end)),
            _ => None,
        }
    }
}

#[via_fn]
proof fn control_decreases(s: Seq<char>, p: nat, is_if: bool) {
    broadcast use lemma_next_pos_grows;

}

/// `(condition) body` from `p` on, after `if` or `while`.
#[verifier::opaque]
pub open spec fn control_at(s: Seq<char>, p: nat, is_if: bool) -> Option<(Tree, nat)>
    decreases (s.len() + 2 - p) as nat, 0int, 0int,
    via control_decreases
{
    if !paren_next(s, p) {
        None
    } else {
        match required_at(s, next_pos(s, p)) {
            None => None,
            Some(c) => if c.1 < p || !token_is(s, c.1, TokenKind::Parens, ")"@) {
                None
            } else {
                match required_at(s, next_pos(s, c.1)) {
                    None => None,
                    Some(b) => Some(
                        (
                            if is_if {
                                Tree::If(Box::new(c.0), Box::new(b.0))
                            } else {
                                Tree::While(Box::new(c.0), Box::new(b.0))
                            },
                            b.1,
                        ),
                    ),
                }
            },
        }
    }
}

#[via_fn]
proof fn for_decreases(s: Seq<char>, p: nat) {
    broadcast use lemma_next_pos_grows;

}

/// `(init; condition; step) body` from `p` on, after `for`.
#[verifier::opaque]
pub open spec fn for_at(s: Seq<char>, p: nat) -> Option<(Tree, nat)>
    decreases (s.len() + 2 - p) as nat, 0int, 0int,
    via for_decreases
{
    if !paren_next(s, p) {
        None
    } else {
        match required_at(s, next_pos(s, p)) {
            None => None,
            Some(a) => if a.1 < p || !token_is(s, a.1, TokenKind::Semicolon, ";"@) {
                None
            } else {
                match required_at(s, next_pos(s, a.1)) {
                    None => None,
                    Some(b) => if b.1 < p || !token_is(s, b.1, TokenKind::Semicolon, ";"@) {
                        None
                    } else {
                        match required_at(s, next_pos(s, b.1)) {
                            None => None,
                            Some(c) => if c.1 < p || !token_is(s, c.1, TokenKind::Parens, ")"@) {
                                None
                            } else {
                                match required_at(s, next_pos(s, c.1)) {
                                    None => None,
                                    Some(body) => Some(
                                        (
                                            Tree::For(
                                                Box::new(a.0),
                                                Box::new(b.0),
                                                Box::new(c.0),
                                                Box::new(body.0),
                                            ),
                                            body.1,
                                        ),
                                    ),
                                }
                            },
                        }
                    },
                }
            },
        }
    }
}

#[via_fn]
proof fn program_decreases(s: Seq<char>, p: nat) {
    if has_token(s, p) {
        lemma_next_pos_bound(s, p);
    }
}

/// The top-level expressions of the text from `p` on; `None` where the text
/// breaks the grammar.
pub open spec fn program_at(s: Seq<char>, p: nat) -> Option<Seq<Tree>>
    decreases (s.len() + 2 - p) as nat,
    via program_decreases
{
    if !has_token(s, p) {
        Some(Seq::empty())
    } else {
        match expr_at(s, Some(p), next_pos(s, p), false) {
            Some((e, b)) => if b < next_pos(s, p) || b > s.len() + 1 {
                None
            } else {
                match program_at(s, b) {
                    Some(rest) => Some(prepend(e, rest)),
                    None => None,
                }
            },
            None => None,
        }
    }
}

/// The tree of an expression that may be missing.
pub open spec fn opt_tree(x: Option<Expression>) -> Option<Tree> {
    match x {
        Some(e) => Some(tree(e)),
        None => None,
    }
}

/// The position a token was read at, if there is a token.
pub open spec fn tok_at(token: Option<Token>, at: nat) -> Option<nat> {
    if token is Some {
        Some(at)
    } else {
        None
    }
}

/// `token`, if there is one, is the token read at `at`.
pub open spec fn read_from(token: Option<Token>, s: Seq<char>, at: nat) -> bool {
    token matches Some(t) ==> has_token(s, at) && t.kind == kind_at(s, at) && t.literal@ == text_at(
        s,
        at,
    )
}

proof fn lemma_block_items_step(s: Seq<char>, a: nat)
    requires
        has_token(s, a),
        !token_is(s, a, TokenKind::Braces, "}"@),
    ensures
        block_items_at(s, a) == match expr_at(s, Some(a), next_pos(s, a), false) {
            Some((e, b)) => if b < next_pos(s, a) || b > s.len() + 1 {
                None
            } else {
                match block_items_at(s, b) {
                    Some((rest, end)) => Some((prepend(e, rest), end)),
                    None => None,
                }
            },
            None => None,
        },
{
    lemma_next_pos_bound(s, a);
    reveal(expr_at);
    reveal_with_fuel(block_items_at, 2);
}

proof fn lemma_call_args_step(s: Seq<char>, a: nat)
    requires
        has_token(s, a),
        !token_is(s, a, TokenKind::Parens, ")"@),
    ensures
        kind_at(s, a) == TokenKind::Comma ==> call_args_at(s, a) == call_args_at(s, next_pos(s, a)),
        kind_at(s, a) != TokenKind::Comma ==> call_args_at(s, a) == match expr_at(s, Some(a), next_pos(s, a), false) {
            Some((e, b)) => if b < next_pos(s, a) || b > s.len() + 1 {
                None
            } else {
                match call_args_at(s, b) {
                    Some((rest, end)) => Some((prepend(e, rest), end)),
                    None => None,
                }
            },
            None => None,
        },
{
    lemma_next_pos_bound(s, a);
    reveal(expr_at);
    reveal_with_fuel(call_args_at, 2);
}

pub struct Parser {
    lexer: Lexer,
}

impl Parser {
    /// The source text being parsed.
    pub closed spec fn src(&self) -> Seq<char> {
        self.lexer.src()
    }

    /// The position of the parser's cursor.
    pub closed spec fn pos(&self) -> nat {
        self.lexer.pos()
    }

    pub closed spec fn wf(&self) -> bool {
        self.lexer.wf() && self.lexer.pos() <= self.lexer.src().len() + 1
    }

    /// `self` is a later state of `before`, on the same text.
    pub open spec fn follows(&self, before: &Parser) -> bool {
        &&& self.wf()
        &&& self.src() == before.src()
        &&& before.pos() <= self.pos()
    }

    pub fn new(lexer: Lexer) -> (r: Parser)
        requires
            lexer.wf(),
            lexer.pos() <= lexer.src().len() + 1,
        ensures
            r.wf(),
            r.src() == lexer.src(),
            r.pos() == lexer.pos(),
    {
        Parser { lexer }
    }

    /// A parser at the start of `source`.
    pub fn from(source: &str) -> (r: Parser)
        requires
            source@.len() <= MAX_SOURCE_LEN,
        ensures
            r.wf(),
            r.src() == source@,
            r.pos() == 0,
    {
        Parser::new(Lexer::new(String::from_str(source)))
    }

    fn next(&mut self) -> (r: Option<Token>)
        requires
            old(self).wf(),
        ensures
            final(self).follows(old(self)),
            r is Some <==> has_token(old(self).src(), old(self).pos()),
            r matches Some(t) ==> t.kind == kind_at(old(self).src(), old(self).pos()) && t.literal@
                == text_at(old(self).src(), old(self).pos()) && final(self).pos() == next_pos(
                old(self).src(),
                old(self).pos(),
            ) && final(self).lexer.remaining() < old(self).lexer.remaining(),
            r is None ==> final(self).pos() == old(self).pos(),
    {
        self.lexer.next()
    }

    fn peek_is_kind(&mut self, kind: TokenKind) -> (r: bool)
        requires
            old(self).wf(),
        ensures
            final(self).wf(),
            final(self).src() == old(self).src(),
            final(self).pos() == old(self).pos(),
            r == (has_token(old(self).src(), old(self).pos()) && kind_at(
                old(self).src(),
                old(self).pos(),
            ) == kind),
    {
        match self.lexer.peek() {
            Some(t) => t.is_kind(kind),
            None => false,
        }
    }

    fn peek_cmp_token(&mut self, kind: TokenKind, literal: &str) -> (r: bool)
        requires
            old(self).wf(),
        ensures
            final(self).wf(),
            final(self).src() == old(self).src(),
            final(self).pos() == old(self).pos(),
            r == (has_token(old(self).src(), old(self).pos()) && kind_at(
                old(self).src(),
                old(self).pos(),
            ) == kind && text_at(old(self).src(), old(self).pos()) == literal@),
    {
        match self.lexer.peek() {
            Some(t) => t.cmp_token(kind, literal),
            None => false,
        }
    }

    /// Parses the whole text into its top-level expressions.
    pub fn parse(&mut self) -> (r: Result<Vec<Expression>, ParseError>)
        requires
            old(self).wf(),
        ensures
            final(self).follows(old(self)),
            r is Ok <==> program_at(old(self).src(), old(self).pos()) is Some,
            r matches Ok(v) ==> trees(v@) == program_at(old(self).src(), old(self).pos())->0,
            r is Ok ==> !has_token(final(self).src(), final(self).pos()),
            r matches Ok(v) ==> all_well_formed(v@),
            !has_token(old(self).src(), old(self).pos()) ==> (r matches Ok(v) && v@.len() == 0),
    {
        let mut program: Vec<Expression> = Vec::new();
        loop
            invariant
                self.follows(old(self)),
                all_well_formed(program@),
                !has_token(old(self).src(), old(self).pos()) ==> (self.pos() == old(self).pos()
                    && program@.len() == 0),
                self.src() == old(self).src(),
                program_at(old(self).src(), self.pos()) is Some <==> program_at(old(self).src(), old(self).pos()) is Some,
                program_at(old(self).src(), self.pos()) is Some ==> trees(program@) + program_at(old(self).src(), self.pos())->0 == program_at(
                    old(self).src(),
                    old(self).pos(),
                )->0,
            decreases self.lexer.remaining(),
        {
            let ghost here = self.pos();
            let token = self.next();
            match token {
                None => {
                    assert(trees(program@) + Seq::<Tree>::empty() =~= trees(program@));
                    return Ok(program);
                },
                Some(t) => {
                    match self.parse_expression(Some(t), Ghost(here), false) {
                        Ok(Some(e)) => {
                            proof {
                                lemma_all_well_formed_push(program@, e);

                                lemma_trees_push(program@, e);

                                assert forall|rest: Seq<Tree>| #[trigger] (trees(program@) + (seq![tree(e)] + rest)) == trees(program@).push(tree(e)) + rest by {

                                    assert(trees(program@) + (seq![tree(e)] + rest) =~= trees(program@).push(tree(e)) + rest);

                                }
                            }
                            program.push(e);
                        },
                        Ok(None) => {},
                        Err(e) => {
                            return Err(e);
                        },
                    }
                },
            }
        }
    }

    /// Parses the expression that starts with `token`, which has already been
    /// read. With `ignore_op` set, an operator after it is left unread.
    #[verifier::rlimit(80)]
    #[verifier::spinoff_prover]
    fn parse_expression(&mut self, token: Option<Token>, at: Ghost<nat>, ignore_op: bool) -> (r: Result<
        Option<Expression>,
        ParseError,
    >)
        requires
            old(self).wf(),
            read_from(token, old(self).src(), at@),
        ensures
            final(self).follows(old(self)),
            token is Some && kind_at(old(self).src(), at@) == TokenKind::Keyword && (text_at(
                old(self).src(),
                at@,
            ) == "let"@ || text_at(old(self).src(), at@) == "const"@) ==> (r matches Err(e)
                ==> declaration_error(e, old(self).src(), old(self).pos())),
            r matches Ok(Some(e)) ==> well_formed(e),
            r is Ok <==> expr_at(old(self).src(), tok_at(token, at@), old(self).pos(), ignore_op) is Some,
            r matches Ok(x) ==> opt_tree(x) == (expr_at(old(self).src(), tok_at(token, at@), old(self).pos(), ignore_op)->0).0 && final(self).pos() == (
                expr_at(old(self).src(), tok_at(token, at@), old(self).pos(), ignore_op)->0).1,
        decreases old(self).lexer.remaining(), if token is Some {
            1int
        } else {
            0int
        }, if ignore_op {
            0int
        } else {
            1int
        },
    {
        proof {
            reveal(expr_at);
        }
        let tok = match token {
            Some(t) => t,
            None => {
                return Ok(None);
            },
        };
        if tok.kind == TokenKind::UnaryOperator || tok.kind == TokenKind::SomeOperator {
            return match UnaryOperator::from(tok.literal.as_str()) {
                Some(operator) => {
                    let ghost here = self.pos();
                    let next_token = self.next();
                    match self.parse_expression(next_token, Ghost(here), false) {
                        Ok(Some(e)) => Ok(
                            Some(
                                Expression::UnaryOperation {
                                    operator,
                                    expr: Box::new(e),
                                    position: OperatorPosition::Prefix,
                                },
                            ),
                        ),
                        Ok(None) => Err(error("Expected expression", None)),
                        Err(e) => Err(e),
                    }
                },
                None => Ok(None),
            };
        }
        let operand = tok.kind != TokenKind::Keyword;
        if operand && !ignore_op && self.peek_is_kind(TokenKind::UnaryOperator) {
            let expr = match self.parse_expression(Some(tok), at, true) {
                Ok(Some(e)) => e,
                Ok(None) => {
                    return Err(error("Expected operand before a postfix operator", None));
                },
                Err(e) => {
                    return Err(e);
                },
            };
            let op_token = match self.next() {
                Some(t) => t,
                None => {
                    return Err(error("Expected an operator", None));
                },
            };
            return match UnaryOperator::from(op_token.literal.as_str()) {
                Some(operator) => Ok(
                    Some(
                        Expression::UnaryOperation {
                            operator,
                            expr: Box::new(expr),
                            position: OperatorPosition::Postfix,
                        },
                    ),
                ),
                None => Err(error("Invalid operator", Some(op_token))),
            };
        }
        if operand && !ignore_op && (self.peek_is_kind(TokenKind::BinaryOperator) || self.peek_is_kind(
            TokenKind::SomeOperator,
        )) {
            let lhs = match self.parse_expression(Some(tok), at, true) {
                Ok(Some(e)) => e,
                Ok(None) => {
                    return Err(error("Expected lhs in binary operation", None));
                },
                Err(e) => {
                    return Err(e);
                },
            };
            let op_token = match self.next() {
                Some(t) => t,
                None => {
                    return Err(error("Expected an operator", None));
                },
            };
            let operator = match BinaryOperator::from(op_token.literal.as_str()) {
                Some(op) => op,
                None => {
                    return Err(error("Invalid operator", Some(op_token)));
                },
            };
            let ghost here = self.pos();
            let next_token = self.next();
            return match self.parse_expression(next_token, Ghost(here), false) {
                Ok(Some(rhs)) => Ok(
                    Some(Expression::BinaryOperation { operator, lhs: Box::new(lhs), rhs: Box::new(rhs) }),
                ),
                Ok(None) => Err(error("Expected rhs in binary operation", None)),
                Err(e) => Err(e),
            };
        }
        match tok.kind {
            TokenKind::Keyword => self.parse_keyword(tok, at),
            TokenKind::Bool => Ok(Some(Expression::Bool(tok.is_lit("true")))),
            TokenKind::Ident => {
                if self.peek_cmp_token(TokenKind::Parens, "(") {
                    match self.parse_call(tok.literal) {
                        Ok(e) => Ok(Some(e)),
                        Err(e) => Err(e),
                    }
                } else {
                    Ok(Some(Expression::VariableRef(tok.literal)))
                }
            },
            TokenKind::Braces => {
                if tok.is_lit("{") {
                    match self.parse_block() {
                        Ok(e) => Ok(Some(e)),
                        Err(e) => Err(e),
                    }
                } else {
                    Ok(None)
                }
            },
            TokenKind::String => Ok(Some(Expression::String(tok.literal))),
            TokenKind::Char => {
                let n = tok.literal.as_str().unicode_len();
                if n == 0 {
                    return Err(error("char literal contains no char", Some(tok)));
                }
                let c = tok.literal.as_str().get_char(0);
                if n == 1 && (c as u32) < 128 {
                    Ok(Some(Expression::Char(c)))
                } else {
                    Err(error("char literal is larger than one byte", Some(tok)))
                }
            },
            TokenKind::Number => {
                if has_dot(tok.literal.as_str()) {
                    Ok(Some(Expression::Decimal(tok.literal)))
                } else {
                    Ok(Some(Expression::Number(tok.literal)))
                }
            },
            TokenKind::Comment => Ok(Some(Expression::Comment(tok.literal))),
            _ => Ok(None),
        }
    }

    /// The expression that a keyword, already read, starts.
    #[verifier::rlimit(80)]
    #[verifier::spinoff_prover]
    fn parse_keyword(&mut self, tok: Token, at: Ghost<nat>) -> (r: Result<Option<Expression>, ParseError>)
        requires
            old(self).wf(),
            tok.literal@ == text_at(old(self).src(), at@),
        ensures
            final(self).follows(old(self)),
            (tok.literal@ == "let"@ || tok.literal@ == "const"@) ==> (r matches Err(e)
                ==> declaration_error(e, old(self).src(), old(self).pos())),
            r is Ok <==> keyword_at(old(self).src(), at@, old(self).pos()) is Some,
            r matches Ok(x) ==> opt_tree(x) == (keyword_at(old(self).src(), at@, old(self).pos())->0).0 && final(self).pos() == (keyword_at(old(self).src(), at@, old(self).pos())->0).1,
            r matches Ok(Some(e)) ==> well_formed(e),
        decreases old(self).lexer.remaining(), 0int, 2int,
    {
        proof {
            reveal(keyword_at);
        }
        proof {
            lemma_keyword_texts();
        }
        if tok.is_lit("function") {
            match self.parse_function() {
                Ok(e) => Ok(Some(e)),
                Err(e) => Err(e),
            }
        } else if tok.is_lit("import") {
            match self.parse_module_reference(true) {
                Ok(e) => Ok(Some(e)),
                Err(e) => Err(e),
            }
        } else if tok.is_lit("export") && (self.peek_cmp_token(TokenKind::Braces, "{")
            || self.peek_cmp_token(TokenKind::SomeOperator, "*")) {
            match self.parse_module_reference(false) {
                Ok(e) => Ok(Some(e)),
                Err(e) => Err(e),
            }
        } else if tok.is_lit("declare") || tok.is_lit("export") || tok.is_lit("else") {
            let ghost here = self.pos();
            let next = self.next();
            let inner = match self.parse_expression(next, Ghost(here), false) {
                Ok(Some(e)) => Box::new(e),
                Ok(None) => {
                    return Err(error("Expected an expression after the keyword", Some(tok)));
                },
                Err(e) => {
                    return Err(e);
                },
            };
            if tok.is_lit("declare") {
                Ok(Some(Expression::Declare(inner)))
            } else if tok.is_lit("export") {
                Ok(Some(Expression::Export(inner)))
            } else {
                Ok(Some(Expression::Else { body: inner }))
            }
        } else if tok.is_lit("return") {
            let ghost here = self.pos();
            let next = self.next();
            match self.parse_expression(next, Ghost(here), false) {
                Ok(Some(e)) => Ok(Some(Expression::Return(Some(Box::new(e))))),
                Ok(None) => Ok(Some(Expression::Return(None))),
                Err(e) => Err(e),
            }
        } else if tok.is_lit("for") {
            match self.parse_for_loop() {
                Ok(e) => Ok(Some(e)),
                Err(e) => Err(e),
            }
        } else if tok.is_lit("while") || tok.is_lit("if") {
            match self.parse_control_flow(tok.is_lit("if")) {
                Ok(e) => Ok(Some(e)),
                Err(e) => Err(e),
            }
        } else if tok.is_lit("let") || tok.is_lit("const") {
            match self.parse_variable(tok.is_lit("let")) {
                Ok(e) => Ok(Some(e)),
                Err(e) => Err(e),
            }
        } else {
            Ok(None)
        }
    }

    /// `name: type`, optionally followed by `= value`, after `let` or `const`.
    #[verifier::rlimit(80)]
    #[verifier::spinoff_prover]
    fn parse_variable(&mut self, mutable: bool) -> (r: Result<Expression, ParseError>)
        requires
            old(self).wf(),
        ensures
            final(self).follows(old(self)),
            r matches Err(e) ==> declaration_error(e, old(self).src(), old(self).pos()),
            r is Ok <==> variable_at(old(self).src(), old(self).pos(), mutable) is Some,
            r matches Ok(e) ==> tree(e) == (variable_at(old(self).src(), old(self).pos(), mutable)->0).0 && final(self).pos() == (variable_at(old(self).src(), old(self).pos(), mutable)->0).1,
            r matches Ok(e) ==> well_formed(e),
            r matches Ok(e) ==> (e is VariableDeclaration || e is BinaryOperation),
            declaration_parts(old(self).src(), old(self).pos()) is None ==> r is Err,
            r is Ok ==> declaration_parts(old(self).src(), old(self).pos()) is Some,
            r matches Ok(e) ==> {
                let d = declaration_parts(old(self).src(), old(self).pos())->0;
                if assignment_next(old(self).src(), d.2) {
                    e is BinaryOperation && e->BinaryOperation_operator == BinaryOperator::Assign
                        && declares(*e->BinaryOperation_lhs, d.0, d.1, mutable)
                } else {
                    declares(e, d.0, d.1, mutable) && final(self).pos() == d.2
                }
            },
            declaration_parts(old(self).src(), old(self).pos()) is Some && !assignment_next(
                old(self).src(),
                (declaration_parts(old(self).src(), old(self).pos())->0).2,
            ) ==> r is Ok,
        decreases old(self).lexer.remaining(), 0int, 0int,
    {
        proof {
            reveal(variable_at);
        }
        let name = match self.next() {
            Some(t) => {
                if t.is_kind(TokenKind::Ident) {
                    t.literal
                } else {
                    return Err(error("Expected a variable name", Some(t)));
                }
            },
            None => {
                return Err(error("Expected a variable name", None));
            },
        };
        match self.next() {
            Some(c) => {
                if !c.is_kind(TokenKind::Colon) {
                    return Err(error("Typing is required for variable declarations", Some(c)));
                }
            },
            None => {
                return Err(error("Typing is required for variable declarations", None));
            },
        }
        let ty = match self.parse_type() {
            Ok(t) => t,
            Err(e) => {
                return Err(e);
            },
        };
        let declaration = Expression::VariableDeclaration { name, ty, mutable };
        assert(well_formed(declaration));
        assert(tree(declaration) == Tree::VariableDeclaration(name@, ty@, mutable));
        if self.peek_cmp_token(TokenKind::BinaryOperator, "=") {
            self.next();
            let ghost here = self.pos();
            let next_token = self.next();
            match self.parse_expression(next_token, Ghost(here), false) {
                Ok(Some(rhs)) => Ok(
                    Expression::BinaryOperation {
                        operator: BinaryOperator::Assign,
                        lhs: Box::new(declaration),
                        rhs: Box::new(rhs),
                    },
                ),
                Ok(None) => Err(error("Expected something to be assigned to the variable", None)),
                Err(e) => Err(e),
            }
        } else {
            Ok(declaration)
        }
    }

    /// The arguments of a call to `name`, from the `(` on.
    fn parse_call(&mut self, name: String) -> (r: Result<Expression, ParseError>)
        requires
            old(self).wf(),
            paren_next(old(self).src(), old(self).pos()),
        ensures
            final(self).follows(old(self)),
            r is Ok <==> call_args_at(old(self).src(), next_pos(old(self).src(), old(self).pos())) is Some,
            r matches Ok(e) ==> tree(e) == Tree::FuncCall(name@, (call_args_at(old(self).src(), next_pos(old(self).src(), old(self).pos()))->0).0) && final(self).pos() == (
                call_args_at(old(self).src(), next_pos(old(self).src(), old(self).pos()))->0).1,
            r matches Ok(e) ==> well_formed(e),
            r matches Ok(e) ==> e is FuncCall && e->FuncCall_0@ == name@,
        decreases old(self).lexer.remaining(), 0int, 0int,
    {
        match self.next() {
            Some(t) => {
                if !t.is_lit("(") {
                    return Err(error("Invalid function call syntax", Some(t)));
                }
            },
            None => {
                return Err(error("Invalid function call syntax", None));
            },
        }
        let ghost start = self.lexer.remaining();
        let ghost first = self.pos();
        let mut args: Vec<Expression> = Vec::new();
        loop
            invariant
                self.follows(old(self)),
                self.lexer.remaining() <= start,
                start < old(self).lexer.remaining(),
                all_well_formed(args@),
                first == next_pos(old(self).src(), old(self).pos()),
                self.src() == old(self).src(),
                call_args_at(old(self).src(), self.pos()) is Some <==> call_args_at(old(self).src(), first) is Some,
                call_args_at(old(self).src(), self.pos()) is Some ==> trees(args@) + (call_args_at(old(self).src(), self.pos())->0).0 == (call_args_at(
                    old(self).src(),
                    first,
                )->0).0 && (call_args_at(old(self).src(), self.pos())->0).1 == (call_args_at(old(self).src(), first)->0).1,
            decreases self.lexer.remaining(),
        {
            let ghost here = self.pos();
            let t = match self.next() {
                Some(t) => t,
                None => {
                    return Err(error("Unterminated call", None));
                },
            };
            if t.cmp_token(TokenKind::Parens, ")") {
                assert(trees(args@) + Seq::<Tree>::empty() =~= trees(args@));
                return Ok(Expression::FuncCall(name, args));
            }
            proof {
                lemma_call_args_step(old(self).src(), here);
            }
            if !t.is_kind(TokenKind::Comma) {
                match self.parse_expression(Some(t), Ghost(here), false) {
                    Ok(Some(e)) => {
                        proof {
                            lemma_all_well_formed_push(args@, e);

                            lemma_trees_push(args@, e);

                            assert forall|rest: Seq<Tree>| #[trigger] (trees(args@) + (seq![tree(e)] + rest)) == trees(args@).push(tree(e)) + rest by {

                                assert(trees(args@) + (seq![tree(e)] + rest) =~= trees(args@).push(tree(e)) + rest);

                            }
                        }
                        args.push(e);
                    },
                    Ok(None) => {},
                    Err(e) => {
                        return Err(e);
                    },
                }
            }
        }
    }

    /// The arguments `name: type` of a signature, up to and with the `)`;
    /// the `(` has been read.
    #[verifier::rlimit(80)]
    #[verifier::spinoff_prover]
    fn parse_args(&mut self) -> (r: Result<Vec<(String, String)>, ParseError>)
        requires
            old(self).wf(),
        ensures
            final(self).follows(old(self)),
            r matches Err(e) ==> arg_error(e, old(self).src(), old(self).pos()),
            r is Ok <==> arg_list(old(self).src(), old(self).pos()) is Some,
            r matches Ok(v) ==> pair_views(v@) == (arg_list(old(self).src(), old(self).pos())->0).0
                && final(self).pos() == (arg_list(old(self).src(), old(self).pos())->0).1,
    {
        let ghost s = self.src();
        let ghost start = self.pos();
        let mut args: Vec<(String, String)> = Vec::new();
        loop
            invariant_except_break
                forall|e: ParseError| #[trigger] arg_error(e, s, self.pos()) ==> arg_error(e, s, start),
                arg_list(s, self.pos()) is Some <==> arg_list(s, start) is Some,
                arg_list(s, self.pos()) is Some ==> pair_views(args@) + (arg_list(
                    s,
                    self.pos(),
                )->0).0 == (arg_list(s, start)->0).0 && (arg_list(s, self.pos())->0).1 == (
                arg_list(s, start)->0).1,
            invariant
                self.follows(old(self)),
                s == self.src(),
                start == old(self).pos(),
            ensures
                arg_list(s, start) is Some,
                pair_views(args@) == (arg_list(s, start)->0).0,
                self.pos() == (arg_list(s, start)->0).1,
            decreases self.lexer.remaining(),
        {
            let ghost here = self.pos();
            proof {
                if has_token(s, here) {
                    lemma_next_pos_bound(s, here);
                }
            }
            let t = match self.next() {
                Some(t) => t,
                None => {
                    let err = error("Unterminated argument list", None);

                    assert(arg_error(err, s, here));

                    return Err(err);
                },
            };
            if t.cmp_token(TokenKind::Parens, ")") {
                assert(pair_views(args@) + Seq::<(Seq<char>, Seq<char>)>::empty() =~= pair_views(
                    args@,
                ));
                break ;
            }
            if t.is_kind(TokenKind::Ident) {
                match self.next() {
                    Some(c) => {
                        if !c.is_kind(TokenKind::Colon) {
                            let err = error("Expected type signature", Some(c));

                            assert(arg_error(err, s, here));

                            return Err(err);
                        }
                    },
                    None => {
                        let err = error("Expected type signature", None);

                        assert(arg_error(err, s, here));

                        return Err(err);
                    },
                }
                let ty = match self.parse_type() {
                    Ok(ty) => ty,
                    Err(e) => {
                        assert(arg_error(e, s, here));
                        return Err(e);
                    },
                };
                proof {
                    lemma_type_text_end(s, next_pos(s, next_pos(s, here)));
                    if arg_list(s, self.pos()) is Some {
                        let rest = arg_list(s, self.pos())->0;
                        assert(pair_views(args@) + (seq![(t.literal@, ty@)] + rest.0) =~= pair_views(
                            args@.push((t.literal, ty)),
                        ) + rest.0);
                    }
                }
                args.push((t.literal, ty));
            } else if !t.is_kind(TokenKind::Comma) {
                let err = error("No type identifier", Some(t));

                assert(arg_error(err, s, here));

                return Err(err);
            }
            proof {
                assert forall|e: ParseError| #[trigger] arg_error(e, s, self.pos()) implies arg_error(
                    e,
                    s,
                    here,
                ) by {}
            }
        }
        Ok(args)
    }

    /// `function name(arg: type, ...) [-> type]` followed by a block or `;`.
    #[verifier::rlimit(80)]
    #[verifier::spinoff_prover]
    fn parse_function(&mut self) -> (r: Result<Expression, ParseError>)
        requires
            old(self).wf(),
        ensures
            final(self).follows(old(self)),
            r matches Err(e) ==> signature_error(e, old(self).src(), old(self).pos()),
            r is Ok <==> function_at(old(self).src(), old(self).pos()) is Some,
            r matches Ok(e) ==> tree(e) == (function_at(old(self).src(), old(self).pos())->0).0 && final(self).pos() == (function_at(old(self).src(), old(self).pos())->0).1,
            r matches Ok(e) ==> well_formed(e),
            signature(old(self).src(), old(self).pos()) is None ==> r is Err,
            r matches Ok(e) ==> {
                let g = signature(old(self).src(), old(self).pos())->0;
                &&& e is Function
                &&& e->Function_name@ == g.0
                &&& pair_views(e->Function_args@) == g.1
                &&& e->Function_ret@ == g.2
                &&& !brace_next(old(self).src(), g.3) ==> e->Function_body is None
            },
            signature(old(self).src(), old(self).pos()) is Some && !brace_next(
                old(self).src(),
                (signature(old(self).src(), old(self).pos())->0).3,
            ) ==> r is Ok,
        decreases old(self).lexer.remaining(), 0int, 0int,
    {
        proof {
            reveal(function_at);
        }
        let ghost s = self.src();
        let ghost p = self.pos();
        let name = match self.next() {
            Some(t) => {
                if t.is_kind(TokenKind::Ident) {
                    t.literal
                } else {
                    return Err(
                        error("Invalid function signature: expected an identifier", Some(t)),
                    );
                }
            },
            None => {
                return Err(error("Invalid function signature: expected an identifier", None));
            },
        };
        match self.next() {
            Some(t) => {
                if !t.cmp_token(TokenKind::Parens, "(") {
                    return Err(
                        error("Invalid function signature: expected open parentheses", Some(t)),
                    );
                }
            },
            None => {
                return Err(error("Invalid function signature: expected open parentheses", None));
            },
        }
        let args = match self.parse_args() {
            Ok(args) => args,
            Err(e) => {
                return Err(e);
            },
        };
        let ret = if self.peek_is_kind(TokenKind::ReturnArrow) {
            self.next();
            match self.next() {
                Some(t) => {
                    if t.is_kind(TokenKind::Ident) {
                        t.literal
                    } else {
                        return Err(
                            error(
                                "Invalid function signature: no return type after arrow",
                                Some(t),
                            ),
                        );
                    }
                },
                None => {
                    return Err(
                        error("Invalid function signature: no return type after arrow", None),
                    );
                },
            }
        } else {
            String::from_str("void")
        };
        let body = if self.peek_cmp_token(TokenKind::Braces, "{") {
            let ghost here = self.pos();
            let next = self.next();
            match self.parse_expression(next, Ghost(here), false) {
                Ok(Some(e)) => Some(Box::new(e)),
                Ok(None) => None,
                Err(e) => {
                    return Err(e);
                },
            }
        } else {
            if self.peek_is_kind(TokenKind::Semicolon) {
                self.next();
            }
            None
        };
        Ok(Expression::Function { name, ret, args, body })
    }

    /// The expressions of a block up to its closing `}`; the `{` has been read.
    fn parse_block(&mut self) -> (r: Result<Expression, ParseError>)
        requires
            old(self).wf(),
        ensures
            final(self).follows(old(self)),
            r is Ok <==> block_items_at(old(self).src(), old(self).pos()) is Some,
            r matches Ok(e) ==> tree(e) == Tree::Block((block_items_at(old(self).src(), old(self).pos())->0).0) && final(self).pos() == (block_items_at(old(self).src(), old(self).pos())->0).1,
            r matches Ok(e) ==> well_formed(e),
            r matches Ok(e) ==> e is Block,
        decreases old(self).lexer.remaining(), 0int, 0int,
    {
        let mut expressions: Vec<Expression> = Vec::new();
        loop
            invariant
                self.follows(old(self)),
                self.lexer.remaining() <= old(self).lexer.remaining(),
                all_well_formed(expressions@),
                self.src() == old(self).src(),
                block_items_at(old(self).src(), self.pos()) is Some <==> block_items_at(old(self).src(), old(self).pos()) is Some,
                block_items_at(old(self).src(), self.pos()) is Some ==> trees(expressions@) + (block_items_at(old(self).src(), self.pos())->0).0 == (block_items_at(
                    old(self).src(),
                    old(self).pos(),
                )->0).0 && (block_items_at(old(self).src(), self.pos())->0).1 == (block_items_at(old(self).src(), old(self).pos())->0).1,
            decreases self.lexer.remaining(),
        {
            let ghost here = self.pos();
            let t = match self.next() {
                Some(t) => t,
                None => {
                    return Err(error("Unterminated block", None));
                },
            };
            if t.cmp_token(TokenKind::Braces, "}") {
                assert(trees(expressions@) + Seq::<Tree>::empty() =~= trees(expressions@));
                return Ok(Expression::Block { expressions });
            }
            proof {
                lemma_block_items_step(old(self).src(), here);
            }
            match self.parse_expression(Some(t), Ghost(here), false) {
                Ok(Some(e)) => {
                    proof {
                        lemma_all_well_formed_push(expressions@, e);

                        lemma_trees_push(expressions@, e);

                        assert forall|rest: Seq<Tree>| #[trigger] (trees(expressions@) + (seq![tree(e)] + rest)) == trees(expressions@).push(tree(e)) + rest by {

                            assert(trees(expressions@) + (seq![tree(e)] + rest) =~= trees(expressions@).push(tree(e)) + rest);

                        }
                    }
                    expressions.push(e);
                },
                Ok(None) => {},
                Err(e) => {
                    return Err(e);
                },
            }
        }
    }

    /// Reads one token, which must have the given kind and text.
    fn expect(&mut self, kind: TokenKind, literal: &str, message: &str) -> (r: Result<
        (),
        ParseError,
    >)
        requires
            old(self).wf(),
        ensures
            final(self).follows(old(self)),
            r is Ok <==> (has_token(old(self).src(), old(self).pos()) && kind_at(
                old(self).src(),
                old(self).pos(),
            ) == kind && text_at(old(self).src(), old(self).pos()) == literal@),
            r is Ok ==> final(self).lexer.remaining() < old(self).lexer.remaining()
                && final(self).pos() == next_pos(old(self).src(), old(self).pos()),
    {
        match self.next() {
            Some(t) => {
                if t.cmp_token(kind, literal) {
                    Ok(())
                } else {
                    Err(error(message, Some(t)))
                }
            },
            None => Err(error(message, None)),
        }
    }

    /// The expression that follows, which must be there.
    #[verifier::rlimit(80)]
    #[verifier::spinoff_prover]
    fn parse_required(&mut self, message: &str) -> (r: Result<Box<Expression>, ParseError>)
        requires
            old(self).wf(),
        ensures
            final(self).follows(old(self)),
            r is Ok <==> required_at(old(self).src(), old(self).pos()) is Some,
            r matches Ok(b) ==> tree(*b) == (required_at(old(self).src(), old(self).pos())->0).0 && final(self).pos() == (required_at(old(self).src(), old(self).pos())->0).1,
            r matches Ok(b) ==> well_formed(*b),
        decreases old(self).lexer.remaining(), 0int, 0int,
    {
        proof {
            reveal(required_at);
        }
        let ghost here = self.pos();
        let next = self.next();
        match next {
            Some(t) => match self.parse_expression(Some(t), Ghost(here), false) {
                Ok(Some(e)) => Ok(Box::new(e)),
                Ok(None) => Err(error(message, None)),
                Err(e) => Err(e),
            },
            None => Err(error(message, None)),
        }
    }

    /// `(condition) body` after `if` or `while`.
    #[verifier::rlimit(80)]
    #[verifier::spinoff_prover]
    fn parse_control_flow(&mut self, is_if: bool) -> (r: Result<Expression, ParseError>)
        requires
            old(self).wf(),
        ensures
            final(self).follows(old(self)),
            r is Ok <==> control_at(old(self).src(), old(self).pos(), is_if) is Some,
            r matches Ok(e) ==> tree(e) == (control_at(old(self).src(), old(self).pos(), is_if)->0).0 && final(self).pos() == (control_at(old(self).src(), old(self).pos(), is_if)->0).1,
            r matches Ok(e) ==> well_formed(e),
            r matches Ok(e) ==> (if is_if {
                e is If
            } else {
                e is While
            }),
            !paren_next(old(self).src(), old(self).pos()) ==> r is Err,
        decreases old(self).lexer.remaining(), 0int, 0int,
    {
        proof {
            reveal(control_at);
        }
        match self.expect(TokenKind::Parens, "(", "Expected parens to start the condition") {
            Ok(()) => {},
            Err(e) => {
                return Err(e);
            },
        }
        let condition = match self.parse_required("Expected a condition") {
            Ok(e) => e,
            Err(e) => {
                return Err(e);
            },
        };
        match self.expect(TokenKind::Parens, ")", "Expected parens to end the condition") {
            Ok(()) => {},
            Err(e) => {
                return Err(e);
            },
        }
        let body = match self.parse_required("Expected a body") {
            Ok(e) => e,
            Err(e) => {
                return Err(e);
            },
        };
        if is_if {
            Ok(Expression::If { condition, body })
        } else {
            Ok(Expression::While { condition, body })
        }
    }

    /// `(init; condition; step) body` after `for`.
    #[verifier::rlimit(80)]
    #[verifier::spinoff_prover]
    fn parse_for_loop(&mut self) -> (r: Result<Expression, ParseError>)
        requires
            old(self).wf(),
        ensures
            final(self).follows(old(self)),
            r is Ok <==> for_at(old(self).src(), old(self).pos()) is Some,
            r matches Ok(e) ==> tree(e) == (for_at(old(self).src(), old(self).pos())->0).0 && final(self).pos() == (for_at(old(self).src(), old(self).pos())->0).1,
            r matches Ok(e) ==> well_formed(e),
            r matches Ok(e) ==> e is For,
            !paren_next(old(self).src(), old(self).pos()) ==> r is Err,
        decreases old(self).lexer.remaining(), 0int, 0int,
    {
        proof {
            reveal(for_at);
        }
        match self.expect(TokenKind::Parens, "(", "Expected parens to start a condition") {
            Ok(()) => {},
            Err(e) => {
                return Err(e);
            },
        }
        let a = match self.parse_required("Expected a condition") {
            Ok(e) => e,
            Err(e) => {
                return Err(e);
            },
        };
        match self.expect(TokenKind::Semicolon, ";", "Expected semicolon") {
            Ok(()) => {},
            Err(e) => {
                return Err(e);
            },
        }
        let b = match self.parse_required("Expected a condition") {
            Ok(e) => e,
            Err(e) => {
                return Err(e);
            },
        };
        match self.expect(TokenKind::Semicolon, ";", "Expected semicolon") {
            Ok(()) => {},
            Err(e) => {
                return Err(e);
            },
        }
        let c = match self.parse_required("Expected a condition") {
            Ok(e) => e,
            Err(e) => {
                return Err(e);
            },
        };
        match self.expect(TokenKind::Parens, ")", "Expected parens to end a condition") {
            Ok(()) => {},
            Err(e) => {
                return Err(e);
            },
        }
        let body = match self.parse_required("Expected a body for the for loop") {
            Ok(e) => e,
            Err(e) => {
                return Err(e);
            },
        };
        Ok(Expression::For { conditions: (a, b, c), body })
    }

    /// `{ a b ... } from "path"` or `* from "path"`, after `import` or `export`.
    fn parse_module_reference(&mut self, is_import: bool) -> (r: Result<Expression, ParseError>)
        requires
            old(self).wf(),
        ensures
            final(self).follows(old(self)),
            r is Ok <==> module_reference(old(self).src(), old(self).pos()) is Some,
            r matches Ok(e) ==> well_formed(e) && is_module_reference(
                e,
                is_import,
                module_reference(old(self).src(), old(self).pos())->0,
            ) && final(self).pos() == (module_reference(old(self).src(), old(self).pos())->0).3,
    {
        let ghost s = self.src();
        let ghost p = self.pos();
        let mut import_all = false;
        let mut idents: Option<Vec<String>> = None;
        if self.peek_cmp_token(TokenKind::Braces, "{") {
            self.next();
            let ghost start = self.pos();
            let mut names: Vec<String> = Vec::new();
            loop
                invariant_except_break
                    name_group(s, self.pos()) is Some <==> name_group(s, start) is Some,
                    name_group(s, self.pos()) is Some ==> name_views(names@) + (name_group(
                        s,
                        self.pos(),
                    )->0).0 == (name_group(s, start)->0).0 && (name_group(s, self.pos())->0).1 == (
                    name_group(s, start)->0).1,
                invariant
                    self.follows(old(self)),
                    s == self.src(),
                    start == next_pos(s, p),
                    p == old(self).pos(),
                    has_token(s, p) && kind_at(s, p) == TokenKind::Braces && text_at(s, p) == "{"@,
                ensures
                    name_group(s, start) is Some,
                    name_views(names@) == (name_group(s, start)->0).0,
                    self.pos() == (name_group(s, start)->0).1,
                decreases self.lexer.remaining(),
            {
                let ghost here = self.pos();
                let t = match self.next() {
                    Some(t) => t,
                    None => {
                        assert(name_group(s, here) is None);
                        assert(name_group(s, start) is None);
                        assert(module_reference(s, p) is None);
                        return Err(error("Unterminated name list in import", None));
                    },
                };
                proof {
                    lemma_next_pos_bound(s, here);
                }
                if t.cmp_token(TokenKind::Braces, "}") {
                    assert(name_views(names@) + Seq::<Seq<char>>::empty() =~= name_views(names@));
                    break ;
                }
                if t.is_kind(TokenKind::Ident) {
                    let ghost rest = (name_group(s, self.pos())->0).0;
                    assert(name_views(names@) + (seq![t.literal@] + rest) =~= name_views(
                        names@.push(t.literal),
                    ) + rest);
                    names.push(t.literal);
                }
            }
            idents = Some(names);
        } else if self.peek_cmp_token(TokenKind::SomeOperator, "*") {
            self.next();
            import_all = true;
        }
        match self.next() {
            Some(t) => {
                if !t.cmp_token(TokenKind::Keyword, "from") {
                    return Err(error("Expected 'from' keyword in import", Some(t)));
                }
            },
            None => {
                return Err(error("Expected 'from' keyword in import", None));
            },
        }
        let path = match self.next() {
            Some(t) => {
                if t.is_kind(TokenKind::String) {
                    t.literal
                } else {
                    return Err(error("Expected path in import", Some(t)));
                }
            },
            None => {
                return Err(error("Expected path in import", None));
            },
        };
        if is_import {
            Ok(Expression::Import { idents, import_all, path })
        } else {
            Ok(Expression::ExportFromFile { idents, export_all: import_all, path })
        }
    }

    /// A type: an identifier, optionally followed by `*` or by `[]`.
    fn parse_type(&mut self) -> (r: Result<String, ParseError>)
        requires
            old(self).wf(),
        ensures
            final(self).follows(old(self)),
            r matches Ok(t) ==> type_text(old(self).src(), old(self).pos()) == Some(
                (t@, final(self).pos()),
            ),
            r is Err ==> type_text(old(self).src(), old(self).pos()) is None,
    {
        let base = match self.next() {
            Some(t) => {
                if t.is_kind(TokenKind::Ident) {
                    t.literal
                } else {
                    return Err(error("Missing or improper type signature", Some(t)));
                }
            },
            None => {
                return Err(error("Missing or improper type signature", None));
            },
        };
        if self.peek_cmp_token(TokenKind::SomeOperator, "*") {
            self.next();
            let mut ty = base;
            ty.append("*");
            Ok(ty)
        } else if self.peek_cmp_token(TokenKind::Brackets, "[") {
            self.next();
            match self.expect(TokenKind::Brackets, "]", "Invalid array type signature") {
                Ok(()) => {},
                Err(e) => {
                    return Err(e);
                },
            }
            let mut ty = base;
            ty.append("[]");
            Ok(ty)
        } else {
            Ok(base)
        }
    }
}

/// Whether the text holds a `.`.
fn has_dot(s: &str) -> (r: bool)
    ensures
        r == s@.contains('.'),
{
    let v = chars_of(s);
    let mut i: usize = 0;
    while i < v.len()
        invariant
            v@ == s@,
            i <= v@.len(),
            forall|j: int| 0 <= j < i ==> v@[j] != '.',
        decreases v.len() - i,
    {
        if v[i] == '.' {
            return true;
        }
        i = i + 1;
    }
    false
}

} // verus!
