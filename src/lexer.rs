//! The lexer: a cursor over the characters of a source text that hands out
//! one token at a time, with one token of lookahead.
use crate::text::{
    chars_of, is_ascii_digit, is_ascii_letter, is_digit, is_letter, is_whitespace, is_word_char,
    is_ws, str_eq, string_of, trim_chars, trimmed,
};
use crate::token::{Token, TokenKind};
use vstd::prelude::*;

verus! {

/// The longest source, in characters, that a lexer accepts: line and column
/// numbers then always fit in a `u32`.
pub const MAX_SOURCE_LEN: usize = 0xffff_0000;

/// The character at `i`, or `'\0'` past either end.
pub open spec fn char_at(s: Seq<char>, i: int) -> char {
    if 0 <= i < s.len() {
        s[i]
    } else {
        '\0'
    }
}

/// The first position at or after `i` that does not hold whitespace.
pub open spec fn skip_ws(s: Seq<char>, i: nat) -> nat
    decreases s.len() - i,
{
    if i < s.len() && is_ws(s[i as int]) {
        skip_ws(s, i + 1)
    } else {
        i
    }
}

/// Line and column of the cursor when it stands on position `p`: a newline
/// starts a new line at column 0, so the character after it is on column 1.
pub open spec fn line_col(s: Seq<char>, p: nat) -> (nat, nat)
    decreases p,
{
    if p == 0 {
        (1, 1)
    } else {
        let lc = line_col(s, (p - 1) as nat);
        if char_at(s, p as int) == '\n' {
            (lc.0 + 1, 0)
        } else {
            (lc.0, lc.1 + 1)
        }
    }
}

/// Where the body of a comment that starts at `j` ends: at `*/` for a block
/// comment, at the newline for a line comment, else at the end of the text.
pub open spec fn comment_end(s: Seq<char>, j: nat, block: bool) -> nat
    decreases s.len() - j,
{
    if j >= s.len() {
        j
    } else if block && s[j as int] == '*' && char_at(s, (j + 1) as int) == '/' {
        j
    } else if !block && s[j as int] == '\n' {
        j
    } else {
        comment_end(s, j + 1, block)
    }
}

/// Where the body of a quoted literal that starts at `j` ends: at the next
/// quote of either kind, else at the end of the text.
pub open spec fn quote_end(s: Seq<char>, j: nat) -> nat
    decreases s.len() - j,
{
    if j < s.len() && s[j as int] != '"' && s[j as int] != '\'' {
        quote_end(s, j + 1)
    } else {
        j
    }
}

/// Where a run of letters, digits and `_` that goes on at `j` ends.
pub open spec fn word_end(s: Seq<char>, j: nat) -> nat
    decreases s.len() - j,
{
    if j < s.len() && is_word_char(s[j as int]) {
        word_end(s, j + 1)
    } else {
        j
    }
}

/// The rest of a number from `j` on: its digits and at most one `.` (`dot`
/// says whether one was seen), with single `_` separators dropped; and the
/// position after it.
pub open spec fn number_rest(s: Seq<char>, j: nat, dot: bool) -> (Seq<char>, nat)
    decreases s.len() - j,
{
    if j >= s.len() {
        (Seq::empty(), j)
    } else {
        let k: nat = if s[j as int] == '_' {
            j + 1
        } else {
            j
        };
        let c = char_at(s, k as int);
        if (!is_digit(c) && c != '.') || (dot && c == '.') {
            (Seq::empty(), k)
        } else {
            let r = number_rest(s, k + 1, dot || c == '.');
            (seq![c] + r.0, r.1)
        }
    }
}

pub open spec fn is_keyword(w: Seq<char>) -> bool {
    w == "declare"@ || w == "import"@ || w == "export"@ || w == "from"@ || w == "function"@ || w
        == "return"@ || w == "let"@ || w == "const"@ || w == "if"@ || w == "else"@ || w
        == "match"@ || w == "for"@ || w == "while"@ || w == "as"@
}

pub open spec fn word_kind(w: Seq<char>) -> TokenKind {
    if is_keyword(w) {
        TokenKind::Keyword
    } else if w == "true"@ || w == "false"@ {
        TokenKind::Bool
    } else {
        TokenKind::Ident
    }
}

/// An operator that starts with `c`, followed by `d` and `e`.
pub open spec fn scan_operator(c: char, d: char, e: char, i: nat) -> (TokenKind, Seq<char>, nat) {
    if c == '+' || c == '-' {
        if d == c {
            (TokenKind::UnaryOperator, seq![c, c], i + 2)
        } else if d == '=' {
            (TokenKind::BinaryOperator, seq![c, '='], i + 2)
        } else if c == '-' {
            (TokenKind::SomeOperator, seq![c], i + 1)
        } else {
            (TokenKind::BinaryOperator, seq![c], i + 1)
        }
    } else if c == '*' || c == '/' || c == '%' {
        if d == '=' {
            (TokenKind::BinaryOperator, seq![c, '='], i + 2)
        } else if c == '*' {
            (TokenKind::SomeOperator, seq![c], i + 1)
        } else {
            (TokenKind::BinaryOperator, seq![c], i + 1)
        }
    } else if c == '=' {
        if d == '=' {
            (TokenKind::BinaryOperator, seq!['=', '='], i + 2)
        } else {
            (TokenKind::BinaryOperator, seq![c], i + 1)
        }
    } else if c == '!' {
        if d == '=' {
            (TokenKind::BinaryOperator, seq!['!', '='], i + 2)
        } else {
            (TokenKind::UnaryOperator, seq![c], i + 1)
        }
    } else if c == '<' || c == '>' {
        if d == c {
            if e == '=' {
                (TokenKind::BinaryOperator, seq![c, c, '='], i + 3)
            } else {
                (TokenKind::BinaryOperator, seq![c, c], i + 2)
            }
        } else if d == '=' {
            (TokenKind::BinaryOperator, seq![c, '='], i + 2)
        } else {
            (TokenKind::BinaryOperator, seq![c], i + 1)
        }
    } else {
        (TokenKind::Whitespace, seq![c], i + 1)
    }
}

/// The kind, the text and the end of the token that starts at `i`.
pub open spec fn scan_token(s: Seq<char>, i: nat) -> (TokenKind, Seq<char>, nat) {
    let c = char_at(s, i as int);
    let d = char_at(s, (i + 1) as int);
    if c == '/' && (d == '/' || d == '*') {
        let block = d == '*';
        let k = comment_end(s, i + 2, block);
        (
            TokenKind::Comment,
            trimmed(s.subrange((i + 2) as int, k as int)),
            if block && k < s.len() {
                k + 2
            } else {
                k
            },
        )
    } else if c == '\'' || c == '"' {
        let k = quote_end(s, i + 1);
        (
            if c == '\'' {
                TokenKind::Char
            } else {
                TokenKind::String
            },
            s.subrange((i + 1) as int, k as int),
            k + 1,
        )
    } else if is_letter(c) {
        let k = word_end(s, i + 1);
        (word_kind(s.subrange(i as int, k as int)), s.subrange(i as int, k as int), k)
    } else if is_digit(c) {
        let r = number_rest(s, i + 1, false);
        (TokenKind::Number, seq![c] + r.0, r.1)
    } else if c == '-' && d == '>' {
        (TokenKind::ReturnArrow, seq!['-', '>'], i + 2)
    } else if c == '~' {
        (TokenKind::UnaryOperator, seq![c], i + 1)
    } else if c == '&' {
        (TokenKind::SomeOperator, seq![c], i + 1)
    } else if c == ',' {
        (TokenKind::Comma, seq![c], i + 1)
    } else if c == ':' {
        (TokenKind::Colon, seq![c], i + 1)
    } else if c == ';' {
        (TokenKind::Semicolon, seq![c], i + 1)
    } else if c == '(' || c == ')' {
        (TokenKind::Parens, seq![c], i + 1)
    } else if c == '[' || c == ']' {
        (TokenKind::Brackets, seq![c], i + 1)
    } else if c == '{' || c == '}' {
        (TokenKind::Braces, seq![c], i + 1)
    } else {
        scan_operator(c, d, char_at(s, (i + 2) as int), i)
    }
}

/// Whether a token lies before the cursor at `pos`: the lexer hands out
/// tokens while anything but whitespace remains.
pub open spec fn has_token(s: Seq<char>, pos: nat) -> bool {
    skip_ws(s, pos) < s.len()
}

/// `t` is the token that the lexer reads from `pos`: whitespace is skipped,
/// and the token carries the line and column where it starts.
pub open spec fn lexes(t: Token, s: Seq<char>, pos: nat) -> bool {
    let i = skip_ws(s, pos);
    let r = scan_token(s, i);
    &&& t.kind == r.0
    &&& t.literal@ == r.1
    &&& t.line as nat == line_col(s, i).0
    &&& t.col as nat == line_col(s, i).1
}

/// The kind of the token read from `pos`.
pub open spec fn kind_at(s: Seq<char>, pos: nat) -> TokenKind {
    scan_token(s, skip_ws(s, pos)).0
}

/// The text of the token read from `pos`.
pub open spec fn text_at(s: Seq<char>, pos: nat) -> Seq<char> {
    scan_token(s, skip_ws(s, pos)).1
}

/// Where the cursor stands after the token read from `pos`.
pub open spec fn next_pos(s: Seq<char>, pos: nat) -> nat {
    scan_token(s, skip_ws(s, pos)).2
}

proof fn lemma_line_col_bound(s: Seq<char>, p: nat)
    ensures
        line_col(s, p).0 <= p + 1,
        line_col(s, p).1 <= p + 1,
    decreases p,
{
    if p > 0 {
        lemma_line_col_bound(s, (p - 1) as nat);
    }
}

proof fn lemma_skip_ws_bound(s: Seq<char>, i: nat)
    ensures
        i <= skip_ws(s, i),
        i <= s.len() ==> skip_ws(s, i) <= s.len(),
    decreases s.len() - i,
{
    if i < s.len() && is_ws(s[i as int]) {
        lemma_skip_ws_bound(s, i + 1);
    }
}

proof fn lemma_comment_end_bound(s: Seq<char>, j: nat, block: bool)
    ensures
        j <= comment_end(s, j, block),
        j <= s.len() ==> comment_end(s, j, block) <= s.len(),
        block && comment_end(s, j, block) < s.len() ==> comment_end(s, j, block) + 2 <= s.len(),
    decreases s.len() - j,
{
    if j < s.len() && !(block && s[j as int] == '*' && char_at(s, (j + 1) as int) == '/') && !(!block
        && s[j as int] == '\n') {
        lemma_comment_end_bound(s, j + 1, block);
    }
}

proof fn lemma_quote_end_bound(s: Seq<char>, j: nat)
    ensures
        j <= quote_end(s, j),
        j <= s.len() ==> quote_end(s, j) <= s.len(),
    decreases s.len() - j,
{
    if j < s.len() && s[j as int] != '"' && s[j as int] != '\'' {
        lemma_quote_end_bound(s, j + 1);
    }
}

proof fn lemma_word_end_bound(s: Seq<char>, j: nat)
    ensures
        j <= word_end(s, j),
        j <= s.len() ==> word_end(s, j) <= s.len(),
    decreases s.len() - j,
{
    if j < s.len() && is_word_char(s[j as int]) {
        lemma_word_end_bound(s, j + 1);
    }
}

proof fn lemma_number_rest_bound(s: Seq<char>, j: nat, dot: bool)
    ensures
        j <= number_rest(s, j, dot).1,
        j <= s.len() ==> number_rest(s, j, dot).1 <= s.len() + 1,
    decreases s.len() - j,
{
    if j < s.len() {
        let k: nat = if s[j as int] == '_' {
            j + 1
        } else {
            j
        };
        let c = char_at(s, k as int);
        if !((!is_digit(c) && c != '.') || (dot && c == '.')) {
            lemma_number_rest_bound(s, k + 1, dot || c == '.');
        }
    }
}

/// The token read from a position before the last character ends after
/// that position, and at most one past the end of the text.
pub proof fn lemma_next_pos_bound(s: Seq<char>, pos: nat)
    requires
        has_token(s, pos),
    ensures
        pos <= skip_ws(s, pos) < next_pos(s, pos) <= s.len() + 1,
{
    let i = skip_ws(s, pos);
    lemma_skip_ws_bound(s, pos);
    let c = char_at(s, i as int);
    let d = char_at(s, (i + 1) as int);
    if c == '/' && (d == '/' || d == '*') {
        lemma_comment_end_bound(s, i + 2, d == '*');
    } else if c == '\'' || c == '"' {
        lemma_quote_end_bound(s, i + 1);
    } else if is_letter(c) {
        lemma_word_end_bound(s, i + 1);
    } else if is_digit(c) {
        lemma_number_rest_bound(s, i + 1, false);
    }
}

/// Kinds whose text is exactly the characters the token spans: all but
/// comments, string and character literals (which drop their delimiters)
/// and numbers (which drop `_`).
pub open spec fn is_verbatim(k: TokenKind) -> bool {
    k != TokenKind::Comment && k != TokenKind::String && k != TokenKind::Char && k
        != TokenKind::Number
}

/// No `_` stands in `s` from `i` up to `j`.
pub open spec fn no_separator(s: Seq<char>, i: nat, j: nat) -> bool {
    forall|k: int| i <= k < j && k < s.len() ==> s[k] != '_'
}

/// The token read from `pos` spans exactly its own text: it is of a
/// verbatim kind, or a number written without `_`.
pub open spec fn keeps_text(s: Seq<char>, pos: nat) -> bool {
    is_verbatim(kind_at(s, pos)) || (kind_at(s, pos) == TokenKind::Number && no_separator(
        s,
        skip_ws(s, pos),
        next_pos(s, pos),
    ))
}

proof fn lemma_number_rest_text(s: Seq<char>, j: nat, dot: bool)
    requires
        j <= s.len(),
        no_separator(s, j, number_rest(s, j, dot).1),
    ensures
        number_rest(s, j, dot).1 <= s.len(),
        number_rest(s, j, dot).0 == s.subrange(j as int, number_rest(s, j, dot).1 as int),
        forall|k: int|
            0 <= k < number_rest(s, j, dot).0.len() ==> is_digit(
                #[trigger] number_rest(s, j, dot).0[k],
            ) || number_rest(s, j, dot).0[k] == '.',
    decreases s.len() - j,
{
    lemma_number_rest_bound(s, j, dot);
    if j < s.len() {
        if s[j as int] == '_' {
            let c = char_at(s, (j + 1) as int);
            if !((!is_digit(c) && c != '.') || (dot && c == '.')) {
                lemma_number_rest_bound(s, j + 2, dot || c == '.');
            }
            assert(false);
        }
        let c = s[j as int];
        if !((!is_digit(c) && c != '.') || (dot && c == '.')) {
            let r = number_rest(s, j + 1, dot || c == '.');
            lemma_number_rest_bound(s, j + 1, dot || c == '.');
            lemma_number_rest_text(s, j + 1, dot || c == '.');
            assert(seq![c] + r.0 =~= s.subrange(j as int, r.1 as int));
        } else {
            assert(s.subrange(j as int, j as int) =~= Seq::<char>::empty());
        }
    } else {
        assert(s.subrange(j as int, j as int) =~= Seq::<char>::empty());
    }
}

proof fn lemma_skip_ws_stops(s: Seq<char>, i: nat)
    ensures
        skip_ws(s, i) < s.len() ==> !is_ws(s[skip_ws(s, i) as int]),
    decreases s.len() - i,
{
    if i < s.len() && is_ws(s[i as int]) {
        lemma_skip_ws_stops(s, i + 1);
    }
}

proof fn lemma_skip_ws_spans_ws(s: Seq<char>, i: nat)
    ensures
        forall|k: int| i <= k < skip_ws(s, i) ==> is_ws(#[trigger] s[k]),
    decreases s.len() - i,
{
    if i < s.len() && is_ws(s[i as int]) {
        lemma_skip_ws_spans_ws(s, i + 1);
    }
}

proof fn lemma_word_chars(s: Seq<char>, j: nat)
    ensures
        forall|k: int| j <= k < word_end(s, j) ==> is_word_char(#[trigger] s[k]),
    decreases s.len() - j,
{
    if j < s.len() && is_word_char(s[j as int]) {
        lemma_word_chars(s, j + 1);
    }
}

/// Reading a token skips whitespace only, and a token that keeps its text
/// spans exactly that text, which holds no whitespace.
pub proof fn lemma_token_covers_text(s: Seq<char>, pos: nat)
    requires
        has_token(s, pos),
    ensures
        forall|k: int| pos <= k < skip_ws(s, pos) ==> is_ws(#[trigger] s[k]),
        keeps_text(s, pos) ==> {
            &&& next_pos(s, pos) <= s.len()
            &&& s.subrange(skip_ws(s, pos) as int, next_pos(s, pos) as int) == text_at(s, pos)
            &&& forall|k: int| 0 <= k < text_at(s, pos).len() ==> !is_ws(#[trigger] text_at(s, pos)[k])
        },
{
    lemma_skip_ws_spans_ws(s, pos);
    lemma_skip_ws_stops(s, pos);
    lemma_skip_ws_bound(s, pos);
    lemma_next_pos_bound(s, pos);
    let i = skip_ws(s, pos);
    let r = scan_token(s, i);
    let c = char_at(s, i as int);
    if r.0 == TokenKind::Number && keeps_text(s, pos) {
        lemma_number_rest_text(s, i + 1, false);
        let n = number_rest(s, i + 1, false);
        assert(seq![c] + n.0 =~= s.subrange(i as int, n.1 as int));
        assert forall|k: int| 0 <= k < r.1.len() implies !is_ws(#[trigger] r.1[k]) by {
            if k > 0 {
                assert(r.1[k] == n.0[k - 1]);
            }
        }
    } else if is_verbatim(r.0) {
        if is_letter(c) {
            lemma_word_end_bound(s, i + 1);
            lemma_word_chars(s, i + 1);
            assert forall|k: int| 0 <= k < r.1.len() implies !is_ws(#[trigger] r.1[k]) by {
                assert(r.1[k] == s[i + k]);
            }
        } else {
            assert(s.subrange(i as int, r.2 as int) =~= r.1);
        }
    }
}

/// Drops the whitespace of a text.
pub open spec fn strip_ws(t: Seq<char>) -> Seq<char>
    decreases t.len(),
{
    if t.len() == 0 {
        t
    } else if is_ws(t.last()) {
        strip_ws(t.drop_last())
    } else {
        strip_ws(t.drop_last()).push(t.last())
    }
}

proof fn lemma_strip_add(a: Seq<char>, b: Seq<char>)
    ensures
        strip_ws(a + b) == strip_ws(a) + strip_ws(b),
    decreases b.len(),
{
    if b.len() == 0 {
        assert(a + b =~= a);
        assert(strip_ws(a) + strip_ws(b) =~= strip_ws(a));
    } else {
        lemma_strip_add(a, b.drop_last());
        assert((a + b).drop_last() =~= a + b.drop_last());
        assert((a + b).last() == b.last());
        if !is_ws(b.last()) {
            assert(strip_ws(a) + strip_ws(b.drop_last()).push(b.last()) =~= (strip_ws(a) + strip_ws(
                b.drop_last(),
            )).push(b.last()));
        }
    }
}

proof fn lemma_strip_all_ws(t: Seq<char>)
    requires
        forall|k: int| 0 <= k < t.len() ==> is_ws(#[trigger] t[k]),
    ensures
        strip_ws(t) == Seq::<char>::empty(),
    decreases t.len(),
{
    if t.len() > 0 {
        lemma_strip_all_ws(t.drop_last());
    }
}

proof fn lemma_strip_no_ws(t: Seq<char>)
    requires
        forall|k: int| 0 <= k < t.len() ==> !is_ws(#[trigger] t[k]),
    ensures
        strip_ws(t) == t,
    decreases t.len(),
{
    if t.len() > 0 {
        lemma_strip_no_ws(t.drop_last());
        assert(t.drop_last().push(t.last()) =~= t);
    }
}

#[via_fn]
proof fn stream_decreases(s: Seq<char>, pos: nat) {
    if has_token(s, pos) {
        lemma_next_pos_bound(s, pos);
    }
}
#[via_fn]
proof fn end_decreases(s: Seq<char>, pos: nat) {
    if has_token(s, pos) {
        lemma_next_pos_bound(s, pos);
    }
}
#[via_fn]
proof fn keep_text_decreases(s: Seq<char>, pos: nat) {
    if has_token(s, pos) {
        lemma_next_pos_bound(s, pos);
    }
}

/// The texts of the tokens read from `pos` on, one after the other.
pub open spec fn stream_text(s: Seq<char>, pos: nat) -> Seq<char>
    decreases s.len() + 2 - pos,
    via stream_decreases
{
    if has_token(s, pos) {
        text_at(s, pos) + stream_text(s, next_pos(s, pos))
    } else {
        Seq::empty()
    }
}

/// Where the lexer stops when it reads every token from `pos` on.
pub open spec fn stream_end(s: Seq<char>, pos: nat) -> nat
    decreases s.len() + 2 - pos,
    via end_decreases
{
    if has_token(s, pos) {
        stream_end(s, next_pos(s, pos))
    } else {
        pos
    }
}

/// Whether every token read from `pos` on keeps its text.
pub open spec fn all_keep_text(s: Seq<char>, pos: nat) -> bool
    decreases s.len() + 2 - pos,
    via keep_text_decreases
{
    if has_token(s, pos) {
        keeps_text(s, pos) && all_keep_text(s, next_pos(s, pos))
    } else {
        true
    }
}

/// On a text whose tokens all keep their text (no comments, quoted
/// literals or numbers written with `_`), the texts of the tokens
/// read from `pos` on, put together, equal the rest of the source, whitespace
/// aside.
pub proof fn lemma_tokens_give_back_source(s: Seq<char>, pos: nat)
    requires
        all_keep_text(s, pos),
        pos <= s.len(),
    ensures
        strip_ws(stream_text(s, pos)) == strip_ws(s.subrange(pos as int, s.len() as int)),
{
    lemma_stream_covers(s, pos);
    let end = stream_end(s, pos);
    lemma_skip_ws_spans_ws(s, end);
    let tail = s.subrange(end as int, s.len() as int);
    assert forall|k: int| 0 <= k < tail.len() implies is_ws(#[trigger] tail[k]) by {
        assert(tail[k] == s[end + k]);
    }
    lemma_strip_all_ws(tail);
    assert(s.subrange(pos as int, s.len() as int) =~= s.subrange(pos as int, end as int) + tail);
    lemma_strip_add(s.subrange(pos as int, end as int), tail);
    assert(strip_ws(stream_text(s, pos)) + Seq::<char>::empty() =~= strip_ws(stream_text(s, pos)));
}

proof fn lemma_stream_covers(s: Seq<char>, pos: nat)
    requires
        all_keep_text(s, pos),
        pos <= s.len(),
    ensures
        pos <= stream_end(s, pos) <= s.len(),
        !has_token(s, stream_end(s, pos)),
        strip_ws(stream_text(s, pos)) == strip_ws(s.subrange(pos as int, stream_end(s, pos) as int)),
    decreases s.len() + 2 - pos,
{
    if has_token(s, pos) {
        lemma_token_covers_text(s, pos);
        lemma_skip_ws_bound(s, pos);
        lemma_next_pos_bound(s, pos);
        let i = skip_ws(s, pos);
        let n = next_pos(s, pos);
        let end = stream_end(s, n);
        lemma_stream_covers(s, n);
        let text = text_at(s, pos);
        let spaces = s.subrange(pos as int, i as int);
        let rest = s.subrange(n as int, end as int);
        assert(s.subrange(pos as int, end as int) =~= spaces + text + rest);
        assert forall|k: int| 0 <= k < spaces.len() implies is_ws(#[trigger] spaces[k]) by {
            assert(spaces[k] == s[pos + k]);
        }
        lemma_strip_all_ws(spaces);
        lemma_strip_no_ws(text);
        lemma_strip_add(spaces + text, rest);
        lemma_strip_add(spaces, text);
        lemma_strip_add(text, stream_text(s, n));
        assert(Seq::<char>::empty() + text =~= text);
    } else {
        assert(s.subrange(pos as int, pos as int) =~= Seq::<char>::empty());
    }
}

/// Reading a token moves the cursor forward, and no further than one past
/// the end of the text.
pub broadcast proof fn lemma_next_pos_grows(s: Seq<char>, pos: nat)
    ensures
        has_token(s, pos) ==> pos < s.len() && pos < #[trigger] next_pos(s, pos) <= s.len() + 1,
{
    if has_token(s, pos) {
        lemma_next_pos_bound(s, pos);
    }
}

#[derive(Debug)]
pub struct Lexer {
    source: Vec<char>,
    current: usize,
    ch: char,
    line: u32,
    column: u32,
}

impl Lexer {
    /// The characters of the text being read.
    pub closed spec fn src(&self) -> Seq<char> {
        self.source@
    }

    /// The position of the cursor.
    pub closed spec fn pos(&self) -> nat {
        self.current as nat
    }

    /// A measure that every token read makes smaller.
    pub open spec fn remaining(&self) -> nat {
        (self.src().len() + 2 - self.pos()) as nat
    }

    pub closed spec fn wf(&self) -> bool {
        &&& self.source@.len() <= MAX_SOURCE_LEN
        &&& self.current <= self.source@.len() + 1
        &&& self.ch == char_at(self.source@, self.current as int)
        &&& self.line as nat == line_col(self.source@, self.current as nat).0
        &&& self.column as nat == line_col(self.source@, self.current as nat).1
    }

    /// A lexer on the first character of `input`.
    pub fn new(input: String) -> (r: Lexer)
        requires
            input@.len() <= MAX_SOURCE_LEN,
        ensures
            r.wf(),
            r.src() == input@,
            r.pos() == 0,
    {
        let source = chars_of(input.as_str());
        let ch = if source.len() > 0 {
            source[0]
        } else {
            '\0'
        };
        Lexer { source, current: 0, ch, line: 1, column: 1 }
    }

    fn is_keyword(w: &String) -> (r: bool)
        ensures
            r == is_keyword(w@),
    {
        let s = w.as_str();
        str_eq(s, "declare") || str_eq(s, "import") || str_eq(s, "export") || str_eq(s, "from")
            || str_eq(s, "function") || str_eq(s, "return") || str_eq(s, "let") || str_eq(
            s,
            "const",
        ) || str_eq(s, "if") || str_eq(s, "else") || str_eq(s, "match") || str_eq(s, "for")
            || str_eq(s, "while") || str_eq(s, "as")
    }

    fn char_at(&self, i: usize) -> (c: char)
        ensures
            c == char_at(self.source@, i as int),
    {
        if i < self.source.len() {
            self.source[i]
        } else {
            '\0'
        }
    }

    /// Moves the cursor one character on.
    fn read(&mut self)
        requires
            old(self).wf(),
            old(self).current <= old(self).source@.len(),
        ensures
            final(self).wf(),
            final(self).source@ == old(self).source@,
            final(self).current == old(self).current + 1,
    {
        let n = self.current + 1;
        proof {
            lemma_line_col_bound(self.source@, n as nat);
        }
        self.ch = self.char_at(n);
        if self.ch == '\n' {
            self.line = self.line + 1;
            self.column = 0;
        } else {
            self.column = self.column + 1;
        }
        self.current = n;
    }

    /// Where the cursor would stand after skipping whitespace.
    fn skip_index(&self) -> (r: usize)
        requires
            self.wf(),
        ensures
            r == skip_ws(self.source@, self.current as nat),
    {
        let mut i: usize = self.current;
        while i < self.source.len() && is_whitespace(self.source[i])
            invariant
                self.current <= i,
                i <= self.source@.len() + 1,
                self.source@.len() <= MAX_SOURCE_LEN,
                skip_ws(self.source@, i as nat) == skip_ws(self.source@, self.current as nat),
            decreases self.source@.len() + 1 - i,
        {
            i = i + 1;
        }
        i
    }

    /// Moves the cursor over whitespace.
    fn skip_whitespace(&mut self)
        requires
            old(self).wf(),
        ensures
            final(self).wf(),
            final(self).source@ == old(self).source@,
            final(self).current == skip_ws(old(self).source@, old(self).current as nat),
    {
        while is_whitespace(self.ch)
            invariant
                self.wf(),
                self.source@ == old(self).source@,
                skip_ws(self.source@, self.current as nat) == skip_ws(
                    old(self).source@,
                    old(self).current as nat,
                ),
            decreases self.source@.len() + 1 - self.current,
        {
            self.read();
        }
    }

    /// The kind of the word `w`.
    fn word_kind(w: &Vec<char>) -> (r: TokenKind)
        ensures
            r == word_kind(w@),
    {
        let s = string_of(w);
        if Self::is_keyword(&s) {
            TokenKind::Keyword
        } else if str_eq(s.as_str(), "true") || str_eq(s.as_str(), "false") {
            TokenKind::Bool
        } else {
            TokenKind::Ident
        }
    }

    fn copy_chars(&self, from: usize, to: usize) -> (r: Vec<char>)
        requires
            from <= to <= self.source@.len(),
        ensures
            r@ == self.source@.subrange(from as int, to as int),
    {
        let mut r: Vec<char> = Vec::new();
        let mut i: usize = from;
        while i < to
            invariant
                from <= i <= to <= self.source@.len(),
                r@ == self.source@.subrange(from as int, i as int),
            decreases to - i,
        {
            r.push(self.source[i]);
            assert(self.source@.subrange(from as int, i + 1) == self.source@.subrange(
                from as int,
                i as int,
            ).push(self.source@[i as int]));
            i = i + 1;
        }
        r
    }

    fn scan_comment(&self, i: usize, block: bool) -> (r: (Vec<char>, usize))
        requires
            i + 2 <= self.source@.len(),
            self.source@.len() <= MAX_SOURCE_LEN,
        ensures
            r.0@ == trimmed(
                self.source@.subrange(i + 2, comment_end(self.source@, (i + 2) as nat, block) as int),
            ),
            r.1 as nat == (if block && comment_end(self.source@, (i + 2) as nat, block)
                < self.source@.len() {
                comment_end(self.source@, (i + 2) as nat, block) + 2
            } else {
                comment_end(self.source@, (i + 2) as nat, block)
            }),
    {
        let ghost s = self.source@;
        let n = self.source.len();
        let mut j: usize = i + 2;
        while j < n && !(block && self.source[j] == '*' && self.char_at(j + 1) == '/') && !(!block
            && self.source[j] == '\n')
            invariant
                i + 2 <= j <= n,
                n == s.len(),
                s == self.source@,
                comment_end(s, j as nat, block) == comment_end(s, (i + 2) as nat, block),
            decreases n - j,
        {
            j = j + 1;
        }
        proof {
            lemma_comment_end_bound(s, j as nat, block);
        }
        let body = trim_chars(&self.source, i + 2, j);
        if block && j < n {
            (body, j + 2)
        } else {
            (body, j)
        }
    }

    fn scan_quote(&self, i: usize) -> (r: (Vec<char>, usize))
        requires
            i < self.source@.len(),
            self.source@.len() <= MAX_SOURCE_LEN,
        ensures
            r.0@ == self.source@.subrange(i + 1, quote_end(self.source@, (i + 1) as nat) as int),
            r.1 == quote_end(self.source@, (i + 1) as nat) + 1,
    {
        let ghost s = self.source@;
        let n = self.source.len();
        let mut j: usize = i + 1;
        while j < n && self.source[j] != '"' && self.source[j] != '\''
            invariant
                i + 1 <= j <= n,
                n == s.len(),
                s == self.source@,
                quote_end(s, j as nat) == quote_end(s, (i + 1) as nat),
            decreases n - j,
        {
            j = j + 1;
        }
        (self.copy_chars(i + 1, j), j + 1)
    }

    fn scan_word(&self, i: usize) -> (r: (Vec<char>, usize))
        requires
            i < self.source@.len(),
        ensures
            r.0@ == self.source@.subrange(i as int, word_end(self.source@, (i + 1) as nat) as int),
            r.1 == word_end(self.source@, (i + 1) as nat),
    {
        let ghost s = self.source@;
        let n = self.source.len();
        let mut j: usize = i + 1;
        while j < n && (is_ascii_letter(self.source[j]) || is_ascii_digit(self.source[j])
            || self.source[j] == '_')
            invariant
                i + 1 <= j <= n,
                n == s.len(),
                s == self.source@,
                word_end(s, j as nat) == word_end(s, (i + 1) as nat),
            decreases n - j,
        {
            j = j + 1;
        }
        (self.copy_chars(i, j), j)
    }

    fn scan_number(&self, i: usize) -> (r: (Vec<char>, usize))
        requires
            i < self.source@.len(),
            self.source@.len() <= MAX_SOURCE_LEN,
        ensures
            r.0@ == seq![self.source@[i as int]] + number_rest(self.source@, (i + 1) as nat, false).0,
            r.1 == number_rest(self.source@, (i + 1) as nat, false).1,
    {
        let ghost s = self.source@;
        let n = self.source.len();
        let mut buf: Vec<char> = Vec::new();
        buf.push(self.source[i]);
        let mut j: usize = i + 1;
        let mut dot = false;
        let ghost target = number_rest(s, (i + 1) as nat, false);
        loop
            invariant
                i < n,
                i + 1 <= j <= n + 1,
                n == s.len(),
                n <= MAX_SOURCE_LEN,
                target == number_rest(s, (i + 1) as nat, false),
                s == self.source@,
                buf@ + number_rest(s, j as nat, dot).0 == seq![s[i as int]] + target.0,
                number_rest(s, j as nat, dot).1 == target.1,
            decreases n + 1 - j,
        {
            if j >= n {
                assert(number_rest(s, j as nat, dot) == (Seq::<char>::empty(), j as nat));
                assert(buf@ + Seq::<char>::empty() =~= buf@);
                return (buf, j);
            }
            let k = if self.source[j] == '_' {
                j + 1
            } else {
                j
            };
            let c = self.char_at(k);
            if (!is_ascii_digit(c) && c != '.') || (dot && c == '.') {
                assert(number_rest(s, j as nat, dot) == (Seq::<char>::empty(), k as nat));
                assert(buf@ + Seq::<char>::empty() =~= buf@);
                return (buf, k);
            }
            let ghost rest = number_rest(s, (k + 1) as nat, dot || c == '.');
            assert(number_rest(s, j as nat, dot) == (seq![c] + rest.0, rest.1));
            assert(buf@ + (seq![c] + rest.0) =~= buf@.push(c) + rest.0);
            buf.push(c);
            if c == '.' {
                dot = true;
            }
            j = k + 1;
        }
    }

    /// The kind, text and end of the token that starts at `i`.
    fn scan(&self, i: usize) -> (r: (TokenKind, Vec<char>, usize))
        requires
            i <= self.source@.len(),
            self.source@.len() <= MAX_SOURCE_LEN,
        ensures
            r.0 == scan_token(self.source@, i as nat).0,
            r.1@ == scan_token(self.source@, i as nat).1,
            r.2 == scan_token(self.source@, i as nat).2,
    {
        let c = self.char_at(i);
        let d = self.char_at(i + 1);
        if c == '/' && (d == '/' || d == '*') {
            let (body, end) = self.scan_comment(i, d == '*');
            (TokenKind::Comment, body, end)
        } else if c == '\'' || c == '"' {
            let (body, end) = self.scan_quote(i);
            (
                if c == '\'' {
                    TokenKind::Char
                } else {
                    TokenKind::String
                },
                body,
                end,
            )
        } else if is_ascii_letter(c) {
            let (w, end) = self.scan_word(i);
            (Self::word_kind(&w), w, end)
        } else if is_ascii_digit(c) {
            let (w, end) = self.scan_number(i);
            (TokenKind::Number, w, end)
        } else if c == '-' && d == '>' {
            (TokenKind::ReturnArrow, vec!['-', '>'], i + 2)
        } else if c == '~' {
            (TokenKind::UnaryOperator, vec![c], i + 1)
        } else if c == '&' {
            (TokenKind::SomeOperator, vec![c], i + 1)
        } else if c == ',' {
            (TokenKind::Comma, vec![c], i + 1)
        } else if c == ':' {
            (TokenKind::Colon, vec![c], i + 1)
        } else if c == ';' {
            (TokenKind::Semicolon, vec![c], i + 1)
        } else if c == '(' || c == ')' {
            (TokenKind::Parens, vec![c], i + 1)
        } else if c == '[' || c == ']' {
            (TokenKind::Brackets, vec![c], i + 1)
        } else if c == '{' || c == '}' {
            (TokenKind::Braces, vec![c], i + 1)
        } else {
            let e = self.char_at(i + 2);
            Self::scan_operator(c, d, e, i)
        }
    }

    fn scan_operator(c: char, d: char, e: char, i: usize) -> (r: (TokenKind, Vec<char>, usize))
        requires
            i <= MAX_SOURCE_LEN,
        ensures
            r.0 == scan_operator(c, d, e, i as nat).0,
            r.1@ == scan_operator(c, d, e, i as nat).1,
            r.2 == scan_operator(c, d, e, i as nat).2,
    {
        if c == '+' || c == '-' {
            if d == c {
                (TokenKind::UnaryOperator, vec![c, c], i + 2)
            } else if d == '=' {
                (TokenKind::BinaryOperator, vec![c, '='], i + 2)
            } else if c == '-' {
                (TokenKind::SomeOperator, vec![c], i + 1)
            } else {
                (TokenKind::BinaryOperator, vec![c], i + 1)
            }
        } else if c == '*' || c == '/' || c == '%' {
            if d == '=' {
                (TokenKind::BinaryOperator, vec![c, '='], i + 2)
            } else if c == '*' {
                (TokenKind::SomeOperator, vec![c], i + 1)
            } else {
                (TokenKind::BinaryOperator, vec![c], i + 1)
            }
        } else if c == '=' {
            if d == '=' {
                (TokenKind::BinaryOperator, vec!['=', '='], i + 2)
            } else {
                (TokenKind::BinaryOperator, vec![c], i + 1)
            }
        } else if c == '!' {
            if d == '=' {
                (TokenKind::BinaryOperator, vec!['!', '='], i + 2)
            } else {
                (TokenKind::UnaryOperator, vec![c], i + 1)
            }
        } else if c == '<' || c == '>' {
            if d == c {
                if e == '=' {
                    (TokenKind::BinaryOperator, vec![c, c, '='], i + 3)
                } else {
                    (TokenKind::BinaryOperator, vec![c, c], i + 2)
                }
            } else if d == '=' {
                (TokenKind::BinaryOperator, vec![c, '='], i + 2)
            } else {
                (TokenKind::BinaryOperator, vec![c], i + 1)
            }
        } else {
            (TokenKind::Whitespace, vec![c], i + 1)
        }
    }

    /// Reads the token before the cursor and moves the cursor past it.
    fn match_token(&mut self) -> (t: Token)
        requires
            old(self).wf(),
            has_token(old(self).src(), old(self).pos()),
        ensures
            final(self).wf(),
            final(self).src() == old(self).src(),
            lexes(t, old(self).src(), old(self).pos()),
            final(self).pos() == next_pos(old(self).src(), old(self).pos()),
    {
        proof {
            lemma_next_pos_bound(self.source@, self.current as nat);
            lemma_skip_ws_bound(self.source@, self.current as nat);
        }
        self.skip_whitespace();
        let i = self.current;
        let line = self.line;
        let col = self.column;
        let (kind, lit, end) = self.scan(i);
        while self.current < end
            invariant
                self.wf(),
                self.source@ == old(self).source@,
                i <= self.current <= end <= self.source@.len() + 1,
            decreases end - self.current,
        {
            self.read();
        }
        Token::from_chars(kind, &lit, line, col)
    }

    /// The next token, without moving the cursor; `None` once only
    /// whitespace remains.
    pub fn peek(&mut self) -> (r: Option<Token>)
        requires
            old(self).wf(),
        ensures
            final(self).wf(),
            final(self).src() == old(self).src(),
            final(self).pos() == old(self).pos(),
            final(self).pos() <= final(self).src().len() + 1,
            r is Some <==> has_token(old(self).src(), old(self).pos()),
            r matches Some(t) ==> lexes(t, old(self).src(), old(self).pos()),
    {
        if self.skip_index() >= self.source.len() {
            return None;
        }
        let old_current = self.current;
        let old_char = self.ch;
        let old_line = self.line;
        let old_col = self.column;
        let token = self.match_token();
        self.current = old_current;
        self.ch = old_char;
        self.line = old_line;
        self.column = old_col;
        Some(token)
    }

    /// The next token, moving the cursor past it; `None` once only
    /// whitespace remains.
    pub fn next(&mut self) -> (r: Option<Token>)
        requires
            old(self).wf(),
        ensures
            final(self).wf(),
            final(self).src() == old(self).src(),
            r is Some <==> has_token(old(self).src(), old(self).pos()),
            r matches Some(t) ==> lexes(t, old(self).src(), old(self).pos()),
            final(self).pos() <= final(self).src().len() + 1,
            r is Some ==> final(self).remaining() < old(self).remaining(),
            final(self).pos() == (if has_token(old(self).src(), old(self).pos()) {
                next_pos(old(self).src(), old(self).pos())
            } else {
                old(self).pos()
            }),
    {
        if self.skip_index() >= self.source.len() {
            return None;
        }
        proof {
            lemma_next_pos_bound(self.source@, self.current as nat);
        }
        Some(self.match_token())
    }
}

/// Two tokens read from the same text at the same position are equal, so a
/// `peek` (which keeps the position) followed by a `next` yields the same
/// token twice, and leaves the lexer where a `next` alone would.
pub proof fn lemma_peek_then_next(a: Token, b: Token, s: Seq<char>, pos: nat)
    requires
        lexes(a, s, pos),
        lexes(b, s, pos),
    ensures
        a.kind == b.kind,
        a.literal@ == b.literal@,
        a.line == b.line,
        a.col == b.col,
{
}

} // verus!
