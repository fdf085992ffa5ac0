//! The lexer: turns source text into a forest of tokens, where parenthesized
//! and braced groups are single tokens holding their contents.
//!
//! The grammar, at each position, tries in order: a comment (`$.` up to the
//! end of the line), then one token surrounded by optional whitespace.  A token
//! is, trying in order: an operator (followed by any number of `^` lifts), a
//! number type (`u32`, `i8v4`, `r32m3x4`) not followed by an identifier
//! character, an identifier or keyword, a `$`-identifier, a number literal, a
//! parenthesized group, a braced group, or one of `= , ; :`.
//!
//! The grammar reads the source as characters, and `lex_chars` gives spans
//! counted in characters; `lexer` gives them in bytes of the UTF-8 encoding.
use vstd::prelude::*;
use crate::types::{self, Type, TypeView, NumberKind, Integer, Float, Vector, Matrix};
use crate::text;

verus! {

/// A half-open range of positions in the source.
#[derive(Clone, Copy, PartialEq, Eq, Structural, Debug, Hash)]
pub struct Span {
    pub start: usize,
    pub end: usize,
}

/// A value together with the span of source it came from.
#[derive(Debug)]
pub struct Spanned<T> {
    pub inner: T,
    pub span: Span,
}

#[derive(Clone, Copy, PartialEq, Eq, Structural, Debug, Hash)]
pub enum Symbol {
    Semicolon,
    Colon,
    Equals,
    Comma,
}

#[derive(Clone, Copy, PartialEq, Eq, Structural, Debug, Hash)]
pub enum Keyword {
    Function,
    Let,
    If,
    Else,
    True,
    False,
}

#[derive(Clone, Copy, PartialEq, Eq, Structural, Debug, Hash)]
pub enum Op {
    Add,
    Subtract,
    Multiply,
    Divide,
    DotProduct,
    CrossProduct,
    MatrixMultiply,
}

/// The digits of a number in a radix, most significant first.
#[derive(Debug)]
pub struct Digits {
    pub radix: u32,
    pub digits: Vec<u32>,
}

/// The value of a number literal, exactly as written.
#[derive(Debug)]
pub enum NumberValue {
    Int(Digits),
    Float { whole: Digits, frac: Digits },
}

/// A number literal with its optional type suffix.
#[derive(Debug)]
pub struct Number {
    pub value: NumberValue,
    pub kind: Option<NumberKind>,
}

#[derive(Debug)]
pub enum Token {
    Keyword(Keyword),
    Symbol(Symbol),
    DollarIdent(String),
    Ident(String),
    Op { op: Op, lifts: usize },
    Parens(Vec<Spanned<Token>>),
    Braces(Vec<Spanned<Token>>),
    Number(Number),
    Type(Type),
}

/// The mathematical value of a number literal.
pub enum NumberValueView {
    Int(nat, Seq<u32>),
    Float(nat, Seq<u32>, nat, Seq<u32>),
}

pub struct NumberView {
    pub value: NumberValueView,
    pub kind: Option<NumberKind>,
}

/// The mathematical value of a token.
pub enum TokenView {
    Keyword(Keyword),
    Symbol(Symbol),
    DollarIdent(Seq<char>),
    Ident(Seq<char>),
    Op(Op, nat),
    Parens(Seq<SpannedTokenView>),
    Braces(Seq<SpannedTokenView>),
    Number(NumberView),
    Type(TypeView),
}

/// A token with its start and end positions.
pub struct SpannedTokenView {
    pub token: TokenView,
    pub start: nat,
    pub end: nat,
}

pub open spec fn number_value_view(v: NumberValue) -> NumberValueView {
    match v {
        NumberValue::Int(d) => NumberValueView::Int(d.radix as nat, d.digits@),
        NumberValue::Float { whole, frac } => NumberValueView::Float(
            whole.radix as nat,
            whole.digits@,
            frac.radix as nat,
            frac.digits@,
        ),
    }
}

pub open spec fn number_view(n: Number) -> NumberView {
    NumberView { value: number_value_view(n.value), kind: n.kind }
}

pub open spec fn token_view(t: Token) -> TokenView
    decreases t,
{
    match t {
        Token::Keyword(k) => TokenView::Keyword(k),
        Token::Symbol(s) => TokenView::Symbol(s),
        Token::DollarIdent(s) => TokenView::DollarIdent(s@),
        Token::Ident(s) => TokenView::Ident(s@),
        Token::Op { op, lifts } => TokenView::Op(op, lifts as nat),
        Token::Parens(v) => {
            proof {
                assert(decreases_to!(v => v@));
            }
            TokenView::Parens(spanned_tokens_view(v@))
        },
        Token::Braces(v) => {
            proof {
                assert(decreases_to!(v => v@));
            }
            TokenView::Braces(spanned_tokens_view(v@))
        },
        Token::Number(n) => TokenView::Number(number_view(n)),
        Token::Type(t) => TokenView::Type(t@),
    }
}

pub open spec fn spanned_token_view(t: Spanned<Token>) -> SpannedTokenView
    decreases t,
{
    SpannedTokenView { token: token_view(t.inner), start: t.span.start as nat, end: t.span.end as nat }
}

pub open spec fn spanned_tokens_view(s: Seq<Spanned<Token>>) -> Seq<SpannedTokenView>
    decreases s,
{
    if s.len() == 0 {
        Seq::empty()
    } else {
        proof {
            assert(decreases_to!(s => s[0]));
            assert(decreases_to!(s => s.subrange(1, s.len() as int)));
        }
        seq![spanned_token_view(s[0])] + spanned_tokens_view(s.subrange(1, s.len() as int))
    }
}

impl View for Token {
    type V = TokenView;

    open spec fn view(&self) -> TokenView {
        token_view(*self)
    }
}

pub proof fn lemma_spanned_tokens_view(s: Seq<Spanned<Token>>)
    ensures
        spanned_tokens_view(s).len() == s.len(),
        forall|i: int| 0 <= i < s.len() ==> #[trigger] spanned_tokens_view(s)[i] == spanned_token_view(s[i]),
    decreases s.len(),
{
    if s.len() > 0 {
        lemma_spanned_tokens_view(s.subrange(1, s.len() as int));
        assert forall|i: int| 0 <= i < s.len() implies #[trigger] spanned_tokens_view(s)[i]
            == spanned_token_view(s[i]) by {
            if i > 0 {
                assert(s.subrange(1, s.len() as int)[i - 1] == s[i]);
            }
        }
    }
}

// ---------------------------------------------------------------------------
// The grammar, as functions of the source and a position.
// ---------------------------------------------------------------------------

/// The first position at or after `i` that does not hold whitespace.
pub open spec fn ws_end(s: Seq<char>, i: nat) -> nat
    decreases s.len() - i,
{
    if i < s.len() && text::whitespace_char(s[i as int]) {
        ws_end(s, i + 1)
    } else {
        i
    }
}

/// The first position at or after `i` that does not continue an identifier.
pub open spec fn ident_continue_end(s: Seq<char>, i: nat) -> nat
    decreases s.len() - i,
{
    if i < s.len() && text::ident_continue_char(s[i as int]) {
        ident_continue_end(s, i + 1)
    } else {
        i
    }
}

/// An identifier starting at `i`: its end.
pub open spec fn ident_at(s: Seq<char>, i: nat) -> Option<nat> {
    if i < s.len() && text::ident_start_char(s[i as int]) {
        Some(ident_continue_end(s, i + 1))
    } else {
        None
    }
}

/// The first position at or after `i` that is not `c`.
pub open spec fn run_end(s: Seq<char>, i: nat, c: char) -> nat
    decreases s.len() - i,
{
    if i < s.len() && s[i as int] == c {
        run_end(s, i + 1, c)
    } else {
        i
    }
}

/// The first position at or after `i` that holds no decimal digit.
pub open spec fn decimal_end(s: Seq<char>, i: nat) -> nat
    decreases s.len() - i,
{
    if i < s.len() && text::decimal_digit(s[i as int]) {
        decimal_end(s, i + 1)
    } else {
        i
    }
}

/// The first position at or after `i` that is a newline.
pub open spec fn line_end(s: Seq<char>, i: nat) -> nat
    decreases s.len() - i,
{
    if i < s.len() && s[i as int] != '\n' {
        line_end(s, i + 1)
    } else {
        i
    }
}

/// The value of the decimal digits in `s[i..j]`.
pub open spec fn decimal_value(s: Seq<char>, i: int, j: int) -> nat
    decreases j - i,
{
    if j <= i {
        0
    } else {
        decimal_value(s, i, j - 1) * 10 + text::digit_value(s[j - 1])
    }
}

/// A comment at `i` (with the whitespace around it): its end.
pub open spec fn comment_at(s: Seq<char>, i: nat) -> Option<nat> {
    let a = ws_end(s, i);
    if a + 1 < s.len() && s[a as int] == '$' && s[(a + 1) as int] == '.' {
        Some(ws_end(s, line_end(s, a + 2)))
    } else {
        None
    }
}

/// An operator at `i`: the operator and the end of its symbol.
pub open spec fn op_symbol_at(s: Seq<char>, i: nat) -> Option<(Op, nat)> {
    if i >= s.len() {
        None
    } else if s[i as int] == '+' {
        Some((Op::Add, i + 1))
    } else if s[i as int] == '-' {
        Some((Op::Subtract, i + 1))
    } else if s[i as int] == '*' {
        if i + 1 < s.len() && s[(i + 1) as int] == '.' {
            Some((Op::DotProduct, i + 2))
        } else if i + 2 < s.len() && s[(i + 1) as int] == '>' && s[(i + 2) as int] == '<' {
            Some((Op::CrossProduct, i + 3))
        } else if i + 1 < s.len() && s[(i + 1) as int] == '@' {
            Some((Op::MatrixMultiply, i + 2))
        } else {
            Some((Op::Multiply, i + 1))
        }
    } else if s[i as int] == '/' {
        Some((Op::Divide, i + 1))
    } else {
        None
    }
}

/// How an operator is written: `+`, `-`, `*`, `/`, `*.` (dot product),
/// `*><` (cross product), `*@` (matrix product).
pub open spec fn op_text(op: Op) -> Seq<char> {
    match op {
        Op::Add => seq!['+'],
        Op::Subtract => seq!['-'],
        Op::Multiply => seq!['*'],
        Op::Divide => seq!['/'],
        Op::DotProduct => seq!['*', '.'],
        Op::CrossProduct => seq!['*', '>', '<'],
        Op::MatrixMultiply => seq!['*', '@'],
    }
}

/// Reading an operator's written form gives that operator back, and its
/// text is all that is read: wherever `op_text(op)` stands in `s` (for `*`,
/// not followed by what would make it a longer operator), the operator read
/// there is `op`; different operators are written differently.
pub proof fn law_op_symbol_reads_back(s: Seq<char>, i: int, op: Op, op2: Op)
    requires
        0 <= i,
        i + op_text(op).len() <= s.len(),
        s.subrange(i, i + op_text(op).len()) == op_text(op),
        op == Op::Multiply ==> !(i + 1 < s.len() && (s[i + 1] == '.' || s[i + 1] == '@' || (i + 2 < s.len()
            && s[i + 1] == '>' && s[i + 2] == '<'))),
    ensures
        op_symbol_at(s, i as nat) == Some((op, (i + op_text(op).len()) as nat)),
        op != op2 ==> op_text(op) != op_text(op2),
{
    let t = op_text(op);
    assert forall|k: int| 0 <= k < t.len() implies s[i + k] == t[k] by {
        assert(s.subrange(i, i + t.len())[k] == s[i + k]);
    }
    assert(s[i] == t[0]);
    if t.len() > 1 {
        assert(s[i + 1] == t[1]);
    }
    if t.len() > 2 {
        assert(s[i + 2] == t[2]);
    }
    if op != op2 {
        let t2 = op_text(op2);
        if t == t2 {
            assert(t[0] == t2[0]);
            assert(t.len() == t2.len());
            if t.len() > 1 {
                assert(t[1] == t2[1]);
            }
        }
    }
}

/// A non-negative integer at `i` without leading zeroes (`0` alone is one)
/// whose value fits in `u32`: the value and the end.
pub open spec fn int_at(s: Seq<char>, i: nat) -> Option<(u32, nat)> {
    if i >= s.len() || !text::decimal_digit(s[i as int]) {
        None
    } else {
        let j = if s[i as int] == '0' {
            i + 1
        } else {
            decimal_end(s, i + 1)
        };
        let v = decimal_value(s, i as int, j as int);
        if v <= u32::MAX {
            Some((v as u32, j))
        } else {
            None
        }
    }
}

/// A number kind (`u32`, `i8`, `r64`) at `i`.
pub open spec fn number_kind_at(s: Seq<char>, i: nat) -> Option<(NumberKind, nat)> {
    if i >= s.len() {
        None
    } else {
        match int_at(s, i + 1) {
            Some((w, j)) => if s[i as int] == 'u' {
                Some((NumberKind::Integer(Integer::Unsigned(w)), j))
            } else if s[i as int] == 'i' {
                Some((NumberKind::Integer(Integer::Signed(w)), j))
            } else if s[i as int] == 'r' {
                Some((NumberKind::Float(Float { width: w }), j))
            } else {
                None
            },
            None => None,
        }
    }
}

/// A number type, vector type or matrix type at `i`, before the check that
/// no identifier follows.
pub open spec fn type_shape_at(s: Seq<char>, i: nat) -> Option<(TypeView, nat)> {
    match number_kind_at(s, i) {
        None => None,
        Some((nk, j)) => {
            if j < s.len() && s[j as int] == 'v' && int_at(s, j + 1) is Some {
                let (n, k) = int_at(s, j + 1).unwrap();
                Some((types::vector_type(Vector { component_type: nk, component_count: n }), k))
            } else if j < s.len() && s[j as int] == 'm' && int_at(s, j + 1) is Some && ({
                let (rows, k) = int_at(s, j + 1).unwrap();
                k < s.len() && s[k as int] == 'x' && int_at(s, k + 1) is Some
            }) {
                let (rows, k) = int_at(s, j + 1).unwrap();
                let (cols, l) = int_at(s, k + 1).unwrap();
                Some(
                    (
                        types::matrix_type(
                            Matrix {
                                column_type: Vector { component_type: nk, component_count: rows },
                                column_count: cols,
                            },
                        ),
                        l,
                    ),
                )
            } else {
                Some((types::number_type(nk), j))
            }
        },
    }
}

/// A type token at `i`: a type not followed by an identifier character.
pub open spec fn type_at(s: Seq<char>, i: nat) -> Option<(TypeView, nat)> {
    match type_shape_at(s, i) {
        Some((t, j)) => if ident_at(s, j) is Some {
            None
        } else {
            Some((t, j))
        },
        None => None,
    }
}

/// The token an identifier stands for: a keyword or itself.
pub open spec fn keyword_or_ident(name: Seq<char>) -> TokenView {
    if name == seq!['f', 'n'] {
        TokenView::Keyword(Keyword::Function)
    } else if name == seq!['l', 'e', 't'] {
        TokenView::Keyword(Keyword::Let)
    } else if name == seq!['i', 'f'] {
        TokenView::Keyword(Keyword::If)
    } else if name == seq!['e', 'l', 's', 'e'] {
        TokenView::Keyword(Keyword::Else)
    } else if name == seq!['t', 'r', 'u', 'e'] {
        TokenView::Keyword(Keyword::True)
    } else if name == seq!['f', 'a', 'l', 's', 'e'] {
        TokenView::Keyword(Keyword::False)
    } else {
        TokenView::Ident(name)
    }
}

/// A radix prefix (`16x`, with optional leading zeroes) at `i`: its value and
/// its end.  Radixes outside 2 to 16 are refused.
pub open spec fn radix_prefix_at(s: Seq<char>, i: nat) -> Option<(nat, nat)> {
    let z = run_end(s, i, '0');
    let d = decimal_end(s, z);
    if d > z && d < s.len() && s[d as int] == 'x' {
        Some((decimal_value(s, z as int, d as int), d + 1))
    } else {
        None
    }
}

/// The digits (in `radix`) and underscores from `i` on: the digits and the end.
pub open spec fn digits_run(s: Seq<char>, i: nat, radix: nat) -> (Seq<u32>, nat)
    decreases s.len() - i,
{
    if i < s.len() && s[i as int] == '_' {
        digits_run(s, i + 1, radix)
    } else if i < s.len() && text::digit_in_radix(s[i as int], radix) {
        let (rest, j) = digits_run(s, i + 1, radix);
        (seq![text::digit_value(s[i as int]) as u32] + rest, j)
    } else {
        (Seq::empty(), i)
    }
}

/// The radix at `i`: a valid prefix, or `default` when there is none;
/// `None` when a prefix is there but out of range.
pub open spec fn radix_at(s: Seq<char>, i: nat, default: nat) -> Option<(nat, nat)> {
    match radix_prefix_at(s, i) {
        Some((r, j)) => if 2 <= r <= 16 {
            Some((r, j))
        } else {
            None
        },
        None => Some((default, i)),
    }
}

/// A run of at least one digit or underscore in `radix` at `i`.
pub open spec fn digit_group_at(s: Seq<char>, i: nat, radix: nat) -> Option<(Seq<u32>, nat)> {
    let (ds, j) = digits_run(s, i, radix);
    if j > i {
        Some((ds, j))
    } else {
        None
    }
}

/// A number literal at `i`.
pub open spec fn number_at(s: Seq<char>, i: nat) -> Option<(NumberView, nat)> {
    match radix_at(s, i, 10) {
        None => None,
        Some((rw, a)) => match digit_group_at(s, a, rw) {
            None => None,
            Some((whole, b)) => if b < s.len() && s[b as int] == '.' {
                match radix_at(s, b + 1, rw) {
                    None => None,
                    Some((rf, c)) => match digit_group_at(s, c, rf) {
                        None => None,
                        Some((frac, d)) => Some(
                            number_with_kind(s, NumberValueView::Float(rw, whole, rf, frac), d),
                        ),
                    },
                }
            } else {
                Some(number_with_kind(s, NumberValueView::Int(rw, whole), b))
            },
        },
    }
}

/// A number value followed at `i` by an optional kind suffix.
pub open spec fn number_with_kind(s: Seq<char>, value: NumberValueView, i: nat) -> (NumberView, nat) {
    match number_kind_at(s, i) {
        Some((k, j)) => (NumberView { value, kind: Some(k) }, j),
        None => (NumberView { value, kind: None }, i),
    }
}

/// A symbol at `i`.
pub open spec fn symbol_at(s: Seq<char>, i: nat) -> Option<Symbol> {
    if i >= s.len() {
        None
    } else if s[i as int] == '=' {
        Some(Symbol::Equals)
    } else if s[i as int] == ',' {
        Some(Symbol::Comma)
    } else if s[i as int] == ';' {
        Some(Symbol::Semicolon)
    } else if s[i as int] == ':' {
        Some(Symbol::Colon)
    } else {
        None
    }
}

/// One token starting exactly at `i`: the token and its end.
pub open spec fn token_at(s: Seq<char>, i: nat) -> Option<(TokenView, nat)>
    decreases s.len() - i, 0int,
{
    if i >= s.len() {
        None
    } else if op_symbol_at(s, i) is Some {
        let (op, j) = op_symbol_at(s, i).unwrap();
        let k = run_end(s, j, '^');
        Some((TokenView::Op(op, (k - j) as nat), k))
    } else if type_at(s, i) is Some {
        let (t, j) = type_at(s, i).unwrap();
        Some((TokenView::Type(t), j))
    } else if ident_at(s, i) is Some {
        let j = ident_at(s, i).unwrap();
        Some((keyword_or_ident(s.subrange(i as int, j as int)), j))
    } else if s[i as int] == '$' && ident_at(s, i + 1) is Some {
        let j = ident_at(s, i + 1).unwrap();
        Some((TokenView::DollarIdent(s.subrange((i + 1) as int, j as int)), j))
    } else if number_at(s, i) is Some {
        let (n, j) = number_at(s, i).unwrap();
        Some((TokenView::Number(n), j))
    } else if s[i as int] == '(' || s[i as int] == '{' {
        let close = if s[i as int] == '(' {
            ')'
        } else {
            '}'
        };
        let a = ws_end(s, i + 1);
        if i < a <= s.len() {
            let (toks, b) = tokens_at(s, a);
            if a <= b < s.len() && s[b as int] == close {
                if s[i as int] == '(' {
                    Some((TokenView::Parens(toks), b + 1))
                } else {
                    Some((TokenView::Braces(toks), b + 1))
                }
            } else {
                None
            }
        } else {
            None
        }
    } else if symbol_at(s, i) is Some {
        Some((TokenView::Symbol(symbol_at(s, i).unwrap()), i + 1))
    } else {
        None
    }
}

/// As many comments and tokens (each with the whitespace around it) as follow
/// `i`: the tokens with their spans, and the position after the last.
pub open spec fn tokens_at(s: Seq<char>, i: nat) -> (Seq<SpannedTokenView>, nat)
    decreases s.len() - i, 1int,
{
    if i > s.len() {
        (Seq::empty(), i)
    } else {
        match comment_at(s, i) {
            Some(e) => if i < e <= s.len() {
                tokens_at(s, e)
            } else {
                (Seq::empty(), i)
            },
            None => {
                let a = ws_end(s, i);
                if i <= a <= s.len() {
                    match token_at(s, a) {
                        Some((t, b)) => {
                            let c = ws_end(s, b);
                            if i < c <= s.len() {
                                let (rest, d) = tokens_at(s, c);
                                (seq![SpannedTokenView { token: t, start: a, end: b }] + rest, d)
                            } else {
                                (Seq::empty(), i)
                            }
                        },
                        None => (Seq::empty(), i),
                    }
                } else {
                    (Seq::empty(), i)
                }
            },
        }
    }
}

/// What lexing all of `s` gives: the tokens, when they cover all of it.
pub open spec fn lex(s: Seq<char>) -> Option<Seq<SpannedTokenView>> {
    let (toks, e) = tokens_at(s, 0);
    if e == s.len() {
        Some(toks)
    } else {
        None
    }
}


// ---------------------------------------------------------------------------
// The lexer itself.
// ---------------------------------------------------------------------------

fn ws_end_exec(s: &Vec<char>, i: usize) -> (r: usize)
    requires
        i <= s@.len(),
    ensures
        r == ws_end(s@, i as nat),
        i <= r <= s@.len(),
{
    let mut j = i;
    while j < s.len() && text::is_whitespace(s[j])
        invariant
            i <= j <= s@.len(),
            ws_end(s@, j as nat) == ws_end(s@, i as nat),
        decreases s@.len() - j,
    {
        j += 1;
    }
    j
}

fn ident_continue_end_exec(s: &Vec<char>, i: usize) -> (r: usize)
    requires
        i <= s@.len(),
    ensures
        r == ident_continue_end(s@, i as nat),
        i <= r <= s@.len(),
{
    let mut j = i;
    while j < s.len() && text::is_ident_continue(s[j])
        invariant
            i <= j <= s@.len(),
            ident_continue_end(s@, j as nat) == ident_continue_end(s@, i as nat),
        decreases s@.len() - j,
    {
        j += 1;
    }
    j
}

fn ident_at_exec(s: &Vec<char>, i: usize) -> (r: Option<usize>)
    requires
        i <= s@.len(),
    ensures
        r matches Some(j) ==> ident_at(s@, i as nat) == Some(j as nat) && i < j <= s@.len(),
        r is None ==> ident_at(s@, i as nat) is None,
{
    if i < s.len() && text::is_ident_start(s[i]) {
        Some(ident_continue_end_exec(s, i + 1))
    } else {
        None
    }
}

fn run_end_exec(s: &Vec<char>, i: usize, c: char) -> (r: usize)
    requires
        i <= s@.len(),
    ensures
        r == run_end(s@, i as nat, c),
        i <= r <= s@.len(),
{
    let mut j = i;
    while j < s.len() && s[j] == c
        invariant
            i <= j <= s@.len(),
            run_end(s@, j as nat, c) == run_end(s@, i as nat, c),
        decreases s@.len() - j,
    {
        j += 1;
    }
    j
}

fn decimal_end_exec(s: &Vec<char>, i: usize) -> (r: usize)
    requires
        i <= s@.len(),
    ensures
        r == decimal_end(s@, i as nat),
        i <= r <= s@.len(),
{
    let mut j = i;
    while j < s.len() && text::is_decimal_digit(s[j])
        invariant
            i <= j <= s@.len(),
            decimal_end(s@, j as nat) == decimal_end(s@, i as nat),
        decreases s@.len() - j,
    {
        j += 1;
    }
    j
}

fn line_end_exec(s: &Vec<char>, i: usize) -> (r: usize)
    requires
        i <= s@.len(),
    ensures
        r == line_end(s@, i as nat),
        i <= r <= s@.len(),
{
    let mut j = i;
    while j < s.len() && s[j] != '\n'
        invariant
            i <= j <= s@.len(),
            line_end(s@, j as nat) == line_end(s@, i as nat),
        decreases s@.len() - j,
    {
        j += 1;
    }
    j
}

proof fn lemma_decimal_value_monotone(s: Seq<char>, i: int, j: int, k: int)
    requires
        i <= j <= k,
    ensures
        decimal_value(s, i, j) <= decimal_value(s, i, k),
    decreases k - j,
{
    if j < k {
        lemma_decimal_value_monotone(s, i, j, k - 1);
    }
}

/// The value of the decimal digits `s[i..j]` when it fits in `u32`.
fn decimal_value_exec(s: &Vec<char>, i: usize, j: usize) -> (r: Option<u32>)
    requires
        i <= j <= s@.len(),
    ensures
        r matches Some(v) ==> v == decimal_value(s@, i as int, j as int),
        r is None ==> decimal_value(s@, i as int, j as int) > u32::MAX,
{
    let mut v: u64 = 0;
    let mut k = i;
    while k < j
        invariant
            i <= k <= j <= s@.len(),
            v == decimal_value(s@, i as int, k as int),
            v <= u32::MAX,
        decreases j - k,
    {
        let d = text::digit_of(s[k]);
        if d > 36 {
            return None;
        }
        let next = v * 10 + d as u64;
        assert(next == decimal_value(s@, i as int, (k + 1) as int));
        if next > 0xffff_ffff {
            proof {
                lemma_decimal_value_monotone(s@, i as int, (k + 1) as int, j as int);
            }
            return None;
        }
        v = next;
        k += 1;
    }
    Some(v as u32)
}

fn op_symbol_at_exec(s: &Vec<char>, i: usize) -> (r: Option<(Op, usize)>)
    requires
        i <= s@.len(),
    ensures
        r matches Some((op, j)) ==> op_symbol_at(s@, i as nat) == Some((op, j as nat)) && i < j <= s@.len(),
        r is None ==> op_symbol_at(s@, i as nat) is None,
{
    let n = s.len();
    if i >= n {
        None
    } else if s[i] == '+' {
        Some((Op::Add, i + 1))
    } else if s[i] == '-' {
        Some((Op::Subtract, i + 1))
    } else if s[i] == '*' {
        if i + 1 < n && s[i + 1] == '.' {
            Some((Op::DotProduct, i + 2))
        } else if n - i > 2 && s[i + 1] == '>' && s[i + 2] == '<' {
            Some((Op::CrossProduct, i + 3))
        } else if i + 1 < n && s[i + 1] == '@' {
            Some((Op::MatrixMultiply, i + 2))
        } else {
            Some((Op::Multiply, i + 1))
        }
    } else if s[i] == '/' {
        Some((Op::Divide, i + 1))
    } else {
        None
    }
}

fn int_at_exec(s: &Vec<char>, i: usize) -> (r: Option<(u32, usize)>)
    requires
        i <= s@.len(),
    ensures
        r matches Some((v, j)) ==> int_at(s@, i as nat) == Some((v, j as nat)) && i < j <= s@.len(),
        r is None ==> int_at(s@, i as nat) is None,
{
    if i >= s.len() || !text::is_decimal_digit(s[i]) {
        return None;
    }
    let j = if s[i] == '0' {
        i + 1
    } else {
        decimal_end_exec(s, i + 1)
    };
    match decimal_value_exec(s, i, j) {
        Some(v) => Some((v, j)),
        None => None,
    }
}

fn number_kind_at_exec(s: &Vec<char>, i: usize) -> (r: Option<(NumberKind, usize)>)
    requires
        i <= s@.len(),
    ensures
        r matches Some((k, j)) ==> number_kind_at(s@, i as nat) == Some((k, j as nat)) && i < j <= s@.len(),
        r is None ==> number_kind_at(s@, i as nat) is None,
{
    if i >= s.len() {
        return None;
    }
    match int_at_exec(s, i + 1) {
        Some((w, j)) => if s[i] == 'u' {
            Some((NumberKind::Integer(Integer::Unsigned(w)), j))
        } else if s[i] == 'i' {
            Some((NumberKind::Integer(Integer::Signed(w)), j))
        } else if s[i] == 'r' {
            Some((NumberKind::Float(Float { width: w }), j))
        } else {
            None
        },
        None => None,
    }
}

fn type_shape_at_exec(s: &Vec<char>, i: usize) -> (r: Option<(Type, usize)>)
    requires
        i <= s@.len(),
    ensures
        r matches Some((t, j)) ==> type_shape_at(s@, i as nat) == Some((t@, j as nat)) && i < j <= s@.len(),
        r is None ==> type_shape_at(s@, i as nat) is None,
{
    let (nk, j) = match number_kind_at_exec(s, i) {
        None => return None,
        Some(x) => x,
    };
    if j < s.len() && s[j] == 'v' {
        match int_at_exec(s, j + 1) {
            Some((n, k)) => {
                return Some((types::vector(Vector { component_type: nk, component_count: n }), k));
            },
            None => {},
        }
    }
    if j < s.len() && s[j] == 'm' {
        match int_at_exec(s, j + 1) {
            Some((rows, k)) => if k < s.len() && s[k] == 'x' {
                match int_at_exec(s, k + 1) {
                    Some((cols, l)) => {
                        return Some(
                            (
                                types::matrix(
                                    Matrix {
                                        column_type: Vector { component_type: nk, component_count: rows },
                                        column_count: cols,
                                    },
                                ),
                                l,
                            ),
                        );
                    },
                    None => {},
                }
            },
            None => {},
        }
    }
    Some((types::number(nk), j))
}

fn type_at_exec(s: &Vec<char>, i: usize) -> (r: Option<(Type, usize)>)
    requires
        i <= s@.len(),
    ensures
        r matches Some((t, j)) ==> type_at(s@, i as nat) == Some((t@, j as nat)) && i < j <= s@.len(),
        r is None ==> type_at(s@, i as nat) is None,
{
    match type_shape_at_exec(s, i) {
        Some((t, j)) => match ident_at_exec(s, j) {
            Some(_) => None,
            None => Some((t, j)),
        },
        None => None,
    }
}

/// The first `n` of the five characters given.
pub open spec fn word(n: nat, w0: char, w1: char, w2: char, w3: char, w4: char) -> Seq<char> {
    seq![w0, w1, w2, w3, w4].take(n as int)
}

/// Whether `s[i..j]` spells the first `n` of the characters given.
fn spells(s: &Vec<char>, i: usize, j: usize, n: usize, w0: char, w1: char, w2: char, w3: char, w4: char) -> (r:
    bool)
    requires
        i <= j <= s@.len(),
        2 <= n <= 5,
    ensures
        r == (s@.subrange(i as int, j as int) == word(n as nat, w0, w1, w2, w3, w4)),
{
    let ghost w = word(n as nat, w0, w1, w2, w3, w4);
    let ghost sub = s@.subrange(i as int, j as int);
    if j - i != n {
        assert(sub.len() != w.len());
        return false;
    }
    let r = s[i] == w0 && s[i + 1] == w1 && (n < 3 || s[i + 2] == w2) && (n < 4 || s[i + 3] == w3) && (n < 5
        || s[i + 4] == w4);
    if r {
        assert(sub =~= w);
    } else {
        if s[i] != w0 {
            assert(sub[0] != w[0]);
        } else if s[i + 1] != w1 {
            assert(sub[1] != w[1]);
        } else if !(n < 3 || s[i + 2] == w2) {
            assert(sub[2] != w[2]);
        } else if !(n < 4 || s[i + 3] == w3) {
            assert(sub[3] != w[3]);
        } else {
            assert(sub[4] != w[4]);
        }
    }
    r
}

fn keyword_or_ident_exec(s: &Vec<char>, i: usize, j: usize) -> (r: Token)
    requires
        i <= j <= s@.len(),
    ensures
        r@ == keyword_or_ident(s@.subrange(i as int, j as int)),
{
    assert(word(2, 'f', 'n', ' ', ' ', ' ') =~= seq!['f', 'n']);
    assert(word(3, 'l', 'e', 't', ' ', ' ') =~= seq!['l', 'e', 't']);
    assert(word(2, 'i', 'f', ' ', ' ', ' ') =~= seq!['i', 'f']);
    assert(word(4, 'e', 'l', 's', 'e', ' ') =~= seq!['e', 'l', 's', 'e']);
    assert(word(4, 't', 'r', 'u', 'e', ' ') =~= seq!['t', 'r', 'u', 'e']);
    assert(word(5, 'f', 'a', 'l', 's', 'e') =~= seq!['f', 'a', 'l', 's', 'e']);
    if spells(s, i, j, 2, 'f', 'n', ' ', ' ', ' ') {
        Token::Keyword(Keyword::Function)
    } else if spells(s, i, j, 3, 'l', 'e', 't', ' ', ' ') {
        Token::Keyword(Keyword::Let)
    } else if spells(s, i, j, 2, 'i', 'f', ' ', ' ', ' ') {
        Token::Keyword(Keyword::If)
    } else if spells(s, i, j, 4, 'e', 'l', 's', 'e', ' ') {
        Token::Keyword(Keyword::Else)
    } else if spells(s, i, j, 4, 't', 'r', 'u', 'e', ' ') {
        Token::Keyword(Keyword::True)
    } else if spells(s, i, j, 5, 'f', 'a', 'l', 's', 'e') {
        Token::Keyword(Keyword::False)
    } else {
        Token::Ident(text::string_of_chars(s, i, j))
    }
}

fn radix_prefix_at_exec(s: &Vec<char>, i: usize) -> (r: Option<(Option<u32>, usize)>)
    requires
        i <= s@.len(),
    ensures
        r matches Some((v, j)) ==> radix_prefix_at(s@, i as nat) matches Some((rv, rj)) && rj == j && j
            <= s@.len() && i < j && (v matches Some(x) ==> x == rv) && (v is None ==> rv > u32::MAX),
        r is None ==> radix_prefix_at(s@, i as nat) is None,
{
    let z = run_end_exec(s, i, '0');
    let d = decimal_end_exec(s, z);
    if d > z && d < s.len() && s[d] == 'x' {
        Some((decimal_value_exec(s, z, d), d + 1))
    } else {
        None
    }
}

fn radix_at_exec(s: &Vec<char>, i: usize, default: u32) -> (r: Option<(u32, usize)>)
    requires
        i <= s@.len(),
    ensures
        r matches Some((v, j)) ==> radix_at(s@, i as nat, default as nat) == Some((v as nat, j as nat)) && i
            <= j <= s@.len(),
        r is None ==> radix_at(s@, i as nat, default as nat) is None,
{
    match radix_prefix_at_exec(s, i) {
        Some((v, j)) => match v {
            Some(x) => if 2 <= x && x <= 16 {
                Some((x, j))
            } else {
                None
            },
            None => None,
        },
        None => Some((default, i)),
    }
}

fn digit_group_at_exec(s: &Vec<char>, i: usize, radix: u32) -> (r: Option<(Vec<u32>, usize)>)
    requires
        i <= s@.len(),
    ensures
        r matches Some((ds, j)) ==> digit_group_at(s@, i as nat, radix as nat) == Some((ds@, j as nat)) && i
            < j <= s@.len(),
        r is None ==> digit_group_at(s@, i as nat, radix as nat) is None,
{
    let mut out: Vec<u32> = Vec::new();
    let mut j = i;
    while j < s.len()
        invariant
            i <= j <= s@.len(),
            ({
                let (rest, e) = digits_run(s@, j as nat, radix as nat);
                out@ + rest == digits_run(s@, i as nat, radix as nat).0 && e == digits_run(
                    s@,
                    i as nat,
                    radix as nat,
                ).1
            }),
        ensures
            digits_run(s@, j as nat, radix as nat) == (Seq::<u32>::empty(), j as nat),
            i <= j <= s@.len(),
            ({
                let (rest, e) = digits_run(s@, j as nat, radix as nat);
                out@ + rest == digits_run(s@, i as nat, radix as nat).0 && e == digits_run(
                    s@,
                    i as nat,
                    radix as nat,
                ).1
            }),
        decreases s@.len() - j,
    {
        let c = s[j];
        if c == '_' {
            j += 1;
        } else {
            let d = text::digit_of(c);
            if d < radix {
                let ghost old_out = out@;
                out.push(d);
                proof {
                    let (rest, e) = digits_run(s@, (j + 1) as nat, radix as nat);
                    assert(out@ + rest =~= old_out + (seq![d] + rest));
                }
                j += 1;
            } else {
                break;
            }
        }
    }
    proof {
        assert(out@ + Seq::<u32>::empty() =~= out@);
    }
    if j > i {
        Some((out, j))
    } else {
        None
    }
}

fn number_with_kind_exec(s: &Vec<char>, value: NumberValue, i: usize) -> (r: (Number, usize))
    requires
        i <= s@.len(),
    ensures
        ({
            let (n, j) = number_with_kind(s@, number_view(Number { value, kind: None }).value, i as nat);
            number_view(r.0) == n && r.1 == j
        }),
        i <= r.1 <= s@.len(),
{
    match number_kind_at_exec(s, i) {
        Some((k, j)) => (Number { value, kind: Some(k) }, j),
        None => (Number { value, kind: None }, i),
    }
}

fn number_at_exec(s: &Vec<char>, i: usize) -> (r: Option<(Number, usize)>)
    requires
        i <= s@.len(),
    ensures
        r matches Some((n, j)) ==> number_at(s@, i as nat) == Some((number_view(n), j as nat)) && i < j
            <= s@.len(),
        r is None ==> number_at(s@, i as nat) is None,
{
    let (rw, a) = match radix_at_exec(s, i, 10) {
        None => return None,
        Some(x) => x,
    };
    let (whole, b) = match digit_group_at_exec(s, a, rw) {
        None => return None,
        Some(x) => x,
    };
    if b < s.len() && s[b] == '.' {
        let (rf, c) = match radix_at_exec(s, b + 1, rw) {
            None => return None,
            Some(x) => x,
        };
        let (frac, d) = match digit_group_at_exec(s, c, rf) {
            None => return None,
            Some(x) => x,
        };
        let value = NumberValue::Float {
            whole: Digits { radix: rw, digits: whole },
            frac: Digits { radix: rf, digits: frac },
        };
        Some(number_with_kind_exec(s, value, d))
    } else {
        let value = NumberValue::Int(Digits { radix: rw, digits: whole });
        Some(number_with_kind_exec(s, value, b))
    }
}

fn symbol_at_exec(s: &Vec<char>, i: usize) -> (r: Option<Symbol>)
    requires
        i <= s@.len(),
    ensures
        r == symbol_at(s@, i as nat),
{
    if i >= s.len() {
        None
    } else if s[i] == '=' {
        Some(Symbol::Equals)
    } else if s[i] == ',' {
        Some(Symbol::Comma)
    } else if s[i] == ';' {
        Some(Symbol::Semicolon)
    } else if s[i] == ':' {
        Some(Symbol::Colon)
    } else {
        None
    }
}

fn comment_at_exec(s: &Vec<char>, i: usize) -> (r: Option<usize>)
    requires
        i <= s@.len(),
    ensures
        r matches Some(e) ==> comment_at(s@, i as nat) == Some(e as nat) && i < e <= s@.len(),
        r is None ==> comment_at(s@, i as nat) is None,
{
    let a = ws_end_exec(s, i);
    if a < s.len() && s.len() - a > 1 && s[a] == '$' && s[a + 1] == '.' {
        let b = line_end_exec(s, a + 2);
        Some(ws_end_exec(s, b))
    } else {
        None
    }
}

/// Lexes one token starting exactly at `i`.
fn token_at_exec(s: &Vec<char>, i: usize) -> (r: Option<(Token, usize)>)
    requires
        i <= s@.len(),
    ensures
        r matches Some((t, j)) ==> token_at(s@, i as nat) == Some((t@, j as nat)) && i < j <= s@.len(),
        r is None ==> token_at(s@, i as nat) is None,
    decreases s@.len() - i, 0int,
{
    if i >= s.len() {
        return None;
    }
    match op_symbol_at_exec(s, i) {
        Some((op, j)) => {
            let k = run_end_exec(s, j, '^');
            return Some((Token::Op { op, lifts: k - j }, k));
        },
        None => {},
    }
    match type_at_exec(s, i) {
        Some((t, j)) => {
            return Some((Token::Type(t), j));
        },
        None => {},
    }
    match ident_at_exec(s, i) {
        Some(j) => {
            return Some((keyword_or_ident_exec(s, i, j), j));
        },
        None => {},
    }
    if s[i] == '$' {
        match ident_at_exec(s, i + 1) {
            Some(j) => {
                return Some((Token::DollarIdent(text::string_of_chars(s, i + 1, j)), j));
            },
            None => {},
        }
    }
    match number_at_exec(s, i) {
        Some((n, j)) => {
            return Some((Token::Number(n), j));
        },
        None => {},
    }
    if s[i] == '(' || s[i] == '{' {
        let is_paren = s[i] == '(';
        let close = if is_paren {
            ')'
        } else {
            '}'
        };
        let a = ws_end_exec(s, i + 1);
        let (toks, b) = tokens_at_exec(s, a);
        if b < s.len() && s[b] == close {
            if is_paren {
                return Some((Token::Parens(toks), b + 1));
            } else {
                return Some((Token::Braces(toks), b + 1));
            }
        } else {
            return None;
        }
    }
    match symbol_at_exec(s, i) {
        Some(sym) => Some((Token::Symbol(sym), i + 1)),
        None => None,
    }
}

/// Lexes comments and tokens from `i` on, as far as they go.
fn tokens_at_exec(s: &Vec<char>, i: usize) -> (r: (Vec<Spanned<Token>>, usize))
    requires
        i <= s@.len(),
    ensures
        ({
            let (toks, e) = tokens_at(s@, i as nat);
            spanned_tokens_view(r.0@) == toks && r.1 == e
        }),
        i <= r.1 <= s@.len(),
    decreases s@.len() - i, 1int,
{
    let mut out: Vec<Spanned<Token>> = Vec::new();
    let mut cur = i;
    proof {
        assert(spanned_tokens_view(out@) =~= Seq::<SpannedTokenView>::empty());
    }
    loop
        invariant
            i <= cur <= s@.len(),
            ({
                let (rest, e) = tokens_at(s@, cur as nat);
                spanned_tokens_view(out@) + rest == tokens_at(s@, i as nat).0 && e == tokens_at(
                    s@,
                    i as nat,
                ).1
            }),
        decreases s@.len() - cur,
    {
        match comment_at_exec(s, cur) {
            Some(e) => {
                cur = e;
                continue ;
            },
            None => {},
        }
        let a = ws_end_exec(s, cur);
        match token_at_exec(s, a) {
            Some((t, b)) => {
                let c = ws_end_exec(s, b);
                let ghost old_out = out@;
                let ghost tv = SpannedTokenView { token: t@, start: a as nat, end: b as nat };
                let sp = Spanned { inner: t, span: Span { start: a, end: b } };
                assert(spanned_token_view(sp) == tv);
                out.push(sp);
                proof {
                    lemma_spanned_tokens_view(old_out);
                    lemma_spanned_tokens_view(out@);
                    assert(spanned_tokens_view(out@) =~= spanned_tokens_view(old_out).push(tv));
                    let (rest, e) = tokens_at(s@, c as nat);
                    assert(spanned_tokens_view(out@) + rest =~= spanned_tokens_view(old_out) + (seq![tv]
                        + rest));
                }
                cur = c;
            },
            None => {
                proof {
                    assert(spanned_tokens_view(out@) + Seq::<SpannedTokenView>::empty() =~= spanned_tokens_view(
                        out@,
                    ));
                }
                return (out, cur);
            },
        }
    }
}

/// The error the lexer gives: the position at which no comment or token
/// could be read.
#[derive(Debug, Clone, Copy, PartialEq, Eq, Structural)]
pub struct LexError {
    pub position: usize,
}

/// Lexes all of `src`; spans count characters.
pub fn lex_chars(src: &Vec<char>) -> (r: Result<Vec<Spanned<Token>>, LexError>)
    ensures
        match r {
            Ok(toks) => lex(src@) == Some(spanned_tokens_view(toks@)),
            Err(e) => lex(src@) is None && e.position == tokens_at(src@, 0).1,
        },
{
    let (toks, e) = tokens_at_exec(src, 0);
    if e == src.len() {
        Ok(toks)
    } else {
        Err(LexError { position: e })
    }
}

/// A copy of `d`.
pub fn copy_digits(d: &Digits) -> (r: Digits)
    ensures
        r.radix == d.radix,
        r.digits@ == d.digits@,
{
    let digits = d.digits.clone();
    assert(digits@ =~= d.digits@);
    Digits { radix: d.radix, digits }
}

/// A copy of `v`.
pub fn copy_number_value(v: &NumberValue) -> (r: NumberValue)
    ensures
        number_value_view(r) == number_value_view(*v),
{
    match v {
        NumberValue::Int(d) => NumberValue::Int(copy_digits(d)),
        NumberValue::Float { whole, frac } => NumberValue::Float {
            whole: copy_digits(whole),
            frac: copy_digits(frac),
        },
    }
}

/// The characters of `src`, in order.
pub fn source_chars(src: &str) -> (r: Vec<char>)
    ensures
        r@ == src@,
{
    broadcast use vstd::string::group_string_axioms;

    let mut v: Vec<char> = Vec::new();
    for c in it: src.chars()
        invariant
            v@ == it.seq().take(it.index()),
    {
        v.push(c);
    }
    v
}

/// Lexes all of `src`; spans, and the position of an error, count bytes of
/// its UTF-8 encoding.
pub fn lexer(src: &str) -> (r: Result<Vec<Spanned<Token>>, LexError>)
    ensures
        match r {
            Ok(toks) => lex(src@) is Some && spanned_tokens_view(toks@) == byte_spans(lex(src@)->0, src@),
            Err(e) => lex(src@) is None && e.position == byte_offset(src@, tokens_at(src@, 0).1),
        },
{
    let chars = source_chars(src);
    let offs = byte_offsets(src, &chars);
    match lex_chars(&chars) {
        Ok(toks) => {
            proof {
                law_lex_spans_within_source(chars@);
            }
            Ok(byte_tokens(toks, &offs, &chars))
        },
        Err(e) => {
            proof {
                lemma_tokens_at_spans(chars@, 0);
            }
            Err(LexError { position: offs[e.position] })
        },
    }
}

// ---------------------------------------------------------------------------
// Spans.
// ---------------------------------------------------------------------------

/// Every span lies within a source of `n` characters.
pub open spec fn spans_ok(ts: Seq<SpannedTokenView>, n: nat) -> bool
    decreases ts, 0int,
{
    if ts.len() == 0 {
        true
    } else {
        proof {
            assert(decreases_to!(ts => ts.drop_last()));
            assert(decreases_to!(ts => ts[ts.len() - 1]));
        }
        spans_ok(ts.drop_last(), n) && span_ok(ts.last(), n)
    }
}

/// The span, and those of a group's contents, lie within a source of `n`
/// characters.
pub open spec fn span_ok(t: SpannedTokenView, n: nat) -> bool
    decreases t, 1int,
{
    &&& t.start <= t.end <= n
    &&& match t.token {
        TokenView::Parens(inner) => spans_ok(inner, n),
        TokenView::Braces(inner) => spans_ok(inner, n),
        _ => true,
    }
}

pub proof fn lemma_spans_element(ts: Seq<SpannedTokenView>, n: nat, i: int)
    requires
        0 <= i < ts.len(),
        spans_ok(ts, n),
    ensures
        span_ok(ts[i], n),
    decreases ts.len(),
{
    if i < ts.len() - 1 {
        lemma_spans_element(ts.drop_last(), n, i);
    }
}

proof fn lemma_spans_concat(a: Seq<SpannedTokenView>, b: Seq<SpannedTokenView>, n: nat)
    ensures
        spans_ok(a + b, n) == (spans_ok(a, n) && spans_ok(b, n)),
    decreases b.len(),
{
    if b.len() == 0 {
        assert(a + b == a);
    } else {
        lemma_spans_concat(a, b.drop_last(), n);
        assert((a + b).drop_last() == a + b.drop_last());
        assert((a + b).last() == b.last());
    }
}

proof fn lemma_ws_end(s: Seq<char>, i: nat)
    ensures
        i <= ws_end(s, i),
        i <= s.len() ==> ws_end(s, i) <= s.len(),
    decreases s.len() - i,
{
    if i < s.len() && text::whitespace_char(s[i as int]) {
        lemma_ws_end(s, i + 1);
    }
}

proof fn lemma_ident_continue_end(s: Seq<char>, i: nat)
    ensures
        i <= ident_continue_end(s, i),
    decreases s.len() - i,
{
    if i < s.len() && text::ident_continue_char(s[i as int]) {
        lemma_ident_continue_end(s, i + 1);
    }
}

proof fn lemma_run_end(s: Seq<char>, i: nat, c: char)
    ensures
        i <= run_end(s, i, c),
    decreases s.len() - i,
{
    if i < s.len() && s[i as int] == c {
        lemma_run_end(s, i + 1, c);
    }
}

proof fn lemma_decimal_end(s: Seq<char>, i: nat)
    ensures
        i <= decimal_end(s, i),
    decreases s.len() - i,
{
    if i < s.len() && text::decimal_digit(s[i as int]) {
        lemma_decimal_end(s, i + 1);
    }
}

proof fn lemma_digits_run(s: Seq<char>, i: nat, radix: nat)
    ensures
        i <= digits_run(s, i, radix).1,
    decreases s.len() - i,
{
    if i < s.len() && s[i as int] == '_' {
        lemma_digits_run(s, i + 1, radix);
    } else if i < s.len() && text::digit_in_radix(s[i as int], radix) {
        lemma_digits_run(s, i + 1, radix);
    }
}

proof fn lemma_int_at(s: Seq<char>, i: nat)
    ensures
        int_at(s, i) matches Some((_, j)) ==> i < j,
{
    if i < s.len() && text::decimal_digit(s[i as int]) && s[i as int] != '0' {
        lemma_decimal_end(s, i + 1);
    }
}

proof fn lemma_number_kind_at(s: Seq<char>, i: nat)
    ensures
        number_kind_at(s, i) matches Some((_, j)) ==> i < j,
{
    lemma_int_at(s, i + 1);
}

proof fn lemma_type_at(s: Seq<char>, i: nat)
    ensures
        type_at(s, i) matches Some((_, j)) ==> i < j,
{
    lemma_number_kind_at(s, i);
    if let Some((nk, j)) = number_kind_at(s, i) {
        lemma_int_at(s, j + 1);
        if let Some((_, k)) = int_at(s, j + 1) {
            lemma_int_at(s, k + 1);
        }
    }
}

proof fn lemma_radix_at(s: Seq<char>, i: nat, default: nat)
    ensures
        radix_at(s, i, default) matches Some((_, j)) ==> i <= j,
{
    let z = run_end(s, i, '0');
    lemma_run_end(s, i, '0');
    lemma_decimal_end(s, z);
}

proof fn lemma_number_at(s: Seq<char>, i: nat)
    ensures
        number_at(s, i) matches Some((_, j)) ==> i <= j,
{
    lemma_radix_at(s, i, 10);
    if let Some((rw, a)) = radix_at(s, i, 10) {
        lemma_digits_run(s, a, rw);
        if let Some((whole, b)) = digit_group_at(s, a, rw) {
            lemma_radix_at(s, b + 1, rw);
            lemma_number_kind_at(s, b);
            if let Some((rf, c)) = radix_at(s, b + 1, rw) {
                lemma_digits_run(s, c, rf);
                if let Some((frac, d)) = digit_group_at(s, c, rf) {
                    lemma_number_kind_at(s, d);
                }
            }
        }
    }
}

proof fn lemma_token_at_spans(s: Seq<char>, i: nat)
    ensures
        token_at(s, i) matches Some((t, j)) ==> span_ok(SpannedTokenView { token: t, start: i, end: j }, j),
    decreases s.len() - i, 0int,
{
    if i < s.len() {
        if op_symbol_at(s, i) is Some {
            let (op, j) = op_symbol_at(s, i).unwrap();
            lemma_run_end(s, j, '^');
        } else if type_at(s, i) is Some {
            lemma_type_at(s, i);
        } else if ident_at(s, i) is Some {
            lemma_ident_continue_end(s, i + 1);
        } else if s[i as int] == '$' && ident_at(s, i + 1) is Some {
            lemma_ident_continue_end(s, i + 2);
        } else if number_at(s, i) is Some {
            lemma_number_at(s, i);
        } else if s[i as int] == '(' || s[i as int] == '{' {
            let a = ws_end(s, i + 1);
            lemma_ws_end(s, i + 1);
            if i < a <= s.len() {
                lemma_tokens_at_spans(s, a);
                let (toks, b) = tokens_at(s, a);
                lemma_spans_widen(toks, b, b + 1);
            }
        }
    }
}

/// Lexing from `i` stops at or after `i`, within the source, and every
/// token it gives, with those inside groups, lies between `i` and the stop.
pub proof fn lemma_tokens_at_spans(s: Seq<char>, i: nat)
    requires
        i <= s.len(),
    ensures
        i <= tokens_at(s, i).1 <= s.len(),
        spans_ok(tokens_at(s, i).0, tokens_at(s, i).1),
    decreases s.len() - i, 1int,
{
    match comment_at(s, i) {
        Some(e) => if i < e <= s.len() {
            lemma_tokens_at_spans(s, e);
        },
        None => {
            let a = ws_end(s, i);
            if i <= a <= s.len() {
                match token_at(s, a) {
                    Some((t, b)) => {
                        let c = ws_end(s, b);
                        if i < c <= s.len() {
                            lemma_token_at_spans(s, a);
                            lemma_ws_end(s, b);
                            lemma_tokens_at_spans(s, c);
                            let (rest, d) = tokens_at(s, c);
                            let tv = SpannedTokenView { token: t, start: a, end: b };
                            lemma_span_widen(tv, b, d);
                            lemma_spans_widen(rest, d, d);
                            lemma_spans_concat(seq![tv], rest, d);
                            assert(seq![tv].drop_last() =~= Seq::<SpannedTokenView>::empty());
                            assert(spans_ok(Seq::<SpannedTokenView>::empty(), d));
                            assert(seq![tv].last() == tv);
                            assert(spans_ok(seq![tv], d));
                            assert(tokens_at(s, i) == (seq![tv] + rest, d));
                        }
                    },
                    None => {},
                }
            }
        },
    }
}

proof fn lemma_span_widen(t: SpannedTokenView, n: nat, m: nat)
    requires
        span_ok(t, n),
        n <= m,
    ensures
        span_ok(t, m),
    decreases t, 1int,
{
    match t.token {
        TokenView::Parens(inner) => lemma_spans_widen(inner, n, m),
        TokenView::Braces(inner) => lemma_spans_widen(inner, n, m),
        _ => {},
    }
}

proof fn lemma_spans_widen(ts: Seq<SpannedTokenView>, n: nat, m: nat)
    requires
        spans_ok(ts, n),
        n <= m,
    ensures
        spans_ok(ts, m),
    decreases ts, 0int,
{
    if ts.len() > 0 {
        lemma_spans_widen(ts.drop_last(), n, m);
        lemma_span_widen(ts.last(), n, m);
    }
}

/// Every token the lexer gives, and every token inside a group, has a span
/// that lies within the source: its text can be cut out of the source.
pub proof fn law_lex_spans_within_source(s: Seq<char>)
    ensures
        lex(s) matches Some(ts) ==> spans_ok(ts, s.len()),
{
    lemma_tokens_at_spans(s, 0);
}

// ---------------------------------------------------------------------------
// Byte offsets.
// ---------------------------------------------------------------------------

/// The offset in bytes of character `i` of `s`, in its UTF-8 encoding.
pub open spec fn byte_offset(s: Seq<char>, i: nat) -> nat {
    vstd::utf8::encode_utf8(s.take(i as int)).len()
}

/// The tokens with their spans counted in bytes of `s` rather than in
/// characters, those of groups' contents too.
pub open spec fn byte_spans(ts: Seq<SpannedTokenView>, s: Seq<char>) -> Seq<SpannedTokenView>
    decreases ts, 0int,
{
    if ts.len() == 0 {
        Seq::empty()
    } else {
        proof {
            assert(decreases_to!(ts => ts.drop_last()));
            assert(decreases_to!(ts => ts[ts.len() - 1]));
        }
        byte_spans(ts.drop_last(), s).push(byte_span(ts.last(), s))
    }
}

pub open spec fn byte_span(t: SpannedTokenView, s: Seq<char>) -> SpannedTokenView
    decreases t, 1int,
{
    SpannedTokenView {
        token: match t.token {
            TokenView::Parens(inner) => TokenView::Parens(byte_spans(inner, s)),
            TokenView::Braces(inner) => TokenView::Braces(byte_spans(inner, s)),
            _ => t.token,
        },
        start: byte_offset(s, t.start),
        end: byte_offset(s, t.end),
    }
}

proof fn lemma_encode_push(a: Seq<char>, c: char)
    ensures
        vstd::utf8::encode_utf8(a.push(c)) == vstd::utf8::encode_utf8(a) + vstd::utf8::encode_scalar(c as u32),
    decreases a.len(),
{
    if a.len() == 0 {
        assert(a.push(c).drop_first() =~= Seq::<char>::empty());
        assert(vstd::utf8::encode_utf8(Seq::<char>::empty()) =~= Seq::<u8>::empty());
        assert(vstd::utf8::encode_utf8(a.push(c)) =~= vstd::utf8::encode_scalar(c as u32));
        assert(vstd::utf8::encode_utf8(a) + vstd::utf8::encode_scalar(c as u32) =~= vstd::utf8::encode_scalar(c as u32));
    } else {
        lemma_encode_push(a.drop_first(), c);
        assert(a.push(c).drop_first() =~= a.drop_first().push(c));
        assert(a.push(c)[0] == a[0]);
        let e0 = vstd::utf8::encode_scalar(a[0] as u32);
        assert(vstd::utf8::encode_utf8(a.push(c)) =~= e0 + (vstd::utf8::encode_utf8(a.drop_first())
            + vstd::utf8::encode_scalar(c as u32)));
    }
}

/// The number of bytes of `c` in UTF-8.
fn utf8_width(c: char) -> (r: usize)
    ensures
        r == vstd::utf8::encode_scalar(c as u32).len(),
        1 <= r <= 4,
{
    let v = c as u32;
    if v <= 0x7f {
        1
    } else if v <= 0x7ff {
        2
    } else if v <= 0xffff {
        3
    } else {
        4
    }
}

/// The byte offset of every character of `src`, and of its end.
fn byte_offsets(src: &str, s: &Vec<char>) -> (r: Vec<usize>)
    requires
        s@ == src@,
    ensures
        r@.len() == s@.len() + 1,
        forall|i: int| 0 <= i <= s@.len() ==> #[trigger] r@[i] == byte_offset(s@, i as nat),
{
    let total = src.as_bytes().len();
    assert(total == vstd::utf8::encode_utf8(s@).len());
    let mut r: Vec<usize> = Vec::new();
    let mut acc: usize = 0;
    let mut i: usize = 0;
    assert(s@.take(0) =~= Seq::<char>::empty());
    assert(vstd::utf8::encode_utf8(Seq::<char>::empty()) =~= Seq::<u8>::empty());
    r.push(0);
    while i < s.len()
        invariant
            i <= s@.len(),
            r@.len() == i + 1,
            acc == byte_offset(s@, i as nat),
            forall|k: int| 0 <= k <= i ==> #[trigger] r@[k] == byte_offset(s@, k as nat),
            total == vstd::utf8::encode_utf8(s@).len(),
            forall|j: nat| i <= j <= s@.len() ==> byte_offset(s@, i as nat) <= #[trigger] byte_offset(s@, j),
        decreases s@.len() - i,
    {
        let w = utf8_width(s[i]);
        proof {
            assert(s@.take(i + 1) =~= s@.take(i as int).push(s@[i as int]));
            lemma_encode_push(s@.take(i as int), s@[i as int]);
            assert(s@.take(s@.len() as int) =~= s@);
            lemma_byte_offset_mono(s@, (i + 1) as nat, s@.len());
        }
        acc = acc + w;
        r.push(acc);
        i = i + 1;
        proof {
            assert forall|j: nat| i <= j <= s@.len() implies byte_offset(s@, i as nat) <= #[trigger] byte_offset(s@, j) by {
                lemma_byte_offset_mono(s@, i as nat, j);
            }
        }
    }
    r
}

proof fn lemma_byte_offset_mono(s: Seq<char>, i: nat, j: nat)
    requires
        i <= j <= s.len(),
    ensures
        byte_offset(s, i) <= byte_offset(s, j),
    decreases j - i,
{
    if i < j {
        lemma_byte_offset_mono(s, i, (j - 1) as nat);
        assert(s.take(j as int) =~= s.take(j - 1).push(s[j - 1]));
        lemma_encode_push(s.take(j - 1), s[j - 1]);
    }
}

fn byte_token(t: Spanned<Token>, offs: &Vec<usize>, s: &Vec<char>) -> (r: Spanned<Token>)
    requires
        span_ok(spanned_token_view(t), s@.len()),
        offs@.len() == s@.len() + 1,
        forall|i: int| 0 <= i <= s@.len() ==> #[trigger] offs@[i] == byte_offset(s@, i as nat),
    ensures
        spanned_token_view(r) == byte_span(spanned_token_view(t), s@),
    decreases t, 1int,
{
    let Spanned { inner, span } = t;
    let span2 = Span { start: offs[span.start], end: offs[span.end] };
    let inner2 = match inner {
        Token::Parens(v) => {
            proof {
                assert(decreases_to!(t => t.inner));
                assert(decreases_to!(t.inner => v));
            }
            Token::Parens(byte_tokens(v, offs, s))
        },
        Token::Braces(v) => {
            proof {
                assert(decreases_to!(t => t.inner));
                assert(decreases_to!(t.inner => v));
            }
            Token::Braces(byte_tokens(v, offs, s))
        },
        other => other,
    };
    Spanned { inner: inner2, span: span2 }
}

fn byte_tokens(ts: Vec<Spanned<Token>>, offs: &Vec<usize>, s: &Vec<char>) -> (r: Vec<Spanned<Token>>)
    requires
        spans_ok(spanned_tokens_view(ts@), s@.len()),
        offs@.len() == s@.len() + 1,
        forall|i: int| 0 <= i <= s@.len() ==> #[trigger] offs@[i] == byte_offset(s@, i as nat),
    ensures
        spanned_tokens_view(r@) == byte_spans(spanned_tokens_view(ts@), s@),
    decreases ts, 0int,
{
    broadcast use vstd::std_specs::vec::axiom_spec_into_iter;

    let ghost orig = ts@;
    let ghost tv = spanned_tokens_view(orig);
    proof {
        lemma_spanned_tokens_view(orig);
        assert(tv.take(0) =~= Seq::<SpannedTokenView>::empty());
        assert(decreases_to!(ts => ts@));
    }
    let mut out: Vec<Spanned<Token>> = Vec::new();
    proof {
        lemma_spanned_tokens_view(out@);
        assert(spanned_tokens_view(out@) =~= Seq::<SpannedTokenView>::empty());
    }
    for x in it: ts.into_iter()
        invariant
            it.seq() == orig,
            tv == spanned_tokens_view(orig),
            tv.len() == orig.len(),
            forall|k: int| 0 <= k < orig.len() ==> #[trigger] tv[k] == spanned_token_view(orig[k]),
            spans_ok(tv, s@.len()),
            decreases_to!(ts => orig),
            offs@.len() == s@.len() + 1,
            forall|i: int| 0 <= i <= s@.len() ==> #[trigger] offs@[i] == byte_offset(s@, i as nat),
            spanned_tokens_view(out@) == byte_spans(tv.take(it.index()), s@),
    {
        let ghost i = it.index();
        proof {
            assert(decreases_to!(orig => orig[i]));
            lemma_spans_element(tv, s@.len(), i);
            assert(tv.take(i + 1).drop_last() =~= tv.take(i));
            assert(tv.take(i + 1).last() == tv[i]);
        }
        let y = byte_token(x, offs, s);
        proof {
            lemma_spanned_tokens_view(out@);
            lemma_spanned_tokens_view(out@.push(y));
            assert(spanned_tokens_view(out@.push(y)) =~= spanned_tokens_view(out@).push(spanned_token_view(y)));
        }
        out.push(y);
    }
    proof {
        assert(tv.take(orig.len() as int) =~= tv);
    }
    out
}


} // verus!
