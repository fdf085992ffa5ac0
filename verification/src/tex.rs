//! A LaTeX rendering of the compiler's data for debugging: syntax trees as
//! `forest` diagrams, optionally annotated with each expression's scope or
//! type, and token streams as `\LexerToken` macros.
use vstd::prelude::*;
use crate::types::{Type, TypeView, Concrete, Abstract, NumberKind, Integer};
use crate::ast::{Expr, ExprData, ExprView, ExprDataView, SidecarView, InfixOp, Function, FunctionView, File, expr_view};
use crate::lexer::{Digits, NumberValue, NumberValueView, Spanned, Token, TokenView, SpannedTokenView, spanned_tokens_view, spans_ok, span_ok, lemma_spans_element};
use crate::typing::{expr_size, exprs_size};
use num_bigint::{BigInt, BigUint, Sign};
use num_rational::BigRational;

verus! {

// ---------------------------------------------------------------------------
// Plain text.
// ---------------------------------------------------------------------------

/// Appends the characters of `s`.
pub fn push_str(out: &mut Vec<char>, s: &str)
    ensures
        final(out)@ == old(out)@ + s@,
{
    broadcast use vstd::string::group_string_axioms;

    let ghost start = out@;
    for c in it: s.chars()
        invariant
            out@ == start + it.seq().take(it.index()),
    {
        out.push(c);
    }
}

/// Appends the characters of `s`.
pub fn push_chars(out: &mut Vec<char>, s: &String)
    ensures
        final(out)@ == old(out)@ + s@,
{
    push_str(out, s.as_str());
}

/// The decimal digit `d`.
pub open spec fn digit_char(d: nat) -> char {
    ('0' as nat + d) as char
}

/// The decimal numeral of `n`, without leading zeroes.
pub open spec fn decimal_text(n: nat) -> Seq<char>
    decreases n,
{
    if n < 10 {
        seq![digit_char(n)]
    } else {
        decimal_text(n / 10).push(digit_char(n % 10))
    }
}

/// The value of a numeral made of decimal digits.
pub open spec fn decimal_value(s: Seq<char>) -> nat
    decreases s.len(),
{
    if s.len() == 0 {
        0
    } else {
        decimal_value(s.drop_last()) * 10 + (s.last() as nat - '0' as nat) as nat
    }
}

/// A numeral reads back as the number it was written for, and starts with a
/// nonzero digit unless the number is zero.
pub proof fn law_decimal_text_reads_back(n: nat)
    ensures
        decimal_value(decimal_text(n)) == n,
        decimal_text(n).len() >= 1,
        n > 0 ==> decimal_text(n)[0] != '0',
        forall|i: int| 0 <= i < decimal_text(n).len() ==> '0' <= #[trigger] decimal_text(n)[i] <= '9',
    decreases n,
{
    if n < 10 {
        assert(decimal_text(n).drop_last() =~= Seq::<char>::empty());
        assert(decimal_value(Seq::<char>::empty()) == 0);
        assert(digit_char(n) as nat == 48 + n);
        assert('0' as nat == 48);
    } else {
        law_decimal_text_reads_back(n / 10);
        let t = decimal_text(n);
        assert(t.drop_last() == decimal_text(n / 10));
        assert(digit_char(n % 10) as nat == 48 + n % 10);
        assert('0' as nat == 48);
        assert(t.last() == digit_char(n % 10));
        assert(decimal_value(t) == decimal_value(t.drop_last()) * 10 + (t.last() as nat - '0' as nat) as nat);
        assert forall|i: int| 0 <= i < t.len() implies '0' <= #[trigger] t[i] <= '9' by {
            if i < t.len() - 1 {
                assert(t[i] == decimal_text(n / 10)[i]);
            }
        }
    }
}

fn digit(d: u64) -> (c: char)
    requires
        d < 10,
    ensures
        c == digit_char(d as nat),
{
    ((48u8 + d as u8) as char)
}

/// Appends the decimal numeral of `n`.
pub fn push_decimal(out: &mut Vec<char>, n: u64)
    ensures
        final(out)@ == old(out)@ + decimal_text(n as nat),
    decreases n,
{
    if n >= 10 {
        push_decimal(out, n / 10);
    }
    out.push(digit(n % 10));
}

// ---------------------------------------------------------------------------
// Escaping.
// ---------------------------------------------------------------------------

/// The characters that TeX needs escaped.
pub open spec fn needs_escape(c: char) -> bool {
    c == '\\' || c == '$' || c == '{' || c == '}'
}

/// The text that stands for `c`.
pub open spec fn escape_char(c: char) -> Seq<char> {
    if needs_escape(c) {
        seq!['\\', c]
    } else {
        seq![c]
    }
}

/// `s` with a backslash before each of `\ $ { }`.
pub open spec fn escape_text(s: Seq<char>) -> Seq<char>
    decreases s.len(),
{
    if s.len() == 0 {
        Seq::empty()
    } else {
        escape_char(s[0]) + escape_text(s.subrange(1, s.len() as int))
    }
}

/// Reading TeX text back: a backslash stands for the character after it.
pub open spec fn unescape_text(s: Seq<char>) -> Seq<char>
    decreases s.len(),
{
    if s.len() == 0 {
        Seq::empty()
    } else if s[0] == '\\' && s.len() >= 2 {
        seq![s[1]] + unescape_text(s.subrange(2, s.len() as int))
    } else {
        seq![s[0]] + unescape_text(s.subrange(1, s.len() as int))
    }
}

proof fn lemma_escape_push(s: Seq<char>, c: char)
    ensures
        escape_text(s.push(c)) == escape_text(s) + escape_char(c),
    decreases s.len(),
{
    if s.len() == 0 {
        assert(s.push(c).subrange(1, 1) == Seq::<char>::empty());
        assert(s.push(c)[0] == c);
        assert(escape_text(s.push(c)) == escape_char(c) + escape_text(Seq::<char>::empty()));
        assert(escape_text(s) == Seq::<char>::empty());
        assert(escape_char(c) + Seq::<char>::empty() =~= Seq::<char>::empty() + escape_char(c));
    } else {
        let rest = s.subrange(1, s.len() as int);
        lemma_escape_push(rest, c);
        assert(s.push(c).subrange(1, s.len() as int + 1) == rest.push(c));
        assert(s.push(c)[0] == s[0]);
        assert(escape_text(s.push(c)) == escape_char(s[0]) + escape_text(rest.push(c)));
        assert(escape_text(s) == escape_char(s[0]) + escape_text(rest));
        assert(escape_char(s[0]) + (escape_text(rest) + escape_char(c)) =~= (escape_char(s[0]) + escape_text(rest)) + escape_char(c));
    }
}

/// Escaping is undone by reading back: every character of `s` comes back,
/// in order.
pub proof fn law_escape_reads_back(s: Seq<char>)
    ensures
        unescape_text(escape_text(s)) == s,
    decreases s.len(),
{
    if s.len() > 0 {
        let rest = s.subrange(1, s.len() as int);
        law_escape_reads_back(rest);
        let e = escape_text(s);
        let p = escape_char(s[0]);
        assert(e == p + escape_text(rest));
        if needs_escape(s[0]) {
            assert(e.subrange(2, e.len() as int) == escape_text(rest));
        } else {
            assert(e.subrange(1, e.len() as int) == escape_text(rest));
        }
        assert(s == seq![s[0]] + rest);
    }
}

/// Appends `txt` with `\ $ { }` escaped.
pub fn push_escaped(out: &mut Vec<char>, txt: &Vec<char>)
    ensures
        final(out)@ == old(out)@ + escape_text(txt@),
{
    let ghost start = out@;
    let mut i: usize = 0;
    while i < txt.len()
        invariant
            i <= txt@.len(),
            out@ == start + escape_text(txt@.take(i as int)),
        decreases txt@.len() - i,
    {
        let c = txt[i];
        if c == '\\' || c == '$' || c == '{' || c == '}' {
            out.push('\\');
        }
        out.push(c);
        proof {
            lemma_escape_push(txt@.take(i as int), c);
            assert(txt@.take(i + 1) == txt@.take(i as int).push(c));
        }
        i = i + 1;
    }
    proof {
        assert(txt@.take(txt@.len() as int) == txt@);
    }
}

/// `txt` with `\ $ { }` escaped.
pub fn escape_for_tex(txt: &str) -> (r: String)
    ensures
        r@ == escape_text(txt@),
{
    let chars = crate::lexer::source_chars(txt);
    let mut out: Vec<char> = Vec::new();
    push_escaped(&mut out, &chars);
    crate::text::string_of_chars(&out, 0, out.len())
}

/// Four spaces for each level.
pub open spec fn indent_text(n: nat) -> Seq<char>
    decreases n,
{
    if n == 0 {
        Seq::empty()
    } else {
        indent_text((n - 1) as nat) + seq![' ', ' ', ' ', ' ']
    }
}

/// Appends `n` levels of indentation.
pub fn indent(out: &mut Vec<char>, n: usize)
    ensures
        final(out)@ == old(out)@ + indent_text(n as nat),
{
    let ghost start = out@;
    let mut i: usize = 0;
    while i < n
        invariant
            i <= n,
            out@ == start + indent_text(i as nat),
        decreases n - i,
    {
        out.push(' ');
        out.push(' ');
        out.push(' ');
        out.push(' ');
        i = i + 1;
    }
}

// ---------------------------------------------------------------------------
// Types.
// ---------------------------------------------------------------------------

/// How an integer type is written: `u32`, `i8`.
pub open spec fn integer_text(i: Integer) -> Seq<char> {
    match i {
        Integer::Unsigned(w) => seq!['u'] + decimal_text(w as nat),
        Integer::Signed(w) => seq!['i'] + decimal_text(w as nat),
    }
}

/// How a scalar type is written: `u32`, `r64`.
pub open spec fn number_kind_text(k: NumberKind) -> Seq<char> {
    match k {
        NumberKind::Integer(i) => integer_text(i),
        NumberKind::Float(f) => seq!['r'] + decimal_text(f.width as nat),
    }
}

/// How a concrete type is written: `u32`, `r32v4`, `r32m3x4` (component,
/// rows, columns).
pub open spec fn concrete_text(c: Concrete) -> Seq<char> {
    match c {
        Concrete::Number(k) => number_kind_text(k),
        Concrete::Vector(v) => number_kind_text(v.component_type) + seq!['v'] + decimal_text(
            v.component_count as nat,
        ),
        Concrete::Matrix(m) => number_kind_text(m.column_type.component_type) + seq!['m']
            + decimal_text(m.column_type.component_count as nat) + seq!['x'] + decimal_text(
            m.column_count as nat,
        ),
    }
}

/// How a type is written.  A function type is `$fn(` then each argument
/// followed by `, `, then `): ` and the result; a pointer is `*` and its
/// target.
pub open spec fn type_text(t: TypeView) -> Seq<char>
    decreases t,
{
    match t {
        TypeView::Concrete(c) => concrete_text(c),
        TypeView::Abstract(Abstract::Void(_)) => "void"@,
        TypeView::Abstract(Abstract::Bool(_)) => "bool"@,
        TypeView::Function(args, result) => "$fn("@ + args_text(args) + "): "@ + type_text(*result),
        TypeView::Pointer(_, target) => "*"@ + type_text(*target),
    }
}

/// Each type followed by `, `.
pub open spec fn args_text(s: Seq<TypeView>) -> Seq<char>
    decreases s,
{
    if s.len() == 0 {
        Seq::empty()
    } else {
        proof {
            assert(decreases_to!(s => s.drop_last()));
            assert(decreases_to!(s => s[s.len() - 1]));
        }
        args_text(s.drop_last()) + type_text(s.last()) + ", "@
    }
}

// ---------------------------------------------------------------------------
// Written types read back.
// ---------------------------------------------------------------------------

proof fn lemma_decimal_end_over(s: Seq<char>, k: nat, e: nat)
    requires
        k <= e <= s.len(),
        forall|q: int| k <= q < e ==> crate::text::decimal_digit(#[trigger] s[q]),
        e == s.len() || !crate::text::decimal_digit(s[e as int]),
    ensures
        crate::lexer::decimal_end(s, k) == e,
    decreases e - k,
{
    if k < e {
        lemma_decimal_end_over(s, k + 1, e);
    }
}

proof fn lemma_decimal_value_of_text(s: Seq<char>, i: nat, n: nat, k: nat)
    requires
        i + decimal_text(n).len() <= s.len(),
        s.subrange(i as int, (i + decimal_text(n).len()) as int) == decimal_text(n),
        k <= decimal_text(n).len(),
    ensures
        crate::lexer::decimal_value(s, i as int, (i + k) as int) == decimal_value(decimal_text(n).take(k as int)),
    decreases k,
{
    law_decimal_text_reads_back(n);
    let t = decimal_text(n);
    if k == 0 {
        assert(t.take(0) =~= Seq::<char>::empty());
    } else {
        lemma_decimal_value_of_text(s, i, n, (k - 1) as nat);
        assert(t.take(k as int).drop_last() =~= t.take(k - 1));
        assert(t.take(k as int).last() == t[k - 1]);
        assert(s[i + k - 1] == s.subrange(i as int, (i + t.len()) as int)[k - 1]);
        assert('0' <= t[k - 1] <= '9');
    }
}

/// A numeral written at `i` and not followed by a digit reads as its number.
proof fn lemma_int_at_text(s: Seq<char>, i: nat, n: u32)
    requires
        i + decimal_text(n as nat).len() <= s.len(),
        s.subrange(i as int, (i + decimal_text(n as nat).len()) as int) == decimal_text(n as nat),
        i + decimal_text(n as nat).len() == s.len() || !crate::text::decimal_digit(
            s[(i + decimal_text(n as nat).len()) as int],
        ),
    ensures
        crate::lexer::int_at(s, i) == Some((n, i + decimal_text(n as nat).len())),
{
    let t = decimal_text(n as nat);
    let e = i + t.len();
    law_decimal_text_reads_back(n as nat);
    assert forall|q: int| i <= q < e implies crate::text::decimal_digit(#[trigger] s[q]) by {
        assert(s[q] == s.subrange(i as int, e as int)[q - i]);
        assert('0' <= t[q - i] <= '9');
    }
    assert(s[i as int] == t[0]) by {
        assert(s[i as int] == s.subrange(i as int, e as int)[0]);
    }
    if n == 0 {
        assert(digit_char(0) == '0');
        assert(t.len() == 1);
    } else {
        lemma_decimal_end_over(s, i + 1, e);
    }
    lemma_decimal_value_of_text(s, i, n as nat, t.len());
    assert(t.take(t.len() as int) =~= t);
}

/// A written number kind at the start of `s`, not followed by a digit,
/// reads as that kind.
proof fn lemma_number_kind_at_text(s: Seq<char>, k: NumberKind)
    requires
        number_kind_text(k).len() <= s.len(),
        s.subrange(0, number_kind_text(k).len() as int) == number_kind_text(k),
        number_kind_text(k).len() == s.len() || !crate::text::decimal_digit(s[number_kind_text(k).len() as int]),
    ensures
        crate::lexer::number_kind_at(s, 0) == Some((k, number_kind_text(k).len())),
        s[0] == 'u' || s[0] == 'i' || s[0] == 'r',
{
    let t = number_kind_text(k);
    let (c, w) = match k {
        NumberKind::Integer(Integer::Unsigned(w)) => ('u', w),
        NumberKind::Integer(Integer::Signed(w)) => ('i', w),
        NumberKind::Float(f) => ('r', f.width),
    };
    assert(t == seq![c] + decimal_text(w as nat));
    assert(s[0] == t[0]) by {
        assert(s[0] == s.subrange(0, t.len() as int)[0]);
    }
    assert(s.subrange(1, (1 + decimal_text(w as nat).len()) as int) =~= decimal_text(w as nat)) by {
        assert forall|q: int| 0 <= q < decimal_text(w as nat).len() implies s.subrange(
            1,
            (1 + decimal_text(w as nat).len()) as int,
        )[q] == decimal_text(w as nat)[q] by {
            assert(s[1 + q] == s.subrange(0, t.len() as int)[1 + q]);
            assert(t[1 + q] == decimal_text(w as nat)[q]);
        }
    }
    lemma_int_at_text(s, 1, w);
}

/// The text written for a concrete type reads back, on its own, as that
/// type's token: `u32` as the type `u32`, `i32v4` as a vector of four `i32`,
/// `r32m12x34` as a matrix of 34 columns of 12 `r32` each.
pub proof fn law_concrete_type_lexes_back(c: Concrete)
    ensures
        crate::lexer::lex(concrete_text(c)) == Some(
            seq![
                SpannedTokenView {
                    token: TokenView::Type(TypeView::Concrete(c)),
                    start: 0,
                    end: concrete_text(c).len(),
                },
            ],
        ),
{
    let s = concrete_text(c);
    let n = s.len();
    match c {
        Concrete::Number(k) => {
            assert(s.subrange(0, number_kind_text(k).len() as int) =~= number_kind_text(k));
            lemma_number_kind_at_text(s, k);
        },
        Concrete::Vector(v) => {
            let t = number_kind_text(v.component_type);
            let d = decimal_text(v.component_count as nat);
            assert(s == t + seq!['v'] + d);
            assert(s.subrange(0, t.len() as int) =~= t);
            assert(s[t.len() as int] == 'v');
            lemma_number_kind_at_text(s, v.component_type);
            assert(s.subrange((t.len() + 1) as int, (t.len() + 1 + d.len()) as int) =~= d);
            lemma_int_at_text(s, (t.len() + 1) as nat, v.component_count);
        },
        Concrete::Matrix(m) => {
            let t = number_kind_text(m.column_type.component_type);
            let d1 = decimal_text(m.column_type.component_count as nat);
            let d2 = decimal_text(m.column_count as nat);
            assert(s == t + seq!['m'] + d1 + seq!['x'] + d2);
            assert(s.subrange(0, t.len() as int) =~= t);
            assert(s[t.len() as int] == 'm');
            lemma_number_kind_at_text(s, m.column_type.component_type);
            assert(s.subrange((t.len() + 1) as int, (t.len() + 1 + d1.len()) as int) =~= d1);
            assert(s[(t.len() + 1 + d1.len()) as int] == 'x');
            lemma_int_at_text(s, (t.len() + 1) as nat, m.column_type.component_count);
            assert(s.subrange((t.len() + 2 + d1.len()) as int, (t.len() + 2 + d1.len() + d2.len()) as int) =~= d2);
            lemma_int_at_text(s, (t.len() + 2 + d1.len()) as nat, m.column_count);
        },
    }
    let ty = TypeView::Concrete(c);
    assert(crate::lexer::type_shape_at(s, 0) == Some((ty, n)));
    assert(crate::lexer::type_at(s, 0) == Some((ty, n)));
    lemma_single_type_token(s, ty);
}

proof fn lemma_single_type_token(s: Seq<char>, ty: TypeView)
    requires
        s.len() > 0,
        s[0] == 'u' || s[0] == 'i' || s[0] == 'r',
        crate::lexer::type_at(s, 0) == Some((ty, s.len())),
    ensures
        crate::lexer::lex(s) == Some(seq![SpannedTokenView { token: TokenView::Type(ty), start: 0, end: s.len() }]),
{
    let n = s.len();
    assert(crate::lexer::ws_end(s, n) == n);
    assert(crate::lexer::comment_at(s, n) is None);
    assert(crate::lexer::token_at(s, n) is None);
    assert(crate::lexer::tokens_at(s, n) == (Seq::<SpannedTokenView>::empty(), n));
    assert(!crate::text::whitespace_char(s[0]));
    assert(crate::lexer::ws_end(s, 0) == 0);
    assert(crate::lexer::comment_at(s, 0) is None);
    assert(crate::lexer::op_symbol_at(s, 0) is None);
    assert(crate::lexer::token_at(s, 0) == Some((TokenView::Type(ty), n)));
    let x = SpannedTokenView { token: TokenView::Type(ty), start: 0, end: n };
    assert(seq![x] + Seq::<SpannedTokenView>::empty() =~= seq![x]);
    assert(crate::lexer::tokens_at(s, 0) == (seq![x], n));
}

fn push_integer(out: &mut Vec<char>, i: Integer)
    ensures
        final(out)@ == old(out)@ + integer_text(i),
{
    match i {
        Integer::Unsigned(w) => {
            out.push('u');
            push_decimal(out, w as u64);
        },
        Integer::Signed(w) => {
            out.push('i');
            push_decimal(out, w as u64);
        },
    }
    proof {
        assert(final(out)@ =~= old(out)@ + integer_text(i));
    }
}

fn push_number_kind(out: &mut Vec<char>, k: NumberKind)
    ensures
        final(out)@ == old(out)@ + number_kind_text(k),
{
    match k {
        NumberKind::Integer(i) => push_integer(out, i),
        NumberKind::Float(f) => {
            out.push('r');
            push_decimal(out, f.width as u64);
            proof {
                assert(final(out)@ =~= old(out)@ + number_kind_text(k));
            }
        },
    }
}

fn push_concrete(out: &mut Vec<char>, c: Concrete)
    ensures
        final(out)@ == old(out)@ + concrete_text(c),
{
    match c {
        Concrete::Number(k) => push_number_kind(out, k),
        Concrete::Vector(v) => {
            push_number_kind(out, v.component_type);
            out.push('v');
            push_decimal(out, v.component_count as u64);
        },
        Concrete::Matrix(m) => {
            push_number_kind(out, m.column_type.component_type);
            out.push('m');
            push_decimal(out, m.column_type.component_count as u64);
            out.push('x');
            push_decimal(out, m.column_count as u64);
        },
    }
    proof {
        assert(final(out)@ =~= old(out)@ + concrete_text(c));
    }
}

/// Appends how `t` is written.
pub fn push_type(out: &mut Vec<char>, t: &Type)
    ensures
        final(out)@ == old(out)@ + type_text(t@),
    decreases t,
{
    match t {
        Type::Concrete(c) => push_concrete(out, *c),
        Type::Abstract(Abstract::Void(_)) => push_str(out, "void"),
        Type::Abstract(Abstract::Bool(_)) => push_str(out, "bool"),
        Type::Pointer(p) => {
            push_str(out, "*");
            proof {
                assert(decreases_to!(*t => *p));
            }
            push_type(out, &p.target);
            proof {
                assert(final(out)@ =~= old(out)@ + type_text(t@));
            }
        },
        Type::Function(f) => {
            let ghost start = out@;
            proof {
                assert(decreases_to!(*t => *f));
                assert(decreases_to!(*f => f.args));
                assert(decreases_to!(f.args => f.args@));
                assert(decreases_to!(*t => f.args@));
            }
            push_str(out, "$fn(");
            let n = f.args.len();
            let mut i: usize = 0;
            proof {
                crate::types::lemma_types_view(f.args@);
                assert(crate::types::types_view(f.args@).take(0) =~= Seq::<TypeView>::empty());
            }
            while i < n
                invariant
                    *t == Type::Function(*f),
                    decreases_to!(*t => f.args@),
                    n == f.args@.len(),
                    i <= n,
                    crate::types::types_view(f.args@).len() == n,
                    forall|k: int| 0 <= k < n ==> #[trigger] crate::types::types_view(f.args@)[k] == f.args@[k]@,
                    out@ == start + "$fn("@ + args_text(crate::types::types_view(f.args@).take(i as int)),
                decreases n - i,
            {
                proof {
                    assert(decreases_to!(f.args@ => f.args@[i as int]));
                }
                push_type(out, &f.args[i]);
                push_str(out, ", ");
                proof {
                    let tv = crate::types::types_view(f.args@);
                    assert(tv.take(i + 1).drop_last() == tv.take(i as int));
                    assert(tv.take(i + 1).last() == f.args@[i as int]@);
                    assert(out@ =~= start + "$fn("@ + args_text(tv.take(i + 1)));
                }
                i = i + 1;
            }
            push_str(out, "): ");
            push_type(out, &f.result);
            proof {
                let tv = crate::types::types_view(f.args@);
                assert(tv.take(n as int) == tv);
                assert(t@ == TypeView::Function(tv, Box::new(f.result@)));
                assert(final(out)@ =~= old(out)@ + type_text(t@));
            }
        },
    }
}

// ---------------------------------------------------------------------------
// Number literals.
// ---------------------------------------------------------------------------

/// The value of digits in `radix`, most significant first.
pub open spec fn digits_value(ds: Seq<u8>, radix: nat) -> nat
    decreases ds.len(),
{
    if ds.len() == 0 {
        0
    } else {
        digits_value(ds.drop_last(), radix) * radix + ds.last() as nat
    }
}

/// Digits as bytes.
pub open spec fn bytes_of(ds: Seq<u32>) -> Seq<u8> {
    ds.map_values(|d: u32| d as u8)
}

/// Digits as the lexer makes them: a radix from 2 to 16, each digit below it.
pub open spec fn valid_digits(radix: nat, ds: Seq<u32>) -> bool {
    &&& 2 <= radix <= 16
    &&& forall|i: int| 0 <= i < ds.len() ==> #[trigger] ds[i] < radix
}

/// The greatest common divisor of `a` and `b`, by Euclid's algorithm.
pub open spec fn gcd(a: nat, b: nat) -> nat
    decreases b,
{
    if b == 0 {
        a
    } else {
        gcd(b, a % b)
    }
}

/// How a fraction is displayed: `a`, or `a/b` when `b` is not 1.
pub open spec fn fraction_text(a: nat, b: nat) -> Seq<char> {
    if b == 1 {
        decimal_text(a)
    } else {
        decimal_text(a) + seq!['/'] + decimal_text(b)
    }
}

/// The numerator of the value of a fractional literal, whole digits `w` in
/// radix `rw` and fraction digits `f` in radix `rf`: `w * rf^n + f`, over
/// the denominator `rf^n`, `n` being the number of fraction digits.
pub open spec fn fraction_numerator(rw: nat, w: Seq<u8>, rf: nat, f: Seq<u8>) -> nat {
    digits_value(w, rw) * (vstd::arithmetic::power::pow(rf as int, f.len()) as nat) + digits_value(f, rf)
}

/// The denominator of the value of a fractional literal with `n` fraction
/// digits in radix `rf`.
pub open spec fn fraction_denominator(rf: nat, n: nat) -> nat {
    vstd::arithmetic::power::pow(rf as int, n) as nat
}

/// How the value `num / den` is displayed: in lowest terms.
pub open spec fn reduced_fraction_text(num: nat, den: nat) -> Seq<char> {
    fraction_text(num / gcd(num, den), den / gcd(num, den))
}

/// Every digit is below `radix`.
pub open spec fn digits_below(ds: Seq<u8>, radix: nat) -> bool {
    forall|i: int| 0 <= i < ds.len() ==> #[trigger] ds[i] < radix
}

/// Builds the number with `num_bigint::BigUint::from_radix_be` and displays it
/// (`Display` of `BigUint`: decimal, no leading zeroes).  With valid digits
/// the text is the decimal numeral of their value.
#[verifier::external_body]
fn radix_digits_decimal(digits: &Vec<u8>, radix: u32) -> (r: String)
    requires
        2 <= radix <= 256,
    ensures
        (forall|i: int| 0 <= i < digits@.len() ==> #[trigger] digits@[i] < radix) ==> r@ == decimal_text(
            digits_value(digits@, radix as nat),
        ),
{
    match BigUint::from_radix_be(digits.as_slice(), radix) {
        Some(v) => v.to_string(),
        None => String::new(),
    }
}

/// `num_rational::Ratio::new` on the numbers that the digits in `radix` give
/// (converted to `BigInt` by `from_radix_be`, and back by `to_radix_be`):
/// it divides numerator and denominator by their greatest common divisor
/// (a zero numerator gets the denominator 1, equal ones give 1/1: the same).
/// It panics on a zero denominator, which `requires` rules out.
#[verifier::external_body]
fn ratio_new(num: &Vec<u8>, den: &Vec<u8>, radix: u32) -> (r: (Vec<u8>, Vec<u8>))
    requires
        2 <= radix <= 256,
        digits_below(num@, radix as nat),
        digits_below(den@, radix as nat),
        digits_value(den@, radix as nat) >= 1,
    ensures
        digits_below(r.0@, radix as nat),
        digits_below(r.1@, radix as nat),
        digits_value(r.0@, radix as nat) == digits_value(num@, radix as nat) / gcd(
            digits_value(num@, radix as nat),
            digits_value(den@, radix as nat),
        ),
        digits_value(r.1@, radix as nat) == digits_value(den@, radix as nat) / gcd(
            digits_value(num@, radix as nat),
            digits_value(den@, radix as nat),
        ),
{
    let n = BigInt::from_radix_be(Sign::Plus, num.as_slice(), radix).unwrap();
    let d = BigInt::from_radix_be(Sign::Plus, den.as_slice(), radix).unwrap();
    let q = BigRational::new(n, d);
    (q.numer().to_radix_be(radix).1, q.denom().to_radix_be(radix).1)
}

/// `Display` of the `num_rational::Ratio` made by `Ratio::new_raw` of the
/// numbers that the digits in `radix` give (converted by `from_radix_be`):
/// the numerator in decimal, then `/` and the denominator unless that is 1.
#[verifier::external_body]
fn ratio_text(numer: &Vec<u8>, denom: &Vec<u8>, radix: u32) -> (r: String)
    requires
        2 <= radix <= 256,
        digits_below(numer@, radix as nat),
        digits_below(denom@, radix as nat),
    ensures
        r@ == fraction_text(digits_value(numer@, radix as nat), digits_value(denom@, radix as nat)),
{
    let n = BigInt::from_radix_be(Sign::Plus, numer.as_slice(), radix).unwrap();
    let d = BigInt::from_radix_be(Sign::Plus, denom.as_slice(), radix).unwrap();
    BigRational::new_raw(n, d).to_string()
}

/// The value of digits `a` followed by digits `b`.
proof fn lemma_digits_value_concat(a: Seq<u8>, b: Seq<u8>, r: nat)
    requires
        r >= 1,
    ensures
        digits_value(a + b, r) == digits_value(a, r) * (vstd::arithmetic::power::pow(r as int, b.len()) as nat)
            + digits_value(b, r),
    decreases b.len(),
{
    vstd::arithmetic::power::lemma_pow_positive(r as int, b.len());
    if b.len() == 0 {
        assert(a + b =~= a);
        vstd::arithmetic::power::lemma_pow0(r as int);
        assert(digits_value(b, r) == 0);
        assert(digits_value(a, r) * 1 == digits_value(a, r));
    } else {
        lemma_digits_value_concat(a, b.drop_last(), r);
        assert((a + b).drop_last() =~= a + b.drop_last());
        assert((a + b).last() == b.last());
        let p1 = vstd::arithmetic::power::pow(r as int, (b.len() - 1) as nat);
        vstd::arithmetic::power::lemma_pow_positive(r as int, (b.len() - 1) as nat);
        assert(vstd::arithmetic::power::pow(r as int, b.len()) == r * p1) by {
            vstd::arithmetic::power::lemma_pow_adds(r as int, 1, (b.len() - 1) as nat);
            vstd::arithmetic::power::lemma_pow1(r as int);
        }
        let x = digits_value(a, r) as int;
        let y = digits_value(b.drop_last(), r) as int;
        let pn = vstd::arithmetic::power::pow(r as int, b.len());
        assert(digits_value(a + b, r) == digits_value(a + b.drop_last(), r) * r + b.last());
        assert(digits_value(b, r) == y * r + b.last());
        assert(digits_value(a + b.drop_last(), r) == x * p1 + y);
        assert((x * p1 + y) * r == x * (r * p1) + y * r) by (nonlinear_arith);
        assert(digits_value(a + b, r) == x * pn + (y * r + b.last()));
    }
}

proof fn lemma_single_digit_value(d: u8, r: nat)
    ensures
        digits_value(seq![d], r) == d,
{
    assert(seq![d].drop_last() =~= Seq::<u8>::empty());
    assert(digits_value(Seq::<u8>::empty(), r) == 0);
    vstd::arithmetic::mul::lemma_mul_basics(r as int);
    assert(digits_value(seq![d], r) == digits_value(seq![d].drop_last(), r) * r + d);
}

proof fn lemma_zeros_value(n: nat, r: nat)
    ensures
        digits_value(Seq::new(n, |i: int| 0u8), r) == 0,
    decreases n,
{
    if n > 0 {
        lemma_zeros_value((n - 1) as nat, r);
        let z = Seq::new(n, |i: int| 0u8);
        assert(z.drop_last() =~= Seq::new((n - 1) as nat, |i: int| 0u8));
        vstd::arithmetic::mul::lemma_mul_basics(r as int);
        assert(digits_value(z, r) == digits_value(z.drop_last(), r) * r + z.last());
    }
}

/// The numerator and denominator of a fractional literal's value, as
/// digits in the radix of its fraction digits.
fn fraction_digits(whole: &Digits, frac: &Digits) -> (r: (Vec<u8>, Vec<u8>))
    requires
        valid_digits(whole.radix as nat, whole.digits@),
        valid_digits(frac.radix as nat, frac.digits@),
    ensures
        digits_below(r.0@, frac.radix as nat),
        digits_below(r.1@, frac.radix as nat),
        digits_value(r.0@, frac.radix as nat) == fraction_numerator(
            whole.radix as nat,
            bytes_of(whole.digits@),
            frac.radix as nat,
            bytes_of(frac.digits@),
        ),
        digits_value(r.1@, frac.radix as nat) == fraction_denominator(frac.radix as nat, frac.digits@.len()),
        digits_value(r.1@, frac.radix as nat) >= 1,
{
    let w = digit_bytes(&whole.digits);
    let f = digit_bytes(&frac.digits);
    let rf = frac.radix;
    let mut num = radix_rewrite(&w, whole.radix, rf);
    let ghost wv = num@;
    let mut k: usize = 0;
    while k < f.len()
        invariant
            2 <= rf <= 16,
            f@ == bytes_of(frac.digits@),
            forall|i: int| 0 <= i < f@.len() ==> #[trigger] f@[i] == frac.digits@[i],
            valid_digits(rf as nat, frac.digits@),
            k <= f@.len(),
            num@ == wv + f@.take(k as int),
            digits_below(wv, rf as nat),
        decreases f@.len() - k,
    {
        assert(f@.take(k + 1) =~= f@.take(k as int).push(f@[k as int]));
        assert(wv + f@.take(k + 1) =~= (wv + f@.take(k as int)).push(f@[k as int]));
        num.push(f[k]);
        k = k + 1;
    }
    assert(f@.take(f@.len() as int) =~= f@);
    let mut den: Vec<u8> = Vec::new();
    den.push(1u8);
    let mut z: usize = 0;
    while z < f.len()
        invariant
            z <= f@.len(),
            den@ == seq![1u8] + Seq::new(z as nat, |i: int| 0u8),
        decreases f@.len() - z,
    {
        assert(seq![1u8] + Seq::new((z + 1) as nat, |i: int| 0u8) =~= (seq![1u8] + Seq::new(z as nat, |i: int| 0u8)).push(0u8));
        den.push(0u8);
        z = z + 1;
    }
    proof {
        let r = rf as nat;
        lemma_digits_value_concat(wv, f@, r);
        assert(digits_below(num@, r)) by {
            assert forall|i: int| 0 <= i < num@.len() implies #[trigger] num@[i] < r by {
                if i >= wv.len() {
                    assert(num@[i] == f@[i - wv.len()]);
                }
            }
        }
        lemma_digits_value_concat(seq![1u8], Seq::new(f@.len(), |i: int| 0u8), r);
        lemma_zeros_value(f@.len(), r);
        lemma_single_digit_value(1u8, r);
        assert(seq![1u8] + Seq::new(f@.len(), |i: int| 0u8) == den@);
        assert(digits_below(den@, r)) by {
            assert forall|i: int| 0 <= i < den@.len() implies #[trigger] den@[i] < r by {
                if i > 0 {
                    assert(den@[i] == Seq::new(f@.len(), |i: int| 0u8)[i - 1]);
                }
            }
        }
        vstd::arithmetic::power::lemma_pow_positive(r as int, f@.len());
        assert(f@.len() == frac.digits@.len());
        let pn = vstd::arithmetic::power::pow(r as int, f@.len());
        vstd::arithmetic::mul::lemma_mul_basics(pn);
        assert(digits_value(den@, r) == pn);
        assert(digits_value(num@, r) == fraction_numerator(
            whole.radix as nat,
            bytes_of(whole.digits@),
            r,
            bytes_of(frac.digits@),
        ));
        assert(digits_value(den@, r) == fraction_denominator(r, frac.digits@.len()));
    }
    (num, den)
}

/// Appends the text of a fractional literal: its value in lowest terms.
fn push_fraction_literal(out: &mut Vec<char>, whole: &Digits, frac: &Digits)
    requires
        valid_digits(whole.radix as nat, whole.digits@),
        valid_digits(frac.radix as nat, frac.digits@),
    ensures
        final(out)@ == old(out)@ + reduced_fraction_text(
            fraction_numerator(whole.radix as nat, bytes_of(whole.digits@), frac.radix as nat, bytes_of(frac.digits@)),
            fraction_denominator(frac.radix as nat, frac.digits@.len()),
        ),
{
    let (num, den) = fraction_digits(whole, frac);
    let (a, b) = ratio_new(&num, &den, frac.radix);
    let s = ratio_text(&a, &b, frac.radix);
    push_chars(out, &s);
}

/// The digits of `v` in radix `r`, most significant first, without leading
/// zeroes (none for zero).
pub open spec fn canonical_digits(v: nat, r: nat) -> Seq<u8>
    decreases v,
{
    if v == 0 || r < 2 {
        Seq::empty()
    } else {
        proof {
            vstd::arithmetic::div_mod::lemma_div_decreases(v as int, r as int);
        }
        canonical_digits(v / r, r).push((v % r) as u8)
    }
}

/// The canonical digits of `v`, the digit 0 alone for zero.
pub open spec fn canonical_or_zero(v: nat, r: nat) -> Seq<u8> {
    if v == 0 {
        seq![0u8]
    } else {
        canonical_digits(v, r)
    }
}

/// Rewrites digits in radix `from` as digits in radix `to`: the number that
/// `num_bigint::BigUint::from_radix_be` makes of them, written out by
/// `BigUint::to_radix_be`, which gives the digits of its value without
/// leading zeroes, and the digit 0 alone for zero.
#[verifier::external_body]
fn radix_rewrite(digits: &Vec<u8>, from: u32, to: u32) -> (r: Vec<u8>)
    requires
        2 <= from <= 256,
        2 <= to <= 256,
        digits_below(digits@, from as nat),
    ensures
        digits_below(r@, to as nat),
        digits_value(r@, to as nat) == digits_value(digits@, from as nat),
        r@ == canonical_or_zero(digits_value(digits@, from as nat), to as nat),
{
    BigUint::from_radix_be(digits.as_slice(), from).unwrap().to_radix_be(to)
}

/// Whether digits `a` in radix `ra` and digits `b` in radix `rb` have the
/// same value.
pub(crate) fn same_digit_value(a: &Vec<u8>, ra: u32, b: &Vec<u8>, rb: u32) -> (r: bool)
    requires
        2 <= ra <= 16,
        2 <= rb <= 16,
        digits_below(a@, ra as nat),
        digits_below(b@, rb as nat),
    ensures
        r == (digits_value(a@, ra as nat) == digits_value(b@, rb as nat)),
{
    let a10 = radix_rewrite(a, ra, 10);
    let b10 = radix_rewrite(b, rb, 10);
    if a10.len() != b10.len() {
        return false;
    }
    let mut i: usize = 0;
    while i < a10.len()
        invariant
            a10@.len() == b10@.len(),
            i <= a10@.len(),
            forall|k: int| 0 <= k < i ==> a10@[k] == b10@[k],
            a10@ == canonical_or_zero(digits_value(a@, ra as nat), 10),
            b10@ == canonical_or_zero(digits_value(b@, rb as nat), 10),
            digits_value(a10@, 10) == digits_value(a@, ra as nat),
            digits_value(b10@, 10) == digits_value(b@, rb as nat),
        decreases a10@.len() - i,
    {
        if a10[i] != b10[i] {
            assert(a10@ != b10@);
            return false;
        }
        i = i + 1;
    }
    assert(a10@ =~= b10@);
    true
}

/// The value of a literal as a fraction: a whole number over 1, or a
/// fractional literal's numerator over its denominator.
pub open spec fn number_value_fraction(v: NumberValueView) -> (nat, nat) {
    match v {
        NumberValueView::Int(r, ds) => (digits_value(bytes_of(ds), r), 1),
        NumberValueView::Float(rw, w, rf, f) => (
            fraction_numerator(rw, bytes_of(w), rf, bytes_of(f)),
            fraction_denominator(rf, f.len()),
        ),
    }
}

/// A well-formed literal's value in lowest terms, as digits of numerator
/// and denominator in the returned radix.
pub(crate) fn reduced_value_digits(v: &NumberValue) -> (r: (Vec<u8>, Vec<u8>, u32))
    requires
        number_value_ok(crate::lexer::number_value_view(*v)),
    ensures
        2 <= r.2 <= 16,
        digits_below(r.0@, r.2 as nat),
        digits_below(r.1@, r.2 as nat),
        ({
            let (n, d) = number_value_fraction(crate::lexer::number_value_view(*v));
            &&& digits_value(r.0@, r.2 as nat) == n / gcd(n, d)
            &&& digits_value(r.1@, r.2 as nat) == d / gcd(n, d)
        }),
{
    match v {
        NumberValue::Int(d) => {
            let num = digit_bytes(&d.digits);
            let mut den: Vec<u8> = Vec::new();
            den.push(1u8);
            proof {
                lemma_single_digit_value(1u8, d.radix as nat);
                assert(den@ =~= seq![1u8]);
            }
            let (a, b) = ratio_new(&num, &den, d.radix);
            (a, b, d.radix)
        },
        NumberValue::Float { whole, frac } => {
            let (num, den) = fraction_digits(whole, frac);
            let (a, b) = ratio_new(&num, &den, frac.radix);
            (a, b, frac.radix)
        },
    }
}

pub(crate) fn digits_ok(d: &Digits) -> (r: bool)
    ensures
        r == valid_digits(d.radix as nat, d.digits@),
{
    if d.radix < 2 || d.radix > 16 {
        return false;
    }
    let mut i: usize = 0;
    while i < d.digits.len()
        invariant
            2 <= d.radix <= 16,
            i <= d.digits@.len(),
            forall|k: int| 0 <= k < i ==> #[trigger] d.digits@[k] < d.radix,
        decreases d.digits@.len() - i,
    {
        if d.digits[i] >= d.radix {
            return false;
        }
        i = i + 1;
    }
    true
}

pub(crate) fn digit_bytes(ds: &Vec<u32>) -> (r: Vec<u8>)
    requires
        forall|i: int| 0 <= i < ds@.len() ==> #[trigger] ds@[i] < 256,
    ensures
        r@ == bytes_of(ds@),
        forall|i: int| 0 <= i < ds@.len() ==> #[trigger] r@[i] == ds@[i],
{
    let mut r: Vec<u8> = Vec::new();
    let mut i: usize = 0;
    while i < ds.len()
        invariant
            i <= ds@.len(),
            forall|k: int| 0 <= k < ds@.len() ==> #[trigger] ds@[k] < 256,
            r@ == bytes_of(ds@.take(i as int)),
            forall|k: int| 0 <= k < i ==> #[trigger] r@[k] == ds@[k],
        decreases ds@.len() - i,
    {
        r.push(ds[i] as u8);
        proof {
            assert(bytes_of(ds@.take(i + 1)) =~= bytes_of(ds@.take(i as int)).push(ds@[i as int] as u8));
        }
        i = i + 1;
    }
    proof {
        assert(ds@.take(ds@.len() as int) == ds@);
    }
    r
}

/// How an integer literal is displayed: the decimal numeral of its value.
pub open spec fn int_literal_text(radix: nat, ds: Seq<u32>) -> Seq<char> {
    decimal_text(digits_value(bytes_of(ds), radix))
}

/// The literal is well-formed.
pub open spec fn number_value_ok(v: NumberValueView) -> bool {
    match v {
        NumberValueView::Int(r, ds) => valid_digits(r, ds),
        NumberValueView::Float(rw, w, rf, f) => valid_digits(rw, w) && valid_digits(rf, f),
    }
}

/// How a literal's value is displayed: the decimal numeral of a whole
/// number, the reduced fraction of a fractional one.
pub open spec fn number_value_text(v: NumberValueView) -> Seq<char> {
    match v {
        NumberValueView::Int(r, ds) => int_literal_text(r, ds),
        NumberValueView::Float(rw, w, rf, f) => reduced_fraction_text(
            fraction_numerator(rw, bytes_of(w), rf, bytes_of(f)),
            fraction_denominator(rf, f.len()),
        ),
    }
}

fn push_int_literal(out: &mut Vec<char>, d: &Digits)
    requires
        valid_digits(d.radix as nat, d.digits@),
    ensures
        final(out)@ == old(out)@ + int_literal_text(d.radix as nat, d.digits@),
{
    let b = digit_bytes(&d.digits);
    let s = radix_digits_decimal(&b, d.radix);
    push_chars(out, &s);
}

fn push_number_value(out: &mut Vec<char>, v: &NumberValue)
    requires
        number_value_ok(crate::lexer::number_value_view(*v)),
    ensures
        final(out)@ == old(out)@ + number_value_text(crate::lexer::number_value_view(*v)),
{
    match v {
        NumberValue::Int(d) => push_int_literal(out, d),
        NumberValue::Float { whole, frac } => push_fraction_literal(out, whole, frac),
    }
}

// ---------------------------------------------------------------------------
// Syntax trees.
// ---------------------------------------------------------------------------

/// Which sidecar annotation to show above each expression.
#[derive(Clone, Copy, PartialEq, Eq, Structural, Debug)]
pub enum SidecarTex {
    Hidden,
    Scope,
    Type,
}

/// Whether expressions carry an annotation.
pub open spec fn has_fmt_sidecar_tex_spec(mode: SidecarTex) -> bool {
    mode !is Hidden
}

/// Whether expressions carry an annotation.
pub fn has_fmt_sidecar_tex(mode: SidecarTex) -> (r: bool)
    ensures
        r == has_fmt_sidecar_tex_spec(mode),
{
    match mode {
        SidecarTex::Hidden => false,
        _ => true,
    }
}

/// The annotation: the scope's number, or the type; nothing where the
/// sidecar has none.
pub open spec fn sidecar_text(s: SidecarView, mode: SidecarTex) -> Seq<char> {
    match mode {
        SidecarTex::Scope => match s.scope {
            Some(i) => decimal_text(i),
            None => Seq::empty(),
        },
        SidecarTex::Type => match s.ty {
            Some(t) => type_text(t),
            None => Seq::empty(),
        },
        SidecarTex::Hidden => Seq::empty(),
    }
}

/// Appends the annotation of an expression's sidecar.
pub fn fmt_sidecar_tex(out: &mut Vec<char>, e: &Expr, mode: SidecarTex)
    ensures
        final(out)@ == old(out)@ + sidecar_text(e@.sidecar, mode),
{
    match mode {
        SidecarTex::Scope => match e.sidecar.scope {
            Some(id) => push_decimal(out, id.into_idx() as u64),
            None => {
                assert(final(out)@ =~= old(out)@ + sidecar_text(e@.sidecar, mode));
            },
        },
        SidecarTex::Type => match &e.sidecar.ty {
            Some(t) => push_type(out, t),
            None => {
                assert(final(out)@ =~= old(out)@ + sidecar_text(e@.sidecar, mode));
            },
        },
        SidecarTex::Hidden => {
            assert(final(out)@ =~= old(out)@ + sidecar_text(e@.sidecar, mode));
        },
    }
}

/// The name of an operator, as `Debug` writes it.
pub open spec fn infix_op_text(op: InfixOp) -> Seq<char> {
    match op {
        InfixOp::Add => "Add"@,
        InfixOp::Subtract => "Subtract"@,
        InfixOp::Multiply => "Multiply"@,
        InfixOp::Divide => "Divide"@,
        InfixOp::DotProduct => "DotProduct"@,
        InfixOp::CrossProduct => "CrossProduct"@,
        InfixOp::MatrixMultiply => "MatrixMultiply"@,
    }
}

/// The text of a node: a literal's value, an operator's name, a variable,
/// a declaration or `Block`.
pub open spec fn label_text(d: ExprDataView) -> Seq<char> {
    match d {
        ExprDataView::LiteralInt(_, r, ds, _) => int_literal_text(r, ds),
        ExprDataView::LiteralFloat(_, v, _) => number_value_text(v),
        ExprDataView::LiteralBool(b, _) => "\\(\\texttt{"@ + (if b {
            "true"@
        } else {
            "false"@
        }) + "}\\)"@,
        ExprDataView::InfixOp(_, op, _, _) => infix_op_text(op),
        ExprDataView::Var(name, _) => "\\texttt{"@ + name + "}"@,
        ExprDataView::Declaration(name, _, _) => "Declare~\\texttt{"@ + name + "}"@,
        ExprDataView::Block(..) => "Block"@,
    }
}

/// The node's bracket, its annotation (when shown) over its label.
pub open spec fn head_text(e: ExprView, mode: SidecarTex) -> Seq<char> {
    if has_fmt_sidecar_tex_spec(mode) {
        "["@ + "{"@ + "\\(\\overset{\\text{"@ + sidecar_text(e.sidecar, mode) + "}}{\\text{"@ + label_text(e.data)
            + "}}\\)"@ + "} "@
    } else {
        "["@ + "{"@ + label_text(e.data) + "} "@
    }
}

/// The `forest` tree of an expression whose children sit at `tabs + 1`.
pub open spec fn forest_expr(e: ExprView, tabs: nat, mode: SidecarTex) -> Seq<char>
    decreases e, 2int,
{
    head_text(e, mode) + children_text(e, tabs, mode) + "]"@
}

/// The children of a node, each on a line of its own at `tabs + 1`; a block
/// lists its expressions, then its final expression.
pub open spec fn children_text(e: ExprView, tabs: nat, mode: SidecarTex) -> Seq<char>
    decreases e, 1int,
{
    match e.data {
        ExprDataView::InfixOp(l, _, _, r) => "\n"@ + indent_text(tabs + 1) + forest_expr(*l, tabs + 1, mode)
            + "\n"@ + indent_text(tabs + 1) + forest_expr(*r, tabs + 1, mode) + "\n"@ + indent_text(tabs),
        ExprDataView::Declaration(_, _, v) => "\n"@ + indent_text(tabs + 1) + forest_expr(*v, tabs + 1, mode)
            + "\n"@ + indent_text(tabs),
        ExprDataView::Block(es, last, _) => " [{\\textit{exprs}} "@ + forest_list(es, tabs + 1, mode)
            + "] [{\\textit{terminal}} "@ + match last {
            Some(l) => "\n"@ + indent_text(tabs + 1) + forest_expr(*l, tabs + 1, mode),
            None => Seq::empty(),
        } + "] \n"@ + indent_text(tabs),
        _ => Seq::empty(),
    }
}

/// Each expression on a line of its own, indented by `tabs`.
pub open spec fn forest_list(es: Seq<ExprView>, tabs: nat, mode: SidecarTex) -> Seq<char>
    decreases es, 0int,
{
    if es.len() == 0 {
        Seq::empty()
    } else {
        proof {
            assert(decreases_to!(es => es.drop_last()));
            assert(decreases_to!(es => es[es.len() - 1]));
        }
        forest_list(es.drop_last(), tabs, mode) + "\n"@ + indent_text(tabs) + forest_expr(es.last(), tabs, mode)
    }
}

/// Every literal in the expression is well-formed.
pub open spec fn literals_ok(e: ExprView) -> bool
    decreases e, 1int,
{
    match e.data {
        ExprDataView::LiteralInt(_, r, ds, _) => valid_digits(r, ds),
        ExprDataView::LiteralFloat(_, v, _) => number_value_ok(v),
        ExprDataView::InfixOp(l, _, _, r) => literals_ok(*l) && literals_ok(*r),
        ExprDataView::Declaration(_, _, v) => literals_ok(*v),
        ExprDataView::Block(es, last, _) => literals_ok_all(es) && match last {
            Some(l) => literals_ok(*l),
            None => true,
        },
        _ => true,
    }
}

/// Every literal in the expressions is well-formed.
pub open spec fn literals_ok_all(es: Seq<ExprView>) -> bool
    decreases es, 0int,
{
    if es.len() == 0 {
        true
    } else {
        proof {
            assert(decreases_to!(es => es.drop_last()));
            assert(decreases_to!(es => es[es.len() - 1]));
        }
        literals_ok_all(es.drop_last()) && literals_ok(es.last())
    }
}

proof fn lemma_list_element(es: Seq<ExprView>, i: int)
    requires
        0 <= i < es.len(),
    ensures
        literals_ok_all(es) ==> literals_ok(es[i]),
        expr_size(es[i]) <= exprs_size(es),
    decreases es.len(),
{
    if i < es.len() - 1 {
        lemma_list_element(es.drop_last(), i);
    }
}

#[verifier::spinoff_prover]
fn push_label(out: &mut Vec<char>, d: &ExprData)
    requires
        literals_ok(ExprView { data: crate::ast::expr_data_view(*d), sidecar: crate::ast::empty_sidecar() }),
    ensures
        final(out)@ == old(out)@ + label_text(crate::ast::expr_data_view(*d)),
{
    match d {
        ExprData::LiteralInt(l) => push_int_literal(out, &l.inner.value),
        ExprData::LiteralFloat(l) => push_number_value(out, &l.inner.value),
        ExprData::LiteralBool(b) => {
            push_str(out, "\\(\\texttt{");
            if b.inner {
                push_str(out, "true");
            } else {
                push_str(out, "false");
            }
            push_str(out, "}\\)");
        },
        ExprData::InfixOp(_, op, _) => match op.inner {
            InfixOp::Add => push_str(out, "Add"),
            InfixOp::Subtract => push_str(out, "Subtract"),
            InfixOp::Multiply => push_str(out, "Multiply"),
            InfixOp::Divide => push_str(out, "Divide"),
            InfixOp::DotProduct => push_str(out, "DotProduct"),
            InfixOp::CrossProduct => push_str(out, "CrossProduct"),
            InfixOp::MatrixMultiply => push_str(out, "MatrixMultiply"),
        },
        ExprData::Var(v) => {
            push_str(out, "\\texttt{");
            push_chars(out, &v.inner);
            push_str(out, "}");
        },
        ExprData::Declaration { name, .. } => {
            push_str(out, "Declare~\\texttt{");
            push_chars(out, &name.inner);
            push_str(out, "}");
        },
        ExprData::Block(_) => push_str(out, "Block"),
    }
    proof {
        assert(final(out)@ =~= old(out)@ + label_text(crate::ast::expr_data_view(*d)));
    }
}

#[verifier::spinoff_prover]
fn push_head(out: &mut Vec<char>, e: &Expr, mode: SidecarTex)
    requires
        literals_ok(e@),
    ensures
        final(out)@ == old(out)@ + head_text(e@, mode),
{
    push_str(out, "[");
    push_str(out, "{");
    let show = has_fmt_sidecar_tex(mode);
    if show {
        push_str(out, "\\(\\overset{\\text{");
        fmt_sidecar_tex(out, e, mode);
        push_str(out, "}}{\\text{");
    }
    push_label(out, &e.data);
    if show {
        push_str(out, "}}\\)");
    }
    push_str(out, "} ");
    proof {
        assert(final(out)@ =~= old(out)@ + head_text(e@, mode));
    }
}

/// Appends the `forest` tree of `expr`, whose children are indented by
/// `tabs + 1` levels.
#[verifier::spinoff_prover]
pub fn forest_dump_ast_graph(expr: &Expr, out: &mut Vec<char>, tabs: usize, mode: SidecarTex)
    requires
        literals_ok(expr@),
        tabs + expr_size(expr@) <= usize::MAX,
    ensures
        final(out)@ == old(out)@ + forest_expr(expr@, tabs as nat, mode),
    decreases 7 * expr_size(expr@),
{
    push_head(out, expr, mode);
    push_children(expr, out, tabs, mode);
    push_str(out, "]");
    proof {
        assert(final(out)@ =~= old(out)@ + forest_expr(expr@, tabs as nat, mode));
    }
}

/// The line of a child: a line break, the indentation, the child's tree.
pub open spec fn line_text(e: ExprView, tabs: nat, mode: SidecarTex) -> Seq<char> {
    "\n"@ + indent_text(tabs) + forest_expr(e, tabs, mode)
}

#[verifier::spinoff_prover]
fn push_line(v: &Expr, out: &mut Vec<char>, tabs: usize, mode: SidecarTex)
    requires
        literals_ok(v@),
        tabs + expr_size(v@) <= usize::MAX,
    ensures
        final(out)@ == old(out)@ + line_text(v@, tabs as nat, mode),
    decreases 7 * expr_size(v@) + 2,
{
    push_str(out, "\n");
    indent(out, tabs);
    forest_dump_ast_graph(v, out, tabs, mode);
    proof {
        assert(final(out)@ =~= old(out)@ + line_text(v@, tabs as nat, mode));
    }
}

proof fn lemma_children_infix(e: ExprView, l: ExprView, op: InfixOp, span: crate::lexer::Span, r: ExprView, t: nat, mode: SidecarTex)
    requires
        e.data == ExprDataView::InfixOp(Box::new(l), op, span, Box::new(r)),
    ensures
        children_text(e, t, mode) == line_text(l, t + 1, mode) + line_text(r, t + 1, mode) + "\n"@ + indent_text(t),
        literals_ok(e) == (literals_ok(l) && literals_ok(r)),
        expr_size(e) == 1 + expr_size(l) + expr_size(r),
{
    assert(children_text(e, t, mode) =~= line_text(l, t + 1, mode) + line_text(r, t + 1, mode) + "\n"@ + indent_text(t));
}

proof fn lemma_children_decl(e: ExprView, name: Seq<char>, span: crate::lexer::Span, v: ExprView, t: nat, mode: SidecarTex)
    requires
        e.data == ExprDataView::Declaration(name, span, Box::new(v)),
    ensures
        children_text(e, t, mode) == line_text(v, t + 1, mode) + "\n"@ + indent_text(t),
        literals_ok(e) == literals_ok(v),
        expr_size(e) == 1 + expr_size(v),
{
    assert(children_text(e, t, mode) =~= line_text(v, t + 1, mode) + "\n"@ + indent_text(t));
}

proof fn lemma_children_block(ex: Expr, b: crate::lexer::Spanned<crate::ast::Block>, t: nat, mode: SidecarTex)
    requires
        ex.data == ExprData::Block(b),
    ensures
        children_text(ex@, t, mode) == " [{\\textit{exprs}} "@ + forest_list(crate::ast::exprs_view(b.inner.exprs@), t + 1, mode)
            + "] [{\\textit{terminal}} "@ + match b.inner.last {
            Some(l) => line_text(l@, t + 1, mode),
            None => Seq::empty(),
        } + "] \n"@ + indent_text(t),
        literals_ok(ex@) == (literals_ok_all(crate::ast::exprs_view(b.inner.exprs@)) && match b.inner.last {
            Some(l) => literals_ok(l@),
            None => true,
        }),
        expr_size(ex@) == 1 + block_size(b.inner),
{
    let e = ex@;
    assert(e.data == ExprDataView::Block(crate::ast::exprs_view(b.inner.exprs@), match b.inner.last {
        Some(l) => Some(Box::new(expr_view(*l))),
        None => None,
    }, b.span));
    match b.inner.last {
        Some(l) => {
            assert(children_text(e, t, mode) =~= " [{\\textit{exprs}} "@ + forest_list(crate::ast::exprs_view(b.inner.exprs@), t + 1, mode)
                + "] [{\\textit{terminal}} "@ + line_text(l@, t + 1, mode) + "] \n"@ + indent_text(t));
        },
        None => {
            assert(children_text(e, t, mode) =~= " [{\\textit{exprs}} "@ + forest_list(crate::ast::exprs_view(b.inner.exprs@), t + 1, mode)
                + "] [{\\textit{terminal}} "@ + Seq::<char>::empty() + "] \n"@ + indent_text(t));
        },
    }
}

#[verifier::spinoff_prover]
fn push_children(expr: &Expr, out: &mut Vec<char>, tabs: usize, mode: SidecarTex)
    requires
        literals_ok(expr@),
        tabs + expr_size(expr@) <= usize::MAX,
    ensures
        final(out)@ == old(out)@ + children_text(expr@, tabs as nat, mode),
    decreases 7 * expr_size(expr@) - 1,
{
    match &expr.data {
        ExprData::InfixOp(l, op, r) => push_infix_of(expr, l, op, r, out, tabs, mode),
        ExprData::Declaration { name, value } => push_declaration_of(expr, name, value, out, tabs, mode),
        ExprData::Block(b) => push_block_of(expr, b, out, tabs, mode),
        _ => {
            proof {
                assert(final(out)@ =~= old(out)@ + children_text(expr@, tabs as nat, mode));
            }
        },
    }
}

#[verifier::spinoff_prover]
fn push_infix_of(
    expr: &Expr,
    l: &Box<Expr>,
    op: &crate::lexer::Spanned<InfixOp>,
    r: &Box<Expr>,
    out: &mut Vec<char>,
    tabs: usize,
    mode: SidecarTex,
)
    requires
        expr.data == ExprData::InfixOp(*l, *op, *r),
        literals_ok(expr@),
        tabs + expr_size(expr@) <= usize::MAX,
    ensures
        final(out)@ == old(out)@ + children_text(expr@, tabs as nat, mode),
    decreases 7 * expr_size(expr@) - 2,
{
    let ghost t = tabs as nat;
    proof {
        lemma_children_infix(expr@, l@, op.inner, op.span, r@, t, mode);
    }
    push_line(l, out, tabs + 1, mode);
    push_line(r, out, tabs + 1, mode);
    push_str(out, "\n");
    indent(out, tabs);
    proof {
        assert(final(out)@ =~= old(out)@ + (line_text(l@, t + 1, mode) + line_text(r@, t + 1, mode) + "\n"@ + indent_text(t)));
    }
}

#[verifier::spinoff_prover]
fn push_declaration_of(
    expr: &Expr,
    name: &crate::lexer::Spanned<String>,
    value: &Box<Expr>,
    out: &mut Vec<char>,
    tabs: usize,
    mode: SidecarTex,
)
    requires
        expr.data == (ExprData::Declaration { name: *name, value: *value }),
        literals_ok(expr@),
        tabs + expr_size(expr@) <= usize::MAX,
    ensures
        final(out)@ == old(out)@ + children_text(expr@, tabs as nat, mode),
    decreases 7 * expr_size(expr@) - 2,
{
    let ghost t = tabs as nat;
    proof {
        lemma_children_decl(expr@, name.inner@, name.span, value@, t, mode);
    }
    push_line(value, out, tabs + 1, mode);
    push_str(out, "\n");
    indent(out, tabs);
    proof {
        assert(final(out)@ =~= old(out)@ + (line_text(value@, t + 1, mode) + "\n"@ + indent_text(t)));
    }
}

#[verifier::spinoff_prover]
#[verifier::rlimit(40)]
fn push_block_of(expr: &Expr, b: &crate::lexer::Spanned<crate::ast::Block>, out: &mut Vec<char>, tabs: usize, mode: SidecarTex)
    requires
        expr.data == ExprData::Block(*b),
        literals_ok(expr@),
        tabs + expr_size(expr@) <= usize::MAX,
    ensures
        final(out)@ == old(out)@ + children_text(expr@, tabs as nat, mode),
    decreases 7 * expr_size(expr@) - 2,
{
    proof {
        lemma_children_block(*expr, *b, tabs as nat, mode);
    }
    push_block(&b.inner, out, tabs, mode);
}

/// The total size of a block's expressions.
pub open spec fn block_size(b: crate::ast::Block) -> nat {
    exprs_size(crate::ast::exprs_view(b.exprs@)) + match b.last {
        Some(l) => expr_size(l@),
        None => 0,
    }
}

#[verifier::spinoff_prover]
fn push_block(b: &crate::ast::Block, out: &mut Vec<char>, tabs: usize, mode: SidecarTex)
    requires
        literals_ok_all(crate::ast::exprs_view(b.exprs@)),
        match b.last {
            Some(l) => literals_ok(l@),
            None => true,
        },
        tabs + 1 + block_size(*b) <= usize::MAX,
    ensures
        final(out)@ == old(out)@ + " [{\\textit{exprs}} "@ + forest_list(crate::ast::exprs_view(b.exprs@), (tabs + 1) as nat, mode)
            + "] [{\\textit{terminal}} "@ + match b.last {
            Some(l) => line_text(l@, (tabs + 1) as nat, mode),
            None => Seq::empty(),
        } + "] \n"@ + indent_text(tabs as nat),
    decreases 7 * block_size(*b) + 4,
{
    push_str(out, " [{\\textit{exprs}} ");
    push_list(&b.exprs, out, tabs + 1, mode);
    push_str(out, "] [{\\textit{terminal}} ");
    match &b.last {
        Some(l) => push_line(l, out, tabs + 1, mode),
        None => {},
    }
    push_str(out, "] \n");
    indent(out, tabs);
    proof {
        assert(final(out)@ =~= old(out)@ + " [{\\textit{exprs}} "@ + forest_list(crate::ast::exprs_view(b.exprs@), (tabs + 1) as nat, mode)
            + "] [{\\textit{terminal}} "@ + match b.last {
            Some(l) => line_text(l@, (tabs + 1) as nat, mode),
            None => Seq::empty(),
        } + "] \n"@ + indent_text(tabs as nat));
    }
}

#[verifier::spinoff_prover]
fn push_list(exprs: &Vec<Expr>, out: &mut Vec<char>, tabs: usize, mode: SidecarTex)
    requires
        literals_ok_all(crate::ast::exprs_view(exprs@)),
        tabs + exprs_size(crate::ast::exprs_view(exprs@)) <= usize::MAX,
    ensures
        final(out)@ == old(out)@ + forest_list(crate::ast::exprs_view(exprs@), tabs as nat, mode),
    decreases 7 * exprs_size(crate::ast::exprs_view(exprs@)) + 3,
{
    let ghost es = crate::ast::exprs_view(exprs@);
    let ghost before = out@;
    proof {
        crate::ast::lemma_exprs_view(exprs@);
        assert(es.take(0) =~= Seq::<ExprView>::empty());
    }
    let n = exprs.len();
    let mut i: usize = 0;
    while i < n
        invariant
            n == exprs@.len(),
            i <= n,
            es == crate::ast::exprs_view(exprs@),
            es.len() == n,
            forall|k: int| 0 <= k < n ==> #[trigger] es[k] == exprs@[k]@,
            literals_ok_all(es),
            tabs + exprs_size(es) <= usize::MAX,
            out@ == before + forest_list(es.take(i as int), tabs as nat, mode),
        decreases n - i,
    {
        proof {
            lemma_list_element(es, i as int);
        }
        push_line(&exprs[i], out, tabs, mode);
        proof {
            assert(es.take(i + 1).drop_last() == es.take(i as int));
            assert(es.take(i + 1).last() == es[i as int]);
            assert(out@ =~= before + forest_list(es.take(i + 1), tabs as nat, mode));
        }
        i = i + 1;
    }
    proof {
        assert(es.take(n as int) == es);
    }
}

// ---------------------------------------------------------------------------
// Functions and files.
// ---------------------------------------------------------------------------

/// The tree of a function: its name, then its body one level deeper.
pub open spec fn function_tex(f: FunctionView, tabs: nat, mode: SidecarTex) -> Seq<char> {
    "[{function~\\texttt{"@ + f.name + "}}\n"@ + forest_expr(f.body, tabs + 1, mode) + "]"@
}

/// The function can be rendered at `tabs`: its literals are well-formed and
/// the indentation fits a `usize`.
pub open spec fn function_tex_ok(f: FunctionView, tabs: nat) -> bool {
    literals_ok(f.body) && tabs + 1 + expr_size(f.body) <= usize::MAX
}

/// Appends the tree of a function.
pub fn forest_dump_function(function: &Function, out: &mut Vec<char>, tabs: usize, mode: SidecarTex)
    requires
        function_tex_ok(function@, tabs as nat),
    ensures
        final(out)@ == old(out)@ + function_tex(function@, tabs as nat, mode),
{
    push_str(out, "[{function~\\texttt{");
    push_chars(out, &function.data.name.inner);
    push_str(out, "}}\n");
    forest_dump_ast_graph(&function.data.body, out, tabs + 1, mode);
    push_str(out, "]");
    proof {
        assert(final(out)@ =~= old(out)@ + function_tex(function@, tabs as nat, mode));
    }
}

/// Each function, indented one level, one after the other.
pub open spec fn functions_tex(fs: Seq<FunctionView>, mode: SidecarTex) -> Seq<char>
    decreases fs.len(),
{
    if fs.len() == 0 {
        Seq::empty()
    } else {
        functions_tex(fs.drop_last(), mode) + indent_text(1) + function_tex(fs.last(), 1, mode)
    }
}

/// The functions of every group, in order.
pub open spec fn groups_tex(gs: Seq<(Seq<char>, Seq<FunctionView>)>, mode: SidecarTex) -> Seq<char>
    decreases gs.len(),
{
    if gs.len() == 0 {
        Seq::empty()
    } else {
        groups_tex(gs.drop_last(), mode) + functions_tex(gs.last().1, mode)
    }
}

/// A file as one `forest` environment.
pub open spec fn file_tex(gs: Seq<(Seq<char>, Seq<FunctionView>)>, mode: SidecarTex) -> Seq<char> {
    "\\begin{forest}\n"@ + groups_tex(gs, mode) + "\n\\end{forest}\n"@
}

/// Every function of the file can be rendered.
pub open spec fn file_tex_ok(gs: Seq<(Seq<char>, Seq<FunctionView>)>) -> bool {
    forall|i: int, k: int|
        0 <= i < gs.len() && 0 <= k < gs[i].1.len() ==> function_tex_ok(#[trigger] gs[i].1[k], 1)
}

fn push_functions(fs: &Vec<Function>, out: &mut Vec<char>, mode: SidecarTex)
    requires
        forall|k: int| 0 <= k < fs@.len() ==> function_tex_ok(#[trigger] fs@[k]@, 1),
    ensures
        final(out)@ == old(out)@ + functions_tex(crate::ast::functions_view(fs@), mode),
{
    let ghost fv = crate::ast::functions_view(fs@);
    let ghost before = out@;
    proof {
        assert(fv.take(0) =~= Seq::<FunctionView>::empty());
    }
    let mut i: usize = 0;
    while i < fs.len()
        invariant
            i <= fs@.len(),
            fv == crate::ast::functions_view(fs@),
            forall|k: int| 0 <= k < fs@.len() ==> function_tex_ok(#[trigger] fs@[k]@, 1),
            out@ == before + functions_tex(fv.take(i as int), mode),
        decreases fs@.len() - i,
    {
        indent(out, 1);
        forest_dump_function(&fs[i], out, 1, mode);
        proof {
            assert(fv.take(i + 1).drop_last() == fv.take(i as int));
            assert(fv.take(i + 1).last() == fs@[i as int]@);
            assert(out@ =~= before + functions_tex(fv.take(i + 1), mode));
        }
        i = i + 1;
    }
    proof {
        assert(fv.take(fs@.len() as int) == fv);
    }
}

impl File {
    /// The file's syntax trees as one `forest` environment, each expression
    /// annotated as `mode` says.
    pub fn fmt_tex(&self, mode: SidecarTex) -> (r: String)
        requires
            file_tex_ok(self@),
        ensures
            r@ == file_tex(self@, mode),
    {
        let mut out: Vec<char> = Vec::new();
        push_str(&mut out, "\\begin{forest}\n");
        let ghost gs = self@;
        let ghost before = out@;
        proof {
            assert(gs.take(0) =~= Seq::<(Seq<char>, Seq<FunctionView>)>::empty());
        }
        let mut i: usize = 0;
        while i < self.functions.len()
            invariant
                i <= self.functions@.len(),
                gs == self@,
                gs.len() == self.functions@.len(),
                file_tex_ok(gs),
                out@ == before + groups_tex(gs.take(i as int), mode),
            decreases self.functions@.len() - i,
        {
            proof {
                assert(gs[i as int] == crate::ast::group_view(self.functions@[i as int]));
                assert forall|k: int| 0 <= k < self.functions@[i as int].1@.len() implies function_tex_ok(
                    #[trigger] self.functions@[i as int].1@[k]@,
                    1,
                ) by {
                    assert(gs[i as int].1[k] == self.functions@[i as int].1@[k]@);
                }
            }
            push_functions(&self.functions[i].1, &mut out, mode);
            proof {
                assert(gs.take(i + 1).drop_last() == gs.take(i as int));
                assert(gs.take(i + 1).last() == gs[i as int]);
                assert(out@ =~= before + groups_tex(gs.take(i + 1), mode));
            }
            i = i + 1;
        }
        push_str(&mut out, "\n\\end{forest}\n");
        proof {
            assert(gs.take(gs.len() as int) == gs);
            assert(out@ =~= file_tex(self@, mode));
        }
        crate::text::string_of_chars(&out, 0, out.len())
    }

    /// Whether every function can be rendered by [`File::fmt_tex`].
    pub fn tex_ok(&self) -> (r: bool)
        ensures
            r == file_tex_ok(self@),
    {
        let mut i: usize = 0;
        while i < self.functions.len()
            invariant
                i <= self.functions@.len(),
                forall|a: int, k: int|
                    0 <= a < i && 0 <= k < self@[a].1.len() ==> function_tex_ok(#[trigger] self@[a].1[k], 1),
            decreases self.functions@.len() - i,
        {
            let fs = &self.functions[i].1;
            let mut k: usize = 0;
            while k < fs.len()
                invariant
                    i < self.functions@.len(),
                    *fs == self.functions@[i as int].1,
                    k <= fs@.len(),
                    forall|a: int, k2: int|
                        0 <= a < i && 0 <= k2 < self@[a].1.len() ==> function_tex_ok(#[trigger] self@[a].1[k2], 1),
                    forall|k2: int| 0 <= k2 < k ==> function_tex_ok(#[trigger] fs@[k2]@, 1),
                decreases fs@.len() - k,
            {
                let f = &fs[k];
                if !literals_ok_exec(&f.data.body) {
                    proof {
                        assert(self@[i as int].1[k as int] == f@);
                    }
                    return false;
                }
                let size = crate::typing::count_expr(&f.data.body);
                if size as u128 > usize::MAX as u128 - 2 {
                    proof {
                        assert(self@[i as int].1[k as int] == f@);
                    }
                    return false;
                }
                k = k + 1;
            }
            proof {
                assert forall|a: int, k2: int|
                    0 <= a < i + 1 && 0 <= k2 < self@[a].1.len() implies function_tex_ok(#[trigger] self@[a].1[k2], 1) by {
                    if a == i {
                        assert(self@[a].1[k2] == fs@[k2]@);
                    }
                }
            }
            i = i + 1;
        }
        true
    }
}

/// Whether every literal in `e` is well-formed.
pub fn literals_ok_exec(e: &Expr) -> (r: bool)
    ensures
        r == literals_ok(e@),
    decreases e,
{
    match &e.data {
        ExprData::LiteralInt(l) => digits_ok(&l.inner.value),
        ExprData::LiteralFloat(l) => match &l.inner.value {
            NumberValue::Int(d) => digits_ok(d),
            NumberValue::Float { whole, frac } => digits_ok(whole) && digits_ok(frac),
        },
        ExprData::InfixOp(l, _, r) => literals_ok_exec(l) && literals_ok_exec(r),
        ExprData::Declaration { value, .. } => literals_ok_exec(value),
        ExprData::Block(b) => {
            let ghost es = crate::ast::exprs_view(b.inner.exprs@);
            proof {
                crate::ast::lemma_exprs_view(b.inner.exprs@);
                assert(decreases_to!(*e => e.data));
                assert(decreases_to!(e.data => *b));
                assert(decreases_to!(*b => b.inner));
                assert(decreases_to!(b.inner => b.inner.exprs));
                assert(decreases_to!(b.inner.exprs => b.inner.exprs@));
                assert(decreases_to!(*e => b.inner.exprs@));
                assert(es.take(0) =~= Seq::<ExprView>::empty());
            }
            let mut i: usize = 0;
            while i < b.inner.exprs.len()
                invariant
                    e.data == ExprData::Block(*b),
                    decreases_to!(*e => b.inner.exprs@),
                    i <= b.inner.exprs@.len(),
                    es == crate::ast::exprs_view(b.inner.exprs@),
                    es.len() == b.inner.exprs@.len(),
                    forall|k: int| 0 <= k < es.len() ==> #[trigger] es[k] == b.inner.exprs@[k]@,
                    literals_ok_all(es.take(i as int)),
                decreases b.inner.exprs@.len() - i,
            {
                proof {
                    assert(decreases_to!(b.inner.exprs@ => b.inner.exprs@[i as int]));
                    assert(es.take(i + 1).drop_last() == es.take(i as int));
                    assert(es.take(i + 1).last() == es[i as int]);
                }
                if !literals_ok_exec(&b.inner.exprs[i]) {
                    proof {
                        lemma_all_prefix(es, i as int + 1);
                    }
                    return false;
                }
                i = i + 1;
            }
            proof {
                assert(es.take(es.len() as int) == es);
            }
            match &b.inner.last {
                Some(l) => literals_ok_exec(l),
                None => true,
            }
        },
        ExprData::LiteralBool(_) => true,
        ExprData::Var(_) => true,
    }
}

proof fn lemma_all_prefix(es: Seq<ExprView>, n: int)
    requires
        0 <= n <= es.len(),
        !literals_ok_all(es.take(n)),
    ensures
        !literals_ok_all(es),
    decreases es.len() - n,
{
    if n < es.len() {
        assert(es.take(n + 1).drop_last() == es.take(n));
        lemma_all_prefix(es, n + 1);
    } else {
        assert(es.take(n) == es);
    }
}

// ---------------------------------------------------------------------------
// Tokens.
// ---------------------------------------------------------------------------

/// The name of a token's kind.
pub open spec fn token_kind_text(t: TokenView) -> Seq<char> {
    match t {
        TokenView::Keyword(..) => "Keyword"@,
        TokenView::Symbol(..) => "Symbol"@,
        TokenView::DollarIdent(..) => "DollarIdent"@,
        TokenView::Ident(..) => "Ident"@,
        TokenView::Op(..) => "Op"@,
        TokenView::Parens(..) => "Parens"@,
        TokenView::Braces(..) => "Braces"@,
        TokenView::Number(..) => "Number"@,
        TokenView::Type(..) => "Type"@,
    }
}

/// A token: a group as an open macro, its contents and a close macro; any
/// other token as `\LexerToken` with its source text, escaped.
pub open spec fn token_tex(t: SpannedTokenView, src: Seq<char>) -> Seq<char>
    decreases t, 1int,
{
    match t.token {
        TokenView::Parens(inner) => group_tex(inner, true, src),
        TokenView::Braces(inner) => group_tex(inner, false, src),
        _ => "\\LexerToken{"@ + escape_text(src.subrange(t.start as int, t.end as int)) + "}{"@ + token_kind_text(
            t.token,
        ) + "}"@,
    }
}

/// The tokens one after the other.
pub open spec fn tokens_tex(ts: Seq<SpannedTokenView>, src: Seq<char>) -> Seq<char>
    decreases ts, 0int,
{
    if ts.len() == 0 {
        Seq::empty()
    } else {
        proof {
            assert(decreases_to!(ts => ts.drop_last()));
            assert(decreases_to!(ts => ts[ts.len() - 1]));
        }
        tokens_tex(ts.drop_last(), src) + token_tex(ts.last(), src)
    }
}

#[verifier::spinoff_prover]
fn push_token(t: &Spanned<Token>, src: &Vec<char>, out: &mut Vec<char>)
    requires
        span_ok(crate::lexer::spanned_token_view(*t), src@.len()),
    ensures
        final(out)@ == old(out)@ + token_tex(crate::lexer::spanned_token_view(*t), src@),
    decreases t, 2int,
{
    let ghost tv = crate::lexer::spanned_token_view(*t);
    match &t.inner {
        Token::Parens(inner) => {
            proof {
                assert(decreases_to!(*t => t.inner));
                assert(decreases_to!(t.inner => *inner));
            }
            push_group(inner, true, src, out);
        },
        Token::Braces(inner) => {
            proof {
                assert(decreases_to!(*t => t.inner));
                assert(decreases_to!(t.inner => *inner));
            }
            push_group(inner, false, src, out);
        },
        _ => push_leaf_token(t, src, out),
    }
}

/// A group's macros around its contents.
pub open spec fn group_tex(inner: Seq<SpannedTokenView>, parens: bool, src: Seq<char>) -> Seq<char>
    decreases inner, 1int,
{
    if parens {
        "\\LexerTokenTreeOpen{"@ + escape_char('(') + "}{"@ + "Parens"@ + "}"@ + tokens_tex(inner, src)
            + "\\LexerTokenTreeClose{"@ + escape_char(')') + "}{"@ + "Parens"@ + "}"@
    } else {
        "\\LexerTokenTreeOpen{"@ + escape_char('{') + "}{"@ + "Braces"@ + "}"@ + tokens_tex(inner, src)
            + "\\LexerTokenTreeClose{"@ + escape_char('}') + "}{"@ + "Braces"@ + "}"@
    }
}

#[verifier::spinoff_prover]
fn push_group(inner: &Vec<Spanned<Token>>, parens: bool, src: &Vec<char>, out: &mut Vec<char>)
    requires
        spans_ok(spanned_tokens_view(inner@), src@.len()),
    ensures
        final(out)@ == old(out)@ + group_tex(spanned_tokens_view(inner@), parens, src@),
    decreases inner, 1int,
{
    push_str(out, "\\LexerTokenTreeOpen{");
    if parens {
        out.push('(');
    } else {
        out.push('\\');
        out.push('{');
    }
    push_str(out, "}{");
    if parens {
        push_str(out, "Parens");
    } else {
        push_str(out, "Braces");
    }
    push_str(out, "}");
    push_tokens(inner, src, out);
    push_str(out, "\\LexerTokenTreeClose{");
    if parens {
        out.push(')');
    } else {
        out.push('\\');
        out.push('}');
    }
    push_str(out, "}{");
    if parens {
        push_str(out, "Parens");
    } else {
        push_str(out, "Braces");
    }
    push_str(out, "}");
    proof {
        assert(final(out)@ =~= old(out)@ + group_tex(spanned_tokens_view(inner@), parens, src@));
    }
}

#[verifier::spinoff_prover]
fn push_leaf_token(t: &Spanned<Token>, src: &Vec<char>, out: &mut Vec<char>)
    requires
        span_ok(crate::lexer::spanned_token_view(*t), src@.len()),
        !(t.inner is Parens),
        !(t.inner is Braces),
    ensures
        final(out)@ == old(out)@ + token_tex(crate::lexer::spanned_token_view(*t), src@),
{
    let ghost tv = crate::lexer::spanned_token_view(*t);
    push_str(out, "\\LexerToken{");
    let mut txt: Vec<char> = Vec::new();
    let mut k: usize = t.span.start;
    while k < t.span.end
        invariant
            t.span.start <= k <= t.span.end <= src@.len(),
            txt@ == src@.subrange(t.span.start as int, k as int),
        decreases t.span.end - k,
    {
        txt.push(src[k]);
        proof {
            assert(src@.subrange(t.span.start as int, k + 1) == src@.subrange(t.span.start as int, k as int).push(src@[k as int]));
        }
        k = k + 1;
    }
    push_escaped(out, &txt);
    push_str(out, "}{");
    match &t.inner {
        Token::Keyword(..) => push_str(out, "Keyword"),
        Token::Symbol(..) => push_str(out, "Symbol"),
        Token::DollarIdent(..) => push_str(out, "DollarIdent"),
        Token::Ident(..) => push_str(out, "Ident"),
        Token::Op { .. } => push_str(out, "Op"),
        Token::Parens(..) => push_str(out, "Parens"),
        Token::Braces(..) => push_str(out, "Braces"),
        Token::Number(..) => push_str(out, "Number"),
        Token::Type(..) => push_str(out, "Type"),
    }
    push_str(out, "}");
    proof {
        assert(final(out)@ =~= old(out)@ + token_tex(tv, src@));
    }
}

#[verifier::spinoff_prover]
fn push_tokens(ts: &Vec<Spanned<Token>>, src: &Vec<char>, out: &mut Vec<char>)
    requires
        spans_ok(spanned_tokens_view(ts@), src@.len()),
    ensures
        final(out)@ == old(out)@ + tokens_tex(spanned_tokens_view(ts@), src@),
    decreases ts, 0int,
{
    let ghost tv = spanned_tokens_view(ts@);
    let ghost before = out@;
    proof {
        crate::lexer::lemma_spanned_tokens_view(ts@);
        assert(decreases_to!(*ts => ts@));
        assert(tv.take(0) =~= Seq::<SpannedTokenView>::empty());
    }
    let mut i: usize = 0;
    while i < ts.len()
        invariant
            decreases_to!(*ts => ts@),
            i <= ts@.len(),
            tv == spanned_tokens_view(ts@),
            tv.len() == ts@.len(),
            forall|k: int| 0 <= k < ts@.len() ==> #[trigger] tv[k] == crate::lexer::spanned_token_view(ts@[k]),
            spans_ok(tv, src@.len()),
            out@ == before + tokens_tex(tv.take(i as int), src@),
        decreases ts@.len() - i,
    {
        proof {
            lemma_spans_element(tv, src@.len(), i as int);
            assert(decreases_to!(ts@ => ts@[i as int]));
        }
        push_token(&ts[i], src, out);
        proof {
            assert(tv.take(i + 1).drop_last() == tv.take(i as int));
            assert(tv.take(i + 1).last() == tv[i as int]);
            assert(out@ =~= before + tokens_tex(tv.take(i + 1), src@));
        }
        i = i + 1;
    }
    proof {
        assert(tv.take(ts@.len() as int) == tv);
    }
}

/// The lexer's output as TeX.
pub open spec fn lexer_output_tex(ts: Seq<SpannedTokenView>, src: Seq<char>) -> Seq<char> {
    "\\(  % lexer output\n"@ + tokens_tex(ts, src) + "\n)"@
}

/// Renders tokens, each with its text in `src`, as TeX macros; the spans
/// count characters of `src`, as `lex_chars` gives them.
pub fn tokens_fmt_tex(tokens: &Vec<Spanned<Token>>, src: &Vec<char>) -> (r: String)
    requires
        spans_ok(spanned_tokens_view(tokens@), src@.len()),
    ensures
        r@ == lexer_output_tex(spanned_tokens_view(tokens@), src@),
{
    let mut out: Vec<char> = Vec::new();
    push_str(&mut out, "\\(  % lexer output\n");
    push_tokens(tokens, src, &mut out);
    push_str(&mut out, "\n)");
    proof {
        assert(out@ =~= lexer_output_tex(spanned_tokens_view(tokens@), src@));
    }
    crate::text::string_of_chars(&out, 0, out.len())
}

fn span_within(t: &Spanned<Token>, n: usize) -> (r: bool)
    ensures
        r == span_ok(crate::lexer::spanned_token_view(*t), n as nat),
    decreases t, 1int,
{
    if !(t.span.start <= t.span.end && t.span.end <= n) {
        return false;
    }
    match &t.inner {
        Token::Parens(inner) => {
            proof {
                assert(decreases_to!(*t => t.inner));
                assert(decreases_to!(t.inner => *inner));
            }
            spans_within(inner, n)
        },
        Token::Braces(inner) => {
            proof {
                assert(decreases_to!(*t => t.inner));
                assert(decreases_to!(t.inner => *inner));
            }
            spans_within(inner, n)
        },
        _ => true,
    }
}

/// Whether every span lies within a source of `n` characters, as
/// [`tokens_fmt_tex`] needs.
pub fn spans_within(ts: &Vec<Spanned<Token>>, n: usize) -> (r: bool)
    ensures
        r == spans_ok(spanned_tokens_view(ts@), n as nat),
    decreases ts, 0int,
{
    let ghost tv = spanned_tokens_view(ts@);
    proof {
        crate::lexer::lemma_spanned_tokens_view(ts@);
        assert(decreases_to!(*ts => ts@));
        assert(tv.take(0) =~= Seq::<SpannedTokenView>::empty());
    }
    let mut i: usize = 0;
    while i < ts.len()
        invariant
            decreases_to!(*ts => ts@),
            i <= ts@.len(),
            tv == spanned_tokens_view(ts@),
            tv.len() == ts@.len(),
            forall|k: int| 0 <= k < ts@.len() ==> #[trigger] tv[k] == crate::lexer::spanned_token_view(ts@[k]),
            spans_ok(tv.take(i as int), n as nat),
        decreases ts@.len() - i,
    {
        proof {
            assert(decreases_to!(ts@ => ts@[i as int]));
            assert(tv.take(i + 1).drop_last() == tv.take(i as int));
            assert(tv.take(i + 1).last() == tv[i as int]);
        }
        if !span_within(&ts[i], n) {
            proof {
                lemma_spans_prefix(tv, n as nat, i as int + 1);
            }
            return false;
        }
        i = i + 1;
    }
    proof {
        assert(tv.take(ts@.len() as int) == tv);
    }
    true
}

proof fn lemma_spans_prefix(ts: Seq<SpannedTokenView>, n: nat, k: int)
    requires
        0 <= k <= ts.len(),
        !spans_ok(ts.take(k), n),
    ensures
        !spans_ok(ts, n),
    decreases ts.len() - k,
{
    if k < ts.len() {
        assert(ts.take(k + 1).drop_last() == ts.take(k));
        lemma_spans_prefix(ts, n, k + 1);
    } else {
        assert(ts.take(k) == ts);
    }
}

// ---------------------------------------------------------------------------
// Namespace tables.
// ---------------------------------------------------------------------------

/// The columns a scope table shows for each name: its type.
pub fn namespace_item_columns() -> (r: Vec<&'static str>)
    ensures
        r@.len() == 1,
        r@[0]@ == "type"@,
{
    vec!["type"]
}

/// The cells a scope table shows for a name: its type, in typewriter font.
pub fn namespace_item_entries(item: &crate::compiler::NamespaceItemFullyTyped) -> (r: Vec<String>)
    ensures
        r@.len() == 1,
        r@[0]@ == "\\texttt{"@ + type_text(item.ty@) + "}"@,
{
    let mut out: Vec<char> = Vec::new();
    push_str(&mut out, "\\texttt{");
    push_type(&mut out, &item.ty);
    push_str(&mut out, "}");
    let cell = crate::text::string_of_chars(&out, 0, out.len());
    proof {
        assert(cell@ =~= "\\texttt{"@ + type_text(item.ty@) + "}"@);
    }
    vec![cell]
}

} // verus!
