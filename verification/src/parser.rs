//! The parser: turns the lexer's token forest into functions and expressions.
//!
//! A file is a sequence of functions `$fn name(arg: type, ...): type = (body)`.
//! Expressions are atoms (`true`, `false`, variables, `let name = expr`, typed
//! number literals, and blocks `{ expr; ...; }`) combined by infix operators.
//! `*`, `/`, `*.`, `*><` and `*@` bind tighter (power 5) than `+` and `-`
//! (power 4); an operator lifted once (`+^`) has power 1, twice (`+^^`) power
//! 0; all associate to the left.  A parenthesized or braced group must be
//! consumed entirely by what is parsed inside it.
use vstd::prelude::*;
use vstd::string::StringExecFns;
use crate::ast::{
    ExprView, ExprDataView, ArgView, FunctionView, InfixOp, empty_sidecar, Expr, ExprData, LiteralInt,
    LiteralFloat, Block, expr_view, exprs_view, lemma_exprs_view_push, expr_data_view, FunctionArg,
    FunctionData, Function, File, arg_view, args_view, group_functions,
};
use crate::types::type_copy;
use crate::lexer::{
    Span, Spanned, Token, TokenView, SpannedTokenView, spanned_tokens_view, spanned_token_view,
    lemma_spanned_tokens_view, Keyword, Symbol, Op, NumberView, NumberValueView, Number, NumberValue,
    Digits, number_view, number_value_view, token_view, copy_digits, copy_number_value,
};
use crate::types::{Type, TypeView, NumberKind};

verus! {

// ---------------------------------------------------------------------------
// The grammar, as functions of a token sequence and a position.
// ---------------------------------------------------------------------------

pub open spec fn span_of(t: SpannedTokenView) -> Span {
    Span { start: t.start as usize, end: t.end as usize }
}

/// An expression with an empty sidecar.
pub open spec fn mk(d: ExprDataView) -> ExprView {
    ExprView { data: d, sidecar: empty_sidecar() }
}

/// The binding power of an operator token, if it is an infix operator.
pub open spec fn infix_power(op: Op, lifts: nat) -> Option<int> {
    if lifts == 0 {
        if op is Add || op is Subtract {
            Some(4)
        } else {
            Some(5)
        }
    } else if lifts == 1 {
        Some(1)
    } else if lifts == 2 {
        Some(0)
    } else {
        None
    }
}

pub open spec fn ast_op(op: Op) -> InfixOp {
    match op {
        Op::Add => InfixOp::Add,
        Op::Subtract => InfixOp::Subtract,
        Op::Multiply => InfixOp::Multiply,
        Op::Divide => InfixOp::Divide,
        Op::DotProduct => InfixOp::DotProduct,
        Op::CrossProduct => InfixOp::CrossProduct,
        Op::MatrixMultiply => InfixOp::MatrixMultiply,
    }
}

/// A number literal as an expression: it needs a type suffix, and an
/// integer type needs a value without a fractional part.
pub open spec fn number_literal(n: NumberView, sp: Span) -> Option<ExprDataView> {
    match n.kind {
        None => None,
        Some(NumberKind::Float(f)) => Some(ExprDataView::LiteralFloat(f, n.value, sp)),
        Some(NumberKind::Integer(t)) => match n.value {
            NumberValueView::Int(r, ds) => Some(ExprDataView::LiteralInt(t, r, ds, sp)),
            NumberValueView::Float(..) => None,
        },
    }
}

/// An atom at `i`.
pub open spec fn atom_at(ts: Seq<SpannedTokenView>, i: nat) -> Option<(ExprView, nat)>
    decreases ts, ts.len() - i, 1int,
{
    if i >= ts.len() {
        None
    } else {
        let t = ts[i as int];
        match t.token {
            TokenView::Keyword(Keyword::True) => Some((mk(ExprDataView::LiteralBool(true, span_of(t))), i + 1)),
            TokenView::Keyword(Keyword::False) => Some((mk(ExprDataView::LiteralBool(false, span_of(t))), i + 1)),
            TokenView::Ident(x) => Some((mk(ExprDataView::Var(x, span_of(t))), i + 1)),
            TokenView::Keyword(Keyword::Let) => {
                if i + 2 < ts.len() && ts[i as int + 1].token is Ident && ts[i as int + 2].token == TokenView::Symbol(
                    Symbol::Equals,
                ) {
                    match expr_at(ts, i + 3, -1) {
                        Some((v, k)) => Some(
                            (
                                mk(
                                    ExprDataView::Declaration(
                                        ts[i as int + 1].token->Ident_0,
                                        span_of(ts[i as int + 1]),
                                        Box::new(v),
                                    ),
                                ),
                                k,
                            ),
                        ),
                        None => None,
                    }
                } else {
                    None
                }
            },
            TokenView::Number(n) => match number_literal(n, span_of(t)) {
                Some(d) => Some((mk(d), i + 1)),
                None => None,
            },
            TokenView::Braces(inner) => {
                proof {
                    assert(decreases_to!(ts => ts[i as int]));
                    assert(decreases_to!(ts[i as int] => ts[i as int].token));
                    assert(decreases_to!(ts[i as int].token => (ts[i as int].token)->Braces_0));
                }
                match block_at(inner) {
                    Some((exprs, last)) => Some(
                        (
                            mk(
                                ExprDataView::Block(
                                    exprs,
                                    match last {
                                        Some(e) => Some(Box::new(e)),
                                        None => None,
                                    },
                                    span_of(t),
                                ),
                            ),
                            i + 1,
                        ),
                    ),
                    None => None,
                }
            },
            _ => None,
        }
    }
}

/// An expression at `i` whose operators all bind with at least `min` power.
pub open spec fn expr_at(ts: Seq<SpannedTokenView>, i: nat, min: int) -> Option<(ExprView, nat)>
    decreases ts, ts.len() - i, 2int,
{
    if i > ts.len() {
        None
    } else {
        match atom_at(ts, i) {
            None => None,
            Some((a, j)) => if i < j <= ts.len() {
                Some(climb(ts, j, a, min))
            } else {
                None
            },
        }
    }
}

/// After `lhs`, which ends at `j`, as many infix operators and operands as
/// bind with at least `min` power.
pub open spec fn climb(ts: Seq<SpannedTokenView>, j: nat, lhs: ExprView, min: int) -> (ExprView, nat)
    decreases ts, ts.len() - j, 0int,
{
    if j >= ts.len() {
        (lhs, j)
    } else {
        match ts[j as int].token {
            TokenView::Op(op, lifts) => match infix_power(op, lifts) {
                Some(p) => if 2 * p >= min {
                    match expr_at(ts, j + 1, 2 * p + 1) {
                        Some((rhs, k)) => if j < k <= ts.len() {
                            climb(
                                ts,
                                k,
                                mk(ExprDataView::InfixOp(Box::new(lhs), ast_op(op), span_of(ts[j as int]), Box::new(rhs))),
                                min,
                            )
                        } else {
                            (lhs, j)
                        },
                        None => (lhs, j),
                    }
                } else {
                    (lhs, j)
                },
                None => (lhs, j),
            },
            _ => (lhs, j),
        }
    }
}

/// The product operators: `*`, `/`, `*.`, `*><`, `*@`.
pub open spec fn is_product(op: Op) -> bool {
    op is Multiply || op is Divide || op is DotProduct || op is CrossProduct || op is MatrixMultiply
}

/// How tightly operators bind: all products alike, all sums (`+`, `-`)
/// alike, products tighter than sums; an operator lifted once binds looser
/// than any unlifted one, and lifted twice looser still, whatever the
/// operator; three lifts make no operator.
pub proof fn law_operator_powers(op: Op, op2: Op, lifts: nat)
    ensures
        infix_power(op, lifts) is Some <==> lifts <= 2,
        is_product(op) && is_product(op2) ==> infix_power(op, 0) == infix_power(op2, 0),
        !is_product(op) && !is_product(op2) ==> infix_power(op, 0) == infix_power(op2, 0),
        is_product(op) && !is_product(op2) ==> infix_power(op, 0)->0 > infix_power(op2, 0)->0,
        1 <= lifts <= 2 ==> infix_power(op, lifts) == infix_power(op2, lifts) && infix_power(op, lifts)->0
            < infix_power(op2, 0)->0,
        infix_power(op, 2)->0 < infix_power(op, 1)->0,
{
}

/// Each operator token becomes the syntax-tree operator of the same
/// meaning: `+`, `-` and `*` compute sum, difference and product; `/` is
/// defined on floats and not on integers; `*.` gives a vector pair its
/// component type; `*><` keeps a three-component vector; and different
/// tokens give different operators.
pub proof fn law_ast_op_meaning(op: Op, op2: Op, x: int, y: int, v: crate::types::Vector, f: crate::types::Float, w: crate::types::Integer)
    ensures
        op != op2 ==> ast_op(op) != ast_op(op2),
        crate::iilgen::infix_int_value(ast_op(Op::Add), x, y) == Some(x + y),
        crate::iilgen::infix_int_value(ast_op(Op::Subtract), x, y) == Some(x - y),
        crate::iilgen::infix_int_value(ast_op(Op::Multiply), x, y) == Some(x * y),
        ({
            let tf = TypeView::Concrete(crate::types::Concrete::Number(NumberKind::Float(f)));
            let ti = TypeView::Concrete(crate::types::Concrete::Number(NumberKind::Integer(w)));
            crate::typing::infer_infix(ast_op(Op::Divide), tf, tf) == Some(tf) && crate::typing::infer_infix(
                ast_op(Op::Divide),
                ti,
                ti,
            ) is None
        }),
        ({
            let tv = TypeView::Concrete(crate::types::Concrete::Vector(v));
            &&& crate::typing::infer_infix(ast_op(Op::DotProduct), tv, tv) == Some(
                TypeView::Concrete(crate::types::Concrete::Number(v.component_type)),
            )
            &&& v.component_count == 3 ==> crate::typing::infer_infix(ast_op(Op::CrossProduct), tv, tv) == Some(tv)
        }),
{
}

/// The words `true` and `false` are the two truth values, each read as
/// itself, and every other word that is no keyword is a variable of that
/// name.
pub proof fn law_words_as_atoms(t: SpannedTokenView, name: Seq<char>)
    ensures
        ({
            let ts_true = seq![SpannedTokenView { token: crate::lexer::keyword_or_ident("true"@), ..t }];
            let ts_false = seq![SpannedTokenView { token: crate::lexer::keyword_or_ident("false"@), ..t }];
            &&& atom_at(ts_true, 0) == Some((mk(ExprDataView::LiteralBool(true, span_of(ts_true[0]))), 1nat))
            &&& atom_at(ts_false, 0) == Some((mk(ExprDataView::LiteralBool(false, span_of(ts_false[0]))), 1nat))
        }),
        crate::lexer::keyword_or_ident(name) is Ident ==> crate::lexer::keyword_or_ident(name) == TokenView::Ident(
            name,
        ),
        !(name == "fn"@ || name == "let"@ || name == "if"@ || name == "else"@ || name == "true"@ || name
            == "false"@) ==> crate::lexer::keyword_or_ident(name) == TokenView::Ident(name),
{
    reveal_strlit("true");
    reveal_strlit("false");
    reveal_strlit("fn");
    reveal_strlit("let");
    reveal_strlit("if");
    reveal_strlit("else");
    assert("true"@ =~= seq!['t', 'r', 'u', 'e']);
    assert("false"@ =~= seq!['f', 'a', 'l', 's', 'e']);
    assert("fn"@ =~= seq!['f', 'n']);
    assert("let"@ =~= seq!['l', 'e', 't']);
    assert("if"@ =~= seq!['i', 'f']);
    assert("else"@ =~= seq!['e', 'l', 's', 'e']);
}

/// The variable that the identifier token `k` of `ts` stands for.
pub open spec fn var_of(ts: Seq<SpannedTokenView>, k: int) -> ExprView {
    mk(ExprDataView::Var(ts[k].token->Ident_0, span_of(ts[k])))
}

/// `l`, the operator token `k` of `ts`, and `r`, as an expression.
pub open spec fn infix_of(l: ExprView, ts: Seq<SpannedTokenView>, k: int, r: ExprView) -> ExprView {
    mk(ExprDataView::InfixOp(Box::new(l), ast_op(ts[k].token->Op_0), span_of(ts[k]), Box::new(r)))
}

/// Operator `o2` lifted `l2` times binds tighter than `o1` lifted `l1` times:
/// it is lifted fewer times, or neither is lifted and `o2` is a product
/// while `o1` is a sum.
pub open spec fn binds_tighter(o2: Op, l2: nat, o1: Op, l1: nat) -> bool {
    l2 < l1 || (l1 == 0 && l2 == 0 && !is_product(o1) && is_product(o2))
}

proof fn lemma_climb_at_end(ts: Seq<SpannedTokenView>, e: ExprView, min: int)
    requires
        ts.len() == 5,
    ensures
        climb(ts, 5, e, min) == (e, 5nat),
{
}

/// Precedence and associativity: `x o1 y o2 z`, for identifiers `x`, `y`,
/// `z` and operators `o1`, `o2` (each lifted at most twice), groups as
/// `x o1 (y o2 z)` exactly when `o2` binds tighter than `o1`, and as
/// `(x o1 y) o2 z` otherwise; so `a / b * c` is `(a / b) * c` and
/// `a + b * c` is `a + (b * c)`.
pub proof fn law_precedence(ts: Seq<SpannedTokenView>)
    requires
        ts.len() == 5,
        ts[0].token is Ident,
        ts[2].token is Ident,
        ts[4].token is Ident,
        ts[1].token matches TokenView::Op(_, l1) && l1 <= 2,
        ts[3].token matches TokenView::Op(_, l2) && l2 <= 2,
    ensures
        whole_expr(ts) == Some(
            if binds_tighter(ts[3].token->Op_0, ts[3].token->Op_1, ts[1].token->Op_0, ts[1].token->Op_1) {
                infix_of(var_of(ts, 0), ts, 1, infix_of(var_of(ts, 2), ts, 3, var_of(ts, 4)))
            } else {
                infix_of(infix_of(var_of(ts, 0), ts, 1, var_of(ts, 2)), ts, 3, var_of(ts, 4))
            },
        ),
{
    let (o1, l1) = (ts[1].token->Op_0, ts[1].token->Op_1);
    let (o2, l2) = (ts[3].token->Op_0, ts[3].token->Op_1);
    let p1 = infix_power(o1, l1)->0;
    let p2 = infix_power(o2, l2)->0;
    let x = var_of(ts, 0);
    let y = var_of(ts, 2);
    let z = var_of(ts, 4);
    assert(atom_at(ts, 0) == Some((x, 1nat)));
    assert(atom_at(ts, 2) == Some((y, 3nat)));
    assert(atom_at(ts, 4) == Some((z, 5nat)));
    assert(p2 > p1 <==> binds_tighter(o2, l2, o1, l1));
    lemma_climb_at_end(ts, z, 2 * p1 + 1);
    lemma_climb_at_end(ts, z, 2 * p2 + 1);
    assert(expr_at(ts, 4, 2 * p2 + 1) == Some((z, 5nat)));
    if p2 > p1 {
        let yz = infix_of(y, ts, 3, z);
        lemma_climb_at_end(ts, yz, 2 * p1 + 1);
        assert(climb(ts, 3, y, 2 * p1 + 1) == (yz, 5nat));
        assert(expr_at(ts, 2, 2 * p1 + 1) == Some((yz, 5nat)));
        let e = infix_of(x, ts, 1, yz);
        lemma_climb_at_end(ts, e, -1);
        assert(climb(ts, 1, x, -1) == (e, 5nat));
        assert(expr_at(ts, 0, -1) == Some((e, 5nat)));
    } else {
        assert(climb(ts, 3, y, 2 * p1 + 1) == (y, 3nat));
        assert(expr_at(ts, 2, 2 * p1 + 1) == Some((y, 3nat)));
        let xy = infix_of(x, ts, 1, y);
        let e = infix_of(xy, ts, 3, z);
        lemma_climb_at_end(ts, e, -1);
        assert(climb(ts, 3, xy, -1) == (e, 5nat));
        assert(climb(ts, 1, x, -1) == (e, 5nat));
        assert(expr_at(ts, 0, -1) == Some((e, 5nat)));
    }
}

/// Expressions separated by `;`, starting at `i`, as many as there are.
pub open spec fn sep_exprs(ts: Seq<SpannedTokenView>, i: nat) -> (Seq<ExprView>, nat)
    decreases ts, ts.len() - i, 3int,
{
    if i > ts.len() {
        (Seq::empty(), i)
    } else {
        match expr_at(ts, i, -1) {
            None => (Seq::empty(), i),
            Some((e, j)) => if i < j <= ts.len() {
                let (rest, k) = sep_more(ts, j);
                (seq![e] + rest, k)
            } else {
                (Seq::empty(), i)
            },
        }
    }
}

/// More `; expr` after an expression ending at `j`.
pub open spec fn sep_more(ts: Seq<SpannedTokenView>, j: nat) -> (Seq<ExprView>, nat)
    decreases ts, ts.len() - j, 3int,
{
    if j < ts.len() && ts[j as int].token == TokenView::Symbol(Symbol::Semicolon) {
        match expr_at(ts, j + 1, -1) {
            Some((e, k)) => if j < k <= ts.len() {
                let (rest, m) = sep_more(ts, k);
                (seq![e] + rest, m)
            } else {
                (Seq::empty(), j)
            },
            None => (Seq::empty(), j),
        }
    } else {
        (Seq::empty(), j)
    }
}

/// The contents of a braced block: expressions separated by `;`, then `;`,
/// then an optional final expression, and nothing else.
pub open spec fn block_at(ts: Seq<SpannedTokenView>) -> Option<(Seq<ExprView>, Option<ExprView>)>
    decreases ts, ts.len() + 1, 0int,
{
    let (exprs, j) = sep_exprs(ts, 0);
    if j < ts.len() && ts[j as int].token == TokenView::Symbol(Symbol::Semicolon) {
        match expr_at(ts, j + 1, -1) {
            Some((e, k)) => if k == ts.len() {
                Some((exprs, Some(e)))
            } else {
                None
            },
            None => if j + 1 == ts.len() {
                Some((exprs, None))
            } else {
                None
            },
        }
    } else {
        None
    }
}

/// A whole token sequence as one expression.
pub open spec fn whole_expr(ts: Seq<SpannedTokenView>) -> Option<ExprView> {
    match expr_at(ts, 0, -1) {
        Some((e, k)) => if k == ts.len() {
            Some(e)
        } else {
            None
        },
        None => None,
    }
}

/// A function argument `name: type` at `i`.
pub open spec fn arg_at(ts: Seq<SpannedTokenView>, i: nat) -> Option<(ArgView, nat)> {
    if i + 2 < ts.len() && ts[i as int].token is Ident && ts[i as int + 1].token == TokenView::Symbol(Symbol::Colon)
        && ts[i as int + 2].token is Type {
        Some(
            (
                ArgView {
                    name: ts[i as int].token->Ident_0,
                    name_span: span_of(ts[i as int]),
                    ty: ts[i as int + 2].token->Type_0,
                    ty_span: span_of(ts[i as int + 2]),
                },
                i + 3,
            ),
        )
    } else {
        None
    }
}

/// More `, arg` after an argument ending at `j`.
pub open spec fn args_more(ts: Seq<SpannedTokenView>, j: nat) -> (Seq<ArgView>, nat)
    decreases ts.len() - j,
{
    if j < ts.len() && ts[j as int].token == TokenView::Symbol(Symbol::Comma) && arg_at(ts, j + 1) is Some {
        let (a, k) = arg_at(ts, j + 1).unwrap();
        if j < k <= ts.len() {
            let (rest, m) = args_more(ts, k);
            (seq![a] + rest, m)
        } else {
            (Seq::empty(), j)
        }
    } else {
        (Seq::empty(), j)
    }
}

/// The contents of an argument list: arguments separated by `,`.
pub open spec fn args_list(ts: Seq<SpannedTokenView>) -> Option<Seq<ArgView>> {
    match arg_at(ts, 0) {
        None => if ts.len() == 0 {
            Some(Seq::empty())
        } else {
            None
        },
        Some((a, j)) => {
            let (rest, k) = args_more(ts, j);
            if k == ts.len() {
                Some(seq![a] + rest)
            } else {
                None
            }
        },
    }
}

/// A function `$fn name(args): type = (body)` at `i`.
pub open spec fn function_at(ts: Seq<SpannedTokenView>, i: nat) -> Option<(FunctionView, nat)> {
    if i + 6 < ts.len() && ts[i as int].token == TokenView::DollarIdent(seq!['f', 'n'])
        && ts[i as int + 1].token is Ident && ts[i as int + 2].token is Parens && args_list(ts[i as int + 2].token->Parens_0) is Some
        && ts[i as int + 3].token == TokenView::Symbol(Symbol::Colon) && ts[i as int + 4].token is Type && ts[i as int + 5].token
        == TokenView::Symbol(Symbol::Equals) && ts[i as int + 6].token is Parens && whole_expr(
        ts[i as int + 6].token->Parens_0,
    ) is Some {
        Some(
            (
                FunctionView {
                    name: ts[i as int + 1].token->Ident_0,
                    name_span: span_of(ts[i as int + 1]),
                    return_type: ts[i as int + 4].token->Type_0,
                    return_span: span_of(ts[i as int + 4]),
                    args: args_list(ts[i as int + 2].token->Parens_0).unwrap(),
                    body: whole_expr(ts[i as int + 6].token->Parens_0).unwrap(),
                    sidecar: None,
                },
                i + 7,
            ),
        )
    } else {
        None
    }
}

/// As many functions as follow `i`.
pub open spec fn functions_at(ts: Seq<SpannedTokenView>, i: nat) -> (Seq<FunctionView>, nat)
    decreases ts.len() - i,
{
    match function_at(ts, i) {
        Some((f, j)) => if i < j <= ts.len() {
            let (rest, k) = functions_at(ts, j);
            (seq![f] + rest, k)
        } else {
            (Seq::empty(), i)
        },
        None => (Seq::empty(), i),
    }
}

/// What parsing a whole token sequence as a file gives.
pub open spec fn parse_file(ts: Seq<SpannedTokenView>) -> Option<Seq<(Seq<char>, Seq<FunctionView>)>> {
    let (fs, k) = functions_at(ts, 0);
    if k == ts.len() {
        Some(group_functions(fs))
    } else {
        None
    }
}


// ---------------------------------------------------------------------------
// The executable parser.  Each function computes what the grammar function
// of the same shape gives, on the view of its tokens.
// ---------------------------------------------------------------------------

/// An optional boxed expression, by its view.
pub open spec fn opt_expr_view(o: Option<Box<Expr>>) -> Option<ExprView> {
    match o {
        Some(e) => Some(expr_view(*e)),
        None => None,
    }
}

fn op_power(op: Op, lifts: usize) -> (r: Option<i32>)
    ensures
        r is Some <==> infix_power(op, lifts as nat) is Some,
        r is Some ==> r->0 as int == infix_power(op, lifts as nat)->0,
        r is Some ==> 0 <= r->0 <= 5,
{
    if lifts == 0 {
        match op {
            Op::Add | Op::Subtract => Some(4),
            _ => Some(5),
        }
    } else if lifts == 1 {
        Some(1)
    } else if lifts == 2 {
        Some(0)
    } else {
        None
    }
}

fn ast_op_exec(op: Op) -> (r: InfixOp)
    ensures
        r == ast_op(op),
{
    match op {
        Op::Add => InfixOp::Add,
        Op::Subtract => InfixOp::Subtract,
        Op::Multiply => InfixOp::Multiply,
        Op::Divide => InfixOp::Divide,
        Op::DotProduct => InfixOp::DotProduct,
        Op::CrossProduct => InfixOp::CrossProduct,
        Op::MatrixMultiply => InfixOp::MatrixMultiply,
    }
}

fn number_literal_exec(n: &Number, sp: Span) -> (r: Option<ExprData>)
    ensures
        match r {
            Some(d) => number_literal(number_view(*n), sp) == Some(expr_data_view(d)),
            None => number_literal(number_view(*n), sp) is None,
        },
{
    match n.kind {
        None => None,
        Some(NumberKind::Float(f)) => Some(
            ExprData::LiteralFloat(
                Spanned { inner: LiteralFloat { ty: f, value: copy_number_value(&n.value) }, span: sp },
            ),
        ),
        Some(NumberKind::Integer(t)) => match &n.value {
            NumberValue::Int(d) => Some(
                ExprData::LiteralInt(Spanned { inner: LiteralInt { ty: t, value: copy_digits(d) }, span: sp }),
            ),
            NumberValue::Float { .. } => None,
        },
    }
}

fn parse_atom(ts: &Vec<Spanned<Token>>, i: usize) -> (r: Option<(Expr, usize)>)
    ensures
        match r {
            Some((e, k)) => atom_at(spanned_tokens_view(ts@), i as nat) == Some((e@, k as nat)),
            None => atom_at(spanned_tokens_view(ts@), i as nat) is None,
        },
    decreases ts@, ts@.len() - i, 1int,
{
    let ghost v = spanned_tokens_view(ts@);
    proof {
        lemma_spanned_tokens_view(ts@);
    }
    if i >= ts.len() {
        return None;
    }
    let t = &ts[i];
    assert(v[i as int] == spanned_token_view(ts@[i as int]));
    match &t.inner {
        Token::Keyword(Keyword::True) => Some(
            (Expr::from_data(ExprData::LiteralBool(Spanned { inner: true, span: t.span })), i + 1),
        ),
        Token::Keyword(Keyword::False) => Some(
            (Expr::from_data(ExprData::LiteralBool(Spanned { inner: false, span: t.span })), i + 1),
        ),
        Token::Ident(x) => Some(
            (Expr::from_data(ExprData::Var(Spanned { inner: x.clone(), span: t.span })), i + 1),
        ),
        Token::Keyword(Keyword::Let) => {
            if ts.len() - i > 2 {
                assert(v[i as int + 1] == spanned_token_view(ts@[i + 1]));
                assert(v[i as int + 2] == spanned_token_view(ts@[i + 2]));
                if let Token::Ident(x) = &ts[i + 1].inner {
                    if let Token::Symbol(Symbol::Equals) = &ts[i + 2].inner {
                        match parse_expr(ts, i + 3, -1) {
                            Some((value, k)) => {
                                let name = Spanned { inner: x.clone(), span: ts[i + 1].span };
                                Some(
                                    (
                                        Expr::from_data(ExprData::Declaration { name, value: Box::new(value) }),
                                        k,
                                    ),
                                )
                            },
                            None => None,
                        }
                    } else {
                        None
                    }
                } else {
                    None
                }
            } else {
                None
            }
        },
        Token::Number(n) => match number_literal_exec(n, t.span) {
            Some(d) => Some((Expr::from_data(d), i + 1)),
            None => None,
        },
        Token::Braces(inner) => {
            proof {
                assert(decreases_to!(ts@ => ts@[i as int]));
                assert(decreases_to!(ts@[i as int] => ts@[i as int].inner));
                assert(decreases_to!(ts@[i as int].inner => (ts@[i as int].inner)->Braces_0));
                assert(decreases_to!((ts@[i as int].inner)->Braces_0 => (ts@[i as int].inner)->Braces_0@));
            }
            match parse_block(inner) {
                Some((exprs, last)) => Some(
                    (
                        Expr::from_data(ExprData::Block(Spanned { inner: Block { exprs, last }, span: t.span })),
                        i + 1,
                    ),
                ),
                None => None,
            }
        },
        _ => None,
    }
}

fn parse_expr(ts: &Vec<Spanned<Token>>, i: usize, min: i32) -> (r: Option<(Expr, usize)>)
    ensures
        match r {
            Some((e, k)) => expr_at(spanned_tokens_view(ts@), i as nat, min as int) == Some((e@, k as nat)),
            None => expr_at(spanned_tokens_view(ts@), i as nat, min as int) is None,
        },
    decreases ts@, ts@.len() - i, 2int,
{
    let ghost v = spanned_tokens_view(ts@);
    proof {
        lemma_spanned_tokens_view(ts@);
    }
    if i > ts.len() {
        return None;
    }
    match parse_atom(ts, i) {
        None => None,
        Some((a, j0)) => {
            if !(i < j0 && j0 <= ts.len()) {
                return None;
            }
            let ghost target = climb(v, j0 as nat, a@, min as int);
            let mut lhs = a;
            let mut j = j0;
            loop
                invariant
                    i < j <= ts.len(),
                    v == spanned_tokens_view(ts@),
                    v.len() == ts@.len(),
                    forall|k: int| 0 <= k < ts@.len() ==> #[trigger] v[k] == spanned_token_view(ts@[k]),
                    climb(v, j as nat, lhs@, min as int) == target,
                ensures
                    i < j <= ts.len(),
                    climb(v, j as nat, lhs@, min as int) == target,
                    target == (lhs@, j as nat),
                decreases ts.len() - j,
            {
                if j >= ts.len() {
                    break;
                }
                assert(v[j as int] == spanned_token_view(ts@[j as int]));
                match &ts[j].inner {
                    Token::Op { op, lifts } => {
                        match op_power(*op, *lifts) {
                            Some(p) => {
                                if 2 * p >= min {
                                    match parse_expr(ts, j + 1, 2 * p + 1) {
                                        Some((rhs, k)) => {
                                            if j < k && k <= ts.len() {
                                                let opspan = ts[j].span;
                                                let o = Spanned { inner: ast_op_exec(*op), span: opspan };
                                                lhs = Expr::from_data(ExprData::InfixOp(Box::new(lhs), o, Box::new(rhs)));
                                                j = k;
                                            } else {
                                                break;
                                            }
                                        },
                                        None => {
                                            break;
                                        },
                                    }
                                } else {
                                    break;
                                }
                            },
                            None => {
                                break;
                            },
                        }
                    },
                    _ => {
                        break;
                    },
                }
            }
            Some((lhs, j))
        },
    }
}

fn parse_sep_exprs(ts: &Vec<Spanned<Token>>, i: usize) -> (r: (Vec<Expr>, usize))
    ensures
        sep_exprs(spanned_tokens_view(ts@), i as nat) == (exprs_view(r.0@), r.1 as nat),
    decreases ts@, ts@.len() - i, 3int,
{
    let ghost v = spanned_tokens_view(ts@);
    proof {
        lemma_spanned_tokens_view(ts@);
    }
    let mut out: Vec<Expr> = Vec::new();
    if i > ts.len() {
        assert(exprs_view(out@) =~= Seq::<ExprView>::empty());
        return (out, i);
    }
    match parse_expr(ts, i, -1) {
        None => {
            assert(exprs_view(out@) =~= Seq::<ExprView>::empty());
            (out, i)
        },
        Some((e, j0)) => {
            if !(i < j0 && j0 <= ts.len()) {
                assert(exprs_view(out@) =~= Seq::<ExprView>::empty());
                return (out, i);
            }
            let ghost target = sep_exprs(v, i as nat);
            proof {
                lemma_exprs_view_push(out@, e);
                assert(exprs_view(out@) =~= Seq::<ExprView>::empty());
            }
            out.push(e);
            let mut j = j0;
            loop
                invariant
                    i < j <= ts.len(),
                    v == spanned_tokens_view(ts@),
                    v.len() == ts@.len(),
                    forall|k: int| 0 <= k < ts@.len() ==> #[trigger] v[k] == spanned_token_view(ts@[k]),
                    exprs_view(out@) + sep_more(v, j as nat).0 == target.0,
                    sep_more(v, j as nat).1 == target.1,
                ensures
                    target == (exprs_view(out@), j as nat),
                decreases ts.len() - j,
            {
                if j >= ts.len() {
                    assert(exprs_view(out@) + Seq::<ExprView>::empty() =~= exprs_view(out@));
                    break;
                }
                assert(v[j as int] == spanned_token_view(ts@[j as int]));
                if let Token::Symbol(Symbol::Semicolon) = &ts[j].inner {
                    match parse_expr(ts, j + 1, -1) {
                        Some((e, k)) => {
                            if j < k && k <= ts.len() {
                                proof {
                                    lemma_exprs_view_push(out@, e);
                                    assert(exprs_view(out@) + sep_more(v, j as nat).0 =~= exprs_view(
                                        out@.push(e),
                                    ) + sep_more(v, k as nat).0);
                                }
                                out.push(e);
                                j = k;
                            } else {
                                assert(exprs_view(out@) + Seq::<ExprView>::empty() =~= exprs_view(out@));
                                break;
                            }
                        },
                        None => {
                            assert(exprs_view(out@) + Seq::<ExprView>::empty() =~= exprs_view(out@));
                            break;
                        },
                    }
                } else {
                    assert(exprs_view(out@) + Seq::<ExprView>::empty() =~= exprs_view(out@));
                    break;
                }
            }
            (out, j)
        },
    }
}

fn parse_block(ts: &Vec<Spanned<Token>>) -> (r: Option<(Vec<Expr>, Option<Box<Expr>>)>)
    ensures
        match r {
            Some((es, last)) => block_at(spanned_tokens_view(ts@)) == Some((exprs_view(es@), opt_expr_view(last))),
            None => block_at(spanned_tokens_view(ts@)) is None,
        },
    decreases ts@, ts@.len() + 1, 0int,
{
    let ghost v = spanned_tokens_view(ts@);
    proof {
        lemma_spanned_tokens_view(ts@);
    }
    let (exprs, j) = parse_sep_exprs(ts, 0);
    if j < ts.len() {
        assert(v[j as int] == spanned_token_view(ts@[j as int]));
        if let Token::Symbol(Symbol::Semicolon) = &ts[j].inner {
            match parse_expr(ts, j + 1, -1) {
                Some((e, k)) => if k == ts.len() {
                    Some((exprs, Some(Box::new(e))))
                } else {
                    None
                },
                None => if j + 1 == ts.len() {
                    Some((exprs, None))
                } else {
                    None
                },
            }
        } else {
            None
        }
    } else {
        None
    }
}

/// Parses a whole token sequence as one expression.
pub fn expr_parser(ts: &Vec<Spanned<Token>>) -> (r: Option<Expr>)
    ensures
        match r {
            Some(e) => whole_expr(spanned_tokens_view(ts@)) == Some(e@),
            None => whole_expr(spanned_tokens_view(ts@)) is None,
        },
{
    proof {
        lemma_spanned_tokens_view(ts@);
    }
    match parse_expr(ts, 0, -1) {
        Some((e, k)) => if k == ts.len() {
            Some(e)
        } else {
            None
        },
        None => None,
    }
}


fn parse_arg(ts: &Vec<Spanned<Token>>, i: usize) -> (r: Option<(FunctionArg, usize)>)
    ensures
        match r {
            Some((a, k)) => arg_at(spanned_tokens_view(ts@), i as nat) == Some((arg_view(a), k as nat)),
            None => arg_at(spanned_tokens_view(ts@), i as nat) is None,
        },
{
    let ghost v = spanned_tokens_view(ts@);
    proof {
        lemma_spanned_tokens_view(ts@);
    }
    if i < ts.len() && ts.len() - i > 2 {
        assert(v[i as int] == spanned_token_view(ts@[i as int]));
        assert(v[i as int + 1] == spanned_token_view(ts@[i + 1]));
        assert(v[i as int + 2] == spanned_token_view(ts@[i + 2]));
        if let Token::Ident(x) = &ts[i].inner {
            if let Token::Symbol(Symbol::Colon) = &ts[i + 1].inner {
                if let Token::Type(t) = &ts[i + 2].inner {
                    let name = Spanned { inner: x.clone(), span: ts[i].span };
                    let ty = Spanned { inner: type_copy(t), span: ts[i + 2].span };
                    return Some((FunctionArg { name, ty }, i + 3));
                }
            }
        }
    }
    None
}

fn parse_args(ts: &Vec<Spanned<Token>>) -> (r: Option<Vec<FunctionArg>>)
    ensures
        match r {
            Some(a) => args_list(spanned_tokens_view(ts@)) == Some(args_view(a@)),
            None => args_list(spanned_tokens_view(ts@)) is None,
        },
{
    let ghost v = spanned_tokens_view(ts@);
    proof {
        lemma_spanned_tokens_view(ts@);
    }
    let mut out: Vec<FunctionArg> = Vec::new();
    match parse_arg(ts, 0) {
        None => if ts.len() == 0 {
            assert(args_view(out@) =~= Seq::<ArgView>::empty());
            Some(out)
        } else {
            None
        },
        Some((a, j0)) => {
            let ghost a0 = arg_view(a);
            out.push(a);
            assert(args_view(out@) =~= seq![a0]);
            let mut j = j0;
            loop
                invariant
                    j <= ts.len(),
                    v == spanned_tokens_view(ts@),
                    v.len() == ts@.len(),
                    forall|k: int| 0 <= k < ts@.len() ==> #[trigger] v[k] == spanned_token_view(ts@[k]),
                    args_view(out@) + args_more(v, j as nat).0 == seq![a0] + args_more(v, j0 as nat).0,
                    args_more(v, j as nat).1 == args_more(v, j0 as nat).1,
                ensures
                    args_view(out@) == seq![a0] + args_more(v, j0 as nat).0,
                    j as nat == args_more(v, j0 as nat).1,
                decreases ts.len() - j,
            {
                if j >= ts.len() {
                    assert(args_view(out@) + Seq::<ArgView>::empty() =~= args_view(out@));
                    break;
                }
                assert(v[j as int] == spanned_token_view(ts@[j as int]));
                let mut advanced = false;
                if let Token::Symbol(Symbol::Comma) = &ts[j].inner {
                    match parse_arg(ts, j + 1) {
                        Some((a, k)) => {
                            if j < k && k <= ts.len() {
                                proof {
                                    assert(args_view(out@.push(a)) =~= args_view(out@).push(arg_view(a)));
                                    assert(args_view(out@) + args_more(v, j as nat).0 =~= args_view(
                                        out@.push(a),
                                    ) + args_more(v, k as nat).0);
                                }
                                out.push(a);
                                j = k;
                                advanced = true;
                            }
                        },
                        None => {},
                    }
                }
                if !advanced {
                    assert(args_view(out@) + Seq::<ArgView>::empty() =~= args_view(out@));
                    break;
                }
            }
            if j == ts.len() {
                Some(out)
            } else {
                None
            }
        },
    }
}

/// Parses a function `$fn name(args): type = (body)` at position `i`.
fn parse_function(ts: &Vec<Spanned<Token>>, i: usize) -> (r: Option<(Function, usize)>)
    ensures
        match r {
            Some((f, k)) => function_at(spanned_tokens_view(ts@), i as nat) == Some((f@, k as nat)),
            None => function_at(spanned_tokens_view(ts@), i as nat) is None,
        },
{
    let ghost v = spanned_tokens_view(ts@);
    proof {
        lemma_spanned_tokens_view(ts@);
        reveal_strlit("fn");
    }
    if !(i < ts.len() && ts.len() - i > 6) {
        return None;
    }
    assert(v[i as int] == spanned_token_view(ts@[i as int]));
    assert(v[i as int + 1] == spanned_token_view(ts@[i + 1]));
    assert(v[i as int + 2] == spanned_token_view(ts@[i + 2]));
    assert(v[i as int + 3] == spanned_token_view(ts@[i + 3]));
    assert(v[i as int + 4] == spanned_token_view(ts@[i + 4]));
    assert(v[i as int + 5] == spanned_token_view(ts@[i + 5]));
    assert(v[i as int + 6] == spanned_token_view(ts@[i + 6]));
    let fn_word = String::from_str("fn");
    assert(fn_word@ =~= seq!['f', 'n']);
    if let Token::DollarIdent(d) = &ts[i].inner {
        if *d == fn_word {
            if let Token::Ident(name) = &ts[i + 1].inner {
                if let Token::Parens(arg_ts) = &ts[i + 2].inner {
                    if let Token::Symbol(Symbol::Colon) = &ts[i + 3].inner {
                        if let Token::Type(rt) = &ts[i + 4].inner {
                            if let Token::Symbol(Symbol::Equals) = &ts[i + 5].inner {
                                if let Token::Parens(body_ts) = &ts[i + 6].inner {
                                    match parse_args(arg_ts) {
                                        Some(args) => match expr_parser(body_ts) {
                                            Some(body) => {
                                                let data = FunctionData {
                                                    name: Spanned { inner: name.clone(), span: ts[i + 1].span },
                                                    return_type: Spanned { inner: type_copy(rt), span: ts[i + 4].span },
                                                    args,
                                                    body,
                                                };
                                                return Some((Function { data, sidecar: None }, i + 7));
                                            },
                                            None => {},
                                        },
                                        None => {},
                                    }
                                }
                            }
                        }
                    }
                }
            }
        }
    }
    None
}

/// Parses a whole token sequence as one function.
pub fn function(ts: &Vec<Spanned<Token>>) -> (r: Option<Function>)
    ensures
        match r {
            Some(f) => function_at(spanned_tokens_view(ts@), 0) == Some((f@, ts@.len())),
            None => !(function_at(spanned_tokens_view(ts@), 0) matches Some((_, k)) && k == ts@.len()),
        },
{
    match parse_function(ts, 0) {
        Some((f, k)) => if k == ts.len() {
            Some(f)
        } else {
            None
        },
        None => None,
    }
}

/// Why a token sequence is not a file: the index of the token at which
/// no further function could be read.
#[derive(Debug, Clone, Copy, PartialEq, Eq, Structural)]
pub struct ParseError {
    pub position: usize,
}

/// Parses a whole token sequence as a file: functions, one after another,
/// grouped by name.  Fails at the first token where no function starts.
pub fn file(ts: &Vec<Spanned<Token>>) -> (r: Result<File, ParseError>)
    ensures
        match r {
            Ok(f) => parse_file(spanned_tokens_view(ts@)) == Some(f@),
            Err(e) => parse_file(spanned_tokens_view(ts@)) is None
                && e.position == functions_at(spanned_tokens_view(ts@), 0).1
                && e.position < ts@.len(),
        },
{
    let ghost v = spanned_tokens_view(ts@);
    proof {
        lemma_spanned_tokens_view(ts@);
    }
    let mut out = File::new();
    let ghost mut done: Seq<FunctionView> = Seq::empty();
    let mut j: usize = 0;
    assert(done + functions_at(v, 0).0 =~= functions_at(v, 0).0);
    loop
        invariant
            j <= ts.len(),
            v == spanned_tokens_view(ts@),
            v.len() == ts@.len(),
            out@ == group_functions(done),
            done + functions_at(v, j as nat).0 == functions_at(v, 0).0,
            functions_at(v, j as nat).1 == functions_at(v, 0).1,
        ensures
            out@ == group_functions(functions_at(v, 0).0),
            j as nat == functions_at(v, 0).1,
        decreases ts.len() - j,
    {
        match parse_function(ts, j) {
            Some((f, k)) => {
                if j < k && k <= ts.len() {
                    proof {
                        assert(done.push(f@).drop_last() =~= done);
                        assert(done + functions_at(v, j as nat).0 =~= done.push(f@) + functions_at(
                            v,
                            k as nat,
                        ).0);
                        done = done.push(f@);
                    }
                    out.push(f);
                    j = k;
                } else {
                    assert(done + Seq::<FunctionView>::empty() =~= done);
                    break;
                }
            },
            None => {
                assert(done + Seq::<FunctionView>::empty() =~= done);
                break;
            },
        }
    }
    if j == ts.len() {
        Ok(out)
    } else {
        Err(ParseError { position: j })
    }
}

} // verus!
