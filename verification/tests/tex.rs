use halberd::compiler::{compile, NamespaceItemFullyTyped};
use halberd::lexer::{lex_chars, lexer, source_chars, Token};
use halberd::parser::{self, expr_parser};
use halberd::tex::{
    escape_for_tex, forest_dump_ast_graph, indent, namespace_item_columns, namespace_item_entries,
    push_decimal, push_type, spans_within, tokens_fmt_tex, SidecarTex,
};
use halberd::types::{bool_type, number, vector, Float, Integer, NumberKind, Type, Vector};

fn text(v: &[char]) -> String {
    v.iter().collect()
}

fn dump_expr(src: &str, tabs: usize) -> String {
    let tokens = lexer(src).unwrap();
    let e = expr_parser(&tokens).unwrap();
    let mut out = Vec::new();
    forest_dump_ast_graph(&e, &mut out, tabs, SidecarTex::Hidden);
    text(&out)
}

#[test]
fn escape_for_tex_escapes_specials() {
    assert_eq!(escape_for_tex("a{b}$\\c"), "a\\{b\\}\\$\\\\c");
    assert_eq!(escape_for_tex("plain"), "plain");
}

#[test]
fn indent_is_four_spaces_per_level() {
    let mut out = vec!['x'];
    indent(&mut out, 2);
    assert_eq!(text(&out), "x        ");
}

#[test]
fn decimal_numerals() {
    let mut out = Vec::new();
    push_decimal(&mut out, 0);
    out.push(' ');
    push_decimal(&mut out, 1203);
    assert_eq!(text(&out), "0 1203");
}

#[test]
fn type_texts() {
    let mut out = Vec::new();
    push_type(&mut out, &vector(Vector { component_type: NumberKind::Integer(Integer::Unsigned(32)), component_count: 4 }));
    out.push(' ');
    push_type(&mut out, &bool_type());
    out.push(' ');
    let f = Type::Function(halberd::types::Function {
        args: vec![number(NumberKind::Integer(Integer::Unsigned(32))), number(NumberKind::Float(Float { width: 32 }))],
        result: Box::new(bool_type()),
    });
    push_type(&mut out, &f);
    assert_eq!(text(&out), "u32v4 bool $fn(u32, r32, ): bool");
}

#[test]
fn namespace_table_cells() {
    assert_eq!(namespace_item_columns(), vec!["type"]);
    let item = NamespaceItemFullyTyped {
        ty: halberd::types::matrix(halberd::types::Matrix {
            column_type: Vector { component_type: NumberKind::Float(Float { width: 32 }), component_count: 3 },
            column_count: 4,
        }),
    };
    assert_eq!(namespace_item_entries(&item), vec!["\\texttt{r32m3x4}".to_string()]);
}

#[test]
fn forest_literal() {
    assert_eq!(dump_expr("1u32", 0), "[{1} ]");
    assert_eq!(dump_expr("16xffu32", 0), "[{255} ]");
    assert_eq!(dump_expr("true", 0), "[{\\(\\texttt{true}\\)} ]");
}

#[test]
fn forest_fraction_literals() {
    assert_eq!(dump_expr("1.2r32", 0), "[{6/5} ]");
    assert_eq!(dump_expr("4.0r32", 0), "[{4} ]");
    assert_eq!(dump_expr("16xdead.beefr32", 0), "[{3735928559/65536} ]");
    assert_eq!(dump_expr("1r32", 0), "[{1} ]");
}

#[test]
fn forest_infix() {
    assert_eq!(
        dump_expr("a + 2u32", 1),
        "[{Add} \n        [{\\texttt{a}} ]\n        [{2} ]\n    ]"
    );
}

#[test]
fn forest_declaration_and_block() {
    assert_eq!(dump_expr("let x = y", 0), "[{Declare~\\texttt{x}} \n    [{\\texttt{y}} ]\n]");
    assert_eq!(
        dump_expr("{ a; b; }", 0),
        "[{Block}  [{\\textit{exprs}} \n    [{\\texttt{a}} ]\n    [{\\texttt{b}} ]] [{\\textit{terminal}} ] \n]"
    );
    assert_eq!(
        dump_expr("{ ; b }", 1),
        "[{Block}  [{\\textit{exprs}} ] [{\\textit{terminal}} \n        [{\\texttt{b}} ]] \n    ]"
    );
}

#[test]
fn file_fmt_tex_hidden() {
    let tokens = lexer("$fn foo(): u32 = (1u32)").unwrap();
    let f = parser::file(&tokens).unwrap();
    assert!(f.tex_ok());
    assert_eq!(
        f.fmt_tex(SidecarTex::Hidden),
        "\\begin{forest}\n    [{function~\\texttt{foo}}\n[{1} ]]\n\\end{forest}\n"
    );
}

#[test]
fn file_fmt_tex_with_types_and_scopes() {
    let tokens = lexer("$fn foo(): u32 = (1u32)").unwrap();
    let (f, _u) = compile(parser::file(&tokens).unwrap()).ok().unwrap();
    assert_eq!(
        f.fmt_tex(SidecarTex::Type),
        "\\begin{forest}\n    [{function~\\texttt{foo}}\n[{\\(\\overset{\\text{u32}}{\\text{1}}\\)} ]]\n\\end{forest}\n"
    );
    assert_eq!(
        f.fmt_tex(SidecarTex::Scope),
        "\\begin{forest}\n    [{function~\\texttt{foo}}\n[{\\(\\overset{\\text{1}}{\\text{1}}\\)} ]]\n\\end{forest}\n"
    );
}

#[test]
fn tokens_tex_groups() {
    let src = "a (b) {c}";
    let chars = source_chars(src);
    let tokens = lex_chars(&chars).unwrap();
    assert!(spans_within(&tokens, chars.len()));
    assert!(!spans_within(&tokens, 3));
    assert_eq!(
        tokens_fmt_tex(&tokens, &chars),
        "\\(  % lexer output\n\\LexerToken{a}{Ident}\\LexerTokenTreeOpen{(}{Parens}\\LexerToken{b}{Ident}\\LexerTokenTreeClose{)}{Parens}\\LexerTokenTreeOpen{\\{}{Braces}\\LexerToken{c}{Ident}\\LexerTokenTreeClose{\\}}{Braces}\n)"
    );
}

#[test]
fn tokens_tex_escapes_source_text() {
    let src = "$fn";
    let chars = source_chars(src);
    let tokens = lex_chars(&chars).unwrap();
    assert_eq!(tokens_fmt_tex(&tokens, &chars), "\\(  % lexer output\n\\LexerToken{\\$fn}{DollarIdent}\n)");
}

#[test]
fn written_concrete_types_lex_back() {
    for src in ["u32", "i32v4", "r32m12x34", "r64", "u8v2"] {
        let tokens = lexer(src).unwrap();
        assert_eq!(tokens.len(), 1);
        assert_eq!((tokens[0].span.start, tokens[0].span.end), (0, src.chars().count()));
        match &tokens[0].inner {
            Token::Type(t) => {
                let mut out = Vec::new();
                push_type(&mut out, t);
                assert_eq!(text(&out), src);
            },
            other => panic!("got {other:?}"),
        }
    }
}

#[test]
fn fractional_literals_show_in_lowest_terms() {
    assert_eq!(dump_expr("1.20r32", 0), "[{6/5} ]");
    assert_eq!(dump_expr("16xdead.10x1234r32", 0), "[{285025617/5000} ]");
    assert_eq!(dump_expr("1234.16xbeefr32", 0), "[{80920303/65536} ]");
    assert_eq!(dump_expr("2.5r32", 0), "[{5/2} ]");
    assert_eq!(dump_expr("3.0r32", 0), "[{3} ]");
    assert_eq!(dump_expr("0.0r32", 0), "[{0} ]");
}

#[test]
fn tokens_tex_slices_characters() {
    let chars = source_chars("é + ab");
    let tokens = lex_chars(&chars).unwrap();
    assert_eq!(
        tokens_fmt_tex(&tokens, &chars),
        "\\(  % lexer output\n\\LexerToken{é}{Ident}\\LexerToken{+}{Op}\\LexerToken{ab}{Ident}\n)"
    );
}
