use askama::template::{
    block_block, block_extends, block_for, block_if, expr_node, node, parse_template,
};
use askama::{parse, Expr, Node, ParseFailure, Rule, Target, WS};

fn var(name: &str) -> Expr<'_> {
    Expr::Var(name)
}

fn lit(text: &str) -> Node<'_> {
    Node::Lit("", text, "")
}

fn no_ws() -> WS {
    WS(false, false)
}

fn failure(offset: usize) -> ParseFailure {
    ParseFailure {
        offset,
        attempted: vec![
            Rule::Content,
            Rule::Expression,
            Rule::If,
            Rule::For,
            Rule::Extends,
            Rule::Block,
        ],
    }
}

#[test]
fn empty_source_is_an_empty_template() {
    assert_eq!(parse(""), Ok(vec![]));
}

#[test]
fn plain_text_is_one_literal() {
    assert_eq!(parse("hello"), Ok(vec![lit("hello")]));
    assert_eq!(parse("  hello world\n"), Ok(vec![Node::Lit("  ", "hello world", "\n")]));
}

#[test]
fn lone_brace_does_not_split_a_literal() {
    assert_eq!(parse("a{b"), Ok(vec![lit("a{b")]));
    assert_eq!(
        parse("a{b{{ c }}d"),
        Ok(vec![lit("a{b"), Node::Expr(no_ws(), var("c")), lit("d")]),
    );
    assert_eq!(parse("{"), Ok(vec![lit("{")]));
    assert_eq!(parse("fn main() { }"), Ok(vec![lit("fn main() { }")]));
}

#[test]
fn interpolation_of_a_variable() {
    assert_eq!(parse("{{ a }}"), Ok(vec![Node::Expr(no_ws(), var("a"))]));
    assert_eq!(parse("{{a}}"), Ok(vec![Node::Expr(no_ws(), var("a"))]));
    assert_eq!(parse("{{\n\ta\r\n}}"), Ok(vec![Node::Expr(no_ws(), var("a"))]));
}

#[test]
fn interpolation_records_trim_markers() {
    assert_eq!(parse("{{- a }}"), Ok(vec![Node::Expr(WS(true, false), var("a"))]));
    assert_eq!(parse("{{ a -}}"), Ok(vec![Node::Expr(WS(false, true), var("a"))]));
    assert_eq!(parse("{{- a -}}"), Ok(vec![Node::Expr(WS(true, true), var("a"))]));
    assert_eq!(parse("{{-a-}}"), Ok(vec![Node::Expr(WS(true, true), var("a"))]));
}

#[test]
fn trim_marker_stands_right_inside_the_delimiter() {
    assert_eq!(parse("{{ -a }}"), Err(failure(0)));
    assert_eq!(parse("{{ a - }}"), Err(failure(0)));
    assert_eq!(parse("{{--a}}"), Err(failure(0)));
}

#[test]
fn interpolation_of_a_string_literal() {
    assert_eq!(parse("{{ \"abc\" }}"), Ok(vec![Node::Expr(no_ws(), Expr::StrLit("abc"))]));
}

#[test]
fn interpolation_of_a_comparison() {
    assert_eq!(
        parse("{{ a|f == b }}"),
        Ok(vec![Node::Expr(
            no_ws(),
            Expr::Compare(
                "==",
                Box::new(Expr::Filter("f", Box::new(var("a")))),
                Box::new(var("b")),
            ),
        )]),
    );
}

#[test]
fn unterminated_string_literal_fails() {
    assert_eq!(parse("{{ \"abc }}"), Err(failure(0)));
    assert_eq!(expr_node("{{ \"abc }}"), None);
}

#[test]
fn unclosed_interpolation_fails() {
    assert_eq!(parse("{{ a"), Err(failure(0)));
    assert_eq!(parse("{{ a }"), Err(failure(0)));
    assert_eq!(parse("{{"), Err(failure(0)));
    assert_eq!(parse("{{ }}"), Err(failure(0)));
    assert_eq!(parse("{{ a b }}"), Err(failure(0)));
}

#[test]
fn failure_names_the_offset_of_what_is_left() {
    assert_eq!(parse("abc{{ a"), Err(failure(3)));
    assert_eq!(parse("{{ a }}xy{% nope %}"), Err(failure(9)));
    assert_eq!(parse("é{{"), Err(failure(2)));
    assert_eq!(parse("x{% endif %}"), Err(failure(1)));
}

#[test]
fn if_elif_else_keeps_the_order_of_its_branches() {
    assert_eq!(
        parse("{% if a %}X{% else if b %}Y{% else %}Z{% endif %}"),
        Ok(vec![Node::Cond(
            vec![
                (no_ws(), Some(var("a")), vec![lit("X")]),
                (no_ws(), Some(var("b")), vec![lit("Y")]),
                (no_ws(), None, vec![lit("Z")]),
            ],
            no_ws(),
        )]),
    );
}

#[test]
fn if_without_else() {
    assert_eq!(
        parse("{% if a %}X{% endif %}"),
        Ok(vec![Node::Cond(vec![(no_ws(), Some(var("a")), vec![lit("X")])], no_ws())]),
    );
}

#[test]
fn if_with_empty_bodies() {
    assert_eq!(
        parse("{%if a%}{%else%}{%endif%}"),
        Ok(vec![Node::Cond(
            vec![(no_ws(), Some(var("a")), vec![]), (no_ws(), None, vec![])],
            no_ws(),
        )]),
    );
}

#[test]
fn if_records_the_trim_markers_of_each_tag() {
    assert_eq!(
        parse("{%- if a -%}X{%- else %}Y{% endif -%}"),
        Ok(vec![Node::Cond(
            vec![
                (WS(true, true), Some(var("a")), vec![lit("X")]),
                (WS(true, false), None, vec![lit("Y")]),
            ],
            WS(false, true),
        )]),
    );
}

#[test]
fn if_takes_a_comparison() {
    assert_eq!(
        parse("{% if a >= b %}X{% endif %}"),
        Ok(vec![Node::Cond(
            vec![(
                no_ws(),
                Some(Expr::Compare(">=", Box::new(var("a")), Box::new(var("b")))),
                vec![lit("X")],
            )],
            no_ws(),
        )]),
    );
}

#[test]
fn if_needs_a_condition_and_an_end() {
    assert_eq!(parse("{% if %}X{% endif %}"), Err(failure(0)));
    assert_eq!(parse("{% if a %}X"), Err(failure(0)));
    assert_eq!(parse("{% if a %}X{% else %}Y"), Err(failure(0)));
    assert_eq!(parse("{% if a %}X{% endfor %}"), Err(failure(0)));
    assert_eq!(block_if("{% if a %}X{% else if %}Y{% endif %}"), None);
}

#[test]
fn keywords_need_no_whitespace_after_them() {
    assert_eq!(
        parse("{%ifa%}X{%elseifb%}Y{%endif%}"),
        Ok(vec![Node::Cond(
            vec![
                (no_ws(), Some(var("a")), vec![lit("X")]),
                (no_ws(), Some(var("b")), vec![lit("Y")]),
            ],
            no_ws(),
        )]),
    );
}

#[test]
fn for_loop() {
    assert_eq!(
        parse("{% for x in xs %}{{ x }}{% endfor %}"),
        Ok(vec![Node::Loop(
            no_ws(),
            Target::Name("x"),
            var("xs"),
            vec![Node::Expr(no_ws(), var("x"))],
            no_ws(),
        )]),
    );
}

#[test]
fn for_loop_records_both_trim_markers_of_its_end_tag() {
    assert_eq!(
        parse("{%- for x in xs|f -%} a {%- endfor -%}"),
        Ok(vec![Node::Loop(
            WS(true, true),
            Target::Name("x"),
            Expr::Filter("f", Box::new(var("xs"))),
            vec![Node::Lit(" ", "a", " ")],
            WS(true, true),
        )]),
    );
    assert_eq!(
        parse("{% for x in xs %}{% endfor -%}"),
        Ok(vec![Node::Loop(no_ws(), Target::Name("x"), var("xs"), vec![], WS(false, true))]),
    );
    assert_eq!(
        parse("{% for x in xs %}{%- endfor %}"),
        Ok(vec![Node::Loop(no_ws(), Target::Name("x"), var("xs"), vec![], WS(true, false))]),
    );
}

#[test]
fn for_loop_needs_a_bare_name() {
    assert_eq!(block_for("{% for (a, b) in xs %}{% endfor %}"), None);
    assert_eq!(block_for("{% for in xs %}{% endfor %}"), None);
    assert_eq!(block_for("{% for x xs %}{% endfor %}"), None);
    assert_eq!(block_for("{% for x in %}{% endfor %}"), None);
    assert_eq!(block_for("{% for x in xs %}"), None);
}

#[test]
fn extends_takes_a_string_literal_only() {
    assert_eq!(parse("{% extends name %}"), Err(failure(0)));
    assert_eq!(block_extends("{% extends name %}"), None);
    assert_eq!(
        parse("{% extends \"base.txt\" %}"),
        Ok(vec![Node::Extends(Expr::StrLit("base.txt"))]),
    );
    match parse("{% extends \"base.txt\" %}") {
        Ok(nodes) => match &nodes[0] {
            Node::Extends(Expr::StrLit(name)) => assert_eq!(*name, "base.txt"),
            _ => panic!("not an extends node"),
        },
        Err(_) => panic!("no template"),
    }
}

#[test]
fn extends_takes_an_empty_string() {
    assert_eq!(parse("{% extends \"\" %}"), Ok(vec![Node::Extends(Expr::StrLit(""))]));
}

#[test]
fn extends_takes_no_trim_markers() {
    assert_eq!(block_extends("{%- extends \"base.txt\" %}"), None);
    assert_eq!(block_extends("{% extends \"base.txt\" -%}"), None);
    assert_eq!(block_extends("{% extends \"a\"|f %}"), None);
    assert_eq!(
        block_extends("{%extends\"a\"%}rest"),
        Some(("rest", Node::Extends(Expr::StrLit("a")))),
    );
}

#[test]
fn named_block() {
    assert_eq!(
        parse("{% block title %}Hi{% endblock %}"),
        Ok(vec![Node::BlockDef(no_ws(), "title", vec![lit("Hi")], no_ws())]),
    );
    assert_eq!(
        parse("{%- block b -%}{%- endblock -%}"),
        Ok(vec![Node::BlockDef(WS(true, true), "b", vec![], WS(true, true))]),
    );
    assert_eq!(
        parse("{% block b %}{% endblock -%}"),
        Ok(vec![Node::BlockDef(no_ws(), "b", vec![], WS(false, true))]),
    );
}

#[test]
fn named_block_needs_a_name_and_an_end() {
    assert_eq!(block_block("{% block %}{% endblock %}"), None);
    assert_eq!(block_block("{% block a b %}{% endblock %}"), None);
    assert_eq!(block_block("{% block a %}"), None);
    assert_eq!(block_block("{% block a %}{% endif %}"), None);
}

#[test]
fn blocks_nest() {
    assert_eq!(
        parse("{% for x in xs %}{% if x %}{{ x }}{% else %}-{% endif %}{% endfor %}"),
        Ok(vec![Node::Loop(
            no_ws(),
            Target::Name("x"),
            var("xs"),
            vec![Node::Cond(
                vec![
                    (no_ws(), Some(var("x")), vec![Node::Expr(no_ws(), var("x"))]),
                    (no_ws(), None, vec![lit("-")]),
                ],
                no_ws(),
            )],
            no_ws(),
        )]),
    );
}

#[test]
fn else_belongs_to_the_innermost_if() {
    assert_eq!(
        parse("{% if a %}{% if b %}1{% else %}2{% endif %}{% endif %}"),
        Ok(vec![Node::Cond(
            vec![(
                no_ws(),
                Some(var("a")),
                vec![Node::Cond(
                    vec![
                        (no_ws(), Some(var("b")), vec![lit("1")]),
                        (no_ws(), None, vec![lit("2")]),
                    ],
                    no_ws(),
                )],
            )],
            no_ws(),
        )]),
    );
}

#[test]
fn a_whole_page() {
    let src = "{% extends \"base.html\" %}\n{% block body %}\n<h1>{{ title|upper }}</h1>\n{% endblock %}\n";
    assert_eq!(
        parse(src),
        Ok(vec![
            Node::Extends(Expr::StrLit("base.html")),
            Node::Lit("\n", "", ""),
            Node::BlockDef(
                no_ws(),
                "body",
                vec![
                    Node::Lit("\n", "<h1>", ""),
                    Node::Expr(no_ws(), Expr::Filter("upper", Box::new(var("title")))),
                    Node::Lit("", "</h1>", "\n"),
                ],
                no_ws(),
            ),
            Node::Lit("\n", "", ""),
        ]),
    );
}

#[test]
fn template_stops_where_no_node_starts() {
    assert_eq!(parse_template("a{% endif %}b"), ("{% endif %}b", vec![lit("a")]));
    assert_eq!(parse_template("{{ a }}{{ b"), ("{{ b", vec![Node::Expr(no_ws(), var("a"))]));
    assert_eq!(parse_template(""), ("", vec![]));
}

#[test]
fn node_tries_its_forms_in_order() {
    assert_eq!(node("text{{ a }}"), Some(("{{ a }}", lit("text"))));
    assert_eq!(node("{{ a }}text"), Some(("text", Node::Expr(no_ws(), var("a")))));
    assert_eq!(node("{% endif %}"), None);
    assert_eq!(node(""), None);
}

#[test]
fn text_with_multibyte_characters() {
    assert_eq!(
        parse("é{{ a }}日本語 {% if b %}ü{% endif %}"),
        Ok(vec![
            lit("é"),
            Node::Expr(no_ws(), var("a")),
            Node::Lit("", "日本語", " "),
            Node::Cond(vec![(no_ws(), Some(var("b")), vec![lit("ü")])], no_ws()),
        ]),
    );
    assert_eq!(parse("{{ \"日本\" }}"), Ok(vec![Node::Expr(no_ws(), Expr::StrLit("日本"))]));
    assert_eq!(parse("{{ é }}"), Err(failure(0)));
}
