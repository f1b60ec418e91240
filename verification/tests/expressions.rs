use askama::expr::{expr_compare, expr_filtered, expr_str_lit, expr_var, operator};
use askama::token::{identifier, padded_tag, skip_space, tag, trim_marker};
use askama::{expr_any, Expr};

fn var(name: &str) -> Expr<'_> {
    Expr::Var(name)
}

fn filter<'a>(name: &'a str, inner: Expr<'a>) -> Expr<'a> {
    Expr::Filter(name, Box::new(inner))
}

fn compare<'a>(op: &'a str, left: Expr<'a>, right: Expr<'a>) -> Expr<'a> {
    Expr::Compare(op, Box::new(left), Box::new(right))
}

#[test]
fn identifier_is_the_longest_alphanumeric_run() {
    assert_eq!(identifier("ab cd"), Some((" cd", "ab")));
    assert_eq!(identifier("a1B2|x"), Some(("|x", "a1B2")));
    assert_eq!(identifier("abc"), Some(("", "abc")));
    assert_eq!(identifier("0"), Some(("", "0")));
    assert_eq!(identifier("azAZ09_x"), Some(("_x", "azAZ09")));
}

#[test]
fn identifier_fails_on_an_empty_run() {
    assert_eq!(identifier(""), None);
    assert_eq!(identifier(" a"), None);
    assert_eq!(identifier("_a"), None);
    assert_eq!(identifier("-a"), None);
    assert_eq!(identifier("éa"), None);
}

#[test]
fn identifier_stops_before_multibyte_text() {
    assert_eq!(identifier("aé"), Some(("é", "a")));
}

#[test]
fn identifier_knows_the_edges_of_its_byte_ranges() {
    assert_eq!(identifier("/"), None);
    assert_eq!(identifier(":"), None);
    assert_eq!(identifier("@"), None);
    assert_eq!(identifier("["), None);
    assert_eq!(identifier("`"), None);
    assert_eq!(identifier("{"), None);
    assert_eq!(identifier("09:"), Some((":", "09")));
    assert_eq!(identifier("AZ["), Some(("[", "AZ")));
    assert_eq!(identifier("az{"), Some(("{", "az")));
}

#[test]
fn skip_space_drops_leading_whitespace_only() {
    assert_eq!(skip_space("  \t\r\na b "), "a b ");
    assert_eq!(skip_space("a "), "a ");
    assert_eq!(skip_space(""), "");
    assert_eq!(skip_space(" \n"), "");
    assert_eq!(skip_space(" \u{a0}"), "\u{a0}");
}

#[test]
fn tag_reads_a_prefix() {
    assert_eq!(tag("{{ a", "{{"), Some(" a"));
    assert_eq!(tag("{{", "{{"), Some(""));
    assert_eq!(tag("{", "{{"), None);
    assert_eq!(tag("", "{{"), None);
    assert_eq!(tag(" {{", "{{"), None);
    assert_eq!(tag("{%", "{{"), None);
    assert_eq!(tag("abc", ""), Some("abc"));
}

#[test]
fn padded_tag_skips_whitespace_on_both_sides() {
    assert_eq!(padded_tag("  if  a", "if"), Some("a"));
    assert_eq!(padded_tag("if", "if"), Some(""));
    assert_eq!(padded_tag("ifa", "if"), Some("a"));
    assert_eq!(padded_tag(" i f", "if"), None);
}

#[test]
fn trim_marker_is_optional() {
    assert_eq!(trim_marker("- a"), (" a", true));
    assert_eq!(trim_marker(" - a"), (" - a", false));
    assert_eq!(trim_marker(""), ("", false));
    assert_eq!(trim_marker("--"), ("-", true));
}

#[test]
fn string_literal_keeps_its_text() {
    assert_eq!(expr_str_lit("\"abc\" }}"), Some((" }}", Expr::StrLit("abc"))));
    assert_eq!(expr_str_lit("\"a b|c == d\""), Some(("", Expr::StrLit("a b|c == d"))));
    assert_eq!(expr_str_lit("\"a\\\"b\""), Some(("b\"", Expr::StrLit("a\\"))));
    assert_eq!(expr_str_lit("\"é\"x"), Some(("x", Expr::StrLit("é"))));
}

#[test]
fn string_literal_may_be_empty() {
    assert_eq!(expr_str_lit("\"\""), Some(("", Expr::StrLit(""))));
    assert_eq!(expr_str_lit("\"\"\""), Some(("\"", Expr::StrLit(""))));
}

#[test]
fn string_literal_fails_if_unterminated() {
    assert_eq!(expr_str_lit("\"abc }}"), None);
    assert_eq!(expr_str_lit("\""), None);
    assert_eq!(expr_str_lit("\"abc"), None);
}

#[test]
fn string_literal_needs_its_opening_quote() {
    assert_eq!(expr_str_lit("abc\""), None);
    assert_eq!(expr_str_lit(" \"abc\""), None);
    assert_eq!(expr_str_lit(""), None);
}

#[test]
fn variable_is_a_name() {
    assert_eq!(expr_var("name rest"), Some((" rest", var("name"))));
    assert_eq!(expr_var("\"name\""), None);
    assert_eq!(expr_var(""), None);
}

#[test]
fn filter_chain_associates_to_the_left() {
    assert_eq!(expr_any("a|f|g"), Some(("", filter("g", filter("f", var("a"))))));
    assert_eq!(expr_filtered("a|f|g"), Some(("", filter("g", filter("f", var("a"))))));
}

#[test]
fn filter_chain_of_three() {
    assert_eq!(
        expr_filtered("x|a|b|c }}"),
        Some((" }}", filter("c", filter("b", filter("a", var("x")))))),
    );
}

#[test]
fn filter_chain_without_filters_is_the_variable() {
    assert_eq!(expr_filtered("a"), Some(("", var("a"))));
    assert_eq!(expr_filtered("a }}"), Some((" }}", var("a"))));
    assert_eq!(expr_filtered("a |f"), Some((" |f", var("a"))));
}

#[test]
fn filter_chain_fails_without_a_name_after_the_bar() {
    assert_eq!(expr_filtered("a|"), None);
    assert_eq!(expr_filtered("a| f"), None);
    assert_eq!(expr_filtered("a|f|"), None);
    assert_eq!(expr_filtered("a||f"), None);
}

#[test]
fn filter_chain_starts_with_a_variable() {
    assert_eq!(expr_filtered("|f"), None);
    assert_eq!(expr_filtered("\"a\"|f"), None);
    assert_eq!(expr_filtered(""), None);
}

#[test]
fn operator_prefers_the_longer_match() {
    assert_eq!(operator("== b"), Some((" b", "==")));
    assert_eq!(operator("!= b"), Some((" b", "!=")));
    assert_eq!(operator(">= b"), Some((" b", ">=")));
    assert_eq!(operator("<= b"), Some((" b", "<=")));
    assert_eq!(operator("> b"), Some((" b", ">")));
    assert_eq!(operator("< b"), Some((" b", "<")));
    assert_eq!(operator(">"), Some(("", ">")));
    assert_eq!(operator("<"), Some(("", "<")));
    assert_eq!(operator("<>"), Some((">", "<")));
    assert_eq!(operator("=== b"), Some(("= b", "==")));
}

#[test]
fn operator_fails_on_anything_else() {
    assert_eq!(operator("= b"), None);
    assert_eq!(operator("! b"), None);
    assert_eq!(operator("=> b"), None);
    assert_eq!(operator(" == b"), None);
    assert_eq!(operator(""), None);
}

#[test]
fn comparison_holds_two_filter_chains() {
    assert_eq!(
        expr_any("a|f == b"),
        Some(("", compare("==", filter("f", var("a")), var("b")))),
    );
}

#[test]
fn comparison_with_each_operator() {
    for op in ["==", "!=", ">=", ">", "<=", "<"] {
        let src = format!("a {} b", op);
        assert_eq!(expr_any(&src), Some(("", compare(op, var("a"), var("b")))));
        let tight = format!("a{}b", op);
        assert_eq!(expr_compare(&tight), Some(("", compare(op, var("a"), var("b")))));
    }
}

#[test]
fn comparison_takes_filters_on_both_sides() {
    assert_eq!(
        expr_compare("a|f  <=\t b|g|h %}"),
        Some((
            " %}",
            compare("<=", filter("f", var("a")), filter("h", filter("g", var("b")))),
        )),
    );
}

#[test]
fn comparison_does_not_nest() {
    assert_eq!(expr_any("a == b == c"), Some((" == c", compare("==", var("a"), var("b")))));
}

#[test]
fn comparison_needs_filter_chains() {
    assert_eq!(expr_compare("a == \"b\""), None);
    assert_eq!(expr_compare("\"a\" == b"), None);
    assert_eq!(expr_compare("a =="), None);
    assert_eq!(expr_compare("a"), None);
    assert_eq!(expr_compare("== b"), None);
}

#[test]
fn expression_falls_back_in_order() {
    assert_eq!(expr_any("a == \"b\""), Some((" == \"b\"", var("a"))));
    assert_eq!(expr_any("a|f =="), Some((" ==", filter("f", var("a")))));
    assert_eq!(expr_any("\"lit\""), Some(("", Expr::StrLit("lit"))));
    assert_eq!(expr_any(""), None);
    assert_eq!(expr_any(" a"), None);
    assert_eq!(expr_any("== a"), None);
}
