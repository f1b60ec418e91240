use askama::{split_ws_parts, take_content, Node};

fn check_ws_split(s: &str, res: &(&str, &str, &str)) {
    let node = split_ws_parts(s);
    match node {
        Node::Lit(lws, s, rws) => {
            assert_eq!(lws, res.0);
            assert_eq!(s, res.1);
            assert_eq!(rws, res.2);
        },
        _ => {
            panic!("fail");
        },
    }
}

#[test]
fn test_ws_splitter() {
    check_ws_split("", &("", "", ""));
    check_ws_split("a", &("", "a", ""));
    check_ws_split("\ta", &("\t", "a", ""));
    check_ws_split("b\n", &("", "b", "\n"));
    check_ws_split(" \t\r\n", &(" \t\r\n", "", ""));
}

#[test]
fn split_keeps_inner_whitespace_in_the_core() {
    check_ws_split("  a b\tc \r\n", &("  ", "a b\tc", " \r\n"));
    check_ws_split(" x ", &(" ", "x", " "));
}

#[test]
fn split_of_whitespace_only_is_all_leading() {
    check_ws_split(" ", &(" ", "", ""));
    check_ws_split("\n\n\n", &("\n\n\n", "", ""));
    check_ws_split("\r", &("\r", "", ""));
}

#[test]
fn split_knows_four_whitespace_bytes_only() {
    // form feed, vertical tab and the no-break space are text
    check_ws_split("\u{c}a\u{b}", &("", "\u{c}a\u{b}", ""));
    check_ws_split(" \u{a0} ", &(" ", "\u{a0}", " "));
}

#[test]
fn split_parts_make_up_the_text_again() {
    for s in ["", " ", "a", " a", "a ", " a ", "\t\r\n x y \n", "é", " é ", "日本語\n"] {
        match split_ws_parts(s) {
            Node::Lit(l, c, r) => assert_eq!(format!("{}{}{}", l, c, r), s),
            _ => panic!("not a literal"),
        }
    }
}

#[test]
fn split_cuts_next_to_multibyte_text() {
    check_ws_split(" é ", &(" ", "é", " "));
    check_ws_split("\n日本語\t", &("\n", "日本語", "\t"));
}

#[test]
fn content_fails_on_empty_input() {
    assert_eq!(take_content(""), None);
}

#[test]
fn content_fails_at_a_delimiter() {
    assert_eq!(take_content("{{ a }}"), None);
    assert_eq!(take_content("{% if a %}"), None);
    assert_eq!(take_content("{{"), None);
    assert_eq!(take_content("{%"), None);
}

#[test]
fn content_runs_to_the_end_without_a_delimiter() {
    assert_eq!(take_content("hello"), Some(("", Node::Lit("", "hello", ""))));
    assert_eq!(take_content(" hello\n"), Some(("", Node::Lit(" ", "hello", "\n"))));
}

#[test]
fn content_stops_at_the_first_delimiter() {
    assert_eq!(take_content("a {{ b }} c"), Some(("{{ b }} c", Node::Lit("", "a", " "))));
    assert_eq!(take_content("a{% if b %}"), Some(("{% if b %}", Node::Lit("", "a", ""))));
    assert_eq!(take_content("x{{y{%z"), Some(("{{y{%z", Node::Lit("", "x", ""))));
}

#[test]
fn content_takes_a_lone_brace_as_text() {
    assert_eq!(take_content("a{b"), Some(("", Node::Lit("", "a{b", ""))));
    assert_eq!(take_content("a{b{{ c }}"), Some(("{{ c }}", Node::Lit("", "a{b", ""))));
    assert_eq!(take_content("a{ {b"), Some(("", Node::Lit("", "a{ {b", ""))));
    assert_eq!(take_content("a{"), Some(("", Node::Lit("", "a{", ""))));
    assert_eq!(take_content("a}}b%}"), Some(("", Node::Lit("", "a}}b%}", ""))));
}

#[test]
fn content_takes_a_lone_brace_at_the_start_as_text() {
    assert_eq!(take_content("{"), Some(("", Node::Lit("", "{", ""))));
    assert_eq!(take_content("{a"), Some(("", Node::Lit("", "{a", ""))));
    assert_eq!(take_content("{ {{ a }}"), Some(("{{ a }}", Node::Lit("", "{", " "))));
}

#[test]
fn content_finds_the_delimiter_after_a_brace() {
    assert_eq!(take_content("a{{{b"), Some(("{{{b", Node::Lit("", "a", ""))));
    assert_eq!(take_content("{x{%"), Some(("{%", Node::Lit("", "{x", ""))));
    assert_eq!(take_content("{x{"), Some(("", Node::Lit("", "{x{", ""))));
    assert_eq!(take_content("{x{%y"), Some(("{%y", Node::Lit("", "{x", ""))));
}

#[test]
fn content_of_whitespace_only_is_all_leading() {
    assert_eq!(take_content(" \n{{ a }}"), Some(("{{ a }}", Node::Lit(" \n", "", ""))));
}
