//! Facts about the grammar that its rules and their readers rest on: the
//! bytes of its tokens, and that what a rule leaves is the end of what it
//! was given.

use crate::bytes::{lemma_alnum_len, lemma_literal_len, lemma_space_len, lemma_unquoted_len};
use crate::grammar::{
    block_block, block_extends, block_for, block_header, block_if, cond_block, cond_if,
    else_branches, else_header, expr_any, expr_compare, expr_filtered, expr_node, expr_str_lit,
    expr_var, filters, for_header, identifier, if_header, keyword_tag, lit, node, operator,
    padded_tag, parse_template, skip_space, stmt_close, stmt_open, tag, take_content,
    trim_marker,
};
use crate::tree::SpecExpr;
use vstd::prelude::*;
use vstd::utf8::is_ascii_chars_encode_utf8;

verus! {

/// The bytes of the delimiters.
pub proof fn lemma_delimiter_bytes()
    ensures
        lit("{{") == seq![0x7bu8, 0x7bu8],
        lit("}}") == seq![0x7du8, 0x7du8],
        lit("{%") == seq![0x7bu8, 0x25u8],
        lit("%}") == seq![0x25u8, 0x7du8],
{
    reveal_strlit("{{");
    reveal_strlit("}}");
    reveal_strlit("{%");
    reveal_strlit("%}");
    is_ascii_chars_encode_utf8("{{"@);
    is_ascii_chars_encode_utf8("}}"@);
    is_ascii_chars_encode_utf8("{%"@);
    is_ascii_chars_encode_utf8("%}"@);
    assert(lit("{{") =~= seq![0x7bu8, 0x7bu8]);
    assert(lit("}}") =~= seq![0x7du8, 0x7du8]);
    assert(lit("{%") =~= seq![0x7bu8, 0x25u8]);
    assert(lit("%}") =~= seq![0x25u8, 0x7du8]);
}

/// The bytes of the comparison operators.
pub proof fn lemma_operator_bytes()
    ensures
        lit("==") == seq![0x3du8, 0x3du8],
        lit("!=") == seq![0x21u8, 0x3du8],
        lit(">=") == seq![0x3eu8, 0x3du8],
        lit("<=") == seq![0x3cu8, 0x3du8],
        lit(">") == seq![0x3eu8],
        lit("<") == seq![0x3cu8],
{
    reveal_strlit("==");
    reveal_strlit("!=");
    reveal_strlit(">=");
    reveal_strlit("<=");
    reveal_strlit(">");
    reveal_strlit("<");
    is_ascii_chars_encode_utf8("=="@);
    is_ascii_chars_encode_utf8("!="@);
    is_ascii_chars_encode_utf8(">="@);
    is_ascii_chars_encode_utf8("<="@);
    is_ascii_chars_encode_utf8(">"@);
    is_ascii_chars_encode_utf8("<"@);
    assert(lit("==") =~= seq![0x3du8, 0x3du8]);
    assert(lit("!=") =~= seq![0x21u8, 0x3du8]);
    assert(lit(">=") =~= seq![0x3eu8, 0x3du8]);
    assert(lit("<=") =~= seq![0x3cu8, 0x3du8]);
    assert(lit(">") =~= seq![0x3eu8]);
    assert(lit("<") =~= seq![0x3cu8]);
}

/// The bytes of the keywords.
pub proof fn lemma_keyword_bytes()
    ensures
        lit("if") == seq![0x69u8, 0x66u8],
        lit("else") == seq![0x65u8, 0x6cu8, 0x73u8, 0x65u8],
        lit("endif") == seq![0x65u8, 0x6eu8, 0x64u8, 0x69u8, 0x66u8],
        lit("for") == seq![0x66u8, 0x6fu8, 0x72u8],
        lit("in") == seq![0x69u8, 0x6eu8],
        lit("endfor") == seq![0x65u8, 0x6eu8, 0x64u8, 0x66u8, 0x6fu8, 0x72u8],
        lit("extends") == seq![0x65u8, 0x78u8, 0x74u8, 0x65u8, 0x6eu8, 0x64u8, 0x73u8],
        lit("block") == seq![0x62u8, 0x6cu8, 0x6fu8, 0x63u8, 0x6bu8],
        lit("endblock") == seq![
            0x65u8,
            0x6eu8,
            0x64u8,
            0x62u8,
            0x6cu8,
            0x6fu8,
            0x63u8,
            0x6bu8,
        ],
{
    reveal_strlit("if");
    reveal_strlit("else");
    reveal_strlit("endif");
    reveal_strlit("for");
    reveal_strlit("in");
    reveal_strlit("endfor");
    reveal_strlit("extends");
    reveal_strlit("block");
    reveal_strlit("endblock");
    is_ascii_chars_encode_utf8("if"@);
    is_ascii_chars_encode_utf8("else"@);
    is_ascii_chars_encode_utf8("endif"@);
    is_ascii_chars_encode_utf8("for"@);
    is_ascii_chars_encode_utf8("in"@);
    is_ascii_chars_encode_utf8("endfor"@);
    is_ascii_chars_encode_utf8("extends"@);
    is_ascii_chars_encode_utf8("block"@);
    is_ascii_chars_encode_utf8("endblock"@);
    assert(lit("if") =~= seq![0x69u8, 0x66u8]);
    assert(lit("else") =~= seq![0x65u8, 0x6cu8, 0x73u8, 0x65u8]);
    assert(lit("endif") =~= seq![0x65u8, 0x6eu8, 0x64u8, 0x69u8, 0x66u8]);
    assert(lit("for") =~= seq![0x66u8, 0x6fu8, 0x72u8]);
    assert(lit("in") =~= seq![0x69u8, 0x6eu8]);
    assert(lit("endfor") =~= seq![0x65u8, 0x6eu8, 0x64u8, 0x66u8, 0x6fu8, 0x72u8]);
    assert(lit("extends") =~= seq![0x65u8, 0x78u8, 0x74u8, 0x65u8, 0x6eu8, 0x64u8, 0x73u8]);
    assert(lit("block") =~= seq![0x62u8, 0x6cu8, 0x6fu8, 0x63u8, 0x6bu8]);
    assert(lit("endblock") =~= seq![
        0x65u8,
        0x6eu8,
        0x64u8,
        0x62u8,
        0x6cu8,
        0x6fu8,
        0x63u8,
        0x6bu8,
    ]);
}

/// Skipping whitespace leaves an end of the input.
pub proof fn lemma_skip_space_rest(s: Seq<u8>)
    ensures
        skip_space(s).is_suffix_of(s),
{
    lemma_space_len(s);
}

/// After a token, what is left is the input without the token's bytes.
pub proof fn lemma_tag_rest(s: Seq<u8>, t: Seq<u8>)
    ensures
        tag(s, t) matches Some(r) ==> r.is_suffix_of(s) && r.len() + t.len() == s.len(),
{
}

/// After a token and the whitespace around it, what is left is shorter than
/// the input by the token's bytes at least.
pub proof fn lemma_padded_tag_rest(s: Seq<u8>, t: Seq<u8>)
    ensures
        padded_tag(s, t) matches Some(r) ==> r.is_suffix_of(s) && r.len() + t.len() <= s.len(),
{
    lemma_skip_space_rest(s);
    lemma_tag_rest(skip_space(s), t);
    if let Some(r) = tag(skip_space(s), t) {
        lemma_skip_space_rest(r);
    }
}

/// A name takes at least one byte.
pub proof fn lemma_identifier_rest(s: Seq<u8>)
    ensures
        identifier(s) matches Some((r, _)) ==> r.is_suffix_of(s) && r.len() < s.len(),
{
    lemma_alnum_len(s);
}

/// A string literal takes at least its two quotes.
pub proof fn lemma_expr_str_lit_rest(s: Seq<u8>)
    ensures
        expr_str_lit(s) matches Some((r, _)) ==> r.is_suffix_of(s) && r.len() < s.len(),
{
    if s.len() > 0 {
        lemma_unquoted_len(s.skip(1));
    }
}

/// Filters leave an end of the input.
pub proof fn lemma_filters_rest(s: Seq<u8>, e: SpecExpr)
    ensures
        filters(s, e) matches Some((r, _)) ==> r.is_suffix_of(s),
    decreases s.len(),
{
    if let Some((rest, name)) = identifier(s.skip(1)) {
        lemma_identifier_rest(s.skip(1));
        if s.len() > 0 {
            lemma_filters_rest(rest, SpecExpr::Filter(name, Box::new(e)));
        }
    }
}

/// A filter chain takes at least one byte.
pub proof fn lemma_expr_filtered_rest(s: Seq<u8>)
    ensures
        expr_filtered(s) matches Some((r, _)) ==> r.is_suffix_of(s) && r.len() < s.len(),
{
    lemma_identifier_rest(s);
    if let Some((rest, e)) = expr_var(s) {
        lemma_filters_rest(rest, e);
    }
}

/// An operator takes at least one byte.
pub proof fn lemma_operator_rest(s: Seq<u8>)
    ensures
        operator(s) matches Some((r, _)) ==> r.is_suffix_of(s) && r.len() < s.len(),
{
    lemma_operator_bytes();
}

/// A comparison takes at least one byte.
pub proof fn lemma_expr_compare_rest(s: Seq<u8>)
    ensures
        expr_compare(s) matches Some((r, _)) ==> r.is_suffix_of(s) && r.len() < s.len(),
{
    lemma_expr_filtered_rest(s);
    if let Some((r1, _)) = expr_filtered(s) {
        lemma_skip_space_rest(r1);
        lemma_operator_rest(skip_space(r1));
        if let Some((r2, _)) = operator(skip_space(r1)) {
            lemma_skip_space_rest(r2);
            lemma_expr_filtered_rest(skip_space(r2));
        }
    }
}

/// An expression takes at least one byte.
pub proof fn lemma_expr_any_rest(s: Seq<u8>)
    ensures
        expr_any(s) matches Some((r, _)) ==> r.is_suffix_of(s) && r.len() < s.len(),
{
    lemma_expr_compare_rest(s);
    lemma_expr_filtered_rest(s);
    lemma_expr_str_lit_rest(s);
}

/// An interpolation takes at least one byte.
pub proof fn lemma_expr_node_rest(s: Seq<u8>)
    ensures
        expr_node(s) matches Some((r, _)) ==> r.is_suffix_of(s) && r.len() < s.len(),
{
    lemma_tag_rest(s, lit("{{"));
    if let Some(r0) = tag(s, lit("{{")) {
        let r1 = trim_marker(r0).0;
        lemma_skip_space_rest(r1);
        lemma_expr_any_rest(skip_space(r1));
        if let Some((r2, _)) = expr_any(skip_space(r1)) {
            lemma_skip_space_rest(r2);
            let r3 = trim_marker(skip_space(r2)).0;
            lemma_tag_rest(r3, lit("}}"));
        }
    }
}

/// The opening of a tag takes at least one byte.
pub proof fn lemma_stmt_open_rest(s: Seq<u8>)
    ensures
        stmt_open(s) matches Some((r, _)) ==> r.is_suffix_of(s) && r.len() < s.len(),
{
    lemma_delimiter_bytes();
}

/// The closing of a tag takes at least one byte.
pub proof fn lemma_stmt_close_rest(s: Seq<u8>)
    ensures
        stmt_close(s) matches Some((r, _)) ==> r.is_suffix_of(s) && r.len() < s.len(),
{
    lemma_delimiter_bytes();
}

/// A keyword's tag takes at least one byte.
pub proof fn lemma_keyword_tag_rest(s: Seq<u8>, keyword: Seq<u8>)
    ensures
        keyword_tag(s, keyword) matches Some((r, _)) ==> r.is_suffix_of(s) && r.len() < s.len(),
{
    lemma_stmt_open_rest(s);
    if let Some((r0, _)) = stmt_open(s) {
        lemma_padded_tag_rest(r0, keyword);
        if let Some(r1) = padded_tag(r0, keyword) {
            lemma_stmt_close_rest(r1);
        }
    }
}

/// A condition takes at least one byte.
pub proof fn lemma_cond_if_rest(s: Seq<u8>)
    ensures
        cond_if(s) matches Some((r, _)) ==> r.is_suffix_of(s) && r.len() < s.len(),
{
    lemma_padded_tag_rest(s, lit("if"));
    if let Some(r0) = padded_tag(s, lit("if")) {
        lemma_expr_any_rest(r0);
        if let Some((r1, _)) = expr_any(r0) {
            lemma_skip_space_rest(r1);
        }
    }
}

/// An `if` tag takes at least one byte, so the body after it is read from a
/// shorter input.
pub proof fn lemma_if_header_rest(s: Seq<u8>)
    ensures
        if_header(s) matches Some((r, _)) ==> r.is_suffix_of(s) && r.len() < s.len(),
{
    lemma_stmt_open_rest(s);
    if let Some((r0, _)) = stmt_open(s) {
        lemma_cond_if_rest(r0);
        if let Some((r1, _)) = cond_if(r0) {
            lemma_stmt_close_rest(r1);
        }
    }
}

/// An `else` tag takes at least one byte, so the body after it is read from
/// a shorter input.
pub proof fn lemma_else_header_rest(s: Seq<u8>)
    ensures
        else_header(s) matches Some((r, _)) ==> r.is_suffix_of(s) && r.len() < s.len(),
{
    lemma_stmt_open_rest(s);
    if let Some((r0, _)) = stmt_open(s) {
        lemma_padded_tag_rest(r0, lit("else"));
        if let Some(r1) = padded_tag(r0, lit("else")) {
            lemma_cond_if_rest(r1);
            let r2 = match cond_if(r1) {
                Some((r, _)) => r,
                None => r1,
            };
            lemma_stmt_close_rest(r2);
        }
    }
}

/// A `for` tag takes at least one byte, so the body after it is read from a
/// shorter input.
pub proof fn lemma_for_header_rest(s: Seq<u8>)
    ensures
        for_header(s) matches Some((r, _)) ==> r.is_suffix_of(s) && r.len() < s.len(),
{
    lemma_stmt_open_rest(s);
    if let Some((r0, _)) = stmt_open(s) {
        lemma_padded_tag_rest(r0, lit("for"));
        if let Some(r1) = padded_tag(r0, lit("for")) {
            lemma_identifier_rest(r1);
            if let Some((r2, _)) = identifier(r1) {
                lemma_padded_tag_rest(r2, lit("in"));
                if let Some(r3) = padded_tag(r2, lit("in")) {
                    lemma_expr_any_rest(r3);
                    if let Some((r4, _)) = expr_any(r3) {
                        lemma_skip_space_rest(r4);
                        lemma_stmt_close_rest(skip_space(r4));
                    }
                }
            }
        }
    }
}

/// A `block` tag takes at least one byte, so the body after it is read from
/// a shorter input.
pub proof fn lemma_block_header_rest(s: Seq<u8>)
    ensures
        block_header(s) matches Some((r, _)) ==> r.is_suffix_of(s) && r.len() < s.len(),
{
    lemma_stmt_open_rest(s);
    if let Some((r0, _)) = stmt_open(s) {
        lemma_padded_tag_rest(r0, lit("block"));
        if let Some(r1) = padded_tag(r0, lit("block")) {
            lemma_identifier_rest(r1);
            if let Some((r2, _)) = identifier(r1) {
                lemma_skip_space_rest(r2);
                lemma_stmt_close_rest(skip_space(r2));
            }
        }
    }
}

/// An `extends` tag takes at least one byte.
pub proof fn lemma_block_extends_rest(s: Seq<u8>)
    ensures
        block_extends(s) matches Some((r, _)) ==> r.is_suffix_of(s) && r.len() < s.len(),
{
    lemma_tag_rest(s, lit("{%"));
    if let Some(r0) = tag(s, lit("{%")) {
        lemma_padded_tag_rest(r0, lit("extends"));
        if let Some(r1) = padded_tag(r0, lit("extends")) {
            lemma_expr_str_lit_rest(r1);
            if let Some((r2, _)) = expr_str_lit(r1) {
                lemma_skip_space_rest(r2);
                lemma_tag_rest(skip_space(r2), lit("%}"));
            }
        }
    }
}

/// Plain text takes at least one byte.
pub proof fn lemma_take_content_rest(s: Seq<u8>)
    ensures
        take_content(s) matches Some((r, _)) ==> r.is_suffix_of(s) && r.len() < s.len(),
{
    lemma_literal_len(s);
}

/// What a template leaves is an end of its input. So the tests on lengths
/// in the grammar's recursive rules never fail.
pub proof fn lemma_parse_template_rest(s: Seq<u8>)
    ensures
        parse_template(s).0.is_suffix_of(s),
    decreases s.len(), 3nat,
{
    lemma_node_rest(s);
    if let Some((r0, _)) = node(s) {
        lemma_parse_template_rest(r0);
    }
}

/// A node takes at least one byte: reading nodes one after the other comes
/// to an end.
pub proof fn lemma_node_rest(s: Seq<u8>)
    ensures
        node(s) matches Some((r, _)) ==> r.is_suffix_of(s) && r.len() < s.len(),
    decreases s.len(), 2nat,
{
    lemma_take_content_rest(s);
    lemma_expr_node_rest(s);
    lemma_block_if_rest(s);
    lemma_block_for_rest(s);
    lemma_block_extends_rest(s);
    lemma_block_block_rest(s);
}

/// A conditional takes at least one byte.
pub proof fn lemma_block_if_rest(s: Seq<u8>)
    ensures
        block_if(s) matches Some((r, _)) ==> r.is_suffix_of(s) && r.len() < s.len(),
    decreases s.len(), 1nat,
{
    lemma_if_header_rest(s);
    if let Some((r0, _)) = if_header(s) {
        lemma_parse_template_rest(r0);
        let r1 = parse_template(r0).0;
        lemma_else_branches_rest(r1);
        let r2 = else_branches(r1).0;
        lemma_keyword_tag_rest(r2, lit("endif"));
    }
}

/// The branches of a conditional leave an end of the input.
pub proof fn lemma_else_branches_rest(s: Seq<u8>)
    ensures
        else_branches(s).0.is_suffix_of(s),
    decreases s.len(), 1nat,
{
    lemma_cond_block_rest(s);
    if let Some((r0, _)) = cond_block(s) {
        lemma_else_branches_rest(r0);
    }
}

/// An `else` branch takes at least one byte.
pub proof fn lemma_cond_block_rest(s: Seq<u8>)
    ensures
        cond_block(s) matches Some((r, _)) ==> r.is_suffix_of(s) && r.len() < s.len(),
    decreases s.len(), 0nat,
{
    lemma_else_header_rest(s);
    if let Some((r0, _)) = else_header(s) {
        lemma_parse_template_rest(r0);
    }
}

/// A loop takes at least one byte.
pub proof fn lemma_block_for_rest(s: Seq<u8>)
    ensures
        block_for(s) matches Some((r, _)) ==> r.is_suffix_of(s) && r.len() < s.len(),
    decreases s.len(), 1nat,
{
    lemma_for_header_rest(s);
    if let Some((r0, _)) = for_header(s) {
        lemma_parse_template_rest(r0);
        lemma_keyword_tag_rest(parse_template(r0).0, lit("endfor"));
    }
}

/// A named block takes at least one byte.
pub proof fn lemma_block_block_rest(s: Seq<u8>)
    ensures
        block_block(s) matches Some((r, _)) ==> r.is_suffix_of(s) && r.len() < s.len(),
    decreases s.len(), 1nat,
{
    lemma_block_header_rest(s);
    if let Some((r0, _)) = block_header(s) {
        lemma_parse_template_rest(r0);
        lemma_keyword_tag_rest(parse_template(r0).0, lit("endblock"));
    }
}

} // verus!
