//! What holds of the grammar for every input.

use crate::bytes::{
    delimiter_at, is_literal_run, is_space, is_space_run, is_trailing_space_run, lemma_alnum_len,
    lemma_literal_len, lemma_space_len, lemma_trailing_space_len, lemma_unquoted_len,
    literal_len, space_len, trailing_space_len, PIPE, QUOTE,
};
use crate::grammar::{
    block_block, block_extends, block_for, block_header, block_if, cond_block, cond_if,
    else_branches, else_header, expr_any, expr_compare, expr_filtered, expr_node, expr_str_lit,
    expr_var, filters, for_header, identifier, if_header, lit, node, operator, padded_tag, parse,
    parse_template, skip_space, split_ws, stmt_open, tag, take_content, trim_marker,
};
use crate::lemmas::{
    lemma_block_header_rest, lemma_else_header_rest, lemma_for_header_rest,
    lemma_identifier_rest, lemma_if_header_rest, lemma_node_rest, lemma_parse_template_rest,
};
use crate::shape::{
    all_space, are_branches, are_nodes, is_branch, is_expr, is_filter_chain, is_name, is_node,
    is_operator, is_trimmed,
};
use crate::tree::{SpecExpr, SpecNode};
use vstd::prelude::*;

verus! {

/// Splitting loses nothing and moves nothing: the three parts, put together
/// again in their order, are the text that was split. The first part and
/// the last are whitespace; the middle part neither starts nor ends with
/// whitespace. Text that is whitespace throughout is the first part alone.
pub proof fn lemma_split_ws(s: Seq<u8>)
    ensures
        ({
            let (lead, core, trail) = split_ws(s);
            &&& lead + core + trail == s
            &&& all_space(lead)
            &&& is_trimmed(core)
            &&& all_space(trail)
            &&& (core.len() == 0 ==> lead == s && trail.len() == 0)
        }),
{
    lemma_space_len(s);
    lemma_trailing_space_len(s);
    let (lead, core, trail) = split_ws(s);
    let start = space_len(s) as int;
    if start < s.len() {
        let end = s.len() - trailing_space_len(s);
        // the byte at `start` is no whitespace, so the trailing run ends after it
        assert(start < end) by {
            if end <= start {
                assert(is_space(s[start]));
            }
        }
        assert(core.first() == s[start]);
        assert(core.last() == s[end - 1]);
        assert forall|j: int| 0 <= j < trail.len() implies is_space(#[trigger] trail[j]) by {
            assert(trail[j] == s[end + j]);
        }
    }
    assert(lead + core + trail =~= s);
}

/// There is one way only to split a text so: whatever three parts make up
/// `s`, with whitespace first and last, a trimmed middle, and no whitespace
/// last where the middle is empty, they are the parts that `split_ws` gives.
pub proof fn lemma_split_ws_unique(s: Seq<u8>, lead: Seq<u8>, core: Seq<u8>, trail: Seq<u8>)
    requires
        lead + core + trail == s,
        all_space(lead),
        is_trimmed(core),
        all_space(trail),
        core.len() == 0 ==> trail.len() == 0,
    ensures
        split_ws(s) == (lead, core, trail),
{
    lemma_space_len(s);
    lemma_trailing_space_len(s);
    let a = lead.len() as int;
    let b = a + core.len();
    assert forall|j: int| 0 <= j < a implies is_space(#[trigger] s[j]) by {
        assert(s[j] == lead[j]);
    }
    if core.len() == 0 {
        assert(s =~= lead);
        assert(is_space_run(s, a));
        assert(core =~= Seq::<u8>::empty());
        assert(trail =~= Seq::<u8>::empty());
    } else {
        assert(s[a] == core.first());
        assert(s[b - 1] == core.last());
        assert(is_space_run(s, a));
        assert forall|j: int| b <= j < s.len() implies is_space(#[trigger] s[j]) by {
            assert(s[j] == trail[j - b]);
        }
        assert(is_trailing_space_run(s, s.len() - b));
        assert(lead =~= s.take(a));
        assert(core =~= s.subrange(a, b));
        assert(trail =~= s.skip(b));
    }
}

/// Plain text ends at the first opening delimiter, or at the end of the
/// input, and nowhere else: a `{` that opens no tag does not end it. What was
/// read and what is left make up the input. Nothing is read, and the rule
/// fails, only where the input is empty or starts with an opening delimiter.
pub proof fn lemma_take_content(s: Seq<u8>)
    ensures
        match take_content(s) {
            Some((rest, node)) => {
                &&& node matches SpecNode::Lit(lead, core, trail)
                &&& lead + core + trail + rest == s
                &&& rest.len() < s.len()
                &&& is_literal_run(s, s.len() - rest.len())
                &&& split_ws(lead + core + trail) == (lead, core, trail)
            },
            None => s.len() == 0 || delimiter_at(s, 0),
        },
{
    lemma_literal_len(s);
    let n = literal_len(s) as int;
    if n > 0 {
        lemma_split_ws(s.take(n));
        let (lead, core, trail) = split_ws(s.take(n));
        assert(lead + core + trail + s.skip(n) =~= s);
    } else if s.len() > 0 {
        assert(delimiter_at(s, 0));
    }
}

/// Whitespace that was skipped leaves none to skip: where the grammar skips
/// whitespace at the end of one rule, the next rule need not skip it again.
pub proof fn lemma_skip_space_once(s: Seq<u8>)
    ensures
        skip_space(skip_space(s)) == skip_space(s),
{
    lemma_space_len(s);
    let r = skip_space(s);
    lemma_space_len(r);
    if r.len() > 0 {
        assert(r[0] == s[space_len(s) as int]);
    }
    assert(is_space_run(r, 0));
    assert(r.skip(0) =~= r);
}

/// A name that was read is a name.
pub proof fn lemma_identifier_shape(s: Seq<u8>)
    ensures
        identifier(s) matches Some((rest, name)) ==> is_name(name) && name + rest == s,
{
    lemma_alnum_len(s);
    if let Some((rest, name)) = identifier(s) {
        assert(name + rest =~= s);
    }
}

/// A string literal is read where the input starts with `"` and a second
/// `"` follows, and only there: one that is not closed before the input ends
/// fails. Its text is what stands between the two, and holds no `"`.
pub proof fn lemma_expr_str_lit(s: Seq<u8>)
    ensures
        expr_str_lit(s) is Some <==> s.len() > 0 && s[0] == QUOTE && s.skip(1).contains(QUOTE),
        expr_str_lit(s) matches Some((rest, e)) ==> {
            &&& e matches SpecExpr::StrLit(text)
            &&& !text.contains(QUOTE)
            &&& seq![QUOTE] + text + seq![QUOTE] + rest == s
        },
{
    if s.len() > 0 && s[0] == QUOTE {
        let body = s.skip(1);
        lemma_unquoted_len(body);
        if let Some((rest, e)) = expr_str_lit(s) {
            let text = e->StrLit_0;
            assert(body[text.len() as int] == QUOTE);
            assert forall|j: int| 0 <= j < text.len() implies text[j] != QUOTE by {
                assert(text[j] == body[j]);
            }
            assert(seq![QUOTE] + text + seq![QUOTE] + rest =~= s);
        } else {
            assert forall|j: int| 0 <= j < body.len() implies body[j] != QUOTE by {}
        }
    }
}

/// Filters around a filter chain make a filter chain.
pub proof fn lemma_filters_shape(s: Seq<u8>, e: SpecExpr)
    requires
        is_filter_chain(e),
    ensures
        filters(s, e) matches Some((_, chain)) ==> is_filter_chain(chain),
    decreases s.len(),
{
    if s.len() > 0 && s[0] == PIPE {
        if let Some((rest, name)) = identifier(s.skip(1)) {
            lemma_identifier_shape(s.skip(1));
            lemma_identifier_rest(s.skip(1));
            lemma_filters_shape(rest, SpecExpr::Filter(name, Box::new(e)));
        }
    }
}

/// What `expr_filtered` reads is a filter chain.
pub proof fn lemma_expr_filtered_shape(s: Seq<u8>)
    ensures
        expr_filtered(s) matches Some((_, chain)) ==> is_filter_chain(chain),
{
    lemma_identifier_shape(s);
    if let Some((rest, e)) = expr_var(s) {
        lemma_filters_shape(rest, e);
    }
}

/// Both operands of a comparison are filter chains: a comparison holds no
/// comparison and no string literal. Its operator is one of the six.
pub proof fn lemma_expr_compare_shape(s: Seq<u8>)
    ensures
        expr_compare(s) matches Some((_, e)) ==> {
            &&& e matches SpecExpr::Compare(op, left, right)
            &&& is_operator(op)
            &&& is_filter_chain(*left)
            &&& is_filter_chain(*right)
        },
{
    lemma_expr_filtered_shape(s);
    if let Some((r1, _)) = expr_filtered(s) {
        if let Some((r2, _)) = operator(skip_space(r1)) {
            lemma_expr_filtered_shape(skip_space(r2));
        }
    }
}

/// Every expression that is read is a filter chain, a comparison of two
/// filter chains, or a string literal.
pub proof fn lemma_expr_any_shape(s: Seq<u8>)
    ensures
        expr_any(s) matches Some((_, e)) ==> is_expr(e),
{
    lemma_expr_compare_shape(s);
    lemma_expr_filtered_shape(s);
    lemma_expr_str_lit(s);
}

/// Plain text that was read is what `split_ws` makes of text that is not
/// empty, and right after it no plain text can be read again.
pub proof fn lemma_take_content_shape(s: Seq<u8>)
    ensures
        take_content(s) matches Some((rest, n)) ==> n is Lit && is_node(n) && take_content(rest)
            is None,
{
    lemma_take_content(s);
    if let Some((rest, n)) = take_content(s) {
        lemma_literal_len(s);
        let k = literal_len(s) as int;
        lemma_split_ws(s.take(k));
        lemma_literal_len(rest);
        if rest.len() > 0 {
            assert(delimiter_at(s, k));
            assert(rest[0] == s[k]);
            assert(rest[1] == s[k + 1]);
            assert(delimiter_at(rest, 0));
        }
    }
}

/// Which form a node has says which rule has read it; plain text comes from
/// `take_content` alone.
pub proof fn lemma_node_form(s: Seq<u8>)
    ensures
        node(s) matches Some((_, n)) ==> (n is Lit <==> take_content(s) is Some),
{
    lemma_take_content_shape(s);
}

/// The parent template is named by a string literal, never by a variable or
/// any other expression: after `extends` and the whitespace that follows it
/// stands a `"`, or the tag is not read.
pub proof fn lemma_block_extends_shape(s: Seq<u8>)
    ensures
        block_extends(s) matches Some((_, n)) ==> {
            &&& n matches SpecNode::Extends(name)
            &&& name is StrLit
            &&& is_node(n)
            &&& tag(s, lit("{%")) matches Some(r0)
            &&& padded_tag(r0, lit("extends")) matches Some(r1)
            &&& r1.len() > 0
            &&& r1[0] == QUOTE
        },
{
    if let Some(r0) = tag(s, lit("{%")) {
        if let Some(r1) = padded_tag(r0, lit("extends")) {
            lemma_expr_str_lit(r1);
        }
    }
}

/// The condition after `if` is an expression as the grammar yields it.
pub proof fn lemma_cond_if_shape(s: Seq<u8>)
    ensures
        cond_if(s) matches Some((_, e)) ==> is_expr(e),
{
    if let Some(r0) = padded_tag(s, lit("if")) {
        lemma_expr_any_shape(r0);
    }
}

/// Every node of a template has the shape that `is_node` describes, and so
/// has every node below it.
pub proof fn lemma_parse_template_shape(s: Seq<u8>)
    ensures
        are_nodes(parse_template(s).1),
    decreases s.len(), 3nat,
{
    lemma_node_shape(s);
    lemma_node_rest(s);
    if let Some((r0, n)) = node(s) {
        lemma_parse_template_shape(r0);
        let more = parse_template(r0).1;
        let all = seq![n] + more;
        assert forall|j: int| 0 <= j < all.len() implies is_node(#[trigger] all[j]) by {
            if j > 0 {
                assert(all[j] == more[j - 1]);
            }
        }
        assert forall|j: int| 0 < j < all.len() implies !(all[j - 1] is Lit && #[trigger] all[j]
            is Lit) by {
            if j == 1 {
                if n is Lit {
                    lemma_node_form(s);
                    lemma_take_content_shape(s);
                    lemma_node_form(r0);
                    lemma_node_rest(r0);
                    assert(all[1] == more[0]);
                }
            } else {
                assert(all[j - 1] == more[j - 2]);
                assert(all[j] == more[j - 1]);
            }
        }
    }
}

/// A node that was read has the shape that `is_node` describes.
pub proof fn lemma_node_shape(s: Seq<u8>)
    ensures
        node(s) matches Some((_, n)) ==> is_node(n),
    decreases s.len(), 2nat,
{
    lemma_take_content_shape(s);
    lemma_expr_node_shape(s);
    lemma_block_if_shape(s);
    lemma_block_for_shape(s);
    lemma_block_extends_shape(s);
    lemma_block_block_shape(s);
}

/// An interpolation holds an expression as the grammar yields it.
pub proof fn lemma_expr_node_shape(s: Seq<u8>)
    ensures
        expr_node(s) matches Some((_, n)) ==> n is Expr && is_node(n),
{
    if let Some(r0) = tag(s, lit("{{")) {
        lemma_expr_any_shape(skip_space(trim_marker(r0).0));
    }
}

/// A conditional has its branches in the order in which they were written.
/// The first is the `if` branch: a conditional is never empty, and its first
/// branch has a condition.
pub proof fn lemma_block_if_shape(s: Seq<u8>)
    ensures
        block_if(s) matches Some((_, n)) ==> {
            &&& n matches SpecNode::Cond(branches, _)
            &&& is_node(n)
            &&& if_header(s) matches Some((r0, (ws, cond)))
            &&& branches[0] == (ws, Some(cond), parse_template(r0).1)
            &&& branches.skip(1) == else_branches(parse_template(r0).0).1
        },
    decreases s.len(), 1nat,
{
    if let Some((r0, (ws, cond))) = if_header(s) {
        lemma_if_header_rest(s);
        if let Some((r, _)) = stmt_open(s) {
            lemma_cond_if_shape(r);
        }
        lemma_parse_template_rest(r0);
        lemma_parse_template_shape(r0);
        let (r1, body) = parse_template(r0);
        lemma_else_branches_shape(r1);
        let more = else_branches(r1).1;
        let all = seq![(ws, Some(cond), body)] + more;
        assert(all.skip(1) =~= more);
        assert forall|j: int| 0 <= j < all.len() implies is_branch(#[trigger] all[j]) by {
            if j > 0 {
                assert(all[j] == more[j - 1]);
            }
        }
    }
}

/// The branches after the first have the shape that `is_branch` describes.
pub proof fn lemma_else_branches_shape(s: Seq<u8>)
    ensures
        are_branches(else_branches(s).1),
    decreases s.len(), 1nat,
{
    lemma_cond_block_shape(s);
    if let Some((r0, branch)) = cond_block(s) {
        if r0.len() < s.len() {
            lemma_else_branches_shape(r0);
            let more = else_branches(r0).1;
            let all = seq![branch] + more;
            assert forall|j: int| 0 <= j < all.len() implies is_branch(#[trigger] all[j]) by {
                if j > 0 {
                    assert(all[j] == more[j - 1]);
                }
            }
        }
    }
}

/// An `else` branch has a condition where `if` follows the `else`, and none
/// where it does not.
pub proof fn lemma_cond_block_shape(s: Seq<u8>)
    ensures
        cond_block(s) matches Some((_, branch)) ==> is_branch(branch),
    decreases s.len(), 0nat,
{
    if let Some((r0, _)) = else_header(s) {
        lemma_else_header_rest(s);
        if let Some((r, _)) = stmt_open(s) {
            if let Some(r1) = padded_tag(r, lit("else")) {
                lemma_cond_if_shape(r1);
            }
        }
        lemma_parse_template_shape(r0);
    }
}

/// A loop binds a name, and runs over an expression as the grammar yields it.
pub proof fn lemma_block_for_shape(s: Seq<u8>)
    ensures
        block_for(s) matches Some((_, n)) ==> n is Loop && is_node(n),
    decreases s.len(), 1nat,
{
    if let Some((r0, _)) = for_header(s) {
        lemma_for_header_rest(s);
        if let Some((r, _)) = stmt_open(s) {
            if let Some(r1) = padded_tag(r, lit("for")) {
                lemma_identifier_shape(r1);
                if let Some((r2, _)) = identifier(r1) {
                    if let Some(r3) = padded_tag(r2, lit("in")) {
                        lemma_expr_any_shape(r3);
                    }
                }
            }
        }
        lemma_parse_template_shape(r0);
    }
}

/// A named block has a name.
pub proof fn lemma_block_block_shape(s: Seq<u8>)
    ensures
        block_block(s) matches Some((_, n)) ==> n is BlockDef && is_node(n),
    decreases s.len(), 1nat,
{
    if let Some((r0, _)) = block_header(s) {
        lemma_block_header_rest(s);
        if let Some((r, _)) = stmt_open(s) {
            if let Some(r1) = padded_tag(r, lit("block")) {
                lemma_identifier_shape(r1);
            }
        }
        lemma_parse_template_shape(r0);
    }
}

/// Where a template stops, no node can be read.
pub proof fn lemma_parse_template_stops(s: Seq<u8>)
    ensures
        node(parse_template(s).0) is None,
    decreases s.len(),
{
    lemma_node_rest(s);
    if let Some((r0, _)) = node(s) {
        lemma_parse_template_stops(r0);
    }
}

/// A source that parses gives nodes of the shape that `are_nodes` describes.
/// One that does not parse fails at an offset inside it, and at that offset
/// stands an opening delimiter, `{{` or `{%`, with which no node starts;
/// everything before the offset was read as nodes.
pub proof fn lemma_parse(s: Seq<u8>)
    ensures
        match parse(s) {
            Ok(nodes) => are_nodes(nodes) && parse_template(s) == (Seq::<u8>::empty(), nodes),
            Err(offset) => {
                &&& 0 <= offset < s.len()
                &&& delimiter_at(s, offset)
                &&& node(s.skip(offset)) is None
                &&& parse_template(s).0 == s.skip(offset)
            },
        },
{
    lemma_parse_template_shape(s);
    lemma_parse_template_rest(s);
    lemma_parse_template_stops(s);
    let rest = parse_template(s).0;
    if rest.len() > 0 {
        let offset = s.len() - rest.len();
        lemma_take_content(rest);
        assert(rest[0] == s[offset]);
        assert(rest[1] == s[offset + 1]);
    } else {
        assert(rest =~= Seq::<u8>::empty());
    }
}

} // verus!
