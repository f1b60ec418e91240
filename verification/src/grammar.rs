//! The grammar of templates, as functions on byte sequences.
//!
//! Every rule takes the input that is left and either fails (`None`) or gives
//! the input that is left after it, together with what it has read. Where
//! rules are alternatives they are tried in a fixed order and the first that
//! matches wins; what comes after an alternative never makes the grammar go
//! back and try another.
//!
//! Whitespace is the four bytes of `bytes::is_space`; names are runs of ASCII
//! letters and digits. Keywords are matched as they stand, with any
//! whitespace around them, and need none: `{%ifa%}` reads as `{% if a %}`.

use crate::bytes::{
    alnum_len, lemma_alnum_len, literal_len, space_len, trailing_space_len, unquoted_len, DASH,
    PIPE, QUOTE,
};
use crate::lemmas::{
    lemma_block_header_rest, lemma_else_header_rest, lemma_for_header_rest, lemma_if_header_rest,
};
use crate::tree::{SpecCond, SpecExpr, SpecNode, WS};
use vstd::prelude::*;
use vstd::string::StringSliceAdditionalSpecFns;

verus! {

/// The bytes of a token that the grammar writes as text.
pub open spec fn lit(t: &str) -> Seq<u8> {
    t.spec_bytes()
}

/// The input after its leading whitespace.
pub open spec fn skip_space(s: Seq<u8>) -> Seq<u8> {
    s.skip(space_len(s) as int)
}

/// The input after the token `t`, if it starts with `t`.
pub open spec fn tag(s: Seq<u8>, t: Seq<u8>) -> Option<Seq<u8>> {
    if t.is_prefix_of(s) {
        Some(s.skip(t.len() as int))
    } else {
        None
    }
}

/// A token with any whitespace before and after it.
pub open spec fn padded_tag(s: Seq<u8>, t: Seq<u8>) -> Option<Seq<u8>> {
    match tag(skip_space(s), t) {
        Some(rest) => Some(skip_space(rest)),
        None => None,
    }
}

/// An optional `-`: the input after it, and whether it was there.
pub open spec fn trim_marker(s: Seq<u8>) -> (Seq<u8>, bool) {
    if s.len() > 0 && s[0] == DASH {
        (s.skip(1), true)
    } else {
        (s, false)
    }
}

/// A name: the longest run of alphanumeric bytes, which must not be empty.
pub open spec fn identifier(s: Seq<u8>) -> Option<(Seq<u8>, Seq<u8>)> {
    let n = alnum_len(s) as int;
    if n > 0 {
        Some((s.skip(n), s.take(n)))
    } else {
        None
    }
}

/// The token `t`, kept as the text that was read.
pub open spec fn tag_text(s: Seq<u8>, t: Seq<u8>) -> Option<(Seq<u8>, Seq<u8>)> {
    match tag(s, t) {
        Some(rest) => Some((rest, t)),
        None => None,
    }
}

/// A string literal: `"`, any bytes but `"`, and `"`. The text between the
/// quotes is kept as it stands.
pub open spec fn expr_str_lit(s: Seq<u8>) -> Option<(Seq<u8>, SpecExpr)> {
    if s.len() > 0 && s[0] == QUOTE {
        let n = unquoted_len(s.skip(1)) as int;
        if 1 + n < s.len() {
            Some((s.skip(n + 2), SpecExpr::StrLit(s.subrange(1, 1 + n))))
        } else {
            None
        }
    } else {
        None
    }
}

/// A variable: a name.
pub open spec fn expr_var(s: Seq<u8>) -> Option<(Seq<u8>, SpecExpr)> {
    match identifier(s) {
        Some((rest, name)) => Some((rest, SpecExpr::Var(name))),
        None => None,
    }
}

/// The filters that follow the expression `e`: as long as the input goes on
/// with `|`, a name must follow, and it wraps what has been read so far.
pub open spec fn filters(s: Seq<u8>, e: SpecExpr) -> Option<(Seq<u8>, SpecExpr)>
    decreases s.len(),
{
    if s.len() > 0 && s[0] == PIPE {
        match identifier(s.skip(1)) {
            Some((rest, name)) => {
                proof {
                    lemma_alnum_len(s.skip(1));
                }
                filters(rest, SpecExpr::Filter(name, Box::new(e)))
            },
            None => None,
        }
    } else {
        Some((s, e))
    }
}

/// A filter chain: a variable and the filters that follow it.
pub open spec fn expr_filtered(s: Seq<u8>) -> Option<(Seq<u8>, SpecExpr)> {
    match expr_var(s) {
        Some((rest, e)) => filters(rest, e),
        None => None,
    }
}

/// A comparison operator. The two-byte operators are tried before the
/// one-byte operators that they start with.
pub open spec fn operator(s: Seq<u8>) -> Option<(Seq<u8>, Seq<u8>)> {
    if tag(s, lit("==")) is Some {
        tag_text(s, lit("=="))
    } else if tag(s, lit("!=")) is Some {
        tag_text(s, lit("!="))
    } else if tag(s, lit(">=")) is Some {
        tag_text(s, lit(">="))
    } else if tag(s, lit(">")) is Some {
        tag_text(s, lit(">"))
    } else if tag(s, lit("<=")) is Some {
        tag_text(s, lit("<="))
    } else {
        tag_text(s, lit("<"))
    }
}

/// A comparison: a filter chain, an operator with any whitespace around it,
/// and a filter chain.
pub open spec fn expr_compare(s: Seq<u8>) -> Option<(Seq<u8>, SpecExpr)> {
    match expr_filtered(s) {
        Some((r1, left)) => match operator(skip_space(r1)) {
            Some((r2, op)) => match expr_filtered(skip_space(r2)) {
                Some((r3, right)) => Some(
                    (r3, SpecExpr::Compare(op, Box::new(left), Box::new(right))),
                ),
                None => None,
            },
            None => None,
        },
        None => None,
    }
}

/// An expression: a comparison, else a filter chain, else a string literal.
pub open spec fn expr_any(s: Seq<u8>) -> Option<(Seq<u8>, SpecExpr)> {
    if expr_compare(s) is Some {
        expr_compare(s)
    } else if expr_filtered(s) is Some {
        expr_filtered(s)
    } else {
        expr_str_lit(s)
    }
}

/// Plain text in three parts: the whitespace it starts with, what lies
/// between, and the whitespace it ends with. Text that is whitespace
/// throughout counts as leading whitespace, all of it.
pub open spec fn split_ws(s: Seq<u8>) -> (Seq<u8>, Seq<u8>, Seq<u8>) {
    let start = space_len(s) as int;
    if start == s.len() {
        (s, Seq::empty(), Seq::empty())
    } else {
        let end = s.len() - trailing_space_len(s);
        (s.take(start), s.subrange(start, end), s.skip(end))
    }
}

/// Plain text: everything up to the next opening delimiter, or to the end.
/// It fails where there is nothing to take: at the end of the input and
/// right at an opening delimiter.
pub open spec fn take_content(s: Seq<u8>) -> Option<(Seq<u8>, SpecNode)> {
    let n = literal_len(s) as int;
    if n > 0 {
        let parts = split_ws(s.take(n));
        Some((s.skip(n), SpecNode::Lit(parts.0, parts.1, parts.2)))
    } else {
        None
    }
}

/// An interpolation: `{{`, an expression with any whitespace around it, and
/// `}}`. A trim marker may stand right after `{{` and right before `}}`.
pub open spec fn expr_node(s: Seq<u8>) -> Option<(Seq<u8>, SpecNode)> {
    match tag(s, lit("{{")) {
        Some(r0) => {
            let (r1, before) = trim_marker(r0);
            match expr_any(skip_space(r1)) {
                Some((r2, e)) => {
                    let (r3, after) = trim_marker(skip_space(r2));
                    match tag(r3, lit("}}")) {
                        Some(r4) => Some((r4, SpecNode::Expr(WS(before, after), e))),
                        None => None,
                    }
                },
                None => None,
            }
        },
        None => None,
    }
}

/// How a statement's tag opens: `{%`, and a trim marker if there is one.
pub open spec fn stmt_open(s: Seq<u8>) -> Option<(Seq<u8>, bool)> {
    match tag(s, lit("{%")) {
        Some(r) => Some(trim_marker(r)),
        None => None,
    }
}

/// How a statement's tag closes: a trim marker if there is one, and `%}`.
pub open spec fn stmt_close(s: Seq<u8>) -> Option<(Seq<u8>, bool)> {
    let (r0, after) = trim_marker(s);
    match tag(r0, lit("%}")) {
        Some(r1) => Some((r1, after)),
        None => None,
    }
}

/// A tag that holds a keyword and nothing else, such as `{% endif %}`.
pub open spec fn keyword_tag(s: Seq<u8>, keyword: Seq<u8>) -> Option<(Seq<u8>, WS)> {
    match stmt_open(s) {
        Some((r0, before)) => match padded_tag(r0, keyword) {
            Some(r1) => match stmt_close(r1) {
                Some((r2, after)) => Some((r2, WS(before, after))),
                None => None,
            },
            None => None,
        },
        None => None,
    }
}

/// A condition: `if` and an expression, with any whitespace around each.
pub open spec fn cond_if(s: Seq<u8>) -> Option<(Seq<u8>, SpecExpr)> {
    match padded_tag(s, lit("if")) {
        Some(r0) => match expr_any(r0) {
            Some((r1, e)) => Some((skip_space(r1), e)),
            None => None,
        },
        None => None,
    }
}

/// The tag that opens a conditional: `{% if <expression> %}`.
pub open spec fn if_header(s: Seq<u8>) -> Option<(Seq<u8>, (WS, SpecExpr))> {
    match stmt_open(s) {
        Some((r0, before)) => match cond_if(r0) {
            Some((r1, e)) => match stmt_close(r1) {
                Some((r2, after)) => Some((r2, (WS(before, after), e))),
                None => None,
            },
            None => None,
        },
        None => None,
    }
}

/// The tag that opens a further branch of a conditional: `{% else %}`, or
/// `{% else if <expression> %}`.
pub open spec fn else_header(s: Seq<u8>) -> Option<(Seq<u8>, (WS, Option<SpecExpr>))> {
    match stmt_open(s) {
        Some((r0, before)) => match padded_tag(r0, lit("else")) {
            Some(r1) => {
                let (r2, cond) = match cond_if(r1) {
                    Some((r, e)) => (r, Some(e)),
                    None => (r1, None),
                };
                match stmt_close(r2) {
                    Some((r3, after)) => Some((r3, (WS(before, after), cond))),
                    None => None,
                }
            },
            None => None,
        },
        None => None,
    }
}

/// The tag that opens a loop: `{% for <name> in <expression> %}`.
pub open spec fn for_header(s: Seq<u8>) -> Option<(Seq<u8>, (WS, Seq<u8>, SpecExpr))> {
    match stmt_open(s) {
        Some((r0, before)) => match padded_tag(r0, lit("for")) {
            Some(r1) => match identifier(r1) {
                Some((r2, name)) => match padded_tag(r2, lit("in")) {
                    Some(r3) => match expr_any(r3) {
                        Some((r4, e)) => match stmt_close(skip_space(r4)) {
                            Some((r5, after)) => Some((r5, (WS(before, after), name, e))),
                            None => None,
                        },
                        None => None,
                    },
                    None => None,
                },
                None => None,
            },
            None => None,
        },
        None => None,
    }
}

/// The tag that opens a named block: `{% block <name> %}`.
pub open spec fn block_header(s: Seq<u8>) -> Option<(Seq<u8>, (WS, Seq<u8>))> {
    match stmt_open(s) {
        Some((r0, before)) => match padded_tag(r0, lit("block")) {
            Some(r1) => match identifier(r1) {
                Some((r2, name)) => match stmt_close(skip_space(r2)) {
                    Some((r3, after)) => Some((r3, (WS(before, after), name))),
                    None => None,
                },
                None => None,
            },
            None => None,
        },
        None => None,
    }
}

/// The parent template: `{% extends "<name>" %}`. The name is a string
/// literal and nothing else, and the tag takes no trim markers.
pub open spec fn block_extends(s: Seq<u8>) -> Option<(Seq<u8>, SpecNode)> {
    match tag(s, lit("{%")) {
        Some(r0) => match padded_tag(r0, lit("extends")) {
            Some(r1) => match expr_str_lit(r1) {
                Some((r2, name)) => match tag(skip_space(r2), lit("%}")) {
                    Some(r3) => Some((r3, SpecNode::Extends(name))),
                    None => None,
                },
                None => None,
            },
            None => None,
        },
        None => None,
    }
}

/// A template: nodes, one after the other, for as long as one can be read.
/// It never fails: where no node can be read it stops, and what it could not
/// read is left.
///
/// A node always takes something off the input (`lemmas::lemma_node_rest`),
/// so the test on the lengths never fails. It stands here, as in the other
/// recursive rules, so that the definition is seen to come to an end.
pub open spec fn parse_template(s: Seq<u8>) -> (Seq<u8>, Seq<SpecNode>)
    decreases s.len(), 3nat,
{
    match node(s) {
        Some((r0, n)) => if r0.len() < s.len() {
            let (r1, more) = parse_template(r0);
            (r1, seq![n] + more)
        } else {
            (s, Seq::empty())
        },
        None => (s, Seq::empty()),
    }
}

/// A node: plain text, else an interpolation, else a conditional, else a
/// loop, else a parent template, else a named block.
pub open spec fn node(s: Seq<u8>) -> Option<(Seq<u8>, SpecNode)>
    decreases s.len(), 2nat,
{
    if take_content(s) is Some {
        take_content(s)
    } else if expr_node(s) is Some {
        expr_node(s)
    } else if block_if(s) is Some {
        block_if(s)
    } else if block_for(s) is Some {
        block_for(s)
    } else if block_extends(s) is Some {
        block_extends(s)
    } else {
        block_block(s)
    }
}

/// A conditional: `{% if .. %}` and its body, any number of `{% else .. %}`
/// branches, and `{% endif %}`. The branches stand in the order in which
/// they were written; the first has a condition.
pub open spec fn block_if(s: Seq<u8>) -> Option<(Seq<u8>, SpecNode)>
    decreases s.len(), 1nat,
{
    match if_header(s) {
        Some((r0, (ws, cond))) => {
            proof {
                lemma_if_header_rest(s);
            }
            let (r1, body) = parse_template(r0);
            if r1.len() <= r0.len() {
                let (r2, more) = else_branches(r1);
                match keyword_tag(r2, lit("endif")) {
                    Some((r3, end)) => Some(
                        (r3, SpecNode::Cond(seq![(ws, Some(cond), body)] + more, end)),
                    ),
                    None => None,
                }
            } else {
                None
            }
        },
        None => None,
    }
}

/// The branches of a conditional after its first, for as long as one can be
/// read.
pub open spec fn else_branches(s: Seq<u8>) -> (Seq<u8>, Seq<SpecCond>)
    decreases s.len(), 1nat,
{
    match cond_block(s) {
        Some((r0, branch)) => if r0.len() < s.len() {
            let (r1, more) = else_branches(r0);
            (r1, seq![branch] + more)
        } else {
            (s, Seq::empty())
        },
        None => (s, Seq::empty()),
    }
}

/// A further branch of a conditional: `{% else %}` or `{% else if .. %}`,
/// and its body.
pub open spec fn cond_block(s: Seq<u8>) -> Option<(Seq<u8>, SpecCond)>
    decreases s.len(), 0nat,
{
    match else_header(s) {
        Some((r0, (ws, cond))) => {
            proof {
                lemma_else_header_rest(s);
            }
            let (r1, body) = parse_template(r0);
            Some((r1, (ws, cond, body)))
        },
        None => None,
    }
}

/// A loop: `{% for .. in .. %}`, its body, and `{% endfor %}`.
pub open spec fn block_for(s: Seq<u8>) -> Option<(Seq<u8>, SpecNode)>
    decreases s.len(), 1nat,
{
    match for_header(s) {
        Some((r0, (ws, name, iter))) => {
            proof {
                lemma_for_header_rest(s);
            }
            let (r1, body) = parse_template(r0);
            match keyword_tag(r1, lit("endfor")) {
                Some((r2, end)) => Some((r2, SpecNode::Loop(ws, name, iter, body, end))),
                None => None,
            }
        },
        None => None,
    }
}

/// A named block: `{% block .. %}`, its body, and `{% endblock %}`.
pub open spec fn block_block(s: Seq<u8>) -> Option<(Seq<u8>, SpecNode)>
    decreases s.len(), 1nat,
{
    match block_header(s) {
        Some((r0, (ws, name))) => {
            proof {
                lemma_block_header_rest(s);
            }
            let (r1, body) = parse_template(r0);
            match keyword_tag(r1, lit("endblock")) {
                Some((r2, end)) => Some((r2, SpecNode::BlockDef(ws, name, body, end))),
                None => None,
            }
        },
        None => None,
    }
}

/// A whole source: a template that leaves nothing. Where something is left,
/// the failure is the offset at which no node could be read.
pub open spec fn parse(s: Seq<u8>) -> Result<Seq<SpecNode>, int> {
    let (rest, nodes) = parse_template(s);
    if rest.len() == 0 {
        Ok(nodes)
    } else {
        Err(s.len() - rest.len())
    }
}

} // verus!
