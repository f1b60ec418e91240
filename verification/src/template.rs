//! Readers for nodes and templates, and `parse`, which reads a whole source.

use crate::bytes::delimiter_at;
use crate::content::{same_node, take_content};
use crate::expr::{expr_any, expr_str_lit, same_expr};
use crate::grammar;
use crate::laws::{lemma_node_shape, lemma_parse, lemma_parse_template_shape};
use crate::lemmas::{
    lemma_block_header_rest, lemma_cond_block_rest, lemma_else_header_rest,
    lemma_for_header_rest, lemma_if_header_rest, lemma_node_rest, lemma_parse_template_rest,
};
use crate::shape::{are_nodes, is_node};
use crate::token::{identifier, padded_tag, skip_space, tag, trim_marker};
use crate::tree::{
    cond_view, conds_view, nodes_view, target_view, Cond, Expr, Node, SpecCond, SpecExpr,
    SpecNode, Target, WS,
};
use vstd::prelude::*;
use vstd::string::StringSliceAdditionalSpecFns;

verus! {

/// The forms that a node can take, in the order in which they are tried.
#[derive(Clone, Copy, Debug, PartialEq, Eq)]
pub enum Rule {
    /// Plain text.
    Content,
    /// An interpolation, `{{ .. }}`.
    Expression,
    /// A conditional, `{% if .. %}`.
    If,
    /// A loop, `{% for .. %}`.
    For,
    /// A parent template, `{% extends .. %}`.
    Extends,
    /// A named block, `{% block .. %}`.
    Block,
}

/// Why a source is no template: at `offset` something is left that is the
/// start of no node. `attempted` lists the forms that were tried there.
#[derive(Debug, PartialEq, Eq)]
pub struct ParseFailure {
    pub offset: usize,
    pub attempted: Vec<Rule>,
}

/// Every form of node, in the order in which they are tried.
pub open spec fn all_rules() -> Seq<Rule> {
    seq![Rule::Content, Rule::Expression, Rule::If, Rule::For, Rule::Extends, Rule::Block]
}

/// Reads an interpolation, `{{ expression }}`.
pub fn expr_node<'a>(i: &'a str) -> (r: Option<(&'a str, Node<'a>)>)
    ensures
        same_node(r, grammar::expr_node(i.spec_bytes())),
{
    let r0 = match tag(i, "{{") {
        Some(x) => x,
        None => { return None; },
    };
    let (r1, before) = trim_marker(r0);
    let (r2, expr) = match expr_any(skip_space(r1)) {
        Some(x) => x,
        None => { return None; },
    };
    let (r3, after) = trim_marker(skip_space(r2));
    match tag(r3, "}}") {
        Some(r4) => Some((r4, Node::Expr(WS(before, after), expr))),
        None => None,
    }
}

/// Reads `{%` and the trim marker that may follow it.
pub fn stmt_open<'a>(i: &'a str) -> (r: Option<(&'a str, bool)>)
    ensures
        match grammar::stmt_open(i.spec_bytes()) {
            Some((rest, before)) => r matches Some((x, b)) && x.spec_bytes() == rest && b
                == before,
            None => r is None,
        },
{
    match tag(i, "{%") {
        Some(rest) => Some(trim_marker(rest)),
        None => None,
    }
}

/// Reads `%}` and the trim marker that may precede it.
pub fn stmt_close<'a>(i: &'a str) -> (r: Option<(&'a str, bool)>)
    ensures
        match grammar::stmt_close(i.spec_bytes()) {
            Some((rest, after)) => r matches Some((x, b)) && x.spec_bytes() == rest && b
                == after,
            None => r is None,
        },
{
    let (r0, after) = trim_marker(i);
    match tag(r0, "%}") {
        Some(r1) => Some((r1, after)),
        None => None,
    }
}

/// Reads a tag that holds the keyword and nothing else.
pub fn keyword_tag<'a>(i: &'a str, keyword: &str) -> (r: Option<(&'a str, WS)>)
    ensures
        match grammar::keyword_tag(i.spec_bytes(), keyword.spec_bytes()) {
            Some((rest, ws)) => r matches Some((x, w)) && x.spec_bytes() == rest && w == ws,
            None => r is None,
        },
{
    let (r0, before) = match stmt_open(i) {
        Some(x) => x,
        None => { return None; },
    };
    let r1 = match padded_tag(r0, keyword) {
        Some(x) => x,
        None => { return None; },
    };
    match stmt_close(r1) {
        Some((r2, after)) => Some((r2, WS(before, after))),
        None => None,
    }
}

/// Reads `if` and the condition that follows it.
pub fn cond_if<'a>(i: &'a str) -> (r: Option<(&'a str, Expr<'a>)>)
    ensures
        same_expr(r, grammar::cond_if(i.spec_bytes())),
{
    let r0 = match padded_tag(i, "if") {
        Some(x) => x,
        None => { return None; },
    };
    match expr_any(r0) {
        Some((r1, e)) => Some((skip_space(r1), e)),
        None => None,
    }
}

/// Reads the loop variable: a name and nothing else.
pub fn target_single<'a>(i: &'a str) -> (r: Option<(&'a str, Target<'a>)>)
    ensures
        match grammar::identifier(i.spec_bytes()) {
            Some((rest, name)) => r matches Some((x, t)) && x.spec_bytes() == rest
                && target_view(t) == name,
            None => r is None,
        },
{
    match identifier(i) {
        Some((rest, name)) => Some((rest, Target::Name(name))),
        None => None,
    }
}

/// Reads `{% if <expression> %}`.
pub fn if_header<'a>(i: &'a str) -> (r: Option<(&'a str, (WS, Expr<'a>))>)
    ensures
        match grammar::if_header(i.spec_bytes()) {
            Some((rest, (ws, cond))) => r matches Some((x, (w, c))) && x.spec_bytes() == rest
                && w == ws && c@ == cond,
            None => r is None,
        },
{
    let (r0, before) = match stmt_open(i) {
        Some(x) => x,
        None => { return None; },
    };
    let (r1, cond) = match cond_if(r0) {
        Some(x) => x,
        None => { return None; },
    };
    match stmt_close(r1) {
        Some((r2, after)) => Some((r2, (WS(before, after), cond))),
        None => None,
    }
}

/// What an `else` tag holds, in code and in the model.
pub open spec fn opt_expr_view(c: Option<Expr>) -> Option<SpecExpr> {
    match c {
        Some(e) => Some(e@),
        None => None,
    }
}

/// Reads `{% else %}` or `{% else if <expression> %}`.
pub fn else_header<'a>(i: &'a str) -> (r: Option<(&'a str, (WS, Option<Expr<'a>>))>)
    ensures
        match grammar::else_header(i.spec_bytes()) {
            Some((rest, (ws, cond))) => r matches Some((x, (w, c))) && x.spec_bytes() == rest
                && w == ws && opt_expr_view(c) == cond,
            None => r is None,
        },
{
    let (r0, before) = match stmt_open(i) {
        Some(x) => x,
        None => { return None; },
    };
    let r1 = match padded_tag(r0, "else") {
        Some(x) => x,
        None => { return None; },
    };
    let (r2, cond) = match cond_if(r1) {
        Some((rest, e)) => (rest, Some(e)),
        None => (r1, None),
    };
    match stmt_close(r2) {
        Some((r3, after)) => Some((r3, (WS(before, after), cond))),
        None => None,
    }
}

/// Reads `{% for <name> in <expression> %}`.
pub fn for_header<'a>(i: &'a str) -> (r: Option<(&'a str, (WS, Target<'a>, Expr<'a>))>)
    ensures
        match grammar::for_header(i.spec_bytes()) {
            Some((rest, (ws, name, iter))) => r matches Some((x, (w, t, e))) && x.spec_bytes()
                == rest && w == ws && target_view(t) == name && e@ == iter,
            None => r is None,
        },
{
    let (r0, before) = match stmt_open(i) {
        Some(x) => x,
        None => { return None; },
    };
    let r1 = match padded_tag(r0, "for") {
        Some(x) => x,
        None => { return None; },
    };
    let (r2, var) = match target_single(r1) {
        Some(x) => x,
        None => { return None; },
    };
    let r3 = match padded_tag(r2, "in") {
        Some(x) => x,
        None => { return None; },
    };
    let (r4, iter) = match expr_any(r3) {
        Some(x) => x,
        None => { return None; },
    };
    match stmt_close(skip_space(r4)) {
        Some((r5, after)) => Some((r5, (WS(before, after), var, iter))),
        None => None,
    }
}

/// Reads `{% block <name> %}`.
pub fn block_header<'a>(i: &'a str) -> (r: Option<(&'a str, (WS, &'a str))>)
    ensures
        match grammar::block_header(i.spec_bytes()) {
            Some((rest, (ws, name))) => r matches Some((x, (w, n))) && x.spec_bytes() == rest
                && w == ws && n.spec_bytes() == name,
            None => r is None,
        },
{
    let (r0, before) = match stmt_open(i) {
        Some(x) => x,
        None => { return None; },
    };
    let r1 = match padded_tag(r0, "block") {
        Some(x) => x,
        None => { return None; },
    };
    let (r2, name) = match identifier(r1) {
        Some(x) => x,
        None => { return None; },
    };
    match stmt_close(skip_space(r2)) {
        Some((r3, after)) => Some((r3, (WS(before, after), name))),
        None => None,
    }
}

/// Reads `{% extends "<name>" %}`. Only a string literal can name the parent.
pub fn block_extends<'a>(i: &'a str) -> (r: Option<(&'a str, Node<'a>)>)
    ensures
        same_node(r, grammar::block_extends(i.spec_bytes())),
{
    let r0 = match tag(i, "{%") {
        Some(x) => x,
        None => { return None; },
    };
    let r1 = match padded_tag(r0, "extends") {
        Some(x) => x,
        None => { return None; },
    };
    let (r2, name) = match expr_str_lit(r1) {
        Some(x) => x,
        None => { return None; },
    };
    match tag(skip_space(r2), "%}") {
        Some(r3) => Some((r3, Node::Extends(name))),
        None => None,
    }
}

/// Reads nodes for as long as one can be read, and hands back what is left
/// with them.
pub fn parse_template<'a>(i: &'a str) -> (r: (&'a str, Vec<Node<'a>>))
    ensures
        r.0.spec_bytes() == grammar::parse_template(i.spec_bytes()).0,
        nodes_view(r.1@) == grammar::parse_template(i.spec_bytes()).1,
        r.0.spec_bytes().is_suffix_of(i.spec_bytes()),
        are_nodes(nodes_view(r.1@)),
    decreases i.spec_bytes().len(), 3nat,
{
    let mut nodes: Vec<Node<'a>> = Vec::new();
    let mut cur = i;
    loop
        invariant
            cur.spec_bytes().len() <= i.spec_bytes().len(),
            grammar::parse_template(cur.spec_bytes()).0 == grammar::parse_template(
                i.spec_bytes(),
            ).0,
            nodes_view(nodes@) + grammar::parse_template(cur.spec_bytes()).1
                == grammar::parse_template(i.spec_bytes()).1,
        decreases cur.spec_bytes().len(),
    {
        match node(cur) {
            Some((rest, n)) => {
                proof {
                    lemma_node_rest(cur.spec_bytes());
                    let more = grammar::parse_template(rest.spec_bytes()).1;
                    assert(nodes_view(nodes@.push(n)) =~= nodes_view(nodes@).push(n@));
                    assert(nodes_view(nodes@).push(n@) + more =~= nodes_view(nodes@) + (seq![n@]
                        + more));
                }
                nodes.push(n);
                cur = rest;
            },
            None => {
                proof {
                    assert(nodes_view(nodes@) + Seq::<SpecNode>::empty() =~= nodes_view(nodes@));
                    lemma_parse_template_rest(i.spec_bytes());
                    lemma_parse_template_shape(i.spec_bytes());
                }
                return (cur, nodes);
            },
        }
    }
}

/// Reads one node, trying the forms in their fixed order: plain text, an
/// interpolation, a conditional, a loop, a parent template, a named block.
pub fn node<'a>(i: &'a str) -> (r: Option<(&'a str, Node<'a>)>)
    ensures
        same_node(r, grammar::node(i.spec_bytes())),
        r matches Some((rest, n)) ==> {
            &&& is_node(n@)
            &&& rest.spec_bytes().is_suffix_of(i.spec_bytes())
            &&& rest.spec_bytes().len() < i.spec_bytes().len()
        },
    decreases i.spec_bytes().len(), 2nat,
{
    proof {
        lemma_node_rest(i.spec_bytes());
        lemma_node_shape(i.spec_bytes());
    }
    if let Some(x) = take_content(i) {
        Some(x)
    } else if let Some(x) = expr_node(i) {
        Some(x)
    } else if let Some(x) = block_if(i) {
        Some(x)
    } else if let Some(x) = block_for(i) {
        Some(x)
    } else if let Some(x) = block_extends(i) {
        Some(x)
    } else {
        block_block(i)
    }
}

/// Reads a conditional, from `{% if .. %}` to `{% endif %}`.
pub fn block_if<'a>(i: &'a str) -> (r: Option<(&'a str, Node<'a>)>)
    ensures
        same_node(r, grammar::block_if(i.spec_bytes())),
    decreases i.spec_bytes().len(), 1nat,
{
    let (r0, (ws, cond)) = match if_header(i) {
        Some(x) => x,
        None => { return None; },
    };
    proof {
        lemma_if_header_rest(i.spec_bytes());
        lemma_parse_template_rest(r0.spec_bytes());
    }
    let (r1, body) = parse_template(r0);
    let (r2, branches) = else_branches(r1, (ws, Some(cond), body));
    match keyword_tag(r2, "endif") {
        Some((r3, end)) => Some((r3, Node::Cond(branches, end))),
        None => None,
    }
}

/// Reads the branches that follow the first branch of a conditional, for as
/// long as one can be read, and hands back all the branches, the first
/// included.
pub fn else_branches<'a>(i: &'a str, first: Cond<'a>) -> (r: (&'a str, Vec<Cond<'a>>))
    ensures
        r.0.spec_bytes() == grammar::else_branches(i.spec_bytes()).0,
        conds_view(r.1@) == seq![cond_view(first)] + grammar::else_branches(i.spec_bytes()).1,
    decreases i.spec_bytes().len(), 1nat,
{
    let mut branches: Vec<Cond<'a>> = Vec::new();
    branches.push(first);
    proof {
        assert(conds_view(branches@) =~= seq![cond_view(first)]);
    }
    let mut cur = i;
    loop
        invariant
            cur.spec_bytes().len() <= i.spec_bytes().len(),
            grammar::else_branches(cur.spec_bytes()).0 == grammar::else_branches(
                i.spec_bytes(),
            ).0,
            conds_view(branches@) + grammar::else_branches(cur.spec_bytes()).1 == seq![
                cond_view(first),
            ] + grammar::else_branches(i.spec_bytes()).1,
        decreases cur.spec_bytes().len(),
    {
        match cond_block(cur) {
            Some((rest, branch)) => {
                proof {
                    lemma_cond_block_rest(cur.spec_bytes());
                    let more = grammar::else_branches(rest.spec_bytes()).1;
                    assert(conds_view(branches@.push(branch)) =~= conds_view(branches@).push(
                        cond_view(branch),
                    ));
                    assert(conds_view(branches@).push(cond_view(branch)) + more =~= conds_view(
                        branches@,
                    ) + (seq![cond_view(branch)] + more));
                }
                branches.push(branch);
                cur = rest;
            },
            None => {
                proof {
                    assert(conds_view(branches@) + Seq::<SpecCond>::empty() =~= conds_view(
                        branches@,
                    ));
                }
                return (cur, branches);
            },
        }
    }
}

/// Reads a further branch of a conditional: the `else` tag and its body.
pub fn cond_block<'a>(i: &'a str) -> (r: Option<(&'a str, Cond<'a>)>)
    ensures
        match grammar::cond_block(i.spec_bytes()) {
            Some((rest, branch)) => r matches Some((x, c)) && x.spec_bytes() == rest
                && cond_view(c) == branch,
            None => r is None,
        },
    decreases i.spec_bytes().len(), 0nat,
{
    let (r0, (ws, cond)) = match else_header(i) {
        Some(x) => x,
        None => { return None; },
    };
    proof {
        lemma_else_header_rest(i.spec_bytes());
    }
    let (r1, body) = parse_template(r0);
    Some((r1, (ws, cond, body)))
}

/// Reads a loop, from `{% for .. %}` to `{% endfor %}`.
pub fn block_for<'a>(i: &'a str) -> (r: Option<(&'a str, Node<'a>)>)
    ensures
        same_node(r, grammar::block_for(i.spec_bytes())),
    decreases i.spec_bytes().len(), 1nat,
{
    let (r0, (ws, var, iter)) = match for_header(i) {
        Some(x) => x,
        None => { return None; },
    };
    proof {
        lemma_for_header_rest(i.spec_bytes());
    }
    let (r1, body) = parse_template(r0);
    match keyword_tag(r1, "endfor") {
        Some((r2, end)) => Some((r2, Node::Loop(ws, var, iter, body, end))),
        None => None,
    }
}

/// Reads a named block, from `{% block .. %}` to `{% endblock %}`.
pub fn block_block<'a>(i: &'a str) -> (r: Option<(&'a str, Node<'a>)>)
    ensures
        same_node(r, grammar::block_block(i.spec_bytes())),
    decreases i.spec_bytes().len(), 1nat,
{
    let (r0, (ws, name)) = match block_header(i) {
        Some(x) => x,
        None => { return None; },
    };
    proof {
        lemma_block_header_rest(i.spec_bytes());
    }
    let (r1, body) = parse_template(r0);
    match keyword_tag(r1, "endblock") {
        Some((r2, end)) => Some((r2, Node::BlockDef(ws, name, body, end))),
        None => None,
    }
}

/// Parses a template. The source is a template if nodes can be read from it
/// until nothing is left; the nodes are then handed back in their order.
/// Otherwise the failure names the offset at which no node could be read.
pub fn parse<'a>(src: &'a str) -> (r: Result<Vec<Node<'a>>, ParseFailure>)
    ensures
        match grammar::parse(src.spec_bytes()) {
            Ok(nodes) => r matches Ok(v) && nodes_view(v@) == nodes,
            Err(offset) => r matches Err(f) && f.offset == offset && f.attempted@
                == all_rules(),
        },
        r matches Ok(v) ==> are_nodes(nodes_view(v@)),
        r matches Err(f) ==> f.offset < src.spec_bytes().len() && delimiter_at(
            src.spec_bytes(),
            f.offset as int,
        ),
{
    proof {
        lemma_parse(src.spec_bytes());
    }
    let (rest, nodes) = parse_template(src);
    let left = rest.as_bytes().len();
    if left == 0 {
        Ok(nodes)
    } else {
        proof {
            lemma_parse_template_rest(src.spec_bytes());
        }
        let mut attempted: Vec<Rule> = Vec::new();
        attempted.push(Rule::Content);
        attempted.push(Rule::Expression);
        attempted.push(Rule::If);
        attempted.push(Rule::For);
        attempted.push(Rule::Extends);
        attempted.push(Rule::Block);
        proof {
            assert(attempted@ =~= all_rules());
        }
        Err(ParseFailure { offset: src.as_bytes().len() - left, attempted })
    }
}

} // verus!
