//! The shape of the trees that the grammar yields. Not every value of the
//! tree's type is such a tree: a conditional has a first branch, and that
//! branch has a condition; the parent template is named by a string literal;
//! the operands of a comparison are filter chains.

use crate::bytes::{is_alnum, is_space, QUOTE};
use crate::grammar::lit;
use crate::tree::{SpecCond, SpecExpr, SpecNode};
use vstd::prelude::*;

verus! {

/// A name: alphanumeric bytes, at least one.
pub open spec fn is_name(s: Seq<u8>) -> bool {
    &&& s.len() > 0
    &&& forall|j: int| 0 <= j < s.len() ==> is_alnum(#[trigger] s[j])
}

/// Whitespace throughout; the empty text too.
pub open spec fn all_space(s: Seq<u8>) -> bool {
    forall|j: int| 0 <= j < s.len() ==> is_space(#[trigger] s[j])
}

/// Text that neither starts nor ends with whitespace; the empty text too.
pub open spec fn is_trimmed(s: Seq<u8>) -> bool {
    s.len() > 0 ==> !is_space(s.first()) && !is_space(s.last())
}

/// One of the six comparison operators.
pub open spec fn is_operator(s: Seq<u8>) -> bool {
    s == lit("==") || s == lit("!=") || s == lit(">=") || s == lit(">") || s == lit("<=") || s
        == lit("<")
}

/// A variable, with any number of filters around it.
pub open spec fn is_filter_chain(e: SpecExpr) -> bool
    decreases e,
{
    match e {
        SpecExpr::Var(name) => is_name(name),
        SpecExpr::Filter(name, inner) => is_name(name) && is_filter_chain(*inner),
        _ => false,
    }
}

/// An expression as the grammar yields it: a filter chain, a comparison of
/// two filter chains, or a string literal, whose text holds no `"`.
pub open spec fn is_expr(e: SpecExpr) -> bool {
    match e {
        SpecExpr::StrLit(text) => !text.contains(QUOTE),
        SpecExpr::Compare(op, left, right) => is_operator(op) && is_filter_chain(*left)
            && is_filter_chain(*right),
        _ => is_filter_chain(e),
    }
}

/// A node as the grammar yields it.
pub open spec fn is_node(n: SpecNode) -> bool
    decreases n, 0nat,
{
    match n {
        SpecNode::Lit(lead, core, trail) => {
            &&& lead.len() + core.len() + trail.len() > 0
            &&& all_space(lead)
            &&& is_trimmed(core)
            &&& all_space(trail)
            &&& (core.len() == 0 ==> trail.len() == 0)
        },
        SpecNode::Expr(_, e) => is_expr(e),
        SpecNode::Cond(branches, _) => {
            &&& branches.len() > 0
            &&& branches[0].1 is Some
            &&& are_branches(branches)
        },
        SpecNode::Loop(_, name, iter, body, _) => is_name(name) && is_expr(iter) && are_nodes(
            body,
        ),
        SpecNode::Extends(name) => name is StrLit && is_expr(name),
        SpecNode::BlockDef(_, name, body, _) => is_name(name) && are_nodes(body),
        SpecNode::Block(_, _, _) => false,
    }
}

/// Nodes as the grammar yields them. Plain text never follows plain text.
pub open spec fn are_nodes(v: Seq<SpecNode>) -> bool
    decreases v, 1nat,
{
    &&& forall|j: int| 0 <= j < v.len() ==> is_node(#[trigger] v[j])
    &&& forall|j: int| 0 < j < v.len() ==> !(v[j - 1] is Lit && #[trigger] v[j] is Lit)
}

/// The branches of a conditional as the grammar yields them.
pub open spec fn are_branches(v: Seq<SpecCond>) -> bool
    decreases v, 1nat,
{
    forall|j: int| 0 <= j < v.len() ==> is_branch(#[trigger] v[j])
}

/// One branch of a conditional as the grammar yields it.
pub open spec fn is_branch(c: SpecCond) -> bool
    decreases c, 0nat,
{
    &&& (c.1 matches Some(e) ==> is_expr(e))
    &&& are_nodes(c.2)
}

} // verus!
