//! The syntax tree and its mathematical model.
//!
//! The tree borrows all its text from the source that was parsed. Its model
//! holds the same text as byte sequences, and is what the grammar and the
//! contracts speak of.

use vstd::prelude::*;
use vstd::string::StringSliceAdditionalSpecFns;

verus! {

/// Trim markers of one tag: whether a `-` stood just inside its opening
/// delimiter, and whether one stood just inside its closing delimiter.
#[derive(Clone, Copy, Debug, PartialEq, Eq)]
pub struct WS(pub bool, pub bool);

/// An expression, as it stands in the source. Nothing is evaluated.
#[derive(Debug, PartialEq, Eq)]
pub enum Expr<'a> {
    /// The text between the quotes of a string literal, escapes untouched.
    StrLit(&'a str),
    /// The name of a variable.
    Var(&'a str),
    /// The name of a filter, and the expression that it is applied to.
    Filter(&'a str, Box<Expr<'a>>),
    /// An operator, and the expressions on its left and on its right.
    Compare(&'a str, Box<Expr<'a>>, Box<Expr<'a>>),
}

/// What a loop binds on each round.
#[derive(Debug, PartialEq, Eq)]
pub enum Target<'a> {
    Name(&'a str),
}

/// One node of a template.
#[derive(Debug, PartialEq, Eq)]
pub enum Node<'a> {
    /// Plain text: the whitespace it starts with, what lies between, and the
    /// whitespace it ends with.
    Lit(&'a str, &'a str, &'a str),
    /// An interpolation, `{{ expression }}`.
    Expr(WS, Expr<'a>),
    /// A conditional: its branches in the order in which they were written,
    /// and the trim markers of `{% endif %}`.
    Cond(Vec<(WS, Option<Expr<'a>>, Vec<Node<'a>>)>, WS),
    /// A loop: the trim markers of its opening tag, what it binds, what it
    /// runs over, its body, and the trim markers of `{% endfor %}`.
    Loop(WS, Target<'a>, Expr<'a>, Vec<Node<'a>>, WS),
    /// The parent template.
    Extends(Expr<'a>),
    /// A named block: the trim markers of its opening tag, its name, its
    /// body, and the trim markers of `{% endblock %}`.
    BlockDef(WS, &'a str, Vec<Node<'a>>, WS),
    /// A reference to a block by its name. No rule of the grammar yields it.
    Block(WS, &'a str, WS),
}

/// One branch of a conditional: the trim markers of its tag, its condition
/// if it has one, and its body.
pub type Cond<'a> = (WS, Option<Expr<'a>>, Vec<Node<'a>>);

/// The model of an expression.
pub enum SpecExpr {
    StrLit(Seq<u8>),
    Var(Seq<u8>),
    Filter(Seq<u8>, Box<SpecExpr>),
    Compare(Seq<u8>, Box<SpecExpr>, Box<SpecExpr>),
}

/// The model of one branch of a conditional.
pub type SpecCond = (WS, Option<SpecExpr>, Seq<SpecNode>);

/// The model of a node.
pub enum SpecNode {
    Lit(Seq<u8>, Seq<u8>, Seq<u8>),
    Expr(WS, SpecExpr),
    Cond(Seq<(WS, Option<SpecExpr>, Seq<SpecNode>)>, WS),
    Loop(WS, Seq<u8>, SpecExpr, Seq<SpecNode>, WS),
    Extends(SpecExpr),
    BlockDef(WS, Seq<u8>, Seq<SpecNode>, WS),
    Block(WS, Seq<u8>, WS),
}

/// The model of `e`: the same expression over the bytes of its text.
pub open spec fn expr_view(e: Expr) -> SpecExpr
    decreases e,
{
    match e {
        Expr::StrLit(s) => SpecExpr::StrLit(s.spec_bytes()),
        Expr::Var(s) => SpecExpr::Var(s.spec_bytes()),
        Expr::Filter(name, inner) => SpecExpr::Filter(name.spec_bytes(), Box::new(expr_view(*inner))),
        Expr::Compare(op, l, r) => SpecExpr::Compare(
            op.spec_bytes(),
            Box::new(expr_view(*l)),
            Box::new(expr_view(*r)),
        ),
    }
}

/// The model of `n`: the same node over the bytes of its text.
pub open spec fn node_view(n: Node) -> SpecNode
    decreases n, 0nat,
{
    match n {
        Node::Lit(l, c, r) => SpecNode::Lit(l.spec_bytes(), c.spec_bytes(), r.spec_bytes()),
        Node::Expr(ws, e) => SpecNode::Expr(ws, expr_view(e)),
        Node::Cond(branches, ws) => SpecNode::Cond(conds_view(branches@), ws),
        Node::Loop(w1, t, e, body, w2) => SpecNode::Loop(
            w1,
            target_view(t),
            expr_view(e),
            nodes_view(body@),
            w2,
        ),
        Node::Extends(e) => SpecNode::Extends(expr_view(e)),
        Node::BlockDef(w1, name, body, w2) => SpecNode::BlockDef(
            w1,
            name.spec_bytes(),
            nodes_view(body@),
            w2,
        ),
        Node::Block(w1, name, w2) => SpecNode::Block(w1, name.spec_bytes(), w2),
    }
}

/// The models of the nodes `v`, in their order.
pub open spec fn nodes_view(v: Seq<Node>) -> Seq<SpecNode>
    decreases v, 1nat,
{
    Seq::new(v.len(), |i: int| if 0 <= i < v.len() { node_view(v[i]) } else { arbitrary() })
}

/// The model of the branch `c`.
pub open spec fn cond_view(c: Cond) -> SpecCond
    decreases c, 0nat,
{
    (
        c.0,
        match c.1 {
            Some(e) => Some(expr_view(e)),
            None => None,
        },
        nodes_view(c.2@),
    )
}

/// The models of the branches `v`, in their order.
pub open spec fn conds_view(v: Seq<Cond>) -> Seq<SpecCond>
    decreases v, 1nat,
{
    Seq::new(v.len(), |i: int| if 0 <= i < v.len() { cond_view(v[i]) } else { arbitrary() })
}

/// The model of a loop's target: the bytes of its name.
pub open spec fn target_view(t: Target) -> Seq<u8> {
    match t {
        Target::Name(n) => n.spec_bytes(),
    }
}

impl<'a> View for Expr<'a> {
    type V = SpecExpr;

    open spec fn view(&self) -> SpecExpr {
        expr_view(*self)
    }
}

impl<'a> View for Node<'a> {
    type V = SpecNode;

    open spec fn view(&self) -> SpecNode {
        node_view(*self)
    }
}

} // verus!
