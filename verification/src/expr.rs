//! Readers for the expressions that stand inside `{{ }}` and in the headers
//! of statements.

use crate::bytes::{is_unquoted_run, lemma_alnum_len, lemma_unquoted_len, PIPE, QUOTE};
use crate::grammar;
use crate::laws::{
    lemma_expr_any_shape, lemma_expr_compare_shape, lemma_expr_filtered_shape, lemma_expr_str_lit,
};
use crate::lemmas::{lemma_expr_any_rest, lemma_expr_compare_rest, lemma_expr_filtered_rest};
use crate::shape::{is_expr, is_filter_chain, is_operator};
use crate::text::split;
use crate::token::{identifier, same_text, skip_space, tag_text};
use crate::tree::{Expr, SpecExpr};
use vstd::prelude::*;
use vstd::string::StringSliceAdditionalSpecFns;

verus! {

/// What is left of the input and the expression that was read, in code and
/// in the model.
pub open spec fn same_expr(r: Option<(&str, Expr)>, m: Option<(Seq<u8>, SpecExpr)>) -> bool {
    match m {
        Some((rest, e)) => r matches Some((x, y)) && x.spec_bytes() == rest && y@ == e,
        None => r is None,
    }
}

/// Reads a string literal. The text between the quotes is kept as it stands.
pub fn expr_str_lit<'a>(i: &'a str) -> (r: Option<(&'a str, Expr<'a>)>)
    ensures
        same_expr(r, grammar::expr_str_lit(i.spec_bytes())),
        r is Some <==> i.spec_bytes().len() > 0 && i.spec_bytes()[0] == QUOTE
            && i.spec_bytes().skip(1).contains(QUOTE),
{
    proof {
        lemma_expr_str_lit(i.spec_bytes());
    }
    let b = i.as_bytes();
    if b.len() == 0 || b[0] != QUOTE {
        return None;
    }
    let mut n: usize = 1;
    while n < b.len() && b[n] != QUOTE
        invariant
            1 <= n <= b.len(),
            forall|j: int| 1 <= j < n ==> #[trigger] b@[j] != QUOTE,
        decreases b.len() - n,
    {
        n += 1;
    }
    proof {
        let body = b@.skip(1);
        assert forall|j: int| 0 <= j < n - 1 implies #[trigger] body[j] != QUOTE by {
            assert(body[j] == b@[j + 1]);
        }
        assert(is_unquoted_run(body, n - 1));
        lemma_unquoted_len(body);
    }
    if n == b.len() {
        return None;
    }
    let (head, rest) = split(i, n + 1);
    let (_, quoted) = split(head, 1);
    let (text, _) = split(quoted, n - 1);
    proof {
        assert(text.spec_bytes() =~= b@.subrange(1, n as int));
    }
    Some((rest, Expr::StrLit(text)))
}

/// Reads a variable.
pub fn expr_var<'a>(i: &'a str) -> (r: Option<(&'a str, Expr<'a>)>)
    ensures
        same_expr(r, grammar::expr_var(i.spec_bytes())),
{
    match identifier(i) {
        Some((rest, name)) => Some((rest, Expr::Var(name))),
        None => None,
    }
}

/// Reads a filter chain: a variable, then a name after each `|`. Each filter
/// wraps what was read before it, so the last filter is the outermost.
pub fn expr_filtered<'a>(i: &'a str) -> (r: Option<(&'a str, Expr<'a>)>)
    ensures
        same_expr(r, grammar::expr_filtered(i.spec_bytes())),
        r matches Some((rest, e)) ==> is_filter_chain(e@) && rest.spec_bytes().is_suffix_of(
            i.spec_bytes(),
        ),
{
    let (mut left, mut expr) = match expr_var(i) {
        Some(x) => x,
        None => { return None; },
    };
    loop
        invariant
            grammar::filters(left.spec_bytes(), expr@) == grammar::expr_filtered(i.spec_bytes()),
        decreases left.spec_bytes().len(),
    {
        let b = left.as_bytes();
        if b.len() == 0 || b[0] != PIPE {
            proof {
                lemma_expr_filtered_shape(i.spec_bytes());
                lemma_expr_filtered_rest(i.spec_bytes());
            }
            return Some((left, expr));
        }
        proof {
            lemma_alnum_len(b@.skip(1));
        }
        match identifier(split(left, 1).1) {
            Some((rest, name)) => {
                left = rest;
                expr = Expr::Filter(name, Box::new(expr));
            },
            None => { return None; },
        }
    }
}

/// Reads a comparison operator.
pub fn operator<'a>(i: &'a str) -> (r: Option<(&'a str, &'a str)>)
    ensures
        same_text(r, grammar::operator(i.spec_bytes())),
{
    if let Some(x) = tag_text(i, "==") {
        Some(x)
    } else if let Some(x) = tag_text(i, "!=") {
        Some(x)
    } else if let Some(x) = tag_text(i, ">=") {
        Some(x)
    } else if let Some(x) = tag_text(i, ">") {
        Some(x)
    } else if let Some(x) = tag_text(i, "<=") {
        Some(x)
    } else {
        tag_text(i, "<")
    }
}

/// Reads a comparison of two filter chains.
pub fn expr_compare<'a>(i: &'a str) -> (r: Option<(&'a str, Expr<'a>)>)
    ensures
        same_expr(r, grammar::expr_compare(i.spec_bytes())),
        r matches Some((rest, e)) ==> {
            &&& e@ matches SpecExpr::Compare(op, left, right)
            &&& is_operator(op)
            &&& is_filter_chain(*left)
            &&& is_filter_chain(*right)
            &&& rest.spec_bytes().is_suffix_of(i.spec_bytes())
        },
{
    proof {
        lemma_expr_compare_shape(i.spec_bytes());
        lemma_expr_compare_rest(i.spec_bytes());
    }
    let (r1, left) = match expr_filtered(i) {
        Some(x) => x,
        None => { return None; },
    };
    let (r2, op) = match operator(skip_space(r1)) {
        Some(x) => x,
        None => { return None; },
    };
    let (r3, right) = match expr_filtered(skip_space(r2)) {
        Some(x) => x,
        None => { return None; },
    };
    Some((r3, Expr::Compare(op, Box::new(left), Box::new(right))))
}

/// Reads an expression: a comparison, else a filter chain, else a string
/// literal.
pub fn expr_any<'a>(i: &'a str) -> (r: Option<(&'a str, Expr<'a>)>)
    ensures
        same_expr(r, grammar::expr_any(i.spec_bytes())),
        r matches Some((rest, e)) ==> is_expr(e@) && rest.spec_bytes().is_suffix_of(
            i.spec_bytes(),
        ),
{
    proof {
        lemma_expr_any_shape(i.spec_bytes());
        lemma_expr_any_rest(i.spec_bytes());
    }
    if let Some(x) = expr_compare(i) {
        Some(x)
    } else if let Some(x) = expr_filtered(i) {
        Some(x)
    } else {
        expr_str_lit(i)
    }
}

} // verus!
