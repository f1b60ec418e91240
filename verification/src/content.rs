//! Readers for the plain text between tags.

use crate::bytes::{
    delimiter_at, is_literal_run, is_space, is_space_run, is_trailing_space_run,
    lemma_literal_len, lemma_space_len, lemma_trailing_space_len, BRACE, PERCENT,
};
use crate::grammar;
use crate::laws::{lemma_split_ws, lemma_take_content};
use crate::shape::{all_space, is_trimmed};
use crate::text::split;
use crate::token::is_whitespace;
use crate::tree::{Node, SpecNode};
use vstd::prelude::*;
use vstd::string::StringSliceAdditionalSpecFns;

verus! {

/// What is left of the input and the node that was read, in code and in the
/// model.
pub open spec fn same_node(r: Option<(&str, Node)>, m: Option<(Seq<u8>, SpecNode)>) -> bool {
    match m {
        Some((rest, n)) => r matches Some((x, y)) && x.spec_bytes() == rest && y@ == n,
        None => r is None,
    }
}

/// Splits plain text into the whitespace it starts with, what lies between,
/// and the whitespace it ends with. The three parts, in this order, make up
/// the text again. Text that is whitespace throughout is leading whitespace,
/// all of it.
pub fn split_ws_parts<'a>(s: &'a str) -> (node: Node<'a>)
    ensures
        node@ == SpecNode::Lit(
            grammar::split_ws(s.spec_bytes()).0,
            grammar::split_ws(s.spec_bytes()).1,
            grammar::split_ws(s.spec_bytes()).2,
        ),
        node matches Node::Lit(lead, core, trail) && {
            &&& lead.spec_bytes() + core.spec_bytes() + trail.spec_bytes() == s.spec_bytes()
            &&& all_space(lead.spec_bytes())
            &&& is_trimmed(core.spec_bytes())
            &&& all_space(trail.spec_bytes())
            &&& (core.spec_bytes().len() == 0 ==> trail.spec_bytes().len() == 0)
        },
{
    proof {
        lemma_split_ws(s.spec_bytes());
    }
    let b = s.as_bytes();
    let mut start: usize = 0;
    while start < b.len() && is_whitespace(b[start])
        invariant
            start <= b.len(),
            forall|j: int| 0 <= j < start ==> is_space(#[trigger] b@[j]),
        decreases b.len() - start,
    {
        start += 1;
    }
    proof {
        assert(is_space_run(b@, start as int));
        lemma_space_len(b@);
    }
    if start == b.len() {
        let (none, all) = split(s, 0);
        proof {
            assert(none.spec_bytes() =~= Seq::<u8>::empty());
            assert(all.spec_bytes() =~= b@);
            assert(all.spec_bytes() + none.spec_bytes() + none.spec_bytes() =~= b@);
        }
        return Node::Lit(all, none, none);
    }
    let mut end: usize = b.len();
    while is_whitespace(b[end - 1])
        invariant
            start < end <= b.len(),
            !is_space(b@[start as int]),
            forall|j: int| end <= j < b.len() ==> is_space(#[trigger] b@[j]),
        decreases end,
    {
        end -= 1;
    }
    proof {
        assert(is_trailing_space_run(b@, b.len() - end));
        lemma_trailing_space_len(b@);
    }
    let (lead, tail) = split(s, start);
    let (core, trail) = split(tail, end - start);
    proof {
        assert(core.spec_bytes() =~= b@.subrange(start as int, end as int));
        assert(trail.spec_bytes() =~= b@.skip(end as int));
        assert(lead.spec_bytes() + core.spec_bytes() + trail.spec_bytes() =~= b@);
    }
    Node::Lit(lead, core, trail)
}

/// Whether `{{` or `{%` stands at offset `j` of `b`.
fn at_delimiter(b: &[u8], j: usize) -> (r: bool)
    requires
        j < b.len(),
    ensures
        r == delimiter_at(b@, j as int),
{
    b[j] == BRACE && j + 1 < b.len() && (b[j + 1] == BRACE || b[j + 1] == PERCENT)
}

/// Reads plain text up to the next `{{` or `{%`, or to the end of the input,
/// and splits it as `split_ws_parts` does. A `{` that opens neither is part
/// of the text. Where the input is empty or starts with `{{` or `{%`, there
/// is no text to read.
pub fn take_content<'a>(i: &'a str) -> (r: Option<(&'a str, Node<'a>)>)
    ensures
        same_node(r, grammar::take_content(i.spec_bytes())),
        r is None <==> i.spec_bytes().len() == 0 || delimiter_at(i.spec_bytes(), 0),
        r matches Some((rest, node)) ==> {
            &&& node matches Node::Lit(lead, core, trail)
            &&& lead.spec_bytes() + core.spec_bytes() + trail.spec_bytes() + rest.spec_bytes()
                == i.spec_bytes()
            &&& is_literal_run(i.spec_bytes(), i.spec_bytes().len() - rest.spec_bytes().len())
        },
{
    proof {
        lemma_take_content(i.spec_bytes());
    }
    let b = i.as_bytes();
    let mut j: usize = 0;
    while j < b.len() && !at_delimiter(b, j)
        invariant
            j <= b.len(),
            forall|k: int| 0 <= k < j ==> !#[trigger] delimiter_at(b@, k),
        decreases b.len() - j,
    {
        j += 1;
    }
    proof {
        assert(is_literal_run(b@, j as int));
        lemma_literal_len(b@);
    }
    if j == 0 {
        return None;
    }
    let (text, rest) = split(i, j);
    Some((rest, split_ws_parts(text)))
}

} // verus!
