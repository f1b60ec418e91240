//! What the grammar makes of texts of a given form: a filter chain, a
//! comparison, a string that is never closed, an `extends` tag, a
//! conditional with three branches. Each is stated for all the names and
//! texts that can stand in its places.

use crate::bytes::{
    delimiter_at, is_alnum, is_literal_run, is_space, is_space_run, is_unquoted_run,
    lemma_alnum_len, lemma_literal_len, lemma_space_len, lemma_unquoted_len, BRACE, PIPE, QUOTE,
};
use crate::grammar::{
    block_block, block_extends, block_for, block_if, cond_block, cond_if, else_branches,
    else_header, expr_any, expr_filtered, expr_node, expr_str_lit, filters, identifier, if_header,
    keyword_tag, lit, node, operator, padded_tag, parse, parse_template, skip_space, split_ws,
    stmt_close, stmt_open, tag, take_content, trim_marker,
};
use crate::laws::lemma_expr_str_lit;
use crate::lemmas::{
    lemma_delimiter_bytes, lemma_if_header_rest, lemma_keyword_bytes, lemma_operator_bytes,
    lemma_parse_template_rest,
};
use crate::shape::{all_space, is_name, is_operator};
use crate::tree::{SpecCond, SpecExpr, SpecNode, WS};
use vstd::prelude::*;

verus! {

/// Whitespace is skipped up to the first byte that is none.
pub proof fn lemma_skip_space_reads_pad(pad: Seq<u8>, tail: Seq<u8>)
    requires
        all_space(pad),
        tail.len() > 0 ==> !is_space(tail[0]),
    ensures
        skip_space(pad + tail) == tail,
{
    let s = pad + tail;
    lemma_space_len(s);
    assert forall|j: int| 0 <= j < pad.len() implies is_space(#[trigger] s[j]) by {
        assert(s[j] == pad[j]);
    }
    if tail.len() > 0 {
        assert(s[pad.len() as int] == tail[0]);
    }
    assert(is_space_run(s, pad.len() as int));
    assert(s.skip(pad.len() as int) =~= tail);
}

/// A token is read where the input starts with it.
pub proof fn lemma_tag_reads(t: Seq<u8>, rest: Seq<u8>)
    ensures
        tag(t + rest, t) == Some(rest),
{
    assert(t =~= (t + rest).subrange(0, t.len() as int));
    assert((t + rest).skip(t.len() as int) =~= rest);
}

/// A token is not read where the input differs from it in one byte, or ends
/// before that byte.
pub proof fn lemma_tag_differs(s: Seq<u8>, t: Seq<u8>, j: int)
    requires
        0 <= j < t.len(),
        j < s.len() ==> s[j] != t[j],
    ensures
        tag(s, t) is None,
{
    if t.is_prefix_of(s) {
        assert(t[j] == s.subrange(0, t.len() as int)[j]);
    }
}

/// A token is read with the whitespace around it.
pub proof fn lemma_padded_tag_reads(before: Seq<u8>, t: Seq<u8>, after: Seq<u8>, rest: Seq<u8>)
    requires
        all_space(before),
        t.len() > 0,
        !is_space(t[0]),
        all_space(after),
        rest.len() > 0 ==> !is_space(rest[0]),
    ensures
        padded_tag(before + t + after + rest, t) == Some(rest),
{
    let s = before + t + after + rest;
    assert(s =~= before + (t + (after + rest)));
    assert((t + (after + rest))[0] == t[0]);
    lemma_skip_space_reads_pad(before, t + (after + rest));
    lemma_tag_reads(t, after + rest);
    lemma_skip_space_reads_pad(after, rest);
}

/// A name is read whole where no alphanumeric byte follows it.
pub proof fn lemma_identifier_reads_name(name: Seq<u8>, tail: Seq<u8>)
    requires
        is_name(name),
        tail.len() > 0 ==> !is_alnum(tail[0]),
    ensures
        identifier(name + tail) == Some((tail, name)),
{
    let s = name + tail;
    lemma_alnum_len(s);
    assert forall|j: int| 0 <= j < name.len() implies is_alnum(#[trigger] s[j]) by {
        assert(s[j] == name[j]);
    }
    if tail.len() > 0 {
        assert(s[name.len() as int] == tail[0]);
    }
    assert(s.take(name.len() as int) =~= name);
    assert(s.skip(name.len() as int) =~= tail);
}

/// An operator is read whole where whitespace or a name follows it.
pub proof fn lemma_operator_reads_operator(op: Seq<u8>, tail: Seq<u8>)
    requires
        is_operator(op),
        tail.len() > 0 ==> is_space(tail[0]) || is_alnum(tail[0]),
    ensures
        operator(op + tail) == Some((tail, op)),
{
    let s = op + tail;
    lemma_operator_bytes();
    assert(op =~= s.subrange(0, op.len() as int));
    assert(s.skip(op.len() as int) =~= tail);
    assert(s[0] == op[0]);
    if op.len() == 2 {
        assert(s[1] == op[1]);
    } else if tail.len() > 0 {
        assert(s[1] == tail[0]);
    }
    // an operator that is tried earlier does not start as `s` does
    if lit("==").is_prefix_of(s) {
        assert(lit("==")[0] == s.subrange(0, 2)[0] && lit("==")[1] == s.subrange(0, 2)[1]);
    }
    if lit("!=").is_prefix_of(s) {
        assert(lit("!=")[0] == s.subrange(0, 2)[0]);
    }
    if lit(">=").is_prefix_of(s) {
        assert(lit(">=")[0] == s.subrange(0, 2)[0] && lit(">=")[1] == s.subrange(0, 2)[1]);
    }
    if lit(">").is_prefix_of(s) {
        assert(lit(">")[0] == s.subrange(0, 1)[0]);
    }
    if lit("<=").is_prefix_of(s) {
        assert(lit("<=")[0] == s.subrange(0, 2)[0] && lit("<=")[1] == s.subrange(0, 2)[1]);
    }
}

/// Nothing is read from the empty input.
pub proof fn lemma_empty_template()
    ensures
        node(Seq::<u8>::empty()) is None,
        parse_template(Seq::<u8>::empty()) == (Seq::<u8>::empty(), Seq::<SpecNode>::empty()),
        parse(Seq::<u8>::empty()) == Ok::<Seq<SpecNode>, int>(Seq::empty()),
{
    let s = Seq::<u8>::empty();
    lemma_delimiter_bytes();
    lemma_tag_differs(s, lit("{{"), 0);
    lemma_tag_differs(s, lit("{%"), 0);
}

/// A template of one node is that node.
pub proof fn lemma_single_node(s: Seq<u8>, n: SpecNode)
    requires
        s.len() > 0,
        node(s) == Some((Seq::<u8>::empty(), n)),
    ensures
        parse(s) == Ok::<Seq<SpecNode>, int>(seq![n]),
{
    lemma_empty_template();
    assert(seq![n] + Seq::<SpecNode>::empty() =~= seq![n]);
}

/// The text of a run of filters: `|` and a name, for each name in turn.
pub open spec fn piped(names: Seq<Seq<u8>>) -> Seq<u8>
    decreases names.len(),
{
    if names.len() == 0 {
        Seq::empty()
    } else {
        piped(names.drop_last()) + seq![PIPE] + names.last()
    }
}

/// The expression `e` with the filters `names` applied to it in their order:
/// the last of them is the outermost.
pub open spec fn wrapped(e: SpecExpr, names: Seq<Seq<u8>>) -> SpecExpr
    decreases names.len(),
{
    if names.len() == 0 {
        e
    } else {
        SpecExpr::Filter(names.last(), Box::new(wrapped(e, names.drop_last())))
    }
}

/// A run of filters that is not empty starts with `|`.
pub proof fn lemma_piped_starts_with_pipe(names: Seq<Seq<u8>>)
    requires
        names.len() > 0,
    ensures
        piped(names).len() > 0,
        piped(names)[0] == PIPE,
    decreases names.len(),
{
    if names.len() > 1 {
        lemma_piped_starts_with_pipe(names.drop_last());
    } else {
        assert(piped(names.drop_last()) =~= Seq::<u8>::empty());
    }
}

/// Reading a run of filters wraps what was read before in each of them in
/// turn, and goes on with what follows the run.
pub proof fn lemma_filters_wrap(names: Seq<Seq<u8>>, tail: Seq<u8>, e: SpecExpr)
    requires
        forall|j: int| 0 <= j < names.len() ==> is_name(#[trigger] names[j]),
        tail.len() > 0 ==> !is_alnum(tail[0]),
    ensures
        filters(piped(names) + tail, e) == filters(tail, wrapped(e, names)),
    decreases names.len(),
{
    if names.len() == 0 {
        assert(piped(names) + tail =~= tail);
    } else {
        let init = names.drop_last();
        let last = names.last();
        let next = seq![PIPE] + last + tail;
        lemma_filters_wrap(init, next, e);
        assert(piped(names) + tail =~= piped(init) + next);
        assert(next.skip(1) =~= last + tail);
        lemma_identifier_reads_name(last, tail);
    }
}

/// Filter chains associate to the left. A variable `a` followed by the
/// filters `names` reads as `a` wrapped in the first filter, that wrapped in
/// the second, and so on: the last filter is the outermost. `tail` is what
/// follows the chain; it starts with no alphanumeric byte and with no `|`.
pub proof fn lemma_filter_chain(a: Seq<u8>, names: Seq<Seq<u8>>, tail: Seq<u8>)
    requires
        is_name(a),
        forall|j: int| 0 <= j < names.len() ==> is_name(#[trigger] names[j]),
        tail.len() > 0 ==> !is_alnum(tail[0]) && tail[0] != PIPE,
    ensures
        expr_filtered(a + piped(names) + tail) == Some(
            (tail, wrapped(SpecExpr::Var(a), names)),
        ),
{
    let after = piped(names) + tail;
    assert(a + piped(names) + tail =~= a + after);
    if after.len() > 0 {
        if names.len() == 0 {
            assert(after =~= tail);
        } else {
            assert(after[0] == PIPE) by {
                lemma_piped_starts_with_pipe(names);
            }
        }
    }
    lemma_identifier_reads_name(a, after);
    lemma_filters_wrap(names, tail, SpecExpr::Var(a));
}

/// With two filters: `a|f|g` is `g` applied to `f` applied to `a`.
pub proof fn lemma_filter_chain_of_two(a: Seq<u8>, f: Seq<u8>, g: Seq<u8>)
    requires
        is_name(a),
        is_name(f),
        is_name(g),
    ensures
        expr_filtered(a + seq![PIPE] + f + seq![PIPE] + g) == Some(
            (
                Seq::<u8>::empty(),
                SpecExpr::Filter(
                    g,
                    Box::new(SpecExpr::Filter(f, Box::new(SpecExpr::Var(a)))),
                ),
            ),
        ),
{
    let names = seq![f, g];
    assert(names.drop_last() =~= seq![f]);
    assert(seq![f].drop_last() =~= Seq::<Seq<u8>>::empty());
    reveal_with_fuel(piped, 3);
    reveal_with_fuel(wrapped, 3);
    assert(piped(names) =~= seq![PIPE] + f + seq![PIPE] + g);
    assert(a + piped(names) + Seq::<u8>::empty() =~= a + seq![PIPE] + f + seq![PIPE] + g);
    lemma_filter_chain(a, names, Seq::empty());
}

/// A comparison reads as its operator applied to the filter chains on its two
/// sides, each of them read as `lemma_filter_chain` says. Any whitespace may
/// stand around the operator. `tail` is what follows the comparison; it
/// starts with no alphanumeric byte and with no `|`.
pub proof fn lemma_comparison(
    a: Seq<u8>,
    left: Seq<Seq<u8>>,
    before: Seq<u8>,
    op: Seq<u8>,
    after: Seq<u8>,
    b: Seq<u8>,
    right: Seq<Seq<u8>>,
    tail: Seq<u8>,
)
    requires
        is_name(a),
        forall|j: int| 0 <= j < left.len() ==> is_name(#[trigger] left[j]),
        all_space(before),
        is_operator(op),
        all_space(after),
        is_name(b),
        forall|j: int| 0 <= j < right.len() ==> is_name(#[trigger] right[j]),
        tail.len() > 0 ==> !is_alnum(tail[0]) && tail[0] != PIPE,
    ensures
        expr_any(a + piped(left) + before + op + after + b + piped(right) + tail) == Some(
            (
                tail,
                SpecExpr::Compare(
                    op,
                    Box::new(wrapped(SpecExpr::Var(a), left)),
                    Box::new(wrapped(SpecExpr::Var(b), right)),
                ),
            ),
        ),
{
    let s = a + piped(left) + before + op + after + b + piped(right) + tail;
    let y = b + piped(right) + tail;
    let t2 = after + y;
    let t1 = op + t2;
    let t0 = before + t1;
    lemma_operator_bytes();
    assert(s =~= a + piped(left) + t0);
    assert(y[0] == b[0]);
    assert(t1[0] == op[0]);
    assert(t2.len() > 0 && (is_space(t2[0]) || is_alnum(t2[0]))) by {
        if after.len() > 0 {
            assert(t2[0] == after[0]);
        } else {
            assert(t2[0] == y[0]);
        }
    }
    assert(t0.len() > 0 && !is_alnum(t0[0]) && t0[0] != PIPE) by {
        if before.len() > 0 {
            assert(t0[0] == before[0]);
        } else {
            assert(t0[0] == t1[0]);
        }
    }
    lemma_filter_chain(a, left, t0);
    lemma_skip_space_reads_pad(before, t1);
    lemma_operator_reads_operator(op, t2);
    lemma_skip_space_reads_pad(after, y);
    lemma_filter_chain(b, right, tail);
}

/// With one filter on the left and none on the right: `a|f == b` is `==`
/// applied to `f` of `a`, and to `b`.
pub proof fn lemma_comparison_of_filtered(a: Seq<u8>, f: Seq<u8>, b: Seq<u8>)
    requires
        is_name(a),
        is_name(f),
        is_name(b),
    ensures
        expr_any(a + seq![PIPE] + f + seq![0x20u8] + lit("==") + seq![0x20u8] + b) == Some(
            (
                Seq::<u8>::empty(),
                SpecExpr::Compare(
                    lit("=="),
                    Box::new(SpecExpr::Filter(f, Box::new(SpecExpr::Var(a)))),
                    Box::new(SpecExpr::Var(b)),
                ),
            ),
        ),
{
    let left = seq![f];
    let right = Seq::<Seq<u8>>::empty();
    let pad = seq![0x20u8];
    assert(left.drop_last() =~= Seq::<Seq<u8>>::empty());
    reveal_with_fuel(piped, 2);
    reveal_with_fuel(wrapped, 2);
    assert(piped(left) =~= seq![PIPE] + f);
    assert(piped(right) =~= Seq::<u8>::empty());
    assert(a + piped(left) + pad + lit("==") + pad + b + piped(right) + Seq::<u8>::empty() =~= a
        + seq![PIPE] + f + seq![0x20u8] + lit("==") + seq![0x20u8] + b);
    lemma_comparison(a, left, pad, lit("=="), pad, b, right, Seq::empty());
}

/// An interpolation whose string literal is never closed is no template:
/// `{{`, any whitespace, `"`, and text without a `"` to the end of the input
/// fails, and fails at the `{{`.
pub proof fn lemma_unterminated_string_fails(pad: Seq<u8>, text: Seq<u8>)
    requires
        all_space(pad),
        !text.contains(QUOTE),
    ensures
        parse(lit("{{") + pad + seq![QUOTE] + text) == Err::<Seq<SpecNode>, int>(0),
{
    let s = lit("{{") + pad + seq![QUOTE] + text;
    lemma_delimiter_bytes();
    assert(s[0] == 0x7b && s[1] == 0x7b);
    lemma_literal_len(s);
    assert(delimiter_at(s, 0));
    assert(take_content(s) is None);
    // the statements all start with `{%`
    assert(!lit("{%").is_prefix_of(s)) by {
        assert(s.subrange(0, 2)[1] != lit("{%")[1]);
    }
    assert(stmt_open(s) is None);
    assert(block_if(s) is None);
    assert(block_for(s) is None);
    assert(block_block(s) is None);
    assert(block_extends(s) is None);
    // the interpolation comes to the `"` and finds no second one
    assert(lit("{{") =~= s.subrange(0, 2));
    let r0 = s.skip(2);
    assert(tag(s, lit("{{")) == Some(r0));
    assert(r0 =~= pad + seq![QUOTE] + text);
    assert(r0[0] != 0x2d) by {
        if pad.len() > 0 {
            assert(r0[0] == pad[0]);
        }
    }
    assert(trim_marker(r0) == (r0, false));
    lemma_space_len(r0);
    assert(is_space_run(r0, pad.len() as int)) by {
        assert forall|j: int| 0 <= j < pad.len() implies is_space(#[trigger] r0[j]) by {
            assert(r0[j] == pad[j]);
        }
        assert(r0[pad.len() as int] == QUOTE);
    }
    let r1 = skip_space(r0);
    assert(r1 =~= seq![QUOTE] + text);
    lemma_alnum_len(r1);
    assert(identifier(r1) is None);
    lemma_expr_str_lit(r1);
    assert(!r1.skip(1).contains(QUOTE)) by {
        assert(r1.skip(1) =~= text);
    }
    assert(expr_any(r1) is None);
    assert(expr_node(s) is None);
    assert(node(s) is None);
}

/// One space.
pub open spec fn sp() -> Seq<u8> {
    seq![0x20u8]
}

/// The text of a statement's tag that holds `words`: `{% <words> %}`.
pub open spec fn stmt(words: Seq<u8>) -> Seq<u8> {
    lit("{%") + sp() + words + sp() + lit("%}")
}

/// Text that holds no `{`, and is not empty.
pub open spec fn is_plain(text: Seq<u8>) -> bool {
    text.len() > 0 && !text.contains(BRACE)
}

/// The node that plain text reads as.
pub open spec fn text_node(text: Seq<u8>) -> SpecNode {
    SpecNode::Lit(split_ws(text).0, split_ws(text).1, split_ws(text).2)
}

/// A tag starts with `{%` and a space.
pub proof fn lemma_stmt_opens(words: Seq<u8>, tail: Seq<u8>)
    ensures
        delimiter_at(stmt(words) + tail, 0),
        take_content(stmt(words) + tail) is None,
        expr_node(stmt(words) + tail) is None,
        stmt_open(stmt(words) + tail) == Some((sp() + words + sp() + lit("%}") + tail, false)),
        tag(stmt(words) + tail, lit("{%")) == Some(sp() + words + sp() + lit("%}") + tail),
{
    let s = stmt(words) + tail;
    let t0 = sp() + words + sp() + lit("%}") + tail;
    lemma_delimiter_bytes();
    assert(s =~= lit("{%") + t0);
    assert(s[0] == 0x7b && s[1] == 0x25);
    lemma_literal_len(s);
    lemma_tag_differs(s, lit("{{"), 1);
    lemma_tag_reads(lit("{%"), t0);
    assert(t0[0] == 0x20);
}

/// A tag closes with a space and `%}`.
pub proof fn lemma_stmt_closes(tail: Seq<u8>)
    ensures
        skip_space(sp() + lit("%}") + tail) == lit("%}") + tail,
        tag(lit("%}") + tail, lit("%}")) == Some(tail),
        stmt_close(lit("%}") + tail) == Some((tail, false)),
        operator(lit("%}") + tail) is None,
        cond_if(lit("%}") + tail) is None,
{
    let t = lit("%}") + tail;
    lemma_delimiter_bytes();
    lemma_operator_bytes();
    lemma_keyword_bytes();
    assert(t[0] == 0x25);
    assert(sp() + lit("%}") + tail =~= sp() + t);
    lemma_skip_space_reads_pad(sp(), t);
    lemma_tag_reads(lit("%}"), tail);
    lemma_tag_differs(t, lit("=="), 0);
    lemma_tag_differs(t, lit("!="), 0);
    lemma_tag_differs(t, lit(">="), 0);
    lemma_tag_differs(t, lit(">"), 0);
    lemma_tag_differs(t, lit("<="), 0);
    lemma_tag_differs(t, lit("<"), 0);
    lemma_skip_space_reads_pad(Seq::empty(), t);
    assert(Seq::<u8>::empty() + t =~= t);
    lemma_tag_differs(t, lit("if"), 0);
}

/// A string literal is read from its first `"` to the next.
pub proof fn lemma_quoted(text: Seq<u8>, tail: Seq<u8>)
    requires
        !text.contains(QUOTE),
    ensures
        expr_str_lit(seq![QUOTE] + text + seq![QUOTE] + tail) == Some(
            (tail, SpecExpr::StrLit(text)),
        ),
{
    let s = seq![QUOTE] + text + seq![QUOTE] + tail;
    let body = s.skip(1);
    assert(body =~= text + seq![QUOTE] + tail);
    lemma_unquoted_len(body);
    assert(is_unquoted_run(body, text.len() as int)) by {
        assert forall|j: int| 0 <= j < text.len() implies #[trigger] body[j] != QUOTE by {
            assert(body[j] == text[j]);
        }
        assert(body[text.len() as int] == QUOTE);
    }
    assert(s.subrange(1, 1 + text.len() as int) =~= text);
    assert(s.skip(text.len() as int + 2) =~= tail);
}

/// In a tag that starts with `extends`, the keyword is read, and what comes
/// after it is left. Such a tag starts no conditional, no loop and no named
/// block.
pub proof fn lemma_extends_keyword(arg: Seq<u8>, tail: Seq<u8>)
    requires
        arg.len() > 0,
        !is_space(arg[0]),
    ensures
        ({
            let s = stmt(lit("extends") + sp() + arg) + tail;
            &&& tag(s, lit("{%")) matches Some(r0)
            &&& padded_tag(r0, lit("extends")) == Some(arg + (sp() + lit("%}") + tail))
            &&& block_if(s) is None
            &&& block_for(s) is None
            &&& block_block(s) is None
        }),
{
    let words = lit("extends") + sp() + arg;
    let s = stmt(words) + tail;
    let t2 = arg + (sp() + lit("%}") + tail);
    let t1 = lit("extends") + sp() + t2;
    lemma_keyword_bytes();
    lemma_stmt_opens(words, tail);
    assert(sp() + words + sp() + lit("%}") + tail =~= sp() + t1);
    assert(sp() + t1 =~= sp() + lit("extends") + sp() + t2);
    assert(t1[0] == 0x65);
    assert(t2[0] == arg[0]);
    lemma_skip_space_reads_pad(sp(), t1);
    lemma_tag_differs(t1, lit("if"), 0);
    lemma_tag_differs(t1, lit("for"), 0);
    lemma_tag_differs(t1, lit("block"), 0);
    lemma_padded_tag_reads(sp(), lit("extends"), sp(), t2);
}

/// `{% extends "<text>" %}` names the parent template `text`, whatever text
/// without a `"` stands between the quotes.
pub proof fn lemma_extends_string(text: Seq<u8>)
    requires
        !text.contains(QUOTE),
    ensures
        parse(stmt(lit("extends") + sp() + (seq![QUOTE] + text + seq![QUOTE]))) == Ok::<
            Seq<SpecNode>,
            int,
        >(seq![SpecNode::Extends(SpecExpr::StrLit(text))]),
{
    let nothing = Seq::<u8>::empty();
    let arg = seq![QUOTE] + text + seq![QUOTE];
    let s = stmt(lit("extends") + sp() + arg);
    let t4 = sp() + lit("%}") + nothing;
    assert(s + nothing =~= s);
    assert(arg[0] == QUOTE);
    lemma_stmt_opens(lit("extends") + sp() + arg, nothing);
    lemma_extends_keyword(arg, nothing);
    lemma_quoted(text, t4);
    assert(arg + t4 =~= seq![QUOTE] + text + seq![QUOTE] + t4);
    lemma_stmt_closes(nothing);
    assert(lit("%}") + nothing =~= lit("%}"));
    assert(block_extends(s) == Some((nothing, SpecNode::Extends(SpecExpr::StrLit(text)))));
    lemma_single_node(s, SpecNode::Extends(SpecExpr::StrLit(text)));
}

/// `{% extends <name> %}`, with a bare name in place of a string, is no
/// template.
pub proof fn lemma_extends_name_fails(name: Seq<u8>)
    requires
        is_name(name),
    ensures
        parse(stmt(lit("extends") + sp() + name)) == Err::<Seq<SpecNode>, int>(0),
{
    let nothing = Seq::<u8>::empty();
    let s = stmt(lit("extends") + sp() + name);
    let t2 = name + (sp() + lit("%}") + nothing);
    assert(s + nothing =~= s);
    lemma_stmt_opens(lit("extends") + sp() + name, nothing);
    lemma_extends_keyword(name, nothing);
    assert(t2[0] == name[0]);
    assert(expr_str_lit(t2) is None);
    assert(block_extends(s) is None);
    assert(node(s) is None);
}

/// A bare name before the end of a tag is a variable.
pub proof fn lemma_variable_in_tag(a: Seq<u8>, tail: Seq<u8>)
    requires
        is_name(a),
    ensures
        expr_any(a + sp() + lit("%}") + tail) == Some(
            (sp() + lit("%}") + tail, SpecExpr::Var(a)),
        ),
{
    let t = sp() + lit("%}") + tail;
    assert(a + sp() + lit("%}") + tail =~= a + t);
    assert(t[0] == 0x20);
    assert(piped(Seq::<Seq<u8>>::empty()) =~= Seq::<u8>::empty());
    assert(a + piped(Seq::<Seq<u8>>::empty()) + t =~= a + t);
    lemma_filter_chain(a, Seq::empty(), t);
    lemma_stmt_closes(tail);
}

/// `{% if <name> %}` opens a conditional on a variable.
pub proof fn lemma_if_tag(a: Seq<u8>, tail: Seq<u8>)
    requires
        is_name(a),
    ensures
        if_header(stmt(lit("if") + sp() + a) + tail) == Some(
            (tail, (WS(false, false), SpecExpr::Var(a))),
        ),
{
    let words = lit("if") + sp() + a;
    let t1 = a + sp() + lit("%}") + tail;
    lemma_keyword_bytes();
    lemma_stmt_opens(words, tail);
    assert(sp() + words + sp() + lit("%}") + tail =~= sp() + lit("if") + sp() + t1);
    assert(t1[0] == a[0]);
    lemma_padded_tag_reads(sp(), lit("if"), sp(), t1);
    lemma_variable_in_tag(a, tail);
    lemma_stmt_closes(tail);
}

/// `{% else if <name> %}` opens a branch on a variable.
pub proof fn lemma_else_if_tag(b: Seq<u8>, tail: Seq<u8>)
    requires
        is_name(b),
    ensures
        else_header(stmt(lit("else") + sp() + lit("if") + sp() + b) + tail) == Some(
            (tail, (WS(false, false), Some(SpecExpr::Var(b)))),
        ),
{
    let words = lit("else") + sp() + lit("if") + sp() + b;
    let t2 = b + sp() + lit("%}") + tail;
    let t1 = lit("if") + sp() + t2;
    lemma_keyword_bytes();
    lemma_stmt_opens(words, tail);
    assert(sp() + words + sp() + lit("%}") + tail =~= sp() + lit("else") + sp() + t1);
    assert(t1[0] == 0x69);
    lemma_padded_tag_reads(sp(), lit("else"), sp(), t1);
    assert(t1 =~= Seq::<u8>::empty() + lit("if") + sp() + t2);
    assert(t2[0] == b[0]);
    lemma_padded_tag_reads(Seq::empty(), lit("if"), sp(), t2);
    lemma_variable_in_tag(b, tail);
    lemma_stmt_closes(tail);
}

/// `{% else %}` opens a branch without a condition.
pub proof fn lemma_else_tag(tail: Seq<u8>)
    ensures
        else_header(stmt(lit("else")) + tail) == Some(
            (tail, (WS(false, false), None::<SpecExpr>)),
        ),
{
    let t1 = lit("%}") + tail;
    lemma_keyword_bytes();
    lemma_delimiter_bytes();
    lemma_stmt_opens(lit("else"), tail);
    assert(sp() + lit("else") + sp() + lit("%}") + tail =~= sp() + lit("else") + sp() + t1);
    assert(t1[0] == 0x25);
    lemma_padded_tag_reads(sp(), lit("else"), sp(), t1);
    lemma_stmt_closes(tail);
}

/// `{% <keyword> %}` is the tag of its keyword.
pub proof fn lemma_keyword_tag(keyword: Seq<u8>, tail: Seq<u8>)
    requires
        keyword.len() > 0,
        !is_space(keyword[0]),
    ensures
        keyword_tag(stmt(keyword) + tail, keyword) == Some((tail, WS(false, false))),
{
    let t1 = lit("%}") + tail;
    lemma_delimiter_bytes();
    lemma_stmt_opens(keyword, tail);
    assert(sp() + keyword + sp() + lit("%}") + tail =~= sp() + keyword + sp() + t1);
    assert(t1[0] == 0x25);
    lemma_padded_tag_reads(sp(), keyword, sp(), t1);
    lemma_stmt_closes(tail);
}

/// No node starts with the tag of `else`, nor with that of `endif`: they end
/// the body that stands before them.
pub proof fn lemma_body_ends(words: Seq<u8>, tail: Seq<u8>)
    requires
        lit("else").is_prefix_of(words) || words == lit("endif"),
    ensures
        node(stmt(words) + tail) is None,
{
    let s = stmt(words) + tail;
    let t1 = words + sp() + lit("%}") + tail;
    lemma_keyword_bytes();
    lemma_stmt_opens(words, tail);
    assert(sp() + words + sp() + lit("%}") + tail =~= sp() + t1);
    assert(words[0] == 0x65 && words[1] != 0x78) by {
        if lit("else").is_prefix_of(words) {
            assert(lit("else")[0] == words.subrange(0, 4)[0]);
            assert(lit("else")[1] == words.subrange(0, 4)[1]);
        }
    }
    assert(t1[0] == words[0]);
    assert(t1[1] == words[1]);
    lemma_skip_space_reads_pad(sp(), t1);
    lemma_tag_differs(t1, lit("if"), 0);
    lemma_tag_differs(t1, lit("for"), 0);
    lemma_tag_differs(t1, lit("block"), 0);
    lemma_tag_differs(t1, lit("extends"), 1);
    assert(block_if(s) is None);
    assert(block_for(s) is None);
    assert(block_block(s) is None);
    assert(block_extends(s) is None);
}

/// A body of plain text before a tag that ends it is one node of plain text.
pub proof fn lemma_plain_body(text: Seq<u8>, tail: Seq<u8>)
    requires
        is_plain(text),
        delimiter_at(tail, 0),
        node(tail) is None,
    ensures
        parse_template(text + tail) == (tail, seq![text_node(text)]),
{
    let s = text + tail;
    let n = text.len() as int;
    lemma_literal_len(s);
    assert(is_literal_run(s, n)) by {
        assert forall|j: int| 0 <= j < n implies !#[trigger] delimiter_at(s, j) by {
            assert(s[j] == text[j]);
        }
        assert(s[n] == tail[0]);
        assert(s[n + 1] == tail[1]);
    }
    assert(s.take(n) =~= text);
    assert(s.skip(n) =~= tail);
    assert(node(s) == Some((tail, text_node(text))));
    assert(parse_template(tail) == (tail, Seq::<SpecNode>::empty()));
    assert(seq![text_node(text)] + Seq::<SpecNode>::empty() =~= seq![text_node(text)]);
}

/// The tag of `endif` opens no branch.
pub proof fn lemma_endif_opens_no_branch(tail: Seq<u8>)
    ensures
        cond_block(stmt(lit("endif")) + tail) is None,
        else_branches(stmt(lit("endif")) + tail) == (
            stmt(lit("endif")) + tail,
            Seq::<SpecCond>::empty(),
        ),
{
    lemma_keyword_bytes();
    lemma_stmt_opens(lit("endif"), tail);
    let w = lit("endif") + sp() + lit("%}") + tail;
    assert(sp() + lit("endif") + sp() + lit("%}") + tail =~= sp() + w);
    assert(w[0] == 0x65 && w[1] == 0x6e);
    lemma_skip_space_reads_pad(sp(), w);
    lemma_tag_differs(w, lit("else"), 1);
}

/// A branch with plain text for its body, before the tag that ends the body.
pub proof fn lemma_plain_branch(
    header: Seq<u8>,
    ws: WS,
    cond: Option<SpecExpr>,
    text: Seq<u8>,
    tail: Seq<u8>,
)
    requires
        else_header(header + (text + tail)) == Some((text + tail, (ws, cond))),
        is_plain(text),
        delimiter_at(tail, 0),
        node(tail) is None,
    ensures
        cond_block(header + (text + tail)) == Some((tail, (ws, cond, seq![text_node(text)]))),
        tail.len() < (header + (text + tail)).len(),
{
    lemma_plain_body(text, tail);
}

/// `{% else if b %}y{% else %}z{% endif %}` is two branches: `b` with `y`,
/// then the branch without a condition with `z`.
pub proof fn lemma_else_chain(b: Seq<u8>, y: Seq<u8>, z: Seq<u8>)
    requires
        is_name(b),
        is_plain(y),
        is_plain(z),
    ensures
        else_branches(
            stmt(lit("else") + sp() + lit("if") + sp() + b) + (y + (stmt(lit("else")) + (z
                + stmt(lit("endif"))))),
        ) == (
            stmt(lit("endif")),
            seq![
                (WS(false, false), Some(SpecExpr::Var(b)), seq![text_node(y)]),
                (WS(false, false), None, seq![text_node(z)]),
            ],
        ),
{
    let no = WS(false, false);
    let nothing = Seq::<u8>::empty();
    let else_if_b = lit("else") + sp() + lit("if") + sp() + b;
    let t5 = stmt(lit("endif"));
    let t4 = z + t5;
    let t3 = stmt(lit("else")) + t4;
    let t2 = y + t3;
    let t1 = stmt(else_if_b) + t2;
    assert(t5 + nothing =~= t5);
    lemma_else_if_tag(b, t2);
    lemma_else_tag(t4);
    assert(lit("else").is_prefix_of(lit("else"))) by {
        assert(lit("else") =~= lit("else").subrange(0, lit("else").len() as int));
    }
    lemma_body_ends(lit("else"), t4);
    lemma_body_ends(lit("endif"), nothing);
    lemma_stmt_opens(lit("else"), t4);
    lemma_stmt_opens(lit("endif"), nothing);
    lemma_plain_branch(stmt(else_if_b), no, Some(SpecExpr::Var(b)), y, t3);
    lemma_plain_branch(stmt(lit("else")), no, None, z, t5);
    lemma_endif_opens_no_branch(nothing);
    let last = seq![(no, None::<SpecExpr>, seq![text_node(z)])];
    assert(else_branches(t3) == (t5, last)) by {
        assert(last + Seq::<SpecCond>::empty() =~= last);
    }
    assert(seq![(no, Some(SpecExpr::Var(b)), seq![text_node(y)])] + last =~= seq![
        (no, Some(SpecExpr::Var(b)), seq![text_node(y)]),
        (no, None, seq![text_node(z)]),
    ]);
}

/// The three branches of `lemma_if_else_chain`.
pub open spec fn three_branches(
    a: Seq<u8>,
    b: Seq<u8>,
    x: Seq<u8>,
    y: Seq<u8>,
    z: Seq<u8>,
) -> Seq<SpecCond> {
    seq![
        (WS(false, false), Some(SpecExpr::Var(a)), seq![text_node(x)]),
        (WS(false, false), Some(SpecExpr::Var(b)), seq![text_node(y)]),
        (WS(false, false), None, seq![text_node(z)]),
    ]
}

/// A conditional is its first branch, the branches after it, and the trim
/// markers of its last tag, once each of its parts is read.
pub proof fn lemma_block_if_parts(
    s: Seq<u8>,
    first: SpecCond,
    r0: Seq<u8>,
    r1: Seq<u8>,
    more: Seq<SpecCond>,
    r2: Seq<u8>,
    end: WS,
    r3: Seq<u8>,
)
    requires
        first.1 matches Some(cond) && if_header(s) == Some((r0, (first.0, cond))),
        parse_template(r0) == (r1, first.2),
        else_branches(r1) == (r2, more),
        keyword_tag(r2, lit("endif")) == Some((r3, end)),
    ensures
        block_if(s) == Some((r3, SpecNode::Cond(seq![first] + more, end))),
{
    lemma_if_header_rest(s);
    lemma_parse_template_rest(r0);
}

/// The first branch and the two after it are the three.
pub proof fn lemma_three_branches(a: Seq<u8>, b: Seq<u8>, x: Seq<u8>, y: Seq<u8>, z: Seq<u8>)
    ensures
        seq![(WS(false, false), Some(SpecExpr::Var(a)), seq![text_node(x)])] + seq![
            (WS(false, false), Some(SpecExpr::Var(b)), seq![text_node(y)]),
            (WS(false, false), None::<SpecExpr>, seq![text_node(z)]),
        ] == three_branches(a, b, x, y, z),
{
    assert(seq![(WS(false, false), Some(SpecExpr::Var(a)), seq![text_node(x)])] + seq![
        (WS(false, false), Some(SpecExpr::Var(b)), seq![text_node(y)]),
        (WS(false, false), None::<SpecExpr>, seq![text_node(z)]),
    ] =~= three_branches(a, b, x, y, z));
}

/// Where neither plain text nor an interpolation can be read, a conditional
/// that can be read is the node.
pub proof fn lemma_node_is_conditional(s: Seq<u8>)
    requires
        take_content(s) is None,
        expr_node(s) is None,
        block_if(s) is Some,
    ensures
        node(s) == block_if(s),
{
}

/// The body of the first branch of `lemma_if_else_chain`.
pub proof fn lemma_first_body(b: Seq<u8>, x: Seq<u8>, tail: Seq<u8>)
    requires
        is_plain(x),
    ensures
        parse_template(x + (stmt(lit("else") + sp() + lit("if") + sp() + b) + tail)) == (
            stmt(lit("else") + sp() + lit("if") + sp() + b) + tail,
            seq![text_node(x)],
        ),
{
    let else_if_b = lit("else") + sp() + lit("if") + sp() + b;
    assert(lit("else").is_prefix_of(else_if_b)) by {
        assert(lit("else") =~= else_if_b.subrange(0, lit("else").len() as int));
    }
    lemma_body_ends(else_if_b, tail);
    lemma_stmt_opens(else_if_b, tail);
    lemma_plain_body(x, stmt(else_if_b) + tail);
}

/// The last tag of `lemma_if_else_chain`.
pub proof fn lemma_endif_tag()
    ensures
        keyword_tag(stmt(lit("endif")), lit("endif")) == Some(
            (Seq::<u8>::empty(), WS(false, false)),
        ),
{
    lemma_keyword_bytes();
    lemma_keyword_tag(lit("endif"), Seq::empty());
    assert(stmt(lit("endif")) + Seq::<u8>::empty() =~= stmt(lit("endif")));
}

/// `{% if a %}x`, and the two branches of `lemma_else_chain` after it, is
/// one conditional of three branches.
pub proof fn lemma_conditional(a: Seq<u8>, b: Seq<u8>, x: Seq<u8>, y: Seq<u8>, z: Seq<u8>)
    requires
        is_name(a),
        is_name(b),
        is_plain(x),
        is_plain(y),
        is_plain(z),
    ensures
        node(
            stmt(lit("if") + sp() + a) + (x + (stmt(lit("else") + sp() + lit("if") + sp() + b) + (y
                + (stmt(lit("else")) + (z + stmt(lit("endif"))))))),
        ) == Some(
            (
                Seq::<u8>::empty(),
                SpecNode::Cond(three_branches(a, b, x, y, z), WS(false, false)),
            ),
        ),
{
    let no = WS(false, false);
    let t5 = stmt(lit("endif"));
    let t2 = y + (stmt(lit("else")) + (z + t5));
    let t1 = stmt(lit("else") + sp() + lit("if") + sp() + b) + t2;
    let t0 = x + t1;
    let s = stmt(lit("if") + sp() + a) + t0;
    let first = (no, Some(SpecExpr::Var(a)), seq![text_node(x)]);
    let more = seq![
        (no, Some(SpecExpr::Var(b)), seq![text_node(y)]),
        (no, None::<SpecExpr>, seq![text_node(z)]),
    ];
    lemma_if_tag(a, t0);
    lemma_first_body(b, x, t2);
    lemma_else_chain(b, y, z);
    lemma_endif_tag();
    lemma_block_if_parts(s, first, t0, t1, more, t5, no, Seq::empty());
    lemma_three_branches(a, b, x, y, z);
    lemma_stmt_opens(lit("if") + sp() + a, t0);
    lemma_node_is_conditional(s);
}

/// A conditional keeps its branches in the order in which they were
/// written. `{% if a %}x{% else if b %}y{% else %}z{% endif %}`, with any
/// names for `a` and `b` and any plain text for `x`, `y` and `z`, is one
/// conditional of three branches: `a` with `x`, then `b` with `y`, then the
/// branch without a condition with `z`.
pub proof fn lemma_if_else_chain(a: Seq<u8>, b: Seq<u8>, x: Seq<u8>, y: Seq<u8>, z: Seq<u8>)
    requires
        is_name(a),
        is_name(b),
        is_plain(x),
        is_plain(y),
        is_plain(z),
    ensures
        parse(
            stmt(lit("if") + sp() + a) + x + stmt(lit("else") + sp() + lit("if") + sp() + b) + y
                + stmt(lit("else")) + z + stmt(lit("endif")),
        ) == Ok::<Seq<SpecNode>, int>(
            seq![SpecNode::Cond(three_branches(a, b, x, y, z), WS(false, false))],
        ),
{
    let if_a = stmt(lit("if") + sp() + a);
    let else_if_b = stmt(lit("else") + sp() + lit("if") + sp() + b);
    let s = if_a + x + else_if_b + y + stmt(lit("else")) + z + stmt(lit("endif"));
    assert(s =~= if_a + (x + (else_if_b + (y + (stmt(lit("else")) + (z + stmt(lit("endif"))))))));
    assert(s.len() > 0) by {
        lemma_stmt_opens(lit("if") + sp() + a, x);
    }
    lemma_conditional(a, b, x, y, z);
    lemma_single_node(s, SpecNode::Cond(three_branches(a, b, x, y, z), WS(false, false)));
}

} // verus!
