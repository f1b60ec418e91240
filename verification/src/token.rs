//! Readers for the tokens that every rule is built from.
//!
//! A reader takes the input that is left, as a `&str`, and hands back the
//! input after the token. Its contract says that the bytes of what it hands
//! back are what the grammar says.

use crate::bytes::{alnum_len, is_space, is_space_run, lemma_alnum_len, lemma_space_len, DASH};
use crate::grammar;
use crate::text::{lemma_prefix_is_char_boundary, split};
use vstd::prelude::*;
use vstd::string::StringSliceAdditionalSpecFns;
use vstd::utf8::encode_utf8_valid_utf8;

verus! {

/// What is left of the input, in code and in the model.
pub open spec fn same_rest(r: Option<&str>, m: Option<Seq<u8>>) -> bool {
    match m {
        Some(rest) => r matches Some(x) && x.spec_bytes() == rest,
        None => r is None,
    }
}

/// What is left of the input and the text that was read, in code and in the
/// model.
pub open spec fn same_text(r: Option<(&str, &str)>, m: Option<(Seq<u8>, Seq<u8>)>) -> bool {
    match m {
        Some((rest, text)) => r matches Some((x, t)) && x.spec_bytes() == rest && t.spec_bytes()
            == text,
        None => r is None,
    }
}

/// Whether `b` is a space, a tab, a carriage return or a newline.
pub fn is_whitespace(b: u8) -> (r: bool)
    ensures
        r == is_space(b),
{
    b == 0x20 || b == 0x09 || b == 0x0d || b == 0x0a
}

/// `nom::alphanumeric` on a byte slice. It fails on an input that does not
/// start with an ASCII letter or digit, the empty input included; otherwise
/// it hands back the rest and the longest prefix made of such bytes.
#[verifier::external_body]
fn alphanumeric<'a>(input: &'a [u8]) -> (r: Option<(&'a [u8], &'a [u8])>)
    ensures
        r is Some <==> alnum_len(input@) > 0,
        r matches Some((rest, word)) ==> {
            &&& word@ == input@.take(alnum_len(input@) as int)
            &&& rest@ == input@.skip(alnum_len(input@) as int)
        },
{
    match nom::alphanumeric(input) {
        nom::IResult::Done(rest, word) => Some((rest, word)),
        nom::IResult::Error(_) => None,
        nom::IResult::Incomplete(_) => None,
    }
}

/// Drops the whitespace that `i` starts with.
pub fn skip_space<'a>(i: &'a str) -> (rest: &'a str)
    ensures
        rest.spec_bytes() == grammar::skip_space(i.spec_bytes()),
{
    let b = i.as_bytes();
    let mut n: usize = 0;
    while n < b.len() && is_whitespace(b[n])
        invariant
            n <= b.len(),
            forall|j: int| 0 <= j < n ==> is_space(#[trigger] b@[j]),
        decreases b.len() - n,
    {
        n += 1;
    }
    proof {
        assert(is_space_run(b@, n as int));
        lemma_space_len(b@);
    }
    split(i, n).1
}

/// Reads the token `t` and hands back, with the rest, the text that was read.
pub fn tag_text<'a>(i: &'a str, t: &str) -> (r: Option<(&'a str, &'a str)>)
    ensures
        same_text(r, grammar::tag_text(i.spec_bytes(), t.spec_bytes())),
{
    let b = i.as_bytes();
    let tb = t.as_bytes();
    if tb.len() > b.len() {
        return None;
    }
    let mut k: usize = 0;
    while k < tb.len()
        invariant
            k <= tb.len() <= b.len(),
            b@ == i.spec_bytes(),
            tb@ == t.spec_bytes(),
            forall|j: int| 0 <= j < k ==> b@[j] == tb@[j],
        decreases tb.len() - k,
    {
        if b[k] != tb[k] {
            proof {
                assert(tb@[k as int] != b@.subrange(0, tb@.len() as int)[k as int]);
            }
            return None;
        }
        k += 1;
    }
    proof {
        assert(tb@ =~= b@.subrange(0, tb@.len() as int));
        encode_utf8_valid_utf8(i@);
        encode_utf8_valid_utf8(t@);
        lemma_prefix_is_char_boundary(tb@, b@);
    }
    let (text, rest) = i.split_at(tb.len());
    Some((rest, text))
}

/// Reads the token `t`.
pub fn tag<'a>(i: &'a str, t: &str) -> (r: Option<&'a str>)
    ensures
        same_rest(r, grammar::tag(i.spec_bytes(), t.spec_bytes())),
{
    match tag_text(i, t) {
        Some((rest, _)) => Some(rest),
        None => None,
    }
}

/// Reads the token `t` and the whitespace around it.
pub fn padded_tag<'a>(i: &'a str, t: &str) -> (r: Option<&'a str>)
    ensures
        same_rest(r, grammar::padded_tag(i.spec_bytes(), t.spec_bytes())),
{
    match tag(skip_space(i), t) {
        Some(rest) => Some(skip_space(rest)),
        None => None,
    }
}

/// Reads a `-` if there is one, and says whether there was.
pub fn trim_marker<'a>(i: &'a str) -> (r: (&'a str, bool))
    ensures
        r.0.spec_bytes() == grammar::trim_marker(i.spec_bytes()).0,
        r.1 == grammar::trim_marker(i.spec_bytes()).1,
{
    let b = i.as_bytes();
    if b.len() > 0 && b[0] == DASH {
        (split(i, 1).1, true)
    } else {
        (i, false)
    }
}

/// Reads a name: the longest run of ASCII letters and digits, at least one.
pub fn identifier<'a>(i: &'a str) -> (r: Option<(&'a str, &'a str)>)
    ensures
        same_text(r, grammar::identifier(i.spec_bytes())),
{
    match alphanumeric(i.as_bytes()) {
        Some((_, word)) => {
            proof {
                lemma_alnum_len(i.spec_bytes());
            }
            let (name, rest) = split(i, word.len());
            Some((rest, name))
        },
        None => None,
    }
}

} // verus!
