//! Byte classes and the runs of bytes that tokens are made of.

use vstd::prelude::*;

verus! {

/// `-`, the trim marker.
pub const DASH: u8 = 0x2d;

/// `"`, which opens and closes a string literal.
pub const QUOTE: u8 = 0x22;

/// `|`, which precedes a filter's name.
pub const PIPE: u8 = 0x7c;

/// `{`, the first byte of both opening delimiters.
pub const BRACE: u8 = 0x7b;

/// `%`, the second byte of a statement's opening delimiter.
pub const PERCENT: u8 = 0x25;

/// The four bytes that count as whitespace: space, tab, carriage return, newline.
pub open spec fn is_space(b: u8) -> bool {
    b == 0x20 || b == 0x09 || b == 0x0d || b == 0x0a
}

/// ASCII letters and decimal digits.
pub open spec fn is_alnum(b: u8) -> bool {
    (0x30 <= b <= 0x39) || (0x41 <= b <= 0x5a) || (0x61 <= b <= 0x7a)
}

/// Number of whitespace bytes at the start of `s`.
pub open spec fn space_len(s: Seq<u8>) -> nat
    decreases s.len(),
{
    if s.len() > 0 && is_space(s[0]) {
        1 + space_len(s.drop_first())
    } else {
        0
    }
}

/// Number of whitespace bytes at the end of `s`.
pub open spec fn trailing_space_len(s: Seq<u8>) -> nat
    decreases s.len(),
{
    if s.len() > 0 && is_space(s.last()) {
        1 + trailing_space_len(s.drop_last())
    } else {
        0
    }
}

/// Number of alphanumeric bytes at the start of `s`.
pub open spec fn alnum_len(s: Seq<u8>) -> nat
    decreases s.len(),
{
    if s.len() > 0 && is_alnum(s[0]) {
        1 + alnum_len(s.drop_first())
    } else {
        0
    }
}

/// Number of bytes of `s` before its first `"`; all of them if it has none.
pub open spec fn unquoted_len(s: Seq<u8>) -> nat
    decreases s.len(),
{
    if s.len() > 0 && s[0] != QUOTE {
        1 + unquoted_len(s.drop_first())
    } else {
        0
    }
}

/// `n` is where the first `"` of `s` stands, or the length of `s` if it has none.
pub open spec fn is_unquoted_run(s: Seq<u8>, n: int) -> bool {
    &&& 0 <= n <= s.len()
    &&& forall|j: int| 0 <= j < n ==> #[trigger] s[j] != QUOTE
    &&& (n < s.len() ==> s[n] == QUOTE)
}

/// Whether an opening delimiter, `{{` or `{%`, stands at offset `j` of `s`.
/// A `{` that is followed by anything else, or by nothing, is plain text.
pub open spec fn delimiter_at(s: Seq<u8>, j: int) -> bool {
    &&& 0 <= j
    &&& j + 1 < s.len()
    &&& s[j] == BRACE
    &&& (s[j + 1] == BRACE || s[j + 1] == PERCENT)
}

/// Number of bytes of `s` before its first opening delimiter; all of them if
/// it has none.
pub open spec fn literal_len(s: Seq<u8>) -> nat
    decreases s.len(),
{
    if s.len() > 0 && !delimiter_at(s, 0) {
        1 + literal_len(s.drop_first())
    } else {
        0
    }
}

/// `n` is where the first opening delimiter of `s` stands, or the length of
/// `s` if it has none.
pub open spec fn is_literal_run(s: Seq<u8>, n: int) -> bool {
    &&& 0 <= n <= s.len()
    &&& forall|j: int| 0 <= j < n ==> !#[trigger] delimiter_at(s, j)
    &&& (n < s.len() ==> delimiter_at(s, n))
}

/// `n` is where the leading whitespace of `s` ends.
pub open spec fn is_space_run(s: Seq<u8>, n: int) -> bool {
    &&& 0 <= n <= s.len()
    &&& forall|j: int| 0 <= j < n ==> is_space(#[trigger] s[j])
    &&& (n < s.len() ==> !is_space(s[n]))
}

/// `n` bytes of whitespace end `s`, and no more.
pub open spec fn is_trailing_space_run(s: Seq<u8>, n: int) -> bool {
    &&& 0 <= n <= s.len()
    &&& forall|j: int| s.len() - n <= j < s.len() ==> is_space(#[trigger] s[j])
    &&& (n < s.len() ==> !is_space(s[s.len() - n - 1]))
}

/// `n` is where the leading alphanumeric bytes of `s` end.
pub open spec fn is_alnum_run(s: Seq<u8>, n: int) -> bool {
    &&& 0 <= n <= s.len()
    &&& forall|j: int| 0 <= j < n ==> is_alnum(#[trigger] s[j])
    &&& (n < s.len() ==> !is_alnum(s[n]))
}

/// `space_len` is the one offset at which the leading whitespace ends.
pub proof fn lemma_space_len(s: Seq<u8>)
    ensures
        is_space_run(s, space_len(s) as int),
        forall|n: int| is_space_run(s, n) ==> n == space_len(s),
    decreases s.len(),
{
    if s.len() > 0 && is_space(s[0]) {
        let t = s.drop_first();
        lemma_space_len(t);
        assert forall|j: int| 0 <= j < 1 + space_len(t) implies is_space(#[trigger] s[j]) by {
            if j > 0 {
                assert(s[j] == t[j - 1]);
            }
        }
        assert forall|n: int| is_space_run(s, n) implies n == space_len(s) by {
            assert(n > 0);
            assert forall|j: int| 0 <= j < n - 1 implies is_space(#[trigger] t[j]) by {
                assert(t[j] == s[j + 1]);
            }
            assert(is_space_run(t, n - 1));
        }
    } else {
        assert forall|n: int| is_space_run(s, n) implies n == 0 by {
            if n > 0 {
                assert(is_space(s[0]));
            }
        }
    }
}

/// `trailing_space_len` is the one length of the whitespace that ends `s`.
pub proof fn lemma_trailing_space_len(s: Seq<u8>)
    ensures
        is_trailing_space_run(s, trailing_space_len(s) as int),
        forall|n: int| is_trailing_space_run(s, n) ==> n == trailing_space_len(s),
    decreases s.len(),
{
    if s.len() > 0 && is_space(s.last()) {
        let t = s.drop_last();
        lemma_trailing_space_len(t);
        let k = trailing_space_len(t) as int;
        assert forall|j: int| s.len() - (1 + k) <= j < s.len() implies is_space(
            #[trigger] s[j],
        ) by {
            if j < s.len() - 1 {
                assert(s[j] == t[j]);
            }
        }
        if 1 + k < s.len() {
            assert(s[s.len() - (1 + k) - 1] == t[t.len() - k - 1]);
        }
        assert forall|n: int| is_trailing_space_run(s, n) implies n == trailing_space_len(s) by {
            assert(n > 0);
            assert forall|j: int| t.len() - (n - 1) <= j < t.len() implies is_space(
                #[trigger] t[j],
            ) by {
                assert(t[j] == s[j]);
            }
            if n - 1 < t.len() {
                assert(t[t.len() - (n - 1) - 1] == s[s.len() - n - 1]);
            }
            assert(is_trailing_space_run(t, n - 1));
        }
    } else {
        assert forall|n: int| is_trailing_space_run(s, n) implies n == 0 by {
            if n > 0 {
                assert(is_space(s[s.len() - 1]));
            }
        }
    }
}

/// `alnum_len` is the one offset at which the leading alphanumeric bytes end.
pub proof fn lemma_alnum_len(s: Seq<u8>)
    ensures
        is_alnum_run(s, alnum_len(s) as int),
        forall|n: int| is_alnum_run(s, n) ==> n == alnum_len(s),
    decreases s.len(),
{
    if s.len() > 0 && is_alnum(s[0]) {
        let t = s.drop_first();
        lemma_alnum_len(t);
        assert forall|j: int| 0 <= j < 1 + alnum_len(t) implies is_alnum(#[trigger] s[j]) by {
            if j > 0 {
                assert(s[j] == t[j - 1]);
            }
        }
        assert forall|n: int| is_alnum_run(s, n) implies n == alnum_len(s) by {
            assert(n > 0);
            assert forall|j: int| 0 <= j < n - 1 implies is_alnum(#[trigger] t[j]) by {
                assert(t[j] == s[j + 1]);
            }
            assert(is_alnum_run(t, n - 1));
        }
    } else {
        assert forall|n: int| is_alnum_run(s, n) implies n == 0 by {
            if n > 0 {
                assert(is_alnum(s[0]));
            }
        }
    }
}

/// `unquoted_len` is the one offset of the first `"`, or the length.
pub proof fn lemma_unquoted_len(s: Seq<u8>)
    ensures
        is_unquoted_run(s, unquoted_len(s) as int),
        forall|n: int| is_unquoted_run(s, n) ==> n == unquoted_len(s),
    decreases s.len(),
{
    if s.len() > 0 && s[0] != QUOTE {
        let t = s.drop_first();
        lemma_unquoted_len(t);
        assert forall|j: int| 0 <= j < 1 + unquoted_len(t) implies #[trigger] s[j] != QUOTE by {
            if j > 0 {
                assert(s[j] == t[j - 1]);
            }
        }
        assert forall|n: int| is_unquoted_run(s, n) implies n == unquoted_len(s) by {
            assert(n > 0);
            assert forall|j: int| 0 <= j < n - 1 implies #[trigger] t[j] != QUOTE by {
                assert(t[j] == s[j + 1]);
            }
            assert(is_unquoted_run(t, n - 1));
        }
    } else {
        assert forall|n: int| is_unquoted_run(s, n) implies n == 0 by {
            if n > 0 {
                assert(s[0] != QUOTE);
            }
        }
    }
}

/// `literal_len` is the one offset of the first opening delimiter, or the
/// length.
pub proof fn lemma_literal_len(s: Seq<u8>)
    ensures
        is_literal_run(s, literal_len(s) as int),
        forall|n: int| is_literal_run(s, n) ==> n == literal_len(s),
    decreases s.len(),
{
    if s.len() > 0 && !delimiter_at(s, 0) {
        let t = s.drop_first();
        lemma_literal_len(t);
        let k = literal_len(t) as int;
        assert forall|j: int| 0 <= j < 1 + k implies !#[trigger] delimiter_at(s, j) by {
            if j > 0 {
                assert(!delimiter_at(t, j - 1));
                if j + 1 < s.len() {
                    assert(s[j] == t[j - 1]);
                    assert(s[j + 1] == t[j]);
                }
            }
        }
        if 1 + k < s.len() {
            assert(delimiter_at(t, k));
            assert(s[1 + k] == t[k]);
            assert(s[2 + k] == t[k + 1]);
        }
        assert forall|n: int| is_literal_run(s, n) implies n == literal_len(s) by {
            assert(n > 0);
            assert forall|j: int| 0 <= j < n - 1 implies !#[trigger] delimiter_at(t, j) by {
                assert(!delimiter_at(s, j + 1));
                if j + 1 < t.len() {
                    assert(t[j] == s[j + 1]);
                    assert(t[j + 1] == s[j + 2]);
                }
            }
            if n - 1 < t.len() {
                assert(delimiter_at(s, n));
                assert(t[n - 1] == s[n]);
                assert(t[n] == s[n + 1]);
            }
            assert(is_literal_run(t, n - 1));
        }
    } else {
        assert forall|n: int| is_literal_run(s, n) implies n == 0 by {
            if n > 0 {
                assert(!delimiter_at(s, 0));
            }
        }
    }
}

} // verus!
