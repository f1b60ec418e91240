//! Cutting a string slice at a byte offset.
//!
//! The grammar reads bytes, the tree holds string slices. Every place where
//! the parser cuts the source lies next to an ASCII byte, and such a place is
//! always a character boundary of a UTF-8 string.

use vstd::prelude::*;
use vstd::string::StringSliceAdditionalSpecFns;
use vstd::utf8::*;

verus! {

/// An offset at which the parser may cut: an end of the text, or a place with
/// an ASCII byte right before or right after it.
pub open spec fn cut_point(s: Seq<u8>, n: int) -> bool {
    &&& 0 <= n <= s.len()
    &&& (n == 0 || n == s.len() || s[n - 1] < 0x80 || s[n] < 0x80)
}

/// In well-formed UTF-8 every cut point is a character boundary.
pub proof fn lemma_cut_point_is_char_boundary(s: Seq<u8>, n: int)
    requires
        valid_utf8(s),
        cut_point(s, n),
    ensures
        is_char_boundary(s, n),
{
    if n == 0 || n == s.len() {
        is_char_boundary_start_end_of_seq(s);
    } else if s[n] < 0x80 {
        is_char_boundary_iff_not_is_continuation_byte(s, n);
    } else {
        // The byte before `n` is ASCII: it starts a one-byte scalar, and what
        // follows that scalar is well-formed again, so it starts with a
        // leading byte.
        is_char_boundary_iff_not_is_continuation_byte(s, n - 1);
        valid_utf8_split(s, n - 1);
        let tail = s.subrange(n - 1, s.len() as int);
        assert(tail[0] == s[n - 1]);
        assert(length_of_first_scalar(tail) == 1);
        let after = pop_first_scalar(tail);
        assert(after =~= s.subrange(n, s.len() as int));
        assert(valid_utf8(after));
        assert(after.len() > 0);
        assert(after[0] == s[n]);
        assert(valid_first_scalar(after));
        is_char_boundary_iff_not_is_continuation_byte(s, n);
    }
}

/// Where a well-formed prefix of well-formed UTF-8 ends, a character ends.
pub proof fn lemma_prefix_is_char_boundary(p: Seq<u8>, s: Seq<u8>)
    requires
        valid_utf8(p),
        valid_utf8(s),
        p.is_prefix_of(s),
    ensures
        is_char_boundary(s, p.len() as int),
    decreases p.len(),
{
    if p.len() > 0 {
        assert(p[0] == s[0]);
        let n = length_of_first_scalar(p);
        assert(n == length_of_first_scalar(s));
        assert(pop_first_scalar(p) =~= pop_first_scalar(s).subrange(0, p.len() - n));
        lemma_prefix_is_char_boundary(pop_first_scalar(p), pop_first_scalar(s));
    }
}

/// Splits `i` after its first `n` bytes.
pub(crate) fn split<'a>(i: &'a str, n: usize) -> (r: (&'a str, &'a str))
    requires
        cut_point(i.spec_bytes(), n as int),
    ensures
        r.0.spec_bytes() == i.spec_bytes().take(n as int),
        r.1.spec_bytes() == i.spec_bytes().skip(n as int),
{
    proof {
        encode_utf8_valid_utf8(i@);
        lemma_cut_point_is_char_boundary(i.spec_bytes(), n as int);
    }
    i.split_at(n)
}

} // verus!
