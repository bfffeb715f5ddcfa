//! Text ordering and comparison.
//!
//! Sort keys over names and formatted dates compare strings. The
//! specification order is lexicographic over the characters' code points,
//! which agrees with the byte order of their UTF-8 encodings, i.e. with what
//! `Ord` on `str` decides.

use vstd::prelude::*;
use vstd::string::StrSliceExecFns;
use vstd::string::StringExecFns;

verus! {

/// Lexicographic "less or equal" over character sequences, by code point.
pub open spec fn lex_leq(a: Seq<char>, b: Seq<char>) -> bool
    decreases a.len(),
{
    if a.len() == 0 {
        true
    } else if b.len() == 0 {
        false
    } else if a[0] == b[0] {
        lex_leq(a.skip(1), b.skip(1))
    } else {
        a[0] < b[0]
    }
}

pub broadcast proof fn lemma_lex_leq_total(a: Seq<char>, b: Seq<char>)
    ensures
        #[trigger] lex_leq(a, b) || #[trigger] lex_leq(b, a),
    decreases a.len(),
{
    if a.len() == 0 {
    } else if b.len() == 0 {
    } else if a[0] == b[0] {
        lemma_lex_leq_total(a.skip(1), b.skip(1));
    }
}

pub broadcast proof fn lemma_lex_leq_trans(a: Seq<char>, b: Seq<char>, c: Seq<char>)
    requires
        #[trigger] lex_leq(a, b),
        #[trigger] lex_leq(b, c),
    ensures
        lex_leq(a, c),
    decreases a.len(),
{
    if a.len() == 0 {
    } else {
        // b and c are nonempty, else one of the premises fails.
        assert(b.len() > 0);
        assert(c.len() > 0);
        if a[0] == b[0] && b[0] == c[0] {
            lemma_lex_leq_trans(a.skip(1), b.skip(1), c.skip(1));
        } else if a[0] == c[0] {
            // Then all three heads coincide, contradicting the case split.
            lemma_lex_leq_trans(a.skip(1), b.skip(1), c.skip(1));
        }
    }
}

/// With the first `i` characters equal, the order is decided by the rest.
proof fn lemma_lex_leq_common_prefix(a: Seq<char>, b: Seq<char>, i: int)
    requires
        0 <= i <= a.len(),
        i <= b.len(),
        forall|j: int| 0 <= j < i ==> a[j] == b[j],
    ensures
        lex_leq(a, b) == lex_leq(a.skip(i), b.skip(i)),
    decreases i,
{
    if i > 0 {
        assert(a.len() > 0 && b.len() > 0);
        assert(a[0] == b[0]);
        lemma_lex_leq_common_prefix(a.skip(1), b.skip(1), i - 1);
        assert(a.skip(1).skip(i - 1) =~= a.skip(i));
        assert(b.skip(1).skip(i - 1) =~= b.skip(i));
    } else {
        assert(a.skip(0) =~= a);
        assert(b.skip(0) =~= b);
    }
}

/// Decides `lex_leq` over the characters of two strings.
pub fn str_lex_leq(a: &str, b: &str) -> (r: bool)
    ensures
        r == lex_leq(a@, b@),
{
    let alen = a.unicode_len();
    let blen = b.unicode_len();
    let mut i: usize = 0;
    while i < alen && i < blen
        invariant
            alen == a@.len(),
            blen == b@.len(),
            i <= alen,
            i <= blen,
            forall|j: int| 0 <= j < i ==> a@[j] == b@[j],
        decreases alen - i,
    {
        let ca = a.get_char(i);
        let cb = b.get_char(i);
        if ca != cb {
            proof {
                lemma_lex_leq_common_prefix(a@, b@, i as int);
                assert(a@.skip(i as int)[0] == a@[i as int]);
                assert(b@.skip(i as int)[0] == b@[i as int]);
            }
            return ca < cb;
        }
        i = i + 1;
    }
    proof {
        lemma_lex_leq_common_prefix(a@, b@, i as int);
        if alen <= blen {
            assert(a@.skip(i as int).len() == 0);
        } else {
            assert(b@.skip(i as int).len() == 0);
            assert(a@.skip(i as int).len() > 0);
        }
    }
    alen <= blen
}

/// Decides equality of the two strings' character sequences.
pub fn str_eq(a: &str, b: &str) -> (r: bool)
    ensures
        r == (a@ == b@),
{
    let alen = a.unicode_len();
    let blen = b.unicode_len();
    if alen != blen {
        return false;
    }
    let mut i: usize = 0;
    while i < alen
        invariant
            alen == a@.len(),
            blen == b@.len(),
            alen == blen,
            i <= alen,
            forall|j: int| 0 <= j < i ==> a@[j] == b@[j],
        decreases alen - i,
    {
        let ca = a.get_char(i);
        let cb = b.get_char(i);
        if ca != cb {
            return false;
        }
        i = i + 1;
    }
    proof {
        assert(a@ =~= b@);
    }
    true
}

/// What `str::to_lowercase` returns for a given character sequence; a
/// function of the characters alone.
pub uninterp spec fn lower_of(s: Seq<char>) -> Seq<char>;

/// Relies on `str::to_lowercase` of std: the lowercased text depends on the
/// input characters alone.
#[verifier::external_body]
pub(crate) fn lowercase(s: &str) -> (r: String)
    ensures
        r@ == lower_of(s@),
{
    s.to_lowercase()
}

/// The concatenation of three pieces, for building messages.
pub(crate) fn concat3(a: &str, b: &str, c: &str) -> (r: String)
    ensures
        r@ == a@ + b@ + c@,
{
    let r = String::from_str(a).concat(b).concat(c);
    r
}

} // verus!
