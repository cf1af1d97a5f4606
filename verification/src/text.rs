//! Character-level text helpers: equality, lexicographic order, and the
//! trusted trim used by the credential check.
//!
//! The record stores compare habit dates and template names the way the
//! embedded relational engine does: code point by code point, a strict
//! prefix ordering before anything longer.

use vstd::prelude::*;
use vstd::string::StrSliceExecFns;

verus! {

/// What `str::trim` returns for a given character sequence.
pub uninterp spec fn trim_of(s: Seq<char>) -> Seq<char>;

/// Relies on `str::trim` (std): the input without leading and trailing
/// whitespace, a function of the characters alone; since the result
/// carries no leading or trailing whitespace, trimming it again changes
/// nothing.
#[verifier::external_body]
pub(crate) fn trim_str(s: &str) -> (r: String)
    ensures
        r@ == trim_of(s@),
        trim_of(r@) == r@,
{
    s.trim().to_owned()
}

/// Three-way outcome of a lexicographic comparison.
#[derive(Clone, Copy, Debug, PartialEq, Eq, Structural)]
pub enum Rel {
    Lt,
    Eq,
    Gt,
}

/// Lexicographic comparison of two character sequences by code point,
/// a proper prefix ordering before anything longer: negative when `a`
/// orders first, zero when code points agree, positive when `b` orders
/// first.
pub open spec fn lex_cmp(a: Seq<char>, b: Seq<char>) -> int
    decreases a.len(),
{
    if a.len() == 0 && b.len() == 0 {
        0
    } else if a.len() == 0 {
        -1
    } else if b.len() == 0 {
        1
    } else if (a[0] as u32) < (b[0] as u32) {
        -1
    } else if (a[0] as u32) > (b[0] as u32) {
        1
    } else {
        lex_cmp(a.drop_first(), b.drop_first())
    }
}

/// `a` orders at or before `b`.
pub open spec fn lex_le(a: Seq<char>, b: Seq<char>) -> bool {
    lex_cmp(a, b) <= 0
}

/// Dropping one equal head character on both sides keeps the comparison.
proof fn lemma_lex_cmp_step(a: Seq<char>, b: Seq<char>)
    requires
        a.len() > 0,
        b.len() > 0,
        (a[0] as u32) == (b[0] as u32),
    ensures
        lex_cmp(a, b) == lex_cmp(a.drop_first(), b.drop_first()),
{
}

/// Swapping the sides negates the comparison.
pub proof fn lemma_lex_cmp_antisym(a: Seq<char>, b: Seq<char>)
    ensures
        lex_cmp(a, b) == -lex_cmp(b, a),
    decreases a.len(),
{
    if a.len() > 0 && b.len() > 0 && (a[0] as u32) == (b[0] as u32) {
        lemma_lex_cmp_antisym(a.drop_first(), b.drop_first());
    }
}

/// The comparison is transitive, strictly so when either step is strict.
pub proof fn lemma_lex_cmp_trans(a: Seq<char>, b: Seq<char>, c: Seq<char>)
    requires
        lex_cmp(a, b) <= 0,
        lex_cmp(b, c) <= 0,
    ensures
        lex_cmp(a, c) <= 0,
        lex_cmp(a, b) < 0 || lex_cmp(b, c) < 0 ==> lex_cmp(a, c) < 0,
    decreases a.len() + b.len() + c.len(),
{
    if a.len() == 0 {
        if c.len() > 0 {
            assert(lex_cmp(a, c) == -1);
        }
    } else if b.len() == 0 {
        assert(lex_cmp(a, b) == 1);
    } else if c.len() == 0 {
        assert(lex_cmp(b, c) == 1);
    } else {
        if (a[0] as u32) < (b[0] as u32) {
            if (b[0] as u32) <= (c[0] as u32) {
                assert(lex_cmp(a, c) == -1);
            }
        } else if (a[0] as u32) == (b[0] as u32) {
            if (b[0] as u32) < (c[0] as u32) {
                assert(lex_cmp(a, c) == -1);
            } else {
                lemma_lex_cmp_trans(a.drop_first(), b.drop_first(), c.drop_first());
            }
        }
    }
}

/// Character equality of two strings.
pub fn str_eq(a: &str, b: &str) -> (r: bool)
    ensures
        r == (a@ == b@),
{
    let alen = a.unicode_len();
    let blen = b.unicode_len();
    if alen != blen {
        return false;
    }
    let mut i: usize = 0;
    while i < alen
        invariant
            alen == a@.len(),
            blen == b@.len(),
            alen == blen,
            i <= alen,
            forall|j: int| 0 <= j < i ==> a@[j] == b@[j],
        decreases alen - i,
    {
        if a.get_char(i) != b.get_char(i) {
            return false;
        }
        i += 1;
    }
    proof {
        assert(a@ =~= b@);
    }
    true
}

/// Lexicographic comparison of two strings, as `lex_cmp` of their views.
pub fn str_cmp(a: &str, b: &str) -> (r: Rel)
    ensures
        r == Rel::Lt <==> lex_cmp(a@, b@) < 0,
        r == Rel::Eq <==> lex_cmp(a@, b@) == 0,
        r == Rel::Gt <==> lex_cmp(a@, b@) > 0,
{
    let alen = a.unicode_len();
    let blen = b.unicode_len();
    let mut i: usize = 0;
    proof {
        assert(a@.skip(0) =~= a@);
        assert(b@.skip(0) =~= b@);
    }
    loop
        invariant
            alen == a@.len(),
            blen == b@.len(),
            i <= alen,
            i <= blen,
            lex_cmp(a@, b@) == lex_cmp(a@.skip(i as int), b@.skip(i as int)),
        decreases alen - i,
    {
        if i == alen && i == blen {
            return Rel::Eq;
        }
        if i == alen {
            return Rel::Lt;
        }
        if i == blen {
            return Rel::Gt;
        }
        let ca = a.get_char(i);
        let cb = b.get_char(i);
        if (ca as u32) < (cb as u32) {
            return Rel::Lt;
        }
        if (ca as u32) > (cb as u32) {
            return Rel::Gt;
        }
        proof {
            lemma_lex_cmp_step(a@.skip(i as int), b@.skip(i as int));
            assert(a@.skip(i as int).drop_first() =~= a@.skip(i as int + 1));
            assert(b@.skip(i as int).drop_first() =~= b@.skip(i as int + 1));
        }
        i += 1;
    }
}

} // verus!
