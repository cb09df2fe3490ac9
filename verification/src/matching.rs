//! Case-insensitive name matching for the search engine: a reference
//! matches a term when its display name or its browse name equals the
//! term (exact match) or contains it (partial match), both after
//! lower-casing.

use vstd::prelude::*;
use crate::ids::{ChildReference, ChildReferenceView, NodeClass};
use crate::text::push_chars;

verus! {

/// The text that `str::to_lowercase` returns: a function of the
/// characters alone.
pub uninterp spec fn lower_of(s: Seq<char>) -> Seq<char>;

/// Relies on `str::to_lowercase`: Unicode lower-casing, whose result
/// depends on the characters alone.
#[verifier::external_body]
pub fn lowercase(s: &str) -> (r: String)
    ensures
        r@ == lower_of(s@),
{
    s.to_lowercase()
}

/// `needle` occurs in `hay` as a contiguous run.
pub open spec fn contains_seq(hay: Seq<char>, needle: Seq<char>) -> bool {
    exists|k: int|
        0 <= k <= hay.len() - needle.len() && #[trigger] hay.subrange(k, k + needle.len())
            == needle
}

/// The characters of `s`, as a vector.
pub fn chars_vec(s: &str) -> (r: Vec<char>)
    ensures
        r@ == s@,
{
    let mut out: Vec<char> = Vec::new();
    push_chars(&mut out, s);
    out
}

/// Character-vector equality.
pub fn chars_eq(a: &Vec<char>, b: &Vec<char>) -> (r: bool)
    ensures
        r == (a@ == b@),
{
    if a.len() != b.len() {
        return false;
    }
    let mut i: usize = 0;
    while i < a.len()
        invariant
            i <= a@.len(),
            a@.len() == b@.len(),
            forall|j: int| 0 <= j < i ==> a@[j] == b@[j],
        decreases a@.len() - i,
    {
        if a[i] != b[i] {
            return false;
        }
        i += 1;
    }
    proof {
        assert(a@ =~= b@);
    }
    true
}

/// Whether `needle` occurs in `hay` starting at position `k`.
fn range_matches(hay: &Vec<char>, needle: &Vec<char>, k: usize) -> (r: bool)
    requires
        k + needle@.len() <= hay@.len(),
    ensures
        r == (hay@.subrange(k as int, k + needle@.len()) == needle@),
{
    let m = needle.len();
    let hn = hay.len();
    let mut t: usize = 0;
    while t < m
        invariant
            t <= m,
            m == needle@.len(),
            hn == hay@.len(),
            k + m <= hn,
            forall|t2: int| 0 <= t2 < t ==> hay@[k + t2] == needle@[t2],
        decreases m - t,
    {
        if hay[k + t] != needle[t] {
            proof {
                assert(hay@.subrange(k as int, k + m)[t as int] == hay@[k + t]);
            }
            return false;
        }
        t += 1;
    }
    proof {
        assert(hay@.subrange(k as int, k + m) =~= needle@);
    }
    true
}

/// Whether `needle` occurs in `hay` as a contiguous run.
pub fn chars_contain(hay: &Vec<char>, needle: &Vec<char>) -> (r: bool)
    ensures
        r == contains_seq(hay@, needle@),
{
    let n = hay.len();
    let m = needle.len();
    if m > n {
        return false;
    }
    if m == 0 {
        proof {
            assert(hay@.subrange(0, 0 + needle@.len() as int) =~= needle@);
        }
        return true;
    }
    let mut k: usize = 0;
    while k <= n - m
        invariant
            0 < m <= n,
            n == hay@.len(),
            m == needle@.len(),
            k <= n - m + 1,
            forall|k2: int| 0 <= k2 < k ==> #[trigger] hay@.subrange(k2, k2 + m) != needle@,
        decreases n - k,
    {
        if range_matches(hay, needle, k) {
            return true;
        }
        k += 1;
    }
    proof {
        assert forall|k2: int|
            0 <= k2 <= hay@.len() - needle@.len() implies #[trigger] hay@.subrange(k2, k2 + m)
            != needle@ by {
            assert(k2 < k);
        }
    }
    false
}

/// Exact match: either name equals the term after lower-casing.
pub open spec fn is_exact_match(r: ChildReferenceView, term_lower: Seq<char>) -> bool {
    lower_of(r.display_name) == term_lower || lower_of(r.browse_name) == term_lower
}

/// Partial match: the lower-cased term occurs in either lower-cased name.
/// An exact match is also a partial match.
pub open spec fn is_partial_match(r: ChildReferenceView, term_lower: Seq<char>) -> bool {
    contains_seq(lower_of(r.display_name), term_lower) || contains_seq(
        lower_of(r.browse_name),
        term_lower,
    )
}

/// Matches one reference's names against the lower-cased term.  Returns
/// (partial, exact).
pub fn match_names(reference: &ChildReference, term_lower: &Vec<char>) -> (r: (bool, bool))
    ensures
        r.0 == is_partial_match(reference@, term_lower@),
        r.1 == is_exact_match(reference@, term_lower@),
{
    let display = lowercase(reference.display_name.as_str());
    let browse = lowercase(reference.browse_name.as_str());
    let d = chars_vec(display.as_str());
    let b = chars_vec(browse.as_str());
    let partial = chars_contain(&d, term_lower) || chars_contain(&b, term_lower);
    let exact = chars_eq(&d, term_lower) || chars_eq(&b, term_lower);
    (partial, exact)
}

/// An exact match is in particular a partial one.
pub proof fn lemma_exact_is_partial(r: ChildReferenceView, term_lower: Seq<char>)
    requires
        is_exact_match(r, term_lower),
    ensures
        is_partial_match(r, term_lower),
{
    if lower_of(r.display_name) == term_lower {
        let hay = lower_of(r.display_name);
        assert(hay.subrange(0, 0 + term_lower.len() as int) =~= term_lower);
        assert(contains_seq(hay, term_lower));
    } else {
        let hay = lower_of(r.browse_name);
        assert(hay.subrange(0, 0 + term_lower.len() as int) =~= term_lower);
        assert(contains_seq(hay, term_lower));
    }
}

/// Restricting matches to one node class; `Any` admits every class.
#[derive(Clone, Copy, Debug, PartialEq, Eq, Structural)]
pub enum ClassFilter {
    Any,
    MethodsOnly,
    VariablesOnly,
}

pub open spec fn class_passes(f: ClassFilter, c: NodeClass) -> bool {
    match f {
        ClassFilter::Any => true,
        ClassFilter::MethodsOnly => c == NodeClass::Method,
        ClassFilter::VariablesOnly => c == NodeClass::Variable,
    }
}

/// Whether the class filter admits a node of class `c`.
pub fn class_filter_passes(f: ClassFilter, c: NodeClass) -> (r: bool)
    ensures
        r == class_passes(f, c),
{
    match f {
        ClassFilter::Any => true,
        ClassFilter::MethodsOnly => matches!(c, NodeClass::Method),
        ClassFilter::VariablesOnly => matches!(c, NodeClass::Variable),
    }
}

} // verus!
