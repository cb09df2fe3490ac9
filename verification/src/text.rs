//! Small text helpers shared by the codec, the search matcher and the
//! display formatters: building a `String` from a character vector, and
//! ASCII case folding.

use vstd::prelude::*;

verus! {

/// Relies on `String` implementing `FromIterator<char>`: collecting the
/// characters of a vector yields the string of exactly those characters.
#[verifier::external_body]
pub fn string_from_chars(chars: &Vec<char>) -> (r: String)
    ensures
        r@ == chars@,
{
    chars.iter().collect()
}

/// ASCII lower-casing of one character; anything outside `A`..`Z` is kept.
pub open spec fn ascii_lower(c: char) -> char {
    if 'A' <= c && c <= 'Z' {
        ((c as u8) + 32) as char
    } else {
        c
    }
}

/// `s`, character by character, after ASCII lower-casing.
pub open spec fn ascii_lower_seq(s: Seq<char>) -> Seq<char> {
    s.map(|_i: int, c: char| ascii_lower(c))
}

/// Executable ASCII lower-casing of one character.
pub fn ascii_lower_char(c: char) -> (r: char)
    ensures
        r == ascii_lower(c),
{
    if 'A' <= c && c <= 'Z' {
        ((c as u8) + 32) as char
    } else {
        c
    }
}

/// True exactly when `s` equals `other` after ASCII lower-casing of `s`
/// alone (callers pass an `other` that is already lower case).
pub fn ascii_lower_eq(s: &str, other: &str) -> (r: bool)
    ensures
        r == (ascii_lower_seq(s@) == other@),
{
    let n = s.unicode_len();
    let m = other.unicode_len();
    if n != m {
        proof {
            assert(ascii_lower_seq(s@).len() == s@.len());
        }
        return false;
    }
    let mut i: usize = 0;
    while i < n
        invariant
            i <= n,
            n == s@.len(),
            n == other@.len(),
            forall|j: int| 0 <= j < i ==> ascii_lower_seq(s@)[j] == other@[j],
        decreases n - i,
    {
        let c = ascii_lower_char(s.get_char(i));
        if c != other.get_char(i) {
            proof {
                assert(ascii_lower_seq(s@)[i as int] != other@[i as int]);
            }
            return false;
        }
        i += 1;
    }
    proof {
        assert(ascii_lower_seq(s@) =~= other@);
    }
    true
}

/// Appends every character of `s` to `out`.
pub fn push_chars(out: &mut Vec<char>, s: &str)
    ensures
        final(out)@ == old(out)@ + s@,
{
    let n = s.unicode_len();
    let mut i: usize = 0;
    while i < n
        invariant
            i <= n,
            n == s@.len(),
            out@ == old(out)@ + s@.take(i as int),
        decreases n - i,
    {
        let c = s.get_char(i);
        out.push(c);
        proof {
            assert(s@.take(i + 1 as int) =~= s@.take(i as int).push(s@[i as int]));
        }
        i += 1;
    }
    proof {
        assert(s@.take(n as int) =~= s@);
    }
}

} // verus!
