//! Argument coercion: turning the textual argument representations the
//! command surface receives into the typed values a call needs.
//!
//! The decisions over plain values are made here: booleans, 32-bit
//! integers, the 32-vs-64-bit width of a JSON integer, and the splitting
//! of a comma-separated argument list.  What a piece that is neither a
//! boolean nor a 32-bit integer becomes — a floating-point number when
//! it parses as one, a string otherwise — is left to the caller, since
//! floating point stays outside this crate.

use vstd::prelude::*;
use crate::codec::{all_digits, dec_val, dec_parse_spec, find_char, parse_decimal_str};
use crate::matching::{chars_eq, chars_vec, lower_of, lowercase};

verus! {

/// What a plain textual argument coerces to, as far as this crate
/// decides it; `Unresolved` is handed back for the float-then-string
/// fallback.
#[derive(Clone, Copy, Debug, PartialEq, Eq, Structural)]
pub enum SimpleCoercion {
    Boolean(bool),
    Int32(i32),
    Unresolved,
}

/// The signed-decimal grammar of `i32` text: an optional sign, then one
/// or more digits.
pub open spec fn int_text_valid(s: Seq<char>) -> bool {
    if s.len() == 0 {
        false
    } else if s[0] == '+' || s[0] == '-' {
        s.len() >= 2 && all_digits(s.subrange(1, s.len() as int))
    } else {
        all_digits(s)
    }
}

pub open spec fn int_text_val(s: Seq<char>) -> int {
    if s.len() > 0 && s[0] == '-' {
        -(dec_val(s.subrange(1, s.len() as int)) as int)
    } else if s.len() > 0 && s[0] == '+' {
        dec_val(s.subrange(1, s.len() as int)) as int
    } else {
        dec_val(s) as int
    }
}

pub open spec fn i32_parse_spec(s: Seq<char>) -> Option<i32> {
    if int_text_valid(s) && i32::MIN <= int_text_val(s) <= i32::MAX {
        Some(int_text_val(s) as i32)
    } else {
        None
    }
}

/// Parses the whole of `s` as a signed 32-bit decimal integer.
pub fn parse_i32_str(s: &str) -> (r: Option<i32>)
    ensures
        r == i32_parse_spec(s@),
{
    let n = s.unicode_len();
    if n == 0 {
        return None;
    }
    let c0 = s.get_char(0);
    if c0 == '-' {
        let rest = s.substring_char(1, n);
        proof {
            assert(rest@ =~= s@.subrange(1, s@.len() as int));
        }
        match parse_decimal_str(rest, 2147483648u64) {
            Some(v) => {
                if v == 2147483648 {
                    Some(i32::MIN)
                } else {
                    Some(-(v as i32))
                }
            },
            None => None,
        }
    } else if c0 == '+' {
        let rest = s.substring_char(1, n);
        proof {
            assert(rest@ =~= s@.subrange(1, s@.len() as int));
        }
        match parse_decimal_str(rest, 2147483647u64) {
            Some(v) => Some(v as i32),
            None => None,
        }
    } else {
        match parse_decimal_str(s, 2147483647u64) {
            Some(v) => Some(v as i32),
            None => None,
        }
    }
}

/// What a plain argument piece coerces to: the words `true` and `false`
/// of any letter case become booleans, a signed decimal that fits 32
/// bits becomes an integer, anything else is left unresolved.
pub open spec fn simple_coercion_spec(s: Seq<char>) -> SimpleCoercion {
    if lower_of(s) == "true"@ {
        SimpleCoercion::Boolean(true)
    } else if lower_of(s) == "false"@ {
        SimpleCoercion::Boolean(false)
    } else {
        match i32_parse_spec(s) {
            Some(v) => SimpleCoercion::Int32(v),
            None => SimpleCoercion::Unresolved,
        }
    }
}

pub fn parse_simple_value(value_str: &str) -> (r: SimpleCoercion)
    ensures
        r == simple_coercion_spec(value_str@),
{
    let low = lowercase(value_str);
    let lc = chars_vec(low.as_str());
    let tv = chars_vec("true");
    let fv = chars_vec("false");
    if chars_eq(&lc, &tv) {
        return SimpleCoercion::Boolean(true);
    }
    if chars_eq(&lc, &fv) {
        return SimpleCoercion::Boolean(false);
    }
    match parse_i32_str(value_str) {
        Some(v) => SimpleCoercion::Int32(v),
        None => SimpleCoercion::Unresolved,
    }
}

/// The width a JSON integer is carried at: 32 bits when it fits, 64
/// otherwise.
#[derive(Clone, Copy, Debug, PartialEq, Eq, Structural)]
pub enum CoercedInt {
    Int32(i32),
    Int64(i64),
}

pub fn classify_json_int(v: i64) -> (r: CoercedInt)
    ensures
        (i32::MIN as i64 <= v <= i32::MAX as i64) ==> r == CoercedInt::Int32(v as i32),
        !(i32::MIN as i64 <= v <= i32::MAX as i64) ==> r == CoercedInt::Int64(v),
{
    if -2147483648i64 <= v && v <= 2147483647i64 {
        CoercedInt::Int32(v as i32)
    } else {
        CoercedInt::Int64(v)
    }
}

// ---------------------------------------------------------------------
// Splitting a comma-separated argument list
// ---------------------------------------------------------------------

pub open spec fn is_ascii_ws(c: char) -> bool {
    c == ' ' || c == '\t' || c == '\n' || c == '\r'
}

/// Index of the first non-whitespace character at or after `from`;
/// `s.len()` if there is none.
pub open spec fn first_non_ws(s: Seq<char>, from: int) -> int
    decreases s.len() - from,
{
    if from < 0 || from >= s.len() {
        s.len() as int
    } else if is_ascii_ws(s[from]) {
        first_non_ws(s, from + 1)
    } else {
        from
    }
}

/// One past the last non-whitespace character strictly before `upto`;
/// zero if there is none.
pub open spec fn last_non_ws_end(s: Seq<char>, upto: int) -> int
    decreases upto,
{
    if upto <= 0 {
        0
    } else if is_ascii_ws(s[upto - 1]) {
        last_non_ws_end(s, upto - 1)
    } else {
        upto
    }
}

/// ASCII trimming: both ends stripped of spaces, tabs and line breaks.
pub open spec fn trim_spec(s: Seq<char>) -> Seq<char> {
    let a = first_non_ws(s, 0);
    let b = last_non_ws_end(s, s.len() as int);
    if a >= b {
        Seq::empty()
    } else {
        s.subrange(a, b)
    }
}

proof fn lemma_first_non_ws_at(s: Seq<char>, from: int, k: int)
    requires
        0 <= from <= k <= s.len(),
        forall|j: int| from <= j < k ==> is_ascii_ws(s[j]),
        k < s.len() ==> !is_ascii_ws(s[k]),
    ensures
        first_non_ws(s, from) == k,
    decreases k - from,
{
    if from < k {
        lemma_first_non_ws_at(s, from + 1, k);
    }
}

proof fn lemma_last_non_ws_at(s: Seq<char>, upto: int, k: int)
    requires
        0 <= k <= upto <= s.len(),
        forall|j: int| k <= j < upto ==> is_ascii_ws(s[j]),
        k > 0 ==> !is_ascii_ws(s[k - 1]),
    ensures
        last_non_ws_end(s, upto) == k,
    decreases upto - k,
{
    if k < upto {
        lemma_last_non_ws_at(s, upto - 1, k);
    }
}

/// Strips ASCII whitespace from both ends.
pub fn trim_str(s: &str) -> (r: String)
    ensures
        r@ == trim_spec(s@),
{
    let n = s.unicode_len();
    let mut a: usize = 0;
    while a < n && is_ws_char(s.get_char(a))
        invariant
            a <= n,
            n == s@.len(),
            forall|j: int| 0 <= j < a ==> is_ascii_ws(s@[j]),
        decreases n - a,
    {
        a += 1;
    }
    proof {
        lemma_first_non_ws_at(s@, 0, a as int);
    }
    let mut b: usize = n;
    while b > a && is_ws_char(s.get_char(b - 1))
        invariant
            a <= b <= n,
            n == s@.len(),
            forall|j: int| b <= j < n ==> is_ascii_ws(s@[j]),
            forall|j: int| 0 <= j < a ==> is_ascii_ws(s@[j]),
        decreases b,
    {
        b -= 1;
    }
    if b == a {
        proof {
            lemma_last_non_ws_at(s@, s@.len() as int, 0);
            assert(trim_spec(s@) =~= Seq::<char>::empty());
        }
        return String::new();
    }
    proof {
        assert(!is_ascii_ws(s@[b - 1]));
        lemma_last_non_ws_at(s@, s@.len() as int, b as int);
    }
    let piece = s.substring_char(a, b);
    proof {
        assert(piece@ =~= trim_spec(s@));
    }
    piece.to_owned()
}

fn is_ws_char(c: char) -> (r: bool)
    ensures
        r == is_ascii_ws(c),
{
    c == ' ' || c == '\t' || c == '\n' || c == '\r'
}

/// The raw comma-separated pieces of `s` from position `from` on.
pub open spec fn split_spec(s: Seq<char>, from: int) -> Seq<Seq<char>>
    decreases s.len() - from,
        when 0 <= from <= s.len()
        via split_spec_decreases
{
    let k = find_char(s, ',', from);
    if k == s.len() {
        seq![s.subrange(from, s.len() as int)]
    } else {
        seq![s.subrange(from, k)] + split_spec(s, k + 1)
    }
}

#[via_fn]
proof fn split_spec_decreases(s: Seq<char>, from: int) {
    crate::codec::lemma_find_char_bounds(s, ',', from);
}

/// The argument pieces of a comma-separated list, each ASCII-trimmed; an
/// all-whitespace list has no pieces at all.
pub open spec fn pieces_spec(s: Seq<char>) -> Seq<Seq<char>> {
    if trim_spec(s).len() == 0 {
        Seq::empty()
    } else {
        split_spec(s, 0).map(|_i: int, p: Seq<char>| trim_spec(p))
    }
}

pub open spec fn str_views(v: Seq<String>) -> Seq<Seq<char>> {
    v.map(|_i: int, s: String| s@)
}

/// Splits a comma-separated argument list into its ASCII-trimmed pieces;
/// a list of nothing but whitespace has none.
pub fn split_arguments(args: &str) -> (r: Vec<String>)
    ensures
        str_views(r@) == pieces_spec(args@),
{
    let whole = trim_str(args);
    if whole.as_str().unicode_len() == 0 {
        let out: Vec<String> = Vec::new();
        proof {
            assert(str_views(out@) =~= pieces_spec(args@));
        }
        return out;
    }
    let n = args.unicode_len();
    let mut out: Vec<String> = Vec::new();
    let mut from: usize = 0;
    let mut done = false;
    while !done
        invariant
            n == args@.len(),
            from <= n,
            !done ==> str_views(out@) + split_spec(args@, from as int).map(
                |_i: int, p: Seq<char>| trim_spec(p),
            ) == split_spec(args@, 0).map(|_i: int, p: Seq<char>| trim_spec(p)),
            done ==> str_views(out@) == split_spec(args@, 0).map(
                |_i: int, p: Seq<char>| trim_spec(p),
            ),
        decreases (if done { 0int } else { n + 2 - from }),
    {
        let ghost pre_out = out@;
        let mut k: usize = from;
        while k < n && args.get_char(k) != ','
            invariant
                from <= k <= n,
                n == args@.len(),
                forall|j: int| from <= j < k ==> args@[j] != ',',
            decreases n - k,
        {
            k += 1;
        }
        proof {
            if k < n {
                crate::codec::lemma_find_char_found(args@, ',', from as int, k as int);
            } else {
                crate::codec::lemma_find_char_missing(args@, ',', from as int);
            }
        }
        let raw = args.substring_char(from, k);
        let piece = trim_str(raw);
        out.push(piece);
        proof {
            assert(raw@ =~= args@.subrange(from as int, k as int));
            let f = |_i: int, p: Seq<char>| trim_spec(p);
            if k < n {
                assert(str_views(out@) + split_spec(args@, k + 1 as int).map(f) =~= str_views(
                    pre_out,
                ) + split_spec(args@, from as int).map(f));
            } else {
                assert(str_views(out@) =~= str_views(pre_out) + split_spec(
                    args@,
                    from as int,
                ).map(f));
            }
        }
        if k == n {
            done = true;
        } else {
            from = k + 1;
        }
    }
    proof {
        assert(trim_spec(args@).len() > 0);
    }
    out
}

} // verus!
