//! Codec for the textual node-identifier syntax:
//! `ns=<u16>;i=<u32>`, `ns=<u16>;s=<string>`, `ns=<u16>;g=<guid>`,
//! `ns=<u16>;b=<base64>`, the namespace-0 shorthands `i=<u32>`,
//! `s=<string>` and a bare decimal integer, and the well-known folder
//! names (`objects`, `server`, `types`, `views`, `root`).
//!
//! `parse_node_id` and `format_node_id` are both specified against the
//! spec-level grammar below, and the round-trip laws at the end of the
//! file state that they invert each other.

use vstd::prelude::*;
use crate::ids::{Identifier, IdentifierView, NodeId, NodeIdView};
use crate::ids::{objects_folder_view, root_folder_view, server_object_view, types_folder_view,
    views_folder_view};
use crate::text::{ascii_lower, ascii_lower_char, ascii_lower_seq, ascii_lower_eq, push_chars,
    string_from_chars};

verus! {

// ---------------------------------------------------------------------
// Decimal numbers
// ---------------------------------------------------------------------

pub open spec fn is_digit(c: char) -> bool {
    '0' <= c && c <= '9'
}

/// Value of a decimal digit; zero for anything else.
pub open spec fn digit_val(c: char) -> nat {
    if is_digit(c) {
        (c as u32 - 48) as nat
    } else {
        0
    }
}

/// The character for the decimal digit `d % 10`.
pub open spec fn digit_char(d: nat) -> char {
    ((48 + (d % 10)) as u8) as char
}

/// Decimal spelling of `n`, most significant digit first, no sign and no
/// leading zeros (`0` itself is spelled `"0"`).
pub open spec fn dec_digits(n: nat) -> Seq<char>
    decreases n,
{
    if n < 10 {
        seq![digit_char(n)]
    } else {
        dec_digits(n / 10).push(digit_char(n % 10))
    }
}

pub open spec fn all_digits(s: Seq<char>) -> bool {
    forall|i: int| 0 <= i < s.len() ==> is_digit(s[i])
}

/// Numeric value of a digit string, most significant digit first.
pub open spec fn dec_val(s: Seq<char>) -> nat
    decreases s.len(),
{
    if s.len() == 0 {
        0
    } else {
        dec_val(s.drop_last()) * 10 + digit_val(s.last())
    }
}

/// The decimal grammar: one or more digits whose value is at most `max`.
pub open spec fn dec_parse_spec(s: Seq<char>, max: nat) -> Option<nat> {
    if s.len() >= 1 && all_digits(s) && dec_val(s) <= max {
        Some(dec_val(s))
    } else {
        None
    }
}

proof fn lemma_digit_char_val(d: nat)
    ensures
        is_digit(digit_char(d)),
        digit_val(digit_char(d)) == d % 10,
{
    assert(d % 10 < 10);
}

pub proof fn lemma_dec_digits_wf(n: nat)
    ensures
        dec_digits(n).len() >= 1,
        all_digits(dec_digits(n)),
        dec_val(dec_digits(n)) == n,
    decreases n,
{
    lemma_digit_char_val(n);
    if n < 10 {
        assert(dec_digits(n) =~= seq![digit_char(n)]);
        assert(dec_val(dec_digits(n)) == dec_val(seq![digit_char(n)].drop_last()) * 10 + digit_val(
            digit_char(n),
        ));
        assert(seq![digit_char(n)].drop_last() =~= Seq::<char>::empty());
    } else {
        lemma_dec_digits_wf(n / 10);
        let s = dec_digits(n / 10).push(digit_char(n % 10));
        assert(s.drop_last() =~= dec_digits(n / 10));
        assert(s.last() == digit_char(n % 10));
        assert(forall|i: int|
            0 <= i < s.len() ==> s[i] == (if i < s.len() - 1 {
                dec_digits(n / 10)[i]
            } else {
                digit_char(n % 10)
            }));
    }
}

proof fn lemma_dec_val_prefix_mono(s: Seq<char>, i: int, j: int)
    requires
        0 <= i <= j <= s.len(),
    ensures
        dec_val(s.take(i)) <= dec_val(s.take(j)),
    decreases j - i,
{
    if i < j {
        lemma_dec_val_prefix_mono(s, i, j - 1);
        assert(s.take(j).drop_last() =~= s.take(j - 1));
        assert(dec_val(s.take(j)) == dec_val(s.take(j - 1)) * 10 + digit_val(s.take(j).last()));
    }
}

/// Parses the whole of `s` as a decimal number of value at most `max`.
pub fn parse_decimal_str(s: &str, max: u64) -> (r: Option<u64>)
    requires
        max <= u32::MAX as u64,
    ensures
        match r {
            Some(v) => dec_parse_spec(s@, max as nat) == Some(v as nat),
            None => dec_parse_spec(s@, max as nat) is None,
        },
{
    let n = s.unicode_len();
    if n == 0 {
        return None;
    }
    let mut val: u64 = 0;
    let mut i: usize = 0;
    while i < n
        invariant
            i <= n,
            n == s@.len(),
            max <= u32::MAX as u64,
            all_digits(s@.take(i as int)),
            val == dec_val(s@.take(i as int)),
            val <= max,
        decreases n - i,
    {
        let c = s.get_char(i);
        if !('0' <= c && c <= '9') {
            proof {
                assert(!is_digit(s@[i as int]));
            }
            return None;
        }
        let d: u64 = (c as u32 - 48) as u64;
        proof {
            assert(s@.take(i + 1 as int).drop_last() =~= s@.take(i as int));
            assert(s@.take(i + 1 as int).last() == s@[i as int]);
        }
        val = val * 10 + d;
        i += 1;
        if val > max {
            proof {
                lemma_dec_val_prefix_mono(s@, i as int, n as int);
                assert(s@.take(n as int) =~= s@);
            }
            return None;
        }
    }
    proof {
        assert(s@.take(n as int) =~= s@);
    }
    Some(val)
}

/// Appends the decimal spelling of `n` to `out`.
pub fn push_decimal(out: &mut Vec<char>, n: u32)
    ensures
        final(out)@ == old(out)@ + dec_digits(n as nat),
    decreases n,
{
    if n >= 10 {
        push_decimal(out, n / 10);
    }
    let d: u32 = n % 10;
    out.push(((48 + d) as u8) as char);
    proof {
        if n < 10 {
            assert(dec_digits(n as nat) =~= seq![digit_char(n as nat)]);
            assert(final(out)@ =~= old(out)@ + dec_digits(n as nat));
        } else {
            assert(dec_digits(n as nat) == dec_digits((n as nat) / 10).push(
                digit_char((n as nat) % 10),
            ));
            assert(final(out)@ =~= old(out)@ + dec_digits(n as nat));
        }
    }
}

// ---------------------------------------------------------------------
// GUIDs: 8-4-4-4-12 hexadecimal form of sixteen bytes
// ---------------------------------------------------------------------

pub open spec fn is_hex_digit(c: char) -> bool {
    is_digit(c) || ('a' <= c && c <= 'f') || ('A' <= c && c <= 'F')
}

/// Value of a hexadecimal digit of either case; zero for anything else.
pub open spec fn hex_val(c: char) -> nat {
    if is_digit(c) {
        digit_val(c)
    } else if 'a' <= c && c <= 'f' {
        (c as u32 - 87) as nat
    } else if 'A' <= c && c <= 'F' {
        (c as u32 - 55) as nat
    } else {
        0
    }
}

/// The lower-case character for the hexadecimal digit `d % 16`.
pub open spec fn hex_lower_char(d: nat) -> char {
    if d % 16 < 10 {
        ((48 + (d % 16)) as u8) as char
    } else {
        ((87 + (d % 16)) as u8) as char
    }
}

proof fn lemma_hex_lower_char_val(d: nat)
    ensures
        is_hex_digit(hex_lower_char(d)),
        hex_val(hex_lower_char(d)) == d % 16,
        hex_lower_char(d) != '-',
{
    assert(d % 16 < 16);
}

/// Positions of the four hyphens in the canonical GUID spelling.
pub open spec fn guid_hyphen(i: int) -> bool {
    i == 8 || i == 13 || i == 18 || i == 23
}

/// Number of hyphens strictly before position `i`.
pub open spec fn hyph_before(i: int) -> int {
    (if i > 8 { 1int } else { 0 }) + (if i > 13 { 1int } else { 0 }) + (if i > 18 { 1int } else { 0 })
        + (if i > 23 { 1int } else { 0 })
}

/// Character position of the `d`-th hexadecimal digit (of 32).
pub open spec fn digit_pos(d: int) -> int {
    d + (if d >= 8 { 1int } else { 0 }) + (if d >= 12 { 1int } else { 0 }) + (if d >= 16 { 1int } else { 0 })
        + (if d >= 20 { 1int } else { 0 })
}

/// Character `i` of the canonical spelling of the sixteen bytes `g`.
pub open spec fn guid_char_at(g: Seq<u8>, i: int) -> char {
    if guid_hyphen(i) {
        '-'
    } else {
        let d = i - hyph_before(i);
        let b = g[d / 2];
        if d % 2 == 0 {
            hex_lower_char((b / 16) as nat)
        } else {
            hex_lower_char((b % 16) as nat)
        }
    }
}

/// Canonical lower-case spelling of a GUID's sixteen bytes.
pub open spec fn guid_chars(g: Seq<u8>) -> Seq<char> {
    Seq::new(36, |i: int| guid_char_at(g, i))
}

/// The GUID grammar: 36 characters, hyphens at the four standard
/// positions, hexadecimal digits of either case everywhere else.
pub open spec fn guid_valid(s: Seq<char>) -> bool {
    &&& s.len() == 36
    &&& forall|i: int|
        0 <= i < 36 ==> (if guid_hyphen(i) {
            s[i] == '-'
        } else {
            is_hex_digit(s[i])
        })
}

/// Byte `k` (of 16) spelled at its two digit positions in `s`.
pub open spec fn guid_byte(s: Seq<char>, k: int) -> nat {
    16 * hex_val(s[digit_pos(2 * k)]) + hex_val(s[digit_pos(2 * k + 1)])
}

pub open spec fn guid_parse_spec(s: Seq<char>) -> Option<Seq<u8>> {
    if guid_valid(s) {
        Some(Seq::new(16, |k: int| guid_byte(s, k) as u8))
    } else {
        None
    }
}

pub proof fn lemma_guid_roundtrip(g: Seq<u8>)
    requires
        g.len() == 16,
    ensures
        guid_parse_spec(guid_chars(g)) == Some(g),
{
    let s = guid_chars(g);
    assert forall|i: int| 0 <= i < 36 implies (if guid_hyphen(i) {
        s[i] == '-'
    } else {
        is_hex_digit(s[i])
    }) by {
        if !guid_hyphen(i) {
            let d = i - hyph_before(i);
            assert(0 <= d / 2 < 16);
            if d % 2 == 0 {
                lemma_hex_lower_char_val((g[d / 2] / 16) as nat);
            } else {
                lemma_hex_lower_char_val((g[d / 2] % 16) as nat);
            }
        }
    }
    assert(guid_valid(s));
    let parsed = Seq::new(16, |k: int| guid_byte(s, k) as u8);
    assert forall|k: int| 0 <= k < 16 implies parsed[k] == g[k] by {
        let p0 = digit_pos(2 * k);
        let p1 = digit_pos(2 * k + 1);
        assert(!guid_hyphen(p0));
        assert(!guid_hyphen(p1));
        assert(p0 - hyph_before(p0) == 2 * k);
        assert(p1 - hyph_before(p1) == 2 * k + 1);
        let b = g[k];
        lemma_hex_lower_char_val((b / 16) as nat);
        lemma_hex_lower_char_val((b % 16) as nat);
        assert(s[p0] == hex_lower_char((b / 16) as nat));
        assert(s[p1] == hex_lower_char((b % 16) as nat));
        assert(guid_byte(s, k) == 16 * ((b / 16) as nat % 16) + ((b % 16) as nat % 16));
        assert(16 * ((b as nat) / 16) + (b as nat) % 16 == b as nat);
    }
    assert(parsed =~= g);
}

/// Appends the canonical GUID spelling of the sixteen bytes `g` to `out`.
pub fn push_guid(out: &mut Vec<char>, g: &Vec<u8>)
    requires
        g@.len() == 16,
    ensures
        final(out)@ == old(out)@ + guid_chars(g@),
{
    let mut i: usize = 0;
    while i < 36
        invariant
            i <= 36,
            g@.len() == 16,
            out@ == old(out)@ + guid_chars(g@).take(i as int),
        decreases 36 - i,
    {
        let c: char = if i == 8 || i == 13 || i == 18 || i == 23 {
            '-'
        } else {
            let h1: usize = if i > 8 { 1 } else { 0 };
            let h2: usize = if i > 13 { 1 } else { 0 };
            let h3: usize = if i > 18 { 1 } else { 0 };
            let h4: usize = if i > 23 { 1 } else { 0 };
            let d: usize = i - h1 - h2 - h3 - h4;
            let b: u8 = g[d / 2];
            let nib: u8 = if d % 2 == 0 {
                b / 16
            } else {
                b % 16
            };
            if nib < 10 {
                ((48 + nib) as u8) as char
            } else {
                ((87 + nib) as u8) as char
            }
        };
        proof {
            assert(c == guid_char_at(g@, i as int));
            assert(guid_chars(g@).take(i + 1 as int) =~= guid_chars(g@).take(i as int).push(
                guid_chars(g@)[i as int],
            ));
        }
        out.push(c);
        i += 1;
    }
    proof {
        assert(guid_chars(g@).take(36) =~= guid_chars(g@));
    }
}

/// Parses the whole of `s` as a GUID in 8-4-4-4-12 hexadecimal form.
pub fn parse_guid_str(s: &str) -> (r: Option<Vec<u8>>)
    ensures
        match r {
            Some(v) => guid_parse_spec(s@) == Some(v@),
            None => guid_parse_spec(s@) is None,
        },
{
    let n = s.unicode_len();
    if n != 36 {
        return None;
    }
    let mut i: usize = 0;
    while i < 36
        invariant
            i <= 36,
            s@.len() == 36,
            forall|j: int|
                0 <= j < i ==> (if guid_hyphen(j) {
                    s@[j] == '-'
                } else {
                    is_hex_digit(s@[j])
                }),
        decreases 36 - i,
    {
        let c = s.get_char(i);
        if i == 8 || i == 13 || i == 18 || i == 23 {
            if c != '-' {
                return None;
            }
        } else {
            if !(('0' <= c && c <= '9') || ('a' <= c && c <= 'f') || ('A' <= c && c <= 'F')) {
                return None;
            }
        }
        i += 1;
    }
    assert(guid_valid(s@));
    let mut bytes: Vec<u8> = Vec::new();
    let mut k: usize = 0;
    while k < 16
        invariant
            k <= 16,
            s@.len() == 36,
            guid_valid(s@),
            bytes@.len() == k,
            forall|j: int| 0 <= j < k ==> bytes@[j] == guid_byte(s@, j) as u8,
        decreases 16 - k,
    {
        let d0: usize = 2 * k;
        let d1: usize = 2 * k + 1;
        let p0: usize = d0 + (if d0 >= 8 { 1 } else { 0 }) + (if d0 >= 12 { 1 } else { 0 }) + (
        if d0 >= 16 {
            1
        } else {
            0
        }) + (if d0 >= 20 {
            1
        } else {
            0
        });
        let p1: usize = d1 + (if d1 >= 8 { 1 } else { 0 }) + (if d1 >= 12 { 1 } else { 0 }) + (
        if d1 >= 16 {
            1
        } else {
            0
        }) + (if d1 >= 20 {
            1
        } else {
            0
        });
        proof {
            assert(p0 == digit_pos(2 * k));
            assert(p1 == digit_pos(2 * k + 1));
            assert(!guid_hyphen(p0 as int));
            assert(!guid_hyphen(p1 as int));
        }
        let hi: u8 = hex_digit_value(s.get_char(p0));
        let lo: u8 = hex_digit_value(s.get_char(p1));
        bytes.push(16 * hi + lo);
        k += 1;
    }
    proof {
        assert(bytes@ =~= Seq::new(16, |j: int| guid_byte(s@, j) as u8));
    }
    Some(bytes)
}

/// Value of one hexadecimal digit character of either case.
fn hex_digit_value(c: char) -> (r: u8)
    requires
        is_hex_digit(c),
    ensures
        r as nat == hex_val(c),
        r < 16,
{
    if '0' <= c && c <= '9' {
        (c as u32 - 48) as u8
    } else if 'a' <= c && c <= 'f' {
        (c as u32 - 87) as u8
    } else {
        (c as u32 - 55) as u8
    }
}

// ---------------------------------------------------------------------
// Base64 byte-string payloads
// ---------------------------------------------------------------------

/// The text that the base64 standard engine encodes a byte sequence to.
pub uninterp spec fn b64_of(bytes: Seq<u8>) -> Seq<char>;

/// The bytes that the base64 standard engine decodes a text to; `None`
/// where it rejects the text.
pub uninterp spec fn b64_decode_of(s: Seq<char>) -> Option<Seq<u8>>;

/// Relies on base64's `STANDARD` engine `encode`: canonical padded
/// base64, whose own `decode` inverts it.
#[verifier::external_body]
pub fn b64_encode(bytes: &Vec<u8>) -> (r: String)
    ensures
        r@ == b64_of(bytes@),
        b64_decode_of(r@) == Some(bytes@),
{
    base64::Engine::encode(&base64::engine::general_purpose::STANDARD, bytes.as_slice())
}

/// Relies on base64's `STANDARD` engine `decode`: it requires canonical
/// padding, rejects set trailing bits, and so accepts exactly the texts
/// that `encode` produces, returning the bytes that encode to the text.
#[verifier::external_body]
pub fn b64_decode(s: &str) -> (r: Option<Vec<u8>>)
    ensures
        match r {
            Some(v) => b64_decode_of(s@) == Some(v@) && s@ == b64_of(v@),
            None => b64_decode_of(s@) is None,
        },
{
    match base64::Engine::decode(&base64::engine::general_purpose::STANDARD, s) {
        Ok(v) => Some(v),
        Err(_) => None,
    }
}

// ---------------------------------------------------------------------
// The node-identifier grammar
// ---------------------------------------------------------------------

/// Index of the first `c` at or after `from`; `s.len()` if there is none.
pub open spec fn find_char(s: Seq<char>, c: char, from: int) -> int
    decreases s.len() - from,
{
    if from < 0 || from >= s.len() {
        s.len() as int
    } else if s[from] == c {
        from
    } else {
        find_char(s, c, from + 1)
    }
}

pub proof fn lemma_find_char_bounds(s: Seq<char>, c: char, from: int)
    requires
        0 <= from <= s.len(),
    ensures
        from <= find_char(s, c, from) <= s.len(),
    decreases s.len() - from,
{
    if from < s.len() && s[from] != c {
        lemma_find_char_bounds(s, c, from + 1);
    }
}

pub proof fn lemma_find_char_found(s: Seq<char>, c: char, from: int, k: int)
    requires
        0 <= from <= k < s.len(),
        forall|j: int| from <= j < k ==> s[j] != c,
        s[k] == c,
    ensures
        find_char(s, c, from) == k,
    decreases k - from,
{
    if from < k {
        lemma_find_char_found(s, c, from + 1, k);
    }
}

pub proof fn lemma_find_char_missing(s: Seq<char>, c: char, from: int)
    requires
        0 <= from <= s.len(),
        forall|j: int| from <= j < s.len() ==> s[j] != c,
    ensures
        find_char(s, c, from) == s.len(),
    decreases s.len() - from,
{
    if from < s.len() {
        lemma_find_char_missing(s, c, from + 1);
    }
}

/// The identifier part after any `ns=<n>;` prefix: `i=`, `s=`, and, in
/// the full form only, `g=` and `b=`.  Tag letters of either case.
pub open spec fn ident_parse_spec(s: Seq<char>, allow_gb: bool) -> Option<IdentifierView> {
    if s.len() < 2 || s[1] != '=' {
        None
    } else {
        let payload = s.subrange(2, s.len() as int);
        let tag = ascii_lower(s[0]);
        if tag == 'i' {
            match dec_parse_spec(payload, u32::MAX as nat) {
                Some(v) => Some(IdentifierView::Numeric(v as u32)),
                None => None,
            }
        } else if tag == 's' {
            Some(IdentifierView::Text(payload))
        } else if tag == 'g' && allow_gb {
            match guid_parse_spec(payload) {
                Some(g) => Some(IdentifierView::Guid(g)),
                None => None,
            }
        } else if tag == 'b' && allow_gb {
            match b64_decode_of(payload) {
                Some(b) => Some(IdentifierView::Bytes(b)),
                None => None,
            }
        } else {
            None
        }
    }
}

/// The structured syntax: `ns=<u16>;<ident>` with all four identifier
/// kinds, or the namespace-0 shorthands `i=<u32>`, `s=<string>` and a
/// bare decimal `u32`.
pub open spec fn parse_syntax_spec(s: Seq<char>) -> Option<NodeIdView> {
    if s.len() >= 3 && ascii_lower(s[0]) == 'n' && ascii_lower(s[1]) == 's' && s[2] == '=' {
        let k = find_char(s, ';', 3);
        if k == s.len() {
            None
        } else {
            match dec_parse_spec(s.subrange(3, k), u16::MAX as nat) {
                Some(ns) => match ident_parse_spec(s.subrange(k + 1, s.len() as int), true) {
                    Some(ident) => Some(NodeIdView { namespace: ns as u16, identifier: ident }),
                    None => None,
                },
                None => None,
            }
        }
    } else {
        match ident_parse_spec(s, false) {
            Some(ident) => Some(NodeIdView { namespace: 0, identifier: ident }),
            None => match dec_parse_spec(s, u32::MAX as nat) {
                Some(v) => Some(
                    NodeIdView { namespace: 0, identifier: IdentifierView::Numeric(v as u32) },
                ),
                None => None,
            },
        }
    }
}

/// The well-known folder names, matched ASCII case-insensitively.
pub open spec fn alias_spec(s: Seq<char>) -> Option<NodeIdView> {
    let l = ascii_lower_seq(s);
    if l == "objects"@ || l == "objectsfolder"@ {
        Some(objects_folder_view())
    } else if l == "server"@ {
        Some(server_object_view())
    } else if l == "types"@ || l == "typesfolder"@ {
        Some(types_folder_view())
    } else if l == "views"@ || l == "viewsfolder"@ {
        Some(views_folder_view())
    } else if l == "root"@ {
        Some(root_folder_view())
    } else {
        None
    }
}

/// The whole grammar: structured syntax first, folder aliases second.
pub open spec fn parse_spec(s: Seq<char>) -> Option<NodeIdView> {
    match parse_syntax_spec(s) {
        Some(id) => Some(id),
        None => alias_spec(s),
    }
}

/// Canonical spelling of the identifier part.
pub open spec fn ident_chars(ident: IdentifierView) -> Seq<char> {
    match ident {
        IdentifierView::Numeric(n) => seq!['i', '='] + dec_digits(n as nat),
        IdentifierView::Text(t) => seq!['s', '='] + t,
        IdentifierView::Guid(g) => seq!['g', '='] + guid_chars(g),
        IdentifierView::Bytes(b) => seq!['b', '='] + b64_of(b),
    }
}

/// Canonical spelling of a node identifier: always the full `ns=` form
/// with lower-case tags.
pub open spec fn format_spec(id: NodeIdView) -> Seq<char> {
    seq!['n', 's', '='] + dec_digits(id.namespace as nat) + seq![';'] + ident_chars(id.identifier)
}

/// Canonical form of a valid identifier text; `None` on invalid text.
pub open spec fn canonical_form(s: Seq<char>) -> Option<Seq<char>> {
    match parse_spec(s) {
        Some(id) => Some(format_spec(id)),
        None => None,
    }
}

/// A malformed textual node reference: the codec's one error.
#[derive(Clone, Copy, Debug, PartialEq, Eq, Structural)]
pub enum CodecError {
    InvalidIdentifierSyntax,
}

/// Parses an identifier part (`i=`, `s=`, and in the full form `g=`, `b=`).
fn parse_ident_str(s: &str, allow_gb: bool) -> (r: Option<Identifier>)
    ensures
        match r {
            Some(id) => ident_parse_spec(s@, allow_gb) == Some(id@) && id@.wf(),
            None => ident_parse_spec(s@, allow_gb) is None,
        },
{
    let n = s.unicode_len();
    if n < 2 {
        return None;
    }
    if s.get_char(1) != '=' {
        return None;
    }
    let tag = ascii_lower_char(s.get_char(0));
    let payload = s.substring_char(2, n);
    proof {
        assert(payload@ =~= s@.subrange(2, s@.len() as int));
    }
    if tag == 'i' {
        match parse_decimal_str(payload, 4294967295u64) {
            Some(v) => Some(Identifier::Numeric(v as u32)),
            None => None,
        }
    } else if tag == 's' {
        Some(Identifier::Text(payload.to_owned()))
    } else if tag == 'g' && allow_gb {
        match parse_guid_str(payload) {
            Some(g) => {
                proof {
                    assert(g@.len() == 16);
                }
                Some(Identifier::Guid(g))
            },
            None => None,
        }
    } else if tag == 'b' && allow_gb {
        match b64_decode(payload) {
            Some(b) => Some(Identifier::Bytes(b)),
            None => None,
        }
    } else {
        None
    }
}

/// Parses the structured syntax (full `ns=` form or namespace-0 shorthand).
fn parse_syntax_str(text: &str) -> (r: Option<NodeId>)
    ensures
        match r {
            Some(id) => parse_syntax_spec(text@) == Some(id@) && id.wf(),
            None => parse_syntax_spec(text@) is None,
        },
{
    let n = text.unicode_len();
    if n >= 3 && ascii_lower_char(text.get_char(0)) == 'n' && ascii_lower_char(text.get_char(1))
        == 's' && text.get_char(2) == '=' {
        let mut k: usize = 3;
        while k < n && text.get_char(k) != ';'
            invariant
                3 <= k <= n,
                n == text@.len(),
                forall|j: int| 3 <= j < k ==> text@[j] != ';',
            decreases n - k,
        {
            k += 1;
        }
        proof {
            if k < n {
                lemma_find_char_found(text@, ';', 3, k as int);
            } else {
                lemma_find_char_missing(text@, ';', 3);
            }
        }
        if k == n {
            return None;
        }
        let ns_part = text.substring_char(3, k);
        proof {
            assert(ns_part@ =~= text@.subrange(3, k as int));
        }
        match parse_decimal_str(ns_part, 65535u64) {
            Some(ns) => {
                let rest = text.substring_char(k + 1, n);
                proof {
                    assert(rest@ =~= text@.subrange(k + 1 as int, text@.len() as int));
                }
                match parse_ident_str(rest, true) {
                    Some(ident) => Some(NodeId { namespace: ns as u16, identifier: ident }),
                    None => None,
                }
            },
            None => None,
        }
    } else {
        match parse_ident_str(text, false) {
            Some(ident) => Some(NodeId { namespace: 0, identifier: ident }),
            None => match parse_decimal_str(text, 4294967295u64) {
                Some(v) => Some(NodeId { namespace: 0, identifier: Identifier::Numeric(v as u32) }),
                None => None,
            },
        }
    }
}

/// Parses a textual node reference: the structured syntax of the four
/// identifier kinds, the namespace-0 shorthands, or a well-known folder
/// name.  Returns `InvalidIdentifierSyntax` exactly on the texts the
/// grammar rejects.
pub fn parse_node_id(text: &str) -> (r: Result<NodeId, CodecError>)
    ensures
        match r {
            Ok(id) => parse_spec(text@) == Some(id@) && id.wf(),
            Err(e) => parse_spec(text@) is None && e == CodecError::InvalidIdentifierSyntax,
        },
{
    match parse_syntax_str(text) {
        Some(id) => Ok(id),
        None => {
            if ascii_lower_eq(text, "objects") || ascii_lower_eq(text, "objectsfolder") {
                Ok(crate::ids::objects_folder_id())
            } else if ascii_lower_eq(text, "server") {
                Ok(crate::ids::server_object_id())
            } else if ascii_lower_eq(text, "types") || ascii_lower_eq(text, "typesfolder") {
                Ok(crate::ids::types_folder_id())
            } else if ascii_lower_eq(text, "views") || ascii_lower_eq(text, "viewsfolder") {
                Ok(crate::ids::views_folder_id())
            } else if ascii_lower_eq(text, "root") {
                Ok(crate::ids::root_folder_id())
            } else {
                Err(CodecError::InvalidIdentifierSyntax)
            }
        },
    }
}

/// Appends the canonical spelling of the identifier part.
fn push_ident(out: &mut Vec<char>, ident: &Identifier)
    requires
        ident@.wf(),
    ensures
        final(out)@ == old(out)@ + ident_chars(ident@),
{
    match ident {
        Identifier::Numeric(v) => {
            out.push('i');
            out.push('=');
            push_decimal(out, *v);
        },
        Identifier::Text(t) => {
            out.push('s');
            out.push('=');
            push_chars(out, t.as_str());
        },
        Identifier::Guid(g) => {
            out.push('g');
            out.push('=');
            push_guid(out, g);
        },
        Identifier::Bytes(b) => {
            out.push('b');
            out.push('=');
            let enc = b64_encode(b);
            push_chars(out, enc.as_str());
        },
    }
    proof {
        assert(out@ =~= old(out)@ + ident_chars(ident@));
    }
}

/// Formats a node identifier in its canonical spelling: the full `ns=`
/// form with lower-case tags, lower-case GUID hex, padded base64.
pub fn format_node_id(id: &NodeId) -> (r: String)
    requires
        id.wf(),
    ensures
        r@ == format_spec(id@),
{
    let mut out: Vec<char> = Vec::new();
    out.push('n');
    out.push('s');
    out.push('=');
    proof {
        assert(out@ =~= seq!['n', 's', '=']);
    }
    push_decimal(&mut out, id.namespace as u32);
    out.push(';');
    push_ident(&mut out, &id.identifier);
    proof {
        assert(out@ =~= format_spec(id@));
    }
    string_from_chars(&out)
}

// ---------------------------------------------------------------------
// The listing order
// ---------------------------------------------------------------------

/// Lexicographic order on character sequences, by code point.
pub open spec fn chars_lt(a: Seq<char>, b: Seq<char>) -> bool
    decreases a.len(),
{
    if b.len() == 0 {
        false
    } else if a.len() == 0 {
        true
    } else if a[0] != b[0] {
        (a[0] as u32) < (b[0] as u32)
    } else {
        chars_lt(a.drop_first(), b.drop_first())
    }
}

/// The total listing order on node identifiers: by namespace index, then
/// by the canonical spelling of the identifier part.
pub open spec fn node_id_lt(a: NodeIdView, b: NodeIdView) -> bool {
    a.namespace < b.namespace || (a.namespace == b.namespace && chars_lt(
        ident_chars(a.identifier),
        ident_chars(b.identifier),
    ))
}

/// Whether `a` sorts strictly before `b` in listings.
pub fn node_id_before(a: &NodeId, b: &NodeId) -> (r: bool)
    requires
        a.wf(),
        b.wf(),
    ensures
        r == node_id_lt(a@, b@),
{
    if a.namespace < b.namespace {
        return true;
    }
    if a.namespace > b.namespace {
        return false;
    }
    let mut sa: Vec<char> = Vec::new();
    push_ident(&mut sa, &a.identifier);
    let mut sb: Vec<char> = Vec::new();
    push_ident(&mut sb, &b.identifier);
    let mut i: usize = 0;
    proof {
        assert(sa@.skip(0) =~= sa@);
        assert(sb@.skip(0) =~= sb@);
    }
    while i < sa.len() && i < sb.len()
        invariant
            i <= sa@.len(),
            i <= sb@.len(),
            a@.namespace == b@.namespace,
            sa@ == ident_chars(a@.identifier),
            sb@ == ident_chars(b@.identifier),
            chars_lt(sa@, sb@) == chars_lt(sa@.skip(i as int), sb@.skip(i as int)),
            forall|j: int| 0 <= j < i ==> sa@[j] == sb@[j],
        decreases sa@.len() - i,
    {
        let ca = sa[i];
        let cb = sb[i];
        proof {
            assert(sa@.skip(i as int)[0] == sa@[i as int]);
            assert(sb@.skip(i as int)[0] == sb@[i as int]);
            assert(sa@.skip(i as int).drop_first() =~= sa@.skip(i + 1 as int));
            assert(sb@.skip(i as int).drop_first() =~= sb@.skip(i + 1 as int));
        }
        if ca != cb {
            return (ca as u32) < (cb as u32);
        }
        i += 1;
    }
    proof {
        if i == sa.len() {
            assert(sa@.skip(i as int) =~= Seq::<char>::empty());
        } else {
            assert(sb@.skip(i as int) =~= Seq::<char>::empty());
        }
    }
    i == sa.len() && i < sb.len()
}

// ---------------------------------------------------------------------
// Round-trip laws
// ---------------------------------------------------------------------

/// Parsing always yields a well-formed identifier.
pub proof fn lemma_parse_wf(s: Seq<char>)
    requires
        parse_spec(s) is Some,
    ensures
        parse_spec(s)->Some_0.wf(),
{
}

/// Round trip: parsing the canonical spelling of any well-formed
/// identifier gives the identifier back.  For the byte-string kind the
/// premise states that the base64 engine's decoder inverts its encoder
/// on these bytes; that is the engine's documented behaviour, and the
/// `b64_encode` wrapper establishes it for every encoding the crate
/// actually produces.
pub proof fn lemma_parse_format_roundtrip(id: NodeIdView)
    requires
        id.wf(),
        id.identifier matches IdentifierView::Bytes(b) ==> b64_decode_of(b64_of(b)) == Some(b),
    ensures
        parse_spec(format_spec(id)) == Some(id),
{
    let s = format_spec(id);
    let a = dec_digits(id.namespace as nat);
    let b = ident_chars(id.identifier);
    lemma_dec_digits_wf(id.namespace as nat);
    assert(s.len() == 3 + a.len() + 1 + b.len());
    assert(s[0] == 'n' && s[1] == 's' && s[2] == '=');
    assert(ascii_lower('n') == 'n' && ascii_lower('s') == 's');
    let k = 3 + a.len() as int;
    assert forall|j: int| 3 <= j < k implies s[j] != ';' by {
        assert(s[j] == a[j - 3]);
        assert(is_digit(a[j - 3]));
    }
    assert(s[k] == ';');
    lemma_find_char_found(s, ';', 3, k);
    assert(s.subrange(3, k) =~= a);
    assert(dec_parse_spec(a, u16::MAX as nat) == Some(id.namespace as nat));
    let rest = s.subrange(k + 1, s.len() as int);
    assert(rest =~= b);
    lemma_ident_roundtrip(id.identifier);
    assert(parse_syntax_spec(s) == Some(id));
}

proof fn lemma_ident_roundtrip(ident: IdentifierView)
    requires
        ident.wf(),
        ident matches IdentifierView::Bytes(b) ==> b64_decode_of(b64_of(b)) == Some(b),
    ensures
        ident_parse_spec(ident_chars(ident), true) == Some(ident),
{
    let s = ident_chars(ident);
    match ident {
        IdentifierView::Numeric(n) => {
            lemma_dec_digits_wf(n as nat);
            assert(s[0] == 'i' && s[1] == '=');
            assert(s.subrange(2, s.len() as int) =~= dec_digits(n as nat));
            assert(ascii_lower('i') == 'i');
        },
        IdentifierView::Text(t) => {
            assert(s[0] == 's' && s[1] == '=');
            assert(s.subrange(2, s.len() as int) =~= t);
            assert(ascii_lower('s') == 's');
        },
        IdentifierView::Guid(g) => {
            lemma_guid_roundtrip(g);
            assert(s[0] == 'g' && s[1] == '=');
            assert(s.subrange(2, s.len() as int) =~= guid_chars(g));
            assert(ascii_lower('g') == 'g');
        },
        IdentifierView::Bytes(bytes) => {
            assert(s[0] == 'b' && s[1] == '=');
            assert(s.subrange(2, s.len() as int) =~= b64_of(bytes));
            assert(ascii_lower('b') == 'b');
        },
    }
}

/// Canonicalisation is idempotent: formatting what a canonical text
/// parses to gives the text back, so `canonical_form` is a fixed point
/// on its own image.  The byte-string premise is as in
/// `lemma_parse_format_roundtrip`.
pub proof fn lemma_canonical_idempotent(s: Seq<char>)
    requires
        parse_spec(s) is Some,
        parse_spec(s)->Some_0.identifier matches IdentifierView::Bytes(b) ==> b64_decode_of(
            b64_of(b),
        ) == Some(b),
    ensures
        canonical_form(canonical_form(s)->Some_0) == canonical_form(s),
{
    let id = parse_spec(s)->Some_0;
    lemma_parse_wf(s);
    lemma_parse_format_roundtrip(id);
}

} // verus!
