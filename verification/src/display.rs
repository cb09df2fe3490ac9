//! Plain display helpers: node-class names, access-level text, status
//! severity, and display truncation.  Colouring and icons are left to
//! the surrounding command surface; everything here is a pure function
//! of its input.

use vstd::prelude::*;
use crate::ids::NodeClass;
use crate::text::string_from_chars;

verus! {

pub open spec fn node_class_name_spec(c: NodeClass) -> Seq<char> {
    match c {
        NodeClass::Object => "Object"@,
        NodeClass::Variable => "Variable"@,
        NodeClass::Method => "Method"@,
        NodeClass::ObjectType => "ObjectType"@,
        NodeClass::VariableType => "VariableType"@,
        NodeClass::ReferenceType => "ReferenceType"@,
        NodeClass::DataType => "DataType"@,
        NodeClass::View => "View"@,
        NodeClass::Unspecified => "Unknown"@,
    }
}

/// The plain name of a node class, as listings print it.
pub fn format_node_class(c: NodeClass) -> (r: String)
    ensures
        r@ == node_class_name_spec(c),
{
    match c {
        NodeClass::Object => "Object".to_owned(),
        NodeClass::Variable => "Variable".to_owned(),
        NodeClass::Method => "Method".to_owned(),
        NodeClass::ObjectType => "ObjectType".to_owned(),
        NodeClass::VariableType => "VariableType".to_owned(),
        NodeClass::ReferenceType => "ReferenceType".to_owned(),
        NodeClass::DataType => "DataType".to_owned(),
        NodeClass::View => "View".to_owned(),
        NodeClass::Unspecified => "Unknown".to_owned(),
    }
}

pub open spec fn node_class_compact_spec(c: NodeClass) -> Seq<char> {
    match c {
        NodeClass::Object => "Obj"@,
        NodeClass::Variable => "Var"@,
        NodeClass::Method => "Met"@,
        NodeClass::ObjectType => "OTyp"@,
        NodeClass::VariableType => "VTyp"@,
        NodeClass::ReferenceType => "Ref"@,
        NodeClass::DataType => "Data"@,
        NodeClass::View => "View"@,
        NodeClass::Unspecified => "?"@,
    }
}

/// The compact tag of a node class, as the compact tree view prints it.
pub fn format_compact_node_class(c: NodeClass) -> (r: String)
    ensures
        r@ == node_class_compact_spec(c),
{
    match c {
        NodeClass::Object => "Obj".to_owned(),
        NodeClass::Variable => "Var".to_owned(),
        NodeClass::Method => "Met".to_owned(),
        NodeClass::ObjectType => "OTyp".to_owned(),
        NodeClass::VariableType => "VTyp".to_owned(),
        NodeClass::ReferenceType => "Ref".to_owned(),
        NodeClass::DataType => "Data".to_owned(),
        NodeClass::View => "View".to_owned(),
        NodeClass::Unspecified => "?".to_owned(),
    }
}

pub open spec fn node_class_from_mask_spec(v: u32) -> NodeClass {
    if v == 1 {
        NodeClass::Object
    } else if v == 2 {
        NodeClass::Variable
    } else if v == 4 {
        NodeClass::Method
    } else if v == 8 {
        NodeClass::ObjectType
    } else if v == 16 {
        NodeClass::VariableType
    } else if v == 32 {
        NodeClass::ReferenceType
    } else if v == 64 {
        NodeClass::DataType
    } else if v == 128 {
        NodeClass::View
    } else {
        NodeClass::Unspecified
    }
}

/// The node class a wire-level class number denotes; `Unspecified` for
/// anything unknown.
pub fn node_class_from_mask(v: u32) -> (r: NodeClass)
    ensures
        r == node_class_from_mask_spec(v),
{
    if v == 1 {
        NodeClass::Object
    } else if v == 2 {
        NodeClass::Variable
    } else if v == 4 {
        NodeClass::Method
    } else if v == 8 {
        NodeClass::ObjectType
    } else if v == 16 {
        NodeClass::VariableType
    } else if v == 32 {
        NodeClass::ReferenceType
    } else if v == 64 {
        NodeClass::DataType
    } else if v == 128 {
        NodeClass::View
    } else {
        NodeClass::Unspecified
    }
}

// ---------------------------------------------------------------------
// Status severity
// ---------------------------------------------------------------------

/// The three severities a wire status code can carry.
#[derive(Clone, Copy, Debug, PartialEq, Eq, Structural)]
pub enum StatusSeverity {
    Good,
    Uncertain,
    Bad,
}

/// Severity of a status code: bit 31 set means bad, else bit 30 set
/// means uncertain, else good — the wire encoding of status severities.
pub open spec fn status_severity_spec(code: u32) -> StatusSeverity {
    if code & 0x8000_0000 != 0 {
        StatusSeverity::Bad
    } else if code & 0x4000_0000 != 0 {
        StatusSeverity::Uncertain
    } else {
        StatusSeverity::Good
    }
}

pub fn status_severity(code: u32) -> (r: StatusSeverity)
    ensures
        r == status_severity_spec(code),
{
    if code & 0x8000_0000 != 0 {
        StatusSeverity::Bad
    } else if code & 0x4000_0000 != 0 {
        StatusSeverity::Uncertain
    } else {
        StatusSeverity::Good
    }
}

// ---------------------------------------------------------------------
// Access levels
// ---------------------------------------------------------------------

/// The access-right names an access-level byte grants, lowest bit first:
/// read, write, history read, history write.
pub open spec fn access_parts_spec(a: u8) -> Seq<Seq<char>> {
    let p1: Seq<Seq<char>> = if a & 0x01 != 0 {
        seq!["Read"@]
    } else {
        Seq::empty()
    };
    let p2: Seq<Seq<char>> = if a & 0x02 != 0 {
        seq!["Write"@]
    } else {
        Seq::empty()
    };
    let p3: Seq<Seq<char>> = if a & 0x04 != 0 {
        seq!["HistoryRead"@]
    } else {
        Seq::empty()
    };
    let p4: Seq<Seq<char>> = if a & 0x08 != 0 {
        seq!["HistoryWrite"@]
    } else {
        Seq::empty()
    };
    p1 + p2 + p3 + p4
}

/// The parts joined with `" | "`.
pub open spec fn join_parts_spec(parts: Seq<Seq<char>>) -> Seq<char>
    decreases parts.len(),
{
    if parts.len() == 0 {
        Seq::empty()
    } else if parts.len() == 1 {
        parts[0]
    } else {
        join_parts_spec(parts.drop_last()) + " | "@ + parts.last()
    }
}

pub open spec fn access_level_text_spec(a: u8) -> Seq<char> {
    if access_parts_spec(a).len() == 0 {
        "None"@
    } else {
        join_parts_spec(access_parts_spec(a))
    }
}

/// One unfolding of the join at its back end.
proof fn lemma_join_push(parts: Seq<Seq<char>>, p: Seq<char>)
    ensures
        parts.len() == 0 ==> join_parts_spec(parts.push(p)) == p,
        parts.len() > 0 ==> join_parts_spec(parts.push(p)) == join_parts_spec(parts) + " | "@ + p,
{
    assert(parts.push(p).drop_last() =~= parts);
    assert(parts.push(p).last() == p);
    if parts.len() == 0 {
        assert(parts.push(p)[0] == p);
    }
}

/// Spells an access-level byte out: the granted rights joined with
/// `" | "`, or `"None"` when the byte grants none of the four.
pub fn format_access_level(access_level: u8) -> (r: String)
    ensures
        r@ == access_level_text_spec(access_level),
{
    let mut out: Vec<char> = Vec::new();
    let mut count: usize = 0;
    let ghost mut done: Seq<Seq<char>> = Seq::empty();
    if access_level & 0x01 != 0 {
        proof {
            lemma_join_push(done, "Read"@);
        }
        push_part(&mut out, &mut count, "Read");
        proof {
            done = done.push("Read"@);
        }
    }
    if access_level & 0x02 != 0 {
        proof {
            lemma_join_push(done, "Write"@);
        }
        push_part(&mut out, &mut count, "Write");
        proof {
            done = done.push("Write"@);
        }
    }
    if access_level & 0x04 != 0 {
        proof {
            lemma_join_push(done, "HistoryRead"@);
        }
        push_part(&mut out, &mut count, "HistoryRead");
        proof {
            done = done.push("HistoryRead"@);
        }
    }
    if access_level & 0x08 != 0 {
        proof {
            lemma_join_push(done, "HistoryWrite"@);
        }
        push_part(&mut out, &mut count, "HistoryWrite");
        proof {
            done = done.push("HistoryWrite"@);
        }
    }
    proof {
        assert(done =~= access_parts_spec(access_level));
    }
    if count == 0 {
        "None".to_owned()
    } else {
        string_from_chars(&out)
    }
}

// ---------------------------------------------------------------------
// Truncation
// ---------------------------------------------------------------------

/// Truncation for display: at most `max_len` characters, a longer text
/// cut to `max_len - 3` characters (to zero when `max_len < 3`) with an
/// ellipsis appended.
pub open spec fn truncate_spec(s: Seq<char>, max_len: int) -> Seq<char> {
    if s.len() <= max_len {
        s
    } else {
        s.take(
            if max_len >= 3 {
                max_len - 3
            } else {
                0
            },
        ) + "..."@
    }
}

/// Cuts a string for display to at most `max_len` characters, marking a
/// cut with `...`.
pub fn truncate_string(s: &str, max_len: usize) -> (r: String)
    ensures
        r@ == truncate_spec(s@, max_len as int),
{
    let n = s.unicode_len();
    if n <= max_len {
        return s.to_owned();
    }
    let keep: usize = if max_len >= 3 {
        max_len - 3
    } else {
        0
    };
    let head = s.substring_char(0, keep);
    let mut out: Vec<char> = Vec::new();
    crate::text::push_chars(&mut out, head);
    out.push('.');
    out.push('.');
    out.push('.');
    proof {
        reveal_strlit("...");
        assert(s@.subrange(0, keep as int) =~= s@.take(keep as int));
        assert(out@ =~= s@.take(keep as int) + "..."@);
    }
    string_from_chars(&out)
}

/// Appends one part, preceded by the separator when it is not the first.
fn push_part(out: &mut Vec<char>, count: &mut usize, part: &str)
    requires
        *old(count) < usize::MAX,
    ensures
        *final(count) == *old(count) + 1,
        *old(count) == 0 ==> final(out)@ == old(out)@ + part@,
        *old(count) > 0 ==> final(out)@ == old(out)@ + " | "@ + part@,
{
    let first = *count == 0;
    if !first {
        out.push(' ');
        out.push('|');
        out.push(' ');
        proof {
            reveal_strlit(" | ");
            assert(out@ =~= old(out)@ + " | "@);
        }
    }
    crate::text::push_chars(out, part);
    *count = *count + 1;
    proof {
        if first {
            assert(final(out)@ =~= old(out)@ + part@);
        }
    }
}

} // verus!
