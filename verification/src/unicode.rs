use vstd::prelude::*;

verus! {

// The scanner classifies characters with three Unicode properties: XID_Start
// and XID_Continue for identifiers, and White_Space for blank runs. Each
// property is a fixed table far too large to restate, so the part of each
// table beyond ASCII is kept as an unspecified name, while the ASCII part —
// which the sources of the functions relied on spell out directly — is
// written into the spec predicates below.

pub uninterp spec fn xid_start_beyond_ascii(c: char) -> bool;

pub uninterp spec fn xid_continue_beyond_ascii(c: char) -> bool;

pub uninterp spec fn white_space_beyond_ascii(c: char) -> bool;

/// A character that may begin an identifier: an ASCII letter, or a character
/// beyond ASCII with the XID_Start property.
pub open spec fn is_ident_start(c: char) -> bool {
    (97 <= c as u32 && c as u32 <= 122)  // 'a' ..= 'z'
    || (65 <= c as u32 && c as u32 <= 90)  // 'A' ..= 'Z'
    || (c as u32 > 127 && xid_start_beyond_ascii(c))
}

/// A character that may continue an identifier: an ASCII letter, an ASCII
/// digit, an underscore, or a character beyond ASCII with the XID_Continue
/// property.
pub open spec fn is_ident_continue(c: char) -> bool {
    (97 <= c as u32 && c as u32 <= 122)  // 'a' ..= 'z'
    || (65 <= c as u32 && c as u32 <= 90)  // 'A' ..= 'Z'
    || (48 <= c as u32 && c as u32 <= 57)  // '0' ..= '9'
    || c == '_'
    || (c as u32 > 127 && xid_continue_beyond_ascii(c))
}

/// A blank character: one of the six ASCII members of White_Space (tab, line
/// feed, vertical tab, form feed, carriage return, space), or a character
/// beyond ASCII with the White_Space property.
pub open spec fn is_blank(c: char) -> bool {
    (9 <= c as u32 && c as u32 <= 13)  // '\t', '\n', vertical tab, form feed, '\r'
    || c == ' '
    || (c as u32 > 127 && white_space_beyond_ascii(c))
}

/// An ASCII decimal digit.
pub open spec fn is_digit(c: char) -> bool {
    48 <= c as u32 && c as u32 <= 57  // '0' ..= '9'
}

/// Relies on unicode_xid's `UnicodeXID::is_xid_start` for `char`: its body
/// returns true exactly for ASCII letters and for characters above ASCII in
/// the XID_Start table.
#[verifier::external_body]
pub(crate) fn exec_is_ident_start(c: char) -> (r: bool)
    ensures
        r == is_ident_start(c),
        c as u32 > 127 ==> r == xid_start_beyond_ascii(c),
{
    unicode_xid::UnicodeXID::is_xid_start(c)
}

/// Relies on unicode_xid's `UnicodeXID::is_xid_continue` for `char`: its body
/// returns true exactly for ASCII letters, ASCII digits, underscore, and
/// characters above ASCII in the XID_Continue table.
#[verifier::external_body]
pub(crate) fn exec_is_ident_continue(c: char) -> (r: bool)
    ensures
        r == is_ident_continue(c),
        c as u32 > 127 ==> r == xid_continue_beyond_ascii(c),
{
    unicode_xid::UnicodeXID::is_xid_continue(c)
}

/// Relies on `char::is_whitespace` from std: it returns true exactly for the
/// characters with the Unicode White_Space property, whose ASCII members are
/// the six named at `is_blank`.
#[verifier::external_body]
pub(crate) fn exec_is_blank(c: char) -> (r: bool)
    ensures
        r == is_blank(c),
        c as u32 > 127 ==> r == white_space_beyond_ascii(c),
{
    c.is_whitespace()
}

/// An executable check for an ASCII decimal digit.
pub(crate) fn exec_is_digit(c: char) -> (r: bool)
    ensures
        r == is_digit(c),
{
    let u = c as u32;
    48 <= u && u <= 57
}

} // verus!
