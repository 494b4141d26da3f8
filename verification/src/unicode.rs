//! Character properties and case mappings, as the standard library and the
//! `unicode-width` crate define them.
//!
//! The large Unicode tables are not restated: each such property has a name
//! below, and what is known of it is the plain ASCII part. Whitespace is a
//! short list, and is written out.
use unicode_width::UnicodeWidthChar;
use vstd::prelude::*;

verus! {

/// What `char::is_alphanumeric` answers.
pub uninterp spec fn alphanumeric(c: char) -> bool;

/// What `char::is_uppercase` answers.
pub uninterp spec fn uppercase(c: char) -> bool;

/// The characters that `char::to_uppercase` yields.
pub uninterp spec fn upper_mapping(c: char) -> Seq<char>;

/// The characters that `char::to_lowercase` yields.
pub uninterp spec fn lower_mapping(c: char) -> Seq<char>;

/// What `UnicodeWidthChar::width` answers: display columns.
pub uninterp spec fn char_width(c: char) -> Option<usize>;

/// An ASCII letter or digit.
pub open spec fn ascii_alphanumeric(c: char) -> bool {
    ||| '0' <= c <= '9'
    ||| 'a' <= c <= 'z'
    ||| 'A' <= c <= 'Z'
}

/// `char::is_alphanumeric`: the answer depends on the character alone, and
/// among the ASCII characters it holds of the letters and digits.
pub assume_specification[ char::is_alphanumeric ](c: char) -> (r: bool)
    ensures
        r == alphanumeric(c),
        (c as u32) < 0x80 ==> r == ascii_alphanumeric(c),
;

/// A character with Unicode's `White_Space` property.
pub open spec fn whitespace(c: char) -> bool {
    let u = c as u32;
    ||| 0x9 <= u <= 0xd
    ||| u == 0x20
    ||| u == 0x85
    ||| u == 0xa0
    ||| u == 0x1680
    ||| 0x2000 <= u <= 0x200a
    ||| u == 0x2028
    ||| u == 0x2029
    ||| u == 0x202f
    ||| u == 0x205f
    ||| u == 0x3000
}

/// `char::is_whitespace`: holds of the characters with the `White_Space`
/// property, and of no other.
pub assume_specification[ char::is_whitespace ](c: char) -> (r: bool)
    ensures
        r == whitespace(c),
;

/// `char::is_uppercase`: the answer depends on the character alone, and among
/// the ASCII characters it holds of the capital letters.
pub assume_specification[ char::is_uppercase ](c: char) -> (r: bool)
    ensures
        r == uppercase(c),
        (c as u32) < 0x80 ==> r == ('A' <= c <= 'Z'),
;

/// `char::to_uppercase`, collected: one or more characters that depend on `c`
/// alone; an ASCII character maps to itself but for the small letters.
#[verifier::external_body]
pub(crate) fn to_upper(c: char) -> (r: Vec<char>)
    ensures
        r@ == upper_mapping(c),
        (c as u32) < 0x80 ==> r@ == seq![
            if 'a' <= c <= 'z' { ((c as u32 - 32) as u32) as char } else { c },
        ],
{
    c.to_uppercase().collect()
}

/// `char::to_lowercase`, collected: one or more characters that depend on `c`
/// alone; an ASCII character maps to itself but for the capital letters.
#[verifier::external_body]
pub(crate) fn to_lower(c: char) -> (r: Vec<char>)
    ensures
        r@ == lower_mapping(c),
        (c as u32) < 0x80 ==> r@ == seq![
            if 'A' <= c <= 'Z' { ((c as u32 + 32) as u32) as char } else { c },
        ],
{
    c.to_lowercase().collect()
}

/// A control character: U+0000 to U+001F and U+007F to U+009F.
pub open spec fn control(c: char) -> bool {
    (c as u32) < 0x20 || 0x7f <= c as u32 <= 0x9f
}

/// `UnicodeWidthChar::width`: `None` exactly for the control characters, one
/// column for printable ASCII, and a table entry that depends on the
/// character alone for the rest.
#[verifier::external_body]
pub(crate) fn width_of(c: char) -> (r: Option<usize>)
    ensures
        r == char_width(c),
        r is None <==> control(c),
        0x20 <= c as u32 <= 0x7e ==> r == Some(1usize),
{
    UnicodeWidthChar::width(c)
}

} // verus!
