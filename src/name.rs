//! Validation and normalisation of tag and attribute names.
use vstd::prelude::*;
use crate::encoding::Encoding;

verus! {

/// Why a tag name was refused.
#[derive(Debug, Clone, Copy, PartialEq, Eq, Structural)]
pub enum TagNameError {
    Empty,
    ForbiddenCharacter(char),
    InvalidFirstCharacter,
    UnencodableCharacter,
}

/// Why an attribute name was refused.
#[derive(Debug, Clone, Copy, PartialEq, Eq, Structural)]
pub enum AttributeNameError {
    Empty,
    ForbiddenCharacter(char),
    UnencodableCharacter,
}

/// Characters that end a name in markup: whitespace, `/` and `>`.
pub open spec fn is_name_delimiter(c: char) -> bool {
    c == ' ' || c == '\n' || c == '\r' || c == '\t' || c == '\x0C' || c == '/' || c == '>'
}

/// Characters that may not occur in a name; attribute names also exclude `=`.
pub open spec fn is_forbidden(c: char, in_attribute: bool) -> bool {
    is_name_delimiter(c) || (in_attribute && c == '=')
}

pub open spec fn is_ascii_letter(c: char) -> bool {
    ('a' <= c && c <= 'z') || ('A' <= c && c <= 'Z')
}

/// The first forbidden character of `s` at or after position `i`.
pub open spec fn first_forbidden_from(s: Seq<char>, i: int, in_attribute: bool) -> Option<char>
    decreases s.len() - i,
{
    if i < 0 || i >= s.len() {
        None
    } else if is_forbidden(s[i], in_attribute) {
        Some(s[i])
    } else {
        first_forbidden_from(s, i + 1, in_attribute)
    }
}

pub open spec fn first_forbidden(s: Seq<char>, in_attribute: bool) -> Option<char> {
    first_forbidden_from(s, 0, in_attribute)
}

pub open spec fn all_encodable(s: Seq<char>, enc: Encoding) -> bool {
    forall|i: int| 0 <= i < s.len() ==> enc.represents(#[trigger] s[i])
}

/// The outcome of validating `s` as a tag name: emptiness first, then the
/// first character, then the first forbidden character, then encodability.
pub open spec fn tag_name_verdict(s: Seq<char>, enc: Encoding) -> Result<(), TagNameError> {
    if s.len() == 0 {
        Err(TagNameError::Empty)
    } else if !is_ascii_letter(s[0]) {
        Err(TagNameError::InvalidFirstCharacter)
    } else {
        match first_forbidden(s, false) {
            Some(c) => Err(TagNameError::ForbiddenCharacter(c)),
            None => if all_encodable(s, enc) {
                Ok(())
            } else {
                Err(TagNameError::UnencodableCharacter)
            },
        }
    }
}

/// The outcome of validating `s` as an attribute name: as for tag names, but
/// with `=` forbidden too and no rule on the first character.
pub open spec fn attribute_name_verdict(s: Seq<char>, enc: Encoding) -> Result<
    (),
    AttributeNameError,
> {
    if s.len() == 0 {
        Err(AttributeNameError::Empty)
    } else {
        match first_forbidden(s, true) {
            Some(c) => Err(AttributeNameError::ForbiddenCharacter(c)),
            None => if all_encodable(s, enc) {
                Ok(())
            } else {
                Err(AttributeNameError::UnencodableCharacter)
            },
        }
    }
}

pub open spec fn ascii_lower(c: char) -> char {
    if 'A' <= c && c <= 'Z' {
        ((c as u32 + 32) as u32) as char
    } else {
        c
    }
}

/// A name normalised for matching: ASCII letters lowercased.
pub open spec fn lower(s: Seq<char>) -> Seq<char> {
    s.map_values(|c: char| ascii_lower(c))
}

fn lower_char(c: char) -> (r: char)
    ensures
        r == ascii_lower(c),
{
    if 'A' <= c && c <= 'Z' {
        ((c as u8) + 32) as char
    } else {
        c
    }
}

/// Relies on String::push: appends one character at the end.
#[verifier::external_body]
pub(crate) fn push_char(s: &mut String, c: char)
    ensures
        final(s)@ == old(s)@.push(c),
{
    s.push(c);
}

/// `s` with its ASCII letters lowercased.
pub fn to_lower(s: &str) -> (r: String)
    ensures
        r@ == lower(s@),
{
    let n = s.unicode_len();
    let mut r = String::new();
    let mut i: usize = 0;
    while i < n
        invariant
            n == s@.len(),
            i <= n,
            r@ == lower(s@.subrange(0, i as int)),
        decreases n - i,
    {
        let c = s.get_char(i);
        push_char(&mut r, lower_char(c));
        assert(lower(s@.subrange(0, i + 1)) =~= lower(s@.subrange(0, i as int)).push(
            ascii_lower(c),
        ));
        i += 1;
    }
    assert(s@.subrange(0, n as int) =~= s@);
    r
}

/// Scans `s` from the left for a forbidden character.
fn find_forbidden(s: &str, in_attribute: bool) -> (r: Option<char>)
    ensures
        r == first_forbidden(s@, in_attribute),
{
    let n = s.unicode_len();
    let mut i: usize = 0;
    while i < n
        invariant
            n == s@.len(),
            i <= n,
            first_forbidden(s@, in_attribute) == first_forbidden_from(s@, i as int, in_attribute),
        decreases n - i,
    {
        let c = s.get_char(i);
        if c == ' ' || c == '\n' || c == '\r' || c == '\t' || c == '\x0C' || c == '/' || c == '>'
            || (in_attribute && c == '=') {
            return Some(c);
        }
        i += 1;
    }
    None
}

/// Whether every character of `s` is representable in `enc`.
fn encodable(s: &str, enc: &Encoding) -> (r: bool)
    ensures
        r == all_encodable(s@, *enc),
{
    let n = s.unicode_len();
    let mut i: usize = 0;
    while i < n
        invariant
            n == s@.len(),
            i <= n,
            forall|k: int| 0 <= k < i ==> enc.represents(#[trigger] s@[k]),
        decreases n - i,
    {
        if !enc.can_encode(s.get_char(i)) {
            return false;
        }
        i += 1;
    }
    true
}

/// Checks `name` as a tag name under `enc`.
pub fn validate_tag_name(name: &str, enc: &Encoding) -> (r: Result<(), TagNameError>)
    ensures
        r == tag_name_verdict(name@, *enc),
{
    if name.unicode_len() == 0 {
        return Err(TagNameError::Empty);
    }
    let first = name.get_char(0);
    if !(('a' <= first && first <= 'z') || ('A' <= first && first <= 'Z')) {
        return Err(TagNameError::InvalidFirstCharacter);
    }
    match find_forbidden(name, false) {
        Some(c) => Err(TagNameError::ForbiddenCharacter(c)),
        None => if encodable(name, enc) {
            Ok(())
        } else {
            Err(TagNameError::UnencodableCharacter)
        },
    }
}

/// Checks `name` as an attribute name under `enc`.
pub fn validate_attribute_name(name: &str, enc: &Encoding) -> (r: Result<(), AttributeNameError>)
    ensures
        r == attribute_name_verdict(name@, *enc),
{
    if name.unicode_len() == 0 {
        return Err(AttributeNameError::Empty);
    }
    match find_forbidden(name, true) {
        Some(c) => Err(AttributeNameError::ForbiddenCharacter(c)),
        None => if encodable(name, enc) {
            Ok(())
        } else {
            Err(AttributeNameError::UnencodableCharacter)
        },
    }
}

/// The scan from `i` reports the first forbidden character at or after `i`,
/// and nothing when there is none.
pub proof fn lemma_first_forbidden_from(s: Seq<char>, i: int, k: int, in_attribute: bool)
    requires
        0 <= i <= k <= s.len(),
        forall|j: int| i <= j < k ==> !is_forbidden(#[trigger] s[j], in_attribute),
        k == s.len() || is_forbidden(s[k], in_attribute),
    ensures
        k < s.len() ==> first_forbidden_from(s, i, in_attribute) == Some(s[k]),
        k == s.len() ==> first_forbidden_from(s, i, in_attribute) is None,
    decreases k - i,
{
    if i < k {
        lemma_first_forbidden_from(s, i + 1, k, in_attribute);
    }
}

/// A tag name that starts with a letter and contains a forbidden character
/// is refused with the first such character, whatever the encoding; as a
/// refused name, it leaves the element's name unchanged.
pub proof fn lemma_forbidden_in_tag_name(s: Seq<char>, enc: Encoding, k: int)
    requires
        0 <= k < s.len(),
        is_ascii_letter(s[0]),
        is_name_delimiter(s[k]),
        forall|j: int| 0 <= j < k ==> !is_name_delimiter(#[trigger] s[j]),
    ensures
        tag_name_verdict(s, enc) == Err::<(), TagNameError>(TagNameError::ForbiddenCharacter(s[k])),
{
    lemma_first_forbidden_from(s, 0, k, false);
}

/// An attribute name that contains a forbidden character (`=` among them)
/// is refused with the first such character, whatever the encoding.
pub proof fn lemma_forbidden_in_attribute_name(s: Seq<char>, enc: Encoding, k: int)
    requires
        0 <= k < s.len(),
        is_forbidden(s[k], true),
        forall|j: int| 0 <= j < k ==> !is_forbidden(#[trigger] s[j], true),
    ensures
        attribute_name_verdict(s, enc) == Err::<(), AttributeNameError>(
            AttributeNameError::ForbiddenCharacter(s[k]),
        ),
{
    lemma_first_forbidden_from(s, 0, k, true);
}

/// A tag name that starts with a letter and holds no forbidden character,
/// but holds one that the encoding cannot represent, is refused as
/// unencodable: the forbidden-character scan comes first.
pub proof fn lemma_unencodable_tag_name(s: Seq<char>, enc: Encoding, k: int)
    requires
        0 <= k < s.len(),
        !enc.represents(s[k]),
        is_ascii_letter(s[0]),
        forall|j: int| 0 <= j < s.len() ==> !is_name_delimiter(#[trigger] s[j]),
    ensures
        tag_name_verdict(s, enc) == Err::<(), TagNameError>(TagNameError::UnencodableCharacter),
{
    lemma_first_forbidden_from(s, 0, s.len() as int, false);
}

/// An attribute name that holds no forbidden character, but one that the
/// encoding cannot represent, is refused as unencodable.
pub proof fn lemma_unencodable_attribute_name(s: Seq<char>, enc: Encoding, k: int)
    requires
        0 <= k < s.len(),
        !enc.represents(s[k]),
        forall|j: int| 0 <= j < s.len() ==> !is_forbidden(#[trigger] s[j], true),
    ensures
        attribute_name_verdict(s, enc) == Err::<(), AttributeNameError>(
            AttributeNameError::UnencodableCharacter,
        ),
{
    lemma_first_forbidden_from(s, 0, s.len() as int, true);
}

} // verus!
