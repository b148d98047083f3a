//! Identifiers: time-ordered UUIDs for new entities, and the check that an
//! identifier is safe to place in an object key.
use crate::error::ServiceError;
use crate::text::{ascii_alphanumeric, chars_of, utf8_len};
use uuid::Uuid;
use vstd::prelude::*;

verus! {

broadcast use vstd::string::group_string_axioms;

pub open spec fn is_lower_hex_digit(c: char) -> bool {
    ('0' <= c <= '9') || ('a' <= c <= 'f')
}

/// The hyphenated lowercase text of a version 7 UUID with the RFC 4122 variant:
/// `xxxxxxxx-xxxx-7xxx-Vxxx-xxxxxxxxxxxx` with `V` one of `8`, `9`, `a`, `b`.
pub open spec fn uuid_v7_text(s: Seq<char>) -> bool {
    &&& s.len() == 36
    &&& forall|k: int|
        0 <= k < 36 ==> if k == 8 || k == 13 || k == 18 || k == 23 {
            s[k] == '-'
        } else {
            is_lower_hex_digit(#[trigger] s[k])
        }
    &&& s[14] == '7'
    &&& (s[19] == '8' || s[19] == '9' || s[19] == 'a' || s[19] == 'b')
}

/// `Uuid::now_v7().to_string()`. Claims: the text is a hyphenated lowercase
/// version 7 UUID with the RFC 4122 variant. Which UUID comes back depends on
/// the clock and on chance, and nothing more is claimed of it.
#[verifier::external_body]
fn uuid_now_v7() -> (id: String)
    ensures
        uuid_v7_text(id@),
{
    Uuid::now_v7().to_string()
}

/// A character allowed in a safe identifier.
pub open spec fn safe_identifier_char(c: char) -> bool {
    ascii_alphanumeric(c) || c == '-' || c == '_' || c == '.' || c == ':'
}

/// Non-empty, at most 128 bytes, and only ASCII letters, digits, `-`, `_`, `.` and `:`.
pub open spec fn safe_identifier(s: Seq<char>) -> bool {
    &&& s.len() > 0
    &&& utf8_len(s) <= 128
    &&& forall|k: int| 0 <= k < s.len() ==> safe_identifier_char(#[trigger] s[k])
}

/// Makes identifiers for new entities.
#[derive(Clone, Copy, Debug, Default)]
pub struct IdGenerator;

impl IdGenerator {
    pub fn new() -> (r: IdGenerator) {
        IdGenerator
    }

    /// A new time-ordered identifier: the text of a fresh version 7 UUID.
    pub fn new_id(&self) -> (r: Result<String, ServiceError>)
        ensures
            r is Ok,
            r matches Ok(id) ==> uuid_v7_text(id@) && safe_identifier(id@),
    {
        let id = uuid_now_v7();
        proof {
            lemma_uuid_text_is_safe(id@);
        }
        Ok(id)
    }
}

/// The text of a UUID is a safe identifier.
pub proof fn lemma_uuid_text_is_safe(s: Seq<char>)
    requires
        uuid_v7_text(s),
    ensures
        safe_identifier(s),
{
    assert forall|k: int| 0 <= k < s.len() implies safe_identifier_char(#[trigger] s[k]) by {
        if !(k == 8 || k == 13 || k == 18 || k == 23) {
            assert(is_lower_hex_digit(s[k]));
        }
    }
    assert(vstd::utf8::is_ascii_chars(s)) by {
        assert forall|i| 0 <= i < s.len() implies '\0' <= #[trigger] s[i] <= '\u{7f}' by {
            assert(safe_identifier_char(s[i]));
        }
    }
    vstd::utf8::is_ascii_chars_encode_utf8(s);
}

fn is_safe_identifier_char(c: char) -> (r: bool)
    ensures
        r == safe_identifier_char(c),
{
    ('0' <= c && c <= '9') || ('A' <= c && c <= 'Z') || ('a' <= c && c <= 'z') || c == '-' || c
        == '_' || c == '.' || c == ':'
}

/// Whether `identifier` is safe to use as it is in an object key.
pub fn is_safe_identifier(identifier: &str) -> (r: bool)
    ensures
        r == safe_identifier(identifier@),
{
    let chars = chars_of(identifier);
    if chars.len() == 0 {
        return false;
    }
    let mut i: usize = 0;
    while i < chars.len()
        invariant
            i <= chars.len(),
            chars@ == identifier@,
            forall|k: int| 0 <= k < i ==> safe_identifier_char(#[trigger] chars@[k]),
        decreases chars.len() - i,
    {
        if !is_safe_identifier_char(chars[i]) {
            return false;
        }
        i = i + 1;
    }
    proof {
        assert(vstd::utf8::is_ascii_chars(chars@)) by {
            assert forall|j| 0 <= j < chars@.len() implies '\0' <= #[trigger] chars@[j]
                <= '\u{7f}' by {
                assert(safe_identifier_char(chars@[j]));
            }
        }
        vstd::utf8::is_ascii_chars_encode_utf8(chars@);
    }
    chars.len() <= 128
}

} // verus!
