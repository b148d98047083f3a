//! Page cursors: a position in a prefix scan (which minute window, and the
//! last key read in it), carried between requests as URL-safe base64 text
//! whose payload is the cursor's JSON.
use crate::error::ServiceError;
use crate::time::{valid_timestamp, UtcTime};
use base64::engine::general_purpose::URL_SAFE_NO_PAD;
use base64::Engine;
use vstd::prelude::*;

verus! {

broadcast use vstd::string::group_string_axioms;

/// The cursor format version this code writes and accepts.
pub const VERSION: u16 = 1;

/// The order in which a scan walks the minute windows.
#[derive(Clone, Copy, Debug, PartialEq, Eq, Structural)]
pub enum Direction {
    NewestFirst,
    OldestFirst,
}

/// A position in a prefix scan.
#[derive(Clone, Debug)]
pub struct Cursor {
    pub version: u16,
    pub kind: String,
    pub owner: String,
    pub direction: Direction,
    pub window: UtcTime,
    pub last_object_key: String,
    pub page_size: usize,
}

/// The start of the minute that holds `t`, in seconds since the epoch.
pub open spec fn minute_start(t: UtcTime) -> int {
    t.secs() - t.secs() % 60
}

/// The seconds of the window after `window` in `direction`.
pub open spec fn next_window_secs(window: UtcTime, direction: Direction) -> int {
    match direction {
        Direction::OldestFirst => minute_start(window) + 60,
        Direction::NewestFirst => minute_start(window) - 60,
    }
}

/// `instant` with its second and nanosecond set to zero.
pub fn truncate_to_minute(instant: UtcTime) -> (r: UtcTime)
    ensures
        r.secs() == minute_start(instant),
        r.subsec() == 0,
        r.secs() % 60 == 0,
        r.secs() / 60 == instant.secs() / 60,
{
    let r = instant.truncate_to_minute();
    proof {
        vstd::arithmetic::div_mod::lemma_fundamental_div_mod(instant.secs(), 60);
        assert(r.secs() == 60 * (instant.secs() / 60));
        vstd::arithmetic::div_mod::lemma_mod_multiples_basic(instant.secs() / 60, 60);
        vstd::arithmetic::div_mod::lemma_div_multiples_vanish(instant.secs() / 60, 60);
    }
    r
}

/// The window that follows `window` in `direction`: one minute later for
/// oldest-first scans, one minute earlier for newest-first scans, counted from
/// the start of `window`'s minute.
pub fn next_window(window: UtcTime, direction: Direction) -> (r: UtcTime)
    requires
        valid_timestamp(next_window_secs(window, direction), 0),
    ensures
        r.secs() == next_window_secs(window, direction),
        r.subsec() == 0,
        r.secs() % 60 == 0,
{
    let start = truncate_to_minute(window);
    let minutes: i64 = match direction {
        Direction::OldestFirst => 1,
        Direction::NewestFirst => -1,
    };
    let moved = start.checked_add_minutes(minutes);
    proof {
        vstd::arithmetic::div_mod::lemma_fundamental_div_mod(window.secs(), 60);
        assert(start.secs() + 60 * minutes == 60 * (window.secs() / 60 + minutes));
        vstd::arithmetic::div_mod::lemma_mod_multiples_basic(window.secs() / 60 + minutes, 60);
    }
    match moved {
        Some(t) => t,
        None => {
            proof {
                assert(false);
            }
            start
        },
    }
}

/// The window that follows `window` in `direction`, if it can be represented.
pub fn checked_next_window(window: UtcTime, direction: Direction) -> (r: Option<UtcTime>)
    ensures
        r is Some <==> valid_timestamp(next_window_secs(window, direction), 0),
        r matches Some(t) ==> t.secs() == next_window_secs(window, direction) && t.subsec() == 0,
{
    let start = truncate_to_minute(window);
    let minutes: i64 = match direction {
        Direction::OldestFirst => 1,
        Direction::NewestFirst => -1,
    };
    start.checked_add_minutes(minutes)
}

/// Moving a window forward and then back returns the start of its minute.
pub proof fn lemma_next_window_round_trip(window: UtcTime, forward: UtcTime)
    requires
        forward.secs() == next_window_secs(window, Direction::OldestFirst),
        forward.subsec() == 0,
    ensures
        next_window_secs(forward, Direction::NewestFirst) == minute_start(window),
        next_window_secs(window, Direction::NewestFirst) < minute_start(window)
            < next_window_secs(window, Direction::OldestFirst),
{
    vstd::arithmetic::div_mod::lemma_fundamental_div_mod(window.secs(), 60);
    let m = window.secs() / 60;
    assert(forward.secs() == 60 * (m + 1));
    vstd::arithmetic::div_mod::lemma_mod_multiples_basic(m + 1, 60);
}

/// The cursor that starts a scan of `owner`'s `kind` at the minute of `window`.
pub fn initial(
    kind: &str,
    owner: &str,
    direction: Direction,
    window: UtcTime,
    page_size: usize,
) -> (r: Cursor)
    ensures
        r.version == VERSION,
        r.kind@ == kind@,
        r.owner@ == owner@,
        r.direction == direction,
        r.window.secs() == minute_start(window),
        r.window.subsec() == 0,
        r.last_object_key@.len() == 0,
        r.page_size == page_size,
{
    Cursor {
        version: VERSION,
        kind: kind.to_string(),
        owner: owner.to_string(),
        direction,
        window: truncate_to_minute(window),
        last_object_key: String::new(),
        page_size,
    }
}

// ---------------------------------------------------------------------
// The text frame.
// ---------------------------------------------------------------------

/// The URL-safe, unpadded base64 text of `data`, as the `base64` crate writes it.
pub uninterp spec fn base64url_encoded(data: Seq<u8>) -> Seq<char>;

/// The bytes that URL-safe, unpadded base64 `text` stands for; `None` if it is not such text.
pub uninterp spec fn base64url_decoded(text: Seq<char>) -> Option<Seq<u8>>;

#[verifier::external_type_specification]
#[verifier::external_body]
pub struct ExDecodeError(base64::DecodeError);

/// `URL_SAFE_NO_PAD.encode`. Claims: the text is `base64url_encoded(data)`,
/// it is empty exactly when `data` is, and decoding it gives `data` back.
#[verifier::external_body]
fn base64_url_encode(data: &[u8]) -> (text: String)
    ensures
        text@ == base64url_encoded(data@),
        text@.len() == 0 <==> data@.len() == 0,
        base64url_decoded(text@) == Some(data@),
{
    URL_SAFE_NO_PAD.encode(data)
}

/// `URL_SAFE_NO_PAD.decode`. Claims: it succeeds exactly when
/// `base64url_decoded(text)` is some bytes, and then returns them.
#[verifier::external_body]
fn base64_url_decode(text: &str) -> (r: Result<Vec<u8>, base64::DecodeError>)
    ensures
        r is Ok <==> base64url_decoded(text@) is Some,
        r matches Ok(bytes) ==> base64url_decoded(text@) == Some(bytes@),
{
    URL_SAFE_NO_PAD.decode(text)
}

/// The payload that a cursor text carries; none for the empty text.
pub open spec fn frame_payload(raw: Seq<char>) -> Option<Seq<u8>> {
    if raw.len() == 0 {
        None
    } else {
        base64url_decoded(raw)
    }
}

/// The cursor text for a cursor's JSON bytes. A non-empty payload framed here
/// is read back unchanged by `decode_frame`.
pub fn encode_frame(payload: &[u8]) -> (text: String)
    ensures
        text@ == base64url_encoded(payload@),
        payload@.len() > 0 ==> frame_payload(text@) == Some(payload@),
{
    base64_url_encode(payload)
}

/// The JSON bytes a cursor text carries; `InvalidCursor` for the empty text or
/// text that is not URL-safe unpadded base64.
pub fn decode_frame(raw: &str) -> (r: Result<Vec<u8>, ServiceError>)
    ensures
        r is Ok <==> frame_payload(raw@) is Some,
        r matches Ok(bytes) ==> frame_payload(raw@) == Some(bytes@),
        r matches Err(e) ==> e == ServiceError::InvalidCursor,
{
    if raw.is_empty() {
        return Err(ServiceError::InvalidCursor);
    }
    match base64_url_decode(raw) {
        Ok(bytes) => Ok(bytes),
        Err(_) => Err(ServiceError::InvalidCursor),
    }
}

/// A decoded cursor is usable when it has this code's version, a kind, an owner
/// and a page size.
pub open spec fn usable_cursor(version: u16, kind: Seq<char>, owner: Seq<char>, page_size: usize) -> bool {
    version == VERSION && kind.len() > 0 && owner.len() > 0 && page_size > 0
}

/// `cursor` if it is usable, else `InvalidCursor`.
pub fn check_decoded(cursor: Cursor) -> (r: Result<Cursor, ServiceError>)
    ensures
        r is Ok <==> usable_cursor(cursor.version, cursor.kind@, cursor.owner@, cursor.page_size),
        r is Ok <==> (cursor.version == VERSION && cursor.kind@.len() > 0 && cursor.owner@.len() > 0
            && cursor.page_size > 0),
        r matches Ok(c) ==> c == cursor,
        r matches Err(e) ==> e == ServiceError::InvalidCursor,
{
    if cursor.version != VERSION || cursor.kind.as_str().is_empty() || cursor.owner.as_str().is_empty()
        || cursor.page_size == 0 {
        return Err(ServiceError::InvalidCursor);
    }
    Ok(cursor)
}

/// `cursor` as it is written: stamped with this code's version.
pub fn for_encoding(cursor: Cursor) -> (r: Cursor)
    ensures
        r.version == VERSION,
        r.kind == cursor.kind,
        r.owner == cursor.owner,
        r.direction == cursor.direction,
        r.window == cursor.window,
        r.last_object_key == cursor.last_object_key,
        r.page_size == cursor.page_size,
{
    let mut cursor = cursor;
    cursor.version = VERSION;
    cursor
}

} // verus!
