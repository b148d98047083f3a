//! Object keys: the storage layout of messages, references, threads,
//! broadcasts, read states, attachments and operation records, and the
//! normalization of caller-supplied identifiers into key segments.
use crate::text::{
    alphanumeric, append_chars, append_str, ascii_alphanumeric, ascii_lower, blank, char_is_alphanumeric, char_to_lowercase,
    char_width, chars_equal, chars_of, digit_char, hex_digit, is_ascii_char, is_prefix, lemma_char_width, lemma_padded_order, lex_less,
    pow10, copy_range, hex_lower, hex_lower_chars, lemma_utf8_len_concat,
    lemma_utf8_len_empty, lemma_utf8_len_push, lowercase_of, padded_decimal, padded_decimal_chars,
    padded_signed, padded_signed_chars, string_of, trim_by, trim_chars, trim_flagged,
    trim_end_by, trim_start_by, trim_start_flagged, trim_ws, utf8_len, lemma_trim_start_first,
    lemma_trim_start_noop, lemma_trim_by_edges, white_space, lemma_trim_by_idempotent,
};
use crate::time::{
    day_of, hour_of, lemma_same_minute_fields, millis_of, minute_of, month_of,
    second_of, valid_timestamp, year_of, UtcTime, MAX_SECONDS,
};
use sha2::Digest;
use vstd::prelude::*;
use vstd::utf8::encode_utf8;

verus! {

broadcast use vstd::string::group_string_axioms;

/// The largest feed timestamp; feed keys count down from it so that newer entries sort first.
pub const MAX_TIMESTAMP_MILLIS: i64 = 9_999_999_999_999_999;

/// The most UTF-8 bytes a normalized key segment may take.
pub const MAX_NORMALIZED_SEGMENT_BYTES: usize = 96;

/// The number of hex digits of the hash that marks a lossy normalization.
pub const HASH_SUFFIX_BYTES: usize = 16;

// ---------------------------------------------------------------------
// SHA-256.
// ---------------------------------------------------------------------

/// The SHA-256 digest of `data`, as the `sha2` crate computes it.
pub uninterp spec fn sha256_of(data: Seq<u8>) -> Seq<u8>;

/// `sha2::Sha256::digest`. Claims: the digest is `sha256_of(data)` and is 32
/// bytes long. The digest's value is left to the name.
#[verifier::external_body]
fn sha256_digest(data: &[u8]) -> (digest: Vec<u8>)
    ensures
        digest@ == sha256_of(data@),
        digest@.len() == 32,
{
    sha2::Sha256::digest(data).to_vec()
}

// ---------------------------------------------------------------------
// Specification of the normalization.
// ---------------------------------------------------------------------

/// Characters a key segment keeps as they are.
pub open spec fn keep_char(c: char) -> bool {
    alphanumeric(c) || c == '-' || c == '_' || c == '.'
}

pub open spec fn dash_or_dot(c: char) -> bool {
    c == '-' || c == '.'
}

/// The lowercase mapping of every character of `s`, in order.
pub open spec fn lowered(s: Seq<char>) -> Seq<char>
    decreases s.len(),
{
    if s.len() == 0 {
        Seq::empty()
    } else {
        lowered(s.drop_last()) + lowercase_of(s.last())
    }
}

/// Keeps the characters of `keep_char`, replaces each run of other characters by
/// one `'-'`; the flag tells whether the last character read was replaced.
pub open spec fn collapse(s: Seq<char>) -> (Seq<char>, bool)
    decreases s.len(),
{
    if s.len() == 0 {
        (Seq::empty(), false)
    } else {
        let (acc, replaced) = collapse(s.drop_last());
        let c = s.last();
        if keep_char(c) {
            (acc.push(c), false)
        } else if !replaced {
            (acc.push('-'), true)
        } else {
            (acc, true)
        }
    }
}

/// The segment that `raw` reduces to: lowercased, runs of other characters
/// collapsed to `'-'`, leading and trailing `'-'` and `'.'` dropped, and
/// `fallback` if nothing is left.
pub open spec fn sanitize_spec(raw: Seq<char>, fallback: Seq<char>) -> Seq<char> {
    let t = trim_by(collapse(lowered(raw)).0, |c: char| dash_or_dot(c));
    if t.len() == 0 {
        fallback
    } else {
        t
    }
}

/// The first sixteen lowercase hex digits of the SHA-256 digest of the UTF-8 bytes of `v`.
pub open spec fn short_hash_spec(v: Seq<char>) -> Seq<char> {
    hex_lower(sha256_of(encode_utf8(v)).take(8))
}

/// How many leading characters of `v` fit in `max` UTF-8 bytes.
pub open spec fn fit_count(v: Seq<char>, max: int) -> nat
    decreases v.len(),
{
    if v.len() == 0 || char_width(v[0]) > max {
        0
    } else {
        1 + fit_count(v.drop_first(), max - char_width(v[0]))
    }
}

/// The longest prefix of `v` whose UTF-8 encoding takes at most `max` bytes.
pub open spec fn truncate_bytes(v: Seq<char>, max: int) -> Seq<char> {
    v.take(fit_count(v, max) as int)
}

/// A shortened `normalized` followed by `'-'` and the hash of `raw`.
pub open spec fn with_hash_suffix_spec(normalized: Seq<char>, raw: Seq<char>) -> Seq<char> {
    let p = trim_by(
        truncate_bytes(normalized, MAX_NORMALIZED_SEGMENT_BYTES - HASH_SUFFIX_BYTES - 1),
        |c: char| dash_or_dot(c),
    );
    let prefix = if p.len() == 0 {
        "id"@
    } else {
        p
    };
    prefix + seq!['-'] + short_hash_spec(raw)
}

/// The key segment for a caller-supplied identifier.
pub open spec fn normalize_external_id_spec(raw: Seq<char>) -> Seq<char> {
    let trimmed = trim_ws(raw);
    if trimmed.len() == 0 {
        "empty-"@ + short_hash_spec(raw)
    } else {
        let normalized = sanitize_spec(trimmed, "id"@);
        if normalized != trimmed || utf8_len(normalized) > MAX_NORMALIZED_SEGMENT_BYTES {
            with_hash_suffix_spec(normalized, trimmed)
        } else {
            normalized
        }
    }
}

/// The key segment for a file name.
pub open spec fn normalize_file_name_spec(raw: Seq<char>) -> Seq<char> {
    let normalized = sanitize_spec(trim_ws(raw), "file"@);
    if utf8_len(normalized) > MAX_NORMALIZED_SEGMENT_BYTES {
        with_hash_suffix_spec(normalized, trim_ws(raw))
    } else {
        normalized
    }
}

/// Whitespace around an identifier does not change its segment, so long as
/// something is left once it is trimmed.
pub proof fn lemma_external_id_ignores_surrounding_space(raw: Seq<char>)
    requires
        trim_ws(raw).len() > 0,
    ensures
        normalize_external_id_spec(trim_ws(raw)) == normalize_external_id_spec(raw),
{
    lemma_trim_ws_idempotent(raw);
}

/// Whitespace around a file name does not change its segment.
pub proof fn lemma_file_name_ignores_surrounding_space(raw: Seq<char>)
    ensures
        normalize_file_name_spec(trim_ws(raw)) == normalize_file_name_spec(raw),
{
    lemma_trim_ws_idempotent(raw);
}

proof fn lemma_trim_ws_idempotent(raw: Seq<char>)
    ensures
        trim_ws(trim_ws(raw)) == trim_ws(raw),
{
    lemma_trim_by_idempotent(raw, |c: char| white_space(c));
}

pub open spec fn is_slash(c: char) -> bool {
    c == '/'
}

/// The namespace prefix for a raw namespace: empty, or a normalized file-name segment.
pub open spec fn normalize_namespace_spec(raw: Seq<char>) -> Seq<char> {
    let trimmed = trim_by(trim_ws(raw), |c: char| is_slash(c));
    if trimmed.len() == 0 {
        Seq::empty()
    } else {
        normalize_file_name_spec(trimmed)
    }
}

/// `s` holds no `'/'`, so it stays within one level of the key hierarchy.
pub open spec fn no_slash(s: Seq<char>) -> bool {
    forall|k: int| 0 <= k < s.len() ==> s[k] != '/'
}

/// Every character of `s` is ASCII.
pub open spec fn all_ascii(s: Seq<char>) -> bool {
    vstd::utf8::is_ascii_chars(s)
}

/// The ASCII characters a key segment may hold: letters, digits, `-`, `_` and `.`.
pub open spec fn ascii_segment_char(c: char) -> bool {
    ascii_alphanumeric(c) || c == '-' || c == '_' || c == '.'
}

/// A character a key segment may hold: one that `char::is_alphanumeric`
/// accepts, or `-`, `_` or `.`; among ASCII characters only letters, digits,
/// `-`, `_` and `.`.
pub open spec fn segment_char(c: char) -> bool {
    &&& keep_char(c) || ascii_segment_char(c)
    &&& is_ascii_char(c) ==> ascii_segment_char(c)
}

/// Every character of `s` may stand in a key segment.
pub open spec fn segment_chars(s: Seq<char>) -> bool {
    forall|k: int| 0 <= k < s.len() ==> segment_char(#[trigger] s[k])
}

/// A lowercase hexadecimal digit.
pub open spec fn lower_hex_char(c: char) -> bool {
    ('0' <= c <= '9') || ('a' <= c <= 'f')
}

/// `s` ends with `'-'` and sixteen lowercase hexadecimal digits, after at
/// least one other character.
pub open spec fn hash_suffixed(s: Seq<char>) -> bool {
    &&& s.len() >= 18
    &&& s[s.len() - 17] == '-'
    &&& forall|k: int| s.len() - 16 <= k < s.len() ==> lower_hex_char(#[trigger] s[k])
}

/// The trimmed identifier is already a clean segment that fits, so it is kept as it is.
pub open spec fn keeps_trimmed(raw: Seq<char>) -> bool {
    let t = trim_ws(raw);
    &&& t.len() > 0
    &&& sanitize_spec(t, "id"@) == t
    &&& utf8_len(t) <= MAX_NORMALIZED_SEGMENT_BYTES
}

/// `s` neither starts nor ends with `'-'` or `'.'`.
pub open spec fn clean_edges(s: Seq<char>) -> bool {
    s.len() > 0 ==> !dash_or_dot(s[0]) && !dash_or_dot(s.last())
}

/// A segment of key characters holds no `'/'` and no `'\\'`.
pub proof fn lemma_segment_chars_no_separator(s: Seq<char>)
    requires
        segment_chars(s),
    ensures
        no_slash(s),
        forall|k: int| 0 <= k < s.len() ==> s[k] != '\\',
{
    assert forall|k: int| 0 <= k < s.len() implies s[k] != '/' && s[k] != '\\' by {
        assert(segment_char(s[k]));
    }
}

/// Lowercase ASCII text is made of key characters.
pub proof fn lemma_ascii_lower_segment(s: Seq<char>)
    requires
        forall|k: int| 0 <= k < s.len() ==> ascii_lower(#[trigger] s[k]) || s[k] == '-',
    ensures
        segment_chars(s),
{
}

/// Joining key-character texts gives key-character text.
pub proof fn lemma_segment_chars_concat(a: Seq<char>, b: Seq<char>)
    requires
        segment_chars(a),
        segment_chars(b),
    ensures
        segment_chars(a + b),
{
    assert forall|k: int| 0 <= k < (a + b).len() implies segment_char(#[trigger] (a + b)[k]) by {
        if k < a.len() {
            assert((a + b)[k] == a[k]);
        } else {
            assert((a + b)[k] == b[k - a.len()]);
        }
    }
}

pub proof fn lemma_ascii_utf8_len(s: Seq<char>)
    requires
        all_ascii(s),
    ensures
        utf8_len(s) == s.len(),
{
    vstd::utf8::is_ascii_chars_encode_utf8(s);
}

/// A hexadecimal digit is a decimal digit or one of `a` to `f`.
proof fn lemma_hex_digit_class(d: int)
    requires
        0 <= d < 16,
    ensures
        ascii_alphanumeric(hex_digit(d)),
        lower_hex_char(hex_digit(d)),
        hex_digit(d) <= '\u{7f}',
{
    if d < 10 {
        assert(((d + 48) as u8) as int == d + 48);
        assert('0' <= digit_char(d) <= '9');
    } else {
        assert(((d - 10 + 97) as u8) as int == d + 87);
        assert('a' <= hex_digit(d) <= 'f');
    }
}

pub proof fn lemma_hex_lower_shape(bytes: Seq<u8>)
    ensures
        hex_lower(bytes).len() == 2 * bytes.len(),
        all_ascii(hex_lower(bytes)),
        no_slash(hex_lower(bytes)),
        forall|k: int|
            0 <= k < hex_lower(bytes).len() ==> ascii_alphanumeric(#[trigger] hex_lower(bytes)[k])
                && lower_hex_char(hex_lower(bytes)[k]),
        segment_chars(hex_lower(bytes)),
    decreases bytes.len(),
{
    if bytes.len() > 0 {
        lemma_hex_lower_shape(bytes.drop_last());
        let h = hex_lower(bytes.drop_last());
        let b = bytes.last();
        let t = seq![hex_digit((b / 16) as int), hex_digit((b % 16) as int)];
        assert(hex_lower(bytes) == h + t);
        assert forall|k: int| 0 <= k < (h + t).len() implies '\0' <= #[trigger] (h + t)[k] <= '\u{7f}'
            && (h + t)[k] != '/' && ascii_alphanumeric((h + t)[k]) && lower_hex_char((h + t)[k]) by {
            if k < h.len() {
                assert((h + t)[k] == h[k]);
            } else {
                assert((h + t)[k] == t[k - h.len()]);
                lemma_hex_digit_class((b / 16) as int);
                lemma_hex_digit_class((b % 16) as int);
            }
        }
    }
}

pub proof fn lemma_short_hash_shape(v: Seq<char>)
    requires
        sha256_of(encode_utf8(v)).len() == 32,
    ensures
        short_hash_spec(v).len() == 16,
        utf8_len(short_hash_spec(v)) == 16,
        all_ascii(short_hash_spec(v)),
        no_slash(short_hash_spec(v)),
        segment_chars(short_hash_spec(v)),
        clean_edges(short_hash_spec(v)),
        forall|k: int| 0 <= k < 16 ==> lower_hex_char(#[trigger] short_hash_spec(v)[k]),
{
    lemma_hex_lower_shape(sha256_of(encode_utf8(v)).take(8));
    lemma_ascii_utf8_len(short_hash_spec(v));
    let h = short_hash_spec(v);
    assert(ascii_alphanumeric(h[0]) && ascii_alphanumeric(h[h.len() - 1]));
}

/// Trimming keeps only characters of the trimmed text.
pub proof fn lemma_trim_keeps(s: Seq<char>, p: spec_fn(char) -> bool, q: spec_fn(char) -> bool)
    requires
        forall|k: int| 0 <= k < s.len() ==> q(#[trigger] s[k]),
    ensures
        forall|k: int|
            0 <= k < trim_by(s, p).len() ==> q(#[trigger] trim_by(s, p)[k]),
        utf8_len(trim_by(s, p)) <= utf8_len(s),
{
    lemma_trim_start_keeps(s, p, q);
    lemma_trim_end_keeps(trim_start_by(s, p), p, q);
}

proof fn lemma_trim_start_keeps(s: Seq<char>, p: spec_fn(char) -> bool, q: spec_fn(char) -> bool)
    requires
        forall|k: int| 0 <= k < s.len() ==> q(#[trigger] s[k]),
    ensures
        forall|k: int|
            0 <= k < trim_start_by(s, p).len() ==> q(#[trigger] trim_start_by(s, p)[k]),
        utf8_len(trim_start_by(s, p)) <= utf8_len(s),
    decreases s.len(),
{
    if s.len() > 0 && p(s[0]) {
        let rest = s.drop_first();
        assert forall|k: int| 0 <= k < rest.len() implies q(#[trigger] rest[k]) by {
            assert(rest[k] == s[k + 1]);
        }
        lemma_trim_start_keeps(rest, p, q);
        assert(s =~= seq![s[0]] + rest);
        lemma_utf8_len_concat(seq![s[0]], rest);
    }
}

proof fn lemma_trim_end_keeps(s: Seq<char>, p: spec_fn(char) -> bool, q: spec_fn(char) -> bool)
    requires
        forall|k: int| 0 <= k < s.len() ==> q(#[trigger] s[k]),
    ensures
        forall|k: int|
            0 <= k < trim_end_by(s, p).len() ==> q(#[trigger] trim_end_by(s, p)[k]),
        utf8_len(trim_end_by(s, p)) <= utf8_len(s),
    decreases s.len(),
{
    if s.len() > 0 && p(s.last()) {
        let rest = s.drop_last();
        assert forall|k: int| 0 <= k < rest.len() implies q(#[trigger] rest[k]) by {
            assert(rest[k] == s[k]);
        }
        lemma_trim_end_keeps(rest, p, q);
        assert(s =~= rest.push(s.last()));
        lemma_utf8_len_push(rest, s.last());
    }
}

/// The truncated prefix fits in `max` bytes.
pub proof fn lemma_truncate_fits(v: Seq<char>, max: int)
    requires
        max >= 0,
    ensures
        utf8_len(truncate_bytes(v, max)) <= max,
        fit_count(v, max) <= v.len(),
    decreases v.len(),
{
    let k = fit_count(v, max);
    if v.len() == 0 || char_width(v[0]) > max {
        assert(v.take(0) =~= Seq::<char>::empty());
        lemma_utf8_len_empty();
    } else {
        let w = char_width(v[0]);
        lemma_truncate_fits(v.drop_first(), max - w);
        assert(v.take(k as int) =~= seq![v[0]] + v.drop_first().take(k - 1));
        lemma_utf8_len_concat(seq![v[0]], v.drop_first().take(k - 1));
        lemma_char_width(v[0]);
    }
}

// ---------------------------------------------------------------------
// Normalization.
// ---------------------------------------------------------------------

proof fn lemma_lowered_push(s: Seq<char>, c: char)
    ensures
        lowered(s.push(c)) == lowered(s) + lowercase_of(c),
{
    assert(s.push(c).drop_last() =~= s);
}

/// The lowercase mapping of every character of `raw`.
fn lower_all(raw: &Vec<char>) -> (out: Vec<char>)
    ensures
        out@ == lowered(raw@),
{
    let mut out: Vec<char> = Vec::new();
    let mut i: usize = 0;
    while i < raw.len()
        invariant
            i <= raw.len(),
            out@ == lowered(raw@.take(i as int)),
        decreases raw.len() - i,
    {
        let low = char_to_lowercase(raw[i]);
        proof {
            assert(raw@.take(i + 1) =~= raw@.take(i as int).push(raw@[i as int]));
            lemma_lowered_push(raw@.take(i as int), raw@[i as int]);
        }
        append_chars(&mut out, &low);
        i = i + 1;
    }
    assert(raw@.take(raw.len() as int) =~= raw@);
    out
}

/// `collapse` on `s`: keeps the key characters and turns each run of others into one `'-'`.
fn collapse_runs(s: &Vec<char>) -> (out: Vec<char>)
    ensures
        out@ == collapse(s@).0,
        no_slash(out@),
        segment_chars(out@),
{
    let mut out: Vec<char> = Vec::new();
    let mut previous_dash = false;
    let mut i: usize = 0;
    while i < s.len()
        invariant
            i <= s.len(),
            (out@, previous_dash) == collapse(s@.take(i as int)),
            no_slash(out@),
            segment_chars(out@),
        decreases s.len() - i,
    {
        let c = s[i];
        let alnum = char_is_alphanumeric(c);
        proof {
            assert(s@.take(i + 1).drop_last() =~= s@.take(i as int));
            assert(s@.take(i + 1).last() == c);
        }
        if alnum || c == '-' || c == '_' || c == '.' {
            out.push(c);
            previous_dash = false;
        } else if !previous_dash {
            out.push('-');
            previous_dash = true;
        }
        i = i + 1;
    }
    assert(s@.take(s.len() as int) =~= s@);
    out
}

/// Drops leading and trailing `'-'` and `'.'`.
fn trim_dashes_and_dots(s: &Vec<char>) -> (out: Vec<char>)
    ensures
        out@ == trim_by(s@, |c: char| dash_or_dot(c)),
{
    let mut flags: Vec<bool> = Vec::new();
    let mut i: usize = 0;
    while i < s.len()
        invariant
            i <= s.len(),
            flags.len() == i,
            forall|k: int| 0 <= k < i ==> flags[k] == dash_or_dot(#[trigger] s[k]),
        decreases s.len() - i,
    {
        flags.push(s[i] == '-' || s[i] == '.');
        i = i + 1;
    }
    trim_flagged(s, &flags, Ghost(|c: char| dash_or_dot(c)))
}

/// Reduces `raw` to key characters; `fallback` when nothing is left.
fn sanitize_key_segment_chars(raw: &Vec<char>, fallback: &str) -> (out: Vec<char>)
    ensures
        out@ == sanitize_spec(raw@, fallback@),
        no_slash(fallback@) ==> no_slash(out@),
        fallback@.len() > 0 ==> out@.len() > 0,
        segment_chars(fallback@) ==> segment_chars(out@),
        clean_edges(fallback@) ==> clean_edges(out@),
{
    let lowered_chars = lower_all(raw);
    let collapsed = collapse_runs(&lowered_chars);
    let trimmed = trim_dashes_and_dots(&collapsed);
    proof {
        lemma_trim_keeps(collapsed@, |c: char| dash_or_dot(c), |c: char| c != '/');
        lemma_trim_keeps(collapsed@, |c: char| dash_or_dot(c), |c: char| segment_char(c));
        lemma_trim_by_edges(collapsed@, |c: char| dash_or_dot(c));
    }
    if trimmed.len() == 0 {
        chars_of(fallback)
    } else {
        trimmed
    }
}

/// Whether the UTF-8 encoding of `s` takes more than `limit` bytes.
fn utf8_len_exceeds(s: &Vec<char>, limit: usize) -> (r: bool)
    ensures
        r == (utf8_len(s@) > limit),
{
    let mut total: usize = 0;
    let mut i: usize = 0;
    proof {
        lemma_utf8_len_empty();
        assert(s@.take(0) =~= Seq::<char>::empty());
    }
    while i < s.len()
        invariant
            i <= s.len(),
            total == utf8_len(s@.take(i as int)),
            total <= limit,
        decreases s.len() - i,
    {
        let w = char_len_utf8(s[i]);
        proof {
            assert(s@.take(i + 1) =~= s@.take(i as int).push(s@[i as int]));
            lemma_utf8_len_push(s@.take(i as int), s@[i as int]);
        }
        if w > limit - total {
            proof {
                lemma_utf8_len_prefix_le(s@, i + 1);
            }
            return true;
        }
        total = total + w;
        i = i + 1;
    }
    assert(s@.take(s.len() as int) =~= s@);
    false
}

/// `char::len_utf8`.
fn char_len_utf8(c: char) -> (w: usize)
    ensures
        w == char_width(c),
{
    let v = c as u32;
    if v < 0x80 {
        1
    } else if v < 0x800 {
        2
    } else if v < 0x10000 {
        3
    } else {
        4
    }
}

/// A prefix takes no more bytes than the whole.
pub proof fn lemma_utf8_len_prefix_le(s: Seq<char>, k: int)
    requires
        0 <= k <= s.len(),
    ensures
        utf8_len(s.take(k)) <= utf8_len(s),
{
    assert(s =~= s.take(k) + s.skip(k));
    lemma_utf8_len_concat(s.take(k), s.skip(k));
}

proof fn lemma_fit_count_step(v: Seq<char>, max: int, i: int, used: int)
    requires
        0 <= i < v.len(),
        used == utf8_len(v.take(i)),
        fit_count(v, max) == i + fit_count(v.skip(i), max - used),
        char_width(v[i]) <= max - used,
    ensures
        fit_count(v, max) == (i + 1) + fit_count(v.skip(i + 1), max - used - char_width(v[i])),
{
    assert(v.skip(i).drop_first() =~= v.skip(i + 1));
    assert(v.skip(i)[0] == v[i]);
}

/// The longest prefix of `value` that fits in `max_bytes` UTF-8 bytes.
fn truncate_to_boundary_chars(value: &Vec<char>, max_bytes: usize) -> (out: Vec<char>)
    ensures
        out@ == truncate_bytes(value@, max_bytes as int),
{
    let mut used: usize = 0;
    let mut i: usize = 0;
    proof {
        lemma_utf8_len_empty();
        assert(value@.take(0) =~= Seq::<char>::empty());
        assert(value@.skip(0) =~= value@);
    }
    while i < value.len()
        invariant
            i <= value.len(),
            used == utf8_len(value@.take(i as int)),
            used <= max_bytes,
            fit_count(value@, max_bytes as int) == i + fit_count(
                value@.skip(i as int),
                max_bytes - used,
            ),
        ensures
            i <= value.len(),
            fit_count(value@, max_bytes as int) == i,
        decreases value.len() - i,
    {
        let w = char_len_utf8(value[i]);
        if w > max_bytes - used {
            proof {
                assert(value@.skip(i as int)[0] == value@[i as int]);
                assert(fit_count(value@.skip(i as int), max_bytes - used) == 0);
            }
            break ;
        }
        proof {
            lemma_fit_count_step(value@, max_bytes as int, i as int, used as int);
            assert(value@.take(i + 1) =~= value@.take(i as int).push(value@[i as int]));
            lemma_utf8_len_push(value@.take(i as int), value@[i as int]);
        }
        used = used + w;
        i = i + 1;
        proof {
            if i == value.len() {
                assert(value@.skip(i as int).len() == 0);
            }
        }
    }
    copy_range(value, 0, i)
}

/// The lowercase hex text of the SHA-256 digest of `value`'s UTF-8 bytes.
pub fn sha256_hex(value: &str) -> (out: String)
    ensures
        out@ == hex_lower(sha256_of(encode_utf8(value@))),
{
    let digest = sha256_digest(value.as_bytes());
    string_of(&hex_lower_chars(digest.as_slice()))
}

/// The first sixteen hex digits of the SHA-256 digest of `value`'s UTF-8 bytes.
fn short_hash(value: &str) -> (out: Vec<char>)
    ensures
        out@ == short_hash_spec(value@),
        out@.len() == 16,
        utf8_len(out@) == 16,
        no_slash(out@),
        segment_chars(out@),
        clean_edges(out@),
        forall|k: int| 0 <= k < 16 ==> lower_hex_char(#[trigger] out@[k]),
{
    let bytes = value.as_bytes();
    let digest = sha256_digest(bytes);
    let mut head: Vec<u8> = Vec::new();
    let mut i: usize = 0;
    while i < 8
        invariant
            i <= 8,
            digest@.len() == 32,
            head@ == digest@.take(i as int),
        decreases 8 - i,
    {
        head.push(digest[i]);
        assert(digest@.take(i + 1) =~= digest@.take(i as int).push(digest@[i as int]));
        i = i + 1;
    }
    proof {
        lemma_short_hash_shape(value@);
    }
    hex_lower_chars(head.as_slice())
}

/// `normalized` shortened to leave room for `'-'` and the hash of `raw`, then both appended.
fn with_hash_suffix_chars(normalized: &Vec<char>, raw: &Vec<char>) -> (out: Vec<char>)
    ensures
        out@ == with_hash_suffix_spec(normalized@, raw@),
        no_slash(normalized@) ==> no_slash(out@),
        segment_chars(normalized@) ==> segment_chars(out@),
        clean_edges(out@),
        hash_suffixed(out@),
        out@.len() > 0,
        utf8_len(out@) <= MAX_NORMALIZED_SEGMENT_BYTES,
{
    let raw_string = string_of(raw);
    let hash = short_hash(raw_string.as_str());
    let max_prefix_bytes = MAX_NORMALIZED_SEGMENT_BYTES - HASH_SUFFIX_BYTES - 1;
    let truncated = truncate_to_boundary_chars(normalized, max_prefix_bytes);
    let trimmed = trim_dashes_and_dots(&truncated);
    proof {
        lemma_truncate_fits(normalized@, max_prefix_bytes as int);
        lemma_trim_keeps(truncated@, |c: char| dash_or_dot(c), |c: char| true);
        if no_slash(normalized@) {
            lemma_trim_keeps(truncated@, |c: char| dash_or_dot(c), |c: char| c != '/');
        }
        if segment_chars(normalized@) {
            assert forall|k: int| 0 <= k < truncated@.len() implies segment_char(
                #[trigger] truncated@[k],
            ) by {
                assert(truncated@[k] == normalized@[k]);
            }
            lemma_trim_keeps(truncated@, |c: char| dash_or_dot(c), |c: char| segment_char(c));
        }
        lemma_trim_by_edges(truncated@, |c: char| dash_or_dot(c));
        reveal_strlit("id");
        lemma_ascii_utf8_len("id"@);
    }
    let mut out = if trimmed.len() == 0 {
        chars_of("id")
    } else {
        trimmed
    };
    let ghost prefix = out@;
    out.push('-');
    proof {
        lemma_utf8_len_push(prefix, '-');
    }
    let ghost dashed = out@;
    append_chars(&mut out, &hash);
    proof {
        lemma_utf8_len_concat(dashed, hash@);
        assert(out@[0] == prefix[0]);
        assert(out@.last() == hash@.last());
        assert(out@[out@.len() - 17] == '-');
        assert forall|k: int| out@.len() - 16 <= k < out@.len() implies lower_hex_char(
            #[trigger] out@[k],
        ) by {
            assert(out@[k] == hash@[k - dashed.len()]);
        }
        if segment_chars(normalized@) {
            lemma_ascii_lower_segment(seq!['-']);
            lemma_segment_chars_concat(prefix, seq!['-']);
            assert(dashed =~= prefix + seq!['-']);
            lemma_segment_chars_concat(dashed, hash@);
        }
        if no_slash(normalized@) {
            assert forall|k: int| 0 <= k < out@.len() implies out@[k] != '/' by {
                if k >= dashed.len() {
                    assert(out@[k] == hash@[k - dashed.len()]);
                }
            }
        }
    }
    out
}

/// The key segment for a caller-supplied identifier: its trimmed form when that
/// is already a clean lowercase segment of at most 96 bytes, else a cleaned,
/// shortened form with a hash of the trimmed identifier appended; for a blank
/// identifier, `"empty-"` and a hash of it.
pub fn normalize_external_id(raw: &str) -> (out: String)
    ensures
        out@ == normalize_external_id_spec(raw@),
        keeps_trimmed(raw@) ==> out@ == trim_ws(raw@),
        !keeps_trimmed(raw@) ==> hash_suffixed(out@),
        no_slash(out@),
        segment_chars(out@),
        clean_edges(out@),
        out@.len() > 0,
        utf8_len(out@) <= MAX_NORMALIZED_SEGMENT_BYTES,
{
    let raw_chars = chars_of(raw);
    let trimmed = trim_chars(&raw_chars);
    proof {
        reveal_strlit("empty-");
        reveal_strlit("id");
        lemma_ascii_utf8_len("empty-"@);
    }
    if trimmed.len() == 0 {
        let mut out = chars_of("empty-");
        let hash = short_hash(raw);
        let ghost head = out@;
        append_chars(&mut out, &hash);
        proof {
            lemma_utf8_len_concat(head, hash@);
            lemma_ascii_lower_segment(head);
            lemma_segment_chars_concat(head, hash@);
            assert(out@[0] == head[0]);
            assert(out@.last() == hash@.last());
            assert(out@[out@.len() - 17] == '-');
            assert forall|k: int| out@.len() - 16 <= k < out@.len() implies lower_hex_char(
                #[trigger] out@[k],
            ) by {
                assert(out@[k] == hash@[k - head.len()]);
            }
            assert forall|k: int| 0 <= k < out@.len() implies out@[k] != '/' by {
                if k >= head.len() {
                    assert(out@[k] == hash@[k - head.len()]);
                }
            }
        }
        return string_of(&out);
    }
    proof {
        lemma_ascii_lower_segment("id"@);
    }
    let normalized = sanitize_key_segment_chars(&trimmed, "id");
    let same = chars_equal(&normalized, &trimmed);
    let lossy = !same || utf8_len_exceeds(&normalized, MAX_NORMALIZED_SEGMENT_BYTES);
    if lossy {
        string_of(&with_hash_suffix_chars(&normalized, &trimmed))
    } else {
        string_of(&normalized)
    }
}

/// The key segment for a file name: the cleaned name, shortened and hashed when
/// it exceeds 96 bytes.
pub fn normalize_file_name(raw: &str) -> (out: String)
    ensures
        out@ == normalize_file_name_spec(raw@),
        utf8_len(sanitize_spec(trim_ws(raw@), "file"@)) > MAX_NORMALIZED_SEGMENT_BYTES
            ==> hash_suffixed(out@),
        no_slash(out@),
        segment_chars(out@),
        clean_edges(out@),
        out@.len() > 0,
        utf8_len(out@) <= MAX_NORMALIZED_SEGMENT_BYTES,
{
    proof {
        reveal_strlit("file");
        lemma_ascii_lower_segment("file"@);
    }
    let raw_chars = chars_of(raw);
    let trimmed = trim_chars(&raw_chars);
    let normalized = sanitize_key_segment_chars(&trimmed, "file");
    if utf8_len_exceeds(&normalized, MAX_NORMALIZED_SEGMENT_BYTES) {
        string_of(&with_hash_suffix_chars(&normalized, &trimmed))
    } else {
        string_of(&normalized)
    }
}

/// Reduces `raw` to lowercase key characters: letters, digits, `-`, `_` and
/// `.`, every run of other characters one `-`, no leading or trailing `-` or
/// `.`; `fallback` when nothing is left.
pub fn sanitize_key_segment(raw: &str, fallback: &str) -> (out: String)
    ensures
        out@ == sanitize_spec(raw@, fallback@),
        no_slash(fallback@) ==> no_slash(out@),
        fallback@.len() > 0 ==> out@.len() > 0,
        segment_chars(fallback@) ==> segment_chars(out@),
        clean_edges(fallback@) ==> clean_edges(out@),
{
    string_of(&sanitize_key_segment_chars(&chars_of(raw), fallback))
}

/// The longest prefix of `value` that fits in `max_bytes` UTF-8 bytes.
pub fn truncate_to_boundary(value: &str, max_bytes: usize) -> (out: String)
    ensures
        out@ == truncate_bytes(value@, max_bytes as int),
        utf8_len(out@) <= max_bytes,
{
    proof {
        lemma_truncate_fits(value@, max_bytes as int);
    }
    string_of(&truncate_to_boundary_chars(&chars_of(value), max_bytes))
}

/// `normalized` cut to leave room for `-` and the short hash of `raw`, then
/// both appended: a segment of at most the normalized length that tells
/// apart raw values that normalize alike.
pub fn with_hash_suffix(normalized: &str, raw: &str) -> (out: String)
    ensures
        out@ == with_hash_suffix_spec(normalized@, raw@),
        no_slash(normalized@) ==> no_slash(out@),
        segment_chars(normalized@) ==> segment_chars(out@),
        clean_edges(out@),
        hash_suffixed(out@),
        out@.len() > 0,
        utf8_len(out@) <= MAX_NORMALIZED_SEGMENT_BYTES,
{
    string_of(&with_hash_suffix_chars(&chars_of(normalized), &chars_of(raw)))
}

/// The namespace prefix for `raw`: empty when `raw` is blank or only slashes,
/// else the file-name segment of `raw` without surrounding whitespace and slashes.
pub fn normalize_namespace(raw: &str) -> (out: String)
    ensures
        out@ == normalize_namespace_spec(raw@),
        no_slash(out@),
        segment_chars(out@),
        clean_edges(out@),
{
    let raw_chars = chars_of(raw);
    let trimmed = trim_chars(&raw_chars);
    let mut flags: Vec<bool> = Vec::new();
    let mut i: usize = 0;
    while i < trimmed.len()
        invariant
            i <= trimmed.len(),
            flags.len() == i,
            forall|k: int| 0 <= k < i ==> flags[k] == is_slash(#[trigger] trimmed[k]),
        decreases trimmed.len() - i,
    {
        flags.push(trimmed[i] == '/');
        i = i + 1;
    }
    let inner = trim_flagged(&trimmed, &flags, Ghost(|c: char| is_slash(c)));
    if inner.len() == 0 {
        String::new()
    } else {
        let inner_string = string_of(&inner);
        normalize_file_name(inner_string.as_str())
    }
}

// ---------------------------------------------------------------------
// Time segments.
// ---------------------------------------------------------------------

/// `%Y`: four digits for years 0 through 9999, else a sign and at least four digits.
pub open spec fn year_text(y: int) -> Seq<char> {
    if 0 <= y <= 9999 {
        padded_decimal(y as nat, 4)
    } else if y > 9999 {
        "+"@ + padded_decimal(y as nat, 4)
    } else {
        "-"@ + padded_decimal((-y) as nat, 4)
    }
}

/// `year=%Y/month=%m/day=%d/hour=%H/minute=%M` of `t` in UTC.
pub open spec fn time_prefix_spec(t: UtcTime) -> Seq<char> {
    "year="@ + year_text(year_of(t)) + "/month="@ + padded_decimal(month_of(t) as nat, 2)
        + "/day="@ + padded_decimal(day_of(t) as nat, 2) + "/hour="@ + padded_decimal(
        hour_of(t) as nat,
        2,
    ) + "/minute="@ + padded_decimal(minute_of(t) as nat, 2)
}

/// `%Y%m%dT%H%M%S.%fZ` of `t` in UTC.
pub open spec fn compact_timestamp_spec(t: UtcTime) -> Seq<char> {
    year_text(year_of(t)) + padded_decimal(month_of(t) as nat, 2) + padded_decimal(
        day_of(t) as nat,
        2,
    ) + "T"@ + padded_decimal(hour_of(t) as nat, 2) + padded_decimal(minute_of(t) as nat, 2)
        + padded_decimal(second_of(t) as nat, 2) + "."@ + padded_decimal(t.subsec() as nat, 9)
        + "Z"@
}

/// `{:016}` of the milliseconds left until `MAX_TIMESTAMP_MILLIS`.
pub open spec fn feed_sort_key_spec(t: UtcTime) -> Seq<char> {
    padded_signed(MAX_TIMESTAMP_MILLIS - millis_of(t), 16)
}

/// `{:016}` of the milliseconds since the epoch.
pub open spec fn thread_sort_key_spec(t: UtcTime) -> Seq<char> {
    padded_signed(millis_of(t), 16)
}

fn year_chars(y: i32) -> (out: Vec<char>)
    requires
        y > i32::MIN,
    ensures
        out@ == year_text(y as int),
{
    if 0 <= y && y <= 9999 {
        padded_decimal_chars(y as u64, 4)
    } else if y > 9999 {
        let mut out = chars_of("+");
        let digits = padded_decimal_chars(y as u64, 4);
        append_chars(&mut out, &digits);
        out
    } else {
        let mut out = chars_of("-");
        let digits = padded_decimal_chars((-y) as u64, 4);
        append_chars(&mut out, &digits);
        out
    }
}

fn two_digits(v: u32) -> (out: Vec<char>)
    ensures
        out@ == padded_decimal(v as nat, 2),
{
    padded_decimal_chars(v as u64, 2)
}

fn time_prefix_chars(instant: &UtcTime) -> (out: Vec<char>)
    ensures
        out@ == time_prefix_spec(*instant),
{
    let f = instant.civil_fields();
    let mut out = chars_of("year=");
    append_chars(&mut out, &year_chars(f.year));
    append_str(&mut out, "/month=");
    append_chars(&mut out, &two_digits(f.month));
    append_str(&mut out, "/day=");
    append_chars(&mut out, &two_digits(f.day));
    append_str(&mut out, "/hour=");
    append_chars(&mut out, &two_digits(f.hour));
    append_str(&mut out, "/minute=");
    append_chars(&mut out, &two_digits(f.minute));
    out
}

fn compact_timestamp_chars(instant: &UtcTime) -> (out: Vec<char>)
    ensures
        out@ == compact_timestamp_spec(*instant),
{
    let f = instant.civil_fields();
    let mut out = year_chars(f.year);
    append_chars(&mut out, &two_digits(f.month));
    append_chars(&mut out, &two_digits(f.day));
    append_str(&mut out, "T");
    append_chars(&mut out, &two_digits(f.hour));
    append_chars(&mut out, &two_digits(f.minute));
    append_chars(&mut out, &two_digits(f.second));
    append_str(&mut out, ".");
    append_chars(&mut out, &padded_decimal_chars(f.nanosecond as u64, 9));
    append_str(&mut out, "Z");
    out
}

fn feed_sort_key_chars(instant: &UtcTime) -> (out: Vec<char>)
    ensures
        out@ == feed_sort_key_spec(*instant),
{
    let millis = instant.timestamp_millis();
    let _ = instant.seconds();
    padded_signed_chars(MAX_TIMESTAMP_MILLIS - millis, 16)
}

fn thread_sort_key_chars(instant: &UtcTime) -> (out: Vec<char>)
    ensures
        out@ == thread_sort_key_spec(*instant),
{
    padded_signed_chars(instant.timestamp_millis(), 16)
}

/// The minute folder of an instant: `year=YYYY/month=MM/day=DD/hour=HH/minute=MM` in UTC.
pub fn time_prefix(instant: UtcTime) -> (out: String)
    ensures
        out@ == time_prefix_spec(instant),
{
    string_of(&time_prefix_chars(&instant))
}

/// The instant as `YYYYMMDDTHHMMSS.nnnnnnnnnZ` in UTC.
pub fn compact_timestamp(instant: UtcTime) -> (out: String)
    ensures
        out@ == compact_timestamp_spec(instant),
{
    string_of(&compact_timestamp_chars(&instant))
}

/// A sort key under which newer instants come first.
pub fn feed_sort_key(instant: UtcTime) -> (out: String)
    ensures
        out@ == feed_sort_key_spec(instant),
{
    string_of(&feed_sort_key_chars(&instant))
}

/// A sort key under which older instants come first.
pub fn thread_sort_key(instant: UtcTime) -> (out: String)
    ensures
        out@ == thread_sort_key_spec(instant),
{
    string_of(&thread_sort_key_chars(&instant))
}

// ---------------------------------------------------------------------
// Key layout.
// ---------------------------------------------------------------------

/// `key` placed under the namespace `ns`, if there is one.
pub open spec fn with_namespace_spec(ns: Seq<char>, key: Seq<char>) -> Seq<char> {
    if ns.len() == 0 {
        key
    } else {
        ns + "/"@ + trim_start_by(key, |c: char| is_slash(c))
    }
}

/// Every key a builder made from `raw` places is the key itself when `raw`,
/// trimmed of whitespace and slashes, is empty; otherwise it is the file-name
/// segment of that trimmed text, `'/'`, and the key without its leading slashes.
pub proof fn lemma_namespace_places_every_key(raw: Seq<char>, key: Seq<char>)
    ensures
        ({
            let t = trim_by(trim_ws(raw), |c: char| is_slash(c));
            with_namespace_spec(normalize_namespace_spec(raw), key) == if t.len() == 0 {
                key
            } else {
                normalize_file_name_spec(t) + "/"@ + trim_start_by(key, |c: char| is_slash(c))
            }
        }),
{
    let t = trim_by(trim_ws(raw), |c: char| is_slash(c));
    if t.len() > 0 {
        reveal_strlit("file");
        let n = sanitize_spec(trim_ws(t), "file"@);
        assert(n.len() > 0);
        if utf8_len(n) > MAX_NORMALIZED_SEGMENT_BYTES {
            assert(with_hash_suffix_spec(n, trim_ws(t)).len() > 0);
        }
        assert(normalize_file_name_spec(t).len() > 0);
    }
}

pub open spec fn message_body_key(ns: Seq<char>, message_id: Seq<char>, t: UtcTime) -> Seq<char> {
    with_namespace_spec(ns, "messages/"@ + time_prefix_spec(t) + "/"@ + message_id + ".json"@)
}

pub open spec fn message_lookup_key(ns: Seq<char>, message_id: Seq<char>) -> Seq<char> {
    with_namespace_spec(ns, "messages/by-id/"@ + message_id + ".json"@)
}

pub open spec fn attachment_metadata_key(ns: Seq<char>, attachment_id: Seq<char>, t: UtcTime) -> Seq<
    char,
> {
    with_namespace_spec(
        ns,
        "attachments/metadata/"@ + time_prefix_spec(t) + "/"@ + attachment_id + ".json"@,
    )
}

pub open spec fn attachment_lookup_key(ns: Seq<char>, attachment_id: Seq<char>) -> Seq<char> {
    with_namespace_spec(ns, "attachments/by-id/"@ + attachment_id + ".json"@)
}

pub open spec fn attachment_object_key(
    ns: Seq<char>,
    attachment_id: Seq<char>,
    t: UtcTime,
    file_name: Seq<char>,
) -> Seq<char> {
    with_namespace_spec(
        ns,
        "attachments/objects/"@ + time_prefix_spec(t) + "/"@ + attachment_id + "/"@
            + normalize_file_name_spec(file_name),
    )
}

/// The folder that lists an actor's mailbox entries for one minute.
pub open spec fn mailbox_folder(actor_id: Seq<char>, direction: Seq<char>, t: UtcTime) -> Seq<
    char,
> {
    "mailboxes/"@ + normalize_external_id_spec(actor_id) + "/"@ + normalize_external_id_spec(
        direction,
    ) + "/"@ + time_prefix_spec(t) + "/"@
}

pub open spec fn mailbox_reference_key(
    ns: Seq<char>,
    actor_id: Seq<char>,
    direction: Seq<char>,
    t: UtcTime,
    message_id: Seq<char>,
    reference_id: Seq<char>,
) -> Seq<char> {
    with_namespace_spec(
        ns,
        mailbox_folder(actor_id, direction, t) + feed_sort_key_spec(t) + "_"@
            + compact_timestamp_spec(t) + "_"@ + message_id + "_"@ + reference_id + ".json"@,
    )
}

pub open spec fn mailbox_prefix_key(
    ns: Seq<char>,
    actor_id: Seq<char>,
    direction: Seq<char>,
    window: UtcTime,
) -> Seq<char> {
    with_namespace_spec(ns, mailbox_folder(actor_id, direction, window))
}

pub open spec fn thread_metadata_key(ns: Seq<char>, thread_id: Seq<char>) -> Seq<char> {
    with_namespace_spec(ns, "threads/"@ + thread_id + "/metadata.json"@)
}

/// The folder that lists a thread's messages for one minute.
pub open spec fn thread_folder(thread_id: Seq<char>, t: UtcTime) -> Seq<char> {
    "threads/"@ + thread_id + "/messages/"@ + time_prefix_spec(t) + "/"@
}

pub open spec fn thread_reference_key(
    ns: Seq<char>,
    thread_id: Seq<char>,
    t: UtcTime,
    message_id: Seq<char>,
    reference_id: Seq<char>,
) -> Seq<char> {
    with_namespace_spec(
        ns,
        thread_folder(thread_id, t) + thread_sort_key_spec(t) + "_"@ + compact_timestamp_spec(t)
            + "_"@ + message_id + "_"@ + reference_id + ".json"@,
    )
}

pub open spec fn thread_prefix_key(ns: Seq<char>, thread_id: Seq<char>, window: UtcTime) -> Seq<
    char,
> {
    with_namespace_spec(ns, thread_folder(thread_id, window))
}

pub open spec fn broadcast_body_key(ns: Seq<char>, broadcast_id: Seq<char>, t: UtcTime) -> Seq<
    char,
> {
    with_namespace_spec(
        ns,
        "broadcast/messages/"@ + time_prefix_spec(t) + "/"@ + broadcast_id + ".json"@,
    )
}

pub open spec fn broadcast_lookup_key(ns: Seq<char>, broadcast_id: Seq<char>) -> Seq<char> {
    with_namespace_spec(ns, "broadcast/by-id/"@ + broadcast_id + ".json"@)
}

/// The folder that lists the broadcasts of one audience for one minute.
pub open spec fn audience_folder(audience_type: Seq<char>, audience_key: Seq<char>, t: UtcTime) -> Seq<
    char,
> {
    "broadcast/audiences/"@ + normalize_external_id_spec(audience_type) + "/"@
        + normalize_external_id_spec(audience_key) + "/"@ + time_prefix_spec(t) + "/"@
}

pub open spec fn broadcast_audience_key(
    ns: Seq<char>,
    audience_type: Seq<char>,
    audience_key: Seq<char>,
    t: UtcTime,
    broadcast_id: Seq<char>,
) -> Seq<char> {
    with_namespace_spec(
        ns,
        audience_folder(audience_type, audience_key, t) + feed_sort_key_spec(t) + "_"@
            + broadcast_id + ".json"@,
    )
}

pub open spec fn broadcast_audience_prefix_key(
    ns: Seq<char>,
    audience_type: Seq<char>,
    audience_key: Seq<char>,
    window: UtcTime,
) -> Seq<char> {
    with_namespace_spec(ns, audience_folder(audience_type, audience_key, window))
}

pub open spec fn state_event_key(
    ns: Seq<char>,
    actor_id: Seq<char>,
    target_kind: Seq<char>,
    target_id: Seq<char>,
    t: UtcTime,
    state_id: Seq<char>,
) -> Seq<char> {
    with_namespace_spec(
        ns,
        "states/"@ + normalize_external_id_spec(actor_id) + "/events/"@
            + normalize_external_id_spec(target_kind) + "/"@ + normalize_external_id_spec(
            target_id,
        ) + "/"@ + time_prefix_spec(t) + "/"@ + feed_sort_key_spec(t) + "_"@ + state_id
            + ".json"@,
    )
}

pub open spec fn state_current_key(
    ns: Seq<char>,
    actor_id: Seq<char>,
    target_kind: Seq<char>,
    target_id: Seq<char>,
) -> Seq<char> {
    with_namespace_spec(
        ns,
        "states/"@ + normalize_external_id_spec(actor_id) + "/current/"@
            + normalize_external_id_spec(target_kind) + "/"@ + normalize_external_id_spec(
            target_id,
        ) + ".json"@,
    )
}

pub open spec fn operation_id_key(ns: Seq<char>, idempotency_key: Seq<char>, caller_id: Seq<char>) -> Seq<
    char,
> {
    with_namespace_spec(
        ns,
        "operations/idempotency/"@ + normalize_external_id_spec(caller_id) + "/"@
            + normalize_external_id_spec(idempotency_key) + ".json"@,
    )
}

pub open spec fn operation_started_key(ns: Seq<char>, operation_id: Seq<char>) -> Seq<char> {
    with_namespace_spec(ns, "operations/by-id/"@ + operation_id + "/started.json"@)
}

pub open spec fn operation_step_key(ns: Seq<char>, operation_id: Seq<char>, step_id: Seq<char>) -> Seq<
    char,
> {
    with_namespace_spec(
        ns,
        "operations/by-id/"@ + operation_id + "/steps/"@ + normalize_external_id_spec(step_id)
            + ".json"@,
    )
}

pub open spec fn operation_completed_key(ns: Seq<char>, operation_id: Seq<char>) -> Seq<char> {
    with_namespace_spec(ns, "operations/by-id/"@ + operation_id + "/completed.json"@)
}

/// Builds the object keys of the service under one namespace.
#[derive(Clone, Debug, PartialEq, Eq)]
pub struct KeyBuilder {
    namespace: String,
}

impl View for KeyBuilder {
    type V = Seq<char>;

    /// The namespace prefix; empty for none.
    closed spec fn view(&self) -> Seq<char> {
        self.namespace@
    }
}

impl KeyBuilder {
    /// A builder whose namespace is `namespace` normalized.
    pub fn new(namespace: &str) -> (r: KeyBuilder)
        ensures
            r@ == normalize_namespace_spec(namespace@),
            no_slash(r@),
            segment_chars(r@),
    {
        KeyBuilder { namespace: normalize_namespace(namespace) }
    }

    /// The namespace prefix.
    pub fn namespace(&self) -> (r: &str)
        ensures
            r@ == self@,
    {
        self.namespace.as_str()
    }

    pub fn message_body(&self, message_id: &str, created_at: UtcTime) -> (r: String)
        ensures
            r@ == message_body_key(self@, message_id@, created_at),
    {
        let mut key = chars_of("messages/");
        append_chars(&mut key, &time_prefix_chars(&created_at));
        append_str(&mut key, "/");
        append_str(&mut key, message_id);
        append_str(&mut key, ".json");
        self.with_namespace_chars(&key)
    }

    pub fn message_lookup(&self, message_id: &str) -> (r: String)
        ensures
            r@ == message_lookup_key(self@, message_id@),
    {
        let mut key = chars_of("messages/by-id/");
        append_str(&mut key, message_id);
        append_str(&mut key, ".json");
        self.with_namespace_chars(&key)
    }

    pub fn attachment_metadata(&self, attachment_id: &str, created_at: UtcTime) -> (r: String)
        ensures
            r@ == attachment_metadata_key(self@, attachment_id@, created_at),
    {
        let mut key = chars_of("attachments/metadata/");
        append_chars(&mut key, &time_prefix_chars(&created_at));
        append_str(&mut key, "/");
        append_str(&mut key, attachment_id);
        append_str(&mut key, ".json");
        self.with_namespace_chars(&key)
    }

    pub fn attachment_lookup(&self, attachment_id: &str) -> (r: String)
        ensures
            r@ == attachment_lookup_key(self@, attachment_id@),
    {
        let mut key = chars_of("attachments/by-id/");
        append_str(&mut key, attachment_id);
        append_str(&mut key, ".json");
        self.with_namespace_chars(&key)
    }

    pub fn attachment_object(
        &self,
        attachment_id: &str,
        created_at: UtcTime,
        normalized_file_name: &str,
    ) -> (r: String)
        ensures
            r@ == attachment_object_key(self@, attachment_id@, created_at, normalized_file_name@),
    {
        let mut key = chars_of("attachments/objects/");
        append_chars(&mut key, &time_prefix_chars(&created_at));
        append_str(&mut key, "/");
        append_str(&mut key, attachment_id);
        append_str(&mut key, "/");
        append_str(&mut key, normalize_file_name(normalized_file_name).as_str());
        self.with_namespace_chars(&key)
    }

    fn mailbox_folder_chars(actor_id: &str, direction: &str, window: &UtcTime) -> (out: Vec<char>)
        ensures
            out@ == mailbox_folder(actor_id@, direction@, *window),
    {
        let mut key = chars_of("mailboxes/");
        append_str(&mut key, normalize_external_id(actor_id).as_str());
        append_str(&mut key, "/");
        append_str(&mut key, normalize_external_id(direction).as_str());
        append_str(&mut key, "/");
        append_chars(&mut key, &time_prefix_chars(window));
        append_str(&mut key, "/");
        key
    }

    pub fn mailbox_reference(
        &self,
        actor_id: &str,
        direction: &str,
        created_at: UtcTime,
        message_id: &str,
        reference_id: &str,
    ) -> (r: String)
        ensures
            r@ == mailbox_reference_key(
                self@,
                actor_id@,
                direction@,
                created_at,
                message_id@,
                reference_id@,
            ),
    {
        let mut key = Self::mailbox_folder_chars(actor_id, direction, &created_at);
        append_chars(&mut key, &feed_sort_key_chars(&created_at));
        append_str(&mut key, "_");
        append_chars(&mut key, &compact_timestamp_chars(&created_at));
        append_str(&mut key, "_");
        append_str(&mut key, message_id);
        append_str(&mut key, "_");
        append_str(&mut key, reference_id);
        append_str(&mut key, ".json");
        self.with_namespace_chars(&key)
    }

    pub fn mailbox_prefix(&self, actor_id: &str, direction: &str, window: UtcTime) -> (r: String)
        ensures
            r@ == mailbox_prefix_key(self@, actor_id@, direction@, window),
    {
        let key = Self::mailbox_folder_chars(actor_id, direction, &window);
        self.with_namespace_chars(&key)
    }

    pub fn thread_metadata(&self, thread_id: &str) -> (r: String)
        ensures
            r@ == thread_metadata_key(self@, thread_id@),
    {
        let mut key = chars_of("threads/");
        append_str(&mut key, thread_id);
        append_str(&mut key, "/metadata.json");
        self.with_namespace_chars(&key)
    }

    fn thread_folder_chars(thread_id: &str, window: &UtcTime) -> (out: Vec<char>)
        ensures
            out@ == thread_folder(thread_id@, *window),
    {
        let mut key = chars_of("threads/");
        append_str(&mut key, thread_id);
        append_str(&mut key, "/messages/");
        append_chars(&mut key, &time_prefix_chars(window));
        append_str(&mut key, "/");
        key
    }

    pub fn thread_reference(
        &self,
        thread_id: &str,
        created_at: UtcTime,
        message_id: &str,
        reference_id: &str,
    ) -> (r: String)
        ensures
            r@ == thread_reference_key(self@, thread_id@, created_at, message_id@, reference_id@),
    {
        let mut key = Self::thread_folder_chars(thread_id, &created_at);
        append_chars(&mut key, &thread_sort_key_chars(&created_at));
        append_str(&mut key, "_");
        append_chars(&mut key, &compact_timestamp_chars(&created_at));
        append_str(&mut key, "_");
        append_str(&mut key, message_id);
        append_str(&mut key, "_");
        append_str(&mut key, reference_id);
        append_str(&mut key, ".json");
        self.with_namespace_chars(&key)
    }

    pub fn thread_prefix(&self, thread_id: &str, window: UtcTime) -> (r: String)
        ensures
            r@ == thread_prefix_key(self@, thread_id@, window),
    {
        let key = Self::thread_folder_chars(thread_id, &window);
        self.with_namespace_chars(&key)
    }

    pub fn broadcast_body(&self, broadcast_id: &str, created_at: UtcTime) -> (r: String)
        ensures
            r@ == broadcast_body_key(self@, broadcast_id@, created_at),
    {
        let mut key = chars_of("broadcast/messages/");
        append_chars(&mut key, &time_prefix_chars(&created_at));
        append_str(&mut key, "/");
        append_str(&mut key, broadcast_id);
        append_str(&mut key, ".json");
        self.with_namespace_chars(&key)
    }

    pub fn broadcast_lookup(&self, broadcast_id: &str) -> (r: String)
        ensures
            r@ == broadcast_lookup_key(self@, broadcast_id@),
    {
        let mut key = chars_of("broadcast/by-id/");
        append_str(&mut key, broadcast_id);
        append_str(&mut key, ".json");
        self.with_namespace_chars(&key)
    }

    fn audience_folder_chars(audience_type: &str, audience_key: &str, window: &UtcTime) -> (out:
        Vec<char>)
        ensures
            out@ == audience_folder(audience_type@, audience_key@, *window),
    {
        let mut key = chars_of("broadcast/audiences/");
        append_str(&mut key, normalize_external_id(audience_type).as_str());
        append_str(&mut key, "/");
        append_str(&mut key, normalize_external_id(audience_key).as_str());
        append_str(&mut key, "/");
        append_chars(&mut key, &time_prefix_chars(window));
        append_str(&mut key, "/");
        key
    }

    pub fn broadcast_audience(
        &self,
        audience_type: &str,
        audience_key: &str,
        created_at: UtcTime,
        broadcast_id: &str,
    ) -> (r: String)
        ensures
            r@ == broadcast_audience_key(
                self@,
                audience_type@,
                audience_key@,
                created_at,
                broadcast_id@,
            ),
    {
        let mut key = Self::audience_folder_chars(audience_type, audience_key, &created_at);
        append_chars(&mut key, &feed_sort_key_chars(&created_at));
        append_str(&mut key, "_");
        append_str(&mut key, broadcast_id);
        append_str(&mut key, ".json");
        self.with_namespace_chars(&key)
    }

    pub fn broadcast_audience_prefix(
        &self,
        audience_type: &str,
        audience_key: &str,
        window: UtcTime,
    ) -> (r: String)
        ensures
            r@ == broadcast_audience_prefix_key(self@, audience_type@, audience_key@, window),
    {
        let key = Self::audience_folder_chars(audience_type, audience_key, &window);
        self.with_namespace_chars(&key)
    }

    pub fn state_event(
        &self,
        actor_id: &str,
        target_kind: &str,
        target_id: &str,
        created_at: UtcTime,
        state_id: &str,
    ) -> (r: String)
        ensures
            r@ == state_event_key(
                self@,
                actor_id@,
                target_kind@,
                target_id@,
                created_at,
                state_id@,
            ),
    {
        let mut key = chars_of("states/");
        append_str(&mut key, normalize_external_id(actor_id).as_str());
        append_str(&mut key, "/events/");
        append_str(&mut key, normalize_external_id(target_kind).as_str());
        append_str(&mut key, "/");
        append_str(&mut key, normalize_external_id(target_id).as_str());
        append_str(&mut key, "/");
        append_chars(&mut key, &time_prefix_chars(&created_at));
        append_str(&mut key, "/");
        append_chars(&mut key, &feed_sort_key_chars(&created_at));
        append_str(&mut key, "_");
        append_str(&mut key, state_id);
        append_str(&mut key, ".json");
        self.with_namespace_chars(&key)
    }

    pub fn state_current(&self, actor_id: &str, target_kind: &str, target_id: &str) -> (r: String)
        ensures
            r@ == state_current_key(self@, actor_id@, target_kind@, target_id@),
    {
        let mut key = chars_of("states/");
        append_str(&mut key, normalize_external_id(actor_id).as_str());
        append_str(&mut key, "/current/");
        append_str(&mut key, normalize_external_id(target_kind).as_str());
        append_str(&mut key, "/");
        append_str(&mut key, normalize_external_id(target_id).as_str());
        append_str(&mut key, ".json");
        self.with_namespace_chars(&key)
    }

    pub fn operation_id(&self, idempotency_key: &str, caller_id: &str) -> (r: String)
        ensures
            r@ == operation_id_key(self@, idempotency_key@, caller_id@),
    {
        let mut key = chars_of("operations/idempotency/");
        append_str(&mut key, normalize_external_id(caller_id).as_str());
        append_str(&mut key, "/");
        append_str(&mut key, normalize_external_id(idempotency_key).as_str());
        append_str(&mut key, ".json");
        self.with_namespace_chars(&key)
    }

    pub fn operation_started(&self, operation_id: &str) -> (r: String)
        ensures
            r@ == operation_started_key(self@, operation_id@),
    {
        let mut key = chars_of("operations/by-id/");
        append_str(&mut key, operation_id);
        append_str(&mut key, "/started.json");
        self.with_namespace_chars(&key)
    }

    pub fn operation_step(&self, operation_id: &str, step_id: &str) -> (r: String)
        ensures
            r@ == operation_step_key(self@, operation_id@, step_id@),
    {
        let mut key = chars_of("operations/by-id/");
        append_str(&mut key, operation_id);
        append_str(&mut key, "/steps/");
        append_str(&mut key, normalize_external_id(step_id).as_str());
        append_str(&mut key, ".json");
        self.with_namespace_chars(&key)
    }

    pub fn operation_completed(&self, operation_id: &str) -> (r: String)
        ensures
            r@ == operation_completed_key(self@, operation_id@),
    {
        let mut key = chars_of("operations/by-id/");
        append_str(&mut key, operation_id);
        append_str(&mut key, "/completed.json");
        self.with_namespace_chars(&key)
    }

    /// `key` under the namespace, with the key's leading slashes dropped.
    pub fn with_namespace(&self, key: &str) -> (r: String)
        ensures
            r@ == with_namespace_spec(self@, key@),
    {
        self.with_namespace_chars(&chars_of(key))
    }

    fn with_namespace_chars(&self, key: &Vec<char>) -> (r: String)
        ensures
            r@ == with_namespace_spec(self@, key@),
    {
        if self.namespace.as_str().is_empty() {
            return string_of(key);
        }
        let mut flags: Vec<bool> = Vec::new();
        let mut i: usize = 0;
        while i < key.len()
            invariant
                i <= key.len(),
                flags.len() == i,
                forall|k: int| 0 <= k < i ==> flags[k] == is_slash(#[trigger] key[k]),
            decreases key.len() - i,
        {
            flags.push(key[i] == '/');
            i = i + 1;
        }
        let tail = trim_start_flagged(key, &flags, Ghost(|c: char| is_slash(c)));
        let mut out = chars_of(self.namespace.as_str());
        append_str(&mut out, "/");
        append_chars(&mut out, &tail);
        string_of(&out)
    }
}

// ---------------------------------------------------------------------
// Laws of the layout.
// ---------------------------------------------------------------------

/// Instants in one minute have one minute folder.
pub proof fn lemma_time_prefix_of_minute(t: UtcTime, window: UtcTime)
    requires
        window.secs() / 60 == t.secs() / 60,
    ensures
        time_prefix_spec(window) == time_prefix_spec(t),
{
    lemma_same_minute_fields(window, t);
}

/// A key that does not start with `'/'` extends under the namespace as it extends bare.
proof fn lemma_namespace_extends(ns: Seq<char>, folder: Seq<char>, rest: Seq<char>)
    requires
        folder.len() > 0,
        folder[0] != '/',
    ensures
        with_namespace_spec(ns, folder + rest) == with_namespace_spec(ns, folder) + rest,
{
    let p = |c: char| is_slash(c);
    assert((folder + rest)[0] == folder[0]);
    assert(trim_start_by(folder + rest, p) == folder + rest);
    assert(trim_start_by(folder, p) == folder);
    if ns.len() > 0 {
        assert(ns + "/"@ + (folder + rest) =~= ns + "/"@ + folder + rest);
    }
}

proof fn lemma_is_prefix_concat(a: Seq<char>, b: Seq<char>)
    ensures
        is_prefix(a, a + b),
{
    assert((a + b).take(a.len() as int) =~= a);
}

/// Every mailbox reference written at `t` is listed under the mailbox prefix of
/// the minute window that holds `t`.
#[verifier::spinoff_prover]
pub proof fn lemma_mailbox_reference_in_window(
    ns: Seq<char>,
    actor_id: Seq<char>,
    direction: Seq<char>,
    t: UtcTime,
    window: UtcTime,
    message_id: Seq<char>,
    reference_id: Seq<char>,
)
    requires
        window.secs() / 60 == t.secs() / 60,
    ensures
        is_prefix(
            mailbox_prefix_key(ns, actor_id, direction, window),
            mailbox_reference_key(ns, actor_id, direction, t, message_id, reference_id),
        ),
{
    lemma_time_prefix_of_minute(t, window);
    reveal_strlit("mailboxes/");
    let folder = mailbox_folder(actor_id, direction, t);
    let rest = feed_sort_key_spec(t) + "_"@ + compact_timestamp_spec(t) + "_"@ + message_id
        + "_"@ + reference_id + ".json"@;
    assert(folder[0] == 'm');
    assert(mailbox_folder(actor_id, direction, t) + feed_sort_key_spec(t) + "_"@
        + compact_timestamp_spec(t) + "_"@ + message_id + "_"@ + reference_id + ".json"@
        =~= folder + rest);
    lemma_namespace_extends(ns, folder, rest);
    lemma_is_prefix_concat(with_namespace_spec(ns, folder), rest);
}

/// Every thread reference written at `t` is listed under the thread prefix of
/// the minute window that holds `t`.
pub proof fn lemma_thread_reference_in_window(
    ns: Seq<char>,
    thread_id: Seq<char>,
    t: UtcTime,
    window: UtcTime,
    message_id: Seq<char>,
    reference_id: Seq<char>,
)
    requires
        window.secs() / 60 == t.secs() / 60,
    ensures
        is_prefix(
            thread_prefix_key(ns, thread_id, window),
            thread_reference_key(ns, thread_id, t, message_id, reference_id),
        ),
{
    lemma_time_prefix_of_minute(t, window);
    reveal_strlit("threads/");
    let folder = thread_folder(thread_id, t);
    let rest = thread_sort_key_spec(t) + "_"@ + compact_timestamp_spec(t) + "_"@ + message_id
        + "_"@ + reference_id + ".json"@;
    assert(folder[0] == 't');
    assert(thread_folder(thread_id, t) + thread_sort_key_spec(t) + "_"@ + compact_timestamp_spec(t)
        + "_"@ + message_id + "_"@ + reference_id + ".json"@ =~= folder + rest);
    lemma_namespace_extends(ns, folder, rest);
    lemma_is_prefix_concat(with_namespace_spec(ns, folder), rest);
}

/// Every audience entry of a broadcast made at `t` is listed under the audience
/// prefix of the minute window that holds `t`.
pub proof fn lemma_broadcast_audience_in_window(
    ns: Seq<char>,
    audience_type: Seq<char>,
    audience_key: Seq<char>,
    t: UtcTime,
    window: UtcTime,
    broadcast_id: Seq<char>,
)
    requires
        window.secs() / 60 == t.secs() / 60,
    ensures
        is_prefix(
            broadcast_audience_prefix_key(ns, audience_type, audience_key, window),
            broadcast_audience_key(ns, audience_type, audience_key, t, broadcast_id),
        ),
{
    lemma_time_prefix_of_minute(t, window);
    reveal_strlit("broadcast/audiences/");
    let folder = audience_folder(audience_type, audience_key, t);
    let rest = feed_sort_key_spec(t) + "_"@ + broadcast_id + ".json"@;
    assert(folder[0] == 'b');
    assert(audience_folder(audience_type, audience_key, t) + feed_sort_key_spec(t) + "_"@
        + broadcast_id + ".json"@ =~= folder + rest);
    lemma_namespace_extends(ns, folder, rest);
    lemma_is_prefix_concat(with_namespace_spec(ns, folder), rest);
}

proof fn lemma_pow10_16()
    ensures
        pow10(16) == 10_000_000_000_000_000,
{
    reveal_with_fuel(pow10, 17);
}

/// Feed keys put newer instants first: of two instants since the epoch, the
/// later one has the smaller key.
pub proof fn lemma_feed_sort_key_newer_first(older: UtcTime, newer: UtcTime)
    requires
        valid_timestamp(older.secs(), older.subsec()),
        valid_timestamp(newer.secs(), newer.subsec()),
        0 <= millis_of(older) < millis_of(newer),
    ensures
        lex_less(feed_sort_key_spec(newer), feed_sort_key_spec(older)),
{
    lemma_pow10_16();
    assert(millis_of(newer) <= MAX_SECONDS * 1000 + 999);
    lemma_padded_order(
        (MAX_TIMESTAMP_MILLIS - millis_of(newer)) as nat,
        (MAX_TIMESTAMP_MILLIS - millis_of(older)) as nat,
        16,
    );
}

/// Thread keys put older instants first: of two instants since the epoch, the
/// earlier one has the smaller key.
pub proof fn lemma_thread_sort_key_older_first(older: UtcTime, newer: UtcTime)
    requires
        valid_timestamp(older.secs(), older.subsec()),
        valid_timestamp(newer.secs(), newer.subsec()),
        0 <= millis_of(older) < millis_of(newer),
    ensures
        lex_less(thread_sort_key_spec(older), thread_sort_key_spec(newer)),
{
    lemma_pow10_16();
    assert(millis_of(newer) <= MAX_SECONDS * 1000 + 999);
    lemma_padded_order(millis_of(older) as nat, millis_of(newer) as nat, 16);
}
} // verus!
