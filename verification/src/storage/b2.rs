//! The Backblaze B2 side of storage that is decided rather than performed:
//! its configuration, the check of object keys, the region of an S3
//! endpoint, the classification of service errors, and the shaping of
//! listing pages and head results.
use crate::error::ServiceError;
use crate::storage::{effective_limit, effective_limit_spec, ListPage, ListedObject, ObjectInfo};
use crate::text::{
    append_str, chars_of, contains_seq, contains_str, ends_with_str, is_prefix, is_suffix,
    starts_with_str, str_equal, string_of, trim, trim_start_by, trim_start_flagged, trim_ws,
    lemma_trim_start_all, lemma_trim_start_keeps_other, lemma_trim_start_noop,
};
use crate::time::UtcTime;
use vstd::prelude::*;

verus! {

broadcast use vstd::string::group_string_axioms;

/// The most keys one `ListObjectsV2` request may ask for.
pub const MAX_KEYS_PER_REQUEST: usize = 1000;

/// Settings of a B2 bucket reached through its S3-compatible API.
#[derive(Clone, Debug, PartialEq, Eq)]
pub struct B2Config {
    pub bucket_name: String,
    pub application_key_id: String,
    pub application_key: String,
    pub endpoint_url: Option<String>,
    pub region: Option<String>,
    pub force_path_style: bool,
}

/// The raw values of the B2 environment variables; `None` for one that is unset.
#[derive(Clone, Debug, Default, PartialEq, Eq)]
pub struct B2Env {
    /// `B2_BUCKET_NAME`
    pub bucket_name: Option<String>,
    /// `B2_APPLICATION_KEY_ID`
    pub application_key_id: Option<String>,
    /// `B2_APPLICATION_KEY`
    pub application_key: Option<String>,
    /// `B2_S3_ENDPOINT`
    pub endpoint_url: Option<String>,
    /// `B2_S3_REGION`
    pub region: Option<String>,
    /// `B2_FORCE_PATH_STYLE`
    pub force_path_style: Option<String>,
}

/// The trimmed value of a variable, if it is set and not blank.
pub open spec fn present(value: Option<String>) -> Option<Seq<char>> {
    match value {
        Some(v) => if trim_ws(v@).len() > 0 {
            Some(trim_ws(v@))
        } else {
            None
        },
        None => None,
    }
}

/// `Configuration("<name> is required")`.
pub open spec fn is_required_error(e: ServiceError, name: Seq<char>) -> bool {
    e matches ServiceError::Configuration(m) && m@ == name + " is required"@
}

pub open spec fn opt_view(v: Option<String>) -> Option<Seq<char>> {
    match v {
        Some(s) => Some(s@),
        None => None,
    }
}

/// Path-style addressing is on unless the variable says exactly `false`.
pub open spec fn force_path_style_spec(value: Option<String>) -> bool {
    match present(value) {
        Some(v) => v != "false"@,
        None => true,
    }
}

fn required_env(name: &str, value: &Option<String>) -> (r: Result<String, ServiceError>)
    ensures
        r is Ok <==> present(*value) is Some,
        r matches Ok(v) ==> Some(v@) == present(*value),
        r matches Err(e) ==> is_required_error(e, name@),
{
    match optional_env(value) {
        Some(v) => Ok(v),
        None => {
            let mut message = chars_of(name);
            append_str(&mut message, " is required");
            Err(ServiceError::Configuration(string_of(&message)))
        },
    }
}

fn optional_env(value: &Option<String>) -> (r: Option<String>)
    ensures
        opt_view(r) == present(*value),
{
    match value {
        Some(v) => {
            let t = trim(v.as_str());
            if t.as_str().is_empty() {
                None
            } else {
                Some(t)
            }
        },
        None => None,
    }
}

impl B2Config {
    /// The configuration the B2 environment variables describe. The bucket name,
    /// key id and key are required (in that order); blank values count as unset;
    /// values are trimmed.
    pub fn from_env(env: &B2Env) -> (r: Result<B2Config, ServiceError>)
        ensures
            r is Ok <==> (present(env.bucket_name) is Some && present(env.application_key_id) is Some
                && present(env.application_key) is Some),
            present(env.bucket_name) is None ==> (r matches Err(e) && is_required_error(
                e,
                "B2_BUCKET_NAME"@,
            )),
            present(env.bucket_name) is Some && present(env.application_key_id) is None ==> (r matches Err(
                e,
            ) && is_required_error(e, "B2_APPLICATION_KEY_ID"@)),
            present(env.bucket_name) is Some && present(env.application_key_id) is Some && present(
                env.application_key,
            ) is None ==> (r matches Err(e) && is_required_error(e, "B2_APPLICATION_KEY"@)),
            r matches Ok(c) ==> {
                &&& Some(c.bucket_name@) == present(env.bucket_name)
                &&& Some(c.application_key_id@) == present(env.application_key_id)
                &&& Some(c.application_key@) == present(env.application_key)
                &&& opt_view(c.endpoint_url) == present(env.endpoint_url)
                &&& opt_view(c.region) == present(env.region)
                &&& c.force_path_style == force_path_style_spec(env.force_path_style)
            },
    {
        let bucket_name = required_env("B2_BUCKET_NAME", &env.bucket_name)?;
        let application_key_id = required_env("B2_APPLICATION_KEY_ID", &env.application_key_id)?;
        let application_key = required_env("B2_APPLICATION_KEY", &env.application_key)?;
        let endpoint_url = optional_env(&env.endpoint_url);
        let region = optional_env(&env.region);
        let force_path_style = match optional_env(&env.force_path_style) {
            Some(v) => !str_equal(v.as_str(), "false"),
            None => true,
        };
        Ok(B2Config {
            bucket_name,
            application_key_id,
            application_key,
            endpoint_url,
            region,
            force_path_style,
        })
    }
}

// ---------------------------------------------------------------------
// Object keys.
// ---------------------------------------------------------------------

pub open spec fn is_slash_char(c: char) -> bool {
    c == '/'
}

/// `..` stands as a whole segment of `s`.
pub open spec fn has_parent_segment(s: Seq<char>) -> bool {
    exists|i: int|
        0 <= i && i + 2 <= s.len() && #[trigger] s[i] == '.' && s[i + 1] == '.' && (i == 0 || s[i
            - 1] == '/') && (i + 2 == s.len() || s[i + 2] == '/')
}

/// A key the S3 side accepts: once its leading slashes are dropped it is not
/// empty, holds no backslash and has no `..` segment.
pub open spec fn valid_object_key_spec(key: Seq<char>) -> bool {
    let clean = trim_start_by(key, |c: char| is_slash_char(c));
    clean.len() > 0 && !clean.contains('\\') && !has_parent_segment(clean)
}

/// `key` without its leading slashes.
pub fn strip_leading_slashes(key: &Vec<char>) -> (out: Vec<char>)
    ensures
        out@ == trim_start_by(key@, |c: char| is_slash_char(c)),
{
    let mut flags: Vec<bool> = Vec::new();
    let mut i: usize = 0;
    while i < key.len()
        invariant
            i <= key.len(),
            flags.len() == i,
            forall|k: int| 0 <= k < i ==> flags[k] == is_slash_char(#[trigger] key[k]),
        decreases key.len() - i,
    {
        flags.push(key[i] == '/');
        i = i + 1;
    }
    trim_start_flagged(key, &flags, Ghost(|c: char| is_slash_char(c)))
}

/// Whether a `..` segment occurs in `s`.
pub fn parent_segment(s: &Vec<char>) -> (r: bool)
    ensures
        r == has_parent_segment(s@),
{
    let n = s.len();
    let mut i: usize = 0;
    while n >= 2 && i <= n - 2
        invariant
            n == s.len(),
            i <= n,
            forall|k: int|
                0 <= k < i && k + 2 <= n ==> !(#[trigger] s@[k] == '.' && s@[k + 1] == '.' && (k == 0
                    || s@[k - 1] == '/') && (k + 2 == n || s@[k + 2] == '/')),
        decreases n - i,
    {
        if s[i] == '.' && s[i + 1] == '.' && (i == 0 || s[i - 1] == '/') && (i + 2 == n || s[i + 2]
            == '/') {
            return true;
        }
        i = i + 1;
    }
    false
}

/// `Ok` for a key the S3 side accepts, else `InvalidObjectKey`.
pub fn validate_object_key(key: &str) -> (r: Result<(), ServiceError>)
    ensures
        r is Ok <==> valid_object_key_spec(key@),
        r matches Err(e) ==> e == ServiceError::InvalidObjectKey,
{
    let chars = chars_of(key);
    let clean = strip_leading_slashes(&chars);
    if clean.len() == 0 || crate::text::contains_char(&clean, '\\') || parent_segment(&clean) {
        return Err(ServiceError::InvalidObjectKey);
    }
    Ok(())
}

// ---------------------------------------------------------------------
// Endpoints.
// ---------------------------------------------------------------------

/// What `reqwest::Url::parse` makes of `text`: the URL's host (none for a URL
/// without one), or the parse error's message.
pub uninterp spec fn parsed_url_host(text: Seq<char>) -> Result<Option<Seq<char>>, Seq<char>>;

/// `reqwest::Url::parse` followed by `host_str`. Claims: the outcome is
/// `parsed_url_host(text)`. How URLs are parsed is left to the name.
#[verifier::external_body]
fn url_host(text: &str) -> (r: Result<Option<String>, String>)
    ensures
        match r {
            Ok(Some(host)) => parsed_url_host(text@) == Ok::<Option<Seq<char>>, Seq<char>>(Some(host@)),
            Ok(None) => parsed_url_host(text@) == Ok::<Option<Seq<char>>, Seq<char>>(None),
            Err(m) => parsed_url_host(text@) == Err::<Option<Seq<char>>, Seq<char>>(m@),
        },
{
    match reqwest::Url::parse(text) {
        Ok(url) => Ok(url.host_str().map(|host| host.to_string())),
        Err(error) => Err(error.to_string()),
    }
}

/// `{:?}` of a string: quoted, with `escape_debug` escapes.
pub uninterp spec fn debug_text(s: Seq<char>) -> Seq<char>;

/// `format!("{:?}", s)` for a string. Claims: the result is `debug_text(s)`.
/// Which characters are escaped, and how, is left to the name.
#[verifier::external_body]
pub(crate) fn debug_quoted(s: &str) -> (r: String)
    ensures
        r@ == debug_text(s@),
{
    format!("{s:?}")
}

/// The region of a B2 host `s3.<region>.backblazeb2.com`.
pub open spec fn region_of_host(host: Seq<char>) -> Option<Seq<char>> {
    if is_prefix("s3."@, host) && is_suffix(".backblazeb2.com"@, host.skip(3)) {
        Some(host.skip(3).take(host.len() - 3 - 16))
    } else {
        None
    }
}

/// The region of a B2 S3 endpoint URL: the part of its host between `s3.` and
/// `.backblazeb2.com`. A URL that does not parse, has no host, or names another
/// host is a configuration error.
pub fn region_from_endpoint(endpoint_url: &str) -> (r: Result<String, ServiceError>)
    ensures
        match parsed_url_host(endpoint_url@) {
            Err(m) => r matches Err(ServiceError::Configuration(msg)) && msg@
                == "invalid B2 S3 endpoint URL: "@ + m,
            Ok(None) => r matches Err(ServiceError::Configuration(msg)) && msg@
                == "B2 S3 endpoint URL is missing a host"@,
            Ok(Some(host)) => match region_of_host(host) {
                Some(region) => r matches Ok(v) && v@ == region,
                None => r matches Err(ServiceError::Configuration(msg)) && msg@
                    == "cannot infer B2 region from S3 endpoint host "@ + debug_text(host)
                    + "; set B2_S3_REGION"@,
            },
        },
{
    proof {
        reveal_strlit("s3.");
        reveal_strlit(".backblazeb2.com");
    }
    match url_host(endpoint_url) {
        Err(message) => {
            let mut text = chars_of("invalid B2 S3 endpoint URL: ");
            append_str(&mut text, message.as_str());
            Err(ServiceError::Configuration(string_of(&text)))
        },
        Ok(None) => Err(ServiceError::Configuration("B2 S3 endpoint URL is missing a host".to_string())),
        Ok(Some(host)) => {
            let chars = chars_of(host.as_str());
            if starts_with_str(&chars, "s3.") {
                let rest = crate::text::copy_range(&chars, 3, chars.len());
                if ends_with_str(&rest, ".backblazeb2.com") {
                    let region = crate::text::copy_range(&rest, 0, rest.len() - 16);
                    proof {
                        assert(rest@ =~= host@.skip(3));
                        assert(region@ =~= host@.skip(3).take(host@.len() - 3 - 16));
                    }
                    return Ok(string_of(&region));
                }
                proof {
                    assert(rest@ =~= host@.skip(3));
                }
            }
            let mut text = chars_of("cannot infer B2 region from S3 endpoint host ");
            append_str(&mut text, debug_quoted(host.as_str()).as_str());
            append_str(&mut text, "; set B2_S3_REGION");
            Err(ServiceError::Configuration(string_of(&text)))
        },
    }
}

// ---------------------------------------------------------------------
// Service errors.
// ---------------------------------------------------------------------

/// The text of an S3 error: its `Debug` text when its display text is only
/// `service error`, else both.
pub open spec fn s3_error_text(display: Seq<char>, debug: Seq<char>) -> Seq<char> {
    if display == "service error"@ {
        debug
    } else {
        display + ": "@ + debug
    }
}

pub fn s3_error_message(display: &str, debug: &str) -> (r: String)
    ensures
        r@ == s3_error_text(display@, debug@),
{
    if str_equal(display, "service error") {
        debug.to_string()
    } else {
        let mut text = chars_of(display);
        append_str(&mut text, ": ");
        append_str(&mut text, debug);
        string_of(&text)
    }
}

/// The message reports a failed precondition (HTTP 412).
pub open spec fn reports_precondition_failed(m: Seq<char>) -> bool {
    contains_seq(m, "PreconditionFailed"@) || contains_seq(m, "Precondition Failed"@)
        || contains_seq(m, "status code: 412"@) || contains_seq(m, " 412"@)
}

/// The message reports a missing object (HTTP 404).
pub open spec fn reports_not_found(m: Seq<char>) -> bool {
    contains_seq(m, "NoSuchKey"@) || contains_seq(m, "NotFound"@) || contains_seq(m, "Not Found"@)
        || contains_seq(m, "status code: 404"@) || contains_seq(m, " 404"@)
}

/// The service error an S3 error text stands for: an existing object, a
/// missing object, or else a storage error carrying the text.
pub fn classify_s3_error(message: String) -> (e: ServiceError)
    ensures
        reports_precondition_failed(message@) ==> e == ServiceError::ObjectAlreadyExists,
        !reports_precondition_failed(message@) && reports_not_found(message@) ==> e
            == ServiceError::ObjectNotFound,
        !reports_precondition_failed(message@) && !reports_not_found(message@) ==> e
            == ServiceError::Storage(message),
        contains_seq(message@, "PreconditionFailed"@) || contains_seq(message@, "Precondition Failed"@)
            || contains_seq(message@, "status code: 412"@) || contains_seq(message@, " 412"@) ==> e
            == ServiceError::ObjectAlreadyExists,
        !reports_precondition_failed(message@) && (contains_seq(message@, "NoSuchKey"@)
            || contains_seq(message@, "NotFound"@) || contains_seq(message@, "Not Found"@)
            || contains_seq(message@, "status code: 404"@) || contains_seq(message@, " 404"@)) ==> e
            == ServiceError::ObjectNotFound,
        e == ServiceError::ObjectAlreadyExists || e == ServiceError::ObjectNotFound || e
            == ServiceError::Storage(message),
{
    let chars = chars_of(message.as_str());
    if contains_str(&chars, "PreconditionFailed") || contains_str(&chars, "Precondition Failed")
        || contains_str(&chars, "status code: 412") || contains_str(&chars, " 412") {
        return ServiceError::ObjectAlreadyExists;
    }
    if contains_str(&chars, "NoSuchKey") || contains_str(&chars, "NotFound") || contains_str(
        &chars,
        "Not Found",
    ) || contains_str(&chars, "status code: 404") || contains_str(&chars, " 404") {
        return ServiceError::ObjectNotFound;
    }
    ServiceError::Storage(message)
}

/// A create-only write may go ahead when the object's head is missing; an
/// existing object is `ObjectAlreadyExists`; any other failure stands.
pub fn check_absent(head: Result<(), ServiceError>) -> (r: Result<(), ServiceError>)
    ensures
        head is Ok ==> r == Err::<(), ServiceError>(ServiceError::ObjectAlreadyExists),
        head == Err::<(), ServiceError>(ServiceError::ObjectNotFound) ==> r is Ok,
        head matches Err(e) && e != ServiceError::ObjectNotFound ==> r == head,
{
    match head {
        Ok(()) => Err(ServiceError::ObjectAlreadyExists),
        Err(ServiceError::ObjectNotFound) => Ok(()),
        Err(e) => Err(e),
    }
}

// ---------------------------------------------------------------------
// Listing and head results.
// ---------------------------------------------------------------------

/// The number of keys to ask one listing request for: the effective limit,
/// at most 1000.
pub fn max_keys_for(limit: usize) -> (r: i32)
    ensures
        r == if effective_limit_spec(limit) < MAX_KEYS_PER_REQUEST {
            effective_limit_spec(limit) as int
        } else {
            MAX_KEYS_PER_REQUEST as int
        },
{
    let l = effective_limit(limit);
    if l < MAX_KEYS_PER_REQUEST {
        l as i32
    } else {
        MAX_KEYS_PER_REQUEST as i32
    }
}

/// A reported size, negative or absent counting as zero.
pub open spec fn reported_size(size: Option<i64>) -> int {
    match size {
        Some(s) => if s > 0 {
            s as int
        } else {
            0
        },
        None => 0,
    }
}

fn size_of_report(size: Option<i64>) -> (r: u64)
    ensures
        r == reported_size(size),
{
    match size {
        Some(s) => if s > 0 {
            s as u64
        } else {
            0
        },
        None => 0,
    }
}

/// The (key, size) of each entry of a listing response that has a key, in
/// the order given.
pub open spec fn keyed_entries(entries: Seq<(Option<String>, Option<i64>)>) -> Seq<(Seq<char>, int)>
    decreases entries.len(),
{
    if entries.len() == 0 {
        Seq::empty()
    } else {
        let rest = keyed_entries(entries.drop_last());
        match entries.last().0 {
            Some(key) => rest.push((key@, reported_size(entries.last().1))),
            None => rest,
        }
    }
}

/// The page a listing response describes: its entries with keys, in the order
/// given, with their sizes and the epoch as their time; more follow when the
/// response says it is truncated.
pub fn page_from_listing(entries: Vec<(Option<String>, Option<i64>)>, is_truncated: Option<bool>) -> (page:
    ListPage)
    ensures
        page.objects@.len() == keyed_entries(entries@).len(),
        forall|k: int|
            0 <= k < page.objects@.len() ==> (#[trigger] page.objects@[k]).key@ == keyed_entries(
                entries@,
            )[k].0 && page.objects@[k].size == keyed_entries(entries@)[k].1
                && page.objects@[k].modified_at.secs() == 0 && page.objects@[k].modified_at.subsec()
                == 0,
        page.has_more == (is_truncated == Some(true)),
        page.next_after_key@ == if page.objects@.len() == 0 {
            Seq::empty()
        } else {
            page.objects@.last().key@
        },
{
    let epoch = UtcTime::epoch();
    let mut objects: Vec<ListedObject> = Vec::new();
    let mut i: usize = 0;
    while i < entries.len()
        invariant
            i <= entries.len(),
            epoch.secs() == 0 && epoch.subsec() == 0,
            objects@.len() == keyed_entries(entries@.take(i as int)).len(),
            forall|k: int|
                0 <= k < objects@.len() ==> (#[trigger] objects@[k]).key@ == keyed_entries(
                    entries@.take(i as int),
                )[k].0 && objects@[k].size == keyed_entries(entries@.take(i as int))[k].1
                    && objects@[k].modified_at == epoch,
        decreases entries.len() - i,
    {
        proof {
            assert(entries@.take(i + 1).drop_last() =~= entries@.take(i as int));
            assert(entries@.take(i + 1).last() == entries@[i as int]);
        }
        let ghost before = objects@;
        match &entries[i].0 {
            Some(key) => {
                objects.push(
                    ListedObject {
                        key: key.clone(),
                        size: size_of_report(entries[i].1),
                        modified_at: epoch,
                    },
                );
                proof {
                    assert forall|k: int| 0 <= k < objects@.len() implies (#[trigger] objects@[k]).key@
                        == keyed_entries(entries@.take(i + 1))[k].0 && objects@[k].size
                        == keyed_entries(entries@.take(i + 1))[k].1 && objects@[k].modified_at
                        == epoch by {
                        if k < before.len() {
                            assert(objects@[k] == before[k]);
                        }
                    }
                }
            },
            None => {},
        }
        i = i + 1;
    }
    proof {
        assert(entries@.take(entries.len() as int) =~= entries@);
    }
    let next_after_key = if objects.len() == 0 {
        String::new()
    } else {
        objects[objects.len() - 1].key.clone()
    };
    let has_more = match is_truncated {
        Some(t) => t,
        None => false,
    };
    ListPage { objects, has_more, next_after_key }
}

/// What a head response says of an object.
pub fn object_info_from_head(
    key: &str,
    content_length: Option<i64>,
    content_type: Option<String>,
    modified_at: UtcTime,
) -> (info: ObjectInfo)
    ensures
        info.key@ == key@,
        info.size == reported_size(content_length),
        info.content_type@ == match content_type {
            Some(t) => t@,
            None => Seq::empty(),
        },
        info.modified_at == modified_at,
{
    ObjectInfo {
        key: key.to_string(),
        size: size_of_report(content_length),
        content_type: match content_type {
            Some(t) => t,
            None => String::new(),
        },
        modified_at,
    }
}


/// Which keys the S3 side refuses: an empty key or one of slashes only, a key
/// holding a backslash anywhere, and a key with a `..` segment (shown here
/// for a key that does not start with a slash: `..` at its start, or after a
/// slash, ending it or followed by a slash).
pub proof fn lemma_refused_object_keys(key: Seq<char>, x: Seq<char>, y: Seq<char>)
    ensures
        (forall|k: int| 0 <= k < key.len() ==> key[k] == '/') ==> !valid_object_key_spec(key),
        key.contains('\\') ==> !valid_object_key_spec(key),
        key.len() > 0 && key[0] != '/' && key == x + "/.."@ + y && (y.len() == 0 || y[0] == '/')
            ==> !valid_object_key_spec(key),
        key.len() >= 2 && key[0] == '.' && key[1] == '.' && (key.len() == 2 || key[2] == '/')
            ==> !valid_object_key_spec(key),
{
    let p = |c: char| is_slash_char(c);
    let clean = trim_start_by(key, p);
    if forall|k: int| 0 <= k < key.len() ==> key[k] == '/' {
        assert forall|k: int| 0 <= k < key.len() implies p(#[trigger] key[k]) by {}
        lemma_trim_start_all(key, p);
    }
    if key.contains('\\') {
        let i = choose|i: int| 0 <= i < key.len() && key[i] == '\\';
        lemma_trim_start_keeps_other(key, p, i);
    }
    if key.len() > 0 && key[0] != '/' {
        lemma_trim_start_noop(key, p);
        reveal_strlit("/..");
        if key == x + "/.."@ + y && (y.len() == 0 || y[0] == '/') {
            let i: int = x.len() as int + 1;
            assert(key[i] == '.' && key[i + 1] == '.' && key[i - 1] == '/');
            assert(i + 2 == key.len() || key[i + 2] == y[0]);
            assert(has_parent_segment(clean));
        }
        if key.len() >= 2 && key[0] == '.' && key[1] == '.' && (key.len() == 2 || key[2] == '/') {
            assert(clean[0] == '.');
            assert(has_parent_segment(clean));
        }
    }
}


/// The region named in a B2 host is read back: `s3.<region>.backblazeb2.com`
/// gives `<region>`.
pub proof fn lemma_region_of_b2_host(region: Seq<char>)
    ensures
        region_of_host("s3."@ + region + ".backblazeb2.com"@) == Some(region),
{
    reveal_strlit("s3.");
    reveal_strlit(".backblazeb2.com");
    let a = "s3."@;
    let b = ".backblazeb2.com"@;
    let host = a + region + b;
    assert(host.take(3) =~= a);
    assert(host.skip(3) =~= region + b);
    assert((region + b).skip((region + b).len() - b.len()) =~= b);
    assert(host.skip(3).take(host.len() - 3 - 16) =~= region);
}

/// Path-style addressing is off exactly when the variable, trimmed, is
/// `false`; it is on when the variable is unset or blank.
pub proof fn lemma_force_path_style(value: Option<String>)
    ensures
        value is None ==> force_path_style_spec(value),
        value matches Some(v) ==> (trim_ws(v@).len() == 0 ==> force_path_style_spec(value)),
        value matches Some(v) ==> (trim_ws(v@) == "false"@ ==> !force_path_style_spec(value)),
        value matches Some(v) ==> (trim_ws(v@).len() > 0 && trim_ws(v@) != "false"@
            ==> force_path_style_spec(value)),
{
    reveal_strlit("false");
}

} // verus!
