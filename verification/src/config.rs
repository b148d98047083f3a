//! Runtime configuration, read from the values of the service's environment
//! variables.
use crate::error::ServiceError;
use crate::storage::b2::{debug_quoted, debug_text};
use crate::text::{append_str, chars_of, decimal, digit_char, starts_with_str, str_equal, string_of};
use vstd::prelude::*;

verus! {

broadcast use vstd::string::group_string_axioms;

pub const DEFAULT_STORAGE_PROVIDER: &'static str = "filesystem";

pub const DEFAULT_FILESYSTEM_ROOT: &'static str = ".s3-message-data";

pub const DEFAULT_HTTP_ADDRESS: &'static str = ":8080";

pub const DEFAULT_MAX_PAGE_SIZE: usize = 100;

pub const DEFAULT_READ_LOOKBACK_MINUTES: usize = 43_200;

/// The settings of one running service.
#[derive(Clone, Debug, PartialEq, Eq)]
pub struct Config {
    pub storage_provider: String,
    pub filesystem_root: String,
    pub object_namespace: String,
    pub http_address: String,
    pub max_page_size: usize,
    pub read_lookback_minutes: usize,
}

/// The raw values of the service's environment variables; `None` for one that
/// is unset or not valid Unicode.
#[derive(Clone, Debug, Default, PartialEq, Eq)]
pub struct ConfigEnv {
    /// `S3MS_STORAGE_PROVIDER`
    pub storage_provider: Option<String>,
    /// `S3MS_FILESYSTEM_ROOT`
    pub filesystem_root: Option<String>,
    /// `S3MS_OBJECT_NAMESPACE`
    pub object_namespace: Option<String>,
    /// `S3MS_HTTP_ADDR`
    pub http_address: Option<String>,
    /// `S3MS_MAX_PAGE_SIZE`
    pub max_page_size: Option<String>,
    /// `S3MS_READ_LOOKBACK_MINUTES`
    pub read_lookback_minutes: Option<String>,
}

pub open spec fn env_or(value: Option<String>, fallback: Seq<char>) -> Seq<char> {
    match value {
        Some(v) => v@,
        None => fallback,
    }
}

pub open spec fn is_digit(c: char) -> bool {
    '0' <= c <= '9'
}

/// The number the decimal digits `d` spell.
pub open spec fn digits_value(d: Seq<char>) -> nat
    decreases d.len(),
{
    if d.len() == 0 {
        0
    } else {
        digits_value(d.drop_last()) * 10 + ((d.last() as u32) - 48) as nat
    }
}

/// The digits of a number, after its optional leading `+`.
pub open spec fn unsigned_digits(s: Seq<char>) -> Seq<char> {
    if s.len() > 0 && s[0] == '+' {
        s.skip(1)
    } else {
        s
    }
}

pub open spec fn all_digits(d: Seq<char>) -> bool {
    forall|k: int| 0 <= k < d.len() ==> is_digit(#[trigger] d[k])
}

/// What `str::parse::<usize>` accepts: an optional `+` and at least one digit,
/// for a value that fits in `usize`.
pub open spec fn parse_usize_spec(s: Seq<char>) -> Option<nat> {
    let d = unsigned_digits(s);
    if d.len() > 0 && all_digits(d) && digits_value(d) <= usize::MAX {
        Some(digits_value(d))
    } else {
        None
    }
}

pub open spec fn env_usize_or(value: Option<String>, fallback: usize) -> nat {
    match value {
        Some(v) => match parse_usize_spec(v@) {
            Some(n) => n,
            None => fallback as nat,
        },
        None => fallback as nat,
    }
}

/// `str::parse::<usize>`.
pub fn parse_usize(s: &str) -> (r: Option<usize>)
    ensures
        match parse_usize_spec(s@) {
            Some(n) => r == Some(n as usize),
            None => r is None,
        },
{
    let chars = chars_of(s);
    let start: usize = if chars.len() > 0 && chars[0] == '+' {
        1
    } else {
        0
    };
    let ghost d = unsigned_digits(s@);
    proof {
        assert(d =~= chars@.skip(start as int));
    }
    if start >= chars.len() {
        return None;
    }
    let mut value: usize = 0;
    let mut i: usize = start;
    while i < chars.len()
        invariant
            start <= i <= chars.len(),
            chars@ == s@,
            d == unsigned_digits(s@),
            d == chars@.skip(start as int),
            value == digits_value(chars@.subrange(start as int, i as int)),
            forall|k: int| start <= k < i ==> is_digit(#[trigger] chars@[k]),
        decreases chars.len() - i,
    {
        let c = chars[i];
        proof {
            assert(chars@.subrange(start as int, i + 1).drop_last() =~= chars@.subrange(
                start as int,
                i as int,
            ));
        }
        if !('0' <= c && c <= '9') {
            proof {
                assert(d[i - start] == c);
                assert(!is_digit(d[i - start]));
                assert(!all_digits(d));
            }
            return None;
        }
        let digit = (c as u32 - 48) as usize;
        let ghost next = chars@.subrange(start as int, i + 1);
        proof {
            assert(next.last() == c);
            assert(digits_value(next) == value * 10 + digit);
        }
        match value.checked_mul(10) {
            Some(v) => match v.checked_add(digit) {
                Some(w) => {
                    value = w;
                },
                None => {
                    proof {
                        assert(d.take(i + 1 - start) =~= next);
                        lemma_overflow_rejects(d, i + 1 - start);
                    }
                    return None;
                },
            },
            None => {
                proof {
                    assert(d.take(i + 1 - start) =~= next);
                    lemma_overflow_rejects(d, i + 1 - start);
                }
                return None;
            },
        }
        i = i + 1;
    }
    proof {
        assert(chars@.subrange(start as int, chars.len() as int) =~= d);
        assert forall|k: int| 0 <= k < d.len() implies is_digit(#[trigger] d[k]) by {
            assert(d[k] == chars@[start + k]);
        }
        assert(all_digits(d));
    }
    Some(value)
}

/// Digits whose prefix already spells more than `usize::MAX` do not parse.
proof fn lemma_overflow_rejects(d: Seq<char>, n: int)
    requires
        0 <= n <= d.len(),
        forall|k: int| 0 <= k < n ==> is_digit(#[trigger] d[k]),
        digits_value(d.take(n)) > usize::MAX,
    ensures
        !(all_digits(d) && digits_value(d) <= usize::MAX),
{
    if all_digits(d) {
        lemma_digits_value_prefix(d, n);
    }
}

/// A prefix of digits spells no more than the whole.
proof fn lemma_digits_value_prefix(d: Seq<char>, n: int)
    requires
        0 <= n <= d.len(),
        forall|k: int| 0 <= k < d.len() ==> is_digit(#[trigger] d[k]),
    ensures
        digits_value(d.take(n)) <= digits_value(d),
    decreases d.len() - n,
{
    if n < d.len() {
        lemma_digits_value_prefix(d, n + 1);
        assert(d.take(n + 1).drop_last() =~= d.take(n));
        assert(is_digit(d[n]));
    } else {
        assert(d.take(n) =~= d);
    }
}

fn env_value_or(value: &Option<String>, fallback: &str) -> (r: String)
    ensures
        r@ == env_or(*value, fallback@),
{
    match value {
        Some(v) => v.clone(),
        None => fallback.to_string(),
    }
}

fn env_usize_value_or(value: &Option<String>, fallback: usize) -> (r: usize)
    ensures
        r == env_usize_or(*value, fallback),
{
    match value {
        Some(v) => match parse_usize(v.as_str()) {
            Some(n) => n,
            None => fallback,
        },
        None => fallback,
    }
}

/// A storage provider this service can use.
pub open spec fn supported_provider(p: Seq<char>) -> bool {
    p == "filesystem"@ || p == "b2"@ || p == "backblaze-b2"@
}

pub open spec fn is_configuration_error(e: ServiceError, message: Seq<char>) -> bool {
    e matches ServiceError::Configuration(m) && m@ == message
}

impl Config {
    /// The configuration the environment describes: each unset variable takes
    /// its default, unparsable numbers too. An unsupported provider, or a zero
    /// page size or lookback, is a configuration error, checked in that order.
    pub fn load_from_env(env: &ConfigEnv) -> (r: Result<Config, ServiceError>)
        ensures
            ({
                let provider = env_or(env.storage_provider, DEFAULT_STORAGE_PROVIDER@);
                let max_page_size = env_usize_or(env.max_page_size, DEFAULT_MAX_PAGE_SIZE);
                let lookback = env_usize_or(
                    env.read_lookback_minutes,
                    DEFAULT_READ_LOOKBACK_MINUTES,
                );
                &&& (!supported_provider(provider) ==> (r matches Err(e) && is_configuration_error(
                    e,
                    "unsupported storage provider "@ + debug_text(provider),
                )))
                &&& (supported_provider(provider) && max_page_size == 0 ==> (r matches Err(e)
                    && is_configuration_error(e, "S3MS_MAX_PAGE_SIZE must be positive"@)))
                &&& (supported_provider(provider) && max_page_size > 0 && lookback == 0 ==> (r matches Err(
                    e,
                ) && is_configuration_error(e, "S3MS_READ_LOOKBACK_MINUTES must be positive"@)))
                &&& (supported_provider(provider) && max_page_size > 0 && lookback > 0 ==> (r matches Ok(
                    c,
                ) && c.storage_provider@ == provider && c.filesystem_root@ == env_or(
                    env.filesystem_root,
                    DEFAULT_FILESYSTEM_ROOT@,
                ) && c.object_namespace@ == env_or(env.object_namespace, Seq::empty())
                    && c.http_address@ == env_or(env.http_address, DEFAULT_HTTP_ADDRESS@)
                    && c.max_page_size == max_page_size && c.read_lookback_minutes == lookback))
                &&& (r is Ok <==> ((provider == "filesystem"@ || provider == "b2"@ || provider
                    == "backblaze-b2"@) && max_page_size > 0 && lookback > 0))
            }),
    {
        let config = Config {
            storage_provider: env_value_or(&env.storage_provider, DEFAULT_STORAGE_PROVIDER),
            filesystem_root: env_value_or(&env.filesystem_root, DEFAULT_FILESYSTEM_ROOT),
            object_namespace: env_value_or(&env.object_namespace, ""),
            http_address: env_value_or(&env.http_address, DEFAULT_HTTP_ADDRESS),
            max_page_size: env_usize_value_or(&env.max_page_size, DEFAULT_MAX_PAGE_SIZE),
            read_lookback_minutes: env_usize_value_or(
                &env.read_lookback_minutes,
                DEFAULT_READ_LOOKBACK_MINUTES,
            ),
        };
        proof {
            reveal_strlit("");
        }
        let provider = config.storage_provider.as_str();
        if !str_equal(provider, "filesystem") && !str_equal(provider, "b2") && !str_equal(
            provider,
            "backblaze-b2",
        ) {
            let mut message = chars_of("unsupported storage provider ");
            append_str(&mut message, debug_quoted(provider).as_str());
            return Err(ServiceError::Configuration(string_of(&message)));
        }
        if config.max_page_size == 0 {
            return Err(
                ServiceError::Configuration("S3MS_MAX_PAGE_SIZE must be positive".to_string()),
            );
        }
        if config.read_lookback_minutes == 0 {
            return Err(
                ServiceError::Configuration(
                    "S3MS_READ_LOOKBACK_MINUTES must be positive".to_string(),
                ),
            );
        }
        Ok(config)
    }
}

/// The address to listen on: an address that gives only a port (`:8080`)
/// listens on every interface.
pub fn normalize_bind_address(address: &str) -> (r: String)
    ensures
        r@ == if address@.len() > 0 && address@[0] == ':' {
            "0.0.0.0"@ + address@
        } else {
            address@
        },
{
    let chars = chars_of(address);
    if starts_with_str(&chars, ":") {
        proof {
            reveal_strlit(":");
            assert(chars@.take(1)[0] == chars@[0]);
        }
        let mut out = chars_of("0.0.0.0");
        append_str(&mut out, address);
        string_of(&out)
    } else {
        proof {
            reveal_strlit(":");
            if chars@.len() > 0 && chars@[0] == ':' {
                assert(chars@.take(1) =~= ":"@);
            }
        }
        address.to_string()
    }
}


/// The decimal text of a number spells that number.
proof fn lemma_digits_value_of_decimal(n: nat)
    ensures
        digits_value(decimal(n)) == n,
        decimal(n).len() > 0,
        all_digits(decimal(n)),
    decreases n,
{
    let d = decimal(n);
    if n < 10 {
        assert(((n + 48) as u8) as int == n + 48);
        assert(d.drop_last() =~= Seq::<char>::empty());
        assert(d.last() == digit_char(n as int));
        assert((digit_char(n as int) as u32) as int == n + 48);
        assert(digits_value(d) == digits_value(d.drop_last()) * 10 + ((d.last() as u32) - 48) as nat);
    } else {
        lemma_digits_value_of_decimal(n / 10);
        let m = (n % 10) as int;
        assert(((m + 48) as u8) as int == m + 48);
        assert(d.drop_last() == decimal(n / 10));
        assert(d.last() == digit_char(m));
        assert((digit_char(m) as u32) as int == m + 48);
        assert(digits_value(d) == digits_value(d.drop_last()) * 10 + ((d.last() as u32) - 48) as nat);
        vstd::arithmetic::div_mod::lemma_fundamental_div_mod(n as int, 10);
        assert forall|k: int| 0 <= k < d.len() implies is_digit(#[trigger] d[k]) by {
            if k < d.len() - 1 {
                assert(d[k] == decimal(n / 10)[k]);
            }
        }
    }
}

/// A number written in decimal, with or without a leading `+`, parses back to
/// that number when it fits in `usize`.
pub proof fn lemma_parse_usize_reads_decimal(n: nat)
    requires
        n <= usize::MAX,
    ensures
        parse_usize_spec(decimal(n)) == Some(n),
        parse_usize_spec(seq!['+'] + decimal(n)) == Some(n),
{
    lemma_digits_value_of_decimal(n);
    let d = decimal(n);
    assert(d[0] != '+') by {
        assert(is_digit(d[0]));
    }
    assert((seq!['+'] + d).skip(1) =~= d);
}

} // verus!
