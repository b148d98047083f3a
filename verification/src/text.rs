//! Character classes, trimming and small text builders shared by the key,
//! cursor and configuration modules.
//!
//! Text is modelled as `Seq<char>`, the view vstd gives `str` and `String`.
use vstd::prelude::*;
use vstd::std_specs::iter::IteratorSpec;
use vstd::utf8::encode_utf8;

verus! {

broadcast use vstd::string::group_string_axioms;

// ---------------------------------------------------------------------
// Character classes that std decides.
// ---------------------------------------------------------------------

/// Whether `c` has the Unicode `White_Space` property, as `char::is_whitespace` reports it.
pub uninterp spec fn white_space(c: char) -> bool;

/// Whether `c` is alphabetic or numeric, as `char::is_alphanumeric` reports it.
pub uninterp spec fn alphanumeric(c: char) -> bool;

/// The lowercase mapping of `c`, as `char::to_lowercase` yields it.
pub uninterp spec fn lowercase_of(c: char) -> Seq<char>;

pub open spec fn is_ascii_char(c: char) -> bool {
    c <= '\u{7f}'
}

pub open spec fn ascii_upper(c: char) -> bool {
    'A' <= c <= 'Z'
}

pub open spec fn ascii_lower(c: char) -> bool {
    'a' <= c <= 'z'
}

pub open spec fn ascii_digit(c: char) -> bool {
    '0' <= c <= '9'
}

pub open spec fn ascii_alphanumeric(c: char) -> bool {
    ascii_upper(c) || ascii_lower(c) || ascii_digit(c)
}

/// The ASCII members of `White_Space`: tab, line feed, vertical tab, form feed,
/// carriage return and space.
pub open spec fn ascii_white_space(c: char) -> bool {
    ('\t' <= c <= '\r') || c == ' '
}

pub open spec fn ascii_to_lower(c: char) -> char {
    if ascii_upper(c) {
        ((c as u32) + 32) as char
    } else {
        c
    }
}

/// `char::is_whitespace`. Claims: the result is `white_space(c)`, and for an
/// ASCII character it is true exactly for tab, line feed, vertical tab, form
/// feed, carriage return and space. Which non-ASCII characters count is left
/// to the name.
#[verifier::external_body]
pub(crate) fn char_is_whitespace(c: char) -> (r: bool)
    ensures
        r == white_space(c),
        is_ascii_char(c) ==> (r == ascii_white_space(c)),
{
    c.is_whitespace()
}

/// `char::is_alphanumeric`. Claims: the result is `alphanumeric(c)`, and for
/// an ASCII character it is true exactly for the letters and digits.
#[verifier::external_body]
pub(crate) fn char_is_alphanumeric(c: char) -> (r: bool)
    ensures
        r == alphanumeric(c),
        is_ascii_char(c) ==> (r == ascii_alphanumeric(c)),
{
    c.is_alphanumeric()
}

/// `char::to_lowercase`, collected. Claims: the result is `lowercase_of(c)`,
/// it holds one to three characters, and an ASCII character maps to itself
/// with `A`..`Z` shifted to `a`..`z`.
#[verifier::external_body]
pub(crate) fn char_to_lowercase(c: char) -> (r: Vec<char>)
    ensures
        r@ == lowercase_of(c),
        1 <= r@.len() <= 3,
        is_ascii_char(c) ==> r@ == seq![ascii_to_lower(c)],
{
    c.to_lowercase().collect()
}

/// `String::push`. Claims: the character is appended.
#[verifier::external_body]
pub(crate) fn push_char(s: &mut String, c: char)
    ensures
        final(s)@ == old(s)@.push(c),
{
    s.push(c)
}

// ---------------------------------------------------------------------
// Specifications over character sequences.
// ---------------------------------------------------------------------

/// Drops the leading characters that satisfy `p`.
pub open spec fn trim_start_by(s: Seq<char>, p: spec_fn(char) -> bool) -> Seq<char>
    decreases s.len(),
{
    if s.len() > 0 && p(s[0]) {
        trim_start_by(s.drop_first(), p)
    } else {
        s
    }
}

/// Drops the trailing characters that satisfy `p`.
pub open spec fn trim_end_by(s: Seq<char>, p: spec_fn(char) -> bool) -> Seq<char>
    decreases s.len(),
{
    if s.len() > 0 && p(s.last()) {
        trim_end_by(s.drop_last(), p)
    } else {
        s
    }
}

/// Drops the leading and the trailing characters that satisfy `p`.
pub open spec fn trim_by(s: Seq<char>, p: spec_fn(char) -> bool) -> Seq<char> {
    trim_end_by(trim_start_by(s, p), p)
}

/// What `str::trim` leaves of `s`.
pub open spec fn trim_ws(s: Seq<char>) -> Seq<char> {
    trim_by(s, |c: char| white_space(c))
}

/// `s` is empty or holds only whitespace.
pub open spec fn blank(s: Seq<char>) -> bool {
    forall|i: int| 0 <= i < s.len() ==> white_space(#[trigger] s[i])
}

/// The number of bytes of the UTF-8 encoding of `s`, which is what `str::len` reports.
pub open spec fn utf8_len(s: Seq<char>) -> nat {
    encode_utf8(s).len()
}

/// The number of UTF-8 bytes of one character, as `char::len_utf8` reports it.
pub open spec fn char_width(c: char) -> nat {
    if (c as u32) < 0x80 {
        1
    } else if (c as u32) < 0x800 {
        2
    } else if (c as u32) < 0x10000 {
        3
    } else {
        4
    }
}

pub open spec fn is_prefix(p: Seq<char>, s: Seq<char>) -> bool {
    p.len() <= s.len() && s.take(p.len() as int) == p
}

pub open spec fn is_suffix(p: Seq<char>, s: Seq<char>) -> bool {
    p.len() <= s.len() && s.skip(s.len() - p.len()) == p
}

/// `needle` occurs in `s` as a contiguous piece.
pub open spec fn contains_seq(s: Seq<char>, needle: Seq<char>) -> bool {
    exists|i: int|
        0 <= i && i + needle.len() <= s.len() && #[trigger] s.subrange(i, i + needle.len()) == needle
}

/// Lexicographic order by code point, which is the order of `String`'s `Ord`
/// (UTF-8 preserves code point order byte by byte).
pub open spec fn lex_less(a: Seq<char>, b: Seq<char>) -> bool {
    exists|i: int|
        0 <= i <= a.len() && i <= b.len() && #[trigger] a.take(i) == b.take(i) && ((i < a.len()
            && i < b.len() && a[i] < b[i]) || (i == a.len() && i < b.len()))
}

// ---------------------------------------------------------------------
// Lemmas.
// ---------------------------------------------------------------------

pub proof fn lemma_char_width(c: char)
    ensures
        encode_utf8(seq![c]).len() == char_width(c),
{
    assert(seq![c].drop_first() =~= Seq::<char>::empty());
    assert(encode_utf8(seq![c]) == vstd::utf8::encode_scalar(c as u32) + encode_utf8(
        Seq::<char>::empty(),
    ));
}

pub proof fn lemma_utf8_len_concat(a: Seq<char>, b: Seq<char>)
    ensures
        encode_utf8(a + b) == encode_utf8(a) + encode_utf8(b),
    decreases a.len(),
{
    if a.len() == 0 {
        assert(a + b =~= b);
        assert(encode_utf8(a) =~= Seq::<u8>::empty());
        assert(encode_utf8(a) + encode_utf8(b) =~= encode_utf8(b));
    } else {
        assert((a + b).drop_first() =~= a.drop_first() + b);
        assert((a + b)[0] == a[0]);
        lemma_utf8_len_concat(a.drop_first(), b);
        assert(encode_utf8(a + b) =~= encode_utf8(a) + encode_utf8(b));
    }
}

pub proof fn lemma_utf8_len_push(a: Seq<char>, c: char)
    ensures
        utf8_len(a.push(c)) == utf8_len(a) + char_width(c),
{
    assert(a.push(c) =~= a + seq![c]);
    lemma_utf8_len_concat(a, seq![c]);
    lemma_char_width(c);
}

pub proof fn lemma_utf8_len_empty()
    ensures
        utf8_len(Seq::<char>::empty()) == 0,
{
}

pub proof fn lemma_trim_start_skip(s: Seq<char>, p: spec_fn(char) -> bool, i: int)
    requires
        0 <= i < s.len(),
        p(s[i]),
    ensures
        trim_start_by(s.subrange(i, s.len() as int), p) == trim_start_by(
            s.subrange(i + 1, s.len() as int),
            p,
        ),
{
    assert(s.subrange(i, s.len() as int).drop_first() =~= s.subrange(i + 1, s.len() as int));
}

pub proof fn lemma_trim_end_skip(s: Seq<char>, p: spec_fn(char) -> bool, j: int)
    requires
        0 < j <= s.len(),
        p(s[j - 1]),
    ensures
        trim_end_by(s.subrange(0, j), p) == trim_end_by(s.subrange(0, j - 1), p),
{
    assert(s.subrange(0, j).drop_last() =~= s.subrange(0, j - 1));
}

// ---------------------------------------------------------------------
// Executable helpers.
// ---------------------------------------------------------------------

/// The characters of `s`, in order.
pub fn chars_of(s: &str) -> (out: Vec<char>)
    ensures
        out@ == s@,
{
    let mut out: Vec<char> = Vec::new();
    let mut it = s.chars();
    loop
        invariant
            out@ + it.remaining() == s@,
            it.obeys_prophetic_iter_laws(),
            it.decrease() is Some,
        ensures
            out@ == s@,
        decreases it.decrease()->0,
    {
        match it.next() {
            Some(c) => {
                out.push(c);
            },
            None => {
                break ;
            },
        }
    }
    out
}

/// A `String` holding `chars`.
pub fn string_of(chars: &Vec<char>) -> (out: String)
    ensures
        out@ == chars@,
{
    let mut out = String::new();
    let mut i: usize = 0;
    while i < chars.len()
        invariant
            i <= chars.len(),
            out@ == chars@.take(i as int),
        decreases chars.len() - i,
    {
        push_char(&mut out, chars[i]);
        assert(chars@.take(i as int).push(chars@[i as int]) =~= chars@.take(i + 1));
        i = i + 1;
    }
    assert(chars@.take(chars.len() as int) =~= chars@);
    out
}

/// The characters `s[from..to]`.
pub fn copy_range(s: &Vec<char>, from: usize, to: usize) -> (out: Vec<char>)
    requires
        from <= to <= s.len(),
    ensures
        out@ == s@.subrange(from as int, to as int),
{
    let mut out: Vec<char> = Vec::new();
    let mut k: usize = from;
    while k < to
        invariant
            from <= k <= to,
            to <= s.len(),
            out@ == s@.subrange(from as int, k as int),
        decreases to - k,
    {
        out.push(s[k]);
        assert(s@.subrange(from as int, k as int).push(s@[k as int]) =~= s@.subrange(
            from as int,
            k + 1,
        ));
        k = k + 1;
    }
    out
}

/// The index of the first character of `s` whose flag is false; `s.len()` when every flag is set.
fn first_unflagged(s: &Vec<char>, flags: &Vec<bool>, Ghost(p): Ghost<spec_fn(char) -> bool>) -> (i:
    usize)
    requires
        flags.len() == s.len(),
        forall|k: int| 0 <= k < s.len() ==> flags[k] == p(#[trigger] s[k]),
    ensures
        i <= s.len(),
        trim_start_by(s@, p) == s@.subrange(i as int, s.len() as int),
        i < s.len() ==> !p(s[i as int]),
        forall|k: int| 0 <= k < i ==> p(#[trigger] s[k]),
{
    let mut i: usize = 0;
    assert(s@.subrange(0, s.len() as int) =~= s@);
    while i < s.len() && flags[i]
        invariant
            i <= s.len(),
            flags.len() == s.len(),
            forall|k: int| 0 <= k < s.len() ==> flags[k] == p(#[trigger] s[k]),
            trim_start_by(s@, p) == trim_start_by(s@.subrange(i as int, s.len() as int), p),
            forall|k: int| 0 <= k < i ==> p(#[trigger] s[k]),
        decreases s.len() - i,
    {
        proof {
            lemma_trim_start_skip(s@, p, i as int);
        }
        i = i + 1;
    }
    proof {
        let rest = s@.subrange(i as int, s.len() as int);
        if i < s.len() {
            assert(rest[0] == s@[i as int]);
        } else {
            assert(rest.len() == 0);
        }
    }
    i
}

/// The end of `s[from..]` once its trailing flagged characters are dropped.
fn last_unflagged_end(
    s: &Vec<char>,
    flags: &Vec<bool>,
    from: usize,
    Ghost(p): Ghost<spec_fn(char) -> bool>,
) -> (j: usize)
    requires
        flags.len() == s.len(),
        from <= s.len(),
        forall|k: int| 0 <= k < s.len() ==> flags[k] == p(#[trigger] s[k]),
    ensures
        from <= j <= s.len(),
        trim_end_by(s@.subrange(from as int, s.len() as int), p) == s@.subrange(
            from as int,
            j as int,
        ),
        forall|k: int| j <= k < s.len() ==> p(#[trigger] s[k]),
{
    let ghost t = s@.subrange(from as int, s.len() as int);
    let mut j: usize = s.len();
    assert(t.subrange(0, t.len() as int) =~= t);
    while j > from && flags[j - 1]
        invariant
            from <= j <= s.len(),
            flags.len() == s.len(),
            t == s@.subrange(from as int, s.len() as int),
            forall|k: int| 0 <= k < s.len() ==> flags[k] == p(#[trigger] s[k]),
            trim_end_by(t, p) == trim_end_by(t.subrange(0, j - from), p),
            forall|k: int| j <= k < s.len() ==> p(#[trigger] s[k]),
        decreases j,
    {
        proof {
            assert(t[j - 1 - from] == s@[j - 1]);
            lemma_trim_end_skip(t, p, j - from);
        }
        j = j - 1;
    }
    proof {
        let kept = t.subrange(0, j - from);
        assert(kept =~= s@.subrange(from as int, j as int));
        if j > from {
            assert(kept.last() == s@[j - 1]);
        }
    }
    j
}

/// Drops the leading and trailing characters of `s` whose flag is set.
pub fn trim_flagged(s: &Vec<char>, flags: &Vec<bool>, Ghost(p): Ghost<spec_fn(char) -> bool>) -> (out:
    Vec<char>)
    requires
        flags.len() == s.len(),
        forall|k: int| 0 <= k < s.len() ==> flags[k] == p(#[trigger] s[k]),
    ensures
        out@ == trim_by(s@, p),
{
    let i = first_unflagged(s, flags, Ghost(p));
    let j = last_unflagged_end(s, flags, i, Ghost(p));
    copy_range(s, i, j)
}

/// Drops the leading characters of `s` whose flag is set.
pub fn trim_start_flagged(
    s: &Vec<char>,
    flags: &Vec<bool>,
    Ghost(p): Ghost<spec_fn(char) -> bool>,
) -> (out: Vec<char>)
    requires
        flags.len() == s.len(),
        forall|k: int| 0 <= k < s.len() ==> flags[k] == p(#[trigger] s[k]),
    ensures
        out@ == trim_start_by(s@, p),
{
    let i = first_unflagged(s, flags, Ghost(p));
    copy_range(s, i, s.len())
}

/// One flag per character: whether it is whitespace.
pub fn whitespace_flags(s: &Vec<char>) -> (flags: Vec<bool>)
    ensures
        flags.len() == s.len(),
        forall|k: int| 0 <= k < s.len() ==> flags[k] == white_space(#[trigger] s[k]),
{
    let mut flags: Vec<bool> = Vec::new();
    let mut i: usize = 0;
    while i < s.len()
        invariant
            i <= s.len(),
            flags.len() == i,
            forall|k: int| 0 <= k < i ==> flags[k] == white_space(#[trigger] s[k]),
        decreases s.len() - i,
    {
        let w = char_is_whitespace(s[i]);
        flags.push(w);
        i = i + 1;
    }
    flags
}

/// `str::trim` on a character vector.
pub fn trim_chars(s: &Vec<char>) -> (out: Vec<char>)
    ensures
        out@ == trim_ws(s@),
{
    let flags = whitespace_flags(s);
    trim_flagged(s, &flags, Ghost(|c: char| white_space(c)))
}

/// `str::trim`: `s` without its leading and trailing whitespace.
pub fn trim(s: &str) -> (out: String)
    ensures
        out@ == trim_ws(s@),
{
    let chars = chars_of(s);
    let t = trim_chars(&chars);
    string_of(&t)
}

/// Whether `s` is empty or all whitespace, i.e. whether `s.trim()` is empty.
pub fn is_blank(s: &str) -> (r: bool)
    ensures
        r == blank(s@),
        r == (trim_ws(s@).len() == 0),
{
    let chars = chars_of(s);
    let flags = whitespace_flags(&chars);
    let ghost p = |c: char| white_space(c);
    let i = first_unflagged(&chars, &flags, Ghost(p));
    let j = last_unflagged_end(&chars, &flags, i, Ghost(p));
    proof {
        if i < chars.len() {
            assert(!white_space(chars@[i as int]));
            assert(j > i) by {
                if j <= i {
                    assert(p(chars@[i as int]));
                }
            }
        }
    }
    i == chars.len()
}


// ---------------------------------------------------------------------
// Decimal and hexadecimal digits.
// ---------------------------------------------------------------------

pub open spec fn digit_char(d: int) -> char {
    ((d + 48) as u8) as char
}

pub open spec fn pow10(w: nat) -> nat
    decreases w,
{
    if w == 0 {
        1
    } else {
        10 * pow10((w - 1) as nat)
    }
}

/// The decimal digits of `n`, without leading zeros (`"0"` for zero), as `{}` prints it.
pub open spec fn decimal(n: nat) -> Seq<char>
    decreases n,
{
    if n < 10 {
        seq![digit_char(n as int)]
    } else {
        decimal(n / 10).push(digit_char((n % 10) as int))
    }
}

/// `s` preceded by as many `'0'` as it takes to reach `width` characters.
pub open spec fn zero_pad(s: Seq<char>, width: nat) -> Seq<char> {
    if s.len() >= width {
        s
    } else {
        Seq::new((width - s.len()) as nat, |i: int| '0') + s
    }
}

/// `{:0w$}` of an unsigned value.
pub open spec fn padded_decimal(n: nat, width: nat) -> Seq<char> {
    zero_pad(decimal(n), width)
}

/// `{:0w$}` of a signed value: a `'-'` then the digits, the sign counting toward the width.
pub open spec fn padded_signed(v: int, width: nat) -> Seq<char> {
    if v >= 0 {
        padded_decimal(v as nat, width)
    } else {
        seq!['-'] + padded_decimal((-v) as nat, if width >= 1 { (width - 1) as nat } else { 0 })
    }
}

/// The last `width` decimal digits of `n`, leading zeros included.
pub open spec fn fixed_digits(n: nat, width: nat) -> Seq<char>
    decreases width,
{
    if width == 0 {
        Seq::empty()
    } else {
        fixed_digits(n / 10, (width - 1) as nat).push(digit_char((n % 10) as int))
    }
}

pub open spec fn hex_digit(d: int) -> char {
    if d < 10 {
        digit_char(d)
    } else {
        ((d - 10 + 97) as u8) as char
    }
}

/// Two lowercase hexadecimal digits per byte, as `{:x}` prints a digest.
pub open spec fn hex_lower(bytes: Seq<u8>) -> Seq<char>
    decreases bytes.len(),
{
    if bytes.len() == 0 {
        Seq::empty()
    } else {
        hex_lower(bytes.drop_last()) + seq![
            hex_digit((bytes.last() / 16) as int),
            hex_digit((bytes.last() % 16) as int),
        ]
    }
}

pub proof fn lemma_pow10_positive(w: nat)
    ensures
        pow10(w) >= 1,
    decreases w,
{
    if w > 0 {
        lemma_pow10_positive((w - 1) as nat);
    }
}

pub proof fn lemma_decimal_len(n: nat, w: nat)
    requires
        n < pow10(w),
        w >= 1,
    ensures
        1 <= decimal(n).len() <= w,
    decreases n,
{
    if n >= 10 {
        assert(w >= 2) by {
            if w == 1 {
                assert(pow10(1) == 10 * pow10(0));
            }
        }
        assert(pow10(w) == 10 * pow10((w - 1) as nat));
        assert(n / 10 < pow10((w - 1) as nat));
        lemma_decimal_len(n / 10, (w - 1) as nat);
    }
}

pub proof fn lemma_fixed_digits_len(n: nat, w: nat)
    ensures
        fixed_digits(n, w).len() == w,
    decreases w,
{
    if w > 0 {
        lemma_fixed_digits_len(n / 10, (w - 1) as nat);
    }
}

pub proof fn lemma_fixed_digits_zero(w: nat)
    ensures
        fixed_digits(0, w) == Seq::new(w, |i: int| '0'),
    decreases w,
{
    if w > 0 {
        lemma_fixed_digits_zero((w - 1) as nat);
        assert(digit_char(0) == '0');
        assert(fixed_digits(0, w) =~= Seq::new(w, |i: int| '0'));
    }
}

/// Zero padding to `w` digits gives the last `w` digits when the value has at most `w` digits.
pub proof fn lemma_padded_is_fixed(n: nat, w: nat)
    requires
        n < pow10(w),
        w >= 1,
    ensures
        padded_decimal(n, w) == fixed_digits(n, w),
    decreases w,
{
    lemma_decimal_len(n, w);
    if n < 10 {
        lemma_fixed_digits_zero((w - 1) as nat);
        assert(n / 10 == 0);
        assert(padded_decimal(n, w) =~= fixed_digits(n, w));
    } else {
        assert(w >= 2) by {
            if w == 1 {
                assert(pow10(1) == 10 * pow10(0));
            }
        }
        assert(pow10(w) == 10 * pow10((w - 1) as nat));
        assert(n / 10 < pow10((w - 1) as nat));
        lemma_padded_is_fixed(n / 10, (w - 1) as nat);
        lemma_decimal_len(n / 10, (w - 1) as nat);
        let d = decimal(n / 10);
        assert(decimal(n) == d.push(digit_char((n % 10) as int)));
        assert(zero_pad(decimal(n), w) =~= zero_pad(d, (w - 1) as nat).push(
            digit_char((n % 10) as int),
        ));
    }
}

pub proof fn lemma_lex_less_push(a: Seq<char>, b: Seq<char>, x: char, y: char)
    requires
        a.len() == b.len(),
        lex_less(a, b),
    ensures
        lex_less(a.push(x), b.push(y)),
{
    let i = choose|i: int|
        0 <= i <= a.len() && i <= b.len() && #[trigger] a.take(i) == b.take(i) && ((i < a.len()
            && i < b.len() && a[i] < b[i]) || (i == a.len() && i < b.len()));
    assert(a.push(x).take(i) =~= a.take(i));
    assert(b.push(y).take(i) =~= b.take(i));
    assert(a.push(x)[i] == a[i]);
    assert(b.push(y)[i] == b[i]);
}

pub proof fn lemma_lex_less_last(a: Seq<char>, x: char, y: char)
    requires
        x < y,
    ensures
        lex_less(a.push(x), a.push(y)),
{
    let i = a.len() as int;
    assert(a.push(x).take(i) =~= a.push(y).take(i));
}

/// Fixed-width digit strings are ordered as the numbers they spell.
pub proof fn lemma_fixed_digits_order(a: nat, b: nat, w: nat)
    requires
        a < b < pow10(w),
    ensures
        lex_less(fixed_digits(a, w), fixed_digits(b, w)),
    decreases w,
{
    if w == 0 {
        assert(false);
    } else {
        assert(pow10(w) == 10 * pow10((w - 1) as nat));
        lemma_fixed_digits_len(a / 10, (w - 1) as nat);
        lemma_fixed_digits_len(b / 10, (w - 1) as nat);
        if a / 10 < b / 10 {
            lemma_fixed_digits_order(a / 10, b / 10, (w - 1) as nat);
            lemma_lex_less_push(
                fixed_digits(a / 10, (w - 1) as nat),
                fixed_digits(b / 10, (w - 1) as nat),
                digit_char((a % 10) as int),
                digit_char((b % 10) as int),
            );
        } else {
            assert(a / 10 == b / 10);
            assert(a % 10 < b % 10);
            lemma_lex_less_last(
                fixed_digits(a / 10, (w - 1) as nat),
                digit_char((a % 10) as int),
                digit_char((b % 10) as int),
            );
        }
    }
}

/// Zero-padded decimal strings of one width are ordered as the numbers they spell.
pub proof fn lemma_padded_order(a: nat, b: nat, w: nat)
    requires
        a < b < pow10(w),
        w >= 1,
    ensures
        lex_less(padded_decimal(a, w), padded_decimal(b, w)),
{
    lemma_padded_is_fixed(a, w);
    lemma_padded_is_fixed(b, w);
    lemma_fixed_digits_order(a, b, w);
}

/// The digit for `d < 16`.
pub fn hex_digit_char(d: u8) -> (c: char)
    requires
        d < 16,
    ensures
        c == hex_digit(d as int),
{
    if d < 10 {
        (d + 48) as char
    } else {
        (d - 10 + 97) as char
    }
}

/// `{}` of `n`.
pub fn decimal_chars(n: u64) -> (out: Vec<char>)
    ensures
        out@ == decimal(n as nat),
    decreases n,
{
    if n < 10 {
        let c = hex_digit_char(n as u8);
        let mut out: Vec<char> = Vec::new();
        out.push(c);
        assert(out@ =~= seq![digit_char(n as int)]);
        out
    } else {
        let mut out = decimal_chars(n / 10);
        let c = hex_digit_char((n % 10) as u8);
        out.push(c);
        out
    }
}

/// `{:0width$}` of `n`.
pub fn padded_decimal_chars(n: u64, width: usize) -> (out: Vec<char>)
    ensures
        out@ == padded_decimal(n as nat, width as nat),
{
    let digits = decimal_chars(n);
    if digits.len() >= width {
        digits
    } else {
        let mut out: Vec<char> = Vec::new();
        let fill = width - digits.len();
        let mut i: usize = 0;
        while i < fill
            invariant
                i <= fill,
                out@ == Seq::new(i as nat, |k: int| '0'),
            decreases fill - i,
        {
            out.push('0');
            assert(out@ =~= Seq::new((i + 1) as nat, |k: int| '0'));
            i = i + 1;
        }
        let mut j: usize = 0;
        while j < digits.len()
            invariant
                j <= digits.len(),
                out@ == Seq::new(fill as nat, |k: int| '0') + digits@.take(j as int),
            decreases digits.len() - j,
        {
            out.push(digits[j]);
            assert(Seq::new(fill as nat, |k: int| '0') + digits@.take(j + 1) =~= (Seq::new(
                fill as nat,
                |k: int| '0',
            ) + digits@.take(j as int)).push(digits@[j as int]));
            j = j + 1;
        }
        assert(digits@.take(digits.len() as int) =~= digits@);
        out
    }
}

/// `{:0width$}` of a signed value.
pub fn padded_signed_chars(v: i64, width: usize) -> (out: Vec<char>)
    requires
        width >= 1,
    ensures
        out@ == padded_signed(v as int, width as nat),
{
    if v >= 0 {
        padded_decimal_chars(v as u64, width)
    } else {
        let magnitude: u64 = if v == i64::MIN {
            9223372036854775808u64
        } else {
            (-v) as u64
        };
        let digits = padded_decimal_chars(magnitude, width - 1);
        let mut out: Vec<char> = Vec::new();
        out.push('-');
        append_chars(&mut out, &digits);
        out
    }
}

/// Two lowercase hexadecimal digits for each byte of `bytes`.
pub fn hex_lower_chars(bytes: &[u8]) -> (out: Vec<char>)
    ensures
        out@ == hex_lower(bytes@),
{
    let mut out: Vec<char> = Vec::new();
    let mut i: usize = 0;
    while i < bytes.len()
        invariant
            i <= bytes.len(),
            out@ == hex_lower(bytes@.take(i as int)),
        decreases bytes.len() - i,
    {
        let b = bytes[i];
        let hi = hex_digit_char(b / 16);
        let lo = hex_digit_char(b % 16);
        proof {
            assert(bytes@.take(i + 1).drop_last() =~= bytes@.take(i as int));
            assert(bytes@.take(i + 1).last() == b);
        }
        out.push(hi);
        out.push(lo);
        proof {
            assert(out@ =~= hex_lower(bytes@.take(i as int)) + seq![
                hex_digit((b / 16) as int),
                hex_digit((b % 16) as int),
            ]);
        }
        i = i + 1;
    }
    assert(bytes@.take(bytes.len() as int) =~= bytes@);
    out
}

/// Appends the characters of `tail` to `out`.
pub fn append_chars(out: &mut Vec<char>, tail: &Vec<char>)
    ensures
        final(out)@ == old(out)@ + tail@,
{
    let mut j: usize = 0;
    let ghost start = out@;
    while j < tail.len()
        invariant
            j <= tail.len(),
            out@ == start + tail@.take(j as int),
        decreases tail.len() - j,
    {
        out.push(tail[j]);
        assert(start + tail@.take(j + 1) =~= (start + tail@.take(j as int)).push(tail@[j as int]));
        j = j + 1;
    }
    assert(tail@.take(tail.len() as int) =~= tail@);
}

/// Appends the characters of `tail` to `out`.
pub fn append_str(out: &mut Vec<char>, tail: &str)
    ensures
        final(out)@ == old(out)@ + tail@,
{
    let t = chars_of(tail);
    append_chars(out, &t);
}


// ---------------------------------------------------------------------
// Searching.
// ---------------------------------------------------------------------

/// Whether `s[at..]` starts with `needle`.
pub fn matches_at(s: &Vec<char>, at: usize, needle: &Vec<char>) -> (r: bool)
    requires
        at <= s.len(),
    ensures
        r == (at + needle.len() <= s.len() && s@.subrange(at as int, at + needle.len())
            == needle@),
{
    if needle.len() > s.len() - at {
        return false;
    }
    let mut k: usize = 0;
    while k < needle.len()
        invariant
            k <= needle.len(),
            at + needle.len() <= s.len(),
            forall|j: int| 0 <= j < k ==> s@[at + j] == needle@[j],
        decreases needle.len() - k,
    {
        if s[at + k] != needle[k] {
            proof {
                assert(s@.subrange(at as int, at + needle.len())[k as int] == s@[at + k]);
            }
            return false;
        }
        k = k + 1;
    }
    assert(s@.subrange(at as int, at + needle.len()) =~= needle@);
    true
}

/// Whether `needle` occurs in `s`.
pub fn contains_chars(s: &Vec<char>, needle: &Vec<char>) -> (r: bool)
    ensures
        r == contains_seq(s@, needle@),
{
    if needle.len() > s.len() {
        return false;
    }
    if needle.len() == 0 {
        assert(s@.subrange(0, 0 + needle.len()) =~= needle@);
        return true;
    }
    let mut at: usize = 0;
    let last = s.len() - needle.len();
    while at <= last
        invariant
            last == s.len() - needle.len(),
            needle.len() > 0,
            at <= last + 1,
            forall|i: int|
                0 <= i < at ==> #[trigger] s@.subrange(i, i + needle.len()) != needle@,
        decreases last + 1 - at,
    {
        if matches_at(s, at, needle) {
            return true;
        }
        at = at + 1;
    }
    false
}

/// Whether the text `needle` occurs in `s`.
pub fn contains_str(s: &Vec<char>, needle: &str) -> (r: bool)
    ensures
        r == contains_seq(s@, needle@),
{
    let n = chars_of(needle);
    contains_chars(s, &n)
}

/// Whether `s` starts with the text `p`.
pub fn starts_with_str(s: &Vec<char>, p: &str) -> (r: bool)
    ensures
        r == is_prefix(p@, s@),
{
    let n = chars_of(p);
    let r = matches_at(s, 0, &n);
    proof {
        if n.len() <= s.len() {
            assert(s@.subrange(0, n.len() as int) =~= s@.take(n.len() as int));
        }
    }
    r
}

/// Whether `s` ends with the text `p`.
pub fn ends_with_str(s: &Vec<char>, p: &str) -> (r: bool)
    ensures
        r == is_suffix(p@, s@),
{
    let n = chars_of(p);
    if n.len() > s.len() {
        return false;
    }
    let r = matches_at(s, s.len() - n.len(), &n);
    proof {
        assert(s@.subrange(s.len() - n.len(), s.len() as int) =~= s@.skip(s.len() - n.len()));
    }
    r
}

/// Whether the character `c` occurs in `s`.
pub fn contains_char(s: &Vec<char>, c: char) -> (r: bool)
    ensures
        r == s@.contains(c),
{
    let mut i: usize = 0;
    while i < s.len()
        invariant
            i <= s.len(),
            forall|k: int| 0 <= k < i ==> s@[k] != c,
        decreases s.len() - i,
    {
        if s[i] == c {
            return true;
        }
        i = i + 1;
    }
    false
}

/// Whether `a` and `b` hold the same characters.
pub fn chars_equal(a: &Vec<char>, b: &Vec<char>) -> (r: bool)
    ensures
        r == (a@ == b@),
{
    if a.len() != b.len() {
        return false;
    }
    let mut i: usize = 0;
    while i < a.len()
        invariant
            i <= a.len(),
            a.len() == b.len(),
            forall|k: int| 0 <= k < i ==> a[k] == b[k],
        decreases a.len() - i,
    {
        if a[i] != b[i] {
            return false;
        }
        i = i + 1;
    }
    assert(a@ =~= b@);
    true
}

/// Whether the text `a` equals the text `b`.
pub fn str_equal(a: &str, b: &str) -> (r: bool)
    ensures
        r == (a@ == b@),
{
    chars_equal(&chars_of(a), &chars_of(b))
}

pub proof fn lemma_lex_less_irreflexive(a: Seq<char>)
    ensures
        !lex_less(a, a),
{
}

pub proof fn lemma_lex_less_transitive(a: Seq<char>, b: Seq<char>, c: Seq<char>)
    requires
        lex_less(a, b),
        lex_less(b, c),
    ensures
        lex_less(a, c),
{
    let i = choose|i: int|
        0 <= i <= a.len() && i <= b.len() && #[trigger] a.take(i) == b.take(i) && ((i < a.len()
            && i < b.len() && a[i] < b[i]) || (i == a.len() && i < b.len()));
    let j = choose|j: int|
        0 <= j <= b.len() && j <= c.len() && #[trigger] b.take(j) == c.take(j) && ((j < b.len()
            && j < c.len() && b[j] < c[j]) || (j == b.len() && j < c.len()));
    if i < j {
        assert(b.take(i) =~= b.take(j).take(i));
        assert(c.take(i) =~= c.take(j).take(i));
        assert(b[i] == b.take(j)[i]);
        assert(c[i] == c.take(j)[i]);
        assert(a.take(i) == c.take(i));
    } else if j < i {
        assert(a.take(j) =~= a.take(i).take(j));
        assert(b.take(j) =~= b.take(i).take(j));
        assert(a[j] == a.take(i)[j]);
        assert(b[j] == b.take(i)[j]);
        assert(a.take(j) == c.take(j));
    } else {
        assert(a.take(i) == c.take(i));
    }
}

pub proof fn lemma_lex_less_asymmetric(a: Seq<char>, b: Seq<char>)
    requires
        lex_less(a, b),
    ensures
        !lex_less(b, a),
{
    if lex_less(b, a) {
        lemma_lex_less_transitive(a, b, a);
        lemma_lex_less_irreflexive(a);
    }
}

/// Two texts that agree on their first `k` characters are equal or ordered.
proof fn lemma_lex_less_total_from(a: Seq<char>, b: Seq<char>, k: int)
    requires
        0 <= k <= a.len(),
        k <= b.len(),
        a.take(k) == b.take(k),
    ensures
        a == b || lex_less(a, b) || lex_less(b, a),
    decreases a.len() - k,
{
    if k == a.len() && k == b.len() {
        assert(a =~= a.take(k));
        assert(b =~= b.take(k));
    } else if k == a.len() {
        assert(lex_less(a, b));
    } else if k == b.len() {
        assert(b.take(k) == a.take(k));
        assert(lex_less(b, a));
    } else if a[k] < b[k] {
        assert(lex_less(a, b));
    } else if b[k] < a[k] {
        assert(b.take(k) == a.take(k));
        assert(lex_less(b, a));
    } else {
        assert(a.take(k + 1) =~= a.take(k).push(a[k]));
        assert(b.take(k + 1) =~= b.take(k).push(b[k]));
        lemma_lex_less_total_from(a, b, k + 1);
    }
}

/// Code point order is total: of two different texts one sorts first.
pub proof fn lemma_lex_less_total(a: Seq<char>, b: Seq<char>)
    ensures
        a == b || lex_less(a, b) || lex_less(b, a),
{
    assert(a.take(0) =~= b.take(0));
    lemma_lex_less_total_from(a, b, 0);
}

/// Whether `a` sorts before `b` by code point.
pub fn chars_less(a: &Vec<char>, b: &Vec<char>) -> (r: bool)
    ensures
        r == lex_less(a@, b@),
{
    let mut i: usize = 0;
    while i < a.len() && i < b.len() && a[i] == b[i]
        invariant
            i <= a.len(),
            i <= b.len(),
            forall|k: int| 0 <= k < i ==> a@[k] == b@[k],
        decreases a.len() - i,
    {
        i = i + 1;
    }
    let r = if i < a.len() && i < b.len() {
        a[i] < b[i]
    } else {
        i == a.len() && i < b.len()
    };
    proof {
        assert(a@.take(i as int) =~= b@.take(i as int));
        if lex_less(a@, b@) {
            let w = choose|w: int|
                0 <= w <= a@.len() && w <= b@.len() && #[trigger] a@.take(w) == b@.take(w) && ((w
                    < a@.len() && w < b@.len() && a@[w] < b@[w]) || (w == a@.len() && w
                    < b@.len()));
            if w > i {
                assert(a@[i as int] == a@.take(w)[i as int]);
                assert(b@[i as int] == b@.take(w)[i as int]);
            }
        }
    }
    r
}

/// What `trim_start_by` leaves starts with a character outside `p`.
pub proof fn lemma_trim_start_first(s: Seq<char>, p: spec_fn(char) -> bool)
    ensures
        trim_start_by(s, p).len() > 0 ==> !p(trim_start_by(s, p)[0]),
    decreases s.len(),
{
    if s.len() > 0 && p(s[0]) {
        lemma_trim_start_first(s.drop_first(), p);
    }
}

/// A sequence that starts outside `p` is left as it is.
pub proof fn lemma_trim_start_noop(s: Seq<char>, p: spec_fn(char) -> bool)
    requires
        s.len() > 0 ==> !p(s[0]),
    ensures
        trim_start_by(s, p) == s,
{
}

/// What `trim_end_by` leaves is a prefix of `s` that ends outside `p`.
pub proof fn lemma_trim_end_last(s: Seq<char>, p: spec_fn(char) -> bool)
    ensures
        trim_end_by(s, p) == s.take(trim_end_by(s, p).len() as int),
        trim_end_by(s, p).len() <= s.len(),
        trim_end_by(s, p).len() > 0 ==> !p(trim_end_by(s, p).last()),
    decreases s.len(),
{
    if s.len() > 0 && p(s.last()) {
        lemma_trim_end_last(s.drop_last(), p);
        let t = trim_end_by(s.drop_last(), p);
        assert(s.drop_last().take(t.len() as int) =~= s.take(t.len() as int));
    } else {
        assert(s.take(s.len() as int) =~= s);
    }
}

/// What `trim_by` leaves starts and ends outside `p`.
pub proof fn lemma_trim_by_edges(s: Seq<char>, p: spec_fn(char) -> bool)
    ensures
        trim_by(s, p).len() > 0 ==> !p(trim_by(s, p)[0]) && !p(trim_by(s, p).last()),
{
    let u = trim_start_by(s, p);
    lemma_trim_start_first(s, p);
    lemma_trim_end_last(u, p);
    let t = trim_by(s, p);
    if t.len() > 0 {
        assert(t[0] == u.take(t.len() as int)[0]);
    }
}

/// Trimming twice leaves what trimming once left.
pub proof fn lemma_trim_by_idempotent(s: Seq<char>, p: spec_fn(char) -> bool)
    ensures
        trim_by(trim_by(s, p), p) == trim_by(s, p),
{
    let t = trim_by(s, p);
    lemma_trim_by_edges(s, p);
    lemma_trim_start_noop(t, p);
    if t.len() == 0 {
        assert(trim_end_by(t, p) == t);
    }
}

/// Trimming leading characters keeps every character outside `p`.
pub proof fn lemma_trim_start_keeps_other(s: Seq<char>, p: spec_fn(char) -> bool, i: int)
    requires
        0 <= i < s.len(),
        !p(s[i]),
    ensures
        trim_start_by(s, p).contains(s[i]),
    decreases s.len(),
{
    if s.len() > 0 && p(s[0]) {
        assert(s.drop_first()[i - 1] == s[i]);
        lemma_trim_start_keeps_other(s.drop_first(), p, i - 1);
    } else {
        assert(trim_start_by(s, p)[i] == s[i]);
    }
}

/// Trimming leading characters of a text made only of them leaves nothing.
pub proof fn lemma_trim_start_all(s: Seq<char>, p: spec_fn(char) -> bool)
    requires
        forall|k: int| 0 <= k < s.len() ==> p(#[trigger] s[k]),
    ensures
        trim_start_by(s, p).len() == 0,
    decreases s.len(),
{
    if s.len() > 0 {
        assert(p(s[0]));
        assert forall|k: int| 0 <= k < s.drop_first().len() implies p(#[trigger] s.drop_first()[k]) by {
            assert(s.drop_first()[k] == s[k + 1]);
        }
        lemma_trim_start_all(s.drop_first(), p);
    }
}

} // verus!
