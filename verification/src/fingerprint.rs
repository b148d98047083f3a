//! Request fingerprints. A write operation under an idempotency key records
//! the fingerprint of its request; a later request under the same key is the
//! same request only when its fingerprint is the same. The fingerprint is the
//! SHA-256 of a canonical text of the request: every field that shapes what
//! the operation writes, each prefixed with its length.
use crate::application::{
    strings, CreateAttachmentCommand, MarkReadCommand, SendBroadcastCommand, SendMessageCommand,
};
use crate::keys::{sha256_hex, sha256_of};
use crate::text::{
    digit_char, append_chars, append_str, chars_of, decimal, decimal_chars, hex_lower, padded_signed,
    padded_signed_chars,
};
use crate::time::UtcTime;
use vstd::prelude::*;
use vstd::utf8::encode_utf8;

verus! {

broadcast use vstd::string::group_string_axioms;

/// A text field: its length, `:`, and the text.
pub open spec fn field(s: Seq<char>) -> Seq<char> {
    decimal(s.len()) + ":"@ + s
}

/// The fields of `v`, one after another.
pub open spec fn fields(v: Seq<Seq<char>>) -> Seq<char>
    decreases v.len(),
{
    if v.len() == 0 {
        Seq::empty()
    } else {
        fields(v.drop_last()) + field(v.last())
    }
}

/// A list: its length, `#`, and its fields.
pub open spec fn list_field(v: Seq<Seq<char>>) -> Seq<char> {
    decimal(v.len()) + "#"@ + fields(v)
}

/// An optional text: `~` for none, `=` and the field for some.
pub open spec fn opt_field(o: Option<String>) -> Seq<char> {
    match o {
        None => "~"@,
        Some(s) => "="@ + field(s@),
    }
}

pub open spec fn flag_field(b: bool) -> Seq<char> {
    if b {
        "1"@
    } else {
        "0"@
    }
}

/// A number in decimal, with its sign, ended by `;`.
pub open spec fn int_field(v: int) -> Seq<char> {
    padded_signed(v, 1) + ";"@
}

/// An optional instant: `~` for none, `=` and its seconds and nanoseconds for some.
pub open spec fn instant_field(o: Option<UtcTime>) -> Seq<char> {
    match o {
        None => "~"@,
        Some(t) => "="@ + int_field(t.secs()) + int_field(t.subsec()),
    }
}

/// The fingerprint of a canonical request text.
pub open spec fn fingerprint_of(text: Seq<char>) -> Seq<char> {
    hex_lower(sha256_of(encode_utf8(text)))
}

pub open spec fn message_request_text(c: SendMessageCommand) -> Seq<char> {
    "send-message|"@ + field(c.sender_actor_id@) + list_field(strings(c.recipient_actor_ids@))
        + field(c.message_type@) + opt_field(c.payload) + list_field(strings(c.attachment_ids@))
        + field(c.thread_id@) + field(c.parent_message_id@) + flag_field(c.create_thread)
}

pub open spec fn broadcast_request_text(c: SendBroadcastCommand) -> Seq<char> {
    "send-broadcast|"@ + field(c.sender_actor_id@) + field(c.audience_type@) + list_field(
        strings(c.audience_keys@),
    ) + field(c.message_type@) + opt_field(c.payload) + list_field(strings(c.attachment_ids@))
        + instant_field(c.expires_at)
}

pub open spec fn mark_read_request_text(c: MarkReadCommand) -> Seq<char> {
    "mark-read|"@ + field(c.actor_id@) + field(c.target_kind@) + field(c.target_id@) + field(
        c.read_position@,
    ) + instant_field(c.read_at)
}

pub open spec fn attachment_request_text(c: CreateAttachmentCommand) -> Seq<char> {
    "create-attachment|"@ + field(c.object_key@) + field(c.original_file_name@) + field(
        c.content_type@,
    ) + int_field(c.size as int) + field(c.checksum@)
}

fn push_field(out: &mut Vec<char>, s: &str)
    ensures
        final(out)@ == old(out)@ + field(s@),
{
    let chars = chars_of(s);
    append_chars(out, &decimal_chars(chars.len() as u64));
    append_str(out, ":");
    append_chars(out, &chars);
    proof {
        assert(final(out)@ =~= old(out)@ + field(s@));
    }
}

fn push_list(out: &mut Vec<char>, v: &Vec<String>)
    ensures
        final(out)@ == old(out)@ + list_field(strings(v@)),
{
    let ghost start = out@;
    append_chars(out, &decimal_chars(v.len() as u64));
    append_str(out, "#");
    let ghost head = out@;
    let ghost items = strings(v@);
    proof {
        assert(items.take(0) =~= Seq::<Seq<char>>::empty());
        assert(out@ =~= head + fields(items.take(0)));
    }
    let mut i: usize = 0;
    while i < v.len()
        invariant
            i <= v.len(),
            items == strings(v@),
            head == start + decimal(v@.len() as nat) + "#"@,
            out@ == head + fields(items.take(i as int)),
        decreases v.len() - i,
    {
        push_field(out, v[i].as_str());
        proof {
            assert(items.take(i + 1).drop_last() =~= items.take(i as int));
            assert(items.take(i + 1).last() == v@[i as int]@);
            assert(out@ =~= head + fields(items.take(i + 1)));
        }
        i = i + 1;
    }
    proof {
        assert(items.take(v.len() as int) =~= items);
        assert(items.len() == v@.len());
        assert(out@ =~= start + list_field(items));
    }
}

fn push_opt(out: &mut Vec<char>, o: &Option<String>)
    ensures
        final(out)@ == old(out)@ + opt_field(*o),
{
    match o {
        None => {
            append_str(out, "~");
        },
        Some(s) => {
            let ghost before = out@;
            append_str(out, "=");
            push_field(out, s.as_str());
            proof {
                assert(out@ =~= before + opt_field(*o));
            }
        },
    }
}

fn push_flag(out: &mut Vec<char>, b: bool)
    ensures
        final(out)@ == old(out)@ + flag_field(b),
{
    if b {
        append_str(out, "1");
    } else {
        append_str(out, "0");
    }
}

fn push_int(out: &mut Vec<char>, v: i64)
    ensures
        final(out)@ == old(out)@ + int_field(v as int),
{
    let ghost before = out@;
    append_chars(out, &padded_signed_chars(v, 1));
    append_str(out, ";");
    proof {
        assert(out@ =~= before + int_field(v as int));
    }
}

fn push_instant(out: &mut Vec<char>, o: &Option<UtcTime>)
    ensures
        final(out)@ == old(out)@ + instant_field(*o),
{
    match o {
        None => {
            append_str(out, "~");
        },
        Some(t) => {
            let ghost before = out@;
            append_str(out, "=");
            push_int(out, t.seconds());
            push_int(out, t.subsec_nanos() as i64);
            proof {
                assert(out@ =~= before + instant_field(*o));
            }
        },
    }
}

fn fingerprint(text: &Vec<char>) -> (r: String)
    ensures
        r@ == fingerprint_of(text@),
{
    let s = crate::text::string_of(text);
    sha256_hex(s.as_str())
}

/// The fingerprint of a send-message request.
pub fn send_message_fingerprint(c: &SendMessageCommand) -> (r: String)
    ensures
        r@ == fingerprint_of(message_request_text(*c)),
{
    let mut t = chars_of("send-message|");
    push_field(&mut t, c.sender_actor_id.as_str());
    push_list(&mut t, &c.recipient_actor_ids);
    push_field(&mut t, c.message_type.as_str());
    push_opt(&mut t, &c.payload);
    push_list(&mut t, &c.attachment_ids);
    push_field(&mut t, c.thread_id.as_str());
    push_field(&mut t, c.parent_message_id.as_str());
    push_flag(&mut t, c.create_thread);
    fingerprint(&t)
}

/// The fingerprint of a send-broadcast request.
pub fn send_broadcast_fingerprint(c: &SendBroadcastCommand) -> (r: String)
    ensures
        r@ == fingerprint_of(broadcast_request_text(*c)),
{
    let mut t = chars_of("send-broadcast|");
    push_field(&mut t, c.sender_actor_id.as_str());
    push_field(&mut t, c.audience_type.as_str());
    push_list(&mut t, &c.audience_keys);
    push_field(&mut t, c.message_type.as_str());
    push_opt(&mut t, &c.payload);
    push_list(&mut t, &c.attachment_ids);
    push_instant(&mut t, &c.expires_at);
    fingerprint(&t)
}

/// The fingerprint of a mark-read request.
pub fn mark_read_fingerprint(c: &MarkReadCommand) -> (r: String)
    ensures
        r@ == fingerprint_of(mark_read_request_text(*c)),
{
    let mut t = chars_of("mark-read|");
    push_field(&mut t, c.actor_id.as_str());
    push_field(&mut t, c.target_kind.as_str());
    push_field(&mut t, c.target_id.as_str());
    push_field(&mut t, c.read_position.as_str());
    push_instant(&mut t, &c.read_at);
    fingerprint(&t)
}

/// The fingerprint of a create-attachment request.
pub fn create_attachment_fingerprint(c: &CreateAttachmentCommand) -> (r: String)
    ensures
        r@ == fingerprint_of(attachment_request_text(*c)),
{
    let mut t = chars_of("create-attachment|");
    push_field(&mut t, c.object_key.as_str());
    push_field(&mut t, c.original_file_name.as_str());
    push_field(&mut t, c.content_type.as_str());
    push_int(&mut t, c.size);
    push_field(&mut t, c.checksum.as_str());
    fingerprint(&t)
}


// ---------------------------------------------------------------------
// The canonical texts can be read back: each determines its request.
// ---------------------------------------------------------------------

/// A decimal digit.
pub open spec fn is_digit(c: char) -> bool {
    '0' <= c <= '9'
}

proof fn lemma_digit_char(d: int)
    requires
        0 <= d < 10,
    ensures
        is_digit(digit_char(d)),
        digit_char(d) as int == d + 48,
{
    assert(((d + 48) as u8) as int == d + 48);
}

/// `decimal(n)` is one or more digits, one exactly when `n < 10`.
proof fn lemma_decimal_digits(n: nat)
    ensures
        decimal(n).len() >= 1,
        forall|k: int| 0 <= k < decimal(n).len() ==> is_digit(#[trigger] decimal(n)[k]),
        decimal(n).len() == 1 <==> n < 10,
    decreases n,
{
    if n < 10 {
        lemma_digit_char(n as int);
    } else {
        lemma_decimal_digits(n / 10);
        lemma_digit_char((n % 10) as int);
        let d = decimal(n / 10);
        assert forall|k: int| 0 <= k < decimal(n).len() implies is_digit(#[trigger] decimal(n)[k]) by {
            if k < d.len() {
                assert(decimal(n)[k] == d[k]);
            }
        }
    }
}

/// Different numbers have different decimal texts.
proof fn lemma_decimal_injective(n: nat, m: nat)
    requires
        decimal(n) == decimal(m),
    ensures
        n == m,
    decreases n,
{
    lemma_decimal_digits(n);
    lemma_decimal_digits(m);
    if n < 10 {
        lemma_digit_char(n as int);
        lemma_digit_char(m as int);
        assert(decimal(n)[0] == decimal(m)[0]);
        assert(m < 10);
        assert(decimal(n) == seq![digit_char(n as int)]);
        assert(decimal(m) == seq![digit_char(m as int)]);
        assert(decimal(n)[0] == digit_char(n as int));
        assert(decimal(m)[0] == digit_char(m as int));
        assert(digit_char(n as int) == digit_char(m as int));
        assert(n == m);
    } else {
        assert(m >= 10);
        let dn = decimal(n);
        let dm = decimal(m);
        assert(dn.drop_last() == decimal(n / 10));
        assert(dm.drop_last() == decimal(m / 10));
        lemma_decimal_injective(n / 10, m / 10);
        lemma_digit_char((n % 10) as int);
        lemma_digit_char((m % 10) as int);
        assert(dn.last() == dm.last());
        assert(n % 10 == m % 10);
        vstd::arithmetic::div_mod::lemma_fundamental_div_mod(n as int, 10);
        vstd::arithmetic::div_mod::lemma_fundamental_div_mod(m as int, 10);
        assert(n / 10 == m / 10);
        assert(n == m);
    }
}

/// A number's digits followed by a separator that is not a digit can be read
/// back: equal texts hold equal numbers and equal rests.
pub proof fn lemma_number_prefix(n1: nat, n2: nat, sep: char, r1: Seq<char>, r2: Seq<char>)
    requires
        !is_digit(sep),
        decimal(n1) + seq![sep] + r1 == decimal(n2) + seq![sep] + r2,
    ensures
        n1 == n2,
        r1 == r2,
{
    let d1 = decimal(n1);
    let d2 = decimal(n2);
    let s = d1 + seq![sep] + r1;
    lemma_decimal_digits(n1);
    lemma_decimal_digits(n2);
    if d1.len() < d2.len() {
        assert(s[d1.len() as int] == sep);
        assert((d2 + seq![sep] + r2)[d1.len() as int] == d2[d1.len() as int]);
        assert(false);
    }
    if d2.len() < d1.len() {
        assert((d2 + seq![sep] + r2)[d2.len() as int] == sep);
        assert(s[d2.len() as int] == d1[d2.len() as int]);
        assert(false);
    }
    assert(s.take(d1.len() as int) =~= d1);
    assert((d2 + seq![sep] + r2).take(d2.len() as int) =~= d2);
    lemma_decimal_injective(n1, n2);
    assert(s.skip(d1.len() as int + 1) =~= r1);
    assert((d2 + seq![sep] + r2).skip(d2.len() as int + 1) =~= r2);
}

/// A text field can be read back from the front of a text.
pub proof fn lemma_field_prefix(x: Seq<char>, y: Seq<char>, r1: Seq<char>, r2: Seq<char>)
    requires
        field(x) + r1 == field(y) + r2,
    ensures
        x == y,
        r1 == r2,
{
    reveal_strlit(":");
    assert(field(x) + r1 =~= decimal(x.len()) + seq![':'] + (x + r1));
    assert(field(y) + r2 =~= decimal(y.len()) + seq![':'] + (y + r2));
    lemma_number_prefix(x.len(), y.len(), ':', x + r1, y + r2);
    assert((x + r1).take(x.len() as int) =~= x);
    assert((y + r2).take(y.len() as int) =~= y);
    assert((x + r1).skip(x.len() as int) =~= r1);
    assert((y + r2).skip(y.len() as int) =~= r2);
}


/// `fields(v)` read from the front: the first field, then the others.
proof fn lemma_fields_front(v: Seq<Seq<char>>)
    requires
        v.len() > 0,
    ensures
        fields(v) == field(v[0]) + fields(v.drop_first()),
    decreases v.len(),
{
    if v.len() == 1 {
        assert(v.drop_last().len() == 0);
        assert(v.drop_first().len() == 0);
        assert(fields(v.drop_first()) =~= Seq::<char>::empty());
        assert(fields(v.drop_last()) =~= Seq::<char>::empty());
        assert(fields(v) == fields(v.drop_last()) + field(v.last()));
        assert(v.last() == v[0]);
        assert(fields(v) =~= field(v[0]) + fields(v.drop_first()));
    } else {
        lemma_fields_front(v.drop_last());
        assert(v.drop_last().drop_first() =~= v.drop_first().drop_last());
        assert(v.drop_first().last() == v.last());
        assert(v.drop_last()[0] == v[0]);
        assert(fields(v) == fields(v.drop_last()) + field(v.last()));
        assert(fields(v.drop_first()) == fields(v.drop_first().drop_last()) + field(
            v.drop_first().last(),
        ));
        assert(fields(v) =~= field(v[0]) + fields(v.drop_first()));
    }
}

/// As many fields as the other side holds can be read back from the front.
pub proof fn lemma_fields_prefix(v: Seq<Seq<char>>, w: Seq<Seq<char>>, r1: Seq<char>, r2: Seq<char>)
    requires
        v.len() == w.len(),
        fields(v) + r1 == fields(w) + r2,
    ensures
        v == w,
        r1 == r2,
    decreases v.len(),
{
    if v.len() == 0 {
        assert(fields(v) + r1 =~= r1);
        assert(fields(w) + r2 =~= r2);
        assert(v =~= w);
    } else {
        lemma_fields_front(v);
        lemma_fields_front(w);
        assert(fields(v) + r1 =~= field(v[0]) + (fields(v.drop_first()) + r1));
        assert(fields(w) + r2 =~= field(w[0]) + (fields(w.drop_first()) + r2));
        lemma_field_prefix(v[0], w[0], fields(v.drop_first()) + r1, fields(w.drop_first()) + r2);
        lemma_fields_prefix(v.drop_first(), w.drop_first(), r1, r2);
        assert(v =~= seq![v[0]] + v.drop_first());
        assert(w =~= seq![w[0]] + w.drop_first());
    }
}

/// A list field can be read back from the front of a text.
pub proof fn lemma_list_prefix(v: Seq<Seq<char>>, w: Seq<Seq<char>>, r1: Seq<char>, r2: Seq<char>)
    requires
        list_field(v) + r1 == list_field(w) + r2,
    ensures
        v == w,
        r1 == r2,
{
    reveal_strlit("#");
    assert(list_field(v) + r1 =~= decimal(v.len()) + seq!['#'] + (fields(v) + r1));
    assert(list_field(w) + r2 =~= decimal(w.len()) + seq!['#'] + (fields(w) + r2));
    lemma_number_prefix(v.len(), w.len(), '#', fields(v) + r1, fields(w) + r2);
    lemma_fields_prefix(v, w, r1, r2);
}

/// An optional field can be read back from the front of a text.
pub proof fn lemma_opt_prefix(a: Option<String>, b: Option<String>, r1: Seq<char>, r2: Seq<char>)
    requires
        opt_field(a) + r1 == opt_field(b) + r2,
    ensures
        a is None <==> b is None,
        a matches Some(x) ==> (b matches Some(y) && x@ == y@),
        r1 == r2,
{
    reveal_strlit("~");
    reveal_strlit("=");
    let sa = opt_field(a) + r1;
    let sb = opt_field(b) + r2;
    assert(sa[0] == opt_field(a)[0]);
    assert(sb[0] == opt_field(b)[0]);
    match (a, b) {
        (Some(x), Some(y)) => {
            assert(sa =~= seq!['='] + (field(x@) + r1));
            assert(sb =~= seq!['='] + (field(y@) + r2));
            assert(sa.drop_first() =~= field(x@) + r1);
            assert(sb.drop_first() =~= field(y@) + r2);
            lemma_field_prefix(x@, y@, r1, r2);
        },
        (None, None) => {
            assert(sa.drop_first() =~= r1);
            assert(sb.drop_first() =~= r2);
        },
        _ => {},
    }
}

/// A flag can be read back from the front of a text.
pub proof fn lemma_flag_prefix(a: bool, b: bool, r1: Seq<char>, r2: Seq<char>)
    requires
        flag_field(a) + r1 == flag_field(b) + r2,
    ensures
        a == b,
        r1 == r2,
{
    reveal_strlit("1");
    reveal_strlit("0");
    assert((flag_field(a) + r1)[0] == flag_field(a)[0]);
    assert((flag_field(b) + r2)[0] == flag_field(b)[0]);
    assert((flag_field(a) + r1).drop_first() =~= r1);
    assert((flag_field(b) + r2).drop_first() =~= r2);
}

/// A number field can be read back from the front of a text.
pub proof fn lemma_int_prefix(a: int, b: int, r1: Seq<char>, r2: Seq<char>)
    requires
        int_field(a) + r1 == int_field(b) + r2,
    ensures
        a == b,
        r1 == r2,
{
    reveal_strlit(";");
    let sa = int_field(a) + r1;
    lemma_decimal_digits(if a >= 0 { a as nat } else { (-a) as nat });
    lemma_decimal_digits(if b >= 0 { b as nat } else { (-b) as nat });
    if a >= 0 {
        assert(padded_signed(a, 1) == decimal(a as nat));
        assert(sa =~= decimal(a as nat) + seq![';'] + r1);
    } else {
        assert(padded_signed(a, 1) == seq!['-'] + decimal((-a) as nat));
        assert(sa =~= seq!['-'] + (decimal((-a) as nat) + seq![';'] + r1));
    }
    if b >= 0 {
        assert(padded_signed(b, 1) == decimal(b as nat));
        assert(sa =~= decimal(b as nat) + seq![';'] + r2);
    } else {
        assert(padded_signed(b, 1) == seq!['-'] + decimal((-b) as nat));
        assert(sa =~= seq!['-'] + (decimal((-b) as nat) + seq![';'] + r2));
    }
    if a >= 0 && b >= 0 {
        lemma_number_prefix(a as nat, b as nat, ';', r1, r2);
    } else if a < 0 && b < 0 {
        assert(sa.drop_first() =~= decimal((-a) as nat) + seq![';'] + r1);
        assert(sa.drop_first() =~= decimal((-b) as nat) + seq![';'] + r2);
        lemma_number_prefix((-a) as nat, (-b) as nat, ';', r1, r2);
    } else if a >= 0 {
        assert(sa[0] == decimal(a as nat)[0]);
    } else {
        assert(sa[0] == decimal(b as nat)[0]);
    }
}

/// An optional instant can be read back from the front of a text.
pub proof fn lemma_instant_prefix(a: Option<UtcTime>, b: Option<UtcTime>, r1: Seq<char>, r2: Seq<char>)
    requires
        instant_field(a) + r1 == instant_field(b) + r2,
    ensures
        a is None <==> b is None,
        a matches Some(x) ==> (b matches Some(y) && x.secs() == y.secs() && x.subsec() == y.subsec()),
        r1 == r2,
{
    reveal_strlit("~");
    reveal_strlit("=");
    let sa = instant_field(a) + r1;
    let sb = instant_field(b) + r2;
    assert(sa[0] == instant_field(a)[0]);
    assert(sb[0] == instant_field(b)[0]);
    match (a, b) {
        (Some(x), Some(y)) => {
            assert(sa.drop_first() =~= int_field(x.secs()) + (int_field(x.subsec() as int) + r1));
            assert(sb.drop_first() =~= int_field(y.secs()) + (int_field(y.subsec() as int) + r2));
            lemma_int_prefix(
                x.secs(),
                y.secs(),
                int_field(x.subsec() as int) + r1,
                int_field(y.subsec() as int) + r2,
            );
            lemma_int_prefix(x.subsec() as int, y.subsec() as int, r1, r2);
        },
        (None, None) => {
            assert(sa.drop_first() =~= r1);
            assert(sb.drop_first() =~= r2);
        },
        _ => {},
    }
}


proof fn lemma_nest6(a: Seq<char>, b: Seq<char>, c: Seq<char>, d: Seq<char>, f: Seq<char>, g: Seq<char>)
    ensures
        a + b + c + d + f + g == a + (b + (c + (d + (f + (g + Seq::<char>::empty()))))),
{
    assert(a + b + c + d + f + g =~= a + (b + (c + (d + (f + (g + Seq::<char>::empty()))))));
}

proof fn lemma_nest8(
    a: Seq<char>,
    b: Seq<char>,
    c: Seq<char>,
    d: Seq<char>,
    f: Seq<char>,
    g: Seq<char>,
    h: Seq<char>,
    k: Seq<char>,
)
    ensures
        a + b + c + d + f + g + h + k == a + (b + (c + (d + (f + (g + (h + (k
            + Seq::<char>::empty()))))))),
{
    assert(a + b + c + d + f + g + h + k =~= a + (b + (c + (d + (f + (g + (h + (k
        + Seq::<char>::empty()))))))));
}

proof fn lemma_nest9(
    a: Seq<char>,
    b: Seq<char>,
    c: Seq<char>,
    d: Seq<char>,
    f: Seq<char>,
    g: Seq<char>,
    h: Seq<char>,
    k: Seq<char>,
    l: Seq<char>,
)
    ensures
        a + b + c + d + f + g + h + k + l == a + (b + (c + (d + (f + (g + (h + (k + (l
            + Seq::<char>::empty())))))))),
{
    assert(a + b + c + d + f + g + h + k + l =~= a + (b + (c + (d + (f + (g + (h + (k + (l
        + Seq::<char>::empty())))))))));
}

proof fn lemma_same_after_head(head: Seq<char>, x: Seq<char>, y: Seq<char>)
    requires
        head + x == head + y,
    ensures
        x == y,
{
    assert((head + x).skip(head.len() as int) =~= x);
    assert((head + y).skip(head.len() as int) =~= y);
}

/// The canonical text of a send-message request determines the request: two
/// requests with the same text agree on their sender, recipients, message
/// type, payload, attachments, thread, parent and thread flag. A request
/// changed in any of these gets another text.
pub proof fn lemma_message_text_determines_request(a: SendMessageCommand, b: SendMessageCommand)
    requires
        message_request_text(a) == message_request_text(b),
    ensures
        a.sender_actor_id@ == b.sender_actor_id@,
        strings(a.recipient_actor_ids@) == strings(b.recipient_actor_ids@),
        a.message_type@ == b.message_type@,
        a.payload is None <==> b.payload is None,
        a.payload matches Some(x) ==> (b.payload matches Some(y) && x@ == y@),
        strings(a.attachment_ids@) == strings(b.attachment_ids@),
        a.thread_id@ == b.thread_id@,
        a.parent_message_id@ == b.parent_message_id@,
        a.create_thread == b.create_thread,
{
    let e = Seq::<char>::empty();
    let head = "send-message|"@;
    lemma_nest9(
        head,
        field(a.sender_actor_id@),
        list_field(strings(a.recipient_actor_ids@)),
        field(a.message_type@),
        opt_field(a.payload),
        list_field(strings(a.attachment_ids@)),
        field(a.thread_id@),
        field(a.parent_message_id@),
        flag_field(a.create_thread),
    );
    lemma_nest9(
        head,
        field(b.sender_actor_id@),
        list_field(strings(b.recipient_actor_ids@)),
        field(b.message_type@),
        opt_field(b.payload),
        list_field(strings(b.attachment_ids@)),
        field(b.thread_id@),
        field(b.parent_message_id@),
        flag_field(b.create_thread),
    );
    let ra = field(a.parent_message_id@) + (flag_field(a.create_thread) + e);
    let rb = field(b.parent_message_id@) + (flag_field(b.create_thread) + e);
    let qa = list_field(strings(a.attachment_ids@)) + (field(a.thread_id@) + ra);
    let qb = list_field(strings(b.attachment_ids@)) + (field(b.thread_id@) + rb);
    let va = field(a.message_type@) + (opt_field(a.payload) + qa);
    let vb = field(b.message_type@) + (opt_field(b.payload) + qb);
    let ua = field(a.sender_actor_id@) + (list_field(strings(a.recipient_actor_ids@)) + va);
    let ub = field(b.sender_actor_id@) + (list_field(strings(b.recipient_actor_ids@)) + vb);
    lemma_same_after_head(head, ua, ub);
    lemma_field_prefix(
        a.sender_actor_id@,
        b.sender_actor_id@,
        list_field(strings(a.recipient_actor_ids@)) + va,
        list_field(strings(b.recipient_actor_ids@)) + vb,
    );
    lemma_list_prefix(strings(a.recipient_actor_ids@), strings(b.recipient_actor_ids@), va, vb);
    lemma_field_prefix(a.message_type@, b.message_type@, opt_field(a.payload) + qa, opt_field(b.payload) + qb);
    lemma_opt_prefix(a.payload, b.payload, qa, qb);
    lemma_list_prefix(
        strings(a.attachment_ids@),
        strings(b.attachment_ids@),
        field(a.thread_id@) + ra,
        field(b.thread_id@) + rb,
    );
    lemma_field_prefix(a.thread_id@, b.thread_id@, ra, rb);
    lemma_field_prefix(
        a.parent_message_id@,
        b.parent_message_id@,
        flag_field(a.create_thread) + e,
        flag_field(b.create_thread) + e,
    );
    lemma_flag_prefix(a.create_thread, b.create_thread, e, e);
}

/// The canonical text of a broadcast request determines the request: two
/// requests with the same text agree on their sender, audience type and keys,
/// message type, payload, attachments and expiry.
pub proof fn lemma_broadcast_text_determines_request(a: SendBroadcastCommand, b: SendBroadcastCommand)
    requires
        broadcast_request_text(a) == broadcast_request_text(b),
    ensures
        a.sender_actor_id@ == b.sender_actor_id@,
        a.audience_type@ == b.audience_type@,
        strings(a.audience_keys@) == strings(b.audience_keys@),
        a.message_type@ == b.message_type@,
        a.payload is None <==> b.payload is None,
        a.payload matches Some(x) ==> (b.payload matches Some(y) && x@ == y@),
        strings(a.attachment_ids@) == strings(b.attachment_ids@),
        a.expires_at is None <==> b.expires_at is None,
        a.expires_at matches Some(x) ==> (b.expires_at matches Some(y) && x.secs() == y.secs()
            && x.subsec() == y.subsec()),
{
    let e = Seq::<char>::empty();
    let head = "send-broadcast|"@;
    lemma_nest8(
        head,
        field(a.sender_actor_id@),
        field(a.audience_type@),
        list_field(strings(a.audience_keys@)),
        field(a.message_type@),
        opt_field(a.payload),
        list_field(strings(a.attachment_ids@)),
        instant_field(a.expires_at),
    );
    lemma_nest8(
        head,
        field(b.sender_actor_id@),
        field(b.audience_type@),
        list_field(strings(b.audience_keys@)),
        field(b.message_type@),
        opt_field(b.payload),
        list_field(strings(b.attachment_ids@)),
        instant_field(b.expires_at),
    );
    let ra = list_field(strings(a.attachment_ids@)) + (instant_field(a.expires_at) + e);
    let rb = list_field(strings(b.attachment_ids@)) + (instant_field(b.expires_at) + e);
    let pa = field(a.message_type@) + (opt_field(a.payload) + ra);
    let pb = field(b.message_type@) + (opt_field(b.payload) + rb);
    let qa = list_field(strings(a.audience_keys@)) + pa;
    let qb = list_field(strings(b.audience_keys@)) + pb;
    let ua = field(a.sender_actor_id@) + (field(a.audience_type@) + qa);
    let ub = field(b.sender_actor_id@) + (field(b.audience_type@) + qb);
    lemma_same_after_head(head, ua, ub);
    lemma_field_prefix(a.sender_actor_id@, b.sender_actor_id@, field(a.audience_type@) + qa, field(b.audience_type@) + qb);
    lemma_field_prefix(a.audience_type@, b.audience_type@, qa, qb);
    lemma_list_prefix(strings(a.audience_keys@), strings(b.audience_keys@), pa, pb);
    lemma_field_prefix(a.message_type@, b.message_type@, opt_field(a.payload) + ra, opt_field(b.payload) + rb);
    lemma_opt_prefix(a.payload, b.payload, ra, rb);
    lemma_list_prefix(
        strings(a.attachment_ids@),
        strings(b.attachment_ids@),
        instant_field(a.expires_at) + e,
        instant_field(b.expires_at) + e,
    );
    lemma_instant_prefix(a.expires_at, b.expires_at, e, e);
}

/// The canonical text of a mark-read request determines the request: two
/// requests with the same text agree on their actor, target kind, target id,
/// position and read instant.
pub proof fn lemma_mark_read_text_determines_request(a: MarkReadCommand, b: MarkReadCommand)
    requires
        mark_read_request_text(a) == mark_read_request_text(b),
    ensures
        a.actor_id@ == b.actor_id@,
        a.target_kind@ == b.target_kind@,
        a.target_id@ == b.target_id@,
        a.read_position@ == b.read_position@,
        a.read_at is None <==> b.read_at is None,
        a.read_at matches Some(x) ==> (b.read_at matches Some(y) && x.secs() == y.secs()
            && x.subsec() == y.subsec()),
{
    let e = Seq::<char>::empty();
    let head = "mark-read|"@;
    lemma_nest6(
        head,
        field(a.actor_id@),
        field(a.target_kind@),
        field(a.target_id@),
        field(a.read_position@),
        instant_field(a.read_at),
    );
    lemma_nest6(
        head,
        field(b.actor_id@),
        field(b.target_kind@),
        field(b.target_id@),
        field(b.read_position@),
        instant_field(b.read_at),
    );
    let sa = field(a.read_position@) + (instant_field(a.read_at) + e);
    let sb = field(b.read_position@) + (instant_field(b.read_at) + e);
    let ra = field(a.target_id@) + sa;
    let rb = field(b.target_id@) + sb;
    let ua = field(a.actor_id@) + (field(a.target_kind@) + ra);
    let ub = field(b.actor_id@) + (field(b.target_kind@) + rb);
    lemma_same_after_head(head, ua, ub);
    lemma_field_prefix(a.actor_id@, b.actor_id@, field(a.target_kind@) + ra, field(b.target_kind@) + rb);
    lemma_field_prefix(a.target_kind@, b.target_kind@, ra, rb);
    lemma_field_prefix(a.target_id@, b.target_id@, sa, sb);
    lemma_field_prefix(
        a.read_position@,
        b.read_position@,
        instant_field(a.read_at) + e,
        instant_field(b.read_at) + e,
    );
    lemma_instant_prefix(a.read_at, b.read_at, e, e);
}

/// The canonical text of a create-attachment request determines the request:
/// two requests with the same text agree on their object key, file name,
/// content type, size and checksum.
pub proof fn lemma_attachment_text_determines_request(a: CreateAttachmentCommand, b: CreateAttachmentCommand)
    requires
        attachment_request_text(a) == attachment_request_text(b),
    ensures
        a.object_key@ == b.object_key@,
        a.original_file_name@ == b.original_file_name@,
        a.content_type@ == b.content_type@,
        a.size == b.size,
        a.checksum@ == b.checksum@,
{
    let e = Seq::<char>::empty();
    let head = "create-attachment|"@;
    lemma_nest6(
        head,
        field(a.object_key@),
        field(a.original_file_name@),
        field(a.content_type@),
        int_field(a.size as int),
        field(a.checksum@),
    );
    lemma_nest6(
        head,
        field(b.object_key@),
        field(b.original_file_name@),
        field(b.content_type@),
        int_field(b.size as int),
        field(b.checksum@),
    );
    let ra = int_field(a.size as int) + (field(a.checksum@) + e);
    let rb = int_field(b.size as int) + (field(b.checksum@) + e);
    let qa = field(a.content_type@) + ra;
    let qb = field(b.content_type@) + rb;
    let ua = field(a.object_key@) + (field(a.original_file_name@) + qa);
    let ub = field(b.object_key@) + (field(b.original_file_name@) + qb);
    lemma_same_after_head(head, ua, ub);
    lemma_field_prefix(a.object_key@, b.object_key@, field(a.original_file_name@) + qa, field(b.original_file_name@) + qb);
    lemma_field_prefix(a.original_file_name@, b.original_file_name@, qa, qb);
    lemma_field_prefix(a.content_type@, b.content_type@, ra, rb);
    lemma_int_prefix(a.size as int, b.size as int, field(a.checksum@) + e, field(b.checksum@) + e);
    lemma_field_prefix(a.checksum@, b.checksum@, e, e);
}

} // verus!
