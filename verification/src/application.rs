//! The service's requests and answers, and the rules that decide them before
//! and between the store's reads and writes: validation, defaults, the ids a
//! write operation needs, where a read finds its object, and which page a
//! listing asks for.
use crate::domain::EntityIds;
use crate::error::{validation_error, ServiceError};
use crate::ids::{uuid_v7_text, IdGenerator};
use crate::keys::{
    attachment_lookup_key, broadcast_lookup_key, message_lookup_key, state_current_key, KeyBuilder,
};
use crate::text::{
    append_chars, append_str, blank, chars_of, contains_seq, contains_str, decimal, decimal_chars,
    is_blank, is_prefix, starts_with_str, str_equal, string_of, trim, trim_ws,
};
use crate::time::UtcTime;
use vstd::prelude::*;
use vstd::hash_set::StringHashSet;

verus! {

broadcast use vstd::string::group_string_axioms;

/// The caller a request without a caller id belongs to.
pub const DEFAULT_CALLER_ID: &'static str = "default";

/// The page size limit of a service configured with none.
pub const DEFAULT_MAX_PAGE_SIZE: usize = 100;

/// The number of minute windows a listing reads, for a service configured with none.
pub const DEFAULT_READ_LOOKBACK_MINUTES: usize = 43_200;

/// A request to send a message to named recipients.
#[derive(Clone, Debug, Default)]
pub struct SendMessageCommand {
    pub caller_id: String,
    pub idempotency_key: String,
    pub sender_actor_id: String,
    pub recipient_actor_ids: Vec<String>,
    pub message_type: String,
    /// The payload's JSON text; `None` for no payload.
    pub payload: Option<String>,
    pub attachment_ids: Vec<String>,
    pub thread_id: String,
    pub parent_message_id: String,
    pub create_thread: bool,
}

/// What sending a message wrote.
#[derive(Clone, Debug)]
pub struct SendMessageResult {
    pub operation_id: String,
    pub message_id: String,
    pub message_object_key: String,
    pub message_lookup_key: String,
    pub thread_id: String,
    pub reference_keys: Vec<String>,
}

/// A request to send a message to an audience.
#[derive(Clone, Debug, Default)]
pub struct SendBroadcastCommand {
    pub caller_id: String,
    pub idempotency_key: String,
    pub sender_actor_id: String,
    pub audience_type: String,
    pub audience_keys: Vec<String>,
    pub message_type: String,
    /// The payload's JSON text; `None` for no payload.
    pub payload: Option<String>,
    pub attachment_ids: Vec<String>,
    pub expires_at: Option<UtcTime>,
}

/// What sending a broadcast wrote.
#[derive(Clone, Debug)]
pub struct SendBroadcastResult {
    pub operation_id: String,
    pub broadcast_id: String,
    pub broadcast_object_key: String,
    pub broadcast_lookup_key: String,
    pub audience_object_keys: Vec<String>,
}

/// A request to mark a message or a thread read for an actor.
#[derive(Clone, Debug, Default)]
pub struct MarkReadCommand {
    pub caller_id: String,
    pub idempotency_key: String,
    pub actor_id: String,
    pub target_kind: String,
    pub target_id: String,
    pub read_position: String,
    pub read_at: Option<UtcTime>,
}

/// What marking read wrote.
#[derive(Clone, Debug)]
pub struct MarkReadResult {
    pub operation_id: String,
    pub state_id: String,
    pub state_event_object_key: String,
    pub current_state_object_key: String,
}

/// A request to record an uploaded file.
#[derive(Clone, Debug, Default)]
pub struct CreateAttachmentCommand {
    pub caller_id: String,
    pub idempotency_key: String,
    pub object_key: String,
    pub original_file_name: String,
    pub content_type: String,
    pub size: i64,
    pub checksum: String,
}

/// What recording an attachment wrote.
#[derive(Clone, Debug)]
pub struct CreateAttachmentResult {
    pub operation_id: String,
    pub attachment_id: String,
    pub attachment_metadata_key: String,
    pub attachment_lookup_key: String,
    pub attachment_object_key: String,
}

// ---------------------------------------------------------------------
// Validation.
// ---------------------------------------------------------------------

pub open spec fn strings(v: Seq<String>) -> Seq<Seq<char>> {
    v.map_values(|s: String| s@)
}

pub open spec fn has_blank(v: Seq<Seq<char>>) -> bool {
    exists|i: int| 0 <= i < v.len() && blank(#[trigger] v[i])
}

/// The validation message a send-message request fails with; none for a valid one.
pub open spec fn send_message_problem(c: SendMessageCommand) -> Option<Seq<char>> {
    if blank(c.sender_actor_id@) {
        Some("senderActorId is required"@)
    } else if c.recipient_actor_ids@.len() == 0 {
        Some("recipientActorIds must contain at least one actor"@)
    } else if has_blank(strings(c.recipient_actor_ids@)) {
        Some("recipientActorIds cannot contain empty actor ids"@)
    } else if blank(c.message_type@) {
        Some("messageType is required"@)
    } else {
        None
    }
}

pub open spec fn audience_type_known(t: Seq<char>) -> bool {
    t == "all"@ || t == "tag"@ || t == "explicit"@
}

/// The validation message a send-broadcast request fails with; none for a valid one.
pub open spec fn send_broadcast_problem(c: SendBroadcastCommand) -> Option<Seq<char>> {
    if blank(c.sender_actor_id@) {
        Some("senderActorId is required"@)
    } else if !audience_type_known(c.audience_type@) {
        Some("audienceType must be all, tag, or explicit"@)
    } else if c.audience_type@ != "all"@ && c.audience_keys@.len() == 0 {
        Some("audienceKeys are required for tag and explicit broadcasts"@)
    } else if blank(c.message_type@) {
        Some("messageType is required"@)
    } else {
        None
    }
}

/// The validation message a mark-read request fails with; none for a valid one.
pub open spec fn mark_read_problem(c: MarkReadCommand) -> Option<Seq<char>> {
    if blank(c.actor_id@) {
        Some("actorId is required"@)
    } else if c.target_kind@ != "messages"@ && c.target_kind@ != "threads"@ {
        Some("targetKind must be messages or threads"@)
    } else if blank(c.target_id@) {
        Some("targetId is required"@)
    } else {
        None
    }
}

/// The validation message a create-attachment request fails with; none for a valid one.
pub open spec fn create_attachment_problem(c: CreateAttachmentCommand) -> Option<Seq<char>> {
    if blank(c.original_file_name@) {
        Some("originalFileName is required"@)
    } else if blank(c.content_type@) {
        Some("contentType is required"@)
    } else if c.size < 0 {
        Some("size cannot be negative"@)
    } else {
        None
    }
}

/// A send-message request is accepted exactly when it has a sender, at least
/// one recipient, no blank recipient and a message type.
pub proof fn lemma_send_message_accepted(c: SendMessageCommand)
    ensures
        send_message_problem(c) is None <==> (!blank(c.sender_actor_id@)
            && c.recipient_actor_ids@.len() > 0 && (forall|i: int|
            0 <= i < c.recipient_actor_ids@.len() ==> !blank(#[trigger] c.recipient_actor_ids@[i]@))
            && !blank(c.message_type@)),
{
    if !has_blank(strings(c.recipient_actor_ids@)) {
        assert forall|i: int| 0 <= i < c.recipient_actor_ids@.len() implies !blank(
            #[trigger] c.recipient_actor_ids@[i]@,
        ) by {
            assert(strings(c.recipient_actor_ids@)[i] == c.recipient_actor_ids@[i]@);
        }
    } else {
        let i = choose|i: int|
            0 <= i < strings(c.recipient_actor_ids@).len() && blank(
                #[trigger] strings(c.recipient_actor_ids@)[i],
            );
        assert(strings(c.recipient_actor_ids@)[i] == c.recipient_actor_ids@[i]@);
    }
}

/// A broadcast is accepted exactly when it has a sender and a message type,
/// and its audience is `all`, or `tag` or `explicit` with at least one key;
/// every other audience type is refused.
pub proof fn lemma_send_broadcast_accepted(c: SendBroadcastCommand)
    ensures
        send_broadcast_problem(c) is None <==> (!blank(c.sender_actor_id@) && (c.audience_type@
            == "all"@ || ((c.audience_type@ == "tag"@ || c.audience_type@ == "explicit"@)
            && c.audience_keys@.len() > 0)) && !blank(c.message_type@)),
        c.audience_type@ != "all"@ && c.audience_type@ != "tag"@ && c.audience_type@
            != "explicit"@ && !blank(c.sender_actor_id@) ==> send_broadcast_problem(c)
            == Some("audienceType must be all, tag, or explicit"@),
{
}

/// Marking read is accepted exactly when it has an actor and a target id and
/// its target kind is `messages` or `threads`.
pub proof fn lemma_mark_read_accepted(c: MarkReadCommand)
    ensures
        mark_read_problem(c) is None <==> (!blank(c.actor_id@) && (c.target_kind@ == "messages"@
            || c.target_kind@ == "threads"@) && !blank(c.target_id@)),
{
}

/// An attachment is accepted exactly when it has a file name, a content type
/// and a size that is not negative.
pub proof fn lemma_create_attachment_accepted(c: CreateAttachmentCommand)
    ensures
        create_attachment_problem(c) is None <==> (!blank(c.original_file_name@) && !blank(
            c.content_type@,
        ) && c.size >= 0),
{
}

/// The outcome a validator gives for `problem`.
pub open spec fn validated(r: Result<(), ServiceError>, problem: Option<Seq<char>>) -> bool {
    match problem {
        None => r is Ok,
        Some(m) => r matches Err(ServiceError::Validation(msg)) && msg@ == m,
    }
}

fn any_blank(v: &Vec<String>) -> (r: bool)
    ensures
        r == has_blank(strings(v@)),
{
    let mut i: usize = 0;
    while i < v.len()
        invariant
            i <= v.len(),
            forall|k: int| 0 <= k < i ==> !blank(#[trigger] strings(v@)[k]),
        decreases v.len() - i,
    {
        if is_blank(v[i].as_str()) {
            proof {
                assert(blank(strings(v@)[i as int]));
            }
            return true;
        }
        i = i + 1;
    }
    false
}

/// Checks a send-message request.
pub fn validate_send_message(command: &SendMessageCommand) -> (r: Result<(), ServiceError>)
    ensures
        validated(r, send_message_problem(*command)),
        r is Ok <==> (!blank(command.sender_actor_id@) && command.recipient_actor_ids@.len() > 0
            && (forall|i: int|
            0 <= i < command.recipient_actor_ids@.len() ==> !blank(
                #[trigger] command.recipient_actor_ids@[i]@,
            )) && !blank(command.message_type@)),
{
    proof {
        lemma_send_message_accepted(*command);
    }
    if is_blank(command.sender_actor_id.as_str()) {
        return Err(validation_error("senderActorId is required"));
    }
    if command.recipient_actor_ids.len() == 0 {
        return Err(validation_error("recipientActorIds must contain at least one actor"));
    }
    if any_blank(&command.recipient_actor_ids) {
        return Err(validation_error("recipientActorIds cannot contain empty actor ids"));
    }
    if is_blank(command.message_type.as_str()) {
        return Err(validation_error("messageType is required"));
    }
    Ok(())
}

/// Checks a send-broadcast request.
pub fn validate_send_broadcast(command: &SendBroadcastCommand) -> (r: Result<(), ServiceError>)
    ensures
        validated(r, send_broadcast_problem(*command)),
        r is Ok <==> (!blank(command.sender_actor_id@) && (command.audience_type@ == "all"@ || ((
        command.audience_type@ == "tag"@ || command.audience_type@ == "explicit"@)
            && command.audience_keys@.len() > 0)) && !blank(command.message_type@)),
{
    if is_blank(command.sender_actor_id.as_str()) {
        return Err(validation_error("senderActorId is required"));
    }
    let audience_type = command.audience_type.as_str();
    let is_all = str_equal(audience_type, "all");
    if !is_all && !str_equal(audience_type, "tag") && !str_equal(audience_type, "explicit") {
        return Err(validation_error("audienceType must be all, tag, or explicit"));
    }
    if !is_all && command.audience_keys.len() == 0 {
        return Err(validation_error("audienceKeys are required for tag and explicit broadcasts"));
    }
    if is_blank(command.message_type.as_str()) {
        return Err(validation_error("messageType is required"));
    }
    Ok(())
}

/// Checks a mark-read request.
pub fn validate_mark_read(command: &MarkReadCommand) -> (r: Result<(), ServiceError>)
    ensures
        validated(r, mark_read_problem(*command)),
        r is Ok <==> (!blank(command.actor_id@) && (command.target_kind@ == "messages"@
            || command.target_kind@ == "threads"@) && !blank(command.target_id@)),
{
    if is_blank(command.actor_id.as_str()) {
        return Err(validation_error("actorId is required"));
    }
    let kind = command.target_kind.as_str();
    if !str_equal(kind, "messages") && !str_equal(kind, "threads") {
        return Err(validation_error("targetKind must be messages or threads"));
    }
    if is_blank(command.target_id.as_str()) {
        return Err(validation_error("targetId is required"));
    }
    Ok(())
}

/// Checks a create-attachment request.
pub fn validate_create_attachment(command: &CreateAttachmentCommand) -> (r: Result<
    (),
    ServiceError,
>)
    ensures
        validated(r, create_attachment_problem(*command)),
        r is Ok <==> (!blank(command.original_file_name@) && !blank(command.content_type@)
            && command.size >= 0),
{
    if is_blank(command.original_file_name.as_str()) {
        return Err(validation_error("originalFileName is required"));
    }
    if is_blank(command.content_type.as_str()) {
        return Err(validation_error("contentType is required"));
    }
    if command.size < 0 {
        return Err(validation_error("size cannot be negative"));
    }
    Ok(())
}

// ---------------------------------------------------------------------
// Defaults.
// ---------------------------------------------------------------------

/// The caller a request belongs to: its trimmed caller id, or the default
/// caller for a blank one.
pub open spec fn caller_spec(caller_id: Seq<char>) -> Seq<char> {
    if trim_ws(caller_id).len() == 0 {
        DEFAULT_CALLER_ID@
    } else {
        trim_ws(caller_id)
    }
}

pub fn caller_or_default(caller_id: &str) -> (r: String)
    ensures
        r@ == caller_spec(caller_id@),
{
    let trimmed = trim(caller_id);
    if trimmed.as_str().is_empty() {
        DEFAULT_CALLER_ID.to_string()
    } else {
        trimmed
    }
}

/// The payload's JSON text a record stores: the request's, or an empty object.
pub open spec fn payload_spec(payload: Option<String>) -> Seq<char> {
    match payload {
        Some(p) => p@,
        None => "{}"@,
    }
}

pub fn normalized_payload(payload: &Option<String>) -> (r: String)
    ensures
        r@ == payload_spec(*payload),
{
    match payload {
        Some(p) => p.clone(),
        None => "{}".to_string(),
    }
}

// ---------------------------------------------------------------------
// Broadcast audiences.
// ---------------------------------------------------------------------

/// The audience keys of a tag or explicit broadcast: each key trimmed, blank
/// keys and repeats dropped, the first occurrence of each kept in order.
pub open spec fn audience_keys_spec(keys: Seq<Seq<char>>) -> Seq<Seq<char>>
    decreases keys.len(),
{
    if keys.len() == 0 {
        Seq::empty()
    } else {
        let kept = audience_keys_spec(keys.drop_last());
        let t = trim_ws(keys.last());
        if t.len() == 0 || kept.contains(t) {
            kept
        } else {
            kept.push(t)
        }
    }
}

/// The audience keys a broadcast stores: `["all"]` for an `all` broadcast.
pub open spec fn normalized_audience(audience_type: Seq<char>, keys: Seq<Seq<char>>) -> Seq<
    Seq<char>,
> {
    if audience_type == "all"@ {
        seq!["all"@]
    } else {
        audience_keys_spec(keys)
    }
}

pub fn normalize_audience_keys(audience_type: &str, audience_keys: &[String]) -> (r: Vec<String>)
    ensures
        strings(r@) == normalized_audience(audience_type@, strings(audience_keys@)),
{
    if str_equal(audience_type, "all") {
        let mut all: Vec<String> = Vec::new();
        all.push("all".to_string());
        proof {
            assert(strings(all@) =~= seq!["all"@]);
        }
        return all;
    }
    let ghost keys = strings(audience_keys@);
    let mut normalized: Vec<String> = Vec::new();
    let mut seen = StringHashSet::new();
    let mut i: usize = 0;
    while i < audience_keys.len()
        invariant
            i <= audience_keys.len(),
            keys == strings(audience_keys@),
            strings(normalized@) == audience_keys_spec(keys.take(i as int)),
            seen@ == strings(normalized@).to_set(),
        decreases audience_keys.len() - i,
    {
        proof {
            assert(keys.take(i + 1).drop_last() =~= keys.take(i as int));
            assert(keys.take(i + 1).last() == audience_keys@[i as int]@);
        }
        let trimmed = trim(audience_keys[i].as_str());
        if !trimmed.as_str().is_empty() && !seen.contains(trimmed.as_str()) {
            let ghost before = normalized@;
            seen.insert(trimmed.clone());
            normalized.push(trimmed);
            proof {
                assert(strings(normalized@) =~= strings(before).push(trimmed@));
                strings(before).lemma_push_to_set_commute(trimmed@);
            }
        }
        i = i + 1;
    }
    proof {
        assert(keys.take(audience_keys.len() as int) =~= keys);
    }
    normalized
}

/// No audience key is kept twice.
pub proof fn lemma_audience_keys_distinct(keys: Seq<Seq<char>>)
    ensures
        forall|i: int, j: int|
            0 <= i < j < audience_keys_spec(keys).len() ==> audience_keys_spec(keys)[i]
                != audience_keys_spec(keys)[j],
    decreases keys.len(),
{
    if keys.len() > 0 {
        lemma_audience_keys_distinct(keys.drop_last());
        let kept = audience_keys_spec(keys.drop_last());
        let t = trim_ws(keys.last());
        if !(t.len() == 0 || kept.contains(t)) {
            assert forall|i: int, j: int|
                0 <= i < j < kept.push(t).len() implies kept.push(t)[i] != kept.push(t)[j] by {
                if j == kept.len() {
                    assert(kept[i] == kept.push(t)[i]);
                }
            }
        }
    }
}

/// Every kept audience key is the trimmed form of a given key, and is not blank.
pub proof fn lemma_audience_keys_from_input(keys: Seq<Seq<char>>)
    ensures
        forall|i: int|
            0 <= i < audience_keys_spec(keys).len() ==> #[trigger] audience_keys_spec(keys)[i].len()
                > 0 && exists|k: int|
                0 <= k < keys.len() && trim_ws(#[trigger] keys[k]) == audience_keys_spec(keys)[i],
    decreases keys.len(),
{
    if keys.len() > 0 {
        let rest = keys.drop_last();
        lemma_audience_keys_from_input(rest);
        let kept = audience_keys_spec(rest);
        assert forall|i: int| 0 <= i < audience_keys_spec(keys).len() implies #[trigger] audience_keys_spec(
            keys,
        )[i].len() > 0 && exists|k: int|
            0 <= k < keys.len() && trim_ws(#[trigger] keys[k]) == audience_keys_spec(keys)[i] by {
            if i < kept.len() {
                assert(audience_keys_spec(keys)[i] == kept[i]);
                let k = choose|k: int| 0 <= k < rest.len() && trim_ws(#[trigger] rest[k]) == kept[i];
                assert(keys[k] == rest[k]);
            } else {
                assert(trim_ws(keys[keys.len() - 1]) == audience_keys_spec(keys)[i]);
            }
        }
    }
}

/// Every given key that is not blank once trimmed is kept, trimmed.
pub proof fn lemma_audience_keys_complete(keys: Seq<Seq<char>>)
    ensures
        forall|k: int|
            0 <= k < keys.len() && trim_ws(#[trigger] keys[k]).len() > 0 ==> audience_keys_spec(
                keys,
            ).contains(trim_ws(keys[k])),
    decreases keys.len(),
{
    if keys.len() > 0 {
        let rest = keys.drop_last();
        lemma_audience_keys_complete(rest);
        let kept = audience_keys_spec(rest);
        assert forall|k: int|
            0 <= k < keys.len() && trim_ws(#[trigger] keys[k]).len() > 0 implies audience_keys_spec(
            keys,
        ).contains(trim_ws(keys[k])) by {
            let t = trim_ws(keys.last());
            if k < rest.len() {
                assert(keys[k] == rest[k]);
                assert(kept.contains(trim_ws(rest[k])));
                let j = choose|j: int| 0 <= j < kept.len() && kept[j] == trim_ws(rest[k]);
                if !(t.len() == 0 || kept.contains(t)) {
                    assert(kept.push(t)[j] == kept[j]);
                }
            } else {
                if !(t.len() == 0 || kept.contains(t)) {
                    assert(kept.push(t)[kept.len() as int] == t);
                }
            }
        }
    }
}

// ---------------------------------------------------------------------
// Entity ids.
// ---------------------------------------------------------------------

/// The id named `key`, which the operation must carry.
pub fn required_entity_id(entity_ids: &EntityIds, key: &str) -> (r: Result<String, ServiceError>)
    ensures
        match entity_ids.id_of(key@) {
            Some(id) => r matches Ok(s) && s@ == id,
            None => r matches Err(ServiceError::Storage(m)) && m@ == "operation is missing entity id "@
                + key@,
        },
{
    match entity_ids.get(key) {
        Some(id) => Ok(id),
        None => {
            let mut message = chars_of("operation is missing entity id ");
            append_str(&mut message, key);
            Err(ServiceError::Storage(string_of(&message)))
        },
    }
}

/// The name of the id of the inbox reference of the recipient at `index`.
pub open spec fn inbox_ref_name(index: nat) -> Seq<char> {
    "inboxRefId:"@ + decimal(index)
}

/// The message may need a new thread: it names none, and asks for one or
/// answers a message (whose thread it joins when that message has one).
pub open spec fn starts_thread(c: SendMessageCommand) -> bool {
    c.thread_id@.len() == 0 && (c.parent_message_id@.len() > 0 || c.create_thread)
}

/// The message may belong to a thread: a named one, its parent's, or a new one.
pub open spec fn joins_thread(c: SendMessageCommand) -> bool {
    c.thread_id@.len() > 0 || c.create_thread || c.parent_message_id@.len() > 0
}

/// The names of the ids sending `c` needs.
pub open spec fn message_entity_name(c: SendMessageCommand, name: Seq<char>) -> bool {
    ||| name == "messageId"@
    ||| name == "sentRefId"@
    ||| exists|i: nat| i < c.recipient_actor_ids@.len() && name == #[trigger] inbox_ref_name(i)
    ||| starts_thread(c) && name == "threadId"@
    ||| joins_thread(c) && name == "threadRefId"@
}

/// The ids a send needs: the message's, the sender's reference's, one per
/// recipient, a thread reference's when the message may be in a thread (it
/// names one, answers a message or asks for one), and a new thread's when it
/// names none but answers a message or asks for a thread.
pub proof fn lemma_message_ids_needed(c: SendMessageCommand)
    ensures
        message_entity_name(c, "messageId"@),
        message_entity_name(c, "sentRefId"@),
        forall|i: nat| i < c.recipient_actor_ids@.len() ==> message_entity_name(c, #[trigger] inbox_ref_name(i)),
        message_entity_name(c, "threadId"@) <==> (c.thread_id@.len() == 0 && (
        c.parent_message_id@.len() > 0 || c.create_thread)),
        message_entity_name(c, "threadRefId"@) <==> (c.thread_id@.len() > 0 || c.create_thread
            || c.parent_message_id@.len() > 0),
{
    reveal_strlit("messageId");
    reveal_strlit("sentRefId");
    reveal_strlit("threadId");
    reveal_strlit("threadRefId");
    reveal_strlit("inboxRefId:");
    assert("threadId"@[1] != "threadRefId"@[1] || "threadId"@.len() != "threadRefId"@.len());
    assert forall|i: nat| #[trigger] inbox_ref_name(i) != "threadId"@ && inbox_ref_name(i)
        != "threadRefId"@ by {
        assert(inbox_ref_name(i)[0] == 'i');
    }
    assert("threadId"@ != "messageId"@ && "threadId"@ != "sentRefId"@);
    assert("threadRefId"@ != "messageId"@ && "threadRefId"@ != "sentRefId"@);
}

/// Every id of `ids` is a fresh identifier.
pub open spec fn fresh_ids(ids: EntityIds) -> bool {
    forall|name: Seq<char>| #[trigger] ids.id_of(name) is Some ==> uuid_v7_text(ids.id_of(name).unwrap())
}

fn insert_new_id(ids: &mut EntityIds, generator: &IdGenerator, name: String)
    requires
        fresh_ids(*old(ids)),
    ensures
        fresh_ids(*final(ids)),
        final(ids).id_of(name@) is Some,
        forall|other: Seq<char>| other != name@ ==> final(ids).id_of(other) == old(ids).id_of(other),
{
    let id = match generator.new_id() {
        Ok(id) => id,
        Err(_) => {
            proof {
                assert(false);
            }
            String::new()
        },
    };
    let ghost n = name@;
    ids.insert(name, id);
    proof {
        assert forall|other: Seq<char>| #[trigger] ids.id_of(other) is Some implies uuid_v7_text(
            ids.id_of(other).unwrap(),
        ) by {
            if other != n {
                assert(old(ids).id_of(other) == ids.id_of(other));
            }
        }
    }
}

// ---------------------------------------------------------------------
// The service's settings and the rules that read them.
// ---------------------------------------------------------------------

/// How a service is set up: where its keys go, how it names new entities, and
/// how much a listing reads. Zero limits ask for the defaults.
#[derive(Clone, Debug)]
pub struct ServiceOptions {
    pub key_builder: KeyBuilder,
    pub id_generator: IdGenerator,
    pub max_page_size: usize,
    pub read_lookback_minutes: usize,
}

/// The service's rules over its settings. The store it reads and writes, and
/// the clock, stay with the caller, which hands their answers to these rules.
#[derive(Debug)]
pub struct Service {
    key_builder: KeyBuilder,
    id_generator: IdGenerator,
    max_page_size: usize,
    read_lookback_minutes: usize,
}

impl Service {
    #[verifier::type_invariant]
    spec fn positive_limits(self) -> bool {
        self.max_page_size > 0 && self.read_lookback_minutes > 0
    }

    /// The keys the service writes under.
    pub closed spec fn keys(self) -> KeyBuilder {
        self.key_builder
    }

    /// The most items a page holds.
    pub closed spec fn page_limit(self) -> usize {
        self.max_page_size
    }

    /// The most minute windows a listing reads.
    pub closed spec fn lookback(self) -> usize {
        self.read_lookback_minutes
    }

    pub fn new(options: ServiceOptions) -> (r: Service)
        ensures
            r.keys() == options.key_builder,
            r.page_limit() == if options.max_page_size == 0 {
                DEFAULT_MAX_PAGE_SIZE
            } else {
                options.max_page_size
            },
            r.lookback() == if options.read_lookback_minutes == 0 {
                DEFAULT_READ_LOOKBACK_MINUTES
            } else {
                options.read_lookback_minutes
            },
    {
        let max_page_size = if options.max_page_size == 0 {
            DEFAULT_MAX_PAGE_SIZE
        } else {
            options.max_page_size
        };
        let read_lookback_minutes = if options.read_lookback_minutes == 0 {
            DEFAULT_READ_LOOKBACK_MINUTES
        } else {
            options.read_lookback_minutes
        };
        Service {
            key_builder: options.key_builder,
            id_generator: options.id_generator,
            max_page_size,
            read_lookback_minutes,
        }
    }

    pub fn key_builder(&self) -> (r: &KeyBuilder)
        ensures
            *r == self.keys(),
    {
        &self.key_builder
    }

    pub fn id_generator(&self) -> (r: &IdGenerator) {
        &self.id_generator
    }

    pub fn max_page_size(&self) -> (r: usize)
        ensures
            r == self.page_limit(),
            r > 0,
    {
        proof {
            use_type_invariant(self);
        }
        self.max_page_size
    }

    pub fn read_lookback_minutes(&self) -> (r: usize)
        ensures
            r == self.lookback(),
            r > 0,
    {
        proof {
            use_type_invariant(self);
        }
        self.read_lookback_minutes
    }

    /// The page size a listing uses: the requested one up to the service's
    /// limit, the limit for 0.
    pub open spec fn normalized_limit(self, limit: usize) -> usize {
        if limit == 0 || limit > self.page_limit() {
            self.page_limit()
        } else {
            limit
        }
    }

    pub fn normalize_limit(&self, limit: usize) -> (r: usize)
        ensures
            r == self.normalized_limit(limit),
            0 < r <= self.page_limit(),
            limit == 0 ==> r == self.page_limit(),
            0 < limit <= self.page_limit() ==> r == limit,
            limit > self.page_limit() ==> r == self.page_limit(),
    {
        proof {
            use_type_invariant(self);
        }
        if limit == 0 {
            self.max_page_size
        } else if limit < self.max_page_size {
            limit
        } else {
            self.max_page_size
        }
    }

    /// A fresh id for the one entity an operation creates, named `name`
    /// (`broadcastId`, `stateId`, `attachmentId`).
    pub fn fresh_entity_ids(&self, name: &str) -> (r: Result<EntityIds, ServiceError>)
        ensures
            r matches Ok(ids) && fresh_ids(ids) && forall|other: Seq<char>|
                (#[trigger] ids.id_of(other) is Some) <==> other == name@,
    {
        let mut ids = EntityIds::new();
        insert_new_id(&mut ids, &self.id_generator, name.to_string());
        Ok(ids)
    }

    /// Fresh ids for everything sending `command` creates: the message, the
    /// sender's reference, one reference per recipient, and, for a message that
    /// may be in a thread, its thread reference and, when it names no thread,
    /// a new thread's id, used unless it replies to a message in a thread.
    pub fn message_entity_ids(&self, command: &SendMessageCommand) -> (r: Result<
        EntityIds,
        ServiceError,
    >)
        ensures
            r matches Ok(ids) && fresh_ids(ids) && forall|name: Seq<char>|
                (#[trigger] ids.id_of(name) is Some) <==> message_entity_name(*command, name),
    {
        let generator = &self.id_generator;
        let mut ids = EntityIds::new();
        proof {
            reveal_strlit("messageId");
            reveal_strlit("sentRefId");
            reveal_strlit("threadId");
            reveal_strlit("threadRefId");
            reveal_strlit("inboxRefId:");
        }
        insert_new_id(&mut ids, generator, "messageId".to_string());
        insert_new_id(&mut ids, generator, "sentRefId".to_string());
        let n = command.recipient_actor_ids.len();
        let mut index: usize = 0;
        while index < n
            invariant
                index <= n,
                n == command.recipient_actor_ids@.len(),
                fresh_ids(ids),
                forall|name: Seq<char>|
                    (#[trigger] ids.id_of(name) is Some) <==> (name == "messageId"@ || name
                        == "sentRefId"@ || exists|i: nat| i < index && name == #[trigger] inbox_ref_name(i)),
            decreases n - index,
        {
            let mut name = chars_of("inboxRefId:");
            append_chars(&mut name, &decimal_chars(index as u64));
            let ghost added = name@;
            assert(added == inbox_ref_name(index as nat));
            insert_new_id(&mut ids, generator, string_of(&name));
            proof {
                assert forall|other: Seq<char>|
                    (#[trigger] ids.id_of(other) is Some) <==> (other == "messageId"@ || other
                        == "sentRefId"@ || exists|i: nat|
                        i < index + 1 && other == #[trigger] inbox_ref_name(i)) by {
                    if other == added {
                        assert(inbox_ref_name(index as nat) == other);
                    } else {
                        if exists|i: nat| i < index + 1 && other == #[trigger] inbox_ref_name(i) {
                            let i = choose|i: nat| i < index + 1 && other == #[trigger] inbox_ref_name(i);
                            assert(i < index);
                        }
                    }
                }
            }
            index = index + 1;
        }
        let no_thread = command.thread_id.as_str().is_empty();
        let has_parent = !command.parent_message_id.as_str().is_empty();
        if no_thread && (has_parent || command.create_thread) {
            insert_new_id(&mut ids, generator, "threadId".to_string());
        }
        if !no_thread || command.create_thread || has_parent {
            insert_new_id(&mut ids, generator, "threadRefId".to_string());
        }
        proof {
            let c = *command;
            assert forall|name: Seq<char>|
                (#[trigger] ids.id_of(name) is Some) <==> message_entity_name(c, name) by {
                if exists|i: nat| i < c.recipient_actor_ids@.len() && name == #[trigger] inbox_ref_name(i) {
                    let i = choose|i: nat| i < c.recipient_actor_ids@.len() && name == #[trigger] inbox_ref_name(i);
                    assert(inbox_ref_name(i).take(11) =~= "inboxRefId:"@);
                    assert("threadId"@.len() == 8);
                    if name == "threadId"@ || name == "threadRefId"@ {
                        assert(name[0] == 'i');
                    }
                }
            }
        }
        Ok(ids)
    }
}

// ---------------------------------------------------------------------
// Where a read finds its object.
// ---------------------------------------------------------------------

/// Where a read by id or key finds its object.
#[derive(Clone, Debug)]
pub enum ObjectTarget {
    /// The request named the object's key.
    Direct(String),
    /// The request named an id: read the lookup at this key, then the object
    /// it points to.
    ViaLookup(String),
}

/// A request names an object key rather than an id when the key starts with
/// the kind's folder or holds it after a namespace.
pub open spec fn names_key(target: Seq<char>, folder: Seq<char>) -> bool {
    is_prefix(folder + "/"@, target) || contains_seq(target, "/"@ + folder + "/"@)
}

/// Where a read of `raw` finds its object, given the lookup key of an id.
pub open spec fn target_is(
    r: Result<ObjectTarget, ServiceError>,
    raw: Seq<char>,
    folder: Seq<char>,
    lookup_key: Seq<char>,
    missing: Seq<char>,
) -> bool {
    if trim_ws(raw).len() == 0 {
        r matches Err(ServiceError::Validation(m)) && m@ == missing
    } else if names_key(trim_ws(raw), folder) {
        r matches Ok(ObjectTarget::Direct(k)) && k@ == trim_ws(raw)
    } else {
        r matches Ok(ObjectTarget::ViaLookup(k)) && k@ == lookup_key
    }
}

/// How a read finds its object from what the request names: a blank request
/// is refused with `missing`; an id (a name without `/`) is read through its
/// lookup; a key in the folder, at the start or after a namespace, is read as
/// it is.
pub proof fn lemma_read_target_rules(
    r: Result<ObjectTarget, ServiceError>,
    raw: Seq<char>,
    folder: Seq<char>,
    lookup_key: Seq<char>,
    missing: Seq<char>,
    ns: Seq<char>,
    rest: Seq<char>,
)
    requires
        target_is(r, raw, folder, lookup_key, missing),
    ensures
        trim_ws(raw).len() == 0 ==> (r matches Err(ServiceError::Validation(m)) && m@ == missing),
        trim_ws(raw).len() > 0 && !trim_ws(raw).contains('/') ==> (r matches Ok(
            ObjectTarget::ViaLookup(k),
        ) && k@ == lookup_key),
        trim_ws(raw) == folder + "/"@ + rest ==> (r matches Ok(ObjectTarget::Direct(k)) && k@
            == trim_ws(raw)),
        trim_ws(raw) == ns + "/"@ + folder + "/"@ + rest ==> (r matches Ok(ObjectTarget::Direct(k))
            && k@ == trim_ws(raw)),
{
    reveal_strlit("/");
    let t = trim_ws(raw);
    if t.len() > 0 && !t.contains('/') && names_key(t, folder) {
        if is_prefix(folder + "/"@, t) {
            assert(t[folder.len() as int] == (folder + "/"@)[folder.len() as int]);
        } else {
            let i = choose|i: int|
                0 <= i && i + ("/"@ + folder + "/"@).len() <= t.len() && #[trigger] t.subrange(
                    i,
                    i + ("/"@ + folder + "/"@).len(),
                ) == "/"@ + folder + "/"@;
            assert(t[i] == t.subrange(i, i + ("/"@ + folder + "/"@).len())[0]);
        }
    }
    if t == folder + "/"@ + rest {
        assert(t.take((folder + "/"@).len() as int) =~= folder + "/"@);
    }
    if t == ns + "/"@ + folder + "/"@ + rest {
        let i = ns.len() as int;
        assert(t.subrange(i, i + ("/"@ + folder + "/"@).len()) =~= "/"@ + folder + "/"@);
    }
}

/// The trimmed request, and whether it names a key of `folder`.
fn split_target(raw: &str, root: &str, inner: &str) -> (r: (String, bool))
    ensures
        r.0@ == trim_ws(raw@),
        r.1 == (is_prefix(root@, trim_ws(raw@)) || contains_seq(trim_ws(raw@), inner@)),
{
    let target = trim(raw);
    let chars = chars_of(target.as_str());
    let direct = starts_with_str(&chars, root) || contains_str(&chars, inner);
    (target, direct)
}

impl Service {
    /// Where `get_message` finds the message that `message_id_or_key` names.
    pub fn message_target(&self, message_id_or_key: &str) -> (r: Result<ObjectTarget, ServiceError>)
        ensures
            target_is(
                r,
                message_id_or_key@,
                "messages"@,
                message_lookup_key(self.keys()@, trim_ws(message_id_or_key@)),
                "message id or key is required"@,
            ),
    {
        proof {
            reveal_strlit("messages/");
            reveal_strlit("/messages/");
            reveal_strlit("messages");
            reveal_strlit("/");
            assert("messages"@ + "/"@ =~= "messages/"@);
            assert("/"@ + "messages"@ + "/"@ =~= "/messages/"@);
        }
        let (target, direct) = split_target(message_id_or_key, "messages/", "/messages/");
        if target.as_str().is_empty() {
            return Err(validation_error("message id or key is required"));
        }
        if direct {
            Ok(ObjectTarget::Direct(target))
        } else {
            Ok(ObjectTarget::ViaLookup(self.key_builder().message_lookup(target.as_str())))
        }
    }

    /// Where `get_broadcast` finds the broadcast that `broadcast_id_or_key` names.
    pub fn broadcast_target(&self, broadcast_id_or_key: &str) -> (r: Result<
        ObjectTarget,
        ServiceError,
    >)
        ensures
            target_is(
                r,
                broadcast_id_or_key@,
                "broadcast"@,
                broadcast_lookup_key(self.keys()@, trim_ws(broadcast_id_or_key@)),
                "broadcast id or key is required"@,
            ),
    {
        proof {
            reveal_strlit("broadcast/");
            reveal_strlit("/broadcast/");
            reveal_strlit("broadcast");
            reveal_strlit("/");
            assert("broadcast"@ + "/"@ =~= "broadcast/"@);
            assert("/"@ + "broadcast"@ + "/"@ =~= "/broadcast/"@);
        }
        let (target, direct) = split_target(broadcast_id_or_key, "broadcast/", "/broadcast/");
        if target.as_str().is_empty() {
            return Err(validation_error("broadcast id or key is required"));
        }
        if direct {
            Ok(ObjectTarget::Direct(target))
        } else {
            Ok(ObjectTarget::ViaLookup(self.key_builder().broadcast_lookup(target.as_str())))
        }
    }

    /// Where `get_attachment` finds the metadata that `attachment_id_or_key` names.
    pub fn attachment_target(&self, attachment_id_or_key: &str) -> (r: Result<
        ObjectTarget,
        ServiceError,
    >)
        ensures
            target_is(
                r,
                attachment_id_or_key@,
                "attachments"@,
                attachment_lookup_key(self.keys()@, trim_ws(attachment_id_or_key@)),
                "attachment id or key is required"@,
            ),
    {
        proof {
            reveal_strlit("attachments/");
            reveal_strlit("/attachments/");
            reveal_strlit("attachments");
            reveal_strlit("/");
            assert("attachments"@ + "/"@ =~= "attachments/"@);
            assert("/"@ + "attachments"@ + "/"@ =~= "/attachments/"@);
        }
        let (target, direct) = split_target(attachment_id_or_key, "attachments/", "/attachments/");
        if target.as_str().is_empty() {
            return Err(validation_error("attachment id or key is required"));
        }
        if direct {
            Ok(ObjectTarget::Direct(target))
        } else {
            Ok(ObjectTarget::ViaLookup(self.key_builder().attachment_lookup(target.as_str())))
        }
    }
}

impl Service {
    /// Where a reply finds its parent message, whose thread, if it has one, it joins: none
    /// when the request names a thread, names no parent, or names a blank one.
    pub fn parent_target(&self, command: &SendMessageCommand) -> (r: Option<ObjectTarget>)
        ensures
            (command.thread_id@.len() > 0 || command.parent_message_id@.len() == 0 || trim_ws(
                command.parent_message_id@,
            ).len() == 0) ==> r is None,
            (command.thread_id@.len() == 0 && command.parent_message_id@.len() > 0 && trim_ws(
                command.parent_message_id@,
            ).len() > 0) ==> (r matches Some(t) && target_is(
                Ok::<ObjectTarget, ServiceError>(t),
                command.parent_message_id@,
                "messages"@,
                message_lookup_key(self.keys()@, trim_ws(command.parent_message_id@)),
                "message id or key is required"@,
            )),
    {
        if !command.thread_id.as_str().is_empty() || command.parent_message_id.as_str().is_empty() {
            return None;
        }
        match self.message_target(command.parent_message_id.as_str()) {
            Ok(t) => Some(t),
            Err(_) => None,
        }
    }

    /// The key of `actor_id`'s read marker on a thread, which a thread listing
    /// returns with the thread; none when no actor is named.
    pub fn thread_state_key(&self, thread_id: &str, actor_id: &str) -> (r: Option<String>)
        ensures
            actor_id@.len() == 0 ==> r is None,
            actor_id@.len() > 0 ==> (r matches Some(k) && k@ == state_current_key(
                self.keys()@,
                actor_id@,
                "threads"@,
                thread_id@,
            )),
    {
        if actor_id.is_empty() {
            None
        } else {
            Some(self.key_builder().state_current(actor_id, "threads", thread_id))
        }
    }
}

} // verus!
