//! The write operations of the service, as plans: the records a request
//! stores, in order, under which keys, with the step each write records. The
//! caller performs a plan (writes, then step records) and completes the
//! operation; the decisions between the store's answers are made here.
use crate::application::{
    audience_keys_spec, inbox_ref_name, names_key, normalize_audience_keys, normalized_audience, normalized_payload,
    payload_spec, required_entity_id, strings, target_is, CreateAttachmentCommand,
    CreateAttachmentResult, MarkReadCommand, MarkReadResult, ObjectTarget, SendBroadcastCommand,
    SendBroadcastResult, SendMessageCommand, SendMessageResult, Service,
};
use crate::domain::{
    AttachmentMetadata, Broadcast, EntityIds, LookupReference, Message, MessageReference,
    OperationRecord, OperationStep, State, Thread, SCHEMA_VERSION,
};
use crate::error::ServiceError;
use crate::fingerprint::{fingerprint_of, message_request_text};
use crate::ids::uuid_v7_text;
use crate::keys::{
    attachment_lookup_key, attachment_metadata_key, attachment_object_key, broadcast_audience_key,
    broadcast_body_key, broadcast_lookup_key, lemma_mailbox_reference_in_window,
    lemma_thread_reference_in_window, mailbox_prefix_key, mailbox_reference_key, message_body_key,
    message_lookup_key, normalize_file_name, normalize_file_name_spec, operation_completed_key,
    operation_id_key, operation_started_key, operation_step_key, state_current_key,
    state_event_key, thread_metadata_key, thread_prefix_key, thread_reference_key,
};
use crate::storage::StoreCapabilities;
use crate::text::{
    append_chars, append_str, blank, chars_of, decimal, decimal_chars, is_blank, is_prefix,
    str_equal, string_of, trim, trim_ws,
};
use crate::time::{not_after, UtcTime};
use vstd::prelude::*;

verus! {

broadcast use vstd::string::group_string_axioms;

/// One record a write operation stores.
#[derive(Clone, Debug)]
pub enum Record {
    Message(Message),
    Lookup(LookupReference),
    Reference(MessageReference),
    Thread(Thread),
    Broadcast(Broadcast),
    State(State),
    Attachment(AttachmentMetadata),
}

/// One write of a plan: `record` under `object_key`, create-only or not, then
/// the step `step_id` recorded for it.
#[derive(Clone, Debug)]
pub struct PlannedWrite {
    pub object_key: String,
    pub record: Record,
    pub create_only: bool,
    pub step_id: String,
}

/// The writes of an operation, in order, and what it answers once they are
/// done: its result, or the error it stops with after them.
#[derive(Debug)]
pub struct WritePlan<T> {
    pub writes: Vec<PlannedWrite>,
    pub outcome: Result<T, ServiceError>,
}

pub open spec fn write_is(w: PlannedWrite, key: Seq<char>, step: Seq<char>, create_only: bool) -> bool {
    w.object_key@ == key && w.step_id@ == step && w.create_only == create_only
}

pub open spec fn lookup_is(
    r: LookupReference,
    kind: Seq<char>,
    id: Seq<char>,
    object_key: Seq<char>,
    t: UtcTime,
) -> bool {
    &&& r.schema_version == SCHEMA_VERSION
    &&& r.entity_kind@ == kind
    &&& r.entity_id@ == id
    &&& r.object_key@ == object_key
    &&& r.created_at == t
}

pub open spec fn reference_is(
    r: MessageReference,
    id: Seq<char>,
    message_id: Seq<char>,
    message_key: Seq<char>,
    owner: Seq<char>,
    kind: Seq<char>,
    t: UtcTime,
) -> bool {
    &&& r.schema_version == SCHEMA_VERSION
    &&& r.id@ == id
    &&& r.message_id@ == message_id
    &&& r.message_object_key@ == message_key
    &&& r.owner_id@ == owner
    &&& r.reference_kind@ == kind
    &&& r.created_at == t
}

fn make_lookup(kind: &str, id: &str, object_key: &str, t: UtcTime) -> (r: LookupReference)
    ensures
        lookup_is(r, kind@, id@, object_key@, t),
{
    LookupReference {
        schema_version: SCHEMA_VERSION,
        entity_kind: kind.to_string(),
        entity_id: id.to_string(),
        object_key: object_key.to_string(),
        created_at: t,
    }
}

fn make_reference(
    id: &str,
    message_id: &str,
    message_key: &str,
    owner: &str,
    kind: &str,
    t: UtcTime,
) -> (r: MessageReference)
    ensures
        reference_is(r, id@, message_id@, message_key@, owner@, kind@, t),
{
    MessageReference {
        schema_version: SCHEMA_VERSION,
        id: id.to_string(),
        message_id: message_id.to_string(),
        message_object_key: message_key.to_string(),
        owner_id: owner.to_string(),
        reference_kind: kind.to_string(),
        created_at: t,
    }
}

pub fn copy_strings(v: &Vec<String>) -> (r: Vec<String>)
    ensures
        strings(r@) == strings(v@),
{
    let mut r: Vec<String> = Vec::new();
    let mut i: usize = 0;
    while i < v.len()
        invariant
            i <= v.len(),
            strings(r@) == strings(v@).take(i as int),
        decreases v.len() - i,
    {
        let ghost before = r@;
        let c = v[i].clone();
        r.push(c);
        proof {
            assert(strings(r@) =~= strings(before).push(v@[i as int]@));
            assert(strings(v@).take(i + 1) =~= strings(v@).take(i as int).push(v@[i as int]@));
        }
        i = i + 1;
    }
    proof {
        assert(strings(v@).take(v.len() as int) =~= strings(v@));
    }
    r
}

fn planned(object_key: &str, record: Record, create_only: bool, step_id: &str) -> (w: PlannedWrite)
    ensures
        write_is(w, object_key@, step_id@, create_only),
        w.record == record,
{
    PlannedWrite {
        object_key: object_key.to_string(),
        record,
        create_only,
        step_id: step_id.to_string(),
    }
}

// ---------------------------------------------------------------------
// Operation records.
// ---------------------------------------------------------------------

/// What starting an operation writes first.
#[derive(Clone, Debug)]
pub enum BeginAction {
    /// No idempotency key: record the operation as started (create-only, its
    /// outcome ignored); the operation is new.
    Start { started_key: String },
    /// Claim the idempotency key: write the pending record there, create-only.
    Claim { claim_key: String },
}

/// What the claim of an idempotency key decided.
#[derive(Clone, Debug)]
pub enum ClaimOutcome {
    /// The key is this operation's: record it as started (create-only, outcome
    /// ignored); the operation is new.
    Claimed { started_key: String },
    /// An earlier request holds the key: read its record at the claim key.
    Taken,
    /// The claim failed.
    Failed(ServiceError),
}

impl Service {
    /// A pending operation of `caller_id` under `idempotency_key`, with a fresh
    /// id, of kind `operation_kind`, for the request whose fingerprint is
    /// `request_hash`.
    pub fn new_operation(
        &self,
        caller_id: &str,
        idempotency_key: &str,
        operation_kind: &str,
        request_hash: &str,
        entity_ids: EntityIds,
        created_at: UtcTime,
    ) -> (r: Result<OperationRecord, ServiceError>)
        ensures
            r matches Ok(op) && op.schema_version == SCHEMA_VERSION && uuid_v7_text(op.id@)
                && op.caller_id@ == caller_id@ && op.idempotency_key@ == idempotency_key@
                && op.operation_kind@ == operation_kind@ && op.request_hash@ == request_hash@ && op.status@
                == "pending"@ && op.entity_ids == entity_ids && op.result is None && op.created_at
                == created_at && op.updated_at == created_at,
    {
        let id = match self.id_generator().new_id() {
            Ok(id) => id,
            Err(e) => {
                return Err(e);
            },
        };
        Ok(
            OperationRecord {
                schema_version: SCHEMA_VERSION,
                id,
                caller_id: caller_id.to_string(),
                idempotency_key: idempotency_key.to_string(),
                operation_kind: operation_kind.to_string(),
                request_hash: request_hash.to_string(),
                status: "pending".to_string(),
                entity_ids,
                result: None,
                created_at,
                updated_at: created_at,
            },
        )
    }

    /// The first write of `operation`, started by `caller_id` under `idempotency_key`.
    pub fn begin_action(
        &self,
        operation: &OperationRecord,
        caller_id: &str,
        idempotency_key: &str,
    ) -> (r: BeginAction)
        ensures
            blank(idempotency_key@) ==> (r matches BeginAction::Start { started_key } && started_key@
                == operation_started_key(self.keys()@, operation.id@)),
            !blank(idempotency_key@) ==> (r matches BeginAction::Claim { claim_key } && claim_key@
                == operation_id_key(self.keys()@, idempotency_key@, caller_id@)),
    {
        if is_blank(idempotency_key) {
            BeginAction::Start {
                started_key: self.key_builder().operation_started(operation.id.as_str()),
            }
        } else {
            BeginAction::Claim {
                claim_key: self.key_builder().operation_id(idempotency_key, caller_id),
            }
        }
    }

    /// What the create-only write at the claim key decided.
    pub fn after_claim(&self, operation: &OperationRecord, written: Result<(), ServiceError>) -> (r:
        ClaimOutcome)
        ensures
            written is Ok ==> (r matches ClaimOutcome::Claimed { started_key } && started_key@
                == operation_started_key(self.keys()@, operation.id@)),
            written == Err::<(), ServiceError>(ServiceError::ObjectAlreadyExists) ==> r
                is Taken,
            written matches Err(e) ==> (e != ServiceError::ObjectAlreadyExists ==> (
            r matches ClaimOutcome::Failed(f) && f == e)),
    {
        match written {
            Ok(()) => ClaimOutcome::Claimed {
                started_key: self.key_builder().operation_started(operation.id.as_str()),
            },
            Err(ServiceError::ObjectAlreadyExists) => ClaimOutcome::Taken,
            Err(e) => ClaimOutcome::Failed(e),
        }
    }

    /// The completed record of `operation` with the JSON text of its result,
    /// and the keys it is written to: its completion record and, under an
    /// idempotency key, the claim, so that a retry finds the result.
    pub fn completion(
        &self,
        operation: OperationRecord,
        result_json: String,
        completed_at: UtcTime,
        caller_id: &str,
        idempotency_key: &str,
    ) -> (r: (OperationRecord, Vec<String>))
        ensures
            r.0.status@ == "completed"@,
            r.0.result matches Some(j) && j@ == result_json@,
            r.0.updated_at == completed_at,
            r.0.id == operation.id,
            r.0.caller_id == operation.caller_id,
            r.0.idempotency_key == operation.idempotency_key,
            r.0.entity_ids == operation.entity_ids,
            r.0.created_at == operation.created_at,
            r.0.schema_version == operation.schema_version,
            r.0.operation_kind == operation.operation_kind,
            r.0.request_hash == operation.request_hash,
            blank(idempotency_key@) ==> r.1@.len() == 1,
            !blank(idempotency_key@) ==> r.1@.len() == 2 && r.1@[1]@ == operation_id_key(
                self.keys()@,
                idempotency_key@,
                caller_id@,
            ),
            r.1@[0]@ == operation_completed_key(self.keys()@, operation.id@),
    {
        let mut completed = operation;
        completed.status = "completed".to_string();
        completed.result = Some(result_json);
        completed.updated_at = completed_at;
        let mut keys: Vec<String> = Vec::new();
        keys.push(self.key_builder().operation_completed(completed.id.as_str()));
        if !is_blank(idempotency_key) {
            keys.push(self.key_builder().operation_id(idempotency_key, caller_id));
        }
        (completed, keys)
    }

    /// The step record of a write of `operation_id` to `object_key`, and where
    /// it goes; none when either is empty.
    pub fn step_write(
        &self,
        operation_id: &str,
        step_id: &str,
        object_key: &str,
        now: UtcTime,
    ) -> (r: Option<(String, OperationStep)>)
        ensures
            (operation_id@.len() == 0 || object_key@.len() == 0) ==> r is None,
            (operation_id@.len() > 0 && object_key@.len() > 0) ==> (r matches Some((key, step))
                && key@ == operation_step_key(self.keys()@, operation_id@, step_id@)
                && step.schema_version == SCHEMA_VERSION && step.operation_id@ == operation_id@
                && step.step_id@ == step_id@ && step.object_key@ == object_key@ && step.created_at
                == now),
    {
        if operation_id.is_empty() || object_key.is_empty() {
            return None;
        }
        Some(
            (
                self.key_builder().operation_step(operation_id, step_id),
                OperationStep {
                    schema_version: SCHEMA_VERSION,
                    operation_id: operation_id.to_string(),
                    step_id: step_id.to_string(),
                    object_key: object_key.to_string(),
                    created_at: now,
                },
            ),
        )
    }
}

/// The operation has completed, and holds its result.
pub open spec fn is_completed(op: OperationRecord) -> bool {
    op.status@ == "completed"@
}

/// An operation found under a claimed key, for a request whose fingerprint
/// is `request_hash`: the same request resumes it, and learns whether it
/// already completed; a different request is refused with
/// `IdempotencyConflict`.
pub fn resume_operation(existing: OperationRecord, request_hash: &str) -> (r: Result<
    (OperationRecord, bool),
    ServiceError,
>)
    ensures
        existing.request_hash@ == request_hash@ ==> (r matches Ok(found) && found.0 == existing
            && found.1 == is_completed(existing)),
        existing.request_hash@ != request_hash@ ==> r == Err::<(OperationRecord, bool), ServiceError>(
            ServiceError::IdempotencyConflict,
        ),
{
    if !str_equal(existing.request_hash.as_str(), request_hash) {
        return Err(ServiceError::IdempotencyConflict);
    }
    let completed = str_equal(existing.status.as_str(), "completed");
    Ok((existing, completed))
}

/// The JSON text of a completed operation's result.
pub fn completed_result(operation: &OperationRecord) -> (r: Result<String, ServiceError>)
    ensures
        operation.result matches Some(j) ==> (r matches Ok(s) && s@ == j@),
        operation.result is None ==> (r matches Err(ServiceError::Storage(m)) && m@
            == "completed operation is missing result"@),
{
    match &operation.result {
        Some(j) => Ok(j.clone()),
        None => Err(ServiceError::Storage("completed operation is missing result".to_string())),
    }
}

/// A create-only write that found its object already there did its work: the
/// object holds what an earlier attempt of the same operation wrote.
pub fn create_only_outcome(written: Result<(), ServiceError>) -> (r: Result<(), ServiceError>)
    ensures
        (written is Ok || written == Err::<(), ServiceError>(ServiceError::ObjectAlreadyExists))
            ==> r is Ok,
        written matches Err(e) ==> (e != ServiceError::ObjectAlreadyExists ==> r == written),
{
    match written {
        Ok(()) => Ok(()),
        Err(ServiceError::ObjectAlreadyExists) => Ok(()),
        Err(e) => Err(e),
    }
}

/// A read whose object may be missing: `None` for a missing one.
pub fn found_or_none<T>(read: Result<T, ServiceError>) -> (r: Result<Option<T>, ServiceError>)
    ensures
        read matches Ok(v) ==> r == Ok::<Option<T>, ServiceError>(Some(v)),
        read == Err::<T, ServiceError>(ServiceError::ObjectNotFound) ==> r == Ok::<
            Option<T>,
            ServiceError,
        >(None),
        read matches Err(e) ==> (e != ServiceError::ObjectNotFound ==> r == Err::<
            Option<T>,
            ServiceError,
        >(e)),
{
    match read {
        Ok(v) => Ok(Some(v)),
        Err(ServiceError::ObjectNotFound) => Ok(None),
        Err(e) => Err(e),
    }
}

/// A create-only write must hold the service's create lock when the store
/// cannot check and write in one step.
pub fn needs_create_lock(create_only: bool, capabilities: StoreCapabilities) -> (r: bool)
    ensures
        r == (create_only && !capabilities.create_if_absent_atomic),
{
    create_only && !capabilities.create_if_absent_atomic
}

// ---------------------------------------------------------------------
// Plans.
// ---------------------------------------------------------------------

/// The error of an operation record that lacks the id named `name`.
pub open spec fn missing_id(e: ServiceError, name: Seq<char>) -> bool {
    e matches ServiceError::Storage(m) && m@ == "operation is missing entity id "@ + name
}

/// Where an attachment's bytes live: the request's key, trimmed, or a key of
/// the service's own under the normalized file name. The file name is
/// normalized as a file name (`Report Final.pdf` is `report-final.pdf`).
pub open spec fn attachment_object_spec(
    ns: Seq<char>,
    c: CreateAttachmentCommand,
    id: Seq<char>,
    t: UtcTime,
) -> Seq<char> {
    if blank(c.object_key@) {
        attachment_object_key(ns, id, t, normalize_file_name_spec(c.original_file_name@))
    } else {
        trim_ws(c.object_key@)
    }
}

pub open spec fn attachment_is(
    m: AttachmentMetadata,
    c: CreateAttachmentCommand,
    id: Seq<char>,
    object_key: Seq<char>,
    t: UtcTime,
) -> bool {
    &&& m.schema_version == SCHEMA_VERSION
    &&& m.id@ == id
    &&& m.object_key@ == object_key
    &&& m.original_file_name@ == c.original_file_name@
    &&& m.normalized_file_name@ == normalize_file_name_spec(c.original_file_name@)
    &&& m.content_type@ == c.content_type@
    &&& m.size == c.size
    &&& m.checksum@ == c.checksum@
    &&& m.created_at == t
}

/// The instant a read marker records: the request's, or when the request came.
pub open spec fn read_at_spec(c: MarkReadCommand, requested_at: UtcTime) -> UtcTime {
    match c.read_at {
        Some(t) => t,
        None => requested_at,
    }
}

pub open spec fn state_is(
    st: State,
    c: MarkReadCommand,
    id: Seq<char>,
    read_at: UtcTime,
    t: UtcTime,
) -> bool {
    &&& st.schema_version == SCHEMA_VERSION
    &&& st.id@ == id
    &&& st.actor_id@ == c.actor_id@
    &&& st.state_kind@ == "read"@
    &&& st.target_kind@ == c.target_kind@
    &&& st.target_id@ == c.target_id@
    &&& st.read_position@ == c.read_position@
    &&& st.read_at == read_at
    &&& st.created_at == t
}

/// The first write of marking read, the marker it writes, where the actor's
/// current marker lives, and the answer.
#[derive(Debug)]
pub struct MarkReadPlan {
    pub event: PlannedWrite,
    pub state: State,
    pub current_key: String,
    pub result: MarkReadResult,
}

fn make_state(c: &MarkReadCommand, id: &str, read_at: UtcTime, t: UtcTime) -> (st: State)
    ensures
        state_is(st, *c, id@, read_at, t),
{
    State {
        schema_version: SCHEMA_VERSION,
        id: id.to_string(),
        actor_id: c.actor_id.clone(),
        state_kind: "read".to_string(),
        target_kind: c.target_kind.clone(),
        target_id: c.target_id.clone(),
        read_position: c.read_position.clone(),
        read_at,
        created_at: t,
    }
}

impl Service {
    /// The writes of recording an attachment: its metadata, then the lookup
    /// from its id to the metadata.
    pub fn create_attachment_plan(
        &self,
        command: &CreateAttachmentCommand,
        operation: &OperationRecord,
    ) -> (plan: WritePlan<CreateAttachmentResult>)
        ensures
            match operation.entity_ids.id_of("attachmentId"@) {
                None => plan.writes@.len() == 0 && (plan.outcome matches Err(e) && missing_id(
                    e,
                    "attachmentId"@,
                )),
                Some(id) => {
                    let ns = self.keys()@;
                    let t = operation.created_at;
                    let meta_key = attachment_metadata_key(ns, id, t);
                    let lookup_key = attachment_lookup_key(ns, id);
                    let object_key = attachment_object_spec(ns, *command, id, t);
                    &&& plan.writes@.len() == 2
                    &&& write_is(plan.writes@[0], meta_key, "attachment-metadata"@, true)
                    &&& plan.writes@[0].record matches Record::Attachment(m) && attachment_is(
                        m,
                        *command,
                        id,
                        object_key,
                        t,
                    )
                    &&& write_is(plan.writes@[1], lookup_key, "attachment-lookup"@, true)
                    &&& plan.writes@[1].record matches Record::Lookup(l) && lookup_is(
                        l,
                        "attachment"@,
                        id,
                        meta_key,
                        t,
                    )
                    &&& plan.outcome matches Ok(res) && res.operation_id@ == operation.id@
                        && res.attachment_id@ == id && res.attachment_metadata_key@ == meta_key
                        && res.attachment_lookup_key@ == lookup_key && res.attachment_object_key@
                        == object_key
                },
            },
            operation.entity_ids.id_of("attachmentId"@) is Some ==> (plan.writes@.len() == 2
                && (plan.writes@[0].record matches Record::Attachment(m) && m.original_file_name@
                == command.original_file_name@ && m.content_type@ == command.content_type@ && m.size
                == command.size && m.checksum@ == command.checksum@ && m.created_at
                == operation.created_at)),
    {
        let mut writes: Vec<PlannedWrite> = Vec::new();
        let attachment_id = match required_entity_id(&operation.entity_ids, "attachmentId") {
            Ok(id) => id,
            Err(e) => {
                return WritePlan { writes, outcome: Err(e) };
            },
        };
        let created_at = operation.created_at;
        let keys = self.key_builder();
        let normalized_file_name = normalize_file_name(command.original_file_name.as_str());
        let attachment_object_key = if is_blank(command.object_key.as_str()) {
            keys.attachment_object(attachment_id.as_str(), created_at, normalized_file_name.as_str())
        } else {
            trim(command.object_key.as_str())
        };
        let metadata = AttachmentMetadata {
            schema_version: SCHEMA_VERSION,
            id: attachment_id.clone(),
            object_key: attachment_object_key.clone(),
            original_file_name: command.original_file_name.clone(),
            normalized_file_name,
            content_type: command.content_type.clone(),
            size: command.size,
            checksum: command.checksum.clone(),
            created_at,
        };
        let metadata_key = keys.attachment_metadata(attachment_id.as_str(), created_at);
        writes.push(
            planned(
                metadata_key.as_str(),
                Record::Attachment(metadata),
                true,
                "attachment-metadata",
            ),
        );
        let lookup_key = keys.attachment_lookup(attachment_id.as_str());
        let lookup = make_lookup(
            "attachment",
            attachment_id.as_str(),
            metadata_key.as_str(),
            created_at,
        );
        writes.push(planned(lookup_key.as_str(), Record::Lookup(lookup), true, "attachment-lookup"));
        let result = CreateAttachmentResult {
            operation_id: operation.id.clone(),
            attachment_id,
            attachment_metadata_key: metadata_key,
            attachment_lookup_key: lookup_key,
            attachment_object_key,
        };
        WritePlan { writes, outcome: Ok(result) }
    }

    /// Marking read: the read marker, written as an event first; the actor's
    /// current marker is decided by `current_state_write` once it has been read.
    pub fn mark_read_plan(
        &self,
        command: &MarkReadCommand,
        operation: &OperationRecord,
        requested_at: UtcTime,
    ) -> (r: Result<MarkReadPlan, ServiceError>)
        ensures
            match operation.entity_ids.id_of("stateId"@) {
                None => r matches Err(e) && missing_id(e, "stateId"@),
                Some(id) => {
                    let ns = self.keys()@;
                    let t = operation.created_at;
                    let read_at = read_at_spec(*command, requested_at);
                    let event_key = state_event_key(
                        ns,
                        command.actor_id@,
                        command.target_kind@,
                        command.target_id@,
                        t,
                        id,
                    );
                    let current_key = state_current_key(
                        ns,
                        command.actor_id@,
                        command.target_kind@,
                        command.target_id@,
                    );
                    r matches Ok(p) && state_is(p.state, *command, id, read_at, t) && write_is(
                        p.event,
                        event_key,
                        "state-event"@,
                        true,
                    ) && (p.event.record matches Record::State(st) && state_is(
                        st,
                        *command,
                        id,
                        read_at,
                        t,
                    )) && p.current_key@ == current_key && p.result.operation_id@ == operation.id@
                        && p.result.state_id@ == id && p.result.state_event_object_key@
                        == event_key && p.result.current_state_object_key@ == current_key
                },
            },
            r matches Ok(p) ==> p.state.actor_id@ == command.actor_id@ && p.state.state_kind@
                == "read"@ && p.state.target_kind@ == command.target_kind@ && p.state.target_id@
                == command.target_id@ && p.state.read_position@ == command.read_position@,
    {
        let state_id = match required_entity_id(&operation.entity_ids, "stateId") {
            Ok(id) => id,
            Err(e) => {
                return Err(e);
            },
        };
        let created_at = operation.created_at;
        let read_at = match command.read_at {
            Some(t) => t,
            None => requested_at,
        };
        let keys = self.key_builder();
        let state = make_state(command, state_id.as_str(), read_at, created_at);
        let event_key = keys.state_event(
            command.actor_id.as_str(),
            command.target_kind.as_str(),
            command.target_id.as_str(),
            created_at,
            state_id.as_str(),
        );
        let event = planned(
            event_key.as_str(),
            Record::State(make_state(command, state_id.as_str(), read_at, created_at)),
            true,
            "state-event",
        );
        let current_key = keys.state_current(
            command.actor_id.as_str(),
            command.target_kind.as_str(),
            command.target_id.as_str(),
        );
        let result = MarkReadResult {
            operation_id: operation.id.clone(),
            state_id,
            state_event_object_key: event_key,
            current_state_object_key: current_key.clone(),
        };
        Ok(MarkReadPlan { event, state, current_key, result })
    }
}

/// A current marker is replaced by a marker read no earlier than it.
pub open spec fn replaces_current(existing: Option<State>, marker: State) -> bool {
    match existing {
        None => true,
        Some(e) => not_after(e.read_at, marker.read_at),
    }
}

/// The write of the actor's current marker, given the one stored (if any):
/// the new marker replaces it unless it was read later; and the answer.
pub fn current_state_write(plan: MarkReadPlan, existing: &Option<State>) -> (r: (
    Option<PlannedWrite>,
    MarkReadResult,
))
    ensures
        replaces_current(*existing, plan.state) ==> (r.0 matches Some(w) && write_is(
            w,
            plan.current_key@,
            "state-current"@,
            false,
        ) && w.record == Record::State(plan.state)),
        !replaces_current(*existing, plan.state) ==> r.0 is None,
        r.1 == plan.result,
{
    let replace = match existing {
        None => true,
        Some(e) => e.read_at.not_after(&plan.state.read_at),
    };
    let MarkReadPlan { event: _, state, current_key, result } = plan;
    if replace {
        (Some(planned(current_key.as_str(), Record::State(state), false, "state-current")), result)
    } else {
        (None, result)
    }
}

pub open spec fn broadcast_is(
    b: Broadcast,
    c: SendBroadcastCommand,
    id: Seq<char>,
    audience: Seq<Seq<char>>,
    t: UtcTime,
) -> bool {
    &&& b.schema_version == SCHEMA_VERSION
    &&& b.id@ == id
    &&& b.sender_actor_id@ == c.sender_actor_id@
    &&& b.audience_type@ == c.audience_type@
    &&& strings(b.audience_keys@) == audience
    &&& b.message_type@ == c.message_type@
    &&& b.payload@ == payload_spec(c.payload)
    &&& strings(b.attachment_ids@) == strings(c.attachment_ids@)
    &&& b.created_at == t
    &&& b.expires_at == c.expires_at
}

/// The key under which the broadcast is filed for the audience key at `k`.
pub open spec fn audience_object_key_at(
    ns: Seq<char>,
    c: SendBroadcastCommand,
    audience: Seq<Seq<char>>,
    t: UtcTime,
    id: Seq<char>,
    k: int,
) -> Seq<char> {
    broadcast_audience_key(ns, c.audience_type@, audience[k], t, id)
}

impl Service {
    /// The writes of sending a broadcast: its body, the lookup from its id, and
    /// one copy of the lookup per audience key, filed under that audience.
    pub fn send_broadcast_plan(
        &self,
        command: &SendBroadcastCommand,
        operation: &OperationRecord,
    ) -> (plan: WritePlan<SendBroadcastResult>)
        ensures
            match operation.entity_ids.id_of("broadcastId"@) {
                None => plan.writes@.len() == 0 && (plan.outcome matches Err(e) && missing_id(
                    e,
                    "broadcastId"@,
                )),
                Some(id) => {
                    let ns = self.keys()@;
                    let t = operation.created_at;
                    let audience = normalized_audience(
                        command.audience_type@,
                        strings(command.audience_keys@),
                    );
                    let body_key = broadcast_body_key(ns, id, t);
                    let lookup_key = broadcast_lookup_key(ns, id);
                    &&& plan.writes@.len() == 2 + audience.len()
                    &&& write_is(plan.writes@[0], body_key, "broadcast-body"@, true)
                    &&& plan.writes@[0].record matches Record::Broadcast(b) && broadcast_is(
                        b,
                        *command,
                        id,
                        audience,
                        t,
                    )
                    &&& write_is(plan.writes@[1], lookup_key, "broadcast-lookup"@, true)
                    &&& plan.writes@[1].record matches Record::Lookup(l) && lookup_is(
                        l,
                        "broadcast"@,
                        id,
                        body_key,
                        t,
                    )
                    &&& forall|k: int|
                        0 <= k < audience.len() ==> write_is(
                            #[trigger] plan.writes@[2 + k],
                            audience_object_key_at(ns, *command, audience, t, id, k),
                            "broadcast-audience-"@ + audience[k],
                            true,
                        ) && (plan.writes@[2 + k].record matches Record::Lookup(l) && lookup_is(
                            l,
                            "broadcast"@,
                            id,
                            body_key,
                            t,
                        ))
                    &&& plan.outcome matches Ok(res) && res.operation_id@ == operation.id@
                        && res.broadcast_id@ == id && res.broadcast_object_key@ == body_key
                        && res.broadcast_lookup_key@ == lookup_key && strings(
                        res.audience_object_keys@,
                    ) == Seq::new(
                        audience.len(),
                        |k: int| audience_object_key_at(ns, *command, audience, t, id, k),
                    )
                },
            },
            operation.entity_ids.id_of("broadcastId"@) is Some ==> (plan.writes@[0].record matches Record::Broadcast(
                b,
            ) && b.sender_actor_id@ == command.sender_actor_id@ && b.audience_type@
                == command.audience_type@ && b.message_type@ == command.message_type@),
    {
        let mut writes: Vec<PlannedWrite> = Vec::new();
        let broadcast_id = match required_entity_id(&operation.entity_ids, "broadcastId") {
            Ok(id) => id,
            Err(e) => {
                return WritePlan { writes, outcome: Err(e) };
            },
        };
        let created_at = operation.created_at;
        let keys = self.key_builder();
        let ghost ns = self.keys()@;
        let ghost id = broadcast_id@;
        let audience = normalize_audience_keys(
            command.audience_type.as_str(),
            command.audience_keys.as_slice(),
        );
        let ghost aud = strings(audience@);
        let body_key = keys.broadcast_body(broadcast_id.as_str(), created_at);
        let broadcast = Broadcast {
            schema_version: SCHEMA_VERSION,
            id: broadcast_id.clone(),
            sender_actor_id: command.sender_actor_id.clone(),
            audience_type: command.audience_type.clone(),
            audience_keys: copy_strings(&audience),
            message_type: command.message_type.clone(),
            payload: normalized_payload(&command.payload),
            attachment_ids: copy_strings(&command.attachment_ids),
            created_at,
            expires_at: command.expires_at,
        };
        writes.push(planned(body_key.as_str(), Record::Broadcast(broadcast), true, "broadcast-body"));
        let lookup_key = keys.broadcast_lookup(broadcast_id.as_str());
        writes.push(
            planned(
                lookup_key.as_str(),
                Record::Lookup(
                    make_lookup("broadcast", broadcast_id.as_str(), body_key.as_str(), created_at),
                ),
                true,
                "broadcast-lookup",
            ),
        );
        let mut audience_object_keys: Vec<String> = Vec::new();
        let mut k: usize = 0;
        while k < audience.len()
            invariant
                k <= audience.len(),
                aud == strings(audience@),
                ns == keys@,
                id == broadcast_id@,
                writes@.len() == 2 + k,
                write_is(writes@[0], broadcast_body_key(ns, id, created_at), "broadcast-body"@, true),
                writes@[0].record matches Record::Broadcast(b) && broadcast_is(
                    b,
                    *command,
                    id,
                    aud,
                    created_at,
                ),
                write_is(writes@[1], broadcast_lookup_key(ns, id), "broadcast-lookup"@, true),
                writes@[1].record matches Record::Lookup(l) && lookup_is(
                    l,
                    "broadcast"@,
                    id,
                    broadcast_body_key(ns, id, created_at),
                    created_at,
                ),
                body_key@ == broadcast_body_key(ns, id, created_at),
                forall|j: int|
                    0 <= j < k ==> write_is(
                        #[trigger] writes@[2 + j],
                        audience_object_key_at(ns, *command, aud, created_at, id, j),
                        "broadcast-audience-"@ + aud[j],
                        true,
                    ) && (writes@[2 + j].record matches Record::Lookup(l) && lookup_is(
                        l,
                        "broadcast"@,
                        id,
                        broadcast_body_key(ns, id, created_at),
                        created_at,
                    )),
                strings(audience_object_keys@) == Seq::new(
                    k as nat,
                    |j: int| audience_object_key_at(ns, *command, aud, created_at, id, j),
                ),
            decreases audience.len() - k,
        {
            let audience_key = audience[k].as_str();
            let object_key = keys.broadcast_audience(
                command.audience_type.as_str(),
                audience_key,
                created_at,
                broadcast_id.as_str(),
            );
            let mut step = chars_of("broadcast-audience-");
            append_str(&mut step, audience_key);
            let step_id = string_of(&step);
            let ghost before = writes@;
            let ghost keys_before = audience_object_keys@;
            writes.push(
                planned(
                    object_key.as_str(),
                    Record::Lookup(
                        make_lookup(
                            "broadcast",
                            broadcast_id.as_str(),
                            body_key.as_str(),
                            created_at,
                        ),
                    ),
                    true,
                    step_id.as_str(),
                ),
            );
            audience_object_keys.push(object_key);
            proof {
                assert(aud[k as int] == audience@[k as int]@);
                assert forall|j: int| 0 <= j < k + 1 implies write_is(
                    #[trigger] writes@[2 + j],
                    audience_object_key_at(ns, *command, aud, created_at, id, j),
                    "broadcast-audience-"@ + aud[j],
                    true,
                ) && (writes@[2 + j].record matches Record::Lookup(l) && lookup_is(
                    l,
                    "broadcast"@,
                    id,
                    broadcast_body_key(ns, id, created_at),
                    created_at,
                )) by {
                    if j < k {
                        assert(writes@[2 + j] == before[2 + j]);
                    }
                }
                assert(strings(audience_object_keys@) =~= strings(keys_before).push(object_key@));
                assert(strings(audience_object_keys@) =~= Seq::new(
                    (k + 1) as nat,
                    |j: int| audience_object_key_at(ns, *command, aud, created_at, id, j),
                ));
            }
            k = k + 1;
        }
        let result = SendBroadcastResult {
            operation_id: operation.id.clone(),
            broadcast_id,
            broadcast_object_key: body_key,
            broadcast_lookup_key: lookup_key,
            audience_object_keys,
        };
        WritePlan { writes, outcome: Ok(result) }
    }
}

pub open spec fn message_is(
    msg: Message,
    c: SendMessageCommand,
    id: Seq<char>,
    thread_id: Seq<char>,
    t: UtcTime,
) -> bool {
    &&& msg.schema_version == SCHEMA_VERSION
    &&& msg.id@ == id
    &&& msg.sender_actor_id@ == c.sender_actor_id@
    &&& strings(msg.recipient_actor_ids@) == strings(c.recipient_actor_ids@)
    &&& msg.message_type@ == c.message_type@
    &&& msg.payload@ == payload_spec(c.payload)
    &&& strings(msg.attachment_ids@) == strings(c.attachment_ids@)
    &&& msg.thread_id@ == thread_id
    &&& msg.parent_message_id@ == c.parent_message_id@
    &&& msg.created_at == t
}

pub open spec fn thread_is(th: Thread, id: Seq<char>, root: Seq<char>, t: UtcTime) -> bool {
    &&& th.schema_version == SCHEMA_VERSION
    &&& th.id@ == id
    &&& th.root_message_id@ == root
    &&& th.external_correlation_id@.len() == 0
    &&& th.created_at == t
}

/// The thread a message is filed in: the one it names; else, for a reply
/// whose parent `pt` is in a thread, that thread; else, for a reply or a
/// message that asks for a thread, the new thread's id; else none.
pub open spec fn message_thread_spec(c: SendMessageCommand, ids: EntityIds, pt: Option<String>) -> Seq<
    char,
> {
    if c.thread_id@.len() > 0 {
        c.thread_id@
    } else if c.parent_message_id@.len() > 0 && (pt matches Some(t) && t@.len() > 0) {
        pt.unwrap()@
    } else if c.parent_message_id@.len() > 0 || c.create_thread {
        match ids.id_of("threadId"@) {
            Some(t) => t,
            None => Seq::empty(),
        }
    } else {
        Seq::empty()
    }
}

/// The ids of the inbox references of the first `n` recipients are there.
pub open spec fn inbox_ids_present(ids: EntityIds, n: nat) -> bool {
    forall|i: nat| i < n ==> (#[trigger] ids.id_of(inbox_ref_name(i))) is Some
}

/// The first recipient whose inbox reference id is missing.
pub open spec fn first_missing_inbox(ids: EntityIds, i: nat, n: nat) -> bool {
    i < n && ids.id_of(inbox_ref_name(i)) is None && inbox_ids_present(ids, i)
}

/// Where sending a message stops for want of an id: how many writes come
/// before, and the missing name. None when every id it needs is there.
pub open spec fn message_stop(c: SendMessageCommand, ids: EntityIds, pt: Option<String>) -> Option<(nat, Seq<char>)> {
    let n = c.recipient_actor_ids@.len();
    if ids.id_of("messageId"@) is None {
        Some((0, "messageId"@))
    } else if ids.id_of("sentRefId"@) is None {
        Some((2, "sentRefId"@))
    } else if !inbox_ids_present(ids, n) {
        let i = choose|i: nat| first_missing_inbox(ids, i, n);
        Some((3 + i, inbox_ref_name(i)))
    } else if message_thread_spec(c, ids, pt).len() > 0 && ids.id_of("threadRefId"@) is None {
        Some((4 + n, "threadRefId"@))
    } else {
        None
    }
}

/// The number of writes of a message that has every id it needs.
pub open spec fn message_write_count(c: SendMessageCommand, ids: EntityIds, pt: Option<String>) -> nat {
    3 + c.recipient_actor_ids@.len() + if message_thread_spec(c, ids, pt).len() > 0 {
        2nat
    } else {
        0nat
    }
}

/// The key of write `k` of sending `c` as operation `op`.
pub open spec fn message_write_key(ns: Seq<char>, c: SendMessageCommand, op: OperationRecord, pt: Option<String>,
    k: int,
) -> Seq<char> {
    let ids = op.entity_ids;
    let m = ids.id_of("messageId"@).unwrap();
    let t = op.created_at;
    let n = c.recipient_actor_ids@.len();
    let thread = message_thread_spec(c, ids, pt);
    if k == 0 {
        message_body_key(ns, m, t)
    } else if k == 1 {
        message_lookup_key(ns, m)
    } else if k == 2 {
        mailbox_reference_key(
            ns,
            c.sender_actor_id@,
            "sent"@,
            t,
            m,
            ids.id_of("sentRefId"@).unwrap(),
        )
    } else if k < 3 + n {
        mailbox_reference_key(
            ns,
            c.recipient_actor_ids@[k - 3]@,
            "inbox"@,
            t,
            m,
            ids.id_of(inbox_ref_name((k - 3) as nat)).unwrap(),
        )
    } else if k == 3 + n {
        thread_metadata_key(ns, thread)
    } else {
        thread_reference_key(ns, thread, t, m, ids.id_of("threadRefId"@).unwrap())
    }
}

/// The step id of write `k`.
pub open spec fn message_step(c: SendMessageCommand, k: int) -> Seq<char> {
    let n = c.recipient_actor_ids@.len();
    if k == 0 {
        "message-body"@
    } else if k == 1 {
        "message-lookup"@
    } else if k == 2 {
        "sent-reference"@
    } else if k < 3 + n {
        "inbox-reference-"@ + decimal((k - 3) as nat)
    } else if k == 3 + n {
        "thread-metadata"@
    } else {
        "thread-reference"@
    }
}

/// The record of write `k`.
pub open spec fn message_record_ok(ns: Seq<char>, c: SendMessageCommand, op: OperationRecord, pt: Option<String>,
    k: int,
    rec: Record,
) -> bool {
    let ids = op.entity_ids;
    let m = ids.id_of("messageId"@).unwrap();
    let t = op.created_at;
    let n = c.recipient_actor_ids@.len();
    let thread = message_thread_spec(c, ids, pt);
    let body_key = message_body_key(ns, m, t);
    if k == 0 {
        rec matches Record::Message(msg) && message_is(msg, c, m, thread, t)
    } else if k == 1 {
        rec matches Record::Lookup(l) && lookup_is(l, "message"@, m, body_key, t)
    } else if k == 2 {
        rec matches Record::Reference(r) && reference_is(
            r,
            ids.id_of("sentRefId"@).unwrap(),
            m,
            body_key,
            c.sender_actor_id@,
            "sent"@,
            t,
        )
    } else if k < 3 + n {
        rec matches Record::Reference(r) && reference_is(
            r,
            ids.id_of(inbox_ref_name((k - 3) as nat)).unwrap(),
            m,
            body_key,
            c.recipient_actor_ids@[k - 3]@,
            "inbox"@,
            t,
        )
    } else if k == 3 + n {
        rec matches Record::Thread(th) && thread_is(th, thread, m, t)
    } else {
        rec matches Record::Reference(r) && reference_is(
            r,
            ids.id_of("threadRefId"@).unwrap(),
            m,
            body_key,
            thread,
            "thread"@,
            t,
        )
    }
}

pub open spec fn message_write_ok(ns: Seq<char>, c: SendMessageCommand, op: OperationRecord, pt: Option<String>,
    k: int,
    w: PlannedWrite,
) -> bool {
    write_is(w, message_write_key(ns, c, op, pt, k), message_step(c, k), true) && message_record_ok(ns, c, op, pt, k,
        w.record,
    )
}

/// The reference keys a sent message reports: the sender's, each recipient's,
/// and the thread's.
pub open spec fn message_reference_keys(
    ns: Seq<char>,
    c: SendMessageCommand,
    op: OperationRecord,
    pt: Option<String>,
) -> Seq<Seq<char>> {
    let n = c.recipient_actor_ids@.len();
    let in_thread = message_thread_spec(c, op.entity_ids, pt).len() > 0;
    Seq::new(
        if in_thread {
            n + 2
        } else {
            n + 1
        },
        |j: int|
            if j <= n {
                message_write_key(ns, c, op, pt, 2 + j)
            } else {
                message_write_key(ns, c, op, pt, 4 + n as int)
            },
    )
}

/// The only recipient whose inbox reference id is the first missing one.
proof fn lemma_first_missing_unique(ids: EntityIds, i: nat, n: nat)
    requires
        first_missing_inbox(ids, i, n),
    ensures
        (choose|j: nat| first_missing_inbox(ids, j, n)) == i,
{
    let j = choose|j: nat| first_missing_inbox(ids, j, n);
    assert(first_missing_inbox(ids, j, n));
    if j < i {
        assert(ids.id_of(inbox_ref_name(j)) is Some);
    } else if i < j {
        assert(ids.id_of(inbox_ref_name(i)) is Some);
    }
}

fn inbox_name(index: usize) -> (r: String)
    ensures
        r@ == inbox_ref_name(index as nat),
{
    let mut name = chars_of("inboxRefId:");
    append_chars(&mut name, &decimal_chars(index as u64));
    string_of(&name)
}

fn inbox_step(index: usize) -> (r: String)
    ensures
        r@ == "inbox-reference-"@ + decimal(index as nat),
{
    let mut name = chars_of("inbox-reference-");
    append_chars(&mut name, &decimal_chars(index as u64));
    string_of(&name)
}

impl Service {
    /// The writes of sending a message: its body, the lookup from its id, the
    /// sender's sent reference, one inbox reference per recipient, and, in a
    /// thread, the thread's metadata and its reference. Each reference is filed
    /// under the minute the message was created. A reply joins its parent's
    /// thread, `parent_thread` (the thread id stored with the parent message;
    /// none when the parent was not found); a reply whose parent is in no
    /// thread, or was not found, starts a new one. A missing id
    /// stops the plan after the writes that come before its first use.
    pub fn send_message_plan(
        &self,
        command: &SendMessageCommand,
        operation: &OperationRecord,
        parent_thread: &Option<String>,
    ) -> (plan: WritePlan<SendMessageResult>)
        ensures
            forall|k: int|
                0 <= k < plan.writes@.len() ==> message_write_ok(self.keys()@, *command, *operation, *parent_thread, k,
                    #[trigger] plan.writes@[k],
                ),
            match message_stop(*command, operation.entity_ids, *parent_thread) {
                Some((count, name)) => plan.writes@.len() == count && (plan.outcome matches Err(e)
                    && missing_id(e, name)),
                None => {
                    let ns = self.keys()@;
                    let m = operation.entity_ids.id_of("messageId"@).unwrap();
                    &&& plan.writes@.len() == message_write_count(*command, operation.entity_ids, *parent_thread)
                    &&& plan.outcome matches Ok(res) && res.operation_id@ == operation.id@
                        && res.message_id@ == m && res.message_object_key@ == message_body_key(
                        ns,
                        m,
                        operation.created_at,
                    ) && res.message_lookup_key@ == message_lookup_key(ns, m) && res.thread_id@
                        == message_thread_spec(*command, operation.entity_ids, *parent_thread) && strings(
                        res.reference_keys@,
                    ) == message_reference_keys(ns, *command, *operation, *parent_thread)
                },
            },
            plan.outcome matches Ok(res) ==> (command.thread_id@.len() > 0 ==> res.thread_id@
                == command.thread_id@),
            plan.outcome matches Ok(res) ==> (command.thread_id@.len() == 0
                && command.parent_message_id@.len() == 0 && !command.create_thread
                ==> res.thread_id@.len() == 0),
    {
        let ghost ns = self.keys()@;
        let ghost pt = *parent_thread;
        let ghost c = *command;
        let ghost op = *operation;
        let ids = &operation.entity_ids;
        let n = command.recipient_actor_ids.len();
        let mut writes: Vec<PlannedWrite> = Vec::new();
        let message_id = match required_entity_id(ids, "messageId") {
            Ok(id) => id,
            Err(e) => {
                return WritePlan { writes, outcome: Err(e) };
            },
        };
        let created_at = operation.created_at;
        let thread_id = if !command.thread_id.as_str().is_empty() {
            command.thread_id.clone()
        } else if !command.parent_message_id.as_str().is_empty() && (match parent_thread {
            Some(t) => !t.as_str().is_empty(),
            None => false,
        }) {
            match parent_thread {
                Some(t) => t.clone(),
                None => String::new(),
            }
        } else if !command.parent_message_id.as_str().is_empty() || command.create_thread {
            match ids.get("threadId") {
                Some(t) => t,
                None => String::new(),
            }
        } else {
            String::new()
        };
        let keys = self.key_builder();
        let body_key = keys.message_body(message_id.as_str(), created_at);
        let message = Message {
            schema_version: SCHEMA_VERSION,
            id: message_id.clone(),
            sender_actor_id: command.sender_actor_id.clone(),
            recipient_actor_ids: copy_strings(&command.recipient_actor_ids),
            message_type: command.message_type.clone(),
            payload: normalized_payload(&command.payload),
            attachment_ids: copy_strings(&command.attachment_ids),
            thread_id: thread_id.clone(),
            parent_message_id: command.parent_message_id.clone(),
            created_at,
        };
        writes.push(planned(body_key.as_str(), Record::Message(message), true, "message-body"));
        let lookup_key = keys.message_lookup(message_id.as_str());
        writes.push(
            planned(
                lookup_key.as_str(),
                Record::Lookup(
                    make_lookup("message", message_id.as_str(), body_key.as_str(), created_at),
                ),
                true,
                "message-lookup",
            ),
        );
        proof {
            assert(message_write_ok(ns, c, op, pt, 0, writes@[0]));
            assert(message_write_ok(ns, c, op, pt, 1, writes@[1]));
        }
        let mut reference_keys: Vec<String> = Vec::new();
        let sent_id = match required_entity_id(ids, "sentRefId") {
            Ok(id) => id,
            Err(e) => {
                return WritePlan { writes, outcome: Err(e) };
            },
        };
        let sent_key = keys.mailbox_reference(
            command.sender_actor_id.as_str(),
            "sent",
            created_at,
            message_id.as_str(),
            sent_id.as_str(),
        );
        writes.push(
            planned(
                sent_key.as_str(),
                Record::Reference(
                    make_reference(
                        sent_id.as_str(),
                        message_id.as_str(),
                        body_key.as_str(),
                        command.sender_actor_id.as_str(),
                        "sent",
                        created_at,
                    ),
                ),
                true,
                "sent-reference",
            ),
        );
        reference_keys.push(sent_key);
        proof {
            assert(message_write_ok(ns, c, op, pt, 2, writes@[2]));
            assert(strings(reference_keys@) =~= seq![message_write_key(ns, c, op, pt, 2)]);
        }
        let mut index: usize = 0;
        while index < n
            invariant
                index <= n,
                n == c.recipient_actor_ids@.len(),
                c == *command,
                op == *operation,
                ns == keys@,
                ns == self.keys()@,
                pt == *parent_thread,
                ids == &operation.entity_ids,
                ids.id_of("messageId"@) == Some(message_id@),
                ids.id_of("sentRefId"@) is Some,
                inbox_ids_present(*ids, index as nat),
                body_key@ == message_body_key(ns, message_id@, created_at),
                created_at == operation.created_at,
                writes@.len() == 3 + index,
                forall|k: int|
                    0 <= k < writes@.len() ==> message_write_ok(ns, c, op, pt, k,
                        #[trigger] writes@[k],
                    ),
                strings(reference_keys@) == Seq::new(
                    (index + 1) as nat,
                    |j: int| message_write_key(ns, c, op, pt, 2 + j),
                ),
            decreases n - index,
        {
            let name = inbox_name(index);
            let reference_id = match required_entity_id(ids, name.as_str()) {
                Ok(id) => id,
                Err(e) => {
                    proof {
                        assert(first_missing_inbox(*ids, index as nat, n as nat));
                        lemma_first_missing_unique(*ids, index as nat, n as nat);
                    }
                    return WritePlan { writes, outcome: Err(e) };
                },
            };
            let recipient = command.recipient_actor_ids[index].as_str();
            let reference_key = keys.mailbox_reference(
                recipient,
                "inbox",
                created_at,
                message_id.as_str(),
                reference_id.as_str(),
            );
            let step = inbox_step(index);
            let ghost before = writes@;
            let ghost keys_before = reference_keys@;
            writes.push(
                planned(
                    reference_key.as_str(),
                    Record::Reference(
                        make_reference(
                            reference_id.as_str(),
                            message_id.as_str(),
                            body_key.as_str(),
                            recipient,
                            "inbox",
                            created_at,
                        ),
                    ),
                    true,
                    step.as_str(),
                ),
            );
            reference_keys.push(reference_key);
            proof {
                assert(message_write_ok(ns, c, op, pt, 3 + index, writes@[3 + index]));
                assert forall|k: int| 0 <= k < writes@.len() implies message_write_ok(ns, c, op, pt, k,
                    #[trigger] writes@[k],
                ) by {
                    if k < 3 + index {
                        assert(writes@[k] == before[k]);
                    }
                }
                assert(strings(reference_keys@) =~= strings(keys_before).push(reference_key@));
                assert(strings(reference_keys@) =~= Seq::new(
                    (index + 2) as nat,
                    |j: int| message_write_key(ns, c, op, pt, 2 + j),
                ));
                assert forall|i: nat| i < index + 1 implies (#[trigger] ids.id_of(
                    inbox_ref_name(i),
                )) is Some by {
                    if i == index {
                        assert(inbox_ref_name(i) == name@);
                    }
                }
            }
            index = index + 1;
        }
        if !thread_id.as_str().is_empty() {
            let metadata_key = keys.thread_metadata(thread_id.as_str());
            let thread = Thread {
                schema_version: SCHEMA_VERSION,
                id: thread_id.clone(),
                root_message_id: message_id.clone(),
                external_correlation_id: String::new(),
                created_at,
            };
            let ghost before = writes@;
            writes.push(planned(metadata_key.as_str(), Record::Thread(thread), true, "thread-metadata"));
            proof {
                assert(message_write_ok(ns, c, op, pt, 3 + n, writes@[3 + n as int]));
                assert forall|k: int| 0 <= k < writes@.len() implies message_write_ok(ns, c, op, pt, k,
                    #[trigger] writes@[k],
                ) by {
                    if k < 3 + n {
                        assert(writes@[k] == before[k]);
                    }
                }
            }
            let thread_reference_id = match required_entity_id(ids, "threadRefId") {
                Ok(id) => id,
                Err(e) => {
                    return WritePlan { writes, outcome: Err(e) };
                },
            };
            let thread_reference_key = keys.thread_reference(
                thread_id.as_str(),
                created_at,
                message_id.as_str(),
                thread_reference_id.as_str(),
            );
            let ghost before2 = writes@;
            let ghost keys_before = reference_keys@;
            writes.push(
                planned(
                    thread_reference_key.as_str(),
                    Record::Reference(
                        make_reference(
                            thread_reference_id.as_str(),
                            message_id.as_str(),
                            body_key.as_str(),
                            thread_id.as_str(),
                            "thread",
                            created_at,
                        ),
                    ),
                    true,
                    "thread-reference",
                ),
            );
            reference_keys.push(thread_reference_key);
            proof {
                assert(message_write_ok(ns, c, op, pt, 4 + n, writes@[4 + n as int]));
                assert forall|k: int| 0 <= k < writes@.len() implies message_write_ok(ns, c, op, pt, k,
                    #[trigger] writes@[k],
                ) by {
                    if k < 4 + n {
                        assert(writes@[k] == before2[k]);
                    }
                }
                assert(strings(reference_keys@) =~= strings(keys_before).push(
                    thread_reference_key@,
                ));
                assert(strings(reference_keys@) =~= message_reference_keys(ns, c, op, pt));
            }
        } else {
            proof {
                assert(strings(reference_keys@) =~= message_reference_keys(ns, c, op, pt));
            }
        }
        let result = SendMessageResult {
            operation_id: operation.id.clone(),
            message_id,
            message_object_key: body_key,
            message_lookup_key: lookup_key,
            thread_id,
            reference_keys,
        };
        WritePlan { writes, outcome: Ok(result) }
    }
}

// ---------------------------------------------------------------------
// Laws.
// ---------------------------------------------------------------------

/// The current read marker is the later one: a new marker replaces the stored
/// one exactly when it was read no earlier, so the marker kept is never older
/// than the one it meets.
pub proof fn lemma_current_marker_is_latest(existing: Option<State>, marker: State)
    ensures
        replaces_current(existing, marker) ==> (existing matches Some(e) ==> not_after(
            e.read_at,
            marker.read_at,
        )),
        !replaces_current(existing, marker) ==> (existing matches Some(e) && not_after(
            marker.read_at,
            e.read_at,
        ) && marker.read_at != e.read_at),
{
}

/// A completed operation answers its retries: a retry by the same caller
/// under the same idempotency key claims the very key the completion was
/// written to, and the record it finds there is complete and holds the result.
pub proof fn lemma_completion_answers_retry(
    ns: Seq<char>,
    caller_id: Seq<char>,
    idempotency_key: Seq<char>,
    completed: OperationRecord,
    completion_keys: Seq<Seq<char>>,
    result_json: Seq<char>,
    retry_claim_key: Seq<char>,
)
    requires
        !blank(idempotency_key),
        // what `completion` gives under `caller_id` and `idempotency_key`
        completed.status@ == "completed"@,
        completed.result matches Some(j) && j@ == result_json,
        completion_keys.len() == 2,
        completion_keys[1] == operation_id_key(ns, idempotency_key, caller_id),
        // what `begin_action` claims for the retry
        retry_claim_key == operation_id_key(ns, idempotency_key, caller_id),
    ensures
        retry_claim_key == completion_keys[1],
        is_completed(completed),
        completed.result matches Some(j) && j@ == result_json,
{
}

/// An idempotency key protects one request: a later send by the same caller
/// under the same key resumes the recorded operation only when its request
/// fingerprint is the recorded one (the same request gives the same one), and
/// is refused with `IdempotencyConflict` when it differs, before anything of
/// the later request is written.
pub proof fn lemma_reused_key_needs_the_same_request(
    recorded: OperationRecord,
    first: SendMessageCommand,
    later: SendMessageCommand,
    outcome: Result<(OperationRecord, bool), ServiceError>,
)
    requires
        // what `new_operation` recorded for the first request
        recorded.request_hash@ == fingerprint_of(message_request_text(first)),
        // what `resume_operation` answers the later request
        recorded.request_hash@ == fingerprint_of(message_request_text(later)) ==> (outcome matches Ok(
            found,
        ) && found.0 == recorded && found.1 == is_completed(recorded)),
        recorded.request_hash@ != fingerprint_of(message_request_text(later)) ==> outcome == Err::<
            (OperationRecord, bool),
            ServiceError,
        >(ServiceError::IdempotencyConflict),
    ensures
        message_request_text(later) == message_request_text(first) ==> (outcome matches Ok(found)
            && found.0 == recorded && found.1 == is_completed(recorded)),
        fingerprint_of(message_request_text(later)) != fingerprint_of(message_request_text(first))
            ==> outcome == Err::<(OperationRecord, bool), ServiceError>(
            ServiceError::IdempotencyConflict,
        ),
{
}

/// A message read by the id its send reported finds the lookup the send wrote,
/// and that lookup names the body the send wrote.
pub proof fn lemma_message_read_finds_body(
    svc: Service,
    c: SendMessageCommand,
    op: OperationRecord,
    pt: Option<String>,
    body: PlannedWrite,
    lookup: PlannedWrite,
    target: Result<ObjectTarget, ServiceError>,
)
    requires
        message_stop(c, op.entity_ids, pt) is None,
        // the first two writes of `send_message_plan`
        message_write_ok(svc.keys()@, c, op, pt, 0, body),
        message_write_ok(svc.keys()@, c, op, pt, 1, lookup),
        // what `message_target` answers for the message id
        target_is(
            target,
            op.entity_ids.id_of("messageId"@).unwrap(),
            "messages"@,
            message_lookup_key(svc.keys()@, trim_ws(op.entity_ids.id_of("messageId"@).unwrap())),
            "message id or key is required"@,
        ),
        // an id that is its own trimmed form and does not look like a key
        trim_ws(op.entity_ids.id_of("messageId"@).unwrap()) == op.entity_ids.id_of(
            "messageId"@,
        ).unwrap(),
        op.entity_ids.id_of("messageId"@).unwrap().len() > 0,
        !names_key(op.entity_ids.id_of("messageId"@).unwrap(), "messages"@),
    ensures
        target matches Ok(ObjectTarget::ViaLookup(k)) && k@ == lookup.object_key@,
        lookup.record matches Record::Lookup(l) && l.object_key@ == body.object_key@,
        body.record matches Record::Message(m) && m.id@ == op.entity_ids.id_of("messageId"@).unwrap(),
{
}

/// A broadcast read by the id its send reported finds the lookup the send
/// wrote, and that lookup names the broadcast's body.
pub proof fn lemma_broadcast_read_finds_body(
    svc: Service,
    c: SendBroadcastCommand,
    op: OperationRecord,
    plan_writes: Seq<PlannedWrite>,
    target: Result<ObjectTarget, ServiceError>,
)
    requires
        op.entity_ids.id_of("broadcastId"@) matches Some(id) && {
            &&& plan_writes.len() >= 2
            &&& write_is(plan_writes[0], broadcast_body_key(svc.keys()@, id, op.created_at), "broadcast-body"@, true)
            &&& write_is(plan_writes[1], broadcast_lookup_key(svc.keys()@, id), "broadcast-lookup"@, true)
            &&& plan_writes[1].record matches Record::Lookup(l) && lookup_is(
                l,
                "broadcast"@,
                id,
                broadcast_body_key(svc.keys()@, id, op.created_at),
                op.created_at,
            )
            &&& target_is(
                target,
                id,
                "broadcast"@,
                broadcast_lookup_key(svc.keys()@, trim_ws(id)),
                "broadcast id or key is required"@,
            )
            &&& trim_ws(id) == id && id.len() > 0 && !names_key(id, "broadcast"@)
        },
    ensures
        target matches Ok(ObjectTarget::ViaLookup(k)) && k@ == plan_writes[1].object_key@,
        plan_writes[1].record matches Record::Lookup(l) && l.object_key@ == plan_writes[0].object_key@,
{
}

/// An attachment read by the id its creation reported finds the lookup the
/// creation wrote, and that lookup names the metadata it wrote.
pub proof fn lemma_attachment_read_finds_metadata(
    svc: Service,
    c: CreateAttachmentCommand,
    op: OperationRecord,
    plan_writes: Seq<PlannedWrite>,
    target: Result<ObjectTarget, ServiceError>,
)
    requires
        op.entity_ids.id_of("attachmentId"@) matches Some(id) && {
            &&& plan_writes.len() == 2
            &&& write_is(plan_writes[0], attachment_metadata_key(svc.keys()@, id, op.created_at), "attachment-metadata"@, true)
            &&& write_is(plan_writes[1], attachment_lookup_key(svc.keys()@, id), "attachment-lookup"@, true)
            &&& plan_writes[1].record matches Record::Lookup(l) && lookup_is(
                l,
                "attachment"@,
                id,
                attachment_metadata_key(svc.keys()@, id, op.created_at),
                op.created_at,
            )
            &&& target_is(
                target,
                id,
                "attachments"@,
                attachment_lookup_key(svc.keys()@, trim_ws(id)),
                "attachment id or key is required"@,
            )
            &&& trim_ws(id) == id && id.len() > 0 && !names_key(id, "attachments"@)
        },
    ensures
        target matches Ok(ObjectTarget::ViaLookup(k)) && k@ == plan_writes[1].object_key@,
        plan_writes[1].record matches Record::Lookup(l) && l.object_key@ == plan_writes[0].object_key@,
{
}

/// Messages are immutable: every write of sending a message is create-only,
/// and the message body is the only message record it writes; the rest are a
/// lookup, references and the thread.
pub proof fn lemma_send_never_overwrites(
    ns: Seq<char>,
    c: SendMessageCommand,
    op: OperationRecord,
    pt: Option<String>,
    writes: Seq<PlannedWrite>,
)
    requires
        forall|k: int| 0 <= k < writes.len() ==> message_write_ok(ns, c, op, pt, k, #[trigger] writes[k]),
    ensures
        forall|k: int| 0 <= k < writes.len() ==> (#[trigger] writes[k]).create_only,
        forall|k: int|
            0 <= k < writes.len() ==> ((#[trigger] writes[k]).record is Message <==> k == 0),
{
    assert forall|k: int| 0 <= k < writes.len() implies ((#[trigger] writes[k]).record is Message
        <==> k == 0) by {
        assert(message_write_ok(ns, c, op, pt, k, writes[k]));
    }
}

/// Every reference a send writes is found by the listing of its owner's folder
/// for the minute the message was created: the sender's sent folder, each
/// recipient's inbox, and the thread.
pub proof fn lemma_sent_message_filed_in_its_minute(
    ns: Seq<char>,
    c: SendMessageCommand,
    op: OperationRecord,
    pt: Option<String>,
    window: UtcTime,
)
    requires
        window.secs() / 60 == op.created_at.secs() / 60,
    ensures
        is_prefix(
            mailbox_prefix_key(ns, c.sender_actor_id@, "sent"@, window),
            message_write_key(ns, c, op, pt, 2),
        ),
        forall|i: int|
            0 <= i < c.recipient_actor_ids@.len() ==> is_prefix(
                mailbox_prefix_key(ns, c.recipient_actor_ids@[i]@, "inbox"@, window),
                #[trigger] message_write_key(ns, c, op, pt, 3 + i),
            ),
        message_thread_spec(c, op.entity_ids, pt).len() > 0 ==> is_prefix(
            thread_prefix_key(ns, message_thread_spec(c, op.entity_ids, pt), window),
            message_write_key(ns, c, op, pt, 4 + c.recipient_actor_ids@.len() as int),
        ),
{
    let ids = op.entity_ids;
    let m = ids.id_of("messageId"@).unwrap();
    let t = op.created_at;
    let n = c.recipient_actor_ids@.len();
    lemma_mailbox_reference_in_window(
        ns,
        c.sender_actor_id@,
        "sent"@,
        t,
        window,
        m,
        ids.id_of("sentRefId"@).unwrap(),
    );
    assert forall|i: int|
        0 <= i < c.recipient_actor_ids@.len() implies is_prefix(
        mailbox_prefix_key(ns, c.recipient_actor_ids@[i]@, "inbox"@, window),
        #[trigger] message_write_key(ns, c, op, pt, 3 + i),
    ) by {
        lemma_mailbox_reference_in_window(
            ns,
            c.recipient_actor_ids@[i]@,
            "inbox"@,
            t,
            window,
            m,
            ids.id_of(inbox_ref_name(i as nat)).unwrap(),
        );
    }
    lemma_thread_reference_in_window(
        ns,
        message_thread_spec(c, ids, pt),
        t,
        window,
        m,
        ids.id_of("threadRefId"@).unwrap(),
    );
}


/// The thread a message goes to is decided by the request alone: a thread it
/// names is used as named; a reply whose parent is in a thread joins that
/// thread; any other reply, and a message that asks for a thread, gets the
/// new thread id; any other message is in no thread.
pub proof fn lemma_message_thread_choice(c: SendMessageCommand, ids: EntityIds, pt: Option<String>)
    ensures
        c.thread_id@.len() > 0 ==> message_thread_spec(c, ids, pt) == c.thread_id@,
        c.thread_id@.len() == 0 && c.parent_message_id@.len() > 0 && pt.is_some()
            && pt.unwrap()@.len() > 0 ==> message_thread_spec(c, ids, pt) == pt.unwrap()@,
        c.thread_id@.len() == 0 && (c.parent_message_id@.len() > 0 || c.create_thread) && !(
        c.parent_message_id@.len() > 0 && pt.is_some() && pt.unwrap()@.len() > 0) && ids.id_of(
            "threadId"@,
        ).is_some() ==> message_thread_spec(c, ids, pt) == ids.id_of("threadId"@).unwrap(),
        c.thread_id@.len() == 0 && c.parent_message_id@.len() == 0 && !c.create_thread
            ==> message_thread_spec(c, ids, pt).len() == 0,
{
}

/// The body a send writes keeps the request: its sender, recipients, type,
/// payload (an empty JSON object when none was given), attachments and parent,
/// under the message id at the operation's time, and, for a message sent into
/// a thread it names, that thread.
pub proof fn lemma_message_body_follows_the_request(
    ns: Seq<char>,
    c: SendMessageCommand,
    op: OperationRecord,
    pt: Option<String>,
    body: PlannedWrite,
)
    requires
        message_write_ok(ns, c, op, pt, 0, body),
    ensures
        body.create_only,
        body.object_key@ == message_body_key(
            ns,
            op.entity_ids.id_of("messageId"@).unwrap(),
            op.created_at,
        ),
        body.record matches Record::Message(msg) && {
            &&& msg.id@ == op.entity_ids.id_of("messageId"@).unwrap()
            &&& msg.sender_actor_id@ == c.sender_actor_id@
            &&& msg.recipient_actor_ids@.len() == c.recipient_actor_ids@.len()
            &&& forall|i: int|
                0 <= i < c.recipient_actor_ids@.len() ==> (#[trigger] msg.recipient_actor_ids@[i])@
                    == c.recipient_actor_ids@[i]@
            &&& msg.message_type@ == c.message_type@
            &&& (c.payload matches Some(p) ==> msg.payload@ == p@)
            &&& (c.payload is None ==> msg.payload@ == "{}"@)
            &&& msg.attachment_ids@.len() == c.attachment_ids@.len()
            &&& msg.parent_message_id@ == c.parent_message_id@
            &&& msg.created_at == op.created_at
            &&& (c.thread_id@.len() > 0 ==> msg.thread_id@ == c.thread_id@)
        },
{
    reveal_strlit("{}");
    if let Record::Message(msg) = body.record {
        assert(strings(msg.recipient_actor_ids@).len() == strings(c.recipient_actor_ids@).len());
        assert forall|i: int|
            0 <= i < c.recipient_actor_ids@.len() implies (#[trigger] msg.recipient_actor_ids@[i])@
                == c.recipient_actor_ids@[i]@ by {
            assert(strings(msg.recipient_actor_ids@)[i] == strings(c.recipient_actor_ids@)[i]);
        }
        assert(strings(msg.attachment_ids@).len() == strings(c.attachment_ids@).len());
    }
}

/// The sender's reference a send writes is a `sent` reference of the sender,
/// filed in the sender's `sent` folder, pointing at the body.
pub proof fn lemma_message_sent_reference(
    ns: Seq<char>,
    c: SendMessageCommand,
    op: OperationRecord,
    pt: Option<String>,
    w: PlannedWrite,
)
    requires
        message_write_ok(ns, c, op, pt, 2, w),
    ensures
        w.create_only,
        w.object_key@ == mailbox_reference_key(
            ns,
            c.sender_actor_id@,
            "sent"@,
            op.created_at,
            op.entity_ids.id_of("messageId"@).unwrap(),
            op.entity_ids.id_of("sentRefId"@).unwrap(),
        ),
        w.record matches Record::Reference(r) && r.owner_id@ == c.sender_actor_id@
            && r.reference_kind@ == "sent"@ && r.message_id@ == op.entity_ids.id_of(
            "messageId"@,
        ).unwrap() && r.message_object_key@ == message_body_key(
            ns,
            op.entity_ids.id_of("messageId"@).unwrap(),
            op.created_at,
        ),
{
}

/// The reference a send writes for recipient `i` is an `inbox` reference of
/// that recipient, filed in the recipient's `inbox` folder, pointing at the body.
pub proof fn lemma_message_inbox_reference(
    ns: Seq<char>,
    c: SendMessageCommand,
    op: OperationRecord,
    pt: Option<String>,
    i: int,
    w: PlannedWrite,
)
    requires
        0 <= i < c.recipient_actor_ids@.len(),
        message_write_ok(ns, c, op, pt, 3 + i, w),
    ensures
        w.create_only,
        w.object_key@ == mailbox_reference_key(
            ns,
            c.recipient_actor_ids@[i]@,
            "inbox"@,
            op.created_at,
            op.entity_ids.id_of("messageId"@).unwrap(),
            op.entity_ids.id_of(inbox_ref_name(i as nat)).unwrap(),
        ),
        w.record matches Record::Reference(r) && r.owner_id@ == c.recipient_actor_ids@[i]@
            && r.reference_kind@ == "inbox"@ && r.message_id@ == op.entity_ids.id_of(
            "messageId"@,
        ).unwrap() && r.message_object_key@ == message_body_key(
            ns,
            op.entity_ids.id_of("messageId"@).unwrap(),
            op.created_at,
        ),
{
}

/// A message sent into a thread it names is filed in that very thread: the
/// send writes five more objects than it has recipients, the last two being
/// the thread's metadata and a `thread` reference in the thread's folder.
/// A message that names no thread, answers none and asks for none writes
/// three more objects than it has recipients, none of them for a thread.
pub proof fn lemma_message_thread_writes(
    ns: Seq<char>,
    c: SendMessageCommand,
    op: OperationRecord,
    pt: Option<String>,
    writes: Seq<PlannedWrite>,
)
    requires
        message_stop(c, op.entity_ids, pt) is None,
        writes.len() == message_write_count(c, op.entity_ids, pt),
        forall|k: int| 0 <= k < writes.len() ==> message_write_ok(ns, c, op, pt, k, #[trigger] writes[k]),
    ensures
        c.thread_id@.len() > 0 ==> ({
            let n = c.recipient_actor_ids@.len() as int;
            let m = op.entity_ids.id_of("messageId"@).unwrap();
            &&& writes.len() == n + 5
            &&& writes[3 + n].object_key@ == thread_metadata_key(ns, c.thread_id@)
            &&& writes[4 + n].object_key@ == thread_reference_key(
                ns,
                c.thread_id@,
                op.created_at,
                m,
                op.entity_ids.id_of("threadRefId"@).unwrap(),
            )
            &&& writes[4 + n].record matches Record::Reference(r) && r.owner_id@ == c.thread_id@
                && r.reference_kind@ == "thread"@ && r.message_id@ == m
        }),
        c.thread_id@.len() == 0 && c.parent_message_id@.len() == 0 && !c.create_thread
            ==> writes.len() == c.recipient_actor_ids@.len() + 3,
{
    let n = c.recipient_actor_ids@.len() as int;
    if c.thread_id@.len() > 0 {
        assert(message_write_ok(ns, c, op, pt, 3 + n, writes[3 + n]));
        assert(message_write_ok(ns, c, op, pt, 4 + n, writes[4 + n]));
    }
}

/// The attachment record kept for a request holds what the request said of
/// the file: its name, content type, size and checksum, with the name's key
/// segment, under the attachment's id and object key, at the operation's time.
pub proof fn lemma_attachment_record_keeps_request(
    m: AttachmentMetadata,
    c: CreateAttachmentCommand,
    id: Seq<char>,
    object_key: Seq<char>,
    t: UtcTime,
)
    requires
        attachment_is(m, c, id, object_key, t),
    ensures
        m.id@ == id,
        m.object_key@ == object_key,
        m.original_file_name@ == c.original_file_name@,
        m.normalized_file_name@ == normalize_file_name_spec(c.original_file_name@),
        m.content_type@ == c.content_type@,
        m.size == c.size,
        m.checksum@ == c.checksum@,
        m.created_at == t,
{
}

/// The read marker kept for a request holds the request's actor, target kind,
/// target id and position; it is a `read` marker, read at the request's
/// instant or, when it gave none, when the request came.
pub proof fn lemma_state_record_keeps_request(
    st: State,
    c: MarkReadCommand,
    id: Seq<char>,
    requested_at: UtcTime,
    t: UtcTime,
)
    requires
        state_is(st, c, id, read_at_spec(c, requested_at), t),
    ensures
        st.id@ == id,
        st.actor_id@ == c.actor_id@,
        st.state_kind@ == "read"@,
        st.target_kind@ == c.target_kind@,
        st.target_id@ == c.target_id@,
        st.read_position@ == c.read_position@,
        c.read_at matches Some(r) ==> st.read_at == r,
        c.read_at is None ==> st.read_at == requested_at,
        st.created_at == t,
{
}

/// The broadcast body kept for a request holds the request's sender, audience
/// type, message type, payload (an empty JSON object when none was given),
/// attachments and expiry; an `all` broadcast has the single audience key
/// `all`, any other has its request keys trimmed, blank ones and repeats
/// dropped.
pub proof fn lemma_broadcast_record_keeps_request(
    b: Broadcast,
    c: SendBroadcastCommand,
    id: Seq<char>,
    t: UtcTime,
)
    requires
        broadcast_is(b, c, id, normalized_audience(c.audience_type@, strings(c.audience_keys@)), t),
    ensures
        b.id@ == id,
        b.sender_actor_id@ == c.sender_actor_id@,
        b.audience_type@ == c.audience_type@,
        b.message_type@ == c.message_type@,
        c.payload matches Some(p) ==> b.payload@ == p@,
        c.payload is None ==> b.payload@ == "{}"@,
        b.attachment_ids@.len() == c.attachment_ids@.len(),
        b.created_at == t,
        b.expires_at == c.expires_at,
        c.audience_type@ == "all"@ ==> b.audience_keys@.len() == 1 && b.audience_keys@[0]@ == "all"@,
        c.audience_type@ != "all"@ ==> strings(b.audience_keys@) == audience_keys_spec(
            strings(c.audience_keys@),
        ),
{
    reveal_strlit("{}");
    assert(strings(b.attachment_ids@).len() == strings(c.attachment_ids@).len());
    if c.audience_type@ == "all"@ {
        assert(normalized_audience(c.audience_type@, strings(c.audience_keys@)) == seq!["all"@]);
        assert(strings(b.audience_keys@).len() == b.audience_keys@.len());
        assert(strings(b.audience_keys@)[0] == b.audience_keys@[0]@);
    }
}

/// Each audience entry a broadcast writes is filed under the request's
/// audience type and that audience key, at the operation's time, under the
/// broadcast's id; for an `all` broadcast the one key is `all`.
pub proof fn lemma_broadcast_audience_entry(
    ns: Seq<char>,
    c: SendBroadcastCommand,
    t: UtcTime,
    id: Seq<char>,
    k: int,
    w: PlannedWrite,
)
    requires
        0 <= k < normalized_audience(c.audience_type@, strings(c.audience_keys@)).len(),
        write_is(
            w,
            audience_object_key_at(
                ns,
                c,
                normalized_audience(c.audience_type@, strings(c.audience_keys@)),
                t,
                id,
                k,
            ),
            "broadcast-audience-"@ + normalized_audience(
                c.audience_type@,
                strings(c.audience_keys@),
            )[k],
            true,
        ),
    ensures
        w.create_only,
        c.audience_type@ == "all"@ ==> k == 0 && w.object_key@ == broadcast_audience_key(
            ns,
            "all"@,
            "all"@,
            t,
            id,
        ),
        c.audience_type@ != "all"@ ==> w.object_key@ == broadcast_audience_key(
            ns,
            c.audience_type@,
            audience_keys_spec(strings(c.audience_keys@))[k],
            t,
            id,
        ),
{
}

} // verus!
