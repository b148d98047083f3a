use s3_message_service::application::{
    CreateAttachmentCommand, MarkReadCommand, SendBroadcastCommand, SendMessageCommand, Service,
    ServiceOptions,
};
use s3_message_service::domain::{EntityIds, OperationRecord, State};
use s3_message_service::error::ServiceError;
use s3_message_service::fingerprint::send_message_fingerprint;
use s3_message_service::ids::IdGenerator;
use s3_message_service::keys::{feed_sort_key, thread_sort_key, KeyBuilder};
use s3_message_service::storage::StoreCapabilities;
use s3_message_service::time::UtcTime;
use s3_message_service::workflow::{
    completed_result, create_only_outcome, current_state_write, found_or_none, needs_create_lock,
    resume_operation, BeginAction, ClaimOutcome, Record,
};

// 2026-06-01T11:22:33Z
const NOW: i64 = 1_780_312_953;
const MINUTE: &str = "year=2026/month=06/day=01/hour=11/minute=22";

fn at(seconds: i64) -> UtcTime {
    UtcTime::from_timestamp(seconds, 0).expect("instant")
}

fn service() -> Service {
    Service::new(ServiceOptions {
        key_builder: KeyBuilder::new(""),
        id_generator: IdGenerator::new(),
        max_page_size: 50,
        read_lookback_minutes: 120,
    })
}

fn ids(entries: &[(&str, &str)]) -> EntityIds {
    let mut ids = EntityIds::new();
    for (name, id) in entries {
        ids.insert(name.to_string(), id.to_string());
    }
    ids
}

fn operation(svc: &Service, entity_ids: EntityIds) -> OperationRecord {
    svc.new_operation("tests", "send-1", "send-message", "h1", entity_ids, at(NOW))
        .expect("operation")
}

fn message_command() -> SendMessageCommand {
    SendMessageCommand {
        caller_id: "tests".to_string(),
        idempotency_key: "send-1".to_string(),
        sender_actor_id: "actor-a".to_string(),
        recipient_actor_ids: vec!["actor-b".to_string(), "actor-c".to_string()],
        message_type: "text".to_string(),
        payload: Some(r#"{"text":"hello"}"#.to_string()),
        create_thread: true,
        ..Default::default()
    }
}

#[test]
fn new_operations_are_pending() {
    let svc = service();
    let op = operation(&svc, EntityIds::new());
    assert_eq!(op.status, "pending");
    assert_eq!(op.operation_kind, "send-message");
    assert_eq!(op.request_hash, "h1");
    assert_eq!(op.caller_id, "tests");
    assert_eq!(op.idempotency_key, "send-1");
    assert_eq!(op.id.len(), 36);
    assert_eq!(op.created_at, at(NOW));
    assert_eq!(op.updated_at, at(NOW));
    assert!(op.result.is_none());
}

#[test]
fn send_message_writes_body_lookup_and_references_in_order() {
    let svc = service();
    let op = operation(
        &svc,
        ids(&[
            ("messageId", "m1"),
            ("sentRefId", "s1"),
            ("inboxRefId:0", "i0"),
            ("inboxRefId:1", "i1"),
            ("threadId", "t1"),
            ("threadRefId", "tr1"),
        ]),
    );
    let plan = svc.send_message_plan(&message_command(), &op, &None);
    let sort = feed_sort_key(at(NOW));
    let stamp = "20260601T112233.000000000Z";
    let expected = vec![
        (format!("messages/{MINUTE}/m1.json"), "message-body"),
        ("messages/by-id/m1.json".to_string(), "message-lookup"),
        (format!("mailboxes/actor-a/sent/{MINUTE}/{sort}_{stamp}_m1_s1.json"), "sent-reference"),
        (format!("mailboxes/actor-b/inbox/{MINUTE}/{sort}_{stamp}_m1_i0.json"), "inbox-reference-0"),
        (format!("mailboxes/actor-c/inbox/{MINUTE}/{sort}_{stamp}_m1_i1.json"), "inbox-reference-1"),
        ("threads/t1/metadata.json".to_string(), "thread-metadata"),
        (
            format!("threads/t1/messages/{MINUTE}/{}_{stamp}_m1_tr1.json", thread_sort_key(at(NOW))),
            "thread-reference",
        ),
    ];
    let got: Vec<(String, &str)> = plan
        .writes
        .iter()
        .map(|w| (w.object_key.clone(), w.step_id.as_str()))
        .collect();
    assert_eq!(got, expected);
    assert!(plan.writes.iter().all(|w| w.create_only));
    match &plan.writes[0].record {
        Record::Message(m) => {
            assert_eq!(m.id, "m1");
            assert_eq!(m.thread_id, "t1");
            assert_eq!(m.payload, r#"{"text":"hello"}"#);
            assert_eq!(m.recipient_actor_ids, vec!["actor-b", "actor-c"]);
        }
        other => panic!("unexpected {other:?}"),
    }
    match &plan.writes[3].record {
        Record::Reference(r) => {
            assert_eq!(r.owner_id, "actor-b");
            assert_eq!(r.reference_kind, "inbox");
            assert_eq!(r.message_object_key, expected[0].0);
        }
        other => panic!("unexpected {other:?}"),
    }
    let result = plan.outcome.expect("result");
    assert_eq!(result.operation_id, op.id);
    assert_eq!(result.message_id, "m1");
    assert_eq!(result.thread_id, "t1");
    assert_eq!(result.message_lookup_key, "messages/by-id/m1.json");
    assert_eq!(
        result.reference_keys,
        vec![
            expected[2].0.clone(),
            expected[3].0.clone(),
            expected[4].0.clone(),
            expected[6].0.clone()
        ]
    );
}

#[test]
fn send_message_without_thread_writes_no_thread_objects() {
    let svc = service();
    let mut command = message_command();
    command.create_thread = false;
    command.recipient_actor_ids = vec!["actor-b".to_string()];
    command.payload = None;
    let op = operation(&svc, ids(&[("messageId", "m1"), ("sentRefId", "s1"), ("inboxRefId:0", "i0")]));
    let plan = svc.send_message_plan(&command, &op, &None);
    assert_eq!(plan.writes.len(), 4);
    match &plan.writes[0].record {
        Record::Message(m) => assert_eq!(m.payload, "{}"),
        other => panic!("unexpected {other:?}"),
    }
    let result = plan.outcome.expect("result");
    assert_eq!(result.thread_id, "");
    assert_eq!(result.reference_keys.len(), 2);
}

#[test]
fn send_message_stops_at_the_first_missing_id() {
    let svc = service();
    let plan = svc.send_message_plan(&message_command(), &operation(&svc, EntityIds::new()), &None);
    assert!(plan.writes.is_empty());
    assert_eq!(
        plan.outcome.unwrap_err(),
        ServiceError::Storage("operation is missing entity id messageId".to_string())
    );

    let op = operation(&svc, ids(&[("messageId", "m1"), ("sentRefId", "s1"), ("inboxRefId:0", "i0")]));
    let plan = svc.send_message_plan(&message_command(), &op, &None);
    assert_eq!(plan.writes.len(), 4);
    assert_eq!(
        plan.outcome.unwrap_err(),
        ServiceError::Storage("operation is missing entity id inboxRefId:1".to_string())
    );

    let op = operation(
        &svc,
        ids(&[
            ("messageId", "m1"),
            ("sentRefId", "s1"),
            ("inboxRefId:0", "i0"),
            ("inboxRefId:1", "i1"),
            ("threadId", "t1"),
        ]),
    );
    let plan = svc.send_message_plan(&message_command(), &op, &None);
    assert_eq!(plan.writes.len(), 6);
    assert_eq!(plan.writes[5].step_id, "thread-metadata");
    assert_eq!(
        plan.outcome.unwrap_err(),
        ServiceError::Storage("operation is missing entity id threadRefId".to_string())
    );
}

#[test]
fn broadcast_files_one_lookup_per_audience_key() {
    let svc = service();
    let command = SendBroadcastCommand {
        sender_actor_id: "system".to_string(),
        audience_type: "tag".to_string(),
        audience_keys: vec!["beta".to_string(), " beta ".to_string(), "gamma".to_string()],
        message_type: "text".to_string(),
        ..Default::default()
    };
    let op = operation(&svc, ids(&[("broadcastId", "b1")]));
    let plan = svc.send_broadcast_plan(&command, &op);
    let steps: Vec<&str> = plan.writes.iter().map(|w| w.step_id.as_str()).collect();
    assert_eq!(
        steps,
        vec!["broadcast-body", "broadcast-lookup", "broadcast-audience-beta", "broadcast-audience-gamma"]
    );
    match &plan.writes[0].record {
        Record::Broadcast(b) => assert_eq!(b.audience_keys, vec!["beta", "gamma"]),
        other => panic!("unexpected {other:?}"),
    }
    match &plan.writes[3].record {
        Record::Lookup(l) => {
            assert_eq!(l.entity_kind, "broadcast");
            assert_eq!(l.object_key, format!("broadcast/messages/{MINUTE}/b1.json"));
        }
        other => panic!("unexpected {other:?}"),
    }
    let result = plan.outcome.expect("result");
    assert_eq!(result.broadcast_lookup_key, "broadcast/by-id/b1.json");
    assert_eq!(
        result.audience_object_keys[1],
        format!("broadcast/audiences/tag/gamma/{MINUTE}/{}_b1.json", feed_sort_key(at(NOW)))
    );
    let plan = svc.send_broadcast_plan(&command, &operation(&svc, EntityIds::new()));
    assert!(plan.writes.is_empty());
    assert!(plan.outcome.is_err());
}

#[test]
fn attachment_object_key_defaults_to_the_service_layout() {
    let svc = service();
    let command = CreateAttachmentCommand {
        original_file_name: "Report Final.pdf".to_string(),
        content_type: "application/pdf".to_string(),
        size: 1234,
        checksum: "sha256:test".to_string(),
        ..Default::default()
    };
    let op = operation(&svc, ids(&[("attachmentId", "a1")]));
    let plan = svc.create_attachment_plan(&command, &op);
    match &plan.writes[0].record {
        Record::Attachment(m) => {
            assert_eq!(m.normalized_file_name, "report-final.pdf");
            assert_eq!(m.original_file_name, "Report Final.pdf");
            assert_eq!(m.size, 1234);
        }
        other => panic!("unexpected {other:?}"),
    }
    let result = plan.outcome.expect("result");
    assert_eq!(result.attachment_metadata_key, format!("attachments/metadata/{MINUTE}/a1.json"));
    assert_eq!(result.attachment_lookup_key, "attachments/by-id/a1.json");
    assert_eq!(
        result.attachment_object_key,
        format!("attachments/objects/{MINUTE}/a1/report-final.pdf")
    );

    let mut given = command.clone();
    given.object_key = "  uploads/x.pdf ".to_string();
    let plan = svc.create_attachment_plan(&given, &op);
    assert_eq!(plan.outcome.expect("result").attachment_object_key, "uploads/x.pdf");
}

#[test]
fn read_markers_only_move_forward() {
    let svc = service();
    let command = MarkReadCommand {
        actor_id: "actor-b".to_string(),
        target_kind: "messages".to_string(),
        target_id: "m1".to_string(),
        read_at: Some(at(NOW + 1)),
        ..Default::default()
    };
    let op = operation(&svc, ids(&[("stateId", "s1")]));
    let plan = svc.mark_read_plan(&command, &op, at(NOW)).expect("plan");
    assert_eq!(plan.state.read_at, at(NOW + 1));
    assert_eq!(plan.current_key, "states/actor-b/current/messages/m1.json");
    assert_eq!(plan.event.step_id, "state-event");
    assert!(plan.event.object_key.starts_with(&format!("states/actor-b/events/messages/m1/{MINUTE}/")));

    let older = State { read_at: at(NOW), ..plan.state.clone() };
    let newer = State { read_at: at(NOW + 60), ..plan.state.clone() };

    let (write, result) = current_state_write(svc.mark_read_plan(&command, &op, at(NOW)).unwrap(), &None);
    let write = write.expect("first marker is written");
    assert!(!write.create_only);
    assert_eq!(write.step_id, "state-current");
    assert_eq!(result.state_id, "s1");

    let (write, _) = current_state_write(svc.mark_read_plan(&command, &op, at(NOW)).unwrap(), &Some(older));
    assert!(write.is_some());
    let (write, _) = current_state_write(svc.mark_read_plan(&command, &op, at(NOW)).unwrap(), &Some(newer));
    assert!(write.is_none());

    let mut untimed = command.clone();
    untimed.read_at = None;
    let plan = svc.mark_read_plan(&untimed, &op, at(NOW - 5)).expect("plan");
    assert_eq!(plan.state.read_at, at(NOW - 5));
    assert!(svc.mark_read_plan(&command, &operation(&svc, EntityIds::new()), at(NOW)).is_err());
}

#[test]
fn operations_claim_and_complete() {
    let svc = service();
    let op = operation(&svc, EntityIds::new());
    match svc.begin_action(&op, "tests", "send-1") {
        BeginAction::Claim { claim_key } => {
            assert_eq!(claim_key, "operations/idempotency/tests/send-1.json")
        }
        other => panic!("unexpected {other:?}"),
    }
    match svc.begin_action(&op, "tests", "  ") {
        BeginAction::Start { started_key } => {
            assert_eq!(started_key, format!("operations/by-id/{}/started.json", op.id))
        }
        other => panic!("unexpected {other:?}"),
    }
    assert!(matches!(svc.after_claim(&op, Ok(())), ClaimOutcome::Claimed { .. }));
    assert!(matches!(
        svc.after_claim(&op, Err(ServiceError::ObjectAlreadyExists)),
        ClaimOutcome::Taken
    ));
    assert!(matches!(
        svc.after_claim(&op, Err(ServiceError::Io("down".to_string()))),
        ClaimOutcome::Failed(ServiceError::Io(_))
    ));

    let (done, keys) = svc.completion(op.clone(), "{\"messageId\":\"m1\"}".to_string(), at(NOW + 2), "tests", "send-1");
    assert_eq!(done.status, "completed");
    assert_eq!(done.updated_at, at(NOW + 2));
    assert_eq!(
        keys,
        vec![
            format!("operations/by-id/{}/completed.json", op.id),
            "operations/idempotency/tests/send-1.json".to_string()
        ]
    );
    let (resumed, completed) = resume_operation(done, "h1").expect("same request");
    assert!(completed);
    assert_eq!(completed_result(&resumed), Ok("{\"messageId\":\"m1\"}".to_string()));

    assert_eq!(
        resume_operation(op.clone(), "h2").unwrap_err(),
        ServiceError::IdempotencyConflict
    );
    let (pending, completed) = resume_operation(op.clone(), "h1").expect("same request");
    assert!(!completed);
    assert_eq!(
        completed_result(&pending),
        Err(ServiceError::Storage("completed operation is missing result".to_string()))
    );
    let (_, keys) = svc.completion(op, "{}".to_string(), at(NOW), "tests", "");
    assert_eq!(keys.len(), 1);
}

#[test]
fn store_answers_are_interpreted() {
    assert_eq!(create_only_outcome(Err(ServiceError::ObjectAlreadyExists)), Ok(()));
    assert_eq!(
        create_only_outcome(Err(ServiceError::ObjectNotFound)),
        Err(ServiceError::ObjectNotFound)
    );
    assert_eq!(found_or_none::<u8>(Err(ServiceError::ObjectNotFound)), Ok(None));
    assert_eq!(found_or_none(Ok(3u8)), Ok(Some(3)));
    assert_eq!(
        found_or_none::<u8>(Err(ServiceError::InvalidCursor)),
        Err(ServiceError::InvalidCursor)
    );
    let atomic = StoreCapabilities { create_if_absent_atomic: true };
    let racy = StoreCapabilities { create_if_absent_atomic: false };
    assert!(!needs_create_lock(true, atomic));
    assert!(needs_create_lock(true, racy));
    assert!(!needs_create_lock(false, racy));
}

#[test]
fn steps_are_recorded_per_write() {
    let svc = service();
    let (key, step) = svc.step_write("op1", "message-body", "messages/x.json", at(NOW)).expect("step");
    assert_eq!(key, "operations/by-id/op1/steps/message-body.json");
    assert_eq!(step.object_key, "messages/x.json");
    assert!(svc.step_write("", "message-body", "k", at(NOW)).is_none());
    assert!(svc.step_write("op1", "message-body", "", at(NOW)).is_none());
}

#[test]
fn a_read_by_the_reported_id_finds_the_written_lookup() {
    let svc = service();
    let op = operation(
        &svc,
        ids(&[("messageId", "m1"), ("sentRefId", "s1"), ("inboxRefId:0", "i0"), ("inboxRefId:1", "i1")]),
    );
    let mut command = message_command();
    command.create_thread = false;
    let plan = svc.send_message_plan(&command, &op, &None);
    let result = plan.outcome.as_ref().expect("result");
    match svc.message_target(&result.message_id).expect("target") {
        s3_message_service::application::ObjectTarget::ViaLookup(key) => {
            assert_eq!(key, plan.writes[1].object_key)
        }
        other => panic!("unexpected {other:?}"),
    }
    match &plan.writes[1].record {
        Record::Lookup(l) => assert_eq!(l.object_key, plan.writes[0].object_key),
        other => panic!("unexpected {other:?}"),
    }
}

#[test]
fn a_reply_joins_its_parents_thread() {
    let svc = service();
    let command = SendMessageCommand {
        sender_actor_id: "actor-b".to_string(),
        recipient_actor_ids: vec!["actor-a".to_string()],
        message_type: "text".to_string(),
        parent_message_id: "m0".to_string(),
        ..Default::default()
    };
    let op = operation(
        &svc,
        ids(&[
            ("messageId", "m1"),
            ("sentRefId", "s1"),
            ("inboxRefId:0", "i0"),
            ("threadId", "t9"),
            ("threadRefId", "tr1"),
        ]),
    );
    let plan = svc.send_message_plan(&command, &op, &Some("t0".to_string()));
    assert_eq!(plan.writes.len(), 6);
    assert_eq!(plan.writes[4].object_key, "threads/t0/metadata.json");
    match &plan.writes[0].record {
        Record::Message(m) => {
            assert_eq!(m.thread_id, "t0");
            assert_eq!(m.parent_message_id, "m0");
        }
        other => panic!("unexpected {other:?}"),
    }
    let result = plan.outcome.expect("result");
    assert_eq!(result.thread_id, "t0");
    assert!(result.reference_keys[2].starts_with("threads/t0/messages/"));

}

#[test]
fn a_reply_to_a_message_in_no_thread_starts_one() {
    let svc = service();
    let mut command = SendMessageCommand {
        sender_actor_id: "actor-b".to_string(),
        recipient_actor_ids: vec!["actor-a".to_string()],
        message_type: "text".to_string(),
        parent_message_id: "m0".to_string(),
        ..Default::default()
    };
    let op = operation(
        &svc,
        ids(&[
            ("messageId", "m1"),
            ("sentRefId", "s1"),
            ("inboxRefId:0", "i0"),
            ("threadId", "t9"),
            ("threadRefId", "tr1"),
        ]),
    );
    for parent_thread in [None, Some(String::new())] {
        let plan = svc.send_message_plan(&command, &op, &parent_thread);
        assert_eq!(plan.writes.len(), 6);
        assert_eq!(plan.writes[4].object_key, "threads/t9/metadata.json");
        match &plan.writes[4].record {
            Record::Thread(t) => assert_eq!(t.root_message_id, "m1"),
            other => panic!("unexpected {other:?}"),
        }
        assert_eq!(plan.outcome.expect("result").thread_id, "t9");
    }
    command.create_thread = true;
    let plan = svc.send_message_plan(&command, &op, &None);
    assert_eq!(plan.outcome.expect("result").thread_id, "t9");
}

#[test]
fn request_fingerprints_follow_the_request() {
    let first = message_command();
    let mut changed = message_command();
    changed.payload = Some(r#"{"text":"different payload"}"#.to_string());
    let a = send_message_fingerprint(&first);
    assert_eq!(a, send_message_fingerprint(&first.clone()));
    assert_eq!(a.len(), 64);
    assert_ne!(a, send_message_fingerprint(&changed));
    let mut other_key = message_command();
    other_key.idempotency_key = "send-2".to_string();
    assert_eq!(a, send_message_fingerprint(&other_key));
}
