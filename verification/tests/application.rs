use s3_message_service::application::{
    caller_or_default, normalize_audience_keys, normalized_payload, required_entity_id,
    validate_create_attachment, validate_mark_read, validate_send_broadcast,
    validate_send_message, CreateAttachmentCommand, MarkReadCommand, ObjectTarget,
    SendBroadcastCommand, SendMessageCommand, Service, ServiceOptions,
};
use s3_message_service::domain::EntityIds;
use s3_message_service::error::ServiceError;
use s3_message_service::ids::{is_safe_identifier, IdGenerator};
use s3_message_service::keys::KeyBuilder;

fn strings(items: &[&str]) -> Vec<String> {
    items.iter().map(|s| s.to_string()).collect()
}

fn validation(message: &str) -> Result<(), ServiceError> {
    Err(ServiceError::Validation(message.to_string()))
}

fn service(namespace: &str, max_page_size: usize, read_lookback_minutes: usize) -> Service {
    Service::new(ServiceOptions {
        key_builder: KeyBuilder::new(namespace),
        id_generator: IdGenerator::new(),
        max_page_size,
        read_lookback_minutes,
    })
}

fn valid_message() -> SendMessageCommand {
    SendMessageCommand {
        sender_actor_id: "actor-a".to_string(),
        recipient_actor_ids: strings(&["actor-b"]),
        message_type: "text".to_string(),
        ..Default::default()
    }
}

#[test]
fn send_message_validation_in_order() {
    assert_eq!(validate_send_message(&valid_message()), Ok(()));
    let mut c = valid_message();
    c.sender_actor_id = "  ".to_string();
    c.recipient_actor_ids.clear();
    assert_eq!(validate_send_message(&c), validation("senderActorId is required"));
    let mut c = valid_message();
    c.recipient_actor_ids.clear();
    assert_eq!(
        validate_send_message(&c),
        validation("recipientActorIds must contain at least one actor")
    );
    let mut c = valid_message();
    c.recipient_actor_ids.push(" ".to_string());
    assert_eq!(
        validate_send_message(&c),
        validation("recipientActorIds cannot contain empty actor ids")
    );
    let mut c = valid_message();
    c.message_type = String::new();
    assert_eq!(validate_send_message(&c), validation("messageType is required"));
}

#[test]
fn send_broadcast_validation_in_order() {
    let valid = SendBroadcastCommand {
        sender_actor_id: "system".to_string(),
        audience_type: "all".to_string(),
        message_type: "text".to_string(),
        ..Default::default()
    };
    assert_eq!(validate_send_broadcast(&valid), Ok(()));
    let mut c = valid.clone();
    c.sender_actor_id = String::new();
    assert_eq!(validate_send_broadcast(&c), validation("senderActorId is required"));
    let mut c = valid.clone();
    c.audience_type = "everyone".to_string();
    assert_eq!(
        validate_send_broadcast(&c),
        validation("audienceType must be all, tag, or explicit")
    );
    let mut c = valid.clone();
    c.audience_type = "tag".to_string();
    assert_eq!(
        validate_send_broadcast(&c),
        validation("audienceKeys are required for tag and explicit broadcasts")
    );
    let mut c = valid;
    c.message_type = " ".to_string();
    assert_eq!(validate_send_broadcast(&c), validation("messageType is required"));
}

#[test]
fn mark_read_validation_in_order() {
    let valid = MarkReadCommand {
        actor_id: "actor-b".to_string(),
        target_kind: "threads".to_string(),
        target_id: "t1".to_string(),
        ..Default::default()
    };
    assert_eq!(validate_mark_read(&valid), Ok(()));
    let mut c = valid.clone();
    c.actor_id = String::new();
    assert_eq!(validate_mark_read(&c), validation("actorId is required"));
    let mut c = valid.clone();
    c.target_kind = "message".to_string();
    assert_eq!(
        validate_mark_read(&c),
        validation("targetKind must be messages or threads")
    );
    let mut c = valid;
    c.target_id = "\t".to_string();
    assert_eq!(validate_mark_read(&c), validation("targetId is required"));
}

#[test]
fn create_attachment_validation_in_order() {
    let valid = CreateAttachmentCommand {
        original_file_name: "Report Final.pdf".to_string(),
        content_type: "application/pdf".to_string(),
        size: 1234,
        ..Default::default()
    };
    assert_eq!(validate_create_attachment(&valid), Ok(()));
    let mut c = valid.clone();
    c.original_file_name = String::new();
    assert_eq!(
        validate_create_attachment(&c),
        validation("originalFileName is required")
    );
    let mut c = valid.clone();
    c.content_type = String::new();
    assert_eq!(validate_create_attachment(&c), validation("contentType is required"));
    let mut c = valid;
    c.size = -1;
    assert_eq!(validate_create_attachment(&c), validation("size cannot be negative"));
}

#[test]
fn callers_default_and_trim() {
    assert_eq!(caller_or_default("  tests "), "tests");
    assert_eq!(caller_or_default("   "), "default");
    assert_eq!(caller_or_default(""), "default");
}

#[test]
fn payloads_default_to_an_empty_object() {
    assert_eq!(normalized_payload(&None), "{}");
    assert_eq!(normalized_payload(&Some("[1]".to_string())), "[1]");
}

#[test]
fn audience_keys_are_trimmed_deduplicated_and_ordered() {
    assert_eq!(normalize_audience_keys("all", &strings(&["x"])), strings(&["all"]));
    assert_eq!(
        normalize_audience_keys("tag", &strings(&[" beta", "alpha", "", "beta ", "  ", "alpha", "gamma"])),
        strings(&["beta", "alpha", "gamma"])
    );
    assert!(normalize_audience_keys("explicit", &[]).is_empty());
}

#[test]
fn missing_entity_ids_are_storage_errors() {
    let mut ids = EntityIds::new();
    ids.insert("messageId".to_string(), "m1".to_string());
    ids.insert("messageId".to_string(), "m2".to_string());
    assert_eq!(required_entity_id(&ids, "messageId"), Ok("m2".to_string()));
    assert_eq!(
        required_entity_id(&ids, "threadId"),
        Err(ServiceError::Storage("operation is missing entity id threadId".to_string()))
    );
}

#[test]
fn message_entity_ids_cover_what_the_send_writes() {
    let svc = service("", 50, 120);
    let mut c = valid_message();
    c.recipient_actor_ids = strings(&["b", "c"]);
    let ids = svc.message_entity_ids(&c).expect("ids");
    for name in ["messageId", "sentRefId", "inboxRefId:0", "inboxRefId:1"] {
        let id = ids.get(name).expect(name);
        assert!(is_safe_identifier(&id));
    }
    assert!(ids.get("inboxRefId:2").is_none());
    assert!(ids.get("threadId").is_none());
    assert!(ids.get("threadRefId").is_none());

    c.create_thread = true;
    let ids = svc.message_entity_ids(&c).expect("ids");
    assert!(ids.get("threadId").is_some());
    assert!(ids.get("threadRefId").is_some());

    c.create_thread = false;
    c.thread_id = "t1".to_string();
    let ids = svc.message_entity_ids(&c).expect("ids");
    assert!(ids.get("threadId").is_none());
    assert!(ids.get("threadRefId").is_some());

    c.thread_id = String::new();
    c.parent_message_id = "m0".to_string();
    c.create_thread = true;
    let ids = svc.message_entity_ids(&c).expect("ids");
    assert!(ids.get("threadId").is_some());
    assert!(ids.get("threadRefId").is_some());

    c.create_thread = false;
    let ids = svc.message_entity_ids(&c).expect("ids");
    assert!(ids.get("threadId").is_some());
    assert!(ids.get("threadRefId").is_some());
}

#[test]
fn replies_look_up_their_parent() {
    let svc = service("", 50, 120);
    let mut c = valid_message();
    c.parent_message_id = " m0 ".to_string();
    match svc.parent_target(&c) {
        Some(ObjectTarget::ViaLookup(k)) => assert_eq!(k, "messages/by-id/m0.json"),
        other => panic!("unexpected {other:?}"),
    }
    c.thread_id = "t1".to_string();
    assert!(svc.parent_target(&c).is_none());
    c.thread_id = String::new();
    c.parent_message_id = "  ".to_string();
    assert!(svc.parent_target(&c).is_none());
    c.parent_message_id = String::new();
    assert!(svc.parent_target(&c).is_none());
}

#[test]
fn thread_listings_read_the_actors_marker_only() {
    let svc = service("", 50, 120);
    assert_eq!(
        svc.thread_state_key("t1", "actor-b"),
        Some("states/actor-b/current/threads/t1.json".to_string())
    );
    assert_eq!(svc.thread_state_key("t1", ""), None);
}

#[test]
fn service_limits_default_and_cap() {
    let svc = service("", 0, 0);
    assert_eq!(svc.max_page_size(), 100);
    assert_eq!(svc.read_lookback_minutes(), 43_200);
    let svc = service("", 50, 120);
    assert_eq!(svc.normalize_limit(0), 50);
    assert_eq!(svc.normalize_limit(10), 10);
    assert_eq!(svc.normalize_limit(500), 50);
}

#[test]
fn reads_by_id_go_through_the_lookup() {
    let svc = service("dev", 50, 120);
    match svc.message_target(" m1 ") {
        Ok(ObjectTarget::ViaLookup(k)) => assert_eq!(k, "dev/messages/by-id/m1.json"),
        other => panic!("unexpected {other:?}"),
    }
    match svc.message_target("dev/messages/year=2026/m1.json") {
        Ok(ObjectTarget::Direct(k)) => assert_eq!(k, "dev/messages/year=2026/m1.json"),
        other => panic!("unexpected {other:?}"),
    }
    match svc.message_target("messages/x.json") {
        Ok(ObjectTarget::Direct(k)) => assert_eq!(k, "messages/x.json"),
        other => panic!("unexpected {other:?}"),
    }
    assert_eq!(
        svc.message_target("  ").unwrap_err(),
        ServiceError::Validation("message id or key is required".to_string())
    );
    match svc.broadcast_target("b1") {
        Ok(ObjectTarget::ViaLookup(k)) => assert_eq!(k, "dev/broadcast/by-id/b1.json"),
        other => panic!("unexpected {other:?}"),
    }
    match svc.attachment_target("attachments/metadata/a.json") {
        Ok(ObjectTarget::Direct(k)) => assert_eq!(k, "attachments/metadata/a.json"),
        other => panic!("unexpected {other:?}"),
    }
    assert_eq!(
        svc.attachment_target("").unwrap_err(),
        ServiceError::Validation("attachment id or key is required".to_string())
    );
    assert_eq!(
        svc.broadcast_target("").unwrap_err(),
        ServiceError::Validation("broadcast id or key is required".to_string())
    );
}

#[test]
fn single_entity_operations_get_one_fresh_id() {
    let svc = service("", 50, 120);
    let ids = svc.fresh_entity_ids("broadcastId").expect("ids");
    assert!(is_safe_identifier(&ids.get("broadcastId").expect("id")));
    assert!(ids.get("messageId").is_none());
    assert_eq!(ids.entries().len(), 1);
}
