use s3_message_service::application::{Service, ServiceOptions};
use s3_message_service::cursors::{encode_frame, initial, Cursor, Direction};
use s3_message_service::error::ServiceError;
use s3_message_service::ids::IdGenerator;
use s3_message_service::keys::KeyBuilder;
use s3_message_service::scan::{accept_cursor, cursor_start, CursorStart, ScanScope};
use s3_message_service::storage::{ListPage, ListedObject};
use s3_message_service::time::UtcTime;

// 2026-06-01T11:22:33Z
const NOW: i64 = 1_780_312_953;
const WINDOW: i64 = 1_780_312_920;

fn at(seconds: i64) -> UtcTime {
    UtcTime::from_timestamp(seconds, 0).expect("instant")
}

fn service(lookback: usize) -> Service {
    Service::new(ServiceOptions {
        key_builder: KeyBuilder::new(""),
        id_generator: IdGenerator::new(),
        max_page_size: 50,
        read_lookback_minutes: lookback,
    })
}

fn page(keys: &[&str], has_more: bool) -> ListPage {
    ListPage {
        objects: keys
            .iter()
            .map(|k| ListedObject { key: k.to_string(), size: 1, modified_at: at(NOW) })
            .collect(),
        has_more,
        next_after_key: keys.last().map(|k| k.to_string()).unwrap_or_default(),
    }
}

fn fresh(start: Result<CursorStart, ServiceError>) -> Cursor {
    match start.expect("start") {
        CursorStart::Fresh(c) => c,
        CursorStart::Encoded(_) => panic!("expected a fresh cursor"),
    }
}

#[test]
fn requests_validate_and_normalize() {
    let svc = service(120);
    let request = svc.mailbox_request("actor-b", "inbox", 0).expect("request");
    assert_eq!(request.kind, "mailbox:inbox");
    assert_eq!(request.owner, "actor-b");
    assert_eq!(request.direction, Direction::NewestFirst);
    assert_eq!(request.limit, 50);
    assert!(matches!(request.scope, ScanScope::Mailbox { .. }));
    assert_eq!(
        svc.mailbox_request(" ", "inbox", 2).unwrap_err(),
        ServiceError::Validation("actor id is required".to_string())
    );
    assert_eq!(
        svc.mailbox_request("actor-b", "outbox", 2).unwrap_err(),
        ServiceError::Validation("direction must be inbox or sent".to_string())
    );
    let request = svc.thread_request("t1", 7).expect("request");
    assert_eq!(request.kind, "thread");
    assert_eq!(request.direction, Direction::OldestFirst);
    assert_eq!(request.limit, 7);
    assert_eq!(
        svc.thread_request("", 7).unwrap_err(),
        ServiceError::Validation("thread id is required".to_string())
    );
}

#[test]
fn cursors_must_belong_to_the_request() {
    let svc = service(120);
    let request = svc.mailbox_request("actor-b", "inbox", 2).expect("request");
    let cursor = fresh(cursor_start(&request, "", at(NOW)));
    assert_eq!(cursor.window, at(WINDOW));
    assert_eq!(cursor.page_size, 2);
    assert!(accept_cursor(&request, cursor.clone()).is_ok());

    let other = initial("mailbox:sent", "actor-b", Direction::NewestFirst, at(NOW), 2);
    assert_eq!(accept_cursor(&request, other).unwrap_err(), ServiceError::InvalidCursor);
    let mut empty_page = cursor;
    empty_page.page_size = 0;
    assert_eq!(accept_cursor(&request, empty_page).unwrap_err(), ServiceError::InvalidCursor);

    assert_eq!(cursor_start(&request, "%%%", at(NOW)).unwrap_err(), ServiceError::InvalidCursor);
    match cursor_start(&request, &encode_frame(b"{}"), at(NOW)).expect("start") {
        CursorStart::Encoded(bytes) => assert_eq!(bytes, b"{}".to_vec()),
        CursorStart::Fresh(_) => panic!("expected the encoded cursor"),
    }
}

#[test]
fn listing_walks_minutes_back_until_the_page_is_full() {
    let svc = service(120);
    let keys = KeyBuilder::new("");
    let request = svc.mailbox_request("actor-b", "inbox", 2).expect("request");
    let cursor = fresh(cursor_start(&request, "", at(NOW)));
    let mut scan = svc.start_scan(&request, cursor);

    let first = scan.next_listing(&keys).expect("listing");
    assert_eq!(first.prefix, "mailboxes/actor-b/inbox/year=2026/month=06/day=01/hour=11/minute=22/");
    assert_eq!(first.start_after, "");
    assert_eq!(first.limit, 2);
    assert!(scan.can_move_on());
    assert_eq!(scan.accept_page(&page(&["k1"], false)), 1);

    let second = scan.next_listing(&keys).expect("listing");
    assert_eq!(second.prefix, "mailboxes/actor-b/inbox/year=2026/month=06/day=01/hour=11/minute=21/");
    assert_eq!(second.limit, 1);
    assert_eq!(scan.accept_page(&page(&["k2", "k3"], true)), 1);
    assert!(scan.next_listing(&keys).is_none());

    let next = scan.finish().expect("next cursor");
    assert_eq!(next.window, at(WINDOW - 60));
    assert_eq!(next.last_object_key, "k2");
    assert_eq!(next.page_size, 2);
    assert_eq!(next.kind, "mailbox:inbox");

    let mut resumed = svc.start_scan(&request, next);
    let again = resumed.next_listing(&keys).expect("listing");
    assert_eq!(again.prefix, second.prefix);
    assert_eq!(again.start_after, "k2");
    assert_eq!(again.limit, 2);
}

#[test]
fn a_page_that_ends_a_minute_resumes_at_the_next_one() {
    let svc = service(120);
    let keys = KeyBuilder::new("");
    let request = svc.thread_request("t1", 1).expect("request");
    let cursor = fresh(cursor_start(&request, "", at(NOW)));
    let mut scan = svc.start_scan(&request, cursor);
    assert_eq!(
        scan.next_listing(&keys).expect("listing").prefix,
        "threads/t1/messages/year=2026/month=06/day=01/hour=11/minute=22/"
    );
    assert_eq!(scan.accept_page(&page(&["k1"], false)), 1);
    let next = scan.finish().expect("next cursor");
    assert_eq!(next.window, at(WINDOW + 60));
    assert_eq!(next.last_object_key, "");
}

#[test]
fn listing_stops_after_the_lookback() {
    let svc = service(3);
    let keys = KeyBuilder::new("");
    let request = svc.mailbox_request("actor-b", "sent", 5).expect("request");
    let cursor = fresh(cursor_start(&request, "", at(NOW)));
    let mut scan = svc.start_scan(&request, cursor);
    let mut listings = 0;
    while let Some(_) = scan.next_listing(&keys) {
        listings += 1;
        assert_eq!(scan.accept_page(&page(&[], false)), 0);
    }
    assert_eq!(listings, 3);
    assert!(scan.finish().is_none());
}
