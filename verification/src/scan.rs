//! Paging through a mailbox or a thread. References are filed under one
//! folder per minute; a listing walks those folders one minute at a time, in
//! the cursor's direction, until it has a page or has looked back as far as the
//! service allows. The walk is a state machine: the caller lists what
//! `next_listing` asks for, hands the page to `accept_page`, reads the
//! references it says to keep, and asks again; `finish` gives the cursor of the
//! next page.
use crate::application::{SendMessageCommand, Service};
use crate::domain::OperationRecord;
use crate::cursors::{
    check_decoded, checked_next_window, decode_frame, frame_payload, initial, minute_start,
    next_window, next_window_secs, truncate_to_minute, usable_cursor, Cursor, Direction, VERSION,
};
use crate::error::{validation_error, ServiceError};
use crate::keys::{
    lemma_mailbox_reference_in_window, mailbox_prefix_key, mailbox_reference_key, thread_prefix_key,
    KeyBuilder,
};
use crate::storage::{ListInput, ListPage};
use crate::text::{append_str, blank, chars_of, is_blank, is_prefix, str_equal, string_of};
use crate::time::{valid_timestamp, UtcTime};
use crate::workflow::{lemma_sent_message_filed_in_its_minute, message_thread_spec, message_write_key};
use vstd::prelude::*;

verus! {

broadcast use vstd::string::group_string_axioms;

/// The folders a listing walks.
#[derive(Clone, Debug)]
pub enum ScanScope {
    /// An actor's inbox or sent folder.
    Mailbox { actor_id: String, direction: String },
    /// A thread's messages.
    Thread { thread_id: String },
}

/// The folder of `scope` for the minute of `window`.
pub open spec fn scope_prefix(ns: Seq<char>, scope: ScanScope, window: UtcTime) -> Seq<char> {
    match scope {
        ScanScope::Mailbox { actor_id, direction } => mailbox_prefix_key(
            ns,
            actor_id@,
            direction@,
            window,
        ),
        ScanScope::Thread { thread_id } => thread_prefix_key(ns, thread_id@, window),
    }
}

/// `a` and `b` walk the same folders.
pub open spec fn same_scope(a: ScanScope, b: ScanScope) -> bool {
    match (a, b) {
        (
            ScanScope::Mailbox { actor_id: a1, direction: d1 },
            ScanScope::Mailbox { actor_id: a2, direction: d2 },
        ) => a1@ == a2@ && d1@ == d2@,
        (ScanScope::Thread { thread_id: t1 }, ScanScope::Thread { thread_id: t2 }) => t1@ == t2@,
        _ => false,
    }
}

fn copy_scope(scope: &ScanScope) -> (r: ScanScope)
    ensures
        same_scope(r, *scope),
        forall|ns: Seq<char>, w: UtcTime| scope_prefix(ns, r, w) == scope_prefix(ns, *scope, w),
{
    match scope {
        ScanScope::Mailbox { actor_id, direction } => ScanScope::Mailbox {
            actor_id: actor_id.clone(),
            direction: direction.clone(),
        },
        ScanScope::Thread { thread_id } => ScanScope::Thread { thread_id: thread_id.clone() },
    }
}

fn prefix_for(keys: &KeyBuilder, scope: &ScanScope, window: UtcTime) -> (r: String)
    ensures
        r@ == scope_prefix(keys@, *scope, window),
{
    match scope {
        ScanScope::Mailbox { actor_id, direction } => keys.mailbox_prefix(
            actor_id.as_str(),
            direction.as_str(),
            window,
        ),
        ScanScope::Thread { thread_id } => keys.thread_prefix(thread_id.as_str(), window),
    }
}

/// A validated listing request: what to walk, the cursor kind and owner that
/// belong to it, its direction, and its page size.
#[derive(Clone, Debug)]
pub struct ScanRequest {
    pub scope: ScanScope,
    pub kind: String,
    pub owner: String,
    pub direction: Direction,
    pub limit: usize,
}

impl Service {
    /// The listing of `actor_id`'s `direction` folder (`inbox` or `sent`),
    /// newest first.
    pub fn mailbox_request(&self, actor_id: &str, direction: &str, limit: usize) -> (r: Result<
        ScanRequest,
        ServiceError,
    >)
        ensures
            blank(actor_id@) ==> (r matches Err(ServiceError::Validation(m)) && m@
                == "actor id is required"@),
            !blank(actor_id@) && direction@ != "inbox"@ && direction@ != "sent"@ ==> (r matches Err(
                ServiceError::Validation(m),
            ) && m@ == "direction must be inbox or sent"@),
            !blank(actor_id@) && (direction@ == "inbox"@ || direction@ == "sent"@) ==> (r matches Ok(
                q,
            ) && q.scope matches ScanScope::Mailbox { actor_id: a, direction: d } && a@ == actor_id@
                && d@ == direction@ && q.kind@ == "mailbox:"@ + direction@ && q.owner@ == actor_id@
                && q.direction == Direction::NewestFirst && q.limit == self.normalized_limit(limit)),
    {
        if is_blank(actor_id) {
            return Err(validation_error("actor id is required"));
        }
        if !str_equal(direction, "inbox") && !str_equal(direction, "sent") {
            return Err(validation_error("direction must be inbox or sent"));
        }
        let limit = self.normalize_limit(limit);
        let mut kind = chars_of("mailbox:");
        append_str(&mut kind, direction);
        Ok(
            ScanRequest {
                scope: ScanScope::Mailbox {
                    actor_id: actor_id.to_string(),
                    direction: direction.to_string(),
                },
                kind: string_of(&kind),
                owner: actor_id.to_string(),
                direction: Direction::NewestFirst,
                limit,
            },
        )
    }

    /// The listing of a thread's messages, oldest first.
    pub fn thread_request(&self, thread_id: &str, limit: usize) -> (r: Result<
        ScanRequest,
        ServiceError,
    >)
        ensures
            blank(thread_id@) ==> (r matches Err(ServiceError::Validation(m)) && m@
                == "thread id is required"@),
            !blank(thread_id@) ==> (r matches Ok(q) && q.scope matches ScanScope::Thread {
                thread_id: t,
            } && t@ == thread_id@ && q.kind@ == "thread"@ && q.owner@ == thread_id@ && q.direction
                == Direction::OldestFirst && q.limit == self.normalized_limit(limit)),
    {
        if is_blank(thread_id) {
            return Err(validation_error("thread id is required"));
        }
        let limit = self.normalize_limit(limit);
        Ok(
            ScanRequest {
                scope: ScanScope::Thread { thread_id: thread_id.to_string() },
                kind: "thread".to_string(),
                owner: thread_id.to_string(),
                direction: Direction::OldestFirst,
                limit,
            },
        )
    }
}

/// Where a listing starts: a fresh cursor, or the payload of the one the
/// request carried, which still has to be read and checked.
#[derive(Clone, Debug)]
pub enum CursorStart {
    Fresh(Cursor),
    /// The JSON bytes of the request's cursor.
    Encoded(Vec<u8>),
}

/// Where `request` starts: at the minute of `initial_window` when it carries
/// no cursor, else at its cursor, whose text must be URL-safe base64.
pub fn cursor_start(request: &ScanRequest, raw_cursor: &str, initial_window: UtcTime) -> (r: Result<
    CursorStart,
    ServiceError,
>)
    ensures
        raw_cursor@.len() == 0 ==> (r matches Ok(CursorStart::Fresh(c)) && c.version == VERSION
            && c.kind@ == request.kind@ && c.owner@ == request.owner@ && c.direction
            == request.direction && c.window.secs() == minute_start(initial_window)
            && c.window.subsec() == 0 && c.last_object_key@.len() == 0 && c.page_size
            == request.limit),
        raw_cursor@.len() > 0 && frame_payload(raw_cursor@) is None ==> (r matches Err(e) && e
            == ServiceError::InvalidCursor),
        raw_cursor@.len() > 0 && frame_payload(raw_cursor@) is Some ==> (r matches Ok(
            CursorStart::Encoded(bytes),
        ) && frame_payload(raw_cursor@) == Some(bytes@)),
{
    if raw_cursor.is_empty() {
        return Ok(
            CursorStart::Fresh(
                initial(
                    request.kind.as_str(),
                    request.owner.as_str(),
                    request.direction,
                    initial_window,
                    request.limit,
                ),
            ),
        );
    }
    match decode_frame(raw_cursor) {
        Ok(bytes) => Ok(CursorStart::Encoded(bytes)),
        Err(e) => Err(e),
    }
}

/// A cursor read from a request, if it is usable and belongs to `request`.
pub fn accept_cursor(request: &ScanRequest, cursor: Cursor) -> (r: Result<Cursor, ServiceError>)
    ensures
        (usable_cursor(cursor.version, cursor.kind@, cursor.owner@, cursor.page_size)
            && cursor.kind@ == request.kind@ && cursor.owner@ == request.owner@) ==> (r matches Ok(
            c,
        ) && c == cursor),
        !(usable_cursor(cursor.version, cursor.kind@, cursor.owner@, cursor.page_size)
            && cursor.kind@ == request.kind@ && cursor.owner@ == request.owner@) ==> (r matches Err(
            e,
        ) && e == ServiceError::InvalidCursor),
{
    let cursor = match check_decoded(cursor) {
        Ok(c) => c,
        Err(e) => {
            return Err(e);
        },
    };
    if !str_equal(cursor.kind.as_str(), request.kind.as_str()) || !str_equal(
        cursor.owner.as_str(),
        request.owner.as_str(),
    ) {
        return Err(ServiceError::InvalidCursor);
    }
    Ok(cursor)
}

/// A listing in progress.
#[derive(Debug)]
pub struct Scan {
    scope: ScanScope,
    kind: String,
    owner: String,
    direction: Direction,
    limit: usize,
    window: UtcTime,
    last_object_key: String,
    remaining_windows: usize,
    taken: usize,
    next_window: Option<UtcTime>,
    next_last_key: String,
}

impl Scan {
    #[verifier::type_invariant]
    spec fn consistent(self) -> bool {
        &&& 0 < self.limit
        &&& self.taken <= self.limit
        &&& self.window.subsec() == 0
        &&& self.window.secs() % 60 == 0
    }

    /// What the listing walks.
    pub closed spec fn scope(self) -> ScanScope {
        self.scope
    }

    /// The kind of the cursors it gives.
    pub closed spec fn kind(self) -> Seq<char> {
        self.kind@
    }

    /// The owner of the cursors it gives.
    pub closed spec fn owner(self) -> Seq<char> {
        self.owner@
    }

    pub closed spec fn direction(self) -> Direction {
        self.direction
    }

    /// The page size.
    pub closed spec fn limit(self) -> nat {
        self.limit as nat
    }

    /// The minute it reads next.
    pub closed spec fn window(self) -> UtcTime {
        self.window
    }

    /// The key after which it reads in that minute; empty for the whole minute.
    pub closed spec fn start_after(self) -> Seq<char> {
        self.last_object_key@
    }

    /// How many more minutes it may read.
    pub closed spec fn remaining(self) -> nat {
        self.remaining_windows as nat
    }

    /// How many references it has kept.
    pub closed spec fn taken(self) -> nat {
        self.taken as nat
    }

    /// Where the next page starts, once this one is full.
    pub closed spec fn resume_window(self) -> Option<UtcTime> {
        self.next_window
    }

    /// The last key of a full page whose minute holds more.
    pub closed spec fn resume_key(self) -> Seq<char> {
        self.next_last_key@
    }

    /// The listing has a full page or has read all the minutes it may.
    pub open spec fn done(self) -> bool {
        self.remaining() == 0 || self.taken() >= self.limit()
    }

    /// The number of references that `accept_page` keeps of `page`.
    pub open spec fn kept_of(self, page: ListPage) -> nat {
        if page.objects@.len() < self.limit() - self.taken() {
            page.objects@.len()
        } else {
            (self.limit() - self.taken()) as nat
        }
    }

    /// After `page`, the listing moves to the next minute (it is not yet full,
    /// or it is full and the minute holds no more).
    pub open spec fn moves_on_after(self, page: ListPage) -> bool {
        !(self.taken() + self.kept_of(page) >= self.limit() && page.has_more)
    }

    /// `accept_page` can take `page`: the next minute, when it needs it, can
    /// be represented.
    pub open spec fn can_accept(self, page: ListPage) -> bool {
        self.moves_on_after(page) ==> valid_timestamp(
            next_window_secs(self.window(), self.direction()),
            0,
        )
    }

    /// Whether `accept_page` can take `page`.
    pub fn can_accept_page(&self, page: &ListPage) -> (r: bool)
        requires
            !self.done(),
        ensures
            r == self.can_accept(*page),
    {
        proof {
            use_type_invariant(self);
        }
        let room = self.limit - self.taken;
        let kept = if page.objects.len() < room {
            page.objects.len()
        } else {
            room
        };
        if self.taken + kept >= self.limit && page.has_more {
            true
        } else {
            self.can_move_on()
        }
    }

    /// Whether the minute after the current one can be represented.
    pub fn can_move_on(&self) -> (r: bool)
        ensures
            r == valid_timestamp(next_window_secs(self.window(), self.direction()), 0),
    {
        checked_next_window(self.window, self.direction).is_some()
    }

    /// The listing request for the current minute; none once the listing is done.
    pub fn next_listing(&self, keys: &KeyBuilder) -> (r: Option<ListInput>)
        ensures
            self.done() ==> r is None,
            !self.done() ==> (r matches Some(input) && input.prefix@ == scope_prefix(
                keys@,
                self.scope(),
                self.window(),
            ) && input.start_after@ == self.start_after() && input.limit == self.limit()
                - self.taken() && input.limit > 0),
            !self.done() ==> (self.scope() matches ScanScope::Mailbox { actor_id, direction } ==> (
            r matches Some(input) && input.prefix@ == mailbox_prefix_key(
                keys@,
                actor_id@,
                direction@,
                self.window(),
            ))),
            !self.done() ==> (self.scope() matches ScanScope::Thread { thread_id } ==> (
            r matches Some(input) && input.prefix@ == thread_prefix_key(
                keys@,
                thread_id@,
                self.window(),
            ))),
    {
        proof {
            use_type_invariant(self);
        }
        if self.remaining_windows == 0 || self.taken >= self.limit {
            return None;
        }
        Some(
            ListInput {
                prefix: prefix_for(keys, &self.scope, self.window),
                start_after: self.last_object_key.clone(),
                limit: self.limit - self.taken,
            },
        )
    }

    /// Takes the page listed for the current minute and says how many of its
    /// first objects to keep: as many as the page still has room for. A full
    /// page ends the listing, remembering where the next page starts; otherwise
    /// the listing moves to the next minute, from its start.
    pub fn accept_page(&mut self, page: &ListPage) -> (kept: usize)
        requires
            !old(self).done(),
            old(self).can_accept(*page),
        ensures
            kept == old(self).kept_of(*page),
            kept <= page.objects@.len(),
            kept <= old(self).limit() - old(self).taken(),
            kept == page.objects@.len() || kept == old(self).limit() - old(self).taken(),
            final(self).scope() == old(self).scope(),
            final(self).kind() == old(self).kind(),
            final(self).owner() == old(self).owner(),
            final(self).direction() == old(self).direction(),
            final(self).limit() == old(self).limit(),
            final(self).taken() == old(self).taken() + kept,
            final(self).taken() <= final(self).limit(),
            final(self).window().secs() % 60 == 0,
            final(self).window().subsec() == 0,
            final(self).taken() >= final(self).limit() ==> ({
                &&& final(self).remaining() == old(self).remaining()
                &&& final(self).window() == old(self).window()
                &&& kept > 0
                &&& page.has_more ==> final(self).resume_window() == Some(old(self).window())
                    && final(self).resume_key() == page.objects@[kept - 1].key@
                &&& !page.has_more ==> (final(self).resume_window() matches Some(w) && w.secs()
                    == next_window_secs(old(self).window(), old(self).direction()) && w.subsec()
                    == 0 && final(self).resume_key().len() == 0)
            }),
            final(self).taken() < final(self).limit() ==> ({
                &&& final(self).remaining() == old(self).remaining() - 1
                &&& final(self).window().secs() == next_window_secs(
                    old(self).window(),
                    old(self).direction(),
                )
                &&& final(self).start_after().len() == 0
                &&& final(self).resume_window() == old(self).resume_window()
                &&& final(self).resume_key() == old(self).resume_key()
            }),
    {
        proof {
            use_type_invariant(&*self);
        }
        let room = self.limit - self.taken;
        let kept = if page.objects.len() < room {
            page.objects.len()
        } else {
            room
        };
        let taken = self.taken + kept;
        if taken >= self.limit {
            if page.has_more {
                self.next_window = Some(self.window);
                self.next_last_key = page.objects[kept - 1].key.clone();
            } else {
                self.next_window = Some(next_window(self.window, self.direction));
                self.next_last_key = String::new();
            }
            self.taken = taken;
        } else {
            let moved = next_window(self.window, self.direction);
            self.window = moved;
            self.last_object_key = String::new();
            self.remaining_windows = self.remaining_windows - 1;
            self.taken = taken;
        }
        kept
    }

    /// The cursor of the next page: none when the listing read every minute it
    /// may without filling the page. Otherwise it resumes where the full page
    /// stopped.
    pub fn finish(self) -> (r: Option<Cursor>)
        requires
            self.done(),
        ensures
            (self.remaining() == 0 && self.taken() < self.limit()) ==> r is None,
            !(self.remaining() == 0 && self.taken() < self.limit()) ==> (r matches Some(c) && c.version
                == VERSION && c.kind@ == self.kind() && c.owner@ == self.owner() && c.direction
                == self.direction() && c.window == (match self.resume_window() {
                Some(w) => w,
                None => self.window(),
            }) && c.last_object_key@ == self.resume_key() && c.page_size == self.limit()),
    {
        proof {
            use_type_invariant(&self);
        }
        if self.remaining_windows == 0 && self.taken < self.limit {
            return None;
        }
        let window = match self.next_window {
            Some(w) => w,
            None => self.window,
        };
        Some(
            Cursor {
                version: VERSION,
                kind: self.kind,
                owner: self.owner,
                direction: self.direction,
                window,
                last_object_key: self.next_last_key,
                page_size: self.limit,
            },
        )
    }
}

impl Service {
    /// A listing for `request` from `cursor`: it reads at most the service's
    /// lookback of minutes, from the minute of the cursor's window, after the
    /// cursor's last key.
    pub fn start_scan(&self, request: &ScanRequest, cursor: Cursor) -> (r: Scan)
        requires
            request.limit > 0,
        ensures
            same_scope(r.scope(), request.scope),
            forall|ns: Seq<char>, w: UtcTime|
                scope_prefix(ns, r.scope(), w) == scope_prefix(ns, request.scope, w),
            r.kind() == cursor.kind@,
            r.owner() == cursor.owner@,
            r.direction() == cursor.direction,
            r.limit() == request.limit,
            r.window().secs() == minute_start(cursor.window),
            r.window().secs() % 60 == 0,
            r.window().subsec() == 0,
            r.start_after() == cursor.last_object_key@,
            r.remaining() == self.lookback(),
            r.taken() == 0,
            r.resume_window() is None,
            r.resume_key().len() == 0,
    {
        let window = truncate_to_minute(cursor.window);
        Scan {
            scope: copy_scope(&request.scope),
            kind: cursor.kind,
            owner: cursor.owner,
            direction: cursor.direction,
            limit: request.limit,
            window,
            last_object_key: cursor.last_object_key,
            remaining_windows: self.read_lookback_minutes(),
            taken: 0,
            next_window: None,
            next_last_key: String::new(),
        }
    }
}

/// A page that fills up inside a minute whose folder holds more resumes
/// there: the cursor that `finish` gives names that minute and the page's last
/// key, so the listing that `start_scan` makes of it asks for the same folder,
/// after that key, with a full page of room.
pub proof fn lemma_full_page_resumes(
    ns: Seq<char>,
    before: Scan,
    page: ListPage,
    after: Scan,
    cursor: Cursor,
    resumed: Scan,
)
    requires
        !before.done(),
        before.window().secs() % 60 == 0,
        before.window().subsec() == 0,
        page.has_more,
        before.taken() + before.kept_of(page) >= before.limit(),
        // what `accept_page` makes of `before` and `page`
        after.scope() == before.scope(),
        after.limit() == before.limit(),
        after.taken() == before.taken() + before.kept_of(page),
        after.remaining() == before.remaining(),
        after.resume_window() == Some(before.window()),
        after.resume_key() == page.objects@[before.kept_of(page) - 1].key@,
        // what `finish` makes of `after`
        cursor.window == after.resume_window().unwrap(),
        cursor.last_object_key@ == after.resume_key(),
        // what `start_scan` makes of `cursor`, for the same request
        same_scope(resumed.scope(), before.scope()),
        forall|n: Seq<char>, w: UtcTime|
            scope_prefix(n, resumed.scope(), w) == scope_prefix(n, before.scope(), w),
        resumed.window().secs() == minute_start(cursor.window),
        resumed.window().subsec() == 0,
        resumed.start_after() == cursor.last_object_key@,
        resumed.limit() == before.limit(),
        resumed.taken() == 0,
    ensures
        resumed.window() == before.window(),
        scope_prefix(ns, resumed.scope(), resumed.window()) == scope_prefix(
            ns,
            before.scope(),
            before.window(),
        ),
        resumed.start_after() == page.objects@[before.kept_of(page) - 1].key@,
        resumed.limit() - resumed.taken() == before.limit(),
{
    crate::time::lemma_time_ext(resumed.window(), before.window());
}

/// A listing never reads more minutes than the service allows: each page it
/// takes either fills it or uses up one minute of its lookback.
pub proof fn lemma_listing_uses_lookback(before: Scan, page: ListPage, after: Scan)
    requires
        !before.done(),
        after.taken() == before.taken() + before.kept_of(page),
        after.limit() == before.limit(),
        after.taken() >= after.limit() ==> after.remaining() == before.remaining(),
        after.taken() < after.limit() ==> after.remaining() == before.remaining() - 1,
    ensures
        after.done() || after.remaining() < before.remaining(),
        after.taken() <= after.limit(),
{
}


/// A mailbox listing reads the folder of the direction it was asked for:
/// every reference filed in `actor_id`'s `direction` folder at `t` lies under
/// the prefix that the listing of that folder asks for in `t`'s minute.
pub proof fn lemma_mailbox_listing_reads_its_folder(
    ns: Seq<char>,
    actor_id: String,
    direction: String,
    window: UtcTime,
    t: UtcTime,
    message_id: Seq<char>,
    reference_id: Seq<char>,
)
    requires
        window.secs() / 60 == t.secs() / 60,
    ensures
        is_prefix(
            scope_prefix(ns, ScanScope::Mailbox { actor_id, direction }, window),
            mailbox_reference_key(ns, actor_id@, direction@, t, message_id, reference_id),
        ),
{
    lemma_mailbox_reference_in_window(ns, actor_id@, direction@, t, window, message_id, reference_id);
}

/// A sent message is found by the listings of its minute: the listing of the
/// sender's `sent` folder finds the sender's reference, the listing of a
/// recipient's `inbox` folder finds that recipient's reference, and the
/// listing of the message's thread finds the thread reference.
pub proof fn lemma_listings_find_a_sent_message(
    ns: Seq<char>,
    c: SendMessageCommand,
    op: OperationRecord,
    pt: Option<String>,
    scope: ScanScope,
    window: UtcTime,
)
    requires
        window.secs() / 60 == op.created_at.secs() / 60,
    ensures
        scope matches ScanScope::Mailbox { actor_id, direction } ==> (actor_id@ == c.sender_actor_id@
            && direction@ == "sent"@ ==> is_prefix(
            scope_prefix(ns, scope, window),
            message_write_key(ns, c, op, pt, 2),
        )),
        forall|i: int|
            0 <= i < c.recipient_actor_ids@.len() ==> (scope matches ScanScope::Mailbox {
                actor_id,
                direction,
            } ==> (actor_id@ == c.recipient_actor_ids@[i]@ && direction@ == "inbox"@ ==> is_prefix(
                scope_prefix(ns, scope, window),
                #[trigger] message_write_key(ns, c, op, pt, 3 + i),
            ))),
        scope matches ScanScope::Thread { thread_id } ==> (thread_id@ == message_thread_spec(
            c,
            op.entity_ids,
            pt,
        ) && thread_id@.len() > 0 ==> is_prefix(
            scope_prefix(ns, scope, window),
            message_write_key(ns, c, op, pt, 4 + c.recipient_actor_ids@.len() as int),
        )),
{
    lemma_sent_message_filed_in_its_minute(ns, c, op, pt, window);
}

} // verus!
