//! The records the service stores, one JSON object each. Free-form JSON
//! (a payload, an operation's result) is carried here as its JSON text.
use crate::text::str_equal;
use crate::time::UtcTime;
use vstd::prelude::*;

verus! {

broadcast use vstd::string::group_string_axioms;

/// The version of the record layout this code writes.
pub const SCHEMA_VERSION: u16 = 1;

/// A message as it was sent.
#[derive(Clone, Debug)]
pub struct Message {
    pub schema_version: u16,
    pub id: String,
    pub sender_actor_id: String,
    pub recipient_actor_ids: Vec<String>,
    pub message_type: String,
    /// The payload's JSON text.
    pub payload: String,
    pub attachment_ids: Vec<String>,
    pub thread_id: String,
    pub parent_message_id: String,
    pub created_at: UtcTime,
}

/// Points from an entity's id to the object that holds it.
#[derive(Clone, Debug)]
pub struct LookupReference {
    pub schema_version: u16,
    pub entity_kind: String,
    pub entity_id: String,
    pub object_key: String,
    pub created_at: UtcTime,
}

/// One entry of a mailbox or a thread: a message, filed for an owner.
#[derive(Clone, Debug)]
pub struct MessageReference {
    pub schema_version: u16,
    pub id: String,
    pub message_id: String,
    pub message_object_key: String,
    pub owner_id: String,
    pub reference_kind: String,
    pub created_at: UtcTime,
}

/// A conversation, named by the message that started it.
#[derive(Clone, Debug)]
pub struct Thread {
    pub schema_version: u16,
    pub id: String,
    pub root_message_id: String,
    pub external_correlation_id: String,
    pub created_at: UtcTime,
}

/// A message to an audience rather than to named recipients.
#[derive(Clone, Debug)]
pub struct Broadcast {
    pub schema_version: u16,
    pub id: String,
    pub sender_actor_id: String,
    pub audience_type: String,
    pub audience_keys: Vec<String>,
    pub message_type: String,
    /// The payload's JSON text.
    pub payload: String,
    pub attachment_ids: Vec<String>,
    pub created_at: UtcTime,
    pub expires_at: Option<UtcTime>,
}

/// A read marker of an actor on a message or a thread.
#[derive(Clone, Debug)]
pub struct State {
    pub schema_version: u16,
    pub id: String,
    pub actor_id: String,
    pub state_kind: String,
    pub target_kind: String,
    pub target_id: String,
    pub read_position: String,
    pub read_at: UtcTime,
    pub created_at: UtcTime,
}

/// What the service knows of an uploaded file.
#[derive(Clone, Debug)]
pub struct AttachmentMetadata {
    pub schema_version: u16,
    pub id: String,
    pub object_key: String,
    pub original_file_name: String,
    pub normalized_file_name: String,
    pub content_type: String,
    pub size: i64,
    pub checksum: String,
    pub created_at: UtcTime,
}

/// The ids an operation gives the entities it creates, by name.
#[derive(Clone, Debug)]
pub struct EntityIds {
    entries: Vec<(String, String)>,
}

/// The id that the last entry named `name` carries.
pub open spec fn id_in(entries: Seq<(Seq<char>, Seq<char>)>, name: Seq<char>) -> Option<Seq<char>>
    decreases entries.len(),
{
    if entries.len() == 0 {
        None
    } else if entries.last().0 == name {
        Some(entries.last().1)
    } else {
        id_in(entries.drop_last(), name)
    }
}

impl View for EntityIds {
    type V = Seq<(Seq<char>, Seq<char>)>;

    /// The (name, id) entries in the order they were set.
    closed spec fn view(&self) -> Seq<(Seq<char>, Seq<char>)> {
        self.entries@.map_values(|e: (String, String)| (e.0@, e.1@))
    }
}

impl EntityIds {
    /// The id named `name`, if one is set.
    pub open spec fn id_of(&self, name: Seq<char>) -> Option<Seq<char>> {
        id_in(self@, name)
    }

    /// No ids.
    pub fn new() -> (r: EntityIds)
        ensures
            r@.len() == 0,
    {
        proof {
            assert(Seq::<(String, String)>::empty().map_values(|e: (String, String)| (e.0@, e.1@))
                =~= Seq::empty());
        }
        EntityIds { entries: Vec::new() }
    }

    /// Sets the id named `name`, replacing an earlier one of that name.
    pub fn insert(&mut self, name: String, id: String)
        ensures
            final(self)@ == old(self)@.push((name@, id@)),
            final(self).id_of(name@) == Some(id@),
            forall|other: Seq<char>| other != name@ ==> final(self).id_of(other) == old(self).id_of(other),
    {
        let ghost before = self.entries@;
        self.entries.push((name, id));
        proof {
            assert(self.entries@.map_values(|e: (String, String)| (e.0@, e.1@)) =~= before.map_values(
                |e: (String, String)| (e.0@, e.1@),
            ).push((name@, id@)));
            assert(self@.drop_last() =~= old(self)@);
        }
    }

    /// The id named `name`.
    pub fn get(&self, name: &str) -> (r: Option<String>)
        ensures
            match self.id_of(name@) {
                Some(id) => r matches Some(s) && s@ == id,
                None => r is None,
            },
    {
        let mut i: usize = self.entries.len();
        proof {
            assert(self@.take(i as int) =~= self@);
        }
        while i > 0
            invariant
                i <= self.entries.len(),
                self@.len() == self.entries.len(),
                id_in(self@, name@) == id_in(self@.take(i as int), name@),
            decreases i,
        {
            let ghost prefix = self@.take(i as int);
            proof {
                assert(prefix.drop_last() =~= self@.take(i - 1));
                assert(prefix.last() == (self.entries@[i - 1].0@, self.entries@[i - 1].1@));
            }
            if str_equal(self.entries[i - 1].0.as_str(), name) {
                return Some(self.entries[i - 1].1.clone());
            }
            i = i - 1;
        }
        proof {
            assert(self@.take(0) =~= Seq::<(Seq<char>, Seq<char>)>::empty());
        }
        None
    }

    /// The (name, id) entries, in the order they were set.
    pub fn entries(&self) -> (r: &Vec<(String, String)>)
        ensures
            r@.map_values(|e: (String, String)| (e.0@, e.1@)) == self@,
    {
        &self.entries
    }

    /// The ids of `entries`, a later entry of a name replacing an earlier one.
    pub fn from_entries(entries: Vec<(String, String)>) -> (r: EntityIds)
        ensures
            r@ == entries@.map_values(|e: (String, String)| (e.0@, e.1@)),
    {
        EntityIds { entries }
    }
}

/// The record of one write operation: pending while it runs, completed with
/// its result. Under an idempotency key it makes a retry give the same answer.
#[derive(Clone, Debug)]
pub struct OperationRecord {
    pub schema_version: u16,
    pub id: String,
    pub caller_id: String,
    pub idempotency_key: String,
    pub operation_kind: String,
    pub request_hash: String,
    pub status: String,
    pub entity_ids: EntityIds,
    /// The result's JSON text, once the operation has completed.
    pub result: Option<String>,
    pub created_at: UtcTime,
    pub updated_at: UtcTime,
}

/// The record that an operation wrote one of its objects.
#[derive(Clone, Debug)]
pub struct OperationStep {
    pub schema_version: u16,
    pub operation_id: String,
    pub step_id: String,
    pub object_key: String,
    pub created_at: UtcTime,
}

} // verus!
