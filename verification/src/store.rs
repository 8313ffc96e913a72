//! The durable entity store and its merge kernel.
//!
//! The store holds relational tables for contacts, conversations, members,
//! messages and attachments, two append-only logs (`sync` and
//! `initial_sync`) feeding replication, and a `channel` table recording
//! each peer's replication cursor. Every mutation is stated against the
//! mathematical transition functions in this module, so the CRDT laws can
//! be proved once over the model and hold of the running code.

use vstd::prelude::*;

use crate::crdt::{Author, CrdtAddOnly, CrdtWritable, CrdtWritableSequence};
use crate::patch::{
    spec_opt_str, Attachment, AttachmentV, Contact, ContactV, Conversation, ConversationV, Member,
    MessageStatus, NewAttachmentMessage, NewMessage, NewMessageV, NewTextMessage, Patch, PatchV,
};
use crate::util::{find_first, lemma_find_first, lemma_find_first_none, lemma_find_first_unique};
use crate::uuid::Uuid;

verus! {

/// A stored message row: content fields under the content stamp, and the
/// status field under its own independent stamp.
#[derive(Clone, Debug, PartialEq, Eq)]
pub struct MessageRow {
    pub uuid: Uuid,
    pub from: Key,
    pub conversation: Uuid,
    pub text: String,
    pub attachment: Option<Uuid>,
    pub status: i32,
    pub crdt: CrdtWritableSequence,
    pub status_crdt: CrdtWritable,
}

use crate::patch::Key;

/// Mathematical image of a message row.
pub struct MessageRowV {
    pub uuid: Uuid,
    pub from: Key,
    pub conversation: Uuid,
    pub text: Seq<char>,
    pub attachment: Option<Uuid>,
    pub status: i32,
    pub crdt: CrdtWritableSequence,
    pub status_crdt: CrdtWritable,
}

impl View for MessageRow {
    type V = MessageRowV;

    open spec fn view(&self) -> MessageRowV {
        MessageRowV {
            uuid: self.uuid,
            from: self.from,
            conversation: self.conversation,
            text: self.text@,
            attachment: self.attachment,
            status: self.status,
            crdt: self.crdt,
            status_crdt: self.status_crdt,
        }
    }
}

impl DeepView for MessageRow {
    type V = MessageRowV;

    open spec fn deep_view(&self) -> MessageRowV {
        self@
    }
}

impl DeepView for Contact {
    type V = ContactV;

    open spec fn deep_view(&self) -> ContactV {
        self@
    }
}

impl DeepView for Conversation {
    type V = ConversationV;

    open spec fn deep_view(&self) -> ConversationV {
        self@
    }
}

impl DeepView for Attachment {
    type V = AttachmentV;

    open spec fn deep_view(&self) -> AttachmentV {
        self@
    }
}

impl DeepView for Member {
    type V = Member;

    open spec fn deep_view(&self) -> Member {
        *self
    }
}

impl DeepView for Patch {
    type V = PatchV;

    open spec fn deep_view(&self) -> PatchV {
        self@
    }
}

/// A per-peer replication cursor: the channel replicates `conversation`
/// towards `peer` and has acknowledged global sync rows up to `sync_index`.
#[derive(Clone, Copy, Debug, PartialEq, Eq, Structural)]
pub struct ChannelRow {
    pub id: i32,
    pub conversation: Uuid,
    pub peer: Key,
    pub sync_index: i32,
}

impl DeepView for ChannelRow {
    type V = ChannelRow;

    open spec fn deep_view(&self) -> ChannelRow {
        *self
    }
}

/// A row of the global sync log.
#[derive(Clone, Debug, PartialEq, Eq)]
pub struct SyncRow {
    pub id: i32,
    pub payload: Patch,
}

/// Mathematical image of a sync log row.
pub struct SyncRowV {
    pub id: i32,
    pub payload: PatchV,
}

impl View for SyncRow {
    type V = SyncRowV;

    open spec fn view(&self) -> SyncRowV {
        SyncRowV { id: self.id, payload: self.payload@ }
    }
}

impl DeepView for SyncRow {
    type V = SyncRowV;

    open spec fn deep_view(&self) -> SyncRowV {
        self@
    }
}

/// A row of the per-channel initial-sync queue.
#[derive(Clone, Debug, PartialEq, Eq)]
pub struct InitialSyncRow {
    pub id: i32,
    pub channel: i32,
    pub payload: Patch,
}

/// Mathematical image of an initial-sync row.
pub struct InitialSyncRowV {
    pub id: i32,
    pub channel: i32,
    pub payload: PatchV,
}

impl View for InitialSyncRow {
    type V = InitialSyncRowV;

    open spec fn view(&self) -> InitialSyncRowV {
        InitialSyncRowV { id: self.id, channel: self.channel, payload: self.payload@ }
    }
}

impl DeepView for InitialSyncRow {
    type V = InitialSyncRowV;

    open spec fn deep_view(&self) -> InitialSyncRowV {
        self@
    }
}

/// The local store: entity tables, the two replication logs, the channel
/// cursors, and the local identity.
pub struct Store {
    pub local_key: Key,
    pub author: Author,
    pub contacts: Vec<Contact>,
    pub conversations: Vec<Conversation>,
    pub members: Vec<Member>,
    pub messages: Vec<MessageRow>,
    pub attachments: Vec<Attachment>,
    pub channels: Vec<ChannelRow>,
    pub sync_log: Vec<SyncRow>,
    pub initial_log: Vec<InitialSyncRow>,
    pub next_sync_id: i32,
    pub next_initial_id: i32,
    pub next_channel_id: i32,
}

/// Mathematical image of the whole store.
pub struct StoreV {
    pub local_key: Key,
    pub author: Author,
    pub contacts: Seq<ContactV>,
    pub conversations: Seq<ConversationV>,
    pub members: Seq<Member>,
    pub messages: Seq<MessageRowV>,
    pub attachments: Seq<AttachmentV>,
    pub channels: Seq<ChannelRow>,
    pub sync_log: Seq<SyncRowV>,
    pub initial_log: Seq<InitialSyncRowV>,
    pub next_sync_id: i32,
    pub next_initial_id: i32,
    pub next_channel_id: i32,
}

impl View for Store {
    type V = StoreV;

    open spec fn view(&self) -> StoreV {
        StoreV {
            local_key: self.local_key,
            author: self.author,
            contacts: self.contacts.deep_view(),
            conversations: self.conversations.deep_view(),
            members: self.members.deep_view(),
            messages: self.messages.deep_view(),
            attachments: self.attachments.deep_view(),
            channels: self.channels.deep_view(),
            sync_log: self.sync_log.deep_view(),
            initial_log: self.initial_log.deep_view(),
            next_sync_id: self.next_sync_id,
            next_initial_id: self.next_initial_id,
            next_channel_id: self.next_channel_id,
        }
    }
}

/// The view of an optional value through the views of its content.
pub open spec fn view_opt<T: View>(o: Option<T>) -> Option<T::V> {
    match o {
        Option::Some(t) => Option::Some(t@),
        Option::None => Option::None,
    }
}

// ---------------------------------------------------------------------
// Row predicates: how each table locates a row by its logical identity.
// ---------------------------------------------------------------------

pub open spec fn is_contact_key(key: Key) -> spec_fn(ContactV) -> bool {
    |c: ContactV| c.key == key
}

pub open spec fn is_conversation_id(id: Uuid) -> spec_fn(ConversationV) -> bool {
    |c: ConversationV| c.id == id
}

pub open spec fn is_member_of(key: Key, conversation: Uuid) -> spec_fn(Member) -> bool {
    |m: Member| m.key == key && m.conversation == conversation
}

pub open spec fn is_message_id(id: Uuid) -> spec_fn(MessageRowV) -> bool {
    |m: MessageRowV| m.uuid == id
}

pub open spec fn is_attachment_id(id: Uuid) -> spec_fn(AttachmentV) -> bool {
    |a: AttachmentV| a.id == id
}

// ---------------------------------------------------------------------
// The mathematical merge kernel.
// ---------------------------------------------------------------------

pub open spec fn spec_find_contact(s: StoreV, key: Key) -> int {
    find_first(s.contacts, is_contact_key(key))
}

pub open spec fn spec_find_conversation(s: StoreV, id: Uuid) -> int {
    find_first(s.conversations, is_conversation_id(id))
}

pub open spec fn spec_find_member(s: StoreV, key: Key, conversation: Uuid) -> int {
    find_first(s.members, is_member_of(key, conversation))
}

pub open spec fn spec_find_message(s: StoreV, id: Uuid) -> int {
    find_first(s.messages, is_message_id(id))
}

pub open spec fn spec_find_attachment(s: StoreV, id: Uuid) -> int {
    find_first(s.attachments, is_attachment_id(id))
}

/// The zero-stamped placeholder row inserted when a patch references an
/// unknown key.
pub open spec fn placeholder_contact(key: Key) -> ContactV {
    ContactV { key, name: Seq::empty(), crdt: CrdtWritable::spec_zero() }
}

/// The zero-stamped placeholder row inserted when a patch references an
/// unknown conversation.
pub open spec fn placeholder_conversation(id: Uuid) -> ConversationV {
    ConversationV { id, title: Option::None, crdt: CrdtWritable::spec_zero() }
}

/// Get-or-create for contacts: a placeholder appears when the key is new.
pub open spec fn spec_ensure_contact(s: StoreV, key: Key) -> StoreV {
    if spec_find_contact(s, key) >= 0 {
        s
    } else {
        StoreV { contacts: s.contacts.push(placeholder_contact(key)), ..s }
    }
}

/// Get-or-create for conversations: a placeholder appears when the id is new.
pub open spec fn spec_ensure_conversation(s: StoreV, id: Uuid) -> StoreV {
    if spec_find_conversation(s, id) >= 0 {
        s
    } else {
        StoreV { conversations: s.conversations.push(placeholder_conversation(id)), ..s }
    }
}

/// Merge an inbound contact patch: accepted outright when the key is
/// unknown, and otherwise exactly when its stamp is strictly greater
/// than the stored one.
pub open spec fn spec_merge_contact(s: StoreV, c: ContactV) -> (StoreV, Option<ContactV>) {
    let i = spec_find_contact(s, c.key);
    if i < 0 {
        (StoreV { contacts: s.contacts.push(c), ..s }, Option::Some(c))
    } else if s.contacts[i].crdt.spec_lt(c.crdt) {
        (StoreV { contacts: s.contacts.update(i, c), ..s }, Option::Some(c))
    } else {
        (s, Option::None)
    }
}

/// Merge an inbound conversation patch, as for contacts.
pub open spec fn spec_merge_conversation(s: StoreV, c: ConversationV) -> (
    StoreV,
    Option<ConversationV>,
) {
    let i = spec_find_conversation(s, c.id);
    if i < 0 {
        (StoreV { conversations: s.conversations.push(c), ..s }, Option::Some(c))
    } else if s.conversations[i].crdt.spec_lt(c.crdt) {
        (StoreV { conversations: s.conversations.update(i, c), ..s }, Option::Some(c))
    } else {
        (s, Option::None)
    }
}

/// Merge an inbound membership patch: grow-only, accepted exactly when the
/// pair is absent; both referenced identities get placeholder rows.
pub open spec fn spec_merge_member(s: StoreV, m: Member) -> (StoreV, Option<Member>) {
    let s1 = spec_ensure_conversation(spec_ensure_contact(s, m.key), m.conversation);
    if spec_find_member(s1, m.key, m.conversation) >= 0 {
        (s1, Option::None)
    } else {
        (StoreV { members: s1.members.push(m), ..s1 }, Option::Some(m))
    }
}

/// The fresh row a new message patch inserts: status starts at `Sent`
/// under a zero status stamp.
pub open spec fn new_message_row(m: NewMessageV) -> MessageRowV {
    MessageRowV {
        uuid: m.id,
        from: m.from,
        conversation: m.conversation,
        text: m.text,
        attachment: m.attachment,
        status: 0,
        crdt: m.crdt,
        status_crdt: CrdtWritable::spec_zero(),
    }
}

/// Merge an inbound message patch: insert when the id is unknown,
/// overwrite the content fields when the inbound content stamp is
/// strictly greater, and never perturb the status fields.
pub open spec fn spec_merge_message(s: StoreV, m: NewMessageV) -> (StoreV, Option<NewMessageV>) {
    let i = spec_find_message(s, m.id);
    if i < 0 {
        let s1 = spec_ensure_conversation(spec_ensure_contact(s, m.from), m.conversation);
        (StoreV { messages: s1.messages.push(new_message_row(m)), ..s1 }, Option::Some(m))
    } else if s.messages[i].crdt.spec_lt(m.crdt) {
        let s1 = spec_ensure_conversation(spec_ensure_contact(s, m.from), m.conversation);
        let j = spec_find_message(s1, m.id);
        let row = MessageRowV {
            uuid: m.id,
            from: m.from,
            conversation: m.conversation,
            text: m.text,
            attachment: m.attachment,
            status: s1.messages[j].status,
            crdt: m.crdt,
            status_crdt: s1.messages[j].status_crdt,
        };
        (StoreV { messages: s1.messages.update(j, row), ..s1 }, Option::Some(m))
    } else {
        (s, Option::None)
    }
}

/// The placeholder row a status patch inserts when it arrives before the
/// message content: zero content stamp, empty text, the zero key.
pub open spec fn status_placeholder_row(st: MessageStatus) -> MessageRowV {
    MessageRowV {
        uuid: st.id,
        from: Key { hi: 0, lo: 0 },
        conversation: st.conversation,
        text: Seq::empty(),
        attachment: Option::None,
        status: st.status,
        crdt: CrdtWritableSequence::spec_zero(),
        status_crdt: st.crdt,
    }
}

/// Merge an inbound status patch: only `(status, status stamp)` move, and
/// only when the inbound status stamp is strictly greater.
pub open spec fn spec_merge_status(s: StoreV, st: MessageStatus) -> (StoreV, Option<MessageStatus>) {
    let i = spec_find_message(s, st.id);
    if i < 0 {
        let s1 = spec_ensure_conversation(
            spec_ensure_contact(s, Key { hi: 0, lo: 0 }),
            st.conversation,
        );
        (StoreV { messages: s1.messages.push(status_placeholder_row(st)), ..s1 }, Option::Some(st))
    } else if s.messages[i].status_crdt.spec_lt(st.crdt) {
        let row = MessageRowV { status: st.status, status_crdt: st.crdt, ..s.messages[i] };
        (StoreV { messages: s.messages.update(i, row), ..s }, Option::Some(st))
    } else {
        (s, Option::None)
    }
}

/// Merge an inbound attachment patch: grow-only, accepted exactly when the
/// id is absent.
pub open spec fn spec_merge_attachment(s: StoreV, a: AttachmentV) -> (StoreV, Option<AttachmentV>) {
    let i = spec_find_attachment(s, a.id);
    if i >= 0 {
        (s, Option::None)
    } else {
        let s1 = spec_ensure_conversation(s, a.conversation);
        (StoreV { attachments: s1.attachments.push(a), ..s1 }, Option::Some(a))
    }
}

/// Merge any patch: dispatch on the variant; message wire forms merge
/// through the internal message form and come back in their wire form.
pub open spec fn spec_merge_patch(s: StoreV, p: PatchV) -> (StoreV, Option<PatchV>) {
    match p {
        PatchV::Contact(c) => {
            let (s1, r) = spec_merge_contact(s, c);
            (s1, match r {
                Option::Some(c) => Option::Some(PatchV::Contact(c)),
                Option::None => Option::None,
            })
        },
        PatchV::Conversation(c) => {
            let (s1, r) = spec_merge_conversation(s, c);
            (s1, match r {
                Option::Some(c) => Option::Some(PatchV::Conversation(c)),
                Option::None => Option::None,
            })
        },
        PatchV::Member(m) => {
            let (s1, r) = spec_merge_member(s, m);
            (s1, match r {
                Option::Some(m) => Option::Some(PatchV::Member(m)),
                Option::None => Option::None,
            })
        },
        PatchV::NewTextMessage(m) => {
            let nm = NewMessageV {
                id: m.id,
                from: m.from,
                conversation: m.conversation,
                text: m.text,
                attachment: Option::None,
                crdt: m.crdt,
            };
            let (s1, r) = spec_merge_message(s, nm);
            (s1, match r {
                Option::Some(_) => Option::Some(PatchV::NewTextMessage(m)),
                Option::None => Option::None,
            })
        },
        PatchV::NewAttachmentMessage(m) => {
            let nm = NewMessageV {
                id: m.id,
                from: m.from,
                conversation: m.conversation,
                text: m.filename,
                attachment: Option::Some(m.attachment),
                crdt: m.crdt,
            };
            let (s1, r) = spec_merge_message(s, nm);
            (s1, match r {
                Option::Some(_) => Option::Some(PatchV::NewAttachmentMessage(m)),
                Option::None => Option::None,
            })
        },
        PatchV::MessageStatus(st) => {
            let (s1, r) = spec_merge_status(s, st);
            (s1, match r {
                Option::Some(st) => Option::Some(PatchV::MessageStatus(st)),
                Option::None => Option::None,
            })
        },
        PatchV::Attachment(a) => {
            let (s1, r) = spec_merge_attachment(s, a);
            (s1, match r {
                Option::Some(a) => Option::Some(PatchV::Attachment(a)),
                Option::None => Option::None,
            })
        },
    }
}

// ---------------------------------------------------------------------
// Local writes: stamp assignment and the global sync log.
// ---------------------------------------------------------------------

/// The stamp stored for `key`, the zero stamp when the row is absent.
pub open spec fn spec_contact_stamp(s: StoreV, key: Key) -> CrdtWritable {
    let i = spec_find_contact(s, key);
    if i >= 0 {
        s.contacts[i].crdt
    } else {
        CrdtWritable::spec_zero()
    }
}

/// The stamp stored for conversation `id`, the zero stamp when absent.
pub open spec fn spec_conversation_stamp(s: StoreV, id: Uuid) -> CrdtWritable {
    let i = spec_find_conversation(s, id);
    if i >= 0 {
        s.conversations[i].crdt
    } else {
        CrdtWritable::spec_zero()
    }
}

/// The content stamp stored for message `id`, the zero stamp when absent.
pub open spec fn spec_message_stamp(s: StoreV, id: Uuid) -> CrdtWritableSequence {
    let i = spec_find_message(s, id);
    if i >= 0 {
        s.messages[i].crdt
    } else {
        CrdtWritableSequence::spec_zero()
    }
}

/// The status stamp stored for message `id`, the zero stamp when absent.
pub open spec fn spec_status_stamp(s: StoreV, id: Uuid) -> CrdtWritable {
    let i = spec_find_message(s, id);
    if i >= 0 {
        s.messages[i].status_crdt
    } else {
        CrdtWritable::spec_zero()
    }
}

/// The greatest sequence number among the messages of `conversation`,
/// `None` when it has none.
pub open spec fn spec_last_seq(ms: Seq<MessageRowV>, conversation: Uuid) -> Option<i32>
    decreases ms.len(),
{
    if ms.len() == 0 {
        Option::None
    } else {
        let rest = spec_last_seq(ms.drop_last(), conversation);
        let last = ms.last();
        if last.conversation == conversation {
            match rest {
                Option::None => Option::Some(last.crdt.sequence),
                Option::Some(b) => if last.crdt.sequence > b {
                    Option::Some(last.crdt.sequence)
                } else {
                    Option::Some(b)
                },
            }
        } else {
            rest
        }
    }
}

/// The sequence number a fresh push into `conversation` takes: one past
/// the greatest stored, one on an empty conversation.
pub open spec fn spec_next_seq(s: StoreV, conversation: Uuid) -> int {
    match spec_last_seq(s.messages, conversation) {
        Option::None => 1,
        Option::Some(b) => b + 1,
    }
}

/// A local write of contact `key`: the row takes the successor of its
/// stored stamp, signed by `author`.
pub open spec fn spec_add_contact(s: StoreV, author: Author, key: Key, name: Seq<char>) -> (
    StoreV,
    ContactV,
) {
    let s1 = spec_ensure_contact(s, key);
    let i = spec_find_contact(s1, key);
    let c = ContactV { key, name, crdt: s1.contacts[i].crdt.spec_next(author) };
    (StoreV { contacts: s1.contacts.update(i, c), ..s1 }, c)
}

/// A local write of conversation `id`, as for contacts.
pub open spec fn spec_add_conversation(
    s: StoreV,
    author: Author,
    id: Uuid,
    title: Option<Seq<char>>,
) -> (StoreV, ConversationV) {
    let s1 = spec_ensure_conversation(s, id);
    let i = spec_find_conversation(s1, id);
    let c = ConversationV { id, title, crdt: s1.conversations[i].crdt.spec_next(author) };
    (StoreV { conversations: s1.conversations.update(i, c), ..s1 }, c)
}

/// A local push of a message: the content stamp advances, and the sequence
/// is allocated one past the conversation's greatest.
pub open spec fn spec_push_message(s: StoreV, author: Author, m: NewMessageV) -> (
    StoreV,
    NewMessageV,
) {
    let i = spec_find_message(s, m.id);
    let base = if i >= 0 {
        s.messages[i].crdt
    } else {
        CrdtWritableSequence::spec_zero()
    };
    let crdt = CrdtWritableSequence {
        writable: base.writable.spec_next(author),
        sequence: spec_next_seq(s, m.conversation) as i32,
    };
    let m2 = NewMessageV { crdt, ..m };
    let s1 = spec_ensure_conversation(spec_ensure_contact(s, m.from), m.conversation);
    if i >= 0 {
        let row = MessageRowV {
            uuid: m2.id,
            from: m2.from,
            conversation: m2.conversation,
            text: m2.text,
            attachment: m2.attachment,
            status: s1.messages[i].status,
            crdt: m2.crdt,
            status_crdt: s1.messages[i].status_crdt,
        };
        (StoreV { messages: s1.messages.update(i, row), ..s1 }, m2)
    } else {
        (StoreV { messages: s1.messages.push(new_message_row(m2)), ..s1 }, m2)
    }
}

/// A local write of a message's status: only the status stamp advances.
pub open spec fn spec_set_status(
    s: StoreV,
    author: Author,
    id: Uuid,
    conversation: Uuid,
    status: i32,
) -> (StoreV, MessageStatus) {
    let i = spec_find_message(s, id);
    let base = if i >= 0 {
        s.messages[i].status_crdt
    } else {
        CrdtWritable::spec_zero()
    };
    let st = MessageStatus { id, conversation, status, crdt: base.spec_next(author) };
    if i >= 0 {
        let row = MessageRowV { status: st.status, status_crdt: st.crdt, ..s.messages[i] };
        (StoreV { messages: s.messages.update(i, row), ..s }, st)
    } else {
        let s1 = spec_ensure_conversation(spec_ensure_contact(s, Key { hi: 0, lo: 0 }), conversation);
        (StoreV { messages: s1.messages.push(status_placeholder_row(st)), ..s1 }, st)
    }
}

/// Append a patch to the global sync log under a fresh id.
pub open spec fn spec_save_patch(s: StoreV, p: PatchV) -> StoreV {
    StoreV {
        sync_log: s.sync_log.push(SyncRowV { id: s.next_sync_id, payload: p }),
        next_sync_id: (s.next_sync_id + 1) as i32,
        ..s
    }
}

// ---------------------------------------------------------------------
// Read models: conversations with their members, message listings.
// ---------------------------------------------------------------------

/// A conversation as surfaced to the user layer, with its member keys.
#[derive(Clone, Debug, PartialEq, Eq)]
pub struct ConversationInfo {
    pub uuid: Uuid,
    pub title: Option<String>,
    pub crdt: CrdtWritable,
    pub members: Vec<Key>,
}

/// Mathematical image of a surfaced conversation.
pub struct ConversationInfoV {
    pub uuid: Uuid,
    pub title: Option<Seq<char>>,
    pub crdt: CrdtWritable,
    pub members: Seq<Key>,
}

impl View for ConversationInfo {
    type V = ConversationInfoV;

    open spec fn view(&self) -> ConversationInfoV {
        ConversationInfoV {
            uuid: self.uuid,
            title: spec_opt_str(self.title),
            crdt: self.crdt,
            members: self.members.deep_view(),
        }
    }
}

impl DeepView for ConversationInfo {
    type V = ConversationInfoV;

    open spec fn deep_view(&self) -> ConversationInfoV {
        self@
    }
}

impl DeepView for Key {
    type V = Key;

    open spec fn deep_view(&self) -> Key {
        *self
    }
}

/// The key of a membership row.
pub open spec fn member_key_fn() -> spec_fn(Member) -> Key {
    |m: Member| m.key
}

/// The member keys of `conversation`, in table order.
pub open spec fn spec_members_of(s: StoreV, conversation: Uuid) -> Seq<Key> {
    s.members.filter(is_member_in(conversation)).map_values(member_key_fn())
}

/// The surfaced form of the conversation row at index `i`.
pub open spec fn spec_conversation_info(s: StoreV, i: int) -> ConversationInfoV {
    let c = s.conversations[i];
    ConversationInfoV { uuid: c.id, title: c.title, crdt: c.crdt, members: spec_members_of(s, c.id) }
}

impl Store {
    /// The member keys of `conversation`, in table order.
    pub fn members_of(&self, conversation: Uuid) -> (r: Vec<Key>)
        ensures
            r.deep_view() == spec_members_of(self@, conversation),
    {
        let ghost p = is_member_in(conversation);
        let n: usize = self.members.len();
        let mut out: Vec<Key> = Vec::new();
        let mut i: usize = 0;
        while i < n
            invariant
                i <= n,
                n == self.members@.len(),
                p == is_member_in(conversation),
                out.deep_view() == self.members.deep_view().subrange(0, i as int).filter(
                    p,
                ).map_values(member_key_fn()),
            decreases n - i,
        {
            let ghost prefix = self.members.deep_view().subrange(0, i as int);
            let ghost prefix1 = self.members.deep_view().subrange(0, i + 1);
            proof {
                reveal(Seq::filter);
                assert(prefix1.drop_last() =~= prefix);
                assert(prefix1.last() == self.members.deep_view()[i as int]);
            }
            let m = &self.members[i];
            if m.conversation == conversation {
                let ghost prev_deep = out.deep_view();
                out.push(m.key);
                proof {
                    assert(p(self.members.deep_view()[i as int]));
                    assert(prefix1.filter(p) =~= prefix.filter(p).push(
                        self.members.deep_view()[i as int],
                    ));
                    assert(out.deep_view() =~= prev_deep.push(
                        member_key_fn()(self.members.deep_view()[i as int]),
                    ));
                    assert(prefix1.filter(p).map_values(member_key_fn()) =~= prefix.filter(
                        p,
                    ).map_values(member_key_fn()).push(
                        member_key_fn()(self.members.deep_view()[i as int]),
                    ));
                }
            } else {
                proof {
                    assert(!p(self.members.deep_view()[i as int]));
                    assert(prefix1.filter(p) =~= prefix.filter(p));
                }
            }
            i = i + 1;
        }
        proof {
            assert(self.members.deep_view().subrange(0, n as int) =~= self.members.deep_view());
        }
        out
    }

    /// The surfaced conversation for `id`, if its row exists.
    pub fn get_conversation(&self, id: Uuid) -> (r: Option<ConversationInfo>)
        ensures
            view_opt(r) == {
                let i = spec_find_conversation(self@, id);
                if i >= 0 {
                    Option::Some(spec_conversation_info(self@, i))
                } else {
                    Option::<ConversationInfoV>::None
                }
            },
    {
        let found = self.find_conversation_idx(id);
        match found {
            None => None,
            Some(i) => {
                proof {
                    lemma_find_first(self.conversations.deep_view(), is_conversation_id(id));
                    assert(is_conversation_id(id)(self.conversations.deep_view()[i as int]));
                }
                let c = &self.conversations[i];
                let members = self.members_of(c.id);
                Some(
                    ConversationInfo {
                        uuid: c.id,
                        title: clone_opt_string(&c.title),
                        crdt: c.crdt,
                        members,
                    },
                )
            },
        }
    }

    /// Every stored conversation, surfaced, in table order.
    pub fn list_conversation(&self) -> (r: Vec<ConversationInfo>)
        ensures
            r.deep_view() == Seq::new(
                self@.conversations.len(),
                |i: int| spec_conversation_info(self@, i),
            ),
    {
        let n: usize = self.conversations.len();
        let mut out: Vec<ConversationInfo> = Vec::new();
        let mut i: usize = 0;
        while i < n
            invariant
                i <= n,
                n == self.conversations@.len(),
                out.deep_view() == Seq::new(i as nat, |k: int| spec_conversation_info(self@, k)),
            decreases n - i,
        {
            let c = &self.conversations[i];
            let members = self.members_of(c.id);
            let info = ConversationInfo {
                uuid: c.id,
                title: clone_opt_string(&c.title),
                crdt: c.crdt,
                members,
            };
            let ghost prev_deep = out.deep_view();
            out.push(info);
            proof {
                assert(out.deep_view() =~= prev_deep.push(spec_conversation_info(self@, i as int)));
                assert(out.deep_view() =~= Seq::new(
                    (i + 1) as nat,
                    |k: int| spec_conversation_info(self@, k),
                ));
            }
            i = i + 1;
        }
        out
    }

    /// The messages of `conversation`, surfaced, in table order.
    pub fn list_messages(&self, conversation: Uuid) -> (r: Vec<Message>)
        ensures
            r.deep_view() == self@.messages.filter(is_message_in(conversation)).map_values(
                message_of_row_fn(),
            ),
    {
        let ghost p = is_message_in(conversation);
        let n: usize = self.messages.len();
        let mut out: Vec<Message> = Vec::new();
        let mut i: usize = 0;
        while i < n
            invariant
                i <= n,
                n == self.messages@.len(),
                p == is_message_in(conversation),
                out.deep_view() == self.messages.deep_view().subrange(0, i as int).filter(
                    p,
                ).map_values(message_of_row_fn()),
            decreases n - i,
        {
            let ghost prefix = self.messages.deep_view().subrange(0, i as int);
            let ghost prefix1 = self.messages.deep_view().subrange(0, i + 1);
            proof {
                reveal(Seq::filter);
                assert(prefix1.drop_last() =~= prefix);
                assert(prefix1.last() == self.messages.deep_view()[i as int]);
            }
            let m = &self.messages[i];
            if m.conversation == conversation {
                let picked = Message {
                    uuid: m.uuid,
                    from: m.from,
                    conversation: m.conversation,
                    content: m.text.clone(),
                    status: m.status,
                };
                let ghost prev_deep = out.deep_view();
                out.push(picked);
                proof {
                    assert(p(self.messages.deep_view()[i as int]));
                    assert(prefix1.filter(p) =~= prefix.filter(p).push(
                        self.messages.deep_view()[i as int],
                    ));
                    assert(message_of_row_fn()(self.messages.deep_view()[i as int]) == picked@);
                    assert(out.deep_view() =~= prev_deep.push(picked@));
                    assert(prefix1.filter(p).map_values(message_of_row_fn()) =~= prefix.filter(
                        p,
                    ).map_values(message_of_row_fn()).push(picked@));
                }
            } else {
                proof {
                    assert(!p(self.messages.deep_view()[i as int]));
                    assert(prefix1.filter(p) =~= prefix.filter(p));
                }
            }
            i = i + 1;
        }
        proof {
            assert(self.messages.deep_view().subrange(0, n as int) =~= self.messages.deep_view());
        }
        out
    }
}

// ---------------------------------------------------------------------
// Composite local operations: the public mutation API.
// ---------------------------------------------------------------------

/// A local contact write followed by its sync-log entry.
pub open spec fn spec_save_contact(s: StoreV, key: Key, name: Seq<char>) -> StoreV {
    let (s1, c) = spec_add_contact(s, s.author, key, name);
    spec_save_patch(s1, PatchV::Contact(c))
}

/// A local conversation write followed by its sync-log entry.
pub open spec fn spec_save_conversation(s: StoreV, id: Uuid, title: Option<Seq<char>>) -> StoreV {
    let (s1, c) = spec_add_conversation(s, s.author, id, title);
    spec_save_patch(s1, PatchV::Conversation(c))
}

/// Create a conversation locally: write its row under a fresh stamp, log
/// the patch, and record the local user as a member.
pub open spec fn spec_create_conversation(s: StoreV, id: Uuid, title: Option<Seq<char>>) -> StoreV {
    let s2 = spec_save_conversation(s, id, title);
    StoreV {
        members: s2.members.push(Member { key: s.local_key, conversation: id, crdt: CrdtAddOnly(s.author) }),
        ..s2
    }
}

/// The message patch a local push logs: its wire form.
pub open spec fn spec_message_patch(m: NewMessageV) -> PatchV {
    match m.attachment {
        Option::None => PatchV::NewTextMessage(
            crate::patch::NewTextMessageV {
                id: m.id,
                from: m.from,
                conversation: m.conversation,
                text: m.text,
                crdt: m.crdt,
            },
        ),
        Option::Some(att) => PatchV::NewAttachmentMessage(
            crate::patch::NewAttachmentMessageV {
                id: m.id,
                from: m.from,
                conversation: m.conversation,
                filename: m.text,
                attachment: att,
                crdt: m.crdt,
            },
        ),
    }
}

/// Send a text message: push it under a fresh stamp and sequence, and log
/// its wire patch.
pub open spec fn spec_send_message(s: StoreV, conversation: Uuid, id: Uuid, text: Seq<char>) -> (
    StoreV,
    NewMessageV,
) {
    let m = NewMessageV {
        id,
        from: s.local_key,
        conversation,
        text,
        attachment: Option::None,
        crdt: CrdtWritableSequence::spec_zero(),
    };
    let (s1, m2) = spec_push_message(s, s.author, m);
    (spec_save_patch(s1, spec_message_patch(m2)), m2)
}

/// Send a file: store and log the attachment, then push and log the
/// message shell referencing it.
pub open spec fn spec_send_file(
    s: StoreV,
    conversation: Uuid,
    att_id: Uuid,
    msg_id: Uuid,
    filename: Seq<char>,
    payload: Seq<u8>,
) -> StoreV {
    let a = AttachmentV {
        id: att_id,
        conversation,
        payload: Option::Some(payload),
        crdt: CrdtAddOnly(s.author),
    };
    let (s1, kept) = spec_merge_attachment(s, a);
    let s2 = match kept {
        Option::Some(k) => spec_save_patch(s1, PatchV::Attachment(k)),
        Option::None => s1,
    };
    let m = NewMessageV {
        id: msg_id,
        from: s.local_key,
        conversation,
        text: filename,
        attachment: Option::Some(att_id),
        crdt: CrdtWritableSequence::spec_zero(),
    };
    let (s3, m2) = spec_push_message(s2, s.author, m);
    spec_save_patch(s3, spec_message_patch(m2))
}

/// Set a message's status locally and log the status patch.
pub open spec fn spec_set_message_status(
    s: StoreV,
    id: Uuid,
    conversation: Uuid,
    status: i32,
) -> StoreV {
    let (s1, st) = spec_set_status(s, s.author, id, conversation, status);
    spec_save_patch(s1, PatchV::MessageStatus(st))
}

impl Store {
    /// Write a contact locally and log the patch for replication.
    pub fn save_contact(&mut self, contact: Contact)
        requires
            spec_contact_stamp(old(self)@, contact.key).generation < i32::MAX,
            old(self)@.next_sync_id < i32::MAX,
        ensures
            final(self)@ == spec_save_contact(old(self)@, contact.key, contact@.name),
    {
        let added = self.add_contact(contact);
        self.save_patch(Patch::Contact(added));
    }

    /// Write a conversation locally and log the patch for replication.
    pub fn save_conversation(&mut self, conversation: Conversation)
        requires
            spec_conversation_stamp(old(self)@, conversation.id).generation < i32::MAX,
            old(self)@.next_sync_id < i32::MAX,
        ensures
            final(self)@ == spec_save_conversation(
                old(self)@,
                conversation.id,
                conversation@.title,
            ),
    {
        let added = self.add_conversation(conversation);
        self.save_patch(Patch::Conversation(added));
    }

    /// Create a conversation under the given fresh identifier.
    pub fn create_conversation_with_id(&mut self, title: Option<String>, id: Uuid)
        requires
            spec_conversation_stamp(old(self)@, id).generation < i32::MAX,
            old(self)@.next_sync_id < i32::MAX,
        ensures
            final(self)@ == spec_create_conversation(old(self)@, id, spec_opt_str(title)),
    {
        let key = self.local_key;
        let author = self.author;
        self.save_conversation(Conversation { id, title, crdt: CrdtWritable::zero() });
        self.members.push(Member { key, conversation: id, crdt: CrdtAddOnly(author) });
        proof {
            assert(self.members.deep_view() =~= spec_create_conversation(
                old(self)@,
                id,
                spec_opt_str(title),
            ).members);
        }
    }

    /// Create a conversation under a freshly drawn identifier; the
    /// returned id says which one.
    pub fn create_conversation(&mut self, title: Option<String>) -> (r: Uuid)
        requires
            old(self)@.next_sync_id < i32::MAX,
        ensures
            spec_conversation_stamp(old(self)@, r).generation < i32::MAX ==> final(self)@
                == spec_create_conversation(old(self)@, r, spec_opt_str(title)),
    {
        let id = crate::uuid::new_v4();
        if self.find_conversation_idx(id).is_some() {
            let g = {
                let i = match self.find_conversation_idx(id) {
                    Some(i) => i,
                    None => 0,
                };
                (&self.conversations[i]).crdt.generation
            };
            if g == i32::MAX {
                return id;
            }
        }
        self.create_conversation_with_id(title, id);
        id
    }

    /// Join a conversation by identifier: a zero-stamped row appears when
    /// it is new; nothing is logged.
    pub fn join_conversation(&mut self, id: Uuid)
        ensures
            final(self)@ == spec_ensure_conversation(old(self)@, id),
    {
        self.ensure_conversation_row(id);
    }

    /// Send a text message into `conversation` under the given fresh
    /// message identifier; returns the stamped message.
    pub fn send_message_with_id(&mut self, conversation: Uuid, text: String, id: Uuid) -> (r:
        NewMessage)
        requires
            spec_message_stamp(old(self)@, id).writable.generation < i32::MAX,
            spec_last_seq(old(self)@.messages, conversation) matches Some(b) ==> b < i32::MAX,
            old(self)@.next_sync_id < i32::MAX,
        ensures
            (final(self)@, r@) == spec_send_message(old(self)@, conversation, id, text@),
    {
        let from = self.local_key;
        let m = NewMessage {
            id,
            from,
            conversation,
            text,
            attachment: None,
            crdt: CrdtWritableSequence::zero(),
        };
        let stamped = self.push_message(m);
        let ret = NewMessage {
            id: stamped.id,
            from: stamped.from,
            conversation: stamped.conversation,
            text: stamped.text.clone(),
            attachment: stamped.attachment,
            crdt: stamped.crdt,
        };
        self.save_patch(stamped.into_serializable());
        ret
    }

    /// Set a message's status locally and log the status patch.
    pub fn set_message_status(&mut self, id: Uuid, conversation: Uuid, status: i32)
        requires
            spec_status_stamp(old(self)@, id).generation < i32::MAX,
            old(self)@.next_sync_id < i32::MAX,
        ensures
            final(self)@ == spec_set_message_status(old(self)@, id, conversation, status),
    {
        let st = self.set_status(id, conversation, status);
        self.save_patch(Patch::MessageStatus(st));
    }

    /// Send a file into `conversation`: the attachment patch carries the
    /// bytes, the message shell carries the filename and the reference.
    pub fn send_file_with_ids(
        &mut self,
        conversation: Uuid,
        filename: String,
        payload: Vec<u8>,
        att_id: Uuid,
        msg_id: Uuid,
    )
        requires
            spec_message_stamp(old(self)@, msg_id).writable.generation < i32::MAX,
            spec_last_seq(old(self)@.messages, conversation) matches Some(b) ==> b < i32::MAX,
            old(self)@.next_sync_id + 1 < i32::MAX,
        ensures
            final(self)@ == spec_send_file(
                old(self)@,
                conversation,
                att_id,
                msg_id,
                filename@,
                payload@,
            ),
    {
        let author = self.author;
        let from = self.local_key;
        let a = Attachment {
            id: att_id,
            conversation,
            payload: Some(payload),
            crdt: CrdtAddOnly(author),
        };
        let kept = self.merge_attachment(a);
        match kept {
            Some(k) => {
                self.save_patch(Patch::Attachment(k));
            },
            None => {},
        }
        let m = NewMessage {
            id: msg_id,
            from,
            conversation,
            text: filename,
            attachment: Some(att_id),
            crdt: CrdtWritableSequence::zero(),
        };
        let stamped = self.push_message(m);
        self.save_patch(stamped.into_serializable());
    }
}

// ---------------------------------------------------------------------
// Well-formedness: log ids ascend and stay below their counters.
// ---------------------------------------------------------------------

/// The store's internal invariant: both logs hold strictly ascending ids
/// below their counters, and channel ids are unique and below theirs.
pub open spec fn wf_store(s: StoreV) -> bool {
    &&& forall|i: int, j: int|
        0 <= i < j < s.sync_log.len() ==> (#[trigger] s.sync_log[i]).id < (
        #[trigger] s.sync_log[j]).id
    &&& forall|i: int| 0 <= i < s.sync_log.len() ==> (#[trigger] s.sync_log[i]).id < s.next_sync_id
    &&& forall|i: int, j: int|
        0 <= i < j < s.initial_log.len() ==> (#[trigger] s.initial_log[i]).id < (
        #[trigger] s.initial_log[j]).id
    &&& forall|i: int|
        0 <= i < s.initial_log.len() ==> (#[trigger] s.initial_log[i]).id < s.next_initial_id
    &&& forall|i: int, j: int|
        0 <= i < j < s.channels.len() ==> (#[trigger] s.channels[i]).id != (
        #[trigger] s.channels[j]).id
    &&& forall|i: int|
        0 <= i < s.channels.len() ==> (#[trigger] s.channels[i]).id < s.next_channel_id
}

/// Merging a patch touches no log: it preserves the invariant.
#[verifier::rlimit(60)]
pub proof fn lemma_wf_merge_patch(s: StoreV, p: PatchV)
    requires
        wf_store(s),
    ensures
        wf_store(spec_merge_patch(s, p).0),
{
}

/// Local writes of entities touch no log either.
pub proof fn lemma_wf_add_contact(s: StoreV, author: Author, key: Key, name: Seq<char>)
    requires
        wf_store(s),
    ensures
        wf_store(spec_add_contact(s, author, key, name).0),
{
}

pub proof fn lemma_wf_add_conversation(
    s: StoreV,
    author: Author,
    id: Uuid,
    title: Option<Seq<char>>,
)
    requires
        wf_store(s),
    ensures
        wf_store(spec_add_conversation(s, author, id, title).0),
{
}

pub proof fn lemma_wf_push_message(s: StoreV, author: Author, m: NewMessageV)
    requires
        wf_store(s),
    ensures
        wf_store(spec_push_message(s, author, m).0),
{
}

pub proof fn lemma_wf_set_status(s: StoreV, author: Author, id: Uuid, conversation: Uuid, st: i32)
    requires
        wf_store(s),
    ensures
        wf_store(spec_set_status(s, author, id, conversation, st).0),
{
}

/// Appending under the fresh id keeps the sync log ascending.
pub proof fn lemma_wf_save_patch(s: StoreV, p: PatchV)
    requires
        wf_store(s),
        s.next_sync_id < i32::MAX,
    ensures
        wf_store(spec_save_patch(s, p)),
{
}

// ---------------------------------------------------------------------
// Channels and the initial snapshot.
// ---------------------------------------------------------------------

/// A channel row serves `(conversation, peer)`.
pub open spec fn is_channel_for(conversation: Uuid, peer: Key) -> spec_fn(ChannelRow) -> bool {
    |c: ChannelRow| c.conversation == conversation && c.peer == peer
}

/// A channel row carries id `id`.
pub open spec fn is_channel_id(id: i32) -> spec_fn(ChannelRow) -> bool {
    |c: ChannelRow| c.id == id
}

/// A membership row belongs to `conversation`.
pub open spec fn is_member_in(conversation: Uuid) -> spec_fn(Member) -> bool {
    |m: Member| m.conversation == conversation
}

pub open spec fn spec_find_channel(s: StoreV, conversation: Uuid, peer: Key) -> int {
    find_first(s.channels, is_channel_for(conversation, peer))
}

pub open spec fn spec_find_channel_id(s: StoreV, id: i32) -> int {
    find_first(s.channels, is_channel_id(id))
}

/// The highest id the global sync log has handed out: the last row's id,
/// or zero when the log is empty.
pub open spec fn spec_current_sync_index(s: StoreV) -> i32 {
    if s.sync_log.len() == 0 {
        0i32
    } else {
        s.sync_log.last().id
    }
}

pub open spec fn contact_patch_fn() -> spec_fn(ContactV) -> PatchV {
    |c: ContactV| PatchV::Contact(c)
}

pub open spec fn member_patch_fn() -> spec_fn(Member) -> PatchV {
    |m: Member| PatchV::Member(m)
}

/// The wire form of a stored message's content.
pub open spec fn spec_content_patch(m: MessageRowV) -> PatchV {
    match m.attachment {
        Option::None => PatchV::NewTextMessage(
            crate::patch::NewTextMessageV {
                id: m.uuid,
                from: m.from,
                conversation: m.conversation,
                text: m.text,
                crdt: m.crdt,
            },
        ),
        Option::Some(att) => PatchV::NewAttachmentMessage(
            crate::patch::NewAttachmentMessageV {
                id: m.uuid,
                from: m.from,
                conversation: m.conversation,
                filename: m.text,
                attachment: att,
                crdt: m.crdt,
            },
        ),
    }
}

/// The status patch of a stored message.
pub open spec fn spec_status_patch(m: MessageRowV) -> PatchV {
    PatchV::MessageStatus(
        MessageStatus {
            id: m.uuid,
            conversation: m.conversation,
            status: m.status,
            crdt: m.status_crdt,
        },
    )
}

/// For each message of `conversation`, in table order, its content patch
/// followed by its status patch.
pub open spec fn message_pair_rows(ms: Seq<MessageRowV>, conversation: Uuid) -> Seq<PatchV>
    decreases ms.len(),
{
    if ms.len() == 0 {
        Seq::empty()
    } else {
        let rest = message_pair_rows(ms.drop_last(), conversation);
        if ms.last().conversation == conversation {
            rest + seq![spec_content_patch(ms.last()), spec_status_patch(ms.last())]
        } else {
            rest
        }
    }
}

/// The initial snapshot for a fresh channel of `conversation`: the
/// conversation patch, every contact, the conversation's members, and for
/// each of its messages the content and the status patch, in that order.
pub open spec fn spec_snapshot_patches(s: StoreV, conversation: Uuid) -> Seq<PatchV> {
    let ci = spec_find_conversation(s, conversation);
    seq![PatchV::Conversation(s.conversations[ci])] + s.contacts.map_values(contact_patch_fn())
        + s.members.filter(is_member_in(conversation)).map_values(member_patch_fn())
        + message_pair_rows(s.messages, conversation)
}

/// Enqueue `ps` into the initial-sync queue of `channel` under fresh,
/// consecutive ids.
pub open spec fn spec_enqueue_initial(s: StoreV, channel: i32, ps: Seq<PatchV>) -> StoreV {
    StoreV {
        initial_log: s.initial_log + Seq::new(
            ps.len(),
            |k: int| InitialSyncRowV { id: (s.next_initial_id + k) as i32, channel, payload: ps[k] },
        ),
        next_initial_id: (s.next_initial_id + ps.len()) as i32,
        ..s
    }
}

/// Create a channel `(conversation, peer)`: record the peer as a member,
/// add the cursor row starting at the current sync index, and enqueue the
/// initial snapshot. Creating an existing channel changes nothing beyond
/// the peer's placeholder contact.
pub open spec fn spec_create_channel(s: StoreV, conversation: Uuid, peer: Key) -> StoreV {
    let s1 = spec_ensure_contact(s, peer);
    if spec_find_channel(s1, conversation, peer) >= 0 {
        s1
    } else {
        let m = Member { key: peer, conversation, crdt: CrdtAddOnly(s.author) };
        let (s2, accepted) = spec_merge_member(s1, m);
        let s3 = if accepted is Some {
            spec_save_patch(s2, PatchV::Member(m))
        } else {
            s2
        };
        let ch = ChannelRow {
            id: s3.next_channel_id,
            conversation,
            peer,
            sync_index: spec_current_sync_index(s3),
        };
        let s4 = StoreV {
            channels: s3.channels.push(ch),
            next_channel_id: (s3.next_channel_id + 1) as i32,
            ..s3
        };
        spec_enqueue_initial(s4, ch.id, spec_snapshot_patches(s4, conversation))
    }
}

/// Remove the channel `(conversation, peer)` and its pending initial-sync
/// rows; accepted patches stay.
pub open spec fn spec_remove_channel(s: StoreV, conversation: Uuid, peer: Key) -> StoreV {
    let s1 = spec_ensure_contact(s, peer);
    let i = spec_find_channel(s1, conversation, peer);
    if i < 0 {
        s1
    } else {
        let id = s1.channels[i].id;
        StoreV {
            channels: s1.channels.remove(i),
            initial_log: s1.initial_log.filter(initial_not_for(id)),
            ..s1
        }
    }
}

/// Enqueueing a snapshot under fresh consecutive ids keeps the initial
/// queue ascending.
pub proof fn lemma_wf_enqueue_initial(s: StoreV, channel: i32, ps: Seq<PatchV>)
    requires
        wf_store(s),
        s.next_initial_id + ps.len() <= i32::MAX,
    ensures
        wf_store(spec_enqueue_initial(s, channel, ps)),
{
    let s2 = spec_enqueue_initial(s, channel, ps);
    assert forall|i: int, j: int|
        0 <= i < j < s2.initial_log.len() implies (#[trigger] s2.initial_log[i]).id < (
    #[trigger] s2.initial_log[j]).id by {
        if j >= s.initial_log.len() {
            assert(s2.initial_log[j].id == s.next_initial_id + (j - s.initial_log.len()));
            if i >= s.initial_log.len() {
                assert(s2.initial_log[i].id == s.next_initial_id + (i - s.initial_log.len()));
            } else {
                assert(s2.initial_log[i] == s.initial_log[i]);
            }
        } else {
            assert(s2.initial_log[i] == s.initial_log[i]);
            assert(s2.initial_log[j] == s.initial_log[j]);
        }
    }
    assert forall|i: int|
        0 <= i < s2.initial_log.len() implies (#[trigger] s2.initial_log[i]).id
        < s2.next_initial_id by {
        if i >= s.initial_log.len() {
            assert(s2.initial_log[i].id == s.next_initial_id + (i - s.initial_log.len()));
        } else {
            assert(s2.initial_log[i] == s.initial_log[i]);
        }
    }
}

/// Creating a channel keeps the invariant.
pub proof fn lemma_wf_create_channel(s: StoreV, conversation: Uuid, peer: Key)
    requires
        wf_store(s),
        s.next_channel_id < i32::MAX,
        s.next_sync_id < i32::MAX,
        s.next_initial_id + 4 + s.contacts.len() + s.members.len() + 2 * s.messages.len()
            <= i32::MAX,
    ensures
        wf_store(spec_create_channel(s, conversation, peer)),
{
    let s1 = spec_ensure_contact(s, peer);
    if spec_find_channel(s1, conversation, peer) >= 0 {
    } else {
        let m = Member { key: peer, conversation, crdt: CrdtAddOnly(s.author) };
        let (s2, accepted) = spec_merge_member(s1, m);
        let s3 = if accepted is Some {
            spec_save_patch(s2, PatchV::Member(m))
        } else {
            s2
        };
        assert(wf_store(s3));
        let ch = ChannelRow {
            id: s3.next_channel_id,
            conversation,
            peer,
            sync_index: spec_current_sync_index(s3),
        };
        let s4 = StoreV {
            channels: s3.channels.push(ch),
            next_channel_id: (s3.next_channel_id + 1) as i32,
            ..s3
        };
        assert(wf_store(s4));
        lemma_snapshot_len(s4, conversation);
        lemma_wf_enqueue_initial(s4, ch.id, spec_snapshot_patches(s4, conversation));
    }
}

/// Removing a channel keeps the invariant.
pub proof fn lemma_wf_remove_channel(s: StoreV, conversation: Uuid, peer: Key)
    requires
        wf_store(s),
    ensures
        wf_store(spec_remove_channel(s, conversation, peer)),
{
    let s1 = spec_ensure_contact(s, peer);
    let i = spec_find_channel(s1, conversation, peer);
    if i >= 0 {
        lemma_find_first(s1.channels, is_channel_for(conversation, peer));
        let id = s1.channels[i].id;
        crate::util::lemma_filter_ascending(
            s1.initial_log,
            initial_not_for(id),
            |r: InitialSyncRowV| r.id as int,
        );
        let s2 = spec_remove_channel(s, conversation, peer);
        s1.channels.remove_ensures(i);
        assert forall|k: int|
            0 <= k < s2.initial_log.len() implies (#[trigger] s2.initial_log[k]).id
            < s2.next_initial_id by {
            let kk = choose|kk: int|
                0 <= kk < s1.initial_log.len() && s2.initial_log[k] == s1.initial_log[kk];
            assert(s1.initial_log[kk].id < s1.next_initial_id);
        }
        assert forall|a: int, b: int|
            0 <= a < b < s2.channels.len() implies (#[trigger] s2.channels[a]).id != (
        #[trigger] s2.channels[b]).id by {
            assert(s2.channels[a] == if a < i {
                s1.channels[a]
            } else {
                s1.channels[a + 1]
            });
            assert(s2.channels[b] == if b < i {
                s1.channels[b]
            } else {
                s1.channels[b + 1]
            });
        }
        assert forall|a: int|
            0 <= a < s2.channels.len() implies (#[trigger] s2.channels[a]).id
            < s2.next_channel_id by {
            assert(s2.channels[a] == if a < i {
                s1.channels[a]
            } else {
                s1.channels[a + 1]
            });
        }
    }
}

/// An initial-sync row that does not belong to channel `id`.
pub open spec fn initial_not_for(id: i32) -> spec_fn(InitialSyncRowV) -> bool {
    |r: InitialSyncRowV| r.channel != id
}

/// A channel row that serves `conversation`.
pub open spec fn is_channel_in(conversation: Uuid) -> spec_fn(ChannelRow) -> bool {
    |c: ChannelRow| c.conversation == conversation
}

// ---------------------------------------------------------------------
// Executable store.
// ---------------------------------------------------------------------

impl Store {
    /// A fresh store for the local identity `key` writing as `author`;
    /// it starts with the local user's placeholder contact row.
    pub fn new(key: Key, author: Author) -> (r: Store)
        ensures
            r@ == (StoreV {
                local_key: key,
                author,
                contacts: seq![placeholder_contact(key)],
                conversations: Seq::<ConversationV>::empty(),
                members: Seq::<Member>::empty(),
                messages: Seq::<MessageRowV>::empty(),
                attachments: Seq::<AttachmentV>::empty(),
                channels: Seq::<ChannelRow>::empty(),
                sync_log: Seq::<SyncRowV>::empty(),
                initial_log: Seq::<InitialSyncRowV>::empty(),
                next_sync_id: 1i32,
                next_initial_id: 1i32,
                next_channel_id: 1i32,
            }),
    {
        let mut contacts: Vec<Contact> = Vec::new();
        contacts.push(Contact { key, name: String::new(), crdt: CrdtWritable::zero() });
        let r = Store {
            local_key: key,
            author,
            contacts,
            conversations: Vec::new(),
            members: Vec::new(),
            messages: Vec::new(),
            attachments: Vec::new(),
            channels: Vec::new(),
            sync_log: Vec::new(),
            initial_log: Vec::new(),
            next_sync_id: 1,
            next_initial_id: 1,
            next_channel_id: 1,
        };
        proof {
            assert(r.contacts.deep_view() =~= seq![placeholder_contact(key)]);
            assert(r.conversations.deep_view() =~= Seq::<ConversationV>::empty());
            assert(r.members.deep_view() =~= Seq::<Member>::empty());
            assert(r.messages.deep_view() =~= Seq::<MessageRowV>::empty());
            assert(r.attachments.deep_view() =~= Seq::<AttachmentV>::empty());
            assert(r.channels.deep_view() =~= Seq::<ChannelRow>::empty());
            assert(r.sync_log.deep_view() =~= Seq::<SyncRowV>::empty());
            assert(r.initial_log.deep_view() =~= Seq::<InitialSyncRowV>::empty());
        }
        r
    }

    /// Index of the contact row for `key`, if any.
    pub fn find_contact_idx(&self, key: Key) -> (r: Option<usize>)
        ensures
            match r {
                Option::Some(i) => spec_find_contact(self@, key) == i && i < self@.contacts.len(),
                Option::None => spec_find_contact(self@, key) == -1,
            },
    {
        let ghost p = is_contact_key(key);
        let n: usize = self.contacts.len();
        let mut i: usize = 0;
        while i < n
            invariant
                i <= n,
                n == self.contacts@.len(),
                forall|j: int| 0 <= j < i ==> !p(#[trigger] self.contacts.deep_view()[j]),
                p == is_contact_key(key),
            decreases n - i,
        {
            let c = &self.contacts[i];
            if c.key == key {
                proof {
                    assert(p(self.contacts.deep_view()[i as int]));
                    lemma_find_first_unique(self.contacts.deep_view(), p, i as int);
                }
                return Some(i);
            }
            proof {
                assert(!p(self.contacts.deep_view()[i as int]));
            }
            i = i + 1;
        }
        proof {
            lemma_find_first_none(self.contacts.deep_view(), p);
        }
        None
    }

    /// Get-or-create for contacts: afterwards the row exists; returns its index.
    pub fn ensure_contact_row(&mut self, key: Key) -> (r: usize)
        ensures
            final(self)@ == spec_ensure_contact(old(self)@, key),
            r == spec_find_contact(final(self)@, key),
            r < final(self)@.contacts.len(),
            final(self)@.contacts[r as int].key == key,
            final(self)@.contacts[r as int].crdt == spec_contact_stamp(old(self)@, key),
    {
        let found = self.find_contact_idx(key);
        match found {
            Some(i) => {
                proof {
                    lemma_find_first(self.contacts.deep_view(), is_contact_key(key));
                    assert(is_contact_key(key)(self.contacts.deep_view()[i as int]));
                }
                i
            },
            None => {
                let n = self.contacts.len();
                self.contacts.push(Contact { key, name: String::new(), crdt: CrdtWritable::zero() });
                proof {
                    assert(self.contacts.deep_view() =~= old(self).contacts.deep_view().push(
                        placeholder_contact(key),
                    ));
                    lemma_find_first(old(self).contacts.deep_view(), is_contact_key(key));
                    assert(is_contact_key(key)(self.contacts.deep_view()[n as int]));
                    assert(forall|j: int|
                        0 <= j < n ==> self.contacts.deep_view()[j] == old(
                            self,
                        ).contacts.deep_view()[j]);
                    lemma_find_first_unique(self.contacts.deep_view(), is_contact_key(key), n as int);
                }
                n
            },
        }
    }

    /// Index of the conversation row for `id`, if any.
    pub fn find_conversation_idx(&self, id: Uuid) -> (r: Option<usize>)
        ensures
            match r {
                Option::Some(i) => spec_find_conversation(self@, id) == i && i
                    < self@.conversations.len(),
                Option::None => spec_find_conversation(self@, id) == -1,
            },
    {
        let ghost p = is_conversation_id(id);
        let n: usize = self.conversations.len();
        let mut i: usize = 0;
        while i < n
            invariant
                i <= n,
                n == self.conversations@.len(),
                forall|j: int| 0 <= j < i ==> !p(#[trigger] self.conversations.deep_view()[j]),
                p == is_conversation_id(id),
            decreases n - i,
        {
            let c = &self.conversations[i];
            if c.id == id {
                proof {
                    assert(p(self.conversations.deep_view()[i as int]));
                    lemma_find_first_unique(self.conversations.deep_view(), p, i as int);
                }
                return Some(i);
            }
            proof {
                assert(!p(self.conversations.deep_view()[i as int]));
            }
            i = i + 1;
        }
        proof {
            lemma_find_first_none(self.conversations.deep_view(), p);
        }
        None
    }

    /// Get-or-create for conversations: afterwards the row exists; returns
    /// its index.
    pub fn ensure_conversation_row(&mut self, id: Uuid) -> (r: usize)
        ensures
            final(self)@ == spec_ensure_conversation(old(self)@, id),
            r == spec_find_conversation(final(self)@, id),
            r < final(self)@.conversations.len(),
            final(self)@.conversations[r as int].id == id,
            final(self)@.conversations[r as int].crdt == spec_conversation_stamp(old(self)@, id),
    {
        let found = self.find_conversation_idx(id);
        match found {
            Some(i) => {
                proof {
                    lemma_find_first(self.conversations.deep_view(), is_conversation_id(id));
                    assert(is_conversation_id(id)(self.conversations.deep_view()[i as int]));
                }
                i
            },
            None => {
                let n = self.conversations.len();
                self.conversations.push(
                    Conversation { id, title: None, crdt: CrdtWritable::zero() },
                );
                proof {
                    assert(self.conversations.deep_view() =~= old(
                        self,
                    ).conversations.deep_view().push(placeholder_conversation(id)));
                    lemma_find_first(old(self).conversations.deep_view(), is_conversation_id(id));
                    assert(is_conversation_id(id)(self.conversations.deep_view()[n as int]));
                    assert(forall|j: int|
                        0 <= j < n ==> self.conversations.deep_view()[j] == old(
                            self,
                        ).conversations.deep_view()[j]);
                    lemma_find_first_unique(
                        self.conversations.deep_view(),
                        is_conversation_id(id),
                        n as int,
                    );
                }
                n
            },
        }
    }

    /// Index of the membership row for `(key, conversation)`, if any.
    pub fn find_member_idx(&self, key: Key, conversation: Uuid) -> (r: Option<usize>)
        ensures
            match r {
                Option::Some(i) => spec_find_member(self@, key, conversation) == i && i
                    < self@.members.len(),
                Option::None => spec_find_member(self@, key, conversation) == -1,
            },
    {
        let ghost p = is_member_of(key, conversation);
        let n: usize = self.members.len();
        let mut i: usize = 0;
        while i < n
            invariant
                i <= n,
                n == self.members@.len(),
                forall|j: int| 0 <= j < i ==> !p(#[trigger] self.members.deep_view()[j]),
                p == is_member_of(key, conversation),
            decreases n - i,
        {
            let m = &self.members[i];
            if m.key == key && m.conversation == conversation {
                proof {
                    assert(p(self.members.deep_view()[i as int]));
                    lemma_find_first_unique(self.members.deep_view(), p, i as int);
                }
                return Some(i);
            }
            proof {
                assert(!p(self.members.deep_view()[i as int]));
            }
            i = i + 1;
        }
        proof {
            lemma_find_first_none(self.members.deep_view(), p);
        }
        None
    }

    /// Index of the message row for `id`, if any.
    pub fn find_message_idx(&self, id: Uuid) -> (r: Option<usize>)
        ensures
            match r {
                Option::Some(i) => spec_find_message(self@, id) == i && i < self@.messages.len(),
                Option::None => spec_find_message(self@, id) == -1,
            },
    {
        let ghost p = is_message_id(id);
        let n: usize = self.messages.len();
        let mut i: usize = 0;
        while i < n
            invariant
                i <= n,
                n == self.messages@.len(),
                forall|j: int| 0 <= j < i ==> !p(#[trigger] self.messages.deep_view()[j]),
                p == is_message_id(id),
            decreases n - i,
        {
            let m = &self.messages[i];
            if m.uuid == id {
                proof {
                    assert(p(self.messages.deep_view()[i as int]));
                    lemma_find_first_unique(self.messages.deep_view(), p, i as int);
                }
                return Some(i);
            }
            proof {
                assert(!p(self.messages.deep_view()[i as int]));
            }
            i = i + 1;
        }
        proof {
            lemma_find_first_none(self.messages.deep_view(), p);
        }
        None
    }

    /// Index of the attachment row for `id`, if any.
    pub fn find_attachment_idx(&self, id: Uuid) -> (r: Option<usize>)
        ensures
            match r {
                Option::Some(i) => spec_find_attachment(self@, id) == i && i
                    < self@.attachments.len(),
                Option::None => spec_find_attachment(self@, id) == -1,
            },
    {
        let ghost p = is_attachment_id(id);
        let n: usize = self.attachments.len();
        let mut i: usize = 0;
        while i < n
            invariant
                i <= n,
                n == self.attachments@.len(),
                forall|j: int| 0 <= j < i ==> !p(#[trigger] self.attachments.deep_view()[j]),
                p == is_attachment_id(id),
            decreases n - i,
        {
            let a = &self.attachments[i];
            if a.id == id {
                proof {
                    assert(p(self.attachments.deep_view()[i as int]));
                    lemma_find_first_unique(self.attachments.deep_view(), p, i as int);
                }
                return Some(i);
            }
            proof {
                assert(!p(self.attachments.deep_view()[i as int]));
            }
            i = i + 1;
        }
        proof {
            lemma_find_first_none(self.attachments.deep_view(), p);
        }
        None
    }

    /// Merge an inbound contact patch.
    pub fn merge_contact(&mut self, c: Contact) -> (r: Option<Contact>)
        ensures
            (final(self)@, view_opt(r)) == spec_merge_contact(old(self)@, c@),
    {
        let found = self.find_contact_idx(c.key);
        match found {
            None => {
                let row = Contact { key: c.key, name: c.name.clone(), crdt: c.crdt };
                self.contacts.push(row);
                proof {
                    assert(self.contacts.deep_view() =~= old(self)@.contacts.push(c@));
                }
                Some(c)
            },
            Some(i) => {
                if (&self.contacts[i]).crdt.lt(&c.crdt) {
                    let updated = Contact { key: c.key, name: c.name.clone(), crdt: c.crdt };
                    self.contacts.set(i, updated);
                    proof {
                        assert(self.contacts.deep_view() =~= old(self)@.contacts.update(
                            i as int,
                            c@,
                        ));
                    }
                    Some(c)
                } else {
                    None
                }
            },
        }
    }

    /// Merge an inbound conversation patch.
    pub fn merge_conversation(&mut self, c: Conversation) -> (r: Option<Conversation>)
        ensures
            (final(self)@, view_opt(r)) == spec_merge_conversation(old(self)@, c@),
    {
        let found = self.find_conversation_idx(c.id);
        match found {
            None => {
                let row = Conversation { id: c.id, title: clone_opt_string(&c.title), crdt: c.crdt };
                self.conversations.push(row);
                proof {
                    assert(self.conversations.deep_view() =~= old(self)@.conversations.push(c@));
                }
                Some(c)
            },
            Some(i) => {
                if (&self.conversations[i]).crdt.lt(&c.crdt) {
                    let updated = Conversation {
                        id: c.id,
                        title: clone_opt_string(&c.title),
                        crdt: c.crdt,
                    };
                    self.conversations.set(i, updated);
                    proof {
                        assert(self.conversations.deep_view() =~= old(self)@.conversations.update(
                            i as int,
                            c@,
                        ));
                    }
                    Some(c)
                } else {
                    None
                }
            },
        }
    }

    /// Merge an inbound membership patch.
    pub fn merge_member(&mut self, m: Member) -> (r: Option<Member>)
        ensures
            (final(self)@, view_opt(r)) == spec_merge_member(old(self)@, m),
    {
        self.ensure_contact_row(m.key);
        self.ensure_conversation_row(m.conversation);
        let found = self.find_member_idx(m.key, m.conversation);
        match found {
            Some(_) => None,
            None => {
                self.members.push(m);
                proof {
                    assert(self.members.deep_view() =~= spec_merge_member(
                        old(self)@,
                        m,
                    ).0.members);
                }
                Some(m)
            },
        }
    }

    /// Merge an inbound message patch through the internal message form.
    pub fn merge_new_message(&mut self, m: NewMessage) -> (r: Option<NewMessage>)
        ensures
            (final(self)@, view_opt(r)) == spec_merge_message(old(self)@, m@),
    {
        let found = self.find_message_idx(m.id);
        match found {
            None => {
                self.ensure_contact_row(m.from);
                self.ensure_conversation_row(m.conversation);
                let row = MessageRow {
                    uuid: m.id,
                    from: m.from,
                    conversation: m.conversation,
                    text: m.text.clone(),
                    attachment: m.attachment,
                    status: 0,
                    crdt: m.crdt,
                    status_crdt: CrdtWritable::zero(),
                };
                self.messages.push(row);
                proof {
                    assert(self.messages.deep_view() =~= spec_merge_message(
                        old(self)@,
                        m@,
                    ).0.messages);
                }
                Some(m)
            },
            Some(i) => {
                let accept = (&self.messages[i]).crdt.lt(&m.crdt);
                if accept {
                    self.ensure_contact_row(m.from);
                    self.ensure_conversation_row(m.conversation);
                    let status = (&self.messages[i]).status;
                    let status_crdt = (&self.messages[i]).status_crdt;
                    let row = MessageRow {
                        uuid: m.id,
                        from: m.from,
                        conversation: m.conversation,
                        text: m.text.clone(),
                        attachment: m.attachment,
                        status,
                        crdt: m.crdt,
                        status_crdt,
                    };
                    self.messages.set(i, row);
                    proof {
                        assert(self.messages.deep_view() =~= spec_merge_message(
                            old(self)@,
                            m@,
                        ).0.messages);
                    }
                    Some(m)
                } else {
                    None
                }
            },
        }
    }

    /// Merge an inbound status patch.
    pub fn merge_message_status(&mut self, st: MessageStatus) -> (r: Option<MessageStatus>)
        ensures
            (final(self)@, view_opt(r)) == spec_merge_status(old(self)@, st),
    {
        let found = self.find_message_idx(st.id);
        match found {
            None => {
                self.ensure_contact_row(Key::zero());
                self.ensure_conversation_row(st.conversation);
                let row = MessageRow {
                    uuid: st.id,
                    from: Key::zero(),
                    conversation: st.conversation,
                    text: String::new(),
                    attachment: None,
                    status: st.status,
                    crdt: CrdtWritableSequence::zero(),
                    status_crdt: st.crdt,
                };
                self.messages.push(row);
                proof {
                    assert(self.messages.deep_view() =~= spec_merge_status(
                        old(self)@,
                        st,
                    ).0.messages);
                }
                Some(st)
            },
            Some(i) => {
                let accept = (&self.messages[i]).status_crdt.lt(&st.crdt);
                if accept {
                    let stored = &self.messages[i];
                    let row = MessageRow {
                        uuid: stored.uuid,
                        from: stored.from,
                        conversation: stored.conversation,
                        text: stored.text.clone(),
                        attachment: stored.attachment,
                        status: st.status,
                        crdt: stored.crdt,
                        status_crdt: st.crdt,
                    };
                    self.messages.set(i, row);
                    proof {
                        assert(self.messages.deep_view() =~= spec_merge_status(
                            old(self)@,
                            st,
                        ).0.messages);
                    }
                    Some(st)
                } else {
                    None
                }
            },
        }
    }

    /// Merge an inbound attachment patch.
    pub fn merge_attachment(&mut self, a: Attachment) -> (r: Option<Attachment>)
        ensures
            (final(self)@, view_opt(r)) == spec_merge_attachment(old(self)@, a@),
    {
        let found = self.find_attachment_idx(a.id);
        match found {
            Some(_) => None,
            None => {
                self.ensure_conversation_row(a.conversation);
                let row = Attachment {
                    id: a.id,
                    conversation: a.conversation,
                    payload: clone_opt_bytes(&a.payload),
                    crdt: a.crdt,
                };
                self.attachments.push(row);
                proof {
                    assert(self.attachments.deep_view() =~= spec_merge_attachment(
                        old(self)@,
                        a@,
                    ).0.attachments);
                }
                Some(a)
            },
        }
    }
}

/// A message as surfaced to the user layer.
#[derive(Clone, Debug, PartialEq, Eq)]
pub struct Message {
    pub uuid: Uuid,
    pub from: Key,
    pub conversation: Uuid,
    pub content: String,
    pub status: i32,
}

/// Mathematical image of a surfaced message.
pub struct MessageV {
    pub uuid: Uuid,
    pub from: Key,
    pub conversation: Uuid,
    pub content: Seq<char>,
    pub status: i32,
}

impl View for Message {
    type V = MessageV;

    open spec fn view(&self) -> MessageV {
        MessageV {
            uuid: self.uuid,
            from: self.from,
            conversation: self.conversation,
            content: self.content@,
            status: self.status,
        }
    }
}

impl DeepView for Message {
    type V = MessageV;

    open spec fn deep_view(&self) -> MessageV {
        self@
    }
}

/// The surfaced form of a stored message row.
pub open spec fn spec_message_of_row(m: MessageRowV) -> MessageV {
    MessageV {
        uuid: m.uuid,
        from: m.from,
        conversation: m.conversation,
        content: m.text,
        status: m.status,
    }
}

/// The row-to-message map as a function value, shared by contracts and
/// proofs so both speak of one term.
pub open spec fn message_of_row_fn() -> spec_fn(MessageRowV) -> MessageV {
    |m: MessageRowV| spec_message_of_row(m)
}

/// A row is new when it was not written by `me` and still reads `Sent`.
pub open spec fn is_new_message(me: Key) -> spec_fn(MessageRowV) -> bool {
    |m: MessageRowV| m.from != me && m.status == 0
}

/// A row belongs to conversation `c`.
pub open spec fn is_message_in(c: Uuid) -> spec_fn(MessageRowV) -> bool {
    |m: MessageRowV| m.conversation == c
}

impl Store {
    /// A local write of a contact: assign the successor stamp and store it.
    pub fn add_contact(&mut self, c: Contact) -> (r: Contact)
        requires
            spec_contact_stamp(old(self)@, c.key).generation < i32::MAX,
        ensures
            (final(self)@, r@) == spec_add_contact(old(self)@, old(self)@.author, c@.key, c@.name),
    {
        let i = self.ensure_contact_row(c.key);
        let crdt = (&self.contacts[i]).crdt.next(self.author);
        let updated = Contact { key: c.key, name: c.name, crdt };
        let ret = Contact { key: updated.key, name: updated.name.clone(), crdt };
        self.contacts.set(i, updated);
        proof {
            assert(self.contacts.deep_view() =~= spec_add_contact(
                old(self)@,
                old(self)@.author,
                c@.key,
                c@.name,
            ).0.contacts);
        }
        ret
    }

    /// A local write of a conversation, as for contacts.
    pub fn add_conversation(&mut self, c: Conversation) -> (r: Conversation)
        requires
            spec_conversation_stamp(old(self)@, c.id).generation < i32::MAX,
        ensures
            (final(self)@, r@) == spec_add_conversation(
                old(self)@,
                old(self)@.author,
                c@.id,
                c@.title,
            ),
    {
        let i = self.ensure_conversation_row(c.id);
        let crdt = (&self.conversations[i]).crdt.next(self.author);
        let updated = Conversation { id: c.id, title: c.title, crdt };
        let ret = Conversation { id: updated.id, title: clone_opt_string(&updated.title), crdt };
        self.conversations.set(i, updated);
        proof {
            assert(self.conversations.deep_view() =~= spec_add_conversation(
                old(self)@,
                old(self)@.author,
                c@.id,
                c@.title,
            ).0.conversations);
        }
        ret
    }

    /// The greatest sequence number among the messages of `conversation`.
    pub fn last_sequence(&self, conversation: Uuid) -> (r: Option<i32>)
        ensures
            r == spec_last_seq(self@.messages, conversation),
    {
        let n: usize = self.messages.len();
        let mut best: Option<i32> = None;
        let mut i: usize = 0;
        while i < n
            invariant
                i <= n,
                n == self.messages@.len(),
                best == spec_last_seq(self.messages.deep_view().subrange(0, i as int), conversation),
            decreases n - i,
        {
            let m = &self.messages[i];
            proof {
                assert(self.messages.deep_view().subrange(0, i + 1).drop_last()
                    =~= self.messages.deep_view().subrange(0, i as int));
                assert(self.messages.deep_view().subrange(0, i + 1).last()
                    == self.messages.deep_view()[i as int]);
            }
            if m.conversation == conversation {
                best = match best {
                    None => Some(m.crdt.sequence),
                    Some(b) => if m.crdt.sequence > b {
                        Some(m.crdt.sequence)
                    } else {
                        Some(b)
                    },
                };
            }
            i = i + 1;
        }
        proof {
            assert(self.messages.deep_view().subrange(0, n as int) =~= self.messages.deep_view());
        }
        best
    }

    /// A local push of a message: assign stamp and sequence, store the row.
    pub fn push_message(&mut self, m: NewMessage) -> (r: NewMessage)
        requires
            spec_message_stamp(old(self)@, m.id).writable.generation < i32::MAX,
            spec_last_seq(old(self)@.messages, m.conversation) matches Some(b) ==> b < i32::MAX,
        ensures
            (final(self)@, r@) == spec_push_message(old(self)@, old(self)@.author, m@),
    {
        let found = self.find_message_idx(m.id);
        let base = match found {
            Some(i) => (&self.messages[i]).crdt,
            None => CrdtWritableSequence::zero(),
        };
        let seqno: i32 = match self.last_sequence(m.conversation) {
            None => 1,
            Some(b) => b + 1,
        };
        let crdt = CrdtWritableSequence { writable: base.writable.next(self.author), sequence: seqno };
        let m2 = NewMessage {
            id: m.id,
            from: m.from,
            conversation: m.conversation,
            text: m.text,
            attachment: m.attachment,
            crdt,
        };
        let ret = NewMessage {
            id: m2.id,
            from: m2.from,
            conversation: m2.conversation,
            text: m2.text.clone(),
            attachment: m2.attachment,
            crdt,
        };
        self.ensure_contact_row(m2.from);
        self.ensure_conversation_row(m2.conversation);
        match found {
            Some(i) => {
                let status = (&self.messages[i]).status;
                let status_crdt = (&self.messages[i]).status_crdt;
                let row = MessageRow {
                    uuid: m2.id,
                    from: m2.from,
                    conversation: m2.conversation,
                    text: m2.text,
                    attachment: m2.attachment,
                    status,
                    crdt,
                    status_crdt,
                };
                self.messages.set(i, row);
                proof {
                    assert(self.messages.deep_view() =~= spec_push_message(
                        old(self)@,
                        old(self)@.author,
                        m@,
                    ).0.messages);
                }
            },
            None => {
                let row = MessageRow {
                    uuid: m2.id,
                    from: m2.from,
                    conversation: m2.conversation,
                    text: m2.text,
                    attachment: m2.attachment,
                    status: 0,
                    crdt,
                    status_crdt: CrdtWritable::zero(),
                };
                self.messages.push(row);
                proof {
                    assert(self.messages.deep_view() =~= spec_push_message(
                        old(self)@,
                        old(self)@.author,
                        m@,
                    ).0.messages);
                }
            },
        }
        ret
    }

    /// A local write of a message's status: assign the successor status
    /// stamp and store it.
    pub fn set_status(&mut self, id: Uuid, conversation: Uuid, status: i32) -> (r: MessageStatus)
        requires
            spec_status_stamp(old(self)@, id).generation < i32::MAX,
        ensures
            (final(self)@, r) == spec_set_status(
                old(self)@,
                old(self)@.author,
                id,
                conversation,
                status,
            ),
    {
        let found = self.find_message_idx(id);
        match found {
            Some(i) => {
                let base = (&self.messages[i]).status_crdt;
                let st = MessageStatus { id, conversation, status, crdt: base.next(self.author) };
                let stored = &self.messages[i];
                let row = MessageRow {
                    uuid: stored.uuid,
                    from: stored.from,
                    conversation: stored.conversation,
                    text: stored.text.clone(),
                    attachment: stored.attachment,
                    status: st.status,
                    crdt: stored.crdt,
                    status_crdt: st.crdt,
                };
                self.messages.set(i, row);
                proof {
                    assert(self.messages.deep_view() =~= spec_set_status(
                        old(self)@,
                        old(self)@.author,
                        id,
                        conversation,
                        status,
                    ).0.messages);
                }
                st
            },
            None => {
                let st = MessageStatus {
                    id,
                    conversation,
                    status,
                    crdt: CrdtWritable::zero().next(self.author),
                };
                self.ensure_contact_row(Key::zero());
                self.ensure_conversation_row(conversation);
                let row = MessageRow {
                    uuid: st.id,
                    from: Key::zero(),
                    conversation: st.conversation,
                    text: String::new(),
                    attachment: None,
                    status: st.status,
                    crdt: CrdtWritableSequence::zero(),
                    status_crdt: st.crdt,
                };
                self.messages.push(row);
                proof {
                    assert(self.messages.deep_view() =~= spec_set_status(
                        old(self)@,
                        old(self)@.author,
                        id,
                        conversation,
                        status,
                    ).0.messages);
                }
                st
            },
        }
    }

    /// Append a locally accepted patch to the global sync log.
    pub fn save_patch(&mut self, p: Patch)
        requires
            old(self)@.next_sync_id < i32::MAX,
        ensures
            final(self)@ == spec_save_patch(old(self)@, p@),
    {
        let id = self.next_sync_id;
        self.sync_log.push(SyncRow { id, payload: p });
        self.next_sync_id = self.next_sync_id + 1;
        proof {
            assert(self.sync_log.deep_view() =~= spec_save_patch(old(self)@, p@).sync_log);
        }
    }

    /// The contact stored for `key`, if any.
    pub fn get_contact(&self, key: Key) -> (r: Option<Contact>)
        ensures
            view_opt(r) == {
                let i = spec_find_contact(self@, key);
                if i >= 0 {
                    Option::Some(self@.contacts[i])
                } else {
                    Option::<ContactV>::None
                }
            },
    {
        let found = self.find_contact_idx(key);
        match found {
            Some(i) => {
                let c = &self.contacts[i];
                Some(Contact { key: c.key, name: c.name.clone(), crdt: c.crdt })
            },
            None => None,
        }
    }

    /// The messages not authored locally whose status still reads `Sent`.
    pub fn new_messages(&self) -> (r: Vec<Message>)
        ensures
            r.deep_view() == self@.messages.filter(is_new_message(self@.local_key)).map_values(
                message_of_row_fn(),
            ),
    {
        let ghost p = is_new_message(self@.local_key);
        let n: usize = self.messages.len();
        let mut out: Vec<Message> = Vec::new();
        let mut i: usize = 0;
        while i < n
            invariant
                i <= n,
                n == self.messages@.len(),
                p == is_new_message(self@.local_key),
                out.deep_view() == self.messages.deep_view().subrange(0, i as int).filter(
                    p,
                ).map_values(message_of_row_fn()),
            decreases n - i,
        {
            let ghost prefix = self.messages.deep_view().subrange(0, i as int);
            let ghost prefix1 = self.messages.deep_view().subrange(0, i + 1);
            proof {
                reveal(Seq::filter);
                assert(prefix1.drop_last() =~= prefix);
                assert(prefix1.last() == self.messages.deep_view()[i as int]);
            }
            let m = &self.messages[i];
            if !(m.from == self.local_key) && m.status == 0 {
                let picked = Message {
                    uuid: m.uuid,
                    from: m.from,
                    conversation: m.conversation,
                    content: m.text.clone(),
                    status: m.status,
                };
                let ghost prev_deep = out.deep_view();
                out.push(picked);
                proof {
                    assert(p(self.messages.deep_view()[i as int]));
                    assert(prefix1.filter(p) =~= prefix.filter(p).push(
                        self.messages.deep_view()[i as int],
                    ));
                    assert(message_of_row_fn()(self.messages.deep_view()[i as int]) == picked@);
                    assert(out.deep_view() =~= prev_deep.push(picked@));
                    assert(prefix1.filter(p).map_values(message_of_row_fn()) =~= prefix.filter(
                        p,
                    ).map_values(message_of_row_fn()).push(picked@));
                    assert(out.deep_view() =~= prefix1.filter(p).map_values(message_of_row_fn()));
                }
            } else {
                proof {
                    assert(!p(self.messages.deep_view()[i as int]));
                    assert(prefix1.filter(p) =~= prefix.filter(p));
                }
            }
            i = i + 1;
        }
        proof {
            assert(self.messages.deep_view().subrange(0, n as int) =~= self.messages.deep_view());
        }
        out
    }
}

impl Store {
    /// Index of the channel row for `(conversation, peer)`, if any.
    pub fn find_channel_idx(&self, conversation: Uuid, peer: Key) -> (r: Option<usize>)
        ensures
            match r {
                Option::Some(i) => spec_find_channel(self@, conversation, peer) == i && i
                    < self@.channels.len(),
                Option::None => spec_find_channel(self@, conversation, peer) == -1,
            },
    {
        let ghost p = is_channel_for(conversation, peer);
        let n: usize = self.channels.len();
        let mut i: usize = 0;
        while i < n
            invariant
                i <= n,
                n == self.channels@.len(),
                forall|j: int| 0 <= j < i ==> !p(#[trigger] self.channels.deep_view()[j]),
                p == is_channel_for(conversation, peer),
            decreases n - i,
        {
            let c = &self.channels[i];
            if c.conversation == conversation && c.peer == peer {
                proof {
                    assert(p(self.channels.deep_view()[i as int]));
                    lemma_find_first_unique(self.channels.deep_view(), p, i as int);
                }
                return Some(i);
            }
            proof {
                assert(!p(self.channels.deep_view()[i as int]));
            }
            i = i + 1;
        }
        proof {
            lemma_find_first_none(self.channels.deep_view(), p);
        }
        None
    }

    /// The highest id the global sync log has handed out.
    pub fn current_sync_index(&self) -> (r: i32)
        ensures
            r == spec_current_sync_index(self@),
    {
        let n: usize = self.sync_log.len();
        if n == 0 {
            0
        } else {
            (&self.sync_log[n - 1]).id
        }
    }

    /// Enqueue one patch into the initial-sync queue of `channel`.
    pub fn push_initial(&mut self, channel: i32, p: Patch)
        requires
            old(self)@.next_initial_id < i32::MAX,
        ensures
            final(self)@ == (StoreV {
                initial_log: old(self)@.initial_log.push(
                    InitialSyncRowV {
                        id: old(self)@.next_initial_id,
                        channel,
                        payload: p@,
                    },
                ),
                next_initial_id: (old(self)@.next_initial_id + 1) as i32,
                ..old(self)@
            }),
    {
        let id = self.next_initial_id;
        self.initial_log.push(InitialSyncRow { id, channel, payload: p });
        self.next_initial_id = self.next_initial_id + 1;
        proof {
            assert(self.initial_log.deep_view() =~= old(self)@.initial_log.push(
                InitialSyncRowV { id: old(self)@.next_initial_id, channel, payload: p@ },
            ));
        }
    }

    /// The initial snapshot of `conversation` as a patch list.
    pub fn snapshot_patches(&self, conversation: Uuid) -> (r: Vec<Patch>)
        requires
            spec_find_conversation(self@, conversation) >= 0,
        ensures
            r.deep_view() == spec_snapshot_patches(self@, conversation),
    {
        let mut out: Vec<Patch> = Vec::new();

        let ci = match self.find_conversation_idx(conversation) {
            Some(ci) => ci,
            None => {
                proof {
                    assert(false);
                }
                0
            },
        };
        let conv = &self.conversations[ci];
        let ghost seg0: Seq<PatchV> = seq![PatchV::Conversation(self@.conversations[ci as int])];
        let ghost prev_deep = out.deep_view();
        out.push(
            Patch::Conversation(
                Conversation { id: conv.id, title: clone_opt_string(&conv.title), crdt: conv.crdt },
            ),
        );
        proof {
            assert(out.deep_view() =~= seg0);
        }

        let n: usize = self.contacts.len();
        let mut i: usize = 0;
        while i < n
            invariant
                i <= n,
                n == self.contacts@.len(),
                out.deep_view() == seg0 + self.contacts.deep_view().subrange(0, i as int).map_values(
                    contact_patch_fn(),
                ),
                seg0 =~= seq![
                    PatchV::Conversation(
                        self@.conversations[spec_find_conversation(self@, conversation)],
                    ),
                ],
            decreases n - i,
        {
            let c = &self.contacts[i];
            let ghost prev_deep = out.deep_view();
            out.push(Patch::Contact(Contact { key: c.key, name: c.name.clone(), crdt: c.crdt }));
            proof {
                assert(out.deep_view() =~= prev_deep.push(
                    contact_patch_fn()(self.contacts.deep_view()[i as int]),
                ));
                assert(self.contacts.deep_view().subrange(0, i + 1)
                    =~= self.contacts.deep_view().subrange(0, i as int).push(
                    self.contacts.deep_view()[i as int],
                ));
                assert(self.contacts.deep_view().subrange(0, i + 1).map_values(contact_patch_fn())
                    =~= self.contacts.deep_view().subrange(0, i as int).map_values(
                    contact_patch_fn(),
                ).push(contact_patch_fn()(self.contacts.deep_view()[i as int])));
                assert(out.deep_view() =~= seg0 + self.contacts.deep_view().subrange(
                    0,
                    i + 1,
                ).map_values(contact_patch_fn()));
            }
            i = i + 1;
        }
        proof {
            assert(self.contacts.deep_view().subrange(0, n as int) =~= self.contacts.deep_view());
        }
        let ghost seg1: Seq<PatchV> = seg0 + self@.contacts.map_values(contact_patch_fn());

        let ghost q = is_member_in(conversation);
        let nm: usize = self.members.len();
        let mut i: usize = 0;
        while i < nm
            invariant
                i <= nm,
                nm == self.members@.len(),
                out.deep_view() == seg1 + self.members.deep_view().subrange(0, i as int).filter(
                    q,
                ).map_values(member_patch_fn()),
                q == is_member_in(conversation),
                seg1 == seq![
                    PatchV::Conversation(
                        self@.conversations[spec_find_conversation(self@, conversation)],
                    ),
                ] + self@.contacts.map_values(contact_patch_fn()),
            decreases nm - i,
        {
            let ghost prefix = self.members.deep_view().subrange(0, i as int);
            let ghost prefix1 = self.members.deep_view().subrange(0, i + 1);
            proof {
                reveal(Seq::filter);
                assert(prefix1.drop_last() =~= prefix);
                assert(prefix1.last() == self.members.deep_view()[i as int]);
            }
            let m = &self.members[i];
            if m.conversation == conversation {
                let ghost prev_deep = out.deep_view();
                out.push(Patch::Member(*m));
                proof {
                    assert(q(self.members.deep_view()[i as int]));
                    assert(prefix1.filter(q) =~= prefix.filter(q).push(
                        self.members.deep_view()[i as int],
                    ));
                    assert(out.deep_view() =~= prev_deep.push(
                        member_patch_fn()(self.members.deep_view()[i as int]),
                    ));
                    assert(prefix1.filter(q).map_values(member_patch_fn()) =~= prefix.filter(
                        q,
                    ).map_values(member_patch_fn()).push(
                        member_patch_fn()(self.members.deep_view()[i as int]),
                    ));
                    assert(out.deep_view() =~= seg1 + prefix1.filter(q).map_values(
                        member_patch_fn(),
                    ));
                }
            } else {
                proof {
                    assert(!q(self.members.deep_view()[i as int]));
                    assert(prefix1.filter(q) =~= prefix.filter(q));
                }
            }
            i = i + 1;
        }
        proof {
            assert(self.members.deep_view().subrange(0, nm as int) =~= self.members.deep_view());
        }
        let ghost seg2: Seq<PatchV> = seg1 + self@.members.filter(is_member_in(conversation)).map_values(
            member_patch_fn(),
        );

        let nq: usize = self.messages.len();
        let mut i: usize = 0;
        while i < nq
            invariant
                i <= nq,
                nq == self.messages@.len(),
                out.deep_view() == seg2 + message_pair_rows(
                    self.messages.deep_view().subrange(0, i as int),
                    conversation,
                ),
                seg2 == seq![
                    PatchV::Conversation(
                        self@.conversations[spec_find_conversation(self@, conversation)],
                    ),
                ] + self@.contacts.map_values(contact_patch_fn()) + self@.members.filter(
                    is_member_in(conversation),
                ).map_values(member_patch_fn()),
            decreases nq - i,
        {
            let ghost prefix = self.messages.deep_view().subrange(0, i as int);
            let ghost prefix1 = self.messages.deep_view().subrange(0, i + 1);
            proof {
                assert(prefix1.drop_last() =~= prefix);
                assert(prefix1.last() == self.messages.deep_view()[i as int]);
            }
            let m = &self.messages[i];
            if m.conversation == conversation {
                let content = match m.attachment {
                    None => Patch::NewTextMessage(
                        NewTextMessage {
                            id: m.uuid,
                            from: m.from,
                            conversation: m.conversation,
                            text: m.text.clone(),
                            crdt: m.crdt,
                        },
                    ),
                    Some(att) => Patch::NewAttachmentMessage(
                        NewAttachmentMessage {
                            id: m.uuid,
                            from: m.from,
                            conversation: m.conversation,
                            filename: m.text.clone(),
                            attachment: att,
                            crdt: m.crdt,
                        },
                    ),
                };
                let status = Patch::MessageStatus(
                    MessageStatus {
                        id: m.uuid,
                        conversation: m.conversation,
                        status: m.status,
                        crdt: m.status_crdt,
                    },
                );
                let ghost prev_deep = out.deep_view();
                out.push(content);
                proof {
                    assert(out.deep_view() =~= prev_deep.push(
                        spec_content_patch(self.messages.deep_view()[i as int]),
                    ));
                }
                let ghost prev_deep2 = out.deep_view();
                out.push(status);
                proof {
                    assert(out.deep_view() =~= prev_deep2.push(
                        spec_status_patch(self.messages.deep_view()[i as int]),
                    ));
                    assert(message_pair_rows(prefix1, conversation) =~= message_pair_rows(
                        prefix,
                        conversation,
                    ) + seq![
                        spec_content_patch(self.messages.deep_view()[i as int]),
                        spec_status_patch(self.messages.deep_view()[i as int]),
                    ]);
                    assert(out.deep_view() =~= seg2 + message_pair_rows(prefix1, conversation));
                }
            } else {
                proof {
                    assert(message_pair_rows(prefix1, conversation) =~= message_pair_rows(
                        prefix,
                        conversation,
                    ));
                }
            }
            i = i + 1;
        }
        proof {
            assert(self.messages.deep_view().subrange(0, nq as int) =~= self.messages.deep_view());
            assert(out.deep_view() =~= spec_snapshot_patches(self@, conversation));
        }
        out
    }

    /// Enqueue a list of patches into the initial-sync queue of `channel`.
    pub fn enqueue_initial(&mut self, channel: i32, patches: Vec<Patch>)
        requires
            old(self)@.next_initial_id + patches@.len() <= i32::MAX,
        ensures
            final(self)@ == spec_enqueue_initial(old(self)@, channel, patches.deep_view()),
    {
        let ghost all = patches.deep_view();
        let mut rest = patches;
        while rest.len() > 0
            invariant
                self@ == spec_enqueue_initial(
                    old(self)@,
                    channel,
                    all.subrange(0, all.len() - rest@.len()),
                ),
                rest.deep_view() =~= all.subrange(all.len() - rest@.len(), all.len() as int),
                rest@.len() <= all.len(),
                old(self)@.next_initial_id + all.len() <= i32::MAX,
            decreases rest@.len(),
        {
            let ghost done = all.len() - rest@.len();
            let ghost rest_deep = rest.deep_view();
            let p = rest.remove(0);
            proof {
                assert(p@ == rest_deep[0]);
                assert(rest.deep_view() =~= rest_deep.subrange(1, rest_deep.len() as int));
                assert(rest_deep =~= all.subrange(done, all.len() as int));
                assert(p@ == all[done]);
                assert(rest.deep_view() =~= all.subrange(done + 1, all.len() as int));
            }
            self.push_initial(channel, p);
            proof {
                assert(self@.initial_log =~= spec_enqueue_initial(
                    old(self)@,
                    channel,
                    all.subrange(0, done + 1),
                ).initial_log);
                assert(self@ == spec_enqueue_initial(old(self)@, channel, all.subrange(0, done + 1)));
            }
        }
        proof {
            assert(all.subrange(0, all.len() as int) =~= all);
            assert(self@ == spec_enqueue_initial(old(self)@, channel, all));
        }
    }

    /// Create a channel replicating `conversation` towards `peer`, and
    /// enqueue the initial snapshot for it.
    pub fn create_channel(&mut self, conversation: Uuid, peer: Key)
        requires
            spec_find_conversation(old(self)@, conversation) >= 0,
            old(self)@.next_channel_id < i32::MAX,
            old(self)@.next_sync_id < i32::MAX,
            old(self)@.next_initial_id + 4 + old(self)@.contacts.len() + old(self)@.members.len()
                + 2 * old(self)@.messages.len() <= i32::MAX,
        ensures
            final(self)@ == spec_create_channel(old(self)@, conversation, peer),
    {
        self.ensure_contact_row(peer);
        let found = self.find_channel_idx(conversation, peer);
        if found.is_some() {
            return ;
        }
        let m = Member { key: peer, conversation, crdt: CrdtAddOnly(self.author) };
        let accepted = self.merge_member(m);
        match accepted {
            Some(mm) => {
                self.save_patch(Patch::Member(mm));
            },
            None => {},
        }
        let sync_index = self.current_sync_index();
        let ch_id = self.next_channel_id;
        self.channels.push(ChannelRow { id: ch_id, conversation, peer, sync_index });
        self.next_channel_id = self.next_channel_id + 1;
        proof {
            assert(self.channels.deep_view() =~= old(self)@.channels.push(
                ChannelRow { id: ch_id, conversation, peer, sync_index },
            ));
            lemma_find_first(self@.members, is_member_of(m.key, m.conversation));
            self@.contacts.lemma_filter_len(is_contact_key(peer));
        }
        let snapshot = self.snapshot_patches(conversation);
        proof {
            lemma_snapshot_len(self@, conversation);
        }
        self.enqueue_initial(ch_id, snapshot);
    }

    /// Remove the channel `(conversation, peer)` and its pending
    /// initial-sync rows.
    pub fn remove_channel(&mut self, conversation: Uuid, peer: Key)
        ensures
            final(self)@ == spec_remove_channel(old(self)@, conversation, peer),
    {
        self.ensure_contact_row(peer);
        let ghost s1 = self@;
        let found = self.find_channel_idx(conversation, peer);
        match found {
            None => {},
            Some(i) => {
                let id = (&self.channels[i]).id;
                self.channels.remove(i);
                proof {
                    assert(self.channels.deep_view() =~= s1.channels.remove(i as int));
                }
                let ghost p = initial_not_for(id);
                let n: usize = self.initial_log.len();
                let mut kept: Vec<InitialSyncRow> = Vec::new();
                let mut j: usize = 0;
                while j < n
                    invariant
                        j <= n,
                        n == self.initial_log@.len(),
                        p == initial_not_for(id),
                        kept.deep_view() == self.initial_log.deep_view().subrange(
                            0,
                            j as int,
                        ).filter(p),
                    decreases n - j,
                {
                    let ghost prefix = self.initial_log.deep_view().subrange(0, j as int);
                    let ghost prefix1 = self.initial_log.deep_view().subrange(0, j + 1);
                    proof {
                        reveal(Seq::filter);
                        assert(prefix1.drop_last() =~= prefix);
                        assert(prefix1.last() == self.initial_log.deep_view()[j as int]);
                    }
                    let row = &self.initial_log[j];
                    if row.channel != id {
                        let copy = InitialSyncRow {
                            id: row.id,
                            channel: row.channel,
                            payload: clone_patch(&row.payload),
                        };
                        let ghost prev_deep = kept.deep_view();
                        kept.push(copy);
                        proof {
                            assert(p(self.initial_log.deep_view()[j as int]));
                            assert(prefix1.filter(p) =~= prefix.filter(p).push(
                                self.initial_log.deep_view()[j as int],
                            ));
                            assert(kept.deep_view() =~= prev_deep.push(
                                self.initial_log.deep_view()[j as int],
                            ));
                        }
                    } else {
                        proof {
                            assert(!p(self.initial_log.deep_view()[j as int]));
                            assert(prefix1.filter(p) =~= prefix.filter(p));
                        }
                    }
                    j = j + 1;
                }
                proof {
                    assert(self.initial_log.deep_view().subrange(0, n as int)
                        =~= self.initial_log.deep_view());
                }
                self.initial_log = kept;
                proof {
                    assert(self@.initial_log == s1.initial_log.filter(initial_not_for(id)));
                    assert(self@ == spec_remove_channel(old(self)@, conversation, peer));
                }
            },
        }
    }

    /// The channels serving `conversation`.
    pub fn list_channels(&self, conversation: Uuid) -> (r: Vec<ChannelRow>)
        ensures
            r.deep_view() == self@.channels.filter(is_channel_in(conversation)),
    {
        let ghost p = is_channel_in(conversation);
        let n: usize = self.channels.len();
        let mut out: Vec<ChannelRow> = Vec::new();
        let mut i: usize = 0;
        while i < n
            invariant
                i <= n,
                n == self.channels@.len(),
                p == is_channel_in(conversation),
                out.deep_view() == self.channels.deep_view().subrange(0, i as int).filter(p),
            decreases n - i,
        {
            let ghost prefix = self.channels.deep_view().subrange(0, i as int);
            let ghost prefix1 = self.channels.deep_view().subrange(0, i + 1);
            proof {
                reveal(Seq::filter);
                assert(prefix1.drop_last() =~= prefix);
                assert(prefix1.last() == self.channels.deep_view()[i as int]);
            }
            let c = &self.channels[i];
            if c.conversation == conversation {
                let ghost prev_deep = out.deep_view();
                out.push(*c);
                proof {
                    assert(p(self.channels.deep_view()[i as int]));
                    assert(prefix1.filter(p) =~= prefix.filter(p).push(
                        self.channels.deep_view()[i as int],
                    ));
                    assert(out.deep_view() =~= prev_deep.push(self.channels.deep_view()[i as int]));
                }
            } else {
                proof {
                    assert(!p(self.channels.deep_view()[i as int]));
                    assert(prefix1.filter(p) =~= prefix.filter(p));
                }
            }
            i = i + 1;
        }
        proof {
            assert(self.channels.deep_view().subrange(0, n as int) =~= self.channels.deep_view());
        }
        out
    }
}

/// Clone a patch; the clone has the same view.
pub fn clone_patch(p: &Patch) -> (r: Patch)
    ensures
        r@ == p@,
{
    match p {
        Patch::Contact(c) => Patch::Contact(Contact { key: c.key, name: c.name.clone(), crdt: c.crdt }),
        Patch::Conversation(c) => Patch::Conversation(
            Conversation { id: c.id, title: clone_opt_string(&c.title), crdt: c.crdt },
        ),
        Patch::Member(m) => Patch::Member(*m),
        Patch::NewTextMessage(m) => Patch::NewTextMessage(
            NewTextMessage {
                id: m.id,
                from: m.from,
                conversation: m.conversation,
                text: m.text.clone(),
                crdt: m.crdt,
            },
        ),
        Patch::NewAttachmentMessage(m) => Patch::NewAttachmentMessage(
            NewAttachmentMessage {
                id: m.id,
                from: m.from,
                conversation: m.conversation,
                filename: m.filename.clone(),
                attachment: m.attachment,
                crdt: m.crdt,
            },
        ),
        Patch::MessageStatus(st) => Patch::MessageStatus(*st),
        Patch::Attachment(a) => Patch::Attachment(
            Attachment {
                id: a.id,
                conversation: a.conversation,
                payload: clone_opt_bytes(&a.payload),
                crdt: a.crdt,
            },
        ),
    }
}

/// The snapshot holds at most one patch for the conversation, one per
/// contact, one per member, and two per message.
pub proof fn lemma_snapshot_len(s: StoreV, conversation: Uuid)
    ensures
        spec_snapshot_patches(s, conversation).len() <= 1 + s.contacts.len() + s.members.len() + 2
            * s.messages.len(),
{
    s.members.lemma_filter_len(is_member_in(conversation));
    lemma_message_pair_rows_len(s.messages, conversation);
}

/// The message segment of a snapshot holds at most two patches per row.
pub proof fn lemma_message_pair_rows_len(ms: Seq<MessageRowV>, conversation: Uuid)
    ensures
        message_pair_rows(ms, conversation).len() <= 2 * ms.len(),
    decreases ms.len(),
{
    if ms.len() > 0 {
        lemma_message_pair_rows_len(ms.drop_last(), conversation);
    }
}

/// Clone an optional title; the clone has the same view.
pub fn clone_opt_string(o: &Option<String>) -> (r: Option<String>)
    ensures
        crate::patch::spec_opt_str(r) == crate::patch::spec_opt_str(*o),
{
    match o {
        Some(s) => Some(s.clone()),
        None => None,
    }
}

/// Clone an optional payload; the clone has the same view.
pub fn clone_opt_bytes(o: &Option<Vec<u8>>) -> (r: Option<Vec<u8>>)
    ensures
        crate::patch::spec_opt_bytes(r) == crate::patch::spec_opt_bytes(*o),
{
    match o {
        Some(b) => {
            let mut out: Vec<u8> = Vec::new();
            let n: usize = b.len();
            let mut i: usize = 0;
            while i < n
                invariant
                    i <= n,
                    n == b@.len(),
                    out@ == b@.subrange(0, i as int),
                decreases n - i,
            {
                out.push(b[i]);
                proof {
                    assert(out@ =~= b@.subrange(0, i + 1));
                }
                i = i + 1;
            }
            proof {
                assert(b@.subrange(0, n as int) =~= b@);
            }
            Some(out)
        },
        None => None,
    }
}

impl Patch {
    /// Apply the merge kernel for this patch against the store.
    pub fn merge(self, store: &mut Store) -> (r: Option<Patch>)
        ensures
            (final(store)@, view_opt(r)) == spec_merge_patch(old(store)@, self@),
    {
        match self {
            Patch::Contact(c) => match store.merge_contact(c) {
                Some(c) => Some(Patch::Contact(c)),
                None => None,
            },
            Patch::Conversation(c) => match store.merge_conversation(c) {
                Some(c) => Some(Patch::Conversation(c)),
                None => None,
            },
            Patch::Member(m) => match store.merge_member(m) {
                Some(m) => Some(Patch::Member(m)),
                None => None,
            },
            Patch::NewTextMessage(m) => {
                let wire = NewTextMessage {
                    id: m.id,
                    from: m.from,
                    conversation: m.conversation,
                    text: m.text.clone(),
                    crdt: m.crdt,
                };
                match store.merge_new_message(m.into_crdt()) {
                    Some(_) => Some(Patch::NewTextMessage(wire)),
                    None => None,
                }
            },
            Patch::NewAttachmentMessage(m) => {
                let wire = NewAttachmentMessage {
                    id: m.id,
                    from: m.from,
                    conversation: m.conversation,
                    filename: m.filename.clone(),
                    attachment: m.attachment,
                    crdt: m.crdt,
                };
                match store.merge_new_message(m.into_crdt()) {
                    Some(_) => Some(Patch::NewAttachmentMessage(wire)),
                    None => None,
                }
            },
            Patch::MessageStatus(st) => match store.merge_message_status(st) {
                Some(st) => Some(Patch::MessageStatus(st)),
                None => None,
            },
            Patch::Attachment(a) => {
                let wire = Attachment {
                    id: a.id,
                    conversation: a.conversation,
                    payload: clone_opt_bytes(&a.payload),
                    crdt: a.crdt,
                };
                match store.merge_attachment(a) {
                    Some(_) => Some(Patch::Attachment(wire)),
                    None => None,
                }
            },
        }
    }
}

} // verus!
