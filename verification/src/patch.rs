//! The patch taxonomy: the closed sum of mutations a replica can apply,
//! each carrying its logical identity, its business fields and its stamp.

use vstd::prelude::*;

use crate::crdt::{Author, CrdtAddOnly, CrdtWritable, CrdtWritableSequence};
use crate::uuid::Uuid;

verus! {

/// Number of bytes of public key material in a key.
pub const KEY_LENGTH: usize = 32;

/// Exactly 32 bytes of public key material, stored as two 128-bit halves,
/// each the big-endian reading of 16 of the bytes.
#[derive(Clone, Copy, Debug, PartialEq, Eq, Hash, Structural)]
pub struct Key {
    pub hi: u128,
    pub lo: u128,
}

/// The 32 key bytes, most significant half first.
pub open spec fn spec_key_bytes(k: Key) -> Seq<u8> {
    crate::uuid::spec_uuid_bytes(Uuid(k.hi)) + crate::uuid::spec_uuid_bytes(Uuid(k.lo))
}

/// Error returned when key material does not hold exactly 32 bytes.
#[derive(Clone, Copy, Debug, PartialEq, Eq)]
pub struct BadKeyError;

impl BadKeyError {
    /// The complaint a caller can show.
    pub fn message(&self) -> &'static str {
        "Key should have 32 bytes"
    }
}

impl Key {
    /// Validate and pack 32 bytes of key material.
    pub fn new(key: Vec<u8>) -> (r: Result<Key, BadKeyError>)
        ensures
            key@.len() == KEY_LENGTH ==> (r matches Ok(k) && spec_key_bytes(k) == key@),
            key@.len() != KEY_LENGTH ==> (r matches Err(e)),
    {
        if key.len() != KEY_LENGTH {
            return Err(BadKeyError);
        }
        let hi = Uuid::read_bytes(&key, 0);
        let lo = Uuid::read_bytes(&key, 16);
        let k = Key { hi: hi.0, lo: lo.0 };
        proof {
            assert(spec_key_bytes(k) =~= key@);
        }
        Ok(k)
    }

    /// The all-zero key used by placeholder rows.
    pub fn zero() -> (r: Key)
        ensures
            r == (Key { hi: 0u128, lo: 0u128 }),
    {
        Key { hi: 0, lo: 0 }
    }

    /// Append the 32 key bytes to `out`.
    pub fn push_bytes(&self, out: &mut Vec<u8>)
        ensures
            final(out)@ == old(out)@ + spec_key_bytes(*self),
            final(out)@.len() == old(out)@.len() + 32,
    {
        let hi = Uuid(self.hi);
        let lo = Uuid(self.lo);
        hi.push_bytes(out);
        lo.push_bytes(out);
        assert(final(out)@ =~= old(out)@ + spec_key_bytes(*self));
    }

    /// Read a key back from 32 bytes at `at`.
    pub fn read_bytes(b: &Vec<u8>, at: usize) -> (r: Key)
        requires
            at + 32 <= b@.len(),
        ensures
            spec_key_bytes(r) == b@.subrange(at as int, at + 32),
    {
        let n: usize = b.len();
        let hi = Uuid::read_bytes(b, at);
        let lo = Uuid::read_bytes(b, at + 16);
        let k = Key { hi: hi.0, lo: lo.0 };
        proof {
            assert(spec_key_bytes(k) =~= b@.subrange(at as int, at + 32));
        }
        k
    }
}

/// A contact patch: the display name of the peer owning `key`.
#[derive(Clone, Debug, PartialEq, Eq)]
pub struct Contact {
    pub key: Key,
    pub name: String,
    pub crdt: CrdtWritable,
}

/// Mathematical image of a contact patch.
pub struct ContactV {
    pub key: Key,
    pub name: Seq<char>,
    pub crdt: CrdtWritable,
}

impl View for Contact {
    type V = ContactV;

    open spec fn view(&self) -> ContactV {
        ContactV { key: self.key, name: self.name@, crdt: self.crdt }
    }
}

/// The view of an optional string.
pub open spec fn spec_opt_str(o: Option<String>) -> Option<Seq<char>> {
    match o {
        Option::Some(s) => Option::Some(s@),
        Option::None => Option::None,
    }
}

/// A conversation patch: the optional title of the conversation `id`.
#[derive(Clone, Debug, PartialEq, Eq)]
pub struct Conversation {
    pub id: Uuid,
    pub title: Option<String>,
    pub crdt: CrdtWritable,
}

/// Mathematical image of a conversation patch.
pub struct ConversationV {
    pub id: Uuid,
    pub title: Option<Seq<char>>,
    pub crdt: CrdtWritable,
}

impl View for Conversation {
    type V = ConversationV;

    open spec fn view(&self) -> ConversationV {
        ConversationV { id: self.id, title: spec_opt_str(self.title), crdt: self.crdt }
    }
}

/// A membership patch: `key` belongs to `conversation`. Grow-only.
#[derive(Clone, Copy, Debug, PartialEq, Eq, Structural)]
pub struct Member {
    pub key: Key,
    pub conversation: Uuid,
    pub crdt: CrdtAddOnly,
}

impl View for Member {
    type V = Member;

    open spec fn view(&self) -> Member {
        *self
    }
}

/// The single internal form of a new-message patch; the attachment is
/// present exactly for attachment messages.
#[derive(Clone, Debug, PartialEq, Eq)]
pub struct NewMessage {
    pub id: Uuid,
    pub from: Key,
    pub conversation: Uuid,
    pub text: String,
    pub attachment: Option<Uuid>,
    pub crdt: CrdtWritableSequence,
}

/// Mathematical image of a new-message patch.
pub struct NewMessageV {
    pub id: Uuid,
    pub from: Key,
    pub conversation: Uuid,
    pub text: Seq<char>,
    pub attachment: Option<Uuid>,
    pub crdt: CrdtWritableSequence,
}

impl View for NewMessage {
    type V = NewMessageV;

    open spec fn view(&self) -> NewMessageV {
        NewMessageV {
            id: self.id,
            from: self.from,
            conversation: self.conversation,
            text: self.text@,
            attachment: self.attachment,
            crdt: self.crdt,
        }
    }
}

/// Wire form of a message without attachment.
#[derive(Clone, Debug, PartialEq, Eq)]
pub struct NewTextMessage {
    pub id: Uuid,
    pub from: Key,
    pub conversation: Uuid,
    pub text: String,
    pub crdt: CrdtWritableSequence,
}

/// Mathematical image of a text-message patch.
pub struct NewTextMessageV {
    pub id: Uuid,
    pub from: Key,
    pub conversation: Uuid,
    pub text: Seq<char>,
    pub crdt: CrdtWritableSequence,
}

impl View for NewTextMessage {
    type V = NewTextMessageV;

    open spec fn view(&self) -> NewTextMessageV {
        NewTextMessageV {
            id: self.id,
            from: self.from,
            conversation: self.conversation,
            text: self.text@,
            crdt: self.crdt,
        }
    }
}

impl NewTextMessage {
    /// Project the wire form onto the internal message form.
    pub fn into_crdt(self) -> (r: NewMessage)
        ensures
            r@ == (NewMessageV {
                id: self@.id,
                from: self@.from,
                conversation: self@.conversation,
                text: self@.text,
                attachment: Option::None,
                crdt: self@.crdt,
            }),
    {
        NewMessage {
            id: self.id,
            from: self.from,
            conversation: self.conversation,
            text: self.text,
            attachment: None,
            crdt: self.crdt,
        }
    }
}

/// Wire form of a message that references an attachment.
#[derive(Clone, Debug, PartialEq, Eq)]
pub struct NewAttachmentMessage {
    pub id: Uuid,
    pub from: Key,
    pub conversation: Uuid,
    pub filename: String,
    pub attachment: Uuid,
    pub crdt: CrdtWritableSequence,
}

/// Mathematical image of an attachment-message patch.
pub struct NewAttachmentMessageV {
    pub id: Uuid,
    pub from: Key,
    pub conversation: Uuid,
    pub filename: Seq<char>,
    pub attachment: Uuid,
    pub crdt: CrdtWritableSequence,
}

impl View for NewAttachmentMessage {
    type V = NewAttachmentMessageV;

    open spec fn view(&self) -> NewAttachmentMessageV {
        NewAttachmentMessageV {
            id: self.id,
            from: self.from,
            conversation: self.conversation,
            filename: self.filename@,
            attachment: self.attachment,
            crdt: self.crdt,
        }
    }
}

impl NewAttachmentMessage {
    /// Project the wire form onto the internal message form; the filename
    /// rides in the text field.
    pub fn into_crdt(self) -> (r: NewMessage)
        ensures
            r@ == (NewMessageV {
                id: self@.id,
                from: self@.from,
                conversation: self@.conversation,
                text: self@.filename,
                attachment: Option::Some(self@.attachment),
                crdt: self@.crdt,
            }),
    {
        NewMessage {
            id: self.id,
            from: self.from,
            conversation: self.conversation,
            text: self.filename,
            attachment: Some(self.attachment),
            crdt: self.crdt,
        }
    }
}

impl NewMessage {
    /// The wire form of this message: a text patch when it has no
    /// attachment, an attachment patch otherwise.
    pub fn into_serializable(self) -> (r: Patch)
        ensures
            self@.attachment is None ==> r@ == (PatchV::NewTextMessage(
                NewTextMessageV {
                    id: self@.id,
                    from: self@.from,
                    conversation: self@.conversation,
                    text: self@.text,
                    crdt: self@.crdt,
                },
            )),
            self@.attachment matches Some(att) ==> r@ == (PatchV::NewAttachmentMessage(
                NewAttachmentMessageV {
                    id: self@.id,
                    from: self@.from,
                    conversation: self@.conversation,
                    filename: self@.text,
                    attachment: att,
                    crdt: self@.crdt,
                },
            )),
    {
        match self.attachment {
            Some(attachment) => Patch::NewAttachmentMessage(
                NewAttachmentMessage {
                    id: self.id,
                    from: self.from,
                    conversation: self.conversation,
                    filename: self.text,
                    attachment,
                    crdt: self.crdt,
                },
            ),
            None => Patch::NewTextMessage(
                NewTextMessage {
                    id: self.id,
                    from: self.from,
                    conversation: self.conversation,
                    text: self.text,
                    crdt: self.crdt,
                },
            ),
        }
    }

    /// The text wire form of a message known to carry no attachment.
    pub fn into_text(self) -> (r: NewTextMessage)
        requires
            self.attachment is None,
        ensures
            r@ == (NewTextMessageV {
                id: self@.id,
                from: self@.from,
                conversation: self@.conversation,
                text: self@.text,
                crdt: self@.crdt,
            }),
    {
        NewTextMessage {
            id: self.id,
            from: self.from,
            conversation: self.conversation,
            text: self.text,
            crdt: self.crdt,
        }
    }

    /// The attachment wire form of a message known to carry one.
    pub fn into_attachment(self) -> (r: NewAttachmentMessage)
        requires
            self.attachment is Some,
        ensures
            r@ == (NewAttachmentMessageV {
                id: self@.id,
                from: self@.from,
                conversation: self@.conversation,
                filename: self@.text,
                attachment: self@.attachment->Some_0,
                crdt: self@.crdt,
            }),
    {
        let attachment = match self.attachment {
            Some(a) => a,
            None => Uuid(0),
        };
        NewAttachmentMessage {
            id: self.id,
            from: self.from,
            conversation: self.conversation,
            filename: self.text,
            attachment,
            crdt: self.crdt,
        }
    }
}

/// A message-status patch: the delivery state of message `id`, stamped
/// independently of the message content.
#[derive(Clone, Copy, Debug, PartialEq, Eq, Structural)]
pub struct MessageStatus {
    pub id: Uuid,
    pub conversation: Uuid,
    pub status: i32,
    pub crdt: CrdtWritable,
}

impl View for MessageStatus {
    type V = MessageStatus;

    open spec fn view(&self) -> MessageStatus {
        *self
    }
}

/// An attachment patch: the optional binary payload owned by a
/// conversation. Grow-only.
#[derive(Clone, Debug, PartialEq, Eq)]
pub struct Attachment {
    pub id: Uuid,
    pub conversation: Uuid,
    pub payload: Option<Vec<u8>>,
    pub crdt: CrdtAddOnly,
}

/// The view of an optional byte payload.
pub open spec fn spec_opt_bytes(o: Option<Vec<u8>>) -> Option<Seq<u8>> {
    match o {
        Option::Some(b) => Option::Some(b@),
        Option::None => Option::None,
    }
}

/// Mathematical image of an attachment patch.
pub struct AttachmentV {
    pub id: Uuid,
    pub conversation: Uuid,
    pub payload: Option<Seq<u8>>,
    pub crdt: CrdtAddOnly,
}

impl View for Attachment {
    type V = AttachmentV;

    open spec fn view(&self) -> AttachmentV {
        AttachmentV {
            id: self.id,
            conversation: self.conversation,
            payload: spec_opt_bytes(self.payload),
            crdt: self.crdt,
        }
    }
}

/// The wire and log unit: the closed sum of every mutation.
#[derive(Clone, Debug, PartialEq, Eq)]
pub enum Patch {
    Contact(Contact),
    Conversation(Conversation),
    Member(Member),
    NewTextMessage(NewTextMessage),
    NewAttachmentMessage(NewAttachmentMessage),
    MessageStatus(MessageStatus),
    Attachment(Attachment),
}

/// Mathematical image of a patch.
pub enum PatchV {
    Contact(ContactV),
    Conversation(ConversationV),
    Member(Member),
    NewTextMessage(NewTextMessageV),
    NewAttachmentMessage(NewAttachmentMessageV),
    MessageStatus(MessageStatus),
    Attachment(AttachmentV),
}

impl View for Patch {
    type V = PatchV;

    open spec fn view(&self) -> PatchV {
        match self {
            Patch::Contact(c) => PatchV::Contact(c@),
            Patch::Conversation(c) => PatchV::Conversation(c@),
            Patch::Member(m) => PatchV::Member(*m),
            Patch::NewTextMessage(m) => PatchV::NewTextMessage(m@),
            Patch::NewAttachmentMessage(m) => PatchV::NewAttachmentMessage(m@),
            Patch::MessageStatus(s) => PatchV::MessageStatus(*s),
            Patch::Attachment(a) => PatchV::Attachment(a@),
        }
    }
}

impl PatchV {
    /// The conversation a patch is scoped to; `None` only for contacts,
    /// which replicate globally.
    pub open spec fn conversation(self) -> Option<Uuid> {
        match self {
            PatchV::Contact(_) => Option::None,
            PatchV::Conversation(c) => Option::Some(c.id),
            PatchV::Member(m) => Option::Some(m.conversation),
            PatchV::NewTextMessage(m) => Option::Some(m.conversation),
            PatchV::NewAttachmentMessage(m) => Option::Some(m.conversation),
            PatchV::MessageStatus(s) => Option::Some(s.conversation),
            PatchV::Attachment(a) => Option::Some(a.conversation),
        }
    }

    /// The author recorded in a patch's stamp.
    pub open spec fn author(self) -> Author {
        match self {
            PatchV::Contact(c) => c.crdt.author,
            PatchV::Conversation(c) => c.crdt.author,
            PatchV::Member(m) => m.crdt.0,
            PatchV::NewTextMessage(m) => m.crdt.writable.author,
            PatchV::NewAttachmentMessage(m) => m.crdt.writable.author,
            PatchV::MessageStatus(s) => s.crdt.author,
            PatchV::Attachment(a) => a.crdt.0,
        }
    }
}

impl Patch {
    /// The conversation this patch is scoped to, `None` for contacts.
    pub fn conversation(&self) -> (r: Option<Uuid>)
        ensures
            r == self@.conversation(),
    {
        match self {
            Patch::Contact(_) => None,
            Patch::Conversation(c) => Some(c.id),
            Patch::Member(m) => Some(m.conversation),
            Patch::NewTextMessage(m) => Some(m.conversation),
            Patch::NewAttachmentMessage(m) => Some(m.conversation),
            Patch::MessageStatus(s) => Some(s.conversation),
            Patch::Attachment(a) => Some(a.conversation),
        }
    }

    /// The author recorded in this patch's stamp.
    pub fn author(&self) -> (r: Author)
        ensures
            r == self@.author(),
    {
        match self {
            Patch::Contact(c) => c.crdt.author,
            Patch::Conversation(c) => c.crdt.author,
            Patch::Member(m) => m.crdt.0,
            Patch::NewTextMessage(m) => m.crdt.writable.author,
            Patch::NewAttachmentMessage(m) => m.crdt.writable.author,
            Patch::MessageStatus(s) => s.crdt.author,
            Patch::Attachment(a) => a.crdt.0,
        }
    }
}

} // verus!
