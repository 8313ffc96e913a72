//! The algebraic laws of the merge kernel.
//!
//! Every row a patch can address is named by a logical identity, and each
//! identity carries one stamp. Merging joins stamps: the stored stamp
//! becomes the maximum of what was there and what arrived. From that
//! single fact follow idempotence, commutativity across distinct
//! identities, and convergence of the `(identity, stamp)` map of any two
//! replicas that have merged the same patches, in whatever order.

use vstd::prelude::*;

use crate::crdt::{CrdtWritable, CrdtWritableSequence};
use crate::patch::{Key, Member, PatchV};
use crate::store::{
    is_attachment_id, is_contact_key, is_conversation_id, is_member_of, is_message_id,
    spec_contact_stamp, spec_conversation_stamp, spec_ensure_contact, spec_ensure_conversation,
    spec_find_attachment, spec_find_contact, spec_find_conversation, spec_find_member,
    spec_find_message, spec_merge_patch, spec_message_stamp, spec_push_message, spec_status_stamp,
    StoreV,
};
use crate::util::{
    find_first, lemma_find_first, lemma_find_first_pointwise, lemma_find_first_push,
    lemma_find_first_unique,
};
use crate::crdt::Author;
use crate::uuid::Uuid;

verus! {

/// The logical identity a patch addresses: one row, one stamp.
pub enum LogicalId {
    ContactId(Key),
    ConversationId(Uuid),
    MemberId(Key, Uuid),
    MessageId(Uuid),
    StatusId(Uuid),
    AttachmentId(Uuid),
}

/// A stamp as compared by the merge kernel: last-writer-wins, sequenced
/// last-writer-wins, or grow-only presence.
pub enum StampOf {
    Writable(CrdtWritable),
    Sequenced(CrdtWritableSequence),
    Present(bool),
}

/// The stamp the store holds for a logical identity; absence reads as the
/// bottom stamp of the identity's kind.
pub open spec fn stamp_of(s: StoreV, lid: LogicalId) -> StampOf {
    match lid {
        LogicalId::ContactId(k) => StampOf::Writable(spec_contact_stamp(s, k)),
        LogicalId::ConversationId(u) => StampOf::Writable(spec_conversation_stamp(s, u)),
        LogicalId::MemberId(k, u) => StampOf::Present(spec_find_member(s, k, u) >= 0),
        LogicalId::MessageId(u) => StampOf::Sequenced(spec_message_stamp(s, u)),
        LogicalId::StatusId(u) => StampOf::Writable(spec_status_stamp(s, u)),
        LogicalId::AttachmentId(u) => StampOf::Present(spec_find_attachment(s, u) >= 0),
    }
}

/// The logical identity a patch addresses.
pub open spec fn patch_lid(p: PatchV) -> LogicalId {
    match p {
        PatchV::Contact(c) => LogicalId::ContactId(c.key),
        PatchV::Conversation(c) => LogicalId::ConversationId(c.id),
        PatchV::Member(m) => LogicalId::MemberId(m.key, m.conversation),
        PatchV::NewTextMessage(m) => LogicalId::MessageId(m.id),
        PatchV::NewAttachmentMessage(m) => LogicalId::MessageId(m.id),
        PatchV::MessageStatus(st) => LogicalId::StatusId(st.id),
        PatchV::Attachment(a) => LogicalId::AttachmentId(a.id),
    }
}

/// The stamp a patch carries.
pub open spec fn patch_stamp(p: PatchV) -> StampOf {
    match p {
        PatchV::Contact(c) => StampOf::Writable(c.crdt),
        PatchV::Conversation(c) => StampOf::Writable(c.crdt),
        PatchV::Member(_) => StampOf::Present(true),
        PatchV::NewTextMessage(m) => StampOf::Sequenced(m.crdt),
        PatchV::NewAttachmentMessage(m) => StampOf::Sequenced(m.crdt),
        PatchV::MessageStatus(st) => StampOf::Writable(st.crdt),
        PatchV::Attachment(_) => StampOf::Present(true),
    }
}

/// Order on stamps of one kind; stamps of different kinds never compare.
pub open spec fn stamp_le(a: StampOf, b: StampOf) -> bool {
    match (a, b) {
        (StampOf::Writable(x), StampOf::Writable(y)) => x.spec_le(y),
        (StampOf::Sequenced(x), StampOf::Sequenced(y)) => x.spec_lt(y) || x == y,
        (StampOf::Present(x), StampOf::Present(y)) => x ==> y,
        _ => false,
    }
}

/// The join of two stamps of one kind: the greater.
pub open spec fn stamp_join(a: StampOf, b: StampOf) -> StampOf {
    match (a, b) {
        (StampOf::Writable(x), StampOf::Writable(y)) => if x.spec_lt(y) {
            StampOf::Writable(y)
        } else {
            StampOf::Writable(x)
        },
        (StampOf::Sequenced(x), StampOf::Sequenced(y)) => if x.spec_lt(y) {
            StampOf::Sequenced(y)
        } else {
            StampOf::Sequenced(x)
        },
        (StampOf::Present(x), StampOf::Present(y)) => StampOf::Present(x || y),
        _ => a,
    }
}

/// A patch's stamp is at or above the bottom of its kind. Patches written
/// by this library always are: local writes start from generation one.
pub open spec fn patch_stamp_nonneg(p: PatchV) -> bool {
    match patch_stamp(p) {
        StampOf::Writable(w) => CrdtWritable::spec_zero().spec_le(w),
        StampOf::Sequenced(q) => CrdtWritableSequence::spec_zero().spec_lt(q) || q
            == CrdtWritableSequence::spec_zero(),
        StampOf::Present(_) => true,
    }
}

// ---------------------------------------------------------------------
// Stability of the projections under get-or-create.
// ---------------------------------------------------------------------

/// Creating a placeholder contact leaves every stamp unchanged.
proof fn lemma_ensure_contact_stamps(s: StoreV, key: Key, lid: LogicalId)
    ensures
        stamp_of(spec_ensure_contact(s, key), lid) == stamp_of(s, lid),
{
    let s1 = spec_ensure_contact(s, key);
    if spec_find_contact(s, key) >= 0 {
    } else {
        match lid {
            LogicalId::ContactId(k2) => {
                lemma_find_first_push(
                    s.contacts,
                    is_contact_key(k2),
                    crate::store::placeholder_contact(key),
                );
                lemma_find_first(s.contacts, is_contact_key(k2));
                if k2 == key {
                    assert(spec_contact_stamp(s1, k2) == CrdtWritable::spec_zero());
                } else {
                    if spec_find_contact(s, k2) >= 0 {
                        assert(s1.contacts[spec_find_contact(s, k2)]
                            == s.contacts[spec_find_contact(s, k2)]);
                    }
                }
            },
            _ => {},
        }
    }
}

/// Creating a placeholder conversation leaves every stamp unchanged.
proof fn lemma_ensure_conversation_stamps(s: StoreV, id: Uuid, lid: LogicalId)
    ensures
        stamp_of(spec_ensure_conversation(s, id), lid) == stamp_of(s, lid),
{
    let s1 = spec_ensure_conversation(s, id);
    if spec_find_conversation(s, id) >= 0 {
    } else {
        match lid {
            LogicalId::ConversationId(u2) => {
                lemma_find_first_push(
                    s.conversations,
                    is_conversation_id(u2),
                    crate::store::placeholder_conversation(id),
                );
                lemma_find_first(s.conversations, is_conversation_id(u2));
                if u2 == id {
                    assert(spec_conversation_stamp(s1, u2) == CrdtWritable::spec_zero());
                } else {
                    if spec_find_conversation(s, u2) >= 0 {
                        assert(s1.conversations[spec_find_conversation(s, u2)]
                            == s.conversations[spec_find_conversation(s, u2)]);
                    }
                }
            },
            _ => {},
        }
    }
}

// ---------------------------------------------------------------------
// The join law: merging a patch joins its stamp into its row and touches
// no other row's stamp.
// ---------------------------------------------------------------------

/// Merging `p` leaves, at `p`'s own identity, the join of the stored
/// stamp and `p`'s stamp, and leaves every other identity's stamp alone.
pub proof fn lemma_merge_stamp(s: StoreV, p: PatchV, lid: LogicalId)
    requires
        patch_stamp_nonneg(p),
    ensures
        stamp_of(spec_merge_patch(s, p).0, lid) == if lid == patch_lid(p) {
            stamp_join(stamp_of(s, lid), patch_stamp(p))
        } else {
            stamp_of(s, lid)
        },
{
    let s2 = spec_merge_patch(s, p).0;
    match p {
        PatchV::Contact(c) => {
            let i = spec_find_contact(s, c.key);
            lemma_find_first(s.contacts, is_contact_key(c.key));
            if i < 0 {
                let cs2 = s.contacts.push(c);
                match lid {
                    LogicalId::ContactId(k2) => {
                        lemma_find_first_push(s.contacts, is_contact_key(k2), c);
                        lemma_find_first(s.contacts, is_contact_key(k2));
                        if k2 == c.key {
                            assert(cs2[cs2.len() - 1] == c);
                        } else {
                            if spec_find_contact(s, k2) >= 0 {
                                assert(cs2[spec_find_contact(s, k2)]
                                    == s.contacts[spec_find_contact(s, k2)]);
                            }
                        }
                    },
                    _ => {},
                }
            } else if s.contacts[i].crdt.spec_lt(c.crdt) {
                let cs2 = s.contacts.update(i, c);
                match lid {
                    LogicalId::ContactId(k2) => {
                        assert(forall|j: int|
                            0 <= j < cs2.len() ==> is_contact_key(k2)(#[trigger] cs2[j])
                                == is_contact_key(k2)(s.contacts[j]));
                        lemma_find_first_pointwise(cs2, s.contacts, is_contact_key(k2));
                        lemma_find_first(s.contacts, is_contact_key(k2));
                        if k2 == c.key {
                            lemma_find_first_unique(cs2, is_contact_key(k2), i);
                        } else {
                            if spec_find_contact(s, k2) >= 0 {
                                assert(cs2[spec_find_contact(s, k2)]
                                    == s.contacts[spec_find_contact(s, k2)]);
                            }
                        }
                    },
                    _ => {},
                }
            }
        },
        PatchV::Conversation(c) => {
            let i = spec_find_conversation(s, c.id);
            lemma_find_first(s.conversations, is_conversation_id(c.id));
            if i < 0 {
                let cs2 = s.conversations.push(c);
                match lid {
                    LogicalId::ConversationId(u2) => {
                        lemma_find_first_push(s.conversations, is_conversation_id(u2), c);
                        lemma_find_first(s.conversations, is_conversation_id(u2));
                        if u2 == c.id {
                            assert(cs2[cs2.len() - 1] == c);
                        } else {
                            if spec_find_conversation(s, u2) >= 0 {
                                assert(cs2[spec_find_conversation(s, u2)]
                                    == s.conversations[spec_find_conversation(s, u2)]);
                            }
                        }
                    },
                    _ => {},
                }
            } else if s.conversations[i].crdt.spec_lt(c.crdt) {
                let cs2 = s.conversations.update(i, c);
                match lid {
                    LogicalId::ConversationId(u2) => {
                        assert(forall|j: int|
                            0 <= j < cs2.len() ==> is_conversation_id(u2)(#[trigger] cs2[j])
                                == is_conversation_id(u2)(s.conversations[j]));
                        lemma_find_first_pointwise(cs2, s.conversations, is_conversation_id(u2));
                        lemma_find_first(s.conversations, is_conversation_id(u2));
                        if u2 == c.id {
                            lemma_find_first_unique(cs2, is_conversation_id(u2), i);
                        } else {
                            if spec_find_conversation(s, u2) >= 0 {
                                assert(cs2[spec_find_conversation(s, u2)]
                                    == s.conversations[spec_find_conversation(s, u2)]);
                            }
                        }
                    },
                    _ => {},
                }
            }
        },
        PatchV::Member(m) => {
            let sa = spec_ensure_contact(s, m.key);
            let s1 = spec_ensure_conversation(sa, m.conversation);
            lemma_ensure_contact_stamps(s, m.key, lid);
            lemma_ensure_conversation_stamps(sa, m.conversation, lid);
            lemma_ensure_contact_stamps(s, m.key, LogicalId::MemberId(m.key, m.conversation));
            lemma_ensure_conversation_stamps(
                sa,
                m.conversation,
                LogicalId::MemberId(m.key, m.conversation),
            );
            if spec_find_member(s1, m.key, m.conversation) >= 0 {
            } else {
                match lid {
                    LogicalId::MemberId(k2, u2) => {
                        lemma_find_first_push(s1.members, is_member_of(k2, u2), m);
                        lemma_find_first(s1.members, is_member_of(k2, u2));
                    },
                    _ => {},
                }
            }
        },
        PatchV::NewTextMessage(mm) => {
            let nm = crate::patch::NewMessageV {
                id: mm.id,
                from: mm.from,
                conversation: mm.conversation,
                text: mm.text,
                attachment: Option::None,
                crdt: mm.crdt,
            };
            lemma_merge_message_stamp(s, nm, lid);
        },
        PatchV::NewAttachmentMessage(mm) => {
            let nm = crate::patch::NewMessageV {
                id: mm.id,
                from: mm.from,
                conversation: mm.conversation,
                text: mm.filename,
                attachment: Option::Some(mm.attachment),
                crdt: mm.crdt,
            };
            lemma_merge_message_stamp(s, nm, lid);
        },
        PatchV::MessageStatus(st) => {
            let i = spec_find_message(s, st.id);
            lemma_find_first(s.messages, is_message_id(st.id));
            if i < 0 {
                let sa = spec_ensure_contact(s, Key { hi: 0, lo: 0 });
                let s1 = spec_ensure_conversation(sa, st.conversation);
                lemma_ensure_contact_stamps(s, Key { hi: 0, lo: 0 }, lid);
                lemma_ensure_conversation_stamps(sa, st.conversation, lid);
                let row = crate::store::status_placeholder_row(st);
                match lid {
                    LogicalId::MessageId(u2) => {
                        lemma_find_first_push(s1.messages, is_message_id(u2), row);
                        lemma_find_first(s1.messages, is_message_id(u2));
                        lemma_stamps_after_ensure_messages(s, sa, s1);
                    },
                    LogicalId::StatusId(u2) => {
                        lemma_find_first_push(s1.messages, is_message_id(u2), row);
                        lemma_find_first(s1.messages, is_message_id(u2));
                        lemma_stamps_after_ensure_messages(s, sa, s1);
                    },
                    _ => {},
                }
            } else if s.messages[i].status_crdt.spec_lt(st.crdt) {
                let row = crate::store::MessageRowV {
                    status: st.status,
                    status_crdt: st.crdt,
                    ..s.messages[i]
                };
                let ms2 = s.messages.update(i, row);
                match lid {
                    LogicalId::MessageId(u2) => {
                        lemma_message_update_find(s, i, row, u2);
                        lemma_find_first(s.messages, is_message_id(u2));
                    },
                    LogicalId::StatusId(u2) => {
                        lemma_message_update_find(s, i, row, u2);
                        lemma_find_first(s.messages, is_message_id(u2));
                    },
                    _ => {},
                }
            }
        },
        PatchV::Attachment(a) => {
            let i = spec_find_attachment(s, a.id);
            lemma_find_first(s.attachments, is_attachment_id(a.id));
            if i >= 0 {
            } else {
                let s1 = spec_ensure_conversation(s, a.conversation);
                lemma_ensure_conversation_stamps(s, a.conversation, lid);
                match lid {
                    LogicalId::AttachmentId(u2) => {
                        lemma_find_first_push(s1.attachments, is_attachment_id(u2), a);
                        lemma_find_first(s1.attachments, is_attachment_id(u2));
                    },
                    _ => {},
                }
            }
        },
    }
}

/// The message table is untouched by the two get-or-create helpers.
proof fn lemma_stamps_after_ensure_messages(s: StoreV, sa: StoreV, s1: StoreV)
    requires
        sa.messages == s.messages,
        s1.messages == sa.messages,
    ensures
        s1.messages == s.messages,
{
}

/// Updating a message row without changing its id moves no find index.
proof fn lemma_message_update_find(s: StoreV, i: int, row: crate::store::MessageRowV, u2: Uuid)
    requires
        0 <= i < s.messages.len(),
        row.uuid == s.messages[i].uuid,
    ensures
        find_first(s.messages.update(i, row), is_message_id(u2)) == find_first(
            s.messages,
            is_message_id(u2),
        ),
        find_first(s.messages, is_message_id(u2)) != i ==> ({
            let f = find_first(s.messages, is_message_id(u2));
            0 <= f < s.messages.len() ==> s.messages.update(i, row)[f] == s.messages[f]
        }),
{
    let ms2 = s.messages.update(i, row);
    assert(forall|j: int|
        0 <= j < ms2.len() ==> is_message_id(u2)(#[trigger] ms2[j]) == is_message_id(u2)(
            s.messages[j],
        ));
    lemma_find_first_pointwise(ms2, s.messages, is_message_id(u2));
}

/// The join law for the internal message form.
proof fn lemma_merge_message_stamp(s: StoreV, nm: crate::patch::NewMessageV, lid: LogicalId)
    requires
        CrdtWritableSequence::spec_zero().spec_lt(nm.crdt) || nm.crdt
            == CrdtWritableSequence::spec_zero(),
    ensures
        stamp_of(crate::store::spec_merge_message(s, nm).0, lid) == if lid
            == LogicalId::MessageId(nm.id) {
            stamp_join(stamp_of(s, lid), StampOf::Sequenced(nm.crdt))
        } else {
            stamp_of(s, lid)
        },
{
    let i = spec_find_message(s, nm.id);
    lemma_find_first(s.messages, is_message_id(nm.id));
    if i < 0 {
        let sa = spec_ensure_contact(s, nm.from);
        let s1 = spec_ensure_conversation(sa, nm.conversation);
        lemma_ensure_contact_stamps(s, nm.from, lid);
        lemma_ensure_conversation_stamps(sa, nm.conversation, lid);
        let row = crate::store::new_message_row(nm);
        match lid {
            LogicalId::MessageId(u2) => {
                lemma_find_first_push(s1.messages, is_message_id(u2), row);
                lemma_find_first(s1.messages, is_message_id(u2));
                lemma_stamps_after_ensure_messages(s, sa, s1);
            },
            LogicalId::StatusId(u2) => {
                lemma_find_first_push(s1.messages, is_message_id(u2), row);
                lemma_find_first(s1.messages, is_message_id(u2));
                lemma_stamps_after_ensure_messages(s, sa, s1);
            },
            _ => {},
        }
    } else if s.messages[i].crdt.spec_lt(nm.crdt) {
        let sa = spec_ensure_contact(s, nm.from);
        let s1 = spec_ensure_conversation(sa, nm.conversation);
        lemma_ensure_contact_stamps(s, nm.from, lid);
        lemma_ensure_conversation_stamps(sa, nm.conversation, lid);
        lemma_stamps_after_ensure_messages(s, sa, s1);
        let j = spec_find_message(s1, nm.id);
        assert(j == i);
        let row = crate::store::MessageRowV {
            uuid: nm.id,
            from: nm.from,
            conversation: nm.conversation,
            text: nm.text,
            attachment: nm.attachment,
            status: s1.messages[j].status,
            crdt: nm.crdt,
            status_crdt: s1.messages[j].status_crdt,
        };
        match lid {
            LogicalId::MessageId(u2) => {
                lemma_message_update_find(s1, j, row, u2);
                lemma_find_first(s1.messages, is_message_id(u2));
            },
            LogicalId::StatusId(u2) => {
                lemma_message_update_find(s1, j, row, u2);
                lemma_find_first(s1.messages, is_message_id(u2));
            },
            _ => {},
        }
    }
}

// ---------------------------------------------------------------------
// Idempotence: applying a patch a second time is a no-op.
// ---------------------------------------------------------------------

/// Merging the same patch again keeps nothing and changes nothing.
pub proof fn lemma_merge_idempotent(s: StoreV, p: PatchV)
    ensures
        ({
            let (s1, _) = spec_merge_patch(s, p);
            spec_merge_patch(s1, p) == (s1, Option::<PatchV>::None)
        }),
{
    let s1 = spec_merge_patch(s, p).0;
    match p {
        PatchV::Contact(c) => {
            let i = spec_find_contact(s, c.key);
            lemma_find_first(s.contacts, is_contact_key(c.key));
            if i < 0 {
                assert(is_contact_key(c.key)(c));
                lemma_find_first_push(s.contacts, is_contact_key(c.key), c);
                lemma_find_first(s1.contacts, is_contact_key(c.key));
            } else if s.contacts[i].crdt.spec_lt(c.crdt) {
                let cs2 = s.contacts.update(i, c);
                assert(forall|j: int|
                    0 <= j < cs2.len() ==> is_contact_key(c.key)(#[trigger] cs2[j])
                        == is_contact_key(c.key)(s.contacts[j]));
                lemma_find_first_pointwise(cs2, s.contacts, is_contact_key(c.key));
                assert(spec_find_contact(s1, c.key) == i);
            }
        },
        PatchV::Conversation(c) => {
            let i = spec_find_conversation(s, c.id);
            lemma_find_first(s.conversations, is_conversation_id(c.id));
            if i < 0 {
                assert(is_conversation_id(c.id)(c));
                lemma_find_first_push(s.conversations, is_conversation_id(c.id), c);
                lemma_find_first(s1.conversations, is_conversation_id(c.id));
            } else if s.conversations[i].crdt.spec_lt(c.crdt) {
                let cs2 = s.conversations.update(i, c);
                assert(forall|j: int|
                    0 <= j < cs2.len() ==> is_conversation_id(c.id)(#[trigger] cs2[j])
                        == is_conversation_id(c.id)(s.conversations[j]));
                lemma_find_first_pointwise(cs2, s.conversations, is_conversation_id(c.id));
                assert(spec_find_conversation(s1, c.id) == i);
            }
        },
        PatchV::Member(m) => {
            lemma_ensure_contact_exists(s, m.key);
            let sa = spec_ensure_contact(s, m.key);
            lemma_ensure_conversation_exists(sa, m.conversation);
            let sb = spec_ensure_conversation(sa, m.conversation);
            if spec_find_member(sb, m.key, m.conversation) >= 0 {
                assert(spec_ensure_contact(sb, m.key) == sb);
                assert(spec_ensure_conversation(sb, m.conversation) == sb);
            } else {
                let sc = StoreV { members: sb.members.push(m), ..sb };
                assert(spec_find_contact(sc, m.key) == spec_find_contact(sb, m.key));
                assert(spec_find_conversation(sc, m.conversation) == spec_find_conversation(
                    sb,
                    m.conversation,
                ));
                assert(spec_ensure_contact(sc, m.key) == sc);
                assert(spec_ensure_conversation(sc, m.conversation) == sc);
                assert(is_member_of(m.key, m.conversation)(m));
                lemma_find_first_push(sb.members, is_member_of(m.key, m.conversation), m);
                lemma_find_first(sb.members, is_member_of(m.key, m.conversation));
                assert(spec_find_member(s1, m.key, m.conversation) >= 0);
            }
        },
        PatchV::NewTextMessage(mm) => {
            let nm = crate::patch::NewMessageV {
                id: mm.id,
                from: mm.from,
                conversation: mm.conversation,
                text: mm.text,
                attachment: Option::None,
                crdt: mm.crdt,
            };
            lemma_merge_message_idempotent(s, nm);
        },
        PatchV::NewAttachmentMessage(mm) => {
            let nm = crate::patch::NewMessageV {
                id: mm.id,
                from: mm.from,
                conversation: mm.conversation,
                text: mm.filename,
                attachment: Option::Some(mm.attachment),
                crdt: mm.crdt,
            };
            lemma_merge_message_idempotent(s, nm);
        },
        PatchV::MessageStatus(st) => {
            let i = spec_find_message(s, st.id);
            lemma_find_first(s.messages, is_message_id(st.id));
            if i < 0 {
                let sa = spec_ensure_contact(s, Key { hi: 0, lo: 0 });
                let sb = spec_ensure_conversation(sa, st.conversation);
                let row = crate::store::status_placeholder_row(st);
                lemma_find_first_push(sb.messages, is_message_id(st.id), row);
                lemma_find_first(sb.messages, is_message_id(st.id));
                assert(spec_find_message(s1, st.id) == sb.messages.len());
            } else if s.messages[i].status_crdt.spec_lt(st.crdt) {
                let row = crate::store::MessageRowV {
                    status: st.status,
                    status_crdt: st.crdt,
                    ..s.messages[i]
                };
                lemma_message_update_find(s, i, row, st.id);
            }
        },
        PatchV::Attachment(a) => {
            let i = spec_find_attachment(s, a.id);
            lemma_find_first(s.attachments, is_attachment_id(a.id));
            if i < 0 {
                let sb = spec_ensure_conversation(s, a.conversation);
                lemma_find_first_push(sb.attachments, is_attachment_id(a.id), a);
                lemma_find_first(sb.attachments, is_attachment_id(a.id));
            }
        },
    }
}

/// After get-or-create the contact row is present.
proof fn lemma_ensure_contact_exists(s: StoreV, key: Key)
    ensures
        ({
            let s1 = spec_ensure_contact(s, key);
            let i = spec_find_contact(s1, key);
            &&& 0 <= i < s1.contacts.len()
            &&& s1.contacts[i].key == key
        }),
{
    let s1 = spec_ensure_contact(s, key);
    if spec_find_contact(s, key) >= 0 {
        lemma_find_first(s.contacts, is_contact_key(key));
    } else {
        lemma_find_first_push(s.contacts, is_contact_key(key), crate::store::placeholder_contact(key));
        lemma_find_first(s1.contacts, is_contact_key(key));
    }
}

/// After get-or-create the conversation row is present.
proof fn lemma_ensure_conversation_exists(s: StoreV, id: Uuid)
    ensures
        ({
            let s1 = spec_ensure_conversation(s, id);
            let i = spec_find_conversation(s1, id);
            &&& 0 <= i < s1.conversations.len()
            &&& s1.conversations[i].id == id
        }),
{
    let s1 = spec_ensure_conversation(s, id);
    if spec_find_conversation(s, id) >= 0 {
        lemma_find_first(s.conversations, is_conversation_id(id));
    } else {
        lemma_find_first_push(
            s.conversations,
            is_conversation_id(id),
            crate::store::placeholder_conversation(id),
        );
        lemma_find_first(s1.conversations, is_conversation_id(id));
    }
}

/// Idempotence for the internal message form.
proof fn lemma_merge_message_idempotent(s: StoreV, nm: crate::patch::NewMessageV)
    ensures
        ({
            let (s1, _) = crate::store::spec_merge_message(s, nm);
            crate::store::spec_merge_message(s1, nm) == (
                s1,
                Option::<crate::patch::NewMessageV>::None,
            )
        }),
{
    let i = spec_find_message(s, nm.id);
    lemma_find_first(s.messages, is_message_id(nm.id));
    let s1 = crate::store::spec_merge_message(s, nm).0;
    if i < 0 {
        let sa = spec_ensure_contact(s, nm.from);
        let sb = spec_ensure_conversation(sa, nm.conversation);
        let row = crate::store::new_message_row(nm);
        lemma_find_first_push(sb.messages, is_message_id(nm.id), row);
        lemma_find_first(sb.messages, is_message_id(nm.id));
        assert(spec_find_message(s1, nm.id) == sb.messages.len());
    } else if s.messages[i].crdt.spec_lt(nm.crdt) {
        let sa = spec_ensure_contact(s, nm.from);
        let sb = spec_ensure_conversation(sa, nm.conversation);
        let j = spec_find_message(sb, nm.id);
        let row = crate::store::MessageRowV {
            uuid: nm.id,
            from: nm.from,
            conversation: nm.conversation,
            text: nm.text,
            attachment: nm.attachment,
            status: sb.messages[j].status,
            crdt: nm.crdt,
            status_crdt: sb.messages[j].status_crdt,
        };
        lemma_message_update_find(sb, j, row, nm.id);
    }
}

// ---------------------------------------------------------------------
// Order-independence and convergence of the stamp map.
// ---------------------------------------------------------------------

/// Patches on distinct logical identities commute: at every identity the
/// resulting stamp is the same in either merge order.
pub proof fn lemma_disjoint_merges_commute(s: StoreV, p: PatchV, q: PatchV, lid: LogicalId)
    requires
        patch_stamp_nonneg(p),
        patch_stamp_nonneg(q),
        patch_lid(p) != patch_lid(q),
    ensures
        stamp_of(spec_merge_patch(spec_merge_patch(s, p).0, q).0, lid) == stamp_of(
            spec_merge_patch(spec_merge_patch(s, q).0, p).0,
            lid,
        ),
{
    lemma_merge_stamp(s, p, lid);
    lemma_merge_stamp(spec_merge_patch(s, p).0, q, lid);
    lemma_merge_stamp(s, q, lid);
    lemma_merge_stamp(spec_merge_patch(s, q).0, p, lid);
}

/// The state after merging a list of patches, in list order.
pub open spec fn spec_merge_all(s: StoreV, ps: Seq<PatchV>) -> StoreV
    decreases ps.len(),
{
    if ps.len() == 0 {
        s
    } else {
        spec_merge_patch(spec_merge_all(s, ps.drop_last()), ps.last()).0
    }
}

/// Every patch in the list carries a stamp at or above bottom.
pub open spec fn all_stamps_nonneg(ps: Seq<PatchV>) -> bool {
    forall|i: int| 0 <= i < ps.len() ==> patch_stamp_nonneg(#[trigger] ps[i])
}

/// Two stamps of one kind.
pub open spec fn same_kind(a: StampOf, b: StampOf) -> bool {
    match (a, b) {
        (StampOf::Writable(_), StampOf::Writable(_)) => true,
        (StampOf::Sequenced(_), StampOf::Sequenced(_)) => true,
        (StampOf::Present(_), StampOf::Present(_)) => true,
        _ => false,
    }
}

/// The join of two stamps of one kind is their least upper bound.
pub proof fn lemma_join_lub(a: StampOf, b: StampOf)
    requires
        same_kind(a, b),
    ensures
        stamp_le(a, stamp_join(a, b)),
        stamp_le(b, stamp_join(a, b)),
        forall|u: StampOf| stamp_le(a, u) && stamp_le(b, u) ==> stamp_le(#[trigger] stamp_join(a, b), u),
{
}

/// The stamp order is antisymmetric on stamps of one kind.
pub proof fn lemma_stamp_antisym(a: StampOf, b: StampOf)
    requires
        stamp_le(a, b),
        stamp_le(b, a),
    ensures
        a == b,
{
}

/// A patch's stamp and the projection of its own identity have one kind.
pub proof fn lemma_patch_stamp_kind(s: StoreV, p: PatchV)
    ensures
        same_kind(stamp_of(s, patch_lid(p)), patch_stamp(p)),
{
}

/// After merging a list, the stamp at any identity is the least upper
/// bound of the initial stamp and the stamps of the list's patches that
/// address it.
pub proof fn lemma_merge_all_lub(s: StoreV, ps: Seq<PatchV>, lid: LogicalId)
    requires
        all_stamps_nonneg(ps),
    ensures
        stamp_le(stamp_of(s, lid), stamp_of(spec_merge_all(s, ps), lid)) || stamp_of(s, lid)
            == stamp_of(spec_merge_all(s, ps), lid),
        same_kind(stamp_of(s, lid), stamp_of(spec_merge_all(s, ps), lid)),
        forall|i: int|
            0 <= i < ps.len() && patch_lid(#[trigger] ps[i]) == lid ==> stamp_le(
                patch_stamp(ps[i]),
                stamp_of(spec_merge_all(s, ps), lid),
            ),
    decreases ps.len(),
{
    lemma_stamp_le_refl(stamp_of(s, lid));
    if ps.len() > 0 {
        let ps0 = ps.drop_last();
        assert(all_stamps_nonneg(ps0)) by {
            assert(forall|i: int| 0 <= i < ps0.len() ==> ps0[i] == ps[i]);
        }
        lemma_merge_all_lub(s, ps0, lid);
        let mid = spec_merge_all(s, ps0);
        let p = ps.last();
        assert(patch_stamp_nonneg(p));
        lemma_merge_stamp(mid, p, lid);
        if patch_lid(p) == lid {
            lemma_patch_stamp_kind(mid, p);
            lemma_join_lub(stamp_of(mid, lid), patch_stamp(p));
        }
        lemma_stamp_le_trans_all(s, mid, spec_merge_all(s, ps), lid, ps, ps0);
    }
}

/// Reflexivity of the stamp order.
pub proof fn lemma_stamp_le_refl(a: StampOf)
    ensures
        stamp_le(a, a),
{
}

/// Transitivity bookkeeping for the fold over a patch list.
proof fn lemma_stamp_le_trans_all(
    s: StoreV,
    mid: StoreV,
    fin: StoreV,
    lid: LogicalId,
    ps: Seq<PatchV>,
    ps0: Seq<PatchV>,
)
    requires
        stamp_le(stamp_of(s, lid), stamp_of(mid, lid)) || stamp_of(s, lid) == stamp_of(mid, lid),
        same_kind(stamp_of(s, lid), stamp_of(mid, lid)),
        stamp_le(stamp_of(mid, lid), stamp_of(fin, lid)) || stamp_of(mid, lid) == stamp_of(
            fin,
            lid,
        ),
        ps0 == ps.drop_last(),
        ps.len() > 0,
        forall|i: int|
            0 <= i < ps0.len() && patch_lid(#[trigger] ps0[i]) == lid ==> stamp_le(
                patch_stamp(ps0[i]),
                stamp_of(mid, lid),
            ),
        patch_lid(ps.last()) == lid ==> stamp_le(patch_stamp(ps.last()), stamp_of(fin, lid)),
    ensures
        stamp_le(stamp_of(s, lid), stamp_of(fin, lid)) || stamp_of(s, lid) == stamp_of(fin, lid),
        same_kind(stamp_of(s, lid), stamp_of(fin, lid)),
        forall|i: int|
            0 <= i < ps.len() && patch_lid(#[trigger] ps[i]) == lid ==> stamp_le(
                patch_stamp(ps[i]),
                stamp_of(fin, lid),
            ),
{
    lemma_stamp_le_refl(stamp_of(s, lid));
    lemma_stamp_le_refl(stamp_of(mid, lid));
    lemma_stamp_le_refl(stamp_of(fin, lid));
    assert forall|i: int|
        0 <= i < ps.len() && patch_lid(#[trigger] ps[i]) == lid implies stamp_le(
        patch_stamp(ps[i]),
        stamp_of(fin, lid),
    ) by {
        if i < ps.len() - 1 {
            assert(ps0[i] == ps[i]);
        }
    }
}

/// The final stamp never exceeds an upper bound of the initial stamp and
/// all matching patch stamps.
pub proof fn lemma_merge_all_minimal(s: StoreV, ps: Seq<PatchV>, lid: LogicalId, u: StampOf)
    requires
        all_stamps_nonneg(ps),
        stamp_le(stamp_of(s, lid), u),
        forall|i: int|
            0 <= i < ps.len() && patch_lid(#[trigger] ps[i]) == lid ==> stamp_le(
                patch_stamp(ps[i]),
                u,
            ),
    ensures
        stamp_le(stamp_of(spec_merge_all(s, ps), lid), u),
    decreases ps.len(),
{
    if ps.len() > 0 {
        let ps0 = ps.drop_last();
        assert(all_stamps_nonneg(ps0)) by {
            assert(forall|i: int| 0 <= i < ps0.len() ==> ps0[i] == ps[i]);
        }
        assert(forall|i: int|
            0 <= i < ps0.len() && patch_lid(#[trigger] ps0[i]) == lid ==> stamp_le(
                patch_stamp(ps0[i]),
                u,
            )) by {
            assert(forall|i: int| 0 <= i < ps0.len() ==> ps0[i] == ps[i]);
        }
        lemma_merge_all_minimal(s, ps0, lid, u);
        let mid = spec_merge_all(s, ps0);
        let p = ps.last();
        lemma_merge_stamp(mid, p, lid);
        if patch_lid(p) == lid {
            lemma_patch_stamp_kind(mid, p);
            lemma_join_lub(stamp_of(mid, lid), patch_stamp(p));
        }
    }
}

/// Monotonic convergence: two replicas that started equal and have merged
/// the same patches, in any interleaving and any order, store the same
/// stamp at every logical identity.
pub proof fn lemma_replicas_converge(s: StoreV, ps1: Seq<PatchV>, ps2: Seq<PatchV>, lid: LogicalId)
    requires
        all_stamps_nonneg(ps1),
        all_stamps_nonneg(ps2),
        forall|p: PatchV| ps1.contains(p) <==> ps2.contains(p),
    ensures
        stamp_of(spec_merge_all(s, ps1), lid) == stamp_of(spec_merge_all(s, ps2), lid),
{
    let a = stamp_of(spec_merge_all(s, ps1), lid);
    let b = stamp_of(spec_merge_all(s, ps2), lid);
    lemma_merge_all_lub(s, ps1, lid);
    lemma_merge_all_lub(s, ps2, lid);
    assert forall|i: int|
        0 <= i < ps1.len() && patch_lid(#[trigger] ps1[i]) == lid implies stamp_le(
        patch_stamp(ps1[i]),
        b,
    ) by {
        assert(ps1.contains(ps1[i]));
        assert(ps2.contains(ps1[i]));
        let j = choose|j: int| 0 <= j < ps2.len() && ps2[j] == ps1[i];
        assert(stamp_le(patch_stamp(ps2[j]), b));
    }
    assert forall|i: int|
        0 <= i < ps2.len() && patch_lid(#[trigger] ps2[i]) == lid implies stamp_le(
        patch_stamp(ps2[i]),
        a,
    ) by {
        assert(ps2.contains(ps2[i]));
        assert(ps1.contains(ps2[i]));
        let j = choose|j: int| 0 <= j < ps1.len() && ps1[j] == ps2[i];
        assert(stamp_le(patch_stamp(ps1[j]), a));
    }
    lemma_merge_all_minimal(s, ps1, lid, b);
    lemma_merge_all_minimal(s, ps2, lid, a);
    lemma_stamp_antisym(a, b);
}

// ---------------------------------------------------------------------
// Boundary laws.
// ---------------------------------------------------------------------

/// The store holds a row for the identity.
pub open spec fn row_exists(s: StoreV, lid: LogicalId) -> bool {
    match lid {
        LogicalId::ContactId(k) => spec_find_contact(s, k) >= 0,
        LogicalId::ConversationId(u) => spec_find_conversation(s, u) >= 0,
        LogicalId::MemberId(k, u) => spec_find_member(s, k, u) >= 0,
        LogicalId::MessageId(u) => spec_find_message(s, u) >= 0,
        LogicalId::StatusId(u) => spec_find_message(s, u) >= 0,
        LogicalId::AttachmentId(u) => spec_find_attachment(s, u) >= 0,
    }
}

/// A patch whose stamp equals the stored row's stamp is not accepted.
pub proof fn lemma_equal_stamp_not_accepted(s: StoreV, p: PatchV)
    requires
        row_exists(s, patch_lid(p)),
        stamp_of(s, patch_lid(p)) == patch_stamp(p),
    ensures
        spec_merge_patch(s, p).1 is None,
{
    match p {
        PatchV::Contact(c) => {
            lemma_find_first(s.contacts, is_contact_key(c.key));
        },
        PatchV::Conversation(c) => {
            lemma_find_first(s.conversations, is_conversation_id(c.id));
        },
        PatchV::Member(_) => {},
        PatchV::NewTextMessage(_) => {},
        PatchV::NewAttachmentMessage(_) => {},
        PatchV::MessageStatus(_) => {},
        PatchV::Attachment(_) => {},
    }
}

/// A push into an empty conversation takes sequence number one.
pub proof fn lemma_first_push_sequence(s: StoreV, author: Author, m: crate::patch::NewMessageV)
    requires
        crate::store::spec_last_seq(s.messages, m.conversation) is None,
    ensures
        spec_push_message(s, author, m).1.crdt.sequence == 1,
{
}

} // verus!
