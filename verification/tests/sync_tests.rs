use icechat::crdt::{Author, CrdtAddOnly, CrdtWritable, CrdtWritableSequence};
use icechat::patch::{
    Attachment, Contact, Conversation, Key, Member, MessageStatus, NewAttachmentMessage,
    NewTextMessage, Patch,
};
use icechat::store::{ChannelRow, Store};
use icechat::sync::{PatchSync, PatchSyncMessage, SyncData, SyncDataId};
use icechat::uuid::Uuid;

const PEER: Author = Author(3);
const USER: Author = Author(5);

fn key_of(fill: u8) -> Key {
    Key::new(vec![fill; 32]).unwrap()
}

fn same_conversation() -> Uuid {
    Uuid::from_u128(3)
}

fn other_conversation() -> Uuid {
    Uuid::from_u128(5)
}

fn peer_patch() -> Patch {
    Patch::Contact(Contact {
        key: key_of(0),
        name: String::new(),
        crdt: CrdtWritable { author: PEER, generation: 0 },
    })
}

fn user_patch() -> Patch {
    Patch::Contact(Contact {
        key: key_of(0),
        name: String::new(),
        crdt: CrdtWritable { author: USER, generation: 0 },
    })
}

/// A store with one channel row for the conversation, cursor at zero.
fn given() -> (Store, PatchSync) {
    let mut store = Store::new(key_of(0xaa), USER);
    store.channels.push(ChannelRow {
        id: 1,
        conversation: same_conversation(),
        peer: key_of(0xbb),
        sync_index: 0,
    });
    let sync = PatchSync::new(1, PEER, same_conversation());
    (store, sync)
}

fn a_contact_patch() -> Patch {
    Patch::Contact(Contact {
        key: key_of(0),
        name: String::new(),
        crdt: CrdtWritable { author: USER, generation: 0 },
    })
}

fn a_conversation_patch() -> Patch {
    Patch::Conversation(Conversation {
        id: same_conversation(),
        title: None,
        crdt: CrdtWritable { author: USER, generation: 0 },
    })
}

fn a_member_patch() -> Patch {
    Patch::Member(Member {
        key: key_of(0),
        conversation: same_conversation(),
        crdt: CrdtAddOnly(USER),
    })
}

fn a_text_message_patch() -> Patch {
    Patch::NewTextMessage(NewTextMessage {
        id: Uuid::zero(),
        from: key_of(0),
        conversation: same_conversation(),
        text: String::new(),
        crdt: CrdtWritableSequence {
            writable: CrdtWritable { author: USER, generation: 0 },
            sequence: 0,
        },
    })
}

fn a_message_status_patch() -> Patch {
    Patch::MessageStatus(MessageStatus {
        id: Uuid::zero(),
        conversation: same_conversation(),
        status: 0,
        crdt: CrdtWritable { author: USER, generation: 0 },
    })
}

fn an_attachment_patch() -> Patch {
    Patch::Attachment(Attachment {
        id: Uuid::zero(),
        conversation: same_conversation(),
        payload: None,
        crdt: CrdtAddOnly(USER),
    })
}

fn an_attachment_message_patch() -> Patch {
    Patch::NewAttachmentMessage(NewAttachmentMessage {
        id: Uuid::zero(),
        from: key_of(0),
        conversation: same_conversation(),
        filename: String::new(),
        attachment: Uuid::zero(),
        crdt: CrdtWritableSequence {
            writable: CrdtWritable { author: USER, generation: 0 },
            sequence: 0,
        },
    })
}

#[test]
fn given_a_sync_data_the_conversation_is_inferred_from_the_patch() {
    let cases: Vec<(Patch, Option<Uuid>)> = vec![
        (a_contact_patch(), None),
        (a_conversation_patch(), Some(same_conversation())),
        (a_member_patch(), Some(same_conversation())),
        (a_text_message_patch(), Some(same_conversation())),
        (a_message_status_patch(), Some(same_conversation())),
        (an_attachment_patch(), Some(same_conversation())),
        (an_attachment_message_patch(), Some(same_conversation())),
    ];
    for (patch, conversation) in cases {
        let sync_data = SyncData { id: SyncDataId::Global(0), payload: patch };
        assert_eq!(sync_data.conversation(), conversation);
    }
}

#[test]
fn given_a_sync_data_the_author_is_inferred_from_the_patch() {
    let cases: Vec<Patch> = vec![
        a_contact_patch(),
        a_conversation_patch(),
        a_member_patch(),
        a_text_message_patch(),
        a_message_status_patch(),
        an_attachment_patch(),
        an_attachment_message_patch(),
    ];
    for patch in cases {
        let sync_data = SyncData { id: SyncDataId::Global(37), payload: patch };
        assert_eq!(sync_data.author(), USER);
    }
}

#[test]
fn and_there_is_a_pending_patch_then_it_sends_the_patch_as_a_tx_message() {
    let (mut store, mut sync) = given();
    store.save_patch(user_patch());
    let tx = sync.tx(&mut store);
    assert_eq!(
        tx,
        Some(PatchSyncMessage::Data(SyncData { id: SyncDataId::Global(1), payload: user_patch() }))
    );
}

#[test]
fn and_there_are_several_pending_patches_then_it_sends_each_one_patch_then_nothing_else() {
    let (mut store, mut sync) = given();
    store.push_initial(1, user_patch());
    store.save_patch(user_patch());
    store.save_patch(user_patch());

    let tx = sync.tx(&mut store);
    assert_eq!(
        tx,
        Some(PatchSyncMessage::Data(SyncData {
            id: SyncDataId::InitialSync(1),
            payload: user_patch()
        }))
    );
    let tx = sync.tx(&mut store);
    assert_eq!(
        tx,
        Some(PatchSyncMessage::Data(SyncData { id: SyncDataId::Global(1), payload: user_patch() }))
    );
    let tx = sync.tx(&mut store);
    assert_eq!(
        tx,
        Some(PatchSyncMessage::Data(SyncData { id: SyncDataId::Global(2), payload: user_patch() }))
    );
    let tx = sync.tx(&mut store);
    assert_eq!(tx, None);
}

fn given_received() -> (Store, PatchSync, SyncData) {
    let (mut store, mut sync) = given();
    let data = SyncData { id: SyncDataId::Global(37), payload: peer_patch() };
    sync.rx(&mut store, PatchSyncMessage::Data(data.clone()));
    (store, sync, data)
}

#[test]
fn then_it_sends_an_acknowledge() {
    let (mut store, mut sync, data) = given_received();
    let message = sync.tx(&mut store);
    assert_eq!(message, Some(PatchSyncMessage::Ack(data.id)));
}

#[test]
fn then_it_merges_the_patch() {
    let (store, _, _) = given_received();
    assert!(store.get_contact(key_of(0)).is_some());
    assert_eq!(store.get_contact(key_of(0)).unwrap().crdt.author, PEER);
}

#[test]
fn then_it_and_saves_the_patch() {
    let (store, _, _) = given_received();
    assert_eq!(store.sync_log.len(), 1);
    assert_eq!(store.sync_log[0].payload, peer_patch());
}

#[test]
fn when_it_receives_a_repeated_patch_then_it_acknowledges_it() {
    let (mut store, mut sync, data) = given_received();
    // Drain the first ack.
    let _ = sync.tx(&mut store);
    let saved = store.sync_log.len();
    sync.rx(&mut store, PatchSyncMessage::Data(data.clone()));
    let ack = sync.tx(&mut store);
    assert_eq!(ack, Some(PatchSyncMessage::Ack(data.id)));
    // And it does not save it again: the merge rejected the repeat.
    assert_eq!(store.sync_log.len(), saved);
}

#[test]
fn when_it_receives_an_ack_message_it_sets_it_on_database() {
    let (mut store, mut sync) = given();
    store.save_patch(user_patch());
    store.save_patch(user_patch());
    store.save_patch(user_patch());
    sync.rx(&mut store, PatchSyncMessage::Ack(SyncDataId::Global(3)));
    assert_eq!(store.channels[0].sync_index, 3);
    // Rows at or below the least high-water mark are collected.
    assert!(store.sync_log.is_empty());
}

fn given_received_foreign() -> (Store, PatchSync, SyncData) {
    let (mut store, mut sync) = given();
    let diff_conv = SyncData {
        id: SyncDataId::Global(37),
        payload: Patch::Conversation(Conversation {
            id: other_conversation(),
            title: None,
            crdt: CrdtWritable { author: PEER, generation: 1 },
        }),
    };
    sync.rx(&mut store, PatchSyncMessage::Data(diff_conv.clone()));
    (store, sync, diff_conv)
}

#[test]
fn it_does_not_merge_the_patch() {
    let (store, _, _) = given_received_foreign();
    assert!(store.get_conversation(other_conversation()).is_none());
    assert!(store.sync_log.is_empty());
}

#[test]
fn then_it_acknowledges_the_message() {
    let (mut store, mut sync, data) = given_received_foreign();
    let tx = sync.tx(&mut store);
    assert_eq!(tx, Some(PatchSyncMessage::Ack(data.id)));
}

#[test]
fn when_it_receives_a_message_with_correct_conversation_it_is_merged() {
    let (mut store, mut sync) = given();
    let correct = SyncData {
        id: SyncDataId::Global(37),
        payload: Patch::Conversation(Conversation {
            id: same_conversation(),
            title: Some("team".to_string()),
            crdt: CrdtWritable { author: PEER, generation: 1 },
        }),
    };
    sync.rx(&mut store, PatchSyncMessage::Data(correct));
    let info = store.get_conversation(same_conversation()).unwrap();
    assert_eq!(info.title, Some("team".to_string()));
}

#[test]
fn then_it_doesnt_send_it() {
    // The next pending patch is from the peer itself.
    let (mut store, mut sync) = given();
    store.save_patch(peer_patch());
    let tx = sync.tx(&mut store);
    assert_eq!(tx, None);
}

#[test]
fn sync_then_patch_is_marked_as_handled() {
    let (mut store, mut sync) = given();
    store.save_patch(peer_patch());
    sync.tx(&mut store);
    assert_eq!(store.channels[0].sync_index, 1);
}

#[test]
fn and_there_is_another_patch_in_the_list_then_it_sends_the_second_patch() {
    let (mut store, mut sync) = given();
    store.save_patch(peer_patch());
    store.save_patch(user_patch());
    let tx = sync.tx(&mut store);
    assert_eq!(
        tx,
        Some(PatchSyncMessage::Data(SyncData { id: SyncDataId::Global(2), payload: user_patch() }))
    );
}

#[test]
fn then_the_patch_is_not_sent() {
    // The next pending patch is scoped to another conversation.
    let (mut store, mut sync) = given();
    store.save_patch(Patch::Conversation(Conversation {
        id: other_conversation(),
        title: None,
        crdt: CrdtWritable { author: USER, generation: 1 },
    }));
    let tx = sync.tx(&mut store);
    assert_eq!(tx, None);
    assert_eq!(store.channels[0].sync_index, 1);
}

#[test]
fn and_there_is_a_pending_patch_after_a_foreign_one_then_it_sends_it() {
    let (mut store, mut sync) = given();
    store.save_patch(Patch::Conversation(Conversation {
        id: other_conversation(),
        title: None,
        crdt: CrdtWritable { author: USER, generation: 1 },
    }));
    let another = Patch::Conversation(Conversation {
        id: same_conversation(),
        title: None,
        crdt: CrdtWritable { author: USER, generation: 1 },
    });
    store.save_patch(another.clone());
    let tx = sync.tx(&mut store);
    assert_eq!(
        tx,
        Some(PatchSyncMessage::Data(SyncData { id: SyncDataId::Global(2), payload: another }))
    );
}
