use icechat::crdt::{Author, CrdtWritable};
use icechat::patch::{Contact, Key, Patch};
use icechat::pipe_sync::{PipeSync, PipeSyncError, PipeSyncPending};
use icechat::store::{ChannelRow, Store};
use icechat::sync::{PatchSync, SyncDataId};
use icechat::uuid::Uuid;

fn key_of(fill: u8) -> Key {
    Key::new(vec![fill; 32]).unwrap()
}

fn conv() -> Uuid {
    Uuid::from_u128(3)
}

#[test]
fn save_contact_logs_the_stamped_patch() {
    let mut store = Store::new(key_of(0xaa), Author(5));
    store.save_contact(Contact {
        key: key_of(0xaa),
        name: "ada".to_string(),
        crdt: CrdtWritable::zero(),
    });
    let stored = store.get_contact(key_of(0xaa)).unwrap();
    assert_eq!(stored.name, "ada");
    assert_eq!(stored.crdt, CrdtWritable { generation: 1, author: Author(5) });
    assert_eq!(store.sync_log.len(), 1);
    match &store.sync_log[0].payload {
        Patch::Contact(c) => assert_eq!(c.name, "ada"),
        other => panic!("unexpected log entry {other:?}"),
    }
}

#[test]
fn list_conversation_carries_members() {
    let mut store = Store::new(key_of(0xaa), Author(5));
    store.create_conversation_with_id(Some("plans".to_string()), conv());
    store.create_channel(conv(), key_of(0xbb));
    let listed = store.list_conversation();
    assert_eq!(listed.len(), 1);
    assert_eq!(listed[0].uuid, conv());
    assert_eq!(listed[0].title, Some("plans".to_string()));
    assert_eq!(listed[0].members, vec![key_of(0xaa), key_of(0xbb)]);
    assert_eq!(store.get_conversation(conv()).unwrap(), listed[0]);
}

#[test]
fn new_messages_reports_only_foreign_unread_messages() {
    let mut store = Store::new(key_of(0xaa), Author(5));
    store.create_conversation_with_id(None, conv());
    store.send_message_with_id(conv(), "mine".to_string(), Uuid::from_u128(1));
    let mut sync = {
        store.channels.push(ChannelRow {
            id: 1,
            conversation: conv(),
            peer: key_of(0xbb),
            sync_index: 0,
        });
        PatchSync::new(1, Author(7), conv())
    };
    // A message from the peer arrives.
    let inbound = Patch::NewTextMessage(icechat::patch::NewTextMessage {
        id: Uuid::from_u128(2),
        from: key_of(0xbb),
        conversation: conv(),
        text: "theirs".to_string(),
        crdt: icechat::crdt::CrdtWritableSequence {
            writable: CrdtWritable { generation: 1, author: Author(7) },
            sequence: 1,
        },
    });
    sync.rx(
        &mut store,
        icechat::sync::PatchSyncMessage::Data(icechat::sync::SyncData {
            id: SyncDataId::Global(9),
            payload: inbound,
        }),
    );

    let fresh = store.new_messages();
    assert_eq!(fresh.len(), 1);
    assert_eq!(fresh[0].content, "theirs");
    assert_eq!(fresh[0].from, key_of(0xbb));

    // Marking it delivered empties the report.
    store.set_message_status(fresh[0].uuid, fresh[0].conversation, 1);
    assert!(store.new_messages().is_empty());
}

#[test]
fn send_file_stores_the_attachment_and_the_shell() {
    let mut store = Store::new(key_of(0xaa), Author(5));
    store.create_conversation_with_id(None, conv());
    let att = Uuid::from_u128(50);
    let msg = Uuid::from_u128(51);
    store.send_file_with_ids(conv(), "notes.txt".to_string(), vec![1, 2, 3], att, msg);

    let i = store.find_attachment_idx(att).unwrap();
    assert_eq!(store.attachments[i].payload, Some(vec![1, 2, 3]));
    assert_eq!(store.attachments[i].conversation, conv());

    let j = store.find_message_idx(msg).unwrap();
    assert_eq!(store.messages[j].text, "notes.txt");
    assert_eq!(store.messages[j].attachment, Some(att));
    assert_eq!(store.messages[j].crdt.sequence, 1);

    // Both patches went to the log: the attachment, then the shell,
    // after the conversation's own creation patch.
    assert!(matches!(store.sync_log[1].payload, Patch::Attachment(_)));
    assert!(matches!(store.sync_log[2].payload, Patch::NewAttachmentMessage(_)));
}

#[test]
fn a_row_survives_until_every_channel_acked_past_it() {
    let mut store = Store::new(key_of(0xaa), Author(5));
    store.channels.push(ChannelRow { id: 1, conversation: conv(), peer: key_of(1), sync_index: 0 });
    store.channels.push(ChannelRow { id: 2, conversation: conv(), peer: key_of(2), sync_index: 0 });
    store.save_patch(Patch::Contact(Contact {
        key: key_of(9),
        name: String::new(),
        crdt: CrdtWritable { generation: 1, author: Author(5) },
    }));

    store.ack(1, SyncDataId::Global(1));
    // The second channel has not passed the row: it must stay.
    assert_eq!(store.sync_log.len(), 1);
    store.ack(2, SyncDataId::Global(1));
    // Now every channel is past it: it is gone.
    assert!(store.sync_log.is_empty());
}

#[test]
fn a_frame_that_does_not_decode_fails_the_session() {
    let mut store = Store::new(key_of(0xaa), Author(5));
    let sync = PatchSync::new(1, Author(7), conv());
    let mut pipe = PipeSync::new(sync);
    pipe.pending = Some(PipeSyncPending::Rx(vec![0xde, 0xad]));
    let r = pipe.pre_wait(&mut store);
    assert_eq!(r, Err(PipeSyncError::DecodeError));
    assert_eq!(
        PipeSyncError::DecodeError.message(),
        "a frame from the peer did not decode"
    );
}

#[test]
fn remove_channel_drops_its_pending_snapshot_but_not_patches() {
    let mut store = Store::new(key_of(0xaa), Author(5));
    store.create_conversation_with_id(None, conv());
    store.send_message_with_id(conv(), "kept".to_string(), Uuid::from_u128(1));
    store.create_channel(conv(), key_of(0xbb));
    assert!(!store.initial_log.is_empty());
    let patches_before = store.sync_log.len();

    store.remove_channel(conv(), key_of(0xbb));
    assert!(store.initial_log.is_empty());
    assert!(store.channels.is_empty());
    assert_eq!(store.sync_log.len(), patches_before);
    assert_eq!(store.list_messages(conv()).len(), 1);
}
