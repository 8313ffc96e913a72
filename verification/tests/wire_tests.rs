use icechat::crdt::{Author, CrdtAddOnly, CrdtWritable, CrdtWritableSequence};
use icechat::patch::{
    Attachment, Contact, Conversation, Key, Member, MessageStatus, NewAttachmentMessage,
    NewTextMessage, Patch,
};
use icechat::sync::{PatchSyncMessage, SyncData, SyncDataId};
use icechat::uuid::Uuid;
use icechat::wire::{decode_message, encode_message};

fn key_of(fill: u8) -> Key {
    Key::new(vec![fill; 32]).unwrap()
}

fn roundtrip(m: PatchSyncMessage) {
    let bytes = encode_message(&m).expect("encodable");
    let back = decode_message(&bytes);
    assert_eq!(back, Some(m));
}

#[test]
fn ack_messages_roundtrip() {
    roundtrip(PatchSyncMessage::Ack(SyncDataId::Global(41)));
    roundtrip(PatchSyncMessage::Ack(SyncDataId::InitialSync(-7)));
}

#[test]
fn every_patch_kind_roundtrips() {
    let w = CrdtWritable { generation: 12, author: Author(-3) };
    let q = CrdtWritableSequence { writable: w, sequence: 9 };
    let patches = vec![
        Patch::Contact(Contact { key: key_of(1), name: "ami\u{00e9}".to_string(), crdt: w }),
        Patch::Conversation(Conversation {
            id: Uuid::from_u128(700),
            title: Some("plan \u{1f30d}".to_string()),
            crdt: w,
        }),
        Patch::Conversation(Conversation { id: Uuid::from_u128(700), title: None, crdt: w }),
        Patch::Member(Member {
            key: key_of(2),
            conversation: Uuid::from_u128(700),
            crdt: CrdtAddOnly(Author(5)),
        }),
        Patch::NewTextMessage(NewTextMessage {
            id: Uuid::from_u128(1),
            from: key_of(3),
            conversation: Uuid::from_u128(700),
            text: "hello there".to_string(),
            crdt: q,
        }),
        Patch::NewAttachmentMessage(NewAttachmentMessage {
            id: Uuid::from_u128(2),
            from: key_of(3),
            conversation: Uuid::from_u128(700),
            filename: "notes.txt".to_string(),
            attachment: Uuid::from_u128(9),
            crdt: q,
        }),
        Patch::MessageStatus(MessageStatus {
            id: Uuid::from_u128(1),
            conversation: Uuid::from_u128(700),
            status: 2,
            crdt: w,
        }),
        Patch::Attachment(Attachment {
            id: Uuid::from_u128(9),
            conversation: Uuid::from_u128(700),
            payload: Some(vec![1, 2, 3, 250]),
            crdt: CrdtAddOnly(Author(5)),
        }),
        Patch::Attachment(Attachment {
            id: Uuid::from_u128(9),
            conversation: Uuid::from_u128(700),
            payload: None,
            crdt: CrdtAddOnly(Author(5)),
        }),
    ];
    for (i, patch) in patches.into_iter().enumerate() {
        let id = if i % 2 == 0 {
            SyncDataId::Global(i as i32)
        } else {
            SyncDataId::InitialSync(i as i32)
        };
        roundtrip(PatchSyncMessage::Data(SyncData { id, payload: patch }));
    }
}

#[test]
fn garbage_does_not_decode() {
    assert_eq!(decode_message(&vec![]), None);
    assert_eq!(decode_message(&vec![9]), None);
    assert_eq!(decode_message(&vec![0, 0, 0, 0, 0, 1]), None);
    // A truncated contact: the name length overruns the frame.
    let mut bytes = vec![0u8, 0, 0, 0, 0, 1, 0];
    bytes.extend(vec![7u8; 32]);
    bytes.extend(vec![0xff, 0xff, 0xff, 0xff]);
    assert_eq!(decode_message(&bytes), None);
    // Trailing garbage after a well-formed ack.
    let mut ok = encode_message(&PatchSyncMessage::Ack(SyncDataId::Global(1))).unwrap();
    ok.push(0);
    assert_eq!(decode_message(&ok), None);
}

#[test]
fn the_wire_form_is_stable() {
    // Tag, then the sync id (tag and big-endian i32), nothing else.
    let bytes = encode_message(&PatchSyncMessage::Ack(SyncDataId::Global(0x01020304))).unwrap();
    assert_eq!(bytes, vec![1, 0, 1, 2, 3, 4]);
    let bytes =
        encode_message(&PatchSyncMessage::Ack(SyncDataId::InitialSync(0x01020304))).unwrap();
    assert_eq!(bytes, vec![1, 1, 1, 2, 3, 4]);
}
