use icechat::crdt::{Author, CrdtWritable};
use icechat::frame::{encode_packet, split_fragments};
use icechat::patch::{Conversation, Key, Patch};
use icechat::pipe_sync::PipeSync;
use icechat::store::Store;
use icechat::sync::{PatchSync, PatchSyncMessage, SyncData, SyncDataId};
use icechat::uuid::Uuid;

fn key_of(fill: u8) -> Key {
    Key::new(vec![fill; 32]).unwrap()
}

const ALICE_KEY: u8 = 0xA1;
const BOB_KEY: u8 = 0xB0;

fn conv() -> Uuid {
    Uuid::from_u128(3)
}

/// Run both engines until neither has anything to say.
fn drain(a: &mut Store, sa: &mut PatchSync, b: &mut Store, sb: &mut PatchSync) {
    loop {
        let mut progressed = false;
        if let Some(m) = sa.tx(a) {
            sb.rx(b, m);
            progressed = true;
        }
        if let Some(m) = sb.tx(b) {
            sa.rx(a, m);
            progressed = true;
        }
        if !progressed {
            break;
        }
    }
}

/// Alice and Bob share one conversation over one channel each.
fn linked_pair() -> (Store, PatchSync, Store, PatchSync) {
    let mut alice = Store::new(key_of(ALICE_KEY), Author(5));
    let mut bob = Store::new(key_of(BOB_KEY), Author(7));
    alice.create_conversation_with_id(Some("plans".to_string()), conv());
    alice.create_channel(conv(), key_of(BOB_KEY));
    bob.join_conversation(conv());
    bob.create_channel(conv(), key_of(ALICE_KEY));
    let sa = PatchSync::new(alice.channels[0].id, Author(7), conv());
    let sb = PatchSync::new(bob.channels[0].id, Author(5), conv());
    (alice, sa, bob, sb)
}

#[test]
fn two_replicas_one_message() {
    let (mut alice, mut sa, mut bob, mut sb) = linked_pair();
    alice.send_message_with_id(conv(), "hi".to_string(), Uuid::from_u128(42));
    drain(&mut alice, &mut sa, &mut bob, &mut sb);

    for store in [&alice, &bob] {
        let listed = store.list_messages(conv());
        assert_eq!(listed.len(), 1);
        assert_eq!(listed[0].content, "hi");
        assert_eq!(listed[0].status, 0);
        let i = store.find_message_idx(Uuid::from_u128(42)).unwrap();
        assert_eq!(store.messages[i].crdt.sequence, 1);
        assert_eq!(store.messages[i].crdt.writable.author, Author(5));
    }
}

#[test]
fn delivered_status() {
    let (mut alice, mut sa, mut bob, mut sb) = linked_pair();
    alice.send_message_with_id(conv(), "hi".to_string(), Uuid::from_u128(42));
    drain(&mut alice, &mut sa, &mut bob, &mut sb);

    let content_stamp = {
        let i = alice.find_message_idx(Uuid::from_u128(42)).unwrap();
        alice.messages[i].crdt
    };
    bob.set_message_status(Uuid::from_u128(42), conv(), 1);
    drain(&mut alice, &mut sa, &mut bob, &mut sb);

    let i = alice.find_message_idx(Uuid::from_u128(42)).unwrap();
    assert_eq!(alice.messages[i].status, 1);
    assert_eq!(alice.messages[i].text, "hi");
    assert_eq!(alice.messages[i].crdt, content_stamp);
    assert_eq!(
        alice.messages[i].status_crdt,
        CrdtWritable { generation: 1, author: Author(7) }
    );
}

#[test]
fn echo_suppression_under_reconnect() {
    let (mut alice, mut sa, mut bob, mut sb) = linked_pair();
    for n in 0..3u128 {
        alice.send_message_with_id(conv(), format!("m{n}"), Uuid::from_u128(100 + n));
    }
    drain(&mut alice, &mut sa, &mut bob, &mut sb);
    assert_eq!(bob.list_messages(conv()).len(), 3);
    assert_eq!(alice.list_messages(conv()).len(), 3);

    // Reconnect: fresh engines, cursors reset; the store's high-water
    // marks make retransmission a no-op and nothing echoes back.
    let mut sa2 = PatchSync::new(alice.channels[0].id, Author(7), conv());
    let mut sb2 = PatchSync::new(bob.channels[0].id, Author(5), conv());
    drain(&mut alice, &mut sa2, &mut bob, &mut sb2);

    assert_eq!(bob.list_messages(conv()).len(), 3);
    assert_eq!(alice.list_messages(conv()).len(), 3);
    for m in alice.list_messages(conv()) {
        assert_eq!(m.from, key_of(ALICE_KEY));
    }
}

#[test]
fn conversation_scoping() {
    let c1 = Uuid::from_u128(31);
    let c2 = Uuid::from_u128(32);
    let mut alice = Store::new(key_of(ALICE_KEY), Author(5));
    alice.create_conversation_with_id(Some("one".to_string()), c1);
    alice.create_conversation_with_id(Some("two".to_string()), c2);
    alice.create_channel(c1, key_of(BOB_KEY));
    alice.create_channel(c2, key_of(BOB_KEY));
    let c1_channel = alice.list_channels(c1)[0].id;
    let mut on_c1 = PatchSync::new(c1_channel, Author(7), c1);

    // Nothing the channel for the first conversation emits mentions the
    // second conversation.
    loop {
        match on_c1.tx(&mut alice) {
            None => break,
            Some(PatchSyncMessage::Data(d)) => {
                assert_ne!(d.conversation(), Some(c2));
                assert_ne!(d.author(), Author(7));
            },
            Some(PatchSyncMessage::Ack(_)) => {},
        }
    }

    // A patch for the second conversation injected by a faulty peer is
    // acknowledged without being merged.
    let foreign = SyncData {
        id: SyncDataId::Global(99),
        payload: Patch::Conversation(Conversation {
            id: c2,
            title: Some("smuggled".to_string()),
            crdt: CrdtWritable { generation: 50, author: Author(7) },
        }),
    };
    on_c1.rx(&mut alice, PatchSyncMessage::Data(foreign));
    assert_eq!(on_c1.tx(&mut alice), Some(PatchSyncMessage::Ack(SyncDataId::Global(99))));
    assert_eq!(alice.get_conversation(c2).unwrap().title, Some("two".to_string()));
}

#[test]
fn initial_snapshot_on_new_channel() {
    let mut alice = Store::new(key_of(ALICE_KEY), Author(5));
    alice.create_conversation_with_id(Some("plans".to_string()), conv());
    for n in 0..10u128 {
        alice.send_message_with_id(conv(), format!("m{n}"), Uuid::from_u128(100 + n));
    }
    alice.create_channel(conv(), key_of(0xCC));

    // The snapshot for the fresh channel: the conversation patch, every
    // contact, the members, then message content and status pairwise.
    let payloads: Vec<&Patch> = alice.initial_log.iter().map(|r| &r.payload).collect();
    assert!(matches!(payloads[0], Patch::Conversation(_)));
    let contacts =
        payloads.iter().filter(|p| matches!(p, Patch::Contact(_))).count();
    assert_eq!(contacts, 2);
    assert!(matches!(payloads[1], Patch::Contact(_)));
    assert!(matches!(payloads[3], Patch::Member(_)));
    let mut at = payloads.len() - 20;
    while at < payloads.len() {
        assert!(matches!(payloads[at], Patch::NewTextMessage(_)));
        assert!(matches!(payloads[at + 1], Patch::MessageStatus(_)));
        at += 2;
    }

    let mut carol = Store::new(key_of(0xCC), Author(9));
    carol.join_conversation(conv());
    carol.create_channel(conv(), key_of(ALICE_KEY));
    let mut sa = PatchSync::new(alice.channels[0].id, Author(9), conv());
    let mut sc = PatchSync::new(carol.channels[0].id, Author(5), conv());
    drain(&mut alice, &mut sa, &mut carol, &mut sc);

    assert_eq!(carol.list_messages(conv()), alice.list_messages(conv()));
    assert_eq!(
        carol.get_conversation(conv()).unwrap().title,
        Some("plans".to_string())
    );
    // The drained snapshot queue is gone.
    assert!(alice.initial_log.is_empty());
}

#[test]
fn concurrent_title_edits() {
    let mut alice = Store::new(key_of(ALICE_KEY), Author(5));
    let mut bob = Store::new(key_of(BOB_KEY), Author(7));
    alice.join_conversation(conv());
    bob.join_conversation(conv());
    alice.create_channel(conv(), key_of(BOB_KEY));
    bob.create_channel(conv(), key_of(ALICE_KEY));
    let mut sa = PatchSync::new(alice.channels[0].id, Author(7), conv());
    let mut sb = PatchSync::new(bob.channels[0].id, Author(5), conv());

    alice.save_conversation(Conversation {
        id: conv(),
        title: Some("X".to_string()),
        crdt: CrdtWritable::zero(),
    });
    bob.save_conversation(Conversation {
        id: conv(),
        title: Some("Y".to_string()),
        crdt: CrdtWritable::zero(),
    });
    drain(&mut alice, &mut sa, &mut bob, &mut sb);

    // Same generation on both edits: the larger author wins.
    assert_eq!(alice.get_conversation(conv()).unwrap().title, Some("Y".to_string()));
    assert_eq!(bob.get_conversation(conv()).unwrap().title, Some("Y".to_string()));
    assert_eq!(
        alice.get_conversation(conv()).unwrap().crdt,
        CrdtWritable { generation: 1, author: Author(7) }
    );

    // A later edit supersedes the tie.
    alice.save_conversation(Conversation {
        id: conv(),
        title: Some("Z".to_string()),
        crdt: CrdtWritable::zero(),
    });
    drain(&mut alice, &mut sa, &mut bob, &mut sb);
    assert_eq!(bob.get_conversation(conv()).unwrap().title, Some("Z".to_string()));
    assert_eq!(
        bob.get_conversation(conv()).unwrap().crdt,
        CrdtWritable { generation: 2, author: Author(5) }
    );
}

/// Drive a whole pipe session pair: engine, wire codec, framing, and a
/// byte transport that delivers fragments.
#[test]
fn sync_test() {
    let (mut alice, sa, mut bob, sb) = linked_pair();
    alice.send_message_with_id(conv(), "over the wire".to_string(), Uuid::from_u128(42));

    let mut pa = PipeSync::new(sa);
    let mut pb = PipeSync::new(sb);
    let mut rounds = 0;
    loop {
        rounds += 1;
        assert!(rounds < 1000, "the session should go quiet");
        let mut progressed = false;
        pa.pre_wait(&mut alice).unwrap();
        if let Some(frame) = pa.take_outgoing() {
            let packet = encode_packet(&frame);
            for fragment in split_fragments(&packet) {
                pb.handle_incoming(&fragment);
            }
            progressed = true;
        }
        pb.pre_wait(&mut bob).unwrap();
        if let Some(frame) = pb.take_outgoing() {
            let packet = encode_packet(&frame);
            for fragment in split_fragments(&packet) {
                pa.handle_incoming(&fragment);
            }
            progressed = true;
        }
        if pa.poll_frame() {
            progressed = true;
        }
        if pb.poll_frame() {
            progressed = true;
        }
        if !progressed {
            break;
        }
    }

    assert_eq!(bob.list_messages(conv()).len(), 1);
    assert_eq!(bob.list_messages(conv())[0].content, "over the wire");
    assert_eq!(alice.list_messages(conv()), bob.list_messages(conv()));
}
