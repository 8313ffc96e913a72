use icechat::crdt::{Author, CrdtWritable, CrdtWritableSequence};
use icechat::patch::{Contact, Key, NewMessage, Patch};
use icechat::store::Store;
use icechat::uuid::{SplitUuid, Uuid};

fn key_of(fill: u8) -> Key {
    Key::new(vec![fill; 32]).unwrap()
}

fn fresh_store(author: i32) -> Store {
    Store::new(key_of(0xaa), Author(author))
}

fn contact_patch(key: Key, name: &str, generation: i32, author: i32) -> Contact {
    Contact {
        key,
        name: name.to_string(),
        crdt: CrdtWritable { generation, author: Author(author) },
    }
}

#[test]
fn if_there_is_nothing_already_existing_then_merge_overwrites() {
    let mut store = fresh_store(1);
    let patch = contact_patch(key_of(1), "nia", 1, 4);
    let kept = store.merge_contact(patch.clone());
    assert_eq!(kept, Some(patch.clone()));
    assert_eq!(store.get_contact(key_of(1)), Some(patch));
}

#[test]
fn if_the_element_is_same_nothing_is_done() {
    let mut store = fresh_store(1);
    let patch = contact_patch(key_of(1), "nia", 1, 4);
    assert!(store.merge_contact(patch.clone()).is_some());
    let before = store.get_contact(key_of(1));
    assert_eq!(store.merge_contact(patch), None);
    assert_eq!(store.get_contact(key_of(1)), before);
}

#[test]
fn the_bigger_generation_will_wins_the_merge() {
    let mut store = fresh_store(1);
    let bigger_gen = contact_patch(key_of(1), "new", 10, 1);
    let smaller_gen = contact_patch(key_of(1), "old", 9, 100);
    assert!(store.merge_contact(smaller_gen.clone()).is_some());
    assert_eq!(store.merge_contact(bigger_gen.clone()), Some(bigger_gen.clone()));
    assert_eq!(store.get_contact(key_of(1)), Some(bigger_gen.clone()));
    assert_eq!(store.merge_contact(smaller_gen), None);
    assert_eq!(store.get_contact(key_of(1)), Some(bigger_gen));
}

#[test]
fn if_the_generation_is_same_the_bigger_author_wins_the_merge() {
    let mut store = fresh_store(1);
    let bigger_author = contact_patch(key_of(1), "big", 3, 100);
    let smaller_author = contact_patch(key_of(1), "small", 3, 10);
    assert!(store.merge_contact(smaller_author.clone()).is_some());
    assert_eq!(store.merge_contact(bigger_author.clone()), Some(bigger_author.clone()));
    assert_eq!(store.get_contact(key_of(1)), Some(bigger_author));
    let mut other = fresh_store(1);
    let bigger = contact_patch(key_of(1), "big", 3, 100);
    let smaller = contact_patch(key_of(1), "small", 3, 10);
    assert!(other.merge_contact(bigger.clone()).is_some());
    assert_eq!(other.merge_contact(smaller), None);
    assert_eq!(other.get_contact(key_of(1)), Some(bigger));
}

#[test]
fn on_empty_list_the_value_is_added_with_gen_1() {
    let mut store = fresh_store(5);
    let added = store.add_contact(contact_patch(key_of(1), "nia", 0, 0));
    assert_eq!(added.crdt, CrdtWritable { generation: 1, author: Author(5) });
    assert_eq!(store.get_contact(key_of(1)), Some(added));
}

#[test]
fn on_replacing_value_the_gen_will_be_the_next_in_sequence() {
    let mut store = fresh_store(5);
    let mut first = contact_patch(key_of(1), "nia", 0, 0);
    first.crdt = CrdtWritable { generation: 2, author: Author(3) };
    assert!(store.merge_contact(first).is_some());
    let added = store.add_contact(contact_patch(key_of(1), "nia two", 0, 0));
    assert_eq!(added.crdt, CrdtWritable { generation: 3, author: Author(5) });
    assert_eq!(store.get_contact(key_of(1)), Some(added));
}

#[test]
fn stamp_order_is_lexicographic() {
    let low = CrdtWritable { generation: 1, author: Author(100) };
    let high = CrdtWritable { generation: 2, author: Author(1) };
    assert!(low.lt(&high));
    assert!(!high.lt(&low));
    let tie_low = CrdtWritable { generation: 2, author: Author(0) };
    assert!(tie_low.lt(&high));
    assert!(!high.lt(&high));
    let seq_low = CrdtWritableSequence { writable: low, sequence: 50 };
    let seq_high = CrdtWritableSequence { writable: high, sequence: 1 };
    assert!(seq_low.lt(&seq_high));
    assert_eq!(high.next(Author(9)), CrdtWritable { generation: 3, author: Author(9) });
}

#[test]
fn on_an_empty_list_the_value_index_is_one() {
    let mut store = fresh_store(5);
    let conversation = Uuid::from_u128(3);
    let item = NewMessage {
        id: Uuid::from_u128(77),
        from: key_of(1),
        conversation,
        text: "a".to_string(),
        attachment: None,
        crdt: CrdtWritableSequence::zero(),
    };
    let pushed = store.push_message(item);
    assert_eq!(
        pushed.crdt,
        CrdtWritableSequence {
            writable: CrdtWritable { generation: 1, author: Author(5) },
            sequence: 1,
        }
    );
}

#[test]
fn on_list_with_elements_will_be_one_plus_the_last_element() {
    let mut store = fresh_store(5);
    let conversation = Uuid::from_u128(3);
    let existing = NewMessage {
        id: Uuid::from_u128(66),
        from: key_of(2),
        conversation,
        text: "b".to_string(),
        attachment: None,
        crdt: CrdtWritableSequence {
            writable: CrdtWritable { generation: 1, author: Author(7) },
            sequence: 1,
        },
    };
    assert!(store.merge_new_message(existing).is_some());
    let item = NewMessage {
        id: Uuid::from_u128(77),
        from: key_of(1),
        conversation,
        text: "a".to_string(),
        attachment: None,
        crdt: CrdtWritableSequence::zero(),
    };
    let pushed = store.push_message(item);
    assert_eq!(
        pushed.crdt,
        CrdtWritableSequence {
            writable: CrdtWritable { generation: 1, author: Author(5) },
            sequence: 2,
        }
    );
}

#[test]
fn if_pushing_an_already_existent_it_goes_to_end_of_list() {
    let mut store = fresh_store(5);
    let conversation = Uuid::from_u128(3);
    let existing = NewMessage {
        id: Uuid::from_u128(77),
        from: key_of(2),
        conversation,
        text: "b".to_string(),
        attachment: None,
        crdt: CrdtWritableSequence {
            writable: CrdtWritable { generation: 3, author: Author(7) },
            sequence: 1,
        },
    };
    assert!(store.merge_new_message(existing).is_some());
    let item = NewMessage {
        id: Uuid::from_u128(77),
        from: key_of(1),
        conversation,
        text: "a".to_string(),
        attachment: None,
        crdt: CrdtWritableSequence::zero(),
    };
    let pushed = store.push_message(item);
    assert_eq!(
        pushed.crdt,
        CrdtWritableSequence {
            writable: CrdtWritable { generation: 4, author: Author(5) },
            sequence: 2,
        }
    );
    let listed = store.list_messages(conversation);
    assert_eq!(listed.len(), 1);
    assert_eq!(listed[0].content, "a");
}

#[test]
fn conversion_test() {
    let uuid = Uuid::from_u128(0xf533992a_d13b_4b22_9b7e_9b62_efcc_a545u128);
    let split = SplitUuid::from(uuid);
    assert_eq!(
        split,
        SplitUuid(
            0xf533992a_u32 as i32,
            0xd13b4b22_u32 as i32,
            0x9b7e9b62_u32 as i32,
            0xefcca545_u32 as i32
        )
    );
    let uuid_back = Uuid::from(split);
    assert_eq!(uuid_back, uuid);
}

#[test]
fn equal_writable_patch_is_not_accepted() {
    let mut store = fresh_store(1);
    let patch = contact_patch(key_of(1), "nia", 4, 9);
    assert!(store.merge_contact(patch.clone()).is_some());
    let same_stamp = contact_patch(key_of(1), "other name", 4, 9);
    assert_eq!(store.merge_contact(same_stamp), None);
    assert_eq!(store.get_contact(key_of(1)).unwrap().name, "nia");
}

#[test]
fn merging_on_disjoint_ids_commutes() {
    let p = Patch::Contact(contact_patch(key_of(1), "one", 1, 5));
    let q = Patch::Contact(contact_patch(key_of(2), "two", 1, 7));
    let mut ab = fresh_store(1);
    p.clone().merge(&mut ab);
    q.clone().merge(&mut ab);
    let mut ba = fresh_store(1);
    q.merge(&mut ba);
    p.merge(&mut ba);
    assert_eq!(ab.get_contact(key_of(1)), ba.get_contact(key_of(1)));
    assert_eq!(ab.get_contact(key_of(2)), ba.get_contact(key_of(2)));
}
