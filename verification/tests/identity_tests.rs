use icechat::channel::{Channel, ChannelData, ChannelStateLabel, Ed25519Cert, Ed25519Seed};
use icechat::crdt::Author;
use icechat::hub::Chat;
use icechat::patch::Key;
use icechat::store::Store;
use icechat::uuid::Uuid;

#[test]
fn author_is_the_xor_fold_of_the_first_four_words() {
    let mut bytes = [0u8; 32];
    bytes[0] = 1;
    bytes[4] = 2;
    bytes[8] = 4;
    bytes[12] = 8;
    let cert = Ed25519Cert(bytes);
    assert_eq!(cert.as_author(), Author(15));

    let mut negative = [0u8; 32];
    negative[3] = 0x80;
    assert_eq!(Ed25519Cert(negative).as_author(), Author(i32::MIN));
}

#[test]
fn hex_spells_every_byte_low_nibble_last() {
    let mut bytes = [0xabu8; 32];
    bytes[0] = 0x01;
    bytes[31] = 0xf0;
    let hex = Ed25519Cert(bytes).hex();
    assert_eq!(hex.len(), 64);
    assert!(hex.starts_with("01abab"));
    assert!(hex.ends_with("ababf0"));
}

#[test]
fn public_key_is_deterministic_and_peers_agree_on_the_channel() {
    let seed_a = Ed25519Seed::new([1u8; 32]);
    let seed_b = Ed25519Seed::new([2u8; 32]);
    let pub_a = seed_a.public_key();
    let pub_b = seed_b.public_key();
    assert_eq!(pub_a, seed_a.public_key());
    assert_ne!(pub_a.0, pub_b.0);

    let ab = seed_a.x25519_agree("salt", &pub_b).unwrap();
    let ba = seed_b.x25519_agree("salt", &pub_a).unwrap();
    assert_eq!(ab, ba);
    assert!(!ab.is_empty());

    let other_salt = seed_a.x25519_agree("other", &pub_b).unwrap();
    assert_ne!(ab, other_salt);
}

#[test]
fn generated_seeds_differ() {
    let a = Ed25519Seed::generate();
    let b = Ed25519Seed::generate();
    assert_ne!(a.to_vec(), b.to_vec());
}

#[test]
fn channel_data_carries_the_agreed_rendezvous_string() {
    let seed_a = Ed25519Seed::new([1u8; 32]);
    let seed_b = Ed25519Seed::new([2u8; 32]);
    let conversation = Uuid::from_u128(77);
    let a_side = ChannelData::new(1, conversation, seed_b.public_key(), &seed_a).unwrap();
    let b_side = ChannelData::new(9, conversation, seed_a.public_key(), &seed_b).unwrap();
    assert_eq!(a_side.channel, b_side.channel);
    assert_eq!(a_side.conversation, conversation);
}

#[test]
fn the_session_lifecycle_walks_its_states() {
    let seed = Ed25519Seed::new([1u8; 32]);
    let peer = Ed25519Seed::new([2u8; 32]).public_key();
    let data = ChannelData::new(1, Uuid::from_u128(3), peer, &seed).unwrap();
    let mut session = Channel::new(data.clone());
    assert_eq!(session.state(), ChannelStateLabel::Offline);
    session.connect(Chat::start_sync(&data));
    assert_eq!(session.state(), ChannelStateLabel::PreConnecting);
    session.start_connection();
    assert_eq!(session.state(), ChannelStateLabel::Connecting);
    session.connected();
    assert_eq!(session.state(), ChannelStateLabel::Connected);
    session.disconnect();
    assert_eq!(session.state(), ChannelStateLabel::Offline);
}

#[test]
fn the_hub_tracks_the_persisted_channel_set() {
    let seed = Ed25519Seed::new([1u8; 32]);
    let me = seed.public_key().to_key();
    let peer = Ed25519Seed::new([2u8; 32]).public_key().to_key();
    let conversation = Uuid::from_u128(3);
    let mut store = Store::new(me, Author(5));
    store.create_conversation_with_id(None, conversation);
    store.create_channel(conversation, peer);
    let mut chat = Chat::new(store);

    chat.sync_channels(&seed);
    assert_eq!(chat.sync.len(), 1);
    assert_eq!(chat.sync[0].state(), ChannelStateLabel::Offline);

    chat.connect_offline();
    assert_eq!(chat.sync[0].state(), ChannelStateLabel::PreConnecting);

    chat.store.remove_channel(conversation, peer);
    chat.sync_channels(&seed);
    assert_eq!(chat.sync.len(), 0);
}

#[test]
fn a_key_and_its_certificate_carry_the_same_bytes() {
    let cert = Ed25519Cert([9u8; 32]);
    let key: Key = cert.to_key();
    assert_eq!(key, Key::new(vec![9u8; 32]).unwrap());
    assert_eq!(icechat::channel::cert_of_key(&key), cert);
}

#[test]
fn bad_key_material_is_rejected() {
    assert!(Key::new(vec![1u8; 31]).is_err());
    assert!(Key::new(vec![1u8; 33]).is_err());
    assert_eq!(Key::new(vec![]).unwrap_err().message(), "Key should have 32 bytes");
    assert!(Key::new(vec![1u8; 32]).is_ok());
}
