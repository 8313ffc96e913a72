//! Identity and the per-peer channel session.
//!
//! A peer is named by its Ed25519 certificate: 32 bytes of public key
//! material derived from a 32-byte seed. The 32-bit author id is the
//! XOR-fold of the certificate's first four little-endian words. Two peers
//! agree on a rendezvous channel string by X25519 agreement over their
//! keys and a conversation-specific salt.
//!
//! The session itself is a small lifecycle: offline, pre-connecting (a
//! connection was requested), connecting (the transport is being built),
//! connected (a pipe session is running). The awaiting lives outside; the
//! transitions and what they carry are verified here.

use vstd::prelude::*;

use crate::crdt::Author;
use crate::patch::Key;
use crate::pipe_sync::PipeSync;
use crate::sync::PatchSync;
use crate::uuid::Uuid;

verus! {

/// A 32-byte Ed25519 seed: the local private identity.
#[derive(Clone)]
pub struct Ed25519Seed(pub [u8; 32]);

/// A 32-byte Ed25519 public key: a peer's certificate.
#[derive(Clone, Copy, Debug, PartialEq, Eq, Hash)]
pub struct Ed25519Cert(pub [u8; 32]);

/// The public key ring derives from a seed; a function of the seed alone.
pub uninterp spec fn ed25519_public_of(seed: Seq<u8>) -> Seq<u8>;

/// The rendezvous string two peers derive for a salt; a function of the
/// seed, the salt and the peer certificate alone.
pub uninterp spec fn x25519_channel_of(seed: Seq<u8>, salt: Seq<char>, peer: Seq<u8>) -> Seq<char>;

/// Whether 32 certificate bytes decompress to a curve point, so that the
/// agreement can be computed; a function of the bytes alone.
pub uninterp spec fn x25519_point_valid(peer: Seq<u8>) -> bool;

impl Ed25519Seed {
    /// Wrap a 32-byte seed.
    pub fn new(seed: [u8; 32]) -> (r: Ed25519Seed)
        ensures
            r.0@ == seed@,
    {
        Ed25519Seed(seed)
    }

    /// Relies on ring's SystemRandom for a fresh seed; nothing is assumed
    /// of the bytes drawn.
    #[verifier::external_body]
    pub fn generate() -> Ed25519Seed {
        let seed: [u8; 32] = ring::rand::generate(&ring::rand::SystemRandom::new())
            .unwrap()
            .expose();
        Ed25519Seed(seed)
    }

    /// Relies on ring's Ed25519KeyPair::from_seed_unchecked and
    /// public_key: every 32-byte seed is accepted, and the public key is a
    /// function of the seed alone.
    #[verifier::external_body]
    pub fn public_key(&self) -> (r: Ed25519Cert)
        ensures
            r.0@ == ed25519_public_of(self.0@),
            r.0@.len() == 32,
    {
        let key_pair = ring::signature::Ed25519KeyPair::from_seed_unchecked(&self.0).unwrap();
        let public: &[u8] = ring::signature::KeyPair::public_key(&key_pair).as_ref();
        Ed25519Cert(public.try_into().unwrap())
    }

    /// Relies on icepipe's curve25519 conversions and PskAuthentication::
    /// derive_text: the Ed25519 seed and the peer certificate convert to
    /// X25519 keys, their shared secret is hex-spelled and stretched into
    /// a channel name; the result depends on seed, salt and peer alone.
    /// `None` exactly when the peer bytes decompress to no curve point.
    #[verifier::external_body]
    pub fn x25519_agree(&self, salt: &str, peer_cert: &Ed25519Cert) -> (r: Option<String>)
        ensures
            r is Some <==> x25519_point_valid(peer_cert.0@),
            r matches Some(s) ==> s@ == x25519_channel_of(self.0@, salt@, peer_cert.0@),
    {
        let x25519_user = icepipe::curve25519_conversion::ed25519_seed_to_x25519(
            self.0.as_slice(),
        );
        let x25519_peer = icepipe::curve25519_conversion::ed25519_public_key_to_x25519(
            peer_cert.0.as_slice(),
        )?;
        let secret = x25519_user.diffie_hellman(&x25519_peer);
        let basekey = secret.as_bytes().iter().map(|x| format!("{x:02x}")).collect::<String>();
        Some(icepipe::agreement::PskAuthentication::derive_text(&basekey, salt))
    }

    /// The seed bytes, for callers that rebuild the ring key pair.
    pub fn to_vec(&self) -> (r: Vec<u8>)
        ensures
            r@ == self.0@,
    {
        bytes32_to_vec(&self.0)
    }
}

/// Copy a 32-byte array into a vector.
pub fn bytes32_to_vec(b: &[u8; 32]) -> (r: Vec<u8>)
    ensures
        r@ == b@,
{
    let mut out: Vec<u8> = Vec::new();
    let mut i: usize = 0;
    while i < 32
        invariant
            i <= 32,
            b@.len() == 32,
            out@ == b@.subrange(0, i as int),
        decreases 32 - i,
    {
        out.push(b[i]);
        proof {
            assert(out@ =~= b@.subrange(0, i + 1));
        }
        i = i + 1;
    }
    proof {
        assert(b@.subrange(0, 32) =~= b@);
    }
    out
}

/// The little-endian 32-bit word at offset `k` of `b`.
pub open spec fn le32_at(b: Seq<u8>, k: int) -> u32 {
    (b[k] as u32) | ((b[k + 1] as u32) << 8) | ((b[k + 2] as u32) << 16) | ((b[k + 3] as u32)
        << 24)
}

/// The author id folded from a certificate: the XOR of its first four
/// little-endian words.
pub open spec fn spec_as_author(b: Seq<u8>) -> i32 {
    (le32_at(b, 0) ^ le32_at(b, 4) ^ le32_at(b, 8) ^ le32_at(b, 12)) as i32
}

/// The lower-case hex digit for a value below sixteen.
pub open spec fn hex_digit(n: u8) -> char {
    if n == 0 {
        '0'
    } else if n == 1 {
        '1'
    } else if n == 2 {
        '2'
    } else if n == 3 {
        '3'
    } else if n == 4 {
        '4'
    } else if n == 5 {
        '5'
    } else if n == 6 {
        '6'
    } else if n == 7 {
        '7'
    } else if n == 8 {
        '8'
    } else if n == 9 {
        '9'
    } else if n == 10 {
        'a'
    } else if n == 11 {
        'b'
    } else if n == 12 {
        'c'
    } else if n == 13 {
        'd'
    } else if n == 14 {
        'e'
    } else {
        'f'
    }
}

/// The lower-case hex spelling of a byte string, two digits per byte.
pub open spec fn spec_hex(b: Seq<u8>) -> Seq<char>
    decreases b.len(),
{
    if b.len() == 0 {
        Seq::empty()
    } else {
        spec_hex(b.drop_last()) + seq![
            hex_digit(b.last() / 16),
            hex_digit(b.last() % 16),
        ]
    }
}

/// Relies on String::from_iter over characters: collecting yields the
/// string of exactly those characters in order.
#[verifier::external_body]
pub(crate) fn string_from_chars(chars: &Vec<char>) -> (r: String)
    ensures
        r@ == chars@,
{
    chars.iter().collect()
}

/// Pick the lower-case hex digit for a value below sixteen.
fn hex_digit_exec(n: u8) -> (r: char)
    requires
        n < 16,
    ensures
        r == hex_digit(n),
{
    if n == 0 {
        '0'
    } else if n == 1 {
        '1'
    } else if n == 2 {
        '2'
    } else if n == 3 {
        '3'
    } else if n == 4 {
        '4'
    } else if n == 5 {
        '5'
    } else if n == 6 {
        '6'
    } else if n == 7 {
        '7'
    } else if n == 8 {
        '8'
    } else if n == 9 {
        '9'
    } else if n == 10 {
        'a'
    } else if n == 11 {
        'b'
    } else if n == 12 {
        'c'
    } else if n == 13 {
        'd'
    } else if n == 14 {
        'e'
    } else {
        'f'
    }
}

/// The lower-case hex spelling of a byte vector.
pub fn hex_of_bytes(b: &Vec<u8>) -> (r: String)
    ensures
        r@ == spec_hex(b@),
{
    let n: usize = b.len();
    let mut chars: Vec<char> = Vec::new();
    let mut i: usize = 0;
    while i < n
        invariant
            i <= n,
            n == b@.len(),
            chars@ == spec_hex(b@.subrange(0, i as int)),
        decreases n - i,
    {
        let byte = b[i];
        chars.push(hex_digit_exec(byte / 16));
        chars.push(hex_digit_exec(byte % 16));
        proof {
            assert(b@.subrange(0, i + 1).drop_last() =~= b@.subrange(0, i as int));
            assert(b@.subrange(0, i + 1).last() == b@[i as int]);
            assert(chars@ =~= spec_hex(b@.subrange(0, i + 1)));
        }
        i = i + 1;
    }
    proof {
        assert(b@.subrange(0, n as int) =~= b@);
    }
    string_from_chars(&chars)
}

impl Ed25519Cert {
    /// The 32-bit author id this certificate folds to.
    pub fn as_author(&self) -> (r: Author)
        ensures
            r.0 == spec_as_author(self.0@),
    {
        let w0 = (self.0[0] as u32) | ((self.0[1] as u32) << 8) | ((self.0[2] as u32) << 16) | ((
        self.0[3] as u32) << 24);
        let w1 = (self.0[4] as u32) | ((self.0[5] as u32) << 8) | ((self.0[6] as u32) << 16) | ((
        self.0[7] as u32) << 24);
        let w2 = (self.0[8] as u32) | ((self.0[9] as u32) << 8) | ((self.0[10] as u32) << 16) | ((
        self.0[11] as u32) << 24);
        let w3 = (self.0[12] as u32) | ((self.0[13] as u32) << 8) | ((self.0[14] as u32) << 16) | ((
        self.0[15] as u32) << 24);
        Author((w0 ^ w1 ^ w2 ^ w3) as i32)
    }

    /// The lower-case hex spelling of the certificate.
    pub fn hex(&self) -> (r: String)
        ensures
            r@ == spec_hex(self.0@),
    {
        let v = bytes32_to_vec(&self.0);
        hex_of_bytes(&v)
    }

    /// The certificate as key material for the store.
    pub fn to_key(&self) -> (r: Key)
        ensures
            crate::patch::spec_key_bytes(r) == self.0@,
    {
        let v = bytes32_to_vec(&self.0);
        match Key::new(v) {
            Ok(k) => k,
            Err(_) => {
                proof {
                    assert(false);
                }
                Key::zero()
            },
        }
    }
}

/// The certificate form of stored key material.
pub fn cert_of_key(k: &Key) -> (r: Ed25519Cert)
    ensures
        r.0@ == crate::patch::spec_key_bytes(*k),
{
    let mut v: Vec<u8> = Vec::new();
    k.push_bytes(&mut v);
    let arr: [u8; 32] = [
        v[0], v[1], v[2], v[3], v[4], v[5], v[6], v[7],
        v[8], v[9], v[10], v[11], v[12], v[13], v[14], v[15],
        v[16], v[17], v[18], v[19], v[20], v[21], v[22], v[23],
        v[24], v[25], v[26], v[27], v[28], v[29], v[30], v[31],
    ];
    proof {
        assert(arr@ =~= v@);
    }
    Ed25519Cert(arr)
}

/// The hyphenated lower-case spelling of a UUID: five hex groups of its
/// big-endian bytes.
pub open spec fn spec_uuid_display(u: Uuid) -> Seq<char> {
    let b = crate::uuid::spec_uuid_bytes(u);
    spec_hex(b.subrange(0, 4)) + seq!['-'] + spec_hex(b.subrange(4, 6)) + seq!['-'] + spec_hex(
        b.subrange(6, 8),
    ) + seq!['-'] + spec_hex(b.subrange(8, 10)) + seq!['-'] + spec_hex(b.subrange(10, 16))
}

/// The salt a channel's agreement uses: a fixed prefix naming the scheme,
/// then the conversation's display form.
pub open spec fn spec_channel_salt(conversation: Uuid) -> Seq<char> {
    seq!['c', 'h', 'a', 'n', 'n', 'e', 'l', ':'] + spec_uuid_display(conversation)
}

/// Append the hex spelling of `b[from..to]`.
fn push_hex_range(chars: &mut Vec<char>, b: &Vec<u8>, from: usize, to: usize)
    requires
        from <= to,
        to <= b@.len(),
    ensures
        final(chars)@ == old(chars)@ + spec_hex(b@.subrange(from as int, to as int)),
{
    let mut i: usize = from;
    while i < to
        invariant
            from <= i <= to,
            to <= b@.len(),
            chars@ == old(chars)@ + spec_hex(b@.subrange(from as int, i as int)),
        decreases to - i,
    {
        let byte = b[i];
        chars.push(hex_digit_exec(byte / 16));
        chars.push(hex_digit_exec(byte % 16));
        proof {
            assert(b@.subrange(from as int, i + 1).drop_last() =~= b@.subrange(
                from as int,
                i as int,
            ));
            assert(b@.subrange(from as int, i + 1).last() == b@[i as int]);
            assert(chars@ =~= old(chars)@ + spec_hex(b@.subrange(from as int, i + 1)));
        }
        i = i + 1;
    }
}

/// The salt a channel's agreement uses, as a string.
pub fn channel_salt(conversation: Uuid) -> (r: String)
    ensures
        r@ == spec_channel_salt(conversation),
{
    let mut bytes: Vec<u8> = Vec::new();
    conversation.push_bytes(&mut bytes);
    proof {
        assert(bytes@ =~= crate::uuid::spec_uuid_bytes(conversation));
    }
    let mut chars: Vec<char> = Vec::new();
    chars.push('c');
    chars.push('h');
    chars.push('a');
    chars.push('n');
    chars.push('n');
    chars.push('e');
    chars.push('l');
    chars.push(':');
    proof {
        assert(chars@ =~= seq!['c', 'h', 'a', 'n', 'n', 'e', 'l', ':']);
    }
    push_hex_range(&mut chars, &bytes, 0, 4);
    chars.push('-');
    proof {
        assert(chars@ =~= seq!['c', 'h', 'a', 'n', 'n', 'e', 'l', ':'] + spec_hex(
            bytes@.subrange(0, 4),
        ) + seq!['-']);
    }
    push_hex_range(&mut chars, &bytes, 4, 6);
    chars.push('-');
    push_hex_range(&mut chars, &bytes, 6, 8);
    chars.push('-');
    push_hex_range(&mut chars, &bytes, 8, 10);
    chars.push('-');
    push_hex_range(&mut chars, &bytes, 10, 16);
    proof {
        assert(chars@ =~= spec_channel_salt(conversation));
    }
    string_from_chars(&chars)
}

/// What a session needs to reach one peer about one conversation: the
/// channel row id, the conversation, the peer's certificate, and the
/// rendezvous string both sides derive.
#[derive(Clone, Debug, PartialEq, Eq)]
pub struct ChannelData {
    pub id: i32,
    pub conversation: Uuid,
    pub peer_cert: Ed25519Cert,
    pub channel: String,
}

impl ChannelData {
    /// Assemble the session data for a channel row; `None` exactly when
    /// the peer certificate is no curve point. The rendezvous string is
    /// the agreement under the salt naming the conversation.
    pub fn new(id: i32, conversation: Uuid, peer_cert: Ed25519Cert, private: &Ed25519Seed) -> (r:
        Option<ChannelData>)
        ensures
            r is Some <==> x25519_point_valid(peer_cert.0@),
            r matches Some(c) ==> c.id == id && c.conversation == conversation && c.peer_cert
                == peer_cert && c.channel@ == x25519_channel_of(
                private.0@,
                spec_channel_salt(conversation),
                peer_cert.0@,
            ),
    {
        let salt = channel_salt(conversation);
        let channel = match private.x25519_agree(salt.as_str(), &peer_cert) {
            Some(c) => c,
            None => {
                return None;
            },
        };
        Some(ChannelData { id, conversation, peer_cert, channel })
    }
}

/// The session lifecycle, as shown to the hub and the user layer.
#[derive(Clone, Copy, Debug, PartialEq, Eq, Structural)]
pub enum ChannelStateLabel {
    Offline,
    PreConnecting,
    Connecting,
    Connected,
}

/// One per-peer session: its channel data, its lifecycle state, and,
/// while it is not offline, the pipe session carrying the engine.
pub struct Channel {
    pub channel: ChannelData,
    pub label: ChannelStateLabel,
    pub pipe: Option<PipeSync>,
}

impl Channel {
    /// A fresh offline session.
    pub fn new(channel: ChannelData) -> (r: Channel)
        ensures
            r.label == ChannelStateLabel::Offline,
            r.channel == channel,
            r.pipe is None,
    {
        Channel { channel, label: ChannelStateLabel::Offline, pipe: None }
    }

    /// The session's lifecycle state.
    pub fn state(&self) -> (r: ChannelStateLabel)
        ensures
            r == self.label,
    {
        self.label
    }

    /// Offline, with a fresh engine: the session asks for a connection.
    pub fn connect(&mut self, sync: PatchSync)
        ensures
            final(self).label == ChannelStateLabel::PreConnecting,
            final(self).channel == old(self).channel,
            final(self).pipe matches Some(p) && p.sync == sync && p.pending is None && p.frag@
                == Seq::<u8>::empty(),
    {
        self.label = ChannelStateLabel::PreConnecting;
        self.pipe = Some(PipeSync::new(sync));
    }

    /// The connection request was issued: the caller is now building the
    /// transport named by the rendezvous string.
    pub fn start_connection(&mut self)
        requires
            old(self).label == ChannelStateLabel::PreConnecting,
        ensures
            final(self).label == ChannelStateLabel::Connecting,
            final(self).channel == old(self).channel,
            final(self).pipe == old(self).pipe,
    {
        self.label = ChannelStateLabel::Connecting;
    }

    /// The transport is up: the pipe session runs.
    pub fn connected(&mut self)
        requires
            old(self).label == ChannelStateLabel::Connecting,
        ensures
            final(self).label == ChannelStateLabel::Connected,
            final(self).channel == old(self).channel,
            final(self).pipe == old(self).pipe,
    {
        self.label = ChannelStateLabel::Connected;
    }

    /// Any error, end of stream, or explicit close: back to offline. The
    /// store keeps the cursor, so a later connect resumes where the
    /// channel's high-water mark says.
    pub fn disconnect(&mut self)
        ensures
            final(self).label == ChannelStateLabel::Offline,
            final(self).channel == old(self).channel,
            final(self).pipe is None,
    {
        self.label = ChannelStateLabel::Offline;
        self.pipe = None;
    }
}

} // verus!
