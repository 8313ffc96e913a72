//! The stable wire encoding of replication messages.
//!
//! Big-endian fixed-width integers, explicit variant tags in declaration
//! order, strings as a 32-bit byte length followed by UTF-8, byte payloads
//! as a 32-bit length followed by the bytes, options as a one-byte tag.
//! Decoding inverts encoding exactly; the round trip is proved below.

use vstd::prelude::*;

use crate::crdt::{Author, CrdtAddOnly, CrdtWritable, CrdtWritableSequence};
use crate::patch::{
    spec_key_bytes, Attachment, Contact, Conversation, Key, Member, MessageStatus,
    NewAttachmentMessage, NewTextMessage, Patch, PatchV,
};
use crate::store::view_opt;
use crate::sync::{PatchSyncMessage, PatchSyncMessageV, SyncData, SyncDataId, SyncDataV};
use crate::util::{be32_bytes, be32_read, lemma_be32_roundtrip, lemma_i32_u32_roundtrip, push_be32};
use crate::uuid::{spec_uuid_bytes, Uuid};
use vstd::utf8::{decode_utf8, encode_utf8, valid_utf8};

verus! {

/// Strings and payloads must announce their length in 32 bits.
pub const LEN_LIMIT: u64 = 0x1_0000_0000;

// ---------------------------------------------------------------------
// The encoding, as a mathematical function of the message.
// ---------------------------------------------------------------------

pub open spec fn enc_i32(v: i32) -> Seq<u8> {
    be32_bytes(v as u32)
}

pub open spec fn enc_writable(w: CrdtWritable) -> Seq<u8> {
    enc_i32(w.generation) + enc_i32(w.author.0)
}

pub open spec fn enc_sequenced(q: CrdtWritableSequence) -> Seq<u8> {
    enc_writable(q.writable) + enc_i32(q.sequence)
}

pub open spec fn enc_str(t: Seq<char>) -> Seq<u8> {
    be32_bytes(encode_utf8(t).len() as u32) + encode_utf8(t)
}

pub open spec fn enc_bytes(b: Seq<u8>) -> Seq<u8> {
    be32_bytes(b.len() as u32) + b
}

pub open spec fn enc_opt_str(t: Option<Seq<char>>) -> Seq<u8> {
    match t {
        Option::None => seq![0u8],
        Option::Some(t) => seq![1u8] + enc_str(t),
    }
}

pub open spec fn enc_opt_bytes(b: Option<Seq<u8>>) -> Seq<u8> {
    match b {
        Option::None => seq![0u8],
        Option::Some(b) => seq![1u8] + enc_bytes(b),
    }
}

pub open spec fn enc_patch(p: PatchV) -> Seq<u8> {
    match p {
        PatchV::Contact(c) => seq![0u8] + spec_key_bytes(c.key) + enc_str(c.name) + enc_writable(
            c.crdt,
        ),
        PatchV::Conversation(c) => seq![1u8] + spec_uuid_bytes(c.id) + enc_opt_str(c.title)
            + enc_writable(c.crdt),
        PatchV::Member(m) => seq![2u8] + spec_key_bytes(m.key) + spec_uuid_bytes(m.conversation)
            + enc_i32(m.crdt.0.0),
        PatchV::NewTextMessage(m) => seq![3u8] + spec_uuid_bytes(m.id) + spec_key_bytes(m.from)
            + spec_uuid_bytes(m.conversation) + enc_str(m.text) + enc_sequenced(m.crdt),
        PatchV::NewAttachmentMessage(m) => seq![4u8] + spec_uuid_bytes(m.id) + spec_key_bytes(
            m.from,
        ) + spec_uuid_bytes(m.conversation) + enc_str(m.filename) + spec_uuid_bytes(m.attachment)
            + enc_sequenced(m.crdt),
        PatchV::MessageStatus(st) => seq![5u8] + spec_uuid_bytes(st.id) + spec_uuid_bytes(
            st.conversation,
        ) + enc_i32(st.status) + enc_writable(st.crdt),
        PatchV::Attachment(a) => seq![6u8] + spec_uuid_bytes(a.id) + spec_uuid_bytes(a.conversation)
            + enc_opt_bytes(a.payload) + enc_i32(a.crdt.0.0),
    }
}

pub open spec fn enc_sync_id(id: SyncDataId) -> Seq<u8> {
    match id {
        SyncDataId::Global(g) => seq![0u8] + enc_i32(g),
        SyncDataId::InitialSync(i) => seq![1u8] + enc_i32(i),
    }
}

pub open spec fn spec_encode_message(m: PatchSyncMessageV) -> Seq<u8> {
    match m {
        PatchSyncMessageV::Data(d) => seq![0u8] + enc_sync_id(d.id) + enc_patch(d.payload),
        PatchSyncMessageV::Ack(id) => seq![1u8] + enc_sync_id(id),
    }
}

/// The string's UTF-8 form fits the 32-bit length prefix.
pub open spec fn wf_str(t: Seq<char>) -> bool {
    encode_utf8(t).len() < LEN_LIMIT
}

pub open spec fn wf_opt_str(t: Option<Seq<char>>) -> bool {
    match t {
        Option::None => true,
        Option::Some(t) => wf_str(t),
    }
}

/// Every length-prefixed field of the patch fits its prefix.
pub open spec fn wf_patch(p: PatchV) -> bool {
    match p {
        PatchV::Contact(c) => wf_str(c.name),
        PatchV::Conversation(c) => wf_opt_str(c.title),
        PatchV::Member(_) => true,
        PatchV::NewTextMessage(m) => wf_str(m.text),
        PatchV::NewAttachmentMessage(m) => wf_str(m.filename),
        PatchV::MessageStatus(_) => true,
        PatchV::Attachment(a) => match a.payload {
            Option::None => true,
            Option::Some(b) => b.len() < LEN_LIMIT,
        },
    }
}

pub open spec fn wf_message(m: PatchSyncMessageV) -> bool {
    match m {
        PatchSyncMessageV::Data(d) => wf_patch(d.payload),
        PatchSyncMessageV::Ack(_) => true,
    }
}

// ---------------------------------------------------------------------
// Executable encoder.
// ---------------------------------------------------------------------

/// Append the bytes of a slice.
fn push_slice(out: &mut Vec<u8>, b: &[u8])
    ensures
        final(out)@ == old(out)@ + b@,
{
    let n: usize = b.len();
    let mut i: usize = 0;
    while i < n
        invariant
            i <= n,
            n == b@.len(),
            out@ == old(out)@ + b@.subrange(0, i as int),
        decreases n - i,
    {
        out.push(b[i]);
        proof {
            assert(out@ =~= old(out)@ + b@.subrange(0, i + 1));
        }
        i = i + 1;
    }
    proof {
        assert(old(out)@ + b@.subrange(0, n as int) =~= old(out)@ + b@);
    }
}

/// Append an `i32` big-endian.
fn push_i32(out: &mut Vec<u8>, v: i32)
    ensures
        final(out)@ == old(out)@ + enc_i32(v),
{
    push_be32(out, v as u32);
}

fn push_writable(out: &mut Vec<u8>, w: &CrdtWritable)
    ensures
        final(out)@ == old(out)@ + enc_writable(*w),
{
    push_i32(out, w.generation);
    push_i32(out, w.author.0);
    proof {
        assert(final(out)@ =~= old(out)@ + enc_writable(*w));
    }
}

fn push_sequenced(out: &mut Vec<u8>, q: &CrdtWritableSequence)
    ensures
        final(out)@ == old(out)@ + enc_sequenced(*q),
{
    push_writable(out, &q.writable);
    push_i32(out, q.sequence);
    proof {
        assert(final(out)@ =~= old(out)@ + enc_sequenced(*q));
    }
}

/// Append a length-prefixed UTF-8 string; fails when it cannot announce
/// its length in 32 bits.
fn push_str(out: &mut Vec<u8>, t: &str) -> (ok: bool)
    ensures
        ok == wf_str(t@),
        ok ==> final(out)@ == old(out)@ + enc_str(t@),
        !ok ==> final(out)@ == old(out)@,
{
    let bytes = t.as_bytes();
    let n: usize = bytes.len();
    if n as u64 >= LEN_LIMIT {
        return false;
    }
    push_be32(out, n as u32);
    push_slice(out, bytes);
    proof {
        assert(final(out)@ =~= old(out)@ + enc_str(t@));
    }
    true
}

/// Append a length-prefixed byte payload.
fn push_bytes_field(out: &mut Vec<u8>, b: &Vec<u8>) -> (ok: bool)
    ensures
        ok == (b@.len() < LEN_LIMIT),
        ok ==> final(out)@ == old(out)@ + enc_bytes(b@),
        !ok ==> final(out)@ == old(out)@,
{
    let n: usize = b.len();
    if n as u64 >= LEN_LIMIT {
        return false;
    }
    push_be32(out, n as u32);
    push_slice(out, b.as_slice());
    proof {
        assert(final(out)@ =~= old(out)@ + enc_bytes(b@));
    }
    true
}

fn push_uuid(out: &mut Vec<u8>, u: &Uuid)
    ensures
        final(out)@ == old(out)@ + spec_uuid_bytes(*u),
{
    u.push_bytes(out);
}

fn push_key(out: &mut Vec<u8>, k: &Key)
    ensures
        final(out)@ == old(out)@ + spec_key_bytes(*k),
{
    k.push_bytes(out);
}

fn push_sync_id(out: &mut Vec<u8>, id: &SyncDataId)
    ensures
        final(out)@ == old(out)@ + enc_sync_id(*id),
{
    match id {
        SyncDataId::Global(g) => {
            out.push(0u8);
            proof {
                assert(out@ =~= old(out)@ + seq![0u8]);
            }
            push_i32(out, *g);
        },
        SyncDataId::InitialSync(i) => {
            out.push(1u8);
            proof {
                assert(out@ =~= old(out)@ + seq![1u8]);
            }
            push_i32(out, *i);
        },
    }
    proof {
        assert(final(out)@ =~= old(out)@ + enc_sync_id(*id));
    }
}

/// Encode one patch onto `out`; fails exactly when a field cannot
/// announce its length.
#[verifier::rlimit(60)]
fn push_patch(out: &mut Vec<u8>, p: &Patch) -> (ok: bool)
    ensures
        ok == wf_patch(p@),
        ok ==> final(out)@ == old(out)@ + enc_patch(p@),
{
    let ghost pre = out@;
    match p {
        Patch::Contact(c) => {
            let before = out.len();
            out.push(0u8);
            push_key(out, &c.key);
            proof {
                assert(out@ =~= pre + seq![0u8] + spec_key_bytes(c.key));
            }
            if !push_str(out, c.name.as_str()) {
                out.truncate(before);
                proof {
                    assert(out@ =~= pre);
                }
                return false;
            }
            push_writable(out, &c.crdt);
            proof {
                assert(final(out)@ =~= pre + enc_patch(p@));
            }
            true
        },
        Patch::Conversation(c) => {
            let before = out.len();
            out.push(1u8);
            push_uuid(out, &c.id);
            proof {
                assert(out@ =~= pre + seq![1u8] + spec_uuid_bytes(c.id));
            }
            match &c.title {
                None => {
                    out.push(0u8);
                    proof {
                        assert(out@ =~= pre + seq![1u8] + spec_uuid_bytes(c.id) + enc_opt_str(
                            Option::None,
                        ));
                    }
                },
                Some(t) => {
                    out.push(1u8);
                    if !push_str(out, t.as_str()) {
                        out.truncate(before);
                        proof {
                            assert(out@ =~= pre);
                        }
                        return false;
                    }
                    proof {
                        assert(out@ =~= pre + seq![1u8] + spec_uuid_bytes(c.id) + enc_opt_str(
                            c@.title,
                        ));
                    }
                },
            }
            push_writable(out, &c.crdt);
            proof {
                assert(final(out)@ =~= pre + enc_patch(p@));
            }
            true
        },
        Patch::Member(m) => {
            out.push(2u8);
            push_key(out, &m.key);
            push_uuid(out, &m.conversation);
            push_i32(out, m.crdt.0.0);
            proof {
                assert(final(out)@ =~= pre + enc_patch(p@));
            }
            true
        },
        Patch::NewTextMessage(m) => {
            let before = out.len();
            out.push(3u8);
            push_uuid(out, &m.id);
            push_key(out, &m.from);
            push_uuid(out, &m.conversation);
            proof {
                assert(out@ =~= pre + seq![3u8] + spec_uuid_bytes(m.id) + spec_key_bytes(m.from)
                    + spec_uuid_bytes(m.conversation));
            }
            if !push_str(out, m.text.as_str()) {
                out.truncate(before);
                proof {
                    assert(out@ =~= pre);
                }
                return false;
            }
            push_sequenced(out, &m.crdt);
            proof {
                assert(final(out)@ =~= pre + enc_patch(p@));
            }
            true
        },
        Patch::NewAttachmentMessage(m) => {
            let before = out.len();
            out.push(4u8);
            push_uuid(out, &m.id);
            push_key(out, &m.from);
            push_uuid(out, &m.conversation);
            proof {
                assert(out@ =~= pre + seq![4u8] + spec_uuid_bytes(m.id) + spec_key_bytes(m.from)
                    + spec_uuid_bytes(m.conversation));
            }
            if !push_str(out, m.filename.as_str()) {
                out.truncate(before);
                proof {
                    assert(out@ =~= pre);
                }
                return false;
            }
            push_uuid(out, &m.attachment);
            push_sequenced(out, &m.crdt);
            proof {
                assert(final(out)@ =~= pre + enc_patch(p@));
            }
            true
        },
        Patch::MessageStatus(st) => {
            out.push(5u8);
            push_uuid(out, &st.id);
            push_uuid(out, &st.conversation);
            push_i32(out, st.status);
            push_writable(out, &st.crdt);
            proof {
                assert(final(out)@ =~= pre + enc_patch(p@));
            }
            true
        },
        Patch::Attachment(a) => {
            let before = out.len();
            out.push(6u8);
            push_uuid(out, &a.id);
            push_uuid(out, &a.conversation);
            proof {
                assert(out@ =~= pre + seq![6u8] + spec_uuid_bytes(a.id) + spec_uuid_bytes(
                    a.conversation,
                ));
            }
            match &a.payload {
                None => {
                    out.push(0u8);
                    proof {
                        assert(out@ =~= pre + seq![6u8] + spec_uuid_bytes(a.id) + spec_uuid_bytes(
                            a.conversation,
                        ) + enc_opt_bytes(Option::None));
                    }
                },
                Some(b) => {
                    out.push(1u8);
                    if !push_bytes_field(out, b) {
                        out.truncate(before);
                        proof {
                            assert(out@ =~= pre);
                        }
                        return false;
                    }
                    proof {
                        assert(out@ =~= pre + seq![6u8] + spec_uuid_bytes(a.id) + spec_uuid_bytes(
                            a.conversation,
                        ) + enc_opt_bytes(a@.payload));
                    }
                },
            }
            push_i32(out, a.crdt.0.0);
            proof {
                assert(final(out)@ =~= pre + enc_patch(p@));
            }
            true
        },
    }
}

/// Encode a wire message; `None` exactly when some field cannot announce
/// its length in 32 bits.
pub fn encode_message(m: &PatchSyncMessage) -> (r: Option<Vec<u8>>)
    ensures
        r is Some <==> wf_message(m@),
        r matches Some(out) ==> out@ == spec_encode_message(m@),
{
    let mut out: Vec<u8> = Vec::new();
    match m {
        PatchSyncMessage::Data(d) => {
            out.push(0u8);
            push_sync_id(&mut out, &d.id);
            proof {
                assert(out@ =~= seq![0u8] + enc_sync_id(d.id));
            }
            if !push_patch(&mut out, &d.payload) {
                return None;
            }
            proof {
                assert(out@ =~= spec_encode_message(m@));
            }
            Some(out)
        },
        PatchSyncMessage::Ack(id) => {
            out.push(1u8);
            push_sync_id(&mut out, id);
            proof {
                assert(out@ =~= spec_encode_message(m@));
            }
            Some(out)
        },
    }
}

// ---------------------------------------------------------------------
// The decoding, as a mathematical function of the bytes.
// ---------------------------------------------------------------------

pub open spec fn dec_u32(b: Seq<u8>, pos: int) -> Option<(u32, int)> {
    if 0 <= pos && pos + 4 <= b.len() {
        Option::Some((be32_read(b[pos], b[pos + 1], b[pos + 2], b[pos + 3]), pos + 4))
    } else {
        Option::None
    }
}

pub open spec fn dec_i32(b: Seq<u8>, pos: int) -> Option<(i32, int)> {
    match dec_u32(b, pos) {
        Option::Some((v, p)) => Option::Some((v as i32, p)),
        Option::None => Option::None,
    }
}

pub open spec fn dec_byte(b: Seq<u8>, pos: int) -> Option<(u8, int)> {
    if 0 <= pos && pos + 1 <= b.len() {
        Option::Some((b[pos], pos + 1))
    } else {
        Option::None
    }
}

pub open spec fn dec_writable(b: Seq<u8>, pos: int) -> Option<(CrdtWritable, int)> {
    match dec_i32(b, pos) {
        Option::Some((g, p1)) => match dec_i32(b, p1) {
            Option::Some((a, p2)) => Option::Some(
                (CrdtWritable { generation: g, author: Author(a) }, p2),
            ),
            Option::None => Option::None,
        },
        Option::None => Option::None,
    }
}

pub open spec fn dec_sequenced(b: Seq<u8>, pos: int) -> Option<(CrdtWritableSequence, int)> {
    match dec_writable(b, pos) {
        Option::Some((w, p1)) => match dec_i32(b, p1) {
            Option::Some((q, p2)) => Option::Some(
                (CrdtWritableSequence { writable: w, sequence: q }, p2),
            ),
            Option::None => Option::None,
        },
        Option::None => Option::None,
    }
}

pub open spec fn dec_str(b: Seq<u8>, pos: int) -> Option<(Seq<char>, int)> {
    match dec_u32(b, pos) {
        Option::Some((n, p1)) => if p1 + n <= b.len() {
            let raw = b.subrange(p1, p1 + n);
            if valid_utf8(raw) {
                Option::Some((decode_utf8(raw), p1 + n))
            } else {
                Option::None
            }
        } else {
            Option::None
        },
        Option::None => Option::None,
    }
}

pub open spec fn dec_bytes(b: Seq<u8>, pos: int) -> Option<(Seq<u8>, int)> {
    match dec_u32(b, pos) {
        Option::Some((n, p1)) => if p1 + n <= b.len() {
            Option::Some((b.subrange(p1, p1 + n), p1 + n))
        } else {
            Option::None
        },
        Option::None => Option::None,
    }
}

pub open spec fn dec_opt_str(b: Seq<u8>, pos: int) -> Option<(Option<Seq<char>>, int)> {
    match dec_byte(b, pos) {
        Option::Some((tag, p1)) => if tag == 0 {
            Option::Some((Option::None, p1))
        } else if tag == 1 {
            match dec_str(b, p1) {
                Option::Some((t, p2)) => Option::Some((Option::Some(t), p2)),
                Option::None => Option::None,
            }
        } else {
            Option::None
        },
        Option::None => Option::None,
    }
}

pub open spec fn dec_opt_bytes(b: Seq<u8>, pos: int) -> Option<(Option<Seq<u8>>, int)> {
    match dec_byte(b, pos) {
        Option::Some((tag, p1)) => if tag == 0 {
            Option::Some((Option::None, p1))
        } else if tag == 1 {
            match dec_bytes(b, p1) {
                Option::Some((t, p2)) => Option::Some((Option::Some(t), p2)),
                Option::None => Option::None,
            }
        } else {
            Option::None
        },
        Option::None => Option::None,
    }
}

/// A 128-bit value read big-endian from 16 bytes.
pub open spec fn dec_u128(b: Seq<u8>, pos: int) -> Option<(u128, int)> {
    match dec_u32(b, pos) {
        Option::Some((w0, p1)) => match dec_u32(b, p1) {
            Option::Some((w1, p2)) => match dec_u32(b, p2) {
                Option::Some((w2, p3)) => match dec_u32(b, p3) {
                    Option::Some((w3, p4)) => Option::Some(
                        (crate::uuid::u128_join(w0, w1, w2, w3), p4),
                    ),
                    Option::None => Option::None,
                },
                Option::None => Option::None,
            },
            Option::None => Option::None,
        },
        Option::None => Option::None,
    }
}

pub open spec fn dec_uuid(b: Seq<u8>, pos: int) -> Option<(Uuid, int)> {
    match dec_u128(b, pos) {
        Option::Some((v, p)) => Option::Some((Uuid(v), p)),
        Option::None => Option::None,
    }
}

pub open spec fn dec_key(b: Seq<u8>, pos: int) -> Option<(Key, int)> {
    match dec_u128(b, pos) {
        Option::Some((hi, p1)) => match dec_u128(b, p1) {
            Option::Some((lo, p2)) => Option::Some((Key { hi, lo }, p2)),
            Option::None => Option::None,
        },
        Option::None => Option::None,
    }
}

pub open spec fn dec_patch(b: Seq<u8>, pos: int) -> Option<(PatchV, int)> {
    match dec_byte(b, pos) {
        Option::None => Option::None,
        Option::Some((tag, p0)) => if tag == 0 {
            match dec_key(b, p0) {
                Option::None => Option::None,
                Option::Some((key, p1)) => match dec_str(b, p1) {
                    Option::None => Option::None,
                    Option::Some((name, p2)) => match dec_writable(b, p2) {
                        Option::None => Option::None,
                        Option::Some((w, p3)) => Option::Some(
                            (
                                PatchV::Contact(
                                    crate::patch::ContactV { key, name, crdt: w },
                                ),
                                p3,
                            ),
                        ),
                    },
                },
            }
        } else if tag == 1 {
            match dec_uuid(b, p0) {
                Option::None => Option::None,
                Option::Some((id, p1)) => match dec_opt_str(b, p1) {
                    Option::None => Option::None,
                    Option::Some((title, p2)) => match dec_writable(b, p2) {
                        Option::None => Option::None,
                        Option::Some((w, p3)) => Option::Some(
                            (
                                PatchV::Conversation(
                                    crate::patch::ConversationV { id, title, crdt: w },
                                ),
                                p3,
                            ),
                        ),
                    },
                },
            }
        } else if tag == 2 {
            match dec_key(b, p0) {
                Option::None => Option::None,
                Option::Some((key, p1)) => match dec_uuid(b, p1) {
                    Option::None => Option::None,
                    Option::Some((conversation, p2)) => match dec_i32(b, p2) {
                        Option::None => Option::None,
                        Option::Some((a, p3)) => Option::Some(
                            (
                                PatchV::Member(
                                    Member {
                                        key,
                                        conversation,
                                        crdt: CrdtAddOnly(Author(a)),
                                    },
                                ),
                                p3,
                            ),
                        ),
                    },
                },
            }
        } else if tag == 3 {
            match dec_uuid(b, p0) {
                Option::None => Option::None,
                Option::Some((id, p1)) => match dec_key(b, p1) {
                    Option::None => Option::None,
                    Option::Some((from, p2)) => match dec_uuid(b, p2) {
                        Option::None => Option::None,
                        Option::Some((conversation, p3)) => match dec_str(b, p3) {
                            Option::None => Option::None,
                            Option::Some((text, p4)) => match dec_sequenced(b, p4) {
                                Option::None => Option::None,
                                Option::Some((q, p5)) => Option::Some(
                                    (
                                        PatchV::NewTextMessage(
                                            crate::patch::NewTextMessageV {
                                                id,
                                                from,
                                                conversation,
                                                text,
                                                crdt: q,
                                            },
                                        ),
                                        p5,
                                    ),
                                ),
                            },
                        },
                    },
                },
            }
        } else if tag == 4 {
            match dec_uuid(b, p0) {
                Option::None => Option::None,
                Option::Some((id, p1)) => match dec_key(b, p1) {
                    Option::None => Option::None,
                    Option::Some((from, p2)) => match dec_uuid(b, p2) {
                        Option::None => Option::None,
                        Option::Some((conversation, p3)) => match dec_str(b, p3) {
                            Option::None => Option::None,
                            Option::Some((filename, p4)) => match dec_uuid(b, p4) {
                                Option::None => Option::None,
                                Option::Some((attachment, p5)) => match dec_sequenced(b, p5) {
                                    Option::None => Option::None,
                                    Option::Some((q, p6)) => Option::Some(
                                        (
                                            PatchV::NewAttachmentMessage(
                                                crate::patch::NewAttachmentMessageV {
                                                    id,
                                                    from,
                                                    conversation,
                                                    filename,
                                                    attachment,
                                                    crdt: q,
                                                },
                                            ),
                                            p6,
                                        ),
                                    ),
                                },
                            },
                        },
                    },
                },
            }
        } else if tag == 5 {
            match dec_uuid(b, p0) {
                Option::None => Option::None,
                Option::Some((id, p1)) => match dec_uuid(b, p1) {
                    Option::None => Option::None,
                    Option::Some((conversation, p2)) => match dec_i32(b, p2) {
                        Option::None => Option::None,
                        Option::Some((status, p3)) => match dec_writable(b, p3) {
                            Option::None => Option::None,
                            Option::Some((w, p4)) => Option::Some(
                                (
                                    PatchV::MessageStatus(
                                        MessageStatus { id, conversation, status, crdt: w },
                                    ),
                                    p4,
                                ),
                            ),
                        },
                    },
                },
            }
        } else if tag == 6 {
            match dec_uuid(b, p0) {
                Option::None => Option::None,
                Option::Some((id, p1)) => match dec_uuid(b, p1) {
                    Option::None => Option::None,
                    Option::Some((conversation, p2)) => match dec_opt_bytes(b, p2) {
                        Option::None => Option::None,
                        Option::Some((payload, p3)) => match dec_i32(b, p3) {
                            Option::None => Option::None,
                            Option::Some((a, p4)) => Option::Some(
                                (
                                    PatchV::Attachment(
                                        crate::patch::AttachmentV {
                                            id,
                                            conversation,
                                            payload,
                                            crdt: CrdtAddOnly(Author(a)),
                                        },
                                    ),
                                    p4,
                                ),
                            ),
                        },
                    },
                },
            }
        } else {
            Option::None
        },
    }
}

pub open spec fn dec_sync_id(b: Seq<u8>, pos: int) -> Option<(SyncDataId, int)> {
    match dec_byte(b, pos) {
        Option::None => Option::None,
        Option::Some((tag, p0)) => if tag == 0 {
            match dec_i32(b, p0) {
                Option::Some((g, p1)) => Option::Some((SyncDataId::Global(g), p1)),
                Option::None => Option::None,
            }
        } else if tag == 1 {
            match dec_i32(b, p0) {
                Option::Some((i, p1)) => Option::Some((SyncDataId::InitialSync(i), p1)),
                Option::None => Option::None,
            }
        } else {
            Option::None
        },
    }
}

/// The decoding of a whole frame: a message, consuming every byte.
pub open spec fn spec_decode_message(b: Seq<u8>) -> Option<PatchSyncMessageV> {
    match dec_byte(b, 0) {
        Option::None => Option::None,
        Option::Some((tag, p0)) => if tag == 0 {
            match dec_sync_id(b, p0) {
                Option::None => Option::None,
                Option::Some((id, p1)) => match dec_patch(b, p1) {
                    Option::None => Option::None,
                    Option::Some((p, p2)) => if p2 == b.len() {
                        Option::Some(PatchSyncMessageV::Data(SyncDataV { id, payload: p }))
                    } else {
                        Option::None
                    },
                },
            }
        } else if tag == 1 {
            match dec_sync_id(b, p0) {
                Option::None => Option::None,
                Option::Some((id, p1)) => if p1 == b.len() {
                    Option::Some(PatchSyncMessageV::Ack(id))
                } else {
                    Option::None
                },
            }
        } else {
            Option::None
        },
    }
}

// ---------------------------------------------------------------------
// Executable decoder.
// ---------------------------------------------------------------------

/// Relies on String::from_utf8: it succeeds exactly on valid UTF-8 and
/// yields the string those bytes encode.
#[verifier::external_body]
fn string_from_utf8(bytes: Vec<u8>) -> (r: Option<String>)
    ensures
        r is Some <==> valid_utf8(bytes@),
        r matches Some(s) ==> s@ == decode_utf8(bytes@),
{
    String::from_utf8(bytes).ok()
}

/// Copy `b[from..to]` into a fresh vector.
fn copy_range(b: &Vec<u8>, from: usize, to: usize) -> (r: Vec<u8>)
    requires
        from <= to,
        to <= b@.len(),
    ensures
        r@ == b@.subrange(from as int, to as int),
{
    let mut out: Vec<u8> = Vec::new();
    let mut i: usize = from;
    while i < to
        invariant
            from <= i <= to,
            to <= b@.len(),
            out@ == b@.subrange(from as int, i as int),
        decreases to - i,
    {
        out.push(b[i]);
        proof {
            assert(out@ =~= b@.subrange(from as int, i + 1));
        }
        i = i + 1;
    }
    out
}

fn r_u32(b: &Vec<u8>, pos: usize) -> (r: Option<(u32, usize)>)
    ensures
        match r {
            Option::Some((v, p)) => dec_u32(b@, pos as int) == Option::Some((v, p as int)),
            Option::None => dec_u32(b@, pos as int) is None,
        },
{
    let n: usize = b.len();
    if pos > n || n - pos < 4 {
        return None;
    }
    let v = crate::util::read_be32(b, pos);
    Some((v, pos + 4))
}

fn r_i32(b: &Vec<u8>, pos: usize) -> (r: Option<(i32, usize)>)
    ensures
        match r {
            Option::Some((v, p)) => dec_i32(b@, pos as int) == Option::Some((v, p as int)),
            Option::None => dec_i32(b@, pos as int) is None,
        },
{
    match r_u32(b, pos) {
        Some((v, p)) => Some((v as i32, p)),
        None => None,
    }
}

fn r_byte(b: &Vec<u8>, pos: usize) -> (r: Option<(u8, usize)>)
    ensures
        match r {
            Option::Some((v, p)) => dec_byte(b@, pos as int) == Option::Some((v, p as int)),
            Option::None => dec_byte(b@, pos as int) is None,
        },
{
    let n: usize = b.len();
    if pos >= n {
        return None;
    }
    Some((b[pos], pos + 1))
}

fn r_writable(b: &Vec<u8>, pos: usize) -> (r: Option<(CrdtWritable, usize)>)
    ensures
        match r {
            Option::Some((v, p)) => dec_writable(b@, pos as int) == Option::Some((v, p as int)),
            Option::None => dec_writable(b@, pos as int) is None,
        },
{
    let (g, p1) = match r_i32(b, pos) {
        Some(x) => x,
        None => {
            return None;
        },
    };
    let (a, p2) = match r_i32(b, p1) {
        Some(x) => x,
        None => {
            return None;
        },
    };
    Some((CrdtWritable { generation: g, author: Author(a) }, p2))
}

fn r_sequenced(b: &Vec<u8>, pos: usize) -> (r: Option<(CrdtWritableSequence, usize)>)
    ensures
        match r {
            Option::Some((v, p)) => dec_sequenced(b@, pos as int) == Option::Some((v, p as int)),
            Option::None => dec_sequenced(b@, pos as int) is None,
        },
{
    let (w, p1) = match r_writable(b, pos) {
        Some(x) => x,
        None => {
            return None;
        },
    };
    let (q, p2) = match r_i32(b, p1) {
        Some(x) => x,
        None => {
            return None;
        },
    };
    Some((CrdtWritableSequence { writable: w, sequence: q }, p2))
}

fn r_str(b: &Vec<u8>, pos: usize) -> (r: Option<(String, usize)>)
    ensures
        match r {
            Option::Some((v, p)) => dec_str(b@, pos as int) == Option::Some((v@, p as int)),
            Option::None => dec_str(b@, pos as int) is None,
        },
{
    let (n32, p1) = match r_u32(b, pos) {
        Some(x) => x,
        None => {
            return None;
        },
    };
    let total: usize = b.len();
    if n32 as u64 > (total as u64) || p1 > total - (n32 as usize) {
        return None;
    }
    let n: usize = n32 as usize;
    let raw = copy_range(b, p1, p1 + n);
    match string_from_utf8(raw) {
        Some(s) => Some((s, p1 + n)),
        None => None,
    }
}

fn r_bytes(b: &Vec<u8>, pos: usize) -> (r: Option<(Vec<u8>, usize)>)
    ensures
        match r {
            Option::Some((v, p)) => dec_bytes(b@, pos as int) == Option::Some((v@, p as int)),
            Option::None => dec_bytes(b@, pos as int) is None,
        },
{
    let (n32, p1) = match r_u32(b, pos) {
        Some(x) => x,
        None => {
            return None;
        },
    };
    let total: usize = b.len();
    if n32 as u64 > (total as u64) || p1 > total - (n32 as usize) {
        return None;
    }
    let n: usize = n32 as usize;
    let raw = copy_range(b, p1, p1 + n);
    Some((raw, p1 + n))
}

fn r_opt_str(b: &Vec<u8>, pos: usize) -> (r: Option<(Option<String>, usize)>)
    ensures
        match r {
            Option::Some((v, p)) => dec_opt_str(b@, pos as int) == Option::Some(
                (crate::patch::spec_opt_str(v), p as int),
            ),
            Option::None => dec_opt_str(b@, pos as int) is None,
        },
{
    let (tag, p1) = match r_byte(b, pos) {
        Some(x) => x,
        None => {
            return None;
        },
    };
    if tag == 0 {
        Some((None, p1))
    } else if tag == 1 {
        match r_str(b, p1) {
            Some((s, p2)) => Some((Some(s), p2)),
            None => None,
        }
    } else {
        None
    }
}

fn r_opt_bytes(b: &Vec<u8>, pos: usize) -> (r: Option<(Option<Vec<u8>>, usize)>)
    ensures
        match r {
            Option::Some((v, p)) => dec_opt_bytes(b@, pos as int) == Option::Some(
                (crate::patch::spec_opt_bytes(v), p as int),
            ),
            Option::None => dec_opt_bytes(b@, pos as int) is None,
        },
{
    let (tag, p1) = match r_byte(b, pos) {
        Some(x) => x,
        None => {
            return None;
        },
    };
    if tag == 0 {
        Some((None, p1))
    } else if tag == 1 {
        match r_bytes(b, p1) {
            Some((s, p2)) => Some((Some(s), p2)),
            None => None,
        }
    } else {
        None
    }
}

fn r_u128(b: &Vec<u8>, pos: usize) -> (r: Option<(u128, usize)>)
    ensures
        match r {
            Option::Some((v, p)) => dec_u128(b@, pos as int) == Option::Some((v, p as int)),
            Option::None => dec_u128(b@, pos as int) is None,
        },
{
    let (w0, p1) = match r_u32(b, pos) {
        Some(x) => x,
        None => {
            return None;
        },
    };
    let (w1, p2) = match r_u32(b, p1) {
        Some(x) => x,
        None => {
            return None;
        },
    };
    let (w2, p3) = match r_u32(b, p2) {
        Some(x) => x,
        None => {
            return None;
        },
    };
    let (w3, p4) = match r_u32(b, p3) {
        Some(x) => x,
        None => {
            return None;
        },
    };
    let v: u128 = ((w0 as u128) << 96) | ((w1 as u128) << 64) | ((w2 as u128) << 32) | (
    w3 as u128);
    Some((v, p4))
}

fn r_uuid(b: &Vec<u8>, pos: usize) -> (r: Option<(Uuid, usize)>)
    ensures
        match r {
            Option::Some((v, p)) => dec_uuid(b@, pos as int) == Option::Some((v, p as int)),
            Option::None => dec_uuid(b@, pos as int) is None,
        },
{
    match r_u128(b, pos) {
        Some((v, p)) => Some((Uuid(v), p)),
        None => None,
    }
}

fn r_key(b: &Vec<u8>, pos: usize) -> (r: Option<(Key, usize)>)
    ensures
        match r {
            Option::Some((v, p)) => dec_key(b@, pos as int) == Option::Some((v, p as int)),
            Option::None => dec_key(b@, pos as int) is None,
        },
{
    let (hi, p1) = match r_u128(b, pos) {
        Some(x) => x,
        None => {
            return None;
        },
    };
    let (lo, p2) = match r_u128(b, p1) {
        Some(x) => x,
        None => {
            return None;
        },
    };
    Some((Key { hi, lo }, p2))
}

/// Decode one patch starting at `pos`.
#[verifier::rlimit(100)]
#[verifier::spinoff_prover]
fn r_patch(b: &Vec<u8>, pos: usize) -> (r: Option<(Patch, usize)>)
    ensures
        match r {
            Option::Some((v, p)) => dec_patch(b@, pos as int) == Option::Some((v@, p as int)),
            Option::None => dec_patch(b@, pos as int) is None,
        },
{
    let (tag, p0) = match r_byte(b, pos) {
        Some(x) => x,
        None => {
            return None;
        },
    };
    if tag == 0 {
        let (key, p1) = match r_key(b, p0) {
            Some(x) => x,
            None => {
                return None;
            },
        };
        let (name, p2) = match r_str(b, p1) {
            Some(x) => x,
            None => {
                return None;
            },
        };
        let (w, p3) = match r_writable(b, p2) {
            Some(x) => x,
            None => {
                return None;
            },
        };
        Some((Patch::Contact(Contact { key, name, crdt: w }), p3))
    } else if tag == 1 {
        let (id, p1) = match r_uuid(b, p0) {
            Some(x) => x,
            None => {
                return None;
            },
        };
        let (title, p2) = match r_opt_str(b, p1) {
            Some(x) => x,
            None => {
                return None;
            },
        };
        let (w, p3) = match r_writable(b, p2) {
            Some(x) => x,
            None => {
                return None;
            },
        };
        Some((Patch::Conversation(Conversation { id, title, crdt: w }), p3))
    } else if tag == 2 {
        let (key, p1) = match r_key(b, p0) {
            Some(x) => x,
            None => {
                return None;
            },
        };
        let (conversation, p2) = match r_uuid(b, p1) {
            Some(x) => x,
            None => {
                return None;
            },
        };
        let (a, p3) = match r_i32(b, p2) {
            Some(x) => x,
            None => {
                return None;
            },
        };
        Some((Patch::Member(Member { key, conversation, crdt: CrdtAddOnly(Author(a)) }), p3))
    } else if tag == 3 {
        let (id, p1) = match r_uuid(b, p0) {
            Some(x) => x,
            None => {
                return None;
            },
        };
        let (from, p2) = match r_key(b, p1) {
            Some(x) => x,
            None => {
                return None;
            },
        };
        let (conversation, p3) = match r_uuid(b, p2) {
            Some(x) => x,
            None => {
                return None;
            },
        };
        let (text, p4) = match r_str(b, p3) {
            Some(x) => x,
            None => {
                return None;
            },
        };
        let (q, p5) = match r_sequenced(b, p4) {
            Some(x) => x,
            None => {
                return None;
            },
        };
        Some((Patch::NewTextMessage(NewTextMessage { id, from, conversation, text, crdt: q }), p5))
    } else if tag == 4 {
        let (id, p1) = match r_uuid(b, p0) {
            Some(x) => x,
            None => {
                return None;
            },
        };
        let (from, p2) = match r_key(b, p1) {
            Some(x) => x,
            None => {
                return None;
            },
        };
        let (conversation, p3) = match r_uuid(b, p2) {
            Some(x) => x,
            None => {
                return None;
            },
        };
        let (filename, p4) = match r_str(b, p3) {
            Some(x) => x,
            None => {
                return None;
            },
        };
        let (attachment, p5) = match r_uuid(b, p4) {
            Some(x) => x,
            None => {
                return None;
            },
        };
        let (q, p6) = match r_sequenced(b, p5) {
            Some(x) => x,
            None => {
                return None;
            },
        };
        Some(
            (
                Patch::NewAttachmentMessage(
                    NewAttachmentMessage { id, from, conversation, filename, attachment, crdt: q },
                ),
                p6,
            ),
        )
    } else if tag == 5 {
        let (id, p1) = match r_uuid(b, p0) {
            Some(x) => x,
            None => {
                return None;
            },
        };
        let (conversation, p2) = match r_uuid(b, p1) {
            Some(x) => x,
            None => {
                return None;
            },
        };
        let (status, p3) = match r_i32(b, p2) {
            Some(x) => x,
            None => {
                return None;
            },
        };
        let (w, p4) = match r_writable(b, p3) {
            Some(x) => x,
            None => {
                return None;
            },
        };
        Some((Patch::MessageStatus(MessageStatus { id, conversation, status, crdt: w }), p4))
    } else if tag == 6 {
        let (id, p1) = match r_uuid(b, p0) {
            Some(x) => x,
            None => {
                return None;
            },
        };
        let (conversation, p2) = match r_uuid(b, p1) {
            Some(x) => x,
            None => {
                return None;
            },
        };
        let (payload, p3) = match r_opt_bytes(b, p2) {
            Some(x) => x,
            None => {
                return None;
            },
        };
        let (a, p4) = match r_i32(b, p3) {
            Some(x) => x,
            None => {
                return None;
            },
        };
        Some((Patch::Attachment(Attachment { id, conversation, payload, crdt: CrdtAddOnly(Author(a)) }), p4))
    } else {
        None
    }
}

fn r_sync_id(b: &Vec<u8>, pos: usize) -> (r: Option<(SyncDataId, usize)>)
    ensures
        match r {
            Option::Some((v, p)) => dec_sync_id(b@, pos as int) == Option::Some((v, p as int)),
            Option::None => dec_sync_id(b@, pos as int) is None,
        },
{
    let (tag, p0) = match r_byte(b, pos) {
        Some(x) => x,
        None => {
            return None;
        },
    };
    if tag == 0 {
        match r_i32(b, p0) {
            Some((g, p1)) => Some((SyncDataId::Global(g), p1)),
            None => None,
        }
    } else if tag == 1 {
        match r_i32(b, p0) {
            Some((i, p1)) => Some((SyncDataId::InitialSync(i), p1)),
            None => None,
        }
    } else {
        None
    }
}

/// Decode a whole frame into a wire message; `None` on any malformed
/// byte, a length that overruns the frame, invalid UTF-8, or trailing
/// garbage.
pub fn decode_message(b: &Vec<u8>) -> (r: Option<PatchSyncMessage>)
    ensures
        view_opt(r) == spec_decode_message(b@),
{
    let (tag, p0) = match r_byte(b, 0) {
        Some(x) => x,
        None => {
            return None;
        },
    };
    if tag == 0 {
        let (id, p1) = match r_sync_id(b, p0) {
            Some(x) => x,
            None => {
                return None;
            },
        };
        let (payload, p2) = match r_patch(b, p1) {
            Some(x) => x,
            None => {
                return None;
            },
        };
        if p2 == b.len() {
            Some(PatchSyncMessage::Data(SyncData { id, payload }))
        } else {
            None
        }
    } else if tag == 1 {
        let (id, p1) = match r_sync_id(b, p0) {
            Some(x) => x,
            None => {
                return None;
            },
        };
        if p1 == b.len() {
            Some(PatchSyncMessage::Ack(id))
        } else {
            None
        }
    } else {
        None
    }
}

// ---------------------------------------------------------------------
// Round trip: decoding inverts encoding.
// ---------------------------------------------------------------------

/// A segment of a segment of `b` is a segment of `b`.
proof fn lemma_subseg(b: Seq<u8>, pos: int, seg: Seq<u8>, off: int, sub: Seq<u8>)
    requires
        0 <= pos,
        pos + seg.len() <= b.len(),
        b.subrange(pos, pos + seg.len() as int) == seg,
        0 <= off,
        off + sub.len() <= seg.len(),
        seg.subrange(off, off + sub.len() as int) == sub,
    ensures
        b.subrange(pos + off, pos + off + sub.len() as int) == sub,
{
    assert forall|i: int|
        0 <= i < sub.len() implies b.subrange(pos + off, pos + off + sub.len() as int)[i]
        == sub[i] by {
        assert(b.subrange(pos, pos + seg.len() as int)[off + i] == b[pos + off + i]);
        assert(seg.subrange(off, off + sub.len() as int)[i] == seg[off + i]);
    }
    assert(b.subrange(pos + off, pos + off + sub.len() as int) =~= sub);
}

proof fn lemma_dec_u32_seg(b: Seq<u8>, pos: int, v: u32)
    requires
        0 <= pos,
        pos + 4 <= b.len(),
        b.subrange(pos, pos + 4) == be32_bytes(v),
    ensures
        dec_u32(b, pos) == Option::Some((v, pos + 4)),
{
    assert(b[pos] == b.subrange(pos, pos + 4)[0]);
    assert(b[pos + 1] == b.subrange(pos, pos + 4)[1]);
    assert(b[pos + 2] == b.subrange(pos, pos + 4)[2]);
    assert(b[pos + 3] == b.subrange(pos, pos + 4)[3]);
    lemma_be32_roundtrip(v, b[pos], b[pos + 1], b[pos + 2], b[pos + 3]);
}

proof fn lemma_dec_i32_seg(b: Seq<u8>, pos: int, v: i32)
    requires
        0 <= pos,
        pos + 4 <= b.len(),
        b.subrange(pos, pos + 4) == enc_i32(v),
    ensures
        dec_i32(b, pos) == Option::Some((v, pos + 4)),
{
    lemma_dec_u32_seg(b, pos, v as u32);
    lemma_i32_u32_roundtrip(v, 0);
}

proof fn lemma_dec_u128_seg(b: Seq<u8>, pos: int, v: u128)
    requires
        0 <= pos,
        pos + 16 <= b.len(),
        b.subrange(pos, pos + 16) == spec_uuid_bytes(Uuid(v)),
    ensures
        dec_u128(b, pos) == Option::Some((v, pos + 16)),
{
    let (w0, w1, w2, w3) = crate::uuid::u128_words(v);
    let seg = spec_uuid_bytes(Uuid(v));
    assert(seg.subrange(0, 4) =~= be32_bytes(w0));
    lemma_subseg(b, pos, seg, 0, be32_bytes(w0));
    assert(seg.subrange(4, 8) =~= be32_bytes(w1));
    lemma_subseg(b, pos, seg, 4, be32_bytes(w1));
    assert(seg.subrange(8, 12) =~= be32_bytes(w2));
    lemma_subseg(b, pos, seg, 8, be32_bytes(w2));
    assert(seg.subrange(12, 16) =~= be32_bytes(w3));
    lemma_subseg(b, pos, seg, 12, be32_bytes(w3));
    lemma_dec_u32_seg(b, pos, w0);
    lemma_dec_u32_seg(b, pos + 4, w1);
    lemma_dec_u32_seg(b, pos + 8, w2);
    lemma_dec_u32_seg(b, pos + 12, w3);
    crate::uuid::lemma_u128_words_roundtrip(v, w0, w1, w2, w3);
}

proof fn lemma_dec_uuid_seg(b: Seq<u8>, pos: int, u: Uuid)
    requires
        0 <= pos,
        pos + 16 <= b.len(),
        b.subrange(pos, pos + 16) == spec_uuid_bytes(u),
    ensures
        dec_uuid(b, pos) == Option::Some((u, pos + 16)),
{
    lemma_dec_u128_seg(b, pos, u.0);
}

proof fn lemma_dec_key_seg(b: Seq<u8>, pos: int, k: Key)
    requires
        0 <= pos,
        pos + 32 <= b.len(),
        b.subrange(pos, pos + 32) == spec_key_bytes(k),
    ensures
        dec_key(b, pos) == Option::Some((k, pos + 32)),
{
    let seg = spec_key_bytes(k);
    assert(seg.subrange(0, 16) =~= spec_uuid_bytes(Uuid(k.hi)));
    lemma_subseg(b, pos, seg, 0, spec_uuid_bytes(Uuid(k.hi)));
    assert(seg.subrange(16, 32) =~= spec_uuid_bytes(Uuid(k.lo)));
    lemma_subseg(b, pos, seg, 16, spec_uuid_bytes(Uuid(k.lo)));
    lemma_dec_u128_seg(b, pos, k.hi);
    lemma_dec_u128_seg(b, pos + 16, k.lo);
}

proof fn lemma_dec_writable_seg(b: Seq<u8>, pos: int, w: CrdtWritable)
    requires
        0 <= pos,
        pos + 8 <= b.len(),
        b.subrange(pos, pos + 8) == enc_writable(w),
    ensures
        dec_writable(b, pos) == Option::Some((w, pos + 8)),
{
    let seg = enc_writable(w);
    assert(seg.subrange(0, 4) =~= enc_i32(w.generation));
    lemma_subseg(b, pos, seg, 0, enc_i32(w.generation));
    assert(seg.subrange(4, 8) =~= enc_i32(w.author.0));
    lemma_subseg(b, pos, seg, 4, enc_i32(w.author.0));
    lemma_dec_i32_seg(b, pos, w.generation);
    lemma_dec_i32_seg(b, pos + 4, w.author.0);
}

proof fn lemma_dec_sequenced_seg(b: Seq<u8>, pos: int, q: CrdtWritableSequence)
    requires
        0 <= pos,
        pos + 12 <= b.len(),
        b.subrange(pos, pos + 12) == enc_sequenced(q),
    ensures
        dec_sequenced(b, pos) == Option::Some((q, pos + 12)),
{
    let seg = enc_sequenced(q);
    assert(seg.subrange(0, 8) =~= enc_writable(q.writable));
    lemma_subseg(b, pos, seg, 0, enc_writable(q.writable));
    assert(seg.subrange(8, 12) =~= enc_i32(q.sequence));
    lemma_subseg(b, pos, seg, 8, enc_i32(q.sequence));
    lemma_dec_writable_seg(b, pos, q.writable);
    lemma_dec_i32_seg(b, pos + 8, q.sequence);
}

proof fn lemma_dec_str_seg(b: Seq<u8>, pos: int, t: Seq<char>)
    requires
        0 <= pos,
        wf_str(t),
        pos + enc_str(t).len() <= b.len(),
        b.subrange(pos, pos + enc_str(t).len() as int) == enc_str(t),
    ensures
        dec_str(b, pos) == Option::Some((t, pos + enc_str(t).len())),
{
    let raw = encode_utf8(t);
    let n = raw.len() as int;
    let seg = enc_str(t);
    assert(seg.subrange(0, 4) =~= be32_bytes(n as u32));
    lemma_subseg(b, pos, seg, 0, be32_bytes(n as u32));
    assert(seg.subrange(4, 4 + n) =~= raw);
    lemma_subseg(b, pos, seg, 4, raw);
    lemma_dec_u32_seg(b, pos, n as u32);
    vstd::utf8::encode_utf8_valid_utf8(t);
    vstd::utf8::encode_utf8_decode_utf8(t);
}

proof fn lemma_dec_bytes_seg(b: Seq<u8>, pos: int, payload: Seq<u8>)
    requires
        0 <= pos,
        payload.len() < LEN_LIMIT,
        pos + enc_bytes(payload).len() <= b.len(),
        b.subrange(pos, pos + enc_bytes(payload).len() as int) == enc_bytes(payload),
    ensures
        dec_bytes(b, pos) == Option::Some((payload, pos + enc_bytes(payload).len())),
{
    let n = payload.len() as int;
    let seg = enc_bytes(payload);
    assert(seg.subrange(0, 4) =~= be32_bytes(n as u32));
    lemma_subseg(b, pos, seg, 0, be32_bytes(n as u32));
    assert(seg.subrange(4, 4 + n) =~= payload);
    lemma_subseg(b, pos, seg, 4, payload);
    lemma_dec_u32_seg(b, pos, n as u32);
}

proof fn lemma_dec_opt_str_seg(b: Seq<u8>, pos: int, t: Option<Seq<char>>)
    requires
        0 <= pos,
        wf_opt_str(t),
        pos + enc_opt_str(t).len() <= b.len(),
        b.subrange(pos, pos + enc_opt_str(t).len() as int) == enc_opt_str(t),
    ensures
        dec_opt_str(b, pos) == Option::Some((t, pos + enc_opt_str(t).len())),
{
    let seg = enc_opt_str(t);
    assert(b[pos] == b.subrange(pos, pos + seg.len() as int)[0]);
    match t {
        Option::None => {},
        Option::Some(tt) => {
            assert(seg.subrange(1, 1 + enc_str(tt).len() as int) =~= enc_str(tt));
            lemma_subseg(b, pos, seg, 1, enc_str(tt));
            lemma_dec_str_seg(b, pos + 1, tt);
        },
    }
}

proof fn lemma_dec_opt_bytes_seg(b: Seq<u8>, pos: int, t: Option<Seq<u8>>)
    requires
        0 <= pos,
        (t matches Some(p) ==> p.len() < LEN_LIMIT),
        pos + enc_opt_bytes(t).len() <= b.len(),
        b.subrange(pos, pos + enc_opt_bytes(t).len() as int) == enc_opt_bytes(t),
    ensures
        dec_opt_bytes(b, pos) == Option::Some((t, pos + enc_opt_bytes(t).len())),
{
    let seg = enc_opt_bytes(t);
    assert(b[pos] == b.subrange(pos, pos + seg.len() as int)[0]);
    match t {
        Option::None => {},
        Option::Some(tt) => {
            assert(seg.subrange(1, 1 + enc_bytes(tt).len() as int) =~= enc_bytes(tt));
            lemma_subseg(b, pos, seg, 1, enc_bytes(tt));
            lemma_dec_bytes_seg(b, pos + 1, tt);
        },
    }
}

proof fn lemma_dec_sync_id_seg(b: Seq<u8>, pos: int, id: SyncDataId)
    requires
        0 <= pos,
        pos + 5 <= b.len(),
        b.subrange(pos, pos + 5) == enc_sync_id(id),
    ensures
        dec_sync_id(b, pos) == Option::Some((id, pos + 5)),
{
    let seg = enc_sync_id(id);
    assert(b[pos] == b.subrange(pos, pos + 5)[0]);
    match id {
        SyncDataId::Global(g) => {
            assert(seg.subrange(1, 5) =~= enc_i32(g));
            lemma_subseg(b, pos, seg, 1, enc_i32(g));
            lemma_dec_i32_seg(b, pos + 1, g);
        },
        SyncDataId::InitialSync(i) => {
            assert(seg.subrange(1, 5) =~= enc_i32(i));
            lemma_subseg(b, pos, seg, 1, enc_i32(i));
            lemma_dec_i32_seg(b, pos + 1, i);
        },
    }
}

#[verifier::rlimit(100)]
#[verifier::spinoff_prover]
proof fn lemma_dec_patch_contact(b: Seq<u8>, pos: int, c: crate::patch::ContactV)
    requires
        0 <= pos,
        wf_patch(PatchV::Contact(c)),
        pos + enc_patch(PatchV::Contact(c)).len() <= b.len(),
        b.subrange(pos, pos + enc_patch(PatchV::Contact(c)).len() as int) == enc_patch(PatchV::Contact(c)),
    ensures
        dec_patch(b, pos) == Option::Some((PatchV::Contact(c), pos + enc_patch(PatchV::Contact(c)).len())),
{
    let p = PatchV::Contact(c);
    let seg = enc_patch(p);
    assert(b[pos] == b.subrange(pos, pos + seg.len() as int)[0]);

            assert(seg.subrange(1, 33) =~= spec_key_bytes(c.key));
            lemma_subseg(b, pos, seg, 1, spec_key_bytes(c.key));
            lemma_dec_key_seg(b, pos + 1, c.key);
            let o2 = 33;
            let sl = enc_str(c.name).len() as int;
            assert(seg.subrange(o2, o2 + sl) =~= enc_str(c.name));
            lemma_subseg(b, pos, seg, o2, enc_str(c.name));
            lemma_dec_str_seg(b, pos + o2, c.name);
            let o3 = o2 + sl;
            assert(seg.subrange(o3, o3 + 8) =~= enc_writable(c.crdt));
            lemma_subseg(b, pos, seg, o3, enc_writable(c.crdt));
            lemma_dec_writable_seg(b, pos + o3, c.crdt);
}

#[verifier::rlimit(100)]
#[verifier::spinoff_prover]
proof fn lemma_dec_patch_conversation(b: Seq<u8>, pos: int, c: crate::patch::ConversationV)
    requires
        0 <= pos,
        wf_patch(PatchV::Conversation(c)),
        pos + enc_patch(PatchV::Conversation(c)).len() <= b.len(),
        b.subrange(pos, pos + enc_patch(PatchV::Conversation(c)).len() as int) == enc_patch(PatchV::Conversation(c)),
    ensures
        dec_patch(b, pos) == Option::Some((PatchV::Conversation(c), pos + enc_patch(PatchV::Conversation(c)).len())),
{
    let p = PatchV::Conversation(c);
    let seg = enc_patch(p);
    assert(b[pos] == b.subrange(pos, pos + seg.len() as int)[0]);

            assert(seg.subrange(1, 17) =~= spec_uuid_bytes(c.id));
            lemma_subseg(b, pos, seg, 1, spec_uuid_bytes(c.id));
            lemma_dec_uuid_seg(b, pos + 1, c.id);
            let o2 = 17;
            let sl = enc_opt_str(c.title).len() as int;
            assert(seg.subrange(o2, o2 + sl) =~= enc_opt_str(c.title));
            lemma_subseg(b, pos, seg, o2, enc_opt_str(c.title));
            lemma_dec_opt_str_seg(b, pos + o2, c.title);
            let o3 = o2 + sl;
            assert(seg.subrange(o3, o3 + 8) =~= enc_writable(c.crdt));
            lemma_subseg(b, pos, seg, o3, enc_writable(c.crdt));
            lemma_dec_writable_seg(b, pos + o3, c.crdt);
}

#[verifier::rlimit(100)]
#[verifier::spinoff_prover]
proof fn lemma_dec_patch_member(b: Seq<u8>, pos: int, m: Member)
    requires
        0 <= pos,
        wf_patch(PatchV::Member(m)),
        pos + enc_patch(PatchV::Member(m)).len() <= b.len(),
        b.subrange(pos, pos + enc_patch(PatchV::Member(m)).len() as int) == enc_patch(PatchV::Member(m)),
    ensures
        dec_patch(b, pos) == Option::Some((PatchV::Member(m), pos + enc_patch(PatchV::Member(m)).len())),
{
    let p = PatchV::Member(m);
    let seg = enc_patch(p);
    assert(b[pos] == b.subrange(pos, pos + seg.len() as int)[0]);

            assert(seg.subrange(1, 33) =~= spec_key_bytes(m.key));
            lemma_subseg(b, pos, seg, 1, spec_key_bytes(m.key));
            lemma_dec_key_seg(b, pos + 1, m.key);
            assert(seg.subrange(33, 49) =~= spec_uuid_bytes(m.conversation));
            lemma_subseg(b, pos, seg, 33, spec_uuid_bytes(m.conversation));
            lemma_dec_uuid_seg(b, pos + 33, m.conversation);
            assert(seg.subrange(49, 53) =~= enc_i32(m.crdt.0.0));
            lemma_subseg(b, pos, seg, 49, enc_i32(m.crdt.0.0));
            lemma_dec_i32_seg(b, pos + 49, m.crdt.0.0);
}

#[verifier::rlimit(100)]
#[verifier::spinoff_prover]
proof fn lemma_dec_patch_text_message(b: Seq<u8>, pos: int, m: crate::patch::NewTextMessageV)
    requires
        0 <= pos,
        wf_patch(PatchV::NewTextMessage(m)),
        pos + enc_patch(PatchV::NewTextMessage(m)).len() <= b.len(),
        b.subrange(pos, pos + enc_patch(PatchV::NewTextMessage(m)).len() as int) == enc_patch(PatchV::NewTextMessage(m)),
    ensures
        dec_patch(b, pos) == Option::Some((PatchV::NewTextMessage(m), pos + enc_patch(PatchV::NewTextMessage(m)).len())),
{
    let p = PatchV::NewTextMessage(m);
    let seg = enc_patch(p);
    assert(b[pos] == b.subrange(pos, pos + seg.len() as int)[0]);

            assert(seg.subrange(1, 17) =~= spec_uuid_bytes(m.id));
            lemma_subseg(b, pos, seg, 1, spec_uuid_bytes(m.id));
            lemma_dec_uuid_seg(b, pos + 1, m.id);
            assert(seg.subrange(17, 49) =~= spec_key_bytes(m.from));
            lemma_subseg(b, pos, seg, 17, spec_key_bytes(m.from));
            lemma_dec_key_seg(b, pos + 17, m.from);
            assert(seg.subrange(49, 65) =~= spec_uuid_bytes(m.conversation));
            lemma_subseg(b, pos, seg, 49, spec_uuid_bytes(m.conversation));
            lemma_dec_uuid_seg(b, pos + 49, m.conversation);
            let o4 = 65;
            let sl = enc_str(m.text).len() as int;
            assert(seg.subrange(o4, o4 + sl) =~= enc_str(m.text));
            lemma_subseg(b, pos, seg, o4, enc_str(m.text));
            lemma_dec_str_seg(b, pos + o4, m.text);
            let o5 = o4 + sl;
            assert(seg.subrange(o5, o5 + 12) =~= enc_sequenced(m.crdt));
            lemma_subseg(b, pos, seg, o5, enc_sequenced(m.crdt));
            lemma_dec_sequenced_seg(b, pos + o5, m.crdt);
}

#[verifier::rlimit(100)]
#[verifier::spinoff_prover]
proof fn lemma_dec_patch_attachment_message(b: Seq<u8>, pos: int, m: crate::patch::NewAttachmentMessageV)
    requires
        0 <= pos,
        wf_patch(PatchV::NewAttachmentMessage(m)),
        pos + enc_patch(PatchV::NewAttachmentMessage(m)).len() <= b.len(),
        b.subrange(pos, pos + enc_patch(PatchV::NewAttachmentMessage(m)).len() as int) == enc_patch(PatchV::NewAttachmentMessage(m)),
    ensures
        dec_patch(b, pos) == Option::Some((PatchV::NewAttachmentMessage(m), pos + enc_patch(PatchV::NewAttachmentMessage(m)).len())),
{
    let p = PatchV::NewAttachmentMessage(m);
    let seg = enc_patch(p);
    assert(b[pos] == b.subrange(pos, pos + seg.len() as int)[0]);

            assert(seg.subrange(1, 17) =~= spec_uuid_bytes(m.id));
            lemma_subseg(b, pos, seg, 1, spec_uuid_bytes(m.id));
            lemma_dec_uuid_seg(b, pos + 1, m.id);
            assert(seg.subrange(17, 49) =~= spec_key_bytes(m.from));
            lemma_subseg(b, pos, seg, 17, spec_key_bytes(m.from));
            lemma_dec_key_seg(b, pos + 17, m.from);
            assert(seg.subrange(49, 65) =~= spec_uuid_bytes(m.conversation));
            lemma_subseg(b, pos, seg, 49, spec_uuid_bytes(m.conversation));
            lemma_dec_uuid_seg(b, pos + 49, m.conversation);
            let o4 = 65;
            let sl = enc_str(m.filename).len() as int;
            assert(seg.subrange(o4, o4 + sl) =~= enc_str(m.filename));
            lemma_subseg(b, pos, seg, o4, enc_str(m.filename));
            lemma_dec_str_seg(b, pos + o4, m.filename);
            let o5 = o4 + sl;
            assert(seg.subrange(o5, o5 + 16) =~= spec_uuid_bytes(m.attachment));
            lemma_subseg(b, pos, seg, o5, spec_uuid_bytes(m.attachment));
            lemma_dec_uuid_seg(b, pos + o5, m.attachment);
            let o6 = o5 + 16;
            assert(seg.subrange(o6, o6 + 12) =~= enc_sequenced(m.crdt));
            lemma_subseg(b, pos, seg, o6, enc_sequenced(m.crdt));
            lemma_dec_sequenced_seg(b, pos + o6, m.crdt);
}

#[verifier::rlimit(100)]
#[verifier::spinoff_prover]
proof fn lemma_dec_patch_message_status(b: Seq<u8>, pos: int, st: MessageStatus)
    requires
        0 <= pos,
        wf_patch(PatchV::MessageStatus(st)),
        pos + enc_patch(PatchV::MessageStatus(st)).len() <= b.len(),
        b.subrange(pos, pos + enc_patch(PatchV::MessageStatus(st)).len() as int) == enc_patch(PatchV::MessageStatus(st)),
    ensures
        dec_patch(b, pos) == Option::Some((PatchV::MessageStatus(st), pos + enc_patch(PatchV::MessageStatus(st)).len())),
{
    let p = PatchV::MessageStatus(st);
    let seg = enc_patch(p);
    assert(b[pos] == b.subrange(pos, pos + seg.len() as int)[0]);

            assert(seg.subrange(1, 17) =~= spec_uuid_bytes(st.id));
            lemma_subseg(b, pos, seg, 1, spec_uuid_bytes(st.id));
            lemma_dec_uuid_seg(b, pos + 1, st.id);
            assert(seg.subrange(17, 33) =~= spec_uuid_bytes(st.conversation));
            lemma_subseg(b, pos, seg, 17, spec_uuid_bytes(st.conversation));
            lemma_dec_uuid_seg(b, pos + 17, st.conversation);
            assert(seg.subrange(33, 37) =~= enc_i32(st.status));
            lemma_subseg(b, pos, seg, 33, enc_i32(st.status));
            lemma_dec_i32_seg(b, pos + 33, st.status);
            assert(seg.subrange(37, 45) =~= enc_writable(st.crdt));
            lemma_subseg(b, pos, seg, 37, enc_writable(st.crdt));
            lemma_dec_writable_seg(b, pos + 37, st.crdt);
}

#[verifier::rlimit(100)]
#[verifier::spinoff_prover]
proof fn lemma_dec_patch_attachment(b: Seq<u8>, pos: int, a: crate::patch::AttachmentV)
    requires
        0 <= pos,
        wf_patch(PatchV::Attachment(a)),
        pos + enc_patch(PatchV::Attachment(a)).len() <= b.len(),
        b.subrange(pos, pos + enc_patch(PatchV::Attachment(a)).len() as int) == enc_patch(PatchV::Attachment(a)),
    ensures
        dec_patch(b, pos) == Option::Some((PatchV::Attachment(a), pos + enc_patch(PatchV::Attachment(a)).len())),
{
    let p = PatchV::Attachment(a);
    let seg = enc_patch(p);
    assert(b[pos] == b.subrange(pos, pos + seg.len() as int)[0]);

            assert(seg.subrange(1, 17) =~= spec_uuid_bytes(a.id));
            lemma_subseg(b, pos, seg, 1, spec_uuid_bytes(a.id));
            lemma_dec_uuid_seg(b, pos + 1, a.id);
            assert(seg.subrange(17, 33) =~= spec_uuid_bytes(a.conversation));
            lemma_subseg(b, pos, seg, 17, spec_uuid_bytes(a.conversation));
            lemma_dec_uuid_seg(b, pos + 17, a.conversation);
            let o3 = 33;
            let sl = enc_opt_bytes(a.payload).len() as int;
            assert(seg.subrange(o3, o3 + sl) =~= enc_opt_bytes(a.payload));
            lemma_subseg(b, pos, seg, o3, enc_opt_bytes(a.payload));
            lemma_dec_opt_bytes_seg(b, pos + o3, a.payload);
            let o4 = o3 + sl;
            assert(seg.subrange(o4, o4 + 4) =~= enc_i32(a.crdt.0.0));
            lemma_subseg(b, pos, seg, o4, enc_i32(a.crdt.0.0));
            lemma_dec_i32_seg(b, pos + o4, a.crdt.0.0);
}

/// Decoding a patch segment yields exactly the patch encoded there.
proof fn lemma_dec_patch_seg(b: Seq<u8>, pos: int, p: PatchV)
    requires
        0 <= pos,
        wf_patch(p),
        pos + enc_patch(p).len() <= b.len(),
        b.subrange(pos, pos + enc_patch(p).len() as int) == enc_patch(p),
    ensures
        dec_patch(b, pos) == Option::Some((p, pos + enc_patch(p).len())),
{
    match p {
        PatchV::Contact(c) => lemma_dec_patch_contact(b, pos, c),
        PatchV::Conversation(c) => lemma_dec_patch_conversation(b, pos, c),
        PatchV::Member(m) => lemma_dec_patch_member(b, pos, m),
        PatchV::NewTextMessage(m) => lemma_dec_patch_text_message(b, pos, m),
        PatchV::NewAttachmentMessage(m) => lemma_dec_patch_attachment_message(b, pos, m),
        PatchV::MessageStatus(st) => lemma_dec_patch_message_status(b, pos, st),
        PatchV::Attachment(a) => lemma_dec_patch_attachment(b, pos, a),
    }
}

/// The wire encoding is stable: decoding an encoded message gives the
/// message back, whenever its length-prefixed fields fit their prefixes.
#[verifier::rlimit(100)]
#[verifier::spinoff_prover]
pub proof fn lemma_codec_roundtrip(m: PatchSyncMessageV)
    requires
        wf_message(m),
    ensures
        spec_decode_message(spec_encode_message(m)) == Option::Some(m),
{
    let b = spec_encode_message(m);
    assert(b.subrange(0, b.len() as int) =~= b);
    match m {
        PatchSyncMessageV::Data(d) => {
            assert(b[0] == 0u8);
            assert(b.subrange(1, 6) =~= enc_sync_id(d.id));
            lemma_dec_sync_id_seg(b, 1, d.id);
            let pl = enc_patch(d.payload).len() as int;
            assert(b.subrange(6, 6 + pl) =~= enc_patch(d.payload));
            lemma_dec_patch_seg(b, 6, d.payload);
        },
        PatchSyncMessageV::Ack(id) => {
            assert(b[0] == 1u8);
            assert(b.subrange(1, 6) =~= enc_sync_id(id));
            lemma_dec_sync_id_seg(b, 1, id);
        },
    }
}

} // verus!
