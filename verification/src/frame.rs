//! Length-prefixed framing over an unreliable chunking transport.
//!
//! A packet is a four-byte big-endian length followed by the payload. A
//! sender may cut the packet into fragments of at most `MAX_LEN` bytes;
//! the receiver buffers whatever arrives, reads the length, and slices a
//! packet out as soon as enough bytes are present. Several packets may
//! sit in one delivery; they come out one at a time, in order.

use vstd::prelude::*;

use crate::util::{be32_bytes, be32_read, lemma_be32_roundtrip, push_be32, read_be32};

verus! {

/// Largest fragment handed to the transport in one send.
pub const MAX_LEN: usize = 4096;

/// The framed form of a payload.
pub open spec fn spec_packet(d: Seq<u8>) -> Seq<u8> {
    be32_bytes(d.len() as u32) + d
}

/// Frame a payload: four big-endian length bytes, then the payload.
pub fn encode_packet(data: &Vec<u8>) -> (r: Vec<u8>)
    requires
        data@.len() < 0x1_0000_0000,
    ensures
        r@ == spec_packet(data@),
{
    let mut out: Vec<u8> = Vec::new();
    let n: usize = data.len();
    push_be32(&mut out, n as u32);
    let m: usize = data.len();
    let mut i: usize = 0;
    while i < m
        invariant
            i <= m,
            m == data@.len(),
            out@ == be32_bytes(m as u32) + data@.subrange(0, i as int),
        decreases m - i,
    {
        out.push(data[i]);
        proof {
            assert(out@ =~= be32_bytes(m as u32) + data@.subrange(0, i + 1));
        }
        i = i + 1;
    }
    proof {
        assert(out@ =~= spec_packet(data@));
    }
    out
}

/// The fragments a packet is cut into: full `MAX_LEN` chunks, then the
/// remainder.
pub open spec fn spec_fragments(p: Seq<u8>) -> Seq<Seq<u8>>
    decreases p.len(),
{
    if p.len() == 0 {
        Seq::empty()
    } else if p.len() <= MAX_LEN {
        seq![p]
    } else {
        seq![p.subrange(0, MAX_LEN as int)] + spec_fragments(p.subrange(MAX_LEN as int, p.len() as int))
    }
}

/// Concatenating the fragments gives the packet back.
pub proof fn lemma_fragments_flatten(p: Seq<u8>)
    ensures
        spec_fragments(p).flatten() == p,
    decreases p.len(),
{
    if p.len() == 0 {
        assert(spec_fragments(p).flatten() =~= p);
    } else if p.len() <= MAX_LEN {
        lemma_flatten_singleton(p);
    } else {
        let head = p.subrange(0, MAX_LEN as int);
        let tail = p.subrange(MAX_LEN as int, p.len() as int);
        lemma_fragments_flatten(tail);
        assert((seq![head] + spec_fragments(tail)).flatten() =~= head + spec_fragments(
            tail,
        ).flatten()) by {
            vstd::seq_lib::lemma_flatten_concat(seq![head], spec_fragments(tail));
            lemma_flatten_singleton(head);
        }
        assert(head + tail =~= p);
    }
}

/// Flattening a one-element list gives the element.
proof fn lemma_flatten_singleton(d: Seq<u8>)
    ensures
        seq![d].flatten() == d,
{
    let single: Seq<Seq<u8>> = seq![d];
    assert(single.drop_first() =~= Seq::<Seq<u8>>::empty());
    assert(Seq::<Seq<u8>>::empty().flatten() =~= Seq::<u8>::empty());
    assert(single.flatten() =~= d);
}

/// Every fragment fits a transport send.
pub proof fn lemma_fragments_bounded(p: Seq<u8>)
    ensures
        forall|i: int|
            0 <= i < spec_fragments(p).len() ==> (#[trigger] spec_fragments(p)[i]).len()
                <= MAX_LEN,
    decreases p.len(),
{
    if p.len() > MAX_LEN {
        let head = p.subrange(0, MAX_LEN as int);
        let tail = p.subrange(MAX_LEN as int, p.len() as int);
        lemma_fragments_bounded(tail);
        assert forall|i: int|
            0 <= i < spec_fragments(p).len() implies (#[trigger] spec_fragments(p)[i]).len()
            <= MAX_LEN by {
            if i == 0 {
                assert(spec_fragments(p)[0] == head);
            } else {
                assert(spec_fragments(p)[i] == spec_fragments(tail)[i - 1]);
            }
        }
    }
}

/// Cut a packet into transport-sized fragments.
pub fn split_fragments(packet: &Vec<u8>) -> (r: Vec<Vec<u8>>)
    ensures
        r.deep_view() == spec_fragments(packet@),
{
    let mut out: Vec<Vec<u8>> = Vec::new();
    let n: usize = packet.len();
    proof {
        assert(packet@.subrange(0, n as int) =~= packet@);
        assert(out.deep_view() =~= Seq::<Seq<u8>>::empty());
        assert(Seq::<Seq<u8>>::empty() + spec_fragments(packet@) =~= spec_fragments(packet@));
    }
    let mut at: usize = 0;
    while at < n
        invariant
            at <= n,
            n == packet@.len(),
            spec_fragments(packet@) == out.deep_view() + spec_fragments(
                packet@.subrange(at as int, n as int),
            ),
        decreases n - at,
    {
        let take: usize = if n - at < MAX_LEN {
            n - at
        } else {
            MAX_LEN
        };
        let mut chunk: Vec<u8> = Vec::new();
        let mut i: usize = 0;
        while i < take
            invariant
                i <= take,
                at + take <= n,
                n == packet@.len(),
                chunk@ == packet@.subrange(at as int, at + i),
            decreases take - i,
        {
            chunk.push(packet[at + i]);
            proof {
                assert(chunk@ =~= packet@.subrange(at as int, at + i + 1));
            }
            i = i + 1;
        }
        let ghost rest = packet@.subrange(at as int, n as int);
        let ghost prev_deep = out.deep_view();
        out.push(chunk);
        proof {
            assert(out.deep_view() =~~= prev_deep.push(chunk@));
            if rest.len() <= MAX_LEN {
                assert(chunk@ =~= rest);
                assert(spec_fragments(packet@.subrange((at + take) as int, n as int))
                    =~= Seq::<Seq<u8>>::empty());
                assert(out.deep_view() + spec_fragments(
                    packet@.subrange((at + take) as int, n as int),
                ) =~~= prev_deep + seq![rest]);
            } else {
                assert(chunk@ =~= rest.subrange(0, MAX_LEN as int));
                assert(packet@.subrange((at + take) as int, n as int) =~= rest.subrange(
                    MAX_LEN as int,
                    rest.len() as int,
                ));
                assert(out.deep_view() + spec_fragments(
                    packet@.subrange((at + take) as int, n as int),
                ) =~~= prev_deep + (seq![rest.subrange(0, MAX_LEN as int)] + spec_fragments(
                    rest.subrange(MAX_LEN as int, rest.len() as int),
                )));
            }
        }
        at = at + take;
    }
    proof {
        assert(spec_fragments(packet@.subrange(n as int, n as int)) =~= Seq::<Seq<u8>>::empty());
        assert(out.deep_view() =~= out.deep_view() + Seq::<Seq<u8>>::empty());
    }
    out
}

/// A full packet's worth of bytes sits at the head of the buffer.
pub open spec fn spec_read_ready(b: Seq<u8>) -> bool {
    b.len() >= 4 && b.len() - 4 >= be32_read(b[0], b[1], b[2], b[3])
}

/// What the head packet holds and what stays buffered after it.
pub open spec fn spec_consume(b: Seq<u8>) -> (Seq<u8>, Seq<u8>) {
    let n = be32_read(b[0], b[1], b[2], b[3]) as int;
    (b.subrange(4, 4 + n), b.subrange(4 + n, b.len() as int))
}

/// The receiving half: a buffer of bytes not yet sliced into packets.
pub struct Fragmentable {
    pub rx_buf: Vec<u8>,
}

impl View for Fragmentable {
    type V = Seq<u8>;

    open spec fn view(&self) -> Seq<u8> {
        self.rx_buf@
    }
}

impl Fragmentable {
    /// An empty reassembly buffer.
    pub fn new() -> (r: Fragmentable)
        ensures
            r@ == Seq::<u8>::empty(),
    {
        let r = Fragmentable { rx_buf: Vec::new() };
        proof {
            assert(r@ =~= Seq::<u8>::empty());
        }
        r
    }

    /// Buffer one delivery from the transport.
    pub fn feed(&mut self, data: &Vec<u8>)
        ensures
            final(self)@ == old(self)@ + data@,
    {
        let n: usize = data.len();
        let mut i: usize = 0;
        while i < n
            invariant
                i <= n,
                n == data@.len(),
                self.rx_buf@ == old(self)@ + data@.subrange(0, i as int),
            decreases n - i,
        {
            self.rx_buf.push(data[i]);
            proof {
                assert(self.rx_buf@ =~= old(self)@ + data@.subrange(0, i + 1));
            }
            i = i + 1;
        }
        proof {
            assert(self.rx_buf@ =~= old(self)@ + data@);
        }
    }

    /// Whether a whole packet is buffered.
    pub fn read_ready(&self) -> (r: bool)
        ensures
            r == spec_read_ready(self@),
    {
        let n: usize = self.rx_buf.len();
        if n < 4 {
            return false;
        }
        let want = read_be32(&self.rx_buf, 0);
        (n - 4) as u64 >= want as u64
    }

    /// The length the head packet announces.
    pub fn next_packet_len(&self) -> (r: u32)
        requires
            self@.len() >= 4,
        ensures
            r == be32_read(self@[0], self@[1], self@[2], self@[3]),
    {
        read_be32(&self.rx_buf, 0)
    }

    /// Slice the head packet out of the buffer.
    pub fn consume(&mut self) -> (r: Vec<u8>)
        requires
            spec_read_ready(old(self)@),
        ensures
            (r@, final(self)@) == spec_consume(old(self)@),
    {
        let want = read_be32(&self.rx_buf, 0) as usize;
        let total: usize = self.rx_buf.len();
        let mut out: Vec<u8> = Vec::new();
        let mut i: usize = 0;
        while i < want
            invariant
                i <= want,
                4 + want <= total,
                total == self.rx_buf@.len(),
                want == be32_read(old(self)@[0], old(self)@[1], old(self)@[2], old(self)@[3]),
                self.rx_buf@ == old(self)@,
                out@ == old(self)@.subrange(4, 4 + i),
            decreases want - i,
        {
            out.push(self.rx_buf[4 + i]);
            proof {
                assert(out@ =~= old(self)@.subrange(4, 4 + i + 1));
            }
            i = i + 1;
        }
        let mut rest: Vec<u8> = Vec::new();
        let mut j: usize = 4 + want;
        while j < total
            invariant
                4 + want <= j <= total,
                total == self.rx_buf@.len(),
                want == be32_read(old(self)@[0], old(self)@[1], old(self)@[2], old(self)@[3]),
                self.rx_buf@ == old(self)@,
                rest@ == old(self)@.subrange(4 + want, j as int),
            decreases total - j,
        {
            rest.push(self.rx_buf[j]);
            proof {
                assert(rest@ =~= old(self)@.subrange(4 + want, j + 1));
            }
            j = j + 1;
        }
        self.rx_buf = rest;
        out
    }
}

/// Framing round trip: after buffering the fragments of a packet, in
/// order, possibly followed by more bytes, the head packet reads ready
/// and consuming yields the payload and leaves the rest.
pub proof fn lemma_frame_roundtrip(d: Seq<u8>, rest: Seq<u8>)
    requires
        d.len() < 0x1_0000_0000,
    ensures
        spec_read_ready(spec_packet(d) + rest),
        spec_consume(spec_packet(d) + rest) == (d, rest),
{
    let b = spec_packet(d) + rest;
    let v = d.len() as u32;
    assert(b[0] == (v >> 24) as u8);
    assert(b[1] == (v >> 16) as u8);
    assert(b[2] == (v >> 8) as u8);
    assert(b[3] == v as u8);
    lemma_be32_roundtrip(v, b[0], b[1], b[2], b[3]);
    assert(b.subrange(4, 4 + d.len() as int) =~= d);
    assert(b.subrange(4 + d.len() as int, b.len() as int) =~= rest);
}

} // verus!
