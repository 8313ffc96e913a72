//! The per-channel replication engine.
//!
//! A channel streams sync rows to one peer: initial-snapshot rows first, in
//! id order, then global sync rows above the channel's high-water mark.
//! Patches authored by the peer itself and patches scoped to another
//! conversation are acknowledged locally and never sent. Inbound data is
//! gated by conversation, merged, re-logged when the merge kept it, and
//! acknowledged.

use vstd::prelude::*;

use crate::crdt::Author;
use crate::patch::{Patch, PatchV};
use crate::store::{
    clone_patch, is_channel_id, spec_find_channel_id, view_opt, ChannelRow, InitialSyncRowV, Store,
    StoreV, SyncRowV,
};
use crate::util::{find_first, lemma_find_first, lemma_find_first_none, lemma_find_first_unique};
use crate::uuid::Uuid;

verus! {

/// Identity of a pending sync row: from the global log, or from this
/// channel's initial-sync queue.
#[derive(Clone, Copy, Debug, PartialEq, Eq, Hash, Structural)]
pub enum SyncDataId {
    Global(i32),
    InitialSync(i32),
}

impl SyncDataId {
    /// The id of a row known to come from the global log.
    pub fn global(self) -> (r: i32)
        requires
            self is Global,
        ensures
            self == SyncDataId::Global(r),
    {
        match self {
            SyncDataId::Global(g) => g,
            SyncDataId::InitialSync(_) => {
                proof {
                    assert(false);
                }
                0
            },
        }
    }
}

/// A pending sync row: its id and the patch it carries.
#[derive(Clone, Debug, PartialEq, Eq)]
pub struct SyncData {
    pub id: SyncDataId,
    pub payload: Patch,
}

/// Mathematical image of a pending sync row.
pub struct SyncDataV {
    pub id: SyncDataId,
    pub payload: PatchV,
}

impl View for SyncData {
    type V = SyncDataV;

    open spec fn view(&self) -> SyncDataV {
        SyncDataV { id: self.id, payload: self.payload@ }
    }
}

impl SyncDataV {
    pub open spec fn conversation(self) -> Option<Uuid> {
        self.payload.conversation()
    }

    pub open spec fn author(self) -> Author {
        self.payload.author()
    }
}

impl SyncData {
    /// The conversation the carried patch is scoped to.
    pub fn conversation(&self) -> (r: Option<Uuid>)
        ensures
            r == self@.conversation(),
    {
        self.payload.conversation()
    }

    /// The author recorded in the carried patch.
    pub fn author(&self) -> (r: Author)
        ensures
            r == self@.author(),
    {
        self.payload.author()
    }
}

/// What one replica says to the other: a pending row, or an acknowledgment.
#[derive(Clone, Debug, PartialEq, Eq)]
pub enum PatchSyncMessage {
    Data(SyncData),
    Ack(SyncDataId),
}

/// Mathematical image of a wire message.
pub enum PatchSyncMessageV {
    Data(SyncDataV),
    Ack(SyncDataId),
}

impl View for PatchSyncMessage {
    type V = PatchSyncMessageV;

    open spec fn view(&self) -> PatchSyncMessageV {
        match self {
            PatchSyncMessage::Data(d) => PatchSyncMessageV::Data(d@),
            PatchSyncMessage::Ack(id) => PatchSyncMessageV::Ack(*id),
        }
    }
}

impl DeepView for PatchSyncMessage {
    type V = PatchSyncMessageV;

    open spec fn deep_view(&self) -> PatchSyncMessageV {
        self@
    }
}

// ---------------------------------------------------------------------
// The store as a sync data source: next, ack, and garbage collection.
// ---------------------------------------------------------------------

/// An initial-sync row pending for `channel` above cursor `min`.
pub open spec fn initial_pending(channel: i32, min: i32) -> spec_fn(InitialSyncRowV) -> bool {
    |r: InitialSyncRowV| r.channel == channel && r.id > min
}

/// A global sync row above the high-water mark `si` and cursor `min`.
pub open spec fn sync_pending(si: i32, min: i32) -> spec_fn(SyncRowV) -> bool {
    |r: SyncRowV| r.id > si && r.id > min
}

/// A global sync row that survives collection under minimum `m`.
pub open spec fn sync_kept(m: i32) -> spec_fn(SyncRowV) -> bool {
    |r: SyncRowV| r.id > m
}

/// An initial-sync row with id `id`.
pub open spec fn is_initial_id(id: i32) -> spec_fn(InitialSyncRowV) -> bool {
    |r: InitialSyncRowV| r.id == id
}

/// The least high-water mark over all channels; rows at or below it can go.
pub open spec fn spec_min_sync_index(cs: Seq<ChannelRow>) -> i32
    decreases cs.len(),
{
    if cs.len() == 0 {
        i32::MAX
    } else {
        let rest = spec_min_sync_index(cs.drop_last());
        if cs.last().sync_index < rest {
            cs.last().sync_index
        } else {
            rest
        }
    }
}

/// The next row `channel` should transmit: the first pending initial-sync
/// row, else the first global row above the channel's high-water mark and
/// the cursor.
pub open spec fn spec_next(s: StoreV, channel: i32, minimum: (i32, i32)) -> Option<SyncDataV> {
    let ii = find_first(s.initial_log, initial_pending(channel, minimum.0));
    if ii >= 0 {
        Option::Some(
            SyncDataV {
                id: SyncDataId::InitialSync(s.initial_log[ii].id),
                payload: s.initial_log[ii].payload,
            },
        )
    } else {
        let ci = spec_find_channel_id(s, channel);
        if ci < 0 {
            Option::None
        } else {
            let gi = find_first(s.sync_log, sync_pending(s.channels[ci].sync_index, minimum.1));
            if gi >= 0 {
                Option::Some(
                    SyncDataV {
                        id: SyncDataId::Global(s.sync_log[gi].id),
                        payload: s.sync_log[gi].payload,
                    },
                )
            } else {
                Option::None
            }
        }
    }
}

/// Acknowledge a row for `channel`. A global ack raises the channel's
/// high-water mark and collects every global row no channel still needs;
/// an initial-sync ack deletes that row from the channel's queue.
pub open spec fn spec_ack(s: StoreV, channel: i32, id: SyncDataId) -> StoreV {
    match id {
        SyncDataId::Global(g) => {
            let ci = spec_find_channel_id(s, channel);
            if ci < 0 {
                s
            } else if s.channels[ci].sync_index >= g {
                s
            } else {
                let cs = s.channels.update(
                    ci,
                    ChannelRow { sync_index: g, ..s.channels[ci] },
                );
                StoreV {
                    channels: cs,
                    sync_log: s.sync_log.filter(sync_kept(spec_min_sync_index(cs))),
                    ..s
                }
            }
        },
        SyncDataId::InitialSync(iid) => {
            let ri = find_first(s.initial_log, is_initial_id(iid));
            if ri < 0 {
                s
            } else if s.initial_log[ri].channel != channel {
                s
            } else {
                StoreV { initial_log: s.initial_log.remove(ri), ..s }
            }
        },
    }
}

/// Acknowledging preserves the store invariant.
pub proof fn lemma_wf_ack(s: StoreV, channel: i32, id: SyncDataId)
    requires
        crate::store::wf_store(s),
    ensures
        crate::store::wf_store(spec_ack(s, channel, id)),
{
    match id {
        SyncDataId::Global(g) => {
            let ci = spec_find_channel_id(s, channel);
            if ci >= 0 && s.channels[ci].sync_index < g {
                lemma_find_first(s.channels, is_channel_id(channel));
                let cs = s.channels.update(ci, ChannelRow { sync_index: g, ..s.channels[ci] });
                crate::util::lemma_filter_ascending(
                    s.sync_log,
                    sync_kept(spec_min_sync_index(cs)),
                    |r: SyncRowV| r.id as int,
                );
                let s2 = spec_ack(s, channel, id);
                assert forall|k: int|
                    0 <= k < s2.sync_log.len() implies (#[trigger] s2.sync_log[k]).id
                    < s2.next_sync_id by {
                    let kk = choose|kk: int|
                        0 <= kk < s.sync_log.len() && s2.sync_log[k] == s.sync_log[kk];
                    assert(s.sync_log[kk].id < s.next_sync_id);
                }
                assert forall|a: int, b: int|
                    0 <= a < b < s2.channels.len() implies (#[trigger] s2.channels[a]).id != (
                #[trigger] s2.channels[b]).id by {
                    assert(s.channels[a].id != s.channels[b].id);
                }
            }
        },
        SyncDataId::InitialSync(iid) => {
            let ri = find_first(s.initial_log, is_initial_id(iid));
            if ri >= 0 && s.initial_log[ri].channel == channel {
                lemma_find_first(s.initial_log, is_initial_id(iid));
                s.initial_log.remove_ensures(ri);
            }
        },
    }
}

/// Acknowledgment collects: once an ack advances a channel past a global
/// row, every row at or below the least high-water mark over all channels
/// is gone from storage.
pub proof fn lemma_ack_collects(s: StoreV, channel: i32, g: i32)
    requires
        spec_find_channel_id(s, channel) >= 0,
        s.channels[spec_find_channel_id(s, channel)].sync_index < g,
    ensures
        ({
            let s2 = spec_ack(s, channel, SyncDataId::Global(g));
            forall|k: int|
                0 <= k < s2.sync_log.len() ==> (#[trigger] s2.sync_log[k]).id
                    > spec_min_sync_index(s2.channels)
        }),
{
    let ci = spec_find_channel_id(s, channel);
    let cs = s.channels.update(ci, ChannelRow { sync_index: g, ..s.channels[ci] });
    let m = spec_min_sync_index(cs);
    let s2 = spec_ack(s, channel, SyncDataId::Global(g));
    assert forall|k: int|
        0 <= k < s2.sync_log.len() implies (#[trigger] s2.sync_log[k]).id > spec_min_sync_index(
        s2.channels,
    ) by {
        s.sync_log.lemma_filter_pred(sync_kept(m), k);
    }
}

// ---------------------------------------------------------------------
// The engine: one channel's transmit and receive halves.
// ---------------------------------------------------------------------

/// The replication engine for one channel: the peer's author for echo
/// suppression, the conversation gate, pending acknowledgments, and the
/// cursor pair `(initial, global)` of ids already requested.
pub struct PatchSync {
    pub author: Author,
    pub conversation: Uuid,
    pub channel: i32,
    pub tx_queue: Vec<PatchSyncMessage>,
    pub minimum: (i32, i32),
}

/// Mathematical image of the engine state.
pub struct PatchSyncV {
    pub author: Author,
    pub conversation: Uuid,
    pub channel: i32,
    pub tx_queue: Seq<PatchSyncMessageV>,
    pub minimum: (i32, i32),
}

impl View for PatchSync {
    type V = PatchSyncV;

    open spec fn view(&self) -> PatchSyncV {
        PatchSyncV {
            author: self.author,
            conversation: self.conversation,
            channel: self.channel,
            tx_queue: self.tx_queue.deep_view(),
            minimum: self.minimum,
        }
    }
}

/// The engine's own invariant: the queue holds acknowledgments only.
pub open spec fn wf_sync(p: PatchSyncV) -> bool {
    forall|i: int| 0 <= i < p.tx_queue.len() ==> (#[trigger] p.tx_queue[i]) is Ack
}

/// A pending row the engine must not send: authored by the peer itself,
/// or scoped to another conversation.
pub open spec fn spec_skip(p: PatchSyncV, d: SyncDataV) -> bool {
    d.author() == p.author || (match d.conversation() {
        Option::Some(c) => c != p.conversation,
        Option::None => false,
    })
}

/// Rows still pending for the engine: what remains to skip or send.
pub open spec fn spec_tx_measure(p: PatchSyncV, s: StoreV) -> int {
    s.initial_log.filter(initial_pending(p.channel, p.minimum.0)).len() + ({
        let ci = spec_find_channel_id(s, p.channel);
        if ci < 0 {
            0
        } else {
            s.sync_log.filter(sync_pending(s.channels[ci].sync_index, p.minimum.1)).len() as int
        }
    })
}

/// The transmit step: drain the ack queue first; otherwise take the next
/// pending row, acknowledge it locally when it must be skipped and look
/// again, and otherwise advance the cursor and emit it.
pub open spec fn spec_tx(p: PatchSyncV, s: StoreV) -> (PatchSyncV, StoreV, Option<
    PatchSyncMessageV,
>)
    decreases spec_tx_measure(p, s)
        when crate::store::wf_store(s)
        via spec_tx_dec
{
    if p.tx_queue.len() > 0 {
        (
            PatchSyncV { tx_queue: p.tx_queue.subrange(1, p.tx_queue.len() as int), ..p },
            s,
            Option::Some(p.tx_queue[0]),
        )
    } else {
        match spec_next(s, p.channel, p.minimum) {
            Option::None => (p, s, Option::None),
            Option::Some(d) => {
                if spec_skip(p, d) {
                    spec_tx(p, spec_ack(s, p.channel, d.id))
                } else {
                    let p2 = match d.id {
                        SyncDataId::Global(g) => PatchSyncV {
                            minimum: (p.minimum.0, g),
                            ..p
                        },
                        SyncDataId::InitialSync(iid) => PatchSyncV {
                            minimum: (iid, p.minimum.1),
                            ..p
                        },
                    };
                    (p2, s, Option::Some(PatchSyncMessageV::Data(d)))
                }
            },
        }
    }
}

#[via_fn]
proof fn spec_tx_dec(p: PatchSyncV, s: StoreV) {
    if p.tx_queue.len() == 0 {
        match spec_next(s, p.channel, p.minimum) {
            Option::None => {},
            Option::Some(d) => {
                if spec_skip(p, d) {
                    lemma_wf_ack(s, p.channel, d.id);
                    lemma_tx_measure_decreases(p, s, d);
                }
            },
        }
    }
}

/// Skipping a pending row and acknowledging it strictly shrinks what is
/// pending: an initial-sync ack deletes the row, a global ack raises the
/// high-water mark past it.
pub proof fn lemma_tx_measure_decreases(p: PatchSyncV, s: StoreV, d: SyncDataV)
    requires
        crate::store::wf_store(s),
        spec_next(s, p.channel, p.minimum) == Option::Some(d),
    ensures
        spec_tx_measure(p, spec_ack(s, p.channel, d.id)) < spec_tx_measure(p, s),
{
    let ch = p.channel;
    let pend_i = initial_pending(ch, p.minimum.0);
    let ii = find_first(s.initial_log, pend_i);
    lemma_find_first(s.initial_log, pend_i);
    if ii >= 0 {
        let iid = s.initial_log[ii].id;
        let ri = find_first(s.initial_log, is_initial_id(iid));
        lemma_find_first(s.initial_log, is_initial_id(iid));
        assert(is_initial_id(iid)(s.initial_log[ii]));
        if ri == -1 {
            assert(!is_initial_id(iid)(s.initial_log[ii]));
        }
        if ri < ii {
            assert(s.initial_log[ri].id < s.initial_log[ii].id);
        }
        if ii < ri {
            assert(!is_initial_id(iid)(s.initial_log[ii]));
        }
        assert(ri == ii);
        let s2 = spec_ack(s, ch, d.id);
        assert(s2.initial_log == s.initial_log.remove(ii));
        crate::util::lemma_filter_remove(s.initial_log, pend_i, ii);
        assert(s2.sync_log == s.sync_log);
        assert(s2.channels == s.channels);
    } else {
        let ci = spec_find_channel_id(s, ch);
        lemma_find_first(s.channels, is_channel_id(ch));
        let si = s.channels[ci].sync_index;
        let pend_g = sync_pending(si, p.minimum.1);
        let gi = find_first(s.sync_log, pend_g);
        lemma_find_first(s.sync_log, pend_g);
        let g = s.sync_log[gi].id;
        assert(d.id == SyncDataId::Global(g));
        assert(g > si);
        let cs = s.channels.update(ci, ChannelRow { sync_index: g, ..s.channels[ci] });
        let s2 = spec_ack(s, ch, d.id);
        crate::util::lemma_find_first_pointwise(s.channels, cs, is_channel_id(ch));
        let ci2 = spec_find_channel_id(s2, ch);
        assert(ci2 == ci);
        assert(s2.channels[ci].sync_index == g);
        let pend_g2 = sync_pending(g, p.minimum.1);
        crate::util::lemma_filter_of_filter_le(
            s.sync_log,
            sync_kept(spec_min_sync_index(cs)),
            pend_g2,
        );
        crate::util::lemma_filter_len_lt(s.sync_log, pend_g, pend_g2, gi);
        assert(s2.initial_log == s.initial_log);
    }
}

/// The receive step: inbound data gated by conversation is merged and,
/// when the merge keeps it, re-logged; in all cases its acknowledgment is
/// queued. An inbound ack goes to the store.
pub open spec fn spec_rx(p: PatchSyncV, s: StoreV, msg: PatchSyncMessageV) -> (PatchSyncV, StoreV) {
    match msg {
        PatchSyncMessageV::Data(d) => {
            let valid = match d.conversation() {
                Option::Some(c) => c == p.conversation,
                Option::None => true,
            };
            let s1 = if valid {
                let (sm, kept) = crate::store::spec_merge_patch(s, d.payload);
                match kept {
                    Option::Some(k) => crate::store::spec_save_patch(sm, k),
                    Option::None => sm,
                }
            } else {
                s
            };
            (PatchSyncV { tx_queue: p.tx_queue.push(PatchSyncMessageV::Ack(d.id)), ..p }, s1)
        },
        PatchSyncMessageV::Ack(id) => (p, spec_ack(s, p.channel, id)),
    }
}

impl PatchSync {
    /// A fresh engine for `channel`, suppressing `author` and gated to
    /// `conversation`, with an empty queue and the zero cursor.
    pub fn new(channel: i32, author: Author, conversation: Uuid) -> (r: PatchSync)
        ensures
            r@ == (PatchSyncV {
                author,
                conversation,
                channel,
                tx_queue: Seq::<PatchSyncMessageV>::empty(),
                minimum: (0i32, 0i32),
            }),
            wf_sync(r@),
    {
        let r = PatchSync { author, conversation, channel, tx_queue: Vec::new(), minimum: (0, 0) };
        proof {
            assert(r.tx_queue.deep_view() =~= Seq::<PatchSyncMessageV>::empty());
        }
        r
    }

    /// Produce the next outbound message, skipping and acknowledging rows
    /// authored by the peer or scoped to another conversation. An emitted
    /// data row is never such a row.
    pub fn tx(&mut self, store: &mut Store) -> (r: Option<PatchSyncMessage>)
        requires
            crate::store::wf_store(old(store)@),
        ensures
            ({
                let (p2, s2, m) = spec_tx(old(self)@, old(store)@);
                &&& final(self)@ == p2
                &&& final(store)@ == s2
                &&& view_opt(r) == m
            }),
            crate::store::wf_store(final(store)@),
            wf_sync(old(self)@) ==> wf_sync(final(self)@),
    {
        loop
            invariant
                crate::store::wf_store(store@),
                spec_tx(old(self)@, old(store)@) == spec_tx(self@, store@),
                wf_sync(old(self)@) ==> wf_sync(self@),
            decreases spec_tx_measure(self@, store@),
        {
            if self.tx_queue.len() > 0 {
                let ghost q = self.tx_queue.deep_view();
                let msg = self.tx_queue.remove(0);
                proof {
                    assert(msg@ == q[0]);
                    assert(self.tx_queue.deep_view() =~= q.subrange(1, q.len() as int));
                }
                return Some(msg);
            }
            let next = store.next_sync(self.channel, self.minimum);
            let data = match next {
                None => {
                    return None;
                },
                Some(d) => d,
            };
            let skip_by_conversation = match data.conversation() {
                Some(c) => !(c == self.conversation),
                None => false,
            };
            if data.author() == self.author || skip_by_conversation {
                proof {
                    lemma_wf_ack(store@, self@.channel, data@.id);
                    lemma_tx_measure_decreases(self@, store@, data@);
                }
                store.ack(self.channel, data.id);
            } else {
                match data.id {
                    SyncDataId::Global(g) => {
                        self.minimum = (self.minimum.0, g);
                    },
                    SyncDataId::InitialSync(iid) => {
                        self.minimum = (iid, self.minimum.1);
                    },
                }
                return Some(PatchSyncMessage::Data(data));
            }
        }
    }

    /// Handle one inbound message.
    pub fn rx(&mut self, store: &mut Store, message: PatchSyncMessage)
        requires
            crate::store::wf_store(old(store)@),
            old(store)@.next_sync_id < i32::MAX,
        ensures
            (final(self)@, final(store)@) == spec_rx(old(self)@, old(store)@, message@),
            crate::store::wf_store(final(store)@),
            wf_sync(old(self)@) ==> wf_sync(final(self)@),
    {
        match message {
            PatchSyncMessage::Data(data) => {
                let id = data.id;
                let valid_conversation = match data.conversation() {
                    Some(c) => c == self.conversation,
                    None => true,
                };
                if valid_conversation {
                    proof {
                        crate::store::lemma_wf_merge_patch(store@, data@.payload);
                    }
                    let merged = data.payload.merge(store);
                    match merged {
                        Some(kept) => {
                            proof {
                                crate::store::lemma_wf_save_patch(store@, kept@);
                            }
                            store.save_patch(kept);
                        },
                        None => {},
                    }
                }
                let ghost q = self.tx_queue.deep_view();
                self.tx_queue.push(PatchSyncMessage::Ack(id));
                proof {
                    assert(self.tx_queue.deep_view() =~= q.push(PatchSyncMessageV::Ack(id)));
                }
            },
            PatchSyncMessage::Ack(id) => {
                proof {
                    lemma_wf_ack(store@, self@.channel, id);
                }
                store.ack(self.channel, id);
            },
        }
    }
}

/// The transmit step never changes whose channel the engine serves.
pub proof fn lemma_tx_preserves_identity(p: PatchSyncV, s: StoreV)
    requires
        crate::store::wf_store(s),
    ensures
        spec_tx(p, s).0.author == p.author,
        spec_tx(p, s).0.conversation == p.conversation,
        spec_tx(p, s).0.channel == p.channel,
    decreases spec_tx_measure(p, s),
{
    if p.tx_queue.len() == 0 {
        match spec_next(s, p.channel, p.minimum) {
            Option::None => {},
            Option::Some(d) => {
                if spec_skip(p, d) {
                    lemma_wf_ack(s, p.channel, d.id);
                    lemma_tx_measure_decreases(p, s, d);
                    lemma_tx_preserves_identity(p, spec_ack(s, p.channel, d.id));
                }
            },
        }
    }
}

/// What the engine emits is gated: a data message it sends is never
/// authored by the peer, and never scoped to another conversation.
pub proof fn lemma_tx_gates(p: PatchSyncV, s: StoreV)
    requires
        crate::store::wf_store(s),
        wf_sync(p),
    ensures
        spec_tx(p, s).2 matches Some(m) ==> (m matches PatchSyncMessageV::Data(d) ==> {
            &&& d.author() != p.author
            &&& (d.conversation() matches Some(c) ==> c == p.conversation)
        }),
    decreases spec_tx_measure(p, s),
{
    if p.tx_queue.len() > 0 {
        assert(p.tx_queue[0] is Ack);
    } else {
        match spec_next(s, p.channel, p.minimum) {
            Option::None => {},
            Option::Some(d) => {
                if spec_skip(p, d) {
                    lemma_wf_ack(s, p.channel, d.id);
                    lemma_tx_measure_decreases(p, s, d);
                    lemma_tx_gates(p, spec_ack(s, p.channel, d.id));
                }
            },
        }
    }
}

impl Store {
    /// Index of the channel row with id `id`, if any.
    pub fn find_channel_id_idx(&self, id: i32) -> (r: Option<usize>)
        ensures
            match r {
                Option::Some(i) => spec_find_channel_id(self@, id) == i && i
                    < self@.channels.len(),
                Option::None => spec_find_channel_id(self@, id) == -1,
            },
    {
        let ghost p = is_channel_id(id);
        let n: usize = self.channels.len();
        let mut i: usize = 0;
        while i < n
            invariant
                i <= n,
                n == self.channels@.len(),
                forall|j: int| 0 <= j < i ==> !p(#[trigger] self.channels.deep_view()[j]),
                p == is_channel_id(id),
            decreases n - i,
        {
            let c = &self.channels[i];
            if c.id == id {
                proof {
                    assert(p(self.channels.deep_view()[i as int]));
                    lemma_find_first_unique(self.channels.deep_view(), p, i as int);
                }
                return Some(i);
            }
            proof {
                assert(!p(self.channels.deep_view()[i as int]));
            }
            i = i + 1;
        }
        proof {
            lemma_find_first_none(self.channels.deep_view(), p);
        }
        None
    }

    /// Index of the initial-sync row with id `id`, if any.
    pub fn find_initial_id_idx(&self, id: i32) -> (r: Option<usize>)
        ensures
            match r {
                Option::Some(i) => find_first(self@.initial_log, is_initial_id(id)) == i && i
                    < self@.initial_log.len(),
                Option::None => find_first(self@.initial_log, is_initial_id(id)) == -1,
            },
    {
        let ghost p = is_initial_id(id);
        let n: usize = self.initial_log.len();
        let mut i: usize = 0;
        while i < n
            invariant
                i <= n,
                n == self.initial_log@.len(),
                forall|j: int| 0 <= j < i ==> !p(#[trigger] self.initial_log.deep_view()[j]),
                p == is_initial_id(id),
            decreases n - i,
        {
            let row = &self.initial_log[i];
            if row.id == id {
                proof {
                    assert(p(self.initial_log.deep_view()[i as int]));
                    lemma_find_first_unique(self.initial_log.deep_view(), p, i as int);
                }
                return Some(i);
            }
            proof {
                assert(!p(self.initial_log.deep_view()[i as int]));
            }
            i = i + 1;
        }
        proof {
            lemma_find_first_none(self.initial_log.deep_view(), p);
        }
        None
    }

    /// The least high-water mark over all channels.
    pub fn min_sync_index(&self) -> (r: i32)
        ensures
            r == spec_min_sync_index(self@.channels),
    {
        let n: usize = self.channels.len();
        let mut best: i32 = i32::MAX;
        let mut i: usize = 0;
        while i < n
            invariant
                i <= n,
                n == self.channels@.len(),
                best == spec_min_sync_index(self.channels.deep_view().subrange(0, i as int)),
            decreases n - i,
        {
            proof {
                assert(self.channels.deep_view().subrange(0, i + 1).drop_last()
                    =~= self.channels.deep_view().subrange(0, i as int));
                assert(self.channels.deep_view().subrange(0, i + 1).last()
                    == self.channels.deep_view()[i as int]);
            }
            let c = &self.channels[i];
            if c.sync_index < best {
                best = c.sync_index;
            }
            i = i + 1;
        }
        proof {
            assert(self.channels.deep_view().subrange(0, n as int) =~= self.channels.deep_view());
        }
        best
    }

    /// Acknowledge a row for `channel`, collecting dead global rows.
    pub fn ack(&mut self, channel: i32, id: SyncDataId)
        ensures
            final(self)@ == spec_ack(old(self)@, channel, id),
    {
        match id {
            SyncDataId::Global(g) => {
                let found = self.find_channel_id_idx(channel);
                let ci = match found {
                    None => {
                        return ;
                    },
                    Some(ci) => ci,
                };
                if (&self.channels[ci]).sync_index >= g {
                    return ;
                }
                let mut row = self.channels[ci];
                row.sync_index = g;
                self.channels.set(ci, row);
                proof {
                    assert(self.channels.deep_view() =~= old(self)@.channels.update(
                        ci as int,
                        ChannelRow { sync_index: g, ..old(self)@.channels[ci as int] },
                    ));
                }
                let m = self.min_sync_index();
                let ghost p = sync_kept(m);
                let n: usize = self.sync_log.len();
                let mut kept: Vec<crate::store::SyncRow> = Vec::new();
                let mut j: usize = 0;
                while j < n
                    invariant
                        j <= n,
                        n == self.sync_log@.len(),
                        p == sync_kept(m),
                        m == spec_min_sync_index(self@.channels),
                        kept.deep_view() == self.sync_log.deep_view().subrange(0, j as int).filter(
                            p,
                        ),
                    decreases n - j,
                {
                    let ghost prefix = self.sync_log.deep_view().subrange(0, j as int);
                    let ghost prefix1 = self.sync_log.deep_view().subrange(0, j + 1);
                    proof {
                        reveal(Seq::filter);
                        assert(prefix1.drop_last() =~= prefix);
                        assert(prefix1.last() == self.sync_log.deep_view()[j as int]);
                    }
                    let row = &self.sync_log[j];
                    if row.id > m {
                        let copy = crate::store::SyncRow { id: row.id, payload: clone_patch(&row.payload) };
                        let ghost prev_deep = kept.deep_view();
                        kept.push(copy);
                        proof {
                            assert(p(self.sync_log.deep_view()[j as int]));
                            assert(prefix1.filter(p) =~= prefix.filter(p).push(
                                self.sync_log.deep_view()[j as int],
                            ));
                            assert(kept.deep_view() =~= prev_deep.push(
                                self.sync_log.deep_view()[j as int],
                            ));
                        }
                    } else {
                        proof {
                            assert(!p(self.sync_log.deep_view()[j as int]));
                            assert(prefix1.filter(p) =~= prefix.filter(p));
                        }
                    }
                    j = j + 1;
                }
                proof {
                    assert(self.sync_log.deep_view().subrange(0, n as int)
                        =~= self.sync_log.deep_view());
                }
                self.sync_log = kept;
                proof {
                    assert(self@ == spec_ack(old(self)@, channel, id));
                }
            },
            SyncDataId::InitialSync(iid) => {
                let found = self.find_initial_id_idx(iid);
                let ri = match found {
                    None => {
                        return ;
                    },
                    Some(ri) => ri,
                };
                if (&self.initial_log[ri]).channel != channel {
                    return ;
                }
                self.initial_log.remove(ri);
                proof {
                    assert(self.initial_log.deep_view() =~= old(self)@.initial_log.remove(
                        ri as int,
                    ));
                }
            },
        }
    }

    /// The next row `channel` should transmit, above the cursor `minimum`.
    pub fn next_sync(&self, channel: i32, minimum: (i32, i32)) -> (r: Option<SyncData>)
        ensures
            view_opt(r) == spec_next(self@, channel, minimum),
    {
        let ghost p = initial_pending(channel, minimum.0);
        let n: usize = self.initial_log.len();
        let mut i: usize = 0;
        while i < n
            invariant
                i <= n,
                n == self.initial_log@.len(),
                forall|j: int| 0 <= j < i ==> !p(#[trigger] self.initial_log.deep_view()[j]),
                p == initial_pending(channel, minimum.0),
            decreases n - i,
        {
            let row = &self.initial_log[i];
            if row.channel == channel && row.id > minimum.0 {
                proof {
                    assert(p(self.initial_log.deep_view()[i as int]));
                    lemma_find_first_unique(self.initial_log.deep_view(), p, i as int);
                }
                return Some(
                    SyncData {
                        id: SyncDataId::InitialSync(row.id),
                        payload: clone_patch(&row.payload),
                    },
                );
            }
            proof {
                assert(!p(self.initial_log.deep_view()[i as int]));
            }
            i = i + 1;
        }
        proof {
            lemma_find_first_none(self.initial_log.deep_view(), p);
        }

        let found = self.find_channel_id_idx(channel);
        let ci = match found {
            None => {
                return None;
            },
            Some(ci) => ci,
        };
        let si = (&self.channels[ci]).sync_index;
        proof {
            assert(si == self@.channels[ci as int].sync_index);
        }
        let ghost q = sync_pending(si, minimum.1);
        let ns: usize = self.sync_log.len();
        let mut j: usize = 0;
        while j < ns
            invariant
                j <= ns,
                ns == self.sync_log@.len(),
                forall|k: int| 0 <= k < j ==> !q(#[trigger] self.sync_log.deep_view()[k]),
                q == sync_pending(si, minimum.1),
                find_first(self@.initial_log, initial_pending(channel, minimum.0)) == -1,
                spec_find_channel_id(self@, channel) == ci,
                ci < self@.channels.len(),
                si == self@.channels[ci as int].sync_index,
            decreases ns - j,
        {
            let row = &self.sync_log[j];
            if row.id > si && row.id > minimum.1 {
                proof {
                    assert(q(self.sync_log.deep_view()[j as int]));
                    lemma_find_first_unique(self.sync_log.deep_view(), q, j as int);
                }
                return Some(
                    SyncData { id: SyncDataId::Global(row.id), payload: clone_patch(&row.payload) },
                );
            }
            proof {
                assert(!q(self.sync_log.deep_view()[j as int]));
            }
            j = j + 1;
        }
        proof {
            lemma_find_first_none(self.sync_log.deep_view(), q);
        }
        None
    }
}

} // verus!
