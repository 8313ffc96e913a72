//! The pipe session: the replication engine married to the framed pipe.
//!
//! Inbound frames decode into engine messages; outbound engine messages
//! encode into frames. One pending slot holds either the next decoded
//! inbound frame or the next encoded outbound frame, exactly as the run
//! loop around it alternates.

use vstd::prelude::*;

use crate::frame::{spec_consume, spec_read_ready, Fragmentable};
use crate::store::{wf_store, Store, StoreV};
use crate::sync::{spec_rx, spec_tx, wf_sync, PatchSync};
use crate::wire::{decode_message, encode_message, spec_decode_message, spec_encode_message, wf_message};

verus! {

/// What occupies the session's single pending slot.
pub enum PipeSyncPending {
    Rx(Vec<u8>),
    Tx(Vec<u8>),
}

/// Why a pipe session step failed; either way the session is torn down
/// and the durable cursor makes a reconnect resume correctly.
#[derive(Clone, Copy, Debug, PartialEq, Eq, Structural)]
pub enum PipeSyncError {
    DecodeError,
    SerializeError,
}

impl PipeSyncError {
    /// The complaint a caller can show.
    pub fn message(&self) -> &'static str {
        match self {
            PipeSyncError::DecodeError => "a frame from the peer did not decode",
            PipeSyncError::SerializeError => "an outbound message did not fit the wire format",
        }
    }
}

/// The engine, the one pending slot, and the reassembly buffer.
pub struct PipeSync {
    pub sync: PatchSync,
    pub pending: Option<PipeSyncPending>,
    pub frag: Fragmentable,
}

impl PipeSync {
    /// A fresh pipe session around an engine.
    pub fn new(sync: PatchSync) -> (r: PipeSync)
        ensures
            r.sync == sync,
            r.pending is None,
            r.frag@ == Seq::<u8>::empty(),
    {
        PipeSync { sync, pending: None, frag: Fragmentable::new() }
    }

    /// Drain a pending inbound frame into the engine, then ask the engine
    /// for the next outbound message and stage its encoding.
    pub fn pre_wait(&mut self, store: &mut Store) -> (r: Result<(), PipeSyncError>)
        requires
            wf_store(old(store)@),
            old(store)@.next_sync_id < i32::MAX,
        ensures
            wf_store(final(store)@),
            wf_sync(old(self).sync@) ==> wf_sync(final(self).sync@),
            spec_pre_wait_post(*old(self), *final(self), old(store)@, final(store)@, r),
    {
        let taken = self.pending.take();
        match taken {
            Some(PipeSyncPending::Tx(bytes)) => {
                self.pending = Some(PipeSyncPending::Tx(bytes));
                Ok(())
            },
            Some(PipeSyncPending::Rx(frame)) => {
                let msg = match decode_message(&frame) {
                    Some(m) => m,
                    None => {
                        return Err(PipeSyncError::DecodeError);
                    },
                };
                self.sync.rx(store, msg);
                self.stage_tx(store)
            },
            None => self.stage_tx(store),
        }
    }

    /// Ask the engine for the next outbound message and stage it.
    fn stage_tx(&mut self, store: &mut Store) -> (r: Result<(), PipeSyncError>)
        requires
            wf_store(old(store)@),
            old(self).pending is None,
        ensures
            wf_store(final(store)@),
            wf_sync(old(self).sync@) ==> wf_sync(final(self).sync@),
            ({
                let (sync2, store2, out) = spec_tx(old(self).sync@, old(store)@);
                &&& final(self).sync@ == sync2
                &&& final(store)@ == store2
                &&& post_tx_pending(final(self).pending, out, r)
            }),
            final(self).frag == old(self).frag,
            final(self).channel_of() == old(self).channel_of(),
    {
        proof {
            crate::sync::lemma_tx_preserves_identity(self.sync@, store@);
        }
        let msg = self.sync.tx(store);
        match msg {
            None => Ok(()),
            Some(m) => {
                match encode_message(&m) {
                    Some(bytes) => {
                        self.pending = Some(PipeSyncPending::Tx(bytes));
                        Ok(())
                    },
                    None => Err(PipeSyncError::SerializeError),
                }
            },
        }
    }

    /// The conversation and channel the engine serves (ghost bookkeeping).
    pub open spec fn channel_of(&self) -> (crate::crdt::Author, crate::uuid::Uuid, i32) {
        (self.sync.author, self.sync.conversation, self.sync.channel)
    }

    /// Hand out a staged outbound frame, if one is waiting.
    pub fn take_outgoing(&mut self) -> (r: Option<Vec<u8>>)
        ensures
            match old(self).pending {
                Option::Some(PipeSyncPending::Tx(bytes)) => r matches Some(b) && b == bytes
                    && final(self).pending is None,
                _ => r is None && *final(self) == *old(self),
            },
            final(self).sync == old(self).sync,
            final(self).frag == old(self).frag,
    {
        let taken = self.pending.take();
        match taken {
            Some(PipeSyncPending::Tx(bytes)) => Some(bytes),
            Some(PipeSyncPending::Rx(frame)) => {
                self.pending = Some(PipeSyncPending::Rx(frame));
                None
            },
            None => None,
        }
    }

    /// Buffer one transport delivery.
    pub fn handle_incoming(&mut self, data: &Vec<u8>)
        ensures
            final(self).frag@ == old(self).frag@ + data@,
            final(self).sync == old(self).sync,
            final(self).pending == old(self).pending,
    {
        self.frag.feed(data);
    }

    /// Lift one complete buffered packet into the pending slot; says
    /// whether it did.
    pub fn poll_frame(&mut self) -> (r: bool)
        ensures
            if old(self).pending is None && spec_read_ready(old(self).frag@) {
                &&& r
                &&& final(self).pending matches Some(PipeSyncPending::Rx(frame)) && frame@
                    == spec_consume(old(self).frag@).0
                &&& final(self).frag@ == spec_consume(old(self).frag@).1
            } else {
                !r && *final(self) == *old(self)
            },
            final(self).sync == old(self).sync,
    {
        match &self.pending {
            Some(_) => false,
            None => {
                if self.frag.read_ready() {
                    let frame = self.frag.consume();
                    self.pending = Some(PipeSyncPending::Rx(frame));
                    true
                } else {
                    false
                }
            },
        }
    }
}

/// The pre-wait step's whole contract, relating the session and the store
/// before and after, and the result: a staged outbound frame is left
/// alone; a pending inbound frame either fails to decode (the error, state
/// kept) or is handled by the engine before the next outbound message is
/// staged; with nothing pending only the outbound half runs.
pub open spec fn spec_pre_wait_post(
    pre: PipeSync,
    post: PipeSync,
    s0: StoreV,
    s1: StoreV,
    r: Result<(), PipeSyncError>,
) -> bool {
    &&& match pre.pending {
        Option::Some(PipeSyncPending::Tx(_)) => post == pre && s1 == s0 && r is Ok,
        Option::Some(PipeSyncPending::Rx(frame)) => match spec_decode_message(frame@) {
            Option::None => r == Result::<(), PipeSyncError>::Err(PipeSyncError::DecodeError)
                && post.pending is None && post.sync == pre.sync && s1 == s0,
            Option::Some(msg) => ({
                let (sync1, store1) = spec_rx(pre.sync@, s0, msg);
                &&& post.sync@ == spec_tx(sync1, store1).0
                &&& s1 == spec_tx(sync1, store1).1
                &&& post_tx_pending(post.pending, spec_tx(sync1, store1).2, r)
            }),
        },
        Option::None => ({
            let (sync2, store2, out) = spec_tx(pre.sync@, s0);
            &&& post.sync@ == sync2
            &&& s1 == store2
            &&& post_tx_pending(post.pending, out, r)
        }),
    }
    &&& post.frag == pre.frag
    &&& post.channel_of() == pre.channel_of()
}

/// How the staged slot and the result reflect what the engine produced:
/// an encodable message is staged, an unencodable one is the error, and
/// no message stages nothing.
pub open spec fn post_tx_pending(
    pending: Option<PipeSyncPending>,
    out: Option<crate::sync::PatchSyncMessageV>,
    r: Result<(), PipeSyncError>,
) -> bool {
    match out {
        Option::None => pending is None && r is Ok,
        Option::Some(m) => if wf_message(m) {
            &&& pending matches Some(PipeSyncPending::Tx(bytes)) && bytes@ == spec_encode_message(m)
            &&& r is Ok
        } else {
            pending is None && r == Result::<(), PipeSyncError>::Err(PipeSyncError::SerializeError)
        },
    }
}

} // verus!
