//! The hub: one store, many channel sessions.
//!
//! Each cycle the hub reconciles its in-memory sessions with the
//! persisted channel set, connects whatever is offline, and drives the
//! connected pipe sessions. The waiting itself is outside; every decision
//! is here.

use vstd::prelude::*;

use crate::channel::{spec_as_author, Channel, ChannelData, ChannelStateLabel, Ed25519Seed};
use crate::pipe_sync::PipeSyncError;
use crate::store::{wf_store, Store};
use crate::sync::PatchSync;
use crate::util::{find_first, lemma_find_first, lemma_find_first_none, lemma_find_first_unique};

verus! {

/// A session serves the channel row with this id.
pub open spec fn session_for(id: i32) -> spec_fn(Channel) -> bool {
    |c: Channel| c.channel.id == id
}

/// The hub state: the local store and one session per persisted channel.
pub struct Chat {
    pub store: Store,
    pub sync: Vec<Channel>,
}

impl Chat {
    /// A hub over a store, with no sessions yet.
    pub fn new(store: Store) -> (r: Chat)
        ensures
            r.store == store,
            r.sync@.len() == 0,
    {
        Chat { store, sync: Vec::new() }
    }

    /// A fresh replication engine for a channel: suppress the peer's
    /// author, gate to the channel's conversation, resume at the zero
    /// cursor (the durable high-water mark does the rest).
    pub fn start_sync(data: &ChannelData) -> (r: PatchSync)
        ensures
            r.channel == data.id,
            r.author.0 == spec_as_author(data.peer_cert.0@),
            r.conversation == data.conversation,
            r@.tx_queue.len() == 0,
            r.minimum == (0i32, 0i32),
            crate::sync::wf_sync(r@),
    {
        PatchSync::new(data.id, data.peer_cert.as_author(), data.conversation)
    }

    /// Does some session already serve channel row `id`?
    pub fn find_session(&self, id: i32) -> (r: Option<usize>)
        ensures
            match r {
                Option::Some(i) => find_first(self.sync@, session_for(id)) == i && i
                    < self.sync@.len(),
                Option::None => find_first(self.sync@, session_for(id)) == -1,
            },
    {
        let ghost p = session_for(id);
        let n: usize = self.sync.len();
        let mut i: usize = 0;
        while i < n
            invariant
                i <= n,
                n == self.sync@.len(),
                forall|j: int| 0 <= j < i ==> !p(#[trigger] self.sync@[j]),
                p == session_for(id),
            decreases n - i,
        {
            let c = &self.sync[i];
            if c.channel.id == id {
                proof {
                    assert(p(self.sync@[i as int]));
                    lemma_find_first_unique(self.sync@, p, i as int);
                }
                return Some(i);
            }
            proof {
                assert(!p(self.sync@[i as int]));
            }
            i = i + 1;
        }
        proof {
            lemma_find_first_none(self.sync@, p);
        }
        None
    }

    /// Reconcile the session set with the persisted channel set: sessions
    /// whose channel row is gone are dropped, their states kept otherwise,
    /// and a fresh offline session appears for every channel row that can
    /// derive its rendezvous string and had none.
    pub fn sync_channels(&mut self, seed: &Ed25519Seed)
        ensures
            final(self).store == old(self).store,
            forall|k: int|
                0 <= k < final(self).sync@.len() ==> crate::store::spec_find_channel_id(
                    old(self).store@,
                    (#[trigger] final(self).sync@[k]).channel.id,
                ) >= 0,
    {
        let mut kept: Vec<Channel> = Vec::new();
        while self.sync.len() > 0
            invariant
                forall|k: int|
                    0 <= k < kept@.len() ==> crate::store::spec_find_channel_id(
                        self.store@,
                        (#[trigger] kept@[k]).channel.id,
                    ) >= 0,
                self.store == old(self).store,
            decreases self.sync@.len(),
        {
            let session = self.sync.remove(0);
            let live = self.store.find_channel_id_idx(session.channel.id);
            if live.is_some() {
                kept.push(session);
            }
        }
        let n: usize = self.store.channels.len();
        let mut j: usize = 0;
        while j < n
            invariant
                j <= n,
                n == self.store.channels@.len(),
                self.store == old(self).store,
                forall|k: int|
                    0 <= k < kept@.len() ==> crate::store::spec_find_channel_id(
                        self.store@,
                        (#[trigger] kept@[k]).channel.id,
                    ) >= 0,
            decreases n - j,
        {
            let row = self.store.channels[j];
            proof {
                assert(self.store@.channels[j as int] == row);
            }
            let mut found = false;
            let m: usize = kept.len();
            let mut k: usize = 0;
            while k < m
                invariant
                    k <= m,
                    m == kept@.len(),
                decreases m - k,
            {
                if (&kept[k]).channel.id == row.id {
                    found = true;
                }
                k = k + 1;
            }
            if !found {
                let cert = crate::channel::cert_of_key(&row.peer);
                let data = ChannelData::new(row.id, row.conversation, cert, seed);
                match data {
                    Some(data) => {
                        proof {
                            lemma_find_first(
                                self.store@.channels,
                                crate::store::is_channel_id(row.id),
                            );
                            assert(crate::store::is_channel_id(row.id)(
                                self.store@.channels[j as int],
                            ));
                        }
                        kept.push(Channel::new(data));
                    },
                    None => {},
                }
            }
            j = j + 1;
        }
        self.sync = kept;
    }

    /// Connect every offline session: give it a fresh engine and ask for a
    /// connection.
    pub fn connect_offline(&mut self)
        ensures
            final(self).store == old(self).store,
            final(self).sync@.len() == old(self).sync@.len(),
            forall|k: int|
                0 <= k < final(self).sync@.len() ==> (#[trigger] final(self).sync@[k]).label
                    != ChannelStateLabel::Offline,
    {
        let n: usize = self.sync.len();
        let mut i: usize = 0;
        while i < n
            invariant
                i <= n,
                n == self.sync@.len(),
                self.store == old(self).store,
                forall|k: int|
                    0 <= k < i ==> (#[trigger] self.sync@[k]).label != ChannelStateLabel::Offline,
            decreases n - i,
        {
            let is_offline = {
                let c = &self.sync[i];
                c.state() == ChannelStateLabel::Offline
            };
            if is_offline {
                let engine = {
                    let c = &self.sync[i];
                    Chat::start_sync(&c.channel)
                };
                let ghost pre = self.sync@;
                let mut session = self.sync.remove(i);
                session.connect(engine);
                self.sync.insert(i, session);
                proof {
                    assert(forall|k: int|
                        0 <= k < pre.len() && k != i ==> #[trigger] self.sync@[k] == pre[k]);
                }
            }
            i = i + 1;
        }
    }

    /// Drive the pipe session at index `i` one pre-wait step.
    pub fn pre_wait_at(&mut self, i: usize) -> (r: Result<(), PipeSyncError>)
        requires
            i < old(self).sync@.len(),
            wf_store(old(self).store@),
            old(self).store@.next_sync_id < i32::MAX,
        ensures
            wf_store(final(self).store@),
            final(self).sync@.len() == old(self).sync@.len(),
    {
        let has_pipe = {
            let c = &self.sync[i];
            c.label == ChannelStateLabel::Connected && c.pipe.is_some()
        };
        if !has_pipe {
            return Ok(());
        }
        let ghost pre = self.sync@;
        let mut session = self.sync.remove(i);
        let result = match &mut session.pipe {
            Some(pipe) => pipe.pre_wait(&mut self.store),
            None => Ok(()),
        };
        self.sync.insert(i, session);
        proof {
            assert(self.sync@.len() == pre.len());
        }
        result
    }
}

} // verus!
