//! The supervisor's view of one chain.
//!
//! A real chain handle is a capability to query a chain, send messages to
//! it and subscribe to its events; all of that is I/O and lives outside
//! this crate. What the classifier reads from a handle is plain data: the
//! chain's id, and for each channel end the client underlying it together
//! with the counterparty chain. [`ChainHandle`] holds exactly that data,
//! and the embedding fills it from its queries.

use vstd::prelude::*;

use crate::ids::{seq_view, ChainId, ChannelId, ClientId, PortId};

verus! {

/// One row of a chain's channel table: the channel end `(port_id,
/// channel_id)` rests on client `client_id`, which tracks chain
/// `counterparty_chain_id`.
#[derive(Debug)]
pub struct ChannelClientEntry {
    pub port_id: PortId,
    pub channel_id: ChannelId,
    pub client_id: ClientId,
    pub counterparty_chain_id: ChainId,
}

/// Spec-level image of [`ChannelClientEntry`].
pub struct ChannelClientEntryV {
    pub port_id: Seq<char>,
    pub channel_id: Seq<char>,
    pub client_id: Seq<char>,
    pub counterparty_chain_id: Seq<char>,
}

impl View for ChannelClientEntry {
    type V = ChannelClientEntryV;

    open spec fn view(&self) -> ChannelClientEntryV {
        ChannelClientEntryV {
            port_id: self.port_id@,
            channel_id: self.channel_id@,
            client_id: self.client_id@,
            counterparty_chain_id: self.counterparty_chain_id@,
        }
    }
}

impl Clone for ChannelClientEntry {
    fn clone(&self) -> (r: Self)
        ensures
            r == *self,
    {
        ChannelClientEntry {
            port_id: self.port_id.clone(),
            channel_id: self.channel_id.clone(),
            client_id: self.client_id.clone(),
            counterparty_chain_id: self.counterparty_chain_id.clone(),
        }
    }
}

/// The first entry of `entries` for the channel end `(port, channel)`,
/// if any.
pub open spec fn channel_client_spec(
    entries: Seq<ChannelClientEntryV>,
    port: Seq<char>,
    channel: Seq<char>,
) -> Option<ChannelClientEntryV>
    decreases entries.len(),
{
    if entries.len() == 0 {
        None
    } else if entries[0].port_id == port && entries[0].channel_id == channel {
        Some(entries[0])
    } else {
        channel_client_spec(entries.drop_first(), port, channel)
    }
}

/// The supervisor-side image of one chain.
#[derive(Debug)]
pub struct ChainHandle {
    pub id: ChainId,
    pub channel_clients: Vec<ChannelClientEntry>,
}

/// Spec-level image of [`ChainHandle`].
pub struct ChainHandleV {
    pub id: Seq<char>,
    pub channel_clients: Seq<ChannelClientEntryV>,
}

impl View for ChainHandle {
    type V = ChainHandleV;

    open spec fn view(&self) -> ChainHandleV {
        ChainHandleV { id: self.id@, channel_clients: seq_view(self.channel_clients@) }
    }
}

impl Clone for ChainHandle {
    fn clone(&self) -> (r: Self)
        ensures
            r@ == self@,
    {
        let mut channel_clients: Vec<ChannelClientEntry> = Vec::new();
        let mut i: usize = 0;
        while i < self.channel_clients.len()
            invariant
                i <= self.channel_clients.len(),
                channel_clients@.len() == i as int,
                forall|j: int| 0 <= j < i as int ==> channel_clients@[j] == self.channel_clients@[j],
            decreases self.channel_clients.len() - i,
        {
            channel_clients.push(self.channel_clients[i].clone());
            i = i + 1;
        }
        let r = ChainHandle { id: self.id.clone(), channel_clients };
        proof {
            assert(seq_view(r.channel_clients@) =~= seq_view(self.channel_clients@));
        }
        r
    }
}

impl ChainHandle {
    pub fn new(id: ChainId, channel_clients: Vec<ChannelClientEntry>) -> (r: Self)
        ensures
            r@.id == id@,
            r@.channel_clients == seq_view(channel_clients@),
    {
        ChainHandle { id, channel_clients }
    }

    /// The id of the chain this handle stands for.
    pub fn id(&self) -> (r: &ChainId)
        ensures
            r@ == self@.id,
    {
        &self.id
    }

    /// Resolve the client underlying the channel end `(port, channel)`
    /// on this chain, as the embedding's channel queries reported it.
    pub fn channel_client(&self, port: &PortId, channel: &ChannelId) -> (r: Option<
        ChannelClientEntry,
    >)
        ensures
            match r {
                Some(e) => channel_client_spec(self@.channel_clients, port@, channel@) == Some(e@),
                None => channel_client_spec(self@.channel_clients, port@, channel@) is None,
            },
    {
        let ghost entries = self@.channel_clients;
        proof {
            assert(entries.skip(0) =~= entries);
        }
        let mut i: usize = 0;
        while i < self.channel_clients.len()
            invariant
                i <= self.channel_clients.len(),
                entries == seq_view(self.channel_clients@),
                entries.len() == self.channel_clients@.len(),
                channel_client_spec(entries, port@, channel@) == channel_client_spec(
                    entries.skip(i as int),
                    port@,
                    channel@,
                ),
            decreases self.channel_clients.len() - i,
        {
            let e = &self.channel_clients[i];
            proof {
                assert(entries.skip(i as int)[0] == entries[i as int]);
            }
            if e.port_id.same(port) && e.channel_id.same(channel) {
                return Some(e.clone());
            }
            proof {
                assert(entries.skip(i as int).drop_first() =~= entries.skip(i as int + 1));
            }
            i = i + 1;
        }
        proof {
            assert(entries.skip(i as int) =~= Seq::<ChannelClientEntryV>::empty());
        }
        None
    }
}

} // verus!
