//! Events emitted by chains, and the batches that group them.
//!
//! Only the kinds the classifier cares about are enumerated; everything
//! else is modelled by [`IbcEvent::Other`], which the classifier ignores.

use vstd::prelude::*;

use crate::ids::{seq_view, ChainId, ChannelId, ClientId, ConnectionId, Height, PortId, Sequence};

verus! {

/// Attributes of a client-update event: the client that was updated
/// and the chain on which it lives.
#[derive(Debug)]
pub struct UpdateClientAttributes {
    pub dst_chain_id: ChainId,
    pub dst_client_id: ClientId,
}

/// Spec-level image of [`UpdateClientAttributes`].
pub struct UpdateClientAttributesV {
    pub dst_chain_id: Seq<char>,
    pub dst_client_id: Seq<char>,
}

impl View for UpdateClientAttributes {
    type V = UpdateClientAttributesV;

    open spec fn view(&self) -> UpdateClientAttributesV {
        UpdateClientAttributesV {
            dst_chain_id: self.dst_chain_id@,
            dst_client_id: self.dst_client_id@,
        }
    }
}

impl Clone for UpdateClientAttributes {
    fn clone(&self) -> (r: Self)
        ensures
            r == *self,
    {
        UpdateClientAttributes {
            dst_chain_id: self.dst_chain_id.clone(),
            dst_client_id: self.dst_client_id.clone(),
        }
    }
}

/// Attributes of a connection-handshake event. The connection id may be
/// absent on malformed events, in which case classification fails.
#[derive(Debug)]
pub struct ConnectionAttributes {
    pub connection_id: Option<ConnectionId>,
    pub counterparty_chain_id: ChainId,
}

/// Spec-level image of [`ConnectionAttributes`].
pub struct ConnectionAttributesV {
    pub connection_id: Option<Seq<char>>,
    pub counterparty_chain_id: Seq<char>,
}

impl View for ConnectionAttributes {
    type V = ConnectionAttributesV;

    open spec fn view(&self) -> ConnectionAttributesV {
        ConnectionAttributesV {
            connection_id: match self.connection_id {
                Some(c) => Some(c@),
                None => None,
            },
            counterparty_chain_id: self.counterparty_chain_id@,
        }
    }
}

impl Clone for ConnectionAttributes {
    fn clone(&self) -> (r: Self)
        ensures
            r == *self,
    {
        ConnectionAttributes {
            connection_id: match &self.connection_id {
                Some(c) => Some(c.clone()),
                None => None,
            },
            counterparty_chain_id: self.counterparty_chain_id.clone(),
        }
    }
}

/// Attributes of a channel-handshake event. The channel id may be absent
/// on malformed events, in which case classification fails.
#[derive(Debug)]
pub struct ChannelAttributes {
    pub port_id: PortId,
    pub channel_id: Option<ChannelId>,
}

/// Spec-level image of [`ChannelAttributes`].
pub struct ChannelAttributesV {
    pub port_id: Seq<char>,
    pub channel_id: Option<Seq<char>>,
}

impl View for ChannelAttributes {
    type V = ChannelAttributesV;

    open spec fn view(&self) -> ChannelAttributesV {
        ChannelAttributesV {
            port_id: self.port_id@,
            channel_id: match self.channel_id {
                Some(c) => Some(c@),
                None => None,
            },
        }
    }
}

impl Clone for ChannelAttributes {
    fn clone(&self) -> (r: Self)
        ensures
            r == *self,
    {
        ChannelAttributes {
            port_id: self.port_id.clone(),
            channel_id: match &self.channel_id {
                Some(c) => Some(c.clone()),
                None => None,
            },
        }
    }
}

/// Attributes of a packet event: the two channel ends the packet travels
/// between, and its sequence number.
#[derive(Debug)]
pub struct PacketAttributes {
    pub sequence: Sequence,
    pub source_port: PortId,
    pub source_channel: ChannelId,
    pub destination_port: PortId,
    pub destination_channel: ChannelId,
}

/// Spec-level image of [`PacketAttributes`].
pub struct PacketAttributesV {
    pub sequence: Sequence,
    pub source_port: Seq<char>,
    pub source_channel: Seq<char>,
    pub destination_port: Seq<char>,
    pub destination_channel: Seq<char>,
}

impl View for PacketAttributes {
    type V = PacketAttributesV;

    open spec fn view(&self) -> PacketAttributesV {
        PacketAttributesV {
            sequence: self.sequence,
            source_port: self.source_port@,
            source_channel: self.source_channel@,
            destination_port: self.destination_port@,
            destination_channel: self.destination_channel@,
        }
    }
}

impl Clone for PacketAttributes {
    fn clone(&self) -> (r: Self)
        ensures
            r == *self,
    {
        PacketAttributes {
            sequence: self.sequence,
            source_port: self.source_port.clone(),
            source_channel: self.source_channel.clone(),
            destination_port: self.destination_port.clone(),
            destination_channel: self.destination_channel.clone(),
        }
    }
}

/// An event emitted by a chain, as far as the supervisor reads it.
#[derive(Debug)]
pub enum IbcEvent {
    NewBlock(Height),
    UpdateClient(UpdateClientAttributes),
    OpenInitConnection(ConnectionAttributes),
    OpenTryConnection(ConnectionAttributes),
    OpenAckConnection(ConnectionAttributes),
    OpenInitChannel(ChannelAttributes),
    OpenTryChannel(ChannelAttributes),
    OpenAckChannel(ChannelAttributes),
    OpenConfirmChannel(ChannelAttributes),
    SendPacket(PacketAttributes),
    TimeoutPacket(PacketAttributes),
    WriteAcknowledgement(PacketAttributes),
    CloseInitChannel(ChannelAttributes),
    /// Any event kind the classifier ignores.
    Other,
}

/// Spec-level image of [`IbcEvent`].
pub enum IbcEventV {
    NewBlock(Height),
    UpdateClient(UpdateClientAttributesV),
    OpenInitConnection(ConnectionAttributesV),
    OpenTryConnection(ConnectionAttributesV),
    OpenAckConnection(ConnectionAttributesV),
    OpenInitChannel(ChannelAttributesV),
    OpenTryChannel(ChannelAttributesV),
    OpenAckChannel(ChannelAttributesV),
    OpenConfirmChannel(ChannelAttributesV),
    SendPacket(PacketAttributesV),
    TimeoutPacket(PacketAttributesV),
    WriteAcknowledgement(PacketAttributesV),
    CloseInitChannel(ChannelAttributesV),
    Other,
}

impl View for IbcEvent {
    type V = IbcEventV;

    open spec fn view(&self) -> IbcEventV {
        match self {
            IbcEvent::NewBlock(h) => IbcEventV::NewBlock(*h),
            IbcEvent::UpdateClient(a) => IbcEventV::UpdateClient(a@),
            IbcEvent::OpenInitConnection(a) => IbcEventV::OpenInitConnection(a@),
            IbcEvent::OpenTryConnection(a) => IbcEventV::OpenTryConnection(a@),
            IbcEvent::OpenAckConnection(a) => IbcEventV::OpenAckConnection(a@),
            IbcEvent::OpenInitChannel(a) => IbcEventV::OpenInitChannel(a@),
            IbcEvent::OpenTryChannel(a) => IbcEventV::OpenTryChannel(a@),
            IbcEvent::OpenAckChannel(a) => IbcEventV::OpenAckChannel(a@),
            IbcEvent::OpenConfirmChannel(a) => IbcEventV::OpenConfirmChannel(a@),
            IbcEvent::SendPacket(p) => IbcEventV::SendPacket(p@),
            IbcEvent::TimeoutPacket(p) => IbcEventV::TimeoutPacket(p@),
            IbcEvent::WriteAcknowledgement(p) => IbcEventV::WriteAcknowledgement(p@),
            IbcEvent::CloseInitChannel(a) => IbcEventV::CloseInitChannel(a@),
            IbcEvent::Other => IbcEventV::Other,
        }
    }
}

impl Clone for IbcEvent {
    fn clone(&self) -> (r: Self)
        ensures
            r == *self,
    {
        match self {
            IbcEvent::NewBlock(h) => IbcEvent::NewBlock(*h),
            IbcEvent::UpdateClient(a) => IbcEvent::UpdateClient(a.clone()),
            IbcEvent::OpenInitConnection(a) => IbcEvent::OpenInitConnection(a.clone()),
            IbcEvent::OpenTryConnection(a) => IbcEvent::OpenTryConnection(a.clone()),
            IbcEvent::OpenAckConnection(a) => IbcEvent::OpenAckConnection(a.clone()),
            IbcEvent::OpenInitChannel(a) => IbcEvent::OpenInitChannel(a.clone()),
            IbcEvent::OpenTryChannel(a) => IbcEvent::OpenTryChannel(a.clone()),
            IbcEvent::OpenAckChannel(a) => IbcEvent::OpenAckChannel(a.clone()),
            IbcEvent::OpenConfirmChannel(a) => IbcEvent::OpenConfirmChannel(a.clone()),
            IbcEvent::SendPacket(p) => IbcEvent::SendPacket(p.clone()),
            IbcEvent::TimeoutPacket(p) => IbcEvent::TimeoutPacket(p.clone()),
            IbcEvent::WriteAcknowledgement(p) => IbcEvent::WriteAcknowledgement(p.clone()),
            IbcEvent::CloseInitChannel(a) => IbcEvent::CloseInitChannel(a.clone()),
            IbcEvent::Other => IbcEvent::Other,
        }
    }
}

/// An atomic group of events emitted by one chain at one height.
/// Immutable after construction.
#[derive(Debug)]
pub struct EventBatch {
    pub chain_id: ChainId,
    pub height: Height,
    pub events: Vec<IbcEvent>,
}

/// Spec-level image of [`EventBatch`].
pub struct EventBatchV {
    pub chain_id: Seq<char>,
    pub height: Height,
    pub events: Seq<IbcEventV>,
}

impl View for EventBatch {
    type V = EventBatchV;

    open spec fn view(&self) -> EventBatchV {
        EventBatchV {
            chain_id: self.chain_id@,
            height: self.height,
            events: seq_view(self.events@),
        }
    }
}

impl Clone for EventBatch {
    fn clone(&self) -> (r: Self)
        ensures
            r@ == self@,
    {
        let mut events: Vec<IbcEvent> = Vec::new();
        let mut i: usize = 0;
        while i < self.events.len()
            invariant
                i <= self.events.len(),
                events@.len() == i as int,
                forall|j: int| 0 <= j < i as int ==> events@[j] == self.events@[j],
            decreases self.events.len() - i,
        {
            events.push(self.events[i].clone());
            i = i + 1;
        }
        let r = EventBatch { chain_id: self.chain_id.clone(), height: self.height, events };
        proof {
            assert(seq_view(r.events@) =~= seq_view(self.events@));
        }
        r
    }
}

} // verus!
