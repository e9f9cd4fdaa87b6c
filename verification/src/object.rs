//! Objects: the canonical keys of cross-chain relationships.
//!
//! Each worker is responsible for exactly one [`Object`]. The constructors
//! in this module derive an Object from an event's attributes and the
//! handle of the chain that emitted the event; failure to resolve a
//! counterparty yields a [`ClassifyError`], which makes the classifier
//! drop that one event.

use vstd::prelude::*;
use vstd::string::StringExecFns;

use crate::events::{ChannelAttributes, ConnectionAttributes, PacketAttributes,
    UpdateClientAttributes, ChannelAttributesV, ConnectionAttributesV, PacketAttributesV,
    UpdateClientAttributesV};
use crate::handle::{channel_client_spec, ChainHandle, ChainHandleV};
use crate::ids::{ChainId, ChannelId, ClientId, ConnectionId, PortId};

verus! {

/// The kind of relationship an [`Object`] names.
#[derive(Clone, Copy, Debug, PartialEq, Eq, Structural)]
pub enum ObjectType {
    Client,
    Connection,
    Channel,
    Packet,
}

/// Why an event could not be mapped to an [`Object`].
#[derive(Clone, Copy, Debug, PartialEq, Eq, Structural)]
pub enum ClassifyError {
    /// The connection event carried no connection id.
    MissingConnectionId,
    /// The channel event carried no channel id.
    MissingChannelId,
    /// The source chain knows no client under the event's channel end.
    CounterpartyNotFound,
}

/// A cross-chain relationship: the key a worker is spawned and looked up
/// under. Two Objects that name the same relationship in opposite
/// directions are distinct values.
#[derive(Debug)]
pub enum Object {
    Client { dst_chain_id: ChainId, dst_client_id: ClientId, src_chain_id: ChainId },
    Connection { dst_chain_id: ChainId, src_chain_id: ChainId, src_connection_id: ConnectionId },
    Channel {
        dst_chain_id: ChainId,
        src_chain_id: ChainId,
        src_channel_id: ChannelId,
        src_port_id: PortId,
    },
    Packet {
        dst_chain_id: ChainId,
        src_chain_id: ChainId,
        src_channel_id: ChannelId,
        src_port_id: PortId,
    },
}

/// Spec-level image of [`Object`].
pub enum ObjectV {
    Client { dst_chain_id: Seq<char>, dst_client_id: Seq<char>, src_chain_id: Seq<char> },
    Connection { dst_chain_id: Seq<char>, src_chain_id: Seq<char>, src_connection_id: Seq<char> },
    Channel {
        dst_chain_id: Seq<char>,
        src_chain_id: Seq<char>,
        src_channel_id: Seq<char>,
        src_port_id: Seq<char>,
    },
    Packet {
        dst_chain_id: Seq<char>,
        src_chain_id: Seq<char>,
        src_channel_id: Seq<char>,
        src_port_id: Seq<char>,
    },
}

impl View for Object {
    type V = ObjectV;

    open spec fn view(&self) -> ObjectV {
        match self {
            Object::Client { dst_chain_id, dst_client_id, src_chain_id } => ObjectV::Client {
                dst_chain_id: dst_chain_id@,
                dst_client_id: dst_client_id@,
                src_chain_id: src_chain_id@,
            },
            Object::Connection { dst_chain_id, src_chain_id, src_connection_id } => {
                ObjectV::Connection {
                    dst_chain_id: dst_chain_id@,
                    src_chain_id: src_chain_id@,
                    src_connection_id: src_connection_id@,
                }
            },
            Object::Channel { dst_chain_id, src_chain_id, src_channel_id, src_port_id } => {
                ObjectV::Channel {
                    dst_chain_id: dst_chain_id@,
                    src_chain_id: src_chain_id@,
                    src_channel_id: src_channel_id@,
                    src_port_id: src_port_id@,
                }
            },
            Object::Packet { dst_chain_id, src_chain_id, src_channel_id, src_port_id } => {
                ObjectV::Packet {
                    dst_chain_id: dst_chain_id@,
                    src_chain_id: src_chain_id@,
                    src_channel_id: src_channel_id@,
                    src_port_id: src_port_id@,
                }
            },
        }
    }
}

impl Clone for Object {
    fn clone(&self) -> (r: Self)
        ensures
            r == *self,
    {
        match self {
            Object::Client { dst_chain_id, dst_client_id, src_chain_id } => Object::Client {
                dst_chain_id: dst_chain_id.clone(),
                dst_client_id: dst_client_id.clone(),
                src_chain_id: src_chain_id.clone(),
            },
            Object::Connection { dst_chain_id, src_chain_id, src_connection_id } => {
                Object::Connection {
                    dst_chain_id: dst_chain_id.clone(),
                    src_chain_id: src_chain_id.clone(),
                    src_connection_id: src_connection_id.clone(),
                }
            },
            Object::Channel { dst_chain_id, src_chain_id, src_channel_id, src_port_id } => {
                Object::Channel {
                    dst_chain_id: dst_chain_id.clone(),
                    src_chain_id: src_chain_id.clone(),
                    src_channel_id: src_channel_id.clone(),
                    src_port_id: src_port_id.clone(),
                }
            },
            Object::Packet { dst_chain_id, src_chain_id, src_channel_id, src_port_id } => {
                Object::Packet {
                    dst_chain_id: dst_chain_id.clone(),
                    src_chain_id: src_chain_id.clone(),
                    src_channel_id: src_channel_id.clone(),
                    src_port_id: src_port_id.clone(),
                }
            },
        }
    }
}

impl ObjectV {
    /// The kind of relationship.
    pub open spec fn object_type(self) -> ObjectType {
        match self {
            ObjectV::Client { .. } => ObjectType::Client,
            ObjectV::Connection { .. } => ObjectType::Connection,
            ObjectV::Channel { .. } => ObjectType::Channel,
            ObjectV::Packet { .. } => ObjectType::Packet,
        }
    }

    /// The chain the relationship's work is read from.
    pub open spec fn src_chain_id(self) -> Seq<char> {
        match self {
            ObjectV::Client { src_chain_id, .. } => src_chain_id,
            ObjectV::Connection { src_chain_id, .. } => src_chain_id,
            ObjectV::Channel { src_chain_id, .. } => src_chain_id,
            ObjectV::Packet { src_chain_id, .. } => src_chain_id,
        }
    }

    /// The chain the relationship's work is delivered to.
    pub open spec fn dst_chain_id(self) -> Seq<char> {
        match self {
            ObjectV::Client { dst_chain_id, .. } => dst_chain_id,
            ObjectV::Connection { dst_chain_id, .. } => dst_chain_id,
            ObjectV::Channel { dst_chain_id, .. } => dst_chain_id,
            ObjectV::Packet { dst_chain_id, .. } => dst_chain_id,
        }
    }

    /// The channel end a channel or packet Object relays on, if any.
    pub open spec fn channel_end(self) -> Option<(Seq<char>, Seq<char>)> {
        match self {
            ObjectV::Channel { src_port_id, src_channel_id, .. } => Some(
                (src_port_id, src_channel_id),
            ),
            ObjectV::Packet { src_port_id, src_channel_id, .. } => Some(
                (src_port_id, src_channel_id),
            ),
            _ => None,
        }
    }
}

impl Object {
    /// The kind of relationship.
    pub fn object_type(&self) -> (r: ObjectType)
        ensures
            r == self@.object_type(),
    {
        match self {
            Object::Client { .. } => ObjectType::Client,
            Object::Connection { .. } => ObjectType::Connection,
            Object::Channel { .. } => ObjectType::Channel,
            Object::Packet { .. } => ObjectType::Packet,
        }
    }

    /// The chain the relationship's work is read from.
    pub fn src_chain_id(&self) -> (r: &ChainId)
        ensures
            r@ == self@.src_chain_id(),
    {
        match self {
            Object::Client { src_chain_id, .. } => src_chain_id,
            Object::Connection { src_chain_id, .. } => src_chain_id,
            Object::Channel { src_chain_id, .. } => src_chain_id,
            Object::Packet { src_chain_id, .. } => src_chain_id,
        }
    }

    /// The chain the relationship's work is delivered to.
    pub fn dst_chain_id(&self) -> (r: &ChainId)
        ensures
            r@ == self@.dst_chain_id(),
    {
        match self {
            Object::Client { dst_chain_id, .. } => dst_chain_id,
            Object::Connection { dst_chain_id, .. } => dst_chain_id,
            Object::Channel { dst_chain_id, .. } => dst_chain_id,
            Object::Packet { dst_chain_id, .. } => dst_chain_id,
        }
    }

    /// The stable, human-readable, sortable label of this Object.
    pub fn short_name(&self) -> (r: String)
        ensures
            r@ == short_name_spec(self@),
    {
        match self {
            Object::Client { dst_chain_id, dst_client_id, src_chain_id } => {
                let mut s = String::from_str("client/");
                s.append(dst_chain_id.value.as_str());
                s.append("/");
                s.append(dst_client_id.value.as_str());
                s.append("/");
                s.append(src_chain_id.value.as_str());
                s
            },
            Object::Connection { dst_chain_id, src_chain_id, src_connection_id } => {
                let mut s = String::from_str("connection/");
                s.append(dst_chain_id.value.as_str());
                s.append("/");
                s.append(src_chain_id.value.as_str());
                s.append("/");
                s.append(src_connection_id.value.as_str());
                s
            },
            Object::Channel { dst_chain_id, src_chain_id, src_channel_id, src_port_id } => {
                let mut s = String::from_str("channel/");
                s.append(dst_chain_id.value.as_str());
                s.append("/");
                s.append(src_chain_id.value.as_str());
                s.append("/");
                s.append(src_port_id.value.as_str());
                s.append("/");
                s.append(src_channel_id.value.as_str());
                s
            },
            Object::Packet { dst_chain_id, src_chain_id, src_channel_id, src_port_id } => {
                let mut s = String::from_str("packet/");
                s.append(dst_chain_id.value.as_str());
                s.append("/");
                s.append(src_chain_id.value.as_str());
                s.append("/");
                s.append(src_port_id.value.as_str());
                s.append("/");
                s.append(src_channel_id.value.as_str());
                s
            },
        }
    }

    /// Whether the two Objects name the same relationship.
    pub fn same(&self, other: &Object) -> (r: bool)
        ensures
            r == (self@ == other@),
    {
        match (self, other) {
            (
                Object::Client { dst_chain_id: d1, dst_client_id: c1, src_chain_id: s1 },
                Object::Client { dst_chain_id: d2, dst_client_id: c2, src_chain_id: s2 },
            ) => d1.same(d2) && c1.same(c2) && s1.same(s2),
            (
                Object::Connection { dst_chain_id: d1, src_chain_id: s1, src_connection_id: n1 },
                Object::Connection { dst_chain_id: d2, src_chain_id: s2, src_connection_id: n2 },
            ) => d1.same(d2) && s1.same(s2) && n1.same(n2),
            (
                Object::Channel {
                    dst_chain_id: d1,
                    src_chain_id: s1,
                    src_channel_id: c1,
                    src_port_id: p1,
                },
                Object::Channel {
                    dst_chain_id: d2,
                    src_chain_id: s2,
                    src_channel_id: c2,
                    src_port_id: p2,
                },
            ) => d1.same(d2) && s1.same(s2) && c1.same(c2) && p1.same(p2),
            (
                Object::Packet {
                    dst_chain_id: d1,
                    src_chain_id: s1,
                    src_channel_id: c1,
                    src_port_id: p1,
                },
                Object::Packet {
                    dst_chain_id: d2,
                    src_chain_id: s2,
                    src_channel_id: c2,
                    src_port_id: p2,
                },
            ) => d1.same(d2) && s1.same(s2) && c1.same(c2) && p1.same(p2),
            _ => false,
        }
    }
}

/// The stable, human-readable, sortable label of an Object: its kind
/// and its fields, joined by slashes.
pub open spec fn short_name_spec(o: ObjectV) -> Seq<char> {
    match o {
        ObjectV::Client { dst_chain_id, dst_client_id, src_chain_id } => "client/"@ + dst_chain_id
            + "/"@ + dst_client_id + "/"@ + src_chain_id,
        ObjectV::Connection { dst_chain_id, src_chain_id, src_connection_id } => "connection/"@
            + dst_chain_id + "/"@ + src_chain_id + "/"@ + src_connection_id,
        ObjectV::Channel { dst_chain_id, src_chain_id, src_channel_id, src_port_id } => "channel/"@
            + dst_chain_id + "/"@ + src_chain_id + "/"@ + src_port_id + "/"@ + src_channel_id,
        ObjectV::Packet { dst_chain_id, src_chain_id, src_channel_id, src_port_id } => "packet/"@
            + dst_chain_id + "/"@ + src_chain_id + "/"@ + src_port_id + "/"@ + src_channel_id,
    }
}

/// Object derived from a client-update event: the updated client and its
/// host chain come from the event, the source chain is the emitter.
pub open spec fn update_client_object_spec(
    u: UpdateClientAttributesV,
    src: ChainHandleV,
) -> ObjectV {
    ObjectV::Client {
        dst_chain_id: u.dst_chain_id,
        dst_client_id: u.dst_client_id,
        src_chain_id: src.id,
    }
}

/// Object derived from a connection-handshake event: the destination is
/// the counterparty named by the attributes. `None` when the attributes
/// carry no connection id.
pub open spec fn connection_object_spec(
    a: ConnectionAttributesV,
    src: ChainHandleV,
) -> Option<ObjectV> {
    match a.connection_id {
        Some(conn) => Some(
            ObjectV::Connection {
                dst_chain_id: a.counterparty_chain_id,
                src_chain_id: src.id,
                src_connection_id: conn,
            },
        ),
        None => None,
    }
}

/// Object for the remaining handshake steps of a channel. `None` when the
/// attributes carry no channel id or the source chain cannot resolve the
/// channel's client.
pub open spec fn channel_object_spec(a: ChannelAttributesV, src: ChainHandleV) -> Option<
    ObjectV,
> {
    match a.channel_id {
        Some(chan) => match channel_client_spec(src.channel_clients, a.port_id, chan) {
            Some(e) => Some(
                ObjectV::Channel {
                    dst_chain_id: e.counterparty_chain_id,
                    src_chain_id: src.id,
                    src_channel_id: chan,
                    src_port_id: a.port_id,
                },
            ),
            None => None,
        },
        None => None,
    }
}

/// Object for the client underlying a channel, resolved on the emitting
/// chain. `None` under the same conditions as [`channel_object_spec`].
pub open spec fn client_object_spec(a: ChannelAttributesV, src: ChainHandleV) -> Option<ObjectV> {
    match a.channel_id {
        Some(chan) => match channel_client_spec(src.channel_clients, a.port_id, chan) {
            Some(e) => Some(
                ObjectV::Client {
                    dst_chain_id: src.id,
                    dst_client_id: e.client_id,
                    src_chain_id: e.counterparty_chain_id,
                },
            ),
            None => None,
        },
        None => None,
    }
}

/// Packet-flow Object for a channel named by channel attributes. `None`
/// under the same conditions as [`channel_object_spec`].
pub open spec fn packet_object_spec(a: ChannelAttributesV, src: ChainHandleV) -> Option<ObjectV> {
    match a.channel_id {
        Some(chan) => match channel_client_spec(src.channel_clients, a.port_id, chan) {
            Some(e) => Some(
                ObjectV::Packet {
                    dst_chain_id: e.counterparty_chain_id,
                    src_chain_id: src.id,
                    src_channel_id: chan,
                    src_port_id: a.port_id,
                },
            ),
            None => None,
        },
        None => None,
    }
}

/// Packet-flow Object for a packet event read at its source end.
pub open spec fn send_packet_object_spec(p: PacketAttributesV, src: ChainHandleV) -> Option<
    ObjectV,
> {
    match channel_client_spec(src.channel_clients, p.source_port, p.source_channel) {
        Some(e) => Some(
            ObjectV::Packet {
                dst_chain_id: e.counterparty_chain_id,
                src_chain_id: src.id,
                src_channel_id: p.source_channel,
                src_port_id: p.source_port,
            },
        ),
        None => None,
    }
}

/// Packet-flow Object for an acknowledgement, read at the packet's
/// destination end: the acknowledgement flows back.
pub open spec fn ack_packet_object_spec(p: PacketAttributesV, src: ChainHandleV) -> Option<
    ObjectV,
> {
    match channel_client_spec(src.channel_clients, p.destination_port, p.destination_channel) {
        Some(e) => Some(
            ObjectV::Packet {
                dst_chain_id: e.counterparty_chain_id,
                src_chain_id: src.id,
                src_channel_id: p.destination_channel,
                src_port_id: p.destination_port,
            },
        ),
        None => None,
    }
}

impl Object {
    /// Object for a client-update event; cannot fail, every field is at
    /// hand.
    pub fn for_update_client(update: &UpdateClientAttributes, src: &ChainHandle) -> (r: Result<
        Object,
        ClassifyError,
    >)
        ensures
            r matches Ok(o) && o@ == update_client_object_spec(update@, src@),
    {
        Ok(
            Object::Client {
                dst_chain_id: update.dst_chain_id.clone(),
                dst_client_id: update.dst_client_id.clone(),
                src_chain_id: src.id.clone(),
            },
        )
    }

    /// Object for a connection-handshake event.
    pub fn connection_from_conn_open_events(attrs: &ConnectionAttributes, src: &ChainHandle) -> (r:
        Result<Object, ClassifyError>)
        ensures
            match r {
                Ok(o) => connection_object_spec(attrs@, src@) == Some(o@),
                Err(e) => connection_object_spec(attrs@, src@) is None && e
                    == ClassifyError::MissingConnectionId,
            },
    {
        match &attrs.connection_id {
            Some(conn) => Ok(
                Object::Connection {
                    dst_chain_id: attrs.counterparty_chain_id.clone(),
                    src_chain_id: src.id.clone(),
                    src_connection_id: conn.clone(),
                },
            ),
            None => Err(ClassifyError::MissingConnectionId),
        }
    }

    /// Object for the remaining handshake steps of a channel.
    pub fn channel_from_chan_open_events(attrs: &ChannelAttributes, src: &ChainHandle) -> (r:
        Result<Object, ClassifyError>)
        ensures
            match r {
                Ok(o) => channel_object_spec(attrs@, src@) == Some(o@),
                Err(e) => channel_object_spec(attrs@, src@) is None && e == (
                if attrs@.channel_id is None {
                    ClassifyError::MissingChannelId
                } else {
                    ClassifyError::CounterpartyNotFound
                }),
            },
    {
        match &attrs.channel_id {
            Some(chan) => match src.channel_client(&attrs.port_id, chan) {
                Some(e) => Ok(
                    Object::Channel {
                        dst_chain_id: e.counterparty_chain_id,
                        src_chain_id: src.id.clone(),
                        src_channel_id: chan.clone(),
                        src_port_id: attrs.port_id.clone(),
                    },
                ),
                None => Err(ClassifyError::CounterpartyNotFound),
            },
            None => Err(ClassifyError::MissingChannelId),
        }
    }

    /// Object for the client underlying a channel.
    pub fn client_from_chan_open_events(attrs: &ChannelAttributes, src: &ChainHandle) -> (r:
        Result<Object, ClassifyError>)
        ensures
            match r {
                Ok(o) => client_object_spec(attrs@, src@) == Some(o@),
                Err(e) => client_object_spec(attrs@, src@) is None && e == (
                if attrs@.channel_id is None {
                    ClassifyError::MissingChannelId
                } else {
                    ClassifyError::CounterpartyNotFound
                }),
            },
    {
        match &attrs.channel_id {
            Some(chan) => match src.channel_client(&attrs.port_id, chan) {
                Some(e) => Ok(
                    Object::Client {
                        dst_chain_id: src.id.clone(),
                        dst_client_id: e.client_id,
                        src_chain_id: e.counterparty_chain_id,
                    },
                ),
                None => Err(ClassifyError::CounterpartyNotFound),
            },
            None => Err(ClassifyError::MissingChannelId),
        }
    }

    /// Packet-flow Object for a channel named by channel attributes.
    pub fn packet_from_chan_open_events(attrs: &ChannelAttributes, src: &ChainHandle) -> (r:
        Result<Object, ClassifyError>)
        ensures
            match r {
                Ok(o) => packet_object_spec(attrs@, src@) == Some(o@),
                Err(e) => packet_object_spec(attrs@, src@) is None && e == (
                if attrs@.channel_id is None {
                    ClassifyError::MissingChannelId
                } else {
                    ClassifyError::CounterpartyNotFound
                }),
            },
    {
        match &attrs.channel_id {
            Some(chan) => match src.channel_client(&attrs.port_id, chan) {
                Some(e) => Ok(
                    Object::Packet {
                        dst_chain_id: e.counterparty_chain_id,
                        src_chain_id: src.id.clone(),
                        src_channel_id: chan.clone(),
                        src_port_id: attrs.port_id.clone(),
                    },
                ),
                None => Err(ClassifyError::CounterpartyNotFound),
            },
            None => Err(ClassifyError::MissingChannelId),
        }
    }

    /// Packet-flow Object for a sent packet.
    pub fn for_send_packet(packet: &PacketAttributes, src: &ChainHandle) -> (r: Result<
        Object,
        ClassifyError,
    >)
        ensures
            match r {
                Ok(o) => send_packet_object_spec(packet@, src@) == Some(o@),
                Err(e) => send_packet_object_spec(packet@, src@) is None && e
                    == ClassifyError::CounterpartyNotFound,
            },
    {
        match src.channel_client(&packet.source_port, &packet.source_channel) {
            Some(e) => Ok(
                Object::Packet {
                    dst_chain_id: e.counterparty_chain_id,
                    src_chain_id: src.id.clone(),
                    src_channel_id: packet.source_channel.clone(),
                    src_port_id: packet.source_port.clone(),
                },
            ),
            None => Err(ClassifyError::CounterpartyNotFound),
        }
    }

    /// Packet-flow Object for a timed-out packet; read at the source end,
    /// like a send.
    pub fn for_timeout_packet(packet: &PacketAttributes, src: &ChainHandle) -> (r: Result<
        Object,
        ClassifyError,
    >)
        ensures
            match r {
                Ok(o) => send_packet_object_spec(packet@, src@) == Some(o@),
                Err(e) => send_packet_object_spec(packet@, src@) is None && e
                    == ClassifyError::CounterpartyNotFound,
            },
    {
        match src.channel_client(&packet.source_port, &packet.source_channel) {
            Some(e) => Ok(
                Object::Packet {
                    dst_chain_id: e.counterparty_chain_id,
                    src_chain_id: src.id.clone(),
                    src_channel_id: packet.source_channel.clone(),
                    src_port_id: packet.source_port.clone(),
                },
            ),
            None => Err(ClassifyError::CounterpartyNotFound),
        }
    }

    /// Packet-flow Object for a written acknowledgement; the ack flows
    /// back, so it is read at the packet's destination end.
    pub fn for_write_ack(packet: &PacketAttributes, src: &ChainHandle) -> (r: Result<
        Object,
        ClassifyError,
    >)
        ensures
            match r {
                Ok(o) => ack_packet_object_spec(packet@, src@) == Some(o@),
                Err(e) => ack_packet_object_spec(packet@, src@) is None && e
                    == ClassifyError::CounterpartyNotFound,
            },
    {
        match src.channel_client(&packet.destination_port, &packet.destination_channel) {
            Some(e) => Ok(
                Object::Packet {
                    dst_chain_id: e.counterparty_chain_id,
                    src_chain_id: src.id.clone(),
                    src_channel_id: packet.destination_channel.clone(),
                    src_port_id: packet.destination_port.clone(),
                },
            ),
            None => Err(ClassifyError::CounterpartyNotFound),
        }
    }

    /// Packet-flow Object for a channel being closed.
    pub fn for_close_init_channel(attrs: &ChannelAttributes, src: &ChainHandle) -> (r: Result<
        Object,
        ClassifyError,
    >)
        ensures
            match r {
                Ok(o) => packet_object_spec(attrs@, src@) == Some(o@),
                Err(e) => packet_object_spec(attrs@, src@) is None && e == (
                if attrs@.channel_id is None {
                    ClassifyError::MissingChannelId
                } else {
                    ClassifyError::CounterpartyNotFound
                }),
            },
    {
        Object::packet_from_chan_open_events(attrs, src)
    }
}

} // verus!
