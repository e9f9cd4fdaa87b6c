//! Identifier value types shared by the whole crate.
//!
//! Identifiers are opaque small strings; in contracts they are viewed as
//! `Seq<char>`, and two identifiers name the same thing exactly when their
//! views are equal.

use vstd::prelude::*;

verus! {

/// Globally unique identifier of a chain.
#[derive(Debug)]
pub struct ChainId {
    pub value: String,
}

impl View for ChainId {
    type V = Seq<char>;

    open spec fn view(&self) -> Seq<char> {
        self.value@
    }
}

impl Clone for ChainId {
    fn clone(&self) -> (r: Self)
        ensures
            r == *self,
    {
        ChainId { value: self.value.clone() }
    }
}

impl ChainId {
    pub fn new(value: String) -> (r: Self)
        ensures
            r@ == value@,
    {
        ChainId { value }
    }

    /// Whether the two identifiers name the same chain.
    pub fn same(&self, other: &ChainId) -> (r: bool)
        ensures
            r == (self@ == other@),
    {
        self.value == other.value
    }
}

/// Identifier of a light client hosted on some chain.
#[derive(Debug)]
pub struct ClientId {
    pub value: String,
}

impl View for ClientId {
    type V = Seq<char>;

    open spec fn view(&self) -> Seq<char> {
        self.value@
    }
}

impl Clone for ClientId {
    fn clone(&self) -> (r: Self)
        ensures
            r == *self,
    {
        ClientId { value: self.value.clone() }
    }
}

impl ClientId {
    pub fn new(value: String) -> (r: Self)
        ensures
            r@ == value@,
    {
        ClientId { value }
    }

    pub fn same(&self, other: &ClientId) -> (r: bool)
        ensures
            r == (self@ == other@),
    {
        self.value == other.value
    }
}

/// Identifier of a connection end on some chain.
#[derive(Debug)]
pub struct ConnectionId {
    pub value: String,
}

impl View for ConnectionId {
    type V = Seq<char>;

    open spec fn view(&self) -> Seq<char> {
        self.value@
    }
}

impl Clone for ConnectionId {
    fn clone(&self) -> (r: Self)
        ensures
            r == *self,
    {
        ConnectionId { value: self.value.clone() }
    }
}

impl ConnectionId {
    pub fn new(value: String) -> (r: Self)
        ensures
            r@ == value@,
    {
        ConnectionId { value }
    }

    pub fn same(&self, other: &ConnectionId) -> (r: bool)
        ensures
            r == (self@ == other@),
    {
        self.value == other.value
    }
}

/// Identifier of a channel end on some chain.
#[derive(Debug)]
pub struct ChannelId {
    pub value: String,
}

impl View for ChannelId {
    type V = Seq<char>;

    open spec fn view(&self) -> Seq<char> {
        self.value@
    }
}

impl Clone for ChannelId {
    fn clone(&self) -> (r: Self)
        ensures
            r == *self,
    {
        ChannelId { value: self.value.clone() }
    }
}

impl ChannelId {
    pub fn new(value: String) -> (r: Self)
        ensures
            r@ == value@,
    {
        ChannelId { value }
    }

    pub fn same(&self, other: &ChannelId) -> (r: bool)
        ensures
            r == (self@ == other@),
    {
        self.value == other.value
    }
}

/// Identifier of a port on some chain.
#[derive(Debug)]
pub struct PortId {
    pub value: String,
}

impl View for PortId {
    type V = Seq<char>;

    open spec fn view(&self) -> Seq<char> {
        self.value@
    }
}

impl Clone for PortId {
    fn clone(&self) -> (r: Self)
        ensures
            r == *self,
    {
        PortId { value: self.value.clone() }
    }
}

impl PortId {
    pub fn new(value: String) -> (r: Self)
        ensures
            r@ == value@,
    {
        PortId { value }
    }

    pub fn same(&self, other: &PortId) -> (r: bool)
        ensures
            r == (self@ == other@),
    {
        self.value == other.value
    }
}

/// Sequence number of a packet within a channel.
pub type Sequence = u64;

/// Height of a block: an ordered pair of revision and block height,
/// ordered lexicographically with the revision major.
#[derive(Clone, Copy, Debug, PartialEq, Eq, Structural)]
pub struct Height {
    pub revision: u64,
    pub height: u64,
}

impl Height {
    pub open spec fn lt_spec(self, other: Height) -> bool {
        self.revision < other.revision
            || (self.revision == other.revision && self.height < other.height)
    }

    pub fn new(revision: u64, height: u64) -> (r: Height)
        ensures
            r.revision == revision,
            r.height == height,
    {
        Height { revision, height }
    }

    /// Strict ordering on heights: lexicographic, revision major.
    pub fn lt(&self, other: &Height) -> (r: bool)
        ensures
            r == self.lt_spec(*other),
    {
        self.revision < other.revision
            || (self.revision == other.revision && self.height < other.height)
    }
}

/// View of a sequence of viewable values, element by element.
pub open spec fn seq_view<T: View>(s: Seq<T>) -> Seq<T::V> {
    Seq::new(s.len(), |i: int| s[i]@)
}

} // verus!
