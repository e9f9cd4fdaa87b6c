//! A direct chain-to-chain link: a sketch kept beside the supervisor.
//!
//! The link pumps pending datagram batches from a source chain to a
//! destination chain, checking each batch against a header of the
//! source. Chains are modelled as plain values: what has been submitted
//! to a chain is a list of datagrams, and the embedding feeds the
//! subscription in as a list of batches.

use vstd::prelude::*;

use crate::ids::seq_view;

verus! {

/// A datagram carried across the link.
#[derive(Clone, Copy, Debug, PartialEq, Eq, Structural)]
pub enum Datagram {
    NoOp,
}

/// A header of the source chain, signed by its validators; here only
/// its height is read.
#[derive(Clone, Copy, Debug, PartialEq, Eq, Structural)]
pub struct SignedHeader {
    pub height: u64,
}

/// One side of the link, as plain data: its id and what has been
/// submitted to it so far.
#[derive(Debug)]
pub struct Chain {
    pub chain_id: u64,
    pub submitted: Vec<Datagram>,
}

impl Chain {
    pub fn new(chain_id: u64) -> (r: Chain)
        ensures
            r.chain_id == chain_id,
            r.submitted@ == Seq::<Datagram>::empty(),
    {
        Chain { chain_id, submitted: Vec::new() }
    }

    /// A header of this chain at the given height.
    pub fn get_header(&self, target_height: u64) -> (r: SignedHeader)
        ensures
            r.height == target_height,
    {
        SignedHeader { height: target_height }
    }

    /// Deliver a batch of datagrams to this chain.
    pub fn submit(&mut self, datagrams: Vec<Datagram>)
        ensures
            final(self).chain_id == old(self).chain_id,
            final(self).submitted@ == old(self).submitted@ + datagrams@,
    {
        let mut incoming = datagrams;
        self.submitted.append(&mut incoming);
    }
}

/// The error of a link operation. The sketch does not distinguish
/// causes yet.
#[derive(Clone, Copy, Debug, PartialEq, Eq, Structural)]
pub struct LinkError {}

/// Which ordering discipline the link's channel runs under.
#[derive(Clone, Copy, Debug, PartialEq, Eq, Structural)]
pub enum Order {
    Ordered,
    Unordered,
}

/// One side's identifiers.
#[derive(Debug)]
pub struct ConfigSide {
    pub chain_id: u64,
    pub client_id: String,
    pub channel_id: String,
    pub port_id: String,
}

/// Configuration of a link: the two sides and the channel ordering.
#[derive(Debug)]
pub struct LinkConfig {
    pub src_config: ConfigSide,
    pub dst_config: ConfigSide,
    pub order: Order,
}

impl LinkConfig {
    /// An empty, unordered configuration.
    pub fn default() -> (r: LinkConfig)
        ensures
            r.src_config.chain_id == 0,
            r.src_config.client_id@ == Seq::<char>::empty(),
            r.src_config.channel_id@ == Seq::<char>::empty(),
            r.src_config.port_id@ == Seq::<char>::empty(),
            r.dst_config.chain_id == 0,
            r.dst_config.client_id@ == Seq::<char>::empty(),
            r.dst_config.channel_id@ == Seq::<char>::empty(),
            r.dst_config.port_id@ == Seq::<char>::empty(),
            r.order == Order::Unordered,
    {
        LinkConfig {
            src_config: ConfigSide {
                port_id: String::new(),
                channel_id: String::new(),
                chain_id: 0,
                client_id: String::new(),
            },
            dst_config: ConfigSide {
                port_id: String::new(),
                channel_id: String::new(),
                chain_id: 0,
                client_id: String::new(),
            },
            order: Order::Unordered,
        }
    }
}

/// The client the link keeps updated on the destination chain; the
/// sketch holds no state for it yet.
#[derive(Debug)]
pub struct ForeignClient {}

/// A link between two chains.
#[derive(Debug)]
pub struct Link {
    pub foreign_client: ForeignClient,
    pub src_chain: Chain,
    pub dst_chain: Chain,
}

impl Link {
    /// Build a link over the two chains.
    pub fn new(src: Chain, dst: Chain, config: LinkConfig) -> (r: Result<Link, LinkError>)
        ensures
            r matches Ok(l) && l.src_chain.chain_id == src.chain_id
                && l.src_chain.submitted@ == src.submitted@ && l.dst_chain.chain_id
                == dst.chain_id && l.dst_chain.submitted@ == dst.submitted@,
    {
        let foreign_client = ForeignClient {  };
        Ok(Link { foreign_client, src_chain: src, dst_chain: dst })
    }

    /// What the source chain has pending for the counterparty; the
    /// sketch reports a single no-op.
    pub fn pending_datagrams(&self) -> (r: Vec<Datagram>)
        ensures
            r@ == seq![Datagram::NoOp],
    {
        let r = vec![Datagram::NoOp];
        proof {
            assert(r@ =~= seq![Datagram::NoOp]);
        }
        r
    }

    /// Pump the subscription: check each batch against a source header
    /// and submit it to the destination chain, in order. Returns the
    /// destination chain, which has received every datagram of every
    /// batch, in order.
    pub fn run(self, subscription: Vec<Vec<Datagram>>) -> (r: Chain)
        ensures
            r.chain_id == self.dst_chain.chain_id,
            r.submitted@ == self.dst_chain.submitted@ + seq_view(subscription@).flatten(),
    {
        let ghost subv = seq_view(subscription@);
        let Link { foreign_client: _, src_chain, mut dst_chain } = self;
        let ghost base = dst_chain.submitted@;
        let mut rest = subscription;
        let mut i: usize = 0;
        proof {
            assert(subv.take(0) =~= Seq::<Seq<Datagram>>::empty());
            assert(Seq::<Seq<Datagram>>::empty().flatten() =~= Seq::<Datagram>::empty());
            assert(base + subv.take(0).flatten() =~= base);
        }
        while i < rest.len()
            invariant
                i <= rest.len(),
                seq_view(rest@) == subv,
                subv.len() == rest@.len(),
                src_chain.chain_id == self.src_chain.chain_id,
                dst_chain.chain_id == self.dst_chain.chain_id,
                dst_chain.submitted@ == base + subv.take(i as int).flatten(),
                base == self.dst_chain.submitted@,
            decreases rest.len() - i,
        {
            let ghost prefix = subv.take(i as int + 1);
            let datagrams = clone_batch(&rest[i]);
            let target_height: u64 = 1;
            let header = src_chain.get_header(target_height);
            verify_proof(&datagrams, &header);
            dst_chain.submit(datagrams);
            proof {
                assert(prefix.drop_last() =~= subv.take(i as int));
                assert(prefix =~= subv.take(i as int).push(subv[i as int]));
                subv.take(i as int).lemma_flatten_push(subv[i as int]);
                assert(prefix.flatten() == subv.take(i as int).flatten() + subv[i as int]);
                assert(dst_chain.submitted@ =~= base + prefix.flatten());
            }
            i = i + 1;
        }
        proof {
            assert(subv.take(i as int) =~= subv);
        }
        dst_chain
    }
}

/// Check a batch of datagrams against a signed header of the source
/// chain; the sketch accepts everything.
pub fn verify_proof(_datagrams: &Vec<Datagram>, _header: &SignedHeader) {
}

/// Copy of a batch, element for element.
fn clone_batch(v: &Vec<Datagram>) -> (r: Vec<Datagram>)
    ensures
        r@ == v@,
{
    let mut r: Vec<Datagram> = Vec::new();
    let mut i: usize = 0;
    proof {
        assert(r@ =~= v@.take(0));
    }
    while i < v.len()
        invariant
            i <= v@.len(),
            r@ == v@.take(i as int),
        decreases v@.len() - i,
    {
        let ghost prefix = v@.take(i as int + 1);
        r.push(v[i]);
        proof {
            assert(prefix.drop_last() =~= v@.take(i as int));
            assert(r@ =~= prefix);
        }
        i = i + 1;
    }
    proof {
        assert(v@.take(i as int) =~= v@);
    }
    r
}

} // verus!
