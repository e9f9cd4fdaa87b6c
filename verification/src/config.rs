//! Process-wide configuration: the list of chains to relay between, and
//! the two global flags the classifier and the filter consult.

use vstd::prelude::*;

use crate::ids::{seq_view, ChainId, ChannelId, PortId};

verus! {

/// One `(port, channel)` pair of a chain's allow-list.
#[derive(Debug)]
pub struct ChannelFilterEntry {
    pub port_id: PortId,
    pub channel_id: ChannelId,
}

/// Spec-level image of [`ChannelFilterEntry`].
pub struct ChannelFilterEntryV {
    pub port_id: Seq<char>,
    pub channel_id: Seq<char>,
}

impl View for ChannelFilterEntry {
    type V = ChannelFilterEntryV;

    open spec fn view(&self) -> ChannelFilterEntryV {
        ChannelFilterEntryV { port_id: self.port_id@, channel_id: self.channel_id@ }
    }
}

impl Clone for ChannelFilterEntry {
    fn clone(&self) -> (r: Self)
        ensures
            r == *self,
    {
        ChannelFilterEntry {
            port_id: self.port_id.clone(),
            channel_id: self.channel_id.clone(),
        }
    }
}

/// Per-chain configuration.
#[derive(Debug)]
pub struct ChainConfig {
    pub id: ChainId,
    /// Endpoint of the chain's RPC interface; only carried, never read here.
    pub rpc_endpoint: String,
    /// Endpoint of the chain's GRPC interface; only carried, never read here.
    pub grpc_endpoint: String,
    /// Name of the key the embedding signs messages with; only carried.
    pub key_name: String,
    /// Allow-list of channel ends packet work is admitted on when the
    /// global `filter` flag is set.
    pub channel_filters: Vec<ChannelFilterEntry>,
}

/// Spec-level image of [`ChainConfig`].
pub struct ChainConfigV {
    pub id: Seq<char>,
    pub rpc_endpoint: Seq<char>,
    pub grpc_endpoint: Seq<char>,
    pub key_name: Seq<char>,
    pub channel_filters: Seq<ChannelFilterEntryV>,
}

impl View for ChainConfig {
    type V = ChainConfigV;

    open spec fn view(&self) -> ChainConfigV {
        ChainConfigV {
            id: self.id@,
            rpc_endpoint: self.rpc_endpoint@,
            grpc_endpoint: self.grpc_endpoint@,
            key_name: self.key_name@,
            channel_filters: seq_view(self.channel_filters@),
        }
    }
}

impl Clone for ChainConfig {
    fn clone(&self) -> (r: Self)
        ensures
            r@ == self@,
    {
        let mut channel_filters: Vec<ChannelFilterEntry> = Vec::new();
        let mut i: usize = 0;
        while i < self.channel_filters.len()
            invariant
                i <= self.channel_filters.len(),
                channel_filters@.len() == i as int,
                forall|j: int| 0 <= j < i as int ==> channel_filters@[j] == self.channel_filters@[j],
            decreases self.channel_filters.len() - i,
        {
            channel_filters.push(self.channel_filters[i].clone());
            i = i + 1;
        }
        let r = ChainConfig {
            id: self.id.clone(),
            rpc_endpoint: self.rpc_endpoint.clone(),
            grpc_endpoint: self.grpc_endpoint.clone(),
            key_name: self.key_name.clone(),
            channel_filters,
        };
        proof {
            assert(seq_view(r.channel_filters@) =~= seq_view(self.channel_filters@));
        }
        r
    }
}

impl ChainConfigV {
    /// Whether the chain's allow-list holds the pair `(port, channel)`.
    pub open spec fn filter_contains(self, port: Seq<char>, channel: Seq<char>) -> bool {
        exists|i: int|
            0 <= i < self.channel_filters.len() && self.channel_filters[i].port_id == port
                && self.channel_filters[i].channel_id == channel
    }
}

impl ChainConfig {
    /// Whether the chain's allow-list holds the pair `(port, channel)`.
    pub fn filter_contains(&self, port: &PortId, channel: &ChannelId) -> (r: bool)
        ensures
            r == self@.filter_contains(port@, channel@),
    {
        let mut i: usize = 0;
        while i < self.channel_filters.len()
            invariant
                i <= self.channel_filters.len(),
                forall|j: int|
                    0 <= j < i as int ==> !(self@.channel_filters[j].port_id == port@
                        && self@.channel_filters[j].channel_id == channel@),
            decreases self.channel_filters.len() - i,
        {
            let e = &self.channel_filters[i];
            if e.port_id.same(port) && e.channel_id.same(channel) {
                proof {
                    assert(self@.channel_filters[i as int].port_id == port@);
                }
                return true;
            }
            i = i + 1;
        }
        false
    }
}

/// The first chain configuration with the given id, if any.
pub open spec fn find_chain_spec(chains: Seq<ChainConfigV>, id: Seq<char>) -> Option<ChainConfigV>
    decreases chains.len(),
{
    if chains.len() == 0 {
        None
    } else if chains[0].id == id {
        Some(chains[0])
    } else {
        find_chain_spec(chains.drop_first(), id)
    }
}

/// The chain list with every entry of the given id removed.
pub open spec fn remove_chain_spec(chains: Seq<ChainConfigV>, id: Seq<char>) -> Seq<ChainConfigV>
    decreases chains.len(),
{
    if chains.len() == 0 {
        Seq::empty()
    } else if chains.last().id == id {
        remove_chain_spec(chains.drop_last(), id)
    } else {
        remove_chain_spec(chains.drop_last(), id).push(chains.last())
    }
}

/// After removal nothing carries the removed id, and every other entry
/// survives in order.
pub proof fn lemma_remove_chain_spec(chains: Seq<ChainConfigV>, id: Seq<char>)
    ensures
        forall|i: int|
            0 <= i < remove_chain_spec(chains, id).len() ==> remove_chain_spec(chains, id)[i].id
                != id,
        forall|i: int|
            0 <= i < chains.len() && chains[i].id != id ==> remove_chain_spec(
                chains,
                id,
            ).contains(chains[i]),
        remove_chain_spec(chains, id).len() <= chains.len(),
    decreases chains.len(),
{
    if chains.len() > 0 {
        lemma_remove_chain_spec(chains.drop_last(), id);
        assert forall|i: int| 0 <= i < chains.len() && chains[i].id != id implies remove_chain_spec(
            chains,
            id,
        ).contains(chains[i]) by {
            if i < chains.len() - 1 {
                assert(chains.drop_last()[i] == chains[i]);
                let r = remove_chain_spec(chains.drop_last(), id);
                let k = choose|k: int| 0 <= k < r.len() && r[k] == chains[i];
                assert(remove_chain_spec(chains, id)[k] == chains[i]);
            } else {
                let r = remove_chain_spec(chains, id);
                assert(r.last() == chains[i]);
            }
        }
    }
}

/// Removing an id that no entry carries changes nothing.
pub proof fn lemma_remove_chain_absent(chains: Seq<ChainConfigV>, id: Seq<char>)
    requires
        forall|i: int| 0 <= i < chains.len() ==> chains[i].id != id,
    ensures
        remove_chain_spec(chains, id) == chains,
    decreases chains.len(),
{
    if chains.len() > 0 {
        assert forall|i: int| 0 <= i < chains.drop_last().len() implies chains.drop_last()[i].id
            != id by {
            assert(chains.drop_last()[i] == chains[i]);
        }
        lemma_remove_chain_absent(chains.drop_last(), id);
        assert(remove_chain_spec(chains, id) =~= chains);
    } else {
        assert(remove_chain_spec(chains, id) =~= chains);
    }
}

/// A removal keeps exactly the entries of other ids, as elements.
pub proof fn lemma_remove_chain_elements(chains: Seq<ChainConfigV>, id: Seq<char>)
    ensures
        forall|c: ChainConfigV| #[trigger]
            remove_chain_spec(chains, id).contains(c) <==> (chains.contains(c) && c.id != id),
        remove_chain_spec(chains, id).len() <= chains.len(),
    decreases chains.len(),
{
    broadcast use vstd::seq_lib::group_seq_properties;

    let r = remove_chain_spec(chains, id);
    if chains.len() == 0 {
        assert(chains =~= Seq::<ChainConfigV>::empty());
        assert(r =~= Seq::<ChainConfigV>::empty());
    } else {
        lemma_remove_chain_elements(chains.drop_last(), id);
        let r0 = remove_chain_spec(chains.drop_last(), id);
        assert(chains =~= chains.drop_last().push(chains.last()));
        if chains.last().id == id {
            assert(r == r0);
        } else {
            assert(r == r0.push(chains.last()));
        }
    }
}

/// Removal keeps id uniqueness.
pub proof fn lemma_remove_chain_preserves_wf(chains: Seq<ChainConfigV>, id: Seq<char>)
    requires
        forall|i: int, j: int| 0 <= i < j < chains.len() ==> chains[i].id != chains[j].id,
    ensures
        forall|i: int, j: int|
            0 <= i < j < remove_chain_spec(chains, id).len() ==> remove_chain_spec(chains, id)[i].id
                != remove_chain_spec(chains, id)[j].id,
    decreases chains.len(),
{
    broadcast use vstd::seq_lib::group_seq_properties;

    if chains.len() > 0 {
        assert forall|i: int, j: int|
            0 <= i < j < chains.drop_last().len() implies chains.drop_last()[i].id
            != chains.drop_last()[j].id by {
            assert(chains.drop_last()[i] == chains[i]);
            assert(chains.drop_last()[j] == chains[j]);
        }
        lemma_remove_chain_preserves_wf(chains.drop_last(), id);
        let r0 = remove_chain_spec(chains.drop_last(), id);
        if chains.last().id != id {
            lemma_remove_chain_elements(chains.drop_last(), id);
            let r = remove_chain_spec(chains, id);
            assert(r == r0.push(chains.last()));
            assert forall|i: int, j: int| 0 <= i < j < r.len() implies r[i].id != r[j].id by {
                if j < r0.len() {
                } else {
                    assert(r[j] == chains.last());
                    assert(r0.contains(r0[i]));
                    assert(chains.drop_last().contains(r0[i]));
                    let m = choose|m: int|
                        0 <= m < chains.drop_last().len() && chains.drop_last()[m] == r0[i];
                    assert(chains[m] == chains.drop_last()[m]);
                    assert(chains[m].id != chains.last().id);
                }
            }
        }
    }
}

/// Process-wide configuration. The chain list is ordered and unique by
/// id; [`ConfigV::wf`] states the uniqueness.
#[derive(Debug)]
pub struct Config {
    pub chains: Vec<ChainConfig>,
    /// Global switch of the per-chain channel filter.
    pub filter: bool,
    /// Whether handshake work (connection / channel open) is relayed.
    pub handshake_enabled: bool,
}

/// Spec-level image of [`Config`].
pub struct ConfigV {
    pub chains: Seq<ChainConfigV>,
    pub filter: bool,
    pub handshake_enabled: bool,
}

impl View for Config {
    type V = ConfigV;

    open spec fn view(&self) -> ConfigV {
        ConfigV {
            chains: seq_view(self.chains@),
            filter: self.filter,
            handshake_enabled: self.handshake_enabled,
        }
    }
}

impl ConfigV {
    /// Chain ids are unique.
    pub open spec fn wf(self) -> bool {
        forall|i: int, j: int|
            0 <= i < j < self.chains.len() ==> self.chains[i].id != self.chains[j].id
    }

    /// Whether a chain with the given id is configured.
    pub open spec fn has_chain(self, id: Seq<char>) -> bool {
        exists|i: int| 0 <= i < self.chains.len() && self.chains[i].id == id
    }
}

/// `find_chain_spec` succeeds exactly on configured ids.
pub proof fn lemma_find_chain_some(chains: Seq<ChainConfigV>, id: Seq<char>)
    ensures
        (find_chain_spec(chains, id) is Some) <==> exists|i: int|
            0 <= i < chains.len() && chains[i].id == id,
        find_chain_spec(chains, id) matches Some(c) ==> c.id == id && chains.contains(c),
    decreases chains.len(),
{
    if chains.len() > 0 {
        lemma_find_chain_some(chains.drop_first(), id);
        if chains[0].id == id {
        } else {
            if find_chain_spec(chains.drop_first(), id) is Some {
                let c = find_chain_spec(chains.drop_first(), id)->Some_0;
                let k = choose|k: int|
                    0 <= k < chains.drop_first().len() && chains.drop_first()[k] == c;
                assert(chains[k + 1] == c);
            }
            if exists|i: int| 0 <= i < chains.len() && chains[i].id == id {
                let i = choose|i: int| 0 <= i < chains.len() && chains[i].id == id;
                assert(chains.drop_first()[i - 1] == chains[i]);
            }
        }
    }
}

impl Config {
    pub fn new(chains: Vec<ChainConfig>, filter: bool, handshake_enabled: bool) -> (r: Config)
        ensures
            r@.chains == seq_view(chains@),
            r@.filter == filter,
            r@.handshake_enabled == handshake_enabled,
    {
        Config { chains, filter, handshake_enabled }
    }

    /// Whether handshake work is relayed.
    pub fn handshake_enabled(&self) -> (r: bool)
        ensures
            r == self@.handshake_enabled,
    {
        self.handshake_enabled
    }

    /// Whether a chain with the given id is configured.
    pub fn has_chain(&self, id: &ChainId) -> (r: bool)
        ensures
            r == self@.has_chain(id@),
    {
        let mut i: usize = 0;
        while i < self.chains.len()
            invariant
                i <= self.chains.len(),
                forall|j: int| 0 <= j < i as int ==> self@.chains[j].id != id@,
            decreases self.chains.len() - i,
        {
            if self.chains[i].id.same(id) {
                proof {
                    assert(self@.chains[i as int].id == id@);
                }
                return true;
            }
            i = i + 1;
        }
        false
    }

    /// The first configured chain with the given id, if any.
    pub fn find_chain(&self, id: &ChainId) -> (r: Option<&ChainConfig>)
        ensures
            match r {
                Some(c) => find_chain_spec(self@.chains, id@) == Some(c@),
                None => find_chain_spec(self@.chains, id@) is None,
            },
    {
        let ghost chains = self@.chains;
        proof {
            assert(chains.skip(0) =~= chains);
        }
        let mut i: usize = 0;
        while i < self.chains.len()
            invariant
                i <= self.chains.len(),
                chains == seq_view(self.chains@),
                chains.len() == self.chains@.len(),
                find_chain_spec(chains, id@) == find_chain_spec(chains.skip(i as int), id@),
            decreases self.chains.len() - i,
        {
            proof {
                assert(chains.skip(i as int)[0] == chains[i as int]);
            }
            if self.chains[i].id.same(id) {
                return Some(&self.chains[i]);
            }
            proof {
                assert(chains.skip(i as int).drop_first() =~= chains.skip(i as int + 1));
            }
            i = i + 1;
        }
        proof {
            assert(chains.skip(i as int) =~= Seq::<ChainConfigV>::empty());
        }
        None
    }

    /// Append a chain configuration; the caller keeps ids unique.
    pub fn push_chain(&mut self, c: ChainConfig)
        ensures
            final(self)@.chains == old(self)@.chains.push(c@),
            final(self)@.filter == old(self)@.filter,
            final(self)@.handshake_enabled == old(self)@.handshake_enabled,
    {
        self.chains.push(c);
        proof {
            assert(seq_view(self.chains@) =~= seq_view(old(self).chains@).push(
                self.chains@.last()@,
            ));
        }
    }

    /// Remove every chain configuration with the given id.
    pub fn remove_chain(&mut self, id: &ChainId)
        ensures
            final(self)@.chains == remove_chain_spec(old(self)@.chains, id@),
            final(self)@.filter == old(self)@.filter,
            final(self)@.handshake_enabled == old(self)@.handshake_enabled,
    {
        let ghost chains = self@.chains;
        let mut kept: Vec<ChainConfig> = Vec::new();
        let mut i: usize = 0;
        proof {
            assert(chains.take(0) =~= Seq::<ChainConfigV>::empty());
            assert(seq_view(kept@) =~= Seq::<ChainConfigV>::empty());
        }
        while i < self.chains.len()
            invariant
                i <= self.chains.len(),
                chains == seq_view(self.chains@),
                chains.len() == self.chains@.len(),
                seq_view(kept@) == remove_chain_spec(chains.take(i as int), id@),
            decreases self.chains.len() - i,
        {
            let ghost prefix = chains.take(i as int + 1);
            proof {
                assert(prefix.drop_last() =~= chains.take(i as int));
                assert(prefix.last() == chains[i as int]);
            }
            if !self.chains[i].id.same(id) {
                kept.push(self.chains[i].clone());
                proof {
                    assert(seq_view(kept@) =~= remove_chain_spec(chains.take(i as int), id@).push(
                        chains[i as int],
                    ));
                }
            }
            i = i + 1;
        }
        proof {
            assert(chains.take(i as int) =~= chains);
        }
        self.chains = kept;
    }
}

} // verus!
