//! Registry of live chains: the single source of truth for which chains
//! the supervisor holds a handle to.
//!
//! Starting and stopping the real chain runtime is the embedding's work;
//! here a registry entry stands for a live runtime, and the invariant the
//! supervisor maintains is that an entry exists exactly while the runtime
//! does.

use vstd::prelude::*;

use crate::config::Config;
use crate::errors::Error;
use crate::handle::{ChainHandle, ChainHandleV};
use crate::ids::{seq_view, ChainId};

verus! {

/// Whether some handle in `chains` carries the given id.
pub open spec fn registry_contains(chains: Seq<ChainHandleV>, id: Seq<char>) -> bool {
    exists|i: int| 0 <= i < chains.len() && chains[i].id == id
}

/// The handle list with every entry of the given id removed.
pub open spec fn remove_handle_spec(chains: Seq<ChainHandleV>, id: Seq<char>) -> Seq<ChainHandleV>
    decreases chains.len(),
{
    if chains.len() == 0 {
        Seq::empty()
    } else if chains.last().id == id {
        remove_handle_spec(chains.drop_last(), id)
    } else {
        remove_handle_spec(chains.drop_last(), id).push(chains.last())
    }
}

/// A removal keeps exactly the handles of other ids, as elements.
pub proof fn lemma_remove_handle_elements(chains: Seq<ChainHandleV>, id: Seq<char>)
    ensures
        forall|h: ChainHandleV| #[trigger]
            remove_handle_spec(chains, id).contains(h) <==> (chains.contains(h) && h.id != id),
        remove_handle_spec(chains, id).len() <= chains.len(),
    decreases chains.len(),
{
    broadcast use vstd::seq_lib::group_seq_properties;

    let r = remove_handle_spec(chains, id);
    if chains.len() == 0 {
        assert(chains =~= Seq::<ChainHandleV>::empty());
        assert(r =~= Seq::<ChainHandleV>::empty());
    } else {
        lemma_remove_handle_elements(chains.drop_last(), id);
        let r0 = remove_handle_spec(chains.drop_last(), id);
        let last = chains.last();
        assert(chains =~= chains.drop_last().push(last));
        if last.id == id {
            assert(r == r0);
        } else {
            assert(r == r0.push(last));
        }
    }
}

/// `registry_contains` holds exactly when some element carries the id.
pub proof fn lemma_registry_contains_elem(chains: Seq<ChainHandleV>, id: Seq<char>)
    ensures
        registry_contains(chains, id) <==> exists|h: ChainHandleV| #[trigger]
            chains.contains(h) && h.id == id,
{
    if registry_contains(chains, id) {
        let i = choose|i: int| 0 <= i < chains.len() && chains[i].id == id;
        assert(chains.contains(chains[i]));
    }
    if exists|h: ChainHandleV| #[trigger] chains.contains(h) && h.id == id {
        let h = choose|h: ChainHandleV| #[trigger] chains.contains(h) && h.id == id;
        let i = choose|i: int| 0 <= i < chains.len() && chains[i] == h;
        assert(chains[i].id == id);
    }
}

/// After a removal nothing carries the removed id; other ids survive.
pub proof fn lemma_remove_handle_spec(chains: Seq<ChainHandleV>, id: Seq<char>)
    ensures
        !registry_contains(remove_handle_spec(chains, id), id),
        forall|other: Seq<char>|
            other != id ==> (registry_contains(remove_handle_spec(chains, id), other)
                <==> registry_contains(chains, other)),
        remove_handle_spec(chains, id).len() <= chains.len(),
{
    let r = remove_handle_spec(chains, id);
    lemma_remove_handle_elements(chains, id);
    lemma_registry_contains_elem(r, id);
    assert forall|other: Seq<char>| other != id implies (registry_contains(r, other)
        <==> registry_contains(chains, other)) by {
        lemma_registry_contains_elem(r, other);
        lemma_registry_contains_elem(chains, other);
        if registry_contains(r, other) {
            let h = choose|h: ChainHandleV| #[trigger] r.contains(h) && h.id == other;
            assert(chains.contains(h));
        }
        if registry_contains(chains, other) {
            let h = choose|h: ChainHandleV| #[trigger] chains.contains(h) && h.id == other;
            assert(r.contains(h));
        }
    }
}

/// The supervisor's cache of live chain handles, keyed by chain id.
#[derive(Debug)]
pub struct Registry {
    pub chains: Vec<ChainHandle>,
}

impl View for Registry {
    type V = Seq<ChainHandleV>;

    open spec fn view(&self) -> Seq<ChainHandleV> {
        seq_view(self.chains@)
    }
}

impl Registry {
    /// Handle ids are unique.
    pub open spec fn wf(self) -> bool {
        forall|i: int, j: int| 0 <= i < j < self@.len() ==> self@[i].id != self@[j].id
    }

    pub fn new() -> (r: Registry)
        ensures
            r@ == Seq::<ChainHandleV>::empty(),
            r.wf(),
    {
        let r = Registry { chains: Vec::new() };
        proof {
            assert(seq_view(r.chains@) =~= Seq::<ChainHandleV>::empty());
        }
        r
    }

    /// How many chains are live.
    pub fn size(&self) -> (r: usize)
        ensures
            r == self@.len(),
    {
        self.chains.len()
    }

    /// Whether a handle for the given chain is live.
    pub fn contains(&self, id: &ChainId) -> (r: bool)
        ensures
            r == registry_contains(self@, id@),
    {
        let mut i: usize = 0;
        while i < self.chains.len()
            invariant
                i <= self.chains.len(),
                forall|j: int| 0 <= j < i as int ==> self@[j].id != id@,
            decreases self.chains.len() - i,
        {
            if self.chains[i].id.same(id) {
                proof {
                    assert(self@[i as int].id == id@);
                }
                return true;
            }
            i = i + 1;
        }
        false
    }

    /// The ids of the live chains, in registry order.
    pub fn chain_ids(&self) -> (r: Vec<ChainId>)
        ensures
            seq_view(r@) == Seq::new(self@.len(), |i: int| self@[i].id),
    {
        let mut r: Vec<ChainId> = Vec::new();
        let mut i: usize = 0;
        while i < self.chains.len()
            invariant
                i <= self.chains.len(),
                r@.len() == i as int,
                forall|j: int| 0 <= j < i as int ==> r@[j]@ == self@[j].id,
            decreases self.chains.len() - i,
        {
            r.push(self.chains[i].id.clone());
            i = i + 1;
        }
        proof {
            assert(seq_view(r@) =~= Seq::new(self@.len(), |i: int| self@[i].id));
        }
        r
    }

    /// Return the cached handle for `id`, or construct one if the chain
    /// is configured; idempotent. Fails exactly when `id` is not in the
    /// configuration.
    pub fn get_or_spawn(&mut self, id: &ChainId, config: &Config) -> (r: Result<ChainHandle, Error>)
        requires
            old(self).wf(),
        ensures
            final(self).wf(),
            match r {
                Ok(h) => h@.id == id@ && registry_contains(final(self)@, id@) && (
                if registry_contains(old(self)@, id@) {
                    final(self)@ == old(self)@ && (exists|i: int|
                        0 <= i < old(self)@.len() && old(self)@[i].id == id@ && h@ == old(
                            self,
                        )@[i])
                } else {
                    final(self)@ == old(self)@.push(h@) && h@.channel_clients
                        == Seq::<crate::handle::ChannelClientEntryV>::empty()
                        && config@.has_chain(id@)
                }),
                Err(e) => final(self)@ == old(self)@ && !registry_contains(old(self)@, id@)
                    && !config@.has_chain(id@) && (e matches Error::ChainConfigNotFound(c) && c@
                    == id@),
            },
    {
        let mut i: usize = 0;
        while i < self.chains.len()
            invariant
                i <= self.chains.len(),
                self.chains == old(self).chains,
                old(self).wf(),
                forall|j: int| 0 <= j < i as int ==> self@[j].id != id@,
            decreases self.chains.len() - i,
        {
            if self.chains[i].id.same(id) {
                let h = self.chains[i].clone();
                proof {
                    assert(self@[i as int].id == id@);
                    assert(h@ == self@[i as int]);
                    assert(self@ =~= old(self)@);
                    assert(self.wf());
                }
                return Ok(h);
            }
            i = i + 1;
        }
        if !config.has_chain(id) {
            return Err(Error::ChainConfigNotFound(id.clone()));
        }
        let h = ChainHandle::new(id.clone(), Vec::new());
        let hh = h.clone();
        self.chains.push(h);
        proof {
            assert(seq_view(self.chains@) =~= seq_view(old(self).chains@).push(
                self.chains@.last()@,
            ));
            assert(hh@.channel_clients =~= Seq::<crate::handle::ChannelClientEntryV>::empty());
            assert(self@ == old(self)@.push(hh@));
            assert(self@[self@.len() - 1].id == id@);
            assert forall|a: int, b: int| 0 <= a < b < self@.len() implies self@[a].id
                != self@[b].id by {
                if b < self@.len() - 1 {
                    assert(self@[a] == old(self)@[a]);
                    assert(self@[b] == old(self)@[b]);
                } else {
                    assert(self@[a] == old(self)@[a]);
                }
            }
        }
        Ok(hh)
    }

    /// Start a runtime for `id` and cache its handle; used after a
    /// configuration add. `runtime_started` reports whether the
    /// embedding's runtime came up; on failure nothing is cached.
    pub fn spawn(&mut self, id: &ChainId, config: &Config, runtime_started: bool) -> (r: Result<
        (),
        Error,
    >)
        requires
            old(self).wf(),
        ensures
            final(self).wf(),
            match r {
                Ok(()) => registry_contains(final(self)@, id@) && (
                if registry_contains(old(self)@, id@) {
                    final(self)@ == old(self)@
                } else {
                    final(self)@ == old(self)@.push(
                        ChainHandleV {
                            id: id@,
                            channel_clients: Seq::<crate::handle::ChannelClientEntryV>::empty(),
                        },
                    ) && config@.has_chain(id@)
                }),
                Err(e) => final(self)@ == old(self)@ && match e {
                    Error::SpawnFailed(c) => !runtime_started && c@ == id@,
                    Error::ChainConfigNotFound(c) => runtime_started && !registry_contains(
                        old(self)@,
                        id@,
                    ) && !config@.has_chain(id@) && c@ == id@,
                    _ => false,
                },
            },
            r is Ok <==> (runtime_started && (registry_contains(old(self)@, id@)
                || config@.has_chain(id@))),
    {
        if !runtime_started {
            return Err(Error::SpawnFailed(id.clone()));
        }
        match self.get_or_spawn(id, config) {
            Ok(_) => Ok(()),
            Err(e) => Err(e),
        }
    }

    /// Drop the handle for `id`, stopping its runtime; silent if absent.
    pub fn shutdown(&mut self, id: &ChainId)
        requires
            old(self).wf(),
        ensures
            final(self).wf(),
            final(self)@ == remove_handle_spec(old(self)@, id@),
            !registry_contains(final(self)@, id@),
    {
        let ghost chains = self@;
        let mut kept: Vec<ChainHandle> = Vec::new();
        let mut i: usize = 0;
        proof {
            assert(chains.take(0) =~= Seq::<ChainHandleV>::empty());
            assert(seq_view(kept@) =~= Seq::<ChainHandleV>::empty());
        }
        while i < self.chains.len()
            invariant
                i <= self.chains.len(),
                chains == seq_view(self.chains@),
                chains.len() == self.chains@.len(),
                seq_view(kept@) == remove_handle_spec(chains.take(i as int), id@),
            decreases self.chains.len() - i,
        {
            let ghost prefix = chains.take(i as int + 1);
            proof {
                assert(prefix.drop_last() =~= chains.take(i as int));
                assert(prefix.last() == chains[i as int]);
            }
            if !self.chains[i].id.same(id) {
                kept.push(self.chains[i].clone());
                proof {
                    assert(seq_view(kept@) =~= remove_handle_spec(chains.take(i as int), id@).push(
                        chains[i as int],
                    ));
                }
            }
            i = i + 1;
        }
        proof {
            assert(chains.take(i as int) =~= chains);
        }
        self.chains = kept;
        proof {
            lemma_remove_handle_spec(chains, id@);
            lemma_remove_handle_preserves_wf(chains, id@);
        }
    }
}

/// Removal keeps id uniqueness.
pub proof fn lemma_remove_handle_preserves_wf(chains: Seq<ChainHandleV>, id: Seq<char>)
    requires
        forall|i: int, j: int| 0 <= i < j < chains.len() ==> chains[i].id != chains[j].id,
    ensures
        forall|i: int, j: int|
            0 <= i < j < remove_handle_spec(chains, id).len() ==> remove_handle_spec(chains, id)[i].id
                != remove_handle_spec(chains, id)[j].id,
    decreases chains.len(),
{
    broadcast use vstd::seq_lib::group_seq_properties;

    if chains.len() > 0 {
        assert forall|i: int, j: int|
            0 <= i < j < chains.drop_last().len() implies chains.drop_last()[i].id
            != chains.drop_last()[j].id by {
            assert(chains.drop_last()[i] == chains[i]);
            assert(chains.drop_last()[j] == chains[j]);
        }
        lemma_remove_handle_preserves_wf(chains.drop_last(), id);
        let r0 = remove_handle_spec(chains.drop_last(), id);
        if chains.last().id != id {
            lemma_remove_handle_elements(chains.drop_last(), id);
            let r = remove_handle_spec(chains, id);
            assert(r == r0.push(chains.last()));
            assert forall|i: int, j: int| 0 <= i < j < r.len() implies r[i].id != r[j].id by {
                if j < r0.len() {
                } else {
                    assert(r[j] == chains.last());
                    assert(r0.contains(r0[i]));
                    assert(chains.drop_last().contains(r0[i]));
                    let m = choose|m: int|
                        0 <= m < chains.drop_last().len() && chains.drop_last()[m] == r0[i];
                    assert(chains[m] == chains.drop_last()[m]);
                    assert(chains[m].id != chains.last().id);
                }
            }
        }
    }
}

} // verus!
