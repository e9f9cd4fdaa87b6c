//! Seeding the worker map from the current chain set.
//!
//! Which relationships exist is read from on-chain state; the embedding
//! enumerates them and hands the resulting candidate Objects in. The
//! decisions — filtering, chain resolution, spawning — are made and
//! verified here.

use vstd::prelude::*;

use crate::config::ChainConfigV;
use crate::errors::Error;
use crate::handle::ChainHandleV;
use crate::ids::{seq_view, ChainId};
use crate::object::{Object, ObjectV};
use crate::registry::registry_contains;
use crate::supervisor::{registry_after, relay_on_object_spec, Supervisor, SupervisorV};
use crate::worker::{contains_object, WorkerV};

verus! {

/// Workers after a spawn of one Object, with an empty inbox.
pub open spec fn workers_after(ws: Seq<WorkerV>, o: ObjectV) -> Seq<WorkerV> {
    if contains_object(ws, o) {
        ws
    } else {
        ws.push(WorkerV { object: o, inbox: Seq::empty() })
    }
}

/// State after one candidate Object is considered: filtered-out or
/// unresolvable candidates are skipped, the rest get their chains and
/// worker spawned.
pub open spec fn spawn_one(s: SupervisorV, o: ObjectV) -> SupervisorV {
    if !relay_on_object_spec(s.config, o.src_chain_id(), o) {
        s
    } else if !registry_contains(s.registry, o.src_chain_id()) && !s.config.has_chain(
        o.src_chain_id(),
    ) {
        s
    } else {
        let r1 = registry_after(s.registry, o.src_chain_id());
        if !registry_contains(r1, o.dst_chain_id()) && !s.config.has_chain(o.dst_chain_id()) {
            SupervisorV { config: s.config, registry: r1, workers: s.workers }
        } else {
            SupervisorV {
                config: s.config,
                registry: registry_after(r1, o.dst_chain_id()),
                workers: workers_after(s.workers, o),
            }
        }
    }
}

/// Fold of [`spawn_one`] over the candidates, in order.
pub open spec fn spawn_list(s: SupervisorV, cands: Seq<ObjectV>) -> SupervisorV
    decreases cands.len(),
{
    if cands.len() == 0 {
        s
    } else {
        spawn_list(spawn_one(s, cands[0]), cands.drop_first())
    }
}

/// Like [`spawn_one`], but only for candidates that read from or write
/// to the given chain.
pub open spec fn spawn_one_for(s: SupervisorV, o: ObjectV, id: Seq<char>) -> SupervisorV {
    if o.src_chain_id() == id || o.dst_chain_id() == id {
        spawn_one(s, o)
    } else {
        s
    }
}

/// Fold of [`spawn_one_for`] over the candidates, in order.
pub open spec fn spawn_list_for(s: SupervisorV, cands: Seq<ObjectV>, id: Seq<char>) -> SupervisorV
    decreases cands.len(),
{
    if cands.len() == 0 {
        s
    } else {
        spawn_list_for(spawn_one_for(s, cands[0], id), cands.drop_first(), id)
    }
}

/// Registry after every configured chain has been spawned, in
/// configuration order.
pub open spec fn spawn_all_registry(
    r: Seq<ChainHandleV>,
    chains: Seq<ChainConfigV>,
) -> Seq<ChainHandleV>
    decreases chains.len(),
{
    if chains.len() == 0 {
        r
    } else {
        spawn_all_registry(registry_after(r, chains[0].id), chains.drop_first())
    }
}

/// Spawning never loses a live chain.
pub proof fn lemma_registry_after_monotone(r: Seq<ChainHandleV>, id: Seq<char>)
    ensures
        forall|x: Seq<char>| #[trigger]
            registry_contains(r, x) ==> registry_contains(registry_after(r, id), x),
{
    if !registry_contains(r, id) {
        assert forall|x: Seq<char>| #[trigger]
            registry_contains(r, x) implies registry_contains(registry_after(r, id), x) by {
            let i = choose|i: int| 0 <= i < r.len() && r[i].id == x;
            assert(registry_after(r, id)[i] == r[i]);
        }
    }
}

/// One spawn step keeps the configuration and every live chain.
pub proof fn lemma_spawn_one_registry(s: SupervisorV, o: ObjectV)
    ensures
        spawn_one(s, o).config == s.config,
        forall|x: Seq<char>| #[trigger]
            registry_contains(s.registry, x) ==> registry_contains(spawn_one(s, o).registry, x),
{
    lemma_registry_after_monotone(s.registry, o.src_chain_id());
    lemma_registry_after_monotone(registry_after(s.registry, o.src_chain_id()), o.dst_chain_id());
}

/// Seeding workers for a chain keeps the configuration and every live
/// chain.
pub proof fn lemma_spawn_list_for_registry(s: SupervisorV, cands: Seq<ObjectV>, id: Seq<char>)
    ensures
        spawn_list_for(s, cands, id).config == s.config,
        forall|x: Seq<char>| #[trigger]
            registry_contains(s.registry, x) ==> registry_contains(
                spawn_list_for(s, cands, id).registry,
                x,
            ),
    decreases cands.len(),
{
    if cands.len() > 0 {
        let s1 = spawn_one_for(s, cands[0], id);
        lemma_spawn_one_registry(s, cands[0]);
        lemma_spawn_list_for_registry(s1, cands.drop_first(), id);
    }
}

/// Spawning one admitted candidate keeps the invariants.
proof fn lemma_spawn_one_wf(s: SupervisorV, o: ObjectV)
    requires
        s.wf(),
    ensures
        spawn_one(s, o).wf(),
        spawn_one(s, o).config == s.config,
{
    if !relay_on_object_spec(s.config, o.src_chain_id(), o) {
    } else if !registry_contains(s.registry, o.src_chain_id()) && !s.config.has_chain(
        o.src_chain_id(),
    ) {
    } else {
        crate::supervisor::lemma_registry_after_wf_parts(s, o.src_chain_id());
        let r1 = registry_after(s.registry, o.src_chain_id());
        let s1 = SupervisorV { config: s.config, registry: r1, workers: s.workers };
        if !registry_contains(r1, o.dst_chain_id()) && !s.config.has_chain(o.dst_chain_id()) {
        } else {
            crate::supervisor::lemma_registry_after_wf_parts(s1, o.dst_chain_id());
            let r2 = registry_after(r1, o.dst_chain_id());
            let si = SupervisorV { config: s.config, registry: r2, workers: s.workers };
            assert(si.wf());
            let ws = s.workers;
            let ws1 = workers_after(ws, o);
            if !contains_object(ws, o) {
                assert forall|i: int, j: int| 0 <= i < j < ws1.len() implies ws1[i].object
                    != ws1[j].object by {
                    if j < ws1.len() - 1 {
                        assert(ws1[i] == ws[i]);
                        assert(ws1[j] == ws[j]);
                    } else {
                        assert(ws1[i] == ws[i]);
                        assert(ws1[j].object == o);
                    }
                }
            }
            assert(registry_contains(r2, o.src_chain_id()));
            assert(registry_contains(r2, o.dst_chain_id()));
            assert forall|a: int| 0 <= a < ws1.len() implies registry_contains(
                r2,
                #[trigger] ws1[a].object.src_chain_id(),
            ) && registry_contains(r2, ws1[a].object.dst_chain_id()) by {
                if a < ws.len() {
                    assert(ws1[a] == ws[a]);
                    assert(registry_contains(s.registry, ws[a].object.src_chain_id()));
                    assert(registry_contains(s.registry, ws[a].object.dst_chain_id()));
                    assert(registry_contains(r1, ws[a].object.src_chain_id()));
                    assert(registry_contains(r1, ws[a].object.dst_chain_id()));
                } else {
                    assert(ws1[a].object == o);
                }
            }
            let s2 = SupervisorV { config: s.config, registry: r2, workers: ws1 };
            assert(crate::worker::workers_wf(s2.workers));
            assert forall|id: Seq<char>| #[trigger]
                registry_contains(s2.registry, id) implies s2.config.has_chain(id) by {
                assert(registry_contains(si.registry, id));
                assert(si.config.has_chain(id));
            }
            assert(s2.config.wf());
            assert forall|i: int, j: int|
                0 <= i < j < s2.registry.len() implies s2.registry[i].id != s2.registry[j].id by {
                assert(si.registry[i].id != si.registry[j].id);
            }
            assert forall|i: int| 0 <= i < s2.workers.len() implies registry_contains(
                s2.registry,
                #[trigger] s2.workers[i].object.src_chain_id(),
            ) && registry_contains(s2.registry, s2.workers[i].object.dst_chain_id()) by {
                assert(registry_contains(r2, ws1[i].object.src_chain_id()));
                assert(registry_contains(r2, ws1[i].object.dst_chain_id()));
            }
            assert(s2.wf());
        }
    }
}

impl Supervisor {
    /// Consider one candidate Object: spawn its chains and its worker
    /// unless the filter rejects it or a chain is unresolvable, which
    /// skips it.
    fn spawn_candidate(&mut self, object: &Object)
        requires
            old(self)@.wf(),
        ensures
            final(self)@.wf(),
            final(self)@ == spawn_one(old(self)@, object@),
    {
        let ghost statev = self@;
        let ghost ov = object@;
        proof {
            assert(self@.registry == self.registry@);
            assert(self.registry.wf());
        }
        if !self.relay_on_object(object.src_chain_id(), object) {
            return ;
        }
        let src = match self.registry.get_or_spawn(object.src_chain_id(), &self.config) {
            Ok(h) => h,
            Err(_) => {
                return ;
            },
        };
        proof {
            assert(self@.registry == registry_after(statev.registry, ov.src_chain_id()));
            crate::supervisor::lemma_registry_after_wf_parts(statev, ov.src_chain_id());
        }
        let ghost statev1 = self@;
        let dst = match self.registry.get_or_spawn(object.dst_chain_id(), &self.config) {
            Ok(h) => h,
            Err(_) => {
                proof {
                    assert(self@ == spawn_one(statev, ov));
                }
                return ;
            },
        };
        proof {
            assert(self@.registry == registry_after(statev1.registry, ov.dst_chain_id()));
        }
        let ghost ws0 = self@.workers;
        let idx = self.workers.get_or_spawn(object.clone(), &src, &dst);
        proof {
            assert(self@.workers == workers_after(ws0, ov));
            lemma_spawn_one_wf(statev, ov);
            assert(self@ == spawn_one(statev, ov));
        }
    }

    /// Spawn the workers for every candidate relationship implied by
    /// the current chain set; candidates the filter rejects or whose
    /// chains cannot be resolved are skipped.
    pub fn spawn_workers(&mut self, candidates: &Vec<Object>)
        requires
            old(self)@.wf(),
        ensures
            final(self)@.wf(),
            final(self)@ == spawn_list(old(self)@, seq_view(candidates@)),
    {
        let ghost candsv = seq_view(candidates@);
        proof {
            assert(candsv.skip(0) =~= candsv);
        }
        let mut i: usize = 0;
        while i < candidates.len()
            invariant
                i <= candidates.len(),
                self@.wf(),
                candsv == seq_view(candidates@),
                candsv.len() == candidates@.len(),
                spawn_list(old(self)@, candsv) == spawn_list(self@, candsv.skip(i as int)),
            decreases candidates.len() - i,
        {
            let ghost statev = self@;
            proof {
                assert(candsv.skip(i as int)[0] == candsv[i as int]);
                assert(candsv.skip(i as int).drop_first() =~= candsv.skip(i as int + 1));
            }
            self.spawn_candidate(&candidates[i]);
            i = i + 1;
        }
        proof {
            assert(candsv.skip(i as int) =~= Seq::<ObjectV>::empty());
        }
    }

    /// Spawn the workers among the candidates that read from or write
    /// to the given chain; used after a chain is added.
    pub fn spawn_workers_for_chain(&mut self, id: &ChainId, candidates: &Vec<Object>)
        requires
            old(self)@.wf(),
        ensures
            final(self)@.wf(),
            final(self)@ == spawn_list_for(old(self)@, seq_view(candidates@), id@),
    {
        let ghost candsv = seq_view(candidates@);
        proof {
            assert(candsv.skip(0) =~= candsv);
        }
        let mut i: usize = 0;
        while i < candidates.len()
            invariant
                i <= candidates.len(),
                self@.wf(),
                candsv == seq_view(candidates@),
                candsv.len() == candidates@.len(),
                spawn_list_for(old(self)@, candsv, id@) == spawn_list_for(
                    self@,
                    candsv.skip(i as int),
                    id@,
                ),
            decreases candidates.len() - i,
        {
            proof {
                assert(candsv.skip(i as int)[0] == candsv[i as int]);
                assert(candsv.skip(i as int).drop_first() =~= candsv.skip(i as int + 1));
            }
            let object = &candidates[i];
            if object.src_chain_id().same(id) || object.dst_chain_id().same(id) {
                self.spawn_candidate(object);
            }
            i = i + 1;
        }
        proof {
            assert(candsv.skip(i as int) =~= Seq::<ObjectV>::empty());
        }
    }

    /// Stop every worker that reads from or writes to the given chain;
    /// used when the chain leaves the configuration.
    pub fn shutdown_workers_for_chain(&mut self, id: &ChainId)
        requires
            old(self)@.wf(),
        ensures
            final(self)@.wf(),
            final(self)@.config == old(self)@.config,
            final(self)@.registry == old(self)@.registry,
            final(self)@.workers == crate::worker::remove_chain_workers_spec(
                old(self)@.workers,
                id@,
            ),
    {
        self.workers.remove_for_chain(id);
        proof {
            crate::worker::lemma_remove_chain_workers_elements(old(self)@.workers, id@);
            assert forall|i: int| 0 <= i < self@.workers.len() implies registry_contains(
                self@.registry,
                #[trigger] self@.workers[i].object.src_chain_id(),
            ) && registry_contains(self@.registry, self@.workers[i].object.dst_chain_id()) by {
                assert(self@.workers.contains(self@.workers[i]));
                assert(old(self)@.workers.contains(self@.workers[i]));
                let k = choose|k: int|
                    0 <= k < old(self)@.workers.len() && old(self)@.workers[k]
                        == self@.workers[i];
                assert(registry_contains(
                    old(self)@.registry,
                    old(self)@.workers[k].object.src_chain_id(),
                ));
                assert(registry_contains(
                    old(self)@.registry,
                    old(self)@.workers[k].object.dst_chain_id(),
                ));
            }
        }
    }

    /// Make every configured chain live, in configuration order, and
    /// report the chain ids to subscribe to. Fails with
    /// `NoChainsAvailable` exactly when no chain is live afterwards;
    /// the supervisor then keeps running with no subscriptions.
    pub fn init_subscriptions(&mut self) -> (r: Result<Vec<ChainId>, Error>)
        requires
            old(self)@.wf(),
        ensures
            final(self)@.wf(),
            final(self)@.config == old(self)@.config,
            final(self)@.workers == old(self)@.workers,
            final(self)@.registry == spawn_all_registry(
                old(self)@.registry,
                old(self)@.config.chains,
            ),
            match r {
                Ok(ids) => final(self)@.registry.len() > 0 && seq_view(ids@) == Seq::new(
                    old(self)@.config.chains.len(),
                    |k: int| old(self)@.config.chains[k].id,
                ),
                Err(e) => final(self)@.registry.len() == 0 && e matches Error::NoChainsAvailable,
            },
    {
        let ghost chainsv = old(self)@.config.chains;
        proof {
            assert(chainsv.skip(0) =~= chainsv);
        }
        let mut ids: Vec<ChainId> = Vec::new();
        let n = self.config.chains.len();
        let mut i: usize = 0;
        while i < n
            invariant
                i <= n,
                self@.wf(),
                self@.config == old(self)@.config,
                self@.workers == old(self)@.workers,
                chainsv == self@.config.chains,
                n == self.config.chains@.len(),
                chainsv.len() == n as int,
                ids@.len() == i as int,
                forall|k: int| 0 <= k < i as int ==> ids@[k]@ == chainsv[k].id,
                spawn_all_registry(old(self)@.registry, chainsv) == spawn_all_registry(
                    self@.registry,
                    chainsv.skip(i as int),
                ),
            decreases n - i,
        {
            let ghost statev = self@;
            proof {
                assert(chainsv.skip(i as int)[0] == chainsv[i as int]);
                assert(chainsv.skip(i as int).drop_first() =~= chainsv.skip(i as int + 1));
            }
            let id = self.config.chains[i].id.clone();
            proof {
                assert(self@.config.chains[i as int].id == id@);
                assert(self@.config.has_chain(id@));
            }
            match self.registry.get_or_spawn(&id, &self.config) {
                Ok(_) => {},
                Err(e) => {
                    return Err(e);
                },
            }
            proof {
                assert(self@.registry == registry_after(statev.registry, id@));
                crate::supervisor::lemma_registry_after_wf_parts(statev, id@);
            }
            ids.push(id);
            i = i + 1;
        }
        proof {
            assert(chainsv.skip(i as int) =~= Seq::<ChainConfigV>::empty());
            assert(seq_view(ids@) =~= Seq::new(
                old(self)@.config.chains.len(),
                |k: int| old(self)@.config.chains[k].id,
            ));
        }
        if self.registry.size() == 0 {
            return Err(Error::NoChainsAvailable);
        }
        Ok(ids)
    }
}

} // verus!
