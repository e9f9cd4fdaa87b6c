//! Out-of-band operator commands and their effect on the supervisor.

use vstd::prelude::*;

use crate::config::{remove_chain_spec, ChainConfig, ChainConfigV, ConfigV};
use crate::ids::{seq_view, ChainId};
use crate::object::{Object, ObjectV};
use crate::registry::{registry_contains, remove_handle_spec};
use crate::spawn::spawn_list_for;
use crate::supervisor::{registry_after, Supervisor, SupervisorV};
use crate::worker::remove_chain_workers_spec;

verus! {

/// A change to the set of relayed chains.
#[derive(Debug)]
pub enum ConfigUpdate {
    /// Add a chain; no effect if its id is already configured.
    Add(ChainConfig),
    /// Remove a chain; no effect if its id is not configured.
    Remove(ChainId),
    /// Replace a chain's configuration: remove, then add.
    Update(ChainConfig),
}

/// A command the supervisor services between batches.
#[derive(Debug)]
pub enum SupervisorCmd {
    UpdateConfig(ConfigUpdate),
    /// Snapshot the registry and worker map for introspection.
    DumpState,
}

/// What a serviced command asks of the caller: rebuild the event
/// subscriptions, or nothing.
#[derive(Clone, Copy, Debug, PartialEq, Eq, Structural)]
pub enum CmdEffect {
    Nothing,
    ConfigChanged,
}

impl CmdEffect {
    /// Join of two effects: a configuration change dominates.
    pub open spec fn or_spec(self, other: CmdEffect) -> CmdEffect {
        if self is ConfigChanged || other is ConfigChanged {
            CmdEffect::ConfigChanged
        } else {
            CmdEffect::Nothing
        }
    }

    /// Join of two effects: a configuration change dominates.
    pub fn or(self, other: CmdEffect) -> (r: CmdEffect)
        ensures
            r == self.or_spec(other),
    {
        match self {
            CmdEffect::ConfigChanged => CmdEffect::ConfigChanged,
            CmdEffect::Nothing => other,
        }
    }
}

/// State and effect after an `Add(c)` command: a no-op when the chain
/// is already configured or its runtime failed to start (the
/// configuration write is rolled back); otherwise the chain is
/// configured, its runtime spawned, and its workers seeded from the
/// candidates.
pub open spec fn add_transition(
    s: SupervisorV,
    c: ChainConfigV,
    runtime_started: bool,
    cands: Seq<ObjectV>,
) -> (SupervisorV, CmdEffect) {
    if s.config.has_chain(c.id) {
        (s, CmdEffect::Nothing)
    } else if !runtime_started {
        (s, CmdEffect::Nothing)
    } else {
        let cfg = ConfigV {
            chains: s.config.chains.push(c),
            filter: s.config.filter,
            handshake_enabled: s.config.handshake_enabled,
        };
        let s1 = SupervisorV {
            config: cfg,
            registry: registry_after(s.registry, c.id),
            workers: s.workers,
        };
        (spawn_list_for(s1, cands, c.id), CmdEffect::ConfigChanged)
    }
}

/// State and effect after a `Remove(id)` command: a no-op when the
/// chain is not configured; otherwise its workers, its runtime and its
/// configuration entry all go.
pub open spec fn remove_transition(s: SupervisorV, id: Seq<char>) -> (SupervisorV, CmdEffect) {
    if !s.config.has_chain(id) {
        (s, CmdEffect::Nothing)
    } else {
        (
            SupervisorV {
                config: ConfigV {
                    chains: remove_chain_spec(s.config.chains, id),
                    filter: s.config.filter,
                    handshake_enabled: s.config.handshake_enabled,
                },
                registry: remove_handle_spec(s.registry, id),
                workers: remove_chain_workers_spec(s.workers, id),
            },
            CmdEffect::ConfigChanged,
        )
    }
}

impl Supervisor {
    /// Add the given chain to the configuration, spawn its runtime and
    /// its workers. No effect if the chain is already configured; the
    /// configuration write is rolled back if the runtime fails to
    /// start.
    pub fn add_chain(
        &mut self,
        config: ChainConfig,
        runtime_started: bool,
        candidates: &Vec<Object>,
    ) -> (r: CmdEffect)
        requires
            old(self)@.wf(),
        ensures
            final(self)@.wf(),
            (final(self)@, r) == add_transition(
                old(self)@,
                config@,
                runtime_started,
                seq_view(candidates@),
            ),
            old(self)@.config.has_chain(config@.id) ==> r == CmdEffect::Nothing && final(self)@
                == old(self)@,
            r == CmdEffect::ConfigChanged ==> final(self)@.config.has_chain(config@.id)
                && registry_contains(final(self)@.registry, config@.id),
    {
        let ghost s0 = old(self)@;
        let ghost cv = config@;
        let id = config.id.clone();
        if self.config.has_chain(&id) {
            return CmdEffect::Nothing;
        }
        self.config.push_chain(config);
        proof {
            assert(self@.config.chains == s0.config.chains.push(cv));
            assert(self@.config.chains.last() == cv);
            assert forall|i: int, j: int|
                0 <= i < j < self@.config.chains.len() implies self@.config.chains[i].id
                != self@.config.chains[j].id by {
                if j < self@.config.chains.len() - 1 {
                    assert(self@.config.chains[i] == s0.config.chains[i]);
                    assert(self@.config.chains[j] == s0.config.chains[j]);
                } else {
                    assert(self@.config.chains[i] == s0.config.chains[i]);
                    assert(!s0.config.has_chain(cv.id));
                }
            }
            assert forall|x: Seq<char>| #[trigger]
                registry_contains(self@.registry, x) implies self@.config.has_chain(x) by {
                assert(self@.registry == s0.registry);
                assert(registry_contains(s0.registry, x));
                assert(s0.config.has_chain(x));
                let k = choose|k: int|
                    0 <= k < s0.config.chains.len() && s0.config.chains[k].id == x;
                assert(self@.config.chains[k].id == x);
            }
            assert forall|i: int| 0 <= i < self@.workers.len() implies registry_contains(
                self@.registry,
                #[trigger] self@.workers[i].object.src_chain_id(),
            ) && registry_contains(self@.registry, self@.workers[i].object.dst_chain_id()) by {
                assert(self@.workers == s0.workers);
                assert(self@.registry == s0.registry);
                assert(registry_contains(s0.registry, s0.workers[i].object.src_chain_id()));
                assert(registry_contains(s0.registry, s0.workers[i].object.dst_chain_id()));
            }
            assert(self@.registry == s0.registry);
            assert(self@.workers == s0.workers);
            assert(crate::worker::workers_wf(self@.workers));
            assert(forall|i: int, j: int|
                0 <= i < j < self@.registry.len() ==> self@.registry[i].id
                    != self@.registry[j].id);
            assert(self@.wf());
            assert(self@.config.has_chain(cv.id)) by {
                assert(self@.config.chains.last().id == cv.id);
            }
            assert(self.registry.wf());
        }
        let ghost s_pushed = self@;
        let spawned = self.registry.spawn(&id, &self.config, runtime_started);
        match spawned {
            Ok(()) => {
                proof {
                    assert(!registry_contains(s0.registry, cv.id)) by {
                        if registry_contains(s0.registry, cv.id) {
                            assert(s0.config.has_chain(cv.id));
                        }
                    }
                    assert(self@.registry == registry_after(s_pushed.registry, cv.id));
                    crate::supervisor::lemma_registry_after_wf_parts(s_pushed, cv.id);
                    assert(self@.wf());
                }
                let ghost s1 = self@;
                self.spawn_workers_for_chain(&id, candidates);
                proof {
                    let tr = add_transition(s0, cv, runtime_started, seq_view(candidates@));
                    assert(s_pushed.registry == s0.registry);
                    assert(s1.registry == registry_after(s0.registry, cv.id));
                    assert(tr.0 == spawn_list_for(s1, seq_view(candidates@), cv.id));
                    assert(self@ == tr.0);
                    crate::spawn::lemma_spawn_list_for_registry(s1, seq_view(candidates@), cv.id);
                    assert(registry_contains(s1.registry, cv.id));
                    assert(registry_contains(self@.registry, cv.id));
                    assert(self@.config == s1.config);
                    assert(self@.config.has_chain(cv.id));
                }
                CmdEffect::ConfigChanged
            },
            Err(_) => {
                proof {
                    assert(!runtime_started);
                }
                self.config.remove_chain(&id);
                proof {
                    assert(s_pushed.config.chains.drop_last() =~= s0.config.chains);
                    crate::config::lemma_remove_chain_absent(s0.config.chains, cv.id);
                    assert(self@.config.chains == s0.config.chains);
                    assert(self@.config == s0.config);
                    assert(self@ == s0);
                }
                CmdEffect::Nothing
            },
        }
    }

    /// Remove the given chain: stop its workers, stop its runtime, and
    /// drop it from the configuration, in that order. No effect if the
    /// chain is not configured.
    pub fn remove_chain(&mut self, id: &ChainId) -> (r: CmdEffect)
        requires
            old(self)@.wf(),
        ensures
            final(self)@.wf(),
            (final(self)@, r) == remove_transition(old(self)@, id@),
            forall|i: int|
                0 <= i < final(self)@.workers.len() ==> final(self)@.workers[i].object.src_chain_id()
                    != id@ && final(self)@.workers[i].object.dst_chain_id() != id@,
            !registry_contains(final(self)@.registry, id@),
            !final(self)@.config.has_chain(id@),
    {
        let ghost s0 = old(self)@;
        if !self.config.has_chain(id) {
            proof {
                assert(!registry_contains(self@.registry, id@)) by {
                    if registry_contains(self@.registry, id@) {
                        assert(s0.config.has_chain(id@));
                    }
                }
                assert forall|i: int|
                    0 <= i < self@.workers.len() implies self@.workers[i].object.src_chain_id()
                    != id@ && self@.workers[i].object.dst_chain_id() != id@ by {
                    assert(registry_contains(
                        self@.registry,
                        self@.workers[i].object.src_chain_id(),
                    ));
                    assert(registry_contains(
                        self@.registry,
                        self@.workers[i].object.dst_chain_id(),
                    ));
                }
            }
            return CmdEffect::Nothing;
        }
        self.shutdown_workers_for_chain(id);
        proof {
            crate::worker::lemma_remove_chain_workers_elements(s0.workers, id@);
            assert(self.registry.wf());
        }
        let ghost s_w = self@;
        self.registry.shutdown(id);
        proof {
            crate::registry::lemma_remove_handle_spec(s_w.registry, id@);
            assert forall|i: int| 0 <= i < self@.workers.len() implies registry_contains(
                self@.registry,
                #[trigger] self@.workers[i].object.src_chain_id(),
            ) && registry_contains(self@.registry, self@.workers[i].object.dst_chain_id()) by {
                assert(self@.workers[i] == s_w.workers[i]);
                assert(s_w.workers.contains(s_w.workers[i]));
                assert(s_w.workers[i].object.src_chain_id() != id@);
                assert(s_w.workers[i].object.dst_chain_id() != id@);
                assert(registry_contains(s_w.registry, s_w.workers[i].object.src_chain_id()));
                assert(registry_contains(s_w.registry, s_w.workers[i].object.dst_chain_id()));
            }
            assert forall|x: Seq<char>| #[trigger]
                registry_contains(self@.registry, x) implies self@.config.has_chain(x) by {
                assert(registry_contains(s_w.registry, x) || x == id@);
            }
        }
        let ghost s_r = self@;
        self.config.remove_chain(id);
        proof {
            crate::config::lemma_remove_chain_elements(s0.config.chains, id@);
            crate::config::lemma_remove_chain_preserves_wf(s0.config.chains, id@);
            assert(!self@.config.has_chain(id@)) by {
                if self@.config.has_chain(id@) {
                    let k = choose|k: int|
                        0 <= k < self@.config.chains.len() && self@.config.chains[k].id == id@;
                    assert(self@.config.chains.contains(self@.config.chains[k]));
                }
            }
            assert forall|x: Seq<char>| #[trigger]
                registry_contains(self@.registry, x) implies self@.config.has_chain(x) by {
                assert(self@.registry == s_r.registry);
                assert(registry_contains(s_r.registry, x));
                assert(x != id@);
                assert(s_r.config.has_chain(x));
                let k = choose|k: int|
                    0 <= k < s0.config.chains.len() && s0.config.chains[k].id == x;
                assert(s0.config.chains.contains(s0.config.chains[k]));
                assert(remove_chain_spec(s0.config.chains, id@).contains(s0.config.chains[k]));
                let m = choose|m: int|
                    0 <= m < self@.config.chains.len() && self@.config.chains[m]
                        == s0.config.chains[k];
                assert(self@.config.chains[m].id == x);
            }
            assert(self@.wf());
        }
        CmdEffect::ConfigChanged
    }

    /// Replace a chain's configuration: remove it, then add the new
    /// configuration; the joined effect reports whether anything
    /// changed.
    pub fn update_chain(
        &mut self,
        config: ChainConfig,
        runtime_started: bool,
        candidates: &Vec<Object>,
    ) -> (r: CmdEffect)
        requires
            old(self)@.wf(),
        ensures
            final(self)@.wf(),
            ({
                let rm = remove_transition(old(self)@, config@.id);
                let ad = add_transition(rm.0, config@, runtime_started, seq_view(candidates@));
                final(self)@ == ad.0 && r == rm.1.or_spec(ad.1)
            }),
    {
        let id = config.id.clone();
        let removed = self.remove_chain(&id);
        let added = self.add_chain(config, runtime_started, candidates);
        removed.or(added)
    }

    /// Service one operator command: apply a configuration update, or
    /// take an introspection snapshot. The effect tells the caller
    /// whether the event subscriptions must be rebuilt.
    pub fn handle_cmd(
        &mut self,
        cmd: SupervisorCmd,
        runtime_started: bool,
        candidates: &Vec<Object>,
    ) -> (r: (CmdEffect, Option<crate::dump_state::SupervisorState>))
        requires
            old(self)@.wf(),
        ensures
            final(self)@.wf(),
            match cmd {
                SupervisorCmd::UpdateConfig(update) => r.1 is None && match update {
                    ConfigUpdate::Add(c) => (final(self)@, r.0) == add_transition(
                        old(self)@,
                        c@,
                        runtime_started,
                        seq_view(candidates@),
                    ),
                    ConfigUpdate::Remove(id) => (final(self)@, r.0) == remove_transition(
                        old(self)@,
                        id@,
                    ),
                    ConfigUpdate::Update(c) => ({
                        let rm = remove_transition(old(self)@, c@.id);
                        let ad = add_transition(rm.0, c@, runtime_started, seq_view(candidates@));
                        final(self)@ == ad.0 && r.0 == rm.1.or_spec(ad.1)
                    }),
                },
                SupervisorCmd::DumpState => final(self)@ == old(self)@ && r.0 == CmdEffect::Nothing
                    && (r.1 matches Some(st) && crate::dump_state::snapshot_ok(old(self)@, st)),
            },
    {
        match cmd {
            SupervisorCmd::UpdateConfig(update) => {
                let eff = self.update_config(update, runtime_started, candidates);
                (eff, None)
            },
            SupervisorCmd::DumpState => {
                let st = self.dump_state();
                (CmdEffect::Nothing, Some(st))
            },
        }
    }

    /// Apply one configuration update.
    pub fn update_config(
        &mut self,
        update: ConfigUpdate,
        runtime_started: bool,
        candidates: &Vec<Object>,
    ) -> (r: CmdEffect)
        requires
            old(self)@.wf(),
        ensures
            final(self)@.wf(),
            match update {
                ConfigUpdate::Add(c) => (final(self)@, r) == add_transition(
                    old(self)@,
                    c@,
                    runtime_started,
                    seq_view(candidates@),
                ),
                ConfigUpdate::Remove(id) => (final(self)@, r) == remove_transition(
                    old(self)@,
                    id@,
                ),
                ConfigUpdate::Update(c) => ({
                    let rm = remove_transition(old(self)@, c@.id);
                    let ad = add_transition(rm.0, c@, runtime_started, seq_view(candidates@));
                    final(self)@ == ad.0 && r == rm.1.or_spec(ad.1)
                }),
            },
    {
        match update {
            ConfigUpdate::Add(config) => self.add_chain(config, runtime_started, candidates),
            ConfigUpdate::Remove(id) => self.remove_chain(&id),
            ConfigUpdate::Update(config) => self.update_chain(config, runtime_started, candidates),
        }
    }
}

} // verus!
