//! Laws of the supervisor: properties that relate several operations,
//! stated over the transition functions the operations are specified
//! by, and proved once and for all.

use vstd::prelude::*;

use crate::classify::ObjectEventsV;
use crate::cmd::{add_transition, remove_transition, CmdEffect};
use crate::config::{lemma_remove_chain_absent, ChainConfigV};
use crate::events::EventBatchV;
use crate::object::ObjectV;
use crate::registry::{registry_contains, remove_handle_spec};
use crate::spawn::{lemma_spawn_list_for_registry, spawn_list_for, spawn_one_for, workers_after};
use crate::supervisor::{dispatch_entries, dispatch_entry, deliver_events, idx_of_object,
    registry_after, relay_on_object_spec, CollectedEventsV, SupervisorV};
use crate::worker::{contains_object, remove_chain_workers_spec, workers_wf, WorkerV};

verus! {

/// What one Object's worker has been handed so far; empty when no such
/// worker is live. Deterministic under `workers_wf`.
pub open spec fn inbox_of(ws: Seq<WorkerV>, o: ObjectV) -> Seq<crate::worker::WorkerInputV> {
    if contains_object(ws, o) {
        ws[idx_of_object(ws, o)].inbox
    } else {
        Seq::empty()
    }
}

/// Every chain a live worker reads from or writes to is live in the
/// registry; every operation of the supervisor keeps this, as each
/// one's contract ensures the invariant.
pub proof fn law_worker_chains_live(s: SupervisorV, i: int)
    requires
        s.wf(),
        0 <= i < s.workers.len(),
    ensures
        registry_contains(s.registry, s.workers[i].object.src_chain_id()),
        registry_contains(s.registry, s.workers[i].object.dst_chain_id()),
{
    assert(registry_contains(s.registry, s.workers[i].object.src_chain_id()));
}

/// The classifier hands each Object exactly the sub-sequence of the
/// batch that targets it, in batch order: the events a worker is sent
/// are an order-preserving subsequence of what its source chain
/// emitted.
pub proof fn law_per_worker_order(
    events: Seq<crate::events::IbcEventV>,
    handshake: bool,
    workers: Seq<WorkerV>,
    src: crate::handle::ChainHandleV,
    o: ObjectV,
)
    ensures
        crate::classify::events_of(
            crate::classify::collect_per_object(events, handshake, workers, src),
            o,
        ) == crate::classify::delivered(events, handshake, workers, src, o),
        crate::classify::is_subsequence_of(
            crate::classify::delivered(events, handshake, workers, src, o),
            events,
        ),
{
    crate::classify::lemma_collect_events_of(events, handshake, workers, src, o);
    crate::classify::lemma_delivered_subsequence(events, handshake, workers, src, o);
}

/// Collecting a batch is pure: two results over the same batch, flag,
/// worker map and source handle are equal, field for field.
pub proof fn law_collect_events_pure(
    r1: CollectedEventsV,
    r2: CollectedEventsV,
    batch: EventBatchV,
    handshake: bool,
    workers: Seq<WorkerV>,
    src: crate::handle::ChainHandleV,
)
    requires
        r1.height == batch.height,
        r2.height == batch.height,
        r1.chain_id == batch.chain_id,
        r2.chain_id == batch.chain_id,
        r1.new_block == crate::classify::last_new_block(batch.events),
        r2.new_block == crate::classify::last_new_block(batch.events),
        r1.per_object == crate::classify::collect_per_object(batch.events, handshake, workers, src),
        r2.per_object == crate::classify::collect_per_object(batch.events, handshake, workers, src),
    ensures
        r1.height == r2.height,
        r1.chain_id == r2.chain_id,
        r1.new_block == r2.new_block,
        r1.per_object == r2.per_object,
{
}

/// An `Add(c)` applied twice equals `Add(c)` once: the second
/// application changes nothing and reports `Nothing`.
pub proof fn law_add_idempotent(
    s: SupervisorV,
    c: ChainConfigV,
    cands: Seq<ObjectV>,
    cands2: Seq<ObjectV>,
)
    ensures
        ({
            let s1 = add_transition(s, c, true, cands).0;
            add_transition(s1, c, true, cands2) == (s1, CmdEffect::Nothing)
        }),
{
    let s1 = add_transition(s, c, true, cands).0;
    if s.config.has_chain(c.id) {
    } else {
        let cfg = crate::config::ConfigV {
            chains: s.config.chains.push(c),
            filter: s.config.filter,
            handshake_enabled: s.config.handshake_enabled,
        };
        let smid = SupervisorV {
            config: cfg,
            registry: registry_after(s.registry, c.id),
            workers: s.workers,
        };
        lemma_spawn_list_for_registry(smid, cands, c.id);
        assert(s1.config == cfg);
        assert(s1.config.has_chain(c.id)) by {
            assert(cfg.chains.last().id == c.id);
        }
    }
}

/// Every worker a chain-addition spawns reads from or writes to the
/// added chain; nothing else changes, and the registry stays as it was
/// when every candidate's chains are already live.
proof fn lemma_spawn_for_shape(s: SupervisorV, cands: Seq<ObjectV>, id: Seq<char>)
    requires
        registry_contains(s.registry, id),
        forall|k: int|
            0 <= k < cands.len() ==> (cands[k].src_chain_id() == id || registry_contains(
                s.registry,
                #[trigger] cands[k].src_chain_id(),
            )) && (cands[k].dst_chain_id() == id || registry_contains(
                s.registry,
                cands[k].dst_chain_id(),
            )),
    ensures
        spawn_list_for(s, cands, id).registry == s.registry,
        spawn_list_for(s, cands, id).config == s.config,
        spawn_list_for(s, cands, id).workers.len() >= s.workers.len(),
        forall|i: int|
            #![trigger spawn_list_for(s, cands, id).workers[i]]
            0 <= i < spawn_list_for(s, cands, id).workers.len() ==> (
            if i < s.workers.len() {
                spawn_list_for(s, cands, id).workers[i] == s.workers[i]
            } else {
                spawn_list_for(s, cands, id).workers[i].object.src_chain_id() == id
                    || spawn_list_for(s, cands, id).workers[i].object.dst_chain_id() == id
            }),
    decreases cands.len(),
{
    if cands.len() > 0 {
        let o = cands[0];
        let s1 = spawn_one_for(s, o, id);
        assert(s1.registry == s.registry && s1.config == s.config && s1.workers.len()
            >= s.workers.len()) by {
            if o.src_chain_id() == id || o.dst_chain_id() == id {
                if relay_on_object_spec(s.config, o.src_chain_id(), o) {
                    assert(registry_contains(s.registry, o.src_chain_id()));
                    assert(registry_after(s.registry, o.src_chain_id()) == s.registry);
                    assert(registry_contains(s.registry, o.dst_chain_id()));
                }
            }
        }
        assert forall|i: int| 0 <= i < s1.workers.len() implies (
        if i < s.workers.len() {
            s1.workers[i] == s.workers[i]
        } else {
            s1.workers[i].object.src_chain_id() == id || s1.workers[i].object.dst_chain_id() == id
        }) by {
            if o.src_chain_id() == id || o.dst_chain_id() == id {
                if relay_on_object_spec(s.config, o.src_chain_id(), o) && !contains_object(
                    s.workers,
                    o,
                ) {
                    assert(s1.workers == s.workers.push(
                        WorkerV { object: o, inbox: Seq::empty() },
                    ));
                }
            }
        }
        assert forall|k: int|
            0 <= k < cands.drop_first().len() implies (cands.drop_first()[k].src_chain_id() == id
            || registry_contains(
            s1.registry,
            #[trigger] cands.drop_first()[k].src_chain_id(),
        )) && (cands.drop_first()[k].dst_chain_id() == id || registry_contains(
            s1.registry,
            cands.drop_first()[k].dst_chain_id(),
        )) by {
            assert(cands.drop_first()[k] == cands[k + 1]);
        }
        lemma_spawn_for_shape(s1, cands.drop_first(), id);
        let sf = spawn_list_for(s, cands, id);
        assert(sf == spawn_list_for(s1, cands.drop_first(), id));
        assert forall|i: int| 0 <= i < sf.workers.len() implies (
        if i < s.workers.len() {
            sf.workers[i] == s.workers[i]
        } else {
            sf.workers[i].object.src_chain_id() == id || sf.workers[i].object.dst_chain_id() == id
        }) by {
            if i < s1.workers.len() {
                assert(sf.workers[i] == s1.workers[i]);
            }
        }
    }
}

/// Removing an id that no handle carries changes nothing.
proof fn lemma_remove_handle_absent(chains: Seq<crate::handle::ChainHandleV>, id: Seq<char>)
    requires
        forall|i: int| 0 <= i < chains.len() ==> chains[i].id != id,
    ensures
        remove_handle_spec(chains, id) == chains,
    decreases chains.len(),
{
    if chains.len() > 0 {
        assert forall|i: int| 0 <= i < chains.drop_last().len() implies chains.drop_last()[i].id
            != id by {
            assert(chains.drop_last()[i] == chains[i]);
        }
        lemma_remove_handle_absent(chains.drop_last(), id);
        assert(remove_handle_spec(chains, id) =~= chains);
    } else {
        assert(remove_handle_spec(chains, id) =~= chains);
    }
}

/// Removing a chain's workers from a list none of which touch the
/// chain changes nothing.
proof fn lemma_remove_workers_absent(ws: Seq<WorkerV>, id: Seq<char>)
    requires
        forall|i: int|
            0 <= i < ws.len() ==> ws[i].object.src_chain_id() != id && ws[i].object.dst_chain_id()
                != id,
    ensures
        remove_chain_workers_spec(ws, id) == ws,
    decreases ws.len(),
{
    if ws.len() > 0 {
        assert forall|i: int|
            0 <= i < ws.drop_last().len() implies ws.drop_last()[i].object.src_chain_id() != id
            && ws.drop_last()[i].object.dst_chain_id() != id by {
            assert(ws.drop_last()[i] == ws[i]);
        }
        lemma_remove_workers_absent(ws.drop_last(), id);
        assert(remove_chain_workers_spec(ws, id) =~= ws);
    } else {
        assert(remove_chain_workers_spec(ws, id) =~= ws);
    }
}

/// `Add(c)` then `Remove(c.id)` restores the configuration, registry
/// and worker-map cardinalities, provided the chain was new and every
/// candidate's counterparty chain was already live.
pub proof fn law_add_remove_restores(s: SupervisorV, c: ChainConfigV, cands: Seq<ObjectV>)
    requires
        s.wf(),
        !s.config.has_chain(c.id),
        forall|k: int|
            0 <= k < cands.len() ==> (cands[k].src_chain_id() == c.id || registry_contains(
                s.registry,
                #[trigger] cands[k].src_chain_id(),
            )) && (cands[k].dst_chain_id() == c.id || registry_contains(
                s.registry,
                cands[k].dst_chain_id(),
            )),
    ensures
        ({
            let added = add_transition(s, c, true, cands).0;
            let removed = remove_transition(added, c.id).0;
            removed.config.chains.len() == s.config.chains.len() && removed.registry.len()
                == s.registry.len() && removed.workers.len() == s.workers.len()
        }),
{
    let cfg = crate::config::ConfigV {
        chains: s.config.chains.push(c),
        filter: s.config.filter,
        handshake_enabled: s.config.handshake_enabled,
    };
    assert(!registry_contains(s.registry, c.id)) by {
        if registry_contains(s.registry, c.id) {
            assert(s.config.has_chain(c.id));
        }
    }
    let r1 = s.registry.push(
        crate::handle::ChainHandleV { id: c.id, channel_clients: Seq::empty() },
    );
    let smid = SupervisorV { config: cfg, registry: r1, workers: s.workers };
    assert(registry_after(s.registry, c.id) == r1);
    assert(registry_contains(smid.registry, c.id)) by {
        assert(r1[r1.len() - 1].id == c.id);
    }
    assert forall|k: int|
        0 <= k < cands.len() implies (cands[k].src_chain_id() == c.id || registry_contains(
        smid.registry,
        #[trigger] cands[k].src_chain_id(),
    )) && (cands[k].dst_chain_id() == c.id || registry_contains(
        smid.registry,
        cands[k].dst_chain_id(),
    )) by {
        if registry_contains(s.registry, cands[k].src_chain_id()) {
            let i = choose|i: int|
                0 <= i < s.registry.len() && s.registry[i].id == cands[k].src_chain_id();
            assert(r1[i] == s.registry[i]);
        }
        if registry_contains(s.registry, cands[k].dst_chain_id()) {
            let i = choose|i: int|
                0 <= i < s.registry.len() && s.registry[i].id == cands[k].dst_chain_id();
            assert(r1[i] == s.registry[i]);
        }
    }
    lemma_spawn_for_shape(smid, cands, c.id);
    let added = add_transition(s, c, true, cands).0;
    assert(added == spawn_list_for(smid, cands, c.id));
    assert(added.config == cfg);
    assert(added.config.has_chain(c.id)) by {
        assert(cfg.chains.last().id == c.id);
    }
    let removed = remove_transition(added, c.id).0;

    assert(cfg.chains.drop_last() =~= s.config.chains);
    lemma_remove_chain_absent(s.config.chains, c.id);
    assert(removed.config.chains == s.config.chains);

    assert(r1.drop_last() =~= s.registry);
    lemma_remove_handle_absent(s.registry, c.id);
    assert(removed.registry == s.registry);

    lemma_remove_new_workers(added.workers, s.workers, c.id, s);
    assert(removed.workers == s.workers);
}

/// Removing a chain's workers from a list that extends untouched
/// workers by workers of that chain leaves exactly the untouched ones.
proof fn lemma_remove_new_workers(ws: Seq<WorkerV>, base: Seq<WorkerV>, id: Seq<char>, s: SupervisorV)
    requires
        s.wf(),
        base == s.workers,
        !registry_contains(s.registry, id),
        ws.len() >= base.len(),
        forall|i: int|
            0 <= i < ws.len() ==> (
            if i < base.len() {
                ws[i] == base[i]
            } else {
                ws[i].object.src_chain_id() == id || ws[i].object.dst_chain_id() == id
            }),
    ensures
        remove_chain_workers_spec(ws, id) == base,
    decreases ws.len(),
{
    if ws.len() > base.len() {
        assert(ws.last().object.src_chain_id() == id || ws.last().object.dst_chain_id() == id);
        assert forall|i: int| 0 <= i < ws.drop_last().len() implies (
        if i < base.len() {
            ws.drop_last()[i] == base[i]
        } else {
            ws.drop_last()[i].object.src_chain_id() == id || ws.drop_last()[i].object.dst_chain_id()
                == id
        }) by {
            assert(ws.drop_last()[i] == ws[i]);
        }
        lemma_remove_new_workers(ws.drop_last(), base, id, s);
    } else {
        assert(ws =~= base);
        assert forall|i: int|
            0 <= i < ws.len() implies ws[i].object.src_chain_id() != id
            && ws[i].object.dst_chain_id() != id by {
            assert(registry_contains(s.registry, s.workers[i].object.src_chain_id()));
            assert(registry_contains(s.registry, s.workers[i].object.dst_chain_id()));
        }
        lemma_remove_workers_absent(ws, id);
    }
}

/// Dispatching to one Object's worker leaves every other Object's
/// inbox and registration as they were.
proof fn lemma_deliver_other_untouched(
    ws: Seq<WorkerV>,
    t: ObjectV,
    height: crate::ids::Height,
    chain_id: Seq<char>,
    events: Seq<crate::events::IbcEventV>,
    o: ObjectV,
)
    requires
        workers_wf(ws),
        o != t,
    ensures
        contains_object(deliver_events(ws, t, height, chain_id, events), o) == contains_object(
            ws,
            o,
        ),
        inbox_of(deliver_events(ws, t, height, chain_id, events), o) == inbox_of(ws, o),
        workers_wf(deliver_events(ws, t, height, chain_id, events)),
{
    let ws1 = workers_after(ws, t);
    assert(workers_wf(ws1)) by {
        if !contains_object(ws, t) {
            assert forall|i: int, j: int| 0 <= i < j < ws1.len() implies ws1[i].object
                != ws1[j].object by {
                if j < ws1.len() - 1 {
                    assert(ws1[i] == ws[i]);
                    assert(ws1[j] == ws[j]);
                } else {
                    assert(ws1[i] == ws[i]);
                    assert(ws1[j].object == t);
                }
            }
        }
    }
    assert(contains_object(ws1, t)) by {
        if contains_object(ws, t) {
            let i = choose|i: int| 0 <= i < ws.len() && ws[i].object == t;
            assert(ws1[i].object == t);
        } else {
            assert(ws1[ws1.len() - 1].object == t);
        }
    }
    let ti = idx_of_object(ws1, t);
    assert(0 <= ti < ws1.len() && ws1[ti].object == t);
    let wd = deliver_events(ws, t, height, chain_id, events);
    assert forall|i: int, j: int| 0 <= i < j < wd.len() implies wd[i].object != wd[j].object by {
        assert(wd[i].object == ws1[i].object);
        assert(wd[j].object == ws1[j].object);
    }
    assert(contains_object(wd, o) == contains_object(ws, o)) by {
        if contains_object(ws, o) {
            let i = choose|i: int| 0 <= i < ws.len() && ws[i].object == o;
            assert(ws1[i].object == o);
            assert(wd[i].object == o);
        }
        if contains_object(wd, o) {
            let i = choose|i: int| 0 <= i < wd.len() && wd[i].object == o;
            assert(ws1[i].object == o);
            if i < ws.len() {
                assert(ws[i].object == o);
            } else {
                assert(ws1[i].object == t);
            }
        }
    }
    if contains_object(ws, o) {
        let oi = idx_of_object(ws, o);
        assert(0 <= oi < ws.len() && ws[oi].object == o);
        assert(ws1[oi].object == o);
        assert(oi != ti);
        assert(wd[oi] == ws1[oi]);
        assert(ws1[oi] == ws[oi]);
        let oi2 = idx_of_object(wd, o);
        assert(0 <= oi2 < wd.len() && wd[oi2].object == o);
        crate::worker::lemma_worker_unique_object(wd, oi, oi2);
        assert(inbox_of(wd, o) == wd[oi].inbox);
        assert(inbox_of(ws, o) == ws[oi].inbox);
    }
}

/// Dispatching to an Object's own worker appends exactly one input to
/// its inbox.
proof fn lemma_deliver_self(
    ws: Seq<WorkerV>,
    o: ObjectV,
    height: crate::ids::Height,
    chain_id: Seq<char>,
    events: Seq<crate::events::IbcEventV>,
)
    requires
        workers_wf(ws),
    ensures
        inbox_of(deliver_events(ws, o, height, chain_id, events), o) == inbox_of(ws, o).push(
            crate::worker::WorkerInputV::Events { height, chain_id, events },
        ),
{
    let ws1 = workers_after(ws, o);
    assert(workers_wf(ws1)) by {
        if !contains_object(ws, o) {
            assert forall|i: int, j: int| 0 <= i < j < ws1.len() implies ws1[i].object
                != ws1[j].object by {
                if j < ws1.len() - 1 {
                    assert(ws1[i] == ws[i]);
                    assert(ws1[j] == ws[j]);
                } else {
                    assert(ws1[i] == ws[i]);
                    assert(ws1[j].object == o);
                }
            }
        }
    }
    assert(contains_object(ws1, o)) by {
        if contains_object(ws, o) {
            let i = choose|i: int| 0 <= i < ws.len() && ws[i].object == o;
            assert(ws1[i].object == o);
        } else {
            assert(ws1[ws1.len() - 1].object == o);
        }
    }
    let ti = idx_of_object(ws1, o);
    assert(0 <= ti < ws1.len() && ws1[ti].object == o);
    assert(inbox_of(ws1, o) == inbox_of(ws, o)) by {
        if contains_object(ws, o) {
            let oi = idx_of_object(ws, o);
            assert(0 <= oi < ws.len() && ws[oi].object == o);
            assert(ws1[oi] == ws[oi]);
            crate::worker::lemma_worker_unique_object(ws1, oi, ti);
        } else {
            assert forall|i: int| 0 <= i < ws.len() implies ws[i].object != o by {}
            assert(ti == ws1.len() - 1) by {
                if ti < ws1.len() - 1 {
                    assert(ws1[ti] == ws[ti]);
                }
            }
            assert(ws1[ti].inbox == Seq::<crate::worker::WorkerInputV>::empty());
        }
    }
    let wd = deliver_events(ws, o, height, chain_id, events);
    assert(wd == ws1.update(
        ti,
        WorkerV {
            object: o,
            inbox: ws1[ti].inbox.push(
                crate::worker::WorkerInputV::Events { height, chain_id, events },
            ),
        },
    ));
    assert(contains_object(wd, o)) by {
        assert(wd[ti].object == o);
    }
    assert forall|i: int, j: int| 0 <= i < j < wd.len() implies wd[i].object != wd[j].object by {
        assert(wd[i].object == ws1[i].object);
        assert(wd[j].object == ws1[j].object);
    }
    let di = idx_of_object(wd, o);
    assert(0 <= di < wd.len() && wd[di].object == o);
    crate::worker::lemma_worker_unique_object(wd, di, ti);
    assert(inbox_of(wd, o) == wd[ti].inbox);
}

/// Folding an error-free dispatch over uniquely-keyed entries hands the
/// Object of each entry exactly that entry's events, as one input, and
/// leaves every other Object's inbox alone.
proof fn lemma_dispatch_inbox(
    s: SupervisorV,
    entries: Seq<ObjectEventsV>,
    src_id: Seq<char>,
    height: crate::ids::Height,
    chain_id: Seq<char>,
    o: ObjectV,
)
    requires
        s.wf(),
        forall|i: int, j: int| 0 <= i < j < entries.len() ==> entries[i].object != entries[j].object,
        relay_on_object_spec(s.config, src_id, o),
        dispatch_entries(s, entries, src_id, height, chain_id).1 is None,
    ensures
        ({
            let folded = dispatch_entries(s, entries, src_id, height, chain_id);
            match crate::classify::find_idx(entries, o) {
                Some(k) => inbox_of(folded.0.workers, o) == inbox_of(s.workers, o).push(
                    crate::worker::WorkerInputV::Events {
                        height,
                        chain_id,
                        events: entries[k].events,
                    },
                ),
                None => inbox_of(folded.0.workers, o) == inbox_of(s.workers, o),
            }
        }),
    decreases entries.len(),
{
    if entries.len() > 0 {
        let en = entries[0];
        let step = dispatch_entry(s, en, src_id, height, chain_id);
        assert(step.1 is None);
        let folded = dispatch_entries(s, entries, src_id, height, chain_id);
        assert(folded == dispatch_entries(step.0, entries.drop_first(), src_id, height, chain_id));
        assert forall|i: int, j: int|
            0 <= i < j < entries.drop_first().len() implies entries.drop_first()[i].object
            != entries.drop_first()[j].object by {
            assert(entries.drop_first()[i] == entries[i + 1]);
            assert(entries.drop_first()[j] == entries[j + 1]);
        }
        crate::classify::lemma_find_idx_char(entries, o);
        if !relay_on_object_spec(s.config, src_id, en.object) {
            assert(step.0 == s);
            assert(en.object != o);
            lemma_dispatch_inbox(s, entries.drop_first(), src_id, height, chain_id, o);
            lemma_find_idx_shift(entries, o);
        } else {
            crate::supervisor::lemma_dispatch_step_wf(s, en.object, height, chain_id, en.events);
            assert(step.0.workers == deliver_events(s.workers, en.object, height, chain_id, en.events));
            assert(step.0.config == s.config);
            assert(step.0.wf());
            lemma_dispatch_inbox(step.0, entries.drop_first(), src_id, height, chain_id, o);
            if en.object == o {
                lemma_deliver_self(s.workers, o, height, chain_id, en.events);
                assert(crate::classify::find_idx(entries, o) == Some(0int));
                assert(crate::classify::find_idx(entries.drop_first(), o) is None) by {
                    crate::classify::lemma_find_idx_char(entries.drop_first(), o);
                    match crate::classify::find_idx(entries.drop_first(), o) {
                        Some(k) => {
                            assert(entries.drop_first()[k] == entries[k + 1]);
                            assert(entries[k + 1].object != entries[0].object);
                        },
                        None => {},
                    }
                }
            } else {
                lemma_deliver_other_untouched(
                    s.workers,
                    en.object,
                    height,
                    chain_id,
                    en.events,
                    o,
                );
                lemma_find_idx_shift(entries, o);
            }
        }
    }
}

/// When the head entry is not the Object's, the Object's entry sits in
/// the tail exactly where the head-skipping index says.
proof fn lemma_find_idx_shift(entries: Seq<ObjectEventsV>, o: ObjectV)
    requires
        entries.len() > 0,
        entries[0].object != o,
    ensures
        match crate::classify::find_idx(entries, o) {
            Some(k) => 1 <= k < entries.len() && crate::classify::find_idx(
                entries.drop_first(),
                o,
            ) == Some(k - 1) && entries.drop_first()[k - 1] == entries[k],
            None => crate::classify::find_idx(entries.drop_first(), o) is None,
        },
{
    crate::classify::lemma_find_idx_char(entries, o);
    match crate::classify::find_idx(entries.drop_first(), o) {
        Some(k) => {
            assert(crate::classify::find_idx(entries, o) == Some(k + 1));
            assert(entries.drop_first()[k] == entries[k + 1]);
        },
        None => {
            assert(crate::classify::find_idx(entries, o) is None);
        },
    }
}

/// In an error-free dispatch of a collected batch, the worker of an
/// admitted Object receives exactly the batch's events for it — the
/// order-preserving subsequence the classifier selected — appended as
/// one input; an Object the batch holds nothing for is untouched.
pub proof fn law_batch_delivery(
    s: SupervisorV,
    events: Seq<crate::events::IbcEventV>,
    src: crate::handle::ChainHandleV,
    height: crate::ids::Height,
    chain_id: Seq<char>,
    o: ObjectV,
)
    requires
        s.wf(),
        relay_on_object_spec(s.config, src.id, o),
        dispatch_entries(
            s,
            crate::classify::collect_per_object(events, s.config.handshake_enabled, s.workers, src),
            src.id,
            height,
            chain_id,
        ).1 is None,
    ensures
        ({
            let d = crate::classify::delivered(
                events,
                s.config.handshake_enabled,
                s.workers,
                src,
                o,
            );
            let folded = dispatch_entries(
                s,
                crate::classify::collect_per_object(
                    events,
                    s.config.handshake_enabled,
                    s.workers,
                    src,
                ),
                src.id,
                height,
                chain_id,
            );
            if d.len() > 0 {
                inbox_of(folded.0.workers, o) == inbox_of(s.workers, o).push(
                    crate::worker::WorkerInputV::Events { height, chain_id, events: d },
                )
            } else {
                inbox_of(folded.0.workers, o) == inbox_of(s.workers, o)
            }
        }),
{
    let hs = s.config.handshake_enabled;
    let entries = crate::classify::collect_per_object(events, hs, s.workers, src);
    crate::classify::lemma_collect_entries_wf(events, hs, s.workers, src);
    crate::classify::lemma_collect_events_of(events, hs, s.workers, src, o);
    crate::classify::lemma_find_idx_char(entries, o);
    lemma_dispatch_inbox(s, entries, src.id, height, chain_id, o);
    let d = crate::classify::delivered(events, hs, s.workers, src, o);
    match crate::classify::find_idx(entries, o) {
        Some(k) => {
            assert(crate::classify::events_of(entries, o) == entries[k].events);
            assert(d == entries[k].events);
            assert(entries[k].events.len() > 0);
        },
        None => {
            assert(crate::classify::events_of(entries, o) == Seq::<
                crate::events::IbcEventV,
            >::empty());
            assert(d.len() == 0);
        },
    }
}

/// When the filter rejects an Object, a batch dispatch neither spawns
/// its worker nor hands it any event.
pub proof fn law_filtered_object_untouched(
    s: SupervisorV,
    entries: Seq<ObjectEventsV>,
    src_id: Seq<char>,
    height: crate::ids::Height,
    chain_id: Seq<char>,
    o: ObjectV,
)
    requires
        s.wf(),
        !relay_on_object_spec(s.config, src_id, o),
    ensures
        ({
            let folded = dispatch_entries(s, entries, src_id, height, chain_id);
            contains_object(folded.0.workers, o) == contains_object(s.workers, o) && inbox_of(
                folded.0.workers,
                o,
            ) == inbox_of(s.workers, o)
        }),
    decreases entries.len(),
{
    if entries.len() > 0 {
        let step = dispatch_entry(s, entries[0], src_id, height, chain_id);
        if step.1 is Some {
        } else {
            let en = entries[0];
            if !relay_on_object_spec(s.config, src_id, en.object) {
                law_filtered_object_untouched(s, entries.drop_first(), src_id, height, chain_id, o);
            } else {
                assert(en.object != o);
                let r1 = registry_after(s.registry, en.object.src_chain_id());
                let s1 = step.0;
                crate::supervisor::lemma_registry_after_wf_parts(s, en.object.src_chain_id());
                crate::supervisor::lemma_dispatch_step_wf(
                    s,
                    en.object,
                    height,
                    chain_id,
                    en.events,
                );
                lemma_deliver_other_untouched(s.workers, en.object, height, chain_id, en.events, o);
                assert(s1.config == s.config);
                law_filtered_object_untouched(
                    s1,
                    entries.drop_first(),
                    src_id,
                    height,
                    chain_id,
                    o,
                );
            }
        }
    }
}

} // verus!
