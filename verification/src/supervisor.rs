//! The supervisor: the state machine that classifies chain events and
//! dispatches them to per-Object workers.
//!
//! The embedding owns the channels, the chain runtimes and the polling
//! loop; it feeds batches, worker reports and commands into the methods
//! here and performs the I/O the results call for. Everything the
//! supervisor decides — classification, filtering, worker lifecycle,
//! registry bookkeeping — is verified in this module and its neighbours.

use vstd::prelude::*;

use crate::classify::{collect_per_object, event_targets, find_idx, last_new_block,
    lemma_find_idx_char, lemma_find_idx_first, push_event, push_targets, ObjectEventsV};
use crate::config::{find_chain_spec, Config, ConfigV};
use crate::errors::Error;
use crate::events::{EventBatch, IbcEvent, IbcEventV};
use crate::handle::{ChainHandle, ChainHandleV};
use crate::ids::{seq_view, ChainId, ChannelId, Height, PortId};
use crate::object::{Object, ObjectV};
use crate::registry::{registry_contains, Registry};
use crate::worker::{contains_object, workers_wf, WorkerMap, WorkerMsg, WorkerV};

verus! {

/// One Object together with the events collected for it.
#[derive(Debug)]
pub struct ObjectEvents {
    pub object: Object,
    pub events: Vec<IbcEvent>,
}

impl View for ObjectEvents {
    type V = ObjectEventsV;

    open spec fn view(&self) -> ObjectEventsV {
        ObjectEventsV { object: self.object@, events: seq_view(self.events@) }
    }
}

/// What the classifier extracted from one batch.
#[derive(Debug)]
pub struct CollectedEvents {
    /// The height at which the events were emitted.
    pub height: Height,
    /// The chain that emitted them.
    pub chain_id: ChainId,
    /// The batch's new-block event, if any; the last one wins.
    pub new_block: Option<IbcEvent>,
    /// The events keyed by the Object they concern; keys unique, entries
    /// in first-appearance order, events in batch order.
    pub per_object: Vec<ObjectEvents>,
}

/// Spec-level image of [`CollectedEvents`].
pub struct CollectedEventsV {
    pub height: Height,
    pub chain_id: Seq<char>,
    pub new_block: Option<IbcEventV>,
    pub per_object: Seq<ObjectEventsV>,
}

impl View for CollectedEvents {
    type V = CollectedEventsV;

    open spec fn view(&self) -> CollectedEventsV {
        CollectedEventsV {
            height: self.height,
            chain_id: self.chain_id@,
            new_block: match &self.new_block {
                Some(e) => Some(e@),
                None => None,
            },
            per_object: seq_view(self.per_object@),
        }
    }
}

impl CollectedEvents {
    pub fn new(height: Height, chain_id: ChainId) -> (r: Self)
        ensures
            r@.height == height,
            r@.chain_id == chain_id@,
            r@.new_block is None,
            r@.per_object == Seq::<ObjectEventsV>::empty(),
    {
        let r = CollectedEvents { height, chain_id, new_block: None, per_object: Vec::new() };
        proof {
            assert(seq_view(r.per_object@) =~= Seq::<ObjectEventsV>::empty());
        }
        r
    }

    /// Whether the batch carried a new-block event.
    pub fn has_new_block(&self) -> (r: bool)
        ensures
            r == (self@.new_block is Some),
    {
        self.new_block.is_some()
    }
}

/// Hand one event to one Object of the collection under construction.
fn push_into(per_object: &mut Vec<ObjectEvents>, o: Object, e: IbcEvent)
    ensures
        seq_view(final(per_object)@) == push_event(seq_view(old(per_object)@), o@, e@),
{
    let ghost m = seq_view(per_object@);
    let mut i: usize = 0;
    while i < per_object.len()
        invariant
            i <= per_object.len(),
            per_object == old(per_object),
            m == seq_view(per_object@),
            forall|j: int| 0 <= j < i as int ==> m[j].object != o@,
        decreases per_object.len() - i,
    {
        if per_object[i].object.same(&o) {
            proof {
                assert(m[i as int].object == o@);
                lemma_find_idx_first(m, o@, i as int);
            }
            let mut entry = per_object.remove(i);
            entry.events.push(e);
            per_object.insert(i, entry);
            proof {
                assert(seq_view(entry.events@) =~= m[i as int].events.push(e@));
                assert(seq_view(per_object@) =~= m.update(
                    i as int,
                    ObjectEventsV { object: o@, events: m[i as int].events.push(e@) },
                ));
            }
            return ;
        }
        i = i + 1;
    }
    proof {
        lemma_find_idx_char(m, o@);
        assert(find_idx(m, o@) is None) by {
            match find_idx(m, o@) {
                Some(k) => {
                    assert(m[k].object == o@);
                },
                None => {},
            }
        }
    }
    let entry = ObjectEvents { object: o, events: vec![e] };
    proof {
        assert(seq_view(entry.events@) =~= seq![entry.events@[0]@]);
    }
    per_object.push(entry);
    proof {
        assert(seq_view(per_object@) =~= m.push(
            ObjectEventsV { object: per_object@.last().object@, events: seq_view(per_object@.last().events@) },
        ));
    }
}

/// The supervisor's whole state: configuration, live chains, live
/// workers.
#[derive(Debug)]
pub struct Supervisor {
    pub config: Config,
    pub registry: Registry,
    pub workers: WorkerMap,
}

/// Spec-level image of [`Supervisor`].
pub struct SupervisorV {
    pub config: ConfigV,
    pub registry: Seq<ChainHandleV>,
    pub workers: Seq<WorkerV>,
}

impl View for Supervisor {
    type V = SupervisorV;

    open spec fn view(&self) -> SupervisorV {
        SupervisorV { config: self.config@, registry: self.registry@, workers: self.workers@ }
    }
}

impl SupervisorV {
    /// The supervisor's standing invariants: unique configuration ids,
    /// unique registry ids, workers keyed uniquely; every chain a live
    /// worker reads from or writes to is live in the registry; every
    /// live chain is configured.
    pub open spec fn wf(self) -> bool {
        &&& self.config.wf()
        &&& (forall|i: int, j: int|
            0 <= i < j < self.registry.len() ==> self.registry[i].id != self.registry[j].id)
        &&& workers_wf(self.workers)
        &&& (forall|i: int|
            0 <= i < self.workers.len() ==> registry_contains(
                self.registry,
                #[trigger] self.workers[i].object.src_chain_id(),
            ) && registry_contains(self.registry, self.workers[i].object.dst_chain_id()))
        &&& (forall|id: Seq<char>|
            #[trigger] registry_contains(self.registry, id) ==> self.config.has_chain(id))
    }
}

/// Whether work on the channel end `(port, channel)` of the given chain
/// is admitted: always, unless the global filter is on and the chain's
/// allow-list omits the pair.
pub open spec fn relay_on_channel_spec(
    c: ConfigV,
    chain_id: Seq<char>,
    port: Seq<char>,
    channel: Seq<char>,
) -> bool {
    !c.filter || match find_chain_spec(c.chains, chain_id) {
        Some(cc) => cc.filter_contains(port, channel),
        None => false,
    }
}

/// Whether events for the Object, read from the given chain, are
/// relayed: client and connection Objects always are; channel and
/// packet Objects go through the channel filter.
pub open spec fn relay_on_object_spec(c: ConfigV, chain_id: Seq<char>, o: ObjectV) -> bool {
    if !c.filter {
        true
    } else {
        match o {
            ObjectV::Client { .. } => true,
            ObjectV::Connection { .. } => true,
            ObjectV::Channel { src_port_id, src_channel_id, .. } => relay_on_channel_spec(
                c,
                chain_id,
                src_port_id,
                src_channel_id,
            ),
            ObjectV::Packet { src_port_id, src_channel_id, .. } => relay_on_channel_spec(
                c,
                chain_id,
                src_port_id,
                src_channel_id,
            ),
        }
    }
}

impl Supervisor {
    /// A supervisor over the given configuration, with no chains spawned
    /// and no workers yet.
    pub fn new(config: Config) -> (r: Supervisor)
        requires
            config@.wf(),
        ensures
            r@.config == config@,
            r@.registry == Seq::<ChainHandleV>::empty(),
            r@.workers == Seq::<WorkerV>::empty(),
            r@.wf(),
    {
        Supervisor { config, registry: Registry::new(), workers: WorkerMap::new() }
    }

    /// Whether work on the channel end is admitted; see
    /// [`relay_on_channel_spec`].
    pub fn relay_on_channel(&self, chain_id: &ChainId, port_id: &PortId, channel_id: &ChannelId)
        -> (r: bool)
        ensures
            r == relay_on_channel_spec(self@.config, chain_id@, port_id@, channel_id@),
    {
        if !self.config.filter {
            return true;
        }
        match self.config.find_chain(chain_id) {
            Some(chain_config) => chain_config.filter_contains(port_id, channel_id),
            None => false,
        }
    }

    /// Whether the Object's events are relayed; see
    /// [`relay_on_object_spec`].
    pub fn relay_on_object(&self, chain_id: &ChainId, object: &Object) -> (r: bool)
        ensures
            r == relay_on_object_spec(self@.config, chain_id@, object@),
    {
        if !self.config.filter {
            return true;
        }
        match object {
            Object::Client { .. } => true,
            Object::Connection { .. } => true,
            Object::Channel { src_port_id, src_channel_id, .. } => self.relay_on_channel(
                chain_id,
                src_port_id,
                src_channel_id,
            ),
            Object::Packet { src_port_id, src_channel_id, .. } => self.relay_on_channel(
                chain_id,
                src_port_id,
                src_channel_id,
            ),
        }
    }

    /// Remove the worker a stop report names.
    pub fn handle_worker_msg(&mut self, msg: WorkerMsg)
        requires
            old(self)@.wf(),
        ensures
            final(self)@.wf(),
            final(self)@.config == old(self)@.config,
            final(self)@.registry == old(self)@.registry,
            msg@ matches crate::worker::WorkerMsgV::Stopped(o) ==> final(self)@.workers
                == crate::worker::remove_object_spec(old(self)@.workers, o),
    {
        match msg {
            WorkerMsg::Stopped(object) => {
                self.workers.remove_stopped(&object);
                proof {
                    crate::worker::lemma_remove_object_elements(old(self)@.workers, object@);
                    assert forall|i: int| 0 <= i < self@.workers.len() implies registry_contains(
                        self@.registry,
                        #[trigger] self@.workers[i].object.src_chain_id(),
                    ) && registry_contains(
                        self@.registry,
                        self@.workers[i].object.dst_chain_id(),
                    ) by {
                        assert(self@.workers.contains(self@.workers[i]));
                        assert(old(self)@.workers.contains(self@.workers[i]));
                        let k = choose|k: int|
                            0 <= k < old(self)@.workers.len() && old(self)@.workers[k]
                                == self@.workers[i];
                        assert(registry_contains(
                            old(self)@.registry,
                            old(self)@.workers[k].object.src_chain_id(),
                        ));
                        assert(registry_contains(
                            old(self)@.registry,
                            old(self)@.workers[k].object.dst_chain_id(),
                        ));
                        assert(self@.registry == old(self)@.registry);
                    }
                }
            },
        }
    }

    /// Collect the events of one batch, keyed by Object.
    ///
    /// Pure: the result is a function of the batch, the source handle,
    /// the handshake flag and the worker map alone.
    pub fn collect_events(&self, src_chain: &ChainHandle, batch: EventBatch) -> (r: CollectedEvents)
        ensures
            r@.height == batch@.height,
            r@.chain_id == batch@.chain_id,
            r@.new_block == last_new_block(batch@.events),
            r@.per_object == collect_per_object(
                batch@.events,
                self@.config.handshake_enabled,
                self@.workers,
                src_chain@,
            ),
    {
        let ghost eventsv = seq_view(batch.events@);
        let ghost hs = self@.config.handshake_enabled;
        let ghost ws = self@.workers;
        let ghost srcv = src_chain@;

        let handshake_enabled = self.config.handshake_enabled();
        let mut new_block: Option<IbcEvent> = None;
        let mut per_object: Vec<ObjectEvents> = Vec::new();

        proof {
            assert(eventsv.take(0) =~= Seq::<IbcEventV>::empty());
            assert(seq_view(per_object@) =~= Seq::<ObjectEventsV>::empty());
        }

        let mut i: usize = 0;
        while i < batch.events.len()
            invariant
                i <= batch.events.len(),
                eventsv == seq_view(batch.events@),
                eventsv.len() == batch.events@.len(),
                handshake_enabled == hs,
                ws == self@.workers,
                srcv == src_chain@,
                seq_view(per_object@) == collect_per_object(eventsv.take(i as int), hs, ws, srcv),
                match new_block {
                    Some(e) => last_new_block(eventsv.take(i as int)) == Some(e@),
                    None => last_new_block(eventsv.take(i as int)) is None,
                },
            decreases batch.events.len() - i,
        {
            let ghost prefix = eventsv.take(i as int + 1);
            let ghost m0 = seq_view(per_object@);
            let ghost ev = eventsv[i as int];
            let ghost ts = event_targets(ev, hs, ws, srcv);
            proof {
                assert(prefix.drop_last() =~= eventsv.take(i as int));
                assert(prefix.last() == ev);
            }
            let event = &batch.events[i];
            proof {
                assert(event@ == ev);
            }
            match event {
                IbcEvent::NewBlock(_) => {
                    new_block = Some(event.clone());
                    proof {
                        assert(ts =~= Seq::<ObjectV>::empty());
                        assert(last_new_block(prefix) == Some(ev));
                    }
                },
                IbcEvent::UpdateClient(update) => {
                    match Object::for_update_client(update, src_chain) {
                        Ok(object) => {
                            if self.workers.contains(&object) {
                                proof {
                                    assert(ts =~= seq![object@]);
                                }
                                let ghost t0 = object@;
                                push_into(&mut per_object, object, event.clone());
                                proof {
                                    lemma_push_one(m0, t0, ev);
                                }
                            } else {
                                proof {
                                    assert(ts =~= Seq::<ObjectV>::empty());
                                }
                            }
                        },
                        Err(_) => {},
                    }
                },
                IbcEvent::OpenInitConnection(attrs) => {
                    if handshake_enabled {
                        match Object::connection_from_conn_open_events(attrs, src_chain) {
                            Ok(object) => {
                                proof {
                                    assert(ts =~= seq![object@]);
                                }
                                let ghost t0 = object@;
                                push_into(&mut per_object, object, event.clone());
                                proof {
                                    lemma_push_one(m0, t0, ev);
                                }
                            },
                            Err(_) => {
                                proof {
                                    assert(ts =~= Seq::<ObjectV>::empty());
                                }
                            },
                        }
                    } else {
                        proof {
                            assert(ts =~= Seq::<ObjectV>::empty());
                        }
                    }
                },
                IbcEvent::OpenTryConnection(attrs) => {
                    if handshake_enabled {
                        match Object::connection_from_conn_open_events(attrs, src_chain) {
                            Ok(object) => {
                                proof {
                                    assert(ts =~= seq![object@]);
                                }
                                let ghost t0 = object@;
                                push_into(&mut per_object, object, event.clone());
                                proof {
                                    lemma_push_one(m0, t0, ev);
                                }
                            },
                            Err(_) => {
                                proof {
                                    assert(ts =~= Seq::<ObjectV>::empty());
                                }
                            },
                        }
                    } else {
                        proof {
                            assert(ts =~= Seq::<ObjectV>::empty());
                        }
                    }
                },
                IbcEvent::OpenAckConnection(attrs) => {
                    if handshake_enabled {
                        match Object::connection_from_conn_open_events(attrs, src_chain) {
                            Ok(object) => {
                                proof {
                                    assert(ts =~= seq![object@]);
                                }
                                let ghost t0 = object@;
                                push_into(&mut per_object, object, event.clone());
                                proof {
                                    lemma_push_one(m0, t0, ev);
                                }
                            },
                            Err(_) => {
                                proof {
                                    assert(ts =~= Seq::<ObjectV>::empty());
                                }
                            },
                        }
                    } else {
                        proof {
                            assert(ts =~= Seq::<ObjectV>::empty());
                        }
                    }
                },
                IbcEvent::OpenInitChannel(attrs) => {
                    if handshake_enabled {
                        match Object::channel_from_chan_open_events(attrs, src_chain) {
                            Ok(object) => {
                                proof {
                                    assert(ts =~= seq![object@]);
                                }
                                let ghost t0 = object@;
                                push_into(&mut per_object, object, event.clone());
                                proof {
                                    lemma_push_one(m0, t0, ev);
                                }
                            },
                            Err(_) => {
                                proof {
                                    assert(ts =~= Seq::<ObjectV>::empty());
                                }
                            },
                        }
                    } else {
                        proof {
                            assert(ts =~= Seq::<ObjectV>::empty());
                        }
                    }
                },
                IbcEvent::OpenTryChannel(attrs) => {
                    if handshake_enabled {
                        match Object::channel_from_chan_open_events(attrs, src_chain) {
                            Ok(object) => {
                                proof {
                                    assert(ts =~= seq![object@]);
                                }
                                let ghost t0 = object@;
                                push_into(&mut per_object, object, event.clone());
                                proof {
                                    lemma_push_one(m0, t0, ev);
                                }
                            },
                            Err(_) => {
                                proof {
                                    assert(ts =~= Seq::<ObjectV>::empty());
                                }
                            },
                        }
                    } else {
                        proof {
                            assert(ts =~= Seq::<ObjectV>::empty());
                        }
                    }
                },
                IbcEvent::OpenAckChannel(attrs) => {
                    let ghost mid0 = seq_view(per_object@);
                    match Object::client_from_chan_open_events(attrs, src_chain) {
                        Ok(client_object) => {
                            push_into(&mut per_object, client_object, event.clone());
                        },
                        Err(_) => {},
                    }
                    let ghost mid1 = seq_view(per_object@);
                    match Object::packet_from_chan_open_events(attrs, src_chain) {
                        Ok(packet_object) => {
                            push_into(&mut per_object, packet_object, event.clone());
                        },
                        Err(_) => {},
                    }
                    let ghost mid2 = seq_view(per_object@);
                    if handshake_enabled {
                        match Object::channel_from_chan_open_events(attrs, src_chain) {
                            Ok(channel_object) => {
                                push_into(&mut per_object, channel_object, event.clone());
                            },
                            Err(_) => {},
                        }
                    }
                    proof {
                        let c = crate::object::client_object_spec(attrs@, srcv);
                        let p = crate::object::packet_object_spec(attrs@, srcv);
                        let ch = if hs {
                            crate::classify::opt_seq(crate::object::channel_object_spec(attrs@, srcv))
                        } else {
                            Seq::<ObjectV>::empty()
                        };
                        assert(ts == crate::classify::opt_seq(c) + crate::classify::opt_seq(p)
                            + ch);
                        crate::classify::lemma_push_targets_add(
                            m0,
                            crate::classify::opt_seq(c) + crate::classify::opt_seq(p),
                            ch,
                            ev,
                        );
                        crate::classify::lemma_push_targets_add(
                            m0,
                            crate::classify::opt_seq(c),
                            crate::classify::opt_seq(p),
                            ev,
                        );
                        lemma_push_opt(m0, c, ev);
                        assert(mid1 == push_targets(m0, crate::classify::opt_seq(c), ev));
                        lemma_push_opt(mid1, p, ev);
                        assert(mid2 == push_targets(mid1, crate::classify::opt_seq(p), ev));
                        if hs {
                            lemma_push_opt(
                                mid2,
                                crate::object::channel_object_spec(attrs@, srcv),
                                ev,
                            );
                        }
                        assert(seq_view(per_object@) == push_targets(mid2, ch, ev));
                        assert(seq_view(per_object@) == push_targets(m0, ts, ev));
                    }
                },
                IbcEvent::OpenConfirmChannel(attrs) => {
                    match Object::client_from_chan_open_events(attrs, src_chain) {
                        Ok(client_object) => {
                            push_into(&mut per_object, client_object, event.clone());
                        },
                        Err(_) => {},
                    }
                    let ghost mid1 = seq_view(per_object@);
                    match Object::packet_from_chan_open_events(attrs, src_chain) {
                        Ok(packet_object) => {
                            push_into(&mut per_object, packet_object, event.clone());
                        },
                        Err(_) => {},
                    }
                    proof {
                        let c = crate::object::client_object_spec(attrs@, srcv);
                        let p = crate::object::packet_object_spec(attrs@, srcv);
                        assert(ts == crate::classify::opt_seq(c) + crate::classify::opt_seq(p));
                        crate::classify::lemma_push_targets_add(
                            m0,
                            crate::classify::opt_seq(c),
                            crate::classify::opt_seq(p),
                            ev,
                        );
                        lemma_push_opt(m0, c, ev);
                        assert(mid1 == push_targets(m0, crate::classify::opt_seq(c), ev));
                        lemma_push_opt(mid1, p, ev);
                        assert(seq_view(per_object@) == push_targets(m0, ts, ev));
                    }
                },
                IbcEvent::SendPacket(packet) => {
                    match Object::for_send_packet(packet, src_chain) {
                        Ok(object) => {
                            proof {
                                assert(ts =~= seq![object@]);
                            }
                            let ghost t0 = object@;
                            push_into(&mut per_object, object, event.clone());
                            proof {
                                lemma_push_one(m0, t0, ev);
                            }
                        },
                        Err(_) => {
                            proof {
                                assert(ts =~= Seq::<ObjectV>::empty());
                            }
                        },
                    }
                },
                IbcEvent::TimeoutPacket(packet) => {
                    match Object::for_timeout_packet(packet, src_chain) {
                        Ok(object) => {
                            proof {
                                assert(ts =~= seq![object@]);
                            }
                            let ghost t0 = object@;
                            push_into(&mut per_object, object, event.clone());
                            proof {
                                lemma_push_one(m0, t0, ev);
                            }
                        },
                        Err(_) => {
                            proof {
                                assert(ts =~= Seq::<ObjectV>::empty());
                            }
                        },
                    }
                },
                IbcEvent::WriteAcknowledgement(packet) => {
                    match Object::for_write_ack(packet, src_chain) {
                        Ok(object) => {
                            proof {
                                assert(ts =~= seq![object@]);
                            }
                            let ghost t0 = object@;
                            push_into(&mut per_object, object, event.clone());
                            proof {
                                lemma_push_one(m0, t0, ev);
                            }
                        },
                        Err(_) => {
                            proof {
                                assert(ts =~= Seq::<ObjectV>::empty());
                            }
                        },
                    }
                },
                IbcEvent::CloseInitChannel(attrs) => {
                    match Object::for_close_init_channel(attrs, src_chain) {
                        Ok(object) => {
                            proof {
                                assert(ts =~= seq![object@]);
                            }
                            let ghost t0 = object@;
                            push_into(&mut per_object, object, event.clone());
                            proof {
                                lemma_push_one(m0, t0, ev);
                            }
                        },
                        Err(_) => {
                            proof {
                                assert(ts =~= Seq::<ObjectV>::empty());
                            }
                        },
                    }
                },
                IbcEvent::Other => {
                    proof {
                        assert(ts =~= Seq::<ObjectV>::empty());
                    }
                },
            }
            proof {
                assert(collect_per_object(prefix, hs, ws, srcv) == push_targets(m0, ts, ev));
            }
            i = i + 1;
        }
        proof {
            assert(eventsv.take(i as int) =~= eventsv);
        }
        CollectedEvents { height: batch.height, chain_id: batch.chain_id, new_block, per_object }
    }

    /// Process one batch of events read from `src_chain`: classify,
    /// filter, dispatch to workers (spawning chains and workers on
    /// demand), then fan the batch's new-block notice out to every
    /// worker reading from the chain. Fails with `ChainConfigNotFound`
    /// exactly when some admitted Object names a chain that is neither
    /// live nor configured; the batch is abandoned at that point.
    pub fn process_batch(&mut self, src_chain: &ChainHandle, batch: EventBatch) -> (r: Result<
        (),
        Error,
    >)
        requires
            old(self)@.wf(),
            batch.chain_id@ == src_chain@.id,
        ensures
            final(self)@.wf(),
            final(self)@.config == old(self)@.config,
            ({
                let entries = collect_per_object(
                    batch@.events,
                    old(self)@.config.handshake_enabled,
                    old(self)@.workers,
                    src_chain@,
                );
                let folded = dispatch_entries(
                    old(self)@,
                    entries,
                    src_chain@.id,
                    batch@.height,
                    batch@.chain_id,
                );
                match r {
                    Ok(()) => folded.1 is None && final(self)@ == (
                    match last_new_block(batch@.events) {
                        Some(_) => SupervisorV {
                            config: folded.0.config,
                            registry: folded.0.registry,
                            workers: fanout_new_block(
                                folded.0.workers,
                                src_chain@.id,
                                batch@.height,
                            ),
                        },
                        None => folded.0,
                    }),
                    Err(e) => final(self)@ == folded.0 && (e matches Error::ChainConfigNotFound(c)
                        && folded.1 == Some(c@)),
                }
            }),
    {
        let ghost oldv = old(self)@;
        let ghost src_id = src_chain@.id;
        let ghost heightv = batch.height;
        let ghost cidv = batch.chain_id@;

        let height = batch.height;
        let chain_id = batch.chain_id.clone();

        let collected = self.collect_events(src_chain, batch);
        let ghost entries = collected@.per_object;

        let CollectedEvents { new_block, per_object, .. } = collected;
        let mut rest = per_object;
        proof {
            assert(seq_view(rest@) == entries);
        }
        while rest.len() > 0
            invariant
                oldv == old(self)@,
                self@.config == oldv.config,
                self@.wf(),
                src_id == src_chain@.id,
                chain_id@ == cidv,
                height == heightv,
                heightv == batch@.height,
                cidv == batch@.chain_id,
                entries == collect_per_object(
                    batch@.events,
                    old(self)@.config.handshake_enabled,
                    old(self)@.workers,
                    src_chain@,
                ),
                seq_view(rest@).len() == rest@.len(),
                dispatch_entries(oldv, entries, src_id, heightv, cidv) == dispatch_entries(
                    self@,
                    seq_view(rest@),
                    src_id,
                    heightv,
                    cidv,
                ),
            decreases rest.len(),
        {
            let ghost restv = seq_view(rest@);
            let ghost statev = self@;
            let entry = rest.remove(0);
            proof {
                assert(entry@ == restv[0]);
                assert(seq_view(rest@) =~= restv.drop_first());
            }
            let ObjectEvents { object, events } = entry;
            let ghost ov = object@;
            let ghost stepv = dispatch_entry(statev, restv[0], src_id, heightv, cidv);
            if self.relay_on_object(src_chain.id(), &object) {
                let src = match self.registry.get_or_spawn(object.src_chain_id(), &self.config) {
                    Ok(h) => h,
                    Err(e) => {
                        proof {
                            assert(stepv == (statev, Some(ov.src_chain_id())));
                            assert(dispatch_entries(oldv, entries, src_id, heightv, cidv)
                                == stepv);
                        }
                        return Err(e);
                    },
                };
                proof {
                    assert(self@.registry == registry_after(statev.registry, ov.src_chain_id()));
                    lemma_registry_after_wf_parts(statev, ov.src_chain_id());
                }
                let ghost statev1 = self@;
                let dst = match self.registry.get_or_spawn(object.dst_chain_id(), &self.config) {
                    Ok(h) => h,
                    Err(e) => {
                        proof {
                            assert(stepv == (
                                SupervisorV {
                                    config: statev.config,
                                    registry: registry_after(statev.registry, ov.src_chain_id()),
                                    workers: statev.workers,
                                },
                                Some(ov.dst_chain_id()),
                            ));
                            assert(dispatch_entries(oldv, entries, src_id, heightv, cidv)
                                == stepv);
                            assert(self@ == stepv.0);
                        }
                        return Err(e);
                    },
                };
                proof {
                    assert(self@.registry == registry_after(statev1.registry, ov.dst_chain_id()));
                    lemma_registry_after_wf_parts(statev1, ov.dst_chain_id());
                }
                let ghost ws0 = self@.workers;
                let idx = self.workers.get_or_spawn(object, &src, &dst);
                let ghost ws1 = self@.workers;
                self.workers.send_events(idx, height, chain_id.clone(), events);
                proof {
                    assert(ws1 == if contains_object(ws0, ov) {
                        ws0
                    } else {
                        ws0.push(WorkerV { object: ov, inbox: Seq::empty() })
                    });
                    let i = idx_of_object(ws1, ov);
                    assert(ws1[idx as int].object == ov);
                    assert(0 <= i < ws1.len() && ws1[i].object == ov);
                    crate::worker::lemma_worker_unique_object(ws1, i, idx as int);
                    assert(self@.workers == deliver_events(ws0, ov, heightv, cidv, restv[0].events));
                    assert(stepv.1 is None);
                    assert(stepv.0 == self@);
                    lemma_dispatch_step_wf(statev, ov, heightv, cidv, restv[0].events);
                    assert(self@.wf());
                }
            } else {
                proof {
                    assert(stepv == (statev, None::<Seq<char>>));
                }
            }
            proof {
                assert(dispatch_entries(statev, restv, src_id, heightv, cidv) == (
                if stepv.1 is Some {
                    stepv
                } else {
                    dispatch_entries(stepv.0, restv.drop_first(), src_id, heightv, cidv)
                }));
            }
        }
        proof {
            assert(seq_view(rest@) =~= Seq::<ObjectEventsV>::empty());
            assert(dispatch_entries(oldv, entries, src_id, heightv, cidv) == (
                self@,
                None::<Seq<char>>,
            ));
        }
        let ghost s1 = self@;
        match &new_block {
            Some(_) => {
                let idxs = self.workers.to_notify(src_chain.id());
                let ghost ws0 = self@.workers;
                proof {
                    vstd::std_specs::vec::axiom_spec_len(&self.workers.workers);
                    assert(ws0.len() <= usize::MAX);
                    assert forall|i: int|
                        0 <= i < ws0.len() && ws0[i].object.src_chain_id()
                            == src_id implies exists|t: int|
                        0 <= t < idxs@.len() && idxs@[t] as int == i by {
                        assert(idxs@.contains(i as usize));
                        let t = choose|t: int| 0 <= t < idxs@.len() && idxs@[t] == i as usize;
                        assert(idxs@[t] as int == i);
                    }
                }
                let mut k: usize = 0;
                while k < idxs.len()
                    invariant
                        k <= idxs.len(),
                        height == heightv,
                        self@.config == s1.config,
                        self@.registry == s1.registry,
                        self@.workers.len() == ws0.len(),
                        forall|t: int|
                            0 <= t < idxs@.len() ==> (idxs@[t] as int) < ws0.len() && ws0[idxs@[t] as int].object.src_chain_id()
                                == src_id,
                        forall|i: int|
                            0 <= i < ws0.len() && ws0[i].object.src_chain_id() == src_id
                                ==> exists|t: int| 0 <= t < idxs@.len() && idxs@[t] as int == i,
                        forall|t: int, u: int| 0 <= t < u < idxs@.len() ==> idxs@[t] < idxs@[u],
                        forall|i: int|
                            0 <= i < ws0.len() ==> self@.workers[i] == (
                            if exists|t: int| 0 <= t < k as int && idxs@[t] as int == i {
                                WorkerV {
                                    object: ws0[i].object,
                                    inbox: ws0[i].inbox.push(
                                        crate::worker::WorkerInputV::NewBlock { height: heightv },
                                    ),
                                }
                            } else {
                                ws0[i]
                            }),
                    decreases idxs.len() - k,
                {
                    let ghost wsk = self@.workers;
                    let target = idxs[k];
                    proof {
                        assert((idxs@[k as int] as int) < ws0.len());
                        assert(!(exists|t: int|
                            0 <= t < k as int && idxs@[t] as int == target as int)) by {
                            if exists|t: int|
                                0 <= t < k as int && idxs@[t] as int == target as int {
                                let t = choose|t: int|
                                    0 <= t < k as int && idxs@[t] as int == target as int;
                                assert(idxs@[t] < idxs@[k as int]);
                            }
                        }
                        assert(wsk[target as int] == ws0[target as int]);
                    }
                    self.workers.send_new_block(target, height);
                    proof {
                        assert forall|i: int| 0 <= i < ws0.len() implies self@.workers[i] == (
                        if exists|t: int| 0 <= t < k as int + 1 && idxs@[t] as int == i {
                            WorkerV {
                                object: ws0[i].object,
                                inbox: ws0[i].inbox.push(
                                    crate::worker::WorkerInputV::NewBlock { height: heightv },
                                ),
                            }
                        } else {
                            ws0[i]
                        }) by {
                            if i == target as int {
                                assert(idxs@[k as int] as int == i);
                                assert(exists|t: int|
                                    0 <= t < k as int + 1 && idxs@[t] as int == i);
                                assert(self@.workers[i] == WorkerV {
                                    object: wsk[i].object,
                                    inbox: wsk[i].inbox.push(
                                        crate::worker::WorkerInputV::NewBlock { height: heightv },
                                    ),
                                });
                            } else {
                                assert(self@.workers[i] == wsk[i]);
                                if exists|t: int| 0 <= t < k as int + 1 && idxs@[t] as int == i {
                                    let t = choose|t: int|
                                        0 <= t < k as int + 1 && idxs@[t] as int == i;
                                    assert(t != k as int);
                                    assert(exists|t2: int|
                                        0 <= t2 < k as int && idxs@[t2] as int == i);
                                } else {
                                    assert(!(exists|t: int|
                                        0 <= t < k as int && idxs@[t] as int == i));
                                }
                            }
                        }
                    }
                    k = k + 1;
                }
                proof {
                    assert forall|i: int|
                        0 <= i < ws0.len() implies self@.workers[i] == fanout_new_block(
                        ws0,
                        src_id,
                        heightv,
                    )[i] by {
                        if ws0[i].object.src_chain_id() == src_id {
                            assert(exists|t: int|
                                0 <= t < idxs@.len() && idxs@[t] as int == i);
                        } else {
                            if exists|t: int| 0 <= t < idxs@.len() && idxs@[t] as int == i {
                                let t = choose|t: int|
                                    0 <= t < idxs@.len() && idxs@[t] as int == i;
                                assert(ws0[idxs@[t] as int].object.src_chain_id() == src_id);
                            }
                        }
                    }
                    assert(self@.workers =~= fanout_new_block(ws0, src_id, heightv));
                    lemma_fanout_wf_parts(s1, self@, src_id, heightv);
                }
            },
            None => {},
        }
        Ok(())
    }
}

/// Registry after a get-or-spawn of one configured chain id: unchanged
/// if the chain is live, extended by a fresh handle otherwise.
pub open spec fn registry_after(r: Seq<ChainHandleV>, id: Seq<char>) -> Seq<ChainHandleV> {
    if registry_contains(r, id) {
        r
    } else {
        r.push(ChainHandleV { id, channel_clients: Seq::empty() })
    }
}

/// The index of the Object's worker; meaningful under `workers_wf` when
/// the Object is registered.
pub open spec fn idx_of_object(ws: Seq<WorkerV>, o: ObjectV) -> int {
    choose|i: int| 0 <= i < ws.len() && ws[i].object == o
}

/// Workers after one entry's events are dispatched to its Object's
/// worker, spawning the worker first if none is live.
pub open spec fn deliver_events(
    ws: Seq<WorkerV>,
    o: ObjectV,
    height: Height,
    chain_id: Seq<char>,
    events: Seq<IbcEventV>,
) -> Seq<WorkerV> {
    let ws1 = if contains_object(ws, o) {
        ws
    } else {
        ws.push(WorkerV { object: o, inbox: Seq::empty() })
    };
    let i = idx_of_object(ws1, o);
    ws1.update(
        i,
        WorkerV {
            object: o,
            inbox: ws1[i].inbox.push(
                crate::worker::WorkerInputV::Events { height, chain_id, events },
            ),
        },
    )
}

/// Outcome of dispatching one collected entry: the next state, and the
/// chain id that could not be resolved, if any.
pub open spec fn dispatch_entry(
    s: SupervisorV,
    en: ObjectEventsV,
    src_id: Seq<char>,
    height: Height,
    chain_id: Seq<char>,
) -> (SupervisorV, Option<Seq<char>>) {
    if !relay_on_object_spec(s.config, src_id, en.object) {
        (s, None)
    } else {
        let sid = en.object.src_chain_id();
        let did = en.object.dst_chain_id();
        if !registry_contains(s.registry, sid) && !s.config.has_chain(sid) {
            (s, Some(sid))
        } else {
            let r1 = registry_after(s.registry, sid);
            if !registry_contains(r1, did) && !s.config.has_chain(did) {
                (SupervisorV { config: s.config, registry: r1, workers: s.workers }, Some(did))
            } else {
                (
                    SupervisorV {
                        config: s.config,
                        registry: registry_after(r1, did),
                        workers: deliver_events(s.workers, en.object, height, chain_id, en.events),
                    },
                    None,
                )
            }
        }
    }
}

/// Fold of [`dispatch_entry`] over the collected entries, stopping at
/// the first unresolvable chain.
pub open spec fn dispatch_entries(
    s: SupervisorV,
    entries: Seq<ObjectEventsV>,
    src_id: Seq<char>,
    height: Height,
    chain_id: Seq<char>,
) -> (SupervisorV, Option<Seq<char>>)
    decreases entries.len(),
{
    if entries.len() == 0 {
        (s, None)
    } else {
        let step = dispatch_entry(s, entries[0], src_id, height, chain_id);
        if step.1 is Some {
            step
        } else {
            dispatch_entries(step.0, entries.drop_first(), src_id, height, chain_id)
        }
    }
}

/// Every worker reading from the chain gets the new-block notice
/// appended, after the per-Object dispatch.
pub open spec fn fanout_new_block(ws: Seq<WorkerV>, src_id: Seq<char>, height: Height) -> Seq<
    WorkerV,
> {
    Seq::new(
        ws.len(),
        |i: int|
            if ws[i].object.src_chain_id() == src_id {
                WorkerV {
                    object: ws[i].object,
                    inbox: ws[i].inbox.push(crate::worker::WorkerInputV::NewBlock { height }),
                }
            } else {
                ws[i]
            },
    )
}

/// Spawning a live-or-configured chain keeps the invariants, grows the
/// registry monotonically, and makes the chain live.
pub proof fn lemma_registry_after_wf_parts(s: SupervisorV, id: Seq<char>)
    requires
        s.wf(),
        registry_contains(s.registry, id) || s.config.has_chain(id),
    ensures
        (SupervisorV {
            config: s.config,
            registry: registry_after(s.registry, id),
            workers: s.workers,
        }).wf(),
        forall|x: Seq<char>| #[trigger]
            registry_contains(s.registry, x) ==> registry_contains(
                registry_after(s.registry, id),
                x,
            ),
        registry_contains(registry_after(s.registry, id), id),
{
    let r = registry_after(s.registry, id);
    if registry_contains(s.registry, id) {
    } else {
        assert(r == s.registry.push(ChainHandleV { id, channel_clients: Seq::empty() }));
        assert(r[r.len() - 1].id == id);
        assert forall|i: int, j: int| 0 <= i < j < r.len() implies r[i].id != r[j].id by {
            if j < r.len() - 1 {
                assert(r[i] == s.registry[i]);
                assert(r[j] == s.registry[j]);
            } else {
                assert(r[i] == s.registry[i]);
            }
        }
        assert forall|x: Seq<char>| #[trigger]
            registry_contains(s.registry, x) implies registry_contains(r, x) by {
            let i = choose|i: int| 0 <= i < s.registry.len() && s.registry[i].id == x;
            assert(r[i] == s.registry[i]);
        }
        assert forall|x: Seq<char>| #[trigger]
            registry_contains(r, x) implies s.config.has_chain(x) by {
            let i = choose|i: int| 0 <= i < r.len() && r[i].id == x;
            if i < r.len() - 1 {
                assert(r[i] == s.registry[i]);
                assert(registry_contains(s.registry, x));
            } else {
                assert(x == id);
            }
        }
    }
    assert forall|i: int| 0 <= i < s.workers.len() implies registry_contains(
        r,
        #[trigger] s.workers[i].object.src_chain_id(),
    ) && registry_contains(r, s.workers[i].object.dst_chain_id()) by {
        assert(registry_contains(s.registry, s.workers[i].object.src_chain_id()));
        assert(registry_contains(s.registry, s.workers[i].object.dst_chain_id()));
    }
}

/// Dispatching one admitted entry — spawning its chains and worker and
/// appending its events — keeps the invariants.
pub proof fn lemma_dispatch_step_wf(
    s: SupervisorV,
    o: ObjectV,
    height: Height,
    chain_id: Seq<char>,
    events: Seq<IbcEventV>,
)
    requires
        s.wf(),
        registry_contains(s.registry, o.src_chain_id()) || s.config.has_chain(o.src_chain_id()),
        registry_contains(registry_after(s.registry, o.src_chain_id()), o.dst_chain_id())
            || s.config.has_chain(o.dst_chain_id()),
    ensures
        (SupervisorV {
            config: s.config,
            registry: registry_after(
                registry_after(s.registry, o.src_chain_id()),
                o.dst_chain_id(),
            ),
            workers: deliver_events(s.workers, o, height, chain_id, events),
        }).wf(),
{
    let r1 = registry_after(s.registry, o.src_chain_id());
    let r2 = registry_after(r1, o.dst_chain_id());
    lemma_registry_after_wf_parts(s, o.src_chain_id());
    let s1 = SupervisorV { config: s.config, registry: r1, workers: s.workers };
    lemma_registry_after_wf_parts(s1, o.dst_chain_id());

    let ws = s.workers;
    let ws1 = if contains_object(ws, o) {
        ws
    } else {
        ws.push(WorkerV { object: o, inbox: Seq::empty() })
    };
    assert(workers_wf(ws1)) by {
        if !contains_object(ws, o) {
            assert forall|i: int, j: int| 0 <= i < j < ws1.len() implies ws1[i].object
                != ws1[j].object by {
                if j < ws1.len() - 1 {
                    assert(ws1[i] == ws[i]);
                    assert(ws1[j] == ws[j]);
                } else {
                    assert(ws1[i] == ws[i]);
                    assert(ws1[j].object == o);
                }
            }
        }
    }
    assert(contains_object(ws1, o)) by {
        if contains_object(ws, o) {
            let i = choose|i: int| 0 <= i < ws.len() && ws[i].object == o;
            assert(ws1[i].object == o);
        } else {
            assert(ws1[ws1.len() - 1].object == o);
        }
    }
    let i = idx_of_object(ws1, o);
    assert(0 <= i < ws1.len() && ws1[i].object == o);
    let wd = deliver_events(s.workers, o, height, chain_id, events);
    assert(wd == ws1.update(
        i,
        WorkerV {
            object: o,
            inbox: ws1[i].inbox.push(
                crate::worker::WorkerInputV::Events { height, chain_id, events },
            ),
        },
    ));
    assert forall|a: int, b: int| 0 <= a < b < wd.len() implies wd[a].object != wd[b].object by {
        assert(wd[a].object == ws1[a].object);
        assert(wd[b].object == ws1[b].object);
    }
    assert(registry_contains(r2, o.src_chain_id()));
    assert(registry_contains(r2, o.dst_chain_id()));
    assert forall|a: int| 0 <= a < wd.len() implies registry_contains(
        r2,
        #[trigger] wd[a].object.src_chain_id(),
    ) && registry_contains(r2, wd[a].object.dst_chain_id()) by {
        assert(wd[a].object == ws1[a].object);
        if a < ws.len() {
            assert(ws1[a].object == ws[a].object);
            assert(registry_contains(s.registry, ws[a].object.src_chain_id()));
            assert(registry_contains(s.registry, ws[a].object.dst_chain_id()));
            assert(registry_contains(r1, ws[a].object.src_chain_id()));
            assert(registry_contains(r1, ws[a].object.dst_chain_id()));
        } else {
            assert(ws1[a].object == o);
        }
    }
    let si = SupervisorV { config: s.config, registry: r2, workers: s.workers };
    assert(si.wf());
    let s2 = SupervisorV { config: s.config, registry: r2, workers: wd };
    assert(s2.config.wf());
    assert(forall|i: int, j: int|
        0 <= i < j < s2.registry.len() ==> s2.registry[i].id != s2.registry[j].id);
    assert(workers_wf(s2.workers));
    assert forall|id: Seq<char>| #[trigger]
        registry_contains(s2.registry, id) implies s2.config.has_chain(id) by {
        assert(registry_contains(si.registry, id));
        assert(si.config.has_chain(id));
    }
    assert(s2.wf());
}

/// Fanning a new-block notice out changes inboxes only: the invariants
/// survive.
proof fn lemma_fanout_wf_parts(s1: SupervisorV, s2: SupervisorV, src_id: Seq<char>, height: Height)
    requires
        s1.wf(),
        s2.config == s1.config,
        s2.registry == s1.registry,
        s2.workers == fanout_new_block(s1.workers, src_id, height),
    ensures
        s2.wf(),
{
    assert forall|i: int| 0 <= i < s2.workers.len() implies #[trigger] s2.workers[i].object
        == s1.workers[i].object by {}
    assert forall|i: int, j: int| 0 <= i < j < s2.workers.len() implies s2.workers[i].object
        != s2.workers[j].object by {}
    assert forall|i: int| 0 <= i < s2.workers.len() implies registry_contains(
        s2.registry,
        #[trigger] s2.workers[i].object.src_chain_id(),
    ) && registry_contains(s2.registry, s2.workers[i].object.dst_chain_id()) by {
        assert(registry_contains(s1.registry, s1.workers[i].object.src_chain_id()));
        assert(registry_contains(s1.registry, s1.workers[i].object.dst_chain_id()));
    }
}

/// Handing an event to a single target is one `push_event`.
proof fn lemma_push_one(m: Seq<ObjectEventsV>, t: ObjectV, e: IbcEventV)
    ensures
        push_targets(m, seq![t], e) == push_event(m, t, e),
{
    assert(seq![t].len() == 1);
    assert(seq![t][0] == t);
    assert(seq![t].drop_first() =~= Seq::<ObjectV>::empty());
    assert(push_targets(push_event(m, t, e), Seq::<ObjectV>::empty(), e) == push_event(m, t, e));
}

/// Handing an event to an optional target is one `push_event` when the
/// target is there, and nothing otherwise.
proof fn lemma_push_opt(m: Seq<ObjectEventsV>, t: Option<ObjectV>, e: IbcEventV)
    ensures
        push_targets(m, crate::classify::opt_seq(t), e) == match t {
            Some(o) => push_event(m, o, e),
            None => m,
        },
{
    match t {
        Some(o) => {
            lemma_push_one(m, o, e);
        },
        None => {},
    }
}

} // verus!
