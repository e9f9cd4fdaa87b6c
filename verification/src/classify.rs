//! Specification of the event classifier.
//!
//! The classifier walks a batch's events in order and hands each event to
//! the Objects it concerns. [`event_targets`] lists those Objects for one
//! event; [`collect_per_object`] folds a whole batch into the per-Object
//! sequences; [`delivered`] characterizes, for one Object, exactly which
//! events it receives — the order-preserving subsequence of the batch
//! selected by [`event_targets`].

use vstd::prelude::*;

use crate::events::IbcEventV;
use crate::handle::ChainHandleV;
use crate::object::{ack_packet_object_spec, channel_object_spec, client_object_spec,
    connection_object_spec, packet_object_spec, send_packet_object_spec,
    update_client_object_spec, ObjectV};
use crate::worker::{contains_object, WorkerV};

verus! {

/// The singleton sequence of a present Object, else the empty sequence.
pub open spec fn opt_seq(o: Option<ObjectV>) -> Seq<ObjectV> {
    match o {
        Some(x) => seq![x],
        None => Seq::empty(),
    }
}

/// The Objects an event is handed to, in dispatch order.
///
/// A client update is retained only if its Object already has a live
/// worker. Connection and channel handshake steps are admitted only when
/// handshake relaying is on, except that an acknowledged or confirmed
/// channel always wakes the underlying client and packet Objects: once
/// the channel is open enough, steady-state work resumes regardless of
/// the handshake flag.
pub open spec fn event_targets(
    e: IbcEventV,
    handshake: bool,
    workers: Seq<WorkerV>,
    src: ChainHandleV,
) -> Seq<ObjectV> {
    match e {
        IbcEventV::UpdateClient(u) => {
            let o = update_client_object_spec(u, src);
            if contains_object(workers, o) {
                seq![o]
            } else {
                Seq::empty()
            }
        },
        IbcEventV::OpenInitConnection(a) => if handshake {
            opt_seq(connection_object_spec(a, src))
        } else {
            Seq::empty()
        },
        IbcEventV::OpenTryConnection(a) => if handshake {
            opt_seq(connection_object_spec(a, src))
        } else {
            Seq::empty()
        },
        IbcEventV::OpenAckConnection(a) => if handshake {
            opt_seq(connection_object_spec(a, src))
        } else {
            Seq::empty()
        },
        IbcEventV::OpenInitChannel(a) => if handshake {
            opt_seq(channel_object_spec(a, src))
        } else {
            Seq::empty()
        },
        IbcEventV::OpenTryChannel(a) => if handshake {
            opt_seq(channel_object_spec(a, src))
        } else {
            Seq::empty()
        },
        IbcEventV::OpenAckChannel(a) => opt_seq(client_object_spec(a, src)) + opt_seq(
            packet_object_spec(a, src),
        ) + (if handshake {
            opt_seq(channel_object_spec(a, src))
        } else {
            Seq::empty()
        }),
        IbcEventV::OpenConfirmChannel(a) => opt_seq(client_object_spec(a, src)) + opt_seq(
            packet_object_spec(a, src),
        ),
        IbcEventV::SendPacket(p) => opt_seq(send_packet_object_spec(p, src)),
        IbcEventV::TimeoutPacket(p) => opt_seq(send_packet_object_spec(p, src)),
        IbcEventV::WriteAcknowledgement(p) => opt_seq(ack_packet_object_spec(p, src)),
        IbcEventV::CloseInitChannel(a) => opt_seq(packet_object_spec(a, src)),
        IbcEventV::NewBlock(_) => Seq::empty(),
        IbcEventV::Other => Seq::empty(),
    }
}

/// One entry of the per-Object collection.
pub struct ObjectEventsV {
    pub object: ObjectV,
    pub events: Seq<IbcEventV>,
}

/// Index of the first entry for the Object, if any.
pub open spec fn find_idx(m: Seq<ObjectEventsV>, o: ObjectV) -> Option<int>
    decreases m.len(),
{
    if m.len() == 0 {
        None
    } else if m[0].object == o {
        Some(0int)
    } else {
        match find_idx(m.drop_first(), o) {
            Some(i) => Some(i + 1),
            None => None,
        }
    }
}

/// Hand one event to one Object: append to its entry, or open a new
/// entry at the end.
pub open spec fn push_event(m: Seq<ObjectEventsV>, o: ObjectV, e: IbcEventV) -> Seq<
    ObjectEventsV,
> {
    match find_idx(m, o) {
        Some(i) => m.update(i, ObjectEventsV { object: o, events: m[i].events.push(e) }),
        None => m.push(ObjectEventsV { object: o, events: seq![e] }),
    }
}

/// Hand one event to each of its targets, in order.
pub open spec fn push_targets(
    m: Seq<ObjectEventsV>,
    ts: Seq<ObjectV>,
    e: IbcEventV,
) -> Seq<ObjectEventsV>
    decreases ts.len(),
{
    if ts.len() == 0 {
        m
    } else {
        push_targets(push_event(m, ts[0], e), ts.drop_first(), e)
    }
}

/// The per-Object collection of a batch's events, walked in order.
pub open spec fn collect_per_object(
    events: Seq<IbcEventV>,
    handshake: bool,
    workers: Seq<WorkerV>,
    src: ChainHandleV,
) -> Seq<ObjectEventsV>
    decreases events.len(),
{
    if events.len() == 0 {
        Seq::empty()
    } else {
        push_targets(
            collect_per_object(events.drop_last(), handshake, workers, src),
            event_targets(events.last(), handshake, workers, src),
            events.last(),
        )
    }
}

/// The last new-block event of the batch, if any: the last one wins.
pub open spec fn last_new_block(events: Seq<IbcEventV>) -> Option<IbcEventV>
    decreases events.len(),
{
    if events.len() == 0 {
        None
    } else if events.last() is NewBlock {
        Some(events.last())
    } else {
        last_new_block(events.drop_last())
    }
}

/// The events collected for one Object; empty if it has no entry.
pub open spec fn events_of(m: Seq<ObjectEventsV>, o: ObjectV) -> Seq<IbcEventV> {
    match find_idx(m, o) {
        Some(i) => m[i].events,
        None => Seq::empty(),
    }
}

/// The sub-sequence of `events` whose targets include `o`, in batch
/// order: what the Object's worker is handed.
pub open spec fn delivered(
    events: Seq<IbcEventV>,
    handshake: bool,
    workers: Seq<WorkerV>,
    src: ChainHandleV,
    o: ObjectV,
) -> Seq<IbcEventV>
    decreases events.len(),
{
    if events.len() == 0 {
        Seq::empty()
    } else if event_targets(events.last(), handshake, workers, src).contains(o) {
        delivered(events.drop_last(), handshake, workers, src, o).push(events.last())
    } else {
        delivered(events.drop_last(), handshake, workers, src, o)
    }
}

/// No value occurs twice.
pub open spec fn nodup(ts: Seq<ObjectV>) -> bool {
    forall|i: int, j: int| 0 <= i < j < ts.len() ==> ts[i] != ts[j]
}

/// What `find_idx` returns: the first entry of the Object.
pub proof fn lemma_find_idx_char(m: Seq<ObjectEventsV>, o: ObjectV)
    ensures
        find_idx(m, o) matches Some(i) ==> 0 <= i < m.len() && m[i].object == o && forall|j: int|
            0 <= j < i ==> m[j].object != o,
        find_idx(m, o) is None ==> forall|j: int| 0 <= j < m.len() ==> m[j].object != o,
    decreases m.len(),
{
    if m.len() > 0 && m[0].object != o {
        lemma_find_idx_char(m.drop_first(), o);
        let md = m.drop_first();
        match find_idx(md, o) {
            Some(i) => {
                assert(find_idx(m, o) == Some(i + 1));
                assert(md[i] == m[i + 1]);
                assert forall|j: int| 0 <= j < i + 1 implies m[j].object != o by {
                    if j > 0 {
                        assert(md[j - 1] == m[j]);
                    }
                }
            },
            None => {
                assert forall|j: int| 0 <= j < m.len() implies m[j].object != o by {
                    if j > 0 {
                        assert(md[j - 1] == m[j]);
                    }
                }
            },
        }
    }
}

/// `find_idx` is determined by the first-entry characterization.
pub proof fn lemma_find_idx_first(m: Seq<ObjectEventsV>, o: ObjectV, i: int)
    requires
        0 <= i < m.len(),
        m[i].object == o,
        forall|j: int| 0 <= j < i ==> m[j].object != o,
    ensures
        find_idx(m, o) == Some(i),
    decreases m.len(),
{
    if m[0].object == o {
        assert(i == 0);
    } else {
        assert(m.drop_first()[i - 1] == m[i]);
        assert forall|j: int| 0 <= j < i - 1 implies m.drop_first()[j].object != o by {
            assert(m.drop_first()[j] == m[j + 1]);
        }
        lemma_find_idx_first(m.drop_first(), o, i - 1);
    }
}

/// Updating an entry without changing its Object leaves lookups as they
/// were.
pub proof fn lemma_find_idx_update(m: Seq<ObjectEventsV>, i: int, x: ObjectEventsV, o: ObjectV)
    requires
        0 <= i < m.len(),
        x.object == m[i].object,
    ensures
        find_idx(m.update(i, x), o) == find_idx(m, o),
    decreases m.len(),
{
    let mu = m.update(i, x);
    if i == 0 {
        assert(mu.drop_first() =~= m.drop_first());
    } else {
        assert(mu[0] == m[0]);
        if m[0].object != o {
            assert(mu.drop_first() =~= m.drop_first().update(i - 1, x));
            assert(m.drop_first()[i - 1] == m[i]);
            lemma_find_idx_update(m.drop_first(), i - 1, x, o);
        }
    }
}

/// Appending an entry only adds a lookup for its own Object.
pub proof fn lemma_find_idx_push(m: Seq<ObjectEventsV>, x: ObjectEventsV, o: ObjectV)
    ensures
        find_idx(m.push(x), o) == match find_idx(m, o) {
            Some(i) => Some(i),
            None => if x.object == o {
                Some(m.len() as int)
            } else {
                None
            },
        },
    decreases m.len(),
{
    let mp = m.push(x);
    if m.len() == 0 {
        assert(mp[0] == x);
        assert(mp.drop_first() =~= Seq::<ObjectEventsV>::empty());
    } else {
        assert(mp[0] == m[0]);
        if m[0].object != o {
            assert(mp.drop_first() =~= m.drop_first().push(x));
            lemma_find_idx_push(m.drop_first(), x, o);
            match find_idx(m.drop_first(), o) {
                Some(i) => {
                    assert(find_idx(m, o) == Some(i + 1));
                    assert(find_idx(mp.drop_first(), o) == Some(i));
                    assert(find_idx(mp, o) == Some(i + 1));
                },
                None => {
                    assert(find_idx(m, o) is None);
                    if x.object == o {
                        assert(find_idx(mp.drop_first(), o) == Some(
                            m.drop_first().len() as int,
                        ));
                        assert(find_idx(mp, o) == Some(m.drop_first().len() as int + 1));
                        assert(m.drop_first().len() as int + 1 == m.len() as int);
                    } else {
                        assert(find_idx(mp.drop_first(), o) is None);
                        assert(find_idx(mp, o) is None);
                    }
                },
            }
        }
    }
}

/// Handing an event to Object `t` extends exactly `t`'s collected
/// events, by that event.
pub proof fn lemma_push_event_events_of(m: Seq<ObjectEventsV>, t: ObjectV, e: IbcEventV, o: ObjectV)
    ensures
        events_of(push_event(m, t, e), o) == if o == t {
            events_of(m, o).push(e)
        } else {
            events_of(m, o)
        },
{
    lemma_find_idx_char(m, t);
    lemma_find_idx_char(m, o);
    match find_idx(m, t) {
        Some(i) => {
            let x = ObjectEventsV { object: t, events: m[i].events.push(e) };
            lemma_find_idx_update(m, i, x, o);
            if o == t {
            } else {
                match find_idx(m, o) {
                    Some(j) => {
                        assert(j != i);
                        assert(m.update(i, x)[j] == m[j]);
                    },
                    None => {},
                }
            }
        },
        None => {
            let x = ObjectEventsV { object: t, events: seq![e] };
            lemma_find_idx_push(m, x, o);
            if o == t {
                assert(m.push(x)[m.len() as int] == x);
                assert(Seq::<IbcEventV>::empty().push(e) =~= seq![e]);
            } else {
                match find_idx(m, o) {
                    Some(j) => {
                        assert(m.push(x)[j] == m[j]);
                    },
                    None => {},
                }
            }
        },
    }
}

/// Splitting a target list splits the handing-out.
pub proof fn lemma_push_targets_add(
    m: Seq<ObjectEventsV>,
    s1: Seq<ObjectV>,
    s2: Seq<ObjectV>,
    e: IbcEventV,
)
    ensures
        push_targets(m, s1 + s2, e) == push_targets(push_targets(m, s1, e), s2, e),
    decreases s1.len(),
{
    if s1.len() == 0 {
        assert(s1 + s2 =~= s2);
    } else {
        assert((s1 + s2)[0] == s1[0]);
        assert((s1 + s2).drop_first() =~= s1.drop_first() + s2);
        lemma_push_targets_add(push_event(m, s1[0], e), s1.drop_first(), s2, e);
    }
}

/// Handing an event to a duplicate-free target list extends exactly the
/// listed Objects' collected events.
pub proof fn lemma_push_targets_events_of(
    m: Seq<ObjectEventsV>,
    ts: Seq<ObjectV>,
    e: IbcEventV,
    o: ObjectV,
)
    requires
        nodup(ts),
    ensures
        events_of(push_targets(m, ts, e), o) == if ts.contains(o) {
            events_of(m, o).push(e)
        } else {
            events_of(m, o)
        },
    decreases ts.len(),
{
    broadcast use vstd::seq_lib::group_seq_properties;

    if ts.len() == 0 {
    } else {
        let m1 = push_event(m, ts[0], e);
        lemma_push_event_events_of(m, ts[0], e, o);
        assert forall|i: int, j: int|
            0 <= i < j < ts.drop_first().len() implies ts.drop_first()[i] != ts.drop_first()[j] by {
            assert(ts.drop_first()[i] == ts[i + 1]);
            assert(ts.drop_first()[j] == ts[j + 1]);
        }
        lemma_push_targets_events_of(m1, ts.drop_first(), e, o);
        assert(ts =~= seq![ts[0]] + ts.drop_first());
        if ts.contains(o) {
            let k = choose|k: int| 0 <= k < ts.len() && ts[k] == o;
            if k == 0 {
                assert forall|j: int| 0 <= j < ts.drop_first().len() implies ts.drop_first()[j]
                    != o by {
                    assert(ts.drop_first()[j] == ts[j + 1]);
                }
                assert(!ts.drop_first().contains(o));
            } else {
                assert(ts.drop_first()[k - 1] == ts[k]);
                assert(ts.drop_first().contains(o));
                assert(ts[0] != o);
            }
        } else {
            assert(ts[0] != o);
            assert forall|j: int| 0 <= j < ts.drop_first().len() implies ts.drop_first()[j]
                != o by {
                assert(ts.drop_first()[j] == ts[j + 1]);
            }
            assert(!ts.drop_first().contains(o));
        }
    }
}

/// The targets of one event never repeat an Object.
pub proof fn lemma_event_targets_nodup(
    e: IbcEventV,
    handshake: bool,
    workers: Seq<WorkerV>,
    src: ChainHandleV,
)
    ensures
        nodup(event_targets(e, handshake, workers, src)),
{
    let ts = event_targets(e, handshake, workers, src);
    match e {
        IbcEventV::OpenAckChannel(a) => {
            assert forall|i: int, j: int| 0 <= i < j < ts.len() implies ts[i] != ts[j] by {
                assert(ts[i].object_type() != ts[j].object_type());
            }
        },
        IbcEventV::OpenConfirmChannel(a) => {
            assert forall|i: int, j: int| 0 <= i < j < ts.len() implies ts[i] != ts[j] by {
                assert(ts[i].object_type() != ts[j].object_type());
            }
        },
        _ => {
            assert(ts.len() <= 1);
        },
    }
}

/// What the fold collects for one Object is exactly the sub-sequence of
/// the batch selected by that Object's targets, in batch order.
pub proof fn lemma_collect_events_of(
    events: Seq<IbcEventV>,
    handshake: bool,
    workers: Seq<WorkerV>,
    src: ChainHandleV,
    o: ObjectV,
)
    ensures
        events_of(collect_per_object(events, handshake, workers, src), o) == delivered(
            events,
            handshake,
            workers,
            src,
            o,
        ),
    decreases events.len(),
{
    if events.len() == 0 {
    } else {
        lemma_collect_events_of(events.drop_last(), handshake, workers, src, o);
        let e = events.last();
        let m0 = collect_per_object(events.drop_last(), handshake, workers, src);
        lemma_event_targets_nodup(e, handshake, workers, src);
        lemma_push_targets_events_of(m0, event_targets(e, handshake, workers, src), e, o);
    }
}

/// Entries keyed uniquely, each holding at least one event.
pub open spec fn entries_wf(m: Seq<ObjectEventsV>) -> bool {
    (forall|i: int, j: int| 0 <= i < j < m.len() ==> m[i].object != m[j].object) && (forall|i: int|
        0 <= i < m.len() ==> m[i].events.len() > 0)
}

/// Handing out one event keeps the entries well-formed.
proof fn lemma_push_event_entries_wf(m: Seq<ObjectEventsV>, t: ObjectV, e: IbcEventV)
    requires
        entries_wf(m),
    ensures
        entries_wf(push_event(m, t, e)),
{
    lemma_find_idx_char(m, t);
    let m1 = push_event(m, t, e);
    match find_idx(m, t) {
        Some(i) => {
            assert forall|a: int, b: int| 0 <= a < b < m1.len() implies m1[a].object
                != m1[b].object by {
                assert(m1[a].object == m[a].object);
                assert(m1[b].object == m[b].object);
            }
            assert forall|a: int| 0 <= a < m1.len() implies m1[a].events.len() > 0 by {
                if a != i {
                    assert(m1[a] == m[a]);
                }
            }
        },
        None => {
            assert(m1 == m.push(ObjectEventsV { object: t, events: seq![e] }));
            assert forall|a: int, b: int| 0 <= a < b < m1.len() implies m1[a].object
                != m1[b].object by {
                if b < m1.len() - 1 {
                    assert(m1[a] == m[a]);
                    assert(m1[b] == m[b]);
                } else {
                    assert(m1[a] == m[a]);
                    assert(m1[b].object == t);
                }
            }
            assert forall|a: int| 0 <= a < m1.len() implies m1[a].events.len() > 0 by {
                if a < m1.len() - 1 {
                    assert(m1[a] == m[a]);
                } else {
                    assert(m1[a].events == seq![e]);
                    assert(seq![e].len() == 1);
                }
            }
        },
    }
}

/// Handing one event to a target list keeps the entries well-formed.
proof fn lemma_push_targets_entries_wf(m: Seq<ObjectEventsV>, ts: Seq<ObjectV>, e: IbcEventV)
    requires
        entries_wf(m),
    ensures
        entries_wf(push_targets(m, ts, e)),
    decreases ts.len(),
{
    if ts.len() > 0 {
        lemma_push_event_entries_wf(m, ts[0], e);
        lemma_push_targets_entries_wf(push_event(m, ts[0], e), ts.drop_first(), e);
    }
}

/// What the classifier builds is keyed uniquely, and no entry is
/// empty.
pub proof fn lemma_collect_entries_wf(
    events: Seq<IbcEventV>,
    handshake: bool,
    workers: Seq<WorkerV>,
    src: ChainHandleV,
)
    ensures
        entries_wf(collect_per_object(events, handshake, workers, src)),
    decreases events.len(),
{
    if events.len() > 0 {
        lemma_collect_entries_wf(events.drop_last(), handshake, workers, src);
        lemma_push_targets_entries_wf(
            collect_per_object(events.drop_last(), handshake, workers, src),
            event_targets(events.last(), handshake, workers, src),
            events.last(),
        );
    }
}

/// Everything delivered to an Object names it as a target.
pub proof fn lemma_delivered_sound(
    events: Seq<IbcEventV>,
    handshake: bool,
    workers: Seq<WorkerV>,
    src: ChainHandleV,
    o: ObjectV,
)
    ensures
        forall|k: int|
            0 <= k < delivered(events, handshake, workers, src, o).len() ==> event_targets(
                delivered(events, handshake, workers, src, o)[k],
                handshake,
                workers,
                src,
            ).contains(o),
    decreases events.len(),
{
    if events.len() > 0 {
        lemma_delivered_sound(events.drop_last(), handshake, workers, src, o);
        let d0 = delivered(events.drop_last(), handshake, workers, src, o);
        let d = delivered(events, handshake, workers, src, o);
        if event_targets(events.last(), handshake, workers, src).contains(o) {
            assert(d == d0.push(events.last()));
            assert forall|k: int| 0 <= k < d.len() implies event_targets(
                d[k],
                handshake,
                workers,
                src,
            ).contains(o) by {
                if k < d0.len() {
                    assert(d[k] == d0[k]);
                } else {
                    assert(d[k] == events.last());
                }
            }
        } else {
            assert(d == d0);
        }
    }
}

/// A client update whose Object has no live worker reaches no Object at
/// all: it is dropped.
pub proof fn lemma_update_client_dropped(
    events: Seq<IbcEventV>,
    u: crate::events::UpdateClientAttributesV,
    handshake: bool,
    workers: Seq<WorkerV>,
    src: ChainHandleV,
    o: ObjectV,
)
    requires
        !contains_object(workers, update_client_object_spec(u, src)),
    ensures
        !delivered(events, handshake, workers, src, o).contains(IbcEventV::UpdateClient(u)),
{
    broadcast use vstd::seq_lib::group_seq_properties;

    let e = IbcEventV::UpdateClient(u);
    assert(event_targets(e, handshake, workers, src) =~= Seq::<ObjectV>::empty());
    lemma_delivered_sound(events, handshake, workers, src, o);
    let d = delivered(events, handshake, workers, src, o);
    if d.contains(e) {
        let k = choose|k: int| 0 <= k < d.len() && d[k] == e;
        assert(event_targets(d[k], handshake, workers, src).contains(o));
    }
}

/// With handshake relaying off, no connection-open or channel-open-init
/// or -try event reaches any Object.
pub proof fn lemma_handshake_off_dropped(
    events: Seq<IbcEventV>,
    workers: Seq<WorkerV>,
    src: ChainHandleV,
    o: ObjectV,
    e: IbcEventV,
)
    requires
        e matches IbcEventV::OpenInitConnection(_) || e matches IbcEventV::OpenTryConnection(_)
            || e matches IbcEventV::OpenAckConnection(_) || e matches IbcEventV::OpenInitChannel(_)
            || e matches IbcEventV::OpenTryChannel(_),
    ensures
        !delivered(events, false, workers, src, o).contains(e),
{
    broadcast use vstd::seq_lib::group_seq_properties;

    assert(event_targets(e, false, workers, src) =~= Seq::<ObjectV>::empty());
    lemma_delivered_sound(events, false, workers, src, o);
    let d = delivered(events, false, workers, src, o);
    if d.contains(e) {
        let k = choose|k: int| 0 <= k < d.len() && d[k] == e;
        assert(event_targets(d[k], false, workers, src).contains(o));
    }
}

/// What is delivered to one Object is an order-preserving subsequence of
/// what its source chain emitted.
pub proof fn lemma_delivered_subsequence(
    events: Seq<IbcEventV>,
    handshake: bool,
    workers: Seq<WorkerV>,
    src: ChainHandleV,
    o: ObjectV,
)
    ensures
        is_subsequence_of(delivered(events, handshake, workers, src, o), events),
    decreases events.len(),
{
    if events.len() > 0 {
        lemma_delivered_subsequence(events.drop_last(), handshake, workers, src, o);
        let d = delivered(events, handshake, workers, src, o);
        let d0 = delivered(events.drop_last(), handshake, workers, src, o);
        if event_targets(events.last(), handshake, workers, src).contains(o) {
            assert(d == d0.push(events.last()));
            assert(d.last() == events.last());
            assert(d.drop_last() =~= d0);
        } else {
            lemma_subsequence_extend(d0, events);
        }
    }
}

/// A subsequence of a list without its last element is a subsequence of
/// the whole list.
pub proof fn lemma_subsequence_extend<T>(s: Seq<T>, t: Seq<T>)
    requires
        t.len() > 0,
        is_subsequence_of(s, t.drop_last()),
    ensures
        is_subsequence_of(s, t),
    decreases t.len(), 0int,
{
    if s.len() == 0 {
    } else if s.last() == t.last() {
        lemma_subsequence_drop_sub(s, t.drop_last());
    } else {
    }
}

/// The subsequence relation survives dropping the subsequence's last
/// element.
pub proof fn lemma_subsequence_drop_sub<T>(s: Seq<T>, t: Seq<T>)
    requires
        s.len() > 0,
        is_subsequence_of(s, t),
    ensures
        is_subsequence_of(s.drop_last(), t),
    decreases t.len(), 1int,
{
    if t.len() == 0 {
    } else if s.last() == t.last() {
        lemma_subsequence_extend(s.drop_last(), t);
    } else {
        lemma_subsequence_drop_sub(s, t.drop_last());
        lemma_subsequence_extend(s.drop_last(), t);
    }
}

/// Order-preserving subsequence relation.
pub open spec fn is_subsequence_of<T>(s: Seq<T>, t: Seq<T>) -> bool
    decreases t.len(), s.len(),
{
    if s.len() == 0 {
        true
    } else if t.len() == 0 {
        false
    } else if s.last() == t.last() {
        is_subsequence_of(s.drop_last(), t.drop_last())
    } else {
        is_subsequence_of(s, t.drop_last())
    }
}

} // verus!
