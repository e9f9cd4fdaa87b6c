//! Workers and the worker map.
//!
//! A real worker is a task consuming one Object's events; here a worker
//! is its supervisor-side record: the Object it serves and the inputs
//! dispatched to it, in order. The embedding drains each inbox into the
//! task's channel; a task that exits reports
//! [`WorkerMsg::Stopped`], upon which the supervisor removes the record.

use vstd::prelude::*;

use crate::events::IbcEvent;
use crate::handle::ChainHandle;
use crate::ids::{seq_view, ChainId, Height};
use crate::object::{Object, ObjectV};

verus! {

/// One input dispatched to a worker.
#[derive(Debug)]
pub enum WorkerInput {
    /// Events of the worker's Object, tagged with the height and chain
    /// of the batch they came from.
    Events { height: Height, chain_id: ChainId, events: Vec<IbcEvent> },
    /// Notification that the worker's source chain reached a height.
    NewBlock { height: Height },
}

/// Spec-level image of [`WorkerInput`].
pub enum WorkerInputV {
    Events { height: Height, chain_id: Seq<char>, events: Seq<crate::events::IbcEventV> },
    NewBlock { height: Height },
}

impl View for WorkerInput {
    type V = WorkerInputV;

    open spec fn view(&self) -> WorkerInputV {
        match self {
            WorkerInput::Events { height, chain_id, events } => WorkerInputV::Events {
                height: *height,
                chain_id: chain_id@,
                events: seq_view(events@),
            },
            WorkerInput::NewBlock { height } => WorkerInputV::NewBlock { height: *height },
        }
    }
}

/// What a worker reports to the supervisor. Stopping is the only report.
#[derive(Debug)]
pub enum WorkerMsg {
    Stopped(Object),
}

/// Spec-level image of [`WorkerMsg`].
pub enum WorkerMsgV {
    Stopped(ObjectV),
}

impl View for WorkerMsg {
    type V = WorkerMsgV;

    open spec fn view(&self) -> WorkerMsgV {
        match self {
            WorkerMsg::Stopped(o) => WorkerMsgV::Stopped(o@),
        }
    }
}

/// The supervisor-side record of one worker.
#[derive(Debug)]
pub struct WorkerHandle {
    pub object: Object,
    pub inbox: Vec<WorkerInput>,
}

/// Spec-level image of [`WorkerHandle`].
pub struct WorkerV {
    pub object: ObjectV,
    pub inbox: Seq<WorkerInputV>,
}

impl View for WorkerHandle {
    type V = WorkerV;

    open spec fn view(&self) -> WorkerV {
        WorkerV { object: self.object@, inbox: seq_view(self.inbox@) }
    }
}

/// Whether some worker serves the Object.
pub open spec fn contains_object(ws: Seq<WorkerV>, o: ObjectV) -> bool {
    exists|i: int| 0 <= i < ws.len() && ws[i].object == o
}

/// Objects are unique: each worker is registered under exactly one
/// Object and can be looked up by it.
pub open spec fn workers_wf(ws: Seq<WorkerV>) -> bool {
    forall|i: int, j: int| 0 <= i < j < ws.len() ==> ws[i].object != ws[j].object
}

/// The worker list with the workers of the given Object removed.
pub open spec fn remove_object_spec(ws: Seq<WorkerV>, o: ObjectV) -> Seq<WorkerV>
    decreases ws.len(),
{
    if ws.len() == 0 {
        Seq::empty()
    } else if ws.last().object == o {
        remove_object_spec(ws.drop_last(), o)
    } else {
        remove_object_spec(ws.drop_last(), o).push(ws.last())
    }
}

/// The worker list with every worker whose Object reads from or writes
/// to the given chain removed.
pub open spec fn remove_chain_workers_spec(ws: Seq<WorkerV>, id: Seq<char>) -> Seq<WorkerV>
    decreases ws.len(),
{
    if ws.len() == 0 {
        Seq::empty()
    } else if ws.last().object.src_chain_id() == id || ws.last().object.dst_chain_id() == id {
        remove_chain_workers_spec(ws.drop_last(), id)
    } else {
        remove_chain_workers_spec(ws.drop_last(), id).push(ws.last())
    }
}

/// Removing an Object keeps exactly the other workers, as elements.
pub proof fn lemma_remove_object_elements(ws: Seq<WorkerV>, o: ObjectV)
    ensures
        forall|w: WorkerV| #[trigger]
            remove_object_spec(ws, o).contains(w) <==> (ws.contains(w) && w.object != o),
        remove_object_spec(ws, o).len() <= ws.len(),
    decreases ws.len(),
{
    broadcast use vstd::seq_lib::group_seq_properties;

    let r = remove_object_spec(ws, o);
    if ws.len() == 0 {
        assert(ws =~= Seq::<WorkerV>::empty());
        assert(r =~= Seq::<WorkerV>::empty());
    } else {
        lemma_remove_object_elements(ws.drop_last(), o);
        let r0 = remove_object_spec(ws.drop_last(), o);
        assert(ws =~= ws.drop_last().push(ws.last()));
        if ws.last().object == o {
            assert(r == r0);
        } else {
            assert(r == r0.push(ws.last()));
        }
    }
}

/// Removing a chain's workers keeps exactly the unrelated ones, as
/// elements.
pub proof fn lemma_remove_chain_workers_elements(ws: Seq<WorkerV>, id: Seq<char>)
    ensures
        forall|w: WorkerV| #[trigger]
            remove_chain_workers_spec(ws, id).contains(w) <==> (ws.contains(w)
                && w.object.src_chain_id() != id && w.object.dst_chain_id() != id),
        remove_chain_workers_spec(ws, id).len() <= ws.len(),
    decreases ws.len(),
{
    broadcast use vstd::seq_lib::group_seq_properties;

    let r = remove_chain_workers_spec(ws, id);
    if ws.len() == 0 {
        assert(ws =~= Seq::<WorkerV>::empty());
        assert(r =~= Seq::<WorkerV>::empty());
    } else {
        lemma_remove_chain_workers_elements(ws.drop_last(), id);
        let r0 = remove_chain_workers_spec(ws.drop_last(), id);
        assert(ws =~= ws.drop_last().push(ws.last()));
        if ws.last().object.src_chain_id() == id || ws.last().object.dst_chain_id() == id {
            assert(r == r0);
        } else {
            assert(r == r0.push(ws.last()));
        }
    }
}

/// `contains_object` holds exactly when some element serves the Object.
pub proof fn lemma_contains_object_elem(ws: Seq<WorkerV>, o: ObjectV)
    ensures
        contains_object(ws, o) <==> exists|w: WorkerV| #[trigger] ws.contains(w) && w.object == o,
{
    if contains_object(ws, o) {
        let i = choose|i: int| 0 <= i < ws.len() && ws[i].object == o;
        assert(ws.contains(ws[i]));
    }
    if exists|w: WorkerV| #[trigger] ws.contains(w) && w.object == o {
        let w = choose|w: WorkerV| #[trigger] ws.contains(w) && w.object == o;
        let i = choose|i: int| 0 <= i < ws.len() && ws[i] == w;
        assert(ws[i].object == o);
    }
}

/// Removal of an Object keeps the worker list well-formed.
pub proof fn lemma_remove_object_wf(ws: Seq<WorkerV>, o: ObjectV)
    requires
        workers_wf(ws),
    ensures
        workers_wf(remove_object_spec(ws, o)),
    decreases ws.len(),
{
    broadcast use vstd::seq_lib::group_seq_properties;

    if ws.len() > 0 {
        assert forall|i: int, j: int|
            0 <= i < j < ws.drop_last().len() implies ws.drop_last()[i].object
            != ws.drop_last()[j].object by {
            assert(ws.drop_last()[i] == ws[i]);
            assert(ws.drop_last()[j] == ws[j]);
        }
        lemma_remove_object_wf(ws.drop_last(), o);
        let r0 = remove_object_spec(ws.drop_last(), o);
        if ws.last().object != o {
            lemma_remove_object_elements(ws.drop_last(), o);
            let r = remove_object_spec(ws, o);
            assert(r == r0.push(ws.last()));
            assert forall|i: int, j: int| 0 <= i < j < r.len() implies r[i].object
                != r[j].object by {
                if j < r0.len() {
                } else {
                    assert(r[j] == ws.last());
                    assert(r0.contains(r0[i]));
                    assert(ws.drop_last().contains(r0[i]));
                    let m = choose|m: int|
                        0 <= m < ws.drop_last().len() && ws.drop_last()[m] == r0[i];
                    assert(ws[m] == ws.drop_last()[m]);
                    assert(ws[m].object != ws.last().object);
                }
            }
        }
    }
}

/// Removal of a chain's workers keeps the worker list well-formed.
pub proof fn lemma_remove_chain_workers_wf(ws: Seq<WorkerV>, id: Seq<char>)
    requires
        workers_wf(ws),
    ensures
        workers_wf(remove_chain_workers_spec(ws, id)),
    decreases ws.len(),
{
    broadcast use vstd::seq_lib::group_seq_properties;

    if ws.len() > 0 {
        assert forall|i: int, j: int|
            0 <= i < j < ws.drop_last().len() implies ws.drop_last()[i].object
            != ws.drop_last()[j].object by {
            assert(ws.drop_last()[i] == ws[i]);
            assert(ws.drop_last()[j] == ws[j]);
        }
        lemma_remove_chain_workers_wf(ws.drop_last(), id);
        let r0 = remove_chain_workers_spec(ws.drop_last(), id);
        if !(ws.last().object.src_chain_id() == id || ws.last().object.dst_chain_id() == id) {
            lemma_remove_chain_workers_elements(ws.drop_last(), id);
            let r = remove_chain_workers_spec(ws, id);
            assert(r == r0.push(ws.last()));
            assert forall|i: int, j: int| 0 <= i < j < r.len() implies r[i].object
                != r[j].object by {
                if j < r0.len() {
                } else {
                    assert(r[j] == ws.last());
                    assert(r0.contains(r0[i]));
                    assert(ws.drop_last().contains(r0[i]));
                    let m = choose|m: int|
                        0 <= m < ws.drop_last().len() && ws.drop_last()[m] == r0[i];
                    assert(ws[m] == ws.drop_last()[m]);
                    assert(ws[m].object != ws.last().object);
                }
            }
        }
    }
}

/// Every live worker is registered under exactly one Object: two
/// registrations of the same Object are the same worker.
pub proof fn lemma_worker_unique_object(ws: Seq<WorkerV>, i: int, j: int)
    requires
        workers_wf(ws),
        0 <= i < ws.len(),
        0 <= j < ws.len(),
        ws[i].object == ws[j].object,
    ensures
        i == j,
{
}

/// Indexed pool of workers keyed by Object.
#[derive(Debug)]
pub struct WorkerMap {
    pub workers: Vec<WorkerHandle>,
}

impl View for WorkerMap {
    type V = Seq<WorkerV>;

    open spec fn view(&self) -> Seq<WorkerV> {
        seq_view(self.workers@)
    }
}

impl WorkerMap {
    pub fn new() -> (r: WorkerMap)
        ensures
            r@ == Seq::<WorkerV>::empty(),
            workers_wf(r@),
    {
        let r = WorkerMap { workers: Vec::new() };
        proof {
            assert(seq_view(r.workers@) =~= Seq::<WorkerV>::empty());
        }
        r
    }

    /// How many workers are live.
    pub fn len(&self) -> (r: usize)
        ensures
            r == self@.len(),
    {
        self.workers.len()
    }

    /// Whether a worker for the Object is live.
    pub fn contains(&self, o: &Object) -> (r: bool)
        ensures
            r == contains_object(self@, o@),
    {
        let mut i: usize = 0;
        while i < self.workers.len()
            invariant
                i <= self.workers.len(),
                forall|j: int| 0 <= j < i as int ==> self@[j].object != o@,
            decreases self.workers.len() - i,
        {
            if self.workers[i].object.same(o) {
                proof {
                    assert(self@[i as int].object == o@);
                }
                return true;
            }
            i = i + 1;
        }
        false
    }

    /// The Objects of the live workers, in registration order.
    pub fn objects(&self) -> (r: Vec<Object>)
        ensures
            seq_view(r@) == Seq::new(self@.len(), |i: int| self@[i].object),
    {
        let mut r: Vec<Object> = Vec::new();
        let mut i: usize = 0;
        while i < self.workers.len()
            invariant
                i <= self.workers.len(),
                r@.len() == i as int,
                forall|j: int| 0 <= j < i as int ==> r@[j]@ == self@[j].object,
            decreases self.workers.len() - i,
        {
            r.push(self.workers[i].object.clone());
            i = i + 1;
        }
        proof {
            assert(seq_view(r@) =~= Seq::new(self@.len(), |i: int| self@[i].object));
        }
        r
    }

    /// Return the index of the worker for the Object, spawning a fresh
    /// one (with an empty inbox) if none is live. The sole constructor
    /// of workers.
    pub fn get_or_spawn(&mut self, object: Object, src: &ChainHandle, dst: &ChainHandle) -> (idx:
        usize)
        requires
            workers_wf(old(self)@),
            src@.id == object@.src_chain_id(),
            dst@.id == object@.dst_chain_id(),
        ensures
            workers_wf(final(self)@),
            idx < final(self)@.len(),
            final(self)@[idx as int].object == object@,
            if contains_object(old(self)@, object@) {
                final(self)@ == old(self)@
            } else {
                final(self)@ == old(self)@.push(
                    WorkerV { object: object@, inbox: Seq::empty() },
                ) && idx == old(self)@.len()
            },
    {
        let mut i: usize = 0;
        while i < self.workers.len()
            invariant
                i <= self.workers.len(),
                self.workers == old(self).workers,
                workers_wf(old(self)@),
                forall|j: int| 0 <= j < i as int ==> self@[j].object != object@,
            decreases self.workers.len() - i,
        {
            if self.workers[i].object.same(&object) {
                proof {
                    assert(self@[i as int].object == object@);
                    assert(self@ =~= old(self)@);
                    assert(workers_wf(self@));
                }
                return i;
            }
            i = i + 1;
        }
        let w = WorkerHandle { object, inbox: Vec::new() };
        let idx = self.workers.len();
        self.workers.push(w);
        proof {
            assert(seq_view(self.workers@) =~= seq_view(old(self).workers@).push(
                self.workers@.last()@,
            ));
            assert(seq_view(self.workers@.last().inbox@) =~= Seq::<WorkerInputV>::empty());
            assert forall|a: int, b: int| 0 <= a < b < self@.len() implies self@[a].object
                != self@[b].object by {
                if b < self@.len() - 1 {
                    assert(self@[a] == old(self)@[a]);
                    assert(self@[b] == old(self)@[b]);
                } else {
                    assert(self@[a] == old(self)@[a]);
                }
            }
        }
        idx
    }

    /// Remove the worker of a stopped Object; reports whether one was
    /// removed.
    pub fn remove_stopped(&mut self, o: &Object) -> (r: bool)
        requires
            workers_wf(old(self)@),
        ensures
            workers_wf(final(self)@),
            final(self)@ == remove_object_spec(old(self)@, o@),
            r == contains_object(old(self)@, o@),
            !contains_object(final(self)@, o@),
    {
        let ghost ws = self@;
        let mut kept: Vec<WorkerHandle> = Vec::new();
        let mut removed = false;
        let mut i: usize = 0;
        proof {
            assert(ws.take(0) =~= Seq::<WorkerV>::empty());
            assert(seq_view(kept@) =~= Seq::<WorkerV>::empty());
        }
        while i < self.workers.len()
            invariant
                i <= self.workers.len(),
                ws == seq_view(self.workers@),
                ws.len() == self.workers@.len(),
                seq_view(kept@) == remove_object_spec(ws.take(i as int), o@),
                removed == exists|j: int| 0 <= j < i as int && ws[j].object == o@,
            decreases self.workers.len() - i,
        {
            let ghost prefix = ws.take(i as int + 1);
            proof {
                assert(prefix.drop_last() =~= ws.take(i as int));
                assert(prefix.last() == ws[i as int]);
            }
            if self.workers[i].object.same(o) {
                removed = true;
                proof {
                    assert(ws[i as int].object == o@);
                }
            } else {
                kept.push(self.workers[i].clone_record());
                proof {
                    assert(seq_view(kept@) =~= remove_object_spec(ws.take(i as int), o@).push(
                        ws[i as int],
                    ));
                }
            }
            i = i + 1;
        }
        proof {
            assert(ws.take(i as int) =~= ws);
        }
        self.workers = kept;
        proof {
            lemma_remove_object_wf(ws, o@);
            lemma_remove_object_elements(ws, o@);
            lemma_contains_object_elem(self@, o@);
        }
        removed
    }

    /// The indices of the workers whose Object reads from the given
    /// chain, in increasing order; the ones a new block is fanned out to.
    pub fn to_notify(&self, chain_id: &ChainId) -> (r: Vec<usize>)
        ensures
            forall|k: int|
                0 <= k < r@.len() ==> r@[k] < self@.len() && self@[r@[k] as int].object.src_chain_id()
                    == chain_id@,
            forall|i: int|
                0 <= i < self@.len() && self@[i].object.src_chain_id() == chain_id@ ==> r@.contains(
                    i as usize,
                ),
            forall|k: int, l: int| 0 <= k < l < r@.len() ==> r@[k] < r@[l],
    {
        broadcast use vstd::seq_lib::group_seq_properties;

        let mut r: Vec<usize> = Vec::new();
        let mut i: usize = 0;
        while i < self.workers.len()
            invariant
                i <= self.workers.len(),
                forall|k: int|
                    0 <= k < r@.len() ==> r@[k] < i as int && self@[r@[k] as int].object.src_chain_id()
                        == chain_id@,
                forall|j: int|
                    0 <= j < i as int && self@[j].object.src_chain_id() == chain_id@ ==> r@.contains(
                        j as usize,
                    ),
                forall|k: int, l: int| 0 <= k < l < r@.len() ==> r@[k] < r@[l],
            decreases self.workers.len() - i,
        {
            let ghost r0 = r@;
            if self.workers[i].object.src_chain_id().same(chain_id) {
                r.push(i);
            }
            proof {
                assert forall|j: int|
                    0 <= j < i as int + 1 && self@[j].object.src_chain_id()
                        == chain_id@ implies r@.contains(j as usize) by {
                    if j < i as int {
                        let k = choose|k: int| 0 <= k < r0.len() && r0[k] == j as usize;
                        assert(r@[k] == j as usize);
                    } else {
                        assert(r@[r@.len() - 1] == i as usize);
                    }
                }
            }
            i = i + 1;
        }
        r
    }

    /// Append the events of one batch to the inbox of the worker at
    /// `idx`.
    pub fn send_events(
        &mut self,
        idx: usize,
        height: Height,
        chain_id: ChainId,
        events: Vec<IbcEvent>,
    )
        requires
            idx < old(self)@.len(),
        ensures
            final(self)@ == old(self)@.update(
                idx as int,
                WorkerV {
                    object: old(self)@[idx as int].object,
                    inbox: old(self)@[idx as int].inbox.push(
                        WorkerInputV::Events {
                            height,
                            chain_id: chain_id@,
                            events: seq_view(events@),
                        },
                    ),
                },
            ),
    {
        let ghost input = WorkerInputV::Events {
            height,
            chain_id: chain_id@,
            events: seq_view(events@),
        };
        let mut w = self.workers.remove(idx);
        w.inbox.push(WorkerInput::Events { height, chain_id, events });
        self.workers.insert(idx, w);
        proof {
            assert(seq_view(w.inbox@) =~= old(self)@[idx as int].inbox.push(input));
            assert(seq_view(self.workers@) =~= old(self)@.update(
                idx as int,
                WorkerV { object: old(self)@[idx as int].object, inbox: seq_view(w.inbox@) },
            ));
        }
    }

    /// Append a new-block notification to the inbox of the worker at
    /// `idx`.
    pub fn send_new_block(&mut self, idx: usize, height: Height)
        requires
            idx < old(self)@.len(),
        ensures
            final(self)@ == old(self)@.update(
                idx as int,
                WorkerV {
                    object: old(self)@[idx as int].object,
                    inbox: old(self)@[idx as int].inbox.push(WorkerInputV::NewBlock { height }),
                },
            ),
    {
        let mut w = self.workers.remove(idx);
        w.inbox.push(WorkerInput::NewBlock { height });
        self.workers.insert(idx, w);
        proof {
            assert(seq_view(w.inbox@) =~= old(self)@[idx as int].inbox.push(
                WorkerInputV::NewBlock { height },
            ));
            assert(seq_view(self.workers@) =~= old(self)@.update(
                idx as int,
                WorkerV { object: old(self)@[idx as int].object, inbox: seq_view(w.inbox@) },
            ));
        }
    }

    /// Remove every worker whose Object reads from or writes to the
    /// given chain; used when the chain leaves the configuration.
    pub fn remove_for_chain(&mut self, id: &ChainId)
        requires
            workers_wf(old(self)@),
        ensures
            workers_wf(final(self)@),
            final(self)@ == remove_chain_workers_spec(old(self)@, id@),
    {
        let ghost ws = self@;
        let mut kept: Vec<WorkerHandle> = Vec::new();
        let mut i: usize = 0;
        proof {
            assert(ws.take(0) =~= Seq::<WorkerV>::empty());
            assert(seq_view(kept@) =~= Seq::<WorkerV>::empty());
        }
        while i < self.workers.len()
            invariant
                i <= self.workers.len(),
                ws == seq_view(self.workers@),
                ws.len() == self.workers@.len(),
                seq_view(kept@) == remove_chain_workers_spec(ws.take(i as int), id@),
            decreases self.workers.len() - i,
        {
            let ghost prefix = ws.take(i as int + 1);
            proof {
                assert(prefix.drop_last() =~= ws.take(i as int));
                assert(prefix.last() == ws[i as int]);
            }
            let keep = !self.workers[i].object.src_chain_id().same(id)
                && !self.workers[i].object.dst_chain_id().same(id);
            if keep {
                kept.push(self.workers[i].clone_record());
                proof {
                    assert(seq_view(kept@) =~= remove_chain_workers_spec(
                        ws.take(i as int),
                        id@,
                    ).push(ws[i as int]));
                }
            }
            i = i + 1;
        }
        proof {
            assert(ws.take(i as int) =~= ws);
        }
        self.workers = kept;
        proof {
            lemma_remove_chain_workers_wf(ws, id@);
        }
    }
}

impl WorkerHandle {
    /// Copy of the record, view for view.
    pub fn clone_record(&self) -> (r: WorkerHandle)
        ensures
            r@ == self@,
    {
        let mut inbox: Vec<WorkerInput> = Vec::new();
        let mut i: usize = 0;
        while i < self.inbox.len()
            invariant
                i <= self.inbox.len(),
                inbox@.len() == i as int,
                forall|j: int| 0 <= j < i as int ==> inbox@[j]@ == self.inbox@[j]@,
            decreases self.inbox.len() - i,
        {
            inbox.push(self.inbox[i].clone_input());
            i = i + 1;
        }
        let r = WorkerHandle { object: self.object.clone(), inbox };
        proof {
            assert(seq_view(r.inbox@) =~= seq_view(self.inbox@));
        }
        r
    }
}

impl WorkerInput {
    /// Copy of the input, view for view.
    pub fn clone_input(&self) -> (r: WorkerInput)
        ensures
            r@ == self@,
    {
        match self {
            WorkerInput::Events { height, chain_id, events } => {
                let mut es: Vec<IbcEvent> = Vec::new();
                let mut i: usize = 0;
                while i < events.len()
                    invariant
                        i <= events.len(),
                        es@.len() == i as int,
                        forall|j: int| 0 <= j < i as int ==> es@[j] == events@[j],
                    decreases events.len() - i,
                {
                    es.push(events[i].clone());
                    i = i + 1;
                }
                proof {
                    assert(seq_view(es@) =~= seq_view(events@));
                }
                WorkerInput::Events { height: *height, chain_id: chain_id.clone(), events: es }
            },
            WorkerInput::NewBlock { height } => WorkerInput::NewBlock { height: *height },
        }
    }
}

} // verus!
