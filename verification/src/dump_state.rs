//! Introspection: a sorted snapshot of the supervisor's state.
//!
//! The snapshot lists the live chain ids sorted lexicographically, and
//! the live workers' Objects grouped by kind — client, connection,
//! channel, packet, in that order — each group sorted by its Objects'
//! labels.

use vstd::prelude::*;

use crate::ids::ChainId;
use crate::object::{short_name_spec, Object, ObjectType, ObjectV};
use crate::order::{lemma_lex_total, lemma_lex_trans, lex_le, lex_le_exec};
use crate::registry::registry_contains;
use crate::supervisor::{Supervisor, SupervisorV};
use crate::worker::contains_object;

verus! {

/// Whether some element of the list carries the id.
pub open spec fn has_id(v: Seq<ChainId>, x: Seq<char>) -> bool {
    exists|k: int| 0 <= k < v.len() && v[k]@ == x
}

/// Ids sorted lexicographically, without repetition.
pub open spec fn ids_sorted(v: Seq<ChainId>) -> bool {
    (forall|k: int, l: int| 0 <= k < l < v.len() ==> lex_le(v[k]@, v[l]@)) && (forall|k: int, l: int|
        0 <= k < l < v.len() ==> v[k]@ != v[l]@)
}

/// Whether some element of the list is the Object.
pub open spec fn has_object(v: Seq<Object>, o: ObjectV) -> bool {
    exists|k: int| 0 <= k < v.len() && v[k]@ == o
}

/// Objects sorted by label, without repetition.
pub open spec fn objects_sorted(v: Seq<Object>) -> bool {
    (forall|k: int, l: int|
        0 <= k < l < v.len() ==> lex_le(short_name_spec(v[k]@), short_name_spec(v[l]@))) && (
    forall|k: int, l: int| 0 <= k < l < v.len() ==> v[k]@ != v[l]@)
}

/// The sorted introspection snapshot: live chains, and live workers'
/// Objects by kind, in client, connection, channel, packet order.
#[derive(Debug)]
pub struct SupervisorState {
    pub chains: Vec<ChainId>,
    pub clients: Vec<Object>,
    pub connections: Vec<Object>,
    pub channels: Vec<Object>,
    pub packets: Vec<Object>,
}

/// What a faithful snapshot of the state `s` holds: exactly the live
/// chain ids, sorted; and for each kind exactly the live workers'
/// Objects of that kind, sorted by label.
pub open spec fn snapshot_ok(s: SupervisorV, st: SupervisorState) -> bool {
    &&& ids_sorted(st.chains@)
    &&& (forall|x: Seq<char>| #[trigger] has_id(st.chains@, x) <==> registry_contains(s.registry, x))
    &&& objects_sorted(st.clients@)
    &&& (forall|o: ObjectV| #[trigger]
        has_object(st.clients@, o) <==> contains_object(s.workers, o) && o.object_type()
            == ObjectType::Client)
    &&& objects_sorted(st.connections@)
    &&& (forall|o: ObjectV| #[trigger]
        has_object(st.connections@, o) <==> contains_object(s.workers, o) && o.object_type()
            == ObjectType::Connection)
    &&& objects_sorted(st.channels@)
    &&& (forall|o: ObjectV| #[trigger]
        has_object(st.channels@, o) <==> contains_object(s.workers, o) && o.object_type()
            == ObjectType::Channel)
    &&& objects_sorted(st.packets@)
    &&& (forall|o: ObjectV| #[trigger]
        has_object(st.packets@, o) <==> contains_object(s.workers, o) && o.object_type()
            == ObjectType::Packet)
}

/// Insert a fresh id into a sorted list, keeping it sorted.
fn insert_sorted_chain(out: &mut Vec<ChainId>, x: ChainId)
    requires
        ids_sorted(old(out)@),
        !has_id(old(out)@, x@),
    ensures
        ids_sorted(final(out)@),
        forall|y: Seq<char>| #[trigger]
            has_id(final(out)@, y) <==> (has_id(old(out)@, y) || y == x@),
{
    let ghost v0 = out@;
    let mut j: usize = 0;
    while j < out.len() && lex_le_exec(out[j].value.as_str(), x.value.as_str())
        invariant
            j <= out@.len(),
            out@ == v0,
            forall|k: int| 0 <= k < j as int ==> lex_le(v0[k]@, x@),
        decreases out@.len() - j,
    {
        j = j + 1;
    }
    proof {
        if (j as int) < v0.len() {
            assert(!lex_le(v0[j as int]@, x@));
            lemma_lex_total(v0[j as int]@, x@);
            assert(lex_le(x@, v0[j as int]@));
        }
    }
    out.insert(j, x);
    proof {
        let v1 = out@;
        assert(v1 == v0.insert(j as int, x));
        assert forall|k: int, l: int| 0 <= k < l < v1.len() implies lex_le(v1[k]@, v1[l]@) && v1[k]@
            != v1[l]@ by {
            let a = if k < j as int {
                v0[k]
            } else if k == j as int {
                x
            } else {
                v0[k - 1]
            };
            let b = if l < j as int {
                v0[l]
            } else if l == j as int {
                x
            } else {
                v0[l - 1]
            };
            assert(v1[k] == a);
            assert(v1[l] == b);
            if k < j as int && l == j as int {
                assert(lex_le(a@, b@));
                assert(a@ != b@) by {
                    if a@ == b@ {
                        assert(has_id(v0, x@));
                    }
                }
            } else if k == j as int {
                assert((j as int) < v0.len() && v0[j as int] == v0[l - 1] || (j as int) <= l - 1);
                assert(lex_le(x@, v0[j as int]@));
                if l - 1 > j as int {
                    lemma_lex_trans(x@, v0[j as int]@, v0[l - 1]@);
                }
                assert(a@ != b@) by {
                    if a@ == b@ {
                        assert(has_id(v0, x@));
                    }
                }
            } else if k < j as int && l > j as int {
                assert(a == v0[k] && b == v0[l - 1]);
                assert(k < l - 1 || k == l - 1);
                if k == l - 1 {
                    assert(k >= j as int);
                }
            } else {
            }
        }
        assert forall|y: Seq<char>| #[trigger]
            has_id(v1, y) <==> (has_id(v0, y) || y == x@) by {
            if has_id(v1, y) {
                let k = choose|k: int| 0 <= k < v1.len() && v1[k]@ == y;
                if k < j as int {
                    assert(v0[k]@ == y);
                } else if k == j as int {
                } else {
                    assert(v0[k - 1]@ == y);
                }
            }
            if has_id(v0, y) {
                let k = choose|k: int| 0 <= k < v0.len() && v0[k]@ == y;
                if k < j as int {
                    assert(v1[k]@ == y);
                } else {
                    assert(v1[k + 1]@ == y);
                }
            }
            if y == x@ {
                assert(v1[j as int]@ == y);
            }
        }
    }
}

/// Insert a fresh Object into a list sorted by label, keeping it
/// sorted.
fn insert_sorted_object(out: &mut Vec<Object>, x: Object)
    requires
        objects_sorted(old(out)@),
        !has_object(old(out)@, x@),
    ensures
        objects_sorted(final(out)@),
        forall|o: ObjectV| #[trigger]
            has_object(final(out)@, o) <==> (has_object(old(out)@, o) || o == x@),
{
    let ghost v0 = out@;
    let name = x.short_name();
    let mut j: usize = 0;
    while j < out.len() && lex_le_exec(out[j].short_name().as_str(), name.as_str())
        invariant
            j <= out@.len(),
            out@ == v0,
            name@ == short_name_spec(x@),
            forall|k: int| 0 <= k < j as int ==> lex_le(short_name_spec(v0[k]@), short_name_spec(x@)),
        decreases out@.len() - j,
    {
        j = j + 1;
    }
    proof {
        if (j as int) < v0.len() {
            assert(!lex_le(short_name_spec(v0[j as int]@), short_name_spec(x@)));
            lemma_lex_total(short_name_spec(v0[j as int]@), short_name_spec(x@));
            assert(lex_le(short_name_spec(x@), short_name_spec(v0[j as int]@)));
        }
    }
    out.insert(j, x);
    proof {
        let v1 = out@;
        assert(v1 == v0.insert(j as int, x));
        assert forall|k: int, l: int|
            0 <= k < l < v1.len() implies lex_le(
            short_name_spec(v1[k]@),
            short_name_spec(v1[l]@),
        ) && v1[k]@ != v1[l]@ by {
            let a = if k < j as int {
                v0[k]
            } else if k == j as int {
                x
            } else {
                v0[k - 1]
            };
            let b = if l < j as int {
                v0[l]
            } else if l == j as int {
                x
            } else {
                v0[l - 1]
            };
            assert(v1[k] == a);
            assert(v1[l] == b);
            if k < j as int && l == j as int {
                assert(a@ != b@) by {
                    if a@ == b@ {
                        assert(has_object(v0, x@));
                    }
                }
            } else if k == j as int {
                assert(lex_le(short_name_spec(x@), short_name_spec(v0[j as int]@)));
                if l - 1 > j as int {
                    lemma_lex_trans(
                        short_name_spec(x@),
                        short_name_spec(v0[j as int]@),
                        short_name_spec(v0[l - 1]@),
                    );
                }
                assert(a@ != b@) by {
                    if a@ == b@ {
                        assert(has_object(v0, x@));
                    }
                }
            } else if k < j as int && l > j as int {
                assert(a == v0[k] && b == v0[l - 1]);
                if k == l - 1 {
                    assert(k >= j as int);
                }
            } else {
            }
        }
        assert forall|o: ObjectV| #[trigger]
            has_object(v1, o) <==> (has_object(v0, o) || o == x@) by {
            if has_object(v1, o) {
                let k = choose|k: int| 0 <= k < v1.len() && v1[k]@ == o;
                if k < j as int {
                    assert(v0[k]@ == o);
                } else if k == j as int {
                } else {
                    assert(v0[k - 1]@ == o);
                }
            }
            if has_object(v0, o) {
                let k = choose|k: int| 0 <= k < v0.len() && v0[k]@ == o;
                if k < j as int {
                    assert(v1[k]@ == o);
                } else {
                    assert(v1[k + 1]@ == o);
                }
            }
            if o == x@ {
                assert(v1[j as int]@ == o);
            }
        }
    }
}

impl Supervisor {
    /// Snapshot the live chains and workers for introspection.
    pub fn dump_state(&self) -> (r: SupervisorState)
        requires
            self@.wf(),
        ensures
            snapshot_ok(self@, r),
    {
        let ids = self.registry.chain_ids();
        let ghost idsv = Seq::new(self@.registry.len(), |i: int| self@.registry[i].id);
        let mut chains: Vec<ChainId> = Vec::new();
        let mut i: usize = 0;
        while i < ids.len()
            invariant
                i <= ids.len(),
                self@.wf(),
                crate::ids::seq_view(ids@) == idsv,
                idsv == Seq::new(self@.registry.len(), |k: int| self@.registry[k].id),
                idsv.len() == ids@.len(),
                ids_sorted(chains@),
                forall|y: Seq<char>| #[trigger]
                    has_id(chains@, y) <==> exists|t: int| 0 <= t < i as int && idsv[t] == y,
            decreases ids.len() - i,
        {
            proof {
                assert(ids@[i as int]@ == idsv[i as int]);
                assert(!has_id(chains@, ids@[i as int]@)) by {
                    if has_id(chains@, idsv[i as int]) {
                        let t = choose|t: int| 0 <= t < i as int && idsv[t] == idsv[i as int];
                        assert(self@.registry[t].id == self@.registry[i as int].id);
                    }
                }
            }
            let ghost chains0 = chains@;
            insert_sorted_chain(&mut chains, ids[i].clone());
            proof {
                assert forall|y: Seq<char>| #[trigger]
                    has_id(chains@, y) <==> exists|t: int|
                    0 <= t < i as int + 1 && idsv[t] == y by {
                    if has_id(chains@, y) {
                        if has_id(chains0, y) {
                            let t = choose|t: int| 0 <= t < i as int && idsv[t] == y;
                        } else {
                            assert(y == idsv[i as int]);
                        }
                    }
                    if exists|t: int| 0 <= t < i as int + 1 && idsv[t] == y {
                        let t = choose|t: int| 0 <= t < i as int + 1 && idsv[t] == y;
                        if t < i as int {
                            assert(has_id(chains0, y));
                        }
                    }
                }
            }
            i = i + 1;
        }
        proof {
            assert forall|y: Seq<char>| #[trigger]
                has_id(chains@, y) <==> registry_contains(self@.registry, y) by {
                if has_id(chains@, y) {
                    let t = choose|t: int| 0 <= t < idsv.len() && idsv[t] == y;
                    assert(self@.registry[t].id == y);
                }
                if registry_contains(self@.registry, y) {
                    let t = choose|t: int| 0 <= t < self@.registry.len() && self@.registry[t].id == y;
                    assert(idsv[t] == y);
                }
            }
        }

        let objs = self.workers.objects();
        let ghost objsv = Seq::new(self@.workers.len(), |i: int| self@.workers[i].object);
        let mut clients: Vec<Object> = Vec::new();
        let mut connections: Vec<Object> = Vec::new();
        let mut channels: Vec<Object> = Vec::new();
        let mut packets: Vec<Object> = Vec::new();
        let mut w: usize = 0;
        while w < objs.len()
            invariant
                w <= objs.len(),
                self@.wf(),
                crate::ids::seq_view(objs@) == objsv,
                objsv == Seq::new(self@.workers.len(), |k: int| self@.workers[k].object),
                objsv.len() == objs@.len(),
                objects_sorted(clients@),
                objects_sorted(connections@),
                objects_sorted(channels@),
                objects_sorted(packets@),
                forall|o: ObjectV| #[trigger]
                    has_object(clients@, o) <==> (exists|t: int|
                        0 <= t < w as int && objsv[t] == o) && o.object_type()
                        == ObjectType::Client,
                forall|o: ObjectV| #[trigger]
                    has_object(connections@, o) <==> (exists|t: int|
                        0 <= t < w as int && objsv[t] == o) && o.object_type()
                        == ObjectType::Connection,
                forall|o: ObjectV| #[trigger]
                    has_object(channels@, o) <==> (exists|t: int|
                        0 <= t < w as int && objsv[t] == o) && o.object_type()
                        == ObjectType::Channel,
                forall|o: ObjectV| #[trigger]
                    has_object(packets@, o) <==> (exists|t: int|
                        0 <= t < w as int && objsv[t] == o) && o.object_type()
                        == ObjectType::Packet,
            decreases objs.len() - w,
        {
            let ghost ov = objsv[w as int];
            proof {
                assert(objs@[w as int]@ == ov);
                assert(!(exists|t: int| 0 <= t < w as int && objsv[t] == ov)) by {
                    if exists|t: int| 0 <= t < w as int && objsv[t] == ov {
                        let t = choose|t: int| 0 <= t < w as int && objsv[t] == ov;
                        assert(self@.workers[t].object == self@.workers[w as int].object);
                    }
                }
            }
            let ghost cl0 = clients@;
            let ghost cn0 = connections@;
            let ghost ch0 = channels@;
            let ghost pk0 = packets@;
            let object = objs[w].clone();
            match object.object_type() {
                ObjectType::Client => insert_sorted_object(&mut clients, object),
                ObjectType::Connection => insert_sorted_object(&mut connections, object),
                ObjectType::Channel => insert_sorted_object(&mut channels, object),
                ObjectType::Packet => insert_sorted_object(&mut packets, object),
            }
            proof {
                lemma_bucket_step(cl0, clients@, ov, ObjectType::Client, objsv, w as int);
                lemma_bucket_step(cn0, connections@, ov, ObjectType::Connection, objsv, w as int);
                lemma_bucket_step(ch0, channels@, ov, ObjectType::Channel, objsv, w as int);
                lemma_bucket_step(pk0, packets@, ov, ObjectType::Packet, objsv, w as int);
            }
            w = w + 1;
        }
        proof {
            lemma_bucket_done(clients@, ObjectType::Client, objsv, self@);
            lemma_bucket_done(connections@, ObjectType::Connection, objsv, self@);
            lemma_bucket_done(channels@, ObjectType::Channel, objsv, self@);
            lemma_bucket_done(packets@, ObjectType::Packet, objsv, self@);
        }
        SupervisorState { chains, clients, connections, channels, packets }
    }
}

/// One step of bucketing: the bucket of the Object's kind gains it, the
/// others are unchanged.
proof fn lemma_bucket_step(
    v0: Seq<Object>,
    v1: Seq<Object>,
    ov: ObjectV,
    t: ObjectType,
    objsv: Seq<ObjectV>,
    w: int,
)
    requires
        0 <= w < objsv.len(),
        objsv[w] == ov,
        forall|o: ObjectV| #[trigger]
            has_object(v0, o) <==> (exists|u: int| 0 <= u < w && objsv[u] == o) && o.object_type()
                == t,
        if ov.object_type() == t {
            forall|o: ObjectV| #[trigger] has_object(v1, o) <==> (has_object(v0, o) || o == ov)
        } else {
            v1 == v0
        },
    ensures
        forall|o: ObjectV| #[trigger]
            has_object(v1, o) <==> (exists|u: int| 0 <= u < w + 1 && objsv[u] == o)
                && o.object_type() == t,
{
    assert forall|o: ObjectV| #[trigger]
        has_object(v1, o) <==> (exists|u: int| 0 <= u < w + 1 && objsv[u] == o) && o.object_type()
            == t by {
        if has_object(v1, o) {
            if ov.object_type() == t {
                if has_object(v0, o) {
                    let u = choose|u: int| 0 <= u < w && objsv[u] == o;
                } else {
                    assert(o == ov);
                    assert(objsv[w] == o);
                }
            } else {
                let u = choose|u: int| 0 <= u < w && objsv[u] == o;
            }
        }
        if (exists|u: int| 0 <= u < w + 1 && objsv[u] == o) && o.object_type() == t {
            let u = choose|u: int| 0 <= u < w + 1 && objsv[u] == o;
            if u < w {
                assert(has_object(v0, o));
            } else {
                assert(o == ov);
            }
        }
    }
}

/// After the walk, a bucket holds exactly the live workers' Objects of
/// its kind.
proof fn lemma_bucket_done(v: Seq<Object>, t: ObjectType, objsv: Seq<ObjectV>, s: SupervisorV)
    requires
        objsv == Seq::new(s.workers.len(), |k: int| s.workers[k].object),
        forall|o: ObjectV| #[trigger]
            has_object(v, o) <==> (exists|u: int| 0 <= u < objsv.len() && objsv[u] == o)
                && o.object_type() == t,
    ensures
        forall|o: ObjectV| #[trigger]
            has_object(v, o) <==> contains_object(s.workers, o) && o.object_type() == t,
{
    assert forall|o: ObjectV| #[trigger]
        has_object(v, o) <==> contains_object(s.workers, o) && o.object_type() == t by {
        if exists|u: int| 0 <= u < objsv.len() && objsv[u] == o {
            let u = choose|u: int| 0 <= u < objsv.len() && objsv[u] == o;
            assert(s.workers[u].object == o);
        }
        if contains_object(s.workers, o) {
            let u = choose|u: int| 0 <= u < s.workers.len() && s.workers[u].object == o;
            assert(objsv[u] == o);
        }
    }
}

} // verus!
