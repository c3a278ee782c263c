//! Per-tick power propagation: a consumer is powered exactly when some chain
//! of wires joins it to an active source.
use vstd::prelude::*;
use vstd::set_lib::{lemma_int_range, lemma_len_subset, set_int_range};
use crate::entity::Entity;
use crate::connection::Wire;
use crate::connection::PowerConsumer;
use crate::world::{same_but_consumer, World};

verus! {

/// Index `a` is among the pending entries of a work stack.
pub open spec fn on_stack(stack: Seq<usize>, a: int) -> bool {
    exists|s: int| 0 <= s < stack.len() && stack[s] as int == a
}

/// The wire joins `a` and `b`, in either direction.
pub open spec fn joins(w: Wire, a: Entity, b: Entity) -> bool {
    (w.from == a && w.to == b) || (w.from == b && w.to == a)
}

impl World {
    /// Devices `a` and `b` (by index) are joined by a wire.
    pub open spec fn linked(&self, a: int, b: int) -> bool {
        &&& 0 <= a < self.devices@.len()
        &&& 0 <= b < self.devices@.len()
        &&& exists|j: int|
            0 <= j < self.wires@.len() && #[trigger] joins(
                self.wires@[j].wire,
                self.devices@[a].id,
                self.devices@[b].id,
            )
    }

    /// `p` lists device indices, each joined by a wire to the next.
    pub open spec fn is_path(&self, p: Seq<int>) -> bool {
        &&& p.len() >= 1
        &&& forall|k: int| 0 <= k < p.len() ==> 0 <= #[trigger] p[k] < self.devices@.len()
        &&& forall|k: int| 0 <= k < p.len() - 1 ==> self.linked(#[trigger] p[k], p[k + 1])
    }

    /// Device `i` carries a power source that is on.
    pub open spec fn active_source(&self, i: int) -> bool {
        self.devices@[i].source matches Some(s) && s.powered
    }

    /// Device `i` is reached by a chain of wires from an active source.
    pub open spec fn energized(&self, i: int) -> bool {
        exists|p: Seq<int>| #[trigger] self.is_path(p) && self.active_source(p[0]) && p.last() == i
    }

    /// Every neighbour of a marked device is marked.
    pub open spec fn closed_under_links(&self, marked: Seq<bool>) -> bool {
        forall|a: int, b: int| #[trigger] self.linked(a, b) && marked[a] ==> marked[b]
    }

    /// A marking that holds every active source and is closed under links
    /// holds every energized device.
    pub proof fn lemma_closed_holds_energized(&self, marked: Seq<bool>, p: Seq<int>)
        requires
            marked.len() == self.devices@.len(),
            self.closed_under_links(marked),
            forall|i: int| 0 <= i < self.devices@.len() && self.active_source(i) ==> marked[i],
            self.is_path(p),
            self.active_source(p[0]),
        ensures
            marked[p.last()],
        decreases p.len(),
    {
        if p.len() > 1 {
            let q = p.drop_last();
            assert(self.is_path(q)) by {
                assert forall|k: int| 0 <= k < q.len() - 1 implies self.linked(#[trigger] q[k], q[k + 1]) by {
                    assert(q[k] == p[k] && q[k + 1] == p[k + 1]);
                }
                assert forall|k: int| 0 <= k < q.len() implies 0 <= #[trigger] q[k] < self.devices@.len() by {
                    assert(q[k] == p[k]);
                }
            }
            self.lemma_closed_holds_energized(marked, q);
            assert(self.linked(p[p.len() - 2], p[p.len() - 1]));
        }
    }

    /// For each device, whether it is energized.
    pub fn energized_devices(&self) -> (r: Vec<bool>)
        requires
            self.wf(),
        ensures
            r@.len() == self.devices@.len(),
            forall|i: int| 0 <= i < self.devices@.len() ==> r@[i] == self.energized(i),
    {
        let n = self.devices.len();
        let mut visited: Vec<bool> = Vec::new();
        let mut stack: Vec<usize> = Vec::new();
        let ghost mut marked: Set<int> = Set::empty();
        let mut i: usize = 0;
        while i < n
            invariant
                n == self.devices@.len(),
                i <= n,
                visited@.len() == i,
                forall|k: int| 0 <= k < i ==> visited@[k] == self.active_source(k),
                forall|s: int| 0 <= s < stack@.len() ==> 0 <= #[trigger] stack@[s] < i,
                forall|k: int| 0 <= k < i && visited@[k] ==> on_stack(stack@, k),
                forall|s: int| 0 <= s < stack@.len() ==> visited@[#[trigger] stack@[s] as int],
                marked.finite(),
                forall|k: int| marked.contains(k) <==> 0 <= k < i && visited@[k],
            decreases n - i,
        {
            let on = match &self.devices[i].source {
                Some(s) => s.powered,
                None => false,
            };
            let ghost old_stack = stack@;
            let ghost old_visited = visited@;
            visited.push(on);
            if on {
                stack.push(i);
                assert(stack@.last() == i);
                proof {
                    marked = marked.insert(i as int);
                }
            }
            proof {
                assert forall|k: int| 0 <= k < i && visited@[k] implies on_stack(stack@, k) by {
                    assert(visited@[k] == old_visited[k]);
                    assert(on_stack(old_stack, k));
                    let s = choose|s: int| 0 <= s < old_stack.len() && old_stack[s] as int == k;
                    assert(stack@[s] == old_stack[s]);
                }
                assert forall|s: int| 0 <= s < stack@.len() implies visited@[#[trigger] stack@[s] as int] by {
                    if s < old_stack.len() {
                        assert(stack@[s] == old_stack[s]);
                        assert(old_visited[old_stack[s] as int]);
                    } else {
                        assert(stack@[s] == i);
                    }
                }
            }
            i += 1;
        }
        proof {
            assert forall|k: int| 0 <= k < n && visited@[k] implies self.energized(k) by {
                let p = seq![k];
                assert(self.is_path(p));
            }
            lemma_int_range(0, n as int);
            lemma_len_subset(marked, set_int_range(0, n as int));
        }
        while stack.len() > 0
            invariant
                self.wf(),
                n == self.devices@.len(),
                visited@.len() == n,
                forall|s: int| 0 <= s < stack@.len() ==> 0 <= #[trigger] stack@[s] < n,
                forall|s: int| 0 <= s < stack@.len() ==> visited@[#[trigger] stack@[s] as int],
                forall|k: int| 0 <= k < n && self.active_source(k) ==> visited@[k],
                forall|k: int| 0 <= k < n && visited@[k] ==> self.energized(k),
                forall|a: int, b: int|
                    #[trigger] self.linked(a, b) && visited@[a] && !on_stack(stack@, a)
                        ==> visited@[b],
                marked.finite(),
                forall|k: int| marked.contains(k) <==> 0 <= k < n && visited@[k],
                marked.len() <= n,
            decreases 2 * (n - marked.len()) + stack@.len(),
        {
            let ghost full_stack = stack@;
            let v = stack.pop().unwrap();
            proof {
                assert(full_stack == stack@.push(v));
                assert forall|a: int| !on_stack(stack@, a) && a != v implies !#[trigger] on_stack(full_stack, a) by {
                    if on_stack(full_stack, a) {
                        let s = choose|s: int| 0 <= s < full_stack.len() && full_stack[s] as int == a;
                        if s < stack@.len() {
                            assert(stack@[s] == full_stack[s]);
                        }
                    }
                }
                assert(visited@[full_stack[full_stack.len() - 1] as int]);
            }
            let ghost measure_before = 2 * (n - marked.len()) + stack@.len() + 1;
            let vid = self.devices[v].id;
            let conns = &self.devices[v].point.connections;
            let mut k: usize = 0;
            while k < conns.len()
                invariant
                    self.wf(),
                    n == self.devices@.len(),
                    v < n,
                    vid == self.devices@[v as int].id,
                    conns == &self.devices@[v as int].point.connections,
                    k <= conns@.len(),
                    visited@.len() == n,
                    visited@[v as int],
                    forall|s: int| 0 <= s < stack@.len() ==> 0 <= #[trigger] stack@[s] < n,
                    forall|s: int| 0 <= s < stack@.len() ==> visited@[#[trigger] stack@[s] as int],
                    forall|q: int| 0 <= q < n && self.active_source(q) ==> visited@[q],
                    forall|q: int| 0 <= q < n && visited@[q] ==> self.energized(q),
                    forall|a: int, b: int|
                        #[trigger] self.linked(a, b) && visited@[a] && !on_stack(stack@, a)
                            && a != v ==> visited@[b],
                    forall|kk: int, j: int, u: int|
                        0 <= kk < k && 0 <= j < self.wires@.len() && 0 <= u < n
                            && self.wires@[j].id == #[trigger] conns@[kk] && #[trigger] joins(
                            self.wires@[j].wire,
                            vid,
                            self.devices@[u].id,
                        ) ==> visited@[u],
                    marked.finite(),
                    forall|q: int| marked.contains(q) <==> 0 <= q < n && visited@[q],
                    marked.len() <= n,
                    2 * (n - marked.len()) + stack@.len() < measure_before,
                decreases conns@.len() - k,
            {
                let w = conns[k];
                if let Some(j) = self.find_wire(w) {
                    let rec = self.wires[j];
                    let target = if rec.wire.from == vid {
                        rec.wire.to
                    } else {
                        rec.wire.from
                    };
                    proof {
                        assert(self.has_wire_touching(conns@[k as int], vid));
                        let j0 = choose|j0: int|
                            0 <= j0 < self.wires@.len() && self.wires@[j0].id == w
                                && self.wires@[j0].wire.touches(vid);
                        assert(j0 == j);
                    }
                    if let Some(t) = self.find_device(target) {
                        proof {
                            assert(joins(self.wires@[j as int].wire, self.devices@[v as int].id, self.devices@[t as int].id));
                            assert(self.linked(v as int, t as int));
                        }
                        if !visited[t] {
                            proof {
                                assert(self.energized(v as int));
                                let p = choose|p: Seq<int>| #[trigger] self.is_path(p) && self.active_source(p[0]) && p.last() == v as int;
                                let p2 = p.push(t as int);
                                assert(p2[p2.len() - 2] == v as int);
                                assert(self.is_path(p2)) by {
                                    assert forall|m: int| 0 <= m < p2.len() - 1 implies self.linked(#[trigger] p2[m], p2[m + 1]) by {
                                        if m < p.len() - 1 {
                                            assert(p2[m] == p[m] && p2[m + 1] == p[m + 1]);
                                        }
                                    }
                                    assert forall|m: int| 0 <= m < p2.len() implies 0 <= #[trigger] p2[m] < self.devices@.len() by {
                                        if m < p.len() {
                                            assert(p2[m] == p[m]);
                                        }
                                    }
                                }
                                assert(p2[0] == p[0]);
                                lemma_int_range(0, n as int);
                                lemma_len_subset(marked.insert(t as int), set_int_range(0, n as int));
                            }
                            let ghost old_stack = stack@;
                            let ghost old_visited = visited@;
                            visited.set(t, true);
                            stack.push(t);
                            proof {
                                marked = marked.insert(t as int);
                                assert(stack@ == old_stack.push(t));
                                assert forall|a: int| #[trigger] on_stack(old_stack, a) implies on_stack(stack@, a) by {
                                    let s = choose|s: int| 0 <= s < old_stack.len() && old_stack[s] as int == a;
                                    assert(stack@[s] == old_stack[s]);
                                }
                                assert(stack@[old_stack.len() as int] == t);
                                assert(on_stack(stack@, t as int));
                                assert forall|a: int, b: int|
                                    #[trigger] self.linked(a, b) && visited@[a] && !on_stack(stack@, a)
                                        && a != v implies visited@[b] by {
                                    assert(a != t);
                                    assert(old_visited[a]);
                                    assert(!on_stack(old_stack, a));
                                    assert(old_visited[b]);
                                }
                            }
                        }
                    }
                    proof {
                        assert forall|j2: int, u: int|
                            0 <= j2 < self.wires@.len() && 0 <= u < n
                                && self.wires@[j2].id == conns@[k as int] && joins(
                                self.wires@[j2].wire,
                                vid,
                                self.devices@[u].id,
                            ) implies visited@[u] by {
                            assert(j2 == j);
                            assert(self.devices@[u].id == target);
                        }
                    }
                } else {
                    proof {
                        assert(self.has_wire_touching(conns@[k as int], vid));
                    }
                }
                k += 1;
            }
            proof {
                assert forall|b: int| #[trigger] self.linked(v as int, b) implies visited@[b] by {
                    let j = choose|j: int|
                        0 <= j < self.wires@.len() && #[trigger] joins(
                            self.wires@[j].wire,
                            self.devices@[v as int].id,
                            self.devices@[b].id,
                        );
                    assert(self.wires@[j].wire.touches(self.devices@[v as int].id));
                    assert(conns@.contains(self.wires@[j].id));
                    let kk = choose|kk: int| 0 <= kk < conns@.len() && conns@[kk] == self.wires@[j].id;
                    assert(joins(self.wires@[j].wire, vid, self.devices@[b].id));
                }
            }
        }
        proof {
            assert forall|q: int| 0 <= q < n implies visited@[q] == self.energized(q) by {
                if self.energized(q) {
                    let p = choose|p: Seq<int>| #[trigger] self.is_path(p) && self.active_source(p[0]) && p.last() == q;
                    assert forall|a: int, b: int| #[trigger] self.linked(a, b) && visited@[a] implies visited@[b] by {
                        assert(!on_stack(stack@, a));
                    }
                    self.lemma_closed_holds_energized(visited@, p);
                }
            }
        }
        visited
    }

    /// Reachability reads only identifiers, sources and wires: two worlds
    /// that differ in consumer flags and attached-wire lists alike agree on
    /// which devices are energized.
    pub proof fn lemma_energized_same_graph(a: &World, b: &World)
        requires
            a.wires@ == b.wires@,
            a.devices@.len() == b.devices@.len(),
            forall|i: int|
                0 <= i < a.devices@.len() ==> (#[trigger] a.devices@[i]).id == b.devices@[i].id
                    && a.devices@[i].source == b.devices@[i].source,
        ensures
            forall|i: int| 0 <= i < a.devices@.len() ==> a.energized(i) == b.energized(i),
    {
        assert forall|x: int, y: int| a.linked(x, y) == b.linked(x, y) by {
            if a.linked(x, y) {
                let j = choose|j: int| 0 <= j < a.wires@.len() && #[trigger] joins(a.wires@[j].wire, a.devices@[x].id, a.devices@[y].id);
                assert(joins(b.wires@[j].wire, b.devices@[x].id, b.devices@[y].id));
            }
            if b.linked(x, y) {
                let j = choose|j: int| 0 <= j < b.wires@.len() && #[trigger] joins(b.wires@[j].wire, b.devices@[x].id, b.devices@[y].id);
                assert(joins(a.wires@[j].wire, a.devices@[x].id, a.devices@[y].id));
            }
        }
        assert forall|p: Seq<int>| a.is_path(p) == b.is_path(p) by {
            if a.is_path(p) {
                assert forall|k: int| 0 <= k < p.len() - 1 implies b.linked(#[trigger] p[k], p[k + 1]) by {
                    assert(a.linked(p[k], p[k + 1]));
                }
            }
            if b.is_path(p) {
                assert forall|k: int| 0 <= k < p.len() - 1 implies a.linked(#[trigger] p[k], p[k + 1]) by {
                    assert(b.linked(p[k], p[k + 1]));
                }
            }
        }
        assert forall|i: int| 0 <= i < a.devices@.len() implies a.energized(i) == b.energized(i) by {
            if a.energized(i) {
                let p = choose|p: Seq<int>| #[trigger] a.is_path(p) && a.active_source(p[0]) && p.last() == i;
                assert(b.is_path(p) && b.active_source(p[0]));
            }
            if b.energized(i) {
                let p = choose|p: Seq<int>| #[trigger] b.is_path(p) && b.active_source(p[0]) && p.last() == i;
                assert(a.is_path(p) && a.active_source(p[0]));
            }
        }
    }

    /// Every consumer's flag tells whether it is energized.
    pub open spec fn consumers_match_energized(&self) -> bool {
        forall|i: int|
            0 <= i < self.devices@.len() ==> (#[trigger] self.devices@[i].consumer matches Some(c) ==> c.powered
                == self.energized(i))
    }

    /// Recomputes every consumer's `powered` flag from scratch: true exactly
    /// when a chain of wires joins it to an active source. Nothing else
    /// changes.
    pub fn power_propagation_system(&mut self)
        requires
            old(self).wf(),
        ensures
            final(self).wf(),
            final(self).consumers_match_energized(),
            final(self).next_id == old(self).next_id,
            final(self).wires@ == old(self).wires@,
            final(self).pending@ == old(self).pending@,
            final(self).wire_state == old(self).wire_state,
            final(self).build_tool == old(self).build_tool,
            final(self).devices@.len() == old(self).devices@.len(),
            forall|i: int|
                0 <= i < old(self).devices@.len() ==> same_but_consumer(
                    old(self).devices@[i],
                    #[trigger] final(self).devices@[i],
                ),
    {
        let powered = self.energized_devices();
        let ghost start = *self;
        let mut i: usize = 0;
        while i < self.devices.len()
            invariant
                start.wf(),
                powered@.len() == start.devices@.len(),
                forall|q: int| 0 <= q < start.devices@.len() ==> powered@[q] == start.energized(q),
                self.devices@.len() == start.devices@.len(),
                i <= self.devices@.len(),
                self.next_id == start.next_id,
                self.wires@ == start.wires@,
                self.pending@ == start.pending@,
                self.wire_state == start.wire_state,
                self.build_tool == start.build_tool,
                forall|q: int|
                    0 <= q < start.devices@.len() ==> same_but_consumer(
                        start.devices@[q],
                        #[trigger] self.devices@[q],
                    ),
                forall|q: int|
                    0 <= q < i ==> (#[trigger] self.devices@[q].consumer matches Some(c) ==> c.powered
                        == powered@[q]),
            decreases start.devices@.len() - i,
        {
            if self.devices[i].consumer.is_some() {
                let on = powered[i];
                self.devices[i].consumer = Some(PowerConsumer { powered: on });
            }
            i += 1;
        }
        proof {
            World::lemma_energized_same_graph(&start, self);
            assert forall|i2: int, k: int|
                0 <= i2 < self.devices@.len() && 0 <= k < self.devices@[i2].point.connections@.len()
                    implies self.has_wire_touching(
                #[trigger] self.devices@[i2].point.connections@[k],
                self.devices@[i2].id,
            ) by {
                assert(same_but_consumer(start.devices@[i2], self.devices@[i2]));
                assert(start.has_wire_touching(start.devices@[i2].point.connections@[k], start.devices@[i2].id));
            }
            assert forall|i2: int, j: int|
                0 <= i2 < self.devices@.len() && 0 <= j < self.wires@.len() && (
                #[trigger] self.wires@[j]).wire.touches(#[trigger] self.devices@[i2].id)
                    implies self.devices@[i2].point.connections@.contains(self.wires@[j].id) by {
                assert(same_but_consumer(start.devices@[i2], self.devices@[i2]));
            }
            assert forall|i2: int, k: int|
                0 <= i2 < self.devices@.len() && 0 <= k < self.devices@.len() && i2 != k
                    implies #[trigger] self.devices@[i2].id != #[trigger] self.devices@[k].id
                    && self.devices@[i2].position != self.devices@[k].position by {
                assert(same_but_consumer(start.devices@[i2], self.devices@[i2]));
                assert(same_but_consumer(start.devices@[k], self.devices@[k]));
            }
            assert forall|i2: int, j: int|
                0 <= i2 < self.devices@.len() && 0 <= j < self.wires@.len()
                    implies #[trigger] self.devices@[i2].id != #[trigger] self.wires@[j].id by {
                assert(same_but_consumer(start.devices@[i2], self.devices@[i2]));
            }
        }
    }
}

} // verus!
