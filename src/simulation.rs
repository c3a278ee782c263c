//! One simulation step, and the read-only queries offered to presentation.
use vstd::prelude::*;
use crate::entity::Entity;
use crate::world::{same_but_consumer, Device, World, WireRecord};

verus! {

/// `b` is `a` with, at most, other attached wires and another consumer flag.
pub open spec fn same_layout(a: Device, b: Device) -> bool {
    &&& a.id == b.id
    &&& a.kind == b.kind
    &&& a.position == b.position
    &&& a.point.max_connections == b.point.max_connections
    &&& a.source == b.source
    &&& a.generator == b.generator
    &&& (a.consumer is Some <==> b.consumer is Some)
}

impl World {
    /// Two device lists with the same identifiers have the same live devices.
    pub proof fn lemma_same_ids(a: &World, b: &World)
        requires
            a.devices@.len() == b.devices@.len(),
            forall|i: int| 0 <= i < a.devices@.len() ==> (#[trigger] a.devices@[i]).id == b.devices@[i].id,
        ensures
            forall|e: Entity| a.has_device(e) == b.has_device(e),
    {
        assert forall|e: Entity| a.has_device(e) == b.has_device(e) by {
            if a.has_device(e) {
                let i = choose|i: int| 0 <= i < a.devices@.len() && a.devices@[i].id == e;
                assert(b.devices@[i].id == e);
            }
            if b.has_device(e) {
                let i = choose|i: int| 0 <= i < b.devices@.len() && b.devices@[i].id == e;
                assert(a.devices@[i].id == e);
            }
        }
    }

    /// What one tick guarantees. Queued requests are resolved in order, as
    /// `resolved` describes, and the queue is empty; no wire references a
    /// missing device; every consumer is powered exactly when a chain of
    /// wires joins it to an active source; devices keep their place, kind,
    /// capacity and sources. The wires are exactly the live ones from before
    /// and the ones created for accepted requests. A tick on a world with no
    /// queued request and no orphan changes no wire.
    pub open spec fn tick_post(before: &World, after: &World) -> bool {
        let made = before.resolved(before.pending@, before.pending@.len());
        &&& after.pending@.len() == 0
        &&& after.no_orphans()
        &&& after.consumers_match_energized()
        &&& after.next_id == before.next_id + made.len()
        &&& after.wire_state == before.wire_state
        &&& after.build_tool == before.build_tool
        &&& after.devices@.len() == before.devices@.len()
        &&& forall|i: int|
            0 <= i < before.devices@.len() ==> same_layout(
                before.devices@[i],
                #[trigger] after.devices@[i],
            )
        &&& forall|r: WireRecord|
            #[trigger] after.wires@.contains(r) <==> (before.wires@.contains(r) && before.wire_is_live(r))
                || made.contains(r)
        &&& (before.pending@.len() == 0 && before.no_orphans()) ==> {
            &&& after.wires@ == before.wires@
            &&& forall|i: int|
                0 <= i < before.devices@.len() ==> same_but_consumer(
                    before.devices@[i],
                    #[trigger] after.devices@[i],
                )
        }
    }

    /// Advances the simulation by one step: resolve queued wire requests,
    /// sweep orphaned wires, then recompute every consumer's power.
    pub fn tick(&mut self)
        requires
            old(self).wf(),
        ensures
            final(self).wf(),
            World::tick_post(old(self), final(self)),
    {
        let ghost s0 = *self;
        self.process_pending_wire_connections();
        let ghost s1 = *self;
        self.sweep_orphans();
        let ghost s2 = *self;
        self.power_propagation_system();
        proof {
            let made = s0.resolved(s0.pending@, s0.pending@.len());
            s0.lemma_resolved_bounds(s0.pending@, s0.pending@.len());
            World::lemma_same_ids(&s0, &s1);
            World::lemma_same_ids(&s2, self);
            assert forall|j: int| 0 <= j < self.wires@.len() implies self.wire_is_live(#[trigger] self.wires@[j]) by {
                assert(s2.wire_is_live(s2.wires@[j]));
            }
            assert forall|i: int| 0 <= i < s0.devices@.len() implies same_layout(
                s0.devices@[i],
                #[trigger] self.devices@[i],
            ) by {
                assert(same_but_consumer(s2.devices@[i], self.devices@[i]));
                assert(World::pruned_to(s1.devices@[i], s2.devices@[i], &s2));
                assert(crate::world::same_but_connections(s0.devices@[i], s1.devices@[i]));
            }
            assert forall|r: WireRecord|
                #[trigger] self.wires@.contains(r) <==> (s0.wires@.contains(r) && s0.wire_is_live(r))
                    || made.contains(r) by {
                assert(self.wires@.contains(r) <==> s1.wires@.contains(r) && s1.wire_is_live(r));
                if s0.wires@.contains(r) {
                    let j = choose|j: int| 0 <= j < s0.wires@.len() && s0.wires@[j] == r;
                    assert(s1.wires@[j] == r);
                }
                if made.contains(r) {
                    let k = choose|k: int| 0 <= k < made.len() && made[k] == r;
                    assert(s1.wires@[s0.wires@.len() + k] == r);
                    assert(s0.has_device(made[k].wire.from) && s0.has_device(made[k].wire.to));
                }
                if s1.wires@.contains(r) {
                    let j = choose|j: int| 0 <= j < s1.wires@.len() && s1.wires@[j] == r;
                    if j < s0.wires@.len() {
                        assert(s0.wires@[j] == r);
                    } else {
                        assert(made[j - s0.wires@.len()] == r);
                    }
                }
            }
        }
    }

    /// Running two ticks in a row, with nothing in between, leaves every
    /// consumer's `powered` flag as the first tick set it.
    pub proof fn lemma_tick_idempotent(a: &World, b: &World, c: &World)
        requires
            World::tick_post(a, b),
            World::tick_post(b, c),
        ensures
            c.devices@.len() == b.devices@.len(),
            forall|i: int|
                0 <= i < b.devices@.len() ==> (#[trigger] c.devices@[i]).consumer == b.devices@[i].consumer,
    {
        World::lemma_energized_same_graph(b, c);
        assert forall|i: int| 0 <= i < b.devices@.len() implies (#[trigger] c.devices@[i]).consumer
            == b.devices@[i].consumer by {
            assert(same_but_consumer(b.devices@[i], c.devices@[i]));
            if b.devices@[i].consumer is Some {
                assert(b.devices@[i].consumer->Some_0.powered == b.energized(i));
                assert(c.devices@[i].consumer->Some_0.powered == c.energized(i));
            }
        }
    }

    /// Whether `e` is a consumer whose `powered` flag is set.
    pub fn is_powered(&self, e: Entity) -> (r: bool)
        requires
            self.wf(),
        ensures
            r == exists|i: int|
                0 <= i < self.devices@.len() && self.devices@[i].id == e && (
                self.devices@[i].consumer matches Some(c) && c.powered),
    {
        match self.find_device(e) {
            Some(i) => {
                assert(forall|k: int| 0 <= k < self.devices@.len() && self.devices@[k].id == e ==> k == i);
                match &self.devices[i].consumer {
                    Some(c) => c.powered,
                    None => false,
                }
            },
            None => false,
        }
    }

    /// The wires attached to `e`; empty when `e` is not a live device.
    pub fn connections_of(&self, e: Entity) -> (r: Vec<Entity>)
        requires
            self.wf(),
        ensures
            !self.has_device(e) ==> r@.len() == 0,
            forall|i: int|
                0 <= i < self.devices@.len() && self.devices@[i].id == e ==> r@
                    == self.devices@[i].point.connections@,
    {
        match self.find_device(e) {
            Some(i) => {
                assert(forall|k: int| 0 <= k < self.devices@.len() && self.devices@[k].id == e ==> k == i);
                let conns = &self.devices[i].point.connections;
                let mut r: Vec<Entity> = Vec::new();
                let mut k: usize = 0;
                while k < conns.len()
                    invariant
                        k <= conns@.len(),
                        r@ == conns@.take(k as int),
                    decreases conns@.len() - k,
                {
                    r.push(conns[k]);
                    k += 1;
                    assert(r@ =~= conns@.take(k as int));
                }
                assert(conns@.take(conns@.len() as int) =~= conns@);
                r
            },
            None => Vec::new(),
        }
    }

    /// The devices across each wire attached to `e`: for every attached
    /// wire, in order, the endpoint that is not `e`. Empty when `e` is not a
    /// live device.
    pub fn neighbors_of(&self, e: Entity) -> (r: Vec<Entity>)
        requires
            self.wf(),
        ensures
            !self.has_device(e) ==> r@.len() == 0,
            forall|i: int|
                0 <= i < self.devices@.len() && self.devices@[i].id == e ==> {
                    &&& r@.len() == self.devices@[i].point.connections@.len()
                    &&& forall|k: int, j: int|
                        #![trigger self.wires@[j], r@[k]]
                        0 <= k < r@.len() && 0 <= j < self.wires@.len() && self.wires@[j].id
                            == self.devices@[i].point.connections@[k] ==> r@[k]
                            == self.wires@[j].wire.other_end(e)
                },
            forall|x: Entity|
                #[trigger] r@.contains(x) <==> exists|j: int|
                    0 <= j < self.wires@.len() && self.wires@[j].wire.touches(e)
                        && self.has_device(e) && #[trigger] self.wires@[j].wire.other_end(e) == x,
    {
        match self.find_device(e) {
            Some(i) => {
                let conns = &self.devices[i].point.connections;
                let mut r: Vec<Entity> = Vec::new();
                let mut k: usize = 0;
                while k < conns.len()
                    invariant
                        self.wf(),
                        i < self.devices@.len(),
                        self.devices@[i as int].id == e,
                        conns == &self.devices@[i as int].point.connections,
                        k <= conns@.len(),
                        r@.len() == k,
                        forall|kk: int, j: int|
                            #![trigger self.wires@[j], conns@[kk]]
                            0 <= kk < k && 0 <= j < self.wires@.len() && self.wires@[j].id == conns@[kk]
                                ==> r@[kk] == self.wires@[j].wire.other_end(e),
                        forall|kk: int|
                            0 <= kk < k ==> exists|j: int|
                                0 <= j < self.wires@.len() && self.wires@[j].wire.touches(e)
                                    && self.wires@[j].wire.other_end(e) == #[trigger] r@[kk],
                    decreases conns@.len() - k,
                {
                    let w = conns[k];
                    proof {
                        assert(self.has_wire_touching(conns@[k as int], e));
                    }
                    let j = self.find_wire(w).unwrap();
                    let rec = self.wires[j];
                    let other = if rec.wire.from == e {
                        rec.wire.to
                    } else {
                        rec.wire.from
                    };
                    let ghost prev = r@;
                    r.push(other);
                    proof {
                        let j0 = choose|j0: int|
                            0 <= j0 < self.wires@.len() && self.wires@[j0].id == w
                                && self.wires@[j0].wire.touches(e);
                        assert(j0 == j);
                        assert forall|kk: int, j2: int|
                            #![trigger self.wires@[j2], conns@[kk]]
                            0 <= kk < k + 1 && 0 <= j2 < self.wires@.len() && self.wires@[j2].id == conns@[kk]
                                implies r@[kk] == self.wires@[j2].wire.other_end(e) by {
                            if kk < k {
                                assert(r@[kk] == prev[kk]);
                            }
                        }
                        assert forall|kk: int| 0 <= kk < k + 1 implies exists|j2: int|
                            0 <= j2 < self.wires@.len() && self.wires@[j2].wire.touches(e)
                                && self.wires@[j2].wire.other_end(e) == #[trigger] r@[kk] by {
                            if kk < k {
                                assert(r@[kk] == prev[kk]);
                            } else {
                                assert(r@[kk] == self.wires@[j as int].wire.other_end(e));
                            }
                        }
                    }
                    k += 1;
                }
                proof {
                    assert(forall|i2: int| 0 <= i2 < self.devices@.len() && self.devices@[i2].id == e ==> i2 == i);
                    assert forall|i2: int| 0 <= i2 < self.devices@.len() && self.devices@[i2].id == e implies {
                        &&& r@.len() == self.devices@[i2].point.connections@.len()
                        &&& forall|k: int, j: int|
                            #![trigger self.wires@[j], r@[k]]
                            0 <= k < r@.len() && 0 <= j < self.wires@.len() && self.wires@[j].id
                                == self.devices@[i2].point.connections@[k] ==> r@[k]
                                == self.wires@[j].wire.other_end(e)
                    } by {
                        assert(i2 == i);
                        assert forall|k: int, j: int|
                            #![trigger self.wires@[j], r@[k]]
                            0 <= k < r@.len() && 0 <= j < self.wires@.len() && self.wires@[j].id
                                == conns@[k] implies r@[k] == self.wires@[j].wire.other_end(e) by {
                            assert(self.wires@[j].id == conns@[k]);
                        }
                    }
                    assert forall|x: Entity|
                        #[trigger] r@.contains(x) <==> exists|j: int|
                            0 <= j < self.wires@.len() && self.wires@[j].wire.touches(e)
                                && self.has_device(e) && #[trigger] self.wires@[j].wire.other_end(e) == x by {
                        if r@.contains(x) {
                            let kk = choose|kk: int| 0 <= kk < r@.len() && r@[kk] == x;
                            assert(exists|j: int|
                                0 <= j < self.wires@.len() && self.wires@[j].wire.touches(e)
                                    && self.wires@[j].wire.other_end(e) == r@[kk]);
                        }
                        if exists|j: int|
                            0 <= j < self.wires@.len() && self.wires@[j].wire.touches(e)
                                && self.has_device(e) && #[trigger] self.wires@[j].wire.other_end(e) == x {
                            let j = choose|j: int|
                                0 <= j < self.wires@.len() && self.wires@[j].wire.touches(e)
                                    && self.has_device(e) && #[trigger] self.wires@[j].wire.other_end(e) == x;
                            assert(self.devices@[i as int].point.connections@.contains(self.wires@[j].id));
                            let kk = choose|kk: int| 0 <= kk < conns@.len() && conns@[kk] == self.wires@[j].id;
                            assert(r@[kk] == x);
                        }
                    }
                }
                r
            },
            None => Vec::new(),
        }
    }
}

} // verus!
