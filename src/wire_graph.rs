//! Wire creation, removal and the orphan sweep.
use vstd::prelude::*;
use crate::entity::Entity;
use crate::connection::{ConnectionError, Wire};
use crate::world::{same_but_connections, Device, World, WireRecord};

verus! {

impl World {
    /// `e` is a live device with room for another wire.
    pub open spec fn has_room(&self, e: Entity) -> bool {
        exists|i: int|
            0 <= i < self.devices@.len() && self.devices@[i].id == e
                && self.devices@[i].point.has_room()
    }

    /// Both endpoints are live devices with room for another wire.
    pub fn can_connect(&self, from: Entity, to: Entity) -> (r: bool)
        requires
            self.wf(),
        ensures
            r == (self.has_room(from) && self.has_room(to)),
    {
        match (self.find_device(from), self.find_device(to)) {
            (Some(fi), Some(ti)) => {
                self.devices[fi].point.can_connect() && self.devices[ti].point.can_connect()
            },
            _ => false,
        }
    }

    /// `after` is `before` with wire `w` attached to the devices `a` and `b`,
    /// and nothing else changed on any device.
    pub open spec fn attached_to_both(before: &World, after: &World, w: Entity, a: Entity, b: Entity) -> bool {
        &&& after.devices@.len() == before.devices@.len()
        &&& forall|i: int| 0 <= i < before.devices@.len() ==> {
            &&& same_but_connections(before.devices@[i], #[trigger] after.devices@[i])
            &&& after.devices@[i].point.connections@ == if before.devices@[i].id == a
                || before.devices@[i].id == b {
                before.devices@[i].point.connections@.push(w)
            } else {
                before.devices@[i].point.connections@
            }
        }
    }

    /// `after` is `before` with a new wire from `from` to `to` under the next
    /// identifier, attached to both; the selection is not constrained.
    pub open spec fn wire_added(before: &World, after: &World, from: Entity, to: Entity) -> bool {
        &&& after.next_id == before.next_id + 1
        &&& after.wires@ == before.wires@.push(
            WireRecord { id: Entity { id: before.next_id }, wire: Wire { from, to } },
        )
        &&& after.pending@ == before.pending@
        &&& after.build_tool == before.build_tool
        &&& World::attached_to_both(before, after, Entity { id: before.next_id }, from, to)
    }

    /// Creates a wire between two distinct live devices that both have room,
    /// attaching it to both. Fails, changing nothing, with `SameEndpoint` when
    /// `from == to`, else with `InvalidEndpoint` when either is not a live
    /// device, else with `AtCapacity` when either is full.
    pub fn create_wire(&mut self, from: Entity, to: Entity) -> (r: Result<Entity, ConnectionError>)
        requires
            old(self).wf(),
            old(self).next_id < u64::MAX,
        ensures
            final(self).wf(),
            from == to ==> r == Err::<Entity, ConnectionError>(ConnectionError::SameEndpoint),
            from != to && !(old(self).has_device(from) && old(self).has_device(to)) ==> r == Err::<
                Entity,
                ConnectionError,
            >(ConnectionError::InvalidEndpoint),
            from != to && old(self).has_device(from) && old(self).has_device(to) && !(old(
                self,
            ).has_room(from) && old(self).has_room(to)) ==> r == Err::<Entity, ConnectionError>(
                ConnectionError::AtCapacity,
            ),
            r is Ok <==> (from != to && old(self).has_room(from) && old(self).has_room(to)),
            r is Err ==> *final(self) == *old(self),
            r is Ok ==> {
                &&& r == Ok::<Entity, ConnectionError>(Entity { id: old(self).next_id })
                &&& World::wire_added(old(self), final(self), from, to)
                &&& final(self).wire_state == old(self).wire_state
            },
    {
        if from == to {
            return Err(ConnectionError::SameEndpoint);
        }
        let fi = match self.find_device(from) {
            Some(i) => i,
            None => {
                return Err(ConnectionError::InvalidEndpoint);
            },
        };
        let ti = match self.find_device(to) {
            Some(i) => i,
            None => {
                return Err(ConnectionError::InvalidEndpoint);
            },
        };
        assert(forall|i: int| 0 <= i < self.devices@.len() && self.devices@[i].id == from ==> i == fi);
        assert(forall|i: int| 0 <= i < self.devices@.len() && self.devices@[i].id == to ==> i == ti);
        if !(self.devices[fi].point.can_connect() && self.devices[ti].point.can_connect()) {
            return Err(ConnectionError::AtCapacity);
        }
        let ghost before = *self;
        let w = Entity { id: self.next_id };
        assert forall|i: int| 0 <= i < before.devices@.len() implies !(#[trigger] before.devices@[i]).point.connections@.contains(w) by {
            if before.devices@[i].point.connections@.contains(w) {
                let k = choose|k: int| 0 <= k < before.devices@[i].point.connections@.len() && before.devices@[i].point.connections@[k] == w;
                assert(before.has_wire_touching(before.devices@[i].point.connections@[k], before.devices@[i].id));
            }
        }
        self.devices[fi].point.add_connection(w);
        self.devices[ti].point.add_connection(w);
        self.wires.push(WireRecord { id: w, wire: Wire { from, to } });
        self.next_id = self.next_id + 1;
        assert forall|i: int| 0 <= i < before.devices@.len() implies {
            &&& same_but_connections(before.devices@[i], #[trigger] self.devices@[i])
            &&& self.devices@[i].point.connections@ == if before.devices@[i].id == from
                || before.devices@[i].id == to {
                before.devices@[i].point.connections@.push(w)
            } else {
                before.devices@[i].point.connections@
            }
        } by {}
        assert forall|i: int, k: int|
            0 <= i < self.devices@.len() && 0 <= k < self.devices@[i].point.connections@.len()
                implies self.has_wire_touching(
            #[trigger] self.devices@[i].point.connections@[k],
            self.devices@[i].id,
        ) by {
            let c = self.devices@[i].point.connections@[k];
            if k < before.devices@[i].point.connections@.len() {
                assert(c == before.devices@[i].point.connections@[k]);
                assert(before.has_wire_touching(c, before.devices@[i].id));
                let j = choose|j: int| 0 <= j < before.wires@.len() && before.wires@[j].id == c && before.wires@[j].wire.touches(before.devices@[i].id);
                assert(self.wires@[j] == before.wires@[j]);
            } else {
                let j = before.wires@.len() as int;
                assert(self.wires@[j].id == c);
            }
        }
        assert forall|i: int, j: int|
            0 <= i < self.devices@.len() && 0 <= j < self.wires@.len() && (
            #[trigger] self.wires@[j]).wire.touches(#[trigger] self.devices@[i].id)
                implies self.devices@[i].point.connections@.contains(self.wires@[j].id) by {
            if j < before.wires@.len() {
                assert(self.wires@[j] == before.wires@[j]);
                assert(before.devices@[i].point.connections@.contains(before.wires@[j].id));
                let k = choose|k: int| 0 <= k < before.devices@[i].point.connections@.len() && before.devices@[i].point.connections@[k] == before.wires@[j].id;
                assert(self.devices@[i].point.connections@[k] == before.wires@[j].id);
            } else {
                assert(self.devices@[i].point.connections@.last() == w);
            }
        }
        Ok(w)
    }

    /// `after` is `before` with wire `w` detached from every device, and
    /// nothing else changed on any device.
    pub open spec fn detached_from_all(before: &World, after: &World, w: Entity) -> bool {
        &&& after.devices@.len() == before.devices@.len()
        &&& forall|i: int| 0 <= i < before.devices@.len() ==> {
            &&& same_but_connections(before.devices@[i], #[trigger] after.devices@[i])
            &&& forall|c: Entity|
                after.devices@[i].point.connections@.contains(c) <==> (
                before.devices@[i].point.connections@.contains(c) && c != w)
        }
    }

    /// Removes the wire `wire`, detaching it from whichever endpoints still
    /// exist. Nothing changes when there is no such wire.
    pub fn remove_wire(&mut self, wire: Entity)
        requires
            old(self).wf(),
        ensures
            final(self).wf(),
            final(self).next_id == old(self).next_id,
            final(self).pending@ == old(self).pending@,
            final(self).wire_state == old(self).wire_state,
            final(self).build_tool == old(self).build_tool,
            !final(self).has_wire(wire),
            !old(self).has_wire(wire) ==> *final(self) == *old(self),
            forall|j: int|
                0 <= j < old(self).wires@.len() && old(self).wires@[j].id == wire
                    ==> final(self).wires@ == old(self).wires@.remove(j),
            World::detached_from_all(old(self), final(self), wire),
            forall|e: Entity| final(self).has_device(e) == old(self).has_device(e),
    {
        let ghost before = *self;
        if let Some(j) = self.find_wire(wire) {
            let rec = self.wires[j];
            assert forall|i: int|
                0 <= i < before.devices@.len() && (#[trigger] before.devices@[i]).point.connections@.contains(wire)
                    implies rec.wire.touches(before.devices@[i].id) by {
                let k = choose|k: int| 0 <= k < before.devices@[i].point.connections@.len() && before.devices@[i].point.connections@[k] == wire;
                assert(before.has_wire_touching(before.devices@[i].point.connections@[k], before.devices@[i].id));
            }
            if let Some(fi) = self.find_device(rec.wire.from) {
                self.devices[fi].point.remove_connection(wire);
            }
            let ghost mid = *self;
            if let Some(ti) = self.find_device(rec.wire.to) {
                self.devices[ti].point.remove_connection(wire);
            }
            self.wires.remove(j);
            assert forall|i: int| 0 <= i < before.devices@.len() implies {
                &&& same_but_connections(before.devices@[i], #[trigger] self.devices@[i])
                &&& forall|c: Entity|
                    self.devices@[i].point.connections@.contains(c) <==> (
                    before.devices@[i].point.connections@.contains(c) && c != wire)
            } by {
                assert(same_but_connections(before.devices@[i], mid.devices@[i]));
                assert(forall|c: Entity|
                    mid.devices@[i].point.connections@.contains(c) <==> (
                    before.devices@[i].point.connections@.contains(c) && (c != wire || before.devices@[i].id != rec.wire.from)));
            }
            assert forall|k: int| 0 <= k < self.wires@.len() implies #[trigger] self.wires@[k]
                == before.wires@[if k < j { k } else { k + 1 }] by {}
            assert forall|i: int, k: int|
                0 <= i < self.devices@.len() && 0 <= k < self.devices@[i].point.connections@.len()
                    implies self.has_wire_touching(
                #[trigger] self.devices@[i].point.connections@[k],
                self.devices@[i].id,
            ) by {
                let c = self.devices@[i].point.connections@[k];
                assert(self.devices@[i].point.connections@.contains(c));
                assert(before.devices@[i].point.connections@.contains(c));
                let k0 = choose|k0: int| 0 <= k0 < before.devices@[i].point.connections@.len() && before.devices@[i].point.connections@[k0] == c;
                assert(before.has_wire_touching(before.devices@[i].point.connections@[k0], before.devices@[i].id));
                let j0 = choose|j0: int| 0 <= j0 < before.wires@.len() && before.wires@[j0].id == c && before.wires@[j0].wire.touches(before.devices@[i].id);
                assert(j0 != j);
                let j1 = if j0 < j { j0 } else { j0 - 1 };
                assert(self.wires@[j1] == before.wires@[j0]);
            }
            assert forall|i: int, j2: int|
                0 <= i < self.devices@.len() && 0 <= j2 < self.wires@.len() && (
                #[trigger] self.wires@[j2]).wire.touches(#[trigger] self.devices@[i].id)
                    implies self.devices@[i].point.connections@.contains(self.wires@[j2].id) by {
                let o = if j2 < j { j2 } else { j2 + 1 };
                assert(self.wires@[j2] == before.wires@[o]);
                assert(before.devices@[i].point.connections@.contains(before.wires@[o].id));
            }
            assert forall|j2: int, k: int|
                0 <= j2 < self.wires@.len() && 0 <= k < self.wires@.len() && j2 != k
                    implies #[trigger] self.wires@[j2].id != #[trigger] self.wires@[k].id by {
                let o = if j2 < j { j2 } else { j2 + 1 };
                let p = if k < j { k } else { k + 1 };
                assert(self.wires@[j2] == before.wires@[o]);
                assert(self.wires@[k] == before.wires@[p]);
            }
            assert(!self.has_wire(wire)) by {
                if self.has_wire(wire) {
                    let k = choose|k: int| 0 <= k < self.wires@.len() && self.wires@[k].id == wire;
                    let o = if k < j { k } else { k + 1 };
                    assert(before.wires@[o].id == wire);
                }
            }
            assert forall|j2: int| 0 <= j2 < before.wires@.len() && before.wires@[j2].id == wire implies j2 == j by {}
        }
        assert forall|e: Entity| self.has_device(e) == before.has_device(e) by {
            if self.has_device(e) {
                let i = choose|i: int| 0 <= i < self.devices@.len() && self.devices@[i].id == e;
                assert(same_but_connections(before.devices@[i], self.devices@[i]));
            }
            if before.has_device(e) {
                let i = choose|i: int| 0 <= i < before.devices@.len() && before.devices@[i].id == e;
                assert(same_but_connections(before.devices@[i], self.devices@[i]));
            }
        }
    }

    /// `after` is `before` with exactly the wires that are live in `w` still
    /// attached, and nothing else changed.
    pub open spec fn pruned_to(before: Device, after: Device, w: &World) -> bool {
        &&& same_but_connections(before, after)
        &&& forall|c: Entity|
            #![trigger after.point.connections@.contains(c)]
            #![trigger before.point.connections@.contains(c)]
            after.point.connections@.contains(c) <==> (before.point.connections@.contains(c)
                && w.has_wire(c))
    }

    /// Removes every wire that has an endpoint that is no longer a live
    /// device, detaching it from the endpoint that survives.
    pub fn sweep_orphans(&mut self)
        requires
            old(self).wf(),
        ensures
            final(self).wf(),
            final(self).no_orphans(),
            final(self).next_id == old(self).next_id,
            final(self).pending@ == old(self).pending@,
            final(self).wire_state == old(self).wire_state,
            final(self).build_tool == old(self).build_tool,
            forall|r: WireRecord|
                #![trigger final(self).wires@.contains(r)]
                #![trigger old(self).wires@.contains(r)]
                final(self).wires@.contains(r) <==> (old(self).wires@.contains(r) && old(
                    self,
                ).wire_is_live(r)),
            final(self).devices@.len() == old(self).devices@.len(),
            forall|i: int|
                0 <= i < old(self).devices@.len() ==> World::pruned_to(
                    old(self).devices@[i],
                    #[trigger] final(self).devices@[i],
                    final(self),
                ),
            forall|e: Entity| final(self).has_device(e) == old(self).has_device(e),
            old(self).no_orphans() ==> *final(self) == *old(self),
    {
        let ghost start = *self;
        let mut j: usize = 0;
        while j < self.wires.len()
            invariant
                self.wf(),
                j <= self.wires@.len(),
                forall|j2: int| 0 <= j2 < j ==> self.wire_is_live(#[trigger] self.wires@[j2]),
                self.next_id == start.next_id,
                self.pending@ == start.pending@,
                self.wire_state == start.wire_state,
                self.build_tool == start.build_tool,
                forall|e: Entity| self.has_device(e) == start.has_device(e),
                forall|r: WireRecord| self.wires@.contains(r) ==> start.wires@.contains(r),
                forall|r: WireRecord|
                    start.wires@.contains(r) && start.wire_is_live(r) ==> self.wires@.contains(r),
                self.devices@.len() == start.devices@.len(),
                forall|i: int|
                    0 <= i < start.devices@.len() ==> World::pruned_to(
                        start.devices@[i],
                        #[trigger] self.devices@[i],
                        self,
                    ),
                start.no_orphans() ==> *self == start,
            decreases self.wires@.len() - j,
        {
            let rec = self.wires[j];
            let from_exists = self.find_device(rec.wire.from).is_some();
            let to_exists = self.find_device(rec.wire.to).is_some();
            if from_exists && to_exists {
                j += 1;
            } else {
                let ghost before = *self;
                assert(!start.wire_is_live(rec));
                assert(start.no_orphans() ==> false) by {
                    if start.no_orphans() {
                        assert(self.wires@[j as int] == start.wires@[j as int]);
                    }
                }
                self.remove_wire(rec.id);
                assert(before.wires@[j as int].id == rec.id);
                assert(self.wires@ == before.wires@.remove(j as int));
                assert forall|j2: int| 0 <= j2 < j implies self.wire_is_live(#[trigger] self.wires@[j2]) by {
                    assert(self.wires@[j2] == before.wires@[j2]);
                }
                assert forall|r: WireRecord| self.wires@.contains(r) implies start.wires@.contains(r) by {
                    let k = choose|k: int| 0 <= k < self.wires@.len() && self.wires@[k] == r;
                    let o = if k < j { k } else { k + 1 };
                    assert(before.wires@[o] == r);
                }
                assert forall|r: WireRecord|
                    start.wires@.contains(r) && start.wire_is_live(r) implies self.wires@.contains(r) by {
                    assert(before.wires@.contains(r));
                    let k = choose|k: int| 0 <= k < before.wires@.len() && before.wires@[k] == r;
                    assert(k != j);
                    let n = if k < j { k } else { k - 1 };
                    assert(self.wires@[n] == r);
                }
                assert forall|c: Entity| self.has_wire(c) <==> (before.has_wire(c) && c != rec.id) by {
                    if self.has_wire(c) {
                        let k = choose|k: int| 0 <= k < self.wires@.len() && self.wires@[k].id == c;
                        let o = if k < j { k } else { k + 1 };
                        assert(before.wires@[o].id == c);
                    }
                    if before.has_wire(c) && c != rec.id {
                        let k = choose|k: int| 0 <= k < before.wires@.len() && before.wires@[k].id == c;
                        let n = if k < j { k } else { k - 1 };
                        assert(self.wires@[n].id == c);
                    }
                }
                assert forall|i: int| 0 <= i < start.devices@.len() implies World::pruned_to(
                    start.devices@[i],
                    #[trigger] self.devices@[i],
                    self,
                ) by {
                    assert(World::pruned_to(start.devices@[i], before.devices@[i], &before));
                    assert(same_but_connections(before.devices@[i], self.devices@[i]));
                    assert forall|c: Entity|
                        self.devices@[i].point.connections@.contains(c) <==> (
                        start.devices@[i].point.connections@.contains(c) && self.has_wire(c)) by {
                        assert(self.devices@[i].point.connections@.contains(c) <==> (
                            before.devices@[i].point.connections@.contains(c) && c != rec.id));
                        assert(before.devices@[i].point.connections@.contains(c) <==> (
                            start.devices@[i].point.connections@.contains(c) && before.has_wire(c)));
                    }
                }
            }
        }
        assert forall|r: WireRecord| self.wires@.contains(r) implies start.wire_is_live(r) by {
            let k = choose|k: int| 0 <= k < self.wires@.len() && self.wires@[k] == r;
            assert(self.wire_is_live(self.wires@[k]));
        }
    }

    /// Capacity is reached after as many successful wire creations as it
    /// allows: when a device that starts with no wire is an endpoint of each
    /// of `max_connections` consecutive wire creations, it holds exactly that
    /// many wires and has no room left, so a further `create_wire` with it
    /// fails with `AtCapacity` and changes nothing.
    pub proof fn lemma_capacity_reached(steps: Seq<World>, d: Entity, partners: Seq<Entity>)
        requires
            steps.len() >= 1,
            steps[0].wf(),
            steps[0].has_device(d),
            forall|i: int|
                0 <= i < steps[0].devices@.len() && steps[0].devices@[i].id == d
                    ==> steps[0].devices@[i].point.connections@.len() == 0,
            partners.len() == steps.len() - 1,
            forall|s: int|
                0 <= s < steps.len() - 1 ==> World::wire_added(
                    &#[trigger] steps[s],
                    &steps[s + 1],
                    d,
                    partners[s],
                ) || World::wire_added(&steps[s], &steps[s + 1], partners[s], d),
        ensures
            steps.last().has_device(d),
            steps.last().devices@.len() == steps[0].devices@.len(),
            forall|i: int|
                0 <= i < steps[0].devices@.len() ==> (#[trigger] steps.last().devices@[i]).id
                    == steps[0].devices@[i].id,
            forall|i: int|
                0 <= i < steps.last().devices@.len() && steps.last().devices@[i].id == d ==> {
                    &&& steps.last().devices@[i].point.connections@.len() == steps.len() - 1
                    &&& steps.last().devices@[i].point.max_connections
                        == steps[0].devices@[i].point.max_connections
                },
            forall|i: int|
                0 <= i < steps[0].devices@.len() && steps[0].devices@[i].id == d
                    && steps[0].devices@[i].point.max_connections == steps.len() - 1
                    ==> !steps.last().has_room(d),
        decreases steps.len(),
    {
        if steps.len() > 1 {
            let prefix = steps.drop_last();
            assert forall|s: int| 0 <= s < prefix.len() - 1 implies World::wire_added(
                &#[trigger] prefix[s],
                &prefix[s + 1],
                d,
                partners.drop_last()[s],
            ) || World::wire_added(&prefix[s], &prefix[s + 1], partners.drop_last()[s], d) by {
                assert(prefix[s] == steps[s] && prefix[s + 1] == steps[s + 1]);
                assert(World::wire_added(&steps[s], &steps[s + 1], d, partners[s])
                    || World::wire_added(&steps[s], &steps[s + 1], partners[s], d));
            }
            World::lemma_capacity_reached(prefix, d, partners.drop_last());
            let n = steps.len() - 2;
            let a = steps[n];
            let b = steps[n + 1];
            assert(a == prefix.last());
            assert(World::wire_added(&a, &b, d, partners[n]) || World::wire_added(&a, &b, partners[n], d));
            assert forall|i: int|
                0 <= i < b.devices@.len() && b.devices@[i].id == d implies {
                    &&& b.devices@[i].point.connections@.len() == steps.len() - 1
                    &&& b.devices@[i].point.max_connections == steps[0].devices@[i].point.max_connections
                } by {
                assert(same_but_connections(a.devices@[i], b.devices@[i]));
            }
            assert forall|i: int| 0 <= i < steps[0].devices@.len() implies (#[trigger] b.devices@[i]).id
                == steps[0].devices@[i].id by {
                assert(same_but_connections(a.devices@[i], b.devices@[i]));
            }
            assert(b.has_device(d)) by {
                let i = choose|i: int| 0 <= i < a.devices@.len() && a.devices@[i].id == d;
                assert(same_but_connections(a.devices@[i], b.devices@[i]));
            }
            World::lemma_room_gone(steps, d);
        } else {
            World::lemma_room_gone(steps, d);
        }
    }

    proof fn lemma_room_gone(steps: Seq<World>, d: Entity)
        requires
            steps.len() >= 1,
            steps[0].wf(),
            steps.last().devices@.len() == steps[0].devices@.len(),
            forall|i: int|
                0 <= i < steps.last().devices@.len() && steps.last().devices@[i].id == d ==> {
                    &&& steps.last().devices@[i].point.connections@.len() == steps.len() - 1
                    &&& steps.last().devices@[i].point.max_connections
                        == steps[0].devices@[i].point.max_connections
                },
            forall|i: int|
                0 <= i < steps[0].devices@.len() ==> steps.last().devices@[i].id == steps[0].devices@[i].id,
        ensures
            forall|i: int|
                0 <= i < steps[0].devices@.len() && steps[0].devices@[i].id == d
                    && steps[0].devices@[i].point.max_connections == steps.len() - 1
                    ==> !steps.last().has_room(d),
    {
        let last = steps.last();
        assert forall|i: int|
            0 <= i < steps[0].devices@.len() && steps[0].devices@[i].id == d
                && steps[0].devices@[i].point.max_connections == steps.len() - 1
                implies !last.has_room(d) by {
            if last.has_room(d) {
                let k = choose|k: int|
                    0 <= k < last.devices@.len() && last.devices@[k].id == d
                        && last.devices@[k].point.has_room();
                if k != i {
                    assert(steps[0].devices@[k].id == d);
                    assert(steps[0].devices@[i].id != steps[0].devices@[k].id);
                }
            }
        }
    }
}

} // verus!
