//! The placement controller: grid clicks become device and wire edits,
//! including the two-click wire-drawing interaction and the deferred
//! connection to a freshly spawned pole.
use vstd::prelude::*;
use crate::entity::{BuildTool, Button, Entity, GridPosition, TileContent};
use crate::connection::Wire;
use crate::world::{World, WireRecord};

verus! {

/// Wire-drawing selection: either nothing is selected, or the first endpoint
/// of a wire has been clicked while the wire tool is active.
#[derive(Clone, Copy, Debug, PartialEq, Eq, Structural)]
pub enum WireState {
    Idle,
    Armed { selected: Entity, position: GridPosition },
}

/// A wire request whose `to` endpoint was spawned in the same step; it is
/// resolved, or dropped, by the next tick.
#[derive(Clone, Copy, Debug, PartialEq, Eq, Structural)]
pub struct PendingWireConnection {
    pub from: Entity,
    pub to: Entity,
}

impl World {
    /// Only the controller's selection may differ.
    pub open spec fn same_but_selection(&self, other: &World) -> bool {
        &&& self.devices@ == other.devices@
        &&& self.wires@ == other.wires@
        &&& self.pending@ == other.pending@
        &&& self.build_tool == other.build_tool
        &&& self.next_id == other.next_id
    }

    /// Effect of a wire-tool click on the device `item` at `pos`. With an
    /// endpoint selected, the click connects it to `item` when the two differ
    /// and both have room, and the selection is dropped either way. With none
    /// selected, `item` becomes the selection when it has room.
    pub open spec fn wire_click_post(before: &World, after: &World, item: Entity, pos: GridPosition) -> bool {
        match before.wire_state {
            WireState::Armed { selected, .. } => {
                &&& after.wire_state == WireState::Idle
                &&& if selected != item && before.has_room(selected) && before.has_room(item) {
                    World::wire_added(before, after, selected, item)
                } else {
                    after.same_but_selection(before)
                }
            },
            WireState::Idle => {
                if before.has_room(item) {
                    &&& after.wire_state == (WireState::Armed { selected: item, position: pos })
                    &&& after.same_but_selection(before)
                } else {
                    *after == *before
                }
            },
        }
    }

    /// Effect of a wire-tool click on the empty cell `pos` with an endpoint
    /// selected: a pole is placed there, a request to wire the selection to
    /// it is queued, and the selection is dropped.
    pub open spec fn empty_tile_post(before: &World, after: &World, pos: GridPosition) -> bool {
        match before.wire_state {
            WireState::Armed { selected, .. } => {
                &&& after.next_id == before.next_id + 1
                &&& after.devices@.len() == before.devices@.len() + 1
                &&& after.devices@.take(before.devices@.len() as int) == before.devices@
                &&& crate::world::fresh_device(
                    after.devices@.last(),
                    Entity { id: before.next_id },
                    TileContent::PowerPole,
                    pos,
                )
                &&& after.wires@ == before.wires@
                &&& after.pending@ == before.pending@.push(
                    PendingWireConnection { from: selected, to: Entity { id: before.next_id } },
                )
                &&& after.wire_state == WireState::Idle
                &&& after.build_tool == before.build_tool
            },
            WireState::Idle => *after == *before,
        }
    }

    /// Selects another tool; nothing else changes.
    pub fn set_build_tool(&mut self, tool: BuildTool)
        ensures
            final(self).build_tool == tool,
            final(self).devices@ == old(self).devices@,
            final(self).wires@ == old(self).wires@,
            final(self).pending@ == old(self).pending@,
            final(self).wire_state == old(self).wire_state,
            final(self).next_id == old(self).next_id,
    {
        self.build_tool = tool;
    }

    /// A wire-tool click on the live device `item` standing at `pos`.
    pub fn handle_wire_placement(&mut self, item: Entity, pos: GridPosition)
        requires
            old(self).wf(),
            old(self).has_device(item),
            old(self).wire_state is Armed ==> old(self).next_id < u64::MAX,
        ensures
            final(self).wf(),
            World::wire_click_post(old(self), final(self), item, pos),
    {
        match self.wire_state {
            WireState::Armed { selected, .. } => {
                if selected != item && self.can_connect(selected, item) {
                    let _ = self.create_wire(selected, item);
                }
                let ghost before = *self;
                self.wire_state = WireState::Idle;
                proof {
                    World::lemma_wf_same_tables(&before, self);
                }
            },
            WireState::Idle => {
                let i = self.find_device(item).unwrap();
                assert(self.devices@[i as int].id.id < self.next_id);
                if self.devices[i].point.can_connect() {
                    let ghost before = *self;
                    self.wire_state = WireState::Armed { selected: item, position: pos };
                    proof {
                        World::lemma_wf_same_tables(&before, self);
                    }
                }
            },
        }
    }

    /// A wire-tool click on the free cell `pos` while an endpoint is selected.
    pub fn handle_wire_to_empty_tile(&mut self, pos: GridPosition)
        requires
            old(self).wf(),
            pos.on_grid_spec(),
            !old(self).occupied(pos),
            old(self).next_id < u64::MAX,
        ensures
            final(self).wf(),
            World::empty_tile_post(old(self), final(self), pos),
    {
        if let WireState::Armed { selected, .. } = self.wire_state {
            let pole = self.spawn_power_pole(pos);
            let ghost before = *self;
            self.pending.push(PendingWireConnection { from: selected, to: pole });
            self.wire_state = WireState::Idle;
            assert forall|i: int, k: int|
                0 <= i < self.devices@.len() && 0 <= k < self.devices@[i].point.connections@.len()
                    implies self.has_wire_touching(
                #[trigger] self.devices@[i].point.connections@[k],
                self.devices@[i].id,
            ) by {
                assert(self.devices@[i] == before.devices@[i]);
                assert(before.has_wire_touching(before.devices@[i].point.connections@[k], before.devices@[i].id));
                let j = choose|j: int|
                    0 <= j < before.wires@.len() && before.wires@[j].id == before.devices@[i].point.connections@[k]
                        && before.wires@[j].wire.touches(before.devices@[i].id);
                assert(self.wires@[j] == before.wires@[j]);
            }
            assert forall|p: int| 0 <= p < self.pending@.len() implies {
                &&& (#[trigger] self.pending@[p]).from.id < self.next_id
                &&& self.pending@[p].to.id < self.next_id
            } by {
                if p < before.pending@.len() {
                    assert(self.pending@[p] == before.pending@[p]);
                }
            }
        }
    }

    /// Identifiers of the wires in `made` that have `e` as an endpoint, in order.
    pub open spec fn attached_ids(made: Seq<WireRecord>, e: Entity) -> Seq<Entity>
        decreases made.len(),
    {
        if made.len() == 0 {
            Seq::empty()
        } else {
            World::attached_ids(made.drop_last(), e) + if made.last().wire.touches(e) {
                seq![made.last().id]
            } else {
                Seq::<Entity>::empty()
            }
        }
    }

    /// `e` is a live device that still has room once the wires in `made`
    /// are attached as well.
    pub open spec fn room_after(&self, made: Seq<WireRecord>, e: Entity) -> bool {
        exists|i: int|
            0 <= i < self.devices@.len() && self.devices@[i].id == e
                && self.devices@[i].point.connections@.len() + World::attached_ids(made, e).len()
                < self.devices@[i].point.max_connections
    }

    /// A queued request is accepted, after the wires in `made` were created
    /// for earlier requests, when its endpoints differ, are live devices that
    /// both still have room, and an identifier is left for the wire.
    pub open spec fn accepts(&self, made: Seq<WireRecord>, r: PendingWireConnection) -> bool {
        &&& r.from != r.to
        &&& self.next_id + made.len() < u64::MAX
        &&& self.room_after(made, r.from)
        &&& self.room_after(made, r.to)
    }

    /// The wires that resolving the first `n` queued requests in order
    /// creates: one for each accepted request, with consecutive identifiers
    /// from `next_id` on, and none for the others.
    pub open spec fn resolved(&self, pending: Seq<PendingWireConnection>, n: nat) -> Seq<WireRecord>
        decreases n,
    {
        if n == 0 {
            Seq::empty()
        } else {
            let made = self.resolved(pending, (n - 1) as nat);
            let r = pending[n - 1];
            if self.accepts(made, r) {
                made.push(
                    WireRecord {
                        id: Entity { id: (self.next_id + made.len()) as u64 },
                        wire: Wire { from: r.from, to: r.to },
                    },
                )
            } else {
                made
            }
        }
    }

    /// Every request yields at most one wire, and every wire created joins
    /// two live devices.
    pub proof fn lemma_resolved_bounds(&self, pending: Seq<PendingWireConnection>, n: nat)
        ensures
            self.resolved(pending, n).len() <= n,
            forall|k: int|
                0 <= k < self.resolved(pending, n).len() ==> {
                    &&& self.has_device((#[trigger] self.resolved(pending, n)[k]).wire.from)
                    &&& self.has_device(self.resolved(pending, n)[k].wire.to)
                },
        decreases n,
    {
        if n > 0 {
            self.lemma_resolved_bounds(pending, (n - 1) as nat);
            let made = self.resolved(pending, (n - 1) as nat);
            let r = pending[n - 1];
            if self.accepts(made, r) {
                let all = self.resolved(pending, n);
                assert forall|k: int| 0 <= k < all.len() implies {
                    &&& self.has_device((#[trigger] all[k]).wire.from)
                    &&& self.has_device(all[k].wire.to)
                } by {
                    if k < made.len() {
                        assert(all[k] == made[k]);
                    } else {
                        let i = choose|i: int|
                            0 <= i < self.devices@.len() && self.devices@[i].id == r.from
                                && self.devices@[i].point.connections@.len()
                                + World::attached_ids(made, r.from).len()
                                < self.devices@[i].point.max_connections;
                        let i2 = choose|i2: int|
                            0 <= i2 < self.devices@.len() && self.devices@[i2].id == r.to
                                && self.devices@[i2].point.connections@.len()
                                + World::attached_ids(made, r.to).len()
                                < self.devices@[i2].point.max_connections;
                    }
                }
            }
        }
    }

    /// A queue of one request yields exactly one wire, from `from` to `to`
    /// under the next identifier, when the endpoints differ and both are live
    /// devices with room (an identifier being left), and no wire otherwise,
    /// in which case no device gains a wire.
    pub proof fn lemma_single_request(&self, r: PendingWireConnection)
        ensures
            r.from != r.to && self.has_room(r.from) && self.has_room(r.to) && self.next_id
                < u64::MAX ==> self.resolved(seq![r], 1) == seq![
                WireRecord { id: Entity { id: self.next_id }, wire: Wire { from: r.from, to: r.to } },
            ],
            !(r.from != r.to && self.has_room(r.from) && self.has_room(r.to) && self.next_id
                < u64::MAX) ==> self.resolved(seq![r], 1).len() == 0,
            forall|e: Entity| #[trigger] World::attached_ids(Seq::<WireRecord>::empty(), e).len() == 0,
    {
        let none = Seq::<WireRecord>::empty();
        assert(self.resolved(seq![r], 0) == none);
        assert(seq![r][0] == r);
        assert forall|e: Entity| self.room_after(none, e) <==> self.has_room(e) by {
            assert(World::attached_ids(none, e).len() == 0);
        }
        assert(forall|e: Entity| #[trigger] World::attached_ids(none, e).len() == 0);
    }

    /// A device list that holds the old wires plus those in `made` has room
    /// exactly where the old one had room after `made`.
    proof fn lemma_room_matches(start: &World, now: &World, made: Seq<WireRecord>)
        requires
            now.devices@.len() == start.devices@.len(),
            forall|i: int|
                0 <= i < start.devices@.len() ==> {
                    &&& crate::world::same_but_connections(start.devices@[i], #[trigger] now.devices@[i])
                    &&& now.devices@[i].point.connections@ == start.devices@[i].point.connections@
                        + World::attached_ids(made, start.devices@[i].id)
                },
        ensures
            forall|e: Entity| now.has_room(e) <==> start.room_after(made, e),
            forall|e: Entity| now.has_device(e) <==> start.has_device(e),
    {
        assert forall|e: Entity| now.has_room(e) <==> start.room_after(made, e) by {
            if now.has_room(e) {
                let i = choose|i: int|
                    0 <= i < now.devices@.len() && now.devices@[i].id == e
                        && now.devices@[i].point.has_room();
                assert(crate::world::same_but_connections(start.devices@[i], now.devices@[i]));
            }
            if start.room_after(made, e) {
                let i = choose|i: int|
                    0 <= i < start.devices@.len() && start.devices@[i].id == e
                        && start.devices@[i].point.connections@.len() + World::attached_ids(made, e).len()
                        < start.devices@[i].point.max_connections;
                assert(crate::world::same_but_connections(start.devices@[i], now.devices@[i]));
            }
        }
        assert forall|e: Entity| now.has_device(e) <==> start.has_device(e) by {
            if now.has_device(e) {
                let i = choose|i: int| 0 <= i < now.devices@.len() && now.devices@[i].id == e;
                assert(crate::world::same_but_connections(start.devices@[i], now.devices@[i]));
            }
            if start.has_device(e) {
                let i = choose|i: int| 0 <= i < start.devices@.len() && start.devices@[i].id == e;
                assert(crate::world::same_but_connections(start.devices@[i], now.devices@[i]));
            }
        }
    }

    /// Resolves every queued wire request once, in queue order, and empties
    /// the queue. Request by request, a wire from `from` to `to` is created
    /// and attached to both ends exactly when the request is accepted at its
    /// turn (distinct endpoints, both live devices with room, an identifier
    /// left); otherwise the request is dropped and changes nothing. So the new
    /// wires are exactly `resolved`: at most one per request, in order, with
    /// consecutive identifiers, and each device gains exactly the new wires
    /// that touch it.
    pub fn process_pending_wire_connections(&mut self)
        requires
            old(self).wf(),
        ensures
            final(self).wf(),
            final(self).pending@.len() == 0,
            final(self).wire_state == old(self).wire_state,
            final(self).build_tool == old(self).build_tool,
            ({
                let made = old(self).resolved(old(self).pending@, old(self).pending@.len());
                &&& made.len() <= old(self).pending@.len()
                &&& final(self).wires@ == old(self).wires@ + made
                &&& final(self).next_id == old(self).next_id + made.len()
                &&& final(self).devices@.len() == old(self).devices@.len()
                &&& forall|i: int|
                    0 <= i < old(self).devices@.len() ==> {
                        &&& crate::world::same_but_connections(
                            old(self).devices@[i],
                            #[trigger] final(self).devices@[i],
                        )
                        &&& final(self).devices@[i].point.connections@
                            == old(self).devices@[i].point.connections@ + World::attached_ids(
                            made,
                            old(self).devices@[i].id,
                        )
                    }
            }),
            old(self).pending@.len() == 0 ==> *final(self) == *old(self),
    {
        let ghost start = *self;
        let ghost pending = start.pending@;
        proof {
            assert(start.wires@ + start.resolved(pending, 0) =~= start.wires@);
            assert forall|i: int| 0 <= i < start.devices@.len() implies start.devices@[i].point.connections@
                =~= start.devices@[i].point.connections@ + World::attached_ids(
                start.resolved(pending, 0),
                start.devices@[i].id,
            ) by {}
        }
        let mut p: usize = 0;
        while p < self.pending.len()
            invariant
                start.wf(),
                self.wf(),
                self.pending@ == pending,
                pending == start.pending@,
                p <= pending.len(),
                self.wire_state == start.wire_state,
                self.build_tool == start.build_tool,
                start.resolved(pending, p as nat).len() <= p,
                self.wires@ == start.wires@ + start.resolved(pending, p as nat),
                self.next_id == start.next_id + start.resolved(pending, p as nat).len(),
                self.devices@.len() == start.devices@.len(),
                forall|i: int|
                    0 <= i < start.devices@.len() ==> {
                        &&& crate::world::same_but_connections(
                            start.devices@[i],
                            #[trigger] self.devices@[i],
                        )
                        &&& self.devices@[i].point.connections@ == start.devices@[i].point.connections@
                            + World::attached_ids(start.resolved(pending, p as nat), start.devices@[i].id)
                    },
                pending.len() == 0 ==> *self == start,
            decreases pending.len() - p,
        {
            let rec = self.pending[p];
            let ghost before = *self;
            let ghost made = start.resolved(pending, p as nat);
            proof {
                World::lemma_room_matches(&start, &before, made);
                start.lemma_resolved_bounds(pending, p as nat);
            }
            let from_exists = self.find_device(rec.from).is_some();
            let to_exists = self.find_device(rec.to).is_some();
            let mut added = false;
            if from_exists && to_exists && self.next_id < u64::MAX && self.can_connect(rec.from, rec.to) {
                let r = self.create_wire(rec.from, rec.to);
                added = r.is_ok();
            }
            proof {
                let next = start.resolved(pending, (p + 1) as nat);
                assert(pending[p as int] == rec);
                assert(added == start.accepts(made, rec));
                if added {
                    let w = WireRecord {
                        id: Entity { id: (start.next_id + made.len()) as u64 },
                        wire: Wire { from: rec.from, to: rec.to },
                    };
                    assert(next == made.push(w));
                    assert(self.wires@ =~= start.wires@ + next);
                    assert forall|i: int| 0 <= i < start.devices@.len() implies {
                        &&& crate::world::same_but_connections(
                            start.devices@[i],
                            #[trigger] self.devices@[i],
                        )
                        &&& self.devices@[i].point.connections@ == start.devices@[i].point.connections@
                            + World::attached_ids(next, start.devices@[i].id)
                    } by {
                        assert(next.drop_last() == made);
                        assert(next.last() == w);
                        assert(before.devices@[i].id == start.devices@[i].id);
                        let id = start.devices@[i].id;
                        if w.wire.touches(id) {
                            assert(self.devices@[i].point.connections@ =~= start.devices@[i].point.connections@
                                + World::attached_ids(next, id));
                        } else {
                            assert(World::attached_ids(next, id) =~= World::attached_ids(made, id));
                        }
                    }
                } else {
                    assert(next == made);
                }
            }
            p += 1;
        }
        if self.pending.len() == 0 {
            return;
        }
        let ghost before = *self;
        self.pending.clear();
        proof {
            assert forall|i: int, k: int|
                0 <= i < self.devices@.len() && 0 <= k < self.devices@[i].point.connections@.len()
                    implies self.has_wire_touching(
                #[trigger] self.devices@[i].point.connections@[k],
                self.devices@[i].id,
            ) by {
                assert(before.has_wire_touching(before.devices@[i].point.connections@[k], before.devices@[i].id));
                let j = choose|j: int|
                    0 <= j < before.wires@.len() && before.wires@[j].id == before.devices@[i].point.connections@[k]
                        && before.wires@[j].wire.touches(before.devices@[i].id);
                assert(self.wires@[j] == before.wires@[j]);
            }
        }
    }

    /// Effect of one placement action at `pos` with `tool` and `button`.
    /// Off the grid nothing happens. `Primary` removes the device on the
    /// cell, if any. `Secondary` with a device tool places that device on a
    /// free cell; with the wire tool it clicks the device on the cell, or the
    /// free cell. Any other click, and any `Secondary` click once identifiers
    /// are exhausted, changes nothing.
    pub open spec fn place_post(
        before: &World,
        after: &World,
        pos: GridPosition,
        tool: BuildTool,
        button: Button,
    ) -> bool {
        if !pos.on_grid_spec() {
            *after == *before
        } else {
            match button {
                Button::Primary => if before.occupied(pos) {
                    forall|i: int|
                        0 <= i < before.devices@.len() && (#[trigger] before.devices@[i]).position
                            == pos ==> {
                            &&& after.devices@ == before.devices@.remove(i)
                            &&& after.same_but_devices(before)
                            &&& after.wire_state == World::deselect(
                                before.wire_state,
                                before.devices@[i].id,
                            )
                            &&& after.next_id == before.next_id
                        }
                } else {
                    *after == *before
                },
                Button::Secondary => if before.next_id == u64::MAX {
                    *after == *before
                } else {
                    match tool.device_spec() {
                        Some(kind) => if before.occupied(pos) {
                            *after == *before
                        } else {
                            World::spawned(before, after, kind, pos)
                        },
                        None => if before.occupied(pos) {
                            forall|i: int|
                                0 <= i < before.devices@.len() && (#[trigger] before.devices@[i]).position
                                    == pos ==> World::wire_click_post(
                                    before,
                                    after,
                                    before.devices@[i].id,
                                    pos,
                                )
                        } else {
                            World::empty_tile_post(before, after, pos)
                        },
                    }
                },
            }
        }
    }

    /// The single placement entry point: one click at `position`.
    pub fn place(&mut self, position: GridPosition, tool: BuildTool, button: Button)
        requires
            old(self).wf(),
        ensures
            final(self).wf(),
            World::place_post(old(self), final(self), position, tool, button),
    {
        if !position.on_grid() {
            return;
        }
        match button {
            Button::Primary => {
                if let Some(i) = self.find_item_at_position(position) {
                    let e = self.devices[i].id;
                    self.despawn_device(e);
                }
            },
            Button::Secondary => {
                if self.next_id == u64::MAX {
                    return;
                }
                match tool.device() {
                    Some(kind) => {
                        if self.find_item_at_position(position).is_none() {
                            self.spawn_device(kind, position);
                        }
                    },
                    None => {
                        match self.find_item_at_position(position) {
                            Some(i) => {
                                let e = self.devices[i].id;
                                assert(forall|k: int| 0 <= k < self.devices@.len() && self.devices@[k].position == position ==> k == i);
                                self.handle_wire_placement(e, position);
                            },
                            None => {
                                self.handle_wire_to_empty_tile(position);
                            },
                        }
                    },
                }
            },
        }
    }

    /// The placement action of the selected tool.
    pub fn click_place_system(&mut self, position: GridPosition, button: Button)
        requires
            old(self).wf(),
        ensures
            final(self).wf(),
            World::place_post(old(self), final(self), position, old(self).build_tool, button),
    {
        let tool = self.build_tool;
        self.place(position, tool, button);
    }
}

} // verus!
