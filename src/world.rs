//! The entity table: devices with their connection points and power flags,
//! wire records, and the queue of deferred wire requests.
use vstd::prelude::*;
use crate::entity::{BuildTool, Entity, GridPosition, TileContent};
use crate::connection::{ConnectionPoint, PowerConsumer, PowerSource, Wire};
use crate::generator::Generator;
use crate::placement::{PendingWireConnection, WireState};

verus! {

/// A placed device: a generator, a power pole or a light.
pub struct Device {
    pub id: Entity,
    pub kind: TileContent,
    pub position: GridPosition,
    pub point: ConnectionPoint,
    pub source: Option<PowerSource>,
    pub consumer: Option<PowerConsumer>,
    pub generator: Option<Generator>,
}

/// A wire and the entity that identifies it.
#[derive(Clone, Copy, Debug, PartialEq, Eq, Structural)]
pub struct WireRecord {
    pub id: Entity,
    pub wire: Wire,
}

/// Everything that lives on the grid, plus the controller's state.
pub struct World {
    pub devices: Vec<Device>,
    pub wires: Vec<WireRecord>,
    pub pending: Vec<PendingWireConnection>,
    pub wire_state: WireState,
    pub build_tool: BuildTool,
    pub next_id: u64,
}

/// `b` is `a` with, at most, another set of attached wires.
pub open spec fn same_but_connections(a: Device, b: Device) -> bool {
    &&& a.id == b.id
    &&& a.kind == b.kind
    &&& a.position == b.position
    &&& a.point.max_connections == b.point.max_connections
    &&& a.source == b.source
    &&& a.consumer == b.consumer
    &&& a.generator == b.generator
}

/// `b` is `a` with, at most, another consumer flag.
pub open spec fn same_but_consumer(a: Device, b: Device) -> bool {
    &&& a.id == b.id
    &&& a.kind == b.kind
    &&& a.position == b.position
    &&& a.point == b.point
    &&& a.source == b.source
    &&& a.generator == b.generator
    &&& (a.consumer is Some <==> b.consumer is Some)
}

/// `d` is a device of `kind` just placed at `pos` under identifier `id`,
/// with no wire attached and its power flags at their initial values.
pub open spec fn fresh_device(d: Device, id: Entity, kind: TileContent, pos: GridPosition) -> bool {
    &&& d.id == id
    &&& d.kind == kind
    &&& d.position == pos
    &&& d.point.max_connections == kind.capacity_spec()
    &&& d.point.connections@.len() == 0
    &&& d.source == if kind == TileContent::Generator {
        Some(PowerSource { powered: true })
    } else {
        None
    }
    &&& d.consumer == if kind == TileContent::Light {
        Some(PowerConsumer { powered: false })
    } else {
        None
    }
    &&& d.generator == if kind == TileContent::Generator {
        Some(Generator { fuel_amount: crate::generator::INITIAL_FUEL, output: 0, is_active: false })
    } else {
        None
    }
}

impl World {
    /// `e` is a live device.
    pub open spec fn has_device(&self, e: Entity) -> bool {
        exists|i: int| 0 <= i < self.devices@.len() && self.devices@[i].id == e
    }

    /// `w` is a live wire that has `d` as an endpoint.
    pub open spec fn has_wire_touching(&self, w: Entity, d: Entity) -> bool {
        exists|j: int|
            0 <= j < self.wires@.len() && self.wires@[j].id == w && self.wires@[j].wire.touches(d)
    }

    /// `w` is a live wire.
    pub open spec fn has_wire(&self, w: Entity) -> bool {
        exists|j: int| 0 <= j < self.wires@.len() && self.wires@[j].id == w
    }

    /// Both endpoints of the wire are live devices.
    pub open spec fn wire_is_live(&self, r: WireRecord) -> bool {
        self.has_device(r.wire.from) && self.has_device(r.wire.to)
    }

    /// No wire references a device that is gone.
    pub open spec fn no_orphans(&self) -> bool {
        forall|j: int| 0 <= j < self.wires@.len() ==> self.wire_is_live(#[trigger] self.wires@[j])
    }

    pub open spec fn devices_wf(&self) -> bool {
        &&& forall|i: int| 0 <= i < self.devices@.len() ==> (#[trigger] self.devices@[i]).id.id < self.next_id
        &&& forall|i: int| 0 <= i < self.devices@.len() ==> (#[trigger] self.devices@[i]).point.wf()
        &&& forall|i: int| 0 <= i < self.devices@.len() ==> (#[trigger] self.devices@[i]).position.on_grid_spec()
        &&& forall|i: int, k: int|
            0 <= i < self.devices@.len() && 0 <= k < self.devices@.len() && i != k
                ==> #[trigger] self.devices@[i].id != #[trigger] self.devices@[k].id
        &&& forall|i: int, k: int|
            0 <= i < self.devices@.len() && 0 <= k < self.devices@.len() && i != k
                ==> #[trigger] self.devices@[i].position != #[trigger] self.devices@[k].position
    }

    pub open spec fn wires_wf(&self) -> bool {
        &&& forall|j: int| 0 <= j < self.wires@.len() ==> {
            &&& (#[trigger] self.wires@[j]).id.id < self.next_id
            &&& self.wires@[j].wire.from.id < self.next_id
            &&& self.wires@[j].wire.to.id < self.next_id
            &&& self.wires@[j].wire.from != self.wires@[j].wire.to
        }
        &&& forall|j: int, k: int|
            0 <= j < self.wires@.len() && 0 <= k < self.wires@.len() && j != k
                ==> #[trigger] self.wires@[j].id != #[trigger] self.wires@[k].id
        &&& forall|i: int, j: int|
            0 <= i < self.devices@.len() && 0 <= j < self.wires@.len()
                ==> #[trigger] self.devices@[i].id != #[trigger] self.wires@[j].id
        &&& forall|p: int| 0 <= p < self.pending@.len() ==> {
            &&& (#[trigger] self.pending@[p]).from.id < self.next_id
            &&& self.pending@[p].to.id < self.next_id
        }
    }

    /// Attached wires and wire records agree: a device holds exactly the live
    /// wires that have it as an endpoint.
    pub open spec fn links_wf(&self) -> bool {
        &&& forall|i: int, k: int|
            0 <= i < self.devices@.len() && 0 <= k < self.devices@[i].point.connections@.len()
                ==> self.has_wire_touching(
                #[trigger] self.devices@[i].point.connections@[k],
                self.devices@[i].id,
            )
        &&& forall|i: int, j: int|
            0 <= i < self.devices@.len() && 0 <= j < self.wires@.len() && (
            #[trigger] self.wires@[j]).wire.touches(#[trigger] self.devices@[i].id)
                ==> self.devices@[i].point.connections@.contains(self.wires@[j].id)
    }

    /// A selected endpoint was handed out before.
    pub open spec fn selection_wf(&self) -> bool {
        self.wire_state matches WireState::Armed { selected, .. } ==> selected.id < self.next_id
    }

    pub open spec fn wf(&self) -> bool {
        &&& self.devices_wf()
        &&& self.wires_wf()
        &&& self.links_wf()
        &&& self.selection_wf()
    }

    /// An empty grid with the generator tool selected.
    pub fn new() -> (r: World)
        ensures
            r.wf(),
            r.devices@.len() == 0,
            r.wires@.len() == 0,
            r.pending@.len() == 0,
            r.wire_state == WireState::Idle,
            r.build_tool == BuildTool::Generator,
            r.next_id == 0,
    {
        World {
            devices: Vec::new(),
            wires: Vec::new(),
            pending: Vec::new(),
            wire_state: WireState::Idle,
            build_tool: BuildTool::Generator,
            next_id: 0,
        }
    }

    /// Index of the live device `e`.
    pub fn find_device(&self, e: Entity) -> (r: Option<usize>)
        ensures
            r is Some <==> self.has_device(e),
            r matches Some(i) ==> i < self.devices@.len() && self.devices@[i as int].id == e,
    {
        let mut i: usize = 0;
        while i < self.devices.len()
            invariant
                i <= self.devices@.len(),
                forall|k: int| 0 <= k < i ==> self.devices@[k].id != e,
            decreases self.devices@.len() - i,
        {
            if self.devices[i].id == e {
                return Some(i);
            }
            i += 1;
        }
        None
    }

    /// Index of the live wire `e`.
    pub fn find_wire(&self, e: Entity) -> (r: Option<usize>)
        ensures
            r is Some <==> self.has_wire(e),
            r matches Some(j) ==> j < self.wires@.len() && self.wires@[j as int].id == e,
    {
        let mut j: usize = 0;
        while j < self.wires.len()
            invariant
                j <= self.wires@.len(),
                forall|k: int| 0 <= k < j ==> self.wires@[k].id != e,
            decreases self.wires@.len() - j,
        {
            if self.wires[j].id == e {
                return Some(j);
            }
            j += 1;
        }
        None
    }

    /// Index of the device that occupies `pos`, if any.
    pub fn find_item_at_position(&self, pos: GridPosition) -> (r: Option<usize>)
        ensures
            r is Some <==> self.occupied(pos),
            r matches Some(i) ==> i < self.devices@.len() && self.devices@[i as int].position
                == pos,
    {
        let mut i: usize = 0;
        while i < self.devices.len()
            invariant
                i <= self.devices@.len(),
                forall|k: int| 0 <= k < i ==> self.devices@[k].position != pos,
            decreases self.devices@.len() - i,
        {
            if self.devices[i].position == pos {
                return Some(i);
            }
            i += 1;
        }
        None
    }

    /// Wires, queued requests and the selected tool agree.
    pub open spec fn same_but_devices(&self, other: &World) -> bool {
        &&& self.wires@ == other.wires@
        &&& self.pending@ == other.pending@
        &&& self.build_tool == other.build_tool
    }

    /// The wire-drawing selection once device `e` is gone: a selection of
    /// `e` is dropped, any other state stays.
    pub open spec fn deselect(state: WireState, e: Entity) -> WireState {
        match state {
            WireState::Armed { selected, .. } => if selected == e {
                WireState::Idle
            } else {
                state
            },
            WireState::Idle => WireState::Idle,
        }
    }

    /// Well-formedness depends on the tables and the identifier counter, and
    /// on the selection only through `selection_wf`.
    pub proof fn lemma_wf_same_tables(a: &World, b: &World)
        requires
            a.wf(),
            a.devices@ == b.devices@,
            a.wires@ == b.wires@,
            a.pending@ == b.pending@,
            a.next_id == b.next_id,
            b.selection_wf(),
        ensures
            b.wf(),
    {
        assert forall|i: int, k: int|
            0 <= i < b.devices@.len() && 0 <= k < b.devices@[i].point.connections@.len()
                implies b.has_wire_touching(
            #[trigger] b.devices@[i].point.connections@[k],
            b.devices@[i].id,
        ) by {
            assert(a.has_wire_touching(a.devices@[i].point.connections@[k], a.devices@[i].id));
        }
    }

    /// Well-formedness survives any change that keeps identifiers,
    /// positions and connection points of all devices, and the rest of the
    /// tables.
    pub proof fn lemma_wf_same_links(a: &World, b: &World)
        requires
            a.wf(),
            a.wires@ == b.wires@,
            a.pending@ == b.pending@,
            a.next_id == b.next_id,
            a.wire_state == b.wire_state,
            a.devices@.len() == b.devices@.len(),
            forall|i: int|
                0 <= i < a.devices@.len() ==> {
                    &&& (#[trigger] b.devices@[i]).id == a.devices@[i].id
                    &&& b.devices@[i].position == a.devices@[i].position
                    &&& b.devices@[i].point == a.devices@[i].point
                },
        ensures
            b.wf(),
    {
        assert forall|i: int, k: int|
            0 <= i < b.devices@.len() && 0 <= k < b.devices@[i].point.connections@.len()
                implies b.has_wire_touching(
            #[trigger] b.devices@[i].point.connections@[k],
            b.devices@[i].id,
        ) by {
            assert(a.has_wire_touching(a.devices@[i].point.connections@[k], a.devices@[i].id));
        }
        assert forall|i: int, j: int|
            0 <= i < b.devices@.len() && 0 <= j < b.wires@.len() && (
            #[trigger] b.wires@[j]).wire.touches(#[trigger] b.devices@[i].id)
                implies b.devices@[i].point.connections@.contains(b.wires@[j].id) by {
            assert(a.devices@[i].point.connections@.contains(a.wires@[j].id));
        }
        assert forall|i: int, k: int|
            0 <= i < b.devices@.len() && 0 <= k < b.devices@.len() && i != k
                implies #[trigger] b.devices@[i].id != #[trigger] b.devices@[k].id
                && b.devices@[i].position != b.devices@[k].position by {
            assert(a.devices@[i].id != a.devices@[k].id);
        }
        assert forall|i: int, j: int|
            0 <= i < b.devices@.len() && 0 <= j < b.wires@.len()
                implies #[trigger] b.devices@[i].id != #[trigger] b.wires@[j].id by {
            assert(a.devices@[i].id != a.wires@[j].id);
        }
    }

    /// `after` is `before` with a fresh device of `kind` appended at `pos`
    /// under the next identifier, and nothing else changed.
    pub open spec fn spawned(before: &World, after: &World, kind: TileContent, pos: GridPosition) -> bool {
        &&& after.next_id == before.next_id + 1
        &&& after.same_but_devices(before)
        &&& after.wire_state == before.wire_state
        &&& after.devices@.len() == before.devices@.len() + 1
        &&& after.devices@.take(before.devices@.len() as int) == before.devices@
        &&& fresh_device(after.devices@.last(), Entity { id: before.next_id }, kind, pos)
    }

    /// Some device occupies `pos`.
    pub open spec fn occupied(&self, pos: GridPosition) -> bool {
        exists|i: int| 0 <= i < self.devices@.len() && self.devices@[i].position == pos
    }

    /// Places a new device of `kind` on the free cell `pos` and registers its
    /// connection point with the kind's capacity.
    pub fn spawn_device(&mut self, kind: TileContent, pos: GridPosition) -> (r: Entity)
        requires
            old(self).wf(),
            pos.on_grid_spec(),
            old(self).next_id < u64::MAX,
            !old(self).occupied(pos),
        ensures
            final(self).wf(),
            r == (Entity { id: old(self).next_id }),
            World::spawned(old(self), final(self), kind, pos),
    {
        let id = Entity { id: self.next_id };
        let source = if kind == TileContent::Generator {
            Some(PowerSource::default())
        } else {
            None
        };
        let consumer = if kind == TileContent::Light {
            Some(PowerConsumer::default())
        } else {
            None
        };
        let generator = if kind == TileContent::Generator {
            Some(Generator::new())
        } else {
            None
        };
        let device = Device {
            id,
            kind,
            position: pos,
            point: ConnectionPoint::new(kind.capacity()),
            source,
            consumer,
            generator,
        };
        let ghost before = *self;
        self.devices.push(device);
        self.next_id = self.next_id + 1;
        assert(self.devices@.take(before.devices@.len() as int) =~= before.devices@);
        assert forall|i: int, k: int|
            0 <= i < self.devices@.len() && 0 <= k < self.devices@[i].point.connections@.len()
                implies self.has_wire_touching(
            #[trigger] self.devices@[i].point.connections@[k],
            self.devices@[i].id,
        ) by {
            assert(i < before.devices@.len());
            assert(before.devices@[i] == self.devices@[i]);
            assert(before.has_wire_touching(before.devices@[i].point.connections@[k], before.devices@[i].id));
        }
        assert forall|i: int, j: int|
            0 <= i < self.devices@.len() && 0 <= j < self.wires@.len() && (
            #[trigger] self.wires@[j]).wire.touches(#[trigger] self.devices@[i].id)
                implies self.devices@[i].point.connections@.contains(self.wires@[j].id) by {
            assert(i < before.devices@.len());
            assert(before.devices@[i] == self.devices@[i]);
        }
        id
    }

    pub fn spawn_generator(&mut self, pos: GridPosition) -> (r: Entity)
        requires
            old(self).wf(),
            pos.on_grid_spec(),
            old(self).next_id < u64::MAX,
            !old(self).occupied(pos),
        ensures
            final(self).wf(),
            r == (Entity { id: old(self).next_id }),
            World::spawned(old(self), final(self), TileContent::Generator, pos),
    {
        self.spawn_device(TileContent::Generator, pos)
    }

    pub fn spawn_power_pole(&mut self, pos: GridPosition) -> (r: Entity)
        requires
            old(self).wf(),
            pos.on_grid_spec(),
            old(self).next_id < u64::MAX,
            !old(self).occupied(pos),
        ensures
            final(self).wf(),
            r == (Entity { id: old(self).next_id }),
            World::spawned(old(self), final(self), TileContent::PowerPole, pos),
    {
        self.spawn_device(TileContent::PowerPole, pos)
    }

    pub fn spawn_light(&mut self, pos: GridPosition) -> (r: Entity)
        requires
            old(self).wf(),
            pos.on_grid_spec(),
            old(self).next_id < u64::MAX,
            !old(self).occupied(pos),
        ensures
            final(self).wf(),
            r == (Entity { id: old(self).next_id }),
            World::spawned(old(self), final(self), TileContent::Light, pos),
    {
        self.spawn_device(TileContent::Light, pos)
    }

    /// Removes the device `e`, and drops the wire-drawing selection if it is
    /// `e`. Wires attached to it are left in place as orphans for the next
    /// sweep to remove.
    pub fn despawn_device(&mut self, e: Entity)
        requires
            old(self).wf(),
        ensures
            final(self).wf(),
            final(self).next_id == old(self).next_id,
            final(self).same_but_devices(old(self)),
            final(self).wire_state == World::deselect(old(self).wire_state, e),
            !final(self).has_device(e),
            !old(self).has_device(e) ==> final(self).devices@ == old(self).devices@,
            forall|i: int|
                0 <= i < old(self).devices@.len() && old(self).devices@[i].id == e
                    ==> final(self).devices@ == old(self).devices@.remove(i),
    {
        if let Some(i) = self.find_device(e) {
            let ghost before = *self;
            self.devices.remove(i);
            assert forall|k: int| 0 <= k < self.devices@.len() implies #[trigger] self.devices@[k]
                == before.devices@[if k < i { k } else { k + 1 }] by {}
            assert forall|i2: int, k: int|
                0 <= i2 < self.devices@.len() && 0 <= k < self.devices@[i2].point.connections@.len()
                    implies self.has_wire_touching(
                #[trigger] self.devices@[i2].point.connections@[k],
                self.devices@[i2].id,
            ) by {
                let o = if i2 < i { i2 } else { i2 + 1 };
                assert(before.has_wire_touching(before.devices@[o].point.connections@[k], before.devices@[o].id));
            }
            assert forall|i2: int, j: int|
                0 <= i2 < self.devices@.len() && 0 <= j < self.wires@.len() && (
                #[trigger] self.wires@[j]).wire.touches(#[trigger] self.devices@[i2].id)
                    implies self.devices@[i2].point.connections@.contains(self.wires@[j].id) by {
                let o = if i2 < i { i2 } else { i2 + 1 };
                assert(before.devices@[o] == self.devices@[i2]);
            }
            assert forall|i2: int, k: int|
                0 <= i2 < self.devices@.len() && 0 <= k < self.devices@.len() && i2 != k
                    implies #[trigger] self.devices@[i2].id != #[trigger] self.devices@[k].id && self.devices@[i2].position != self.devices@[k].position by {
                let o = if i2 < i { i2 } else { i2 + 1 };
                let p = if k < i { k } else { k + 1 };
                assert(before.devices@[o] == self.devices@[i2]);
                assert(before.devices@[p] == self.devices@[k]);
            }
            assert forall|i2: int, j: int|
                0 <= i2 < self.devices@.len() && 0 <= j < self.wires@.len()
                    implies #[trigger] self.devices@[i2].id != #[trigger] self.wires@[j].id by {
                let o = if i2 < i { i2 } else { i2 + 1 };
                assert(before.devices@[o] == self.devices@[i2]);
            }
            assert forall|i2: int| 0 <= i2 < before.devices@.len() && before.devices@[i2].id == e
                implies i2 == i by {}
            assert(!self.has_device(e)) by {
                if self.has_device(e) {
                    let k = choose|k: int| 0 <= k < self.devices@.len() && self.devices@[k].id == e;
                    let o = if k < i { k } else { k + 1 };
                    assert(before.devices@[o].id == e);
                }
            }
        }
        let ghost removed = *self;
        if let WireState::Armed { selected, .. } = self.wire_state {
            if selected == e {
                self.wire_state = WireState::Idle;
                proof {
                    World::lemma_wf_same_tables(&removed, self);
                }
            }
        }
        proof {
            assert(self.has_device(e) == removed.has_device(e));
        }
    }
}

} // verus!
