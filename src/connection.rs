//! Connection points, wires, and the power flags carried by devices.
use vstd::prelude::*;
use crate::entity::Entity;

verus! {

/// A device's capacity-limited socket for wire endpoints: the set of wires
/// attached to it, never more than `max_connections` of them.
pub struct ConnectionPoint {
    pub max_connections: u8,
    pub connections: Vec<Entity>,
}

impl ConnectionPoint {
    /// No wire is attached twice, and the capacity is respected.
    pub open spec fn wf(&self) -> bool {
        &&& self.connections@.no_duplicates()
        &&& self.connections@.len() <= self.max_connections
    }

    /// There is room for one more wire.
    pub open spec fn has_room(&self) -> bool {
        self.connections@.len() < self.max_connections
    }

    pub fn new(max_connections: u8) -> (r: Self)
        ensures
            r.wf(),
            r.max_connections == max_connections,
            r.connections@ == Seq::<Entity>::empty(),
    {
        ConnectionPoint { max_connections, connections: Vec::new() }
    }

    pub fn can_connect(&self) -> (r: bool)
        ensures
            r == self.has_room(),
    {
        self.connections.len() < self.max_connections as usize
    }

    /// Index at which `wire` is attached, if it is.
    pub fn position_of(&self, wire: Entity) -> (r: Option<usize>)
        ensures
            r is Some <==> self.connections@.contains(wire),
            r matches Some(i) ==> i < self.connections@.len() && self.connections@[i as int] == wire,
    {
        let mut i: usize = 0;
        while i < self.connections.len()
            invariant
                i <= self.connections@.len(),
                forall|k: int| 0 <= k < i ==> self.connections@[k] != wire,
            decreases self.connections@.len() - i,
        {
            if self.connections[i] == wire {
                return Some(i);
            }
            i += 1;
        }
        None
    }

    /// Whether `wire` is attached here.
    pub fn contains(&self, wire: Entity) -> (r: bool)
        ensures
            r == self.connections@.contains(wire),
    {
        self.position_of(wire).is_some()
    }

    /// Attaches `wire` if there is room; re-attaching an attached wire is a
    /// successful no-op. When there is no room nothing changes.
    pub fn add_connection(&mut self, wire_entity: Entity) -> (r: bool)
        requires
            old(self).wf(),
        ensures
            final(self).wf(),
            r == old(self).has_room(),
            final(self).max_connections == old(self).max_connections,
            r && old(self).connections@.contains(wire_entity) ==> *final(self) == *old(self),
            r && !old(self).connections@.contains(wire_entity) ==> final(self).connections@
                == old(self).connections@.push(wire_entity),
            !r ==> *final(self) == *old(self),
    {
        if self.can_connect() {
            if !self.contains(wire_entity) {
                self.connections.push(wire_entity);
            }
            true
        } else {
            false
        }
    }

    /// Detaches `wire` if it is attached; otherwise nothing changes.
    pub fn remove_connection(&mut self, wire_entity: Entity)
        requires
            old(self).wf(),
        ensures
            final(self).wf(),
            final(self).max_connections == old(self).max_connections,
            forall|w: Entity|
                final(self).connections@.contains(w) <==> (old(self).connections@.contains(w) && w
                    != wire_entity),
            !old(self).connections@.contains(wire_entity) ==> *final(self) == *old(self),
            old(self).connections@.contains(wire_entity) ==> final(self).connections@.len() + 1
                == old(self).connections@.len(),
    {
        if let Some(i) = self.position_of(wire_entity) {
            let ghost before = self.connections@;
            self.connections.remove(i);
            let ghost after = self.connections@;
            assert forall|w: Entity| after.contains(w) <==> (before.contains(w) && w != wire_entity) by {
                if before.contains(w) && w != wire_entity {
                    let k = choose|k: int| 0 <= k < before.len() && before[k] == w;
                    if k < i {
                        assert(after[k] == w);
                    } else {
                        assert(after[k - 1] == w);
                    }
                }
                if after.contains(w) {
                    let k = choose|k: int| 0 <= k < after.len() && after[k] == w;
                    if k < i {
                        assert(before[k] == w);
                    } else {
                        assert(before[k + 1] == w);
                    }
                }
            }
            assert(after.no_duplicates()) by {
                assert forall|a: int, b: int|
                    0 <= a < after.len() && 0 <= b < after.len() && a != b implies after[a]
                        != after[b] by {
                    let a2 = if a < i { a } else { a + 1 };
                    let b2 = if b < i { b } else { b + 1 };
                    assert(after[a] == before[a2]);
                    assert(after[b] == before[b2]);
                }
            }
        }
    }
}

/// Marks a device that can inject power into the network while `powered`.
pub struct PowerSource {
    pub powered: bool,
}

impl Default for PowerSource {
    /// A new source starts out powered.
    fn default() -> (r: Self)
        ensures
            r.powered,
    {
        PowerSource { powered: true }
    }
}

/// Marks a device whose `powered` flag is derived from network reachability.
pub struct PowerConsumer {
    pub powered: bool,
}

impl Default for PowerConsumer {
    /// A new consumer starts out unpowered.
    fn default() -> (r: Self)
        ensures
            !r.powered,
    {
        PowerConsumer { powered: false }
    }
}

/// An edge of the connectivity graph between two connection points.
#[derive(Clone, Copy, Debug, PartialEq, Eq, Structural)]
pub struct Wire {
    pub from: Entity,
    pub to: Entity,
}

impl Wire {
    /// The wire has `e` as one of its endpoints.
    pub open spec fn touches(self, e: Entity) -> bool {
        self.from == e || self.to == e
    }

    /// The endpoint across the wire from `e`.
    pub open spec fn other_end(self, e: Entity) -> Entity {
        if self.from == e {
            self.to
        } else {
            self.from
        }
    }
}

/// Why a wire could not be created.
#[derive(Clone, Copy, Debug, PartialEq, Eq, Structural)]
pub enum ConnectionError {
    /// An endpoint is not a live device with a connection point.
    InvalidEndpoint,
    /// An endpoint has no room for another wire.
    AtCapacity,
    /// Both endpoints are the same device.
    SameEndpoint,
}

} // verus!
