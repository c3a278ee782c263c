//! The fuel-burning generator that drives a power source.
use vstd::prelude::*;
use crate::entity::Entity;
use crate::connection::PowerSource;
use crate::world::{Device, World};

verus! {

/// Fuel a freshly placed generator holds.
pub const INITIAL_FUEL: u32 = 5;

/// Fuel state of a generator. A generator is active while it has fuel; each
/// completed burn period consumes one unit.
pub struct Generator {
    pub fuel_amount: u32,
    pub output: u64,
    pub is_active: bool,
}

impl Generator {
    pub fn new() -> (r: Self)
        ensures
            r.fuel_amount == INITIAL_FUEL,
            r.output == 0,
            !r.is_active,
    {
        Generator { fuel_amount: INITIAL_FUEL, output: 0, is_active: false }
    }

    /// The generator one frame later. `burn_finished` tells whether its
    /// burn timer completed a period during the frame (the timer only runs
    /// while there is fuel). With fuel the generator is active, produces one
    /// unit of output (saturating) and loses a unit of fuel when the period
    /// completed; without fuel it is inactive and nothing else changes.
    pub open spec fn after_frame(self, burn_finished: bool) -> Generator {
        if self.fuel_amount > 0 {
            Generator {
                fuel_amount: if burn_finished {
                    (self.fuel_amount - 1) as u32
                } else {
                    self.fuel_amount
                },
                output: if self.output < u64::MAX {
                    (self.output + 1) as u64
                } else {
                    self.output
                },
                is_active: true,
            }
        } else {
            Generator { is_active: false, ..self }
        }
    }

    /// Advances the generator by one frame.
    pub fn tick_power(&mut self, burn_finished: bool)
        ensures
            *final(self) == old(self).after_frame(burn_finished),
    {
        if self.fuel_amount > 0 {
            self.is_active = true;
            if burn_finished {
                self.fuel_amount = self.fuel_amount - 1;
            }
            if self.output < u64::MAX {
                self.output = self.output + 1;
            }
        } else {
            self.is_active = false;
        }
    }
}

/// `b` is `a` with, at most, another generator state.
pub open spec fn same_but_generator(a: Device, b: Device) -> bool {
    &&& a.id == b.id
    &&& a.kind == b.kind
    &&& a.position == b.position
    &&& a.point == b.point
    &&& a.source == b.source
    &&& a.consumer == b.consumer
}

/// `b` is `a` with, at most, another source flag.
pub open spec fn same_but_source(a: Device, b: Device) -> bool {
    &&& a.id == b.id
    &&& a.kind == b.kind
    &&& a.position == b.position
    &&& a.point == b.point
    &&& a.generator == b.generator
    &&& a.consumer == b.consumer
    &&& (a.source is Some <==> b.source is Some)
}

impl World {
    /// Advances the generator of device `e` by one frame; `burn_finished`
    /// tells whether its burn timer completed a period during the frame.
    /// Nothing changes when `e` is not a device with a generator.
    pub fn tick_power(&mut self, e: Entity, burn_finished: bool)
        requires
            old(self).wf(),
        ensures
            final(self).wf(),
            final(self).wires@ == old(self).wires@,
            final(self).pending@ == old(self).pending@,
            final(self).wire_state == old(self).wire_state,
            final(self).build_tool == old(self).build_tool,
            final(self).next_id == old(self).next_id,
            final(self).devices@.len() == old(self).devices@.len(),
            forall|i: int|
                0 <= i < old(self).devices@.len() ==> {
                    &&& same_but_generator(old(self).devices@[i], #[trigger] final(self).devices@[i])
                    &&& final(self).devices@[i].generator == if old(self).devices@[i].id == e {
                        match old(self).devices@[i].generator {
                            Some(g) => Some(g.after_frame(burn_finished)),
                            None => None,
                        }
                    } else {
                        old(self).devices@[i].generator
                    }
                },
    {
        let ghost before = *self;
        if let Some(i) = self.find_device(e) {
            assert(forall|k: int| 0 <= k < self.devices@.len() && self.devices@[k].id == e ==> k == i);
            if let Some(g) = &mut self.devices[i].generator {
                g.tick_power(burn_finished);
            }
        }
        proof {
            World::lemma_wf_same_links(&before, self);
        }
    }

    /// Every generator's source follows whether the generator is active.
    pub fn sync_power_source(&mut self)
        requires
            old(self).wf(),
        ensures
            final(self).wf(),
            final(self).wires@ == old(self).wires@,
            final(self).pending@ == old(self).pending@,
            final(self).wire_state == old(self).wire_state,
            final(self).build_tool == old(self).build_tool,
            final(self).next_id == old(self).next_id,
            final(self).devices@.len() == old(self).devices@.len(),
            forall|i: int|
                0 <= i < old(self).devices@.len() ==> {
                    &&& same_but_source(old(self).devices@[i], #[trigger] final(self).devices@[i])
                    &&& final(self).devices@[i].source == match (
                        old(self).devices@[i].generator,
                        old(self).devices@[i].source,
                    ) {
                        (Some(g), Some(_)) => Some(PowerSource { powered: g.is_active }),
                        _ => old(self).devices@[i].source,
                    }
                },
    {
        let ghost before = *self;
        let mut i: usize = 0;
        while i < self.devices.len()
            invariant
                before.wf(),
                i <= self.devices@.len(),
                self.devices@.len() == before.devices@.len(),
                self.wires@ == before.wires@,
                self.pending@ == before.pending@,
                self.wire_state == before.wire_state,
                self.build_tool == before.build_tool,
                self.next_id == before.next_id,
                forall|k: int|
                    0 <= k < before.devices@.len() ==> same_but_source(
                        before.devices@[k],
                        #[trigger] self.devices@[k],
                    ),
                forall|k: int|
                    0 <= k < i ==> (#[trigger] self.devices@[k]).source == match (
                        before.devices@[k].generator,
                        before.devices@[k].source,
                    ) {
                        (Some(g), Some(_)) => Some(PowerSource { powered: g.is_active }),
                        _ => before.devices@[k].source,
                    },
                forall|k: int| i <= k < before.devices@.len() ==> #[trigger] self.devices@[k] == before.devices@[k],
            decreases before.devices@.len() - i,
        {
            let active = match &self.devices[i].generator {
                Some(g) => Some(g.is_active),
                None => None,
            };
            if let Some(a) = active {
                if self.devices[i].source.is_some() {
                    self.devices[i].source = Some(PowerSource { powered: a });
                }
            }
            i += 1;
        }
        proof {
            World::lemma_wf_same_links(&before, self);
        }
    }
}

} // verus!
