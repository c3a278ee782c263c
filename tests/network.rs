use power_sandbox::connection::ConnectionError;
use power_sandbox::entity::{BuildTool, Button, Entity, GridPosition};
use power_sandbox::world::World;

fn at(x: i32, y: i32) -> GridPosition {
    GridPosition { x, y }
}

fn place_device(world: &mut World, tool: BuildTool, x: i32, y: i32) -> Entity {
    world.place(at(x, y), tool, Button::Secondary);
    let i = world.find_item_at_position(at(x, y)).expect("device placed");
    world.devices[i].id
}

fn consumer_flag(world: &World, e: Entity) -> bool {
    let i = world.find_device(e).expect("live device");
    world.devices[i].consumer.as_ref().expect("consumer").powered
}

#[test]
fn chain_generator_pole_light_powers_light() {
    let mut world = World::new();
    let generator = place_device(&mut world, BuildTool::Generator, 0, 0);
    let pole = place_device(&mut world, BuildTool::PowerPole, 1, 0);
    let light = place_device(&mut world, BuildTool::Light, 2, 0);
    assert!(world.create_wire(generator, pole).is_ok());
    assert!(world.create_wire(pole, light).is_ok());
    world.tick();
    assert!(world.is_powered(light));
    assert!(consumer_flag(&world, light));
}

#[test]
fn unconnected_light_stays_dark() {
    let mut world = World::new();
    let generator = place_device(&mut world, BuildTool::Generator, 0, 0);
    let pole = place_device(&mut world, BuildTool::PowerPole, 1, 0);
    let light = place_device(&mut world, BuildTool::Light, 5, 5);
    assert!(world.create_wire(generator, pole).is_ok());
    world.tick();
    assert!(!world.is_powered(light));
}

#[test]
fn cycle_of_poles_terminates_and_marks_both() {
    let mut world = World::new();
    let generator = place_device(&mut world, BuildTool::Generator, 0, 0);
    let pole_a = place_device(&mut world, BuildTool::PowerPole, 1, 0);
    let pole_b = place_device(&mut world, BuildTool::PowerPole, 0, 1);
    let light = place_device(&mut world, BuildTool::Light, 2, 0);
    // A stock generator takes a single wire; give this one room for two so
    // that it can close the loop generator - pole A - pole B - generator.
    let ig = world.find_device(generator).unwrap();
    world.devices[ig].point.max_connections = 2;
    assert!(world.create_wire(generator, pole_a).is_ok());
    assert!(world.create_wire(generator, pole_b).is_ok());
    assert!(world.create_wire(pole_a, pole_b).is_ok());
    assert!(world.create_wire(pole_a, light).is_ok());
    world.tick();
    let marks = world.energized_devices();
    let ia = world.find_device(pole_a).unwrap();
    let ib = world.find_device(pole_b).unwrap();
    assert!(marks[ia]);
    assert!(marks[ib]);
    assert_eq!(marks, vec![true, true, true, true]);
    assert!(world.is_powered(light));
}

#[test]
fn stock_generator_cannot_take_second_wire() {
    let mut world = World::new();
    let generator = place_device(&mut world, BuildTool::Generator, 0, 0);
    let pole_a = place_device(&mut world, BuildTool::PowerPole, 1, 0);
    let pole_b = place_device(&mut world, BuildTool::PowerPole, 0, 1);
    assert!(world.create_wire(generator, pole_a).is_ok());
    assert_eq!(world.create_wire(generator, pole_b), Err(ConnectionError::AtCapacity));
}

#[test]
fn cycle_through_three_poles_terminates() {
    let mut world = World::new();
    let generator = place_device(&mut world, BuildTool::Generator, 0, 0);
    let a = place_device(&mut world, BuildTool::PowerPole, 1, 0);
    let b = place_device(&mut world, BuildTool::PowerPole, 2, 0);
    let c = place_device(&mut world, BuildTool::PowerPole, 3, 0);
    let light = place_device(&mut world, BuildTool::Light, 4, 0);
    assert!(world.create_wire(generator, a).is_ok());
    assert!(world.create_wire(a, b).is_ok());
    assert!(world.create_wire(b, c).is_ok());
    assert!(world.create_wire(c, a).is_ok());
    assert!(world.create_wire(c, light).is_ok());
    world.tick();
    assert!(world.is_powered(light));
    let marks = world.energized_devices();
    assert_eq!(marks, vec![true, true, true, true, true]);
}

#[test]
fn generator_out_of_fuel_turns_light_off() {
    let mut world = World::new();
    let generator = place_device(&mut world, BuildTool::Generator, 0, 0);
    let light = place_device(&mut world, BuildTool::Light, 1, 0);
    assert!(world.create_wire(generator, light).is_ok());
    world.tick();
    assert!(world.is_powered(light));
    // Five burn periods use up the fuel; the next frame finds none left.
    for _ in 0..5 {
        world.tick_power(generator, true);
        world.sync_power_source();
        world.tick();
        assert!(world.is_powered(light));
    }
    world.tick_power(generator, true);
    world.sync_power_source();
    world.tick();
    assert!(!world.is_powered(light));
    let i = world.find_device(generator).unwrap();
    let g = world.devices[i].generator.as_ref().unwrap();
    assert_eq!(g.fuel_amount, 0);
    assert!(!g.is_active);
}

#[test]
fn removing_pole_sweeps_wires_and_darkens_light() {
    let mut world = World::new();
    let generator = place_device(&mut world, BuildTool::Generator, 0, 0);
    let pole = place_device(&mut world, BuildTool::PowerPole, 1, 0);
    let light = place_device(&mut world, BuildTool::Light, 2, 0);
    let w1 = world.create_wire(generator, pole).unwrap();
    let w2 = world.create_wire(pole, light).unwrap();
    world.tick();
    assert!(world.is_powered(light));
    world.place(at(1, 0), BuildTool::Wire, Button::Primary);
    assert!(world.find_device(pole).is_none());
    // Until the next tick the two wires are orphans.
    assert_eq!(world.wires.len(), 2);
    world.tick();
    assert!(world.wires.is_empty());
    assert!(world.find_wire(w1).is_none());
    assert!(world.find_wire(w2).is_none());
    assert!(!world.is_powered(light));
    assert!(!world.connections_of(generator).contains(&w1));
    assert!(world.connections_of(generator).is_empty());
    assert!(world.connections_of(light).is_empty());
}

#[test]
fn sweep_leaves_no_dangling_wire() {
    let mut world = World::new();
    let generator = place_device(&mut world, BuildTool::Generator, 0, 0);
    let a = place_device(&mut world, BuildTool::PowerPole, 1, 0);
    let b = place_device(&mut world, BuildTool::PowerPole, 2, 0);
    let light = place_device(&mut world, BuildTool::Light, 3, 0);
    world.create_wire(generator, a).unwrap();
    let kept = world.create_wire(a, b).unwrap();
    world.create_wire(b, light).unwrap();
    world.despawn_device(light);
    world.despawn_device(generator);
    world.sweep_orphans();
    assert_eq!(world.wires.len(), 1);
    assert_eq!(world.wires[0].id, kept);
    for record in world.wires.iter() {
        assert!(world.find_device(record.wire.from).is_some());
        assert!(world.find_device(record.wire.to).is_some());
    }
    assert_eq!(world.connections_of(a), vec![kept]);
    assert_eq!(world.connections_of(b), vec![kept]);
}

#[test]
fn light_reached_only_from_inactive_source_is_dark() {
    let mut world = World::new();
    let generator = place_device(&mut world, BuildTool::Generator, 0, 0);
    let light = place_device(&mut world, BuildTool::Light, 1, 0);
    world.create_wire(generator, light).unwrap();
    let i = world.find_device(generator).unwrap();
    world.devices[i].source.as_mut().unwrap().powered = false;
    world.tick();
    assert!(!world.is_powered(light));
}

#[test]
fn long_chain_reaches_far_light() {
    let mut world = World::new();
    let generator = place_device(&mut world, BuildTool::Generator, -10, 0);
    let mut previous = generator;
    for x in -9..5 {
        let pole = place_device(&mut world, BuildTool::PowerPole, x, 0);
        world.create_wire(previous, pole).unwrap();
        previous = pole;
    }
    let light = place_device(&mut world, BuildTool::Light, 5, 0);
    world.create_wire(previous, light).unwrap();
    world.tick();
    assert!(world.is_powered(light));
}

#[test]
fn two_ticks_give_identical_flags() {
    let mut world = World::new();
    let generator = place_device(&mut world, BuildTool::Generator, 0, 0);
    let pole = place_device(&mut world, BuildTool::PowerPole, 1, 0);
    let lit = place_device(&mut world, BuildTool::Light, 2, 0);
    let dark = place_device(&mut world, BuildTool::Light, 3, 3);
    world.create_wire(generator, pole).unwrap();
    world.create_wire(pole, lit).unwrap();
    world.tick();
    let first: Vec<Option<bool>> =
        world.devices.iter().map(|d| d.consumer.as_ref().map(|c| c.powered)).collect();
    world.tick();
    let second: Vec<Option<bool>> =
        world.devices.iter().map(|d| d.consumer.as_ref().map(|c| c.powered)).collect();
    assert_eq!(first, second);
    assert!(world.is_powered(lit));
    assert!(!world.is_powered(dark));
}

#[test]
fn capacity_limit_returns_at_capacity() {
    let mut world = World::new();
    let pole = place_device(&mut world, BuildTool::PowerPole, 0, 0);
    let mut partners = Vec::new();
    for x in 1..6 {
        partners.push(place_device(&mut world, BuildTool::PowerPole, x, 0));
    }
    for k in 0..4 {
        assert!(world.create_wire(pole, partners[k]).is_ok());
    }
    assert_eq!(world.connections_of(pole).len(), 4);
    let wires_before = world.wires.len();
    assert_eq!(world.create_wire(pole, partners[4]), Err(ConnectionError::AtCapacity));
    assert_eq!(world.connections_of(pole).len(), 4);
    assert_eq!(world.wires.len(), wires_before);
    assert!(world.connections_of(partners[4]).is_empty());
}

#[test]
fn light_capacity_is_one() {
    let mut world = World::new();
    let light = place_device(&mut world, BuildTool::Light, 0, 0);
    let a = place_device(&mut world, BuildTool::PowerPole, 1, 0);
    let b = place_device(&mut world, BuildTool::PowerPole, 2, 0);
    assert!(world.create_wire(light, a).is_ok());
    assert_eq!(world.create_wire(b, light), Err(ConnectionError::AtCapacity));
    assert_eq!(world.connections_of(light).len(), 1);
}

#[test]
fn self_wire_is_refused() {
    let mut world = World::new();
    let pole = place_device(&mut world, BuildTool::PowerPole, 0, 0);
    assert_eq!(world.create_wire(pole, pole), Err(ConnectionError::SameEndpoint));
    assert!(world.wires.is_empty());
}

#[test]
fn wire_to_missing_device_is_refused() {
    let mut world = World::new();
    let pole = place_device(&mut world, BuildTool::PowerPole, 0, 0);
    let ghost = Entity { id: 999 };
    assert_eq!(world.create_wire(pole, ghost), Err(ConnectionError::InvalidEndpoint));
    assert_eq!(world.create_wire(ghost, pole), Err(ConnectionError::InvalidEndpoint));
    assert!(world.connections_of(pole).is_empty());
}

#[test]
fn created_wire_gets_next_identifier() {
    let mut world = World::new();
    let a = place_device(&mut world, BuildTool::PowerPole, 0, 0);
    let b = place_device(&mut world, BuildTool::PowerPole, 1, 0);
    assert_eq!(a, Entity { id: 0 });
    assert_eq!(b, Entity { id: 1 });
    let w = world.create_wire(a, b).unwrap();
    assert_eq!(w, Entity { id: 2 });
    assert_eq!(world.next_id, 3);
    assert_eq!(world.wires[0].wire.from, a);
    assert_eq!(world.wires[0].wire.to, b);
}

#[test]
fn remove_wire_detaches_both_ends() {
    let mut world = World::new();
    let a = place_device(&mut world, BuildTool::PowerPole, 0, 0);
    let b = place_device(&mut world, BuildTool::PowerPole, 1, 0);
    let w = world.create_wire(a, b).unwrap();
    world.remove_wire(w);
    assert!(world.wires.is_empty());
    assert!(world.connections_of(a).is_empty());
    assert!(world.connections_of(b).is_empty());
    world.remove_wire(w);
    assert!(world.wires.is_empty());
}

#[test]
fn neighbors_are_other_endpoints() {
    let mut world = World::new();
    let hub = place_device(&mut world, BuildTool::PowerPole, 0, 0);
    let a = place_device(&mut world, BuildTool::PowerPole, 1, 0);
    let b = place_device(&mut world, BuildTool::Light, 0, 1);
    world.create_wire(hub, a).unwrap();
    world.create_wire(b, hub).unwrap();
    assert_eq!(world.neighbors_of(hub), vec![a, b]);
    assert_eq!(world.neighbors_of(b), vec![hub]);
    assert_eq!(world.neighbors_of(hub).len(), world.connections_of(hub).len());
    assert!(world.neighbors_of(Entity { id: 77 }).is_empty());
}
