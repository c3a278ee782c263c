use power_sandbox::entity::{BuildTool, Button, Entity, GridPosition, TileContent};
use power_sandbox::placement::{PendingWireConnection, WireState};
use power_sandbox::world::World;

fn device_at(world: &World, x: i32, y: i32) -> Option<Entity> {
    world.find_item_at_position(GridPosition { x, y }).map(|i| world.devices[i].id)
}

#[test]
fn placing_devices_sets_capacity_and_flags() {
    let mut world = World::new();
    world.place(GridPosition { x: 0, y: 0 }, BuildTool::Generator, Button::Secondary);
    world.place(GridPosition { x: 1, y: 0 }, BuildTool::PowerPole, Button::Secondary);
    world.place(GridPosition { x: 2, y: 0 }, BuildTool::Light, Button::Secondary);
    assert_eq!(world.devices.len(), 3);
    let g = &world.devices[0];
    assert_eq!(g.kind, TileContent::Generator);
    assert_eq!(g.point.max_connections, 1);
    assert!(g.source.as_ref().unwrap().powered);
    assert!(g.consumer.is_none());
    assert_eq!(g.generator.as_ref().unwrap().fuel_amount, 5);
    let p = &world.devices[1];
    assert_eq!(p.kind, TileContent::PowerPole);
    assert_eq!(p.point.max_connections, 4);
    assert!(p.source.is_none() && p.consumer.is_none() && p.generator.is_none());
    let l = &world.devices[2];
    assert_eq!(l.kind, TileContent::Light);
    assert_eq!(l.point.max_connections, 1);
    assert!(!l.consumer.as_ref().unwrap().powered);
}

#[test]
fn occupied_cell_and_off_grid_clicks_do_nothing() {
    let mut world = World::new();
    world.place(GridPosition { x: 0, y: 0 }, BuildTool::Generator, Button::Secondary);
    world.place(GridPosition { x: 0, y: 0 }, BuildTool::Light, Button::Secondary);
    assert_eq!(world.devices.len(), 1);
    assert_eq!(world.devices[0].kind, TileContent::Generator);
    world.place(GridPosition { x: 16, y: 0 }, BuildTool::Light, Button::Secondary);
    world.place(GridPosition { x: 0, y: -17 }, BuildTool::Light, Button::Secondary);
    assert_eq!(world.devices.len(), 1);
    world.place(GridPosition { x: 15, y: -16 }, BuildTool::Light, Button::Secondary);
    assert_eq!(world.devices.len(), 2);
    world.place(GridPosition { x: 5, y: 5 }, BuildTool::Light, Button::Primary);
    assert_eq!(world.devices.len(), 2);
}

#[test]
fn primary_click_removes_device() {
    let mut world = World::new();
    world.place(GridPosition { x: 3, y: 3 }, BuildTool::Light, Button::Secondary);
    assert!(device_at(&world, 3, 3).is_some());
    world.place(GridPosition { x: 3, y: 3 }, BuildTool::Generator, Button::Primary);
    assert!(device_at(&world, 3, 3).is_none());
    assert!(world.devices.is_empty());
}

#[test]
fn two_clicks_draw_a_wire() {
    let mut world = World::new();
    world.place(GridPosition { x: 0, y: 0 }, BuildTool::Generator, Button::Secondary);
    world.place(GridPosition { x: 1, y: 0 }, BuildTool::Light, Button::Secondary);
    let g = device_at(&world, 0, 0).unwrap();
    let l = device_at(&world, 1, 0).unwrap();
    world.place(GridPosition { x: 0, y: 0 }, BuildTool::Wire, Button::Secondary);
    assert_eq!(
        world.wire_state,
        WireState::Armed { selected: g, position: GridPosition { x: 0, y: 0 } }
    );
    world.place(GridPosition { x: 1, y: 0 }, BuildTool::Wire, Button::Secondary);
    assert_eq!(world.wire_state, WireState::Idle);
    assert_eq!(world.wires.len(), 1);
    assert_eq!(world.wires[0].wire.from, g);
    assert_eq!(world.wires[0].wire.to, l);
    world.tick();
    assert!(world.is_powered(l));
}

#[test]
fn second_click_on_same_device_cancels() {
    let mut world = World::new();
    world.place(GridPosition { x: 0, y: 0 }, BuildTool::PowerPole, Button::Secondary);
    world.place(GridPosition { x: 0, y: 0 }, BuildTool::Wire, Button::Secondary);
    assert!(matches!(world.wire_state, WireState::Armed { .. }));
    world.place(GridPosition { x: 0, y: 0 }, BuildTool::Wire, Button::Secondary);
    assert_eq!(world.wire_state, WireState::Idle);
    assert!(world.wires.is_empty());
}

#[test]
fn full_device_cannot_be_selected() {
    let mut world = World::new();
    world.place(GridPosition { x: 0, y: 0 }, BuildTool::Light, Button::Secondary);
    world.place(GridPosition { x: 1, y: 0 }, BuildTool::PowerPole, Button::Secondary);
    let l = device_at(&world, 0, 0).unwrap();
    let p = device_at(&world, 1, 0).unwrap();
    world.create_wire(l, p).unwrap();
    world.place(GridPosition { x: 0, y: 0 }, BuildTool::Wire, Button::Secondary);
    assert_eq!(world.wire_state, WireState::Idle);
}

#[test]
fn failed_connection_still_returns_to_idle() {
    let mut world = World::new();
    world.place(GridPosition { x: 0, y: 0 }, BuildTool::PowerPole, Button::Secondary);
    world.place(GridPosition { x: 1, y: 0 }, BuildTool::Light, Button::Secondary);
    world.place(GridPosition { x: 2, y: 0 }, BuildTool::PowerPole, Button::Secondary);
    let l = device_at(&world, 1, 0).unwrap();
    let p2 = device_at(&world, 2, 0).unwrap();
    world.create_wire(l, p2).unwrap();
    world.place(GridPosition { x: 0, y: 0 }, BuildTool::Wire, Button::Secondary);
    world.place(GridPosition { x: 1, y: 0 }, BuildTool::Wire, Button::Secondary);
    assert_eq!(world.wire_state, WireState::Idle);
    assert_eq!(world.wires.len(), 1);
}

#[test]
fn wire_to_empty_cell_spawns_pole_and_connects_next_tick() {
    let mut world = World::new();
    world.place(GridPosition { x: 0, y: 0 }, BuildTool::Generator, Button::Secondary);
    let a = device_at(&world, 0, 0).unwrap();
    world.place(GridPosition { x: 0, y: 0 }, BuildTool::Wire, Button::Secondary);
    world.place(GridPosition { x: 4, y: 4 }, BuildTool::Wire, Button::Secondary);
    let pole = device_at(&world, 4, 4).unwrap();
    let i = world.find_device(pole).unwrap();
    assert_eq!(world.devices[i].kind, TileContent::PowerPole);
    assert_eq!(world.wire_state, WireState::Idle);
    assert_eq!(world.pending, vec![PendingWireConnection { from: a, to: pole }]);
    assert!(world.wires.is_empty());
    world.tick();
    assert!(world.pending.is_empty());
    assert_eq!(world.wires.len(), 1);
    assert_eq!(world.wires[0].wire.from, a);
    assert_eq!(world.wires[0].wire.to, pole);
    assert_eq!(world.connections_of(a), vec![world.wires[0].id]);
    assert_eq!(world.connections_of(pole), vec![world.wires[0].id]);
}

#[test]
fn pending_request_dropped_when_endpoint_removed() {
    let mut world = World::new();
    world.place(GridPosition { x: 0, y: 0 }, BuildTool::PowerPole, Button::Secondary);
    world.place(GridPosition { x: 0, y: 0 }, BuildTool::Wire, Button::Secondary);
    world.place(GridPosition { x: 2, y: 2 }, BuildTool::Wire, Button::Secondary);
    assert_eq!(world.pending.len(), 1);
    world.place(GridPosition { x: 0, y: 0 }, BuildTool::Wire, Button::Primary);
    world.tick();
    assert!(world.pending.is_empty());
    assert!(world.wires.is_empty());
    assert!(device_at(&world, 2, 2).is_some());
}

#[test]
fn empty_cell_with_nothing_selected_is_ignored() {
    let mut world = World::new();
    world.place(GridPosition { x: 4, y: 4 }, BuildTool::Wire, Button::Secondary);
    assert!(world.devices.is_empty());
    assert!(world.pending.is_empty());
}

#[test]
fn tool_selection_only_changes_tool() {
    let mut world = World::new();
    assert_eq!(world.build_tool, BuildTool::Generator);
    world.set_build_tool(BuildTool::Light);
    assert_eq!(world.build_tool, BuildTool::Light);
    world.click_place_system(GridPosition { x: 1, y: 1 }, Button::Secondary);
    assert_eq!(world.devices[0].kind, TileContent::Light);
    assert!(world.wires.is_empty());
}

#[test]
fn removing_selected_device_drops_selection() {
    let mut world = World::new();
    world.place(GridPosition { x: 0, y: 0 }, BuildTool::PowerPole, Button::Secondary);
    world.place(GridPosition { x: 0, y: 0 }, BuildTool::Wire, Button::Secondary);
    assert!(matches!(world.wire_state, WireState::Armed { .. }));
    world.place(GridPosition { x: 0, y: 0 }, BuildTool::Wire, Button::Primary);
    assert_eq!(world.wire_state, WireState::Idle);
    world.place(GridPosition { x: 3, y: 3 }, BuildTool::Wire, Button::Secondary);
    assert!(world.devices.is_empty());
    assert!(world.pending.is_empty());
}

#[test]
fn removing_other_device_keeps_selection() {
    let mut world = World::new();
    world.place(GridPosition { x: 0, y: 0 }, BuildTool::PowerPole, Button::Secondary);
    world.place(GridPosition { x: 1, y: 0 }, BuildTool::Light, Button::Secondary);
    let p = device_at(&world, 0, 0).unwrap();
    world.place(GridPosition { x: 0, y: 0 }, BuildTool::Wire, Button::Secondary);
    world.place(GridPosition { x: 1, y: 0 }, BuildTool::Wire, Button::Primary);
    assert_eq!(
        world.wire_state,
        WireState::Armed { selected: p, position: GridPosition { x: 0, y: 0 } }
    );
}

#[test]
fn queued_requests_resolve_in_order() {
    let mut world = World::new();
    world.place(GridPosition { x: 0, y: 0 }, BuildTool::Light, Button::Secondary);
    let light = device_at(&world, 0, 0).unwrap();
    // The light has room for one wire; both requests name it.
    world.place(GridPosition { x: 0, y: 0 }, BuildTool::Wire, Button::Secondary);
    world.place(GridPosition { x: 2, y: 0 }, BuildTool::Wire, Button::Secondary);
    world.place(GridPosition { x: 0, y: 0 }, BuildTool::Wire, Button::Secondary);
    world.place(GridPosition { x: 4, y: 0 }, BuildTool::Wire, Button::Secondary);
    let first = device_at(&world, 2, 0).unwrap();
    let second = device_at(&world, 4, 0).unwrap();
    assert_eq!(world.pending.len(), 2);
    world.tick();
    assert!(world.pending.is_empty());
    assert_eq!(world.wires.len(), 1);
    assert_eq!(world.wires[0].wire.from, light);
    assert_eq!(world.wires[0].wire.to, first);
    assert!(world.connections_of(second).is_empty());
    assert_eq!(world.connections_of(light).len(), 1);
}

#[test]
fn request_with_missing_end_adds_nothing() {
    let mut world = World::new();
    world.place(GridPosition { x: 0, y: 0 }, BuildTool::PowerPole, Button::Secondary);
    world.place(GridPosition { x: 5, y: 0 }, BuildTool::PowerPole, Button::Secondary);
    world.place(GridPosition { x: 0, y: 0 }, BuildTool::Wire, Button::Secondary);
    world.place(GridPosition { x: 2, y: 0 }, BuildTool::Wire, Button::Secondary);
    let pole = device_at(&world, 2, 0).unwrap();
    world.place(GridPosition { x: 2, y: 0 }, BuildTool::Wire, Button::Primary);
    world.tick();
    assert!(world.pending.is_empty());
    assert!(world.wires.is_empty());
    assert!(world.find_device(pole).is_none());
    for d in world.devices.iter() {
        assert!(d.point.connections.is_empty());
    }
}
