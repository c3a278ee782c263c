use power_sandbox::connection::{ConnectionPoint, PowerConsumer, PowerSource};
use power_sandbox::entity::{BuildTool, Entity, GridPosition, TileContent};
use power_sandbox::generator::Generator;

#[test]
fn connection_point_respects_capacity() {
    let mut cp = ConnectionPoint::new(2);
    assert!(cp.can_connect());
    assert!(cp.add_connection(Entity { id: 1 }));
    assert!(cp.add_connection(Entity { id: 1 }));
    assert_eq!(cp.connections.len(), 1);
    assert!(cp.add_connection(Entity { id: 2 }));
    assert!(!cp.can_connect());
    assert!(!cp.add_connection(Entity { id: 3 }));
    assert_eq!(cp.connections, vec![Entity { id: 1 }, Entity { id: 2 }]);
    cp.remove_connection(Entity { id: 1 });
    assert_eq!(cp.connections, vec![Entity { id: 2 }]);
    cp.remove_connection(Entity { id: 9 });
    assert_eq!(cp.connections, vec![Entity { id: 2 }]);
    assert!(cp.contains(Entity { id: 2 }));
    assert!(!cp.contains(Entity { id: 1 }));
}

#[test]
fn zero_capacity_point_takes_nothing() {
    let mut cp = ConnectionPoint::new(0);
    assert!(!cp.can_connect());
    assert!(!cp.add_connection(Entity { id: 4 }));
    assert!(cp.connections.is_empty());
}

#[test]
fn flags_start_as_documented() {
    assert!(PowerSource::default().powered);
    assert!(!PowerConsumer::default().powered);
}

#[test]
fn capacities_by_kind() {
    assert_eq!(TileContent::Generator.capacity(), 1);
    assert_eq!(TileContent::PowerPole.capacity(), 4);
    assert_eq!(TileContent::Light.capacity(), 1);
    assert_eq!(BuildTool::Wire.device(), None);
    assert_eq!(BuildTool::Light.device(), Some(TileContent::Light));
}

#[test]
fn grid_bounds() {
    assert!(GridPosition { x: -16, y: 15 }.on_grid());
    assert!(!GridPosition { x: 16, y: 0 }.on_grid());
    assert!(!GridPosition { x: 0, y: -17 }.on_grid());
}

#[test]
fn generator_burns_fuel_per_period() {
    let mut g = Generator::new();
    assert_eq!(g.fuel_amount, 5);
    assert!(!g.is_active);
    g.tick_power(false);
    assert!(g.is_active);
    assert_eq!(g.fuel_amount, 5);
    assert_eq!(g.output, 1);
    g.tick_power(true);
    assert_eq!(g.fuel_amount, 4);
    assert_eq!(g.output, 2);
}

#[test]
fn generator_without_fuel_goes_inactive() {
    let mut g = Generator { fuel_amount: 1, output: 7, is_active: true };
    g.tick_power(true);
    assert_eq!(g.fuel_amount, 0);
    assert!(g.is_active);
    g.tick_power(true);
    assert_eq!(g.fuel_amount, 0);
    assert!(!g.is_active);
    assert_eq!(g.output, 8);
}

#[test]
fn generator_output_saturates() {
    let mut g = Generator { fuel_amount: 3, output: u64::MAX, is_active: true };
    g.tick_power(false);
    assert_eq!(g.output, u64::MAX);
}
