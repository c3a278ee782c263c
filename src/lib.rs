//! A wire-connected power network on a grid of placeable devices: connection
//! points with bounded capacity, wires between them, a per-tick boolean power
//! propagation from active sources to consumers, and the placement controller
//! that turns grid clicks into graph edits.
pub mod entity;
pub mod connection;
pub mod generator;
pub mod placement;
pub mod world;
pub mod wire_graph;
pub mod power;
pub mod simulation;
