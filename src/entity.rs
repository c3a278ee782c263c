//! Identifiers, grid coordinates and the tool / device vocabulary.
use vstd::prelude::*;

verus! {

/// Stable identifier of a placed device, a wire or a pending request.
/// Identifiers are handed out in increasing order and never reused.
#[derive(Clone, Copy, Debug, PartialEq, Eq, Hash, Structural)]
pub struct Entity {
    pub id: u64,
}

/// Number of cells along each axis of the grid.
pub const GRID_SIZE: i32 = 32;

/// Half of `GRID_SIZE`: cells span `-GRID_HALF .. GRID_HALF` on both axes.
pub const GRID_HALF: i32 = 16;

/// Integer cell coordinate; at most one device occupies a cell.
#[derive(Clone, Copy, Debug, PartialEq, Eq, Hash, Structural)]
pub struct GridPosition {
    pub x: i32,
    pub y: i32,
}

impl GridPosition {
    /// The cell is one of the grid's tiles.
    pub open spec fn on_grid_spec(self) -> bool {
        -GRID_HALF <= self.x < GRID_HALF && -GRID_HALF <= self.y < GRID_HALF
    }

    pub fn on_grid(&self) -> (r: bool)
        ensures
            r == self.on_grid_spec(),
    {
        -GRID_HALF <= self.x && self.x < GRID_HALF && -GRID_HALF <= self.y && self.y < GRID_HALF
    }
}

/// The tool the player has selected; exactly one is active at a time.
#[derive(Clone, Copy, Debug, PartialEq, Eq, Structural)]
pub enum BuildTool {
    Generator,
    PowerPole,
    Light,
    Wire,
}

/// The kind of device that occupies a tile.
#[derive(Clone, Copy, Debug, PartialEq, Eq, Structural)]
pub enum TileContent {
    Generator,
    PowerPole,
    Light,
}

/// Which mouse button a placement action was made with: `Secondary` places
/// devices and draws wires, `Primary` removes devices.
#[derive(Clone, Copy, Debug, PartialEq, Eq, Structural)]
pub enum Button {
    Primary,
    Secondary,
}

impl TileContent {
    /// Connection capacity of each kind of device.
    pub open spec fn capacity_spec(self) -> u8 {
        match self {
            TileContent::Generator => 1,
            TileContent::PowerPole => 4,
            TileContent::Light => 1,
        }
    }

    pub fn capacity(&self) -> (r: u8)
        ensures
            r == self.capacity_spec(),
    {
        match self {
            TileContent::Generator => 1,
            TileContent::PowerPole => 4,
            TileContent::Light => 1,
        }
    }
}

impl BuildTool {
    /// The device a tool places, or `None` for the wire tool.
    pub open spec fn device_spec(self) -> Option<TileContent> {
        match self {
            BuildTool::Generator => Some(TileContent::Generator),
            BuildTool::PowerPole => Some(TileContent::PowerPole),
            BuildTool::Light => Some(TileContent::Light),
            BuildTool::Wire => None,
        }
    }

    pub fn device(&self) -> (r: Option<TileContent>)
        ensures
            r == self.device_spec(),
    {
        match self {
            BuildTool::Generator => Some(TileContent::Generator),
            BuildTool::PowerPole => Some(TileContent::PowerPole),
            BuildTool::Light => Some(TileContent::Light),
            BuildTool::Wire => None,
        }
    }
}

} // verus!
