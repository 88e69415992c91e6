use vstd::prelude::*;

verus! {

/// Number of player lanes (spawn slots) across the shared field.
pub const LANE_COUNT: usize = 8;

/// Width of one lane, in cells.
pub const LANE_WIDTH: usize = 3;

/// Width of the separator column between two lanes.
pub const BORDER_WIDTH: usize = 1;

/// Total width: eight lanes of three cells plus seven separators (31 cells).
pub const TOTAL_GRID_WIDTH: usize = (LANE_COUNT * LANE_WIDTH) + ((LANE_COUNT - 1) * BORDER_WIDTH);

/// Height of the spawn-wall band at the top of the field.
pub const SPAWN_WALL_HEIGHT: usize = 4;

/// Height of the connected play area below the spawn walls.
pub const PLAYABLE_HEIGHT: usize = 15;

/// Total field height (19 rows); row 0 is the bottom.
pub const LANE_HEIGHT: usize = SPAWN_WALL_HEIGHT + PLAYABLE_HEIGHT;

/// First row of the spawn-wall band: separator columns are walls from here up.
pub const SPAWN_WALL_MIN_Y: usize = LANE_HEIGHT - SPAWN_WALL_HEIGHT;

} // verus!
