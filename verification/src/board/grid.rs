use vstd::prelude::*;
use crate::config::{LANE_COUNT, LANE_HEIGHT, TOTAL_GRID_WIDTH};

verus! {

/// The shared playfield. `cells[y][x]` holds the palette slot of the player
/// whose piece fills the cell, or `None`; row 0 is the bottom.
#[derive(Debug, Clone, Copy)]
pub struct GlobalBoard {
    pub cells: [[Option<u8>; TOTAL_GRID_WIDTH]; LANE_HEIGHT],
    pub score: u32,
    pub lines_cleared: u32,
    pub game_over: bool,
    pub lane_stuck: [bool; LANE_COUNT],
    /// Incremented whenever a lock or a line clear changes the field.
    pub board_version: u64,
}

/// Palette slot of the colour that marks cells locked by `player_id`.
pub open spec fn spec_palette_slot(player_id: int) -> u8 {
    (player_id % LANE_COUNT as int) as u8
}

/// Palette slot of the colour that marks cells locked by `player_id`.
pub fn player_palette_slot(player_id: usize) -> (r: u8)
    ensures
        r == spec_palette_slot(player_id as int),
{
    (player_id % LANE_COUNT) as u8
}

impl Default for GlobalBoard {
    /// An empty field with no score, no stuck lane and the game running.
    fn default() -> (r: Self)
        ensures
            forall|y: int, x: int| 0 <= y < LANE_HEIGHT && 0 <= x < TOTAL_GRID_WIDTH ==> #[trigger] r.cells[y][x] is None,
            r.score == 0,
            r.lines_cleared == 0,
            !r.game_over,
            forall|i: int| 0 <= i < LANE_COUNT ==> !#[trigger] r.lane_stuck[i],
            r.board_version == 0,
    {
        GlobalBoard {
            cells: [[None; TOTAL_GRID_WIDTH]; LANE_HEIGHT],
            score: 0,
            lines_cleared: 0,
            game_over: false,
            lane_stuck: [false; LANE_COUNT],
            board_version: 0,
        }
    }
}

impl GlobalBoard {
    /// Occupancy view of the cells.
    pub open spec fn grid(self) -> Seq<Seq<bool>> {
        Seq::new(LANE_HEIGHT as nat, |y: int| Seq::new(TOTAL_GRID_WIDTH as nat, |x: int| self.cells[y][x] is Some))
    }

    /// Empties the field, clears every stuck lane and the game-over flag;
    /// score, line count and version are kept.
    pub fn reset(&mut self)
        ensures
            forall|y: int, x: int|
                0 <= y < LANE_HEIGHT && 0 <= x < TOTAL_GRID_WIDTH ==> #[trigger] final(self).cells[y][x] is None,
            !final(self).game_over,
            forall|i: int| 0 <= i < LANE_COUNT ==> !#[trigger] final(self).lane_stuck[i],
            final(self).score == old(self).score,
            final(self).lines_cleared == old(self).lines_cleared,
            final(self).board_version == old(self).board_version,
    {
        self.cells = [[None; TOTAL_GRID_WIDTH]; LANE_HEIGHT];
        self.game_over = false;
        self.lane_stuck = [false; LANE_COUNT];
    }

    /// Marks lane `lane_id` stuck; when every lane is stuck the game is over.
    /// Returns whether every lane is now stuck.
    pub fn mark_lane_stuck(&mut self, lane_id: usize) -> (all_stuck: bool)
        requires
            lane_id < LANE_COUNT,
        ensures
            final(self).lane_stuck@ == old(self).lane_stuck@.update(lane_id as int, true),
            all_stuck == (forall|i: int| 0 <= i < LANE_COUNT ==> #[trigger] final(self).lane_stuck[i]),
            final(self).game_over == (old(self).game_over || all_stuck),
            final(self).cells == old(self).cells,
            final(self).score == old(self).score,
            final(self).lines_cleared == old(self).lines_cleared,
            final(self).board_version == old(self).board_version,
    {
        self.lane_stuck[lane_id] = true;
        let mut all_stuck = true;
        let mut i: usize = 0;
        while i < LANE_COUNT
            invariant
                0 <= i <= LANE_COUNT,
                all_stuck == (forall|j: int| 0 <= j < i ==> #[trigger] self.lane_stuck[j]),
            decreases LANE_COUNT - i,
        {
            if !self.lane_stuck[i] {
                all_stuck = false;
            }
            i += 1;
        }
        if all_stuck {
            self.game_over = true;
        }
        all_stuck
    }

}

} // verus!
