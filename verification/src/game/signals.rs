//! The coarse signals each lane posts for its neighbours: where its hole is,
//! whether the hole is still covered, its deepest vertical well, where its
//! falling piece is headed and how fast it is dropping.

use vstd::prelude::*;
use crate::board::GlobalBoard;
use crate::board::model::{deepest_hole_of, wells_in};
use crate::board::spec_lane_x_range;
use crate::config::LANE_COUNT;

verus! {

/// State of the hole a lane reports.
#[derive(Debug, Clone, Copy, PartialEq, Eq, Structural)]
pub enum HoleStatus {
    /// Nothing to report.
    NoHole,
    /// Still covered: the lane waits for the rows above it to clear.
    WaitingForClearance,
    /// Uncovered: a piece can be slid or dropped into it.
    ReadyForFill,
}

/// How fast a lane drops its piece.
#[derive(Debug, Clone, Copy, PartialEq, Eq, Structural)]
pub enum LanePace {
    /// The lane soft-drops to catch up.
    SoftDrop,
    /// The piece falls at the system speed.
    Normal,
}

/// What one lane posts on the signal board.
#[derive(Debug, Clone, Copy)]
pub struct LaneSignal {
    pub lane_id: usize,
    /// Column of the lane's reported hole.
    pub hole_x: Option<usize>,
    pub hole_status: HoleStatus,
    /// Deepest vertical well of the lane, as `(x, bottom row, depth)`.
    pub vertical_well: Option<(usize, usize, usize)>,
    /// Column the lane's falling piece is headed for.
    pub intent_target_x: Option<i32>,
    pub pace: LanePace,
}

impl Default for LaneSignal {
    /// Lane 0 with nothing to report, at normal pace.
    fn default() -> (r: Self)
        ensures
            r.lane_id == 0,
            r.hole_x is None,
            r.hole_status == HoleStatus::NoHole,
            r.vertical_well is None,
            r.intent_target_x is None,
            r.pace == LanePace::Normal,
    {
        LaneSignal {
            lane_id: 0,
            hole_x: None,
            hole_status: HoleStatus::NoHole,
            vertical_well: None,
            intent_target_x: None,
            pace: LanePace::Normal,
        }
    }
}

/// The signals of every lane, indexed by lane.
#[derive(Debug, Clone, Copy)]
pub struct LaneSignalBoard {
    pub signals: [LaneSignal; LANE_COUNT],
}

impl Default for LaneSignalBoard {
    /// Every lane's default signal, each carrying its own lane number.
    fn default() -> (r: Self)
        ensures
            forall|i: int|
                0 <= i < LANE_COUNT ==> {
                    let s = #[trigger] r.signals[i];
                    &&& s.lane_id == i
                    &&& s.hole_x is None
                    &&& s.hole_status == HoleStatus::NoHole
                    &&& s.vertical_well is None
                    &&& s.intent_target_x is None
                    &&& s.pace == LanePace::Normal
                },
    {
        let mut signals = [LaneSignal::default();LANE_COUNT];
        let mut i: usize = 0;
        while i < LANE_COUNT
            invariant
                0 <= i <= LANE_COUNT,
                forall|j: int|
                    0 <= j < LANE_COUNT ==> {
                        let s = #[trigger] signals[j];
                        &&& s.lane_id == (if j < i { j } else { 0 })
                        &&& s.hole_x is None
                        &&& s.hole_status == HoleStatus::NoHole
                        &&& s.vertical_well is None
                        &&& s.intent_target_x is None
                        &&& s.pace == LanePace::Normal
                    },
            decreases LANE_COUNT - i,
        {
            let mut s = signals[i];
            s.lane_id = i;
            signals[i] = s;
            i += 1;
        }
        LaneSignalBoard { signals }
    }
}

/// The well of greatest depth in `ws`; of equally deep wells the last one.
pub open spec fn deepest_well(ws: Seq<(usize, usize, usize)>) -> Option<(usize, usize, usize)>
    decreases ws.len(),
{
    if ws.len() == 0 {
        None
    } else {
        let last = ws[ws.len() - 1];
        match deepest_well(ws.drop_last()) {
            None => Some(last),
            Some(p) => if last.2 >= p.2 {
                Some(last)
            } else {
                Some(p)
            },
        }
    }
}

/// The deepest of `ws`, the last one among equally deep wells.
pub fn deepest_of(ws: &Vec<(usize, usize, usize)>) -> (r: Option<(usize, usize, usize)>)
    ensures
        r == deepest_well(ws@),
{
    let mut best: Option<(usize, usize, usize)> = None;
    let mut i: usize = 0;
    while i < ws.len()
        invariant
            0 <= i <= ws@.len(),
            best == deepest_well(ws@.subrange(0, i as int)),
        decreases ws.len() - i,
    {
        let w = ws[i];
        assert(ws@.subrange(0, i + 1).drop_last() =~= ws@.subrange(0, i as int));
        best = match best {
            None => Some(w),
            Some(p) => if w.2 >= p.2 {
                Some(w)
            } else {
                Some(p)
            },
        };
        i += 1;
    }
    assert(ws@.subrange(0, ws@.len() as int) =~= ws@);
    best
}

/// The hole a lane reports for the deepest hole search result `deepest`:
/// a covered hole waits for clearance, an open dip is ready to be filled.
pub open spec fn reported_hole(deepest: Option<(usize, usize, bool)>) -> (Option<usize>, HoleStatus) {
    match deepest {
        Some((hx, _, true)) => (Some(hx), HoleStatus::WaitingForClearance),
        Some((hx, _, false)) => (Some(hx), HoleStatus::ReadyForFill),
        None => (None, HoleStatus::NoHole),
    }
}

/// The signal of lane `lane_id`, given the result of the lane's deepest hole
/// search, the lane's wells and, when the lane has a falling piece, that
/// piece's target column and pace.
pub open spec fn lane_signal_from(
    lane_id: usize,
    deepest: Option<(usize, usize, bool)>,
    wells: Seq<(usize, usize, usize)>,
    falling: Option<(i32, LanePace)>,
) -> LaneSignal {
    LaneSignal {
        lane_id,
        hole_x: reported_hole(deepest).0,
        hole_status: reported_hole(deepest).1,
        vertical_well: deepest_well(wells),
        intent_target_x: match falling {
            Some((tx, _)) => Some(tx),
            None => None,
        },
        pace: match falling {
            Some((_, p)) => p,
            None => LanePace::Normal,
        },
    }
}

/// The signal lane `lane_id` posts for the field `board`; `falling` is the
/// target column and pace of the lane's falling piece, if it has one.
///
/// The hole is the one `find_lane_deepest_hole` picks: a covered hole is
/// reported as waiting for clearance, an uncovered dip as ready to fill.
pub fn compute_lane_signal(board: &GlobalBoard, lane_id: usize, falling: Option<(i32, LanePace)>) -> (r: LaneSignal)
    requires
        lane_id < LANE_COUNT,
    ensures
        r == lane_signal_from(
            lane_id,
            deepest_hole_of(board.grid(), lane_id as int),
            wells_in(board.grid(), spec_lane_x_range(lane_id as int).0, spec_lane_x_range(lane_id as int).1 + 1),
            falling,
        ),
{
    let deepest = board.find_lane_deepest_hole(lane_id);
    let (hole_x, hole_status) = match deepest {
        Some((hx, _, true)) => (Some(hx), HoleStatus::WaitingForClearance),
        Some((hx, _, false)) => (Some(hx), HoleStatus::ReadyForFill),
        None => (None, HoleStatus::NoHole),
    };
    let wells = board.find_lane_vertical_wells(lane_id);
    let vertical_well = deepest_of(&wells);
    let (intent_target_x, pace) = match falling {
        Some((tx, p)) => (Some(tx), p),
        None => (None, LanePace::Normal),
    };
    let r = LaneSignal { lane_id, hole_x, hole_status, vertical_well, intent_target_x, pace };
    r
}

} // verus!
