use vstd::prelude::*;
use bevy_prng::WyRand;

verus! {

/// The two tromino shapes: the straight I and the corner L.
#[derive(Debug, Clone, Copy, PartialEq, Eq, Structural)]
pub enum TrominoKind {
    Straight,
    Corner,
}

impl TrominoKind {
    /// Number of distinct rotations of the shape.
    pub open spec fn spec_rotation_count(self) -> nat {
        match self {
            TrominoKind::Straight => 2,
            TrominoKind::Corner => 4,
        }
    }

    /// Cell offsets `(dx, dy)` of the shape in the given rotation, relative to its origin.
    pub open spec fn spec_cell_offsets(self, rotation: nat) -> Seq<(i32, i32)> {
        match self {
            TrominoKind::Straight => if rotation % 2 == 0 {
                seq![(0i32, 0i32), (1i32, 0i32), (2i32, 0i32)]
            } else {
                seq![(0i32, 0i32), (0i32, 1i32), (0i32, 2i32)]
            },
            TrominoKind::Corner => if rotation % 4 == 0 {
                seq![(0i32, 1i32), (0i32, 0i32), (1i32, 0i32)]
            } else if rotation % 4 == 1 {
                seq![(0i32, 1i32), (1i32, 1i32), (0i32, 0i32)]
            } else if rotation % 4 == 2 {
                seq![(0i32, 1i32), (1i32, 1i32), (1i32, 0i32)]
            } else {
                seq![(1i32, 1i32), (0i32, 0i32), (1i32, 0i32)]
            },
        }
    }

    /// Rotation a freshly spawned piece starts in: the straight piece upright,
    /// the corner piece in its first orientation.
    pub open spec fn spec_initial_rotation(self) -> nat {
        match self {
            TrominoKind::Straight => 1,
            TrominoKind::Corner => 0,
        }
    }

    /// Rotation a freshly spawned piece starts in.
    pub fn initial_rotation(&self) -> (r: usize)
        ensures
            r == self.spec_initial_rotation(),
    {
        match self {
            TrominoKind::Straight => 1,
            TrominoKind::Corner => 0,
        }
    }

    /// Number of possible rotations of this shape.
    pub fn rotation_count(&self) -> (r: usize)
        ensures
            r == self.spec_rotation_count(),
    {
        match self {
            TrominoKind::Straight => 2,
            TrominoKind::Corner => 4,
        }
    }

    /// The three cell offsets of the shape in `rotation` (taken modulo the rotation count).
    pub fn cell_offsets(&self, rotation: usize) -> (r: Vec<(i32, i32)>)
        ensures
            r@ == self.spec_cell_offsets(rotation as nat),
    {
        match self {
            TrominoKind::Straight => if rotation % 2 == 0 {
                vec![(0, 0), (1, 0), (2, 0)]
            } else {
                vec![(0, 0), (0, 1), (0, 2)]
            },
            TrominoKind::Corner => {
                let r = rotation % 4;
                if r == 0 {
                    vec![(0, 1), (0, 0), (1, 0)]
                } else if r == 1 {
                    vec![(0, 1), (1, 1), (0, 0)]
                } else if r == 2 {
                    vec![(0, 1), (1, 1), (1, 0)]
                } else {
                    vec![(1, 1), (0, 0), (1, 0)]
                }
            },
        }
    }
}

/// The random number generator the game draws its pieces from.
#[verifier::external_type_specification]
#[verifier::external_body]
pub struct ExWyRand(WyRand);

/// Draws the next 32 random bits from `rng` through `rand_core::Rng::next_u32`,
/// which advances the generator. What it returns depends on the generator's
/// seed and history, so nothing is stated of the value.
#[verifier::external_body]
fn next_random_u32(rng: &mut WyRand) -> (r: u32) {
    rand_core::Rng::next_u32(rng)
}

/// The kind a random draw `v` selects: even draws give the straight piece.
pub open spec fn kind_for_draw(v: u32) -> TrominoKind {
    if v % 2 == 0 {
        TrominoKind::Straight
    } else {
        TrominoKind::Corner
    }
}

impl TrominoKind {
    /// The kind a random draw `v` selects: straight for even draws, corner for odd.
    pub fn from_random_u32(v: u32) -> (r: TrominoKind)
        ensures
            r == kind_for_draw(v),
    {
        if v % 2 == 0 {
            TrominoKind::Straight
        } else {
            TrominoKind::Corner
        }
    }

    /// A random kind: the next draw of `rng`, straight when even, corner when odd.
    pub fn random_from_rng(rng: &mut WyRand) -> (r: TrominoKind)
        ensures
            exists|v: u32| r == kind_for_draw(v),
    {
        let v = next_random_u32(rng);
        let r = TrominoKind::from_random_u32(v);
        assert(r == kind_for_draw(v));
        r
    }
}

} // verus!
