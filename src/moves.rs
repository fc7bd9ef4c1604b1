use vstd::prelude::*;

use crate::board::{Board, BOARD_WIDTH};
use crate::features::Features;
use crate::piece::{shape, shape_spec, PieceType};

verus! {

/// A legal placement of a piece, with what it would give.
#[derive(Clone, Copy, Debug, PartialEq, Eq, Structural)]
pub struct Placement {
    pub rotation: usize,
    pub column: usize,
    pub cleared: i32,
    pub features: Features,
}

/// `(r1, c1)` comes before `(r2, c2)`: rotations first, then columns.
pub open spec fn precedes(r1: int, c1: int, r2: int, c2: int) -> bool {
    r1 < r2 || (r1 == r2 && c1 < c2)
}

impl Placement {
    /// The placement is legal on `b` for a piece of kind `t`, and its counts are
    /// what `evaluate` gives for it.
    pub open spec fn valid_on(self, b: Board, t: PieceType) -> bool {
        let p = shape_spec(t, self.rotation as int);
        let x = self.column as int;
        &&& self.rotation < 4
        &&& b.fits(p, x)
        &&& self.cleared == b.cleared(p, x)
        &&& self.features.describe(
            b.settled(p, x),
            b.landing_row(p, x),
            b.piece_cells_cleared(p, x) * b.cleared(p, x),
        )
    }
}

impl Board {
    /// Every legal placement of a piece of kind `t`, by rotation and then by
    /// column, each with its rows cleared and features. Empty when the piece
    /// cannot be placed anywhere.
    pub fn placements(&self, t: PieceType) -> (v: Vec<Placement>)
        requires
            self.wf(),
        ensures
            forall|i: int| 0 <= i < v.len() ==> (#[trigger] v[i]).valid_on(*self, t),
            forall|i: int, j: int|
                0 <= i < j < v.len() ==> precedes(
                    v[i].rotation as int,
                    v[i].column as int,
                    v[j].rotation as int,
                    v[j].column as int,
                ),
            forall|r: int, x: int|
                0 <= r < 4 && #[trigger] self.fits(shape_spec(t, r), x) ==> exists|i: int|
                    0 <= i < v.len() && (#[trigger] v[i]).rotation == r && v[i].column == x,
    {
        let mut v: Vec<Placement> = Vec::new();
        for r in 0..4
            invariant
                self.wf(),
                forall|i: int| 0 <= i < v.len() ==> (#[trigger] v[i]).valid_on(*self, t),
                forall|i: int| 0 <= i < v.len() ==> (#[trigger] v[i]).rotation < r,
                forall|i: int, j: int|
                    0 <= i < j < v.len() ==> precedes(
                        v[i].rotation as int,
                        v[i].column as int,
                        v[j].rotation as int,
                        v[j].column as int,
                    ),
                forall|q: int, x: int|
                    0 <= q < r && #[trigger] self.fits(shape_spec(t, q), x) ==> exists|i: int|
                        0 <= i < v.len() && (#[trigger] v[i]).rotation == q && v[i].column == x,
        {
            let p = shape(t, r);
            let last = BOARD_WIDTH - p.width;
            let ghost start = v.len();
            for x in 0..last + 1
                invariant
                    self.wf(),
                    p == shape_spec(t, r as int),
                    p.wf(),
                    r < 4,
                    last == BOARD_WIDTH - p.width,
                    start <= v.len(),
                    forall|i: int| 0 <= i < v.len() ==> (#[trigger] v[i]).valid_on(*self, t),
                    forall|i: int| 0 <= i < start ==> (#[trigger] v[i]).rotation < r,
                    forall|i: int|
                        start <= i < v.len() ==> (#[trigger] v[i]).rotation == r && v[i].column < x,
                    forall|i: int, j: int|
                        0 <= i < j < v.len() ==> precedes(
                            v[i].rotation as int,
                            v[i].column as int,
                            v[j].rotation as int,
                            v[j].column as int,
                        ),
                    forall|q: int, c: int|
                        0 <= q < r && #[trigger] self.fits(shape_spec(t, q), c) ==> exists|i: int|
                            0 <= i < v.len() && (#[trigger] v[i]).rotation == q && v[i].column
                                == c,
                    forall|c: int|
                        0 <= c < x && #[trigger] self.fits(shape_spec(t, r as int), c) ==> exists|
                            i: int,
                        |
                            0 <= i < v.len() && (#[trigger] v[i]).rotation == r && v[i].column
                                == c,
            {
                match self.evaluate(t, x, r) {
                    Some((cleared, features)) => {
                        let ghost before = v@;
                        v.push(Placement { rotation: r, column: x, cleared, features });
                        assert(v[v.len() - 1].rotation == r && v[v.len() - 1].column == x);
                        assert forall|q: int, c: int|
                            0 <= q < r && #[trigger] self.fits(shape_spec(t, q), c) implies exists|
                                i: int,
                            |
                                0 <= i < v.len() && (#[trigger] v[i]).rotation == q && v[i].column
                                    == c by {
                            let i = choose|i: int|
                                0 <= i < before.len() && (#[trigger] before[i]).rotation == q
                                    && before[i].column == c;
                            assert(v[i] == before[i]);
                        }
                        assert forall|c: int|
                            0 <= c < x + 1 && #[trigger] self.fits(
                                shape_spec(t, r as int),
                                c,
                            ) implies exists|i: int|
                            0 <= i < v.len() && (#[trigger] v[i]).rotation == r && v[i].column
                                == c by {
                            if c < x {
                                let i = choose|i: int|
                                    0 <= i < before.len() && (#[trigger] before[i]).rotation == r
                                        && before[i].column == c;
                                assert(v[i] == before[i]);
                            }
                        }
                    },
                    None => {
                        assert(!self.fits(shape_spec(t, r as int), x as int));
                    },
                }
            }
            assert forall|c: int| #[trigger] self.fits(shape_spec(t, r as int), c) implies c <= last by {}
        }
        v
    }
}

/// The position of the first smallest key: ties go to the earliest position.
/// `None` when there are no keys.
pub fn first_minimum(keys: &Vec<i64>) -> (r: Option<usize>)
    ensures
        (r is None) == (keys.len() == 0),
        r matches Some(i) ==> {
            &&& i < keys.len()
            &&& forall|j: int| 0 <= j < keys.len() ==> keys[i as int] <= #[trigger] keys[j]
            &&& forall|j: int| 0 <= j < i ==> keys[i as int] < #[trigger] keys[j]
        },
{
    if keys.len() == 0 {
        return None;
    }
    let mut best: usize = 0;
    for j in 1..keys.len()
        invariant
            keys.len() > 0,
            best < j,
            forall|k: int| 0 <= k < j ==> keys[best as int] <= #[trigger] keys[k],
            forall|k: int| 0 <= k < best ==> keys[best as int] < #[trigger] keys[k],
    {
        if keys[j] < keys[best] {
            best = j;
        }
    }
    Some(best)
}

} // verus!
