use vstd::prelude::*;

verus! {

/// The seven tetromino kinds.
#[derive(Clone, Copy, Debug, PartialEq, Eq, Structural)]
pub enum PieceType {
    I,
    T,
    O,
    J,
    L,
    S,
    Z,
}

/// One rotation state of a piece: the four occupied cells of its bounding box,
/// as `(row, column)` offsets with row 0 at the bottom, and the box's extents.
#[derive(Clone, Copy, Debug)]
pub struct Piece {
    pub cells: [(usize, usize); 4],
    pub width: usize,
    pub height: usize,
    pub leftmost: i32,
    pub rightmost: i32,
}

impl PieceType {
    pub open spec fn spec_index(self) -> nat {
        match self {
            PieceType::I => 0,
            PieceType::T => 1,
            PieceType::O => 2,
            PieceType::J => 3,
            PieceType::L => 4,
            PieceType::S => 5,
            PieceType::Z => 6,
        }
    }

    /// The kind at position `i` of the order I, T, O, J, L, S, Z; any later
    /// position gives Z.
    pub fn from_index(i: usize) -> (t: PieceType)
        ensures
            t.spec_index() == if i < 6 { i as nat } else { 6 },
    {
        match i {
            0 => PieceType::I,
            1 => PieceType::T,
            2 => PieceType::O,
            3 => PieceType::J,
            4 => PieceType::L,
            5 => PieceType::S,
            _ => PieceType::Z,
        }
    }

    /// The letter that names the kind.
    pub open spec fn spec_code(self) -> char {
        match self {
            PieceType::I => 'I',
            PieceType::T => 'T',
            PieceType::O => 'O',
            PieceType::J => 'J',
            PieceType::L => 'L',
            PieceType::S => 'S',
            PieceType::Z => 'Z',
        }
    }

    pub fn code(self) -> (c: char)
        ensures
            c == self.spec_code(),
    {
        match self {
            PieceType::I => 'I',
            PieceType::T => 'T',
            PieceType::O => 'O',
            PieceType::J => 'J',
            PieceType::L => 'L',
            PieceType::S => 'S',
            PieceType::Z => 'Z',
        }
    }

    /// The kind named by a letter; `None` for any other character.
    pub fn from_code(c: char) -> (r: Option<PieceType>)
        ensures
            r matches Some(t) ==> t.spec_code() == c,
            (r is None) == (forall|t: PieceType| #[trigger] t.spec_code() != c),
    {
        let r = match c {
            'I' => Some(PieceType::I),
            'T' => Some(PieceType::T),
            'O' => Some(PieceType::O),
            'J' => Some(PieceType::J),
            'L' => Some(PieceType::L),
            'S' => Some(PieceType::S),
            'Z' => Some(PieceType::Z),
            _ => None,
        };
        proof {
            if r is None {
                assert forall|t: PieceType| #[trigger] t.spec_code() != c by {
                    match t {
                        PieceType::I => {},
                        PieceType::T => {},
                        PieceType::O => {},
                        PieceType::J => {},
                        PieceType::L => {},
                        PieceType::S => {},
                        PieceType::Z => {},
                    }
                }
            }
        }
        r
    }

    /// Position of the kind in the order I, T, O, J, L, S, Z; also its colour tag.
    pub fn index(self) -> (r: usize)
        ensures
            r == self.spec_index(),
    {
        match self {
            PieceType::I => 0,
            PieceType::T => 1,
            PieceType::O => 2,
            PieceType::J => 3,
            PieceType::L => 4,
            PieceType::S => 5,
            PieceType::Z => 6,
        }
    }
}

pub open spec fn spec_piece(cells: [(usize, usize); 4], width: usize, height: usize) -> Piece {
    Piece { cells, width, height, leftmost: 0, rightmost: (width - 1) as i32 }
}

/// The shape of kind `t` in rotation state `r` (taken modulo 4).
pub open spec fn shape_spec(t: PieceType, r: int) -> Piece {
    let r = r % 4;
    match t {
        PieceType::I => if r % 2 == 0 {
            spec_piece([(0, 0), (0, 1), (0, 2), (0, 3)], 4, 1)
        } else {
            spec_piece([(0, 0), (1, 0), (2, 0), (3, 0)], 1, 4)
        },
        PieceType::O => spec_piece([(0, 0), (0, 1), (1, 0), (1, 1)], 2, 2),
        PieceType::T => if r == 0 {
            spec_piece([(0, 0), (0, 1), (0, 2), (1, 1)], 3, 2)
        } else if r == 1 {
            spec_piece([(0, 0), (1, 0), (1, 1), (2, 0)], 2, 3)
        } else if r == 2 {
            spec_piece([(0, 1), (1, 0), (1, 1), (1, 2)], 3, 2)
        } else {
            spec_piece([(0, 1), (1, 0), (1, 1), (2, 1)], 2, 3)
        },
        PieceType::J => if r == 0 {
            spec_piece([(0, 0), (0, 1), (0, 2), (1, 0)], 3, 2)
        } else if r == 1 {
            spec_piece([(0, 0), (1, 0), (2, 0), (2, 1)], 2, 3)
        } else if r == 2 {
            spec_piece([(0, 2), (1, 0), (1, 1), (1, 2)], 3, 2)
        } else {
            spec_piece([(0, 0), (0, 1), (1, 1), (2, 1)], 2, 3)
        },
        PieceType::L => if r == 0 {
            spec_piece([(0, 0), (0, 1), (0, 2), (1, 2)], 3, 2)
        } else if r == 1 {
            spec_piece([(0, 0), (0, 1), (1, 0), (2, 0)], 2, 3)
        } else if r == 2 {
            spec_piece([(0, 0), (1, 0), (1, 1), (1, 2)], 3, 2)
        } else {
            spec_piece([(0, 1), (1, 1), (2, 0), (2, 1)], 2, 3)
        },
        PieceType::S => if r % 2 == 0 {
            spec_piece([(0, 0), (0, 1), (1, 1), (1, 2)], 3, 2)
        } else {
            spec_piece([(0, 1), (1, 0), (1, 1), (2, 0)], 2, 3)
        },
        PieceType::Z => if r % 2 == 0 {
            spec_piece([(0, 1), (0, 2), (1, 0), (1, 1)], 3, 2)
        } else {
            spec_piece([(0, 0), (1, 0), (1, 1), (2, 1)], 2, 3)
        },
    }
}

impl Piece {
    /// Cell `k` of the piece sits at offset `(i, j)` of its box.
    pub open spec fn cell_at(self, k: int, i: int, j: int) -> bool {
        self.cells[k].0 == i && self.cells[k].1 == j
    }

    /// One of the first `n` cells of the piece sits at offset `(i, j)`.
    pub open spec fn covers_first(self, n: int, i: int, j: int) -> bool {
        ||| n > 0 && self.cell_at(0, i, j)
        ||| n > 1 && self.cell_at(1, i, j)
        ||| n > 2 && self.cell_at(2, i, j)
        ||| n > 3 && self.cell_at(3, i, j)
    }

    /// The piece covers offset `(i, j)` of its bounding box.
    pub open spec fn covers(self, i: int, j: int) -> bool {
        self.covers_first(4, i, j)
    }

    /// Every cell lies in the bounding box, the cells are distinct, and the top
    /// row of the box holds at least one of them.
    pub open spec fn wf(self) -> bool {
        &&& 1 <= self.width <= 4
        &&& 1 <= self.height <= 4
        &&& forall|k: int|
            0 <= k < 4 ==> (#[trigger] self.cells[k]).0 < self.height && self.cells[k].1 < self.width
        &&& forall|k: int, l: int| 0 <= k < l < 4 ==> self.cells[k] != self.cells[l]
        &&& exists|k: int| 0 <= k < 4 && self.cells[k].0 == self.height - 1
        &&& self.leftmost == 0
        &&& self.rightmost == self.width - 1
    }
}

fn piece(cells: [(usize, usize); 4], width: usize, height: usize) -> (p: Piece)
    requires
        width <= 4,
    ensures
        p == spec_piece(cells, width, height),
{
    Piece { cells, width, height, leftmost: 0, rightmost: width as i32 - 1 }
}

/// Looks up the shape of kind `t` in rotation state `r`.
pub fn shape(t: PieceType, r: usize) -> (p: Piece)
    requires
        r < 4,
    ensures
        p == shape_spec(t, r as int),
        p.wf(),
{
    let p = match t {
        PieceType::I => if r % 2 == 0 {
            piece([(0, 0), (0, 1), (0, 2), (0, 3)], 4, 1)
        } else {
            piece([(0, 0), (1, 0), (2, 0), (3, 0)], 1, 4)
        },
        PieceType::O => piece([(0, 0), (0, 1), (1, 0), (1, 1)], 2, 2),
        PieceType::T => if r == 0 {
            piece([(0, 0), (0, 1), (0, 2), (1, 1)], 3, 2)
        } else if r == 1 {
            piece([(0, 0), (1, 0), (1, 1), (2, 0)], 2, 3)
        } else if r == 2 {
            piece([(0, 1), (1, 0), (1, 1), (1, 2)], 3, 2)
        } else {
            piece([(0, 1), (1, 0), (1, 1), (2, 1)], 2, 3)
        },
        PieceType::J => if r == 0 {
            piece([(0, 0), (0, 1), (0, 2), (1, 0)], 3, 2)
        } else if r == 1 {
            piece([(0, 0), (1, 0), (2, 0), (2, 1)], 2, 3)
        } else if r == 2 {
            piece([(0, 2), (1, 0), (1, 1), (1, 2)], 3, 2)
        } else {
            piece([(0, 0), (0, 1), (1, 1), (2, 1)], 2, 3)
        },
        PieceType::L => if r == 0 {
            piece([(0, 0), (0, 1), (0, 2), (1, 2)], 3, 2)
        } else if r == 1 {
            piece([(0, 0), (0, 1), (1, 0), (2, 0)], 2, 3)
        } else if r == 2 {
            piece([(0, 0), (1, 0), (1, 1), (1, 2)], 3, 2)
        } else {
            piece([(0, 1), (1, 1), (2, 0), (2, 1)], 2, 3)
        },
        PieceType::S => if r % 2 == 0 {
            piece([(0, 0), (0, 1), (1, 1), (1, 2)], 3, 2)
        } else {
            piece([(0, 1), (1, 0), (1, 1), (2, 0)], 2, 3)
        },
        PieceType::Z => if r % 2 == 0 {
            piece([(0, 1), (0, 2), (1, 0), (1, 1)], 3, 2)
        } else {
            piece([(0, 0), (1, 0), (1, 1), (2, 1)], 2, 3)
        },
    };
    assert(p.cells[0] == p.cells@[0]);
    p
}


impl Piece {
    /// The row offset of the piece's topmost cell.
    pub open spec fn top_offset(self) -> int {
        let a = if self.cells[0].0 >= self.cells[1].0 { self.cells[0].0 } else { self.cells[1].0 };
        let b = if self.cells[2].0 >= self.cells[3].0 { self.cells[2].0 } else { self.cells[3].0 };
        if a >= b { a as int } else { b as int }
    }

    /// The row offset of the piece's topmost cell.
    pub fn top(&self) -> (t: usize)
        ensures
            t == self.top_offset(),
    {
        let a = if self.cells[0].0 >= self.cells[1].0 { self.cells[0].0 } else { self.cells[1].0 };
        let b = if self.cells[2].0 >= self.cells[3].0 { self.cells[2].0 } else { self.cells[3].0 };
        if a >= b { a } else { b }
    }
}

} // verus!
