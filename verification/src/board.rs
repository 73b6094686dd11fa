//! A 19 x 19 board position, held as plain vertex values.
//!
//! The engine consumes the board only through a small query interface:
//! cloning, move legality, feature extraction and symmetry checks. This type
//! holds exactly what those queries read: one cell per point, empty or a
//! stone of either color. A point is a legal move while it is empty; the
//! pass move (index 361) is always legal and is not a point.

use vstd::prelude::*;
use crate::SCALE;
use crate::symmetry::Transform;
use crate::symmetry::apply_spec;

verus! {

/// The player to move, or the owner of a stone.
#[derive(Clone, Copy, PartialEq, Eq, Structural, Debug)]
pub enum Color {
    Black,
    White,
}

impl Color {
    pub open spec fn opposite_spec(self) -> Color {
        match self {
            Color::Black => Color::White,
            Color::White => Color::Black,
        }
    }

    pub fn opposite(self) -> (r: Color)
        ensures
            r == self.opposite_spec(),
    {
        match self {
            Color::Black => Color::White,
            Color::White => Color::Black,
        }
    }
}

/// A board position: 361 cells, row-major, `0` empty, `1` black, `2` white.
pub struct Board {
    vertices: Vec<u8>,
}

impl Board {
    pub closed spec fn wf(self) -> bool {
        &&& self.vertices@.len() == 361
        &&& forall|i: int| 0 <= i < 361 ==> self.vertices@[i] <= 2
    }

    /// The cell at linear index `i`.
    pub closed spec fn vertex(self, i: int) -> u8 {
        self.vertices@[i]
    }

    /// A point is a legal move while it is empty, for either color.
    pub open spec fn legal_spec(self, i: int) -> bool {
        self.vertex(i) == 0
    }

    /// The board is invariant under `t`: every cell equals its image.
    pub open spec fn symmetric_spec(self, t: Transform) -> bool {
        forall|i: int| 0 <= i < 361 ==> self.vertex(i) == self.vertex(apply_spec(t, i))
    }

    /// The empty starting position.
    pub fn new() -> (r: Board)
        ensures
            r.wf(),
            forall|i: int| 0 <= i < 361 ==> r.vertex(i) == 0,
    {
        let mut vertices: Vec<u8> = Vec::new();
        let mut i: usize = 0;
        while i < 361
            invariant
                i <= 361,
                vertices@.len() == i,
                forall|k: int| 0 <= k < i ==> vertices@[k] == 0,
            decreases 361 - i,
        {
            vertices.push(0);
            i += 1;
        }
        Board { vertices }
    }

    /// Whether `color` may play at `(x, y)`: the point must be empty.
    pub fn is_valid(&self, color: Color, x: usize, y: usize) -> (r: bool)
        requires
            self.wf(),
            x < 19,
            y < 19,
        ensures
            r == self.legal_spec(x + 19 * y),
    {
        self.vertices[x + 19 * y] == 0
    }

    /// Puts a stone of `color` at `(x, y)`.
    pub fn place(&mut self, color: Color, x: usize, y: usize)
        requires
            old(self).wf(),
            x < 19,
            y < 19,
        ensures
            final(self).wf(),
            final(self).vertex(x + 19 * y) == color_code(color),
            forall|i: int| 0 <= i < 361 && i != x + 19 * y ==> final(self).vertex(i) == old(
                self,
            ).vertex(i),
    {
        let code: u8 = match color {
            Color::Black => 1,
            Color::White => 2,
        };
        self.vertices[x + 19 * y] = code;
    }

    /// The feature tensor handed to the evaluator from `color`'s point of
    /// view: one fixed-point entry per point, `SCALE` for an own stone,
    /// `-SCALE` for an opponent stone, `0` for an empty point.
    pub fn get_features(&self, color: Color) -> (r: Vec<i64>)
        requires
            self.wf(),
        ensures
            r@.len() == 361,
            forall|i: int| 0 <= i < 361 ==> r@[i] == feature_spec(*self, color, i),
    {
        let own: u8 = match color {
            Color::Black => 1,
            Color::White => 2,
        };
        let mut r: Vec<i64> = Vec::new();
        let mut i: usize = 0;
        while i < 361
            invariant
                self.wf(),
                i <= 361,
                r@.len() == i,
                own == color_code(color),
                forall|k: int| 0 <= k < i ==> r@[k] == feature_spec(*self, color, k),
            decreases 361 - i,
        {
            let v = self.vertices[i];
            if v == own {
                r.push(SCALE);
            } else if v == 0 {
                r.push(0);
            } else {
                r.push(-SCALE);
            }
            i += 1;
        }
        r
    }

    /// Whether the position is invariant under the symmetry transform `t`.
    pub fn is_symmetric(&self, t: Transform) -> (r: bool)
        requires
            self.wf(),
        ensures
            r == self.symmetric_spec(t),
    {
        let mut i: usize = 0;
        while i < 361
            invariant
                self.wf(),
                i <= 361,
                forall|k: int| 0 <= k < i ==> self.vertex(k) == self.vertex(apply_spec(t, k)),
            decreases 361 - i,
        {
            let j = t.apply(i);
            proof {
                crate::symmetry::lemma_apply_in_range(t, i as int);
            }
            if self.vertices[i] != self.vertices[j] {
                return false;
            }
            i += 1;
        }
        true
    }
}

impl Clone for Board {
    fn clone(&self) -> (r: Board)
        ensures
            r.wf() == self.wf(),
            forall|i: int| 0 <= i < 361 ==> r.vertex(i) == self.vertex(i),
    {
        let r = Board { vertices: self.vertices.clone() };
        proof {
            assert(r.vertices@ =~= self.vertices@);
        }
        r
    }
}

/// The cell value a stone of `color` leaves on the board.
pub open spec fn color_code(color: Color) -> u8 {
    match color {
        Color::Black => 1,
        Color::White => 2,
    }
}

/// The fixed-point feature value of one point seen from `color`.
pub open spec fn feature_spec(b: Board, color: Color, i: int) -> i64 {
    if b.vertex(i) == color_code(color) {
        SCALE
    } else if b.vertex(i) == 0 {
        0
    } else {
        (-SCALE) as i64
    }
}

} // verus!
