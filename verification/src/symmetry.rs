//! The eight symmetries of the square board, acting on linear point indices.
//!
//! A point index `i < 361` stands for the coordinate `(i % 19, i / 19)`; the
//! pass index `361` is fixed by every transform.

use vstd::prelude::*;
use vstd::arithmetic::div_mod::lemma_fundamental_div_mod;
use vstd::arithmetic::div_mod::lemma_fundamental_div_mod_converse_div;
use vstd::arithmetic::div_mod::lemma_fundamental_div_mod_converse_mod;

verus! {

/// A board-preserving geometric mapping. `FlipLR` and `FlipUD` mirror along
/// the vertical and horizontal axis, `Transpose` and `TransposeAnti` mirror
/// along the two diagonals, and the rotations turn counter-clockwise.
#[derive(Clone, Copy, PartialEq, Eq, Structural, Debug)]
pub enum Transform {
    Identity,
    FlipLR,
    FlipUD,
    Transpose,
    TransposeAnti,
    Rot90,
    Rot180,
    Rot270,
}

/// The transform at position `k` of the fixed enumeration, identity first.
pub open spec fn transform_at(k: int) -> Transform {
    if k == 0 {
        Transform::Identity
    } else if k == 1 {
        Transform::FlipLR
    } else if k == 2 {
        Transform::FlipUD
    } else if k == 3 {
        Transform::Transpose
    } else if k == 4 {
        Transform::TransposeAnti
    } else if k == 5 {
        Transform::Rot90
    } else if k == 6 {
        Transform::Rot180
    } else {
        Transform::Rot270
    }
}

/// Where `t` sends the coordinate `(x, y)`.
pub open spec fn apply_xy(t: Transform, x: int, y: int) -> (int, int) {
    match t {
        Transform::Identity => (x, y),
        Transform::FlipLR => (18 - x, y),
        Transform::FlipUD => (x, 18 - y),
        Transform::Transpose => (y, x),
        Transform::TransposeAnti => (18 - y, 18 - x),
        Transform::Rot90 => (y, 18 - x),
        Transform::Rot180 => (18 - x, 18 - y),
        Transform::Rot270 => (18 - y, x),
    }
}

/// Where `t` sends the linear index `i`; the pass index is fixed.
pub open spec fn apply_spec(t: Transform, i: int) -> int {
    if 0 <= i < 361 {
        let xy = apply_xy(t, i % 19, i / 19);
        xy.0 + 19 * xy.1
    } else {
        i
    }
}

impl Transform {
    /// The transform that undoes this one.
    pub open spec fn inverse_spec(self) -> Transform {
        match self {
            Transform::Rot90 => Transform::Rot270,
            Transform::Rot270 => Transform::Rot90,
            t => t,
        }
    }

    /// A transform that is its own inverse (everything but the quarter
    /// rotations); only for these does the symmetry pair points up.
    pub open spec fn is_involution(self) -> bool {
        self != Transform::Rot90 && self != Transform::Rot270
    }

    pub fn inverse(self) -> (r: Transform)
        ensures
            r == self.inverse_spec(),
    {
        match self {
            Transform::Rot90 => Transform::Rot270,
            Transform::Rot270 => Transform::Rot90,
            t => t,
        }
    }

    /// The eight transforms, indexed; used to draw one uniformly and to
    /// walk them all.
    pub fn from_index(k: usize) -> (r: Transform)
        requires
            k < 8,
        ensures
            r == transform_at(k as int),
            (k == 0 <==> r == Transform::Identity),
    {
        match k {
            0 => Transform::Identity,
            1 => Transform::FlipLR,
            2 => Transform::FlipUD,
            3 => Transform::Transpose,
            4 => Transform::TransposeAnti,
            5 => Transform::Rot90,
            6 => Transform::Rot180,
            _ => Transform::Rot270,
        }
    }

    /// Applies the transform to a point or pass index.
    pub fn apply(self, i: usize) -> (r: usize)
        requires
            i <= 361,
        ensures
            r == apply_spec(self, i as int),
            r <= 361,
            i < 361 ==> r < 361,
    {
        if i >= 361 {
            361
        } else {
            let x = i % 19;
            let y = i / 19;
            let (nx, ny): (usize, usize) = match self {
                Transform::Identity => (x, y),
                Transform::FlipLR => (18 - x, y),
                Transform::FlipUD => (x, 18 - y),
                Transform::Transpose => (y, x),
                Transform::TransposeAnti => (18 - y, 18 - x),
                Transform::Rot90 => (y, 18 - x),
                Transform::Rot180 => (18 - x, 18 - y),
                Transform::Rot270 => (18 - y, x),
            };
            nx + 19 * ny
        }
    }
}

/// A coordinate pair below 19 maps to a linear index below 361 and back.
proof fn lemma_index_decomp(a: int, b: int)
    requires
        0 <= a < 19,
        0 <= b < 19,
    ensures
        (a + 19 * b) % 19 == a,
        (a + 19 * b) / 19 == b,
        0 <= a + 19 * b < 361,
{
    lemma_fundamental_div_mod_converse_div(a + 19 * b, 19, b, a);
    lemma_fundamental_div_mod_converse_mod(a + 19 * b, 19, b, a);
}

/// Law: applying a transform and then its inverse gives every index back.
pub proof fn lemma_apply_inverse(t: Transform, i: int)
    requires
        0 <= i <= 361,
    ensures
        apply_spec(t.inverse_spec(), apply_spec(t, i)) == i,
{
    if i < 361 {
        let x = i % 19;
        let y = i / 19;
        lemma_fundamental_div_mod(i, 19);
        assert(0 <= x < 19 && 0 <= y < 19);
        let xy1 = apply_xy(t, x, y);
        assert(0 <= xy1.0 < 19 && 0 <= xy1.1 < 19);
        lemma_index_decomp(xy1.0, xy1.1);
        let j = xy1.0 + 19 * xy1.1;
        let xy2 = apply_xy(t.inverse_spec(), j % 19, j / 19);
        assert(xy2.0 == x && xy2.1 == y);
        assert(apply_spec(t.inverse_spec(), j) == xy2.0 + 19 * xy2.1);
        assert(xy2.0 + 19 * xy2.1 == i);
    }
}

/// Law: an involutive transform applied twice gives every index back.
pub proof fn lemma_apply_involution(t: Transform, i: int)
    requires
        0 <= i <= 361,
        t.is_involution(),
    ensures
        apply_spec(t, apply_spec(t, i)) == i,
{
    lemma_apply_inverse(t, i);
}

/// A transform keeps point indices on the board.
pub proof fn lemma_apply_in_range(t: Transform, i: int)
    requires
        0 <= i < 361,
    ensures
        0 <= apply_spec(t, i) < 361,
{
    lemma_fundamental_div_mod(i, 19);
    let xy = apply_xy(t, i % 19, i / 19);
    lemma_index_decomp(xy.0, xy.1);
}

/// Reorients a feature or policy buffer: entry `i` of the result is the
/// entry of `p` at the point that `t` sends to `i`, so the result holds in
/// transformed coordinates what `p` held in original coordinates. A final
/// pass entry, if present, stays in place.
pub fn transform_buffer(p: &Vec<i64>, t: Transform) -> (r: Vec<i64>)
    requires
        p@.len() == 361 || p@.len() == 362,
    ensures
        r@.len() == p@.len(),
        forall|i: int| 0 <= i < p@.len() ==> r@[i] == p@[apply_spec(t.inverse_spec(), i)],
        forall|i: int|
            0 <= i < p@.len() ==> #[trigger] r@[apply_spec(t, i)] == p@[i],
{
    let inv = t.inverse();
    let mut r: Vec<i64> = Vec::new();
    let mut i: usize = 0;
    let n = p.len();
    while i < n
        invariant
            p@.len() == n,
            n == 361 || n == 362,
            inv == t.inverse_spec(),
            i <= n,
            r@.len() == i,
            forall|k: int| 0 <= k < i ==> r@[k] == p@[apply_spec(inv, k)],
        decreases n - i,
    {
        let src = inv.apply(i);
        proof {
            if i < 361 {
                lemma_apply_in_range(inv, i as int);
            }
        }
        r.push(p[src]);
        i += 1;
    }
    proof {
        assert forall|i: int| 0 <= i < p@.len() implies #[trigger] r@[apply_spec(t, i)] == p@[i] by {
            lemma_apply_inverse(t, i);
            if i < 361 {
                lemma_apply_in_range(t, i);
            }
        }
    }
    r
}

} // verus!
