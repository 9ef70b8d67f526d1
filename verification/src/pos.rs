//! Spatial primitives: integer 3D positions, axis-aligned face directions,
//! visibility classes, and iteration over rectangular integer volumes.

use crate::grid::{grid_encode, lemma_grid_decode, lemma_grid_encode_injective};
use vstd::arithmetic::div_mod::{
    lemma_div_denominator,
    lemma_div_pos_is_pos,
    lemma_fundamental_div_mod,
    lemma_mod_pos_bound,
};
use vstd::arithmetic::mul::{lemma_mul_inequality, lemma_mul_strictly_positive};
use vstd::prelude::*;

verus! {

/// A point of the integer voxel grid, copied by value everywhere.
#[derive(Debug, Clone, Copy, PartialEq, Eq, Hash, PartialOrd, Ord, Structural)]
pub struct Pos {
    pub x: i64,
    pub y: i64,
    pub z: i64,
}

/// One of the six axis-aligned unit directions; doubles as a displacement
/// operator on `Pos` and as the key of a visible-quad group.
#[derive(Debug, Clone, Copy, PartialEq, Eq, Hash, Structural)]
pub enum BlockFace {
    XP,
    XN,
    YP,
    YN,
    ZP,
    ZN,
}

/// Visibility class of a block type; only `Opaque` blocks emit geometry and
/// occlude their neighbours' faces.
#[derive(Debug, Clone, Copy, PartialEq, Eq, Hash, Structural)]
pub enum BlockVisibility {
    Empty,
    Transparent,
    Opaque,
    Special,
}

impl Default for Pos {
    fn default() -> (r: Self)
        ensures
            r == (Pos { x: 0, y: 0, z: 0 }),
    {
        Pos { x: 0, y: 0, z: 0 }
    }
}

impl Pos {
    /// Componentwise sum, over mathematical integers (the exec counterpart
    /// requires the result to fit in `i64`, so the cast is exact there).
    pub open spec fn spec_add(self, rhs: Pos) -> Pos {
        Pos {
            x: (self.x + rhs.x) as i64,
            y: (self.y + rhs.y) as i64,
            z: (self.z + rhs.z) as i64,
        }
    }

    /// Componentwise difference, over mathematical integers.
    pub open spec fn spec_sub(self, rhs: Pos) -> Pos {
        Pos {
            x: (self.x - rhs.x) as i64,
            y: (self.y - rhs.y) as i64,
            z: (self.z - rhs.z) as i64,
        }
    }

    /// Componentwise scaling, over mathematical integers.
    pub open spec fn spec_scale(self, k: i64) -> Pos {
        Pos {
            x: (self.x * k) as i64,
            y: (self.y * k) as i64,
            z: (self.z * k) as i64,
        }
    }

    /// The componentwise sum stays inside the `i64` range.
    pub open spec fn add_in_bounds(self, rhs: Pos) -> bool {
        &&& i64::MIN <= self.x + rhs.x <= i64::MAX
        &&& i64::MIN <= self.y + rhs.y <= i64::MAX
        &&& i64::MIN <= self.z + rhs.z <= i64::MAX
    }

    /// The componentwise difference stays inside the `i64` range.
    pub open spec fn sub_in_bounds(self, rhs: Pos) -> bool {
        &&& i64::MIN <= self.x - rhs.x <= i64::MAX
        &&& i64::MIN <= self.y - rhs.y <= i64::MAX
        &&& i64::MIN <= self.z - rhs.z <= i64::MAX
    }

    /// The componentwise scaling stays inside the `i64` range.
    pub open spec fn scale_in_bounds(self, k: i64) -> bool {
        &&& i64::MIN <= self.x * k <= i64::MAX
        &&& i64::MIN <= self.y * k <= i64::MAX
        &&& i64::MIN <= self.z * k <= i64::MAX
    }

    pub fn x(self) -> (r: i64)
        ensures
            r == self.x,
    {
        self.x
    }

    pub fn y(self) -> (r: i64)
        ensures
            r == self.y,
    {
        self.y
    }

    pub fn z(self) -> (r: i64)
        ensures
            r == self.z,
    {
        self.z
    }

    pub fn x_mut(&mut self) -> (r: &mut i64)
        ensures
            *r == old(self).x,
            *final(self) == (Pos { x: *final(r), ..*old(self) }),
    {
        &mut self.x
    }

    pub fn y_mut(&mut self) -> (r: &mut i64)
        ensures
            *r == old(self).y,
            *final(self) == (Pos { y: *final(r), ..*old(self) }),
    {
        &mut self.y
    }

    pub fn z_mut(&mut self) -> (r: &mut i64)
        ensures
            *r == old(self).z,
            *final(self) == (Pos { z: *final(r), ..*old(self) }),
    {
        &mut self.z
    }

    /// All three components lie in the half-open interval `range`.
    pub fn all_in_range(self, range: core::ops::Range<i64>) -> (r: bool)
        ensures
            r == (range.start <= self.x < range.end && range.start <= self.y < range.end
                && range.start <= self.z < range.end),
    {
        range.start <= self.x && self.x < range.end && range.start <= self.y && self.y < range.end
            && range.start <= self.z && self.z < range.end
    }

    /// Each component lies in its own half-open interval.
    pub fn in_range(
        self,
        x: core::ops::Range<i64>,
        y: core::ops::Range<i64>,
        z: core::ops::Range<i64>,
    ) -> (r: bool)
        ensures
            r == (x.start <= self.x < x.end && y.start <= self.y < y.end && z.start <= self.z
                < z.end),
    {
        x.start <= self.x && self.x < x.end && y.start <= self.y && self.y < y.end && z.start
            <= self.z && self.z < z.end
    }

    pub fn from_xyz(x: i64, y: i64, z: i64) -> (r: Pos)
        ensures
            r == (Pos { x, y, z }),
    {
        Pos { x, y, z }
    }

    /// Componentwise addition. Exact integer arithmetic: the caller must keep
    /// the result inside the `i64` range.
    pub fn plus(self, rhs: Pos) -> (r: Pos)
        requires
            self.add_in_bounds(rhs),
        ensures
            r == self.spec_add(rhs),
    {
        Pos { x: self.x + rhs.x, y: self.y + rhs.y, z: self.z + rhs.z }
    }

    /// Componentwise subtraction. Exact integer arithmetic: the caller must
    /// keep the result inside the `i64` range.
    pub fn minus(self, rhs: Pos) -> (r: Pos)
        requires
            self.sub_in_bounds(rhs),
        ensures
            r == self.spec_sub(rhs),
    {
        Pos { x: self.x - rhs.x, y: self.y - rhs.y, z: self.z - rhs.z }
    }

    /// Scalar multiplication. Exact integer arithmetic: the caller must keep
    /// the result inside the `i64` range.
    pub fn scale(self, k: i64) -> (r: Pos)
        requires
            self.scale_in_bounds(k),
        ensures
            r == self.spec_scale(k),
    {
        Pos { x: self.x * k, y: self.y * k, z: self.z * k }
    }

    /// Componentwise negation.
    pub fn negate(self) -> (r: Pos)
        requires
            self.x > i64::MIN,
            self.y > i64::MIN,
            self.z > i64::MIN,
        ensures
            r == (Pos { x: 0i64, y: 0i64, z: 0i64 }).spec_sub(self),
    {
        Pos { x: 0, y: 0, z: 0 }.minus(self)
    }

    /// The largest magnitude `i64` value whose absolute value still leaves
    /// room for the stepping arithmetic of `iter_cube`.
    pub open spec fn cube_delta_ok(d: i64) -> bool {
        -(i64::MAX - 1) <= d <= i64::MAX - 1
    }

    /// Enumerate the axis-aligned box from `self` to `self + (x, y, z)`
    /// inclusive, stepping by the sign of each delta, first axis fastest.
    pub fn iter_cube(self, x: i64, y: i64, z: i64) -> (it: PosIterator)
        requires
            Pos::cube_delta_ok(x),
            Pos::cube_delta_ok(y),
            Pos::cube_delta_ok(z),
            self.add_in_bounds(Pos { x, y, z }),
        ensures
            it == (PosIterator {
                base_pos: self,
                now_delta: Pos { x: 0i64, y: 0i64, z: 0i64 },
                v: (sign_of(x), sign_of(y), sign_of(z)),
                range: Pos {
                    x: magnitude_of(x) as i64,
                    y: magnitude_of(y) as i64,
                    z: magnitude_of(z) as i64,
                },
            }),
            it.wf(),
            it.cursor() == 0,
            it.total() == (magnitude_of(x) + 1) * (magnitude_of(y) + 1) * (magnitude_of(z) + 1),
    {
        let sx: i64 = if x > 0 {
            1
        } else if x < 0 {
            -1
        } else {
            0
        };
        let sy: i64 = if y > 0 {
            1
        } else if y < 0 {
            -1
        } else {
            0
        };
        let sz: i64 = if z > 0 {
            1
        } else if z < 0 {
            -1
        } else {
            0
        };
        let ax: i64 = if x < 0 {
            -x
        } else {
            x
        };
        let ay: i64 = if y < 0 {
            -y
        } else {
            y
        };
        let az: i64 = if z < 0 {
            -z
        } else {
            z
        };
        proof {
            assert(ax * sx == x) by (nonlinear_arith)
                requires
                    (x > 0 && ax == x && sx == 1) || (x < 0 && ax == -x && sx == -1) || (x == 0
                        && ax == 0 && sx == 0),
            ;
            assert(ay * sy == y) by (nonlinear_arith)
                requires
                    (y > 0 && ay == y && sy == 1) || (y < 0 && ay == -y && sy == -1) || (y == 0
                        && ay == 0 && sy == 0),
            ;
            assert(az * sz == z) by (nonlinear_arith)
                requires
                    (z > 0 && az == z && sz == 1) || (z < 0 && az == -z && sz == -1) || (z == 0
                        && az == 0 && sz == 0),
            ;
            let rxi = ax as int + 1;
            let ryi = ay as int + 1;
            assert(rxi * (0 + ryi * 0) == 0) by (nonlinear_arith);
            assert(grid_encode(0, 0, 0, rxi, ryi) == 0);
        }
        PosIterator {
            base_pos: self,
            now_delta: Pos { x: 0, y: 0, z: 0 },
            v: (sx, sy, sz),
            range: Pos { x: ax, y: ay, z: az },
        }
    }

    /// Enumerate the box spanned by the two corners `from` and `to`
    /// inclusive, as the cube iteration with the corner difference as deltas.
    pub fn iter_range(from: Pos, to: Pos) -> (it: PosIterator)
        requires
            to.sub_in_bounds(from),
            Pos::cube_delta_ok((to.x - from.x) as i64),
            Pos::cube_delta_ok((to.y - from.y) as i64),
            Pos::cube_delta_ok((to.z - from.z) as i64),
        ensures
            it == (PosIterator {
                base_pos: from,
                now_delta: Pos { x: 0i64, y: 0i64, z: 0i64 },
                v: (
                    sign_of((to.x - from.x) as i64),
                    sign_of((to.y - from.y) as i64),
                    sign_of((to.z - from.z) as i64),
                ),
                range: Pos {
                    x: magnitude_of((to.x - from.x) as i64) as i64,
                    y: magnitude_of((to.y - from.y) as i64) as i64,
                    z: magnitude_of((to.z - from.z) as i64) as i64,
                },
            }),
            it.wf(),
            it.cursor() == 0,
    {
        from.iter_cube(to.x - from.x, to.y - from.y, to.z - from.z)
    }

    /// Displacement by one step in the direction of `face`.
    pub fn offset(self, face: BlockFace) -> (r: Pos)
        requires
            self.add_in_bounds(face.delta()),
        ensures
            r == self.spec_add(face.delta()),
    {
        let d = face.to_delta();
        self.plus(d)
    }
}

impl BlockFace {
    /// The unit displacement this face stands for.
    pub open spec fn delta(self) -> Pos {
        match self {
            BlockFace::XP => Pos { x: 1i64, y: 0i64, z: 0i64 },
            BlockFace::XN => Pos { x: -1i64, y: 0i64, z: 0i64 },
            BlockFace::YP => Pos { x: 0i64, y: 1i64, z: 0i64 },
            BlockFace::YN => Pos { x: 0i64, y: -1i64, z: 0i64 },
            BlockFace::ZP => Pos { x: 0i64, y: 0i64, z: 1i64 },
            BlockFace::ZN => Pos { x: 0i64, y: 0i64, z: -1i64 },
        }
    }

    /// The unit displacement this face stands for, as a value.
    pub fn to_delta(self) -> (r: Pos)
        ensures
            r == self.delta(),
    {
        match self {
            BlockFace::XP => Pos { x: 1i64, y: 0i64, z: 0i64 },
            BlockFace::XN => Pos { x: -1i64, y: 0i64, z: 0i64 },
            BlockFace::YP => Pos { x: 0i64, y: 1i64, z: 0i64 },
            BlockFace::YN => Pos { x: 0i64, y: -1i64, z: 0i64 },
            BlockFace::ZP => Pos { x: 0i64, y: 0i64, z: 1i64 },
            BlockFace::ZN => Pos { x: 0i64, y: 0i64, z: -1i64 },
        }
    }

    /// The six faces in their fixed enumeration order.
    pub fn iter_all() -> (r: Vec<BlockFace>)
        ensures
            r@ == seq![
                BlockFace::XP,
                BlockFace::XN,
                BlockFace::YP,
                BlockFace::YN,
                BlockFace::ZP,
                BlockFace::ZN,
            ],
    {
        let mut v: Vec<BlockFace> = Vec::new();
        v.push(BlockFace::XP);
        v.push(BlockFace::XN);
        v.push(BlockFace::YP);
        v.push(BlockFace::YN);
        v.push(BlockFace::ZP);
        v.push(BlockFace::ZN);
        proof {
            assert(v@ =~= seq![
                BlockFace::XP,
                BlockFace::XN,
                BlockFace::YP,
                BlockFace::YN,
                BlockFace::ZP,
                BlockFace::ZN,
            ]);
        }
        v
    }
}

/// Index of a face in the fixed enumeration order of `BlockFace::iter_all`.
pub open spec fn face_index(f: BlockFace) -> int {
    match f {
        BlockFace::XP => 0,
        BlockFace::XN => 1,
        BlockFace::YP => 2,
        BlockFace::YN => 3,
        BlockFace::ZP => 4,
        BlockFace::ZN => 5,
    }
}

/// Displacement by a face is invertible: moving a position one step along a
/// face and then subtracting that face's displacement gives the position back.
pub proof fn lemma_offset_invertible(p: Pos, f: BlockFace)
    requires
        p.add_in_bounds(f.delta()),
    ensures
        p.spec_add(f.delta()).spec_sub(f.delta()) == p,
{
}

/// Sign of an integer: `1`, `-1` or `0`.
pub open spec fn sign_of(v: i64) -> i64 {
    if v > 0 {
        1i64
    } else if v < 0 {
        -1i64
    } else {
        0i64
    }
}

/// Magnitude of an integer, as a mathematical integer.
pub open spec fn magnitude_of(v: i64) -> int {
    if v < 0 {
        -(v as int)
    } else {
        v as int
    }
}

/// Finite enumeration of the axis-aligned box from a base point to
/// `base + (dx, dy, dz)` inclusive, stepping by the sign of each delta, with
/// the first axis varying fastest, then the second, then the third.
#[derive(Debug, Clone, Copy, PartialEq, Eq, Hash)]
pub struct PosIterator {
    pub base_pos: Pos,
    pub now_delta: Pos,
    pub v: (i64, i64, i64),
    pub range: Pos,
}

impl PosIterator {
    /// Extent of the enumeration on the first axis.
    pub open spec fn rx(self) -> int {
        self.range.x + 1
    }

    /// Extent of the enumeration on the second axis.
    pub open spec fn ry(self) -> int {
        self.range.y + 1
    }

    /// Extent of the enumeration on the third axis.
    pub open spec fn rz(self) -> int {
        self.range.z + 1
    }

    /// How many positions the whole enumeration yields.
    pub open spec fn total(self) -> int {
        self.rx() * self.ry() * self.rz()
    }

    /// The `k`-th position of the enumeration.
    pub open spec fn elem(self, k: int) -> Pos {
        Pos {
            x: (self.base_pos.x + (k % self.rx()) * self.v.0) as i64,
            y: (self.base_pos.y + ((k / self.rx()) % self.ry()) * self.v.1) as i64,
            z: (self.base_pos.z + (k / (self.rx() * self.ry())) * self.v.2) as i64,
        }
    }

    /// The whole enumeration as a sequence.
    pub open spec fn to_seq(self) -> Seq<Pos> {
        Seq::new(self.total() as nat, |k: int| self.elem(k))
    }

    /// How many positions have been yielded so far.
    pub open spec fn cursor(self) -> int {
        grid_encode(
            self.now_delta.x as int,
            self.now_delta.y as int,
            self.now_delta.z as int,
            self.rx(),
            self.ry(),
        )
    }

    /// Well-formedness: non-negative extents that leave room for the stepping
    /// arithmetic, unit (or zero) step directions, a cursor inside the grid,
    /// and a box whose far corner still fits in `i64`.
    pub open spec fn wf(self) -> bool {
        &&& 0 <= self.range.x <= i64::MAX - 1
        &&& 0 <= self.range.y <= i64::MAX - 1
        &&& 0 <= self.range.z <= i64::MAX - 1
        &&& (self.v.0 == 1 || self.v.0 == -1 || self.v.0 == 0)
        &&& (self.v.1 == 1 || self.v.1 == -1 || self.v.1 == 0)
        &&& (self.v.2 == 1 || self.v.2 == -1 || self.v.2 == 0)
        &&& (self.v.0 == 0 ==> self.range.x == 0)
        &&& (self.v.1 == 0 ==> self.range.y == 0)
        &&& (self.v.2 == 0 ==> self.range.z == 0)
        &&& 0 <= self.now_delta.x <= self.range.x
        &&& 0 <= self.now_delta.y <= self.range.y
        &&& 0 <= self.now_delta.z <= self.range.z + 1
        &&& (self.now_delta.z == self.range.z + 1 ==> self.now_delta.x == 0 && self.now_delta.y
            == 0)
        &&& i64::MIN <= self.base_pos.x + self.range.x * self.v.0 <= i64::MAX
        &&& i64::MIN <= self.base_pos.y + self.range.y * self.v.1 <= i64::MAX
        &&& i64::MIN <= self.base_pos.z + self.range.z * self.v.2 <= i64::MAX
    }

    /// A position lies in the box this iterator enumerates.
    pub open spec fn in_cube(self, p: Pos) -> bool {
        &&& if self.v.0 >= 0 {
            self.base_pos.x <= p.x <= self.base_pos.x + self.range.x * self.v.0
        } else {
            self.base_pos.x + self.range.x * self.v.0 <= p.x <= self.base_pos.x
        }
        &&& if self.v.1 >= 0 {
            self.base_pos.y <= p.y <= self.base_pos.y + self.range.y * self.v.1
        } else {
            self.base_pos.y + self.range.y * self.v.1 <= p.y <= self.base_pos.y
        }
        &&& if self.v.2 >= 0 {
            self.base_pos.z <= p.z <= self.base_pos.z + self.range.z * self.v.2
        } else {
            self.base_pos.z + self.range.z * self.v.2 <= p.z <= self.base_pos.z
        }
    }

    /// Yield the next position of the enumeration, or nothing once the box
    /// has been covered.
    pub fn next(&mut self) -> (r: Option<Pos>)
        requires
            old(self).wf(),
        ensures
            final(self).wf(),
            final(self).base_pos == old(self).base_pos,
            final(self).v == old(self).v,
            final(self).range == old(self).range,
            old(self).cursor() < old(self).total() ==> {
                &&& r == Some(old(self).elem(old(self).cursor()))
                &&& final(self).cursor() == old(self).cursor() + 1
            },
            old(self).cursor() >= old(self).total() ==> {
                &&& r == None::<Pos>
                &&& *final(self) == *old(self)
            },
    {
        proof {
            lemma_grid_decode(
                self.now_delta.x as int,
                self.now_delta.y as int,
                self.now_delta.z as int,
                self.rx(),
                self.ry(),
            );
        }
        if self.now_delta.z <= self.range.z {
            let ghost k = self.cursor();
            proof {
                assert(k < self.total()) by (nonlinear_arith)
                    requires
                        k < self.rx() * self.ry() * (self.now_delta.z + 1),
                        self.now_delta.z + 1 <= self.rz(),
                        self.total() == self.rx() * self.ry() * self.rz(),
                        self.rx() > 0,
                        self.ry() > 0,
                ;
                assert(i64::MIN <= self.base_pos.x + self.now_delta.x * self.v.0
                    <= i64::MAX) by (nonlinear_arith)
                    requires
                        0 <= self.now_delta.x <= self.range.x,
                        self.v.0 == 1 || self.v.0 == -1 || self.v.0 == 0,
                        i64::MIN <= self.base_pos.x + self.range.x * self.v.0 <= i64::MAX,
                        i64::MIN <= self.base_pos.x <= i64::MAX,
                ;
                assert(i64::MIN <= self.base_pos.y + self.now_delta.y * self.v.1
                    <= i64::MAX) by (nonlinear_arith)
                    requires
                        0 <= self.now_delta.y <= self.range.y,
                        self.v.1 == 1 || self.v.1 == -1 || self.v.1 == 0,
                        i64::MIN <= self.base_pos.y + self.range.y * self.v.1 <= i64::MAX,
                        i64::MIN <= self.base_pos.y <= i64::MAX,
                ;
                assert(i64::MIN <= self.base_pos.z + self.now_delta.z * self.v.2
                    <= i64::MAX) by (nonlinear_arith)
                    requires
                        0 <= self.now_delta.z <= self.range.z,
                        self.v.2 == 1 || self.v.2 == -1 || self.v.2 == 0,
                        i64::MIN <= self.base_pos.z + self.range.z * self.v.2 <= i64::MAX,
                        i64::MIN <= self.base_pos.z <= i64::MAX,
                ;
            }
            let out = Pos {
                x: self.base_pos.x + self.now_delta.x * self.v.0,
                y: self.base_pos.y + self.now_delta.y * self.v.1,
                z: self.base_pos.z + self.now_delta.z * self.v.2,
            };
            let ghost nd = self.now_delta;
            self.now_delta.x = self.now_delta.x + 1;
            if self.now_delta.x > self.range.x {
                self.now_delta.x = 0;
                self.now_delta.y = self.now_delta.y + 1;
            }
            if self.now_delta.y > self.range.y {
                self.now_delta.y = 0;
                self.now_delta.z = self.now_delta.z + 1;
            }
            proof {
                let rxi = old(self).rx();
                let ryi = old(self).ry();
                let c = self.now_delta;
                if nd.x < old(self).range.x {
                    assert(self.cursor() == k + 1);
                } else if nd.y < old(self).range.y {
                    assert(c.x + rxi * (c.y + ryi * c.z) == nd.x + rxi * (nd.y + ryi * nd.z)
                        + 1) by (nonlinear_arith)
                        requires
                            c.x == 0,
                            c.y == nd.y + 1,
                            c.z == nd.z,
                            nd.x == rxi - 1,
                    ;
                } else {
                    assert(c.x + rxi * (c.y + ryi * c.z) == nd.x + rxi * (nd.y + ryi * nd.z)
                        + 1) by (nonlinear_arith)
                        requires
                            c.x == 0,
                            c.y == 0,
                            c.z == nd.z + 1,
                            nd.x == rxi - 1,
                            nd.y == ryi - 1,
                    ;
                }
            }
            Some(out)
        } else {
            proof {
                let rxi = self.rx();
                let ryi = self.ry();
                let rzi = self.rz();
                assert(self.now_delta.z == self.range.z + 1);
                assert(rxi * (ryi * rzi) == rxi * ryi * rzi) by (nonlinear_arith);
            }
            None
        }
    }
}

/// The decomposition of a position index `k` into per-axis step counts: each
/// count lies inside the box's extents, the position at `k` is the base moved
/// by those counts along the step directions (with exact `i64` arithmetic),
/// and `k` can be rebuilt from the counts.
proof fn lemma_elem_decompose(it: PosIterator, k: int)
    requires
        it.wf(),
        0 <= k < it.total(),
    ensures
        0 <= k % it.rx() <= it.range.x,
        0 <= (k / it.rx()) % it.ry() <= it.range.y,
        0 <= k / (it.rx() * it.ry()) <= it.range.z,
        it.elem(k).x == it.base_pos.x + (k % it.rx()) * it.v.0,
        it.elem(k).y == it.base_pos.y + ((k / it.rx()) % it.ry()) * it.v.1,
        it.elem(k).z == it.base_pos.z + (k / (it.rx() * it.ry())) * it.v.2,
        k == grid_encode(
            k % it.rx(),
            (k / it.rx()) % it.ry(),
            k / (it.rx() * it.ry()),
            it.rx(),
            it.ry(),
        ),
{
    let rx = it.rx();
    let ry = it.ry();
    let rz = it.rz();
    let ix = k % rx;
    let iy = (k / rx) % ry;
    let iz = k / (rx * ry);
    lemma_mod_pos_bound(k, rx);
    lemma_div_pos_is_pos(k, rx);
    lemma_mod_pos_bound(k / rx, ry);
    lemma_mul_strictly_positive(rx, ry);
    lemma_div_pos_is_pos(k, rx * ry);
    assert(iz <= it.range.z) by {
        if iz >= rz {
            lemma_fundamental_div_mod(k, rx * ry);
            lemma_mod_pos_bound(k, rx * ry);
            lemma_mul_inequality(rz, iz, rx * ry);
            assert((rx * ry) * rz == rx * ry * rz) by (nonlinear_arith);
            assert((rx * ry) * iz >= (rx * ry) * rz) by (nonlinear_arith)
                requires
                    rz <= iz,
                    rx * ry > 0,
            ;
            assert(false);
        }
    }
    assert(k == grid_encode(ix, iy, iz, rx, ry)) by {
        lemma_fundamental_div_mod(k, rx);
        lemma_fundamental_div_mod(k / rx, ry);
        lemma_div_denominator(k, rx, ry);
        assert(k == rx * (ry * iz + iy) + ix);
        assert(rx * (ry * iz + iy) == rx * (iy + ry * iz)) by (nonlinear_arith);
    }
    assert(i64::MIN <= it.base_pos.x + ix * it.v.0 <= i64::MAX) by (nonlinear_arith)
        requires
            0 <= ix <= it.range.x,
            it.v.0 == 1 || it.v.0 == -1 || it.v.0 == 0,
            i64::MIN <= it.base_pos.x + it.range.x * it.v.0 <= i64::MAX,
            i64::MIN <= it.base_pos.x <= i64::MAX,
    ;
    assert(i64::MIN <= it.base_pos.y + iy * it.v.1 <= i64::MAX) by (nonlinear_arith)
        requires
            0 <= iy <= it.range.y,
            it.v.1 == 1 || it.v.1 == -1 || it.v.1 == 0,
            i64::MIN <= it.base_pos.y + it.range.y * it.v.1 <= i64::MAX,
            i64::MIN <= it.base_pos.y <= i64::MAX,
    ;
    assert(i64::MIN <= it.base_pos.z + iz * it.v.2 <= i64::MAX) by (nonlinear_arith)
        requires
            0 <= iz <= it.range.z,
            it.v.2 == 1 || it.v.2 == -1 || it.v.2 == 0,
            i64::MIN <= it.base_pos.z + it.range.z * it.v.2 <= i64::MAX,
            i64::MIN <= it.base_pos.z <= i64::MAX,
    ;
}

/// Cube iteration yields exactly `(|dx| + 1) * (|dy| + 1) * (|dz| + 1)`
/// positions, each inside the inclusive box, with no duplicates.
pub proof fn lemma_cube_iteration(it: PosIterator)
    requires
        it.wf(),
    ensures
        it.to_seq().len() == (it.range.x + 1) * (it.range.y + 1) * (it.range.z + 1),
        forall|k: int| 0 <= k < it.to_seq().len() ==> it.in_cube(#[trigger] it.to_seq()[k]),
        forall|k1: int, k2: int|
            0 <= k1 < it.to_seq().len() && 0 <= k2 < it.to_seq().len() && k1 != k2
                ==> it.to_seq()[k1] != it.to_seq()[k2],
{
    let rx = it.rx();
    let ry = it.ry();
    let rz = it.rz();
    lemma_mul_strictly_positive(rx, ry);
    lemma_mul_strictly_positive(rx * ry, rz);
    assert((rx * ry) * rz == rx * ry * rz) by (nonlinear_arith);
    assert forall|k: int| 0 <= k < it.to_seq().len() implies it.in_cube(
        #[trigger] it.to_seq()[k],
    ) by {
        lemma_elem_decompose(it, k);
        let p = it.elem(k);
        assert(if it.v.0 >= 0 {
            it.base_pos.x <= p.x <= it.base_pos.x + it.range.x * it.v.0
        } else {
            it.base_pos.x + it.range.x * it.v.0 <= p.x <= it.base_pos.x
        }) by (nonlinear_arith)
            requires
                p.x == it.base_pos.x + (k % it.rx()) * it.v.0,
                0 <= k % it.rx() <= it.range.x,
                it.v.0 == 1 || it.v.0 == -1 || it.v.0 == 0,
        ;
        assert(if it.v.1 >= 0 {
            it.base_pos.y <= p.y <= it.base_pos.y + it.range.y * it.v.1
        } else {
            it.base_pos.y + it.range.y * it.v.1 <= p.y <= it.base_pos.y
        }) by (nonlinear_arith)
            requires
                p.y == it.base_pos.y + ((k / it.rx()) % it.ry()) * it.v.1,
                0 <= (k / it.rx()) % it.ry() <= it.range.y,
                it.v.1 == 1 || it.v.1 == -1 || it.v.1 == 0,
        ;
        assert(if it.v.2 >= 0 {
            it.base_pos.z <= p.z <= it.base_pos.z + it.range.z * it.v.2
        } else {
            it.base_pos.z + it.range.z * it.v.2 <= p.z <= it.base_pos.z
        }) by (nonlinear_arith)
            requires
                p.z == it.base_pos.z + (k / (it.rx() * it.ry())) * it.v.2,
                0 <= k / (it.rx() * it.ry()) <= it.range.z,
                it.v.2 == 1 || it.v.2 == -1 || it.v.2 == 0,
        ;
    }
    assert forall|k1: int, k2: int|
        0 <= k1 < it.to_seq().len() && 0 <= k2 < it.to_seq().len() && k1 != k2 implies it.to_seq()[k1]
        != it.to_seq()[k2] by {
        lemma_elem_decompose(it, k1);
        lemma_elem_decompose(it, k2);
        if it.to_seq()[k1] == it.to_seq()[k2] {
            let ix1 = k1 % rx;
            let iy1 = (k1 / rx) % ry;
            let iz1 = k1 / (rx * ry);
            let ix2 = k2 % rx;
            let iy2 = (k2 / rx) % ry;
            let iz2 = k2 / (rx * ry);
            assert(ix1 == ix2) by (nonlinear_arith)
                requires
                    ix1 * it.v.0 == ix2 * it.v.0,
                    it.v.0 == 1 || it.v.0 == -1 || (it.v.0 == 0 && 0 <= ix1 <= 0 && 0 <= ix2
                        <= 0),
            ;
            assert(iy1 == iy2) by (nonlinear_arith)
                requires
                    iy1 * it.v.1 == iy2 * it.v.1,
                    it.v.1 == 1 || it.v.1 == -1 || (it.v.1 == 0 && 0 <= iy1 <= 0 && 0 <= iy2
                        <= 0),
            ;
            assert(iz1 == iz2) by (nonlinear_arith)
                requires
                    iz1 * it.v.2 == iz2 * it.v.2,
                    it.v.2 == 1 || it.v.2 == -1 || (it.v.2 == 0 && 0 <= iz1 <= 0 && 0 <= iz2
                        <= 0),
            ;
            assert(false);
        }
    }
}

/// Every position of the box is reached by the enumeration: cube iteration
/// misses nothing.
pub proof fn lemma_cube_covers(it: PosIterator, p: Pos)
    requires
        it.wf(),
        it.in_cube(p),
    ensures
        exists|k: int| 0 <= k < it.total() && it.elem(k) == p,
{
    let ix: int = if it.v.0 == 1 {
        p.x - it.base_pos.x
    } else if it.v.0 == -1 {
        it.base_pos.x - p.x
    } else {
        0
    };
    let iy: int = if it.v.1 == 1 {
        p.y - it.base_pos.y
    } else if it.v.1 == -1 {
        it.base_pos.y - p.y
    } else {
        0
    };
    let iz: int = if it.v.2 == 1 {
        p.z - it.base_pos.z
    } else if it.v.2 == -1 {
        it.base_pos.z - p.z
    } else {
        0
    };
    assert(0 <= ix <= it.range.x && it.base_pos.x + ix * it.v.0 == p.x) by (nonlinear_arith)
        requires
            it.v.0 == 1 || it.v.0 == -1 || (it.v.0 == 0 && it.range.x == 0),
            ix == (if it.v.0 == 1 {
                p.x - it.base_pos.x
            } else if it.v.0 == -1 {
                it.base_pos.x - p.x
            } else {
                0
            }),
            (if it.v.0 >= 0 {
                it.base_pos.x <= p.x <= it.base_pos.x + it.range.x * it.v.0
            } else {
                it.base_pos.x + it.range.x * it.v.0 <= p.x <= it.base_pos.x
            }),
            0 <= it.range.x,
    ;
    assert(0 <= iy <= it.range.y && it.base_pos.y + iy * it.v.1 == p.y) by (nonlinear_arith)
        requires
            it.v.1 == 1 || it.v.1 == -1 || (it.v.1 == 0 && it.range.y == 0),
            iy == (if it.v.1 == 1 {
                p.y - it.base_pos.y
            } else if it.v.1 == -1 {
                it.base_pos.y - p.y
            } else {
                0
            }),
            (if it.v.1 >= 0 {
                it.base_pos.y <= p.y <= it.base_pos.y + it.range.y * it.v.1
            } else {
                it.base_pos.y + it.range.y * it.v.1 <= p.y <= it.base_pos.y
            }),
            0 <= it.range.y,
    ;
    assert(0 <= iz <= it.range.z && it.base_pos.z + iz * it.v.2 == p.z) by (nonlinear_arith)
        requires
            it.v.2 == 1 || it.v.2 == -1 || (it.v.2 == 0 && it.range.z == 0),
            iz == (if it.v.2 == 1 {
                p.z - it.base_pos.z
            } else if it.v.2 == -1 {
                it.base_pos.z - p.z
            } else {
                0
            }),
            (if it.v.2 >= 0 {
                it.base_pos.z <= p.z <= it.base_pos.z + it.range.z * it.v.2
            } else {
                it.base_pos.z + it.range.z * it.v.2 <= p.z <= it.base_pos.z
            }),
            0 <= it.range.z,
    ;
    let k = grid_encode(ix, iy, iz, it.rx(), it.ry());
    lemma_grid_decode(ix, iy, iz, it.rx(), it.ry());
    assert(k < it.total()) by (nonlinear_arith)
        requires
            k < it.rx() * it.ry() * (iz + 1),
            iz + 1 <= it.rz(),
            it.total() == it.rx() * it.ry() * it.rz(),
            it.rx() > 0,
            it.ry() > 0,
    ;
    assert(it.elem(k) == p);
    assert(0 <= k < it.total() && it.elem(k) == p);
}

/// The axis-aligned box of positions with `base` as minimum corner and
/// extents `ex`, `ey`, `ez`.
pub open spec fn box_set(base: Pos, ex: int, ey: int, ez: int) -> Set<Pos> {
    Set::new(
        |p: Pos|
            base.x <= p.x < base.x + ex && base.y <= p.y < base.y + ey && base.z <= p.z < base.z
                + ez,
    )
}

/// An axis-aligned box of positions is finite and holds exactly
/// `ex * ey * ez` positions.
pub proof fn lemma_box_set_len(base: Pos, ex: int, ey: int, ez: int)
    requires
        1 <= ex <= i64::MAX,
        1 <= ey <= i64::MAX,
        1 <= ez <= i64::MAX,
        base.x + ex - 1 <= i64::MAX,
        base.y + ey - 1 <= i64::MAX,
        base.z + ez - 1 <= i64::MAX,
    ensures
        box_set(base, ex, ey, ez).finite(),
        box_set(base, ex, ey, ez).len() == ex * ey * ez,
{
    let it = PosIterator {
        base_pos: base,
        now_delta: Pos { x: 0i64, y: 0i64, z: 0i64 },
        v: (1i64, 1i64, 1i64),
        range: Pos { x: (ex - 1) as i64, y: (ey - 1) as i64, z: (ez - 1) as i64 },
    };
    assert(it.wf());
    lemma_cube_iteration(it);
    let s = it.to_seq();
    assert(s.no_duplicates());
    assert(s.to_set() =~= box_set(base, ex, ey, ez)) by {
        assert forall|p: Pos| box_set(base, ex, ey, ez).contains(p) implies s.to_set().contains(
            p,
        ) by {
            let ix = p.x - base.x;
            let iy = p.y - base.y;
            let iz = p.z - base.z;
            let k = grid_encode(ix, iy, iz, ex, ey);
            lemma_grid_decode(ix, iy, iz, ex, ey);
            assert(k < ex * ey * ez) by (nonlinear_arith)
                requires
                    k < ex * ey * (iz + 1),
                    iz + 1 <= ez,
                    ex * ey > 0,
            ;
            assert((k % ex) * 1 == ix && ((k / ex) % ey) * 1 == iy && (k / (ex * ey)) * 1
                == iz) by (nonlinear_arith)
                requires
                    k % ex == ix,
                    (k / ex) % ey == iy,
                    k / (ex * ey) == iz,
            ;
            assert(it.elem(k) == p);
            assert(s[k] == p);
            assert(s.to_set().contains(s[k]));
        }
        assert forall|p: Pos| s.to_set().contains(p) implies box_set(base, ex, ey, ez).contains(
            p,
        ) by {
            let k = choose|k: int| 0 <= k < s.len() && s[k] == p;
            assert(it.in_cube(p));
            assert(it.range.x * 1 == it.range.x && it.range.y * 1 == it.range.y && it.range.z * 1
                == it.range.z) by (nonlinear_arith);
        }
    }
    assert(ex * ey > 0) by (nonlinear_arith)
        requires
            ex > 0,
            ey > 0,
    ;
    assert(ex * ey * ez > 0) by (nonlinear_arith)
        requires
            ex * ey > 0,
            ez > 0,
    ;
    s.unique_seq_to_set();
}

} // verus!
