use vstd::prelude::*;

verus! {

/// Side length of the square canvas, in pixels; a pixel coordinate divided
/// by it is the normalised coordinate in [0, 1).
pub const CANVAS_SIZE: i32 = 1000;

/// Largest magnitude of a pointer coordinate that the tracker accepts.
/// It keeps the squared products of the direction tests inside `i128`.
pub const COORD_LIMIT: i32 = 268435456;

/// A pointer position, in pixels.
#[derive(Clone, Copy, Debug, PartialEq, Eq, Structural)]
pub struct Pixel {
    pub x: i32,
    pub y: i32,
}

/// A displacement between two pixels.
#[derive(Clone, Copy, Debug, PartialEq, Eq, Structural)]
pub struct Delta {
    pub dx: i64,
    pub dy: i64,
}

impl Pixel {
    pub open spec fn in_range(self) -> bool {
        -COORD_LIMIT <= self.x <= COORD_LIMIT && -COORD_LIMIT <= self.y <= COORD_LIMIT
    }
}

impl Delta {
    pub open spec fn view(self) -> (int, int) {
        (self.dx as int, self.dy as int)
    }

    /// Both components are at most twice the coordinate limit in magnitude,
    /// as for any displacement between two pixels in range.
    pub open spec fn bounded(self) -> bool {
        -2 * COORD_LIMIT <= self.dx <= 2 * COORD_LIMIT && -2 * COORD_LIMIT <= self.dy <= 2
            * COORD_LIMIT
    }

    pub fn zero() -> (r: Delta)
        ensures
            r@ == (0int, 0int),
            r.bounded(),
    {
        Delta { dx: 0, dy: 0 }
    }

    /// The displacement that leads from `from` to `to`.
    pub fn between(from: Pixel, to: Pixel) -> (r: Delta)
        requires
            from.in_range(),
            to.in_range(),
        ensures
            r@ == displacement(from, to),
            r.bounded(),
    {
        Delta { dx: to.x as i64 - from.x as i64, dy: to.y as i64 - from.y as i64 }
    }

    pub fn is_zero(self) -> (r: bool)
        ensures
            r == is_zero(self@),
    {
        self.dx == 0 && self.dy == 0
    }
}

pub open spec fn displacement(from: Pixel, to: Pixel) -> (int, int) {
    (to.x - from.x, to.y - from.y)
}

pub open spec fn is_zero(v: (int, int)) -> bool {
    v.0 == 0 && v.1 == 0
}

pub open spec fn dot(a: (int, int), b: (int, int)) -> int {
    a.0 * b.0 + a.1 * b.1
}

pub open spec fn norm2(a: (int, int)) -> int {
    dot(a, a)
}

/// The cosine of the angle between `a` and `b` is below `num / den`.
///
/// With `c = num / den >= 0`, `dot(a, b) / (|a| |b|) < c` holds exactly when
/// the dot product is negative, or when its square scaled by `den²` is below
/// `num² |a|² |b|²`. A zero vector has no direction: nothing is compared and
/// the test is false.
pub open spec fn cos_below(a: (int, int), b: (int, int), num: int, den: int) -> bool {
    !is_zero(a) && !is_zero(b) && (dot(a, b) < 0 || dot(a, b) * dot(a, b) * (den * den) < (num
        * num) * (norm2(a) * norm2(b)))
}

proof fn lemma_product_bound(a: int, b: int, bound: int)
    requires
        0 <= bound,
        -bound <= a <= bound,
        -bound <= b <= bound,
    ensures
        -(bound * bound) <= a * b <= bound * bound,
{
    assert(-(bound * bound) <= a * b <= bound * bound) by (nonlinear_arith)
        requires
            0 <= bound,
            -bound <= a <= bound,
            -bound <= b <= bound,
    ;
}

proof fn lemma_square_bound(a: int, bound: int)
    requires
        0 <= bound,
        -bound <= a <= bound,
    ensures
        0 <= a * a <= bound * bound,
{
    lemma_product_bound(a, a, bound);
    assert(0 <= a * a) by (nonlinear_arith);
}

/// Exact test of [`cos_below`] on two bounded displacements.
pub fn cos_below_exec(a: Delta, b: Delta, num: i128, den: i128) -> (r: bool)
    requires
        a.bounded(),
        b.bounded(),
        0 <= num <= den <= 8,
        0 < den,
    ensures
        r == cos_below(a@, b@, num as int, den as int),
{
    if a.is_zero() || b.is_zero() {
        return false;
    }
    let bd: i128 = 2 * COORD_LIMIT as i128;
    proof {
        let b2 = bd * bd;
        lemma_product_bound(a.dx as int, b.dx as int, bd as int);
        lemma_product_bound(a.dy as int, b.dy as int, bd as int);
        lemma_square_bound(a.dx as int, bd as int);
        lemma_square_bound(a.dy as int, bd as int);
        lemma_square_bound(b.dx as int, bd as int);
        lemma_square_bound(b.dy as int, bd as int);
    }
    let d: i128 = a.dx as i128 * b.dx as i128 + a.dy as i128 * b.dy as i128;
    if d < 0 {
        return true;
    }
    let na: i128 = a.dx as i128 * a.dx as i128 + a.dy as i128 * a.dy as i128;
    let nb: i128 = b.dx as i128 * b.dx as i128 + b.dy as i128 * b.dy as i128;
    proof {
        let lim = 2 * (bd * bd);
        assert(lim == 576460752303423488);
        assert(0 <= d <= lim);
        assert(0 <= na <= lim);
        assert(0 <= nb <= lim);
        lemma_product_bound(d as int, d as int, lim);
        lemma_product_bound(na as int, nb as int, lim);
        assert(0 <= na * nb) by (nonlinear_arith)
            requires
                0 <= na,
                0 <= nb,
        ;
        assert(0 <= den * den <= 64) by (nonlinear_arith)
            requires
                0 < den <= 8,
        ;
        assert(0 <= num * num <= 64) by (nonlinear_arith)
            requires
                0 <= num <= 8,
        ;
        assert(0 <= (d * d) * (den * den) <= (lim * lim) * 64) by (nonlinear_arith)
            requires
                0 <= d * d <= lim * lim,
                0 <= den * den <= 64,
        ;
        assert(0 <= (num * num) * (na * nb) <= 64 * (lim * lim)) by (nonlinear_arith)
            requires
                0 <= na * nb <= lim * lim,
                0 <= num * num <= 64,
        ;
    }
    d * d * (den * den) < (num * num) * (na * nb)
}

} // verus!
