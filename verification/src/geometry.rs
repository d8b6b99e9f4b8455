//! 2-D vectors, rectangles, point sets, and the layout-space to
//! display-space transform.

use vstd::prelude::*;

use crate::ratio::{
    checked_add, checked_div, checked_mul, checked_sub, diff_n, frac_lt, isqrt_u128,
    lemma_sqrt_floor_unique, lt, spec_add, spec_div, spec_mul, spec_sub, sqrt_floor, sum_d, Ratio,
};

verus! {

/// A 2-D vector with exact rational components.
#[derive(Clone, Copy, PartialEq, Eq, Structural, Debug)]
pub struct Vector2 {
    pub x: Ratio,
    pub y: Ratio,
}

impl Vector2 {
    pub open spec fn wf(self) -> bool {
        self.x.wf() && self.y.wf()
    }

    pub fn new(x: Ratio, y: Ratio) -> (r: Vector2)
        ensures
            r == (Vector2 { x, y }),
    {
        Vector2 { x, y }
    }

    /// The vector with the sign of the vertical component flipped
    /// (screen-space to layout-space orientation).
    pub fn flip_y(self) -> (r: Vector2)
        requires
            self.wf(),
        ensures
            r.x == self.x,
            r.y.num == -self.y.num,
            r.y.den == self.y.den,
            r.wf(),
    {
        Vector2 { x: self.x, y: self.y.neg() }
    }

    /// Exact squared magnitude, as a single fraction over the common
    /// denominator `(x.den * y.den)^2`: its numerator.
    pub open spec fn mag_sq_n(self) -> int {
        self.x.num * self.x.num * (self.y.den * self.y.den)
            + self.y.num * self.y.num * (self.x.den * self.x.den)
    }

    /// Components small enough for the magnitude computation.
    pub open spec fn small(self) -> bool {
        &&& -0x7fff_ffff <= self.x.num <= 0x7fff_ffff
        &&& self.x.den <= 0x7fff_ffff
        &&& -0x7fff_ffff <= self.y.num <= 0x7fff_ffff
        &&& self.y.den <= 0x7fff_ffff
    }

    /// The magnitude that this library computes: the floor of the true
    /// Euclidean magnitude on the grid of `1 / (x.den * y.den)`.
    pub open spec fn spec_magnitude(self) -> Option<Ratio> {
        if self.small() {
            Some(Ratio {
                num: sqrt_floor(self.mag_sq_n() as nat) as i64,
                den: (self.x.den * self.y.den) as i64,
            })
        } else {
            None
        }
    }

    /// Magnitude of the vector; `None` when a component is too large.
    pub fn magnitude(self) -> (r: Option<Ratio>)
        requires
            self.wf(),
        ensures
            r == self.spec_magnitude(),
            r matches Some(m) ==> m.wf() && m.num >= 0,
    {
        let b: i64 = 0x7fff_ffff;
        if !(-b <= self.x.num && self.x.num <= b && self.x.den <= b && -b <= self.y.num
            && self.y.num <= b && self.y.den <= b) {
            return None;
        }
        let xn = self.x.num as i128;
        let xd = self.x.den as i128;
        let yn = self.y.num as i128;
        let yd = self.y.den as i128;
        proof {
            lemma_small_products(self);
        }
        let p: i128 = xn * xn * (yd * yd) + yn * yn * (xd * xd);
        let root: u128 = isqrt_u128(p as u128);
        proof {
            assert(root < 0x8000_0000_0000_0000u128) by (nonlinear_arith)
                requires
                    root * root <= p as u128,
                    (p as u128) < 0x4000_0000_0000_0000_0000_0000_0000_0000u128,
            ;
        }
        Some(Ratio { num: root as i64, den: (self.x.den * self.y.den) as i64 })
    }

    /// The unit vector in this vector's direction, computed against the
    /// grid magnitude; `None` for the zero vector (degenerate geometry) or
    /// when a component is too large.
    pub open spec fn spec_unit(self) -> Option<Vector2> {
        match self.spec_magnitude() {
            Some(m) => if m.num == 0 {
                None
            } else {
                match (spec_div(self.x, m), spec_div(self.y, m)) {
                    (Some(ux), Some(uy)) => Some(Vector2 { x: ux, y: uy }),
                    _ => None,
                }
            },
            None => None,
        }
    }

    pub fn unit(self) -> (r: Option<Vector2>)
        requires
            self.wf(),
        ensures
            r == self.spec_unit(),
            r matches Some(u) ==> u.wf(),
    {
        match self.magnitude() {
            None => None,
            Some(m) => {
                if m.num == 0 {
                    return None;
                }
                match (checked_div(self.x, m), checked_div(self.y, m)) {
                    (Some(ux), Some(uy)) => Some(Vector2 { x: ux, y: uy }),
                    _ => None,
                }
            },
        }
    }
}

/// Bounds on the squared-magnitude intermediates of a small vector.
proof fn lemma_small_products(v: Vector2)
    requires
        v.wf(),
        v.small(),
    ensures
        0 <= v.x.num * v.x.num * (v.y.den * v.y.den)
            < 0x2000_0000_0000_0000_0000_0000_0000_0000int,
        0 <= v.y.num * v.y.num * (v.x.den * v.x.den)
            < 0x2000_0000_0000_0000_0000_0000_0000_0000int,
        1 <= v.x.den * v.y.den <= 0x3fff_ffff_0000_0001int,
        0 <= v.x.num * v.x.num <= 0x3fff_ffff_0000_0001int,
        0 <= v.y.num * v.y.num <= 0x3fff_ffff_0000_0001int,
        1 <= v.x.den * v.x.den <= 0x3fff_ffff_0000_0001int,
        1 <= v.y.den * v.y.den <= 0x3fff_ffff_0000_0001int,
{
    assert(0 <= v.x.num * v.x.num <= 0x3fff_ffff_0000_0001int && 0 <= v.y.num * v.y.num
        <= 0x3fff_ffff_0000_0001int && 1 <= v.x.den * v.x.den <= 0x3fff_ffff_0000_0001int && 1
        <= v.y.den * v.y.den <= 0x3fff_ffff_0000_0001int) by (nonlinear_arith)
        requires
            -0x7fff_ffff <= v.x.num <= 0x7fff_ffff,
            -0x7fff_ffff <= v.y.num <= 0x7fff_ffff,
            1 <= v.x.den <= 0x7fff_ffff,
            1 <= v.y.den <= 0x7fff_ffff,
    ;
    assert(0 <= v.x.num * v.x.num * (v.y.den * v.y.den)
        < 0x2000_0000_0000_0000_0000_0000_0000_0000int) by (nonlinear_arith)
        requires
            -0x7fff_ffff <= v.x.num <= 0x7fff_ffff,
            1 <= v.y.den <= 0x7fff_ffff,
    ;
    assert(0 <= v.y.num * v.y.num * (v.x.den * v.x.den)
        < 0x2000_0000_0000_0000_0000_0000_0000_0000int) by (nonlinear_arith)
        requires
            -0x7fff_ffff <= v.y.num <= 0x7fff_ffff,
            1 <= v.x.den <= 0x7fff_ffff,
    ;
    assert(1 <= v.x.den * v.y.den <= 0x3fff_ffff_0000_0001int) by (nonlinear_arith)
        requires
            1 <= v.x.den <= 0x7fff_ffff,
            1 <= v.y.den <= 0x7fff_ffff,
    ;
}

/// Checked component-wise vector addition at the specification level.
pub open spec fn spec_v_add(a: Vector2, b: Vector2) -> Option<Vector2> {
    match (spec_add(a.x, b.x), spec_add(a.y, b.y)) {
        (Some(x), Some(y)) => Some(Vector2 { x, y }),
        _ => None,
    }
}

/// Checked component-wise vector subtraction at the specification level.
pub open spec fn spec_v_sub(a: Vector2, b: Vector2) -> Option<Vector2> {
    match (spec_sub(a.x, b.x), spec_sub(a.y, b.y)) {
        (Some(x), Some(y)) => Some(Vector2 { x, y }),
        _ => None,
    }
}

/// Checked scaling of a vector by a scalar at the specification level.
pub open spec fn spec_v_scale(a: Vector2, s: Ratio) -> Option<Vector2> {
    match (spec_mul(a.x, s), spec_mul(a.y, s)) {
        (Some(x), Some(y)) => Some(Vector2 { x, y }),
        _ => None,
    }
}

pub fn v_add(a: Vector2, b: Vector2) -> (r: Option<Vector2>)
    requires
        a.wf(),
        b.wf(),
    ensures
        r == spec_v_add(a, b),
        r matches Some(v) ==> v.wf(),
{
    match (checked_add(a.x, b.x), checked_add(a.y, b.y)) {
        (Some(x), Some(y)) => Some(Vector2 { x, y }),
        _ => None,
    }
}

pub fn v_sub(a: Vector2, b: Vector2) -> (r: Option<Vector2>)
    requires
        a.wf(),
        b.wf(),
    ensures
        r == spec_v_sub(a, b),
        r matches Some(v) ==> v.wf(),
{
    match (checked_sub(a.x, b.x), checked_sub(a.y, b.y)) {
        (Some(x), Some(y)) => Some(Vector2 { x, y }),
        _ => None,
    }
}

pub fn v_scale(a: Vector2, s: Ratio) -> (r: Option<Vector2>)
    requires
        a.wf(),
        s.wf(),
    ensures
        r == spec_v_scale(a, s),
        r matches Some(v) ==> v.wf(),
{
    match (checked_mul(a.x, s), checked_mul(a.y, s)) {
        (Some(x), Some(y)) => Some(Vector2 { x, y }),
        _ => None,
    }
}

/// The layout-space to display-space transform of one coordinate pair:
/// `x = ((p.x - o.x) * s) / ar`, `y = (p.y - o.y) * s`.
pub open spec fn spec_transform(p: Vector2, o: Vector2, s: Ratio, ar: Ratio) -> Option<Vector2> {
    match (spec_sub(p.x, o.x), spec_sub(p.y, o.y)) {
        (Some(dx), Some(dy)) => match (spec_mul(dx, s), spec_mul(dy, s)) {
            (Some(sx), Some(sy)) => match spec_div(sx, ar) {
                Some(fx) => Some(Vector2 { x: fx, y: sy }),
                None => None,
            },
            _ => None,
        },
        _ => None,
    }
}

/// Translates a point in graph layout space to display space.
///
/// (Display space is clip space in terms of the graphics library.)
pub fn layout_to_clipspace(
    layout_location: Vector2,
    display_offset: Vector2,
    display_scale: Ratio,
    aspect_ratio: Ratio,
) -> (r: Option<Vector2>)
    requires
        layout_location.wf(),
        display_offset.wf(),
        display_scale.wf(),
        aspect_ratio.wf(),
    ensures
        r == spec_transform(layout_location, display_offset, display_scale, aspect_ratio),
        r matches Some(v) ==> v.wf(),
{
    match (
        checked_sub(layout_location.x, display_offset.x),
        checked_sub(layout_location.y, display_offset.y),
    ) {
        (Some(dx), Some(dy)) => match (checked_mul(dx, display_scale), checked_mul(
            dy,
            display_scale,
        )) {
            (Some(sx), Some(sy)) => match checked_div(sx, aspect_ratio) {
                Some(fx) => Some(Vector2 { x: fx, y: sy }),
                None => None,
            },
            _ => None,
        },
        _ => None,
    }
}

/// An axis-aligned rectangle given by two corners.
#[derive(Clone, Copy, PartialEq, Eq, Structural, Debug)]
pub struct Rect {
    pub bottom_left: Vector2,
    pub top_right: Vector2,
}

impl Rect {
    pub open spec fn wf(self) -> bool {
        self.bottom_left.wf() && self.top_right.wf()
    }

    pub fn new(bottom_left: Vector2, top_right: Vector2) -> (r: Rect)
        ensures
            r == (Rect { bottom_left, top_right }),
    {
        Rect { bottom_left, top_right }
    }

    /// Strict interior containment: points on the edges are outside.
    pub open spec fn spec_contains(self, point: Vector2) -> bool {
        &&& frac_lt(self.bottom_left.x, point.x)
        &&& frac_lt(point.x, self.top_right.x)
        &&& frac_lt(self.bottom_left.y, point.y)
        &&& frac_lt(point.y, self.top_right.y)
    }

    pub fn contains(&self, point: Vector2) -> (r: bool)
        requires
            self.wf(),
            point.wf(),
        ensures
            r == self.spec_contains(point),
    {
        lt(&self.bottom_left.x, &point.x) && lt(&point.x, &self.top_right.x)
            && lt(&self.bottom_left.y, &point.y) && lt(&point.y, &self.top_right.y)
    }
}

/// A flat sequence of 2-D coordinates, two entries per point.
#[derive(Clone, Debug)]
pub struct Points {
    pub data: Vec<Ratio>,
}

impl Points {
    pub open spec fn wf(self) -> bool {
        forall|i: int| 0 <= i < self.data@.len() ==> #[trigger] self.data@[i].wf()
    }

    /// The point at a given index, at the specification level.
    pub open spec fn spec_point(self, index: int) -> Vector2 {
        Vector2 { x: self.data@[2 * index], y: self.data@[2 * index + 1] }
    }

    pub fn new(data: Vec<Ratio>) -> (r: Points)
        ensures
            r.data == data,
    {
        Points { data }
    }

    /// The number of whole points stored.
    pub fn len(&self) -> (r: usize)
        ensures
            r == self.data@.len() / 2,
    {
        self.data.len() / 2
    }

    pub fn get_point(&self, index: usize) -> (r: Vector2)
        requires
            index < self.data@.len() / 2,
        ensures
            r == self.spec_point(index as int),
    {
        let n = self.data.len();
        proof {
            assert(2 * index < n);
        }
        let start_index = index * 2;
        Vector2 { x: self.data[start_index], y: self.data[start_index + 1] }
    }

    pub fn get_data(&self) -> (r: Vec<Ratio>)
        ensures
            r@ == self.data@,
    {
        self.data.clone()
    }

    pub fn iter(&self) -> (r: PointsIter)
        ensures
            r.index == 0,
    {
        PointsIter { index: 0 }
    }

    /// Every point of the transform fits.
    pub open spec fn tc_all_fit(self, o: Vector2, s: Ratio, ar: Ratio) -> bool {
        forall|i: int|
            0 <= i < self.data@.len() / 2 ==> (#[trigger] spec_transform(
                self.spec_point(i),
                o,
                s,
                ar,
            )) is Some
    }

    /// The transformed flat coordinate sequence.
    pub open spec fn tc_out(self, o: Vector2, s: Ratio, ar: Ratio) -> Seq<Ratio> {
        Seq::new(
            self.data@.len(),
            |j: int|
                if j % 2 == 0 {
                    spec_transform(self.spec_point(j / 2), o, s, ar).unwrap().x
                } else {
                    spec_transform(self.spec_point(j / 2), o, s, ar).unwrap().y
                },
        )
    }

    /// Maps every point to display space; `None` when a point's transform
    /// overflows.
    pub fn to_clipspace(&self, display_offset: Vector2, display_scale: &Ratio, aspect_ratio: &Ratio)
        -> (r: Option<Points>)
        requires
            self.wf(),
            display_offset.wf(),
            display_scale.wf(),
            aspect_ratio.wf(),
            self.data@.len() % 2 == 0,
        ensures
            self.tc_all_fit(display_offset, *display_scale, *aspect_ratio) ==> (r matches Some(p)
                && p.data@ == self.tc_out(display_offset, *display_scale, *aspect_ratio)),
            !self.tc_all_fit(display_offset, *display_scale, *aspect_ratio) ==> r is None,
            r matches Some(p) ==> p.wf() && p.data@.len() == self.data@.len(),
    {
        let n = self.data.len();
        let mut out: Vec<Ratio> = Vec::new();
        let mut i: usize = 0;
        while i < n / 2
            invariant
                self.wf(),
                display_offset.wf(),
                display_scale.wf(),
                aspect_ratio.wf(),
                n == self.data@.len(),
                n % 2 == 0,
                i <= n / 2,
                out@.len() == 2 * i,
                forall|k: int|
                    0 <= k < i ==> (#[trigger] spec_transform(
                        self.spec_point(k),
                        display_offset,
                        *display_scale,
                        *aspect_ratio,
                    )) is Some,
                forall|j: int|
                    0 <= j < out@.len() ==> #[trigger] out@[j] == self.tc_out(
                        display_offset,
                        *display_scale,
                        *aspect_ratio,
                    )[j],
                forall|j: int| 0 <= j < out@.len() ==> #[trigger] out@[j].wf(),
            decreases n / 2 - i,
        {
            let p = self.get_point(i);
            match layout_to_clipspace(p, display_offset, *display_scale, *aspect_ratio) {
                Some(v) => {
                    out.push(v.x);
                    out.push(v.y);
                },
                None => {
                    return None;
                },
            }
            i += 1;
        }
        proof {
            assert(out@ =~= self.tc_out(display_offset, *display_scale, *aspect_ratio));
        }
        Some(Points { data: out })
    }
}

/// A cursor over a [`Points`] value; advance it with [`PointsIter::next`].
#[derive(Clone, Copy, Debug)]
pub struct PointsIter {
    pub index: usize,
}

impl PointsIter {
    /// The next point of `points`, or `None` past the end.
    pub fn next(&mut self, points: &Points) -> (r: Option<Vector2>)
        ensures
            old(self).index < points.data@.len() / 2 ==> r == Some(
                points.spec_point(old(self).index as int),
            ) && final(self).index == old(self).index + 1,
            old(self).index >= points.data@.len() / 2 ==> r is None && final(self).index == old(
                self,
            ).index,
    {
        if self.index >= points.len() {
            return None;
        }
        let point = points.get_point(self.index);
        self.index += 1;
        Some(point)
    }
}

} // verus!

verus! {

/// A transformed coordinate cross-multiplies equal to the unreduced
/// composite `((p - o) * s) / ar` per coordinate (the stored components
/// are the reduced form of that composite).
proof fn lemma_transform_value(a: Vector2, o: Vector2, s: Ratio, ar: Ratio, t: Vector2)
    requires
        a.wf(),
        o.wf(),
        s.wf(),
        ar.wf(),
        ar.num >= 1,
        spec_transform(a, o, s, ar) == Some(t),
    ensures
        t.x.wf(),
        t.y.wf(),
        t.x.num * (((a.x.den * o.x.den) * s.den) * ar.num) == (((a.x.num * o.x.den - o.x.num
            * a.x.den) * s.num) * ar.den) * t.x.den,
        t.y.num * ((a.y.den * o.y.den) * s.den) == ((a.y.num * o.y.den - o.y.num * a.y.den)
            * s.num) * t.y.den,
{
    let dn = a.x.num * o.x.den - o.x.num * a.x.den;
    let dd = a.x.den * o.x.den;
    let dx = spec_sub(a.x, o.x).unwrap();
    crate::ratio::lemma_den_prod(a.x.den as int, o.x.den as int);
    crate::ratio::lemma_norm_frac(dn, dd, dx);
    let sx = spec_mul(dx, s).unwrap();
    crate::ratio::lemma_den_prod(dx.den as int, s.den as int);
    crate::ratio::lemma_norm_frac(dx.num * s.num, dx.den * s.den, sx);
    crate::ratio::lemma_freq_scale(dx.num as int, dx.den as int, dn, dd, s.num as int,
        s.den as int);
    crate::ratio::lemma_den_prod(dd, s.den as int);
    crate::ratio::lemma_freq_trans(
        sx.num as int,
        sx.den as int,
        dx.num * s.num,
        dx.den * s.den,
        dn * s.num,
        dd * s.den,
    );
    crate::ratio::lemma_den_prod(sx.den as int, ar.num as int);
    crate::ratio::lemma_norm_frac(sx.num * ar.den, sx.den * ar.num, t.x);
    crate::ratio::lemma_den_prod(dd * s.den, ar.num as int);
    crate::ratio::lemma_freq_scale(
        sx.num as int,
        sx.den as int,
        dn * s.num,
        dd * s.den,
        ar.den as int,
        ar.num as int,
    );
    crate::ratio::lemma_freq_trans(
        t.x.num as int,
        t.x.den as int,
        sx.num * ar.den,
        sx.den * ar.num,
        (dn * s.num) * ar.den,
        (dd * s.den) * ar.num,
    );
    // Vertical coordinate: no aspect-ratio division.
    let dny = a.y.num * o.y.den - o.y.num * a.y.den;
    let ddy = a.y.den * o.y.den;
    let dy = spec_sub(a.y, o.y).unwrap();
    crate::ratio::lemma_den_prod(a.y.den as int, o.y.den as int);
    crate::ratio::lemma_norm_frac(dny, ddy, dy);
    crate::ratio::lemma_den_prod(dy.den as int, s.den as int);
    crate::ratio::lemma_norm_frac(dy.num * s.num, dy.den * s.den, t.y);
    crate::ratio::lemma_den_prod(ddy, s.den as int);
    crate::ratio::lemma_freq_scale(dy.num as int, dy.den as int, dny, ddy, s.num as int,
        s.den as int);
    crate::ratio::lemma_freq_trans(
        t.y.num as int,
        t.y.den as int,
        dy.num * s.num,
        dy.den * s.den,
        dny * s.num,
        ddy * s.den,
    );
}

/// Transfers a cross-multiplied difference through the two composite
/// fractions.
proof fn lemma_diff_transfer(
    xn: int,
    xd: int,
    yn: int,
    yd: int,
    nx: int,
    dx: int,
    ny: int,
    dy: int,
)
    requires
        xn * dx == nx * xd,
        yn * dy == ny * yd,
    ensures
        (xn * yd - yn * xd) * (dx * dy) == (nx * dy - ny * dx) * (xd * yd),
{
    broadcast use vstd::arithmetic::mul::lemma_mul_is_associative,
        vstd::arithmetic::mul::lemma_mul_is_commutative,
        vstd::arithmetic::mul::lemma_mul_is_distributive_sub,
        vstd::arithmetic::mul::lemma_mul_is_distributive_sub_other_way;

    assert((xn * yd) * (dx * dy) == (xn * dx) * (yd * dy));
    assert((xn * dx) * (yd * dy) == (nx * xd) * (yd * dy));
    assert((nx * xd) * (yd * dy) == (nx * dy) * (xd * yd));
    assert((yn * xd) * (dx * dy) == (yn * dy) * (xd * dx));
    assert((yn * dy) * (xd * dx) == (ny * yd) * (xd * dx));
    assert((ny * yd) * (xd * dx) == (ny * dx) * (xd * yd));
}

/// Combines the transferred difference with the ring identity and cancels
/// the positive composite denominators.
proof fn lemma_combine(x: int, k1: int, p: int, m: int, s2: int, w: int)
    requires
        p >= 1,
        x * p == m * s2,
        m * k1 == w * p,
    ensures
        x * k1 == w * s2,
{
    assert((x * k1) * p == (w * s2) * p) by (nonlinear_arith)
        requires
            x * p == m * s2,
            m * k1 == w * p,
    ;
    crate::ratio::lemma_mul_cancel(x * k1, w * s2, p);
}

/// The transform is linear: for a fixed camera, the difference of two
/// transformed positions equals the difference of the positions scaled by
/// `s / ar` horizontally and by `s` vertically, as exact rationals
/// (stated by cross-multiplication).
pub proof fn lemma_transform_linear(
    a: Vector2,
    b: Vector2,
    o: Vector2,
    s: Ratio,
    ar: Ratio,
    ta: Vector2,
    tb: Vector2,
)
    requires
        a.wf(),
        b.wf(),
        o.wf(),
        s.wf(),
        ar.wf(),
        ar.num >= 1,
        spec_transform(a, o, s, ar) == Some(ta),
        spec_transform(b, o, s, ar) == Some(tb),
    ensures
        diff_n(ta.x, tb.x) * ((a.x.den * b.x.den) * s.den * ar.num) == (diff_n(a.x, b.x) * s.num
            * ar.den) * sum_d(ta.x, tb.x),
        diff_n(ta.y, tb.y) * ((a.y.den * b.y.den) * s.den) == (diff_n(a.y, b.y) * s.num) * sum_d(
            ta.y,
            tb.y,
        ),
{
    lemma_transform_value(a, o, s, ar, ta);
    lemma_transform_value(b, o, s, ar, tb);
    let nx = ((a.x.num * o.x.den - o.x.num * a.x.den) * s.num) * ar.den;
    let dxx = ((a.x.den * o.x.den) * s.den) * ar.num;
    let nb = ((b.x.num * o.x.den - o.x.num * b.x.den) * s.num) * ar.den;
    let dbb = ((b.x.den * o.x.den) * s.den) * ar.num;
    crate::ratio::lemma_den_prod(a.x.den as int, o.x.den as int);
    crate::ratio::lemma_den_prod((a.x.den * o.x.den) as int, s.den as int);
    crate::ratio::lemma_den_prod((a.x.den * o.x.den) * s.den, ar.num as int);
    crate::ratio::lemma_den_prod(b.x.den as int, o.x.den as int);
    crate::ratio::lemma_den_prod((b.x.den * o.x.den) as int, s.den as int);
    crate::ratio::lemma_den_prod((b.x.den * o.x.den) * s.den, ar.num as int);
    crate::ratio::lemma_den_prod(dxx, dbb);
    lemma_diff_transfer(
        ta.x.num as int,
        ta.x.den as int,
        tb.x.num as int,
        tb.x.den as int,
        nx,
        dxx,
        nb,
        dbb,
    );
    lemma_lin_core(
        a.x.num as int,
        a.x.den as int,
        b.x.num as int,
        b.x.den as int,
        o.x.num as int,
        o.x.den as int,
        s.num as int,
        s.den as int,
        ar.num as int,
        ar.den as int,
    );
    lemma_combine(
        diff_n(ta.x, tb.x),
        (a.x.den * b.x.den) * s.den * ar.num,
        dxx * dbb,
        nx * dbb - nb * dxx,
        sum_d(ta.x, tb.x),
        diff_n(a.x, b.x) * s.num * ar.den,
    );
    // Vertical coordinate: the same argument with aspect components one.
    let ny = (a.y.num * o.y.den - o.y.num * a.y.den) * s.num;
    let dyy = (a.y.den * o.y.den) * s.den;
    let nby = (b.y.num * o.y.den - o.y.num * b.y.den) * s.num;
    let dby = (b.y.den * o.y.den) * s.den;
    crate::ratio::lemma_den_prod(a.y.den as int, o.y.den as int);
    crate::ratio::lemma_den_prod((a.y.den * o.y.den) as int, s.den as int);
    crate::ratio::lemma_den_prod(b.y.den as int, o.y.den as int);
    crate::ratio::lemma_den_prod((b.y.den * o.y.den) as int, s.den as int);
    crate::ratio::lemma_den_prod(dyy, dby);
    lemma_diff_transfer(
        ta.y.num as int,
        ta.y.den as int,
        tb.y.num as int,
        tb.y.den as int,
        ny,
        dyy,
        nby,
        dby,
    );
    lemma_lin_core(
        a.y.num as int,
        a.y.den as int,
        b.y.num as int,
        b.y.den as int,
        o.y.num as int,
        o.y.den as int,
        s.num as int,
        s.den as int,
        1,
        1,
    );
    assert(ny == ((a.y.num * o.y.den - o.y.num * a.y.den) * s.num) * 1 && dyy == ((a.y.den
        * o.y.den) * s.den) * 1 && nby == ((b.y.num * o.y.den - o.y.num * b.y.den) * s.num) * 1
        && dby == ((b.y.den * o.y.den) * s.den) * 1);
    lemma_combine(
        diff_n(ta.y, tb.y),
        (a.y.den * b.y.den) * s.den,
        dyy * dby,
        ny * dby - nby * dyy,
        sum_d(ta.y, tb.y),
        diff_n(a.y, b.y) * s.num,
    );
    assert((a.y.den * b.y.den) * s.den == (a.y.den * b.y.den) * s.den * 1 && diff_n(a.y, b.y)
        * s.num == (diff_n(a.y, b.y) * s.num) * 1);
}

/// Ring identity behind the linearity of the transform: one coordinate,
/// with aspect-ratio components `arn / ard` (set both to one for the
/// vertical coordinate).
#[verifier::spinoff_prover]
proof fn lemma_lin_core(
    an: int,
    ad: int,
    bn: int,
    bd: int,
    on2: int,
    od: int,
    sn: int,
    sd: int,
    arn: int,
    ard: int,
)
    ensures
        (((an * od - on2 * ad) * sn * ard) * (bd * od * sd * arn) - ((bn * od - on2 * bd) * sn
            * ard) * (ad * od * sd * arn)) * ((ad * bd) * sd * arn) == ((an * bd - bn * ad) * sn
            * ard) * ((ad * od * sd * arn) * (bd * od * sd * arn)),
{
    broadcast use vstd::arithmetic::mul::lemma_mul_is_associative,
        vstd::arithmetic::mul::lemma_mul_is_commutative,
        vstd::arithmetic::mul::lemma_mul_is_distributive_sub,
        vstd::arithmetic::mul::lemma_mul_is_distributive_sub_other_way;

    lemma_lin_cross(an, ad, bn, bd, on2, od);
    lemma_lin_factor(an * od - on2 * ad, bn * od - on2 * bd, sn * ard, sd * arn, ad, bd, od);
    lemma_lin_subst(sn * ard, sd * arn, od, ad, bd, an * bd - bn * ad);
}

/// The offset terms cancel in the cross-difference.
#[verifier::spinoff_prover]
proof fn lemma_lin_cross(an: int, ad: int, bn: int, bd: int, on2: int, od: int)
    ensures
        (an * od - on2 * ad) * bd - (bn * od - on2 * bd) * ad == od * (an * bd - bn * ad),
{
    assert((an * od - on2 * ad) * bd - (bn * od - on2 * bd) * ad == od * (an * bd - bn * ad))
        by (nonlinear_arith);
}

/// `(x - y) * z` distributes.
#[verifier::spinoff_prover]
proof fn lemma_distrib(x: int, y: int, z: int)
    ensures
        (x - y) * z == x * z - y * z,
{
    assert((x - y) * z == x * z - y * z) by (nonlinear_arith);
}

/// `(x * y) * z` regroups as `x * (y * z)` and commutes freely.
#[verifier::spinoff_prover]
proof fn lemma_mono_a(da: int, c: int, e: int, ad: int, bd: int, od: int)
    ensures
        ((da * c) * (bd * od * e)) * ((ad * bd) * e) == ((c * (e * e)) * (od * (ad * bd))) * (da
            * bd),
{
    broadcast use vstd::arithmetic::mul::lemma_mul_is_associative,
        vstd::arithmetic::mul::lemma_mul_is_commutative;

}

#[verifier::spinoff_prover]
proof fn lemma_mono_b(db: int, c: int, e: int, ad: int, bd: int, od: int)
    ensures
        ((db * c) * (ad * od * e)) * ((ad * bd) * e) == ((c * (e * e)) * (od * (ad * bd))) * (db
            * ad),
{
    broadcast use vstd::arithmetic::mul::lemma_mul_is_associative,
        vstd::arithmetic::mul::lemma_mul_is_commutative;

}

/// Factoring the common scale out of the difference of two transforms.
proof fn lemma_lin_factor(da: int, db: int, c: int, e: int, ad: int, bd: int, od: int)
    ensures
        ((da * c) * (bd * od * e) - (db * c) * (ad * od * e)) * ((ad * bd) * e) == (c * (e * e)) * (
        od * (ad * bd)) * (da * bd - db * ad),
{
    lemma_distrib((da * c) * (bd * od * e), (db * c) * (ad * od * e), (ad * bd) * e);
    lemma_mono_a(da, c, e, ad, bd, od);
    lemma_mono_b(db, c, e, ad, bd, od);
    lemma_distrib(da * bd, db * ad, (c * (e * e)) * (od * (ad * bd)));
    assert((da * bd - db * ad) * ((c * (e * e)) * (od * (ad * bd))) == (c * (e * e)) * (od * (ad
        * bd)) * (da * bd - db * ad)) by (nonlinear_arith);
}

/// Regrouping the factored form into the right-hand side.
#[verifier::spinoff_prover]
proof fn lemma_lin_subst(c: int, e: int, od: int, ad: int, bd: int, d: int)
    ensures
        (c * (e * e)) * (od * (ad * bd)) * (od * d) == (d * c) * ((ad * od * e) * (bd * od * e)),
{
    broadcast use vstd::arithmetic::mul::lemma_mul_is_associative,
        vstd::arithmetic::mul::lemma_mul_is_commutative;

}

/// Zoom commutes with the transform: scaling the zoom by `k` and then
/// transforming gives, as an exact rational, `k` times the transform of
/// the same point (stated by cross-multiplication, per component).
pub proof fn lemma_transform_zoom(
    a: Vector2,
    o: Vector2,
    s: Ratio,
    k: Ratio,
    ar: Ratio,
    sk: Ratio,
    t1: Vector2,
    tk: Vector2,
)
    requires
        a.wf(),
        o.wf(),
        s.wf(),
        k.wf(),
        ar.wf(),
        ar.num >= 1,
        spec_mul(s, k) == Some(sk),
        spec_transform(a, o, s, ar) == Some(t1),
        spec_transform(a, o, sk, ar) == Some(tk),
    ensures
        tk.x.num * (k.den * t1.x.den) == (k.num * t1.x.num) * tk.x.den,
        tk.y.num * (k.den * t1.y.den) == (k.num * t1.y.num) * tk.y.den,
{
    crate::ratio::lemma_den_prod(s.den as int, k.den as int);
    crate::ratio::lemma_norm_frac(s.num * k.num, s.den * k.den, sk);
    lemma_transform_value(a, o, s, ar, t1);
    lemma_transform_value(a, o, sk, ar, tk);
    let dn = a.x.num * o.x.den - o.x.num * a.x.den;
    let dd = a.x.den * o.x.den;
    let n1 = (dn * s.num) * ar.den;
    let d1 = ((dd) * s.den) * ar.num;
    let nk2 = (dn * sk.num) * ar.den;
    let dk2 = ((dd) * sk.den) * ar.num;
    crate::ratio::lemma_den_prod(a.x.den as int, o.x.den as int);
    crate::ratio::lemma_den_prod(dd, s.den as int);
    crate::ratio::lemma_den_prod(dd * s.den, ar.num as int);
    crate::ratio::lemma_den_prod(dd, sk.den as int);
    crate::ratio::lemma_den_prod(dd * sk.den, ar.num as int);
    lemma_zoom_bridge(dn, dd, ar.num as int, ar.den as int, sk.num as int, sk.den as int,
        s.num as int, s.den as int, k.num as int, k.den as int);
    lemma_zoom_combine(
        tk.x.num as int,
        tk.x.den as int,
        t1.x.num as int,
        t1.x.den as int,
        nk2,
        dk2,
        n1,
        d1,
        k.num as int,
        k.den as int,
    );
    // Vertical coordinate: the same argument with aspect components one.
    let dny = a.y.num * o.y.den - o.y.num * a.y.den;
    let ddy = a.y.den * o.y.den;
    let n1y = dny * s.num;
    let d1y = ddy * s.den;
    let nky = dny * sk.num;
    let dky = ddy * sk.den;
    crate::ratio::lemma_den_prod(a.y.den as int, o.y.den as int);
    crate::ratio::lemma_den_prod(ddy, s.den as int);
    crate::ratio::lemma_den_prod(ddy, sk.den as int);
    lemma_zoom_bridge(dny, ddy, 1, 1, sk.num as int, sk.den as int, s.num as int, s.den as int,
        k.num as int, k.den as int);
    assert(nky == (dny * sk.num) * 1 && dky == (ddy * sk.den) * 1 && n1y == (dny * s.num) * 1
        && d1y == (ddy * s.den) * 1);
    lemma_zoom_combine(
        tk.y.num as int,
        tk.y.den as int,
        t1.y.num as int,
        t1.y.den as int,
        nky,
        dky,
        n1y,
        d1y,
        k.num as int,
        k.den as int,
    );
}

/// The composite numerators and denominators of the zoomed and unzoomed
/// transforms already satisfy the zoom relation.
#[verifier::spinoff_prover]
proof fn lemma_zoom_bridge(
    dn: int,
    dd: int,
    arn: int,
    ard: int,
    skn: int,
    skd: int,
    sn: int,
    sd: int,
    kn: int,
    kd: int,
)
    requires
        skn * (sd * kd) == (sn * kn) * skd,
    ensures
        ((dn * skn) * ard) * (kd * ((dd * sd) * arn)) == (kn * ((dn * sn) * ard)) * ((dd * skd)
            * arn),
{
    broadcast use vstd::arithmetic::mul::lemma_mul_is_associative,
        vstd::arithmetic::mul::lemma_mul_is_commutative;

    assert(((dn * skn) * ard) * (kd * ((dd * sd) * arn)) == (skn * (sd * kd)) * ((dn * ard) * (dd
        * arn)));
    assert((kn * ((dn * sn) * ard)) * ((dd * skd) * arn) == ((sn * kn) * skd) * ((dn * ard) * (dd
        * arn)));
}

/// From the two composite relations and the bridged identity, the zoomed
/// output is `k` times the unzoomed output.
proof fn lemma_zoom_combine(
    tkn: int,
    tkd: int,
    t1n: int,
    t1d: int,
    nk: int,
    dk: int,
    n1: int,
    d1: int,
    kn: int,
    kd: int,
)
    requires
        dk >= 1,
        d1 >= 1,
        tkn * dk == nk * tkd,
        t1n * d1 == n1 * t1d,
        nk * (kd * d1) == (kn * n1) * dk,
    ensures
        tkn * (kd * t1d) == (kn * t1n) * tkd,
{
    broadcast use vstd::arithmetic::mul::lemma_mul_is_associative,
        vstd::arithmetic::mul::lemma_mul_is_commutative;

    assert((tkn * (kd * t1d)) * (dk * d1) == (tkn * dk) * (kd * (t1d * d1)));
    assert((tkn * dk) * (kd * (t1d * d1)) == (nk * tkd) * (kd * (t1d * d1)));
    assert((nk * tkd) * (kd * (t1d * d1)) == (nk * (kd * d1)) * (tkd * t1d));
    assert((nk * (kd * d1)) * (tkd * t1d) == ((kn * n1) * dk) * (tkd * t1d));
    assert(((kn * n1) * dk) * (tkd * t1d) == (kn * (n1 * t1d)) * (dk * tkd));
    assert((kn * (n1 * t1d)) * (dk * tkd) == (kn * (t1n * d1)) * (dk * tkd));
    assert((kn * (t1n * d1)) * (dk * tkd) == ((kn * t1n) * tkd) * (dk * d1));
    crate::ratio::lemma_den_prod(dk, d1);
    crate::ratio::lemma_mul_cancel(tkn * (kd * t1d), (kn * t1n) * tkd, dk * d1);
}

} // verus!
