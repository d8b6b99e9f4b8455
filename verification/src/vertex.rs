//! The vertex-buffer builder.
//!
//! The render buffer is one flat sequence of display-space numbers: first a
//! node region of twelve entries per node (six vertices of two triangles
//! forming a square, in the order top-left, top-right, bottom-right,
//! bottom-right, bottom-left, top-left), then an edge region of four
//! entries per edge (source position, target position), edges ordered by
//! source node and, within a source, by target-list order.  A companion
//! index buffer pairs the node indices of each edge in the same order.

use vstd::prelude::*;

use crate::geometry::{Points, Vector2};
use crate::graph::{edge_pairs, lemma_pairs_at, lemma_pairs_prefix, pairs_up_to, row_pairs};
use crate::ratio::{checked_add, checked_div, checked_sub, spec_add, spec_div, spec_sub, Ratio};

verus! {

/// The twelve numbers of one node's square, centred on `loc`, with
/// horizontal half-width `eo / ar` and vertical half-width `eo`; `None`
/// when the exact arithmetic overflows or `ar` is zero.
pub open spec fn spec_square(loc: Vector2, ar: Ratio, eo: Ratio) -> Option<Seq<Ratio>> {
    match spec_div(eo, ar) {
        None => None,
        Some(hx) => match (spec_sub(loc.x, hx), spec_add(loc.x, hx), spec_add(loc.y, eo), spec_sub(
            loc.y,
            eo,
        )) {
            (Some(l), Some(r), Some(t), Some(b)) => Some(
                seq![l, t, r, t, r, b, r, b, l, b, l, t],
            ),
            _ => None,
        },
    }
}

/// The square of one node as a flat vector; `None` on overflow.
pub fn square_vertices(location: &Vector2, aspect_ratio: &Ratio, edge_offset: &Ratio) -> (r: Option<
    Vec<Ratio>,
>)
    requires
        location.wf(),
        aspect_ratio.wf(),
        edge_offset.wf(),
    ensures
        spec_square(*location, *aspect_ratio, *edge_offset) is Some ==> (r matches Some(v) && v@
            == spec_square(*location, *aspect_ratio, *edge_offset).unwrap()),
        spec_square(*location, *aspect_ratio, *edge_offset) is None ==> r is None,
        r matches Some(v) ==> v@.len() == 12 && forall|k: int|
            0 <= k < 12 ==> (#[trigger] v@[k]).wf(),
{
    let hx = match checked_div(*edge_offset, *aspect_ratio) {
        Some(h) => h,
        None => {
            return None;
        },
    };
    match (
        checked_sub(location.x, hx),
        checked_add(location.x, hx),
        checked_add(location.y, *edge_offset),
        checked_sub(location.y, *edge_offset),
    ) {
        (Some(l), Some(rt), Some(t), Some(b)) => {
            let out: Vec<Ratio> = vec![l, t, rt, t, rt, b, rt, b, l, b, l, t];
            proof {
                assert(out@ =~= spec_square(*location, *aspect_ratio, *edge_offset).unwrap());
            }
            Some(out)
        },
        _ => None,
    }
}

/// `|v - c| <= h` as exact rationals, stated by cross-multiplication
/// (meaningful for well-formed values with `h >= 0`).
pub open spec fn within(v: Ratio, c: Ratio, h: Ratio) -> bool {
    &&& -(h.num * (v.den * c.den)) <= (v.num * c.den - c.num * v.den) * h.den
    &&& (v.num * c.den - c.num * v.den) * h.den <= h.num * (v.den * c.den)
}

/// Ring step: a coordinate that cross-multiplies equal to `c + h` sits
/// exactly `h` above `c`.
proof fn lemma_within_core(vn: int, vd: int, cn: int, cd: int, hn: int, hd: int, add: bool)
    requires
        add ==> vn * (cd * hd) == (cn * hd + hn * cd) * vd,
        !add ==> vn * (cd * hd) == (cn * hd - hn * cd) * vd,
    ensures
        add ==> (vn * cd - cn * vd) * hd == hn * (vd * cd),
        !add ==> (vn * cd - cn * vd) * hd == -(hn * (vd * cd)),
{
    broadcast use vstd::arithmetic::mul::lemma_mul_is_associative,
        vstd::arithmetic::mul::lemma_mul_is_commutative,
        vstd::arithmetic::mul::lemma_mul_is_distributive_add,
        vstd::arithmetic::mul::lemma_mul_is_distributive_add_other_way,
        vstd::arithmetic::mul::lemma_mul_is_distributive_sub,
        vstd::arithmetic::mul::lemma_mul_is_distributive_sub_other_way;

    assert((vn * cd - cn * vd) * hd == vn * (cd * hd) - (cn * hd) * vd);
}

/// Adding a nonnegative `h` moves a coordinate by exactly `h`.
proof fn lemma_within_of_add(c: Ratio, h: Ratio, v: Ratio)
    requires
        c.wf(),
        h.wf(),
        h.num >= 0,
        crate::ratio::spec_add(c, h) == Some(v),
    ensures
        within(v, c, h),
{
    crate::ratio::lemma_den_prod(c.den as int, h.den as int);
    crate::ratio::lemma_norm_frac(
        c.num * h.den + h.num * c.den,
        c.den * h.den,
        v,
    );
    lemma_within_core(v.num as int, v.den as int, c.num as int, c.den as int, h.num as int,
        h.den as int, true);
    assert(h.num * (v.den * c.den) >= 0) by (nonlinear_arith)
        requires
            h.num >= 0,
            v.den >= 1,
            c.den >= 1,
    ;
}

/// Subtracting a nonnegative `h` moves a coordinate by exactly `-h`.
proof fn lemma_within_of_sub(c: Ratio, h: Ratio, v: Ratio)
    requires
        c.wf(),
        h.wf(),
        h.num >= 0,
        crate::ratio::spec_sub(c, h) == Some(v),
    ensures
        within(v, c, h),
{
    crate::ratio::lemma_den_prod(c.den as int, h.den as int);
    crate::ratio::lemma_norm_frac(
        c.num * h.den - h.num * c.den,
        c.den * h.den,
        v,
    );
    lemma_within_core(v.num as int, v.den as int, c.num as int, c.den as int, h.num as int,
        h.den as int, false);
    assert(h.num * (v.den * c.den) >= 0) by (nonlinear_arith)
        requires
            h.num >= 0,
            v.den >= 1,
            c.den >= 1,
    ;
}

/// Round trip of the square geometry: each of the twelve numbers emitted
/// for a node lies within the square half-width of the node's position —
/// within `eo / ar` horizontally and within `eo` vertically.
pub proof fn lemma_square_within(loc: Vector2, ar: Ratio, eo: Ratio, out: Seq<Ratio>)
    requires
        loc.wf(),
        ar.wf(),
        eo.wf(),
        ar.num >= 1,
        eo.num >= 0,
        spec_square(loc, ar, eo) == Some(out),
    ensures
        forall|k: int|
            0 <= k < 6 ==> within(#[trigger] out[2 * k], loc.x, spec_div(eo, ar).unwrap()),
        forall|k: int| 0 <= k < 6 ==> within(#[trigger] out[2 * k + 1], loc.y, eo),
{
    let hx = spec_div(eo, ar).unwrap();
    assert(eo.num * ar.den >= 0) by (nonlinear_arith)
        requires
            eo.num >= 0,
            ar.den >= 1,
    ;
    crate::ratio::lemma_den_prod(eo.den as int, ar.num as int);
    crate::ratio::lemma_norm_frac(eo.num * ar.den, eo.den * ar.num, hx);
    assert(hx.num >= 0);
    let l = spec_sub(loc.x, hx).unwrap();
    let r = spec_add(loc.x, hx).unwrap();
    let t = spec_add(loc.y, eo).unwrap();
    let b = spec_sub(loc.y, eo).unwrap();
    lemma_within_of_sub(loc.x, hx, l);
    lemma_within_of_add(loc.x, hx, r);
    lemma_within_of_add(loc.y, eo, t);
    lemma_within_of_sub(loc.y, eo, b);
    assert(out == seq![l, t, r, t, r, b, r, b, l, b, l, t]);
    assert forall|k: int| 0 <= k < 6 implies within(#[trigger] out[2 * k], loc.x, hx) by {
        assert(out[0] == l && out[2] == r && out[4] == r && out[6] == r && out[8] == l && out[10]
            == l);
    }
    assert forall|k: int| 0 <= k < 6 implies within(#[trigger] out[2 * k + 1], loc.y, eo) by {
        assert(out[1] == t && out[3] == t && out[5] == b && out[7] == b && out[9] == b && out[11]
            == t);
    }
}

/// Every node's square fits in exact arithmetic.
pub open spec fn squares_all_fit(p: Points, ar: Ratio, eo: Ratio) -> bool {
    forall|i: int|
        0 <= i < p.data@.len() / 2 ==> (#[trigger] spec_square(p.spec_point(i), ar, eo)) is Some
}

/// The node region: twelve entries per node.
pub open spec fn node_region(p: Points, ar: Ratio, eo: Ratio) -> Seq<Ratio> {
    Seq::new(
        6 * p.data@.len(),
        |j: int| spec_square(p.spec_point(j / 12), ar, eo).unwrap()[j % 12],
    )
}

/// The edge region: four entries per edge, the source position then the
/// target position.
pub open spec fn edge_region(pairs: Seq<(int, int)>, p: Points) -> Seq<Ratio> {
    Seq::new(
        4 * pairs.len(),
        |j: int|
            if j % 4 == 0 {
                p.spec_point(pairs[j / 4].0).x
            } else if j % 4 == 1 {
                p.spec_point(pairs[j / 4].0).y
            } else if j % 4 == 2 {
                p.spec_point(pairs[j / 4].1).x
            } else {
                p.spec_point(pairs[j / 4].1).y
            },
    )
}

/// The index buffer: two 16-bit node indices per edge.
pub open spec fn index_flat(pairs: Seq<(int, int)>) -> Seq<u16> {
    Seq::new(
        2 * pairs.len(),
        |j: int|
            if j % 2 == 0 {
                pairs[j / 2].0 as u16
            } else {
                pairs[j / 2].1 as u16
            },
    )
}

/// The whole render buffer: the node region followed by the edge region.
pub open spec fn spec_buffer(p: Points, targets: Seq<Seq<usize>>, ar: Ratio, eo: Ratio) -> Seq<
    Ratio,
> {
    node_region(p, ar, eo) + edge_region(edge_pairs(targets), p)
}

/// Point sets with equal coordinate data produce the same squares and the
/// same render buffer.
pub proof fn lemma_buffer_congruence(
    p1: Points,
    p2: Points,
    tv: Seq<Seq<usize>>,
    ar: Ratio,
    eo: Ratio,
)
    requires
        p1.data@ == p2.data@,
    ensures
        squares_all_fit(p1, ar, eo) == squares_all_fit(p2, ar, eo),
        spec_buffer(p1, tv, ar, eo) == spec_buffer(p2, tv, ar, eo),
{
    assert forall|i: int| 0 <= i < p1.data@.len() / 2 implies p1.spec_point(i) == p2.spec_point(
        i,
    ) by {}
    assert(squares_all_fit(p1, ar, eo) == squares_all_fit(p2, ar, eo)) by {
        if squares_all_fit(p1, ar, eo) {
            assert forall|i: int|
                0 <= i < p2.data@.len() / 2 implies (#[trigger] spec_square(
                p2.spec_point(i),
                ar,
                eo,
            )) is Some by {
                assert(spec_square(p1.spec_point(i), ar, eo) is Some);
            }
        }
        if squares_all_fit(p2, ar, eo) {
            assert forall|i: int|
                0 <= i < p1.data@.len() / 2 implies (#[trigger] spec_square(
                p1.spec_point(i),
                ar,
                eo,
            )) is Some by {
                assert(spec_square(p2.spec_point(i), ar, eo) is Some);
            }
        }
    }
    assert(node_region(p1, ar, eo) =~= node_region(p2, ar, eo));
    assert(edge_region(edge_pairs(tv), p1) =~= edge_region(edge_pairs(tv), p2));
    assert(spec_buffer(p1, tv, ar, eo) =~= spec_buffer(p2, tv, ar, eo));
}

/// Builds the whole render buffer: the node squares in index order, then
/// one segment per edge in source order; `None` when a square's exact
/// arithmetic overflows.
pub fn build_vertex_buffer(
    points: &Points,
    targets: &Vec<Vec<usize>>,
    aspect_ratio: &Ratio,
    edge_offset: &Ratio,
) -> (r: Option<Vec<Ratio>>)
    requires
        points.wf(),
        aspect_ratio.wf(),
        edge_offset.wf(),
        points.data@.len() % 2 == 0,
        targets@.len() == points.data@.len() / 2,
        forall|s: int, k: int|
            0 <= s < targets@.len() && 0 <= k < targets@[s]@.len() ==> (#[trigger] targets@[s]@[k])
                < targets@.len(),
        6 * points.data@.len() + 4 * edge_pairs(targets.deep_view()).len() <= usize::MAX,
    ensures
        squares_all_fit(*points, *aspect_ratio, *edge_offset) ==> (r matches Some(v) && v@
            == spec_buffer(*points, targets.deep_view(), *aspect_ratio, *edge_offset)),
        !squares_all_fit(*points, *aspect_ratio, *edge_offset) ==> r is None,
        r matches Some(v) ==> forall|j: int| 0 <= j < v@.len() ==> (#[trigger] v@[j]).wf(),
{
    let ghost tv = targets.deep_view();
    let node_count = points.len();
    let mut out: Vec<Ratio> = Vec::new();

    // Node region.
    let mut i: usize = 0;
    while i < node_count
        invariant
            i <= node_count,
            node_count == points.data@.len() / 2,
            points.data@.len() % 2 == 0,
            points.wf(),
            aspect_ratio.wf(),
            edge_offset.wf(),
            out@.len() == 12 * i,
            forall|k: int|
                0 <= k < i ==> (#[trigger] spec_square(
                    points.spec_point(k),
                    *aspect_ratio,
                    *edge_offset,
                )) is Some,
            forall|j: int|
                0 <= j < out@.len() ==> #[trigger] out@[j] == node_region(
                    *points,
                    *aspect_ratio,
                    *edge_offset,
                )[j],
            forall|j: int| 0 <= j < out@.len() ==> (#[trigger] out@[j]).wf(),
        decreases node_count - i,
    {
        let p = points.get_point(i);
        match square_vertices(&p, aspect_ratio, edge_offset) {
            Some(sq) => {
                let mut k: usize = 0;
                while k < 12
                    invariant
                        k <= 12,
                        sq@.len() == 12,
                        forall|k2: int| 0 <= k2 < 12 ==> (#[trigger] sq@[k2]).wf(),
                        out@.len() == 12 * i + k,
                        sq@ == spec_square(
                            points.spec_point(i as int),
                            *aspect_ratio,
                            *edge_offset,
                        ).unwrap(),
                        i < node_count,
                        node_count == points.data@.len() / 2,
                        forall|j: int|
                            0 <= j < 12 * i ==> #[trigger] out@[j] == node_region(
                                *points,
                                *aspect_ratio,
                                *edge_offset,
                            )[j],
                        forall|j: int| 12 * i <= j < out@.len() ==> #[trigger] out@[j] == sq@[j - 12
                            * i],
                        forall|j: int| 0 <= j < out@.len() ==> (#[trigger] out@[j]).wf(),
                    decreases 12 - k,
                {
                    out.push(sq[k]);
                    proof {
                        assert(out@[12 * i + k] == sq@[k as int]);
                        assert(out@.len() == 12 * i + k + 1);
                    }
                    k += 1;
                }
                proof {
                    assert forall|j: int| 0 <= j < out@.len() implies #[trigger] out@[j]
                        == node_region(*points, *aspect_ratio, *edge_offset)[j] by {
                        if 12 * i <= j {
                            assert(j / 12 == i as int && j % 12 == j - 12 * i as int);
                        }
                    }
                }
            },
            None => {
                return None;
            },
        }
        i += 1;
    }
    let ghost nreg = node_region(*points, *aspect_ratio, *edge_offset);
    proof {
        assert(out@ =~= nreg);
    }

    // Edge region.
    let nodes_len = out.len();
    let mut s: usize = 0;
    while s < node_count
        invariant
            s <= node_count,
            node_count == points.data@.len() / 2,
            node_count == targets@.len(),
            points.data@.len() % 2 == 0,
            points.wf(),
            tv == targets.deep_view(),
            forall|si: int, k: int|
                0 <= si < tv.len() && 0 <= k < tv[si].len() ==> (#[trigger] tv[si][k])
                    < targets@.len(),
            nodes_len == nreg.len(),
            nreg == node_region(*points, *aspect_ratio, *edge_offset),
            6 * points.data@.len() + 4 * edge_pairs(tv).len() <= usize::MAX,
            out@.len() == nodes_len + 4 * pairs_up_to(tv, s as int).len(),
            forall|j: int| 0 <= j < nodes_len ==> #[trigger] out@[j] == nreg[j],
            forall|j: int|
                nodes_len <= j < out@.len() ==> #[trigger] out@[j] == edge_region(edge_pairs(tv),
                    *points)[j - nodes_len],
            forall|j: int| 0 <= j < out@.len() ==> (#[trigger] out@[j]).wf(),
        decreases node_count - s,
    {
        let row_len = targets[s].len();
        let mut k: usize = 0;
        while k < row_len
            invariant
                k <= row_len,
                s < node_count,
                node_count == points.data@.len() / 2,
                node_count == targets@.len(),
                points.data@.len() % 2 == 0,
                points.wf(),
                tv == targets.deep_view(),
                row_len == tv[s as int].len(),
                forall|si: int, kk: int|
                    0 <= si < tv.len() && 0 <= kk < tv[si].len() ==> (#[trigger] tv[si][kk])
                        < targets@.len(),
                nodes_len == nreg.len(),
                nreg == node_region(*points, *aspect_ratio, *edge_offset),
                6 * points.data@.len() + 4 * edge_pairs(tv).len() <= usize::MAX,
                out@.len() == nodes_len + 4 * (pairs_up_to(tv, s as int).len() + k),
                forall|j: int| 0 <= j < nodes_len ==> #[trigger] out@[j] == nreg[j],
                forall|j: int|
                    nodes_len <= j < out@.len() ==> #[trigger] out@[j] == edge_region(
                        edge_pairs(tv),
                        *points,
                    )[j - nodes_len],
                forall|j: int| 0 <= j < out@.len() ==> (#[trigger] out@[j]).wf(),
            decreases row_len - k,
        {
            let t = targets[s][k];
            proof {
                lemma_pairs_at(tv, s as int, k as int);
                lemma_pairs_prefix(tv, s as int, tv.len() as int);
                assert(4 * (pairs_up_to(tv, s as int).len() + k) + 4 <= 4 * edge_pairs(tv).len());
            }
            let ps = points.get_point(s);
            let pt = points.get_point(t);
            out.push(ps.x);
            out.push(ps.y);
            out.push(pt.x);
            out.push(pt.y);
            proof {
                let ghost p0 = pairs_up_to(tv, s as int).len() + k;
                assert(edge_pairs(tv)[p0] == (s as int, tv[s as int][k as int] as int));
                assert forall|j: int| nodes_len <= j < out@.len() implies #[trigger] out@[j]
                    == edge_region(edge_pairs(tv), *points)[j - nodes_len] by {
                    let e = j - nodes_len;
                    if e >= 4 * p0 {
                        assert(e / 4 == p0 && (e % 4 == e - 4 * p0));
                    }
                }
            }
            k += 1;
        }
        proof {
            assert(pairs_up_to(tv, s + 1) == pairs_up_to(tv, s as int) + row_pairs(
                tv[s as int],
                s as int,
            ));
        }
        s += 1;
    }
    proof {
        assert(out@ =~= spec_buffer(*points, tv, *aspect_ratio, *edge_offset));
    }
    Some(out)
}

} // verus!
