//! The display-side graph state: camera (pan, zoom, autopan, gestures),
//! display-space node positions, the render buffer and the edge index
//! buffer, and the viewport queries.

use vstd::prelude::*;

use crate::geometry::{Points, Rect, Vector2};
use crate::graph::{decode_bytes, edge_pairs, lemma_decode_pairs, lemma_pairs_at,
    lemma_pairs_prefix, pairs_up_to, row_pairs, st_wf, GraphLayout};
use crate::geometry::{spec_v_add, spec_v_scale, spec_v_sub, v_add, v_scale, v_sub};
use crate::input::{acc_add, spec_pinch, spec_touch_offset, v_acc_add, TouchSet};
use crate::ratio::frac_le;
use crate::ratio::{checked_add, checked_div, checked_mul, checked_sub, spec_add, spec_div,
    spec_mul, spec_sub, Ratio};
use crate::vertex::{build_vertex_buffer, index_flat, spec_buffer, squares_all_fit};

verus! {

/// The zoom step ratio (one zoom-in multiplies the scale by this).
pub open spec fn zoom_rate() -> Ratio {
    Ratio { num: 5i64, den: 4i64 }
}

/// Twice the base pan rate.
pub open spec fn pan_numerator() -> Ratio {
    Ratio { num: 2i64, den: 1i64 }
}

/// The autopan speed as a multiple of the pan rate.
pub open spec fn autopan_mul() -> Ratio {
    Ratio { num: 512i64, den: 1i64 }
}

/// Half-width of a node's square in display space.
pub open spec fn square_half_width_value() -> Ratio {
    Ratio { num: 1i64, den: 100i64 }
}

/// The pan rate `(1 * 2 / scale) / height`: pan speed scales inversely
/// with zoom so that a fixed drag covers a fixed screen distance.
pub open spec fn spec_pan_rate(scale: Ratio, height: Ratio) -> Option<Ratio> {
    match spec_div(pan_numerator(), scale) {
        Some(q) => spec_div(q, height),
        None => None,
    }
}

/// The pan offset after a drag of `(x, y)`: both components move by the
/// drag scaled with the pan rate, or stay unchanged when the exact
/// arithmetic overflows.
pub open spec fn spec_pan(offset: Vector2, scale: Ratio, height: Ratio, x: Ratio, y: Ratio) -> Vector2 {
    match spec_pan_rate(scale, height) {
        None => offset,
        Some(rate) => match (spec_mul(x, rate), spec_mul(y, rate)) {
            (Some(dx), Some(dy)) => match (spec_add(offset.x, dx), spec_add(offset.y, dy)) {
                (Some(nx), Some(ny)) => Vector2 { x: nx, y: ny },
                _ => offset,
            },
            _ => offset,
        },
    }
}

/// The scale after one zoom-in step (unchanged on overflow).
pub open spec fn spec_zoom_in(scale: Ratio) -> Ratio {
    match spec_mul(scale, zoom_rate()) {
        Some(s) => s,
        None => scale,
    }
}

/// The scale after one zoom-out step (unchanged on overflow).
pub open spec fn spec_zoom_out(scale: Ratio) -> Ratio {
    match spec_div(scale, zoom_rate()) {
        Some(s) => s,
        None => scale,
    }
}


/// View of a list of samples as their stored pair lists.
pub open spec fn touches_view(v: Seq<TouchSet>) -> Seq<Seq<(i32, Vector2)>> {
    v.map_values(|t: TouchSet| t.data@)
}

/// Sum of the pinch signals of all consecutive sample windows.
pub open spec fn pinch_windows(ts: Seq<Seq<(i32, Vector2)>>, k: int, acc: Option<Ratio>) -> Option<
    Ratio,
>
    decreases ts.len() - k when k <= ts.len()
{
    if k < 0 || k + 1 >= ts.len() {
        acc
    } else {
        pinch_windows(ts, k + 1, acc_add(acc, spec_pinch(ts[k], ts[k + 1])))
    }
}

/// Sum of the pan signals of all consecutive sample windows.
pub open spec fn offset_windows(ts: Seq<Seq<(i32, Vector2)>>, k: int, acc: Option<Vector2>) -> Option<
    Vector2,
>
    decreases ts.len() - k when k <= ts.len()
{
    if k < 0 || k + 1 >= ts.len() {
        acc
    } else {
        offset_windows(ts, k + 1, v_acc_add(acc, spec_touch_offset(ts[k], ts[k + 1])))
    }
}

proof fn lemma_pinch_windows_none(ts: Seq<Seq<(i32, Vector2)>>, k: int)
    requires
        k <= ts.len(),
    ensures
        pinch_windows(ts, k, None) is None,
    decreases ts.len() - k,
{
    if k < 0 || k + 1 >= ts.len() {
    } else {
        lemma_pinch_windows_none(ts, k + 1);
    }
}

proof fn lemma_offset_windows_none(ts: Seq<Seq<(i32, Vector2)>>, k: int)
    requires
        k <= ts.len(),
    ensures
        offset_windows(ts, k, None) is None,
    decreases ts.len() - k,
{
    if k < 0 || k + 1 >= ts.len() {
    } else {
        lemma_offset_windows_none(ts, k + 1);
    }
}

/// The camera state after one autopan frame: snap onto the target when it
/// is within one frame's travel, otherwise move toward it by the fraction
/// `rate / distance` of the remaining difference; unchanged when idle, on
/// degenerate geometry, or on overflow.  The step fraction and the moved
/// position are snapped onto the `1 / 2^20` grid
/// ([`crate::ratio::spec_quantize`]) whenever their exact denominators
/// would exceed the grid, so the offset's denominator stays bounded over
/// any number of frames and repeated frames keep making progress (a target
/// farther than `2^20` frame-travels quantizes the fraction to zero and
/// waits for the camera to zoom out).
pub open spec fn spec_autopan_step(d: GraphDisplay) -> GraphDisplay {
    if !d.autopanning {
        d
    } else {
        match spec_pan_rate(d.display_scale, d.display_height) {
            None => d,
            Some(rate0) => match spec_mul(rate0, autopan_mul()) {
                None => d,
                Some(rate) => match spec_v_sub(d.autopan_dest, d.display_offset) {
                    None => d,
                    Some(diff) => match diff.spec_magnitude() {
                        None => d,
                        Some(mag) => if frac_le(mag, rate) {
                            GraphDisplay {
                                display_offset: d.autopan_dest,
                                autopanning: false,
                                ..d
                            }
                        } else {
                            match spec_div(rate, mag) {
                                None => d,
                                Some(frac0) => match crate::ratio::spec_quantize(frac0) {
                                    None => d,
                                    Some(frac) => match spec_v_scale(diff, frac) {
                                        None => d,
                                        Some(step) => match spec_v_add(d.display_offset, step) {
                                            None => d,
                                            Some(no) => match (
                                                crate::ratio::spec_quantize(no.x),
                                                crate::ratio::spec_quantize(no.y),
                                            ) {
                                                (Some(qx), Some(qy)) => GraphDisplay {
                                                    display_offset: Vector2 { x: qx, y: qy },
                                                    ..d
                                                },
                                                _ => d,
                                            },
                                        },
                                    },
                                },
                            }
                        },
                    },
                },
            },
        }
    }
}

/// The gesture window: the carried previous sample, if any, followed by
/// the samples delivered since the last frame.
pub open spec fn spec_combined(d: GraphDisplay) -> Seq<Seq<(i32, Vector2)>> {
    match d.current_touches {
        None => Seq::empty(),
        Some(cur) => match d.prev_touch {
            Some(p) => seq![p.data@] + touches_view(cur@),
            None => touches_view(cur@),
        },
    }
}

/// A gesture is processed this frame: samples exist and the window holds
/// at least two of them.
pub open spec fn spec_gesture_active(d: GraphDisplay) -> bool {
    d.current_touches is Some && spec_combined(d).len() >= 2
}

/// The zoom scale after gesture processing: one discrete zoom step in the
/// direction of the summed pinch signal.
pub open spec fn spec_gesture_scale(d: GraphDisplay) -> Ratio {
    let z = Ratio { num: 0i64, den: 1i64 };
    match pinch_windows(spec_combined(d), 0, Some(z)) {
        Some(p) => if p.num > 0 {
            spec_zoom_in(d.display_scale)
        } else if p.num < 0 {
            spec_zoom_out(d.display_scale)
        } else {
            d.display_scale
        },
        None => d.display_scale,
    }
}

/// The pan offset after gesture processing: the summed pan signal, with
/// the vertical axis flipped, scaled by the pan rate at the new zoom.
pub open spec fn spec_gesture_offset(d: GraphDisplay) -> Vector2 {
    let z = Ratio { num: 0i64, den: 1i64 };
    let zv = Vector2 { x: z, y: z };
    match offset_windows(spec_combined(d), 0, Some(zv)) {
        None => d.display_offset,
        Some(o) => {
            let flip = Vector2 { x: o.x, y: Ratio { num: (-o.y.num) as i64, den: o.y.den } };
            match spec_pan_rate(spec_gesture_scale(d), d.display_height) {
                None => d.display_offset,
                Some(rate) => match spec_v_scale(flip, rate) {
                    None => d.display_offset,
                    Some(sc) => match spec_v_add(d.display_offset, sc) {
                        None => d.display_offset,
                        Some(no) => no,
                    },
                },
            }
        },
    }
}

/// The index buffer holds an even-length prefix of the full pair list.
pub open spec fn index_prefix_ok(v: Seq<u16>, pairs: Seq<(int, int)>) -> bool {
    &&& v.len() % 2 == 0
    &&& v.len() <= 2 * pairs.len()
    &&& forall|j: int| 0 <= j < v.len() ==> v[j] == index_flat(pairs)[j]
}

/// Relation between the state before and after one frame update
/// ([`GraphDisplay::update_clipspace_vertices`]): the camera advances by
/// one autopan step and the gesture fusion, and the display-space
/// positions and render buffer are recomputed from the new camera, each
/// left unchanged where the exact arithmetic overflows.
pub open spec fn spec_rebuilt(o: GraphDisplay, n: GraphDisplay) -> bool {
    &&& (spec_gesture_active(o) ==> (n == (GraphDisplay {
        display_scale: spec_gesture_scale(spec_autopan_step(o)),
        display_offset: spec_gesture_offset(spec_autopan_step(o)),
        prev_touch: Some(o.current_touches.unwrap()@.last()),
        current_touches: n.current_touches,
        clipspace_locations: n.clipspace_locations,
        clipspace_vertices: n.clipspace_vertices,
        ..spec_autopan_step(o)
    }) && (n.current_touches matches Some(v) && v@.len() == 0)))
    &&& (!spec_gesture_active(o) ==> n == (GraphDisplay {
        clipspace_locations: n.clipspace_locations,
        clipspace_vertices: n.clipspace_vertices,
        ..spec_autopan_step(o)
    }))
    &&& ({
        let ar = spec_div(o.display_width, o.display_height);
        let locs = o.layout.node_locations;
        if ar is None {
            n.clipspace_locations == o.clipspace_locations && n.clipspace_vertices
                == o.clipspace_vertices
        } else if !locs.tc_all_fit(n.display_offset, n.display_scale, ar.unwrap()) {
            n.clipspace_locations == o.clipspace_locations && n.clipspace_vertices
                == o.clipspace_vertices
        } else {
            n.clipspace_locations.data@ == locs.tc_out(
                n.display_offset,
                n.display_scale,
                ar.unwrap(),
            ) && (if squares_all_fit(n.clipspace_locations, ar.unwrap(), o.square_half_width) {
                n.clipspace_vertices@ == spec_buffer(
                    n.clipspace_locations,
                    o.layout.node_targets.deep_view(),
                    ar.unwrap(),
                    o.square_half_width,
                )
            } else {
                n.clipspace_vertices == o.clipspace_vertices
            })
        }
    })
}

/// The graph as displayed: layout plus camera, gesture, and render state.
pub struct GraphDisplay {
    pub layout: GraphLayout,
    pub display_width: Ratio,
    pub display_height: Ratio,
    pub display_scale: Ratio,
    pub display_offset: Vector2,
    pub current_touches: Option<Vec<TouchSet>>,
    pub prev_touch: Option<TouchSet>,
    pub clipspace_locations: Points,
    pub clipspace_vertices: Vec<Ratio>,
    pub vertex_indices: Vec<u16>,
    pub autopanning: bool,
    pub autopan_dest: Vector2,
    pub square_half_width: Ratio,
}

impl GraphDisplay {
    pub open spec fn wf(self) -> bool {
        &&& self.layout.wf()
        &&& self.display_width.wf() && self.display_width.is_pos()
        &&& self.display_height.wf() && self.display_height.is_pos()
        &&& self.display_scale.wf() && self.display_scale.is_pos()
        &&& self.display_offset.wf()
        &&& self.autopan_dest.wf()
        &&& self.square_half_width.wf() && self.square_half_width.num >= 0
        &&& match self.current_touches {
            Some(v) => forall|i: int| 0 <= i < v@.len() ==> (#[trigger] v@[i]).wf(),
            None => true,
        }
        &&& match self.prev_touch {
            Some(t) => t.wf(),
            None => true,
        }
        &&& self.clipspace_locations.wf()
        &&& self.clipspace_locations.data@.len() % 2 == 0
        &&& self.clipspace_locations.data@.len() == 2 * self.layout.node_count()
        &&& index_prefix_ok(
            self.vertex_indices@,
            edge_pairs(self.layout.node_targets.deep_view()),
        )
        &&& forall|j: int|
            0 <= j < self.clipspace_vertices@.len() ==> (#[trigger] self.clipspace_vertices@[j]).wf()
    }

    /// The aspect ratio `width / height`.
    pub open spec fn spec_aspect(self) -> Option<Ratio> {
        spec_div(self.display_width, self.display_height)
    }

    pub fn new(layout: GraphLayout, display_width: Ratio, display_height: Ratio, display_scale: Ratio)
        -> (r: GraphDisplay)
        requires
            layout.wf(),
            layout.node_count() >= 1,
            display_width.wf() && display_width.is_pos(),
            display_height.wf() && display_height.is_pos(),
            display_scale.wf() && display_scale.is_pos(),
            spec_div(display_width, display_height) is Some,
            layout.node_locations.tc_all_fit(
                layout.node_locations.spec_point(0),
                display_scale,
                spec_div(display_width, display_height).unwrap(),
            ),
        ensures
            r.wf(),
            r.layout == layout,
            r.display_width == display_width,
            r.display_height == display_height,
            r.display_scale == display_scale,
            r.display_offset == layout.node_locations.spec_point(0),
            r.current_touches is None,
            r.prev_touch is None,
            r.autopanning == false,
            r.autopan_dest == r.display_offset,
            r.square_half_width == square_half_width_value(),
            r.vertex_indices@.len() == 0,
            r.clipspace_locations.data@ == layout.node_locations.tc_out(
                layout.node_locations.spec_point(0),
                display_scale,
                spec_div(display_width, display_height).unwrap(),
            ),
            r.clipspace_vertices@ == r.clipspace_locations.data@,
    {
        let aspect_ratio = match checked_div(display_width, display_height) {
            Some(a) => a,
            None => {
                proof {
                    assert(false);
                }
                Ratio::zero()
            },
        };
        let display_offset = layout.node_locations.get_point(0);
        let clipspace_locations = match layout.node_locations.to_clipspace(
            display_offset,
            &display_scale,
            &aspect_ratio,
        ) {
            Some(p) => p,
            None => {
                proof {
                    assert(false);
                }
                Points::new(Vec::new())
            },
        };
        let clipspace_vertices = clipspace_locations.get_data();
        let vertex_indices: Vec<u16> = Vec::new();
        GraphDisplay {
            layout,
            display_width,
            display_height,
            display_scale,
            display_offset,
            current_touches: None,
            prev_touch: None,
            clipspace_locations,
            clipspace_vertices,
            vertex_indices,
            autopanning: false,
            autopan_dest: display_offset,
            square_half_width: Ratio::new(1, 100),
        }
    }

    /// Read-only view of the render buffer for the current frame.
    pub fn get_vertices_ptr(&self) -> (r: &Vec<Ratio>)
        ensures
            r@ == self.clipspace_vertices@,
    {
        &self.clipspace_vertices
    }

    /// Read-only view of the edge index buffer for the current frame.
    pub fn get_vertex_indices_ptr(&self) -> (r: &Vec<u16>)
        ensures
            r@ == self.vertex_indices@,
    {
        &self.vertex_indices
    }

    pub fn get_vertex_indices_len(&self) -> (r: usize)
        ensures
            r == self.vertex_indices@.len(),
    {
        self.vertex_indices.len()
    }

    /// Total number of edges decoded so far.
    pub fn count_edges(&self) -> (r: usize)
        requires
            self.wf(),
        ensures
            r as int == edge_pairs(self.layout.node_targets.deep_view()).len(),
            r == self.layout.edges_loaded,
    {
        let ghost tv = self.layout.node_targets.deep_view();
        let n = self.layout.node_targets.len();
        let mut total: usize = 0;
        let mut s: usize = 0;
        proof {
            lemma_pairs_prefix(tv, 0, tv.len() as int);
        }
        while s < n
            invariant
                s <= n,
                n == tv.len(),
                tv == self.layout.node_targets.deep_view(),
                self.wf(),
                total as int == pairs_up_to(tv, s as int).len(),
                total <= self.layout.edges_loaded,
            decreases n - s,
        {
            proof {
                lemma_pairs_prefix(tv, s + 1, tv.len() as int);
                assert(pairs_up_to(tv, s + 1) == pairs_up_to(tv, s as int) + row_pairs(
                    tv[s as int],
                    s as int,
                ));
            }
            let row_len = self.layout.node_targets[s].len();
            total = total + row_len;
            s += 1;
        }
        total
    }

    /// Brings the edge index buffer up to date: new edge pairs are
    /// appended; pairs already written are left as they are.
    pub fn update_edges(&mut self)
        requires
            old(self).wf(),
            old(self).layout.edges_loaded <= usize::MAX / 2,
        ensures
            final(self).wf(),
            final(self).vertex_indices@ == index_flat(
                edge_pairs(old(self).layout.node_targets.deep_view()),
            ),
            *final(self) == (GraphDisplay { vertex_indices: final(self).vertex_indices, ..*old(self) }),
    {
        let ghost tv = self.layout.node_targets.deep_view();
        let edges_count = self.count_edges();
        let have = self.vertex_indices.len() / 2;
        if edges_count > have {
            let n = self.layout.node_targets.len();
            let mut seen: usize = 0;
            let mut s: usize = 0;
            while s < n
                invariant
                    s <= n,
                    n == tv.len(),
                    tv == self.layout.node_targets.deep_view(),
                    self.layout == old(self).layout,
                    self.layout.wf(),
                    st_wf(self.layout.st()),
                    self.layout.node_count() <= 0xffff,
                    have <= edges_count,
                    edges_count as int == edge_pairs(tv).len(),
                    edges_count <= usize::MAX / 2,
                    seen as int == pairs_up_to(tv, s as int).len(),
                    seen <= edges_count,
                    have * 2 == old(self).vertex_indices@.len(),
                    self.vertex_indices@.len() == if seen <= have {
                        old(self).vertex_indices@.len() as int
                    } else {
                        2 * seen as int
                    },
                    forall|j: int|
                        0 <= j < self.vertex_indices@.len() ==> self.vertex_indices@[j]
                            == index_flat(edge_pairs(tv))[j],
                    *self == (GraphDisplay {
                        vertex_indices: self.vertex_indices,
                        ..*old(self)
                    }),
                decreases n - s,
            {
                let row_len = self.layout.node_targets[s].len();
                let mut k: usize = 0;
                while k < row_len
                    invariant
                        k <= row_len,
                        s < n,
                        n == tv.len(),
                        tv == self.layout.node_targets.deep_view(),
                        self.layout == old(self).layout,
                        self.layout.wf(),
                        st_wf(self.layout.st()),
                        self.layout.node_count() <= 0xffff,
                        row_len == tv[s as int].len(),
                        have <= edges_count,
                        edges_count as int == edge_pairs(tv).len(),
                        edges_count <= usize::MAX / 2,
                        seen as int == pairs_up_to(tv, s as int).len() + k,
                        seen <= edges_count,
                        have * 2 == old(self).vertex_indices@.len(),
                        self.vertex_indices@.len() == if seen <= have {
                            old(self).vertex_indices@.len() as int
                        } else {
                            2 * seen as int
                        },
                        forall|j: int|
                            0 <= j < self.vertex_indices@.len() ==> self.vertex_indices@[j]
                                == index_flat(edge_pairs(tv))[j],
                        *self == (GraphDisplay {
                            vertex_indices: self.vertex_indices,
                            ..*old(self)
                        }),
                    decreases row_len - k,
                {
                    proof {
                        lemma_pairs_at(tv, s as int, k as int);
                    }
                    if seen >= have {
                        let t = self.layout.node_targets[s][k];
                        proof {
                            assert(tv[s as int][k as int] < self.layout.node_count());
                        }
                        let ghost p0 = pairs_up_to(tv, s as int).len() + k;
                        self.vertex_indices.push(s as u16);
                        proof {
                            assert(self.vertex_indices@[2 * p0] == index_flat(edge_pairs(tv))[2
                                * p0]);
                        }
                        self.vertex_indices.push(t as u16);
                        proof {
                            assert(self.vertex_indices@[2 * p0 + 1] == index_flat(edge_pairs(tv))[2
                                * p0 + 1]);
                        }
                    }
                    seen += 1;
                    k += 1;
                }
                proof {
                    assert(pairs_up_to(tv, s + 1) == pairs_up_to(tv, s as int) + row_pairs(
                        tv[s as int],
                        s as int,
                    ));
                }
                s += 1;
            }
            proof {
                assert(self.vertex_indices@ =~= index_flat(edge_pairs(tv)));
            }
        } else {
            proof {
                assert(self.vertex_indices@.len() == 2 * have);
                assert(self.vertex_indices@ =~= index_flat(edge_pairs(tv)));
            }
        }
    }

    pub fn update_display_size(&mut self, display_width: Ratio, display_height: Ratio)
        requires
            old(self).wf(),
            display_width.wf() && display_width.is_pos(),
            display_height.wf() && display_height.is_pos(),
        ensures
            final(self).wf(),
            *final(self) == (GraphDisplay {
                display_width,
                display_height,
                ..*old(self)
            }),
    {
        self.display_width = display_width;
        self.display_height = display_height;
    }

    /// Pans by a drag of `(x, y)` scaled with the pan rate; cancels any
    /// autopan in progress.
    pub fn pan(&mut self, x: Ratio, y: Ratio)
        requires
            old(self).wf(),
            x.wf(),
            y.wf(),
        ensures
            final(self).wf(),
            *final(self) == (GraphDisplay {
                autopanning: false,
                display_offset: spec_pan(
                    old(self).display_offset,
                    old(self).display_scale,
                    old(self).display_height,
                    x,
                    y,
                ),
                ..*old(self)
            }),
    {
        self.autopanning = false;
        let rate = match checked_div(Ratio::new(2, 1), self.display_scale) {
            Some(q) => match checked_div(q, self.display_height) {
                Some(r) => r,
                None => {
                    return ;
                },
            },
            None => {
                return ;
            },
        };
        match (checked_mul(x, rate), checked_mul(y, rate)) {
            (Some(dx), Some(dy)) => {
                match (checked_add(self.display_offset.x, dx), checked_add(
                    self.display_offset.y,
                    dy,
                )) {
                    (Some(nx), Some(ny)) => {
                        self.display_offset = Vector2 { x: nx, y: ny };
                    },
                    _ => {},
                }
            },
            _ => {},
        }
    }

    /// Multiplies the zoom scale by the fixed zoom ratio.
    pub fn zoom_in(&mut self)
        requires
            old(self).wf(),
        ensures
            final(self).wf(),
            *final(self) == (GraphDisplay {
                display_scale: spec_zoom_in(old(self).display_scale),
                ..*old(self)
            }),
    {
        let ghost old_scale = self.display_scale;
        match checked_mul(self.display_scale, Ratio::new(5, 4)) {
            Some(s) => {
                proof {
                    assert(old_scale.num * 5 >= 1) by (nonlinear_arith)
                        requires
                            old_scale.num >= 1,
                    ;
                    crate::ratio::lemma_den_prod(old_scale.den as int, 4);
                    crate::ratio::lemma_norm_frac(
                        old_scale.num * 5,
                        old_scale.den * 4,
                        s,
                    );
                }
                self.display_scale = s;
            },
            None => {},
        }
    }

    /// Divides the zoom scale by the fixed zoom ratio.
    pub fn zoom_out(&mut self)
        requires
            old(self).wf(),
        ensures
            final(self).wf(),
            *final(self) == (GraphDisplay {
                display_scale: spec_zoom_out(old(self).display_scale),
                ..*old(self)
            }),
    {
        let ghost old_scale = self.display_scale;
        match checked_div(self.display_scale, Ratio::new(5, 4)) {
            Some(s) => {
                proof {
                    assert(old_scale.num * 4 >= 1) by (nonlinear_arith)
                        requires
                            old_scale.num >= 1,
                    ;
                    crate::ratio::lemma_den_prod(old_scale.den as int, 5);
                    crate::ratio::lemma_norm_frac(
                        old_scale.num * 4,
                        old_scale.den * 5,
                        s,
                    );
                }
                self.display_scale = s;
            },
            None => {},
        }
    }

    /// Begins a gesture session with its first sample; cancels autopan.
    pub fn touch_start(&mut self, touch: TouchSet)
        requires
            old(self).wf(),
            touch.wf(),
        ensures
            final(self).wf(),
            final(self).autopanning == false,
            final(self).prev_touch is None,
            final(self).current_touches matches Some(v) && v@.len() == 1 && v@[0] == touch,
            *final(self) == (GraphDisplay {
                autopanning: false,
                prev_touch: None,
                current_touches: final(self).current_touches,
                ..*old(self)
            }),
    {
        self.autopanning = false;
        self.prev_touch = None;
        let mut v: Vec<TouchSet> = Vec::new();
        v.push(touch);
        self.current_touches = Some(v);
    }

    /// Appends a sample to the gesture session in progress.
    pub fn touch_move(&mut self, touch: TouchSet)
        requires
            old(self).wf(),
            touch.wf(),
            old(self).current_touches is Some,
        ensures
            final(self).wf(),
            final(self).current_touches matches Some(v) && v@ == old(
                self,
            ).current_touches.unwrap()@.push(touch),
            *final(self) == (GraphDisplay {
                current_touches: final(self).current_touches,
                ..*old(self)
            }),
    {
        match &mut self.current_touches {
            Some(v) => {
                v.push(touch);
            },
            None => {
                proof {
                    assert(false);
                }
            },
        }
    }

    /// Records a node's layout position as the autopan target and arms
    /// autopan.
    pub fn autopan(&mut self, node_id: usize)
        requires
            old(self).wf(),
            node_id < old(self).layout.node_count(),
        ensures
            final(self).wf(),
            *final(self) == (GraphDisplay {
                autopanning: true,
                autopan_dest: old(self).layout.node_locations.spec_point(node_id as int),
                ..*old(self)
            }),
    {
        self.autopan_dest = self.layout.node_locations.get_point(node_id);
        self.autopanning = true;
    }

    pub fn autopan_in_progress(&self) -> (r: bool)
        ensures
            r == self.autopanning,
    {
        self.autopanning
    }

    /// Decodes one chunk of the edge stream (see
    /// [`GraphLayout::load_edges`]); display state other than the layout
    /// is untouched, and index pairs already written keep their positions.
    pub fn load_edges(&mut self, chunk: &Vec<u8>)
        requires
            old(self).wf(),
            decode_bytes(old(self).layout.st(), chunk@) is Some,
            old(self).layout.loading_node_index + chunk@.len() <= usize::MAX,
            old(self).layout.edges_loaded + chunk@.len() <= usize::MAX,
        ensures
            final(self).wf(),
            Some(final(self).layout.st()) == decode_bytes(old(self).layout.st(), chunk@),
            final(self).layout.node_count() == old(self).layout.node_count(),
            final(self).layout.node_locations == old(self).layout.node_locations,
            *final(self) == (GraphDisplay { layout: final(self).layout, ..*old(self) }),
    {
        proof {
            lemma_decode_pairs(self.layout.st(), chunk@);
        }
        self.layout.load_edges(chunk);
        proof {
            let oldp = edge_pairs(old(self).layout.node_targets.deep_view());
            let newp = edge_pairs(self.layout.node_targets.deep_view());
            assert forall|j: int| 0 <= j < self.vertex_indices@.len() implies self.vertex_indices@[j]
                == index_flat(newp)[j] by {
                assert(oldp[j / 2] == newp[j / 2]);
            }
        }
    }

    /// One camera frame: advance any autopan toward its target, then fuse
    /// the gesture samples delivered since the last frame into zoom and
    /// pan, carrying the last sample forward.
    #[verifier::rlimit(80)]
    fn update_display(&mut self)
        requires
            old(self).wf(),
        ensures
            final(self).wf(),
            spec_gesture_active(*old(self)) ==> (*final(self) == (GraphDisplay {
                display_scale: spec_gesture_scale(spec_autopan_step(*old(self))),
                display_offset: spec_gesture_offset(spec_autopan_step(*old(self))),
                prev_touch: Some(old(self).current_touches.unwrap()@.last()),
                current_touches: final(self).current_touches,
                ..spec_autopan_step(*old(self))
            }) && (final(self).current_touches matches Some(v) && v@.len() == 0)),
            !spec_gesture_active(*old(self)) ==> *final(self) == spec_autopan_step(*old(self)),
    {
        let ghost d0 = *self;

        // Autopan toward the recorded target.
        if self.autopanning {
            let rate_opt = match checked_div(Ratio::new(2, 1), self.display_scale) {
                Some(q) => match checked_div(q, self.display_height) {
                    Some(r0) => checked_mul(r0, Ratio::new(512, 1)),
                    None => None,
                },
                None => None,
            };
            match rate_opt {
                None => {},
                Some(rate) => match v_sub(self.autopan_dest, self.display_offset) {
                    None => {},
                    Some(diff) => match diff.magnitude() {
                        None => {},
                        Some(mag) => {
                            if crate::ratio::le(&mag, &rate) {
                                self.display_offset = self.autopan_dest;
                                self.autopanning = false;
                            } else {
                                match checked_div(rate, mag) {
                                    None => {},
                                    Some(frac0) => match crate::ratio::quantize(frac0) {
                                        None => {},
                                        Some(frac) => match v_scale(diff, frac) {
                                            None => {},
                                            Some(step) => match v_add(
                                                self.display_offset,
                                                step,
                                            ) {
                                                None => {},
                                                Some(no) => {
                                                    match (
                                                        crate::ratio::quantize(no.x),
                                                        crate::ratio::quantize(no.y),
                                                    ) {
                                                        (Some(qx), Some(qy)) => {
                                                            self.display_offset = Vector2 {
                                                                x: qx,
                                                                y: qy,
                                                            };
                                                        },
                                                        _ => {},
                                                    }
                                                },
                                            },
                                        },
                                    },
                                }
                            }
                        },
                    },
                },
            }
        }
        proof {
            assert(*self == spec_autopan_step(d0));
        }
        let ghost mid = *self;

        // Gesture fusion over the samples of this frame.
        let active = match (&self.current_touches, &self.prev_touch) {
            (Some(c), Some(_)) => c.len() >= 1,
            (Some(c), None) => c.len() >= 2,
            (None, _) => false,
        };
        proof {
            assert(spec_combined(d0) == spec_combined(mid));
            assert(active == spec_gesture_active(d0));
        }
        if !active {
            return ;
        }
        let mut cur_opt: Option<Vec<TouchSet>> = Some(Vec::new());
        std::mem::swap(&mut cur_opt, &mut self.current_touches);
        let mut prev_opt: Option<TouchSet> = None;
        std::mem::swap(&mut prev_opt, &mut self.prev_touch);
        let mut touches: Vec<TouchSet> = match cur_opt {
            Some(c) => c,
            None => {
                proof {
                    assert(false);
                }
                Vec::new()
            },
        };
        let ghost cur_view = touches@;
        match prev_opt {
            Some(p) => {
                touches.insert(0, p);
            },
            None => {},
        }
        let ghost tsv = touches_view(touches@);
        proof {
            assert(tsv =~= spec_combined(d0));
            assert(touches@.last() == cur_view.last());
        }
        let n = touches.len();
        let ghost z = Ratio { num: 0i64, den: 1i64 };

        // Summed pinch signal, then one discrete zoom step by its sign.
        let mut pinch_acc = Ratio::zero();
        let mut pfailed = false;
        let mut k: usize = 0;
        while k < n - 1 && !pfailed
            invariant
                k <= n - 1,
                2 <= n,
                n == touches@.len(),
                tsv == touches_view(touches@),
                forall|j: int| 0 <= j < touches@.len() ==> (#[trigger] touches@[j]).wf(),
                pinch_acc.wf(),
                z == (Ratio { num: 0i64, den: 1i64 }),
                !pfailed ==> pinch_windows(tsv, k as int, Some(pinch_acc)) == pinch_windows(
                    tsv,
                    0,
                    Some(z),
                ),
                pfailed ==> pinch_windows(tsv, 0, Some(z)) is None,
            decreases n - k,
        {
            proof {
                assert(touches@[k as int].data@ == tsv[k as int]);
                assert(touches@[k + 1].data@ == tsv[k + 1]);
            }
            let r = crate::input::pinch_diff(&touches[k], &touches[k + 1]);
            let step = match r {
                Some(v) => checked_add(pinch_acc, v),
                None => None,
            };
            proof {
                assert(step == acc_add(Some(pinch_acc), spec_pinch(tsv[k as int], tsv[k + 1])));
            }
            match step {
                Some(na) => {
                    pinch_acc = na;
                },
                None => {
                    proof {
                        lemma_pinch_windows_none(tsv, k + 1);
                    }
                    pfailed = true;
                },
            }
            k += 1;
        }
        if !pfailed {
            proof {
                assert(pinch_windows(tsv, k as int, Some(pinch_acc)) == Some(pinch_acc));
            }
            if pinch_acc.num > 0 {
                self.zoom_in();
            } else if pinch_acc.num < 0 {
                self.zoom_out();
            }
        }
        proof {
            assert(self.display_scale == spec_gesture_scale(mid));
        }

        // Summed pan signal, flipped vertically and scaled by the pan
        // rate at the new zoom.
        let mut off_acc = Vector2 { x: Ratio::zero(), y: Ratio::zero() };
        let mut ofailed = false;
        let mut k2: usize = 0;
        let ghost zv = Vector2 { x: z, y: z };
        while k2 < n - 1 && !ofailed
            invariant
                k2 <= n - 1,
                2 <= n,
                n == touches@.len(),
                tsv == touches_view(touches@),
                forall|j: int| 0 <= j < touches@.len() ==> (#[trigger] touches@[j]).wf(),
                off_acc.wf(),
                z == (Ratio { num: 0i64, den: 1i64 }),
                zv == (Vector2 { x: z, y: z }),
                !ofailed ==> offset_windows(tsv, k2 as int, Some(off_acc)) == offset_windows(
                    tsv,
                    0,
                    Some(zv),
                ),
                ofailed ==> offset_windows(tsv, 0, Some(zv)) is None,
            decreases n - k2,
        {
            proof {
                assert(touches@[k2 as int].data@ == tsv[k2 as int]);
                assert(touches@[k2 + 1].data@ == tsv[k2 + 1]);
            }
            let r = crate::input::touch_offset(&touches[k2], &touches[k2 + 1]);
            let step = match r {
                Some(v) => v_add(off_acc, v),
                None => None,
            };
            proof {
                assert(step == v_acc_add(
                    Some(off_acc),
                    spec_touch_offset(tsv[k2 as int], tsv[k2 + 1]),
                ));
            }
            match step {
                Some(na) => {
                    off_acc = na;
                },
                None => {
                    proof {
                        lemma_offset_windows_none(tsv, k2 + 1);
                    }
                    ofailed = true;
                },
            }
            k2 += 1;
        }
        if !ofailed {
            proof {
                assert(offset_windows(tsv, k2 as int, Some(off_acc)) == Some(off_acc));
            }
            let flip = off_acc.flip_y();
            let rate_opt = match checked_div(Ratio::new(2, 1), self.display_scale) {
                Some(q) => checked_div(q, self.display_height),
                None => None,
            };
            match rate_opt {
                None => {},
                Some(rate) => match v_scale(flip, rate) {
                    None => {},
                    Some(sc) => match v_add(self.display_offset, sc) {
                        None => {},
                        Some(no) => {
                            self.display_offset = no;
                        },
                    },
                },
            }
        }
        proof {
            assert(self.display_offset == spec_gesture_offset(mid));
        }

        // Carry the last sample into the next frame.
        match touches.pop() {
            Some(l) => {
                self.prev_touch = Some(l);
            },
            None => {
                proof {
                    assert(false);
                }
            },
        }
    }

    /// One frame: advance the camera (autopan and gestures), recompute the
    /// display-space node positions from the layout positions, and rebuild
    /// the render buffer of node squares and edge segments.  Positions and
    /// buffer are left as they were when the exact arithmetic overflows.
    pub fn update_clipspace_vertices(&mut self)
        requires
            old(self).wf(),
            12 * old(self).layout.node_count() + 4 * old(self).layout.edges_loaded <= usize::MAX,
        ensures
            final(self).wf(),
            spec_rebuilt(*old(self), *final(self)),
            spec_gesture_active(*old(self)) ==> (*final(self) == (GraphDisplay {
                display_scale: spec_gesture_scale(spec_autopan_step(*old(self))),
                display_offset: spec_gesture_offset(spec_autopan_step(*old(self))),
                prev_touch: Some(old(self).current_touches.unwrap()@.last()),
                current_touches: final(self).current_touches,
                clipspace_locations: final(self).clipspace_locations,
                clipspace_vertices: final(self).clipspace_vertices,
                ..spec_autopan_step(*old(self))
            }) && (final(self).current_touches matches Some(v) && v@.len() == 0)),
            !spec_gesture_active(*old(self)) ==> *final(self) == (GraphDisplay {
                clipspace_locations: final(self).clipspace_locations,
                clipspace_vertices: final(self).clipspace_vertices,
                ..spec_autopan_step(*old(self))
            }),
            ({
                let ar = spec_div(old(self).display_width, old(self).display_height);
                let locs = old(self).layout.node_locations;
                if ar is None {
                    final(self).clipspace_locations == old(self).clipspace_locations
                        && final(self).clipspace_vertices == old(self).clipspace_vertices
                } else if !locs.tc_all_fit(
                    final(self).display_offset,
                    final(self).display_scale,
                    ar.unwrap(),
                ) {
                    final(self).clipspace_locations == old(self).clipspace_locations
                        && final(self).clipspace_vertices == old(self).clipspace_vertices
                } else {
                    final(self).clipspace_locations.data@ == locs.tc_out(
                        final(self).display_offset,
                        final(self).display_scale,
                        ar.unwrap(),
                    ) && (if squares_all_fit(
                        final(self).clipspace_locations,
                        ar.unwrap(),
                        old(self).square_half_width,
                    ) {
                        final(self).clipspace_vertices@ == spec_buffer(
                            final(self).clipspace_locations,
                            old(self).layout.node_targets.deep_view(),
                            ar.unwrap(),
                            old(self).square_half_width,
                        )
                    } else {
                        final(self).clipspace_vertices == old(self).clipspace_vertices
                    })
                }
            }),
    {
        self.update_display();
        let ar = match checked_div(self.display_width, self.display_height) {
            None => {
                return ;
            },
            Some(a) => a,
        };
        match self.layout.node_locations.to_clipspace(
            self.display_offset,
            &self.display_scale,
            &ar,
        ) {
            None => {
                return ;
            },
            Some(pts) => {
                proof {
                    let tv = self.layout.node_targets.deep_view();
                    assert forall|si: int, kk: int|
                        0 <= si < self.layout.node_targets@.len() && 0 <= kk
                            < self.layout.node_targets@[si]@.len() implies (
                    self.layout.node_targets@[si]@[kk]) < self.layout.node_targets@.len() by {
                        assert(tv[si][kk] == self.layout.node_targets@[si]@[kk]);
                        assert(tv[si].len() == self.layout.node_targets@[si]@.len());
                        assert(tv[si][kk] < tv.len());
                    };
                    assert(6 * pts.data@.len() + 4 * edge_pairs(tv).len() <= usize::MAX);
                }
                match build_vertex_buffer(
                    &pts,
                    &self.layout.node_targets,
                    &ar,
                    &self.square_half_width,
                ) {
                    Some(buf) => {
                        self.clipspace_locations = pts;
                        self.clipspace_vertices = buf;
                    },
                    None => {
                        self.clipspace_locations = pts;
                    },
                }
            },
        }
    }

    /// The text-overlay bounds in display space, derived from the display
    /// width; `None` when the exact arithmetic overflows.
    pub open spec fn spec_page_bounds(w: Ratio) -> Option<Rect> {
        let one = Ratio { num: 1i64, den: 1i64 };
        let neg_one = Ratio { num: -1i64, den: 1i64 };
        let two = Ratio { num: 2i64, den: 1i64 };
        match spec_div(Ratio { num: 100i64, den: 1i64 }, w) {
            None => None,
            Some(q1) => match spec_mul(q1, two) {
                None => None,
                Some(m1) => match spec_sub(one, m1) {
                    None => None,
                    Some(trx) => match spec_div(Ratio { num: 35i64, den: 1i64 }, w) {
                        None => None,
                        Some(q2) => match spec_mul(q2, two) {
                            None => None,
                            Some(m2) => match spec_add(neg_one, m2) {
                                None => None,
                                Some(bly) => Some(
                                    Rect {
                                        bottom_left: Vector2 { x: neg_one, y: bly },
                                        top_right: Vector2 { x: trx, y: one },
                                    },
                                ),
                            },
                        },
                    },
                },
            },
        }
    }

    /// A display-space position mapped to pixel space:
    /// `x = ((loc.x + 1) / 2) * w`, `y = h - ((loc.y + 1) / 2) * h`.
    pub open spec fn spec_page_loc(loc: Vector2, w: Ratio, h: Ratio) -> Option<Vector2> {
        let one = Ratio { num: 1i64, den: 1i64 };
        let two = Ratio { num: 2i64, den: 1i64 };
        match spec_add(loc.x, one) {
            None => None,
            Some(x1) => match spec_div(x1, two) {
                None => None,
                Some(x2) => match spec_mul(x2, w) {
                    None => None,
                    Some(px) => match spec_add(loc.y, one) {
                        None => None,
                        Some(y1) => match spec_div(y1, two) {
                            None => None,
                            Some(y2) => match spec_mul(y2, h) {
                                None => None,
                                Some(y3) => match spec_sub(h, y3) {
                                    None => None,
                                    Some(py) => Some(Vector2 { x: px, y: py }),
                                },
                            },
                        },
                    },
                },
            },
        }
    }

    /// The pixel positions of the nodes among the first `i` whose
    /// display-space position lies inside `bounds`, in index order.
    pub open spec fn spec_pages_upto(p: Points, bounds: Rect, w: Ratio, h: Ratio, i: int) -> Option<
        Seq<(usize, Vector2)>,
    >
        decreases i,
    {
        if i <= 0 {
            Some(Seq::empty())
        } else {
            match Self::spec_pages_upto(p, bounds, w, h, i - 1) {
                None => None,
                Some(sq) => if bounds.spec_contains(p.spec_point(i - 1)) {
                    match Self::spec_page_loc(p.spec_point(i - 1), w, h) {
                        None => None,
                        Some(v) => Some(sq.push(((i - 1) as usize, v))),
                    }
                } else {
                    Some(sq)
                },
            }
        }
    }

    /// Once the pixel mapping has overflowed, it stays overflowed for any
    /// longer prefix.
    proof fn lemma_pages_none(p: Points, bounds: Rect, w: Ratio, h: Ratio, i: int, m: int)
        requires
            0 <= i <= m,
            Self::spec_pages_upto(p, bounds, w, h, i) is None,
        ensures
            Self::spec_pages_upto(p, bounds, w, h, m) is None,
        decreases m - i,
    {
        if i == m {
        } else {
            Self::lemma_pages_none(p, bounds, w, h, i, m - 1);
        }
    }

    /// Pixel positions for overlay labels: each node inside the text
    /// bounds, with its display-space position mapped to pixel space.
    /// `None` when the exact arithmetic overflows.
    pub fn get_visible_node_page_locations(&self) -> (r: Option<Vec<(usize, Vector2)>>)
        requires
            self.wf(),
        ensures
            Self::spec_page_bounds(self.display_width) is None ==> r is None,
            Self::spec_page_bounds(self.display_width) matches Some(b) ==> {
                let ps = Self::spec_pages_upto(
                    self.clipspace_locations,
                    b,
                    self.display_width,
                    self.display_height,
                    self.layout.node_count(),
                );
                &&& (ps is None ==> r is None)
                &&& (ps matches Some(sq) ==> (r matches Some(v) && v@ == sq))
            },
    {
        let one = Ratio::new(1, 1);
        let neg_one = Ratio::new(-1, 1);
        let two = Ratio::new(2, 1);
        let bounds = match checked_div(Ratio::new(100, 1), self.display_width) {
            None => {
                return None;
            },
            Some(q1) => match checked_mul(q1, two) {
                None => {
                    return None;
                },
                Some(m1) => match checked_sub(one, m1) {
                    None => {
                        return None;
                    },
                    Some(trx) => match checked_div(Ratio::new(35, 1), self.display_width) {
                        None => {
                            return None;
                        },
                        Some(q2) => match checked_mul(q2, two) {
                            None => {
                                return None;
                            },
                            Some(m2) => match checked_add(neg_one, m2) {
                                None => {
                                    return None;
                                },
                                Some(bly) => Rect {
                                    bottom_left: Vector2 { x: neg_one, y: bly },
                                    top_right: Vector2 { x: trx, y: one },
                                },
                            },
                        },
                    },
                },
            },
        };
        proof {
            assert(Some(bounds) == Self::spec_page_bounds(self.display_width));
        }
        let n = self.layout.node_targets.len();
        let mut out: Vec<(usize, Vector2)> = Vec::new();
        let mut i: usize = 0;
        while i < n
            invariant
                i <= n,
                self.wf(),
                bounds.wf(),
                n == self.layout.node_count(),
                one == (Ratio { num: 1i64, den: 1i64 }),
                two == (Ratio { num: 2i64, den: 1i64 }),
                Some(bounds) == Self::spec_page_bounds(self.display_width),
                Some(out@) == Self::spec_pages_upto(
                    self.clipspace_locations,
                    bounds,
                    self.display_width,
                    self.display_height,
                    i as int,
                ),
            decreases n - i,
        {
            let loc = self.clipspace_locations.get_point(i);
            if bounds.contains(loc) {
                let pl = {
                    match checked_add(loc.x, one) {
                        None => None,
                        Some(x1) => match checked_div(x1, two) {
                            None => None,
                            Some(x2) => match checked_mul(x2, self.display_width) {
                                None => None,
                                Some(px) => match checked_add(loc.y, one) {
                                    None => None,
                                    Some(y1) => match checked_div(y1, two) {
                                        None => None,
                                        Some(y2) => match checked_mul(y2, self.display_height) {
                                            None => None,
                                            Some(y3) => match checked_sub(
                                                self.display_height,
                                                y3,
                                            ) {
                                                None => None,
                                                Some(py) => Some(Vector2 { x: px, y: py }),
                                            },
                                        },
                                    },
                                },
                            },
                        },
                    }
                };
                proof {
                    assert(pl == Self::spec_page_loc(
                        self.clipspace_locations.spec_point(i as int),
                        self.display_width,
                        self.display_height,
                    ));
                }
                match pl {
                    None => {
                        proof {
                            assert(Self::spec_pages_upto(
                                self.clipspace_locations,
                                bounds,
                                self.display_width,
                                self.display_height,
                                i + 1,
                            ) is None);
                            Self::lemma_pages_none(
                                self.clipspace_locations,
                                bounds,
                                self.display_width,
                                self.display_height,
                                i + 1,
                                n as int,
                            );
                        }
                        return None;
                    },
                    Some(v) => {
                        out.push((i, v));
                    },
                }
            }
            i += 1;
        }
        Some(out)
    }

    /// The node at `i` lies strictly inside `rect` in display space.
    pub open spec fn spec_inside(self, rect: Rect, i: int) -> bool {
        rect.spec_contains(self.clipspace_locations.spec_point(i))
    }

    /// Membership in the culling result: inside the rectangle, or a direct
    /// source or target of a node inside it.
    pub open spec fn spec_visible(self, rect: Rect, j: usize) -> bool {
        &&& (j as int) < self.layout.node_count()
        &&& (self.spec_inside(rect, j as int) || exists|i: int|
            0 <= i < self.layout.node_count() && #[trigger] self.spec_inside(rect, i) && (
            self.layout.node_targets@[i]@.contains(j)
                || self.layout.node_sources@[i]@.contains(j)))
    }

    /// The set of nodes to draw for a display-space rectangle: every node
    /// strictly inside it, together with the direct sources and targets of
    /// those nodes, each index listed once.
    pub fn visible_nodes(&self, rect: &Rect) -> (out: Vec<usize>)
        requires
            self.wf(),
            rect.wf(),
        ensures
            forall|j: usize| #[trigger] out@.contains(j) <==> self.spec_visible(*rect, j),
            forall|p: int, q: int| 0 <= p < q < out@.len() ==> out@[p] != out@[q],
    {
        let n = self.layout.node_targets.len();
        let mut inside: Vec<bool> = Vec::new();
        let mut i: usize = 0;
        while i < n
            invariant
                i <= n,
                self.wf(),
                rect.wf(),
                n == self.layout.node_count(),
                inside@.len() == i,
                forall|k: int| 0 <= k < i ==> inside@[k] == self.spec_inside(*rect, k),
            decreases n - i,
        {
            let pt = self.clipspace_locations.get_point(i);
            inside.push(rect.contains(pt));
            i += 1;
        }

        let mut out: Vec<usize> = Vec::new();
        let mut i2: usize = 0;
        while i2 < n
            invariant
                i2 <= n,
                self.wf(),
                rect.wf(),
                n == self.layout.node_count(),
                inside@.len() == n,
                forall|k: int| 0 <= k < n ==> inside@[k] == self.spec_inside(*rect, k),
                forall|j: usize| #[trigger] out@.contains(j) ==> self.spec_visible(*rect, j),
                forall|p: int, q: int| 0 <= p < q < out@.len() ==> out@[p] != out@[q],
                forall|j: usize|
                    (j as int) < i2 && self.spec_inside(*rect, j as int) ==> out@.contains(j),
                forall|ip: int, k: int|
                    0 <= ip < i2 && self.spec_inside(*rect, ip) && 0 <= k
                        < self.layout.node_targets@[ip]@.len() ==> out@.contains(
                        #[trigger] self.layout.node_targets@[ip]@[k],
                    ),
                forall|ip: int, k: int|
                    0 <= ip < i2 && self.spec_inside(*rect, ip) && 0 <= k
                        < self.layout.node_sources@[ip]@.len() ==> out@.contains(
                        #[trigger] self.layout.node_sources@[ip]@[k],
                    ),
            decreases n - i2,
        {
            if inside[i2] {
                proof {
                    assert(self.spec_visible(*rect, i2));
                }
                push_unique(&mut out, i2);
                let trow = self.layout.node_targets[i2].len();
                let mut k: usize = 0;
                while k < trow
                    invariant
                        k <= trow,
                        i2 < n,
                        self.wf(),
                        rect.wf(),
                        n == self.layout.node_count(),
                        trow == self.layout.node_targets@[i2 as int]@.len(),
                        self.spec_inside(*rect, i2 as int),
                        forall|j: usize| #[trigger] out@.contains(j) ==> self.spec_visible(
                            *rect,
                            j,
                        ),
                        forall|p: int, q: int| 0 <= p < q < out@.len() ==> out@[p] != out@[q],
                        forall|j: usize|
                            (j as int) < i2 && self.spec_inside(*rect, j as int) ==> out@.contains(
                                j,
                            ),
                        out@.contains(i2),
                        forall|ip: int, kk: int|
                            0 <= ip < i2 && self.spec_inside(*rect, ip) && 0 <= kk
                                < self.layout.node_targets@[ip]@.len() ==> out@.contains(
                                #[trigger] self.layout.node_targets@[ip]@[kk],
                            ),
                        forall|ip: int, kk: int|
                            0 <= ip < i2 && self.spec_inside(*rect, ip) && 0 <= kk
                                < self.layout.node_sources@[ip]@.len() ==> out@.contains(
                                #[trigger] self.layout.node_sources@[ip]@[kk],
                            ),
                        forall|kk: int|
                            0 <= kk < k ==> out@.contains(
                                #[trigger] self.layout.node_targets@[i2 as int]@[kk],
                            ),
                    decreases trow - k,
                {
                    let t = self.layout.node_targets[i2][k];
                    proof {
                        let tv = self.layout.node_targets.deep_view();
                        assert(tv[i2 as int][k as int] == t);
                        assert(t < self.layout.node_count());
                        assert(self.layout.node_targets@[i2 as int]@.contains(t));
                        assert(self.spec_visible(*rect, t));
                    }
                    push_unique(&mut out, t);
                    k += 1;
                }
                let srow = self.layout.node_sources[i2].len();
                let mut k2: usize = 0;
                while k2 < srow
                    invariant
                        k2 <= srow,
                        i2 < n,
                        self.wf(),
                        rect.wf(),
                        n == self.layout.node_count(),
                        srow == self.layout.node_sources@[i2 as int]@.len(),
                        self.spec_inside(*rect, i2 as int),
                        forall|j: usize| #[trigger] out@.contains(j) ==> self.spec_visible(
                            *rect,
                            j,
                        ),
                        forall|p: int, q: int| 0 <= p < q < out@.len() ==> out@[p] != out@[q],
                        forall|j: usize|
                            (j as int) < i2 && self.spec_inside(*rect, j as int) ==> out@.contains(
                                j,
                            ),
                        out@.contains(i2),
                        forall|ip: int, kk: int|
                            0 <= ip < i2 && self.spec_inside(*rect, ip) && 0 <= kk
                                < self.layout.node_targets@[ip]@.len() ==> out@.contains(
                                #[trigger] self.layout.node_targets@[ip]@[kk],
                            ),
                        forall|ip: int, kk: int|
                            0 <= ip < i2 && self.spec_inside(*rect, ip) && 0 <= kk
                                < self.layout.node_sources@[ip]@.len() ==> out@.contains(
                                #[trigger] self.layout.node_sources@[ip]@[kk],
                            ),
                        forall|kk: int|
                            0 <= kk < self.layout.node_targets@[i2 as int]@.len()
                                ==> out@.contains(
                                #[trigger] self.layout.node_targets@[i2 as int]@[kk],
                            ),
                        forall|kk: int|
                            0 <= kk < k2 ==> out@.contains(
                                #[trigger] self.layout.node_sources@[i2 as int]@[kk],
                            ),
                    decreases srow - k2,
                {
                    let t = self.layout.node_sources[i2][k2];
                    proof {
                        let sv = self.layout.node_sources.deep_view();
                        assert(sv[i2 as int][k2 as int] == t);
                        assert(t < self.layout.node_count());
                        assert(self.layout.node_sources@[i2 as int]@.contains(t));
                        assert(self.spec_visible(*rect, t));
                    }
                    push_unique(&mut out, t);
                    k2 += 1;
                }
            }
            i2 += 1;
        }
        proof {
            assert forall|j: usize| self.spec_visible(*rect, j) implies out@.contains(j) by {
                if !self.spec_inside(*rect, j as int) {
                    let i = choose|i: int|
                        0 <= i < self.layout.node_count() && #[trigger] self.spec_inside(*rect, i)
                            && (self.layout.node_targets@[i]@.contains(j)
                            || self.layout.node_sources@[i]@.contains(j));
                    if self.layout.node_targets@[i]@.contains(j) {
                        let k = choose|k: int|
                            0 <= k < self.layout.node_targets@[i]@.len()
                                && self.layout.node_targets@[i]@[k] == j;
                    } else {
                        let k = choose|k: int|
                            0 <= k < self.layout.node_sources@[i]@.len()
                                && self.layout.node_sources@[i]@[k] == j;
                    }
                }
            }
        }
        out
    }
}

/// Appends an index unless it is already present, keeping entries
/// distinct (stable de-duplication).
pub fn push_unique(v: &mut Vec<usize>, x: usize)
    requires
        forall|p: int, q: int| 0 <= p < q < old(v)@.len() ==> old(v)@[p] != old(v)@[q],
    ensures
        forall|j: usize| #[trigger] final(v)@.contains(j) <==> (old(v)@.contains(j) || j == x),
        forall|p: int, q: int| 0 <= p < q < final(v)@.len() ==> final(v)@[p] != final(v)@[q],
{
    if !contains_usize(v, x) {
        let ghost prev = v@;
        v.push(x);
        proof {
            assert(v@[v@.len() - 1] == x);
            assert forall|j: usize| #[trigger] v@.contains(j) implies (prev.contains(j) || j == x)
            by {
                let idx = choose|idx: int| 0 <= idx < v@.len() && v@[idx] == j;
                if idx < v@.len() - 1 {
                    assert(prev[idx] == j);
                }
            }
            assert forall|j: usize| (prev.contains(j) || j == x) implies v@.contains(j) by {
                if j == x {
                    assert(v@[v@.len() - 1] == j);
                } else {
                    let idx = choose|idx: int| 0 <= idx < prev.len() && prev[idx] == j;
                    assert(v@[idx] == j);
                }
            }
            assert forall|p: int, q: int| 0 <= p < q < v@.len() implies v@[p] != v@[q] by {
                if q == v@.len() - 1 {
                    if prev[p] == x {
                        assert(prev.contains(x));
                    }
                }
            }
        }
    }
}

/// Rebuilding with an idle camera is idempotent: when no autopan is in
/// progress and no gesture window of at least two samples is pending, a
/// frame update leaves the camera unchanged, so a second rebuild with no
/// intervening state change reads the same camera and layout and produces
/// the identical positions and render buffer.
pub proof fn lemma_rebuild_idempotent(d: GraphDisplay, d1: GraphDisplay, d2: GraphDisplay)
    requires
        d.wf(),
        !d.autopanning,
        !spec_gesture_active(d),
        spec_rebuilt(d, d1),
        spec_rebuilt(d1, d2),
    ensures
        d2.clipspace_locations.data@ == d1.clipspace_locations.data@,
        d2.clipspace_vertices@ == d1.clipspace_vertices@,
{
    assert(spec_autopan_step(d) == d);
    assert(d1 == (GraphDisplay {
        clipspace_locations: d1.clipspace_locations,
        clipspace_vertices: d1.clipspace_vertices,
        ..d
    }));
    assert(!d1.autopanning && d1.current_touches == d.current_touches && d1.prev_touch
        == d.prev_touch);
    assert(spec_combined(d1) == spec_combined(d));
    assert(spec_autopan_step(d1) == d1);
    assert(!spec_gesture_active(d1));
    assert(d2 == (GraphDisplay {
        clipspace_locations: d2.clipspace_locations,
        clipspace_vertices: d2.clipspace_vertices,
        ..d1
    }));
    let ar = spec_div(d.display_width, d.display_height);
    let locs = d.layout.node_locations;
    if ar is None {
    } else if !locs.tc_all_fit(d1.display_offset, d1.display_scale, ar.unwrap()) {
        assert(d2.display_offset == d1.display_offset && d2.display_scale == d1.display_scale);
    } else {
        assert(d1.clipspace_locations.data@ == locs.tc_out(
            d1.display_offset,
            d1.display_scale,
            ar.unwrap(),
        ));
        assert(d2.clipspace_locations.data@ == d1.clipspace_locations.data@);
        crate::vertex::lemma_buffer_congruence(
            d2.clipspace_locations,
            d1.clipspace_locations,
            d.layout.node_targets.deep_view(),
            ar.unwrap(),
            d.square_half_width,
        );
    }
}

/// Linear membership scan.
pub fn contains_usize(v: &Vec<usize>, x: usize) -> (r: bool)
    ensures
        r == v@.contains(x),
{
    let n = v.len();
    let mut i: usize = 0;
    while i < n
        invariant
            i <= n,
            n == v@.len(),
            forall|k: int| 0 <= k < i ==> v@[k] != x,
        decreases n - i,
    {
        if v[i] == x {
            return true;
        }
        i += 1;
    }
    proof {
        if v@.contains(x) {
            let k = choose|k: int| 0 <= k < v@.len() && v@[k] == x;
        }
    }
    false
}

} // verus!
