//! Tests for the camera (pan, zoom, autopan, gesture fusion), the render
//! and index buffers, the viewport culler, and the page-location query.

use graph_view::geometry::{Rect, Vector2};
use graph_view::input::{pinch_diff, touch_offset, TouchSet};
use graph_view::ratio::{eq_frac, Ratio};
use graph_view::GraphFacade;

fn rat(x: f32) -> Ratio {
    let mut num = x as f64;
    let mut den: i64 = 1;
    while num.fract() != 0.0 {
        num *= 2.0;
        den *= 2;
    }
    Ratio::new(num as i64, den)
}

fn vec2(x: f32, y: f32) -> Vector2 {
    Vector2::new(rat(x), rat(y))
}

fn to_f32(r: &Ratio) -> f32 {
    (r.num as f64 / r.den as f64) as f32
}

fn flat(points: &[(f32, f32)]) -> Vec<Ratio> {
    let mut v = Vec::new();
    for (x, y) in points {
        v.push(rat(*x));
        v.push(rat(*y));
    }
    v
}

fn touches(samples: &[(i32, f32, f32)]) -> TouchSet {
    let mut locs = Vec::new();
    let mut ids = Vec::new();
    for (id, x, y) in samples {
        ids.push(*id);
        locs.push(rat(*x));
        locs.push(rat(*y));
    }
    TouchSet::new(&locs, &ids)
}

/// Little-endian bytes of a token list.
fn bytes_of(tokens: &[u16]) -> Vec<u8> {
    let mut out = Vec::new();
    for t in tokens {
        out.push((t & 0xff) as u8);
        out.push((t >> 8) as u8);
    }
    out
}

#[test]
fn pinch_signal_for_spreading_touches() {
    // Two common touches move from distance 10 apart to distance 14: the
    // pinch signal is +4, which triggers one zoom-in step.
    let a = touches(&[(1, 0.0, 0.0), (2, 10.0, 0.0)]);
    let b = touches(&[(1, 0.0, 0.0), (2, 14.0, 0.0)]);
    let p = pinch_diff(&a, &b).expect("exact");
    assert_eq!((p.num, p.den), (4, 1));

    let mut f = GraphFacade::new(1, flat(&[(0.0, 0.0)]), rat(100.0), rat(100.0), rat(1.0));
    f.touch_start(a);
    f.touch_move(b);
    f.update_clipspace_vertices();
    assert!(eq_frac(&f.graph.display_scale, &Ratio::new(5, 4)));
}

#[test]
fn pinch_signal_for_contracting_touches_zooms_out() {
    let a = touches(&[(1, 0.0, 0.0), (2, 14.0, 0.0)]);
    let b = touches(&[(1, 0.0, 0.0), (2, 10.0, 0.0)]);
    let mut f = GraphFacade::new(1, flat(&[(0.0, 0.0)]), rat(100.0), rat(100.0), rat(1.0));
    f.touch_start(a);
    f.touch_move(b);
    f.update_clipspace_vertices();
    assert!(eq_frac(&f.graph.display_scale, &Ratio::new(4, 5)));
}

#[test]
fn touch_offset_is_mean_delta_of_common_touches() {
    let a = touches(&[(1, 0.0, 0.0), (2, 10.0, 0.0), (9, 50.0, 50.0)]);
    let b = touches(&[(1, 2.0, 0.0), (2, 12.0, 0.0), (8, -3.0, 1.0)]);
    let o = touch_offset(&a, &b).expect("exact");
    assert_eq!(to_f32(&o.x), -2.0);
    assert_eq!(to_f32(&o.y), 0.0);
}

#[test]
fn touch_offset_with_one_common_touch_is_zero() {
    let a = touches(&[(1, 0.0, 0.0), (2, 10.0, 0.0)]);
    let b = touches(&[(1, 5.0, 5.0), (3, 1.0, 1.0)]);
    let o = touch_offset(&a, &b).expect("exact");
    assert_eq!((o.x.num, o.y.num), (0, 0));
}

#[test]
fn touch_set_keeps_last_position_per_identifier() {
    let ts = touches(&[(7, 1.0, 2.0), (7, 3.0, 4.0)]);
    assert_eq!(ts.data.len(), 1);
    assert_eq!(ts.data[0].0, 7);
    assert_eq!(to_f32(&ts.data[0].1.x), 3.0);
    assert_eq!(to_f32(&ts.data[0].1.y), 4.0);
}

#[test]
fn pan_scales_inversely_with_zoom_and_height() {
    // pan rate is 2 / (scale * height) = 2 / 100, so a 50-pixel drag
    // moves the offset by one layout unit.
    let mut f = GraphFacade::new(1, flat(&[(0.0, 0.0)]), rat(100.0), rat(100.0), rat(1.0));
    f.pan(rat(50.0), rat(0.0));
    assert_eq!(to_f32(&f.graph.display_offset.x), 1.0);
    assert_eq!(to_f32(&f.graph.display_offset.y), 0.0);
    assert!(!f.graph.autopanning);
}

#[test]
fn zoom_round_trip_keeps_scale_value() {
    let mut f = GraphFacade::new(1, flat(&[(0.0, 0.0)]), rat(100.0), rat(100.0), rat(1.0));
    f.zoom_in();
    f.zoom_out();
    assert!(eq_frac(&f.graph.display_scale, &Ratio::new(1, 1)));
}

#[test]
fn autopan_snaps_when_target_is_close() {
    // autopan rate = (2 / (1 * 100)) * 512 = 10.24 per frame; the target
    // is 10 away, so one frame snaps exactly onto it and disarms.
    let mut f = GraphFacade::new(
        2,
        flat(&[(0.0, 0.0), (10.0, 0.0)]),
        rat(100.0),
        rat(100.0),
        rat(1.0),
    );
    f.autopan(1);
    assert!(f.graph.autopanning);
    f.update_clipspace_vertices();
    assert_eq!(to_f32(&f.graph.display_offset.x), 10.0);
    assert!(!f.graph.autopanning);
}

#[test]
fn autopan_moves_toward_distant_target() {
    // With height 10000 the frame travel is 0.1024 < 10: the camera moves
    // toward the target and stays armed.
    let mut f = GraphFacade::new(
        2,
        flat(&[(0.0, 0.0), (10.0, 0.0)]),
        rat(100.0),
        rat(10000.0),
        rat(1.0),
    );
    f.autopan(1);
    f.update_clipspace_vertices();
    assert!(f.graph.autopanning);
    assert_eq!(to_f32(&f.graph.display_offset.x), 0.1024);
    assert_eq!(to_f32(&f.graph.display_offset.y), 0.0);
}

#[test]
fn rebuild_twice_gives_identical_buffers() {
    // With an idle camera, rebuilding twice with no intervening state
    // change produces identical output.
    let mut f = GraphFacade::new(
        3,
        flat(&[(0.0, 0.0), (1.0, 1.0), (2.0, -1.0)]),
        rat(200.0),
        rat(100.0),
        rat(1.0),
    );
    f.load_edges(&bytes_of(&[1, 0xffff, 2, 0xffff]));
    f.update_edges();
    f.update_clipspace_vertices();
    let first: Vec<Ratio> = f.get_vertices_ptr().clone();
    let first_idx: Vec<u16> = f.get_vertex_indices_ptr().clone();
    f.update_clipspace_vertices();
    assert_eq!(f.get_vertices_ptr(), &first);
    assert_eq!(f.get_vertex_indices_ptr(), &first_idx);
}

#[test]
fn vertex_buffer_has_squares_then_segments() {
    let mut f = GraphFacade::new(
        2,
        flat(&[(0.0, 0.0), (1.0, 0.0)]),
        rat(100.0),
        rat(100.0),
        rat(1.0),
    );
    f.load_edges(&bytes_of(&[1, 0xffff]));
    f.update_clipspace_vertices();
    let buf = f.get_vertices_ptr();
    // 12 numbers per node, then 4 per edge.
    assert_eq!(buf.len(), 2 * 12 + 1 * 4);
    // The segment runs from node 0's position to node 1's position in
    // display space: (0,0) and (1,0).
    let seg: Vec<f32> = buf[24..28].iter().map(to_f32).collect();
    assert_eq!(seg, vec![0.0, 0.0, 1.0, 0.0]);
    // Node 0's square is centred on (0,0) with half-widths 0.01 on both
    // axes (aspect ratio 1): top-left first.
    let tl: Vec<f32> = buf[0..2].iter().map(to_f32).collect();
    assert_eq!(tl, vec![-0.01, 0.01]);
}

#[test]
fn index_buffer_pairs_nodes_per_edge() {
    let mut f = GraphFacade::new(
        3,
        flat(&[(0.0, 0.0), (1.0, 1.0), (2.0, -1.0)]),
        rat(200.0),
        rat(100.0),
        rat(1.0),
    );
    f.load_edges(&bytes_of(&[1, 2, 0xffff, 2, 0xffff]));
    f.update_edges();
    assert_eq!(f.get_vertex_indices_ptr(), &vec![0u16, 1, 0, 2, 1, 2]);
    assert_eq!(f.get_vertex_indices_len(), 6);
    // Growth is append-only: loading more edges extends the buffer and
    // keeps the existing pairs.
    f.load_edges(&bytes_of(&[0, 0xffff]));
    f.update_edges();
    assert_eq!(f.get_vertex_indices_ptr(), &vec![0u16, 1, 0, 2, 1, 2, 2, 0]);
}

#[test]
fn visible_nodes_includes_neighbors_of_contained_node() {
    // A 3-node chain 0 -> 1 -> 2 where only node 1 lies inside the
    // rectangle: the result is {0, 1, 2}.
    let mut f = GraphFacade::new(
        3,
        flat(&[(5.0, 0.0), (5.5, 0.5), (7.0, 3.0)]),
        rat(100.0),
        rat(100.0),
        rat(1.0),
    );
    f.load_edges(&bytes_of(&[1, 0xffff, 2, 0xffff]));
    let rect = Rect::new(vec2(0.1, 0.1), vec2(1.0, 1.0));
    let mut out = f.visible_nodes(&rect);
    out.sort();
    assert_eq!(out, vec![0, 1, 2]);
}

#[test]
fn visible_nodes_empty_when_nothing_contained() {
    let f = GraphFacade::new(
        2,
        flat(&[(5.0, 0.0), (9.0, 9.0)]),
        rat(100.0),
        rat(100.0),
        rat(1.0),
    );
    let rect = Rect::new(vec2(0.1, 0.1), vec2(1.0, 1.0));
    let out = f.visible_nodes(&rect);
    assert!(out.is_empty());
}

#[test]
fn page_locations_map_display_to_pixels() {
    // A node at the display-space origin maps to the centre of a
    // 400 x 400 viewport.
    let f = GraphFacade::new(1, flat(&[(3.0, 4.0)]), rat(400.0), rat(400.0), rat(1.0));
    let pages = f.get_visible_node_page_locations().expect("exact");
    assert_eq!(pages.len(), 1);
    assert_eq!(pages[0].0, 0);
    assert_eq!(to_f32(&pages[0].1.x), 200.0);
    assert_eq!(to_f32(&pages[0].1.y), 200.0);
}

#[test]
fn touch_start_resets_the_gesture_session() {
    let mut f = GraphFacade::new(1, flat(&[(0.0, 0.0)]), rat(100.0), rat(100.0), rat(1.0));
    f.autopan(0);
    f.touch_start(touches(&[(1, 0.0, 0.0)]));
    assert!(!f.graph.autopanning);
    assert!(f.graph.prev_touch.is_none());
    match &f.graph.current_touches {
        Some(v) => assert_eq!(v.len(), 1),
        None => panic!("session should exist"),
    }
}

#[test]
fn repeated_pans_keep_taking_effect() {
    // Reduced arithmetic keeps the offset denominator on the input grid,
    // so every pan in a long sequence moves the camera.
    let mut f = GraphFacade::new(1, flat(&[(0.0, 0.0)]), rat(1024.0), rat(768.0), rat(1.0));
    // pan rate = 2 / (1 * 768) = 1 / 384
    for k in 1..=12 {
        f.pan(rat(1.0), rat(0.0));
        assert_eq!(
            to_f32(&f.graph.display_offset.x),
            (k as f64 / 384.0) as f32,
            "pan {} must move the camera",
            k
        );
    }
    assert_eq!((f.graph.display_offset.x.num, f.graph.display_offset.x.den), (1, 32));
}

#[test]
fn repeated_fractional_pans_keep_taking_effect() {
    let mut f = GraphFacade::new(1, flat(&[(0.0, 0.0)]), rat(1024.0), rat(768.0), rat(1.0));
    for _ in 0..12 {
        f.pan(rat(1.5), rat(-0.5));
    }
    // 12 * (1.5 / 384) = 3/64 and 12 * (-0.5 / 384) = -1/64.
    assert_eq!(to_f32(&f.graph.display_offset.x), 0.046875);
    assert_eq!(to_f32(&f.graph.display_offset.y), -0.015625);
}

#[test]
fn autopan_keeps_moving_on_later_frames() {
    // Each frame travels 0.1024 toward the target; the second and later
    // frames make the same progress as the first.
    let mut f = GraphFacade::new(
        2,
        flat(&[(0.0, 0.0), (10.0, 0.0)]),
        rat(100.0),
        rat(10000.0),
        rat(1.0),
    );
    f.autopan(1);
    f.update_clipspace_vertices();
    assert_eq!(to_f32(&f.graph.display_offset.x), 0.1024);
    f.update_clipspace_vertices();
    assert_eq!(to_f32(&f.graph.display_offset.x), 0.2048);
    f.update_clipspace_vertices();
    assert_eq!(to_f32(&f.graph.display_offset.x), 0.3072);
    assert!(f.graph.autopanning);
}

#[test]
fn autopan_completes_and_snaps_onto_target() {
    // Frame travel 0.1024 over a distance of 10: autopan finishes within
    // ceil(10 / 0.1024) + 1 frames, snapping exactly onto the target.
    let mut f = GraphFacade::new(
        2,
        flat(&[(0.0, 0.0), (10.0, 0.0)]),
        rat(100.0),
        rat(10000.0),
        rat(1.0),
    );
    f.autopan(1);
    let mut frames = 0;
    while f.graph.autopan_in_progress() && frames < 200 {
        f.update_clipspace_vertices();
        frames += 1;
    }
    assert!(!f.graph.autopan_in_progress());
    assert!(frames <= 99, "took {} frames", frames);
    assert_eq!(to_f32(&f.graph.display_offset.x), 10.0);
    assert_eq!(to_f32(&f.graph.display_offset.y), 0.0);
}

#[test]
fn autopan_completes_on_a_diagonal() {
    // A diagonal run exercises the floor square root and the grid
    // quantization; the offset denominator stays bounded by the grid and
    // the camera still snaps exactly onto the target.
    let mut f = GraphFacade::new(
        2,
        flat(&[(0.0, 0.0), (1.0, 1.0)]),
        rat(100.0),
        rat(10000.0),
        rat(1.0),
    );
    f.autopan(1);
    let mut frames = 0;
    while f.graph.autopan_in_progress() && frames < 500 {
        f.update_clipspace_vertices();
        assert!(f.graph.display_offset.x.den <= 1 << 20);
        assert!(f.graph.display_offset.y.den <= 1 << 20);
        frames += 1;
    }
    assert!(!f.graph.autopan_in_progress(), "still {} away after {} frames", 0, frames);
    assert_eq!(to_f32(&f.graph.display_offset.x), 1.0);
    assert_eq!(to_f32(&f.graph.display_offset.y), 1.0);
}

#[test]
fn zoom_toggles_cancel_exactly() {
    // Reduced arithmetic makes a zoom-in / zoom-out pair the exact
    // identity, for any number of toggles.
    let mut f = GraphFacade::new(1, flat(&[(0.0, 0.0)]), rat(100.0), rat(100.0), rat(1.0));
    for _ in 0..50 {
        f.zoom_in();
        f.zoom_out();
    }
    assert_eq!((f.graph.display_scale.num, f.graph.display_scale.den), (1, 1));
}

#[test]
fn many_zoom_steps_keep_taking_effect() {
    // Monotone zooming carries exact powers of 5/4; every step up to the
    // capacity of the reduced components takes effect.
    let mut f = GraphFacade::new(1, flat(&[(0.0, 0.0)]), rat(100.0), rat(100.0), rat(1.0));
    let mut num: i64 = 1;
    let mut den: i64 = 1;
    for _ in 0..26 {
        f.zoom_in();
        num *= 5;
        den *= 4;
        assert_eq!((f.graph.display_scale.num, f.graph.display_scale.den), (num, den));
    }
}
