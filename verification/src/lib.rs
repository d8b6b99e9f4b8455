//! Core of a 2-D graph viewer: an incremental edge-stream decoder, exact
//! coordinate arithmetic, a camera with pan/zoom/autopan and multi-touch
//! gestures, a vertex-buffer builder, and a viewport culling query.
//!
//! Coordinates and camera parameters are exact rational numbers
//! ([`ratio::Ratio`]); the host converts to and from its own numeric types
//! at the boundary.

pub mod display;
pub mod geometry;
pub mod graph;
pub mod input;
pub mod ratio;
pub mod vertex;

use vstd::prelude::*;

use crate::display::{spec_pan, spec_zoom_in, spec_zoom_out, GraphDisplay};
use crate::geometry::{Points, Rect, Vector2};
use crate::graph::{decode_bytes, GraphLayout};
use crate::input::TouchSet;
use crate::ratio::{spec_div, Ratio};

verus! {

/// Host-facing handle: bundles the graph layout and its display state, and
/// forwards each operation.
pub struct GraphFacade {
    pub graph: GraphDisplay,
}

impl GraphFacade {
    pub fn new(
        node_count: usize,
        node_locations: Vec<Ratio>,
        display_width: Ratio,
        display_height: Ratio,
        display_scale: Ratio,
    ) -> (r: GraphFacade)
        requires
            1 <= node_count <= 0xffff,
            node_locations@.len() == 2 * node_count,
            forall|i: int| 0 <= i < node_locations@.len() ==> (#[trigger] node_locations@[i]).wf(),
            display_width.wf() && display_width.is_pos(),
            display_height.wf() && display_height.is_pos(),
            display_scale.wf() && display_scale.is_pos(),
            spec_div(display_width, display_height) is Some,
            (Points { data: node_locations }).tc_all_fit(
                (Points { data: node_locations }).spec_point(0),
                display_scale,
                spec_div(display_width, display_height).unwrap(),
            ),
        ensures
            r.graph.wf(),
            r.graph.layout.node_count() == node_count,
            r.graph.layout.node_locations.data@ == node_locations@,
            r.graph.layout.st().active == 0,
            r.graph.layout.st().pending is None,
            r.graph.layout.st().edges == 0,
            forall|k: int|
                0 <= k < node_count ==> #[trigger] r.graph.layout.st().targets[k].len() == 0,
            forall|k: int|
                0 <= k < node_count ==> #[trigger] r.graph.layout.st().sources[k].len() == 0,
            r.graph.display_width == display_width,
            r.graph.display_height == display_height,
            r.graph.display_scale == display_scale,
            r.graph.display_offset == r.graph.layout.node_locations.spec_point(0),
            r.graph.autopanning == false,
            r.graph.current_touches is None,
            r.graph.prev_touch is None,
    {
        let ghost gp = Points { data: node_locations };
        let layout = GraphLayout::new(node_count, node_locations);
        proof {
            assert(layout.node_locations == gp);
        }
        let display = GraphDisplay::new(layout, display_width, display_height, display_scale);
        GraphFacade { graph: display }
    }

    /// Feeds one chunk of the edge-stream bytes to the decoder.
    pub fn load_edges(&mut self, chunk: &Vec<u8>)
        requires
            old(self).graph.wf(),
            decode_bytes(old(self).graph.layout.st(), chunk@) is Some,
            old(self).graph.layout.loading_node_index + chunk@.len() <= usize::MAX,
            old(self).graph.layout.edges_loaded + chunk@.len() <= usize::MAX,
        ensures
            final(self).graph.wf(),
            Some(final(self).graph.layout.st()) == decode_bytes(
                old(self).graph.layout.st(),
                chunk@,
            ),
            final(self).graph.layout.node_locations == old(self).graph.layout.node_locations,
            final(self).graph == (GraphDisplay {
                layout: final(self).graph.layout,
                ..old(self).graph
            }),
    {
        self.graph.load_edges(chunk);
    }

    pub fn update_display_size(&mut self, display_width: Ratio, display_height: Ratio)
        requires
            old(self).graph.wf(),
            display_width.wf() && display_width.is_pos(),
            display_height.wf() && display_height.is_pos(),
        ensures
            final(self).graph.wf(),
            final(self).graph == (GraphDisplay {
                display_width,
                display_height,
                ..old(self).graph
            }),
    {
        self.graph.update_display_size(display_width, display_height);
    }

    /// Brings the edge index buffer up to date (append-only growth).
    pub fn update_edges(&mut self)
        requires
            old(self).graph.wf(),
            old(self).graph.layout.edges_loaded <= usize::MAX / 2,
        ensures
            final(self).graph.wf(),
            final(self).graph.vertex_indices@ == crate::vertex::index_flat(
                crate::graph::edge_pairs(old(self).graph.layout.node_targets.deep_view()),
            ),
            final(self).graph == (GraphDisplay {
                vertex_indices: final(self).graph.vertex_indices,
                ..old(self).graph
            }),
    {
        self.graph.update_edges();
    }

    /// One frame: advance the camera and rebuild the render buffer.
    pub fn update_clipspace_vertices(&mut self)
        requires
            old(self).graph.wf(),
            12 * old(self).graph.layout.node_count() + 4 * old(self).graph.layout.edges_loaded
                <= usize::MAX,
        ensures
            final(self).graph.wf(),
            crate::display::spec_rebuilt(old(self).graph, final(self).graph),
    {
        self.graph.update_clipspace_vertices();
    }

    pub fn get_vertices_ptr(&self) -> (r: &Vec<Ratio>)
        ensures
            r@ == self.graph.clipspace_vertices@,
    {
        self.graph.get_vertices_ptr()
    }

    pub fn get_vertex_indices_ptr(&self) -> (r: &Vec<u16>)
        ensures
            r@ == self.graph.vertex_indices@,
    {
        self.graph.get_vertex_indices_ptr()
    }

    pub fn get_vertex_indices_len(&self) -> (r: usize)
        ensures
            r == self.graph.vertex_indices@.len(),
    {
        self.graph.get_vertex_indices_len()
    }

    pub fn pan(&mut self, x: Ratio, y: Ratio)
        requires
            old(self).graph.wf(),
            x.wf(),
            y.wf(),
        ensures
            final(self).graph.wf(),
            final(self).graph == (GraphDisplay {
                autopanning: false,
                display_offset: spec_pan(
                    old(self).graph.display_offset,
                    old(self).graph.display_scale,
                    old(self).graph.display_height,
                    x,
                    y,
                ),
                ..old(self).graph
            }),
    {
        self.graph.pan(x, y);
    }

    pub fn zoom_in(&mut self)
        requires
            old(self).graph.wf(),
        ensures
            final(self).graph.wf(),
            final(self).graph == (GraphDisplay {
                display_scale: spec_zoom_in(old(self).graph.display_scale),
                ..old(self).graph
            }),
    {
        self.graph.zoom_in();
    }

    pub fn zoom_out(&mut self)
        requires
            old(self).graph.wf(),
        ensures
            final(self).graph.wf(),
            final(self).graph == (GraphDisplay {
                display_scale: spec_zoom_out(old(self).graph.display_scale),
                ..old(self).graph
            }),
    {
        self.graph.zoom_out();
    }

    pub fn touch_start(&mut self, touch: TouchSet)
        requires
            old(self).graph.wf(),
            touch.wf(),
        ensures
            final(self).graph.wf(),
            final(self).graph.autopanning == false,
            final(self).graph.prev_touch is None,
            final(self).graph.current_touches matches Some(v) && v@.len() == 1 && v@[0] == touch,
            final(self).graph == (GraphDisplay {
                autopanning: false,
                prev_touch: None,
                current_touches: final(self).graph.current_touches,
                ..old(self).graph
            }),
    {
        self.graph.touch_start(touch);
    }

    pub fn touch_move(&mut self, touch: TouchSet)
        requires
            old(self).graph.wf(),
            touch.wf(),
            old(self).graph.current_touches is Some,
        ensures
            final(self).graph.wf(),
            final(self).graph.current_touches matches Some(v) && v@ == old(
                self,
            ).graph.current_touches.unwrap()@.push(touch),
            final(self).graph == (GraphDisplay {
                current_touches: final(self).graph.current_touches,
                ..old(self).graph
            }),
    {
        self.graph.touch_move(touch);
    }

    pub fn get_visible_node_page_locations(&self) -> (r: Option<Vec<(usize, Vector2)>>)
        requires
            self.graph.wf(),
        ensures
            GraphDisplay::spec_page_bounds(self.graph.display_width) is None ==> r is None,
            GraphDisplay::spec_page_bounds(self.graph.display_width) matches Some(b) ==> {
                let ps = GraphDisplay::spec_pages_upto(
                    self.graph.clipspace_locations,
                    b,
                    self.graph.display_width,
                    self.graph.display_height,
                    self.graph.layout.node_count(),
                );
                &&& (ps is None ==> r is None)
                &&& (ps matches Some(sq) ==> (r matches Some(v) && v@ == sq))
            },
    {
        self.graph.get_visible_node_page_locations()
    }

    /// The set of nodes to draw for a display-space rectangle.
    pub fn visible_nodes(&self, rect: &Rect) -> (out: Vec<usize>)
        requires
            self.graph.wf(),
            rect.wf(),
        ensures
            forall|j: usize| #[trigger] out@.contains(j) <==> self.graph.spec_visible(*rect, j),
            forall|p: int, q: int| 0 <= p < q < out@.len() ==> out@[p] != out@[q],
    {
        self.graph.visible_nodes(rect)
    }

    pub fn autopan(&mut self, node_id: usize)
        requires
            old(self).graph.wf(),
            node_id < old(self).graph.layout.node_count(),
        ensures
            final(self).graph.wf(),
            final(self).graph == (GraphDisplay {
                autopanning: true,
                autopan_dest: old(self).graph.layout.node_locations.spec_point(node_id as int),
                ..old(self).graph
            }),
    {
        self.graph.autopan(node_id);
    }
}

} // verus!
