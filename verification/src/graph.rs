//! The graph and its incremental edge-stream decoder.
//!
//! The edge list arrives as a stream of 16-bit little-endian tokens,
//! delivered in byte chunks of arbitrary (possibly odd) length.  The token
//! `0xffff` is a sentinel that closes the active node's target list; any
//! other token is a target index for the active node.  Decoding is modelled
//! byte by byte: [`step_byte`] consumes one byte, [`decode_bytes`] folds a
//! whole chunk, and [`lemma_decode_append`] shows that splitting the stream
//! at any byte offset leaves the result unchanged.

use vstd::prelude::*;

use crate::geometry::Points;
use crate::ratio::Ratio;

verus! {

/// Specification-level state of the decoder: adjacency built so far, the
/// active node, a pending low byte, and the number of edges recorded.
pub ghost struct DecodeState {
    pub targets: Seq<Seq<usize>>,
    pub sources: Seq<Seq<usize>>,
    pub active: int,
    pub pending: Option<u8>,
    pub edges: int,
}

/// One whole 16-bit token: a sentinel advances the active node; any other
/// value records the edge `active -> token` in both adjacency directions,
/// and is an error when either index is out of range.
pub open spec fn step_token(st: DecodeState, tok: int) -> Option<DecodeState> {
    if tok == 0xffff {
        Some(DecodeState { active: st.active + 1, ..st })
    } else if 0 <= st.active < st.targets.len() && st.active <= usize::MAX && 0 <= tok
        < st.sources.len() {
        Some(
            DecodeState {
                targets: st.targets.update(st.active, st.targets[st.active].push(tok as usize)),
                sources: st.sources.update(tok, st.sources[tok].push(st.active as usize)),
                edges: st.edges + 1,
                ..st
            },
        )
    } else {
        None
    }
}

/// One byte: the first byte of a token is stashed; the second completes a
/// little-endian token.
pub open spec fn step_byte(st: DecodeState, b: u8) -> Option<DecodeState> {
    match st.pending {
        None => Some(DecodeState { pending: Some(b), ..st }),
        Some(lo) => step_token(
            DecodeState { pending: None, ..st },
            lo as int + 256 * (b as int),
        ),
    }
}

/// Folds a whole byte sequence through [`step_byte`]; `None` once any
/// token is out of range.
pub open spec fn decode_bytes(st: DecodeState, bs: Seq<u8>) -> Option<DecodeState>
    decreases bs.len(),
{
    if bs.len() == 0 {
        Some(st)
    } else {
        match step_byte(st, bs[0]) {
            None => None,
            Some(s1) => decode_bytes(s1, bs.drop_first()),
        }
    }
}

/// Chunk-boundary invariance: decoding `a + b` equals decoding `a`, then
/// `b`, wherever the stream is split — including through the middle of a
/// token.
pub proof fn lemma_decode_append(st: DecodeState, a: Seq<u8>, b: Seq<u8>)
    ensures
        decode_bytes(st, a + b) == match decode_bytes(st, a) {
            Some(m) => decode_bytes(m, b),
            None => None::<DecodeState>,
        },
    decreases a.len(),
{
    if a.len() == 0 {
        assert(a + b =~= b);
    } else {
        assert((a + b)[0] == a[0]);
        match step_byte(st, a[0]) {
            None => {
                assert((a + b).len() > 0);
            },
            Some(s1) => {
                lemma_decode_append(s1, a.drop_first(), b);
                assert((a + b).drop_first() =~= a.drop_first() + b);
            },
        }
    }
}

/// Structural soundness of a decode state: the two adjacency directions
/// have one list per node, every stored index is in range, and every
/// recorded edge `s -> t` appears in `targets[s]` exactly as often as `s`
/// appears in `sources[t]` — the two directions never disagree, even
/// mid-stream.
pub open spec fn st_wf(st: DecodeState) -> bool {
    &&& st.targets.len() == st.sources.len()
    &&& forall|i: int, j: int|
        0 <= i < st.targets.len() && 0 <= j < st.targets[i].len()
            ==> #[trigger] st.targets[i][j] < st.sources.len()
    &&& forall|i: int, j: int|
        0 <= i < st.sources.len() && 0 <= j < st.sources[i].len()
            ==> #[trigger] st.sources[i][j] < st.targets.len()
    &&& 0 <= st.active
    &&& 0 <= st.edges
    &&& forall|r: int| st.active < r < st.targets.len() ==> #[trigger] st.targets[r].len() == 0
    &&& st.edges == edge_pairs(st.targets).len()
    &&& forall|s: int, t: int|
        0 <= s < st.targets.len() && 0 <= t < st.sources.len() && s <= usize::MAX && t
            <= usize::MAX ==> #[trigger] st.targets[s].to_multiset().count(t as usize)
            == st.sources[t].to_multiset().count(s as usize)
}

/// The edge pairs of one source node's target list.
pub open spec fn row_pairs(row: Seq<usize>, s: int) -> Seq<(int, int)> {
    Seq::new(row.len(), |k: int| (s, row[k] as int))
}

/// All edge pairs of source nodes below `s`, in stream order.
pub open spec fn pairs_up_to(targets: Seq<Seq<usize>>, s: int) -> Seq<(int, int)>
    decreases s,
{
    if s <= 0 {
        Seq::empty()
    } else {
        pairs_up_to(targets, s - 1) + row_pairs(targets[s - 1], s - 1)
    }
}

/// All edge pairs of the graph: ordered by source node and, within one
/// source, by target-list order — the order of the stream.
pub open spec fn edge_pairs(targets: Seq<Seq<usize>>) -> Seq<(int, int)> {
    pairs_up_to(targets, targets.len() as int)
}

/// Earlier prefixes of the pair list are stable under growth of `s`.
pub proof fn lemma_pairs_prefix(targets: Seq<Seq<usize>>, s: int, m: int)
    requires
        0 <= s <= m <= targets.len(),
    ensures
        pairs_up_to(targets, s).len() <= pairs_up_to(targets, m).len(),
        forall|p: int|
            0 <= p < pairs_up_to(targets, s).len() ==> #[trigger] pairs_up_to(targets, m)[p]
                == pairs_up_to(targets, s)[p],
    decreases m - s,
{
    if s == m {
    } else {
        lemma_pairs_prefix(targets, s, m - 1);
    }
}

/// Position and value of the pair for target `k` of source `s`.
pub proof fn lemma_pairs_at(targets: Seq<Seq<usize>>, s: int, k: int)
    requires
        0 <= s < targets.len(),
        0 <= k < targets[s].len(),
    ensures
        pairs_up_to(targets, s).len() + k < edge_pairs(targets).len(),
        edge_pairs(targets)[pairs_up_to(targets, s).len() + k] == (s, targets[s][k] as int),
{
    lemma_pairs_prefix(targets, s + 1, targets.len() as int);
    assert(pairs_up_to(targets, s + 1) == pairs_up_to(targets, s) + row_pairs(targets[s], s));
}

/// Rows that are still empty contribute no pairs.
pub proof fn lemma_pairs_empty_rows(targets: Seq<Seq<usize>>, a: int, m: int)
    requires
        0 <= a <= m <= targets.len(),
        forall|r: int| a <= r < m ==> #[trigger] targets[r].len() == 0,
    ensures
        pairs_up_to(targets, m) == pairs_up_to(targets, a),
    decreases m - a,
{
    if a == m {
    } else {
        lemma_pairs_empty_rows(targets, a, m - 1);
        assert(row_pairs(targets[m - 1], m - 1) =~= Seq::<(int, int)>::empty());
        assert(pairs_up_to(targets, m) =~= pairs_up_to(targets, m - 1));
    }
}

/// Recording the edge `active -> tok` appends exactly one pair at the end
/// of the pair list, provided all rows beyond `active` are still empty.
pub proof fn lemma_pairs_push(targets: Seq<Seq<usize>>, active: int, tok: usize)
    requires
        0 <= active < targets.len(),
        forall|r: int| active < r < targets.len() ==> #[trigger] targets[r].len() == 0,
    ensures
        edge_pairs(targets.update(active, targets[active].push(tok))) == edge_pairs(targets).push(
            (active, tok as int),
        ),
{
    let t2 = targets.update(active, targets[active].push(tok));
    lemma_pairs_same_below(targets, t2, active);
    lemma_pairs_empty_rows(targets, active + 1, targets.len() as int);
    lemma_pairs_empty_rows(t2, active + 1, t2.len() as int);
    assert(row_pairs(t2[active], active) =~= row_pairs(targets[active], active).push(
        (active, tok as int),
    ));
    assert(pairs_up_to(t2, active + 1) == pairs_up_to(t2, active) + row_pairs(t2[active], active));
    assert(pairs_up_to(targets, active + 1) == pairs_up_to(targets, active) + row_pairs(
        targets[active],
        active,
    ));
    assert(edge_pairs(t2) =~= edge_pairs(targets).push((active, tok as int)));
}

/// Two target tables that agree below `s` have the same pairs below `s`.
proof fn lemma_pairs_same_below(t1: Seq<Seq<usize>>, t2: Seq<Seq<usize>>, s: int)
    requires
        0 <= s <= t1.len(),
        s <= t2.len(),
        forall|r: int| 0 <= r < s ==> t1[r] == t2[r],
    ensures
        pairs_up_to(t1, s) == pairs_up_to(t2, s),
    decreases s,
{
    if s == 0 {
    } else {
        lemma_pairs_same_below(t1, t2, s - 1);
    }
}

/// Decoding only appends to the pair list: every pair already recorded
/// keeps its position, and the edge counter tracks the length.
pub proof fn lemma_decode_pairs(st: DecodeState, bs: Seq<u8>)
    requires
        st_wf(st),
        decode_bytes(st, bs) is Some,
    ensures
        edge_pairs(st.targets).is_prefix_of(
            edge_pairs(decode_bytes(st, bs).unwrap().targets),
        ),
    decreases bs.len(),
{
    if bs.len() == 0 {
    } else {
        let s1 = step_byte(st, bs[0]).unwrap();
        lemma_step_byte_wf(st, bs[0]);
        lemma_decode_pairs(s1, bs.drop_first());
        assert(edge_pairs(st.targets).is_prefix_of(edge_pairs(s1.targets)));
    }
}

proof fn lemma_step_byte_wf(st: DecodeState, b: u8)
    requires
        st_wf(st),
        step_byte(st, b) is Some,
    ensures
        st_wf(step_byte(st, b).unwrap()),
        step_byte(st, b).unwrap().targets.len() == st.targets.len(),
        step_byte(st, b).unwrap().active >= st.active,
        step_byte(st, b).unwrap().active <= st.active + 1,
        step_byte(st, b).unwrap().edges >= st.edges,
        step_byte(st, b).unwrap().edges <= st.edges + 1,
        edge_pairs(st.targets).is_prefix_of(edge_pairs(step_byte(st, b).unwrap().targets)),
{
    broadcast use vstd::seq_lib::group_to_multiset_ensures;

    match st.pending {
        None => {
            assert(edge_pairs(st.targets).is_prefix_of(edge_pairs(st.targets)));
        },
        Some(lo) => {
            let tok = lo as int + 256 * (b as int);
            if tok == 0xffff {
                assert(edge_pairs(st.targets).is_prefix_of(edge_pairs(st.targets)));
            } else {
                lemma_pairs_push(st.targets, st.active, tok as usize);
                assert((tok as usize) as int == tok);
                assert(edge_pairs(st.targets).is_prefix_of(
                    edge_pairs(st.targets).push((st.active, tok)),
                ));
                let st2 = step_byte(st, b).unwrap();
                let tu = tok as usize;
                assert forall|s: int, t: int|
                    0 <= s < st2.targets.len() && 0 <= t < st2.sources.len() && s <= usize::MAX
                        && t <= usize::MAX implies #[trigger] st2.targets[s].to_multiset().count(
                    t as usize,
                ) == st2.sources[t].to_multiset().count(s as usize) by {
                    broadcast use vstd::multiset::group_multiset_axioms;

                    let au = st.active as usize;
                    assert(st.targets[st.active].push(tu).to_multiset() == st.targets[
                        st.active
                    ].to_multiset().insert(tu));
                    assert(st.sources[tok].push(au).to_multiset() == st.sources[
                        tok
                    ].to_multiset().insert(au));
                    assert(st.targets[s].to_multiset().count(t as usize) == st.sources[
                        t
                    ].to_multiset().count(s as usize));
                    // the only counts that change are those of the new edge,
                    // and they change together
                    assert((t as usize) == tu <==> t == tok);
                    assert((s as usize) == au <==> s == st.active);
                    if s == st.active {
                        assert(st2.targets[s] == st.targets[st.active].push(tu));
                    } else {
                        assert(st2.targets[s] == st.targets[s]);
                    }
                    if t == tok {
                        assert(st2.sources[t] == st.sources[tok].push(au));
                    } else {
                        assert(st2.sources[t] == st.sources[t]);
                    }
                }
            }
        },
    }
}

/// Decoding preserves structural soundness, the node count, and moves the
/// active node and edge counter forward by at most a byte's worth each.
pub proof fn lemma_decode_wf(st: DecodeState, bs: Seq<u8>)
    requires
        st_wf(st),
        decode_bytes(st, bs) is Some,
    ensures
        st_wf(decode_bytes(st, bs).unwrap()),
        decode_bytes(st, bs).unwrap().targets.len() == st.targets.len(),
        decode_bytes(st, bs).unwrap().active >= st.active,
        decode_bytes(st, bs).unwrap().active <= st.active + bs.len(),
        decode_bytes(st, bs).unwrap().edges >= st.edges,
        decode_bytes(st, bs).unwrap().edges <= st.edges + bs.len(),
    decreases bs.len(),
{
    if bs.len() == 0 {
    } else {
        lemma_step_byte_wf(st, bs[0]);
        lemma_decode_wf(step_byte(st, bs[0]).unwrap(), bs.drop_first());
    }
}

/// The graph under construction: node positions, both adjacency
/// directions, and the decoder cursor.
pub struct GraphLayout {
    pub node_targets: Vec<Vec<usize>>,
    pub node_sources: Vec<Vec<usize>>,
    pub node_locations: Points,
    pub loading_node_index: usize,
    pub edges_loaded: usize,
    pub loading_remainder: Option<u8>,
}

impl GraphLayout {
    /// The decoder state carried by this graph.
    pub open spec fn st(self) -> DecodeState {
        DecodeState {
            targets: self.node_targets.deep_view(),
            sources: self.node_sources.deep_view(),
            active: self.loading_node_index as int,
            pending: self.loading_remainder,
            edges: self.edges_loaded as int,
        }
    }

    /// Number of nodes.
    pub open spec fn node_count(self) -> int {
        self.node_targets@.len() as int
    }

    pub open spec fn wf(self) -> bool {
        &&& st_wf(self.st())
        &&& self.node_count() <= 0xffff
        &&& self.node_locations.wf()
        &&& self.node_locations.data@.len() == 2 * self.node_count()
    }

    /// A fresh graph: empty adjacency lists, cursor at node zero.
    pub fn new(node_count: usize, locations: Vec<Ratio>) -> (r: GraphLayout)
        requires
            node_count <= 0xffff,
            locations@.len() == 2 * node_count,
            forall|i: int| 0 <= i < locations@.len() ==> #[trigger] locations@[i].wf(),
        ensures
            r.wf(),
            r.node_count() == node_count,
            forall|k: int| 0 <= k < node_count ==> #[trigger] r.st().targets[k].len() == 0,
            forall|k: int| 0 <= k < node_count ==> #[trigger] r.st().sources[k].len() == 0,
            r.st().active == 0,
            r.st().pending is None,
            r.st().edges == 0,
            r.node_locations == (Points { data: locations }),
            r.node_locations.data@ == locations@,
    {
        let mut node_targets: Vec<Vec<usize>> = Vec::new();
        let mut node_sources: Vec<Vec<usize>> = Vec::new();
        let mut i: usize = 0;
        while i < node_count
            invariant
                i <= node_count,
                node_targets@.len() == i,
                node_sources@.len() == i,
                forall|k: int| 0 <= k < i ==> (#[trigger] node_targets@[k])@.len() == 0,
                forall|k: int| 0 <= k < i ==> (#[trigger] node_sources@[k])@.len() == 0,
            decreases node_count - i,
        {
            node_targets.push(Vec::new());
            node_sources.push(Vec::new());
            i += 1;
        }
        proof {
            broadcast use vstd::seq_lib::group_to_multiset_ensures;

            lemma_pairs_empty_rows(
                node_targets.deep_view(),
                0,
                node_targets.deep_view().len() as int,
            );
            let tv = node_targets.deep_view();
            let sv = node_sources.deep_view();
            assert forall|s: int, t: int|
                0 <= s < tv.len() && 0 <= t < sv.len() && s <= usize::MAX && t
                    <= usize::MAX implies #[trigger] tv[s].to_multiset().count(
                t as usize,
            ) == sv[t].to_multiset().count(s as usize) by {
                assert(!tv[s].contains(t as usize));
                assert(!sv[t].contains(s as usize));
            }
        }
        GraphLayout {
            node_targets,
            node_sources,
            node_locations: Points::new(locations),
            loading_node_index: 0,
            edges_loaded: 0,
            loading_remainder: None,
        }
    }

    /// Decodes one chunk of the edge stream, updating both adjacency
    /// directions and the cursor.  The chunk must decode cleanly from the
    /// current state: a token out of range is a caller error.
    pub fn load_edges(&mut self, chunk: &Vec<u8>)
        requires
            old(self).wf(),
            decode_bytes(old(self).st(), chunk@) is Some,
            old(self).loading_node_index + chunk@.len() <= usize::MAX,
            old(self).edges_loaded + chunk@.len() <= usize::MAX,
        ensures
            Some(final(self).st()) == decode_bytes(old(self).st(), chunk@),
            final(self).wf(),
            final(self).node_count() == old(self).node_count(),
            final(self).node_locations == old(self).node_locations,
    {
        let ghost st0 = self.st();
        let n = chunk.len();
        let mut i: usize = 0;
        while i < n
            invariant
                n == chunk@.len(),
                i <= n,
                self.wf(),
                decode_bytes(st0, chunk@) is Some,
                Some(self.st()) == decode_bytes(st0, chunk@.take(i as int)),
                st_wf(st0),
                self.node_count() == st0.targets.len(),
                self.node_locations == old(self).node_locations,
                self.loading_node_index <= st0.active + i,
                self.edges_loaded <= st0.edges + i,
                st0.active + n <= usize::MAX,
                st0.edges + n <= usize::MAX,
            decreases n - i,
        {
            let ghost prev = self.st();
            proof {
                reveal_with_fuel(decode_bytes, 3);
                // The full chunk decodes, so the next byte's step succeeds.
                assert(chunk@ =~= chunk@.take(i + 1) + chunk@.skip(i + 1));
                lemma_decode_append(st0, chunk@.take(i + 1), chunk@.skip(i + 1));
                assert(chunk@.take(i + 1) =~= chunk@.take(i as int) + seq![chunk@[i as int]]);
                lemma_decode_append(st0, chunk@.take(i as int), seq![chunk@[i as int]]);
                // Decoding a single byte unfolds to one step.
                assert(seq![chunk@[i as int]].drop_first() =~= Seq::<u8>::empty());
                assert(decode_bytes(st0, chunk@.take(i + 1)) == step_byte(
                    prev,
                    chunk@[i as int],
                ));
            }
            let ghost next = step_byte(prev, chunk@[i as int]).unwrap();
            let b = chunk[i];
            match self.loading_remainder {
                None => {
                    self.loading_remainder = Some(b);
                    proof {
                        assert(self.st() == next);
                    }
                },
                Some(lo) => {
                    self.loading_remainder = None;
                    let tok: usize = lo as usize + 256 * (b as usize);
                    if tok == 0xffff {
                        self.loading_node_index = self.loading_node_index + 1;
                        proof {
                            assert(self.st() == next);
                        }
                    } else {
                        let active = self.loading_node_index;
                        self.node_targets[active].push(tok);
                        self.node_sources[tok].push(active);
                        self.edges_loaded = self.edges_loaded + 1;
                        proof {
                            assert(self.node_targets.deep_view() =~~= next.targets);
                            assert(self.node_sources.deep_view() =~~= next.sources);
                            assert(self.st() == next);
                        }
                    }
                },
            }
            i += 1;
            proof {
                lemma_decode_wf(st0, chunk@.take(i as int));
            }
        }
        proof {
            assert(chunk@.take(n as int) =~= chunk@);
        }
    }
}

} // verus!
