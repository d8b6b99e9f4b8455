//! Tests for the incremental edge-stream decoder: token framing, the
//! sentinel, dangling bytes, and chunk-boundary invariance.

use graph_view::graph::GraphLayout;
use graph_view::ratio::Ratio;

fn zero_locations(node_count: usize) -> Vec<Ratio> {
    let mut v = Vec::new();
    for _ in 0..2 * node_count {
        v.push(Ratio::zero());
    }
    v
}

/// Little-endian bytes of a token list.
fn bytes_of(tokens: &[u16]) -> Vec<u8> {
    let mut out = Vec::new();
    for t in tokens {
        out.push((t & 0xff) as u8);
        out.push((t >> 8) as u8);
    }
    out
}

#[test]
fn decode_example_stream() {
    // Tokens [5, sentinel, 2, 7, sentinel]: node 0 points at 5; node 1
    // points at 2 and 7.  Eight nodes are allocated so that all target
    // indices are in range.
    let mut g = GraphLayout::new(8, zero_locations(8));
    let chunk = bytes_of(&[5, 0xffff, 2, 7, 0xffff]);
    g.load_edges(&chunk);
    assert_eq!(g.node_targets[0], vec![5]);
    assert_eq!(g.node_targets[1], vec![2, 7]);
    assert_eq!(g.node_sources[5], vec![0]);
    assert_eq!(g.node_sources[2], vec![1]);
    assert_eq!(g.node_sources[7], vec![1]);
    assert_eq!(g.loading_node_index, 2);
    assert_eq!(g.edges_loaded, 3);
    assert!(g.loading_remainder.is_none());
    for i in [2usize, 3, 4, 5, 6, 7] {
        assert!(g.node_targets[i].is_empty());
    }
    for i in [0usize, 1, 3, 4, 6] {
        assert!(g.node_sources[i].is_empty());
    }
}

#[test]
fn decode_split_anywhere_matches_whole() {
    // Splitting the stream at any byte offset, including through the
    // middle of a token, decodes to the same adjacency lists.
    let tokens = [3u16, 1, 0xffff, 0xffff, 0, 2, 0xffff, 1];
    let stream = bytes_of(&tokens);
    let mut whole = GraphLayout::new(4, zero_locations(4));
    whole.load_edges(&stream);
    for cut in 0..=stream.len() {
        let mut g = GraphLayout::new(4, zero_locations(4));
        let first: Vec<u8> = stream[..cut].to_vec();
        let second: Vec<u8> = stream[cut..].to_vec();
        g.load_edges(&first);
        g.load_edges(&second);
        assert_eq!(g.node_targets, whole.node_targets, "cut at {}", cut);
        assert_eq!(g.node_sources, whole.node_sources, "cut at {}", cut);
        assert_eq!(g.loading_node_index, whole.loading_node_index);
        assert_eq!(g.edges_loaded, whole.edges_loaded);
        assert_eq!(g.loading_remainder, whole.loading_remainder);
    }
}

#[test]
fn decode_carries_dangling_byte() {
    let mut g = GraphLayout::new(3, zero_locations(3));
    // One and a half tokens: [1] complete, low byte of the sentinel left over.
    g.load_edges(&vec![1, 0, 0xff]);
    assert_eq!(g.node_targets[0], vec![1]);
    assert_eq!(g.loading_remainder, Some(0xff));
    assert_eq!(g.loading_node_index, 0);
    // The other sentinel byte closes node 0's list.
    g.load_edges(&vec![0xff]);
    assert_eq!(g.loading_node_index, 1);
    assert!(g.loading_remainder.is_none());
}

#[test]
fn decode_empty_chunk_is_a_no_op() {
    let mut g = GraphLayout::new(2, zero_locations(2));
    g.load_edges(&Vec::new());
    assert_eq!(g.loading_node_index, 0);
    assert_eq!(g.edges_loaded, 0);
    assert!(g.node_targets[0].is_empty());
}

#[test]
fn decode_keeps_both_directions_in_step() {
    // Every recorded edge appears in the target list of its source and in
    // the source list of its target.
    let tokens = [1u16, 2, 0xffff, 2, 0xffff, 0, 1, 0xffff];
    let mut g = GraphLayout::new(3, zero_locations(3));
    g.load_edges(&bytes_of(&tokens));
    let mut forward: Vec<(usize, usize)> = Vec::new();
    for (s, row) in g.node_targets.iter().enumerate() {
        for t in row {
            forward.push((s, *t));
        }
    }
    let mut backward: Vec<(usize, usize)> = Vec::new();
    for (t, row) in g.node_sources.iter().enumerate() {
        for s in row {
            backward.push((*s, t));
        }
    }
    forward.sort();
    backward.sort();
    assert_eq!(forward, backward);
    assert_eq!(forward.len(), g.edges_loaded);
}

#[test]
fn decode_accepts_largest_node_index() {
    // 65535 nodes: the largest valid target index is 65534, one below the
    // sentinel value.
    let mut g = GraphLayout::new(0xffff, zero_locations(0xffff));
    g.load_edges(&bytes_of(&[0xfffe, 0xffff]));
    assert_eq!(g.node_targets[0], vec![0xfffe]);
    assert_eq!(g.node_sources[0xfffe], vec![0]);
    assert_eq!(g.loading_node_index, 1);
}
