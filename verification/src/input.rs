//! Multi-touch input samples and the pinch / pan signals derived from a
//! pair of consecutive samples.
//!
//! A sample maps stable touch identifiers to screen positions.  Between two
//! samples, only identifiers present in both contribute: the pinch signal
//! is the change in the sum of pairwise distances, the pan signal the mean
//! positional delta.  With fewer than two common identifiers both signals
//! are zero.

use vstd::prelude::*;

use crate::geometry::{spec_v_add, spec_v_sub, v_add, v_sub, Vector2};
use crate::ratio::{checked_add, checked_div, checked_sub, spec_add, spec_div, spec_sub, Ratio};

verus! {

/// One multi-touch sample: pairs of touch identifier and screen position,
/// with distinct identifiers.
#[derive(Clone, Debug)]
pub struct TouchSet {
    pub data: Vec<(i32, Vector2)>,
}

/// All identifiers in a touch list are distinct.
pub open spec fn ids_distinct(s: Seq<(i32, Vector2)>) -> bool {
    forall|p: int, q: int| 0 <= p < q < s.len() ==> s[p].0 != s[q].0
}

impl TouchSet {
    pub open spec fn wf(self) -> bool {
        &&& ids_distinct(self.data@)
        &&& forall|i: int| 0 <= i < self.data@.len() ==> (#[trigger] self.data@[i]).1.wf()
        &&& self.data@.len() <= 0x7fff_ffff
    }
}

/// Index of an identifier in a touch list, `-1` when absent.
pub open spec fn find_idx(s: Seq<(i32, Vector2)>, id: i32) -> int
    decreases s.len(),
{
    if s.len() == 0 {
        -1
    } else if s[0].0 == id {
        0
    } else {
        let r = find_idx(s.drop_first(), id);
        if r < 0 {
            -1
        } else {
            r + 1
        }
    }
}

pub open spec fn has_id(s: Seq<(i32, Vector2)>, id: i32) -> bool {
    find_idx(s, id) >= 0
}

/// Position recorded for an identifier (meaningful when present).
pub open spec fn touch_lookup(s: Seq<(i32, Vector2)>, id: i32) -> Vector2 {
    s[find_idx(s, id)].1
}

pub proof fn lemma_find_idx_props(s: Seq<(i32, Vector2)>, id: i32)
    ensures
        has_id(s, id) ==> find_idx(s, id) < s.len() && s[find_idx(s, id)].0 == id,
        !has_id(s, id) ==> forall|j: int| 0 <= j < s.len() ==> (#[trigger] s[j]).0 != id,
    decreases s.len(),
{
    if s.len() == 0 {
    } else if s[0].0 == id {
    } else {
        lemma_find_idx_props(s.drop_first(), id);
        let r = find_idx(s.drop_first(), id);
        if r >= 0 {
            assert(s.drop_first()[r] == s[r + 1]);
        } else {
            assert forall|j: int| 0 <= j < s.len() implies (#[trigger] s[j]).0 != id by {
                if j > 0 {
                    assert(s.drop_first()[j - 1] == s[j]);
                }
            }
        }
    }
}

pub proof fn lemma_find_idx_at(s: Seq<(i32, Vector2)>, id: i32, i: int)
    requires
        0 <= i < s.len(),
        s[i].0 == id,
        forall|j: int| 0 <= j < i ==> (#[trigger] s[j]).0 != id,
    ensures
        find_idx(s, id) == i,
    decreases i,
{
    if i == 0 {
    } else {
        assert(s.drop_first()[i - 1] == s[i]);
        assert forall|j: int| 0 <= j < i - 1 implies (#[trigger] s.drop_first()[j]).0 != id by {
            assert(s.drop_first()[j] == s[j + 1]);
        }
        lemma_find_idx_at(s.drop_first(), id, i - 1);
    }
}

/// Linear scan for an identifier.
pub fn find_touch(data: &Vec<(i32, Vector2)>, id: i32) -> (r: Option<usize>)
    ensures
        has_id(data@, id) ==> r == Some(find_idx(data@, id) as usize) && 0 <= find_idx(data@, id)
            < data@.len() && data@[find_idx(data@, id)].0 == id,
        !has_id(data@, id) ==> r is None,
{
    proof {
        lemma_find_idx_props(data@, id);
    }
    let n = data.len();
    let mut i: usize = 0;
    while i < n
        invariant
            i <= n,
            n == data@.len(),
            forall|j: int| 0 <= j < i ==> (#[trigger] data@[j]).0 != id,
        decreases n - i,
    {
        if data[i].0 == id {
            proof {
                lemma_find_idx_at(data@, id, i as int);
            }
            return Some(i);
        }
        i += 1;
    }
    proof {
        lemma_find_idx_props(data@, id);
        if has_id(data@, id) {
            assert(data@[find_idx(data@, id)].0 == id);
        }
    }
    None
}

/// Insertion with overwrite: a present identifier keeps its slot with the
/// new position, a new identifier is appended.
pub open spec fn insert_touch(s: Seq<(i32, Vector2)>, id: i32, v: Vector2) -> Seq<(i32, Vector2)> {
    if has_id(s, id) {
        s.update(find_idx(s, id), (id, v))
    } else {
        s.push((id, v))
    }
}

/// The touch list built from parallel identifier and flat coordinate
/// arrays, later entries overwriting earlier ones with the same identifier.
pub open spec fn build_touches(ids: Seq<i32>, locs: Seq<Ratio>, n: int) -> Seq<(i32, Vector2)>
    decreases n,
{
    if n <= 0 {
        Seq::empty()
    } else {
        insert_touch(
            build_touches(ids, locs, n - 1),
            ids[n - 1],
            Vector2 { x: locs[2 * (n - 1)], y: locs[2 * (n - 1) + 1] },
        )
    }
}

proof fn lemma_insert_touch_wf(s: Seq<(i32, Vector2)>, id: i32, v: Vector2)
    requires
        ids_distinct(s),
        forall|i: int| 0 <= i < s.len() ==> (#[trigger] s[i]).1.wf(),
        v.wf(),
    ensures
        ids_distinct(insert_touch(s, id, v)),
        forall|i: int|
            0 <= i < insert_touch(s, id, v).len() ==> (#[trigger] insert_touch(s, id, v)[i]).1.wf(),
{
    lemma_find_idx_props(s, id);
}

impl TouchSet {
    /// Builds a sample from a flat coordinate array and a parallel
    /// identifier array; a repeated identifier keeps its last position.
    pub fn new(locs: &Vec<Ratio>, ids: &Vec<i32>) -> (r: TouchSet)
        requires
            locs@.len() == 2 * ids@.len(),
            ids@.len() <= 0x7fff_ffff,
            forall|i: int| 0 <= i < locs@.len() ==> (#[trigger] locs@[i]).wf(),
        ensures
            r.data@ == build_touches(ids@, locs@, ids@.len() as int),
            r.wf(),
    {
        let n = ids.len();
        let m = locs.len();
        let mut data: Vec<(i32, Vector2)> = Vec::new();
        let mut idx: usize = 0;
        while idx < n
            invariant
                idx <= n,
                n == ids@.len(),
                m == locs@.len(),
                locs@.len() == 2 * n,
                forall|i: int| 0 <= i < locs@.len() ==> (#[trigger] locs@[i]).wf(),
                data@ == build_touches(ids@, locs@, idx as int),
                data@.len() <= idx,
                ids_distinct(data@),
                forall|i: int| 0 <= i < data@.len() ==> (#[trigger] data@[i]).1.wf(),
            decreases n - idx,
        {
            let id = ids[idx];
            let v = Vector2 { x: locs[2 * idx], y: locs[2 * idx + 1] };
            // binds the length so the found index is known to fit `usize`
            let _len_bound = data.len();
            let ghost prev = data@;
            proof {
                lemma_insert_touch_wf(data@, id, v);
                lemma_find_idx_props(data@, id);
            }
            match find_touch(&data, id) {
                Some(k) => {
                    proof {
                        assert(has_id(prev, id));
                        assert(k as int == find_idx(prev, id));
                    }
                    data[k] = (id, v);
                    proof {
                        assert(data@ == prev.update(find_idx(prev, id), (id, v)));
                    }
                },
                None => {
                    data.push((id, v));
                },
            }
            proof {
                assert(data@ == insert_touch(prev, id, v));
                assert(build_touches(ids@, locs@, idx + 1) == insert_touch(
                    build_touches(ids@, locs@, idx as int),
                    ids@[idx as int],
                    Vector2 { x: locs@[2 * (idx as int)], y: locs@[2 * (idx as int) + 1] },
                ));
            }
            idx += 1;
        }
        TouchSet { data }
    }
}

/// Distance between two positions, through the checked vector pipeline.
pub open spec fn dist_of(p: Vector2, q: Vector2) -> Option<Ratio> {
    match spec_v_sub(p, q) {
        Some(d) => d.spec_magnitude(),
        None => None,
    }
}

/// Checked accumulation: `None` once any step fails.
pub open spec fn acc_add(acc: Option<Ratio>, t: Option<Ratio>) -> Option<Ratio> {
    match (acc, t) {
        (Some(x), Some(y)) => spec_add(x, y),
        _ => None,
    }
}

/// Distance between touches `i` and `j` of the first sample, measured
/// either in the first sample or at the same identifiers in the second.
pub open spec fn pair_dist(
    a: Seq<(i32, Vector2)>,
    b: Seq<(i32, Vector2)>,
    i: int,
    j: int,
    second: bool,
) -> Option<Ratio> {
    if second {
        dist_of(touch_lookup(b, a[i].0), touch_lookup(b, a[j].0))
    } else {
        dist_of(a[i].1, a[j].1)
    }
}

/// Folds the distances from touch `i` to every later common touch.
pub open spec fn inner_fold(
    a: Seq<(i32, Vector2)>,
    b: Seq<(i32, Vector2)>,
    i: int,
    j: int,
    acc: Option<Ratio>,
    second: bool,
) -> Option<Ratio>
    decreases a.len() - j when j <= a.len()
{
    if j < 0 || j >= a.len() {
        acc
    } else {
        let acc2 = if has_id(b, a[j].0) {
            acc_add(acc, pair_dist(a, b, i, j, second))
        } else {
            acc
        };
        inner_fold(a, b, i, j + 1, acc2, second)
    }
}

/// Folds both distance sums over all common pairs `i < j`.
pub open spec fn outer_fold(
    a: Seq<(i32, Vector2)>,
    b: Seq<(i32, Vector2)>,
    i: int,
    acc1: Option<Ratio>,
    acc2: Option<Ratio>,
) -> (Option<Ratio>, Option<Ratio>)
    decreases a.len() - i when i <= a.len()
{
    if i < 0 || i >= a.len() {
        (acc1, acc2)
    } else if has_id(b, a[i].0) {
        outer_fold(
            a,
            b,
            i + 1,
            inner_fold(a, b, i, i + 1, acc1, false),
            inner_fold(a, b, i, i + 1, acc2, true),
        )
    } else {
        outer_fold(a, b, i + 1, acc1, acc2)
    }
}

/// The pinch signal between two samples: the sum of pairwise distances of
/// the common touches in the second sample minus the same sum in the
/// first.  Positive means spreading.
pub open spec fn spec_pinch(a: Seq<(i32, Vector2)>, b: Seq<(i32, Vector2)>) -> Option<Ratio> {
    let z = Ratio { num: 0i64, den: 1i64 };
    let folded = outer_fold(a, b, 0, Some(z), Some(z));
    if folded.0 is Some && folded.1 is Some {
        spec_sub(folded.1.unwrap(), folded.0.unwrap())
    } else {
        None
    }
}

proof fn lemma_inner_fold_none(
    a: Seq<(i32, Vector2)>,
    b: Seq<(i32, Vector2)>,
    i: int,
    j: int,
    second: bool,
)
    requires
        j <= a.len(),
    ensures
        inner_fold(a, b, i, j, None, second) is None,
    decreases a.len() - j,
{
    if j < 0 || j >= a.len() {
    } else {
        lemma_inner_fold_none(a, b, i, j + 1, second);
    }
}

proof fn lemma_outer_fold_none(
    a: Seq<(i32, Vector2)>,
    b: Seq<(i32, Vector2)>,
    i: int,
    acc1: Option<Ratio>,
    acc2: Option<Ratio>,
)
    requires
        i <= a.len(),
    ensures
        acc1 is None ==> outer_fold(a, b, i, acc1, acc2).0 is None,
        acc2 is None ==> outer_fold(a, b, i, acc1, acc2).1 is None,
    decreases a.len() - i,
{
    if i < 0 || i >= a.len() {
    } else if has_id(b, a[i].0) {
        if acc1 is None {
            lemma_inner_fold_none(a, b, i, i + 1, false);
        }
        if acc2 is None {
            lemma_inner_fold_none(a, b, i, i + 1, true);
        }
        lemma_outer_fold_none(
            a,
            b,
            i + 1,
            inner_fold(a, b, i, i + 1, acc1, false),
            inner_fold(a, b, i, i + 1, acc2, true),
        );
    } else {
        lemma_outer_fold_none(a, b, i + 1, acc1, acc2);
    }
}

/// Pinch signal of a window of two consecutive samples: the change in the
/// summed pairwise distances of the common touches, or `None` when the
/// exact arithmetic overflows.
pub fn pinch_diff(first_set: &TouchSet, second_set: &TouchSet) -> (r: Option<Ratio>)
    requires
        first_set.wf(),
        second_set.wf(),
    ensures
        r == spec_pinch(first_set.data@, second_set.data@),
        r matches Some(v) ==> v.wf(),
{
    let ghost a = first_set.data@;
    let ghost bq = second_set.data@;
    let ghost z = Ratio { num: 0i64, den: 1i64 };
    let n = first_set.data.len();
    let n2 = second_set.data.len();
    proof {
        assert forall|k: int| 0 <= k < a.len() implies (#[trigger] a[k]).1.wf() by {
            assert(first_set.data@[k] == a[k]);
        }
        assert forall|k: int| 0 <= k < bq.len() implies (#[trigger] bq[k]).1.wf() by {
            assert(second_set.data@[k] == bq[k]);
        }
    }
    let mut first_dist = Ratio::zero();
    let mut second_dist = Ratio::zero();
    let mut i: usize = 0;
    while i < n
        invariant
            i <= n,
            n == a.len(),
            n2 == bq.len(),
            a == first_set.data@,
            bq == second_set.data@,
            a == first_set.data@,
            bq == second_set.data@,
            forall|k: int| 0 <= k < a.len() ==> (#[trigger] a[k]).1.wf(),
            forall|k: int| 0 <= k < bq.len() ==> (#[trigger] bq[k]).1.wf(),
            first_dist.wf(),
            second_dist.wf(),
            z == (Ratio { num: 0i64, den: 1i64 }),
            outer_fold(a, bq, i as int, Some(first_dist), Some(second_dist)) == outer_fold(
                a,
                bq,
                0,
                Some(z),
                Some(z),
            ),
        decreases n - i,
    {
        let (id_i, pi) = first_set.data[i];
        match find_touch(&second_set.data, id_i) {
            None => {
                proof {
                    assert(!has_id(bq, a[i as int].0));
                    assert(outer_fold(a, bq, i as int, Some(first_dist), Some(second_dist))
                        == outer_fold(a, bq, i + 1, Some(first_dist), Some(second_dist)));
                }
            },
            Some(bi) => {
                let ghost facc_entry = first_dist;
                let ghost sacc_entry = second_dist;
                let qi = second_set.data[bi].1;
                let mut j: usize = i + 1;
                let mut failed = false;
                while j < n && !failed
                    invariant
                        i < j <= n,
                        i < n,
                        n == a.len(),
                        n2 == bq.len(),
                        a == first_set.data@,
                        bq == second_set.data@,
                        forall|k: int| 0 <= k < a.len() ==> (#[trigger] a[k]).1.wf(),
                        forall|k: int| 0 <= k < bq.len() ==> (#[trigger] bq[k]).1.wf(),
                        first_dist.wf(),
                        second_dist.wf(),
                        has_id(bq, a[i as int].0),
                        pi == a[i as int].1,
                        pi.wf(),
                        qi == touch_lookup(bq, a[i as int].0),
                        qi.wf(),
                        !failed ==> inner_fold(a, bq, i as int, j as int, Some(first_dist), false)
                            == inner_fold(a, bq, i as int, i + 1, Some(facc_entry), false),
                        !failed ==> inner_fold(a, bq, i as int, j as int, Some(second_dist), true)
                            == inner_fold(a, bq, i as int, i + 1, Some(sacc_entry), true),
                        failed ==> (inner_fold(a, bq, i as int, i + 1, Some(facc_entry), false)
                            is None || inner_fold(a, bq, i as int, i + 1, Some(sacc_entry), true)
                            is None),
                        z == (Ratio { num: 0i64, den: 1i64 }),
                        outer_fold(a, bq, i as int, Some(facc_entry), Some(sacc_entry))
                            == outer_fold(a, bq, 0, Some(z), Some(z)),
                    decreases n - j,
                {
                    let (id_j, pj) = first_set.data[j];
                    match find_touch(&second_set.data, id_j) {
                        None => {
                        },
                        Some(bj) => {
                            let qj = second_set.data[bj].1;
                            let d1 = match v_sub(pi, pj) {
                                Some(d) => d.magnitude(),
                                None => None,
                            };
                            let d2 = match v_sub(qi, qj) {
                                Some(d) => d.magnitude(),
                                None => None,
                            };
                            let s1 = match d1 {
                                Some(m) => checked_add(first_dist, m),
                                None => None,
                            };
                            let s2 = match d2 {
                                Some(m) => checked_add(second_dist, m),
                                None => None,
                            };
                            proof {
                                assert(d1 == pair_dist(a, bq, i as int, j as int, false));
                                assert(d2 == pair_dist(a, bq, i as int, j as int, true));
                                assert(s1 == acc_add(
                                    Some(first_dist),
                                    pair_dist(a, bq, i as int, j as int, false),
                                ));
                                assert(s2 == acc_add(
                                    Some(second_dist),
                                    pair_dist(a, bq, i as int, j as int, true),
                                ));
                                assert(inner_fold(a, bq, i as int, j as int, Some(first_dist), false)
                                    == inner_fold(a, bq, i as int, j + 1, s1, false));
                                assert(inner_fold(a, bq, i as int, j as int, Some(second_dist), true)
                                    == inner_fold(a, bq, i as int, j + 1, s2, true));
                            }
                            match (s1, s2) {
                                (Some(f2), Some(s2v)) => {
                                    first_dist = f2;
                                    second_dist = s2v;
                                },
                                _ => {
                                    proof {
                                        if s1 is None {
                                            lemma_inner_fold_none(a, bq, i as int, j + 1, false);
                                        } else {
                                            lemma_inner_fold_none(a, bq, i as int, j + 1, true);
                                        }
                                    }
                                    failed = true;
                                },
                            }
                        },
                    }
                    j += 1;
                }
                if failed {
                    proof {
                        let inner1 = inner_fold(a, bq, i as int, i + 1, Some(facc_entry), false);
                        let inner2 = inner_fold(a, bq, i as int, i + 1, Some(sacc_entry), true);
                        assert(inner1 is None || inner2 is None);
                        assert(outer_fold(a, bq, i as int, Some(facc_entry), Some(sacc_entry))
                            == outer_fold(a, bq, i + 1, inner1, inner2));
                        lemma_outer_fold_none(a, bq, i + 1, inner1, inner2);
                        assert(outer_fold(a, bq, i + 1, inner1, inner2).0 is None || outer_fold(
                            a,
                            bq,
                            i + 1,
                            inner1,
                            inner2,
                        ).1 is None);
                        assert(outer_fold(a, bq, 0, Some(z), Some(z)).0 is None || outer_fold(
                            a,
                            bq,
                            0,
                            Some(z),
                            Some(z),
                        ).1 is None);
                        let folded = outer_fold(
                            a,
                            bq,
                            0,
                            Some(Ratio { num: 0i64, den: 1i64 }),
                            Some(Ratio { num: 0i64, den: 1i64 }),
                        );
                        assert(folded == outer_fold(a, bq, 0, Some(z), Some(z)));
                        assert(!(folded.0 is Some && folded.1 is Some));
                        assert(spec_pinch(a, bq) is None);
                    }
                    return None;
                }
                proof {
                    assert(inner_fold(a, bq, i as int, n as int, Some(first_dist), false)
                        == Some(first_dist));
                    assert(inner_fold(a, bq, i as int, n as int, Some(second_dist), true)
                        == Some(second_dist));
                    assert(inner_fold(a, bq, i as int, i + 1, Some(facc_entry), false) == Some(
                        first_dist,
                    ));
                    assert(inner_fold(a, bq, i as int, i + 1, Some(sacc_entry), true) == Some(
                        second_dist,
                    ));
                    assert(outer_fold(a, bq, i as int, Some(facc_entry), Some(sacc_entry))
                        == outer_fold(
                        a,
                        bq,
                        i + 1,
                        inner_fold(a, bq, i as int, i + 1, Some(facc_entry), false),
                        inner_fold(a, bq, i as int, i + 1, Some(sacc_entry), true),
                    ));
                    assert(outer_fold(a, bq, i as int, Some(facc_entry), Some(sacc_entry))
                        == outer_fold(a, bq, i + 1, Some(first_dist), Some(second_dist)));
                }
            },
        }
        i += 1;
    }
    checked_sub(second_dist, first_dist)
}

/// Number of touches of the first sample whose identifier the second
/// sample also has, from position `i` on.
pub open spec fn common_count(a: Seq<(i32, Vector2)>, b: Seq<(i32, Vector2)>, i: int) -> int
    decreases a.len() - i when i <= a.len()
{
    if i < 0 || i >= a.len() {
        0
    } else {
        (if has_id(b, a[i].0) {
            1int
        } else {
            0int
        }) + common_count(a, b, i + 1)
    }
}

/// Checked vector accumulation.
pub open spec fn v_acc_add(acc: Option<Vector2>, t: Option<Vector2>) -> Option<Vector2> {
    match (acc, t) {
        (Some(x), Some(y)) => spec_v_add(x, y),
        _ => None,
    }
}

/// Sum of the positional deltas (first minus second) over the common
/// touches, from position `i` on.
pub open spec fn offset_fold(
    a: Seq<(i32, Vector2)>,
    b: Seq<(i32, Vector2)>,
    i: int,
    acc: Option<Vector2>,
) -> Option<Vector2>
    decreases a.len() - i when i <= a.len()
{
    if i < 0 || i >= a.len() {
        acc
    } else {
        let acc2 = if has_id(b, a[i].0) {
            v_acc_add(acc, spec_v_sub(a[i].1, touch_lookup(b, a[i].0)))
        } else {
            acc
        };
        offset_fold(a, b, i + 1, acc2)
    }
}

/// The pan signal between two samples: the mean positional delta of the
/// common touches, zero with fewer than two of them.
pub open spec fn spec_touch_offset(a: Seq<(i32, Vector2)>, b: Seq<(i32, Vector2)>) -> Option<
    Vector2,
> {
    let z = Ratio { num: 0i64, den: 1i64 };
    let zv = Vector2 { x: z, y: z };
    if common_count(a, b, 0) < 2 {
        Some(zv)
    } else {
        match offset_fold(a, b, 0, Some(zv)) {
            Some(s) => {
                let c = Ratio { num: common_count(a, b, 0) as i64, den: 1i64 };
                match (spec_div(s.x, c), spec_div(s.y, c)) {
                    (Some(x), Some(y)) => Some(Vector2 { x, y }),
                    _ => None,
                }
            },
            None => None,
        }
    }
}

proof fn lemma_offset_fold_none(a: Seq<(i32, Vector2)>, b: Seq<(i32, Vector2)>, i: int)
    requires
        i <= a.len(),
    ensures
        offset_fold(a, b, i, None) is None,
    decreases a.len() - i,
{
    if i < 0 || i >= a.len() {
    } else {
        lemma_offset_fold_none(a, b, i + 1);
    }
}

proof fn lemma_common_count_bound(a: Seq<(i32, Vector2)>, b: Seq<(i32, Vector2)>, i: int)
    requires
        0 <= i <= a.len(),
    ensures
        0 <= common_count(a, b, i) <= a.len() - i,
    decreases a.len() - i,
{
    if i >= a.len() {
    } else {
        lemma_common_count_bound(a, b, i + 1);
    }
}

/// Pan signal of a window of two consecutive samples: the mean positional
/// delta of the common touches (zero with fewer than two), or `None` when
/// the exact arithmetic overflows.
pub fn touch_offset(first_set: &TouchSet, second_set: &TouchSet) -> (r: Option<Vector2>)
    requires
        first_set.wf(),
        second_set.wf(),
    ensures
        r == spec_touch_offset(first_set.data@, second_set.data@),
        r matches Some(v) ==> v.wf(),
{
    let ghost a = first_set.data@;
    let ghost bq = second_set.data@;
    let n = first_set.data.len();
    let n2 = second_set.data.len();
    proof {
        assert forall|k: int| 0 <= k < a.len() implies (#[trigger] a[k]).1.wf() by {
            assert(first_set.data@[k] == a[k]);
        }
        assert forall|k: int| 0 <= k < bq.len() implies (#[trigger] bq[k]).1.wf() by {
            assert(second_set.data@[k] == bq[k]);
        }
    }

    // First pass: how many touches are common.
    let mut count: usize = 0;
    let mut i: usize = 0;
    while i < n
        invariant
            i <= n,
            n == a.len(),
            a == first_set.data@,
            bq == second_set.data@,
            a == first_set.data@,
            bq == second_set.data@,
            count + common_count(a, bq, i as int) == common_count(a, bq, 0),
            count <= i,
        decreases n - i,
    {
        let (id_i, _) = first_set.data[i];
        match find_touch(&second_set.data, id_i) {
            Some(_) => {
                count += 1;
            },
            None => {
            },
        }
        i += 1;
    }
    let zv = Vector2 { x: Ratio::zero(), y: Ratio::zero() };
    if count < 2 {
        return Some(zv);
    }

    // Second pass: sum the deltas of the common touches.
    let mut acc = zv;
    let mut i2: usize = 0;
    while i2 < n
        invariant
            i2 <= n,
            n == a.len(),
            n2 == bq.len(),
            n <= 0x7fff_ffff,
            a == first_set.data@,
            bq == second_set.data@,
            a == first_set.data@,
            bq == second_set.data@,
            forall|k: int| 0 <= k < a.len() ==> (#[trigger] a[k]).1.wf(),
            forall|k: int| 0 <= k < bq.len() ==> (#[trigger] bq[k]).1.wf(),
            count as int == common_count(a, bq, 0),
            2 <= count <= n,
            acc.wf(),
            offset_fold(a, bq, i2 as int, Some(acc)) == offset_fold(a, bq, 0, Some(zv)),
            zv == (Vector2 {
                x: Ratio { num: 0i64, den: 1i64 },
                y: Ratio { num: 0i64, den: 1i64 },
            }),
        decreases n - i2,
    {
        let (id_i, pi) = first_set.data[i2];
        match find_touch(&second_set.data, id_i) {
            None => {
            },
            Some(bi) => {
                let qi = second_set.data[bi].1;
                proof {
                    assert(qi == touch_lookup(bq, a[i2 as int].0));
                    assert(pi == a[i2 as int].1);
                }
                match v_sub(pi, qi) {
                    Some(d) => match v_add(acc, d) {
                        Some(s) => {
                            acc = s;
                        },
                        None => {
                            proof {
                                assert(offset_fold(a, bq, i2 as int, Some(acc)) == offset_fold(
                                    a,
                                    bq,
                                    i2 + 1,
                                    None,
                                ));
                                lemma_offset_fold_none(a, bq, i2 + 1);
                            }
                            return None;
                        },
                    },
                    None => {
                        proof {
                            assert(offset_fold(a, bq, i2 as int, Some(acc)) == offset_fold(
                                a,
                                bq,
                                i2 + 1,
                                None,
                            ));
                            lemma_offset_fold_none(a, bq, i2 + 1);
                        }
                        return None;
                    },
                }
            },
        }
        i2 += 1;
    }
    let c = Ratio::from_int(count as i64);
    match (checked_div(acc.x, c), checked_div(acc.y, c)) {
        (Some(x), Some(y)) => Some(Vector2 { x, y }),
        _ => None,
    }
}

} // verus!
