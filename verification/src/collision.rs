//! The combined broad/narrow scan: enumerate every unordered pair of
//! entities that carry both a transform and a bounding box, keep the pairs
//! whose layer/mask filter passes in at least one direction and whose
//! rectangles strictly overlap on both axes, in iteration order.

use vstd::prelude::*;

use crate::world::BoundingBox;
use crate::world::EntityEntry;
use crate::world::Transform;
use crate::world::World;
use crate::world::seq_wf;
use crate::world::spec_can_collide;

verus! {

/// An entity takes part in the scan when it has both a transform and a
/// bounding box.
pub open spec fn is_candidate(e: EntityEntry) -> bool {
    e.transform is Some && e.bounding_box is Some
}

/// Strict overlap of two axis-aligned rectangles: they overlap on the X and
/// the Y projection simultaneously; touching edges do not count.
pub open spec fn boxes_overlap(t1: Transform, b1: BoundingBox, t2: Transform, b2: BoundingBox) -> bool {
    &&& t1.translation.x - b1.half_extend.x < t2.translation.x + b2.half_extend.x
    &&& t1.translation.x + b1.half_extend.x > t2.translation.x - b2.half_extend.x
    &&& t1.translation.y - b1.half_extend.y < t2.translation.y + b2.half_extend.y
    &&& t1.translation.y + b1.half_extend.y > t2.translation.y - b2.half_extend.y
}

/// The records at `i` and `j` form a reported pair: both are candidates, the
/// layer/mask filter passes in at least one direction, and the boxes strictly
/// overlap.
pub open spec fn eligible_pair(w: Seq<EntityEntry>, i: int, j: int) -> bool {
    &&& is_candidate(w[i])
    &&& is_candidate(w[j])
    &&& (spec_can_collide(w[i].bounding_box->0, w[j].bounding_box->0) || spec_can_collide(
        w[j].bounding_box->0,
        w[i].bounding_box->0,
    ))
    &&& boxes_overlap(w[i].transform->0, w[i].bounding_box->0, w[j].transform->0, w[j].bounding_box->0)
}

/// The pairs `(i, k)` for `k` in `[j, w.len())`, in order.
pub open spec fn scan_row(w: Seq<EntityEntry>, i: int, j: int) -> Seq<(u64, u64)>
    decreases w.len() - j,
{
    if j >= w.len() {
        Seq::empty()
    } else {
        let rest = scan_row(w, i, j + 1);
        if eligible_pair(w, i, j) {
            seq![(w[i].id, w[j].id)] + rest
        } else {
            rest
        }
    }
}

/// The pairs `(a, b)` for `i <= a < b < w.len()`, in lexicographic order of
/// `(a, b)`.
pub open spec fn scan_from(w: Seq<EntityEntry>, i: int) -> Seq<(u64, u64)>
    decreases w.len() - i,
{
    if i >= w.len() {
        Seq::empty()
    } else {
        scan_row(w, i, i + 1) + scan_from(w, i + 1)
    }
}

/// Every colliding, filter-eligible pair of the world, in the iteration
/// order of the entity sequence.
pub open spec fn scan_spec(w: Seq<EntityEntry>) -> Seq<(u64, u64)> {
    scan_from(w, 0)
}

/// An element is in a concatenation exactly when it is in one of the parts.
pub(crate) proof fn lemma_concat_contains<T>(s1: Seq<T>, s2: Seq<T>, x: T)
    ensures
        (s1 + s2).contains(x) <==> s1.contains(x) || s2.contains(x),
{
    if s1.contains(x) {
        let n = choose|n: int| 0 <= n < s1.len() && s1[n] == x;
        assert((s1 + s2)[n] == x);
    }
    if s2.contains(x) {
        let n = choose|n: int| 0 <= n < s2.len() && s2[n] == x;
        assert((s1 + s2)[s1.len() + n] == x);
    }
    if (s1 + s2).contains(x) {
        let n = choose|n: int| 0 <= n < (s1 + s2).len() && (s1 + s2)[n] == x;
        if n < s1.len() {
            assert(s1[n] == x);
        } else {
            assert(s2[n - s1.len()] == x);
        }
    }
}

/// The elements of one scan row are exactly the id pairs of the eligible
/// pairs `(i, k)` with `k >= j`.
proof fn lemma_scan_row_membership(w: Seq<EntityEntry>, i: int, j: int, p: (u64, u64))
    ensures
        scan_row(w, i, j).contains(p) <==> exists|k: int|
            j <= k < w.len() && #[trigger] eligible_pair(w, i, k) && p == (w[i].id, w[k].id),
    decreases w.len() - j,
{
    if j >= w.len() {
        assert(!scan_row(w, i, j).contains(p));
    } else {
        lemma_scan_row_membership(w, i, j + 1, p);
        let rest = scan_row(w, i, j + 1);
        let cur = scan_row(w, i, j);
        if eligible_pair(w, i, j) {
            let head = seq![(w[i].id, w[j].id)];
            assert(cur == head + rest);
            lemma_concat_contains(head, rest, p);
            if cur.contains(p) {
                if head.contains(p) {
                    assert(p == head[0]);
                    assert(eligible_pair(w, i, j) && p == (w[i].id, w[j].id));
                } else {
                    let k = choose|k: int|
                        j + 1 <= k < w.len() && #[trigger] eligible_pair(w, i, k) && p == (
                        w[i].id,
                        w[k].id,
                        );
                    assert(j <= k < w.len() && eligible_pair(w, i, k) && p == (w[i].id, w[k].id));
                }
            }
            if exists|k: int|
                j <= k < w.len() && #[trigger] eligible_pair(w, i, k) && p == (w[i].id, w[k].id) {
                let k = choose|k: int|
                    j <= k < w.len() && #[trigger] eligible_pair(w, i, k) && p == (
                    w[i].id,
                    w[k].id,
                    );
                if k == j {
                    assert(head[0] == p);
                    assert(head.contains(p));
                } else {
                    assert(rest.contains(p));
                }
                assert(cur.contains(p));
            }
        } else {
            assert(cur == rest);
            if exists|k: int|
                j <= k < w.len() && #[trigger] eligible_pair(w, i, k) && p == (w[i].id, w[k].id) {
                let k = choose|k: int|
                    j <= k < w.len() && #[trigger] eligible_pair(w, i, k) && p == (
                    w[i].id,
                    w[k].id,
                    );
                assert(k != j);
                assert(j + 1 <= k < w.len() && eligible_pair(w, i, k) && p == (w[i].id, w[k].id));
            }
        }
    }
}

/// The elements of the scan's tail from `i` are exactly the id pairs of the
/// eligible pairs `(a, b)` with `i <= a < b`.
proof fn lemma_scan_from_membership(w: Seq<EntityEntry>, i: int, p: (u64, u64))
    ensures
        scan_from(w, i).contains(p) <==> exists|a: int, b: int|
            i <= a < b < w.len() && #[trigger] eligible_pair(w, a, b) && p == (w[a].id, w[b].id),
    decreases w.len() - i,
{
    if i >= w.len() {
        assert(!scan_from(w, i).contains(p));
    } else {
        lemma_scan_from_membership(w, i + 1, p);
        lemma_scan_row_membership(w, i, i + 1, p);
        let row = scan_row(w, i, i + 1);
        let rest = scan_from(w, i + 1);
        lemma_concat_contains(row, rest, p);
        assert(scan_from(w, i) == row + rest);
        if scan_from(w, i).contains(p) {
            if row.contains(p) {
                let k = choose|k: int|
                    i + 1 <= k < w.len() && #[trigger] eligible_pair(w, i, k) && p == (
                    w[i].id,
                    w[k].id,
                    );
                assert(i <= i < k < w.len() && eligible_pair(w, i, k) && p == (w[i].id, w[k].id));
            } else {
                let (a, b) = choose|a: int, b: int|
                    i + 1 <= a < b < w.len() && #[trigger] eligible_pair(w, a, b) && p == (
                    w[a].id,
                    w[b].id,
                    );
                assert(i <= a < b < w.len() && eligible_pair(w, a, b) && p == (w[a].id, w[b].id));
            }
        }
        if exists|a: int, b: int|
            i <= a < b < w.len() && #[trigger] eligible_pair(w, a, b) && p == (w[a].id, w[b].id) {
            let (a, b) = choose|a: int, b: int|
                i <= a < b < w.len() && #[trigger] eligible_pair(w, a, b) && p == (
                w[a].id,
                w[b].id,
                );
            if a == i {
                assert(row.contains(p));
            } else {
                assert(rest.contains(p));
            }
            assert(scan_from(w, i).contains(p));
        }
    }
}

/// Two entities whose boxes do not strictly overlap on both axes are never
/// reported by the scan, in either order.
pub proof fn lemma_scan_excludes_disjoint(w: Seq<EntityEntry>, i: int, j: int)
    requires
        seq_wf(w),
        0 <= i < w.len(),
        0 <= j < w.len(),
        i != j,
        !boxes_overlap(w[i].transform->0, w[i].bounding_box->0, w[j].transform->0, w[j].bounding_box->0),
    ensures
        !scan_spec(w).contains((w[i].id, w[j].id)),
        !scan_spec(w).contains((w[j].id, w[i].id)),
{
    lemma_scan_pair_indices(w, i, j);
}

/// Two entities whose layer/mask filter fails in both directions are never
/// reported by the scan, in either order, however their boxes overlap.
pub proof fn lemma_scan_excludes_filtered(w: Seq<EntityEntry>, i: int, j: int)
    requires
        seq_wf(w),
        0 <= i < w.len(),
        0 <= j < w.len(),
        i != j,
        !spec_can_collide(w[i].bounding_box->0, w[j].bounding_box->0),
        !spec_can_collide(w[j].bounding_box->0, w[i].bounding_box->0),
    ensures
        !scan_spec(w).contains((w[i].id, w[j].id)),
        !scan_spec(w).contains((w[j].id, w[i].id)),
{
    lemma_scan_pair_indices(w, i, j);
}

/// Any reported pair of the ids of records `i` and `j` comes from an
/// eligible pair of exactly those two records.
proof fn lemma_scan_pair_indices(w: Seq<EntityEntry>, i: int, j: int)
    requires
        seq_wf(w),
        0 <= i < w.len(),
        0 <= j < w.len(),
        i != j,
        !eligible_pair(w, i, j),
        !eligible_pair(w, j, i),
    ensures
        !scan_spec(w).contains((w[i].id, w[j].id)),
        !scan_spec(w).contains((w[j].id, w[i].id)),
{
    lemma_scan_from_membership(w, 0, (w[i].id, w[j].id));
    lemma_scan_from_membership(w, 0, (w[j].id, w[i].id));
    if scan_spec(w).contains((w[i].id, w[j].id)) {
        let (a, b) = choose|a: int, b: int|
            0 <= a < b < w.len() && #[trigger] eligible_pair(w, a, b) && (w[i].id, w[j].id) == (
            w[a].id,
            w[b].id,
            );
        assert(a == i && b == j);
    }
    if scan_spec(w).contains((w[j].id, w[i].id)) {
        let (a, b) = choose|a: int, b: int|
            0 <= a < b < w.len() && #[trigger] eligible_pair(w, a, b) && (w[j].id, w[i].id) == (
            w[a].id,
            w[b].id,
            );
        assert(a == j && b == i);
    }
}

/// No element of a sequence appears at two positions.
pub open spec fn no_duplicates<T>(s: Seq<T>) -> bool {
    forall|m: int, n: int| 0 <= m < n < s.len() ==> s[m] != s[n]
}

/// One scan row never repeats a pair: the second ids come from distinct
/// records.
proof fn lemma_scan_row_no_duplicates(w: Seq<EntityEntry>, i: int, j: int)
    requires
        seq_wf(w),
        0 <= i < w.len(),
        i < j,
    ensures
        no_duplicates(scan_row(w, i, j)),
    decreases w.len() - j,
{
    if j >= w.len() {
    } else {
        lemma_scan_row_no_duplicates(w, i, j + 1);
        let rest = scan_row(w, i, j + 1);
        let cur = scan_row(w, i, j);
        if eligible_pair(w, i, j) {
            let p0 = (w[i].id, w[j].id);
            let head = seq![p0];
            assert(cur == head + rest);
            assert(!rest.contains(p0)) by {
                lemma_scan_row_membership(w, i, j + 1, p0);
                if rest.contains(p0) {
                    let k = choose|k: int|
                        j + 1 <= k < w.len() && #[trigger] eligible_pair(w, i, k) && p0 == (
                        w[i].id,
                        w[k].id,
                        );
                    assert(0 <= j < w.len());
                    assert(k != j);
                    assert(w[k].id == w[j].id);
                    assert(w[k].id != w[j].id);
                }
            }
            assert forall|m: int, n: int| 0 <= m < n < cur.len() implies cur[m] != cur[n] by {
                if m == 0 {
                    assert(cur[n] == rest[n - 1]);
                    assert(rest.contains(rest[n - 1]));
                } else {
                    assert(cur[m] == rest[m - 1] && cur[n] == rest[n - 1]);
                }
            }
        } else {
            assert(cur == rest);
        }
    }
}

/// The scan never repeats a pair: every reported pair appears at one
/// position only.
pub proof fn lemma_scan_no_duplicates(w: Seq<EntityEntry>)
    requires
        seq_wf(w),
    ensures
        no_duplicates(scan_spec(w)),
{
    lemma_scan_from_no_duplicates(w, 0);
}

/// Rows of distinct first records never share a pair, so the scan's tail
/// has no duplicate.
proof fn lemma_scan_from_no_duplicates(w: Seq<EntityEntry>, i: int)
    requires
        seq_wf(w),
        0 <= i,
    ensures
        no_duplicates(scan_from(w, i)),
    decreases w.len() - i,
{
    if i >= w.len() {
    } else {
        lemma_scan_from_no_duplicates(w, i + 1);
        lemma_scan_row_no_duplicates(w, i, i + 1);
        let row = scan_row(w, i, i + 1);
        let rest = scan_from(w, i + 1);
        let cur = scan_from(w, i);
        assert(cur == row + rest);
        assert forall|m: int, n: int| 0 <= m < n < cur.len() implies cur[m] != cur[n] by {
            if n < row.len() {
                assert(cur[m] == row[m] && cur[n] == row[n]);
            } else if m >= row.len() {
                assert(cur[m] == rest[m - row.len()] && cur[n] == rest[n - row.len()]);
            } else {
                let p = cur[m];
                assert(row[m] == p);
                assert(row.contains(p));
                lemma_scan_row_membership(w, i, i + 1, p);
                let k = choose|k: int|
                    i + 1 <= k < w.len() && #[trigger] eligible_pair(w, i, k) && p == (
                    w[i].id,
                    w[k].id,
                    );
                let q = cur[n];
                assert(rest[n - row.len()] == q);
                assert(rest.contains(q));
                lemma_scan_from_membership(w, i + 1, q);
                let (a, b) = choose|a: int, b: int|
                    i + 1 <= a < b < w.len() && #[trigger] eligible_pair(w, a, b) && q == (
                    w[a].id,
                    w[b].id,
                    );
                if p == q {
                    assert(w[a].id == w[i].id);
                }
            }
        }
    }
}

/// Two candidate entities whose filter passes in some direction and whose
/// boxes strictly overlap are reported exactly once: as the pair in
/// iteration order, never in the reversed order.
pub proof fn lemma_scan_reports_eligible(w: Seq<EntityEntry>, i: int, j: int)
    requires
        seq_wf(w),
        0 <= i < j < w.len(),
        eligible_pair(w, i, j),
    ensures
        scan_spec(w).contains((w[i].id, w[j].id)),
        !scan_spec(w).contains((w[j].id, w[i].id)),
{
    lemma_scan_from_membership(w, 0, (w[i].id, w[j].id));
    lemma_scan_from_membership(w, 0, (w[j].id, w[i].id));
    if scan_spec(w).contains((w[j].id, w[i].id)) {
        let (a, b) = choose|a: int, b: int|
            0 <= a < b < w.len() && #[trigger] eligible_pair(w, a, b) && (w[j].id, w[i].id) == (
            w[a].id,
            w[b].id,
            );
        assert(a == j && b == i);
    }
}

/// Runs the scan: returns the handles of every unordered pair of candidate
/// entities whose filter passes and whose boxes strictly overlap, each pair
/// once, ordered by the iteration order of the world's records.
pub fn find_collisions(world: &World) -> (r: Vec<(u64, u64)>)
    requires
        world.wf(),
    ensures
        r@ == scan_spec(world.entities@),
{
    let ghost w = world.entities@;
    let n = world.entities.len();
    let mut out: Vec<(u64, u64)> = Vec::new();
    let mut i: usize = 0;
    proof {
        assert(out@ + scan_from(w, 0) =~= scan_from(w, 0));
    }
    while i < n
        invariant
            world.wf(),
            w == world.entities@,
            n == w.len(),
            0 <= i <= n,
            out@ + scan_from(w, i as int) == scan_spec(w),
        decreases n - i,
    {
        let mut j: usize = i + 1;
        proof {
            assert(scan_from(w, i as int) == scan_row(w, i as int, i + 1) + scan_from(w, i + 1));
            assert(out@ + (scan_row(w, i as int, j as int) + scan_from(w, i + 1)) =~= (out@
                + scan_row(w, i as int, j as int)) + scan_from(w, i + 1));
        }
        while j < n
            invariant
                world.wf(),
                w == world.entities@,
                n == w.len(),
                0 <= i < n,
                i < j <= n,
                (out@ + scan_row(w, i as int, j as int)) + scan_from(w, i + 1) == scan_spec(w),
            decreases n - j,
        {
            let e1 = &world.entities[i];
            let e2 = &world.entities[j];
            let ghost out0 = out@;
            proof {
                assert(w[i as int].wf());
                assert(w[j as int].wf());
            }
            match (&e1.transform, &e1.bounding_box, &e2.transform, &e2.bounding_box) {
                (Some(t1), Some(b1), Some(t2), Some(b2)) => {
                    if (b1.can_collide(b2) || b2.can_collide(b1)) && t1.translation.x
                        - b1.half_extend.x < t2.translation.x + b2.half_extend.x && t1.translation.x
                        + b1.half_extend.x > t2.translation.x - b2.half_extend.x && t1.translation.y
                        - b1.half_extend.y < t2.translation.y + b2.half_extend.y && t1.translation.y
                        + b1.half_extend.y > t2.translation.y - b2.half_extend.y {
                        out.push((e1.id, e2.id));
                        proof {
                            assert(eligible_pair(w, i as int, j as int));
                            assert(out@ =~= out0 + seq![(w[i as int].id, w[j as int].id)]);
                        }
                    } else {
                        proof {
                            assert(!eligible_pair(w, i as int, j as int));
                        }
                    }
                },
                _ => {
                    proof {
                        assert(!eligible_pair(w, i as int, j as int));
                    }
                },
            }
            proof {
                assert(scan_row(w, i as int, j as int) == if eligible_pair(w, i as int, j as int) {
                    seq![(w[i as int].id, w[j as int].id)] + scan_row(w, i as int, j + 1)
                } else {
                    scan_row(w, i as int, j + 1)
                });
                assert((out@ + scan_row(w, i as int, j + 1)) + scan_from(w, i + 1) =~= (out0
                    + scan_row(w, i as int, j as int)) + scan_from(w, i + 1));
            }
            j = j + 1;
        }
        proof {
            assert(scan_row(w, i as int, n as int) =~= Seq::<(u64, u64)>::empty());
            assert(out@ + scan_from(w, i + 1) =~= (out@ + scan_row(w, i as int, n as int))
                + scan_from(w, i + 1));
        }
        i = i + 1;
    }
    proof {
        assert(scan_from(w, n as int) =~= Seq::<(u64, u64)>::empty());
        assert(out@ =~= out@ + scan_from(w, n as int));
    }
    out
}

} // verus!
