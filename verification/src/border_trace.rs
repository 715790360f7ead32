//! Border tracer: walks one region's boundary-edge coordinates on the
//! doubled grid and emits closed polygon rings, each compressed by a
//! collinearity filter that drops interior points of straight runs.

use vstd::prelude::*;

use crate::rotation::Rotation;
use crate::rotation::direction_cycle;
use crate::rotation::direction_dx;
use crate::rotation::direction_dy;

verus! {

/// The sign of an integer: -1, 0 or 1.
pub open spec fn sgn(x: int) -> int {
    if x > 0 {
        1
    } else if x < 0 {
        -1
    } else {
        0
    }
}

/// The component-wise step direction from `a` to `b`.
pub open spec fn step_dir(a: (i64, i64), b: (i64, i64)) -> (int, int) {
    (sgn(b.0 - a.0), sgn(b.1 - a.1))
}

/// An interior point of a trace is a corner when its incoming and outgoing
/// step directions differ; the collinearity filter keeps exactly the corners.
pub open spec fn is_corner(s: Seq<(i64, i64)>, i: int) -> bool
    recommends
        1 <= i <= s.len() - 2,
{
    step_dir(s[i - 1], s[i]) != step_dir(s[i], s[i + 1])
}

/// The corners among the interior points of `s` with index below `k`,
/// in trace order.
pub open spec fn kept_interior(s: Seq<(i64, i64)>, k: int) -> Seq<(i64, i64)>
    decreases k,
{
    if k <= 1 {
        Seq::empty()
    } else {
        kept_interior(s, k - 1) + if is_corner(s, k - 1) {
            seq![s[k - 1]]
        } else {
            Seq::empty()
        }
    }
}

/// What the collinearity filter returns on a nonempty trace: the first point,
/// the interior corners, and the last point.
pub open spec fn simplify_spec(s: Seq<(i64, i64)>) -> Seq<(i64, i64)>
    recommends
        s.len() >= 1,
{
    seq![s[0]] + kept_interior(s, s.len() - 1) + seq![s.last()]
}

/// The indices of the interior corners of `s` below `k`, in trace order:
/// the indices whose points `kept_interior` keeps.
pub open spec fn corner_indices(s: Seq<(i64, i64)>, k: int) -> Seq<int>
    decreases k,
{
    if k <= 1 {
        Seq::empty()
    } else {
        corner_indices(s, k - 1) + if is_corner(s, k - 1) {
            seq![k - 1]
        } else {
            Seq::empty()
        }
    }
}

/// Adding two integers of one sign keeps that sign.
proof fn lemma_sgn_add(a: int, b: int)
    requires
        sgn(a) == sgn(b),
    ensures
        sgn(a + b) == sgn(a),
{
}

/// Over a stretch of the trace with no interior corner, every step has one
/// direction, and the straight-line direction from end to end is that same
/// direction.
proof fn lemma_run_dir(s: Seq<(i64, i64)>, u: int, v: int)
    requires
        0 <= u < v <= s.len() - 1,
        forall|m: int| u < m < v ==> !is_corner(s, m),
    ensures
        step_dir(s[u], s[v]) == step_dir(s[u], s[u + 1]),
        step_dir(s[u], s[v]) == step_dir(s[v - 1], s[v]),
    decreases v - u,
{
    if v > u + 1 {
        lemma_run_dir(s, u, v - 1);
        assert(!is_corner(s, v - 1));
        lemma_sgn_add(s[v - 1].0 - s[u].0, s[v].0 - s[v - 1].0);
        lemma_sgn_add(s[v - 1].1 - s[u].1, s[v].1 - s[v - 1].1);
    }
}

/// The corner index list mirrors the kept interior points: it is sorted,
/// lists exactly the interior corners below `k`, and indexes the kept points.
proof fn lemma_corner_props(s: Seq<(i64, i64)>, k: int)
    requires
        k <= s.len() - 1,
    ensures
        corner_indices(s, k).len() == kept_interior(s, k).len(),
        forall|p: int|
            0 <= p < corner_indices(s, k).len() ==> 1 <= #[trigger] corner_indices(s, k)[p] <= k
                - 1 && is_corner(s, corner_indices(s, k)[p]),
        forall|p: int, q: int|
            0 <= p < q < corner_indices(s, k).len() ==> corner_indices(s, k)[p] < corner_indices(
                s,
                k,
            )[q],
        forall|m: int|
            1 <= m <= k - 1 && is_corner(s, m) ==> exists|p: int|
                0 <= p < corner_indices(s, k).len() && corner_indices(s, k)[p] == m,
        forall|p: int|
            0 <= p < corner_indices(s, k).len() ==> #[trigger] kept_interior(s, k)[p] == s[
                corner_indices(s, k)[p]],
    decreases k,
{
    if k > 1 {
        lemma_corner_props(s, k - 1);
        let prev = corner_indices(s, k - 1);
        let cur = corner_indices(s, k);
        if is_corner(s, k - 1) {
            assert forall|m: int|
                1 <= m <= k - 1 && is_corner(s, m) implies exists|p: int|
                0 <= p < cur.len() && cur[p] == m by {
                if m == k - 1 {
                    assert(cur[cur.len() - 1] == m);
                } else {
                    let p = choose|p: int| 0 <= p < prev.len() && prev[p] == m;
                    assert(cur[p] == m);
                }
            }
        } else {
            assert(cur =~= prev);
            assert forall|m: int|
                1 <= m <= k - 1 && is_corner(s, m) implies exists|p: int|
                0 <= p < cur.len() && cur[p] == m by {
                let p = choose|p: int| 0 <= p < prev.len() && prev[p] == m;
                assert(cur[p] == m);
            }
        }
    }
}

/// When every interior point of a trace is a corner, the collinearity filter
/// keeps all of them.
proof fn lemma_all_corners_kept(t: Seq<(i64, i64)>, k: int)
    requires
        1 <= k <= t.len() - 1,
        forall|j: int| 1 <= j <= k - 1 ==> is_corner(t, j),
    ensures
        kept_interior(t, k) == t.subrange(1, k),
    decreases k,
{
    if k == 1 {
        assert(kept_interior(t, 1) =~= t.subrange(1, 1));
    } else {
        lemma_all_corners_kept(t, k - 1);
        assert(is_corner(t, k - 1));
        assert(kept_interior(t, k) =~= t.subrange(1, k));
    }
}

/// The collinearity filter is idempotent: running it on its own output
/// returns that output unchanged. Every point it keeps is an endpoint or a
/// corner of the simplified trace, so a second pass keeps them all again.
pub proof fn lemma_simplify_idempotent(s: Seq<(i64, i64)>)
    requires
        s.len() >= 1,
    ensures
        simplify_spec(simplify_spec(s)) == simplify_spec(s),
{
    let n = s.len() as int;
    let t = simplify_spec(s);
    let c = kept_interior(s, n - 1);
    let ii = corner_indices(s, n - 1);
    lemma_corner_props(s, n - 1);
    assert(t.len() == 2 + c.len());
    assert(t[0] == s[0] && t[t.len() - 1] == s[n - 1]);

    assert forall|j: int| 1 <= j <= t.len() - 2 implies is_corner(t, j) by {
        let p = j - 1;
        let idx = ii[p];
        let prev: int = if p == 0 {
            0
        } else {
            ii[p - 1]
        };
        let nxt: int = if p == ii.len() - 1 {
            n - 1
        } else {
            ii[p + 1]
        };
        assert(t[j] == c[p] && c[p] == s[idx]);
        assert(t[j - 1] == s[prev]);
        assert(t[j + 1] == s[nxt]);
        assert(0 <= prev < idx && idx < nxt <= n - 1);
        assert forall|m: int| prev < m < idx implies !is_corner(s, m) by {
            if is_corner(s, m) {
                let q = choose|q: int| 0 <= q < ii.len() && ii[q] == m;
                if q < p {
                    assert(p == 0 || ii[q] <= ii[p - 1]);
                } else {
                    assert(ii[p] <= ii[q]);
                }
            }
        }
        assert forall|m: int| idx < m < nxt implies !is_corner(s, m) by {
            if is_corner(s, m) {
                let q = choose|q: int| 0 <= q < ii.len() && ii[q] == m;
                if q <= p {
                    assert(ii[q] <= ii[p]);
                } else {
                    assert(p == ii.len() - 1 || ii[p + 1] <= ii[q]);
                }
            }
        }
        lemma_run_dir(s, prev, idx);
        lemma_run_dir(s, idx, nxt);
        assert(is_corner(s, idx));
        assert(step_dir(t[j - 1], t[j]) == step_dir(s[idx - 1], s[idx]));
        assert(step_dir(t[j], t[j + 1]) == step_dir(s[idx], s[idx + 1]));
    }

    lemma_all_corners_kept(t, t.len() - 1);
    assert(simplify_spec(t) =~= t);
}

/// The sign of `x - y`, computed without subtraction so that no coordinate
/// range is needed.
fn cmp_sign(x: i64, y: i64) -> (r: i64)
    ensures
        r == sgn(x - y),
{
    if x > y {
        1
    } else if x < y {
        -1
    } else {
        0
    }
}

/// Drop every interior point whose incoming and outgoing step directions
/// are the same sign, compressing straight runs into their two endpoints.
pub fn remove_unnecessary_coords(geo_trace: Vec<(i64, i64)>) -> (r: Vec<(i64, i64)>)
    requires
        geo_trace.len() >= 1,
    ensures
        r@ == simplify_spec(geo_trace@),
{
    let ghost s = geo_trace@;
    let n = geo_trace.len();
    let mut out: Vec<(i64, i64)> = Vec::new();
    out.push(geo_trace[0]);

    let mut i: usize = 1;
    while i < n - 1
        invariant
            n == s.len(),
            1 <= n,
            geo_trace@ == s,
            1 <= i,
            n >= 2 ==> i <= n - 1,
            n == 1 ==> i == 1,
            out@ == seq![s[0]] + kept_interior(s, i as int),
        decreases n - i,
    {
        let coord = geo_trace[i];
        let backward_coord = geo_trace[i - 1];
        let forward_coord = geo_trace[i + 1];

        let backward_x_diff = cmp_sign(coord.0, backward_coord.0);
        let backward_y_diff = cmp_sign(coord.1, backward_coord.1);
        let forward_x_diff = cmp_sign(forward_coord.0, coord.0);
        let forward_y_diff = cmp_sign(forward_coord.1, coord.1);

        if backward_x_diff == forward_x_diff && backward_y_diff == forward_y_diff {
            proof {
                assert(!is_corner(s, i as int));
            }
        } else {
            out.push(coord);
            proof {
                assert(is_corner(s, i as int));
            }
        }
        proof {
            assert(kept_interior(s, i + 1) == kept_interior(s, i as int) + if is_corner(
                s,
                i as int,
            ) {
                seq![s[i as int]]
            } else {
                Seq::empty()
            });
            assert(out@ =~= seq![s[0]] + kept_interior(s, i + 1));
        }
        i = i + 1;
    }

    out.push(geo_trace[n - 1]);
    proof {
        if n == 1 {
            assert(kept_interior(s, 0) == Seq::<(i64, i64)>::empty());
        }
        assert(out@ =~= simplify_spec(s));
    }
    out
}

/// Every point the collinearity filter keeps comes from the input trace.
proof fn lemma_simplify_points_from(s: Seq<(i64, i64)>)
    requires
        s.len() >= 1,
    ensures
        forall|j: int|
            0 <= j < simplify_spec(s).len() ==> s.contains(#[trigger] simplify_spec(s)[j]),
{
    lemma_corner_props(s, s.len() - 1);
    let t = simplify_spec(s);
    assert forall|j: int| 0 <= j < t.len() implies s.contains(t[j]) by {
        if j == 0 {
            assert(t[j] == s[0]);
        } else if j == t.len() - 1 {
            assert(t[j] == s[s.len() - 1]);
        } else {
            assert(t[j] == kept_interior(s, s.len() - 1)[j - 1]);
            assert(t[j] == s[corner_indices(s, s.len() - 1)[j - 1]]);
        }
    }
}

/// The cross product term the shoelace formula sums for one edge.
pub open spec fn cross(a: (i64, i64), b: (i64, i64)) -> int {
    a.0 * b.1 - b.0 * a.1
}

/// The shoelace sum over the first `k` edges of a ring.
pub open spec fn shoelace_upto(s: Seq<(i64, i64)>, k: int) -> int
    decreases k,
{
    if k <= 0 {
        0
    } else {
        shoelace_upto(s, k - 1) + cross(s[k - 1], s[k])
    }
}

/// The absolute value of an integer.
pub open spec fn abs_int(x: int) -> int {
    if x < 0 {
        -x
    } else {
        x
    }
}

/// The enclosed area of a closed ring on the doubled grid, in pixel units:
/// the shoelace sum is twice the signed area in doubled-grid units, which is
/// eight times the area in pixel units.
pub open spec fn ring_area_spec(s: Seq<(i64, i64)>) -> int {
    abs_int(shoelace_upto(s, s.len() - 1)) / 8
}

/// The largest coordinate magnitude the area computation accepts.
pub const AREA_COORD_LIMIT: i64 = 0x4000_0000;

/// All coordinates are small enough for the area computation.
pub open spec fn coords_within_area_limit(s: Seq<(i64, i64)>) -> bool {
    forall|i: int|
        0 <= i < s.len() ==> -AREA_COORD_LIMIT <= (#[trigger] s[i]).0 <= AREA_COORD_LIMIT
            && -AREA_COORD_LIMIT <= s[i].1 <= AREA_COORD_LIMIT
}

/// The enclosed area of a ring in pixel units, by the shoelace formula on
/// the doubled grid.
pub fn ring_area(ring: &Vec<(i64, i64)>) -> (a: u128)
    requires
        coords_within_area_limit(ring@),
    ensures
        a == ring_area_spec(ring@),
{
    let n = ring.len();
    if n == 0 {
        return 0;
    }
    let mut acc: i128 = 0;
    let mut i: usize = 0;
    while i < n - 1
        invariant
            n == ring@.len(),
            1 <= n,
            coords_within_area_limit(ring@),
            i <= n - 1,
            acc == shoelace_upto(ring@, i as int),
            -(i as int) * 0x2000_0000_0000_0000 <= acc <= (i as int) * 0x2000_0000_0000_0000,
        decreases n - 1 - i,
    {
        let p = ring[i];
        let q = ring[i + 1];
        proof {
            assert(-0x1000_0000_0000_0000 <= (p.0 as int) * (q.1 as int) <= 0x1000_0000_0000_0000)
                by (nonlinear_arith)
                requires
                    -0x4000_0000 <= p.0 as int <= 0x4000_0000,
                    -0x4000_0000 <= q.1 as int <= 0x4000_0000,
            ;
            assert(-0x1000_0000_0000_0000 <= (q.0 as int) * (p.1 as int) <= 0x1000_0000_0000_0000)
                by (nonlinear_arith)
                requires
                    -0x4000_0000 <= q.0 as int <= 0x4000_0000,
                    -0x4000_0000 <= p.1 as int <= 0x4000_0000,
            ;
        }
        let cross_term: i128 = (p.0 as i128) * (q.1 as i128) - (q.0 as i128) * (p.1 as i128);
        acc = acc + cross_term;
        i = i + 1;
    }
    let magnitude: i128 = if acc < 0 {
        -acc
    } else {
        acc
    };
    (magnitude as u128) / 8
}

/// No coordinate occurs twice.
pub open spec fn no_dup_coords(s: Seq<(i64, i64)>) -> bool {
    forall|i: int, j: int| 0 <= i < j < s.len() ==> s[i] != s[j]
}

/// Every coordinate leaves one step of room inside the i64 range, so that a
/// probe one step away cannot overflow.
pub open spec fn coords_in_range(s: Seq<(i64, i64)>) -> bool {
    forall|i: int|
        0 <= i < s.len() ==> i64::MIN < (#[trigger] s[i]).0 < i64::MAX && i64::MIN < s[i].1
            < i64::MAX
}

/// The probe budget of one walk over a set of `n` coordinates: four rounds
/// per coordinate, plus slack. Each step of the walk is a function of its
/// current coordinate and facing alone, and there are only four facings per
/// set coordinate, so a walk that outlives this budget has repeated a
/// (coordinate, facing) state and is cycling: the cut-off discards only
/// walks that could never return to their start, exactly as a dead end is
/// discarded.
pub open spec fn walk_fuel(n: nat) -> nat {
    4 * n + 4
}

/// The neighbor of `c` one step in direction number `p` of the cycle.
pub open spec fn probe(c: (i64, i64), p: int) -> (i64, i64) {
    (
        (c.0 + direction_dx(direction_cycle()[p])) as i64,
        (c.1 + direction_dy(direction_cycle()[p])) as i64,
    )
}

/// One walk, step by step: from `current`, facing direction `p`, probe the
/// facing neighbor, then one turn forward, then one turn backward from the
/// starting facing; follow the first set member found, close when the start
/// is reached again, stop on a dead end or when the fuel runs out.
pub open spec fn walk_from(
    set: Seq<(i64, i64)>,
    start: (i64, i64),
    current: (i64, i64),
    p: int,
    trace: Seq<(i64, i64)>,
    fuel: nat,
) -> Seq<(i64, i64)>
    decreases fuel,
{
    if fuel == 0 {
        trace
    } else {
        let n1 = probe(current, p);
        if set.contains(n1) {
            if n1 == start {
                trace.push(n1)
            } else {
                walk_from(set, start, n1, p, trace.push(n1), (fuel - 1) as nat)
            }
        } else {
            let p2 = (p + 1) % 4;
            let n2 = probe(current, p2);
            if set.contains(n2) {
                if n2 == start {
                    trace.push(n2)
                } else {
                    walk_from(set, start, n2, p2, trace.push(n2), (fuel - 1) as nat)
                }
            } else {
                let p3 = (p + 3) % 4;
                let n3 = probe(current, p3);
                if set.contains(n3) {
                    if n3 == start {
                        trace.push(n3)
                    } else {
                        walk_from(set, start, n3, p3, trace.push(n3), (fuel - 1) as nat)
                    }
                } else {
                    trace
                }
            }
        }
    }
}

/// The whole trace of one walk: it begins at `start`, facing down, with
/// the probe budget the set's size affords.
pub open spec fn walk_trace(set: Seq<(i64, i64)>, start: (i64, i64)) -> Seq<(i64, i64)> {
    walk_from(set, start, start, 2, seq![start], walk_fuel(set.len()))
}

/// The input with later duplicates dropped: the coordinate set the tracer
/// drains, in first-occurrence order.
pub open spec fn dedup_coords_spec(s: Seq<(i64, i64)>) -> Seq<(i64, i64)>
    decreases s.len(),
{
    if s.len() == 0 {
        Seq::empty()
    } else {
        let prefix = dedup_coords_spec(s.drop_last());
        if prefix.contains(s.last()) {
            prefix
        } else {
            prefix.push(s.last())
        }
    }
}

/// A nonempty input's deduplication keeps its first coordinate first.
pub proof fn lemma_dedup_first(s: Seq<(i64, i64)>)
    requires
        s.len() >= 1,
    ensures
        dedup_coords_spec(s).len() >= 1,
        dedup_coords_spec(s)[0] == s[0],
    decreases s.len(),
{
    if s.len() > 1 {
        lemma_dedup_first(s.drop_last());
        assert(s.drop_last()[0] == s[0]);
    } else {
        assert(dedup_coords_spec(s.drop_last()) == Seq::<(i64, i64)>::empty());
    }
}

/// The set with the first occurrence of `x` taken out, if any.
pub open spec fn remove_first_coord(set: Seq<(i64, i64)>, x: (i64, i64)) -> Seq<(i64, i64)>
    decreases set.len(),
{
    if set.len() == 0 {
        set
    } else if set[0] == x {
        set.drop_first()
    } else {
        seq![set[0]] + remove_first_coord(set.drop_first(), x)
    }
}

/// The set with one walk's trace drained from it, coordinate by coordinate.
pub open spec fn remove_trace_coords(set: Seq<(i64, i64)>, trace: Seq<(i64, i64)>) -> Seq<
    (i64, i64),
>
    decreases trace.len(),
{
    if trace.len() == 0 {
        set
    } else {
        remove_trace_coords(remove_first_coord(set, trace[0]), trace.drop_first())
    }
}

proof fn lemma_remove_first_at(s: Seq<(i64, i64)>, x: (i64, i64), i: int)
    requires
        0 <= i < s.len(),
        s[i] == x,
        forall|j: int| 0 <= j < i ==> s[j] != x,
    ensures
        remove_first_coord(s, x) == s.remove(i),
    decreases s.len(),
{
    if i == 0 {
        assert(remove_first_coord(s, x) =~= s.remove(0));
    } else {
        lemma_remove_first_at(s.drop_first(), x, i - 1);
        assert(remove_first_coord(s, x) =~= s.remove(i));
    }
}

proof fn lemma_remove_first_none(s: Seq<(i64, i64)>, x: (i64, i64))
    requires
        forall|j: int| 0 <= j < s.len() ==> s[j] != x,
    ensures
        remove_first_coord(s, x) == s,
    decreases s.len(),
{
    if s.len() > 0 {
        lemma_remove_first_none(s.drop_first(), x);
        assert(remove_first_coord(s, x) =~= s);
    }
}

/// Draining one more coordinate continues the fold.
proof fn lemma_remove_trace_snoc(set: Seq<(i64, i64)>, t: Seq<(i64, i64)>, x: (i64, i64))
    ensures
        remove_trace_coords(set, t.push(x)) == remove_first_coord(remove_trace_coords(set, t), x),
    decreases t.len(),
{
    if t.len() == 0 {
        assert(t.push(x).drop_first() =~= Seq::<(i64, i64)>::empty());
        assert(t.push(x)[0] == x);
        assert(remove_trace_coords(set, t.push(x)) == remove_trace_coords(
            remove_first_coord(set, x),
            Seq::<(i64, i64)>::empty(),
        ));
        assert(remove_trace_coords(set, t) == set);
    } else {
        assert(t.push(x)[0] == t[0]);
        assert(t.push(x).drop_first() =~= t.drop_first().push(x));
        lemma_remove_trace_snoc(remove_first_coord(set, t[0]), t.drop_first(), x);
        assert(remove_trace_coords(set, t.push(x)) == remove_trace_coords(
            remove_first_coord(set, t[0]),
            t.drop_first().push(x),
        ));
        assert(remove_trace_coords(set, t) == remove_trace_coords(
            remove_first_coord(set, t[0]),
            t.drop_first(),
        ));
    }
}

/// The rings the drain loop emits from a duplicate-free coordinate set:
/// walk from `start`, drain the walked coordinates, keep the walk's
/// simplified trace when it closed on at least three distinct points, and
/// go on from the first leftover coordinate until the set is empty.
pub open spec fn drain_rings(set: Seq<(i64, i64)>, start: (i64, i64)) -> Seq<Seq<(i64, i64)>>
    decreases set.len(),
{
    let tr = walk_trace(set, start);
    let rest = remove_trace_coords(set, tr);
    let emitted: Seq<Seq<(i64, i64)>> = if tr.len() > 1 && tr[0] == tr[tr.len() - 1]
        && simplify_spec(tr).len() >= 4 {
        seq![simplify_spec(tr)]
    } else {
        Seq::empty()
    };
    if 0 < rest.len() < set.len() {
        emitted + drain_rings(rest, rest[0])
    } else {
        emitted
    }
}

/// Exactly what the tracer returns on a nonempty input: the drain of the
/// deduplicated coordinate set, started at the input's first coordinate.
pub open spec fn traced_rings_spec(input: Seq<(i64, i64)>) -> Seq<Seq<(i64, i64)>>
    recommends
        input.len() >= 1,
{
    drain_rings(dedup_coords_spec(input), input[0])
}

/// A ring list as a sequence of coordinate sequences.
pub open spec fn rings_seq(v: Seq<Vec<(i64, i64)>>) -> Seq<Seq<(i64, i64)>> {
    v.map(|i: int, r: Vec<(i64, i64)>| r@)
}

/// Component-wise equality of two coordinates.
fn coord_eq(a: (i64, i64), b: (i64, i64)) -> (r: bool)
    ensures
        r == (a == b),
{
    a.0 == b.0 && a.1 == b.1
}

/// Whether the coordinate set holds `c`.
fn coords_contain(v: &Vec<(i64, i64)>, c: (i64, i64)) -> (r: bool)
    ensures
        r == v@.contains(c),
{
    let n = v.len();
    let mut i: usize = 0;
    while i < n
        invariant
            n == v.len(),
            i <= n,
            forall|j: int| 0 <= j < i ==> v@[j] != c,
        decreases n - i,
    {
        if coord_eq(v[i], c) {
            return true;
        }
        i = i + 1;
    }
    false
}

/// Remove the one occurrence of `c` from a duplicate-free coordinate set,
/// if it is there.
fn remove_coord(v: &mut Vec<(i64, i64)>, c: (i64, i64))
    requires
        no_dup_coords(old(v)@),
    ensures
        final(v)@ == remove_first_coord(old(v)@, c),
        no_dup_coords(final(v)@),
        forall|x: (i64, i64)| final(v)@.contains(x) <==> (old(v)@.contains(x) && x != c),
        old(v)@.contains(c) ==> final(v)@.len() == old(v)@.len() - 1,
        !old(v)@.contains(c) ==> final(v)@ == old(v)@,
{
    let ghost s = v@;
    let n = v.len();
    let mut i: usize = 0;
    while i < n
        invariant
            old(v)@ == s,
            v@ == s,
            n == s.len(),
            i <= n,
            no_dup_coords(s),
            forall|j: int| 0 <= j < i ==> s[j] != c,
        decreases n - i,
    {
        if coord_eq(v[i], c) {
            v.remove(i);
            proof {
                assert(v@ == s.remove(i as int));
                lemma_remove_first_at(s, c, i as int);
                assert forall|x: (i64, i64)| v@.contains(x) implies (s.contains(x) && x != c) by {
                    let j = choose|j: int| 0 <= j < v@.len() && v@[j] == x;
                    if j < i {
                        assert(s[j] == x);
                    } else {
                        assert(s[j + 1] == x);
                    }
                }
                assert forall|x: (i64, i64)| s.contains(x) && x != c implies v@.contains(x) by {
                    let j = choose|j: int| 0 <= j < s.len() && s[j] == x;
                    if j < i {
                        assert(v@[j] == x);
                    } else {
                        assert(j != i);
                        assert(v@[j - 1] == x);
                    }
                }
                assert forall|p: int, q: int| 0 <= p < q < v@.len() implies v@[p] != v@[q] by {
                    let sp: int = if p < i {
                        p
                    } else {
                        p + 1
                    };
                    let sq: int = if q < i {
                        q
                    } else {
                        q + 1
                    };
                    assert(v@[p] == s[sp] && v@[q] == s[sq]);
                }
            }
            return ;
        }
        i = i + 1;
    }
    proof {
        assert(!s.contains(c)) by {
            if s.contains(c) {
                let j = choose|j: int| 0 <= j < s.len() && s[j] == c;
                assert(s[j] != c);
            }
        }
        lemma_remove_first_none(s, c);
    }
}

/// Walk one candidate ring: starting at `start`, repeatedly probe the grid
/// neighbors in rotational order, following set members until the walk
/// returns to its start, dead-ends, or runs out of steps.
fn walk_ring(set: &Vec<(i64, i64)>, start: (i64, i64)) -> (trace: Vec<(i64, i64)>)
    requires
        set@.len() <= 0x1000_0000_0000_0000,
        coords_in_range(set@),
        set@.contains(start),
    ensures
        trace@ == walk_trace(set@, start),
        trace@.len() >= 1,
        trace@[0] == start,
        forall|j: int| 0 <= j < trace@.len() ==> set@.contains(#[trigger] trace@[j]),
{
    let mut rotation = Rotation::new();
    let mut trace: Vec<(i64, i64)> = Vec::new();
    trace.push(start);
    let mut current = start;
    let mut fuel: u64 = 4 * (set.len() as u64) + 4;
    proof {
        assert(trace@ =~= seq![start]);
        assert(fuel as nat == walk_fuel(set@.len()));
    }

    loop
        invariant_except_break
            walk_trace(set@, start) == walk_from(
                set@,
                start,
                current,
                rotation.position as int,
                trace@,
                fuel as nat,
            ),
        invariant
            rotation.wf(),
            coords_in_range(set@),
            set@.contains(start),
            set@.contains(current),
            trace@.len() >= 1,
            trace@[0] == start,
            forall|j: int| 0 <= j < trace@.len() ==> set@.contains(#[trigger] trace@[j]),
        ensures
            trace@ == walk_trace(set@, start),
            trace@.len() >= 1,
            trace@[0] == start,
            forall|j: int| 0 <= j < trace@.len() ==> set@.contains(#[trigger] trace@[j]),
        decreases fuel,
    {
        let ghost p = rotation.position as int;
        let ghost t0 = trace@;
        let ghost f0 = fuel as nat;
        if fuel == 0 {
            break ;
        }
        fuel = fuel - 1;

        let next_coord = rotation.next_coord(current);
        proof {
            assert(next_coord == probe(current, p));
        }
        if coords_contain(set, next_coord) {
            trace.push(next_coord);
            if coord_eq(next_coord, start) {
                break ;
            }
            current = next_coord;
            continue ;
        } else {
            rotation.cycle_forward();
        }

        let next_coord = rotation.next_coord(current);
        proof {
            assert(rotation.position as int == (p + 1) % 4);
            assert(next_coord == probe(current, (p + 1) % 4));
        }
        if coords_contain(set, next_coord) {
            trace.push(next_coord);
            if coord_eq(next_coord, start) {
                break ;
            }
            current = next_coord;
            continue ;
        } else {
            rotation.cycle_backward();
            rotation.cycle_backward();
        }

        let next_coord = rotation.next_coord(current);
        proof {
            assert(rotation.position as int == (p + 3) % 4);
            assert(next_coord == probe(current, (p + 3) % 4));
        }
        if coords_contain(set, next_coord) {
            trace.push(next_coord);
            if coord_eq(next_coord, start) {
                break ;
            }
            current = next_coord;
        } else {
            break ;
        }
    }
    trace
}

/// What the tracer guarantees of every ring it emits: the ring is closed
/// with at least three distinct points, already collinearity-simplified,
/// and made of input coordinates.
pub open spec fn traced_ring(ring: Seq<(i64, i64)>, input: Seq<(i64, i64)>) -> bool {
    &&& ring.len() >= 4
    &&& ring[0] == ring[ring.len() - 1]
    &&& simplify_spec(ring) == ring
    &&& forall|j: int| 0 <= j < ring.len() ==> input.contains(#[trigger] ring[j])
}

/// Trace one region's boundary-edge coordinates into zero or more closed
/// polygon rings. The edge set is drained destructively: after each walk the
/// visited coordinates leave the set, a walk that fails to close or
/// degenerates to fewer than three distinct points is discarded, and tracing
/// restarts from a leftover coordinate until the set is empty. The rings
/// stay on the doubled grid; a caller that wants pixel units halves them.
/// The result is pinned exactly: it equals `traced_rings_spec`, the
/// drain-and-walk of the deduplicated input. The walk's direction-rotation
/// probing is a heuristic — on a self-touching boundary it may pick the
/// wrong branch — so which rings close is whatever that specification says,
/// and every emitted ring is moreover closed, simplified, and made of input
/// coordinates.
pub fn border_to_geojson_coords(border_coords: Vec<(i64, i64)>) -> (rings: Vec<Vec<(i64, i64)>>)
    requires
        border_coords@.len() >= 1,
        border_coords@.len() <= 0x1000_0000_0000_0000,
        coords_in_range(border_coords@),
    ensures
        rings_seq(rings@) == traced_rings_spec(border_coords@),
        forall|i: int|
            0 <= i < rings@.len() ==> traced_ring(#[trigger] rings@[i]@, border_coords@),
{
    let ghost input = border_coords@;
    let n = border_coords.len();

    let mut set: Vec<(i64, i64)> = Vec::new();
    let mut i: usize = 0;
    proof {
        assert(dedup_coords_spec(input.take(0)) =~= Seq::<(i64, i64)>::empty());
    }
    while i < n
        invariant
            n == border_coords.len(),
            border_coords@ == input,
            i <= n,
            n <= 0x1000_0000_0000_0000,
            coords_in_range(input),
            no_dup_coords(set@),
            set@.len() <= i,
            set@ == dedup_coords_spec(input.take(i as int)),
            forall|x: (i64, i64)| set@.contains(x) ==> input.contains(x),
            forall|j: int| 0 <= j < i ==> set@.contains(#[trigger] input[j]),
            coords_in_range(set@),
        decreases n - i,
    {
        let c = border_coords[i];
        let ghost s0 = set@;
        proof {
            assert(input.take(i + 1).drop_last() =~= input.take(i as int));
            assert(input.take(i + 1).last() == c);
        }
        if !coords_contain(&set, c) {
            set.push(c);
            proof {
                assert(set@ == dedup_coords_spec(input.take(i + 1)));
                assert forall|x: (i64, i64)| set@.contains(x) implies input.contains(x) by {
                    let j = choose|j: int| 0 <= j < set@.len() && set@[j] == x;
                    if j < s0.len() {
                        assert(s0[j] == x);
                    }
                }
                assert forall|j: int| 0 <= j < i + 1 implies set@.contains(
                    #[trigger] input[j],
                ) by {
                    if j < i as int {
                        let m = choose|m: int| 0 <= m < s0.len() && s0[m] == input[j];
                        assert(set@[m] == input[j]);
                    } else {
                        assert(set@[set@.len() - 1] == c);
                    }
                }
                assert(coords_in_range(set@)) by {
                    assert(forall|j: int|
                        0 <= j < set@.len() - 1 ==> set@[j] == s0[j]);
                }
            }
        } else {
            proof {
                assert(set@ == dedup_coords_spec(input.take(i + 1)));
                assert forall|j: int| 0 <= j < i + 1 implies set@.contains(
                    #[trigger] input[j],
                ) by {}
            }
        }
        i = i + 1;
    }
    proof {
        assert(input.take(n as int) =~= input);
        assert(set@ == dedup_coords_spec(input));
        assert(set@.contains(input[0]));
    }

    let mut rings: Vec<Vec<(i64, i64)>> = Vec::new();
    let mut start = border_coords[0];

    proof {
        assert(rings_seq(rings@) =~= Seq::<Seq<(i64, i64)>>::empty());
        assert(traced_rings_spec(input) =~= rings_seq(rings@) + drain_rings(set@, start));
    }
    loop
        invariant_except_break
            set@.contains(start),
            traced_rings_spec(input) == rings_seq(rings@) + drain_rings(set@, start),
        invariant
            set@.len() <= 0x1000_0000_0000_0000,
            coords_in_range(input),
            no_dup_coords(set@),
            forall|x: (i64, i64)| set@.contains(x) ==> input.contains(x),
            coords_in_range(set@),
            forall|i: int| 0 <= i < rings@.len() ==> traced_ring(#[trigger] rings@[i]@, input),
        ensures
            rings_seq(rings@) == traced_rings_spec(input),
            forall|i: int| 0 <= i < rings@.len() ==> traced_ring(#[trigger] rings@[i]@, input),
        decreases set@.len(),
    {
        let ghost set_before = set@;
        let ghost rings_before = rings@;
        let geo_trace = walk_ring(&set, start);
        let ghost tr = geo_trace@;

        let mut j: usize = 0;
        while j < geo_trace.len()
            invariant
                geo_trace@ == tr,
                geo_trace@.len() >= 1,
                geo_trace@[0] == start,
                set_before.contains(start),
                no_dup_coords(set_before),
                no_dup_coords(set@),
                j <= geo_trace@.len(),
                j == 0 ==> set@ == set_before,
                set@ == remove_trace_coords(set_before, tr.take(j as int)),
                forall|x: (i64, i64)| set@.contains(x) ==> set_before.contains(x),
                j >= 1 ==> !set@.contains(start),
                j >= 1 ==> set@.len() <= set_before.len() - 1,
                set@.len() <= set_before.len(),
            decreases geo_trace@.len() - j,
        {
            proof {
                if j == 0 {
                    assert(tr.take(0) =~= Seq::<(i64, i64)>::empty());
                    assert(remove_trace_coords(set_before, tr.take(0)) == set_before);
                }
            }
            remove_coord(&mut set, geo_trace[j]);
            proof {
                lemma_remove_trace_snoc(set_before, tr.take(j as int), tr[j as int]);
                assert(tr.take(j + 1) =~= tr.take(j as int).push(tr[j as int]));
            }
            j = j + 1;
        }
        proof {
            assert(tr.take(tr.len() as int) =~= tr);
            assert(set@ == remove_trace_coords(set_before, tr));
            assert(geo_trace@.len() >= 1);
            assert(!set@.contains(start));
            assert(set@.len() < set_before.len());
            assert forall|x: (i64, i64)| set@.contains(x) implies input.contains(x) by {}
            assert(coords_in_range(set@)) by {
                assert forall|k: int|
                    0 <= k < set@.len() implies i64::MIN < (#[trigger] set@[k]).0 < i64::MAX
                    && i64::MIN < set@[k].1 < i64::MAX by {
                    assert(set@.contains(set@[k]));
                    assert(input.contains(set@[k]));
                    let m = choose|m: int| 0 <= m < input.len() && input[m] == set@[k];
                }
            }
        }

        let trace_len = geo_trace.len();
        if trace_len > 1 && coord_eq(geo_trace[0], geo_trace[trace_len - 1]) {
            let ghost tr = geo_trace@;
            let ring = remove_unnecessary_coords(geo_trace);
            if ring.len() >= 4 {
                proof {
                    lemma_simplify_idempotent(tr);
                    lemma_simplify_points_from(tr);
                    assert(ring@[0] == tr[0]);
                    assert(ring@[ring@.len() - 1] == tr[tr.len() - 1]);
                    assert forall|j2: int| 0 <= j2 < ring@.len() implies input.contains(
                        #[trigger] ring@[j2],
                    ) by {
                        assert(tr.contains(ring@[j2]));
                        let m = choose|m: int| 0 <= m < tr.len() && tr[m] == ring@[j2];
                        assert(set_before.contains(tr[m]));
                    }
                    assert(traced_ring(ring@, input));
                }
                rings.push(ring);
            }
        }

        proof {
            let emitted: Seq<Seq<(i64, i64)>> = if tr.len() > 1 && tr[0] == tr[tr.len() - 1]
                && simplify_spec(tr).len() >= 4 {
                seq![simplify_spec(tr)]
            } else {
                Seq::empty()
            };
            assert(rings_seq(rings@) =~= rings_seq(rings_before) + emitted);
            assert(tr == walk_trace(set_before, start));
            assert(set@ == remove_trace_coords(set_before, walk_trace(set_before, start)));
            if set@.len() > 0 {
                assert(drain_rings(set_before, start) == emitted + drain_rings(set@, set@[0]));
            } else {
                assert(drain_rings(set_before, start) == emitted);
            }
        }
        if set.len() == 0 {
            proof {
                assert(rings_seq(rings@) =~= traced_rings_spec(input));
            }
            break ;
        }
        start = set[0];
        proof {
            assert(set@.contains(set@[0]));
            assert(traced_rings_spec(input) =~= rings_seq(rings@) + drain_rings(set@, start));
        }
    }

    rings
}

} // verus!
