//! Polygon set algebra over flat ring lists, delegated to the geo crate:
//! conversion between a territory's flat ring list and a multi-polygon, and
//! the union and difference operations that back every territory transfer.
//!
//! Rings live on the doubled integer grid that the border tracer emits.
//! The multi-polygon values themselves are opaque; what the contracts speak
//! of is each value's ring list read back as integers.

use vstd::prelude::*;

use geo::BooleanOps;

verus! {

/// A flat list of polygon rings on the doubled integer grid; exterior and
/// interior rings are not distinguished.
pub type RingList = Vec<Vec<(i64, i64)>>;

/// An opaque multi-polygon of the geometry library. Verus cannot take the
/// library's own type in signatures, so it rides in a hidden field; the
/// contracts describe it through `multi_poly_rings`.
#[verifier::external_body]
pub struct MultiPoly {
    inner: geo::MultiPolygon,
}

/// A ring as a sequence of mathematical integer points.
pub open spec fn ring_view(r: Seq<(i64, i64)>) -> Seq<(int, int)> {
    r.map(|j: int, p: (i64, i64)| (p.0 as int, p.1 as int))
}

/// A ring list as a sequence of integer-point rings.
pub open spec fn rings_view(rs: Seq<Vec<(i64, i64)>>) -> Seq<Seq<(int, int)>> {
    rs.map(|i: int, v: Vec<(i64, i64)>| ring_view(v@))
}

/// The largest coordinate magnitude the geometry layer accepts. Small
/// enough that the boolean operations' internal snapping grid (about the
/// coordinate span divided by two to the 29th) stays finer than one integer
/// unit: integer inputs then convert exactly, and every output vertex reads
/// back inside the inputs' integer span.
pub const GRID_COORD_LIMIT: i64 = 0x800_0000;

/// Every coordinate of the ring is small enough to survive the float
/// conversion exactly.
pub open spec fn ring_on_grid(r: Seq<(i64, i64)>) -> bool {
    forall|i: int|
        0 <= i < r.len() ==> -GRID_COORD_LIMIT <= (#[trigger] r[i]).0 <= GRID_COORD_LIMIT
            && -GRID_COORD_LIMIT <= r[i].1 <= GRID_COORD_LIMIT
}

/// Every ring of the list is exactly convertible.
pub open spec fn rings_on_grid(rs: Seq<Vec<(i64, i64)>>) -> bool {
    forall|i: int| 0 <= i < rs.len() ==> ring_on_grid(#[trigger] rs[i]@)
}

/// The same bound on integer-point rings named out of a multi-polygon.
pub open spec fn view_rings_on_grid(rs: Seq<Seq<(int, int)>>) -> bool {
    forall|i: int, j: int|
        0 <= i < rs.len() && 0 <= j < rs[i].len() ==> -GRID_COORD_LIMIT <= (#[trigger] rs[i][j]).0
            <= GRID_COORD_LIMIT && -GRID_COORD_LIMIT <= rs[i][j].1 <= GRID_COORD_LIMIT
}

/// A ring is closed: empty, or at least two points with the first equal to
/// the last.
pub open spec fn ring_closed(r: Seq<(i64, i64)>) -> bool {
    r.len() == 0 || (r.len() >= 2 && r[0] == r[r.len() - 1])
}

/// Every ring of the list is closed.
pub open spec fn rings_closed(rs: Seq<Vec<(i64, i64)>>) -> bool {
    forall|i: int| 0 <= i < rs.len() ==> ring_closed(#[trigger] rs[i]@)
}

/// Closure of integer-point rings, for ring lists named out of a
/// multi-polygon.
pub open spec fn view_rings_closed(rs: Seq<Seq<(int, int)>>) -> bool {
    forall|i: int|
        0 <= i < rs.len() ==> (#[trigger] rs[i]).len() == 0 || (rs[i].len() >= 2 && rs[i][0]
            == rs[i][rs[i].len() - 1])
}

/// The rings a multi-polygon holds, each coordinate rounded to the nearest
/// integer (saturating at the 64-bit range): all exterior rings in polygon
/// order, then all interior rings.
pub uninterp spec fn multi_poly_rings(m: MultiPoly) -> Seq<Seq<(int, int)>>;

/// Whether every coordinate of the multi-polygon is exactly an integer, so
/// that its geometry is fully described by `multi_poly_rings`.
pub uninterp spec fn multi_poly_on_grid(m: MultiPoly) -> bool;

/// What geo's union returns on two grid multi-polygons, read back as
/// integer rings.
pub uninterp spec fn union_of(a: Seq<Seq<(int, int)>>, b: Seq<Seq<(int, int)>>) -> Seq<
    Seq<(int, int)>,
>;

/// What geo's difference returns on two grid multi-polygons, read back as
/// integer rings.
pub uninterp spec fn difference_of(a: Seq<Seq<(int, int)>>, b: Seq<Seq<(int, int)>>) -> Seq<
    Seq<(int, int)>,
>;

/// Relies on geo's Polygon, LineString and MultiPolygon constructors: every
/// ring becomes one simple polygon with no holes, in order. A closed ring is
/// stored unchanged, and coordinates within the grid limit stay exact in
/// the float conversion.
#[verifier::external_body]
pub fn vec_to_multi_poly(coords: &RingList) -> (m: MultiPoly)
    requires
        rings_closed(coords@),
        rings_on_grid(coords@),
    ensures
        multi_poly_rings(m) == rings_view(coords@),
        multi_poly_on_grid(m),
{
    MultiPoly {
        inner: coords.iter().map(
            |ring: &Vec<(i64, i64)>|
                geo::Polygon::new(
                    geo::LineString::from(
                        ring.iter().map(|p| (p.0 as _, p.1 as _)).collect::<Vec<_>>(),
                    ),
                    vec![],
                ),
        ).collect(),
    }
}

/// Relies on geo's ring accessors: hands back the multi-polygon's rings as
/// one flat list, all exterior rings first, then all interior rings, each
/// coordinate rounded to the nearest integer.
#[verifier::external_body]
pub fn multi_poly_to_vec(multi_poly: &MultiPoly) -> (r: RingList)
    ensures
        rings_view(r@) == multi_poly_rings(*multi_poly),
{
    let mp = &multi_poly.inner;
    let mut out: RingList = mp.0.iter().map(
        |p| p.exterior().0.iter().map(|c| (c.x.round() as i64, c.y.round() as i64)).collect(),
    ).collect();
    for p in mp.0.iter() {
        for ls in p.interiors() {
            out.push(ls.0.iter().map(|c| (c.x.round() as i64, c.y.round() as i64)).collect());
        }
    }
    out
}

/// Relies on geo's BooleanOps::union: the union of two grid multi-polygons
/// is a function of their rings alone, geo builds every output polygon with
/// closed rings, and — because the grid limit keeps the operation's
/// internal snapping grid finer than one integer unit — every output
/// vertex reads back inside the integer span of the input vertices.
#[verifier::external_body]
fn multi_poly_union(a: &MultiPoly, b: &MultiPoly) -> (m: MultiPoly)
    requires
        multi_poly_on_grid(*a),
        multi_poly_on_grid(*b),
        view_rings_on_grid(multi_poly_rings(*a)),
        view_rings_on_grid(multi_poly_rings(*b)),
    ensures
        multi_poly_rings(m) == union_of(multi_poly_rings(*a), multi_poly_rings(*b)),
        view_rings_closed(multi_poly_rings(m)),
        view_rings_on_grid(multi_poly_rings(m)),
{
    MultiPoly { inner: a.inner.union(&b.inner) }
}

/// Relies on geo's BooleanOps::difference: the difference of two grid
/// multi-polygons is a function of their rings alone, geo builds every
/// output polygon with closed rings, and — because the grid limit keeps
/// the operation's internal snapping grid finer than one integer unit —
/// every output vertex reads back inside the integer span of the input
/// vertices.
#[verifier::external_body]
fn multi_poly_difference(a: &MultiPoly, b: &MultiPoly) -> (m: MultiPoly)
    requires
        multi_poly_on_grid(*a),
        multi_poly_on_grid(*b),
        view_rings_on_grid(multi_poly_rings(*a)),
        view_rings_on_grid(multi_poly_rings(*b)),
    ensures
        multi_poly_rings(m) == difference_of(multi_poly_rings(*a), multi_poly_rings(*b)),
        view_rings_closed(multi_poly_rings(m)),
        view_rings_on_grid(multi_poly_rings(m)),
{
    MultiPoly { inner: a.inner.difference(&b.inner) }
}

/// A coordinate-for-coordinate copy of a ring list.
pub fn clone_ring_list(v: &RingList) -> (r: RingList)
    ensures
        rings_view(r@) == rings_view(v@),
        r@.len() == v@.len(),
        forall|i: int| 0 <= i < v@.len() ==> (#[trigger] r@[i])@ == v@[i]@,
{
    let mut out: RingList = Vec::new();
    let n = v.len();
    let mut i: usize = 0;
    while i < n
        invariant
            n == v@.len(),
            i <= n,
            out@.len() == i,
            forall|j: int| 0 <= j < i ==> (#[trigger] out@[j])@ == v@[j]@,
        decreases n - i,
    {
        let ring = &v[i];
        let mut copy: Vec<(i64, i64)> = Vec::new();
        let m = ring.len();
        let mut k: usize = 0;
        while k < m
            invariant
                m == ring@.len(),
                k <= m,
                copy@ == ring@.take(k as int),
            decreases m - k,
        {
            copy.push(ring[k]);
            proof {
                assert(copy@ =~= ring@.take(k + 1));
            }
            k = k + 1;
        }
        proof {
            assert(ring@.take(m as int) =~= ring@);
        }
        out.push(copy);
        i = i + 1;
    }
    proof {
        assert(rings_view(out@) =~= rings_view(v@));
    }
    out
}

/// Ring lists with the same coordinate views share closure and the grid
/// bound.
pub proof fn lemma_same_views_same_shape(a: Seq<Vec<(i64, i64)>>, b: Seq<Vec<(i64, i64)>>)
    requires
        a.len() == b.len(),
        forall|i: int| 0 <= i < a.len() ==> (#[trigger] a[i])@ == b[i]@,
    ensures
        rings_closed(a) == rings_closed(b),
        rings_on_grid(a) == rings_on_grid(b),
{
    assert forall|i: int| 0 <= i < a.len() implies (ring_closed(#[trigger] a[i]@) == ring_closed(
        b[i]@,
    ) && ring_on_grid(a[i]@) == ring_on_grid(b[i]@)) by {}
    if rings_closed(a) {
        assert forall|i: int| 0 <= i < b.len() implies ring_closed(#[trigger] b[i]@) by {
            assert(ring_closed(a[i]@));
        }
    }
    if rings_closed(b) {
        assert forall|i: int| 0 <= i < a.len() implies ring_closed(#[trigger] a[i]@) by {
            assert(ring_closed(b[i]@));
        }
    }
    if rings_on_grid(a) {
        assert forall|i: int| 0 <= i < b.len() implies ring_on_grid(#[trigger] b[i]@) by {
            assert(ring_on_grid(a[i]@));
        }
    }
    if rings_on_grid(b) {
        assert forall|i: int| 0 <= i < a.len() implies ring_on_grid(#[trigger] a[i]@) by {
            assert(ring_on_grid(b[i]@));
        }
    }
}

/// The validation pass run before geometry is handed to the set algebra:
/// whether every ring of the list is closed. An empty ring passes; a ring
/// of one point, or one whose ends differ, fails.
pub fn rings_are_closed(rings: &RingList) -> (r: bool)
    ensures
        r == rings_closed(rings@),
{
    let n = rings.len();
    let mut i: usize = 0;
    while i < n
        invariant
            n == rings@.len(),
            i <= n,
            forall|j: int| 0 <= j < i ==> ring_closed(#[trigger] rings@[j]@),
        decreases n - i,
    {
        let ring = &rings[i];
        let len = ring.len();
        if len == 1 {
            return false;
        }
        if len >= 2 {
            let first = ring[0];
            let last = ring[len - 1];
            if first.0 != last.0 || first.1 != last.1 {
                return false;
            }
        }
        i = i + 1;
    }
    true
}

/// A closed integer ring list reads back unchanged from its multi-polygon
/// form: the round trip through the geometry library is the identity on
/// ring views.
pub fn rings_round_trip(coords: &RingList) -> (r: RingList)
    requires
        rings_closed(coords@),
        rings_on_grid(coords@),
    ensures
        rings_view(r@) == rings_view(coords@),
{
    let m = vec_to_multi_poly(coords);
    multi_poly_to_vec(&m)
}

/// Closure carries from the named integer rings back to a concrete ring
/// list with the same view.
pub proof fn lemma_view_closed_to_rings_closed(rs: Seq<Vec<(i64, i64)>>)
    requires
        view_rings_closed(rings_view(rs)),
    ensures
        rings_closed(rs),
{
    assert forall|i: int| 0 <= i < rs.len() implies ring_closed(#[trigger] rs[i]@) by {
        let rv = rings_view(rs)[i];
        assert(rv == ring_view(rs[i]@));
        if rs[i]@.len() > 0 {
            assert(rv[0] == (rs[i]@[0].0 as int, rs[i]@[0].1 as int));
            assert(rv[rv.len() - 1] == (
                rs[i]@[rs[i]@.len() - 1].0 as int,
                rs[i]@[rs[i]@.len() - 1].1 as int,
            ));
        }
    }
}

/// The grid bound carries from the named integer rings back to a concrete
/// ring list with the same view, and forward from a list to its view.
pub proof fn lemma_on_grid_view(rs: Seq<Vec<(i64, i64)>>)
    ensures
        view_rings_on_grid(rings_view(rs)) ==> rings_on_grid(rs),
        rings_on_grid(rs) ==> view_rings_on_grid(rings_view(rs)),
{
    if view_rings_on_grid(rings_view(rs)) {
        assert forall|i: int| 0 <= i < rs.len() implies ring_on_grid(#[trigger] rs[i]@) by {
            assert forall|j: int|
                0 <= j < rs[i]@.len() implies -GRID_COORD_LIMIT <= (#[trigger] rs[i]@[j]).0
                <= GRID_COORD_LIMIT && -GRID_COORD_LIMIT <= rs[i]@[j].1 <= GRID_COORD_LIMIT by {
                assert(rings_view(rs)[i][j] == (rs[i]@[j].0 as int, rs[i]@[j].1 as int));
            }
        }
    }
    if rings_on_grid(rs) {
        assert forall|i: int, j: int|
            0 <= i < rings_view(rs).len() && 0 <= j < rings_view(rs)[i].len()
            implies -GRID_COORD_LIMIT <= (#[trigger] rings_view(rs)[i][j]).0 <= GRID_COORD_LIMIT
            && -GRID_COORD_LIMIT <= rings_view(rs)[i][j].1 <= GRID_COORD_LIMIT by {
            assert(ring_on_grid(rs[i]@));
            assert(rings_view(rs)[i][j] == (rs[i]@[j].0 as int, rs[i]@[j].1 as int));
        }
    }
}

/// The union of two closed ring lists, as closed rings again.
pub fn rings_union(a: &RingList, b: &RingList) -> (r: RingList)
    requires
        rings_closed(a@),
        rings_closed(b@),
        rings_on_grid(a@),
        rings_on_grid(b@),
    ensures
        rings_view(r@) == union_of(rings_view(a@), rings_view(b@)),
        rings_closed(r@),
        rings_on_grid(r@),
{
    proof {
        lemma_on_grid_view(a@);
        lemma_on_grid_view(b@);
    }
    let am = vec_to_multi_poly(a);
    let bm = vec_to_multi_poly(b);
    let u = multi_poly_union(&am, &bm);
    let r = multi_poly_to_vec(&u);
    proof {
        lemma_view_closed_to_rings_closed(r@);
        lemma_on_grid_view(r@);
    }
    r
}

/// The difference of two closed ring lists, as closed rings again.
pub fn rings_difference(a: &RingList, b: &RingList) -> (r: RingList)
    requires
        rings_closed(a@),
        rings_closed(b@),
        rings_on_grid(a@),
        rings_on_grid(b@),
    ensures
        rings_view(r@) == difference_of(rings_view(a@), rings_view(b@)),
        rings_closed(r@),
        rings_on_grid(r@),
{
    proof {
        lemma_on_grid_view(a@);
        lemma_on_grid_view(b@);
    }
    let am = vec_to_multi_poly(a);
    let bm = vec_to_multi_poly(b);
    let d = multi_poly_difference(&am, &bm);
    let r = multi_poly_to_vec(&d);
    proof {
        lemma_view_closed_to_rings_closed(r@);
        lemma_on_grid_view(r@);
    }
    r
}

} // verus!
