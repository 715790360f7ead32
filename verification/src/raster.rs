//! Raster border extraction and aggregation recoloring. A raster assigns
//! one flat color to each pixel; for every pixel whose edge-adjacent
//! neighbor is missing or differently colored, three boundary-edge
//! coordinates are recorded on a doubled, vertically flipped grid, so that
//! edge midpoints stay integers. Recoloring rewrites each pixel through a
//! province-to-parent color table, leaving unmapped pixels black.

use vstd::prelude::*;
use vstd::string::StrSliceExecFns;
use vstd::string::StringSliceAdditionalSpecFns;

use crate::border_trace::border_to_geojson_coords;
use crate::state_history::State;
use crate::state_history::SubStateV;
use crate::state_history::StateV;
use crate::state_history::histories_view;
use crate::border_trace::coords_in_range;
use crate::border_trace::rings_seq;
use crate::border_trace::traced_ring;
use crate::border_trace::traced_rings_spec;

verus! {

/// The largest raster side length accepted: double the game's own province
/// map in each direction, while keeping the pixel count inside a 32-bit
/// usize and the doubled coordinates far inside the geometry layer's grid
/// limit.
pub const MAX_RASTER_SIDE: usize = 0x4000;

/// A color-indexed raster: row-major pixels, each a 24-bit color key.
#[derive(Debug)]
pub struct Raster {
    pub width: usize,
    pub height: usize,
    pub pixels: Vec<u32>,
}

impl Raster {
    /// The pixel list fills the rectangle, and the sides are small enough
    /// for all coordinate arithmetic.
    pub open spec fn wf(&self) -> bool {
        &&& self.pixels@.len() == self.width * self.height
        &&& self.width <= MAX_RASTER_SIDE
        &&& self.height <= MAX_RASTER_SIDE
    }

    /// The color of the pixel with linear index `k`.
    pub open spec fn color_of(&self, k: int) -> int {
        self.pixels@[k] as int
    }

    /// The color at column `x` of row `y`.
    pub open spec fn color_at(&self, x: int, y: int) -> int {
        self.color_of(y * self.width + x)
    }
}

/// Whether the neighbor at (nx, ny) is outside the raster or differently
/// colored than the pixel at (x, y).
pub open spec fn neighbor_differs(r: Raster, x: int, y: int, nx: int, ny: int) -> bool {
    ||| nx < 0
    ||| ny < 0
    ||| nx >= r.width
    ||| ny >= r.height
    ||| r.color_at(nx, ny) != r.color_at(x, y)
}

/// The three boundary-edge coordinates that one differing neighbor of the
/// pixel at (x, y) contributes: the shared edge's two endpoints and its
/// midpoint, on the doubled, vertically flipped grid. The neighbors are
/// probed in the order below, top, left, right.
pub open spec fn neighbor_points(r: Raster, x: int, y: int, n: int) -> Seq<(i64, i64)> {
    let h2 = 2 * r.height;
    if n == 0 {
        if neighbor_differs(r, x, y, x, y + 1) {
            seq![
                ((2 * x) as i64, (h2 - (2 * y + 2)) as i64),
                ((2 * x + 2) as i64, (h2 - (2 * y + 2)) as i64),
                ((2 * x + 1) as i64, (h2 - (2 * y + 2)) as i64),
            ]
        } else {
            Seq::empty()
        }
    } else if n == 1 {
        if neighbor_differs(r, x, y, x, y - 1) {
            seq![
                ((2 * x) as i64, (h2 - 2 * y) as i64),
                ((2 * x + 2) as i64, (h2 - 2 * y) as i64),
                ((2 * x + 1) as i64, (h2 - 2 * y) as i64),
            ]
        } else {
            Seq::empty()
        }
    } else if n == 2 {
        if neighbor_differs(r, x, y, x - 1, y) {
            seq![
                ((2 * x) as i64, (h2 - 2 * y) as i64),
                ((2 * x) as i64, (h2 - (2 * y + 2)) as i64),
                ((2 * x) as i64, (h2 - (2 * y + 1)) as i64),
            ]
        } else {
            Seq::empty()
        }
    } else {
        if neighbor_differs(r, x, y, x + 1, y) {
            seq![
                ((2 * x + 2) as i64, (h2 - (2 * y + 2)) as i64),
                ((2 * x + 2) as i64, (h2 - 2 * y) as i64),
                ((2 * x + 2) as i64, (h2 - (2 * y + 1)) as i64),
            ]
        } else {
            Seq::empty()
        }
    }
}

/// Every boundary-edge coordinate the pixel with linear index `k`
/// contributes, over its four neighbors in probe order.
pub open spec fn pixel_points(r: Raster, k: int) -> Seq<(i64, i64)> {
    let x = k % (r.width as int);
    let y = k / (r.width as int);
    neighbor_points(r, x, y, 0) + neighbor_points(r, x, y, 1) + neighbor_points(r, x, y, 2)
        + neighbor_points(r, x, y, 3)
}

/// Every boundary-edge coordinate that pixels below index `k` contribute to
/// the region of color `c`, in scan order.
pub open spec fn emitted_upto(r: Raster, c: int, k: int) -> Seq<(i64, i64)>
    decreases k,
{
    if k <= 0 {
        Seq::empty()
    } else {
        emitted_upto(r, c, k - 1) + if r.color_of(k - 1) == c {
            pixel_points(r, k - 1)
        } else {
            Seq::empty()
        }
    }
}

/// The whole boundary-edge set of the region of color `c`.
pub open spec fn region_edge_coords(r: Raster, c: int) -> Seq<(i64, i64)> {
    emitted_upto(r, c, r.pixels@.len() as int)
}

/// The boundary-edge coordinates of one pixel, as the spec lists them.
#[verifier::rlimit(100)]
fn pixel_boundary_points(r: &Raster, x: usize, y: usize) -> (pts: Vec<(i64, i64)>)
    requires
        r.wf(),
        x < r.width,
        y < r.height,
    ensures
        pts@ == pixel_points(*r, y * r.width + x),
{
    let ghost k = y * r.width + x;
    proof {
        assert(k % (r.width as int) == x) by (nonlinear_arith)
            requires
                0 <= x < r.width as int,
                k == y * (r.width as int) + x,
                0 <= y,
        ;
        assert(k / (r.width as int) == y) by (nonlinear_arith)
            requires
                0 <= x < r.width as int,
                k == y * (r.width as int) + x,
                0 <= y,
        ;
        assert(0 <= y * (r.width as int) + x < (r.width as int) * (r.height as int))
            by (nonlinear_arith)
            requires
                0 <= x < r.width as int,
                0 <= y < r.height as int,
        ;
        if x + 1 < r.width {
            assert(0 <= y * (r.width as int) + (x + 1) < (r.width as int) * (r.height as int))
                by (nonlinear_arith)
                requires
                    0 <= x + 1 < r.width as int,
                    0 <= y < r.height as int,
            ;
        }
        assert((r.width as int) * (r.height as int) <= 0x10000000) by (nonlinear_arith)
            requires
                0 <= r.width as int <= 0x4000,
                0 <= r.height as int <= 0x4000,
        ;
        if y + 1 < r.height {
            assert((y + 1) * (r.width as int) + x < (r.width as int) * (r.height as int))
                by (nonlinear_arith)
                requires
                    0 <= x < r.width as int,
                    0 <= y,
                    y + 1 < r.height as int,
            ;
        }
        if y > 0 {
            assert(0 <= (y - 1) * (r.width as int) + x < (r.width as int) * (r.height as int))
                by (nonlinear_arith)
                requires
                    0 <= x < r.width as int,
                    0 < y < r.height as int,
            ;
        }
    }
    let w = r.width;
    let h = r.height;
    let own_color = r.pixels[y * w + x];
    let h2: i64 = 2 * (h as i64);
    let x2: i64 = 2 * (x as i64);
    let y2: i64 = 2 * (y as i64);
    let mut pts: Vec<(i64, i64)> = Vec::new();

    let below_differs = if y + 1 >= h {
        true
    } else {
        r.pixels[(y + 1) * w + x] != own_color
    };
    if below_differs {
        pts.push((x2, h2 - (y2 + 2)));
        pts.push((x2 + 2, h2 - (y2 + 2)));
        pts.push((x2 + 1, h2 - (y2 + 2)));
    }
    proof {
        assert(pts@ =~= neighbor_points(*r, x as int, y as int, 0));
    }

    let above_differs = if y == 0 {
        true
    } else {
        r.pixels[(y - 1) * w + x] != own_color
    };
    if above_differs {
        pts.push((x2, h2 - y2));
        pts.push((x2 + 2, h2 - y2));
        pts.push((x2 + 1, h2 - y2));
    }
    proof {
        assert(pts@ =~= neighbor_points(*r, x as int, y as int, 0) + neighbor_points(
            *r,
            x as int,
            y as int,
            1,
        ));
    }

    let left_differs = if x == 0 {
        true
    } else {
        r.pixels[y * w + (x - 1)] != own_color
    };
    if left_differs {
        pts.push((x2, h2 - y2));
        pts.push((x2, h2 - (y2 + 2)));
        pts.push((x2, h2 - (y2 + 1)));
    }
    proof {
        assert(pts@ =~= neighbor_points(*r, x as int, y as int, 0) + neighbor_points(
            *r,
            x as int,
            y as int,
            1,
        ) + neighbor_points(*r, x as int, y as int, 2));
    }

    let right_differs = if x + 1 >= w {
        true
    } else {
        r.pixels[y * w + (x + 1)] != own_color
    };
    if right_differs {
        pts.push((x2 + 2, h2 - (y2 + 2)));
        pts.push((x2 + 2, h2 - y2));
        pts.push((x2 + 2, h2 - (y2 + 1)));
    }
    proof {
        assert(pts@ =~= neighbor_points(*r, x as int, y as int, 0) + neighbor_points(
            *r,
            x as int,
            y as int,
            1,
        ) + neighbor_points(*r, x as int, y as int, 2) + neighbor_points(
            *r,
            x as int,
            y as int,
            3,
        ));
    }
    pts
}

/// The index of the entry with this color key, if any.
fn find_region_entry(out: &Vec<(u32, Vec<(i64, i64)>)>, c: u32) -> (r: Option<usize>)
    ensures
        r is Some ==> r->0 < out@.len() && out@[r->0 as int].0 == c,
        r is None ==> forall|e: int| 0 <= e < out@.len() ==> (#[trigger] out@[e]).0 != c,
{
    let n = out.len();
    let mut e: usize = 0;
    while e < n
        invariant
            n == out@.len(),
            e <= n,
            forall|m: int| 0 <= m < e ==> (#[trigger] out@[m]).0 != c,
        decreases n - e,
    {
        if out[e].0 == c {
            return Some(e);
        }
        e = e + 1;
    }
    None
}

/// Extract every region's boundary-edge coordinates from a raster: one
/// entry per color that contributes at least one coordinate, keyed by the
/// color, holding exactly the coordinates its pixels emit in scan order.
pub fn province_borders(r: &Raster) -> (out: Vec<(u32, Vec<(i64, i64)>)>)
    requires
        r.wf(),
    ensures
        forall|e1: int, e2: int|
            0 <= e1 < e2 < out@.len() ==> (#[trigger] out@[e1]).0 != (#[trigger] out@[e2]).0,
        forall|e: int|
            0 <= e < out@.len() ==> (#[trigger] out@[e]).1@ == region_edge_coords(
                *r,
                out@[e].0 as int,
            ),
        forall|c: u32|
            (#[trigger] region_edge_coords(*r, c as int)).len() > 0 <==> exists|e: int|
                0 <= e < out@.len() && (#[trigger] out@[e]).0 == c,
{
    let mut out: Vec<(u32, Vec<(i64, i64)>)> = Vec::new();
    let w = r.width;
    let h = r.height;
    let total_px = r.pixels.len();
    let mut y: usize = 0;
    let mut x: usize = 0;
    let mut k: usize = 0;
    proof {
        if total_px > 0 {
            assert(w > 0 && h > 0) by (nonlinear_arith)
                requires
                    (w as int) * (h as int) > 0,
                    0 <= w as int,
                    0 <= h as int,
            ;
        }
    }
    while k < total_px
        invariant
            r.wf(),
            w == r.width,
            h == r.height,
            k == y * w + x,
            k < total_px ==> (x < w && y < h),
            k <= total_px,
            total_px == r.pixels@.len(),
            total_px == w * h,
            forall|e1: int, e2: int|
                0 <= e1 < e2 < out@.len() ==> (#[trigger] out@[e1]).0 != (#[trigger] out@[e2]).0,
            forall|e: int|
                0 <= e < out@.len() ==> (#[trigger] out@[e]).1@ == emitted_upto(
                    *r,
                    out@[e].0 as int,
                    k as int,
                ),
            forall|c: u32|
                (#[trigger] emitted_upto(*r, c as int, k as int)).len() > 0 <==> exists|e: int|
                    0 <= e < out@.len() && (#[trigger] out@[e]).0 == c,
        decreases total_px - k,
    {
        let c = r.pixels[k];
        let pts = pixel_boundary_points(r, x, y);
        let ghost pushed = pts@.len() > 0;
        let ghost out_before = out@;
        let ghost mut cidx: int = 0;
        if pts.len() > 0 {
            match find_region_entry(&out, c) {
                Some(e) => {
                    let mut pts_in = pts;
                    out[e].1.append(&mut pts_in);
                    proof {
                        cidx = e as int;
                        assert(out@[e as int].1@ == out_before[e as int].1@ + pixel_points(
                            *r,
                            k as int,
                        ));
                        assert(out@ =~= out_before.update(e as int, out@[e as int]));
                    }
                },
                None => {
                    out.push((c, pts));
                    proof {
                        cidx = out@.len() - 1;
                        assert(!(exists|m: int|
                            0 <= m < out_before.len() && (#[trigger] out_before[m]).0 == c));
                        assert(emitted_upto(*r, c as int, k as int).len() == 0);
                        assert(emitted_upto(*r, c as int, k as int) =~= Seq::<(i64, i64)>::empty());
                    }
                },
            }
        }
        proof {
            if pushed {
                assert(0 <= cidx < out@.len() && out@[cidx].0 == c);
            }
        }
        proof {
            let kk = k as int;
            assert forall|e: int| 0 <= e < out@.len() implies (#[trigger] out@[e]).1@
                == emitted_upto(*r, out@[e].0 as int, kk + 1) by {
                if e < out_before.len() {
                    if pushed && e == cidx {
                        assert(out@[e].0 == c);
                        assert(out@[e].1@ =~= emitted_upto(*r, out@[e].0 as int, kk + 1));
                    } else {
                        assert(out@[e] == out_before[e]);
                        assert(out@[e].0 != c || !pushed);
                        if r.color_of(kk) == out@[e].0 as int {
                            assert(pixel_points(*r, kk).len() == 0);
                        }
                        assert(out@[e].1@ =~= emitted_upto(*r, out@[e].0 as int, kk + 1));
                    }
                } else {
                    assert(pushed && e == cidx && out@[e].0 == c);
                    assert(emitted_upto(*r, c as int, kk) =~= Seq::<(i64, i64)>::empty());
                    assert(out@[e].1@ =~= emitted_upto(*r, out@[e].0 as int, kk + 1));
                }
            }
            assert forall|c2: u32|
                (#[trigger] emitted_upto(*r, c2 as int, kk + 1)).len() > 0 implies exists|e: int|
                0 <= e < out@.len() && (#[trigger] out@[e]).0 == c2 by {
                if emitted_upto(*r, c2 as int, kk).len() > 0 {
                    let e = choose|e: int|
                        0 <= e < out_before.len() && (#[trigger] out_before[e]).0 == c2;
                    assert(out@[e].0 == c2);
                } else {
                    assert(r.color_of(kk) == c2 as int && pixel_points(*r, kk).len() > 0);
                    assert(c == c2);
                    assert(pushed);
                    assert(out@[cidx].0 == c2);
                }
            }
            assert forall|c2: u32|
                (exists|e: int| 0 <= e < out@.len() && (#[trigger] out@[e]).0 == c2)
                implies (#[trigger] emitted_upto(*r, c2 as int, kk + 1)).len() > 0 by {
                let e = choose|e: int| 0 <= e < out@.len() && (#[trigger] out@[e]).0 == c2;
                if e < out_before.len() {
                    assert(out_before[e].0 == c2);
                    assert(emitted_upto(*r, c2 as int, kk).len() > 0);
                    assert(emitted_upto(*r, c2 as int, kk + 1).len() >= emitted_upto(
                        *r,
                        c2 as int,
                        kk,
                    ).len());
                } else {
                    assert(pushed && e == cidx && c2 == c);
                    assert(pixel_points(*r, kk).len() > 0);
                }
            }
        }
        k = k + 1;
        x = x + 1;
        if x == w {
            x = 0;
            y = y + 1;
            proof {
                assert((y - 1) * (w as int) + (w as int) == y * (w as int)) by (nonlinear_arith)
                ;
            }
        }
        proof {
            if k < total_px && x == 0 {
                assert(y < h) by (nonlinear_arith)
                    requires
                        k == y * (w as int),
                        k < (w as int) * (h as int),
                        0 < w as int,
                        0 <= y,
                ;
            }
        }
    }
    proof {
        assert(k == r.pixels@.len());
    }
    out
}

/// A pixel contributes at most three coordinates per neighbor, so a
/// region's boundary-edge set grows by at most twelve per pixel.
pub proof fn lemma_emitted_len(r: Raster, c: int, k: int)
    requires
        0 <= k,
    ensures
        emitted_upto(r, c, k).len() <= 12 * k,
    decreases k,
{
    if k > 0 {
        lemma_emitted_len(r, c, k - 1);
        let x = (k - 1) % (r.width as int);
        let y = (k - 1) / (r.width as int);
        assert(neighbor_points(r, x, y, 0).len() <= 3);
        assert(neighbor_points(r, x, y, 1).len() <= 3);
        assert(neighbor_points(r, x, y, 2).len() <= 3);
        assert(neighbor_points(r, x, y, 3).len() <= 3);
        assert(pixel_points(r, k - 1).len() <= 12);
    }
}

/// Every coordinate a raster emits leaves one step of room inside the i64
/// range, so the emitted set of a well-formed raster can be traced.
pub proof fn lemma_emitted_in_range(r: Raster, c: int, k: int)
    requires
        r.wf(),
        0 <= k <= r.pixels@.len(),
    ensures
        coords_in_range(emitted_upto(r, c, k)),
    decreases k,
{
    if k > 0 {
        lemma_emitted_in_range(r, c, k - 1);
        let w = r.width as int;
        let h = r.height as int;
        if r.color_of(k - 1) == c {
            assert(w > 0) by (nonlinear_arith)
                requires
                    0 <= k - 1 < w * h,
                    0 <= w,
                    0 <= h,
            ;
            let x = (k - 1) % w;
            let y = (k - 1) / w;
            assert(0 <= x < w && 0 <= y && y < h) by (nonlinear_arith)
                requires
                    x == (k - 1) % w,
                    y == (k - 1) / w,
                    0 <= k - 1 < w * h,
                    0 < w,
            ;
        }
        assert forall|i: int|
            0 <= i < emitted_upto(r, c, k).len() implies i64::MIN < (#[trigger] emitted_upto(
            r,
            c,
            k,
        )[i]).0 < i64::MAX && i64::MIN < emitted_upto(r, c, k)[i].1 < i64::MAX by {
            let prev = emitted_upto(r, c, k - 1);
            if i < prev.len() {
                assert(emitted_upto(r, c, k)[i] == prev[i]);
            } else {
                assert(emitted_upto(r, c, k)[i] == pixel_points(r, k - 1)[i - prev.len()]);
            }
        }
    }
}

/// Trace every extracted region into rings: each entry's coordinate set
/// runs through the border tracer, and every resulting ring is closed,
/// simplified, and made of that region's own boundary coordinates.
pub fn trace_all_regions(r: &Raster, borders: Vec<(u32, Vec<(i64, i64)>)>) -> (out: Vec<
    (u32, Vec<Vec<(i64, i64)>>),
>)
    requires
        r.wf(),
        forall|e: int|
            0 <= e < borders@.len() ==> (#[trigger] borders@[e]).1@ == region_edge_coords(
                *r,
                borders@[e].0 as int,
            ) && borders@[e].1@.len() > 0,
    ensures
        out@.len() == borders@.len(),
        forall|e: int|
            0 <= e < out@.len() ==> (#[trigger] out@[e]).0 == borders@[e].0 && rings_seq(
                out@[e].1@,
            ) == traced_rings_spec(region_edge_coords(*r, out@[e].0 as int)) && forall|i: int|
                0 <= i < out@[e].1@.len() ==> traced_ring(
                    #[trigger] out@[e].1@[i]@,
                    region_edge_coords(*r, out@[e].0 as int),
                ),
{
    let mut out: Vec<(u32, Vec<Vec<(i64, i64)>>)> = Vec::new();
    let mut rest = borders;
    let ghost orig = rest@;
    let total = rest.len();
    let mut e: usize = 0;
    while rest.len() > 0
        invariant
            r.wf(),
            total == orig.len(),
            e + rest@.len() == total,
            forall|j: int| 0 <= j < rest@.len() ==> #[trigger] rest@[j] == orig[e + j],
            forall|j: int|
                0 <= j < orig.len() ==> (#[trigger] orig[j]).1@ == region_edge_coords(
                    *r,
                    orig[j].0 as int,
                ) && orig[j].1@.len() > 0,
            out@.len() == e,
            forall|j: int|
                0 <= j < e ==> (#[trigger] out@[j]).0 == orig[j].0 && rings_seq(out@[j].1@)
                    == traced_rings_spec(region_edge_coords(*r, orig[j].0 as int)) && forall|
                    i: int,
                |
                    0 <= i < out@[j].1@.len() ==> traced_ring(
                        #[trigger] out@[j].1@[i]@,
                        region_edge_coords(*r, out@[j].0 as int),
                    ),
        decreases rest@.len(),
    {
        let ghost rest_before = rest@;
        let (c, coords) = rest.remove(0);
        proof {
            assert(rest_before[0] == orig[e as int]);
            assert forall|j: int| 0 <= j < rest@.len() implies #[trigger] rest@[j] == orig[e + 1
                + j] by {
                assert(rest@[j] == rest_before[j + 1]);
            }
            lemma_emitted_in_range(*r, c as int, r.pixels@.len() as int);
        }
        proof {
            lemma_emitted_len(*r, c as int, r.pixels@.len() as int);
            assert((r.width as int) * (r.height as int) <= 0x10000000) by (nonlinear_arith)
                requires
                    0 <= r.width as int <= 0x4000,
                    0 <= r.height as int <= 0x4000,
            ;
        }
        let rings = border_to_geojson_coords(coords);
        out.push((c, rings));
        e = e + 1;
    }
    out
}

/// The full vectorization pipeline on one raster: extract every region's
/// boundary-edge set, then trace each into closed polygon rings, exactly
/// one entry per color that emits a boundary coordinate.
pub fn raster_region_rings(r: &Raster) -> (out: Vec<(u32, Vec<Vec<(i64, i64)>>)>)
    requires
        r.wf(),
    ensures
        forall|e1: int, e2: int|
            0 <= e1 < e2 < out@.len() ==> (#[trigger] out@[e1]).0 != (#[trigger] out@[e2]).0,
        forall|c: u32|
            (#[trigger] region_edge_coords(*r, c as int)).len() > 0 <==> exists|e: int|
                0 <= e < out@.len() && (#[trigger] out@[e]).0 == c,
        forall|e: int|
            0 <= e < out@.len() ==> rings_seq((#[trigger] out@[e]).1@) == traced_rings_spec(
                region_edge_coords(*r, out@[e].0 as int),
            ),
        forall|e: int|
            0 <= e < out@.len() ==> forall|i: int|
                0 <= i < (#[trigger] out@[e]).1@.len() ==> traced_ring(
                    #[trigger] out@[e].1@[i]@,
                    region_edge_coords(*r, out@[e].0 as int),
                ),
{
    let borders = province_borders(r);
    proof {
        assert forall|e: int|
            0 <= e < borders@.len() implies (#[trigger] borders@[e]).1@ == region_edge_coords(
            *r,
            borders@[e].0 as int,
        ) && borders@[e].1@.len() > 0 by {
            let c = borders@[e].0;
            assert(exists|m: int|
                0 <= m < borders@.len() && (#[trigger] borders@[m]).0 == c) by {
                assert(0 <= e < borders@.len() && borders@[e].0 == c);
            }
            assert(region_edge_coords(*r, c as int).len() > 0);
        }
    }
    let ghost borders0 = borders@;
    let out = trace_all_regions(r, borders);
    proof {
        assert forall|e1: int, e2: int|
            0 <= e1 < e2 < out@.len() implies (#[trigger] out@[e1]).0 != (
        #[trigger] out@[e2]).0 by {
            assert(out@[e1].0 == borders0[e1].0 && out@[e2].0 == borders0[e2].0);
        }
        assert forall|c: u32|
            (#[trigger] region_edge_coords(*r, c as int)).len() > 0 implies exists|e: int|
            0 <= e < out@.len() && (#[trigger] out@[e]).0 == c by {
            let e = choose|e: int| 0 <= e < borders0.len() && (#[trigger] borders0[e]).0 == c;
            assert(out@[e].0 == c);
        }
        assert forall|c: u32|
            (exists|e: int| 0 <= e < out@.len() && (#[trigger] out@[e]).0 == c)
            implies (#[trigger] region_edge_coords(*r, c as int)).len() > 0 by {
            let e = choose|e: int| 0 <= e < out@.len() && (#[trigger] out@[e]).0 == c;
            assert(borders0[e].0 == c);
        }
    }
    out
}

/// The first value mapped to this color key, or black for an unmapped one.
pub open spec fn map_color_spec(m: Seq<(u32, u32)>, c: u32) -> u32
    decreases m.len(),
{
    if m.len() == 0 {
        0
    } else if m[0].0 == c {
        m[0].1
    } else {
        map_color_spec(m.drop_first(), c)
    }
}

/// The first mapping found at `j`, with no earlier match, decides the color.
proof fn lemma_map_color_at(m: Seq<(u32, u32)>, c: u32, j: int)
    requires
        0 <= j < m.len(),
        m[j].0 == c,
        forall|i: int| 0 <= i < j ==> (#[trigger] m[i]).0 != c,
    ensures
        map_color_spec(m, c) == m[j].1,
    decreases m.len(),
{
    if j > 0 {
        lemma_map_color_at(m.drop_first(), c, j - 1);
    }
}

proof fn lemma_map_color_none(m: Seq<(u32, u32)>, c: u32)
    requires
        forall|i: int| 0 <= i < m.len() ==> (#[trigger] m[i]).0 != c,
    ensures
        map_color_spec(m, c) == 0,
    decreases m.len(),
{
    if m.len() > 0 {
        lemma_map_color_none(m.drop_first(), c);
    }
}

/// Look one color up in the province-to-parent table.
fn map_color(color_map: &Vec<(u32, u32)>, c: u32) -> (r: u32)
    ensures
        r == map_color_spec(color_map@, c),
{
    let n = color_map.len();
    let mut i: usize = 0;
    while i < n
        invariant
            n == color_map@.len(),
            i <= n,
            forall|m: int| 0 <= m < i ==> (#[trigger] color_map@[m]).0 != c,
        decreases n - i,
    {
        if color_map[i].0 == c {
            proof {
                lemma_map_color_at(color_map@, c, i as int);
            }
            return color_map[i].1;
        }
        i = i + 1;
    }
    proof {
        lemma_map_color_none(color_map@, c);
    }
    0
}

/// Rewrite every pixel through the province-to-parent color table: a mapped
/// pixel takes its parent's color, an unmapped one turns black.
pub fn recolor_raster(r: &Raster, color_map: &Vec<(u32, u32)>) -> (out: Raster)
    requires
        r.wf(),
    ensures
        out.wf(),
        out.width == r.width,
        out.height == r.height,
        forall|k: int|
            0 <= k < out.pixels@.len() ==> out.pixels@[k] == map_color_spec(
                color_map@,
                r.pixels@[k],
            ),
{
    let n = r.pixels.len();
    let mut pixels: Vec<u32> = Vec::new();
    let mut k: usize = 0;
    while k < n
        invariant
            n == r.pixels@.len(),
            k <= n,
            pixels@.len() == k,
            forall|m: int|
                0 <= m < k ==> pixels@[m] == map_color_spec(color_map@, #[trigger] r.pixels@[m]),
        decreases n - k,
    {
        pixels.push(map_color(color_map, r.pixels[k]));
        k = k + 1;
    }
    Raster { width: r.width, height: r.height, pixels }
}

/// The representative color a country's raster regions take: the tag's
/// first three bytes read as red, green and blue — the convention the
/// country-level recoloring keys its raster by. A tag shorter than three
/// bytes names no color.
pub fn country_color_key(tag: &str) -> (r: Option<u32>)
    ensures
        r is Some <==> tag.spec_bytes().len() >= 3,
        r is Some ==> r->0 == tag.spec_bytes()[0] * 0x10000 + tag.spec_bytes()[1] * 0x100
            + tag.spec_bytes()[2],
{
    let b = tag.as_bytes();
    if b.len() < 3 {
        return None;
    }
    Some((b[0] as u32) * 0x10000 + (b[1] as u32) * 0x100 + (b[2] as u32))
}

/// The table with every entry of this key dropped, in order.
pub open spec fn without_color_key(m: Seq<(u32, u32)>, k: u32) -> Seq<(u32, u32)> {
    m.filter(|e: (u32, u32)| e.0 != k)
}

/// An entry list with the given key dropped and the pair appended: the
/// effect of one table insert that overwrites any earlier entry.
pub open spec fn upsert_color(m: Seq<(u32, u32)>, k: u32, v: u32) -> Seq<(u32, u32)> {
    without_color_key(m, k) + seq![(k, v)]
}

/// One sub-state's provinces folded into the color table: every valid
/// region key maps to `parent`, later inserts overwriting earlier ones.
pub open spec fn sub_state_colors(m: Seq<(u32, u32)>, parent: u32, provinces: Seq<Seq<char>>) -> Seq<
    (u32, u32),
>
    decreases provinces.len(),
{
    if provinces.len() == 0 {
        m
    } else {
        let m2 = sub_state_colors(m, parent, provinces.drop_last());
        let p = provinces.last();
        if is_region_key(p) {
            upsert_color(m2, region_key_value(p) as u32, parent)
        } else {
            m2
        }
    }
}

/// The parent color of a sub-state: the color its first province key
/// names; a sub-state with no provinces, or an invalid first key, has none.
pub open spec fn sub_state_parent(sub: SubStateV) -> Option<u32> {
    if sub.provinces.len() > 0 && is_region_key(sub.provinces[0]) {
        Some(region_key_value(sub.provinces[0]) as u32)
    } else {
        None
    }
}

/// One state history entry folded into the color table, sub-state by
/// sub-state; a sub-state without a parent color contributes nothing.
pub open spec fn state_colors(m: Seq<(u32, u32)>, st: StateV) -> Seq<(u32, u32)>
    decreases st.sub_states.len(),
{
    if st.sub_states.len() == 0 {
        m
    } else {
        let m2 = state_colors(m, StateV { sub_states: st.sub_states.drop_last(), ..st });
        match sub_state_parent(st.sub_states.last()) {
            Some(parent) => sub_state_colors(m2, parent, st.sub_states.last().provinces),
            None => m2,
        }
    }
}

/// The whole province-to-parent color table of a history list.
pub open spec fn color_map_spec(states: Seq<StateV>) -> Seq<(u32, u32)>
    decreases states.len(),
{
    if states.len() == 0 {
        Seq::empty()
    } else {
        state_colors(color_map_spec(states.drop_last()), states.last())
    }
}

/// The table with every entry of this key dropped, in order.
fn remove_color_key(m: Vec<(u32, u32)>, k: u32) -> (r: Vec<(u32, u32)>)
    ensures
        r@ == without_color_key(m@, k),
{
    let ghost orig = m@;
    let mut kept: Vec<(u32, u32)> = Vec::new();
    let mut rest = m;
    let total: usize = rest.len();
    proof {
        reveal(Seq::filter);
        assert(without_color_key(orig.take(0), k) =~= Seq::<(u32, u32)>::empty());
    }
    let mut i: usize = 0;
    while rest.len() > 0
        invariant
            total as int == orig.len(),
            i <= total,
            rest@.len() == total - i,
            forall|j: int| 0 <= j < rest@.len() ==> #[trigger] rest@[j] == orig[i + j],
            kept@ == without_color_key(orig.take(i as int), k),
        decreases rest@.len(),
    {
        let ghost rest_before = rest@;
        let e = rest.remove(0);
        proof {
            assert(e == orig[i as int]);
            assert forall|j: int|
                0 <= j < rest@.len() implies #[trigger] rest@[j] == orig[i + 1 + j] by {
                assert(rest@[j] == rest_before[j + 1]);
            }
            assert(orig.take(i + 1).drop_last() =~= orig.take(i as int));
            assert(orig.take(i + 1).last() == orig[i as int]);
            reveal(Seq::filter);
        }
        if e.0 != k {
            kept.push(e);
            proof {
                assert(kept@ =~= without_color_key(orig.take(i as int), k).push(orig[i as int]));
                assert(kept@ =~= without_color_key(orig.take(i + 1), k));
            }
        } else {
            proof {
                assert(kept@ =~= without_color_key(orig.take(i + 1), k));
            }
        }
        i = i + 1;
    }
    proof {
        assert(orig.take(total as int) =~= orig);
    }
    kept
}

/// The province-to-parent color table for aggregation recoloring: within
/// each sub-state, every valid province key maps to the color of the
/// sub-state's first province, later sub-states overwriting earlier
/// entries for the same key.
pub fn state_color_map(states: &Vec<State>) -> (m: Vec<(u32, u32)>)
    ensures
        m@ == color_map_spec(histories_view(states@)),
{
    let ghost hv = histories_view(states@);
    let mut color_map: Vec<(u32, u32)> = Vec::new();
    let n = states.len();
    let mut i: usize = 0;
    proof {
        assert(hv.take(0) =~= Seq::<StateV>::empty());
    }
    while i < n
        invariant
            n == states@.len(),
            hv == histories_view(states@),
            i <= n,
            color_map@ == color_map_spec(hv.take(i as int)),
        decreases n - i,
    {
        let ghost st = hv[i as int];
        let sub_states = &states[i].sub_states;
        let ghost m_state_start = color_map@;
        let sn = sub_states.len();
        let mut j: usize = 0;
        proof {
            assert(states@[i as int]@ == st);
            assert(st.sub_states =~= sub_states@.map(
                |q: int, s: crate::state_history::SubState| s@,
            ));
            assert(state_colors(m_state_start, StateV { sub_states: st.sub_states.take(0), ..st })
                == m_state_start);
        }
        while j < sn
            invariant
                sn == sub_states@.len(),
                st.sub_states == sub_states@.map(|q: int, s: crate::state_history::SubState| s@),
                st.sub_states.len() == sn,
                j <= sn,
                color_map@ == state_colors(
                    m_state_start,
                    StateV { sub_states: st.sub_states.take(j as int), ..st },
                ),
            decreases sn - j,
        {
            let ghost sub = st.sub_states[j as int];
            let ghost m_sub_start = color_map@;
            let provinces = &sub_states[j].provinces;
            proof {
                assert(sub_states@[j as int]@ == sub);
                assert(sub.provinces == crate::buildings::str_list_view(provinces@));
                assert(st.sub_states.take(j + 1).drop_last() =~= st.sub_states.take(j as int));
                assert(st.sub_states.take(j + 1).last() == sub);
            }
            let parent_opt = if provinces.len() == 0 {
                None
            } else {
                hex_color_key(provinces[0].as_str())
            };
            match parent_opt {
                Some(parent) => {
                    proof {
                        assert(sub.provinces[0] == provinces@[0]@);
                        assert(sub_state_parent(sub) == Some(parent));
                        assert(sub_state_colors(m_sub_start, parent, sub.provinces.take(0))
                            == m_sub_start);
                    }
                    let pn = provinces.len();
                    let mut p: usize = 0;
                    while p < pn
                        invariant
                            pn == provinces@.len(),
                            sub.provinces == crate::buildings::str_list_view(provinces@),
                            sub.provinces.len() == pn,
                            p <= pn,
                            color_map@ == sub_state_colors(
                                m_sub_start,
                                parent,
                                sub.provinces.take(p as int),
                            ),
                        decreases pn - p,
                    {
                        proof {
                            assert(sub.provinces.take(p + 1).drop_last() =~= sub.provinces.take(
                                p as int,
                            ));
                            assert(sub.provinces.take(p + 1).last() == sub.provinces[p as int]);
                            assert(sub.provinces[p as int] == provinces@[p as int]@);
                        }
                        match hex_color_key(provinces[p].as_str()) {
                            Some(color) => {
                                let ghost before = color_map@;
                                let removed = remove_color_key(color_map, color);
                                color_map = removed;
                                color_map.push((color, parent));
                                proof {
                                    assert(color_map@ =~= upsert_color(before, color, parent));
                                }
                            },
                            None => {},
                        }
                        p = p + 1;
                    }
                    proof {
                        assert(sub.provinces.take(pn as int) =~= sub.provinces);
                        assert(color_map@ == sub_state_colors(m_sub_start, parent, sub.provinces));
                    }
                },
                None => {
                    proof {
                        if provinces.len() == 0 {
                            assert(sub.provinces.len() == 0);
                        } else {
                            assert(sub.provinces[0] == provinces@[0]@);
                        }
                        assert(sub_state_parent(sub) is None);
                    }
                },
            }
            proof {
                assert(color_map@ == state_colors(
                    m_state_start,
                    StateV { sub_states: st.sub_states.take(j + 1), ..st },
                ));
            }
            j = j + 1;
        }
        proof {
            assert(st.sub_states.take(sn as int) =~= st.sub_states);
            assert(StateV { sub_states: st.sub_states.take(sn as int), ..st } == st);
            assert(hv.take(i + 1).drop_last() =~= hv.take(i as int));
            assert(hv.take(i + 1).last() == st);
            assert(color_map@ == color_map_spec(hv.take(i + 1)));
        }
        i = i + 1;
    }
    proof {
        assert(hv.take(n as int) =~= hv);
    }
    color_map
}

/// The parent color a country tag names, over the tag's character view.
pub open spec fn country_parent_spec(tag: Seq<char>) -> Option<u32> {
    let b = vstd::utf8::encode_utf8(tag);
    if b.len() >= 3 {
        Some((b[0] * 0x10000 + b[1] * 0x100 + b[2]) as u32)
    } else {
        None
    }
}

/// One country's states folded into the color table: each sub-state's
/// first province key maps to the country's parent color.
pub open spec fn country_states_colors(
    m: Seq<(u32, u32)>,
    parent: u32,
    subs: Seq<SubStateV>,
) -> Seq<(u32, u32)>
    decreases subs.len(),
{
    if subs.len() == 0 {
        m
    } else {
        let m2 = country_states_colors(m, parent, subs.drop_last());
        match sub_state_parent(subs.last()) {
            Some(k) => upsert_color(m2, k, parent),
            None => m2,
        }
    }
}

/// A history list's sub-states, flattened in order.
pub open spec fn all_sub_states(states: Seq<StateV>) -> Seq<SubStateV>
    decreases states.len(),
{
    if states.len() == 0 {
        Seq::empty()
    } else {
        all_sub_states(states.drop_last()) + states.last().sub_states
    }
}

/// The whole state-color-to-country color table of a tagged history list.
pub open spec fn country_color_map_spec(cs: Seq<(String, Vec<State>)>) -> Seq<(u32, u32)>
    decreases cs.len(),
{
    if cs.len() == 0 {
        Seq::empty()
    } else {
        let prev = country_color_map_spec(cs.drop_last());
        match country_parent_spec(cs.last().0@) {
            Some(parent) => country_states_colors(
                prev,
                parent,
                all_sub_states(histories_view(cs.last().1@)),
            ),
            None => prev,
        }
    }
}

/// The state-to-country color table for country-level recoloring: each
/// sub-state's first province key maps to the color its country's tag
/// names, later countries overwriting earlier entries for the same key;
/// a country whose tag names no color contributes nothing.
pub fn country_color_map(countries: &Vec<(String, Vec<State>)>) -> (m: Vec<(u32, u32)>)
    ensures
        m@ == country_color_map_spec(countries@),
{
    let ghost cs = countries@;
    let mut color_map: Vec<(u32, u32)> = Vec::new();
    let n = countries.len();
    let mut i: usize = 0;
    proof {
        assert(cs.take(0) =~= Seq::<(String, Vec<State>)>::empty());
    }
    while i < n
        invariant
            n == countries@.len(),
            countries@ == cs,
            i <= n,
            color_map@ == country_color_map_spec(cs.take(i as int)),
        decreases n - i,
    {
        proof {
            assert(cs.take(i + 1).drop_last() =~= cs.take(i as int));
            assert(cs.take(i + 1).last() == cs[i as int]);
        }
        let tag = &countries[i].0;
        let states = &countries[i].1;
        match country_color_key(tag.as_str()) {
            Some(parent) => {
                proof {
                    assert(country_parent_spec(cs[i as int].0@) == Some(parent));
                }
                let ghost m_country_start = color_map@;
                let ghost hv = histories_view(states@);
                let ghost subs = all_sub_states(hv);
                let sn = states.len();
                let mut j: usize = 0;
                proof {
                    assert(all_sub_states(hv.take(0)) =~= Seq::<SubStateV>::empty());
                    assert(country_states_colors(m_country_start, parent, all_sub_states(
                        hv.take(0),
                    )) == m_country_start);
                }
                while j < sn
                    invariant
                        sn == states@.len(),
                        hv == histories_view(states@),
                        hv.len() == sn,
                        j <= sn,
                        color_map@ == country_states_colors(
                            m_country_start,
                            parent,
                            all_sub_states(hv.take(j as int)),
                        ),
                    decreases sn - j,
                {
                    let ghost st = hv[j as int];
                    let sub_states = &states[j].sub_states;
                    let kn = sub_states.len();
                    let mut k: usize = 0;
                    let ghost m_state_start = color_map@;
                    proof {
                        assert(states@[j as int]@ == st);
                        assert(st.sub_states =~= sub_states@.map(
                            |q: int, s: crate::state_history::SubState| s@,
                        ));
                        assert(st.sub_states.take(0) =~= Seq::<SubStateV>::empty());
                        lemma_country_colors_concat(
                            m_state_start,
                            parent,
                            Seq::<SubStateV>::empty(),
                        );
                    }
                    while k < kn
                        invariant
                            kn == sub_states@.len(),
                            st.sub_states == sub_states@.map(
                                |q: int, s: crate::state_history::SubState| s@,
                            ),
                            st.sub_states.len() == kn,
                            k <= kn,
                            color_map@ == country_states_colors(
                                m_state_start,
                                parent,
                                st.sub_states.take(k as int),
                            ),
                        decreases kn - k,
                    {
                        let ghost sub = st.sub_states[k as int];
                        let provinces = &sub_states[k].provinces;
                        proof {
                            assert(sub_states@[k as int]@ == sub);
                            assert(sub.provinces == crate::buildings::str_list_view(provinces@));
                            assert(st.sub_states.take(k + 1).drop_last() =~= st.sub_states.take(
                                k as int,
                            ));
                            assert(st.sub_states.take(k + 1).last() == sub);
                        }
                        let first_key = if provinces.len() == 0 {
                            None
                        } else {
                            hex_color_key(provinces[0].as_str())
                        };
                        match first_key {
                            Some(color) => {
                                proof {
                                    assert(sub.provinces[0] == provinces@[0]@);
                                    assert(sub_state_parent(sub) == Some(color));
                                }
                                let ghost before = color_map@;
                                let removed = remove_color_key(color_map, color);
                                color_map = removed;
                                color_map.push((color, parent));
                                proof {
                                    assert(color_map@ =~= upsert_color(before, color, parent));
                                }
                            },
                            None => {
                                proof {
                                    if provinces.len() == 0 {
                                        assert(sub.provinces.len() == 0);
                                    } else {
                                        assert(sub.provinces[0] == provinces@[0]@);
                                    }
                                    assert(sub_state_parent(sub) is None);
                                }
                            },
                        }
                        k = k + 1;
                    }
                    proof {
                        assert(st.sub_states.take(kn as int) =~= st.sub_states);
                        assert(hv.take(j + 1).drop_last() =~= hv.take(j as int));
                        assert(hv.take(j + 1).last() == st);
                        assert(all_sub_states(hv.take(j + 1)) == all_sub_states(hv.take(j as int))
                            + st.sub_states);
                        lemma_country_colors_split(
                            m_country_start,
                            parent,
                            all_sub_states(hv.take(j as int)),
                            st.sub_states,
                        );
                    }
                    j = j + 1;
                }
                proof {
                    assert(hv.take(sn as int) =~= hv);
                    assert(color_map@ == country_color_map_spec(cs.take(i + 1)));
                }
            },
            None => {
                proof {
                    assert(country_parent_spec(cs[i as int].0@) is None);
                    assert(color_map@ == country_color_map_spec(cs.take(i + 1)));
                }
            },
        }
        i = i + 1;
    }
    proof {
        assert(cs.take(n as int) =~= cs);
    }
    color_map
}

/// Folding a concatenation of sub-state lists folds the parts in order.
proof fn lemma_country_colors_split(
    m: Seq<(u32, u32)>,
    parent: u32,
    a: Seq<SubStateV>,
    b: Seq<SubStateV>,
)
    ensures
        country_states_colors(m, parent, a + b) == country_states_colors(
            country_states_colors(m, parent, a),
            parent,
            b,
        ),
    decreases b.len(),
{
    if b.len() == 0 {
        assert(a + b =~= a);
    } else {
        assert((a + b).drop_last() =~= a + b.drop_last());
        assert((a + b).last() == b.last());
        lemma_country_colors_split(m, parent, a, b.drop_last());
    }
}

/// Folding an empty sub-state list changes nothing.
proof fn lemma_country_colors_concat(m: Seq<(u32, u32)>, parent: u32, empty: Seq<SubStateV>)
    requires
        empty.len() == 0,
    ensures
        country_states_colors(m, parent, empty) == m,
{
}

/// The numeric value of one hexadecimal digit, or -1.
pub open spec fn hex_digit_val(c: char) -> int {
    if '0' <= c <= '9' {
        c as int - 48
    } else if 'A' <= c <= 'F' {
        c as int - 55
    } else if 'a' <= c <= 'f' {
        c as int - 87
    } else {
        -1
    }
}

/// Whether a string is a region key: an `x` followed by six hex digits.
pub open spec fn is_region_key(s: Seq<char>) -> bool {
    s.len() == 7 && s[0] == 'x' && forall|i: int| 1 <= i < 7 ==> hex_digit_val(#[trigger] s[i]) >= 0
}

/// The 24-bit color a region key names.
pub open spec fn region_key_value(s: Seq<char>) -> int {
    hex_digit_val(s[1]) * 0x100000 + hex_digit_val(s[2]) * 0x10000 + hex_digit_val(s[3]) * 0x1000
        + hex_digit_val(s[4]) * 0x100 + hex_digit_val(s[5]) * 0x10 + hex_digit_val(s[6])
}

/// The value of one hexadecimal digit character, or -1 for any other.
fn hex_digit(c: char) -> (r: i32)
    ensures
        r == hex_digit_val(c),
{
    if '0' <= c && c <= '9' {
        (c as u32 as i32) - 48
    } else if 'A' <= c && c <= 'F' {
        (c as u32 as i32) - 55
    } else if 'a' <= c && c <= 'f' {
        (c as u32 as i32) - 87
    } else {
        -1
    }
}

/// Parse a region key of the form `x` plus six hex digits into its 24-bit
/// color, refusing any other string.
#[verifier::rlimit(60)]
pub fn hex_color_key(s: &str) -> (r: Option<u32>)
    ensures
        r is Some <==> is_region_key(s@),
        r is Some ==> r->0 == region_key_value(s@),
{
    let n = s.unicode_len();
    if n != 7 {
        return None;
    }
    if s.get_char(0) != 'x' {
        return None;
    }
    let mut value: u32 = 0;
    let mut i: usize = 1;
    while i < 7
        invariant
            s@.len() == 7,
            1 <= i <= 7,
            forall|j: int| 1 <= j < i ==> hex_digit_val(#[trigger] s@[j]) >= 0,
            value < 0x1000000,
            value == (if i == 1 {
                0
            } else if i == 2 {
                hex_digit_val(s@[1])
            } else if i == 3 {
                hex_digit_val(s@[1]) * 0x10 + hex_digit_val(s@[2])
            } else if i == 4 {
                hex_digit_val(s@[1]) * 0x100 + hex_digit_val(s@[2]) * 0x10 + hex_digit_val(s@[3])
            } else if i == 5 {
                hex_digit_val(s@[1]) * 0x1000 + hex_digit_val(s@[2]) * 0x100 + hex_digit_val(
                    s@[3],
                ) * 0x10 + hex_digit_val(s@[4])
            } else if i == 6 {
                hex_digit_val(s@[1]) * 0x10000 + hex_digit_val(s@[2]) * 0x1000 + hex_digit_val(
                    s@[3],
                ) * 0x100 + hex_digit_val(s@[4]) * 0x10 + hex_digit_val(s@[5])
            } else {
                region_key_value(s@)
            }),
        decreases 7 - i,
    {
        let d = hex_digit(s.get_char(i));
        if d < 0 {
            return None;
        }
        value = value * 16 + (d as u32);
        i = i + 1;
    }
    Some(value)
}

} // verus!
