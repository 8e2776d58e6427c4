use crate::config::{FieldConfig, VIEW_LIMIT};
use crate::geometry::{Candidate, Point, Rect, SizeRange, COORD_LIMIT};
use crate::random::draw_between;
use crate::sampler::{
    all_bounded, all_within, draw_candidates, lemma_placement_within, place_from_draws, placement,
};
use rand::rngs::StdRng;
use vstd::arithmetic::div_mod::{lemma_fundamental_div_mod, lemma_mod_bound};
use vstd::prelude::*;

verus! {

/// A square region of the world grid.
#[derive(Clone, Copy, Debug, PartialEq, Eq, Structural, Hash)]
pub struct RegionId {
    pub x: i64,
    pub y: i64,
}

/// An object handed to the presentation side: where it stands, how large it
/// is, and which of the visual variants it shows.
#[derive(Clone, Copy, Debug, PartialEq, Eq, Structural)]
pub struct GeneratedObject {
    pub position: Point,
    pub size: i64,
    pub variant: u32,
}

impl Point {
    /// A viewpoint that the streamer accepts.
    pub open spec fn in_view(self) -> bool {
        -VIEW_LIMIT <= self.x <= VIEW_LIMIT && -VIEW_LIMIT <= self.y <= VIEW_LIMIT
    }
}

/// `floor(v / c)` for a positive `c`.
pub open spec fn cell_floor(v: int, c: int) -> int {
    v / c
}

/// `ceil(v / c)` for a positive `c`.
pub open spec fn cell_ceil(v: int, c: int) -> int {
    -((-v) / c)
}

/// The four regions around a viewpoint: floor and ceiling of its cell on
/// each axis, in the order (floor, floor), (floor, ceil), (ceil, floor),
/// (ceil, ceil).
pub open spec fn visible_regions(p: Point, c: int) -> Seq<RegionId> {
    let fx = cell_floor(p.x as int, c) as i64;
    let fy = cell_floor(p.y as int, c) as i64;
    let cx = cell_ceil(p.x as int, c) as i64;
    let cy = cell_ceil(p.y as int, c) as i64;
    seq![
        RegionId { x: fx, y: fy },
        RegionId { x: fx, y: cy },
        RegionId { x: cx, y: fy },
        RegionId { x: cx, y: cy },
    ]
}

/// The regions of `cands` that are not in `loaded`, each once, in the order
/// of their first appearance.
pub open spec fn fresh(cands: Seq<RegionId>, loaded: Seq<RegionId>) -> Seq<RegionId>
    decreases cands.len(),
{
    if cands.len() == 0 {
        seq![]
    } else {
        let prev = fresh(cands.drop_last(), loaded);
        let c = cands.last();
        if loaded.contains(c) || prev.contains(c) {
            prev
        } else {
            prev.push(c)
        }
    }
}

/// A region whose sampling domain stays inside the coordinate limits.
pub open spec fn in_reach(id: RegionId, c: int) -> bool {
    0 < c <= VIEW_LIMIT && -2 * VIEW_LIMIT <= id.x * c <= 2 * VIEW_LIMIT && -2 * VIEW_LIMIT
        <= id.y * c <= 2 * VIEW_LIMIT
}

/// The sampling domain of a region: a square of side `c` centred on
/// `id * c`, reaching half a chunk into each neighbour's cell.
pub open spec fn bounds_of(id: RegionId, c: int) -> Rect {
    Rect {
        min_x: (id.x * c - c / 2) as i64,
        max_x: (id.x * c - c / 2 + c) as i64,
        min_y: (id.y * c - c / 2) as i64,
        max_y: (id.y * c - c / 2 + c) as i64,
    }
}

/// Strictly farther than `radius` from the origin.
pub open spec fn outside_safe_zone(p: Point, radius: int) -> bool {
    p.x * p.x + p.y * p.y > radius * radius
}

/// What every object generated for region `id` satisfies.
pub open spec fn object_fits(o: GeneratedObject, id: RegionId, cfg: FieldConfig) -> bool {
    outside_safe_zone(o.position, cfg.safe_zone_radius as int) && bounds_of(
        id,
        cfg.chunk_size as int,
    ).contains(o.position) && cfg.sizes().contains(o.size) && o.variant < cfg.variant_count
}

/// The objects that a sample of points yields: the points outside the safe
/// zone, in order.
pub open spec fn kept_points(points: Seq<Candidate>, radius: int) -> Seq<Candidate> {
    points.filter(|c: Candidate| outside_safe_zone(c.pos, radius))
}

pub open spec fn as_candidate(o: GeneratedObject) -> Candidate {
    Candidate { pos: o.position, size: o.size }
}

/// The objects of region `id` are the points outside the safe zone, in order,
/// of one sample of `objects_per_region + 1` points over the region's domain.
pub open spec fn sampled_objects(objs: Seq<GeneratedObject>, id: RegionId, cfg: FieldConfig) -> bool {
    exists|pts: Seq<Candidate>|
        pts.len() == cfg.objects_per_region + 1 && all_within(
            pts,
            bounds_of(id, cfg.chunk_size as int),
            cfg.sizes(),
        ) && objs.map_values(|o: GeneratedObject| as_candidate(o)) == kept_points(
            pts,
            cfg.safe_zone_radius as int,
        )
}

proof fn lemma_cell_bounds(v: int, c: int)
    requires
        0 < c <= VIEW_LIMIT,
        -VIEW_LIMIT <= v <= VIEW_LIMIT,
    ensures
        v - c < cell_floor(v, c) * c <= v,
        v <= cell_ceil(v, c) * c < v + c,
        -VIEW_LIMIT - 1 <= cell_floor(v, c) <= VIEW_LIMIT,
        -VIEW_LIMIT <= cell_ceil(v, c) <= VIEW_LIMIT + 1,
{
    lemma_fundamental_div_mod(v, c);
    lemma_mod_bound(v, c);
    lemma_fundamental_div_mod(-v, c);
    lemma_mod_bound(-v, c);
    let q = v / c;
    let q2 = (-v) / c;
    assert(-VIEW_LIMIT - 1 <= q <= VIEW_LIMIT) by (nonlinear_arith)
        requires
            v == c * q + v % c,
            0 <= v % c < c,
            0 < c,
            -VIEW_LIMIT <= v <= VIEW_LIMIT,
    ;
    assert(-VIEW_LIMIT - 1 <= q2 <= VIEW_LIMIT) by (nonlinear_arith)
        requires
            -v == c * q2 + (-v) % c,
            0 <= (-v) % c < c,
            0 < c,
            -VIEW_LIMIT <= v <= VIEW_LIMIT,
    ;
    assert(c * (-q2) == -(c * q2)) by (nonlinear_arith);
    assert(q * c == c * q) by (nonlinear_arith);
    assert((-q2) * c == c * (-q2)) by (nonlinear_arith);
}

fn floor_cell(v: i64, c: i64) -> (r: i64)
    requires
        0 < c <= VIEW_LIMIT,
        -VIEW_LIMIT <= v <= VIEW_LIMIT,
    ensures
        r == cell_floor(v as int, c as int),
{
    proof {
        lemma_cell_bounds(v as int, c as int);
    }
    match v.checked_div_euclid(c) {
        Some(q) => q,
        None => 0,
    }
}

fn ceil_cell(v: i64, c: i64) -> (r: i64)
    requires
        0 < c <= VIEW_LIMIT,
        -VIEW_LIMIT <= v <= VIEW_LIMIT,
    ensures
        r == cell_ceil(v as int, c as int),
{
    proof {
        lemma_cell_bounds(v as int, c as int);
        lemma_cell_bounds(-v, c as int);
    }
    let q = floor_cell(-v, c);
    -q
}

/// The four regions around `viewpoint`, on a grid of side `chunk_size`.
pub fn regions_around(viewpoint: Point, chunk_size: i64) -> (r: Vec<RegionId>)
    requires
        0 < chunk_size <= VIEW_LIMIT,
        viewpoint.in_view(),
    ensures
        r@ == visible_regions(viewpoint, chunk_size as int),
        forall|i: int| 0 <= i < r.len() ==> in_reach(#[trigger] r@[i], chunk_size as int),
{
    proof {
        lemma_cell_bounds(viewpoint.x as int, chunk_size as int);
        lemma_cell_bounds(viewpoint.y as int, chunk_size as int);
    }
    let fx = floor_cell(viewpoint.x, chunk_size);
    let fy = floor_cell(viewpoint.y, chunk_size);
    let cx = ceil_cell(viewpoint.x, chunk_size);
    let cy = ceil_cell(viewpoint.y, chunk_size);
    let r = vec![
        RegionId { x: fx, y: fy },
        RegionId { x: fx, y: cy },
        RegionId { x: cx, y: fy },
        RegionId { x: cx, y: cy },
    ];
    assert(r@ == visible_regions(viewpoint, chunk_size as int));
    r
}

/// The sampling domain of region `id` on a grid of side `chunk_size`.
pub fn region_bounds(id: RegionId, chunk_size: i64) -> (r: Rect)
    requires
        in_reach(id, chunk_size as int),
    ensures
        r == bounds_of(id, chunk_size as int),
        r.wf(),
{
    let c = chunk_size as i128;
    let half = c / 2;
    let min_x = id.x as i128 * c - half;
    let min_y = id.y as i128 * c - half;
    Rect {
        min_x: min_x as i64,
        max_x: (min_x + c) as i64,
        min_y: min_y as i64,
        max_y: (min_y + c) as i64,
    }
}

/// The points of `points` strictly farther than `radius` from the origin, in order.
pub fn safe_points(points: &Vec<Candidate>, radius: i64) -> (r: Vec<Candidate>)
    requires
        all_bounded(points@),
        0 <= radius <= COORD_LIMIT,
    ensures
        r@ == kept_points(points@, radius as int),
{
    let ghost pred = |c: Candidate| outside_safe_zone(c.pos, radius as int);
    let mut out: Vec<Candidate> = Vec::new();
    let mut i: usize = 0;
    assert(0 <= radius * radius <= COORD_LIMIT * COORD_LIMIT) by (nonlinear_arith)
        requires
            0 <= radius <= COORD_LIMIT,
    ;
    let rr = radius as i128 * radius as i128;
    while i < points.len()
        invariant
            i <= points.len(),
            all_bounded(points@),
            rr == radius * radius,
            out@ == points@.take(i as int).filter(pred),
            pred == (|c: Candidate| outside_safe_zone(c.pos, radius as int)),
        decreases points.len() - i,
    {
        let p = points[i];
        assert(points@[i as int].bounded());
        let x = p.pos.x as i128;
        let y = p.pos.y as i128;
        assert(0 <= x * x <= COORD_LIMIT * COORD_LIMIT) by (nonlinear_arith)
            requires
                -COORD_LIMIT <= x <= COORD_LIMIT,
        ;
        assert(0 <= y * y <= COORD_LIMIT * COORD_LIMIT) by (nonlinear_arith)
            requires
                -COORD_LIMIT <= y <= COORD_LIMIT,
        ;
        proof {
            reveal(Seq::filter);
            assert(points@.take(i as int + 1).drop_last() == points@.take(i as int));
        }
        if x * x + y * y > rr {
            out.push(p);
        }
        i = i + 1;
    }
    assert(points@.take(i as int) == points@);
    out
}

/// Pairs each point with its visual variant.
pub fn attach_variants(points: &Vec<Candidate>, variants: &Vec<u32>) -> (r: Vec<GeneratedObject>)
    requires
        points.len() == variants.len(),
    ensures
        r.len() == points.len(),
        forall|i: int|
            0 <= i < r.len() ==> #[trigger] r@[i] == (GeneratedObject {
                position: points@[i].pos,
                size: points@[i].size,
                variant: variants@[i],
            }),
{
    let mut out: Vec<GeneratedObject> = Vec::new();
    let mut i: usize = 0;
    while i < points.len()
        invariant
            i <= points.len(),
            points.len() == variants.len(),
            out.len() == i,
            forall|j: int|
                0 <= j < i ==> #[trigger] out@[j] == (GeneratedObject {
                    position: points@[j].pos,
                    size: points@[j].size,
                    variant: variants@[j],
                }),
        decreases points.len() - i,
    {
        out.push(GeneratedObject { position: points[i].pos, size: points[i].size, variant: variants[i] });
        i = i + 1;
    }
    out
}

fn contains_region(v: &Vec<RegionId>, id: RegionId) -> (r: bool)
    ensures
        r == v@.contains(id),
{
    let mut i: usize = 0;
    while i < v.len()
        invariant
            i <= v.len(),
            forall|j: int| 0 <= j < i ==> v@[j] != id,
        decreases v.len() - i,
    {
        if v[i] == id {
            assert(v@[i as int] == id);
            return true;
        }
        i = i + 1;
    }
    false
}

proof fn lemma_fresh(cands: Seq<RegionId>, loaded: Seq<RegionId>)
    ensures
        fresh(cands, loaded).no_duplicates(),
        fresh(cands, loaded).len() <= cands.len(),
        forall|x: RegionId| #[trigger]
            fresh(cands, loaded).contains(x) ==> cands.contains(x) && !loaded.contains(x),
        forall|i: int|
            0 <= i < cands.len() ==> loaded.contains(#[trigger] cands[i]) || fresh(
                cands,
                loaded,
            ).contains(cands[i]),
    decreases cands.len(),
{
    if cands.len() > 0 {
        let rest = cands.drop_last();
        lemma_fresh(rest, loaded);
        let prev = fresh(rest, loaded);
        let f = fresh(cands, loaded);
        let c = cands.last();
        assert forall|x: RegionId| #[trigger] f.contains(x) implies cands.contains(x)
            && !loaded.contains(x) by {
            if prev.contains(x) {
                let j = choose|j: int| 0 <= j < rest.len() && rest[j] == x;
                assert(cands[j] == x);
            } else {
                assert(x == c);
                assert(cands[cands.len() - 1] == x);
            }
        }
        assert forall|i: int| 0 <= i < cands.len() implies loaded.contains(#[trigger] cands[i])
            || f.contains(cands[i]) by {
            if i < cands.len() - 1 {
                assert(rest[i] == cands[i]);
                if prev.contains(cands[i]) {
                    let j = choose|j: int| 0 <= j < prev.len() && prev[j] == cands[i];
                    assert(f[j] == cands[i]);
                }
            } else if !loaded.contains(c) {
                if prev.contains(c) {
                    let j = choose|j: int| 0 <= j < prev.len() && prev[j] == c;
                    assert(f[j] == c);
                } else {
                    assert(f[f.len() - 1] == c);
                }
            }
        }
    }
}

proof fn lemma_fresh_all_loaded(cands: Seq<RegionId>, loaded: Seq<RegionId>)
    requires
        forall|i: int| 0 <= i < cands.len() ==> loaded.contains(#[trigger] cands[i]),
    ensures
        fresh(cands, loaded) == Seq::<RegionId>::empty(),
    decreases cands.len(),
{
    if cands.len() > 0 {
        let rest = cands.drop_last();
        assert forall|i: int| 0 <= i < rest.len() implies loaded.contains(#[trigger] rest[i]) by {
            assert(rest[i] == cands[i]);
        }
        lemma_fresh_all_loaded(rest, loaded);
        assert(loaded.contains(cands[cands.len() - 1]));
    }
}

/// Loading is idempotent: once the regions that a viewpoint newly needs are in
/// the registry, the same viewpoint needs no region at all.
pub proof fn lemma_reload_is_empty(viewpoint: Point, chunk_size: int, loaded: Seq<RegionId>)
    ensures
        ({
            let cands = visible_regions(viewpoint, chunk_size);
            fresh(cands, loaded + fresh(cands, loaded)) == Seq::<RegionId>::empty()
        }),
{
    let cands = visible_regions(viewpoint, chunk_size);
    let f = fresh(cands, loaded);
    let l2 = loaded + f;
    lemma_fresh(cands, loaded);
    assert forall|i: int| 0 <= i < cands.len() implies l2.contains(#[trigger] cands[i]) by {
        if loaded.contains(cands[i]) {
            let j = choose|j: int| 0 <= j < loaded.len() && loaded[j] == cands[i];
            assert(l2[j] == cands[i]);
        } else {
            let j = choose|j: int| 0 <= j < f.len() && f[j] == cands[i];
            assert(l2[loaded.len() + j] == cands[i]);
        }
    }
    lemma_fresh_all_loaded(cands, l2);
}

/// From an empty registry a viewpoint loads between one and four regions.
pub proof fn lemma_first_load_count(viewpoint: Point, chunk_size: int)
    ensures
        1 <= fresh(visible_regions(viewpoint, chunk_size), Seq::<RegionId>::empty()).len() <= 4,
{
    let cands = visible_regions(viewpoint, chunk_size);
    let f = fresh(cands, Seq::<RegionId>::empty());
    lemma_fresh(cands, Seq::<RegionId>::empty());
    assert(!Seq::<RegionId>::empty().contains(cands[0]));
    assert(f.contains(cands[0]));
}

/// On a grid corner (both coordinates multiples of the chunk side, as the
/// origin is) the four candidate regions collapse into one, and from an empty
/// registry exactly that region is loaded.
pub proof fn lemma_corner_loads_one_region(viewpoint: Point, chunk_size: int)
    requires
        0 < chunk_size,
        (viewpoint.x as int) % chunk_size == 0,
        (viewpoint.y as int) % chunk_size == 0,
    ensures
        fresh(visible_regions(viewpoint, chunk_size), Seq::<RegionId>::empty()) == seq![
            RegionId {
                x: cell_floor(viewpoint.x as int, chunk_size) as i64,
                y: cell_floor(viewpoint.y as int, chunk_size) as i64,
            },
        ],
{
    let c = chunk_size;
    lemma_ceil_at_multiple(viewpoint.x as int, c);
    lemma_ceil_at_multiple(viewpoint.y as int, c);
    let cands = visible_regions(viewpoint, c);
    let a = cands[0];
    let e = Seq::<RegionId>::empty();
    assert(cands.drop_last().drop_last().drop_last() == seq![a]);
    assert(seq![a].drop_last() == e);
    assert(fresh(e, e) == e);
    assert(fresh(seq![a], e) == seq![a]);
    assert(seq![a].contains(a)) by {
        assert(seq![a][0] == a);
    }
    assert(cands.drop_last().drop_last() == seq![a, a]);
    assert(fresh(seq![a, a], e) == seq![a]);
    assert(cands.drop_last() == seq![a, a, a]);
    assert(fresh(seq![a, a, a], e) == seq![a]);
}

proof fn lemma_ceil_step(v: int, c: int)
    requires
        0 < c,
    ensures
        cell_ceil(v, c) == cell_floor(v, c) + if v % c == 0 {
            0int
        } else {
            1int
        },
{
    if v % c == 0 {
        lemma_ceil_at_multiple(v, c);
    } else {
        lemma_fundamental_div_mod(v, c);
        lemma_mod_bound(v, c);
        let q = v / c;
        let m = v % c;
        assert(-v == (-q - 1) * c + (c - m)) by (nonlinear_arith)
            requires
                v == c * q + m,
        ;
        vstd::arithmetic::div_mod::lemma_fundamental_div_mod_converse(-v, c, -q - 1, c - m);
    }
}

proof fn lemma_fresh_four(a: RegionId, b: RegionId, c: RegionId, d: RegionId)
    ensures
        a == b && a == c && a == d ==> fresh(seq![a, b, c, d], Seq::<RegionId>::empty())
            == seq![a],
        a == c && b == d && a != b ==> fresh(seq![a, b, c, d], Seq::<RegionId>::empty()) == seq![
            a,
            b,
        ],
        a == b && c == d && a != c ==> fresh(seq![a, b, c, d], Seq::<RegionId>::empty()) == seq![
            a,
            c,
        ],
        a != b && a != c && a != d && b != c && b != d && c != d ==> fresh(
            seq![a, b, c, d],
            Seq::<RegionId>::empty(),
        ) == seq![a, b, c, d],
{
    let e = Seq::<RegionId>::empty();
    assert(seq![a, b, c, d].drop_last() == seq![a, b, c]);
    assert(seq![a, b, c].drop_last() == seq![a, b]);
    assert(seq![a, b].drop_last() == seq![a]);
    assert(seq![a].drop_last() == e);
    assert(fresh(e, e) == e);
    assert(!e.contains(a) && !e.contains(b) && !e.contains(c) && !e.contains(d));
    assert(fresh(seq![a], e) == seq![a]);
    assert(seq![a][0] == a);
    assert(seq![a, b][0] == a && seq![a, b][1] == b);
    assert(seq![a, c][0] == a && seq![a, c][1] == c);
    assert(seq![a, b, c][0] == a && seq![a, b, c][1] == b && seq![a, b, c][2] == c);
    if a == b && a == c && a == d {
        assert(fresh(seq![a, b], e) == seq![a]);
        assert(fresh(seq![a, b, c], e) == seq![a]);
    }
    if a == c && b == d && a != b {
        assert(fresh(seq![a, b], e) == seq![a, b]);
        assert(fresh(seq![a, b, c], e) == seq![a, b]);
    }
    if a == b && c == d && a != c {
        assert(fresh(seq![a, b], e) == seq![a]);
        assert(fresh(seq![a, b, c], e) == seq![a, c]);
    }
    if a != b && a != c && a != d && b != c && b != d && c != d {
        assert(fresh(seq![a, b], e) == seq![a, b]);
        assert(fresh(seq![a, b, c], e) == seq![a, b, c]);
    }
}

/// From an empty registry a viewpoint loads the regions whose x is the floor
/// or the ceiling of its cell's x and whose y is the floor or the ceiling of
/// its cell's y: one region per axis where the coordinate lies on a grid line,
/// two where it does not.
pub proof fn lemma_first_load_regions(viewpoint: Point, chunk_size: int)
    requires
        0 < chunk_size <= VIEW_LIMIT,
        viewpoint.in_view(),
    ensures
        ({
            let f = fresh(visible_regions(viewpoint, chunk_size), Seq::<RegionId>::empty());
            let x = viewpoint.x as int;
            let y = viewpoint.y as int;
            &&& forall|id: RegionId|
                #[trigger] f.contains(id) <==> (id.x == cell_floor(x, chunk_size) || id.x
                    == cell_ceil(x, chunk_size)) && (id.y == cell_floor(y, chunk_size) || id.y
                    == cell_ceil(y, chunk_size))
            &&& f.len() == (if x % chunk_size == 0 {
                1int
            } else {
                2int
            }) * (if y % chunk_size == 0 {
                1int
            } else {
                2int
            })
        }),
{
    let c = chunk_size;
    let x = viewpoint.x as int;
    let y = viewpoint.y as int;
    lemma_cell_bounds(x, c);
    lemma_cell_bounds(y, c);
    lemma_ceil_step(x, c);
    lemma_ceil_step(y, c);
    let cands = visible_regions(viewpoint, c);
    let e = Seq::<RegionId>::empty();
    let f = fresh(cands, e);
    lemma_fresh(cands, e);
    assert forall|id: RegionId| #[trigger] f.contains(id) <==> (id.x == cell_floor(x, c) || id.x
        == cell_ceil(x, c)) && (id.y == cell_floor(y, c) || id.y == cell_ceil(y, c)) by {
        if f.contains(id) {
            let j = choose|j: int| 0 <= j < cands.len() && cands[j] == id;
        }
        if (id.x == cell_floor(x, c) || id.x == cell_ceil(x, c)) && (id.y == cell_floor(y, c)
            || id.y == cell_ceil(y, c)) {
            let k: int = if id.x == cell_floor(x, c) {
                if id.y == cell_floor(y, c) {
                    0
                } else {
                    1
                }
            } else {
                if id.y == cell_floor(y, c) {
                    2
                } else {
                    3
                }
            };
            assert(cands[k] == id);
            assert(!e.contains(cands[k]));
        }
    }
    lemma_fresh_four(cands[0], cands[1], cands[2], cands[3]);
    assert(cands == seq![cands[0], cands[1], cands[2], cands[3]]);
}

proof fn lemma_ceil_at_multiple(v: int, c: int)
    requires
        0 < c,
        v % c == 0,
    ensures
        cell_ceil(v, c) == cell_floor(v, c),
{
    lemma_fundamental_div_mod(v, c);
    let q = v / c;
    assert(-v == c * (-q)) by (nonlinear_arith)
        requires
            v == c * q + 0,
    ;
    vstd::arithmetic::div_mod::lemma_div_multiples_vanish(-q, c);
}

proof fn lemma_kept_points(points: Seq<Candidate>, radius: int, bounds: Rect, sizes: SizeRange)
    requires
        all_within(points, bounds, sizes),
    ensures
        all_within(kept_points(points, radius), bounds, sizes),
        forall|i: int|
            0 <= i < kept_points(points, radius).len() ==> outside_safe_zone(
                #[trigger] kept_points(points, radius)[i].pos,
                radius,
            ),
    decreases points.len(),
{
    reveal(Seq::filter);
    if points.len() > 0 {
        let rest = points.drop_last();
        assert forall|i: int| 0 <= i < rest.len() implies bounds.contains(#[trigger] rest[i].pos)
            && sizes.contains(rest[i].size) by {
            assert(rest[i] == points[i]);
        }
        lemma_kept_points(rest, radius, bounds, sizes);
        assert(bounds.contains(points[points.len() - 1].pos));
    }
}

/// Streams regions of the field into existence around a moving viewpoint.
///
/// It owns the registry of loaded regions: a region enters it once, the first
/// time the viewpoint comes near it, and never leaves.
pub struct ChunkStreamer {
    config: FieldConfig,
    loaded: Vec<RegionId>,
}

impl ChunkStreamer {
    pub closed spec fn config(&self) -> FieldConfig {
        self.config
    }

    /// The loaded regions, in the order they were loaded.
    pub closed spec fn loaded(&self) -> Seq<RegionId> {
        self.loaded@
    }

    pub open spec fn wf(&self) -> bool {
        self.config().wf() && self.loaded().no_duplicates()
    }

    /// A streamer with nothing loaded yet.
    pub fn new(config: FieldConfig) -> (r: ChunkStreamer)
        requires
            config.wf(),
        ensures
            r.wf(),
            r.config() == config,
            r.loaded() == Seq::<RegionId>::empty(),
    {
        ChunkStreamer { config, loaded: Vec::new() }
    }

    pub fn field_config(&self) -> (r: FieldConfig)
        ensures
            r == self.config(),
    {
        self.config
    }

    /// The loaded regions, in the order they were loaded.
    pub fn loaded_regions(&self) -> (r: Vec<RegionId>)
        ensures
            r@ == self.loaded(),
    {
        let mut out: Vec<RegionId> = Vec::new();
        let mut i: usize = 0;
        while i < self.loaded.len()
            invariant
                i <= self.loaded.len(),
                out@ == self.loaded@.take(i as int),
            decreases self.loaded.len() - i,
        {
            out.push(self.loaded[i]);
            i = i + 1;
        }
        assert(self.loaded@.take(i as int) == self.loaded@);
        out
    }

    pub fn is_loaded(&self, id: RegionId) -> (r: bool)
        ensures
            r == self.loaded().contains(id),
    {
        contains_region(&self.loaded, id)
    }

    /// The regions around `viewpoint` that are not loaded yet, each once, in
    /// the order (floor, floor), (floor, ceil), (ceil, floor), (ceil, ceil).
    pub fn pending_regions(&self, viewpoint: Point) -> (r: Vec<RegionId>)
        requires
            self.wf(),
            viewpoint.in_view(),
        ensures
            r@ == fresh(visible_regions(viewpoint, self.config().chunk_size as int), self.loaded()),
            forall|i: int|
                0 <= i < r.len() ==> in_reach(#[trigger] r@[i], self.config().chunk_size as int),
    {
        let cands = regions_around(viewpoint, self.config.chunk_size);
        let mut out: Vec<RegionId> = Vec::new();
        let mut i: usize = 0;
        while i < cands.len()
            invariant
                i <= cands.len(),
                out@ == fresh(cands@.take(i as int), self.loaded@),
            decreases cands.len() - i,
        {
            let id = cands[i];
            assert(cands@.take(i as int + 1).drop_last() == cands@.take(i as int));
            assert(cands@.take(i as int + 1).last() == id);
            if !self.is_loaded(id) && !contains_region(&out, id) {
                out.push(id);
            }
            i = i + 1;
        }
        assert(cands@.take(i as int) == cands@);
        proof {
            lemma_fresh(cands@, self.loaded@);
            assert forall|i: int| 0 <= i < out.len() implies in_reach(
                #[trigger] out@[i],
                self.config.chunk_size as int,
            ) by {
                assert(out@.contains(out@[i]));
                let j = choose|j: int| 0 <= j < cands.len() && cands@[j] == out@[i];
            }
        }
        out
    }

    /// The points that region `id` keeps for the given draws: the
    /// best-candidate placement of the draws over the region's domain, less
    /// the points inside the safe zone, in order.
    pub fn region_sample(&self, id: RegionId, draws: &Vec<Candidate>) -> (r: Vec<Candidate>)
        requires
            self.wf(),
            in_reach(id, self.config().chunk_size as int),
            draws.len() == 1 + self.config().objects_per_region
                * self.config().candidates_per_step,
            all_within(draws@, bounds_of(id, self.config().chunk_size as int), self.config().sizes()),
        ensures
            r@ == kept_points(
                placement(
                    draws@,
                    self.config().objects_per_region as nat,
                    self.config().candidates_per_step as int,
                    bounds_of(id, self.config().chunk_size as int).diagonal_sq(),
                ),
                self.config().safe_zone_radius as int,
            ),
    {
        let cfg = self.config;
        let bounds = region_bounds(id, cfg.chunk_size);
        assert(all_bounded(draws@)) by {
            assert forall|i: int| 0 <= i < draws.len() implies #[trigger] draws@[i].bounded() by {
                assert(bounds.contains(draws@[i].pos));
            }
        }
        let ceiling = bounds.diagonal_squared();
        let pts = place_from_draws(draws, cfg.objects_per_region, cfg.candidates_per_step, ceiling);
        let sizes = SizeRange { min: cfg.min_size, max: cfg.max_size };
        proof {
            lemma_placement_within(
                draws@,
                cfg.objects_per_region as nat,
                cfg.candidates_per_step as int,
                ceiling as int,
                bounds,
                sizes,
            );
        }
        assert(all_bounded(pts@)) by {
            assert forall|i: int| 0 <= i < pts.len() implies #[trigger] pts@[i].bounded() by {
                assert(bounds.contains(pts@[i].pos));
            }
        }
        safe_points(&pts, cfg.safe_zone_radius)
    }

    /// Samples region `id` and keeps the points outside the safe zone, each
    /// with a random visual variant. The draws come from `rng`; what is kept of
    /// them is `region_sample`.
    pub fn generate_region(&self, id: RegionId, rng: &mut StdRng) -> (r: Vec<GeneratedObject>)
        requires
            self.wf(),
            in_reach(id, self.config().chunk_size as int),
        ensures
            forall|i: int| 0 <= i < r.len() ==> object_fits(#[trigger] r@[i], id, self.config()),
            sampled_objects(r@, id, self.config()),
    {
        let cfg = self.config;
        let bounds = region_bounds(id, cfg.chunk_size);
        let sizes = SizeRange { min: cfg.min_size, max: cfg.max_size };
        let draws = draw_candidates(
            1 + cfg.objects_per_region * cfg.candidates_per_step,
            sizes,
            bounds,
            rng,
        );
        let kept = self.region_sample(id, &draws);
        let ghost pts = placement(
            draws@,
            cfg.objects_per_region as nat,
            cfg.candidates_per_step as int,
            bounds.diagonal_sq(),
        );
        proof {
            assert(cfg.objects_per_region * cfg.candidates_per_step >= 0) by (nonlinear_arith)
                requires
                    cfg.candidates_per_step > 0,
            ;
            lemma_placement_within(
                draws@,
                cfg.objects_per_region as nat,
                cfg.candidates_per_step as int,
                bounds.diagonal_sq(),
                bounds,
                sizes,
            );
            lemma_kept_points(pts, cfg.safe_zone_radius as int, bounds, sizes);
        }
        let mut variants: Vec<u32> = Vec::new();
        let mut i: usize = 0;
        while i < kept.len()
            invariant
                i <= kept.len(),
                variants.len() == i,
                cfg.variant_count > 0,
                forall|j: int| 0 <= j < i ==> #[trigger] variants@[j] < cfg.variant_count,
            decreases kept.len() - i,
        {
            let v = draw_between(rng, 0, cfg.variant_count as i64);
            variants.push(v as u32);
            i = i + 1;
        }
        let objs = attach_variants(&kept, &variants);
        assert(objs@.map_values(|o: GeneratedObject| as_candidate(o)) == kept@);
        assert forall|i: int| 0 <= i < objs.len() implies object_fits(
            #[trigger] objs@[i],
            id,
            cfg,
        ) by {
            assert(objs@[i].position == kept@[i].pos);
            assert(variants@[i] < cfg.variant_count);
        }
        objs
    }

    /// One streaming step: loads every region around `viewpoint` that is not
    /// loaded yet, and returns each with its generated objects. Regions loaded
    /// before are skipped: nothing is generated twice.
    pub fn update(&mut self, viewpoint: Point, rng: &mut StdRng) -> (r: Vec<(RegionId, Vec<GeneratedObject>)>)
        requires
            old(self).wf(),
            viewpoint.in_view(),
        ensures
            final(self).wf(),
            final(self).config() == old(self).config(),
            r@.map_values(|e: (RegionId, Vec<GeneratedObject>)| e.0) == fresh(
                visible_regions(viewpoint, old(self).config().chunk_size as int),
                old(self).loaded(),
            ),
            final(self).loaded() == old(self).loaded() + r@.map_values(
                |e: (RegionId, Vec<GeneratedObject>)| e.0,
            ),
            forall|i: int, j: int|
                0 <= i < r.len() && 0 <= j < r@[i].1.len() ==> object_fits(
                    #[trigger] r@[i].1@[j],
                    r@[i].0,
                    old(self).config(),
                ),
            forall|i: int|
                0 <= i < r.len() ==> sampled_objects(
                    (#[trigger] r@[i]).1@,
                    r@[i].0,
                    old(self).config(),
                ),
    {
        let pending = self.pending_regions(viewpoint);
        let ghost before = self.loaded@;
        let ghost cfg0 = self.config;
        let ghost cands = visible_regions(viewpoint, self.config.chunk_size as int);
        proof {
            lemma_fresh(cands, before);
        }
        let mut out: Vec<(RegionId, Vec<GeneratedObject>)> = Vec::new();
        let mut i: usize = 0;
        while i < pending.len()
            invariant
                i <= pending.len(),
                self.config == cfg0,
                cfg0 == old(self).config,
                self.config.wf(),
                pending@ == fresh(cands, before),
                pending@.no_duplicates(),
                forall|x: RegionId| #[trigger] pending@.contains(x) ==> !before.contains(x),
                forall|k: int|
                    0 <= k < pending.len() ==> in_reach(
                        #[trigger] pending@[k],
                        self.config.chunk_size as int,
                    ),
                before.no_duplicates(),
                self.loaded@ == before + pending@.take(i as int),
                self.loaded@.no_duplicates(),
                out.len() == i,
                forall|k: int| 0 <= k < i ==> (#[trigger] out@[k]).0 == pending@[k],
                forall|k: int, j: int|
                    0 <= k < i && 0 <= j < out@[k].1.len() ==> object_fits(
                        #[trigger] out@[k].1@[j],
                        out@[k].0,
                        self.config,
                    ),
                forall|k: int|
                    0 <= k < i ==> sampled_objects((#[trigger] out@[k]).1@, out@[k].0, self.config),
            decreases pending.len() - i,
        {
            let id = pending[i];
            let objs = self.generate_region(id, rng);
            proof {
                assert(pending@.contains(id));
                assert(!before.contains(id));
                assert(!pending@.take(i as int).contains(id)) by {
                    if pending@.take(i as int).contains(id) {
                        let j = choose|j: int| 0 <= j < i && pending@.take(i as int)[j] == id;
                        assert(pending@[j] == pending@[i as int]);
                    }
                }
                assert(!self.loaded@.contains(id));
                assert(pending@.take(i as int + 1) == pending@.take(i as int).push(id));
            }
            self.loaded.push(id);
            out.push((id, objs));
            i = i + 1;
        }
        assert(pending@.take(i as int) == pending@);
        assert(out@.map_values(|e: (RegionId, Vec<GeneratedObject>)| e.0) == pending@);
        out
    }
}

} // verus!
