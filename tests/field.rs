use asteroid_field::{
    attach_variants, generate_points, pick_best, place_from_draws, region_bounds, regions_around,
    safe_points, score, Candidate, ChunkStreamer, ConfigError, FieldConfig, GeneratedObject, Point,
    Rect, RegionId, SizeRange,
};
use rand::rngs::StdRng;
use rand::SeedableRng;

fn cand(x: i64, y: i64, size: i64) -> Candidate {
    Candidate { pos: Point { x, y }, size }
}

fn square(lo: i64, hi: i64) -> Rect {
    Rect { min_x: lo, max_x: hi, min_y: lo, max_y: hi }
}

#[test]
fn generate_five_in_small_square() {
    let mut rng = StdRng::seed_from_u64(7);
    let bounds = square(0, 100);
    let sizes = SizeRange { min: 10, max: 20 };
    let pts = generate_points(5, sizes, bounds, 10, &mut rng);
    assert_eq!(pts.len(), 6);
    for p in &pts {
        assert!(p.pos.x >= 0 && p.pos.x < 100);
        assert!(p.pos.y >= 0 && p.pos.y < 100);
        assert!(p.size >= 10 && p.size < 20);
    }
}

#[test]
fn generate_zero_steps_gives_seed_only() {
    let mut rng = StdRng::seed_from_u64(1);
    let pts = generate_points(0, SizeRange { min: 1, max: 2 }, square(-50, 50), 10, &mut rng);
    assert_eq!(pts.len(), 1);
    assert_eq!(pts[0].size, 1);
}

#[test]
fn generate_thousand_points_completes() {
    let mut rng = StdRng::seed_from_u64(3);
    let pts = generate_points(1000, SizeRange { min: 10, max: 20 }, square(0, 100), 10, &mut rng);
    assert_eq!(pts.len(), 1001);
    assert!(pts.iter().all(|p| p.pos.x >= 0 && p.pos.x < 100 && p.pos.y >= 0 && p.pos.y < 100));
}

#[test]
fn generated_points_are_drawn_not_fixed() {
    let mut rng = StdRng::seed_from_u64(11);
    let pts = generate_points(20, SizeRange { min: 10, max: 20 }, square(0, 1000), 10, &mut rng);
    assert!(pts.iter().any(|p| p.pos.x != 0 || p.pos.y != 0));
    assert!(pts.iter().any(|p| p.size != 10));
}

#[test]
fn same_seed_same_points() {
    let sizes = SizeRange { min: 103, max: 205 };
    let bounds = square(-2000, 2000);
    let mut a = StdRng::seed_from_u64(42);
    let mut b = StdRng::seed_from_u64(42);
    let pa = generate_points(100, sizes, bounds, 10, &mut a);
    let pb = generate_points(100, sizes, bounds, 10, &mut b);
    assert_eq!(pa, pb);
}

#[test]
fn same_seed_same_regions() {
    let mut a = StdRng::seed_from_u64(5);
    let mut b = StdRng::seed_from_u64(5);
    let mut sa = ChunkStreamer::new(FieldConfig::standard());
    let mut sb = ChunkStreamer::new(FieldConfig::standard());
    let ra = sa.update(Point { x: 2000, y: 2000 }, &mut a);
    let rb = sb.update(Point { x: 2000, y: 2000 }, &mut b);
    assert_eq!(ra, rb);
}

fn nearest_scores_mean(pts: &[Candidate]) -> f64 {
    let mut total = 0.0;
    for (i, p) in pts.iter().enumerate() {
        let mut best = i128::MAX;
        for (j, q) in pts.iter().enumerate() {
            if i != j {
                let dx = (p.pos.x - q.pos.x) as i128;
                let dy = (p.pos.y - q.pos.y) as i128;
                let s = (p.size + q.size) as i128;
                best = best.min(dx * dx + dy * dy - s * s);
            }
        }
        total += best as f64;
    }
    total / pts.len() as f64
}

#[test]
fn best_candidate_spreads_better_than_uniform() {
    let sizes = SizeRange { min: 10, max: 40 };
    let bounds = square(0, 1000);
    let mut rng = StdRng::seed_from_u64(2024);
    let spread = generate_points(49, sizes, bounds, 10, &mut rng);
    // Fifty uniform points: the sampler with one candidate per step keeps every draw.
    let mut rng = StdRng::seed_from_u64(99);
    let uniform = generate_points(49, sizes, bounds, 1, &mut rng);
    assert_eq!(spread.len(), uniform.len());
    assert!(nearest_scores_mean(&spread) > nearest_scores_mean(&uniform));
}

#[test]
fn score_of_single_neighbour() {
    let c = cand(3, 4, 1);
    let acc = vec![cand(0, 0, 1)];
    // 9 + 16 - (1 + 1)^2
    assert_eq!(score(&c, &acc, 1000), 21);
}

#[test]
fn score_takes_least_and_ceiling() {
    let c = cand(0, 0, 0);
    let acc = vec![cand(10, 0, 0), cand(2, 0, 1), cand(5, 5, 0)];
    assert_eq!(score(&c, &acc, 1000), 3);
    assert_eq!(score(&c, &Vec::new(), 77), 77);
    assert_eq!(score(&c, &vec![cand(100, 0, 0)], 77), 77);
}

#[test]
fn pick_best_takes_greatest_first_on_ties() {
    let acc = vec![cand(0, 0, 0)];
    let batch = vec![cand(1, 0, 0), cand(5, 0, 0), cand(0, 5, 0), cand(2, 2, 0)];
    assert_eq!(pick_best(&batch, &acc, 1000), 1);
}

#[test]
fn pick_best_without_positive_score_takes_greatest() {
    // Scores -399, -396, -400.
    let acc = vec![cand(0, 0, 10)];
    let batch = vec![cand(1, 0, 10), cand(2, 0, 10), cand(0, 0, 10)];
    assert_eq!(pick_best(&batch, &acc, 1000), 1);
}

#[test]
fn dense_batch_keeps_greatest_score() {
    let mut draws = vec![cand(0, 0, 10), cand(1, 0, 10)];
    for _ in 0..9 {
        draws.push(cand(5, 0, 10));
    }
    let r = place_from_draws(&draws, 1, 10, 10_000);
    assert_eq!(r, vec![cand(0, 0, 10), cand(5, 0, 10)]);
}

#[test]
fn region_sample_places_then_filters() {
    let cfg = FieldConfig {
        chunk_size: 4000,
        objects_per_region: 1,
        min_size: 1,
        max_size: 50,
        candidates_per_step: 2,
        safe_zone_radius: 400,
        variant_count: 1,
    };
    let s = ChunkStreamer::new(cfg);
    let draws = vec![cand(0, 0, 10), cand(100, 0, 10), cand(1500, 1500, 10)];
    let kept = s.region_sample(RegionId { x: 0, y: 0 }, &draws);
    assert_eq!(kept, vec![cand(1500, 1500, 10)]);
}

#[test]
fn origin_region_samples_its_domain() {
    let mut rng = StdRng::seed_from_u64(21);
    let mut s = ChunkStreamer::new(FieldConfig::standard());
    let out = s.update(Point { x: 0, y: 0 }, &mut rng);
    assert_eq!(out.len(), 1);
    assert!(out[0].1.len() <= 101);
    assert!(!out[0].1.is_empty());
    for o in &out[0].1 {
        assert!(o.position.x >= -2000 && o.position.x < 2000);
        assert!(o.position.y >= -2000 && o.position.y < 2000);
    }
}

#[test]
fn place_from_draws_follows_batches() {
    let draws = vec![
        cand(0, 0, 0),
        cand(1, 0, 0),
        cand(9, 0, 0),
        cand(0, 9, 0),
        cand(8, 8, 0),
    ];
    let r = place_from_draws(&draws, 2, 2, 200);
    assert_eq!(r, vec![cand(0, 0, 0), cand(9, 0, 0), cand(0, 9, 0)]);
}

#[test]
fn safe_points_drops_the_boundary() {
    let pts = vec![cand(400, 0, 5), cand(401, 0, 5), cand(0, 0, 5), cand(300, 300, 5)];
    let kept = safe_points(&pts, 400);
    assert_eq!(kept, vec![cand(401, 0, 5), cand(300, 300, 5)]);
}

#[test]
fn attach_variants_pairs_in_order() {
    let pts = vec![cand(1, 2, 3), cand(4, 5, 6)];
    let objs = attach_variants(&pts, &vec![7, 0]);
    assert_eq!(
        objs,
        vec![
            GeneratedObject { position: Point { x: 1, y: 2 }, size: 3, variant: 7 },
            GeneratedObject { position: Point { x: 4, y: 5 }, size: 6, variant: 0 },
        ]
    );
}

#[test]
fn region_bounds_reach_half_a_chunk() {
    let r = region_bounds(RegionId { x: 1, y: -1 }, 4000);
    assert_eq!(r, Rect { min_x: 2000, max_x: 6000, min_y: -6000, max_y: -2000 });
}

#[test]
fn regions_around_mid_cell() {
    let r = regions_around(Point { x: 2000, y: -2000 }, 4000);
    assert_eq!(
        r,
        vec![
            RegionId { x: 0, y: -1 },
            RegionId { x: 0, y: 0 },
            RegionId { x: 1, y: -1 },
            RegionId { x: 1, y: 0 },
        ]
    );
}

#[test]
fn regions_around_origin_collapse() {
    let r = regions_around(Point { x: 0, y: 0 }, 4000);
    assert!(r.iter().all(|id| *id == RegionId { x: 0, y: 0 }));
    assert_eq!(r.len(), 4);
}

#[test]
fn origin_loads_one_region() {
    let mut rng = StdRng::seed_from_u64(8);
    let mut s = ChunkStreamer::new(FieldConfig::standard());
    let out = s.update(Point { x: 0, y: 0 }, &mut rng);
    assert_eq!(out.len(), 1);
    assert_eq!(out[0].0, RegionId { x: 0, y: 0 });
    assert_eq!(s.loaded_regions(), vec![RegionId { x: 0, y: 0 }]);
    assert!(s.is_loaded(RegionId { x: 0, y: 0 }));
    assert!(!s.is_loaded(RegionId { x: 1, y: 0 }));
}

#[test]
fn grid_line_loads_two_regions() {
    let mut rng = StdRng::seed_from_u64(8);
    let mut s = ChunkStreamer::new(FieldConfig::standard());
    let out = s.update(Point { x: 4000, y: 2000 }, &mut rng);
    let ids: Vec<RegionId> = out.iter().map(|e| e.0).collect();
    assert_eq!(ids, vec![RegionId { x: 1, y: 0 }, RegionId { x: 1, y: 1 }]);
}

#[test]
fn stationary_viewpoint_loads_once() {
    let mut rng = StdRng::seed_from_u64(9);
    let mut s = ChunkStreamer::new(FieldConfig::standard());
    let first = s.update(Point { x: 2000, y: 2000 }, &mut rng);
    assert_eq!(first.len(), 4);
    let second = s.update(Point { x: 2000, y: 2000 }, &mut rng);
    assert!(second.is_empty());
    let third = s.update(Point { x: 2000, y: 2000 }, &mut rng);
    assert!(third.is_empty());
    assert_eq!(s.loaded_regions().len(), 4);
}

#[test]
fn moving_viewpoint_loads_only_new_regions() {
    let mut rng = StdRng::seed_from_u64(10);
    let mut s = ChunkStreamer::new(FieldConfig::standard());
    s.update(Point { x: 2000, y: 2000 }, &mut rng);
    let out = s.update(Point { x: 6000, y: 2000 }, &mut rng);
    let ids: Vec<RegionId> = out.iter().map(|e| e.0).collect();
    assert_eq!(ids, vec![RegionId { x: 2, y: 0 }, RegionId { x: 2, y: 1 }]);
    assert_eq!(s.loaded_regions().len(), 6);
}

#[test]
fn objects_respect_safe_zone_and_region() {
    let mut rng = StdRng::seed_from_u64(12);
    let cfg = FieldConfig::standard();
    let mut s = ChunkStreamer::new(cfg);
    let out = s.update(Point { x: 100, y: -100 }, &mut rng);
    assert_eq!(out.len(), 4);
    for (id, objs) in &out {
        assert!(objs.len() <= 101);
        let b = region_bounds(*id, cfg.chunk_size);
        for o in objs {
            let (x, y) = (o.position.x as i128, o.position.y as i128);
            assert!(x * x + y * y > 400 * 400);
            assert!(o.position.x >= b.min_x && o.position.x < b.max_x);
            assert!(o.position.y >= b.min_y && o.position.y < b.max_y);
            assert!(o.size >= 103 && o.size < 205);
            assert!(o.variant < 40);
        }
    }
}

#[test]
fn far_region_keeps_every_point() {
    let mut rng = StdRng::seed_from_u64(13);
    let s = ChunkStreamer::new(FieldConfig::standard());
    let objs = s.generate_region(RegionId { x: 5, y: 5 }, &mut rng);
    assert_eq!(objs.len(), 101);
}

#[test]
fn standard_config_values() {
    let c = FieldConfig::standard();
    assert_eq!(c.chunk_size, 4000);
    assert_eq!(c.objects_per_region, 100);
    assert_eq!((c.min_size, c.max_size), (103, 205));
    assert_eq!(c.candidates_per_step, 10);
    assert_eq!(c.safe_zone_radius, 400);
    assert_eq!(c.variant_count, 40);
    assert_eq!(c.validate(), Ok(c));
}

#[test]
fn validate_reports_each_error() {
    let base = FieldConfig::standard();
    let c = FieldConfig { min_size: 205, max_size: 205, ..base };
    assert_eq!(c.validate(), Err(ConfigError::EmptySizeRange));
    let c = FieldConfig { chunk_size: 0, ..base };
    assert_eq!(c.validate(), Err(ConfigError::NonPositiveChunkSize));
    let c = FieldConfig { candidates_per_step: 0, ..base };
    assert_eq!(c.validate(), Err(ConfigError::NoCandidates));
    let c = FieldConfig { variant_count: 0, ..base };
    assert_eq!(c.validate(), Err(ConfigError::NoVariants));
    let c = FieldConfig { safe_zone_radius: -1, ..base };
    assert_eq!(c.validate(), Err(ConfigError::OutOfRange));
    let c = FieldConfig { objects_per_region: usize::MAX, ..base };
    assert_eq!(c.validate(), Err(ConfigError::OutOfRange));
    let c = FieldConfig { min_size: 300, chunk_size: -5, ..base };
    assert_eq!(c.validate(), Err(ConfigError::EmptySizeRange));
}
