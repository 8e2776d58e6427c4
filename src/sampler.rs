use crate::geometry::{
    pair_score, pair_score_exec, score_in_range, Candidate, Rect, SizeRange,
};
use crate::random::draw_between;
use rand::rngs::StdRng;
use vstd::prelude::*;

verus! {

/// The score of `c` against the accepted set: the least size-adjusted squared
/// distance to an accepted point, or `ceiling` when none is nearer.
pub open spec fn min_score(c: Candidate, accepted: Seq<Candidate>, ceiling: int) -> int
    decreases accepted.len(),
{
    if accepted.len() == 0 {
        ceiling
    } else {
        let m = min_score(c, accepted.drop_last(), ceiling);
        let s = pair_score(c, accepted.last());
        if s < m {
            s
        } else {
            m
        }
    }
}

/// The scores of a batch of candidates against the accepted set.
pub open spec fn scores_of(batch: Seq<Candidate>, accepted: Seq<Candidate>, ceiling: int) -> Seq<
    int,
> {
    batch.map_values(|c: Candidate| min_score(c, accepted, ceiling))
}

/// The index of the first greatest score, with that score. Scanning in
/// order, a later score replaces the best only when strictly greater.
pub open spec fn best_choice(scores: Seq<int>) -> (int, int)
    decreases scores.len(),
{
    if scores.len() <= 1 {
        (0, scores[0])
    } else {
        let b = best_choice(scores.drop_last());
        if scores.last() > b.1 {
            (scores.len() - 1, scores.last())
        } else {
            b
        }
    }
}

/// The batch of candidates drawn for step `s`, `k` to a step, after the seed.
pub open spec fn batch_of(draws: Seq<Candidate>, s: int, k: int) -> Seq<Candidate> {
    draws.subrange(1 + s * k, 1 + s * k + k)
}

/// The accepted set after `steps` steps: the first draw, then at each step the
/// best of that step's batch against what was accepted before it.
pub open spec fn placement(draws: Seq<Candidate>, steps: nat, k: int, ceiling: int) -> Seq<
    Candidate,
>
    decreases steps,
{
    if steps == 0 {
        seq![draws[0]]
    } else {
        let prev = placement(draws, (steps - 1) as nat, k, ceiling);
        let batch = batch_of(draws, steps - 1, k);
        prev.push(batch[best_choice(scores_of(batch, prev, ceiling)).0])
    }
}

/// Every candidate lies in `bounds` with a size in `sizes`.
pub open spec fn all_within(s: Seq<Candidate>, bounds: Rect, sizes: SizeRange) -> bool {
    forall|i: int|
        0 <= i < s.len() ==> bounds.contains(#[trigger] s[i].pos) && sizes.contains(s[i].size)
}

pub open spec fn all_bounded(s: Seq<Candidate>) -> bool {
    forall|i: int| 0 <= i < s.len() ==> #[trigger] s[i].bounded()
}

proof fn lemma_best_choice_index(scores: Seq<int>)
    requires
        scores.len() > 0,
    ensures
        0 <= best_choice(scores).0 < scores.len(),
        best_choice(scores).1 == scores[best_choice(scores).0],
    decreases scores.len(),
{
    if scores.len() > 1 {
        lemma_best_choice_index(scores.drop_last());
    }
}

/// The choice among scores, stated directly: the first index that holds the
/// greatest score.
pub proof fn lemma_best_choice_is_first_max(scores: Seq<int>)
    requires
        scores.len() > 0,
    ensures
        ({
            let (i, v) = best_choice(scores);
            &&& 0 <= i < scores.len()
            &&& scores[i] == v
            &&& forall|j: int| 0 <= j < scores.len() ==> scores[j] <= v
            &&& forall|j: int| 0 <= j < i ==> scores[j] < v
        }),
    decreases scores.len(),
{
    if scores.len() > 1 {
        let rest = scores.drop_last();
        let last = scores.last();
        lemma_best_choice_is_first_max(rest);
        let b = best_choice(rest);
        assert(rest[b.0] == scores[b.0]);
        assert forall|j: int| 0 <= j < scores.len() implies scores[j] <= if last > b.1 {
            last
        } else {
            b.1
        } by {
            if j < rest.len() {
                assert(rest[j] == scores[j]);
            }
        }
        if last > b.1 {
            assert forall|j: int| 0 <= j < scores.len() - 1 implies scores[j] < last by {
                assert(rest[j] == scores[j]);
            }
        } else {
            assert forall|j: int| 0 <= j < b.0 implies scores[j] < b.1 by {
                assert(rest[j] == scores[j]);
            }
        }
    }
}

/// The score of candidate `c` against the accepted points.
pub fn score(c: &Candidate, accepted: &Vec<Candidate>, ceiling: i128) -> (r: i128)
    requires
        c.bounded(),
        all_bounded(accepted@),
        score_in_range(ceiling as int),
    ensures
        r == min_score(*c, accepted@, ceiling as int),
        score_in_range(r as int),
{
    let mut least: i128 = ceiling;
    let mut i: usize = 0;
    while i < accepted.len()
        invariant
            i <= accepted.len(),
            c.bounded(),
            all_bounded(accepted@),
            score_in_range(ceiling as int),
            least == min_score(*c, accepted@.take(i as int), ceiling as int),
            score_in_range(least as int),
        decreases accepted.len() - i,
    {
        let d = pair_score_exec(c, &accepted[i]);
        assert(accepted@.take(i as int + 1).drop_last() == accepted@.take(i as int));
        if d < least {
            least = d;
        }
        i = i + 1;
    }
    assert(accepted@.take(i as int) == accepted@);
    least
}

/// The index of the candidate of `batch` that lies farthest, in size-adjusted
/// terms, from the accepted points: the first that holds the greatest score.
pub fn pick_best(batch: &Vec<Candidate>, accepted: &Vec<Candidate>, ceiling: i128) -> (r: usize)
    requires
        batch.len() > 0,
        all_bounded(batch@),
        all_bounded(accepted@),
        score_in_range(ceiling as int),
    ensures
        r == best_choice(scores_of(batch@, accepted@, ceiling as int)).0,
        r < batch.len(),
{
    let ghost scores = scores_of(batch@, accepted@, ceiling as int);
    let mut best: usize = 0;
    let mut best_score: i128 = score(&batch[0], accepted, ceiling);
    assert(scores.take(1) == seq![scores[0]]);
    let mut i: usize = 1;
    while i < batch.len()
        invariant
            1 <= i <= batch.len(),
            all_bounded(batch@),
            all_bounded(accepted@),
            score_in_range(ceiling as int),
            scores == scores_of(batch@, accepted@, ceiling as int),
            (best as int, best_score as int) == best_choice(scores.take(i as int)),
        decreases batch.len() - i,
    {
        let s = score(&batch[i], accepted, ceiling);
        assert(scores.take(i as int + 1).drop_last() == scores.take(i as int));
        if s > best_score {
            best = i;
            best_score = s;
        }
        i = i + 1;
    }
    assert(scores.take(i as int) == scores);
    proof {
        lemma_best_choice_index(scores);
    }
    best
}

pub(crate) proof fn lemma_placement_within(
    draws: Seq<Candidate>,
    steps: nat,
    k: int,
    ceiling: int,
    bounds: Rect,
    sizes: SizeRange,
)
    requires
        k > 0,
        draws.len() >= 1 + steps * k,
        all_within(draws, bounds, sizes),
    ensures
        placement(draws, steps, k, ceiling).len() == steps + 1,
        all_within(placement(draws, steps, k, ceiling), bounds, sizes),
    decreases steps,
{
    if steps > 0 {
        let s = steps - 1;
        assert(1 + s * k + k == 1 + steps * k) by (nonlinear_arith)
            requires
                s == steps - 1,
        ;
        assert(0 <= s * k) by (nonlinear_arith)
            requires
                s >= 0,
                k > 0,
        ;
        lemma_placement_within(draws, s as nat, k, ceiling, bounds, sizes);
        let prev = placement(draws, s as nat, k, ceiling);
        let batch = batch_of(draws, s, k);
        let scores = scores_of(batch, prev, ceiling);
        lemma_best_choice_index(scores);
        let b = best_choice(scores).0;
        assert(batch[b] == draws[1 + s * k + b]);
        let p = placement(draws, steps, k, ceiling);
        assert forall|i: int| 0 <= i < p.len() implies bounds.contains(#[trigger] p[i].pos)
            && sizes.contains(p[i].size) by {
            if i < prev.len() {
                assert(p[i] == prev[i]);
            }
        }
    }
}

/// The accepted set for the given draws: the first draw is accepted as it is;
/// then, for each of `count` steps, the next `per_step` draws form a batch and
/// its best candidate against the points accepted so far is accepted.
pub fn place_from_draws(draws: &Vec<Candidate>, count: usize, per_step: usize, ceiling: i128) -> (r:
    Vec<Candidate>)
    requires
        per_step > 0,
        draws.len() == 1 + count * per_step,
        all_bounded(draws@),
        score_in_range(ceiling as int),
    ensures
        r@ == placement(draws@, count as nat, per_step as int, ceiling as int),
        r.len() == count + 1,
{
    let k = per_step;
    let mut points: Vec<Candidate> = Vec::new();
    points.push(draws[0]);
    let mut s: usize = 0;
    while s < count
        invariant
            s <= count,
            k == per_step,
            k > 0,
            draws.len() == 1 + count * k,
            all_bounded(draws@),
            score_in_range(ceiling as int),
            points@ == placement(draws@, s as nat, k as int, ceiling as int),
            points.len() == s + 1,
            all_bounded(points@),
        decreases count - s,
    {
        assert(s * k + k <= count * k) by (nonlinear_arith)
            requires
                s < count,
                k > 0,
        ;
        assert(0 <= s * k) by (nonlinear_arith)
            requires
                k > 0,
        ;
        let start: usize = 1 + s * k;
        let mut batch: Vec<Candidate> = Vec::new();
        let mut j: usize = 0;
        while j < k
            invariant
                j <= k,
                start + k <= draws.len(),
                batch@ == draws@.subrange(start as int, start + j),
                all_bounded(draws@),
            decreases k - j,
        {
            batch.push(draws[start + j]);
            j = j + 1;
        }
        assert(batch@ == batch_of(draws@, s as int, k as int));
        assert(all_bounded(batch@)) by {
            assert forall|i: int| 0 <= i < batch.len() implies #[trigger] batch@[i].bounded() by {
                assert(batch@[i] == draws@[start + i]);
            }
        }
        let b = pick_best(&batch, &points, ceiling);
        let chosen = batch[b];
        points.push(chosen);
        assert((s + 1) as nat - 1 == s as nat);
        s = s + 1;
    }
    points
}

/// One uniformly drawn candidate: x, then y, then size.
fn draw_candidate(rng: &mut StdRng, bounds: &Rect, sizes: &SizeRange) -> (r: Candidate)
    requires
        bounds.wf(),
        sizes.wf(),
    ensures
        bounds.contains(r.pos),
        sizes.contains(r.size),
        r.bounded(),
{
    let x = draw_between(rng, bounds.min_x, bounds.max_x);
    let y = draw_between(rng, bounds.min_y, bounds.max_y);
    let size = draw_between(rng, sizes.min, sizes.max);
    Candidate { pos: crate::geometry::Point { x, y }, size }
}

/// `total` candidates drawn one after another, each uniformly in `bounds`
/// with a size in `sizes`.
pub(crate) fn draw_candidates(
    total: usize,
    sizes: SizeRange,
    bounds: Rect,
    rng: &mut StdRng,
) -> (r: Vec<Candidate>)
    requires
        sizes.wf(),
        bounds.wf(),
    ensures
        r.len() == total,
        all_within(r@, bounds, sizes),
        all_bounded(r@),
{
    let mut draws: Vec<Candidate> = Vec::new();
    let mut i: usize = 0;
    while i < total
        invariant
            i <= total,
            draws.len() == i,
            bounds.wf(),
            sizes.wf(),
            all_within(draws@, bounds, sizes),
            all_bounded(draws@),
        decreases total - i,
    {
        let c = draw_candidate(rng, &bounds, &sizes);
        draws.push(c);
        i = i + 1;
    }
    draws
}

/// Best-candidate sampling over `bounds`: one random seed point, then `count`
/// steps that each draw `per_step` random candidates and keep the one with the
/// greatest size-adjusted distance to the points kept so far. Returns
/// `count + 1` points, every one inside `bounds` with a size in `sizes`.
/// What is kept for given draws is stated exactly by `place_from_draws`.
pub fn generate_points(
    count: usize,
    sizes: SizeRange,
    bounds: Rect,
    per_step: usize,
    rng: &mut StdRng,
) -> (r: Vec<Candidate>)
    requires
        sizes.wf(),
        bounds.wf(),
        per_step > 0,
        count * per_step < usize::MAX,
    ensures
        r.len() == count + 1,
        all_within(r@, bounds, sizes),
{
    let draws = draw_candidates(1 + count * per_step, sizes, bounds, rng);
    let ceiling = bounds.diagonal_squared();
    let r = place_from_draws(&draws, count, per_step, ceiling);
    proof {
        lemma_placement_within(draws@, count as nat, per_step as int, ceiling as int, bounds, sizes);
    }
    r
}

} // verus!
