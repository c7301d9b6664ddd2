//! The world of one generation: what a creature perceives, how it moves,
//! feeds and hunts in one tick, and how a batch of ticks runs.

use vstd::prelude::*;
use crate::creature::{Creature, Diet, LivingCreature};
use crate::fixed::{abs, clamp, lemma_div_bounds, lemma_square_monotonic, UNIT};
use crate::food::Food;
use crate::opts::{Opts, KNOB_MAX, POPULATION_MAX};
use crate::selection::population_wf;
use crate::vector::{
    dist_sq, lemma_component_le_magnitude, lemma_dist_sq_symmetric, lemma_offset_bounds,
    lemma_with_magnitude_bound, lemma_wrap, world_wf, wrap, wrap_coordinate, Point2, Vector2,
};
use rand::rngs::SmallRng;

verus! {

/// A herbivore sees food that lies closer than its field of view reaches
/// and this much more: five.
pub const FOOD_REACH: i64 = 5_000_000;

/// What a creature has seen of a target: the vector that leads to it, the
/// square of its distance, and its place in its list.
pub type Sighting = (Vector2, u128, usize);

/// The candidate at `j` is the nearest of the first `n` candidates: it is a
/// candidate, no candidate among them is nearer, and of those as near none
/// comes before it. `keys[k]` holds the squared distance of the candidate at
/// `k`, and nothing where there is no candidate.
pub open spec fn is_nearest_of_first(keys: Seq<Option<int>>, n: int, j: int) -> bool {
    &&& 0 <= j < n <= keys.len()
    &&& keys[j] is Some
    &&& forall|k: int|
        0 <= k < n && (#[trigger] keys[k]) is Some ==> keys[j].unwrap() < keys[k].unwrap() || (
        keys[j].unwrap() == keys[k].unwrap() && j <= k)
}

/// The candidate at `j` is the nearest of all; see [`is_nearest_of_first`].
pub open spec fn is_nearest(keys: Seq<Option<int>>, j: int) -> bool {
    is_nearest_of_first(keys, keys.len() as int, j)
}

/// The place of the nearest candidate, if there is any candidate. Of two
/// candidates at the same distance, the one that comes first is the nearest.
pub open spec fn nearest(keys: Seq<Option<int>>) -> Option<int> {
    if exists|j: int| is_nearest(keys, j) {
        Some(choose|j: int| is_nearest(keys, j))
    } else {
        None
    }
}

/// Only one candidate is the nearest.
pub proof fn lemma_nearest_unique(keys: Seq<Option<int>>, a: int, b: int)
    requires
        is_nearest(keys, a),
        is_nearest(keys, b),
    ensures
        a == b,
{
}

/// The candidate that is the nearest is what `nearest` gives.
pub proof fn lemma_nearest_is(keys: Seq<Option<int>>, j: int)
    requires
        is_nearest(keys, j),
    ensures
        nearest(keys) == Some(j),
{
    let c = choose|j: int| is_nearest(keys, j);
    lemma_nearest_unique(keys, c, j);
}

/// Where there is no candidate, `nearest` gives nothing.
pub proof fn lemma_nearest_none(keys: Seq<Option<int>>)
    requires
        forall|k: int| 0 <= k < keys.len() ==> (#[trigger] keys[k]) is None,
    ensures
        nearest(keys) is None,
{
}

/// What `nearest` gives is the nearest candidate, and it gives nothing only
/// where there is no candidate.
pub proof fn lemma_nearest_sound(keys: Seq<Option<int>>)
    ensures
        nearest(keys) matches Some(j) ==> is_nearest(keys, j),
        nearest(keys) is None ==> forall|k: int|
            0 <= k < keys.len() ==> (#[trigger] keys[k]) is None,
{
    if nearest(keys) is None {
        let n = keys.len() as int;
        lemma_nearest_exists(keys, n);
        if exists|j: int| is_nearest_of_first(keys, n, j) {
            let j = choose|j: int| is_nearest_of_first(keys, n, j);
            assert(is_nearest(keys, j));
        }
    }
}

/// Among the first `n` candidates there is a nearest, unless there is none
/// at all.
pub proof fn lemma_nearest_exists(keys: Seq<Option<int>>, n: int)
    requires
        0 <= n <= keys.len(),
    ensures
        (exists|j: int| is_nearest_of_first(keys, n, j)) || (forall|k: int|
            0 <= k < n ==> (#[trigger] keys[k]) is None),
    decreases n,
{
    if n > 0 {
        let m = n - 1;
        lemma_nearest_exists(keys, m);
        if keys[m] is Some {
            if exists|j: int| is_nearest_of_first(keys, m, j) {
                let j = choose|j: int| is_nearest_of_first(keys, m, j);
                if keys[m].unwrap() < keys[j].unwrap() {
                    assert(is_nearest_of_first(keys, n, m));
                } else {
                    assert(is_nearest_of_first(keys, n, j));
                }
            } else {
                assert(is_nearest_of_first(keys, n, m));
            }
        } else {
            if exists|j: int| is_nearest_of_first(keys, m, j) {
                let j = choose|j: int| is_nearest_of_first(keys, m, j);
                assert(is_nearest_of_first(keys, n, j));
            }
        }
    }
}

/// What is kept of two sightings: the later one if it is nearer, else the
/// earlier one.
pub open spec fn spec_food_prey_folder(acc: Option<Sighting>, current: Sighting) -> Option<
    Sighting,
> {
    match acc {
        Some(a) => if current.1 < a.1 {
            Some(current)
        } else {
            Some(a)
        },
        None => Some(current),
    }
}

/// Keeps the nearer of two sightings, and the earlier one of two at the same
/// distance.
pub fn food_prey_folder(acc: Option<Sighting>, current: Sighting) -> (r: Option<Sighting>)
    ensures
        r == spec_food_prey_folder(acc, current),
{
    let (v, m, i) = current;
    match acc {
        Some((av, am, ai)) => {
            if m < am {
                Some((v, m, i))
            } else {
                Some((av, am, ai))
            }
        },
        None => Some((v, m, i)),
    }
}

/// The sighting `best` is what a scan of the first `n` candidates has found:
/// the nearest of them, seen from `from`, where `at` gives the position of
/// each candidate.
pub open spec fn is_best_of_first(
    keys: Seq<Option<int>>,
    at: Seq<Point2>,
    from: Point2,
    n: int,
    best: Option<Sighting>,
) -> bool {
    match best {
        Some(s) => {
            &&& is_nearest_of_first(keys, n, s.2 as int)
            &&& keys[s.2 as int] == Some(s.1 as int)
            &&& s.0 == from.spec_offset_to(at[s.2 as int])
        },
        None => forall|k: int| 0 <= k < n ==> (#[trigger] keys[k]) is None,
    }
}

/// Whether a herbivore at `cur` sees the food `f`: it is not eaten, and lies
/// closer than the creature's field of view reaches and five more.
pub open spec fn food_in_sight(f: Food, cur: LivingCreature, opts: Opts) -> bool {
    !f.eaten && cur.position.spec_within(f.position, cur.creature.spec_fov(opts) + FOOD_REACH)
}

/// The squared distance of each piece of food that `cur` sees.
pub open spec fn food_keys(fs: Seq<Food>, cur: LivingCreature, opts: Opts) -> Seq<Option<int>> {
    Seq::new(
        fs.len(),
        |k: int|
            if food_in_sight(fs[k], cur, opts) {
                Some(dist_sq(cur.position, fs[k].position))
            } else {
                None
            },
    )
}

/// The positions of the food.
pub open spec fn food_positions(fs: Seq<Food>) -> Seq<Point2> {
    Seq::new(fs.len(), |k: int| fs[k].position)
}

/// Whether the carnivore `cur` sees `c` as prey: `c` is not eaten, `cur` may
/// eat it, and it lies closer than the field of view of `cur` and its own
/// body reach together.
pub open spec fn prey_in_sight(c: LivingCreature, cur: LivingCreature, opts: Opts) -> bool {
    &&& !c.eaten
    &&& cur.creature.spec_can_prey_on(c.creature)
    &&& cur.position.spec_within(
        c.position,
        cur.creature.spec_fov(opts) + c.creature.spec_size(opts),
    )
}

/// The squared distance of each creature that the creature at `i` sees as
/// prey. A creature is no prey of itself.
pub open spec fn prey_keys(cs: Seq<LivingCreature>, i: int, opts: Opts) -> Seq<Option<int>> {
    Seq::new(
        cs.len(),
        |k: int|
            if k != i && prey_in_sight(cs[k], cs[i], opts) {
                Some(dist_sq(cs[i].position, cs[k].position))
            } else {
                None
            },
    )
}

/// The positions of the creatures.
pub open spec fn creature_positions(cs: Seq<LivingCreature>) -> Seq<Point2> {
    Seq::new(cs.len(), |k: int| cs[k].position)
}

/// Every creature of the list is well formed.
pub open spec fn creatures_wf(cs: Seq<LivingCreature>, opts: Opts) -> bool {
    forall|k: int| 0 <= k < cs.len() ==> (#[trigger] cs[k]).wf(opts)
}

/// Every piece of food of the list is well formed.
pub open spec fn food_wf(fs: Seq<Food>) -> bool {
    forall|k: int| 0 <= k < fs.len() ==> (#[trigger] fs[k]).wf()
}

/// Whether the squared distance `d` is that of a point closer than `radius`.
fn closer_than(d: u128, radius: i64) -> (r: bool)
    ensures
        r == (0 < radius && (d as int) < radius * radius),
{
    if radius <= 0 {
        return false;
    }
    proof {
        lemma_square_monotonic(radius as int, i64::MAX as int);
    }
    d < (radius as u128) * (radius as u128)
}

/// Finds the nearest piece of food that `current` sees. Of two pieces at
/// the same distance it finds the one that comes first in the list.
pub fn find_food(food: &Vec<Food>, current: &LivingCreature, opts: &Opts) -> (r: Option<Sighting>)
    requires
        opts.wf(),
        current.wf(*opts),
        food_wf(food@),
    ensures
        is_best_of_first(
            food_keys(food@, *current, *opts),
            food_positions(food@),
            current.position,
            food@.len() as int,
            r,
        ),
        r matches Some(s) ==> nearest(food_keys(food@, *current, *opts)) == Some(s.2 as int),
        r is None ==> nearest(food_keys(food@, *current, *opts)) is None,
{
    let ghost keys = food_keys(food@, *current, *opts);
    let ghost at = food_positions(food@);
    let radius: i64 = current.creature.fov(opts) + FOOD_REACH;
    let mut best: Option<Sighting> = None;
    let mut k: usize = 0;
    while k < food.len()
        invariant
            k <= food.len(),
            opts.wf(),
            current.wf(*opts),
            food_wf(food@),
            keys == food_keys(food@, *current, *opts),
            at == food_positions(food@),
            radius == current.creature.spec_fov(*opts) + FOOD_REACH,
            is_best_of_first(keys, at, current.position, k as int, best),
        decreases food.len() - k,
    {
        let f = food[k];
        assert(food@[k as int].wf());
        if !f.eaten {
            let v = current.position.offset_to(&f.position);
            let d = v.norm_squared();
            if closer_than(d, radius) {
                assert(keys[k as int] == Some(d as int));
                best = food_prey_folder(best, (v, d, k));
            }
        }
        k += 1;
    }
    proof {
        match best {
            Some(s) => {
                lemma_nearest_is(keys, s.2 as int);
            },
            None => {
                lemma_nearest_none(keys);
            },
        }
    }
    best
}

/// Finds the nearest creature that the creature at `i` sees as prey. Of two
/// at the same distance it finds the one that comes first in the list.
pub fn find_prey(creatures: &Vec<LivingCreature>, i: usize, opts: &Opts) -> (r: Option<Sighting>)
    requires
        opts.wf(),
        i < creatures@.len(),
        creatures_wf(creatures@, *opts),
    ensures
        is_best_of_first(
            prey_keys(creatures@, i as int, *opts),
            creature_positions(creatures@),
            creatures@[i as int].position,
            creatures@.len() as int,
            r,
        ),
        r matches Some(s) ==> s.2 != i && nearest(prey_keys(creatures@, i as int, *opts)) == Some(
            s.2 as int,
        ),
        r is None ==> nearest(prey_keys(creatures@, i as int, *opts)) is None,
{
    let ghost keys = prey_keys(creatures@, i as int, *opts);
    let ghost at = creature_positions(creatures@);
    let current = creatures[i];
    assert(creatures@[i as int].wf(*opts));
    let fov: i64 = current.creature.fov(opts);
    let mut best: Option<Sighting> = None;
    let mut k: usize = 0;
    while k < creatures.len()
        invariant
            k <= creatures.len(),
            i < creatures@.len(),
            opts.wf(),
            current == creatures@[i as int],
            creatures_wf(creatures@, *opts),
            keys == prey_keys(creatures@, i as int, *opts),
            at == creature_positions(creatures@),
            fov == current.creature.spec_fov(*opts),
            0 <= fov <= 3 * KNOB_MAX,
            is_best_of_first(keys, at, current.position, k as int, best),
        decreases creatures.len() - k,
    {
        let c = creatures[k];
        assert(creatures@[k as int].wf(*opts));
        if k != i && !c.eaten && current.creature.can_prey_on(&c.creature) {
            let v = current.position.offset_to(&c.position);
            let d = v.norm_squared();
            if closer_than(d, fov + c.creature.size(opts)) {
                assert(keys[k as int] == Some(d as int));
                best = food_prey_folder(best, (v, d, k));
            }
        }
        k += 1;
    }
    proof {
        match best {
            Some(s) => {
                lemma_nearest_is(keys, s.2 as int);
            },
            None => {
                lemma_nearest_none(keys);
            },
        }
    }
    best
}

/// The length of the step by which a creature flees from a single predator.
pub const FLEE_SINGLE: i64 = 150_000;

/// The longest step by which a creature flees from several predators.
pub const FLEE_CAP: i64 = 250_000;

/// The weight of the nearest of several predators; the farthest weighs one
/// less.
pub const FLEE_WEIGHT_MAX: i64 = 1_250_000;

/// What a creature has seen of a predator: the vector that leads from the
/// predator to the creature, and the distance between them.
pub type Threat = (Vector2, i64);

/// Whether `p` threatens `cur`: `p` is alive, may eat `cur`, and `cur` lies
/// closer to it than its field of view and the body of `cur` reach together.
pub open spec fn threatens(p: LivingCreature, cur: LivingCreature, opts: Opts) -> bool {
    &&& !p.spec_is_dead()
    &&& p.creature.spec_can_prey_on(cur.creature)
    &&& cur.position.spec_within(
        p.position,
        p.creature.spec_fov(opts) + cur.creature.spec_size(opts),
    )
}

/// What `cur` sees of the predator `p`.
pub open spec fn threat_of(p: LivingCreature, cur: LivingCreature) -> Threat {
    let away = p.position.spec_offset_to(cur.position);
    (away, away.spec_magnitude() as i64)
}

/// The threats to the creature at `i` among the first `n` creatures, in the
/// order of the list. A creature is no threat to itself.
pub open spec fn threats_among_first(cs: Seq<LivingCreature>, i: int, opts: Opts, n: int) -> Seq<
    Threat,
>
    decreases n,
{
    if n <= 0 {
        Seq::empty()
    } else {
        let rest = threats_among_first(cs, i, opts, n - 1);
        if n - 1 != i && threatens(cs[n - 1], cs[i], opts) {
            rest.push(threat_of(cs[n - 1], cs[i]))
        } else {
            rest
        }
    }
}

/// All threats to the creature at `i`.
pub open spec fn threats(cs: Seq<LivingCreature>, i: int, opts: Opts) -> Seq<Threat> {
    threats_among_first(cs, i, opts, cs.len() as int)
}

/// There are no more threats than creatures.
pub proof fn lemma_threats_len(cs: Seq<LivingCreature>, i: int, opts: Opts, n: int)
    requires
        0 <= n,
    ensures
        threats_among_first(cs, i, opts, n).len() <= n,
    decreases n,
{
    if n > 0 {
        lemma_threats_len(cs, i, opts, n - 1);
    }
}

/// Finds every predator that threatens the creature at `i`.
pub fn find_predators(creatures: &Vec<LivingCreature>, i: usize, opts: &Opts) -> (r: Vec<Threat>)
    requires
        opts.wf(),
        i < creatures@.len(),
        creatures_wf(creatures@, *opts),
    ensures
        r@ == threats(creatures@, i as int, *opts),
        r@.len() <= creatures@.len(),
{
    let current = creatures[i];
    assert(creatures@[i as int].wf(*opts));
    let size: i64 = current.creature.size(opts);
    let mut found: Vec<Threat> = Vec::new();
    let mut k: usize = 0;
    while k < creatures.len()
        invariant
            k <= creatures.len(),
            i < creatures@.len(),
            opts.wf(),
            current == creatures@[i as int],
            creatures_wf(creatures@, *opts),
            size == current.creature.spec_size(*opts),
            0 <= size <= 3 * KNOB_MAX,
            found@ == threats_among_first(creatures@, i as int, *opts, k as int),
        decreases creatures.len() - k,
    {
        let p = creatures[k];
        assert(creatures@[k as int].wf(*opts));
        if k != i && !p.is_dead() && p.creature.can_prey_on(&current.creature) {
            let v = p.position.offset_to(&current.position);
            let d = v.norm_squared();
            proof {
                lemma_dist_sq_symmetric(p.position, current.position);
                lemma_offset_bounds(p.position, current.position);
            }
            if closer_than(d, p.creature.fov(opts) + size) {
                let m = v.magnitude();
                found.push((v, m as i64));
            }
        }
        k += 1;
    }
    proof {
        lemma_threats_len(creatures@, i as int, *opts, creatures@.len() as int);
    }
    found
}

/// The least distance among the first `n` threats.
pub open spec fn min_distance(ts: Seq<Threat>, n: int) -> int
    decreases n,
{
    if n <= 1 {
        ts[0].1 as int
    } else {
        let rest = min_distance(ts, n - 1);
        if ts[n - 1].1 < rest {
            ts[n - 1].1 as int
        } else {
            rest
        }
    }
}

/// The greatest distance among the first `n` threats.
pub open spec fn max_distance(ts: Seq<Threat>, n: int) -> int
    decreases n,
{
    if n <= 1 {
        ts[0].1 as int
    } else {
        let rest = max_distance(ts, n - 1);
        if ts[n - 1].1 > rest {
            ts[n - 1].1 as int
        } else {
            rest
        }
    }
}

/// Every distance lies between the least and the greatest.
pub proof fn lemma_distance_range(ts: Seq<Threat>, n: int, k: int)
    requires
        0 <= k < n <= ts.len(),
    ensures
        min_distance(ts, n) <= ts[k].1 <= max_distance(ts, n),
    decreases n,
{
    if n > 1 && k < n - 1 {
        lemma_distance_range(ts, n - 1, k);
    }
}

/// The weight of a predator at the distance `d`, where the nearest is at
/// `lo` and the farthest at `hi`: one and a quarter, less the share of the
/// way from the nearest to the farthest at which it stands. Where all are
/// equally far, each weighs one and a quarter.
pub open spec fn flee_weight(d: int, lo: int, hi: int) -> int {
    if hi == lo {
        FLEE_WEIGHT_MAX as int
    } else {
        FLEE_WEIGHT_MAX - ((d - lo) * UNIT) / (hi - lo)
    }
}

/// A weight lies between a quarter and one and a quarter.
pub proof fn lemma_flee_weight_range(d: int, lo: int, hi: int)
    requires
        lo <= d <= hi,
    ensures
        FLEE_WEIGHT_MAX - UNIT <= flee_weight(d, lo, hi) <= FLEE_WEIGHT_MAX,
{
    if hi != lo {
        let w = hi - lo;
        assert(0 <= (d - lo) * UNIT <= w * UNIT) by (nonlinear_arith)
            requires
                0 <= d - lo <= w,
        ;
        lemma_div_bounds((d - lo) * UNIT, w);
        assert(((d - lo) * UNIT) / w <= UNIT) by (nonlinear_arith)
            requires
                (((d - lo) * UNIT) / w) * w <= w * UNIT,
                w > 0,
        ;
    }
}

/// The sum of the vectors of the first `n` threats, each brought to the
/// length of its weight.
pub open spec fn flee_sum(ts: Seq<Threat>, lo: int, hi: int, n: int) -> (int, int)
    decreases n,
{
    if n <= 0 {
        (0, 0)
    } else {
        let rest = flee_sum(ts, lo, hi, n - 1);
        let v = ts[n - 1].0.spec_with_magnitude(flee_weight(ts[n - 1].1 as int, lo, hi));
        (rest.0 + v.x, rest.1 + v.y)
    }
}

/// No component of the sum exceeds the greatest weight times the number of
/// threats.
pub proof fn lemma_flee_sum_bound(ts: Seq<Threat>, n: int, m: int)
    requires
        0 <= m <= n <= ts.len(),
    ensures
        abs(flee_sum(ts, min_distance(ts, n), max_distance(ts, n), m).0) <= m * FLEE_WEIGHT_MAX,
        abs(flee_sum(ts, min_distance(ts, n), max_distance(ts, n), m).1) <= m * FLEE_WEIGHT_MAX,
    decreases m,
{
    if m > 0 {
        let lo = min_distance(ts, n);
        let hi = max_distance(ts, n);
        lemma_flee_sum_bound(ts, n, m - 1);
        lemma_distance_range(ts, n, m - 1);
        lemma_flee_weight_range(ts[m - 1].1 as int, lo, hi);
        lemma_with_magnitude_bound(ts[m - 1].0, flee_weight(ts[m - 1].1 as int, lo, hi));
    }
}

/// The step by which a creature flees from its predators. From a single
/// one it flees straight, by a fixed length. From several it flees along the
/// sum of the vectors that lead away from them, each with the length of its
/// weight, and by no more than a quarter.
pub open spec fn flee(ts: Seq<Threat>) -> Vector2 {
    if ts.len() == 0 {
        Vector2 { x: 0, y: 0 }
    } else if ts.len() == 1 {
        ts[0].0.spec_with_magnitude(FLEE_SINGLE as int)
    } else {
        let n = ts.len() as int;
        let s = flee_sum(ts, min_distance(ts, n), max_distance(ts, n), n);
        let sum = Vector2 { x: s.0 as i64, y: s.1 as i64 };
        if sum.spec_magnitude() > FLEE_CAP {
            sum.spec_with_magnitude(FLEE_CAP as int)
        } else {
            sum
        }
    }
}

/// No creature flees by more than a quarter.
pub proof fn lemma_flee_bound(ts: Seq<Threat>)
    requires
        ts.len() <= POPULATION_MAX,
    ensures
        abs(flee(ts).x as int) <= FLEE_CAP,
        abs(flee(ts).y as int) <= FLEE_CAP,
        flee(ts).spec_magnitude() <= FLEE_CAP,
{
    let n = ts.len() as int;
    if n == 0 {
        let z = Vector2 { x: 0, y: 0 };
        lemma_component_le_magnitude(z);
    } else if n == 1 {
        lemma_with_magnitude_bound(ts[0].0, FLEE_SINGLE as int);
    } else {
        lemma_flee_sum_bound(ts, n, n);
        let s = flee_sum(ts, min_distance(ts, n), max_distance(ts, n), n);
        let sum = Vector2 { x: s.0 as i64, y: s.1 as i64 };
        assert(n * FLEE_WEIGHT_MAX <= POPULATION_MAX * FLEE_WEIGHT_MAX) by (nonlinear_arith)
            requires
                n <= POPULATION_MAX,
        ;
        if sum.spec_magnitude() > FLEE_CAP {
            lemma_with_magnitude_bound(sum, FLEE_CAP as int);
        } else {
            lemma_component_le_magnitude(sum);
        }
    }
}

/// Computes the step by which a creature flees from the threats it sees;
/// see [`flee`].
pub fn flee_vector(threats: &Vec<Threat>) -> (r: Vector2)
    requires
        threats@.len() <= POPULATION_MAX,
    ensures
        r == flee(threats@),
        abs(r.x as int) <= FLEE_CAP,
        abs(r.y as int) <= FLEE_CAP,
{
    proof {
        lemma_flee_bound(threats@);
    }
    let n = threats.len();
    if n == 0 {
        return Vector2::zero();
    }
    if n == 1 {
        return threats[0].0.with_magnitude(FLEE_SINGLE);
    }
    let mut lo: i64 = threats[0].1;
    let mut hi: i64 = threats[0].1;
    let mut k: usize = 1;
    while k < n
        invariant
            1 <= k <= n,
            n == threats@.len(),
            lo == min_distance(threats@, k as int),
            hi == max_distance(threats@, k as int),
        decreases n - k,
    {
        let d = threats[k].1;
        if d < lo {
            lo = d;
        }
        if d > hi {
            hi = d;
        }
        k += 1;
    }
    let mut sx: i64 = 0;
    let mut sy: i64 = 0;
    let mut j: usize = 0;
    while j < n
        invariant
            j <= n,
            n == threats@.len(),
            n <= POPULATION_MAX,
            lo == min_distance(threats@, n as int),
            hi == max_distance(threats@, n as int),
            (sx as int, sy as int) == flee_sum(threats@, lo as int, hi as int, j as int),
            abs(sx as int) <= j * FLEE_WEIGHT_MAX,
            abs(sy as int) <= j * FLEE_WEIGHT_MAX,
        decreases n - j,
    {
        let (v, d) = threats[j];
        proof {
            lemma_distance_range(threats@, n as int, j as int);
            lemma_flee_weight_range(d as int, lo as int, hi as int);
            lemma_flee_sum_bound(threats@, n as int, j as int + 1);
            assert((j + 1) * FLEE_WEIGHT_MAX <= POPULATION_MAX * FLEE_WEIGHT_MAX)
                by (nonlinear_arith)
                requires
                    j + 1 <= POPULATION_MAX,
            ;
        }
        let weight: i64 = if hi == lo {
            FLEE_WEIGHT_MAX
        } else {
            let span: i128 = hi as i128 - lo as i128;
            let gap: i128 = d as i128 - lo as i128;
            (FLEE_WEIGHT_MAX as i128 - (gap * (UNIT as i128)) / span) as i64
        };
        let w = v.with_magnitude(weight);
        sx = sx + w.x;
        sy = sy + w.y;
        j += 1;
    }
    let sum = Vector2 { x: sx, y: sy };
    if sum.magnitude() > FLEE_CAP as u64 {
        sum.with_magnitude(FLEE_CAP)
    } else {
        sum
    }
}

/// The length of the step by which a creature is drawn to its target.
pub const ATTRACTION: i64 = 125_000;

/// The energy that a meal gives: five hundred.
pub const MEAL_ENERGY: i64 = 500_000_000;

/// The largest component of the direction in which a creature wants to go,
/// before its speed limits it.
pub const DESIRE_MAX: i64 = 4_000_001_000_000;

/// The position of what the creature at `i` goes for: the nearest food
/// that it sees if it is a herbivore, the nearest prey if it is a carnivore.
pub open spec fn target_position(
    cs: Seq<LivingCreature>,
    fs: Seq<Food>,
    i: int,
    opts: Opts,
) -> Option<Point2> {
    match cs[i].creature.diet {
        Diet::Herbivore => match nearest(food_keys(fs, cs[i], opts)) {
            Some(k) => Some(fs[k].position),
            None => None,
        },
        Diet::Carnivore => match nearest(prey_keys(cs, i, opts)) {
            Some(k) => Some(cs[k].position),
            None => None,
        },
    }
}

/// The direction in which the creature at `i` wants to go: the one it went
/// last, a step toward its target, and a step away from its predators.
pub open spec fn desired_direction(
    cs: Seq<LivingCreature>,
    fs: Seq<Food>,
    i: int,
    opts: Opts,
) -> Vector2 {
    let pulled = match target_position(cs, fs, i, opts) {
        Some(p) => cs[i].direction.spec_plus(
            cs[i].position.spec_offset_to(p).spec_with_magnitude(ATTRACTION as int),
        ),
        None => cs[i].direction,
    };
    pulled.spec_plus(flee(threats(cs, i, opts)))
}

/// Whether the creature at `i` hurries: it does when it has a target or
/// sees a predator.
pub open spec fn hurries(cs: Seq<LivingCreature>, fs: Seq<Food>, i: int, opts: Opts) -> bool {
    target_position(cs, fs, i, opts) is Some || threats(cs, i, opts).len() > 0
}

/// The energy that a step of the length `step` costs the creature: the
/// step's share of the creature's full speed, doubled, less its stamina. A
/// slow creature of great stamina gains energy.
pub open spec fn step_cost(c: Creature, step: int, opts: Opts) -> int {
    (2 * UNIT * step) / c.spec_speed(true, opts) - c.stamina
}

/// The creature `cur` after it has moved in the direction `desired`, as far
/// as its speed allows. It pays for the step, between no energy and the
/// maximal energy, and where it leaves the world on one side it comes in
/// on the other.
pub open spec fn moved(
    cur: LivingCreature,
    desired: Vector2,
    hurry: bool,
    x: (i64, i64),
    y: (i64, i64),
    opts: Opts,
) -> LivingCreature {
    let limit = cur.creature.spec_speed(hurry, opts);
    let length = desired.spec_magnitude();
    let step = if length <= limit {
        length
    } else {
        limit
    };
    let direction = if length <= limit {
        desired
    } else {
        desired.spec_with_magnitude(limit)
    };
    let energy = clamp(
        cur.creature.energy - step_cost(cur.creature, step, opts),
        0,
        opts.max_energy as int,
    );
    LivingCreature {
        creature: Creature { energy: energy as i64, ..cur.creature },
        eaten: cur.eaten,
        position: Point2 {
            x: wrap(cur.position.x + direction.x, x.0 as int, x.1 as int) as i64,
            y: wrap(cur.position.y + direction.y, y.0 as int, y.1 as int) as i64,
        },
        direction: direction,
    }
}

/// The creature `c` after a meal that gives `gain`: it has that much more
/// energy, and no more than the maximal energy.
pub open spec fn nourished(c: LivingCreature, gain: int, opts: Opts) -> LivingCreature {
    let energy = if c.creature.energy + gain > opts.max_energy {
        opts.max_energy as int
    } else {
        c.creature.energy + gain
    };
    LivingCreature { creature: Creature { energy: energy as i64, ..c.creature }, ..c }
}

/// The creature `c` after it was eaten: it is marked, and has no energy.
pub open spec fn devoured(c: LivingCreature) -> LivingCreature {
    LivingCreature { creature: Creature { energy: 0, ..c.creature }, eaten: true, ..c }
}

/// The world after the creature at `i` had its turn. A dead creature does
/// nothing. A living one perceives, moves, and then eats its target if its
/// body reaches it: food is marked as eaten and gives five hundred; prey is
/// marked as eaten, and gives five hundred and what energy it had.
pub open spec fn visit(
    cs: Seq<LivingCreature>,
    fs: Seq<Food>,
    i: int,
    x: (i64, i64),
    y: (i64, i64),
    opts: Opts,
) -> (Seq<LivingCreature>, Seq<Food>) {
    let cur = cs[i];
    if cur.spec_is_dead() {
        (cs, fs)
    } else {
        let m = moved(cur, desired_direction(cs, fs, i, opts), hurries(cs, fs, i, opts), x, y, opts);
        let reach = cur.creature.spec_size(opts);
        match cur.creature.diet {
            Diet::Herbivore => match nearest(food_keys(fs, cur, opts)) {
                Some(k) => if m.position.spec_within(fs[k].position, reach) {
                    (
                        cs.update(i, nourished(m, MEAL_ENERGY as int, opts)),
                        fs.update(k, Food { eaten: true, position: fs[k].position }),
                    )
                } else {
                    (cs.update(i, m), fs)
                },
                None => (cs.update(i, m), fs),
            },
            Diet::Carnivore => match nearest(prey_keys(cs, i, opts)) {
                Some(k) => if m.position.spec_within(cs[k].position, reach) {
                    (
                        cs.update(
                            i,
                            nourished(m, MEAL_ENERGY + cs[k].creature.energy, opts),
                        ).update(k, devoured(cs[k])),
                        fs,
                    )
                } else {
                    (cs.update(i, m), fs)
                },
                None => (cs.update(i, m), fs),
            },
        }
    }
}

/// Moves the creature `cur` in the direction `desired`, as far as its speed
/// allows; see [`moved`].
pub fn advance(
    cur: &LivingCreature,
    desired: Vector2,
    hurry: bool,
    x: (i64, i64),
    y: (i64, i64),
    opts: &Opts,
) -> (r: LivingCreature)
    requires
        opts.wf(),
        world_wf(x, y),
        cur.wf(*opts),
        -DESIRE_MAX <= desired.x <= DESIRE_MAX,
        -DESIRE_MAX <= desired.y <= DESIRE_MAX,
    ensures
        r == moved(*cur, desired, hurry, x, y, *opts),
        r.wf(*opts),
        x.0 <= r.position.x < x.1,
        y.0 <= r.position.y < y.1,
        r.direction.spec_magnitude() <= cur.creature.spec_speed(hurry, *opts),
{
    let limit: i64 = cur.creature.speed(hurry, opts);
    let full: i64 = cur.creature.speed(true, opts);
    let length: u64 = desired.magnitude();
    let step: i64;
    let direction: Vector2;
    if length <= limit as u64 {
        step = length as i64;
        direction = desired;
        proof {
            lemma_component_le_magnitude(desired);
        }
    } else {
        step = limit;
        direction = desired.with_magnitude(limit);
        proof {
            lemma_with_magnitude_bound(desired, limit as int);
        }
    }
    proof {
        lemma_div_bounds(2 * UNIT * step, full as int);
        lemma_wrap(cur.position.x + direction.x, x.0 as int, x.1 as int);
        lemma_wrap(cur.position.y + direction.y, y.0 as int, y.1 as int);
    }
    let cost: i128 = (2 * (UNIT as i128) * (step as i128)) / (full as i128)
        - cur.creature.stamina as i128;
    let left: i128 = cur.creature.energy as i128 - cost;
    let energy: i64 = if left < 0 {
        0
    } else if left > opts.max_energy as i128 {
        opts.max_energy
    } else {
        left as i64
    };
    LivingCreature {
        creature: Creature {
            energy: energy,
            speed: cur.creature.speed,
            stamina: cur.creature.stamina,
            fov: cur.creature.fov,
            size: cur.creature.size,
            diet: cur.creature.diet,
            colour: cur.creature.colour,
        },
        eaten: cur.eaten,
        position: Point2 {
            x: wrap_coordinate(cur.position.x + direction.x, x.0, x.1),
            y: wrap_coordinate(cur.position.y + direction.y, y.0, y.1),
        },
        direction: direction,
    }
}

/// Gives the creature `c` the energy of a meal; see [`nourished`].
pub fn nourish(c: &LivingCreature, gain: i64, opts: &Opts) -> (r: LivingCreature)
    requires
        opts.wf(),
        c.wf(*opts),
        0 <= gain <= MEAL_ENERGY + opts.max_energy,
    ensures
        r == nourished(*c, gain as int, *opts),
        r.wf(*opts),
        r.position == c.position,
        r.direction == c.direction,
{
    let energy: i64 = if c.creature.energy + gain > opts.max_energy {
        opts.max_energy
    } else {
        c.creature.energy + gain
    };
    LivingCreature {
        creature: Creature {
            energy: energy,
            speed: c.creature.speed,
            stamina: c.creature.stamina,
            fov: c.creature.fov,
            size: c.creature.size,
            diet: c.creature.diet,
            colour: c.creature.colour,
        },
        eaten: c.eaten,
        position: c.position,
        direction: c.direction,
    }
}

/// Gives the creature at `i` its turn; see [`visit`].
pub fn visit_creature(
    creatures: &mut Vec<LivingCreature>,
    food: &mut Vec<Food>,
    i: usize,
    x: (i64, i64),
    y: (i64, i64),
    opts: &Opts,
)
    requires
        opts.wf(),
        world_wf(x, y),
        i < old(creatures)@.len() <= POPULATION_MAX,
        creatures_wf(old(creatures)@, *opts),
        food_wf(old(food)@),
    ensures
        (final(creatures)@, final(food)@) == visit(
            old(creatures)@,
            old(food)@,
            i as int,
            x,
            y,
            *opts,
        ),
        final(creatures)@.len() == old(creatures)@.len(),
        final(food)@.len() == old(food)@.len(),
        creatures_wf(final(creatures)@, *opts),
        food_wf(final(food)@),
{
    let ghost cs = creatures@;
    let ghost fs = food@;
    let current = creatures[i];
    assert(cs[i as int].wf(*opts));
    if current.is_dead() {
        return ;
    }
    let mut desired = current.direction;
    let mut hurry = false;
    let mut food_idx: Option<usize> = None;
    let mut prey_idx: Option<usize> = None;
    match current.creature.diet {
        Diet::Herbivore => {
            match find_food(food, &current, opts) {
                Some((v, _, k)) => {
                    let pull = v.with_magnitude(ATTRACTION);
                    desired = desired.plus(&pull);
                    hurry = true;
                    food_idx = Some(k);
                },
                None => {},
            }
        },
        Diet::Carnivore => {
            match find_prey(creatures, i, opts) {
                Some((v, _, k)) => {
                    let pull = v.with_magnitude(ATTRACTION);
                    desired = desired.plus(&pull);
                    hurry = true;
                    prey_idx = Some(k);
                },
                None => {},
            }
        },
    }
    let predators = find_predators(creatures, i, opts);
    let away = flee_vector(&predators);
    desired = desired.plus(&away);
    if predators.len() > 0 {
        hurry = true;
    }
    assert(desired == desired_direction(cs, fs, i as int, *opts));
    assert(hurry == hurries(cs, fs, i as int, *opts));
    let m = advance(&current, desired, hurry, x, y, opts);
    let reach: i64 = current.creature.size(opts);
    let mut after = m;
    match food_idx {
        Some(k) => {
            let f = food[k];
            assert(fs[k as int].wf());
            if m.position.within(&f.position, reach) {
                food.set(k, Food { eaten: true, position: f.position });
                after = nourish(&m, MEAL_ENERGY, opts);
            }
        },
        None => {},
    }
    match prey_idx {
        Some(k) => {
            let prey = creatures[k];
            assert(cs[k as int].wf(*opts));
            if m.position.within(&prey.position, reach) {
                after = nourish(&m, MEAL_ENERGY + prey.creature.energy, opts);
                creatures.set(
                    k,
                    LivingCreature {
                        creature: Creature {
                            energy: 0,
                            speed: prey.creature.speed,
                            stamina: prey.creature.stamina,
                            fov: prey.creature.fov,
                            size: prey.creature.size,
                            diet: prey.creature.diet,
                            colour: prey.creature.colour,
                        },
                        eaten: true,
                        position: prey.position,
                        direction: prey.direction,
                    },
                );
            }
        },
        None => {},
    }
    creatures.set(i, after);
    proof {
        let (c1, f1) = visit(cs, fs, i as int, x, y, *opts);
        assert(creatures@ =~= c1);
        assert(food@ =~= f1);
    }
}

/// The world after each of the first `n` creatures had its turn, in the
/// order of the list.
pub open spec fn tick_first(
    cs: Seq<LivingCreature>,
    fs: Seq<Food>,
    n: int,
    x: (i64, i64),
    y: (i64, i64),
    opts: Opts,
) -> (Seq<LivingCreature>, Seq<Food>)
    decreases n,
{
    if n <= 0 {
        (cs, fs)
    } else {
        let w = tick_first(cs, fs, n - 1, x, y, opts);
        visit(w.0, w.1, n - 1, x, y, opts)
    }
}

/// The world after one tick: every creature had its turn, the first of the
/// list first.
pub open spec fn tick(
    cs: Seq<LivingCreature>,
    fs: Seq<Food>,
    x: (i64, i64),
    y: (i64, i64),
    opts: Opts,
) -> (Seq<LivingCreature>, Seq<Food>) {
    tick_first(cs, fs, cs.len() as int, x, y, opts)
}

/// The number of creatures among the first `n` that are alive.
pub open spec fn alive_among_first(cs: Seq<LivingCreature>, n: int) -> nat
    decreases n,
{
    if n <= 0 {
        0
    } else if cs[n - 1].spec_is_dead() {
        alive_among_first(cs, n - 1)
    } else {
        alive_among_first(cs, n - 1) + 1
    }
}

/// The number of creatures that are alive.
pub open spec fn alive(cs: Seq<LivingCreature>) -> nat {
    alive_among_first(cs, cs.len() as int)
}

/// The number of the living among the first `n` depends on those alone.
pub proof fn lemma_alive_prefix(a: Seq<LivingCreature>, b: Seq<LivingCreature>, n: int)
    requires
        0 <= n <= a.len(),
        n <= b.len(),
        forall|k: int| 0 <= k < n ==> a[k] == b[k],
    ensures
        alive_among_first(a, n) == alive_among_first(b, n),
    decreases n,
{
    if n > 0 {
        lemma_alive_prefix(a, b, n - 1);
    }
}

/// The world after a batch of at most `rounds` ticks, and whether the batch
/// ended early. After each tick the living are counted; once no more than
/// `threshold` are alive, the batch ends early.
pub open spec fn run_rounds(
    cs: Seq<LivingCreature>,
    fs: Seq<Food>,
    rounds: nat,
    threshold: nat,
    x: (i64, i64),
    y: (i64, i64),
    opts: Opts,
) -> (Seq<LivingCreature>, Seq<Food>, bool)
    decreases rounds,
{
    if rounds == 0 {
        (cs, fs, false)
    } else {
        let w = tick(cs, fs, x, y, opts);
        if alive(w.0) <= threshold {
            (w.0, w.1, true)
        } else {
            run_rounds(w.0, w.1, (rounds - 1) as nat, threshold, x, y, opts)
        }
    }
}

/// Two creatures are of the same kind: they have the same traits, the same
/// diet and the same colour.
pub open spec fn same_kind(a: Creature, b: Creature) -> bool {
    &&& a.speed == b.speed
    &&& a.stamina == b.stamina
    &&& a.fov == b.fov
    &&& a.size == b.size
    &&& a.diet == b.diet
    &&& a.colour == b.colour
}

/// The creature `after` is what a turn of some creature has left of the
/// dead creature `before`: it is dead, and lies where it lay. It is as it
/// was, or it was eaten as carrion.
pub open spec fn lies_dead(before: LivingCreature, after: LivingCreature) -> bool {
    &&& after.spec_is_dead()
    &&& after.position == before.position
    &&& after.direction == before.direction
    &&& after == before || after == devoured(before)
}

/// The creatures `after` are the creatures `before` some turns later: as
/// many, each of the kind it was, the eaten still eaten, and the dead still
/// dead where they lay.
pub open spec fn creatures_later(before: Seq<LivingCreature>, after: Seq<LivingCreature>) -> bool {
    &&& after.len() == before.len()
    &&& forall|k: int|
        0 <= k < before.len() ==> same_kind((#[trigger] before[k]).creature, after[k].creature)
    &&& forall|k: int| 0 <= k < before.len() && (#[trigger] before[k]).eaten ==> after[k].eaten
    &&& forall|k: int|
        0 <= k < before.len() && (#[trigger] before[k]).spec_is_dead() ==> {
            &&& after[k].spec_is_dead()
            &&& after[k].position == before[k].position
            &&& after[k].direction == before[k].direction
        }
}

/// The food `after` is the food `before` some turns later: as many pieces,
/// each where it lay, and what was eaten still eaten.
pub open spec fn food_later(before: Seq<Food>, after: Seq<Food>) -> bool {
    &&& after.len() == before.len()
    &&& forall|k: int|
        0 <= k < before.len() ==> (#[trigger] after[k]).position == before[k].position
    &&& forall|k: int| 0 <= k < before.len() && (#[trigger] before[k]).eaten ==> after[k].eaten
}

/// The turn of a dead creature changes nothing, and no dead creature
/// threatens anyone.
pub proof fn lemma_dead_do_nothing(
    cs: Seq<LivingCreature>,
    fs: Seq<Food>,
    i: int,
    x: (i64, i64),
    y: (i64, i64),
    opts: Opts,
)
    requires
        0 <= i < cs.len(),
        cs[i].spec_is_dead(),
    ensures
        visit(cs, fs, i, x, y, opts) == (cs, fs),
        forall|k: int| 0 <= k < cs.len() ==> !threatens(cs[i], #[trigger] cs[k], opts),
{
}

/// The turn of one creature changes no other creature, but that its prey
/// is eaten; it leaves every creature of the kind it was, every dead
/// creature dead where it lay, and all food in its place.
pub proof fn lemma_visit_later(
    cs: Seq<LivingCreature>,
    fs: Seq<Food>,
    i: int,
    x: (i64, i64),
    y: (i64, i64),
    opts: Opts,
)
    requires
        0 <= i < cs.len(),
    ensures
        creatures_later(cs, visit(cs, fs, i, x, y, opts).0),
        food_later(fs, visit(cs, fs, i, x, y, opts).1),
        forall|k: int|
            0 <= k < cs.len() && k != i ==> {
                let after = #[trigger] visit(cs, fs, i, x, y, opts).0[k];
                after == cs[k] || (after == devoured(cs[k]) && prey_in_sight(cs[k], cs[i], opts))
            },
        forall|k: int|
            0 <= k < cs.len() && (#[trigger] cs[k]).spec_is_dead() ==> lies_dead(
                cs[k],
                visit(cs, fs, i, x, y, opts).0[k],
            ),
{
    let w = visit(cs, fs, i, x, y, opts);
    lemma_nearest_sound(food_keys(fs, cs[i], opts));
    lemma_nearest_sound(prey_keys(cs, i, opts));
    if !cs[i].spec_is_dead() {
        match cs[i].creature.diet {
            Diet::Herbivore => {
                match nearest(food_keys(fs, cs[i], opts)) {
                    Some(j) => {
                        assert(0 <= j < fs.len());
                    },
                    None => {},
                }
            },
            Diet::Carnivore => {
                match nearest(prey_keys(cs, i, opts)) {
                    Some(j) => {
                        assert(0 <= j < cs.len());
                        assert(prey_keys(cs, i, opts)[j] is Some);
                        assert(j != i);
                        assert(prey_in_sight(cs[j], cs[i], opts));
                    },
                    None => {},
                }
            },
        }
    }
}

/// What holds of one turn holds of the turns of a tick together; see
/// [`creatures_later`] and [`food_later`].
pub proof fn lemma_tick_later(
    cs: Seq<LivingCreature>,
    fs: Seq<Food>,
    n: int,
    x: (i64, i64),
    y: (i64, i64),
    opts: Opts,
)
    requires
        0 <= n <= cs.len(),
    ensures
        creatures_later(cs, tick_first(cs, fs, n, x, y, opts).0),
        food_later(fs, tick_first(cs, fs, n, x, y, opts).1),
    decreases n,
{
    if n > 0 {
        lemma_tick_later(cs, fs, n - 1, x, y, opts);
        let w = tick_first(cs, fs, n - 1, x, y, opts);
        lemma_visit_later(w.0, w.1, n - 1, x, y, opts);
        let v = visit(w.0, w.1, n - 1, x, y, opts);
        assert forall|k: int| 0 <= k < cs.len() implies same_kind(
            (#[trigger] cs[k]).creature,
            v.0[k].creature,
        ) by {
            assert(same_kind(w.0[k].creature, v.0[k].creature));
        }
        assert forall|k: int| 0 <= k < cs.len() && (#[trigger] cs[k]).eaten implies v.0[k].eaten by {
            assert(w.0[k].eaten);
        }
        assert forall|k: int| 0 <= k < cs.len() && (#[trigger] cs[k]).spec_is_dead() implies {
            &&& v.0[k].spec_is_dead()
            &&& v.0[k].position == cs[k].position
            &&& v.0[k].direction == cs[k].direction
        } by {
            assert(w.0[k].spec_is_dead());
        }
        assert forall|k: int| 0 <= k < fs.len() implies (#[trigger] v.1[k]).position
            == fs[k].position by {
            assert(w.1[k].position == fs[k].position);
        }
        assert forall|k: int| 0 <= k < fs.len() && (#[trigger] fs[k]).eaten implies v.1[k].eaten by {
            assert(w.1[k].eaten);
        }
    }
}

/// Through a whole batch of ticks every creature stays of the kind it was:
/// no trait changes, and no diet. Whoever is dead when the batch begins, or
/// dies in it, takes no further turn, threatens nobody, and lies where it
/// died; all that can still happen to it is to be eaten as carrion.
pub proof fn lemma_batch_later(
    cs: Seq<LivingCreature>,
    fs: Seq<Food>,
    rounds: nat,
    threshold: nat,
    x: (i64, i64),
    y: (i64, i64),
    opts: Opts,
)
    ensures
        creatures_later(cs, run_rounds(cs, fs, rounds, threshold, x, y, opts).0),
        food_later(fs, run_rounds(cs, fs, rounds, threshold, x, y, opts).1),
    decreases rounds,
{
    if rounds > 0 {
        lemma_tick_later(cs, fs, cs.len() as int, x, y, opts);
        let w = tick(cs, fs, x, y, opts);
        if alive(w.0) > threshold {
            let r = (rounds - 1) as nat;
            lemma_batch_later(w.0, w.1, r, threshold, x, y, opts);
            let v = run_rounds(w.0, w.1, r, threshold, x, y, opts);
            assert forall|k: int| 0 <= k < cs.len() implies same_kind(
                (#[trigger] cs[k]).creature,
                v.0[k].creature,
            ) by {
                assert(same_kind(w.0[k].creature, v.0[k].creature));
            }
            assert forall|k: int| 0 <= k < cs.len() && (#[trigger] cs[k]).eaten implies v.0[k].eaten by {
                assert(w.0[k].eaten);
            }
            assert forall|k: int| 0 <= k < cs.len() && (#[trigger] cs[k]).spec_is_dead() implies {
                &&& v.0[k].spec_is_dead()
                &&& v.0[k].position == cs[k].position
                &&& v.0[k].direction == cs[k].direction
            } by {
                assert(w.0[k].spec_is_dead());
            }
            assert forall|k: int| 0 <= k < fs.len() implies (#[trigger] v.1[k]).position
                == fs[k].position by {
                assert(w.1[k].position == fs[k].position);
            }
            assert forall|k: int| 0 <= k < fs.len() && (#[trigger] fs[k]).eaten implies v.1[k].eaten by {
                assert(w.1[k].eaten);
            }
        }
    }
}

/// Every creature has between no energy and the maximal energy, and traits
/// that add up to two.
pub open spec fn creatures_sound(cs: Seq<LivingCreature>, opts: Opts) -> bool {
    forall|k: int|
        0 <= k < cs.len() ==> {
            &&& 0 <= (#[trigger] cs[k]).creature.energy <= opts.max_energy
            &&& cs[k].creature.traits_wf()
        }
}

/// The turn of a creature leaves the energy of every creature between
/// nothing and the maximal energy, and the traits of each at the total of
/// two.
pub proof fn lemma_visit_sound(
    cs: Seq<LivingCreature>,
    fs: Seq<Food>,
    i: int,
    x: (i64, i64),
    y: (i64, i64),
    opts: Opts,
)
    requires
        0 <= i < cs.len(),
        0 <= opts.max_energy,
        creatures_sound(cs, opts),
    ensures
        creatures_sound(visit(cs, fs, i, x, y, opts).0, opts),
{
    let w = visit(cs, fs, i, x, y, opts);
    lemma_visit_later(cs, fs, i, x, y, opts);
    lemma_nearest_sound(food_keys(fs, cs[i], opts));
    lemma_nearest_sound(prey_keys(cs, i, opts));
    assert forall|k: int| 0 <= k < w.0.len() implies {
        &&& 0 <= (#[trigger] w.0[k]).creature.energy <= opts.max_energy
        &&& w.0[k].creature.traits_wf()
    } by {
        assert(same_kind(cs[k].creature, w.0[k].creature));
        assert(cs[k].creature.traits_wf());
        if k != i {
            assert(w.0[k] == cs[k] || w.0[k] == devoured(cs[k]));
        } else if !cs[i].spec_is_dead() {
            match cs[i].creature.diet {
                Diet::Herbivore => {},
                Diet::Carnivore => {
                    match nearest(prey_keys(cs, i, opts)) {
                        Some(j) => {
                            assert(0 <= cs[j].creature.energy);
                        },
                        None => {},
                    }
                },
            }
        }
    }
}

/// A tick leaves every creature sound; see [`lemma_visit_sound`].
pub proof fn lemma_tick_sound(
    cs: Seq<LivingCreature>,
    fs: Seq<Food>,
    n: int,
    x: (i64, i64),
    y: (i64, i64),
    opts: Opts,
)
    requires
        0 <= n <= cs.len(),
        0 <= opts.max_energy,
        creatures_sound(cs, opts),
    ensures
        creatures_sound(tick_first(cs, fs, n, x, y, opts).0, opts),
    decreases n,
{
    if n > 0 {
        lemma_tick_sound(cs, fs, n - 1, x, y, opts);
        lemma_tick_later(cs, fs, n - 1, x, y, opts);
        let w = tick_first(cs, fs, n - 1, x, y, opts);
        lemma_visit_sound(w.0, w.1, n - 1, x, y, opts);
    }
}

/// At every point of a batch of ticks, the traits of every creature add up
/// to two, and its energy lies between nothing and the maximal energy.
pub proof fn lemma_batch_sound(
    cs: Seq<LivingCreature>,
    fs: Seq<Food>,
    rounds: nat,
    threshold: nat,
    x: (i64, i64),
    y: (i64, i64),
    opts: Opts,
)
    requires
        0 <= opts.max_energy,
        creatures_sound(cs, opts),
    ensures
        creatures_sound(run_rounds(cs, fs, rounds, threshold, x, y, opts).0, opts),
    decreases rounds,
{
    if rounds > 0 {
        lemma_tick_sound(cs, fs, cs.len() as int, x, y, opts);
        let w = tick(cs, fs, x, y, opts);
        if alive(w.0) > threshold {
            lemma_batch_sound(w.0, w.1, (rounds - 1) as nat, threshold, x, y, opts);
        }
    }
}

/// Where the dead stay dead, no more creatures are alive than were.
pub proof fn lemma_alive_never_grows(before: Seq<LivingCreature>, after: Seq<LivingCreature>, n: int)
    requires
        0 <= n <= before.len(),
        creatures_later(before, after),
    ensures
        alive_among_first(after, n) <= alive_among_first(before, n),
    decreases n,
{
    if n > 0 {
        lemma_alive_never_grows(before, after, n - 1);
        if before[n - 1].spec_is_dead() {
            assert(after[n - 1].spec_is_dead());
        }
    }
}

/// In a batch of ticks nobody comes back to life: no more creatures are
/// alive after it than before.
pub proof fn lemma_batch_alive(
    cs: Seq<LivingCreature>,
    fs: Seq<Food>,
    rounds: nat,
    threshold: nat,
    x: (i64, i64),
    y: (i64, i64),
    opts: Opts,
)
    ensures
        alive(run_rounds(cs, fs, rounds, threshold, x, y, opts).0) <= alive(cs),
        run_rounds(cs, fs, rounds, threshold, x, y, opts).2 ==> alive(
            run_rounds(cs, fs, rounds, threshold, x, y, opts).0,
        ) <= threshold,
        alive(cs) <= threshold && rounds > 0 ==> run_rounds(
            cs,
            fs,
            rounds,
            threshold,
            x,
            y,
            opts,
        ).2,
    decreases rounds,
{
    lemma_batch_later(cs, fs, rounds, threshold, x, y, opts);
    lemma_alive_never_grows(
        cs,
        run_rounds(cs, fs, rounds, threshold, x, y, opts).0,
        cs.len() as int,
    );
    if rounds > 0 {
        let w = tick(cs, fs, x, y, opts);
        lemma_tick_later(cs, fs, cs.len() as int, x, y, opts);
        lemma_alive_never_grows(cs, w.0, cs.len() as int);
        if alive(w.0) > threshold {
            lemma_batch_alive(w.0, w.1, (rounds - 1) as nat, threshold, x, y, opts);
        }
    }
}

/// The turn of a living creature that has no target and sees no predator:
/// it goes on the way it went, unhurried, and nothing else changes. If the
/// step costs it energy, it has that much less afterwards, and none if it
/// had no more than the step costs.
pub proof fn lemma_lonely_turn(
    cs: Seq<LivingCreature>,
    fs: Seq<Food>,
    i: int,
    x: (i64, i64),
    y: (i64, i64),
    opts: Opts,
)
    requires
        0 <= i < cs.len(),
        !cs[i].spec_is_dead(),
        cs[i].creature.energy <= opts.max_energy,
        target_position(cs, fs, i, opts) is None,
        threats(cs, i, opts).len() == 0,
    ensures
        visit(cs, fs, i, x, y, opts) == (
            cs.update(i, moved(cs[i], cs[i].direction, false, x, y, opts)),
            fs,
        ),
        ({
            let limit = cs[i].creature.spec_speed(false, opts);
            let length = cs[i].direction.spec_magnitude();
            let cost = step_cost(
                cs[i].creature,
                if length <= limit {
                    length
                } else {
                    limit
                },
                opts,
            );
            let energy = visit(cs, fs, i, x, y, opts).0[i].creature.energy;
            cost >= 0 ==> energy == if cs[i].creature.energy <= cost {
                0
            } else {
                cs[i].creature.energy - cost
            }
        }),
{
    let d = cs[i].direction;
    assert(d.spec_plus(Vector2 { x: 0, y: 0 }) == d);
    assert(desired_direction(cs, fs, i, opts) == d);
    assert(!hurries(cs, fs, i, opts));
}

/// Holds of a creature that was not eaten.
pub open spec fn creature_left() -> spec_fn(LivingCreature) -> bool {
    |c: LivingCreature| !c.eaten
}

/// Holds of food that was not eaten.
pub open spec fn food_left() -> spec_fn(Food) -> bool {
    |f: Food| !f.eaten
}

/// The world after a batch of ticks, with what was eaten taken out of both
/// lists, and whether the batch ended early; see [`run_rounds`].
pub open spec fn spec_run(
    cs: Seq<LivingCreature>,
    fs: Seq<Food>,
    rounds: nat,
    threshold: nat,
    x: (i64, i64),
    y: (i64, i64),
    opts: Opts,
) -> (Seq<LivingCreature>, Seq<Food>, bool) {
    let w = run_rounds(cs, fs, rounds, threshold, x, y, opts);
    (w.0.filter(creature_left()), w.1.filter(food_left()), w.2)
}

/// Runs one tick: every creature has its turn, the first of the list first.
pub fn run_tick(
    creatures: &mut Vec<LivingCreature>,
    food: &mut Vec<Food>,
    x: (i64, i64),
    y: (i64, i64),
    opts: &Opts,
)
    requires
        opts.wf(),
        world_wf(x, y),
        old(creatures)@.len() <= POPULATION_MAX,
        creatures_wf(old(creatures)@, *opts),
        food_wf(old(food)@),
    ensures
        (final(creatures)@, final(food)@) == tick(old(creatures)@, old(food)@, x, y, *opts),
        final(creatures)@.len() == old(creatures)@.len(),
        final(food)@.len() == old(food)@.len(),
        creatures_wf(final(creatures)@, *opts),
        food_wf(final(food)@),
{
    let ghost cs = creatures@;
    let ghost fs = food@;
    let n = creatures.len();
    let mut i: usize = 0;
    while i < n
        invariant
            i <= n,
            n == cs.len(),
            n <= POPULATION_MAX,
            opts.wf(),
            world_wf(x, y),
            creatures@.len() == n,
            food@.len() == fs.len(),
            creatures_wf(creatures@, *opts),
            food_wf(food@),
            (creatures@, food@) == tick_first(cs, fs, i as int, x, y, *opts),
        decreases n - i,
    {
        visit_creature(creatures, food, i, x, y, opts);
        i += 1;
    }
}

/// Counts the creatures that are alive.
pub fn count_alive(creatures: &Vec<LivingCreature>) -> (r: usize)
    ensures
        r == alive(creatures@),
{
    let mut count: usize = 0;
    let mut k: usize = 0;
    while k < creatures.len()
        invariant
            k <= creatures.len(),
            count == alive_among_first(creatures@, k as int),
            count <= k,
        decreases creatures.len() - k,
    {
        if !creatures[k].is_dead() {
            count += 1;
        }
        k += 1;
    }
    count
}

/// Takes the creatures that were eaten out of the list.
pub fn remove_eaten_creatures(creatures: &mut Vec<LivingCreature>)
    ensures
        final(creatures)@ == old(creatures)@.filter(creature_left()),
        final(creatures)@.len() <= old(creatures)@.len(),
        alive(final(creatures)@) == alive(old(creatures)@),
        forall|k: int| 0 <= k < final(creatures)@.len() ==> !(#[trigger] final(creatures)@[k]).eaten,
        forall|k: int|
            0 <= k < final(creatures)@.len() ==> old(creatures)@.contains(
                #[trigger] final(creatures)@[k],
            ),
{
    let ghost cs = creatures@;
    let mut kept: Vec<LivingCreature> = Vec::new();
    let mut k: usize = 0;
    assert(cs.take(0).filter(creature_left()) =~= Seq::<LivingCreature>::empty()) by {
        reveal(Seq::filter);
    }
    while k < creatures.len()
        invariant
            k <= creatures.len(),
            creatures@ == cs,
            kept@ == cs.take(k as int).filter(creature_left()),
            kept@.len() <= k,
            alive(kept@) == alive_among_first(cs, k as int),
            forall|j: int| 0 <= j < kept@.len() ==> !(#[trigger] kept@[j]).eaten,
            forall|j: int| 0 <= j < kept@.len() ==> cs.contains(#[trigger] kept@[j]),
        decreases creatures.len() - k,
    {
        let c = creatures[k];
        let ghost before = kept@;
        proof {
            assert(cs.take(k as int + 1).drop_last() =~= cs.take(k as int));
            assert(cs.take(k as int + 1).last() == c);
            reveal(Seq::filter);
            assert(cs.contains(c));
        }
        if !c.eaten {
            kept.push(c);
            proof {
                lemma_alive_prefix(kept@, before, before.len() as int);
            }
        }
        k += 1;
    }
    assert(cs.take(cs.len() as int) =~= cs);
    *creatures = kept;
}

/// Takes the food that was eaten out of the list.
pub fn remove_eaten_food(food: &mut Vec<Food>)
    ensures
        final(food)@ == old(food)@.filter(food_left()),
        final(food)@.len() <= old(food)@.len(),
        forall|k: int| 0 <= k < final(food)@.len() ==> !(#[trigger] final(food)@[k]).eaten,
        forall|k: int|
            0 <= k < final(food)@.len() ==> old(food)@.contains(#[trigger] final(food)@[k]),
{
    let ghost fs = food@;
    let mut kept: Vec<Food> = Vec::new();
    let mut k: usize = 0;
    assert(fs.take(0).filter(food_left()) =~= Seq::<Food>::empty()) by {
        reveal(Seq::filter);
    }
    while k < food.len()
        invariant
            k <= food.len(),
            food@ == fs,
            kept@ == fs.take(k as int).filter(food_left()),
            kept@.len() <= k,
            forall|j: int| 0 <= j < kept@.len() ==> !(#[trigger] kept@[j]).eaten,
            forall|j: int| 0 <= j < kept@.len() ==> fs.contains(#[trigger] kept@[j]),
        decreases food.len() - k,
    {
        let f = food[k];
        proof {
            assert(fs.take(k as int + 1).drop_last() =~= fs.take(k as int));
            assert(fs.take(k as int + 1).last() == f);
            reveal(Seq::filter);
            assert(fs.contains(f));
        }
        if !f.eaten {
            kept.push(f);
        }
        k += 1;
    }
    assert(fs.take(fs.len() as int) =~= fs);
    *food = kept;
}

/// Runs a batch of at most `rounds` ticks, and tells whether it ended
/// early: after each tick the living are counted, and once no more than
/// `threshold` are alive the batch is over. What was eaten is then taken out
/// of both lists.
pub fn run(
    creatures: &mut Vec<LivingCreature>,
    food: &mut Vec<Food>,
    rounds: usize,
    threshold: usize,
    x: (i64, i64),
    y: (i64, i64),
    opts: &Opts,
) -> (ended: bool)
    requires
        opts.wf(),
        world_wf(x, y),
        old(creatures)@.len() <= POPULATION_MAX,
        creatures_wf(old(creatures)@, *opts),
        food_wf(old(food)@),
    ensures
        (final(creatures)@, final(food)@, ended) == spec_run(
            old(creatures)@,
            old(food)@,
            rounds as nat,
            threshold as nat,
            x,
            y,
            *opts,
        ),
        creatures_wf(final(creatures)@, *opts),
        food_wf(final(food)@),
        final(creatures)@.len() <= old(creatures)@.len(),
        final(food)@.len() <= old(food)@.len(),
        forall|k: int| 0 <= k < final(creatures)@.len() ==> !(#[trigger] final(creatures)@[k]).eaten,
        forall|k: int| 0 <= k < final(food)@.len() ==> !(#[trigger] final(food)@[k]).eaten,
        ended ==> alive(final(creatures)@) <= threshold,
        rounds == 0 ==> !ended,
{
    let ghost cs = creatures@;
    let ghost fs = food@;
    let mut ended = false;
    let mut r: usize = 0;
    while r < rounds
        invariant_except_break
            !ended,
            run_rounds(cs, fs, rounds as nat, threshold as nat, x, y, *opts) == run_rounds(
                creatures@,
                food@,
                (rounds - r) as nat,
                threshold as nat,
                x,
                y,
                *opts,
            ),
        invariant
            r <= rounds,
            opts.wf(),
            world_wf(x, y),
            creatures@.len() == cs.len(),
            food@.len() == fs.len(),
            cs.len() <= POPULATION_MAX,
            creatures_wf(creatures@, *opts),
            food_wf(food@),
        ensures
            (creatures@, food@, ended) == run_rounds(
                cs,
                fs,
                rounds as nat,
                threshold as nat,
                x,
                y,
                *opts,
            ),
            ended ==> alive(creatures@) <= threshold,
            rounds == 0 ==> !ended,
        decreases rounds - r,
    {
        run_tick(creatures, food, x, y, opts);
        r += 1;
        if count_alive(creatures) <= threshold {
            ended = true;
            break ;
        }
    }
    let ghost cs1 = creatures@;
    let ghost fs1 = food@;
    remove_eaten_creatures(creatures);
    remove_eaten_food(food);
    proof {
        assert forall|k: int| 0 <= k < creatures@.len() implies (#[trigger] creatures@[k]).wf(
            *opts,
        ) by {
            let c = creatures@[k];
            assert(cs1.contains(c));
            let j = choose|j: int| 0 <= j < cs1.len() && cs1[j] == c;
            assert(cs1[j].wf(*opts));
        }
        assert forall|k: int| 0 <= k < food@.len() implies (#[trigger] food@[k]).wf() by {
            let f = food@[k];
            assert(fs1.contains(f));
            let j = choose|j: int| 0 <= j < fs1.len() && fs1[j] == f;
            assert(fs1[j].wf());
        }
    }
    ended
}

/// Lays out the food of a generation: clears the list and fills it with
/// `qty` pieces at random places of the world.
pub fn generate_food(
    food_buf: &mut Vec<Food>,
    qty: usize,
    x: (i64, i64),
    y: (i64, i64),
    rng: &mut SmallRng,
)
    requires
        world_wf(x, y),
    ensures
        final(food_buf)@.len() == qty,
        forall|k: int|
            0 <= k < qty ==> {
                let f = #[trigger] final(food_buf)@[k];
                &&& !f.eaten
                &&& f.wf()
                &&& x.0 <= f.position.x < x.1
                &&& y.0 <= f.position.y < y.1
            },
{
    food_buf.clear();
    let mut k: usize = 0;
    while k < qty
        invariant
            k <= qty,
            world_wf(x, y),
            food_buf@.len() == k,
            forall|j: int|
                0 <= j < k ==> {
                    let f = #[trigger] food_buf@[j];
                    &&& !f.eaten
                    &&& f.wf()
                    &&& x.0 <= f.position.x < x.1
                    &&& y.0 <= f.position.y < y.1
                },
        decreases qty - k,
    {
        food_buf.push(Food::random(x, y, rng));
        k += 1;
    }
}

/// Every creature of the list has traits that add up to two.
pub open spec fn population_traits_wf(cs: Seq<Creature>) -> bool {
    forall|k: int| 0 <= k < cs.len() ==> (#[trigger] cs[k]).traits_wf()
}

/// Sets the creatures of a population down in the world: clears the list of
/// the living and fills it with the creatures, each at a random place and
/// facing a random way, in the order of the population.
pub fn position_creatures(
    creatures: &[Creature],
    creatures_buf: &mut Vec<LivingCreature>,
    x: (i64, i64),
    y: (i64, i64),
    rng: &mut SmallRng,
)
    requires
        world_wf(x, y),
        population_traits_wf(creatures@),
    ensures
        final(creatures_buf)@.len() == creatures@.len(),
        forall|k: int|
            0 <= k < creatures@.len() ==> (#[trigger] final(creatures_buf)@[k]).is_set_down(
                creatures@[k],
                x,
                y,
            ),
        forall|opts: Opts| #[trigger]
            population_wf(creatures@, opts) ==> creatures_wf(final(creatures_buf)@, opts),
{
    creatures_buf.clear();
    let mut k: usize = 0;
    while k < creatures.len()
        invariant
            k <= creatures@.len(),
            world_wf(x, y),
            population_traits_wf(creatures@),
            creatures_buf@.len() == k,
            forall|j: int|
                0 <= j < k ==> (#[trigger] creatures_buf@[j]).is_set_down(creatures@[j], x, y),
        decreases creatures.len() - k,
    {
        let c = creatures[k];
        assert(creatures@[k as int].traits_wf());
        creatures_buf.push(LivingCreature::random(c, x, y, rng));
        k += 1;
    }
    proof {
        assert forall|opts: Opts| #[trigger]
            population_wf(creatures@, opts) implies creatures_wf(creatures_buf@, opts) by {
            assert forall|j: int| 0 <= j < creatures_buf@.len() implies (
            #[trigger] creatures_buf@[j]).wf(opts) by {
                assert(creatures@[j].wf(opts));
            }
        }
    }
}

/// The creatures among the first `n` of the living that have energy left,
/// in the order of the list. A creature that was eaten has none.
pub open spec fn survivors_among_first(cs: Seq<LivingCreature>, n: int) -> Seq<Creature>
    decreases n,
{
    if n <= 0 {
        Seq::empty()
    } else if cs[n - 1].creature.energy > 0 {
        survivors_among_first(cs, n - 1).push(cs[n - 1].creature)
    } else {
        survivors_among_first(cs, n - 1)
    }
}

/// Each of the survivors was among the living.
pub proof fn lemma_survivors_from(cs: Seq<LivingCreature>, n: int, k: int)
    requires
        0 <= n <= cs.len(),
        0 <= k < survivors_among_first(cs, n).len(),
    ensures
        exists|j: int|
            0 <= j < n && (#[trigger] cs[j]).creature == survivors_among_first(cs, n)[k]
                && cs[j].creature.energy > 0,
    decreases n,
{
    if n > 0 {
        let rest = survivors_among_first(cs, n - 1);
        if cs[n - 1].creature.energy > 0 && k == rest.len() {
            assert(cs[n - 1].creature == survivors_among_first(cs, n)[k]);
        } else {
            lemma_survivors_from(cs, n - 1, k);
        }
    }
}

/// Gathers the creatures that have energy left at the end of a generation.
pub fn survivors(creatures: &Vec<LivingCreature>) -> (r: Vec<Creature>)
    ensures
        r@ == survivors_among_first(creatures@, creatures@.len() as int),
        r@.len() <= creatures@.len(),
        forall|k: int| 0 <= k < r@.len() ==> (#[trigger] r@[k]).energy > 0,
        forall|opts: Opts| #[trigger]
            creatures_wf(creatures@, opts) ==> population_wf(r@, opts),
{
    let mut out: Vec<Creature> = Vec::new();
    let mut k: usize = 0;
    while k < creatures.len()
        invariant
            k <= creatures@.len(),
            out@ == survivors_among_first(creatures@, k as int),
            out@.len() <= k,
            forall|j: int| 0 <= j < out@.len() ==> (#[trigger] out@[j]).energy > 0,
        decreases creatures.len() - k,
    {
        let c = creatures[k];
        if c.creature.energy > 0 {
            out.push(c.creature);
        }
        k += 1;
    }
    proof {
        assert forall|opts: Opts| #[trigger]
            creatures_wf(creatures@, opts) implies population_wf(out@, opts) by {
            assert forall|j: int| 0 <= j < out@.len() implies (#[trigger] out@[j]).wf(opts) by {
                lemma_survivors_from(creatures@, creatures@.len() as int, j);
                let i = choose|i: int|
                    0 <= i < creatures@.len() && (#[trigger] creatures@[i]).creature == out@[j]
                        && creatures@[i].creature.energy > 0;
                assert(creatures@[i].wf(opts));
            }
        }
    }
    out
}

} // verus!
