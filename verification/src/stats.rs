//! What a generation looks like: how many creatures eat what, and the mean
//! of each trait.

use vstd::prelude::*;
use crate::creature::{Creature, Diet, TRAIT_TOTAL};
use crate::fixed::UNIT;
use crate::opts::POPULATION_MAX;
use crate::round::population_traits_wf;

verus! {

/// The mean of each trait over some creatures.
#[derive(Debug, Copy, Clone, Eq, PartialEq, Structural)]
pub struct StatsInner {
    pub speed: i64,
    pub stamina: i64,
    pub fov: i64,
    pub size: i64,
}

impl Default for StatsInner {
    fn default() -> (r: StatsInner)
        ensures
            r == (StatsInner { speed: 0, stamina: 0, fov: 0, size: 0 }),
    {
        StatsInner { speed: 0, stamina: 0, fov: 0, size: 0 }
    }
}

/// The statistics of one generation.
#[derive(Debug, Copy, Clone, Eq, PartialEq, Structural)]
pub struct Stats {
    /// The means over all creatures.
    pub all: StatsInner,
    /// The number of creatures.
    pub count: usize,
    /// The means over the herbivores.
    pub herbivores: StatsInner,
    pub herbivores_count: usize,
    /// The means over the carnivores.
    pub carnivores: StatsInner,
    pub carnivores_count: usize,
}

/// Whether a creature counts for a diet: every creature counts where no
/// diet is asked for.
pub open spec fn counts_for(c: Creature, diet: Option<Diet>) -> bool {
    match diet {
        Some(d) => c.diet == d,
        None => true,
    }
}

/// The number of the creatures among the first `n` that count for `diet`,
/// and the sum of each of their traits: speed, stamina, field of view, size.
pub open spec fn tally(cs: Seq<Creature>, diet: Option<Diet>, n: int) -> (int, int, int, int, int)
    decreases n,
{
    if n <= 0 {
        (0, 0, 0, 0, 0)
    } else {
        let t = tally(cs, diet, n - 1);
        let c = cs[n - 1];
        if counts_for(c, diet) {
            (t.0 + 1, t.1 + c.speed, t.2 + c.stamina, t.3 + c.fov, t.4 + c.size)
        } else {
            t
        }
    }
}

/// The means of a tally, rounded down; and `fallback` for each where
/// nothing was counted.
pub open spec fn means(t: (int, int, int, int, int), fallback: int) -> StatsInner {
    if t.0 > 0 {
        StatsInner {
            speed: (t.1 / t.0) as i64,
            stamina: (t.2 / t.0) as i64,
            fov: (t.3 / t.0) as i64,
            size: (t.4 / t.0) as i64,
        }
    } else {
        StatsInner {
            speed: fallback as i64,
            stamina: fallback as i64,
            fov: fallback as i64,
            size: fallback as i64,
        }
    }
}

/// A tally counts no more creatures than it has seen, and each sum is no
/// more than the total of two for each creature counted.
pub proof fn lemma_tally_bounds(cs: Seq<Creature>, diet: Option<Diet>, n: int)
    requires
        0 <= n <= cs.len(),
        population_traits_wf(cs),
    ensures
        ({
            let t = tally(cs, diet, n);
            &&& 0 <= t.0 <= n
            &&& 0 <= t.1 <= t.0 * TRAIT_TOTAL
            &&& 0 <= t.2 <= t.0 * TRAIT_TOTAL
            &&& 0 <= t.3 <= t.0 * TRAIT_TOTAL
            &&& 0 <= t.4 <= t.0 * TRAIT_TOTAL
            &&& t.1 + t.2 + t.3 + t.4 == t.0 * TRAIT_TOTAL
        }),
    decreases n,
{
    if n > 0 {
        lemma_tally_bounds(cs, diet, n - 1);
        assert(cs[n - 1].traits_wf());
    }
}

/// Computes the means of a tally; see [`means`].
fn means_of(count: usize, speed: i64, stamina: i64, fov: i64, size: i64, fallback: i64) -> (r:
    StatsInner)
    requires
        0 <= speed,
        0 <= stamina,
        0 <= fov,
        0 <= size,
    ensures
        r == means(
            (count as int, speed as int, stamina as int, fov as int, size as int),
            fallback as int,
        ),
{
    if count > 0 {
        let n = count as u64;
        StatsInner {
            speed: (speed as u64 / n) as i64,
            stamina: (stamina as u64 / n) as i64,
            fov: (fov as u64 / n) as i64,
            size: (size as u64 / n) as i64,
        }
    } else {
        StatsInner { speed: fallback, stamina: fallback, fov: fallback, size: fallback }
    }
}

impl Stats {
    /// The statistics of a population: the number of creatures, of
    /// herbivores and of carnivores, and the mean of each trait over each of
    /// the three. Where a diet has no creature its means are a half each;
    /// the means of an empty population are nothing.
    pub open spec fn spec_collect(cs: Seq<Creature>) -> Stats {
        let n = cs.len() as int;
        Stats {
            all: means(tally(cs, None, n), 0),
            count: cs.len() as usize,
            herbivores: means(tally(cs, Some(Diet::Herbivore), n), UNIT / 2),
            herbivores_count: tally(cs, Some(Diet::Herbivore), n).0 as usize,
            carnivores: means(tally(cs, Some(Diet::Carnivore), n), UNIT / 2),
            carnivores_count: tally(cs, Some(Diet::Carnivore), n).0 as usize,
        }
    }

    /// Collects the statistics of a population; see
    /// [`Stats::spec_collect`].
    pub fn collect(creatures: &[Creature]) -> (r: Stats)
        requires
            creatures@.len() <= POPULATION_MAX,
            population_traits_wf(creatures@),
        ensures
            r == Stats::spec_collect(creatures@),
            r.herbivores_count + r.carnivores_count == r.count,
    {
        let n = creatures.len();
        let mut all = (0i64, 0i64, 0i64, 0i64);
        let mut herbivores = (0i64, 0i64, 0i64, 0i64);
        let mut carnivores = (0i64, 0i64, 0i64, 0i64);
        let mut herbivores_count: usize = 0;
        let mut carnivores_count: usize = 0;
        let mut k: usize = 0;
        while k < n
            invariant
                k <= n == creatures@.len(),
                n <= POPULATION_MAX,
                population_traits_wf(creatures@),
                (k as int, all.0 as int, all.1 as int, all.2 as int, all.3 as int) == tally(
                    creatures@,
                    None,
                    k as int,
                ),
                (
                    herbivores_count as int,
                    herbivores.0 as int,
                    herbivores.1 as int,
                    herbivores.2 as int,
                    herbivores.3 as int,
                ) == tally(creatures@, Some(Diet::Herbivore), k as int),
                (
                    carnivores_count as int,
                    carnivores.0 as int,
                    carnivores.1 as int,
                    carnivores.2 as int,
                    carnivores.3 as int,
                ) == tally(creatures@, Some(Diet::Carnivore), k as int),
                herbivores_count + carnivores_count == k,
            decreases n - k,
        {
            let c = creatures[k];
            proof {
                assert(creatures@[k as int].traits_wf());
                lemma_tally_bounds(creatures@, None, k as int);
                lemma_tally_bounds(creatures@, Some(Diet::Herbivore), k as int);
                lemma_tally_bounds(creatures@, Some(Diet::Carnivore), k as int);
                assert(k * TRAIT_TOTAL <= POPULATION_MAX * TRAIT_TOTAL) by (nonlinear_arith)
                    requires
                        k <= POPULATION_MAX,
                ;
                assert(herbivores_count * TRAIT_TOTAL <= POPULATION_MAX * TRAIT_TOTAL)
                    by (nonlinear_arith)
                    requires
                        herbivores_count <= POPULATION_MAX,
                ;
                assert(carnivores_count * TRAIT_TOTAL <= POPULATION_MAX * TRAIT_TOTAL)
                    by (nonlinear_arith)
                    requires
                        carnivores_count <= POPULATION_MAX,
                ;
            }
            all = (all.0 + c.speed, all.1 + c.stamina, all.2 + c.fov, all.3 + c.size);
            match c.diet {
                Diet::Herbivore => {
                    herbivores = (
                        herbivores.0 + c.speed,
                        herbivores.1 + c.stamina,
                        herbivores.2 + c.fov,
                        herbivores.3 + c.size,
                    );
                    herbivores_count += 1;
                },
                Diet::Carnivore => {
                    carnivores = (
                        carnivores.0 + c.speed,
                        carnivores.1 + c.stamina,
                        carnivores.2 + c.fov,
                        carnivores.3 + c.size,
                    );
                    carnivores_count += 1;
                },
            }
            k += 1;
        }
        proof {
            lemma_tally_bounds(creatures@, None, n as int);
            lemma_tally_bounds(creatures@, Some(Diet::Herbivore), n as int);
            lemma_tally_bounds(creatures@, Some(Diet::Carnivore), n as int);
        }
        Stats {
            all: means_of(n, all.0, all.1, all.2, all.3, 0),
            count: n,
            herbivores: means_of(
                herbivores_count,
                herbivores.0,
                herbivores.1,
                herbivores.2,
                herbivores.3,
                UNIT / 2,
            ),
            herbivores_count: herbivores_count,
            carnivores: means_of(
                carnivores_count,
                carnivores.0,
                carnivores.1,
                carnivores.2,
                carnivores.3,
                UNIT / 2,
            ),
            carnivores_count: carnivores_count,
        }
    }
}

} // verus!
