//! Selection: the survivors of a generation breed until the population is
//! full again, each chosen as a parent in proportion to its energy.

use vstd::prelude::*;
use crate::creature::Creature;
use crate::fixed::UNIT;
use crate::opts::{Opts, ENERGY_CAP, POPULATION_MAX};
use crate::rng::draw_range;
use rand::rngs::SmallRng;

verus! {

/// Every creature of the population is well formed.
pub open spec fn population_wf(cs: Seq<Creature>, opts: Opts) -> bool {
    forall|k: int| 0 <= k < cs.len() ==> (#[trigger] cs[k]).wf(opts)
}

/// The energy of the first `n` creatures together.
pub open spec fn energy_of_first(cs: Seq<Creature>, n: int) -> int
    decreases n,
{
    if n <= 0 {
        0
    } else {
        energy_of_first(cs, n - 1) + cs[n - 1].energy
    }
}

/// The energy of the whole population.
pub open spec fn total_energy(cs: Seq<Creature>) -> int {
    energy_of_first(cs, cs.len() as int)
}

/// The creature at `k` holds the ticket `ticket` among the first `n`:
/// counting the energy of the creatures in the order of the list, the ticket
/// falls into the share of that creature. So each creature holds as many
/// tickets as it has energy.
pub open spec fn holds_ticket(cs: Seq<Creature>, n: int, ticket: int, k: int) -> bool {
    &&& 0 <= k < n
    &&& energy_of_first(cs, k) <= ticket < energy_of_first(cs, k + 1)
}

/// The energy of the first creatures depends on those alone.
pub proof fn lemma_energy_prefix(a: Seq<Creature>, b: Seq<Creature>, n: int)
    requires
        0 <= n <= a.len(),
        n <= b.len(),
        forall|k: int| 0 <= k < n ==> a[k] == b[k],
    ensures
        energy_of_first(a, n) == energy_of_first(b, n),
    decreases n,
{
    if n > 0 {
        lemma_energy_prefix(a, b, n - 1);
    }
}

/// More creatures have no less energy together, and as many creatures have
/// no more than each may have.
pub proof fn lemma_energy_monotonic(cs: Seq<Creature>, opts: Opts, m: int, n: int)
    requires
        0 <= m <= n <= cs.len(),
        opts.wf(),
        population_wf(cs, opts),
    ensures
        0 <= energy_of_first(cs, m) <= energy_of_first(cs, n) <= n * ENERGY_CAP,
    decreases n,
{
    if n > 0 {
        assert(cs[n - 1].wf(opts));
        if m < n {
            lemma_energy_monotonic(cs, opts, m, n - 1);
        } else {
            lemma_energy_monotonic(cs, opts, n - 1, n - 1);
        }
    }
}

/// Only one creature holds a ticket.
pub proof fn lemma_ticket_unique(cs: Seq<Creature>, opts: Opts, n: int, ticket: int, j: int, k: int)
    requires
        n <= cs.len(),
        opts.wf(),
        population_wf(cs, opts),
        holds_ticket(cs, n, ticket, j),
        holds_ticket(cs, n, ticket, k),
    ensures
        j == k,
{
    if j < k {
        lemma_energy_monotonic(cs, opts, j + 1, k);
    } else if k < j {
        lemma_energy_monotonic(cs, opts, k + 1, j);
    }
}

/// Finds the creature among the first `n` that holds the ticket `ticket`.
pub fn pick_parent(creatures: &Vec<Creature>, n: usize, ticket: i64, opts: &Opts) -> (k: usize)
    requires
        opts.wf(),
        n <= creatures@.len() <= POPULATION_MAX,
        population_wf(creatures@, *opts),
        0 <= ticket < energy_of_first(creatures@, n as int),
    ensures
        holds_ticket(creatures@, n as int, ticket as int, k as int),
        creatures@[k as int].energy > 0,
{
    let mut sum: i64 = 0;
    let mut k: usize = 0;
    while k < n
        invariant
            k <= n <= creatures@.len() <= POPULATION_MAX,
            opts.wf(),
            population_wf(creatures@, *opts),
            sum == energy_of_first(creatures@, k as int),
            sum <= ticket < energy_of_first(creatures@, n as int),
        decreases n - k,
    {
        proof {
            lemma_energy_monotonic(creatures@, *opts, k as int + 1, n as int);
            assert(n * ENERGY_CAP <= POPULATION_MAX * ENERGY_CAP) by (nonlinear_arith)
                requires
                    n <= POPULATION_MAX,
            ;
        }
        let next: i64 = sum + creatures[k].energy;
        if ticket < next {
            return k;
        }
        sum = next;
        k += 1;
    }
    0
}

/// The creature `child` is an offspring of the population `parents`: the
/// child of two of its members. Where the population has energy, both
/// parents have.
pub open spec fn is_offspring(parents: Seq<Creature>, child: Creature, opts: Opts) -> bool {
    exists|a: int, b: int, factor: int|
        {
            &&& 0 <= a < parents.len()
            &&& 0 <= b < parents.len()
            &&& 0 <= factor < UNIT
            &&& total_energy(parents) > 0 ==> parents[a].energy > 0 && parents[b].energy > 0
            &&& child == #[trigger] Creature::spec_blend(parents[a], parents[b], factor, opts)
        }
}

/// Draws a parent among the first `n` creatures, which have the energy
/// `total` together: in proportion to its energy where there is energy, and
/// any of them with the same chance where there is none.
fn draw_parent(creatures: &Vec<Creature>, n: usize, total: i64, opts: &Opts, rng: &mut SmallRng) -> (k:
    usize)
    requires
        opts.wf(),
        0 < n <= creatures@.len() <= POPULATION_MAX,
        population_wf(creatures@, *opts),
        total == energy_of_first(creatures@, n as int),
    ensures
        k < n,
        total > 0 ==> creatures@[k as int].energy > 0,
{
    if total > 0 {
        let ticket = draw_range(rng, 0, total);
        pick_parent(creatures, n, ticket, opts)
    } else {
        draw_range(rng, 0, n as i64) as usize
    }
}

impl Creature {
    /// Fills the population up to `qty` creatures with the offspring of
    /// those that are there. Each parent is drawn in proportion to its energy;
    /// where no creature has energy, each is as likely as any other. The
    /// creatures that are there stay, and no offspring becomes a parent in the
    /// same call. An empty population stays empty.
    pub fn select(creatures: &mut Vec<Creature>, qty: usize, opts: &Opts, rng: &mut SmallRng)
        requires
            opts.wf(),
            old(creatures)@.len() <= POPULATION_MAX,
            qty <= POPULATION_MAX,
            population_wf(old(creatures)@, *opts),
        ensures
            population_wf(final(creatures)@, *opts),
            final(creatures)@.len() == if old(creatures)@.len() == 0 || old(creatures)@.len()
                >= qty {
                old(creatures)@.len()
            } else {
                qty as nat
            },
            forall|k: int|
                0 <= k < old(creatures)@.len() ==> final(creatures)@[k] == old(creatures)@[k],
            forall|k: int|
                old(creatures)@.len() <= k < final(creatures)@.len() ==> is_offspring(
                    old(creatures)@,
                    #[trigger] final(creatures)@[k],
                    *opts,
                ),
    {
        let ghost cs = creatures@;
        let n = creatures.len();
        if n == 0 {
            return ;
        }
        let mut total: i64 = 0;
        let mut j: usize = 0;
        while j < n
            invariant
                j <= n == cs.len(),
                n <= POPULATION_MAX,
                creatures@ == cs,
                opts.wf(),
                population_wf(cs, *opts),
                total == energy_of_first(cs, j as int),
            decreases n - j,
        {
            proof {
                lemma_energy_monotonic(cs, *opts, j as int + 1, n as int);
                assert(n * ENERGY_CAP <= POPULATION_MAX * ENERGY_CAP) by (nonlinear_arith)
                    requires
                        n <= POPULATION_MAX,
                ;
            }
            total = total + creatures[j].energy;
            j += 1;
        }
        while creatures.len() < qty
            invariant
                0 < n == cs.len(),
                n <= creatures@.len(),
                creatures@.len() <= qty || creatures@.len() == n,
                qty <= POPULATION_MAX,
                n <= POPULATION_MAX,
                opts.wf(),
                population_wf(creatures@, *opts),
                total == energy_of_first(cs, n as int),
                forall|k: int| 0 <= k < n ==> creatures@[k] == cs[k],
                forall|k: int|
                    n <= k < creatures@.len() ==> is_offspring(cs, #[trigger] creatures@[k], *opts),
            decreases qty - creatures.len(),
        {
            proof {
                lemma_energy_prefix(creatures@, cs, n as int);
            }
            let i1 = draw_parent(creatures, n, total, opts, rng);
            let i2 = draw_parent(creatures, n, total, opts, rng);
            let c1 = creatures[i1];
            let c2 = creatures[i2];
            assert(creatures@[i1 as int].wf(*opts));
            assert(creatures@[i2 as int].wf(*opts));
            let c = Creature::breed(&c1, &c2, opts, rng);
            proof {
                let factor = choose|factor: int|
                    0 <= factor < UNIT && c == #[trigger] Creature::spec_blend(
                        c1,
                        c2,
                        factor,
                        *opts,
                    );
                assert(c == Creature::spec_blend(cs[i1 as int], cs[i2 as int], factor, *opts));
                assert(is_offspring(cs, c, *opts));
            }
            creatures.push(c);
        }
    }
}

} // verus!
