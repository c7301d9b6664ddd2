//! Mutation: noise on the traits, and now and then a change of diet.

use vstd::prelude::*;
use crate::creature::{colour_of, normalize, normalized, Creature};
use crate::fixed::UNIT;
use crate::opts::{Opts, KNOB_MAX};
use crate::selection::population_wf;
use crate::rng::{draw_range, draw_ratio};
use rand::rngs::SmallRng;

verus! {

/// The probability with which a mutation of the scale `scale` changes the
/// diet: half the scale, and no more than a half.
pub open spec fn flip_chance(scale: int) -> int {
    if scale / 2 < UNIT / 2 {
        scale / 2
    } else {
        UNIT as int / 2
    }
}

impl Creature {
    /// The creature after a mutation that adds the given noise to its
    /// traits and, if `flip` says so, changes its diet. The traits are
    /// brought back to the total of two. The energy stays.
    pub open spec fn spec_mutated(
        self,
        speed: int,
        stamina: int,
        fov: int,
        size: int,
        flip: bool,
    ) -> Creature {
        let n = normalized(
            self.speed + speed,
            self.stamina + stamina,
            self.fov + fov,
            self.size + size,
        );
        Creature {
            energy: self.energy,
            speed: n.0 as i64,
            stamina: n.1 as i64,
            fov: n.2 as i64,
            size: n.3 as i64,
            diet: if flip {
                self.diet.spec_opposite()
            } else {
                self.diet
            },
            colour: colour_of(n.0, n.1, n.2),
        }
    }

    /// Mutates the creature with the given noise; see
    /// [`Creature::spec_mutated`].
    pub fn mutate_with(&mut self, speed: i64, stamina: i64, fov: i64, size: i64, flip: bool)
        requires
            old(self).traits_wf(),
            0 <= speed <= KNOB_MAX,
            0 <= stamina <= KNOB_MAX,
            0 <= fov <= KNOB_MAX,
            0 <= size <= KNOB_MAX,
        ensures
            *final(self) == old(self).spec_mutated(
                speed as int,
                stamina as int,
                fov as int,
                size as int,
                flip,
            ),
            final(self).traits_wf(),
            final(self).coloured(),
            final(self).energy == old(self).energy,
    {
        let n = normalize(
            self.speed + speed,
            self.stamina + stamina,
            self.fov + fov,
            self.size + size,
        );
        self.speed = n.0;
        self.stamina = n.1;
        self.fov = n.2;
        self.size = n.3;
        if flip {
            self.diet = self.diet.opposite();
        }
        self.colour = Creature::colour(self.speed, self.stamina, self.fov);
    }

    /// Mutates the creature: draws the noise for each trait between nothing
    /// and `scale`, and changes the diet with the probability of half the
    /// scale, and no more than a half.
    pub fn mutate(&mut self, scale: i64, rng: &mut SmallRng)
        requires
            old(self).traits_wf(),
            0 <= scale <= KNOB_MAX,
        ensures
            final(self).traits_wf(),
            final(self).coloured(),
            final(self).energy == old(self).energy,
            exists|a: int, b: int, c: int, d: int, flip: bool|
                0 <= a <= scale && 0 <= b <= scale && 0 <= c <= scale && 0 <= d <= scale && (a
                    < scale || scale == 0) && (b < scale || scale == 0) && (c < scale || scale
                    == 0) && (d < scale || scale == 0) && *final(self)
                    == #[trigger] old(self).spec_mutated(a, b, c, d, flip),
            flip_chance(scale as int) == 0 ==> final(self).diet == old(self).diet,
    {
        let speed = draw_noise(scale, rng);
        let stamina = draw_noise(scale, rng);
        let fov = draw_noise(scale, rng);
        let size = draw_noise(scale, rng);
        let chance: i64 = if scale / 2 < UNIT / 2 {
            scale / 2
        } else {
            UNIT / 2
        };
        assert(chance == flip_chance(scale as int));
        let flip = draw_ratio(rng, chance as u32, UNIT as u32);
        let ghost before = *self;
        self.mutate_with(speed, stamina, fov, size, flip);
        assert(*self == before.spec_mutated(
            speed as int,
            stamina as int,
            fov as int,
            size as int,
            flip,
        ));
    }
}

/// The creature `after` is the creature `before` as it enters a new
/// generation: mutated or not, and with the energy that every creature
/// starts with. Where the probability of a mutation is nothing, it has not
/// mutated.
pub open spec fn is_renewed(before: Creature, after: Creature, opts: Opts) -> bool {
    ||| after == before.spec_rested(opts)
    ||| opts.mutation_probability > 0 && exists|a: int, b: int, c: int, d: int, flip: bool|
        0 <= a <= opts.mutation_scale && 0 <= b <= opts.mutation_scale && 0 <= c
            <= opts.mutation_scale && 0 <= d <= opts.mutation_scale && after == (
        #[trigger] before.spec_mutated(a, b, c, d, flip)).spec_rested(opts)
}

impl Creature {
    /// The creature with the energy that every creature starts with.
    pub open spec fn spec_rested(self, opts: Opts) -> Creature {
        Creature { energy: opts.start_energy, ..self }
    }

    /// Leads a population into a new generation: each creature mutates with
    /// the configured probability, and each gets the energy that every
    /// creature starts with.
    pub fn renew(creatures: &mut Vec<Creature>, opts: &Opts, rng: &mut SmallRng)
        requires
            opts.wf(),
            population_wf(old(creatures)@, *opts),
        ensures
            final(creatures)@.len() == old(creatures)@.len(),
            population_wf(final(creatures)@, *opts),
            forall|k: int|
                0 <= k < final(creatures)@.len() ==> is_renewed(
                    old(creatures)@[k],
                    #[trigger] final(creatures)@[k],
                    *opts,
                ),
    {
        let ghost cs = creatures@;
        let n = creatures.len();
        let mut k: usize = 0;
        while k < n
            invariant
                k <= n == cs.len(),
                creatures@.len() == n,
                opts.wf(),
                population_wf(cs, *opts),
                population_wf(creatures@, *opts),
                forall|j: int| k <= j < n ==> creatures@[j] == cs[j],
                forall|j: int| 0 <= j < k ==> is_renewed(cs[j], #[trigger] creatures@[j], *opts),
            decreases n - k,
        {
            let mut c = creatures[k];
            assert(cs[k as int].wf(*opts));
            let ghost before = c;
            if draw_ratio(rng, opts.mutation_probability as u32, UNIT as u32) {
                c.mutate(opts.mutation_scale, rng);
            }
            let ghost changed = c;
            c.energy = opts.start_energy;
            assert(c == changed.spec_rested(*opts));
            creatures.set(k, c);
            k += 1;
        }
    }
}

/// Draws the noise for one trait: between nothing and `scale`, and nothing
/// where the scale is nothing.
fn draw_noise(scale: i64, rng: &mut SmallRng) -> (r: i64)
    requires
        0 <= scale,
    ensures
        0 <= r <= scale,
        r < scale || scale == 0,
{
    if scale > 0 {
        draw_range(rng, 0, scale)
    } else {
        0
    }
}

} // verus!
