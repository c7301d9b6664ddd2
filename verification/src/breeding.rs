//! Breeding: a child blends the traits of two parents.

use vstd::prelude::*;
use crate::creature::{
    colour_of, lemma_normalized_fixpoint, normalize, normalized, Creature, TRAIT_TOTAL,
};
use crate::fixed::{lemma_div_bounds, lemma_div_exact, UNIT};
use crate::opts::Opts;
use crate::rng::draw_range;
use rand::rngs::SmallRng;

verus! {

/// A trait blended of the traits `t1` and `t2` of two parents, of which the
/// first weighs `f` and the second the rest of one.
pub open spec fn blend_trait(t1: int, t2: int, f: int) -> int {
    (t1 * f + t2 * (UNIT - f)) / (UNIT as int)
}

/// A blended trait lies between nothing and two, and rounding has taken
/// less than one step from it.
pub proof fn lemma_blend_trait(t1: int, t2: int, f: int)
    requires
        0 <= t1 <= TRAIT_TOTAL,
        0 <= t2 <= TRAIT_TOTAL,
        0 <= f <= UNIT,
    ensures
        0 <= t1 * f <= TRAIT_TOTAL * UNIT,
        0 <= t2 * (UNIT - f) <= TRAIT_TOTAL * UNIT,
        0 <= t1 * f + t2 * (UNIT - f) <= TRAIT_TOTAL * UNIT,
        0 <= blend_trait(t1, t2, f) <= TRAIT_TOTAL,
        t1 * f + t2 * (UNIT - f) - UNIT < blend_trait(t1, t2, f) * UNIT <= t1 * f + t2 * (UNIT
            - f),
{
    let g = UNIT - f;
    let tu = TRAIT_TOTAL * UNIT;
    assert(0 <= t1 * f <= TRAIT_TOTAL * f) by (nonlinear_arith)
        requires
            0 <= t1 <= TRAIT_TOTAL,
            0 <= f,
    ;
    assert(0 <= t2 * g <= TRAIT_TOTAL * g) by (nonlinear_arith)
        requires
            0 <= t2 <= TRAIT_TOTAL,
            0 <= g,
    ;
    lemma_div_bounds(t1 * f + t2 * g, UNIT as int);
}

impl Creature {
    /// The child of two creatures, of which the first weighs `factor` and
    /// the second the rest of one. Each trait is blended of the parents'
    /// traits, and the four are brought to the total of two. The child eats
    /// what the parent of the greater weight eats, and the first parent's food
    /// if both weigh the same. It starts with the energy that every creature
    /// starts with.
    pub open spec fn spec_blend(c1: Creature, c2: Creature, factor: int, opts: Opts) -> Creature {
        let n = normalized(
            blend_trait(c1.speed as int, c2.speed as int, factor),
            blend_trait(c1.stamina as int, c2.stamina as int, factor),
            blend_trait(c1.fov as int, c2.fov as int, factor),
            blend_trait(c1.size as int, c2.size as int, factor),
        );
        Creature {
            energy: opts.start_energy,
            speed: n.0 as i64,
            stamina: n.1 as i64,
            fov: n.2 as i64,
            size: n.3 as i64,
            diet: if 2 * factor >= UNIT {
                c1.diet
            } else {
                c2.diet
            },
            colour: colour_of(n.0, n.1, n.2),
        }
    }

    /// Makes the child of two creatures for a given weight of the first;
    /// see [`Creature::spec_blend`].
    pub fn blend(creature_1: &Creature, creature_2: &Creature, factor: i64, opts: &Opts) -> (r:
        Creature)
        requires
            opts.wf(),
            creature_1.traits_wf(),
            creature_2.traits_wf(),
            0 <= factor <= UNIT,
        ensures
            r == Creature::spec_blend(*creature_1, *creature_2, factor as int, *opts),
            r.wf(*opts),
    {
        proof {
            lemma_blend_total(*creature_1, *creature_2, factor as int);
        }
        let rest: i64 = UNIT - factor;
        let speed: i64 = (creature_1.speed * factor + creature_2.speed * rest) / UNIT;
        let stamina: i64 = (creature_1.stamina * factor + creature_2.stamina * rest) / UNIT;
        let fov: i64 = (creature_1.fov * factor + creature_2.fov * rest) / UNIT;
        let size: i64 = (creature_1.size * factor + creature_2.size * rest) / UNIT;
        let n = normalize(speed, stamina, fov, size);
        Creature {
            energy: opts.start_energy,
            speed: n.0,
            stamina: n.1,
            fov: n.2,
            size: n.3,
            diet: if 2 * factor >= UNIT {
                creature_1.diet
            } else {
                creature_2.diet
            },
            colour: Creature::colour(n.0, n.1, n.2),
        }
    }

    /// Breeds two creatures: draws the weight of the first parent between
    /// zero and one, and makes the child.
    pub fn breed(creature_1: &Creature, creature_2: &Creature, opts: &Opts, rng: &mut SmallRng) -> (r:
        Creature)
        requires
            opts.wf(),
            creature_1.traits_wf(),
            creature_2.traits_wf(),
        ensures
            r.wf(*opts),
            r.energy == opts.start_energy,
            exists|factor: int|
                0 <= factor < UNIT && r == #[trigger] Creature::spec_blend(
                    *creature_1,
                    *creature_2,
                    factor,
                    *opts,
                ),
    {
        let factor = draw_range(rng, 0, UNIT);
        let r = Creature::blend(creature_1, creature_2, factor, opts);
        assert(r == Creature::spec_blend(*creature_1, *creature_2, factor as int, *opts));
        r
    }
}

/// The four blended traits of a child add up to two, or to as much as three
/// steps less.
pub proof fn lemma_blend_total(c1: Creature, c2: Creature, f: int)
    requires
        c1.traits_wf(),
        c2.traits_wf(),
        0 <= f <= UNIT,
    ensures
        ({
            let a = blend_trait(c1.speed as int, c2.speed as int, f);
            let b = blend_trait(c1.stamina as int, c2.stamina as int, f);
            let c = blend_trait(c1.fov as int, c2.fov as int, f);
            let d = blend_trait(c1.size as int, c2.size as int, f);
            &&& 0 <= a <= TRAIT_TOTAL
            &&& 0 <= b <= TRAIT_TOTAL
            &&& 0 <= c <= TRAIT_TOTAL
            &&& 0 <= d <= TRAIT_TOTAL
            &&& TRAIT_TOTAL - 3 <= a + b + c + d <= TRAIT_TOTAL
            &&& 0 <= c1.speed * f <= TRAIT_TOTAL * UNIT
            &&& 0 <= c2.speed * (UNIT - f) <= TRAIT_TOTAL * UNIT
            &&& 0 <= c1.stamina * f <= TRAIT_TOTAL * UNIT
            &&& 0 <= c2.stamina * (UNIT - f) <= TRAIT_TOTAL * UNIT
            &&& 0 <= c1.fov * f <= TRAIT_TOTAL * UNIT
            &&& 0 <= c2.fov * (UNIT - f) <= TRAIT_TOTAL * UNIT
            &&& 0 <= c1.size * f <= TRAIT_TOTAL * UNIT
            &&& 0 <= c2.size * (UNIT - f) <= TRAIT_TOTAL * UNIT
        }),
{
    let g = UNIT - f;
    lemma_blend_trait(c1.speed as int, c2.speed as int, f);
    lemma_blend_trait(c1.stamina as int, c2.stamina as int, f);
    lemma_blend_trait(c1.fov as int, c2.fov as int, f);
    lemma_blend_trait(c1.size as int, c2.size as int, f);
    assert(c1.speed * f + c1.stamina * f + c1.fov * f + c1.size * f == TRAIT_TOTAL * f)
        by (nonlinear_arith)
        requires
            c1.speed + c1.stamina + c1.fov + c1.size == TRAIT_TOTAL,
    ;
    assert(c2.speed * g + c2.stamina * g + c2.fov * g + c2.size * g == TRAIT_TOTAL * g)
        by (nonlinear_arith)
        requires
            c2.speed + c2.stamina + c2.fov + c2.size == TRAIT_TOTAL,
    ;
}

/// The child of two creatures with the same traits has their traits,
/// whatever the weights of the parents.
pub proof fn lemma_blend_of_equals(c1: Creature, c2: Creature, factor: int, opts: Opts)
    requires
        c1.traits_wf(),
        c1.speed == c2.speed,
        c1.stamina == c2.stamina,
        c1.fov == c2.fov,
        c1.size == c2.size,
    ensures
        Creature::spec_blend(c1, c2, factor, opts).speed == c1.speed,
        Creature::spec_blend(c1, c2, factor, opts).stamina == c1.stamina,
        Creature::spec_blend(c1, c2, factor, opts).fov == c1.fov,
        Creature::spec_blend(c1, c2, factor, opts).size == c1.size,
{
    lemma_blend_same(c1.speed as int, factor);
    lemma_blend_same(c1.stamina as int, factor);
    lemma_blend_same(c1.fov as int, factor);
    lemma_blend_same(c1.size as int, factor);
    lemma_normalized_fixpoint(c1.speed as int, c1.stamina as int, c1.fov as int, c1.size as int);
}

/// A trait blended with itself is itself.
pub proof fn lemma_blend_same(t: int, f: int)
    ensures
        blend_trait(t, t, f) == t,
{
    assert(t * f + t * (UNIT - f) == t * UNIT) by (nonlinear_arith);
    lemma_div_exact(t, UNIT as int);
}

} // verus!
