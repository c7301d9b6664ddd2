//! Creatures: their traits, what the traits amount to in the world, and who
//! may eat whom.

use vstd::prelude::*;
use crate::fixed::{UNIT, clamp, lemma_div_bounds, lemma_div_exact, lemma_div_monotonic};
use crate::opts::{Opts, KNOB_MAX};
use crate::rng::{draw_range, draw_ratio};
use crate::vector::{lemma_with_magnitude_bound, world_wf, Point2, Vector2};
use rand::rngs::SmallRng;

verus! {

/// The four traits of a creature always add up to this: two.
pub const TRAIT_TOTAL: i64 = 2_000_000;

/// The largest raw value that [`normalize`] accepts for one trait.
pub const RAW_MAX: i64 = 1_000_000_000_000;

/// A carnivore eats a herbivore that is larger than itself by no more than
/// this: a quarter.
pub const PREY_MARGIN: i64 = 250_000;

/// The largest component of a direction.
pub const DIR_MAX: i64 = 4_000_000_000_000;

/// What a creature eats.
#[derive(Debug, Copy, Clone, Ord, PartialOrd, Eq, PartialEq, Hash, Structural)]
pub enum Diet {
    Herbivore,
    Carnivore,
}

impl Diet {
    /// The other diet.
    pub open spec fn spec_opposite(self) -> Diet {
        match self {
            Diet::Herbivore => Diet::Carnivore,
            Diet::Carnivore => Diet::Herbivore,
        }
    }

    /// The other diet.
    pub fn opposite(self) -> (r: Diet)
        ensures
            r == self.spec_opposite(),
    {
        match self {
            Diet::Herbivore => Diet::Carnivore,
            Diet::Carnivore => Diet::Herbivore,
        }
    }
}

/// The colour in which a creature is shown.
#[derive(Debug, Copy, Clone, Eq, PartialEq, Structural)]
pub struct Colour {
    pub r: u8,
    pub g: u8,
    pub b: u8,
}

/// The colour channel that shows a trait: the trait times 255, cut off at
/// the channel's range.
pub open spec fn channel(t: int) -> int {
    clamp((t * 255) / (UNIT as int), 0, 255)
}

/// The colour that shows the traits speed, stamina and field of view as red,
/// green and blue.
pub open spec fn colour_of(speed: int, stamina: int, fov: int) -> Colour {
    Colour { r: channel(speed) as u8, g: channel(stamina) as u8, b: channel(fov) as u8 }
}

/// Four raw trait values brought to the total of two, keeping their
/// proportions. The first three are rounded down; the fourth takes what is
/// left, so that the total is exact.
pub open spec fn normalized(a: int, b: int, c: int, d: int) -> (int, int, int, int) {
    let s = a + b + c + d;
    let na = (a * TRAIT_TOTAL) / s;
    let nb = (b * TRAIT_TOTAL) / s;
    let nc = (c * TRAIT_TOTAL) / s;
    (na, nb, nc, TRAIT_TOTAL - na - nb - nc)
}

/// Normalized traits are natural numbers with the total of two.
pub proof fn lemma_normalized_total(a: int, b: int, c: int, d: int)
    requires
        0 <= a,
        0 <= b,
        0 <= c,
        0 <= d,
        0 < a + b + c + d,
    ensures
        ({
            let n = normalized(a, b, c, d);
            &&& 0 <= n.0 <= TRAIT_TOTAL
            &&& 0 <= n.1 <= TRAIT_TOTAL
            &&& 0 <= n.2 <= TRAIT_TOTAL
            &&& 0 <= n.3 <= TRAIT_TOTAL
            &&& n.0 + n.1 + n.2 + n.3 == TRAIT_TOTAL
        }),
{
    let s = a + b + c + d;
    let t = TRAIT_TOTAL as int;
    let n = normalized(a, b, c, d);
    assert(0 <= a * t && 0 <= b * t && 0 <= c * t) by (nonlinear_arith)
        requires
            0 <= a,
            0 <= b,
            0 <= c,
            0 <= t,
    ;
    lemma_div_bounds(a * t, s);
    lemma_div_bounds(b * t, s);
    lemma_div_bounds(c * t, s);
    assert((n.0 + n.1 + n.2) * s == n.0 * s + n.1 * s + n.2 * s) by (nonlinear_arith);
    assert((a + b + c) * t == a * t + b * t + c * t) by (nonlinear_arith);
    assert((a + b + c) * t <= s * t) by (nonlinear_arith)
        requires
            a + b + c <= s,
            0 <= t,
    ;
    assert(n.0 + n.1 + n.2 <= t) by (nonlinear_arith)
        requires
            (n.0 + n.1 + n.2) * s <= s * t,
            0 < s,
    ;
}

/// Traits that already have the total of two are their own normal form.
pub proof fn lemma_normalized_fixpoint(a: int, b: int, c: int, d: int)
    requires
        a + b + c + d == TRAIT_TOTAL,
    ensures
        normalized(a, b, c, d) == (a, b, c, d),
{
    lemma_div_exact(a, TRAIT_TOTAL as int);
    lemma_div_exact(b, TRAIT_TOTAL as int);
    lemma_div_exact(c, TRAIT_TOTAL as int);
}

/// Brings four raw trait values to the total of two; see [`normalized`].
pub fn normalize(a: i64, b: i64, c: i64, d: i64) -> (r: (i64, i64, i64, i64))
    requires
        0 <= a <= RAW_MAX,
        0 <= b <= RAW_MAX,
        0 <= c <= RAW_MAX,
        0 <= d <= RAW_MAX,
        0 < a + b + c + d,
    ensures
        (r.0 as int, r.1 as int, r.2 as int, r.3 as int) == normalized(
            a as int,
            b as int,
            c as int,
            d as int,
        ),
        0 <= r.0 <= TRAIT_TOTAL,
        0 <= r.1 <= TRAIT_TOTAL,
        0 <= r.2 <= TRAIT_TOTAL,
        0 <= r.3 <= TRAIT_TOTAL,
        r.0 + r.1 + r.2 + r.3 == TRAIT_TOTAL,
{
    proof {
        lemma_normalized_total(a as int, b as int, c as int, d as int);
    }
    let s: i64 = a + b + c + d;
    let na: i64 = (a * TRAIT_TOTAL) / s;
    let nb: i64 = (b * TRAIT_TOTAL) / s;
    let nc: i64 = (c * TRAIT_TOTAL) / s;
    (na, nb, nc, TRAIT_TOTAL - na - nb - nc)
}

/// A creature, as it passes from one generation to the next.
#[derive(Debug, Copy, Clone, Eq, PartialEq, Structural)]
pub struct Creature {
    /// What the creature has left to live on.
    pub energy: i64,
    /// The four traits, which add up to two.
    pub speed: i64,
    pub stamina: i64,
    pub fov: i64,
    pub size: i64,
    /// What the creature eats.
    pub diet: Diet,
    /// The colour that shows the traits.
    pub colour: Colour,
}

impl Creature {
    /// The four traits are natural numbers that add up to two.
    pub open spec fn traits_wf(self) -> bool {
        &&& 0 <= self.speed
        &&& 0 <= self.stamina
        &&& 0 <= self.fov
        &&& 0 <= self.size
        &&& self.speed + self.stamina + self.fov + self.size == TRAIT_TOTAL
    }

    /// The colour shows the traits.
    pub open spec fn coloured(self) -> bool {
        self.colour == colour_of(self.speed as int, self.stamina as int, self.fov as int)
    }

    /// The creature is well formed under a configuration: its traits add up
    /// to two, its energy lies between zero and the maximal energy, and its
    /// colour shows its traits.
    pub open spec fn wf(self, opts: Opts) -> bool {
        &&& self.traits_wf()
        &&& 0 <= self.energy <= opts.max_energy
        &&& self.coloured()
    }

    /// The creature that comes of four draws and the toss of a coin: its
    /// traits are the draws, brought to the total of two; it is a carnivore
    /// if the coin says so; it has the energy that every creature starts
    /// with.
    pub open spec fn born(
        speed: int,
        stamina: int,
        fov: int,
        size: int,
        carnivore: bool,
        opts: Opts,
    ) -> Creature {
        let n = normalized(speed, stamina, fov, size);
        Creature {
            energy: opts.start_energy,
            speed: n.0 as i64,
            stamina: n.1 as i64,
            fov: n.2 as i64,
            size: n.3 as i64,
            diet: if carnivore {
                Diet::Carnivore
            } else {
                Diet::Herbivore
            },
            colour: colour_of(n.0, n.1, n.2),
        }
    }

    /// Makes a creature of four draws and the toss of a coin; see
    /// [`Creature::born`].
    pub fn from_draws(
        speed: i64,
        stamina: i64,
        fov: i64,
        size: i64,
        carnivore: bool,
        opts: &Opts,
    ) -> (r: Creature)
        requires
            opts.wf(),
            0 <= speed <= RAW_MAX,
            0 <= stamina <= RAW_MAX,
            0 <= fov <= RAW_MAX,
            0 <= size <= RAW_MAX,
            0 < speed + stamina + fov + size,
        ensures
            r == Creature::born(
                speed as int,
                stamina as int,
                fov as int,
                size as int,
                carnivore,
                *opts,
            ),
            r.wf(*opts),
    {
        let n = normalize(speed, stamina, fov, size);
        Creature {
            energy: opts.start_energy,
            speed: n.0,
            stamina: n.1,
            fov: n.2,
            size: n.3,
            diet: if carnivore {
                Diet::Carnivore
            } else {
                Diet::Herbivore
            },
            colour: Creature::colour(n.0, n.1, n.2),
        }
    }

    /// Makes a random creature: four draws between zero and one, none of
    /// them zero, and the toss of a fair coin.
    pub fn random(opts: &Opts, rng: &mut SmallRng) -> (r: Creature)
        requires
            opts.wf(),
        ensures
            r.wf(*opts),
            r.energy == opts.start_energy,
            exists|a: int, b: int, c: int, d: int, carnivore: bool|
                0 < a < UNIT && 0 < b < UNIT && 0 < c < UNIT && 0 < d < UNIT && r
                    == #[trigger] Creature::born(a, b, c, d, carnivore, *opts),
    {
        let speed = draw_range(rng, 1, UNIT);
        let stamina = draw_range(rng, 1, UNIT);
        let fov = draw_range(rng, 1, UNIT);
        let size = draw_range(rng, 1, UNIT);
        let carnivore = draw_ratio(rng, 1, 2);
        let r = Creature::from_draws(speed, stamina, fov, size, carnivore, opts);
        assert(r == Creature::born(
            speed as int,
            stamina as int,
            fov as int,
            size as int,
            carnivore,
            *opts,
        ));
        r
    }

    /// The distance that the creature covers in one tick, at most: its full
    /// speed when it hurries, and the configured fraction of it when not.
    pub open spec fn spec_speed(self, hurry: bool, opts: Opts) -> int {
        let full = opts.base_speed + (self.speed * opts.speed_factor) / (UNIT as int);
        if hurry {
            full
        } else {
            (full * opts.normal_speed) / (UNIT as int)
        }
    }

    /// The radius within which the creature sees.
    pub open spec fn spec_fov(self, opts: Opts) -> int {
        opts.base_fov + (self.fov * opts.fov_factor) / (UNIT as int)
    }

    /// The radius of the creature's body.
    pub open spec fn spec_size(self, opts: Opts) -> int {
        opts.base_size + (self.size * opts.size_factor) / (UNIT as int)
    }

    /// Whether the creature may eat `other`. A herbivore eats no creature. A
    /// carnivore eats any creature without energy; a herbivore whose size
    /// trait exceeds its own by no more than a quarter; and a carnivore whose
    /// size trait is less than its own.
    pub open spec fn spec_can_prey_on(self, other: Creature) -> bool {
        match self.diet {
            Diet::Herbivore => false,
            Diet::Carnivore => other.energy <= 0 || match other.diet {
                Diet::Herbivore => other.size - self.size <= PREY_MARGIN,
                Diet::Carnivore => self.size > other.size,
            },
        }
    }

    /// Tells whether the creature is well formed under `opts`.
    pub fn is_valid(&self, opts: &Opts) -> (r: bool)
        ensures
            r == self.wf(*opts),
    {
        if !(0 <= self.speed && self.speed <= TRAIT_TOTAL && 0 <= self.stamina && self.stamina
            <= TRAIT_TOTAL && 0 <= self.fov && self.fov <= TRAIT_TOTAL && 0 <= self.size
            && self.size <= TRAIT_TOTAL) {
            return false;
        }
        let c = Creature::colour(self.speed, self.stamina, self.fov);
        self.speed + self.stamina + self.fov + self.size == TRAIT_TOTAL && 0 <= self.energy
            && self.energy <= opts.max_energy && self.colour.r == c.r && self.colour.g == c.g
            && self.colour.b == c.b
    }

    /// The colour that shows three traits as red, green and blue.
    pub fn colour(speed: i64, stamina: i64, fov: i64) -> (c: Colour)
        ensures
            c == colour_of(speed as int, stamina as int, fov as int),
    {
        Colour { r: channel_of(speed), g: channel_of(stamina), b: channel_of(fov) }
    }

    /// The distance that the creature covers in one tick, at most.
    pub fn speed(&self, hurry: bool, opts: &Opts) -> (r: i64)
        requires
            self.traits_wf(),
            opts.wf(),
        ensures
            r == self.spec_speed(hurry, *opts),
            0 <= r <= SPEED_MAX,
            hurry ==> 1 <= r <= 3 * KNOB_MAX,
    {
        proof {
            lemma_speed_bounds(*self, *opts);
        }
        let full: i64 = opts.base_speed + (self.speed * opts.speed_factor) / UNIT;
        if hurry {
            full
        } else {
            ((full as i128 * opts.normal_speed as i128) / (UNIT as i128)) as i64
        }
    }

    /// The radius within which the creature sees.
    pub fn fov(&self, opts: &Opts) -> (r: i64)
        requires
            self.traits_wf(),
            opts.wf(),
        ensures
            r == self.spec_fov(*opts),
            0 <= r <= 3 * KNOB_MAX,
    {
        proof {
            lemma_reach_bounds(self.fov as int, opts.base_fov as int, opts.fov_factor as int);
        }
        opts.base_fov + (self.fov * opts.fov_factor) / UNIT
    }

    /// The radius of the creature's body.
    pub fn size(&self, opts: &Opts) -> (r: i64)
        requires
            self.traits_wf(),
            opts.wf(),
        ensures
            r == self.spec_size(*opts),
            0 <= r <= 3 * KNOB_MAX,
    {
        proof {
            lemma_reach_bounds(self.size as int, opts.base_size as int, opts.size_factor as int);
        }
        opts.base_size + (self.size * opts.size_factor) / UNIT
    }

    /// Whether the creature may eat `other`.
    pub fn can_prey_on(&self, other: &Creature) -> (r: bool)
        ensures
            r == self.spec_can_prey_on(*other),
    {
        match self.diet {
            Diet::Herbivore => false,
            Diet::Carnivore => {
                if other.energy <= 0 {
                    true
                } else {
                    match other.diet {
                        Diet::Herbivore => other.size as i128 - self.size as i128
                            <= PREY_MARGIN as i128,
                        Diet::Carnivore => self.size > other.size,
                    }
                }
            },
        }
    }
}

/// The rules of who may eat whom. A herbivore eats nobody. A carnivore eats
/// whatever has no energy; a living herbivore if that is larger than itself
/// by no more than a quarter; a living carnivore if that is smaller than
/// itself. So of two living creatures at most one eats the other, and no
/// living creature eats itself.
pub proof fn lemma_predation_rules(a: Creature, b: Creature)
    ensures
        a.diet == Diet::Herbivore ==> !a.spec_can_prey_on(b),
        a.diet == Diet::Carnivore && b.energy <= 0 ==> a.spec_can_prey_on(b),
        a.diet == Diet::Carnivore && b.diet == Diet::Herbivore && b.energy > 0 ==> (
        a.spec_can_prey_on(b) <==> b.size - a.size <= PREY_MARGIN),
        a.diet == Diet::Carnivore && b.diet == Diet::Carnivore && b.energy > 0 ==> (
        a.spec_can_prey_on(b) <==> a.size > b.size),
        a.energy > 0 && b.energy > 0 ==> !(a.spec_can_prey_on(b) && b.spec_can_prey_on(a)),
        a.energy > 0 ==> !a.spec_can_prey_on(a),
{
}

/// A creature in the world of one generation.
#[derive(Debug, Copy, Clone, Eq, PartialEq, Structural)]
pub struct LivingCreature {
    pub creature: Creature,
    /// Whether another creature has eaten this one.
    pub eaten: bool,
    pub position: Point2,
    /// The step that the creature took last; it carries over into the next.
    pub direction: Vector2,
}

impl LivingCreature {
    /// A creature is dead once it was eaten or has no energy left.
    pub open spec fn spec_is_dead(self) -> bool {
        self.eaten || self.creature.energy <= 0
    }

    /// The living creature is well formed under a configuration: the
    /// creature is, and its position and direction are within the range in
    /// which the world's arithmetic is defined.
    pub open spec fn wf(self, opts: Opts) -> bool {
        &&& self.creature.wf(opts)
        &&& self.position.wf()
        &&& -DIR_MAX <= self.direction.x <= DIR_MAX
        &&& -DIR_MAX <= self.direction.y <= DIR_MAX
    }

    /// The creature set down at the position `(px, py)`, facing the way of
    /// the vector `(dx, dy)`. Its first step has three quarters of the length
    /// of one and its speed trait together.
    pub open spec fn placed(creature: Creature, px: i64, py: i64, dx: i64, dy: i64) -> LivingCreature {
        LivingCreature {
            creature: creature,
            eaten: false,
            position: Point2 { x: px, y: py },
            direction: (Vector2 { x: dx, y: dy }).spec_with_magnitude(
                ((UNIT + creature.speed) * 3) / 4,
            ),
        }
    }

    /// Sets a creature down in the world; see [`LivingCreature::placed`].
    pub fn place(creature: Creature, px: i64, py: i64, dx: i64, dy: i64) -> (r: LivingCreature)
        requires
            creature.traits_wf(),
        ensures
            r == LivingCreature::placed(creature, px, py, dx, dy),
            -DIR_MAX <= r.direction.x <= DIR_MAX,
            -DIR_MAX <= r.direction.y <= DIR_MAX,
    {
        let length: i64 = ((UNIT + creature.speed) * 3) / 4;
        proof {
            lemma_with_magnitude_bound(Vector2 { x: dx, y: dy }, length as int);
        }
        LivingCreature {
            creature: creature,
            eaten: false,
            position: Point2 { x: px, y: py },
            direction: (Vector2 { x: dx, y: dy }).with_magnitude(length),
        }
    }

    /// The living creature `self` is `creature` set down somewhere in the
    /// world, facing some way: it was not eaten, lies within the bounds of the
    /// world, and its first step is as [`LivingCreature::placed`] says.
    pub open spec fn is_set_down(self, creature: Creature, x: (i64, i64), y: (i64, i64)) -> bool {
        &&& self.creature == creature
        &&& !self.eaten
        &&& x.0 <= self.position.x < x.1
        &&& y.0 <= self.position.y < y.1
        &&& -DIR_MAX <= self.direction.x <= DIR_MAX
        &&& -DIR_MAX <= self.direction.y <= DIR_MAX
        &&& exists|dx: i64, dy: i64|
            -UNIT <= dx < UNIT && -UNIT <= dy < UNIT && self == #[trigger] LivingCreature::placed(
                creature,
                self.position.x,
                self.position.y,
                dx,
                dy,
            )
    }

    /// Sets a creature down at a random place of the world, facing a random
    /// way.
    pub fn random(creature: Creature, x: (i64, i64), y: (i64, i64), rng: &mut SmallRng) -> (r:
        LivingCreature)
        requires
            creature.traits_wf(),
            world_wf(x, y),
        ensures
            r.is_set_down(creature, x, y),
    {
        let px = draw_range(rng, x.0, x.1);
        let py = draw_range(rng, y.0, y.1);
        let dx = draw_range(rng, -UNIT, UNIT);
        let dy = draw_range(rng, -UNIT, UNIT);
        let r = LivingCreature::place(creature, px, py, dx, dy);
        assert(r == LivingCreature::placed(creature, r.position.x, r.position.y, dx, dy));
        r
    }

    /// Tells whether the living creature is well formed under `opts`.
    pub fn is_valid(&self, opts: &Opts) -> (r: bool)
        ensures
            r == self.wf(*opts),
    {
        self.creature.is_valid(opts) && self.position.is_valid() && -DIR_MAX <= self.direction.x
            && self.direction.x <= DIR_MAX && -DIR_MAX <= self.direction.y && self.direction.y
            <= DIR_MAX
    }

    /// Whether the creature was eaten or has no energy left.
    pub fn is_dead(&self) -> (r: bool)
        ensures
            r == self.spec_is_dead(),
    {
        self.eaten || self.creature.energy <= 0
    }
}

/// The largest distance that any creature covers in one tick.
pub const SPEED_MAX: i64 = 3_000_000_000_000;

/// Computes the colour channel that shows a trait.
fn channel_of(t: i64) -> (r: u8)
    ensures
        r as int == channel(t as int),
{
    if t <= 0 {
        proof {
            lemma_div_monotonic(t * 255, 0, UNIT as int);
        }
        0
    } else if t >= UNIT {
        proof {
            lemma_div_monotonic(255 * (UNIT as int), t * 255, UNIT as int);
        }
        255
    } else {
        ((t * 255) / UNIT) as u8
    }
}

/// A base value plus a trait's share of a factor stays within three times
/// the largest setting.
pub proof fn lemma_reach_bounds(t: int, base: int, factor: int)
    requires
        0 <= t <= TRAIT_TOTAL,
        0 <= base <= KNOB_MAX,
        0 <= factor <= KNOB_MAX,
    ensures
        0 <= t * factor <= TRAIT_TOTAL * KNOB_MAX,
        base <= base + (t * factor) / (UNIT as int) <= 3 * KNOB_MAX,
{
    assert(0 <= t * factor <= TRAIT_TOTAL * KNOB_MAX) by (nonlinear_arith)
        requires
            0 <= t <= TRAIT_TOTAL,
            0 <= factor <= KNOB_MAX,
    ;
}

/// The bounds of a creature's speed.
pub proof fn lemma_speed_bounds(c: Creature, opts: Opts)
    requires
        c.traits_wf(),
        opts.wf(),
    ensures
        1 <= c.spec_speed(true, opts) <= 3 * KNOB_MAX,
        0 <= c.spec_speed(false, opts) <= SPEED_MAX,
        0 <= c.speed * opts.speed_factor <= TRAIT_TOTAL * KNOB_MAX,
        0 <= c.spec_speed(true, opts) * opts.normal_speed <= 3 * KNOB_MAX * KNOB_MAX,
{
    lemma_reach_bounds(c.speed as int, opts.base_speed as int, opts.speed_factor as int);
    let full = c.spec_speed(true, opts);
    assert(0 <= full * opts.normal_speed <= 3 * KNOB_MAX * KNOB_MAX) by (nonlinear_arith)
        requires
            0 <= full <= 3 * KNOB_MAX,
            0 <= opts.normal_speed <= KNOB_MAX,
    ;
}

} // verus!
