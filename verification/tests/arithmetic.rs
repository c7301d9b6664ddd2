use evosim::creature::{normalize, Colour, Creature, Diet, LivingCreature};
use evosim::fixed::{mul_div, sqrt_ceil_u128, SQRT_ARG_MAX, UNIT};
use evosim::opts::Opts;
use evosim::vector::{abs_u64, is_world_valid, wrap_coordinate, Point2, Vector2};

fn opts() -> Opts {
    Opts {
        creature_count: 100,
        food_count: 100,
        generation_threshold: 50,
        mutation_probability: 50_000,
        mutation_scale: 1_000_000,
        max_energy: 2_000_000_000,
        start_energy: 1_000_000_000,
        base_speed: 1_330_000,
        speed_factor: 670_000,
        normal_speed: 750_000,
        stamina_factor: 1_000_000,
        base_fov: 45_000_000,
        fov_factor: 55_000_000,
        base_size: 5_000_000,
        size_factor: 5_000_000,
    }
}

fn creature(speed: i64, stamina: i64, fov: i64, size: i64, diet: Diet, energy: i64) -> Creature {
    Creature { energy, speed, stamina, fov, size, diet, colour: Creature::colour(speed, stamina, fov) }
}

#[test]
fn square_roots_round_up() {
    assert_eq!(sqrt_ceil_u128(0), 0);
    assert_eq!(sqrt_ceil_u128(1), 1);
    assert_eq!(sqrt_ceil_u128(2), 2);
    assert_eq!(sqrt_ceil_u128(4), 2);
    assert_eq!(sqrt_ceil_u128(5), 3);
    assert_eq!(sqrt_ceil_u128(1_000_000_000_000), 1_000_000);
    assert_eq!(sqrt_ceil_u128(1_000_000_000_001), 1_000_001);
    assert_eq!(sqrt_ceil_u128(SQRT_ARG_MAX), u64::MAX);
    assert_eq!(sqrt_ceil_u128(SQRT_ARG_MAX - 1), u64::MAX);
}

#[test]
fn mul_div_rounds_down() {
    assert_eq!(mul_div(3, 10, 4), 7);
    assert_eq!(mul_div(0, 10, 4), 0);
    assert_eq!(mul_div(4, 10, 4), 10);
    assert_eq!(mul_div(u64::MAX, u64::MAX, u64::MAX), u64::MAX);
}

#[test]
fn absolute_values() {
    assert_eq!(abs_u64(5), 5);
    assert_eq!(abs_u64(-5), 5);
    assert_eq!(abs_u64(0), 0);
    assert_eq!(abs_u64(i64::MIN), 9_223_372_036_854_775_808);
}

#[test]
fn magnitude_of_a_three_four_five_triangle() {
    let v = Vector2 { x: 3_000_000, y: -4_000_000 };
    assert_eq!(v.norm_squared(), 25_000_000_000_000);
    assert_eq!(v.magnitude(), 5_000_000);
}

#[test]
fn magnitude_rounds_up() {
    assert_eq!((Vector2 { x: 1, y: 1 }).magnitude(), 2);
    assert_eq!((Vector2 { x: 0, y: 0 }).magnitude(), 0);
    assert_eq!((Vector2 { x: 1_000_000, y: 1_000_000 }).magnitude(), 1_414_214);
}

#[test]
fn magnitude_of_the_largest_vector() {
    let v = Vector2 { x: i64::MIN, y: i64::MIN };
    assert_eq!(v.norm_squared(), 1u128 << 127);
    assert_eq!(v.magnitude(), 13_043_817_825_332_782_213);
}

#[test]
fn with_magnitude_keeps_the_direction() {
    let v = Vector2 { x: 3_000_000, y: 4_000_000 };
    assert_eq!(v.with_magnitude(125_000), Vector2 { x: 75_000, y: 100_000 });
    let w = Vector2 { x: -3_000_000, y: 4_000_000 };
    assert_eq!(w.with_magnitude(125_000), Vector2 { x: -75_000, y: 100_000 });
    let d = Vector2 { x: 7_000_000, y: -7_000_000 };
    assert_eq!(d.with_magnitude(125_000), Vector2 { x: 88_388, y: -88_388 });
}

#[test]
fn with_magnitude_is_never_longer_than_asked() {
    let v = Vector2 { x: 1, y: 1 };
    let r = v.with_magnitude(10);
    assert_eq!(r, Vector2 { x: 5, y: 5 });
    assert!(r.magnitude() <= 10);
}

#[test]
fn with_magnitude_leaves_the_zero_vector() {
    let z = Vector2::zero();
    assert_eq!(z, Vector2 { x: 0, y: 0 });
    assert_eq!(z.with_magnitude(125_000), z);
}

#[test]
fn with_magnitude_zero_gives_zero() {
    let v = Vector2 { x: 3_000_000, y: 4_000_000 };
    assert_eq!(v.with_magnitude(0), Vector2 { x: 0, y: 0 });
}

#[test]
fn vectors_add_componentwise() {
    let a = Vector2 { x: 1, y: -2 };
    let b = Vector2 { x: 10, y: 20 };
    assert_eq!(a.plus(&b), Vector2 { x: 11, y: 18 });
}

#[test]
fn offsets_and_distances() {
    let a = Point2 { x: 1_000_000, y: 2_000_000 };
    let b = Point2 { x: 4_000_000, y: -2_000_000 };
    assert_eq!(a.offset_to(&b), Vector2 { x: 3_000_000, y: -4_000_000 });
    assert!(a.within(&b, 5_000_001));
    assert!(!a.within(&b, 5_000_000));
    assert!(!a.within(&a, 0));
    assert!(a.within(&a, 1));
    assert!(!a.within(&b, -6_000_000));
}

#[test]
fn toroidal_wrap_on_the_upper_side() {
    // 999.9 + 0.5 in a world from 0 to 1000 comes out at 0.4.
    assert_eq!(wrap_coordinate(999_900_000 + 500_000, 0, 1_000_000_000), 400_000);
}

#[test]
fn toroidal_wrap_on_the_lower_side() {
    assert_eq!(wrap_coordinate(-100_000, 0, 1_000_000_000), 999_900_000);
    assert_eq!(wrap_coordinate(-1_000_000_000, 0, 1_000_000_000), 0);
    assert_eq!(wrap_coordinate(-1_000_000_001, 0, 1_000_000_000), 999_999_999);
}

#[test]
fn toroidal_wrap_edges() {
    assert_eq!(wrap_coordinate(0, 0, 1_000_000_000), 0);
    assert_eq!(wrap_coordinate(999_999_999, 0, 1_000_000_000), 999_999_999);
    assert_eq!(wrap_coordinate(1_000_000_000, 0, 1_000_000_000), 0);
    assert_eq!(wrap_coordinate(2_500_000_000, 0, 1_000_000_000), 500_000_000);
    assert_eq!(wrap_coordinate(7, -10, 5), -8);
    assert_eq!(wrap_coordinate(-11, -10, 5), 4);
}

#[test]
fn world_validity() {
    assert!(is_world_valid((0, 1_000_000_000), (0, 1_000_000_000)));
    assert!(!is_world_valid((0, 0), (0, 1_000_000_000)));
    assert!(!is_world_valid((5, 1), (0, 1_000_000_000)));
    assert!(!is_world_valid((0, 1_000_000_000_001), (0, 1)));
    assert!((Point2 { x: 0, y: 0 }).is_valid());
    assert!(!(Point2 { x: 0, y: -1_000_000_000_001 }).is_valid());
}

#[test]
fn normalize_keeps_proportions() {
    assert_eq!(normalize(1, 1, 1, 1), (500_000, 500_000, 500_000, 500_000));
    assert_eq!(
        normalize(100_000, 200_000, 300_000, 400_000),
        (200_000, 400_000, 600_000, 800_000)
    );
    assert_eq!(normalize(7, 0, 0, 0), (2_000_000, 0, 0, 0));
}

#[test]
fn normalize_gives_the_remainder_to_the_last() {
    assert_eq!(normalize(1, 1, 1, 0), (666_666, 666_666, 666_666, 2));
    let n = normalize(999_999, 1, 500_000, 123_456);
    assert_eq!(n.0 + n.1 + n.2 + n.3, 2_000_000);
}

#[test]
fn normalize_leaves_a_normal_form() {
    assert_eq!(
        normalize(1_000_000, 400_000, 300_000, 300_000),
        (1_000_000, 400_000, 300_000, 300_000)
    );
}

#[test]
fn effective_speed() {
    let o = opts();
    let c = creature(500_000, 500_000, 500_000, 500_000, Diet::Herbivore, 1_000_000_000);
    // 1.33 + 0.67 * 0.5
    assert_eq!(c.speed(true, &o), 1_665_000);
    // three quarters of that
    assert_eq!(c.speed(false, &o), 1_248_750);
    let fast = creature(2_000_000, 0, 0, 0, Diet::Herbivore, 1_000_000_000);
    assert_eq!(fast.speed(true, &o), 2_670_000);
    let slow = creature(0, 2_000_000, 0, 0, Diet::Herbivore, 1_000_000_000);
    assert_eq!(slow.speed(true, &o), 1_330_000);
    assert_eq!(slow.speed(false, &o), 997_500);
}

#[test]
fn effective_fov_and_size() {
    let o = opts();
    let c = creature(500_000, 500_000, 500_000, 500_000, Diet::Herbivore, 1_000_000_000);
    assert_eq!(c.fov(&o), 72_500_000);
    assert_eq!(c.size(&o), 7_500_000);
    let d = creature(0, 0, 2_000_000, 0, Diet::Carnivore, 1_000_000_000);
    assert_eq!(d.fov(&o), 155_000_000);
    assert_eq!(d.size(&o), 5_000_000);
}

#[test]
fn colour_shows_three_traits() {
    assert_eq!(Creature::colour(500_000, 0, 2_000_000), Colour { r: 127, g: 0, b: 255 });
    assert_eq!(Creature::colour(1_000_000, 999_999, 3_922), Colour { r: 255, g: 254, b: 1 });
    assert_eq!(Creature::colour(-5, 3_921, 1_000_001), Colour { r: 0, g: 0, b: 255 });
}

#[test]
fn herbivores_never_prey() {
    let h1 = creature(500_000, 500_000, 200_000, 800_000, Diet::Herbivore, 1_000_000_000);
    let h2 = creature(500_000, 500_000, 900_000, 100_000, Diet::Herbivore, 1_000_000_000);
    let c = creature(500_000, 500_000, 900_000, 100_000, Diet::Carnivore, 1_000_000_000);
    let starved = creature(500_000, 500_000, 900_000, 100_000, Diet::Herbivore, 0);
    assert!(!h1.can_prey_on(&h2));
    assert!(!h2.can_prey_on(&h1));
    assert!(!h1.can_prey_on(&c));
    assert!(!h1.can_prey_on(&starved));
}

#[test]
fn carnivore_preys_on_herbivore_within_a_quarter() {
    let c = creature(400_000, 300_000, 300_000, 1_000_000, Diet::Carnivore, 1_000_000_000);
    let smaller = creature(400_000, 400_000, 400_000, 800_000, Diet::Herbivore, 1_000_000_000);
    let much_smaller = creature(500_000, 500_000, 500_000, 500_000, Diet::Herbivore, 1_000_000_000);
    let edge = creature(250_000, 250_000, 250_000, 1_250_000, Diet::Herbivore, 1_000_000_000);
    let too_large = creature(250_000, 250_000, 249_999, 1_250_001, Diet::Herbivore, 1_000_000_000);
    assert!(c.can_prey_on(&smaller));
    assert!(c.can_prey_on(&much_smaller));
    assert!(c.can_prey_on(&edge));
    assert!(!c.can_prey_on(&too_large));
}

#[test]
fn small_carnivore_cannot_prey_on_large_herbivore() {
    // the herbivore is larger by 0.5, which is more than 0.25
    let c = creature(500_000, 500_000, 500_000, 500_000, Diet::Carnivore, 1_000_000_000);
    let h = creature(400_000, 300_000, 300_000, 1_000_000, Diet::Herbivore, 1_000_000_000);
    assert!(!c.can_prey_on(&h));
}

#[test]
fn carnivore_preys_on_strictly_smaller_carnivore() {
    let c = creature(400_000, 300_000, 300_000, 1_000_000, Diet::Carnivore, 1_000_000_000);
    let smaller = creature(400_000, 400_000, 300_000, 900_000, Diet::Carnivore, 1_000_000_000);
    let equal = creature(300_000, 400_000, 300_000, 1_000_000, Diet::Carnivore, 1_000_000_000);
    assert!(c.can_prey_on(&smaller));
    assert!(!smaller.can_prey_on(&c));
    assert!(!c.can_prey_on(&equal));
    assert!(!equal.can_prey_on(&c));
    assert!(!c.can_prey_on(&c));
}

#[test]
fn carnivore_scavenges_whatever_has_no_energy() {
    let c = creature(900_000, 500_000, 500_000, 100_000, Diet::Carnivore, 1_000_000_000);
    let dead_giant = creature(0, 0, 0, 2_000_000, Diet::Herbivore, 0);
    let dead_hunter = creature(0, 0, 0, 2_000_000, Diet::Carnivore, 0);
    let gone = creature(0, 0, 0, 2_000_000, Diet::Carnivore, -1);
    assert!(c.can_prey_on(&dead_giant));
    assert!(c.can_prey_on(&dead_hunter));
    assert!(c.can_prey_on(&gone));
}

#[test]
fn diets_are_opposite() {
    assert_eq!(Diet::Herbivore.opposite(), Diet::Carnivore);
    assert_eq!(Diet::Carnivore.opposite(), Diet::Herbivore);
}

#[test]
fn dead_is_eaten_or_without_energy() {
    let c = creature(500_000, 500_000, 500_000, 500_000, Diet::Herbivore, 1);
    let mut l = LivingCreature {
        creature: c,
        eaten: false,
        position: Point2 { x: 0, y: 0 },
        direction: Vector2 { x: 0, y: 0 },
    };
    assert!(!l.is_dead());
    l.eaten = true;
    assert!(l.is_dead());
    l.eaten = false;
    l.creature.energy = 0;
    assert!(l.is_dead());
}

#[test]
fn validity_of_creatures() {
    let o = opts();
    let good = creature(500_000, 500_000, 500_000, 500_000, Diet::Herbivore, 1_000_000_000);
    assert!(good.is_valid(&o));
    let mut bad_sum = good;
    bad_sum.size = 500_001;
    assert!(!bad_sum.is_valid(&o));
    let mut bad_energy = good;
    bad_energy.energy = 2_000_000_001;
    assert!(!bad_energy.is_valid(&o));
    bad_energy.energy = -1;
    assert!(!bad_energy.is_valid(&o));
    let mut bad_colour = good;
    bad_colour.colour = Colour { r: 1, g: 2, b: 3 };
    assert!(!bad_colour.is_valid(&o));
    let negative = creature(-1, 500_001, 1_000_000, 500_000, Diet::Herbivore, 1);
    assert!(!negative.is_valid(&o));
    let l = LivingCreature {
        creature: good,
        eaten: false,
        position: Point2 { x: 0, y: 0 },
        direction: Vector2 { x: 4_000_000_000_001, y: 0 },
    };
    assert!(!l.is_valid(&o));
}

#[test]
fn validity_of_options() {
    let o = opts();
    assert!(o.is_valid());
    let mut zero_speed = o;
    zero_speed.base_speed = 0;
    assert!(!zero_speed.is_valid());
    let mut too_eager = o;
    too_eager.start_energy = o.max_energy + 1;
    assert!(!too_eager.is_valid());
    let mut unlikely = o;
    unlikely.mutation_probability = UNIT + 1;
    assert!(!unlikely.is_valid());
    let mut unused = o;
    unused.stamina_factor = -5;
    assert!(unused.is_valid());
}

#[test]
fn creature_from_draws() {
    let o = opts();
    let c = Creature::from_draws(100_000, 200_000, 300_000, 400_000, true, &o);
    assert_eq!(c.speed, 200_000);
    assert_eq!(c.stamina, 400_000);
    assert_eq!(c.fov, 600_000);
    assert_eq!(c.size, 800_000);
    assert_eq!(c.diet, Diet::Carnivore);
    assert_eq!(c.energy, 1_000_000_000);
    assert_eq!(c.colour, Colour { r: 51, g: 102, b: 153 });
    let h = Creature::from_draws(1, 1, 1, 1, false, &o);
    assert_eq!(h.diet, Diet::Herbivore);
    assert!(h.is_valid(&o));
}

#[test]
fn placing_a_creature() {
    let c = creature(500_000, 500_000, 500_000, 500_000, Diet::Herbivore, 1_000_000_000);
    let l = LivingCreature::place(c, 10, 20, -1_000_000, -1_000_000);
    assert_eq!(l.creature, c);
    assert!(!l.eaten);
    assert_eq!(l.position, Point2 { x: 10, y: 20 });
    // three quarters of 1.5 is 1.125, along the diagonal
    assert_eq!(l.direction, Vector2 { x: -795_494, y: -795_494 });
    let still = LivingCreature::place(c, 0, 0, 0, 0);
    assert_eq!(still.direction, Vector2 { x: 0, y: 0 });
}
