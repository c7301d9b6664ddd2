use evosim::creature::{Colour, Creature, Diet};
use evosim::opts::Opts;
use evosim::selection::pick_parent;
use evosim::stats::{Stats, StatsInner};
use rand::rngs::SmallRng;
use rand::SeedableRng;

const ONE: i64 = 1_000_000;

fn config() -> Opts {
    Opts {
        creature_count: 100,
        food_count: 100,
        generation_threshold: 50,
        mutation_probability: 50_000,
        mutation_scale: 1_000_000,
        max_energy: 2_000_000_000,
        start_energy: 1_000_000_000,
        base_speed: 1_330_000,
        speed_factor: 670_000,
        normal_speed: 750_000,
        stamina_factor: 1_000_000,
        base_fov: 45_000_000,
        fov_factor: 55_000_000,
        base_size: 5_000_000,
        size_factor: 5_000_000,
    }
}

fn make(speed: i64, stamina: i64, fov: i64, size: i64, diet: Diet, energy: i64) -> Creature {
    Creature { energy, speed, stamina, fov, size, diet, colour: Creature::colour(speed, stamina, fov) }
}

fn total(c: &Creature) -> i64 {
    c.speed + c.stamina + c.fov + c.size
}

#[test]
fn random_creatures_are_well_formed() {
    let o = config();
    let mut rng = SmallRng::seed_from_u64(1);
    let mut herbivores = 0;
    let mut carnivores = 0;
    let mut first: Option<Creature> = None;
    let mut differ = false;
    for _ in 0..500 {
        let c = Creature::random(&o, &mut rng);
        assert!(c.is_valid(&o));
        assert_eq!(total(&c), 2 * ONE);
        assert_eq!(c.energy, o.start_energy);
        assert!(c.speed >= 0 && c.stamina >= 0 && c.fov >= 0 && c.size >= 0);
        match c.diet {
            Diet::Herbivore => herbivores += 1,
            Diet::Carnivore => carnivores += 1,
        }
        match first {
            Some(f) => differ = differ || f != c,
            None => first = Some(c),
        }
    }
    // the coin is fair, and the draws are draws
    assert!(herbivores > 150 && carnivores > 150);
    assert!(differ);
}

#[test]
fn blend_mixes_the_traits() {
    let o = config();
    let c1 = make(1_000_000, 400_000, 300_000, 300_000, Diet::Carnivore, 5);
    let c2 = make(200_000, 600_000, 600_000, 600_000, Diet::Herbivore, 7);
    let child = Creature::blend(&c1, &c2, 250_000, &o);
    assert_eq!(child.speed, 400_000);
    assert_eq!(child.stamina, 550_000);
    assert_eq!(child.fov, 525_000);
    assert_eq!(child.size, 525_000);
    assert_eq!(child.diet, Diet::Herbivore);
    assert_eq!(child.energy, o.start_energy);
    assert_eq!(child.colour, Colour { r: 102, g: 140, b: 133 });
    assert!(child.is_valid(&o));
}

#[test]
fn blend_rounds_and_renormalizes() {
    let o = config();
    let c1 = make(1_000_000, 400_000, 300_000, 300_000, Diet::Carnivore, 5);
    let c2 = make(200_000, 600_000, 600_000, 600_000, Diet::Herbivore, 7);
    let child = Creature::blend(&c1, &c2, 333_333, &o);
    assert_eq!(
        (child.speed, child.stamina, child.fov, child.size),
        (466_666, 533_333, 500_000, 500_001)
    );
    assert_eq!(total(&child), 2 * ONE);
}

#[test]
fn blend_takes_the_diet_of_the_heavier_parent() {
    let o = config();
    let c1 = make(1_000_000, 400_000, 300_000, 300_000, Diet::Carnivore, 5);
    let c2 = make(200_000, 600_000, 600_000, 600_000, Diet::Herbivore, 7);
    assert_eq!(Creature::blend(&c1, &c2, 0, &o).diet, Diet::Herbivore);
    assert_eq!(Creature::blend(&c1, &c2, 499_999, &o).diet, Diet::Herbivore);
    assert_eq!(Creature::blend(&c1, &c2, 500_000, &o).diet, Diet::Carnivore);
    assert_eq!(Creature::blend(&c1, &c2, ONE, &o).diet, Diet::Carnivore);
}

#[test]
fn blend_at_the_ends_gives_one_parent() {
    let o = config();
    let c1 = make(1_000_000, 400_000, 300_000, 300_000, Diet::Carnivore, 5);
    let c2 = make(200_000, 600_000, 600_000, 600_000, Diet::Herbivore, 7);
    let like_2 = Creature::blend(&c1, &c2, 0, &o);
    assert_eq!((like_2.speed, like_2.stamina, like_2.fov, like_2.size), (200_000, 600_000, 600_000, 600_000));
    let like_1 = Creature::blend(&c1, &c2, ONE, &o);
    assert_eq!((like_1.speed, like_1.stamina, like_1.fov, like_1.size), (1_000_000, 400_000, 300_000, 300_000));
}

#[test]
fn children_of_equal_parents_have_their_traits() {
    let o = config();
    let c1 = make(123_457, 876_543, 999_999, 1, Diet::Carnivore, 5);
    let c2 = make(123_457, 876_543, 999_999, 1, Diet::Herbivore, 900);
    for factor in [0, 1, 3, 250_000, 333_333, 499_999, 500_000, 500_001, 999_999, ONE] {
        let child = Creature::blend(&c1, &c2, factor, &o);
        assert_eq!((child.speed, child.stamina, child.fov, child.size), (123_457, 876_543, 999_999, 1));
        assert_eq!(child.colour, c1.colour);
    }
    let mut rng = SmallRng::seed_from_u64(9);
    for _ in 0..100 {
        let child = Creature::breed(&c1, &c2, &o, &mut rng);
        assert_eq!((child.speed, child.stamina, child.fov, child.size), (123_457, 876_543, 999_999, 1));
    }
}

#[test]
fn bred_children_are_well_formed() {
    let o = config();
    let mut rng = SmallRng::seed_from_u64(2);
    let c1 = make(1_999_997, 1, 1, 1, Diet::Carnivore, 5);
    let c2 = make(0, 0, 3, 1_999_997, Diet::Herbivore, 7);
    let mut herbivores = 0;
    let mut speeds = Vec::new();
    for _ in 0..300 {
        let child = Creature::breed(&c1, &c2, &o, &mut rng);
        assert!(child.is_valid(&o));
        assert_eq!(total(&child), 2 * ONE);
        assert_eq!(child.energy, o.start_energy);
        if child.diet == Diet::Herbivore {
            herbivores += 1;
            // the second parent weighs more
            assert!(child.size >= child.speed);
        } else {
            assert!(child.speed >= child.size - 3);
        }
        speeds.push(child.speed);
    }
    assert!(herbivores > 75 && herbivores < 225);
    speeds.sort();
    speeds.dedup();
    assert!(speeds.len() > 100);
}

#[test]
fn mutation_adds_noise_and_renormalizes() {
    let mut c = make(500_000, 500_000, 500_000, 500_000, Diet::Herbivore, 77);
    c.mutate_with(1_000_000, 0, 0, 0, false);
    assert_eq!((c.speed, c.stamina, c.fov, c.size), (1_000_000, 333_333, 333_333, 333_334));
    assert_eq!(c.diet, Diet::Herbivore);
    assert_eq!(c.energy, 77);
    assert_eq!(c.colour, Colour { r: 255, g: 84, b: 84 });
}

#[test]
fn even_noise_changes_nothing() {
    let mut c = make(500_000, 500_000, 500_000, 500_000, Diet::Herbivore, 77);
    let before = c;
    c.mutate_with(100_000, 100_000, 100_000, 100_000, false);
    assert_eq!(c, before);
    c.mutate_with(0, 0, 0, 0, false);
    assert_eq!(c, before);
}

#[test]
fn mutation_flips_the_diet() {
    let mut c = make(500_000, 500_000, 500_000, 500_000, Diet::Herbivore, 77);
    c.mutate_with(0, 0, 0, 0, true);
    assert_eq!(c.diet, Diet::Carnivore);
    c.mutate_with(0, 0, 0, 0, true);
    assert_eq!(c.diet, Diet::Herbivore);
}

#[test]
fn random_mutations_keep_creatures_well_formed() {
    let o = config();
    let mut rng = SmallRng::seed_from_u64(4);
    let start = make(500_000, 500_000, 500_000, 500_000, Diet::Herbivore, 123);
    let mut flips = 0;
    let mut changed = 0;
    for _ in 0..400 {
        let mut c = start;
        c.mutate(ONE, &mut rng);
        assert!(c.is_valid(&o));
        assert_eq!(total(&c), 2 * ONE);
        assert_eq!(c.energy, 123);
        // noise below one on traits of a half leaves every trait between a fifth and one
        assert!(c.speed >= 200_000 - 1 && c.speed <= 1_000_000);
        if c.diet != start.diet {
            flips += 1;
        }
        if c.speed != start.speed {
            changed += 1;
        }
    }
    // a scale of one flips the diet every other time
    assert!(flips > 120 && flips < 280);
    assert!(changed > 390);
}

#[test]
fn a_small_scale_never_flips_the_diet() {
    let mut rng = SmallRng::seed_from_u64(4);
    let start = make(500_000, 500_000, 500_000, 500_000, Diet::Carnivore, 123);
    for scale in [0, 1] {
        for _ in 0..50 {
            let mut c = start;
            c.mutate(scale, &mut rng);
            assert_eq!(c.diet, Diet::Carnivore);
            assert_eq!(c, start);
        }
    }
}

#[test]
fn tickets_go_by_energy() {
    let o = config();
    let population = vec![
        make(500_000, 500_000, 500_000, 500_000, Diet::Herbivore, 100),
        make(500_000, 500_000, 500_000, 500_000, Diet::Herbivore, 0),
        make(500_000, 500_000, 500_000, 500_000, Diet::Herbivore, 300),
        make(500_000, 500_000, 500_000, 500_000, Diet::Herbivore, 1),
    ];
    assert_eq!(pick_parent(&population, 4, 0, &o), 0);
    assert_eq!(pick_parent(&population, 4, 99, &o), 0);
    assert_eq!(pick_parent(&population, 4, 100, &o), 2);
    assert_eq!(pick_parent(&population, 4, 399, &o), 2);
    assert_eq!(pick_parent(&population, 4, 400, &o), 3);
    assert_eq!(pick_parent(&population, 3, 399, &o), 2);
    assert_eq!(pick_parent(&population, 1, 50, &o), 0);
}

#[test]
fn selection_fills_the_population() {
    let o = config();
    let mut rng = SmallRng::seed_from_u64(6);
    let survivors = vec![
        make(1_000_000, 400_000, 300_000, 300_000, Diet::Carnivore, 1_500_000_000),
        make(200_000, 600_000, 600_000, 600_000, Diet::Herbivore, 700_000_000),
        make(500_000, 500_000, 500_000, 500_000, Diet::Herbivore, 1),
    ];
    let mut population = survivors.clone();
    Creature::select(&mut population, 50, &o, &mut rng);
    assert_eq!(population.len(), 50);
    assert_eq!(&population[..3], &survivors[..]);
    for child in &population[3..] {
        assert!(child.is_valid(&o));
        assert_eq!(total(child), 2 * ONE);
        assert_eq!(child.energy, o.start_energy);
        // every trait of a child lies between those of the parents, give or
        // take the rounding
        assert!(child.speed >= 200_000 - 2 && child.speed <= 1_000_000 + 2);
        assert!(child.stamina >= 400_000 - 2 && child.stamina <= 600_000 + 2);
        assert!(child.size >= 300_000 - 2 && child.size <= 600_000 + 2);
    }
    assert!(population[3..].iter().any(|c| c.speed != population[3].speed));
}

#[test]
fn selection_never_shrinks_the_population() {
    let o = config();
    let mut rng = SmallRng::seed_from_u64(6);
    let survivors = vec![
        make(1_000_000, 400_000, 300_000, 300_000, Diet::Carnivore, 1_500_000_000),
        make(200_000, 600_000, 600_000, 600_000, Diet::Herbivore, 700_000_000),
    ];
    let mut population = survivors.clone();
    Creature::select(&mut population, 2, &o, &mut rng);
    assert_eq!(population, survivors);
    Creature::select(&mut population, 1, &o, &mut rng);
    assert_eq!(population, survivors);
    Creature::select(&mut population, 0, &o, &mut rng);
    assert_eq!(population, survivors);
}

#[test]
fn selection_of_nobody_gives_nobody() {
    let o = config();
    let mut rng = SmallRng::seed_from_u64(6);
    let mut population: Vec<Creature> = Vec::new();
    Creature::select(&mut population, 10, &o, &mut rng);
    assert!(population.is_empty());
}

#[test]
fn creatures_without_energy_are_no_parents() {
    let o = config();
    let mut rng = SmallRng::seed_from_u64(8);
    let mut population = vec![
        make(2_000_000, 0, 0, 0, Diet::Carnivore, 0),
        make(0, 2_000_000, 0, 0, Diet::Herbivore, 10),
        make(0, 0, 2_000_000, 0, Diet::Carnivore, 0),
        make(0, 2_000_000, 0, 0, Diet::Herbivore, 1),
    ];
    Creature::select(&mut population, 60, &o, &mut rng);
    assert_eq!(population.len(), 60);
    for child in &population[4..] {
        assert_eq!((child.speed, child.stamina, child.fov, child.size), (0, 2_000_000, 0, 0));
        assert_eq!(child.diet, Diet::Herbivore);
    }
}

#[test]
fn selection_without_any_energy_draws_evenly() {
    let o = config();
    let mut rng = SmallRng::seed_from_u64(8);
    let mut population = vec![
        make(2_000_000, 0, 0, 0, Diet::Carnivore, 0),
        make(0, 2_000_000, 0, 0, Diet::Herbivore, 0),
    ];
    Creature::select(&mut population, 200, &o, &mut rng);
    assert_eq!(population.len(), 200);
    let mut pure_first = 0;
    let mut pure_second = 0;
    let mut mixed = 0;
    for child in &population[2..] {
        assert!(child.is_valid(&o));
        assert_eq!(child.fov + child.size, 0);
        if child.speed == 2_000_000 {
            pure_first += 1;
        } else if child.stamina == 2_000_000 {
            pure_second += 1;
        } else {
            mixed += 1;
        }
    }
    assert!(pure_first > 20 && pure_second > 20 && mixed > 50);
}

#[test]
fn renewal_resets_the_energy() {
    let mut o = config();
    o.mutation_probability = 0;
    let mut rng = SmallRng::seed_from_u64(10);
    let before = vec![
        make(1_000_000, 400_000, 300_000, 300_000, Diet::Carnivore, 1_500_000_000),
        make(200_000, 600_000, 600_000, 600_000, Diet::Herbivore, 0),
    ];
    let mut population = before.clone();
    Creature::renew(&mut population, &o, &mut rng);
    assert_eq!(population.len(), 2);
    for (a, b) in population.iter().zip(before.iter()) {
        assert_eq!(a.energy, o.start_energy);
        assert_eq!((a.speed, a.stamina, a.fov, a.size, a.diet, a.colour), (b.speed, b.stamina, b.fov, b.size, b.diet, b.colour));
    }
}

#[test]
fn renewal_mutates_with_the_configured_probability() {
    let mut o = config();
    let mut rng = SmallRng::seed_from_u64(10);
    let start = make(500_000, 500_000, 500_000, 500_000, Diet::Herbivore, 5);
    o.mutation_probability = ONE;
    let mut all = vec![start; 200];
    Creature::renew(&mut all, &o, &mut rng);
    assert!(all.iter().filter(|c| c.speed != start.speed).count() > 195);
    o.mutation_probability = 250_000;
    let mut some = vec![start; 400];
    Creature::renew(&mut some, &o, &mut rng);
    let mutated = some.iter().filter(|c| c.speed != start.speed).count();
    assert!(mutated > 60 && mutated < 140);
    for c in all.iter().chain(some.iter()) {
        assert!(c.is_valid(&o));
        assert_eq!(total(c), 2 * ONE);
        assert_eq!(c.energy, o.start_energy);
    }
}

#[test]
fn generations_are_deterministic_for_a_seed() {
    let o = config();
    let mut histories = Vec::new();
    for _ in 0..2 {
        let mut rng = SmallRng::seed_from_u64(2024);
        let mut population = Vec::new();
        for _ in 0..30 {
            population.push(Creature::random(&o, &mut rng));
        }
        for generation in 0..20 {
            // every third creature starves
            let mut kept: Vec<Creature> = population
                .iter()
                .enumerate()
                .filter(|(i, _)| (i + generation) % 3 != 0)
                .map(|(_, c)| *c)
                .collect();
            Creature::select(&mut kept, 30, &o, &mut rng);
            Creature::renew(&mut kept, &o, &mut rng);
            for c in kept.iter() {
                assert!(c.is_valid(&o));
                assert_eq!(total(c), 2 * ONE);
            }
            population = kept;
        }
        histories.push(population);
    }
    assert_eq!(histories[0], histories[1]);
    assert_eq!(histories[0].len(), 30);
}

#[test]
fn statistics_of_a_population() {
    let population = vec![
        make(500_000, 500_000, 500_000, 500_000, Diet::Herbivore, 1),
        make(1_000_000, 300_000, 300_000, 400_000, Diet::Carnivore, 1),
        make(200_000, 900_000, 400_000, 500_000, Diet::Herbivore, 1),
    ];
    let s = Stats::collect(&population);
    assert_eq!(s.count, 3);
    assert_eq!(s.herbivores_count, 2);
    assert_eq!(s.carnivores_count, 1);
    assert_eq!(s.all, StatsInner { speed: 566_666, stamina: 566_666, fov: 400_000, size: 466_666 });
    assert_eq!(s.herbivores, StatsInner { speed: 350_000, stamina: 700_000, fov: 450_000, size: 500_000 });
    assert_eq!(s.carnivores, StatsInner { speed: 1_000_000, stamina: 300_000, fov: 300_000, size: 400_000 });
}

#[test]
fn statistics_without_one_diet() {
    let population = vec![make(500_000, 500_000, 600_000, 400_000, Diet::Herbivore, 1)];
    let s = Stats::collect(&population);
    assert_eq!(s.carnivores_count, 0);
    assert_eq!(s.carnivores, StatsInner { speed: 500_000, stamina: 500_000, fov: 500_000, size: 500_000 });
    assert_eq!(s.herbivores, StatsInner { speed: 500_000, stamina: 500_000, fov: 600_000, size: 400_000 });
    let nobody = Stats::collect(&[]);
    assert_eq!(nobody.count, 0);
    assert_eq!(nobody.all, StatsInner::default());
    assert_eq!(nobody.all, StatsInner { speed: 0, stamina: 0, fov: 0, size: 0 });
    assert_eq!(nobody.herbivores.speed, 500_000);
}
