use lib_simulation::brain::{parameter_count, Brain, ChromosomeError};
use lib_simulation::ga::{breed, fitness_stats, fitness_values, roulette_select, total_fitness, uniform_crossover, wheel_width};
use lib_simulation::simulation::{Config, ConfigError, Simulation, Statistics};

fn config(generation_length: usize) -> Config {
    Config { world_animals: 3, world_foods: 2, sim_generation_length: generation_length, ga_reverse: false }
}

fn fresh(generation_length: usize) -> Simulation<u32, u32> {
    match Simulation::new(config(generation_length), vec![10, 11, 12], vec![20, 21]) {
        Ok(s) => s,
        Err(e) => panic!("rejected: {:?}", e),
    }
}

/// One tick's bookkeeping as the host runs it: the clock, then, at a
/// boundary, the next generation.
fn tick(sim: &mut Simulation<u32, u32>) -> Option<Statistics> {
    if sim.advance_age() {
        Some(sim.evolve(vec![30, 31, 32], vec![40, 41]))
    } else {
        None
    }
}

#[test]
fn stats_of_population() {
    let s = fitness_stats(&vec![3, 1, 4]);
    assert_eq!((s.min, s.max, s.sum, s.count), (1, 4, 8, 3));
    assert!(s.min as u128 * s.count as u128 <= s.sum);
    assert!(s.sum <= s.max as u128 * s.count as u128);
}

#[test]
fn stats_of_empty_population() {
    let s = fitness_stats(&vec![]);
    assert_eq!((s.min, s.max, s.sum, s.count), (0, 0, 0, 0));
}

#[test]
fn stats_of_large_values() {
    let s = fitness_stats(&vec![usize::MAX, usize::MAX]);
    assert_eq!(s.sum, 2 * usize::MAX as u128);
    assert_eq!(s.min, usize::MAX);
}

#[test]
fn fitness_plain_and_reversed() {
    assert_eq!(fitness_values(&vec![3, 1, 4], false), vec![3, 1, 4]);
    assert_eq!(fitness_values(&vec![3, 1, 4], true), vec![1, 3, 0]);
    assert_eq!(fitness_values(&vec![], true), Vec::<usize>::new());
}

#[test]
fn roulette_follows_fitness_slots() {
    let f = vec![2, 0, 3];
    assert_eq!(total_fitness(&f), 5);
    assert_eq!(roulette_select(&f, 0), 0);
    assert_eq!(roulette_select(&f, 1), 0);
    assert_eq!(roulette_select(&f, 2), 2);
    assert_eq!(roulette_select(&f, 4), 2);
}

#[test]
fn roulette_is_uniform_when_all_fitness_is_zero() {
    let f = vec![0, 0, 0];
    assert_eq!(total_fitness(&f), 0);
    assert_eq!(roulette_select(&f, 1), 1);
    assert_eq!(roulette_select(&f, 2), 2);
}

#[test]
fn crossover_takes_each_gene_from_the_chosen_parent() {
    let a = vec![1.0f32, 2.0, 3.0];
    let b = vec![-1.0f32, -2.0, -3.0];
    assert_eq!(uniform_crossover(&a, &b, &vec![true, false, true]), vec![1.0, -2.0, 3.0]);
    assert_eq!(uniform_crossover(&a, &b, &vec![false, false, false]), b);
}

#[test]
fn parameter_count_of_topology() {
    assert_eq!(parameter_count(&vec![2, 3, 1]), Some(13));
    assert_eq!(parameter_count(&vec![4]), Some(0));
    assert_eq!(parameter_count(&vec![]), Some(0));
    assert_eq!(parameter_count(&vec![usize::MAX, 2]), None);
}

#[test]
fn chromosome_round_trip() {
    let topology = vec![2, 3, 1];
    let genes: Vec<f32> = (0..13).map(|i| i as f32 * 0.5 - 3.0).collect();
    let brain = Brain::from_chromosome(&topology, &genes).unwrap();
    assert_eq!(brain.topology(), &topology);
    assert_eq!(brain.neurons().len(), 4);
    assert_eq!(brain.neurons()[0], vec![-3.0, -2.5, -2.0]);
    assert_eq!(brain.neurons()[3], vec![1.5, 2.0, 2.5, 3.0]);
    let again = Brain::from_chromosome(&topology, &brain.as_chromosome()).unwrap();
    assert_eq!(again.as_chromosome(), genes);
    assert_eq!(again.neurons(), brain.neurons());
}

#[test]
fn chromosome_length_mismatch() {
    let topology = vec![2, 3, 1];
    assert!(matches!(Brain::<f32>::from_chromosome(&topology, &vec![0.0; 12]), Err(ChromosomeError::LengthMismatch)));
    assert!(matches!(Brain::<f32>::from_chromosome(&topology, &vec![0.0; 14]), Err(ChromosomeError::LengthMismatch)));
    assert!(Brain::<f32>::from_chromosome(&vec![5], &vec![]).is_ok());
}

#[test]
fn config_errors() {
    let mut c = config(3);
    assert_eq!(c.validate(), Ok(()));
    c.sim_generation_length = 0;
    assert_eq!(c.validate(), Err(ConfigError::NoGenerationLength));
    c.world_foods = 0;
    assert_eq!(c.validate(), Err(ConfigError::NoFoods));
    c.world_animals = 0;
    assert_eq!(c.validate(), Err(ConfigError::NoAnimals));
}

#[test]
fn population_must_match_config() {
    assert!(matches!(Simulation::new(config(3), vec![1u32, 2], vec![1u32, 2]), Err(ConfigError::AnimalCountMismatch)));
    assert!(matches!(Simulation::new(config(3), vec![1u32, 2, 3], vec![1u32]), Err(ConfigError::FoodCountMismatch)));
    assert!(matches!(Simulation::new(config(0), vec![1u32, 2, 3], vec![1u32, 2]), Err(ConfigError::NoGenerationLength)));
}

#[test]
fn generation_boundary_timing() {
    let mut sim = fresh(3);
    let mut seen = vec![];
    for _ in 0..4 {
        let stats = tick(&mut sim);
        seen.push((sim.age(), sim.generation(), stats.is_some()));
    }
    assert_eq!(seen, vec![(1, 0, false), (2, 0, false), (3, 0, false), (0, 1, true)]);
}

#[test]
fn single_meal_counts_once() {
    let mut sim = fresh(3);
    sim.record_meal(1);
    assert_eq!(sim.world().animals()[1].satiation, 1);
    assert_eq!(sim.world().animals()[0].satiation, 0);
    sim.set_food(0, 99);
    assert_eq!(sim.world().foods(), &[99, 21]);
}

#[test]
fn boundary_resets_satiation_and_reports_raw_fitness() {
    let mut sim = fresh(1);
    sim.record_meal(0);
    sim.record_meal(0);
    sim.record_meal(2);
    assert_eq!(sim.fitness(), vec![2, 0, 1]);
    assert!(!sim.advance_age());
    assert!(sim.advance_age());
    let stats = sim.evolve(vec![7, 8, 9], vec![5, 6]);
    assert_eq!(stats.generation, 0);
    assert_eq!((stats.ga.min, stats.ga.max, stats.ga.sum, stats.ga.count), (0, 2, 3, 3));
    assert_eq!(sim.world().satiations(), vec![0, 0, 0]);
    assert_eq!(sim.world().animals().len(), 3);
    assert_eq!(sim.world().foods().len(), 2);
    assert_eq!(sim.world().animals()[2].body, 9);
    let report = sim.generate_statistics(&Some(stats));
    assert_eq!((report.age, report.generation_length, report.generation), (0, 1, 1));
    assert_eq!(report.min_fitness(), Some(0));
    assert_eq!(report.max_fitness(), Some(2));
}

#[test]
fn reversed_fitness_from_simulation() {
    let c = Config { world_animals: 3, world_foods: 2, sim_generation_length: 3, ga_reverse: true };
    let mut sim = Simulation::new(c, vec![1u8, 2, 3], vec![0u8, 0]).unwrap();
    sim.record_meal(0);
    sim.record_meal(0);
    sim.record_meal(2);
    assert_eq!(sim.fitness(), vec![0, 2, 1]);
    let report = sim.generate_statistics(&None);
    assert_eq!(report.min_fitness(), None);
}

#[test]
fn body_update_keeps_satiation() {
    let mut sim = fresh(3);
    sim.record_meal(2);
    sim.set_body(2, 77);
    assert_eq!(sim.world().animals()[2].body, 77);
    assert_eq!(sim.world().animals()[2].satiation, 1);
}

#[test]
fn wheel_width_falls_back_to_population_size() {
    assert_eq!(wheel_width(&vec![2, 0, 3]), 5);
    assert_eq!(wheel_width(&vec![0, 0, 0, 0]), 4);
}

#[test]
fn breeding_crosses_the_selected_parents() {
    let parents = vec![vec![1, 1, 1], vec![2, 2, 2], vec![3, 3, 3]];
    let fitness = vec![1, 0, 2];
    let draws = vec![(0, 2), (1, 1)];
    let masks = vec![vec![true, false, true], vec![false, false, false]];
    let children = breed(&parents, &fitness, &draws, &masks);
    assert_eq!(children, vec![vec![1, 3, 1], vec![3, 3, 3]]);
}

#[test]
fn breeding_with_zero_fitness_picks_by_draw() {
    let parents = vec![vec![1u8, 1], vec![2, 2]];
    let children = breed(&parents, &vec![0, 0], &vec![(1, 0)], &vec![vec![true, false]]);
    assert_eq!(children, vec![vec![2, 1]]);
}

#[test]
fn eating_counts_one_meal_and_moves_the_food() {
    let mut sim = fresh(3);
    sim.eat(0, 1, 55);
    assert_eq!(sim.world().satiations(), vec![1, 0, 0]);
    assert_eq!(sim.world().foods(), &[20, 55]);
    assert_eq!(sim.world().animals()[0].body, 10);
}
