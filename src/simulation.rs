//! Generation bookkeeping: the population, the age clock, fitness snapshots
//! and the replacement of one generation by the next.
use vstd::prelude::*;

use crate::ga::{fitness_stats, fitness_values, seq_max, seq_min, seq_sum, selection_fitness, FitnessStats};
use crate::world::{Animal, World};

verus! {

/// Why a configuration or an initial population was rejected.
#[derive(Debug, Clone, Copy, PartialEq, Eq, Structural)]
pub enum ConfigError {
    NoAnimals,
    NoFoods,
    NoGenerationLength,
    AnimalCountMismatch,
    FoodCountMismatch,
}

/// The counts and switches of a run.
#[derive(Debug, Clone, Copy, PartialEq, Eq, Structural)]
pub struct Config {
    pub world_animals: usize,
    pub world_foods: usize,
    /// A generation ends on the tick that takes its age past this length.
    pub sim_generation_length: usize,
    /// Select by `best satiation - satiation` instead of by satiation.
    pub ga_reverse: bool,
}

impl Config {
    pub open spec fn valid(&self) -> bool {
        &&& self.world_animals > 0
        &&& self.world_foods > 0
        &&& self.sim_generation_length > 0
    }

    /// The first rule that the configuration breaks, if any.
    pub open spec fn validate_spec(&self) -> Result<(), ConfigError> {
        if self.world_animals == 0 {
            Err(ConfigError::NoAnimals)
        } else if self.world_foods == 0 {
            Err(ConfigError::NoFoods)
        } else if self.sim_generation_length == 0 {
            Err(ConfigError::NoGenerationLength)
        } else {
            Ok(())
        }
    }

    /// Accepts a configuration with a non-empty population, at least one
    /// food and a positive generation length.
    pub fn validate(&self) -> (r: Result<(), ConfigError>)
        ensures
            r.is_ok() <==> self.valid(),
            r == self.validate_spec(),
    {
        if self.world_animals == 0 {
            Err(ConfigError::NoAnimals)
        } else if self.world_foods == 0 {
            Err(ConfigError::NoFoods)
        } else if self.sim_generation_length == 0 {
            Err(ConfigError::NoGenerationLength)
        } else {
            Ok(())
        }
    }
}

/// Fitness figures of the generation numbered `generation`, which just ended.
#[derive(Debug, Clone, Copy)]
pub struct Statistics {
    pub generation: usize,
    pub ga: FitnessStats,
}

/// What a tick reports: the clock, and the fitness figures when the tick
/// ended a generation.
#[derive(Debug, Clone, Copy)]
pub struct SimulationStats {
    pub age: usize,
    pub generation_length: usize,
    pub generation: usize,
    pub fitness: Option<FitnessStats>,
}

impl SimulationStats {
    pub fn min_fitness(&self) -> (r: Option<usize>)
        ensures
            r == (match self.fitness { Some(f) => Some(f.min), None => None }),
    {
        match &self.fitness {
            Some(f) => Some(f.min),
            None => None,
        }
    }

    pub fn max_fitness(&self) -> (r: Option<usize>)
        ensures
            r == (match self.fitness { Some(f) => Some(f.max), None => None }),
    {
        match &self.fitness {
            Some(f) => Some(f.max),
            None => None,
        }
    }
}

/// Animals with the given bodies, none of which has eaten yet.
fn newborn<B>(bodies: Vec<B>) -> (r: Vec<Animal<B>>)
    ensures
        r@.len() == bodies@.len(),
        forall|i: int| 0 <= i < r@.len() ==> (#[trigger] r@[i]).body == bodies@[i] && r@[i].satiation == 0,
{
    let n = bodies.len();
    let mut rest = bodies;
    let mut reversed: Vec<Animal<B>> = Vec::new();
    while rest.len() > 0
        invariant
            rest@.len() + reversed@.len() == n,
            n == bodies@.len(),
            rest@ == bodies@.take(rest@.len() as int),
            forall|k: int| 0 <= k < reversed@.len() ==> (#[trigger] reversed@[k]).body == bodies@[n - 1 - k]
                && reversed@[k].satiation == 0,
        decreases rest@.len(),
    {
        let ghost len = rest@.len();
        let body = rest.pop().unwrap();
        proof {
            assert(body == bodies@[len - 1]);
            assert(rest@ =~= bodies@.take(rest@.len() as int));
        }
        reversed.push(Animal { body, satiation: 0 });
    }
    let mut animals: Vec<Animal<B>> = Vec::new();
    while reversed.len() > 0
        invariant
            reversed@.len() + animals@.len() == n,
            forall|k: int| 0 <= k < reversed@.len() ==> (#[trigger] reversed@[k]).body == bodies@[n - 1 - k]
                && reversed@[k].satiation == 0,
            forall|k: int| 0 <= k < animals@.len() ==> (#[trigger] animals@[k]).body == bodies@[k]
                && animals@[k].satiation == 0,
        decreases reversed@.len(),
    {
        let animal = reversed.pop().unwrap();
        animals.push(animal);
    }
    animals
}

/// One run of the simulation: its configuration, the current population,
/// the number of ticks since the last generation boundary (`age`) and the
/// number of completed generations.
#[derive(Debug)]
pub struct Simulation<B, F> {
    config: Config,
    world: World<B, F>,
    age: usize,
    generation: usize,
}

impl<B, F> Simulation<B, F> {
    /// The configuration of the run.
    pub closed spec fn config_spec(&self) -> Config {
        self.config
    }

    /// The current population.
    pub closed spec fn world_spec(&self) -> World<B, F> {
        self.world
    }

    /// Ticks since the last generation boundary.
    pub closed spec fn age_spec(&self) -> usize {
        self.age
    }

    /// Completed generations.
    pub closed spec fn generation_spec(&self) -> usize {
        self.generation
    }

    /// The configuration is valid, the population has its configured size,
    /// and the age has not passed the generation length.
    pub open spec fn wf(&self) -> bool {
        &&& self.config_spec().valid()
        &&& self.world_spec().animals_spec().len() == self.config_spec().world_animals
        &&& self.world_spec().foods_spec().len() == self.config_spec().world_foods
        &&& self.age_spec() <= self.config_spec().sim_generation_length
    }

    /// Starts a run at age 0 and generation 0 with the given bodies and
    /// foods; no animal has eaten yet.
    pub fn new(config: Config, bodies: Vec<B>, foods: Vec<F>) -> (r: Result<Self, ConfigError>)
        ensures
            r.is_ok() <==> (config.valid() && bodies@.len() == config.world_animals
                && foods@.len() == config.world_foods),
            !config.valid() ==> (r matches Err(e) && Err::<(), ConfigError>(e) == config.validate_spec()),
            config.valid() && bodies@.len() != config.world_animals ==> r == Err::<Self, _>(ConfigError::AnimalCountMismatch),
            config.valid() && bodies@.len() == config.world_animals && foods@.len() != config.world_foods
                ==> r == Err::<Self, _>(ConfigError::FoodCountMismatch),
            r matches Ok(s) ==> {
                &&& s.wf()
                &&& s.config_spec() == config
                &&& s.age_spec() == 0
                &&& s.generation_spec() == 0
                &&& s.world_spec().foods_spec() == foods@
                &&& forall|i: int| 0 <= i < bodies@.len() ==>
                    (#[trigger] s.world_spec().animals_spec()[i]).body == bodies@[i]
                    && s.world_spec().animals_spec()[i].satiation == 0
            },
    {
        match config.validate() {
            Err(e) => {
                return Err(e);
            },
            Ok(()) => {},
        }
        if bodies.len() != config.world_animals {
            return Err(ConfigError::AnimalCountMismatch);
        }
        if foods.len() != config.world_foods {
            return Err(ConfigError::FoodCountMismatch);
        }
        let animals = newborn(bodies);
        Ok(Simulation { config, world: World { animals, foods }, age: 0, generation: 0 })
    }
}

impl<B, F> Simulation<B, F> {
    pub fn config(&self) -> (r: &Config)
        ensures
            *r == self.config_spec(),
    {
        &self.config
    }

    pub fn world(&self) -> (r: &World<B, F>)
        ensures
            *r == self.world_spec(),
    {
        &self.world
    }

    /// Ticks since the last generation boundary.
    pub fn age(&self) -> (r: usize)
        ensures
            r == self.age_spec(),
    {
        self.age
    }

    /// Completed generations.
    pub fn generation(&self) -> (r: usize)
        ensures
            r == self.generation_spec(),
    {
        self.generation
    }

    /// Replaces the body of animal `i` (after it sensed, decided or moved);
    /// its satiation and everything else stay.
    pub fn set_body(&mut self, i: usize, body: B)
        requires
            old(self).wf(),
            i < old(self).world_spec().animals_spec().len(),
        ensures
            final(self).wf(),
            final(self).config_spec() == old(self).config_spec(),
            final(self).age_spec() == old(self).age_spec(),
            final(self).generation_spec() == old(self).generation_spec(),
            final(self).world_spec().foods_spec() == old(self).world_spec().foods_spec(),
            final(self).world_spec().animals_spec() == old(self).world_spec().animals_spec().update(
                i as int,
                Animal { body, satiation: old(self).world_spec().animals_spec()[i as int].satiation },
            ),
    {
        let satiation = self.world.animals[i].satiation;
        self.world.animals.set(i, Animal { body, satiation });
    }

    /// Puts food `i` somewhere else (where it was eaten, or at a boundary).
    pub fn set_food(&mut self, i: usize, food: F)
        requires
            old(self).wf(),
            i < old(self).world_spec().foods_spec().len(),
        ensures
            final(self).wf(),
            final(self).config_spec() == old(self).config_spec(),
            final(self).age_spec() == old(self).age_spec(),
            final(self).generation_spec() == old(self).generation_spec(),
            final(self).world_spec().animals_spec() == old(self).world_spec().animals_spec(),
            final(self).world_spec().foods_spec() == old(self).world_spec().foods_spec().update(i as int, food),
    {
        self.world.foods.set(i, food);
    }

    /// Animal `i` ate one food: its satiation grows by exactly one.
    pub fn record_meal(&mut self, i: usize)
        requires
            old(self).wf(),
            i < old(self).world_spec().animals_spec().len(),
            old(self).world_spec().animals_spec()[i as int].satiation < usize::MAX,
        ensures
            final(self).wf(),
            final(self).config_spec() == old(self).config_spec(),
            final(self).age_spec() == old(self).age_spec(),
            final(self).generation_spec() == old(self).generation_spec(),
            final(self).world_spec().foods_spec() == old(self).world_spec().foods_spec(),
            final(self).world_spec().animals_spec().len() == old(self).world_spec().animals_spec().len(),
            forall|j: int| 0 <= j < old(self).world_spec().animals_spec().len() && j != i ==>
                #[trigger] final(self).world_spec().animals_spec()[j] == old(self).world_spec().animals_spec()[j],
            final(self).world_spec().animals_spec()[i as int].body == old(self).world_spec().animals_spec()[i as int].body,
            final(self).world_spec().animals_spec()[i as int].satiation
                == old(self).world_spec().animals_spec()[i as int].satiation + 1,
    {
        let mut animal = self.world.animals.remove(i);
        animal.satiation = animal.satiation + 1;
        self.world.animals.insert(i, animal);
    }

    /// Animal `i` eats food `j`: its satiation grows by exactly one and the
    /// food is put at `food`, a fresh place.
    pub fn eat(&mut self, i: usize, j: usize, food: F)
        requires
            old(self).wf(),
            i < old(self).world_spec().animals_spec().len(),
            j < old(self).world_spec().foods_spec().len(),
            old(self).world_spec().animals_spec()[i as int].satiation < usize::MAX,
        ensures
            final(self).wf(),
            final(self).config_spec() == old(self).config_spec(),
            final(self).age_spec() == old(self).age_spec(),
            final(self).generation_spec() == old(self).generation_spec(),
            final(self).world_spec().foods_spec() == old(self).world_spec().foods_spec().update(j as int, food),
            final(self).world_spec().animals_spec().len() == old(self).world_spec().animals_spec().len(),
            forall|k: int| 0 <= k < old(self).world_spec().animals_spec().len() && k != i ==>
                #[trigger] final(self).world_spec().animals_spec()[k] == old(self).world_spec().animals_spec()[k],
            final(self).world_spec().animals_spec()[i as int].body == old(self).world_spec().animals_spec()[i as int].body,
            final(self).world_spec().animals_spec()[i as int].satiation
                == old(self).world_spec().animals_spec()[i as int].satiation + 1,
    {
        self.record_meal(i);
        self.set_food(j, food);
    }

    /// Counts one tick. Returns whether this tick ends the generation, that
    /// is whether the age would pass the generation length; then the age
    /// stays where it is until `evolve` resets it. Otherwise the age grows
    /// by one.
    pub fn advance_age(&mut self) -> (due: bool)
        requires
            old(self).wf(),
        ensures
            final(self).wf(),
            due == (old(self).age_spec() + 1 > old(self).config_spec().sim_generation_length),
            final(self).age_spec() == (if due { old(self).age_spec() } else { (old(self).age_spec() + 1) as usize }),
            final(self).config_spec() == old(self).config_spec(),
            final(self).world_spec() == old(self).world_spec(),
            final(self).generation_spec() == old(self).generation_spec(),
    {
        if self.age >= self.config.sim_generation_length {
            true
        } else {
            self.age = self.age + 1;
            false
        }
    }

    /// The fitness that selection works on for each animal, in order.
    pub fn fitness(&self) -> (r: Vec<usize>)
        ensures
            r@.len() == self.world_spec().animals_spec().len(),
            forall|i: int| 0 <= i < r@.len() ==>
                r@[i] == selection_fitness(self.world_spec().satiations_spec(), self.config_spec().ga_reverse, i),
    {
        let satiations = self.world.satiations();
        fitness_values(&satiations, self.config.ga_reverse)
    }

    /// Generation boundary: replaces every animal by a newborn with the given
    /// body and every food by the given one, resets the age to 0 and counts
    /// the generation. Returns the raw satiation figures of the generation
    /// that ended.
    pub fn evolve(&mut self, bodies: Vec<B>, foods: Vec<F>) -> (r: Statistics)
        requires
            old(self).wf(),
            bodies@.len() == old(self).config_spec().world_animals,
            foods@.len() == old(self).config_spec().world_foods,
            old(self).generation_spec() < usize::MAX,
        ensures
            final(self).wf(),
            final(self).config_spec() == old(self).config_spec(),
            final(self).age_spec() == 0,
            final(self).generation_spec() == old(self).generation_spec() + 1,
            final(self).world_spec().foods_spec() == foods@,
            final(self).world_spec().animals_spec().len() == bodies@.len(),
            forall|i: int| 0 <= i < bodies@.len() ==>
                (#[trigger] final(self).world_spec().animals_spec()[i]).body == bodies@[i]
                && final(self).world_spec().animals_spec()[i].satiation == 0,
            r.generation == old(self).generation_spec(),
            r.ga.count == old(self).world_spec().animals_spec().len(),
            r.ga.min == seq_min(old(self).world_spec().satiations_spec()),
            r.ga.max == seq_max(old(self).world_spec().satiations_spec()),
            r.ga.sum == seq_sum(old(self).world_spec().satiations_spec()),
    {
        let satiations = self.world.satiations();
        let ga = fitness_stats(&satiations);
        let animals = newborn(bodies);
        self.world = World { animals, foods };
        self.age = 0;
        let generation = self.generation;
        self.generation = generation + 1;
        Statistics { generation, ga }
    }

    /// The report of a tick: the clock, and the figures of the generation
    /// that the tick ended, if it ended one.
    pub fn generate_statistics(&self, stats: &Option<Statistics>) -> (r: SimulationStats)
        ensures
            r.age == self.age_spec(),
            r.generation_length == self.config_spec().sim_generation_length,
            r.generation == self.generation_spec(),
            r.fitness == (match stats { Some(s) => Some(s.ga), None => None }),
    {
        let fitness = match stats {
            Some(s) => Some(FitnessStats { min: s.ga.min, max: s.ga.max, sum: s.ga.sum, count: s.ga.count }),
            None => None,
        };
        SimulationStats {
            age: self.age,
            generation_length: self.config.sim_generation_length,
            generation: self.generation,
            fitness,
        }
    }
}

/// Population size invariant: in every state that the methods of
/// `Simulation` produce, including right after a generation boundary, the
/// world holds exactly the configured numbers of animals and foods.
pub proof fn lemma_population_size<B, F>(sim: Simulation<B, F>)
    requires
        sim.wf(),
    ensures
        sim.world_spec().animals_spec().len() == sim.config_spec().world_animals,
        sim.world_spec().foods_spec().len() == sim.config_spec().world_foods,
{
}

} // verus!
