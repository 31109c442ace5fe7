//! Settings of an evolutionary training session: the strategy choices and the
//! integer parameters, with their names as shown to the user.
use crate::text::{chars_of, eq_ignore_ascii_case, spells_word};
use vstd::prelude::*;
use vstd::string::StringExecFns;

verus! {

/// The engine that evaluates the networks.
#[derive(Clone, Copy, Debug, PartialEq, Eq, Structural)]
pub enum Engine {
    /// Fixed-size arrays evaluated on the CPU.
    Cpu,
    /// Batched evaluation on the GPU.
    Gpu,
}

/// Parent selection strategy.
#[derive(Clone, Copy, Debug, PartialEq, Eq, Structural)]
pub enum SelectionStrategy {
    FitnessProportionate,
    Tournament,
    RankBased,
    Truncation,
}

/// How the result of a game is turned into fitness.
#[derive(Clone, Copy, Debug, PartialEq, Eq, Structural)]
pub enum FitnessFunc {
    /// Returns plus shots, with wins as the tie-breaker.
    CppEquivalent,
    /// Returns, with a bonus for the winner.
    ReturnFocused,
    /// Returns, with a larger bonus for reaching the winning score.
    VictoryOptimized,
}

/// Activation function of the network's hidden layers.
#[derive(Clone, Copy, Debug, PartialEq, Eq, Structural)]
pub enum Activation {
    ClampedLinear,
    Tanh,
    Relu,
    Atan,
    Sigmoid,
    Linear,
}

/// How a new generation is formed from the ranked population.
#[derive(Clone, Copy, Debug, PartialEq, Eq, Structural)]
pub enum ReproductionStrategy {
    /// The top square root of the population survive; every pair of them is
    /// crossed; mutated survivors fill the rest.
    CppEquivalent,
    /// The elites survive; the rest are mutated children of random pairs of elites.
    EliteCrossover,
}

/// How a genome is mutated.
#[derive(Clone, Copy, Debug, PartialEq, Eq, Structural)]
pub enum MutationStrategy {
    /// One randomly chosen gene is perturbed.
    CppEquivalent,
    /// Each gene is perturbed with the configured probability.
    Modern,
}

impl Default for Engine {
    fn default() -> (r: Engine)
        ensures
            r == Engine::Cpu,
    {
        Engine::Cpu
    }
}

impl Default for SelectionStrategy {
    fn default() -> (r: SelectionStrategy)
        ensures
            r == SelectionStrategy::Tournament,
    {
        SelectionStrategy::Tournament
    }
}

impl Default for FitnessFunc {
    fn default() -> (r: FitnessFunc)
        ensures
            r == FitnessFunc::CppEquivalent,
    {
        FitnessFunc::CppEquivalent
    }
}

impl Default for Activation {
    fn default() -> (r: Activation)
        ensures
            r == Activation::ClampedLinear,
    {
        Activation::ClampedLinear
    }
}

impl Default for ReproductionStrategy {
    fn default() -> (r: ReproductionStrategy)
        ensures
            r == ReproductionStrategy::CppEquivalent,
    {
        ReproductionStrategy::CppEquivalent
    }
}

impl Default for MutationStrategy {
    fn default() -> (r: MutationStrategy)
        ensures
            r == MutationStrategy::CppEquivalent,
    {
        MutationStrategy::CppEquivalent
    }
}

fn string_of(s: &str) -> (r: String)
    ensures
        r@ == s@,
{
    String::from_str(s)
}

impl Engine {
    pub open spec fn label(self) -> Seq<char> {
        match self {
            Engine::Cpu => "CPU"@,
            Engine::Gpu => "GPU"@,
        }
    }

    /// The name shown to the user.
    pub fn to_display_string(&self) -> (s: String)
        ensures
            s@ == self.label(),
    {
        match self {
            Engine::Cpu => string_of("CPU"),
            Engine::Gpu => string_of("GPU"),
        }
    }
}

impl SelectionStrategy {
    pub open spec fn label(self) -> Seq<char> {
        match self {
            SelectionStrategy::FitnessProportionate => "Fitness Proportionate"@,
            SelectionStrategy::Tournament => "Tournament"@,
            SelectionStrategy::RankBased => "Rank Based"@,
            SelectionStrategy::Truncation => "Truncation"@,
        }
    }

    /// The name shown to the user.
    pub fn to_display_string(&self) -> (s: String)
        ensures
            s@ == self.label(),
    {
        match self {
            SelectionStrategy::FitnessProportionate => string_of("Fitness Proportionate"),
            SelectionStrategy::Tournament => string_of("Tournament"),
            SelectionStrategy::RankBased => string_of("Rank Based"),
            SelectionStrategy::Truncation => string_of("Truncation"),
        }
    }
}

impl FitnessFunc {
    pub open spec fn label(self) -> Seq<char> {
        match self {
            FitnessFunc::CppEquivalent => "C++ Equivalent"@,
            FitnessFunc::ReturnFocused => "Return Focused"@,
            FitnessFunc::VictoryOptimized => "Victory Optimized"@,
        }
    }

    /// The name shown to the user.
    pub fn to_display_string(&self) -> (s: String)
        ensures
            s@ == self.label(),
    {
        match self {
            FitnessFunc::CppEquivalent => string_of("C++ Equivalent"),
            FitnessFunc::ReturnFocused => string_of("Return Focused"),
            FitnessFunc::VictoryOptimized => string_of("Victory Optimized"),
        }
    }
}

impl Activation {
    pub open spec fn label(self) -> Seq<char> {
        match self {
            Activation::ClampedLinear => "Clamped Linear"@,
            Activation::Tanh => "Tanh"@,
            Activation::Relu => "ReLU"@,
            Activation::Atan => "Atan"@,
            Activation::Sigmoid => "Sigmoid"@,
            Activation::Linear => "Linear"@,
        }
    }

    /// The name shown to the user.
    pub fn to_display_string(&self) -> (s: String)
        ensures
            s@ == self.label(),
    {
        match self {
            Activation::ClampedLinear => string_of("Clamped Linear"),
            Activation::Tanh => string_of("Tanh"),
            Activation::Relu => string_of("ReLU"),
            Activation::Atan => string_of("Atan"),
            Activation::Sigmoid => string_of("Sigmoid"),
            Activation::Linear => string_of("Linear"),
        }
    }
}

impl ReproductionStrategy {
    pub open spec fn label(self) -> Seq<char> {
        match self {
            ReproductionStrategy::CppEquivalent => "C++ Equivalent"@,
            ReproductionStrategy::EliteCrossover => "Elite Crossover"@,
        }
    }

    /// The name shown to the user.
    pub fn to_display_string(&self) -> (s: String)
        ensures
            s@ == self.label(),
    {
        match self {
            ReproductionStrategy::CppEquivalent => string_of("C++ Equivalent"),
            ReproductionStrategy::EliteCrossover => string_of("Elite Crossover"),
        }
    }
}

impl MutationStrategy {
    pub open spec fn label(self) -> Seq<char> {
        match self {
            MutationStrategy::CppEquivalent => "C++ Equivalent"@,
            MutationStrategy::Modern => "Modern"@,
        }
    }

    /// The name shown to the user.
    pub fn to_display_string(&self) -> (s: String)
        ensures
            s@ == self.label(),
    {
        match self {
            MutationStrategy::CppEquivalent => string_of("C++ Equivalent"),
            MutationStrategy::Modern => string_of("Modern"),
        }
    }
}

/// The activation that a command-line name selects: the name is compared
/// without regard to ASCII case with `clampedlinear`, `clamped_linear`,
/// `clamped-linear`, `tanh`, `relu`, `atan`, `sigmoid` and `linear`.
pub open spec fn activation_named(name: Seq<char>) -> Option<Activation> {
    if eq_ignore_ascii_case(name, seq!['c', 'l', 'a', 'm', 'p', 'e', 'd', 'l', 'i', 'n', 'e', 'a', 'r'])
        || eq_ignore_ascii_case(
        name,
        seq!['c', 'l', 'a', 'm', 'p', 'e', 'd', '_', 'l', 'i', 'n', 'e', 'a', 'r'],
    ) || eq_ignore_ascii_case(
        name,
        seq!['c', 'l', 'a', 'm', 'p', 'e', 'd', '-', 'l', 'i', 'n', 'e', 'a', 'r'],
    ) {
        Some(Activation::ClampedLinear)
    } else if eq_ignore_ascii_case(name, seq!['t', 'a', 'n', 'h']) {
        Some(Activation::Tanh)
    } else if eq_ignore_ascii_case(name, seq!['r', 'e', 'l', 'u']) {
        Some(Activation::Relu)
    } else if eq_ignore_ascii_case(name, seq!['a', 't', 'a', 'n']) {
        Some(Activation::Atan)
    } else if eq_ignore_ascii_case(name, seq!['s', 'i', 'g', 'm', 'o', 'i', 'd']) {
        Some(Activation::Sigmoid)
    } else if eq_ignore_ascii_case(name, seq!['l', 'i', 'n', 'e', 'a', 'r']) {
        Some(Activation::Linear)
    } else {
        None
    }
}

/// Reads an activation name given on the command line (see [`activation_named`]);
/// `None` for a name that selects none.
pub fn activation_from_name(name: &str) -> (r: Option<Activation>)
    ensures
        r == activation_named(name@),
{
    let v = chars_of(name);
    let n = v.len();
    let w1 = ['c', 'l', 'a', 'm', 'p', 'e', 'd', 'l', 'i', 'n', 'e', 'a', 'r'];
    let w2 = ['c', 'l', 'a', 'm', 'p', 'e', 'd', '_', 'l', 'i', 'n', 'e', 'a', 'r'];
    let w3 = ['c', 'l', 'a', 'm', 'p', 'e', 'd', '-', 'l', 'i', 'n', 'e', 'a', 'r'];
    let w4 = ['t', 'a', 'n', 'h'];
    let w5 = ['r', 'e', 'l', 'u'];
    let w6 = ['a', 't', 'a', 'n'];
    let w7 = ['s', 'i', 'g', 'm', 'o', 'i', 'd'];
    let w8 = ['l', 'i', 'n', 'e', 'a', 'r'];
    assert(v@.subrange(0, n as int) =~= name@);
    assert(w1@ =~= seq!['c', 'l', 'a', 'm', 'p', 'e', 'd', 'l', 'i', 'n', 'e', 'a', 'r']);
    assert(w2@ =~= seq!['c', 'l', 'a', 'm', 'p', 'e', 'd', '_', 'l', 'i', 'n', 'e', 'a', 'r']);
    assert(w3@ =~= seq!['c', 'l', 'a', 'm', 'p', 'e', 'd', '-', 'l', 'i', 'n', 'e', 'a', 'r']);
    assert(w4@ =~= seq!['t', 'a', 'n', 'h']);
    assert(w5@ =~= seq!['r', 'e', 'l', 'u']);
    assert(w6@ =~= seq!['a', 't', 'a', 'n']);
    assert(w7@ =~= seq!['s', 'i', 'g', 'm', 'o', 'i', 'd']);
    assert(w8@ =~= seq!['l', 'i', 'n', 'e', 'a', 'r']);
    if spells_word(&v, 0, n, &w1) || spells_word(&v, 0, n, &w2) || spells_word(&v, 0, n, &w3) {
        Some(Activation::ClampedLinear)
    } else if spells_word(&v, 0, n, &w4) {
        Some(Activation::Tanh)
    } else if spells_word(&v, 0, n, &w5) {
        Some(Activation::Relu)
    } else if spells_word(&v, 0, n, &w6) {
        Some(Activation::Atan)
    } else if spells_word(&v, 0, n, &w7) {
        Some(Activation::Sigmoid)
    } else if spells_word(&v, 0, n, &w8) {
        Some(Activation::Linear)
    } else {
        None
    }
}

/// The engine that a command-line name selects: exactly `cpu` or `gpu`.
pub open spec fn engine_named(name: Seq<char>) -> Option<Engine> {
    if name == seq!['c', 'p', 'u'] {
        Some(Engine::Cpu)
    } else if name == seq!['g', 'p', 'u'] {
        Some(Engine::Gpu)
    } else {
        None
    }
}

/// Reads an engine name given on the command line; `None` for an unknown name.
pub fn engine_from_name(name: &str) -> (r: Option<Engine>)
    ensures
        r == engine_named(name@),
{
    let v = chars_of(name);
    if v.len() == 3 && v[0] == 'c' && v[1] == 'p' && v[2] == 'u' {
        assert(v@ =~= seq!['c', 'p', 'u']);
        Some(Engine::Cpu)
    } else if v.len() == 3 && v[0] == 'g' && v[1] == 'p' && v[2] == 'u' {
        assert(v@ =~= seq!['g', 'p', 'u']);
        Some(Engine::Gpu)
    } else {
        assert(v@ != seq!['c', 'p', 'u']) by {
            if v@ == seq!['c', 'p', 'u'] {
                assert(v@[0] == 'c' && v@[1] == 'p' && v@[2] == 'u');
            }
        }
        assert(v@ != seq!['g', 'p', 'u']) by {
            if v@ == seq!['g', 'p', 'u'] {
                assert(v@[0] == 'g' && v@[1] == 'p' && v@[2] == 'u');
            }
        }
        None
    }
}

/// The integer, flag and strategy settings of a training session. The rates
/// and strengths, which are real numbers, are held beside these by the caller.
#[derive(Clone, Debug)]
pub struct TrainingSettings {
    /// A user-facing name for the model.
    pub name: Option<String>,
    pub engine: Engine,
    pub activation: Activation,
    /// Number of generations to evolve.
    pub generations: u32,
    /// Whether games are evaluated in parallel.
    pub concurrent: bool,
    /// Number of individuals per generation.
    pub population_size: usize,
    /// Number of best individuals carried over unchanged.
    pub elite_count: usize,
    pub selection_strategy: SelectionStrategy,
    /// Size of a selection tournament.
    pub tournament_size: usize,
    pub reproduction_strategy: ReproductionStrategy,
    pub mutation_strategy: MutationStrategy,
    /// Whether the mutation rate adapts to the population's diversity.
    pub adaptive_mutation: bool,
    /// Generations without improvement after which training stops.
    pub early_stopping_patience: Option<u32>,
    /// Whether diversity is tracked.
    pub track_diversity: bool,
    pub fitness_func: FitnessFunc,
    /// Whether fitness is normalised each generation.
    pub normalize_fitness: bool,
    /// Whether the serve direction is randomised.
    pub random_ball_direction: bool,
    /// Seed for reproducible runs.
    pub random_seed: Option<u64>,
}

impl TrainingSettings {
    /// The default settings of a training session.
    pub open spec fn is_default(self) -> bool {
        &&& self.name is None
        &&& self.engine == Engine::Cpu
        &&& self.activation == Activation::ClampedLinear
        &&& self.generations == 5000
        &&& !self.concurrent
        &&& self.population_size == 128
        &&& self.elite_count == 11
        &&& self.selection_strategy == SelectionStrategy::Tournament
        &&& self.tournament_size == 3
        &&& self.reproduction_strategy == ReproductionStrategy::CppEquivalent
        &&& self.mutation_strategy == MutationStrategy::CppEquivalent
        &&& !self.adaptive_mutation
        &&& self.early_stopping_patience is None
        &&& !self.track_diversity
        &&& self.fitness_func == FitnessFunc::CppEquivalent
        &&& !self.normalize_fitness
        &&& !self.random_ball_direction
        &&& self.random_seed is None
    }
}

impl Default for TrainingSettings {
    fn default() -> (r: TrainingSettings)
        ensures
            r.is_default(),
    {
        TrainingSettings {
            name: None,
            engine: Engine::Cpu,
            activation: Activation::ClampedLinear,
            generations: 5000,
            concurrent: false,
            population_size: 128,
            elite_count: 11,
            selection_strategy: SelectionStrategy::Tournament,
            tournament_size: 3,
            reproduction_strategy: ReproductionStrategy::CppEquivalent,
            mutation_strategy: MutationStrategy::CppEquivalent,
            adaptive_mutation: false,
            early_stopping_patience: None,
            track_diversity: false,
            fitness_func: FitnessFunc::CppEquivalent,
            normalize_fitness: false,
            random_ball_direction: false,
            random_seed: None,
        }
    }
}

} // verus!
