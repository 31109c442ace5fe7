use pong_evo::config::{
    activation_from_name, engine_from_name, Activation, Engine, FitnessFunc, MutationStrategy,
    ReproductionStrategy, SelectionStrategy, TrainingSettings,
};

#[test]
fn labels_shown_to_the_user() {
    assert_eq!(Engine::Cpu.to_display_string(), "CPU");
    assert_eq!(Engine::Gpu.to_display_string(), "GPU");
    assert_eq!(SelectionStrategy::FitnessProportionate.to_display_string(), "Fitness Proportionate");
    assert_eq!(SelectionStrategy::RankBased.to_display_string(), "Rank Based");
    assert_eq!(FitnessFunc::CppEquivalent.to_display_string(), "C++ Equivalent");
    assert_eq!(FitnessFunc::ReturnFocused.to_display_string(), "Return Focused");
    assert_eq!(FitnessFunc::VictoryOptimized.to_display_string(), "Victory Optimized");
    assert_eq!(Activation::ClampedLinear.to_display_string(), "Clamped Linear");
    assert_eq!(Activation::Relu.to_display_string(), "ReLU");
    assert_eq!(Activation::Sigmoid.to_display_string(), "Sigmoid");
    assert_eq!(ReproductionStrategy::EliteCrossover.to_display_string(), "Elite Crossover");
    assert_eq!(MutationStrategy::Modern.to_display_string(), "Modern");
    assert_eq!(MutationStrategy::CppEquivalent.to_display_string(), "C++ Equivalent");
}

#[test]
fn defaults() {
    assert_eq!(Engine::default(), Engine::Cpu);
    assert_eq!(SelectionStrategy::default(), SelectionStrategy::Tournament);
    assert_eq!(FitnessFunc::default(), FitnessFunc::CppEquivalent);
    assert_eq!(Activation::default(), Activation::ClampedLinear);
    assert_eq!(ReproductionStrategy::default(), ReproductionStrategy::CppEquivalent);
    assert_eq!(MutationStrategy::default(), MutationStrategy::CppEquivalent);
    let s = TrainingSettings::default();
    assert_eq!(s.generations, 5000);
    assert_eq!(s.population_size, 128);
    assert_eq!(s.elite_count, 11);
    assert_eq!(s.tournament_size, 3);
    assert!(!s.concurrent);
    assert!(s.name.is_none());
    assert!(s.random_seed.is_none());
    assert!(s.early_stopping_patience.is_none());
}

#[test]
fn activation_names_ignore_case() {
    assert_eq!(activation_from_name("tanh"), Some(Activation::Tanh));
    assert_eq!(activation_from_name("TANH"), Some(Activation::Tanh));
    assert_eq!(activation_from_name("ReLU"), Some(Activation::Relu));
    assert_eq!(activation_from_name("atan"), Some(Activation::Atan));
    assert_eq!(activation_from_name("Sigmoid"), Some(Activation::Sigmoid));
    assert_eq!(activation_from_name("linear"), Some(Activation::Linear));
    assert_eq!(activation_from_name("clampedlinear"), Some(Activation::ClampedLinear));
    assert_eq!(activation_from_name("Clamped_Linear"), Some(Activation::ClampedLinear));
    assert_eq!(activation_from_name("clamped-linear"), Some(Activation::ClampedLinear));
    assert_eq!(activation_from_name("clamped linear"), None);
    assert_eq!(activation_from_name(""), None);
    assert_eq!(activation_from_name("tanhh"), None);
}

#[test]
fn engine_names_are_lower_case() {
    assert_eq!(engine_from_name("cpu"), Some(Engine::Cpu));
    assert_eq!(engine_from_name("gpu"), Some(Engine::Gpu));
    assert_eq!(engine_from_name("CPU"), None);
    assert_eq!(engine_from_name("tpu"), None);
    assert_eq!(engine_from_name(""), None);
}
