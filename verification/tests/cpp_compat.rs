use pong_evo::config::{Activation, Engine, FitnessFunc, MutationStrategy, ReproductionStrategy};
use pong_evo::constants::TOTAL_WEIGHTS;
use pong_evo::cpp_compat::{
    create_cpp_compatible_config, decimal_string, detect_log_format, load_cpp_champion,
    load_cpp_champion_enhanced, CppCompatError, CppLogFormat, CppLogMetadata,
};
use rand::Rng;

fn generate_test_weights() -> Vec<f32> {
    let mut rng = rand::rng();
    (0..TOTAL_WEIGHTS).map(|_| rng.random_range(-1.0..1.0)).collect()
}

fn join_weights(weights: &[f32]) -> String {
    weights.iter().map(|w| w.to_string()).collect::<Vec<_>>().join(" ")
}

fn parse_weights(tokens: &[String]) -> Vec<f32> {
    tokens.iter().map(|t| t.parse::<f32>().unwrap()).collect()
}

#[test]
fn test_load_valid_champion_original_format() {
    let weights = generate_test_weights();
    let content = format!("4 8 16 4 1\n1\n{} {}\n", TOTAL_WEIGHTS, join_weights(&weights));

    let result = load_cpp_champion_enhanced(&content);
    assert!(result.is_ok());

    let (loaded, config, _metadata) = result.unwrap();
    assert_eq!(loaded.len(), TOTAL_WEIGHTS);
    assert_eq!(config.engine, Engine::Cpu);
    assert!(config.name.unwrap().contains("C++ Champion"));
    for (a, b) in parse_weights(&loaded).iter().zip(weights.iter()) {
        assert!((a - b).abs() < 1e-6);
    }
}

#[test]
fn test_multiple_generations() {
    let weights1 = generate_test_weights();
    let weights2 = generate_test_weights();
    let content = format!(
        "4 8 16 4 1\n1\n{} {}\n2\n{} {}\n",
        TOTAL_WEIGHTS,
        join_weights(&weights1),
        TOTAL_WEIGHTS,
        join_weights(&weights2)
    );

    let result = load_cpp_champion_enhanced(&content);
    assert!(result.is_ok());

    let (loaded, _, _metadata) = result.unwrap();
    for (a, b) in parse_weights(&loaded).iter().zip(weights2.iter()) {
        assert!((a - b).abs() < 1e-6);
    }
}

#[test]
fn test_malformed_data_handling() {
    let valid = generate_test_weights();
    let content = format!(
        "4 8 16 4 1\n1\n10 a b c\n2\n{} {}\n3\n5 d e f\n",
        TOTAL_WEIGHTS,
        join_weights(&valid)
    );

    let result = load_cpp_champion_enhanced(&content);
    assert!(result.is_ok());

    let (loaded, _, _metadata) = result.unwrap();
    assert_eq!(loaded.len(), TOTAL_WEIGHTS);
    for (a, b) in parse_weights(&loaded).iter().zip(valid.iter()) {
        assert!((a - b).abs() < 1e-6);
    }
}

#[test]
fn test_weight_count_mismatch() {
    let content = "4 8 16 4 1\n1\n3 1.0 2.0 3.0\n";
    let result = load_cpp_champion_enhanced(content);
    assert!(result.is_err());
    match result.unwrap_err() {
        CppCompatError::NoValidChampion => {}
        other => panic!("Expected NoValidChampion error, got: {}", other.to_display_string()),
    }
}

#[test]
fn test_empty_file() {
    let result = load_cpp_champion_enhanced("");
    assert!(result.is_err());
    match result.unwrap_err() {
        CppCompatError::NoValidChampion => {}
        other => panic!("Expected NoValidChampion error, got: {}", other.to_display_string()),
    }
}

#[test]
fn test_backwards_compatibility() {
    let weights = generate_test_weights();
    let content = format!("4 8 16 4 1\n1\n{} {}\n", TOTAL_WEIGHTS, join_weights(&weights));

    let result = load_cpp_champion(&content);
    assert!(result.is_ok());

    let (loaded, config) = result.unwrap();
    assert_eq!(loaded.len(), TOTAL_WEIGHTS);
    assert_eq!(config.engine, Engine::Cpu);
}

#[test]
fn generation_markers_are_counted_into_the_name() {
    let weights = generate_test_weights();
    let content = format!(
        "4 8 16 4 1\n1\n2\n{} {}\n3\n",
        TOTAL_WEIGHTS,
        join_weights(&weights)
    );
    let (_, config) = load_cpp_champion(&content).unwrap();
    assert_eq!(config.generations, 3);
    assert_eq!(config.name.as_deref(), Some("C++ Champion (3 generations)"));
}

#[test]
fn log_without_markers_names_unknown_generations() {
    let weights = generate_test_weights();
    let content = format!("4 8 16 4 1\n{} {}", TOTAL_WEIGHTS, join_weights(&weights));
    let (loaded, config) = load_cpp_champion(&content).unwrap();
    assert_eq!(loaded.len(), TOTAL_WEIGHTS);
    assert_eq!(config.generations, 0);
    assert_eq!(config.name.as_deref(), Some("C++ Champion (unknown generations)"));
}

#[test]
fn header_line_is_never_a_champion() {
    let weights = generate_test_weights();
    let content = format!("{} {}\n", TOTAL_WEIGHTS, join_weights(&weights));
    assert!(matches!(
        load_cpp_champion(&content),
        Err(CppCompatError::NoValidChampion)
    ));
}

#[test]
fn count_must_match_the_weights_on_the_line() {
    let weights = generate_test_weights();
    let content = format!("h\n{} {}\n", TOTAL_WEIGHTS + 1, join_weights(&weights));
    assert!(load_cpp_champion(&content).is_err());
    let mut short = weights.clone();
    short.pop();
    let content = format!("h\n{} {}\n", TOTAL_WEIGHTS, join_weights(&short));
    assert!(load_cpp_champion(&content).is_err());
}

#[test]
fn special_float_spellings_are_accepted() {
    let mut tokens: Vec<String> = vec!["0.5".to_string(); TOTAL_WEIGHTS];
    tokens[0] = "inf".to_string();
    tokens[1] = "-Infinity".to_string();
    tokens[2] = "NaN".to_string();
    tokens[3] = "+.5".to_string();
    tokens[4] = "1.".to_string();
    tokens[5] = "2E-3".to_string();
    tokens[6] = "7e+2".to_string();
    let content = format!("h\n  {}\t{}\r\n", TOTAL_WEIGHTS, tokens.join(" "));
    let (loaded, _) = load_cpp_champion(&content).unwrap();
    assert_eq!(loaded, tokens);
    for t in &loaded {
        assert!(t.parse::<f32>().is_ok());
    }
}

#[test]
fn malformed_float_spellings_are_refused() {
    for bad in ["1e", ".", "e5", "1.2.3", "--1", "1_0", "infinit", "0x10"] {
        assert!(bad.parse::<f32>().is_err());
        let mut tokens: Vec<String> = vec!["0.5".to_string(); TOTAL_WEIGHTS];
        tokens[10] = bad.to_string();
        let content = format!("h\n{} {}\n", TOTAL_WEIGHTS, tokens.join(" "));
        assert!(load_cpp_champion(&content).is_err(), "{bad}");
    }
}

#[test]
fn detects_formats_by_header() {
    assert_eq!(detect_log_format(&Some("4 8 16 4 1".to_string())), CppLogFormat::Original);
    assert_eq!(detect_log_format(&Some(" 4 8 16 4 +1 ".to_string())), CppLogFormat::Original);
    assert_eq!(detect_log_format(&Some("4 8 16 4 x".to_string())), CppLogFormat::Unknown);
    assert_eq!(detect_log_format(&Some("1 2 3 4 5 6".to_string())), CppLogFormat::Extended);
    assert_eq!(detect_log_format(&Some("4 8 16".to_string())), CppLogFormat::Unknown);
    assert_eq!(
        detect_log_format(&Some("4 8 16 4 4294967296".to_string())),
        CppLogFormat::Unknown
    );
    assert_eq!(detect_log_format(&None), CppLogFormat::Unknown);
}

#[test]
fn cpp_compatible_settings() {
    let s = create_cpp_compatible_config(7, &CppLogMetadata {});
    assert_eq!(s.name.as_deref(), Some("C++ Champion (7 generations)"));
    assert_eq!(s.engine, Engine::Cpu);
    assert_eq!(s.generations, 7);
    assert_eq!(s.population_size, 128);
    assert_eq!(s.elite_count, 2);
    assert_eq!(s.tournament_size, 3);
    assert_eq!(s.activation, Activation::ClampedLinear);
    assert_eq!(s.reproduction_strategy, ReproductionStrategy::CppEquivalent);
    assert_eq!(s.mutation_strategy, MutationStrategy::CppEquivalent);
    assert_eq!(s.fitness_func, FitnessFunc::CppEquivalent);
    assert!(!s.concurrent);
}

#[test]
fn error_messages() {
    assert_eq!(
        CppCompatError::NoValidChampion.to_display_string(),
        "No valid champion found in the C++ log file"
    );
    assert_eq!(
        CppCompatError::WeightMismatch { expected: 217, found: 3 }.to_display_string(),
        "Weight count mismatch. Expected 217, found 3"
    );
    assert_eq!(
        CppCompatError::FileNotFound("x.log".to_string()).to_display_string(),
        "C++ log file not found at: x.log"
    );
    let io = std::io::Error::new(std::io::ErrorKind::Other, "boom");
    let e: CppCompatError = io.into();
    assert_eq!(e.to_display_string(), "I/O error reading C++ log file: boom");
}

#[test]
fn decimal_rendering() {
    assert_eq!(decimal_string(0), "0");
    assert_eq!(decimal_string(9), "9");
    assert_eq!(decimal_string(10), "10");
    assert_eq!(decimal_string(1234567890), "1234567890");
    assert_eq!(decimal_string(u64::MAX), u64::MAX.to_string());
}

#[test]
fn short_reader_agrees_with_full_reader() {
    let weights = generate_test_weights();
    let good = format!("4 8 16 4 1\n7\n8\n{} {}\n", TOTAL_WEIGHTS, join_weights(&weights));
    let (w1, s1, _) = load_cpp_champion_enhanced(&good).unwrap();
    let (w2, s2) = load_cpp_champion(&good).unwrap();
    assert_eq!(w1, w2);
    assert_eq!(s1.name, s2.name);
    assert_eq!(s1.name.as_deref(), Some("C++ Champion (2 generations)"));
    assert_eq!(s1.generations, s2.generations);
    assert_eq!(s1.elite_count, s2.elite_count);
    let bad = "4 8 16 4 1\n1\n3 0.1 0.2\n";
    let e1 = load_cpp_champion_enhanced(bad).unwrap_err();
    let e2 = load_cpp_champion(bad).unwrap_err();
    assert!(matches!(e1, CppCompatError::NoValidChampion));
    assert_eq!(e1.to_display_string(), e2.to_display_string());
}

#[test]
fn champion_written_with_line_feed_is_read_back() {
    let first = generate_test_weights();
    let second = generate_test_weights();
    let log = format!("4 8 16 4 1\n1\n{} {}\n", TOTAL_WEIGHTS, join_weights(&first));
    let line = format!("{} {}", TOTAL_WEIGHTS, join_weights(&second));
    let with_feed = format!("{}{}\n", log, line);
    let without_feed = format!("{}{}", log, line);
    let (a, sa, _) = load_cpp_champion_enhanced(&with_feed).unwrap();
    let (b, sb, _) = load_cpp_champion_enhanced(&without_feed).unwrap();
    assert_eq!(a, b);
    assert_eq!(a, line.split_whitespace().skip(1).map(|s| s.to_string()).collect::<Vec<_>>());
    assert_eq!(sa.generations, 1);
    assert_eq!(sb.generations, 1);
}
