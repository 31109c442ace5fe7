use pong_evo::config::{Activation, Engine, FitnessFunc, MutationStrategy, ReproductionStrategy, TrainingSettings};
use pong_evo::navigation::{
    change_config_value, handle_config_input, handle_main_menu_input, handle_main_menu_keys,
    handle_menu_selection, handle_simulation_input, handle_training_input, initial_selection,
    menu_next, modify_config_value, select_next, select_previous, switch_focus, ConfigAction, Key,
    MenuAction, RealSetting, SettingsMenuAction, Tab, TrainingAction,
};

#[test]
fn tabs_cycle() {
    assert_eq!(Tab::Generations.next_tab(), Tab::Matchups);
    assert_eq!(Tab::Matchups.next_tab(), Tab::Generations);
}

#[test]
fn menu_selection_choices() {
    assert_eq!(handle_menu_selection(0), MenuAction::Configure);
    assert_eq!(handle_menu_selection(1), MenuAction::Play);
    assert_eq!(handle_menu_selection(2), MenuAction::Exit);
    assert_eq!(handle_menu_selection(3), MenuAction::Invalid);
}

#[test]
fn main_menu_keys() {
    assert_eq!(handle_main_menu_input(Some(2), Key::Down), (Some(0), MenuAction::Stay));
    assert_eq!(handle_main_menu_input(Some(0), Key::Up), (Some(2), MenuAction::Stay));
    assert_eq!(handle_main_menu_input(None, Key::Char('j')), (Some(0), MenuAction::Stay));
    assert_eq!(handle_main_menu_input(Some(1), Key::Enter), (Some(1), MenuAction::Play));
    assert_eq!(handle_main_menu_input(None, Key::Enter), (None, MenuAction::Stay));
    assert_eq!(handle_main_menu_input(None, Key::Char('3')), (Some(2), MenuAction::Exit));
    assert_eq!(handle_main_menu_input(Some(1), Key::Esc), (Some(1), MenuAction::Exit));
    assert_eq!(handle_main_menu_input(Some(1), Key::Other), (Some(1), MenuAction::Stay));
}

#[test]
fn main_menu_down_then_up_returns() {
    for i in 0..3 {
        let (s, _) = handle_main_menu_input(Some(i), Key::Down);
        assert_eq!(handle_main_menu_input(s, Key::Up).0, Some(i));
    }
}

#[test]
fn config_keys() {
    assert_eq!(handle_config_input(Some(10), Key::Down), ConfigAction::Select(0));
    assert_eq!(handle_config_input(None, Key::Up), ConfigAction::Select(10));
    assert_eq!(handle_config_input(Some(3), Key::Left), ConfigAction::Change(false));
    assert_eq!(handle_config_input(Some(3), Key::Right), ConfigAction::Change(true));
    assert_eq!(handle_config_input(Some(3), Key::Enter), ConfigAction::StartTraining);
    assert_eq!(handle_config_input(Some(3), Key::Char('q')), ConfigAction::Back);
    assert_eq!(handle_config_input(Some(3), Key::Tab), ConfigAction::Stay);
}

#[test]
fn change_config_value_steps_settings() {
    let mut s = TrainingSettings::default();
    assert_eq!(change_config_value(&mut s, 0, true), RealSetting::NotReal);
    assert_eq!(s.engine, Engine::Gpu);
    change_config_value(&mut s, 1, true);
    assert_eq!(s.generations, 5050);
    s.generations = 40;
    change_config_value(&mut s, 1, false);
    assert_eq!(s.generations, 10);
    change_config_value(&mut s, 2, false);
    assert_eq!(s.population_size, 118);
    s.population_size = 5;
    change_config_value(&mut s, 2, false);
    assert_eq!(s.population_size, 10);
    s.elite_count = 1;
    change_config_value(&mut s, 3, false);
    assert_eq!(s.elite_count, 1);
    change_config_value(&mut s, 3, true);
    assert_eq!(s.elite_count, 2);
    assert_eq!(change_config_value(&mut s, 4, true), RealSetting::MutationRate);
    assert_eq!(change_config_value(&mut s, 5, false), RealSetting::MutationStrength);
    change_config_value(&mut s, 6, false);
    assert_eq!(s.activation, Activation::Linear);
    change_config_value(&mut s, 6, true);
    assert_eq!(s.activation, Activation::ClampedLinear);
    change_config_value(&mut s, 7, true);
    assert_eq!(s.reproduction_strategy, ReproductionStrategy::EliteCrossover);
    change_config_value(&mut s, 8, true);
    assert_eq!(s.mutation_strategy, MutationStrategy::Modern);
    change_config_value(&mut s, 9, false);
    assert_eq!(s.fitness_func, FitnessFunc::VictoryOptimized);
    change_config_value(&mut s, 10, true);
    assert!(s.concurrent);
    assert_eq!(change_config_value(&mut s, 11, true), RealSetting::NotReal);
}

#[test]
fn modify_config_value_single_steps() {
    let mut s = TrainingSettings::default();
    s.concurrent = true;
    modify_config_value(&mut s, 0, true);
    assert_eq!(s.engine, Engine::Gpu);
    assert!(!s.concurrent);
    modify_config_value(&mut s, 0, true);
    assert_eq!(s.engine, Engine::Cpu);
    modify_config_value(&mut s, 0, false);
    assert_eq!(s.engine, Engine::Cpu);
    modify_config_value(&mut s, 1, true);
    assert_eq!(s.generations, 5001);
    s.generations = 0;
    modify_config_value(&mut s, 1, false);
    assert_eq!(s.generations, 0);
    s.population_size = usize::MAX;
    modify_config_value(&mut s, 2, true);
    assert_eq!(s.population_size, usize::MAX);
    s.elite_count = 0;
    modify_config_value(&mut s, 3, false);
    assert_eq!(s.elite_count, 0);
    s.activation = Activation::Linear;
    modify_config_value(&mut s, 6, true);
    assert_eq!(s.activation, Activation::Tanh);
    modify_config_value(&mut s, 6, false);
    assert_eq!(s.activation, Activation::Tanh);
    s.activation = Activation::Sigmoid;
    modify_config_value(&mut s, 6, true);
    assert_eq!(s.activation, Activation::Relu);
    assert_eq!(modify_config_value(&mut s, 4, true), RealSetting::MutationRate);
}

#[test]
fn settings_menu_keys() {
    assert_eq!(handle_main_menu_keys(Some(7), Key::Down), (Some(7), SettingsMenuAction::Stay));
    assert_eq!(handle_main_menu_keys(None, Key::Down), (Some(1), SettingsMenuAction::Stay));
    assert_eq!(handle_main_menu_keys(Some(0), Key::Up), (Some(0), SettingsMenuAction::Stay));
    assert_eq!(handle_main_menu_keys(Some(3), Key::Up), (Some(2), SettingsMenuAction::Stay));
    assert_eq!(handle_main_menu_keys(Some(7), Key::Enter), (Some(7), SettingsMenuAction::StartTraining));
    assert_eq!(handle_main_menu_keys(Some(6), Key::Enter), (Some(6), SettingsMenuAction::Stay));
    assert_eq!(handle_main_menu_keys(Some(2), Key::Left), (Some(2), SettingsMenuAction::Modify(false)));
    assert_eq!(handle_main_menu_keys(Some(2), Key::Char('q')), (Some(2), SettingsMenuAction::Exit));
}

#[test]
fn row_selection_wraps() {
    assert_eq!(select_next(Some(4), 5), 0);
    assert_eq!(select_next(Some(1), 5), 2);
    assert_eq!(select_next(None, 5), 0);
    assert_eq!(select_previous(Some(0), 5), 4);
    assert_eq!(select_previous(Some(3), 5), 2);
    assert_eq!(select_previous(select_next(Some(2), 5).into(), 5), 2);
    assert_eq!(initial_selection(0), None);
    assert_eq!(initial_selection(3), Some(0));
    assert_eq!(switch_focus(0), 1);
    assert_eq!(switch_focus(1), 0);
    assert_eq!(menu_next(Some(2), 3), 0);
    assert_eq!(menu_next(None, 3), 0);
}

#[test]
fn training_and_simulation_keys() {
    assert_eq!(handle_training_input(Key::Char('q'), true, 31, 5), TrainingAction::SaveAndLeave);
    assert_eq!(handle_training_input(Key::Esc, true, 30, 5), TrainingAction::Leave);
    assert_eq!(handle_training_input(Key::Esc, true, 100, 0), TrainingAction::Leave);
    assert_eq!(handle_training_input(Key::Enter, true, 100, 5), TrainingAction::Stay);
    assert_eq!(handle_training_input(Key::Enter, false, 100, 5), TrainingAction::Leave);
    assert_eq!(handle_training_input(Key::Up, false, 100, 5), TrainingAction::Stay);
    assert!(handle_simulation_input(Key::Char('q')));
    assert!(handle_simulation_input(Key::Esc));
    assert!(!handle_simulation_input(Key::Enter));
}

#[test]
fn modify_config_value_leaves_other_settings() {
    let mut s = TrainingSettings::default();
    s.tournament_size = 7;
    s.random_seed = Some(42);
    s.early_stopping_patience = Some(3);
    s.adaptive_mutation = true;
    for row in 0..9 {
        modify_config_value(&mut s, row, true);
        modify_config_value(&mut s, row, false);
        assert_eq!(s.tournament_size, 7);
        assert_eq!(s.random_seed, Some(42));
        assert_eq!(s.early_stopping_patience, Some(3));
        assert!(s.adaptive_mutation);
        assert_eq!(s.fitness_func, FitnessFunc::CppEquivalent);
    }
}
