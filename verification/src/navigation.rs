//! How the terminal interface responds to keys: which screen comes next, which
//! row is selected, and how a training setting changes when it is edited.
use crate::config::{
    Activation, Engine, FitnessFunc, MutationStrategy, ReproductionStrategy, TrainingSettings,
};
use vstd::prelude::*;

verus! {

/// The screen the interface shows.
#[derive(Clone, Copy, Debug, PartialEq, Eq, Structural)]
pub enum AppState {
    MainMenu,
    SimulationSetup,
    Configuring,
    Training,
    Simulation,
    Exiting,
}

/// The tabs of the training screen.
#[derive(Clone, Copy, Debug, PartialEq, Eq, Structural)]
pub enum Tab {
    Generations,
    Matchups,
}

/// The tab after `t`, cycling.
pub open spec fn tab_after(t: Tab) -> Tab {
    match t {
        Tab::Generations => Tab::Matchups,
        Tab::Matchups => Tab::Generations,
    }
}

impl Tab {
    /// The tab after this one, cycling.
    pub fn next_tab(self) -> (t: Tab)
        ensures
            t == tab_after(self),
    {
        match self {
            Tab::Generations => Tab::Matchups,
            Tab::Matchups => Tab::Generations,
        }
    }
}

/// A key press, as far as the interface tells keys apart.
#[derive(Clone, Copy, Debug, PartialEq, Eq, Structural)]
pub enum Key {
    Up,
    Down,
    Left,
    Right,
    Enter,
    Tab,
    Esc,
    Char(char),
    Other,
}

/// Number of entries of the main menu: train, play, exit.
pub const MAIN_MENU_ITEMS: usize = 3;

/// What choosing a main-menu entry asks for.
#[derive(Clone, Copy, Debug, PartialEq, Eq, Structural)]
pub enum MenuAction {
    /// Nothing beyond the new selection.
    Stay,
    /// Open the training configuration.
    Configure,
    /// Load the saved models and open the match setup.
    Play,
    /// Leave the application.
    Exit,
    /// An entry that does not exist was chosen.
    Invalid,
}

/// What choosing entry `selected` of the main menu asks for.
pub open spec fn menu_choice(selected: usize) -> MenuAction {
    if selected == 0 {
        MenuAction::Configure
    } else if selected == 1 {
        MenuAction::Play
    } else if selected == 2 {
        MenuAction::Exit
    } else {
        MenuAction::Invalid
    }
}

/// Chooses entry `selected` of the main menu.
pub fn handle_menu_selection(selected: usize) -> (a: MenuAction)
    ensures
        a == menu_choice(selected),
{
    if selected == 0 {
        MenuAction::Configure
    } else if selected == 1 {
        MenuAction::Play
    } else if selected == 2 {
        MenuAction::Exit
    } else {
        MenuAction::Invalid
    }
}

/// The selection and the request that a key press on the main menu gives:
/// `q`, `Q` and Esc leave; Down or `j` and Up or `k` move the selection
/// cyclically (to the first entry when none is selected); Enter and space
/// choose the selected entry; `1`, `2`, `3` select and choose an entry.
pub open spec fn main_menu_step(selected: Option<usize>, key: Key) -> (Option<usize>, MenuAction) {
    match key {
        Key::Char('q') | Key::Char('Q') | Key::Esc => (selected, MenuAction::Exit),
        Key::Down | Key::Char('j') => (
            Some(
                match selected {
                    Some(i) => ((i + 1) % (MAIN_MENU_ITEMS as int)) as usize,
                    None => 0,
                },
            ),
            MenuAction::Stay,
        ),
        Key::Up | Key::Char('k') => (
            Some(
                match selected {
                    Some(i) => ((i + MAIN_MENU_ITEMS - 1) % (MAIN_MENU_ITEMS as int)) as usize,
                    None => 0,
                },
            ),
            MenuAction::Stay,
        ),
        Key::Enter | Key::Char(' ') => (
            selected,
            match selected {
                Some(i) => menu_choice(i),
                None => MenuAction::Stay,
            },
        ),
        Key::Char('1') => (Some(0), menu_choice(0)),
        Key::Char('2') => (Some(1), menu_choice(1)),
        Key::Char('3') => (Some(2), menu_choice(2)),
        _ => (selected, MenuAction::Stay),
    }
}

/// Handles a key press on the main menu (see [`main_menu_step`]).
pub fn handle_main_menu_input(selected: Option<usize>, key: Key) -> (r: (Option<usize>, MenuAction))
    requires
        selected matches Some(i) ==> i <= usize::MAX - MAIN_MENU_ITEMS,
    ensures
        r == main_menu_step(selected, key),
{
    match key {
        Key::Char('q') | Key::Char('Q') | Key::Esc => (selected, MenuAction::Exit),
        Key::Down | Key::Char('j') => {
            let i = match selected {
                Some(i) => (i + 1) % MAIN_MENU_ITEMS,
                None => 0,
            };
            (Some(i), MenuAction::Stay)
        },
        Key::Up | Key::Char('k') => {
            let i = match selected {
                Some(i) => (i + MAIN_MENU_ITEMS - 1) % MAIN_MENU_ITEMS,
                None => 0,
            };
            (Some(i), MenuAction::Stay)
        },
        Key::Enter | Key::Char(' ') => match selected {
            Some(i) => (selected, handle_menu_selection(i)),
            None => (selected, MenuAction::Stay),
        },
        Key::Char('1') => (Some(0), handle_menu_selection(0)),
        Key::Char('2') => (Some(1), handle_menu_selection(1)),
        Key::Char('3') => (Some(2), handle_menu_selection(2)),
        _ => (selected, MenuAction::Stay),
    }
}

/// Number of rows of the training configuration table.
pub const CONFIG_ITEMS: usize = 11;

/// What a key press on the configuration screen asks for.
#[derive(Clone, Copy, Debug, PartialEq, Eq, Structural)]
pub enum ConfigAction {
    /// Nothing.
    Stay,
    /// Select a row.
    Select(usize),
    /// Change the selected setting up (`true`) or down.
    Change(bool),
    /// Start training with the settings.
    StartTraining,
    /// Return to the main menu.
    Back,
}

/// The request of a key press on the configuration screen: `q` and Esc go
/// back; Down and Up move the selection cyclically (from the first row when
/// none is selected); Right and Left change the selected setting up or down;
/// Enter starts training.
pub open spec fn config_step(selected: Option<usize>, key: Key) -> ConfigAction {
    let s: int = match selected {
        Some(i) => i as int,
        None => 0,
    };
    match key {
        Key::Char('q') | Key::Esc => ConfigAction::Back,
        Key::Down => ConfigAction::Select(((s + 1) % (CONFIG_ITEMS as int)) as usize),
        Key::Up => ConfigAction::Select(((s + CONFIG_ITEMS - 1) % (CONFIG_ITEMS as int)) as usize),
        Key::Left => ConfigAction::Change(false),
        Key::Right => ConfigAction::Change(true),
        Key::Enter => ConfigAction::StartTraining,
        _ => ConfigAction::Stay,
    }
}

/// Handles a key press on the configuration screen (see [`config_step`]).
pub fn handle_config_input(selected: Option<usize>, key: Key) -> (a: ConfigAction)
    requires
        selected matches Some(i) ==> i <= usize::MAX - CONFIG_ITEMS,
    ensures
        a == config_step(selected, key),
{
    let s = match selected {
        Some(i) => i,
        None => 0,
    };
    match key {
        Key::Char('q') | Key::Esc => ConfigAction::Back,
        Key::Down => ConfigAction::Select((s + 1) % CONFIG_ITEMS),
        Key::Up => ConfigAction::Select((s + CONFIG_ITEMS - 1) % CONFIG_ITEMS),
        Key::Left => ConfigAction::Change(false),
        Key::Right => ConfigAction::Change(true),
        Key::Enter => ConfigAction::StartTraining,
        _ => ConfigAction::Stay,
    }
}

/// A real-valued setting that the caller changes itself.
#[derive(Clone, Copy, Debug, PartialEq, Eq, Structural)]
pub enum RealSetting {
    /// The row holds no real-valued setting.
    NotReal,
    MutationRate,
    MutationStrength,
}

/// The activation after `a` in the cycle ClampedLinear, Tanh, ReLU, Atan,
/// Sigmoid, Linear (forwards or backwards).
pub open spec fn cycle_activation(a: Activation, increase: bool) -> Activation {
    match a {
        Activation::ClampedLinear => if increase { Activation::Tanh } else { Activation::Linear },
        Activation::Tanh => if increase { Activation::Relu } else { Activation::ClampedLinear },
        Activation::Relu => if increase { Activation::Atan } else { Activation::Tanh },
        Activation::Atan => if increase { Activation::Sigmoid } else { Activation::Relu },
        Activation::Sigmoid => if increase { Activation::Linear } else { Activation::Atan },
        Activation::Linear => if increase { Activation::ClampedLinear } else { Activation::Sigmoid },
    }
}

/// The fitness function after `f` in the cycle C++ Equivalent, Return
/// Focused, Victory Optimized (forwards or backwards).
pub open spec fn cycle_fitness(f: FitnessFunc, increase: bool) -> FitnessFunc {
    match f {
        FitnessFunc::CppEquivalent => if increase {
            FitnessFunc::ReturnFocused
        } else {
            FitnessFunc::VictoryOptimized
        },
        FitnessFunc::ReturnFocused => if increase {
            FitnessFunc::VictoryOptimized
        } else {
            FitnessFunc::CppEquivalent
        },
        FitnessFunc::VictoryOptimized => if increase {
            FitnessFunc::CppEquivalent
        } else {
            FitnessFunc::ReturnFocused
        },
    }
}

pub open spec fn other_engine(e: Engine) -> Engine {
    match e {
        Engine::Cpu => Engine::Gpu,
        Engine::Gpu => Engine::Cpu,
    }
}

pub open spec fn other_reproduction(r: ReproductionStrategy) -> ReproductionStrategy {
    match r {
        ReproductionStrategy::CppEquivalent => ReproductionStrategy::EliteCrossover,
        ReproductionStrategy::EliteCrossover => ReproductionStrategy::CppEquivalent,
    }
}

pub open spec fn other_mutation(m: MutationStrategy) -> MutationStrategy {
    match m {
        MutationStrategy::CppEquivalent => MutationStrategy::Modern,
        MutationStrategy::Modern => MutationStrategy::CppEquivalent,
    }
}

pub open spec fn max_int(a: int, b: int) -> int {
    if a >= b {
        a
    } else {
        b
    }
}

/// `new` is `old` with only the named field changed.
pub open spec fn same_except(old: TrainingSettings, new: TrainingSettings, row: int) -> bool {
    &&& new.name == old.name
    &&& row != 0 ==> new.engine == old.engine
    &&& row != 1 ==> new.generations == old.generations
    &&& row != 2 ==> new.population_size == old.population_size
    &&& row != 3 ==> new.elite_count == old.elite_count
    &&& row != 6 ==> new.activation == old.activation
    &&& row != 7 ==> new.reproduction_strategy == old.reproduction_strategy
    &&& row != 8 ==> new.mutation_strategy == old.mutation_strategy
    &&& row != 9 ==> new.fitness_func == old.fitness_func
    &&& row != 10 ==> new.concurrent == old.concurrent
    &&& new.selection_strategy == old.selection_strategy
    &&& new.tournament_size == old.tournament_size
    &&& new.adaptive_mutation == old.adaptive_mutation
    &&& new.early_stopping_patience == old.early_stopping_patience
    &&& new.track_diversity == old.track_diversity
    &&& new.normalize_fitness == old.normalize_fitness
    &&& new.random_ball_direction == old.random_ball_direction
    &&& new.random_seed == old.random_seed
}

/// Changes the setting of configuration row `row` up (`increase`) or down.
/// Row 0 switches the engine; rows 1 to 3 step the generations by 50 (at
/// least 10 when lowered), the population by 10 (at least 10 when lowered)
/// and the elites by 1 (at least 1 when lowered); row 6 cycles the
/// activation, row 9 the fitness function; rows 7 and 8 switch the
/// reproduction and mutation strategies; row 10 toggles parallel evaluation.
/// Rows 4 and 5 hold real numbers, which the caller changes: the result
/// names them.
pub fn change_config_value(settings: &mut TrainingSettings, row: usize, increase: bool) -> (r:
    RealSetting)
    requires
        row == 1 && increase ==> old(settings).generations + 50 <= u32::MAX,
        row == 2 && increase ==> old(settings).population_size + 10 <= usize::MAX,
        row == 3 && increase ==> old(settings).elite_count + 1 <= usize::MAX,
    ensures
        same_except(*old(settings), *final(settings), row as int),
        row == 0 ==> final(settings).engine == other_engine(old(settings).engine),
        row == 1 ==> final(settings).generations == if increase {
            old(settings).generations + 50
        } else {
            max_int(old(settings).generations - 50, 10)
        },
        row == 2 ==> final(settings).population_size == if increase {
            old(settings).population_size + 10
        } else {
            max_int(old(settings).population_size - 10, 10)
        },
        row == 3 ==> final(settings).elite_count == if increase {
            old(settings).elite_count + 1
        } else {
            max_int(old(settings).elite_count - 1, 1)
        },
        row == 6 ==> final(settings).activation == cycle_activation(old(settings).activation, increase),
        row == 7 ==> final(settings).reproduction_strategy == other_reproduction(
            old(settings).reproduction_strategy,
        ),
        row == 8 ==> final(settings).mutation_strategy == other_mutation(old(settings).mutation_strategy),
        row == 9 ==> final(settings).fitness_func == cycle_fitness(old(settings).fitness_func, increase),
        row == 10 ==> final(settings).concurrent == !old(settings).concurrent,
        r == (if row == 4 {
            RealSetting::MutationRate
        } else if row == 5 {
            RealSetting::MutationStrength
        } else {
            RealSetting::NotReal
        }),
{
    if row == 0 {
        settings.engine = match settings.engine {
            Engine::Cpu => Engine::Gpu,
            Engine::Gpu => Engine::Cpu,
        };
    } else if row == 1 {
        if increase {
            settings.generations = settings.generations + 50;
        } else {
            let g = settings.generations.saturating_sub(50);
            settings.generations = if g < 10 { 10 } else { g };
        }
    } else if row == 2 {
        if increase {
            settings.population_size = settings.population_size + 10;
        } else {
            let p = settings.population_size.saturating_sub(10);
            settings.population_size = if p < 10 { 10 } else { p };
        }
    } else if row == 3 {
        if increase {
            settings.elite_count = settings.elite_count + 1;
        } else {
            let e = settings.elite_count.saturating_sub(1);
            settings.elite_count = if e < 1 { 1 } else { e };
        }
    } else if row == 4 {
        return RealSetting::MutationRate;
    } else if row == 5 {
        return RealSetting::MutationStrength;
    } else if row == 6 {
        settings.activation = match settings.activation {
            Activation::ClampedLinear => if increase { Activation::Tanh } else { Activation::Linear },
            Activation::Tanh => if increase { Activation::Relu } else { Activation::ClampedLinear },
            Activation::Relu => if increase { Activation::Atan } else { Activation::Tanh },
            Activation::Atan => if increase { Activation::Sigmoid } else { Activation::Relu },
            Activation::Sigmoid => if increase { Activation::Linear } else { Activation::Atan },
            Activation::Linear => if increase {
                Activation::ClampedLinear
            } else {
                Activation::Sigmoid
            },
        };
    } else if row == 7 {
        settings.reproduction_strategy = match settings.reproduction_strategy {
            ReproductionStrategy::CppEquivalent => ReproductionStrategy::EliteCrossover,
            ReproductionStrategy::EliteCrossover => ReproductionStrategy::CppEquivalent,
        };
    } else if row == 8 {
        settings.mutation_strategy = match settings.mutation_strategy {
            MutationStrategy::CppEquivalent => MutationStrategy::Modern,
            MutationStrategy::Modern => MutationStrategy::CppEquivalent,
        };
    } else if row == 9 {
        settings.fitness_func = match settings.fitness_func {
            FitnessFunc::CppEquivalent => if increase {
                FitnessFunc::ReturnFocused
            } else {
                FitnessFunc::VictoryOptimized
            },
            FitnessFunc::ReturnFocused => if increase {
                FitnessFunc::VictoryOptimized
            } else {
                FitnessFunc::CppEquivalent
            },
            FitnessFunc::VictoryOptimized => if increase {
                FitnessFunc::CppEquivalent
            } else {
                FitnessFunc::ReturnFocused
            },
        };
    } else if row == 10 {
        settings.concurrent = !settings.concurrent;
    }
    RealSetting::NotReal
}

/// Position of an activation among Tanh, ReLU, Atan, Linear (the first for
/// any other).
pub open spec fn short_activation_index(a: Activation) -> int {
    match a {
        Activation::Tanh => 0,
        Activation::Relu => 1,
        Activation::Atan => 2,
        Activation::Linear => 3,
        _ => 0,
    }
}

pub open spec fn short_activation_at(i: int) -> Activation {
    if i == 0 {
        Activation::Tanh
    } else if i == 1 {
        Activation::Relu
    } else if i == 2 {
        Activation::Atan
    } else {
        Activation::Linear
    }
}

/// One step along a list of `len` entries from position `idx`: up wraps
/// from the last entry to the first, down stops at the first.
pub open spec fn list_step(idx: int, increase: bool, len: int) -> int {
    (if increase {
        idx + 1
    } else {
        max_int(idx - 1, 0)
    }) % len
}

pub open spec fn engine_index(e: Engine) -> int {
    match e {
        Engine::Cpu => 0,
        Engine::Gpu => 1,
    }
}

pub open spec fn engine_at(i: int) -> Engine {
    if i == 0 {
        Engine::Cpu
    } else {
        Engine::Gpu
    }
}

/// Changes the setting of row `row` of the single-step settings menu up or
/// down: row 0 steps the engine along CPU, GPU (and clears parallel
/// evaluation, which neither engine implies); rows 1 to 3 step the
/// generations, the population and the elites by one (the population and
/// the elites saturating; the generations not lowered below 0); row 6 steps
/// the activation along Tanh, ReLU, Atan, Linear. Rows 4 and 5 hold real
/// numbers, which the caller changes: the result names them.
pub fn modify_config_value(settings: &mut TrainingSettings, row: usize, increase: bool) -> (r:
    RealSetting)
    requires
        row == 1 && increase ==> old(settings).generations + 1 <= u32::MAX,
    ensures
        final(settings).name == old(settings).name,
        row != 0 ==> final(settings).engine == old(settings).engine,
        row != 0 ==> final(settings).concurrent == old(settings).concurrent,
        row != 1 ==> final(settings).generations == old(settings).generations,
        row != 2 ==> final(settings).population_size == old(settings).population_size,
        row != 3 ==> final(settings).elite_count == old(settings).elite_count,
        row != 6 ==> final(settings).activation == old(settings).activation,
        final(settings).reproduction_strategy == old(settings).reproduction_strategy,
        final(settings).mutation_strategy == old(settings).mutation_strategy,
        final(settings).fitness_func == old(settings).fitness_func,
        final(settings).selection_strategy == old(settings).selection_strategy,
        final(settings).tournament_size == old(settings).tournament_size,
        final(settings).adaptive_mutation == old(settings).adaptive_mutation,
        final(settings).early_stopping_patience == old(settings).early_stopping_patience,
        final(settings).track_diversity == old(settings).track_diversity,
        final(settings).normalize_fitness == old(settings).normalize_fitness,
        final(settings).random_ball_direction == old(settings).random_ball_direction,
        final(settings).random_seed == old(settings).random_seed,
        row == 0 ==> final(settings).engine == engine_at(
            list_step(engine_index(old(settings).engine), increase, 2),
        ) && !final(settings).concurrent,
        row == 1 ==> final(settings).generations == if increase {
            old(settings).generations + 1
        } else {
            max_int(old(settings).generations - 1, 0)
        },
        row == 2 ==> final(settings).population_size == if increase {
            if old(settings).population_size == usize::MAX {
                usize::MAX as int
            } else {
                old(settings).population_size + 1
            }
        } else {
            max_int(old(settings).population_size - 1, 0)
        },
        row == 3 ==> final(settings).elite_count == if increase {
            if old(settings).elite_count == usize::MAX {
                usize::MAX as int
            } else {
                old(settings).elite_count + 1
            }
        } else {
            max_int(old(settings).elite_count - 1, 0)
        },
        row == 6 ==> final(settings).activation == short_activation_at(
            list_step(short_activation_index(old(settings).activation), increase, 4),
        ),
        r == (if row == 4 {
            RealSetting::MutationRate
        } else if row == 5 {
            RealSetting::MutationStrength
        } else {
            RealSetting::NotReal
        }),
{
    if row == 0 {
        let current: usize = match settings.engine {
            Engine::Cpu => 0,
            Engine::Gpu => 1,
        };
        let mut next = if increase { current + 1 } else { current.saturating_sub(1) };
        next = next % 2;
        settings.engine = if next == 0 { Engine::Cpu } else { Engine::Gpu };
        settings.concurrent = false;
    } else if row == 1 {
        if increase {
            settings.generations = settings.generations + 1;
        } else {
            settings.generations = settings.generations.saturating_sub(1);
        }
    } else if row == 2 {
        if increase {
            settings.population_size = settings.population_size.saturating_add(1);
        } else {
            settings.population_size = settings.population_size.saturating_sub(1);
        }
    } else if row == 3 {
        if increase {
            settings.elite_count = settings.elite_count.saturating_add(1);
        } else {
            settings.elite_count = settings.elite_count.saturating_sub(1);
        }
    } else if row == 4 {
        return RealSetting::MutationRate;
    } else if row == 5 {
        return RealSetting::MutationStrength;
    } else if row == 6 {
        let current: usize = match settings.activation {
            Activation::Tanh => 0,
            Activation::Relu => 1,
            Activation::Atan => 2,
            Activation::Linear => 3,
            _ => 0,
        };
        let mut next = if increase { current + 1 } else { current.saturating_sub(1) };
        next = next % 4;
        settings.activation = if next == 0 {
            Activation::Tanh
        } else if next == 1 {
            Activation::Relu
        } else if next == 2 {
            Activation::Atan
        } else {
            Activation::Linear
        };
    }
    RealSetting::NotReal
}

/// Highest row of the single-step settings menu: its "start training" entry.
pub const SETTINGS_MENU_LAST: usize = 7;

/// What a key press on the single-step settings menu asks for.
#[derive(Clone, Copy, Debug, PartialEq, Eq, Structural)]
pub enum SettingsMenuAction {
    Stay,
    /// Change the selected setting up (`true`) or down.
    Modify(bool),
    StartTraining,
    Exit,
}

/// Handles a key press on the single-step settings menu: `q` leaves; Down
/// and Up move the selection within rows 0 to 7 without wrapping (from row 0
/// when none is selected); Right and Left change the selected setting; Enter
/// on row 7 starts training.
pub fn handle_main_menu_keys(selected: Option<usize>, key: Key) -> (r: (
    Option<usize>,
    SettingsMenuAction,
))
    ensures
        r == (match key {
            Key::Char('q') => (selected, SettingsMenuAction::Exit),
            Key::Down => {
                let s = match selected {
                    Some(i) => i,
                    None => 0,
                };
                (if s < SETTINGS_MENU_LAST {
                    Some((s + 1) as usize)
                } else {
                    selected
                }, SettingsMenuAction::Stay)
            },
            Key::Up => {
                let s = match selected {
                    Some(i) => i,
                    None => 0,
                };
                (if s > 0 {
                    Some((s - 1) as usize)
                } else {
                    selected
                }, SettingsMenuAction::Stay)
            },
            Key::Left => (selected, SettingsMenuAction::Modify(false)),
            Key::Right => (selected, SettingsMenuAction::Modify(true)),
            Key::Enter => (selected, if selected == Some(SETTINGS_MENU_LAST) {
                SettingsMenuAction::StartTraining
            } else {
                SettingsMenuAction::Stay
            }),
            _ => (selected, SettingsMenuAction::Stay),
        }),
{
    match key {
        Key::Char('q') => (selected, SettingsMenuAction::Exit),
        Key::Down => {
            let s = match selected {
                Some(i) => i,
                None => 0,
            };
            if s < SETTINGS_MENU_LAST {
                (Some(s + 1), SettingsMenuAction::Stay)
            } else {
                (selected, SettingsMenuAction::Stay)
            }
        },
        Key::Up => {
            let s = match selected {
                Some(i) => i,
                None => 0,
            };
            if s > 0 {
                (Some(s - 1), SettingsMenuAction::Stay)
            } else {
                (selected, SettingsMenuAction::Stay)
            }
        },
        Key::Left => (selected, SettingsMenuAction::Modify(false)),
        Key::Right => (selected, SettingsMenuAction::Modify(true)),
        Key::Enter => {
            let start = match selected {
                Some(i) => i == SETTINGS_MENU_LAST,
                None => false,
            };
            (selected, if start {
                SettingsMenuAction::StartTraining
            } else {
                SettingsMenuAction::Stay
            })
        },
        _ => (selected, SettingsMenuAction::Stay),
    }
}

/// The row after `selected` in a list of `len` rows, wrapping from the last
/// to the first; the first when none is selected.
pub open spec fn next_row(selected: Option<usize>, len: usize) -> usize {
    match selected {
        Some(i) => if i >= len - 1 {
            0
        } else {
            (i + 1) as usize
        },
        None => 0,
    }
}

/// The row before `selected` in a list of `len` rows, wrapping from the
/// first to the last; the first when none is selected.
pub open spec fn previous_row(selected: Option<usize>, len: usize) -> usize {
    match selected {
        Some(i) => if i == 0 {
            (len - 1) as usize
        } else {
            (i - 1) as usize
        },
        None => 0,
    }
}

/// The next row, wrapping from the last to the first; the first when none is
/// selected.
pub fn select_next(selected: Option<usize>, len: usize) -> (r: usize)
    requires
        selected is Some ==> len > 0,
    ensures
        r == next_row(selected, len),
{
    match selected {
        Some(i) => if i >= len - 1 {
            0
        } else {
            i + 1
        },
        None => 0,
    }
}

/// The previous row, wrapping from the first to the last; the first when
/// none is selected.
pub fn select_previous(selected: Option<usize>, len: usize) -> (r: usize)
    requires
        selected is Some ==> len > 0,
    ensures
        r == previous_row(selected, len),
{
    match selected {
        Some(i) => if i == 0 {
            len - 1
        } else {
            i - 1
        },
        None => 0,
    }
}

/// The row selected when a list of `len` rows is first shown.
pub fn initial_selection(len: usize) -> (r: Option<usize>)
    ensures
        r == (if len > 0 {
            Some(0usize)
        } else {
            None
        }),
{
    if len > 0 {
        Some(0)
    } else {
        None
    }
}

/// Switches between the two tables of the match setup (0 and 1).
pub fn switch_focus(active_table: usize) -> (r: usize)
    requires
        active_table <= 1,
    ensures
        r == 1 - active_table,
{
    1 - active_table
}

/// The next entry of a menu of `len` entries, wrapping; the first when none
/// is selected.
pub fn menu_next(selected: Option<usize>, len: usize) -> (r: usize)
    requires
        selected is Some ==> len > 0,
        selected matches Some(i) ==> i < usize::MAX,
    ensures
        r == (match selected {
            Some(i) => ((i + 1) % (len as int)) as usize,
            None => 0,
        }),
{
    match selected {
        Some(i) => (i + 1) % len,
        None => 0,
    }
}

/// What a key press on the training screen asks for.
#[derive(Clone, Copy, Debug, PartialEq, Eq, Structural)]
pub enum TrainingAction {
    Stay,
    /// Return to the main menu.
    Leave,
    /// Save the current champion, then return to the main menu.
    SaveAndLeave,
}

/// The request of a key press on the training screen: `q` and Esc leave,
/// saving the champion first when training has run for more than 30 seconds
/// and a champion exists; Enter leaves once training has finished.
pub fn handle_training_input(key: Key, running: bool, elapsed_secs: u64, champion_len: usize) -> (a:
    TrainingAction)
    ensures
        a == (match key {
            Key::Char('q') | Key::Esc => if elapsed_secs > 30 && champion_len > 0 {
                TrainingAction::SaveAndLeave
            } else {
                TrainingAction::Leave
            },
            Key::Enter => if !running {
                TrainingAction::Leave
            } else {
                TrainingAction::Stay
            },
            _ => TrainingAction::Stay,
        }),
{
    match key {
        Key::Char('q') | Key::Esc => if elapsed_secs > 30 && champion_len > 0 {
            TrainingAction::SaveAndLeave
        } else {
            TrainingAction::Leave
        },
        Key::Enter => if !running {
            TrainingAction::Leave
        } else {
            TrainingAction::Stay
        },
        _ => TrainingAction::Stay,
    }
}

/// Whether a key press on the match screen returns to the main menu (`q`, Esc).
pub fn handle_simulation_input(key: Key) -> (leave: bool)
    ensures
        leave == (key == Key::Char('q') || key == Key::Esc),
{
    match key {
        Key::Char('q') | Key::Esc => true,
        _ => false,
    }
}

/// Moving down the main menu and then up returns to the same entry, and so
/// does moving up and then down.
pub proof fn lemma_main_menu_moves_undo(i: usize)
    requires
        i < MAIN_MENU_ITEMS,
    ensures
        main_menu_step(main_menu_step(Some(i), Key::Down).0, Key::Up).0 == Some(i),
        main_menu_step(main_menu_step(Some(i), Key::Up).0, Key::Down).0 == Some(i),
{
}

/// Moving down the configuration table and then up returns to the same row,
/// and so does moving up and then down.
pub proof fn lemma_config_moves_undo(i: usize)
    requires
        i < CONFIG_ITEMS,
    ensures
        config_step(Some(i), Key::Down) matches ConfigAction::Select(j) && config_step(
            Some(j),
            Key::Up,
        ) == ConfigAction::Select(i),
        config_step(Some(i), Key::Up) matches ConfigAction::Select(j) && config_step(
            Some(j),
            Key::Down,
        ) == ConfigAction::Select(i),
{
}

/// In a list of rows, the next row's previous row is the row itself, and the
/// previous row's next row too.
pub proof fn lemma_row_moves_undo(i: usize, len: usize)
    requires
        i < len,
    ensures
        previous_row(Some(next_row(Some(i), len)), len) == i,
        next_row(Some(previous_row(Some(i), len)), len) == i,
{
}

/// Stepping a cyclic setting up and then down (or down and then up) leaves it
/// as it was; switching a two-way setting twice does too.
pub proof fn lemma_setting_cycles_undo(a: Activation, f: FitnessFunc, e: Engine, r: ReproductionStrategy, m: MutationStrategy, t: Tab)
    ensures
        cycle_activation(cycle_activation(a, true), false) == a,
        cycle_activation(cycle_activation(a, false), true) == a,
        cycle_fitness(cycle_fitness(f, true), false) == f,
        cycle_fitness(cycle_fitness(f, false), true) == f,
        other_engine(other_engine(e)) == e,
        other_reproduction(other_reproduction(r)) == r,
        other_mutation(other_mutation(m)) == m,
        tab_after(tab_after(t)) == t,
{
}

/// Place of an activation in the order the configuration screen lists them.
pub open spec fn activation_rank(a: Activation) -> int {
    match a {
        Activation::ClampedLinear => 0,
        Activation::Tanh => 1,
        Activation::Relu => 2,
        Activation::Atan => 3,
        Activation::Sigmoid => 4,
        Activation::Linear => 5,
    }
}

/// Place of a fitness function in the order the configuration screen lists them.
pub open spec fn fitness_rank(f: FitnessFunc) -> int {
    match f {
        FitnessFunc::CppEquivalent => 0,
        FitnessFunc::ReturnFocused => 1,
        FitnessFunc::VictoryOptimized => 2,
    }
}

/// Right on the activation or fitness row moves to the next entry of the
/// list, from the last back to the first, and Left to the previous one: so
/// stepping in one direction visits every entry before coming back.
pub proof fn lemma_settings_step_through_lists(a: Activation, f: FitnessFunc)
    ensures
        activation_rank(cycle_activation(a, true)) == (activation_rank(a) + 1) % 6,
        activation_rank(cycle_activation(a, false)) == (activation_rank(a) + 5) % 6,
        fitness_rank(cycle_fitness(f, true)) == (fitness_rank(f) + 1) % 3,
        fitness_rank(cycle_fitness(f, false)) == (fitness_rank(f) + 2) % 3,
        forall|g: FitnessFunc| #[trigger] fitness_rank(g) == fitness_rank(f) ==> g == f,
        forall|b: Activation| #[trigger] activation_rank(b) == activation_rank(a) ==> b == a,
{
}

/// `q`, `Q` and Esc leave the application from the main menu, whatever is
/// selected, and leave the selection as it was.
pub proof fn lemma_main_menu_exit_keys(selected: Option<usize>, key: Key)
    requires
        key == Key::Char('q') || key == Key::Char('Q') || key == Key::Esc,
    ensures
        main_menu_step(selected, key) == (selected, MenuAction::Exit),
{
}

/// `q` and Esc leave the configuration screen for the main menu, whatever is
/// selected.
pub proof fn lemma_config_exit_keys(selected: Option<usize>, key: Key)
    requires
        key == Key::Char('q') || key == Key::Esc,
    ensures
        config_step(selected, key) == ConfigAction::Back,
{
}

} // verus!
