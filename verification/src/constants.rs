//! Fixed properties of the game world and of the network architecture.
use vstd::prelude::*;

verus! {

/// Width of the playing field in pixels.
pub const WIDTH: u16 = 400;

/// Height of the playing field in pixels.
pub const HEIGHT: u16 = 300;

/// Score at which a game ends.
pub const MAX_SCORE: u8 = 1;

/// Simulation ticks per second.
pub const TICK_RATE: u16 = 60;

/// Neurons in the input layer.
pub const INPUT_SIZE: usize = 8;

/// Neurons in the first hidden layer.
pub const HIDDEN1_SIZE: usize = 16;

/// Neurons in the second hidden layer.
pub const HIDDEN2_SIZE: usize = 4;

/// Neurons in the output layer.
pub const OUTPUT_SIZE: usize = 1;

/// Weights from the input layer (with its bias) into the first hidden layer.
pub const L1_WEIGHTS: usize = 144;

/// Weights from the first hidden layer (with its bias) into the second.
pub const L2_WEIGHTS: usize = 68;

/// Weights from the second hidden layer (with its bias) into the output.
pub const L3_WEIGHTS: usize = 5;

/// Number of weights of a network: its genome length.
pub const TOTAL_WEIGHTS: usize = 217;

/// The weight counts follow from the layer sizes, each neuron having one
/// weight per neuron of the layer before it and one for the bias.
pub proof fn lemma_weight_counts()
    ensures
        L1_WEIGHTS == HIDDEN1_SIZE * (INPUT_SIZE + 1),
        L2_WEIGHTS == HIDDEN2_SIZE * (HIDDEN1_SIZE + 1),
        L3_WEIGHTS == OUTPUT_SIZE * (HIDDEN2_SIZE + 1),
        TOTAL_WEIGHTS == L1_WEIGHTS + L2_WEIGHTS + L3_WEIGHTS,
{
}

} // verus!
