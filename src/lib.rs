//! A small feed-forward neural network: a stack of dense layers whose
//! weights and biases are held as IEEE-754 binary64 bit patterns, with
//! shape-checked mutation and a self-checking binary encoding.
use vstd::prelude::*;

pub mod activation;
pub mod matrix;
pub mod error;
pub mod layer;
pub mod network;
pub mod codec;

pub use activation::ActivationFunction;
pub use matrix::Matrix;
pub use error::{NetworkError, DecodeError};
pub use layer::Layer;
pub use network::NeuralNetwork;
