use vstd::prelude::*;

verus! {

/// Why a network refused an access or an update; a refused update leaves
/// the network as it was.
#[derive(Clone, Copy, Debug, PartialEq, Eq, Structural)]
pub enum NetworkError {
    /// The layer index names no weighted layer (it is `0`, the input, or
    /// past the last layer).
    InvalidLayer,
    /// A replacement matrix or vector does not have the shape of what it
    /// would replace.
    ShapeMismatch,
    /// A neuron or input index lies outside the layer's weight matrix.
    OutOfBounds,
}

/// The bytes handed to the decoder are not the encoding of any network.
#[derive(Clone, Copy, Debug, PartialEq, Eq, Structural)]
pub struct DecodeError;

} // verus!
