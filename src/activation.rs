use vstd::prelude::*;

verus! {

/// The closed set of scalar non-linearities a network can apply after each
/// layer's affine step.
#[derive(Clone, Copy, Debug, PartialEq, Eq, Hash, Structural)]
pub enum ActivationFunction {
    Sigmoid,
    Tanh,
    ReLU,
    BinaryStep,
}

/// The kind used when a network has no explicit selection.
pub open spec fn default_kind() -> ActivationFunction {
    ActivationFunction::Sigmoid
}

/// The kind that is in effect for an optional selection.
pub open spec fn resolved(selection: Option<ActivationFunction>) -> ActivationFunction {
    match selection {
        Some(k) => k,
        None => default_kind(),
    }
}

/// The stable one-word code of an optional selection in the binary form:
/// `0` for no selection, `1 + position` of the kind otherwise.
pub open spec fn selection_code(selection: Option<ActivationFunction>) -> u64 {
    match selection {
        None => 0,
        Some(ActivationFunction::Sigmoid) => 1,
        Some(ActivationFunction::Tanh) => 2,
        Some(ActivationFunction::ReLU) => 3,
        Some(ActivationFunction::BinaryStep) => 4,
    }
}

/// The selection that a code stands for, if any.
pub open spec fn selection_of_code(code: u64) -> Option<Option<ActivationFunction>> {
    if code == 0 {
        Some(None)
    } else if code == 1 {
        Some(Some(ActivationFunction::Sigmoid))
    } else if code == 2 {
        Some(Some(ActivationFunction::Tanh))
    } else if code == 3 {
        Some(Some(ActivationFunction::ReLU))
    } else if code == 4 {
        Some(Some(ActivationFunction::BinaryStep))
    } else {
        None
    }
}

/// Resolves an optional selection to the kind in effect: the selected kind,
/// or sigmoid when none was chosen.
pub fn resolve(selection: Option<ActivationFunction>) -> (r: ActivationFunction)
    ensures
        r == resolved(selection),
{
    match selection {
        Some(k) => k,
        None => ActivationFunction::Sigmoid,
    }
}

/// Encodes an optional selection as its one-word code.
pub fn encode_selection(selection: Option<ActivationFunction>) -> (r: u64)
    ensures
        r == selection_code(selection),
        r <= 4,
{
    match selection {
        None => 0,
        Some(ActivationFunction::Sigmoid) => 1,
        Some(ActivationFunction::Tanh) => 2,
        Some(ActivationFunction::ReLU) => 3,
        Some(ActivationFunction::BinaryStep) => 4,
    }
}

/// Decodes a one-word code; `None` when the code names no selection.
pub fn decode_selection(code: u64) -> (r: Option<Option<ActivationFunction>>)
    ensures
        r == selection_of_code(code),
{
    if code == 0 {
        Some(None)
    } else if code == 1 {
        Some(Some(ActivationFunction::Sigmoid))
    } else if code == 2 {
        Some(Some(ActivationFunction::Tanh))
    } else if code == 3 {
        Some(Some(ActivationFunction::ReLU))
    } else if code == 4 {
        Some(Some(ActivationFunction::BinaryStep))
    } else {
        None
    }
}

/// Every selection is recovered from its code.
pub proof fn lemma_selection_code_round_trip(selection: Option<ActivationFunction>)
    ensures
        selection_of_code(selection_code(selection)) == Some(selection),
{
}

} // verus!
