use vstd::prelude::*;
use crate::error::NetworkError;
use crate::matrix::{Matrix, filled};

verus! {

/// What a layer holds: an `rows × cols` weight matrix, row after row, and
/// one bias per neuron, all as binary64 bit patterns.
pub struct LayerView {
    pub rows: nat,
    pub cols: nat,
    pub weights: Seq<u64>,
    pub bias: Seq<u64>,
}

/// The shape of a layer's contents agree with its dimensions.
pub open spec fn layer_view_wf(v: LayerView) -> bool {
    &&& v.weights.len() == v.rows * v.cols
    &&& v.bias.len() == v.rows
    &&& v.rows <= usize::MAX
    &&& v.cols <= usize::MAX
}

/// A dense layer: one neuron per row of the weight matrix, one input per
/// column, and one bias per neuron.
#[derive(Debug)]
pub struct Layer {
    weights: Matrix,
    bias: Vec<u64>,
}

impl Layer {
    pub closed spec fn view(&self) -> LayerView {
        LayerView {
            rows: self.weights.rows(),
            cols: self.weights.cols(),
            weights: self.weights.entries(),
            bias: self.bias@,
        }
    }

    pub closed spec fn wf(&self) -> bool {
        self.weights.wf() && self.bias@.len() == self.weights.rows()
    }

    pub proof fn lemma_wf(&self)
        requires
            self.wf(),
        ensures
            layer_view_wf(self.view()),
    {
        self.weights.lemma_dims_fit();
    }

    /// A layer of `neurons` neurons over `inputs` inputs whose weights are
    /// `draws`, row after row, and whose biases are all `+0.0`; `None` when
    /// `draws` does not hold `neurons * inputs` values.
    pub fn from_size(neurons: usize, inputs: usize, draws: &Vec<u64>) -> (r: Option<Layer>)
        ensures
            r is Some <==> draws@.len() == neurons * inputs,
            r matches Some(l) ==> l.wf() && l.view() == (LayerView {
                rows: neurons as nat,
                cols: inputs as nat,
                weights: draws@,
                bias: Seq::new(neurons as nat, |i: int| 0u64),
            }),
    {
        match Matrix::from_row_slice(neurons, inputs, draws) {
            Some(weights) => Some(Layer { weights, bias: filled(neurons, 0) }),
            None => None,
        }
    }

    /// A layer with the given weights and biases.
    pub fn from_parts(weights: Matrix, bias: Vec<u64>) -> (r: Option<Layer>)
        requires
            weights.wf(),
        ensures
            r is Some <==> bias@.len() == weights.rows(),
            r matches Some(l) ==> l.wf() && l.view() == (LayerView {
                rows: weights.rows(),
                cols: weights.cols(),
                weights: weights.entries(),
                bias: bias@,
            }),
    {
        if bias.len() == weights.nrows() {
            Some(Layer { weights, bias })
        } else {
            None
        }
    }

    /// Overwrites the weight from `input` to `neuron`.
    pub fn set_weight(&mut self, neuron: usize, input: usize, weight: u64)
        requires
            old(self).wf(),
            neuron < old(self).view().rows,
            input < old(self).view().cols,
        ensures
            final(self).wf(),
            final(self).view() == (LayerView {
                weights: old(self).view().weights.update(
                    crate::matrix::flat_index(neuron as int, input as int, old(self).view().cols as int),
                    weight,
                ),
                ..old(self).view()
            }),
    {
        self.weights.set(neuron, input, weight);
    }

    /// The number of neurons.
    pub fn size(&self) -> (r: usize)
        ensures
            r == self.view().rows,
    {
        self.weights.nrows()
    }

    /// The number of inputs.
    pub fn inputs(&self) -> (r: usize)
        ensures
            r == self.view().cols,
    {
        self.weights.ncols()
    }

    /// Replaces the whole weight matrix; refused, with the layer unchanged,
    /// unless `weights` has the current shape.
    pub fn set_weights(&mut self, weights: Matrix) -> (r: Result<(), NetworkError>)
        requires
            old(self).wf(),
            weights.wf(),
        ensures
            final(self).wf(),
            r is Ok <==> weights.rows() == old(self).view().rows
                && weights.cols() == old(self).view().cols,
            r is Err ==> r == Err::<(), NetworkError>(NetworkError::ShapeMismatch)
                && *final(self) == *old(self),
            r is Ok ==> final(self).view() == (LayerView {
                weights: weights.entries(),
                ..old(self).view()
            }),
    {
        if weights.nrows() != self.weights.nrows() || weights.ncols() != self.weights.ncols() {
            return Err(NetworkError::ShapeMismatch);
        }
        self.weights = weights;
        Ok(())
    }

    /// Replaces the whole bias vector; refused, with the layer unchanged,
    /// unless `biases` has one entry per neuron.
    pub fn set_biases(&mut self, biases: Vec<u64>) -> (r: Result<(), NetworkError>)
        requires
            old(self).wf(),
        ensures
            final(self).wf(),
            r is Ok <==> biases@.len() == old(self).view().rows,
            r is Err ==> r == Err::<(), NetworkError>(NetworkError::ShapeMismatch)
                && *final(self) == *old(self),
            r is Ok ==> final(self).view() == (LayerView { bias: biases@, ..old(self).view() }),
    {
        if biases.len() != self.bias.len() {
            return Err(NetworkError::ShapeMismatch);
        }
        self.bias = biases;
        Ok(())
    }

    pub fn biases(&self) -> (r: &Vec<u64>)
        ensures
            r@ == self.view().bias,
    {
        &self.bias
    }

    pub fn weights(&self) -> (r: &Matrix)
        ensures
            r.rows() == self.view().rows,
            r.cols() == self.view().cols,
            r.entries() == self.view().weights,
            self.wf() ==> r.wf(),
    {
        &self.weights
    }
}

} // verus!
