use vstd::prelude::*;
use crate::activation::{ActivationFunction, resolve, resolved};
use crate::error::NetworkError;
use crate::layer::{Layer, LayerView, layer_view_wf};
use crate::matrix::{Matrix, flat_index};

verus! {

/// What a network holds: the input width, its weighted layers in order, and
/// the optional activation selection.
pub struct NetworkView {
    pub input_width: nat,
    pub layers: Seq<LayerView>,
    pub activation: Option<ActivationFunction>,
}

/// Each layer is well shaped and takes as many inputs as the width before it.
pub open spec fn chained(input_width: nat, layers: Seq<LayerView>) -> bool {
    forall|k: int|
        0 <= k < layers.len() ==> #[trigger] layer_view_wf(layers[k]) && layers[k].cols == (
        if k == 0 {
            input_width
        } else {
            layers[k - 1].rows
        })
}

/// The widths from the input to the output: the input width, then each
/// layer's neuron count.
pub open spec fn topology(v: NetworkView) -> Seq<nat> {
    seq![v.input_width] + Seq::new(v.layers.len(), |k: int| v.layers[k].rows)
}

/// The topology a network is built from, as numbers.
pub open spec fn widths(layers: Seq<usize>) -> Seq<nat> {
    Seq::new(layers.len(), |k: int| layers[k] as nat)
}

/// Random draws of the right shape for building from `layers`: one list of
/// `layers[k + 1] * layers[k]` values per consecutive pair.
pub open spec fn draws_fit(layers: Seq<usize>, draws: Seq<Vec<u64>>) -> bool {
    &&& layers.len() >= 1
    &&& draws.len() + 1 == layers.len()
    &&& forall|k: int|
        0 <= k < draws.len() ==> (#[trigger] draws[k])@.len() == layers[k + 1] * layers[k]
}

/// `layer` addresses a weighted layer: `1` is the first, `0` is the input.
pub open spec fn addresses_layer(v: NetworkView, layer: int) -> bool {
    1 <= layer <= v.layers.len()
}

/// `(neuron, input)` is a position in the weight matrix of layer `layer`.
pub open spec fn in_layer(v: NetworkView, layer: int, neuron: int, input: int) -> bool {
    &&& addresses_layer(v, layer)
    &&& 0 <= neuron < v.layers[layer - 1].rows
    &&& 0 <= input < v.layers[layer - 1].cols
}

/// The weight from input `input` to neuron `neuron` of layer `layer`.
pub open spec fn weight_at(v: NetworkView, layer: int, neuron: int, input: int) -> u64 {
    v.layers[layer - 1].weights[flat_index(neuron, input, v.layers[layer - 1].cols as int)]
}

/// The network with that one weight replaced by `w`.
pub open spec fn with_weight(v: NetworkView, layer: int, neuron: int, input: int, w: u64) -> NetworkView {
    NetworkView {
        layers: v.layers.update(
            layer - 1,
            LayerView {
                weights: v.layers[layer - 1].weights.update(
                    flat_index(neuron, input, v.layers[layer - 1].cols as int),
                    w,
                ),
                ..v.layers[layer - 1]
            },
        ),
        ..v
    }
}

/// A feed-forward network: a linear stack of dense layers sharing one
/// activation function.
#[derive(Debug)]
pub struct NeuralNetwork {
    input_width: usize,
    layers: Vec<Layer>,
    activation_function: Option<ActivationFunction>,
}

impl NeuralNetwork {
    pub closed spec fn view(&self) -> NetworkView {
        NetworkView {
            input_width: self.input_width as nat,
            layers: self.layers@.map_values(|l: Layer| l.view()),
            activation: self.activation_function,
        }
    }

    pub closed spec fn wf(&self) -> bool {
        &&& forall|k: int| 0 <= k < self.layers@.len() ==> (#[trigger] self.layers@[k]).wf()
        &&& chained(self.input_width as nat, self.view().layers)
        &&& self.layers@.len() < usize::MAX
    }

    pub proof fn lemma_wf(&self)
        requires
            self.wf(),
        ensures
            chained(self.view().input_width, self.view().layers),
            self.view().layers.len() < usize::MAX,
            self.view().input_width <= usize::MAX,
    {
    }

    /// A network with the given parts.
    pub(crate) fn from_parts(
        input_width: usize,
        layers: Vec<Layer>,
        activation_function: Option<ActivationFunction>,
    ) -> (r: NeuralNetwork)
        requires
            forall|k: int| 0 <= k < layers@.len() ==> (#[trigger] layers@[k]).wf(),
            chained(input_width as nat, layers@.map_values(|l: Layer| l.view())),
            layers@.len() < usize::MAX,
        ensures
            r.wf(),
            r.view() == (NetworkView {
                input_width: input_width as nat,
                layers: layers@.map_values(|l: Layer| l.view()),
                activation: activation_function,
            }),
    {
        NeuralNetwork { input_width, layers, activation_function }
    }

    /// The weighted layers, first to last.
    pub fn layers(&self) -> (r: &Vec<Layer>)
        ensures
            r@.map_values(|l: Layer| l.view()) == self.view().layers,
            self.wf() ==> forall|k: int| 0 <= k < r@.len() ==> (#[trigger] r@[k]).wf(),
    {
        &self.layers
    }

    /// Builds the network of the topology `layers` (input width first): one
    /// layer per consecutive pair of widths, whose weights are `draws[k]`
    /// row after row and whose biases are `+0.0`, with no activation
    /// selected. `None` when the topology is empty or `draws` does not fit it.
    pub fn new(layers: &Vec<usize>, draws: &Vec<Vec<u64>>) -> (r: Option<NeuralNetwork>)
        ensures
            r is Some <==> draws_fit(layers@, draws@),
            r matches Some(n) ==> {
                &&& n.wf()
                &&& topology(n.view()) == widths(layers@)
                &&& n.view().activation is None
                &&& forall|k: int|
                    0 <= k < draws@.len() ==> (#[trigger] n.view().layers[k]).weights
                        == draws@[k]@ && n.view().layers[k].bias == Seq::new(
                        layers@[k + 1] as nat,
                        |i: int| 0u64,
                    )
            },
    {
        if layers.len() == 0 || draws.len() != layers.len() - 1 {
            return None;
        }
        let mut built: Vec<Layer> = Vec::new();
        let mut k: usize = 0;
        while k < draws.len()
            invariant
                layers@.len() == draws@.len() + 1,
                k <= draws@.len(),
                built@.len() == k,
                forall|j: int| 0 <= j < k ==> (#[trigger] draws@[j])@.len() == layers@[j + 1] * layers@[j],
                forall|j: int| 0 <= j < k ==> (#[trigger] built@[j]).wf(),
                forall|j: int|
                    0 <= j < k ==> (#[trigger] built@[j]).view() == (LayerView {
                        rows: layers@[j + 1] as nat,
                        cols: layers@[j] as nat,
                        weights: draws@[j]@,
                        bias: Seq::new(layers@[j + 1] as nat, |i: int| 0u64),
                    }),
            decreases draws@.len() - k,
        {
            match Layer::from_size(layers[k + 1], layers[k], &draws[k]) {
                Some(l) => built.push(l),
                None => return None,
            }
            k = k + 1;
        }
        let n = NeuralNetwork { input_width: layers[0], layers: built, activation_function: None };
        proof {
            let v = n.view();
            assert forall|j: int| 0 <= j < v.layers.len() implies #[trigger] layer_view_wf(v.layers[j])
                && v.layers[j].cols == (if j == 0 { v.input_width } else { v.layers[j - 1].rows }) by {
                built@[j].lemma_wf();
            }
            assert(topology(v) =~= widths(layers@));
        }
        Some(n)
    }

    /// The number of layers, the input layer included.
    pub fn num_layers(&self) -> (r: usize)
        requires
            self.wf(),
        ensures
            r == self.view().layers.len() + 1,
    {
        self.layers.len() + 1
    }

    /// The width of layer `layer`, counting the input as layer `0`: the
    /// input width for `0`, else that layer's neuron count.
    pub fn layer_size(&self, layer: usize) -> (r: usize)
        requires
            self.wf(),
            layer < self.view().layers.len() + 1,
        ensures
            r == topology(self.view())[layer as int],
    {
        if layer == 0 {
            self.input_width
        } else {
            self.layers[layer - 1].size()
        }
    }

    /// The weighted layer `layer` (`1` is the first).
    pub fn layer(&self, layer: usize) -> (r: &Layer)
        requires
            addresses_layer(self.view(), layer as int),
        ensures
            r.view() == self.view().layers[layer - 1],
            self.wf() ==> r.wf(),
    {
        &self.layers[layer - 1]
    }

    /// The activation function in effect: the one selected, else sigmoid.
    pub fn activation_function(&self) -> (r: ActivationFunction)
        ensures
            r == resolved(self.view().activation),
    {
        resolve(self.activation_function)
    }

    /// The activation function selected, if one was.
    pub fn selected_activation(&self) -> (r: Option<ActivationFunction>)
        ensures
            r == self.view().activation,
    {
        self.activation_function
    }

    /// Selects the activation function that every layer applies.
    pub fn set_activation_function(&mut self, f: ActivationFunction)
        requires
            old(self).wf(),
        ensures
            final(self).wf(),
            final(self).view() == (NetworkView { activation: Some(f), ..old(self).view() }),
    {
        self.activation_function = Some(f);
    }

    /// Replaces the weight matrix of layer `layer` (`1` is the first). Refused,
    /// with the network unchanged, when `layer` names no weighted layer or
    /// `weights` does not have that layer's shape.
    pub fn set_layer_weights(&mut self, layer: usize, weights: Matrix) -> (r: Result<(), NetworkError>)
        requires
            old(self).wf(),
            weights.wf(),
        ensures
            final(self).wf(),
            r == Err::<(), NetworkError>(NetworkError::InvalidLayer) <==> !addresses_layer(
                old(self).view(),
                layer as int,
            ),
            r == Err::<(), NetworkError>(NetworkError::ShapeMismatch) <==> addresses_layer(
                old(self).view(),
                layer as int,
            ) && (weights.rows() != old(self).view().layers[layer - 1].rows || weights.cols()
                != old(self).view().layers[layer - 1].cols),
            r is Ok <==> addresses_layer(old(self).view(), layer as int) && weights.rows()
                == old(self).view().layers[layer - 1].rows && weights.cols()
                == old(self).view().layers[layer - 1].cols,
            r is Err ==> final(self).view() == old(self).view(),
            r is Ok ==> final(self).view() == (NetworkView {
                layers: old(self).view().layers.update(
                    layer - 1,
                    LayerView { weights: weights.entries(), ..old(self).view().layers[layer - 1] },
                ),
                ..old(self).view()
            }),
    {
        if layer == 0 || layer > self.layers.len() {
            return Err(NetworkError::InvalidLayer);
        }
        let ghost before = self.view();
        let r = self.layers[layer - 1].set_weights(weights);
        proof {
            self.lemma_views_after_update(before, layer - 1);
            if r is Err {
                assert(before.layers.update(layer - 1, before.layers[layer - 1]) =~= before.layers);
            }
        }
        r
    }

    /// Replaces the bias vector of layer `layer` (`1` is the first). Refused,
    /// with the network unchanged, when `layer` names no weighted layer or
    /// `biases` does not hold one entry per neuron of that layer.
    pub fn set_layer_biases(&mut self, layer: usize, biases: Vec<u64>) -> (r: Result<(), NetworkError>)
        requires
            old(self).wf(),
        ensures
            final(self).wf(),
            r == Err::<(), NetworkError>(NetworkError::InvalidLayer) <==> !addresses_layer(
                old(self).view(),
                layer as int,
            ),
            r == Err::<(), NetworkError>(NetworkError::ShapeMismatch) <==> addresses_layer(
                old(self).view(),
                layer as int,
            ) && biases@.len() != old(self).view().layers[layer - 1].rows,
            r is Ok <==> addresses_layer(old(self).view(), layer as int) && biases@.len()
                == old(self).view().layers[layer - 1].rows,
            r is Err ==> final(self).view() == old(self).view(),
            r is Ok ==> final(self).view() == (NetworkView {
                layers: old(self).view().layers.update(
                    layer - 1,
                    LayerView { bias: biases@, ..old(self).view().layers[layer - 1] },
                ),
                ..old(self).view()
            }),
    {
        if layer == 0 || layer > self.layers.len() {
            return Err(NetworkError::InvalidLayer);
        }
        let ghost before = self.view();
        let r = self.layers[layer - 1].set_biases(biases);
        proof {
            self.lemma_views_after_update(before, layer - 1);
            if r is Err {
                assert(before.layers.update(layer - 1, before.layers[layer - 1]) =~= before.layers);
            }
        }
        r
    }

    /// Overwrites the weight from input `input` to neuron `neuron` of layer
    /// `layer` (`1` is the first). Refused, with the network unchanged, when
    /// `layer` names no weighted layer or the position lies outside it.
    pub fn set_weight(&mut self, layer: usize, neuron: usize, input: usize, weight: u64) -> (r: Result<(), NetworkError>)
        requires
            old(self).wf(),
        ensures
            final(self).wf(),
            r == Err::<(), NetworkError>(NetworkError::InvalidLayer) <==> !addresses_layer(
                old(self).view(),
                layer as int,
            ),
            r == Err::<(), NetworkError>(NetworkError::OutOfBounds) <==> addresses_layer(
                old(self).view(),
                layer as int,
            ) && !in_layer(old(self).view(), layer as int, neuron as int, input as int),
            r is Ok <==> in_layer(old(self).view(), layer as int, neuron as int, input as int),
            r is Err ==> final(self).view() == old(self).view(),
            r is Ok ==> final(self).view() == with_weight(
                old(self).view(),
                layer as int,
                neuron as int,
                input as int,
                weight,
            ),
    {
        if layer == 0 || layer > self.layers.len() {
            return Err(NetworkError::InvalidLayer);
        }
        if neuron >= self.layers[layer - 1].size() || input >= self.layers[layer - 1].inputs() {
            return Err(NetworkError::OutOfBounds);
        }
        let ghost before = self.view();
        self.layers[layer - 1].set_weight(neuron, input, weight);
        proof {
            self.lemma_views_after_update(before, layer - 1);
        }
        Ok(())
    }

    /// Reads the weight from input `input` to neuron `neuron` of layer
    /// `layer` (`1` is the first); refused when `layer` names no weighted
    /// layer or the position lies outside it.
    pub fn get_weight(&self, layer: usize, neuron: usize, input: usize) -> (r: Result<u64, NetworkError>)
        requires
            self.wf(),
        ensures
            r == Err::<u64, NetworkError>(NetworkError::InvalidLayer) <==> !addresses_layer(
                self.view(),
                layer as int,
            ),
            r == Err::<u64, NetworkError>(NetworkError::OutOfBounds) <==> addresses_layer(
                self.view(),
                layer as int,
            ) && !in_layer(self.view(), layer as int, neuron as int, input as int),
            r is Ok <==> in_layer(self.view(), layer as int, neuron as int, input as int),
            r matches Ok(w) ==> w == weight_at(self.view(), layer as int, neuron as int, input as int),
    {
        if layer == 0 || layer > self.layers.len() {
            return Err(NetworkError::InvalidLayer);
        }
        let l = &self.layers[layer - 1];
        if neuron >= l.size() || input >= l.inputs() {
            return Err(NetworkError::OutOfBounds);
        }
        proof {
            assert(l.view() == self.view().layers[layer - 1]);
            assert(self.layers@[layer - 1].wf());
        }
        Ok(l.weights().get(neuron, input))
    }

    /// After layer `i` was replaced by a well-formed layer of the same
    /// shape, the network is well formed and its view changed at `i` alone.
    proof fn lemma_views_after_update(&self, before: NetworkView, i: int)
        requires
            0 <= i < before.layers.len(),
            self.layers@.len() == before.layers.len(),
            chained(before.input_width, before.layers),
            before.layers.len() < usize::MAX,
            self.input_width == before.input_width,
            self.activation_function == before.activation,
            forall|k: int| 0 <= k < self.layers@.len() ==> (#[trigger] self.layers@[k]).wf(),
            forall|k: int| 0 <= k < self.layers@.len() && k != i ==> (#[trigger] self.layers@[k]).view() == before.layers[k],
            self.layers@[i].view().rows == before.layers[i].rows,
            self.layers@[i].view().cols == before.layers[i].cols,
        ensures
            self.wf(),
            self.view() == (NetworkView { layers: before.layers.update(i, self.layers@[i].view()), ..before }),
    {
        assert(self.view().layers =~= before.layers.update(i, self.layers@[i].view()));
        let v = self.view();
        assert forall|k: int| 0 <= k < v.layers.len() implies #[trigger] layer_view_wf(v.layers[k])
            && v.layers[k].cols == (if k == 0 { v.input_width } else { v.layers[k - 1].rows }) by {
            self.layers@[k].lemma_wf();
            assert(layer_view_wf(before.layers[k]));
            assert(v.layers[k].cols == before.layers[k].cols);
            if k > 0 {
                assert(v.layers[k - 1].rows == before.layers[k - 1].rows);
            }
        }
    }
}

/// After a weight is set, reading that position gives the value set, and
/// every other position of every layer reads as before.
pub proof fn lemma_get_after_set(v: NetworkView, layer: int, neuron: int, input: int, w: u64)
    requires
        chained(v.input_width, v.layers),
        in_layer(v, layer, neuron, input),
    ensures
        in_layer(with_weight(v, layer, neuron, input, w), layer, neuron, input),
        weight_at(with_weight(v, layer, neuron, input, w), layer, neuron, input) == w,
        forall|l: int, r: int, c: int|
            #![trigger weight_at(with_weight(v, layer, neuron, input, w), l, r, c)]
            in_layer(v, l, r, c) && (l, r, c) != (layer, neuron, input) ==> in_layer(
                with_weight(v, layer, neuron, input, w),
                l,
                r,
                c,
            ) && weight_at(with_weight(v, layer, neuron, input, w), l, r, c) == weight_at(
                v,
                l,
                r,
                c,
            ),
{
    let v2 = with_weight(v, layer, neuron, input, w);
    let cols = v.layers[layer - 1].cols as int;
    assert(layer_view_wf(v.layers[layer - 1]));
    crate::matrix::lemma_flat_index_bounds(neuron, input, v.layers[layer - 1].rows as int, cols);
    assert forall|l: int, r: int, c: int|
        in_layer(v, l, r, c) && (l, r, c) != (layer, neuron, input) implies in_layer(v2, l, r, c)
        && #[trigger] weight_at(v2, l, r, c) == weight_at(v, l, r, c) by {
        if l != layer {
            assert(v2.layers[l - 1] == v.layers[l - 1]);
        } else {
            assert(r != neuron || c != input);
            crate::matrix::lemma_flat_index_bounds(r, c, v.layers[layer - 1].rows as int, cols);
            crate::matrix::lemma_flat_index_distinct(r, c, neuron, input, v.layers[layer - 1].rows as int, cols);
        }
    }
}

/// A network's topology has one width per layer, input included: the input
/// width first, then each weighted layer's neuron count, where each layer
/// takes as many inputs as the width before it. So every layer's output
/// fits the next layer, and the last layer's width is the output width.
pub proof fn lemma_topology_shape(n: NeuralNetwork)
    requires
        n.wf(),
    ensures
        topology(n.view()).len() == n.view().layers.len() + 1,
        topology(n.view())[0] == n.view().input_width,
        forall|k: int|
            1 <= k < topology(n.view()).len() ==> #[trigger] topology(n.view())[k] == n.view().layers[k
                - 1].rows && n.view().layers[k - 1].cols == topology(n.view())[k - 1],
{
    let v = n.view();
    n.lemma_wf();
    assert forall|k: int| 1 <= k < topology(v).len() implies #[trigger] topology(v)[k]
        == v.layers[k - 1].rows && v.layers[k - 1].cols == topology(v)[k - 1] by {
        assert(layer_view_wf(v.layers[k - 1]));
    }
}

/// The network built from a topology reports that topology back: as many
/// layers as widths, the first width as layer `0`, and each further width
/// as the neuron count of the layer it names.
pub proof fn lemma_new_topology(layers: Seq<usize>, n: NeuralNetwork)
    requires
        n.wf(),
        topology(n.view()) == widths(layers),
    ensures
        n.view().layers.len() + 1 == layers.len(),
        n.view().input_width == layers[0],
        forall|k: int| 1 <= k < layers.len() ==> n.view().layers[k - 1].rows == #[trigger] layers[k],
{
    assert(topology(n.view()).len() == n.view().layers.len() + 1);
    assert(widths(layers).len() == layers.len());
    assert(topology(n.view())[0] == n.view().input_width);
    assert(topology(n.view())[0] == widths(layers)[0]);
    assert forall|k: int| 1 <= k < layers.len() implies n.view().layers[k - 1].rows
        == #[trigger] layers[k] by {
        assert(topology(n.view())[k] == n.view().layers[k - 1].rows);
        assert(topology(n.view())[k] == widths(layers)[k]);
    }
}

} // verus!
