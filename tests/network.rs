use only_brain::activation::{decode_selection, encode_selection, resolve};
use only_brain::{ActivationFunction, DecodeError, Layer, Matrix, NetworkError, NeuralNetwork};

fn bits(values: &[f64]) -> Vec<u64> {
    values.iter().map(|v| v.to_bits()).collect()
}

fn zero_draws(topology: &[usize]) -> Vec<Vec<u64>> {
    topology.windows(2).map(|w| vec![0u64; w[0] * w[1]]).collect()
}

fn network(topology: &[usize]) -> NeuralNetwork {
    NeuralNetwork::new(&topology.to_vec(), &zero_draws(topology)).expect("draws fit the topology")
}

fn scenario_network() -> NeuralNetwork {
    let mut nn = network(&[2, 3, 2]);
    let w1 = Matrix::from_row_slice(3, 2, &bits(&[0.1, 0.2, 0.3, 0.4, 0.5, 0.6])).unwrap();
    assert_eq!(nn.set_layer_weights(1, w1), Ok(()));
    assert_eq!(nn.set_layer_biases(1, bits(&[0.1, 0.2, 0.3])), Ok(()));
    let w2 = Matrix::from_row_slice(2, 3, &bits(&[0.9, 0.8, 0.7, 0.6, 0.5, 0.4])).unwrap();
    assert_eq!(nn.set_layer_weights(2, w2), Ok(()));
    assert_eq!(nn.set_layer_biases(2, bits(&[0.1, 0.2])), Ok(()));
    assert_eq!(nn.set_weight(1, 0, 0, 0.99f64.to_bits()), Ok(()));
    nn
}

#[test]
fn new_reports_topology() {
    let nn = network(&[2, 3, 2]);
    assert_eq!(nn.num_layers(), 3);
    assert_eq!(nn.layer_size(0), 2);
    assert_eq!(nn.layer_size(1), 3);
    assert_eq!(nn.layer_size(2), 2);
    assert_eq!(nn.layer(1).inputs(), 2);
    assert_eq!(nn.layer(2).inputs(), 3);
    assert_eq!(nn.layer(2).size(), 2);
}

#[test]
fn new_uses_draws_and_zero_biases() {
    let draws = vec![bits(&[0.5, -0.25, 0.75]), bits(&[-1.0, 0.125, 0.0])];
    let nn = NeuralNetwork::new(&vec![1, 3, 1], &draws).unwrap();
    assert_eq!(nn.layer(1).weights().as_slice(), &draws[0]);
    assert_eq!(nn.layer(2).weights().as_slice(), &draws[1]);
    assert_eq!(nn.layer(1).biases(), &vec![0u64; 3]);
    assert_eq!(nn.get_weight(1, 2, 0), Ok(0.75f64.to_bits()));
    assert_eq!(nn.get_weight(2, 0, 1), Ok(0.125f64.to_bits()));
}

#[test]
fn new_refuses_bad_input() {
    assert!(NeuralNetwork::new(&vec![], &vec![]).is_none());
    assert!(NeuralNetwork::new(&vec![2, 3], &vec![vec![0; 5]]).is_none());
    assert!(NeuralNetwork::new(&vec![2, 3], &vec![]).is_none());
    assert!(NeuralNetwork::new(&vec![2, 3], &vec![vec![0; 6], vec![]]).is_none());
}

#[test]
fn input_only_topology() {
    let nn = network(&[4]);
    assert_eq!(nn.num_layers(), 1);
    assert_eq!(nn.layer_size(0), 4);
    let back = NeuralNetwork::from_bytes(&nn.to_bytes()).unwrap();
    assert_eq!(back.num_layers(), 1);
    assert_eq!(back.layer_size(0), 4);
}

#[test]
fn layer_size_zero_is_input_width() {
    for topology in [vec![7usize], vec![5, 1], vec![3, 0, 2], vec![1, 2, 3, 4]] {
        assert_eq!(network(&topology).layer_size(0), topology[0]);
    }
}

#[test]
fn scenario_parameters() {
    let nn = scenario_network();
    assert_eq!(nn.get_weight(1, 0, 0), Ok(0.99f64.to_bits()));
    assert_eq!(nn.get_weight(1, 0, 1), Ok(0.2f64.to_bits()));
    assert_eq!(nn.get_weight(1, 2, 1), Ok(0.6f64.to_bits()));
    assert_eq!(nn.get_weight(2, 1, 2), Ok(0.4f64.to_bits()));
    assert_eq!(nn.layer(1).biases(), &bits(&[0.1, 0.2, 0.3]));
    assert_eq!(nn.layer(2).biases(), &bits(&[0.1, 0.2]));
    assert_eq!(nn.activation_function(), ActivationFunction::Sigmoid);
}

#[test]
fn set_layer_weights_wrong_shape_keeps_weights() {
    let mut nn = scenario_network();
    let before = nn.layer(1).weights().as_slice().clone();
    let transposed = Matrix::from_row_slice(2, 3, &bits(&[1.0; 6])).unwrap();
    assert_eq!(nn.set_layer_weights(1, transposed), Err(NetworkError::ShapeMismatch));
    assert_eq!(nn.layer(1).weights().as_slice(), &before);
    let square = Matrix::from_row_slice(3, 3, &bits(&[1.0; 9])).unwrap();
    assert_eq!(nn.set_layer_weights(1, square), Err(NetworkError::ShapeMismatch));
    assert_eq!(nn.layer(1).weights().as_slice(), &before);
}

#[test]
fn set_layer_biases_wrong_length_keeps_biases() {
    let mut nn = scenario_network();
    assert_eq!(nn.set_layer_biases(2, bits(&[1.0, 2.0, 3.0])), Err(NetworkError::ShapeMismatch));
    assert_eq!(nn.layer(2).biases(), &bits(&[0.1, 0.2]));
}

#[test]
fn layer_index_zero_or_past_end_is_refused() {
    let mut nn = scenario_network();
    let m = Matrix::from_row_slice(3, 2, &bits(&[0.0; 6])).unwrap();
    assert_eq!(nn.set_layer_weights(0, m), Err(NetworkError::InvalidLayer));
    let m = Matrix::from_row_slice(3, 2, &bits(&[0.0; 6])).unwrap();
    assert_eq!(nn.set_layer_weights(3, m), Err(NetworkError::InvalidLayer));
    assert_eq!(nn.set_layer_biases(0, bits(&[0.0, 0.0])), Err(NetworkError::InvalidLayer));
    assert_eq!(nn.set_weight(0, 0, 0, 0), Err(NetworkError::InvalidLayer));
    assert_eq!(nn.get_weight(0, 0, 0), Err(NetworkError::InvalidLayer));
    assert_eq!(nn.get_weight(3, 0, 0), Err(NetworkError::InvalidLayer));
    assert_eq!(nn.get_weight(1, 0, 0), Ok(0.99f64.to_bits()));
}

#[test]
fn weight_position_outside_layer_is_refused() {
    let mut nn = scenario_network();
    assert_eq!(nn.set_weight(1, 3, 0, 0), Err(NetworkError::OutOfBounds));
    assert_eq!(nn.set_weight(1, 0, 2, 0), Err(NetworkError::OutOfBounds));
    assert_eq!(nn.get_weight(2, 2, 0), Err(NetworkError::OutOfBounds));
    assert_eq!(nn.get_weight(2, 0, 3), Err(NetworkError::OutOfBounds));
}

#[test]
fn get_after_set_reads_value() {
    let mut nn = network(&[3, 2]);
    assert_eq!(nn.set_weight(1, 1, 2, (-3.5f64).to_bits()), Ok(()));
    assert_eq!(nn.get_weight(1, 1, 2), Ok((-3.5f64).to_bits()));
    assert_eq!(nn.get_weight(1, 0, 2), Ok(0));
    assert_eq!(nn.get_weight(1, 1, 1), Ok(0));
}

#[test]
fn round_trip_keeps_everything() {
    let mut nn = scenario_network();
    nn.set_activation_function(ActivationFunction::Tanh);
    let nan_with_payload = 0x7ff8_0000_0000_1234u64;
    assert_eq!(nn.set_weight(2, 1, 0, nan_with_payload), Ok(()));
    let back = NeuralNetwork::from_bytes(&nn.to_bytes()).unwrap();
    assert_eq!(back.num_layers(), 3);
    for layer in 0..3 {
        assert_eq!(back.layer_size(layer), nn.layer_size(layer));
    }
    for layer in 1..3 {
        assert_eq!(back.layer(layer).weights().as_slice(), nn.layer(layer).weights().as_slice());
        assert_eq!(back.layer(layer).biases(), nn.layer(layer).biases());
    }
    assert_eq!(back.get_weight(2, 1, 0), Ok(nan_with_payload));
    assert_eq!(back.selected_activation(), Some(ActivationFunction::Tanh));
    assert_eq!(back.to_bytes(), nn.to_bytes());
}

#[test]
fn round_trip_without_selection() {
    let nn = network(&[2, 1]);
    let back = NeuralNetwork::from_bytes(&nn.to_bytes()).unwrap();
    assert_eq!(back.selected_activation(), None);
    assert_eq!(back.activation_function(), ActivationFunction::Sigmoid);
}

#[test]
fn encoding_layout_matches_bincode_fixed_ints() {
    let mut nn = network(&[1, 2]);
    nn.set_activation_function(ActivationFunction::ReLU);
    assert_eq!(nn.set_layer_weights(1, Matrix::from_row_slice(2, 1, &bits(&[0.5, -2.0])).unwrap()), Ok(()));
    assert_eq!(nn.set_layer_biases(1, bits(&[1.0, 0.25])), Ok(()));
    let expected = bincode::serialize(&(1u64, 3u64, 1u64, 2u64, 1u64, 0.5f64, -2.0f64, 1.0f64, 0.25f64)).unwrap();
    assert_eq!(nn.to_bytes(), expected);
    assert_eq!(nn.to_words(), vec![1, 3, 1, 2, 1, 0.5f64.to_bits(), (-2.0f64).to_bits(), 1.0f64.to_bits(), 0.25f64.to_bits()]);
}

fn words_to_bytes(words: &[u64]) -> Vec<u8> {
    words.iter().flat_map(|w| w.to_le_bytes()).collect()
}

#[test]
fn decode_refuses_truncated_bytes() {
    let bytes = network(&[2, 2]).to_bytes();
    assert_eq!(NeuralNetwork::from_bytes(&bytes[..bytes.len() - 1].to_vec()).err(), Some(DecodeError));
    assert_eq!(NeuralNetwork::from_bytes(&bytes[..bytes.len() - 8].to_vec()).err(), Some(DecodeError));
    assert_eq!(NeuralNetwork::from_bytes(&vec![]).err(), Some(DecodeError));
}

#[test]
fn decode_refuses_trailing_words() {
    let mut words = network(&[2, 2]).to_words();
    words.push(0);
    assert_eq!(NeuralNetwork::from_bytes(&words_to_bytes(&words)).err(), Some(DecodeError));
}

#[test]
fn decode_refuses_unknown_activation_code() {
    assert_eq!(NeuralNetwork::from_words(&vec![2, 5, 0]).err(), Some(DecodeError));
    assert!(NeuralNetwork::from_words(&vec![2, 4, 0]).is_ok());
}

#[test]
fn decode_refuses_unchained_layers() {
    // input width 2, but the layer claims 3 inputs
    let words = vec![2, 0, 1, 1, 3, 0, 0, 0, 0];
    assert_eq!(NeuralNetwork::from_words(&words).err(), Some(DecodeError));
    let words = vec![3, 0, 1, 1, 3, 0, 0, 0, 0];
    assert!(NeuralNetwork::from_words(&words).is_ok());
}

#[test]
fn decode_refuses_oversized_layer() {
    let words = vec![2, 0, 1, u64::MAX, 2, 0, 0];
    assert_eq!(NeuralNetwork::from_words(&words).err(), Some(DecodeError));
}

#[test]
fn activation_selection() {
    assert_eq!(resolve(None), ActivationFunction::Sigmoid);
    assert_eq!(resolve(Some(ActivationFunction::BinaryStep)), ActivationFunction::BinaryStep);
    let mut nn = network(&[1, 1]);
    assert_eq!(nn.selected_activation(), None);
    nn.set_activation_function(ActivationFunction::BinaryStep);
    assert_eq!(nn.activation_function(), ActivationFunction::BinaryStep);
    for (selection, code) in [
        (None, 0u64),
        (Some(ActivationFunction::Sigmoid), 1),
        (Some(ActivationFunction::Tanh), 2),
        (Some(ActivationFunction::ReLU), 3),
        (Some(ActivationFunction::BinaryStep), 4),
    ] {
        assert_eq!(encode_selection(selection), code);
        assert_eq!(decode_selection(code), Some(selection));
    }
    assert_eq!(decode_selection(5), None);
}

#[test]
fn matrix_shape_and_entries() {
    assert!(Matrix::from_row_slice(2, 2, &vec![1, 2, 3]).is_none());
    assert!(Matrix::from_row_slice(usize::MAX, 2, &vec![]).is_none());
    let mut m = Matrix::from_row_slice(2, 3, &vec![1, 2, 3, 4, 5, 6]).unwrap();
    assert_eq!((m.nrows(), m.ncols()), (2, 3));
    assert_eq!(m.get(1, 0), 4);
    m.set(0, 2, 9);
    assert_eq!(m.as_slice(), &vec![1, 2, 9, 4, 5, 6]);
    let z = Matrix::from_element(2, 2, 7).unwrap();
    assert_eq!(z.as_slice(), &vec![7, 7, 7, 7]);
    assert!(Matrix::from_element(usize::MAX, 2, 0).is_none());
}

#[test]
fn layer_setters() {
    assert!(Layer::from_size(2, 2, &vec![0; 3]).is_none());
    let mut l = Layer::from_size(2, 1, &vec![5, 6]).unwrap();
    assert_eq!(l.size(), 2);
    assert_eq!(l.biases(), &vec![0, 0]);
    l.set_weight(1, 0, 8);
    assert_eq!(l.weights().as_slice(), &vec![5, 8]);
    assert_eq!(l.set_weights(Matrix::from_row_slice(1, 2, &vec![1, 1]).unwrap()), Err(NetworkError::ShapeMismatch));
    assert_eq!(l.set_weights(Matrix::from_row_slice(2, 1, &vec![1, 2]).unwrap()), Ok(()));
    assert_eq!(l.weights().as_slice(), &vec![1, 2]);
    assert_eq!(l.set_biases(vec![3]), Err(NetworkError::ShapeMismatch));
    assert_eq!(l.set_biases(vec![3, 4]), Ok(()));
    assert_eq!(l.biases(), &vec![3, 4]);
    let m = Matrix::from_row_slice(1, 1, &vec![1]).unwrap();
    assert!(Layer::from_parts(m, vec![1, 2]).is_none());
}

#[test]
fn round_trip_reads_same_weights_everywhere() {
    let mut nn = scenario_network();
    assert_eq!(nn.set_weight(1, 1, 0, (-0.0f64).to_bits()), Ok(()));
    assert_eq!(nn.set_weight(2, 0, 2, f64::MIN_POSITIVE.to_bits() / 2), Ok(()));
    assert_eq!(nn.set_weight(2, 1, 1, f64::INFINITY.to_bits()), Ok(()));
    let back = NeuralNetwork::from_bytes(&nn.to_bytes()).unwrap();
    for layer in 1..nn.num_layers() {
        for neuron in 0..nn.layer_size(layer) {
            for input in 0..nn.layer_size(layer - 1) {
                let expected = nn.get_weight(layer, neuron, input);
                assert!(expected.is_ok());
                assert_eq!(back.get_weight(layer, neuron, input), expected);
            }
        }
        assert_eq!(back.layer(layer).biases(), nn.layer(layer).biases());
    }
    assert_eq!(back.get_weight(1, 1, 0), Ok((-0.0f64).to_bits()));
}

#[test]
fn dump_load_scenario_values() {
    let nn = scenario_network();
    let back = NeuralNetwork::from_bytes(&nn.to_bytes()).unwrap();
    assert_eq!(back.num_layers(), 3);
    assert_eq!(back.get_weight(1, 0, 0), Ok(0.99f64.to_bits()));
    assert_eq!(back.get_weight(1, 2, 1), Ok(0.6f64.to_bits()));
    assert_eq!(back.get_weight(2, 1, 2), Ok(0.4f64.to_bits()));
    assert_eq!(back.layer(2).biases(), &bits(&[0.1, 0.2]));
}

#[test]
fn set_layer_weights_valid_replaces_only_that_layer() {
    let mut nn = scenario_network();
    let layer2 = nn.layer(2).weights().as_slice().clone();
    let m = Matrix::from_row_slice(3, 2, &bits(&[1.0, 2.0, 3.0, 4.0, 5.0, 6.0])).unwrap();
    assert_eq!(nn.set_layer_weights(1, m), Ok(()));
    assert_eq!(nn.get_weight(1, 2, 0), Ok(5.0f64.to_bits()));
    assert_eq!(nn.layer(2).weights().as_slice(), &layer2);
    assert_eq!(nn.layer(1).biases(), &bits(&[0.1, 0.2, 0.3]));
}
