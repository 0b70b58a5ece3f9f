use vstd::prelude::*;
use crate::activation::{selection_code, selection_of_code, encode_selection, decode_selection};
use crate::error::DecodeError;
use crate::layer::{Layer, LayerView, layer_view_wf};
use crate::matrix::Matrix;
use crate::network::{NeuralNetwork, NetworkView, chained};

verus! {

/// The words of one layer: its row count, its column count, its weights
/// row after row, then its biases.
pub open spec fn layer_words(l: LayerView) -> Seq<u64> {
    seq![l.rows as u64, l.cols as u64] + l.weights + l.bias
}

/// The words of consecutive layers, first to last.
pub open spec fn layers_words(ls: Seq<LayerView>) -> Seq<u64>
    decreases ls.len(),
{
    if ls.len() == 0 {
        seq![]
    } else {
        layer_words(ls[0]) + layers_words(ls.skip(1))
    }
}

/// The words of a network: its input width, its activation code, its layer
/// count, then its layers.
pub open spec fn network_words(v: NetworkView) -> Seq<u64> {
    seq![v.input_width as u64, selection_code(v.activation), v.layers.len() as u64]
        + layers_words(v.layers)
}

/// Reads one layer that must take `width` inputs at `pos`; gives the layer
/// and the position after it.
pub open spec fn parse_layer(ws: Seq<u64>, pos: int, width: nat) -> Option<(LayerView, int)> {
    if pos < 0 || pos + 2 > ws.len() {
        None
    } else {
        let rows = ws[pos] as nat;
        let cols = ws[pos + 1] as nat;
        let wend = pos + 2 + rows * cols;
        let end = wend + rows;
        if cols != width || end > ws.len() {
            None
        } else {
            Some(
                (
                    LayerView {
                        rows,
                        cols,
                        weights: ws.subrange(pos + 2, wend),
                        bias: ws.subrange(wend, end),
                    },
                    end,
                ),
            )
        }
    }
}

/// Reads `remaining` chained layers from `pos` to the very end of `ws`,
/// after the layers `acc` that were already read.
pub open spec fn parse_layers(
    ws: Seq<u64>,
    pos: int,
    remaining: nat,
    width: nat,
    acc: Seq<LayerView>,
) -> Option<Seq<LayerView>>
    decreases remaining,
{
    if remaining == 0 {
        if pos == ws.len() {
            Some(acc)
        } else {
            None
        }
    } else {
        match parse_layer(ws, pos, width) {
            None => None,
            Some((l, next)) => parse_layers(ws, next, (remaining - 1) as nat, l.rows, acc.push(l)),
        }
    }
}

/// The network that the words encode, if they encode one.
pub open spec fn parse_network(ws: Seq<u64>) -> Option<NetworkView> {
    if ws.len() < 3 || ws[0] > usize::MAX {
        None
    } else {
        match selection_of_code(ws[1]) {
            None => None,
            Some(activation) => match parse_layers(ws, 3, ws[2] as nat, ws[0] as nat, seq![]) {
                None => None,
                Some(layers) => Some(NetworkView { input_width: ws[0] as nat, layers, activation }),
            },
        }
    }
}

/// The eight bytes of a word, least significant first.
pub open spec fn word_bytes(w: u64) -> Seq<u8> {
    seq![
        (w & 0xff) as u8,
        ((w >> 8u64) & 0xff) as u8,
        ((w >> 16u64) & 0xff) as u8,
        ((w >> 24u64) & 0xff) as u8,
        ((w >> 32u64) & 0xff) as u8,
        ((w >> 40u64) & 0xff) as u8,
        ((w >> 48u64) & 0xff) as u8,
        ((w >> 56u64) & 0xff) as u8,
    ]
}

/// The bytes of consecutive words.
pub open spec fn words_bytes(ws: Seq<u64>) -> Seq<u8>
    decreases ws.len(),
{
    if ws.len() == 0 {
        seq![]
    } else {
        words_bytes(ws.drop_last()) + word_bytes(ws.last())
    }
}

/// The word whose eight bytes, least significant first, start at `i`.
pub open spec fn word_at(b: Seq<u8>, i: int) -> u64 {
    (b[i] as u64) | ((b[i + 1] as u64) << 8u64) | ((b[i + 2] as u64) << 16u64) | ((b[i + 3] as u64)
        << 24u64) | ((b[i + 4] as u64) << 32u64) | ((b[i + 5] as u64) << 40u64) | ((b[i + 6] as u64)
        << 48u64) | ((b[i + 7] as u64) << 56u64)
}

/// The words that the bytes spell, if their number is a multiple of eight.
pub open spec fn bytes_words(b: Seq<u8>) -> Option<Seq<u64>> {
    if b.len() % 8 != 0 {
        None
    } else {
        Some(Seq::new(b.len() / 8, |k: int| word_at(b, 8 * k)))
    }
}

/// The binary form of a network.
pub open spec fn network_bytes(v: NetworkView) -> Seq<u8> {
    words_bytes(network_words(v))
}

/// The network that the bytes encode, if they encode one.
pub open spec fn parse_network_bytes(b: Seq<u8>) -> Option<NetworkView> {
    match bytes_words(b) {
        None => None,
        Some(ws) => parse_network(ws),
    }
}

proof fn lemma_word_round_trip(w: u64)
    ensures
        word_at(word_bytes(w), 0) == w,
{
    assert(((w & 0xff) as u8 as u64) | ((((w >> 8u64) & 0xff) as u8 as u64) << 8u64) | ((((w
        >> 16u64) & 0xff) as u8 as u64) << 16u64) | ((((w >> 24u64) & 0xff) as u8 as u64) << 24u64)
        | ((((w >> 32u64) & 0xff) as u8 as u64) << 32u64) | ((((w >> 40u64) & 0xff) as u8 as u64)
        << 40u64) | ((((w >> 48u64) & 0xff) as u8 as u64) << 48u64) | ((((w >> 56u64) & 0xff) as u8
        as u64) << 56u64) == w) by (bit_vector);
}

proof fn lemma_words_bytes_layout(ws: Seq<u64>)
    ensures
        words_bytes(ws).len() == 8 * ws.len(),
        forall|k: int, j: int|
            0 <= k < ws.len() && 0 <= j < 8 ==> words_bytes(ws)[8 * k + j] == #[trigger] word_bytes(
                ws[k],
            )[j],
    decreases ws.len(),
{
    if ws.len() > 0 {
        lemma_words_bytes_layout(ws.drop_last());
        let pre = words_bytes(ws.drop_last());
        assert forall|k: int, j: int| 0 <= k < ws.len() && 0 <= j < 8 implies words_bytes(ws)[8 * k
            + j] == #[trigger] word_bytes(ws[k])[j] by {
            if k < ws.len() - 1 {
                assert(ws.drop_last()[k] == ws[k]);
                assert(words_bytes(ws)[8 * k + j] == pre[8 * k + j]);
            }
        }
    }
}

/// The bytes of words read back as those words.
pub proof fn lemma_words_bytes_round_trip(ws: Seq<u64>)
    ensures
        bytes_words(words_bytes(ws)) == Some(ws),
{
    let b = words_bytes(ws);
    lemma_words_bytes_layout(ws);
    assert(b.len() % 8 == 0);
    let back = Seq::new(b.len() / 8, |k: int| word_at(b, 8 * k));
    assert forall|k: int| 0 <= k < ws.len() implies back[k] == ws[k] by {
        let wb = word_bytes(ws[k]);
        assert(b[8 * k] == wb[0]);
        assert(b[8 * k + 1] == wb[1]);
        assert(b[8 * k + 2] == wb[2]);
        assert(b[8 * k + 3] == wb[3]);
        assert(b[8 * k + 4] == wb[4]);
        assert(b[8 * k + 5] == wb[5]);
        assert(b[8 * k + 6] == wb[6]);
        assert(b[8 * k + 7] == wb[7]);
        lemma_word_round_trip(ws[k]);
    }
    assert(back =~= ws);
}

/// Decoding the binary form of a well-formed network gives back that
/// network: its topology, every weight and bias bit for bit, and its
/// activation selection.
pub proof fn lemma_round_trip(n: NeuralNetwork)
    requires
        n.wf(),
    ensures
        parse_network_bytes(network_bytes(n.view())) == Some(n.view()),
{
    n.lemma_wf();
    lemma_words_bytes_round_trip(network_words(n.view()));
    lemma_network_words_round_trip(n.view());
}

proof fn lemma_layers_words_push(ls: Seq<LayerView>, l: LayerView)
    ensures
        layers_words(ls.push(l)) == layers_words(ls) + layer_words(l),
    decreases ls.len(),
{
    if ls.len() == 0 {
        assert(ls.push(l).skip(1) =~= seq![]);
        assert(ls.push(l)[0] == l);
        assert(layers_words(ls.push(l).skip(1)) == Seq::<u64>::empty());
        assert(layers_words(ls) == Seq::<u64>::empty());
        assert(layers_words(ls.push(l)) =~= layers_words(ls) + layer_words(l));
    } else {
        assert(ls.push(l).skip(1) =~= ls.skip(1).push(l));
        lemma_layers_words_push(ls.skip(1), l);
        assert(ls.push(l)[0] == ls[0]);
        assert(layers_words(ls.push(l)) =~= layers_words(ls) + layer_words(l));
    }
}

/// Chained layers read back from their words, wherever in `ws` they stand.
proof fn lemma_parse_layers_words(
    ws: Seq<u64>,
    pos: int,
    width: nat,
    ls: Seq<LayerView>,
    acc: Seq<LayerView>,
)
    requires
        0 <= pos <= ws.len(),
        ws.subrange(pos, ws.len() as int) == layers_words(ls),
        chained(width, ls),
    ensures
        parse_layers(ws, pos, ls.len(), width, acc) == Some(acc + ls),
    decreases ls.len(),
{
    if ls.len() == 0 {
        assert(ws.subrange(pos, ws.len() as int).len() == 0);
        assert(acc + ls =~= acc);
    } else {
        let l = ls[0];
        assert(layer_view_wf(l));
        let lw = layer_words(l);
        let rest = layers_words(ls.skip(1));
        let tail = ws.subrange(pos, ws.len() as int);
        assert(tail =~= lw + rest);
        assert(tail.len() == lw.len() + rest.len());
        let wend = pos + 2 + l.rows * l.cols;
        let end = wend + l.rows;
        assert(ws[pos] == tail[0]);
        assert(ws[pos + 1] == tail[1]);
        assert(ws.subrange(pos + 2, wend) =~= l.weights) by {
            assert forall|i: int| 0 <= i < l.weights.len() implies ws.subrange(pos + 2, wend)[i]
                == l.weights[i] by {
                assert(ws[pos + 2 + i] == tail[2 + i]);
            }
        }
        assert(ws.subrange(wend, end) =~= l.bias) by {
            assert forall|i: int| 0 <= i < l.bias.len() implies ws.subrange(wend, end)[i]
                == l.bias[i] by {
                assert(ws[wend + i] == tail[2 + l.weights.len() + i]);
            }
        }
        assert(parse_layer(ws, pos, width) == Some((l, end)));
        assert(ws.subrange(end, ws.len() as int) =~= rest) by {
            assert forall|i: int| 0 <= i < rest.len() implies ws.subrange(end, ws.len() as int)[i]
                == rest[i] by {
                assert(ws[end + i] == tail[lw.len() + i]);
            }
        }
        assert(chained(l.rows, ls.skip(1))) by {
            assert forall|k: int| 0 <= k < ls.skip(1).len() implies #[trigger] layer_view_wf(
                ls.skip(1)[k],
            ) && ls.skip(1)[k].cols == (if k == 0 {
                l.rows
            } else {
                ls.skip(1)[k - 1].rows
            }) by {
                assert(layer_view_wf(ls[k + 1]));
            }
        }
        lemma_parse_layers_words(ws, end, l.rows, ls.skip(1), acc.push(l));
        assert(acc.push(l) + ls.skip(1) =~= acc + ls);
        assert(ls.skip(1).len() == (ls.len() - 1) as nat);
        assert(parse_layers(ws, pos, ls.len(), width, acc) == parse_layers(
            ws,
            end,
            ls.skip(1).len(),
            l.rows,
            acc.push(l),
        ));
    }
}

/// The words of every well-formed network read back as that network.
pub proof fn lemma_network_words_round_trip(v: NetworkView)
    requires
        chained(v.input_width, v.layers),
        v.input_width <= usize::MAX,
        v.layers.len() < usize::MAX,
    ensures
        parse_network(network_words(v)) == Some(v),
{
    let ws = network_words(v);
    assert(ws.subrange(3, ws.len() as int) =~= layers_words(v.layers));
    lemma_parse_layers_words(ws, 3, v.input_width, v.layers, seq![]);
    assert(seq![] + v.layers =~= v.layers);
    crate::activation::lemma_selection_code_round_trip(v.activation);
}

/// Appends `ws` to `out`.
fn append_words(out: &mut Vec<u64>, ws: &Vec<u64>)
    ensures
        final(out)@ == old(out)@ + ws@,
{
    let mut i: usize = 0;
    let ghost start = out@;
    while i < ws.len()
        invariant
            i <= ws@.len(),
            out@ == start + ws@.subrange(0, i as int),
        decreases ws@.len() - i,
    {
        out.push(ws[i]);
        i = i + 1;
        proof {
            assert(ws@.subrange(0, i as int) =~= ws@.subrange(0, i - 1).push(ws@[i - 1]));
        }
    }
    assert(ws@.subrange(0, i as int) =~= ws@);
}

/// The words `ws[start..end]`.
fn slice_words(ws: &Vec<u64>, start: usize, end: usize) -> (r: Vec<u64>)
    requires
        start <= end <= ws@.len(),
    ensures
        r@ == ws@.subrange(start as int, end as int),
{
    let mut r: Vec<u64> = Vec::with_capacity(end - start);
    let mut i: usize = start;
    while i < end
        invariant
            start <= i <= end,
            end <= ws@.len(),
            r@ == ws@.subrange(start as int, i as int),
        decreases end - i,
    {
        r.push(ws[i]);
        i = i + 1;
        proof {
            assert(ws@.subrange(start as int, i as int) =~= ws@.subrange(start as int, i - 1).push(
                ws@[i - 1],
            ));
        }
    }
    r
}

/// Reads the layer at `pos` that must take `width` inputs.
fn read_layer(ws: &Vec<u64>, pos: usize, width: usize) -> (r: Option<(Layer, usize)>)
    requires
        pos <= ws@.len(),
    ensures
        match parse_layer(ws@, pos as int, width as nat) {
            None => r is None,
            Some((v, next)) => r matches Some((l, n)) && l.wf() && l.view() == v && n == next,
        },
{
    let len: usize = ws.len();
    if len - pos < 2 {
        return None;
    }
    let rows: u64 = ws[pos];
    let cols: u64 = ws[pos + 1];
    if cols != width as u64 {
        return None;
    }
    let avail: u64 = (len - pos - 2) as u64;
    let count: u64 = match rows.checked_mul(cols) {
        Some(c) => c,
        None => return None,
    };
    if count > avail || rows > avail - count {
        return None;
    }
    let wstart: usize = pos + 2;
    let wend: usize = wstart + count as usize;
    let end: usize = wend + rows as usize;
    let data = slice_words(ws, wstart, wend);
    let weights = match Matrix::from_row_slice(rows as usize, width, &data) {
        Some(m) => m,
        None => return None,
    };
    let bias = slice_words(ws, wend, end);
    match Layer::from_parts(weights, bias) {
        Some(l) => Some((l, end)),
        None => None,
    }
}

impl NeuralNetwork {
    /// The network as words: input width, activation code, layer count,
    /// then each layer's row count, column count, weights row after row
    /// and biases.
    pub fn to_words(&self) -> (r: Vec<u64>)
        requires
            self.wf(),
        ensures
            r@ == network_words(self.view()),
    {
        proof {
            self.lemma_wf();
        }
        let layers = self.layers();
        let ghost views = self.view().layers;
        let ghost head = seq![
            self.view().input_width as u64,
            selection_code(self.view().activation),
            views.len() as u64,
        ];
        let mut out: Vec<u64> = Vec::new();
        out.push(self.layer_size(0) as u64);
        out.push(encode_selection(self.selected_activation()));
        out.push(layers.len() as u64);
        assert(out@ =~= head + layers_words(views.take(0)));
        let mut i: usize = 0;
        while i < layers.len()
            invariant
                i <= layers@.len(),
                views == layers@.map_values(|l: Layer| l.view()),
                forall|k: int| 0 <= k < layers@.len() ==> (#[trigger] layers@[k]).wf(),
                out@ == head + layers_words(views.take(i as int)),
            decreases layers@.len() - i,
        {
            let l = &layers[i];
            out.push(l.size() as u64);
            out.push(l.inputs() as u64);
            append_words(&mut out, l.weights().as_slice());
            append_words(&mut out, l.biases());
            proof {
                lemma_layers_words_push(views.take(i as int), views[i as int]);
                assert(views.take(i + 1) =~= views.take(i as int).push(views[i as int]));
                assert(out@ =~= head + layers_words(views.take(i + 1)));
            }
            i = i + 1;
        }
        assert(views.take(i as int) =~= views);
        out
    }

    /// The network that `ws` encodes; refused when `ws` encodes none.
    pub fn from_words(ws: &Vec<u64>) -> (r: Result<NeuralNetwork, DecodeError>)
        ensures
            r is Ok <==> parse_network(ws@) is Some,
            r matches Ok(n) ==> n.wf() && parse_network(ws@) == Some(n.view()),
    {
        if ws.len() < 3 || ws[0] > usize::MAX as u64 {
            return Err(DecodeError);
        }
        let activation = match decode_selection(ws[1]) {
            Some(a) => a,
            None => return Err(DecodeError),
        };
        let count: u64 = ws[2];
        let input_width: usize = ws[0] as usize;
        let mut layers: Vec<Layer> = Vec::new();
        let mut pos: usize = 3;
        let mut width: usize = input_width;
        let mut i: u64 = 0;
        assert(layers@.map_values(|l: Layer| l.view()) =~= seq![]);
        while i < count
            invariant
                3 <= pos <= ws@.len(),
                ws@.len() >= 3,
                count == ws@[2],
                input_width as nat == ws@[0] as nat,
                selection_of_code(ws@[1]) == Some(activation),
                i <= count,
                layers@.len() == i,
                pos >= 3 + 2 * i,
                forall|k: int| 0 <= k < layers@.len() ==> (#[trigger] layers@[k]).wf(),
                chained(input_width as nat, layers@.map_values(|l: Layer| l.view())),
                width == (if i == 0 {
                    input_width as nat
                } else {
                    layers@[i - 1].view().rows
                }),
                parse_layers(ws@, pos as int, (count - i) as nat, width as nat, layers@.map_values(|l: Layer| l.view()))
                    == parse_layers(ws@, 3, count as nat, input_width as nat, seq![]),
            decreases count - i,
        {
            let ghost before = layers@.map_values(|l: Layer| l.view());
            match read_layer(ws, pos, width) {
                None => {
                    assert(parse_layers(ws@, pos as int, (count - i) as nat, width as nat, before)
                        is None);
                    assert(parse_layers(ws@, 3, ws@[2] as nat, ws@[0] as nat, seq![]) is None);
                    assert(parse_network(ws@) is None);
                    return Err(DecodeError);
                },
                Some((l, next)) => {
                    proof {
                        l.lemma_wf();
                    }
                    width = l.size();
                    layers.push(l);
                    pos = next;
                },
            }
            proof {
                let after = layers@.map_values(|l: Layer| l.view());
                assert(after =~= before.push(layers@[i as int].view()));
                assert(chained(input_width as nat, after)) by {
                    assert forall|k: int| 0 <= k < after.len() implies #[trigger] layer_view_wf(after[k])
                        && after[k].cols == (if k == 0 {
                        input_width as nat
                    } else {
                        after[k - 1].rows
                    }) by {
                        if k < i {
                            assert(after[k] == before[k]);
                        }
                        layers@[k].lemma_wf();
                    }
                }
            }
            i = i + 1;
        }
        if pos != ws.len() {
            return Err(DecodeError);
        }
        proof {
            assert(layers@.len() < usize::MAX);
        }
        Ok(NeuralNetwork::from_parts(input_width, layers, activation))
    }
}

/// The bytes of `ws`, eight per word, least significant first.
fn words_to_bytes(ws: &Vec<u64>) -> (r: Vec<u8>)
    ensures
        r@ == words_bytes(ws@),
{
    let mut r: Vec<u8> = Vec::new();
    let mut i: usize = 0;
    while i < ws.len()
        invariant
            i <= ws@.len(),
            r@ == words_bytes(ws@.take(i as int)),
        decreases ws@.len() - i,
    {
        let w: u64 = ws[i];
        r.push((w & 0xff) as u8);
        r.push(((w >> 8u64) & 0xff) as u8);
        r.push(((w >> 16u64) & 0xff) as u8);
        r.push(((w >> 24u64) & 0xff) as u8);
        r.push(((w >> 32u64) & 0xff) as u8);
        r.push(((w >> 40u64) & 0xff) as u8);
        r.push(((w >> 48u64) & 0xff) as u8);
        r.push(((w >> 56u64) & 0xff) as u8);
        proof {
            assert(ws@.take(i + 1).drop_last() =~= ws@.take(i as int));
            assert(r@ =~= words_bytes(ws@.take(i + 1)));
        }
        i = i + 1;
    }
    assert(ws@.take(i as int) =~= ws@);
    r
}

/// The words that `b` spells; `None` unless its length is a multiple of eight.
fn bytes_to_words(b: &Vec<u8>) -> (r: Option<Vec<u64>>)
    ensures
        match bytes_words(b@) {
            None => r is None,
            Some(ws) => r matches Some(v) && v@ == ws,
        },
{
    let len: usize = b.len();
    if len % 8 != 0 {
        return None;
    }
    let n: usize = len / 8;
    let mut r: Vec<u64> = Vec::with_capacity(n);
    let mut k: usize = 0;
    while k < n
        invariant
            n == b@.len() / 8,
            b@.len() % 8 == 0,
            b@.len() == len,
            k <= n,
            r@ == Seq::new(k as nat, |j: int| word_at(b@, 8 * j)),
        decreases n - k,
    {
        let i: usize = 8 * k;
        let w: u64 = (b[i] as u64) | ((b[i + 1] as u64) << 8u64) | ((b[i + 2] as u64) << 16u64) | ((b[i
            + 3] as u64) << 24u64) | ((b[i + 4] as u64) << 32u64) | ((b[i + 5] as u64) << 40u64) | ((b[i
            + 6] as u64) << 48u64) | ((b[i + 7] as u64) << 56u64);
        r.push(w);
        k = k + 1;
        proof {
            assert(r@ =~= Seq::new(k as nat, |j: int| word_at(b@, 8 * j)));
        }
    }
    Some(r)
}

impl NeuralNetwork {
    /// The binary form of the network: its words (see `to_words`), each as
    /// eight bytes, least significant first.
    pub fn to_bytes(&self) -> (r: Vec<u8>)
        requires
            self.wf(),
        ensures
            r@ == network_bytes(self.view()),
    {
        let ws = self.to_words();
        words_to_bytes(&ws)
    }

    /// The network whose binary form is `bytes`; refused when the bytes are
    /// truncated, corrupt, or describe layers whose shapes do not chain.
    pub fn from_bytes(bytes: &Vec<u8>) -> (r: Result<NeuralNetwork, DecodeError>)
        ensures
            r is Ok <==> parse_network_bytes(bytes@) is Some,
            r matches Ok(n) ==> n.wf() && parse_network_bytes(bytes@) == Some(n.view()),
    {
        match bytes_to_words(bytes) {
            None => Err(DecodeError),
            Some(ws) => NeuralNetwork::from_words(&ws),
        }
    }
}

} // verus!
