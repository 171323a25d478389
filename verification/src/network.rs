//! The layered feedforward network: activation storage, forward
//! evaluation, and the random perturbation operators used by the trainer.

use vstd::prelude::*;
use vstd::pervasive::VecAdditionalExecFns;

use crate::fixed::{fixed_mul, fx_add, fx_mul, sat_add, sigmoid_spec, SCALE};
use crate::random::random_in_range;

verus! {

/// The fatal failures of network construction and reshaping.
#[derive(Clone, Copy, Debug, PartialEq, Eq, Structural)]
pub enum NetworkError {
    /// The requested structure has fewer than two layers.
    TooFewLayers,
    /// The requested structure contains a zero-sized layer.
    EmptyLayer,
    /// A bulk replacement does not fit the current layer structure.
    ShapeMismatch,
}

/// The sequence of per-layer activation rows of a matrix of values.
pub open spec fn mat_view(m: Vec<Vec<i64>>) -> Seq<Seq<i64>> {
    Seq::new(m@.len(), |l: int| m@[l]@)
}

/// The sequence of per-boundary weight matrices of a weight cube.
pub open spec fn cube_view(c: Vec<Vec<Vec<i64>>>) -> Seq<Seq<Seq<i64>>> {
    Seq::new(c@.len(), |l: int| mat_view(c@[l]))
}

/// A layered feedforward network.
///
/// `nodes[l][n]` is the current activation of node `n` in layer `l`;
/// `weights[l][n][m]` connects node `n` of layer `l` to node `m` of layer
/// `l + 1`; `biases[l][n]` is the bias added to node `n` of layer `l`.
pub struct NeuralNetwork {
    pub nodes: Vec<Vec<i64>>,
    pub weights: Vec<Vec<Vec<i64>>>,
    pub biases: Vec<Vec<i64>>,
}

/// A structure vector is usable when it has at least two layers and no
/// zero-sized layer.
pub open spec fn valid_structure(s: Seq<usize>) -> bool {
    &&& s.len() >= 2
    &&& forall|l: int| 0 <= l < s.len() ==> #[trigger] s[l] > 0
}

/// The weight matrix at boundary `i`, or nothing when `i` is out of range.
pub open spec fn wrow_at(w: Seq<Seq<Seq<i64>>>, i: int) -> Seq<Seq<i64>> {
    if 0 <= i < w.len() {
        w[i]
    } else {
        Seq::empty()
    }
}

/// The bias row of layer `i`, or nothing when `i` is out of range.
pub open spec fn brow_at(b: Seq<Seq<i64>>, i: int) -> Seq<i64> {
    if 0 <= i < b.len() {
        b[i]
    } else {
        Seq::empty()
    }
}

/// The bias of node `n` in a bias row; a missing bias contributes zero.
pub open spec fn bias_at(brow: Seq<i64>, n: int) -> int {
    if 0 <= n < brow.len() {
        brow[n] as int
    } else {
        0
    }
}

/// One summand of the incoming weighted sum of node `n`: activation `j`
/// of the previous layer times the weight from `j` to `n`.  A summand
/// whose weight is missing contributes zero.
pub open spec fn in_term(prev: Seq<i64>, wrows: Seq<Seq<i64>>, n: int, j: int) -> int {
    if 0 <= j < prev.len() && j < wrows.len() && 0 <= n < wrows[j].len() {
        fixed_mul(prev[j] as int, wrows[j][n] as int)
    } else {
        0
    }
}

/// The saturating left-to-right sum of the first `k` incoming summands of
/// node `n`.
pub open spec fn weighted_sum(prev: Seq<i64>, wrows: Seq<Seq<i64>>, n: int, k: nat) -> int
    decreases k,
{
    if k == 0 {
        0
    } else {
        sat_add(
            weighted_sum(prev, wrows, n, (k - 1) as nat),
            in_term(prev, wrows, n, k - 1),
        )
    }
}

/// The recomputed activation of node `n`: the squashed, biased weighted
/// sum of the whole previous layer.
pub open spec fn node_val(prev: Seq<i64>, wrows: Seq<Seq<i64>>, brow: Seq<i64>, n: int) -> int {
    sigmoid_spec(sat_add(weighted_sum(prev, wrows, n, prev.len()), bias_at(brow, n)))
}

/// The recomputed activation row of a layer of width `width`.
pub open spec fn layer_vals(prev: Seq<i64>, wrows: Seq<Seq<i64>>, brow: Seq<i64>, width: nat) -> Seq<
    i64,
> {
    Seq::new(width, |n: int| node_val(prev, wrows, brow, n) as i64)
}

/// The width recorded for computed layer `i + 1`, or zero when missing.
pub open spec fn width_at(hidden: Seq<nat>, i: int) -> nat {
    if 0 <= i < hidden.len() {
        hidden[i]
    } else {
        0
    }
}

/// The activation row of layer `l` after a full forward pass: layer 0 is
/// the input row, and every later layer is recomputed from the one below
/// it.  `hidden[i]` is the width of layer `i + 1`.
pub open spec fn layer_rec(
    input: Seq<i64>,
    hidden: Seq<nat>,
    w: Seq<Seq<Seq<i64>>>,
    b: Seq<Seq<i64>>,
    l: nat,
) -> Seq<i64>
    decreases l,
{
    if l == 0 {
        input
    } else {
        layer_vals(
            layer_rec(input, hidden, w, b, (l - 1) as nat),
            wrow_at(w, l - 1),
            brow_at(b, l as int),
            width_at(hidden, l - 1),
        )
    }
}

/// The widths of all layers above the input layer.
pub open spec fn rest_widths(nv: Seq<Seq<i64>>) -> Seq<nat> {
    Seq::new(
        if nv.len() == 0 {
            0
        } else {
            (nv.len() - 1) as nat
        },
        |i: int| nv[i + 1].len(),
    )
}

/// The output row of a full forward pass over a network whose layers
/// above the input have widths `hidden`.
pub open spec fn net_outputs(
    input: Seq<i64>,
    hidden: Seq<nat>,
    w: Seq<Seq<Seq<i64>>>,
    b: Seq<Seq<i64>>,
) -> Seq<i64> {
    layer_rec(input, hidden, w, b, hidden.len())
}

/// A freshly initialized network for structure `s`: zero activations,
/// every weight at `SCALE` (the representation of 1.0), zero biases.
pub open spec fn fresh_net(s: Seq<usize>, net: NeuralNetwork) -> bool {
    &&& net.nodes_view().len() == s.len()
    &&& forall|l: int|
        0 <= l < s.len() ==> #[trigger] net.nodes_view()[l] == Seq::new(
            s[l] as nat,
            |i: int| 0i64,
        )
    &&& net.biases_view().len() == s.len()
    &&& forall|l: int|
        0 <= l < s.len() ==> #[trigger] net.biases_view()[l] == Seq::new(
            s[l] as nat,
            |i: int| 0i64,
        )
    &&& net.weights_view().len() == s.len() - 1
    &&& forall|l: int|
        0 <= l < s.len() - 1 ==> (#[trigger] net.weights_view()[l]).len() == s[l]
    &&& forall|l: int, n: int|
        0 <= l < s.len() - 1 && 0 <= n < s[l] ==> #[trigger] net.weights_view()[l][n] == Seq::new(
            s[l + 1] as nat,
            |i: int| SCALE,
        )
}

/// Shape consistency of a replacement weight cube against the layer rows.
pub open spec fn weights_shape_ok(w: Seq<Seq<Seq<i64>>>, nv: Seq<Seq<i64>>) -> bool {
    &&& w.len() + 1 == nv.len()
    &&& forall|l: int| 0 <= l < w.len() ==> (#[trigger] w[l]).len() == nv[l].len()
    &&& forall|l: int, n: int|
        0 <= l < w.len() && 0 <= n < w[l].len() ==> (#[trigger] w[l][n]).len() == nv[l + 1].len()
}

/// Shape consistency of a replacement bias matrix against the layer rows.
pub open spec fn biases_shape_ok(b: Seq<Seq<i64>>, nv: Seq<Seq<i64>>) -> bool {
    &&& b.len() == nv.len()
    &&& forall|l: int| 0 <= l < b.len() ==> (#[trigger] b[l]).len() == nv[l].len()
}

impl NeuralNetwork {
    /// The per-layer activation rows.
    pub open spec fn nodes_view(self) -> Seq<Seq<i64>> {
        mat_view(self.nodes)
    }

    /// The per-boundary weight matrices.
    pub open spec fn weights_view(self) -> Seq<Seq<Seq<i64>>> {
        cube_view(self.weights)
    }

    /// The per-layer bias rows.
    pub open spec fn biases_view(self) -> Seq<Seq<i64>> {
        mat_view(self.biases)
    }

    /// Well-formedness: at least two non-empty layers, biases parallel to
    /// the layers, and one weight matrix per layer boundary whose rows
    /// match the lower layer and whose columns match the upper layer.
    pub open spec fn wf(self) -> bool {
        let nv = self.nodes_view();
        let wv = self.weights_view();
        let bv = self.biases_view();
        &&& nv.len() >= 2
        &&& forall|l: int| 0 <= l < nv.len() ==> (#[trigger] nv[l]).len() > 0
        &&& bv.len() == nv.len()
        &&& forall|l: int| 0 <= l < nv.len() ==> (#[trigger] bv[l]).len() == nv[l].len()
        &&& wv.len() + 1 == nv.len()
        &&& forall|l: int| 0 <= l < wv.len() ==> (#[trigger] wv[l]).len() == nv[l].len()
        &&& forall|l: int, n: int|
            0 <= l < wv.len() && 0 <= n < wv[l].len() ==> (#[trigger] wv[l][n]).len() == nv[
                l + 1
            ].len()
    }

    /// Create a new network with the given structure: one activation row
    /// per entry, all weights at 1.0 (`SCALE`) and all biases at zero.
    /// A structure with fewer than two layers or with an empty layer is
    /// rejected with the matching construction error.
    pub fn new(structure: Vec<usize>) -> (r: Result<NeuralNetwork, NetworkError>)
        ensures
            r is Ok <==> valid_structure(structure@),
            r matches Ok(net) ==> fresh_net(structure@, net) && net.wf(),
            structure@.len() < 2 ==> r == Result::<NeuralNetwork, NetworkError>::Err(
                NetworkError::TooFewLayers,
            ),
            r is Err && structure@.len() >= 2 ==> r == Result::<NeuralNetwork, NetworkError>::Err(
                NetworkError::EmptyLayer,
            ),
    {
        let mut net = NeuralNetwork { nodes: Vec::new(), weights: Vec::new(), biases: Vec::new() };
        match net.initialize(structure) {
            Ok(()) => Ok(net),
            Err(e) => Err(e),
        }
    }

    /// Rebuild this network in place for the given structure, with the
    /// same fresh state as `new`; on rejection the network is unchanged.
    pub fn initialize(&mut self, structure: Vec<usize>) -> (r: Result<(), NetworkError>)
        ensures
            r is Ok <==> valid_structure(structure@),
            r is Ok ==> fresh_net(structure@, *final(self)) && final(self).wf(),
            r is Err ==> *final(self) == *old(self),
            structure@.len() < 2 ==> r == Result::<(), NetworkError>::Err(
                NetworkError::TooFewLayers,
            ),
            r is Err && structure@.len() >= 2 ==> r == Result::<(), NetworkError>::Err(
                NetworkError::EmptyLayer,
            ),
    {
        if structure.len() < 2 {
            return Err(NetworkError::TooFewLayers);
        }
        let mut l: usize = 0;
        while l < structure.len()
            invariant
                structure@.len() >= 2,
                l <= structure@.len(),
                forall|j: int| 0 <= j < l ==> #[trigger] structure@[j] > 0,
            decreases structure@.len() - l,
        {
            if structure[l] == 0 {
                return Err(NetworkError::EmptyLayer);
            }
            l += 1;
        }
        let mut nodes: Vec<Vec<i64>> = Vec::new();
        let mut k: usize = 0;
        while k < structure.len()
            invariant
                k <= structure@.len(),
                nodes@.len() == k,
                forall|j: int| 0 <= j < k ==> #[trigger] nodes@[j]@ == Seq::new(
                    structure@[j] as nat,
                    |i: int| 0i64,
                ),
            decreases structure@.len() - k,
        {
            nodes.push(filled(structure[k], 0));
            k += 1;
        }
        let mut biases: Vec<Vec<i64>> = Vec::new();
        let mut k2: usize = 0;
        while k2 < structure.len()
            invariant
                k2 <= structure@.len(),
                biases@.len() == k2,
                forall|j: int| 0 <= j < k2 ==> #[trigger] biases@[j]@ == Seq::new(
                    structure@[j] as nat,
                    |i: int| 0i64,
                ),
            decreases structure@.len() - k2,
        {
            biases.push(filled(structure[k2], 0));
            k2 += 1;
        }
        let mut weights: Vec<Vec<Vec<i64>>> = Vec::new();
        let mut k3: usize = 0;
        while k3 < structure.len() - 1
            invariant
                structure@.len() >= 2,
                k3 <= structure@.len() - 1,
                weights@.len() == k3,
                forall|j: int| 0 <= j < k3 ==> (#[trigger] weights@[j]@).len() == structure@[j],
                forall|j: int, n: int|
                    0 <= j < k3 && 0 <= n < structure@[j] ==> #[trigger] weights@[j]@[n]@
                        == Seq::new(structure@[j + 1] as nat, |i: int| SCALE),
            decreases structure@.len() - 1 - k3,
        {
            let mut mat: Vec<Vec<i64>> = Vec::new();
            let rows: usize = structure[k3];
            let mut n: usize = 0;
            while n < rows
                invariant
                    k3 + 1 < structure@.len(),
                    structure@.len() <= usize::MAX,
                    rows == structure@[k3 as int],
                    n <= rows,
                    mat@.len() == n,
                    forall|m: int| 0 <= m < n ==> #[trigger] mat@[m]@ == Seq::new(
                        structure@[k3 + 1] as nat,
                        |i: int| SCALE,
                    ),
                decreases rows - n,
            {
                mat.push(filled(structure[k3 + 1], SCALE));
                n += 1;
            }
            weights.push(mat);
            k3 += 1;
        }
        self.nodes = nodes;
        self.biases = biases;
        self.weights = weights;
        proof {
            assert(valid_structure(structure@));
        }
        Ok(())
    }

    /// Replace the weight cube; a cube whose shape does not match the
    /// current layer structure is rejected and nothing changes.
    pub fn set_weights(&mut self, new_weights: Vec<Vec<Vec<i64>>>) -> (r: Result<
        (),
        NetworkError,
    >)
        ensures
            r is Ok <==> weights_shape_ok(cube_view(new_weights), old(self).nodes_view()),
            r is Err ==> r == Result::<(), NetworkError>::Err(NetworkError::ShapeMismatch),
            r is Err ==> *final(self) == *old(self),
            r is Ok ==> final(self).weights_view() == cube_view(new_weights),
            final(self).nodes == old(self).nodes,
            final(self).biases == old(self).biases,
            old(self).wf() ==> final(self).wf(),
    {
        let nlen: usize = self.nodes.len();
        if nlen == 0 || new_weights.len() != nlen - 1 {
            return Err(NetworkError::ShapeMismatch);
        }
        let mut l: usize = 0;
        while l < new_weights.len()
            invariant
                l <= new_weights@.len(),
                new_weights@.len() + 1 == self.nodes@.len(),
                forall|j: int|
                    0 <= j < l ==> (#[trigger] cube_view(new_weights)[j]).len()
                        == self.nodes_view()[j].len(),
                forall|j: int, n: int|
                    0 <= j < l && 0 <= n < cube_view(new_weights)[j].len()
                        ==> (#[trigger] cube_view(new_weights)[j][n]).len()
                        == self.nodes_view()[j + 1].len(),
            decreases new_weights@.len() - l,
        {
            if new_weights[l].len() != self.nodes[l].len() {
                proof {
                    if weights_shape_ok(cube_view(new_weights), self.nodes_view()) {
                        assert((cube_view(new_weights)[l as int]).len()
                            == self.nodes_view()[l as int].len());
                    }
                }
                return Err(NetworkError::ShapeMismatch);
            }
            let cols: usize = self.nodes[l + 1].len();
            let mut n: usize = 0;
            while n < new_weights[l].len()
                invariant
                    l < new_weights@.len(),
                    new_weights@.len() + 1 == self.nodes@.len(),
                    cols == self.nodes_view()[l + 1].len(),
                    n <= new_weights@[l as int]@.len(),
                    forall|m: int|
                        0 <= m < n ==> (#[trigger] cube_view(new_weights)[l as int][m]).len()
                            == cols,
                decreases new_weights@[l as int]@.len() - n,
            {
                if new_weights[l][n].len() != cols {
                    proof {
                        if weights_shape_ok(cube_view(new_weights), self.nodes_view()) {
                            assert((cube_view(new_weights)[l as int][n as int]).len()
                                == self.nodes_view()[l + 1].len());
                        }
                    }
                    return Err(NetworkError::ShapeMismatch);
                }
                n += 1;
            }
            l += 1;
        }
        self.weights = new_weights;
        Ok(())
    }

    /// Replace the bias matrix; a matrix whose shape does not match the
    /// current layer structure is rejected and nothing changes.
    pub fn set_biases(&mut self, new_biases: Vec<Vec<i64>>) -> (r: Result<(), NetworkError>)
        ensures
            r is Ok <==> biases_shape_ok(mat_view(new_biases), old(self).nodes_view()),
            r is Err ==> r == Result::<(), NetworkError>::Err(NetworkError::ShapeMismatch),
            r is Err ==> *final(self) == *old(self),
            r is Ok ==> final(self).biases_view() == mat_view(new_biases),
            final(self).nodes == old(self).nodes,
            final(self).weights == old(self).weights,
            old(self).wf() ==> final(self).wf(),
    {
        if new_biases.len() != self.nodes.len() {
            return Err(NetworkError::ShapeMismatch);
        }
        let mut l: usize = 0;
        while l < new_biases.len()
            invariant
                l <= new_biases@.len(),
                new_biases@.len() == self.nodes@.len(),
                forall|j: int|
                    0 <= j < l ==> (#[trigger] mat_view(new_biases)[j]).len()
                        == self.nodes_view()[j].len(),
            decreases new_biases@.len() - l,
        {
            if new_biases[l].len() != self.nodes[l].len() {
                proof {
                    if biases_shape_ok(mat_view(new_biases), self.nodes_view()) {
                        assert((mat_view(new_biases)[l as int]).len()
                            == self.nodes_view()[l as int].len());
                    }
                }
                return Err(NetworkError::ShapeMismatch);
            }
            l += 1;
        }
        self.biases = new_biases;
        Ok(())
    }

    /// Overwrite the input layer with the given values.  A row of the
    /// wrong length is still assigned, but the mismatch is reported in
    /// the returned flag so the caller can surface a diagnostic.
    pub fn set_inputs(&mut self, input: Vec<i64>) -> (mismatch: bool)
        requires
            old(self).nodes@.len() >= 1,
        ensures
            mismatch <==> input@.len() != old(self).nodes_view()[0].len(),
            old(self).wf() && !mismatch ==> final(self).wf(),
            final(self).nodes@ == old(self).nodes@.update(0, input),
            final(self).nodes_view()[0] == input@,
            final(self).nodes@.len() == old(self).nodes@.len(),
            forall|l: int|
                1 <= l < old(self).nodes@.len() ==> #[trigger] final(self).nodes_view()[l] == old(self).nodes_view()[l],
            final(self).weights == old(self).weights,
            final(self).biases == old(self).biases,
    {
        let ghost orig = *self;
        let mismatch: bool = input.len() != self.nodes[0].len();
        self.nodes.set(0, input);
        proof {
            if orig.wf() && !mismatch {
                assert forall|l: int|
                    0 <= l < self.nodes_view().len() implies (#[trigger] self.nodes_view()[
                    l
                ]).len() == orig.nodes_view()[l].len() by {
                    if l != 0 {
                        assert(self.nodes@[l] == orig.nodes@[l]);
                    }
                }
                assert(self.wf());
            }
        }
        mismatch
    }

    /// Return a copy of the output layer's current activations.  This
    /// reads the values as they are; a forward pass must already have
    /// been run for them to reflect the current inputs.
    pub fn get_outputs(&mut self) -> (out: Vec<i64>)
        requires
            old(self).nodes@.len() >= 1,
        ensures
            *final(self) == *old(self),
            out@ == old(self).nodes_view()[old(self).nodes@.len() - 1],
    {
        let idx: usize = self.nodes.len() - 1;
        copy_values(&self.nodes[idx])
    }

    /// Run a full forward pass: recompute every layer above the input
    /// layer, in order, from the layer below it.  Weights and biases are
    /// untouched; the new activations are exactly the recursively
    /// specified rows.
    pub fn calculate_network(&mut self)
        ensures
            final(self).weights == old(self).weights,
            final(self).biases == old(self).biases,
            final(self).nodes@.len() == old(self).nodes@.len(),
            forall|l: int|
                0 <= l < old(self).nodes@.len() ==> (#[trigger] final(self).nodes_view()[l]).len()
                    == old(self).nodes_view()[l].len(),
            old(self).wf() ==> final(self).wf(),
            old(self).nodes@.len() >= 1 ==> final(self).nodes_view()[0] == old(self).nodes_view()[0],
            forall|l: int|
                1 <= l < old(self).nodes@.len() ==> #[trigger] final(self).nodes_view()[l]
                    == layer_rec(
                    old(self).nodes_view()[0],
                    rest_widths(old(self).nodes_view()),
                    old(self).weights_view(),
                    old(self).biases_view(),
                    l as nat,
                ),
    {
        let ghost orig = *self;
        let mut i: usize = 1;
        while i < self.nodes.len()
            invariant
                1 <= i,
                self.nodes@.len() == orig.nodes@.len(),
                orig.nodes@.len() >= 1 ==> i <= orig.nodes@.len(),
                self.weights == orig.weights,
                self.biases == orig.biases,
                orig.nodes@.len() >= 1 ==> self.nodes_view()[0] == orig.nodes_view()[0],
                forall|l: int|
                    1 <= l < i && l < orig.nodes@.len() ==> #[trigger] self.nodes_view()[l]
                        == layer_rec(
                        orig.nodes_view()[0],
                        rest_widths(orig.nodes_view()),
                        orig.weights_view(),
                        orig.biases_view(),
                        l as nat,
                    ),
                forall|l: int|
                    i <= l < orig.nodes@.len() ==> #[trigger] self.nodes@[l] == orig.nodes@[l],
            decreases self.nodes@.len() - i,
        {
            let ghost pre = *self;
            proof {
                assert(pre.nodes_view()[i - 1] == layer_rec(
                    orig.nodes_view()[0],
                    rest_widths(orig.nodes_view()),
                    orig.weights_view(),
                    orig.biases_view(),
                    (i - 1) as nat,
                ));
                assert(width_at(rest_widths(orig.nodes_view()), i - 1) == orig.nodes_view()[
                    i as int
                ].len());
                assert(pre.nodes_view()[i as int].len() == orig.nodes_view()[i as int].len());
            }
            self.calculate_layer_values(i);
            proof {
                assert(pre.weights_view() == orig.weights_view());
                assert(pre.biases_view() == orig.biases_view());
                assert(self.nodes_view()[i as int] == layer_vals(
                    layer_rec(
                        orig.nodes_view()[0],
                        rest_widths(orig.nodes_view()),
                        orig.weights_view(),
                        orig.biases_view(),
                        (i - 1) as nat,
                    ),
                    wrow_at(orig.weights_view(), i - 1),
                    brow_at(orig.biases_view(), i as int),
                    width_at(rest_widths(orig.nodes_view()), i - 1),
                ));
                assert(self.nodes_view()[i as int] == layer_rec(
                    orig.nodes_view()[0],
                    rest_widths(orig.nodes_view()),
                    orig.weights_view(),
                    orig.biases_view(),
                    i as nat,
                ));
                assert forall|l: int| 1 <= l < i + 1 && l < orig.nodes@.len() implies #[trigger] self
                    .nodes_view()[l] == layer_rec(
                    orig.nodes_view()[0],
                    rest_widths(orig.nodes_view()),
                    orig.weights_view(),
                    orig.biases_view(),
                    l as nat,
                ) by {
                    if l < i {
                        assert(self.nodes@[l] == pre.nodes@[l]);
                        assert(self.nodes_view()[l] == pre.nodes_view()[l]);
                    }
                }
            }
            i += 1;
        }
    }

    /// Recompute the activation row of one layer from the layer below it.
    fn calculate_layer_values(&mut self, layer_index: usize)
        requires
            1 <= layer_index < old(self).nodes@.len(),
        ensures
            final(self).weights == old(self).weights,
            final(self).biases == old(self).biases,
            final(self).nodes@.len() == old(self).nodes@.len(),
            forall|l: int|
                0 <= l < old(self).nodes@.len() && l != layer_index ==> #[trigger] final(self).nodes@[l] == old(self).nodes@[l],
            final(self).nodes_view()[layer_index as int] == layer_vals(
                old(self).nodes_view()[layer_index - 1],
                wrow_at(old(self).weights_view(), layer_index - 1),
                brow_at(old(self).biases_view(), layer_index as int),
                old(self).nodes_view()[layer_index as int].len(),
            ),
    {
        let width: usize = self.nodes[layer_index].len();
        let mut row: Vec<i64> = Vec::new();
        let mut n: usize = 0;
        while n < width
            invariant
                1 <= layer_index < self.nodes@.len(),
                width == self.nodes_view()[layer_index as int].len(),
                n <= width,
                row@.len() == n,
                forall|m: int|
                    0 <= m < n ==> #[trigger] row@[m] as int == node_val(
                        self.nodes_view()[layer_index - 1],
                        wrow_at(self.weights_view(), layer_index - 1),
                        brow_at(self.biases_view(), layer_index as int),
                        m,
                    ),
            decreases width - n,
        {
            let v: i64 = self.calculate_node_value(layer_index, n);
            row.push(v);
            n += 1;
        }
        proof {
            assert(row@ =~= layer_vals(
                self.nodes_view()[layer_index - 1],
                wrow_at(self.weights_view(), layer_index - 1),
                brow_at(self.biases_view(), layer_index as int),
                self.nodes_view()[layer_index as int].len(),
            ));
        }
        self.nodes.set(layer_index, row);
    }

    /// Compute the fresh activation of a single node of `layer_index`
    /// from the current activations of the layer below it.
    fn calculate_node_value(&self, layer_index: usize, node_index: usize) -> (val: i64)
        requires
            1 <= layer_index < self.nodes@.len(),
        ensures
            val as int == node_val(
                self.nodes_view()[layer_index - 1],
                wrow_at(self.weights_view(), layer_index - 1),
                brow_at(self.biases_view(), layer_index as int),
                node_index as int,
            ),
    {
        let prev_len: usize = self.nodes[layer_index - 1].len();
        let mut sum: i64 = 0;
        let mut j: usize = 0;
        while j < prev_len
            invariant
                1 <= layer_index < self.nodes@.len(),
                prev_len == self.nodes_view()[layer_index - 1].len(),
                j <= prev_len,
                sum as int == weighted_sum(
                    self.nodes_view()[layer_index - 1],
                    wrow_at(self.weights_view(), layer_index - 1),
                    node_index as int,
                    j as nat,
                ),
            decreases prev_len - j,
        {
            let bidx: usize = layer_index - 1;
            if bidx < self.weights.len() {
                if j < self.weights[bidx].len() {
                    if node_index < self.weights[bidx][j].len() {
                        let term: i64 = fx_mul(
                            self.nodes[bidx][j],
                            self.weights[bidx][j][node_index],
                        );
                        sum = fx_add(sum, term);
                    }
                }
            }
            j += 1;
        }
        let biased: i64 = if layer_index < self.biases.len() {
            if node_index < self.biases[layer_index].len() {
                fx_add(sum, self.biases[layer_index][node_index])
            } else {
                sum
            }
        } else {
            sum
        };
        NeuralNetwork::sigmoid(biased)
    }

    /// The squashing activation function on fixed-point values: an
    /// increasing map of the whole range into `[0, SCALE]`.
    pub fn sigmoid(v: i64) -> (r: i64)
        ensures
            r as int == sigmoid_spec(v as int),
            0 <= r <= SCALE,
    {
        if v >= 0 {
            let den: u128 = 2 * (65536u128 + v as u128);
            let q: u128 = 4294967296u128 / den;
            proof {
                vstd::arithmetic::div_mod::lemma_div_is_ordered_by_denominator(
                    4294967296,
                    131072,
                    den as int,
                );
            }
            SCALE - (q as i64)
        } else {
            let mv: u128 = (-(v as i128)) as u128;
            let den: u128 = 2 * (65536u128 + mv);
            let q: u128 = 4294967296u128 / den;
            proof {
                vstd::arithmetic::div_mod::lemma_div_is_ordered_by_denominator(
                    4294967296,
                    131072,
                    den as int,
                );
            }
            q as i64
        }
    }

    /// The identity activation.
    pub fn linear(v: i64) -> (r: i64)
        ensures
            r == v,
    {
        v
    }

    /// Perturb every weight independently by a uniform random amount in
    /// `[-mutation, mutation]`, saturating at the ends of the range; the
    /// shape of the cube, the activations and the biases are untouched.
    pub fn mutate_weights(&mut self, mutation: i64)
        requires
            mutation >= 0,
        ensures
            final(self).nodes == old(self).nodes,
            final(self).biases == old(self).biases,
            old(self).wf() ==> final(self).wf(),
            final(self).weights_view().len() == old(self).weights_view().len(),
            forall|l: int|
                0 <= l < old(self).weights_view().len() ==> (#[trigger] final(self).weights_view()[l]).len() == old(self).weights_view()[l].len(),
            forall|l: int, n: int|
                0 <= l < old(self).weights_view().len() && 0 <= n < old(self).weights_view()[l].len() ==> (#[trigger] final(self).weights_view()[l][n]).len()
                    == old(self).weights_view()[l][n].len(),
            forall|l: int, n: int, t: int|
                0 <= l < old(self).weights_view().len() && 0 <= n < old(self).weights_view()[l].len() && 0 <= t < old(self).weights_view()[l][n].len()
                    ==> old(self).weights_view()[l][n][t] - mutation <= #[trigger] final(self).weights_view()[l][n][t] <= old(self).weights_view()[l][n][t] + mutation,
    {
        let ghost orig = *self;
        let mut l: usize = 0;
        while l < self.weights.len()
            invariant
                mutation >= 0,
                self.nodes == orig.nodes,
                self.biases == orig.biases,
                self.weights@.len() == orig.weights@.len(),
                l <= orig.weights@.len(),
                forall|k: int|
                    l <= k < orig.weights@.len() ==> #[trigger] self.weights@[k]
                        == orig.weights@[k],
                forall|k: int|
                    0 <= k < l ==> (#[trigger] self.weights_view()[k]).len()
                        == orig.weights_view()[k].len(),
                forall|k: int, n: int|
                    0 <= k < l && 0 <= n < orig.weights_view()[k].len() ==> (#[trigger] self
                        .weights_view()[k][n]).len() == orig.weights_view()[k][n].len(),
                forall|k: int, n: int, t: int|
                    0 <= k < l && 0 <= n < orig.weights_view()[k].len() && 0 <= t
                        < orig.weights_view()[k][n].len() ==> orig.weights_view()[k][n][t]
                        - mutation <= #[trigger] self.weights_view()[k][n][t]
                        <= orig.weights_view()[k][n][t] + mutation,
            decreases orig.weights@.len() - l,
        {
            let rows: usize = self.weights[l].len();
            let mut mat: Vec<Vec<i64>> = Vec::new();
            let mut n: usize = 0;
            while n < rows
                invariant
                    mutation >= 0,
                    l < self.weights@.len(),
                    rows == self.weights_view()[l as int].len(),
                    n <= rows,
                    mat@.len() == n,
                    forall|m: int|
                        0 <= m < n ==> (#[trigger] mat@[m]@).len()
                            == self.weights_view()[l as int][m].len(),
                    forall|m: int, t: int|
                        0 <= m < n && 0 <= t < self.weights_view()[l as int][m].len()
                            ==> self.weights_view()[l as int][m][t] - mutation <= #[trigger] mat@[
                            m
                        ]@[t] <= self.weights_view()[l as int][m][t] + mutation,
                decreases rows - n,
            {
                let cols: usize = self.weights[l][n].len();
                let mut row: Vec<i64> = Vec::new();
                let mut t: usize = 0;
                while t < cols
                    invariant
                        mutation >= 0,
                        l < self.weights@.len(),
                        n < self.weights_view()[l as int].len(),
                        cols == self.weights_view()[l as int][n as int].len(),
                        t <= cols,
                        row@.len() == t,
                        forall|u: int|
                            0 <= u < t ==> self.weights_view()[l as int][n as int][u] - mutation
                                <= #[trigger] row@[u] <= self.weights_view()[l as int][n as int][u]
                                + mutation,
                    decreases cols - t,
                {
                    let low: i64 = -mutation;
                    let delta: i64 = random_in_range(low, mutation);
                    let updated: i64 = fx_add(self.weights[l][n][t], delta);
                    row.push(updated);
                    t += 1;
                }
                mat.push(row);
                n += 1;
            }
            let ghost pre = *self;
            self.weights.set(l, mat);
            proof {
                assert(pre.weights@[l as int] == orig.weights@[l as int]);
                assert(pre.weights_view()[l as int] == orig.weights_view()[l as int]);
                assert(self.weights@[l as int] == mat);
                assert(self.weights_view()[l as int] == mat_view(mat));
                assert forall|m: int|
                    0 <= m < orig.weights_view()[l as int].len() implies (#[trigger] self
                    .weights_view()[l as int][m]).len() == orig.weights_view()[l as int][m].len()
                by {
                    assert(self.weights_view()[l as int][m] == mat@[m]@);
                }
                assert forall|m: int, t: int|
                    0 <= m < orig.weights_view()[l as int].len() && 0 <= t < orig.weights_view()[
                        l as int
                    ][m].len() implies orig.weights_view()[l as int][m][t] - mutation
                    <= (#[trigger] self.weights_view()[l as int][m][t]) <= orig.weights_view()[
                    l as int
                ][m][t] + mutation by {
                    assert(self.weights_view()[l as int][m] == mat@[m]@);
                }
                assert forall|k: int|
                    0 <= k < orig.weights@.len() && k != l implies #[trigger] self.weights@[k]
                    == pre.weights@[k] by {}
                assert forall|k: int|
                    0 <= k < orig.weights@.len() && k != l implies #[trigger] self.weights_view()[k]
                    == pre.weights_view()[k] by {
                    assert(self.weights@[k] == pre.weights@[k]);
                }
            }
            l += 1;
        }
    }

    /// Perturb every bias independently by a uniform random amount in
    /// `[-mutation, mutation]`, saturating at the ends of the range; the
    /// shape of the matrix, the activations and the weights are untouched.
    pub fn mutate_biases(&mut self, mutation: i64)
        requires
            mutation >= 0,
        ensures
            final(self).nodes == old(self).nodes,
            final(self).weights == old(self).weights,
            old(self).wf() ==> final(self).wf(),
            final(self).biases_view().len() == old(self).biases_view().len(),
            forall|l: int|
                0 <= l < old(self).biases_view().len() ==> (#[trigger] final(self).biases_view()[l]).len() == old(self).biases_view()[l].len(),
            forall|l: int, n: int|
                0 <= l < old(self).biases_view().len() && 0 <= n < old(self).biases_view()[l].len() ==> old(self).biases_view()[l][n] - mutation
                    <= #[trigger] final(self).biases_view()[l][n] <= old(self).biases_view()[l][n]
                    + mutation,
    {
        let ghost orig = *self;
        let mut l: usize = 0;
        while l < self.biases.len()
            invariant
                mutation >= 0,
                self.nodes == orig.nodes,
                self.weights == orig.weights,
                self.biases@.len() == orig.biases@.len(),
                l <= orig.biases@.len(),
                forall|k: int|
                    l <= k < orig.biases@.len() ==> #[trigger] self.biases@[k] == orig.biases@[k],
                forall|k: int|
                    0 <= k < l ==> (#[trigger] self.biases_view()[k]).len()
                        == orig.biases_view()[k].len(),
                forall|k: int, n: int|
                    0 <= k < l && 0 <= n < orig.biases_view()[k].len()
                        ==> orig.biases_view()[k][n] - mutation <= #[trigger] self
                        .biases_view()[k][n] <= orig.biases_view()[k][n] + mutation,
            decreases orig.biases@.len() - l,
        {
            let cols: usize = self.biases[l].len();
            let mut row: Vec<i64> = Vec::new();
            let mut n: usize = 0;
            while n < cols
                invariant
                    mutation >= 0,
                    l < self.biases@.len(),
                    cols == self.biases_view()[l as int].len(),
                    n <= cols,
                    row@.len() == n,
                    forall|u: int|
                        0 <= u < n ==> self.biases_view()[l as int][u] - mutation <= #[trigger] row@[
                            u
                        ] <= self.biases_view()[l as int][u] + mutation,
                decreases cols - n,
            {
                let low: i64 = -mutation;
                let delta: i64 = random_in_range(low, mutation);
                let updated: i64 = fx_add(self.biases[l][n], delta);
                row.push(updated);
                n += 1;
            }
            let ghost pre = *self;
            self.biases.set(l, row);
            proof {
                assert(pre.biases@[l as int] == orig.biases@[l as int]);
                assert(pre.biases_view()[l as int] == orig.biases_view()[l as int]);
                assert(self.biases@[l as int] == row);
                assert(self.biases_view()[l as int] == row@);
                assert forall|k: int|
                    0 <= k < orig.biases@.len() && k != l implies #[trigger] self.biases_view()[k]
                    == pre.biases_view()[k] by {
                    assert(self.biases@[k] == pre.biases@[k]);
                }
            }
            l += 1;
        }
    }

    /// The structure vector of this network: the width of every layer.
    pub fn get_structure(&self) -> (s: Vec<usize>)
        ensures
            s@.len() == self.nodes@.len(),
            forall|l: int| 0 <= l < s@.len() ==> #[trigger] s@[l] == self.nodes_view()[l].len(),
    {
        let mut s: Vec<usize> = Vec::new();
        let mut l: usize = 0;
        while l < self.nodes.len()
            invariant
                l <= self.nodes@.len(),
                s@.len() == l,
                forall|j: int| 0 <= j < l ==> #[trigger] s@[j] == self.nodes_view()[j].len(),
            decreases self.nodes@.len() - l,
        {
            s.push(self.nodes[l].len());
            l += 1;
        }
        s
    }

    /// The structure vector implied by a weight cube alone: the row count
    /// of every boundary matrix, then the column count of the last one.
    pub fn get_structure_from_weights(&mut self, weights: Vec<Vec<Vec<i64>>>) -> (s: Vec<usize>)
        requires
            weights@.len() > 0,
            weights@[weights@.len() - 1]@.len() > 0,
        ensures
            *final(self) == *old(self),
            s@.len() == weights@.len() + 1,
            forall|l: int|
                0 <= l < weights@.len() ==> #[trigger] s@[l] == cube_view(weights)[l].len(),
            s@[weights@.len() as int] == cube_view(weights)[weights@.len() - 1][0].len(),
    {
        let mut s: Vec<usize> = Vec::new();
        let mut l: usize = 0;
        while l < weights.len()
            invariant
                weights@.len() > 0,
                l <= weights@.len(),
                s@.len() == l,
                forall|j: int|
                    0 <= j < l ==> #[trigger] s@[j] == cube_view(weights)[j].len(),
            decreases weights@.len() - l,
        {
            s.push(weights[l].len());
            l += 1;
        }
        let last: usize = weights.len() - 1;
        s.push(weights[last][0].len());
        s
    }
}

/// Evaluation has no hidden state: the rows a forward pass computes are
/// a function of the input row, the layer widths, the weights and the
/// biases alone.  Two networks that agree on those — whatever stale
/// activations their upper layers hold — compute equal rows at every
/// layer, so repeating a pass on unchanged inputs repeats the outputs.
pub proof fn lemma_evaluation_is_deterministic(a: NeuralNetwork, b: NeuralNetwork)
    requires
        a.nodes@.len() == b.nodes@.len(),
        a.nodes@.len() >= 1,
        a.nodes_view()[0] == b.nodes_view()[0],
        forall|l: int|
            1 <= l < a.nodes@.len() ==> (#[trigger] a.nodes_view()[l]).len()
                == b.nodes_view()[l].len(),
        a.weights_view() == b.weights_view(),
        a.biases_view() == b.biases_view(),
    ensures
        forall|l: nat|
            layer_rec(
                a.nodes_view()[0],
                rest_widths(a.nodes_view()),
                a.weights_view(),
                a.biases_view(),
                l,
            ) == layer_rec(
                b.nodes_view()[0],
                rest_widths(b.nodes_view()),
                b.weights_view(),
                b.biases_view(),
                l,
            ),
        net_outputs(
            a.nodes_view()[0],
            rest_widths(a.nodes_view()),
            a.weights_view(),
            a.biases_view(),
        ) == net_outputs(
            b.nodes_view()[0],
            rest_widths(b.nodes_view()),
            b.weights_view(),
            b.biases_view(),
        ),
{
    assert(rest_widths(a.nodes_view()) =~= rest_widths(b.nodes_view()));
}

/// A fresh row of `n` copies of `x`.
fn filled(n: usize, x: i64) -> (v: Vec<i64>)
    ensures
        v@ == Seq::new(n as nat, |i: int| x),
{
    let mut v: Vec<i64> = Vec::new();
    let mut k: usize = 0;
    while k < n
        invariant
            k <= n,
            v@.len() == k,
            forall|j: int| 0 <= j < k ==> #[trigger] v@[j] == x,
        decreases n - k,
    {
        v.push(x);
        k += 1;
    }
    proof {
        assert(v@ =~= Seq::new(n as nat, |i: int| x));
    }
    v
}

/// An owned copy of a row of values.
pub(crate) fn copy_values(v: &Vec<i64>) -> (r: Vec<i64>)
    ensures
        r@ == v@,
{
    let mut r: Vec<i64> = Vec::new();
    let mut k: usize = 0;
    while k < v.len()
        invariant
            k <= v@.len(),
            r@ == v@.subrange(0, k as int),
        decreases v@.len() - k,
    {
        r.push(v[k]);
        proof {
            assert(r@ =~= v@.subrange(0, k + 1));
        }
        k += 1;
    }
    proof {
        assert(v@.subrange(0, v@.len() as int) =~= v@);
    }
    r
}

/// An owned copy of a matrix of values.
pub(crate) fn copy_matrix(m: &Vec<Vec<i64>>) -> (r: Vec<Vec<i64>>)
    ensures
        r@.len() == m@.len(),
        forall|l: int| 0 <= l < m@.len() ==> #[trigger] r@[l]@ == m@[l]@,
        mat_view(r) == mat_view(*m),
{
    let mut r: Vec<Vec<i64>> = Vec::new();
    let mut k: usize = 0;
    while k < m.len()
        invariant
            k <= m@.len(),
            r@.len() == k,
            forall|l: int| 0 <= l < k ==> #[trigger] r@[l]@ == m@[l]@,
        decreases m@.len() - k,
    {
        r.push(copy_values(&m[k]));
        k += 1;
    }
    proof {
        assert(mat_view(r) =~= mat_view(*m));
    }
    r
}

/// An owned copy of a weight cube.
pub(crate) fn copy_cube(c: &Vec<Vec<Vec<i64>>>) -> (r: Vec<Vec<Vec<i64>>>)
    ensures
        r@.len() == c@.len(),
        cube_view(r) == cube_view(*c),
{
    let mut r: Vec<Vec<Vec<i64>>> = Vec::new();
    let mut k: usize = 0;
    while k < c.len()
        invariant
            k <= c@.len(),
            r@.len() == k,
            forall|l: int| 0 <= l < k ==> #[trigger] mat_view(r@[l]) == mat_view(c@[l]),
        decreases c@.len() - k,
    {
        r.push(copy_matrix(&c[k]));
        k += 1;
    }
    proof {
        assert(cube_view(r) =~= cube_view(*c));
    }
    r
}

} // verus!
