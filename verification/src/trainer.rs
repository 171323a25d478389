//! The optimization loop: single-parent hill climbing over network
//! parameters with geometrically cooling mutation, plus the default
//! example-driven scorer.

use vstd::prelude::*;

use crate::fixed::{fixed_mul, fx_dist, fx_mul, fx_sub, sat_dist, sat_sub, SCALE};
use crate::network::{
    copy_cube, copy_matrix, copy_values, cube_view, layer_rec, mat_view, net_outputs, rest_widths,
    NeuralNetwork,
};

verus! {

/// The orchestrator of training runs.  It holds no state of its own: a
/// run is a pure function of its arguments and of the random stream.
pub struct Trainer {}

/// One labeled example: an input row and the output row expected for it.
pub struct TrainingData {
    pub(crate) input: Vec<i64>,
    pub(crate) output: Vec<i64>,
}

impl View for TrainingData {
    type V = (Seq<i64>, Seq<i64>);

    closed spec fn view(&self) -> (Seq<i64>, Seq<i64>) {
        (self.input@, self.output@)
    }
}

impl TrainingData {
    /// Bundle an input row with the output row expected for it.
    pub fn new(inputs: Vec<i64>, output: Vec<i64>) -> (d: TrainingData)
        ensures
            d@ == (inputs@, output@),
    {
        TrainingData { input: inputs, output }
    }
}

/// The outcome of a training run: the best network found and the best
/// score observed up through each completed generation, in order.
pub struct TrainingResult {
    pub network: NeuralNetwork,
    pub generation_score_curve: Vec<i64>,
}

/// The (input, expected output) pairs of a slice of examples.
pub open spec fn examples_view(ts: Seq<TrainingData>) -> Seq<(Seq<i64>, Seq<i64>)> {
    ts.map_values(|d: TrainingData| d@)
}

/// The score after charging the first `k` output nodes of one example:
/// each node subtracts the saturated distance between the expected and
/// the actual value, left to right; an expected value that is missing
/// charges nothing.
pub open spec fn score_step(score: int, expected: Seq<i64>, actual: Seq<i64>, k: nat) -> int
    decreases k,
{
    if k == 0 {
        score
    } else {
        let s = score_step(score, expected, actual, (k - 1) as nat);
        if k - 1 < expected.len() {
            sat_sub(s, sat_dist(expected[k - 1] as int, actual[k - 1] as int))
        } else {
            s
        }
    }
}

/// The score after charging one whole example.
pub open spec fn example_score(score: int, expected: Seq<i64>, actual: Seq<i64>) -> int {
    score_step(score, expected, actual, actual.len())
}

/// The default fitness of parameters `(w, b)` on the first `k` examples:
/// zero minus the accumulated output distances of every example, each
/// evaluated by a full forward pass from the example's input.
pub open spec fn eval_score(
    examples: Seq<(Seq<i64>, Seq<i64>)>,
    hidden: Seq<nat>,
    w: Seq<Seq<Seq<i64>>>,
    b: Seq<Seq<i64>>,
    k: nat,
) -> int
    decreases k,
{
    if k == 0 {
        0
    } else {
        example_score(
            eval_score(examples, hidden, w, b, (k - 1) as nat),
            examples[k - 1].1,
            net_outputs(examples[k - 1].0, hidden, w, b),
        )
    }
}

/// Charging outputs can only keep or lower a score, and never moves it
/// below the representable range.
pub proof fn lemma_score_step_bounds(score: int, expected: Seq<i64>, actual: Seq<i64>, k: nat)
    requires
        i64::MIN <= score <= i64::MAX,
    ensures
        i64::MIN <= score_step(score, expected, actual, k) <= score,
    decreases k,
{
    if k > 0 {
        lemma_score_step_bounds(score, expected, actual, (k - 1) as nat);
    }
}

/// The default score is never positive and always representable: a
/// perfect run scores zero and every mismatch only subtracts.
pub proof fn lemma_eval_score_nonpositive(
    examples: Seq<(Seq<i64>, Seq<i64>)>,
    hidden: Seq<nat>,
    w: Seq<Seq<Seq<i64>>>,
    b: Seq<Seq<i64>>,
    k: nat,
)
    ensures
        i64::MIN <= eval_score(examples, hidden, w, b, k) <= 0,
    decreases k,
{
    if k > 0 {
        lemma_eval_score_nonpositive(examples, hidden, w, b, (k - 1) as nat);
        lemma_score_step_bounds(
            eval_score(examples, hidden, w, b, (k - 1) as nat),
            examples[k - 1].1,
            net_outputs(examples[k - 1].0, hidden, w, b),
            net_outputs(examples[k - 1].0, hidden, w, b).len(),
        );
    }
}

/// Charging an example whose actual outputs equal its expected outputs
/// leaves the score unchanged.
pub proof fn lemma_score_step_perfect(score: int, values: Seq<i64>, k: nat)
    requires
        i64::MIN <= score <= i64::MAX,
        k <= values.len(),
    ensures
        score_step(score, values, values, k) == score,
    decreases k,
{
    if k > 0 {
        lemma_score_step_perfect(score, values, (k - 1) as nat);
    }
}

/// Exactness of the default score: when the forward pass reproduces
/// every example's expected outputs exactly, the score is zero.
pub proof fn lemma_perfect_score_is_zero(
    examples: Seq<(Seq<i64>, Seq<i64>)>,
    hidden: Seq<nat>,
    w: Seq<Seq<Seq<i64>>>,
    b: Seq<Seq<i64>>,
    k: nat,
)
    requires
        forall|i: int|
            0 <= i < k ==> #[trigger] examples[i].1 == net_outputs(examples[i].0, hidden, w, b),
    ensures
        eval_score(examples, hidden, w, b, k) == 0,
    decreases k,
{
    if k > 0 {
        lemma_perfect_score_is_zero(examples, hidden, w, b, (k - 1) as nat);
        assert(examples[k - 1].1 == net_outputs(examples[k - 1].0, hidden, w, b));
        lemma_score_step_perfect(
            0,
            net_outputs(examples[k - 1].0, hidden, w, b),
            net_outputs(examples[k - 1].0, hidden, w, b).len(),
        );
    }
}

/// The capability of scoring a network: higher is better.  A scorer that
/// declares itself deterministic promises that its result is the pure
/// function `score_spec` of the examples and of the network's hidden
/// widths, weights and biases; a nondeterministic scorer (one that
/// consults randomness) promises only that it leaves the parameters and
/// the layer widths of the network alone.
pub trait Scorer {
    /// Whether the returned score is a pure function of the examples and
    /// of the network's shape and parameters.
    spec fn deterministic(&self) -> bool;

    /// The value a deterministic scorer returns.
    spec fn score_spec(
        &self,
        examples: Seq<(Seq<i64>, Seq<i64>)>,
        hidden: Seq<nat>,
        w: Seq<Seq<Seq<i64>>>,
        b: Seq<Seq<i64>>,
    ) -> int;

    /// A deterministic scorer's promised value always fits in a score.
    proof fn score_spec_bounds(
        &self,
        examples: Seq<(Seq<i64>, Seq<i64>)>,
        hidden: Seq<nat>,
        w: Seq<Seq<Seq<i64>>>,
        b: Seq<Seq<i64>>,
    )
        ensures
            self.deterministic() ==> i64::MIN <= self.score_spec(examples, hidden, w, b)
                <= i64::MAX,
    ;

    /// Produce a fitness for the network, possibly overwriting its
    /// activations, but never its weights, biases or layer widths.
    fn score(&self, examples: &Vec<TrainingData>, network: &mut NeuralNetwork) -> (s: i64)
        requires
            old(network).nodes@.len() >= 1,
        ensures
            final(network).weights == old(network).weights,
            final(network).biases == old(network).biases,
            final(network).nodes@.len() == old(network).nodes@.len(),
            forall|l: int|
                1 <= l < old(network).nodes@.len() ==> (#[trigger] final(network).nodes_view()[l]).len() == old(network).nodes_view()[l].len(),
            self.deterministic() ==> s as int == self.score_spec(
                examples_view(examples@),
                rest_widths(old(network).nodes_view()),
                old(network).weights_view(),
                old(network).biases_view(),
            ),
    ;
}

/// The default scorer: the negated accumulated output distance over the
/// example set, computed by `Trainer::evaluate_with_training_data`.
pub struct DatasetScorer {}

impl Scorer for DatasetScorer {
    open spec fn deterministic(&self) -> bool {
        true
    }

    open spec fn score_spec(
        &self,
        examples: Seq<(Seq<i64>, Seq<i64>)>,
        hidden: Seq<nat>,
        w: Seq<Seq<Seq<i64>>>,
        b: Seq<Seq<i64>>,
    ) -> int {
        eval_score(examples, hidden, w, b, examples.len())
    }

    proof fn score_spec_bounds(
        &self,
        examples: Seq<(Seq<i64>, Seq<i64>)>,
        hidden: Seq<nat>,
        w: Seq<Seq<Seq<i64>>>,
        b: Seq<Seq<i64>>,
    ) {
        lemma_eval_score_nonpositive(examples, hidden, w, b, examples.len());
    }

    fn score(&self, examples: &Vec<TrainingData>, network: &mut NeuralNetwork) -> (s: i64) {
        Trainer::evaluate_with_training_data(examples, network)
    }
}

impl Trainer {
    /// Create a trainer.
    pub fn new() -> (t: Trainer) {
        Trainer {}
    }

    /// Evaluate a network against every example of the training set and
    /// return the accumulated score: for each example the inputs are
    /// assigned, a forward pass is run, and the saturated distance of
    /// every output from its expected value is subtracted.  The result
    /// is exactly `eval_score` of the network's parameters; weights,
    /// biases and the widths of the computed layers are untouched.
    pub fn evaluate_with_training_data(
        training_set: &Vec<TrainingData>,
        network: &mut NeuralNetwork,
    ) -> (score: i64)
        requires
            old(network).nodes@.len() >= 1,
        ensures
            final(network).weights == old(network).weights,
            final(network).biases == old(network).biases,
            final(network).nodes@.len() == old(network).nodes@.len(),
            forall|l: int|
                1 <= l < old(network).nodes@.len() ==> (#[trigger] final(network).nodes_view()[l]).len() == old(network).nodes_view()[l].len(),
            score as int == eval_score(
                examples_view(training_set@),
                rest_widths(old(network).nodes_view()),
                old(network).weights_view(),
                old(network).biases_view(),
                training_set@.len(),
            ),
            training_set@.len() == 0 ==> *final(network) == *old(network),
            training_set@.len() > 0 ==> final(network).nodes_view()[0] == examples_view(
                training_set@,
            )[training_set@.len() - 1].0,
            training_set@.len() > 0 ==> forall|l: int|
                1 <= l < old(network).nodes@.len() ==> #[trigger] final(network).nodes_view()[l]
                    == layer_rec(
                    examples_view(training_set@)[training_set@.len() - 1].0,
                    rest_widths(old(network).nodes_view()),
                    old(network).weights_view(),
                    old(network).biases_view(),
                    l as nat,
                ),
    {
        let ghost orig = *network;
        let ghost hidden = rest_widths(orig.nodes_view());
        let ghost exv = examples_view(training_set@);
        let mut score: i64 = 0;
        let mut idx: usize = 0;
        while idx < training_set.len()
            invariant
                orig.nodes@.len() >= 1,
                idx <= training_set@.len(),
                network.weights == orig.weights,
                network.biases == orig.biases,
                network.nodes@.len() == orig.nodes@.len(),
                forall|l: int|
                    1 <= l < orig.nodes@.len() ==> (#[trigger] network.nodes_view()[l]).len()
                        == orig.nodes_view()[l].len(),
                hidden == rest_widths(orig.nodes_view()),
                exv == examples_view(training_set@),
                score as int == eval_score(
                    exv,
                    hidden,
                    orig.weights_view(),
                    orig.biases_view(),
                    idx as nat,
                ),
                idx == 0 ==> *network == orig,
                idx > 0 ==> network.nodes_view()[0] == exv[idx - 1].0,
                idx > 0 ==> forall|l: int|
                    1 <= l < orig.nodes@.len() ==> #[trigger] network.nodes_view()[l] == layer_rec(
                        exv[idx - 1].0,
                        hidden,
                        orig.weights_view(),
                        orig.biases_view(),
                        l as nat,
                    ),
            decreases training_set@.len() - idx,
        {
            let ts = &training_set[idx];
            let inp = copy_values(&ts.input);
            let ghost inpv = inp@;
            let _mismatch = network.set_inputs(inp);
            proof {
                assert(rest_widths(network.nodes_view()) =~= hidden);
            }
            let ghost pre = *network;
            network.calculate_network();
            let out = network.get_outputs();
            proof {
                assert(pre.weights_view() == orig.weights_view());
                assert(pre.biases_view() == orig.biases_view());
                assert(hidden.len() == orig.nodes@.len() - 1);
                if orig.nodes@.len() == 1 {
                    assert(out@ == inpv);
                    assert(out@ == net_outputs(
                        inpv,
                        hidden,
                        orig.weights_view(),
                        orig.biases_view(),
                    ));
                } else {
                    assert(out@ == net_outputs(
                        inpv,
                        hidden,
                        orig.weights_view(),
                        orig.biases_view(),
                    ));
                }
                assert(exv[idx as int] == training_set@[idx as int]@);
                assert(exv[idx as int].0 == inpv);
                assert(exv[idx as int].1 == ts.output@);
                assert(network.nodes_view()[0] == inpv);
                assert forall|l: int| 1 <= l < orig.nodes@.len() implies #[trigger] network
                    .nodes_view()[l] == layer_rec(
                    inpv,
                    hidden,
                    orig.weights_view(),
                    orig.biases_view(),
                    l as nat,
                ) by {}
            }
            let ghost s0: int = score as int;
            let mut n: usize = 0;
            while n < out.len()
                invariant
                    n <= out@.len(),
                    score as int == score_step(s0, ts.output@, out@, n as nat),
                decreases out@.len() - n,
            {
                if n < ts.output.len() {
                    score = fx_sub(score, fx_dist(ts.output[n], out[n]));
                }
                n += 1;
            }
            proof {
                assert(score as int == example_score(s0, ts.output@, out@));
                assert(score as int == eval_score(
                    exv,
                    hidden,
                    orig.weights_view(),
                    orig.biases_view(),
                    (idx + 1) as nat,
                ));
            }
            idx += 1;
        }
        score
    }

    /// Train with the default example-driven scorer; equivalent to the
    /// custom entry point below applied to `DatasetScorer`, so the
    /// recorded curve is non-decreasing and the returned network's
    /// parameters score at least as well as the curve's last entry.
    pub fn train_genetic_algorithm_dataset(
        &mut self,
        network: &NeuralNetwork,
        training_set: &Vec<TrainingData>,
        generations: usize,
        population: usize,
        mutation_start: i64,
        mutation_change_mult: i64,
    ) -> (r: TrainingResult)
        requires
            network.wf(),
            mutation_start >= 0,
            mutation_change_mult >= 0,
        ensures
            r.network.wf(),
            r.network.nodes_view() == network.nodes_view(),
            r.generation_score_curve@.len() == generations,
            forall|i: int, j: int|
                #![trigger r.generation_score_curve@[i], r.generation_score_curve@[j]]
                0 <= i <= j < generations ==> r.generation_score_curve@[i]
                    <= r.generation_score_curve@[j],
            generations > 0 ==> r.generation_score_curve@[generations - 1] as int <= eval_score(
                examples_view(training_set@),
                rest_widths(network.nodes_view()),
                r.network.weights_view(),
                r.network.biases_view(),
                training_set@.len(),
            ),
            generations > 0 ==> (r.generation_score_curve@[generations - 1] == i64::MIN
                || r.generation_score_curve@[generations - 1] as int == eval_score(
                examples_view(training_set@),
                rest_widths(network.nodes_view()),
                r.network.weights_view(),
                r.network.biases_view(),
                training_set@.len(),
            )),
    {
        let scorer = DatasetScorer {};
        self.train_genetic_algorithm_custom(
            network,
            training_set,
            generations,
            population,
            mutation_start,
            mutation_change_mult,
            &scorer,
        )
    }

    /// One full training run, the `(1, population)` hill climb:
    ///
    /// - the parent starts as a deep copy of the caller's network;
    /// - each of `generations` generations scores `population` fresh
    ///   mutations of the parent (weights and biases each perturbed by
    ///   at most the current mutation amount) and adopts a candidate's
    ///   parameters only on a strictly better score;
    /// - after each generation the mutation amount is multiplied by
    ///   `mutation_change_mult` and the best score seen so far is
    ///   appended to the curve;
    /// - the result carries the parent — the tracked best — and the
    ///   curve, which is non-decreasing by construction.
    ///
    /// With a deterministic scorer the returned parameters score at
    /// least as well as the curve's last entry.
    pub fn train_genetic_algorithm_custom<S: Scorer>(
        &mut self,
        network: &NeuralNetwork,
        training_set: &Vec<TrainingData>,
        generations: usize,
        population: usize,
        mutation_start: i64,
        mutation_change_mult: i64,
        scorer: &S,
    ) -> (r: TrainingResult)
        requires
            network.wf(),
            mutation_start >= 0,
            mutation_change_mult >= 0,
        ensures
            r.network.wf(),
            r.network.nodes_view() == network.nodes_view(),
            r.generation_score_curve@.len() == generations,
            forall|i: int, j: int|
                #![trigger r.generation_score_curve@[i], r.generation_score_curve@[j]]
                0 <= i <= j < generations ==> r.generation_score_curve@[i]
                    <= r.generation_score_curve@[j],
            scorer.deterministic() && generations > 0 ==> r.generation_score_curve@[generations
                - 1] as int <= scorer.score_spec(
                examples_view(training_set@),
                rest_widths(network.nodes_view()),
                r.network.weights_view(),
                r.network.biases_view(),
            ),
            scorer.deterministic() && generations > 0 ==> (r.generation_score_curve@[generations
                - 1] == i64::MIN || r.generation_score_curve@[generations - 1] as int
                == scorer.score_spec(
                examples_view(training_set@),
                rest_widths(network.nodes_view()),
                r.network.weights_view(),
                r.network.biases_view(),
            )),
    {
        let ghost hidden = rest_widths(network.nodes_view());
        let ghost exv = examples_view(training_set@);
        let mut parent = NeuralNetwork {
            nodes: copy_matrix(&network.nodes),
            weights: copy_cube(&network.weights),
            biases: copy_matrix(&network.biases),
        };
        proof {
            assert(parent.nodes_view() =~= network.nodes_view());
            assert(parent.wf());
        }
        let mut best_score: i64 = i64::MIN;
        let mut mutation_amount: i64 = mutation_start;
        let mut curve: Vec<i64> = Vec::new();
        let mut g: usize = 0;
        while g < generations
            invariant
                network.wf(),
                mutation_change_mult >= 0,
                parent.wf(),
                parent.nodes_view() == network.nodes_view(),
                hidden == rest_widths(network.nodes_view()),
                exv == examples_view(training_set@),
                g <= generations,
                curve@.len() == g,
                mutation_amount >= 0,
                forall|i: int, j: int|
                    #![trigger curve@[i], curve@[j]]
                    0 <= i <= j < g ==> curve@[i] <= curve@[j],
                forall|i: int| 0 <= i < g ==> #[trigger] curve@[i] <= best_score,
                g > 0 ==> curve@[g - 1] == best_score,
                scorer.deterministic() ==> (best_score == i64::MIN || best_score as int
                    == scorer.score_spec(exv, hidden, parent.weights_view(), parent.biases_view())),
            decreases generations - g,
        {
            let mut p: usize = 0;
            while p < population
                invariant
                    network.wf(),
                    parent.wf(),
                    parent.nodes_view() == network.nodes_view(),
                    hidden == rest_widths(network.nodes_view()),
                    exv == examples_view(training_set@),
                    p <= population,
                    mutation_amount >= 0,
                    curve@.len() == g,
                    forall|i: int, j: int|
                        #![trigger curve@[i], curve@[j]]
                        0 <= i <= j < g ==> curve@[i] <= curve@[j],
                    forall|i: int| 0 <= i < g ==> #[trigger] curve@[i] <= best_score,
                    scorer.deterministic() ==> (best_score == i64::MIN || best_score as int
                        == scorer.score_spec(
                        exv,
                        hidden,
                        parent.weights_view(),
                        parent.biases_view(),
                    )),
                decreases population - p,
            {
                let mut candidate = NeuralNetwork {
                    nodes: copy_matrix(&parent.nodes),
                    weights: copy_cube(&parent.weights),
                    biases: copy_matrix(&parent.biases),
                };
                proof {
                    assert(candidate.nodes_view() =~= parent.nodes_view());
                    assert(candidate.wf());
                }
                candidate.mutate_weights(mutation_amount);
                candidate.mutate_biases(mutation_amount);
                proof {
                    assert(rest_widths(candidate.nodes_view()) == hidden);
                }
                let s = scorer.score(training_set, &mut candidate);
                if s > best_score {
                    let new_weights = copy_cube(&candidate.weights);
                    let new_biases = copy_matrix(&candidate.biases);
                    proof {
                        assert(cube_view(new_weights) == candidate.weights_view());
                        assert(mat_view(new_biases) == candidate.biases_view());
                    }
                    parent.weights = new_weights;
                    parent.biases = new_biases;
                    best_score = s;
                    proof {
                        assert(parent.weights_view() == candidate.weights_view());
                        assert(parent.biases_view() == candidate.biases_view());
                        assert(parent.wf());
                    }
                }
                p += 1;
            }
            mutation_amount = Trainer::decay(mutation_amount, mutation_change_mult);
            curve.push(best_score);
            g += 1;
        }
        proof {
            if scorer.deterministic() && generations > 0 {
                scorer.score_spec_bounds(exv, hidden, parent.weights_view(), parent.biases_view());
            }
        }
        TrainingResult { network: parent, generation_score_curve: curve }
    }

    /// One geometric cooling step of the mutation amount: the fixed-point
    /// product with the decay factor, which stays non-negative.
    fn decay(amount: i64, factor: i64) -> (r: i64)
        requires
            amount >= 0,
            factor >= 0,
        ensures
            r as int == fixed_mul(amount as int, factor as int),
            r >= 0,
    {
        let r = fx_mul(amount, factor);
        proof {
            assert((amount as int) * (factor as int) >= 0) by (nonlinear_arith)
                requires
                    amount as int >= 0,
                    factor as int >= 0,
            ;
            vstd::arithmetic::div_mod::lemma_div_pos_is_pos(
                (amount as int) * (factor as int),
                SCALE as int,
            );
        }
        r
    }
}

} // verus!
