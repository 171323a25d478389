//! Ready-made demonstration runs of the trainer, and the self-consistency
//! scorer used by the second of them.

use vstd::prelude::*;

use crate::fixed::{fx_dist, fx_sub, SCALE};
use crate::network::{copy_values, mat_view, net_outputs, rest_widths, NeuralNetwork};
use crate::random::random_in_range;
use crate::trainer::{
    eval_score, example_score, examples_view, lemma_score_step_bounds, score_step, Scorer, Trainer,
    TrainingData, TrainingResult,
};

verus! {

/// The fixed-point representation of the 0.98 cooling factor the
/// demonstration runs use for their mutation amount.
pub const DECAY_FACTOR: i64 = 64225;

/// A row of two fixed-point values.
fn two_values(a: i64, b: i64) -> (v: Vec<i64>)
    ensures
        v@ == seq![a, b],
{
    let mut v: Vec<i64> = Vec::new();
    v.push(a);
    v.push(b);
    proof {
        assert(v@ =~= seq![a, b]);
    }
    v
}

/// The four labeled examples of the inversion run: every two-entry input
/// row expects its componentwise inversion, with 1.0 stored as `SCALE`.
pub open spec fn inversion_examples() -> Seq<(Seq<i64>, Seq<i64>)> {
    seq![
        (seq![0i64, 0i64], seq![SCALE, SCALE]),
        (seq![SCALE, SCALE], seq![0i64, 0i64]),
        (seq![0i64, SCALE], seq![SCALE, 0i64]),
        (seq![SCALE, 0i64], seq![0i64, SCALE]),
    ]
}

/// Train a 2-10-10-2 network to invert its two inputs, from the four
/// labeled inversion examples, over 200 generations of 100 candidates
/// each: the result keeps that structure, its curve is non-decreasing,
/// and the curve's last entry is the returned parameters' score on the
/// inversion examples (or the never-improved sentinel).
pub fn run_example_one(trainer: &mut Trainer) -> (r: TrainingResult)
    ensures
        r.network.wf(),
        r.network.nodes_view().len() == 4,
        r.network.nodes_view()[0].len() == 2,
        r.network.nodes_view()[1].len() == 10,
        r.network.nodes_view()[2].len() == 10,
        r.network.nodes_view()[3].len() == 2,
        r.generation_score_curve@.len() == 200,
        forall|i: int, j: int|
            #![trigger r.generation_score_curve@[i], r.generation_score_curve@[j]]
            0 <= i <= j < 200 ==> r.generation_score_curve@[i] <= r.generation_score_curve@[j],
        r.generation_score_curve@[199] as int <= eval_score(
            inversion_examples(),
            rest_widths(r.network.nodes_view()),
            r.network.weights_view(),
            r.network.biases_view(),
            4,
        ),
        r.generation_score_curve@[199] == i64::MIN || r.generation_score_curve@[199] as int
            == eval_score(
            inversion_examples(),
            rest_widths(r.network.nodes_view()),
            r.network.weights_view(),
            r.network.biases_view(),
            4,
        ),
{
    let mut structure: Vec<usize> = Vec::new();
    structure.push(2);
    structure.push(10);
    structure.push(10);
    structure.push(2);
    let network = match NeuralNetwork::new(structure) {
        Ok(n) => n,
        Err(_) => vstd::pervasive::unreached(),
    };
    let mut training_set: Vec<TrainingData> = Vec::new();
    training_set.push(TrainingData::new(two_values(0, 0), two_values(SCALE, SCALE)));
    training_set.push(TrainingData::new(two_values(SCALE, SCALE), two_values(0, 0)));
    training_set.push(TrainingData::new(two_values(0, SCALE), two_values(SCALE, 0)));
    training_set.push(TrainingData::new(two_values(SCALE, 0), two_values(0, SCALE)));
    proof {
        let exv = examples_view(training_set@);
        assert(exv[0] == training_set@[0]@);
        assert(exv[1] == training_set@[1]@);
        assert(exv[2] == training_set@[2]@);
        assert(exv[3] == training_set@[3]@);
        assert(exv =~= inversion_examples());
        assert(network.nodes_view()[0].len() == 2);
        assert(network.nodes_view()[1].len() == 10);
        assert(network.nodes_view()[2].len() == 10);
        assert(network.nodes_view()[3].len() == 2);
    }
    let r = trainer.train_genetic_algorithm_dataset(
        &network,
        &training_set,
        200,
        100,
        SCALE,
        DECAY_FACTOR,
    );
    proof {
        assert(rest_widths(r.network.nodes_view()) == rest_widths(network.nodes_view()));
    }
    r
}

/// Train a 2-2 network to replicate its inputs in its outputs, with no
/// training set at all: the self-consistency scorer probes the network
/// with random inputs instead.  The result keeps the two-by-two
/// structure and its curve is non-decreasing.
pub fn run_example_two(trainer: &mut Trainer) -> (r: TrainingResult)
    ensures
        r.network.wf(),
        r.network.nodes_view().len() == 2,
        r.network.nodes_view()[0].len() == 2,
        r.network.nodes_view()[1].len() == 2,
        r.generation_score_curve@.len() == 200,
        forall|i: int, j: int|
            #![trigger r.generation_score_curve@[i], r.generation_score_curve@[j]]
            0 <= i <= j < 200 ==> r.generation_score_curve@[i] <= r.generation_score_curve@[j],
{
    let mut structure: Vec<usize> = Vec::new();
    structure.push(2);
    structure.push(2);
    let network = match NeuralNetwork::new(structure) {
        Ok(n) => n,
        Err(_) => vstd::pervasive::unreached(),
    };
    proof {
        assert(network.nodes_view()[0].len() == 2);
        assert(network.nodes_view()[1].len() == 2);
    }
    let training_set: Vec<TrainingData> = Vec::new();
    let scorer = CopyInputScorer {};
    trainer.train_genetic_algorithm_custom(
        &network,
        &training_set,
        200,
        300,
        SCALE,
        DECAY_FACTOR,
        &scorer,
    )
}

/// An adversarial pairing of two networks — each scored and corrected
/// against the other's judgment — would need a gradient-descent update
/// path, which this trainer does not provide; the run therefore performs
/// no work and leaves the trainer as it was.
pub fn run_example_three(trainer: &mut Trainer)
    ensures
        *final(trainer) == *old(trainer),
{
}

/// The self-consistency score of parameters `(w, b)` on the first `k`
/// probe rows: each row is fed forward and charges the saturated
/// distance between every input and the output at the same index, so
/// the total is zero minus the accumulated input/output distance.
pub open spec fn copy_score(
    probes: Seq<Seq<i64>>,
    hidden: Seq<nat>,
    w: Seq<Seq<Seq<i64>>>,
    b: Seq<Seq<i64>>,
    k: nat,
) -> int
    decreases k,
{
    if k == 0 {
        0
    } else {
        example_score(
            copy_score(probes, hidden, w, b, (k - 1) as nat),
            probes[k - 1],
            net_outputs(probes[k - 1], hidden, w, b),
        )
    }
}

/// Score the network's self-consistency on the given probe rows: each
/// row is assigned as the inputs, a forward pass is run, and the
/// saturated distance between every input and the matching output is
/// subtracted.  The result is exactly `copy_score` of the network's
/// parameters on the rows; it is never positive, and the weights,
/// biases and layer widths are untouched.
pub fn score_copy_probes(probes: &Vec<Vec<i64>>, network: &mut NeuralNetwork) -> (score: i64)
    requires
        old(network).nodes@.len() >= 1,
    ensures
        final(network).weights == old(network).weights,
        final(network).biases == old(network).biases,
        final(network).nodes@.len() == old(network).nodes@.len(),
        forall|l: int|
            1 <= l < old(network).nodes@.len() ==> (#[trigger] final(network).nodes_view()[l]).len()
                == old(network).nodes_view()[l].len(),
        score as int == copy_score(
            mat_view(*probes),
            rest_widths(old(network).nodes_view()),
            old(network).weights_view(),
            old(network).biases_view(),
            probes@.len(),
        ),
        score <= 0,
{
    let ghost orig = *network;
    let ghost hidden = rest_widths(orig.nodes_view());
    let ghost pv = mat_view(*probes);
    let mut score: i64 = 0;
    let mut g: usize = 0;
    while g < probes.len()
        invariant
            orig.nodes@.len() >= 1,
            g <= probes@.len(),
            network.weights == orig.weights,
            network.biases == orig.biases,
            network.nodes@.len() == orig.nodes@.len(),
            forall|l: int|
                1 <= l < orig.nodes@.len() ==> (#[trigger] network.nodes_view()[l]).len()
                    == orig.nodes_view()[l].len(),
            hidden == rest_widths(orig.nodes_view()),
            pv == mat_view(*probes),
            score as int == copy_score(
                pv,
                hidden,
                orig.weights_view(),
                orig.biases_view(),
                g as nat,
            ),
            score <= 0,
        decreases probes@.len() - g,
    {
        let inp = copy_values(&probes[g]);
        let ghost inpv = inp@;
        let _mismatch = network.set_inputs(inp);
        proof {
            assert(rest_widths(network.nodes_view()) =~= hidden);
        }
        let ghost pre = *network;
        network.calculate_network();
        let out = network.get_outputs();
        proof {
            assert(pre.weights_view() == orig.weights_view());
            assert(pre.biases_view() == orig.biases_view());
            assert(hidden.len() == orig.nodes@.len() - 1);
            assert(out@ == net_outputs(inpv, hidden, orig.weights_view(), orig.biases_view()));
            assert(pv[g as int] == inpv);
        }
        let ghost s0: int = score as int;
        let mut d: usize = 0;
        while d < out.len()
            invariant
                g < probes@.len(),
                inpv == probes@[g as int]@,
                d <= out@.len(),
                i64::MIN <= s0 <= 0,
                score as int == score_step(s0, inpv, out@, d as nat),
            decreases out@.len() - d,
        {
            if d < probes[g].len() {
                score = fx_sub(score, fx_dist(probes[g][d], out[d]));
            }
            d += 1;
        }
        proof {
            assert(score as int == example_score(s0, inpv, out@));
            assert(score as int == copy_score(
                pv,
                hidden,
                orig.weights_view(),
                orig.biases_view(),
                (g + 1) as nat,
            ));
            lemma_score_step_bounds(s0, inpv, out@, out@.len());
        }
        g += 1;
    }
    score
}

/// Score a network by how closely its outputs replicate its inputs: 20
/// probe rows of fresh uniform random inputs in `[0, SCALE]` are drawn
/// and handed to `score_copy_probes`, whose contract fixes the result
/// as `copy_score` — the negated accumulated input/output distance —
/// on exactly those rows.  A network whose input and output layers
/// differ in width scores zero and is left completely unchanged; no
/// random value is drawn on that path.
pub fn evaluate_copy_input(training_set: &Vec<TrainingData>, network: &mut NeuralNetwork) -> (score:
    i64)
    requires
        old(network).nodes@.len() >= 1,
    ensures
        final(network).weights == old(network).weights,
        final(network).biases == old(network).biases,
        final(network).nodes@.len() == old(network).nodes@.len(),
        forall|l: int|
            1 <= l < old(network).nodes@.len() ==> (#[trigger] final(network).nodes_view()[l]).len()
                == old(network).nodes_view()[l].len(),
        score <= 0,
        old(network).nodes_view()[0].len() != old(network).nodes_view()[old(network).nodes@.len()
            - 1].len() ==> score == 0 && *final(network) == *old(network),
{
    let in_len: usize = network.nodes[0].len();
    let last: usize = network.nodes.len() - 1;
    if in_len != network.nodes[last].len() {
        return 0;
    }
    let mut probes: Vec<Vec<i64>> = Vec::new();
    let mut g: usize = 0;
    while g < 20
        invariant
            g <= 20,
            probes@.len() == g,
        decreases 20 - g,
    {
        let mut row: Vec<i64> = Vec::new();
        let mut i: usize = 0;
        while i < in_len
            invariant
                i <= in_len,
                row@.len() == i,
            decreases in_len - i,
        {
            row.push(random_in_range(0, SCALE));
            i += 1;
        }
        probes.push(row);
        g += 1;
    }
    score_copy_probes(&probes, network)
}

/// A nondeterministic scorer: self-consistency under random probing, as
/// computed by `evaluate_copy_input`.  It promises no particular value,
/// only that the network's parameters and layer widths survive a call;
/// the exact value of one probe set is the contract of
/// `score_copy_probes`.
pub struct CopyInputScorer {}

impl Scorer for CopyInputScorer {
    open spec fn deterministic(&self) -> bool {
        false
    }

    open spec fn score_spec(
        &self,
        examples: Seq<(Seq<i64>, Seq<i64>)>,
        hidden: Seq<nat>,
        w: Seq<Seq<Seq<i64>>>,
        b: Seq<Seq<i64>>,
    ) -> int {
        0
    }

    proof fn score_spec_bounds(
        &self,
        examples: Seq<(Seq<i64>, Seq<i64>)>,
        hidden: Seq<nat>,
        w: Seq<Seq<Seq<i64>>>,
        b: Seq<Seq<i64>>,
    ) {
    }

    fn score(&self, examples: &Vec<TrainingData>, network: &mut NeuralNetwork) -> (s: i64) {
        evaluate_copy_input(examples, network)
    }
}

} // verus!
