use vstd::prelude::*;
use vstd::slice::slice_to_vec;
use crate::batch::{Batch, Inference};
use crate::data::{assert_dimension_validity, dimensions_valid};
use crate::owned_dataset::OwnedDataset;

verus! {

/// Observations together with what a net predicted for them and how far
/// each prediction is off.
#[derive(Debug)]
pub struct OwnedEvaluation<V> {
    input: Vec<V>,
    output: Vec<V>,
    prediction: Option<Vec<V>>,
    error: Option<Vec<V>>,
    input_dim: usize,
    output_dim: usize,
}

impl<V> OwnedEvaluation<V> {
    pub closed spec fn spec_input(&self) -> Seq<V> {
        self.input@
    }

    pub closed spec fn spec_output(&self) -> Seq<V> {
        self.output@
    }

    pub closed spec fn spec_prediction(&self) -> Option<Seq<V>> {
        match self.prediction {
            Some(p) => Some(p@),
            None => None,
        }
    }

    pub closed spec fn spec_error(&self) -> Option<Seq<V>> {
        match self.error {
            Some(e) => Some(e@),
            None => None,
        }
    }

    pub closed spec fn spec_input_dim(&self) -> usize {
        self.input_dim
    }

    pub closed spec fn spec_output_dim(&self) -> usize {
        self.output_dim
    }
}

impl<V: Copy> OwnedEvaluation<V> {
    /// Observations to be evaluated, with nothing predicted yet.
    pub fn new(input: Vec<V>, output: Vec<V>, input_dim: usize, output_dim: usize) -> (evaluation: Self)
        requires
            dimensions_valid(output@.len() as int, input@.len() as int, output_dim as int, input_dim as int),
        ensures
            evaluation.spec_input() == input@,
            evaluation.spec_output() == output@,
            evaluation.spec_prediction() is None,
            evaluation.spec_error() is None,
            evaluation.spec_input_dim() == input_dim,
            evaluation.spec_output_dim() == output_dim,
    {
        OwnedEvaluation { input, output, prediction: None, input_dim, output_dim, error: None }
    }

    pub fn input(&self) -> (input: &[V])
        ensures
            input@ == self.spec_input(),
    {
        self.input.as_slice()
    }

    pub fn output(&self) -> (output: &[V])
        ensures
            output@ == self.spec_output(),
    {
        self.output.as_slice()
    }

    pub fn prediction(&self) -> (prediction: Option<&[V]>)
        ensures
            match prediction {
                Some(p) => self.spec_prediction() == Some(p@),
                None => self.spec_prediction() is None,
            },
    {
        match &self.prediction {
            Some(p) => Some(p.as_slice()),
            None => None,
        }
    }

    pub fn error(&self) -> (error: Option<&[V]>)
        ensures
            match error {
                Some(e) => self.spec_error() == Some(e@),
                None => self.spec_error() is None,
            },
    {
        match &self.error {
            Some(e) => Some(e.as_slice()),
            None => None,
        }
    }

    pub fn input_dim(&self) -> (dim: usize)
        ensures
            dim == self.spec_input_dim(),
    {
        self.input_dim
    }

    pub fn output_dim(&self) -> (dim: usize)
        ensures
            dim == self.spec_output_dim(),
    {
        self.output_dim
    }

    /// A batch with one sample per input value: the inputs followed by
    /// `zero`s for the outputs. The inputs are copied in one block, which
    /// fits only when each observation has a single input.
    pub fn create_inference_batch(&self, zero: V) -> (batch: Batch<V, Inference>)
        requires
            self.spec_input_dim() == 1 || self.spec_input().len() == 0,
            self.spec_output_dim() + self.spec_input_dim() <= usize::MAX,
            self.spec_input().len() * (self.spec_output_dim() + self.spec_input_dim()) <= usize::MAX,
        ensures
            batch.spec_number_of_samples() == self.spec_input().len(),
            batch.spec_input_nodes() == self.spec_input_dim(),
            batch.spec_output_nodes() == self.spec_output_dim(),
            batch.spec_split() == self.spec_input().len() * self.spec_input_dim(),
            batch.spec_data() == Seq::new(
                (self.spec_input().len() * (self.spec_output_dim() + self.spec_input_dim())) as nat,
                |i: int| if i < self.spec_input().len() * self.spec_input_dim() { self.spec_input()[i] } else { zero },
            ),
    {
        let len = self.input.len();
        proof {
            let l = len as int;
            let a = self.output_dim as int;
            let b = self.input_dim as int;
            assert(l * b <= l * (a + b)) by (nonlinear_arith) requires l >= 0, a >= 0, b >= 0;
            assert(l * b == l) by (nonlinear_arith) requires b == 1 || l == 0;
        }
        let total = len * (self.output_dim + self.input_dim);
        let copied = len * self.input_dim;
        let mut data: Vec<V> = Vec::new();
        let mut k: usize = 0;
        while k < total
            invariant
                k <= total,
                copied == len,
                len == self.input@.len(),
                copied <= total,
                data@.len() == k,
                forall|i: int| 0 <= i < k ==> #[trigger] data@[i] == if i < copied { self.input@[i] } else { zero },
            decreases total - k,
        {
            if k < copied {
                data.push(self.input[k]);
            } else {
                data.push(zero);
            }
            k = k + 1;
        }
        assert(data@ =~= Seq::new(total as nat, |i: int| if i < copied { self.input@[i] } else { zero }));
        Batch::new(len, self.input_dim, self.output_dim, data.as_slice())
    }

    /// Records the outputs of an inference batch as the prediction, and as
    /// the error, value by value, `difference(observed, predicted)` over the
    /// values both have.
    pub fn set_prediction<F: Fn(V, V) -> V>(&mut self, batch: Batch<V, Inference>, difference: F)
        requires
            batch.spec_split() <= batch.spec_data().len(),
            forall|observed: V, predicted: V| #[trigger] difference.requires((observed, predicted)),
        ensures
            final(self).spec_input() == old(self).spec_input(),
            final(self).spec_output() == old(self).spec_output(),
            final(self).spec_input_dim() == old(self).spec_input_dim(),
            final(self).spec_output_dim() == old(self).spec_output_dim(),
            final(self).spec_prediction() == Some(batch.spec_data().subrange(batch.spec_split() as int, batch.spec_data().len() as int)),
            final(self).spec_error() is Some,
            ({
                let predicted = batch.spec_data().subrange(batch.spec_split() as int, batch.spec_data().len() as int);
                let error = final(self).spec_error()->0;
                &&& error.len() == if old(self).spec_output().len() < predicted.len() { old(self).spec_output().len() } else { predicted.len() }
                &&& forall|i: int| 0 <= i < error.len()
                    ==> difference.ensures((old(self).spec_output()[i], predicted[i]), #[trigger] error[i])
            }),
    {
        let predicted = batch.output();
        let n = if self.output.len() < predicted.len() { self.output.len() } else { predicted.len() };
        let mut error: Vec<V> = Vec::new();
        let mut k: usize = 0;
        while k < n
            invariant
                k <= n,
                n <= self.output@.len(),
                n <= predicted@.len(),
                error@.len() == k,
                forall|observed: V, p: V| #[trigger] difference.requires((observed, p)),
                forall|i: int| 0 <= i < k ==> difference.ensures((self.output@[i], predicted@[i]), #[trigger] error@[i]),
            decreases n - k,
        {
            let value = difference(self.output[k], predicted[k]);
            error.push(value);
            k = k + 1;
        }
        self.prediction = Some(predicted);
        self.error = Some(error);
    }
}

impl<'a, V: Copy> From<&'a OwnedDataset<V>> for OwnedEvaluation<V> {
    /// The observations of a dataset, ready to be evaluated.
    fn from(value: &'a OwnedDataset<V>) -> (evaluation: Self)
        ensures
            evaluation.spec_input() == value.spec_input(),
            evaluation.spec_output() == value.spec_output(),
            evaluation.spec_prediction() is None,
            evaluation.spec_error() is None,
            evaluation.spec_input_dim() == value.spec_input_dim(),
            evaluation.spec_output_dim() == value.spec_output_dim(),
    {
        OwnedEvaluation {
            input: slice_to_vec(value.input()),
            output: slice_to_vec(value.output()),
            prediction: None,
            input_dim: value.input_dim(),
            output_dim: value.output_dim(),
            error: None,
        }
    }
}

impl<'a, V: Copy> vstd::std_specs::convert::FromSpecImpl<&'a OwnedDataset<V>> for OwnedEvaluation<V> {
    open spec fn obeys_from_spec() -> bool {
        false
    }

    open spec fn from_spec(v: &'a OwnedDataset<V>) -> Self {
        arbitrary()
    }
}

} // verus!
