use vstd::prelude::*;
use vstd::slice::slice_to_vec;
use std::marker::PhantomData;

verus! {

/// Marks a batch whose output block holds the targets to learn.
#[derive(Debug, Clone, Copy)]
pub struct Training;

/// Marks a batch whose output block is to be filled by the net.
#[derive(Debug, Clone, Copy)]
pub struct Inference;

/// `number_of_samples` samples stored in one flat buffer: first the inputs
/// of all samples, then the outputs of all samples.
#[derive(Debug)]
pub struct Batch<V, State = Training> {
    number_of_samples: usize,
    input_nodes: usize,
    output_nodes: usize,
    split_index: usize,
    data: Vec<V>,
    _state: PhantomData<State>,
}

/// Appends all of `source` to `target`.
pub(crate) fn extend_from<V: Copy>(target: &mut Vec<V>, source: &[V])
    ensures
        final(target)@ == old(target)@ + source@,
{
    let n = source.len();
    let mut k: usize = 0;
    let ghost start = target@;
    while k < n
        invariant
            n == source@.len(),
            k <= n,
            target@ =~= start + source@.take(k as int),
        decreases n - k,
    {
        target.push(source[k]);
        k = k + 1;
    }
    assert(source@.take(n as int) =~= source@);
}

impl<V, State> Batch<V, State> {
    pub closed spec fn spec_number_of_samples(&self) -> usize {
        self.number_of_samples
    }

    pub closed spec fn spec_input_nodes(&self) -> usize {
        self.input_nodes
    }

    pub closed spec fn spec_output_nodes(&self) -> usize {
        self.output_nodes
    }

    /// Where the output block starts: after the inputs of all samples.
    pub closed spec fn spec_split(&self) -> usize {
        self.split_index
    }

    /// The whole buffer, inputs then outputs.
    pub closed spec fn spec_data(&self) -> Seq<V> {
        self.data@
    }

}

impl<V: Copy, State> Batch<V, State> {
    /// A batch of `number_of_samples` samples over a copy of `data`.
    pub fn new(number_of_samples: usize, input_nodes: usize, output_nodes: usize, data: &[V]) -> (batch: Self)
        requires
            number_of_samples * input_nodes <= usize::MAX,
        ensures
            batch.spec_number_of_samples() == number_of_samples,
            batch.spec_input_nodes() == input_nodes,
            batch.spec_output_nodes() == output_nodes,
            batch.spec_split() == number_of_samples * input_nodes,
            batch.spec_data() == data@,
    {
        let split_index = number_of_samples * input_nodes;
        Batch {
            number_of_samples,
            input_nodes,
            output_nodes,
            split_index,
            data: slice_to_vec(data),
            _state: PhantomData,
        }
    }

    pub fn number_of_samples(&self) -> (count: usize)
        ensures
            count == self.spec_number_of_samples(),
    {
        self.number_of_samples
    }

    /// Number of inputs of each sample.
    pub fn input_nodes(&self) -> (nodes: usize)
        ensures
            nodes == self.spec_input_nodes(),
    {
        self.input_nodes
    }

    /// Number of outputs of each sample.
    pub fn output_nodes(&self) -> (nodes: usize)
        ensures
            nodes == self.spec_output_nodes(),
    {
        self.output_nodes
    }

    /// Length of the whole buffer.
    pub fn len(&self) -> (len: usize)
        ensures
            len == self.spec_data().len(),
    {
        self.data.len()
    }

    /// The inputs of sample `sample_number`.
    pub fn input(&self, sample_number: usize) -> (input: &[V])
        requires
            sample_number < usize::MAX,
            (sample_number + 1) * self.spec_input_nodes() <= self.spec_data().len(),
        ensures
            input@ == self.spec_data().subrange(
                sample_number * self.spec_input_nodes(),
                (sample_number + 1) * self.spec_input_nodes(),
            ),
    {
        let total = self.data.len();
        proof {
            let s = sample_number as int;
            let w = self.input_nodes as int;
            assert(s * w <= (s + 1) * w) by (nonlinear_arith) requires w >= 0, s >= 0;
        }
        let start_index = sample_number * self.input_nodes;
        let end_index = (sample_number + 1) * self.input_nodes;
        let all = self.data.as_slice();
        &all[start_index..end_index]
    }

    /// A copy of the output block of all samples.
    pub fn output(&self) -> (output: Vec<V>)
        requires
            self.spec_split() <= self.spec_data().len(),
        ensures
            output@ == self.spec_data().subrange(self.spec_split() as int, self.spec_data().len() as int),
    {
        let all = self.data.as_slice();
        slice_to_vec(&all[self.split_index..self.data.len()])
    }

    fn output_index_calculation(&self, sample_number: usize) -> (range: (usize, usize))
        requires
            sample_number < usize::MAX,
            self.spec_split() + (sample_number + 1) * self.spec_output_nodes() <= self.spec_data().len(),
        ensures
            range.0 == self.spec_split() + sample_number * self.spec_output_nodes(),
            range.1 == self.spec_split() + (sample_number + 1) * self.spec_output_nodes(),
            range.0 <= range.1 <= self.spec_data().len(),
    {
        let total = self.data.len();
        proof {
            let s = sample_number as int;
            let w = self.output_nodes as int;
            assert(0 <= s * w <= (s + 1) * w) by (nonlinear_arith) requires w >= 0, s >= 0;
        }
        let start_index = self.split_index + sample_number * self.output_nodes;
        let end_index = self.split_index + (sample_number + 1) * self.output_nodes;
        (start_index, end_index)
    }
}

impl<V: Copy, State> Clone for Batch<V, State> {
    fn clone(&self) -> (copy: Self)
        ensures
            copy.spec_number_of_samples() == self.spec_number_of_samples(),
            copy.spec_input_nodes() == self.spec_input_nodes(),
            copy.spec_output_nodes() == self.spec_output_nodes(),
            copy.spec_split() == self.spec_split(),
            copy.spec_data() == self.spec_data(),
    {
        Batch {
            number_of_samples: self.number_of_samples,
            input_nodes: self.input_nodes,
            output_nodes: self.output_nodes,
            split_index: self.split_index,
            data: slice_to_vec(self.data.as_slice()),
            _state: PhantomData,
        }
    }
}

impl<V: Copy> Batch<V, Training> {
    /// A training batch whose inputs are `input_data` and whose targets are
    /// `output_data`, shaped by the first and last layer of `layout`.
    pub fn from_data(input_data: &[V], output_data: &[V], layout: &[usize]) -> (batch: Batch<V, Training>)
        requires
            input_data@.len() == output_data@.len(),
            layout@.len() >= 1,
            input_data@.len() * layout@[0] <= usize::MAX,
            input_data@.len() + output_data@.len() <= usize::MAX,
        ensures
            batch.spec_number_of_samples() == input_data@.len(),
            batch.spec_input_nodes() == layout@[0],
            batch.spec_output_nodes() == layout@[layout@.len() - 1],
            batch.spec_split() == input_data@.len() * layout@[0],
            batch.spec_data() == input_data@ + output_data@,
    {
        let mut joined: Vec<V> = Vec::new();
        extend_from(&mut joined, input_data);
        extend_from(&mut joined, output_data);
        Batch::new(input_data.len(), layout[0], layout[layout.len() - 1], joined.as_slice())
    }

    /// The same batch with every output slot reset to `zero`, ready to
    /// receive predictions.
    pub fn to_inference_batch(&self, zero: V) -> (batch: Batch<V, Inference>)
        ensures
            batch.spec_number_of_samples() == self.spec_number_of_samples(),
            batch.spec_input_nodes() == self.spec_input_nodes(),
            batch.spec_output_nodes() == self.spec_output_nodes(),
            batch.spec_split() == self.spec_split(),
            batch.spec_data() == Seq::new(self.spec_data().len(), |i: int|
                if i < self.spec_split() { self.spec_data()[i] } else { zero }),
    {
        let mut new_data = slice_to_vec(self.data.as_slice());
        let n = new_data.len();
        let mut i: usize = self.split_index;
        let ghost initial_data = self.data@;
        while i < n
            invariant
                n == initial_data.len(),
                new_data@.len() == n,
                self.split_index <= i || n <= i,
                forall|k: int| 0 <= k < n ==> #[trigger] new_data@[k] == if self.split_index <= k < i { zero } else { initial_data[k] },
            decreases n - i,
        {
            new_data.set(i, zero);
            i = i + 1;
        }
        assert(new_data@ =~= Seq::new(initial_data.len(), |k: int| if k < self.split_index { initial_data[k] } else { zero }));
        Batch {
            number_of_samples: self.number_of_samples,
            input_nodes: self.input_nodes,
            output_nodes: self.output_nodes,
            split_index: self.split_index,
            data: new_data,
            _state: PhantomData,
        }
    }

    /// The target outputs of sample `sample_number`.
    pub fn output_sample(&self, sample_number: usize) -> (output: &[V])
        requires
            sample_number < usize::MAX,
            self.spec_split() + (sample_number + 1) * self.spec_output_nodes() <= self.spec_data().len(),
        ensures
            output@ == self.spec_data().subrange(
                self.spec_split() + sample_number * self.spec_output_nodes(),
                self.spec_split() + (sample_number + 1) * self.spec_output_nodes(),
            ),
    {
        let (start_index, end_index) = self.output_index_calculation(sample_number);
        let all = self.data.as_slice();
        &all[start_index..end_index]
    }
}

impl<V: Copy> Batch<V, Inference> {
    /// Stores the prediction `output` of sample `sample_number`.
    pub fn set_output(&mut self, sample_number: usize, output: &[V])
        requires
            sample_number < usize::MAX,
            old(self).spec_split() + (sample_number + 1) * old(self).spec_output_nodes() <= old(self).spec_data().len(),
            output@.len() == old(self).spec_output_nodes(),
        ensures
            final(self).spec_number_of_samples() == old(self).spec_number_of_samples(),
            final(self).spec_input_nodes() == old(self).spec_input_nodes(),
            final(self).spec_output_nodes() == old(self).spec_output_nodes(),
            final(self).spec_split() == old(self).spec_split(),
            final(self).spec_data() == Seq::new(old(self).spec_data().len(), |i: int| {
                let start = old(self).spec_split() + sample_number * old(self).spec_output_nodes();
                if start <= i < start + output@.len() { output@[i - start] } else { old(self).spec_data()[i] }
            }),
    {
        let (start_index, end_index) = self.output_index_calculation(sample_number);
        proof {
            let s = sample_number as int;
            let w = self.output_nodes as int;
            assert((s + 1) * w == s * w + w) by (nonlinear_arith);
        }
        let ghost before = self.data@;
        let n = output.len();
        let mut k: usize = 0;
        while k < n
            invariant
                n == output@.len(),
                start_index + n == end_index,
                end_index <= before.len(),
                k <= n,
                self.number_of_samples == old(self).number_of_samples,
                self.input_nodes == old(self).input_nodes,
                self.output_nodes == old(self).output_nodes,
                self.split_index == old(self).split_index,
                before == old(self).data@,
                self.data@.len() == before.len(),
                forall|i: int| 0 <= i < before.len() ==> #[trigger] self.data@[i] == if start_index <= i < start_index + k {
                    output@[i - start_index]
                } else {
                    before[i]
                },
            decreases n - k,
        {
            self.data.set(start_index + k, output[k]);
            k = k + 1;
        }
        proof {
            let start = old(self).spec_split() + sample_number * old(self).spec_output_nodes();
            assert(start == start_index);
            assert(self.data@ =~= Seq::new(before.len(), |i: int|
                if start <= i < start + output@.len() { output@[i - start] } else { before[i] }));
        }
    }
}

} // verus!
