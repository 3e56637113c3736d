use vstd::prelude::*;
use crate::batch::{extend_from, Batch, Inference, Training};
use crate::data::{assert_dimension_validity, dimensions_valid};
use crate::owned_data::OwnedData;
use crate::random::uniform_index;

verus! {

broadcast use vstd::seq_lib::group_to_multiset_ensures;

/// How a dataset hands out its batches within an epoch.
#[derive(Debug, Clone, Copy, PartialEq, Eq, Structural)]
pub enum BatchMode {
    /// Consecutive observations, in order.
    Sequential,
    /// Observations drawn at random, each at most once per epoch.
    Random,
}

impl Default for BatchMode {
    fn default() -> (mode: Self)
        ensures
            mode == BatchMode::Sequential,
    {
        BatchMode::Sequential
    }
}

/// How many observations the sequential batch at `cursor` holds: a full
/// batch while enough observations remain, then the rest, then none.
pub open spec fn sequential_count(total: int, batch_size: int, cursor: int) -> int {
    let rest = total - cursor * batch_size;
    if rest <= 0 {
        0
    } else if rest < batch_size {
        rest
    } else {
        batch_size
    }
}

/// The buffer of a random batch: for each drawn observation in turn, its
/// inputs followed by its outputs.
pub open spec fn drawn_batch_data<V>(input: Seq<V>, output: Seq<V>, input_dim: int, output_dim: int, drawn: Seq<usize>) -> Seq<V>
    decreases drawn.len(),
{
    if drawn.len() == 0 {
        Seq::empty()
    } else {
        let o = drawn.last() as int;
        drawn_batch_data(input, output, input_dim, output_dim, drawn.drop_last())
            + input.subrange(o * input_dim, o * input_dim + input_dim)
            + output.subrange(o * output_dim, o * output_dim + output_dim)
    }
}

/// The observation indices `0..n`, in order.
pub open spec fn all_observations(n: nat) -> Seq<usize> {
    Seq::new(n, |i: int| i as usize)
}

/// A dataset that owns its observations and hands them out in batches.
#[derive(Debug)]
pub struct OwnedDataset<V> {
    data: OwnedData<V>,
    input_dim: usize,
    output_dim: usize,
    batch_size: usize,
    batch_mode: BatchMode,
    drawn_observations: Vec<usize>,
    total_observations: usize,
    number_of_full_batches: usize,
}

impl<V> OwnedDataset<V> {
    #[verifier::type_invariant]
    spec fn well_formed(self) -> bool {
        &&& self.input_dim > 0
        &&& self.output_dim > 0
        &&& self.batch_size > 0
        &&& self.data.spec_input().len() == self.total_observations * self.input_dim
        &&& self.data.spec_output().len() == self.total_observations * self.output_dim
        &&& self.number_of_full_batches == self.total_observations / self.batch_size
        &&& match self.batch_mode {
            BatchMode::Sequential => self.drawn_observations@.len() == 1,
            BatchMode::Random => {
                &&& self.drawn_observations@.no_duplicates()
                &&& self.drawn_observations@.len() <= self.total_observations
                &&& forall|i: int| 0 <= i < self.drawn_observations@.len()
                    ==> #[trigger] self.drawn_observations@[i] < self.total_observations
            },
        }
    }

    pub closed spec fn spec_input(&self) -> Seq<V> {
        self.data.spec_input()
    }

    pub closed spec fn spec_output(&self) -> Seq<V> {
        self.data.spec_output()
    }

    pub closed spec fn spec_input_dim(&self) -> usize {
        self.input_dim
    }

    pub closed spec fn spec_output_dim(&self) -> usize {
        self.output_dim
    }

    pub closed spec fn spec_batch_size(&self) -> usize {
        self.batch_size
    }

    pub closed spec fn spec_mode(&self) -> BatchMode {
        self.batch_mode
    }

    pub closed spec fn spec_total(&self) -> usize {
        self.total_observations
    }

    /// Sequential mode: the index of the next batch. Random mode: the
    /// observations not yet drawn in this epoch.
    pub closed spec fn spec_pool(&self) -> Seq<usize> {
        self.drawn_observations@
    }

    pub closed spec fn spec_full_batches(&self) -> usize {
        self.number_of_full_batches
    }

    /// `self` and `batch` are what handing out the next sequential batch of
    /// `before` gives.
    pub open spec fn sequential_step(&self, before: &Self, batch: Option<Batch<V, Training>>) -> bool {
        let cursor = before.spec_pool()[0] as int;
        let count = sequential_count(before.spec_total() as int, before.spec_batch_size() as int, cursor);
        let first = cursor * before.spec_batch_size();
        let in_dim = before.spec_input_dim() as int;
        let out_dim = before.spec_output_dim() as int;
        &&& self.same_contents(before)
        &&& if count == 0 {
            &&& batch is None
            &&& self.spec_pool() == before.spec_pool()
        } else {
            &&& batch is Some
            &&& self.spec_pool() == seq![(cursor + 1) as usize]
            &&& batch->0.spec_number_of_samples() == count
            &&& batch->0.spec_input_nodes() == in_dim
            &&& batch->0.spec_output_nodes() == out_dim
            &&& batch->0.spec_split() == count * in_dim
            &&& batch->0.spec_data() == before.spec_input().subrange(first * in_dim, (first + count) * in_dim)
                + before.spec_output().subrange(first * out_dim, (first + count) * out_dim)
        }
    }

    /// `self` and `batch` are what drawing the next random batch from
    /// `before` gives: `drawn` observations leave the pool, and the batch
    /// holds, observation by observation, the inputs and outputs of each.
    pub open spec fn random_step(&self, before: &Self, batch: Option<Batch<V, Training>>) -> bool {
        let pool = before.spec_pool();
        let count = if pool.len() < before.spec_batch_size() { pool.len() as int } else { before.spec_batch_size() as int };
        &&& self.same_contents(before)
        &&& if pool.len() == 0 {
            &&& batch is None
            &&& self.spec_pool() == pool
        } else {
            &&& batch is Some
            &&& batch->0.spec_number_of_samples() == count
            &&& batch->0.spec_input_nodes() == before.spec_input_dim()
            &&& batch->0.spec_output_nodes() == before.spec_output_dim()
            &&& batch->0.spec_split() == count * before.spec_input_dim()
            &&& exists|drawn: Seq<usize>| {
                &&& drawn.len() == count
                &&& #[trigger] pool.to_multiset() == self.spec_pool().to_multiset().add(drawn.to_multiset())
                &&& batch->0.spec_data() == drawn_batch_data(before.spec_input(), before.spec_output(),
                    before.spec_input_dim() as int, before.spec_output_dim() as int, drawn)
                &&& forall|k: int| 0 <= k < drawn.len() ==> #[trigger] drawn[k] < before.spec_total()
                &&& batch->0.spec_data().len() == count * (before.spec_input_dim() + before.spec_output_dim())
                &&& forall|k: int| #![trigger drawn[k]] 0 <= k < drawn.len() ==> {
                    let w = before.spec_input_dim() + before.spec_output_dim();
                    let o = drawn[k] as int;
                    batch->0.spec_data().subrange(k * w, (k + 1) * w)
                        == before.spec_input().subrange(o * before.spec_input_dim(), (o + 1) * before.spec_input_dim())
                        + before.spec_output().subrange(o * before.spec_output_dim(), (o + 1) * before.spec_output_dim())
                }
            }
        }
    }

    /// `self` is `before` at the start of a new epoch.
    pub open spec fn reset_step(&self, before: &Self) -> bool {
        &&& self.same_contents(before)
        &&& self.spec_pool() == match before.spec_mode() {
            BatchMode::Sequential => seq![0usize],
            BatchMode::Random => all_observations(before.spec_total() as nat),
        }
    }

    /// The fields a batch operation leaves alone.
    pub open spec fn same_contents(&self, other: &Self) -> bool {
        &&& self.spec_input() == other.spec_input()
        &&& self.spec_output() == other.spec_output()
        &&& self.spec_input_dim() == other.spec_input_dim()
        &&& self.spec_output_dim() == other.spec_output_dim()
        &&& self.spec_batch_size() == other.spec_batch_size()
        &&& self.spec_mode() == other.spec_mode()
        &&& self.spec_total() == other.spec_total()
        &&& self.spec_full_batches() == other.spec_full_batches()
    }

}

impl<V: Copy> OwnedDataset<V> {
    /// A dataset over `data`, handing out batches of `batch_size`
    /// observations. A sequential dataset is ready to hand out batches at
    /// once; a random one only after `reset`.
    pub fn new(data: OwnedData<V>, batch_size: usize, input_dim: usize, output_dim: usize, batch_mode: BatchMode) -> (dataset: Self)
        requires
            dimensions_valid(data.spec_output().len() as int, data.spec_input().len() as int, output_dim as int, input_dim as int),
            batch_size > 0,
        ensures
            dataset.spec_input() == data.spec_input(),
            dataset.spec_output() == data.spec_output(),
            dataset.spec_input_dim() == input_dim,
            dataset.spec_output_dim() == output_dim,
            dataset.spec_batch_size() == batch_size,
            dataset.spec_mode() == batch_mode,
            dataset.spec_total() == data.spec_input().len() as int / input_dim as int,
            dataset.spec_full_batches() == dataset.spec_total() as int / batch_size as int,
            dataset.spec_pool() == match batch_mode {
                BatchMode::Sequential => seq![0usize],
                BatchMode::Random => Seq::<usize>::empty(),
            },
    {
        let valid = assert_dimension_validity(data.output().len(), data.input().len(), output_dim, input_dim);
        let total_observations = data.input().len() / input_dim;
        proof {
            let n = data.spec_input().len() as int;
            let m = data.spec_output().len() as int;
            vstd::arithmetic::div_mod::lemma_fundamental_div_mod(n, input_dim as int);
            vstd::arithmetic::div_mod::lemma_fundamental_div_mod(m, output_dim as int);
            assert(n == total_observations * input_dim) by (nonlinear_arith)
                requires n == input_dim * (n / input_dim as int) + n % (input_dim as int), n % (input_dim as int) == 0,
                    total_observations == n / input_dim as int;
            assert(m == total_observations * output_dim) by (nonlinear_arith)
                requires m == output_dim * (m / output_dim as int) + m % (output_dim as int), m % (output_dim as int) == 0,
                    total_observations == m / output_dim as int;
        }
        let drawn_observations = match batch_mode {
            BatchMode::Sequential => {
                let mut cursor: Vec<usize> = Vec::new();
                cursor.push(0);
                cursor
            },
            BatchMode::Random => Vec::new(),
        };
        proof {
            assert(drawn_observations@ =~= match batch_mode {
                BatchMode::Sequential => seq![0usize],
                BatchMode::Random => Seq::<usize>::empty(),
            });
        }
        let number_of_full_batches = total_observations / batch_size;
        OwnedDataset {
            data,
            input_dim,
            output_dim,
            batch_size,
            batch_mode,
            drawn_observations,
            total_observations,
            number_of_full_batches,
        }
    }

    /// Sequential mode: the next `batch_size` observations in order (fewer
    /// for the last batch), or `None` once all have been handed out.
    pub fn next_sequential_batch(&mut self) -> (batch: Option<Batch<V, Training>>)
        requires
            old(self).spec_mode() == BatchMode::Sequential,
        ensures
            final(self).same_contents(old(self)),
            final(self).sequential_step(old(self), batch),
    {
        proof { use_type_invariant(&*self); }
        let cursor = self.drawn_observations[0];
        let total = self.total_observations;
        let size = self.batch_size;
        let next_batch_observation_count: usize = match cursor.checked_mul(size) {
            Some(first) => {
                let rest = total.saturating_sub(first);
                if rest < size { rest } else { size }
            },
            None => 0,
        };
        if next_batch_observation_count == 0 {
            return None;
        }
        let first = cursor * size;
        let count = next_batch_observation_count;
        let in_dim = self.input_dim;
        let out_dim = self.output_dim;
        let input_len = self.data.input().len();
        let output_len = self.data.output().len();
        proof {
            let t = total as int;
            assert(first + count <= t);
            assert(cursor <= first) by (nonlinear_arith) requires first == cursor * size, size >= 1;
            assert(0 <= first * in_dim && (first + count) * in_dim <= t * in_dim && count * in_dim <= t * in_dim
                && first * in_dim + count * in_dim == (first + count) * in_dim) by (nonlinear_arith)
                requires first + count <= t, first >= 0, count >= 0, in_dim >= 0;
            assert(0 <= first * out_dim && (first + count) * out_dim <= t * out_dim
                && first * out_dim + count * out_dim == (first + count) * out_dim) by (nonlinear_arith)
                requires first + count <= t, first >= 0, count >= 0, out_dim >= 0;
        }
        let input_start = first * in_dim;
        let input_end = input_start + count * in_dim;
        let output_start = first * out_dim;
        let output_end = output_start + count * out_dim;
        let mut data: Vec<V> = Vec::new();
        extend_from(&mut data, &self.data.input()[input_start..input_end]);
        extend_from(&mut data, &self.data.output()[output_start..output_end]);

        let mut next_cursor: Vec<usize> = Vec::new();
        next_cursor.push(cursor + 1);
        self.drawn_observations = next_cursor;
        assert(self.drawn_observations@ =~= seq![(cursor + 1) as usize]);

        Some(Batch::new(count, in_dim, out_dim, data.as_slice()))
    }

    /// Random mode: up to `batch_size` observations not yet drawn in this
    /// epoch, each chosen uniformly among those left, or `None` once every
    /// observation has been drawn.
    pub fn next_random_batch(&mut self) -> (batch: Option<Batch<V, Training>>)
        requires
            old(self).spec_mode() == BatchMode::Random,
        ensures
            final(self).random_step(old(self), batch),
    {
        proof { use_type_invariant(&*self); }
        if self.drawn_observations.len() == 0 {
            return None;
        }
        let total = self.total_observations;
        let current_pool_len = self.drawn_observations.len();
        let count = if current_pool_len < self.batch_size { current_pool_len } else { self.batch_size };

        let mut pool: Vec<usize> = Vec::new();
        std::mem::swap(&mut pool, &mut self.drawn_observations);
        let ghost initial_pool = pool@;

        let mut batch_indices: Vec<usize> = Vec::new();
        let mut k: usize = 0;
        while k < count
            invariant
                k <= count,
                count <= initial_pool.len(),
                pool@.len() == initial_pool.len() - k,
                batch_indices@.len() == k,
                initial_pool.to_multiset() =~= pool@.to_multiset().add(batch_indices@.to_multiset()),
                pool@.no_duplicates(),
                forall|i: int| 0 <= i < pool@.len() ==> #[trigger] pool@[i] < total,
                forall|i: int| 0 <= i < batch_indices@.len() ==> #[trigger] batch_indices@[i] < total,
            decreases count - k,
        {
            let remaining = pool.len();
            let pool_idx = uniform_index(remaining);
            let ghost before = pool@;
            let observation_idx = pool.swap_remove(pool_idx);
            proof {
                lemma_swap_remove(before, pool_idx as int);
                assert(pool@.to_multiset().add(batch_indices@.push(observation_idx).to_multiset())
                    =~= before.to_multiset().add(batch_indices@.to_multiset()));
            }
            batch_indices.push(observation_idx);
            k = k + 1;
        }

        let in_dim = self.input_dim;
        let out_dim = self.output_dim;
        let input_len = self.data.input().len();
        let output_len = self.data.output().len();
        let mut data: Vec<V> = Vec::new();
        let mut j: usize = 0;
        while j < count
            invariant
                j <= count,
                batch_indices@.len() == count,
                forall|i: int| 0 <= i < batch_indices@.len() ==> #[trigger] batch_indices@[i] < total,
                input_len == self.data.spec_input().len(),
                output_len == self.data.spec_output().len(),
                self.data.spec_input().len() == total * in_dim,
                self.data.spec_output().len() == total * out_dim,
                data@ == drawn_batch_data(self.data.spec_input(), self.data.spec_output(), in_dim as int, out_dim as int,
                    batch_indices@.take(j as int)),
            decreases count - j,
        {
            let observation_idx = batch_indices[j];
            proof {
                let o = observation_idx as int;
                let t = total as int;
                assert(0 <= o * in_dim && o * in_dim + in_dim <= t * in_dim) by (nonlinear_arith)
                    requires 0 <= o < t, in_dim >= 0;
                assert(0 <= o * out_dim && o * out_dim + out_dim <= t * out_dim) by (nonlinear_arith)
                    requires 0 <= o < t, out_dim >= 0;
                assert(batch_indices@.take(j + 1).drop_last() =~= batch_indices@.take(j as int));
            }
            let in_start = observation_idx * in_dim;
            let out_start = observation_idx * out_dim;
            extend_from(&mut data, &self.data.input()[in_start..in_start + in_dim]);
            extend_from(&mut data, &self.data.output()[out_start..out_start + out_dim]);
            j = j + 1;
        }
        proof {
            assert(batch_indices@.take(count as int) =~= batch_indices@);
            assert(count * in_dim <= total * in_dim) by (nonlinear_arith)
                requires count <= total, in_dim >= 0;
            assert forall|k: int| 0 <= k < batch_indices@.len() implies
                (#[trigger] batch_indices@[k] + 1) * in_dim <= self.data.spec_input().len()
                && (batch_indices@[k] + 1) * out_dim <= self.data.spec_output().len() by {
                let o = batch_indices@[k] as int;
                let t = total as int;
                assert((o + 1) * in_dim <= t * in_dim && (o + 1) * out_dim <= t * out_dim) by (nonlinear_arith)
                    requires 0 <= o < t, in_dim >= 0, out_dim >= 0;
            }
            lemma_drawn_batch_layout(self.data.spec_input(), self.data.spec_output(), in_dim as int, out_dim as int,
                batch_indices@);
        }
        self.drawn_observations = pool;
        Some(Batch::new(count, in_dim, out_dim, data.as_slice()))
    }

    /// The inputs of all observations, observation after observation.
    pub fn input(&self) -> (input: &[V])
        ensures
            input@ == self.spec_input(),
            input@.len() == self.spec_total() * self.spec_input_dim(),
    {
        proof { use_type_invariant(self); }
        self.data.input()
    }

    /// The outputs of all observations, observation after observation.
    pub fn output(&self) -> (output: &[V])
        ensures
            output@ == self.spec_output(),
            output@.len() == self.spec_total() * self.spec_output_dim(),
    {
        proof { use_type_invariant(self); }
        self.data.output()
    }

    pub fn input_dim(&self) -> (dim: usize)
        ensures
            dim == self.spec_input_dim(),
            dim > 0,
    {
        proof { use_type_invariant(self); }
        self.input_dim
    }

    pub fn output_dim(&self) -> (dim: usize)
        ensures
            dim == self.spec_output_dim(),
            dim > 0,
    {
        proof { use_type_invariant(self); }
        self.output_dim
    }

    /// A batch of all inputs with an output block of `zero`s to be filled.
    /// Its sample count is the length of the input buffer.
    pub fn create_inference_batch(&self, zero: V) -> (batch: Batch<V, Inference>)
        requires
            self.spec_input().len() * self.spec_input_dim() <= usize::MAX,
        ensures
            batch.spec_number_of_samples() == self.spec_input().len(),
            batch.spec_input_nodes() == self.spec_input_dim(),
            batch.spec_output_nodes() == self.spec_output_dim(),
            batch.spec_split() == self.spec_input().len() * self.spec_input_dim(),
            batch.spec_data() == self.spec_input() + Seq::new(self.spec_output().len(), |i: int| zero),
    {
        proof { use_type_invariant(self); }
        let len = self.input().len();
        let output_len = self.output().len();
        let mut new: Vec<V> = Vec::new();
        extend_from(&mut new, self.input());
        let mut k: usize = 0;
        while k < output_len
            invariant
                k <= output_len,
                new@ =~= self.spec_input() + Seq::new(k as nat, |i: int| zero),
            decreases output_len - k,
        {
            new.push(zero);
            k = k + 1;
        }
        Batch::new(len, self.input_dim, self.output_dim, new.as_slice())
    }
}

/// A source of training batches, consumed epoch by epoch.
pub trait BatchProvider<V> {
    /// The next batch of the current epoch, or `None` when the epoch is over.
    fn provide_batch(&mut self) -> Option<Batch<V, Training>>;

    /// Starts a new epoch.
    fn reset(&mut self);
}

impl<V: Copy> BatchProvider<V> for OwnedDataset<V> {
    fn provide_batch(&mut self) -> (batch: Option<Batch<V, Training>>)
        ensures
            old(self).spec_mode() == BatchMode::Sequential ==> final(self).sequential_step(old(self), batch),
            old(self).spec_mode() == BatchMode::Random ==> final(self).random_step(old(self), batch),
    {
        match self.batch_mode {
            BatchMode::Sequential => self.next_sequential_batch(),
            BatchMode::Random => self.next_random_batch(),
        }
    }

    fn reset(&mut self)
        ensures
            final(self).reset_step(old(self)),
    {
        proof { use_type_invariant(&*self); }
        let total = self.total_observations;
        let mut pool: Vec<usize> = Vec::new();
        match self.batch_mode {
            BatchMode::Sequential => {
                pool.push(0);
                assert(pool@ =~= seq![0usize]);
            },
            BatchMode::Random => {
                let mut k: usize = 0;
                while k < total
                    invariant
                        k <= total,
                        pool@ =~= all_observations(k as nat),
                    decreases total - k,
                {
                    pool.push(k);
                    k = k + 1;
                }
                assert(pool@.no_duplicates());
            },
        }
        self.drawn_observations = pool;
    }
}

/// Sequential batching tiles the observations in order: observation `o`
/// falls in the batch at cursor `o / batch_size`; a batch is non-empty
/// exactly while its first observation exists; and every non-empty batch
/// but the last is full.
pub proof fn lemma_sequential_batches_tile(total: int, batch_size: int, o: int, cursor: int)
    requires
        batch_size > 0,
        0 <= o < total,
        cursor >= 0,
    ensures
        (o / batch_size) * batch_size <= o < (o / batch_size) * batch_size + sequential_count(total, batch_size, o / batch_size),
        sequential_count(total, batch_size, cursor) > 0 <==> cursor * batch_size < total,
        sequential_count(total, batch_size, cursor + 1) > 0 ==> sequential_count(total, batch_size, cursor) == batch_size,
{
    vstd::arithmetic::div_mod::lemma_fundamental_div_mod(o, batch_size);
    vstd::arithmetic::div_mod::lemma_mod_pos_bound(o, batch_size);
    let c = o / batch_size;
    assert(c * batch_size <= o < c * batch_size + batch_size) by (nonlinear_arith)
        requires o == batch_size * c + o % batch_size, 0 <= o % batch_size < batch_size;
    assert((cursor + 1) * batch_size == cursor * batch_size + batch_size) by (nonlinear_arith);
}

/// The number of observations in the first `n` sequential batches of an epoch.
pub open spec fn sequential_prefix(total: int, batch_size: int, n: nat) -> int
    decreases n,
{
    if n == 0 {
        0
    } else {
        sequential_prefix(total, batch_size, (n - 1) as nat) + sequential_count(total, batch_size, n - 1)
    }
}

/// The first `n` sequential batches of an epoch hold `n * batch_size`
/// observations, or all of them once the data runs out: no observation is
/// handed out twice or skipped.
pub proof fn lemma_sequential_prefix(total: int, batch_size: int, n: nat)
    requires
        batch_size > 0,
        total >= 0,
    ensures
        sequential_prefix(total, batch_size, n) == if n * batch_size < total { n * batch_size } else { total },
    decreases n,
{
    if n > 0 {
        let m = (n - 1) as nat;
        lemma_sequential_prefix(total, batch_size, m);
        let mb = m * batch_size;
        assert(n * batch_size == mb + batch_size) by (nonlinear_arith) requires n == m + 1, mb == m * batch_size;
        assert(0 <= mb) by (nonlinear_arith) requires batch_size > 0, mb == m * batch_size;
        assert(sequential_count(total, batch_size, n - 1) == sequential_count(total, batch_size, m as int));
    } else {
        assert(n * batch_size == 0) by (nonlinear_arith) requires n == 0;
    }
}

/// A random batch is the drawn observations side by side: the block of
/// `input_dim + output_dim` values at position `k` holds exactly the inputs
/// and then the outputs of the `k`-th drawn observation, the same slices of
/// the dataset a sequential batch takes for it.
pub proof fn lemma_drawn_batch_layout<V>(input: Seq<V>, output: Seq<V>, input_dim: int, output_dim: int, drawn: Seq<usize>)
    requires
        input_dim >= 0,
        output_dim >= 0,
        forall|k: int| 0 <= k < drawn.len() ==> (#[trigger] drawn[k] + 1) * input_dim <= input.len()
            && (drawn[k] + 1) * output_dim <= output.len(),
    ensures
        drawn_batch_data(input, output, input_dim, output_dim, drawn).len() == drawn.len() * (input_dim + output_dim),
        forall|k: int| #![trigger drawn[k]] 0 <= k < drawn.len() ==>
            drawn_batch_data(input, output, input_dim, output_dim, drawn).subrange(
                k * (input_dim + output_dim), (k + 1) * (input_dim + output_dim))
            == input.subrange(drawn[k] * input_dim, (drawn[k] + 1) * input_dim)
                + output.subrange(drawn[k] * output_dim, (drawn[k] + 1) * output_dim),
    decreases drawn.len(),
{
    let w = input_dim + output_dim;
    if drawn.len() > 0 {
        let prefix = drawn.drop_last();
        assert forall|k: int| 0 <= k < prefix.len() implies (#[trigger] prefix[k] + 1) * input_dim <= input.len()
            && (prefix[k] + 1) * output_dim <= output.len() by {
            assert(prefix[k] == drawn[k]);
        }
        lemma_drawn_batch_layout(input, output, input_dim, output_dim, prefix);
        let head = drawn_batch_data(input, output, input_dim, output_dim, prefix);
        let o = drawn.last() as int;
        let n = drawn.len() as int;
        assert((o + 1) * input_dim <= input.len());
        assert(0 <= o * input_dim && o * input_dim + input_dim == (o + 1) * input_dim
            && 0 <= o * output_dim && o * output_dim + output_dim == (o + 1) * output_dim) by (nonlinear_arith)
            requires o >= 0, input_dim >= 0, output_dim >= 0;
        let block = input.subrange(o * input_dim, o * input_dim + input_dim)
            + output.subrange(o * output_dim, o * output_dim + output_dim);
        let whole = drawn_batch_data(input, output, input_dim, output_dim, drawn);
        assert(whole =~= head + block);
        assert(block.len() == w);
        assert((n - 1) * w + w == n * w) by (nonlinear_arith);
        assert forall|k: int| #![trigger drawn[k]] 0 <= k < drawn.len() implies
            whole.subrange(k * w, (k + 1) * w)
            == input.subrange(drawn[k] * input_dim, (drawn[k] + 1) * input_dim)
                + output.subrange(drawn[k] * output_dim, (drawn[k] + 1) * output_dim) by {
            assert(0 <= k * w && k * w + w == (k + 1) * w) by (nonlinear_arith) requires k >= 0, w >= 0;
            if k < n - 1 {
                assert((k + 1) * w <= (n - 1) * w) by (nonlinear_arith) requires k + 1 <= n - 1, w >= 0;
                assert(whole.subrange(k * w, (k + 1) * w) =~= head.subrange(k * w, (k + 1) * w));
                assert(prefix[k] == drawn[k]);
            } else {
                assert(k * w == head.len());
                assert(whole.subrange(k * w, (k + 1) * w) =~= block);
            }
        }
    } else {
        assert(drawn.len() * w == 0) by (nonlinear_arith) requires drawn.len() == 0;
    }
}

/// A random epoch draws every observation exactly once: when the pool
/// starts as all `total` observations, each draw moves its observations out
/// of the pool, and the pool ends empty, then the draws together are the
/// observations `0..total`, rearranged, with none repeated.
pub proof fn lemma_random_epoch(total: nat, pools: Seq<Seq<usize>>, draws: Seq<Seq<usize>>)
    requires
        total <= usize::MAX,
        pools.len() == draws.len() + 1,
        pools[0] == all_observations(total),
        forall|k: int| 0 <= k < draws.len()
            ==> #[trigger] pools[k].to_multiset() == pools[k + 1].to_multiset().add(draws[k].to_multiset()),
        pools.last().len() == 0,
    ensures
        draws.flatten().to_multiset() == all_observations(total).to_multiset(),
        draws.flatten().no_duplicates(),
{
    lemma_draws_so_far(total, pools, draws, draws.len() as int);
    assert(draws.take(draws.len() as int) =~= draws);
    assert(pools.last().to_multiset() =~= vstd::multiset::Multiset::empty());
    assert(draws.flatten().to_multiset() =~= all_observations(total).to_multiset());
    let all = all_observations(total);
    assert(all.no_duplicates());
    all.lemma_multiset_has_no_duplicates();
    draws.flatten().lemma_multiset_has_no_duplicates_conv();
}

proof fn lemma_draws_so_far(total: nat, pools: Seq<Seq<usize>>, draws: Seq<Seq<usize>>, k: int)
    requires
        pools.len() == draws.len() + 1,
        0 <= k <= draws.len(),
        forall|j: int| 0 <= j < draws.len()
            ==> #[trigger] pools[j].to_multiset() == pools[j + 1].to_multiset().add(draws[j].to_multiset()),
    ensures
        pools[0].to_multiset() =~= pools[k].to_multiset().add(draws.take(k).flatten().to_multiset()),
    decreases k,
{
    if k == 0 {
        assert(draws.take(0) =~= Seq::<Seq<usize>>::empty());
        assert(draws.take(0).flatten() =~= Seq::<usize>::empty());
    } else {
        lemma_draws_so_far(total, pools, draws, k - 1);
        assert(draws.take(k) =~= draws.take(k - 1).push(draws[k - 1]));
        draws.take(k - 1).lemma_flatten_push(draws[k - 1]);
        vstd::seq_lib::lemma_multiset_commutative(draws.take(k - 1).flatten(), draws[k - 1]);
        assert(pools[k - 1].to_multiset() == pools[k].to_multiset().add(draws[k - 1].to_multiset()));
    }
}

/// Removing entry `i` by moving the last entry into its place takes exactly
/// that one value out of the sequence.
proof fn lemma_swap_remove(s: Seq<usize>, i: int)
    requires
        0 <= i < s.len(),
    ensures
        s.update(i, s.last()).drop_last().to_multiset() =~= s.to_multiset().remove(s[i]),
        s.no_duplicates() ==> s.update(i, s.last()).drop_last().no_duplicates(),
        forall|k: int| 0 <= k < s.len() - 1 ==> s.contains(#[trigger] s.update(i, s.last()).drop_last()[k]),
{
    let t = s.update(i, s.last());
    let r = t.drop_last();
    assert(t.to_multiset() =~= s.to_multiset().insert(s.last()).remove(s[i]));
    assert(t.remove(t.len() - 1) =~= r);
    assert(t[t.len() - 1] == s.last());
    assert(r.to_multiset() =~= t.to_multiset().remove(s.last()));
    assert forall|k: int| 0 <= k < r.len() implies s.contains(#[trigger] r[k]) by {
        if k == i {
            assert(s[s.len() - 1] == r[k]);
        } else {
            assert(s[k] == r[k]);
        }
    }
    if s.no_duplicates() {
        assert forall|a: int, b: int| 0 <= a < r.len() && 0 <= b < r.len() && a != b implies r[a] != r[b] by {
            let ia = if a == i { s.len() - 1 } else { a };
            let ib = if b == i { s.len() - 1 } else { b };
            assert(r[a] == s[ia]);
            assert(r[b] == s[ib]);
        }
    }
}

} // verus!
