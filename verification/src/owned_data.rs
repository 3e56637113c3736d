use vstd::prelude::*;
use vstd::slice::slice_to_vec;
use crate::batch::extend_from;

verus! {

/// The rows of a table laid out one after another, keeping columns
/// `from..to` of every row.
pub open spec fn flatten_columns<V>(rows: Seq<Seq<V>>, from: int, to: int) -> Seq<V>
    decreases rows.len(),
{
    if rows.len() == 0 {
        Seq::empty()
    } else {
        flatten_columns(rows.drop_last(), from, to) + rows.last().subrange(from, to)
    }
}

/// The contents of each row of a table.
pub open spec fn rows_view<V>(rows: Seq<Vec<V>>) -> Seq<Seq<V>> {
    rows.map_values(|row: Vec<V>| row@)
}

/// Inputs and outputs of a set of observations, each stored flat,
/// observation after observation.
#[derive(Debug)]
pub struct OwnedData<V> {
    input: Vec<V>,
    output: Vec<V>,
}

impl<V> OwnedData<V> {
    pub closed spec fn spec_input(&self) -> Seq<V> {
        self.input@
    }

    pub closed spec fn spec_output(&self) -> Seq<V> {
        self.output@
    }
}

impl<V: Copy> OwnedData<V> {
    pub fn input(&self) -> (input: &[V])
        ensures
            input@ == self.spec_input(),
    {
        self.input.as_slice()
    }

    pub fn output(&self) -> (output: &[V])
        ensures
            output@ == self.spec_output(),
    {
        self.output.as_slice()
    }

    pub fn output_mut(&mut self) -> (output: &mut [V])
        ensures
            output@ == old(self).spec_output(),
            final(self).spec_output() == final(output)@,
            final(self).spec_input() == old(self).spec_input(),
    {
        self.output.as_mut_slice()
    }

    pub fn input_mut(&mut self) -> (input: &mut [V])
        ensures
            input@ == old(self).spec_input(),
            final(self).spec_input() == final(input)@,
            final(self).spec_output() == old(self).spec_output(),
    {
        self.input.as_mut_slice()
    }

    /// Both buffers at once, inputs first.
    pub fn borrow_mut(&mut self) -> (buffers: (&mut [V], &mut [V]))
        ensures
            buffers.0@ == old(self).spec_input(),
            buffers.1@ == old(self).spec_output(),
            final(self).spec_input() == final(buffers.0)@,
            final(self).spec_output() == final(buffers.1)@,
    {
        (self.input.as_mut_slice(), self.output.as_mut_slice())
    }

    pub fn new(input: Vec<V>, output: Vec<V>) -> (data: Self)
        ensures
            data.spec_input() == input@,
            data.spec_output() == output@,
    {
        OwnedData { input, output }
    }

    /// Observations with the given inputs and an output buffer of the same
    /// length filled with `zero`.
    pub fn from_input_slice(input: &[V], zero: V) -> (data: Self)
        ensures
            data.spec_input() == input@,
            data.spec_output() == Seq::new(input@.len(), |i: int| zero),
    {
        let input = slice_to_vec(input);
        let len = input.len();
        let mut output: Vec<V> = Vec::new();
        let mut k: usize = 0;
        while k < len
            invariant
                k <= len,
                output@ =~= Seq::new(k as nat, |i: int| zero),
            decreases len - k,
        {
            output.push(zero);
            k = k + 1;
        }
        OwnedData { input, output }
    }

    /// Observations from the rows of a table: the first `input_dim` columns
    /// of each row are its inputs, the next `output_dim` its outputs.
    pub fn from_rows(rows: &Vec<Vec<V>>, input_dim: usize, output_dim: usize) -> (data: Self)
        requires
            input_dim + output_dim <= usize::MAX,
            forall|r: int| 0 <= r < rows@.len() ==> #[trigger] rows@[r]@.len() == input_dim + output_dim,
        ensures
            data.spec_input() == flatten_columns(rows_view(rows@), 0, input_dim as int),
            data.spec_output() == flatten_columns(rows_view(rows@), input_dim as int, input_dim + output_dim),
    {
        let mut input: Vec<V> = Vec::new();
        let mut output: Vec<V> = Vec::new();
        let n = rows.len();
        let mut r: usize = 0;
        while r < n
            invariant
                n == rows@.len(),
                r <= n,
                input_dim + output_dim <= usize::MAX,
                forall|j: int| 0 <= j < rows@.len() ==> #[trigger] rows@[j]@.len() == input_dim + output_dim,
                input@ == flatten_columns(rows_view(rows@).take(r as int), 0, input_dim as int),
                output@ == flatten_columns(rows_view(rows@).take(r as int), input_dim as int, input_dim + output_dim),
            decreases n - r,
        {
            let row = rows[r].as_slice();
            assert(rows_view(rows@).take(r + 1).drop_last() =~= rows_view(rows@).take(r as int));
            assert(rows_view(rows@)[r as int] == rows@[r as int]@);
            assert(rows_view(rows@).take(r + 1).last() == rows@[r as int]@);
            extend_from(&mut input, &row[0..input_dim]);
            extend_from(&mut output, &row[input_dim..input_dim + output_dim]);
            r = r + 1;
        }
        assert(rows_view(rows@).take(n as int) =~= rows_view(rows@));
        OwnedData { input, output }
    }
}

} // verus!
