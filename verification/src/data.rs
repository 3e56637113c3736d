use vstd::prelude::*;
use vstd::arithmetic::div_mod::{lemma_fundamental_div_mod, lemma_fundamental_div_mod_converse};

verus! {

/// Input and output buffers describe the same number of observations, with
/// non-zero widths that divide their lengths.
pub open spec fn dimensions_valid(output_len: int, input_len: int, output_dim: int, input_dim: int) -> bool {
    &&& input_dim != 0
    &&& output_dim != 0
    &&& input_len % input_dim == 0
    &&& output_len % output_dim == 0
    &&& output_len / output_dim == input_len / input_dim
}

/// Whether flat input and output buffers of these lengths can be read as
/// observations of `input_dim` inputs and `output_dim` outputs.
pub fn assert_dimension_validity(output_len: usize, input_len: usize, output_dim: usize, input_dim: usize) -> (valid: bool)
    ensures
        valid == dimensions_valid(output_len as int, input_len as int, output_dim as int, input_dim as int),
{
    input_dim != 0
        && output_dim != 0
        && input_len % input_dim == 0
        && output_len % output_dim == 0
        && output_len / output_dim == input_len / input_dim
}

/// How many of the positions `0..n` leave remainder `k` when divided by `dim`.
pub open spec fn column_len(n: int, dim: int, k: int) -> int {
    n / dim + if k < n % dim { 1int } else { 0int }
}

proof fn lemma_column_len_step(idx: int, dim: int, k: int)
    requires
        idx >= 0,
        dim > 0,
        0 <= k < dim,
    ensures
        column_len(idx + 1, dim, k) == column_len(idx, dim, k) + if idx % dim == k { 1int } else { 0int },
        idx % dim == k ==> column_len(idx, dim, k) == idx / dim,
{
    lemma_fundamental_div_mod(idx, dim);
    let q = idx / dim;
    let r = idx % dim;
    assert(0 <= r < dim) by {
        vstd::arithmetic::div_mod::lemma_mod_pos_bound(idx, dim);
    }
    if r + 1 < dim {
        assert(idx + 1 == q * dim + (r + 1)) by (nonlinear_arith) requires idx == dim * q + r;
        lemma_fundamental_div_mod_converse(idx + 1, dim, q, r + 1);
    } else {
        assert(idx + 1 == (q + 1) * dim + 0) by (nonlinear_arith) requires idx == dim * q + r, r + 1 == dim;
        lemma_fundamental_div_mod_converse(idx + 1, dim, q + 1, 0);
    }
}

/// Splits `data`, laid out as consecutive groups of `dim` values, into its
/// `dim` columns: column `k` holds every value whose position leaves
/// remainder `k` when divided by `dim`, in order.
pub fn de_interleave<V: Copy>(data: Vec<V>, dim: usize) -> (columns: Vec<Vec<V>>)
    requires
        dim > 0 || data@.len() == 0,
    ensures
        columns@.len() == dim,
        forall|k: int| 0 <= k < dim ==> #[trigger] columns@[k]@.len() == column_len(data@.len() as int, dim as int, k),
        forall|k: int, m: int| 0 <= k < dim && 0 <= m < columns@[k]@.len()
            ==> #[trigger] columns@[k]@[m] == data@[m * dim + k],
{
    let mut columns: Vec<Vec<V>> = Vec::new();
    let mut k: usize = 0;
    while k < dim
        invariant
            k <= dim,
            columns@.len() == k,
            forall|j: int| 0 <= j < k ==> #[trigger] columns@[j]@.len() == 0,
        decreases dim - k,
    {
        columns.push(Vec::new());
        k = k + 1;
    }
    if dim == 0 {
        return columns;
    }
    let n = data.len();
    let mut idx: usize = 0;
    while idx < n
        invariant
            dim > 0,
            n == data@.len(),
            idx <= n,
            columns@.len() == dim,
            forall|j: int| 0 <= j < dim ==> #[trigger] columns@[j]@.len() == column_len(idx as int, dim as int, j),
            forall|j: int, m: int| 0 <= j < dim && 0 <= m < columns@[j]@.len()
                ==> #[trigger] columns@[j]@[m] == data@[m * dim + j],
        decreases n - idx,
    {
        let column = idx % dim;
        let value = data[idx];
        proof {
            assert forall|j: int| 0 <= j < dim implies
                column_len(idx + 1, dim as int, j) == column_len(idx as int, dim as int, j) + if j == column { 1int } else { 0int } by {
                lemma_column_len_step(idx as int, dim as int, j);
            }
            lemma_column_len_step(idx as int, dim as int, column as int);
            lemma_fundamental_div_mod(idx as int, dim as int);
            assert(idx == (idx / dim) * dim + column) by (nonlinear_arith)
                requires idx == dim * (idx / dim) + idx % dim, column == idx % dim;
        }
        let ghost before = columns@;
        columns[column].push(value);
        proof {
            assert forall|j: int, m: int| 0 <= j < dim && 0 <= m < columns@[j]@.len()
                implies #[trigger] columns@[j]@[m] == data@[m * dim + j] by {
                if j != column {
                    assert(columns@[j] == before[j]);
                } else if m < before[j]@.len() {
                    assert(columns@[j]@[m] == before[j]@[m]);
                } else {
                    assert(m == idx / dim);
                }
            }
        }
        idx = idx + 1;
    }
    columns
}

} // verus!
