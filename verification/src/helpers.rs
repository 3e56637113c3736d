use vstd::prelude::*;

verus! {

/// The sum of a sequence of counts.
pub open spec fn seq_sum(s: Seq<usize>) -> nat
    decreases s.len(),
{
    if s.len() == 0 {
        0
    } else {
        seq_sum(s.drop_last()) + (s.last() as nat)
    }
}

/// Adding one more element to a prefix adds that element to its sum.
pub proof fn lemma_prefix_sum_step(s: Seq<usize>, i: int)
    requires
        0 <= i < s.len(),
    ensures
        seq_sum(s.take(i + 1)) == seq_sum(s.take(i)) + s[i],
{
    assert(s.take(i + 1).drop_last() =~= s.take(i));
}

/// The sum of a prefix never exceeds the sum of the whole sequence.
pub proof fn lemma_prefix_sum_bounded(s: Seq<usize>, i: int)
    requires
        0 <= i <= s.len(),
    ensures
        seq_sum(s.take(i)) <= seq_sum(s),
    decreases s.len() - i,
{
    if i == s.len() {
        assert(s.take(i) =~= s);
    } else {
        lemma_prefix_sum_step(s, i);
        lemma_prefix_sum_bounded(s, i + 1);
    }
}

/// The running totals of `collection`, starting from `zero`: entry `i` is
/// `zero` plus the sum of the first `i` elements, so the result is one longer
/// than the input.
pub fn cumulative_sum(collection: &[usize], zero: usize) -> (sums: Vec<usize>)
    requires
        zero + seq_sum(collection@) <= usize::MAX,
    ensures
        sums@.len() == collection@.len() + 1,
        forall|i: int| 0 <= i <= collection@.len() ==> #[trigger] sums@[i] == zero + seq_sum(collection@.take(i)),
{
    let mut sums: Vec<usize> = Vec::new();
    let mut state: usize = zero;
    sums.push(state);
    let n = collection.len();
    let mut k: usize = 0;
    assert(collection@.take(0) =~= Seq::<usize>::empty());
    while k < n
        invariant
            n == collection@.len(),
            k <= n,
            zero + seq_sum(collection@) <= usize::MAX,
            sums@.len() == k + 1,
            state == zero + seq_sum(collection@.take(k as int)),
            forall|i: int| 0 <= i <= k ==> #[trigger] sums@[i] == zero + seq_sum(collection@.take(i)),
        decreases n - k,
    {
        proof {
            lemma_prefix_sum_step(collection@, k as int);
            lemma_prefix_sum_bounded(collection@, k + 1);
        }
        state = state + collection[k];
        sums.push(state);
        k = k + 1;
    }
    sums
}

} // verus!
