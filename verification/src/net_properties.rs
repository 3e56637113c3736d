use vstd::prelude::*;
use vstd::arithmetic::div_mod::lemma_fundamental_div_mod_converse;
use crate::signals::{appended_layout, signals_fit};
use crate::helpers::{cumulative_sum, lemma_prefix_sum_bounded, lemma_prefix_sum_step, seq_sum};

verus! {

/// The largest entry of a sequence (0 for the empty sequence).
pub open spec fn seq_max(s: Seq<usize>) -> usize
    decreases s.len(),
{
    if s.len() == 0 {
        0
    } else if seq_max(s.drop_last()) < s.last() {
        s.last()
    } else {
        seq_max(s.drop_last())
    }
}

/// No entry exceeds the maximum.
pub proof fn lemma_seq_max_bound(s: Seq<usize>, i: int)
    requires
        0 <= i < s.len(),
    ensures
        s[i] <= seq_max(s),
    decreases s.len(),
{
    if i < s.len() - 1 {
        lemma_seq_max_bound(s.drop_last(), i);
    }
}

/// Number of parameters of the transition from layer `t` to layer `t + 1`:
/// one weight per (source neuron or bias, target neuron) pair.
pub open spec fn transition_size(layout: Seq<usize>, t: int) -> int {
    (layout[t] + 1) * layout[t + 1]
}

/// The parameter count of every transition of `layout`, in order.
pub open spec fn transition_counts(layout: Seq<usize>) -> Seq<usize> {
    Seq::new((layout.len() - 1) as nat, |t: int| transition_size(layout, t) as usize)
}

/// Where the parameters of transition `t` start in the flat parameter array.
pub open spec fn transition_offset(layout: Seq<usize>, t: int) -> nat {
    seq_sum(transition_counts(layout).take(t))
}

/// Total number of parameters of a net with this layout.
pub open spec fn parameter_count(layout: Seq<usize>) -> nat {
    seq_sum(transition_counts(layout))
}

/// A layout the net can be built from: at least one layer, and every count
/// derived from it fits in a `usize`.
pub open spec fn layout_fits(layout: Seq<usize>) -> bool {
    &&& layout.len() >= 1
    &&& seq_max(layout) < usize::MAX
    &&& forall|t: int| 0 <= t < layout.len() - 1 ==> #[trigger] transition_size(layout, t) <= usize::MAX
    &&& parameter_count(layout) <= usize::MAX
}

/// Position in the flat parameter array of the weight that connects source
/// neuron `source` of layer `t` (the bias when `source == layout[t]`) to
/// target neuron `target` of layer `t + 1`.
pub open spec fn weight_position(layout: Seq<usize>, t: int, source: int, target: int) -> int {
    transition_offset(layout, t) + target * (layout[t] + 1) + source
}

/// A connection that exists in a net with this layout.
pub open spec fn is_connection(layout: Seq<usize>, t: int, source: int, target: int) -> bool {
    &&& 0 <= t < layout.len() - 1
    &&& 0 <= source <= layout[t]
    &&& 0 <= target < layout[t + 1]
}

/// The structural description of a net: its layout and where every
/// transition's parameters live in one flat parameter array.
#[derive(Debug)]
pub struct NetProperties {
    layout: Vec<usize>,
    transition_parameter_count: Vec<usize>,
    transition_offsets: Vec<usize>,
    number_of_parameters: usize,
    capacity: usize,
    max_layer: usize,
    is_classifier: bool,
}

impl NetProperties {
    #[verifier::type_invariant]
    spec fn well_formed(self) -> bool {
        &&& layout_fits(self.layout@)
        &&& self.transition_parameter_count@ == transition_counts(self.layout@)
        &&& self.transition_offsets@.len() == self.layout@.len() - 1
        &&& forall|t: int| 0 <= t < self.layout@.len() - 1
            ==> #[trigger] self.transition_offsets@[t] == transition_offset(self.layout@, t)
        &&& self.number_of_parameters == parameter_count(self.layout@)
        &&& self.capacity == seq_max(self.layout@) + 1
        &&& self.max_layer == self.layout@.len() - 1
    }

    /// The number of neurons in each layer, input layer first.
    pub closed spec fn spec_layout(&self) -> Seq<usize> {
        self.layout@
    }

    /// Whether the output layer is a softmax classifier.
    pub closed spec fn spec_is_classifier(&self) -> bool {
        self.is_classifier
    }

    /// Derives the flat parameter layout of a net from its layer sizes.
    pub fn new(layout: Vec<usize>, is_classifier: bool) -> (props: Self)
        requires
            layout_fits(layout@),
        ensures
            props.spec_layout() == layout@,
            props.spec_is_classifier() == is_classifier,
    {
        let n = layout.len();

        let mut largest: usize = 0;
        let mut k: usize = 0;
        while k < n
            invariant
                n == layout@.len(),
                k <= n,
                largest == seq_max(layout@.take(k as int)),
            decreases n - k,
        {
            assert(layout@.take(k + 1).drop_last() =~= layout@.take(k as int));
            if largest < layout[k] {
                largest = layout[k];
            }
            k = k + 1;
        }
        assert(layout@.take(n as int) =~= layout@);
        let capacity = largest + 1;

        let mut transition_parameter_count: Vec<usize> = Vec::new();
        let mut t: usize = 0;
        while t + 1 < n
            invariant
                n == layout@.len(),
                n >= 1,
                t <= n - 1,
                layout_fits(layout@),
                transition_parameter_count@ =~= transition_counts(layout@).take(t as int),
            decreases n - t,
        {
            assert(transition_size(layout@, t as int) <= usize::MAX);
            proof { lemma_seq_max_bound(layout@, t as int); }
            let count = (layout[t] + 1) * layout[t + 1];
            transition_parameter_count.push(count);
            t = t + 1;
        }
        assert(transition_parameter_count@ =~= transition_counts(layout@));

        let mut transition_offsets = cumulative_sum(transition_parameter_count.as_slice(), 0);
        let number_of_parameters = transition_offsets.pop().unwrap();
        assert(transition_counts(layout@).take(n - 1) =~= transition_counts(layout@));
        let max_layer = transition_offsets.len();
        NetProperties {
            layout,
            transition_parameter_count,
            transition_offsets,
            number_of_parameters,
            capacity,
            max_layer,
            is_classifier,
        }
    }

    /// Index of the last layer, which is also the number of transitions.
    pub fn max_layer(&self) -> (max_layer: usize)
        ensures
            max_layer == self.spec_layout().len() - 1,
    {
        proof { use_type_invariant(self); }
        self.max_layer
    }

    /// Start of each transition's parameters in the flat parameter array.
    pub fn transition_offsets(&self) -> (offsets: &[usize])
        ensures
            offsets@.len() == self.spec_layout().len() - 1,
            forall|t: int| 0 <= t < offsets@.len()
                ==> #[trigger] offsets@[t] == transition_offset(self.spec_layout(), t),
    {
        proof { use_type_invariant(self); }
        self.transition_offsets.as_slice()
    }

    /// Length of the flat parameter array.
    pub fn number_of_parameters(&self) -> (count: usize)
        ensures
            count == parameter_count(self.spec_layout()),
    {
        proof { use_type_invariant(self); }
        self.number_of_parameters
    }

    /// Room a layer buffer needs: the widest layer plus one slot for the bias.
    pub fn capacity(&self) -> (capacity: usize)
        ensures
            capacity == seq_max(self.spec_layout()) + 1,
    {
        proof { use_type_invariant(self); }
        self.capacity
    }

    /// The number of neurons in each layer.
    pub fn layout(&self) -> (layout: &[usize])
        ensures
            layout@ == self.spec_layout(),
            layout_fits(layout@),
    {
        proof { use_type_invariant(self); }
        self.layout.as_slice()
    }

    /// Whether the output layer is a softmax classifier.
    pub fn is_classifier(&self) -> (is_classifier: bool)
        ensures
            is_classifier == self.spec_is_classifier(),
    {
        self.is_classifier
    }

    /// Position of the weight from `source` (the bias when it equals the
    /// source layer's size) of layer `transition` to `target` of the next layer.
    pub fn weight_index(&self, transition: usize, source: usize, target: usize) -> (index: usize)
        requires
            is_connection(self.spec_layout(), transition as int, source as int, target as int),
        ensures
            index == weight_position(self.spec_layout(), transition as int, source as int, target as int),
            index < parameter_count(self.spec_layout()),
    {
        proof {
            use_type_invariant(self);
            lemma_seq_max_bound(self.layout@, transition as int);
            lemma_weight_position_bounds(self.layout@, transition as int, source as int, target as int);
        }
        let source_count = self.layout[transition] + 1;
        proof {
            assert(target * source_count <= weight_position(self.layout@, transition as int, source as int, target as int));
        }
        self.transition_offsets[transition] + target * source_count + source
    }
}

impl Clone for NetProperties {
    fn clone(&self) -> (copy: Self)
        ensures
            copy.spec_layout() == self.spec_layout(),
            copy.spec_is_classifier() == self.spec_is_classifier(),
    {
        proof { use_type_invariant(self); }
        let layout = self.layout.clone();
        let transition_parameter_count = self.transition_parameter_count.clone();
        let transition_offsets = self.transition_offsets.clone();
        assert(layout@ =~= self.layout@);
        assert(transition_parameter_count@ =~= self.transition_parameter_count@);
        assert(transition_offsets@ =~= self.transition_offsets@);
        NetProperties {
            layout,
            transition_parameter_count,
            transition_offsets,
            number_of_parameters: self.number_of_parameters,
            capacity: self.capacity,
            max_layer: self.max_layer,
            is_classifier: self.is_classifier,
        }
    }
}

/// Whether a net, and the activation arena of its propagation, can be
/// built for `layout`: it has a layer, and none of the derived counts
/// overflows a `usize`.
pub fn valid_layout(layout: &[usize]) -> (valid: bool)
    ensures
        valid == (layout_fits(layout@) && signals_fit(layout@)),
{
    let n = layout.len();
    if n == 0 {
        return false;
    }
    let mut largest: usize = 0;
    let mut k: usize = 0;
    while k < n
        invariant
            n == layout@.len(),
            k <= n,
            largest == seq_max(layout@.take(k as int)),
            forall|i: int| 0 <= i < k ==> #[trigger] layout@[i] <= largest,
        decreases n - k,
    {
        assert(layout@.take(k + 1).drop_last() =~= layout@.take(k as int));
        if largest < layout[k] {
            largest = layout[k];
        }
        k = k + 1;
    }
    assert(layout@.take(n as int) =~= layout@);
    if largest == usize::MAX {
        return false;
    }

    let ghost counts = transition_counts(layout@);
    let mut total: usize = 0;
    let mut t: usize = 0;
    while t + 1 < n
        invariant
            n == layout@.len(),
            n >= 1,
            t <= n - 1,
            largest == seq_max(layout@),
            largest < usize::MAX,
            forall|i: int| 0 <= i < n ==> #[trigger] layout@[i] <= largest,
            counts == transition_counts(layout@),
            forall|i: int| 0 <= i < t ==> #[trigger] transition_size(layout@, i) <= usize::MAX,
            total == seq_sum(counts.take(t as int)),
        decreases n - t,
    {
        proof { lemma_prefix_sum_step(counts, t as int); }
        match (layout[t] + 1).checked_mul(layout[t + 1]) {
            Some(count) => {
                match total.checked_add(count) {
                    Some(sum) => { total = sum; },
                    None => {
                        proof { lemma_prefix_sum_bounded(counts, t + 1); }
                        assert(counts.take(n - 1) =~= counts);
                        return false;
                    },
                }
            },
            None => {
                return false;
            },
        }
        t = t + 1;
    }
    assert(counts.take(n - 1) =~= counts);

    let ghost slots = appended_layout(layout@);
    let mut slot_total: usize = 0;
    let mut l: usize = 0;
    while l < n
        invariant
            n == layout@.len(),
            l <= n,
            largest < usize::MAX,
            forall|i: int| 0 <= i < n ==> #[trigger] layout@[i] <= largest,
            slots == appended_layout(layout@),
            slot_total == seq_sum(slots.take(l as int)),
        decreases n - l,
    {
        proof { lemma_prefix_sum_step(slots, l as int); }
        let size = if l == n - 1 { layout[l] } else { layout[l] + 1 };
        match slot_total.checked_add(size) {
            Some(sum) => { slot_total = sum; },
            None => {
                proof { lemma_prefix_sum_bounded(slots, l + 1); }
                assert(slots.take(n as int) =~= slots);
                return false;
            },
        }
        l = l + 1;
    }
    assert(slots.take(n as int) =~= slots);
    true
}

/// Each transition's parameters start right where the previous
/// transition's end, and the last one ends at the total parameter count.
pub proof fn lemma_offsets_consecutive(layout: Seq<usize>, t: int)
    requires
        layout_fits(layout),
        0 <= t < layout.len() - 1,
    ensures
        transition_offset(layout, t + 1) == transition_offset(layout, t) + transition_size(layout, t),
        transition_offset(layout, t + 1) <= parameter_count(layout),
        transition_offset(layout, layout.len() - 1) == parameter_count(layout),
{
    let counts = transition_counts(layout);
    lemma_prefix_sum_step(counts, t);
    lemma_prefix_sum_bounded(counts, t + 1);
    assert(counts.take(layout.len() - 1) =~= counts);
}

/// Offsets never decrease from one transition to a later one.
pub proof fn lemma_offsets_monotone(layout: Seq<usize>, t1: int, t2: int)
    requires
        layout_fits(layout),
        0 <= t1 <= t2 <= layout.len() - 1,
    ensures
        transition_offset(layout, t1) <= transition_offset(layout, t2),
    decreases t2 - t1,
{
    if t1 < t2 {
        lemma_offsets_consecutive(layout, t2 - 1);
        lemma_offsets_monotone(layout, t1, t2 - 1);
    }
}

/// Every connection's weight lies inside its own transition's block, and so
/// inside the parameter array.
pub proof fn lemma_weight_position_bounds(layout: Seq<usize>, t: int, source: int, target: int)
    requires
        layout_fits(layout),
        is_connection(layout, t, source, target),
    ensures
        transition_offset(layout, t) <= weight_position(layout, t, source, target),
        weight_position(layout, t, source, target) < transition_offset(layout, t + 1),
        weight_position(layout, t, source, target) < parameter_count(layout),
{
    lemma_offsets_consecutive(layout, t);
    let s = layout[t] + 1;
    let o = layout[t + 1] as int;
    assert(target * s + source < o * s) by (nonlinear_arith)
        requires 0 <= target < o, 0 <= source < s;
    assert(0 <= target * s) by (nonlinear_arith)
        requires 0 <= target, 0 <= s;
}

/// Distinct connections own distinct weights: the flat layout never lets two
/// connections share a parameter.
pub proof fn lemma_weight_position_injective(
    layout: Seq<usize>,
    t1: int, source1: int, target1: int,
    t2: int, source2: int, target2: int,
)
    requires
        layout_fits(layout),
        is_connection(layout, t1, source1, target1),
        is_connection(layout, t2, source2, target2),
        weight_position(layout, t1, source1, target1) == weight_position(layout, t2, source2, target2),
    ensures
        t1 == t2,
        source1 == source2,
        target1 == target2,
{
    lemma_weight_position_bounds(layout, t1, source1, target1);
    lemma_weight_position_bounds(layout, t2, source2, target2);
    if t1 < t2 {
        lemma_offsets_monotone(layout, t1 + 1, t2);
    } else if t2 < t1 {
        lemma_offsets_monotone(layout, t2 + 1, t1);
    }
    assert(t1 == t2);
    let s = layout[t1] + 1;
    let x = target1 * s + source1;
    lemma_fundamental_div_mod_converse(x, s, target1, source1);
    lemma_fundamental_div_mod_converse(x, s, target2, source2);
}

/// Every position of the parameter array belongs to some connection: the
/// flat array holds no unused slot.
pub proof fn lemma_weight_position_onto(layout: Seq<usize>, p: int)
    requires
        layout_fits(layout),
        0 <= p < parameter_count(layout),
    ensures
        exists|t: int, source: int, target: int|
            is_connection(layout, t, source, target) && #[trigger] weight_position(layout, t, source, target) == p,
{
    let t = transition_of(layout, p, 0);
    lemma_offsets_consecutive(layout, t);
    let s = layout[t] + 1;
    let o = layout[t + 1] as int;
    let r = p - transition_offset(layout, t);
    let target = r / s;
    let source = r % s;
    assert(r == s * target + source && 0 <= source < s) by (nonlinear_arith)
        requires s > 0, target == r / s, source == r % s;
    assert(0 <= target < o) by (nonlinear_arith)
        requires r == s * target + source, 0 <= source < s, 0 <= r < o * s, s > 0;
    assert(weight_position(layout, t, source, target) == p) by (nonlinear_arith)
        requires r == s * target + source, r == p - transition_offset(layout, t),
            weight_position(layout, t, source, target) == transition_offset(layout, t) + target * s + source;
}

/// The transition whose block holds position `p`, searching from `t`.
proof fn transition_of(layout: Seq<usize>, p: int, t: int) -> (found: int)
    requires
        layout_fits(layout),
        0 <= t < layout.len() - 1,
        transition_offset(layout, t) <= p < parameter_count(layout),
    ensures
        t <= found < layout.len() - 1,
        transition_offset(layout, found) <= p < transition_offset(layout, found + 1),
    decreases layout.len() - t,
{
    lemma_offsets_consecutive(layout, t);
    if p < transition_offset(layout, t + 1) {
        t
    } else {
        transition_of(layout, p, t + 1)
    }
}

} // verus!
