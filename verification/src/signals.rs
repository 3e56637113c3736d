use vstd::prelude::*;
use vstd::slice::slice_to_vec;
use crate::helpers::{cumulative_sum, lemma_prefix_sum_bounded, lemma_prefix_sum_step, seq_sum};

verus! {

/// Slots each layer occupies in the activation arena: every layer but the
/// last carries one extra slot for its bias neuron.
pub open spec fn appended_layout(layout: Seq<usize>) -> Seq<usize> {
    Seq::new(layout.len(), |l: int| if l == layout.len() - 1 { layout[l] } else { (layout[l] + 1) as usize })
}

/// A layout whose activation arena can be built: at least one layer, and
/// every slot count fits in a `usize`.
pub open spec fn signals_fit(layout: Seq<usize>) -> bool {
    &&& layout.len() >= 1
    &&& forall|l: int| 0 <= l < layout.len() - 1 ==> #[trigger] layout[l] < usize::MAX
    &&& seq_sum(appended_layout(layout)) <= usize::MAX
}

/// First arena slot of layer `l`.
pub open spec fn layer_start(slots: Seq<usize>, l: int) -> nat {
    seq_sum(slots.take(l))
}

/// The activations of layer `l` inside the arena `values`.
pub open spec fn layer_values<V>(values: Seq<V>, slots: Seq<usize>, l: int) -> Seq<V> {
    values.subrange(layer_start(slots, l) as int, layer_start(slots, l) + slots[l])
}

/// The arena after layer `l` has been overwritten with the first
/// `slots[l]` entries of `new_values`.
pub open spec fn write_layer<V>(values: Seq<V>, slots: Seq<usize>, l: int, new_values: Seq<V>) -> Seq<V> {
    Seq::new(values.len(), |k: int|
        if layer_start(slots, l) <= k < layer_start(slots, l) + slots[l] {
            new_values[k - layer_start(slots, l)]
        } else {
            values[k]
        })
}

/// The activations of every layer of a net, held in one flat arena.
#[derive(Debug)]
pub struct Signals<V> {
    appended_layout: Vec<usize>,
    indices: Vec<usize>,
    activations: Vec<V>,
}

impl<V: Copy> Signals<V> {
    /// Slots per layer (bias slot included).
    pub closed spec fn spec_slots(&self) -> Seq<usize> {
        self.appended_layout@
    }

    /// The whole arena, layer after layer.
    pub closed spec fn spec_values(&self) -> Seq<V> {
        self.activations@
    }

    /// The arena's shape is consistent: one start index per layer and room
    /// for exactly all slots.
    pub closed spec fn well_formed(&self) -> bool {
        &&& self.appended_layout@.len() >= 1
        &&& self.indices@.len() == self.appended_layout@.len()
        &&& forall|l: int| 0 <= l < self.indices@.len() ==> #[trigger] self.indices@[l] == layer_start(self.appended_layout@, l)
        &&& self.activations@.len() == seq_sum(self.appended_layout@)
    }

    /// An arena for `layout`, every slot holding `zero`.
    pub fn new(layout: &[usize], zero: V) -> (signals: Self)
        requires
            signals_fit(layout@),
        ensures
            signals.well_formed(),
            signals.spec_slots() == appended_layout(layout@),
            signals.spec_slots().len() == layout@.len(),
            forall|l: int| 0 <= l < layout@.len() - 1 ==> #[trigger] signals.spec_slots()[l] == layout@[l] + 1,
            signals.spec_slots()[layout@.len() - 1] == layout@[layout@.len() - 1],
            signals.spec_values() == Seq::new(seq_sum(appended_layout(layout@)), |k: int| zero),
    {
        let n = layout.len();
        let mut appended: Vec<usize> = Vec::new();
        let mut l: usize = 0;
        while l < n
            invariant
                n == layout@.len(),
                l <= n,
                signals_fit(layout@),
                appended@ =~= appended_layout(layout@).take(l as int),
            decreases n - l,
        {
            if l == n - 1 {
                appended.push(layout[l]);
            } else {
                appended.push(layout[l] + 1);
            }
            l = l + 1;
        }
        assert(appended@ =~= appended_layout(layout@));
        proof { lemma_slots_per_layer(layout@); }

        let mut indices = cumulative_sum(appended.as_slice(), 0);
        let total = indices.pop().unwrap();
        assert(appended@.take(n as int) =~= appended@);

        let mut activations: Vec<V> = Vec::new();
        let mut k: usize = 0;
        while k < total
            invariant
                k <= total,
                activations@ =~= Seq::new(k as nat, |i: int| zero),
            decreases total - k,
        {
            activations.push(zero);
            k = k + 1;
        }
        Signals { appended_layout: appended, indices, activations }
    }

    fn layer_info(&self, layer: usize) -> (info: (usize, usize))
        requires
            self.well_formed(),
            layer < self.spec_slots().len(),
        ensures
            info.0 == self.spec_slots()[layer as int],
            info.1 == layer_start(self.spec_slots(), layer as int),
            info.1 + info.0 <= self.spec_values().len(),
            info.1 + info.0 <= usize::MAX,
    {
        let total = self.activations.len();
        proof {
            lemma_prefix_sum_step(self.appended_layout@, layer as int);
            lemma_prefix_sum_bounded(self.appended_layout@, layer + 1);
        }
        (self.appended_layout[layer], self.indices[layer])
    }

    /// Overwrites layer `layer` with the leading entries of `activations`.
    pub fn set_activations(&mut self, layer: usize, activations: &[V])
        requires
            old(self).well_formed(),
            layer < old(self).spec_slots().len(),
            old(self).spec_slots()[layer as int] <= activations@.len(),
        ensures
            final(self).well_formed(),
            final(self).spec_slots() == old(self).spec_slots(),
            final(self).spec_values() == write_layer(old(self).spec_values(), old(self).spec_slots(), layer as int, activations@),
    {
        let (node_count, start_index) = self.layer_info(layer);
        let ghost before = self.activations@;
        let ghost slots = self.appended_layout@;
        let ghost starts = self.indices@;
        let mut k: usize = 0;
        while k < node_count
            invariant
                self.appended_layout@ == slots,
                self.indices@ == starts,
                slots == old(self).spec_slots(),
                before == old(self).spec_values(),
                old(self).well_formed(),
                starts == old(self).indices@,
                layer < slots.len(),
                node_count == slots[layer as int],
                start_index == layer_start(slots, layer as int),
                start_index + node_count <= usize::MAX,
                k <= node_count,
                node_count <= activations@.len(),
                start_index + node_count <= before.len(),
                self.activations@.len() == before.len(),
                forall|i: int| 0 <= i < before.len() ==> #[trigger] self.activations@[i] == if start_index <= i < start_index + k {
                    activations@[i - start_index]
                } else {
                    before[i]
                },
            decreases node_count - k,
        {
            self.activations.set(start_index + k, activations[k]);
            k = k + 1;
        }
        assert(self.activations@ =~= write_layer(before, self.appended_layout@, layer as int, activations@));
    }

    /// The activations of layer `layer`.
    pub fn activations(&self, layer: usize) -> (values: &[V])
        requires
            self.well_formed(),
            layer < self.spec_slots().len(),
        ensures
            values@ == layer_values(self.spec_values(), self.spec_slots(), layer as int),
    {
        let (node_count, start_index) = self.layer_info(layer);
        let all = self.activations.as_slice();
        &all[start_index..start_index + node_count]
    }
}

impl<V: Copy> Clone for Signals<V> {
    fn clone(&self) -> (copy: Self)
        ensures
            copy.well_formed() == self.well_formed(),
            copy.spec_slots() == self.spec_slots(),
            copy.spec_values() == self.spec_values(),
    {
        Signals {
            appended_layout: slice_to_vec(self.appended_layout.as_slice()),
            indices: slice_to_vec(self.indices.as_slice()),
            activations: slice_to_vec(self.activations.as_slice()),
        }
    }
}

/// Every layer but the last gets one slot per neuron plus one for its
/// bias; the output layer gets exactly one slot per neuron.
pub proof fn lemma_slots_per_layer(layout: Seq<usize>)
    requires
        signals_fit(layout),
    ensures
        appended_layout(layout).len() == layout.len(),
        forall|l: int| 0 <= l < layout.len() - 1 ==> #[trigger] appended_layout(layout)[l] == layout[l] + 1,
        appended_layout(layout)[layout.len() - 1] == layout[layout.len() - 1],
{
}

/// Reading a layer right after writing it gives back what was written, and
/// writing one layer leaves every other layer as it was.
pub proof fn lemma_write_then_read<V>(values: Seq<V>, slots: Seq<usize>, l: int, other: int, new_values: Seq<V>)
    requires
        values.len() == seq_sum(slots),
        0 <= l < slots.len(),
        0 <= other < slots.len(),
        slots[l] <= new_values.len(),
    ensures
        layer_values(write_layer(values, slots, l, new_values), slots, l) == new_values.take(slots[l] as int),
        other != l ==> layer_values(write_layer(values, slots, l, new_values), slots, other) == layer_values(values, slots, other),
{
    lemma_layer_in_arena(slots, l);
    lemma_layer_in_arena(slots, other);
    assert(layer_values(write_layer(values, slots, l, new_values), slots, l) =~= new_values.take(slots[l] as int));
    if other < l {
        lemma_layer_starts_ordered(slots, other + 1, l);
        assert(layer_values(write_layer(values, slots, l, new_values), slots, other) =~= layer_values(values, slots, other));
    } else if l < other {
        lemma_layer_starts_ordered(slots, l + 1, other);
        assert(layer_values(write_layer(values, slots, l, new_values), slots, other) =~= layer_values(values, slots, other));
    }
}

proof fn lemma_layer_in_arena(slots: Seq<usize>, l: int)
    requires
        0 <= l < slots.len(),
    ensures
        layer_start(slots, l + 1) == layer_start(slots, l) + slots[l],
        layer_start(slots, l) + slots[l] <= seq_sum(slots),
{
    lemma_prefix_sum_step(slots, l);
    lemma_prefix_sum_bounded(slots, l + 1);
}

proof fn lemma_layer_starts_ordered(slots: Seq<usize>, a: int, b: int)
    requires
        0 <= a <= b <= slots.len(),
    ensures
        layer_start(slots, a) <= layer_start(slots, b),
    decreases b - a,
{
    if a < b {
        lemma_prefix_sum_step(slots, b - 1);
        lemma_layer_starts_ordered(slots, a, b - 1);
    }
}

} // verus!
