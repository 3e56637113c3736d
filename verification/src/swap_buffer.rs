use vstd::prelude::*;

verus! {

/// Two equally sized scratch buffers that trade places between the layer
/// transitions of a pass: one is read while the other is written.
#[derive(Debug)]
pub struct SwapBuffer<V> {
    buffer_1: Vec<V>,
    buffer_2: Vec<V>,
}

impl<V: Copy> SwapBuffer<V> {
    /// The buffer currently read from.
    pub closed spec fn spec_first(&self) -> Seq<V> {
        self.buffer_1@
    }

    /// The buffer currently written to.
    pub closed spec fn spec_second(&self) -> Seq<V> {
        self.buffer_2@
    }

    /// Two buffers of `capacity` slots, all holding `zero`.
    pub fn new(capacity: usize, zero: V) -> (buffers: Self)
        ensures
            buffers.spec_first() == Seq::new(capacity as nat, |i: int| zero),
            buffers.spec_second() == Seq::new(capacity as nat, |i: int| zero),
    {
        let mut buffer_1: Vec<V> = Vec::new();
        let mut buffer_2: Vec<V> = Vec::new();
        let mut k: usize = 0;
        while k < capacity
            invariant
                k <= capacity,
                buffer_1@ =~= Seq::new(k as nat, |i: int| zero),
                buffer_2@ =~= Seq::new(k as nat, |i: int| zero),
            decreases capacity - k,
        {
            buffer_1.push(zero);
            buffer_2.push(zero);
            k = k + 1;
        }
        SwapBuffer { buffer_1, buffer_2 }
    }

    /// Both buffers at once: the one read from, then the one written to.
    pub fn get_pair(&mut self) -> (pair: (&mut Vec<V>, &mut Vec<V>))
        ensures
            pair.0@ == old(self).spec_first(),
            pair.1@ == old(self).spec_second(),
            final(self).spec_first() == final(pair.0)@,
            final(self).spec_second() == final(pair.1)@,
    {
        (&mut self.buffer_1, &mut self.buffer_2)
    }

    /// Exchanges the roles of the two buffers.
    pub fn swap(&mut self)
        ensures
            final(self).spec_first() == old(self).spec_second(),
            final(self).spec_second() == old(self).spec_first(),
    {
        std::mem::swap(&mut self.buffer_1, &mut self.buffer_2);
    }
}

} // verus!
