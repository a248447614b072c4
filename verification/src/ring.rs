//! Fixed-capacity circular store of the most recent samples.
//!
//! The store always holds exactly its capacity of samples (it starts zero
//! filled); a push overwrites the oldest sample in place, so the producer
//! never allocates and never fails. `view` is the abstract contents in
//! chronological order, oldest first.

use vstd::prelude::*;

use crate::smoothing::{all_within_limit, VALUE_LIMIT};

verus! {

/// Circular sample store: `data[write_pos]` is the oldest sample, the one
/// overwritten by the next push.
pub struct RingBuffer {
    data: Vec<i64>,
    write_pos: usize,
}

/// The contents after pushing every sample of `s`, oldest first, onto a store
/// whose contents were `v`.
pub open spec fn pushed(v: Seq<i64>, s: Seq<i64>) -> Seq<i64>
    decreases s.len(),
{
    if s.len() == 0 {
        v
    } else {
        pushed(v.skip(1).push(s[0]), s.skip(1))
    }
}

impl RingBuffer {
    /// Internal invariant: the write position stays inside the sample vector,
    /// and every stored sample fits the fixed-point arithmetic.
    pub closed spec fn wf(&self) -> bool {
        &&& 1 <= self.data@.len()
        &&& self.write_pos < self.data@.len()
        &&& all_within_limit(self.data@)
    }

    /// The stored samples in chronological order, oldest first.
    pub closed spec fn view(&self) -> Seq<i64> {
        self.data@.skip(self.write_pos as int) + self.data@.take(self.write_pos as int)
    }

    /// A store of capacity `size`, zero filled.
    pub fn new(size: usize) -> (r: Self)
        requires
            1 <= size,
        ensures
            r.wf(),
            r.view().len() == size,
            forall|i: int| 0 <= i < size ==> r.view()[i] == 0i64,
    {
        let r = Self { data: vec![0i64; size], write_pos: 0 };
        proof {
            assert(r.view() =~= r.data@);
        }
        r
    }

    /// Appends one sample, evicting the oldest. Always succeeds.
    pub fn push(&mut self, sample: i64)
        requires
            old(self).wf(),
            -VALUE_LIMIT <= sample <= VALUE_LIMIT,
        ensures
            final(self).wf(),
            final(self).view() == old(self).view().skip(1).push(sample),
            final(self).view().len() == old(self).view().len(),
    {
        let len = self.data.len();
        let pos = self.write_pos;
        self.data[pos] = sample;
        self.write_pos = if pos + 1 == len {
            0
        } else {
            pos + 1
        };
        proof {
            let d0 = old(self).data@;
            let d1 = self.data@;
            assert(d1 =~= d0.update(pos as int, sample));
            if pos + 1 == len {
                assert(self.view() =~= old(self).view().skip(1).push(sample));
            } else {
                assert(self.view() =~= old(self).view().skip(1).push(sample));
            }
        }
    }

    /// Writes the stored samples, oldest first, into `dest`, which must have
    /// exactly the store's capacity. No allocation.
    pub fn copy_ordered_into(&self, dest: &mut Vec<i64>)
        requires
            self.wf(),
            old(dest)@.len() == self.view().len(),
        ensures
            final(dest)@ == self.view(),
    {
        let len = self.data.len();
        let mut i: usize = 0;
        while i < len
            invariant
                self.wf(),
                i <= len,
                len == self.data@.len(),
                dest@.len() == len,
                forall|j: int| 0 <= j < i ==> dest@[j] == self.view()[j],
            decreases len - i,
        {
            let wp = self.write_pos;
            let src_idx = if i < len - wp {
                wp + i
            } else {
                i - (len - wp)
            };
            dest[i] = self.data[src_idx];
            i = i + 1;
        }
        proof {
            assert(dest@ =~= self.view());
        }
    }
}

/// Pushing any run of samples leaves the store holding the last `capacity`
/// values of "old contents followed by the run", in chronological order. In
/// particular a run at least as long as the capacity replaces the contents
/// with its own tail.
pub proof fn lemma_pushed_keeps_latest(v: Seq<i64>, s: Seq<i64>)
    requires
        1 <= v.len(),
    ensures
        pushed(v, s) == (v + s).skip(s.len() as int),
        s.len() >= v.len() ==> pushed(v, s) == s.skip(s.len() - v.len()),
    decreases s.len(),
{
    if s.len() == 0 {
        assert((v + s).skip(0) =~= v);
    } else {
        let v1 = v.skip(1).push(s[0]);
        lemma_pushed_keeps_latest(v1, s.skip(1));
        assert(v1 + s.skip(1) =~= (v + s).skip(1));
        assert((v + s).skip(1).skip(s.len() - 1) =~= (v + s).skip(s.len() as int));
        if s.len() >= v.len() {
            assert((v + s).skip(s.len() as int) =~= s.skip(s.len() - v.len()));
        }
    }
}

} // verus!
