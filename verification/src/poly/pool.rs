//! Reusable column buffers.

use vstd::arithmetic::power2::pow2;
use vstd::prelude::*;

use crate::fields::m31::M31;
use crate::utils::pow2_usize;

verus! {

/// Buffers of base field columns, kept by the logarithm of their size.
pub struct BaseColumnPool {
    buffers: Vec<Vec<Vec<M31>>>,
}

impl BaseColumnPool {
    pub closed spec fn wf(self) -> bool {
        &&& self.buffers.len() == 32
        &&& forall|k: int, i: int|
            #![trigger self.buffers@[k]@[i]]
            0 <= k < 32 && 0 <= i < self.buffers@[k].len() ==> self.buffers@[k]@[i].len() == pow2(
                k as nat,
            )
    }

    /// The number of buffers kept for each size.
    pub closed spec fn held(self) -> Seq<nat> {
        Seq::new(32, |k: int| self.buffers@[k]@.len())
    }

    pub fn new() -> (r: BaseColumnPool)
        ensures
            r.wf(),
            r.held() == Seq::new(32, |k: int| 0nat),
    {
        let mut buffers: Vec<Vec<Vec<M31>>> = Vec::with_capacity(32);
        for i in 0..32usize
            invariant
                buffers.len() == i,
                forall|k: int| 0 <= k < i ==> (#[trigger] buffers@[k]).len() == 0,
        {
            buffers.push(Vec::new());
        }
        let r = BaseColumnPool { buffers };
        assert(r.held() =~= Seq::new(32, |k: int| 0nat));
        r
    }

    /// A buffer of size `2^log_size`: one that is kept, or else a new one.
    pub fn take_or_alloc(&mut self, log_size: u32) -> (r: Vec<M31>)
        requires
            old(self).wf(),
            log_size <= 31,
        ensures
            final(self).wf(),
            r.len() == pow2(log_size as nat),
            final(self).held() == old(self).held().update(
                log_size as int,
                if old(self).held()[log_size as int] > 0 {
                    (old(self).held()[log_size as int] - 1) as nat
                } else {
                    0
                },
            ),
    {
        let ghost before = *self;
        let mut slot: Vec<Vec<M31>> = Vec::new();
        let k = log_size as usize;
        std::mem::swap(&mut slot, &mut self.buffers[k]);
        let ghost taken = slot@;
        let popped = slot.pop();
        let ghost left = slot@;
        std::mem::swap(&mut slot, &mut self.buffers[k]);
        proof {
            assert(self.buffers@ =~= before.buffers@.update(k as int, self.buffers@[k as int]));
            assert(self.buffers@[k as int]@ == left);
            assert forall|a: int, i: int|
                #![trigger self.buffers@[a]@[i]]
                0 <= a < 32 && 0 <= i < self.buffers@[a].len() implies self.buffers@[a]@[i].len()
                == pow2(a as nat) by {
                if a == k {
                    assert(left[i] == before.buffers@[a]@[i]);
                } else {
                    assert(self.buffers@[a]@[i] == before.buffers@[a]@[i]);
                }
            }
            assert(self.held() =~= before.held().update(
                k as int,
                left.len(),
            ));
        }
        match popped {
            Some(buffer) => {
                assert(buffer == before.buffers@[k as int]@[taken.len() - 1]);
                buffer
            },
            None => {
                let n = pow2_usize(log_size);
                let mut buffer: Vec<M31> = Vec::with_capacity(n);
                for i in 0..n
                    invariant
                        buffer.len() == i,
                {
                    buffer.push(M31(0));
                }
                buffer
            },
        }
    }

    /// Keeps a buffer for later use.
    pub fn give_back(&mut self, log_size: u32, buffer: Vec<M31>)
        requires
            old(self).wf(),
            log_size <= 31,
            buffer.len() == pow2(log_size as nat),
        ensures
            final(self).wf(),
            final(self).held() == old(self).held().update(
                log_size as int,
                old(self).held()[log_size as int] + 1,
            ),
    {
        let ghost before = *self;
        let k = log_size as usize;
        self.buffers[k].push(buffer);
        proof {
            let now = before.buffers@[k as int]@.push(buffer);
            assert(self.buffers@[k as int]@ == now);
            assert(self.buffers@ =~= before.buffers@.update(k as int, self.buffers@[k as int]));
            assert forall|a: int, i: int|
                #![trigger self.buffers@[a]@[i]]
                0 <= a < 32 && 0 <= i < self.buffers@[a].len() implies self.buffers@[a]@[i].len()
                == pow2(a as nat) by {
                if a == k {
                    if i < before.buffers@[a]@.len() {
                        assert(now[i] == before.buffers@[a]@[i]);
                    }
                } else {
                    assert(self.buffers@[a]@[i] == before.buffers@[a]@[i]);
                }
            }
            assert(self.held() =~= before.held().update(k as int, now.len()));
        }
    }
}

} // verus!
