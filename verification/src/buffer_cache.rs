//! A small pool of byte buffers that are handed out again.
use vstd::prelude::*;
use std::collections::VecDeque;

verus! {

/// The most buffers that the pool keeps.
pub const BUFFER_CACHE_CAP: usize = 100;

/// A bounded free-list of byte buffers. Every buffer in it is empty and keeps
/// the allocation it came with.
pub struct BufferCache {
    pub vec_cache: VecDeque<Vec<u8>>,
}

impl BufferCache {
    /// Every cached buffer is empty, and there are no more than the cap.
    pub open spec fn wf(&self) -> bool {
        &&& self.vec_cache@.len() <= BUFFER_CACHE_CAP
        &&& forall|i: int| 0 <= i < self.vec_cache@.len() ==> (#[trigger] self.vec_cache@[i])@.len() == 0
    }

    /// How many buffers the pool holds.
    pub open spec fn count(&self) -> nat {
        self.vec_cache@.len()
    }

    pub fn new() -> (cache: BufferCache)
        ensures
            cache.wf(),
            cache.count() == 0,
    {
        BufferCache { vec_cache: VecDeque::new() }
    }

    /// Hands out an empty buffer: the one cached last, or a fresh one where
    /// the pool is empty.
    pub fn alloc_buffer(&mut self) -> (buffer: Vec<u8>)
        requires
            old(self).wf(),
        ensures
            final(self).wf(),
            buffer@.len() == 0,
            old(self).count() > 0 ==> buffer == old(self).vec_cache@[0] && final(self).vec_cache@
                == old(self).vec_cache@.subrange(1, old(self).vec_cache@.len() as int),
            old(self).count() == 0 ==> final(self).count() == 0,
    {
        match self.vec_cache.pop_front() {
            Some(buffer) => buffer,
            None => Vec::new(),
        }
    }

    /// Takes `buffer` back. It is emptied and goes to the front of the pool;
    /// a full pool drops it.
    pub fn cache_buffer(&mut self, buffer: Vec<u8>)
        requires
            old(self).wf(),
        ensures
            final(self).wf(),
            old(self).count() < BUFFER_CACHE_CAP ==> final(self).count() == old(self).count() + 1
                && final(self).vec_cache@.subrange(1, final(self).vec_cache@.len() as int) == old(
                self,
            ).vec_cache@,
            old(self).count() >= BUFFER_CACHE_CAP ==> final(self).vec_cache@ == old(self).vec_cache@,
    {
        if self.vec_cache.len() < BUFFER_CACHE_CAP {
            let mut buffer = buffer;
            buffer.clear();
            self.vec_cache.push_front(buffer);
        }
    }
}

} // verus!
