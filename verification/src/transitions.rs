use vstd::prelude::*;
use crate::assoc::{as_map, has_key, keys_distinct, lemma_as_map_at, lemma_as_map_push, lemma_as_map_update};
use crate::texture_slots::TextureHandle;

verus! {

/// Per texture, the queue of transitions waiting to be shown, first one first.
pub struct RemakeTransitionQueues<T> {
    queues: Vec<(TextureHandle, Vec<T>)>,
    max_queue_size: usize,
}

impl<T> RemakeTransitionQueues<T> {
    /// The queued transitions, per texture.
    pub closed spec fn view(&self) -> Map<TextureHandle, Seq<T>> {
        as_map(self.queues@.map_values(|q: (TextureHandle, Vec<T>)| (q.0, q.1@)))
    }

    pub closed spec fn max_queue_size_spec(&self) -> usize {
        self.max_queue_size
    }

    /// Well-formedness: one queue per texture.
    pub closed spec fn wf(&self) -> bool {
        keys_distinct(self.queues@.map_values(|q: (TextureHandle, Vec<T>)| (q.0, q.1@)))
    }

    /// The queue of `handle`, as a sequence (empty if it has none).
    pub open spec fn queue_of(&self, handle: TextureHandle) -> Seq<T> {
        if self.view().contains_key(handle) {
            self.view()[handle]
        } else {
            Seq::empty()
        }
    }

    pub fn new(max_queue_size: usize) -> (res: RemakeTransitionQueues<T>)
        ensures
            res.wf(),
            res.view() == Map::<TextureHandle, Seq<T>>::empty(),
            res.max_queue_size_spec() == max_queue_size,
    {
        let res = RemakeTransitionQueues { queues: Vec::new(), max_queue_size };
        assert(res.queues@.map_values(|q: (TextureHandle, Vec<T>)| (q.0, q.1@)) =~= Seq::empty());
        assert(res.view() =~= Map::empty());
        res
    }

    fn position_of(&self, handle: TextureHandle) -> (res: Option<usize>)
        requires
            self.wf(),
        ensures
            match res {
                Some(i) => i < self.queues@.len() && self.queues@[i as int].0 == handle,
                None => !self.view().contains_key(handle),
            },
    {
        let mut i: usize = 0;
        while i < self.queues.len()
            invariant
                i <= self.queues@.len(),
                forall|j: int| 0 <= j < i ==> #[trigger] self.queues@[j].0 != handle,
            decreases self.queues@.len() - i,
        {
            if self.queues[i].0 == handle {
                return Some(i);
            }
            i = i + 1;
        }
        proof {
            let e = self.queues@.map_values(|q: (TextureHandle, Vec<T>)| (q.0, q.1@));
            if has_key(e, handle) {
                let j = choose|j: int| 0 <= j < e.len() && e[j].0 == handle;
                assert(self.queues@[j].0 != handle);
            }
        }
        None
    }

    /// The transition to show next for `handle`, if any.
    pub fn front(&self, handle: TextureHandle) -> (res: Option<&T>)
        requires
            self.wf(),
        ensures
            match res {
                Some(t) => self.queue_of(handle).len() > 0 && *t == self.queue_of(handle)[0],
                None => self.queue_of(handle).len() == 0,
            },
    {
        match self.position_of(handle) {
            Some(i) => {
                proof {
                    lemma_as_map_at(self.queues@.map_values(|q: (TextureHandle, Vec<T>)| (q.0, q.1@)), i as int);
                }
                if self.queues[i].1.len() > 0 {
                    Some(&self.queues[i].1[0])
                } else {
                    None
                }
            },
            None => None,
        }
    }

    /// Queues a transition for `handle`, unless its queue already holds more than the most
    /// that a queue should (then the transition is dropped, to bound memory). Returns whether
    /// it was queued.
    pub fn queue_new(&mut self, handle: TextureHandle, transition: T) -> (queued: bool)
        requires
            old(self).wf(),
        ensures
            final(self).wf(),
            final(self).max_queue_size_spec() == old(self).max_queue_size_spec(),
            queued == (old(self).queue_of(handle).len() <= old(self).max_queue_size_spec()),
            final(self).view() == if queued {
                old(self).view().insert(handle, old(self).queue_of(handle).push(transition))
            } else if old(self).view().contains_key(handle) {
                old(self).view()
            } else {
                old(self).view().insert(handle, Seq::empty())
            },
    {
        let ghost e = self.queues@.map_values(|q: (TextureHandle, Vec<T>)| (q.0, q.1@));
        match self.position_of(handle) {
            Some(i) => {
                proof {
                    lemma_as_map_at(e, i as int);
                }
                let (h, mut queue) = self.queues.remove(i);
                let queued = queue.len() <= self.max_queue_size;
                if queued {
                    queue.push(transition);
                }
                let ghost q = queue@;
                self.queues.insert(i, (h, queue));
                proof {
                    assert(self.queues@.map_values(|q: (TextureHandle, Vec<T>)| (q.0, q.1@)) =~= e.update(i as int, (e[i as int].0, q)));
                    lemma_as_map_update(e, i as int, q);
                    if !queued {
                        assert(as_map(e).insert(handle, q) =~= as_map(e));
                    }
                }
                queued
            },
            None => {
                let mut queue: Vec<T> = Vec::with_capacity(1);
                let queued = true;
                queue.push(transition);
                let ghost q = queue@;
                self.queues.push((handle, queue));
                proof {
                    assert(self.queues@.map_values(|q: (TextureHandle, Vec<T>)| (q.0, q.1@)) =~= e.push((handle, q)));
                    lemma_as_map_push(e, handle, q);
                    assert(q =~= Seq::<T>::empty().push(transition));
                }
                queued
            },
        }
    }

    /// Takes the transition that is showing for `handle` off its queue, if there is one.
    pub fn dequeue_current(&mut self, handle: TextureHandle) -> (res: Option<T>)
        requires
            old(self).wf(),
        ensures
            final(self).wf(),
            final(self).max_queue_size_spec() == old(self).max_queue_size_spec(),
            match res {
                Some(t) => {
                    &&& old(self).queue_of(handle).len() > 0
                    &&& t == old(self).queue_of(handle)[0]
                    &&& final(self).view() == old(self).view().insert(handle, old(self).queue_of(handle).drop_first())
                },
                None => {
                    &&& old(self).queue_of(handle).len() == 0
                    &&& final(self).view() == old(self).view()
                },
            },
    {
        let ghost e = self.queues@.map_values(|q: (TextureHandle, Vec<T>)| (q.0, q.1@));
        match self.position_of(handle) {
            Some(i) => {
                proof {
                    lemma_as_map_at(e, i as int);
                }
                if self.queues[i].1.len() == 0 {
                    return None;
                }
                let (h, mut queue) = self.queues.remove(i);
                let first = queue.remove(0);
                let ghost q = queue@;
                self.queues.insert(i, (h, queue));
                proof {
                    assert(self.queues@.map_values(|q: (TextureHandle, Vec<T>)| (q.0, q.1@)) =~= e.update(i as int, (e[i as int].0, q)));
                    lemma_as_map_update(e, i as int, q);
                }
                Some(first)
            },
            None => None,
        }
    }
}

} // verus!
