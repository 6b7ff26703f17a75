//! The round-robin order in which bodies get their orbit paths rebuilt, one
//! body each time the rebuild timer fires.
use vstd::prelude::*;

use std::collections::VecDeque;

verus! {

/// The queue `q` after one rebuild: its head has moved to the tail.
pub open spec fn rotate_once(q: Seq<u64>) -> Seq<u64> {
    if q.len() == 0 {
        q
    } else {
        q.drop_first().push(q[0])
    }
}

/// The queue after `k` rebuilds from `q`, and the bodies rebuilt, in order.
pub open spec fn after_rebuilds(q: Seq<u64>, k: nat) -> (Seq<u64>, Seq<u64>)
    decreases k,
{
    if k == 0 {
        (q, Seq::empty())
    } else {
        let (q1, rebuilt) = after_rebuilds(q, (k - 1) as nat);
        if q1.len() == 0 {
            (q1, rebuilt)
        } else {
            (rotate_once(q1), rebuilt.push(q1[0]))
        }
    }
}

/// The bodies, by identifier, in the order in which their paths are rebuilt.
/// Each body stands in it exactly once.
pub struct UpdateQueue {
    ids: VecDeque<u64>,
}

impl View for UpdateQueue {
    type V = Seq<u64>;

    closed spec fn view(&self) -> Seq<u64> {
        self.ids@
    }
}

impl UpdateQueue {
    pub open spec fn wf(&self) -> bool {
        self@.no_duplicates()
    }

    pub fn new() -> (q: UpdateQueue)
        ensures
            q.wf(),
            q@ == Seq::<u64>::empty(),
    {
        UpdateQueue { ids: VecDeque::new() }
    }

    pub fn len(&self) -> (n: usize)
        ensures
            n == self@.len(),
    {
        self.ids.len()
    }

    pub fn contains(&self, id: u64) -> (r: bool)
        ensures
            r == self@.contains(id),
    {
        let mut i: usize = 0;
        while i < self.ids.len()
            invariant
                i <= self@.len(),
                forall|j: int| 0 <= j < i ==> self@[j] != id,
            decreases self@.len() - i,
        {
            if self.ids[i] == id {
                assert(self@[i as int] == id);
                return true;
            }
            i += 1;
        }
        false
    }

    /// Puts `id` at the tail, unless it is already queued.
    pub fn push_back(&mut self, id: u64) -> (added: bool)
        requires
            old(self).wf(),
        ensures
            final(self).wf(),
            added == !old(self)@.contains(id),
            final(self)@ == (if added {
                old(self)@.push(id)
            } else {
                old(self)@
            }),
    {
        if self.contains(id) {
            return false;
        }
        self.ids.push_back(id);
        proof {
            let s = old(self)@;
            assert forall|a: int, b: int|
                0 <= a < b < self@.len() implies self@[a] != self@[b] by {
                if b == s.len() {
                    assert(s.contains(s[a]));
                }
            }
        }
        true
    }

    /// Takes the body at the head, whose path is rebuilt now, and puts it back
    /// at the tail.
    pub fn next_to_rebuild(&mut self) -> (r: Option<u64>)
        requires
            old(self).wf(),
        ensures
            final(self).wf(),
            final(self)@ == rotate_once(old(self)@),
            r == (if old(self)@.len() == 0 {
                None
            } else {
                Some(old(self)@[0])
            }),
    {
        match self.ids.pop_front() {
            Some(id) => {
                self.ids.push_back(id);
                proof {
                    let s = old(self)@;
                    assert(self@ =~= rotate_once(s));
                    assert forall|a: int, b: int|
                        0 <= a < b < self@.len() implies self@[a] != self@[b] by {
                        if b == s.len() - 1 {
                            assert(self@[a] == s[a + 1]);
                        } else {
                            assert(self@[a] == s[a + 1] && self@[b] == s[b + 1]);
                        }
                    }
                }
                Some(id)
            },
            None => None,
        }
    }
}

proof fn lemma_rebuilds_prefix(q: Seq<u64>, k: nat)
    requires
        k <= q.len(),
    ensures
        after_rebuilds(q, k) == (q.skip(k as int) + q.take(k as int), q.take(k as int)),
    decreases k,
{
    if k == 0 {
        assert(q.skip(0) + q.take(0) =~= q);
        assert(q.take(0) =~= Seq::<u64>::empty());
    } else {
        let j = (k - 1) as nat;
        lemma_rebuilds_prefix(q, j);
        let q1 = q.skip(j as int) + q.take(j as int);
        assert(q1[0] == q[j as int]);
        assert(rotate_once(q1) =~= q.skip(k as int) + q.take(k as int));
        assert(q.take(j as int).push(q[j as int]) =~= q.take(k as int));
    }
}

/// Round-robin fairness: with `n` bodies queued, the next `n` rebuilds serve
/// every body exactly once, in queue order, and leave the queue as it was.
pub proof fn lemma_rebuilds_fair(q: Seq<u64>)
    requires
        q.no_duplicates(),
    ensures
        after_rebuilds(q, q.len()).0 == q,
        after_rebuilds(q, q.len()).1 == q,
        after_rebuilds(q, q.len()).1.no_duplicates(),
        forall|id: u64| #[trigger] after_rebuilds(q, q.len()).1.contains(id) == q.contains(id),
{
    lemma_rebuilds_prefix(q, q.len());
    assert(q.skip(q.len() as int) + q.take(q.len() as int) =~= q);
    assert(q.take(q.len() as int) =~= q);
}

} // verus!
