//! A fixed-capacity first-in-first-out queue of the most recently seen
//! URLs: the oldest entry is evicted when a push would overflow. The queue
//! can be rebuilt from a persisted snapshot of its contents.

use vstd::prelude::*;

verus! {

/// How many URLs the queue holds at most.
pub const QUEUE_CAPACITY: usize = 5;

/// The most recently seen URLs, oldest first.
pub struct RecentUrlQueue {
    items: Vec<String>,
}

impl View for RecentUrlQueue {
    type V = Seq<Seq<char>>;

    closed spec fn view(&self) -> Seq<Seq<char>> {
        self.items.deep_view()
    }
}

impl RecentUrlQueue {
    /// The queue never holds more than its capacity.
    pub open spec fn wf(self) -> bool {
        self@.len() <= QUEUE_CAPACITY
    }

    /// An empty queue.
    pub fn new() -> (q: Self)
        ensures
            q.wf(),
            q@ == Seq::<Seq<char>>::empty(),
    {
        let q = RecentUrlQueue { items: Vec::new() };
        proof {
            assert(q@ =~= Seq::<Seq<char>>::empty());
        }
        q
    }

    /// How many URLs are queued.
    pub fn len(&self) -> (n: usize)
        ensures
            n == self@.len(),
    {
        self.items.len()
    }

    /// Append `item` at the back; when the queue is full, the oldest entry
    /// is evicted first.
    pub fn push(&mut self, item: String)
        requires
            old(self).wf(),
        ensures
            final(self).wf(),
            final(self)@ == if old(self)@.len() < QUEUE_CAPACITY {
                old(self)@.push(item@)
            } else {
                old(self)@.skip(1).push(item@)
            },
    {
        let ghost pre = self.items.deep_view();
        if self.items.len() >= QUEUE_CAPACITY {
            self.items.remove(0);
            proof {
                pre.remove_ensures(0);
                assert(self.items.deep_view() =~= pre.skip(1));
            }
        }
        let ghost mid = self.items.deep_view();
        self.items.push(item);
        proof {
            assert(self.items.deep_view() =~= mid.push(item@));
        }
    }

    /// A copy of the contents, oldest first.
    pub fn snapshot(&self) -> (r: Vec<String>)
        ensures
            r.deep_view() == self@,
    {
        let n = self.items.len();
        let mut r: Vec<String> = Vec::new();
        let mut i: usize = 0;
        while i < n
            invariant
                n == self.items@.len(),
                i <= n,
                r@.len() == i,
                forall|k: int| 0 <= k < i ==> r.deep_view()[k] == self.items.deep_view()[k],
            decreases n - i,
        {
            let ghost rpre = r@;
            let ghost rdvpre = r.deep_view();
            let c = self.items[i].clone();
            let ghost cv = c@;
            r.push(c);
            proof {
                assert forall|k: int|
                    0 <= k <= i implies r.deep_view()[k] == self.items.deep_view()[k] by {
                    assert(r.deep_view()[k] == r@[k]@);
                    assert(self.items.deep_view()[k] == self.items@[k]@);
                    if k < i {
                        assert(r@[k] == rpre[k]);
                        assert(rdvpre[k] == rpre[k]@);
                    } else {
                        assert(r@[k]@ == cv);
                        assert(cv == self.items@[k]@);
                    }
                }
            }
            i += 1;
        }
        proof {
            assert(r.deep_view() =~= self.items.deep_view());
        }
        r
    }

    /// Rebuild a queue from a persisted snapshot, keeping at most the first
    /// `QUEUE_CAPACITY` entries.
    pub fn from_snapshot(urls: Vec<String>) -> (q: Self)
        ensures
            q.wf(),
            q@ == if urls.deep_view().len() <= QUEUE_CAPACITY {
                urls.deep_view()
            } else {
                urls.deep_view().take(QUEUE_CAPACITY as int)
            },
    {
        let ghost whole = urls.deep_view();
        let mut items = urls;
        items.truncate(QUEUE_CAPACITY);
        proof {
            if whole.len() > QUEUE_CAPACITY {
                assert(items.deep_view() =~= whole.take(QUEUE_CAPACITY as int));
            } else {
                assert(items.deep_view() =~= whole);
            }
        }
        RecentUrlQueue { items }
    }
}

} // verus!
