//! The session relay: consumers subscribe to it, and each envelope that the
//! transport publishes goes to every current subscriber, in the order in which
//! they subscribed.
use vstd::prelude::*;

verus! {

/// The subscriptions of a relay, by subscriber number.
pub struct SessionBus {
    subscribers: Vec<u64>,
    next: u64,
}

impl View for SessionBus {
    type V = Seq<u64>;

    closed spec fn view(&self) -> Seq<u64> {
        self.subscribers@
    }
}

impl SessionBus {
    /// Every subscriber number was handed out once, below the next one.
    pub closed spec fn wf(&self) -> bool {
        &&& forall|i: int| 0 <= i < self.subscribers@.len() ==> #[trigger] self.subscribers@[i] < self.next
        &&& forall|i: int, j: int|
            0 <= i < j < self.subscribers@.len() ==> #[trigger] self.subscribers@[i]
                != #[trigger] self.subscribers@[j]
    }

    /// How many subscriber numbers were handed out so far.
    pub closed spec fn issued(&self) -> u64 {
        self.next
    }

    /// A relay with no subscribers.
    pub fn new() -> (r: SessionBus)
        ensures
            r.wf(),
            r@.len() == 0,
            r.issued() == 0,
    {
        SessionBus { subscribers: Vec::new(), next: 0 }
    }

    /// Adds a subscriber at the end and gives its number, which no current
    /// subscriber has; `None` once every number has been handed out.
    pub fn subscribe(&mut self) -> (r: Option<u64>)
        requires
            old(self).wf(),
        ensures
            final(self).wf(),
            r is None <==> old(self).issued() == u64::MAX,
            r is Some ==> final(self).issued() == old(self).issued() + 1,
            r is None ==> final(self).issued() == old(self).issued(),
            match r {
                Some(id) => !old(self)@.contains(id) && final(self)@ == old(self)@.push(id),
                None => final(self)@ == old(self)@,
            },
    {
        if self.next == u64::MAX {
            return None;
        }
        let id = self.next;
        self.subscribers.push(id);
        self.next = self.next + 1;
        proof {
            if old(self)@.contains(id) {
                let k = choose|k: int| 0 <= k < old(self)@.len() && old(self)@[k] == id;
                assert(old(self).subscribers@[k] < old(self).next);
            }
        }
        Some(id)
    }

    /// Removes the subscriber numbered `id`, if there is one; the others
    /// keep their order.
    pub fn unsubscribe(&mut self, id: u64)
        requires
            old(self).wf(),
        ensures
            final(self).wf(),
            final(self).issued() == old(self).issued(),
            !final(self)@.contains(id),
            old(self)@.contains(id) ==> exists|k: int|
                0 <= k < old(self)@.len() && old(self)@[k] == id && final(self)@ == old(self)@.remove(k),
            !old(self)@.contains(id) ==> final(self)@ == old(self)@,
    {
        let mut i: usize = 0;
        while i < self.subscribers.len()
            invariant
                i <= self.subscribers@.len(),
                self.subscribers@ == old(self).subscribers@,
                self.next == old(self).next,
                self.wf(),
                forall|k: int| 0 <= k < i ==> #[trigger] self.subscribers@[k] != id,
            decreases self.subscribers@.len() - i,
        {
            if self.subscribers[i] == id {
                let ghost before = self.subscribers@;
                self.subscribers.remove(i);
                proof {
                    let after = self.subscribers@;
                    assert(after =~= before.remove(i as int));
                    assert forall|a: int| 0 <= a < after.len() implies #[trigger] after[a] != id by {
                        if a < i {
                            assert(after[a] == before[a]);
                        } else {
                            assert(after[a] == before[a + 1]);
                            assert(before[a + 1] != before[i as int]);
                        }
                    }
                    assert forall|a: int| 0 <= a < after.len() implies #[trigger] after[a] < self.next by {
                        if a < i {
                            assert(after[a] == before[a]);
                        } else {
                            assert(after[a] == before[a + 1]);
                        }
                    }
                    assert forall|a: int, b: int|
                        0 <= a < b < after.len() implies #[trigger] after[a] != #[trigger] after[b] by {
                        let a0 = if a < i { a } else { a + 1 };
                        let b0 = if b < i { b } else { b + 1 };
                        assert(after[a] == before[a0]);
                        assert(after[b] == before[b0]);
                    }
                    assert(old(self)@[i as int] == id);
                    assert(self@ =~= old(self)@.remove(i as int));
                }
                return;
            }
            i = i + 1;
        }
    }

    /// The subscribers that a published envelope goes to, in the order in
    /// which they subscribed.
    pub fn recipients(&self) -> (r: Vec<u64>)
        ensures
            r@ == self@,
    {
        self.subscribers.clone()
    }
}

} // verus!
