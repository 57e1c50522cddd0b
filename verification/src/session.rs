//! Open sessions under handles that are never given out twice.

use vstd::prelude::*;

verus! {

/// Open sessions, each under its handle.
pub struct Sessions<T> {
    last: u64,
    open: Vec<(u64, T)>,
}

impl<T> Sessions<T> {
    /// The highest handle given out so far.
    pub closed spec fn last_handle(&self) -> u64 {
        self.last
    }

    /// What is open, by its handle.
    pub closed spec fn held(&self) -> Map<u64, T> {
        Map::new(
            |h: u64| exists|i: int| 0 <= i < self.open@.len() && (#[trigger] self.open@[i]).0 == h,
            |h: u64|
                self.open@[choose|i: int| 0 <= i < self.open@.len() && (#[trigger] self.open@[i]).0 == h].1,
        )
    }

    /// No handle is open twice, none is zero, and none is above the last.
    pub closed spec fn wf(&self) -> bool {
        &&& forall|i: int|
            0 <= i < self.open@.len() ==> 0 < (#[trigger] self.open@[i]).0 <= self.last
        &&& forall|i: int, j: int|
            0 <= i < j < self.open@.len() ==> (#[trigger] self.open@[i]).0 != (
            #[trigger] self.open@[j]).0
    }

    /// Whether no handle that was given out by `before` is above those of
    /// this: it comes after `before`.
    pub open spec fn comes_after(&self, before: Sessions<T>) -> bool {
        before.last_handle() <= self.last_handle()
    }

    /// What is open was given its handle: none is zero, and none is above the
    /// last.
    pub proof fn law_open_handles_were_given(self)
        requires
            self.wf(),
        ensures
            forall|h: u64| #[trigger]
                self.held().dom().contains(h) ==> 0 < h <= self.last_handle(),
    {
        assert forall|h: u64| #[trigger] self.held().dom().contains(h) implies 0 < h
            <= self.last_handle() by {
            let i = choose|i: int| 0 <= i < self.open@.len() && (#[trigger] self.open@[i]).0 == h;
            assert(0 < self.open@[i].0 <= self.last);
        }
    }

    /// A handle that was open is never given again, whatever is opened and
    /// closed later, and though it is closed itself.
    pub proof fn law_handles_are_not_given_again(self, later: Sessions<T>, handle: u64)
        requires
            self.wf(),
            self.held().dom().contains(handle),
            later.comes_after(self),
        ensures
            handle != later.last_handle() + 1,
    {
        self.law_open_handles_were_given();
    }

    /// Nothing is open.
    pub fn new() -> (r: Sessions<T>)
        ensures
            r.wf(),
            r.last_handle() == 0,
            r.held() == Map::<u64, T>::empty(),
    {
        let r = Sessions { last: 0, open: Vec::new() };
        assert(r.held() =~= Map::<u64, T>::empty());
        r
    }

    /// The highest handle given out so far.
    pub fn last_given(&self) -> (r: u64)
        ensures
            r == self.last_handle(),
    {
        self.last
    }

    /// Opens a session under the next handle.
    pub fn register(&mut self, value: T) -> (r: u64)
        requires
            old(self).wf(),
            old(self).last_handle() < u64::MAX,
        ensures
            final(self).wf(),
            r == old(self).last_handle() + 1,
            final(self).last_handle() == r,
            !old(self).held().dom().contains(r),
            final(self).held() == old(self).held().insert(r, value),
            final(self).comes_after(*old(self)),
    {
        let ghost before = self.open@;
        let ghost was = self.held();
        self.last = self.last + 1;
        let handle: u64 = self.last;
        self.open.push((handle, value));
        proof {
            let now = self.held();
            let after = self.open@;
            assert(after[before.len() as int].0 == handle);
            assert forall|h: u64| #[trigger] now.dom().contains(h) <==> was.insert(
                handle,
                value,
            ).dom().contains(h) by {
                if now.dom().contains(h) {
                    let i = choose|i: int| 0 <= i < after.len() && (#[trigger] after[i]).0 == h;
                    if i < before.len() {
                        assert(before[i].0 == h);
                    }
                }
                if was.dom().contains(h) {
                    let i = choose|i: int| 0 <= i < before.len() && (#[trigger] before[i]).0 == h;
                    assert(after[i].0 == h);
                }
            }
            assert forall|h: u64| now.dom().contains(h) implies #[trigger] now[h] == was.insert(
                handle,
                value,
            )[h] by {
                let i = choose|i: int| 0 <= i < after.len() && (#[trigger] after[i]).0 == h;
                if h == handle {
                    if i < before.len() {
                        assert(before[i].0 <= old(self).last);
                    }
                } else {
                    assert(i < before.len());
                    assert(before[i].0 == h);
                    let k = choose|k: int| 0 <= k < before.len() && (#[trigger] before[k]).0 == h;
                    if k < i {
                        assert(before[k].0 != before[i].0);
                    }
                    if i < k {
                        assert(before[i].0 != before[k].0);
                    }
                }
            }
            assert(now =~= was.insert(handle, value));
        }
        handle
    }

    /// What is open under a handle.
    pub fn get(&self, handle: u64) -> (r: Option<&T>)
        requires
            self.wf(),
        ensures
            match r {
                Some(value) => self.held().dom().contains(handle) && *value == self.held()[handle],
                None => !self.held().dom().contains(handle),
            },
    {
        let mut i: usize = 0;
        while i < self.open.len()
            invariant
                self.wf(),
                i <= self.open.len(),
                forall|j: int| 0 <= j < i ==> (#[trigger] self.open@[j]).0 != handle,
            decreases self.open.len() - i,
        {
            if self.open[i].0 == handle {
                proof {
                    assert(self.open@[i as int].0 == handle);
                    let k = choose|k: int|
                        0 <= k < self.open@.len() && (#[trigger] self.open@[k]).0 == handle;
                    assert(k == i) by {
                        if k < i {
                            assert(self.open@[k].0 != self.open@[i as int].0);
                        }
                        if i < k {
                            assert(self.open@[i as int].0 != self.open@[k].0);
                        }
                    }
                }
                return Some(&self.open[i].1);
            }
            i = i + 1;
        }
        None
    }

    /// Closes a session. A handle that is not open is passed over.
    pub fn close(&mut self, handle: u64)
        requires
            old(self).wf(),
        ensures
            final(self).wf(),
            final(self).last_handle() == old(self).last_handle(),
            final(self).held() == old(self).held().remove(handle),
            final(self).comes_after(*old(self)),
    {
        let ghost before = self.open@;
        let ghost was = self.held();
        let mut i: usize = 0;
        while i < self.open.len()
            invariant
                self.wf(),
                *self == *old(self),
                before == self.open@,
                was == self.held(),
                i <= self.open.len(),
                forall|j: int| 0 <= j < i ==> (#[trigger] before[j]).0 != handle,
            decreases self.open.len() - i,
        {
            if self.open[i].0 == handle {
                self.open.remove(i);
                proof {
                    self.lemma_removed(*old(self), i as int, handle);
                }
                return;
            }
            i = i + 1;
        }
        assert(was.remove(handle) =~= was);
    }

    proof fn lemma_removed(self, before: Sessions<T>, at: int, handle: u64)
        requires
            before.wf(),
            0 <= at < before.open@.len(),
            before.open@[at].0 == handle,
            self.last == before.last,
            self.open@ == before.open@.remove(at),
        ensures
            self.wf(),
            self.held() == before.held().remove(handle),
    {
        let a = before.open@;
        let b = self.open@;
        assert forall|i: int| 0 <= i < b.len() implies (#[trigger] b[i]) == a[if i < at {
            i
        } else {
            i + 1
        }] by {}
        assert(self.wf()) by {
            assert forall|i: int, j: int| 0 <= i < j < b.len() implies (#[trigger] b[i]).0 != (
            #[trigger] b[j]).0 by {
                let i0 = if i < at {
                    i
                } else {
                    i + 1
                };
                let j0 = if j < at {
                    j
                } else {
                    j + 1
                };
                assert(a[i0].0 != a[j0].0);
            }
            assert forall|i: int| 0 <= i < b.len() implies 0 < (#[trigger] b[i]).0 <= self.last by {
                let i0 = if i < at {
                    i
                } else {
                    i + 1
                };
                assert(0 < a[i0].0 <= before.last);
            }
        }
        let was = before.held();
        let now = self.held();
        assert forall|h: u64| #[trigger] now.dom().contains(h) <==> was.remove(
            handle,
        ).dom().contains(h) by {
            if now.dom().contains(h) {
                let i = choose|i: int| 0 <= i < b.len() && (#[trigger] b[i]).0 == h;
                let i0 = if i < at {
                    i
                } else {
                    i + 1
                };
                assert(a[i0].0 == h);
                if i0 < at {
                    assert(a[i0].0 != a[at].0);
                } else {
                    assert(a[at].0 != a[i0].0);
                }
            }
            if was.remove(handle).dom().contains(h) {
                let i0 = choose|i: int| 0 <= i < a.len() && (#[trigger] a[i]).0 == h;
                let i = if i0 < at {
                    i0
                } else {
                    i0 - 1
                };
                assert(b[i].0 == h);
            }
        }
        assert forall|h: u64| now.dom().contains(h) implies #[trigger] now[h] == was.remove(
            handle,
        )[h] by {
            let i = choose|i: int| 0 <= i < b.len() && (#[trigger] b[i]).0 == h;
            let i0 = if i < at {
                i
            } else {
                i + 1
            };
            assert(a[i0].0 == h);
            let k = choose|k: int| 0 <= k < a.len() && (#[trigger] a[k]).0 == h;
            if k < i0 {
                assert(a[k].0 != a[i0].0);
            }
            if i0 < k {
                assert(a[i0].0 != a[k].0);
            }
        }
        assert(now =~= was.remove(handle));
    }
}

} // verus!
