//! The allocator of physical page frames: frames are handed out from a
//! range in increasing order, and frames given back are reused first, the
//! most recently returned one first.
use vstd::prelude::*;
use crate::mm::address::{PhysPageNum, ppn_limit};

verus! {

/// A stack-based allocator of physical page frames.
pub struct StackFrameAllocator {
    current: u64,
    end: u64,
    recycled: Vec<u64>,
}

impl StackFrameAllocator {
    /// The next frame never handed out.
    pub closed spec fn current_spec(&self) -> u64 {
        self.current
    }

    /// The end of the range of frames.
    pub closed spec fn end_spec(&self) -> u64 {
        self.end
    }

    /// The frames given back, the next one to reuse last.
    pub closed spec fn recycled_spec(&self) -> Seq<u64> {
        self.recycled@
    }

    /// The frame numbers handed out and not given back.
    pub open spec fn allocated(&self) -> Set<u64> {
        Set::new(|p: u64| p < self.current_spec() && !self.recycled_spec().contains(p))
    }

    /// Frames given back were handed out before, and each once.
    pub open spec fn wf(&self) -> bool {
        &&& self.current_spec() <= self.end_spec()
        &&& forall|i: int| 0 <= i < self.recycled_spec().len() ==> #[trigger] self.recycled_spec()[i] < self.current_spec()
        &&& self.recycled_spec().no_duplicates()
    }

    /// An allocator with no frame to hand out.
    pub fn new() -> (r: Self)
        ensures
            r.wf(),
            r.current_spec() == 0,
            r.end_spec() == 0,
            r.recycled_spec() == Seq::<u64>::empty(),
    {
        StackFrameAllocator { current: 0, end: 0, recycled: Vec::new() }
    }

    /// Sets the range of frames to hand out to `[l, r)`.
    pub fn init(&mut self, l: PhysPageNum, r: PhysPageNum)
        requires
            old(self).recycled_spec().len() == 0,
            l.0 <= r.0,
        ensures
            final(self).wf(),
            final(self).current_spec() == l.0,
            final(self).end_spec() == r.0,
            final(self).recycled_spec() == old(self).recycled_spec(),
    {
        self.current = l.0;
        self.end = r.0;
    }

    /// Hands out a frame: the most recently given back one if any, else the
    /// next fresh one, else `None`.
    pub fn allocate(&mut self) -> (r: Option<PhysPageNum>)
        requires
            old(self).wf(),
        ensures
            final(self).wf(),
            final(self).end_spec() == old(self).end_spec(),
            old(self).recycled_spec().len() > 0 ==> {
                &&& r == Some(PhysPageNum((old(self).recycled_spec().last() as int % ppn_limit()) as u64))
                &&& final(self).recycled_spec() == old(self).recycled_spec().drop_last()
                &&& final(self).current_spec() == old(self).current_spec()
            },
            old(self).recycled_spec().len() == 0 && old(self).current_spec() == old(self).end_spec() ==> {
                &&& r.is_none()
                &&& final(self).recycled_spec() == old(self).recycled_spec()
                &&& final(self).current_spec() == old(self).current_spec()
            },
            old(self).recycled_spec().len() == 0 && old(self).current_spec() < old(self).end_spec() ==> {
                &&& r == Some(PhysPageNum((old(self).current_spec() as int % ppn_limit()) as u64))
                &&& final(self).recycled_spec() == old(self).recycled_spec()
                &&& final(self).current_spec() == old(self).current_spec() + 1
            },
    {
        if let Some(ppn) = self.recycled.pop() {
            proof {
                assert(self.recycled@ =~= old(self).recycled@.drop_last());
                assert forall|i: int| 0 <= i < self.recycled@.len() implies #[trigger] self.recycled@[i] < self.current by {
                    assert(self.recycled@[i] == old(self).recycled@[i]);
                }
            }
            Some(PhysPageNum::from(ppn))
        } else if self.current == self.end {
            None
        } else {
            self.current = self.current + 1;
            Some(PhysPageNum::from(self.current - 1))
        }
    }

    /// Takes back the frame `ppn`, which must have been handed out and not
    /// given back since.
    pub fn dealloc(&mut self, ppn: PhysPageNum)
        requires
            old(self).wf(),
            old(self).allocated().contains(ppn.0),
        ensures
            final(self).wf(),
            final(self).current_spec() == old(self).current_spec(),
            final(self).end_spec() == old(self).end_spec(),
            final(self).recycled_spec() == old(self).recycled_spec().push(ppn.0),
    {
        let ppn = ppn.0;
        self.recycled.push(ppn);
        proof {
            assert forall|i: int, j: int| 0 <= i < j < self.recycled@.len() implies self.recycled@[i] != self.recycled@[j] by {
                if j == self.recycled@.len() - 1 {
                    assert(self.recycled@[i] == old(self).recycled@[i]);
                    assert(old(self).recycled@.contains(self.recycled@[i]));
                }
            }
        }
    }
}

/// A frame that is handed out was not handed out before: it lies outside
/// the set of allocated frames beforehand and inside it afterwards, and the
/// frames allocated before stay allocated.
pub proof fn lemma_alloc_is_fresh(a: StackFrameAllocator, b: StackFrameAllocator, n: u64)
    requires
        a.wf(),
        b.wf(),
        b.end_spec() == a.end_spec(),
        (a.recycled_spec().len() > 0 && n == a.recycled_spec().last()
            && b.recycled_spec() == a.recycled_spec().drop_last() && b.current_spec() == a.current_spec())
        || (a.recycled_spec().len() == 0 && n == a.current_spec() && a.current_spec() < a.end_spec()
            && b.recycled_spec() == a.recycled_spec() && b.current_spec() == a.current_spec() + 1),
    ensures
        !a.allocated().contains(n),
        b.allocated().contains(n),
        b.allocated() == a.allocated().insert(n),
{
    if a.recycled_spec().len() > 0 {
        let s = a.recycled_spec();
        assert(s.contains(n)) by {
            assert(s[s.len() - 1] == n);
        }
        assert(!b.recycled_spec().contains(n)) by {
            if b.recycled_spec().contains(n) {
                let i = choose|i: int| 0 <= i < b.recycled_spec().len() && b.recycled_spec()[i] == n;
                assert(s[i] == s[s.len() - 1]);
            }
        }
        assert forall|p: u64| b.allocated().contains(p) == a.allocated().insert(n).contains(p) by {
            if p != n {
                if s.contains(p) {
                    let i = choose|i: int| 0 <= i < s.len() && s[i] == p;
                    assert(i < s.len() - 1);
                    assert(b.recycled_spec()[i] == p);
                }
                if b.recycled_spec().contains(p) {
                    let i = choose|i: int| 0 <= i < b.recycled_spec().len() && b.recycled_spec()[i] == p;
                    assert(s[i] == p);
                }
            }
        }
    } else {
        assert forall|p: u64| b.allocated().contains(p) == a.allocated().insert(n).contains(p) by {
        }
    }
    assert(b.allocated() =~= a.allocated().insert(n));
}

/// Giving a frame back takes it out of the set of allocated frames.
pub proof fn lemma_dealloc_frees(a: StackFrameAllocator, b: StackFrameAllocator, n: u64)
    requires
        a.wf(),
        a.allocated().contains(n),
        b.current_spec() == a.current_spec(),
        b.recycled_spec() == a.recycled_spec().push(n),
    ensures
        b.allocated() == a.allocated().remove(n),
{
    let s = a.recycled_spec();
    assert forall|p: u64| b.allocated().contains(p) == a.allocated().remove(n).contains(p) by {
        if b.recycled_spec().contains(p) && p != n {
            let i = choose|i: int| 0 <= i < b.recycled_spec().len() && b.recycled_spec()[i] == p;
            assert(i < s.len());
            assert(s[i] == p);
        }
        if s.contains(p) {
            let i = choose|i: int| 0 <= i < s.len() && s[i] == p;
            assert(b.recycled_spec()[i] == p);
        }
        if p == n {
            assert(b.recycled_spec()[s.len() as int] == n);
        }
    }
    assert(b.allocated() =~= a.allocated().remove(n));
}

} // verus!
