//! Task states, and the program break of a task's heap.
use vstd::prelude::*;
use crate::config::PAGE_SIZE;
use crate::mm::address::{VirtAddr, VPNRange, ceil_page};
use crate::mm::memory_set::{MemorySet, AreaView, is_first_area_at, has_area_at};

verus! {

/// The execution state of a task.
#[derive(Clone, Copy, PartialEq, Eq, Structural, Debug)]
pub enum TaskStatus {
    /// Not initialized.
    UnInit,
    /// Ready to run.
    Ready,
    /// Running.
    Running,
    /// Exited, waiting to be reaped by its parent.
    Zombie,
}

impl TaskStatus {
    /// Whether the task has exited.
    pub fn is_zombie(&self) -> (r: bool)
        ensures
            r == (*self == TaskStatus::Zombie),
    {
        match self {
            TaskStatus::Zombie => true,
            _ => false,
        }
    }
}

/// The heap of a task: it grows up from `heap_bottom` to the program break.
pub struct ProgramBreak {
    /// Where the heap starts.
    pub heap_bottom: u64,
    /// The current end of the heap.
    pub program_brk: u64,
}

/// What moving the break did to the heap area.
pub struct BrkChange {
    /// The break before the move.
    pub old_brk: u64,
    /// The pages that left the area (when it shrank) or joined it (when it
    /// grew).
    pub pages: VPNRange,
    /// The area grew.
    pub grown: bool,
}

/// The heap area, the first area starting at the page of the heap bottom,
/// ends at the page boundary at or above the break.
pub open spec fn heap_area_ok(areas: Seq<AreaView>, heap_bottom: u64, program_brk: u64) -> bool {
    forall|i: int|
        #[trigger] is_first_area_at(areas, heap_bottom / PAGE_SIZE, i) ==> areas[i].end == ceil_page(program_brk as int)
}

/// The break after moving it by `size` bytes, when it stays at or above the
/// heap bottom.
pub open spec fn moved_brk(heap_bottom: u64, program_brk: u64, size: i32) -> Option<u64> {
    if program_brk + size < heap_bottom {
        None
    } else {
        Some((program_brk + size) as u64)
    }
}

impl ProgramBreak {
    /// Whether the heap area of `memory_set` ends at the page boundary at or
    /// above the break, as `change_program_brk` needs.
    pub fn heap_area_consistent(&self, memory_set: &MemorySet) -> (r: bool)
        ensures
            r == heap_area_ok(memory_set@, self.heap_bottom, self.program_brk),
    {
        match memory_set.find_area_at(VirtAddr(self.heap_bottom).floor()) {
            None => true,
            Some(i) => {
                let end = memory_set.area(i).vpn_range().get_end();
                let brk = self.program_brk;
                let want: u64 = brk / PAGE_SIZE + if brk % PAGE_SIZE == 0 { 0 } else { 1 };
                proof {
                    assert(want == ceil_page(brk as int)) by (nonlinear_arith)
                        requires
                            want == brk / 4096 + if brk % 4096 == 0 { 0int } else { 1int },
                            ceil_page(brk as int) == (brk + 4095) / 4096,
                    ;
                    assert forall|j: int| #[trigger] is_first_area_at(memory_set@, self.heap_bottom / PAGE_SIZE, j) implies j == i by {
                        if j < i {
                            assert(memory_set@[j].start == self.heap_bottom / PAGE_SIZE);
                        } else if i < j {
                            assert(memory_set@[i as int].start == self.heap_bottom / PAGE_SIZE);
                        }
                    }
                }
                end.0 == want
            },
        }
    }

    /// Moves the break by `size` bytes (down when negative) and shrinks or
    /// grows the heap area of `memory_set` to end at the page boundary at or
    /// above the new break. Returns the old break, with the pages that left
    /// or joined the area. `None`, with nothing changed, when the break
    /// would fall below the heap bottom or no area starts at the heap bottom.
    pub fn change_program_brk(&mut self, memory_set: &mut MemorySet, size: i32) -> (r: Option<BrkChange>)
        requires
            1 <= old(self).heap_bottom <= old(self).program_brk,
            old(self).program_brk + 0x8000_0000 <= i64::MAX,
            heap_area_ok(old(memory_set)@, old(self).heap_bottom, old(self).program_brk),
        ensures
            final(self).heap_bottom == old(self).heap_bottom,
            moved_brk(old(self).heap_bottom, old(self).program_brk, size) is None
                || !has_area_at(old(memory_set)@, old(self).heap_bottom / PAGE_SIZE) ==> {
                &&& r is None
                &&& final(self).program_brk == old(self).program_brk
                &&& final(memory_set)@ == old(memory_set)@
            },
            moved_brk(old(self).heap_bottom, old(self).program_brk, size) matches Some(new_brk)
                ==> forall|i: int|
                #[trigger] is_first_area_at(old(memory_set)@, old(self).heap_bottom / PAGE_SIZE, i) ==> {
                    &&& final(self).program_brk == new_brk
                    &&& final(memory_set)@ == old(memory_set)@.update(
                        i,
                        AreaView { end: ceil_page(new_brk as int) as u64, ..old(memory_set)@[i] },
                    )
                    &&& r is Some
                    &&& r->0.old_brk == old(self).program_brk
                    &&& r->0.grown == (size >= 0)
                    &&& (size < 0 ==> r->0.pages.start().0 == ceil_page(new_brk as int) && r->0.pages.end().0
                        == old(memory_set)@[i].end)
                    &&& (size >= 0 ==> r->0.pages.start().0 == old(memory_set)@[i].end && r->0.pages.end().0
                        == ceil_page(new_brk as int))
                },
            heap_area_ok(final(memory_set)@, final(self).heap_bottom, final(self).program_brk),
    {
        let old_brk = self.program_brk;
        let heap_bottom = self.heap_bottom;
        let new_brk_signed: i64 = old_brk as i64 + size as i64;
        if new_brk_signed < heap_bottom as i64 {
            return None;
        }
        let new_brk = new_brk_signed as u64;
        assert(moved_brk(heap_bottom, old_brk, size) == Some(new_brk));
        let ghost areas = memory_set@;
        let ghost new_end = ceil_page(new_brk as int);
        proof {
            assert(new_end >= heap_bottom / PAGE_SIZE) by (nonlinear_arith)
                requires new_brk >= heap_bottom, new_end == (new_brk + 4095) / 4096;
            assert(ceil_page(old_brk as int) >= heap_bottom / PAGE_SIZE) by (nonlinear_arith)
                requires old_brk >= heap_bottom, ceil_page(old_brk as int) == (old_brk + 4095) / 4096;
            if size < 0 {
                assert(new_end <= ceil_page(old_brk as int)) by (nonlinear_arith)
                    requires new_brk <= old_brk, new_end == (new_brk + 4095) / 4096,
                        ceil_page(old_brk as int) == (old_brk + 4095) / 4096;
            } else {
                assert(new_end >= ceil_page(old_brk as int)) by (nonlinear_arith)
                    requires new_brk >= old_brk, new_end == (new_brk + 4095) / 4096,
                        ceil_page(old_brk as int) == (old_brk + 4095) / 4096;
            }
        }
        let result = if size < 0 {
            memory_set.shrink_to(VirtAddr(heap_bottom), VirtAddr(new_brk))
        } else {
            memory_set.append_to(VirtAddr(heap_bottom), VirtAddr(new_brk))
        };
        match result {
            Some(pages) => {
                proof {
                    let i = choose|i: int| #[trigger] is_first_area_at(areas, heap_bottom / PAGE_SIZE, i);
                    assert(memory_set@ == areas.update(i, AreaView { end: new_end as u64, ..areas[i] }));
                    assert forall|j: int| #[trigger] is_first_area_at(memory_set@, heap_bottom / PAGE_SIZE, j) implies
                        memory_set@[j].end == new_end by {
                        assert(is_first_area_at(areas, heap_bottom / PAGE_SIZE, j)) by {
                            assert forall|k: int| 0 <= k < j implies areas[k].start != heap_bottom / PAGE_SIZE by {
                                assert(memory_set@[k].start == areas[k].start);
                            }
                        }
                    }
                    assert forall|i2: int| #[trigger] is_first_area_at(areas, heap_bottom / PAGE_SIZE, i2) implies i2 == i by {
                        if i2 < i {
                            assert(areas[i2].start == heap_bottom / PAGE_SIZE);
                        } else if i < i2 {
                            assert(areas[i].start == heap_bottom / PAGE_SIZE);
                        }
                    }
                }
                self.program_brk = new_brk;
                assert(heap_area_ok(memory_set@, self.heap_bottom, self.program_brk));
                Some(BrkChange { old_brk, pages, grown: size >= 0 })
            },
            None => None,
        }
    }
}

} // verus!
