//! The decisions of the process-management system calls.
use vstd::prelude::*;
use crate::config::PAGE_SIZE;
use crate::mm::address::VirtAddr;
use crate::mm::map::{parse_prot_flags, permission_of_prot};
use crate::mm::memory_set::{MapPermission, va_of, MAP_R, MAP_W, MAP_X, MAP_U};
use crate::mm::mmap_area::{
    MmapArea, MmapAreaManager, request_ok, request_pages, neighbours_overlap, areas_insert, lower_bound, areas_sorted,
    lemma_lower_bound,
};
use crate::mm::address::VirtPageNum;

verus! {

/// Microseconds per second.
pub const MICRO_PER_SEC: usize = 1_000_000;

/// A time as seconds and microseconds.
#[derive(Clone, Copy, PartialEq, Eq, Structural, Debug)]
pub struct TimeVal {
    /// Whole seconds.
    pub sec: usize,
    /// Microseconds past the second.
    pub usec: usize,
}

/// The time `us` microseconds after boot, as `get_time` reports it.
pub fn sys_get_time(us: usize) -> (r: TimeVal)
    ensures
        r.sec == us / MICRO_PER_SEC,
        r.usec == us % MICRO_PER_SEC,
        r.sec * MICRO_PER_SEC + r.usec == us,
        r.usec < MICRO_PER_SEC,
{
    let r = TimeVal { sec: us / MICRO_PER_SEC, usec: us % MICRO_PER_SEC };
    proof {
        vstd::arithmetic::div_mod::lemma_fundamental_div_mod(us as int, MICRO_PER_SEC as int);
    }
    r
}

/// A child of the calling process, as `waitpid` looks at it.
#[derive(Clone, Copy, PartialEq, Eq, Structural, Debug)]
pub struct ChildState {
    /// The child's pid.
    pub pid: usize,
    /// The child has exited.
    pub zombie: bool,
    /// The child's exit code.
    pub exit_code: i32,
}

/// What `waitpid` finds.
#[derive(Clone, Copy, PartialEq, Eq, Structural, Debug)]
pub enum WaitOutcome {
    /// No child has the pid asked for: the call returns -1.
    NoSuchChild,
    /// Children with the pid asked for exist, but none has exited: the call
    /// returns -2.
    StillRunning,
    /// The child at `index` has exited: it is removed, its exit code written
    /// back, and its pid returned.
    Reaped { index: usize, pid: usize, exit_code: i32 },
}

/// `child` is one `waitpid(pid)` waits for: any child for -1, else the one
/// with that pid.
pub open spec fn waits_for(pid: isize, child: ChildState) -> bool {
    pid == -1 || pid as usize == child.pid
}

/// `index` is the first exited child that `waitpid(pid)` waits for.
pub open spec fn first_reapable(children: Seq<ChildState>, pid: isize, index: int) -> bool {
    &&& 0 <= index < children.len()
    &&& children[index].zombie && waits_for(pid, children[index])
    &&& forall|j: int| 0 <= j < index ==> !(#[trigger] children[j].zombie && waits_for(pid, children[j]))
}

impl WaitOutcome {
    /// The value `waitpid` returns.
    pub fn ret(&self) -> (r: isize)
        ensures
            *self == WaitOutcome::NoSuchChild ==> r == -1,
            *self == WaitOutcome::StillRunning ==> r == -2,
            self matches WaitOutcome::Reaped { pid, .. } ==> r == pid as isize,
    {
        match self {
            WaitOutcome::NoSuchChild => -1,
            WaitOutcome::StillRunning => -2,
            WaitOutcome::Reaped { pid, .. } => *pid as isize,
        }
    }
}

/// Which child `waitpid(pid)` reaps among `children`: the first exited one
/// it waits for.
pub fn sys_waitpid(children: &[ChildState], pid: isize) -> (r: WaitOutcome)
    ensures
        (forall|j: int| 0 <= j < children@.len() ==> !waits_for(pid, #[trigger] children@[j])) <==> r
            == WaitOutcome::NoSuchChild,
        r == WaitOutcome::StillRunning <==> (exists|j: int|
            0 <= j < children@.len() && waits_for(pid, #[trigger] children@[j])) && (forall|j: int|
            0 <= j < children@.len() ==> !(#[trigger] children@[j].zombie && waits_for(pid, children@[j]))),
        r matches WaitOutcome::Reaped { index, pid: p, exit_code } ==> {
            &&& first_reapable(children@, pid, index as int)
            &&& p == children@[index as int].pid
            &&& exit_code == children@[index as int].exit_code
        },
{
    let mut any = false;
    let mut i: usize = 0;
    while i < children.len()
        invariant
            i <= children@.len(),
            any <==> exists|j: int| 0 <= j < i && waits_for(pid, #[trigger] children@[j]),
            forall|j: int| 0 <= j < i ==> !(#[trigger] children@[j].zombie && waits_for(pid, children@[j])),
        decreases children@.len() - i,
    {
        let c = children[i];
        let matches = pid == -1 || pid as usize == c.pid;
        if matches {
            any = true;
            if c.zombie {
                return WaitOutcome::Reaped { index: i, pid: c.pid, exit_code: c.exit_code };
            }
        }
        i = i + 1;
    }
    if any {
        WaitOutcome::StillRunning
    } else {
        WaitOutcome::NoSuchChild
    }
}

/// What `mmap(start, len, prot)` returns and does to the areas: 0 and
/// nothing for an empty request; -1 for protection bits beyond read, write
/// and execute, for no protection at all, or for an unaligned start; else
/// what recording the area does, with the start taken as an SV39 address
/// and the permission user-accessible plus the protection's bits.
pub open spec fn mmap_result(areas: Seq<MmapArea>, start: usize, len: usize, prot: usize) -> (i64, Seq<MmapArea>) {
    let va = va_of(start as u64);
    let p = prot as u8;
    if len == 0 {
        (0i64, areas)
    } else if prot >= 8 || p == 0 || va % PAGE_SIZE != 0 {
        (-1i64, areas)
    } else {
        let (s, e) = request_pages(va, len as u64);
        if neighbours_overlap(areas, s, e) {
            (-1i64, areas)
        } else {
            (
                0i64,
                areas_insert(
                    areas,
                    MmapArea {
                        start_vpn: VirtPageNum(s),
                        end_vpn: VirtPageNum(e),
                        permission: MapPermission::from_bits_spec(permission_of_prot(p)),
                    },
                ),
            )
        }
    }
}

/// Anonymous mapping: checks the arguments and records the area.
pub fn sys_mmap(areas: &mut MmapAreaManager, start: usize, len: usize, prot: usize) -> (r: isize)
    requires
        old(areas).wf(),
        len > 0 ==> request_ok(va_of(start as u64), len as u64),
    ensures
        final(areas).wf(),
        r as i64 == mmap_result(old(areas)@, start, len, prot).0,
        final(areas)@ == mmap_result(old(areas)@, start, len, prot).1,
{
    if len == 0 {
        return 0;
    }
    let start_va = VirtAddr::from(start as u64);
    match parse_prot_flags(prot) {
        Some(flags) => {
            if flags.is_empty() || !start_va.aligned() {
                return -1;
            }
            let permission = MapPermission::from(flags);
            let r = areas.mmap(start_va, len as u64, permission);
            r as isize
        },
        None => -1,
    }
}

/// What `munmap(start, len)` returns and does to the areas: 0 and nothing
/// for an empty request; -1 for an unaligned start; else what forgetting
/// the area does, with the start taken as an SV39 address.
pub open spec fn munmap_result(areas: Seq<MmapArea>, start: usize, len: usize) -> (i64, Seq<MmapArea>) {
    let va = va_of(start as u64);
    if len == 0 {
        (0i64, areas)
    } else if va % PAGE_SIZE != 0 {
        (-1i64, areas)
    } else {
        let (s, e) = request_pages(va, len as u64);
        let i = lower_bound(areas, s);
        if i < areas.len() && areas[i].start_vpn.0 == s && areas[i].end_vpn.0 == e {
            (0i64, areas.remove(i))
        } else {
            (-1i64, areas)
        }
    }
}

/// Anonymous unmapping: checks the start and forgets the area.
pub fn sys_munmap(areas: &mut MmapAreaManager, start: usize, len: usize) -> (r: isize)
    requires
        old(areas).wf(),
        len > 0 ==> request_ok(va_of(start as u64), len as u64),
    ensures
        final(areas).wf(),
        r as i64 == munmap_result(old(areas)@, start, len).0,
        final(areas)@ == munmap_result(old(areas)@, start, len).1,
{
    if len == 0 {
        return 0;
    }
    let start_va = VirtAddr::from(start as u64);
    if !start_va.aligned() {
        return -1;
    }
    let r = areas.munmap(start_va, len as u64);
    r as isize
}

/// `set_priority(prio)`: a priority from 2 to 255 is taken and returned;
/// anything else is refused with -1 (a priority is kept in a byte). Returns
/// the call's value and the new priority.
pub fn sys_set_priority(prio: isize) -> (r: (isize, Option<u8>))
    ensures
        2 <= prio <= 255 ==> r == (prio, Some(prio as u8)),
        !(2 <= prio <= 255) ==> r == (-1isize, None::<u8>),
{
    if 2 <= prio && prio <= 255 {
        (prio, Some(prio as u8))
    } else {
        (-1, None)
    }
}


/// A successful `mmap` of a non-empty range records an area over the
/// request's pages whose permission is user-accessible and readable,
/// writable and executable exactly as bits 0, 1 and 2 of `prot` ask; `prot`
/// then names at least one of them and nothing else.
pub proof fn lemma_mmap_permission(areas: Seq<MmapArea>, start: usize, len: usize, prot: usize)
    requires
        areas_sorted(areas),
        len > 0,
        mmap_result(areas, start, len, prot).0 == 0,
    ensures
        0 < prot < 8,
        exists|i: int|
            0 <= i < mmap_result(areas, start, len, prot).1.len() && {
                let a = #[trigger] mmap_result(areas, start, len, prot).1[i];
                let b = a.permission@;
                &&& a.start_vpn.0 == request_pages(va_of(start as u64), len as u64).0
                &&& a.end_vpn.0 == request_pages(va_of(start as u64), len as u64).1
                &&& b & MAP_U != 0
                &&& (b & MAP_R != 0) == (prot & 1 != 0)
                &&& (b & MAP_W != 0) == (prot & 2 != 0)
                &&& (b & MAP_X != 0) == (prot & 4 != 0)
            },
{
    let va = va_of(start as u64);
    let (s0, e0) = request_pages(va, len as u64);
    let p = prot as u8;
    assert(prot < 8 && p != 0);
    assert(prot < 8 ==> (prot as u8) & 1 != 0 == (prot & 1 != 0) && (prot as u8) & 2 != 0 == (prot & 2 != 0)
        && (prot as u8) & 4 != 0 == (prot & 4 != 0)) by (bit_vector);
    let a = MmapArea {
        start_vpn: VirtPageNum(s0),
        end_vpn: VirtPageNum(e0),
        permission: MapPermission::from_bits_spec(permission_of_prot(p)),
    };
    MapPermission::lemma_from_bits_spec(a.permission, permission_of_prot(p));
    let b = permission_of_prot(p) & 30u8;
    assert(b == a.permission@);
    assert(p < 8 ==> {
        let b2 = ((16u8 | (if p & 1 != 0 { 2u8 } else { 0u8 }) | (if p & 2 != 0 { 4u8 } else { 0u8 }) | (if p & 4
            != 0 { 8u8 } else { 0u8 })) as u8) & 30u8;
        &&& b2 & 16u8 != 0
        &&& (b2 & 2u8 != 0) == (p & 1 != 0)
        &&& (b2 & 4u8 != 0) == (p & 2 != 0)
        &&& (b2 & 8u8 != 0) == (p & 4 != 0)
    }) by (bit_vector);
    let new = mmap_result(areas, start, len, prot).1;
    assert(new == areas_insert(areas, a));
    lemma_lower_bound(areas, s0);
    let i = lower_bound(areas, s0);
    assert(new[i] == a);
    assert(0 <= i < new.len());
}


/// A successful `munmap` of a non-empty range forgets exactly one area: the
/// one spanning exactly the request's pages; the others stay, in order. A
/// refused one changes nothing. `munmap` never gives back anything but 0
/// or -1.
pub proof fn lemma_munmap_removes_exact_area(areas: Seq<MmapArea>, start: usize, len: usize)
    requires
        areas_sorted(areas),
        len > 0,
    ensures
        munmap_result(areas, start, len).0 == 0 || munmap_result(areas, start, len).0 == -1,
        munmap_result(areas, start, len).0 == -1 ==> munmap_result(areas, start, len).1 == areas,
        munmap_result(areas, start, len).0 == 0 ==> exists|i: int|
            0 <= i < areas.len() && {
                &&& (#[trigger] areas[i]).start_vpn.0 == request_pages(va_of(start as u64), len as u64).0
                &&& areas[i].end_vpn.0 == request_pages(va_of(start as u64), len as u64).1
                &&& munmap_result(areas, start, len).1 == areas.remove(i)
            },
{
    let (s0, e0) = request_pages(va_of(start as u64), len as u64);
    lemma_lower_bound(areas, s0);
}

} // verus!
