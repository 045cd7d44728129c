//! Records of the memory regions a process mapped with `mmap`.
use vstd::prelude::*;
use crate::mm::memory_set::MapPermission;

verus! {

/// One mapped region.
#[derive(Clone, Copy, PartialEq, Eq, Structural, Debug)]
pub struct MapRecord {
    /// The first virtual address of the region.
    pub start: u64,
    /// The length of the region in bytes.
    pub len: u64,
    /// The permissions of the region.
    pub permission: MapPermission,
}

/// The record holds exactly the region `[start, start + len)`.
pub open spec fn record_is(r: MapRecord, start: u64, len: u64) -> bool {
    r.start == start && r.len == len
}

/// The record's region holds `addr`.
pub open spec fn record_holds(r: MapRecord, addr: u64) -> bool {
    r.start <= addr < r.start + r.len
}

/// The record's region and `[start, start + len)` share an address; an
/// empty region shares none.
pub open spec fn record_overlaps(r: MapRecord, start: u64, len: u64) -> bool {
    r.len > 0 && r.start < start + len && start < r.start + r.len
}

/// No region of the records reaches past the end of the address space.
pub open spec fn records_fit(s: Seq<MapRecord>) -> bool {
    forall|i: int| 0 <= i < s.len() ==> #[trigger] s[i].start + s[i].len <= u64::MAX
}

/// The list of mapped regions.
pub struct MapRecordManager {
    records: Vec<MapRecord>,
}

impl View for MapRecordManager {
    type V = Seq<MapRecord>;

    closed spec fn view(&self) -> Seq<MapRecord> {
        self.records@
    }
}

impl MapRecordManager {
    /// A manager with no region.
    pub fn new() -> (r: Self)
        ensures
            r@ == Seq::<MapRecord>::empty(),
    {
        Self { records: Vec::new() }
    }

    /// Records the region `[start, start + len)` with `permission`.
    pub fn add(&mut self, start: u64, len: u64, permission: MapPermission)
        ensures
            final(self)@ == old(self)@.push(MapRecord { start, len, permission }),
    {
        let record = MapRecord { start, len, permission };
        self.records.push(record);
    }

    /// The position of the first record of exactly `[start, start + len)`.
    pub fn find_index(&self, start: u64, len: u64) -> (r: Option<usize>)
        ensures
            r matches Some(i) ==> i < self@.len() && record_is(self@[i as int], start, len)
                && forall|j: int| 0 <= j < i ==> !record_is(#[trigger] self@[j], start, len),
            r.is_none() ==> forall|j: int| 0 <= j < self@.len() ==> !record_is(#[trigger] self@[j], start, len),
    {
        let mut i: usize = 0;
        while i < self.records.len()
            invariant
                i <= self@.len(),
                forall|j: int| 0 <= j < i ==> !record_is(#[trigger] self@[j], start, len),
            decreases self@.len() - i,
        {
            let record = &self.records[i];
            if record.start == start && record.len == len {
                return Some(i);
            }
            i = i + 1;
        }
        None
    }

    /// The position of the first record whose region holds `addr`.
    pub fn find_containing_index(&self, addr: u64) -> (r: Option<usize>)
        requires
            records_fit(self@),
        ensures
            r matches Some(i) ==> i < self@.len() && record_holds(self@[i as int], addr)
                && forall|j: int| 0 <= j < i ==> !record_holds(#[trigger] self@[j], addr),
            r.is_none() ==> forall|j: int| 0 <= j < self@.len() ==> !record_holds(#[trigger] self@[j], addr),
    {
        let mut i: usize = 0;
        while i < self.records.len()
            invariant
                i <= self@.len(),
                records_fit(self@),
                forall|j: int| 0 <= j < i ==> !record_holds(#[trigger] self@[j], addr),
            decreases self@.len() - i,
        {
            let record = &self.records[i];
            if addr >= record.start && addr < record.start + record.len {
                return Some(i);
            }
            i = i + 1;
        }
        None
    }

    /// Removes and returns the record at `index`, if there is one.
    pub fn remove(&mut self, index: usize) -> (r: Option<MapRecord>)
        ensures
            index < old(self)@.len() ==> r == Some(old(self)@[index as int])
                && final(self)@ == old(self)@.remove(index as int),
            index >= old(self)@.len() ==> r.is_none() && final(self)@ == old(self)@,
    {
        if index < self.records.len() {
            Some(self.records.remove(index))
        } else {
            None
        }
    }

    /// Removes and returns the first record of exactly `[start, start + len)`.
    pub fn remove_by_range(&mut self, start: u64, len: u64) -> (r: Option<MapRecord>)
        ensures
            (exists|j: int| 0 <= j < old(self)@.len() && record_is(#[trigger] old(self)@[j], start, len)) ==> {
                let i = choose|i: int| 0 <= i < old(self)@.len() && record_is(old(self)@[i], start, len)
                    && forall|j: int| 0 <= j < i ==> !record_is(#[trigger] old(self)@[j], start, len);
                &&& r == Some(old(self)@[i])
                &&& final(self)@ == old(self)@.remove(i)
            },
            (forall|j: int| 0 <= j < old(self)@.len() ==> !record_is(#[trigger] old(self)@[j], start, len)) ==> {
                &&& r.is_none()
                &&& final(self)@ == old(self)@
            },
    {
        if let Some(index) = self.find_index(start, len) {
            proof {
                let s = old(self)@;
                let i = choose|i: int| 0 <= i < s.len() && record_is(s[i], start, len)
                    && forall|j: int| 0 <= j < i ==> !record_is(#[trigger] s[j], start, len);
                assert(0 <= index < s.len() && record_is(s[index as int], start, len)
                    && forall|j: int| 0 <= j < index ==> !record_is(#[trigger] s[j], start, len));
                assert(i == index) by {
                    if i < index {
                        assert(!record_is(s[i], start, len));
                    } else if i > index {
                        assert(!record_is(s[index as int], start, len));
                    }
                }
            }
            Some(self.records.remove(index))
        } else {
            None
        }
    }

    /// Whether `[start, start + len)` shares an address with a recorded
    /// region; an empty range, or an empty record, shares none.
    pub fn check_overlap(&self, start: u64, len: u64) -> (r: bool)
        requires
            records_fit(self@),
            start + len <= u64::MAX,
        ensures
            r == (len > 0 && exists|j: int| 0 <= j < self@.len() && #[trigger] record_overlaps(self@[j], start, len)),
    {
        if len == 0 {
            return false;
        }
        let end = start + len;
        let mut i: usize = 0;
        while i < self.records.len()
            invariant
                i <= self@.len(),
                records_fit(self@),
                end == start + len,
                len > 0,
                forall|j: int| 0 <= j < i ==> !#[trigger] record_overlaps(self@[j], start, len),
            decreases self@.len() - i,
        {
            let record_start = self.records[i].start;
            let record_end = self.records[i].start + self.records[i].len;
            if self.records[i].len > 0 && record_start < end && start < record_end {
                proof {
                    assert(record_overlaps(self@[i as int], start, len));
                    assert(exists|j: int| 0 <= j < self@.len() && #[trigger] record_overlaps(self@[j], start, len));
                }
                return true;
            }
            i = i + 1;
        }
        false
    }
}

/// Removing the range just added, when no record of that exact range was
/// there before, gives back the records as they were.
pub proof fn lemma_add_then_remove(records: Seq<MapRecord>, start: u64, len: u64, permission: MapPermission)
    requires
        forall|j: int| 0 <= j < records.len() ==> !record_is(#[trigger] records[j], start, len),
    ensures
        ({
            let s = records.push(MapRecord { start, len, permission });
            let i = choose|i: int| 0 <= i < s.len() && record_is(s[i], start, len)
                && forall|j: int| 0 <= j < i ==> !record_is(#[trigger] s[j], start, len);
            &&& exists|j: int| 0 <= j < s.len() && record_is(#[trigger] s[j], start, len)
            &&& i == records.len()
            &&& s.remove(i) == records
        }),
{
    let s = records.push(MapRecord { start, len, permission });
    let n = records.len() as int;
    assert(record_is(s[n], start, len));
    assert(forall|j: int| 0 <= j < n ==> !record_is(#[trigger] s[j], start, len)) by {
        assert forall|j: int| 0 <= j < n implies !record_is(#[trigger] s[j], start, len) by {
            assert(s[j] == records[j]);
        }
    }
    let i = choose|i: int| 0 <= i < s.len() && record_is(s[i], start, len)
        && forall|j: int| 0 <= j < i ==> !record_is(#[trigger] s[j], start, len);
    assert(i == n) by {
        if i < n {
            assert(s[i] == records[i]);
        }
    }
    assert(s.remove(i) =~= records);
}

} // verus!
