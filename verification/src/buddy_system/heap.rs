//! The buddy-system heap.
//!
//! Free memory is kept as blocks of `2^k` bytes, one free list per order
//! `k < ORDER`. A request is served by the smallest free block that fits,
//! split in halves down to the order the request needs; a freed block is
//! merged with its buddy, order by order, as long as the buddy is free.
use vstd::prelude::*;
use vstd::string::StringExecFns;
use vstd::arithmetic::power2::{pow2, lemma_pow2_pos, lemma_pow2_unfold};
use crate::buddy_system::linked_list::LinkedList;
use crate::buddy_system::blocks::{
    blocks_disjoint, free_set, live_set, in_regions, lemma_carve_keeps_disjoint, lemma_give_back_keeps_disjoint,
    lemma_merged_keeps_disjoint, lemma_free_blocks_ok, lemma_new_region, lemma_add_region_keeps_disjoint,
};
use crate::buddy_system::util::{is_power_of_two, block_size, half_block_size, lowest_set_bit, prev_power_of_two_with_order, align_up, align_down, lemma_pow2_fits, lemma_aligned_weaken, word_size};

verus! {

/// Why an allocation failed.
#[derive(Debug, PartialEq, Eq, Copy, Clone, Structural)]
pub enum HeapError {
    /// No free block is large enough.
    OutOfMemory,
    /// The free lists were found in a state they cannot reach.
    InternalError,
}

impl HeapError {
    /// The message shown for the error.
    pub fn to_string(&self) -> (r: String)
        ensures
            *self == HeapError::OutOfMemory ==> r@ == "Heap: Out of memory"@,
            *self == HeapError::InternalError ==> r@ == "Heap: Internal error"@,
    {
        match self {
            HeapError::OutOfMemory => String::from_str("Heap: Out of memory"),
            HeapError::InternalError => String::from_str("Heap: Internal error"),
        }
    }
}

/// The size and alignment of a memory request.
#[derive(Clone, Copy)]
pub struct Layout {
    size: usize,
    align: usize,
}

/// A request of `size` bytes aligned to `align` can be described: `align` is
/// a power of two and `size` rounded up to `align` does not exceed `isize::MAX`.
pub open spec fn valid_layout(size: usize, align: usize) -> bool {
    &&& is_power_of_two(align as int)
    &&& size + align - 1 <= isize::MAX
}

impl Layout {
    /// The requested size.
    pub closed spec fn size_spec(&self) -> usize {
        self.size
    }

    /// The requested alignment.
    pub closed spec fn align_spec(&self) -> usize {
        self.align
    }

    /// Every layout is valid.
    #[verifier::type_invariant]
    closed spec fn inv(&self) -> bool {
        valid_layout(self.size, self.align)
    }

    /// A layout of `size` bytes aligned to `align`, or `None` when the pair
    /// does not describe a valid request.
    pub fn from_size_align(size: usize, align: usize) -> (r: Option<Layout>)
        ensures
            r.is_some() <==> valid_layout(size, align),
            r matches Some(l) ==> l.size_spec() == size && l.align_spec() == align,
    {
        if !power_of_two_check(align) {
            return None;
        }
        proof {
            lemma_pow2_pos(choose|k: nat| pow2(k) == align);
        }
        if align - 1 > isize::MAX as usize || size > (isize::MAX as usize) - (align - 1) {
            return None;
        }
        Some(Layout { size, align })
    }

    /// The requested size.
    pub fn size(&self) -> (r: usize)
        ensures
            r == self.size_spec(),
            valid_layout(self.size_spec(), self.align_spec()),
    {
        proof {
            use_type_invariant(self);
        }
        self.size
    }

    /// The requested alignment.
    pub fn align(&self) -> (r: usize)
        ensures
            r == self.align_spec(),
            valid_layout(self.size_spec(), self.align_spec()),
    {
        proof {
            use_type_invariant(self);
        }
        self.align
    }
}

/// Whether `n` is a power of two.
pub fn power_of_two_check(n: usize) -> (r: bool)
    ensures
        r == is_power_of_two(n as int),
{
    let mut p: usize = 1;
    let ghost mut k: nat = 0;
    proof {
        vstd::arithmetic::power2::lemma2_to64();
    }
    while p < n && p <= usize::MAX / 2
        invariant
            p == pow2(k),
            1 <= p <= usize::MAX,
            forall|j: nat| j < k ==> pow2(j) < n,
        decreases usize::MAX - p,
    {
        proof {
            lemma_pow2_unfold(k + 1);
            assert forall|j: nat| j < k + 1 implies pow2(j) < n by {
                if j == k {
                }
            }
        }
        p = p * 2;
        proof {
            k = k + 1;
        }
    }
    proof {
        if p == n {
            assert(is_power_of_two(n as int));
        } else {
            assert forall|j: nat| pow2(j) != n by {
                if j < k {
                } else if j == k {
                } else {
                    vstd::arithmetic::power2::lemma_pow2_strictly_increases(k, j);
                    if p < n {
                        // p > usize::MAX / 2, so pow2(k + 1) > usize::MAX
                        lemma_pow2_unfold(k + 1);
                        if j > k + 1 {
                            vstd::arithmetic::power2::lemma_pow2_strictly_increases(k + 1, j);
                        }
                    }
                }
            }
        }
    }
    p == n
}

/// A block at address `b` of order `k` is usable: it does not start at the
/// null address, it is aligned to its size and it fits the address space.
pub open spec fn block_ok(b: usize, k: nat) -> bool {
    &&& b > 0
    &&& b as int % pow2(k) as int == 0
    &&& b + pow2(k) <= usize::MAX + 1
}

/// Every block of every free list is usable.
pub open spec fn lists_ok(lists: Seq<Seq<usize>>) -> bool {
    forall|k: int, i: int|
        0 <= k < lists.len() && 0 <= i < lists[k].len() ==> block_ok(#[trigger] lists[k][i], k as nat)
}

/// Bytes held by the free lists of orders below `n`.
pub open spec fn free_bytes_upto(lists: Seq<Seq<usize>>, n: nat) -> nat
    decreases n,
{
    if n == 0 {
        0
    } else {
        free_bytes_upto(lists, (n - 1) as nat) + lists[n - 1].len() * pow2((n - 1) as nat)
    }
}

/// Bytes held by all free lists.
pub open spec fn free_bytes(lists: Seq<Seq<usize>>) -> nat {
    free_bytes_upto(lists, lists.len())
}

/// A live allocation: its address, the size the caller asked for, and the
/// order of the block that serves it.
pub type LiveBlock = (usize, usize, nat);

/// Bytes of the blocks that serve live allocations.
pub open spec fn live_block_bytes(live: Seq<LiveBlock>) -> nat
    decreases live.len(),
{
    if live.len() == 0 {
        0
    } else {
        live_block_bytes(live.drop_last()) + pow2(live.last().2)
    }
}

/// Bytes that callers asked for in live allocations.
pub open spec fn live_user_bytes(live: Seq<LiveBlock>) -> nat
    decreases live.len(),
{
    if live.len() == 0 {
        0
    } else {
        live_user_bytes(live.drop_last()) + live.last().1 as nat
    }
}

/// The abstract state of a heap.
pub struct HeapModel {
    /// The free lists, one per order, head first.
    pub lists: Seq<Seq<usize>>,
    /// Bytes that callers asked for and did not give back.
    pub user: nat,
    /// Bytes of the blocks handed out and not given back.
    pub allocated: nat,
    /// Bytes ever added to the heap.
    pub total: nat,
    /// The live allocations, oldest first.
    pub live: Seq<LiveBlock>,
    /// The memory regions given to the heap, as `[start, end)` pairs.
    pub regions: Seq<(int, int)>,
}

/// A buddy-system heap whose largest block has order `ORDER - 1`.
pub struct Heap<const ORDER: usize> {
    free_list: Vec<LinkedList>,
    user: usize,
    allocated: usize,
    total: usize,
    live: Ghost<Seq<LiveBlock>>,
    regions: Ghost<Seq<(int, int)>>,
}

impl<const ORDER: usize> View for Heap<ORDER> {
    type V = HeapModel;

    closed spec fn view(&self) -> HeapModel {
        HeapModel {
            lists: self.lists(),
            user: self.user as nat,
            allocated: self.allocated as nat,
            total: self.total as nat,
            live: self.live@,
            regions: self.regions@,
        }
    }
}

/// The well-formedness of a heap model with `order` free lists.
pub open spec fn model_wf(m: HeapModel, order: nat) -> bool {
    &&& 1 <= order <= usize::BITS
    &&& m.lists.len() == order
    &&& lists_ok(m.lists)
    &&& free_bytes(m.lists) + m.allocated == m.total
    &&& m.total <= usize::MAX
    &&& m.allocated == live_block_bytes(m.live)
    &&& m.user == live_user_bytes(m.live)
    &&& forall|i: int| 0 <= i < m.live.len() ==> live_ok(#[trigger] m.live[i], order)
    &&& blocks_disjoint(m.lists, m.live, m.regions)
}

/// A live allocation is served by a usable block no smaller than the request.
pub open spec fn live_ok(e: LiveBlock, order: nat) -> bool {
    &&& e.2 < order
    &&& block_ok(e.0, e.2)
    &&& e.1 <= pow2(e.2)
}

/// Changing one free list changes the byte count by the difference of the
/// list's bytes.
pub proof fn lemma_free_bytes_update(lists: Seq<Seq<usize>>, k: int, l2: Seq<usize>, n: nat)
    requires
        0 <= k < lists.len(),
        n <= lists.len(),
    ensures
        free_bytes_upto(lists.update(k, l2), n) + (if k < n { lists[k].len() * pow2(k as nat) } else { 0 })
            == free_bytes_upto(lists, n) + (if k < n { l2.len() * pow2(k as nat) } else { 0 }),
    decreases n,
{
    if n > 0 {
        lemma_free_bytes_update(lists, k, l2, (n - 1) as nat);
    }
}

/// Pushing a block onto list `k` adds `2^k` free bytes; popping one removes them.
pub proof fn lemma_free_bytes_push(lists: Seq<Seq<usize>>, k: int, l2: Seq<usize>)
    requires
        0 <= k < lists.len(),
        l2.len() == lists[k].len() + 1,
    ensures
        free_bytes(lists.update(k, l2)) == free_bytes(lists) + pow2(k as nat),
{
    lemma_free_bytes_update(lists, k, l2, lists.len());
    assert(l2.len() * pow2(k as nat) == lists[k].len() * pow2(k as nat) + pow2(k as nat)) by (nonlinear_arith)
        requires
            l2.len() == lists[k].len() + 1,
    ;
}

/// Updating one list with usable blocks keeps all lists usable.
pub proof fn lemma_lists_ok_update(lists: Seq<Seq<usize>>, k: int, l2: Seq<usize>)
    requires
        lists_ok(lists),
        0 <= k < lists.len(),
        forall|i: int| 0 <= i < l2.len() ==> block_ok(#[trigger] l2[i], k as nat),
    ensures
        lists_ok(lists.update(k, l2)),
{
    let n = lists.update(k, l2);
    assert forall|j: int, i: int| 0 <= j < n.len() && 0 <= i < n[j].len() implies block_ok(
        #[trigger] n[j][i],
        j as nat,
    ) by {
        if j == k {
        } else {
            assert(n[j] == lists[j]);
        }
    }
}

/// Appending an entry adds its bytes to the sums over live allocations.
pub proof fn lemma_live_push(live: Seq<LiveBlock>, e: LiveBlock)
    ensures
        live_block_bytes(live.push(e)) == live_block_bytes(live) + pow2(e.2),
        live_user_bytes(live.push(e)) == live_user_bytes(live) + e.1,
{
    assert(live.push(e).drop_last() =~= live);
}

/// Removing an entry takes its bytes off the sums over live allocations.
pub proof fn lemma_live_remove(live: Seq<LiveBlock>, i: int)
    requires
        0 <= i < live.len(),
    ensures
        live_block_bytes(live.remove(i)) + pow2(live[i].2) == live_block_bytes(live),
        live_user_bytes(live.remove(i)) + live[i].1 == live_user_bytes(live),
    decreases live.len(),
{
    if i == live.len() - 1 {
        assert(live.remove(i) =~= live.drop_last());
    } else {
        let d = live.drop_last();
        lemma_live_remove(d, i);
        assert(live.remove(i) =~= d.remove(i).push(live.last()));
        lemma_live_push(d.remove(i), live.last());
    }
}

impl<const ORDER: usize> Heap<ORDER> {
    /// The free lists, one per order, head first.
    pub closed spec fn lists(&self) -> Seq<Seq<usize>> {
        Seq::new(self.free_list@.len(), |i: int| self.free_list@[i]@)
    }

    /// The heap is well formed.
    pub open spec fn wf(&self) -> bool {
        model_wf(self@, ORDER as nat)
    }

    /// An empty heap.
    pub fn new() -> (r: Self)
        ensures
            1 <= ORDER <= usize::BITS ==> r.wf(),
            r@.lists =~= Seq::new(ORDER as nat, |i: int| Seq::<usize>::empty()),
            r@.user == 0,
            r@.allocated == 0,
            r@.total == 0,
            r@.live == Seq::<LiveBlock>::empty(),
            r@.regions == Seq::<(int, int)>::empty(),
    {
        let mut free_list: Vec<LinkedList> = Vec::new();
        let mut i: usize = 0;
        while i < ORDER
            invariant
                i <= ORDER,
                free_list@.len() == i,
                forall|j: int| 0 <= j < i ==> (#[trigger] free_list@[j])@ == Seq::<usize>::empty(),
            decreases ORDER - i,
        {
            free_list.push(LinkedList::new());
            i = i + 1;
        }
        let r = Heap { free_list, user: 0, allocated: 0, total: 0, live: Ghost(Seq::empty()), regions: Ghost(Seq::empty()) };
        proof {
            assert(r.lists() =~= Seq::new(ORDER as nat, |i: int| Seq::<usize>::empty()));
            lemma_free_bytes_zero(r.lists(), ORDER as nat);
        }
        r
    }

    /// An empty heap.
    pub fn empty() -> (r: Self)
        ensures
            1 <= ORDER <= usize::BITS ==> r.wf(),
            r@.lists =~= Seq::new(ORDER as nat, |i: int| Seq::<usize>::empty()),
            r@.user == 0,
            r@.allocated == 0,
            r@.total == 0,
            r@.live == Seq::<LiveBlock>::empty(),
            r@.regions == Seq::<(int, int)>::empty(),
    {
        Self::new()
    }

    /// Bytes that callers asked for and did not give back.
    pub fn stats_alloc_user(&self) -> (r: usize)
        ensures
            r == self@.user,
    {
        self.user
    }

    /// Bytes of the blocks handed out and not given back.
    pub fn stats_alloc_actual(&self) -> (r: usize)
        ensures
            r == self@.allocated,
    {
        self.allocated
    }

    /// Bytes ever added to the heap.
    pub fn stats_total_bytes(&self) -> (r: usize)
        ensures
            r == self@.total,
    {
        self.total
    }

    /// Pushes the block at `addr` onto the free list of order `order_idx`.
    fn push_block(&mut self, order_idx: usize, addr: usize)
        requires
            order_idx < old(self).free_list@.len(),
        ensures
            final(self).regions == old(self).regions,
            final(self).lists() == old(self).lists().update(order_idx as int, seq![addr] + old(self).lists()[order_idx as int]),
            final(self).free_list@.len() == old(self).free_list@.len(),
            final(self).user == old(self).user,
            final(self).allocated == old(self).allocated,
            final(self).total == old(self).total,
            final(self).live == old(self).live,
    {
        self.free_list[order_idx].push(addr);
        proof {
            assert(self.lists() =~= old(self).lists().update(order_idx as int, seq![addr] + old(self).lists()[order_idx as int]));
        }
    }

    /// Pops the head of the free list of order `order_idx`.
    fn pop_block(&mut self, order_idx: usize) -> (r: Result<usize, HeapError>)
        requires
            order_idx < old(self).free_list@.len(),
        ensures
            final(self).regions == old(self).regions,
            final(self).free_list@.len() == old(self).free_list@.len(),
            final(self).user == old(self).user,
            final(self).allocated == old(self).allocated,
            final(self).total == old(self).total,
            final(self).live == old(self).live,
            old(self).lists()[order_idx as int].len() == 0 ==> r == Err::<usize, HeapError>(HeapError::InternalError)
                && final(self).lists() == old(self).lists(),
            old(self).lists()[order_idx as int].len() > 0 ==> r == Ok::<usize, HeapError>(old(self).lists()[order_idx as int][0])
                && final(self).lists() == old(self).lists().update(order_idx as int, old(self).lists()[order_idx as int].drop_first()),
    {
        let r = self.free_list[order_idx].pop();
        proof {
            if old(self).lists()[order_idx as int].len() == 0 {
                assert(self.lists() =~= old(self).lists());
            } else {
                assert(self.lists() =~= old(self).lists().update(order_idx as int, old(self).lists()[order_idx as int].drop_first()));
            }
        }
        match r {
            Some(b) => Ok(b),
            None => Err(HeapError::InternalError),
        }
    }
}

/// A list of empty lists holds no bytes.
pub proof fn lemma_free_bytes_zero(lists: Seq<Seq<usize>>, n: nat)
    requires
        n <= lists.len(),
        forall|i: int| 0 <= i < lists.len() ==> (#[trigger] lists[i]).len() == 0,
    ensures
        free_bytes_upto(lists, n) == 0,
    decreases n,
{
    if n > 0 {
        lemma_free_bytes_zero(lists, (n - 1) as nat);
    }
}


/// The smallest `k` with `2^k >= n`.
pub open spec fn ceil_log2(n: nat) -> nat
    decreases n,
{
    if n <= 1 {
        0
    } else {
        1 + ceil_log2(((n + 1) / 2) as nat)
    }
}

/// `ceil_log2(n)` is the exponent of the smallest power of two not below `n`.
pub proof fn lemma_ceil_log2(n: nat, k: nat)
    requires
        pow2(k) >= n,
        k == 0 || pow2((k - 1) as nat) < n,
    ensures
        ceil_log2(n) == k,
    decreases n,
{
    lemma_pow2_pos(k);
    if n <= 1 {
        if k > 0 {
            lemma_pow2_pos((k - 1) as nat);
        }
    } else {
        assert(k >= 1) by {
            if k == 0 {
                vstd::arithmetic::power2::lemma2_to64();
            }
        }
        lemma_pow2_unfold(k);
        let n2 = ((n + 1) / 2) as nat;
        if k >= 2 {
            lemma_pow2_unfold((k - 1) as nat);
        } else {
            vstd::arithmetic::power2::lemma2_to64();
        }
        lemma_ceil_log2(n2, (k - 1) as nat);
    }
}

/// The bytes a request needs: its size, but at least its alignment and a word.
pub open spec fn request_bytes(size: usize, align: usize) -> nat {
    let a = if size >= align { size as nat } else { align as nat };
    if a >= word_size() { a } else { word_size() }
}

/// The order of the block that serves a request.
pub open spec fn block_order(size: usize, align: usize) -> nat {
    ceil_log2(request_bytes(size, align))
}

/// The lowest order at or above `t` whose free list is not empty; the number
/// of lists when there is none.
pub open spec fn lowest_nonempty(lists: Seq<Seq<usize>>, t: int) -> int
    decreases lists.len() - t,
{
    if t >= lists.len() {
        lists.len() as int
    } else if lists[t].len() > 0 {
        t
    } else {
        lowest_nonempty(lists, t + 1)
    }
}

/// The free lists after the head `b` of list `k` is taken and split down to
/// order `t`: each order `j` from `t` to `k - 1` receives the upper half
/// `b + 2^j`, and `b` itself (of order `t`) is handed out.
pub open spec fn carve(lists: Seq<Seq<usize>>, t: int, k: int) -> Seq<Seq<usize>> {
    let b = lists[k][0];
    Seq::new(
        lists.len(),
        |j: int|
            if t <= j < k {
                seq![(b + pow2(j as nat)) as usize] + lists[j]
            } else if j == k {
                lists[k].drop_first()
            } else {
                lists[j]
            },
    )
}

/// The heap after a request of `size` bytes aligned to `align`, and the result.
pub open spec fn heap_alloc(m: HeapModel, size: usize, align: usize) -> (HeapModel, Result<usize, HeapError>) {
    let t = block_order(size, align);
    let k = lowest_nonempty(m.lists, t as int);
    if k >= m.lists.len() {
        (m, Err(HeapError::OutOfMemory))
    } else {
        let b = m.lists[k][0];
        (
            HeapModel {
                lists: carve(m.lists, t as int, k),
                user: m.user + size as nat,
                allocated: m.allocated + pow2(t),
                total: m.total,
                live: m.live.push((b, size, t)),
                regions: m.regions,
            },
            Ok(b),
        )
    }
}

/// Callers never asked for more bytes than the blocks that serve them hold.
pub proof fn lemma_live_user_le_block(live: Seq<LiveBlock>, order: nat)
    requires
        forall|i: int| 0 <= i < live.len() ==> live_ok(#[trigger] live[i], order),
    ensures
        live_user_bytes(live) <= live_block_bytes(live),
    decreases live.len(),
{
    if live.len() > 0 {
        let d = live.drop_last();
        assert forall|i: int| 0 <= i < d.len() implies live_ok(#[trigger] d[i], order) by {
            assert(d[i] == live[i]);
        }
        lemma_live_user_le_block(d, order);
        assert(live_ok(live[live.len() - 1], order));
    }
}

/// `lowest_nonempty` skips empty lists.
pub proof fn lemma_lowest_nonempty_skip(lists: Seq<Seq<usize>>, t: int, c: int)
    requires
        t <= c,
        forall|j: int| t <= j < c ==> (#[trigger] lists[j]).len() == 0,
        c <= lists.len(),
    ensures
        lowest_nonempty(lists, t) == lowest_nonempty(lists, c),
    decreases c - t,
{
    if t < c {
        lemma_lowest_nonempty_skip(lists, t + 1, c);
    }
}

/// `lowest_nonempty` finds a non-empty list at or above `t`, or none.
pub proof fn lemma_lowest_nonempty_range(lists: Seq<Seq<usize>>, t: int)
    requires
        0 <= t,
    ensures
        lowest_nonempty(lists, t) <= lists.len(),
        t <= lists.len() ==> t <= lowest_nonempty(lists, t),
        lowest_nonempty(lists, t) < lists.len() ==> lists[lowest_nonempty(lists, t)].len() > 0
            && t <= lowest_nonempty(lists, t),
    decreases lists.len() - t,
{
    if t < lists.len() && lists[t].len() == 0 {
        lemma_lowest_nonempty_range(lists, t + 1);
    }
}

/// The word size is a power of two no larger than a quarter of the bits.
pub proof fn lemma_word_size()
    ensures
        word_size() == 4 || word_size() == 8,
        word_size() == 4 ==> pow2(2) == word_size(),
        word_size() == 8 ==> pow2(3) == word_size(),
{
    vstd::arithmetic::power2::lemma2_to64();
}

/// The smallest power of two not below `n`, with its exponent.
pub fn next_power_of_two_with_order(n: usize) -> (r: (usize, usize))
    requires
        n <= isize::MAX,
    ensures
        r.0 == pow2(r.1 as nat),
        r.0 >= n,
        r.1 == 0 || pow2((r.1 - 1) as nat) < n,
        r.1 < usize::BITS,
{
    let mut p: usize = 1;
    let mut k: usize = 0;
    proof {
        vstd::arithmetic::power2::lemma2_to64();
    }
    while p < n
        invariant
            p == pow2(k as nat),
            1 <= p,
            k == 0 || pow2((k - 1) as nat) < n,
            n <= isize::MAX,
            k < usize::BITS,
        decreases usize::BITS - k,
    {
        proof {
            lemma_pow2_unfold((k + 1) as nat);
            lemma_pow2_fits((k + 1) as nat);
        }
        p = p * 2;
        k = k + 1;
    }
    (p, k)
}

impl<const ORDER: usize> Heap<ORDER> {
    /// The size and order of the block that serves `layout`: the smallest
    /// power of two that holds the size and is at least the alignment and a word.
    pub fn normalize_layout(layout: &Layout) -> (r: (usize, usize))
        ensures
            r.0 == pow2(r.1 as nat),
            r.1 == block_order(layout.size_spec(), layout.align_spec()),
            r.1 < usize::BITS,
            layout.size_spec() <= r.0,
            layout.align_spec() <= r.0,
    {
        let word = core::mem::size_of::<usize>();
        let align = layout.align();
        let size = layout.size();
        proof {
            broadcast use vstd::layout::layout_of_primitives;
            lemma_word_size();
            vstd::arithmetic::power2::lemma2_to64();
        }
        let ghost ka = choose|k: nat| pow2(k) == align;
        proof {
            lemma_pow2_pos(ka);
        }
        let (p1, k1) = next_power_of_two_with_order(size);
        let (min_size_for_alignment, k2) = if align >= word {
            proof {
                lemma_pow2_fits(ka);
            }
            (align, order_of_power(align))
        } else {
            (word, order_of_power(word))
        };
        let (sz, order_idx) = if p1 >= min_size_for_alignment {
            (p1, k1)
        } else {
            (min_size_for_alignment, k2)
        };
        proof {
            let m = request_bytes(size, align);
            assert(pow2(order_idx as nat) >= m);
            if order_idx > 0 {
                if sz == p1 {
                    // any smaller power is below the size
                    assert(pow2((order_idx - 1) as nat) < size);
                } else {
                    lemma_pow2_unfold(order_idx as nat);
                    lemma_pow2_pos((order_idx - 1) as nat);
                    if min_size_for_alignment == align {
                        assert(pow2((order_idx - 1) as nat) < align);
                    } else {
                        assert(pow2((order_idx - 1) as nat) < word);
                    }
                }
            }
            lemma_ceil_log2(m, order_idx as nat);
        }
        (sz, order_idx)
    }
}

/// The exponent of a power of two.
pub fn order_of_power(p: usize) -> (r: usize)
    requires
        is_power_of_two(p as int),
    ensures
        pow2(r as nat) == p,
        r < usize::BITS,
{
    let ghost kp = choose|k: nat| pow2(k) == p;
    proof {
        lemma_pow2_fits(kp);
        lemma_pow2_pos(kp);
    }
    let (q, k) = lowest_set_bit(p);
    proof {
        lemma_pow2_pos(k as nat);
        if k as nat > kp {
            vstd::arithmetic::power2::lemma_pow2_strictly_increases(kp, k as nat);
            vstd::arithmetic::div_mod::lemma_small_mod(p as nat, q as nat);
        } else if (k as nat) < kp {
            crate::buddy_system::util::lemma_pow2_divides(k as nat, kp);
            let d = pow2((kp - k) as nat);
            vstd::arithmetic::power2::lemma_pow2_strictly_increases(0, (kp - k) as nat);
            vstd::arithmetic::power2::lemma2_to64();
            lemma_pow2_unfold((kp - k) as nat);
            assert(p as int / q as int == d) by (nonlinear_arith)
                requires
                    p == q * d,
                    q > 0,
            ;
            assert(d % 2 == 0) by (nonlinear_arith)
                requires
                    d == 2 * pow2((kp - k - 1) as nat),
            ;
        }
    }
    k
}


/// The two halves of a usable block of order `s` are usable blocks of order `s - 1`.
pub proof fn lemma_halves_ok(b: usize, s: nat)
    requires
        block_ok(b, s),
        s >= 1,
    ensures
        block_ok(b, (s - 1) as nat),
        block_ok((b + pow2((s - 1) as nat)) as usize, (s - 1) as nat),
        b + 2 * pow2((s - 1) as nat) == b + pow2(s),
{
    lemma_pow2_unfold(s);
    lemma_pow2_pos((s - 1) as nat);
    lemma_aligned_weaken(b as int, (s - 1) as nat, s);
    let h = pow2((s - 1) as nat) as int;
    vstd::arithmetic::div_mod::lemma_mod_adds(b as int, h, h);
    vstd::arithmetic::div_mod::lemma_mod_self_0(h);
}

impl<const ORDER: usize> Heap<ORDER> {
    /// The shape the free lists keep while blocks move between them.
    pub closed spec fn shape_ok(&self) -> bool {
        &&& self.free_list@.len() == ORDER
        &&& 1 <= ORDER <= usize::BITS
        &&& lists_ok(self.lists())
    }

    /// Splits the head block of list `src_order_idx` down to order
    /// `dst_order_idx`; the block ends up at the head of the target list,
    /// and each order on the way keeps the upper half it split off.
    fn split_down(&mut self, src_order_idx: usize, dst_order_idx: usize) -> (r: Result<(), HeapError>)
        requires
            old(self).shape_ok(),
            dst_order_idx <= src_order_idx < ORDER,
            old(self).lists()[src_order_idx as int].len() > 0,
        ensures
            final(self).regions == old(self).regions,
            r.is_ok(),
            final(self).shape_ok(),
            final(self).user == old(self).user,
            final(self).allocated == old(self).allocated,
            final(self).total == old(self).total,
            final(self).live == old(self).live,
            free_bytes(final(self).lists()) == free_bytes(old(self).lists()),
            final(self).lists()[dst_order_idx as int].len() > 0,
            final(self).lists()[dst_order_idx as int][0] == old(self).lists()[src_order_idx as int][0],
            final(self).lists().update(dst_order_idx as int, final(self).lists()[dst_order_idx as int].drop_first())
                == carve(old(self).lists(), dst_order_idx as int, src_order_idx as int),
    {
        let ghost old_lists = self.lists();
        let ghost b = old_lists[src_order_idx as int][0];
        let mut src = src_order_idx;
        proof {
            assert(self.lists().update(src as int, self.lists()[src as int].drop_first())
                =~= carve(old_lists, src as int, src_order_idx as int));
        }
        while src > dst_order_idx
            invariant
                self.shape_ok(),
                dst_order_idx <= src <= src_order_idx < ORDER,
                self.user == old(self).user,
                self.allocated == old(self).allocated,
                self.total == old(self).total,
                self.live == old(self).live,
                self.regions == old(self).regions,
                free_bytes(self.lists()) == free_bytes(old_lists),
                self.lists()[src as int].len() > 0,
                self.lists()[src as int][0] == b,
                self.lists().update(src as int, self.lists()[src as int].drop_first())
                    == carve(old_lists, src as int, src_order_idx as int),
                old_lists == old(self).lists(),
                b == old_lists[src_order_idx as int][0],
            decreases src,
        {
            let ghost before = self.lists();
            let block_ptr = match self.pop_block(src) {
                Ok(p) => p,
                Err(e) => return Err(e),
            };
            let ghost l1 = self.lists();
            proof {
                assert(block_ok(b, src as nat));
                lemma_halves_ok(b, src as nat);
                lemma_free_bytes_push(l1, src as int, before[src as int]);
                assert(l1.update(src as int, before[src as int]) =~= before);
                lemma_lists_ok_update(before, src as int, l1[src as int]);
                lemma_pow2_fits(src as nat);
            }
            let split_size = half_block_size(src);
            self.push_block(src - 1, block_ptr + split_size);
            let ghost l2 = self.lists();
            proof {
                lemma_free_bytes_push(l1, src - 1, l2[src - 1]);
                assert forall|i: int| 0 <= i < l2[src - 1].len() implies block_ok(#[trigger] l2[src - 1][i], (src - 1) as nat) by {
                    if i > 0 {
                        assert(l2[src - 1][i] == l1[src - 1][i - 1]);
                    }
                }
                lemma_lists_ok_update(l1, src - 1, l2[src - 1]);
                assert(l2 == l1.update(src - 1, l2[src - 1]));
            }
            self.push_block(src - 1, block_ptr);
            let ghost l3 = self.lists();
            proof {
                lemma_free_bytes_push(l2, src - 1, l3[src - 1]);
                assert forall|i: int| 0 <= i < l3[src - 1].len() implies block_ok(#[trigger] l3[src - 1][i], (src - 1) as nat) by {
                    if i > 0 {
                        assert(l3[src - 1][i] == l2[src - 1][i - 1]);
                    }
                }
                lemma_lists_ok_update(l2, src - 1, l3[src - 1]);
                assert(l3 == l2.update(src - 1, l3[src - 1]));
                assert(l1 == carve(old_lists, src as int, src_order_idx as int));
                assert(l1[src - 1] == old_lists[src - 1]);
                assert(block_ptr == b);
                assert(l3[src - 1].drop_first() =~= seq![(b + pow2((src - 1) as nat)) as usize] + old_lists[src - 1]);
                assert(l3.update(src - 1, l3[src - 1].drop_first()) =~= carve(old_lists, src - 1, src_order_idx as int));
            }
            src = src - 1;
        }
        Ok(())
    }

    /// Takes the smallest free block of order `target_order` or above and
    /// splits it down to `target_order`; returns its address.
    fn acquire_block(&mut self, target_order: usize) -> (r: Result<usize, HeapError>)
        requires
            old(self).shape_ok(),
        ensures
            final(self).regions == old(self).regions,
            final(self).shape_ok(),
            final(self).user == old(self).user,
            final(self).allocated == old(self).allocated,
            final(self).total == old(self).total,
            final(self).live == old(self).live,
            ({
                let k = lowest_nonempty(old(self).lists(), target_order as int);
                &&& k >= ORDER ==> r == Err::<usize, HeapError>(HeapError::OutOfMemory) && final(self).lists() == old(self).lists()
                &&& k < ORDER ==> {
                    &&& r == Ok::<usize, HeapError>(old(self).lists()[k][0])
                    &&& final(self).lists() == carve(old(self).lists(), target_order as int, k)
                    &&& free_bytes(final(self).lists()) + pow2(target_order as nat) == free_bytes(old(self).lists())
                }
            }),
    {
        let mut current = target_order;
        let len = self.free_list.len();
        if current >= len {
            return Err(HeapError::OutOfMemory);
        }
        while current < len
            invariant
                *self == *old(self),
                len == ORDER,
                self.shape_ok(),
                target_order <= current <= len,
                forall|j: int| target_order <= j < current ==> (#[trigger] self.lists()[j]).len() == 0,
            decreases len - current,
        {
            if self.free_list[current].is_empty() {
                current = current + 1;
                continue;
            }
            proof {
                lemma_lowest_nonempty_skip(self.lists(), target_order as int, current as int);
            }
            let split = self.split_down(current, target_order);
            let ghost l1 = self.lists();
            let raw = match self.free_list[target_order].pop() {
                Some(p) => p,
                None => {
                    return Err(HeapError::InternalError);
                }
            };
            proof {
                let l2 = self.lists();
                assert(l2 =~= l1.update(target_order as int, l1[target_order as int].drop_first()));
                assert(block_ok(raw, target_order as nat));
                lemma_free_bytes_push(l2, target_order as int, l1[target_order as int]);
                assert(l2.update(target_order as int, l1[target_order as int]) =~= l1);
                lemma_lists_ok_update(l1, target_order as int, l2[target_order as int]);
            }
            return if raw == 0 {
                Err(HeapError::InternalError)
            } else {
                Ok(raw)
            };
        }
        proof {
            lemma_lowest_nonempty_skip(self.lists(), target_order as int, current as int);
        }
        Err(HeapError::OutOfMemory)
    }

    /// Records an allocation of `user_size` requested bytes served by a
    /// block of `block_size` bytes.
    fn update_stats_alloc(&mut self, user_size: usize, block_size: usize)
        requires
            old(self).user + user_size <= usize::MAX,
            old(self).allocated + block_size <= usize::MAX,
        ensures
            final(self).regions == old(self).regions,
            final(self).user == old(self).user + user_size,
            final(self).allocated == old(self).allocated + block_size,
            final(self).free_list == old(self).free_list,
            final(self).total == old(self).total,
            final(self).live == old(self).live,
    {
        self.user = self.user + user_size;
        self.allocated = self.allocated + block_size;
    }

    /// Allocates a block for `layout`: the smallest free block of at least
    /// the order the request needs, split down to that order.
    pub fn allocate(&mut self, layout: Layout) -> (r: Result<usize, HeapError>)
        requires
            old(self).wf(),
        ensures
            final(self).wf(),
            (final(self)@, r) == heap_alloc(old(self)@, layout.size_spec(), layout.align_spec()),
            r matches Ok(b) ==> forall|j: int|
                0 <= j < old(self)@.live.len() ==> b + pow2(block_order(layout.size_spec(), layout.align_spec()))
                    <= (#[trigger] old(self)@.live[j]).0 || old(self)@.live[j].0 + pow2(old(self)@.live[j].2) <= b,
    {
        let (block_size, target_order) = Self::normalize_layout(&layout);
        let ghost old_m = self@;
        let ptr = match self.acquire_block(target_order) {
            Ok(p) => p,
            Err(e) => return Err(e),
        };
        let ghost k = lowest_nonempty(old_m.lists, target_order as int);
        proof {
            lemma_live_user_le_block(old_m.live, ORDER as nat);
            lemma_lowest_nonempty_range(old_m.lists, target_order as int);
            assert(k < ORDER);
            assert(old_m.lists[k][0] == ptr);
            assert(block_ok(old_m.lists[k][0], k as nat));
            if (target_order as int) < k {
                vstd::arithmetic::power2::lemma_pow2_strictly_increases(target_order as nat, k as nat);
            }
            lemma_aligned_weaken(ptr as int, target_order as nat, k as nat);
        }
        let user_size = layout.size();
        self.update_stats_alloc(user_size, block_size);
        proof {
            let e: LiveBlock = (ptr, user_size, target_order as nat);
            lemma_live_push(old_m.live, e);
            self.live@ = self.live@.push(e);
            assert forall|i: int| 0 <= i < self.live@.len() implies live_ok(#[trigger] self.live@[i], ORDER as nat) by {
                if i < old_m.live.len() {
                    assert(self.live@[i] == old_m.live[i]);
                }
            }
            lemma_carve_keeps_disjoint(old_m.lists, old_m.live, old_m.regions, target_order as int, k, user_size);
            let n = old_m.live.len() as int;
            assert forall|j: int| 0 <= j < n implies ptr + pow2(target_order as nat) <= (#[trigger] old_m.live[j]).0
                || old_m.live[j].0 + pow2(old_m.live[j].2) <= ptr by {
                assert(self@.live[j] == old_m.live[j]);
                assert(self@.live[n] == e);
                lemma_live_blocks_apart(self@, ORDER as nat, n, j);
            }
        }
        Ok(ptr)
    }
}


/// The buddy of the block at `ptr` of order `k`: the other half of the block
/// of order `k + 1` that holds it.
pub open spec fn buddy_of(ptr: usize, k: nat) -> usize {
    if (ptr as int / pow2(k) as int) % 2 == 0 {
        (ptr + pow2(k)) as usize
    } else {
        (ptr - pow2(k)) as usize
    }
}

/// The free lists after the block `ptr` at the head of list `k` is merged
/// with its buddy, order after order, for as long as the buddy is free.
pub open spec fn merged(lists: Seq<Seq<usize>>, ptr: usize, k: nat) -> Seq<Seq<usize>>
    decreases lists.len() - k,
{
    if k + 1 >= lists.len() {
        lists
    } else {
        let buddy = buddy_of(ptr, k);
        if !lists[k as int].contains(buddy) {
            lists
        } else {
            let m = if ptr <= buddy { ptr } else { buddy };
            let l2 = lists.update(k as int, lists[k as int].remove_value(buddy).drop_first()).update(
                (k + 1) as int,
                seq![m] + lists[(k + 1) as int],
            );
            merged(l2, m, k + 1)
        }
    }
}

/// The heap after the block at `ptr`, allocated for a request of `size`
/// bytes aligned to `align`, is given back.
pub open spec fn heap_dealloc(m: HeapModel, ptr: usize, size: usize, align: usize) -> HeapModel {
    let t = block_order(size, align);
    HeapModel {
        lists: merged(m.lists.update(t as int, seq![ptr] + m.lists[t as int]), ptr, t),
        user: (m.user - size) as nat,
        allocated: (m.allocated - pow2(t)) as nat,
        total: m.total,
        live: m.live.remove_value((ptr, size, t)),
        regions: m.regions,
    }
}

/// Flipping bit `k` of an aligned address gives its buddy; the lower of the
/// two is aligned to the next order.
pub proof fn lemma_buddy(ptr: usize, k: nat)
    requires
        k < usize::BITS,
        ptr as int % pow2(k) as int == 0,
    ensures
        ptr ^ (1usize << k as usize) == buddy_of(ptr, k),
        (1usize << k as usize) == pow2(k),
        ({
            let b = buddy_of(ptr, k);
            let m = if ptr <= b { ptr } else { b };
            &&& m as int % pow2(k + 1) as int == 0
            &&& (m == ptr || m == b)
            &&& ptr != b
            &&& (m == ptr ==> b == ptr + pow2(k))
            &&& (m == b ==> ptr == b + pow2(k))
        }),
{
    let kk = k as usize;
    let p = 1usize << kk;
    crate::buddy_system::util::lemma_shl_one(kk);
    lemma_pow2_pos(k);
    lemma_pow2_unfold(k + 1);
    vstd::bits::lemma_usize_shr_is_div(ptr, kk);
    let q = ptr as int / p as int;
    vstd::arithmetic::div_mod::lemma_fundamental_div_mod(ptr as int, p as int);
    assert(ptr == p * q);
    assert(ptr & !((p - 1usize) as usize) == ptr) by {
        crate::buddy_system::util::lemma_pow2_fits(k);
        vstd::bits::lemma_usize_shl_is_mul(1, kk);
        assert((ptr as int / pow2(k) as int) * pow2(k) == ptr as int);
        lemma_mask(ptr, kk);
    }
    assert(((ptr >> kk) % 2 == 0 ==> ptr ^ p == ptr + p) && ((ptr >> kk) % 2 == 1 ==> ptr ^ p == ptr - p)) by (bit_vector)
        requires
            ptr & !((p - 1usize) as usize) == ptr,
            p == 1usize << kk,
            kk < usize::BITS,
    ;
    if q % 2 == 0 {
        let h = q / 2;
        assert(q == 2 * h);
        assert(ptr == (2 * p) * h) by (nonlinear_arith)
            requires
                ptr == p * q,
                q == 2 * h,
        ;
        vstd::arithmetic::div_mod::lemma_mod_multiples_basic(h, 2 * p as int);
        assert((2 * p) * h == h * (2 * p)) by (nonlinear_arith);
    } else {
        let h = (q - 1) / 2;
        assert(q - 1 == 2 * h);
        assert(ptr - p == (2 * p) * h) by (nonlinear_arith)
            requires
                ptr == p * q,
                q - 1 == 2 * h,
        ;
        vstd::arithmetic::div_mod::lemma_mod_multiples_basic(h, 2 * p as int);
        assert((2 * p) * h == h * (2 * p)) by (nonlinear_arith);
    }
}

/// Clearing the low bits of an aligned address keeps it.
proof fn lemma_mask(ptr: usize, k: usize)
    requires
        k < usize::BITS,
        (ptr as int / pow2(k as nat) as int) * pow2(k as nat) == ptr as int,
    ensures
        ptr & !(((1usize << k) - 1usize) as usize) == ptr,
{
    crate::buddy_system::util::lemma_mask_rounds_down_pub(ptr, k);
}

impl<const ORDER: usize> Heap<ORDER> {
    /// Looks for `buddy_addr` in the free list of order `order_idx` and takes
    /// its first occurrence out; returns whether it was there.
    fn find_and_remove_buddy(&mut self, order_idx: usize, buddy_addr: usize) -> (r: bool)
        requires
            order_idx < old(self).free_list@.len(),
        ensures
            final(self).regions == old(self).regions,
            r == old(self).lists()[order_idx as int].contains(buddy_addr),
            r ==> final(self).lists() == old(self).lists().update(
                order_idx as int,
                old(self).lists()[order_idx as int].remove_value(buddy_addr),
            ),
            !r ==> final(self).lists() == old(self).lists(),
            final(self).free_list@.len() == old(self).free_list@.len(),
            final(self).user == old(self).user,
            final(self).allocated == old(self).allocated,
            final(self).total == old(self).total,
            final(self).live == old(self).live,
    {
        let ghost l = self.lists()[order_idx as int];
        let mut it = self.free_list[order_idx].iter_mut();
        loop
            invariant
                *self == *old(self),
                order_idx < self.free_list@.len(),
                it.list() == l,
                l == self.lists()[order_idx as int],
                0 <= it.position() <= l.len(),
                forall|j: int| 0 <= j < it.position() ==> l[j] != buddy_addr,
            decreases l.len() - it.position(),
        {
            match it.next() {
                Some(node) => {
                    if node.value() == buddy_addr {
                        let ghost i = node.index_spec();
                        proof {
                            l.index_of_first_ensures(buddy_addr);
                            let f = l.index_of_first(buddy_addr).unwrap();
                            assert(f == i) by {
                                if f < i {
                                } else if f > i {
                                }
                            }
                        }
                        node.pop(&mut self.free_list[order_idx]);
                        proof {
                            assert(self.lists() =~= old(self).lists().update(order_idx as int, l.remove_value(buddy_addr)));
                        }
                        return true;
                    }
                },
                None => {
                    return false;
                },
            }
        }
    }

    /// One merge step: if the buddy of the block `*ptr` (at the head of list
    /// `*order_idx`) is free, both leave their list and the merged block goes
    /// to the head of the next list.
    fn try_merge_step(&mut self, ptr: &mut usize, order_idx: &mut usize) -> (r: bool)
        requires
            old(self).shape_ok(),
            *old(order_idx) < ORDER,
            old(self).lists()[*old(order_idx) as int].len() > 0,
            old(self).lists()[*old(order_idx) as int][0] == *old(ptr),
        ensures
            final(self).regions == old(self).regions,
            final(self).shape_ok(),
            final(self).user == old(self).user,
            final(self).allocated == old(self).allocated,
            final(self).total == old(self).total,
            final(self).live == old(self).live,
            free_bytes(final(self).lists()) == free_bytes(old(self).lists()),
            *final(order_idx) < ORDER,
            final(self).lists()[*final(order_idx) as int].len() > 0,
            final(self).lists()[*final(order_idx) as int][0] == *final(ptr),
            merged(final(self).lists(), *final(ptr), *final(order_idx) as nat)
                == merged(old(self).lists(), *old(ptr), *old(order_idx) as nat),
            r ==> *final(order_idx) == *old(order_idx) + 1,
            !r ==> final(self).lists() == old(self).lists()
                && merged(old(self).lists(), *old(ptr), *old(order_idx) as nat) == old(self).lists()
                && *final(ptr) == *old(ptr) && *final(order_idx) == *old(order_idx),
    {
        let ghost l0 = self.lists();
        let ghost k = *order_idx as nat;
        let ghost p0 = *ptr;
        if *order_idx >= self.free_list.len() - 1 {
            proof {
                assert(merged(l0, p0, k) == l0);
            }
            return false;
        }
        proof {
            assert(block_ok(l0[k as int][0], k));
            lemma_buddy(p0, k);
        }
        let current_size = block_size(*order_idx);
        let buddy = *ptr ^ current_size;
        if !self.find_and_remove_buddy(*order_idx, buddy) {
            proof {
                assert(buddy == buddy_of(p0, k));
                assert(merged(l0, p0, k) == l0);
            }
            return false;
        }
        let ghost l1 = self.lists();
        proof {
            let old_k = l0[k as int];
            let i = old_k.index_of_first(buddy).unwrap();
            old_k.index_of_first_ensures(buddy);
            assert(i >= 1);
            assert(l1[k as int] == old_k.remove(i));
            assert(l1[k as int][0] == p0);
            // the buddy is a usable block of order k
            assert(block_ok(old_k[i], k));
            lemma_free_bytes_push(l1, k as int, old_k);
            assert(l1.update(k as int, old_k) =~= l0);
            assert forall|j: int| 0 <= j < l1[k as int].len() implies block_ok(#[trigger] l1[k as int][j], k) by {
                if j < i {
                    assert(l1[k as int][j] == old_k[j]);
                } else {
                    assert(l1[k as int][j] == old_k[j + 1]);
                }
            }
            lemma_lists_ok_update(l0, k as int, l1[k as int]);
            assert(l1 == l0.update(k as int, l1[k as int]));
        }
        let popped = self.free_list[*order_idx].pop();
        let ghost l2 = self.lists();
        proof {
            assert(l2 =~= l1.update(k as int, l1[k as int].drop_first()));
            lemma_free_bytes_push(l2, k as int, l1[k as int]);
            assert(l2.update(k as int, l1[k as int]) =~= l1);
            lemma_lists_ok_update(l1, k as int, l2[k as int]);
        }
        *ptr = if *ptr <= buddy { *ptr } else { buddy };
        *order_idx = *order_idx + 1;
        let ghost m = *ptr;
        proof {
            let b = buddy_of(p0, k);
            assert(m == if p0 <= b { p0 } else { b });
            // the merged block is usable at the next order
            assert(block_ok(m, k + 1)) by {
                lemma_pow2_unfold(k + 1);
                let i = l0[k as int].index_of_first(buddy).unwrap();
                l0[k as int].index_of_first_ensures(buddy);
                assert(block_ok(l0[k as int][i], k));
                assert(block_ok(l0[k as int][0], k));
            }
        }
        self.push_block(*order_idx, *ptr);
        proof {
            let l3 = self.lists();
            lemma_free_bytes_push(l2, (k + 1) as int, l3[(k + 1) as int]);
            assert forall|j: int| 0 <= j < l3[(k + 1) as int].len() implies block_ok(#[trigger] l3[(k + 1) as int][j], k + 1) by {
                if j > 0 {
                    assert(l3[(k + 1) as int][j] == l2[(k + 1) as int][j - 1]);
                }
            }
            lemma_lists_ok_update(l2, (k + 1) as int, l3[(k + 1) as int]);
            assert(l3 == l2.update((k + 1) as int, l3[(k + 1) as int]));
            assert(free_bytes(l3) == free_bytes(l0)) by {
                lemma_pow2_unfold(k + 1);
            }
            let b = buddy_of(p0, k);
            let expect = l0.update(k as int, l0[k as int].remove_value(b).drop_first()).update(
                (k + 1) as int,
                seq![m] + l0[(k + 1) as int],
            );
            assert(l3 =~= expect);
        }
        true
    }

    /// Merges the block `ptr`, at the head of list `order_idx`, with its free
    /// buddies for as long as there are some.
    fn merge_up(&mut self, ptr: usize, order_idx: usize)
        requires
            old(self).shape_ok(),
            order_idx < ORDER,
            old(self).lists()[order_idx as int].len() > 0,
            old(self).lists()[order_idx as int][0] == ptr,
        ensures
            final(self).regions == old(self).regions,
            final(self).shape_ok(),
            final(self).user == old(self).user,
            final(self).allocated == old(self).allocated,
            final(self).total == old(self).total,
            final(self).live == old(self).live,
            free_bytes(final(self).lists()) == free_bytes(old(self).lists()),
            final(self).lists() == merged(old(self).lists(), ptr, order_idx as nat),
    {
        let mut p = ptr;
        let mut o = order_idx;
        loop
            invariant
                self.shape_ok(),
                self.user == old(self).user,
                self.allocated == old(self).allocated,
                self.total == old(self).total,
                self.live == old(self).live,
                self.regions == old(self).regions,
                free_bytes(self.lists()) == free_bytes(old(self).lists()),
                o < ORDER,
                self.lists()[o as int].len() > 0,
                self.lists()[o as int][0] == p,
                merged(self.lists(), p, o as nat) == merged(old(self).lists(), ptr, order_idx as nat),
            ensures
                self.shape_ok(),
                self.user == old(self).user,
                self.allocated == old(self).allocated,
                self.total == old(self).total,
                self.live == old(self).live,
                self.regions == old(self).regions,
                free_bytes(self.lists()) == free_bytes(old(self).lists()),
                self.lists() == merged(old(self).lists(), ptr, order_idx as nat),
            decreases ORDER - o,
        {
            if !self.try_merge_step(&mut p, &mut o) {
                break;
            }
        }
    }

    /// Records that `user_size` requested bytes served by a block of
    /// `block_size` bytes were given back.
    fn update_stats_dealloc(&mut self, user_size: usize, block_size: usize)
        requires
            old(self).user >= user_size,
            old(self).allocated >= block_size,
        ensures
            final(self).regions == old(self).regions,
            final(self).user == old(self).user - user_size,
            final(self).allocated == old(self).allocated - block_size,
            final(self).free_list == old(self).free_list,
            final(self).total == old(self).total,
            final(self).live == old(self).live,
    {
        self.user = self.user - user_size;
        self.allocated = self.allocated - block_size;
    }

    /// Gives back the block at `ptr`, which an allocation for `layout`
    /// returned, and merges it with its free buddies.
    pub fn dealloc(&mut self, ptr: usize, layout: Layout)
        requires
            old(self).wf(),
            old(self)@.live.contains((ptr, layout.size_spec(), block_order(layout.size_spec(), layout.align_spec()))),
        ensures
            final(self).wf(),
            final(self)@ == heap_dealloc(old(self)@, ptr, layout.size_spec(), layout.align_spec()),
    {
        let (block_size, target_order) = Self::normalize_layout(&layout);
        let ghost old_m = self@;
        let ghost e: LiveBlock = (ptr, layout.size_spec(), target_order as nat);
        let ghost i = old_m.live.index_of_first(e).unwrap();
        proof {
            old_m.live.index_of_first_ensures(e);
            assert(live_ok(old_m.live[i], ORDER as nat));
            lemma_live_remove(old_m.live, i);
        }
        self.free_list[target_order].push(ptr);
        proof {
            let l1 = self.lists();
            assert(l1 =~= old_m.lists.update(target_order as int, seq![ptr] + old_m.lists[target_order as int]));
            lemma_free_bytes_push(old_m.lists, target_order as int, l1[target_order as int]);
            assert forall|j: int| 0 <= j < l1[target_order as int].len() implies block_ok(#[trigger] l1[target_order as int][j], target_order as nat) by {
                if j > 0 {
                    assert(l1[target_order as int][j] == old_m.lists[target_order as int][j - 1]);
                }
            }
            lemma_lists_ok_update(old_m.lists, target_order as int, l1[target_order as int]);
        }
        proof {
            lemma_give_back_keeps_disjoint(old_m.lists, old_m.live, old_m.regions, i);
            lemma_free_blocks_ok(self.lists());
            lemma_merged_keeps_disjoint(self.lists(), old_m.live.remove(i), old_m.regions, ptr, target_order as nat);
        }
        self.merge_up(ptr, target_order);
        let user_size = layout.size();
        self.update_stats_dealloc(user_size, block_size);
        proof {
            self.live@ = self.live@.remove(i);
            assert(self.live@ == old_m.live.remove_value(e));
            assert forall|j: int| 0 <= j < self.live@.len() implies live_ok(#[trigger] self.live@[j], ORDER as nat) by {
                if j < i {
                    assert(self.live@[j] == old_m.live[j]);
                } else {
                    assert(self.live@[j] == old_m.live[j + 1]);
                }
            }
        }
    }
}


/// `x` rounded up to a word boundary.
pub open spec fn word_align_up(x: int) -> int {
    ((x + word_size() - 1) / word_size() as int) * word_size()
}

/// `x` rounded down to a word boundary.
pub open spec fn word_align_down(x: int) -> int {
    (x / word_size() as int) * word_size()
}

/// Rounding up to a word boundary does not go down.
pub proof fn lemma_align_up_ge(x: int)
    requires
        x >= 0,
    ensures
        word_align_up(x) >= x,
{
    lemma_word_size();
    let w = word_size() as int;
    let q = (x + w - 1) / w;
    vstd::arithmetic::div_mod::lemma_fundamental_div_mod(x + w - 1, w);
    assert(x + w - 1 == w * q + (x + w - 1) % w);
    assert(q * w >= x) by (nonlinear_arith)
        requires
            x + w - 1 == w * q + (x + w - 1) % w,
            0 <= (x + w - 1) % w < w,
    ;
}

/// The number of trailing zero bits of `x`.
pub open spec fn tz(x: nat) -> nat
    decreases x,
{
    if x == 0 || x % 2 == 1 {
        0
    } else {
        1 + tz(x / 2)
    }
}

/// The exponent of the largest power of two not above `n`.
pub open spec fn floor_log2(n: nat) -> nat
    decreases n,
{
    if n <= 1 {
        0
    } else {
        1 + floor_log2(n / 2)
    }
}

/// The order of the block cut at `addr` with `remaining` bytes left: as
/// large as the alignment of `addr` and the remaining space allow, but at
/// most `order - 1`.
pub open spec fn region_block_order(addr: nat, remaining: nat, order: nat) -> nat {
    let k1 = tz(addr);
    let k2 = floor_log2(remaining);
    let k = if k1 <= k2 { k1 } else { k2 };
    if k + 1 > order { (order - 1) as nat } else { k }
}

/// The free lists after the region `[cur, end)` is cut into blocks, front
/// to back, each pushed onto the list of its order.
pub open spec fn add_region(lists: Seq<Seq<usize>>, cur: nat, end: nat) -> Seq<Seq<usize>>
    decreases end - cur,
{
    if cur == 0 || cur + word_size() > end || lists.len() == 0 {
        lists
    } else {
        let o = region_block_order(cur, (end - cur) as nat, lists.len());
        proof {
            lemma_pow2_pos(o);
            lemma_region_block_fits(cur, (end - cur) as nat, lists.len());
        }
        add_region(lists.update(o as int, seq![cur as usize] + lists[o as int]), cur + pow2(o), end)
    }
}

/// The bytes that cutting `[cur, end)` into blocks adds to the heap.
pub open spec fn region_bytes(cur: nat, end: nat, order: nat) -> nat
    decreases end - cur,
{
    if cur == 0 || cur + word_size() > end || order == 0 {
        0
    } else {
        let o = region_block_order(cur, (end - cur) as nat, order);
        proof {
            lemma_pow2_pos(o);
            lemma_region_block_fits(cur, (end - cur) as nat, order);
        }
        pow2(o) + region_bytes(cur + pow2(o), end, order)
    }
}

/// The largest power of two not above `n` is not above `n`.
pub proof fn lemma_floor_log2_bound(n: nat)
    requires
        n >= 1,
    ensures
        pow2(floor_log2(n)) <= n,
    decreases n,
{
    if n <= 1 {
        vstd::arithmetic::power2::lemma2_to64();
    } else {
        lemma_floor_log2_bound(n / 2);
        lemma_pow2_unfold(floor_log2(n));
    }
}

/// The block cut with `remaining` bytes left fits in them.
pub proof fn lemma_region_block_fits(addr: nat, remaining: nat, order: nat)
    requires
        remaining >= 1,
        order >= 1,
    ensures
        pow2(region_block_order(addr, remaining, order)) <= remaining,
{
    let o = region_block_order(addr, remaining, order);
    lemma_floor_log2_bound(remaining);
    if o < floor_log2(remaining) {
        vstd::arithmetic::power2::lemma_pow2_strictly_increases(o, floor_log2(remaining));
    }
}

/// The trailing zeros of `x` are `k` when `2^k` divides `x` and `2^(k+1)` does not.
pub proof fn lemma_tz(x: nat, k: nat)
    requires
        x > 0,
        x % pow2(k) == 0,
        (x / pow2(k)) % 2 == 1,
    ensures
        tz(x) == k,
    decreases k,
{
    if k == 0 {
        vstd::arithmetic::power2::lemma2_to64();
    } else {
        lemma_pow2_unfold(k);
        lemma_pow2_pos((k - 1) as nat);
        let h = pow2((k - 1) as nat);
        let q = x / pow2(k);
        vstd::arithmetic::div_mod::lemma_fundamental_div_mod(x as int, pow2(k) as int);
        assert(x == 2 * (h * q)) by (nonlinear_arith)
            requires
                x == pow2(k) * q,
                pow2(k) == 2 * h,
        ;
        let y = x / 2;
        assert(y == h * q);
        assert(y % h == 0) by {
            vstd::arithmetic::div_mod::lemma_mod_multiples_basic(q as int, h as int);
            assert(h * q == q * h) by (nonlinear_arith);
        }
        assert(y / h == q) by {
            vstd::arithmetic::div_mod::lemma_div_multiples_vanish(q as int, h as int);
            assert(h * q == q * h) by (nonlinear_arith);
        }
        assert(y > 0);
        lemma_tz(y, (k - 1) as nat);
    }
}

/// `floor_log2(n)` is `k` when `2^k <= n < 2^(k+1)`.
pub proof fn lemma_floor_log2(n: nat, k: nat)
    requires
        pow2(k) <= n < 2 * pow2(k),
    ensures
        floor_log2(n) == k,
    decreases k,
{
    if k == 0 {
        vstd::arithmetic::power2::lemma2_to64();
    } else {
        lemma_pow2_unfold(k);
        lemma_floor_log2(n / 2, (k - 1) as nat);
    }
}

impl<const ORDER: usize> Heap<ORDER> {
    /// Rounds the region `[start, end)` inwards to word boundaries.
    fn align_and_validate(&self, start: usize, end: usize) -> (r: (usize, usize))
        requires
            start + word_size() <= usize::MAX,
            word_align_up(start as int) <= word_align_down(end as int),
        ensures
            r.0 == word_align_up(start as int),
            r.1 == word_align_down(end as int),
            r.0 <= r.1,
    {
        let ptr_align = core::mem::size_of::<usize>();
        proof {
            broadcast use vstd::layout::layout_of_primitives;
            lemma_word_size();
        }
        let start = align_up(start, ptr_align);
        let end = align_down(end, ptr_align);
        (start, end)
    }

    /// The size and order of the block cut at `addr` when `remaining`
    /// bytes are left.
    fn calc_block_size_and_order(&self, addr: usize, remaining: usize) -> (r: (usize, usize))
        requires
            addr > 0,
            remaining > 0,
            1 <= ORDER <= usize::BITS,
        ensures
            r.1 == region_block_order(addr as nat, remaining as nat, ORDER as nat),
            r.0 == pow2(r.1 as nat),
            r.0 <= remaining,
            addr as int % r.0 as int == 0,
            r.1 < ORDER,
    {
        let (max_aligned_size_at_addr, k1) = lowest_set_bit(addr);
        let (max_pow2_in_remaining, k2) = prev_power_of_two_with_order(remaining);
        proof {
            lemma_tz(addr as nat, k1 as nat);
            lemma_floor_log2(remaining as nat, k2 as nat);
            if k1 < k2 {
                vstd::arithmetic::power2::lemma_pow2_strictly_increases(k1 as nat, k2 as nat);
            } else if k2 < k1 {
                vstd::arithmetic::power2::lemma_pow2_strictly_increases(k2 as nat, k1 as nat);
            }
        }
        let (mut size, mut order_idx) = if max_aligned_size_at_addr <= max_pow2_in_remaining {
            (max_aligned_size_at_addr, k1)
        } else {
            (max_pow2_in_remaining, k2)
        };
        if order_idx > ORDER - 1 {
            order_idx = ORDER - 1;
            size = block_size(order_idx);
            proof {
                vstd::arithmetic::power2::lemma_pow2_strictly_increases(order_idx as nat, k1 as nat);
                vstd::arithmetic::power2::lemma_pow2_strictly_increases(order_idx as nat, k2 as nat);
            }
        }
        proof {
            lemma_aligned_weaken(addr as int, order_idx as nat, k1 as nat);
        }
        (size, order_idx)
    }

    /// Cuts `[start, end)` into blocks and pushes each onto the list of its
    /// order; returns the bytes added.
    fn split_and_push(&mut self, start: usize, end: usize) -> (r: usize)
        requires
            old(self).shape_ok(),
            start > 0 || end < word_size(),
            start <= end,
            end + word_size() <= usize::MAX,
        ensures
            final(self).regions == old(self).regions,
            final(self).shape_ok(),
            final(self).user == old(self).user,
            final(self).allocated == old(self).allocated,
            final(self).total == old(self).total,
            final(self).live == old(self).live,
            final(self).lists() == add_region(old(self).lists(), start as nat, end as nat),
            r == region_bytes(start as nat, end as nat, ORDER as nat),
            free_bytes(final(self).lists()) == free_bytes(old(self).lists()) + r,
            r <= end - start,
    {
        let ptr_align = core::mem::size_of::<usize>();
        proof {
            broadcast use vstd::layout::layout_of_primitives;
            lemma_word_size();
        }
        let mut total_added: usize = 0;
        let mut current = start;
        while current + ptr_align <= end
            invariant
                self.shape_ok(),
                self.user == old(self).user,
                self.allocated == old(self).allocated,
                self.total == old(self).total,
                self.live == old(self).live,
                self.regions == old(self).regions,
                ptr_align == word_size(),
                start <= current <= end,
                current > 0 || end < word_size(),
                end + word_size() <= usize::MAX,
                total_added == current - start,
                add_region(self.lists(), current as nat, end as nat) == add_region(old(self).lists(), start as nat, end as nat),
                total_added + region_bytes(current as nat, end as nat, ORDER as nat)
                    == region_bytes(start as nat, end as nat, ORDER as nat),
                free_bytes(self.lists()) == free_bytes(old(self).lists()) + total_added,
            decreases end - current,
        {
            let (block_size, order) = self.calc_block_size_and_order(current, end - current);
            let ghost l0 = self.lists();
            proof {
                lemma_pow2_fits(order as nat);
                lemma_pow2_pos(order as nat);
            }
            total_added = total_added + block_size;
            self.free_list[order].push(current);
            proof {
                let l1 = self.lists();
                assert(l1 =~= l0.update(order as int, seq![current] + l0[order as int]));
                lemma_free_bytes_push(l0, order as int, l1[order as int]);
                assert(block_ok(current, order as nat));
                assert forall|j: int| 0 <= j < l1[order as int].len() implies block_ok(#[trigger] l1[order as int][j], order as nat) by {
                    if j > 0 {
                        assert(l1[order as int][j] == l0[order as int][j - 1]);
                    }
                }
                lemma_lists_ok_update(l0, order as int, l1[order as int]);
            }
            current = current + block_size;
        }
        total_added
    }

    /// Adds the memory region `[start, end)` to the heap: the region is
    /// rounded inwards to word boundaries and cut into blocks as large as
    /// their alignment allows. The region must share no address with the
    /// regions given before, and must not hold a block at address 0 (the
    /// lowest set bit of 0, which sizes the first block, is undefined).
    /// The region is recorded among the heap's regions.
    pub fn add_to_heap(&mut self, start: usize, end: usize)
        requires
            old(self).wf(),
            start > 0 || end < word_size(),
            start + word_size() <= usize::MAX,
            word_align_up(start as int) <= word_align_down(end as int),
            word_align_down(end as int) + word_size() <= usize::MAX,
            old(self)@.total + word_align_down(end as int)
                - word_align_up(start as int) <= usize::MAX,
            forall|r: int|
                0 <= r < old(self)@.regions.len() ==> (#[trigger] old(self)@.regions[r]).1 <= start
                    || end <= old(self)@.regions[r].0,
        ensures
            final(self).wf(),
            ({
                let s = word_align_up(start as int);
                let e = word_align_down(end as int);
                &&& final(self)@.lists == add_region(old(self)@.lists, s as nat, e as nat)
                &&& final(self)@.total == old(self)@.total + region_bytes(s as nat, e as nat, ORDER as nat)
            }),
            final(self)@.user == old(self)@.user,
            final(self)@.allocated == old(self)@.allocated,
            final(self)@.live == old(self)@.live,
            final(self)@.regions == old(self)@.regions.push((start as int, end as int)),
    {
        let ghost old_m = self@;
        let ghost start0 = start as int;
        let ghost end0 = end as int;
        proof {
            lemma_word_size();
            lemma_align_up_ge(start as int);
            let w = word_size() as int;
            let e = end as int;
            assert((e / w) * w <= e) by (nonlinear_arith)
                requires
                    w > 0,
                    e >= 0,
            ;
        }
        let (start, end) = self.align_and_validate(start, end);
        let added = self.split_and_push(start, end);
        self.total = self.total + added;
        proof {
            lemma_new_region(old_m.lists, old_m.live, old_m.regions, start0, end0, start as int, end as int);
            self.regions@ = old_m.regions.push((start0, end0));
            lemma_add_region_keeps_disjoint(old_m.lists, old_m.live, self.regions@, start as nat, end as nat);
        }
    }

    /// Adds the memory region `[start, start + size)` to the heap.
    pub fn init(&mut self, start: usize, size: usize)
        requires
            old(self).wf(),
            start > 0 || start + size < word_size(),
            start + size <= usize::MAX,
            start + word_size() <= usize::MAX,
            word_align_up(start as int) <= word_align_down(start + size),
            word_align_down(start + size) + word_size() <= usize::MAX,
            old(self)@.total + word_align_down(start + size)
                - word_align_up(start as int) <= usize::MAX,
            forall|r: int|
                0 <= r < old(self)@.regions.len() ==> (#[trigger] old(self)@.regions[r]).1 <= start
                    || start + size <= old(self)@.regions[r].0,
        ensures
            final(self).wf(),
            ({
                let s = word_align_up(start as int);
                let e = word_align_down(start + size);
                &&& final(self)@.lists == add_region(old(self)@.lists, s as nat, e as nat)
                &&& final(self)@.total == old(self)@.total + region_bytes(s as nat, e as nat, ORDER as nat)
            }),
            final(self)@.user == old(self)@.user,
            final(self)@.allocated == old(self)@.allocated,
            final(self)@.live == old(self)@.live,
            final(self)@.regions == old(self)@.regions.push((start as int, start + size)),
    {
        self.add_to_heap(start, start + size);
    }
}


/// `2^ceil_log2(n)` is at least `n`.
pub proof fn lemma_ceil_log2_bound(n: nat)
    ensures
        pow2(ceil_log2(n)) >= n,
    decreases n,
{
    if n <= 1 {
        vstd::arithmetic::power2::lemma2_to64();
    } else {
        lemma_ceil_log2_bound(((n + 1) / 2) as nat);
        lemma_pow2_unfold(ceil_log2(n));
    }
}

/// A block handed out by the heap is aligned as the request asks, holds the
/// requested bytes, and does not start at the null address.
pub proof fn lemma_alloc_block_fits_request(m: HeapModel, order: nat, size: usize, align: usize)
    requires
        model_wf(m, order),
        valid_layout(size, align),
    ensures
        heap_alloc(m, size, align).1 matches Ok(p) ==> {
            &&& p > 0
            &&& p as int % align as int == 0
            &&& p + size <= usize::MAX + 1
        },
{
    let t = block_order(size, align);
    let k = lowest_nonempty(m.lists, t as int);
    lemma_lowest_nonempty_range(m.lists, t as int);
    if k < m.lists.len() {
        let p = m.lists[k][0];
        assert(block_ok(m.lists[k][0], k as nat));
        lemma_ceil_log2_bound(request_bytes(size, align));
        let ka = choose|j: nat| pow2(j) == align;
        if ka > t {
            vstd::arithmetic::power2::lemma_pow2_strictly_increases(t, ka);
        }
        if t < k {
            vstd::arithmetic::power2::lemma_pow2_strictly_increases(t, k as nat);
        }
        lemma_aligned_weaken(p as int, t, k as nat);
        lemma_aligned_weaken(p as int, ka, t);
    }
}

/// Giving back a block right after it was handed out restores the
/// allocation statistics: the requested bytes, the allocated bytes and the
/// heap's total.
pub proof fn lemma_alloc_then_dealloc_restores_stats(m: HeapModel, order: nat, size: usize, align: usize)
    requires
        model_wf(m, order),
        valid_layout(size, align),
    ensures
        heap_alloc(m, size, align).1 matches Ok(p) ==> {
            let m2 = heap_alloc(m, size, align).0;
            let m3 = heap_dealloc(m2, p, size, align);
            &&& m2.live.contains((p, size, block_order(size, align)))
            &&& m3.user == m.user
            &&& m3.allocated == m.allocated
            &&& m3.total == m.total
        },
{
    let t = block_order(size, align);
    let (m2, r) = heap_alloc(m, size, align);
    if let Ok(p) = r {
        let e: LiveBlock = (p, size, t);
        assert(m2.live[m.live.len() as int] == e);
    }
}

/// A block aligned to `2^k` sits in the lower half of every smaller block
/// that holds it: below order `k` its buddy lies just above it.
proof fn lemma_lower_half(b: usize, j: nat, k: nat)
    requires
        j < k,
        b as int % pow2(k) as int == 0,
    ensures
        (b as int / pow2(j) as int) % 2 == 0,
{
    crate::buddy_system::util::lemma_pow2_divides((j + 1) as nat, k);
    crate::buddy_system::util::lemma_aligned_weaken(b as int, (j + 1) as nat, k);
    lemma_pow2_pos(j);
    lemma_pow2_unfold((j + 1) as nat);
    let p = pow2(j) as int;
    let q = b as int / (2 * p);
    vstd::arithmetic::div_mod::lemma_fundamental_div_mod(b as int, 2 * p);
    assert(b as int == (2 * q) * p) by (nonlinear_arith)
        requires b as int == (2 * p) * q + (b as int) % (2 * p), (b as int) % (2 * p) == 0;
    vstd::arithmetic::div_mod::lemma_div_multiples_vanish(2 * q, p);
    assert((2 * q) * p == p * (2 * q)) by (nonlinear_arith);
}

/// The free lists part-way through giving back a block `b` that was carved
/// from order `k` down to order `t`: below order `j` the lists are as
/// before the allocation, at `j` the block sits on top of the carved list,
/// above `j` the lists are still carved.
spec fn merging_lists(lists: Seq<Seq<usize>>, t: int, k: int, j: int) -> Seq<Seq<usize>> {
    let c = carve(lists, t, k);
    let b = lists[k][0];
    Seq::new(lists.len(), |i: int| if i < j { lists[i] } else if i == j { seq![b] + c[i] } else { c[i] })
}

/// Merging from order `j` on undoes the carving above `j`.
proof fn lemma_merging_restores(lists: Seq<Seq<usize>>, t: int, k: int, j: int)
    requires
        0 <= t <= j <= k < lists.len(),
        lists[k].len() > 0,
        block_ok(lists[k][0], k as nat),
        k + 1 >= lists.len() || !lists[k].contains(buddy_of(lists[k][0], k as nat)),
    ensures
        merged(merging_lists(lists, t, k, j), lists[k][0], j as nat) == lists,
    decreases k - j,
{
    let b = lists[k][0];
    let c = carve(lists, t, k);
    let d = merging_lists(lists, t, k, j);
    lemma_pow2_pos(j as nat);
    if j == k {
        assert(d =~= lists) by {
            assert(d[k] =~= lists[k]);
        }
        if k + 1 < lists.len() {
            assert(!d[k].contains(buddy_of(b, k as nat)));
        }
    } else {
        lemma_lower_half(b, j as nat, k as nat);
        crate::buddy_system::util::lemma_pow2_divides(j as nat, k as nat);
        vstd::arithmetic::power2::lemma_pow2_strictly_increases(j as nat, k as nat);
        let buddy = buddy_of(b, j as nat);
        assert(buddy == b + pow2(j as nat));
        assert(c[j] == seq![buddy] + lists[j]);
        assert(d[j] =~= seq![b, buddy] + lists[j]);
        assert(d[j][1] == buddy);
        assert(d[j].contains(buddy));
        assert(j + 1 < lists.len());
        let mm = if b <= buddy { b } else { buddy };
        assert(mm == b);
        d[j].index_of_first_ensures(buddy);
        let idx = d[j].index_of_first(buddy).unwrap();
        assert(idx == 1) by {
            assert(d[j][0] == b);
            if idx > 1 {
                assert(d[j][1] == buddy);
            }
        }
        assert(d[j].remove_value(buddy).drop_first() =~= lists[j]);
        let l2 = d.update(j, d[j].remove_value(buddy).drop_first()).update(j + 1, seq![mm] + d[j + 1]);
        assert(l2 =~= merging_lists(lists, t, k, j + 1));
        lemma_merging_restores(lists, t, k, j + 1);
    }
}

/// Giving back a block right after it was handed out restores the heap
/// exactly: the halves split off merge back into it and it returns to the
/// head of the list it came from. This holds unless the block's own buddy
/// is free beside it at that order (then the two merge on).
pub proof fn lemma_alloc_then_dealloc_restores_heap(m: HeapModel, order: nat, size: usize, align: usize)
    requires
        model_wf(m, order),
        valid_layout(size, align),
        heap_alloc(m, size, align).1 is Ok,
        ({
            let t = block_order(size, align);
            let k = lowest_nonempty(m.lists, t as int);
            let b = m.lists[k][0];
            k + 1 >= m.lists.len() || !m.lists[k].contains(buddy_of(b, k as nat))
        }),
    ensures
        heap_dealloc(heap_alloc(m, size, align).0, heap_alloc(m, size, align).1->Ok_0, size, align) == m,
{
    let t = block_order(size, align);
    let k = lowest_nonempty(m.lists, t as int);
    lemma_lowest_nonempty_range(m.lists, t as int);
    let b = m.lists[k][0];
    let m2 = heap_alloc(m, size, align).0;
    assert(block_ok(m.lists[k][0], k as nat));
    let c = carve(m.lists, t as int, k);
    assert(m2.lists[t as int] == c[t as int]);
    assert(m2.lists.update(t as int, seq![b] + m2.lists[t as int]) =~= merging_lists(m.lists, t as int, k, t as int));
    lemma_merging_restores(m.lists, t as int, k, t as int);
    let e: LiveBlock = (b, size, t);
    assert(m2.live == m.live.push(e));
    assert(m2.live[m.live.len() as int] == e);
    assert(m2.live.contains(e));
    m2.live.index_of_first_ensures(e);
    let i = m2.live.index_of_first(e).unwrap();
    assert(!m.live.contains(e)) by {
        if m.live.contains(e) {
            let j = choose|j: int| 0 <= j < m.live.len() && m.live[j] == e;
            let bt = (b as int, t);
            let bk = (b as int, k as nat);
            assert(live_set(m.live).contains(bt));
            assert(crate::buddy_system::blocks::on_list(m.lists[k], b as int)) by {
                assert(m.lists[k][0] as int == b as int);
            }
            assert(free_set(m.lists).contains(bk));
            let all = free_set(m.lists) + live_set(m.live);
            assert(all.contains(bt) && all.contains(bk));
            crate::buddy_system::blocks::lemma_pow2_le(t, k as nat);
            crate::buddy_system::blocks::lemma_inside_not_apart(bt, bk);
        }
    }
    assert(i == m.live.len()) by {
        if i < m.live.len() {
            assert(m2.live[i] == m.live[i]);
            assert(m.live.contains(e));
        }
    }
    assert(m2.live.remove_value(e) =~= m.live);
}

/// With blocks of at least a word (`2^(order-1) >= word`), cutting a
/// word-aligned region adds every byte of it to the heap.
pub proof fn lemma_region_fully_added(cur: nat, end: nat, order: nat)
    requires
        cur > 0,
        cur <= end,
        cur % word_size() == 0,
        end % word_size() == 0,
        order >= 1,
        pow2((order - 1) as nat) >= word_size(),
    ensures
        region_bytes(cur, end, order) == end - cur,
    decreases end - cur,
{
    lemma_word_size();
    if cur + word_size() > end {
        assert(cur == end) by {
            let w = word_size() as int;
            let c = cur as int;
            let e = end as int;
            vstd::arithmetic::div_mod::lemma_fundamental_div_mod(c, w);
            vstd::arithmetic::div_mod::lemma_fundamental_div_mod(e, w);
            let qc = c / w;
            let qe = e / w;
            assert(e - c == w * (qe - qc)) by (nonlinear_arith)
                requires
                    c == w * qc,
                    e == w * qe,
            ;
            if qe > qc {
                assert(w * (qe - qc) >= w) by (nonlinear_arith)
                    requires
                        qe > qc,
                        w > 0,
                ;
            }
            if qe < qc {
                assert(w * (qe - qc) < 0) by (nonlinear_arith)
                    requires
                        qe < qc,
                        w > 0,
                ;
            }
        }
    } else {
        let rem = (end - cur) as nat;
        let o = region_block_order(cur, rem, order);
        let lw: nat = if word_size() == 4 { 2 } else { 3 };
        assert(pow2(lw) == word_size());
        // every candidate exponent is at least the word's
        lemma_tz_at_least(cur, lw);
        lemma_floor_log2_at_least(rem, lw);
        if (order - 1) < lw {
            vstd::arithmetic::power2::lemma_pow2_strictly_increases((order - 1) as nat, lw);
        }
        assert(o >= lw);
        crate::buddy_system::util::lemma_pow2_divides(lw, o);
        lemma_pow2_pos(o);
        lemma_region_block_fits(cur, rem, order);
        let next = cur + pow2(o);
        assert(next % word_size() == 0) by {
            vstd::arithmetic::div_mod::lemma_mod_adds(cur as int, pow2(o) as int, word_size() as int);
        }
        lemma_region_fully_added(next, end, order);
    }
}

/// A positive multiple of `2^j` has at least `j` trailing zeros.
pub proof fn lemma_tz_at_least(x: nat, j: nat)
    requires
        x > 0,
        x % pow2(j) == 0,
    ensures
        tz(x) >= j,
    decreases j,
{
    if j > 0 {
        lemma_pow2_unfold(j);
        lemma_pow2_pos((j - 1) as nat);
        let h = pow2((j - 1) as nat);
        vstd::arithmetic::div_mod::lemma_fundamental_div_mod(x as int, pow2(j) as int);
        let q = x / pow2(j);
        assert(x == 2 * (h * q)) by (nonlinear_arith)
            requires
                x == pow2(j) * q,
                pow2(j) == 2 * h,
        ;
        assert((x / 2) % h == 0) by {
            vstd::arithmetic::div_mod::lemma_mod_multiples_basic(q as int, h as int);
            assert(h * q == q * h) by (nonlinear_arith);
        }
        lemma_tz_at_least(x / 2, (j - 1) as nat);
    }
}

/// A number of at least `2^j` has a floor logarithm of at least `j`.
pub proof fn lemma_floor_log2_at_least(n: nat, j: nat)
    requires
        n >= pow2(j),
    ensures
        floor_log2(n) >= j,
    decreases j,
{
    if j > 0 {
        lemma_pow2_unfold(j);
        lemma_pow2_pos((j - 1) as nat);
        assert(n >= 2);
        assert(floor_log2(n) == 1 + floor_log2(n / 2));
        lemma_floor_log2_at_least(n / 2, (j - 1) as nat);
    }
}


/// The blocks of two live allocations never share a byte, and every byte of
/// a live allocation's block lies in memory given to the heap.
pub proof fn lemma_live_blocks_apart(m: HeapModel, order: nat, i: int, j: int)
    requires
        model_wf(m, order),
        0 <= i < m.live.len(),
        0 <= j < m.live.len(),
        i != j,
    ensures
        m.live[i].0 + pow2(m.live[i].2) <= m.live[j].0 || m.live[j].0 + pow2(m.live[j].2) <= m.live[i].0,
        forall|x: int| m.live[i].0 <= x < m.live[i].0 + pow2(m.live[i].2) ==> #[trigger] in_regions(x, m.regions),
{
    let p = (m.live[i].0 as int, m.live[i].2);
    let q = (m.live[j].0 as int, m.live[j].2);
    assert(live_set(m.live).contains(p));
    assert(live_set(m.live).contains(q));
    let all = free_set(m.lists) + live_set(m.live);
    assert(all.contains(p) && all.contains(q));
    assert(p != q);
}

/// No free block shares a byte with the block of a live allocation.
pub proof fn lemma_free_and_live_apart(m: HeapModel, order: nat, k: int, i: int, j: int)
    requires
        model_wf(m, order),
        0 <= k < m.lists.len(),
        0 <= i < m.lists[k].len(),
        0 <= j < m.live.len(),
    ensures
        m.lists[k][i] + pow2(k as nat) <= m.live[j].0 || m.live[j].0 + pow2(m.live[j].2) <= m.lists[k][i],
{
    let p = (m.lists[k][i] as int, k as nat);
    let q = (m.live[j].0 as int, m.live[j].2);
    assert(crate::buddy_system::blocks::on_list(m.lists[k], p.0));
    assert(free_set(m.lists).contains(p));
    assert(live_set(m.live).contains(q));
    let all = free_set(m.lists) + live_set(m.live);
    assert(all.contains(p) && all.contains(q));
}


/// No free list below order `t` holds a block.
pub open spec fn empty_below(lists: Seq<Seq<usize>>, t: int) -> bool {
    forall|j: int| 0 <= j < t && j < lists.len() ==> (#[trigger] lists[j]).len() == 0
}

/// The lists below `n` hold free bytes exactly when one of them is not empty.
proof fn lemma_free_bytes_positive(lists: Seq<Seq<usize>>, n: nat)
    requires
        n <= lists.len(),
    ensures
        free_bytes_upto(lists, n) > 0 <==> exists|j: int| 0 <= j < n && (#[trigger] lists[j]).len() > 0,
    decreases n,
{
    if n > 0 {
        lemma_free_bytes_positive(lists, (n - 1) as nat);
        lemma_pow2_pos((n - 1) as nat);
        let l = lists[n - 1].len();
        assert(l > 0 ==> l * pow2((n - 1) as nat) > 0) by (nonlinear_arith)
            requires
                pow2((n - 1) as nat) > 0,
        ;
        assert(l == 0 ==> l * pow2((n - 1) as nat) == 0) by (nonlinear_arith);
        if exists|j: int| 0 <= j < n && (#[trigger] lists[j]).len() > 0 {
            let j = choose|j: int| 0 <= j < n && (#[trigger] lists[j]).len() > 0;
            if j < n - 1 {
                assert(exists|j2: int| 0 <= j2 < n - 1 && (#[trigger] lists[j2]).len() > 0);
            }
        }
        if free_bytes_upto(lists, n) > 0 {
            if free_bytes_upto(lists, (n - 1) as nat) > 0 {
                let j = choose|j: int| 0 <= j < n - 1 && (#[trigger] lists[j]).len() > 0;
                assert(0 <= j < n && lists[j].len() > 0);
            } else {
                assert(lists[n - 1].len() > 0);
            }
        }
    }
}

/// `lowest_nonempty` finds a list exactly when one at or above `t` is not
/// empty.
proof fn lemma_lowest_nonempty_exists(lists: Seq<Seq<usize>>, t: int)
    requires
        0 <= t,
    ensures
        lowest_nonempty(lists, t) < lists.len() <==> exists|j: int| t <= j < lists.len() && (#[trigger] lists[j]).len() > 0,
    decreases lists.len() - t,
{
    if t < lists.len() && lists[t].len() == 0 {
        lemma_lowest_nonempty_exists(lists, t + 1);
        if exists|j: int| t <= j < lists.len() && (#[trigger] lists[j]).len() > 0 {
            let j = choose|j: int| t <= j < lists.len() && (#[trigger] lists[j]).len() > 0;
            assert(j != t);
        }
    }
}

/// Splitting the head block of list `k` down to order `t` and handing out a
/// block of order `t` takes exactly `2^t` free bytes.
proof fn lemma_carve_free_bytes(lists: Seq<Seq<usize>>, t: int, k: int)
    requires
        0 <= t <= k < lists.len(),
        lists[k].len() > 0,
    ensures
        free_bytes(carve(lists, t, k)) + pow2(t as nat) == free_bytes(lists),
    decreases k - t,
{
    let b = lists[k][0];
    if t == k {
        let c = carve(lists, t, k);
        assert(c =~= lists.update(k, lists[k].drop_first()));
        lemma_free_bytes_push(c, k, lists[k]);
        assert(c.update(k, lists[k]) =~= lists);
    } else {
        lemma_carve_free_bytes(lists, t + 1, k);
        let c1 = carve(lists, t + 1, k);
        let c = carve(lists, t, k);
        assert(c =~= c1.update(t, seq![(b + pow2(t as nat)) as usize] + c1[t]));
        lemma_free_bytes_push(c1, t, c[t]);
        lemma_pow2_unfold((t + 1) as nat);
    }
}

/// A request for one byte: with no free block smaller than the block such a
/// request needs, it succeeds exactly when the heap has free bytes, each
/// success takes exactly that block's bytes, and still no free block is
/// smaller.
pub proof fn lemma_smallest_request(m: HeapModel)
    requires
        empty_below(m.lists, block_order(1, 1) as int),
    ensures
        heap_alloc(m, 1, 1).1 is Ok <==> free_bytes(m.lists) > 0,
        heap_alloc(m, 1, 1).1 is Ok ==> free_bytes(heap_alloc(m, 1, 1).0.lists) + pow2(block_order(1, 1))
            == free_bytes(m.lists),
        empty_below(heap_alloc(m, 1, 1).0.lists, block_order(1, 1) as int),
{
    let t = block_order(1, 1) as int;
    let lists = m.lists;
    lemma_lowest_nonempty_exists(lists, t);
    lemma_free_bytes_positive(lists, lists.len());
    lemma_lowest_nonempty_range(lists, t);
    if exists|j: int| 0 <= j < lists.len() && (#[trigger] lists[j]).len() > 0 {
        let j = choose|j: int| 0 <= j < lists.len() && (#[trigger] lists[j]).len() > 0;
        assert(j >= t);
        assert(t <= j < lists.len() && lists[j].len() > 0);
    }
    if exists|j: int| t <= j < lists.len() && (#[trigger] lists[j]).len() > 0 {
        let j = choose|j: int| t <= j < lists.len() && (#[trigger] lists[j]).len() > 0;
        assert(0 <= j < lists.len() && lists[j].len() > 0);
    }
    let k = lowest_nonempty(lists, t);
    if k < lists.len() {
        lemma_carve_free_bytes(lists, t, k);
        let c = carve(lists, t, k);
        assert forall|j: int| 0 <= j < t && j < c.len() implies (#[trigger] c[j]).len() == 0 by {
            assert(c[j] == lists[j]);
        }
    }
}

/// The heap after `n` requests for one byte, and whether all of them
/// succeeded (it stops at the first that fails).
pub open spec fn smallest_requests(m: HeapModel, n: nat) -> (HeapModel, bool)
    decreases n,
{
    if n == 0 {
        (m, true)
    } else {
        let (m1, ok) = smallest_requests(m, (n - 1) as nat);
        if !ok {
            (m1, false)
        } else {
            (heap_alloc(m1, 1, 1).0, heap_alloc(m1, 1, 1).1 is Ok)
        }
    }
}

/// Exhausting the heap: with no free block smaller than what a one-byte
/// request needs, and `q` such blocks' worth of free bytes, exactly `q`
/// one-byte requests succeed, and the next one fails.
pub proof fn lemma_exhaust(m: HeapModel, q: nat)
    requires
        empty_below(m.lists, block_order(1, 1) as int),
        free_bytes(m.lists) == q * pow2(block_order(1, 1)),
    ensures
        smallest_requests(m, q).1,
        heap_alloc(smallest_requests(m, q).0, 1, 1).1 is Err,
    decreases q,
{
    lemma_exhaust_prefix(m, q, q);
    let mq = smallest_requests(m, q).0;
    lemma_smallest_request(mq);
}

/// After `n <= q` one-byte requests, all succeeded, `q - n` blocks' worth of
/// free bytes are left, and no free block is smaller than such a block.
proof fn lemma_exhaust_prefix(m: HeapModel, q: nat, n: nat)
    requires
        empty_below(m.lists, block_order(1, 1) as int),
        free_bytes(m.lists) == q * pow2(block_order(1, 1)),
        n <= q,
    ensures
        smallest_requests(m, n).1,
        free_bytes(smallest_requests(m, n).0.lists) == (q - n) * pow2(block_order(1, 1)),
        empty_below(smallest_requests(m, n).0.lists, block_order(1, 1) as int),
    decreases n,
{
    let p = pow2(block_order(1, 1));
    if n > 0 {
        lemma_exhaust_prefix(m, q, (n - 1) as nat);
        let m1 = smallest_requests(m, (n - 1) as nat).0;
        lemma_smallest_request(m1);
        lemma_pow2_pos(block_order(1, 1));
        assert((q - (n - 1)) * p == (q - n) * p + p) by (nonlinear_arith)
            requires
                n <= q,
        ;
        assert((q - (n - 1)) * p > 0) by (nonlinear_arith)
            requires
                n <= q,
                p > 0,
        ;
    }
}


/// Cutting a region into blocks adds its region bytes to the free bytes,
/// and, with the region word-aligned and the largest block at least a
/// word, puts no block below the order of a word.
proof fn lemma_add_region_facts(lists: Seq<Seq<usize>>, cur: nat, end: nat, w: nat)
    requires
        lists.len() >= 1,
        pow2(w) == word_size(),
        pow2((lists.len() - 1) as nat) >= word_size(),
        cur % word_size() == 0,
        end % word_size() == 0,
        empty_below(lists, w as int),
    ensures
        free_bytes(add_region(lists, cur, end)) == free_bytes(lists) + region_bytes(cur, end, lists.len()),
        empty_below(add_region(lists, cur, end), w as int),
    decreases end - cur,
{
    lemma_word_size();
    if cur == 0 || cur + word_size() > end || lists.len() == 0 {
        return;
    }
    let o = region_block_order(cur, (end - cur) as nat, lists.len());
    lemma_region_block_fits(cur, (end - cur) as nat, lists.len());
    lemma_pow2_pos(o);
    lemma_tz_at_least(cur, w);
    lemma_floor_log2_at_least((end - cur) as nat, w);
    if w > (lists.len() - 1) as nat {
        vstd::arithmetic::power2::lemma_pow2_strictly_increases((lists.len() - 1) as nat, w);
    }
    assert(o >= w);
    let l1 = lists.update(o as int, seq![cur as usize] + lists[o as int]);
    lemma_free_bytes_push(lists, o as int, l1[o as int]);
    assert forall|j: int| 0 <= j < w && j < l1.len() implies (#[trigger] l1[j]).len() == 0 by {
        assert(l1[j] == lists[j]);
    }
    assert((cur + pow2(o)) % word_size() == 0) by {
        let ww = word_size() as int;
        vstd::arithmetic::power2::lemma_pow2_adds(w, (o - w) as nat);
        assert(pow2(o) as int % ww == 0) by {
            vstd::arithmetic::div_mod::lemma_mod_multiples_basic(pow2((o - w) as nat) as int, ww);
            assert(pow2(o) == pow2((o - w) as nat) * ww) by (nonlinear_arith)
                requires
                    pow2(o) == pow2(w) * pow2((o - w) as nat),
                    ww == pow2(w),
            ;
        }
        vstd::arithmetic::div_mod::lemma_add_mod_noop(cur as int, pow2(o) as int, ww);
    }
    assert(add_region(lists, cur, end) == add_region(l1, cur + pow2(o), end));
    lemma_add_region_facts(l1, cur + pow2(o), end, w);
}

/// Exhausting a fresh heap: once a heap with no free block is given the
/// word-aligned region `[s, e)` (with blocks of at least a word possible),
/// it holds `e - s` free bytes, exactly `(e - s) / word` one-byte requests
/// succeed, and the next one fails.
pub proof fn lemma_exhaust_fresh(m: HeapModel, s: nat, e: nat)
    requires
        m.lists.len() >= 1,
        forall|j: int| 0 <= j < m.lists.len() ==> (#[trigger] m.lists[j]).len() == 0,
        pow2((m.lists.len() - 1) as nat) >= word_size(),
        0 < s <= e,
        s % word_size() == 0,
        e % word_size() == 0,
    ensures
        ({
            let m2 = HeapModel { lists: add_region(m.lists, s, e), ..m };
            let q = ((e - s) / word_size() as int) as nat;
            &&& free_bytes(m2.lists) == e - s
            &&& smallest_requests(m2, q).1
            &&& heap_alloc(smallest_requests(m2, q).0, 1, 1).1 is Err
        }),
{
    lemma_word_size();
    let w: nat = if word_size() == 8 { 3 } else { 2 };
    vstd::arithmetic::power2::lemma2_to64();
    assert(pow2(w) == word_size());
    assert(request_bytes(1, 1) == word_size());
    lemma_ceil_log2(word_size(), w);
    assert(block_order(1, 1) == w);
    lemma_free_bytes_zero(m.lists, m.lists.len());
    lemma_add_region_facts(m.lists, s, e, w);
    lemma_region_fully_added(s, e, m.lists.len());
    let m2 = HeapModel { lists: add_region(m.lists, s, e), ..m };
    let ww = word_size() as int;
    let q = ((e - s) / ww) as nat;
    assert(e - s == q * ww) by {
        vstd::arithmetic::div_mod::lemma_fundamental_div_mod((e - s) as int, ww);
        vstd::arithmetic::div_mod::lemma_sub_mod_noop(e as int, s as int, ww);
        assert((e - s) as int % ww == 0);
        assert((e - s) / ww * ww == q * ww);
        assert(ww * ((e - s) / ww) == (e - s) / ww * ww) by (nonlinear_arith);
    }
    lemma_exhaust(m2, q);
}

} // verus!
