//! The blocks of a heap do not overlap: every free block and every block
//! handed out is a separate piece of the memory given to the heap.
use vstd::prelude::*;
use vstd::arithmetic::power2::{pow2, lemma_pow2_pos, lemma_pow2_unfold, lemma_pow2_strictly_increases};
use crate::buddy_system::heap::{
    LiveBlock, block_ok, lists_ok, carve, merged, buddy_of, lemma_buddy, add_region, region_block_order,
    lemma_region_block_fits,
};
use crate::buddy_system::util::word_size;

verus! {

/// A block: its address and its order (it spans `2^order` bytes).
pub type Block = (int, nat);

/// The two blocks share no byte.
pub open spec fn blocks_apart(p: Block, q: Block) -> bool {
    p.0 + pow2(p.1) <= q.0 || q.0 + pow2(q.1) <= p.0
}

/// Block `p` lies within block `q`.
pub open spec fn block_inside(p: Block, q: Block) -> bool {
    q.0 <= p.0 && p.0 + pow2(p.1) <= q.0 + pow2(q.1)
}

/// No two blocks of the set share a byte.
pub open spec fn pairwise_apart(s: Set<Block>) -> bool {
    forall|p: Block, q: Block| #[trigger] s.contains(p) && #[trigger] s.contains(q) && p != q ==> blocks_apart(p, q)
}

/// Address `a` is on the list.
pub open spec fn on_list(l: Seq<usize>, a: int) -> bool {
    exists|i: int| 0 <= i < l.len() && l[i] as int == a
}

/// The free blocks of the lists.
pub open spec fn free_set(lists: Seq<Seq<usize>>) -> Set<Block> {
    Set::new(|p: Block| p.1 < lists.len() && on_list(lists[p.1 as int], p.0))
}

/// The blocks of the live allocations.
pub open spec fn live_set(live: Seq<LiveBlock>) -> Set<Block> {
    Set::new(|p: Block| exists|j: int| 0 <= j < live.len() && live[j].0 as int == p.0 && live[j].2 == p.1)
}

/// No address occurs twice on one free list.
pub open spec fn lists_distinct(lists: Seq<Seq<usize>>) -> bool {
    forall|k: int| 0 <= k < lists.len() ==> (#[trigger] lists[k]).no_duplicates()
}

/// No two live allocations are served by the same block.
pub open spec fn live_distinct(live: Seq<LiveBlock>) -> bool {
    forall|i: int, j: int|
        0 <= i < live.len() && 0 <= j < live.len() && i != j ==> (#[trigger] live[i]).0 != (#[trigger] live[j]).0
            || live[i].2 != live[j].2
}

/// Address `x` lies in one of the regions.
pub open spec fn in_regions(x: int, regions: Seq<(int, int)>) -> bool {
    exists|r: int| 0 <= r < regions.len() && (#[trigger] regions[r]).0 <= x < regions[r].1
}

/// Every byte of the block lies in one of the regions.
pub open spec fn covered(p: Block, regions: Seq<(int, int)>) -> bool {
    forall|x: int| p.0 <= x < p.0 + pow2(p.1) ==> #[trigger] in_regions(x, regions)
}

/// Every block of the set lies in the regions.
pub open spec fn all_covered(s: Set<Block>, regions: Seq<(int, int)>) -> bool {
    forall|p: Block| #[trigger] s.contains(p) ==> covered(p, regions)
}

/// The free blocks and the blocks of live allocations are pairwise apart
/// (none counted twice) and lie in the regions given to the heap.
pub open spec fn blocks_disjoint(lists: Seq<Seq<usize>>, live: Seq<LiveBlock>, regions: Seq<(int, int)>) -> bool {
    &&& lists_distinct(lists)
    &&& live_distinct(live)
    &&& free_set(lists).disjoint(live_set(live))
    &&& pairwise_apart(free_set(lists) + live_set(live))
    &&& all_covered(free_set(lists) + live_set(live), regions)
}

/// Facts on powers of two used below.
pub proof fn lemma_pow2_le(j: nat, k: nat)
    requires
        j <= k,
    ensures
        0 < pow2(j) <= pow2(k),
        j < k ==> pow2(j) + pow2(j) <= pow2(k),
{
    lemma_pow2_pos(j);
    if j < k {
        lemma_pow2_unfold(j + 1);
        if j + 1 < k {
            lemma_pow2_strictly_increases(j + 1, k);
        }
        lemma_pow2_strictly_increases(j, k);
    }
}

/// A block apart from a larger block is apart from every block inside it.
pub proof fn lemma_apart_inside(s: Block, p: Block, q: Block)
    requires
        blocks_apart(s, q),
        block_inside(p, q),
    ensures
        blocks_apart(s, p),
{
}

/// A block is never apart from a block inside it.
pub proof fn lemma_inside_not_apart(p: Block, q: Block)
    requires
        block_inside(p, q),
    ensures
        !blocks_apart(p, q),
{
    lemma_pow2_pos(p.1);
    lemma_pow2_pos(q.1);
}

/// Replacing the blocks `r` of a pairwise-apart set by blocks `n` that are
/// apart from each other and from the rest keeps the set pairwise apart.
pub proof fn lemma_replace_apart(s: Set<Block>, r: Set<Block>, n: Set<Block>)
    requires
        pairwise_apart(s),
        pairwise_apart(n),
        forall|a: Block, b: Block| #[trigger] n.contains(a) && #[trigger] s.contains(b) && !r.contains(b) ==> blocks_apart(a, b),
    ensures
        pairwise_apart(s.difference(r).union(n)),
{
    let t = s.difference(r).union(n);
    assert forall|p: Block, q: Block| #[trigger] t.contains(p) && #[trigger] t.contains(q) && p != q implies blocks_apart(p, q) by {
        if n.contains(p) && n.contains(q) {
        } else if n.contains(p) {
            assert(s.contains(q) && !r.contains(q));
        } else if n.contains(q) {
            assert(s.contains(p) && !r.contains(p));
            assert(blocks_apart(q, p));
        } else {
            assert(s.contains(p) && s.contains(q));
        }
    }
}

/// Regions only grow: what they covered stays covered.
pub proof fn lemma_covered_grow(p: Block, regions: Seq<(int, int)>, extra: (int, int))
    requires
        covered(p, regions),
    ensures
        covered(p, regions.push(extra)),
{
    assert forall|x: int| p.0 <= x < p.0 + pow2(p.1) implies #[trigger] in_regions(x, regions.push(extra)) by {
        assert(in_regions(x, regions));
        let r = choose|r: int| 0 <= r < regions.len() && (#[trigger] regions[r]).0 <= x < regions[r].1;
        assert(regions.push(extra)[r] == regions[r]);
    }
}

/// A block inside a covered block is covered.
pub proof fn lemma_covered_inside(p: Block, q: Block, regions: Seq<(int, int)>)
    requires
        covered(q, regions),
        block_inside(p, q),
    ensures
        covered(p, regions),
{
    assert forall|x: int| p.0 <= x < p.0 + pow2(p.1) implies #[trigger] in_regions(x, regions) by {
        assert(q.0 <= x < q.0 + pow2(q.1));
    }
}

/// Dropping the head of a list without duplicates keeps no duplicates and
/// leaves exactly the other addresses.
pub proof fn lemma_drop_first_distinct(l: Seq<usize>)
    requires
        l.no_duplicates(),
        l.len() > 0,
    ensures
        l.drop_first().no_duplicates(),
        forall|a: int| on_list(l.drop_first(), a) <==> (on_list(l, a) && a != l[0] as int),
{
    let d = l.drop_first();
    assert forall|i: int, j: int| 0 <= i < d.len() && 0 <= j < d.len() && i != j implies d[i] != d[j] by {
        assert(d[i] == l[i + 1] && d[j] == l[j + 1]);
    }
    assert forall|a: int| on_list(d, a) <==> (on_list(l, a) && a != l[0] as int) by {
        if on_list(d, a) {
            let i = choose|i: int| 0 <= i < d.len() && d[i] as int == a;
            assert(l[i + 1] as int == a);
            assert(on_list(l, a));
        }
        if on_list(l, a) && a != l[0] as int {
            let i = choose|i: int| 0 <= i < l.len() && l[i] as int == a;
            assert(i != 0);
            assert(d[i - 1] as int == a);
        }
    }
}

/// The addresses on a list with one address pushed in front.
pub proof fn lemma_push_front_on_list(l: Seq<usize>, a: usize)
    ensures
        forall|x: int| on_list(seq![a] + l, x) <==> (x == a as int || on_list(l, x)),
{
    let n = seq![a] + l;
    assert forall|x: int| on_list(n, x) <==> (x == a as int || on_list(l, x)) by {
        if on_list(n, x) {
            let i = choose|i: int| 0 <= i < n.len() && n[i] as int == x;
            if i > 0 {
                assert(l[i - 1] as int == x);
            }
        }
        if x == a as int {
            assert(n[0] as int == x);
        }
        if on_list(l, x) {
            let i = choose|i: int| 0 <= i < l.len() && l[i] as int == x;
            assert(n[i + 1] as int == x);
        }
    }
}

/// Pushing a new address onto a list without duplicates.
pub proof fn lemma_push_front_distinct(l: Seq<usize>, a: usize)
    requires
        l.no_duplicates(),
        !on_list(l, a as int),
    ensures
        (seq![a] + l).no_duplicates(),
{
    let n = seq![a] + l;
    assert forall|i: int, j: int| 0 <= i < n.len() && 0 <= j < n.len() && i != j implies n[i] != n[j] by {
        if i == 0 && j > 0 {
            assert(n[j] == l[j - 1]);
            if n[i] == n[j] {
                assert(on_list(l, a as int));
            }
        } else if j == 0 && i > 0 {
            assert(n[i] == l[i - 1]);
            if n[i] == n[j] {
                assert(on_list(l, a as int));
            }
        } else if i > 0 && j > 0 {
            assert(n[i] == l[i - 1] && n[j] == l[j - 1]);
        }
    }
}

/// The blocks of the live allocations after one more.
pub proof fn lemma_live_set_push(live: Seq<LiveBlock>, e: LiveBlock)
    ensures
        live_set(live.push(e)) == live_set(live).insert((e.0 as int, e.2)),
{
    let l2 = live.push(e);
    assert forall|p: Block| live_set(l2).contains(p) <==> live_set(live).insert((e.0 as int, e.2)).contains(p) by {
        if live_set(l2).contains(p) {
            let j = choose|j: int| 0 <= j < l2.len() && l2[j].0 as int == p.0 && l2[j].2 == p.1;
            if j < live.len() {
                assert(live[j] == l2[j]);
            }
        }
        if live_set(live).contains(p) {
            let j = choose|j: int| 0 <= j < live.len() && live[j].0 as int == p.0 && live[j].2 == p.1;
            assert(l2[j] == live[j]);
        }
        if p == (e.0 as int, e.2) {
            assert(l2[live.len() as int] == e);
        }
    }
    assert(live_set(l2) =~= live_set(live).insert((e.0 as int, e.2)));
}

/// Taking the head block of list `k` and splitting it down to order `t`
/// keeps the blocks apart: the halves it leaves on the lists and the block
/// handed out all lie inside the block taken.
pub proof fn lemma_carve_keeps_disjoint(
    lists: Seq<Seq<usize>>,
    live: Seq<LiveBlock>,
    regions: Seq<(int, int)>,
    t: int,
    k: int,
    size: usize,
)
    requires
        blocks_disjoint(lists, live, regions),
        lists_ok(lists),
        0 <= t <= k < lists.len(),
        lists[k].len() > 0,
    ensures
        blocks_disjoint(carve(lists, t, k), live.push((lists[k][0], size, t as nat)), regions),
{
    let b = lists[k][0];
    let bb: Block = (b as int, k as nat);
    let bt: Block = (b as int, t as nat);
    let l2 = carve(lists, t, k);
    let live2 = live.push((b, size, t as nat));
    let h = Set::new(|p: Block| t <= p.1 < k && p.0 == b + pow2(p.1));
    let all = free_set(lists) + live_set(live);
    assert(block_ok(lists[k][0], k as nat));
    assert(on_list(lists[k], b as int)) by {
        assert(lists[k][0] as int == b as int);
    }
    assert(free_set(lists).contains(bb));
    assert(!live_set(live).contains(bb));
    assert(lists[k].no_duplicates());
    lemma_drop_first_distinct(lists[k]);
    // Every new block lies inside the block taken, and they are apart.
    assert forall|p: Block| #[trigger] h.contains(p) implies block_inside(p, bb) by {
        lemma_pow2_le(p.1, k as nat);
    }
    lemma_pow2_le(t as nat, k as nat);
    assert(block_inside(bt, bb));
    let n = h.insert(bt);
    assert forall|p: Block, q: Block| #[trigger] n.contains(p) && #[trigger] n.contains(q) && p != q implies blocks_apart(p, q) by {
        if h.contains(p) && h.contains(q) {
            if p.1 < q.1 {
                lemma_pow2_le(p.1, q.1);
            } else {
                lemma_pow2_le(q.1, p.1);
            }
        } else if h.contains(p) {
            lemma_pow2_le(t as nat, p.1);
        } else {
            lemma_pow2_le(t as nat, q.1);
        }
    }
    // What the lists hold after the split.
    assert forall|j: int| t <= j < k implies !on_list(#[trigger] lists[j], b + pow2(j as nat)) by {
        let hp: Block = (b + pow2(j as nat), j as nat);
        if on_list(lists[j], hp.0) {
            assert(free_set(lists).contains(hp));
            assert(h.contains(hp));
            assert(all.contains(hp) && all.contains(bb));
            lemma_inside_not_apart(hp, bb);
        }
    }
    assert forall|p: Block| free_set(l2).contains(p) <==> free_set(lists).remove(bb).union(h).contains(p) by {
        let j = p.1 as int;
        if j < lists.len() {
            if t <= j < k {
                assert(block_ok(lists[k][0], k as nat));
                lemma_pow2_le(j as nat, k as nat);
                lemma_push_front_on_list(lists[j], (b + pow2(j as nat)) as usize);
                assert(l2[j] == seq![(b + pow2(j as nat)) as usize] + lists[j]);
            } else if j == k {
                assert(l2[j] == lists[k].drop_first());
            } else {
                assert(l2[j] == lists[j]);
            }
        }
    }
    assert(free_set(l2) =~= free_set(lists).remove(bb).union(h));
    lemma_live_set_push(live, (b, size, t as nat));
    let all2 = free_set(l2) + live_set(live2);
    assert(all2 =~= all.difference(set![bb]).union(n));
    assert forall|a: Block, c: Block| #[trigger] n.contains(a) && #[trigger] all.contains(c) && !set![bb].contains(c) implies blocks_apart(a, c) by {
        assert(all.contains(bb));
        assert(blocks_apart(c, bb));
        lemma_apart_inside(c, a, bb);
    }
    lemma_replace_apart(all, set![bb], n);
    // No list holds an address twice.
    assert forall|j: int| 0 <= j < l2.len() implies (#[trigger] l2[j]).no_duplicates() by {
        if t <= j < k {
            assert(lists[j].no_duplicates());
            assert(block_ok(lists[k][0], k as nat));
            lemma_pow2_le(j as nat, k as nat);
            assert(!on_list(lists[j], b + pow2(j as nat)));
            lemma_push_front_distinct(lists[j], (b + pow2(j as nat)) as usize);
            assert(l2[j] == seq![(b + pow2(j as nat)) as usize] + lists[j]);
        } else if j == k {
            assert(l2[j] == lists[k].drop_first());
        } else {
            assert(l2[j] == lists[j]);
        }
    }
    // The block handed out is no other live block.
    assert forall|i: int, j: int|
        0 <= i < live2.len() && 0 <= j < live2.len() && i != j implies (#[trigger] live2[i]).0 != (#[trigger] live2[j]).0
            || live2[i].2 != live2[j].2 by {
        if i < live.len() && j < live.len() {
            assert(live2[i] == live[i] && live2[j] == live[j]);
        } else {
            let o = if i < live.len() { i } else { j };
            let c: Block = (live[o].0 as int, live[o].2);
            assert(live2[o] == live[o]);
            assert(live_set(live).contains(c));
            assert(all.contains(c) && all.contains(bb));
            if c == bt {
                lemma_inside_not_apart(bt, bb);
            }
        }
    }
    // Free and handed-out blocks stay separate.
    assert forall|p: Block| !(free_set(l2).contains(p) && live_set(live2).contains(p)) by {
        if free_set(l2).contains(p) && live_set(live2).contains(p) {
            if h.contains(p) {
                lemma_pow2_pos(p.1);
                if p != bt {
                    assert(live_set(live).contains(p));
                    assert(all.contains(p) && all.contains(bb));
                    lemma_inside_not_apart(p, bb);
                }
            } else {
                assert(free_set(lists).contains(p) && p != bb);
                assert(all.contains(p) && all.contains(bb));
                if p == bt {
                    lemma_inside_not_apart(bt, bb);
                } else {
                    assert(live_set(live).contains(p));
                }
            }
        }
    }
    assert(free_set(l2).disjoint(live_set(live2)));
    // Everything still lies in the regions.
    assert(all.contains(bb));
    assert(covered(bb, regions));
    assert forall|p: Block| #[trigger] all2.contains(p) implies covered(p, regions) by {
        if n.contains(p) {
            lemma_covered_inside(p, bb, regions);
        } else {
            assert(all.contains(p));
        }
    }
}

/// Every free block is usable.
pub open spec fn free_blocks_ok(lists: Seq<Seq<usize>>) -> bool {
    forall|p: Block| #[trigger] free_set(lists).contains(p) ==> 0 <= p.0 <= usize::MAX && block_ok(p.0 as usize, p.1)
}

/// Usable lists hold usable blocks.
pub proof fn lemma_free_blocks_ok(lists: Seq<Seq<usize>>)
    requires
        lists_ok(lists),
    ensures
        free_blocks_ok(lists),
{
    assert forall|p: Block| #[trigger] free_set(lists).contains(p) implies 0 <= p.0 <= usize::MAX && block_ok(p.0 as usize, p.1) by {
        let i = choose|i: int| 0 <= i < lists[p.1 as int].len() && lists[p.1 as int][i] as int == p.0;
        assert(block_ok(lists[p.1 as int][i], p.1));
    }
}

/// Removing one entry of a list without duplicates.
pub proof fn lemma_remove_distinct(l: Seq<usize>, j: int)
    requires
        l.no_duplicates(),
        0 <= j < l.len(),
    ensures
        l.remove(j).no_duplicates(),
        forall|a: int| on_list(l.remove(j), a) <==> (on_list(l, a) && a != l[j] as int),
{
    let r = l.remove(j);
    l.remove_ensures(j);
    assert forall|x: int, y: int| 0 <= x < r.len() && 0 <= y < r.len() && x != y implies r[x] != r[y] by {
        let xx = if x < j { x } else { x + 1 };
        let yy = if y < j { y } else { y + 1 };
        assert(r[x] == l[xx] && r[y] == l[yy]);
    }
    assert forall|a: int| on_list(r, a) <==> (on_list(l, a) && a != l[j] as int) by {
        if on_list(r, a) {
            let x = choose|x: int| 0 <= x < r.len() && r[x] as int == a;
            let xx = if x < j { x } else { x + 1 };
            assert(l[xx] as int == a);
        }
        if on_list(l, a) && a != l[j] as int {
            let x = choose|x: int| 0 <= x < l.len() && l[x] as int == a;
            assert(x != j);
            if x < j {
                assert(r[x] as int == a);
            } else {
                assert(r[x - 1] as int == a);
            }
        }
    }
}

/// Giving back the block of live allocation `i` as the head of its free
/// list keeps the blocks apart: the block only moves from one side to the
/// other.
pub proof fn lemma_give_back_keeps_disjoint(
    lists: Seq<Seq<usize>>,
    live: Seq<LiveBlock>,
    regions: Seq<(int, int)>,
    i: int,
)
    requires
        blocks_disjoint(lists, live, regions),
        0 <= i < live.len(),
        live[i].2 < lists.len(),
    ensures
        blocks_disjoint(
            lists.update(live[i].2 as int, seq![live[i].0] + lists[live[i].2 as int]),
            live.remove(i),
            regions,
        ),
{
    let ptr = live[i].0;
    let t = live[i].2 as int;
    let pb: Block = (ptr as int, t as nat);
    let l1 = lists.update(t, seq![ptr] + lists[t]);
    let live1 = live.remove(i);
    live.remove_ensures(i);
    assert(live_set(live).contains(pb));
    assert(!free_set(lists).contains(pb));
    assert(!on_list(lists[t], ptr as int));
    assert(lists[t].no_duplicates());
    lemma_push_front_on_list(lists[t], ptr);
    lemma_push_front_distinct(lists[t], ptr);
    assert forall|p: Block| free_set(l1).contains(p) <==> free_set(lists).insert(pb).contains(p) by {
        if p.1 < lists.len() && p.1 as int != t {
            assert(l1[p.1 as int] == lists[p.1 as int]);
        }
    }
    assert(free_set(l1) =~= free_set(lists).insert(pb));
    assert forall|p: Block| live_set(live1).contains(p) <==> live_set(live).remove(pb).contains(p) by {
        if live_set(live1).contains(p) {
            let j = choose|j: int| 0 <= j < live1.len() && live1[j].0 as int == p.0 && live1[j].2 == p.1;
            let jj = if j < i { j } else { j + 1 };
            assert(live1[j] == live[jj]);
            assert(jj != i);
        }
        if live_set(live).contains(p) && p != pb {
            let j = choose|j: int| 0 <= j < live.len() && live[j].0 as int == p.0 && live[j].2 == p.1;
            assert(j != i);
            if j < i {
                assert(live1[j] == live[j]);
            } else {
                assert(live1[j - 1] == live[j]);
            }
        }
    }
    assert(live_set(live1) =~= live_set(live).remove(pb));
    assert(free_set(l1) + live_set(live1) =~= free_set(lists) + live_set(live));
    assert forall|k: int| 0 <= k < l1.len() implies (#[trigger] l1[k]).no_duplicates() by {
        if k != t {
            assert(l1[k] == lists[k]);
        }
    }
    assert forall|x: int, y: int|
        0 <= x < live1.len() && 0 <= y < live1.len() && x != y implies (#[trigger] live1[x]).0 != (#[trigger] live1[y]).0
            || live1[x].2 != live1[y].2 by {
        let xx = if x < i { x } else { x + 1 };
        let yy = if y < i { y } else { y + 1 };
        assert(live1[x] == live[xx] && live1[y] == live[yy]);
    }
}

/// Merging a freed block with its free buddies, order after order, keeps
/// the blocks apart: each merged block is exactly the two halves it
/// replaces.
pub proof fn lemma_merged_keeps_disjoint(
    lists: Seq<Seq<usize>>,
    live: Seq<LiveBlock>,
    regions: Seq<(int, int)>,
    ptr: usize,
    k: nat,
)
    requires
        blocks_disjoint(lists, live, regions),
        free_blocks_ok(lists),
        lists.len() <= usize::BITS,
        k < lists.len(),
        lists[k as int].len() > 0,
        lists[k as int][0] == ptr,
    ensures
        blocks_disjoint(merged(lists, ptr, k), live, regions),
    decreases lists.len() - k,
{
    if k + 1 >= lists.len() {
        return;
    }
    let buddy = buddy_of(ptr, k);
    if !lists[k as int].contains(buddy) {
        return;
    }
    let pb: Block = (ptr as int, k);
    assert(on_list(lists[k as int], ptr as int)) by {
        assert(lists[k as int][0] as int == ptr as int);
    }
    assert(free_set(lists).contains(pb));
    assert(block_ok(ptr, k));
    lemma_buddy(ptr, k);
    let m = if ptr <= buddy { ptr } else { buddy };
    let mb: Block = (m as int, k + 1);
    let bd: Block = (buddy as int, k);
    lists[k as int].index_of_first_ensures(buddy);
    let j = lists[k as int].index_of_first(buddy)->0;
    assert(j != 0);
    assert(on_list(lists[k as int], buddy as int)) by {
        assert(lists[k as int][j] as int == buddy as int);
    }
    assert(free_set(lists).contains(bd));
    assert(block_ok(buddy, k));
    let all = free_set(lists) + live_set(live);
    let r1 = lists[k as int].remove(j);
    lists[k as int].remove_ensures(j);
    assert(lists[k as int].no_duplicates());
    lemma_remove_distinct(lists[k as int], j);
    assert(r1[0] == ptr);
    lemma_drop_first_distinct(r1);
    let r2 = r1.drop_first();
    assert(lists[k as int].remove_value(buddy) == r1);
    lemma_pow2_unfold(k + 1);
    lemma_pow2_pos(k);
    // The merged block is the two halves.
    assert(block_inside(pb, mb) && block_inside(bd, mb));
    assert(all.contains(pb) && all.contains(bd));
    let kn = (k + 1) as int;
    assert(!on_list(lists[kn], m as int)) by {
        if on_list(lists[kn], m as int) {
            assert(free_set(lists).contains(mb));
            assert(all.contains(mb));
            lemma_inside_not_apart(pb, mb);
        }
    }
    let l2 = lists.update(k as int, r2).update(kn, seq![m] + lists[kn]);
    lemma_push_front_on_list(lists[kn], m);
    assert(lists[kn].no_duplicates());
    lemma_push_front_distinct(lists[kn], m);
    assert forall|p: Block| free_set(l2).contains(p) <==> free_set(lists).difference(set![pb, bd]).union(set![mb]).contains(p) by {
        if p.1 < lists.len() && p.1 != k && p.1 != k + 1 {
            assert(l2[p.1 as int] == lists[p.1 as int]);
        }
    }
    assert(free_set(l2) =~= free_set(lists).difference(set![pb, bd]).union(set![mb]));
    assert(!live_set(live).contains(mb)) by {
        if live_set(live).contains(mb) {
            assert(all.contains(mb));
            lemma_inside_not_apart(pb, mb);
        }
    }
    assert(free_set(l2) + live_set(live) =~= all.difference(set![pb, bd]).union(set![mb]));
    assert forall|a: Block, c: Block| #[trigger] set![mb].contains(a) && #[trigger] all.contains(c) && !set![pb, bd].contains(c) implies blocks_apart(a, c) by {
        assert(blocks_apart(c, pb) && blocks_apart(c, bd));
        lemma_pow2_pos(c.1);
    }
    lemma_replace_apart(all, set![pb, bd], set![mb]);
    assert forall|q: int| 0 <= q < l2.len() implies (#[trigger] l2[q]).no_duplicates() by {
        if q != k && q != kn {
            assert(l2[q] == lists[q]);
        }
    }
    assert(covered(pb, regions) && covered(bd, regions));
    assert(covered(mb, regions)) by {
        assert forall|x: int| mb.0 <= x < mb.0 + pow2(mb.1) implies #[trigger] in_regions(x, regions) by {
            if pb.0 <= x < pb.0 + pow2(k) {
            } else {
                assert(bd.0 <= x < bd.0 + pow2(k));
            }
        }
    }
    assert forall|p: Block| #[trigger] (free_set(l2) + live_set(live)).contains(p) implies covered(p, regions) by {
        if p != mb {
            assert(all.contains(p));
        }
    }
    assert(free_blocks_ok(l2)) by {
        assert forall|p: Block| #[trigger] free_set(l2).contains(p) implies 0 <= p.0 <= usize::MAX && block_ok(p.0 as usize, p.1) by {
            if p != mb {
                assert(free_set(lists).contains(p));
            }
        }
    }
    assert(l2[kn][0] == m);
    assert(merged(lists, ptr, k) == merged(l2, m, k + 1));
    lemma_merged_keeps_disjoint(l2, live, regions, m, k + 1);
}

/// Every block of the set lies outside `[lo, hi)` (or the range is empty).
pub open spec fn apart_from_range(s: Set<Block>, lo: int, hi: int) -> bool {
    forall|p: Block| #[trigger] s.contains(p) ==> p.0 + pow2(p.1) <= lo || hi <= p.0 || hi <= lo
}

/// Every address of `[lo, hi)` lies in the regions.
pub open spec fn range_covered(lo: int, hi: int, regions: Seq<(int, int)>) -> bool {
    forall|x: int| lo <= x < hi ==> #[trigger] in_regions(x, regions)
}

/// Cutting a range that no block touches into blocks keeps the blocks
/// apart: each new block lies in the range, after the ones before it.
pub proof fn lemma_add_region_keeps_disjoint(
    lists: Seq<Seq<usize>>,
    live: Seq<LiveBlock>,
    regions: Seq<(int, int)>,
    cur: nat,
    end: nat,
)
    requires
        blocks_disjoint(lists, live, regions),
        apart_from_range(free_set(lists) + live_set(live), cur as int, end as int),
        range_covered(cur as int, end as int, regions),
        end <= usize::MAX,
    ensures
        blocks_disjoint(add_region(lists, cur, end), live, regions),
    decreases end - cur,
{
    if cur == 0 || cur + word_size() > end || lists.len() == 0 {
        return;
    }
    let o = region_block_order(cur, (end - cur) as nat, lists.len());
    lemma_region_block_fits(cur, (end - cur) as nat, lists.len());
    lemma_pow2_pos(o);
    let nb: Block = (cur as int, o);
    let all = free_set(lists) + live_set(live);
    let l1 = lists.update(o as int, seq![cur as usize] + lists[o as int]);
    assert(!all.contains(nb));
    assert(!on_list(lists[o as int], cur as int)) by {
        if on_list(lists[o as int], cur as int) {
            assert(free_set(lists).contains(nb));
        }
    }
    lemma_push_front_on_list(lists[o as int], cur as usize);
    assert(lists[o as int].no_duplicates());
    lemma_push_front_distinct(lists[o as int], cur as usize);
    assert forall|p: Block| free_set(l1).contains(p) <==> free_set(lists).insert(nb).contains(p) by {
        if p.1 < lists.len() && p.1 != o {
            assert(l1[p.1 as int] == lists[p.1 as int]);
        }
    }
    assert(free_set(l1) =~= free_set(lists).insert(nb));
    let all1 = free_set(l1) + live_set(live);
    assert(all1 =~= all.difference(Set::empty()).union(set![nb]));
    assert forall|a: Block, c: Block| #[trigger] set![nb].contains(a) && #[trigger] all.contains(c) && !Set::<Block>::empty().contains(c) implies blocks_apart(a, c) by {
    }
    lemma_replace_apart(all, Set::empty(), set![nb]);
    assert forall|q: int| 0 <= q < l1.len() implies (#[trigger] l1[q]).no_duplicates() by {
        if q != o {
            assert(l1[q] == lists[q]);
        }
    }
    assert(!live_set(live).contains(nb));
    assert(covered(nb, regions)) by {
        assert forall|x: int| nb.0 <= x < nb.0 + pow2(nb.1) implies #[trigger] in_regions(x, regions) by {
            assert(cur <= x < end);
        }
    }
    assert forall|p: Block| #[trigger] all1.contains(p) implies covered(p, regions) by {
        if p != nb {
            assert(all.contains(p));
        }
    }
    assert(apart_from_range(all1, (cur + pow2(o)) as int, end as int)) by {
        assert forall|p: Block| #[trigger] all1.contains(p) implies p.0 + pow2(p.1) <= cur + pow2(o) || end <= p.0
            || end <= cur + pow2(o) by {
            if p != nb {
                assert(all.contains(p));
            }
        }
    }
    assert(range_covered((cur + pow2(o)) as int, end as int, regions)) by {
        assert forall|x: int| cur + pow2(o) <= x < end implies #[trigger] in_regions(x, regions) by {
            assert(cur <= x < end);
        }
    }
    assert(add_region(lists, cur, end) == add_region(l1, cur + pow2(o), end));
    lemma_add_region_keeps_disjoint(l1, live, regions, cur + pow2(o), end);
}

/// Giving the heap a region `[start, end)` that shares no address with the
/// regions it has: what it holds stays apart from the region and covered,
/// and the part `[lo, hi)` of the region is covered.
pub proof fn lemma_new_region(
    lists: Seq<Seq<usize>>,
    live: Seq<LiveBlock>,
    regions: Seq<(int, int)>,
    start: int,
    end: int,
    lo: int,
    hi: int,
)
    requires
        blocks_disjoint(lists, live, regions),
        forall|r: int| 0 <= r < regions.len() ==> (#[trigger] regions[r]).1 <= start || end <= regions[r].0,
        start <= lo,
        hi <= end,
    ensures
        blocks_disjoint(lists, live, regions.push((start, end))),
        apart_from_range(free_set(lists) + live_set(live), lo, hi),
        range_covered(lo, hi, regions.push((start, end))),
{
    let all = free_set(lists) + live_set(live);
    let r2 = regions.push((start, end));
    assert forall|p: Block| #[trigger] all.contains(p) implies covered(p, r2) by {
        lemma_covered_grow(p, regions, (start, end));
    }
    assert forall|p: Block| #[trigger] all.contains(p) implies p.0 + pow2(p.1) <= lo || hi <= p.0 || hi <= lo by {
        if !(p.0 + pow2(p.1) <= lo || hi <= p.0 || hi <= lo) {
            let x = if p.0 >= lo { p.0 } else { lo };
            lemma_pow2_pos(p.1);
            assert(covered(p, regions));
            assert(in_regions(x, regions));
            let r = choose|r: int| 0 <= r < regions.len() && (#[trigger] regions[r]).0 <= x < regions[r].1;
            assert(regions[r].1 <= start || end <= regions[r].0);
        }
    }
    assert forall|x: int| lo <= x < hi implies #[trigger] in_regions(x, r2) by {
        assert(r2[regions.len() as int] == (start, end));
    }
}

} // verus!
