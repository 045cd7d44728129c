use rcore_os::buddy_system::heap::{Heap, HeapError, Layout};
use rcore_os::buddy_system::linked_list::LinkedList;
use rcore_os::buddy_system::util::{align_down, align_up, block_size, half_block_size, prev_power_of_two};

fn layout(size: usize, align: usize) -> Layout {
    Layout::from_size_align(size, align).unwrap()
}

#[test]
fn test_empty_heap() {
    let mut heap = Heap::<32>::new();
    assert!(heap.allocate(layout(1, 1)).is_err());
    assert_eq!(heap.stats_total_bytes(), 0);
    assert_eq!(heap.stats_alloc_user(), 0);
    assert_eq!(heap.stats_alloc_actual(), 0);
}

#[test]
fn heap_empty_constructor_matches_new() {
    let heap = Heap::<16>::empty();
    assert_eq!(heap.stats_total_bytes(), 0);
    assert_eq!(heap.stats_alloc_actual(), 0);
}

#[test]
fn heap_allocation_fails_with_out_of_memory() {
    let mut heap = Heap::<6>::new();
    heap.add_to_heap(0x1000, 0x1000 + 32);
    assert_eq!(heap.allocate(layout(64, 1)), Err(HeapError::OutOfMemory));
}

#[test]
fn heap_add_serves_whole_page() {
    let mut heap = Heap::<32>::new();
    heap.add_to_heap(0x10000, 0x10000 + 4096);
    assert_eq!(heap.stats_total_bytes(), 4096);
    let p = heap.allocate(layout(4096, 8)).unwrap();
    assert_eq!(p, 0x10000);
    assert!(heap.allocate(layout(1, 1)).is_err());
}

#[test]
fn heap_alloc_and_free_repeatedly() {
    let mut heap = Heap::<32>::new();
    heap.add_to_heap(0x10000, 0x10000 + 4096);
    for _ in 0..100 {
        let p = heap.allocate(layout(1, 1)).unwrap();
        heap.dealloc(p, layout(1, 1));
    }
    assert_eq!(heap.stats_alloc_actual(), 0);
    assert_eq!(heap.stats_alloc_user(), 0);
    assert_eq!(heap.allocate(layout(4096, 8)).unwrap(), 0x10000);
}

#[test]
fn test_split_down() {
    let mut heap = Heap::<5>::new();
    heap.add_to_heap(0x2000, 0x2000 + 16);
    let before = heap.stats_total_bytes();
    let _ = heap.allocate(layout(1, 1)).unwrap();
    assert_eq!(heap.stats_total_bytes(), before);
    assert_eq!(heap.stats_alloc_user(), 1);
    assert_eq!(heap.stats_alloc_actual(), 8);
}

#[test]
fn test_merge_up() {
    let mut heap = Heap::<5>::new();
    heap.add_to_heap(0x3000, 0x3000 + 16);
    let a = heap.allocate(layout(1, 1)).unwrap();
    let b = heap.allocate(layout(1, 1)).unwrap();
    assert_ne!(a, b);
    let used = heap.stats_alloc_actual();
    heap.dealloc(b, layout(1, 1));
    heap.dealloc(a, layout(1, 1));
    assert!(heap.stats_alloc_actual() < used);
    // the two halves merged back into one 16-byte block
    assert_eq!(heap.allocate(layout(16, 1)).unwrap(), 0x3000);
}

#[test]
fn test_min_alignment() {
    let mut heap = Heap::<4>::new();
    heap.add_to_heap(0x4000, 0x4000 + 24);
    let p = heap.allocate(layout(1, 8)).unwrap();
    assert_eq!(p % 8, 0);
}

#[test]
fn heap_fragmentation_leaves_small_holes() {
    let mut heap = Heap::<16>::new();
    heap.add_to_heap(0x8000, 0x8000 + 1024);
    let mut ptrs = Vec::new();
    for _ in 0..16 {
        ptrs.push(heap.allocate(layout(64, 8)).unwrap());
    }
    assert!(heap.allocate(layout(64, 8)).is_err());
    for (i, p) in ptrs.iter().enumerate() {
        if i % 2 == 0 {
            heap.dealloc(*p, layout(64, 8));
        }
    }
    // only 64-byte holes remain
    assert!(heap.allocate(layout(128, 8)).is_err());
    assert!(heap.allocate(layout(64, 8)).is_ok());
}

#[test]
fn heap_exhaust_counts_blocks() {
    let mut heap = Heap::<16>::new();
    heap.add_to_heap(0x8000, 0x8000 + 256);
    let mut count = 0;
    while heap.allocate(layout(8, 8)).is_ok() {
        count += 1;
    }
    assert_eq!(count, 32);
    assert_eq!(heap.stats_alloc_actual(), heap.stats_total_bytes());
}

#[test]
fn heap_alloc_then_dealloc_restores_stats() {
    let mut heap = Heap::<20>::new();
    heap.init(0x20000, 8192);
    let before_user = heap.stats_alloc_user();
    let before_actual = heap.stats_alloc_actual();
    let p = heap.allocate(layout(100, 16)).unwrap();
    assert_eq!(heap.stats_alloc_user(), before_user + 100);
    assert_eq!(heap.stats_alloc_actual(), before_actual + 128);
    heap.dealloc(p, layout(100, 16));
    assert_eq!(heap.stats_alloc_user(), before_user);
    assert_eq!(heap.stats_alloc_actual(), before_actual);
}

#[test]
fn heap_allocation_respects_alignment_and_bounds() {
    let mut heap = Heap::<20>::new();
    heap.add_to_heap(0x30008, 0x30000 + 4096);
    let p = heap.allocate(layout(24, 64)).unwrap();
    assert_eq!(p % 64, 0);
    assert!(p >= 0x30008 && p + 24 <= 0x31000);
}

#[test]
fn heap_unaligned_region_is_rounded_inwards() {
    let mut heap = Heap::<20>::new();
    heap.add_to_heap(0x40003, 0x40000 + 100);
    // rounded to [0x40008, 0x40060): 88 bytes
    assert_eq!(heap.stats_total_bytes(), 88);
}

#[test]
fn layout_rejects_bad_alignment() {
    assert!(Layout::from_size_align(8, 3).is_none());
    assert!(Layout::from_size_align(8, 0).is_none());
    assert!(Layout::from_size_align(usize::MAX, 8).is_none());
    let l = Layout::from_size_align(8, 4).unwrap();
    assert_eq!(l.size(), 8);
    assert_eq!(l.align(), 4);
}

#[test]
fn util_power_and_alignment() {
    assert_eq!(prev_power_of_two(1), 1);
    assert_eq!(prev_power_of_two(100), 64);
    assert_eq!(prev_power_of_two(128), 128);
    assert_eq!(align_up(13, 8), 16);
    assert_eq!(align_up(16, 8), 16);
    assert_eq!(align_down(13, 8), 8);
    assert_eq!(block_size(5), 32);
    assert_eq!(half_block_size(5), 16);
}

#[test]
fn test_linked_list() {
    const N: usize = 16;
    const STEP: usize = 0x1111_1111_1111_1111;
    let values: Vec<usize> = (0..N).map(|i| STEP * i).collect();
    let mut list = LinkedList::new();
    for &v in values.iter() {
        list.push(v);
    }
    let mut it = list.iter();
    for &expect in values.iter().rev() {
        assert_eq!(it.next(), Some(expect));
    }
    assert!(it.next().is_none());
    for &expect in values.iter().rev() {
        assert_eq!(list.pop().unwrap(), expect);
    }
    assert!(list.pop().is_none());
}

#[test]
fn test_linked_list_iter_mut() {
    const N: usize = 8;
    let values: Vec<usize> = (0..N).map(|i| 0x8000 + 8 * i).collect();
    let mut list = LinkedList::new();
    for &v in values.iter() {
        list.push(v);
    }
    let target = values[3];
    let mut found = false;
    let mut it = list.iter_mut();
    while let Some(node) = it.next() {
        if node.value() == target {
            assert_eq!(node.pop(&mut list), target);
            found = true;
            break;
        }
    }
    assert!(found);
    let mut remain = 0;
    let mut it = list.iter();
    while let Some(v) = it.next() {
        assert_ne!(v, target);
        remain += 1;
    }
    assert_eq!(remain, N - 1);
}

#[test]
fn test_heap_add() {
    let mut heap = Heap::<32>::new();
    assert!(heap.allocate(layout(1, 1)).is_err());
    heap.add_to_heap(0x10000, 0x10000 + 127 * 8);
    assert!(heap.allocate(layout(1, 1)).is_ok());
}

#[test]
fn test_heap_add_large() {
    let mut heap = Heap::<8>::new();
    assert!(heap.allocate(layout(1, 1)).is_err());
    heap.add_to_heap(0x1000, 0x1000 + 512);
    assert!(heap.allocate(layout(1, 1)).is_ok());
}

#[test]
fn test_heap_oom() {
    let mut heap = Heap::<32>::new();
    heap.add_to_heap(0x10000, 0x10000 + 127 * 8);
    assert!(heap.allocate(layout(129 * 8, 1)).is_err());
    assert!(heap.allocate(layout(1, 1)).is_ok());
}

#[test]
fn test_heap_alloc_and_free() {
    let mut heap = Heap::<32>::new();
    assert!(heap.allocate(layout(1, 1)).is_err());
    heap.add_to_heap(0x10000, 0x10000 + 127 * 8);
    let mut addrs = Vec::new();
    for _ in 0..127 {
        addrs.push(heap.allocate(layout(1, 1)).unwrap());
    }
    for &a in addrs.iter() {
        heap.dealloc(a, layout(1, 1));
    }
    assert_eq!(heap.stats_alloc_actual(), 0);
}

#[test]
fn test_oom_retry() {
    let mut heap = Heap::<5>::new();
    heap.add_to_heap(0x1008, 0x1010);
    assert!(heap.allocate(layout(16, 1)).is_err());
    heap.add_to_heap(0x2040, 0x2080);
    assert!(heap.allocate(layout(16, 1)).is_ok());
}

#[test]
fn test_order_overflow() {
    let mut heap = Heap::<4>::new();
    heap.add_to_heap(0x3008, 0x3020);
    assert!(heap.allocate(layout(4, 4)).is_ok());
}

#[test]
fn test_zero_size_alloc() {
    let mut heap = Heap::<4>::new();
    heap.add_to_heap(0x4000, 0x4010);
    assert!(heap.allocate(layout(0, 1)).is_ok());
}

#[test]
fn test_align_gt_size() {
    let mut heap = Heap::<4>::new();
    heap.add_to_heap(0x5000, 0x5010);
    assert!(heap.allocate(layout(4, 8)).is_ok());
}

#[test]
fn test_fragmentation() {
    let mut heap = Heap::<5>::new();
    heap.add_to_heap(0x6000, 0x6040);
    let a = heap.allocate(layout(8, 8)).unwrap();
    let _b = heap.allocate(layout(8, 8)).unwrap();
    heap.dealloc(a, layout(8, 8));
    let c = heap.allocate(layout(4, 4)).unwrap();
    assert_eq!(c, a);
}

#[test]
fn test_exhaust_all_space() {
    let mut heap = Heap::<4>::new();
    heap.add_to_heap(0x7000, 0x7010);
    let mut count = 0;
    while heap.allocate(layout(1, 1)).is_ok() {
        count += 1;
    }
    let min_block_size = 1 << (4 - 1);
    assert_eq!(count, heap.stats_total_bytes() / min_block_size);
}

#[test]
fn heap_error_messages() {
    assert_eq!(HeapError::OutOfMemory.to_string(), "Heap: Out of memory");
    assert_eq!(HeapError::InternalError.to_string(), "Heap: Internal error");
}

#[test]
fn heap_alloc_then_dealloc_restores_free_lists() {
    let mut heap = Heap::<16>::new();
    heap.add_to_heap(0x10000, 0x10000 + 2048);
    let first = heap.allocate(layout(24, 8)).unwrap();
    heap.dealloc(first, layout(24, 8));
    // the same requests are served the same way as before
    let again = heap.allocate(layout(24, 8)).unwrap();
    assert_eq!(again, first);
    let big = heap.allocate(layout(1024, 8));
    assert!(big.is_ok());
}

#[test]
fn heap_add_empty_region_at_zero() {
    let mut heap = Heap::<16>::new();
    heap.add_to_heap(0, 4);
    assert_eq!(heap.stats_total_bytes(), 0);
    assert_eq!(align_up(usize::MAX - 7, 8), usize::MAX - 7);
}

#[test]
fn heap_live_blocks_do_not_overlap() {
    let mut heap = Heap::<16>::new();
    heap.add_to_heap(0x10000, 0x12000);
    let sizes = [8usize, 24, 100, 8, 512, 64, 1000, 16];
    let mut blocks: Vec<(usize, usize)> = Vec::new();
    for &s in sizes.iter() {
        let p = heap.allocate(layout(s, 8)).unwrap();
        blocks.push((p, s.next_power_of_two().max(8)));
    }
    for (i, &(a, sa)) in blocks.iter().enumerate() {
        assert!(a >= 0x10000 && a + sa <= 0x12000);
        for &(b, sb) in blocks.iter().skip(i + 1) {
            assert!(a + sa <= b || b + sb <= a);
        }
    }
}
