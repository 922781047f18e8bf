use ysos::frames::FrameAllocator;
use ysos::heap::HEAP_END;
use ysos::heap::HEAP_START;
use ysos::heap::Heap;

#[test]
fn brk_none_reads_the_break() {
    let mut alloc = FrameAllocator::new(100);
    let mut heap = Heap::empty();
    assert_eq!(heap.brk(None, &mut alloc), Some(HEAP_START));
    assert_eq!(alloc.free, 100);
}

#[test]
fn brk_grow_write_read_shrink() {
    // grow by ten pages, then shrink back to the old break
    let mut alloc = FrameAllocator::new(100);
    let mut heap = Heap::empty();
    let e = heap.brk(None, &mut alloc).unwrap();
    let n = heap.brk(Some(e + 10 * 4096), &mut alloc).unwrap();
    assert_eq!(n, e + 40960);
    assert_eq!(heap.mapped_pages_count(), 10);
    assert_eq!(alloc.free, 90);
    let back = heap.brk(Some(e), &mut alloc).unwrap();
    assert_eq!(back, e);
    assert_eq!(heap.mapped_pages_count(), 0);
    assert_eq!(alloc.free, 100);
}

#[test]
fn brk_to_base_twice_is_idempotent() {
    let mut alloc = FrameAllocator::new(16);
    let mut heap = Heap::empty();
    heap.brk(Some(HEAP_START + 5000), &mut alloc).unwrap();
    assert_eq!(heap.brk(Some(HEAP_START), &mut alloc), Some(HEAP_START));
    assert_eq!(heap.mapped_pages_count(), 0);
    assert_eq!(alloc.free, 16);
    assert_eq!(heap.brk(Some(HEAP_START), &mut alloc), Some(HEAP_START));
    assert_eq!(heap.mapped_pages_count(), 0);
    assert_eq!(alloc.free, 16);
}

#[test]
fn brk_round_trips_every_byte_granular_break() {
    let mut alloc = FrameAllocator::new(16);
    let mut heap = Heap::empty();
    for offset in [0u64, 1, 7, 4095, 4096, 4097, 40960] {
        let x = HEAP_START + offset;
        assert_eq!(heap.brk(Some(x), &mut alloc), Some(x));
        assert_eq!(heap.brk(None, &mut alloc), Some(x));
    }
    let x = HEAP_END;
    let mut big = FrameAllocator::new(0x200000);
    let mut heap2 = Heap::empty();
    assert_eq!(heap2.brk(Some(x), &mut big), Some(x));
    assert_eq!(heap2.brk(None, &mut big), Some(x));
}

#[test]
fn brk_rejects_out_of_range_and_exhaustion() {
    let mut alloc = FrameAllocator::new(2);
    let mut heap = Heap::empty();
    assert_eq!(heap.brk(Some(HEAP_START - 8), &mut alloc), None);
    assert_eq!(heap.brk(Some(HEAP_END + 1), &mut alloc), None);
    // three pages cannot come out of two frames; the break must not move
    assert_eq!(heap.brk(Some(HEAP_START + 3 * 4096), &mut alloc), None);
    assert_eq!(heap.brk(None, &mut alloc), Some(HEAP_START));
    assert_eq!(alloc.free, 2);
}
