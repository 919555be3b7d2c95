use proc_core::mem::PAGE_SIZE;
use proc_core::mem::PERM_R;
use proc_core::mem::PERM_U;
use proc_core::mem::PERM_W;
use proc_core::syscall::sys_get_time;
use proc_core::syscall::sys_mmap;
use proc_core::syscall::sys_munmap;
use proc_core::syscall::sys_sbrk;
use proc_core::syscall::wirte_struct_to_vbuf;
use proc_core::task::PidAllocator;
use proc_core::task::ProgramImage;
use proc_core::task::TaskControlBlock;

fn fresh_task() -> TaskControlBlock {
    let mut pa = PidAllocator::new();
    let image = ProgramImage { segments: Vec::new(), entry_point: 0x1000, user_sp: 0x8000 };
    TaskControlBlock::new(&mut pa, &image).unwrap()
}

#[test]
fn mmap_on_free_range_creates_one_user_area() {
    let mut t = fresh_task();
    let before = t.inner.memory_set.areas.len();
    assert_eq!(sys_mmap(&mut t, 0x1000, 0x2000, 0b011), 0);
    assert_eq!(t.inner.memory_set.areas.len(), before + 1);
    let a = t.inner.memory_set.areas.last().unwrap();
    assert_eq!(a.l * PAGE_SIZE, 0x1000);
    assert_eq!(a.r * PAGE_SIZE, 0x3000);
    assert_eq!(a.perm, PERM_R | PERM_W | PERM_U);
}

#[test]
fn mmap_rejects_any_intersection_with_an_existing_area() {
    let mut t = fresh_task();
    assert_eq!(sys_mmap(&mut t, 0x1000, 0x2000, 0b011), 0);
    let areas = t.inner.memory_set.areas.len();
    // fully inside
    assert_eq!(sys_mmap(&mut t, 0x1000, 0x1000, 0b001), -1);
    assert_eq!(sys_mmap(&mut t, 0x2000, 0x1000, 0b001), -1);
    // fully containing
    assert_eq!(sys_mmap(&mut t, 0x0, 0x4000, 0b001), -1);
    // partially overlapping from either side
    assert_eq!(sys_mmap(&mut t, 0x2000, 0x2000, 0b001), -1);
    assert_eq!(sys_mmap(&mut t, 0x0, 0x2000, 0b001), -1);
    assert_eq!(t.inner.memory_set.areas.len(), areas);
}

#[test]
fn mmap_validates_alignment_and_permission_bits() {
    let mut t = fresh_task();
    let areas = t.inner.memory_set.areas.len();
    assert_eq!(sys_mmap(&mut t, 0x1001, 0x1000, 0b011), -1);
    assert_eq!(sys_mmap(&mut t, 0x1000, 0x1000, 0), -1);
    assert_eq!(sys_mmap(&mut t, 0x1000, 0x1000, 0b1000), -1);
    assert_eq!(sys_mmap(&mut t, 0x1000, 0x1000, 0x17), -1);
    assert_eq!(t.inner.memory_set.areas.len(), areas);
}

#[test]
fn mmap_rounds_the_length_up_to_whole_pages() {
    let mut t = fresh_task();
    assert_eq!(sys_mmap(&mut t, 0x1000, 0x1001, 0b001), 0);
    let a = t.inner.memory_set.areas.last().unwrap();
    assert_eq!(a.l * PAGE_SIZE, 0x1000);
    assert_eq!(a.r * PAGE_SIZE, 0x3000);
}

#[test]
fn munmap_removes_an_exact_match_once() {
    let mut t = fresh_task();
    assert_eq!(sys_mmap(&mut t, 0x1000, 0x2000, 0b011), 0);
    let before = t.inner.memory_set.areas.len();
    assert_eq!(sys_munmap(&mut t, 0x1000, 0x2000), 0);
    assert_eq!(t.inner.memory_set.areas.len(), before - 1);
    // the area is gone, so repeating the call fails
    assert_eq!(sys_munmap(&mut t, 0x1000, 0x2000), -1);
}

#[test]
fn munmap_rejects_partial_and_superset_ranges() {
    let mut t = fresh_task();
    assert_eq!(sys_mmap(&mut t, 0x1000, 0x2000, 0b011), 0);
    assert_eq!(sys_munmap(&mut t, 0x1000, 0x1000), -1);
    assert_eq!(sys_munmap(&mut t, 0x1000, 0x4000), -1);
    assert_eq!(sys_munmap(&mut t, 0x1001, 0x2000), -1);
    assert_eq!(sys_munmap(&mut t, 0x1000, 0x2000), 0);
}

#[test]
fn sbrk_grows_and_reports_the_old_break() {
    let mut t = fresh_task();
    assert_eq!(t.inner.program_brk, 0x8000);
    assert_eq!(sys_sbrk(&mut t, 0x1000), 0x8000);
    assert_eq!(t.inner.program_brk, 0x9000);
}

#[test]
fn sbrk_below_heap_bottom_fails_and_changes_nothing() {
    let mut t = fresh_task();
    assert_eq!(sys_sbrk(&mut t, 0x1000), 0x8000);
    // 0x9000 - 0x2000 would fall below the heap bottom 0x8000
    assert_eq!(sys_sbrk(&mut t, -0x2000), -1);
    assert_eq!(t.inner.program_brk, 0x9000);
}

#[test]
fn sbrk_shrinks_back_within_the_heap() {
    let mut t = fresh_task();
    assert_eq!(sys_sbrk(&mut t, 0x2000), 0x8000);
    assert_eq!(sys_sbrk(&mut t, -0x1000), 0xA000);
    assert_eq!(t.inner.program_brk, 0x9000);
}

#[test]
fn written_bytes_come_back_across_a_page_boundary() {
    let mut t = fresh_task();
    assert_eq!(sys_mmap(&mut t, 0x1000, 0x2000, 0b011), 0);
    let data = vec![0xAAu8, 0xBB, 0xCC, 0xDD];
    // two bytes land on the first page, two on the second
    assert_eq!(wirte_struct_to_vbuf(&mut t.inner.memory_set, &data, 0x1FFE), 0);
    assert_eq!(t.inner.memory_set.read_byte(0x1FFE), Some(0xAA));
    assert_eq!(t.inner.memory_set.read_byte(0x1FFF), Some(0xBB));
    assert_eq!(t.inner.memory_set.read_byte(0x2000), Some(0xCC));
    assert_eq!(t.inner.memory_set.read_byte(0x2001), Some(0xDD));
    // a fresh page is zeroed around the write
    assert_eq!(t.inner.memory_set.read_byte(0x1FFD), Some(0));
    assert_eq!(t.inner.memory_set.read_byte(0x2002), Some(0));
}

#[test]
fn writes_to_unbacked_ranges_fail_without_effect() {
    let mut t = fresh_task();
    assert_eq!(sys_mmap(&mut t, 0x1000, 0x1000, 0b011), 0);
    let data = vec![1u8, 2, 3];
    // the range runs off the end of the mapped page
    assert_eq!(wirte_struct_to_vbuf(&mut t.inner.memory_set, &data, 0x1FFE), -1);
    assert_eq!(t.inner.memory_set.read_byte(0x1FFE), Some(0));
    assert_eq!(t.inner.memory_set.read_byte(0x5000), None);
}

#[test]
fn get_time_writes_seconds_then_microseconds_little_endian() {
    let mut t = fresh_task();
    assert_eq!(sys_mmap(&mut t, 0x1000, 0x2000, 0b011), 0);
    // the sixteen bytes straddle the boundary between the two pages
    let ts = 0x2000 - 8;
    assert_eq!(sys_get_time(&mut t, ts, 0, 2_500_000), 0);
    // seconds: 2
    assert_eq!(t.inner.memory_set.read_byte(ts), Some(2));
    for k in 1..8 {
        assert_eq!(t.inner.memory_set.read_byte(ts + k), Some(0));
    }
    // microseconds: 500000 = 0x07A120
    assert_eq!(t.inner.memory_set.read_byte(ts + 8), Some(0x20));
    assert_eq!(t.inner.memory_set.read_byte(ts + 9), Some(0xA1));
    assert_eq!(t.inner.memory_set.read_byte(ts + 10), Some(0x07));
    for k in 11..16 {
        assert_eq!(t.inner.memory_set.read_byte(ts + k), Some(0));
    }
}

#[test]
fn get_time_fails_on_an_unmapped_buffer() {
    let mut t = fresh_task();
    assert_eq!(sys_get_time(&mut t, 0x1000, 0, 1), -1);
}

#[test]
fn mmap_with_zero_length_claims_no_pages() {
    let mut t = fresh_task();
    let before = t.inner.memory_set.areas.len();
    // an empty range on free ground is accepted and maps nothing
    assert_eq!(sys_mmap(&mut t, 0x1000, 0, 0b001), 0);
    let a = t.inner.memory_set.areas.last().unwrap();
    assert_eq!((a.l, a.r), (1, 1));
    assert_eq!(t.inner.memory_set.areas.len(), before + 1);
    assert_eq!(t.inner.memory_set.read_byte(0x1000), None);
    // an empty range starting inside an area is still a conflict
    assert_eq!(sys_mmap(&mut t, 0x3000, 0x1000, 0b001), 0);
    assert_eq!(sys_mmap(&mut t, 0x3000, 0, 0b001), -1);
}

#[test]
fn munmap_rounds_its_length_up_like_mmap() {
    let mut t = fresh_task();
    assert_eq!(sys_mmap(&mut t, 0x1000, 0x2000, 0b011), 0);
    // 0x1001 bytes round up to the same two pages
    assert_eq!(sys_munmap(&mut t, 0x1000, 0x1001), 0);
    assert_eq!(sys_munmap(&mut t, 0x1000, 0x2000), -1);
}

#[test]
fn sbrk_of_zero_reports_the_break_and_changes_nothing() {
    let mut t = fresh_task();
    assert_eq!(sys_sbrk(&mut t, 0), 0x8000);
    assert_eq!(t.inner.program_brk, 0x8000);
}
