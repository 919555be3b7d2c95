use proc_core::syscall::sys_exit;
use proc_core::syscall::sys_mmap;
use proc_core::syscall::sys_task_info;
use proc_core::syscall::sys_yield;
use proc_core::syscall::wirte_struct_to_vbuf;
use proc_core::task::PidAllocator;
use proc_core::task::ProgramImage;
use proc_core::task::Segment;
use proc_core::task::TaskControlBlock;
use proc_core::task::TaskStatus;
use proc_core::task::MAX_SYSCALL_NUM;

fn image(user_sp: usize) -> ProgramImage {
    ProgramImage { segments: Vec::new(), entry_point: 0x1000, user_sp }
}

#[test]
fn new_task_starts_ready_with_default_state() {
    let mut pa = PidAllocator::new();
    let t = TaskControlBlock::new(&mut pa, &image(0x8000)).unwrap();
    assert_eq!(t.getpid(), 0);
    assert_eq!(pa.next, 1);
    assert!(matches!(t.get_status(), TaskStatus::Ready));
    assert_eq!(t.inner.priority, 2);
    assert_eq!(t.inner.stride, 0);
    assert_eq!(t.inner.heap_bottom, 0x8000);
    assert_eq!(t.inner.program_brk, 0x8000);
    assert_eq!(t.inner.fd_table, vec![Some(0), Some(1), Some(2)]);
    assert_eq!(t.inner.syscall_times.len(), MAX_SYSCALL_NUM);
    assert_eq!(t.get_user_token(), 0);
    assert!(t.inner.parent.is_none());
    assert!(t.inner.children.is_empty());
}

#[test]
fn new_task_maps_its_segments_user_accessible() {
    let mut pa = PidAllocator::new();
    let img = ProgramImage {
        segments: vec![Segment { start_vpn: 1, end_vpn: 3, perm: 0b101 }],
        entry_point: 0x1000,
        user_sp: 0x8000,
    };
    let t = TaskControlBlock::new(&mut pa, &img).unwrap();
    let a = &t.inner.memory_set.areas[0];
    assert_eq!((a.l, a.r), (1, 3));
    assert_eq!(a.perm, 0b101 | 0b1000);
}

#[test]
fn pids_are_handed_out_in_increasing_order() {
    let mut pa = PidAllocator::new();
    assert_eq!(pa.alloc_pid(), Some(0));
    assert_eq!(pa.alloc_pid(), Some(1));
    assert_eq!(pa.alloc_pid(), Some(2));
}

#[test]
fn alloc_fd_reuses_the_lowest_free_slot() {
    let mut pa = PidAllocator::new();
    let mut t = TaskControlBlock::new(&mut pa, &image(0x8000)).unwrap();
    // all three standard slots taken: the table grows
    assert_eq!(t.inner.alloc_fd(), 3);
    assert_eq!(t.inner.fd_table.len(), 4);
    t.inner.fd_table[1] = None;
    assert_eq!(t.inner.alloc_fd(), 1);
    assert_eq!(t.inner.fd_table.len(), 4);
}

#[test]
fn fork_links_parent_and_child_and_shares_descriptors() {
    let mut pa = PidAllocator::new();
    let mut parent = TaskControlBlock::new(&mut pa, &image(0x8000)).unwrap();
    let child = parent.fork(&mut pa).unwrap();
    assert_eq!(child.getpid(), 1);
    assert_eq!(parent.inner.children, vec![1]);
    assert_eq!(child.inner.parent, Some(0));
    // descriptor slots alias the same capability objects as the parent's
    assert_eq!(child.inner.fd_table, parent.inner.fd_table);
    assert!(matches!(child.get_status(), TaskStatus::Ready));
    assert_eq!(child.inner.stride, 0);
    assert_eq!(child.inner.priority, 2);
    assert_eq!(child.inner.heap_bottom, parent.inner.heap_bottom);
    assert_eq!(child.inner.program_brk, parent.inner.program_brk);
}

#[test]
fn forked_spaces_are_independent() {
    let mut pa = PidAllocator::new();
    let mut parent = TaskControlBlock::new(&mut pa, &image(0x8000)).unwrap();
    assert_eq!(sys_mmap(&mut parent, 0x1000, 0x1000, 0b011), 0);
    let seven = vec![7u8];
    assert_eq!(wirte_struct_to_vbuf(&mut parent.inner.memory_set, &seven, 0x1234), 0);
    let mut child = parent.fork(&mut pa).unwrap();
    // the child sees the parent's bytes as of the fork
    assert_eq!(child.inner.memory_set.read_byte(0x1234), Some(7));
    // a write by the child is invisible to the parent
    let nine = vec![9u8];
    assert_eq!(wirte_struct_to_vbuf(&mut child.inner.memory_set, &nine, 0x1234), 0);
    assert_eq!(child.inner.memory_set.read_byte(0x1234), Some(9));
    assert_eq!(parent.inner.memory_set.read_byte(0x1234), Some(7));
    // and a later write by the parent is invisible to the child
    let five = vec![5u8];
    assert_eq!(wirte_struct_to_vbuf(&mut parent.inner.memory_set, &five, 0x1234), 0);
    assert_eq!(child.inner.memory_set.read_byte(0x1234), Some(9));
}

#[test]
fn exec_replaces_the_space_but_keeps_identity_and_files() {
    let mut pa = PidAllocator::new();
    let mut t = TaskControlBlock::new(&mut pa, &image(0x8000)).unwrap();
    assert_eq!(sys_mmap(&mut t, 0x1000, 0x1000, 0b011), 0);
    t.inner.fd_table.push(Some(9));
    let fds = t.inner.fd_table.clone();
    let next = ProgramImage {
        segments: vec![Segment { start_vpn: 2, end_vpn: 4, perm: 0b111 }],
        entry_point: 0x2000,
        user_sp: 0x10000,
    };
    t.exec(&next);
    assert_eq!(t.getpid(), 0);
    assert_eq!(t.inner.fd_table, fds);
    assert_eq!(t.inner.trap_cx.entry, 0x2000);
    assert_eq!(t.inner.trap_cx.user_sp, 0x10000);
    // the mapped area of the old space is gone
    assert_eq!(t.inner.memory_set.read_byte(0x1000), None);
    let a = &t.inner.memory_set.areas[0];
    assert_eq!((a.l, a.r), (2, 4));
}

#[test]
fn exit_makes_a_zombie_that_keeps_its_code() {
    let mut pa = PidAllocator::new();
    let mut t = TaskControlBlock::new(&mut pa, &image(0x8000)).unwrap();
    sys_exit(&mut t, 42);
    assert!(matches!(t.get_status(), TaskStatus::Zombie));
    assert!(t.inner.is_zombie());
    assert_eq!(t.inner.exit_code, 42);
}

#[test]
fn yield_returns_zero_and_marks_ready() {
    let mut pa = PidAllocator::new();
    let mut t = TaskControlBlock::new(&mut pa, &image(0x8000)).unwrap();
    t.inner.task_status = TaskStatus::Running;
    assert_eq!(sys_yield(&mut t), 0);
    assert!(matches!(t.get_status(), TaskStatus::Ready));
}

#[test]
fn task_info_reports_status_counters_and_elapsed_time() {
    let mut pa = PidAllocator::new();
    let mut t = TaskControlBlock::new(&mut pa, &image(0x8000)).unwrap();
    t.record_syscall(5);
    t.record_syscall(5);
    t.record_syscall(7);
    t.inner.begin_time = 10;
    // room for the whole record: 9 + 4 * 500 bytes
    assert_eq!(sys_mmap(&mut t, 0x1000, 0x1000 + 4 * MAX_SYSCALL_NUM, 0b011), 0);
    let ti = 0x1ff0; // straddles a page boundary
    assert_eq!(sys_task_info(&mut t, ti, 52), 0);
    let ms = &t.inner.memory_set;
    // status Ready encodes as 1
    assert_eq!(ms.read_byte(ti), Some(1));
    // counter 5 is 2, counter 7 is 1, counter 6 is 0
    assert_eq!(ms.read_byte(ti + 1 + 4 * 5), Some(2));
    assert_eq!(ms.read_byte(ti + 1 + 4 * 6), Some(0));
    assert_eq!(ms.read_byte(ti + 1 + 4 * 7), Some(1));
    // elapsed: 52 - 10 = 42
    assert_eq!(ms.read_byte(ti + 1 + 4 * MAX_SYSCALL_NUM), Some(42));
}

#[test]
fn task_info_fails_on_an_unmapped_buffer() {
    let mut pa = PidAllocator::new();
    let mut t = TaskControlBlock::new(&mut pa, &image(0x8000)).unwrap();
    assert_eq!(sys_task_info(&mut t, 0x1000, 0), -1);
}
