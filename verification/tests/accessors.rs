use proc_core::mem::PAGE_SIZE;
use proc_core::mem::PERM_U;
use proc_core::mem::PERM_W;
use proc_core::task::PidAllocator;
use proc_core::task::ProgramImage;
use proc_core::task::TaskControlBlock;
use proc_core::task::TaskStatus;

fn fresh_task() -> TaskControlBlock {
    let mut pa = PidAllocator::new();
    let image = ProgramImage { segments: Vec::new(), entry_point: 0x1000, user_sp: 0x8000 };
    TaskControlBlock::new(&mut pa, &image).unwrap()
}

#[test]
fn contain_any_sees_every_kind_of_intersection() {
    let mut t = fresh_task();
    assert_eq!(t.malloc(0x3000, 0x2000, 0b011), 0);
    assert!(t.contain_any(0x3000, 0x1000)); // inside, at the start
    assert!(t.contain_any(0x4000, 0x4000)); // straddling the end
    assert!(t.contain_any(0x2000, 0x2000)); // straddling the start
    assert!(t.contain_any(0x1000, 0x8000)); // containing the area
    assert!(!t.contain_any(0x1000, 0x2000)); // ends at its start
}

#[test]
fn contain_all_accepts_exact_ranges_only() {
    let mut t = fresh_task();
    assert_eq!(t.malloc(0x3000, 0x2000, 0b011), 0);
    assert!(t.contain_all(0x3000, 0x2000));
    assert!(!t.contain_all(0x3000, 0x1000));
    assert!(!t.contain_all(0x2000, 0x3000));
}

#[test]
fn malloc_maps_and_delloc_unmaps_an_exact_area() {
    let mut t = fresh_task();
    let before = t.inner.memory_set.areas.len();
    assert_eq!(t.malloc(0x3000, 0x1800, 0b010), 0);
    let a = t.inner.memory_set.areas.last().unwrap();
    assert_eq!(a.l * PAGE_SIZE, 0x3000);
    assert_eq!(a.r * PAGE_SIZE, 0x5000); // length rounded up to pages
    assert_eq!(a.perm, PERM_W | PERM_U);
    assert_eq!(t.delloc(0x3000, 0x2000), 0);
    assert_eq!(t.inner.memory_set.areas.len(), before);
    assert_eq!(t.delloc(0x3000, 0x2000), -1);
}

#[test]
fn accessors_reflect_the_mutable_state() {
    let mut t = fresh_task();
    assert_eq!(t.get_user_token(), t.getpid());
    assert_eq!(t.inner.get_user_token(), t.getpid());
    assert!(matches!(t.inner.get_status(), TaskStatus::Ready));
    assert!(!t.inner.is_zombie());

    let inner = t.inner_exclusive_access();
    inner.exit_code = 7;
    assert_eq!(t.inner.exit_code, 7);
    let inner = t.get_inner();
    inner.exit_code = 9;
    assert_eq!(t.inner.exit_code, 9);

    let cx = t.inner.get_trap_cx();
    cx.user_sp = 0x4321;
    assert_eq!(t.inner.trap_cx.user_sp, 0x4321);

    t.set_parent(Some(3));
    assert_eq!(t.inner.parent, Some(3));
    t.set_parent(None);
    assert_eq!(t.inner.parent, None);
}

#[test]
fn kernel_stacks_of_different_tasks_do_not_collide() {
    let mut pa = PidAllocator::new();
    let image = ProgramImage { segments: Vec::new(), entry_point: 0x1000, user_sp: 0x8000 };
    let a = TaskControlBlock::new(&mut pa, &image).unwrap();
    let b = TaskControlBlock::new(&mut pa, &image).unwrap();
    let (top_a, top_b) = (a.kernel_stack.get_top(), b.kernel_stack.get_top());
    assert_ne!(top_a, top_b);
    // a later pid's stack sits lower, one guard page apart
    assert_eq!(top_a - top_b, 8192 + 4096);
}
