use proc_core::manager::BIG_STRIDE;
use proc_core::manager::TaskManager;
use proc_core::task::PidAllocator;
use proc_core::task::ProgramImage;
use proc_core::task::TaskControlBlock;
use proc_core::task::TaskStatus;

fn image(user_sp: usize) -> ProgramImage {
    ProgramImage { segments: Vec::new(), entry_point: 0x1000, user_sp }
}

fn task_with_stride(pa: &mut PidAllocator, stride: usize) -> TaskControlBlock {
    let mut t = TaskControlBlock::new(pa, &image(0x8000)).unwrap();
    t.inner.stride = stride;
    t
}

#[test]
fn fetch_on_empty_queue_returns_none() {
    let mut m = TaskManager::new();
    assert!(m.fetch().is_none());
}

#[test]
fn fetch_picks_globally_smallest_stride() {
    let mut pa = PidAllocator::new();
    let mut m = TaskManager::new();
    let a = task_with_stride(&mut pa, 5);
    let b = task_with_stride(&mut pa, 2);
    let c = task_with_stride(&mut pa, 7);
    let (pa_id, pb_id, pc_id) = (a.getpid(), b.getpid(), c.getpid());
    m.add(a);
    m.add(b);
    m.add(c);
    let t = m.fetch().unwrap();
    assert_eq!(t.getpid(), pb_id);
    // the others stay queued, in their order
    assert_eq!(m.ready_queue.len(), 2);
    assert_eq!(m.ready_queue[0].getpid(), pa_id);
    assert_eq!(m.ready_queue[1].getpid(), pc_id);
}

#[test]
fn fetch_breaks_ties_for_the_earliest_enqueued() {
    let mut pa = PidAllocator::new();
    let mut m = TaskManager::new();
    let a = task_with_stride(&mut pa, 3);
    let b = task_with_stride(&mut pa, 3);
    let first = a.getpid();
    m.add(a);
    m.add(b);
    let t = m.fetch().unwrap();
    assert_eq!(t.getpid(), first);
}

#[test]
fn fetch_advances_stride_and_removes_the_task() {
    let mut pa = PidAllocator::new();
    let mut m = TaskManager::new();
    let mut a = task_with_stride(&mut pa, 10);
    assert_eq!(a.set_priority(2), 2);
    let pid = a.getpid();
    m.add(a);
    let t = m.fetch().unwrap();
    assert_eq!(t.getpid(), pid);
    assert_eq!(t.inner.stride, 10 + BIG_STRIDE / 2);
    assert!(m.ready_queue.iter().all(|q| q.getpid() != pid));
    assert!(m.fetch().is_none());
}

#[test]
fn dispatch_counts_follow_priorities() {
    // priority 2 advances half as fast as priority 1, so over many rounds
    // it is dispatched about twice as often
    let mut pa = PidAllocator::new();
    let mut m = TaskManager::new();
    let mut a = task_with_stride(&mut pa, 0);
    let mut b = task_with_stride(&mut pa, 0);
    assert_eq!(a.set_priority(1), 1);
    assert_eq!(b.set_priority(2), 2);
    let (slow, fast) = (a.getpid(), b.getpid());
    m.add(a);
    m.add(b);
    let mut slow_runs = 0usize;
    let mut fast_runs = 0usize;
    for _ in 0..90 {
        let mut t = m.fetch().unwrap();
        if t.getpid() == slow {
            slow_runs += 1;
        } else {
            assert_eq!(t.getpid(), fast);
            fast_runs += 1;
        }
        t.inner.task_status = TaskStatus::Ready;
        m.add(t);
    }
    assert_eq!(slow_runs + fast_runs, 90);
    assert_eq!(slow_runs, 30);
    assert_eq!(fast_runs, 60);
}

#[test]
fn set_priority_rejects_zero_and_negatives() {
    let mut pa = PidAllocator::new();
    let mut t = TaskControlBlock::new(&mut pa, &image(0x8000)).unwrap();
    assert_eq!(t.set_priority(0), -1);
    assert_eq!(t.inner.priority, 2);
    assert_eq!(t.set_priority(-5), -1);
    assert_eq!(t.inner.priority, 2);
    assert_eq!(t.set_priority(7), 7);
    assert_eq!(t.inner.priority, 7);
}
