//! Task control blocks and their lifecycle.
//!
//! A task owns an immutable identity (process id and kernel stack) and a
//! block of mutable state: status, saved contexts, address space, process
//! relations, descriptor table, heap bounds and scheduling fields. On this
//! single, cooperatively scheduled CPU, exclusive access to the mutable
//! state is what a `&mut` borrow grants; the borrow checker refuses the
//! re-entrant acquisition that the runtime's exclusivity guard would have to
//! reject at run time.

use vstd::prelude::*;
use crate::mem::MAX_VA;
use crate::mem::MAX_VPN;
use crate::mem::MemorySet;
use crate::mem::PAGE_SIZE;
use crate::mem::PERM_R;
use crate::mem::PERM_U;
use crate::mem::PERM_W;
use crate::mem::can_append;
use crate::mem::can_shrink;
use crate::mem::find_by_start;
use crate::mem::find_exact;
use crate::mem::all_bytes_zero;
use crate::mem::mapped_within;
use crate::mem::preserves_bytes;
use crate::mem::preserves_bytes_outside;
use crate::mem::range_unmapped;
use crate::mem::range_zero_mapped;
use crate::mem::ranges_overlap;
use crate::mem::same_content;
use crate::mem::MapArea;
use crate::mem::MapType;

verus! {

/// Number of distinct syscall numbers whose invocations are counted.
pub const MAX_SYSCALL_NUM: usize = 500;

/// Scheduling priority given to every freshly created task.
pub const DEFAULT_PRIORITY: isize = 2;

/// Exclusive upper bound on process ids.
pub const MAX_PID: usize = 0x10000;

/// Bytes of one kernel stack.
pub const KERNEL_STACK_SIZE: usize = 8192;

/// Highest kernel-stack address; stacks for successive pids grow downward
/// from here, one guard page between neighbours.
pub const KSTACK_TOP: usize = 0xF000_0000;

/// Virtual page holding a task's trap context: the highest user page.
pub const TRAP_CONTEXT_VPN: usize = 0x40000 - 1;

/// Pages of the user stack mapped below `user_sp`.
pub const USER_STACK_PAGES: usize = 2;

/// The execution states of a task. A task is in exactly one of them, and
/// `Zombie` is terminal.
#[derive(Clone, Copy, PartialEq, Eq, Structural, Debug)]
pub enum TaskStatus {
    /// Created but not yet initialized.
    UnInit,
    /// Runnable, waiting in the ready queue.
    Ready,
    /// The single task currently on the CPU.
    Running,
    /// Exited; retains its exit code until reaped.
    Zombie,
}

/// The register state saved at a user trap, reduced to the fields this
/// layer decides about: where the task resumes, its user stack pointer and
/// the kernel stack to trap into.
#[derive(Clone, Copy, PartialEq, Eq, Structural, Debug)]
pub struct TrapContext {
    /// User-mode resume address.
    pub entry: usize,
    /// User stack pointer at resume.
    pub user_sp: usize,
    /// Kernel stack to switch to on the next trap.
    pub kernel_sp: usize,
}

impl TrapContext {
    /// The trap context a fresh program starts from.
    pub fn app_init_context(entry: usize, sp: usize, kernel_sp: usize) -> (r: TrapContext)
        ensures
            r == (TrapContext { entry, user_sp: sp, kernel_sp }),
    {
        TrapContext { entry, user_sp: sp, kernel_sp }
    }
}

/// The kernel-side saved context of a suspended task; dispatch resumes it.
#[derive(Clone, Copy, PartialEq, Eq, Structural, Debug)]
pub struct TaskContext {
    /// Kernel stack pointer the context switch restores.
    pub sp: usize,
}

impl TaskContext {
    /// The context that makes a first dispatch return to user mode over the
    /// given kernel stack.
    pub fn goto_trap_return(kstack_top: usize) -> (r: TaskContext)
        ensures
            r == (TaskContext { sp: kstack_top }),
    {
        TaskContext { sp: kstack_top }
    }
}

/// Allocates process ids, each exactly once, in increasing order; ids are
/// therefore unique for the lifetime of the kernel and never reused.
pub struct PidAllocator {
    /// The next id to hand out.
    pub next: usize,
}

impl PidAllocator {
    /// An allocator that starts at process id 0.
    pub fn new() -> (r: PidAllocator)
        ensures
            r.next == 0,
    {
        PidAllocator { next: 0 }
    }

    /// Hands out the next process id, or fails explicitly when the id space
    /// is exhausted.
    pub fn alloc_pid(&mut self) -> (r: Option<usize>)
        ensures
            old(self).next < MAX_PID ==> r == Some(old(self).next) && final(self).next == old(
                self,
            ).next + 1,
            old(self).next >= MAX_PID ==> r is None && *final(self) == *old(self),
    {
        if self.next < MAX_PID {
            let p = self.next;
            self.next = p + 1;
            Some(p)
        } else {
            None
        }
    }
}

/// Ids handed out later are strictly larger, so no two allocations ever
/// return the same process id.
pub proof fn lemma_pids_unique(a0: PidAllocator, a1: PidAllocator, p0: usize, p1: usize)
    requires
        p0 == a0.next,
        a1.next > a0.next,
        p1 >= a1.next,
    ensures
        p0 != p1,
{
}

/// The kernel stack tied to one process id, in kernel space.
#[derive(Clone, Copy, PartialEq, Eq, Structural, Debug)]
pub struct KernelStack {
    /// The process id the stack belongs to.
    pub pid: usize,
}

/// Where the kernel stack of `pid` ends (its top, exclusive).
pub open spec fn kernel_stack_top(pid: int) -> int {
    KSTACK_TOP - pid * (KERNEL_STACK_SIZE + PAGE_SIZE)
}

impl KernelStack {
    /// The top address of this kernel stack.
    pub fn get_top(&self) -> (r: usize)
        requires
            self.pid < MAX_PID,
        ensures
            r == kernel_stack_top(self.pid as int),
    {
        proof {
            assert(KERNEL_STACK_SIZE + PAGE_SIZE == 12288);
            assert(self.pid * 12288 < 0xF000_0000) by (nonlinear_arith)
                requires
                    self.pid < 0x10000,
            ;
        }
        KSTACK_TOP - self.pid * (KERNEL_STACK_SIZE + PAGE_SIZE)
    }
}

/// Allocates the kernel stack that belongs to a process id.
pub fn kstack_alloc(pid: usize) -> (r: KernelStack)
    requires
        pid < MAX_PID,
    ensures
        r.pid == pid,
{
    KernelStack { pid }
}

/// One loadable segment of an already parsed program image: a page range
/// and its access permission bits.
#[derive(Clone, Copy, PartialEq, Eq, Structural, Debug)]
pub struct Segment {
    /// First page of the segment.
    pub start_vpn: usize,
    /// One past the last page of the segment.
    pub end_vpn: usize,
    /// Permission bits, a subset of `PERM_R | PERM_W | PERM_X`.
    pub perm: u8,
}

/// A program image after parsing: its loadable segments, entry point and
/// initial user stack top. Parsing the on-disk format is a collaborator's
/// job; this layer maps what the parser found.
pub struct ProgramImage {
    /// Loadable segments, with pairwise disjoint page ranges.
    pub segments: Vec<Segment>,
    /// Address of the first instruction to execute.
    pub entry_point: usize,
    /// Initial user stack top; the heap starts here as well.
    pub user_sp: usize,
}

impl ProgramImage {
    /// The layout an image must have before it can be mapped: aligned stack
    /// top, segments below the user stack, everything below the trap page.
    pub open spec fn wf(self) -> bool {
        &&& self.user_sp % PAGE_SIZE == 0
        &&& USER_STACK_PAGES <= self.user_sp / PAGE_SIZE < TRAP_CONTEXT_VPN
        &&& forall|j: int|
            0 <= j < self.segments@.len() ==> {
                &&& (#[trigger] self.segments@[j]).start_vpn <= self.segments@[j].end_vpn
                &&& self.segments@[j].end_vpn + USER_STACK_PAGES <= self.user_sp / PAGE_SIZE
                &&& self.segments@[j].perm < 8
            }
        &&& forall|i: int, j: int|
            0 <= i < self.segments@.len() && 0 <= j < self.segments@.len() && i != j
                ==> !ranges_overlap(
                (#[trigger] self.segments@[i]).start_vpn as int,
                self.segments@[i].end_vpn as int,
                (#[trigger] self.segments@[j]).start_vpn as int,
                self.segments@[j].end_vpn as int,
            )
    }
}

/// Whether `ms` is laid out as a fresh user space for `image` under
/// page-table token `token`: each segment mapped user-accessible, then the
/// user stack, the trap-context page, and an empty heap area at the stack
/// top.
pub open spec fn image_layout(ms: MemorySet, image: ProgramImage, token: usize) -> bool {
    let n = image.segments@.len() as int;
    let sp_vpn = image.user_sp as int / PAGE_SIZE as int;
    &&& ms.token == token
    &&& ms.areas@.len() == n + 3
    &&& forall|j: int|
        0 <= j < n ==> {
            &&& (#[trigger] ms.areas@[j]).l == image.segments@[j].start_vpn
            &&& ms.areas@[j].r == image.segments@[j].end_vpn
            &&& ms.areas@[j].perm == image.segments@[j].perm | PERM_U
            &&& ms.areas@[j].map_type == MapType::Framed
        }
    &&& ms.areas@[n].l == sp_vpn - USER_STACK_PAGES
    &&& ms.areas@[n].r == sp_vpn
    &&& ms.areas@[n].perm == PERM_R | PERM_W | PERM_U
    &&& ms.areas@[n].map_type == MapType::Framed
    &&& ms.areas@[n + 1].l == TRAP_CONTEXT_VPN
    &&& ms.areas@[n + 1].r == MAX_VPN
    &&& ms.areas@[n + 1].perm == PERM_R | PERM_W
    &&& ms.areas@[n + 1].map_type == MapType::Framed
    &&& ms.areas@[n + 2].l == sp_vpn
    &&& ms.areas@[n + 2].r == sp_vpn
    &&& ms.areas@[n + 2].perm == PERM_R | PERM_W | PERM_U
    &&& ms.areas@[n + 2].map_type == MapType::Framed
}

/// Builds the user address space of a program image: its segments with the
/// user flag added, the user stack, the trap-context page and the initial,
/// empty heap area, all eagerly backed by zeroed frames.
#[verifier::loop_isolation(false)]
pub fn from_image(image: &ProgramImage, token: usize) -> (ms: MemorySet)
    requires
        image.wf(),
    ensures
        ms.wf(),
        image_layout(ms, *image, token),
        all_bytes_zero(ms),
{
    let sp_vpn = image.user_sp / PAGE_SIZE;
    let mut ms = MemorySet::new_bare(token);
    let n = image.segments.len();
    let mut j: usize = 0;
    while j < n
        invariant
            0 <= j <= n,
            n == image.segments@.len(),
            ms.wf(),
            ms.token == token,
            ms.areas@.len() == j,
            all_bytes_zero(ms),
            forall|w: int|
                0 <= w < j ==> {
                    &&& (#[trigger] ms.areas@[w]).l == image.segments@[w].start_vpn
                    &&& ms.areas@[w].r == image.segments@[w].end_vpn
                    &&& ms.areas@[w].perm == image.segments@[w].perm | PERM_U
                    &&& ms.areas@[w].map_type == MapType::Framed
                },
        decreases n - j,
    {
        let seg = image.segments[j];
        let ghost sp = seg.perm;
        proof {
            assert(sp < 8);
            assert((sp | 8u8) < 16) by (bit_vector)
                requires
                    sp < 8u8,
            ;
            assert((seg.perm | PERM_U) < 16);
            assert forall|w: int|
                0 <= w < ms.areas@.len() implies !ranges_overlap(
                seg.start_vpn as int,
                seg.end_vpn as int,
                (#[trigger] ms.areas@[w]).l as int,
                ms.areas@[w].r as int,
            ) by {
                assert(!ranges_overlap(
                    image.segments@[j as int].start_vpn as int,
                    image.segments@[j as int].end_vpn as int,
                    image.segments@[w].start_vpn as int,
                    image.segments@[w].end_vpn as int,
                ));
            }
        }
        let ghost pre = ms;
        ms.insert_framed_area(seg.start_vpn, seg.end_vpn, seg.perm | PERM_U);
        proof {
            lemma_fresh_area_stays_zero(pre, ms, seg.start_vpn as int, seg.end_vpn as int);
        }
        j += 1;
    }
    proof {
        assert((1u8 | 2u8 | 8u8) == 11u8) by (bit_vector);
        assert((1u8 | 2u8) == 3u8) by (bit_vector);
        assert((PERM_R | PERM_W | PERM_U) == 11u8);
        assert((PERM_R | PERM_W) == 3u8);
    }
    let ghost pre1 = ms;
    ms.insert_framed_area(sp_vpn - USER_STACK_PAGES, sp_vpn, PERM_R | PERM_W | PERM_U);
    proof {
        lemma_fresh_area_stays_zero(pre1, ms, (sp_vpn - USER_STACK_PAGES) as int, sp_vpn as int);
    }
    let ghost pre2 = ms;
    ms.insert_framed_area(TRAP_CONTEXT_VPN, MAX_VPN, PERM_R | PERM_W);
    proof {
        lemma_fresh_area_stays_zero(pre2, ms, TRAP_CONTEXT_VPN as int, MAX_VPN as int);
    }
    let ghost pre3 = ms;
    ms.insert_framed_area(sp_vpn, sp_vpn, PERM_R | PERM_W | PERM_U);
    proof {
        lemma_fresh_area_stays_zero(pre3, ms, sp_vpn as int, sp_vpn as int);
    }
    ms
}

/// Mapping one more zero-backed range keeps an all-zero space all zero.
pub proof fn lemma_fresh_area_stays_zero(m0: MemorySet, m1: MemorySet, l: int, r: int)
    requires
        all_bytes_zero(m0),
        preserves_bytes(m0, m1),
        crate::mem::range_zero_mapped(m1, l, r),
        mapped_within(m0, m1, l, r),
    ensures
        all_bytes_zero(m1),
{
    assert forall|va: int| #[trigger] m1.mapped_framed(va) implies m1.byte_at(va) == 0 by {
        if m0.mapped_framed(va) {
            assert(m1.byte_at(va) == m0.byte_at(va));
        } else {
            assert(l * PAGE_SIZE <= va < r * PAGE_SIZE);
        }
    }
}


/// The independently guarded mutable state of a task.
pub struct TaskControlBlockInner {
    /// Trap context the task resumes from.
    pub trap_cx: TrapContext,
    /// Highest address the program image itself occupies.
    pub base_size: usize,
    /// Saved kernel context for the next dispatch.
    pub task_cx: TaskContext,
    /// Current execution state.
    pub task_status: TaskStatus,
    /// The task's address space.
    pub memory_set: MemorySet,
    /// Process id of the parent, a back-reference only.
    pub parent: Option<usize>,
    /// Process ids of the children.
    pub children: Vec<usize>,
    /// Exit code, meaningful once the task is a zombie.
    pub exit_code: i32,
    /// Descriptor table: each slot empty or the id of a shared file
    /// capability object.
    pub fd_table: Vec<Option<usize>>,
    /// Lower bound of the heap.
    pub heap_bottom: usize,
    /// Current program break; never below `heap_bottom`.
    pub program_brk: usize,
    /// Time of the first dispatch.
    pub begin_time: usize,
    /// Invocation count per syscall number.
    pub syscall_times: Vec<u32>,
    /// Stride scheduling counter.
    pub stride: usize,
    /// Scheduling priority, always at least 1.
    pub priority: isize,
}

impl TaskControlBlockInner {
    /// The trap context, for the trap path to fill and read.
    pub fn get_trap_cx(&mut self) -> (r: &mut TrapContext)
        ensures
            *r == old(self).trap_cx,
            *final(self) == (TaskControlBlockInner { trap_cx: *final(r), ..*old(self) }),
    {
        &mut self.trap_cx
    }

    /// The page-table token of the task's address space.
    pub fn get_user_token(&self) -> (r: usize)
        ensures
            r == self.memory_set.token,
    {
        self.memory_set.token()
    }

    /// The task's current status.
    pub fn get_status(&self) -> (r: TaskStatus)
        ensures
            r == self.task_status,
    {
        self.task_status
    }

    /// Whether the task has exited and awaits reaping.
    pub fn is_zombie(&self) -> (r: bool)
        ensures
            r == (self.task_status is Zombie),
    {
        matches!(self.get_status(), TaskStatus::Zombie)
    }

    /// The lowest free descriptor slot; extends the table by one empty slot
    /// when every slot is taken. The caller fills the returned slot.
    pub fn alloc_fd(&mut self) -> (r: usize)
        ensures
            r <= old(self).fd_table@.len(),
            forall|j: int| 0 <= j < r ==> (#[trigger] old(self).fd_table@[j]) is Some,
            r < old(self).fd_table@.len() ==> *final(self) == *old(self) && old(self).fd_table@[r as int] is None,
            r == old(self).fd_table@.len() ==> final(self).fd_table@ == old(self).fd_table@.push(
                None,
            ) && *final(self) == (TaskControlBlockInner {
                fd_table: final(self).fd_table,
                ..*old(self)
            }),
    {
        let n = self.fd_table.len();
        let mut fd: usize = 0;
        while fd < n
            invariant
                0 <= fd <= n,
                n == self.fd_table@.len(),
                *self == *old(self),
                forall|j: int| 0 <= j < fd ==> (#[trigger] self.fd_table@[j]) is Some,
            decreases n - fd,
        {
            if self.fd_table[fd].is_none() {
                return fd;
            }
            fd += 1;
        }
        self.fd_table.push(None);
        proof {
            assert(self.fd_table@ =~= old(self).fd_table@.push(None));
        }
        n
    }
}

/// A task control block: immutable identity plus guarded mutable state.
pub struct TaskControlBlock {
    /// Unique process id.
    pub pid: usize,
    /// The kernel stack owned by the task.
    pub kernel_stack: KernelStack,
    /// The guarded mutable state.
    pub inner: TaskControlBlockInner,
}

impl TaskControlBlock {
    /// A task's structural invariant.
    pub open spec fn wf(self) -> bool {
        &&& self.pid < MAX_PID
        &&& self.kernel_stack.pid == self.pid
        &&& self.inner.memory_set.wf()
        &&& self.inner.memory_set.token == self.pid
        &&& self.inner.priority >= 1
        &&& self.inner.heap_bottom <= self.inner.program_brk <= MAX_VA
        &&& self.inner.heap_bottom % PAGE_SIZE == 0
        &&& self.inner.syscall_times@.len() == MAX_SYSCALL_NUM
    }

    /// Exclusive access to the mutable state. The `&mut` borrow is this
    /// kernel's single-owner guard: a second, aliasing acquisition is
    /// refused at compile time instead of failing at run time.
    pub fn inner_exclusive_access(&mut self) -> (r: &mut TaskControlBlockInner)
        ensures
            *r == old(self).inner,
            final(self).pid == old(self).pid,
            final(self).kernel_stack == old(self).kernel_stack,
            final(self).inner == *final(r),
    {
        &mut self.inner
    }

    /// Exclusive access to the mutable state, as `inner_exclusive_access`.
    pub fn get_inner(&mut self) -> (r: &mut TaskControlBlockInner)
        ensures
            *r == old(self).inner,
            final(self).pid == old(self).pid,
            final(self).kernel_stack == old(self).kernel_stack,
            final(self).inner == *final(r),
    {
        &mut self.inner
    }

    /// The page-table token of the task's address space.
    pub fn get_user_token(&self) -> (r: usize)
        ensures
            r == self.inner.memory_set.token,
    {
        self.inner.get_user_token()
    }

    /// The task's current status.
    pub fn get_status(&self) -> (r: TaskStatus)
        ensures
            r == self.inner.task_status,
    {
        self.inner.get_status()
    }

    /// The task's process id.
    pub fn getpid(&self) -> (r: usize)
        ensures
            r == self.pid,
    {
        self.pid
    }

    /// Records the parent back-reference.
    pub fn set_parent(&mut self, parent: Option<usize>)
        ensures
            *final(self) == (TaskControlBlock {
                inner: TaskControlBlockInner { parent, ..old(self).inner },
                ..*old(self)
            }),
    {
        self.inner.parent = parent;
    }

    /// Sets the scheduling priority. Priorities below 1 are rejected with
    /// -1 and no effect: the scheduler divides by the priority, so 0 must
    /// never be stored.
    pub fn set_priority(&mut self, p: isize) -> (r: isize)
        ensures
            p >= 1 ==> r == p && *final(self) == (TaskControlBlock {
                inner: TaskControlBlockInner { priority: p, ..old(self).inner },
                ..*old(self)
            }),
            p < 1 ==> r == -1 && *final(self) == *old(self),
            old(self).wf() ==> final(self).wf(),
    {
        if p < 1 {
            return -1;
        }
        self.inner.priority = p;
        p
    }

    /// Whether any byte of `[start, start + len)` falls inside an area of
    /// the task's address space, under the scan the mapping syscall uses: a
    /// range beginning inside an area counts even when it is empty.
    #[verifier::loop_isolation(false)]
    pub fn contain_any(&self, start: usize, len: usize) -> (r: bool)
        requires
            self.wf(),
            start + len <= usize::MAX,
        ensures
            r == exists|j: int|
                0 <= j < self.inner.memory_set.areas@.len() && mmap_range_conflict(
                    #[trigger] self.inner.memory_set.areas@[j],
                    start as int,
                    len as int,
                ),
    {
        let n = self.inner.memory_set.areas.len();
        let mut j: usize = 0;
        while j < n
            invariant
                0 <= j <= n,
                n == self.inner.memory_set.areas@.len(),
                start + len <= usize::MAX,
                forall|w: int|
                    0 <= w < j ==> !mmap_range_conflict(
                        #[trigger] self.inner.memory_set.areas@[w],
                        start as int,
                        len as int,
                    ),
            decreases n - j,
        {
            let a = &self.inner.memory_set.areas[j];
            let al = a.l;
            let ar = a.r;
            proof {
                assert(self.inner.memory_set.areas@[j as int].wf());
                assert(al * PAGE_SIZE <= MAX_VA && ar * PAGE_SIZE <= MAX_VA) by (nonlinear_arith)
                    requires
                        al <= MAX_VPN,
                        ar <= MAX_VPN,
                        PAGE_SIZE == 4096,
                        MAX_VA == MAX_VPN * 4096,
                ;
            }
            let lva = al * PAGE_SIZE;
            let rva = ar * PAGE_SIZE;
            if (start < lva && start + len > lva) || (start >= lva && start < rva) {
                return true;
            }
            j += 1;
        }
        false
    }

    /// Whether some area's byte range is exactly `[st, st + len)`.
    #[verifier::loop_isolation(false)]
    pub fn contain_all(&self, st: usize, len: usize) -> (r: bool)
        requires
            self.wf(),
            st + len <= usize::MAX,
        ensures
            r == exists|j: int|
                0 <= j < self.inner.memory_set.areas@.len() && (
                #[trigger] self.inner.memory_set.areas@[j]).l * PAGE_SIZE == st
                    && self.inner.memory_set.areas@[j].r * PAGE_SIZE == st + len,
    {
        let n = self.inner.memory_set.areas.len();
        let mut j: usize = 0;
        while j < n
            invariant
                0 <= j <= n,
                n == self.inner.memory_set.areas@.len(),
                forall|w: int|
                    0 <= w < j ==> !((#[trigger] self.inner.memory_set.areas@[w]).l * PAGE_SIZE
                        == st && self.inner.memory_set.areas@[w].r * PAGE_SIZE == st + len),
            decreases n - j,
        {
            let a = &self.inner.memory_set.areas[j];
            let al = a.l;
            let ar = a.r;
            proof {
                assert(self.inner.memory_set.areas@[j as int].wf());
                assert(al * PAGE_SIZE <= MAX_VA && ar * PAGE_SIZE <= MAX_VA) by (nonlinear_arith)
                    requires
                        al <= MAX_VPN,
                        ar <= MAX_VPN,
                        PAGE_SIZE == 4096,
                        MAX_VA == MAX_VPN * 4096,
                ;
            }
            let lva = al * PAGE_SIZE;
            let rva = ar * PAGE_SIZE;
            if st + len == rva && st == lva {
                return true;
            }
            j += 1;
        }
        false
    }
}

/// The overlap test the mapping syscall applies to one existing area, over
/// byte addresses: the new range straddles the area's start, or begins
/// inside it.
pub open spec fn mmap_range_conflict(a: MapArea, start: int, len: int) -> bool {
    ||| (start < a.l * PAGE_SIZE && start + len > a.l * PAGE_SIZE)
    ||| (a.l * PAGE_SIZE <= start < a.r * PAGE_SIZE)
}


/// The program break after moving it by `size` bytes.
pub open spec fn brk_target(t: TaskControlBlock, size: i32) -> int {
    t.inner.program_brk + size as int
}

/// Whether moving the break by `size` bytes succeeds: the target stays
/// between the heap bottom and the top of the address space, and the heap
/// area can be resized to cover it.
pub open spec fn brk_move_ok(t: TaskControlBlock, size: i32) -> bool {
    let hb = t.inner.heap_bottom as int;
    let nb = brk_target(t, size);
    let lv = hb / PAGE_SIZE as int;
    let new_r = (nb + PAGE_SIZE - 1) / PAGE_SIZE as int;
    &&& hb <= nb
    &&& nb <= MAX_VA
    &&& size < 0 ==> can_shrink(t.inner.memory_set.areas@, lv, new_r)
    &&& size >= 0 ==> can_append(t.inner.memory_set.areas@, lv, new_r)
}

/// How a successful break move relates the task before and after: only the
/// break and the heap area change; a grown heap gains zeroed, reachable
/// pages, a shrunk one loses exactly the pages beyond the new end.
pub open spec fn brk_moved(t0: TaskControlBlock, t1: TaskControlBlock, size: i32) -> bool {
    let hb = t0.inner.heap_bottom as int;
    let nb = brk_target(t0, size);
    let lv = hb / PAGE_SIZE as int;
    let new_r = (nb + PAGE_SIZE - 1) / PAGE_SIZE as int;
    let ms0 = t0.inner.memory_set;
    let ms1 = t1.inner.memory_set;
    let i = find_by_start(ms0.areas@, lv)->Some_0;
    &&& t1.inner.program_brk == nb
    &&& t1 == (TaskControlBlock {
        inner: TaskControlBlockInner {
            memory_set: t1.inner.memory_set,
            program_brk: t1.inner.program_brk,
            ..t0.inner
        },
        ..t0
    })
    &&& ms1.token == ms0.token
    &&& ms1.areas@.len() == ms0.areas@.len()
    &&& forall|w: int| 0 <= w < ms0.areas@.len() && w != i ==> ms1.areas@[w] == ms0.areas@[w]
    &&& ms1.areas@[i].l == ms0.areas@[i].l
    &&& ms1.areas@[i].r == new_r
    &&& size >= 0 ==> preserves_bytes(ms0, ms1) && range_zero_mapped(
        ms1,
        ms0.areas@[i].r as int,
        new_r,
    )
    &&& size < 0 ==> preserves_bytes_outside(ms0, ms1, new_r, ms0.areas@[i].r as int)
        && range_unmapped(ms1, new_r, ms0.areas@[i].r as int)
}

/// The permission set the mapping syscall derives from its protection
/// bits: the low three bits select Read, Write and Execute, and the user
/// flag is always added.
pub open spec fn mmap_perm(pt: usize) -> u8 {
    (if pt & 1 == 1 {
        PERM_R
    } else {
        0
    }) | (if pt & 2 == 2 {
        PERM_W
    } else {
        0
    }) | (if pt & 4 == 4 {
        crate::mem::PERM_X
    } else {
        0
    }) | PERM_U
}

impl TaskControlBlock {
    /// Maps `[st, st + len)` (rounded outward to whole pages) as a fresh
    /// user-accessible framed area with the permissions the protection bits
    /// request. The caller has ruled out overlap with the existing areas.
    pub fn malloc(&mut self, st: usize, len: usize, pt: usize) -> (r: isize)
        requires
            old(self).wf(),
            st + len <= MAX_VA,
            forall|w: int|
                0 <= w < old(self).inner.memory_set.areas@.len() ==> !mmap_range_conflict(
                    #[trigger] old(self).inner.memory_set.areas@[w],
                    st as int,
                    len as int,
                ),
        ensures
            final(self).wf(),
            r == 0,
            *final(self) == (TaskControlBlock {
                inner: TaskControlBlockInner {
                    memory_set: final(self).inner.memory_set,
                    ..old(self).inner
                },
                ..*old(self)
            }),
            final(self).inner.memory_set.token == old(self).inner.memory_set.token,
            ({
                let lv = st as int / PAGE_SIZE as int;
                let rv = ((st + len + PAGE_SIZE - 1) as int) / PAGE_SIZE as int;
                let ms0 = old(self).inner.memory_set;
                let ms1 = final(self).inner.memory_set;
                &&& ms1.areas@.len() == ms0.areas@.len() + 1
                &&& forall|w: int| 0 <= w < ms0.areas@.len() ==> ms1.areas@[w] == ms0.areas@[w]
                &&& ms1.areas@.last().l == lv
                &&& ms1.areas@.last().r == rv
                &&& ms1.areas@.last().perm == mmap_perm(pt)
                &&& ms1.areas@.last().map_type == MapType::Framed
                &&& preserves_bytes(ms0, ms1)
                &&& range_zero_mapped(ms1, lv, rv)
            }),
    {
        let lv = st / PAGE_SIZE;
        let rv = (st + len + (PAGE_SIZE - 1)) / PAGE_SIZE;
        let p1: u8 = if (pt & 1) == 1 {
            PERM_R
        } else {
            0
        };
        let p2: u8 = if (pt & 2) == 2 {
            PERM_W
        } else {
            0
        };
        let p3: u8 = if (pt & 4) == 4 {
            crate::mem::PERM_X
        } else {
            0
        };
        let perm: u8 = p1 | p2 | p3 | PERM_U;
        proof {
            assert((p1 | p2 | p3 | 8u8) < 16u8) by (bit_vector)
                requires
                    p1 == 1u8 || p1 == 0u8,
                    p2 == 2u8 || p2 == 0u8,
                    p3 == 4u8 || p3 == 0u8,
            ;
            assert(perm == mmap_perm(pt));
            assert(rv <= MAX_VPN);
            assert forall|w: int|
                0 <= w < self.inner.memory_set.areas@.len() implies !ranges_overlap(
                lv as int,
                rv as int,
                (#[trigger] self.inner.memory_set.areas@[w]).l as int,
                self.inner.memory_set.areas@[w].r as int,
            ) by {
                let a = self.inner.memory_set.areas@[w];
                assert(!mmap_range_conflict(a, st as int, len as int));
                if ranges_overlap(lv as int, rv as int, a.l as int, a.r as int) {
                    if st >= a.l * PAGE_SIZE {
                        assert(st >= a.r * PAGE_SIZE);
                        assert(lv >= a.r);
                        assert(false);
                    } else {
                        assert(st + len <= a.l * PAGE_SIZE);
                        assert(rv <= a.l);
                        assert(false);
                    }
                }
            }
        }
        self.inner.memory_set.insert_framed_area(lv, rv, perm);
        0
    }

    /// Unmaps the area whose byte range is exactly `[st, st + len)`, both
    /// bounds page aligned; 0 on success, -1 with no effect when no area
    /// matches exactly.
    pub fn delloc(&mut self, st: usize, len: usize) -> (r: isize)
        requires
            old(self).wf(),
            st % PAGE_SIZE == 0,
            (st + len) % (PAGE_SIZE as int) == 0,
            st + len <= MAX_VA,
        ensures
            final(self).wf(),
            r == 0 || r == -1,
            (r == 0) <==> find_exact(
                old(self).inner.memory_set.areas@,
                st as int / PAGE_SIZE as int,
                ((st + len) as int) / PAGE_SIZE as int,
            ) is Some,
            r == -1 ==> *final(self) == *old(self),
            r == 0 ==> *final(self) == (TaskControlBlock {
                inner: TaskControlBlockInner {
                    memory_set: final(self).inner.memory_set,
                    ..old(self).inner
                },
                ..*old(self)
            }),
            r == 0 ==> ({
                let lv = st as int / PAGE_SIZE as int;
                let rv = ((st + len) as int) / PAGE_SIZE as int;
                let ms0 = old(self).inner.memory_set;
                let ms1 = final(self).inner.memory_set;
                let i = find_exact(ms0.areas@, lv, rv)->Some_0;
                &&& ms1.token == ms0.token
                &&& ms1.areas@ == ms0.areas@.remove(i)
                &&& range_unmapped(ms1, lv, rv)
                &&& preserves_bytes_outside(ms0, ms1, lv, rv)
            }),
    {
        let lv = st / PAGE_SIZE;
        let rv = (st + len) / PAGE_SIZE;
        self.inner.memory_set.unmap_exact(lv, rv)
    }

    /// Moves the program break by `size` bytes. Fails, with no effect, when
    /// the result would drop below the heap bottom, leave the address
    /// space, or the heap area cannot be resized; on success the heap
    /// mapping is grown with zeroed frames or shrunk with its frames freed,
    /// and the previous break is returned.
    pub fn change_program_brk(&mut self, size: i32) -> (r: Option<usize>)
        requires
            old(self).wf(),
        ensures
            final(self).wf(),
            (r is Some) <==> brk_move_ok(*old(self), size),
            !brk_move_ok(*old(self), size) ==> *final(self) == *old(self),
            brk_move_ok(*old(self), size) ==> r == Some(old(self).inner.program_brk)
                && brk_moved(*old(self), *final(self), size),
    {
        let heap_bottom = self.inner.heap_bottom;
        let old_break = self.inner.program_brk;
        let nb_i64: i64 = old_break as i64 + size as i64;
        if nb_i64 < heap_bottom as i64 {
            return None;
        }
        if nb_i64 > MAX_VA as i64 {
            return None;
        }
        let new_brk: usize = nb_i64 as usize;
        let result = if size < 0 {
            self.inner.memory_set.shrink_to(heap_bottom, new_brk)
        } else {
            self.inner.memory_set.append_to(heap_bottom, new_brk)
        };
        if result {
            self.inner.program_brk = new_brk;
            Some(old_break)
        } else {
            None
        }
    }
}


/// What a freshly created task looks like: default scheduling state, the
/// standard descriptors, and a user space laid out for its program image.
pub open spec fn is_fresh_task(t: TaskControlBlock, image: ProgramImage, pid: usize) -> bool {
    &&& t.pid == pid
    &&& t.kernel_stack.pid == pid
    &&& t.wf()
    &&& image_layout(t.inner.memory_set, image, pid)
    &&& t.inner.trap_cx.entry == image.entry_point
    &&& t.inner.trap_cx.user_sp == image.user_sp
    &&& t.inner.trap_cx.kernel_sp == kernel_stack_top(pid as int)
    &&& t.inner.task_cx.sp == kernel_stack_top(pid as int)
    &&& t.inner.task_status is Ready
    &&& t.inner.parent is None
    &&& t.inner.children@.len() == 0
    &&& t.inner.exit_code == 0
    &&& t.inner.fd_table@ == seq![Some(0usize), Some(1usize), Some(2usize)]
    &&& t.inner.base_size == image.user_sp
    &&& t.inner.heap_bottom == image.user_sp
    &&& t.inner.program_brk == image.user_sp
    &&& t.inner.begin_time == 0
    &&& t.inner.stride == 0
    &&& t.inner.priority == DEFAULT_PRIORITY
    &&& t.inner.syscall_times@.len() == MAX_SYSCALL_NUM
    &&& forall|i: int| 0 <= i < MAX_SYSCALL_NUM ==> t.inner.syscall_times@[i] == 0
    &&& all_bytes_zero(t.inner.memory_set)
}

/// What the child of a fork looks like: an independent copy of the
/// parent's address space and a shared view of its descriptor table, with
/// fresh identity and default scheduling state.
pub open spec fn is_forked_child(p: TaskControlBlock, c: TaskControlBlock, pid: usize) -> bool {
    let ms0 = p.inner.memory_set;
    let ms1 = c.inner.memory_set;
    &&& c.pid == pid
    &&& c.kernel_stack.pid == pid
    &&& c.wf()
    &&& ms1.token == pid
    &&& ms1.areas@.len() == ms0.areas@.len()
    &&& forall|w: int|
        0 <= w < ms0.areas@.len() ==> {
            &&& (#[trigger] ms1.areas@[w]).l == ms0.areas@[w].l
            &&& ms1.areas@[w].r == ms0.areas@[w].r
            &&& ms1.areas@[w].perm == ms0.areas@[w].perm
            &&& ms1.areas@[w].map_type == ms0.areas@[w].map_type
        }
    &&& same_content(ms0, ms1)
    &&& c.inner.parent == Some(p.pid)
    &&& c.inner.children@.len() == 0
    &&& c.inner.exit_code == 0
    &&& c.inner.fd_table@ == p.inner.fd_table@
    &&& c.inner.base_size == p.inner.base_size
    &&& c.inner.heap_bottom == p.inner.heap_bottom
    &&& c.inner.program_brk == p.inner.program_brk
    &&& c.inner.task_status is Ready
    &&& c.inner.begin_time == 0
    &&& c.inner.stride == 0
    &&& c.inner.priority == DEFAULT_PRIORITY
    &&& c.inner.syscall_times@.len() == MAX_SYSCALL_NUM
    &&& forall|i: int| 0 <= i < MAX_SYSCALL_NUM ==> c.inner.syscall_times@[i] == 0
    &&& c.inner.trap_cx.entry == p.inner.trap_cx.entry
    &&& c.inner.trap_cx.user_sp == p.inner.trap_cx.user_sp
    &&& c.inner.trap_cx.kernel_sp == kernel_stack_top(pid as int)
    &&& c.inner.task_cx.sp == kernel_stack_top(pid as int)
}

/// A zeroed per-syscall counter table.
#[verifier::loop_isolation(false)]
fn zeroed_counters() -> (r: Vec<u32>)
    ensures
        r@.len() == MAX_SYSCALL_NUM,
        forall|i: int| 0 <= i < MAX_SYSCALL_NUM ==> r@[i] == 0,
{
    let mut v: Vec<u32> = Vec::new();
    while v.len() < MAX_SYSCALL_NUM
        invariant
            v@.len() <= MAX_SYSCALL_NUM,
            forall|i: int| 0 <= i < v@.len() ==> v@[i] == 0,
        decreases MAX_SYSCALL_NUM - v@.len(),
    {
        v.push(0u32);
    }
    v
}

impl TaskControlBlock {
    /// Creates a task for a program image: fresh process id and kernel
    /// stack, an address space laid out for the image, the standard
    /// descriptors, default priority and a zero stride; fails explicitly
    /// when the process-id space is exhausted.
    pub fn new(pa: &mut PidAllocator, image: &ProgramImage) -> (r: Option<TaskControlBlock>)
        requires
            image.wf(),
        ensures
            old(pa).next >= MAX_PID ==> r is None && *final(pa) == *old(pa),
            old(pa).next < MAX_PID ==> final(pa).next == old(pa).next + 1 && (r matches Some(t)
                && is_fresh_task(t, *image, old(pa).next)),
    {
        let pid = match pa.alloc_pid() {
            Some(p) => p,
            None => {
                return None;
            },
        };
        let kernel_stack = kstack_alloc(pid);
        let kernel_stack_top = kernel_stack.get_top();
        let memory_set = from_image(image, pid);
        let mut fd_table: Vec<Option<usize>> = Vec::new();
        fd_table.push(Some(0));
        fd_table.push(Some(1));
        fd_table.push(Some(2));
        proof {
            assert(fd_table@ =~= seq![Some(0usize), Some(1usize), Some(2usize)]);
            assert(image.user_sp < MAX_VA) by (nonlinear_arith)
                requires
                    (image.user_sp as int) / (PAGE_SIZE as int) < TRAP_CONTEXT_VPN as int,
                    (image.user_sp as int) % (PAGE_SIZE as int) == 0,
                    PAGE_SIZE == 4096,
                    TRAP_CONTEXT_VPN < MAX_VPN,
                    MAX_VA == MAX_VPN * 4096,
            ;
        }
        let task = TaskControlBlock {
            pid,
            kernel_stack,
            inner: TaskControlBlockInner {
                trap_cx: TrapContext::app_init_context(
                    image.entry_point,
                    image.user_sp,
                    kernel_stack_top,
                ),
                base_size: image.user_sp,
                task_cx: TaskContext::goto_trap_return(kernel_stack_top),
                task_status: TaskStatus::Ready,
                memory_set,
                parent: None,
                children: Vec::new(),
                exit_code: 0,
                fd_table,
                heap_bottom: image.user_sp,
                program_brk: image.user_sp,
                begin_time: 0,
                syscall_times: zeroed_counters(),
                stride: 0,
                priority: DEFAULT_PRIORITY,
            },
        };
        Some(task)
    }

    /// Replaces the task's address space and trap context in place with
    /// those of a new program image; the process id, kernel stack and
    /// descriptor table survive.
    pub fn exec(&mut self, image: &ProgramImage)
        requires
            old(self).wf(),
            image.wf(),
        ensures
            final(self).wf(),
            image_layout(final(self).inner.memory_set, *image, old(self).pid),
            all_bytes_zero(final(self).inner.memory_set),
            final(self).inner.trap_cx.entry == image.entry_point,
            final(self).inner.trap_cx.user_sp == image.user_sp,
            final(self).inner.trap_cx.kernel_sp == kernel_stack_top(old(self).pid as int),
            *final(self) == (TaskControlBlock {
                inner: TaskControlBlockInner {
                    memory_set: final(self).inner.memory_set,
                    trap_cx: final(self).inner.trap_cx,
                    ..old(self).inner
                },
                ..*old(self)
            }),
    {
        let memory_set = from_image(image, self.pid);
        self.inner.memory_set = memory_set;
        let top = self.kernel_stack.get_top();
        self.inner.trap_cx = TrapContext::app_init_context(image.entry_point, image.user_sp, top);
    }

    /// Creates a child task: an independent copy of the parent's address
    /// space, a shared view of its descriptor table, a fresh process id and
    /// kernel stack, default scheduling state; the child is registered in
    /// the parent's children and carries the parent back-reference. Fails
    /// explicitly when the process-id space is exhausted.
    pub fn fork(&mut self, pa: &mut PidAllocator) -> (r: Option<TaskControlBlock>)
        requires
            old(self).wf(),
        ensures
            final(self).wf(),
            old(pa).next >= MAX_PID ==> r is None && *final(self) == *old(self) && *final(pa)
                == *old(pa),
            old(pa).next < MAX_PID ==> ({
                &&& final(pa).next == old(pa).next + 1
                &&& r matches Some(c) && is_forked_child(*old(self), c, old(pa).next)
                &&& final(self).inner.children@ == old(self).inner.children@.push(old(pa).next)
                &&& *final(self) == (TaskControlBlock {
                    inner: TaskControlBlockInner {
                        children: final(self).inner.children,
                        ..old(self).inner
                    },
                    ..*old(self)
                })
            }),
    {
        let pid = match pa.alloc_pid() {
            Some(p) => p,
            None => {
                return None;
            },
        };
        let kernel_stack = kstack_alloc(pid);
        let kernel_stack_top = kernel_stack.get_top();
        let memory_set = self.inner.memory_set.clone_space(pid);
        let mut new_fd_table: Vec<Option<usize>> = Vec::new();
        let nf = self.inner.fd_table.len();
        let mut i: usize = 0;
        #[verifier::loop_isolation(false)]
        while i < nf
            invariant
                0 <= i <= nf,
                new_fd_table@.len() == i,
                forall|w: int| 0 <= w < i ==> new_fd_table@[w] == self.inner.fd_table@[w],
            decreases nf - i,
        {
            new_fd_table.push(self.inner.fd_table[i]);
            i += 1;
        }
        proof {
            assert(new_fd_table@ =~= self.inner.fd_table@);
        }
        let child = TaskControlBlock {
            pid,
            kernel_stack,
            inner: TaskControlBlockInner {
                trap_cx: TrapContext {
                    entry: self.inner.trap_cx.entry,
                    user_sp: self.inner.trap_cx.user_sp,
                    kernel_sp: kernel_stack_top,
                },
                base_size: self.inner.base_size,
                task_cx: TaskContext::goto_trap_return(kernel_stack_top),
                task_status: TaskStatus::Ready,
                memory_set,
                parent: Some(self.pid),
                children: Vec::new(),
                exit_code: 0,
                fd_table: new_fd_table,
                heap_bottom: self.inner.heap_bottom,
                program_brk: self.inner.program_brk,
                begin_time: 0,
                syscall_times: zeroed_counters(),
                stride: 0,
                priority: DEFAULT_PRIORITY,
            },
        };
        self.inner.children.push(pid);
        Some(child)
    }

    /// Counts one invocation of the given syscall number.
    pub fn record_syscall(&mut self, id: usize)
        requires
            old(self).wf(),
            id < MAX_SYSCALL_NUM,
            old(self).inner.syscall_times@[id as int] < u32::MAX,
        ensures
            final(self).wf(),
            final(self).inner.syscall_times@ == old(self).inner.syscall_times@.update(
                id as int,
                (old(self).inner.syscall_times@[id as int] + 1) as u32,
            ),
            *final(self) == (TaskControlBlock {
                inner: TaskControlBlockInner {
                    syscall_times: final(self).inner.syscall_times,
                    ..old(self).inner
                },
                ..*old(self)
            }),
    {
        let c = self.inner.syscall_times[id];
        self.inner.syscall_times.set(id, c + 1);
    }
}


/// After a fork the child's space is a separate copy of the parent's: a
/// write into the child changes child bytes exactly where it lands, and no
/// byte the parent reaches is affected — the parent's space is a distinct
/// value that the write never touched. Symmetrically for writes by the
/// parent.
pub proof fn lemma_fork_write_isolation(
    parent: MemorySet,
    child0: MemorySet,
    child1: MemorySet,
    va: int,
    src: Seq<u8>,
)
    requires
        same_content(parent, child0),
        crate::mem::wrote_bytes(child0, child1, va, src),
    ensures
        forall|a: int|
            #[trigger] parent.mapped_framed(a) && va <= a < va + src.len() ==> child1.byte_at(a)
                == src[a - va],
        forall|a: int|
            #[trigger] parent.mapped_framed(a) && !(va <= a < va + src.len()) ==> child1.byte_at(a)
                == parent.byte_at(a),
        forall|a: int|
            #[trigger] parent.mapped_framed(a) ==> parent.byte_at(a) == child0.byte_at(a),
{
    assert forall|a: int| #[trigger] parent.mapped_framed(a) implies child0.mapped_framed(a)
        && child1.mapped_framed(a) && parent.byte_at(a) == child0.byte_at(a) by {
        assert(child0.mapped_framed(a));
        assert(child1.mapped_framed(a));
    }
    assert forall|a: int|
        #[trigger] parent.mapped_framed(a) && va <= a < va + src.len() implies child1.byte_at(a)
        == src[a - va] by {
        assert(child0.mapped_framed(a));
        assert(child1.mapped_framed(a));
    }
    assert forall|a: int|
        #[trigger] parent.mapped_framed(a) && !(va <= a < va + src.len()) implies child1.byte_at(a)
        == parent.byte_at(a) by {
        assert(child0.mapped_framed(a));
        assert(child1.mapped_framed(a));
    }
}

} // verus!




