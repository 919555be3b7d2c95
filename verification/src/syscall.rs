//! Process-management syscalls.
//!
//! Each entry point takes the calling task explicitly — the runtime owns
//! the current task and passes it in — validates its arguments, and
//! reports success as 0 and failure as -1 (the break syscall returns the
//! old break instead). The two informational calls write a record into the
//! caller's own address space through the translated frames, splitting the
//! bytes across page boundaries; the clock readings they serialize are
//! taken by the runtime and passed in as plain values.

use vstd::prelude::*;
use crate::mem::MAX_VPN;
use crate::mem::MemorySet;
use crate::mem::PAGE_SIZE;
use crate::mem::find_exact;
use crate::mem::lemma_find_exact_props;
use crate::mem::range_mapped;
use crate::mem::wrote_bytes;
use crate::task::MAX_SYSCALL_NUM;
use crate::task::TaskControlBlock;
use crate::task::TaskControlBlockInner;
use crate::task::TaskStatus;
use crate::task::brk_move_ok;
use crate::task::brk_moved;
use crate::task::mmap_perm;
use crate::task::mmap_range_conflict;

verus! {

/// The little-endian bytes of a 64-bit value.
pub open spec fn u64_le_bytes(x: u64) -> Seq<u8> {
    seq![
        x as u8,
        (x >> 8) as u8,
        (x >> 16) as u8,
        (x >> 24) as u8,
        (x >> 32) as u8,
        (x >> 40) as u8,
        (x >> 48) as u8,
        (x >> 56) as u8,
    ]
}

/// The little-endian bytes of a 32-bit value.
pub open spec fn u32_le_bytes(x: u32) -> Seq<u8> {
    seq![x as u8, (x >> 8) as u8, (x >> 16) as u8, (x >> 24) as u8]
}

/// Appends the little-endian bytes of `x`.
fn push_u64_le(out: &mut Vec<u8>, x: u64)
    ensures
        final(out)@ == old(out)@ + u64_le_bytes(x),
{
    out.push(x as u8);
    out.push((x >> 8) as u8);
    out.push((x >> 16) as u8);
    out.push((x >> 24) as u8);
    out.push((x >> 32) as u8);
    out.push((x >> 40) as u8);
    out.push((x >> 48) as u8);
    out.push((x >> 56) as u8);
    proof {
        assert(out@ =~= old(out)@ + u64_le_bytes(x));
    }
}

/// Appends the little-endian bytes of `x`.
fn push_u32_le(out: &mut Vec<u8>, x: u32)
    ensures
        final(out)@ == old(out)@ + u32_le_bytes(x),
{
    out.push(x as u8);
    out.push((x >> 8) as u8);
    out.push((x >> 16) as u8);
    out.push((x >> 24) as u8);
    proof {
        assert(out@ =~= old(out)@ + u32_le_bytes(x));
    }
}

/// A wall-clock reading: whole seconds and the microseconds within them.
#[derive(Clone, Copy, PartialEq, Eq, Structural, Debug)]
pub struct TimeVal {
    /// Whole seconds.
    pub sec: usize,
    /// Microseconds within the second.
    pub usec: usize,
}

/// The record `sys_get_time` writes into the user buffer: both fields as
/// little-endian 64-bit values.
pub open spec fn time_val_bytes(tv: TimeVal) -> Seq<u8> {
    u64_le_bytes(tv.sec as u64) + u64_le_bytes(tv.usec as u64)
}

impl TimeVal {
    /// Serializes the reading for the user buffer.
    pub fn to_bytes(&self) -> (r: Vec<u8>)
        ensures
            r@ == time_val_bytes(*self),
            r@.len() == 16,
    {
        let mut out: Vec<u8> = Vec::new();
        push_u64_le(&mut out, self.sec as u64);
        push_u64_le(&mut out, self.usec as u64);
        proof {
            assert(out@ =~= time_val_bytes(*self));
        }
        out
    }
}

/// What a task reports about itself: status, per-syscall invocation counts
/// and the time run since its first dispatch.
#[derive(Clone, PartialEq, Eq, Debug)]
pub struct TaskInfo {
    /// The task's status at the time of the call.
    pub status: TaskStatus,
    /// Invocation count per syscall number.
    pub syscall_times: Vec<u32>,
    /// Milliseconds since the task was first dispatched.
    pub time: usize,
}

/// The byte each status is encoded as.
pub open spec fn status_code(s: TaskStatus) -> u8 {
    match s {
        TaskStatus::UnInit => 0,
        TaskStatus::Ready => 1,
        TaskStatus::Running => 2,
        TaskStatus::Zombie => 3,
    }
}

/// The little-endian bytes of a counter table, in table order.
pub open spec fn counters_bytes(s: Seq<u32>) -> Seq<u8>
    decreases s.len(),
{
    if s.len() == 0 {
        Seq::empty()
    } else {
        counters_bytes(s.drop_last()) + u32_le_bytes(s.last())
    }
}

/// The record `sys_task_info` writes into the user buffer: the status
/// byte, the counter table, and the elapsed time as a little-endian 64-bit
/// value.
pub open spec fn task_info_bytes(ti: TaskInfo) -> Seq<u8> {
    seq![status_code(ti.status)] + counters_bytes(ti.syscall_times@) + u64_le_bytes(ti.time as u64)
}

impl TaskInfo {
    /// Serializes the report for the user buffer.
    #[verifier::loop_isolation(false)]
    pub fn to_bytes(&self) -> (r: Vec<u8>)
        ensures
            r@ == task_info_bytes(*self),
            r@.len() == 9 + 4 * self.syscall_times@.len(),
    {
        let mut out: Vec<u8> = Vec::new();
        let code: u8 = match self.status {
            TaskStatus::UnInit => 0,
            TaskStatus::Ready => 1,
            TaskStatus::Running => 2,
            TaskStatus::Zombie => 3,
        };
        out.push(code);
        let n = self.syscall_times.len();
        let mut i: usize = 0;
        while i < n
            invariant
                0 <= i <= n,
                out@ == seq![status_code(self.status)] + counters_bytes(
                    self.syscall_times@.take(i as int),
                ),
                out@.len() == 1 + 4 * i,
            decreases n - i,
        {
            push_u32_le(&mut out, self.syscall_times[i]);
            proof {
                let taken = self.syscall_times@.take(i + 1);
                assert(taken.drop_last() =~= self.syscall_times@.take(i as int));
                assert(taken.last() == self.syscall_times@[i as int]);
                assert(counters_bytes(taken) == counters_bytes(self.syscall_times@.take(i as int))
                    + u32_le_bytes(self.syscall_times@[i as int]));
                assert(out@ =~= seq![status_code(self.status)] + counters_bytes(taken));
            }
            i += 1;
        }
        proof {
            assert(self.syscall_times@.take(n as int) =~= self.syscall_times@);
        }
        push_u64_le(&mut out, self.time as u64);
        proof {
            assert(out@ =~= task_info_bytes(*self));
        }
        out
    }
}

/// Marks the calling task a zombie and stores its exit code; the scheduler
/// never dispatches a zombie again, and the code waits for the parent's
/// reap. The runtime then switches away for good.
pub fn sys_exit(task: &mut TaskControlBlock, exit_code: i32)
    requires
        old(task).wf(),
    ensures
        final(task).wf(),
        final(task).inner.task_status is Zombie,
        final(task).inner.exit_code == exit_code,
        *final(task) == (TaskControlBlock {
            inner: TaskControlBlockInner {
                task_status: TaskStatus::Zombie,
                exit_code,
                ..old(task).inner
            },
            ..*old(task)
        }),
{
    task.inner.task_status = TaskStatus::Zombie;
    task.inner.exit_code = exit_code;
}

/// Gives up the CPU voluntarily: the task returns to Ready and the runtime
/// re-enqueues it. Always succeeds.
pub fn sys_yield(task: &mut TaskControlBlock) -> (r: isize)
    requires
        old(task).wf(),
    ensures
        r == 0,
        final(task).wf(),
        *final(task) == (TaskControlBlock {
            inner: TaskControlBlockInner { task_status: TaskStatus::Ready, ..old(task).inner },
            ..*old(task)
        }),
{
    task.inner.task_status = TaskStatus::Ready;
    0
}

/// The page-level overlap test of the mapping syscall: the requested page
/// range `[s, s + n)` straddles the area's start or begins inside it.
pub open spec fn mmap_vpn_conflict(a: crate::mem::MapArea, s: int, n: int) -> bool {
    ||| (s < a.l && s + n > a.l)
    ||| (a.l <= s < a.r)
}

/// The page count a byte length occupies, rounded up.
pub open spec fn pages_of(len: int) -> int {
    (len + PAGE_SIZE - 1) / PAGE_SIZE as int
}

/// Whether a mapping request is accepted: aligned start, some permission
/// requested and none but the three known bits, the range inside the
/// address space, and no intersection with any existing area.
pub open spec fn mmap_ok(t: TaskControlBlock, start: int, len: int, port: int) -> bool {
    let s = start / PAGE_SIZE as int;
    let n = pages_of(len);
    &&& start % (PAGE_SIZE as int) == 0
    &&& 0 < port < 8
    &&& s + n <= MAX_VPN
    &&& forall|w: int|
        0 <= w < t.inner.memory_set.areas@.len() ==> !mmap_vpn_conflict(
            #[trigger] t.inner.memory_set.areas@[w],
            s,
            n,
        )
}

/// Maps `[start, start + len)`, rounded up to whole pages, with the
/// requested permissions plus the user flag, eagerly backed by zeroed
/// frames. Fails with -1, and no effect, on a misaligned start, invalid
/// permission bits, a range leaving the address space, or any intersection
/// with an existing area.
#[verifier::loop_isolation(false)]
pub fn sys_mmap(task: &mut TaskControlBlock, start: usize, len: usize, port: usize) -> (r: isize)
    requires
        old(task).wf(),
    ensures
        final(task).wf(),
        r == 0 || r == -1,
        (r == 0) <==> mmap_ok(*old(task), start as int, len as int, port as int),
        r == -1 ==> *final(task) == *old(task),
        r == 0 ==> *final(task) == (TaskControlBlock {
            inner: TaskControlBlockInner {
                memory_set: final(task).inner.memory_set,
                ..old(task).inner
            },
            ..*old(task)
        }),
        r == 0 ==> ({
            let s = start as int / PAGE_SIZE as int;
            let n = pages_of(len as int);
            let ms0 = old(task).inner.memory_set;
            let ms1 = final(task).inner.memory_set;
            &&& ms1.token == ms0.token
            &&& ms1.areas@.len() == ms0.areas@.len() + 1
            &&& forall|w: int| 0 <= w < ms0.areas@.len() ==> ms1.areas@[w] == ms0.areas@[w]
            &&& ms1.areas@.last().l == s
            &&& ms1.areas@.last().r == s + n
            &&& ms1.areas@.last().perm == mmap_perm(port)
            &&& ms1.areas@.last().map_type == crate::mem::MapType::Framed
            &&& crate::mem::preserves_bytes(ms0, ms1)
            &&& crate::mem::range_zero_mapped(ms1, s, s + n)
        }),
{
    if start % PAGE_SIZE != 0 {
        return -1;
    }
    if port >= 8 || port == 0 {
        return -1;
    }
    let s = start / PAGE_SIZE;
    let n = len / PAGE_SIZE + (if len % PAGE_SIZE == 0 {
        0
    } else {
        1
    });
    proof {
        assert(n == pages_of(len as int)) by {
            assert(len as int == (PAGE_SIZE as int) * ((len as int) / (PAGE_SIZE as int)) + (len as int)
                % (PAGE_SIZE as int)) by {
                vstd::arithmetic::div_mod::lemma_fundamental_div_mod(
                    len as int,
                    PAGE_SIZE as int,
                );
            }
        }
    }
    if s > MAX_VPN || n > MAX_VPN - s {
        return -1;
    }
    // the request must not intersect any existing area, in any way
    let na = task.inner.memory_set.areas.len();
    let mut w: usize = 0;
    while w < na
        invariant
            0 <= w <= na,
            na == task.inner.memory_set.areas@.len(),
            *task == *old(task),
            forall|j: int|
                0 <= j < w ==> !mmap_vpn_conflict(
                    #[trigger] task.inner.memory_set.areas@[j],
                    s as int,
                    n as int,
                ),
        decreases na - w,
    {
        let al = task.inner.memory_set.areas[w].l;
        let ar = task.inner.memory_set.areas[w].r;
        if (s < al && s + n > al) || (s >= al && s < ar) {
            return -1;
        }
        w += 1;
    }
    proof {
        // page-level clearance implies byte-level clearance for the mapper
        assert forall|j: int|
            0 <= j < task.inner.memory_set.areas@.len() implies !mmap_range_conflict(
            #[trigger] task.inner.memory_set.areas@[j],
            start as int,
            len as int,
        ) by {
            let a = task.inner.memory_set.areas@[j];
            assert(a.wf());
            if mmap_range_conflict(a, start as int, len as int) {
                vstd::arithmetic::div_mod::lemma_fundamental_div_mod(len as int, PAGE_SIZE as int);
                if a.l * PAGE_SIZE <= (start as int) && (start as int) < a.r * PAGE_SIZE {
                    assert(a.l <= s < a.r);
                } else {
                    assert((start as int) < a.l * PAGE_SIZE);
                    assert((start as int) + len > a.l * PAGE_SIZE);
                    assert(s < a.l);
                    assert(s + n > a.l) by {
                        assert((start as int) + len <= (s + n) * PAGE_SIZE);
                    }
                }
            }
        }
        assert(start + len <= (s as int + n as int) * PAGE_SIZE) by {
            vstd::arithmetic::div_mod::lemma_fundamental_div_mod(len as int, PAGE_SIZE as int);
        }
        assert((s as int + n as int) * PAGE_SIZE <= crate::mem::MAX_VA) by (nonlinear_arith)
            requires
                s + n <= MAX_VPN,
                crate::mem::MAX_VA == MAX_VPN * 4096,
                PAGE_SIZE == 4096,
        ;
    }
    let r = task.malloc(start, len, port);
    r
}

/// Whether an unmapping request is accepted: aligned start, and some area
/// covering exactly the requested page range.
pub open spec fn munmap_ok(t: TaskControlBlock, start: int, len: int) -> bool {
    let s = start / PAGE_SIZE as int;
    let n = pages_of(len);
    &&& start % (PAGE_SIZE as int) == 0
    &&& s + n <= MAX_VPN
    &&& find_exact(t.inner.memory_set.areas@, s, s + n) is Some
}

/// Unmaps the pages of `[start, start + len)`, rounded up to whole pages,
/// provided some area covers exactly that page range; no partial or
/// superset unmapping. Fails with -1 and no effect otherwise.
pub fn sys_munmap(task: &mut TaskControlBlock, start: usize, len: usize) -> (r: isize)
    requires
        old(task).wf(),
    ensures
        final(task).wf(),
        r == 0 || r == -1,
        (r == 0) <==> munmap_ok(*old(task), start as int, len as int),
        r == -1 ==> *final(task) == *old(task),
        r == 0 ==> *final(task) == (TaskControlBlock {
            inner: TaskControlBlockInner {
                memory_set: final(task).inner.memory_set,
                ..old(task).inner
            },
            ..*old(task)
        }),
        r == 0 ==> ({
            let s = start as int / PAGE_SIZE as int;
            let n = pages_of(len as int);
            let ms0 = old(task).inner.memory_set;
            let ms1 = final(task).inner.memory_set;
            let i = find_exact(ms0.areas@, s, s + n)->Some_0;
            &&& ms1.token == ms0.token
            &&& ms1.areas@ == ms0.areas@.remove(i)
            &&& crate::mem::range_unmapped(ms1, s, s + n)
            &&& crate::mem::preserves_bytes_outside(ms0, ms1, s, s + n)
        }),
{
    if start % PAGE_SIZE != 0 {
        return -1;
    }
    let s = start / PAGE_SIZE;
    let n = len / PAGE_SIZE + (if len % PAGE_SIZE == 0 {
        0
    } else {
        1
    });
    proof {
        assert(n == pages_of(len as int)) by {
            vstd::arithmetic::div_mod::lemma_fundamental_div_mod(len as int, PAGE_SIZE as int);
        }
    }
    if s > MAX_VPN || n > MAX_VPN - s {
        // no well-formed area reaches past the address space, so nothing
        // can match exactly
        proof {
            lemma_find_exact_props(task.inner.memory_set.areas@, s as int, s as int + n as int);
            match find_exact(task.inner.memory_set.areas@, s as int, s as int + n as int) {
                Some(i) => {
                    assert(task.inner.memory_set.areas@[i].wf());
                    assert(false);
                },
                None => {},
            }
        }
        return -1;
    }
    proof {
        assert(start + n * PAGE_SIZE <= crate::mem::MAX_VA) by (nonlinear_arith)
            requires
                start as int == (start as int / PAGE_SIZE as int) * PAGE_SIZE,
                start as int / PAGE_SIZE as int + n <= MAX_VPN,
                crate::mem::MAX_VA == MAX_VPN * 4096,
                PAGE_SIZE == 4096,
                n >= 0,
        ;
        vstd::arithmetic::div_mod::lemma_fundamental_div_mod(start as int, PAGE_SIZE as int);
    }
    let byte_len = n * PAGE_SIZE;
    task.delloc(start, byte_len)
}

/// Moves the program break by `size` bytes: the old break on success, -1
/// with no effect when the target drops below the heap bottom, leaves the
/// address space, or the heap area cannot be resized.
pub fn sys_sbrk(task: &mut TaskControlBlock, size: i32) -> (r: isize)
    requires
        old(task).wf(),
    ensures
        final(task).wf(),
        (r == -1) <==> !brk_move_ok(*old(task), size),
        r == -1 ==> *final(task) == *old(task),
        r != -1 ==> r == old(task).inner.program_brk as isize && brk_moved(
            *old(task),
            *final(task),
            size,
        ),
{
    match task.change_program_brk(size) {
        Some(old_brk) => {
            proof {
                assert(old_brk <= crate::mem::MAX_VA);
            }
            old_brk as isize
        },
        None => -1,
    }
}

/// Writes a serialized record into the calling task's address space at
/// `dst`, following the translated frames of every page the bytes cross;
/// 0 when the whole range is backed, -1 with no effect otherwise.
pub fn wirte_struct_to_vbuf(ms: &mut MemorySet, src: &Vec<u8>, dst: usize) -> (r: isize)
    requires
        old(ms).wf(),
        dst + src@.len() <= usize::MAX,
    ensures
        final(ms).wf(),
        final(ms).token == old(ms).token,
        r == 0 || r == -1,
        (r == 0) <==> range_mapped(*old(ms), dst as int, src@.len() as int),
        r == -1 ==> *final(ms) == *old(ms),
        r == 0 ==> final(ms).same_structure(*old(ms)) && wrote_bytes(
            *old(ms),
            *final(ms),
            dst as int,
            src@,
        ),
{
    ms.write_bytes(dst, src)
}

/// Writes the seconds and microseconds of the clock reading `us` into the
/// user buffer at `ts`, split across pages as the mapping dictates; the
/// zone argument is ignored. The runtime reads the clock and passes `us`.
pub fn sys_get_time(task: &mut TaskControlBlock, ts: usize, tz: usize, us: usize) -> (r: isize)
    requires
        old(task).wf(),
        ts + 16 <= usize::MAX,
    ensures
        final(task).wf(),
        r == 0 || r == -1,
        (r == 0) <==> range_mapped(old(task).inner.memory_set, ts as int, 16),
        r == -1 ==> *final(task) == *old(task),
        r == 0 ==> *final(task) == (TaskControlBlock {
            inner: TaskControlBlockInner {
                memory_set: final(task).inner.memory_set,
                ..old(task).inner
            },
            ..*old(task)
        }),
        r == 0 ==> wrote_bytes(
            old(task).inner.memory_set,
            final(task).inner.memory_set,
            ts as int,
            time_val_bytes(TimeVal { sec: (us / 1000000) as usize, usec: (us % 1000000) as usize }),
        ),
{
    let tv = TimeVal { sec: us / 1000000, usec: us % 1000000 };
    let bytes = tv.to_bytes();
    task.inner.memory_set.write_bytes(ts, &bytes)
}

/// Writes the task's status, syscall counters and elapsed milliseconds
/// since first dispatch into the user buffer at `ti`, split across pages
/// as the mapping dictates. The runtime reads the clock and passes
/// `now_ms`.
#[verifier::loop_isolation(false)]
pub fn sys_task_info(task: &mut TaskControlBlock, ti: usize, now_ms: usize) -> (r: isize)
    requires
        old(task).wf(),
        old(task).inner.begin_time <= now_ms,
        ti + 9 + 4 * MAX_SYSCALL_NUM <= usize::MAX,
    ensures
        final(task).wf(),
        r == 0 || r == -1,
        (r == 0) <==> range_mapped(
            old(task).inner.memory_set,
            ti as int,
            9 + 4 * MAX_SYSCALL_NUM,
        ),
        r == -1 ==> *final(task) == *old(task),
        r == 0 ==> *final(task) == (TaskControlBlock {
            inner: TaskControlBlockInner {
                memory_set: final(task).inner.memory_set,
                ..old(task).inner
            },
            ..*old(task)
        }),
        r == 0 ==> wrote_bytes(
            old(task).inner.memory_set,
            final(task).inner.memory_set,
            ti as int,
            task_info_bytes(
                TaskInfo {
                    status: old(task).inner.task_status,
                    syscall_times: old(task).inner.syscall_times,
                    time: (now_ms - old(task).inner.begin_time) as usize,
                },
            ),
        ),
{
    let mut counters: Vec<u32> = Vec::new();
    let nc = task.inner.syscall_times.len();
    let mut i: usize = 0;
    while i < nc
        invariant
            0 <= i <= nc,
            counters@.len() == i,
            forall|w: int| 0 <= w < i ==> counters@[w] == task.inner.syscall_times@[w],
            *task == *old(task),
        decreases nc - i,
    {
        counters.push(task.inner.syscall_times[i]);
        i += 1;
    }
    proof {
        assert(counters@ =~= task.inner.syscall_times@);
    }
    let info = TaskInfo {
        status: task.inner.get_status(),
        syscall_times: counters,
        time: now_ms - task.inner.begin_time,
    };
    let bytes = info.to_bytes();
    proof {
        let spec_info = TaskInfo {
            status: old(task).inner.task_status,
            syscall_times: old(task).inner.syscall_times,
            time: (now_ms - old(task).inner.begin_time) as usize,
        };
        assert(info.syscall_times@ == spec_info.syscall_times@);
        assert(counters_bytes(info.syscall_times@) == counters_bytes(spec_info.syscall_times@));
        assert(task_info_bytes(info) == task_info_bytes(spec_info));
    }
    task.inner.memory_set.write_bytes(ti, &bytes)
}

} // verus!
