use vstd::prelude::*;
use crate::bytes::le_bytes;
use crate::bytes::push_le_bytes;
use crate::perm::MapPermission;
use crate::region::MemorySet;

verus! {

/// Size of the per-task syscall invocation histogram: one counter per
/// syscall number.
pub const MAX_SYSCALL_NUM: usize = 500;

/// Where a task stands in its life cycle.  Only `sys_exit` reaches
/// `Exited`, and nothing leaves it.
#[derive(Clone, Copy, PartialEq, Eq, Structural, Debug)]
pub enum TaskStatus {
    Ready,
    Running,
    Exited,
}

/// Task information
/// A snapshot of one task's accounting, assembled on demand: its status,
/// its syscall invocation histogram and its cumulative scheduled runtime.
pub struct TaskInfo {
    /// Task status in its life cycle
    pub status: TaskStatus,
    /// The numbers of syscalls called by the task
    pub syscall_times: Vec<u32>,
    /// Total running time of the task
    pub time: usize,
}

/// The explicit context every syscall works against: the state of the one
/// task whose syscall is being serviced.
pub struct Task {
    /// Where the task stands in its life cycle.
    pub status: TaskStatus,
    /// The code handed to `sys_exit`; meaningful once `status` is `Exited`.
    pub exit_code: i32,
    /// Invocation count per syscall number, bumped once per dispatch.
    pub syscall_times: Vec<u32>,
    /// Cumulative scheduled runtime, accumulated once per quantum.
    pub time: usize,
    /// Lower bound of the heap-like data segment.
    pub heap_bottom: usize,
    /// Current program break; `sys_sbrk` moves it.
    pub brk: usize,
    /// The task's set of mapped virtual pages.
    pub memory: MemorySet,
}

/// A counter bumped by one, staying put once it can no longer grow.
pub open spec fn bumped(c: u32) -> u32 {
    if c < u32::MAX {
        (c + 1) as u32
    } else {
        c
    }
}

impl Task {
    /// The histogram has its fixed size, the break sits between the heap
    /// bottom and the largest address a syscall can return, and the page
    /// set is well formed.
    pub open spec fn wf(self) -> bool {
        &&& self.syscall_times@.len() == MAX_SYSCALL_NUM
        &&& self.heap_bottom <= self.brk
        &&& self.brk <= isize::MAX as usize
        &&& self.memory.wf()
    }

    /// A fresh task: ready to run, nothing mapped, nothing counted, the
    /// break at the heap bottom.
    #[verifier::loop_isolation(false)]
    pub fn new(heap_bottom: usize) -> (t: Task)
        requires
            heap_bottom <= isize::MAX as usize,
        ensures
            t.wf(),
            t.status == TaskStatus::Ready,
            t.exit_code == 0,
            t.syscall_times@.len() == MAX_SYSCALL_NUM,
            forall|i: int| 0 <= i < MAX_SYSCALL_NUM ==> t.syscall_times@[i] == 0u32,
            t.time == 0,
            t.heap_bottom == heap_bottom,
            t.brk == heap_bottom,
            t.memory@ == Map::<int, MapPermission>::empty(),
    {
        let mut h: Vec<u32> = Vec::new();
        let mut i: usize = 0;
        while i < MAX_SYSCALL_NUM
            invariant
                i <= MAX_SYSCALL_NUM,
                h@.len() == i,
                forall|j: int| 0 <= j < i ==> h@[j] == 0u32,
            decreases MAX_SYSCALL_NUM - i,
        {
            h.push(0);
            i += 1;
        }
        Task {
            status: TaskStatus::Ready,
            exit_code: 0,
            syscall_times: h,
            time: 0,
            heap_bottom,
            brk: heap_bottom,
            memory: MemorySet::new(),
        }
    }

    /// The external scheduler hands the processor back to a ready task.
    pub fn resume(&mut self)
        requires
            old(self).wf(),
            old(self).status == TaskStatus::Ready,
        ensures
            final(self).wf(),
            *final(self) == (Task { status: TaskStatus::Running, ..*old(self) }),
    {
        self.status = TaskStatus::Running;
    }

    /// The dispatch layer counts one invocation of syscall number `id`.
    pub fn record_syscall(&mut self, id: usize)
        requires
            old(self).wf(),
            id < MAX_SYSCALL_NUM,
        ensures
            final(self).wf(),
            final(self).syscall_times@ == old(self).syscall_times@.update(
                id as int,
                bumped(old(self).syscall_times@[id as int]),
            ),
            *final(self) == (Task { syscall_times: final(self).syscall_times, ..*old(self) }),
    {
        let c = self.syscall_times[id];
        if c < u32::MAX {
            self.syscall_times.set(id, c + 1);
        } else {
            proof {
                assert(self.syscall_times@ =~= old(self).syscall_times@.update(
                    id as int,
                    bumped(c),
                ));
            }
        }
    }

    /// The scheduler credits the task with `delta` more ticks of runtime,
    /// saturating at the largest representable count.
    pub fn add_runtime(&mut self, delta: usize)
        requires
            old(self).wf(),
        ensures
            final(self).wf(),
            final(self).time == if old(self).time + delta <= usize::MAX {
                old(self).time + delta
            } else {
                usize::MAX as int
            },
            *final(self) == (Task { time: final(self).time, ..*old(self) }),
    {
        if self.time <= usize::MAX - delta {
            self.time = self.time + delta;
        } else {
            self.time = usize::MAX;
        }
    }

    /// Builds a snapshot of the task's live counters, taken at query
    /// time.  The status is reported as `Running`: the task asking about
    /// itself is the one running.
    #[verifier::loop_isolation(false)]
    pub fn snapshot(&self) -> (info: TaskInfo)
        requires
            self.wf(),
        ensures
            info.status == TaskStatus::Running,
            info.syscall_times@ == self.syscall_times@,
            info.time == self.time,
    {
        let mut h: Vec<u32> = Vec::new();
        let mut i: usize = 0;
        while i < self.syscall_times.len()
            invariant
                i <= self.syscall_times@.len(),
                h@ =~= self.syscall_times@.take(i as int),
            decreases self.syscall_times@.len() - i,
        {
            h.push(self.syscall_times[i]);
            proof {
                assert(h@ =~= self.syscall_times@.take(i + 1));
            }
            i += 1;
        }
        proof {
            assert(self.syscall_times@.take(self.syscall_times@.len() as int)
                =~= self.syscall_times@);
        }
        TaskInfo { status: TaskStatus::Running, syscall_times: h, time: self.time }
    }
}

/// Wire code of a task status in the byte image of a snapshot.
pub open spec fn status_code(s: TaskStatus) -> u8 {
    match s {
        TaskStatus::Ready => 0u8,
        TaskStatus::Running => 1u8,
        TaskStatus::Exited => 2u8,
    }
}

/// Byte image of a syscall histogram: each counter in order, four bytes
/// little-endian each.
pub open spec fn histogram_bytes(h: Seq<u32>) -> Seq<u8>
    decreases h.len(),
{
    if h.len() == 0 {
        Seq::empty()
    } else {
        histogram_bytes(h.drop_last()) + le_bytes(h.last() as nat, 4)
    }
}

/// The histogram's byte image is four bytes per counter.
pub proof fn lemma_histogram_bytes_len(h: Seq<u32>)
    ensures
        histogram_bytes(h).len() == 4 * h.len(),
    decreases h.len(),
{
    if h.len() > 0 {
        lemma_histogram_bytes_len(h.drop_last());
    }
}

/// Byte image of a snapshot as written into the task's address space: the
/// status code, the histogram, then the runtime, eight bytes little-endian.
pub open spec fn task_info_bytes(info: TaskInfo) -> Seq<u8> {
    seq![status_code(info.status)] + histogram_bytes(info.syscall_times@) + le_bytes(
        info.time as nat,
        8,
    )
}

/// The snapshot `sys_task_info` reports for a task: its live counters, the
/// status always `Running`, since the task asking is the one running.
pub open spec fn spec_snapshot(t: Task) -> TaskInfo {
    TaskInfo { status: TaskStatus::Running, syscall_times: t.syscall_times, time: t.time }
}

/// Wire code of a task status.
pub fn status_code_of(s: TaskStatus) -> (r: u8)
    ensures
        r == status_code(s),
{
    match s {
        TaskStatus::Ready => 0,
        TaskStatus::Running => 1,
        TaskStatus::Exited => 2,
    }
}

/// Serialises a snapshot to the byte image the kernel writes out.
#[verifier::loop_isolation(false)]
pub fn encode_task_info(info: &TaskInfo) -> (out: Vec<u8>)
    ensures
        out@ == task_info_bytes(*info),
{
    let mut out: Vec<u8> = Vec::new();
    out.push(status_code_of(info.status));
    proof {
        assert(info.syscall_times@.take(0) =~= Seq::<u32>::empty());
        assert(out@ =~= seq![status_code(info.status)] + histogram_bytes(
            info.syscall_times@.take(0),
        ));
    }
    let mut i: usize = 0;
    while i < info.syscall_times.len()
        invariant
            i <= info.syscall_times@.len(),
            out@ == seq![status_code(info.status)] + histogram_bytes(info.syscall_times@.take(
                i as int,
            )),
        decreases info.syscall_times@.len() - i,
    {
        push_le_bytes(&mut out, info.syscall_times[i] as usize, 4);
        proof {
            let h = info.syscall_times@;
            assert(h.take(i + 1).drop_last() =~= h.take(i as int));
            assert(h.take(i + 1).last() == h[i as int]);
            assert(le_bytes(h[i as int] as nat, 4) =~= le_bytes(
                (h[i as int] as usize) as nat,
                4,
            ));
            assert(out@ =~= seq![status_code(info.status)] + histogram_bytes(h.take(i + 1)));
        }
        i += 1;
    }
    proof {
        assert(info.syscall_times@.take(info.syscall_times@.len() as int)
            =~= info.syscall_times@);
    }
    push_le_bytes(&mut out, info.time, 8);
    proof {
        assert(out@ =~= task_info_bytes(*info));
    }
    out
}

} // verus!
