use vstd::prelude::*;
use vstd::arithmetic::div_mod::{lemma_div_is_ordered, lemma_fundamental_div_mod};
use crate::addr::{page_aligned, page_ceil, page_floor, VirtAddr, PAGE_SIZE};
use crate::perm::{perm_of_port, port_valid, spec_perm_of_port, MapPermission};
use crate::kmem::{range_ok, wrote, KernelMem};
use crate::ptable::PageTable;
use crate::region::{mapped_with, range_set};
use crate::task::{encode_task_info, lemma_histogram_bytes_len, spec_snapshot, task_info_bytes, Task, TaskStatus};
use crate::time::{encode_time_val, time_val_bytes, time_val_from_us, time_val_of};

verus! {

/// Syscall number of `sys_exit`.
pub const SYSCALL_EXIT: usize = 93;

/// Syscall number of `sys_yield`.
pub const SYSCALL_YIELD: usize = 124;

/// Syscall number of `sys_get_time`.
pub const SYSCALL_GET_TIME: usize = 169;

/// Syscall number of `sys_sbrk`.
pub const SYSCALL_SBRK: usize = 214;

/// Syscall number of `sys_munmap`.
pub const SYSCALL_MUNMAP: usize = 215;

/// Syscall number of `sys_mmap`.
pub const SYSCALL_MMAP: usize = 222;

/// Syscall number of `sys_task_info`.
pub const SYSCALL_TASK_INFO: usize = 410;

/// An `mmap(start, len, port)` request is accepted exactly when `start` is
/// page-aligned, `port` is a well-formed permission request, and no page of
/// the page-rounded range is already mapped.
pub open spec fn mmap_ok(m: Map<int, MapPermission>, start: usize, len: usize, port: usize) -> bool {
    &&& page_aligned(start as int)
    &&& port_valid(port)
    &&& forall|v: int|
        page_floor(start as int) <= v < page_ceil(start as int + len as int)
            ==> !m.dom().contains(v)
}

/// A `munmap(start, len)` request is accepted exactly when `start` is
/// page-aligned and every page of the page-rounded range is mapped.
pub open spec fn munmap_ok(m: Map<int, MapPermission>, start: usize, len: usize) -> bool {
    &&& page_aligned(start as int)
    &&& forall|v: int|
        page_floor(start as int) <= v < page_ceil(start as int + len as int)
            ==> m.dom().contains(v)
}

/// The task exits with `exit_code`: the terminal transition of its life
/// cycle.  The original kernel call never returns to the task; here the
/// transition is recorded and the external scheduler runs something else.
pub fn sys_exit(task: &mut Task, exit_code: i32)
    requires
        old(task).wf(),
        old(task).status == TaskStatus::Running,
    ensures
        final(task).wf(),
        *final(task) == (Task { status: TaskStatus::Exited, exit_code, ..*old(task) }),
{
    task.status = TaskStatus::Exited;
    task.exit_code = exit_code;
}

/// The current task gives up the processor for other tasks: it goes back to
/// `Ready` and runs again only when the external scheduler resumes it.
/// Returns 0, delivered to the task once it is next resumed.
pub fn sys_yield(task: &mut Task) -> (r: isize)
    requires
        old(task).wf(),
        old(task).status == TaskStatus::Running,
    ensures
        final(task).wf(),
        r == 0,
        *final(task) == (Task { status: TaskStatus::Ready, ..*old(task) }),
{
    task.status = TaskStatus::Ready;
    0
}

/// Maps the page-rounded range `[start, start + len)` anonymously with the
/// rights `port` requests plus the implied user bit, backing it eagerly
/// with frames.  Returns 0 on success and -1 on any rejection, in which
/// case nothing changes: a misaligned `start`, a `port` with a bit outside
/// the low three or none of them, or a page of the range already mapped.
pub fn sys_mmap(task: &mut Task, start: usize, len: usize, port: usize) -> (r: isize)
    requires
        old(task).wf(),
        start + len <= usize::MAX,
    ensures
        final(task).wf(),
        r == 0 || r == -1,
        (r == 0) <==> mmap_ok(old(task).memory@, start, len, port),
        r == 0 ==> final(task).memory@ == mapped_with(
            old(task).memory@,
            page_floor(start as int),
            page_ceil(start as int + len as int),
            spec_perm_of_port(port),
        ),
        *final(task) == (Task { memory: final(task).memory, ..*old(task) }),
        r == -1 ==> *final(task) == *old(task),
{
    if !VirtAddr(start).aligned() {
        return -1;
    }
    if (port & !0x7) != 0 || (port & 0x7) == 0 {
        return -1;
    }
    let svpn = VirtAddr(start).floor();
    let evpn = VirtAddr(start + len).ceil();
    proof {
        lemma_div_is_ordered(start as int, start as int + len as int, PAGE_SIZE as int);
    }
    if task.memory.any_mapped_in(svpn, evpn) {
        return -1;
    }
    let permission = perm_of_port(port);
    task.memory.insert_framed_range(svpn, evpn, permission);
    0
}

/// Unmaps the page-rounded range `[start, start + len)`, releasing its
/// frames.  Returns 0 on success; if `start` is misaligned or any page of
/// the range is not currently mapped, returns -1 and nothing changes — the
/// operation is all-or-nothing.
pub fn sys_munmap(task: &mut Task, start: usize, len: usize) -> (r: isize)
    requires
        old(task).wf(),
        start + len <= usize::MAX,
    ensures
        final(task).wf(),
        r == 0 || r == -1,
        (r == 0) <==> munmap_ok(old(task).memory@, start, len),
        r == 0 ==> final(task).memory@ == old(task).memory@.remove_keys(
            range_set(page_floor(start as int), page_ceil(start as int + len as int)),
        ),
        *final(task) == (Task { memory: final(task).memory, ..*old(task) }),
        r == -1 ==> *final(task) == *old(task),
{
    if !VirtAddr(start).aligned() {
        return -1;
    }
    let svpn = VirtAddr(start).floor();
    let evpn = VirtAddr(start + len).ceil();
    if !task.memory.all_mapped_in(svpn, evpn) {
        return -1;
    }
    task.memory.remove_framed_range(svpn, evpn);
    0
}

/// Moves the program break by `size` bytes.  Returns the old break on
/// success; returns -1, changing nothing, when the adjusted break would
/// fall below the heap bottom or above the largest address a syscall can
/// return.
pub fn sys_sbrk(task: &mut Task, size: i32) -> (r: isize)
    requires
        old(task).wf(),
    ensures
        final(task).wf(),
        (r == -1) <==> !(old(task).heap_bottom as int <= old(task).brk as int + size as int
            <= isize::MAX as int),
        r != -1 ==> r == old(task).brk as int && *final(task) == (Task {
            brk: (old(task).brk + size) as usize,
            ..*old(task)
        }),
        r == -1 ==> *final(task) == *old(task),
{
    let brk = task.brk;
    if size >= 0 {
        let inc = size as usize;
        if brk <= (isize::MAX as usize) - inc {
            task.brk = brk + inc;
            brk as isize
        } else {
            -1
        }
    } else {
        let dec = (-(size as i64)) as usize;
        if brk - task.heap_bottom >= dec {
            task.brk = brk - dec;
            brk as isize
        } else {
            -1
        }
    }
}

/// Derives the wall-clock-like time from the monotonic microsecond reading
/// `us` and writes it, byte by byte through the task's page table, to the
/// task-space buffer at `ts`.  The timezone argument is accepted and
/// ignored.  Returns 0 once the value is written; returns -1, writing
/// nothing, when any byte of the destination does not resolve.
pub fn sys_get_time(
    mem: &mut KernelMem,
    pt: &PageTable,
    ts: usize,
    _tz: usize,
    us: usize,
) -> (r: isize)
    requires
        pt.wf(),
        ts + 16 <= usize::MAX,
    ensures
        final(mem)@.len() == old(mem)@.len(),
        r == 0 || r == -1,
        (r == 0) <==> range_ok(pt@, old(mem)@.len(), ts as int, 16),
        r == 0 ==> wrote(old(mem)@, final(mem)@, pt@, ts as int, time_val_bytes(time_val_of(us))),
        r == -1 ==> final(mem)@ == old(mem)@,
{
    let tv = time_val_from_us(us);
    let data = encode_time_val(&tv);
    if mem.write_translated(pt, ts, &data) {
        0
    } else {
        -1
    }
}

/// Length in bytes of the image a snapshot writes: the status code, the
/// histogram's counters, and the runtime.
pub const TASK_INFO_BYTES: usize = 2009;

/// Assembles the running task's snapshot and writes it, byte by byte
/// through the task's page table, to the task-space buffer at `ti`.  The
/// status reported is always `Running`: the task asking about itself is
/// the one running.  Returns 0 once the snapshot is written; returns -1,
/// writing nothing, when any byte of the destination does not resolve.
pub fn sys_task_info(mem: &mut KernelMem, pt: &PageTable, task: &Task, ti: usize) -> (r: isize)
    requires
        task.wf(),
        pt.wf(),
        ti + TASK_INFO_BYTES <= usize::MAX,
    ensures
        final(mem)@.len() == old(mem)@.len(),
        r == 0 || r == -1,
        (r == 0) <==> range_ok(pt@, old(mem)@.len(), ti as int, TASK_INFO_BYTES as nat),
        r == 0 ==> wrote(old(mem)@, final(mem)@, pt@, ti as int, task_info_bytes(spec_snapshot(*task))),
        r == -1 ==> final(mem)@ == old(mem)@,
{
    let info = task.snapshot();
    let data = encode_task_info(&info);
    proof {
        lemma_histogram_bytes_len(info.syscall_times@);
        assert(task_info_bytes(info) =~= task_info_bytes(spec_snapshot(*task)));
        assert(data@.len() == TASK_INFO_BYTES);
    }
    if mem.write_translated(pt, ti, &data) {
        0
    } else {
        -1
    }
}

/// After an accepted `mmap`, every page of the page-rounded range is
/// mapped, carrying exactly the requested rights plus the user bit, and
/// every page outside the range keeps the mapping it had.
pub proof fn lemma_mmap_maps_range(m: Map<int, MapPermission>, start: usize, len: usize, port: usize)
    requires
        mmap_ok(m, start, len, port),
        start + len <= usize::MAX,
    ensures
        ({
            let s = page_floor(start as int);
            let e = page_ceil(start as int + len as int);
            let after = mapped_with(m, s, e, spec_perm_of_port(port));
            &&& forall|v: int|
                s <= v < e ==> #[trigger] after.dom().contains(v) && after[v]
                    == spec_perm_of_port(port)
            &&& forall|v: int|
                !(s <= v < e) ==> (#[trigger] after.dom().contains(v) <==> m.dom().contains(v))
                    && (m.dom().contains(v) ==> after[v] == m[v])
        }),
{
}

/// After an accepted `munmap`, every page of the page-rounded range is
/// unmapped, and every page outside the range keeps the mapping it had.
pub proof fn lemma_munmap_unmaps_range(m: Map<int, MapPermission>, start: usize, len: usize)
    requires
        munmap_ok(m, start, len),
        start + len <= usize::MAX,
    ensures
        ({
            let s = page_floor(start as int);
            let e = page_ceil(start as int + len as int);
            let after = m.remove_keys(range_set(s, e));
            &&& forall|v: int| s <= v < e ==> !(#[trigger] after.dom().contains(v))
            &&& forall|v: int|
                !(s <= v < e) ==> (#[trigger] after.dom().contains(v) <==> m.dom().contains(v))
                    && (m.dom().contains(v) ==> after[v] == m[v])
        }),
{
}

/// A nonempty range just unmapped cannot be unmapped again: the same
/// `munmap` request, repeated at once, is rejected, since every page of the
/// range is now free.
pub proof fn lemma_munmap_not_idempotent(
    m: Map<int, MapPermission>,
    start: usize,
    len: usize,
)
    requires
        munmap_ok(m, start, len),
        len > 0,
        start + len <= usize::MAX,
    ensures
        !munmap_ok(
            m.remove_keys(
                range_set(page_floor(start as int), page_ceil(start as int + len as int)),
            ),
            start,
            len,
        ),
{
    let p = PAGE_SIZE as int;
    let s = page_floor(start as int);
    let e = page_ceil(start as int + len as int);
    let b = start as int + len as int;
    lemma_div_is_ordered(start as int, b, p);
    lemma_fundamental_div_mod(start as int, p);
    lemma_fundamental_div_mod(b, p);
    assert(s < e);
    assert(m.dom().contains(s));
    let removed = m.remove_keys(range_set(s, e));
    assert(!removed.dom().contains(s));
}

/// A range accepted by `mmap`, once unmapped by `munmap` with the same
/// arguments, is fully released: the unmap succeeds and the identical
/// `mmap` request succeeds again.
pub proof fn lemma_remap_after_unmap(
    m: Map<int, MapPermission>,
    start: usize,
    len: usize,
    port: usize,
)
    requires
        mmap_ok(m, start, len, port),
        start + len <= usize::MAX,
    ensures
        ({
            let s = page_floor(start as int);
            let e = page_ceil(start as int + len as int);
            let mapped = mapped_with(m, s, e, spec_perm_of_port(port));
            &&& munmap_ok(mapped, start, len)
            &&& mmap_ok(mapped.remove_keys(range_set(s, e)), start, len, port)
        }),
{
}

} // verus!
