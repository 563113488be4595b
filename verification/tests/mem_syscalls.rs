use kcore::syscall::{sys_exit, sys_mmap, sys_munmap, sys_sbrk, sys_yield};
use kcore::task::{Task, TaskStatus};

fn fresh_task() -> Task {
    let mut t = Task::new(0x10000);
    t.resume();
    t
}

#[test]
fn mmap_rejects_unaligned_start() {
    let mut task = fresh_task();
    assert_eq!(sys_mmap(&mut task, 0x1001, 0x1000, 0b001), -1);
    assert!(!task.memory.is_mapped(1));
    assert!(!task.memory.is_mapped(2));
    // the table is untouched: the same range still maps cleanly
    assert_eq!(sys_mmap(&mut task, 0x1000, 0x1000, 0b001), 0);
    assert!(task.memory.is_mapped(1));
}

#[test]
fn mmap_rejects_bad_port() {
    let mut task = fresh_task();
    // a bit outside the low three
    assert_eq!(sys_mmap(&mut task, 0x1000, 0x1000, 0b1000), -1);
    assert_eq!(sys_mmap(&mut task, 0x1000, 0x1000, 0b1001), -1);
    // no R/W/X bit at all
    assert_eq!(sys_mmap(&mut task, 0x1000, 0x1000, 0), -1);
    assert!(!task.memory.is_mapped(1));
}

#[test]
fn mmap_rejects_overlap_and_maps_every_page() {
    let mut task = fresh_task();
    assert_eq!(sys_mmap(&mut task, 0x1000, 0x1001, 0b011), 0);
    // 0x1001 bytes round up to two pages
    assert!(task.memory.is_mapped(1));
    assert!(task.memory.is_mapped(2));
    assert!(!task.memory.is_mapped(3));
    // any overlap with the rounded range is refused
    assert_eq!(sys_mmap(&mut task, 0x2000, 0x1000, 0b001), -1);
    // a disjoint range is fine
    assert_eq!(sys_mmap(&mut task, 0x3000, 0x1000, 0b100), 0);
    assert!(task.memory.is_mapped(3));
}

#[test]
fn mmap_records_requested_permission() {
    let mut task = fresh_task();
    assert_eq!(sys_mmap(&mut task, 0x1000, 0x1000, 0b011), 0);
    let p = task.memory.lookup(1).unwrap();
    assert!(p.readable);
    assert!(p.writable);
    assert!(!p.executable);
    assert!(p.user);
    assert_eq!(sys_mmap(&mut task, 0x2000, 0x1000, 0b100), 0);
    let q = task.memory.lookup(2).unwrap();
    assert!(!q.readable);
    assert!(!q.writable);
    assert!(q.executable);
    assert!(q.user);
}

#[test]
fn mmap_empty_range_succeeds_mapping_nothing() {
    let mut task = fresh_task();
    assert_eq!(sys_mmap(&mut task, 0x1000, 0, 0b001), 0);
    assert!(!task.memory.is_mapped(1));
}

#[test]
fn munmap_rejects_range_with_unmapped_page() {
    let mut task = fresh_task();
    assert_eq!(sys_mmap(&mut task, 0x1000, 0x1000, 0b011), 0);
    // page 2 of the requested range is not mapped: nothing changes
    assert_eq!(sys_munmap(&mut task, 0x1000, 0x2000), -1);
    assert!(task.memory.is_mapped(1));
    // misaligned start is refused as well
    assert_eq!(sys_munmap(&mut task, 0x1010, 0x100), -1);
    assert!(task.memory.is_mapped(1));
}

#[test]
fn munmap_unmaps_every_page() {
    let mut task = fresh_task();
    assert_eq!(sys_mmap(&mut task, 0x1000, 0x3000, 0b001), 0);
    assert_eq!(sys_munmap(&mut task, 0x1000, 0x3000), 0);
    assert!(!task.memory.is_mapped(1));
    assert!(!task.memory.is_mapped(2));
    assert!(!task.memory.is_mapped(3));
}

#[test]
fn munmap_of_inner_pages_keeps_the_rest() {
    let mut task = fresh_task();
    assert_eq!(sys_mmap(&mut task, 0x1000, 0x3000, 0b001), 0);
    assert_eq!(sys_munmap(&mut task, 0x2000, 0x1000), 0);
    assert!(task.memory.is_mapped(1));
    assert!(!task.memory.is_mapped(2));
    assert!(task.memory.is_mapped(3));
}

#[test]
fn munmap_twice_fails_the_second_time() {
    let mut task = fresh_task();
    assert_eq!(sys_mmap(&mut task, 0x1000, 0x2000, 0b011), 0);
    assert_eq!(sys_munmap(&mut task, 0x1000, 0x2000), 0);
    assert_eq!(sys_munmap(&mut task, 0x1000, 0x2000), -1);
}

#[test]
fn remap_after_unmap_succeeds() {
    let mut task = fresh_task();
    assert_eq!(sys_mmap(&mut task, 0x1000, 0x2000, 0b011), 0);
    assert_eq!(sys_munmap(&mut task, 0x1000, 0x2000), 0);
    assert_eq!(sys_mmap(&mut task, 0x1000, 0x2000, 0b011), 0);
    assert!(task.memory.is_mapped(1));
    assert!(task.memory.is_mapped(2));
}

#[test]
fn mmap_munmap_scenario() {
    let mut task = fresh_task();
    // R|W, page-aligned, two pages
    assert_eq!(sys_mmap(&mut task, 0x1000, 0x2000, 0b011), 0);
    let p = task.memory.lookup(1).unwrap();
    assert!(p.readable && p.writable && p.user && !p.executable);
    let q = task.memory.lookup(2).unwrap();
    assert!(q.readable && q.writable && q.user && !q.executable);
    assert!(!task.memory.is_mapped(3));
    // overlap with [0x1000, 0x3000)
    assert_eq!(sys_mmap(&mut task, 0x2000, 0x1000, 0b001), -1);
    assert_eq!(sys_munmap(&mut task, 0x1000, 0x2000), 0);
    assert_eq!(sys_munmap(&mut task, 0x1000, 0x2000), -1);
}

#[test]
fn sbrk_returns_old_break_and_moves_it() {
    let mut task = fresh_task();
    assert_eq!(task.brk, 0x10000);
    assert_eq!(sys_sbrk(&mut task, 0x1000), 0x10000);
    assert_eq!(task.brk, 0x11000);
    assert_eq!(sys_sbrk(&mut task, -0x800), 0x11000);
    assert_eq!(task.brk, 0x10800);
}

#[test]
fn sbrk_rejects_break_below_heap_bottom() {
    let mut task = fresh_task();
    assert_eq!(sys_sbrk(&mut task, -1), -1);
    assert_eq!(task.brk, 0x10000);
    assert_eq!(sys_sbrk(&mut task, -0x20000), -1);
    assert_eq!(task.brk, 0x10000);
}

#[test]
fn exit_is_terminal_and_yield_goes_ready() {
    let mut task = fresh_task();
    assert_eq!(task.status, TaskStatus::Running);
    assert_eq!(sys_yield(&mut task), 0);
    assert_eq!(task.status, TaskStatus::Ready);
    task.resume();
    assert_eq!(task.status, TaskStatus::Running);
    sys_exit(&mut task, 7);
    assert_eq!(task.status, TaskStatus::Exited);
    assert_eq!(task.exit_code, 7);
}
