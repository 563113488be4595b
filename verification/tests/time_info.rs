use kcore::kmem::KernelMem;
use kcore::ptable::PageTable;
use kcore::syscall::{sys_get_time, sys_task_info, SYSCALL_GET_TIME, TASK_INFO_BYTES};
use kcore::task::{Task, MAX_SYSCALL_NUM};
use kcore::time::{encode_time_val, time_val_from_us, TimeVal};

#[test]
fn time_val_splits_ticks_exactly() {
    let tv = time_val_from_us(1_234_567);
    assert_eq!(tv.sec, 1);
    assert_eq!(tv.usec, 234_567);
    let tv0 = time_val_from_us(999_999);
    assert_eq!(tv0.sec, 0);
    assert_eq!(tv0.usec, 999_999);
}

#[test]
fn time_val_is_monotonic_and_bounded() {
    let samples = [0usize, 1, 999_999, 1_000_000, 1_000_001, 5_000_000, 123_456_789];
    for w in samples.windows(2) {
        let a = time_val_from_us(w[0]);
        let b = time_val_from_us(w[1]);
        assert!(a.usec < 1_000_000);
        assert!(b.usec < 1_000_000);
        assert!(a.sec < b.sec || (a.sec == b.sec && a.usec <= b.usec));
    }
}

#[test]
fn le_encoding_is_little_endian() {
    let bytes = encode_time_val(&TimeVal { sec: 0x0102_0304, usec: 0 });
    assert_eq!(bytes.len(), 16);
    assert_eq!(&bytes[0..8], &[4, 3, 2, 1, 0, 0, 0, 0]);
    assert_eq!(&bytes[8..16], &[0, 0, 0, 0, 0, 0, 0, 0]);
}

#[test]
fn get_time_writes_through_a_page_straddle() {
    let mut pt = PageTable::new();
    // the buffer's two virtual pages sit in non-adjacent frames
    assert!(pt.map_frame(0, 2));
    assert!(pt.map_frame(1, 0));
    let mut mem = KernelMem::new(4);
    // the 16-byte value straddles the boundary between pages 0 and 1
    let ts = 0x1000 - 8;
    assert_eq!(sys_get_time(&mut mem, &pt, ts, 0, 1_234_567), 0);
    let got = mem.read_translated(&pt, ts, 16).unwrap();
    let want = encode_time_val(&TimeVal { sec: 1, usec: 234_567 });
    assert_eq!(got, want);
    // first half landed at the end of frame 2, second at the start of frame 0
    assert_eq!(mem.read_byte(2 * 4096 + 4096 - 8).unwrap(), want[0]);
    assert_eq!(mem.read_byte(7).unwrap(), want[15]);
}

#[test]
fn get_time_rejects_unresolved_destination() {
    let mut pt = PageTable::new();
    assert!(pt.map_frame(0, 0));
    let mut mem = KernelMem::new(2);
    // the tail of the value falls into unmapped page 1
    assert_eq!(sys_get_time(&mut mem, &pt, 0x1000 - 8, 0, 42), -1);
    // an untouched memory still reads back as zeros
    assert_eq!(mem.read_byte(4096 - 8).unwrap(), 0);
    // a fully mapped destination works
    assert_eq!(sys_get_time(&mut mem, &pt, 0, 0, 42), 0);
}

#[test]
fn task_info_reports_running_and_counts_get_time() {
    let mut task = Task::new(0x10000);
    task.resume();
    task.record_syscall(SYSCALL_GET_TIME);
    task.add_runtime(17);
    let info = task.snapshot();
    assert_eq!(info.syscall_times[SYSCALL_GET_TIME], 1);
    assert_eq!(info.time, 17);

    let mut pt = PageTable::new();
    assert!(pt.map_frame(0, 0));
    let mut mem = KernelMem::new(1);
    assert_eq!(sys_task_info(&mut mem, &pt, &task, 0), 0);
    let got = mem.read_translated(&pt, 0, TASK_INFO_BYTES).unwrap();
    assert_eq!(got.len(), 1 + 4 * MAX_SYSCALL_NUM + 8);
    // status byte: Running
    assert_eq!(got[0], 1);
    // the histogram slot of get_time holds exactly one invocation
    let off = 1 + 4 * SYSCALL_GET_TIME;
    assert_eq!(&got[off..off + 4], &[1, 0, 0, 0]);
    // every other counter is zero
    for id in 0..MAX_SYSCALL_NUM {
        if id != SYSCALL_GET_TIME {
            let o = 1 + 4 * id;
            assert_eq!(&got[o..o + 4], &[0, 0, 0, 0]);
        }
    }
    // the runtime tail
    assert_eq!(&got[1 + 4 * MAX_SYSCALL_NUM..], &[17, 0, 0, 0, 0, 0, 0, 0]);
}

#[test]
fn task_info_rejects_unresolved_destination() {
    let task = Task::new(0x10000);
    let mut pt = PageTable::new();
    assert!(pt.map_frame(0, 0));
    let mut mem = KernelMem::new(1);
    // the snapshot runs past the end of the one mapped page
    assert_eq!(sys_task_info(&mut mem, &pt, &task, 4096 - 8), -1);
    assert_eq!(mem.read_byte(4096 - 8).unwrap(), 0);
}

#[test]
fn record_syscall_accumulates() {
    let mut task = Task::new(0);
    task.record_syscall(SYSCALL_GET_TIME);
    task.record_syscall(SYSCALL_GET_TIME);
    task.record_syscall(0);
    assert_eq!(task.syscall_times[SYSCALL_GET_TIME], 2);
    assert_eq!(task.syscall_times[0], 1);
    assert_eq!(task.syscall_times[1], 0);
}

#[test]
fn page_table_refuses_double_use() {
    let mut pt = PageTable::new();
    assert!(pt.map_frame(3, 5));
    // the virtual page is taken
    assert!(!pt.map_frame(3, 6));
    // the frame is taken
    assert!(!pt.map_frame(4, 5));
    assert!(pt.map_frame(4, 6));
    assert_eq!(pt.translate(3 * 4096 + 123).unwrap(), 5 * 4096 + 123);
    assert_eq!(pt.translate(4 * 4096).unwrap(), 6 * 4096);
    assert!(pt.translate(5 * 4096).is_none());
}

#[test]
fn kernel_mem_starts_zeroed_and_checks_bounds() {
    let mem = KernelMem::new(1);
    assert_eq!(mem.len(), 4096);
    assert_eq!(mem.read_byte(0).unwrap(), 0);
    assert_eq!(mem.read_byte(4095).unwrap(), 0);
    assert!(mem.read_byte(4096).is_none());
}
