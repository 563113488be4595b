use kcore::addr::{VirtAddr, PAGE_SIZE};
use kcore::perm::perm_of_port;
use kcore::syscall::sys_sbrk;
use kcore::task::Task;

#[test]
fn virt_addr_rounding() {
    assert_eq!(PAGE_SIZE, 4096);
    assert!(VirtAddr(0).aligned());
    assert!(VirtAddr(0x2000).aligned());
    assert!(!VirtAddr(0x2001).aligned());
    assert_eq!(VirtAddr(0x1001).floor(), 1);
    assert_eq!(VirtAddr(0x1001).ceil(), 2);
    assert_eq!(VirtAddr(0x1000).floor(), 1);
    assert_eq!(VirtAddr(0x1000).ceil(), 1);
    assert_eq!(VirtAddr(0).ceil(), 0);
    assert_eq!(VirtAddr(usize::MAX).floor(), usize::MAX / 4096);
}

#[test]
fn port_bits_decode_with_user_implied() {
    let p = perm_of_port(0b101);
    assert!(p.readable && !p.writable && p.executable && p.user);
    let q = perm_of_port(0b010);
    assert!(!q.readable && q.writable && !q.executable && q.user);
}

#[test]
fn sbrk_rejects_break_past_address_range() {
    let mut task = Task::new(isize::MAX as usize);
    task.resume();
    assert_eq!(sys_sbrk(&mut task, 1), -1);
    assert_eq!(task.brk, isize::MAX as usize);
    assert_eq!(sys_sbrk(&mut task, 0), isize::MAX);
}
