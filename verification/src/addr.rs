use vstd::prelude::*;

verus! {

/// Number of bytes in one page of an address space.
pub const PAGE_SIZE: usize = 4096;

/// Page number of the page holding byte address `a`.
pub open spec fn page_floor(a: int) -> int {
    a / (PAGE_SIZE as int)
}

/// Number of the first page at or above byte address `a`.
pub open spec fn page_ceil(a: int) -> int {
    page_floor(a) + if a % (PAGE_SIZE as int) == 0 { 0int } else { 1int }
}

/// `a` sits exactly on a page boundary.
pub open spec fn page_aligned(a: int) -> bool {
    a % (PAGE_SIZE as int) == 0
}

/// A byte address in a task's virtual address space.
#[derive(Clone, Copy, PartialEq, Eq, Structural, Debug)]
pub struct VirtAddr(pub usize);

impl VirtAddr {
    /// The address sits exactly on a page boundary.
    pub fn aligned(self) -> (r: bool)
        ensures
            r == page_aligned(self.0 as int),
    {
        self.0 % PAGE_SIZE == 0
    }

    /// Page number of the page this address falls in.
    pub fn floor(self) -> (r: usize)
        ensures
            r == page_floor(self.0 as int),
    {
        self.0 / PAGE_SIZE
    }

    /// Number of the first page boundary at or above this address.
    pub fn ceil(self) -> (r: usize)
        ensures
            r == page_ceil(self.0 as int),
    {
        let q = self.0 / PAGE_SIZE;
        if self.0 % PAGE_SIZE == 0 {
            q
        } else {
            proof {
                assert(q < usize::MAX) by {
                    assert(q * PAGE_SIZE <= self.0) by (nonlinear_arith)
                        requires
                            q == self.0 as int / PAGE_SIZE as int,
                    ;
                };
            }
            q + 1
        }
    }
}

} // verus!
