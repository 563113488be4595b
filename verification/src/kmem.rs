use vstd::prelude::*;
use crate::addr::{page_floor, PAGE_SIZE};
use crate::ptable::{lemma_paddr_injective, spec_paddr, PageTable};

verus! {

/// The kernel's directly accessible byte memory: the frames that
/// translated task addresses resolve into.  Viewed as the sequence of its
/// bytes.
pub struct KernelMem {
    bytes: Vec<u8>,
}

/// Byte `a` of the task's space can be resolved and reached: its page is
/// in the table and the resolved kernel address lies inside the memory.
pub open spec fn byte_ok(t: Map<int, int>, mem_len: nat, a: int) -> bool {
    t.dom().contains(page_floor(a)) && 0 <= spec_paddr(t, a) < mem_len
}

/// Every byte of `[va, va + n)` can be resolved and reached.
pub open spec fn range_ok(t: Map<int, int>, mem_len: nat, va: int, n: nat) -> bool {
    forall|i: int| 0 <= i < n ==> #[trigger] byte_ok(t, mem_len, va + i)
}

/// `m1` is `m0` with `data` landed at the translated addresses of the
/// bytes starting at task address `va`, and no other byte touched.
pub open spec fn wrote(m0: Seq<u8>, m1: Seq<u8>, t: Map<int, int>, va: int, data: Seq<u8>) -> bool {
    &&& m1.len() == m0.len()
    &&& forall|i: int| 0 <= i < data.len() ==> m1[#[trigger] spec_paddr(t, va + i)] == data[i]
    &&& forall|j: int|
        0 <= j < m1.len() && (forall|i: int| 0 <= i < data.len() ==> #[trigger] spec_paddr(t, va + i)
            != j) ==> m1[j] == m0[j]
}

impl KernelMem {
    /// A memory of `frames` zeroed frames.
    #[verifier::loop_isolation(false)]
    pub fn new(frames: usize) -> (r: KernelMem)
        requires
            frames * PAGE_SIZE <= usize::MAX,
        ensures
            r@.len() == frames * PAGE_SIZE,
            forall|j: int| 0 <= j < r@.len() ==> r@[j] == 0u8,
    {
        let n = frames * PAGE_SIZE;
        let mut bytes: Vec<u8> = Vec::new();
        let mut i: usize = 0;
        while i < n
            invariant
                i <= n,
                bytes@.len() == i,
                forall|j: int| 0 <= j < i ==> bytes@[j] == 0u8,
            decreases n - i,
        {
            bytes.push(0);
            i += 1;
        }
        KernelMem { bytes }
    }

    /// Number of directly accessible bytes.
    pub fn len(&self) -> (r: usize)
        ensures
            r == self@.len(),
    {
        self.bytes.len()
    }

    /// The byte at kernel address `pa`, if it is in bounds.
    pub fn read_byte(&self, pa: usize) -> (r: Option<u8>)
        ensures
            match r {
                Some(b) => pa < self@.len() && b == self@[pa as int],
                None => pa >= self@.len(),
            },
    {
        if pa < self.bytes.len() {
            Some(self.bytes[pa])
        } else {
            None
        }
    }

    /// Writes `data` into the task's address space at task address `va`,
    /// resolving every byte independently through `pt`, so that a value
    /// straddling a page boundary lands correctly in both frames.  Nothing
    /// is written unless the whole range resolves: all-or-nothing.
    #[verifier::loop_isolation(false)]
    pub fn write_translated(&mut self, pt: &PageTable, va: usize, data: &Vec<u8>) -> (ok: bool)
        requires
            pt.wf(),
            va + data@.len() <= usize::MAX,
        ensures
            final(self)@.len() == old(self)@.len(),
            ok <==> range_ok(pt@, old(self)@.len(), va as int, data@.len()),
            ok ==> wrote(old(self)@, final(self)@, pt@, va as int, data@),
            !ok ==> final(self)@ == old(self)@,
    {
        let n = data.len();
        let mut i: usize = 0;
        while i < n
            invariant
                i <= n,
                forall|k: int| 0 <= k < i ==> #[trigger] byte_ok(pt@, self@.len(), va + k),
            decreases n - i,
        {
            match pt.translate(va + i) {
                Some(pa) => {
                    if pa >= self.bytes.len() {
                        proof {
                            assert(!byte_ok(pt@, self@.len(), va + i));
                        }
                        return false;
                    }
                },
                None => {
                    proof {
                        assert(!byte_ok(pt@, self@.len(), va + i));
                    }
                    return false;
                },
            }
            i += 1;
        }
        let mut i: usize = 0;
        while i < n
            invariant
                i <= n,
                self@.len() == old(self)@.len(),
                range_ok(pt@, old(self)@.len(), va as int, n as nat),
                forall|k: int|
                    0 <= k < i ==> self@[#[trigger] spec_paddr(pt@, va + k)] == data@[k],
                forall|j: int|
                    0 <= j < self@.len() && (forall|k: int|
                        0 <= k < i ==> #[trigger] spec_paddr(pt@, va + k) != j) ==> self@[j]
                        == old(self)@[j],
            decreases n - i,
        {
            proof {
                assert(byte_ok(pt@, old(self)@.len(), va + i));
            }
            let pa = match pt.translate(va + i) {
                Some(pa) => pa,
                None => {
                    proof {
                        assert(false);
                    }
                    0
                },
            };
            self.bytes.set(pa, data[i]);
            proof {
                assert forall|k: int|
                    0 <= k < i + 1 implies self@[#[trigger] spec_paddr(pt@, va + k)]
                    == data@[k] by {
                    assert(byte_ok(pt@, old(self)@.len(), va + k));
                    assert(byte_ok(pt@, old(self)@.len(), va + i));
                    if k < i {
                        lemma_paddr_injective(pt, va + k, va + i);
                    }
                }
            }
            i += 1;
        }
        true
    }

    /// Reads `n` bytes of the task's address space starting at task
    /// address `va`, resolving every byte independently through `pt`.
    /// Nothing is returned unless the whole range resolves.
    #[verifier::loop_isolation(false)]
    pub fn read_translated(&self, pt: &PageTable, va: usize, n: usize) -> (r: Option<Vec<u8>>)
        requires
            pt.wf(),
            va + n <= usize::MAX,
        ensures
            match r {
                Some(out) => range_ok(pt@, self@.len(), va as int, n as nat) && out@.len() == n
                    && forall|i: int|
                    0 <= i < n ==> out@[i] == self@[#[trigger] spec_paddr(pt@, va + i)],
                None => !range_ok(pt@, self@.len(), va as int, n as nat),
            },
    {
        let mut out: Vec<u8> = Vec::new();
        let mut i: usize = 0;
        while i < n
            invariant
                i <= n,
                out@.len() == i,
                forall|k: int| 0 <= k < i ==> #[trigger] byte_ok(pt@, self@.len(), va + k),
                forall|k: int|
                    0 <= k < i ==> out@[k] == self@[#[trigger] spec_paddr(pt@, va + k)],
            decreases n - i,
        {
            match pt.translate(va + i) {
                Some(pa) => {
                    if pa >= self.bytes.len() {
                        proof {
                            assert(!byte_ok(pt@, self@.len(), va + i));
                        }
                        return None;
                    }
                    out.push(self.bytes[pa]);
                },
                None => {
                    proof {
                        assert(!byte_ok(pt@, self@.len(), va + i));
                    }
                    return None;
                },
            }
            i += 1;
        }
        Some(out)
    }
}

impl View for KernelMem {
    type V = Seq<u8>;

    closed spec fn view(&self) -> Seq<u8> {
        self.bytes@
    }
}

} // verus!
