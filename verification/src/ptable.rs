use vstd::prelude::*;
use crate::addr::{page_floor, PAGE_SIZE};

verus! {

/// Largest frame number a page table may name; keeps every resolved kernel
/// byte address representable on the machine.
pub const MAX_PPN: usize = 0xF_FFFF;

/// One page-table entry: virtual page `vpn` is backed by physical frame
/// `ppn`.
#[derive(Clone, Copy, PartialEq, Eq, Structural, Debug)]
pub struct FrameMapping {
    pub vpn: usize,
    pub ppn: usize,
}

/// A task's active page table, resolving virtual page numbers to the
/// physical frames backing them.  Viewed as a map from virtual page number
/// to frame number.
pub struct PageTable {
    entries: Vec<FrameMapping>,
}

/// The page-number-to-frame map a list of entries denotes.
pub open spec fn table_of(s: Seq<FrameMapping>) -> Map<int, int>
    decreases s.len(),
{
    if s.len() == 0 {
        Map::empty()
    } else {
        table_of(s.drop_last()).insert(s.last().vpn as int, s.last().ppn as int)
    }
}

/// Kernel byte address that virtual byte address `a` resolves to under
/// table `t`: the backing frame's base plus the offset within the page.
pub open spec fn spec_paddr(t: Map<int, int>, a: int) -> int {
    t[page_floor(a)] * (PAGE_SIZE as int) + a % (PAGE_SIZE as int)
}

/// A virtual page is in the denoted map exactly when some entry carries it.
proof fn lemma_table_of_dom(s: Seq<FrameMapping>)
    ensures
        forall|i: int|
            0 <= i < s.len() ==> table_of(s).dom().contains((#[trigger] s[i].vpn) as int),
        forall|v: int|
            table_of(s).dom().contains(v) ==> exists|i: int| 0 <= i < s.len() && s[i].vpn == v,
    decreases s.len(),
{
    if s.len() > 0 {
        let d = s.drop_last();
        lemma_table_of_dom(d);
        assert(table_of(s) == table_of(d).insert(s.last().vpn as int, s.last().ppn as int));
        assert forall|i: int|
            0 <= i < s.len() implies table_of(s).dom().contains((#[trigger] s[i].vpn) as int) by {
            if i < s.len() - 1 {
                assert(d[i].vpn == s[i].vpn);
                assert(table_of(d).dom().contains(d[i].vpn as int));
            } else {
                assert(s[i] == s.last());
            }
        }
        assert forall|v: int|
            table_of(s).dom().contains(v) implies exists|i: int|
            0 <= i < s.len() && s[i].vpn == v by {
            if v == s.last().vpn as int {
                assert(s[s.len() - 1].vpn == v);
            } else {
                assert(table_of(d).dom().contains(v));
                let i = choose|i: int| 0 <= i < d.len() && d[i].vpn == v;
                assert(d[i] == s[i]);
                assert(s[i].vpn == v);
            }
        }
    }
}

/// With no duplicate virtual pages, the denoted map sends each listed page
/// to the frame of its entry.
proof fn lemma_table_of_at(s: Seq<FrameMapping>, i: int)
    requires
        forall|a: int, b: int| 0 <= a < b < s.len() ==> s[a].vpn != s[b].vpn,
        0 <= i < s.len(),
    ensures
        table_of(s).dom().contains(s[i].vpn as int),
        table_of(s)[s[i].vpn as int] == s[i].ppn,
    decreases s.len(),
{
    lemma_table_of_dom(s);
    if i == s.len() - 1 {
    } else {
        let d = s.drop_last();
        assert(forall|a: int, b: int| 0 <= a < b < d.len() ==> d[a].vpn != d[b].vpn);
        lemma_table_of_at(d, i);
        assert(d[i] == s[i]);
        assert(s[i].vpn != s.last().vpn);
    }
}

impl PageTable {
    /// Virtual pages and frames each occur at most once, and every frame
    /// number stays within the machine's range.
    pub closed spec fn wf(self) -> bool {
        &&& forall|i: int, j: int|
            0 <= i < j < self.entries@.len() ==> self.entries@[i].vpn != self.entries@[j].vpn
                && self.entries@[i].ppn != self.entries@[j].ppn
        &&& forall|i: int| 0 <= i < self.entries@.len() ==> (#[trigger] self.entries@[i]).ppn <= MAX_PPN
    }

    /// An empty page table: nothing resolves.
    pub fn new() -> (r: PageTable)
        ensures
            r.wf(),
            r@ == Map::<int, int>::empty(),
    {
        PageTable { entries: Vec::new() }
    }

    /// Installs frame `ppn` behind virtual page `vpn`.  Refused, changing
    /// nothing, when the page is already mapped, the frame is already in
    /// use, or the frame number is out of range.
    #[verifier::loop_isolation(false)]
    pub fn map_frame(&mut self, vpn: usize, ppn: usize) -> (ok: bool)
        requires
            old(self).wf(),
        ensures
            final(self).wf(),
            ok <==> (!old(self)@.dom().contains(vpn as int) && ppn <= MAX_PPN && (forall|v: int|
                old(self)@.dom().contains(v) ==> old(self)@[v] != ppn)),
            ok ==> final(self)@ == old(self)@.insert(vpn as int, ppn as int),
            !ok ==> final(self)@ == old(self)@,
    {
        proof {
            lemma_table_of_dom(self.entries@);
        }
        if ppn > MAX_PPN {
            return false;
        }
        let mut i: usize = 0;
        while i < self.entries.len()
            invariant
                i <= self.entries.len(),
                forall|j: int|
                    0 <= j < i ==> (#[trigger] self.entries@[j]).vpn != vpn
                        && self.entries@[j].ppn != ppn,
            decreases self.entries.len() - i,
        {
            let ent = self.entries[i];
            if ent.vpn == vpn {
                proof {
                    assert(self.entries@[i as int].vpn == vpn);
                }
                return false;
            }
            if ent.ppn == ppn {
                proof {
                    lemma_table_of_at(self.entries@, i as int);
                    assert(self@.dom().contains(self.entries@[i as int].vpn as int));
                }
                return false;
            }
            i += 1;
        }
        proof {
            if self@.dom().contains(vpn as int) {
                let k = choose|k: int|
                    0 <= k < self.entries@.len() && self.entries@[k].vpn == vpn;
                assert(self.entries@[k].vpn == vpn);
            }
            assert forall|v: int| self@.dom().contains(v) implies self@[v] != ppn by {
                let k = choose|k: int| 0 <= k < self.entries@.len() && self.entries@[k].vpn == v;
                lemma_table_of_at(self.entries@, k);
            }
        }
        let ghost before = self.entries@;
        self.entries.push(FrameMapping { vpn, ppn });
        proof {
            assert(self.entries@.drop_last() =~= before);
            assert(table_of(self.entries@) == table_of(before).insert(vpn as int, ppn as int));
            assert forall|a: int, b: int|
                0 <= a < b < self.entries@.len() implies self.entries@[a].vpn
                != self.entries@[b].vpn && self.entries@[a].ppn != self.entries@[b].ppn by {
                if b == self.entries@.len() - 1 {
                    assert(self.entries@[a] == before[a]);
                }
            }
        }
        true
    }

    /// The frame behind virtual page `vpn`, if the page resolves.
    #[verifier::loop_isolation(false)]
    pub fn lookup(&self, vpn: usize) -> (r: Option<usize>)
        requires
            self.wf(),
        ensures
            match r {
                Some(ppn) => self@.dom().contains(vpn as int) && self@[vpn as int] == ppn && ppn
                    <= MAX_PPN,
                None => !self@.dom().contains(vpn as int),
            },
    {
        proof {
            lemma_table_of_dom(self.entries@);
        }
        let mut i: usize = 0;
        while i < self.entries.len()
            invariant
                i <= self.entries.len(),
                forall|j: int| 0 <= j < i ==> (#[trigger] self.entries@[j]).vpn != vpn,
            decreases self.entries.len() - i,
        {
            if self.entries[i].vpn == vpn {
                proof {
                    lemma_table_of_at(self.entries@, i as int);
                }
                return Some(self.entries[i].ppn);
            }
            i += 1;
        }
        proof {
            if self@.dom().contains(vpn as int) {
                let k = choose|k: int|
                    0 <= k < self.entries@.len() && self.entries@[k].vpn == vpn;
                assert(self.entries@[k].vpn == vpn);
            }
        }
        None
    }

    /// Resolves a virtual byte address to the kernel byte address it is
    /// backed by, if its page is mapped.  Each byte of a larger value is
    /// resolved independently, so a value straddling a page boundary lands
    /// in both its frames correctly.
    pub fn translate(&self, va: usize) -> (r: Option<usize>)
        requires
            self.wf(),
        ensures
            match r {
                Some(pa) => self@.dom().contains(page_floor(va as int)) && pa == spec_paddr(
                    self@,
                    va as int,
                ),
                None => !self@.dom().contains(page_floor(va as int)),
            },
    {
        let vpn = va / PAGE_SIZE;
        match self.lookup(vpn) {
            Some(ppn) => Some(ppn * PAGE_SIZE + va % PAGE_SIZE),
            None => None,
        }
    }

    /// Distinct virtual pages resolve to distinct frames.
    pub proof fn lemma_view_injective(&self)
        requires
            self.wf(),
        ensures
            forall|v1: int, v2: int|
                self@.dom().contains(v1) && self@.dom().contains(v2) && v1 != v2
                    ==> self@[v1] != self@[v2],
            forall|v: int| #[trigger] self@.dom().contains(v) ==> 0 <= self@[v] <= MAX_PPN,
    {
        lemma_table_of_dom(self.entries@);
        assert forall|v1: int, v2: int|
            self@.dom().contains(v1) && self@.dom().contains(v2) && v1 != v2 implies self@[v1]
            != self@[v2] by {
            let k1 = choose|k: int| 0 <= k < self.entries@.len() && self.entries@[k].vpn == v1;
            let k2 = choose|k: int| 0 <= k < self.entries@.len() && self.entries@[k].vpn == v2;
            lemma_table_of_at(self.entries@, k1);
            lemma_table_of_at(self.entries@, k2);
        }
        assert forall|v: int| #[trigger] self@.dom().contains(v) implies 0 <= self@[v]
            <= MAX_PPN by {
            let k = choose|k: int| 0 <= k < self.entries@.len() && self.entries@[k].vpn == v;
            lemma_table_of_at(self.entries@, k);
        }
    }
}

/// Distinct virtual byte addresses with mapped pages resolve to distinct
/// kernel byte addresses.
pub proof fn lemma_paddr_injective(pt: &PageTable, a1: int, a2: int)
    requires
        pt.wf(),
        0 <= a1,
        0 <= a2,
        a1 != a2,
        pt@.dom().contains(page_floor(a1)),
        pt@.dom().contains(page_floor(a2)),
    ensures
        spec_paddr(pt@, a1) != spec_paddr(pt@, a2),
{
    let p = PAGE_SIZE as int;
    pt.lemma_view_injective();
    vstd::arithmetic::div_mod::lemma_fundamental_div_mod(a1, p);
    vstd::arithmetic::div_mod::lemma_fundamental_div_mod(a2, p);
    if page_floor(a1) == page_floor(a2) {
        assert(a1 % p != a2 % p);
    } else {
        let q1 = pt@[page_floor(a1)];
        let q2 = pt@[page_floor(a2)];
        assert(q1 != q2);
        assert(q1 * p + a1 % p != q2 * p + a2 % p) by (nonlinear_arith)
            requires
                q1 != q2,
                0 <= a1 % p < p,
                0 <= a2 % p < p,
                p == 4096,
        ;
    }
}

impl View for PageTable {
    type V = Map<int, int>;

    closed spec fn view(&self) -> Map<int, int> {
        table_of(self.entries@)
    }
}

} // verus!
