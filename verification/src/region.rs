use vstd::prelude::*;
use crate::perm::MapPermission;

verus! {

/// One page of a task's address space together with the rights it was
/// mapped with.  A contiguous mapped region is represented page by page.
#[derive(Clone, Copy, PartialEq, Eq, Structural, Debug)]
pub struct MappedPage {
    pub vpn: usize,
    pub perm: MapPermission,
}

/// The set of pages a task has mapped, owned by that task alone.  Viewed as
/// a map from page number to the permission the page was mapped with.
pub struct MemorySet {
    pages: Vec<MappedPage>,
}

/// The page-number-to-permission map a list of mapped pages denotes; a later
/// entry for the same page would win, but a well-formed set has no duplicates.
pub open spec fn map_of(s: Seq<MappedPage>) -> Map<int, MapPermission>
    decreases s.len(),
{
    if s.len() == 0 {
        Map::empty()
    } else {
        map_of(s.drop_last()).insert(s.last().vpn as int, s.last().perm)
    }
}

/// `m` extended so that every page in `[s, e)` is mapped with `perm`, other
/// pages untouched.
pub open spec fn mapped_with(m: Map<int, MapPermission>, s: int, e: int, perm: MapPermission) -> Map<
    int,
    MapPermission,
> {
    Map::new(
        |v: int| m.dom().contains(v) || (s <= v < e),
        |v: int| if s <= v < e { perm } else { m[v] },
    )
}

/// The page numbers in `[s, e)`.
pub open spec fn range_set(s: int, e: int) -> Set<int> {
    Set::new(|v: int| s <= v < e)
}

/// A page number occurs at most once in the list.
pub open spec fn pages_unique(s: Seq<MappedPage>) -> bool {
    forall|i: int, j: int| 0 <= i < j < s.len() ==> s[i].vpn != s[j].vpn
}

/// A page is in the denoted map exactly when some entry carries it.
proof fn lemma_map_of_dom(s: Seq<MappedPage>)
    ensures
        forall|i: int|
            0 <= i < s.len() ==> map_of(s).dom().contains((#[trigger] s[i].vpn) as int),
        forall|v: int|
            map_of(s).dom().contains(v) ==> exists|i: int| 0 <= i < s.len() && s[i].vpn == v,
    decreases s.len(),
{
    if s.len() > 0 {
        let d = s.drop_last();
        lemma_map_of_dom(d);
        assert(map_of(s) == map_of(d).insert(s.last().vpn as int, s.last().perm));
        assert forall|i: int|
            0 <= i < s.len() implies map_of(s).dom().contains((#[trigger] s[i].vpn) as int) by {
            if i < s.len() - 1 {
                assert(d[i].vpn == s[i].vpn);
                assert(map_of(d).dom().contains(d[i].vpn as int));
            } else {
                assert(s[i] == s.last());
            }
        }
        assert forall|v: int|
            map_of(s).dom().contains(v) implies exists|i: int|
            0 <= i < s.len() && s[i].vpn == v by {
            if v == s.last().vpn as int {
                assert(s[s.len() - 1].vpn == v);
            } else {
                assert(map_of(d).dom().contains(v));
                let i = choose|i: int| 0 <= i < d.len() && d[i].vpn == v;
                assert(d[i] == s[i]);
                assert(s[i].vpn == v);
            }
        }
    }
}

/// With no duplicate pages, the denoted map sends each listed page to the
/// permission of its entry.
proof fn lemma_map_of_at(s: Seq<MappedPage>, i: int)
    requires
        pages_unique(s),
        0 <= i < s.len(),
    ensures
        map_of(s).dom().contains(s[i].vpn as int),
        map_of(s)[s[i].vpn as int] == s[i].perm,
    decreases s.len(),
{
    lemma_map_of_dom(s);
    if i == s.len() - 1 {
    } else {
        let d = s.drop_last();
        assert(pages_unique(d)) by {
            assert(forall|a: int, b: int| 0 <= a < b < d.len() ==> d[a].vpn != d[b].vpn);
        }
        lemma_map_of_at(d, i);
        assert(d[i] == s[i]);
        assert(s[i].vpn != s.last().vpn);
    }
}

impl MemorySet {
    /// The page list holds each page at most once.
    pub closed spec fn wf(self) -> bool {
        pages_unique(self.pages@)
    }

    /// An empty address space: no page mapped.
    pub fn new() -> (r: MemorySet)
        ensures
            r.wf(),
            r@ == Map::<int, MapPermission>::empty(),
    {
        MemorySet { pages: Vec::new() }
    }

    /// Whether page `vpn` is currently mapped.
    #[verifier::loop_isolation(false)]
    pub fn is_mapped(&self, vpn: usize) -> (r: bool)
        ensures
            r == self@.dom().contains(vpn as int),
    {
        proof {
            lemma_map_of_dom(self.pages@);
        }
        let mut i: usize = 0;
        while i < self.pages.len()
            invariant
                i <= self.pages.len(),
                forall|j: int| 0 <= j < i ==> (#[trigger] self.pages@[j]).vpn != vpn,
            decreases self.pages.len() - i,
        {
            if self.pages[i].vpn == vpn {
                assert(self.pages@[i as int].vpn == vpn);
                return true;
            }
            i += 1;
        }
        proof {
            if self@.dom().contains(vpn as int) {
                let k = choose|k: int| 0 <= k < self.pages@.len() && self.pages@[k].vpn == vpn;
                assert(self.pages@[k].vpn == vpn);
            }
        }
        false
    }

    /// The permission page `vpn` was mapped with, if it is mapped.
    #[verifier::loop_isolation(false)]
    pub fn lookup(&self, vpn: usize) -> (r: Option<MapPermission>)
        requires
            self.wf(),
        ensures
            match r {
                Some(p) => self@.dom().contains(vpn as int) && self@[vpn as int] == p,
                None => !self@.dom().contains(vpn as int),
            },
    {
        proof {
            lemma_map_of_dom(self.pages@);
        }
        let mut i: usize = 0;
        while i < self.pages.len()
            invariant
                i <= self.pages.len(),
                forall|j: int| 0 <= j < i ==> (#[trigger] self.pages@[j]).vpn != vpn,
            decreases self.pages.len() - i,
        {
            if self.pages[i].vpn == vpn {
                proof {
                    lemma_map_of_at(self.pages@, i as int);
                }
                return Some(self.pages[i].perm);
            }
            i += 1;
        }
        proof {
            if self@.dom().contains(vpn as int) {
                let k = choose|k: int| 0 <= k < self.pages@.len() && self.pages@[k].vpn == vpn;
                assert(self.pages@[k].vpn == vpn);
            }
        }
        None
    }

    /// Whether any page in `[s, e)` is currently mapped.
    #[verifier::loop_isolation(false)]
    pub fn any_mapped_in(&self, s: usize, e: usize) -> (r: bool)
        ensures
            r == exists|v: int| s <= v < e && self@.dom().contains(v),
    {
        proof {
            lemma_map_of_dom(self.pages@);
        }
        let mut i: usize = 0;
        while i < self.pages.len()
            invariant
                i <= self.pages.len(),
                forall|j: int| 0 <= j < i ==> !(s <= (#[trigger] self.pages@[j]).vpn < e),
            decreases self.pages.len() - i,
        {
            let p = self.pages[i];
            if s <= p.vpn && p.vpn < e {
                proof {
                    assert(self.pages@[i as int].vpn == p.vpn);
                    assert(self@.dom().contains(p.vpn as int));
                }
                return true;
            }
            i += 1;
        }
        proof {
            if exists|v: int| s <= v < e && self@.dom().contains(v) {
                let v = choose|v: int| s <= v < e && self@.dom().contains(v);
                let k = choose|k: int| 0 <= k < self.pages@.len() && self.pages@[k].vpn == v;
                assert(self.pages@[k].vpn == v);
            }
        }
        false
    }

    /// Whether every page in `[s, e)` is currently mapped.
    #[verifier::loop_isolation(false)]
    pub fn all_mapped_in(&self, s: usize, e: usize) -> (r: bool)
        ensures
            r == forall|v: int| s <= v < e ==> self@.dom().contains(v),
    {
        let mut v: usize = s;
        while v < e
            invariant
                s <= v,
                v <= e || v == s,
                forall|u: int| s <= u < v ==> self@.dom().contains(u),
            decreases e - v,
        {
            if !self.is_mapped(v) {
                return false;
            }
            v += 1;
        }
        true
    }

    /// Maps every page in `[s, e)` with `perm`; the pages must all be free.
    #[verifier::loop_isolation(false)]
    pub fn insert_framed_range(&mut self, s: usize, e: usize, perm: MapPermission)
        requires
            old(self).wf(),
            s <= e,
            forall|v: int| s <= v < e ==> !old(self)@.dom().contains(v),
        ensures
            final(self).wf(),
            final(self)@ == mapped_with(old(self)@, s as int, e as int, perm),
    {
        proof {
            lemma_map_of_dom(self.pages@);
        }
        let ghost orig = self.pages@;
        let mut v: usize = s;
        proof {
            assert(map_of(self.pages@) =~= mapped_with(old(self)@, s as int, s as int, perm));
        }
        while v < e
            invariant
                s <= v <= e,
                self.pages@.len() == orig.len() + (v - s),
                forall|j: int| 0 <= j < orig.len() ==> self.pages@[j] == orig[j],
                forall|j: int|
                    orig.len() <= j < self.pages@.len() ==> (#[trigger] self.pages@[j]).vpn == s + (
                    j - orig.len()) && self.pages@[j].perm == perm,
                map_of(self.pages@) == mapped_with(old(self)@, s as int, v as int, perm),
            decreases e - v,
        {
            let ghost before = self.pages@;
            self.pages.push(MappedPage { vpn: v, perm });
            proof {
                assert(self.pages@.drop_last() =~= before);
                assert(map_of(self.pages@) == map_of(before).insert(v as int, perm));
                assert(map_of(self.pages@) =~= mapped_with(
                    old(self)@,
                    s as int,
                    (v + 1) as int,
                    perm,
                ));
            }
            v += 1;
        }
        proof {
            assert forall|a: int, b: int|
                0 <= a < b < self.pages@.len() implies self.pages@[a].vpn != self.pages@[b].vpn by {
                if b < orig.len() {
                    assert(orig[a].vpn != orig[b].vpn);
                } else if a < orig.len() {
                    let pv = self.pages@[b].vpn;
                    assert(s <= pv < e);
                    if self.pages@[a].vpn == pv {
                        assert(orig[a].vpn == pv);
                        assert(old(self)@.dom().contains(pv as int));
                        assert(false);
                    }
                } else {
                }
            }
        }
    }

    /// Unmaps every page in `[s, e)`; pages outside the range are untouched.
    #[verifier::loop_isolation(false)]
    pub fn remove_framed_range(&mut self, s: usize, e: usize)
        requires
            old(self).wf(),
        ensures
            final(self).wf(),
            final(self)@ == old(self)@.remove_keys(range_set(s as int, e as int)),
    {
        let ghost orig = self.pages@;
        let mut kept: Vec<MappedPage> = Vec::new();
        let mut i: usize = 0;
        proof {
            assert(orig.take(0) =~= Seq::<MappedPage>::empty());
            assert(map_of(kept@) =~= map_of(orig.take(0)).remove_keys(
                range_set(s as int, e as int),
            ));
        }
        while i < self.pages.len()
            invariant
                i <= self.pages.len(),
                map_of(kept@) == map_of(orig.take(i as int)).remove_keys(
                    range_set(s as int, e as int),
                ),
                forall|k: int|
                    0 <= k < kept@.len() ==> !(s <= (#[trigger] kept@[k]).vpn < e) && exists|j: int|
                        0 <= j < i && kept@[k] == orig[j],
                pages_unique(kept@),
            decreases self.pages.len() - i,
        {
            let p = self.pages[i];
            proof {
                assert(orig.take(i + 1).drop_last() =~= orig.take(i as int));
                assert(orig.take(i + 1).last() == orig[i as int]);
                assert(map_of(orig.take(i + 1)) == map_of(orig.take(i as int)).insert(
                    p.vpn as int,
                    p.perm,
                ));
            }
            if s <= p.vpn && p.vpn < e {
                proof {
                    assert(map_of(orig.take(i + 1)).remove_keys(range_set(s as int, e as int))
                        =~= map_of(orig.take(i as int)).remove_keys(range_set(s as int, e as int)));
                }
            } else {
                proof {
                    assert forall|k: int|
                        0 <= k < kept@.len() implies (#[trigger] kept@[k]).vpn != p.vpn by {
                        let j = choose|j: int| 0 <= j < i && kept@[k] == orig[j];
                        assert(orig[j].vpn != orig[i as int].vpn);
                    }
                }
                let ghost kept_before = kept@;
                kept.push(p);
                proof {
                    assert(kept@.drop_last() =~= kept_before);
                    assert(map_of(kept@) == map_of(kept_before).insert(p.vpn as int, p.perm));
                    assert(map_of(kept@) =~= map_of(orig.take(i + 1)).remove_keys(
                        range_set(s as int, e as int),
                    ));
                    assert forall|k: int|
                        0 <= k < kept@.len() implies !(s <= (#[trigger] kept@[k]).vpn < e)
                        && exists|j: int| 0 <= j < i + 1 && kept@[k] == orig[j] by {
                        if k < kept_before.len() {
                            let j = choose|j: int| 0 <= j < i && kept_before[k] == orig[j];
                            assert(kept@[k] == orig[j]);
                        } else {
                            assert(kept@[k] == orig[i as int]);
                        }
                    }
                }
            }
            i += 1;
        }
        proof {
            assert(orig.take(orig.len() as int) =~= orig);
        }
        self.pages = kept;
    }
}

impl View for MemorySet {
    type V = Map<int, MapPermission>;

    closed spec fn view(&self) -> Map<int, MapPermission> {
        map_of(self.pages@)
    }
}

} // verus!
