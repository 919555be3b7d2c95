//! Virtual-memory areas and per-task address spaces.
//!
//! An address space is an ordered collection of disjoint map areas. Each area
//! covers a contiguous range of virtual pages `[l, r)` with one permission
//! set; a framed area owns one backing frame of bytes per page. The
//! page-table-entry level (hardware walking, TLB) is outside this layer: the
//! frames owned here are the model of what those mappings reach.

use vstd::prelude::*;

verus! {

/// Bytes per virtual page.
pub const PAGE_SIZE: usize = 4096;

/// Exclusive upper bound on virtual page numbers this layer accepts.
pub const MAX_VPN: usize = 0x40000;

/// Exclusive upper bound on virtual addresses (`MAX_VPN` whole pages).
pub const MAX_VA: usize = 0x40000 * 4096;

/// Readable.
pub const PERM_R: u8 = 1;
/// Writable.
pub const PERM_W: u8 = 2;
/// Executable.
pub const PERM_X: u8 = 4;
/// Accessible from user mode.
pub const PERM_U: u8 = 8;

/// How an area's pages are backed.
#[derive(Clone, Copy, PartialEq, Eq, Structural, Debug)]
pub enum MapType {
    /// Virtual page n maps to physical page n; owns no frames.
    Identical,
    /// Each page is backed by an owned frame of bytes.
    Framed,
}

/// One contiguous virtual-page range `[l, r)` with a single permission set
/// and mapping strategy. A framed area owns exactly one frame per page.
pub struct MapArea {
    /// First virtual page number of the range.
    pub l: usize,
    /// One past the last virtual page number of the range.
    pub r: usize,
    /// Permission bits, a subset of `PERM_R | PERM_W | PERM_X | PERM_U`.
    pub perm: u8,
    /// Backing strategy.
    pub map_type: MapType,
    /// Owned backing frames, one per page, for framed areas.
    pub frames: Vec<Vec<u8>>,
}

impl MapArea {
    /// The area's structural invariant.
    pub open spec fn wf(self) -> bool {
        &&& self.l <= self.r <= MAX_VPN
        &&& self.perm < 16
        &&& self.map_type == MapType::Framed ==> {
            &&& self.frames@.len() == self.r - self.l
            &&& forall|j: int|
                0 <= j < self.frames@.len() ==> (#[trigger] self.frames@[j])@.len() == PAGE_SIZE
        }
        &&& self.map_type == MapType::Identical ==> self.frames@.len() == 0
    }

    /// Whether the virtual page `vpn` lies inside the area's range.
    pub open spec fn contains_vpn(self, vpn: int) -> bool {
        self.l <= vpn < self.r
    }
}

/// Whether the half-open page ranges `[l1, r1)` and `[l2, r2)` share a page.
pub open spec fn ranges_overlap(l1: int, r1: int, l2: int, r2: int) -> bool {
    &&& l1 < r1
    &&& l2 < r2
    &&& l1 < r2
    &&& l2 < r1
}

/// First index of an area containing the page `vpn`, if any.
pub open spec fn find_area(areas: Seq<MapArea>, vpn: int) -> Option<int>
    decreases areas.len(),
{
    if areas.len() == 0 {
        None
    } else if areas[0].contains_vpn(vpn) {
        Some(0)
    } else {
        match find_area(areas.skip(1), vpn) {
            Some(i) => Some(i + 1),
            None => None,
        }
    }
}

/// What `find_area` returns: the first containing index, or none at all.
pub proof fn lemma_find_area_props(areas: Seq<MapArea>, vpn: int)
    ensures
        match find_area(areas, vpn) {
            Some(i) => {
                &&& 0 <= i < areas.len()
                &&& areas[i].contains_vpn(vpn)
                &&& forall|j: int| 0 <= j < i ==> !(#[trigger] areas[j]).contains_vpn(vpn)
            },
            None => forall|j: int|
                0 <= j < areas.len() ==> !(#[trigger] areas[j]).contains_vpn(vpn),
        },
    decreases areas.len(),
{
    if areas.len() > 0 {
        lemma_find_area_props(areas.skip(1), vpn);
        assert forall|j: int| 1 <= j < areas.len() implies areas.skip(1)[j - 1] == areas[j] by {}
    }
}

/// Two area sequences whose entries agree on containing `vpn` agree on the
/// lookup of `vpn`.
pub proof fn lemma_find_area_agree(s1: Seq<MapArea>, s2: Seq<MapArea>, vpn: int)
    requires
        s1.len() == s2.len(),
        forall|i: int|
            0 <= i < s1.len() ==> ((#[trigger] s1[i]).contains_vpn(vpn) <==> (
            #[trigger] s2[i]).contains_vpn(vpn)),
    ensures
        find_area(s1, vpn) == find_area(s2, vpn),
    decreases s1.len(),
{
    if s1.len() > 0 {
        assert forall|i: int|
            0 <= i < s1.skip(1).len() implies ((#[trigger] s1.skip(1)[i]).contains_vpn(vpn) <==> (
        #[trigger] s2.skip(1)[i]).contains_vpn(vpn)) by {
            assert(s1.skip(1)[i] == s1[i + 1]);
            assert(s2.skip(1)[i] == s2[i + 1]);
        }
        lemma_find_area_agree(s1.skip(1), s2.skip(1), vpn);
    }
}

/// Appending an area changes a lookup only where nothing contained the page
/// before and the new area does.
pub proof fn lemma_find_area_push(s: Seq<MapArea>, x: MapArea, vpn: int)
    ensures
        find_area(s.push(x), vpn) == match find_area(s, vpn) {
            Some(i) => Some(i),
            None => if x.contains_vpn(vpn) {
                Some(s.len() as int)
            } else {
                None
            },
        },
    decreases s.len(),
{
    if s.len() == 0 {
        assert(s.push(x)[0] == x);
        assert(s.push(x).skip(1) =~= Seq::<MapArea>::empty());
        assert(find_area(Seq::<MapArea>::empty(), vpn) is None);
    } else {
        assert(s.push(x)[0] == s[0]);
        assert(s.push(x).skip(1) =~= s.skip(1).push(x));
        lemma_find_area_push(s.skip(1), x, vpn);
        if s[0].contains_vpn(vpn) {
            assert(find_area(s.push(x), vpn) == Some(0int));
            assert(find_area(s, vpn) == Some(0int));
        } else {
            assert(find_area(s.push(x), vpn) == match find_area(s.skip(1).push(x), vpn) {
                Some(i) => Some(i + 1),
                None => None,
            });
            assert(find_area(s, vpn) == match find_area(s.skip(1), vpn) {
                Some(i) => Some(i + 1),
                None => None,
            });
            assert(s.skip(1).len() == s.len() - 1);
        }
    }
}

/// Whether no two of the areas' page ranges intersect.
pub open spec fn areas_disjoint(s: Seq<MapArea>) -> bool {
    forall|i: int, j: int|
        0 <= i < s.len() && 0 <= j < s.len() && i != j ==> !ranges_overlap(
            (#[trigger] s[i]).l as int,
            s[i].r as int,
            (#[trigger] s[j]).l as int,
            s[j].r as int,
        )
}

/// Removing an area makes its pages unmapped and leaves every other lookup
/// at the shifted index, provided the areas were disjoint.
pub proof fn lemma_find_area_remove(s: Seq<MapArea>, i: int, vpn: int)
    requires
        0 <= i < s.len(),
        areas_disjoint(s),
    ensures
        s[i].contains_vpn(vpn) ==> find_area(s.remove(i), vpn) is None,
        !s[i].contains_vpn(vpn) ==> find_area(s.remove(i), vpn) == match find_area(s, vpn) {
            Some(k) => Some(if k < i {
                k
            } else {
                k - 1
            }),
            None => None,
        },
    decreases s.len(),
{
    lemma_find_area_props(s, vpn);
    lemma_find_area_props(s.remove(i), vpn);
    if s[i].contains_vpn(vpn) {
        // disjointness: no other area contains the page
        assert forall|j: int| 0 <= j < s.remove(i).len() implies !(#[trigger] s.remove(i)[j]).contains_vpn(
            vpn,
        ) by {
            let k = if j < i {
                j
            } else {
                j + 1
            };
            assert(s.remove(i)[j] == s[k]);
            if s[k].contains_vpn(vpn) {
                assert(ranges_overlap(s[i].l as int, s[i].r as int, s[k].l as int, s[k].r as int));
            }
        }
        if find_area(s.remove(i), vpn) is Some {
            let w = find_area(s.remove(i), vpn)->Some_0;
            assert(!s.remove(i)[w].contains_vpn(vpn));
        }
    } else {
        match find_area(s, vpn) {
            Some(k) => {
                let k2 = if k < i {
                    k
                } else {
                    k - 1
                };
                assert(s.remove(i)[k2] == s[k]);
                assert forall|j: int| 0 <= j < k2 implies !(#[trigger] s.remove(i)[j]).contains_vpn(
                    vpn,
                ) by {
                    let jj = if j < i {
                        j
                    } else {
                        j + 1
                    };
                    assert(s.remove(i)[j] == s[jj]);
                }
                match find_area(s.remove(i), vpn) {
                    Some(w) => {
                        if w < k2 {
                            assert(!s.remove(i)[w].contains_vpn(vpn));
                        }
                        if w > k2 {
                            assert(!s.remove(i)[k2].contains_vpn(vpn));
                        }
                    },
                    None => {
                        assert(!s.remove(i)[k2].contains_vpn(vpn));
                    },
                }
            },
            None => {
                assert forall|j: int| 0 <= j < s.remove(i).len() implies !(
                #[trigger] s.remove(i)[j]).contains_vpn(vpn) by {
                    let jj = if j < i {
                        j
                    } else {
                        j + 1
                    };
                    assert(s.remove(i)[j] == s[jj]);
                }
                if find_area(s.remove(i), vpn) is Some {
                    let w = find_area(s.remove(i), vpn)->Some_0;
                    assert(!s.remove(i)[w].contains_vpn(vpn));
                }
            },
        }
    }
}

/// First index of an area whose range is exactly `[l, r)`, if any.
pub open spec fn find_exact(s: Seq<MapArea>, l: int, r: int) -> Option<int>
    decreases s.len(),
{
    if s.len() == 0 {
        None
    } else if s[0].l == l && s[0].r == r {
        Some(0)
    } else {
        match find_exact(s.skip(1), l, r) {
            Some(i) => Some(i + 1),
            None => None,
        }
    }
}

/// What `find_exact` returns: the first exactly matching index, or none.
pub proof fn lemma_find_exact_props(s: Seq<MapArea>, l: int, r: int)
    ensures
        match find_exact(s, l, r) {
            Some(i) => {
                &&& 0 <= i < s.len()
                &&& s[i].l == l && s[i].r == r
                &&& forall|j: int|
                    0 <= j < i ==> !((#[trigger] s[j]).l == l && s[j].r == r)
            },
            None => forall|j: int|
                0 <= j < s.len() ==> !((#[trigger] s[j]).l == l && s[j].r == r),
        },
    decreases s.len(),
{
    if s.len() > 0 {
        lemma_find_exact_props(s.skip(1), l, r);
        assert forall|j: int| 1 <= j < s.len() implies s.skip(1)[j - 1] == s[j] by {}
    }
}

/// First index of an area whose range starts at page `l`, if any.
pub open spec fn find_by_start(s: Seq<MapArea>, l: int) -> Option<int>
    decreases s.len(),
{
    if s.len() == 0 {
        None
    } else if s[0].l == l {
        Some(0)
    } else {
        match find_by_start(s.skip(1), l) {
            Some(i) => Some(i + 1),
            None => None,
        }
    }
}

/// What `find_by_start` returns: the first index starting at `l`, or none.
pub proof fn lemma_find_by_start_props(s: Seq<MapArea>, l: int)
    ensures
        match find_by_start(s, l) {
            Some(i) => {
                &&& 0 <= i < s.len()
                &&& s[i].l == l
                &&& forall|j: int| 0 <= j < i ==> (#[trigger] s[j]).l != l
            },
            None => forall|j: int| 0 <= j < s.len() ==> (#[trigger] s[j]).l != l,
        },
    decreases s.len(),
{
    if s.len() > 0 {
        lemma_find_by_start_props(s.skip(1), l);
        assert forall|j: int| 1 <= j < s.len() implies s.skip(1)[j - 1] == s[j] by {}
    }
}

/// Every byte reachable in `m1` is still reachable in `m2`, unchanged.
pub open spec fn preserves_bytes(m1: MemorySet, m2: MemorySet) -> bool {
    forall|va: int|
        m1.mapped_framed(va) ==> #[trigger] m2.mapped_framed(va) && m2.byte_at(va) == m1.byte_at(
            va,
        )
}

/// Every byte reachable in `m1` outside the page range `[l, r)` is still
/// reachable in `m2`, unchanged.
pub open spec fn preserves_bytes_outside(m1: MemorySet, m2: MemorySet, l: int, r: int) -> bool {
    forall|va: int|
        m1.mapped_framed(va) && !(l * PAGE_SIZE <= va < r * PAGE_SIZE)
            ==> #[trigger] m2.mapped_framed(va) && m2.byte_at(va) == m1.byte_at(va)
}

/// Every byte of the page range `[l, r)` is reachable in `ms` and zero.
pub open spec fn range_zero_mapped(ms: MemorySet, l: int, r: int) -> bool {
    forall|va: int|
        l * PAGE_SIZE <= va < r * PAGE_SIZE ==> #[trigger] ms.mapped_framed(va) && ms.byte_at(va)
            == 0
}

/// No byte of the page range `[l, r)` is reachable in `ms`.
pub open spec fn range_unmapped(ms: MemorySet, l: int, r: int) -> bool {
    forall|va: int| l * PAGE_SIZE <= va < r * PAGE_SIZE ==> !#[trigger] ms.mapped_framed(va)
}

/// Every byte reachable in `m2` was reachable in `m1` already or lies in
/// the page range `[l, r)`: nothing else became reachable.
pub open spec fn mapped_within(m1: MemorySet, m2: MemorySet, l: int, r: int) -> bool {
    forall|va: int|
        #[trigger] m2.mapped_framed(va) ==> m1.mapped_framed(va) || (l * PAGE_SIZE <= va < r
            * PAGE_SIZE)
}

/// Every reachable byte of `ms` is zero.
pub open spec fn all_bytes_zero(ms: MemorySet) -> bool {
    forall|va: int| #[trigger] ms.mapped_framed(va) ==> ms.byte_at(va) == 0
}

/// An address space: disjoint map areas plus the identity of the page table
/// realizing them (its token).
pub struct MemorySet {
    /// The areas, in insertion order; pairwise disjoint page ranges.
    pub areas: Vec<MapArea>,
    /// Identity of the page table realizing the mappings.
    pub token: usize,
}

impl MemorySet {
    /// The address space's structural invariant: every area well formed and
    /// no two areas' page ranges intersecting.
    pub open spec fn wf(self) -> bool {
        &&& forall|i: int| 0 <= i < self.areas@.len() ==> (#[trigger] self.areas@[i]).wf()
        &&& forall|i: int, j: int|
            0 <= i < self.areas@.len() && 0 <= j < self.areas@.len() && i != j ==> !ranges_overlap(
                (#[trigger] self.areas@[i]).l as int,
                self.areas@[i].r as int,
                (#[trigger] self.areas@[j]).l as int,
                self.areas@[j].r as int,
            )
    }

    /// The page-table token of this address space.
    pub open spec fn spec_token(self) -> usize {
        self.token
    }

    /// Whether `va` lies on a page backed by an owned frame.
    pub open spec fn mapped_framed(self, va: int) -> bool {
        match find_area(self.areas@, va / PAGE_SIZE as int) {
            Some(i) => self.areas@[i].map_type == MapType::Framed,
            None => false,
        }
    }

    /// The byte stored at virtual address `va`.
    pub open spec fn byte_at(self, va: int) -> u8
        recommends
            self.mapped_framed(va),
    {
        let vpn = va / PAGE_SIZE as int;
        let i = find_area(self.areas@, vpn)->Some_0;
        self.areas@[i].frames@[vpn - self.areas@[i].l]@[va % PAGE_SIZE as int]
    }

    /// Whether the same pages are mapped the same way in both spaces
    /// (ranges, permissions and strategies equal; contents may differ).
    pub open spec fn same_structure(self, other: MemorySet) -> bool {
        &&& self.areas@.len() == other.areas@.len()
        &&& forall|i: int|
            0 <= i < self.areas@.len() ==> {
                &&& (#[trigger] self.areas@[i]).l == other.areas@[i].l
                &&& self.areas@[i].r == other.areas@[i].r
                &&& self.areas@[i].perm == other.areas@[i].perm
                &&& self.areas@[i].map_type == other.areas@[i].map_type
            }
        &&& self.token == other.token
    }

    /// An empty address space carrying the given page-table token.
    pub fn new_bare(token: usize) -> (r: MemorySet)
        ensures
            r.wf(),
            r.areas@.len() == 0,
            r.spec_token() == token,
    {
        MemorySet { areas: Vec::new(), token }
    }

    /// The page-table token of this address space.
    pub fn token(&self) -> (r: usize)
        ensures
            r == self.spec_token(),
    {
        self.token
    }

    /// First index of an area containing the page `vpn`, if any.
    pub fn find_area_index(&self, vpn: usize) -> (r: Option<usize>)
        ensures
            match r {
                Some(i) => find_area(self.areas@, vpn as int) == Some(i as int),
                None => find_area(self.areas@, vpn as int) is None,
            },
    {
        let n = self.areas.len();
        let mut i: usize = 0;
        while i < n
            invariant
                n == self.areas@.len(),
                0 <= i <= n,
                forall|j: int| 0 <= j < i ==> !(#[trigger] self.areas@[j]).contains_vpn(vpn as int),
            decreases n - i,
        {
            if self.areas[i].l <= vpn && vpn < self.areas[i].r {
                proof {
                    lemma_find_area_props(self.areas@, vpn as int);
                    assert(self.areas@[i as int].contains_vpn(vpn as int));
                }
                return Some(i);
            }
            i += 1;
        }
        proof {
            lemma_find_area_props(self.areas@, vpn as int);
        }
        None
    }

    /// First index of an area whose range is exactly `[l, r)`, if any.
    pub fn find_exact_index(&self, l: usize, r: usize) -> (res: Option<usize>)
        ensures
            match res {
                Some(i) => find_exact(self.areas@, l as int, r as int) == Some(i as int),
                None => find_exact(self.areas@, l as int, r as int) is None,
            },
    {
        let n = self.areas.len();
        let mut i: usize = 0;
        while i < n
            invariant
                n == self.areas@.len(),
                0 <= i <= n,
                forall|j: int|
                    0 <= j < i ==> !((#[trigger] self.areas@[j]).l == l && self.areas@[j].r == r),
            decreases n - i,
        {
            if self.areas[i].l == l && self.areas[i].r == r {
                proof {
                    lemma_find_exact_props(self.areas@, l as int, r as int);
                }
                return Some(i);
            }
            i += 1;
        }
        proof {
            lemma_find_exact_props(self.areas@, l as int, r as int);
        }
        None
    }

    /// Maps the page range `[l, r)` as a fresh framed area with permissions
    /// `perm`, eagerly backed by zeroed frames, appended after the existing
    /// areas. Pages mapped before keep their bytes.
    pub fn insert_framed_area(&mut self, l: usize, r: usize, perm: u8)
        requires
            old(self).wf(),
            l <= r <= MAX_VPN,
            perm < 16,
            forall|j: int|
                0 <= j < old(self).areas@.len() ==> !ranges_overlap(
                    l as int,
                    r as int,
                    (#[trigger] old(self).areas@[j]).l as int,
                    old(self).areas@[j].r as int,
                ),
        ensures
            final(self).wf(),
            final(self).token == old(self).token,
            final(self).areas@.len() == old(self).areas@.len() + 1,
            forall|j: int|
                0 <= j < old(self).areas@.len() ==> final(self).areas@[j] == old(self).areas@[j],
            ({
                let a = final(self).areas@.last();
                &&& a.l == l
                &&& a.r == r
                &&& a.perm == perm
                &&& a.map_type == MapType::Framed
            }),
            preserves_bytes(*old(self), *final(self)),
            range_zero_mapped(*final(self), l as int, r as int),
            mapped_within(*old(self), *final(self), l as int, r as int),
    {
        let pages = r - l;
        let mut frames: Vec<Vec<u8>> = Vec::new();
        while frames.len() < pages
            invariant
                frames@.len() <= pages,
                forall|j: int| 0 <= j < frames@.len() ==> (#[trigger] frames@[j])@.len() == PAGE_SIZE,
                forall|j: int, o: int|
                    0 <= j < frames@.len() && 0 <= o < PAGE_SIZE ==> (#[trigger] frames@[j]@[o])
                        == 0,
            decreases pages - frames@.len(),
        {
            let mut frame: Vec<u8> = Vec::new();
            while frame.len() < PAGE_SIZE
                invariant
                    frame@.len() <= PAGE_SIZE,
                    forall|o: int| 0 <= o < frame@.len() ==> frame@[o] == 0,
                decreases PAGE_SIZE - frame@.len(),
            {
                frame.push(0u8);
            }
            frames.push(frame);
        }
        let area = MapArea { l, r, perm, map_type: MapType::Framed, frames };
        proof {
            assert(area.wf());
        }
        let ghost old_areas = self.areas@;
        let ghost na = area;
        self.areas.push(area);
        proof {
            assert(self.areas@ == old_areas.push(na));
            assert forall|va: int| old(self).mapped_framed(va) implies #[trigger] self.mapped_framed(
                va,
            ) && self.byte_at(va) == old(self).byte_at(va) by {
                let vpn = va / PAGE_SIZE as int;
                lemma_find_area_props(old_areas, vpn);
                let k = find_area(old_areas, vpn)->Some_0;
                lemma_find_area_push(old_areas, na, vpn);
                assert(find_area(self.areas@, vpn) == Some(k));
                assert(self.areas@[k] == old_areas[k]);
            }
            assert forall|va: int|
                l * PAGE_SIZE <= va < r * PAGE_SIZE implies #[trigger] self.mapped_framed(va)
                && self.byte_at(va) == 0 by {
                let vpn = va / PAGE_SIZE as int;
                assert(l <= vpn < r) by {
                    assert(l * PAGE_SIZE <= va < r * PAGE_SIZE);
                }
                lemma_find_area_push(old_areas, na, vpn);
                lemma_find_area_props(old_areas, vpn);
                match find_area(old_areas, vpn) {
                    Some(k) => {
                        assert(old_areas[k].contains_vpn(vpn));
                        assert(ranges_overlap(
                            l as int,
                            r as int,
                            old_areas[k].l as int,
                            old_areas[k].r as int,
                        ));
                        assert(false);
                    },
                    None => {},
                }
                assert(find_area(self.areas@, vpn) == Some(old_areas.len() as int));
                assert(self.areas@[old_areas.len() as int] == na);
                assert(0 <= va % (PAGE_SIZE as int) < PAGE_SIZE as int);
                assert(na.frames@.len() == r - l);
                assert(0 <= vpn - l < na.frames@.len());
                assert(na.frames@[vpn - l]@[va % (PAGE_SIZE as int)] == 0);
                assert(self.mapped_framed(va));
                assert(self.byte_at(va) == 0);
            }
            assert(preserves_bytes(*old(self), *self));
            assert(range_zero_mapped(*self, l as int, r as int));
            assert forall|va: int| #[trigger] self.mapped_framed(va) implies old(self).mapped_framed(
                va,
            ) || (l * PAGE_SIZE <= va < r * PAGE_SIZE) by {
                let vpn = va / PAGE_SIZE as int;
                lemma_find_area_push(old_areas, na, vpn);
                lemma_find_area_props(self.areas@, vpn);
                lemma_find_area_props(old_areas, vpn);
                match find_area(old_areas, vpn) {
                    Some(k) => {
                        assert(self.areas@[k] == old_areas[k]);
                    },
                    None => {
                        assert(find_area(self.areas@, vpn) == Some(old_areas.len() as int));
                        assert(na.contains_vpn(vpn));
                        vstd::arithmetic::div_mod::lemma_fundamental_div_mod(va, PAGE_SIZE as int);
                        assert(l * PAGE_SIZE <= va < r * PAGE_SIZE);
                    },
                }
            }
            assert(mapped_within(*old(self), *self, l as int, r as int));
        }
    }

    /// Unmaps the area whose page range is exactly `[l, r)`, freeing its
    /// frames; returns 0 on success and -1, with no effect, when no area
    /// matches exactly.
    pub fn unmap_exact(&mut self, l: usize, r: usize) -> (res: isize)
        requires
            old(self).wf(),
        ensures
            final(self).wf(),
            final(self).token == old(self).token,
            res == 0 || res == -1,
            (res == 0) <==> find_exact(old(self).areas@, l as int, r as int) is Some,
            res == -1 ==> *final(self) == *old(self),
            res == 0 ==> {
                let i = find_exact(old(self).areas@, l as int, r as int)->Some_0;
                &&& final(self).areas@ == old(self).areas@.remove(i)
                &&& range_unmapped(*final(self), l as int, r as int)
                &&& preserves_bytes_outside(*old(self), *final(self), l as int, r as int)
            },
    {
        let idx = match self.find_exact_index(l, r) {
            Some(i) => i,
            None => {
                return -1;
            },
        };
        proof {
            lemma_find_exact_props(self.areas@, l as int, r as int);
        }
        let ghost old_areas = self.areas@;
        self.areas.remove(idx);
        proof {
            let i = idx as int;
            assert forall|va: int| l * PAGE_SIZE <= va < r * PAGE_SIZE implies !(
            #[trigger] self.mapped_framed(va)) by {
                let vpn = va / PAGE_SIZE as int;
                assert(l <= vpn < r) by {
                    assert(l * PAGE_SIZE <= va < r * PAGE_SIZE);
                }
                assert(old_areas[i].contains_vpn(vpn));
                lemma_find_area_remove(old_areas, i, vpn);
            }
            assert forall|va: int|
                old(self).mapped_framed(va) && !(l * PAGE_SIZE <= va < r * PAGE_SIZE)
                implies #[trigger] self.mapped_framed(va) && self.byte_at(va) == old(self).byte_at(
                va,
            ) by {
                let vpn = va / PAGE_SIZE as int;
                lemma_find_area_props(old_areas, vpn);
                let k = find_area(old_areas, vpn)->Some_0;
                assert(old_areas[k].contains_vpn(vpn));
                assert(vpn >= 0);
                assert(va >= 0);
                assert(!(l <= vpn < r)) by {
                    assert(!(l * PAGE_SIZE <= va < r * PAGE_SIZE));
                }
                assert(!old_areas[i].contains_vpn(vpn));
                lemma_find_area_remove(old_areas, i, vpn);
                if k < i {
                    assert(self.areas@[k] == old_areas[k]);
                } else {
                    assert(self.areas@[k - 1] == old_areas[k]);
                }
            }
            assert(range_unmapped(*self, l as int, r as int));
            assert(preserves_bytes_outside(*old(self), *self, l as int, r as int));
        }
        0
    }

    /// First index of an area whose range starts at page `l`, if any.
    pub fn find_by_start_index(&self, l: usize) -> (res: Option<usize>)
        ensures
            match res {
                Some(i) => find_by_start(self.areas@, l as int) == Some(i as int),
                None => find_by_start(self.areas@, l as int) is None,
            },
    {
        let n = self.areas.len();
        let mut i: usize = 0;
        while i < n
            invariant
                n == self.areas@.len(),
                0 <= i <= n,
                forall|j: int| 0 <= j < i ==> (#[trigger] self.areas@[j]).l != l,
            decreases n - i,
        {
            if self.areas[i].l == l {
                proof {
                    lemma_find_by_start_props(self.areas@, l as int);
                }
                return Some(i);
            }
            i += 1;
        }
        proof {
            lemma_find_by_start_props(self.areas@, l as int);
        }
        None
    }
}

/// Whether the heap area starting at page `lv` can grow to end at page
/// `new_r`: it must exist, own frames, not shrink, and not run into another
/// area.
pub open spec fn can_append(s: Seq<MapArea>, lv: int, new_r: int) -> bool {
    match find_by_start(s, lv) {
        Some(i) => {
            &&& s[i].map_type == MapType::Framed
            &&& s[i].r <= new_r
            &&& forall|j: int|
                0 <= j < s.len() && j != i ==> !ranges_overlap(
                    lv,
                    new_r,
                    (#[trigger] s[j]).l as int,
                    s[j].r as int,
                )
        },
        None => false,
    }
}

/// Whether the heap area starting at page `lv` can shrink to end at page
/// `new_r`: it must exist, own frames, and not grow or cross its start.
pub open spec fn can_shrink(s: Seq<MapArea>, lv: int, new_r: int) -> bool {
    match find_by_start(s, lv) {
        Some(i) => s[i].map_type == MapType::Framed && lv <= new_r <= s[i].r,
        None => false,
    }
}

impl MemorySet {
    /// Grows the area that starts at `start` (page aligned) so that it
    /// covers every byte up to `new_end`, backing the new pages with zeroed
    /// frames. Fails, with no effect, when no area starts there, when the
    /// request would shrink it, or when the grown range would run into
    /// another area.
    #[verifier::loop_isolation(false)]
    pub fn append_to(&mut self, start: usize, new_end: usize) -> (res: bool)
        requires
            old(self).wf(),
            start % PAGE_SIZE == 0,
            start <= new_end <= MAX_VA,
        ensures
            final(self).wf(),
            final(self).token == old(self).token,
            res == can_append(
                old(self).areas@,
                start as int / PAGE_SIZE as int,
                ((new_end + PAGE_SIZE - 1) as int) / PAGE_SIZE as int,
            ),
            !res ==> *final(self) == *old(self),
            res ==> ({
                let lv = start as int / PAGE_SIZE as int;
                let new_r = ((new_end + PAGE_SIZE - 1) as int) / PAGE_SIZE as int;
                let i = find_by_start(old(self).areas@, lv)->Some_0;
                &&& final(self).areas@.len() == old(self).areas@.len()
                &&& forall|j: int|
                    0 <= j < old(self).areas@.len() && j != i ==> final(self).areas@[j] == old(
                        self,
                    ).areas@[j]
                &&& final(self).areas@[i].l == old(self).areas@[i].l
                &&& final(self).areas@[i].r == new_r
                &&& final(self).areas@[i].perm == old(self).areas@[i].perm
                &&& final(self).areas@[i].map_type == MapType::Framed
                &&& preserves_bytes(*old(self), *final(self))
                &&& range_zero_mapped(*final(self), old(self).areas@[i].r as int, new_r)
            }),
    {
        let lv = start / PAGE_SIZE;
        let new_r = (new_end + (PAGE_SIZE - 1)) / PAGE_SIZE;
        let ghost old_areas = self.areas@;
        let idx = match self.find_by_start_index(lv) {
            Some(i) => i,
            None => {
                return false;
            },
        };
        proof {
            lemma_find_by_start_props(old_areas, lv as int);
        }
        if !matches!(self.areas[idx].map_type, MapType::Framed) {
            return false;
        }
        if new_r < self.areas[idx].r {
            return false;
        }
        let n = self.areas.len();
        let mut j: usize = 0;
        while j < n
            invariant
                n == self.areas@.len(),
                0 <= j <= n,
                *self == *old(self),
                self.areas@ == old_areas,
                idx < n,
                forall|k: int|
                    0 <= k < j && k != idx ==> !ranges_overlap(
                        lv as int,
                        new_r as int,
                        (#[trigger] self.areas@[k]).l as int,
                        self.areas@[k].r as int,
                    ),
            decreases n - j,
        {
            if j != idx {
                let al = self.areas[j].l;
                let ar = self.areas[j].r;
                if lv < new_r && al < ar && lv < ar && al < new_r {
                    return false;
                }
            }
            j += 1;
        }
        let ghost old_r = self.areas@[idx as int].r;
        let mut a = self.areas.remove(idx);
        let pages = new_r - a.l;
        while a.frames.len() < pages
            invariant
                a.l == old_areas[idx as int].l,
                a.r == old_areas[idx as int].r,
                a.perm == old_areas[idx as int].perm,
                a.map_type == old_areas[idx as int].map_type,
                pages == new_r - a.l,
                old_areas[idx as int].frames@.len() <= a.frames@.len() <= pages,
                forall|k: int|
                    0 <= k < old_areas[idx as int].frames@.len() ==> a.frames@[k] == old_areas[idx as int].frames@[k],
                forall|k: int|
                    old_areas[idx as int].frames@.len() <= k < a.frames@.len() ==> (
                    #[trigger] a.frames@[k])@.len() == PAGE_SIZE,
                forall|k: int, o: int|
                    old_areas[idx as int].frames@.len() <= k < a.frames@.len() && 0 <= o
                        < PAGE_SIZE ==> (#[trigger] a.frames@[k]@[o]) == 0,
            decreases pages - a.frames@.len(),
        {
            let mut frame: Vec<u8> = Vec::new();
            while frame.len() < PAGE_SIZE
                invariant
                    frame@.len() <= PAGE_SIZE,
                    forall|o: int| 0 <= o < frame@.len() ==> frame@[o] == 0,
                decreases PAGE_SIZE - frame@.len(),
            {
                frame.push(0u8);
            }
            a.frames.push(frame);
        }
        a.r = new_r;
        self.areas.insert(idx, a);
        proof {
            let i = idx as int;
            assert(self.areas@ =~= old_areas.update(i, self.areas@[i]));
            let na = self.areas@[i];
            assert(na.wf());
            assert(self.wf()) by {
                assert forall|p: int, q: int|
                    0 <= p < self.areas@.len() && 0 <= q < self.areas@.len() && p != q
                    implies !ranges_overlap(
                    (#[trigger] self.areas@[p]).l as int,
                    self.areas@[p].r as int,
                    (#[trigger] self.areas@[q]).l as int,
                    self.areas@[q].r as int,
                ) by {
                    if p == i || q == i {
                        let other = if p == i {
                            q
                        } else {
                            p
                        };
                        assert(!ranges_overlap(
                            lv as int,
                            new_r as int,
                            self.areas@[other].l as int,
                            self.areas@[other].r as int,
                        ));
                    }
                }
            }
            assert forall|va: int| old(self).mapped_framed(va) implies #[trigger] self.mapped_framed(
                va,
            ) && self.byte_at(va) == old(self).byte_at(va) by {
                let vpn = va / PAGE_SIZE as int;
                lemma_find_area_props(old_areas, vpn);
                let k = find_area(old_areas, vpn)->Some_0;
                assert(old_areas[k].contains_vpn(vpn));
                assert forall|w: int|
                    0 <= w < old_areas.len() implies ((#[trigger] old_areas[w]).contains_vpn(vpn)
                    <==> (#[trigger] self.areas@[w]).contains_vpn(vpn)) by {
                    if w == i {
                        if k != i {
                            assert(!ranges_overlap(
                                lv as int,
                                new_r as int,
                                old_areas[k].l as int,
                                old_areas[k].r as int,
                            ));
                        }
                    }
                }
                lemma_find_area_agree(old_areas, self.areas@, vpn);
            }
            assert forall|va: int|
                old_r * PAGE_SIZE <= va < new_r * PAGE_SIZE implies #[trigger] self.mapped_framed(
                va,
            ) && self.byte_at(va) == 0 by {
                let vpn = va / PAGE_SIZE as int;
                assert(old_r <= vpn < new_r) by {
                    assert(old_r * PAGE_SIZE <= va < new_r * PAGE_SIZE);
                }
                lemma_find_area_props(self.areas@, vpn);
                assert(self.areas@[i].contains_vpn(vpn));
                let w = find_area(self.areas@, vpn)->Some_0;
                assert(w <= i);
                if w < i {
                    assert(self.areas@[w] == old_areas[w]);
                    assert(!ranges_overlap(
                        lv as int,
                        new_r as int,
                        old_areas[w].l as int,
                        old_areas[w].r as int,
                    ));
                    assert(false);
                }
                assert(0 <= va % (PAGE_SIZE as int) < PAGE_SIZE as int);
                assert(na.frames@[vpn - na.l]@[va % (PAGE_SIZE as int)] == 0);
            }
            assert(preserves_bytes(*old(self), *self));
            assert(range_zero_mapped(*self, old_r as int, new_r as int));
        }
        true
    }

    /// Shrinks the area that starts at `start` (page aligned) so that it
    /// covers bytes only up to `new_end`, freeing the frames beyond. Fails,
    /// with no effect, when no area starts there or when the request would
    /// grow it.
    #[verifier::loop_isolation(false)]
    #[verifier::rlimit(30)]
    pub fn shrink_to(&mut self, start: usize, new_end: usize) -> (res: bool)
        requires
            old(self).wf(),
            start % PAGE_SIZE == 0,
            start <= new_end <= MAX_VA,
        ensures
            final(self).wf(),
            final(self).token == old(self).token,
            res == can_shrink(
                old(self).areas@,
                start as int / PAGE_SIZE as int,
                ((new_end + PAGE_SIZE - 1) as int) / PAGE_SIZE as int,
            ),
            !res ==> *final(self) == *old(self),
            res ==> ({
                let lv = start as int / PAGE_SIZE as int;
                let new_r = ((new_end + PAGE_SIZE - 1) as int) / PAGE_SIZE as int;
                let i = find_by_start(old(self).areas@, lv)->Some_0;
                &&& final(self).areas@.len() == old(self).areas@.len()
                &&& forall|j: int|
                    0 <= j < old(self).areas@.len() && j != i ==> final(self).areas@[j] == old(
                        self,
                    ).areas@[j]
                &&& final(self).areas@[i].l == old(self).areas@[i].l
                &&& final(self).areas@[i].r == new_r
                &&& final(self).areas@[i].perm == old(self).areas@[i].perm
                &&& final(self).areas@[i].map_type == MapType::Framed
                &&& preserves_bytes_outside(
                    *old(self),
                    *final(self),
                    new_r,
                    old(self).areas@[i].r as int,
                )
                &&& range_unmapped(*final(self), new_r, old(self).areas@[i].r as int)
            }),
    {
        let lv = start / PAGE_SIZE;
        let new_r = (new_end + (PAGE_SIZE - 1)) / PAGE_SIZE;
        let ghost old_areas = self.areas@;
        let idx = match self.find_by_start_index(lv) {
            Some(i) => i,
            None => {
                return false;
            },
        };
        proof {
            lemma_find_by_start_props(old_areas, lv as int);
        }
        if !matches!(self.areas[idx].map_type, MapType::Framed) {
            return false;
        }
        if new_r > self.areas[idx].r {
            return false;
        }
        let ghost old_r = self.areas@[idx as int].r;
        let mut a = self.areas.remove(idx);
        let pages = new_r - a.l;
        while a.frames.len() > pages
            invariant
                a.l == old_areas[idx as int].l,
                a.r == old_areas[idx as int].r,
                a.perm == old_areas[idx as int].perm,
                a.map_type == old_areas[idx as int].map_type,
                pages <= a.frames@.len() <= old_areas[idx as int].frames@.len(),
                forall|k: int|
                    0 <= k < a.frames@.len() ==> a.frames@[k] == old_areas[idx as int].frames@[k],
            decreases a.frames@.len(),
        {
            a.frames.pop();
        }
        a.r = new_r;
        self.areas.insert(idx, a);
        proof {
            let i = idx as int;
            assert(self.areas@ =~= old_areas.update(i, self.areas@[i]));
            let na = self.areas@[i];
            assert(na.wf());
            assert(self.wf()) by {
                assert forall|p: int, q: int|
                    0 <= p < self.areas@.len() && 0 <= q < self.areas@.len() && p != q
                    implies !ranges_overlap(
                    (#[trigger] self.areas@[p]).l as int,
                    self.areas@[p].r as int,
                    (#[trigger] self.areas@[q]).l as int,
                    self.areas@[q].r as int,
                ) by {
                    if p == i || q == i {
                        let other = if p == i {
                            q
                        } else {
                            p
                        };
                        assert(!ranges_overlap(
                            old_areas[i].l as int,
                            old_areas[i].r as int,
                            old_areas[other].l as int,
                            old_areas[other].r as int,
                        ));
                    }
                }
            }
            assert forall|va: int|
                old(self).mapped_framed(va) && !(new_r * PAGE_SIZE <= va < old_r * PAGE_SIZE)
                implies #[trigger] self.mapped_framed(va) && self.byte_at(va) == old(self).byte_at(
                va,
            ) by {
                let vpn = va / PAGE_SIZE as int;
                lemma_find_area_props(old_areas, vpn);
                let k = find_area(old_areas, vpn)->Some_0;
                assert(old_areas[k].contains_vpn(vpn));
                assert(vpn >= 0);
                assert(va >= 0);
                assert(!(new_r <= vpn < old_r)) by {
                    assert(!(new_r * PAGE_SIZE <= va < old_r * PAGE_SIZE));
                }
                assert forall|w: int|
                    0 <= w < old_areas.len() implies ((#[trigger] old_areas[w]).contains_vpn(vpn)
                    <==> (#[trigger] self.areas@[w]).contains_vpn(vpn)) by {}
                lemma_find_area_agree(old_areas, self.areas@, vpn);
                assert(find_area(self.areas@, vpn) == Some(k));
                if k == i {
                    assert(vpn < new_r);
                    assert(self.areas@[i].l == old_areas[i].l);
                    assert(0 <= vpn - old_areas[i].l < self.areas@[i].frames@.len());
                    assert(self.areas@[i].frames@[vpn - old_areas[i].l] == old_areas[i].frames@[vpn
                        - old_areas[i].l]);
                } else {
                    assert(self.areas@[k] == old_areas[k]);
                }
                assert(self.mapped_framed(va));
                assert(self.byte_at(va) == old(self).byte_at(va));
            }
            assert forall|va: int|
                new_r * PAGE_SIZE <= va < old_r * PAGE_SIZE implies !(
            #[trigger] self.mapped_framed(va)) by {
                let vpn = va / PAGE_SIZE as int;
                assert(new_r <= vpn < old_r) by {
                    assert(new_r * PAGE_SIZE <= va < old_r * PAGE_SIZE);
                }
                assert(old_areas[i].contains_vpn(vpn));
                lemma_find_area_props(self.areas@, vpn);
                match find_area(self.areas@, vpn) {
                    Some(w) => {
                        assert(self.areas@[w].contains_vpn(vpn));
                        assert(w != i);
                        assert(self.areas@[w] == old_areas[w]);
                        assert(ranges_overlap(
                            old_areas[i].l as int,
                            old_areas[i].r as int,
                            old_areas[w].l as int,
                            old_areas[w].r as int,
                        ));
                        assert(false);
                    },
                    None => {},
                }
            }
            assert(preserves_bytes_outside(*old(self), *self, new_r as int, old_r as int));
            assert(range_unmapped(*self, new_r as int, old_r as int));
        }
        true
    }
}

/// The two spaces reach the same addresses and hold the same bytes there.
pub open spec fn same_content(m1: MemorySet, m2: MemorySet) -> bool {
    forall|va: int|
        ((#[trigger] m1.mapped_framed(va)) == m2.mapped_framed(va)) && (m1.mapped_framed(va)
            ==> m1.byte_at(va) == m2.byte_at(va))
}

/// Every byte of `[va, va + len)` lies on a frame-backed page of `ms`.
pub open spec fn range_mapped(ms: MemorySet, va: int, len: int) -> bool {
    forall|k: int| 0 <= k < len ==> #[trigger] ms.mapped_framed(va + k)
}

/// `m2` is `m1` with `src` written at `va`: every reachable byte inside the
/// written range holds its `src` byte, every other reachable byte is
/// unchanged.
pub open spec fn wrote_bytes(m1: MemorySet, m2: MemorySet, va: int, src: Seq<u8>) -> bool {
    forall|a: int|
        m1.mapped_framed(a) ==> #[trigger] m2.mapped_framed(a) && m2.byte_at(a) == if va <= a < va
            + src.len() {
            src[a - va]
        } else {
            m1.byte_at(a)
        }
}

impl MemorySet {
    /// The byte at virtual address `va`, or none when the address lies on no
    /// frame-backed page.
    pub fn read_byte(&self, va: usize) -> (res: Option<u8>)
        requires
            self.wf(),
        ensures
            res == if self.mapped_framed(va as int) {
                Some(self.byte_at(va as int))
            } else {
                None::<u8>
            },
    {
        let vpn = va / PAGE_SIZE;
        let off = va % PAGE_SIZE;
        match self.find_area_index(vpn) {
            Some(i) => {
                proof {
                    lemma_find_area_props(self.areas@, vpn as int);
                }
                if matches!(self.areas[i].map_type, MapType::Framed) {
                    let fidx = vpn - self.areas[i].l;
                    Some(self.areas[i].frames[fidx][off])
                } else {
                    None
                }
            },
            None => None,
        }
    }

    /// Writes `src` at virtual address `va`, splitting the write across the
    /// frames of every page it touches. Succeeds only when the whole byte
    /// range lies on frame-backed pages; fails with no effect otherwise.
    #[verifier::loop_isolation(false)]
    pub fn write_bytes(&mut self, va: usize, src: &Vec<u8>) -> (res: isize)
        requires
            old(self).wf(),
            va + src@.len() <= usize::MAX,
        ensures
            final(self).wf(),
            final(self).token == old(self).token,
            res == 0 || res == -1,
            (res == 0) <==> range_mapped(*old(self), va as int, src@.len() as int),
            res == -1 ==> *final(self) == *old(self),
            res == 0 ==> final(self).same_structure(*old(self)),
            res == 0 ==> wrote_bytes(*old(self), *final(self), va as int, src@),
    {
        let n = src.len();
        // first pass: fail, before any effect, unless every page is backed
        let mut k: usize = 0;
        while k < n
            invariant
                *self == *old(self),
                0 <= k <= n,
                forall|j: int| 0 <= j < k ==> #[trigger] old(self).mapped_framed(va + j),
            decreases n - k,
        {
            let vpn = (va + k) / PAGE_SIZE;
            let ok = match self.find_area_index(vpn) {
                Some(i) => {
                    proof {
                        lemma_find_area_props(self.areas@, vpn as int);
                    }
                    matches!(self.areas[i].map_type, MapType::Framed)
                },
                None => false,
            };
            if !ok {
                proof {
                    assert(!old(self).mapped_framed(va + k));
                }
                return -1;
            }
            k += 1;
        }
        // second pass: place each byte in its page's frame
        let mut k: usize = 0;
        while k < n
            invariant
                0 <= k <= n,
                self.wf(),
                self.same_structure(*old(self)),
                forall|a: int| (#[trigger] self.mapped_framed(a)) == old(self).mapped_framed(a),
                forall|a: int|
                    old(self).mapped_framed(a) ==> #[trigger] self.byte_at(a) == if va <= a < va
                        + k {
                        src@[a - va]
                    } else {
                        old(self).byte_at(a)
                    },
            decreases n - k,
        {
            let addr = va + k;
            let vpn = addr / PAGE_SIZE;
            let off = addr % PAGE_SIZE;
            proof {
                assert(old(self).mapped_framed(addr as int));
                assert(self.mapped_framed(addr as int));
            }
            let ghost prev = *self;
            let i = match self.find_area_index(vpn) {
                Some(i) => i,
                None => {
                    proof {
                        assert(false);
                    }
                    0
                },
            };
            proof {
                lemma_find_area_props(self.areas@, vpn as int);
            }
            let fidx = vpn - self.areas[i].l;
            let fr: &mut Vec<u8> = &mut self.areas[i].frames[fidx];
            fr.set(off, src[k]);
            proof {
                let ia = i as int;
                assert(self.areas@.len() == prev.areas@.len());
                assert forall|w: int| 0 <= w < self.areas@.len() && w != ia implies self.areas@[w]
                    == prev.areas@[w] by {}
                assert(self.areas@[ia].l == prev.areas@[ia].l);
                assert(self.areas@[ia].r == prev.areas@[ia].r);
                assert(self.areas@[ia].frames@ == prev.areas@[ia].frames@.update(
                    fidx as int,
                    self.areas@[ia].frames@[fidx as int],
                ));
                assert(self.areas@[ia].perm == prev.areas@[ia].perm);
                assert(self.areas@[ia].map_type == prev.areas@[ia].map_type);
                assert(self.areas@[ia].frames@.len() == prev.areas@[ia].frames@.len());
                assert(self.wf());
                assert forall|a: int| (#[trigger] self.mapped_framed(a)) == prev.mapped_framed(
                    a,
                ) by {
                    let av = a / PAGE_SIZE as int;
                    assert forall|w: int|
                        0 <= w < prev.areas@.len() implies ((#[trigger] prev.areas@[w]).contains_vpn(
                        av,
                    ) <==> (#[trigger] self.areas@[w]).contains_vpn(av)) by {}
                    lemma_find_area_agree(prev.areas@, self.areas@, av);
                    lemma_find_area_props(prev.areas@, av);
                }
                assert forall|a: int|
                    old(self).mapped_framed(a) implies #[trigger] self.byte_at(a) == if va <= a
                    < va + (k + 1) {
                    src@[a - va]
                } else {
                    old(self).byte_at(a)
                } by {
                    let av = a / PAGE_SIZE as int;
                    assert forall|w: int|
                        0 <= w < prev.areas@.len() implies ((#[trigger] prev.areas@[w]).contains_vpn(
                        av,
                    ) <==> (#[trigger] self.areas@[w]).contains_vpn(av)) by {}
                    lemma_find_area_agree(prev.areas@, self.areas@, av);
                    lemma_find_area_props(prev.areas@, av);
                    assert(old(self).mapped_framed(a));
                    assert(prev.mapped_framed(a));
                    let w = find_area(prev.areas@, av)->Some_0;
                    assert(find_area(self.areas@, av) == Some(w));
                    assert(prev.areas@[w].contains_vpn(av));
                    if a == addr as int {
                        vstd::arithmetic::div_mod::lemma_fundamental_div_mod(a, PAGE_SIZE as int);
                        assert(w == ia);
                        assert(self.byte_at(a) == src@[k as int]);
                    } else if w != ia {
                        assert(self.areas@[w] == prev.areas@[w]);
                        assert(self.byte_at(a) == prev.byte_at(a));
                    } else {
                        // same area: a different byte of it stays untouched
                        vstd::arithmetic::div_mod::lemma_fundamental_div_mod(a, PAGE_SIZE as int);
                        vstd::arithmetic::div_mod::lemma_fundamental_div_mod(
                            addr as int,
                            PAGE_SIZE as int,
                        );
                        if av == vpn as int {
                            assert(a % PAGE_SIZE as int != off as int);
                            assert(self.byte_at(a) == prev.byte_at(a));
                        } else {
                            assert(av - prev.areas@[ia].l != fidx as int);
                            assert(self.byte_at(a) == prev.byte_at(a));
                        }
                    }
                }
            }
            k += 1;
        }
        0
    }

    /// An independent copy of this address space under a new page-table
    /// token: same areas, same permissions, same bytes, separately owned
    /// frames.
    #[verifier::loop_isolation(false)]
    pub fn clone_space(&self, token: usize) -> (res: MemorySet)
        requires
            self.wf(),
        ensures
            res.wf(),
            res.token == token,
            res.areas@.len() == self.areas@.len(),
            forall|i: int|
                0 <= i < self.areas@.len() ==> {
                    &&& (#[trigger] res.areas@[i]).l == self.areas@[i].l
                    &&& res.areas@[i].r == self.areas@[i].r
                    &&& res.areas@[i].perm == self.areas@[i].perm
                    &&& res.areas@[i].map_type == self.areas@[i].map_type
                    &&& res.areas@[i].frames@.len() == self.areas@[i].frames@.len()
                    &&& forall|j: int|
                        0 <= j < self.areas@[i].frames@.len() ==> (
                        #[trigger] res.areas@[i].frames@[j])@ == self.areas@[i].frames@[j]@
                },
            same_content(*self, res),
    {
        let mut out = MemorySet { areas: Vec::new(), token };
        let n = self.areas.len();
        let mut i: usize = 0;
        while i < n
            invariant
                0 <= i <= n,
                out.token == token,
                out.areas@.len() == i,
                forall|w: int|
                    0 <= w < i ==> {
                        &&& (#[trigger] out.areas@[w]).l == self.areas@[w].l
                        &&& out.areas@[w].r == self.areas@[w].r
                        &&& out.areas@[w].perm == self.areas@[w].perm
                        &&& out.areas@[w].map_type == self.areas@[w].map_type
                        &&& out.areas@[w].frames@.len() == self.areas@[w].frames@.len()
                        &&& forall|j: int|
                            0 <= j < self.areas@[w].frames@.len() ==> (
                            #[trigger] out.areas@[w].frames@[j])@ == self.areas@[w].frames@[j]@
                    },
            decreases n - i,
        {
            let src_area = &self.areas[i];
            let mut frames: Vec<Vec<u8>> = Vec::new();
            let fn_ = src_area.frames.len();
            let mut j: usize = 0;
            while j < fn_
                invariant
                    0 <= j <= fn_,
                    fn_ == src_area.frames@.len(),
                    frames@.len() == j,
                    forall|w: int|
                        0 <= w < j ==> (#[trigger] frames@[w])@ == src_area.frames@[w]@,
                decreases fn_ - j,
            {
                let sf = &src_area.frames[j];
                let mut frame: Vec<u8> = Vec::new();
                let bn = sf.len();
                let mut b: usize = 0;
                while b < bn
                    invariant
                        0 <= b <= bn,
                        bn == sf@.len(),
                        frame@.len() == b,
                        forall|w: int| 0 <= w < b ==> frame@[w] == sf@[w],
                    decreases bn - b,
                {
                    frame.push(sf[b]);
                    b += 1;
                }
                proof {
                    assert(frame@ =~= sf@);
                }
                frames.push(frame);
                j += 1;
            }
            out.areas.push(
                MapArea {
                    l: src_area.l,
                    r: src_area.r,
                    perm: src_area.perm,
                    map_type: src_area.map_type,
                    frames,
                },
            );
            i += 1;
        }
        proof {
            assert forall|w: int| 0 <= w < out.areas@.len() implies (#[trigger] out.areas@[w]).wf() by {
                assert(self.areas@[w].wf());
            }
            assert forall|va: int|
                ((#[trigger] self.mapped_framed(va)) == out.mapped_framed(va)) && (
            self.mapped_framed(va) ==> self.byte_at(va) == out.byte_at(va)) by {
                let av = va / PAGE_SIZE as int;
                assert forall|w: int|
                    0 <= w < self.areas@.len() implies ((#[trigger] self.areas@[w]).contains_vpn(av)
                    <==> (#[trigger] out.areas@[w]).contains_vpn(av)) by {}
                lemma_find_area_agree(self.areas@, out.areas@, av);
                lemma_find_area_props(self.areas@, av);
                lemma_find_area_props(out.areas@, av);
                if self.mapped_framed(va) {
                    let w = find_area(self.areas@, av)->Some_0;
                    assert(self.areas@[w].contains_vpn(av));
                    assert(self.areas@[w].wf());
                    assert(self.areas@[w].map_type == MapType::Framed);
                    assert(0 <= av - self.areas@[w].l < self.areas@[w].frames@.len());
                    assert(out.areas@[w].frames@[av - self.areas@[w].l]@ == self.areas@[w].frames@[
                        av - self.areas@[w].l
                    ]@);
                    assert(out.byte_at(va) == self.byte_at(va));
                }
            }
            assert(same_content(*self, out));
        }
        out
    }
}

} // verus!
