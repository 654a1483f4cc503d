//! The active hierarchy and the operations that map and unmap pages in it.
use vstd::prelude::*;
use crate::addr::{
    PAddr, VAddr, PhysicalPage, VirtualPage, page_number, pml4_index, pdpt_index, pd_index,
    pt_index, PAGE_SIZE,
};
use crate::entry::{
    Entry, is_present, is_huge, is_unused, frame_of, table_entry, lemma_frame_of_bound,
    lemma_unused_not_present, ADDRESS_MASK, WRITABLE,
};
use crate::frame_alloc::FrameStack;
use crate::memory::{PhysMem, ENTRY_COUNT, MAX_FRAMES};
use crate::walk::{next_table, pdpt_of, pd_of, pt_of, lookup, lemma_lookup_bound, in_hierarchy};

verus! {

/// Slot of the top-level table that points back at the top-level table.
pub const RECURSIVE_INDEX: usize = 511;

/// Entry `i` of `t` links to a next-level table that lies in memory.
pub open spec fn link_ok(m: PhysMem, t: u64, i: int) -> bool {
    &&& is_present(m.read(t, i))
    &&& !is_huge(m.read(t, i))
    &&& frame_of(m.read(t, i)) < m.frame_count()
}

/// No huge page on the path of page `n`: `map` and `unmap` handle 4 KiB pages only.
pub open spec fn no_huge_on_path(m: PhysMem, root: u64, n: u64) -> bool {
    &&& !is_huge(m.read(root, pml4_index(n)))
    &&& pdpt_of(m, root, n) matches Some(t3) ==> !is_huge(m.read(t3, pdpt_index(n)))
    &&& pd_of(m, root, n) matches Some(t2) ==> !is_huge(m.read(t2, pd_index(n)))
}

/// What `map` asks of page `n`'s path: no huge page, and an unused PT entry
/// where the PT exists.
pub open spec fn map_allowed(m: PhysMem, root: u64, n: u64) -> bool {
    &&& no_huge_on_path(m, root, n)
    &&& pt_of(m, root, n) matches Some(t1) ==> is_unused(m.read(t1, pt_index(n)))
}

/// Every table already on the path of page `n` lies in memory.
pub open spec fn path_in_memory(m: PhysMem, root: u64, n: u64) -> bool {
    &&& pdpt_of(m, root, n) matches Some(t) ==> t < m.frame_count()
    &&& pd_of(m, root, n) matches Some(t) ==> t < m.frame_count()
    &&& pt_of(m, root, n) matches Some(t) ==> t < m.frame_count()
}

/// Entry `j` of frame `g` is one the walk for page `n` reads.
pub open spec fn path_cell(m: PhysMem, root: u64, n: u64, g: u64, j: int) -> bool {
    ||| g == root && j == pml4_index(n)
    ||| pdpt_of(m, root, n) == Some(g) && j == pdpt_index(n)
    ||| pd_of(m, root, n) == Some(g) && j == pd_index(n)
    ||| pt_of(m, root, n) == Some(g) && j == pt_index(n)
}

/// Entry `j` of frame `g` after `map` put `leaf` at page `n`, creating the
/// missing tables from the last frames of `a` (PDPT first): each new table
/// is zeroed but for its entry on the path, and linked from its parent
/// with `table_entry`.
pub open spec fn mapped_entry(m: PhysMem, root: u64, n: u64, a: Seq<u64>, leaf: u64, g: u64, j: int) -> u64 {
    let new3 = pdpt_of(m, root, n) is None;
    let new2 = pd_of(m, root, n) is None;
    let new1 = pt_of(m, root, n) is None;
    let l = a.len() as int;
    let t3 = if new3 { a[l - 1] } else { pdpt_of(m, root, n).unwrap() };
    let t2 = if new3 { a[l - 2] } else if new2 { a[l - 1] } else { pd_of(m, root, n).unwrap() };
    let t1 = if new3 { a[l - 3] } else if new2 { a[l - 2] } else if new1 { a[l - 1] } else { pt_of(m, root, n).unwrap() };
    if g == t1 && j == pt_index(n) {
        leaf
    } else if new1 && g == t2 && j == pd_index(n) {
        table_entry(t1)
    } else if new2 && g == t3 && j == pdpt_index(n) {
        table_entry(t2)
    } else if new3 && g == root && j == pml4_index(n) {
        table_entry(t3)
    } else if (new1 && g == t1) || (new2 && g == t2) || (new3 && g == t3) {
        0
    } else {
        m.read(g, j)
    }
}

/// How many tables `map` must create for page `n`.
pub open spec fn missing_tables(m: PhysMem, root: u64, n: u64) -> nat {
    if pdpt_of(m, root, n) is None {
        3
    } else if pd_of(m, root, n) is None {
        2
    } else if pt_of(m, root, n) is None {
        1
    } else {
        0
    }
}

/// Frame `f` is free to become a table: in memory, neither the root
/// register's frame nor any table of the hierarchy, in particular none on
/// the path of page `n`.
pub open spec fn fresh_for(m: PhysMem, cr3: u64, root: u64, n: u64, f: u64) -> bool {
    &&& f < m.frame_count()
    &&& f != cr3
    &&& f != root
    &&& !in_hierarchy(m, root, f)
    &&& pdpt_of(m, root, n) != Some(f)
    &&& pd_of(m, root, n) != Some(f)
    &&& pt_of(m, root, n) != Some(f)
}

/// `map` never overwrites a translation: its precondition fails on every
/// page that is mapped, through a PT or a huge page.
pub proof fn lemma_mapped_page_cannot_be_mapped(m: PhysMem, root: u64, n: u64)
    requires
        lookup(m, root, n) is Some,
    ensures
        !map_allowed(m, root, n),
{
    if let Some(t1) = pt_of(m, root, n) {
        if is_unused(m.read(t1, pt_index(n))) {
            lemma_unused_not_present(m.read(t1, pt_index(n)));
        }
    }
}

/// `unmap` only takes pages that are mapped: a page whose lookup finds
/// nothing fails its precondition.
pub proof fn lemma_unmapped_page_cannot_be_unmapped(m: PhysMem, root: u64, n: u64)
    requires
        lookup(m, root, n) is None,
    ensures
        !crate::walk::mapped_by_pt(m, root, n),
{
}

/// The currently active top-level table, reached through its recursive slot.
pub struct ActivePML4 {
    mem: PhysMem,
    cr3: u64,
    flushes: Vec<Flush>,
}

/// A translation-lookaside-buffer invalidation.
#[derive(Clone, Copy, PartialEq, Eq, Debug, Structural)]
pub enum Flush {
    /// Every cached translation.
    All,
    /// The cached translation of one page, by number.
    Page(u64),
}

impl ActivePML4 {
    /// The physical memory the hierarchy lives in.
    pub closed spec fn memory(&self) -> PhysMem {
        self.mem
    }

    /// The invalidations issued so far, oldest first.
    pub closed spec fn flush_log(&self) -> Seq<Flush> {
        self.flushes@
    }

    /// The frame loaded in the translation-root register.
    pub closed spec fn root_register(&self) -> u64 {
        self.cr3
    }

    /// The top-level table reached through the recursive slot of the loaded one.
    pub closed spec fn root(&self) -> u64 {
        frame_of(self.mem.read(self.cr3, 511))
    }

    pub closed spec fn wf(&self) -> bool {
        &&& self.mem.wf()
        &&& self.cr3 < self.mem.frame_count()
        &&& link_ok(self.mem, self.cr3, 511)
        &&& link_ok(self.mem, self.root(), 511)
        &&& frame_of(self.mem.read(self.root(), 511)) == self.root()
    }

    /// The frame page `n` translates to, through the reachable hierarchy.
    pub open spec fn lookup_page(&self, n: u64) -> Option<u64> {
        lookup(self.memory(), self.root(), n)
    }

    /// Takes control of `mem` with `root` loaded in the translation-root
    /// register; `None` unless `root`'s last entry points back at `root`.
    pub fn new(mem: PhysMem, root: PhysicalPage) -> (r: Option<ActivePML4>)
        requires
            mem.wf(),
        ensures
            r is Some <==> (root.number < mem.frame_count() && link_ok(mem, root.number, 511)
                && frame_of(mem.read(root.number, 511)) == root.number),
            r matches Some(a) ==> {
                &&& a.wf()
                &&& a.memory() == mem
                &&& a.root_register() == root.number
                &&& a.root() == root.number
            },
    {
        if root.number >= mem.count() as u64 {
            return None;
        }
        let e = Entry { bits: mem.read_entry(root.number, RECURSIVE_INDEX) };
        if e.is_present() && !e.is_huge() {
            let f = (e.bits & ADDRESS_MASK) >> 12;
            if f == root.number {
                return Some(ActivePML4 { mem, cr3: root.number, flushes: Vec::new() });
            }
        }
        None
    }

    /// The memory the hierarchy lives in.
    pub fn memory_ref(&self) -> (r: &PhysMem)
        ensures
            *r == self.memory(),
    {
        &self.mem
    }

    /// Gives the memory back.
    pub fn into_memory(self) -> (r: PhysMem)
        ensures
            r == self.memory(),
    {
        self.mem
    }

    /// The frame loaded in the translation-root register.
    pub fn loaded_frame(&self) -> (r: PhysicalPage)
        ensures
            r.number == self.root_register(),
    {
        PhysicalPage { number: self.cr3 }
    }

    /// Invalidates cached translations, and records it.
    fn flush(&mut self, f: Flush)
        ensures
            final(self).memory() == old(self).memory(),
            final(self).root_register() == old(self).root_register(),
            final(self).flush_log() == old(self).flush_log().push(f),
            old(self).wf() ==> final(self).wf(),
            final(self).root() == old(self).root(),
    {
        self.flushes.push(f);
    }

    /// The log of invalidations.
    pub fn flush_log_vec(&self) -> (r: &Vec<Flush>)
        ensures
            r@ == self.flush_log(),
    {
        &self.flushes
    }

    /// The recursive slot of the loaded table.
    pub fn root_slot(&self) -> (r: u64)
        requires
            self.wf(),
        ensures
            r == self.memory().read(self.root_register(), 511),
    {
        self.mem.read_entry(self.cr3, RECURSIVE_INDEX)
    }

    fn root_frame(&self) -> (r: u64)
        requires
            self.wf(),
        ensures
            r == self.root(),
            r < self.memory().frame_count(),
    {
        (self.mem.read_entry(self.cr3, RECURSIVE_INDEX) & ADDRESS_MASK) >> 12
    }

    /// The frame that `page` maps to, or `None` where it is unmapped.
    pub fn translate_page(&self, page: VirtualPage) -> (r: Option<PhysicalPage>)
        requires
            self.wf(),
        ensures
            r == (match self.lookup_page(page.number) {
                Some(f) => Some(PhysicalPage { number: f }),
                None => None,
            }),
    {
        let root = self.root_frame();
        let e4 = Entry { bits: self.mem.read_entry(root, page.pml4_index()) };
        if !e4.is_present() || e4.is_huge() {
            return None;
        }
        let t3 = (e4.bits & ADDRESS_MASK) >> 12;
        let e3 = Entry { bits: self.mem.read_entry(t3, page.pdpt_index()) };
        if !e3.is_present() {
            return None;
        }
        proof {
            lemma_frame_of_bound(e3.bits);
        }
        if e3.is_huge() {
            let base = (e3.bits & ADDRESS_MASK) >> 12;
            return Some(
                PhysicalPage {
                    number: base + page.pd_index() as u64 * 512 + page.pt_index() as u64,
                },
            );
        }
        let t2 = (e3.bits & ADDRESS_MASK) >> 12;
        let e2 = Entry { bits: self.mem.read_entry(t2, page.pd_index()) };
        if !e2.is_present() {
            return None;
        }
        proof {
            lemma_frame_of_bound(e2.bits);
        }
        if e2.is_huge() {
            let base = (e2.bits & ADDRESS_MASK) >> 12;
            return Some(PhysicalPage { number: base + page.pt_index() as u64 });
        }
        let t1 = (e2.bits & ADDRESS_MASK) >> 12;
        let e1 = Entry { bits: self.mem.read_entry(t1, page.pt_index()) };
        match e1.get_frame() {
            Some(f) => Some(PhysicalPage { number: f }),
            None => None,
        }
    }

    /// The physical address that `vaddr` maps to: its frame's base plus the
    /// offset within the page.
    pub fn translate(&self, vaddr: VAddr) -> (r: Option<PAddr>)
        requires
            self.wf(),
        ensures
            r == (match self.lookup_page(page_number(vaddr.addr)) {
                Some(f) => Some(PAddr { addr: (f * 4096 + vaddr.addr % 4096) as u64 }),
                None => None,
            }),
    {
        let page = VirtualPage::containing(vaddr);
        proof {
            lemma_lookup_bound(self.memory(), self.root(), page.number);
        }
        match self.translate_page(page) {
            Some(frame) => Some(PAddr { addr: frame.number * PAGE_SIZE + vaddr.page_offset() }),
            None => None,
        }
    }

    /// The table linked from entry `i` of table `t`, created from a fresh
    /// zeroed frame of `alloc` where the entry is unused.
    fn create_next(&mut self, t: u64, i: usize, alloc: &mut FrameStack) -> (r: u64)
        requires
            old(self).wf(),
            t < old(self).memory().frame_count(),
            i < 512,
            !is_huge(old(self).memory().read(t, i as int)),
            next_table(old(self).memory(), t, i as int) matches Some(x) ==> x < old(self).memory().frame_count(),
            next_table(old(self).memory(), t, i as int) is None ==> {
                &&& old(alloc)@.len() > 0
                &&& old(alloc)@.last() < old(self).memory().frame_count()
                &&& old(alloc)@.last() != old(self).root_register()
                &&& old(alloc)@.last() != old(self).root()
                &&& old(alloc)@.last() != t
            },
        ensures
            final(self).wf(),
            final(self).root_register() == old(self).root_register(),
            final(self).root() == old(self).root(),
            final(self).memory().frame_count() == old(self).memory().frame_count(),
            r < final(self).memory().frame_count(),
            next_table(final(self).memory(), t, i as int) == Some(r),
            match next_table(old(self).memory(), t, i as int) {
                Some(x) => {
                    &&& r == x
                    &&& final(self).memory() == old(self).memory()
                    &&& final(alloc)@ == old(alloc)@
                },
                None => {
                    &&& r == old(alloc)@.last()
                    &&& final(alloc)@ == old(alloc)@.drop_last()
                    &&& forall|g: u64, j: int| #[trigger]
                        final(self).memory().read(g, j) == if g == t && j == i {
                            table_entry(r)
                        } else if g == r {
                            0
                        } else {
                            old(self).memory().read(g, j)
                        }
                },
            },
    {
        let e = Entry { bits: self.mem.read_entry(t, i) };
        if e.is_present() {
            return (e.bits & ADDRESS_MASK) >> 12;
        }
        proof {
            self.mem.lemma_frame_count_bound();
        }
        let frame = match alloc.allocate() {
            Some(f) => f,
            None => PhysicalPage { number: 0 },
        };
        let ghost m0 = self.mem;
        self.mem.zero_frame(frame.number);
        let link = Entry::table(frame.number);
        self.mem.write_entry(t, i, link.bits);
        proof {
            assert(self.mem.read(self.cr3, 511) == m0.read(self.cr3, 511));
            assert(self.mem.read(old(self).root(), 511) == m0.read(old(self).root(), 511));
        }
        frame.number
    }

    /// Maps `page` to `frame` with `flags` (and present), creating the
    /// missing tables on its path from frames of `alloc`, last one first.
    pub fn map(&mut self, page: VirtualPage, frame: PhysicalPage, flags: u64, alloc: &mut FrameStack)
        requires
            old(self).wf(),
            page.wf(),
            frame.number < crate::entry::FRAME_LIMIT,
            map_allowed(old(self).memory(), old(self).root(), page.number),
            path_in_memory(old(self).memory(), old(self).root(), page.number),
            old(alloc)@.no_duplicates(),
            old(alloc)@.len() >= missing_tables(old(self).memory(), old(self).root(), page.number),
            forall|k: int|
                0 <= k < old(alloc)@.len() ==> fresh_for(
                    old(self).memory(),
                    old(self).root_register(),
                    old(self).root(),
                    page.number,
                    #[trigger] old(alloc)@[k],
                ),
        ensures
            final(self).wf(),
            final(self).root_register() == old(self).root_register(),
            final(self).root() == old(self).root(),
            final(self).lookup_page(page.number) == Some(frame.number),
            final(alloc)@ == old(alloc)@.subrange(
                0,
                old(alloc)@.len() - missing_tables(
                    old(self).memory(),
                    old(self).root(),
                    page.number,
                ),
            ),
            final(self).memory().frame_count() == old(self).memory().frame_count(),
            forall|g: u64, j: int|
                !old(alloc)@.contains(g) && !path_cell(
                    old(self).memory(),
                    old(self).root(),
                    page.number,
                    g,
                    j,
                ) ==> #[trigger] final(self).memory().read(g, j) == old(self).memory().read(g, j),
            forall|g: u64, j: int| #[trigger]
                final(self).memory().read(g, j) == mapped_entry(
                    old(self).memory(),
                    old(self).root(),
                    page.number,
                    old(alloc)@,
                    crate::entry::leaf_entry(frame.number, flags),
                    g,
                    j,
                ),
    {
        let ghost m0 = self.mem;
        let ghost a0 = alloc@;
        let ghost n = page.number;
        let root = self.root_frame();
        proof {
            if a0.len() > 0 {
                assert(fresh_for(m0, self.cr3, root, n, a0[a0.len() - 1]));
            }
        }
        let i4 = page.pml4_index();
        let i3 = page.pdpt_index();
        let i2 = page.pd_index();
        let i1 = page.pt_index();
        let t3 = self.create_next(root, i4, alloc);
        let ghost m1 = self.mem;
        let ghost a1 = alloc@;
        proof {
            if pdpt_of(m0, root, n) is None {
                assert(a1 =~= a0.subrange(0, a0.len() - 1));
                assert(m1.read(t3, i3 as int) == 0);
                lemma_unused_not_present(0);
            }
            assert forall|j: int| 0 <= j < a1.len() implies #[trigger] a1[j] != t3 && fresh_for(
                m0,
                self.cr3,
                root,
                n,
                a1[j],
            ) by {
                if pdpt_of(m0, root, n) is None {
                    assert(a1[j] == a0[j]);
                    assert(a0[a0.len() - 1] == t3);
                } else {
                    assert(a1[j] == a0[j]);
                }
                assert(fresh_for(m0, self.cr3, root, n, a0[j]));
            }
            assert(a1.no_duplicates());
            if a1.len() > 0 {
                assert(a1.last() == a1[a1.len() - 1]);
            }
        }
        let t2 = self.create_next(t3, i3, alloc);
        let ghost m2 = self.mem;
        let ghost a2 = alloc@;
        proof {
            assert(m2.read(root, i4 as int) == m1.read(root, i4 as int));
            if pd_of(m0, root, n) is None {
                assert(m2.read(t2, i2 as int) == 0);
                lemma_unused_not_present(0);
            }
            assert forall|j: int| 0 <= j < a2.len() implies #[trigger] a2[j] != t3 && a2[j] != t2
                && fresh_for(m0, self.cr3, root, n, a2[j]) by {
                assert(a2[j] == a1[j]);
                if pd_of(m0, root, n) is None {
                    assert(a1[a1.len() - 1] == t2);
                }
            }
            assert(a2.no_duplicates());
            if a2.len() > 0 {
                assert(a2.last() == a2[a2.len() - 1]);
            }
        }
        let t1 = self.create_next(t2, i2, alloc);
        let ghost m3 = self.mem;
        proof {
            assert(m3.read(root, i4 as int) == m1.read(root, i4 as int));
            assert(m3.read(t3, i3 as int) == m2.read(t3, i3 as int));
            if pt_of(m0, root, n) is None {
                assert(m3.read(t1, i1 as int) == 0);
            }
            lemma_unused_not_present(m3.read(t1, i1 as int));
        }
        let leaf = Entry::new(frame.number, flags);
        self.mem.write_entry(t1, i1, leaf.bits);
        proof {
            let m4 = self.mem;
            assert(m4.read(root, i4 as int) == m1.read(root, i4 as int));
            assert(m4.read(t3, i3 as int) == m2.read(t3, i3 as int));
            assert(m4.read(t2, i2 as int) == m3.read(t2, i2 as int));
            assert(m4.read(self.cr3, 511) == m0.read(self.cr3, 511));
            assert(m4.read(root, 511) == m0.read(root, 511));
            assert(m4.read(t1, i1 as int) == leaf.bits);
            assert forall|g: u64, j: int| #[trigger]
                m4.read(g, j) == mapped_entry(m0, root, n, a0, leaf.bits, g, j) by {
                let l = a0.len() as int;
                if pdpt_of(m0, root, n) is None {
                    assert(t3 == a0[l - 1] && t2 == a0[l - 2] && t1 == a0[l - 3]);
                } else if pd_of(m0, root, n) is None {
                    assert(t2 == a0[l - 1] && t1 == a0[l - 2]);
                } else if pt_of(m0, root, n) is None {
                    assert(t1 == a0[l - 1]);
                }
            }
            assert forall|g: u64, j: int|
                !a0.contains(g) && !path_cell(m0, root, n, g, j) implies #[trigger] m4.read(g, j)
                == m0.read(g, j) by {
                if pdpt_of(m0, root, n) is None {
                    assert(a0.contains(t3));
                }
                if pd_of(m0, root, n) is None {
                    assert(a0.contains(t2));
                }
                if pt_of(m0, root, n) is None {
                    assert(a0.contains(t1));
                }
            }
        }
    }

    /// Maps the page whose address equals `frame`'s address to `frame`.
    pub fn identity_map(&mut self, frame: PhysicalPage, flags: u64, alloc: &mut FrameStack)
        requires
            old(self).wf(),
            frame.number < 0x8_0000_0000,
            map_allowed(old(self).memory(), old(self).root(), frame.number),
            path_in_memory(old(self).memory(), old(self).root(), frame.number),
            old(alloc)@.no_duplicates(),
            old(alloc)@.len() >= missing_tables(
                old(self).memory(),
                old(self).root(),
                frame.number,
            ),
            forall|k: int|
                0 <= k < old(alloc)@.len() ==> fresh_for(
                    old(self).memory(),
                    old(self).root_register(),
                    old(self).root(),
                    frame.number,
                    #[trigger] old(alloc)@[k],
                ),
        ensures
            final(self).wf(),
            final(self).root_register() == old(self).root_register(),
            final(self).root() == old(self).root(),
            final(self).lookup_page(frame.number) == Some(frame.number),
            final(alloc)@ == old(alloc)@.subrange(
                0,
                old(alloc)@.len() - missing_tables(
                    old(self).memory(),
                    old(self).root(),
                    frame.number,
                ),
            ),
            final(self).memory().frame_count() == old(self).memory().frame_count(),
            forall|g: u64, j: int|
                !old(alloc)@.contains(g) && !path_cell(
                    old(self).memory(),
                    old(self).root(),
                    frame.number,
                    g,
                    j,
                ) ==> #[trigger] final(self).memory().read(g, j) == old(self).memory().read(g, j),
            forall|g: u64, j: int| #[trigger]
                final(self).memory().read(g, j) == mapped_entry(
                    old(self).memory(),
                    old(self).root(),
                    frame.number,
                    old(alloc)@,
                    crate::entry::leaf_entry(frame.number, flags),
                    g,
                    j,
                ),
    {
        let page = VirtualPage::containing(VAddr { addr: frame.base_address().addr });
        self.map(page, frame, flags, alloc)
    }

    /// Maps `page` to a frame taken from `alloc`, then creates the missing
    /// tables from the frames left.
    pub fn map_to_any(&mut self, page: VirtualPage, flags: u64, alloc: &mut FrameStack)
        requires
            old(self).wf(),
            page.wf(),
            map_allowed(old(self).memory(), old(self).root(), page.number),
            path_in_memory(old(self).memory(), old(self).root(), page.number),
            old(alloc)@.no_duplicates(),
            old(alloc)@.len() >= 1 + missing_tables(
                old(self).memory(),
                old(self).root(),
                page.number,
            ),
            forall|k: int|
                0 <= k < old(alloc)@.len() ==> fresh_for(
                    old(self).memory(),
                    old(self).root_register(),
                    old(self).root(),
                    page.number,
                    #[trigger] old(alloc)@[k],
                ),
        ensures
            final(self).wf(),
            final(self).root_register() == old(self).root_register(),
            final(self).root() == old(self).root(),
            final(self).lookup_page(page.number) == Some(old(alloc)@.last()),
            final(alloc)@ == old(alloc)@.subrange(
                0,
                old(alloc)@.len() - 1 - missing_tables(
                    old(self).memory(),
                    old(self).root(),
                    page.number,
                ),
            ),
            final(self).memory().frame_count() == old(self).memory().frame_count(),
            forall|g: u64, j: int|
                !old(alloc)@.contains(g) && !path_cell(
                    old(self).memory(),
                    old(self).root(),
                    page.number,
                    g,
                    j,
                ) ==> #[trigger] final(self).memory().read(g, j) == old(self).memory().read(g, j),
            forall|g: u64, j: int| #[trigger]
                final(self).memory().read(g, j) == mapped_entry(
                    old(self).memory(),
                    old(self).root(),
                    page.number,
                    old(alloc)@.drop_last(),
                    crate::entry::leaf_entry(old(alloc)@.last(), flags),
                    g,
                    j,
                ),
    {
        let ghost a0 = alloc@;
        let frame = match alloc.allocate() {
            Some(f) => f,
            None => PhysicalPage { number: 0 },
        };
        proof {
            assert(fresh_for(self.mem, self.cr3, self.root(), page.number, a0[a0.len() - 1]));
            self.mem.lemma_frame_count_bound();
            assert(alloc@ =~= a0.subrange(0, a0.len() - 1));
            assert forall|k: int| 0 <= k < alloc@.len() implies fresh_for(
                self.mem,
                self.cr3,
                self.root(),
                page.number,
                #[trigger] alloc@[k],
            ) by {
                assert(alloc@[k] == a0[k]);
            }
        }
        let ghost a1 = alloc@;
        let ghost m1 = self.mem;
        self.map(page, frame, flags, alloc);
        proof {
            assert forall|g: u64, j: int|
                !a0.contains(g) && !path_cell(m1, self.root(), page.number, g, j) implies #[trigger] self.mem.read(g, j)
                == m1.read(g, j) by {
                if a1.contains(g) {
                    let k = choose|k: int| 0 <= k < a1.len() && a1[k] == g;
                    assert(a0[k] == g);
                }
            }
            assert(alloc@ =~= a0.subrange(
                0,
                a0.len() - 1 - missing_tables(old(self).memory(), old(self).root(), page.number),
            ));
        }
    }

    /// Whether `map` may take `page` as far as its path goes: no huge page on
    /// it, its tables in memory, and its PT entry unused.
    pub fn can_map(&self, page: VirtualPage) -> (r: bool)
        requires
            self.wf(),
        ensures
            r == (map_allowed(self.memory(), self.root(), page.number) && path_in_memory(
                self.memory(),
                self.root(),
                page.number,
            )),
    {
        let count = self.mem.count() as u64;
        let root = self.root_frame();
        let e4 = Entry { bits: self.mem.read_entry(root, page.pml4_index()) };
        if e4.is_huge() {
            return false;
        }
        if !e4.is_present() {
            return true;
        }
        let t3 = (e4.bits & ADDRESS_MASK) >> 12;
        if t3 >= count {
            return false;
        }
        let e3 = Entry { bits: self.mem.read_entry(t3, page.pdpt_index()) };
        if e3.is_huge() {
            return false;
        }
        if !e3.is_present() {
            return true;
        }
        let t2 = (e3.bits & ADDRESS_MASK) >> 12;
        if t2 >= count {
            return false;
        }
        let e2 = Entry { bits: self.mem.read_entry(t2, page.pd_index()) };
        if e2.is_huge() {
            return false;
        }
        if !e2.is_present() {
            return true;
        }
        let t1 = (e2.bits & ADDRESS_MASK) >> 12;
        if t1 >= count {
            return false;
        }
        let e1 = Entry { bits: self.mem.read_entry(t1, page.pt_index()) };
        e1.is_unused()
    }

    /// The page table that `page` goes through, where the walk reaches one.
    fn pt_frame(&self, page: VirtualPage) -> (r: Option<u64>)
        requires
            self.wf(),
        ensures
            r == pt_of(self.memory(), self.root(), page.number),
    {
        let root = self.root_frame();
        let e4 = Entry { bits: self.mem.read_entry(root, page.pml4_index()) };
        if !e4.is_present() || e4.is_huge() {
            return None;
        }
        let e3 = Entry { bits: self.mem.read_entry((e4.bits & ADDRESS_MASK) >> 12, page.pdpt_index()) };
        if !e3.is_present() || e3.is_huge() {
            return None;
        }
        let e2 = Entry { bits: self.mem.read_entry((e3.bits & ADDRESS_MASK) >> 12, page.pd_index()) };
        if !e2.is_present() || e2.is_huge() {
            return None;
        }
        Some((e2.bits & ADDRESS_MASK) >> 12)
    }

    /// Unmaps `page` and gives its frame back to `alloc`. The tables on its
    /// path stay, even where they are now empty.
    pub fn unmap(&mut self, page: VirtualPage, alloc: &mut FrameStack)
        requires
            old(self).wf(),
            crate::walk::mapped_by_pt(old(self).memory(), old(self).root(), page.number),
            path_in_memory(old(self).memory(), old(self).root(), page.number),
            pt_index(page.number) != 511 || (pt_of(old(self).memory(), old(self).root(), page.number)
                != Some(old(self).root()) && pt_of(old(self).memory(), old(self).root(), page.number)
                != Some(old(self).root_register())),
        ensures
            final(self).wf(),
            final(self).root_register() == old(self).root_register(),
            final(self).root() == old(self).root(),
            final(self).lookup_page(page.number) is None,
            final(alloc)@ == old(alloc)@.push(old(self).lookup_page(page.number).unwrap()),
            final(self).flush_log() == old(self).flush_log().push(Flush::Page(page.number)),
            final(self).memory().frame_count() == old(self).memory().frame_count(),
            forall|g: u64, j: int| #[trigger]
                final(self).memory().read(g, j) == if Some(g) == pt_of(
                    old(self).memory(),
                    old(self).root(),
                    page.number,
                ) && j == pt_index(page.number) {
                    0
                } else {
                    old(self).memory().read(g, j)
                },
    {
        let ghost m0 = self.mem;
        let ghost root = self.root();
        let t1 = match self.pt_frame(page) {
            Some(t) => t,
            None => 0,
        };
        let i1 = page.pt_index();
        let e1 = Entry { bits: self.mem.read_entry(t1, i1) };
        let frame = match e1.get_frame() {
            Some(f) => f,
            None => 0,
        };
        let cleared = Entry::unused();
        self.mem.write_entry(t1, i1, cleared.bits);
        self.flush(Flush::Page(page.number));
        alloc.deallocate(PhysicalPage { number: frame });
        proof {
            let m1 = self.mem;
            assert(m1.read(self.cr3, 511) == m0.read(self.cr3, 511));
            assert(m1.read(root, 511) == m0.read(root, 511));
            assert(self.root() == root);
            let n = page.number;
            if m1.read(root, pml4_index(n)) == m0.read(root, pml4_index(n)) {
                let t3 = frame_of(m0.read(root, pml4_index(n)));
                if m1.read(t3, pdpt_index(n)) == m0.read(t3, pdpt_index(n)) {
                    let t2 = frame_of(m0.read(t3, pdpt_index(n)));
                    if m1.read(t2, pd_index(n)) == m0.read(t2, pd_index(n)) {
                        assert(m1.read(t1, i1 as int) == 0);
                    }
                }
            }
        }
    }

    /// Whether `clear` can empty the PT entry of page `n`: the page is mapped
    /// through a PT in memory, and that entry is no recursive slot.
    pub open spec fn clearable(&self, n: u64) -> bool {
        let m = self.memory();
        let t1 = pt_of(m, self.root(), n);
        &&& crate::walk::mapped_by_pt(m, self.root(), n)
        &&& t1.unwrap() < m.frame_count()
        &&& !(pt_index(n) == 511 && (t1 == Some(self.root()) || t1 == Some(self.root_register())))
    }

    /// Empties the PT entry of `page` where it is `clearable`, and returns
    /// the frame it mapped; otherwise changes nothing and returns `None`.
    pub fn clear(&mut self, page: VirtualPage) -> (r: Option<PhysicalPage>)
        requires
            old(self).wf(),
        ensures
            final(self).wf(),
            final(self).root_register() == old(self).root_register(),
            final(self).root() == old(self).root(),
            final(self).memory().frame_count() == old(self).memory().frame_count(),
            old(self).clearable(page.number) ==> final(self).lookup_page(page.number) is None,
            final(self).flush_log() == if old(self).clearable(page.number) {
                old(self).flush_log().push(Flush::Page(page.number))
            } else {
                old(self).flush_log()
            },
            if old(self).clearable(page.number) {
                &&& r == Some(PhysicalPage { number: old(self).lookup_page(page.number).unwrap() })
                &&& forall|g: u64, j: int| #[trigger]
                    final(self).memory().read(g, j) == if Some(g) == pt_of(
                        old(self).memory(),
                        old(self).root(),
                        page.number,
                    ) && j == pt_index(page.number) {
                        0
                    } else {
                        old(self).memory().read(g, j)
                    }
            } else {
                &&& r is None
                &&& final(self).memory() == old(self).memory()
            },
    {
        let t1 = match self.pt_frame(page) {
            Some(t) => t,
            None => {
                return None;
            },
        };
        let i1 = page.pt_index();
        if t1 >= self.mem.count() as u64 {
            return None;
        }
        if i1 == RECURSIVE_INDEX && (t1 == self.root_frame() || t1 == self.cr3) {
            return None;
        }
        let e1 = Entry { bits: self.mem.read_entry(t1, i1) };
        let frame = match e1.get_frame() {
            Some(f) => f,
            None => {
                return None;
            },
        };
        let ghost m0 = self.mem;
        let cleared = Entry::unused();
        self.mem.write_entry(t1, i1, cleared.bits);
        self.flush(Flush::Page(page.number));
        proof {
            let m1 = self.mem;
            let root = old(self).root();
            assert(self.mem.read(self.cr3, 511) == m0.read(self.cr3, 511));
            assert(self.mem.read(root, 511) == m0.read(root, 511));
            let n = page.number;
            if m1.read(root, pml4_index(n)) == m0.read(root, pml4_index(n)) {
                let t3 = frame_of(m0.read(root, pml4_index(n)));
                if m1.read(t3, pdpt_index(n)) == m0.read(t3, pdpt_index(n)) {
                    let t2 = frame_of(m0.read(t3, pdpt_index(n)));
                    if m1.read(t2, pd_index(n)) == m0.read(t2, pd_index(n)) {
                        assert(m1.read(t1, i1 as int) == 0);
                    }
                }
            }
        }
        Some(PhysicalPage { number: frame })
    }

    /// Makes frame `t` an empty top-level table whose last entry points back at `t`.
    fn init_table(&mut self, t: u64)
        requires
            old(self).wf(),
            t < old(self).memory().frame_count(),
            t != old(self).root_register(),
            t != old(self).root(),
        ensures
            final(self).wf(),
            final(self).root_register() == old(self).root_register(),
            final(self).root() == old(self).root(),
            final(self).memory().frame_count() == old(self).memory().frame_count(),
            forall|g: u64, j: int| #[trigger]
                final(self).memory().read(g, j) == if g == t {
                    if j == 511 {
                        table_entry(t)
                    } else {
                        0
                    }
                } else {
                    old(self).memory().read(g, j)
                },
    {
        proof {
            self.mem.lemma_frame_count_bound();
        }
        self.mem.zero_frame(t);
        let link = Entry::table(t);
        self.mem.write_entry(t, RECURSIVE_INDEX, link.bits);
    }

    /// Points the recursive slot of the loaded table at `e`'s frame.
    fn set_recursive(&mut self, e: u64)
        requires
            old(self).wf(),
            is_present(e),
            !is_huge(e),
            frame_of(e) < old(self).memory().frame_count(),
            frame_of(e) == old(self).root_register() || {
                &&& link_ok(old(self).memory(), frame_of(e), 511)
                &&& frame_of(old(self).memory().read(frame_of(e), 511)) == frame_of(e)
            },
        ensures
            final(self).wf(),
            final(self).root_register() == old(self).root_register(),
            final(self).root() == frame_of(e),
            final(self).memory().frame_count() == old(self).memory().frame_count(),
            forall|g: u64, j: int| #[trigger]
                final(self).memory().read(g, j) == if g == old(self).root_register() && j == 511 {
                    e
                } else {
                    old(self).memory().read(g, j)
                },
            final(self).flush_log() == old(self).flush_log(),
    {
        self.mem.write_entry(self.cr3, RECURSIVE_INDEX, e);
    }

    /// Points the recursive slot back at the loaded table with `saved`, the
    /// entry it held in `s0`, then unmaps the temporary page.
    #[verifier::rlimit(100)]
    #[verifier::spinoff_prover]
    fn restore_after(&mut self, saved: u64, temp_page: &mut TempPage, s0: Ghost<ActivePML4>)
        requires
            old(self).wf(),
            s0@.wf(),
            s0@.root() == s0@.root_register(),
            old(self).root_register() == s0@.root_register(),
            old(self).memory().frame_count() == s0@.memory().frame_count(),
            saved == s0@.memory().read(s0@.root_register(), 511),
            old(temp_page).page().wf(),
            forall|g: u64, j: int|
                in_hierarchy(s0@.memory(), s0@.root_register(), g) && !(g == s0@.root_register() && j
                    == 511) ==> #[trigger] old(self).memory().read(g, j) == s0@.memory().read(g, j),
        ensures
            final(self).wf(),
            final(self).root_register() == s0@.root_register(),
            final(self).root() == s0@.root_register(),
            final(temp_page).page() == old(temp_page).page(),
            final(self).memory().read(s0@.root_register(), 511) == saved,
            final(self).flush_log() == old(self).flush_log().push(Flush::All) || final(self).flush_log()
                == old(self).flush_log().push(Flush::All).push(
                Flush::Page(old(temp_page).page().number),
            ),
            s0@.clearable(old(temp_page).page().number) ==> final(self).flush_log() == old(
                self).flush_log().push(Flush::All).push(Flush::Page(old(temp_page).page().number)),
            s0@.clearable(old(temp_page).page().number) ==> final(self).lookup_page(
                old(temp_page).page().number,
            ) is None,
            forall|g: u64, j: int|
                !in_hierarchy(s0@.memory(), s0@.root_register(), g) ==> #[trigger] final(self).memory().read(g, j) == old(self).memory().read(g, j),
            forall|g: u64, j: int|
                in_hierarchy(s0@.memory(), s0@.root_register(), g) && !(Some(g) == pt_of(
                    s0@.memory(),
                    s0@.root_register(),
                    old(temp_page).page().number,
                ) && j == pt_index(old(temp_page).page().number)) ==> #[trigger] final(self).memory().read(g, j) == s0@.memory().read(g, j),
    {
        let ghost m0 = s0@.mem;
        let ghost cr3 = s0@.cr3;
        let ghost m2 = self.mem;
        proof {
            assert(in_hierarchy(m0, cr3, cr3));
            assert(m2.read(cr3, 511) == m2.read(cr3, 511));
        }
        self.set_recursive(saved);
        self.flush(Flush::All);
        let ghost m3 = self.mem;
        proof {
            assert(self.root() == cr3);
            assert forall|g: u64, j: int| in_hierarchy(m0, cr3, g) implies #[trigger] m3.read(g, j)
                == m0.read(g, j) by {
                if g == cr3 && j == 511 {
                } else {
                    assert(m2.read(g, j) == m0.read(g, j));
                }
            }
            let tp = temp_page.page.number;
            assert(m3.read(cr3, pml4_index(tp)) == m0.read(cr3, pml4_index(tp)));
            if let Some(t3) = pdpt_of(m0, cr3, tp) {
                assert(in_hierarchy(m0, cr3, t3));
                assert(m3.read(t3, pdpt_index(tp)) == m0.read(t3, pdpt_index(tp)));
                if let Some(t2) = pd_of(m0, cr3, tp) {
                    assert(in_hierarchy(m0, cr3, t2));
                    assert(m3.read(t2, pd_index(tp)) == m0.read(t2, pd_index(tp)));
                }
            }
            assert(pt_of(m3, cr3, tp) == pt_of(m0, cr3, tp));
            if let Some(t1) = pt_of(m0, cr3, tp) {
                assert(in_hierarchy(m0, cr3, t1));
                assert(m3.read(t1, pt_index(tp)) == m0.read(t1, pt_index(tp)));
            }
        }
        let ghost s3 = *self;
        proof {
            assert(s0@.clearable(temp_page.page.number) ==> s3.clearable(temp_page.page.number));
        }
        temp_page.unmap(self);
        proof {
            let tp = temp_page.page.number;
            assert forall|g: u64, j: int| !in_hierarchy(m0, cr3, g) implies #[trigger] self.mem.read(g, j)
                == m2.read(g, j) by {
                if let Some(t1) = pt_of(m0, cr3, tp) {
                    assert(in_hierarchy(m0, cr3, t1));
                }
            }
        }
    }

    /// Whether `page` is mapped.
    pub fn is_mapped(&self, page: &VirtualPage) -> (r: bool)
        requires
            self.wf(),
        ensures
            r == self.lookup_page(page.number) is Some,
    {
        self.translate_page(*page).is_some()
    }
}

} // verus!

verus! {

/// A complete hierarchy that is not loaded, known by its top-level frame.
pub struct InactivePageTable {
    pml4_frame: PhysicalPage,
}

/// A page reserved for mapping one frame at a time.
pub struct TempPage {
    page: VirtualPage,
}

/// Exclusive handle on the loaded hierarchy.
pub struct ActivePageTable {
    pml4: ActivePML4,
}

impl InactivePageTable {
    pub closed spec fn frame(&self) -> u64 {
        self.pml4_frame.number
    }

    /// The table in memory `m` is a top-level table that points back at itself.
    pub open spec fn wf_in(&self, m: PhysMem) -> bool {
        &&& self.frame() < m.frame_count()
        &&& link_ok(m, self.frame(), 511)
        &&& frame_of(m.read(self.frame(), 511)) == self.frame()
    }

    pub fn pml4_frame(&self) -> (r: PhysicalPage)
        ensures
            r.number == self.frame(),
    {
        self.pml4_frame
    }

    /// Builds an empty hierarchy in `frame`: a zeroed top-level table whose
    /// last entry points back at `frame`.
    pub fn new(frame: PhysicalPage, active_table: &mut ActivePageTable) -> (r: InactivePageTable)
        requires
            old(active_table).wf(),
            frame.number < old(active_table).pml4().memory().frame_count(),
            frame.number != old(active_table).pml4().root_register(),
            frame.number != old(active_table).pml4().root(),
        ensures
            final(active_table).wf(),
            final(active_table).pml4().root_register() == old(active_table).pml4().root_register(),
            final(active_table).pml4().root() == old(active_table).pml4().root(),
            r.frame() == frame.number,
            r.wf_in(final(active_table).pml4().memory()),
            forall|g: u64, j: int| #[trigger]
                final(active_table).pml4().memory().read(g, j) == if g == frame.number {
                    if j == 511 {
                        table_entry(frame.number)
                    } else {
                        0
                    }
                } else {
                    old(active_table).pml4().memory().read(g, j)
                },
    {
        proof {
            active_table.pml4.mem.lemma_frame_count_bound();
            crate::entry::lemma_table_entry(frame.number);
        }
        active_table.pml4.init_table(frame.number);
        InactivePageTable { pml4_frame: frame }
    }
}

impl TempPage {
    pub closed spec fn page(&self) -> VirtualPage {
        self.page
    }

    pub fn new(page: VirtualPage) -> (r: TempPage)
        ensures
            r.page() == page,
    {
        TempPage { page }
    }

    /// Maps the temporary page to `frame` in `active`; the page must be
    /// unmapped first, so it maps one frame at a time.
    pub fn map(&mut self, frame: PhysicalPage, active: &mut ActivePML4, alloc: &mut FrameStack)
        requires
            old(active).wf(),
            old(self).page().wf(),
            frame.number < crate::entry::FRAME_LIMIT,
            map_allowed(old(active).memory(), old(active).root(), old(self).page().number),
            path_in_memory(old(active).memory(), old(active).root(), old(self).page().number),
            old(alloc)@.no_duplicates(),
            old(alloc)@.len() >= missing_tables(
                old(active).memory(),
                old(active).root(),
                old(self).page().number,
            ),
            forall|k: int|
                0 <= k < old(alloc)@.len() ==> fresh_for(
                    old(active).memory(),
                    old(active).root_register(),
                    old(active).root(),
                    old(self).page().number,
                    #[trigger] old(alloc)@[k],
                ),
        ensures
            final(self).page() == old(self).page(),
            final(active).wf(),
            final(active).root_register() == old(active).root_register(),
            final(active).root() == old(active).root(),
            final(active).lookup_page(old(self).page().number) == Some(frame.number),
            final(alloc)@ == old(alloc)@.subrange(
                0,
                old(alloc)@.len() - missing_tables(
                    old(active).memory(),
                    old(active).root(),
                    old(self).page().number,
                ),
            ),
            forall|g: u64, j: int| #[trigger]
                final(active).memory().read(g, j) == mapped_entry(
                    old(active).memory(),
                    old(active).root(),
                    old(self).page().number,
                    old(alloc)@,
                    crate::entry::leaf_entry(frame.number, WRITABLE),
                    g,
                    j,
                ),
    {
        active.map(self.page, frame, WRITABLE, alloc);
    }

    /// Unmaps the temporary page from `active` where it is mapped through a
    /// PT, returning the frame it held.
    pub fn unmap(&mut self, active: &mut ActivePML4) -> (r: Option<PhysicalPage>)
        requires
            old(active).wf(),
        ensures
            final(self).page() == old(self).page(),
            final(active).wf(),
            final(active).root_register() == old(active).root_register(),
            final(active).root() == old(active).root(),
            final(active).memory().frame_count() == old(active).memory().frame_count(),
            old(active).clearable(old(self).page().number) ==> final(active).lookup_page(
                old(self).page().number,
            ) is None,
            final(active).flush_log() == if old(active).clearable(old(self).page().number) {
                old(active).flush_log().push(Flush::Page(old(self).page().number))
            } else {
                old(active).flush_log()
            },
            if old(active).clearable(old(self).page().number) {
                &&& r == Some(
                    PhysicalPage { number: old(active).lookup_page(old(self).page().number).unwrap() },
                )
                &&& forall|g: u64, j: int| #[trigger]
                    final(active).memory().read(g, j) == if Some(g) == pt_of(
                        old(active).memory(),
                        old(active).root(),
                        old(self).page().number,
                    ) && j == pt_index(old(self).page().number) {
                        0
                    } else {
                        old(active).memory().read(g, j)
                    }
            } else {
                &&& r is None
                &&& final(active).memory() == old(active).memory()
            },
    {
        active.clear(self.page)
    }
}

/// What `using` asks of its operation: it hands back a well-formed handle
/// on the same tables, and leaves every entry of the loaded hierarchy `m0` at
/// `cr3` as it found it, but the recursive slot.
pub open spec fn keeps_hierarchy(m0: PhysMem, cr3: u64, a: ActivePML4, b: ActivePML4) -> bool {
    &&& b.wf()
    &&& b.root_register() == a.root_register()
    &&& b.root() == a.root()
    &&& b.memory().frame_count() == a.memory().frame_count()
    &&& forall|g: u64, j: int|
        in_hierarchy(m0, cr3, g) && !(g == cr3 && j == 511) ==> #[trigger] b.memory().read(g, j)
            == a.memory().read(g, j)
}

impl ActivePageTable {
    pub closed spec fn pml4(&self) -> ActivePML4 {
        self.pml4
    }

    /// Well formed, and the loaded table is the one reached recursively.
    pub open spec fn wf(&self) -> bool {
        &&& self.pml4().wf()
        &&& self.pml4().root() == self.pml4().root_register()
    }

    pub fn new(pml4: ActivePML4) -> (r: ActivePageTable)
        ensures
            r.pml4() == pml4,
    {
        ActivePageTable { pml4 }
    }

    pub fn pml4_ref(&self) -> (r: &ActivePML4)
        ensures
            *r == self.pml4(),
    {
        &self.pml4
    }

    pub fn into_pml4(self) -> (r: ActivePML4)
        ensures
            r == self.pml4(),
    {
        self.pml4
    }

    /// Runs `f` with the recursive slot pointed at `table`, so that the
    /// handle `f` receives reaches `table`'s hierarchy; then points the slot
    /// back and unmaps `temp_page`. Every entry of the loaded hierarchy is
    /// as before, but the temporary page's PT entry.
    #[verifier::rlimit(100)]
    #[verifier::spinoff_prover]
    pub fn using<F: FnOnce(ActivePML4) -> ActivePML4>(
        &mut self,
        table: &mut InactivePageTable,
        temp_page: &mut TempPage,
        f: F,
    )
        requires
            old(self).wf(),
            old(temp_page).page().wf(),
            old(table).wf_in(old(self).pml4().memory()),
            forall|a: ActivePML4|
                a.wf() && a.root_register() == old(self).pml4().root_register() && a.root() == old(table).frame()
                    ==> #[trigger] f.requires((a,)),
            forall|a: ActivePML4, b: ActivePML4| #[trigger]
                f.ensures((a,), b) ==> keeps_hierarchy(
                    old(self).pml4().memory(),
                    old(self).pml4().root_register(),
                    a,
                    b,
                ),
        ensures
            final(self).wf(),
            *final(table) == *old(table),
            final(temp_page).page() == old(temp_page).page(),
            final(self).pml4().root_register() == old(self).pml4().root_register(),
            forall|g: u64, j: int|
                in_hierarchy(old(self).pml4().memory(), old(self).pml4().root_register(), g) && !(
                Some(g) == pt_of(
                    old(self).pml4().memory(),
                    old(self).pml4().root_register(),
                    old(temp_page).page().number,
                ) && j == pt_index(old(temp_page).page().number)) ==> #[trigger] final(self).pml4().memory().read(g, j)
                    == old(self).pml4().memory().read(g, j),
            forall|n: u64|
                n < crate::addr::PAGE_LIMIT && (pt_of(
                    old(self).pml4().memory(),
                    old(self).pml4().root_register(),
                    old(temp_page).page().number,
                ) matches Some(t) ==> !path_cell(
                    old(self).pml4().memory(),
                    old(self).pml4().root_register(),
                    n,
                    t,
                    pt_index(old(temp_page).page().number),
                )) ==> #[trigger] final(self).pml4().lookup_page(n) == old(self).pml4().lookup_page(n),
            final(self).pml4().memory().read(old(self).pml4().root_register(), 511) 
                == old(self).pml4().memory().read(old(self).pml4().root_register(), 511),
            old(self).pml4().clearable(old(temp_page).page().number) 
                ==> final(self).pml4().lookup_page(old(temp_page).page().number) is None,
            exists|a: ActivePML4, b: ActivePML4|
                {
                    &&& a.wf()
                    &&& a.root_register() == old(self).pml4().root_register()
                    &&& a.root() == old(table).frame()
                    &&& a.memory().frame_count() == old(self).pml4().memory().frame_count()
                    &&& a.flush_log() == old(self).pml4().flush_log().push(Flush::All)
                    &&& (final(self).pml4().flush_log() == b.flush_log().push(Flush::All)
                        || final(self).pml4().flush_log() == b.flush_log().push(Flush::All).push(
                        Flush::Page(old(temp_page).page().number),
                    ))
                    &&& forall|g: u64, j: int| #[trigger]
                        a.memory().read(g, j) == if g == old(self).pml4().root_register() && j
                            == 511 {
                            table_entry(old(table).frame())
                        } else {
                            old(self).pml4().memory().read(g, j)
                        }
                    &&& f.ensures((a,), b)
                    &&& forall|g: u64, j: int|
                        !in_hierarchy(
                            old(self).pml4().memory(),
                            old(self).pml4().root_register(),
                            g,
                        ) ==> #[trigger] final(self).pml4().memory().read(g, j) == b.memory().read(
                            g,
                            j,
                        )
                },
    {
        let ghost m0 = self.pml4.mem;
        let ghost cr3 = self.pml4.cr3;
        let ghost s0 = self.pml4;
        let saved = self.pml4.mem.read_entry(self.pml4.cr3, RECURSIVE_INDEX);
        proof {
            self.pml4.mem.lemma_frame_count_bound();
            crate::entry::lemma_table_entry(table.pml4_frame.number);
        }
        let link = Entry::table(table.pml4_frame.number);
        self.pml4.set_recursive(link.bits);
        self.pml4.flush(Flush::All);
        let mut inner = ActivePML4 { mem: PhysMem::new(0), cr3: 0, flushes: Vec::new() };
        core::mem::swap(&mut self.pml4, &mut inner);
        let ghost m1 = inner.mem;
        let ghost a_in = inner;
        let out = f(inner);
        let ghost m2 = out.mem;
        let ghost b_out = out;
        self.pml4 = out;
        self.pml4.restore_after(saved, temp_page, Ghost(s0));
        proof {
            let tp = temp_page.page.number;
            assert forall|n: u64|
                n < crate::addr::PAGE_LIMIT && (pt_of(m0, cr3, tp) matches Some(t) ==> !path_cell(
                    m0,
                    cr3,
                    n,
                    t,
                    pt_index(tp),
                )) implies #[trigger] self.pml4.lookup_page(n) == lookup(m0, cr3, n) by {
                crate::laws::lemma_kept_hierarchy_keeps_translations(m0, self.pml4.mem, cr3, tp, n);
            }
            assert(f.ensures((a_in,), b_out));
            assert(a_in.wf() && a_in.root_register() == cr3 && a_in.root() == table.frame());
            assert(a_in.memory().frame_count() == m0.frame_count());
            assert(forall|g: u64, j: int| #[trigger]
                a_in.memory().read(g, j) == if g == cr3 && j == 511 {
                    table_entry(table.frame())
                } else {
                    m0.read(g, j)
                });
        }
    }

    /// Loads `new_table` in the translation-root register and returns the
    /// hierarchy that was loaded before.
    pub fn replace(&mut self, new_table: &mut InactivePageTable) -> (r: InactivePageTable)
        requires
            old(self).wf(),
            old(new_table).wf_in(old(self).pml4().memory()),
        ensures
            final(self).wf(),
            final(self).pml4().memory() == old(self).pml4().memory(),
            final(self).pml4().root_register() == old(new_table).frame(),
            final(self).pml4().flush_log() == old(self).pml4().flush_log().push(Flush::All),
            *final(new_table) == *old(new_table),
            r.frame() == old(self).pml4().root_register(),
            r.wf_in(final(self).pml4().memory()),
    {
        let old_frame = self.pml4.cr3;
        self.pml4.cr3 = new_table.pml4_frame.number;
        self.pml4.flush(Flush::All);
        InactivePageTable { pml4_frame: PhysicalPage { number: old_frame } }
    }
}

} // verus!

verus! {

/// Writes the bootstrap hierarchy into `mem`: `pml4` points back at itself
/// and at `pdpt`, `pdpt` at `pd`, and each of `pd`'s entries maps a huge
/// 2 MiB page onto itself, so the first GiB is identity-mapped.
pub fn create_page_tables(mem: PhysMem, pml4: PhysicalPage, pdpt: PhysicalPage, pd: PhysicalPage) -> (r:
    ActivePML4)
    requires
        mem.wf(),
        pml4.number < mem.frame_count(),
        pdpt.number < mem.frame_count(),
        pd.number < mem.frame_count(),
        pml4.number != pdpt.number,
        pml4.number != pd.number,
        pdpt.number != pd.number,
    ensures
        r.wf(),
        r.root_register() == pml4.number,
        r.root() == pml4.number,
        r.memory().frame_count() == mem.frame_count(),
        forall|n: u64| n < 0x4_0000 ==> #[trigger] r.lookup_page(n) == Some(n),
        forall|g: u64, j: int| #[trigger]
            r.memory().read(g, j) == if g == pml4.number && j == 511 {
                table_entry(pml4.number)
            } else if g == pml4.number && j == 0 {
                table_entry(pdpt.number)
            } else if g == pdpt.number && j == 0 {
                table_entry(pd.number)
            } else if g == pd.number && 0 <= j < 512 {
                crate::entry::huge_entry((j * 512) as u64, WRITABLE)
            } else {
                mem.read(g, j)
            },
{
    let ghost m0 = mem;
    let ghost count = mem.frame_count();
    let mut mem = mem;
    proof {
        mem.lemma_frame_count_bound();
        crate::entry::lemma_table_entry(pml4.number);
        crate::entry::lemma_table_entry(pdpt.number);
        crate::entry::lemma_table_entry(pd.number);
    }
    mem.write_entry(pml4.number, RECURSIVE_INDEX, Entry::table(pml4.number).bits);
    mem.write_entry(pml4.number, 0, Entry::table(pdpt.number).bits);
    mem.write_entry(pdpt.number, 0, Entry::table(pd.number).bits);
    let mut i: usize = 0;
    while i < ENTRY_COUNT
        invariant
            mem.wf(),
            mem.frame_count() == count,
            mem.frame_count() <= MAX_FRAMES,
            pml4.number < mem.frame_count(),
            pdpt.number < mem.frame_count(),
            pd.number < mem.frame_count(),
            pml4.number != pdpt.number,
            pml4.number != pd.number,
            pdpt.number != pd.number,
            i <= 512,
            mem.read(pml4.number, 511) == table_entry(pml4.number),
            mem.read(pml4.number, 0) == table_entry(pdpt.number),
            mem.read(pdpt.number, 0) == table_entry(pd.number),
            forall|g: u64, j: int| #[trigger]
                mem.read(g, j) == if g == pml4.number && j == 511 {
                    table_entry(pml4.number)
                } else if g == pml4.number && j == 0 {
                    table_entry(pdpt.number)
                } else if g == pdpt.number && j == 0 {
                    table_entry(pd.number)
                } else if g == pd.number && 0 <= j < i {
                    crate::entry::huge_entry((j * 512) as u64, WRITABLE)
                } else {
                    m0.read(g, j)
                },
        decreases 512 - i,
    {
        let e = Entry::huge(i as u64 * 512, WRITABLE);
        mem.write_entry(pd.number, i, e.bits);
        i = i + 1;
    }
    let r = ActivePML4 { mem, cr3: pml4.number, flushes: Vec::new() };
    proof {
        assert forall|n: u64| n < 0x4_0000 implies #[trigger] r.lookup_page(n) == Some(n) by {
            assert(pml4_index(n) == 0);
            assert(pdpt_index(n) == 0);
            let j = pd_index(n);
            assert(j == n / 512);
            crate::entry::lemma_huge_entry((j * 512) as u64, WRITABLE);
            assert(mem.read(pd.number, j) == crate::entry::huge_entry((j * 512) as u64, WRITABLE));
            assert(j * 512 + pt_index(n) == n);
        }
    }
    r
}

} // verus!
