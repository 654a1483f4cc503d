//! The four-level walk, stated over memory contents.
use vstd::prelude::*;
use crate::addr::{pml4_index, pdpt_index, pd_index, pt_index};
use crate::entry::{is_present, is_huge, frame_of, lemma_frame_of_bound, FRAME_LIMIT};
use crate::memory::PhysMem;

verus! {

/// The next-level table linked from entry `i` of table `t`, unless the entry
/// is unused or maps a huge page.
pub open spec fn next_table(m: PhysMem, t: u64, i: int) -> Option<u64> {
    let e = m.read(t, i);
    if is_present(e) && !is_huge(e) {
        Some(frame_of(e))
    } else {
        None
    }
}

/// The PDPT that page `n` goes through, below top-level table `root`.
pub open spec fn pdpt_of(m: PhysMem, root: u64, n: u64) -> Option<u64> {
    next_table(m, root, pml4_index(n))
}

pub open spec fn pd_of(m: PhysMem, root: u64, n: u64) -> Option<u64> {
    match pdpt_of(m, root, n) {
        Some(t) => next_table(m, t, pdpt_index(n)),
        None => None,
    }
}

pub open spec fn pt_of(m: PhysMem, root: u64, n: u64) -> Option<u64> {
    match pd_of(m, root, n) {
        Some(t) => next_table(m, t, pd_index(n)),
        None => None,
    }
}

/// The frame that page `n` translates to through the hierarchy at `root`.
/// A huge entry in the PDPT maps 1 GiB and one in the PD maps 2 MiB: the
/// walk stops there and adds the lower index bits to its frame.
pub open spec fn lookup(m: PhysMem, root: u64, n: u64) -> Option<u64> {
    match pdpt_of(m, root, n) {
        None => None,
        Some(t3) => {
            let e3 = m.read(t3, pdpt_index(n));
            if !is_present(e3) {
                None
            } else if is_huge(e3) {
                Some((frame_of(e3) + pd_index(n) * 512 + pt_index(n)) as u64)
            } else {
                let e2 = m.read(frame_of(e3), pd_index(n));
                if !is_present(e2) {
                    None
                } else if is_huge(e2) {
                    Some((frame_of(e2) + pt_index(n)) as u64)
                } else {
                    let e1 = m.read(frame_of(e2), pt_index(n));
                    if is_present(e1) {
                        Some(frame_of(e1))
                    } else {
                        None
                    }
                }
            }
        },
    }
}

/// Every frame a walk finds lies below the physical address limit plus one 1 GiB page.
pub proof fn lemma_lookup_bound(m: PhysMem, root: u64, n: u64)
    ensures
        lookup(m, root, n) matches Some(f) ==> f < FRAME_LIMIT + 0x4_0000,
{
    if let Some(t3) = pdpt_of(m, root, n) {
        let e3 = m.read(t3, pdpt_index(n));
        lemma_frame_of_bound(e3);
        let e2 = m.read(frame_of(e3), pd_index(n));
        lemma_frame_of_bound(e2);
        lemma_frame_of_bound(m.read(frame_of(e2), pt_index(n)));
    }
}

/// Page `n` is mapped through a PT entry: no huge page on its path.
pub open spec fn mapped_by_pt(m: PhysMem, root: u64, n: u64) -> bool {
    &&& pt_of(m, root, n) is Some
    &&& is_present(m.read(pt_of(m, root, n).unwrap(), pt_index(n)))
}

/// Two memories that agree on every entry the walk for `n` reads give the
/// same translation for `n`.
pub proof fn lemma_lookup_depends_on_path(m1: PhysMem, m2: PhysMem, root: u64, n: u64)
    requires
        m1.read(root, pml4_index(n)) == m2.read(root, pml4_index(n)),
        pdpt_of(m1, root, n) matches Some(t3) ==> m1.read(t3, pdpt_index(n)) == m2.read(
            t3,
            pdpt_index(n),
        ),
        pd_of(m1, root, n) matches Some(t2) ==> m1.read(t2, pd_index(n)) == m2.read(
            t2,
            pd_index(n),
        ),
        pt_of(m1, root, n) matches Some(t1) ==> m1.read(t1, pt_index(n)) == m2.read(
            t1,
            pt_index(n),
        ),
    ensures
        lookup(m1, root, n) == lookup(m2, root, n),
{
}

} // verus!

verus! {

/// Frame `g` holds a table of the hierarchy at `root`: the root itself, or a
/// table some page's walk goes through.
pub open spec fn in_hierarchy(m: PhysMem, root: u64, g: u64) -> bool {
    g == root || exists|n: u64|
        n < crate::addr::PAGE_LIMIT && (#[trigger] pdpt_of(m, root, n) == Some(g) || pd_of(m, root, n)
            == Some(g) || pt_of(m, root, n) == Some(g))
}

} // verus!
