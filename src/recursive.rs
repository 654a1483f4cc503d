//! Addresses at which the recursive slot makes each table visible.
//!
//! With entry 511 of the top-level table pointing back at it, the page whose
//! four indices are all 511 is the top-level table itself, and shifting a
//! table's indices up by one level and appending an index gives the page of
//! the table that entry links to.
use vstd::prelude::*;
use crate::addr::{page_base, page_number, pd_index, pdpt_index, pml4_index, pt_index, VAddr, VirtualPage, PAGE_LIMIT};
use crate::entry::{is_huge, is_present, frame_of};
use crate::memory::PhysMem;
use crate::walk::{lookup, pd_of, pdpt_of, pt_of};

verus! {

/// The virtual address of the top-level table.
pub const PML4_ADDRESS: u64 = 0xffff_ffff_ffff_f000;

/// The page number of the table that entry `index` of the table at page `pn` links to.
pub open spec fn next_table_page(pn: u64, index: int) -> u64 {
    ((pn * 512 + index) % 0x10_0000_0000) as u64
}

/// The page of the top-level table.
pub open spec fn pml4_page() -> u64 {
    0xf_ffff_ffff
}

/// The address of the table that entry `index` of the table at `table`
/// links to: `(table << 9) | (index << 12)`, made canonical.
pub fn next_table_address(table: VAddr, index: usize) -> (r: VAddr)
    requires
        index < 512,
    ensures
        r.addr == page_base(next_table_page(page_number(table.addr), index as int)),
        page_number(r.addr) == next_table_page(page_number(table.addr), index as int),
{
    let pn = VirtualPage::containing(table).number;
    let next = VirtualPage { number: (pn * 512 + index as u64) % PAGE_LIMIT };
    next.base()
}

/// The address of the top-level table lies in its own page.
pub proof fn lemma_pml4_address()
    ensures
        page_number(PML4_ADDRESS) == pml4_page(),
{
}

proof fn lemma_indices(i4: u64, i3: u64, i2: u64)
    requires
        i4 < 512,
        i3 < 512,
        i2 < 512,
    ensures
        pml4_index(next_table_page(pml4_page(), i4 as int)) == 511,
        pdpt_index(next_table_page(pml4_page(), i4 as int)) == 511,
        pd_index(next_table_page(pml4_page(), i4 as int)) == 511,
        pt_index(next_table_page(pml4_page(), i4 as int)) == i4,
        pml4_index(next_table_page(next_table_page(pml4_page(), i4 as int), i3 as int)) == 511,
        pdpt_index(next_table_page(next_table_page(pml4_page(), i4 as int), i3 as int)) == 511,
        pd_index(next_table_page(next_table_page(pml4_page(), i4 as int), i3 as int)) == i4,
        pt_index(next_table_page(next_table_page(pml4_page(), i4 as int), i3 as int)) == i3,
        pml4_index(
            next_table_page(
                next_table_page(next_table_page(pml4_page(), i4 as int), i3 as int),
                i2 as int,
            ),
        ) == 511,
        pdpt_index(
            next_table_page(
                next_table_page(next_table_page(pml4_page(), i4 as int), i3 as int),
                i2 as int,
            ),
        ) == i4,
        pd_index(
            next_table_page(
                next_table_page(next_table_page(pml4_page(), i4 as int), i3 as int),
                i2 as int,
            ),
        ) == i3,
        pt_index(
            next_table_page(
                next_table_page(next_table_page(pml4_page(), i4 as int), i3 as int),
                i2 as int,
            ),
        ) == i2,
{
    let pdpt_pg = next_table_page(pml4_page(), i4 as int);
    assert(pdpt_pg == 0xf_ffff_fe00 + i4);
    let pd_pg = next_table_page(pdpt_pg, i3 as int);
    assert(pd_pg == 0xf_fffc_0000 + i4 * 512 + i3);
    let pt_pg = next_table_page(pd_pg, i2 as int);
    assert(pt_pg == 0xf_f800_0000 + i4 * 0x4_0000 + i3 * 512 + i2);
    assert(pdpt_pg / 512 % 512 == 511 && pdpt_pg / 0x4_0000 % 512 == 511 && pdpt_pg / 0x800_0000 % 512 == 511
        && pdpt_pg % 512 == i4) by (bit_vector)
        requires
            pdpt_pg == 0xf_ffff_fe00 + i4,
            i4 < 512,
    ;
    assert(pd_pg / 512 % 512 == i4 && pd_pg / 0x4_0000 % 512 == 511 && pd_pg / 0x800_0000 % 512 == 511
        && pd_pg % 512 == i3) by (bit_vector)
        requires
            pd_pg == 0xf_fffc_0000 + i4 * 512 + i3,
            i4 < 512,
            i3 < 512,
    ;
    assert(pt_pg / 512 % 512 == i3 && pt_pg / 0x4_0000 % 512 == i4 && pt_pg / 0x800_0000 % 512 == 511
        && pt_pg % 512 == i2) by (bit_vector)
        requires
            pt_pg == 0xf_f800_0000 + i4 * 0x4_0000 + i3 * 512 + i2,
            i4 < 512,
            i3 < 512,
            i2 < 512,
    ;
}

/// Through a top-level table `root` whose slot 511 links back to itself,
/// the top-level table's page translates to `root`, and the page reached by
/// appending page `n`'s indices one level at a time translates to the PDPT,
/// PD and PT on `n`'s path.
pub proof fn lemma_recursive_addresses(m: PhysMem, root: u64, n: u64)
    requires
        is_present(m.read(root, 511)),
        !is_huge(m.read(root, 511)),
        frame_of(m.read(root, 511)) == root,
        n < PAGE_LIMIT,
    ensures
        lookup(m, root, pml4_page()) == Some(root),
        pdpt_of(m, root, n) is Some ==> lookup(
            m,
            root,
            next_table_page(pml4_page(), pml4_index(n)),
        ) == pdpt_of(m, root, n),
        pd_of(m, root, n) is Some ==> lookup(
            m,
            root,
            next_table_page(next_table_page(pml4_page(), pml4_index(n)), pdpt_index(n)),
        ) == pd_of(m, root, n),
        pt_of(m, root, n) is Some ==> lookup(
            m,
            root,
            next_table_page(
                next_table_page(next_table_page(pml4_page(), pml4_index(n)), pdpt_index(n)),
                pd_index(n),
            ),
        ) == pt_of(m, root, n),
{
    assert(pml4_index(pml4_page()) == 511 && pdpt_index(pml4_page()) == 511 && pd_index(pml4_page())
        == 511 && pt_index(pml4_page()) == 511);
    lemma_indices(pml4_index(n) as u64, pdpt_index(n) as u64, pd_index(n) as u64);
}

} // verus!
