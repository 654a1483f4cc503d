//! Properties of translation that relate several operations.
use vstd::prelude::*;
use vstd::arithmetic::div_mod::{lemma_div_denominator, lemma_fundamental_div_mod};
use crate::addr::{page_number, pml4_index, pdpt_index, pd_index, pt_index};
use crate::entry::{is_present, is_huge, frame_of};
use crate::memory::PhysMem;
use crate::paging::ActivePML4;
use crate::paging::path_cell;
use crate::walk::{in_hierarchy, lemma_lookup_depends_on_path, lookup, pd_of, pdpt_of, pt_of};

verus! {

/// The physical address that `translate` gives for virtual address `a`.
pub open spec fn translation(t: ActivePML4, a: u64) -> Option<u64> {
    match t.lookup_page(page_number(a)) {
        Some(f) => Some((f * 4096 + a % 4096) as u64),
        None => None,
    }
}

/// Once frame `f` is identity-mapped (as `identity_map` leaves it), the
/// address of `f` translates to itself.
pub proof fn lemma_identity_round_trip(t: ActivePML4, f: u64)
    requires
        f < 0x8_0000_0000,
        t.lookup_page(f) == Some(f),
    ensures
        translation(t, (f * 4096) as u64) == Some((f * 4096) as u64),
{
    let a = (f * 4096) as u64;
    assert(a % 0x1_0000_0000_0000 == a);
    assert(a / 4096 == f);
    assert(a % 4096 == 0);
}

/// A huge PD entry that maps the 2 MiB at physical `base` to the same
/// virtual addresses translates every address in that range to itself,
/// whatever lies below it.
pub proof fn lemma_huge_page_translation(m: PhysMem, root: u64, base: u64, k: u64)
    requires
        base % 0x20_0000 == 0,
        base < 0x8000_0000_0000,
        k < 0x20_0000,
        pd_of(m, root, base / 4096) is Some,
        is_present(m.read(pd_of(m, root, base / 4096).unwrap(), pd_index(base / 4096))),
        is_huge(m.read(pd_of(m, root, base / 4096).unwrap(), pd_index(base / 4096))),
        frame_of(m.read(pd_of(m, root, base / 4096).unwrap(), pd_index(base / 4096))) == base
            / 4096,
    ensures
        lookup(m, root, page_number((base + k) as u64)) matches Some(f) && f * 4096 + (base + k)
            % 4096 == base + k,
{
    let b = base / 4096;
    let a = (base + k) as u64;
    let q = k / 4096;
    let c = base / 0x20_0000;
    lemma_fundamental_div_mod(k as int, 4096);
    assert(base == c * 0x20_0000);
    assert(b == c * 512) by (nonlinear_arith)
        requires
            base == c * 0x20_0000,
            b == base / 4096,
    ;
    assert(a % 0x1_0000_0000_0000 == a);
    let n = page_number(a);
    assert(n == b + q) by (nonlinear_arith)
        requires
            n == a / 4096,
            a == base + k,
            k == 4096 * q + k % 4096,
            0 <= k % 4096 < 4096,
            base == b * 4096,
    ;
    assert(q < 512);
    assert(n / 512 == c && b / 512 == c && n % 512 == q && b % 512 == 0) by (nonlinear_arith)
        requires
            n == b + q,
            b == c * 512,
            0 <= q < 512,
    ;
    lemma_div_denominator(n as int, 512, 512);
    lemma_div_denominator(b as int, 512, 512);
    lemma_div_denominator(n as int, 0x4_0000, 512);
    lemma_div_denominator(b as int, 0x4_0000, 512);
    assert(pml4_index(n) == pml4_index(b));
    assert(pdpt_index(n) == pdpt_index(b));
    assert(pd_index(n) == pd_index(b));
    assert(pt_index(n) == q);
    assert(pd_of(m, root, n) == pd_of(m, root, b));
    assert(n * 4096 + a % 4096 == a) by (nonlinear_arith)
        requires
            n == b + q,
            a == base + k,
            k == 4096 * q + k % 4096,
            base == b * 4096,
    ;
}

} // verus!

verus! {

/// What `using` guarantees translates to pages: where every entry of the
/// hierarchy at `cr3` is kept but the temporary page's PT entry, every page
/// whose walk does not read that entry translates as before.
pub proof fn lemma_kept_hierarchy_keeps_translations(
    m0: PhysMem,
    m1: PhysMem,
    cr3: u64,
    temp: u64,
    n: u64,
)
    requires
        n < crate::addr::PAGE_LIMIT,
        forall|g: u64, j: int|
            in_hierarchy(m0, cr3, g) && !(Some(g) == pt_of(m0, cr3, temp) && j == pt_index(temp))
                ==> #[trigger] m1.read(g, j) == m0.read(g, j),
        pt_of(m0, cr3, temp) matches Some(t) ==> !path_cell(m0, cr3, n, t, pt_index(temp)),
    ensures
        lookup(m1, cr3, n) == lookup(m0, cr3, n),
{
    assert(m1.read(cr3, pml4_index(n)) == m0.read(cr3, pml4_index(n)));
    if let Some(t3) = pdpt_of(m0, cr3, n) {
        assert(in_hierarchy(m0, cr3, t3));
        assert(m1.read(t3, pdpt_index(n)) == m0.read(t3, pdpt_index(n)));
    }
    if let Some(t2) = pd_of(m0, cr3, n) {
        assert(in_hierarchy(m0, cr3, t2));
        assert(m1.read(t2, pd_index(n)) == m0.read(t2, pd_index(n)));
    }
    if let Some(t1) = pt_of(m0, cr3, n) {
        assert(in_hierarchy(m0, cr3, t1));
        assert(m1.read(t1, pt_index(n)) == m0.read(t1, pt_index(n)));
    }
    lemma_lookup_depends_on_path(m0, m1, cr3, n);
}

} // verus!
