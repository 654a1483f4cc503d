use sos_paging::boot_info::kernel_bounds;
use sos_paging::recursive::{next_table_address, PML4_ADDRESS};
use sos_paging::addr::{align_down, align_up, PAddr, PhysicalPage, VAddr, VirtualPage};
use sos_paging::entry::{Entry, HUGE_PAGE, NO_EXECUTE, PRESENT, WRITABLE};
use sos_paging::frame_alloc::FrameStack;
use sos_paging::memory::PhysMem;
use sos_paging::paging::{
    create_page_tables, ActivePML4, ActivePageTable, Flush, InactivePageTable, TempPage,
};

/// Memory of `frames` frames with frame 0 as a recursive top-level table.
fn boot(frames: usize) -> ActivePML4 {
    let mut mem = PhysMem::new(frames);
    mem.write_entry(0, 511, Entry::table(0).bits);
    ActivePML4::new(mem, PhysicalPage { number: 0 }).unwrap()
}

/// A stack that hands out `frames` in the order given.
fn stack(frames: &[u64]) -> FrameStack {
    let mut v: Vec<u64> = frames.to_vec();
    v.reverse();
    FrameStack::new(v)
}

fn page_at(addr: u64) -> VirtualPage {
    VirtualPage::containing(VAddr::new(addr).unwrap())
}

#[test]
fn map_then_translate_page() {
    let mut t = boot(16);
    let mut alloc = stack(&[1, 2, 3]);
    let page = page_at(0x40_0000);
    assert!(!t.is_mapped(&page));
    t.map(page, PhysicalPage { number: 9 }, WRITABLE, &mut alloc);
    assert_eq!(t.translate_page(page), Some(PhysicalPage { number: 9 }));
    assert!(t.is_mapped(&page));
    assert!(!t.is_mapped(&page_at(0x40_1000)));
}

#[test]
fn unmap_clears_and_frees_frame() {
    let mut t = boot(16);
    let mut alloc = stack(&[1, 2, 3, 4, 5]);
    let page = page_at(0x40_0000);
    t.map_to_any(page, WRITABLE, &mut alloc);
    let frame = t.translate_page(page).unwrap();
    assert_eq!(frame, PhysicalPage { number: 1 });
    t.unmap(page, &mut alloc);
    assert_eq!(t.translate_page(page), None);
    assert!(!t.is_mapped(&page));
    assert_eq!(alloc.allocate(), Some(frame));
    assert_eq!(alloc.allocate(), Some(PhysicalPage { number: 5 }));
}

#[test]
fn unmap_keeps_tables() {
    let mut t = boot(16);
    let mut alloc = stack(&[1, 2, 3]);
    let page = page_at(0x40_0000);
    t.map(page, PhysicalPage { number: 9 }, 0, &mut alloc);
    t.unmap(page, &mut alloc);
    assert_eq!(alloc.len(), 1);
    let mut none_left = stack(&[]);
    t.map(page, PhysicalPage { number: 10 }, 0, &mut none_left);
    assert_eq!(t.translate_page(page), Some(PhysicalPage { number: 10 }));
}

#[test]
fn identity_map_round_trip() {
    let mut t = boot(16);
    let mut alloc = stack(&[1, 2, 3]);
    let frame = PhysicalPage { number: 0x1234 };
    t.identity_map(frame, WRITABLE, &mut alloc);
    let base = frame.base_address();
    assert_eq!(base, PAddr { addr: 0x123_4000 });
    assert_eq!(t.translate(VAddr::new(base.addr).unwrap()), Some(base));
    assert_eq!(
        t.translate(VAddr::new(base.addr + 0x7ff).unwrap()),
        Some(PAddr { addr: 0x123_47ff })
    );
}

#[test]
fn translate_adds_page_offset() {
    let mut t = boot(16);
    let mut alloc = stack(&[1, 2, 3]);
    t.map(page_at(0x7f_0000_3000), PhysicalPage { number: 0x42 }, 0, &mut alloc);
    assert_eq!(
        t.translate(VAddr::new(0x7f_0000_3abc).unwrap()),
        Some(PAddr { addr: 0x4_2abc })
    );
    assert_eq!(t.translate(VAddr::new(0x7f_0000_4abc).unwrap()), None);
}

#[test]
fn huge_pd_entry_short_circuits() {
    let mut mem = PhysMem::new(4);
    mem.write_entry(0, 511, Entry::table(0).bits);
    mem.write_entry(0, 0, Entry::table(1).bits);
    mem.write_entry(1, 0, Entry::table(2).bits);
    // PD entry 3 maps the 2 MiB at 0x60_0000 onto itself; no PT exists.
    mem.write_entry(2, 3, Entry::huge(0x600, WRITABLE).bits);
    let t = ActivePML4::new(mem, PhysicalPage { number: 0 }).unwrap();
    let base: u64 = 0x60_0000;
    for k in [0u64, 1, 0x1234, 0xfff, 0x1000, 0x1f_ffff] {
        assert_eq!(
            t.translate(VAddr::new(base + k).unwrap()),
            Some(PAddr { addr: base + k })
        );
    }
    assert_eq!(t.translate(VAddr::new(base + 0x20_0000).unwrap()), None);
    assert_eq!(t.translate_page(page_at(0x60_5000)), Some(PhysicalPage { number: 0x605 }));
}

#[test]
fn huge_pdpt_entry_maps_one_gib() {
    let mut mem = PhysMem::new(4);
    mem.write_entry(0, 511, Entry::table(0).bits);
    mem.write_entry(0, 0, Entry::table(1).bits);
    mem.write_entry(1, 1, Entry::huge(0x8_0000, 0).bits);
    let t = ActivePML4::new(mem, PhysicalPage { number: 0 }).unwrap();
    assert_eq!(
        t.translate(VAddr::new(0x4000_0000 + 0x123_4567).unwrap()),
        Some(PAddr { addr: 0x8000_0000 + 0x123_4567 })
    );
}

#[test]
fn map_consumes_three_tables_then_none() {
    let mut t = boot(64);
    let frames: Vec<u64> = (1..=8).map(|k| k * 0x1000 / 4096).collect();
    let mut alloc = stack(&frames);
    assert_eq!(frames[..3], [1, 2, 3]);
    t.map_to_any(page_at(0x40_0000), WRITABLE, &mut alloc);
    // one leaf frame and three fresh tables
    assert_eq!(alloc.len(), 4);
    assert_eq!(t.translate_page(page_at(0x40_0000)), Some(PhysicalPage { number: 1 }));
    t.map_to_any(page_at(0x40_1000), WRITABLE, &mut alloc);
    // the tables exist now: only the leaf frame
    assert_eq!(alloc.len(), 3);
    assert_eq!(t.translate_page(page_at(0x40_1000)), Some(PhysicalPage { number: 5 }));
    // the fresh tables are linked in order PDPT, PD, PT
    let mem = t.memory_ref();
    assert_eq!(mem.read_entry(0, 0), Entry::table(2).bits);
    assert_eq!(mem.read_entry(2, 0), Entry::table(3).bits);
    assert_eq!(mem.read_entry(3, 2), Entry::table(4).bits);
}

#[test]
fn new_requires_recursive_entry() {
    let mem = PhysMem::new(4);
    assert!(ActivePML4::new(mem, PhysicalPage { number: 0 }).is_none());
    let mut mem = PhysMem::new(4);
    mem.write_entry(1, 511, Entry::table(2).bits);
    assert!(ActivePML4::new(mem, PhysicalPage { number: 1 }).is_none());
    let mem = PhysMem::new(4);
    assert!(ActivePML4::new(mem, PhysicalPage { number: 4 }).is_none());
}

#[test]
fn recursive_slot_maps_tables() {
    let t = boot(4);
    // the page at the top of the address space is the top-level table itself
    let top = page_at(0xffff_ffff_ffff_f000);
    assert_eq!(t.translate_page(top), Some(PhysicalPage { number: 0 }));
}

#[test]
fn inactive_table_is_zeroed_and_recursive() {
    let mut t = boot(8);
    let mut alloc = stack(&[1, 2, 3]);
    t.map(page_at(0x1000), PhysicalPage { number: 7 }, 0, &mut alloc);
    let mut active = ActivePageTable::new(t);
    let fresh = InactivePageTable::new(PhysicalPage { number: 5 }, &mut active);
    assert_eq!(fresh.pml4_frame(), PhysicalPage { number: 5 });
    let mem = active.pml4_ref().memory_ref();
    assert_eq!(mem.read_entry(5, 511), Entry::table(5).bits);
    assert_eq!(mem.read_entry(5, 0), 0);
    assert_eq!(
        active.pml4_ref().translate_page(page_at(0x1000)),
        Some(PhysicalPage { number: 7 })
    );
}

#[test]
fn using_populates_other_hierarchy_only() {
    let mut t = boot(16);
    let mut alloc = stack(&[1, 2, 3]);
    t.map(page_at(0x1000), PhysicalPage { number: 0x99 }, 0, &mut alloc);
    let mut active = ActivePageTable::new(t);
    let mut fresh = InactivePageTable::new(PhysicalPage { number: 5 }, &mut active);
    let mut temp = TempPage::new(page_at(0xdeca_f000));
    active.using(&mut fresh, &mut temp, |mut p: ActivePML4| {
        let mut more = stack(&[6, 7, 8]);
        assert_eq!(p.translate_page(page_at(0x1000)), None);
        p.map(page_at(0x2000), PhysicalPage { number: 0x77 }, 0, &mut more);
        p
    });
    let p = active.pml4_ref();
    assert_eq!(p.translate_page(page_at(0x1000)), Some(PhysicalPage { number: 0x99 }));
    assert_eq!(p.translate_page(page_at(0x2000)), None);
    let old = active.replace(&mut fresh);
    assert_eq!(old.pml4_frame(), PhysicalPage { number: 0 });
    let p = active.pml4_ref();
    assert_eq!(p.translate_page(page_at(0x2000)), Some(PhysicalPage { number: 0x77 }));
    assert_eq!(p.translate_page(page_at(0x1000)), None);
}

#[test]
fn using_unmaps_temp_page() {
    let mut t = boot(16);
    let mut alloc = stack(&[1, 2, 3, 4]);
    let temp_page = page_at(0xdeca_f000);
    t.map(temp_page, PhysicalPage { number: 0x50 }, WRITABLE, &mut alloc);
    t.map(page_at(0xdeca_e000), PhysicalPage { number: 0x51 }, WRITABLE, &mut alloc);
    let mut active = ActivePageTable::new(t);
    let mut fresh = InactivePageTable::new(PhysicalPage { number: 4 }, &mut active);
    let mut temp = TempPage::new(temp_page);
    active.using(&mut fresh, &mut temp, |p: ActivePML4| p);
    let p = active.pml4_ref();
    assert_eq!(p.translate_page(temp_page), None);
    assert_eq!(p.translate_page(page_at(0xdeca_e000)), Some(PhysicalPage { number: 0x51 }));
}

#[test]
fn temp_page_unmap_reports_frame() {
    let mut t = boot(8);
    let mut alloc = stack(&[1, 2, 3]);
    let mut temp = TempPage::new(page_at(0x5000));
    assert_eq!(temp.unmap(&mut t), None);
    t.map(page_at(0x5000), PhysicalPage { number: 0x33 }, 0, &mut alloc);
    assert_eq!(temp.unmap(&mut t), Some(PhysicalPage { number: 0x33 }));
    assert_eq!(temp.unmap(&mut t), None);
}

#[test]
fn entry_bits_match_hardware_layout() {
    assert_eq!(Entry::new(5, WRITABLE).bits, 0x5003);
    assert_eq!(Entry::new(5, NO_EXECUTE).bits, 0x8000_0000_0000_5001);
    assert_eq!(Entry::new(5, 0xf_f000).bits, 0x5001);
    assert_eq!(Entry::table(0x12345).bits, 0x1234_5003);
    assert_eq!(Entry::huge(0x200, 0).bits, 0x20_0000 | HUGE_PAGE | PRESENT);
    let e = Entry::new(0xab_cdef, 0);
    assert!(e.is_present());
    assert!(!e.is_huge());
    assert!(!e.is_unused());
    assert_eq!(e.get_frame(), Some(0xab_cdef));
    assert!(Entry::unused().is_unused());
    assert_eq!(Entry::unused().get_frame(), None);
    assert!(Entry::huge(1, 0).is_huge());
}

#[test]
fn alignment_helpers() {
    assert_eq!(align_down(0x1234, 0x1000), 0x1000);
    assert_eq!(align_down(0x2000, 0x1000), 0x2000);
    assert_eq!(align_up(0x1234, 0x1000), 0x2000);
    assert_eq!(align_up(0x2000, 0x1000), 0x2000);
    assert_eq!(align_up(0, 0x1000), 0);
}

#[test]
fn canonical_addresses() {
    assert!(VAddr::new(0x7fff_ffff_ffff).is_some());
    assert!(VAddr::new(0x8000_0000_0000).is_none());
    assert!(VAddr::new(0xffff_7fff_ffff_ffff).is_none());
    assert!(VAddr::new(0xffff_8000_0000_0000).is_some());
    let high = page_at(0xffff_8000_0000_1000);
    assert_eq!(high.number, 0x8_0000_0001);
    assert_eq!(high.base(), VAddr { addr: 0xffff_8000_0000_1000 });
    assert_eq!(page_at(0x40_0abc).base(), VAddr { addr: 0x40_0000 });
    assert_eq!(high.pml4_index(), 256);
    let p = page_at(0x7f_c060_3000);
    assert_eq!((p.pml4_index(), p.pdpt_index(), p.pd_index(), p.pt_index()), (0, 511, 3, 3));
    assert_eq!(PhysicalPage::containing(PAddr { addr: 0x5fff }), PhysicalPage { number: 5 });
}

#[test]
fn empty_stack_gives_nothing() {
    let mut alloc = stack(&[]);
    assert_eq!(alloc.allocate(), None);
    alloc.deallocate(PhysicalPage { number: 3 });
    assert_eq!(alloc.len(), 1);
    assert_eq!(alloc.allocate(), Some(PhysicalPage { number: 3 }));
}

fn bootstrap() -> ActivePML4 {
    create_page_tables(
        PhysMem::new(16),
        PhysicalPage { number: 0 },
        PhysicalPage { number: 1 },
        PhysicalPage { number: 2 },
    )
}

#[test]
fn bootstrap_identity_maps_first_gib() {
    let t = bootstrap();
    let tr = |a: u64| t.translate(VAddr::new(a).unwrap());
    // address 0, the second PT entry, the second and the 300th PD entry
    assert_eq!(tr(0), Some(PAddr { addr: 0 }));
    assert_eq!(tr(4096), Some(PAddr { addr: 4096 }));
    assert_eq!(tr(512 * 4096), Some(PAddr { addr: 512 * 4096 }));
    assert_eq!(tr(300 * 512 * 4096), Some(PAddr { addr: 300 * 512 * 4096 }));
    // the second PDPT entry is unmapped; the byte before it is the last mapped one
    assert_eq!(tr(512 * 512 * 4096), None);
    assert_eq!(tr(512 * 512 * 4096 - 1), Some(PAddr { addr: 512 * 512 * 4096 - 1 }));
    let e = t.memory_ref().read_entry(2, 3);
    assert_eq!(e, 0x60_0000 | 0b1000_0011);
}

#[test]
fn map_and_unmap_beyond_bootstrap() {
    let mut t = bootstrap();
    let addr = VAddr::new(42 * 512 * 512 * 4096).unwrap();
    let page = VirtualPage::containing(addr);
    let mut alloc = stack(&[3, 4, 5, 6, 7]);
    let frame = alloc.allocate().unwrap();
    assert_eq!(t.translate(addr), None);
    t.map(page, frame, 0, &mut alloc);
    assert_eq!(t.translate(addr), Some(frame.base_address()));
    // a new PD and PT under the existing PDPT
    assert_eq!(alloc.allocate(), Some(PhysicalPage { number: 6 }));
    t.unmap(page, &mut alloc);
    assert_eq!(t.translate(addr), None);
    assert_eq!(alloc.allocate(), Some(frame));
}

#[test]
fn kernel_bounds_of_sections() {
    assert_eq!(kernel_bounds(&vec![]), None);
    assert_eq!(kernel_bounds(&vec![0x10_0000]), Some((0x10_0000, 0x10_0000)));
    assert_eq!(
        kernel_bounds(&vec![0x10_3000, 0x10_0000, 0x10_8000, 0x10_5000]),
        Some((0x10_0000, 0x10_8000))
    );
}

#[test]
fn map_over_huge_page_region_is_refused_by_translation() {
    // a page inside a huge mapping already translates, so mapping it is excluded
    let t = bootstrap();
    assert!(t.is_mapped(&page_at(0x20_0000)));
    assert_eq!(t.translate_page(page_at(0x20_3000)), Some(PhysicalPage { number: 0x203 }));
}

#[test]
fn recursive_table_addresses() {
    let pml4 = VAddr::new(PML4_ADDRESS).unwrap();
    let pdpt0 = next_table_address(pml4, 0);
    assert_eq!(pdpt0, VAddr { addr: 0xffff_ffff_ffe0_0000 });
    assert_eq!(next_table_address(pml4, 5), VAddr { addr: 0xffff_ffff_ffe0_5000 });
    let pd00 = next_table_address(pdpt0, 0);
    assert_eq!(pd00, VAddr { addr: 0xffff_ffff_c000_0000 });
    assert_eq!(next_table_address(pd00, 0), VAddr { addr: 0xffff_ff80_0000_0000 });
    assert_eq!(next_table_address(pd00, 3), VAddr { addr: 0xffff_ff80_0000_3000 });
}

#[test]
fn recursive_addresses_reach_tables() {
    let t = bootstrap();
    let pml4 = VAddr::new(PML4_ADDRESS).unwrap();
    let pdpt0 = next_table_address(pml4, 0);
    let pd00 = next_table_address(pdpt0, 0);
    assert_eq!(t.translate(pml4), Some(PAddr { addr: 0 }));
    assert_eq!(t.translate(pdpt0), Some(PAddr { addr: 0x1000 }));
    assert_eq!(t.translate(pd00), Some(PAddr { addr: 0x2000 }));
}

#[test]
fn temp_page_maps_one_frame() {
    let mut t = boot(8);
    let mut alloc = stack(&[1, 2, 3]);
    let mut temp = TempPage::new(page_at(0xdeca_f000));
    temp.map(PhysicalPage { number: 0x44 }, &mut t, &mut alloc);
    assert_eq!(t.translate_page(page_at(0xdeca_f000)), Some(PhysicalPage { number: 0x44 }));
    assert_eq!(temp.unmap(&mut t), Some(PhysicalPage { number: 0x44 }));
    let mut none_left = stack(&[]);
    temp.map(PhysicalPage { number: 0x45 }, &mut t, &mut none_left);
    assert_eq!(t.translate_page(page_at(0xdeca_f000)), Some(PhysicalPage { number: 0x45 }));
}

#[test]
fn map_writes_exact_entries() {
    let mut t = boot(16);
    let mut alloc = stack(&[1, 2, 3]);
    let page = page_at(0x40_0000);
    t.map(page, PhysicalPage { number: 9 }, WRITABLE | NO_EXECUTE, &mut alloc);
    let mem = t.memory_ref();
    // the leaf carries the flags and the present bit
    assert_eq!(mem.read_entry(3, 0), Entry::new(9, WRITABLE | NO_EXECUTE).bits);
    assert_eq!(mem.read_entry(3, 0), 0x8000_0000_0000_9003);
    // new tables hold nothing but their path entry
    for i in 1..512 {
        assert_eq!(mem.read_entry(3, i), 0);
    }
    for i in (0..512).filter(|&i| i != 2) {
        assert_eq!(mem.read_entry(2, i), 0);
    }
    assert_eq!(mem.read_entry(2, 2), Entry::table(3).bits);
}

#[test]
fn bootstrap_writes_exact_entries_and_nothing_above() {
    let t = bootstrap();
    let mem = t.memory_ref();
    assert_eq!(mem.read_entry(0, 511), 0x0003);
    assert_eq!(mem.read_entry(0, 0), 0x1003);
    assert_eq!(mem.read_entry(1, 0), 0x2003);
    for i in 0..512u64 {
        assert_eq!(mem.read_entry(2, i as usize), i * 0x20_0000 | 0b1000_0011);
    }
    assert_eq!(t.translate(VAddr::new(42 * 512 * 512 * 4096).unwrap()), None);
}

#[test]
fn using_unmaps_temp_page_and_restores_slot() {
    let mut t = boot(16);
    let mut alloc = stack(&[1, 2, 3]);
    let temp_page = page_at(0xdeca_f000);
    t.map(temp_page, PhysicalPage { number: 0x50 }, WRITABLE, &mut alloc);
    let mut active = ActivePageTable::new(t);
    let mut fresh = InactivePageTable::new(PhysicalPage { number: 6 }, &mut active);
    let mut temp = TempPage::new(temp_page);
    let mut seen = None;
    active.using(&mut fresh, &mut temp, |p: ActivePML4| {
        seen = Some(p.root_slot());
        p
    });
    assert_eq!(seen, Some(Entry::table(6).bits));
    assert_eq!(active.pml4_ref().root_slot(), Entry::table(0).bits);
    assert_eq!(active.pml4_ref().translate_page(temp_page), None);
}

#[test]
fn flushes_are_recorded() {
    let mut t = boot(16);
    let mut alloc = stack(&[1, 2, 3]);
    let page = page_at(0x40_0000);
    t.map(page, PhysicalPage { number: 9 }, 0, &mut alloc);
    assert!(t.flush_log_vec().is_empty());
    t.unmap(page, &mut alloc);
    assert_eq!(t.flush_log_vec(), &vec![Flush::Page(0x400)]);
    let mut active = ActivePageTable::new(t);
    let mut fresh = InactivePageTable::new(PhysicalPage { number: 6 }, &mut active);
    let mut temp = TempPage::new(page_at(0xdeca_f000));
    active.using(&mut fresh, &mut temp, |p: ActivePML4| p);
    assert_eq!(
        active.pml4_ref().flush_log_vec(),
        &vec![Flush::Page(0x400), Flush::All, Flush::All]
    );
    active.replace(&mut fresh);
    assert_eq!(active.pml4_ref().flush_log_vec().len(), 4);
}

#[test]
fn can_map_decides_the_path() {
    let mut t = boot(16);
    let mut alloc = stack(&[1, 2, 3]);
    assert!(t.can_map(page_at(0x40_0000)));
    t.map(page_at(0x40_0000), PhysicalPage { number: 9 }, 0, &mut alloc);
    assert!(!t.can_map(page_at(0x40_0000)));
    assert!(t.can_map(page_at(0x40_1000)));
    let b = bootstrap();
    assert!(!b.can_map(page_at(0x20_0000)));
    assert!(b.can_map(page_at(0x4000_0000)));
}
