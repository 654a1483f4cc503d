//! Page-table entries: a frame number and flag bits packed in 64 bits,
//! laid out as the x86_64 hardware reads them.
use vstd::prelude::*;

verus! {

pub const PRESENT: u64 = 1;
pub const WRITABLE: u64 = 2;
pub const USER_ACCESSIBLE: u64 = 4;
pub const WRITE_THROUGH: u64 = 8;
pub const NO_CACHE: u64 = 16;
pub const ACCESSED: u64 = 32;
pub const DIRTY: u64 = 64;
pub const HUGE_PAGE: u64 = 128;
pub const GLOBAL: u64 = 256;
pub const NO_EXECUTE: u64 = 0x8000_0000_0000_0000;

/// Bits 12 to 51 of an entry hold the physical address of its frame.
pub const ADDRESS_MASK: u64 = 0x000f_ffff_ffff_f000;

/// Frame numbers below this bound fit in an entry's address bits.
pub const FRAME_LIMIT: u64 = 0x100_0000_0000;

pub open spec fn is_unused(e: u64) -> bool {
    e == 0
}

pub open spec fn is_present(e: u64) -> bool {
    e & 1 == 1
}

pub open spec fn is_huge(e: u64) -> bool {
    e & 0x80 == 0x80
}

/// The frame number an entry points to.
pub open spec fn frame_of(e: u64) -> u64 {
    (e & 0x000f_ffff_ffff_f000) >> 12
}

/// The entry that maps `frame` with `flags`, always present.
pub open spec fn leaf_entry(frame: u64, flags: u64) -> u64 {
    ((frame << 12) & 0x000f_ffff_ffff_f000) | (flags & !0x000f_ffff_ffff_f000u64) | 1
}

/// The entry that links a table to the next-level table in `frame`.
pub open spec fn table_entry(frame: u64) -> u64 {
    ((frame << 12) & 0x000f_ffff_ffff_f000) | 1 | 2
}

/// The entry that maps a huge page at `frame` with `flags`.
pub open spec fn huge_entry(frame: u64, flags: u64) -> u64 {
    leaf_entry(frame, flags) | 0x80
}

pub proof fn lemma_frame_of_bound(e: u64)
    ensures
        frame_of(e) < FRAME_LIMIT,
{
    assert((e & 0x000f_ffff_ffff_f000) >> 12 < 0x100_0000_0000u64) by (bit_vector);
}

pub proof fn lemma_leaf_entry(frame: u64, flags: u64)
    requires
        frame < FRAME_LIMIT,
    ensures
        is_present(leaf_entry(frame, flags)),
        !is_unused(leaf_entry(frame, flags)),
        frame_of(leaf_entry(frame, flags)) == frame,
{
    let e = leaf_entry(frame, flags);
    assert(e & 1 == 1 && e != 0) by (bit_vector)
        requires
            e == ((frame << 12) & 0x000f_ffff_ffff_f000) | (flags & !0x000f_ffff_ffff_f000u64) | 1,
    ;
    assert((e & 0x000f_ffff_ffff_f000) >> 12 == frame) by (bit_vector)
        requires
            frame < 0x100_0000_0000u64,
            e == ((frame << 12) & 0x000f_ffff_ffff_f000) | (flags & !0x000f_ffff_ffff_f000u64) | 1,
    ;
}

pub proof fn lemma_huge_entry(frame: u64, flags: u64)
    requires
        frame < FRAME_LIMIT,
    ensures
        is_present(huge_entry(frame, flags)),
        is_huge(huge_entry(frame, flags)),
        frame_of(huge_entry(frame, flags)) == frame,
{
    let e = huge_entry(frame, flags);
    assert(e & 1 == 1 && e & 0x80 == 0x80) by (bit_vector)
        requires
            e == ((frame << 12) & 0x000f_ffff_ffff_f000) | (flags & !0x000f_ffff_ffff_f000u64) | 1
                | 0x80,
    ;
    assert((e & 0x000f_ffff_ffff_f000) >> 12 == frame) by (bit_vector)
        requires
            frame < 0x100_0000_0000u64,
            e == ((frame << 12) & 0x000f_ffff_ffff_f000) | (flags & !0x000f_ffff_ffff_f000u64) | 1
                | 0x80,
    ;
}

pub proof fn lemma_table_entry(frame: u64)
    requires
        frame < FRAME_LIMIT,
    ensures
        is_present(table_entry(frame)),
        !is_huge(table_entry(frame)),
        frame_of(table_entry(frame)) == frame,
{
    let e = table_entry(frame);
    assert(e & 1 == 1 && e & 0x80 != 0x80) by (bit_vector)
        requires
            e == ((frame << 12) & 0x000f_ffff_ffff_f000) | 1 | 2,
    ;
    assert((e & 0x000f_ffff_ffff_f000) >> 12 == frame) by (bit_vector)
        requires
            frame < 0x100_0000_0000u64,
            e == ((frame << 12) & 0x000f_ffff_ffff_f000) | 1 | 2,
    ;
}

/// One page-table entry.
#[derive(Clone, Copy, PartialEq, Eq, Debug, Structural)]
pub struct Entry {
    pub bits: u64,
}

impl Entry {
    pub fn is_unused(&self) -> (r: bool)
        ensures
            r == is_unused(self.bits),
    {
        self.bits == 0
    }

    pub fn is_present(&self) -> (r: bool)
        ensures
            r == is_present(self.bits),
    {
        self.bits & PRESENT == 1
    }

    pub fn is_huge(&self) -> (r: bool)
        ensures
            r == is_huge(self.bits),
    {
        self.bits & HUGE_PAGE == HUGE_PAGE
    }

    /// The frame of a present entry.
    pub fn get_frame(&self) -> (r: Option<u64>)
        ensures
            r == (if is_present(self.bits) {
                Some(frame_of(self.bits))
            } else {
                None
            }),
            r matches Some(f) ==> f < FRAME_LIMIT,
    {
        proof {
            lemma_frame_of_bound(self.bits);
        }
        if self.bits & PRESENT == 1 {
            Some((self.bits & ADDRESS_MASK) >> 12)
        } else {
            None
        }
    }

    /// A present entry mapping `frame` with `flags`; address bits of `flags` are dropped.
    pub fn new(frame: u64, flags: u64) -> (r: Entry)
        requires
            frame < FRAME_LIMIT,
        ensures
            r.bits == leaf_entry(frame, flags),
            is_present(r.bits),
            frame_of(r.bits) == frame,
    {
        proof {
            lemma_leaf_entry(frame, flags);
        }
        Entry { bits: ((frame << 12) & ADDRESS_MASK) | (flags & !ADDRESS_MASK) | PRESENT }
    }

    /// A present, writable entry linking to the next-level table in `frame`.
    pub fn table(frame: u64) -> (r: Entry)
        requires
            frame < FRAME_LIMIT,
        ensures
            r.bits == table_entry(frame),
            is_present(r.bits),
            !is_huge(r.bits),
            frame_of(r.bits) == frame,
    {
        proof {
            lemma_table_entry(frame);
        }
        Entry { bits: ((frame << 12) & ADDRESS_MASK) | PRESENT | WRITABLE }
    }

    /// A present entry mapping a huge page whose first frame is `frame`.
    pub fn huge(frame: u64, flags: u64) -> (r: Entry)
        requires
            frame < FRAME_LIMIT,
        ensures
            r.bits == huge_entry(frame, flags),
            is_present(r.bits),
            is_huge(r.bits),
            frame_of(r.bits) == frame,
    {
        proof {
            lemma_huge_entry(frame, flags);
        }
        Entry {
            bits: ((frame << 12) & ADDRESS_MASK) | (flags & !ADDRESS_MASK) | PRESENT | HUGE_PAGE,
        }
    }

    /// The unused entry.
    pub fn unused() -> (r: Entry)
        ensures
            is_unused(r.bits),
            !is_present(r.bits),
    {
        proof {
            assert(0u64 & 1 == 0) by (bit_vector);
        }
        Entry { bits: 0 }
    }
}

} // verus!

verus! {

pub proof fn lemma_unused_not_present(e: u64)
    requires
        is_unused(e),
    ensures
        !is_present(e),
        !is_huge(e),
{
    assert(e == 0 ==> e & 1 == 0 && e & 0x80 == 0) by (bit_vector);
}

} // verus!
