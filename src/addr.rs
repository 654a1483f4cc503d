//! Physical and virtual addresses, frames and pages.
use vstd::prelude::*;
use vstd::arithmetic::div_mod::lemma_fundamental_div_mod;

verus! {

pub const PAGE_SIZE: u64 = 4096;

/// Number of pages in the 48-bit virtual address space.
pub const PAGE_LIMIT: u64 = 0x10_0000_0000;

/// Bits 48 to 63 of a canonical upper-half address.
pub const SIGN_EXTENSION: u64 = 0xffff_0000_0000_0000;

/// `x` rounded down to a multiple of `to`.
pub fn align_down(x: u64, to: u64) -> (r: u64)
    requires
        to > 0,
    ensures
        r == to * (x / to),
{
    proof {
        lemma_fundamental_div_mod(x as int, to as int);
    }
    x - x % to
}

/// `x` rounded up to a multiple of `to`.
pub fn align_up(x: u64, to: u64) -> (r: u64)
    requires
        to > 0,
        x + to - 1 <= u64::MAX,
    ensures
        r == to * ((x + to - 1) as int / to as int),
{
    align_down(x + (to - 1), to)
}

/// A physical address.
#[derive(Clone, Copy, PartialEq, Eq, Debug, Structural)]
pub struct PAddr {
    pub addr: u64,
}

/// Canonical: bits 48 to 63 all equal bit 47.
pub open spec fn is_canonical(a: u64) -> bool {
    a < 0x8000_0000_0000 || a >= 0xffff_8000_0000_0000
}

/// A canonical virtual address.
#[derive(Clone, Copy, PartialEq, Eq, Debug, Structural)]
pub struct VAddr {
    pub addr: u64,
}

impl VAddr {
    /// The address `a`, if it is canonical.
    pub fn new(a: u64) -> (r: Option<VAddr>)
        ensures
            r == (if is_canonical(a) {
                Some(VAddr { addr: a })
            } else {
                None
            }),
    {
        if a < 0x8000_0000_0000 || a >= 0xffff_8000_0000_0000 {
            Some(VAddr { addr: a })
        } else {
            None
        }
    }

    /// Offset of the address within its page.
    pub fn page_offset(&self) -> (r: u64)
        ensures
            r == self.addr % 4096,
    {
        self.addr % PAGE_SIZE
    }
}

/// A 4 KiB physical frame, by number (`address / 4096`).
#[derive(Clone, Copy, PartialEq, Eq, PartialOrd, Ord, Debug, Structural)]
pub struct PhysicalPage {
    pub number: u64,
}

impl PhysicalPage {
    /// The frame that holds `a`.
    pub fn containing(a: PAddr) -> (r: PhysicalPage)
        ensures
            r.number == a.addr / 4096,
    {
        PhysicalPage { number: a.addr / PAGE_SIZE }
    }

    /// The address of the frame's first byte.
    pub fn base_address(&self) -> (r: PAddr)
        requires
            self.number < 0x10_0000_0000_0000,
        ensures
            r.addr == self.number * 4096,
    {
        PAddr { addr: self.number * PAGE_SIZE }
    }
}

/// A 4 KiB virtual page, by number within the 48-bit address space.
#[derive(Clone, Copy, PartialEq, Eq, PartialOrd, Ord, Debug, Structural)]
pub struct VirtualPage {
    pub number: u64,
}

/// The page number of a canonical address.
pub open spec fn page_number(a: u64) -> u64 {
    ((a % 0x1_0000_0000_0000) / 4096) as u64
}

/// The canonical address of the first byte of page `n`.
pub open spec fn page_base(n: u64) -> u64 {
    if n < 0x8_0000_0000 {
        (n * 4096) as u64
    } else {
        (n * 4096 + 0xffff_0000_0000_0000) as u64
    }
}

pub open spec fn pml4_index(n: u64) -> int {
    ((n / 0x800_0000) % 512) as int
}

pub open spec fn pdpt_index(n: u64) -> int {
    ((n / 0x4_0000) % 512) as int
}

pub open spec fn pd_index(n: u64) -> int {
    ((n / 512) % 512) as int
}

pub open spec fn pt_index(n: u64) -> int {
    (n % 512) as int
}

impl VirtualPage {
    pub open spec fn wf(&self) -> bool {
        self.number < PAGE_LIMIT
    }

    /// The page that holds `v`.
    pub fn containing(v: VAddr) -> (r: VirtualPage)
        ensures
            r.number == page_number(v.addr),
            r.wf(),
    {
        VirtualPage { number: (v.addr % 0x1_0000_0000_0000) / PAGE_SIZE }
    }

    /// The address of the page's first byte, sign-extended.
    pub fn base(&self) -> (r: VAddr)
        requires
            self.wf(),
        ensures
            r.addr == page_base(self.number),
            is_canonical(r.addr),
            page_number(r.addr) == self.number,
    {
        if self.number < 0x8_0000_0000 {
            VAddr { addr: self.number * PAGE_SIZE }
        } else {
            VAddr { addr: self.number * PAGE_SIZE + SIGN_EXTENSION }
        }
    }

    pub fn pml4_index(&self) -> (r: usize)
        ensures
            r == pml4_index(self.number),
            r < 512,
    {
        (self.number / 0x800_0000 % 512) as usize
    }

    pub fn pdpt_index(&self) -> (r: usize)
        ensures
            r == pdpt_index(self.number),
            r < 512,
    {
        (self.number / 0x4_0000 % 512) as usize
    }

    pub fn pd_index(&self) -> (r: usize)
        ensures
            r == pd_index(self.number),
            r < 512,
    {
        (self.number / 512 % 512) as usize
    }

    pub fn pt_index(&self) -> (r: usize)
        ensures
            r == pt_index(self.number),
            r < 512,
    {
        (self.number % 512) as usize
    }
}

} // verus!
