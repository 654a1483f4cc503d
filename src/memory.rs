//! Physical memory: frames of 512 page-table entries each.
use vstd::prelude::*;

verus! {

/// Number of entries in one page table (and 64-bit words in one frame).
pub const ENTRY_COUNT: usize = 512;

/// The largest number of frames a `PhysMem` may hold.
pub const MAX_FRAMES: usize = 0x10_0000;

/// Two cells of memory coincide only when frame and index both coincide.
proof fn lemma_cell_unique(f: int, i: int, g: int, j: int)
    requires
        0 <= f,
        0 <= g,
        0 <= i < 512,
        0 <= j < 512,
        f * 512 + i == g * 512 + j,
    ensures
        f == g,
        i == j,
{
    assert(f == g) by (nonlinear_arith)
        requires
            0 <= i < 512,
            0 <= j < 512,
            f * 512 + i == g * 512 + j,
    ;
}

proof fn lemma_cell_in_bounds(f: int, i: int, n: int)
    requires
        0 <= f < n,
        0 <= i < 512,
    ensures
        0 <= f * 512 + i < n * 512,
{
    assert(0 <= f * 512 + i < n * 512) by (nonlinear_arith)
        requires
            0 <= f < n,
            0 <= i < 512,
    ;
}

/// Simulated physical memory, frame by frame.
pub struct PhysMem {
    words: Vec<u64>,
    frames: usize,
}

impl PhysMem {
    pub closed spec fn wf(&self) -> bool {
        &&& self.frames <= MAX_FRAMES
        &&& self.words@.len() == self.frames * 512
    }

    /// Number of frames in memory.
    pub closed spec fn frame_count(&self) -> nat {
        self.frames as nat
    }

    /// Entry `i` of the table held in frame `f`; frames outside memory read as zero.
    pub closed spec fn read(&self, f: u64, i: int) -> u64 {
        if f < self.frames && 0 <= i < 512 {
            self.words@[f * 512 + i]
        } else {
            0
        }
    }

    pub proof fn lemma_frame_count_bound(&self)
        requires
            self.wf(),
        ensures
            self.frame_count() <= MAX_FRAMES,
    {
    }

    /// Memory of `frames` zero-filled frames.
    pub fn new(frames: usize) -> (r: PhysMem)
        requires
            frames <= MAX_FRAMES,
        ensures
            r.wf(),
            r.frame_count() == frames,
            forall|f: u64, i: int| #[trigger] r.read(f, i) == 0,
    {
        let n: usize = frames * ENTRY_COUNT;
        let mut words: Vec<u64> = Vec::new();
        let mut k: usize = 0;
        while k < n
            invariant
                n == frames * 512,
                k <= n,
                words@.len() == k,
                forall|m: int| 0 <= m < k ==> words@[m] == 0,
            decreases n - k,
        {
            words.push(0);
            k = k + 1;
        }
        PhysMem { words, frames }
    }

    /// Number of frames in memory.
    pub fn count(&self) -> (r: usize)
        requires
            self.wf(),
        ensures
            r == self.frame_count(),
            r <= MAX_FRAMES,
    {
        self.frames
    }

    /// Reads entry `i` of the table in frame `f` (zero outside memory).
    pub fn read_entry(&self, f: u64, i: usize) -> (r: u64)
        requires
            self.wf(),
        ensures
            r == self.read(f, i as int),
    {
        if f < self.frames as u64 && i < ENTRY_COUNT {
            proof {
                lemma_cell_in_bounds(f as int, i as int, self.frames as int);
            }
            self.words[f as usize * ENTRY_COUNT + i]
        } else {
            0
        }
    }

    /// Writes `v` into entry `i` of the table in frame `f`.
    pub fn write_entry(&mut self, f: u64, i: usize, v: u64)
        requires
            old(self).wf(),
            f < old(self).frame_count(),
            i < 512,
        ensures
            final(self).wf(),
            final(self).frame_count() == old(self).frame_count(),
            forall|g: u64, j: int| #[trigger]
                final(self).read(g, j) == if g == f && j == i {
                    v
                } else {
                    old(self).read(g, j)
                },
    {
        proof {
            lemma_cell_in_bounds(f as int, i as int, self.frames as int);
        }
        let ghost pre = self.words@;
        self.words.set(f as usize * ENTRY_COUNT + i, v);
        proof {
            assert forall|g: u64, j: int| #[trigger]
                self.read(g, j) == if g == f && j == i {
                    v
                } else {
                    old(self).read(g, j)
                } by {
                if g < self.frames && 0 <= j < 512 {
                    lemma_cell_in_bounds(g as int, j, self.frames as int);
                    if g * 512 + j == f * 512 + i {
                        lemma_cell_unique(g as int, j, f as int, i as int);
                    }
                }
            }
        }
    }

    /// Clears every entry of the table in frame `f`.
    pub fn zero_frame(&mut self, f: u64)
        requires
            old(self).wf(),
            f < old(self).frame_count(),
        ensures
            final(self).wf(),
            final(self).frame_count() == old(self).frame_count(),
            forall|g: u64, j: int| #[trigger]
                final(self).read(g, j) == if g == f {
                    0
                } else {
                    old(self).read(g, j)
                },
    {
        let mut i: usize = 0;
        while i < ENTRY_COUNT
            invariant
                self.wf(),
                self.frame_count() == old(self).frame_count(),
                f < self.frame_count(),
                i <= 512,
                forall|g: u64, j: int| #[trigger]
                    self.read(g, j) == if g == f && 0 <= j < i {
                        0
                    } else {
                        old(self).read(g, j)
                    },
            decreases 512 - i,
        {
            self.write_entry(f, i, 0);
            i = i + 1;
        }
    }
}

} // verus!
