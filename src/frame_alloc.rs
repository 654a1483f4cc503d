//! A stack of free physical frames.
use vstd::prelude::*;
use crate::addr::PhysicalPage;

verus! {

/// Free frames; the most recently freed frame is handed out first.
pub struct FrameStack {
    free: Vec<u64>,
}

impl View for FrameStack {
    type V = Seq<u64>;

    closed spec fn view(&self) -> Seq<u64> {
        self.free@
    }
}

/// The frame number that `allocate` hands out from `free`.
pub open spec fn next_frame(free: Seq<u64>) -> Option<u64> {
    if free.len() == 0 {
        None
    } else {
        Some(free.last())
    }
}

/// A frame handed back is the next one handed out.
pub proof fn lemma_freed_frame_comes_back(free: Seq<u64>, f: u64)
    ensures
        next_frame(free.push(f)) == Some(f),
        free.push(f).drop_last() =~= free,
{
}

impl FrameStack {
    /// A stack holding `frames`; the last one is handed out first.
    pub fn new(frames: Vec<u64>) -> (r: FrameStack)
        ensures
            r@ == frames@,
    {
        FrameStack { free: frames }
    }

    /// Number of free frames.
    pub fn len(&self) -> (r: usize)
        ensures
            r == self@.len(),
    {
        self.free.len()
    }

    /// Takes a free frame, or `None` when none is left.
    pub fn allocate(&mut self) -> (r: Option<PhysicalPage>)
        ensures
            r == (match next_frame(old(self)@) {
                Some(n) => Some(PhysicalPage { number: n }),
                None => None,
            }),
            final(self)@ == (if old(self)@.len() == 0 {
                old(self)@
            } else {
                old(self)@.drop_last()
            }),
    {
        match self.free.pop() {
            Some(n) => Some(PhysicalPage { number: n }),
            None => None,
        }
    }

    /// Gives `frame` back.
    pub fn deallocate(&mut self, frame: PhysicalPage)
        ensures
            final(self)@ == old(self)@.push(frame.number),
    {
        self.free.push(frame.number);
    }
}

} // verus!
