//! Facts drawn from the boot information's kernel sections.
use vstd::prelude::*;

verus! {

/// The lowest and the highest start address among `addrs`, or `None` when
/// there is none.
pub fn kernel_bounds(addrs: &Vec<u64>) -> (r: Option<(u64, u64)>)
    ensures
        r is None <==> addrs@.len() == 0,
        r matches Some((lo, hi)) ==> {
            &&& addrs@.contains(lo)
            &&& addrs@.contains(hi)
            &&& forall|k: int| 0 <= k < addrs@.len() ==> lo <= #[trigger] addrs@[k] <= hi
        },
{
    if addrs.len() == 0 {
        return None;
    }
    let mut lo: u64 = addrs[0];
    let mut hi: u64 = addrs[0];
    let mut i: usize = 1;
    while i < addrs.len()
        invariant
            1 <= i <= addrs@.len(),
            addrs@.contains(lo),
            addrs@.contains(hi),
            forall|k: int| 0 <= k < i ==> lo <= #[trigger] addrs@[k] <= hi,
        decreases addrs@.len() - i,
    {
        let a = addrs[i];
        if a < lo {
            lo = a;
        }
        if a > hi {
            hi = a;
        }
        i = i + 1;
    }
    Some((lo, hi))
}

} // verus!
