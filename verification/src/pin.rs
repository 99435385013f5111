use vstd::prelude::*;

verus! {

/// Whether a pin listing returned by an IPFS node names `id`: the decision
/// behind "is this block pinned", applied to the parsed listing.
pub fn pin_listing_contains(keys: &Vec<Vec<u8>>, id: &Vec<u8>) -> (r: bool)
    ensures
        r == exists|j: int| 0 <= j < keys@.len() && (#[trigger] keys@[j])@ == id@,
{
    let n: usize = keys.len();
    let mut i: usize = 0;
    while i < n
        invariant
            n == keys@.len(),
            i <= n,
            forall|j: int| 0 <= j < i ==> (#[trigger] keys@[j])@ != id@,
        decreases n - i,
    {
        if crate::ids::bytes_eq(&keys[i], id) {
            return true;
        }
        i = i + 1;
    }
    false
}

/// Whether an archive import was accepted: the decision behind syndication,
/// applied to the HTTP status the node answered with.
pub fn import_accepted(status: u16) -> (r: bool)
    ensures
        r == (status == 200),
{
    status == 200
}

} // verus!
