//! Byte-order swapping for art files: every byte pair after the 32-byte
//! header is swapped in place.
use vstd::prelude::*;

verus! {

/// Swap each byte pair from offset 32 on, leaving the header alone.  A
/// buffer longer than the header must have even length, so that every
/// started pair is complete.
pub fn swap_art_bytes(buf: &mut Vec<u8>)
    requires
        old(buf)@.len() <= 32 || old(buf)@.len() % 2 == 0,
    ensures
        final(buf)@.len() == old(buf)@.len(),
        forall|j: int| 0 <= j < old(buf)@.len() && j < 32 ==> final(buf)@[j] == old(buf)@[j],
        forall|j: int|
            32 <= j < old(buf)@.len() && j % 2 == 0 ==> final(buf)@[j] == old(buf)@[j + 1],
        forall|j: int|
            32 <= j < old(buf)@.len() && j % 2 == 1 ==> final(buf)@[j] == old(buf)@[j - 1],
{
    if buf.len() <= 32 {
        return ;
    }
    let n = buf.len();
    let mut i: usize = 32;
    while i < n
        invariant
            32 <= i <= n,
            i % 2 == 0,
            n == buf@.len(),
            n == old(buf)@.len(),
            n % 2 == 0,
            forall|j: int| 0 <= j < 32 ==> buf@[j] == old(buf)@[j],
            forall|j: int| 32 <= j < i && j % 2 == 0 ==> buf@[j] == old(buf)@[j + 1],
            forall|j: int| 32 <= j < i && j % 2 == 1 ==> buf@[j] == old(buf)@[j - 1],
            forall|j: int| i <= j < n ==> buf@[j] == old(buf)@[j],
        decreases n - i,
    {
        let byte1 = buf[i];
        let byte2 = buf[i + 1];
        buf.set(i, byte2);
        buf.set(i + 1, byte1);
        i = i + 2;
    }
}

} // verus!
