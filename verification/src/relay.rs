//! The data of a published stream as the server gathers it.

use vstd::prelude::*;

verus! {

/// Appends `chunk`, just received from a publisher, to the data gathered
/// so far on its stream.
pub fn accumulate(packet: &mut Vec<u8>, chunk: &[u8])
    ensures
        final(packet)@ == old(packet)@ + chunk@,
{
    let ghost start = packet@;
    let mut i: usize = 0;
    while i < chunk.len()
        invariant
            i <= chunk.len(),
            packet@ =~= start + chunk@.subrange(0, i as int),
        decreases chunk.len() - i,
    {
        packet.push(chunk[i]);
        i = i + 1;
    }
    assert(chunk@.subrange(0, chunk@.len() as int) =~= chunk@);
}

} // verus!
