use vstd::prelude::*;
use crate::buffer::{SampleBuffer, drain_len, drained};
use crate::codec::{decode, encode, lemma_round_trip, samples_of, wire_of};

verus! {

/// The largest payload that one datagram can carry, in bytes; a receive
/// loop reads into a buffer of this size.
pub const MAX_DATAGRAM_LEN: usize = 65507;

/// One turn of the send loop: takes everything the outbound buffer holds and
/// returns its wire form as the payload of one datagram, or `None` when there
/// was nothing to send, so that no empty datagram goes out. Either way the
/// outbound buffer is left empty, so no sample is sent twice.
pub fn take_datagram(outbound: &mut SampleBuffer) -> (r: Option<Vec<u8>>)
    ensures
        final(outbound)@ == Seq::<u32>::empty(),
        old(outbound)@.len() == 0 <==> r is None,
        r matches Some(d) ==> d@ == wire_of(old(outbound)@),
{
    let block = outbound.snapshot_and_clear();
    if block.len() == 0 {
        None
    } else {
        Some(encode(&block))
    }
}

/// One turn of the receive loop: decodes the payload of one datagram and
/// lets it replace whatever the inbound buffer held, played or not. A
/// trailing partial sample is dropped; no payload is refused.
pub fn accept_datagram(inbound: &mut SampleBuffer, payload: &Vec<u8>)
    ensures
        final(inbound)@ == samples_of(payload@),
{
    let block = decode(payload);
    inbound.replace(block);
}

/// A block captured on one side, sent as one datagram and received on the
/// other, reaches playback bit for bit: an output request of any size is
/// served the same leading samples of the block as it would be by the
/// capturing side's own buffer, and one with room for the whole block is
/// served the whole block.
pub proof fn lemma_end_to_end(block: Seq<u32>, request: int)
    requires
        request >= 0,
    ensures
        samples_of(wire_of(block)) == block,
        drained(samples_of(wire_of(block)), request) == block.take(drain_len(block, request)),
        request >= block.len() ==> drained(samples_of(wire_of(block)), request) == block,
{
    lemma_round_trip(block);
    assert(block.take(block.len() as int) =~= block);
}

} // verus!
