//! What enters a session: a buffer of bytes, cut into the packets that it
//! holds one after the other.
//!
//! The opcode of a packet decides its size. Cutting stops where the bytes
//! that are left are fewer than the next opcode asks for, where an opcode is
//! not known, and where a player who has identified starts another
//! `PlayerIdentification`.

use crate::packets::{server_can_decode, server_decoded, server_packet_size, Packet, ServerBound, ServerBoundView};
use crate::stream::concat;
use vstd::prelude::*;
use vstd::slice::slice_subrange;

verus! {

/// The size of an inbound buffer: what fits in one Ethernet frame.
pub const RECEIVE_SIZE: usize = 1460;

/// The opcode of a `PlayerIdentification`.
pub const IDENTIFICATION: u8 = 0x00;

/// Whether cutting stops at the start of `buffer`, for a player who has or
/// has not identified.
pub open spec fn stops(buffer: Seq<u8>, identified: bool) -> bool {
    ||| buffer.len() == 0
    ||| server_packet_size(buffer[0]) == 0
    ||| buffer.len() < server_packet_size(buffer[0])
    ||| (identified && buffer[0] == IDENTIFICATION)
}

/// The packets that a buffer holds, each as its bytes.
pub open spec fn frames(buffer: Seq<u8>, identified: bool) -> Seq<Seq<u8>>
    decreases buffer.len(),
{
    if stops(buffer, identified) {
        Seq::empty()
    } else {
        let size = server_packet_size(buffer[0]) as int;
        seq![buffer.take(size)] + frames(
            buffer.skip(size),
            identified || buffer[0] == IDENTIFICATION,
        )
    }
}

/// The number of bytes at the start of a buffer that its packets take up.
pub open spec fn consumed(buffer: Seq<u8>, identified: bool) -> nat {
    concat(frames(buffer, identified)).len()
}

/// Whether each of the frames can be decoded.
pub open spec fn all_decodable(frames: Seq<Seq<u8>>) -> bool {
    forall|i: int| 0 <= i < frames.len() ==> server_can_decode(#[trigger] frames[i])
}

/// What each of the frames decodes to.
pub open spec fn decoded_frames(frames: Seq<Seq<u8>>) -> Seq<ServerBoundView> {
    Seq::new(frames.len(), |i: int| server_decoded(frames[i]))
}

/// The packets of a list, each with its text as a sequence of characters.
pub open spec fn server_views(packets: Seq<ServerBound>) -> Seq<ServerBoundView> {
    Seq::new(packets.len(), |i: int| packets[i]@)
}

/// Whether bytes are one whole packet with a known opcode.
pub open spec fn is_whole_packet(chunk: Seq<u8>) -> bool {
    &&& chunk.len() >= 1
    &&& server_packet_size(chunk[0]) > 0
    &&& chunk.len() == server_packet_size(chunk[0])
}

/// Whether a list of whole packets is one that a player may send: no
/// `PlayerIdentification` from a player who has identified, be it before or
/// by an earlier packet of the list.
pub open spec fn in_order(chunks: Seq<Seq<u8>>, identified: bool) -> bool
    decreases chunks.len(),
{
    chunks.len() == 0 || {
        &&& is_whole_packet(chunks[0])
        &&& !(identified && chunks[0][0] == IDENTIFICATION)
        &&& in_order(chunks.drop_first(), identified || chunks[0][0] == IDENTIFICATION)
    }
}

/// Whether the player has identified once the packets of a list are
/// through.
pub open spec fn identified_after(chunks: Seq<Seq<u8>>, identified: bool) -> bool
    decreases chunks.len(),
{
    if chunks.len() == 0 {
        identified
    } else {
        identified_after(chunks.drop_first(), identified || chunks[0][0] == IDENTIFICATION)
    }
}

proof fn lemma_concat_front(parts: Seq<Seq<u8>>)
    requires
        parts.len() > 0,
    ensures
        concat(parts) == parts[0] + concat(parts.drop_first()),
    decreases parts.len(),
{
    if parts.len() == 1 {
        assert(parts.drop_last() =~= Seq::<Seq<u8>>::empty());
        assert(parts.drop_first() =~= Seq::<Seq<u8>>::empty());
        assert(concat(parts) =~= parts[0] + concat(parts.drop_first()));
    } else {
        lemma_concat_front(parts.drop_last());
        assert(parts.drop_last().drop_first() =~= parts.drop_first().drop_last());
        assert(parts.drop_first().last() == parts.last());
        assert(parts.drop_last()[0] == parts[0]);
        assert(concat(parts) =~= parts[0] + concat(parts.drop_first()));
    }
}

/// A buffer that holds whole packets of known opcodes, one after the other
/// and in an order that a player may send, followed by bytes that start no
/// further packet, is cut into exactly these packets. What is cut off is as
/// long as the packets together, so that the bytes at the end are left
/// alone.
pub proof fn lemma_frames_of_packets(chunks: Seq<Seq<u8>>, tail: Seq<u8>, identified: bool)
    requires
        in_order(chunks, identified),
        stops(tail, identified_after(chunks, identified)),
    ensures
        frames(concat(chunks) + tail, identified) == chunks,
        consumed(concat(chunks) + tail, identified) == concat(chunks).len(),
        (concat(chunks) + tail).skip(concat(chunks).len() as int) == tail,
    decreases chunks.len(),
{
    let buffer = concat(chunks) + tail;
    if chunks.len() == 0 {
        assert(buffer =~= tail);
        assert(frames(buffer, identified) =~= chunks);
    } else {
        let first = chunks[0];
        let rest = chunks.drop_first();
        lemma_concat_front(chunks);
        let size = server_packet_size(first[0]) as int;
        assert(buffer[0] == first[0]);
        assert(buffer.take(size) =~= first);
        assert(buffer.skip(size) =~= concat(rest) + tail);
        lemma_frames_of_packets(rest, tail, identified || first[0] == IDENTIFICATION);
        assert(frames(buffer, identified) =~= chunks);
    }
    assert(buffer.skip(concat(chunks).len() as int) =~= tail);
}

/// The frames of a buffer are whole packets, and what is cut off is the
/// start of the buffer.
pub proof fn lemma_frames_are_prefix(buffer: Seq<u8>, identified: bool)
    ensures
        forall|i: int|
            0 <= i < frames(buffer, identified).len() ==> is_whole_packet(
                #[trigger] frames(buffer, identified)[i],
            ),
        concat(frames(buffer, identified)).len() <= buffer.len(),
        concat(frames(buffer, identified)) == buffer.take(
            concat(frames(buffer, identified)).len() as int,
        ),
    decreases buffer.len(),
{
    let cut = frames(buffer, identified);
    if stops(buffer, identified) {
        assert(concat(cut) =~= buffer.take(0));
    } else {
        let size = server_packet_size(buffer[0]) as int;
        let rest = buffer.skip(size);
        let next = identified || buffer[0] == IDENTIFICATION;
        lemma_frames_are_prefix(rest, next);
        lemma_concat_front(cut);
        assert(cut.drop_first() =~= frames(rest, next));
        assert(concat(cut) =~= buffer.take(concat(cut).len() as int));
        assert forall|i: int| 0 <= i < cut.len() implies is_whole_packet(#[trigger] cut[i]) by {
            if i > 0 {
                assert(cut[i] == frames(rest, next)[i - 1]);
            }
        }
    }
}

/// Counts the bytes at the start of a buffer that its packets take up.
pub fn consumed_length(buffer: &[u8], logged_in: bool) -> (length: usize)
    ensures
        length == consumed(buffer@, logged_in),
        length <= buffer@.len(),
{
    let mut at: usize = 0;
    let mut identified = logged_in;
    let mut stopped = false;
    let ghost mut done: Seq<Seq<u8>> = Seq::empty();
    assert(buffer@.skip(0) =~= buffer@);
    while !stopped && at < buffer.len()
        invariant
            at <= buffer.len(),
            frames(buffer@, logged_in) == done + frames(buffer@.skip(at as int), identified),
            stopped ==> stops(buffer@.skip(at as int), identified),
            concat(done).len() == at,
        decreases buffer.len() - at + (if stopped { 0int } else { 1int }),
    {
        let opcode = buffer[at];
        let size = <ServerBound as Packet<&[u8]>>::size(opcode);
        let ghost rest = buffer@.skip(at as int);
        assert(rest[0] == opcode);
        if size == 0 || buffer.len() - at < size || (identified && opcode == IDENTIFICATION) {
            stopped = true;
        } else {
            proof {
                let frame = rest.take(size as int);
                assert(rest.skip(size as int) =~= buffer@.skip(at + size));
                let later = frames(rest.skip(size as int), identified || opcode == IDENTIFICATION);
                assert(done + (seq![frame] + later) =~= done.push(frame) + later);
                assert(done.push(frame).drop_last() =~= done);
                done = done.push(frame);
            }
            if opcode == IDENTIFICATION {
                identified = true;
            }
            at += size;
        }
    }
    proof {
        assert(stops(buffer@.skip(at as int), identified));
        assert(frames(buffer@, logged_in) =~= done);
    }
    at
}

/// Cuts a buffer into packets and decodes them; `None` if the text of one
/// of them is not well-formed.
pub fn read_packets(buffer: &[u8], logged_in: bool) -> (packets: Option<Vec<ServerBound>>)
    ensures
        packets is Some <==> all_decodable(frames(buffer@, logged_in)),
        packets matches Some(list) ==> server_views(list@) == decoded_frames(
            frames(buffer@, logged_in),
        ),
{
    let mut packets: Vec<ServerBound> = Vec::new();
    let mut at: usize = 0;
    let mut identified = logged_in;
    let mut stopped = false;
    let ghost mut done: Seq<Seq<u8>> = Seq::empty();
    assert(buffer@.skip(0) =~= buffer@);
    while !stopped && at < buffer.len()
        invariant
            at <= buffer.len(),
            frames(buffer@, logged_in) == done + frames(buffer@.skip(at as int), identified),
            stopped ==> stops(buffer@.skip(at as int), identified),
            packets@.len() == done.len(),
            forall|k: int| 0 <= k < done.len() ==> server_can_decode(#[trigger] done[k]),
            forall|k: int| 0 <= k < done.len() ==> (#[trigger] packets@[k])@ == server_decoded(done[k]),
        decreases buffer.len() - at + (if stopped { 0int } else { 1int }),
    {
        let opcode = buffer[at];
        let size = <ServerBound as Packet<&[u8]>>::size(opcode);
        let ghost rest = buffer@.skip(at as int);
        assert(rest[0] == opcode);
        if size == 0 || buffer.len() - at < size || (identified && opcode == IDENTIFICATION) {
            stopped = true;
        } else {
            let frame = slice_subrange(buffer, at, at + size);
            assert(frame@ =~= rest.take(size as int));
            assert(rest.skip(size as int) =~= buffer@.skip(at + size));
            proof {
                let ghost later = frames(
                    rest.skip(size as int),
                    identified || opcode == IDENTIFICATION,
                );
                assert(done + (seq![frame@] + later) =~= done.push(frame@) + later);
            }
            match ServerBound::decode(frame) {
                Some(packet) => {
                    packets.push(packet);
                },
                None => {
                    proof {
                        let cut = frames(buffer@, logged_in);
                        assert(cut[done.len() as int] == frame@);
                    }
                    return None;
                },
            }
            proof {
                done = done.push(frame@);
            }
            if opcode == IDENTIFICATION {
                identified = true;
            }
            at += size;
        }
    }
    proof {
        let rest = buffer@.skip(at as int);
        assert(stops(rest, identified));
        assert(frames(buffer@, logged_in) =~= done);
        assert(server_views(packets@) =~= decoded_frames(frames(buffer@, logged_in)));
    }
    Some(packets)
}

} // verus!
