//! What leaves a session: the level, cut into payloads of 1024 bytes, and
//! the packets of a tick, gathered into buffers of at most 1460 bytes.

use crate::packets::{views, ClientBound, ClientBoundView, Packet};
use vstd::prelude::*;

verus! {

/// The length of the payload of one piece of the level.
pub const CHUNK_LENGTH: usize = 1024;

/// The size of an outbound buffer: what fits in one Ethernet frame.
pub const BUFFER_SIZE: usize = 1460;

/// The number of pieces that a stream of the given length is sent in.
pub open spec fn chunk_count(total: nat) -> nat {
    (total + 1023) / 1024
}

/// The payload of the piece `i` of a stream: 1024 bytes of the stream, or
/// what is left of it followed by zeros.
pub open spec fn chunk_payload(stream: Seq<u8>, i: int) -> Seq<u8> {
    Seq::new(
        1024,
        |k: int|
            if 1024 * i + k < stream.len() {
                stream[1024 * i + k]
            } else {
                0u8
            },
    )
}

/// The number of bytes of a stream of the given length that have been sent
/// once the piece `i` is out.
pub open spec fn bytes_sent(total: nat, i: int) -> int {
    if 1024 * (i + 1) < total {
        1024 * (i + 1)
    } else {
        total as int
    }
}

/// The percentage of the stream that has been sent once the piece `i` is
/// out.
pub open spec fn chunk_percent(total: nat, i: int) -> u8 {
    (bytes_sent(total, i) * 100 / (total as int)) as u8
}

/// The packets that carry a stream: one `LevelDataChunk` for every 1024
/// bytes or part of them, each announcing a length of 1024.
pub open spec fn level_chunks(stream: Seq<u8>) -> Seq<ClientBoundView> {
    Seq::new(
        chunk_count(stream.len()),
        |i: int|
            ClientBoundView::LevelDataChunk(
                1024,
                chunk_payload(stream, i),
                chunk_percent(stream.len(), i),
            ),
    )
}

/// The payloads of the level pieces among packets, one after the other.
pub open spec fn level_payload(packets: Seq<ClientBoundView>) -> Seq<u8>
    decreases packets.len(),
{
    if packets.len() == 0 {
        Seq::empty()
    } else {
        level_payload(packets.drop_last()) + (match packets.last() {
            ClientBoundView::LevelDataChunk(_, data, _) => data,
            _ => Seq::empty(),
        })
    }
}

proof fn lemma_level_payload_prefix(stream: Seq<u8>, n: nat)
    requires
        n <= chunk_count(stream.len()),
    ensures
        level_payload(level_chunks(stream).take(n as int)) == Seq::new(
            1024 * n,
            |k: int|
                if k < stream.len() {
                    stream[k]
                } else {
                    0u8
                },
        ),
    decreases n,
{
    let packets = level_chunks(stream);
    let expected = Seq::new(
        1024 * n,
        |k: int|
            if k < stream.len() {
                stream[k]
            } else {
                0u8
            },
    );
    if n == 0 {
        assert(level_payload(packets.take(0)) =~= expected);
    } else {
        lemma_level_payload_prefix(stream, (n - 1) as nat);
        let taken = packets.take(n as int);
        assert(taken.drop_last() =~= packets.take(n - 1));
        assert(taken.last() == packets[n - 1]);
        assert(level_payload(taken) =~= expected);
    }
}

/// The pieces of a stream carry the stream: their payloads, one after the
/// other, start with the stream, and what follows are the zeros that fill
/// the last piece.
pub proof fn lemma_level_chunks_carry_stream(stream: Seq<u8>)
    ensures
        level_payload(level_chunks(stream)).len() == 1024 * chunk_count(stream.len()),
        level_payload(level_chunks(stream)).take(stream.len() as int) == stream,
        forall|k: int|
            stream.len() <= k < 1024 * chunk_count(stream.len()) ==> level_payload(
                level_chunks(stream),
            )[k] == 0,
{
    let packets = level_chunks(stream);
    lemma_level_payload_prefix(stream, packets.len());
    assert(packets.take(packets.len() as int) =~= packets);
    assert(level_payload(packets).take(stream.len() as int) =~= stream);
}

/// The level payload of two lists of packets, one after the other, is the
/// level payload of the first followed by that of the second.
pub proof fn lemma_level_payload_concat(a: Seq<ClientBoundView>, b: Seq<ClientBoundView>)
    ensures
        level_payload(a + b) == level_payload(a) + level_payload(b),
    decreases b.len(),
{
    if b.len() == 0 {
        assert(a + b =~= a);
        assert(level_payload(a) + level_payload(b) =~= level_payload(a));
    } else {
        lemma_level_payload_concat(a, b.drop_last());
        assert((a + b).drop_last() =~= a + b.drop_last());
        assert((a + b).last() == b.last());
        let piece = match b.last() {
            ClientBoundView::LevelDataChunk(_, data, _) => data,
            _ => Seq::empty(),
        };
        assert(level_payload(a + b) =~= level_payload(a) + (level_payload(b.drop_last()) + piece));
    }
}

/// The percentages of the pieces of a stream never fall, stay within 100,
/// and reach 100 with the last piece.
pub proof fn lemma_chunk_percent_grows(total: nat, i: int, j: int)
    requires
        0 <= i <= j < chunk_count(total),
    ensures
        chunk_percent(total, i) <= chunk_percent(total, j) <= 100,
        chunk_percent(total, chunk_count(total) - 1) == 100,
{
    let t = total as int;
    let a = bytes_sent(total, i);
    let b = bytes_sent(total, j);
    let last = bytes_sent(total, chunk_count(total) - 1);
    assert(last == t);
    assert(0 <= a <= b <= t);
    assert(0 <= a * 100 / t <= b * 100 / t <= 100 && t * 100 / t == 100) by (nonlinear_arith)
        requires
            0 <= a <= b <= t,
            t > 0,
    ;
}

/// Cuts a stream into level pieces.
pub fn cut_level(stream: &[u8]) -> (packets: Vec<ClientBound>)
    ensures
        views(packets@) == level_chunks(stream@),
{
    broadcast use vstd::array::group_array_axioms;

    let total = stream.len();
    let count: usize = total / CHUNK_LENGTH + if total % CHUNK_LENGTH != 0 {
        1usize
    } else {
        0usize
    };
    assert(count == chunk_count(total as nat));
    let mut packets: Vec<ClientBound> = Vec::new();
    let mut i: usize = 0;
    while i < count
        invariant
            i <= count,
            count == chunk_count(total as nat),
            total == stream@.len(),
            packets@.len() == i,
            forall|k: int| 0 <= k < i ==> #[trigger] packets@[k]@ == level_chunks(stream@)[k],
        decreases count - i,
    {
        let start: usize = CHUNK_LENGTH * i;
        let mut data: [u8; 1024] = [0u8; 1024];
        let mut k: usize = 0;
        while k < CHUNK_LENGTH && k < total - start
            invariant
                k <= CHUNK_LENGTH,
                start == 1024 * i,
                start < total,
                total == stream@.len(),
                k <= total - start,
                forall|m: int| 0 <= m < k ==> data@[m] == stream@[start + m],
                forall|m: int| k <= m < 1024 ==> data@[m] == 0,
            decreases CHUNK_LENGTH - k,
        {
            data[k] = stream[start + k];
            k += 1;
        }
        assert(data@ =~= chunk_payload(stream@, i as int));
        let sent: usize = if total - start > CHUNK_LENGTH {
            start + CHUNK_LENGTH
        } else {
            total
        };
        assert(sent == bytes_sent(total as nat, i as int));
        assert(0 <= sent as int * 100 / (total as int) <= 100) by (nonlinear_arith)
            requires
                0 <= sent <= total,
                total > 0,
        ;
        let percent: u8 = ((sent as u128 * 100) / (total as u128)) as u8;
        packets.push(ClientBound::LevelDataChunk(1024, data, percent));
        i += 1;
    }
    assert(views(packets@) =~= level_chunks(stream@));
    packets
}

/// What has been gathered of a list of packets: the buffers that are full,
/// and the buffer that is being filled. A packet that does not fit in what
/// is left of the buffer starts the next one.
pub open spec fn gathered(wires: Seq<Seq<u8>>) -> (Seq<Seq<u8>>, Seq<u8>)
    decreases wires.len(),
{
    if wires.len() == 0 {
        (Seq::empty(), Seq::empty())
    } else {
        let (full, filling) = gathered(wires.drop_last());
        if wires.last().len() > BUFFER_SIZE - filling.len() {
            (full.push(filling), wires.last())
        } else {
            (full, filling + wires.last())
        }
    }
}

/// The buffers in which a list of packets is written: the full ones, and
/// at the end the one that was being filled when the list ran out.
pub open spec fn write_buffers(wires: Seq<Seq<u8>>) -> Seq<Seq<u8>> {
    gathered(wires).0.push(gathered(wires).1)
}

/// The bytes of a list of byte strings, one after the other.
pub open spec fn concat(parts: Seq<Seq<u8>>) -> Seq<u8>
    decreases parts.len(),
{
    if parts.len() == 0 {
        Seq::empty()
    } else {
        concat(parts.drop_last()) + parts.last()
    }
}

/// The wire bytes of each packet of a list.
pub open spec fn wires(packets: Seq<ClientBound>) -> Seq<Seq<u8>> {
    Seq::new(packets.len(), |i: int| packets[i]@.wire())
}

/// Gathering loses nothing and keeps the order: the buffers, one after the
/// other, are the packets, one after the other. No buffer is longer than
/// 1460 bytes if no packet is.
pub proof fn lemma_write_buffers_faithful(wires: Seq<Seq<u8>>)
    ensures
        concat(write_buffers(wires)) == concat(wires),
        (forall|i: int| 0 <= i < wires.len() ==> (#[trigger] wires[i]).len() <= BUFFER_SIZE) ==> (
        forall|j: int|
            0 <= j < write_buffers(wires).len() ==> (#[trigger] write_buffers(wires)[j]).len()
                <= BUFFER_SIZE),
    decreases wires.len(),
{
    let (full, filling) = gathered(wires);
    assert(write_buffers(wires).drop_last() =~= full);
    if wires.len() > 0 {
        let before = wires.drop_last();
        lemma_write_buffers_faithful(before);
        let (full0, filling0) = gathered(before);
        assert(write_buffers(before).drop_last() =~= full0);
        assert(write_buffers(before).last() == filling0);
        if wires.last().len() > BUFFER_SIZE - filling0.len() {
            assert(full =~= write_buffers(before));
        } else {
            assert(concat(full) + (filling0 + wires.last()) =~= (concat(full0) + filling0)
                + wires.last());
        }
        if forall|i: int| 0 <= i < wires.len() ==> (#[trigger] wires[i]).len() <= BUFFER_SIZE {
            assert forall|i: int| 0 <= i < before.len() implies (#[trigger] before[i]).len()
                <= BUFFER_SIZE by {
                assert(before[i] == wires[i]);
            }
            assert(wires.last() == wires[wires.len() - 1]);
            assert forall|j: int| 0 <= j < write_buffers(wires).len() implies (
            #[trigger] write_buffers(wires)[j]).len() <= BUFFER_SIZE by {
                if j < full.len() {
                    assert(full[j] == write_buffers(before)[j]);
                }
            }
        }
    } else {
        assert(full =~= Seq::<Seq<u8>>::empty());
        assert(concat(full) =~= Seq::<u8>::empty());
        assert(write_buffers(wires).last() =~= Seq::<u8>::empty());
        assert(concat(write_buffers(wires)) =~= concat(wires));
    }
}

/// Gathers packets into the buffers in which they are written.
pub fn gather_packets(packets: &Vec<ClientBound>) -> (buffers: Vec<Vec<u8>>)
    ensures
        buffers@.len() == write_buffers(wires(packets@)).len(),
        forall|j: int|
            0 <= j < buffers@.len() ==> (#[trigger] buffers@[j])@ == write_buffers(
                wires(packets@),
            )[j],
{
    let mut buffers: Vec<Vec<u8>> = Vec::new();
    let mut filling: Vec<u8> = Vec::new();
    let mut p: usize = 0;
    let ghost all = wires(packets@);
    assert(all.take(0) =~= Seq::<Seq<u8>>::empty());
    while p < packets.len()
        invariant
            p <= packets.len(),
            all == wires(packets@),
            buffers@.len() == gathered(all.take(p as int)).0.len(),
            forall|j: int|
                0 <= j < buffers@.len() ==> (#[trigger] buffers@[j])@ == gathered(
                    all.take(p as int),
                ).0[j],
            filling@ == gathered(all.take(p as int)).1,
        decreases packets.len() - p,
    {
        let bytes = <ClientBound as Packet<&[u8]>>::into(&packets[p]);
        proof {
            let next = all.take(p + 1);
            assert(next.drop_last() =~= all.take(p as int));
            assert(next.last() == bytes@);
        }
        if filling.len() > BUFFER_SIZE || bytes.len() > BUFFER_SIZE - filling.len() {
            buffers.push(filling);
            filling = bytes;
        } else {
            crate::packets::push_all(&mut filling, bytes.as_slice());
        }
        p += 1;
    }
    assert(all.take(packets.len() as int) =~= all);
    buffers.push(filling);
    buffers
}

} // verus!
