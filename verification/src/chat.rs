//! Chat text: how the words of a message are normalised, and how a line of
//! chat is cut into packets.

use crate::packets::{views, ClientBound, ClientBoundView};
use crate::text::{encode_bytes, padded, STRING_LENGTH};
use vstd::prelude::*;
use vstd::slice::slice_subrange;

verus! {

/// Whether a byte is ASCII whitespace: a space, a tab, a line feed, a form
/// feed or a carriage return.
pub open spec fn is_space(b: u8) -> bool {
    b == 0x20 || b == 0x09 || b == 0x0A || b == 0x0C || b == 0x0D
}

/// The words of a text, joined by single spaces. Every byte that is not
/// whitespace is kept; a kept byte that follows whitespace gets one space in
/// front of it, unless nothing was kept before it.
pub open spec fn collapse(text: Seq<u8>) -> Seq<u8>
    decreases text.len(),
{
    if text.len() == 0 {
        Seq::empty()
    } else {
        let before = text.drop_last();
        let kept = collapse(before);
        if is_space(text.last()) {
            kept
        } else if before.len() > 0 && is_space(before.last()) && kept.len() > 0 {
            kept.push(0x20).push(text.last())
        } else {
            kept.push(text.last())
        }
    }
}

/// A line of chat: the name of the sender between `<` and `>`, a colon, a
/// space, and the message.
pub open spec fn chat_line(name: Seq<u8>, message: Seq<u8>) -> Seq<u8> {
    seq![0x3Cu8] + name + seq![0x3Eu8, 0x3Au8, 0x20u8] + message
}

/// The number of packets that a line of the given length takes: one for
/// every 64 bytes or part of them.
pub open spec fn line_count(len: nat) -> nat {
    (len + 63) / 64
}

/// The packets that carry a line: one for each run of 64 bytes, the last
/// one padded with spaces.
pub open spec fn message_packets(id: u8, line: Seq<u8>) -> Seq<ClientBoundView> {
    Seq::new(line_count(line.len()), |i: int| ClientBoundView::Message(id, padded(line.skip(64 * i))))
}

/// The text that packets carry: the text fields of the messages among
/// them, one after the other.
pub open spec fn message_text(packets: Seq<ClientBoundView>) -> Seq<u8>
    decreases packets.len(),
{
    if packets.len() == 0 {
        Seq::empty()
    } else {
        message_text(packets.drop_last()) + (match packets.last() {
            ClientBoundView::Message(_, text) => text,
            _ => Seq::empty(),
        })
    }
}

/// The packets of a line carry the line and nothing else: their text
/// starts with the line, and what follows are the spaces that pad the last
/// packet.
pub proof fn lemma_message_packets_carry_line(id: u8, line: Seq<u8>)
    ensures
        message_text(message_packets(id, line)).len() == 64 * line_count(line.len()),
        message_text(message_packets(id, line)).take(line.len() as int) == line,
        forall|k: int|
            line.len() <= k < 64 * line_count(line.len()) ==> message_text(
                message_packets(id, line),
            )[k] == 0x20,
{
    let packets = message_packets(id, line);
    lemma_message_text_prefix(id, line, packets.len());
    assert(packets.take(packets.len() as int) =~= packets);
    assert(message_text(packets).take(line.len() as int) =~= line);
}

proof fn lemma_message_text_prefix(id: u8, line: Seq<u8>, n: nat)
    requires
        n <= line_count(line.len()),
    ensures
        message_text(message_packets(id, line).take(n as int)) == Seq::new(
            64 * n,
            |k: int|
                if k < line.len() {
                    line[k]
                } else {
                    0x20u8
                },
        ),
    decreases n,
{
    let packets = message_packets(id, line);
    let expected = Seq::new(
        64 * n,
        |k: int|
            if k < line.len() {
                line[k]
            } else {
                0x20u8
            },
    );
    if n == 0 {
        assert(message_text(packets.take(0)) =~= expected);
    } else {
        lemma_message_text_prefix(id, line, (n - 1) as nat);
        let taken = packets.take(n as int);
        assert(taken.drop_last() =~= packets.take(n - 1));
        assert(taken.last() == packets[n - 1]);
        assert(message_text(taken) =~= expected);
    }
}

/// Tells whether a byte is ASCII whitespace.
pub fn is_space_byte(b: u8) -> (space: bool)
    ensures
        space == is_space(b),
{
    b == 0x20 || b == 0x09 || b == 0x0A || b == 0x0C || b == 0x0D
}

/// Joins the words of a text by single spaces.
pub fn collapse_whitespace(text: &[u8]) -> (out: Vec<u8>)
    ensures
        out@ == collapse(text@),
{
    let mut out: Vec<u8> = Vec::new();
    let mut i: usize = 0;
    assert(text@.take(0) =~= Seq::<u8>::empty());
    while i < text.len()
        invariant
            i <= text.len(),
            out@ == collapse(text@.take(i as int)),
        decreases text.len() - i,
    {
        let b = text[i];
        proof {
            let next = text@.take(i + 1);
            assert(next.drop_last() =~= text@.take(i as int));
            assert(next.last() == b);
            if i > 0 {
                assert(text@.take(i as int).last() == text@[i - 1]);
            }
        }
        if !is_space_byte(b) {
            if i > 0 && is_space_byte(text[i - 1]) && out.len() > 0 {
                out.push(0x20);
            }
            out.push(b);
        }
        i += 1;
    }
    assert(text@.take(text.len() as int) =~= text@);
    out
}

/// Builds a line of chat.
pub fn make_chat_line(name: &[u8], message: &[u8]) -> (line: Vec<u8>)
    ensures
        line@ == chat_line(name@, message@),
{
    let mut line: Vec<u8> = Vec::new();
    line.push(0x3C);
    crate::packets::push_all(&mut line, name);
    line.push(0x3E);
    line.push(0x3A);
    line.push(0x20);
    crate::packets::push_all(&mut line, message);
    assert(line@ =~= chat_line(name@, message@));
    line
}

/// Cuts a line into message packets from the given sender.
pub fn split_line(id: u8, line: &[u8]) -> (packets: Vec<ClientBound>)
    ensures
        views(packets@) == message_packets(id, line@),
{
    broadcast use vstd::array::group_array_axioms;

    let len = line.len();
    let count: usize = len / STRING_LENGTH + if len % STRING_LENGTH != 0 {
        1usize
    } else {
        0usize
    };
    assert(count == line_count(len as nat));
    let mut packets: Vec<ClientBound> = Vec::new();
    let mut i: usize = 0;
    while i < count
        invariant
            i <= count,
            count == line_count(len as nat),
            len == line@.len(),
            packets@.len() == i,
            forall|k: int| 0 <= k < i ==> #[trigger] packets@[k]@ == message_packets(id, line@)[k],
        decreases count - i,
    {
        let rest = slice_subrange(line, 64 * i, len);
        assert(rest@ =~= line@.skip(64 * i));
        packets.push(ClientBound::Message(id, encode_bytes(rest)));
        i += 1;
    }
    assert(views(packets@) =~= message_packets(id, line@));
    packets
}

} // verus!
