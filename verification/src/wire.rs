//! Messages on a session's connection: a byte for the kind, the length of the payload
//! as four bytes with the highest first, and the payload.
use vstd::prelude::*;

verus! {

/// Kind of a message that holds a video frame.
pub const MSG_FRAME: u8 = 0x01;

/// Kind of a message that holds an input event or a word about the session.
pub const MSG_INPUT: u8 = 0x10;

/// Length of a message's header in bytes.
pub const HEADER_LEN: usize = 5;

/// A number as four bytes, the highest first.
pub open spec fn be_bytes(n: u32) -> Seq<u8> {
    seq![
        (n / 0x100_0000) as u8,
        (n / 0x1_0000 % 0x100) as u8,
        (n / 0x100 % 0x100) as u8,
        (n % 0x100) as u8,
    ]
}

/// The number that four bytes stand for, the highest first.
pub open spec fn be_value(b: Seq<u8>) -> int {
    b[0] * 0x100_0000 + b[1] * 0x1_0000 + b[2] * 0x100 + b[3]
}

/// Four bytes read as the number they were written for.
pub proof fn law_be_bytes_read_back(n: u32)
    ensures
        be_bytes(n).len() == 4,
        be_value(be_bytes(n)) == n,
{
}

/// Appends a number as four bytes, the highest first.
pub fn put_be(out: &mut Vec<u8>, n: u32)
    ensures
        final(out)@ == old(out)@ + be_bytes(n),
{
    out.push((n / 0x100_0000) as u8);
    out.push((n / 0x1_0000 % 0x100) as u8);
    out.push((n / 0x100 % 0x100) as u8);
    out.push((n % 0x100) as u8);
    assert(out@ =~= old(out)@ + be_bytes(n));
}

/// Reads the four bytes from position `at` on as a number, the highest first.
pub fn get_be(bytes: &[u8], at: usize) -> (n: u32)
    requires
        at + 4 <= bytes@.len(),
    ensures
        n == be_value(bytes@.skip(at as int)),
{
    bytes[at] as u32 * 0x100_0000 + bytes[at + 1] as u32 * 0x1_0000 + bytes[at + 2] as u32 * 0x100
        + bytes[at + 3] as u32
}

/// Length field of a message with the given payload. It holds the lower 32 bits of
/// the length.
pub open spec fn length_field(payload: Seq<u8>) -> u32 {
    (payload.len() % 0x1_0000_0000) as u32
}

/// The bytes of a message.
pub open spec fn message(kind: u8, payload: Seq<u8>) -> Seq<u8> {
    seq![kind] + be_bytes(length_field(payload)) + payload
}

/// Kind of the message that starts with the given header.
pub open spec fn header_kind(header: Seq<u8>) -> u8 {
    header[0]
}

/// Length of the payload that follows the given header.
pub open spec fn header_len(header: Seq<u8>) -> int {
    be_value(header.skip(1))
}

/// The first message of a stream and what follows it; none while the stream does not
/// hold a whole message.
pub open spec fn first_message(stream: Seq<u8>) -> Option<(u8, Seq<u8>, Seq<u8>)> {
    if stream.len() < HEADER_LEN || stream.len() < HEADER_LEN + header_len(stream) {
        None
    } else {
        let end = HEADER_LEN + header_len(stream);
        Some((header_kind(stream), stream.subrange(HEADER_LEN as int, end), stream.skip(end)))
    }
}

/// The bytes to write for a message.
pub fn write_msg(kind: u8, payload: &[u8]) -> (out: Vec<u8>)
    ensures
        out@ == message(kind, payload@),
{
    let n: usize = payload.len();
    let len: u32 = (n as u64 % 0x1_0000_0000) as u32;
    let mut out: Vec<u8> = Vec::new();
    out.push(kind);
    put_be(&mut out, len);
    out.extend_from_slice(payload);
    assert(out@ =~= message(kind, payload@));
    out
}

/// Kind and payload length that a header announces.
pub fn read_header(header: &[u8]) -> (out: (u8, usize))
    requires
        header@.len() >= HEADER_LEN,
    ensures
        out.0 == header_kind(header@),
        out.1 == header_len(header@),
{
    (header[0], get_be(header, 1) as usize)
}

/// Takes the first message off a stream: its kind, its payload and how many bytes it
/// takes up. There is none while the stream does not hold a whole message.
pub fn read_msg(stream: &[u8]) -> (out: Option<(u8, Vec<u8>, usize)>)
    ensures
        match out {
            Some((kind, payload, used)) => used <= stream@.len() && first_message(stream@) == Some(
                (kind, payload@, stream@.skip(used as int)),
            ),
            None => first_message(stream@) is None,
        },
{
    let n: usize = stream.len();
    if n < HEADER_LEN {
        return None;
    }
    let (kind, len) = read_header(stream);
    if n - HEADER_LEN < len {
        return None;
    }
    let end: usize = HEADER_LEN + len;
    let mut payload: Vec<u8> = Vec::new();
    payload.extend_from_slice(&stream[HEADER_LEN..end]);
    assert(payload@ =~= stream@.subrange(HEADER_LEN as int, end as int));
    Some((kind, payload, end))
}

/// A message that has been written reads as what it was written for, and nothing of
/// what follows it is lost. Its payload has to fit the length field.
pub proof fn law_message_reads_back(kind: u8, payload: Seq<u8>, rest: Seq<u8>)
    requires
        payload.len() < 0x1_0000_0000,
    ensures
        first_message(message(kind, payload) + rest) == Some((kind, payload, rest)),
{
    let stream = message(kind, payload) + rest;
    let len = payload.len() as u32;
    assert(length_field(payload) == len);
    assert(stream.skip(1).take(4) =~= be_bytes(len));
    assert(be_value(stream.skip(1)) == be_value(stream.skip(1).take(4)));
    assert(stream.subrange(5, 5 + payload.len() as int) =~= payload);
    assert(stream.skip(5 + payload.len() as int) =~= rest);
}

/// The bytes of a row of messages.
pub open spec fn messages(list: Seq<(u8, Seq<u8>)>) -> Seq<u8>
    decreases list.len(),
{
    if list.len() == 0 {
        Seq::empty()
    } else {
        message(list[0].0, list[0].1) + messages(list.drop_first())
    }
}

/// The messages that a stream holds, up to the first incomplete one.
pub open spec fn all_messages(stream: Seq<u8>) -> Seq<(u8, Seq<u8>)>
    decreases stream.len(),
{
    match first_message(stream) {
        Some((kind, payload, rest)) => if rest.len() < stream.len() {
            seq![(kind, payload)] + all_messages(rest)
        } else {
            Seq::empty()
        },
        None => Seq::empty(),
    }
}

/// Messages written one after the other are told apart again, in the same order.
pub proof fn law_messages_read_back(list: Seq<(u8, Seq<u8>)>)
    requires
        forall|i: int| 0 <= i < list.len() ==> (#[trigger] list[i]).1.len() < 0x1_0000_0000,
    ensures
        all_messages(messages(list)) == list,
    decreases list.len(),
{
    if list.len() == 0 {
        assert(first_message(messages(list)) is None);
        assert(all_messages(messages(list)) =~= list);
    } else {
        let tail = list.drop_first();
        assert forall|i: int| 0 <= i < tail.len() implies (#[trigger] tail[i]).1.len()
            < 0x1_0000_0000 by {
            assert(tail[i] == list[i + 1]);
        }
        law_messages_read_back(tail);
        law_message_reads_back(list[0].0, list[0].1, messages(tail));
        assert(all_messages(messages(list)) =~= seq![list[0]] + tail);
        assert(seq![list[0]] + tail =~= list);
    }
}

/// A message on the wire: the kind, the length of the payload with its highest byte first,
/// and the payload.
pub proof fn law_message_layout(kind: u8, payload: Seq<u8>)
    requires
        payload.len() < 0x1_0000_0000,
    ensures
        message(kind, payload).len() == 5 + payload.len(),
        message(kind, payload)[0] == kind,
        message(kind, payload)[1] * 16777216 + message(kind, payload)[2] * 65536 + message(
            kind,
            payload,
        )[3] * 256 + message(kind, payload)[4] == payload.len(),
        message(kind, payload).skip(5) == payload,
{
    law_be_bytes_read_back(payload.len() as u32);
    let m = message(kind, payload);
    assert(m.skip(5) =~= payload);
}

/// The four bytes of a number are its digits to the base 256, the highest first, and give
/// the number when they are read.
pub proof fn law_numbers_have_their_highest_byte_first(n: u32, bytes: Seq<u8>)
    ensures
        be_bytes(n).len() == 4,
        be_bytes(n)[0] * 16777216 + be_bytes(n)[1] * 65536 + be_bytes(n)[2] * 256 + be_bytes(n)[3]
            == n,
        be_value(bytes) == bytes[0] * 16777216 + bytes[1] * 65536 + bytes[2] * 256 + bytes[3],
{
}

/// A message that has not come completely is not taken, however much of it is there.
pub proof fn law_part_of_a_message_is_none(kind: u8, payload: Seq<u8>, n: int)
    requires
        payload.len() < 0x1_0000_0000,
        0 <= n < 5 + payload.len(),
    ensures
        first_message(message(kind, payload).take(n)) is None,
{
    law_message_layout(kind, payload);
    let m = message(kind, payload);
    let part = m.take(n);
    if 5 <= n {
        assert(part.skip(1)[0] == m[1]);
        assert(part.skip(1)[1] == m[2]);
        assert(part.skip(1)[2] == m[3]);
        assert(part.skip(1)[3] == m[4]);
    }
}

/// A message is taken as soon as its bytes are there, for any stream: the kind is the first
/// byte, the payload are the bytes behind the fifth, as many as the length says, and what
/// follows them is left.
pub proof fn law_first_message_is_cut_at_its_length(stream: Seq<u8>)
    requires
        stream.len() >= 5,
    ensures
        ({
            let len = stream[1] * 16777216 + stream[2] * 65536 + stream[3] * 256 + stream[4];
            if stream.len() < 5 + len {
                first_message(stream) is None
            } else {
                match first_message(stream) {
                    Some((kind, payload, rest)) => {
                        &&& kind == stream[0]
                        &&& payload.len() == len
                        &&& stream == stream.take(5) + payload + rest
                    },
                    None => false,
                }
            }
        }),
{
    let len = stream[1] * 16777216 + stream[2] * 65536 + stream[3] * 256 + stream[4];
    if stream.len() >= 5 + len {
        assert(stream =~= stream.take(5) + stream.subrange(5, 5 + len) + stream.skip(5 + len));
    }
}

} // verus!
