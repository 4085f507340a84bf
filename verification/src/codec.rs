//! Framing of messages on a byte stream.
//!
//! A frame is the length of its payload, as four bytes in little-endian order,
//! followed by the payload.
use crate::error::PoolError;
use bytes::{Buf, BufMut, BytesMut};
use vstd::prelude::*;
use vstd::slice::slice_subrange;

verus! {

// ---- The byte buffer ----

/// `bytes::BytesMut`, the growable byte buffer that frames are written to and
/// read from. Its fields stay hidden.
#[verifier::external_type_specification]
#[verifier::external_body]
pub struct ExBytesMut(BytesMut);

/// The bytes that a buffer holds, first to last.
pub uninterp spec fn buffered(buffer: BytesMut) -> Seq<u8>;

/// `BytesMut::len` returns the number of bytes in the buffer.
pub assume_specification[ BytesMut::len ](buffer: &BytesMut) -> (len: usize)
    ensures
        len == buffered(*buffer).len(),
;

/// `BytesMut::reserve` makes room for more bytes and leaves the bytes that are
/// there as they are. The request stays within `isize::MAX` bytes, the most that a Rust
/// allocation holds; what memory the machine really has is not modelled.
pub assume_specification[ BytesMut::reserve ](buffer: &mut BytesMut, additional: usize)
    requires
        buffered(*old(buffer)).len() + additional <= isize::MAX,
    ensures
        buffered(*final(buffer)) == buffered(*old(buffer)),
;

/// `BytesMut::extend_from_slice` appends the given bytes, making room for them where there
/// is none. The outcome stays within `isize::MAX` bytes, as for `BytesMut::reserve`.
pub assume_specification[ BytesMut::extend_from_slice ](buffer: &mut BytesMut, extend: &[u8])
    requires
        buffered(*old(buffer)).len() + extend@.len() <= isize::MAX,
    ensures
        buffered(*final(buffer)) == buffered(*old(buffer)) + extend@,
;

/// `BufMut::put_u32_le` of a `BytesMut` appends the four bytes of `n`, the least
/// significant one first. The outcome stays within `isize::MAX` bytes, as for
/// `BytesMut::reserve`.
#[verifier::external_body]
fn put_u32_le(buffer: &mut BytesMut, n: u32)
    requires
        buffered(*old(buffer)).len() + 4 <= isize::MAX,
    ensures
        buffered(*final(buffer)) == buffered(*old(buffer)) + le_bytes(n as nat),
{
    buffer.put_u32_le(n)
}

/// `Buf::advance` of a `BytesMut` drops the first `count` bytes; it panics when there
/// are fewer.
#[verifier::external_body]
fn advance(buffer: &mut BytesMut, count: usize)
    requires
        count <= buffered(*old(buffer)).len(),
    ensures
        buffered(*final(buffer)) == buffered(*old(buffer)).skip(count as int),
{
    buffer.advance(count)
}

/// `Deref::deref` of a `BytesMut` lends out the bytes of the buffer.
#[verifier::external_body]
fn contents(buffer: &BytesMut) -> (bytes: &[u8])
    ensures
        bytes@ == buffered(*buffer),
{
    std::ops::Deref::deref(buffer)
}

// ---- The frame format ----

/// The number of bytes that the length takes in a frame.
pub const PREFIX_LEN: usize = 4;

/// One more than the longest payload whose length a frame can carry.
pub const LENGTH_LIMIT: u64 = 0x1_0000_0000;

/// The low four bytes of `n`, the least significant one first.
pub open spec fn le_bytes(n: nat) -> Seq<u8> {
    seq![
        (n % 256) as u8,
        ((n / 256) % 256) as u8,
        ((n / 65536) % 256) as u8,
        ((n / 16777216) % 256) as u8,
    ]
}

/// The number whose four bytes, the least significant one first, begin `bytes`.
pub open spec fn le_value(bytes: Seq<u8>) -> nat {
    (bytes[0] + 256 * bytes[1] + 65536 * bytes[2] + 16777216 * bytes[3]) as nat
}

/// The frame of a payload: the low four bytes of its length, then the payload.
pub open spec fn frame(payload: Seq<u8>) -> Seq<u8> {
    le_bytes(payload.len()) + payload
}

/// The length of the payload that the frame at the start of `bytes` announces, once
/// the length itself is there.
pub open spec fn announced(bytes: Seq<u8>) -> Option<nat> {
    if bytes.len() < PREFIX_LEN {
        None
    } else {
        Some(le_value(bytes))
    }
}

/// Whether `bytes` begins with a frame of which nothing is missing.
pub open spec fn frame_complete(bytes: Seq<u8>) -> bool {
    announced(bytes) matches Some(n) && PREFIX_LEN + n <= bytes.len()
}

/// The payload of the frame at the start of `bytes`.
pub open spec fn first_payload(bytes: Seq<u8>) -> Seq<u8> {
    bytes.subrange(PREFIX_LEN as int, PREFIX_LEN + le_value(bytes))
}

/// What follows the frame at the start of `bytes`.
pub open spec fn after_first(bytes: Seq<u8>) -> Seq<u8> {
    bytes.skip(PREFIX_LEN + le_value(bytes))
}

/// Reads four bytes as a number, the least significant one first.
fn read_le(bytes: &[u8]) -> (n: u32)
    requires
        bytes@.len() >= PREFIX_LEN,
    ensures
        n == le_value(bytes@),
{
    bytes[0] as u32 + 256 * (bytes[1] as u32) + 65536 * (bytes[2] as u32) + 16777216 * (
    bytes[3] as u32)
}

/// The codec of a stream of messages of type `T`.
///
/// It frames payloads; what turns a `T` into a payload and back is handed in.
pub struct RmpCodec<T>(pub std::marker::PhantomData<T>);

impl<T> RmpCodec<T> {
    /// A codec. It keeps nothing between messages.
    pub fn new() -> (codec: Self)
        ensures
            codec == RmpCodec::<T>(std::marker::PhantomData),
    {
        RmpCodec(std::marker::PhantomData)
    }

    /// Appends the frame of a serialized message to `dst`, or reports that the message
    /// could not be serialized and leaves `dst` alone.
    ///
    /// Of the length only the low four bytes are written.
    pub fn encode(&mut self, serialized: Result<Vec<u8>, String>, dst: &mut BytesMut) -> (res:
        Result<(), PoolError>)
        requires
            serialized matches Ok(data) ==> buffered(*old(dst)).len() + PREFIX_LEN + data@.len()
                <= isize::MAX,
        ensures
            match serialized {
                Ok(data) => {
                    &&& res == Ok::<(), PoolError>(())
                    &&& buffered(*final(dst)) == buffered(*old(dst)) + frame(data@)
                },
                Err(e) => {
                    &&& res == Err::<(), PoolError>(PoolError::Serialization(e))
                    &&& buffered(*final(dst)) == buffered(*old(dst))
                },
            },
    {
        let data: Vec<u8> = match serialized {
            Ok(data) => data,
            Err(e) => {
                return Err(PoolError::Serialization(e));
            },
        };
        let len: usize = data.len();
        dst.reserve(PREFIX_LEN + len);
        let low: u32 = #[verifier::truncate]
        (len as u32);
        put_u32_le(dst, low);
        dst.extend_from_slice(data.as_slice());
        proof {
            lemma_low_bytes(len, low);
            assert(buffered(*dst) =~= buffered(*old(dst)) + frame(data@));
        }
        Ok(())
    }
    /// Looks for a frame at the start of `src`. When all of it is there, its length is
    /// taken off the buffer and returned, and the payload comes next. Otherwise the
    /// buffer keeps its bytes, with room made for those that are missing.
    pub fn begin_frame(&mut self, src: &mut BytesMut) -> (payload_len: Option<usize>)
        ensures
            payload_len is Some <==> frame_complete(buffered(*old(src))),
            match payload_len {
                Some(n) => {
                    &&& n == le_value(buffered(*old(src)))
                    &&& buffered(*final(src)) == buffered(*old(src)).skip(PREFIX_LEN as int)
                },
                None => buffered(*final(src)) == buffered(*old(src)),
            },
    {
        if src.len() < PREFIX_LEN {
            return None;
        }
        let announced_len: u32 = read_le(contents(src));
        let needed: u64 = PREFIX_LEN as u64 + announced_len as u64;
        if (src.len() as u64) < needed {
            if needed <= isize::MAX as u64 {
                src.reserve((needed - src.len() as u64) as usize);
            }
            return None;
        }
        advance(src, PREFIX_LEN);
        Some(announced_len as usize)
    }

    /// Ends the reading of a frame whose payload of `payload_len` bytes stands at the
    /// start of `src` and was parsed to `parsed`. A payload that was understood is taken
    /// off the buffer; one that was not stays there.
    pub fn finish_frame(
        &mut self,
        src: &mut BytesMut,
        payload_len: usize,
        parsed: Result<T, String>,
    ) -> (res: Result<T, PoolError>)
        requires
            payload_len <= buffered(*old(src)).len(),
        ensures
            match parsed {
                Ok(item) => {
                    &&& res == Ok::<T, PoolError>(item)
                    &&& buffered(*final(src)) == buffered(*old(src)).skip(payload_len as int)
                },
                Err(e) => {
                    &&& res == Err::<T, PoolError>(PoolError::Deserialization(e))
                    &&& buffered(*final(src)) == buffered(*old(src))
                },
            },
    {
        match parsed {
            Ok(item) => {
                advance(src, payload_len);
                Ok(item)
            },
            Err(e) => Err(PoolError::Deserialization(e)),
        }
    }

    /// Reads the message at the start of `src`, if all of its frame is there; `parse`
    /// turns the payload into the message.
    ///
    /// A frame that is still incomplete stays in the buffer. A message that was read is
    /// taken off the buffer, frame and all. When `parse` rejects the payload, only the
    /// length in front of it has been taken off.
    pub fn decode<F: Fn(&[u8]) -> Result<T, String>>(&mut self, src: &mut BytesMut, parse: F) -> (res:
        Result<Option<T>, PoolError>)
        requires
            forall|payload: &[u8]|
                frame_complete(buffered(*old(src))) && payload@ == first_payload(
                    buffered(*old(src)),
                ) ==> #[trigger] call_requires(parse, (payload,)),
        ensures
            !frame_complete(buffered(*old(src))) ==> {
                &&& res == Ok::<Option<T>, PoolError>(None)
                &&& buffered(*final(src)) == buffered(*old(src))
            },
            frame_complete(buffered(*old(src))) ==> exists|
                payload: &[u8],
                parsed: Result<T, String>,
            | #[trigger]
                call_ensures(parse, (payload,), parsed) && payload@ == first_payload(
                    buffered(*old(src)),
                ) && match parsed {
                    Ok(item) => {
                        &&& res == Ok::<Option<T>, PoolError>(Some(item))
                        &&& buffered(*final(src)) == after_first(buffered(*old(src)))
                    },
                    Err(e) => {
                        &&& res == Err::<Option<T>, PoolError>(PoolError::Deserialization(e))
                        &&& buffered(*final(src)) == buffered(*old(src)).skip(PREFIX_LEN as int)
                    },
                },
    {
        let payload_len: usize = match self.begin_frame(src) {
            Some(payload_len) => payload_len,
            None => {
                return Ok(None);
            },
        };
        let ghost bytes = buffered(*old(src));
        let payload: &[u8] = slice_subrange(contents(src), 0, payload_len);
        assert(payload@ =~= first_payload(bytes));
        let parsed: Result<T, String> = parse(payload);
        assert(bytes.skip(PREFIX_LEN as int).skip(payload_len as int) =~= after_first(bytes));
        match self.finish_frame(src, payload_len, parsed) {
            Ok(item) => Ok(Some(item)),
            Err(e) => Err(e),
        }
    }
}

/// The four bytes of a number depend on the part of it below the limit only.
proof fn lemma_le_low(n: int, low: int)
    requires
        n >= 0,
        low == n % 0x1_0000_0000,
    ensures
        le_bytes(n as nat) == le_bytes(low as nat),
{
    let q = n / 0x1_0000_0000;
    assert(n == 0x1_0000_0000 * q + low);
    assert(n % 256 == low % 256);
    assert(n / 256 == 0x100_0000 * q + low / 256);
    assert((n / 256) % 256 == (low / 256) % 256);
    assert(n / 65536 == 0x1_0000 * q + low / 65536);
    assert((n / 65536) % 256 == (low / 65536) % 256);
    assert(n / 16777216 == 0x100 * q + low / 16777216);
    assert((n / 16777216) % 256 == (low / 16777216) % 256);
}

/// Cutting a length down to 32 bits keeps its low four bytes.
proof fn lemma_low_bytes(len: usize, low: u32)
    requires
        low == len as u32,
    ensures
        le_bytes(low as nat) == le_bytes(len as nat),
{
    assert(low == (len as u64) % 0x1_0000_0000u64) by (bit_vector)
        requires
            low == len as u32,
    ;
    lemma_le_low(len as int, low as int);
}

// ---- What holds of frames ----

/// Four bytes and the number they stand for determine each other.
proof fn lemma_le_inverse(bytes: Seq<u8>)
    requires
        bytes.len() >= PREFIX_LEN,
    ensures
        le_value(bytes) < LENGTH_LIMIT,
        le_bytes(le_value(bytes)) == bytes.take(PREFIX_LEN as int),
{
    let (b0, b1, b2, b3) = (bytes[0] as int, bytes[1] as int, bytes[2] as int, bytes[3] as int);
    let n = le_value(bytes) as int;
    assert(n / 256 == b1 + 256 * b2 + 65536 * b3);
    assert(n / 65536 == b2 + 256 * b3);
    assert(n / 16777216 == b3);
    assert(le_bytes(n as nat) =~= bytes.take(PREFIX_LEN as int));
}

/// A number below the limit is read back from its four bytes.
proof fn lemma_le_roundtrip(n: nat, rest: Seq<u8>)
    requires
        n < LENGTH_LIMIT,
    ensures
        le_value(le_bytes(n) + rest) == n,
{
    let bytes = le_bytes(n) + rest;
    let q1 = n / 256;
    let q2 = n / 65536;
    let q3 = n / 16777216;
    assert(q2 == q1 / 256);
    assert(q3 == q2 / 256);
    assert(q3 < 256);
    assert(n == 256 * q1 + n % 256);
    assert(q1 == 256 * q2 + q1 % 256);
    assert(q2 == 256 * q3 + q2 % 256);
}

/// A frame is read back as it was written: whatever follows the frame of a payload
/// shorter than 2^32 bytes, the frame is complete, its payload is that payload, and
/// what is left is what followed.
pub proof fn law_frame_read_back(payload: Seq<u8>, rest: Seq<u8>)
    requires
        payload.len() < LENGTH_LIMIT,
    ensures
        frame_complete(frame(payload) + rest),
        first_payload(frame(payload) + rest) == payload,
        after_first(frame(payload) + rest) == rest,
{
    let bytes = frame(payload) + rest;
    assert(bytes =~= le_bytes(payload.len()) + (payload + rest));
    lemma_le_roundtrip(payload.len(), payload + rest);
    assert(first_payload(bytes) =~= payload);
    assert(after_first(bytes) =~= rest);
}

/// As long as a byte of a frame is missing, no message is read.
pub proof fn law_partial_frame_waits(payload: Seq<u8>, received: nat)
    requires
        payload.len() < LENGTH_LIMIT,
        received < frame(payload).len(),
    ensures
        !frame_complete(frame(payload).take(received as int)),
{
    let bytes = frame(payload).take(received as int);
    if received >= PREFIX_LEN {
        assert(bytes =~= le_bytes(payload.len()) + payload.take(received - PREFIX_LEN));
        lemma_le_roundtrip(payload.len(), payload.take(received - PREFIX_LEN));
    }
}

/// Bytes that arrive later change nothing about a frame that is already complete.
pub proof fn law_later_bytes_do_not_matter(bytes: Seq<u8>, more: Seq<u8>)
    requires
        frame_complete(bytes),
    ensures
        frame_complete(bytes + more),
        first_payload(bytes + more) == first_payload(bytes),
        after_first(bytes + more) == after_first(bytes) + more,
{
    assert(first_payload(bytes + more) =~= first_payload(bytes));
    assert(after_first(bytes + more) =~= after_first(bytes) + more);
}

/// Only one frame reads as a given payload: writing the payload that was read, and
/// then what was left, gives the bytes that were there.
pub proof fn law_frame_is_unique(bytes: Seq<u8>)
    requires
        frame_complete(bytes),
    ensures
        frame(first_payload(bytes)) + after_first(bytes) == bytes,
{
    lemma_le_inverse(bytes);
    assert(first_payload(bytes).len() == le_value(bytes));
    assert(frame(first_payload(bytes)) + after_first(bytes) =~= bytes);
}

/// The frames of several payloads, one after the other.
pub open spec fn frames(payloads: Seq<Seq<u8>>) -> Seq<u8>
    decreases payloads.len(),
{
    if payloads.len() == 0 {
        Seq::empty()
    } else {
        frame(payloads[0]) + frames(payloads.skip(1))
    }
}

/// The payloads that reading frame after frame finds in `bytes`, and the bytes that
/// are left when no complete frame remains.
pub open spec fn read_all(bytes: Seq<u8>) -> (Seq<Seq<u8>>, Seq<u8>)
    decreases bytes.len(),
{
    if frame_complete(bytes) {
        let (payloads, rest) = read_all(after_first(bytes));
        (seq![first_payload(bytes)] + payloads, rest)
    } else {
        (Seq::empty(), bytes)
    }
}

/// A stream of frames is read back message by message, in order; an incomplete frame
/// at its end stays where it is.
pub proof fn law_stream_read_back(payloads: Seq<Seq<u8>>, tail: Seq<u8>)
    requires
        forall|i: int| 0 <= i < payloads.len() ==> (#[trigger] payloads[i]).len() < LENGTH_LIMIT,
        !frame_complete(tail),
    ensures
        read_all(frames(payloads) + tail) == (payloads, tail),
    decreases payloads.len(),
{
    if payloads.len() == 0 {
        assert(frames(payloads) + tail =~= tail);
        assert(payloads =~= Seq::empty());
    } else {
        let rest = payloads.skip(1);
        law_stream_read_back(rest, tail);
        assert(frames(payloads) + tail =~= frame(payloads[0]) + (frames(rest) + tail));
        law_frame_read_back(payloads[0], frames(rest) + tail);
        assert(seq![payloads[0]] + rest =~= payloads);
    }
}

// ---- What holds of the codec's calls ----

/// Four bytes are the number that they are written for, up to whole multiples of the limit.
proof fn lemma_le_sum(n: nat)
    ensures
        ({
            let b = le_bytes(n);
            &&& b.len() == 4
            &&& b[0] + 0x100 * b[1] + 0x1_0000 * b[2] + 0x100_0000 * b[3] == n % 0x1_0000_0000
        }),
{
    let low = n % 0x1_0000_0000;
    lemma_le_low(n as int, low as int);
    lemma_le_roundtrip(low, Seq::empty());
    assert(le_bytes(low) + Seq::<u8>::empty() =~= le_bytes(low));
}

/// Writing a message leaves the bytes that are there, and puts behind them the length of the
/// message in four bytes, the least significant one first, and the bytes of the message as they
/// are. Of a length of 2^32 or more the part below that is written. A message without bytes is an
/// error in its own words, and nothing is written.
pub proof fn law_encode_writes_length_and_payload<T>(
    codec: &mut RmpCodec<T>,
    serialized: Result<Vec<u8>, String>,
    dst: &mut BytesMut,
    res: Result<(), PoolError>,
)
    ensures
        (serialized matches Ok(data) ==> buffered(*old(dst)).len() + 4 + data@.len() <= isize::MAX)
            ==> call_requires(RmpCodec::<T>::encode, (codec, serialized, dst)),
        call_ensures(RmpCodec::<T>::encode, (codec, serialized, dst), res) ==> {
            let (a, b) = (buffered(*old(dst)), buffered(*final(dst)));
            let n = a.len() as int;
            &&& serialized matches Ok(data) ==> {
                &&& res is Ok
                &&& b.len() == n + 4 + data@.len()
                &&& b.take(n) == a
                &&& b[n] + 0x100 * b[n + 1] + 0x1_0000 * b[n + 2] + 0x100_0000 * b[n + 3]
                    == data@.len() % 0x1_0000_0000
                &&& b.skip(n + 4) == data@
            }
            &&& serialized matches Err(e) ==> res == Err::<(), PoolError>(
                PoolError::Serialization(e),
            ) && b == a
        },
{
    if let Ok(data) = serialized {
        let a = buffered(*old(dst));
        lemma_le_sum(data@.len());
        assert((a + frame(data@)).take(a.len() as int) =~= a);
        assert((a + frame(data@)).skip(a.len() + 4int) =~= data@);
    }
}

/// A message is read when all bytes are there that the length in front of it announces, four bytes
/// with the least significant one first; until then nothing is read and every byte stays. What is
/// read is what `parse` makes of exactly those bytes. When `parse` makes a message of them, it is
/// handed back and what is left is what followed; when it does not, that is an error in its words,
/// and only the length has been taken off.
pub proof fn law_decode_reads_what_the_length_announces<T, F: Fn(&[u8]) -> Result<T, String>>(
    codec: &mut RmpCodec<T>,
    src: &mut BytesMut,
    parse: F,
    res: Result<Option<T>, PoolError>,
)
    ensures
        (forall|payload: &[u8]| #[trigger] call_requires(parse, (payload,))) ==> call_requires(
            RmpCodec::<T>::decode::<F>,
            (codec, src, parse),
        ),
        call_ensures(RmpCodec::<T>::decode::<F>, (codec, src, parse), res) ==> {
            let (a, b) = (buffered(*old(src)), buffered(*final(src)));
            let n = a[0] + 0x100 * a[1] + 0x1_0000 * a[2] + 0x100_0000 * a[3];
            &&& a.len() < 4 || a.len() < 4 + n ==> res == Ok::<Option<T>, PoolError>(None) && b
                == a
            &&& a.len() >= 4 && a.len() >= 4 + n ==> exists|
                payload: &[u8],
                parsed: Result<T, String>,
            | #[trigger]
                call_ensures(parse, (payload,), parsed) && payload@ == a.subrange(4, 4 + n) && {
                    &&& parsed matches Ok(item) ==> res == Ok::<Option<T>, PoolError>(Some(item))
                        && b == a.skip(4 + n)
                    &&& parsed matches Err(e) ==> res == Err::<Option<T>, PoolError>(
                        PoolError::Deserialization(e),
                    ) && b == a.skip(4)
                }
        },
{
}

/// What is written is read back: a message of less than 2^32 bytes that was written to an empty
/// buffer, whatever came behind it later, is read as what `parse` makes of that message's own
/// bytes, and what came behind it is left.
pub proof fn law_decode_reads_what_encode_wrote<T, F: Fn(&[u8]) -> Result<T, String>>(
    writer: &mut RmpCodec<T>,
    reader: &mut RmpCodec<T>,
    data: Vec<u8>,
    dst: &mut BytesMut,
    src: &mut BytesMut,
    behind: Seq<u8>,
    parse: F,
    written: Result<(), PoolError>,
    read: Result<Option<T>, PoolError>,
)
    requires
        data@.len() < 0x1_0000_0000,
        buffered(*old(dst)).len() == 0,
        call_ensures(RmpCodec::<T>::encode, (writer, Ok::<Vec<u8>, String>(data), dst), written),
        buffered(*old(src)) == buffered(*final(dst)) + behind,
        call_ensures(RmpCodec::<T>::decode::<F>, (reader, src, parse), read),
    ensures
        written is Ok,
        exists|payload: &[u8], parsed: Result<T, String>| #[trigger]
            call_ensures(parse, (payload,), parsed) && payload@ == data@ && match parsed {
                Ok(item) => read == Ok::<Option<T>, PoolError>(Some(item)) && buffered(*final(src))
                    == behind,
                Err(e) => read == Err::<Option<T>, PoolError>(PoolError::Deserialization(e)),
            },
{
    law_frame_read_back(data@, behind);
    assert(buffered(*old(dst)) + frame(data@) =~= frame(data@));
}

/// The first half of reading: the length is taken off and handed back as soon as all bytes that it
/// announces are there; until then nothing is taken off.
pub proof fn law_begin_frame_takes_off_the_length<T>(
    codec: &mut RmpCodec<T>,
    src: &mut BytesMut,
    payload_len: Option<usize>,
)
    ensures
        call_requires(RmpCodec::<T>::begin_frame, (codec, src)),
        call_ensures(RmpCodec::<T>::begin_frame, (codec, src), payload_len) ==> {
            let (a, b) = (buffered(*old(src)), buffered(*final(src)));
            let n = a[0] + 0x100 * a[1] + 0x1_0000 * a[2] + 0x100_0000 * a[3];
            &&& a.len() < 4 || a.len() < 4 + n ==> payload_len is None && b == a
            &&& a.len() >= 4 && a.len() >= 4 + n ==> {
                &&& payload_len matches Some(m) && m == n
                &&& b == a.skip(4)
            }
        },
{
}

/// The second half of reading: bytes that were understood are taken off, and the message is handed
/// back; bytes that were not stay, and the error is handed back in its own words.
pub proof fn law_finish_frame_takes_off_what_was_understood<T>(
    codec: &mut RmpCodec<T>,
    src: &mut BytesMut,
    payload_len: usize,
    parsed: Result<T, String>,
    res: Result<T, PoolError>,
)
    ensures
        payload_len <= buffered(*old(src)).len() ==> call_requires(
            RmpCodec::<T>::finish_frame,
            (codec, src, payload_len, parsed),
        ),
        call_ensures(RmpCodec::<T>::finish_frame, (codec, src, payload_len, parsed), res) ==> {
            let (a, b) = (buffered(*old(src)), buffered(*final(src)));
            &&& parsed matches Ok(item) ==> res == Ok::<T, PoolError>(item) && b == a.skip(
                payload_len as int,
            )
            &&& parsed matches Err(e) ==> res == Err::<T, PoolError>(PoolError::Deserialization(e))
                && b == a
        },
{
}

} // verus!
