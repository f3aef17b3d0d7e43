//! The unsynchronisation scheme: an encoder puts a 0x00 after every 0xFF, so
//! that the stored bytes never look like the start of an audio frame, and a
//! decoder takes those zero bytes out again.

use crate::io::{advanced, lemma_advanced_twice, Bytestream, FiniteStream};
use vstd::prelude::*;

verus! {

/// What is left of `raw` once every 0x00 that directly follows a 0xFF is
/// taken out, where the byte before `raw` was `last`.
pub open spec fn decode_after(last: u8, raw: Seq<u8>) -> Seq<u8>
    decreases raw.len(),
{
    if raw.len() == 0 {
        Seq::empty()
    } else if last == 0xff && raw[0] == 0x00 {
        decode_after(0x00, raw.skip(1))
    } else {
        seq![raw[0]] + decode_after(raw[0], raw.skip(1))
    }
}

/// What is left of `raw` once every 0x00 that directly follows a 0xFF is
/// taken out.
pub open spec fn unsync_decode(raw: Seq<u8>) -> Seq<u8> {
    decode_after(0x00, raw)
}

/// The last byte of `raw`, or `last` where `raw` is empty: the byte that
/// comes before whatever follows `raw`.
pub open spec fn last_of(last: u8, raw: Seq<u8>) -> u8 {
    if raw.len() == 0 {
        last
    } else {
        raw.last()
    }
}

/// No 0x00 in `data` directly follows a 0xFF.
pub open spec fn is_decoded(data: Seq<u8>) -> bool {
    forall|i: int| 0 <= i < data.len() - 1 ==> !(#[trigger] data[i] == 0xff && data[i + 1] == 0x00)
}

/// Decoding never makes data longer.
pub proof fn lemma_decode_len(last: u8, raw: Seq<u8>)
    ensures
        decode_after(last, raw).len() <= raw.len(),
    decreases raw.len(),
{
    if raw.len() > 0 {
        lemma_decode_len(0x00, raw.skip(1));
        lemma_decode_len(raw[0], raw.skip(1));
    }
}

/// Only a 0xFF before the data, with a 0x00 at its front, makes a difference
/// to what is decoded.
pub proof fn lemma_decode_fresh(last: u8, raw: Seq<u8>)
    requires
        !(last == 0xff && raw.len() > 0 && raw[0] == 0x00),
    ensures
        decode_after(last, raw) == unsync_decode(raw),
{
}

/// Decoding data in two parts, handing the last byte of the first part on to
/// the second, gives what decoding it in one piece gives.
pub proof fn lemma_decode_split(last: u8, first: Seq<u8>, second: Seq<u8>)
    ensures
        decode_after(last, first + second) == decode_after(last, first) + decode_after(
            last_of(last, first),
            second,
        ),
    decreases first.len(),
{
    if first.len() > 0 {
        let rest = first.skip(1);
        assert((first + second).skip(1) =~= rest + second);
        if last == 0xff && first[0] == 0x00 {
            lemma_decode_split(0x00, rest, second);
        } else {
            lemma_decode_split(first[0], rest, second);
        }
    }
}

/// Decoding data that holds no 0x00 directly after a 0xFF changes nothing,
/// so decoding a second time gives back what the first time gave.
pub proof fn lemma_decode_idempotent(data: Seq<u8>)
    requires
        is_decoded(data),
    ensures
        unsync_decode(data) == data,
        unsync_decode(unsync_decode(data)) == data,
{
    lemma_decode_unstuffed(0x00, data);
}

/// Data that holds no 0x00 directly after a 0xFF, and does not start with a
/// 0x00 that follows a 0xFF before it, decodes to itself.
pub proof fn lemma_decode_unstuffed(last: u8, data: Seq<u8>)
    requires
        is_decoded(data),
        !(last == 0xff && data.len() > 0 && data[0] == 0x00),
    ensures
        decode_after(last, data) == data,
    decreases data.len(),
{
    if data.len() > 0 {
        let rest = data.skip(1);
        assert forall|i: int| 0 <= i < rest.len() - 1 implies !(#[trigger] rest[i] == 0xff && rest[i
            + 1] == 0x00) by {
        }
        lemma_decode_unstuffed(data[0], rest);
    }
}

/// What a stream that decodes chunk by chunk gives for `chunks`, where the
/// byte before the first chunk was `last`: each chunk is decoded after the
/// last byte of what came before it.
pub open spec fn decode_chunks(last: u8, chunks: Seq<Seq<u8>>) -> Seq<u8>
    decreases chunks.len(),
{
    if chunks.len() == 0 {
        Seq::empty()
    } else {
        decode_after(last, chunks[0]) + decode_chunks(last_of(last, chunks[0]), chunks.skip(1))
    }
}

/// The chunks joined in their order.
pub open spec fn join_chunks(chunks: Seq<Seq<u8>>) -> Seq<u8>
    decreases chunks.len(),
{
    if chunks.len() == 0 {
        Seq::empty()
    } else {
        chunks[0] + join_chunks(chunks.skip(1))
    }
}

/// However data is cut into chunks, of one byte or of many and empty ones
/// too, decoding chunk by chunk gives what decoding the whole in one go gives.
pub proof fn lemma_decode_any_split(last: u8, chunks: Seq<Seq<u8>>)
    ensures
        decode_chunks(last, chunks) == decode_after(last, join_chunks(chunks)),
        last == 0x00 ==> decode_chunks(last, chunks) == unsync_decode(join_chunks(chunks)),
    decreases chunks.len(),
{
    if chunks.len() > 0 {
        lemma_decode_any_split(last_of(last, chunks[0]), chunks.skip(1));
        lemma_decode_split(last, chunks[0], join_chunks(chunks.skip(1)));
    }
}

/// Decodes `buf[start..]` in place towards the front of `buf` and returns
/// the length of the result, which then is the front of `buf`.
fn compact(buf: &mut [u8], start: usize) -> (end: usize)
    requires
        start <= old(buf)@.len(),
    ensures
        final(buf)@.len() == old(buf)@.len(),
        end <= old(buf)@.len() - start,
        final(buf)@.take(end as int) == unsync_decode(old(buf)@.skip(start as int)),
{
    let len = buf.len();
    let mut src: usize = start;
    let mut dst: usize = 0;
    let ghost raw = buf@;
    while src < len
        invariant
            raw == old(buf)@,
            len == raw.len(),
            buf@.len() == len,
            start <= src <= len,
            dst <= src - start,
            forall|i: int| src <= i < len ==> buf@[i] == raw[i],
            buf@.take(dst as int) + unsync_decode(raw.skip(src as int)) == unsync_decode(
                raw.skip(start as int),
            ),
        decreases len - src,
    {
        let byte = buf[src];
        let ghost tail = raw.skip(src as int);
        buf[dst] = byte;
        dst += 1;
        src += 1;
        proof {
            assert(tail.skip(1) =~= raw.skip(src as int));
        }
        if byte == 0xff && src < len && buf[src] == 0x00 {
            proof {
                assert(raw.skip(src as int).skip(1) =~= raw.skip(src + 1));
            }
            src += 1;
        } else {
            proof {
                lemma_decode_fresh(byte, raw.skip(src as int));
            }
        }
        proof {
            assert(unsync_decode(tail) == seq![byte] + decode_after(byte, tail.skip(1)));
        }
    }
    dst
}

/// Takes the unsynchronisation scheme off `buf` in place.
///
/// The buffer is gone through once, front to back, with a read and a write
/// position. Each byte read is written, and where it is a 0xFF and the next
/// byte is a 0x00, that 0x00 is passed over. The decoded data is the front of
/// the buffer, of the length returned; what stands behind it is left over
/// from the pass.
pub fn decode_unsynchronisation(buf: &mut [u8]) -> (len: usize)
    ensures
        final(buf)@.len() == old(buf)@.len(),
        len <= old(buf)@.len(),
        final(buf)@.take(len as int) == unsync_decode(old(buf)@),
{
    proof {
        assert(buf@.skip(0) =~= buf@);
    }
    compact(buf, 0)
}

/// The number of bytes that are taken from `raw` to deliver `count` decoded
/// bytes one by one, where the byte before `raw` was `last`: the bytes
/// delivered and every 0x00 dropped before them. A 0x00 that is to be dropped
/// behind the last byte delivered is not taken yet.
pub open spec fn raw_len(last: u8, raw: Seq<u8>, count: nat) -> nat
    decreases raw.len(),
{
    if count == 0 || raw.len() == 0 {
        0
    } else if last == 0xff && raw[0] == 0x00 {
        1 + raw_len(0x00, raw.skip(1), count)
    } else {
        1 + raw_len(raw[0], raw.skip(1), (count - 1) as nat)
    }
}

/// The last byte taken from `raw` once `count` decoded bytes are delivered
/// one by one: the last of them, or `last` where none is.
pub open spec fn last_after(last: u8, raw: Seq<u8>, count: nat) -> u8 {
    if count == 0 {
        last
    } else {
        decode_after(last, raw)[count - 1]
    }
}

/// Delivering `count` bytes and then `more` takes the raw bytes of both
/// together, and after the first `count` the decoding goes on from the last
/// byte taken and the rest of the raw bytes.
pub proof fn lemma_raw_len_add(last: u8, raw: Seq<u8>, count: nat, more: nat)
    requires
        count <= decode_after(last, raw).len(),
    ensures
        count <= raw_len(last, raw, count) <= raw.len(),
        count > 0 ==> raw[raw_len(last, raw, count) - 1] == decode_after(last, raw)[count - 1],
        decode_after(last_after(last, raw, count), raw.skip(raw_len(last, raw, count) as int))
            == decode_after(last, raw).skip(count as int),
        raw_len(last, raw, count + more) == raw_len(last, raw, count) + raw_len(
            last_after(last, raw, count),
            raw.skip(raw_len(last, raw, count) as int),
            more,
        ),
    decreases raw.len(),
{
    if count == 0 {
        assert(raw.skip(0) =~= raw);
    } else {
        let rest = raw.skip(1);
        if last == 0xff && raw[0] == 0x00 {
            lemma_raw_len_add(0x00, rest, count, more);
            let taken = raw_len(0x00, rest, count);
            assert(rest.skip(taken as int) =~= raw.skip(taken as int + 1));
        } else {
            let fewer = (count - 1) as nat;
            lemma_raw_len_add(raw[0], rest, fewer, more);
            let taken = raw_len(raw[0], rest, fewer);
            assert(rest.skip(taken as int) =~= raw.skip(taken as int + 1));
        }
    }
}

/// A decoded byte takes one raw byte, or two where a 0x00 is dropped before
/// it; so `count` of them take at least `count` raw bytes and at most twice
/// that, and one fewer where no 0x00 is dropped before the first.
pub proof fn lemma_raw_len_bounds(last: u8, raw: Seq<u8>, count: nat)
    requires
        count <= decode_after(last, raw).len(),
    ensures
        count <= raw_len(last, raw, count) <= 2 * count,
        count > 0 && !(last == 0xff && raw[0] == 0x00) ==> raw_len(last, raw, count) < 2 * count,
    decreases raw.len(),
{
    if count > 0 {
        if last == 0xff && raw[0] == 0x00 {
            lemma_raw_len_bounds(0x00, raw.skip(1), count);
        } else {
            lemma_raw_len_bounds(raw[0], raw.skip(1), (count - 1) as nat);
        }
    }
}

/// What a read of `len` raw bytes at once has taken, held against what the
/// bytes decoded from it would have taken one by one. Either both took the
/// same, and the last raw byte is the last decoded one; or the read took one
/// byte more, a 0x00 behind a 0xFF, which one by one is only dropped when
/// the next byte is read.
pub proof fn lemma_raw_len_chunk(last: u8, raw: Seq<u8>, len: nat)
    requires
        len <= raw.len(),
    ensures
        ({
            let chunk = raw.take(len as int);
            let decoded = decode_after(last, chunk);
            let taken = raw_len(last, raw, decoded.len());
            &&& decoded.len() <= len
            &&& taken == len || taken + 1 == len
            &&& taken == len && len > 0 ==> decoded.len() > 0 && decoded.last() == chunk[len - 1]
            &&& taken + 1 == len ==> decoded.len() < len && chunk[len - 1] == 0x00 && last_after(
                last,
                chunk,
                decoded.len(),
            ) == 0xff
        }),
    decreases len,
{
    if len > 0 {
        let rest = raw.skip(1);
        let fewer = (len - 1) as nat;
        assert(rest.take(fewer as int) =~= raw.take(len as int).skip(1));
        if last == 0xff && raw[0] == 0x00 {
            lemma_raw_len_chunk(0x00, rest, fewer);
        } else {
            lemma_raw_len_chunk(raw[0], rest, fewer);
        }
    }
}

/// Where a stream has given up the raw bytes of `count` decoded bytes, what
/// it has left before its bound after the raw bytes of `more` decoded bytes
/// is what it had left, before, after the raw bytes of `count + more`.
pub proof fn lemma_left_after_steps<B: Bytestream>(source: B, after: B, last: u8, count: nat)
    requires
        count <= decode_after(last, source.remaining()).len(),
        advanced(source, after, raw_len(last, source.remaining(), count)),
    ensures
        forall|more: nat|
            after.left_after(
                #[trigger] raw_len(
                    last_after(last, source.remaining(), count),
                    after.remaining(),
                    more,
                ),
            ) == source.left_after(raw_len(last, source.remaining(), count + more)),
{
    assert forall|more: nat|
        after.left_after(
            #[trigger] raw_len(
                last_after(last, source.remaining(), count),
                after.remaining(),
                more,
            ),
        ) == source.left_after(raw_len(last, source.remaining(), count + more)) by {
        lemma_raw_len_add(last, source.remaining(), count, more);
    }
}

/// A stream that takes the unsynchronisation scheme off the bytes of another
/// stream as they are read.
///
/// All it keeps between reads is the last byte it took from the other
/// stream. Whatever the reads and however long, together they give what
/// [`decode_unsynchronisation`] gives for the whole of the other stream, and
/// they leave the other stream where as many reads of one byte each would
/// have left it: see [`UnsyncStream::stepped`].
pub struct UnsyncStream<B: Bytestream + FiniteStream> {
    inner: B,
    byte: u8,
}

impl<B: Bytestream + FiniteStream> UnsyncStream<B> {
    /// The stream that is read from.
    pub closed spec fn source(&self) -> B {
        self.inner
    }

    /// The last byte taken from the stream that is read from; 0x00 before
    /// the first.
    pub closed spec fn last_byte(&self) -> u8 {
        self.byte
    }

    /// `after` is `before` once `count` decoded bytes are read from it: the
    /// last byte taken is the last of them, and the stream that is read from
    /// has given up the raw bytes that delivering them one by one takes.
    pub open spec fn stepped(before: Self, after: Self, count: nat) -> bool {
        let last = before.last_byte();
        let raw = before.source().remaining();
        &&& after.last_byte() == last_after(last, raw, count)
        &&& advanced(before.source(), after.source(), raw_len(last, raw, count))
    }

    /// Puts the filter on `inner`, whose next byte counts as the first of
    /// the data.
    pub fn new(inner: B) -> (stream: Self)
        ensures
            stream.source() == inner,
            stream.last_byte() == 0x00,
            stream.remaining() == unsync_decode(inner.remaining()),
            stream.left_after(0) == inner.left_after(0),
            stream.byte_len() == inner.byte_len(),
    {
        UnsyncStream { inner, byte: 0 }
    }

    /// Reads of `count` bytes and then of `more` are a read of both.
    pub proof fn lemma_stepped_twice(
        before: Self,
        between: Self,
        after: Self,
        count: nat,
        more: nat,
    )
        requires
            Self::stepped(before, between, count),
            Self::stepped(between, after, more),
            count + more <= decode_after(before.last_byte(), before.source().remaining()).len(),
        ensures
            Self::stepped(before, after, count + more),
    {
        let last = before.last_byte();
        let raw = before.source().remaining();
        lemma_raw_len_add(last, raw, count, more);
        lemma_raw_len_add(between.last_byte(), between.source().remaining(), more, 0);
        lemma_advanced_twice(
            before.source(),
            between.source(),
            after.source(),
            raw_len(last, raw, count),
            raw_len(between.last_byte(), between.source().remaining(), more),
        );
    }
}

impl<B: Bytestream + FiniteStream> FiniteStream for UnsyncStream<B> {
    fn bytes_available(&self) -> (n: u64) {
        self.inner.bytes_available()
    }

    fn len(&self) -> (n: u64) {
        self.inner.len()
    }

    fn bytes_read(&self) -> (n: u64) {
        self.inner.bytes_read()
    }
}

impl<B: Bytestream + FiniteStream> Bytestream for UnsyncStream<B> {
    /// What is left of the other stream, decoded after the last byte taken
    /// from it.
    open spec fn remaining(&self) -> Seq<u8> {
        decode_after(self.last_byte(), self.source().remaining())
    }

    open spec fn byte_len(&self) -> nat {
        self.source().byte_len()
    }

    /// Bytes are counted as the stream that is read from counts them, the
    /// zero bytes that the filter takes out included.
    open spec fn left_after(&self, count: nat) -> nat {
        self.source().left_after(raw_len(self.last_byte(), self.source().remaining(), count))
    }

    proof fn lemma_left_after(&self, count: nat) {
        let raw = self.inner.remaining();
        lemma_decode_len(self.byte, raw);
        lemma_raw_len_add(self.byte, raw, count, 0);
        lemma_raw_len_add(self.byte, raw, self.remaining().len(), 0);
        self.inner.lemma_left_after(raw_len(self.byte, raw, count));
        self.inner.lemma_left_after(raw.len());
    }

    /// Takes one byte from the other stream; where the byte before it was a
    /// 0xFF and this one is a 0x00, it is dropped and the next is taken.
    fn read_byte(&mut self) -> (r: Result<u8, std::io::Error>)
        ensures
            r is Ok ==> final(self).last_byte() == r->Ok_0,
            r is Ok ==> advanced(
                old(self).source(),
                final(self).source(),
                if old(self).last_byte() == 0xff && old(self).source().remaining()[0] == 0x00 {
                    2
                } else {
                    1
                },
            ),
            r is Ok ==> Self::stepped(*old(self), *final(self), 1),
    {
        let ghost raw = self.inner.remaining();
        let ghost source = self.inner;
        let last = self.byte;
        let first = match self.inner.read_byte() {
            Ok(byte) => byte,
            Err(e) => {
                return Err(e);
            },
        };
        self.byte = first;
        let ghost rest = raw.skip(1);
        if last == 0xff && first == 0x00 {
            let ghost between = self.inner;
            let second = match self.inner.read_byte() {
                Ok(byte) => byte,
                Err(e) => {
                    assert(decode_after(last, raw) == decode_after(0x00, rest));
                    return Err(e);
                },
            };
            self.byte = second;
            proof {
                assert(decode_after(0x00, rest) == seq![second] + decode_after(
                    second,
                    rest.skip(1),
                ));
                lemma_advanced_twice(source, between, self.inner, 1, 1);
                assert(raw_len(0x00, rest, 1) == 1 + raw_len(second, rest.skip(1), 0));
            }
        } else {
            proof {
                assert(raw_len(last, raw, 1) == 1 + raw_len(first, rest, 0));
            }
        }
        proof {
            assert forall|more: nat| #[trigger]
                self.left_after(more) == old(self).left_after(1 + more) by {
                lemma_raw_len_add(last, raw, 1, more);
            }
        }
        Ok(self.byte)
    }

    fn read_double_bytes(&mut self) -> (r: Result<[u8; 2], std::io::Error>)
        ensures
            r is Ok ==> Self::stepped(*old(self), *final(self), 2),
    {
        let b0 = match self.read_byte() {
            Ok(byte) => byte,
            Err(e) => {
                return Err(e);
            },
        };
        let ghost s1 = *self;
        let b1 = match self.read_byte() {
            Ok(byte) => byte,
            Err(e) => {
                return Err(e);
            },
        };
        proof {
            Self::lemma_stepped_twice(*old(self), s1, *self, 1, 1);
            lemma_left_after_steps(old(self).source(), self.source(), old(self).last_byte(), 2);
        }
        Ok([b0, b1])
    }

    fn read_triple_bytes(&mut self) -> (r: Result<[u8; 3], std::io::Error>)
        ensures
            r is Ok ==> Self::stepped(*old(self), *final(self), 3),
    {
        let b0 = match self.read_byte() {
            Ok(byte) => byte,
            Err(e) => {
                return Err(e);
            },
        };
        let ghost s1 = *self;
        let b1 = match self.read_byte() {
            Ok(byte) => byte,
            Err(e) => {
                return Err(e);
            },
        };
        let ghost s2 = *self;
        let b2 = match self.read_byte() {
            Ok(byte) => byte,
            Err(e) => {
                return Err(e);
            },
        };
        proof {
            Self::lemma_stepped_twice(*old(self), s1, s2, 1, 1);
            Self::lemma_stepped_twice(*old(self), s2, *self, 2, 1);
            lemma_left_after_steps(old(self).source(), self.source(), old(self).last_byte(), 3);
        }
        Ok([b0, b1, b2])
    }

    fn read_quad_bytes(&mut self) -> (r: Result<[u8; 4], std::io::Error>)
        ensures
            r is Ok ==> Self::stepped(*old(self), *final(self), 4),
    {
        let b0 = match self.read_byte() {
            Ok(byte) => byte,
            Err(e) => {
                return Err(e);
            },
        };
        let ghost s1 = *self;
        let b1 = match self.read_byte() {
            Ok(byte) => byte,
            Err(e) => {
                return Err(e);
            },
        };
        let ghost s2 = *self;
        let b2 = match self.read_byte() {
            Ok(byte) => byte,
            Err(e) => {
                return Err(e);
            },
        };
        let ghost s3 = *self;
        let b3 = match self.read_byte() {
            Ok(byte) => byte,
            Err(e) => {
                return Err(e);
            },
        };
        proof {
            Self::lemma_stepped_twice(*old(self), s1, s2, 1, 1);
            Self::lemma_stepped_twice(*old(self), s2, s3, 2, 1);
            Self::lemma_stepped_twice(*old(self), s3, *self, 3, 1);
            lemma_left_after_steps(old(self).source(), self.source(), old(self).last_byte(), 4);
        }
        Ok([b0, b1, b2, b3])
    }

    /// Fills `buf` from the other stream in one read and decodes it in
    /// place, the 0x00 at its front too where the last byte taken before was
    /// a 0xFF. The last byte of the read, as it came, is kept for the reads
    /// to come. Where decoding left the buffer short, it is filled up byte
    /// by byte. An empty buffer leaves the stream as it is.
    fn read_buf_bytes(&mut self, buf: &mut [u8]) -> (r: Result<(), std::io::Error>)
        ensures
            old(buf)@.len() == 0 ==> *final(self) == *old(self),
            r is Ok ==> Self::stepped(*old(self), *final(self), old(buf)@.len()),
    {
        let len = buf.len();
        let ghost decoded = self.remaining();
        let ghost raw = self.inner.remaining();
        let ghost last = self.byte;
        let ghost source = self.inner;
        if len > 0 {
            match self.inner.read_buf_bytes(buf) {
                Ok(()) => {},
                Err(e) => {
                    proof {
                        lemma_decode_len(last, raw);
                    }
                    return Err(e);
                },
            }
            let ghost chunk = buf@;
            let start: usize = if self.byte == 0xff && buf[0] == 0x00 {
                1
            } else {
                0
            };
            self.byte = buf[len - 1];
            let mut dst = compact(buf, start);
            proof {
                let rest = raw.skip(len as int);
                assert(chunk + rest =~= raw);
                lemma_decode_split(last, chunk, rest);
                if start == 0 {
                    assert(chunk.skip(0) =~= chunk);
                    lemma_decode_fresh(last, chunk);
                }
                lemma_raw_len_chunk(last, raw, len as nat);
            }
            while dst < len
                invariant
                    decoded == old(self).remaining(),
                    raw == old(self).source().remaining(),
                    last == old(self).last_byte(),
                    source == old(self).source(),
                    len == old(buf)@.len(),
                    buf@.len() == len,
                    dst <= len,
                    dst <= decoded.len(),
                    buf@.take(dst as int) == decoded.take(dst as int),
                    self.remaining() == decoded.skip(dst as int),
                    // The stream is where `dst` single reads would have left it, or one
                    // byte further: past a 0x00 behind a 0xFF that ended the one read,
                    // which the next single read would drop.
                    Self::stepped(*old(self), *self, dst as nat) || ({
                        let taken = raw_len(last, raw, dst as nat);
                        &&& dst < len
                        &&& self.last_byte() == 0x00
                        &&& last_after(last, raw, dst as nat) == 0xff
                        &&& taken < raw.len()
                        &&& raw[taken as int] == 0x00
                        &&& advanced(source, self.source(), taken + 1)
                    }),
                decreases len - dst,
            {
                let ghost before = *self;
                let byte = match self.read_byte() {
                    Ok(byte) => byte,
                    Err(e) => {
                        return Err(e);
                    },
                };
                proof {
                    let count = dst as nat;
                    let taken = raw_len(last, raw, count);
                    lemma_raw_len_add(last, raw, count, 1);
                    if Self::stepped(*old(self), before, count) {
                        Self::lemma_stepped_twice(*old(self), before, *self, count, 1);
                    } else {
                        let behind = raw.skip(taken as int);
                        assert(raw_len(0x00, behind.skip(1), 1) == 1 + raw_len(
                            behind.skip(1)[0],
                            behind.skip(1).skip(1),
                            0,
                        ));
                        lemma_advanced_twice(source, before.source(), self.source(), taken + 1, 1);
                    }
                }
                buf[dst] = byte;
                dst += 1;
            }
            proof {
                lemma_left_after_steps(source, self.source(), last, len as nat);
            }
        } else {
            proof {
                assert(raw.skip(0) =~= raw);
            }
        }
        Ok(())
    }

    /// Skips `count` decoded bytes by reading them one by one, so that the
    /// zero bytes put in behind 0xFF are left out of the count as they are
    /// left out of what is read.
    fn ignore_bytes(&mut self, count: u64) -> (r: Result<(), std::io::Error>)
        ensures
            r is Ok ==> Self::stepped(*old(self), *final(self), count as nat),
    {
        let ghost decoded = self.remaining();
        let mut done: u64 = 0;
        proof {
            assert(self.source().remaining().skip(0) =~= self.source().remaining());
        }
        while done < count
            invariant
                decoded == old(self).remaining(),
                done <= count,
                done <= decoded.len(),
                self.remaining() == decoded.skip(done as int),
                Self::stepped(*old(self), *self, done as nat),
            decreases count - done,
        {
            let ghost before = *self;
            match self.read_byte() {
                Ok(_) => {},
                Err(e) => {
                    return Err(e);
                },
            }
            proof {
                Self::lemma_stepped_twice(*old(self), before, *self, done as nat, 1);
            }
            done += 1;
        }
        proof {
            lemma_left_after_steps(
                old(self).source(),
                self.source(),
                old(self).last_byte(),
                count as nat,
            );
        }
        Ok(())
    }
}

} // verus!
