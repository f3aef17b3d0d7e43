//! What this crate asks of a source of bytes.

use vstd::prelude::*;

verus! {

/// A source of bytes that is read front to back.
///
/// A source is modelled by three things: [`remaining`](Bytestream::remaining),
/// the bytes it has yet to deliver; [`left_after`](Bytestream::left_after),
/// the count it keeps of the bytes before its end or bound; and
/// [`byte_len`](Bytestream::byte_len), its whole length.
///
/// A read succeeds exactly when the source still has as many bytes as the
/// read asks for. It then returns the first of them and leaves the source
/// [`advanced`] by that many, which each read says in three clauses. After a
/// failed read nothing is promised of the source.
pub trait Bytestream: Sized {
    /// The bytes that this source has yet to deliver, in the order in which
    /// reads return them.
    spec fn remaining(&self) -> Seq<u8>;

    /// The number of bytes that are left before the end or the bound of this
    /// source once it has delivered `count` more bytes; with a `count` of 0,
    /// the number that are left now. A source that takes out bytes on the
    /// way counts those too.
    spec fn left_after(&self, count: nat) -> nat;

    /// The number of bytes between the start of this source and its end or
    /// bound, read or not. No read changes it.
    spec fn byte_len(&self) -> nat;

    /// Delivering `count` bytes brings the source at least `count` bytes
    /// nearer its bound, so it never has more bytes to deliver than are left
    /// before the bound.
    proof fn lemma_left_after(&self, count: nat)
        requires
            count <= self.remaining().len(),
        ensures
            self.left_after(count) + count <= self.left_after(0),
            self.remaining().len() <= self.left_after(0),
    ;

    /// Reads one byte.
    fn read_byte(&mut self) -> (r: Result<u8, std::io::Error>)
        ensures
            r is Ok <==> old(self).remaining().len() >= 1,
            r is Ok ==> r->Ok_0 == old(self).remaining()[0],
            r is Ok ==> final(self).remaining() == old(self).remaining().skip(1),
            r is Ok ==> forall|more: nat| #[trigger]
                final(self).left_after(more) == old(self).left_after(1 + more),
            r is Ok ==> final(self).byte_len() == old(self).byte_len(),
    ;

    /// Reads two bytes and returns them in the order read.
    fn read_double_bytes(&mut self) -> (r: Result<[u8; 2], std::io::Error>)
        ensures
            r is Ok <==> old(self).remaining().len() >= 2,
            r is Ok ==> r->Ok_0@ == old(self).remaining().take(2),
            r is Ok ==> final(self).remaining() == old(self).remaining().skip(2),
            r is Ok ==> forall|more: nat| #[trigger]
                final(self).left_after(more) == old(self).left_after(2 + more),
            r is Ok ==> final(self).byte_len() == old(self).byte_len(),
    ;

    /// Reads three bytes and returns them in the order read.
    fn read_triple_bytes(&mut self) -> (r: Result<[u8; 3], std::io::Error>)
        ensures
            r is Ok <==> old(self).remaining().len() >= 3,
            r is Ok ==> r->Ok_0@ == old(self).remaining().take(3),
            r is Ok ==> final(self).remaining() == old(self).remaining().skip(3),
            r is Ok ==> forall|more: nat| #[trigger]
                final(self).left_after(more) == old(self).left_after(3 + more),
            r is Ok ==> final(self).byte_len() == old(self).byte_len(),
    ;

    /// Reads four bytes and returns them in the order read.
    fn read_quad_bytes(&mut self) -> (r: Result<[u8; 4], std::io::Error>)
        ensures
            r is Ok <==> old(self).remaining().len() >= 4,
            r is Ok ==> r->Ok_0@ == old(self).remaining().take(4),
            r is Ok ==> final(self).remaining() == old(self).remaining().skip(4),
            r is Ok ==> forall|more: nat| #[trigger]
                final(self).left_after(more) == old(self).left_after(4 + more),
            r is Ok ==> final(self).byte_len() == old(self).byte_len(),
    ;

    /// Fills `buf` with the next `buf.len()` bytes.
    fn read_buf_bytes(&mut self, buf: &mut [u8]) -> (r: Result<(), std::io::Error>)
        ensures
            final(buf)@.len() == old(buf)@.len(),
            r is Ok <==> old(self).remaining().len() >= old(buf)@.len(),
            r is Ok ==> final(buf)@ == old(self).remaining().take(old(buf)@.len() as int),
            r is Ok ==> final(self).remaining() == old(self).remaining().skip(
                old(buf)@.len() as int,
            ),
            r is Ok ==> forall|more: nat| #[trigger]
                final(self).left_after(more) == old(self).left_after(old(buf)@.len() + more),
            r is Ok ==> final(self).byte_len() == old(self).byte_len(),
    ;

    /// Skips the next `count` bytes.
    fn ignore_bytes(&mut self, count: u64) -> (r: Result<(), std::io::Error>)
        requires
            count <= usize::MAX,
        ensures
            r is Ok <==> old(self).remaining().len() >= count,
            r is Ok ==> final(self).remaining() == old(self).remaining().skip(count as int),
            r is Ok ==> forall|more: nat| #[trigger]
                final(self).left_after(more) == old(self).left_after(count as nat + more),
            r is Ok ==> final(self).byte_len() == old(self).byte_len(),
    ;
}

/// `after` is `before` once it has delivered `count` bytes: those bytes are
/// gone from what remains, and whatever is read from here on leaves as many
/// bytes before the bound as it would have left when read behind those
/// `count` bytes from `before`. This is what every successful read of a
/// [`Bytestream`] does to it.
pub open spec fn advanced<B: Bytestream>(before: B, after: B, count: nat) -> bool {
    &&& after.remaining() == before.remaining().skip(count as int)
    &&& forall|more: nat| #[trigger] after.left_after(more) == before.left_after(count + more)
    &&& after.byte_len() == before.byte_len()
}

/// Two steps, one behind the other, make one step of both counts together.
pub proof fn lemma_advanced_twice<B: Bytestream>(
    before: B,
    between: B,
    after: B,
    first: nat,
    second: nat,
)
    requires
        advanced(before, between, first),
        advanced(between, after, second),
        first + second <= before.remaining().len(),
    ensures
        advanced(before, after, first + second),
{
    assert(before.remaining().skip(first as int).skip(second as int) =~= before.remaining().skip(
        (first + second) as int,
    ));
}

/// A source that tells how many bytes are left before its bound.
pub trait FiniteStream: Bytestream {
    /// Returns the number of bytes left before the bound. The source itself
    /// may hold fewer.
    fn bytes_available(&self) -> (n: u64)
        ensures
            n == self.left_after(0),
    ;

    /// Returns the number of bytes from the start of the source to its
    /// bound.
    fn len(&self) -> (n: u64)
        ensures
            n == self.byte_len(),
    ;

    /// Returns the number of bytes counted so far: the length less what is
    /// left before the bound.
    fn bytes_read(&self) -> (n: u64)
        ensures
            n == self.byte_len() - self.left_after(0),
    ;

}

/// The value of two bytes read as a little-endian integer.
pub open spec fn le_u16(bytes: Seq<u8>) -> nat
    recommends
        bytes.len() == 2,
{
    (bytes[0] + 256 * bytes[1]) as nat
}

/// The value of four bytes read as a little-endian integer.
pub open spec fn le_u32(bytes: Seq<u8>) -> nat
    recommends
        bytes.len() == 4,
{
    (bytes[0] + 256 * bytes[1] + 65536 * bytes[2] + 16777216 * bytes[3]) as nat
}

/// Reads one byte as an unsigned integer.
pub fn read_u8<B: Bytestream>(reader: &mut B) -> (r: Result<u8, std::io::Error>)
    ensures
        r is Ok <==> old(reader).remaining().len() >= 1,
        r is Ok ==> r->Ok_0 == old(reader).remaining()[0],
        r is Ok ==> advanced(*old(reader), *final(reader), 1),
{
    reader.read_byte()
}

/// Reads two bytes as a little-endian unsigned integer.
pub fn read_u16<B: Bytestream>(reader: &mut B) -> (r: Result<u16, std::io::Error>)
    ensures
        r is Ok <==> old(reader).remaining().len() >= 2,
        r is Ok ==> r->Ok_0 == le_u16(old(reader).remaining().take(2)),
        r is Ok ==> advanced(*old(reader), *final(reader), 2),
{
    match reader.read_double_bytes() {
        Ok(bytes) => {
            let low: u16 = bytes[0] as u16;
            let high: u16 = bytes[1] as u16;
            assert(low | (high << 8) == low + 256 * high) by (bit_vector)
                requires
                    low < 256,
                    high < 256,
            ;
            Ok(low | (high << 8))
        },
        Err(e) => Err(e),
    }
}

/// Reads four bytes as a little-endian unsigned integer.
pub fn read_u32<B: Bytestream>(reader: &mut B) -> (r: Result<u32, std::io::Error>)
    ensures
        r is Ok <==> old(reader).remaining().len() >= 4,
        r is Ok ==> r->Ok_0 == le_u32(old(reader).remaining().take(4)),
        r is Ok ==> advanced(*old(reader), *final(reader), 4),
{
    match reader.read_quad_bytes() {
        Ok(bytes) => {
            let b0: u32 = bytes[0] as u32;
            let b1: u32 = bytes[1] as u32;
            let b2: u32 = bytes[2] as u32;
            let b3: u32 = bytes[3] as u32;
            assert(b0 | (b1 << 8) | (b2 << 16) | (b3 << 24) == b0 + 256 * b1 + 65536 * b2
                + 16777216 * b3) by (bit_vector)
                requires
                    b0 < 256,
                    b1 < 256,
                    b2 < 256,
                    b3 < 256,
            ;
            Ok(b0 | (b1 << 8) | (b2 << 16) | (b3 << 24))
        },
        Err(e) => Err(e),
    }
}

} // verus!
