//! A reader over a byte slice that refuses to read past a bound: the bounded
//! stream of `symphonia_core` over its slice reader.

use crate::buf_reader::buf_unread;
use crate::io::{Bytestream, FiniteStream};
use symphonia_core::io::{BufReader, ReadBytes, ScopedStream};
use vstd::prelude::*;

verus! {

/// A `BufReader` behind a `ScopedStream`, which counts the bytes asked of it
/// and fails every read that would take the count over its bound, whatever
/// the slice still holds.
///
/// Beyond what [`Bytestream`] asks, each read of this reader says what it
/// does to the count, on failure too: see [`scoped_read_step`].
#[verifier::external_body]
pub struct ScopedReader<'a> {
    inner: ScopedStream<BufReader<'a>>,
}

/// What the slice reader inside has not read yet.
pub uninterp spec fn scoped_unread(reader: ScopedReader) -> Seq<u8>;

/// The bound of the `ScopedStream` less the bytes counted so far.
pub uninterp spec fn scoped_budget(reader: ScopedReader) -> nat;

/// The bound that the `ScopedStream` was made with, which no read changes.
pub uninterp spec fn scoped_len(reader: ScopedReader) -> nat;

/// The first `budget` bytes of `unread`, or all of it if it has fewer.
pub open spec fn bounded(unread: Seq<u8>, budget: nat) -> Seq<u8> {
    if budget < unread.len() {
        unread.take(budget as int)
    } else {
        unread
    }
}

/// What a read of exactly `k` bytes does to a `ScopedStream` over a
/// `BufReader`. With fewer than `k` bytes of budget it fails and changes
/// nothing. Else it counts `k` bytes first and then asks the slice reader,
/// which fails, unmoved, if it holds fewer than `k` bytes, and else gives its
/// first `k` bytes and moves past them. The bound stays what it was.
pub open spec fn scoped_read_step(
    before: ScopedReader,
    after: ScopedReader,
    k: nat,
    got: Option<Seq<u8>>,
) -> bool {
    let budget = scoped_budget(before);
    let unread = scoped_unread(before);
    &&& scoped_len(after) == scoped_len(before)
    &&& if budget < k {
        &&& got is None
        &&& scoped_budget(after) == budget
        &&& scoped_unread(after) == unread
    } else if unread.len() < k {
        &&& got is None
        &&& scoped_budget(after) == budget - k
        &&& scoped_unread(after) == unread
    } else {
        &&& got == Some(unread.take(k as int))
        &&& scoped_budget(after) == budget - k
        &&& scoped_unread(after) == unread.skip(k as int)
    }
}

/// `ScopedStream::new` over a `BufReader`: the bound is `len`, nothing is
/// counted yet, so the budget is `len` too, and the slice reader is taken as
/// it is.
#[verifier::external_body]
fn scoped_new<'a>(inner: BufReader<'a>, len: u64) -> (reader: ScopedReader<'a>)
    ensures
        scoped_unread(reader) == buf_unread(inner),
        scoped_budget(reader) == len,
        scoped_len(reader) == len,
{
    ScopedReader { inner: ScopedStream::new(inner, len) }
}

/// `ScopedStream::bytes_available`: the bound less the bytes counted.
#[verifier::external_body]
fn scoped_bytes_available(reader: &ScopedReader) -> (n: u64)
    ensures
        n == scoped_budget(*reader),
{
    symphonia_core::io::FiniteStream::bytes_available(&reader.inner)
}

/// `ScopedStream::byte_len`: the bound.
#[verifier::external_body]
fn scoped_byte_len(reader: &ScopedReader) -> (n: u64)
    ensures
        n == scoped_len(*reader),
{
    symphonia_core::io::FiniteStream::byte_len(&reader.inner)
}

/// `ScopedStream::bytes_read`: the bytes counted, which with the budget
/// make up the bound.
#[verifier::external_body]
fn scoped_bytes_read(reader: &ScopedReader) -> (n: u64)
    ensures
        n + scoped_budget(*reader) == scoped_len(*reader),
{
    symphonia_core::io::FiniteStream::bytes_read(&reader.inner)
}

/// `ScopedStream::read_byte` over `BufReader::read_byte`.
#[verifier::external_body]
fn scoped_read_byte(reader: &mut ScopedReader) -> (r: Result<u8, std::io::Error>)
    ensures
        scoped_read_step(
            *old(reader),
            *final(reader),
            1,
            match r {
                Ok(byte) => Some(seq![byte]),
                Err(_) => None,
            },
        ),
{
    ReadBytes::read_byte(&mut reader.inner)
}

/// `ScopedStream::read_double_bytes` over `BufReader::read_double_bytes`.
#[verifier::external_body]
fn scoped_read_double_bytes(reader: &mut ScopedReader) -> (r: Result<[u8; 2], std::io::Error>)
    ensures
        scoped_read_step(
            *old(reader),
            *final(reader),
            2,
            match r {
                Ok(bytes) => Some(bytes@),
                Err(_) => None,
            },
        ),
{
    ReadBytes::read_double_bytes(&mut reader.inner)
}

/// `ScopedStream::read_triple_bytes` over `BufReader::read_triple_bytes`.
#[verifier::external_body]
fn scoped_read_triple_bytes(reader: &mut ScopedReader) -> (r: Result<[u8; 3], std::io::Error>)
    ensures
        scoped_read_step(
            *old(reader),
            *final(reader),
            3,
            match r {
                Ok(bytes) => Some(bytes@),
                Err(_) => None,
            },
        ),
{
    ReadBytes::read_triple_bytes(&mut reader.inner)
}

/// `ScopedStream::read_quad_bytes` over `BufReader::read_quad_bytes`.
#[verifier::external_body]
fn scoped_read_quad_bytes(reader: &mut ScopedReader) -> (r: Result<[u8; 4], std::io::Error>)
    ensures
        scoped_read_step(
            *old(reader),
            *final(reader),
            4,
            match r {
                Ok(bytes) => Some(bytes@),
                Err(_) => None,
            },
        ),
{
    ReadBytes::read_quad_bytes(&mut reader.inner)
}

/// `ScopedStream::read_buf_exact` over `BufReader::read_buf_exact`: fails,
/// and changes nothing, when the budget or the unread bytes are fewer than
/// the buffer holds; else fills the whole buffer with the first unread bytes,
/// moves past them and counts them. The bound stays what it was.
#[verifier::external_body]
fn scoped_read_buf_exact(reader: &mut ScopedReader, buf: &mut [u8]) -> (r: Result<
    (),
    std::io::Error,
>)
    ensures
        r is Ok <==> scoped_budget(*old(reader)) >= old(buf)@.len() && scoped_unread(
            *old(reader),
        ).len() >= old(buf)@.len(),
        r is Ok ==> final(buf)@ == scoped_unread(*old(reader)).take(old(buf)@.len() as int),
        r is Ok ==> scoped_unread(*final(reader)) == scoped_unread(*old(reader)).skip(
            old(buf)@.len() as int,
        ),
        r is Ok ==> scoped_budget(*final(reader)) == scoped_budget(*old(reader)) - old(buf)@.len(),
        r is Err ==> final(buf)@ == old(buf)@,
        r is Err ==> scoped_unread(*final(reader)) == scoped_unread(*old(reader)),
        r is Err ==> scoped_budget(*final(reader)) == scoped_budget(*old(reader)),
        scoped_len(*final(reader)) == scoped_len(*old(reader)),
{
    ReadBytes::read_buf_exact(&mut reader.inner, buf)
}

/// `ScopedStream::ignore_bytes` over `BufReader::ignore_bytes`: a read of
/// `count` bytes that returns none of them. The count has to fit the
/// machine's word, to which the slice reader narrows it.
#[verifier::external_body]
fn scoped_ignore_bytes(reader: &mut ScopedReader, count: u64) -> (r: Result<(), std::io::Error>)
    requires
        count <= usize::MAX,
    ensures
        scoped_read_step(
            *old(reader),
            *final(reader),
            count as nat,
            match r {
                Ok(_) => Some(scoped_unread(*old(reader)).take(count as int)),
                Err(_) => None,
            },
        ),
{
    ReadBytes::ignore_bytes(&mut reader.inner, count)
}

impl<'a> ScopedReader<'a> {
    /// Puts a bound of `len` bytes on what may be read from `inner`.
    pub fn new(inner: BufReader<'a>, len: u64) -> (reader: Self)
        ensures
            scoped_unread(reader) == buf_unread(inner),
            scoped_budget(reader) == len,
            scoped_len(reader) == len,
            reader.remaining() == bounded(buf_unread(inner), len as nat),
            reader.left_after(0) == len,
    {
        scoped_new(inner, len)
    }
}

impl<'a> Bytestream for ScopedReader<'a> {
    /// The unread bytes as far as the budget reaches.
    open spec fn remaining(&self) -> Seq<u8> {
        bounded(scoped_unread(*self), scoped_budget(*self))
    }

    open spec fn byte_len(&self) -> nat {
        scoped_len(*self)
    }

    /// The budget less `count`.
    open spec fn left_after(&self, count: nat) -> nat {
        if count <= scoped_budget(*self) {
            (scoped_budget(*self) - count) as nat
        } else {
            0
        }
    }

    proof fn lemma_left_after(&self, count: nat) {
    }

    fn read_byte(&mut self) -> (r: Result<u8, std::io::Error>)
        ensures
            scoped_read_step(
                *old(self),
                *final(self),
                1,
                match r {
                    Ok(byte) => Some(seq![byte]),
                    Err(_) => None,
                },
            ),
    {
        let r = scoped_read_byte(self);
        proof {
            lemma_bounded_read(scoped_unread(*old(self)), scoped_budget(*old(self)), 1);
            if r is Ok {
                assert(seq![r->Ok_0][0] == r->Ok_0);
            }
        }
        r
    }

    fn read_double_bytes(&mut self) -> (r: Result<[u8; 2], std::io::Error>)
        ensures
            scoped_read_step(
                *old(self),
                *final(self),
                2,
                match r {
                    Ok(bytes) => Some(bytes@),
                    Err(_) => None,
                },
            ),
    {
        let r = scoped_read_double_bytes(self);
        proof {
            lemma_bounded_read(scoped_unread(*old(self)), scoped_budget(*old(self)), 2);
        }
        r
    }

    fn read_triple_bytes(&mut self) -> (r: Result<[u8; 3], std::io::Error>)
        ensures
            scoped_read_step(
                *old(self),
                *final(self),
                3,
                match r {
                    Ok(bytes) => Some(bytes@),
                    Err(_) => None,
                },
            ),
    {
        let r = scoped_read_triple_bytes(self);
        proof {
            lemma_bounded_read(scoped_unread(*old(self)), scoped_budget(*old(self)), 3);
        }
        r
    }

    fn read_quad_bytes(&mut self) -> (r: Result<[u8; 4], std::io::Error>)
        ensures
            scoped_read_step(
                *old(self),
                *final(self),
                4,
                match r {
                    Ok(bytes) => Some(bytes@),
                    Err(_) => None,
                },
            ),
    {
        let r = scoped_read_quad_bytes(self);
        proof {
            lemma_bounded_read(scoped_unread(*old(self)), scoped_budget(*old(self)), 4);
        }
        r
    }

    fn read_buf_bytes(&mut self, buf: &mut [u8]) -> (r: Result<(), std::io::Error>)
        ensures
            r is Ok ==> scoped_budget(*final(self)) == scoped_budget(*old(self)) - old(buf)@.len(),
            r is Err ==> final(buf)@ == old(buf)@,
            r is Err ==> scoped_unread(*final(self)) == scoped_unread(*old(self)),
            r is Err ==> scoped_budget(*final(self)) == scoped_budget(*old(self)),
    {
        let r = scoped_read_buf_exact(self, buf);
        proof {
            lemma_bounded_read(
                scoped_unread(*old(self)),
                scoped_budget(*old(self)),
                old(buf)@.len(),
            );
        }
        r
    }

    fn ignore_bytes(&mut self, count: u64) -> (r: Result<(), std::io::Error>)
        ensures
            scoped_read_step(
                *old(self),
                *final(self),
                count as nat,
                match r {
                    Ok(_) => Some(scoped_unread(*old(self)).take(count as int)),
                    Err(_) => None,
                },
            ),
    {
        let r = scoped_ignore_bytes(self, count);
        proof {
            lemma_bounded_read(scoped_unread(*old(self)), scoped_budget(*old(self)), count as nat);
        }
        r
    }
}

impl<'a> FiniteStream for ScopedReader<'a> {
    fn bytes_available(&self) -> (n: u64) {
        scoped_bytes_available(self)
    }

    fn len(&self) -> (n: u64) {
        scoped_byte_len(self)
    }

    fn bytes_read(&self) -> (n: u64) {
        scoped_bytes_read(self)
    }
}

/// Reading `k` bytes from a bounded sequence: there are `k` of them exactly
/// when budget and sequence both reach that far, and then the first `k` are
/// those of the sequence, and the rest is the rest of the sequence under the
/// rest of the budget.
pub proof fn lemma_bounded_read(unread: Seq<u8>, budget: nat, k: nat)
    ensures
        bounded(unread, budget).len() >= k <==> budget >= k && unread.len() >= k,
        budget >= k && unread.len() >= k ==> bounded(unread, budget).take(k as int)
            == unread.take(k as int),
        budget >= k && unread.len() >= k ==> bounded(unread, budget).skip(k as int) == bounded(
            unread.skip(k as int),
            (budget - k) as nat,
        ),
{
}

} // verus!
