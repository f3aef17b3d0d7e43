//! `symphonia_core`'s reader over a byte slice as a [`Bytestream`].

use crate::io::Bytestream;
use symphonia_core::io::{BufReader, ReadBytes};
use vstd::prelude::*;

verus! {

#[verifier::external_type_specification]
#[verifier::external_body]
pub struct ExBufReader<'a>(BufReader<'a>);

/// The bytes of a `BufReader`'s slice from its position to the end: what it
/// has not read yet.
pub uninterp spec fn buf_unread(reader: BufReader) -> Seq<u8>;

/// The length of a `BufReader`'s whole slice, which no read changes.
pub uninterp spec fn buf_len(reader: BufReader) -> nat;

/// `BufReader::new`: a reader at the front of `buf`, with all of it unread.
pub assume_specification<'a>[ BufReader::<'a>::new ](buf: &'a [u8]) -> (reader: BufReader<'a>)
    ensures
        buf_unread(reader) == buf@,
        buf_len(reader) == buf@.len(),
;

/// `BufReader::read_byte`: fails, and leaves the reader as it is, when no
/// byte is unread; else returns the first unread byte and moves past it.
/// Like every read, it leaves the slice itself, and so its length, alone.
#[verifier::external_body]
fn buf_read_byte(reader: &mut BufReader) -> (r: Result<u8, std::io::Error>)
    ensures
        r is Ok <==> buf_unread(*old(reader)).len() >= 1,
        r is Ok ==> r->Ok_0 == buf_unread(*old(reader))[0],
        r is Ok ==> buf_unread(*final(reader)) == buf_unread(*old(reader)).skip(1),
        r is Err ==> buf_unread(*final(reader)) == buf_unread(*old(reader)),
        buf_len(*final(reader)) == buf_len(*old(reader)),
{
    ReadBytes::read_byte(reader)
}

/// `BufReader::read_double_bytes`: fails, and leaves the reader as it is,
/// when fewer than two bytes are unread; else returns the first two unread
/// bytes and moves past them.
#[verifier::external_body]
fn buf_read_double_bytes(reader: &mut BufReader) -> (r: Result<[u8; 2], std::io::Error>)
    ensures
        r is Ok <==> buf_unread(*old(reader)).len() >= 2,
        r is Ok ==> r->Ok_0@ == buf_unread(*old(reader)).take(2),
        r is Ok ==> buf_unread(*final(reader)) == buf_unread(*old(reader)).skip(2),
        r is Err ==> buf_unread(*final(reader)) == buf_unread(*old(reader)),
        buf_len(*final(reader)) == buf_len(*old(reader)),
{
    ReadBytes::read_double_bytes(reader)
}

/// `BufReader::read_triple_bytes`: as `read_double_bytes`, with three bytes.
#[verifier::external_body]
fn buf_read_triple_bytes(reader: &mut BufReader) -> (r: Result<[u8; 3], std::io::Error>)
    ensures
        r is Ok <==> buf_unread(*old(reader)).len() >= 3,
        r is Ok ==> r->Ok_0@ == buf_unread(*old(reader)).take(3),
        r is Ok ==> buf_unread(*final(reader)) == buf_unread(*old(reader)).skip(3),
        r is Err ==> buf_unread(*final(reader)) == buf_unread(*old(reader)),
        buf_len(*final(reader)) == buf_len(*old(reader)),
{
    ReadBytes::read_triple_bytes(reader)
}

/// `BufReader::read_quad_bytes`: as `read_double_bytes`, with four bytes.
#[verifier::external_body]
fn buf_read_quad_bytes(reader: &mut BufReader) -> (r: Result<[u8; 4], std::io::Error>)
    ensures
        r is Ok <==> buf_unread(*old(reader)).len() >= 4,
        r is Ok ==> r->Ok_0@ == buf_unread(*old(reader)).take(4),
        r is Ok ==> buf_unread(*final(reader)) == buf_unread(*old(reader)).skip(4),
        r is Err ==> buf_unread(*final(reader)) == buf_unread(*old(reader)),
        buf_len(*final(reader)) == buf_len(*old(reader)),
{
    ReadBytes::read_quad_bytes(reader)
}

/// `BufReader::read_buf_exact`: fails, and leaves reader and buffer as they
/// are, when fewer bytes are unread than the buffer holds; else copies the
/// first unread bytes over the whole buffer and moves past them.
#[verifier::external_body]
fn buf_read_buf_exact(reader: &mut BufReader, buf: &mut [u8]) -> (r: Result<(), std::io::Error>)
    ensures
        r is Ok <==> buf_unread(*old(reader)).len() >= old(buf)@.len(),
        r is Ok ==> final(buf)@ == buf_unread(*old(reader)).take(old(buf)@.len() as int),
        r is Ok ==> buf_unread(*final(reader)) == buf_unread(*old(reader)).skip(
            old(buf)@.len() as int,
        ),
        r is Err ==> final(buf)@ == old(buf)@,
        r is Err ==> buf_unread(*final(reader)) == buf_unread(*old(reader)),
        buf_len(*final(reader)) == buf_len(*old(reader)),
{
    ReadBytes::read_buf_exact(reader, buf)
}

/// `BufReader::ignore_bytes`: fails, and leaves the reader as it is, when
/// fewer than `count` bytes are unread; else moves past `count` bytes. The
/// count has to fit the machine's word, to which the reader narrows it.
#[verifier::external_body]
fn buf_ignore_bytes(reader: &mut BufReader, count: u64) -> (r: Result<(), std::io::Error>)
    requires
        count <= usize::MAX,
    ensures
        r is Ok <==> buf_unread(*old(reader)).len() >= count,
        r is Ok ==> buf_unread(*final(reader)) == buf_unread(*old(reader)).skip(count as int),
        r is Err ==> buf_unread(*final(reader)) == buf_unread(*old(reader)),
        buf_len(*final(reader)) == buf_len(*old(reader)),
{
    ReadBytes::ignore_bytes(reader, count)
}

impl<'a> Bytestream for BufReader<'a> {
    open spec fn remaining(&self) -> Seq<u8> {
        buf_unread(*self)
    }

    open spec fn byte_len(&self) -> nat {
        buf_len(*self)
    }

    /// A slice reader has no bound but the end of its slice.
    open spec fn left_after(&self, count: nat) -> nat {
        if count <= buf_unread(*self).len() {
            (buf_unread(*self).len() - count) as nat
        } else {
            0
        }
    }

    proof fn lemma_left_after(&self, count: nat) {
    }

    fn read_byte(&mut self) -> (r: Result<u8, std::io::Error>) {
        buf_read_byte(self)
    }

    fn read_double_bytes(&mut self) -> (r: Result<[u8; 2], std::io::Error>) {
        buf_read_double_bytes(self)
    }

    fn read_triple_bytes(&mut self) -> (r: Result<[u8; 3], std::io::Error>) {
        buf_read_triple_bytes(self)
    }

    fn read_quad_bytes(&mut self) -> (r: Result<[u8; 4], std::io::Error>) {
        buf_read_quad_bytes(self)
    }

    fn read_buf_bytes(&mut self, buf: &mut [u8]) -> (r: Result<(), std::io::Error>) {
        buf_read_buf_exact(self, buf)
    }

    fn ignore_bytes(&mut self, count: u64) -> (r: Result<(), std::io::Error>) {
        buf_ignore_bytes(self, count)
    }
}

} // verus!
