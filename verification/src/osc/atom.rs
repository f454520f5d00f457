//! Reading single values off the front of a byte buffer.

use crate::osc::wire::{
    be_i32, be_u32, be_u64, split_float32, split_int32, split_string, split_timestamp,
};
use vstd::prelude::*;

verus! {

/// A cursor over the bytes that have not been read yet. It borrows the
/// caller's buffer and hands out sub-slices of it.
pub struct Parser<'a> {
    bytes: &'a [u8],
}

impl<'a> View for Parser<'a> {
    type V = Seq<u8>;

    /// The bytes that are left.
    closed spec fn view(&self) -> Seq<u8> {
        self.bytes@
    }
}

/// Position of the first zero byte, if there is one.
fn find_nul(bytes: &[u8]) -> (found: Option<usize>)
    ensures
        match found {
            Some(at) => at < bytes@.len() && bytes@.index_of_first(0u8) == Some(at as int),
            None => bytes@.index_of_first(0u8) is None,
        },
{
    let mut at: usize = 0;
    while at < bytes.len() && bytes[at] != 0
        invariant
            at <= bytes@.len(),
            forall|i: int| 0 <= i < at ==> bytes@[i] != 0,
        decreases bytes@.len() - at,
    {
        at += 1;
    }
    proof {
        bytes@.index_of_first_ensures(0u8);
    }
    if at < bytes.len() {
        assert(bytes@[at as int] == 0);
        Some(at)
    } else {
        None
    }
}

/// The unsigned number that four bytes spell, most significant byte first.
fn u32_from_be(quad: &[u8]) -> (value: u32)
    requires
        quad@.len() == 4,
    ensures
        value == be_u32(quad@),
{
    let b0: u32 = quad[0] as u32;
    let b1: u32 = quad[1] as u32;
    let b2: u32 = quad[2] as u32;
    let b3: u32 = quad[3] as u32;
    b0 * 0x100_0000 + b1 * 0x1_0000 + b2 * 0x100 + b3
}

/// The two's complement number that four bytes spell, most significant byte
/// first.
fn i32_from_be(quad: &[u8]) -> (value: i32)
    requires
        quad@.len() == 4,
    ensures
        value == be_i32(quad@),
{
    let unsigned: u32 = u32_from_be(quad);
    if unsigned < 0x8000_0000 {
        unsigned as i32
    } else {
        let above: u32 = unsigned - 0x8000_0000;
        above as i32 + i32::MIN
    }
}

/// The unsigned number that eight bytes spell, most significant byte first.
fn u64_from_be(octet: &[u8]) -> (value: u64)
    requires
        octet@.len() == 8,
    ensures
        value == be_u64(octet@),
{
    let (high, low) = octet.split_at(4);
    let high: u64 = u32_from_be(high) as u64;
    let low: u64 = u32_from_be(low) as u64;
    high * 0x1_0000_0000 + low
}

impl<'a> Parser<'a> {
    /// A cursor at the start of `bytes`.
    pub fn new(bytes: &'a [u8]) -> (parser: Self)
        ensures
            parser@ == bytes@,
    {
        Self { bytes }
    }

    /// Reads a zero-terminated, zero-padded string and moves past its
    /// padding. The content is returned without terminator and padding. On
    /// failure nothing is consumed.
    pub fn read_string(&mut self) -> (r: Result<&'a [u8], ()>)
        ensures
            match split_string(old(self)@) {
                Some((content, rest)) => r matches Ok(s) && s@ == content && final(self)@ == rest,
                None => r is Err && final(self)@ == old(self)@,
            },
    {
        let bytes: &'a [u8] = self.bytes;
        let len: usize = match find_nul(bytes) {
            Some(at) => at,
            None => {
                return Err(());
            },
        };
        let whole_blocks: usize = len / 4 * 4;
        if bytes.len() - whole_blocks < 4 {
            return Err(());
        }
        let (s, rest) = bytes.split_at(whole_blocks + 4);
        self.bytes = rest;
        Ok(&s[0..len])
    }

    /// Reads a big-endian signed 32-bit integer. On failure nothing is
    /// consumed.
    pub fn read_int32(&mut self) -> (r: Result<i32, ()>)
        ensures
            match split_int32(old(self)@) {
                Some((value, rest)) => r == Ok::<i32, ()>(value) && final(self)@ == rest,
                None => r is Err && final(self)@ == old(self)@,
            },
    {
        if self.bytes.len() < 4 {
            return Err(());
        }
        let (quad, rest) = self.bytes.split_at(4);
        self.bytes = rest;
        Ok(i32_from_be(quad))
    }

    /// Reads the bit pattern of a big-endian IEEE-754 binary32 number. On
    /// failure nothing is consumed.
    pub fn read_float32(&mut self) -> (r: Result<u32, ()>)
        ensures
            match split_float32(old(self)@) {
                Some((bits, rest)) => r == Ok::<u32, ()>(bits) && final(self)@ == rest,
                None => r is Err && final(self)@ == old(self)@,
            },
    {
        if self.bytes.len() < 4 {
            return Err(());
        }
        let (quad, rest) = self.bytes.split_at(4);
        self.bytes = rest;
        Ok(u32_from_be(quad))
    }

    /// Reads an eight-byte timestamp as one big-endian number. On failure
    /// nothing is consumed.
    pub fn read_timestamp(&mut self) -> (r: Result<u64, ()>)
        ensures
            match split_timestamp(old(self)@) {
                Some((timestamp, rest)) => r == Ok::<u64, ()>(timestamp) && final(self)@ == rest,
                None => r is Err && final(self)@ == old(self)@,
            },
    {
        if self.bytes.len() < 8 {
            return Err(());
        }
        let (octet, rest) = self.bytes.split_at(8);
        self.bytes = rest;
        Ok(u64_from_be(octet))
    }

    /// Whether every byte has been read.
    pub fn is_end_of_data(&self) -> (end: bool)
        ensures
            end == (self@.len() == 0),
    {
        self.bytes.is_empty()
    }

    /// The bytes that are left, for a decoder that takes over from here.
    pub fn rest(&self) -> (bytes: &'a [u8])
        ensures
            bytes@ == self@,
    {
        self.bytes
    }
}

} // verus!
