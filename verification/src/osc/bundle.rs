//! A bundle: a timestamp and a stream of length-prefixed messages.

use crate::osc::wire::{parse_bundle, BundleView, BUNDLE_TAG};
use crate::osc::{atom, bytes_equal, message};
use vstd::prelude::*;

verus! {

/// A bundle whose header has been read. Messages are sliced off the stream one
/// per call.
pub struct Parser<'a> {
    timestamp: u64,
    bytes: &'a [u8],
}

impl<'a> View for Parser<'a> {
    type V = BundleView;

    closed spec fn view(&self) -> BundleView {
        BundleView { timestamp: self.timestamp, stream: self.bytes@ }
    }
}

impl<'a> Parser<'a> {
    /// Reads the header of the bundle that `bytes` holds: the string
    /// `#bundle`, then the timestamp.
    pub fn new(bytes: &'a [u8]) -> (r: Result<Self, ()>)
        ensures
            match parse_bundle(bytes@) {
                Some(bundle) => r matches Ok(parser) && parser@ == bundle,
                None => r is Err,
            },
    {
        let mut atom_parser = atom::Parser::new(bytes);
        let s = atom_parser.read_string()?;
        if !bytes_equal(s, BUNDLE_TAG.as_slice()) {
            return Err(());
        }
        let timestamp = atom_parser.read_timestamp()?;
        let bytes = atom_parser.rest();
        Ok(Self { timestamp, bytes })
    }

    /// Whether every element has been read.
    pub fn is_end_of_data(&self) -> (end: bool)
        ensures
            end == self@.is_end_of_data(),
    {
        self.bytes.is_empty()
    }

    /// Reads the length of the next element, slices as many bytes off the
    /// stream and reads a message header from them. Fails, consuming nothing,
    /// where the length cannot be read, is negative or exceeds what is left.
    /// Fails, with the element consumed, where it holds no message header.
    pub fn read_message(&mut self) -> (r: Result<message::Parser<'a>, ()>)
        ensures
            final(self)@ == old(self)@.next_message().0,
            match old(self)@.next_message().1 {
                Some(message) => r matches Ok(parser) && parser@ == message,
                None => r is Err,
            },
    {
        let mut atom_parser = atom::Parser::new(self.bytes);
        let message_len: i32 = atom_parser.read_int32()?;
        let after_len = atom_parser.rest();
        if message_len < 0 || message_len as usize > after_len.len() {
            return Err(());
        }
        let (message_bytes, rest) = after_len.split_at(message_len as usize);
        self.bytes = rest;
        message::Parser::new(message_bytes)
    }

    /// The timestamp, as the one number that its eight bytes spell.
    pub fn timestamp(&self) -> (timestamp: u64)
        ensures
            timestamp == self@.timestamp,
    {
        self.timestamp
    }
}

} // verus!
